//! The assembler's abstract syntax: one constructor per mnemonic, with the
//! parameter shapes the instruction set allows, and the conversions the
//! parser uses to build them.

use vstd::prelude::*;
use crate::{DIR_PARAM_CODE, IND_PARAM_CODE, REG_PARAM_CODE};

verus! {

/// A parsed operation: the opcode and its typed parameters.
#[derive(Debug, PartialEq, Eq)]
pub enum Op {
    Live(Direct),
    Ld(DirInd, Register),
    St(Register, RegInd),
    Add(Register, Register, Register),
    Sub(Register, Register, Register),
    And(AnyParam, AnyParam, Register),
    Or(AnyParam, AnyParam, Register),
    Xor(AnyParam, AnyParam, Register),
    Zjmp(Direct),
    Ldi(AnyParam, RegDir, Register),
    Sti(Register, AnyParam, RegDir),
    Fork(Direct),
    Lld(DirInd, Register),
    Lldi(AnyParam, RegDir, Register),
    Lfork(Direct),
    Aff(Register),
}

/// A register operand: an index in `1..=REG_COUNT`.
#[derive(Debug, PartialEq, Eq)]
pub struct Register(pub u8);

/// A direct operand: a literal, or a label whose address is filled in at
/// compile time.
#[derive(Debug, PartialEq, Eq)]
pub enum Direct {
    Label(String),
    Numeric(i64),
}

/// An indirect operand: a two-byte offset, literal or label.
#[derive(Debug, PartialEq, Eq)]
pub enum Indirect {
    Label(String),
    Numeric(i64),
}

#[derive(Debug, PartialEq, Eq)]
pub enum RegDir {
    Reg(Register),
    Dir(Direct),
}

#[derive(Debug, PartialEq, Eq)]
pub enum RegInd {
    Reg(Register),
    Ind(Indirect),
}

#[derive(Debug, PartialEq, Eq)]
pub enum DirInd {
    Dir(Direct),
    Ind(Indirect),
}

#[derive(Debug, PartialEq, Eq)]
pub enum AnyParam {
    Reg(Register),
    Dir(Direct),
    Ind(Indirect),
}

/// Whether a register index is one the machine has.
pub open spec fn reg_wf(r: Register) -> bool {
    1 <= r.0 <= crate::REG_COUNT
}

pub open spec fn reg_dir_wf(p: RegDir) -> bool {
    match p {
        RegDir::Reg(r) => reg_wf(r),
        RegDir::Dir(_) => true,
    }
}

pub open spec fn reg_ind_wf(p: RegInd) -> bool {
    match p {
        RegInd::Reg(r) => reg_wf(r),
        RegInd::Ind(_) => true,
    }
}

pub open spec fn any_wf(p: AnyParam) -> bool {
    match p {
        AnyParam::Reg(r) => reg_wf(r),
        AnyParam::Dir(_) => true,
        AnyParam::Ind(_) => true,
    }
}

/// Every register operand of the operation names a register in
/// `1..=REG_COUNT`, as the parser guarantees of everything it returns.
pub open spec fn op_wf(op: Op) -> bool {
    match op {
        Op::Live(_) => true,
        Op::Ld(_, r) => reg_wf(r),
        Op::St(r, ri) => reg_wf(r) && reg_ind_wf(ri),
        Op::Add(a, b, c) => reg_wf(a) && reg_wf(b) && reg_wf(c),
        Op::Sub(a, b, c) => reg_wf(a) && reg_wf(b) && reg_wf(c),
        Op::And(a, b, c) => any_wf(a) && any_wf(b) && reg_wf(c),
        Op::Or(a, b, c) => any_wf(a) && any_wf(b) && reg_wf(c),
        Op::Xor(a, b, c) => any_wf(a) && any_wf(b) && reg_wf(c),
        Op::Zjmp(_) => true,
        Op::Ldi(a, b, c) => any_wf(a) && reg_dir_wf(b) && reg_wf(c),
        Op::Sti(a, b, c) => reg_wf(a) && any_wf(b) && reg_dir_wf(c),
        Op::Fork(_) => true,
        Op::Lld(_, r) => reg_wf(r),
        Op::Lldi(a, b, c) => any_wf(a) && reg_dir_wf(b) && reg_wf(c),
        Op::Lfork(_) => true,
        Op::Aff(r) => reg_wf(r),
    }
}

/// The two-bit wire code of each operand shape.
pub trait ToParamCode {
    /// The two-bit code this operand contributes to an operand-type byte.
    fn param_code(&self) -> u8;
}

impl ToParamCode for Register {
    fn param_code(&self) -> (r: u8)
        ensures
            r == REG_PARAM_CODE,
    {
        REG_PARAM_CODE
    }
}

impl ToParamCode for Direct {
    fn param_code(&self) -> (r: u8)
        ensures
            r == DIR_PARAM_CODE,
    {
        DIR_PARAM_CODE
    }
}

impl ToParamCode for Indirect {
    fn param_code(&self) -> (r: u8)
        ensures
            r == IND_PARAM_CODE,
    {
        IND_PARAM_CODE
    }
}

impl From<i64> for Direct {
    fn from(n: i64) -> (r: Self) {
        Direct::Numeric(n)
    }
}

impl vstd::std_specs::convert::FromSpecImpl<i64> for Direct {
    open spec fn obeys_from_spec() -> bool {
        true
    }

    open spec fn from_spec(n: i64) -> Self {
        Direct::Numeric(n)
    }
}

impl From<i64> for Indirect {
    fn from(n: i64) -> (r: Self) {
        Indirect::Numeric(n)
    }
}

impl vstd::std_specs::convert::FromSpecImpl<i64> for Indirect {
    open spec fn obeys_from_spec() -> bool {
        true
    }

    open spec fn from_spec(n: i64) -> Self {
        Indirect::Numeric(n)
    }
}

impl From<Register> for RegDir {
    fn from(x: Register) -> (r: Self) {
        RegDir::Reg(x)
    }
}

impl vstd::std_specs::convert::FromSpecImpl<Register> for RegDir {
    open spec fn obeys_from_spec() -> bool {
        true
    }

    open spec fn from_spec(x: Register) -> Self {
        RegDir::Reg(x)
    }
}

impl From<Direct> for RegDir {
    fn from(x: Direct) -> (r: Self) {
        RegDir::Dir(x)
    }
}

impl vstd::std_specs::convert::FromSpecImpl<Direct> for RegDir {
    open spec fn obeys_from_spec() -> bool {
        true
    }

    open spec fn from_spec(x: Direct) -> Self {
        RegDir::Dir(x)
    }
}

impl From<Register> for RegInd {
    fn from(x: Register) -> (r: Self) {
        RegInd::Reg(x)
    }
}

impl vstd::std_specs::convert::FromSpecImpl<Register> for RegInd {
    open spec fn obeys_from_spec() -> bool {
        true
    }

    open spec fn from_spec(x: Register) -> Self {
        RegInd::Reg(x)
    }
}

impl From<Indirect> for RegInd {
    fn from(x: Indirect) -> (r: Self) {
        RegInd::Ind(x)
    }
}

impl vstd::std_specs::convert::FromSpecImpl<Indirect> for RegInd {
    open spec fn obeys_from_spec() -> bool {
        true
    }

    open spec fn from_spec(x: Indirect) -> Self {
        RegInd::Ind(x)
    }
}

impl From<Direct> for DirInd {
    fn from(x: Direct) -> (r: Self) {
        DirInd::Dir(x)
    }
}

impl vstd::std_specs::convert::FromSpecImpl<Direct> for DirInd {
    open spec fn obeys_from_spec() -> bool {
        true
    }

    open spec fn from_spec(x: Direct) -> Self {
        DirInd::Dir(x)
    }
}

impl From<Indirect> for DirInd {
    fn from(x: Indirect) -> (r: Self) {
        DirInd::Ind(x)
    }
}

impl vstd::std_specs::convert::FromSpecImpl<Indirect> for DirInd {
    open spec fn obeys_from_spec() -> bool {
        true
    }

    open spec fn from_spec(x: Indirect) -> Self {
        DirInd::Ind(x)
    }
}

impl From<Register> for AnyParam {
    fn from(x: Register) -> (r: Self) {
        AnyParam::Reg(x)
    }
}

impl vstd::std_specs::convert::FromSpecImpl<Register> for AnyParam {
    open spec fn obeys_from_spec() -> bool {
        true
    }

    open spec fn from_spec(x: Register) -> Self {
        AnyParam::Reg(x)
    }
}

impl From<Direct> for AnyParam {
    fn from(x: Direct) -> (r: Self) {
        AnyParam::Dir(x)
    }
}

impl vstd::std_specs::convert::FromSpecImpl<Direct> for AnyParam {
    open spec fn obeys_from_spec() -> bool {
        true
    }

    open spec fn from_spec(x: Direct) -> Self {
        AnyParam::Dir(x)
    }
}

impl From<Indirect> for AnyParam {
    fn from(x: Indirect) -> (r: Self) {
        AnyParam::Ind(x)
    }
}

impl vstd::std_specs::convert::FromSpecImpl<Indirect> for AnyParam {
    open spec fn obeys_from_spec() -> bool {
        true
    }

    open spec fn from_spec(x: Indirect) -> Self {
        AnyParam::Ind(x)
    }
}

} // verus!
