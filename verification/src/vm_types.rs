//! Value types shared by the virtual machine: decoded instructions and
//! their parameters, offset reach, players, and a few aliases.

use vstd::prelude::*;
use crate::MAX_PARAMS;
use crate::ops::{OpType, ParamType};

verus! {

/// A loaded player: its caller-supplied id and the fields of its binary's
/// header.
#[derive(Debug)]
pub struct Player {
    pub id: PlayerId,
    pub name: String,
    pub comment: String,
    pub size: usize,
}

/// A fully decoded instruction: its opcode, its parameters (unused slots
/// hold the default parameter), and its total size in bytes on the wire.
#[derive(Debug, Clone, Copy, PartialEq)]
pub struct Instruction {
    pub kind: OpType,
    pub params: [Param; MAX_PARAMS],
    pub byte_size: usize,
}

/// A decoded parameter: its type and its value, widened to 32 bits.
#[derive(Debug, Clone, Copy, PartialEq, Eq, Structural)]
pub struct Param {
    pub kind: ParamType,
    pub value: i32,
}

impl Default for Param {
    fn default() -> (r: Self)
        ensures
            r == Param::default_spec(),
    {
        Param { kind: ParamType::Register, value: 0 }
    }
}

impl Param {
    /// The filler parameter stored in unused instruction slots.
    pub open spec fn default_spec() -> Param {
        Param { kind: ParamType::Register, value: 0 }
    }
}

/// How far an operand offset may reach: `Limited` wraps it to `IDX_MOD`,
/// `Long` to the whole arena.
#[derive(Debug, Clone, Copy, PartialEq, Eq, Structural)]
pub enum OffsetType {
    Limited,
    Long,
}

/// The monotonic source of process ids.
#[derive(Debug)]
pub struct PidPool(pub Pid);

impl PidPool {
    pub fn new() -> (r: Self)
        ensures
            r.0 == 0,
    {
        PidPool(0)
    }

    /// Hands out the next pid and moves past it.
    pub fn get(&mut self) -> (r: Pid)
        ensures
            r == old(self).0,
            final(self).0 == vstd::wrapping::u32_specs::wrapping_add(old(self).0, 1),
    {
        let next = self.0.wrapping_add(1);
        let current = self.0;
        self.0 = next;
        current
    }
}

impl Default for PidPool {
    fn default() -> (r: Self)
        ensures
            r.0 == 0,
    {
        PidPool(0)
    }
}

pub type Register = i32;

pub type Pid = u32;

pub type Registers = [Register; crate::REG_COUNT];

pub type PlayerId = i32;

} // verus!
