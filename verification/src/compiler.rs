//! Compiling an assembled champion into its binary: a first pass fixes
//! every label's position and the code section's size, a second emits the
//! header and the code with all label references resolved.

use vstd::prelude::*;
use vstd::utf8::encode_utf8;
use crate::{CHAMP_MAX_SIZE, COREWAR_MAGIC, HEADER_SIZE, PROG_COMMENT_LENGTH, PROG_NAME_LENGTH};
use crate::assembler::{Champion, ParsedInstruction};
use crate::bytes::be32_bytes;
use crate::header::Header;
use crate::ops::{spec_op_spec, OpType};
use crate::types::{AnyParam, DirInd, Direct, Indirect, Op, RegDir, RegInd, Register};

verus! {

broadcast use vstd::std_specs::vec::group_vec_axioms, vstd::seq::group_seq_axioms;

#[derive(Debug, PartialEq, Eq)]
pub enum CompileError {
    /// The name's UTF-8 form exceeds `PROG_NAME_LENGTH` bytes.
    ProgramNameTooLong(usize),
    /// The comment's UTF-8 form exceeds `PROG_COMMENT_LENGTH` bytes.
    ProgramCommentTooLong(usize),
    /// A referenced label that was never declared.
    MissingLabel(String),
    /// A label declared twice.
    DuplicateLabel(String),
    /// The code section exceeds `CHAMP_MAX_SIZE` bytes.
    ProgramTooLong(usize),
}

pub type CompileResult<T> = Result<T, CompileError>;

/// The opcode an AST operation assembles to.
pub open spec fn op_type_of(op: Op) -> OpType {
    match op {
        Op::Live(..) => OpType::Live,
        Op::Ld(..) => OpType::Ld,
        Op::St(..) => OpType::St,
        Op::Add(..) => OpType::Add,
        Op::Sub(..) => OpType::Sub,
        Op::And(..) => OpType::And,
        Op::Or(..) => OpType::Or,
        Op::Xor(..) => OpType::Xor,
        Op::Zjmp(..) => OpType::Zjmp,
        Op::Ldi(..) => OpType::Ldi,
        Op::Sti(..) => OpType::Sti,
        Op::Fork(..) => OpType::Fork,
        Op::Lld(..) => OpType::Lld,
        Op::Lldi(..) => OpType::Lldi,
        Op::Lfork(..) => OpType::Lfork,
        Op::Aff(..) => OpType::Aff,
    }
}

pub open spec fn code_of_rd(p: RegDir) -> u8 {
    match p {
        RegDir::Reg(_) => 1,
        RegDir::Dir(_) => 2,
    }
}

pub open spec fn code_of_ri(p: RegInd) -> u8 {
    match p {
        RegInd::Reg(_) => 1,
        RegInd::Ind(_) => 3,
    }
}

pub open spec fn code_of_di(p: DirInd) -> u8 {
    match p {
        DirInd::Dir(_) => 2,
        DirInd::Ind(_) => 3,
    }
}

pub open spec fn code_of_any(p: AnyParam) -> u8 {
    match p {
        AnyParam::Reg(_) => 1,
        AnyParam::Dir(_) => 2,
        AnyParam::Ind(_) => 3,
    }
}

/// The operand-type byte an operation assembles to: the two-bit code of
/// each operand packed at bits 6, 4, 2.
pub open spec fn spec_pcb(op: Op) -> u8 {
    match op {
        Op::Ld(di, _) => (code_of_di(di) << 6) | (1u8 << 4),
        Op::St(_, ri) => (1u8 << 6) | (code_of_ri(ri) << 4),
        Op::Add(..) => (1u8 << 6) | (1u8 << 4) | (1u8 << 2),
        Op::Sub(..) => (1u8 << 6) | (1u8 << 4) | (1u8 << 2),
        Op::And(a, b, _) => (code_of_any(a) << 6) | (code_of_any(b) << 4) | (1u8 << 2),
        Op::Or(a, b, _) => (code_of_any(a) << 6) | (code_of_any(b) << 4) | (1u8 << 2),
        Op::Xor(a, b, _) => (code_of_any(a) << 6) | (code_of_any(b) << 4) | (1u8 << 2),
        Op::Ldi(a, rd, _) => (code_of_any(a) << 6) | (code_of_rd(rd) << 4) | (1u8 << 2),
        Op::Sti(_, a, rd) => (1u8 << 6) | (code_of_any(a) << 4) | (code_of_rd(rd) << 2),
        Op::Lld(di, _) => (code_of_di(di) << 6) | (1u8 << 4),
        Op::Lldi(a, rd, _) => (code_of_any(a) << 6) | (code_of_rd(rd) << 4) | (1u8 << 2),
        Op::Aff(_) => 1u8 << 6,
        _ => 0,
    }
}

/// The width of the operation's direct operands on the wire.
pub open spec fn spec_dir_width(op: Op) -> int {
    spec_op_spec(op_type_of(op)).dir_size.spec_byte_count() as int
}

pub open spec fn size_of_rd(p: RegDir, w: int) -> int {
    match p {
        RegDir::Reg(_) => 1,
        RegDir::Dir(_) => w,
    }
}

pub open spec fn size_of_ri(p: RegInd) -> int {
    match p {
        RegInd::Reg(_) => 1,
        RegInd::Ind(_) => 2,
    }
}

pub open spec fn size_of_di(p: DirInd, w: int) -> int {
    match p {
        DirInd::Dir(_) => w,
        DirInd::Ind(_) => 2,
    }
}

pub open spec fn size_of_any(p: AnyParam, w: int) -> int {
    match p {
        AnyParam::Reg(_) => 1,
        AnyParam::Dir(_) => w,
        AnyParam::Ind(_) => 2,
    }
}

/// The operation's total size on the wire: opcode byte, operand-type byte
/// where the opcode has one, then its operands.
pub open spec fn spec_op_size(op: Op) -> int {
    let w = spec_dir_width(op);
    let h: int = if spec_op_spec(op_type_of(op)).has_pcb {
        2
    } else {
        1
    };
    h + match op {
        Op::Live(_) => w,
        Op::Ld(di, _) => size_of_di(di, w) + 1,
        Op::St(_, ri) => 1 + size_of_ri(ri),
        Op::Add(..) => 3,
        Op::Sub(..) => 3,
        Op::And(a, b, _) => size_of_any(a, w) + size_of_any(b, w) + 1,
        Op::Or(a, b, _) => size_of_any(a, w) + size_of_any(b, w) + 1,
        Op::Xor(a, b, _) => size_of_any(a, w) + size_of_any(b, w) + 1,
        Op::Zjmp(_) => w,
        Op::Ldi(a, rd, _) => size_of_any(a, w) + size_of_rd(rd, w) + 1,
        Op::Sti(_, a, rd) => 1 + size_of_any(a, w) + size_of_rd(rd, w),
        Op::Fork(_) => w,
        Op::Lld(di, _) => size_of_di(di, w) + 1,
        Op::Lldi(a, rd, _) => size_of_any(a, w) + size_of_rd(rd, w) + 1,
        Op::Lfork(_) => w,
        Op::Aff(_) => 1,
    }
}

/// Bytes one list entry contributes to the code section.
pub open spec fn instr_size(pi: ParsedInstruction) -> int {
    match pi {
        ParsedInstruction::Label(_) => 0,
        ParsedInstruction::Op(op) => spec_op_size(op),
        ParsedInstruction::RawCode(v) => v@.len() as int,
    }
}

/// Size of the whole code section.
pub open spec fn spec_code_size(instrs: Seq<ParsedInstruction>) -> int
    decreases instrs.len(),
{
    if instrs.len() == 0 {
        0
    } else {
        spec_code_size(instrs.drop_last()) + instr_size(instrs.last())
    }
}

/// Where each label points: the size of the code emitted before it.
pub open spec fn spec_labels(instrs: Seq<ParsedInstruction>) -> Map<Seq<char>, int>
    decreases instrs.len(),
{
    if instrs.len() == 0 {
        Map::empty()
    } else {
        let m = spec_labels(instrs.drop_last());
        match instrs.last() {
            ParsedInstruction::Label(l) => m.insert(l@, spec_code_size(instrs.drop_last())),
            _ => m,
        }
    }
}

/// The first label declared twice, scanning from entry `i`.
pub open spec fn spec_first_dup(instrs: Seq<ParsedInstruction>, i: int) -> Option<Seq<char>>
    decreases instrs.len() - i,
{
    if i < 0 || i >= instrs.len() {
        None
    } else {
        match instrs[i] {
            ParsedInstruction::Label(l) => if spec_labels(instrs.take(i)).dom().contains(l@) {
                Some(l@)
            } else {
                spec_first_dup(instrs, i + 1)
            },
            _ => spec_first_dup(instrs, i + 1),
        }
    }
}

/// The labels an operation's operands reference, in emission order.
pub open spec fn dir_label(d: Direct) -> Seq<Seq<char>> {
    match d {
        Direct::Label(l) => seq![l@],
        Direct::Numeric(_) => Seq::empty(),
    }
}

pub open spec fn ind_label(ind: Indirect) -> Seq<Seq<char>> {
    match ind {
        Indirect::Label(l) => seq![l@],
        Indirect::Numeric(_) => Seq::empty(),
    }
}

pub open spec fn rd_label(p: RegDir) -> Seq<Seq<char>> {
    match p {
        RegDir::Reg(_) => Seq::empty(),
        RegDir::Dir(d) => dir_label(d),
    }
}

pub open spec fn ri_label(p: RegInd) -> Seq<Seq<char>> {
    match p {
        RegInd::Reg(_) => Seq::empty(),
        RegInd::Ind(d) => ind_label(d),
    }
}

pub open spec fn di_label(p: DirInd) -> Seq<Seq<char>> {
    match p {
        DirInd::Dir(d) => dir_label(d),
        DirInd::Ind(d) => ind_label(d),
    }
}

pub open spec fn any_label(p: AnyParam) -> Seq<Seq<char>> {
    match p {
        AnyParam::Reg(_) => Seq::empty(),
        AnyParam::Dir(d) => dir_label(d),
        AnyParam::Ind(d) => ind_label(d),
    }
}

pub open spec fn op_label_refs(op: Op) -> Seq<Seq<char>> {
    match op {
        Op::Live(d) => dir_label(d),
        Op::Ld(di, _) => di_label(di),
        Op::St(_, ri) => ri_label(ri),
        Op::Add(..) => Seq::empty(),
        Op::Sub(..) => Seq::empty(),
        Op::And(a, b, _) => any_label(a) + any_label(b),
        Op::Or(a, b, _) => any_label(a) + any_label(b),
        Op::Xor(a, b, _) => any_label(a) + any_label(b),
        Op::Zjmp(d) => dir_label(d),
        Op::Ldi(a, rd, _) => any_label(a) + rd_label(rd),
        Op::Sti(_, a, rd) => any_label(a) + rd_label(rd),
        Op::Fork(d) => dir_label(d),
        Op::Lld(di, _) => di_label(di),
        Op::Lldi(a, rd, _) => any_label(a) + rd_label(rd),
        Op::Lfork(d) => dir_label(d),
        Op::Aff(_) => Seq::empty(),
    }
}

/// The first reference in the list that the label map cannot resolve.
pub open spec fn first_unresolved(refs: Seq<Seq<char>>, m: Map<Seq<char>, int>) -> Option<
    Seq<char>,
>
    decreases refs.len(),
{
    if refs.len() == 0 {
        None
    } else if !m.dom().contains(refs[0]) {
        Some(refs[0])
    } else {
        first_unresolved(refs.drop_first(), m)
    }
}

/// The first label reference of the whole program, from entry `i` on, that
/// the label map cannot resolve.
pub open spec fn spec_first_missing(
    instrs: Seq<ParsedInstruction>,
    i: int,
    m: Map<Seq<char>, int>,
) -> Option<Seq<char>>
    decreases instrs.len() - i,
{
    if i < 0 || i >= instrs.len() {
        None
    } else {
        let here = match instrs[i] {
            ParsedInstruction::Op(op) => first_unresolved(op_label_refs(op), m),
            _ => None,
        };
        if here is Some {
            here
        } else {
            spec_first_missing(instrs, i + 1, m)
        }
    }
}

/// An integer reduced to its low 32 bits.
pub open spec fn trunc32(x: int) -> u32 {
    ((x % 0x1_0000_0000) as u32)
}

/// The big-endian bytes of the low `w` bytes of `x`; `w` is 2 or 4.
pub open spec fn enc_word(x: int, w: int) -> Seq<u8> {
    crate::bytes::be_bytes_trunc(trunc32(x), w)
}

/// A resolved direct operand: its literal, or the referenced label's
/// position relative to the operation's own position.
pub open spec fn enc_dir(d: Direct, w: int, m: Map<Seq<char>, int>, op_pos: int) -> Seq<u8> {
    match d {
        Direct::Numeric(n) => enc_word(n as int, w),
        Direct::Label(l) => enc_word(m[l@] - op_pos, w),
    }
}

pub open spec fn enc_ind(ind: Indirect, m: Map<Seq<char>, int>, op_pos: int) -> Seq<u8> {
    match ind {
        Indirect::Numeric(n) => enc_word(n as int, 2),
        Indirect::Label(l) => enc_word(m[l@] - op_pos, 2),
    }
}

pub open spec fn enc_reg(r: Register) -> Seq<u8> {
    seq![r.0]
}

pub open spec fn enc_rd(p: RegDir, w: int, m: Map<Seq<char>, int>, op_pos: int) -> Seq<u8> {
    match p {
        RegDir::Reg(r) => enc_reg(r),
        RegDir::Dir(d) => enc_dir(d, w, m, op_pos),
    }
}

pub open spec fn enc_ri(p: RegInd, m: Map<Seq<char>, int>, op_pos: int) -> Seq<u8> {
    match p {
        RegInd::Reg(r) => enc_reg(r),
        RegInd::Ind(d) => enc_ind(d, m, op_pos),
    }
}

pub open spec fn enc_di(p: DirInd, w: int, m: Map<Seq<char>, int>, op_pos: int) -> Seq<u8> {
    match p {
        DirInd::Dir(d) => enc_dir(d, w, m, op_pos),
        DirInd::Ind(d) => enc_ind(d, m, op_pos),
    }
}

pub open spec fn enc_any(p: AnyParam, w: int, m: Map<Seq<char>, int>, op_pos: int) -> Seq<u8> {
    match p {
        AnyParam::Reg(r) => enc_reg(r),
        AnyParam::Dir(d) => enc_dir(d, w, m, op_pos),
        AnyParam::Ind(d) => enc_ind(d, m, op_pos),
    }
}

/// The full wire form of one operation at position `op_pos`: opcode byte,
/// operand-type byte where the opcode has one, then each operand.
pub open spec fn spec_encode_op(op: Op, op_pos: int, m: Map<Seq<char>, int>) -> Seq<u8> {
    let w = spec_dir_width(op);
    let code = crate::ops::spec_op_code(op_type_of(op));
    let head: Seq<u8> = if spec_op_spec(op_type_of(op)).has_pcb {
        seq![code, spec_pcb(op)]
    } else {
        seq![code]
    };
    head + match op {
        Op::Live(d) => enc_dir(d, w, m, op_pos),
        Op::Ld(di, r) => enc_di(di, w, m, op_pos) + enc_reg(r),
        Op::St(r, ri) => enc_reg(r) + enc_ri(ri, m, op_pos),
        Op::Add(a, b, c) => enc_reg(a) + enc_reg(b) + enc_reg(c),
        Op::Sub(a, b, c) => enc_reg(a) + enc_reg(b) + enc_reg(c),
        Op::And(a, b, c) => enc_any(a, w, m, op_pos) + enc_any(b, w, m, op_pos) + enc_reg(c),
        Op::Or(a, b, c) => enc_any(a, w, m, op_pos) + enc_any(b, w, m, op_pos) + enc_reg(c),
        Op::Xor(a, b, c) => enc_any(a, w, m, op_pos) + enc_any(b, w, m, op_pos) + enc_reg(c),
        Op::Zjmp(d) => enc_dir(d, w, m, op_pos),
        Op::Ldi(a, rd, c) => enc_any(a, w, m, op_pos) + enc_rd(rd, w, m, op_pos) + enc_reg(c),
        Op::Sti(r, a, rd) => enc_reg(r) + enc_any(a, w, m, op_pos) + enc_rd(rd, w, m, op_pos),
        Op::Fork(d) => enc_dir(d, w, m, op_pos),
        Op::Lld(di, r) => enc_di(di, w, m, op_pos) + enc_reg(r),
        Op::Lldi(a, rd, c) => enc_any(a, w, m, op_pos) + enc_rd(rd, w, m, op_pos) + enc_reg(c),
        Op::Lfork(d) => enc_dir(d, w, m, op_pos),
        Op::Aff(r) => enc_reg(r),
    }
}

/// The whole code section, every label resolved through `m`.
pub open spec fn spec_code_bytes(instrs: Seq<ParsedInstruction>, m: Map<Seq<char>, int>) -> Seq<
    u8,
>
    decreases instrs.len(),
{
    if instrs.len() == 0 {
        Seq::empty()
    } else {
        spec_code_bytes(instrs.drop_last(), m) + match instrs.last() {
            ParsedInstruction::Label(_) => Seq::empty(),
            ParsedInstruction::RawCode(v) => v@,
            ParsedInstruction::Op(op) => spec_encode_op(
                op,
                spec_code_size(instrs.drop_last()),
                m,
            ),
        }
    }
}

/// Sizes are never negative.
pub proof fn lemma_code_size_nonneg(instrs: Seq<ParsedInstruction>)
    ensures
        spec_code_size(instrs) >= 0,
    decreases instrs.len(),
{
    if instrs.len() > 0 {
        lemma_code_size_nonneg(instrs.drop_last());
    }
}

/// Walking one more entry of a prefix.
pub proof fn lemma_code_size_take_step(instrs: Seq<ParsedInstruction>, i: int)
    requires
        0 <= i < instrs.len(),
    ensures
        spec_code_size(instrs.take(i + 1)) == spec_code_size(instrs.take(i)) + instr_size(
            instrs[i],
        ),
{
    assert(instrs.take(i + 1).drop_last() =~= instrs.take(i));
    assert(instrs.take(i + 1).last() == instrs[i]);
}

/// A prefix never exceeds the whole.
pub proof fn lemma_code_size_take_le(instrs: Seq<ParsedInstruction>, i: int)
    requires
        0 <= i <= instrs.len(),
    ensures
        spec_code_size(instrs.take(i)) <= spec_code_size(instrs),
    decreases instrs.len() - i,
{
    if i == instrs.len() {
        assert(instrs.take(i) =~= instrs);
    } else {
        lemma_code_size_take_step(instrs, i);
        lemma_code_size_take_le(instrs, i + 1);
        assert(instr_size(instrs[i]) >= 0);
    }
}

/// The label map of one more entry of a prefix.
pub proof fn lemma_labels_take_step(instrs: Seq<ParsedInstruction>, i: int)
    requires
        0 <= i < instrs.len(),
    ensures
        spec_labels(instrs.take(i + 1)) == (match instrs[i] {
            ParsedInstruction::Label(l) => spec_labels(instrs.take(i)).insert(
                l@,
                spec_code_size(instrs.take(i)),
            ),
            _ => spec_labels(instrs.take(i)),
        }),
{
    assert(instrs.take(i + 1).drop_last() =~= instrs.take(i));
    assert(instrs.take(i + 1).last() == instrs[i]);
}

/// Every operation occupies between 1 and 16 bytes on the wire.
pub proof fn lemma_op_size_range(op: Op)
    ensures
        1 <= spec_op_size(op) <= 16,
{
}

/// Every label position lies within the code section.
pub proof fn lemma_labels_bounded(instrs: Seq<ParsedInstruction>)
    ensures
        forall|l: Seq<char>|
            spec_labels(instrs).dom().contains(l) ==> 0 <= #[trigger] spec_labels(instrs)[l]
                <= spec_code_size(instrs),
    decreases instrs.len(),
{
    if instrs.len() > 0 {
        lemma_labels_bounded(instrs.drop_last());
        lemma_code_size_nonneg(instrs.drop_last());
        assert(instr_size(instrs.last()) >= 0) by {
            match instrs.last() {
                ParsedInstruction::Op(op) => lemma_op_size_range(op),
                _ => {},
            }
        }
        assert forall|l: Seq<char>| spec_labels(instrs).dom().contains(l) implies 0
            <= #[trigger] spec_labels(instrs)[l] <= spec_code_size(instrs) by {
            match instrs.last() {
                ParsedInstruction::Label(lb) => {
                    if l != lb@ {
                        assert(spec_labels(instrs.drop_last()).dom().contains(l));
                        assert(spec_labels(instrs.drop_last())[l] == spec_labels(instrs)[l]);
                    }
                },
                _ => {
                    assert(spec_labels(instrs.drop_last()).dom().contains(l));
                },
            }
        }
    }
}

/// The code bytes of one more entry of a prefix.
pub proof fn lemma_code_bytes_take_step(
    instrs: Seq<ParsedInstruction>,
    i: int,
    m: Map<Seq<char>, int>,
)
    requires
        0 <= i < instrs.len(),
    ensures
        spec_code_bytes(instrs.take(i + 1), m) == spec_code_bytes(instrs.take(i), m) + (
        match instrs[i] {
            ParsedInstruction::Label(_) => Seq::<u8>::empty(),
            ParsedInstruction::RawCode(v) => v@,
            ParsedInstruction::Op(op) => spec_encode_op(op, spec_code_size(instrs.take(i)), m),
        }),
{
    assert(instrs.take(i + 1).drop_last() =~= instrs.take(i));
    assert(instrs.take(i + 1).last() == instrs[i]);
}

/// A first unresolved reference of two runs: the first run's, else the
/// second's.
pub proof fn lemma_first_unresolved_concat(
    s1: Seq<Seq<char>>,
    s2: Seq<Seq<char>>,
    m: Map<Seq<char>, int>,
)
    ensures
        first_unresolved(s1 + s2, m) == (if first_unresolved(s1, m) is Some {
            first_unresolved(s1, m)
        } else {
            first_unresolved(s2, m)
        }),
    decreases s1.len(),
{
    if s1.len() == 0 {
        assert(s1 + s2 =~= s2);
    } else {
        assert((s1 + s2)[0] == s1[0]);
        assert((s1 + s2).drop_first() =~= s1.drop_first() + s2);
        lemma_first_unresolved_concat(s1.drop_first(), s2, m);
    }
}

/// The label positions found so far, as an association list whose later
/// entries shadow earlier ones.
pub open spec fn assoc_map(s: Seq<(String, usize)>) -> Map<Seq<char>, int>
    decreases s.len(),
{
    if s.len() == 0 {
        Map::empty()
    } else {
        assoc_map(s.drop_last()).insert(s.last().0@, s.last().1 as int)
    }
}

/// Entries from `j` on that avoid `key` leave `key`'s binding untouched.
proof fn lemma_assoc_skip(s: Seq<(String, usize)>, j: int, key: Seq<char>)
    requires
        0 <= j <= s.len(),
        forall|t: int| j <= t < s.len() ==> (#[trigger] s[t]).0@ != key,
    ensures
        assoc_map(s).dom().contains(key) == assoc_map(s.take(j)).dom().contains(key),
        assoc_map(s).dom().contains(key) ==> assoc_map(s)[key] == assoc_map(s.take(j))[key],
    decreases s.len() - j,
{
    if j == s.len() {
        assert(s.take(j) =~= s);
    } else {
        lemma_assoc_skip(s.drop_last(), j, key);
        assert(s.drop_last().take(j) =~= s.take(j));
        assert(s[s.len() - 1].0@ != key);
        assert(s.drop_last() =~= s.take(s.len() - 1));
    }
}

struct LabelTable {
    entries: Vec<(String, usize)>,
}

impl LabelTable {
    spec fn view(&self) -> Map<Seq<char>, int> {
        assoc_map(self.entries@)
    }

    fn new() -> (r: Self)
        ensures
            r.view() == Map::<Seq<char>, int>::empty(),
    {
        LabelTable { entries: Vec::new() }
    }

    fn insert(&mut self, l: String, pos: usize)
        ensures
            final(self).view() == old(self).view().insert(l@, pos as int),
    {
        let ghost e0 = self.entries@;
        self.entries.push((l, pos));
        proof {
            assert(self.entries@.drop_last() =~= e0);
        }
    }

    /// The position bound to a label, scanning the newest entries first.
    fn lookup(&self, l: &String) -> (r: Option<usize>)
        ensures
            match r {
                Some(v) => self.view().dom().contains(l@) && self.view()[l@] == v as int,
                None => !self.view().dom().contains(l@),
            },
    {
        let n = self.entries.len();
        let mut i = n;
        while i > 0
            invariant
                0 <= i <= n == self.entries@.len(),
                forall|t: int| i <= t < n ==> (#[trigger] self.entries@[t]).0@ != l@,
            decreases i,
        {
            i = i - 1;
            let entry = vstd::std_specs::vec::vec_index(&self.entries, i);
            if entry.0 == *l {
                proof {
                    assert(self.entries@[i as int].0@ == l@);
                    lemma_assoc_skip(self.entries@, i + 1, l@);
                    assert(self.entries@.take(i + 1).drop_last() =~= self.entries@.take(i as int));
                    assert(self.entries@.take(i + 1).last() == self.entries@[i as int]);
                }
                return Some(entry.1);
            }
        }
        proof {
            lemma_assoc_skip(self.entries@, 0, l@);
            assert(self.entries@.take(0) =~= Seq::<(String, usize)>::empty());
        }
        None
    }
}

/// The low 32 bits of a signed value, as an unsigned word.
fn wrap_u32_i64(x: i64) -> (r: u32)
    ensures
        r as int == (x as int) % 0x1_0000_0000,
{
    if x >= 0 {
        proof {
            vstd::arithmetic::div_mod::lemma_mod_bound(x as int, 0x1_0000_0000);
        }
        (x % 0x1_0000_0000) as u32
    } else {
        let y = -(x + 1);
        let m = y % 0x1_0000_0000;
        proof {
            vstd::arithmetic::div_mod::lemma_mod_bound(y as int, 0x1_0000_0000);
            // x == -(y + 1), so x + (y - y % 2^32) + 2^32 == 2^32 - 1 - y % 2^32
            vstd::arithmetic::div_mod::lemma_fundamental_div_mod(y as int, 0x1_0000_0000);
            let q = y as int / 0x1_0000_0000;
            assert(x as int == -(q * 0x1_0000_0000) - (m as int) - 1);
            assert((0xffff_ffff - m) as int == x as int + (q + 1) * 0x1_0000_0000)
                by (nonlinear_arith)
                requires
                    x as int == -(q * 0x1_0000_0000) - (m as int) - 1,
            ;
            vstd::arithmetic::div_mod::lemma_mod_multiples_vanish(q + 1, x as int, 0x1_0000_0000);
            vstd::arithmetic::div_mod::lemma_small_mod((0xffff_ffff - m) as nat, 0x1_0000_0000);
        }
        (0xffff_ffff - m) as u32
    }
}

/// Appends the low `w` bytes of `x`, big-endian.
fn emit_word(out: &mut Vec<u8>, x: i64, w: usize)
    requires
        w == 2 || w == 4,
    ensures
        final(out)@ == old(out)@ + enc_word(x as int, w as int),
{
    let u = wrap_u32_i64(x);
    proof {
        assert(trunc32(x as int) == u);
    }
    if w == 4 {
        out.push(crate::bytes::u32_be_byte(u, 0));
        out.push(crate::bytes::u32_be_byte(u, 1));
    }
    out.push(crate::bytes::u32_be_byte(u, 2));
    out.push(crate::bytes::u32_be_byte(u, 3));
    proof {
        assert(final(out)@ =~= old(out)@ + enc_word(x as int, w as int));
    }
}

/// Whether every label an operand references is declared; the bound on
/// positions lets the emitters do their delta arithmetic in 64 bits.
pub open spec fn refs_ok(refs: Seq<Seq<char>>, m: Map<Seq<char>, int>) -> bool {
    forall|k: int| 0 <= k < refs.len() ==> m.dom().contains(#[trigger] refs[k])
}

/// A label map whose positions all lie within the maximal code section.
pub open spec fn map_bounded(m: Map<Seq<char>, int>) -> bool {
    forall|l: Seq<char>| m.dom().contains(l) ==> 0 <= #[trigger] m[l] <= CHAMP_MAX_SIZE
}

fn emit_reg(out: &mut Vec<u8>, r: &Register)
    ensures
        final(out)@ == old(out)@ + enc_reg(*r),
{
    out.push(r.0);
    proof {
        assert(final(out)@ =~= old(out)@ + enc_reg(*r));
    }
}

fn emit_dir(out: &mut Vec<u8>, d: &Direct, w: usize, t: &LabelTable, op_pos: usize)
    requires
        w == 2 || w == 4,
        refs_ok(dir_label(*d), t.view()),
        map_bounded(t.view()),
        op_pos <= CHAMP_MAX_SIZE,
    ensures
        final(out)@ == old(out)@ + enc_dir(*d, w as int, t.view(), op_pos as int),
{
    match d {
        Direct::Numeric(n) => emit_word(out, *n, w),
        Direct::Label(l) => {
            proof {
                assert(dir_label(*d)[0] == l@);
            }
            let lp = match t.lookup(l) {
                Some(lp) => lp,
                None => {
                    proof {
                        assert(false);
                    }
                    0
                },
            };
            let delta: i64 = (lp as i64) - (op_pos as i64);
            emit_word(out, delta, w);
        },
    }
}

fn emit_ind(out: &mut Vec<u8>, ind: &Indirect, t: &LabelTable, op_pos: usize)
    requires
        refs_ok(ind_label(*ind), t.view()),
        map_bounded(t.view()),
        op_pos <= CHAMP_MAX_SIZE,
    ensures
        final(out)@ == old(out)@ + enc_ind(*ind, t.view(), op_pos as int),
{
    match ind {
        Indirect::Numeric(n) => emit_word(out, *n, 2),
        Indirect::Label(l) => {
            proof {
                assert(ind_label(*ind)[0] == l@);
            }
            let lp = match t.lookup(l) {
                Some(lp) => lp,
                None => {
                    proof {
                        assert(false);
                    }
                    0
                },
            };
            let delta: i64 = (lp as i64) - (op_pos as i64);
            emit_word(out, delta, 2);
        },
    }
}

fn emit_rd(out: &mut Vec<u8>, p: &RegDir, w: usize, t: &LabelTable, op_pos: usize)
    requires
        w == 2 || w == 4,
        refs_ok(rd_label(*p), t.view()),
        map_bounded(t.view()),
        op_pos <= CHAMP_MAX_SIZE,
    ensures
        final(out)@ == old(out)@ + enc_rd(*p, w as int, t.view(), op_pos as int),
{
    match p {
        RegDir::Reg(r) => emit_reg(out, r),
        RegDir::Dir(d) => emit_dir(out, d, w, t, op_pos),
    }
}

fn emit_ri(out: &mut Vec<u8>, p: &RegInd, t: &LabelTable, op_pos: usize)
    requires
        refs_ok(ri_label(*p), t.view()),
        map_bounded(t.view()),
        op_pos <= CHAMP_MAX_SIZE,
    ensures
        final(out)@ == old(out)@ + enc_ri(*p, t.view(), op_pos as int),
{
    match p {
        RegInd::Reg(r) => emit_reg(out, r),
        RegInd::Ind(d) => emit_ind(out, d, t, op_pos),
    }
}

fn emit_di(out: &mut Vec<u8>, p: &DirInd, w: usize, t: &LabelTable, op_pos: usize)
    requires
        w == 2 || w == 4,
        refs_ok(di_label(*p), t.view()),
        map_bounded(t.view()),
        op_pos <= CHAMP_MAX_SIZE,
    ensures
        final(out)@ == old(out)@ + enc_di(*p, w as int, t.view(), op_pos as int),
{
    match p {
        DirInd::Dir(d) => emit_dir(out, d, w, t, op_pos),
        DirInd::Ind(d) => emit_ind(out, d, t, op_pos),
    }
}

fn emit_any(out: &mut Vec<u8>, p: &AnyParam, w: usize, t: &LabelTable, op_pos: usize)
    requires
        w == 2 || w == 4,
        refs_ok(any_label(*p), t.view()),
        map_bounded(t.view()),
        op_pos <= CHAMP_MAX_SIZE,
    ensures
        final(out)@ == old(out)@ + enc_any(*p, w as int, t.view(), op_pos as int),
{
    match p {
        AnyParam::Reg(r) => emit_reg(out, r),
        AnyParam::Dir(d) => emit_dir(out, d, w, t, op_pos),
        AnyParam::Ind(d) => emit_ind(out, d, t, op_pos),
    }
}

/// A run with no unresolved reference resolves every reference.
proof fn lemma_resolved_refs_ok(refs: Seq<Seq<char>>, m: Map<Seq<char>, int>)
    requires
        first_unresolved(refs, m) is None,
    ensures
        refs_ok(refs, m),
    decreases refs.len(),
{
    if refs.len() > 0 {
        lemma_resolved_refs_ok(refs.drop_first(), m);
        assert forall|k: int| 0 <= k < refs.len() implies m.dom().contains(
            #[trigger] refs[k],
        ) by {
            if k > 0 {
                assert(refs.drop_first()[k - 1] == refs[k]);
            }
        }
    }
}

proof fn lemma_refs_split(s1: Seq<Seq<char>>, s2: Seq<Seq<char>>, m: Map<Seq<char>, int>)
    requires
        refs_ok(s1 + s2, m),
    ensures
        refs_ok(s1, m),
        refs_ok(s2, m),
{
    assert forall|k: int| 0 <= k < s1.len() implies m.dom().contains(#[trigger] s1[k]) by {
        assert((s1 + s2)[k] == s1[k]);
    }
    assert forall|k: int| 0 <= k < s2.len() implies m.dom().contains(#[trigger] s2[k]) by {
        assert((s1 + s2)[s1.len() + k] == s2[k]);
    }
}

fn ast_op_type(op: &Op) -> (r: OpType)
    ensures
        r == op_type_of(*op),
{
    match op {
        Op::Live(..) => OpType::Live,
        Op::Ld(..) => OpType::Ld,
        Op::St(..) => OpType::St,
        Op::Add(..) => OpType::Add,
        Op::Sub(..) => OpType::Sub,
        Op::And(..) => OpType::And,
        Op::Or(..) => OpType::Or,
        Op::Xor(..) => OpType::Xor,
        Op::Zjmp(..) => OpType::Zjmp,
        Op::Ldi(..) => OpType::Ldi,
        Op::Sti(..) => OpType::Sti,
        Op::Fork(..) => OpType::Fork,
        Op::Lld(..) => OpType::Lld,
        Op::Lldi(..) => OpType::Lldi,
        Op::Lfork(..) => OpType::Lfork,
        Op::Aff(..) => OpType::Aff,
    }
}

fn code_rd(p: &RegDir) -> (r: u8)
    ensures
        r == code_of_rd(*p),
{
    match p {
        RegDir::Reg(_) => 1,
        RegDir::Dir(_) => 2,
    }
}

fn code_ri(p: &RegInd) -> (r: u8)
    ensures
        r == code_of_ri(*p),
{
    match p {
        RegInd::Reg(_) => 1,
        RegInd::Ind(_) => 3,
    }
}

fn code_di(p: &DirInd) -> (r: u8)
    ensures
        r == code_of_di(*p),
{
    match p {
        DirInd::Dir(_) => 2,
        DirInd::Ind(_) => 3,
    }
}

fn code_any(p: &AnyParam) -> (r: u8)
    ensures
        r == code_of_any(*p),
{
    match p {
        AnyParam::Reg(_) => 1,
        AnyParam::Dir(_) => 2,
        AnyParam::Ind(_) => 3,
    }
}

/// The operand-type byte of one operation.
fn pcb_of(op: &Op) -> (r: u8)
    ensures
        r == spec_pcb(*op),
{
    match op {
        Op::Ld(di, _) => (code_di(di) << 6u8) | (1u8 << 4u8),
        Op::St(_, ri) => (1u8 << 6u8) | (code_ri(ri) << 4u8),
        Op::Add(..) => (1u8 << 6u8) | (1u8 << 4u8) | (1u8 << 2u8),
        Op::Sub(..) => (1u8 << 6u8) | (1u8 << 4u8) | (1u8 << 2u8),
        Op::And(a, b, _) => (code_any(a) << 6u8) | (code_any(b) << 4u8) | (1u8 << 2u8),
        Op::Or(a, b, _) => (code_any(a) << 6u8) | (code_any(b) << 4u8) | (1u8 << 2u8),
        Op::Xor(a, b, _) => (code_any(a) << 6u8) | (code_any(b) << 4u8) | (1u8 << 2u8),
        Op::Ldi(a, rd, _) => (code_any(a) << 6u8) | (code_rd(rd) << 4u8) | (1u8 << 2u8),
        Op::Sti(_, a, rd) => (1u8 << 6u8) | (code_any(a) << 4u8) | (code_rd(rd) << 2u8),
        Op::Lld(di, _) => (code_di(di) << 6u8) | (1u8 << 4u8),
        Op::Lldi(a, rd, _) => (code_any(a) << 6u8) | (code_rd(rd) << 4u8) | (1u8 << 2u8),
        Op::Aff(_) => 1u8 << 6u8,
        _ => 0,
    }
}

/// The operation's wire size.
pub fn op_size(op: &Op) -> (r: usize)
    ensures
        r as int == spec_op_size(*op),
        1 <= r <= 16,
{
    proof {
        lemma_op_size_range(*op);
    }
    let s = crate::ops::op_spec(ast_op_type(op));
    let w = s.dir_size.byte_count();
    let h: usize = if s.has_pcb {
        2
    } else {
        1
    };
    h + match op {
        Op::Live(_) => w,
        Op::Ld(di, _) => size_di(di, w) + 1,
        Op::St(_, ri) => 1 + size_ri(ri),
        Op::Add(..) => 3,
        Op::Sub(..) => 3,
        Op::And(a, b, _) => size_any(a, w) + size_any(b, w) + 1,
        Op::Or(a, b, _) => size_any(a, w) + size_any(b, w) + 1,
        Op::Xor(a, b, _) => size_any(a, w) + size_any(b, w) + 1,
        Op::Zjmp(_) => w,
        Op::Ldi(a, rd, _) => size_any(a, w) + size_rd(rd, w) + 1,
        Op::Sti(_, a, rd) => 1 + size_any(a, w) + size_rd(rd, w),
        Op::Fork(_) => w,
        Op::Lld(di, _) => size_di(di, w) + 1,
        Op::Lldi(a, rd, _) => size_any(a, w) + size_rd(rd, w) + 1,
        Op::Lfork(_) => w,
        Op::Aff(_) => 1,
    }
}

fn size_rd(p: &RegDir, w: usize) -> (r: usize)
    requires
        w <= 4,
    ensures
        r as int == size_of_rd(*p, w as int),
{
    match p {
        RegDir::Reg(_) => 1,
        RegDir::Dir(_) => w,
    }
}

fn size_ri(p: &RegInd) -> (r: usize)
    ensures
        r as int == size_of_ri(*p),
{
    match p {
        RegInd::Reg(_) => 1,
        RegInd::Ind(_) => 2,
    }
}

fn size_di(p: &DirInd, w: usize) -> (r: usize)
    requires
        w <= 4,
    ensures
        r as int == size_of_di(*p, w as int),
{
    match p {
        DirInd::Dir(_) => w,
        DirInd::Ind(_) => 2,
    }
}

fn size_any(p: &AnyParam, w: usize) -> (r: usize)
    requires
        w <= 4,
    ensures
        r as int == size_of_any(*p, w as int),
{
    match p {
        AnyParam::Reg(_) => 1,
        AnyParam::Dir(_) => w,
        AnyParam::Ind(_) => 2,
    }
}

/// Appends the whole wire form of one operation.
fn encode_op_into(out: &mut Vec<u8>, op: &Op, t: &LabelTable, op_pos: usize)
    requires
        refs_ok(op_label_refs(*op), t.view()),
        map_bounded(t.view()),
        op_pos <= CHAMP_MAX_SIZE,
    ensures
        final(out)@ == old(out)@ + spec_encode_op(*op, op_pos as int, t.view()),
{
    let s = crate::ops::op_spec(ast_op_type(op));
    let w = s.dir_size.byte_count();
    out.push(crate::ops::op_code(ast_op_type(op)));
    if s.has_pcb {
        out.push(pcb_of(op));
    }
    let ghost head_done = out@;
    match op {
        Op::Live(d) => emit_dir(out, d, w, t, op_pos),
        Op::Ld(di, r) => {
            proof {
                lemma_refs_split(di_label(*di), Seq::empty(), t.view());
                assert(di_label(*di) + Seq::<Seq<char>>::empty() =~= op_label_refs(*op));
            }
            emit_di(out, di, w, t, op_pos);
            emit_reg(out, r);
        },
        Op::St(r, ri) => {
            emit_reg(out, r);
            emit_ri(out, ri, t, op_pos);
        },
        Op::Add(a, b, c) => {
            emit_reg(out, a);
            emit_reg(out, b);
            emit_reg(out, c);
        },
        Op::Sub(a, b, c) => {
            emit_reg(out, a);
            emit_reg(out, b);
            emit_reg(out, c);
        },
        Op::And(a, b, c) => {
            proof {
                lemma_refs_split(any_label(*a), any_label(*b), t.view());
            }
            emit_any(out, a, w, t, op_pos);
            emit_any(out, b, w, t, op_pos);
            emit_reg(out, c);
        },
        Op::Or(a, b, c) => {
            proof {
                lemma_refs_split(any_label(*a), any_label(*b), t.view());
            }
            emit_any(out, a, w, t, op_pos);
            emit_any(out, b, w, t, op_pos);
            emit_reg(out, c);
        },
        Op::Xor(a, b, c) => {
            proof {
                lemma_refs_split(any_label(*a), any_label(*b), t.view());
            }
            emit_any(out, a, w, t, op_pos);
            emit_any(out, b, w, t, op_pos);
            emit_reg(out, c);
        },
        Op::Zjmp(d) => emit_dir(out, d, w, t, op_pos),
        Op::Ldi(a, rd, c) => {
            proof {
                lemma_refs_split(any_label(*a), rd_label(*rd), t.view());
            }
            emit_any(out, a, w, t, op_pos);
            emit_rd(out, rd, w, t, op_pos);
            emit_reg(out, c);
        },
        Op::Sti(r, a, rd) => {
            proof {
                lemma_refs_split(any_label(*a), rd_label(*rd), t.view());
            }
            emit_reg(out, r);
            emit_any(out, a, w, t, op_pos);
            emit_rd(out, rd, w, t, op_pos);
        },
        Op::Fork(d) => emit_dir(out, d, w, t, op_pos),
        Op::Lld(di, r) => {
            emit_di(out, di, w, t, op_pos);
            emit_reg(out, r);
        },
        Op::Lldi(a, rd, c) => {
            proof {
                lemma_refs_split(any_label(*a), rd_label(*rd), t.view());
            }
            emit_any(out, a, w, t, op_pos);
            emit_rd(out, rd, w, t, op_pos);
            emit_reg(out, c);
        },
        Op::Lfork(d) => emit_dir(out, d, w, t, op_pos),
        Op::Aff(r) => emit_reg(out, r),
    }
    proof {
        assert(out@ =~= old(out)@ + spec_encode_op(*op, op_pos as int, t.view()));
    }
}

/// The wire form of an operation is exactly as long as its declared size.
pub proof fn lemma_encode_op_len(op: Op, op_pos: int, m: Map<Seq<char>, int>)
    ensures
        spec_encode_op(op, op_pos, m).len() == spec_op_size(op),
{
}

fn check_dir(d: &Direct, t: &LabelTable) -> (r: CompileResult<()>)
    ensures
        r is Ok <==> first_unresolved(dir_label(*d), t.view()) is None,
        r matches Err(e) ==> (e matches CompileError::MissingLabel(s) && first_unresolved(
            dir_label(*d),
            t.view(),
        ) == Some(s@)),
{
    match d {
        Direct::Numeric(_) => Ok(()),
        Direct::Label(l) => {
            proof {
                assert(dir_label(*d)[0] == l@);
                assert(dir_label(*d).drop_first() =~= Seq::<Seq<char>>::empty());
                assert(first_unresolved(Seq::<Seq<char>>::empty(), t.view()) is None);
            }
            match t.lookup(l) {
                Some(_) => Ok(()),
                None => Err(CompileError::MissingLabel(l.clone())),
            }
        },
    }
}

fn check_ind(d: &Indirect, t: &LabelTable) -> (r: CompileResult<()>)
    ensures
        r is Ok <==> first_unresolved(ind_label(*d), t.view()) is None,
        r matches Err(e) ==> (e matches CompileError::MissingLabel(s) && first_unresolved(
            ind_label(*d),
            t.view(),
        ) == Some(s@)),
{
    match d {
        Indirect::Numeric(_) => Ok(()),
        Indirect::Label(l) => {
            proof {
                assert(ind_label(*d)[0] == l@);
                assert(ind_label(*d).drop_first() =~= Seq::<Seq<char>>::empty());
                assert(first_unresolved(Seq::<Seq<char>>::empty(), t.view()) is None);
            }
            match t.lookup(l) {
                Some(_) => Ok(()),
                None => Err(CompileError::MissingLabel(l.clone())),
            }
        },
    }
}

fn check_rd(p: &RegDir, t: &LabelTable) -> (r: CompileResult<()>)
    ensures
        r is Ok <==> first_unresolved(rd_label(*p), t.view()) is None,
        r matches Err(e) ==> (e matches CompileError::MissingLabel(s) && first_unresolved(
            rd_label(*p),
            t.view(),
        ) == Some(s@)),
{
    match p {
        RegDir::Reg(_) => Ok(()),
        RegDir::Dir(d) => check_dir(d, t),
    }
}

fn check_ri(p: &RegInd, t: &LabelTable) -> (r: CompileResult<()>)
    ensures
        r is Ok <==> first_unresolved(ri_label(*p), t.view()) is None,
        r matches Err(e) ==> (e matches CompileError::MissingLabel(s) && first_unresolved(
            ri_label(*p),
            t.view(),
        ) == Some(s@)),
{
    match p {
        RegInd::Reg(_) => Ok(()),
        RegInd::Ind(d) => check_ind(d, t),
    }
}

fn check_di(p: &DirInd, t: &LabelTable) -> (r: CompileResult<()>)
    ensures
        r is Ok <==> first_unresolved(di_label(*p), t.view()) is None,
        r matches Err(e) ==> (e matches CompileError::MissingLabel(s) && first_unresolved(
            di_label(*p),
            t.view(),
        ) == Some(s@)),
{
    match p {
        DirInd::Dir(d) => check_dir(d, t),
        DirInd::Ind(d) => check_ind(d, t),
    }
}

fn check_any(p: &AnyParam, t: &LabelTable) -> (r: CompileResult<()>)
    ensures
        r is Ok <==> first_unresolved(any_label(*p), t.view()) is None,
        r matches Err(e) ==> (e matches CompileError::MissingLabel(s) && first_unresolved(
            any_label(*p),
            t.view(),
        ) == Some(s@)),
{
    match p {
        AnyParam::Reg(_) => Ok(()),
        AnyParam::Dir(d) => check_dir(d, t),
        AnyParam::Ind(d) => check_ind(d, t),
    }
}

/// Checks every label an operation references, in emission order.
fn check_op_refs(op: &Op, t: &LabelTable) -> (r: CompileResult<()>)
    ensures
        r is Ok <==> first_unresolved(op_label_refs(*op), t.view()) is None,
        r matches Err(e) ==> (e matches CompileError::MissingLabel(s) && first_unresolved(
            op_label_refs(*op),
            t.view(),
        ) == Some(s@)),
{
    match op {
        Op::Live(d) => check_dir(d, t),
        Op::Ld(di, _) => check_di(di, t),
        Op::St(_, ri) => check_ri(ri, t),
        Op::Add(..) => Ok(()),
        Op::Sub(..) => Ok(()),
        Op::And(a, b, _) => {
            proof {
                lemma_first_unresolved_concat(any_label(*a), any_label(*b), t.view());
            }
            match check_any(a, t) {
                Err(e) => Err(e),
                Ok(_) => check_any(b, t),
            }
        },
        Op::Or(a, b, _) => {
            proof {
                lemma_first_unresolved_concat(any_label(*a), any_label(*b), t.view());
            }
            match check_any(a, t) {
                Err(e) => Err(e),
                Ok(_) => check_any(b, t),
            }
        },
        Op::Xor(a, b, _) => {
            proof {
                lemma_first_unresolved_concat(any_label(*a), any_label(*b), t.view());
            }
            match check_any(a, t) {
                Err(e) => Err(e),
                Ok(_) => check_any(b, t),
            }
        },
        Op::Zjmp(d) => check_dir(d, t),
        Op::Ldi(a, rd, _) => {
            proof {
                lemma_first_unresolved_concat(any_label(*a), rd_label(*rd), t.view());
            }
            match check_any(a, t) {
                Err(e) => Err(e),
                Ok(_) => check_rd(rd, t),
            }
        },
        Op::Sti(_, a, rd) => {
            proof {
                lemma_first_unresolved_concat(any_label(*a), rd_label(*rd), t.view());
            }
            match check_any(a, t) {
                Err(e) => Err(e),
                Ok(_) => check_rd(rd, t),
            }
        },
        Op::Fork(d) => check_dir(d, t),
        Op::Lld(di, _) => check_di(di, t),
        Op::Lldi(a, rd, _) => {
            proof {
                lemma_first_unresolved_concat(any_label(*a), rd_label(*rd), t.view());
            }
            match check_any(a, t) {
                Err(e) => Err(e),
                Ok(_) => check_rd(rd, t),
            }
        },
        Op::Lfork(d) => check_dir(d, t),
        Op::Aff(_) => Ok(()),
    }
}

/// An unresolved reference somewhere after `i` means one op's run has one.
proof fn lemma_missing_step(instrs: Seq<ParsedInstruction>, i: int, m: Map<Seq<char>, int>)
    requires
        0 <= i < instrs.len(),
        (match instrs[i] {
            ParsedInstruction::Op(op) => first_unresolved(op_label_refs(op), m) is None,
            _ => true,
        }),
    ensures
        spec_first_missing(instrs, i, m) == spec_first_missing(instrs, i + 1, m),
{
}

/// With no missing label anywhere, each operation's references resolve.
proof fn lemma_no_missing_at(instrs: Seq<ParsedInstruction>, i: int, m: Map<Seq<char>, int>)
    requires
        0 <= i < instrs.len(),
        spec_first_missing(instrs, i, m) is None,
    ensures
        (match instrs[i] {
            ParsedInstruction::Op(op) => first_unresolved(op_label_refs(op), m) is None,
            _ => true,
        }),
        spec_first_missing(instrs, i + 1, m) is None,
{
}

/// A null-padded header field: the text's bytes followed by zeros.
fn pad_field(s: &String, n: usize) -> (r: Vec<u8>)
    requires
        encode_utf8(s@).len() < n,
    ensures
        r@ == spec_padded(encode_utf8(s@), n as int),
        r@.len() == n,
{
    let bytes = s.as_str().as_bytes();
    let mut out = vstd::slice::slice_to_vec(bytes);
    let blen = out.len();
    let mut k = blen;
    while k < n
        invariant
            blen <= k <= n,
            out@.len() == k,
            out@.subrange(0, blen as int) == encode_utf8(s@),
            blen == encode_utf8(s@).len(),
            forall|j: int| blen <= j < k ==> out@[j] == 0u8,
        decreases n - k,
    {
        out.push(0);
        k = k + 1;
    }
    proof {
        assert(out@ =~= spec_padded(encode_utf8(s@), n as int));
    }
    out
}


pub open spec fn spec_padded(b: Seq<u8>, n: int) -> Seq<u8> {
    b + Seq::new((n - b.len()) as nat, |i: int| 0u8)
}


/// Compiles a champion into its complete binary: the fixed header followed
/// by the code section with every label reference resolved. Each error
/// comes in the order the phases run: a duplicate label first, then an
/// over-long name or comment, then a missing label, then an over-long
/// program. The precondition only asks that the code section's size fit
/// the machine's address space, which holds of any champion whose entries
/// actually sit in memory.
pub fn compile_champion(champion: &Champion) -> (r: CompileResult<Vec<u8>>)
    requires
        spec_code_size(champion.instructions@) <= usize::MAX,
    ensures
        ({
            let instrs = champion.instructions@;
            let m = spec_labels(instrs);
            let csize = spec_code_size(instrs);
            let nlen = encode_utf8(champion.name@).len() as int;
            let clen = encode_utf8(champion.comment@).len() as int;
            match r {
                Ok(bytes) => {
                    &&& spec_first_dup(instrs, 0) is None
                    &&& nlen <= PROG_NAME_LENGTH
                    &&& clen <= PROG_COMMENT_LENGTH
                    &&& spec_first_missing(instrs, 0, m) is None
                    &&& csize <= CHAMP_MAX_SIZE
                    &&& bytes@.len() == HEADER_SIZE + csize
                    &&& bytes@.subrange(0, 4) == be32_bytes(COREWAR_MAGIC)
                    &&& bytes@.subrange(4, 4 + (PROG_NAME_LENGTH + 1)) == spec_padded(
                        encode_utf8(champion.name@),
                        PROG_NAME_LENGTH + 1,
                    )
                    &&& bytes@.subrange(133, 137) == be32_bytes(csize as u32)
                    &&& bytes@.subrange(137, 137 + (PROG_COMMENT_LENGTH + 1)) == spec_padded(
                        encode_utf8(champion.comment@),
                        PROG_COMMENT_LENGTH + 1,
                    )
                    &&& bytes@.subrange(HEADER_SIZE as int, bytes@.len() as int)
                        == spec_code_bytes(instrs, m)
                },
                Err(CompileError::DuplicateLabel(s)) => spec_first_dup(instrs, 0) == Some(s@),
                Err(CompileError::ProgramNameTooLong(x)) => {
                    &&& spec_first_dup(instrs, 0) is None
                    &&& nlen > PROG_NAME_LENGTH
                    &&& x as int == nlen
                },
                Err(CompileError::ProgramCommentTooLong(x)) => {
                    &&& spec_first_dup(instrs, 0) is None
                    &&& nlen <= PROG_NAME_LENGTH
                    &&& clen > PROG_COMMENT_LENGTH
                    &&& x as int == clen
                },
                Err(CompileError::MissingLabel(s)) => {
                    &&& spec_first_dup(instrs, 0) is None
                    &&& nlen <= PROG_NAME_LENGTH
                    &&& clen <= PROG_COMMENT_LENGTH
                    &&& spec_first_missing(instrs, 0, m) == Some(s@)
                },
                Err(CompileError::ProgramTooLong(x)) => {
                    &&& spec_first_dup(instrs, 0) is None
                    &&& nlen <= PROG_NAME_LENGTH
                    &&& clen <= PROG_COMMENT_LENGTH
                    &&& spec_first_missing(instrs, 0, m) is None
                    &&& csize > CHAMP_MAX_SIZE
                    &&& x as int == csize
                },
            }
        }),
{
    let ghost instrs = champion.instructions@;
    let n = champion.instructions.len();

    // first pass: label positions, duplicate detection, code size
    let mut table = LabelTable::new();
    let mut size: usize = 0;
    let mut i: usize = 0;
    while i < n
        invariant
            0 <= i <= n == instrs.len(),
            champion.instructions@ == instrs,
            spec_code_size(instrs) <= usize::MAX,
            size as int == spec_code_size(instrs.take(i as int)),
            table.view() == spec_labels(instrs.take(i as int)),
            spec_first_dup(instrs, 0) == spec_first_dup(instrs, i as int),
        decreases n - i,
    {
        let pi = vstd::std_specs::vec::vec_index(&champion.instructions, i);
        proof {
            lemma_code_size_take_step(instrs, i as int);
            lemma_code_size_take_le(instrs, i + 1);
            lemma_labels_take_step(instrs, i as int);
            lemma_code_size_nonneg(instrs.take(i as int));
        }
        match pi {
            ParsedInstruction::Label(l) => {
                match table.lookup(l) {
                    Some(_) => {
                        proof {
                            assert(spec_first_dup(instrs, i as int) == Some(l@));
                        }
                        return Err(CompileError::DuplicateLabel(l.clone()));
                    },
                    None => {
                        table.insert(l.clone(), size);
                    },
                }
            },
            ParsedInstruction::Op(op) => {
                size = size + op_size(op);
            },
            ParsedInstruction::RawCode(v) => {
                size = size + v.len();
            },
        }
        proof {
            assert(spec_first_dup(instrs, i as int) == spec_first_dup(instrs, i + 1));
        }
        i = i + 1;
    }
    proof {
        assert(instrs.take(n as int) =~= instrs);
        assert(spec_first_dup(instrs, n as int) is None);
    }

    // the header's fixed fields bound the name and the comment
    let name_len = champion.name.as_str().as_bytes().len();
    if name_len > PROG_NAME_LENGTH {
        return Err(CompileError::ProgramNameTooLong(name_len));
    }
    let comment_len = champion.comment.as_str().as_bytes().len();
    if comment_len > PROG_COMMENT_LENGTH {
        return Err(CompileError::ProgramCommentTooLong(comment_len));
    }

    // second pass, resolution check: every referenced label must exist
    let mut i: usize = 0;
    while i < n
        invariant
            0 <= i <= n == instrs.len(),
            champion.instructions@ == instrs,
            table.view() == spec_labels(instrs),
            spec_first_dup(instrs, 0) is None,
            encode_utf8(champion.name@).len() <= PROG_NAME_LENGTH,
            encode_utf8(champion.comment@).len() <= PROG_COMMENT_LENGTH,
            spec_first_missing(instrs, 0, spec_labels(instrs)) == spec_first_missing(
                instrs,
                i as int,
                spec_labels(instrs),
            ),
        decreases n - i,
    {
        let pi = vstd::std_specs::vec::vec_index(&champion.instructions, i);
        match pi {
            ParsedInstruction::Op(op) => {
                match check_op_refs(op, &table) {
                    Err(e) => {
                        proof {
                            assert(spec_first_missing(instrs, i as int, table.view())
                                == first_unresolved(op_label_refs(*op), table.view()));
                        }
                        return Err(e);
                    },
                    Ok(_) => {
                        proof {
                            lemma_missing_step(instrs, i as int, table.view());
                        }
                    },
                }
            },
            _ => {
                proof {
                    lemma_missing_step(instrs, i as int, table.view());
                }
            },
        }
        i = i + 1;
    }

    // the code section must fit
    if size > CHAMP_MAX_SIZE {
        return Err(CompileError::ProgramTooLong(size));
    }

    // third pass: emit the code with labels resolved
    proof {
        lemma_labels_bounded(instrs);
    }
    let mut code: Vec<u8> = Vec::new();
    let mut i: usize = 0;
    while i < n
        invariant
            0 <= i <= n == instrs.len(),
            champion.instructions@ == instrs,
            table.view() == spec_labels(instrs),
            spec_first_dup(instrs, 0) is None,
            encode_utf8(champion.name@).len() <= PROG_NAME_LENGTH,
            encode_utf8(champion.comment@).len() <= PROG_COMMENT_LENGTH,
            spec_code_size(instrs) <= CHAMP_MAX_SIZE,
            spec_first_missing(instrs, 0, spec_labels(instrs)) is None,
            map_bounded(table.view()),
            code@ == spec_code_bytes(instrs.take(i as int), spec_labels(instrs)),
            code@.len() == spec_code_size(instrs.take(i as int)),
        decreases n - i,
    {
        let pi = vstd::std_specs::vec::vec_index(&champion.instructions, i);
        proof {
            lemma_code_size_take_step(instrs, i as int);
            lemma_code_size_take_le(instrs, i + 1);
            lemma_code_size_nonneg(instrs.take(i as int));
            lemma_code_bytes_take_step(instrs, i as int, spec_labels(instrs));
            lemma_no_missing_chain(instrs, i as int, spec_labels(instrs));
        }
        match pi {
            ParsedInstruction::Label(_) => {
                proof {
                    assert(code@ =~= spec_code_bytes(instrs.take(i + 1), spec_labels(instrs)));
                }
            },
            ParsedInstruction::RawCode(v) => {
                code.extend_from_slice(v.as_slice());
            },
            ParsedInstruction::Op(op) => {
                proof {
                    lemma_resolved_refs_ok(op_label_refs(*op), table.view());
                    lemma_encode_op_len(*op, code@.len() as int, table.view());
                }
                let pos = code.len();
                encode_op_into(&mut code, op, &table, pos);
            },
        }
        i = i + 1;
    }
    proof {
        assert(instrs.take(n as int) =~= instrs);
    }

    // header, then code
    let header = Header {
        magic: COREWAR_MAGIC,
        prog_name: pad_field(&champion.name, PROG_NAME_LENGTH + 1),
        prog_size: code.len() as u32,
        prog_comment: pad_field(&champion.comment, PROG_COMMENT_LENGTH + 1),
    };
    let mut out = header.to_bytes();
    let ghost header_seq = out@;
    out.append(&mut code);
    proof {
        let m = spec_labels(instrs);
        let csize = spec_code_size(instrs);
        assert(out@.subrange(0, 4) =~= be32_bytes(COREWAR_MAGIC));
        assert(out@.subrange(4, 4 + (PROG_NAME_LENGTH + 1)) =~= spec_padded(
            encode_utf8(champion.name@),
            PROG_NAME_LENGTH + 1,
        ));
        assert(out@.subrange(133, 137) =~= be32_bytes(csize as u32));
        assert(out@.subrange(137, 137 + (PROG_COMMENT_LENGTH + 1)) =~= spec_padded(
            encode_utf8(champion.comment@),
            PROG_COMMENT_LENGTH + 1,
        ));
        assert(out@.subrange(HEADER_SIZE as int, out@.len() as int) =~= spec_code_bytes(
            instrs,
            m,
        ));
    }
    Ok(out)
}

/// With no missing reference from the start, none shows at entry `i`.
proof fn lemma_no_missing_chain(instrs: Seq<ParsedInstruction>, i: int, m: Map<Seq<char>, int>)
    requires
        0 <= i < instrs.len(),
        spec_first_missing(instrs, 0, m) is None,
    ensures
        (match instrs[i] {
            ParsedInstruction::Op(op) => first_unresolved(op_label_refs(op), m) is None,
            _ => true,
        }),
    decreases i,
{
    lemma_no_missing_front(instrs, 0, i, m);
}

proof fn lemma_no_missing_front(instrs: Seq<ParsedInstruction>, j: int, i: int, m: Map<Seq<char>, int>)
    requires
        0 <= j <= i < instrs.len(),
        spec_first_missing(instrs, j, m) is None,
    ensures
        (match instrs[i] {
            ParsedInstruction::Op(op) => first_unresolved(op_label_refs(op), m) is None,
            _ => true,
        }),
    decreases i - j,
{
    lemma_no_missing_at(instrs, j, m);
    if j < i {
        lemma_no_missing_front(instrs, j + 1, i, m);
    }
}

} // verus!
