//! The instruction decoder: reads an opcode, an optional operand-type byte
//! and the operands from the arena, validating structure as it goes. It
//! never mutates memory or the program counter, and every outcome - the
//! decoded instruction or the exact error - is pinned down by
//! `spec_decode_op` and `spec_decode_instr`.

use vstd::prelude::*;
use crate::{MEM_SIZE, REG_COUNT, T_DIR, T_IND, T_REG};
use crate::memory::{mem_read_i16, mem_read_i32, wrap, Memory};
use crate::ops::{op_spec, spec_op_from_code, spec_op_spec, DirectSize, OpSpec, OpType, ParamType};
use crate::vm_types::{Instruction, Param};

verus! {

/// The byte at `at` did not name an opcode.
#[derive(Debug, Clone, Copy, PartialEq, Eq, Structural)]
pub struct InvalidOpCode(pub u8);

/// The opcode byte was valid but the rest of the instruction was not.
#[derive(Debug, Clone, Copy, PartialEq, Eq, Structural)]
pub enum InstrDecodeError {
    /// The operand-type byte is malformed: stray trailing bits, an invalid
    /// two-bit code, or a type the opcode does not allow.
    InvalidPCB(u8),
    /// A register operand named a register outside `1..=REG_COUNT`.
    InvalidRegNumber(u8),
}

/// Decoding failure of the observer's combined query: either the opcode
/// byte itself was invalid, or the operands after a valid opcode were.
#[derive(Debug, Clone, Copy, PartialEq, Eq, Structural)]
pub enum DecodeError {
    InvalidOp(InvalidOpCode),
    OpOnly(OpType, InstrDecodeError),
}

/// The byte stored at arena position `at`.
pub open spec fn read_cell(vals: Seq<u8>, at: int) -> u8 {
    vals[wrap(at)]
}

/// What reading the opcode byte at `at` yields.
pub open spec fn spec_decode_op(vals: Seq<u8>, at: int) -> Result<OpType, InvalidOpCode> {
    let code = read_cell(vals, at);
    match spec_op_from_code(code) {
        Some(t) => Ok(t),
        None => Err(InvalidOpCode(code)),
    }
}

/// The two-bit operand-type code of parameter `idx` inside an operand-type
/// byte: bits 7-6 hold the first, 5-4 the second, 3-2 the third.
pub open spec fn pcb_slot(pcb: u8, idx: int) -> u8 {
    if idx == 0 {
        (pcb >> 6) & 3
    } else if idx == 1 {
        (pcb >> 4) & 3
    } else {
        (pcb >> 2) & 3
    }
}

/// The parameter type named by a two-bit code.
pub open spec fn code_param_type(code: u8) -> ParamType {
    if code == 1 {
        ParamType::Register
    } else if code == 2 {
        ParamType::Direct
    } else {
        ParamType::Indirect
    }
}

/// The mask bit corresponding to a two-bit code.
pub open spec fn code_flag(code: u8) -> u8 {
    if code == 1 {
        T_REG
    } else if code == 2 {
        T_DIR
    } else {
        T_IND
    }
}

/// The parameter type determined by a single-bit mask, for opcodes without
/// an operand-type byte.
pub open spec fn mask_param_type(mask: u8) -> ParamType {
    if mask == T_REG {
        ParamType::Register
    } else if mask == T_DIR {
        ParamType::Direct
    } else if mask == T_IND {
        ParamType::Indirect
    } else {
        ParamType::Register
    }
}

/// Bits of the operand-type byte beyond `count` parameters, which must all
/// be zero.
pub open spec fn unused_mask(count: int) -> u8 {
    if count == 1 {
        0x3f
    } else if count == 2 {
        0x0f
    } else {
        0x03
    }
}

/// Whether slot `idx` of the operand-type byte holds a code that is valid
/// and allowed by the opcode's mask.
pub open spec fn slot_ok(pcb: u8, s: OpSpec, idx: int) -> bool {
    let code = pcb_slot(pcb, idx);
    &&& 1 <= code <= 3
    &&& s.param_masks[idx] & code_flag(code) == code_flag(code)
}

/// Whether a whole operand-type byte is well formed for the opcode.
pub open spec fn pcb_valid(pcb: u8, s: OpSpec) -> bool {
    &&& pcb & unused_mask(s.param_count as int) == 0
    &&& forall|i: int| 0 <= i < s.param_count ==> slot_ok(pcb, s, i)
}

/// The type of parameter `idx` of `op`, given the operand-type byte where
/// the opcode has one.
pub open spec fn spec_param_type(op: OpType, pcb: u8, idx: int) -> ParamType {
    let s = spec_op_spec(op);
    if s.has_pcb {
        code_param_type(pcb_slot(pcb, idx))
    } else {
        mask_param_type(s.param_masks[idx])
    }
}

/// How many bytes a parameter of the given type occupies on the wire.
pub open spec fn param_size(t: ParamType, dir: DirectSize) -> int {
    match t {
        ParamType::Register => 1,
        ParamType::Direct => dir.spec_byte_count() as int,
        ParamType::Indirect => 2,
    }
}

/// Offset from the instruction start to parameter `idx`: past the opcode
/// byte, the operand-type byte if present, and the earlier parameters.
pub open spec fn spec_param_offset(op: OpType, pcb: u8, idx: int) -> int {
    let s = spec_op_spec(op);
    let h: int = if s.has_pcb {
        2
    } else {
        1
    };
    if idx == 0 {
        h
    } else if idx == 1 {
        h + param_size(spec_param_type(op, pcb, 0), s.dir_size)
    } else {
        h + param_size(spec_param_type(op, pcb, 0), s.dir_size) + param_size(
            spec_param_type(op, pcb, 1),
            s.dir_size,
        )
    }
}

/// Total size in bytes of the instruction on the wire.
pub open spec fn spec_instr_size(op: OpType, pcb: u8) -> int {
    let s = spec_op_spec(op);
    spec_param_offset(op, pcb, (s.param_count - 1) as int) + param_size(
        spec_param_type(op, pcb, (s.param_count - 1) as int),
        s.dir_size,
    )
}

/// The value of a parameter of type `t` stored at `at`: a register index
/// byte, a signed direct of the opcode's width, or a two-byte signed
/// indirect.
pub open spec fn spec_param_value(vals: Seq<u8>, t: ParamType, at: int, dir: DirectSize) -> i32 {
    match t {
        ParamType::Register => read_cell(vals, at) as i32,
        ParamType::Direct => if dir is FourBytes {
            mem_read_i32(vals, at)
        } else {
            mem_read_i16(vals, at) as i32
        },
        ParamType::Indirect => mem_read_i16(vals, at) as i32,
    }
}

/// Whether parameter `idx`, if it is a register, names a valid register.
pub open spec fn spec_reg_ok(vals: Seq<u8>, op: OpType, pcb: u8, at: int, idx: int) -> bool {
    spec_param_type(op, pcb, idx) != ParamType::Register || {
        let b = read_cell(vals, at + spec_param_offset(op, pcb, idx));
        1 <= b <= REG_COUNT
    }
}

/// Parameter `idx` as decoded, or the filler parameter past `param_count`.
pub open spec fn spec_param(vals: Seq<u8>, op: OpType, pcb: u8, at: int, idx: int) -> Param {
    let s = spec_op_spec(op);
    if idx < s.param_count {
        let t = spec_param_type(op, pcb, idx);
        Param { kind: t, value: spec_param_value(vals, t, at + spec_param_offset(op, pcb, idx), s.dir_size) }
    } else {
        Param::default_spec()
    }
}

/// What decoding the full instruction `op` at `at` yields: the instruction,
/// or the exact error, with failures reported in the order the wire is
/// read - a malformed operand-type byte first, then the first bad register.
pub open spec fn spec_decode_instr(vals: Seq<u8>, op: OpType, at: int) -> Result<
    Instruction,
    InstrDecodeError,
> {
    let s = spec_op_spec(op);
    let pcb = read_cell(vals, at + 1);
    if s.has_pcb && !pcb_valid(pcb, s) {
        Err(InstrDecodeError::InvalidPCB(pcb))
    } else if !spec_reg_ok(vals, op, pcb, at, 0) {
        Err(InstrDecodeError::InvalidRegNumber(read_cell(vals, at + spec_param_offset(op, pcb, 0))))
    } else if s.param_count >= 2 && !spec_reg_ok(vals, op, pcb, at, 1) {
        Err(InstrDecodeError::InvalidRegNumber(read_cell(vals, at + spec_param_offset(op, pcb, 1))))
    } else if s.param_count >= 3 && !spec_reg_ok(vals, op, pcb, at, 2) {
        Err(InstrDecodeError::InvalidRegNumber(read_cell(vals, at + spec_param_offset(op, pcb, 2))))
    } else {
        Ok(
            Instruction {
                kind: op,
                params: [
                    spec_param(vals, op, pcb, at, 0),
                    spec_param(vals, op, pcb, at, 1),
                    spec_param(vals, op, pcb, at, 2),
                ],
                byte_size: spec_instr_size(op, pcb) as usize,
            },
        )
    }
}

/// Reads the opcode byte at `idx` and validates it.
pub fn decode_op(mem: &Memory, idx: usize) -> (r: Result<OpType, InvalidOpCode>)
    ensures
        r == spec_decode_op(mem.values@, idx as int),
{
    let code = mem.read_byte(idx);
    match crate::ops::op_from_code(code) {
        Some(t) => Ok(t),
        None => Err(InvalidOpCode(code)),
    }
}

/// Decodes one parameter of known type at `at`, returning it with its size.
fn decode_param(mem: &Memory, kind: ParamType, at: usize, dir: DirectSize) -> (r: Result<
    (Param, usize),
    InstrDecodeError,
>)
    requires
        at + 4 <= usize::MAX,
    ensures
        match r {
            Ok((p, sz)) => {
                &&& kind != ParamType::Register || {
                    let b = read_cell(mem.values@, at as int);
                    1 <= b <= REG_COUNT
                }
                &&& p == (Param {
                    kind,
                    value: spec_param_value(mem.values@, kind, at as int, dir),
                })
                &&& sz as int == param_size(kind, dir)
            },
            Err(e) => {
                &&& kind == ParamType::Register
                &&& !(1 <= read_cell(mem.values@, at as int) <= REG_COUNT)
                &&& e == InstrDecodeError::InvalidRegNumber(read_cell(mem.values@, at as int))
            },
        },
{
    match kind {
        ParamType::Register => {
            let reg = mem.read_byte(at);
            if 1 <= reg && reg as usize <= REG_COUNT {
                Ok((Param { kind, value: reg as i32 }, 1))
            } else {
                Err(InstrDecodeError::InvalidRegNumber(reg))
            }
        },
        ParamType::Direct => {
            match dir {
                DirectSize::FourBytes => Ok((Param { kind, value: mem.read_i32(at) }, 4)),
                DirectSize::TwoBytes => Ok((Param { kind, value: mem.read_i16(at) as i32 }, 2)),
            }
        },
        ParamType::Indirect => Ok((Param { kind, value: mem.read_i16(at) as i32 }, 2)),
    }
}

/// Validates slot `idx` of the operand-type byte against the opcode's mask
/// and returns the parameter type it names.
fn read_slot_type(pcb: u8, s: &OpSpec, idx: usize) -> (r: Result<ParamType, InstrDecodeError>)
    requires
        idx < 3,
    ensures
        r matches Ok(t) ==> slot_ok(pcb, *s, idx as int) && t == code_param_type(
            pcb_slot(pcb, idx as int),
        ),
        r is Err ==> !slot_ok(pcb, *s, idx as int) && r == Result::<
            ParamType,
            InstrDecodeError,
        >::Err(InstrDecodeError::InvalidPCB(pcb)),
{
    let code: u8 = if idx == 0 {
        (pcb >> 6) & 3
    } else if idx == 1 {
        (pcb >> 4) & 3
    } else {
        (pcb >> 2) & 3
    };
    let (t, flag): (ParamType, u8) = if code == 1 {
        (ParamType::Register, T_REG)
    } else if code == 2 {
        (ParamType::Direct, T_DIR)
    } else if code == 3 {
        (ParamType::Indirect, T_IND)
    } else {
        return Err(InstrDecodeError::InvalidPCB(pcb));
    };
    let mask = s.param_masks[idx];
    if mask & flag == flag {
        Ok(t)
    } else {
        Err(InstrDecodeError::InvalidPCB(pcb))
    }
}

/// Decodes the instruction whose opcode `op` sits at `addr`: validates the
/// operand-type byte if the opcode has one, then reads each parameter in
/// order, accumulating the instruction's byte size.
pub fn decode_instr(mem: &Memory, op: OpType, addr: usize) -> (r: Result<
    Instruction,
    InstrDecodeError,
>)
    requires
        addr < MEM_SIZE,
    ensures
        r == spec_decode_instr(mem.values@, op, addr as int),
{
    let s = op_spec(op);
    let ghost pcb_g = read_cell(mem.values@, addr as int + 1);
    let (param_types, header): ([ParamType; 3], usize) = if s.has_pcb {
        let pcb = mem.read_byte(addr + 1);
        let unused: u8 = if s.param_count == 1 {
            0x3f
        } else if s.param_count == 2 {
            0x0f
        } else {
            0x03
        };
        if pcb & unused != 0 {
            return Err(InstrDecodeError::InvalidPCB(pcb));
        }
        let t0 = match read_slot_type(pcb, &s, 0) {
            Ok(t) => t,
            Err(e) => {
                return Err(e);
            },
        };
        let t1 = if s.param_count >= 2 {
            match read_slot_type(pcb, &s, 1) {
                Ok(t) => t,
                Err(e) => {
                    return Err(e);
                },
            }
        } else {
            ParamType::Register
        };
        let t2 = if s.param_count >= 3 {
            match read_slot_type(pcb, &s, 2) {
                Ok(t) => t,
                Err(e) => {
                    return Err(e);
                },
            }
        } else {
            ParamType::Register
        };
        ([t0, t1, t2], 2)
    } else {
        (
            [
                mask_type(s.param_masks[0]),
                mask_type(s.param_masks[1]),
                mask_type(s.param_masks[2]),
            ],
            1,
        )
    };
    proof {
        assert forall|i: int| 0 <= i < s.param_count implies spec_param_type(op, pcb_g, i)
            == param_types@[i] by {}
        if s.has_pcb {
            assert(pcb_valid(pcb_g, s));
        }
    }

    let mut size = header;
    let (p0, sz0) = match decode_param(mem, param_types[0], addr + size, s.dir_size) {
        Ok(x) => x,
        Err(e) => {
            return Err(e);
        },
    };
    size = size + sz0;
    let (p1, sz1) = if s.param_count >= 2 {
        match decode_param(mem, param_types[1], addr + size, s.dir_size) {
            Ok(x) => x,
            Err(e) => {
                return Err(e);
            },
        }
    } else {
        (Param::default(), 0)
    };
    size = size + sz1;
    let (p2, sz2) = if s.param_count >= 3 {
        match decode_param(mem, param_types[2], addr + size, s.dir_size) {
            Ok(x) => x,
            Err(e) => {
                return Err(e);
            },
        }
    } else {
        (Param::default(), 0)
    };
    size = size + sz2;

    Ok(Instruction { kind: op, params: [p0, p1, p2], byte_size: size })
}

/// The parameter type fixed by a single-bit mask.
fn mask_type(mask: u8) -> (r: ParamType)
    ensures
        r == mask_param_type(mask),
{
    if mask == T_REG {
        ParamType::Register
    } else if mask == T_DIR {
        ParamType::Direct
    } else if mask == T_IND {
        ParamType::Indirect
    } else {
        ParamType::Register
    }
}

/// The observer's decode query: the instruction at `idx`, or where decoding
/// stopped.
pub fn decode(mem: &Memory, idx: usize) -> (r: Result<Instruction, DecodeError>)
    requires
        idx < MEM_SIZE,
    ensures
        r == spec_decode(mem.values@, idx as int),
{
    match decode_op(mem, idx) {
        Err(e) => Err(DecodeError::InvalidOp(e)),
        Ok(op) => match decode_instr(mem, op, idx) {
            Ok(instr) => Ok(instr),
            Err(e) => Err(DecodeError::OpOnly(op, e)),
        },
    }
}

/// What the observer's decode query yields.
pub open spec fn spec_decode(vals: Seq<u8>, at: int) -> Result<Instruction, DecodeError> {
    match spec_decode_op(vals, at) {
        Err(e) => Err(DecodeError::InvalidOp(e)),
        Ok(op) => match spec_decode_instr(vals, op, at) {
            Ok(instr) => Ok(instr),
            Err(e) => Err(DecodeError::OpOnly(op, e)),
        },
    }
}

} // verus!
