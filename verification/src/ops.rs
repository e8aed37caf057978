//! Static specification of the 16 instructions: opcode, cycle cost,
//! parameter count, per-parameter type masks, whether an operand-type byte
//! is present on the wire, and the width of direct operands.

use vstd::prelude::*;
use crate::{MAX_PARAMS, T_REG, T_DIR, T_IND};

verus! {

#[derive(Debug, Clone, Copy, PartialEq, Eq, Structural)]
pub enum OpType {
    Live,
    Ld,
    St,
    Add,
    Sub,
    And,
    Or,
    Xor,
    Zjmp,
    Ldi,
    Sti,
    Fork,
    Lld,
    Lldi,
    Lfork,
    Aff,
}

#[derive(Debug, Clone, Copy, PartialEq, Eq, Structural)]
pub enum ParamType {
    Register,
    Direct,
    Indirect,
}

#[derive(Debug, Clone, Copy, PartialEq, Eq, Structural)]
pub enum DirectSize {
    TwoBytes,
    FourBytes,
}

impl DirectSize {
    /// Width in bytes of a direct operand of this size.
    pub open spec fn spec_byte_count(self) -> usize {
        match self {
            DirectSize::TwoBytes => 2,
            DirectSize::FourBytes => 4,
        }
    }

    #[verifier::when_used_as_spec(spec_byte_count)]
    pub fn byte_count(self) -> (r: usize)
        ensures
            r == self.spec_byte_count(),
    {
        match self {
            DirectSize::TwoBytes => 2,
            DirectSize::FourBytes => 4,
        }
    }
}

#[derive(Debug, Clone, Copy)]
pub struct OpSpec {
    pub code: u8,
    pub cycles: u32,
    pub param_count: usize,
    pub param_masks: [u8; MAX_PARAMS],
    pub has_pcb: bool,
    pub dir_size: DirectSize,
}

/// Wire code of each opcode.
pub open spec fn spec_op_code(t: OpType) -> u8 {
    match t {
        OpType::Live => 1,
        OpType::Ld => 2,
        OpType::St => 3,
        OpType::Add => 4,
        OpType::Sub => 5,
        OpType::And => 6,
        OpType::Or => 7,
        OpType::Xor => 8,
        OpType::Zjmp => 9,
        OpType::Ldi => 10,
        OpType::Sti => 11,
        OpType::Fork => 12,
        OpType::Lld => 13,
        OpType::Lldi => 14,
        OpType::Lfork => 15,
        OpType::Aff => 16,
    }
}

#[verifier::when_used_as_spec(spec_op_code)]
pub fn op_code(t: OpType) -> (r: u8)
    ensures
        r == spec_op_code(t),
{
    match t {
        OpType::Live => 1,
        OpType::Ld => 2,
        OpType::St => 3,
        OpType::Add => 4,
        OpType::Sub => 5,
        OpType::And => 6,
        OpType::Or => 7,
        OpType::Xor => 8,
        OpType::Zjmp => 9,
        OpType::Ldi => 10,
        OpType::Sti => 11,
        OpType::Fork => 12,
        OpType::Lld => 13,
        OpType::Lldi => 14,
        OpType::Lfork => 15,
        OpType::Aff => 16,
    }
}

/// The opcode denoted by a wire code, if the code is in 1..=16.
pub open spec fn spec_op_from_code(code: u8) -> Option<OpType> {
    if code == 1 {
        Some(OpType::Live)
    } else if code == 2 {
        Some(OpType::Ld)
    } else if code == 3 {
        Some(OpType::St)
    } else if code == 4 {
        Some(OpType::Add)
    } else if code == 5 {
        Some(OpType::Sub)
    } else if code == 6 {
        Some(OpType::And)
    } else if code == 7 {
        Some(OpType::Or)
    } else if code == 8 {
        Some(OpType::Xor)
    } else if code == 9 {
        Some(OpType::Zjmp)
    } else if code == 10 {
        Some(OpType::Ldi)
    } else if code == 11 {
        Some(OpType::Sti)
    } else if code == 12 {
        Some(OpType::Fork)
    } else if code == 13 {
        Some(OpType::Lld)
    } else if code == 14 {
        Some(OpType::Lldi)
    } else if code == 15 {
        Some(OpType::Lfork)
    } else if code == 16 {
        Some(OpType::Aff)
    } else {
        None
    }
}

#[verifier::when_used_as_spec(spec_op_from_code)]
pub fn op_from_code(code: u8) -> (r: Option<OpType>)
    ensures
        r == spec_op_from_code(code),
{
    if code == 1 {
        Some(OpType::Live)
    } else if code == 2 {
        Some(OpType::Ld)
    } else if code == 3 {
        Some(OpType::St)
    } else if code == 4 {
        Some(OpType::Add)
    } else if code == 5 {
        Some(OpType::Sub)
    } else if code == 6 {
        Some(OpType::And)
    } else if code == 7 {
        Some(OpType::Or)
    } else if code == 8 {
        Some(OpType::Xor)
    } else if code == 9 {
        Some(OpType::Zjmp)
    } else if code == 10 {
        Some(OpType::Ldi)
    } else if code == 11 {
        Some(OpType::Sti)
    } else if code == 12 {
        Some(OpType::Fork)
    } else if code == 13 {
        Some(OpType::Lld)
    } else if code == 14 {
        Some(OpType::Lldi)
    } else if code == 15 {
        Some(OpType::Lfork)
    } else if code == 16 {
        Some(OpType::Aff)
    } else {
        None
    }
}

/// The code of an opcode always decodes back to that opcode.
pub proof fn lemma_op_code_round_trip(t: OpType)
    ensures
        spec_op_from_code(spec_op_code(t)) == Some(t),
{
}

/// The static attribute table of the instruction set.
pub open spec fn spec_op_spec(t: OpType) -> OpSpec {
    match t {
        OpType::Live => OpSpec {
            code: 1,
            cycles: 10,
            param_count: 1,
            param_masks: [T_DIR, 0, 0],
            has_pcb: false,
            dir_size: DirectSize::FourBytes,
        },
        OpType::Ld => OpSpec {
            code: 2,
            cycles: 5,
            param_count: 2,
            param_masks: [T_DIR | T_IND, T_REG, 0],
            has_pcb: true,
            dir_size: DirectSize::FourBytes,
        },
        OpType::St => OpSpec {
            code: 3,
            cycles: 5,
            param_count: 2,
            param_masks: [T_REG, T_REG | T_IND, 0],
            has_pcb: true,
            dir_size: DirectSize::FourBytes,
        },
        OpType::Add => OpSpec {
            code: 4,
            cycles: 10,
            param_count: 3,
            param_masks: [T_REG, T_REG, T_REG],
            has_pcb: true,
            dir_size: DirectSize::FourBytes,
        },
        OpType::Sub => OpSpec {
            code: 5,
            cycles: 10,
            param_count: 3,
            param_masks: [T_REG, T_REG, T_REG],
            has_pcb: true,
            dir_size: DirectSize::FourBytes,
        },
        OpType::And => OpSpec {
            code: 6,
            cycles: 6,
            param_count: 3,
            param_masks: [T_REG | T_DIR | T_IND, T_REG | T_DIR | T_IND, T_REG],
            has_pcb: true,
            dir_size: DirectSize::FourBytes,
        },
        OpType::Or => OpSpec {
            code: 7,
            cycles: 6,
            param_count: 3,
            param_masks: [T_REG | T_DIR | T_IND, T_REG | T_DIR | T_IND, T_REG],
            has_pcb: true,
            dir_size: DirectSize::FourBytes,
        },
        OpType::Xor => OpSpec {
            code: 8,
            cycles: 6,
            param_count: 3,
            param_masks: [T_REG | T_DIR | T_IND, T_REG | T_DIR | T_IND, T_REG],
            has_pcb: true,
            dir_size: DirectSize::FourBytes,
        },
        OpType::Zjmp => OpSpec {
            code: 9,
            cycles: 20,
            param_count: 1,
            param_masks: [T_DIR, 0, 0],
            has_pcb: false,
            dir_size: DirectSize::TwoBytes,
        },
        OpType::Ldi => OpSpec {
            code: 10,
            cycles: 25,
            param_count: 3,
            param_masks: [T_REG | T_DIR | T_IND, T_REG | T_DIR, T_REG],
            has_pcb: true,
            dir_size: DirectSize::TwoBytes,
        },
        OpType::Sti => OpSpec {
            code: 11,
            cycles: 25,
            param_count: 3,
            param_masks: [T_REG, T_REG | T_DIR | T_IND, T_REG | T_DIR],
            has_pcb: true,
            dir_size: DirectSize::TwoBytes,
        },
        OpType::Fork => OpSpec {
            code: 12,
            cycles: 800,
            param_count: 1,
            param_masks: [T_DIR, 0, 0],
            has_pcb: false,
            dir_size: DirectSize::TwoBytes,
        },
        OpType::Lld => OpSpec {
            code: 13,
            cycles: 10,
            param_count: 2,
            param_masks: [T_DIR | T_IND, T_REG, 0],
            has_pcb: true,
            dir_size: DirectSize::FourBytes,
        },
        OpType::Lldi => OpSpec {
            code: 14,
            cycles: 50,
            param_count: 3,
            param_masks: [T_REG | T_DIR | T_IND, T_REG | T_DIR, T_REG],
            has_pcb: true,
            dir_size: DirectSize::TwoBytes,
        },
        OpType::Lfork => OpSpec {
            code: 15,
            cycles: 1000,
            param_count: 1,
            param_masks: [T_DIR, 0, 0],
            has_pcb: false,
            dir_size: DirectSize::TwoBytes,
        },
        OpType::Aff => OpSpec {
            code: 16,
            cycles: 2,
            param_count: 1,
            param_masks: [T_REG, 0, 0],
            has_pcb: true,
            dir_size: DirectSize::FourBytes,
        },
    }
}

#[verifier::when_used_as_spec(spec_op_spec)]
pub fn op_spec(t: OpType) -> (r: OpSpec)
    ensures
        r == spec_op_spec(t),
{
    match t {
        OpType::Live => OpSpec {
            code: 1,
            cycles: 10,
            param_count: 1,
            param_masks: [T_DIR, 0, 0],
            has_pcb: false,
            dir_size: DirectSize::FourBytes,
        },
        OpType::Ld => OpSpec {
            code: 2,
            cycles: 5,
            param_count: 2,
            param_masks: [T_DIR | T_IND, T_REG, 0],
            has_pcb: true,
            dir_size: DirectSize::FourBytes,
        },
        OpType::St => OpSpec {
            code: 3,
            cycles: 5,
            param_count: 2,
            param_masks: [T_REG, T_REG | T_IND, 0],
            has_pcb: true,
            dir_size: DirectSize::FourBytes,
        },
        OpType::Add => OpSpec {
            code: 4,
            cycles: 10,
            param_count: 3,
            param_masks: [T_REG, T_REG, T_REG],
            has_pcb: true,
            dir_size: DirectSize::FourBytes,
        },
        OpType::Sub => OpSpec {
            code: 5,
            cycles: 10,
            param_count: 3,
            param_masks: [T_REG, T_REG, T_REG],
            has_pcb: true,
            dir_size: DirectSize::FourBytes,
        },
        OpType::And => OpSpec {
            code: 6,
            cycles: 6,
            param_count: 3,
            param_masks: [T_REG | T_DIR | T_IND, T_REG | T_DIR | T_IND, T_REG],
            has_pcb: true,
            dir_size: DirectSize::FourBytes,
        },
        OpType::Or => OpSpec {
            code: 7,
            cycles: 6,
            param_count: 3,
            param_masks: [T_REG | T_DIR | T_IND, T_REG | T_DIR | T_IND, T_REG],
            has_pcb: true,
            dir_size: DirectSize::FourBytes,
        },
        OpType::Xor => OpSpec {
            code: 8,
            cycles: 6,
            param_count: 3,
            param_masks: [T_REG | T_DIR | T_IND, T_REG | T_DIR | T_IND, T_REG],
            has_pcb: true,
            dir_size: DirectSize::FourBytes,
        },
        OpType::Zjmp => OpSpec {
            code: 9,
            cycles: 20,
            param_count: 1,
            param_masks: [T_DIR, 0, 0],
            has_pcb: false,
            dir_size: DirectSize::TwoBytes,
        },
        OpType::Ldi => OpSpec {
            code: 10,
            cycles: 25,
            param_count: 3,
            param_masks: [T_REG | T_DIR | T_IND, T_REG | T_DIR, T_REG],
            has_pcb: true,
            dir_size: DirectSize::TwoBytes,
        },
        OpType::Sti => OpSpec {
            code: 11,
            cycles: 25,
            param_count: 3,
            param_masks: [T_REG, T_REG | T_DIR | T_IND, T_REG | T_DIR],
            has_pcb: true,
            dir_size: DirectSize::TwoBytes,
        },
        OpType::Fork => OpSpec {
            code: 12,
            cycles: 800,
            param_count: 1,
            param_masks: [T_DIR, 0, 0],
            has_pcb: false,
            dir_size: DirectSize::TwoBytes,
        },
        OpType::Lld => OpSpec {
            code: 13,
            cycles: 10,
            param_count: 2,
            param_masks: [T_DIR | T_IND, T_REG, 0],
            has_pcb: true,
            dir_size: DirectSize::FourBytes,
        },
        OpType::Lldi => OpSpec {
            code: 14,
            cycles: 50,
            param_count: 3,
            param_masks: [T_REG | T_DIR | T_IND, T_REG | T_DIR, T_REG],
            has_pcb: true,
            dir_size: DirectSize::TwoBytes,
        },
        OpType::Lfork => OpSpec {
            code: 15,
            cycles: 1000,
            param_count: 1,
            param_masks: [T_DIR, 0, 0],
            has_pcb: false,
            dir_size: DirectSize::TwoBytes,
        },
        OpType::Aff => OpSpec {
            code: 16,
            cycles: 2,
            param_count: 1,
            param_masks: [T_REG, 0, 0],
            has_pcb: true,
            dir_size: DirectSize::FourBytes,
        },
    }
}

} // verus!
