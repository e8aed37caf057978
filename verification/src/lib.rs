//! A Core War combat simulator: an assembler that compiles a textual
//! champion language into a fixed-format binary, and a cycle-accurate
//! virtual machine that executes those binaries inside a shared circular
//! memory arena.

pub mod bytes;
pub mod assembler;
pub mod compiler;
pub mod counts;
pub mod header;
pub mod players;
pub mod strings;
pub mod laws;
pub mod lexer;
pub mod parser;
pub mod types;
pub mod decoder;
pub mod memory;
pub mod instructions;
pub mod ops;
pub mod process;
pub mod program_counter;
pub mod vm;
pub mod vm_types;

use vstd::prelude::*;

verus! {

/// Magic number at the start of every champion binary.
pub const COREWAR_MAGIC: u32 = 0x00EA_83F3;

/// Maximum length in bytes of a champion's name (the header field holds
/// one more byte for the trailing NUL).
pub const PROG_NAME_LENGTH: usize = 128;

/// Maximum length in bytes of a champion's comment (the header field holds
/// one more byte for the trailing NUL).
pub const PROG_COMMENT_LENGTH: usize = 2048;

/// Size in bytes of the packed champion header:
/// magic (4) + name (129) + code size (4) + comment (2049).
pub const HEADER_SIZE: usize = 2186;

pub const REG_PARAM_CODE: u8 = 1;
pub const DIR_PARAM_CODE: u8 = 2;
pub const IND_PARAM_CODE: u8 = 3;

pub const MAX_PLAYERS: usize = 4;

/// Size of the circular memory arena.
pub const MEM_SIZE: usize = 4096;

/// Modulus applied to operand offsets under limited reach.
pub const IDX_MOD: usize = MEM_SIZE / 8;

/// Maximum size of a champion's code section.
pub const CHAMP_MAX_SIZE: usize = MEM_SIZE / 6;

/// Initial number of cycles between two live checks.
pub const CHECK_INTERVAL: u32 = 1536;

/// Amount by which the check interval shrinks.
pub const CYCLE_DELTA: u32 = 50;

/// Number of live instructions per check period that triggers a shrink.
pub const NBR_LIVE: u32 = 21;

/// Number of checks without a shrink that forces one.
pub const MAX_CHECKS: u32 = 10;

/// Number of registers in each process.
pub const REG_COUNT: usize = 16;

/// Maximum number of parameters of an instruction.
pub const MAX_PARAMS: usize = 3;

pub const T_REG: u8 = 1;
pub const T_DIR: u8 = 2;
pub const T_IND: u8 = 4;

} // verus!
