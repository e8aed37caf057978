//! A process: its identity, program counter, registers, zero flag and
//! scheduling state.

use vstd::prelude::*;
use crate::{MAX_PLAYERS, REG_COUNT};
use crate::memory::Owner;
use crate::ops::OpType;
use crate::program_counter::ProgramCounter;
use crate::vm_types::{Pid, Registers};

verus! {

#[derive(Debug, Clone, Copy)]
pub struct Process {
    pub pid: Pid,
    /// Index of the owning player, used as the arena's owner tag.
    pub owner: Owner,
    pub pc: ProgramCounter,
    pub registers: Registers,
    /// The zero flag, set by the arithmetic and load instructions.
    pub zf: bool,
    pub state: ProcessState,
    /// Cycle of this process's most recent `live`, 0 if it never ran one.
    pub last_live_cycle: u32,
}

/// The two-state machine of the scheduler: a process is either between
/// instructions, or committed to an opcode that takes effect at `exec_at`.
#[derive(Debug, Clone, Copy, PartialEq, Eq, Structural)]
pub enum ProcessState {
    Idle,
    Executing { op: OpType, exec_at: u32 },
}

impl Process {
    /// A process is owned by one of the loaded players and its program
    /// counter sits inside the arena.
    pub open spec fn wf(self) -> bool {
        &&& self.owner < MAX_PLAYERS
        &&& 0 <= self.pc.spec_addr() < crate::MEM_SIZE
    }

    /// A fresh process: zeroed registers, clear flag, idle, never lived.
    pub fn new(pid: Pid, owner: Owner, pc: ProgramCounter) -> (r: Self)
        ensures
            r.pid == pid,
            r.owner == owner,
            r.pc == pc,
            r.registers@ == Seq::new(REG_COUNT as nat, |i: int| 0i32),
            r.zf == false,
            r.state == ProcessState::Idle,
            r.last_live_cycle == 0,
    {
        Process {
            pid,
            owner,
            pc,
            registers: vstd::array::array_fill_for_copy_types::<i32, REG_COUNT>(0),
            zf: false,
            state: ProcessState::Idle,
            last_live_cycle: 0,
        }
    }

    /// The child spawned by `fork`: it inherits the parent's owner,
    /// registers and zero flag, starts idle at `pc`, and has never lived.
    pub fn fork(pid: Pid, pc: ProgramCounter, parent: &Process) -> (r: Self)
        ensures
            r.pid == pid,
            r.owner == parent.owner,
            r.pc == pc,
            r.registers == parent.registers,
            r.zf == parent.zf,
            r.state == ProcessState::Idle,
            r.last_live_cycle == 0,
    {
        Process {
            pid,
            owner: parent.owner,
            pc,
            registers: parent.registers,
            zf: parent.zf,
            state: ProcessState::Idle,
            last_live_cycle: 0,
        }
    }
}

} // verus!
