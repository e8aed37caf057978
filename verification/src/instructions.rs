//! The semantic effect of each of the 16 instructions, acting on the
//! executing process, the arena, and the side state of the current tick.

use vstd::prelude::*;
use vstd::wrapping::{i32_specs, u32_specs};
use crate::{MEM_SIZE, REG_COUNT, T_DIR, T_IND, T_REG};
use crate::decoder::{
    code_flag, code_param_type, pcb_valid, read_cell, slot_ok, spec_decode_instr,
    spec_instr_size, spec_param, spec_param_type, spec_reg_ok,
};
use crate::memory::{mem_read_i32, wrote_i32, Memory};
use crate::ops::{spec_op_spec, OpType, ParamType};
use crate::process::{Process, ProcessState};
use crate::program_counter::{pc_offset_spec, spec_reach, ProgramCounter};
use crate::vm_types::{Instruction, Param, Pid, PidPool, PlayerId};

verus! {

broadcast use vstd::array::group_array_axioms;

/// The per-tick side state an instruction may touch besides its own
/// process and the arena: the fork buffer, the live bookkeeping, and the
/// pid source. It is merged back into the machine at the end of the tick.
pub struct ExecutionContext {
    /// The machine's current cycle.
    pub cycle: u32,
    /// `live` instructions executed since the last check.
    pub live_count: u32,
    /// Processes spawned this tick; they join the list only between ticks.
    pub forks: Vec<Process>,
    pub pid_pool: PidPool,
    /// Player ids named by `live` instructions this tick.
    pub live_ids: Vec<PlayerId>,
}

/// The mask bit of a parameter type.
pub open spec fn param_flag(t: ParamType) -> u8 {
    match t {
        ParamType::Register => T_REG,
        ParamType::Direct => T_DIR,
        ParamType::Indirect => T_IND,
    }
}

/// Parameter `k` of the instruction is allowed by the opcode's mask, and a
/// register parameter names a register in `1..=REG_COUNT`.
pub open spec fn param_slot_ok(i: Instruction, k: int) -> bool {
    let s = spec_op_spec(i.kind);
    let p = i.params@[k];
    &&& s.param_masks[k] & param_flag(p.kind) == param_flag(p.kind)
    &&& p.kind == ParamType::Register ==> 1 <= p.value <= REG_COUNT
}

/// The instruction's parameters are structurally valid for its opcode, as
/// the decoder guarantees of everything it returns.
pub open spec fn instr_params_ok(i: Instruction) -> bool {
    forall|k: int| 0 <= k < spec_op_spec(i.kind).param_count ==> #[trigger] param_slot_ok(i, k)
}

/// What a valid mask entry tells about a parameter: a register parameter
/// is in range, and a single- or two-bit mask narrows the parameter's type.
pub proof fn lemma_slot(i: Instruction, k: int)
    requires
        instr_params_ok(i),
        0 <= k < spec_op_spec(i.kind).param_count,
    ensures
        i.params@[k].kind == ParamType::Register ==> 1 <= i.params@[k].value <= REG_COUNT,
        spec_op_spec(i.kind).param_masks[k] == T_REG ==> i.params@[k].kind
            == ParamType::Register,
        spec_op_spec(i.kind).param_masks[k] == T_REG | T_IND ==> i.params@[k].kind
            != ParamType::Direct,
        spec_op_spec(i.kind).param_masks[k] == T_REG | T_DIR ==> i.params@[k].kind
            != ParamType::Indirect,
{
    assert(param_slot_ok(i, k));
    match i.params@[k].kind {
        ParamType::Register => {
        },
        ParamType::Direct => {
            assert((1u8 | 4u8) == 5u8 && (1u8 | 2u8) == 3u8 && 1u8 & 2u8 != 2u8 && 5u8 & 2u8
                != 2u8) by (bit_vector);
        },
        ParamType::Indirect => {
            assert((1u8 | 4u8) == 5u8 && (1u8 | 2u8) == 3u8 && 1u8 & 4u8 != 4u8 && 3u8 & 4u8
                != 4u8) by (bit_vector);
        },
    }
}

/// The value a register parameter names.
pub open spec fn spec_reg(p: Process, prm: Param) -> i32 {
    p.registers@[prm.value - 1]
}

/// Resolving a parameter to a value: a register's content, a direct's
/// literal, or the 32-bit word at the indirect's wrapped offset.
pub open spec fn spec_get_param(vals: Seq<u8>, p: Process, prm: Param, ot: crate::vm_types::OffsetType) -> i32 {
    match prm.kind {
        ParamType::Register => spec_reg(p, prm),
        ParamType::Direct => prm.value,
        ParamType::Indirect => mem_read_i32(
            vals,
            pc_offset_spec(p.pc.spec_addr(), prm.value as int, spec_reach(ot)),
        ),
    }
}

/// Incrementing a counter, stopping at the type's ceiling.
pub open spec fn sat_inc(x: u32) -> u32 {
    if x == u32::MAX {
        x
    } else {
        (x + 1) as u32
    }
}

/// All side state of the tick is left untouched.
pub open spec fn ctx_same(a: ExecutionContext, b: ExecutionContext) -> bool {
    &&& b.cycle == a.cycle
    &&& b.live_count == a.live_count
    &&& b.forks@ == a.forks@
    &&& b.pid_pool.0 == a.pid_pool.0
    &&& b.live_ids@ == a.live_ids@
}

/// The process is unchanged but for (possibly) its program counter.
pub open spec fn proc_same_core(pre: Process, post: Process) -> bool {
    &&& post.pid == pre.pid
    &&& post.owner == pre.owner
    &&& post.registers == pre.registers
    &&& post.zf == pre.zf
    &&& post.state == pre.state
    &&& post.last_live_cycle == pre.last_live_cycle
}

/// The process after writing `v` to the register parameter `dst` and
/// setting the zero flag to `zf`; nothing else of it changes.
pub open spec fn proc_after_reg_write(pre: Process, post: Process, dst: Param, v: i32, zf: bool) -> bool {
    &&& post.registers@ == pre.registers@.update(dst.value - 1, v)
    &&& post.zf == zf
    &&& post.pid == pre.pid
    &&& post.owner == pre.owner
    &&& post.pc == pre.pc
    &&& post.state == pre.state
    &&& post.last_live_cycle == pre.last_live_cycle
}

/// Reads the value a parameter resolves to, under the given reach.
pub fn get_param(mem: &Memory, proc: &Process, prm: &Param, ot: crate::vm_types::OffsetType) -> (r: i32)
    requires
        prm.kind == ParamType::Register ==> 1 <= prm.value <= REG_COUNT,
    ensures
        r == spec_get_param(mem.values@, *proc, *prm, ot),
{
    match prm.kind {
        ParamType::Register => proc.registers[(prm.value - 1) as usize],
        ParamType::Direct => prm.value,
        ParamType::Indirect => mem.read_i32(proc.pc.offset(prm.value as isize, ot)),
    }
}

/// Reads the register a parameter names.
pub fn get_reg(proc: &Process, prm: &Param) -> (r: i32)
    requires
        1 <= prm.value <= REG_COUNT,
    ensures
        r == spec_reg(*proc, *prm),
{
    proc.registers[(prm.value - 1) as usize]
}

/// Writes the register a parameter names.
pub fn set_reg(proc: &mut Process, prm: &Param, v: i32)
    requires
        1 <= prm.value <= REG_COUNT,
    ensures
        final(proc).registers@ == old(proc).registers@.update(prm.value - 1, v),
        final(proc).pid == old(proc).pid,
        final(proc).owner == old(proc).owner,
        final(proc).pc == old(proc).pc,
        final(proc).zf == old(proc).zf,
        final(proc).state == old(proc).state,
        final(proc).last_live_cycle == old(proc).last_live_cycle,
{
    proc.registers[(prm.value - 1) as usize] = v;
}

/// `live`: counts toward the check period, marks the process alive now,
/// and records its player-id operand for the end of the tick.
pub fn exec_live(instr: &Instruction, mem: &mut Memory, proc: &mut Process, ctx: &mut ExecutionContext)
    requires
        instr.kind == OpType::Live,
        instr_params_ok(*instr),
    ensures
        *final(mem) == *old(mem),
        final(proc).pc == old(proc).pc,
        final(proc).pid == old(proc).pid,
        final(proc).owner == old(proc).owner,
        final(proc).registers == old(proc).registers,
        final(proc).zf == old(proc).zf,
        final(proc).state == old(proc).state,
        final(proc).last_live_cycle == old(ctx).cycle,
        final(ctx).cycle == old(ctx).cycle,
        final(ctx).live_count == sat_inc(old(ctx).live_count),
        final(ctx).forks@ == old(ctx).forks@,
        final(ctx).pid_pool.0 == old(ctx).pid_pool.0,
        final(ctx).live_ids@ == old(ctx).live_ids@.push(instr.params@[0].value),
{
    if ctx.live_count < u32::MAX {
        ctx.live_count = ctx.live_count + 1;
    }
    proc.last_live_cycle = ctx.cycle;
    ctx.live_ids.push(instr.params[0].value);
}

/// `ld`: loads a value under limited reach and sets the zero flag.
pub fn exec_ld(instr: &Instruction, mem: &mut Memory, proc: &mut Process, ctx: &mut ExecutionContext)
    requires
        instr.kind == OpType::Ld,
        instr_params_ok(*instr),
    ensures
        *final(mem) == *old(mem),
        ctx_same(*old(ctx), *final(ctx)),
        ({
            let v = spec_get_param(old(mem).values@, *old(proc), instr.params@[0], crate::vm_types::OffsetType::Limited);
            proc_after_reg_write(*old(proc), *final(proc), instr.params@[1], v, v == 0)
        }),
{
    proof {
        lemma_slot(*instr, 0);
        lemma_slot(*instr, 1);
    }
    let v = get_param(mem, proc, &instr.params[0], crate::vm_types::OffsetType::Limited);
    set_reg(proc, &instr.params[1], v);
    proc.zf = v == 0;
}

/// `lld`: like `ld` but with long reach.
pub fn exec_lld(instr: &Instruction, mem: &mut Memory, proc: &mut Process, ctx: &mut ExecutionContext)
    requires
        instr.kind == OpType::Lld,
        instr_params_ok(*instr),
    ensures
        *final(mem) == *old(mem),
        ctx_same(*old(ctx), *final(ctx)),
        ({
            let v = spec_get_param(old(mem).values@, *old(proc), instr.params@[0], crate::vm_types::OffsetType::Long);
            proc_after_reg_write(*old(proc), *final(proc), instr.params@[1], v, v == 0)
        }),
{
    proof {
        lemma_slot(*instr, 0);
        lemma_slot(*instr, 1);
    }
    let v = get_param(mem, proc, &instr.params[0], crate::vm_types::OffsetType::Long);
    set_reg(proc, &instr.params[1], v);
    proc.zf = v == 0;
}

/// `st`: stores a register into another register or into memory at a
/// limited-reach offset.
pub fn exec_st(instr: &Instruction, mem: &mut Memory, proc: &mut Process, ctx: &mut ExecutionContext)
    requires
        instr.kind == OpType::St,
        instr_params_ok(*instr),
    ensures
        ctx_same(*old(ctx), *final(ctx)),
        instr.params@[1].kind == ParamType::Register ==> {
            &&& *final(mem) == *old(mem)
            &&& proc_after_reg_write(
                *old(proc),
                *final(proc),
                instr.params@[1],
                spec_reg(*old(proc), instr.params@[0]),
                old(proc).zf,
            )
        },
        instr.params@[1].kind == ParamType::Indirect ==> {
            &&& *final(proc) == *old(proc)
            &&& wrote_i32(
                *old(mem),
                *final(mem),
                spec_reg(*old(proc), instr.params@[0]),
                old(proc).owner,
                pc_offset_spec(
                    old(proc).pc.spec_addr(),
                    instr.params@[1].value as int,
                    spec_reach(crate::vm_types::OffsetType::Limited),
                ),
            )
        },
{
    proof {
        lemma_slot(*instr, 0);
        lemma_slot(*instr, 1);
    }
    let v = get_reg(proc, &instr.params[0]);
    match instr.params[1].kind {
        ParamType::Register => {
            set_reg(proc, &instr.params[1], v);
        },
        ParamType::Indirect => {
            let at = proc.pc.offset(instr.params[1].value as isize, crate::vm_types::OffsetType::Limited);
            mem.write_i32(v, proc.owner, at);
        },
        ParamType::Direct => {
            proof {
                assert(false);
            }
        },
    }
}

/// `add`: wrapping sum of two registers; sets the zero flag.
pub fn exec_add(instr: &Instruction, mem: &mut Memory, proc: &mut Process, ctx: &mut ExecutionContext)
    requires
        instr.kind == OpType::Add,
        instr_params_ok(*instr),
    ensures
        *final(mem) == *old(mem),
        ctx_same(*old(ctx), *final(ctx)),
        ({
            let v = i32_specs::wrapping_add(
                spec_reg(*old(proc), instr.params@[0]),
                spec_reg(*old(proc), instr.params@[1]),
            );
            proc_after_reg_write(*old(proc), *final(proc), instr.params@[2], v, v == 0)
        }),
{
    proof {
        lemma_slot(*instr, 0);
        lemma_slot(*instr, 1);
        lemma_slot(*instr, 2);
    }
    let lhs = get_reg(proc, &instr.params[0]);
    let rhs = get_reg(proc, &instr.params[1]);
    let v = lhs.wrapping_add(rhs);
    set_reg(proc, &instr.params[2], v);
    proc.zf = v == 0;
}

/// `sub`: wrapping difference of two registers; sets the zero flag.
pub fn exec_sub(instr: &Instruction, mem: &mut Memory, proc: &mut Process, ctx: &mut ExecutionContext)
    requires
        instr.kind == OpType::Sub,
        instr_params_ok(*instr),
    ensures
        *final(mem) == *old(mem),
        ctx_same(*old(ctx), *final(ctx)),
        ({
            let v = i32_specs::wrapping_sub(
                spec_reg(*old(proc), instr.params@[0]),
                spec_reg(*old(proc), instr.params@[1]),
            );
            proc_after_reg_write(*old(proc), *final(proc), instr.params@[2], v, v == 0)
        }),
{
    proof {
        lemma_slot(*instr, 0);
        lemma_slot(*instr, 1);
        lemma_slot(*instr, 2);
    }
    let lhs = get_reg(proc, &instr.params[0]);
    let rhs = get_reg(proc, &instr.params[1]);
    let v = lhs.wrapping_sub(rhs);
    set_reg(proc, &instr.params[2], v);
    proc.zf = v == 0;
}

/// `and`: bitwise conjunction of two fetched operands; sets the zero flag.
pub fn exec_and(instr: &Instruction, mem: &mut Memory, proc: &mut Process, ctx: &mut ExecutionContext)
    requires
        instr.kind == OpType::And,
        instr_params_ok(*instr),
    ensures
        *final(mem) == *old(mem),
        ctx_same(*old(ctx), *final(ctx)),
        ({
            let v = spec_get_param(old(mem).values@, *old(proc), instr.params@[0], crate::vm_types::OffsetType::Limited)
                & spec_get_param(old(mem).values@, *old(proc), instr.params@[1], crate::vm_types::OffsetType::Limited);
            proc_after_reg_write(*old(proc), *final(proc), instr.params@[2], v, v == 0)
        }),
{
    proof {
        lemma_slot(*instr, 0);
        lemma_slot(*instr, 1);
        lemma_slot(*instr, 2);
    }
    let lhs = get_param(mem, proc, &instr.params[0], crate::vm_types::OffsetType::Limited);
    let rhs = get_param(mem, proc, &instr.params[1], crate::vm_types::OffsetType::Limited);
    let v = lhs & rhs;
    set_reg(proc, &instr.params[2], v);
    proc.zf = v == 0;
}

/// `or`: bitwise disjunction of two fetched operands; sets the zero flag.
pub fn exec_or(instr: &Instruction, mem: &mut Memory, proc: &mut Process, ctx: &mut ExecutionContext)
    requires
        instr.kind == OpType::Or,
        instr_params_ok(*instr),
    ensures
        *final(mem) == *old(mem),
        ctx_same(*old(ctx), *final(ctx)),
        ({
            let v = spec_get_param(old(mem).values@, *old(proc), instr.params@[0], crate::vm_types::OffsetType::Limited)
                | spec_get_param(old(mem).values@, *old(proc), instr.params@[1], crate::vm_types::OffsetType::Limited);
            proc_after_reg_write(*old(proc), *final(proc), instr.params@[2], v, v == 0)
        }),
{
    proof {
        lemma_slot(*instr, 0);
        lemma_slot(*instr, 1);
        lemma_slot(*instr, 2);
    }
    let lhs = get_param(mem, proc, &instr.params[0], crate::vm_types::OffsetType::Limited);
    let rhs = get_param(mem, proc, &instr.params[1], crate::vm_types::OffsetType::Limited);
    let v = lhs | rhs;
    set_reg(proc, &instr.params[2], v);
    proc.zf = v == 0;
}

/// `xor`: bitwise exclusive or of two fetched operands; sets the zero flag.
pub fn exec_xor(instr: &Instruction, mem: &mut Memory, proc: &mut Process, ctx: &mut ExecutionContext)
    requires
        instr.kind == OpType::Xor,
        instr_params_ok(*instr),
    ensures
        *final(mem) == *old(mem),
        ctx_same(*old(ctx), *final(ctx)),
        ({
            let v = spec_get_param(old(mem).values@, *old(proc), instr.params@[0], crate::vm_types::OffsetType::Limited)
                ^ spec_get_param(old(mem).values@, *old(proc), instr.params@[1], crate::vm_types::OffsetType::Limited);
            proc_after_reg_write(*old(proc), *final(proc), instr.params@[2], v, v == 0)
        }),
{
    proof {
        lemma_slot(*instr, 0);
        lemma_slot(*instr, 1);
        lemma_slot(*instr, 2);
    }
    let lhs = get_param(mem, proc, &instr.params[0], crate::vm_types::OffsetType::Limited);
    let rhs = get_param(mem, proc, &instr.params[1], crate::vm_types::OffsetType::Limited);
    let v = lhs ^ rhs;
    set_reg(proc, &instr.params[2], v);
    proc.zf = v == 0;
}

/// `zjmp`: with the zero flag set, moves the program counter to the
/// limited-reach offset, compensated so that the scheduler's uniform
/// post-advance lands exactly on the target; with it clear, does nothing.
pub fn exec_zjmp(instr: &Instruction, mem: &mut Memory, proc: &mut Process, ctx: &mut ExecutionContext)
    requires
        instr.kind == OpType::Zjmp,
        instr_params_ok(*instr),
        instr.byte_size <= 16,
    ensures
        *final(mem) == *old(mem),
        ctx_same(*old(ctx), *final(ctx)),
        proc_same_core(*old(proc), *final(proc)),
        !old(proc).zf ==> final(proc).pc == old(proc).pc,
        old(proc).zf ==> final(proc).pc.spec_addr() == (pc_offset_spec(
            old(proc).pc.spec_addr(),
            instr.params@[0].value as int,
            spec_reach(crate::vm_types::OffsetType::Limited),
        ) - instr.byte_size) % (MEM_SIZE as int),
{
    if !proc.zf {
        return;
    }
    let target = proc.pc.offset(instr.params[0].value as isize, crate::vm_types::OffsetType::Limited);
    proc.pc = ProgramCounter::at(target);
    proof {
        vstd::arithmetic::div_mod::lemma_small_mod(target as nat, MEM_SIZE as nat);
    }
    proc.pc.advance(-(instr.byte_size as isize));
}

/// `ldi`: adds two fetched operands (wrapping), reads the 32-bit word at
/// that limited-reach offset, and stores it; the zero flag is untouched.
pub fn exec_ldi(instr: &Instruction, mem: &mut Memory, proc: &mut Process, ctx: &mut ExecutionContext)
    requires
        instr.kind == OpType::Ldi,
        instr_params_ok(*instr),
    ensures
        *final(mem) == *old(mem),
        ctx_same(*old(ctx), *final(ctx)),
        ({
            let a = spec_get_param(old(mem).values@, *old(proc), instr.params@[0], crate::vm_types::OffsetType::Limited);
            let b = spec_get_param(old(mem).values@, *old(proc), instr.params@[1], crate::vm_types::OffsetType::Limited);
            let v = mem_read_i32(
                old(mem).values@,
                pc_offset_spec(
                    old(proc).pc.spec_addr(),
                    i32_specs::wrapping_add(a, b) as int,
                    spec_reach(crate::vm_types::OffsetType::Limited),
                ),
            );
            proc_after_reg_write(*old(proc), *final(proc), instr.params@[2], v, old(proc).zf)
        }),
{
    proof {
        lemma_slot(*instr, 0);
        lemma_slot(*instr, 1);
        lemma_slot(*instr, 2);
    }
    let a = get_param(mem, proc, &instr.params[0], crate::vm_types::OffsetType::Limited);
    let b = get_param(mem, proc, &instr.params[1], crate::vm_types::OffsetType::Limited);
    let at = proc.pc.offset(a.wrapping_add(b) as isize, crate::vm_types::OffsetType::Limited);
    let v = mem.read_i32(at);
    set_reg(proc, &instr.params[2], v);
}

/// `lldi`: like `ldi` but with long reach, and it sets the zero flag.
pub fn exec_lldi(instr: &Instruction, mem: &mut Memory, proc: &mut Process, ctx: &mut ExecutionContext)
    requires
        instr.kind == OpType::Lldi,
        instr_params_ok(*instr),
    ensures
        *final(mem) == *old(mem),
        ctx_same(*old(ctx), *final(ctx)),
        ({
            let a = spec_get_param(old(mem).values@, *old(proc), instr.params@[0], crate::vm_types::OffsetType::Long);
            let b = spec_get_param(old(mem).values@, *old(proc), instr.params@[1], crate::vm_types::OffsetType::Long);
            let v = mem_read_i32(
                old(mem).values@,
                pc_offset_spec(
                    old(proc).pc.spec_addr(),
                    i32_specs::wrapping_add(a, b) as int,
                    spec_reach(crate::vm_types::OffsetType::Long),
                ),
            );
            proc_after_reg_write(*old(proc), *final(proc), instr.params@[2], v, v == 0)
        }),
{
    proof {
        lemma_slot(*instr, 0);
        lemma_slot(*instr, 1);
        lemma_slot(*instr, 2);
    }
    let a = get_param(mem, proc, &instr.params[0], crate::vm_types::OffsetType::Long);
    let b = get_param(mem, proc, &instr.params[1], crate::vm_types::OffsetType::Long);
    let at = proc.pc.offset(a.wrapping_add(b) as isize, crate::vm_types::OffsetType::Long);
    let v = mem.read_i32(at);
    set_reg(proc, &instr.params[2], v);
    proc.zf = v == 0;
}

/// `sti`: stores a register's value at the limited-reach offset named by
/// the wrapping sum of two fetched operands.
pub fn exec_sti(instr: &Instruction, mem: &mut Memory, proc: &mut Process, ctx: &mut ExecutionContext)
    requires
        instr.kind == OpType::Sti,
        instr_params_ok(*instr),
    ensures
        ctx_same(*old(ctx), *final(ctx)),
        *final(proc) == *old(proc),
        ({
            let a = spec_get_param(old(mem).values@, *old(proc), instr.params@[1], crate::vm_types::OffsetType::Limited);
            let b = spec_get_param(old(mem).values@, *old(proc), instr.params@[2], crate::vm_types::OffsetType::Limited);
            wrote_i32(
                *old(mem),
                *final(mem),
                spec_reg(*old(proc), instr.params@[0]),
                old(proc).owner,
                pc_offset_spec(
                    old(proc).pc.spec_addr(),
                    i32_specs::wrapping_add(a, b) as int,
                    spec_reach(crate::vm_types::OffsetType::Limited),
                ),
            )
        }),
{
    proof {
        lemma_slot(*instr, 0);
        lemma_slot(*instr, 1);
        lemma_slot(*instr, 2);
    }
    let v = get_reg(proc, &instr.params[0]);
    let a = get_param(mem, proc, &instr.params[1], crate::vm_types::OffsetType::Limited);
    let b = get_param(mem, proc, &instr.params[2], crate::vm_types::OffsetType::Limited);
    let at = proc.pc.offset(a.wrapping_add(b) as isize, crate::vm_types::OffsetType::Limited);
    mem.write_i32(v, proc.owner, at);
}

/// What a spawned child looks like: idle at the target address, inheriting
/// the parent's owner, registers and zero flag, with the pid the pool held.
pub open spec fn spawned_child(f: Process, parent: Process, pid: Pid, target: int) -> bool {
    &&& f.pid == pid
    &&& f.owner == parent.owner
    &&& f.pc.spec_addr() == target
    &&& 0 <= f.pc.spec_addr() < MEM_SIZE
    &&& f.registers == parent.registers
    &&& f.zf == parent.zf
    &&& f.state == ProcessState::Idle
    &&& f.last_live_cycle == 0
}

/// `fork`: enqueues a child at the limited-reach offset. The child joins
/// the process list only at the end of the tick, so its first fetch
/// happens on the following cycle.
pub fn exec_fork(instr: &Instruction, mem: &mut Memory, proc: &mut Process, ctx: &mut ExecutionContext)
    requires
        instr.kind == OpType::Fork,
        instr_params_ok(*instr),
    ensures
        *final(mem) == *old(mem),
        *final(proc) == *old(proc),
        final(ctx).cycle == old(ctx).cycle,
        final(ctx).live_count == old(ctx).live_count,
        final(ctx).live_ids@ == old(ctx).live_ids@,
        final(ctx).pid_pool.0 == u32_specs::wrapping_add(old(ctx).pid_pool.0, 1),
        final(ctx).forks@ == old(ctx).forks@.push(final(ctx).forks@.last()),
        spawned_child(
            final(ctx).forks@.last(),
            *old(proc),
            old(ctx).pid_pool.0,
            pc_offset_spec(
                old(proc).pc.spec_addr(),
                instr.params@[0].value as int,
                spec_reach(crate::vm_types::OffsetType::Limited),
            ),
        ),
{
    let target = proc.pc.offset(instr.params[0].value as isize, crate::vm_types::OffsetType::Limited);
    proof {
        vstd::arithmetic::div_mod::lemma_small_mod(target as nat, MEM_SIZE as nat);
    }
    let child = Process::fork(ctx.pid_pool.get(), ProgramCounter::at(target), proc);
    ctx.forks.push(child);
}

/// `lfork`: like `fork` but with long reach.
pub fn exec_lfork(instr: &Instruction, mem: &mut Memory, proc: &mut Process, ctx: &mut ExecutionContext)
    requires
        instr.kind == OpType::Lfork,
        instr_params_ok(*instr),
    ensures
        *final(mem) == *old(mem),
        *final(proc) == *old(proc),
        final(ctx).cycle == old(ctx).cycle,
        final(ctx).live_count == old(ctx).live_count,
        final(ctx).live_ids@ == old(ctx).live_ids@,
        final(ctx).pid_pool.0 == u32_specs::wrapping_add(old(ctx).pid_pool.0, 1),
        final(ctx).forks@ == old(ctx).forks@.push(final(ctx).forks@.last()),
        spawned_child(
            final(ctx).forks@.last(),
            *old(proc),
            old(ctx).pid_pool.0,
            pc_offset_spec(
                old(proc).pc.spec_addr(),
                instr.params@[0].value as int,
                spec_reach(crate::vm_types::OffsetType::Long),
            ),
        ),
{
    let target = proc.pc.offset(instr.params[0].value as isize, crate::vm_types::OffsetType::Long);
    proof {
        vstd::arithmetic::div_mod::lemma_small_mod(target as nat, MEM_SIZE as nat);
    }
    let child = Process::fork(ctx.pid_pool.get(), ProgramCounter::at(target), proc);
    ctx.forks.push(child);
}

/// `aff`: consumes its cycles but has no effect in this machine.
pub fn exec_aff(instr: &Instruction, mem: &mut Memory, proc: &mut Process, ctx: &mut ExecutionContext)
    requires
        instr.kind == OpType::Aff,
        instr_params_ok(*instr),
    ensures
        *final(mem) == *old(mem),
        *final(proc) == *old(proc),
        ctx_same(*old(ctx), *final(ctx)),
{
}

/// The complete effect of one instruction on the arena, the process's
/// registers, zero flag and last-live stamp, and the tick's side state -
/// everything but the program counter, whose movement `execute_instr`
/// states separately. `pre`/`post` name the states around the dispatch.
pub open spec fn spec_instr_effect(
    i: Instruction,
    pm: Memory,
    pp: Process,
    px: ExecutionContext,
    qm: Memory,
    qp: Process,
    qx: ExecutionContext,
) -> bool {
    match i.kind {
        OpType::Live => {
            &&& qm == pm
            &&& qp.registers == pp.registers
            &&& qp.zf == pp.zf
            &&& qp.last_live_cycle == px.cycle
            &&& qx.cycle == px.cycle
            &&& qx.live_count == sat_inc(px.live_count)
            &&& qx.forks@ == px.forks@
            &&& qx.pid_pool.0 == px.pid_pool.0
            &&& qx.live_ids@ == px.live_ids@.push(i.params@[0].value)
        },
        OpType::Ld => {
            let v = spec_get_param(pm.values@, pp, i.params@[0], crate::vm_types::OffsetType::Limited);
            &&& qm == pm
            &&& ctx_same(px, qx)
            &&& qp.registers@ == pp.registers@.update(i.params@[1].value - 1, v)
            &&& qp.zf == (v == 0)
            &&& qp.last_live_cycle == pp.last_live_cycle
        },
        OpType::Lld => {
            let v = spec_get_param(pm.values@, pp, i.params@[0], crate::vm_types::OffsetType::Long);
            &&& qm == pm
            &&& ctx_same(px, qx)
            &&& qp.registers@ == pp.registers@.update(i.params@[1].value - 1, v)
            &&& qp.zf == (v == 0)
            &&& qp.last_live_cycle == pp.last_live_cycle
        },
        OpType::St => {
            &&& ctx_same(px, qx)
            &&& qp.last_live_cycle == pp.last_live_cycle
            &&& qp.zf == pp.zf
            &&& i.params@[1].kind == ParamType::Register ==> qm == pm && qp.registers@
                == pp.registers@.update(i.params@[1].value - 1, spec_reg(pp, i.params@[0]))
            &&& i.params@[1].kind == ParamType::Indirect ==> qp.registers == pp.registers
                && wrote_i32(
                pm,
                qm,
                spec_reg(pp, i.params@[0]),
                pp.owner,
                pc_offset_spec(
                    pp.pc.spec_addr(),
                    i.params@[1].value as int,
                    spec_reach(crate::vm_types::OffsetType::Limited),
                ),
            )
        },
        OpType::Add => {
            let v = i32_specs::wrapping_add(spec_reg(pp, i.params@[0]), spec_reg(pp, i.params@[1]));
            &&& qm == pm
            &&& ctx_same(px, qx)
            &&& qp.registers@ == pp.registers@.update(i.params@[2].value - 1, v)
            &&& qp.zf == (v == 0)
            &&& qp.last_live_cycle == pp.last_live_cycle
        },
        OpType::Sub => {
            let v = i32_specs::wrapping_sub(spec_reg(pp, i.params@[0]), spec_reg(pp, i.params@[1]));
            &&& qm == pm
            &&& ctx_same(px, qx)
            &&& qp.registers@ == pp.registers@.update(i.params@[2].value - 1, v)
            &&& qp.zf == (v == 0)
            &&& qp.last_live_cycle == pp.last_live_cycle
        },
        OpType::And => {
            let v = spec_get_param(pm.values@, pp, i.params@[0], crate::vm_types::OffsetType::Limited)
                & spec_get_param(pm.values@, pp, i.params@[1], crate::vm_types::OffsetType::Limited);
            &&& qm == pm
            &&& ctx_same(px, qx)
            &&& qp.registers@ == pp.registers@.update(i.params@[2].value - 1, v)
            &&& qp.zf == (v == 0)
            &&& qp.last_live_cycle == pp.last_live_cycle
        },
        OpType::Or => {
            let v = spec_get_param(pm.values@, pp, i.params@[0], crate::vm_types::OffsetType::Limited)
                | spec_get_param(pm.values@, pp, i.params@[1], crate::vm_types::OffsetType::Limited);
            &&& qm == pm
            &&& ctx_same(px, qx)
            &&& qp.registers@ == pp.registers@.update(i.params@[2].value - 1, v)
            &&& qp.zf == (v == 0)
            &&& qp.last_live_cycle == pp.last_live_cycle
        },
        OpType::Xor => {
            let v = spec_get_param(pm.values@, pp, i.params@[0], crate::vm_types::OffsetType::Limited)
                ^ spec_get_param(pm.values@, pp, i.params@[1], crate::vm_types::OffsetType::Limited);
            &&& qm == pm
            &&& ctx_same(px, qx)
            &&& qp.registers@ == pp.registers@.update(i.params@[2].value - 1, v)
            &&& qp.zf == (v == 0)
            &&& qp.last_live_cycle == pp.last_live_cycle
        },
        OpType::Zjmp => {
            &&& qm == pm
            &&& ctx_same(px, qx)
            &&& qp.registers == pp.registers
            &&& qp.zf == pp.zf
            &&& qp.last_live_cycle == pp.last_live_cycle
        },
        OpType::Ldi => {
            let a = spec_get_param(pm.values@, pp, i.params@[0], crate::vm_types::OffsetType::Limited);
            let b = spec_get_param(pm.values@, pp, i.params@[1], crate::vm_types::OffsetType::Limited);
            let v = mem_read_i32(
                pm.values@,
                pc_offset_spec(
                    pp.pc.spec_addr(),
                    i32_specs::wrapping_add(a, b) as int,
                    spec_reach(crate::vm_types::OffsetType::Limited),
                ),
            );
            &&& qm == pm
            &&& ctx_same(px, qx)
            &&& qp.registers@ == pp.registers@.update(i.params@[2].value - 1, v)
            &&& qp.zf == pp.zf
            &&& qp.last_live_cycle == pp.last_live_cycle
        },
        OpType::Lldi => {
            let a = spec_get_param(pm.values@, pp, i.params@[0], crate::vm_types::OffsetType::Long);
            let b = spec_get_param(pm.values@, pp, i.params@[1], crate::vm_types::OffsetType::Long);
            let v = mem_read_i32(
                pm.values@,
                pc_offset_spec(
                    pp.pc.spec_addr(),
                    i32_specs::wrapping_add(a, b) as int,
                    spec_reach(crate::vm_types::OffsetType::Long),
                ),
            );
            &&& qm == pm
            &&& ctx_same(px, qx)
            &&& qp.registers@ == pp.registers@.update(i.params@[2].value - 1, v)
            &&& qp.zf == (v == 0)
            &&& qp.last_live_cycle == pp.last_live_cycle
        },
        OpType::Sti => {
            let a = spec_get_param(pm.values@, pp, i.params@[1], crate::vm_types::OffsetType::Limited);
            let b = spec_get_param(pm.values@, pp, i.params@[2], crate::vm_types::OffsetType::Limited);
            &&& ctx_same(px, qx)
            &&& qp.registers == pp.registers
            &&& qp.zf == pp.zf
            &&& qp.last_live_cycle == pp.last_live_cycle
            &&& wrote_i32(
                pm,
                qm,
                spec_reg(pp, i.params@[0]),
                pp.owner,
                pc_offset_spec(
                    pp.pc.spec_addr(),
                    i32_specs::wrapping_add(a, b) as int,
                    spec_reach(crate::vm_types::OffsetType::Limited),
                ),
            )
        },
        OpType::Fork => {
            &&& qm == pm
            &&& qp.registers == pp.registers
            &&& qp.zf == pp.zf
            &&& qp.last_live_cycle == pp.last_live_cycle
            &&& qx.cycle == px.cycle
            &&& qx.live_count == px.live_count
            &&& qx.live_ids@ == px.live_ids@
            &&& qx.pid_pool.0 == u32_specs::wrapping_add(px.pid_pool.0, 1)
            &&& qx.forks@ == px.forks@.push(qx.forks@.last())
            &&& spawned_child(
                qx.forks@.last(),
                pp,
                px.pid_pool.0,
                pc_offset_spec(
                    pp.pc.spec_addr(),
                    i.params@[0].value as int,
                    spec_reach(crate::vm_types::OffsetType::Limited),
                ),
            )
        },
        OpType::Lfork => {
            &&& qm == pm
            &&& qp.registers == pp.registers
            &&& qp.zf == pp.zf
            &&& qp.last_live_cycle == pp.last_live_cycle
            &&& qx.cycle == px.cycle
            &&& qx.live_count == px.live_count
            &&& qx.live_ids@ == px.live_ids@
            &&& qx.pid_pool.0 == u32_specs::wrapping_add(px.pid_pool.0, 1)
            &&& qx.forks@ == px.forks@.push(qx.forks@.last())
            &&& spawned_child(
                qx.forks@.last(),
                pp,
                px.pid_pool.0,
                pc_offset_spec(
                    pp.pc.spec_addr(),
                    i.params@[0].value as int,
                    spec_reach(crate::vm_types::OffsetType::Long),
                ),
            )
        },
        OpType::Aff => {
            &&& qm == pm
            &&& ctx_same(px, qx)
            &&& qp.registers == pp.registers
            &&& qp.zf == pp.zf
            &&& qp.last_live_cycle == pp.last_live_cycle
        },
    }
}

/// Dispatches the instruction's effect and then advances the program
/// counter by the instruction's size - the jump taken by `zjmp` cancels
/// that advance so that it lands exactly on its target.
pub fn execute_instr(instr: &Instruction, mem: &mut Memory, proc: &mut Process, ctx: &mut ExecutionContext)
    requires
        instr_params_ok(*instr),
        1 <= instr.byte_size <= 16,
    ensures
        spec_instr_effect(
            *instr,
            *old(mem),
            *old(proc),
            *old(ctx),
            *final(mem),
            *final(proc),
            *final(ctx),
        ),
        final(proc).pid == old(proc).pid,
        final(proc).owner == old(proc).owner,
        final(proc).state == old(proc).state,
        instr.kind == OpType::Zjmp && old(proc).zf ==> final(proc).pc.spec_addr()
            == pc_offset_spec(
            old(proc).pc.spec_addr(),
            instr.params@[0].value as int,
            spec_reach(crate::vm_types::OffsetType::Limited),
        ),
        !(instr.kind == OpType::Zjmp && old(proc).zf) ==> final(proc).pc.spec_addr() == (old(
            proc,
        ).pc.spec_addr() + instr.byte_size) % (MEM_SIZE as int),
        final(ctx).cycle == old(ctx).cycle,
        old(ctx).forks@.len() <= final(ctx).forks@.len() <= old(ctx).forks@.len() + 1,
        final(ctx).forks@.subrange(0, old(ctx).forks@.len() as int) == old(ctx).forks@,
        forall|i: int|
            old(ctx).forks@.len() <= i < final(ctx).forks@.len() ==> {
                let f = #[trigger] final(ctx).forks@[i];
                &&& f.state == ProcessState::Idle
                &&& f.owner == old(proc).owner
                &&& f.last_live_cycle == 0
                &&& f.registers == old(proc).registers
                &&& f.zf == old(proc).zf
                &&& 0 <= f.pc.spec_addr() < MEM_SIZE
            },
{
    proof {
        lemma_slot(*instr, 0);
        if spec_op_spec(instr.kind).param_count >= 2 {
            lemma_slot(*instr, 1);
        }
        if spec_op_spec(instr.kind).param_count >= 3 {
            lemma_slot(*instr, 2);
        }
    }
    match instr.kind {
        OpType::Live => exec_live(instr, mem, proc, ctx),
        OpType::Ld => exec_ld(instr, mem, proc, ctx),
        OpType::St => exec_st(instr, mem, proc, ctx),
        OpType::Add => exec_add(instr, mem, proc, ctx),
        OpType::Sub => exec_sub(instr, mem, proc, ctx),
        OpType::And => exec_and(instr, mem, proc, ctx),
        OpType::Or => exec_or(instr, mem, proc, ctx),
        OpType::Xor => exec_xor(instr, mem, proc, ctx),
        OpType::Zjmp => exec_zjmp(instr, mem, proc, ctx),
        OpType::Ldi => exec_ldi(instr, mem, proc, ctx),
        OpType::Sti => exec_sti(instr, mem, proc, ctx),
        OpType::Fork => exec_fork(instr, mem, proc, ctx),
        OpType::Lld => exec_lld(instr, mem, proc, ctx),
        OpType::Lldi => exec_lldi(instr, mem, proc, ctx),
        OpType::Lfork => exec_lfork(instr, mem, proc, ctx),
        OpType::Aff => exec_aff(instr, mem, proc, ctx),
    }
    proof {
        assert(final(ctx).forks@.subrange(0, old(ctx).forks@.len() as int) =~= old(ctx).forks@);
    }
    proc.pc.advance(instr.byte_size as isize);
}

/// Everything the decoder returns satisfies the structural requirements of
/// the effect functions, and its size is small.
pub proof fn lemma_decode_ok_params(vals: Seq<u8>, op: OpType, at: int)
    requires
        spec_decode_instr(vals, op, at) is Ok,
    ensures
        instr_params_ok(spec_decode_instr(vals, op, at)->Ok_0),
        1 <= spec_decode_instr(vals, op, at)->Ok_0.byte_size <= 16,
        spec_decode_instr(vals, op, at)->Ok_0.kind == op,
{
    let s = spec_op_spec(op);
    let pcb = read_cell(vals, at + 1);
    let i = spec_decode_instr(vals, op, at)->Ok_0;
    assert forall|k: int| 0 <= k < s.param_count implies #[trigger] param_slot_ok(i, k) by {
        if k == 0 {
            assert(i.params@[0] == spec_param(vals, op, pcb, at, 0));
        } else if k == 1 {
            assert(i.params@[1] == spec_param(vals, op, pcb, at, 1));
        } else {
            assert(i.params@[2] == spec_param(vals, op, pcb, at, 2));
        }
        assert(i.params@[k] == spec_param(vals, op, pcb, at, k));
        if s.has_pcb {
            assert(pcb_valid(pcb, s));
            assert(slot_ok(pcb, s, k));
            let code = crate::decoder::pcb_slot(pcb, k);
            assert(param_flag(code_param_type(code)) == code_flag(code));
        } else {
            match op {
                OpType::Live => {},
                OpType::Zjmp => {},
                OpType::Fork => {},
                OpType::Lfork => {},
                _ => {
                    assert(false);
                },
            }
            assert(2u8 & 2u8 == 2u8) by (bit_vector);
        }
        if k == 0 {
            assert(spec_reg_ok(vals, op, pcb, at, 0));
        } else if k == 1 {
            assert(s.param_count >= 2);
            assert(spec_reg_ok(vals, op, pcb, at, 1));
        } else {
            assert(s.param_count >= 3);
            assert(spec_reg_ok(vals, op, pcb, at, 2));
        }
        assert(i.params@[k].kind == spec_param_type(op, pcb, k));
        assert(s.param_masks[k] & param_flag(i.params@[k].kind) == param_flag(i.params@[k].kind));
        assert(i.params@[k].kind == ParamType::Register ==> 1 <= i.params@[k].value <= REG_COUNT);
    }
    assert(1 <= spec_instr_size(op, pcb) <= 16);
}

} // verus!
