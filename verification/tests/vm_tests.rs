use corewar::assembler::read_champion;
use corewar::compiler::compile_champion;
use corewar::instructions::{execute_instr, ExecutionContext};
use corewar::memory::{Memory, MAX_AGE, NO_OWNER};
use corewar::ops::{OpType, ParamType};
use corewar::process::Process;
use corewar::program_counter::ProgramCounter;
use corewar::vm::VirtualMachine;
use corewar::vm_types::{Instruction, Param, PidPool};
use corewar::decoder::{decode_instr, DecodeError, InstrDecodeError, InvalidOpCode};
use corewar::vm_types::OffsetType;
use corewar::{CHECK_INTERVAL, MAX_PLAYERS, MEM_SIZE};

fn binary(src: &str) -> Vec<u8> {
    compile_champion(&read_champion(src).expect("should assemble")).expect("should compile")
}

fn loaded_vm(sources: &[&str]) -> VirtualMachine {
    let players: Vec<(i32, Vec<u8>)> = sources
        .iter()
        .enumerate()
        .map(|(i, s)| (i as i32 + 1, binary(s)))
        .collect();
    let mut vm = VirtualMachine::new();
    vm.load_players(&players);
    vm
}

#[test]
fn memory_write_wraps_and_stamps_cells() {
    let mut mem = Memory::default();
    mem.write(MEM_SIZE - 2, &[10, 20, 30, 40], 1);
    // the write wraps past the end of the arena
    assert_eq!(mem.read_byte(MEM_SIZE - 2), 10);
    assert_eq!(mem.read_byte(MEM_SIZE - 1), 20);
    assert_eq!(mem.read_byte(0), 30);
    assert_eq!(mem.read_byte(1), 40);
    // every written cell carries the writer's tag and a fresh age
    for k in 0..4usize {
        let c = (MEM_SIZE - 2 + k) % MEM_SIZE;
        assert_eq!(*mem.owners.get(c), 1);
        assert_eq!(*mem.ages.get(c), MAX_AGE);
    }
    // an untouched cell keeps its defaults
    assert_eq!(*mem.owners.get(100), NO_OWNER);
    assert_eq!(mem.read_byte(100), 0);
}

#[test]
fn memory_indexing_is_circular() {
    let mut mem = Memory::default();
    mem.write(7, &[99], 2);
    assert_eq!(mem.read_byte(7), 99);
    assert_eq!(mem.read_byte(7 + MEM_SIZE), 99);
    assert_eq!(mem.read_byte(7 + 3 * MEM_SIZE), 99);
}

#[test]
fn memory_reads_are_big_endian() {
    let mut mem = Memory::default();
    mem.write(10, &[0x12, 0x34, 0x56, 0x78], 0);
    assert_eq!(mem.read_i32(10), 0x1234_5678);
    assert_eq!(mem.read_i16(10), 0x1234);
    mem.write_i32(-2, 0, 20);
    assert_eq!(mem.read_i32(20), -2);
}

#[test]
fn pc_offset_follows_the_reach_formula() {
    let pc = ProgramCounter::at(4000);
    // limited reach wraps the operand to 512 first
    assert_eq!(pc.offset(600, OffsetType::Limited), (4000 + 600 % 512) % MEM_SIZE);
    assert_eq!(pc.offset(-600, OffsetType::Limited), 4000 - 600 % 512);
    // long reach wraps the operand to the whole arena
    assert_eq!(pc.offset(5000, OffsetType::Long), (4000 + 5000 % 4096) % MEM_SIZE);
    let mut pc2 = ProgramCounter::at(0);
    pc2.advance(-1);
    assert_eq!(pc2.addr(), MEM_SIZE - 1);
}

fn fresh_ctx() -> ExecutionContext {
    ExecutionContext {
        cycle: 0,
        live_count: 0,
        forks: Vec::new(),
        pid_pool: PidPool(0),
        live_ids: Vec::new(),
    }
}

#[test]
fn zjmp_with_flag_set_jumps_exactly() {
    let mut mem = Memory::default();
    let mut proc = Process::new(0, 0, ProgramCounter::at(50));
    proc.zf = true;
    let instr = Instruction {
        kind: OpType::Zjmp,
        params: [
            Param { kind: ParamType::Direct, value: 100 },
            Param::default(),
            Param::default(),
        ],
        byte_size: 3,
    };
    let mut ctx = fresh_ctx();
    execute_instr(&instr, &mut mem, &mut proc, &mut ctx);
    assert_eq!(proc.pc.addr(), 150);
}

#[test]
fn zjmp_with_flag_clear_advances_by_instruction_size() {
    let mut mem = Memory::default();
    let mut proc = Process::new(0, 0, ProgramCounter::at(50));
    proc.zf = false;
    let instr = Instruction {
        kind: OpType::Zjmp,
        params: [
            Param { kind: ParamType::Direct, value: 100 },
            Param::default(),
            Param::default(),
        ],
        byte_size: 3,
    };
    let mut ctx = fresh_ctx();
    execute_instr(&instr, &mut mem, &mut proc, &mut ctx);
    assert_eq!(proc.pc.addr(), 53);
}

#[test]
fn observer_decode_reads_back_the_loaded_op() {
    let vm = loaded_vm(&[".name \"n\"\n.comment \"c\"\nlive %1\n"]);
    let instr = vm.decode(0).expect("should decode");
    assert_eq!(instr.kind, OpType::Live);
    assert_eq!(instr.byte_size, 5);
    assert_eq!(instr.params[0], Param { kind: ParamType::Direct, value: 1 });
}

#[test]
fn load_players_places_and_registers_champions() {
    let vm = loaded_vm(&[
        ".name \"one\"\n.comment \"c1\"\nlive %1\n",
        ".name \"two\"\n.comment \"c2\"\nlive %2\n",
    ]);
    assert_eq!(vm.player_count(), 2);
    assert_eq!(vm.process_count(), 2);
    assert_eq!(vm.players[0].name, "one");
    assert_eq!(vm.players[1].name, "two");
    assert_eq!(vm.players[1].id, 2);
    // champions are spaced half the arena apart
    assert_eq!(vm.memory.read_byte(0), 1);
    assert_eq!(vm.memory.read_byte(MEM_SIZE / 2), 1);
    // register 1 of each starting process holds its player id
    assert_eq!(vm.processes[0].registers[0], 1);
    assert_eq!(vm.processes[1].registers[0], 2);
}

#[test]
fn counts_always_add_up_to_the_process_list() {
    let mut vm = loaded_vm(&[
        ".name \"a\"\n.comment \"c\"\nstart: fork %:start\n",
        ".name \"b\"\n.comment \"c\"\nlive %2\nzjmp %-5\n",
    ]);
    for _ in 0..900 {
        vm.tick();
        let cell_sum: usize = (0..MEM_SIZE).map(|c| vm.process_count_per_cells[c]).sum();
        let owner_sum: usize = (0..MAX_PLAYERS).map(|o| vm.process_count_by_owner[o]).sum();
        assert_eq!(cell_sum, vm.process_count());
        assert_eq!(owner_sum, vm.process_count());
    }
    assert!(vm.process_count() >= 2);
}

#[test]
fn fork_spawns_a_child_only_for_the_next_cycle() {
    let mut vm = loaded_vm(&[".name \"f\"\n.comment \"c\"\nfork %0\n"]);
    // fork costs 800 cycles: it takes effect during the 800th tick
    for _ in 0..799 {
        vm.tick();
    }
    assert_eq!(vm.process_count(), 1);
    vm.tick();
    assert_eq!(vm.process_count(), 2);
    let child = vm.processes[1];
    assert!(matches!(child.state, corewar::process::ProcessState::Idle));
    assert_eq!(child.last_live_cycle, 0);
}

#[test]
fn live_check_kills_the_silent_and_empties_the_machine() {
    let mut vm = loaded_vm(&[".name \"mute\"\n.comment \"c\"\naff r1\n"]);
    while vm.process_count() > 0 {
        vm.tick();
        assert!(vm.cycles() <= CHECK_INTERVAL);
    }
    // the first live check evicts the process that never reported
    assert_eq!(vm.cycles(), CHECK_INTERVAL);
    // a quiescent machine ticks as a no-op
    vm.tick();
    vm.tick();
    assert_eq!(vm.cycles(), CHECK_INTERVAL);
    assert_eq!(vm.process_count(), 0);
}

#[test]
fn live_keeps_a_process_alive_and_stamps_its_player() {
    let mut vm = loaded_vm(&[".name \"alive\"\n.comment \"c\"\nstart: live %1\nzjmp %:start\n"]);
    for _ in 0..(CHECK_INTERVAL + 10) {
        vm.tick();
    }
    assert_eq!(vm.process_count(), 1);
    assert!(vm.champion_info(0).last_live > 0);
    assert!(vm.live_count_since_last_check() > 0 || vm.last_live_check() > 0);
}

#[test]
fn ages_decay_each_tick() {
    let mut vm = loaded_vm(&[".name \"n\"\n.comment \"c\"\nlive %1\n"]);
    let age0 = *vm.memory.ages.get(0);
    vm.tick();
    vm.tick();
    assert_eq!(*vm.memory.ages.get(0), age0 - 2);
}

#[test]
fn decode_rejects_bad_opcode_pcb_and_register() {
    let vm = VirtualMachine::new();
    // an empty arena holds opcode byte 0, which names nothing
    assert_eq!(vm.decode(123), Err(DecodeError::InvalidOp(InvalidOpCode(0))));

    // ld with a malformed operand-type byte: trailing bits set
    let mut mem = Memory::default();
    mem.write(0, &[2, 0b1001_0011], 0);
    assert_eq!(
        decode_instr(&mem, OpType::Ld, 0),
        Err(InstrDecodeError::InvalidPCB(0b1001_0011))
    );

    // ld %5, r42: the register operand is out of range
    mem.write(0, &[2, 0b1001_0000, 0, 0, 0, 5, 42], 0);
    assert_eq!(
        decode_instr(&mem, OpType::Ld, 0),
        Err(InstrDecodeError::InvalidRegNumber(42))
    );
}
