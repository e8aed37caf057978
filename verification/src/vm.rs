//! The virtual machine: the arena, the process list, the per-cell and
//! per-owner process counts, and the cycle-driven scheduler with its
//! live-check eviction loop.

use vstd::prelude::*;
use vstd::wrapping::u32_specs;
use arrayvec::ArrayVec;
use crate::{CHECK_INTERVAL, CYCLE_DELTA, HEADER_SIZE, MAX_CHECKS, MAX_PLAYERS, MEM_SIZE, NBR_LIVE};
use crate::counts::{
    count_key, count_owner, count_pc, lemma_count_absent, lemma_count_le_len, lemma_count_push,
    lemma_count_member, lemma_count_other, lemma_count_take_le, lemma_count_take_step,
    lemma_count_update, lemma_sum_count_is_len, owner_key, pc_key, sum_count,
};
use crate::decoder::{decode_instr, decode_op, spec_decode, DecodeError};
use crate::header::Header;
use crate::instructions::{execute_instr, ExecutionContext};
use crate::memory::{Memory, Owner};
use crate::ops::op_spec;
use crate::players::{players_get, players_len, players_new, players_push, players_view};
use crate::process::{Process, ProcessState};
use crate::program_counter::ProgramCounter;
use crate::vm_types::{Instruction, PidPool, Player, PlayerId};

verus! {

broadcast use vstd::array::group_array_axioms;

/// Read-only snapshot of one player's standing, for observers.
#[derive(Debug, Clone, Copy, PartialEq, Eq, Structural)]
pub struct ChampionInfo {
    pub process_count: usize,
    pub last_live: u32,
}

/// How much of the arena each player's writes cover, for observers.
#[derive(Debug)]
pub struct Coverages {
    pub values: [usize; MAX_PLAYERS],
    pub unowned: usize,
}

impl Coverages {
    pub fn get(&self, idx: usize) -> (r: usize)
        requires
            idx < MAX_PLAYERS,
        ensures
            r == self.values@[idx as int],
    {
        self.values[idx]
    }
}

/// The processes of `s` whose program counter sits on cell `idx`, in
/// order.
pub open spec fn procs_at_cell(s: Seq<Process>, idx: int) -> Seq<Process>
    decreases s.len(),
{
    if s.len() == 0 {
        Seq::empty()
    } else {
        let rest = procs_at_cell(s.drop_last(), idx);
        if s.last().pc.spec_addr() == idx {
            rest.push(s.last())
        } else {
            rest
        }
    }
}

pub struct VirtualMachine {
    pub players: ArrayVec<Player, MAX_PLAYERS>,
    pub memory: Memory,
    pub processes: Vec<Process>,
    pub pid_pool: PidPool,
    /// Cycle of each player's most recent recorded `live`.
    pub last_lives: [u32; MAX_PLAYERS],
    pub cycles: u32,
    pub last_live_check: u32,
    pub check_interval: u32,
    pub live_count_since_last_check: u32,
    pub checks_without_cycle_decrement: u32,
    pub process_count_per_cells: [usize; MEM_SIZE],
    pub process_count_by_owner: [usize; MAX_PLAYERS],
}

impl VirtualMachine {
    /// The machine's standing invariant: every process is owned by a
    /// loaded player slot, and both count caches agree with the process
    /// list, cell by cell and owner by owner.
    pub open spec fn wf(&self) -> bool {
        &&& forall|i: int|
            0 <= i < self.processes@.len() ==> (#[trigger] self.processes@[i]).wf()
        &&& forall|c: int|
            0 <= c < MEM_SIZE ==> self.process_count_per_cells@[c] == count_pc(self.processes@, c)
        &&& forall|o: int|
            0 <= o < MAX_PLAYERS ==> self.process_count_by_owner@[o] == count_owner(
                self.processes@,
                o,
            )
        &&& self.checks_without_cycle_decrement < MAX_CHECKS
    }

    pub fn new() -> (r: Self)
        ensures
            r.wf(),
            r.processes@.len() == 0,
            r.cycles == 0,
            r.last_live_check == 0,
            r.check_interval == CHECK_INTERVAL,
            r.live_count_since_last_check == 0,
            r.checks_without_cycle_decrement == 0,
            r.pid_pool.0 == 0,
            players_view(r.players).len() == 0,
            r.memory.values@ == Seq::new(MEM_SIZE as nat, |i: int| 0u8),
            r.memory.owners@ == Seq::new(MEM_SIZE as nat, |i: int| crate::memory::NO_OWNER),
            r.memory.ages@ == Seq::new(MEM_SIZE as nat, |i: int| crate::memory::MAX_AGE),
            r.last_lives@ == Seq::new(MAX_PLAYERS as nat, |i: int| 0u32),
    {
        let r = VirtualMachine {
            players: players_new(),
            memory: Memory::default(),
            processes: Vec::new(),
            pid_pool: PidPool::new(),
            last_lives: [0; MAX_PLAYERS],
            cycles: 0,
            last_live_check: 0,
            check_interval: CHECK_INTERVAL,
            live_count_since_last_check: 0,
            checks_without_cycle_decrement: 0,
            process_count_per_cells: [0; MEM_SIZE],
            process_count_by_owner: [0; MAX_PLAYERS],
        };
        proof {
            assert(r.last_lives@ =~= Seq::new(MAX_PLAYERS as nat, |i: int| 0u32));
            assert forall|c: int| 0 <= c < MEM_SIZE implies r.process_count_per_cells@[c]
                == count_pc(r.processes@, c) by {
                assert(count_pc(r.processes@, c) == 0);
            }
            assert forall|o: int| 0 <= o < MAX_PLAYERS implies r.process_count_by_owner@[o]
                == count_owner(r.processes@, o) by {
                assert(count_owner(r.processes@, o) == 0);
            }
        }
        r
    }

    pub fn cycles(&self) -> (r: u32)
        ensures
            r == self.cycles,
    {
        self.cycles
    }

    pub fn last_live_check(&self) -> (r: u32)
        ensures
            r == self.last_live_check,
    {
        self.last_live_check
    }

    pub fn check_interval(&self) -> (r: u32)
        ensures
            r == self.check_interval,
    {
        self.check_interval
    }

    pub fn live_count_since_last_check(&self) -> (r: u32)
        ensures
            r == self.live_count_since_last_check,
    {
        self.live_count_since_last_check
    }

    pub fn checks_without_cycle_decrement(&self) -> (r: u32)
        ensures
            r == self.checks_without_cycle_decrement,
    {
        self.checks_without_cycle_decrement
    }

    pub fn process_count(&self) -> (r: usize)
        ensures
            r == self.processes@.len(),
    {
        self.processes.len()
    }

    pub fn player_count(&self) -> (r: usize)
        ensures
            r == players_view(self.players).len(),
    {
        players_len(&self.players)
    }

    /// One player's process count and last recorded `live` cycle; both 0
    /// for a slot that is not loaded.
    pub fn champion_info(&self, player_idx: usize) -> (r: ChampionInfo)
        ensures
            player_idx < MAX_PLAYERS ==> r == (ChampionInfo {
                process_count: self.process_count_by_owner@[player_idx as int],
                last_live: self.last_lives@[player_idx as int],
            }),
            player_idx >= MAX_PLAYERS ==> r == (ChampionInfo { process_count: 0, last_live: 0 }),
    {
        if player_idx < MAX_PLAYERS {
            ChampionInfo {
                process_count: self.process_count_by_owner[player_idx],
                last_live: self.last_lives[player_idx],
            }
        } else {
            ChampionInfo { process_count: 0, last_live: 0 }
        }
    }

    /// Snapshots of every process whose program counter sits on `idx`.
    pub fn processes_at(&self, idx: usize) -> (r: Vec<Process>)
        ensures
            r@ == procs_at_cell(self.processes@, idx as int),
    {
        let mut out: Vec<Process> = Vec::new();
        let n = self.processes.len();
        let mut i: usize = 0;
        while i < n
            invariant
                0 <= i <= n == self.processes@.len(),
                out@ == procs_at_cell(self.processes@.take(i as int), idx as int),
            decreases n - i,
        {
            let p = self.processes[i];
            proof {
                let s = self.processes@;
                assert(s.take(i + 1).drop_last() =~= s.take(i as int));
                assert(s.take(i + 1).last() == s[i as int]);
            }
            if p.pc.addr() == idx {
                out.push(p);
            }
            i = i + 1;
        }
        proof {
            assert(self.processes@.take(n as int) =~= self.processes@);
        }
        out
    }

    /// The observer's disassembly query: decodes whatever sits at `idx`.
    pub fn decode(&self, idx: usize) -> (r: Result<Instruction, DecodeError>)
        requires
            idx < MEM_SIZE,
        ensures
            r == spec_decode(self.memory.values@, idx as int),
    {
        crate::decoder::decode(&self.memory, idx)
    }

    /// How many cells each player owns, and how many nobody owns.
    pub fn coverages(&self) -> (r: Coverages)
        ensures
            forall|o: int|
                0 <= o < MAX_PLAYERS ==> r.values@[o] == owned_count(
                    self.memory.owners@,
                    o,
                    MEM_SIZE as int,
                ),
            r.unowned == unowned_count(self.memory.owners@, MEM_SIZE as int),
            r.unowned <= MEM_SIZE,
    {
        let mut values: [usize; MAX_PLAYERS] = [0; MAX_PLAYERS];
        let mut unowned: usize = 0;
        let mut i: usize = 0;
        while i < MEM_SIZE
            invariant
                i <= MEM_SIZE,
                unowned <= i,
                forall|o: int| 0 <= o < MAX_PLAYERS ==> values@[o] <= i,
                forall|o: int|
                    0 <= o < MAX_PLAYERS ==> values@[o] == owned_count(
                        self.memory.owners@,
                        o,
                        i as int,
                    ),
                unowned == unowned_count(self.memory.owners@, i as int),
            decreases MEM_SIZE - i,
        {
            proof {
                vstd::arithmetic::div_mod::lemma_small_mod(i as nat, MEM_SIZE as nat);
            }
            let owner = *self.memory.owners.get(i);
            if owner != crate::memory::NO_OWNER {
                if (owner as usize) < MAX_PLAYERS {
                    let v = values[owner as usize];
                    values[owner as usize] = v + 1;
                } else {
                    unowned = unowned + 1;
                }
            } else {
                unowned = unowned + 1;
            }
            i = i + 1;
        }
        Coverages { values, unowned }
    }
}

/// How many of the first `upto` arena cells player `o` owns.
pub open spec fn owned_count(owners: Seq<crate::memory::Owner>, o: int, upto: int) -> int
    decreases upto,
{
    if upto <= 0 {
        0
    } else {
        owned_count(owners, o, upto - 1) + if owners[upto - 1] != crate::memory::NO_OWNER
            && (owners[upto - 1] as int) < MAX_PLAYERS && owners[upto - 1] as int == o {
            1int
        } else {
            0int
        }
    }
}

/// How many of the first `upto` arena cells no player owns: the owner mark
/// is the reserved value, or names no player slot.
pub open spec fn unowned_count(owners: Seq<crate::memory::Owner>, upto: int) -> int
    decreases upto,
{
    if upto <= 0 {
        0
    } else {
        unowned_count(owners, upto - 1) + if owners[upto - 1] == crate::memory::NO_OWNER || (
        owners[upto - 1] as int) >= MAX_PLAYERS {
            1int
        } else {
            0int
        }
    }
}

/// The arena cell holding byte `k` of the champion loaded at slot `i`,
/// with champions spaced `sp` cells apart.
pub open spec fn code_cell(i: int, sp: int, k: int) -> int {
    i * sp + k
}

/// With at most four players, the regions the loader writes are disjoint:
/// byte `k` of an earlier champion `j` lies more than a whole code section
/// short of champion `i`'s start.
proof fn lemma_regions_disjoint(sp: int, n: int, j: int, i: int, k: int, len_i: int)
    requires
        1 <= n <= MAX_PLAYERS,
        sp == MEM_SIZE as int / n,
        0 <= j < i < n,
        0 <= k < sp,
        0 <= len_i <= crate::CHAMP_MAX_SIZE,
    ensures
        0 <= code_cell(j, sp, k) < i * sp,
        code_cell(j, sp, k) < MEM_SIZE,
        crate::memory::wrap_dist(i * sp, code_cell(j, sp, k)) >= len_i,
{
    lemma_spacing_bound(n, i);
    lemma_spacing_bound(n, j);
    assert(j * sp + k < (j + 1) * sp) by (nonlinear_arith)
        requires
            k < sp,
    ;
    assert((j + 1) * sp <= i * sp) by (nonlinear_arith)
        requires
            j + 1 <= i,
            sp >= 0,
    ;
    assert(0 <= j * sp) by (nonlinear_arith)
        requires
            0 <= j,
            0 <= sp,
    ;
    let c = j * sp + k;
    let at = i * sp;
    assert(-(MEM_SIZE as int) < c - at < 0);
    vstd::arithmetic::div_mod::lemma_mod_add_multiples_vanish(c - at, MEM_SIZE as int);
    vstd::arithmetic::div_mod::lemma_small_mod((c - at + MEM_SIZE) as nat, MEM_SIZE as nat);
    assert(crate::memory::wrap_dist(at, c) == c - at + MEM_SIZE);
}

impl VirtualMachine {
    /// Copies one champion's code into the arena at `at` and starts its
    /// first process there, with the player id in register 1.
    fn load_champion(&mut self, code: &[u8], player_id: PlayerId, owner: Owner, at: usize)
        requires
            old(self).wf(),
            code@.len() <= MEM_SIZE,
            at < MEM_SIZE,
            owner < MAX_PLAYERS,
            count_owner(old(self).processes@, owner as int) == 0,
        ensures
            final(self).wf(),
            final(self).processes@ == old(self).processes@.push(final(self).processes@.last()),
            ({
                let p = final(self).processes@.last();
                &&& p.pid == old(self).pid_pool.0
                &&& p.owner == owner
                &&& p.pc.spec_addr() == at
                &&& p.registers@ == Seq::new(crate::REG_COUNT as nat, |k: int| 0i32).update(
                    0,
                    player_id,
                )
                &&& p.zf == false
                &&& p.state == ProcessState::Idle
                &&& p.last_live_cycle == 0
            }),
            final(self).pid_pool.0 == u32_specs::wrapping_add(old(self).pid_pool.0, 1),
            final(self).last_lives@ == old(self).last_lives@.update(owner as int, 0u32),
            forall|k: int|
                0 <= k < code@.len() ==> {
                    &&& final(self).memory.values@[#[trigger] crate::memory::wrap(at + k)]
                        == code@[k]
                    &&& final(self).memory.owners@[crate::memory::wrap(at + k)] == owner
                    &&& final(self).memory.ages@[crate::memory::wrap(at + k)]
                        == crate::memory::MAX_AGE
                },
            forall|c: int|
                0 <= c < MEM_SIZE && crate::memory::wrap_dist(at as int, c) >= code@.len() ==> {
                    &&& final(self).memory.values@[c] == old(self).memory.values@[c]
                    &&& final(self).memory.owners@[c] == old(self).memory.owners@[c]
                    &&& final(self).memory.ages@[c] == old(self).memory.ages@[c]
                },
            final(self).players == old(self).players,
            final(self).cycles == old(self).cycles,
            final(self).last_live_check == old(self).last_live_check,
            final(self).check_interval == old(self).check_interval,
            final(self).live_count_since_last_check == old(self).live_count_since_last_check,
            final(self).checks_without_cycle_decrement == old(self).checks_without_cycle_decrement,
    {
        self.memory.write(at, code, owner);

        let mut starting_process = Process::new(self.pid_pool.get(), owner, ProgramCounter::at(at));
        starting_process.registers[0] = player_id;
        let ghost p = starting_process;
        let ghost procs0 = self.processes@;

        proof {
            vstd::arithmetic::div_mod::lemma_small_mod(at as nat, MEM_SIZE as nat);
        }
        self.processes.push(starting_process);
        self.last_lives[owner as usize] = 0;

        let total = self.processes.len();
        proof {
            lemma_count_le_len(procs0, pc_key(), at as int);
            assert(total == procs0.len() + 1);
        }
        let v = self.process_count_per_cells[at];
        self.process_count_per_cells[at] = v + 1;
        self.process_count_by_owner[owner as usize] = 1;

        proof {
            assert(self.processes@ == procs0.push(p));
            assert forall|c: int| 0 <= c < MEM_SIZE implies self.process_count_per_cells@[c]
                == count_pc(self.processes@, c) by {
                lemma_count_push(procs0, pc_key(), p, c);
            }
            assert forall|o: int| 0 <= o < MAX_PLAYERS implies self.process_count_by_owner@[o]
                == count_owner(self.processes@, o) by {
                lemma_count_push(procs0, owner_key(), p, o);
            }
        }
    }

    /// Loads up to `MAX_PLAYERS` champion binaries into a fresh machine,
    /// spacing them evenly through the arena. Player `i` becomes owner `i`;
    /// its process starts at `i * (MEM_SIZE / player count)`.
    pub fn load_players(&mut self, players: &[(PlayerId, Vec<u8>)])
        requires
            old(self).wf(),
            old(self).processes@.len() == 0,
            players_view(old(self).players).len() == 0,
            0 < players@.len() <= MAX_PLAYERS,
            forall|i: int|
                0 <= i < players@.len() ==> HEADER_SIZE <= (#[trigger] players@[i].1)@.len()
                    <= HEADER_SIZE + crate::CHAMP_MAX_SIZE,
        ensures
            final(self).wf(),
            final(self).processes@.len() == players@.len(),
            players_view(final(self).players).len() == players@.len(),
            forall|i: int|
                0 <= i < players@.len() ==> {
                    let p = #[trigger] final(self).processes@[i];
                    &&& p.owner == i
                    &&& p.state == ProcessState::Idle
                    &&& p.last_live_cycle == 0
                    &&& p.zf == false
                    &&& p.pc.spec_addr() == i * (MEM_SIZE as int / players@.len() as int)
                    &&& p.registers@[0] == players@[i].0
                },
            forall|i: int|
                0 <= i < players@.len() ==> {
                    let pl = #[trigger] players_view(final(self).players)[i];
                    &&& pl.id == players@[i].0
                    &&& pl.size == players@[i].1@.len() - HEADER_SIZE
                },
            forall|i: int, k: int|
                0 <= i < players@.len() && 0 <= k < players@[i].1@.len() - HEADER_SIZE ==> {
                    let c = #[trigger] code_cell(i, MEM_SIZE as int / players@.len() as int, k);
                    &&& final(self).memory.values@[c] == players@[i].1@[HEADER_SIZE + k]
                    &&& final(self).memory.owners@[c] == i
                },
            forall|i: int| 0 <= i < players@.len() ==> final(self).last_lives@[i] == 0,
            final(self).cycles == old(self).cycles,
            final(self).last_live_check == old(self).last_live_check,
            final(self).check_interval == old(self).check_interval,
    {
        let n = players.len();
        let player_spacing = MEM_SIZE / n;
        let mut idx: usize = 0;
        while idx < n
            invariant
                0 <= idx <= n == players@.len(),
                0 < n <= MAX_PLAYERS,
                player_spacing == MEM_SIZE as int / n as int,
                self.wf(),
                forall|i: int|
                    0 <= i < players@.len() ==> HEADER_SIZE <= (#[trigger] players@[i].1)@.len()
                        <= HEADER_SIZE + crate::CHAMP_MAX_SIZE,
                self.processes@.len() == idx,
                players_view(self.players).len() == idx,
                forall|i: int|
                    0 <= i < idx ==> {
                        let p = #[trigger] self.processes@[i];
                        &&& p.owner == i
                        &&& p.state == ProcessState::Idle
                        &&& p.last_live_cycle == 0
                        &&& p.zf == false
                        &&& p.pc.spec_addr() == i * player_spacing as int
                        &&& p.registers@[0] == players@[i].0
                    },
                forall|i: int|
                    0 <= i < idx ==> {
                        let pl = #[trigger] players_view(self.players)[i];
                        &&& pl.id == players@[i].0
                        &&& pl.size == players@[i].1@.len() - HEADER_SIZE
                    },
                forall|j: int, k: int|
                    0 <= j < idx && 0 <= k < players@[j].1@.len() - HEADER_SIZE ==> {
                        let c = #[trigger] code_cell(j, player_spacing as int, k);
                        &&& self.memory.values@[c] == players@[j].1@[HEADER_SIZE + k]
                        &&& self.memory.owners@[c] == j
                    },
                forall|j: int| 0 <= j < idx ==> self.last_lives@[j] == 0,
                self.last_lives@.len() == MAX_PLAYERS,
                self.cycles == old(self).cycles,
                self.last_live_check == old(self).last_live_check,
                self.check_interval == old(self).check_interval,
            decreases n - idx,
        {
            proof {
                lemma_spacing_bound(n as int, idx as int);
            }
            let (player_id, program) = &players[idx];
            let program_len = program.len();
            let header = Header::from_bytes(program.as_slice());
            let name = header.name();
            let comment = header.comment();
            players_push(
                &mut self.players,
                Player { id: *player_id, name, comment, size: program_len - HEADER_SIZE },
            );

            let mut code: Vec<u8> = Vec::new();
            let mut k: usize = HEADER_SIZE;
            while k < program_len
                invariant
                    HEADER_SIZE <= k <= program_len == program@.len(),
                    code@ == program@.subrange(HEADER_SIZE as int, k as int),
                decreases program_len - k,
            {
                code.push(*vstd::std_specs::vec::vec_index(program, k));
                proof {
                    assert(code@ =~= program@.subrange(HEADER_SIZE as int, k + 1));
                }
                k = k + 1;
            }

            let at = idx * player_spacing;
            proof {
                assert(count_owner(self.processes@, idx as int) == 0) by {
                    lemma_count_absent(self.processes@, owner_key(), idx as int);
                }
            }
            let ghost procs_before = self.processes@;
            let ghost players_before = players_view(self.players);
            self.load_champion(&code, *player_id, idx as u8, at);
            proof {
                assert(self.processes@.len() == idx + 1);
                assert(forall|i: int|
                    0 <= i < idx ==> self.processes@[i] == procs_before[i]);
                let sp = player_spacing as int;
                let clen = players@[idx as int].1@.len() - HEADER_SIZE;
                // the freshly written region carries this champion's bytes
                assert forall|k: int| 0 <= k < clen implies {
                    let c = #[trigger] code_cell(idx as int, sp, k);
                    &&& self.memory.values@[c] == players@[idx as int].1@[HEADER_SIZE + k]
                    &&& self.memory.owners@[c] == idx
                } by {
                    vstd::arithmetic::div_mod::lemma_small_mod(
                        (at + k) as nat,
                        MEM_SIZE as nat,
                    );
                    assert(crate::memory::wrap(at + k) == code_cell(idx as int, sp, k));
                    assert(code@[k] == players@[idx as int].1@[HEADER_SIZE + k]);
                }
                // earlier champions' regions lie outside this write
                assert forall|j: int, k: int|
                    0 <= j < idx && 0 <= k < players@[j].1@.len() - HEADER_SIZE implies {
                    let c = #[trigger] code_cell(j, sp, k);
                    &&& self.memory.values@[c] == players@[j].1@[HEADER_SIZE + k]
                    &&& self.memory.owners@[c] == j
                } by {
                    lemma_regions_disjoint(sp, n as int, j, idx as int, k, clen);
                }
            }
            idx = idx + 1;
        }
    }
}

/// Each champion's starting address lies inside the arena: with `n`
/// players, slot `i` starts at `i * (MEM_SIZE / n) < MEM_SIZE`.
proof fn lemma_spacing_bound(n: int, i: int)
    requires
        1 <= n <= MAX_PLAYERS,
        0 <= i < n,
    ensures
        0 <= i * (MEM_SIZE as int / n) <= (n - 1) * (MEM_SIZE as int / n),
        (n - 1) * (MEM_SIZE as int / n) < MEM_SIZE,
        MEM_SIZE as int / n >= 1024,
        (n - 1) * (MEM_SIZE as int / n) + 1024 <= MEM_SIZE,
{
    let d = MEM_SIZE as int / n;
    if n == 1 {
        assert(d == 4096);
        assert((n - 1) * d == 0) by (nonlinear_arith)
            requires
                n == 1,
        ;
    } else if n == 2 {
        assert(d == 2048);
        assert((n - 1) * d == 2048) by (nonlinear_arith)
            requires
                n == 2,
                d == 2048,
        ;
    } else if n == 3 {
        assert(d == 1365);
        assert((n - 1) * d == 2730) by (nonlinear_arith)
            requires
                n == 3,
                d == 1365,
        ;
    } else {
        assert(n == 4);
        assert(d == 1024);
        assert((n - 1) * d == 3072) by (nonlinear_arith)
            requires
                n == 4,
                d == 1024,
        ;
    }
    assert(i * d <= (n - 1) * d) by (nonlinear_arith)
        requires
            0 <= i <= n - 1,
            d >= 0,
    ;
    assert(0 <= i * d) by (nonlinear_arith)
        requires
            0 <= i,
            d >= 0,
    ;
}

/// The processes that a live check performed at `last_check` spares: those
/// whose most recent `live` came after the previous check.
pub open spec fn surviving(s: Seq<Process>, last_check: int) -> Seq<Process>
    decreases s.len(),
{
    if s.len() == 0 {
        Seq::empty()
    } else {
        let rest = surviving(s.drop_last(), last_check);
        if s.last().last_live_cycle > last_check {
            rest.push(s.last())
        } else {
            rest
        }
    }
}

/// A check that spares nobody empties the list.
pub proof fn lemma_surviving_none(s: Seq<Process>, last_check: int)
    requires
        forall|i: int|
            0 <= i < s.len() ==> #[trigger] s[i].last_live_cycle <= last_check,
    ensures
        surviving(s, last_check).len() == 0,
    decreases s.len(),
{
    if s.len() > 0 {
        assert(forall|i: int|
            0 <= i < s.drop_last().len() ==> #[trigger] s.drop_last()[i].last_live_cycle
                <= last_check);
        lemma_surviving_none(s.drop_last(), last_check);
        assert(s[s.len() - 1].last_live_cycle <= last_check);
    }
}

impl VirtualMachine {
    /// The live check: evicts every process that has not run `live` since
    /// the previous check, then shortens the check interval when enough
    /// `live`s were seen - or when too many checks passed without a
    /// shortening - and opens the next check period.
    fn live_check(&mut self)
        requires
            old(self).wf(),
        ensures
            final(self).wf(),
            final(self).processes@ == surviving(
                old(self).processes@,
                old(self).last_live_check as int,
            ),
            (forall|i: int|
                0 <= i < old(self).processes@.len()
                    ==> #[trigger] old(self).processes@[i].last_live_cycle <= old(
                    self,
                ).last_live_check) ==> final(self).processes@.len() == 0,
            forall|i: int|
                0 <= i < final(self).processes@.len()
                    ==> #[trigger] final(self).processes@[i].last_live_cycle > old(
                    self,
                ).last_live_check,
            final(self).live_count_since_last_check == 0,
            final(self).last_live_check == old(self).cycles,
            ({
                let shortened = old(self).live_count_since_last_check >= NBR_LIVE;
                let interval1 = if shortened {
                    old(self).check_interval.saturating_sub(CYCLE_DELTA)
                } else {
                    old(self).check_interval
                };
                let checks1: u32 = if shortened {
                    0
                } else {
                    (old(self).checks_without_cycle_decrement + 1) as u32
                };
                &&& final(self).check_interval == (if checks1 >= MAX_CHECKS {
                    interval1.saturating_sub(CYCLE_DELTA)
                } else {
                    interval1
                })
                &&& final(self).checks_without_cycle_decrement == (if checks1 >= MAX_CHECKS {
                    0u32
                } else {
                    checks1
                })
            }),
            final(self).cycles == old(self).cycles,
            final(self).memory == old(self).memory,
            final(self).players == old(self).players,
            final(self).pid_pool == old(self).pid_pool,
            final(self).last_lives == old(self).last_lives,
    {
        let ghost s = self.processes@;
        let ghost lc = self.last_live_check as int;
        let mut survivors: Vec<Process> = Vec::new();
        let n = self.processes.len();
        let mut i: usize = 0;
        while i < n
            invariant
                0 <= i <= n == s.len(),
                self.processes@ == s,
                self.last_live_check == old(self).last_live_check,
                lc == old(self).last_live_check as int,
                self.cycles == old(self).cycles,
                self.memory == old(self).memory,
                self.players == old(self).players,
                self.pid_pool == old(self).pid_pool,
                self.last_lives == old(self).last_lives,
                self.check_interval == old(self).check_interval,
                self.live_count_since_last_check == old(self).live_count_since_last_check,
                self.checks_without_cycle_decrement == old(self).checks_without_cycle_decrement,
                forall|j: int| 0 <= j < s.len() ==> (#[trigger] s[j]).wf(),
                survivors@ == surviving(s.take(i as int), lc),
                forall|j: int|
                    0 <= j < survivors@.len() ==> (#[trigger] survivors@[j]).last_live_cycle > lc,
                forall|j: int| 0 <= j < survivors@.len() ==> (#[trigger] survivors@[j]).wf(),
                self.process_count_per_cells@.len() == MEM_SIZE,
                self.process_count_by_owner@.len() == MAX_PLAYERS,
                forall|c: int|
                    0 <= c < MEM_SIZE ==> self.process_count_per_cells@[c] == count_pc(
                        survivors@,
                        c,
                    ) + count_pc(s, c) - count_pc(s.take(i as int), c),
                forall|o: int|
                    0 <= o < MAX_PLAYERS ==> self.process_count_by_owner@[o] == count_owner(
                        survivors@,
                        o,
                    ) + count_owner(s, o) - count_owner(s.take(i as int), o),
            decreases n - i,
        {
            let p = self.processes[i];
            let ghost surv0 = survivors@;
            let ghost cells0 = self.process_count_per_cells@;
            let ghost owners0 = self.process_count_by_owner@;
            proof {
                assert(s.take(i + 1).drop_last() =~= s.take(i as int));
                assert(s.take(i + 1).last() == s[i as int]);
                assert(s[i as int].wf());
            }
            if p.last_live_cycle > self.last_live_check {
                survivors.push(p);
                proof {
                    assert(survivors@ == surv0.push(p));
                    assert(surviving(s.take(i + 1), lc) == surv0.push(p));
                    assert forall|c: int| 0 <= c < MEM_SIZE implies self.process_count_per_cells@[c]
                        == count_pc(survivors@, c) + count_pc(s, c) - count_pc(s.take(i + 1), c) by {
                        lemma_count_push(surv0, pc_key(), p, c);
                        lemma_count_take_step(s, pc_key(), i as int, c);
                    }
                    assert forall|o: int| 0 <= o < MAX_PLAYERS implies self.process_count_by_owner@[o]
                        == count_owner(survivors@, o) + count_owner(s, o) - count_owner(
                        s.take(i + 1),
                        o,
                    ) by {
                        lemma_count_push(surv0, owner_key(), p, o);
                        lemma_count_take_step(s, owner_key(), i as int, o);
                    }
                }
            } else {
                let cell = p.pc.addr();
                proof {
                    assert(surviving(s.take(i + 1), lc) == surv0);
                    lemma_count_take_step(s, pc_key(), i as int, p.pc.spec_addr());
                    lemma_count_take_le(s, pc_key(), i + 1, p.pc.spec_addr());
                    lemma_count_le_len(surv0, pc_key(), p.pc.spec_addr());
                    lemma_count_take_step(s, owner_key(), i as int, p.owner as int);
                    lemma_count_take_le(s, owner_key(), i + 1, p.owner as int);
                    lemma_count_le_len(surv0, owner_key(), p.owner as int);
                }
                let v = self.process_count_per_cells[cell];
                self.process_count_per_cells[cell] = v - 1;
                let w = self.process_count_by_owner[p.owner as usize];
                self.process_count_by_owner[p.owner as usize] = w - 1;
                proof {
                    assert(self.process_count_per_cells@ == cells0.update(
                        cell as int,
                        (v - 1) as usize,
                    ));
                    assert(self.process_count_by_owner@ == owners0.update(
                        p.owner as int,
                        (w - 1) as usize,
                    ));
                    assert forall|c: int| 0 <= c < MEM_SIZE implies self.process_count_per_cells@[c]
                        == count_pc(survivors@, c) + count_pc(s, c) - count_pc(s.take(i + 1), c) by {
                        lemma_count_take_step(s, pc_key(), i as int, c);
                    }
                    assert forall|o: int| 0 <= o < MAX_PLAYERS implies self.process_count_by_owner@[o]
                        == count_owner(survivors@, o) + count_owner(s, o) - count_owner(
                        s.take(i + 1),
                        o,
                    ) by {
                        lemma_count_take_step(s, owner_key(), i as int, o);
                    }
                }
            }
            i = i + 1;
        }
        proof {
            assert(s.take(n as int) =~= s);
        }
        self.processes = survivors;

        if self.live_count_since_last_check >= NBR_LIVE {
            self.check_interval = self.check_interval.saturating_sub(CYCLE_DELTA);
            self.checks_without_cycle_decrement = 0;
        } else {
            self.checks_without_cycle_decrement = self.checks_without_cycle_decrement + 1;
        }

        if self.checks_without_cycle_decrement >= MAX_CHECKS {
            self.check_interval = self.check_interval.saturating_sub(CYCLE_DELTA);
            self.checks_without_cycle_decrement = 0;
        }

        self.live_count_since_last_check = 0;
        self.last_live_check = self.cycles;

        proof {
            if forall|i2: int|
                0 <= i2 < s.len() ==> #[trigger] s[i2].last_live_cycle <= old(
                    self,
                ).last_live_check {
                lemma_surviving_none(s, old(self).last_live_check as int);
            }
        }
    }
}

/// One process's scheduling step, relating the machine state it saw to
/// the state it leaves behind: an idle process commits to the opcode under
/// its counter - or slips one byte past a bad opcode byte; a committed
/// process whose time has come applies its instruction's effect - or slips
/// one byte past a bad body - and returns to idle; any other process waits
/// untouched.
pub open spec fn spec_step(
    m0: Memory,
    x0: crate::instructions::ExecutionContext,
    p0: Process,
    m1: Memory,
    x1: crate::instructions::ExecutionContext,
    p1: Process,
) -> bool {
    &&& p1.pid == p0.pid
    &&& p1.owner == p0.owner
    &&& match p0.state {
        ProcessState::Idle => {
            &&& m1 == m0
            &&& crate::instructions::ctx_same(x0, x1)
            &&& p1.registers == p0.registers
            &&& p1.zf == p0.zf
            &&& p1.last_live_cycle == p0.last_live_cycle
            &&& match crate::decoder::spec_decode_op(m0.values@, p0.pc.spec_addr()) {
                Ok(op) => {
                    &&& p1.pc == p0.pc
                    &&& p1.state == (ProcessState::Executing {
                        op,
                        exec_at: u32_specs::wrapping_sub(
                            u32_specs::wrapping_add(x0.cycle, crate::ops::spec_op_spec(op).cycles),
                            1,
                        ),
                    })
                },
                Err(_) => {
                    &&& p1.pc.spec_addr() == (p0.pc.spec_addr() + 1) % (MEM_SIZE as int)
                    &&& p1.state == ProcessState::Idle
                },
            }
        },
        ProcessState::Executing { op, exec_at } => {
            if exec_at != x0.cycle {
                &&& m1 == m0
                &&& crate::instructions::ctx_same(x0, x1)
                &&& p1 == p0
            } else {
                &&& p1.state == ProcessState::Idle
                &&& match crate::decoder::spec_decode_instr(m0.values@, op, p0.pc.spec_addr()) {
                    Ok(instr) => {
                        &&& crate::instructions::spec_instr_effect(instr, m0, p0, x0, m1, p1, x1)
                        &&& (op == crate::ops::OpType::Zjmp && p0.zf) ==> p1.pc.spec_addr()
                            == crate::program_counter::pc_offset_spec(
                            p0.pc.spec_addr(),
                            instr.params@[0].value as int,
                            crate::program_counter::spec_reach(
                                crate::vm_types::OffsetType::Limited,
                            ),
                        )
                        &&& !(op == crate::ops::OpType::Zjmp && p0.zf) ==> p1.pc.spec_addr() == (
                        p0.pc.spec_addr() + instr.byte_size) % (MEM_SIZE as int)
                    },
                    Err(_) => {
                        &&& m1 == m0
                        &&& crate::instructions::ctx_same(x0, x1)
                        &&& p1.pc.spec_addr() == (p0.pc.spec_addr() + 1) % (MEM_SIZE as int)
                        &&& p1.registers == p0.registers
                        &&& p1.zf == p0.zf
                        &&& p1.last_live_cycle == p0.last_live_cycle
                    },
                }
            }
        },
    }
}

/// A whole scheduling pass: processes step in reverse insertion order,
/// each seeing the arena and side state its predecessors left.
pub open spec fn spec_pass(
    procs0: Seq<Process>,
    procs1: Seq<Process>,
    ms: Seq<Memory>,
    xs: Seq<crate::instructions::ExecutionContext>,
) -> bool {
    let n = procs0.len() as int;
    &&& procs1.len() == n
    &&& ms.len() == n + 1
    &&& xs.len() == n + 1
    &&& forall|k: int|
        0 <= k < n ==> #[trigger] spec_step(
            ms[k],
            xs[k],
            procs0[n - 1 - k],
            ms[k + 1],
            xs[k + 1],
            procs1[n - 1 - k],
        )
}

/// Everything one scheduling pass does to the machine, witnessed by the
/// chain of intermediate states `ms`/`xs`: the stepped processes keep
/// their places, the pass's forks join at the tail, the side state's final
/// live count and pid pool are written back, and each player named by a
/// `live` gets this cycle stamped.
pub open spec fn spec_pass_result(
    pre: VirtualMachine,
    post: VirtualMachine,
    ms: Seq<Memory>,
    xs: Seq<crate::instructions::ExecutionContext>,
) -> bool {
    let n = pre.processes@.len() as int;
    let last = ms.len() - 1;
    &&& ms.len() == n + 1
    &&& ms[0] == pre.memory
    &&& xs[0].cycle == pre.cycles
    &&& xs[0].live_count == pre.live_count_since_last_check
    &&& xs[0].forks@ == Seq::<Process>::empty()
    &&& xs[0].live_ids@ == Seq::<PlayerId>::empty()
    &&& xs[0].pid_pool.0 == pre.pid_pool.0
    &&& spec_pass(pre.processes@, post.processes@.take(n), ms, xs)
    &&& post.processes@ == post.processes@.take(n) + xs[last].forks@
    &&& post.memory == ms[last]
    &&& post.live_count_since_last_check == xs[last].live_count
    &&& post.pid_pool.0 == xs[last].pid_pool.0
    &&& post.players == pre.players
    &&& post.last_lives@.len() == MAX_PLAYERS
    &&& forall|t: int|
        0 <= t < players_view(pre.players).len() ==> post.last_lives@[t] == (
        if xs[last].live_ids@.contains(#[trigger] players_view(pre.players)[t].id) {
            pre.cycles
        } else {
            pre.last_lives@[t]
        })
    &&& forall|t: int|
        players_view(pre.players).len() <= t < MAX_PLAYERS ==> post.last_lives@[t]
            == pre.last_lives@[t]
}

impl VirtualMachine {
    /// One scheduling pass over the process list, in reverse insertion
    /// order: an idle process tries to commit to the opcode under its
    /// program counter; a committed process whose time has come decodes
    /// and executes it, or slips one byte forward on a decoding failure.
    /// The pass's forks are appended at the tail afterwards - they run no
    /// earlier than the next cycle - and each player seen in a `live` gets
    /// its last-live cycle stamped.
    fn run_processes(&mut self)
        requires
            old(self).wf(),
        ensures
            final(self).wf(),
            final(self).cycles == old(self).cycles,
            final(self).last_live_check == old(self).last_live_check,
            final(self).check_interval == old(self).check_interval,
            final(self).checks_without_cycle_decrement == old(self).checks_without_cycle_decrement,
            final(self).players == old(self).players,
            final(self).processes@.len() >= old(self).processes@.len(),
            forall|i: int|
                0 <= i < old(self).processes@.len() ==> {
                    &&& (#[trigger] final(self).processes@[i]).pid == old(self).processes@[i].pid
                    &&& final(self).processes@[i].owner == old(self).processes@[i].owner
                },
            forall|i: int|
                old(self).processes@.len() <= i < final(self).processes@.len() ==> {
                    let f = #[trigger] final(self).processes@[i];
                    &&& f.state == ProcessState::Idle
                    &&& f.last_live_cycle == 0
                },
            exists|ms: Seq<Memory>, xs: Seq<crate::instructions::ExecutionContext>|
                #[trigger] spec_pass_result(*old(self), *final(self), ms, xs),
    {
        let ghost procs0 = self.processes@;
        let n = self.processes.len();
        let mut ctx = ExecutionContext {
            cycle: self.cycles,
            live_count: self.live_count_since_last_check,
            forks: Vec::new(),
            pid_pool: PidPool(self.pid_pool.0),
            live_ids: Vec::new(),
        };
        let ghost mut ms: Seq<Memory> = seq![self.memory];
        let ghost mut xs: Seq<crate::instructions::ExecutionContext> = seq![ctx];
        let mut i: usize = n;
        while i > 0
            invariant
                0 <= i <= n == self.processes@.len() == procs0.len(),
                forall|j: int| 0 <= j < n ==> (#[trigger] self.processes@[j]).wf(),
                forall|j: int| 0 <= j < i ==> self.processes@[j] == procs0[j],
                forall|j: int|
                    0 <= j < n ==> {
                        &&& (#[trigger] self.processes@[j]).pid == procs0[j].pid
                        &&& self.processes@[j].owner == procs0[j].owner
                    },
                self.process_count_per_cells@.len() == MEM_SIZE,
                self.process_count_by_owner@.len() == MAX_PLAYERS,
                forall|c: int|
                    0 <= c < MEM_SIZE ==> self.process_count_per_cells@[c] == count_pc(
                        self.processes@,
                        c,
                    ),
                forall|o: int|
                    0 <= o < MAX_PLAYERS ==> self.process_count_by_owner@[o] == count_owner(
                        self.processes@,
                        o,
                    ),
                forall|j: int|
                    0 <= j < ctx.forks@.len() ==> {
                        let f = #[trigger] ctx.forks@[j];
                        &&& f.wf()
                        &&& f.state == ProcessState::Idle
                        &&& f.last_live_cycle == 0
                    },
                ctx.cycle == old(self).cycles,
                self.cycles == old(self).cycles,
                self.last_live_check == old(self).last_live_check,
                self.check_interval == old(self).check_interval,
                self.checks_without_cycle_decrement == old(self).checks_without_cycle_decrement,
                self.live_count_since_last_check == old(self).live_count_since_last_check,
                self.players == old(self).players,
                self.pid_pool == old(self).pid_pool,
                self.last_lives == old(self).last_lives,
                ms.len() == n - i + 1,
                xs.len() == ms.len(),
                ms[0] == old(self).memory,
                xs[0].cycle == old(self).cycles,
                xs[0].live_count == old(self).live_count_since_last_check,
                xs[0].forks@ == Seq::<Process>::empty(),
                xs[0].live_ids@ == Seq::<PlayerId>::empty(),
                xs[0].pid_pool.0 == old(self).pid_pool.0,
                ms.last() == self.memory,
                xs.last() == ctx,
                forall|k: int|
                    0 <= k < n - i ==> #[trigger] spec_step(
                        ms[k],
                        xs[k],
                        procs0[n - 1 - k],
                        ms[k + 1],
                        xs[k + 1],
                        self.processes@[n - 1 - k],
                    ),
            decreases i,
        {
            i = i - 1;
            let ghost m_pre = self.memory;
            let ghost c_pre = ctx;
            let ghost trace_len = ms.len();
            let mut p = self.processes[i];
            let ghost p0 = p;
            let ghost sb = self.processes@;
            match p.state {
                ProcessState::Idle => {
                    match decode_op(&self.memory, p.pc.addr()) {
                        Ok(op) => {
                            let exec_at = ctx.cycle.wrapping_add(op_spec(op).cycles).wrapping_sub(
                                1,
                            );
                            p.state = ProcessState::Executing { op, exec_at };
                            self.processes.set(i, p);
                            proof {
                                assert forall|c: int|
                                    0 <= c < MEM_SIZE implies self.process_count_per_cells@[c]
                                    == count_pc(self.processes@, c) by {
                                    lemma_count_update(sb, pc_key(), i as int, p, c);
                                }
                                assert forall|o: int|
                                    0 <= o < MAX_PLAYERS implies self.process_count_by_owner@[o]
                                    == count_owner(self.processes@, o) by {
                                    lemma_count_update(sb, owner_key(), i as int, p, o);
                                }
                            }
                        },
                        Err(_) => {
                            let pc_start = p.pc.addr();
                            p.pc.advance(1);
                            self.processes.set(i, p);
                            self.move_cell_count(Ghost(sb), Ghost(i as int), Ghost(p0), pc_start, p.pc.addr());
                        },
                    }
                },
                ProcessState::Executing { exec_at, op } => {
                    if exec_at == ctx.cycle {
                        let pc_start = p.pc.addr();
                        match decode_instr(&self.memory, op, pc_start) {
                            Ok(instr) => {
                                proof {
                                    crate::instructions::lemma_decode_ok_params(
                                        self.memory.values@,
                                        op,
                                        pc_start as int,
                                    );
                                }
                                let ghost forks0 = ctx.forks@;
                                execute_instr(&instr, &mut self.memory, &mut p, &mut ctx);
                                proof {
                                    assert forall|q: int| 0 <= q < ctx.forks@.len() implies {
                                        let f = #[trigger] ctx.forks@[q];
                                        &&& f.wf()
                                        &&& f.state == ProcessState::Idle
                                        &&& f.last_live_cycle == 0
                                    } by {
                                        if q < forks0.len() {
                                            assert(ctx.forks@[q] == ctx.forks@.subrange(
                                                0,
                                                forks0.len() as int,
                                            )[q]);
                                            assert(ctx.forks@[q] == forks0[q]);
                                        } else {
                                            assert(sb[i as int].wf());
                                        }
                                    }
                                }
                            },
                            Err(_) => {
                                p.pc.advance(1);
                            },
                        }
                        p.state = ProcessState::Idle;
                        self.processes.set(i, p);
                        self.move_cell_count(Ghost(sb), Ghost(i as int), Ghost(p0), pc_start, p.pc.addr());
                    }
                },
            }
            proof {
                ms = ms.push(self.memory);
                xs = xs.push(ctx);
                assert(ms[trace_len - 1] == m_pre);
                assert(xs[trace_len - 1] == c_pre);
                assert(spec_step(
                    m_pre,
                    c_pre,
                    procs0[i as int],
                    self.memory,
                    ctx,
                    self.processes@[i as int],
                ));
                assert forall|k: int| 0 <= k < n - i implies #[trigger] spec_step(
                    ms[k],
                    xs[k],
                    procs0[n - 1 - k],
                    ms[k + 1],
                    xs[k + 1],
                    self.processes@[n - 1 - k],
                ) by {
                    if k < n - i - 1 {
                        assert(n - 1 - k > i);
                        assert(self.processes@[n - 1 - k] == sb[n - 1 - k]);
                    }
                }
            }
        }

        let ghost ctx_end = ctx;
        let ghost mem_end = self.memory;
        self.live_count_since_last_check = ctx.live_count;
        self.pid_pool = PidPool(ctx.pid_pool.0);

        let ghost stepped = self.processes@;
        let len0 = self.processes.len();
        self.processes.append(&mut ctx.forks);
        let total = self.processes.len();
        proof {
            assert(self.processes@.take(len0 as int) =~= stepped);
        }
        let mut j = len0;
        while j < total
            invariant
                len0 <= j <= total == self.processes@.len(),
                stepped.len() == len0,
                self.processes@ == stepped + ctx_end.forks@,
                forall|t: int| 0 <= t < len0 ==> self.processes@[t] == stepped[t],
                forall|t: int| 0 <= t < total ==> (#[trigger] self.processes@[t]).wf(),
                forall|t: int|
                    len0 <= t < total ==> {
                        let f = #[trigger] self.processes@[t];
                        &&& f.state == ProcessState::Idle
                        &&& f.last_live_cycle == 0
                    },
                self.process_count_per_cells@.len() == MEM_SIZE,
                self.process_count_by_owner@.len() == MAX_PLAYERS,
                forall|c: int|
                    0 <= c < MEM_SIZE ==> self.process_count_per_cells@[c] == count_pc(
                        self.processes@.take(j as int),
                        c,
                    ),
                forall|o: int|
                    0 <= o < MAX_PLAYERS ==> self.process_count_by_owner@[o] == count_owner(
                        self.processes@.take(j as int),
                        o,
                    ),
                self.cycles == old(self).cycles,
                self.last_live_check == old(self).last_live_check,
                self.check_interval == old(self).check_interval,
                self.checks_without_cycle_decrement == old(self).checks_without_cycle_decrement,
                self.players == old(self).players,
                self.last_lives == old(self).last_lives,
                self.memory == mem_end,
                self.live_count_since_last_check == ctx_end.live_count,
                self.pid_pool.0 == ctx_end.pid_pool.0,
                forall|t: int|
                    0 <= t < len0 ==> {
                        &&& (#[trigger] self.processes@[t]).pid == procs0[t].pid
                        &&& self.processes@[t].owner == procs0[t].owner
                    },
            decreases total - j,
        {
            let f = self.processes[j];
            proof {
                let s = self.processes@;
                lemma_count_take_le(s, pc_key(), j + 1, f.pc.spec_addr());
                lemma_count_le_len(s, pc_key(), f.pc.spec_addr());
                lemma_count_take_le(s, owner_key(), j + 1, f.owner as int);
                lemma_count_le_len(s, owner_key(), f.owner as int);
                lemma_count_take_step(s, pc_key(), j as int, f.pc.spec_addr());
                lemma_count_take_step(s, owner_key(), j as int, f.owner as int);
            }
            let ghost cells0 = self.process_count_per_cells@;
            let ghost owners0 = self.process_count_by_owner@;
            let v = self.process_count_per_cells[f.pc.addr()];
            self.process_count_per_cells[f.pc.addr()] = v + 1;
            let w = self.process_count_by_owner[f.owner as usize];
            self.process_count_by_owner[f.owner as usize] = w + 1;
            proof {
                let s = self.processes@;
                assert forall|c: int| 0 <= c < MEM_SIZE implies self.process_count_per_cells@[c]
                    == count_pc(s.take(j + 1), c) by {
                    lemma_count_take_step(s, pc_key(), j as int, c);
                }
                assert forall|o: int| 0 <= o < MAX_PLAYERS implies self.process_count_by_owner@[o]
                    == count_owner(s.take(j + 1), o) by {
                    lemma_count_take_step(s, owner_key(), j as int, o);
                }
            }
            j = j + 1;
        }
        proof {
            assert(self.processes@.take(total as int) =~= self.processes@);
        }

        let ghost procs_merged = self.processes@;
        let pcount = players_len(&self.players);
        let mut t: usize = 0;
        while t < pcount
            invariant
                0 <= t <= pcount <= MAX_PLAYERS,
                pcount == players_view(self.players).len(),
                self.last_lives@.len() == MAX_PLAYERS,
                self.wf(),
                self.processes@ == procs_merged,
                self.processes@.len() >= procs0.len(),
                forall|i2: int|
                    0 <= i2 < procs0.len() ==> {
                        &&& (#[trigger] self.processes@[i2]).pid == procs0[i2].pid
                        &&& self.processes@[i2].owner == procs0[i2].owner
                    },
                forall|i2: int|
                    procs0.len() <= i2 < self.processes@.len() ==> {
                        let f = #[trigger] self.processes@[i2];
                        &&& f.state == ProcessState::Idle
                        &&& f.last_live_cycle == 0
                    },
                self.cycles == old(self).cycles,
                self.last_live_check == old(self).last_live_check,
                self.check_interval == old(self).check_interval,
                self.checks_without_cycle_decrement == old(self).checks_without_cycle_decrement,
                self.players == old(self).players,
                self.memory == mem_end,
                self.live_count_since_last_check == ctx_end.live_count,
                self.pid_pool.0 == ctx_end.pid_pool.0,
                ctx.live_ids@ == ctx_end.live_ids@,
                forall|t2: int|
                    0 <= t2 < t ==> self.last_lives@[t2] == (if ctx_end.live_ids@.contains(
                        #[trigger] players_view(self.players)[t2].id,
                    ) {
                        old(self).cycles
                    } else {
                        old(self).last_lives@[t2]
                    }),
                forall|t2: int|
                    t <= t2 < MAX_PLAYERS ==> self.last_lives@[t2] == old(self).last_lives@[t2],
            decreases pcount - t,
        {
            let pl = players_get(&self.players, t);
            let pl_id = pl.id;
            if vec_contains(&ctx.live_ids, pl_id) {
                self.last_lives[t] = self.cycles;
            }
            t = t + 1;
        }
        proof {
            assert(self.processes@.take(procs0.len() as int) =~= stepped);
            assert(self.processes@ =~= self.processes@.take(procs0.len() as int)
                + ctx_end.forks@);
            assert(spec_pass(procs0, stepped, ms, xs));
            assert(spec_pass_result(*old(self), *self, ms, xs));
        }
    }

    /// Moves one unit of the per-cell count from the cell the process left
    /// to the cell it arrived on; the owner count is untouched since the
    /// process kept its owner.
    fn move_cell_count(
        &mut self,
        Ghost(sb): Ghost<Seq<Process>>,
        Ghost(i): Ghost<int>,
        Ghost(p0): Ghost<Process>,
        from: usize,
        to: usize,
    )
        requires
            0 <= i < sb.len(),
            sb[i] == p0,
            old(self).processes@ == sb.update(i, old(self).processes@[i]),
            old(self).processes@[i].pc.spec_addr() == to,
            old(self).processes@[i].owner == p0.owner,
            p0.pc.spec_addr() == from,
            from < MEM_SIZE,
            to < MEM_SIZE,
            old(self).process_count_per_cells@.len() == MEM_SIZE,
            old(self).process_count_by_owner@.len() == MAX_PLAYERS,
            forall|c: int|
                0 <= c < MEM_SIZE ==> old(self).process_count_per_cells@[c] == count_pc(sb, c),
            forall|o: int|
                0 <= o < MAX_PLAYERS ==> old(self).process_count_by_owner@[o] == count_owner(
                    sb,
                    o,
                ),
        ensures
            final(self).process_count_per_cells@.len() == MEM_SIZE,
            forall|c: int|
                0 <= c < MEM_SIZE ==> final(self).process_count_per_cells@[c] == count_pc(
                    final(self).processes@,
                    c,
                ),
            forall|o: int|
                0 <= o < MAX_PLAYERS ==> final(self).process_count_by_owner@[o] == count_owner(
                    final(self).processes@,
                    o,
                ),
            final(self).processes == old(self).processes,
            final(self).memory == old(self).memory,
            final(self).players == old(self).players,
            final(self).pid_pool == old(self).pid_pool,
            final(self).last_lives == old(self).last_lives,
            final(self).cycles == old(self).cycles,
            final(self).last_live_check == old(self).last_live_check,
            final(self).check_interval == old(self).check_interval,
            final(self).live_count_since_last_check == old(self).live_count_since_last_check,
            final(self).checks_without_cycle_decrement == old(self).checks_without_cycle_decrement,
            final(self).process_count_by_owner@.len() == MAX_PLAYERS,
    {
        let ghost p = self.processes@[i];
        let nlen = self.processes.len();
        proof {
            assert(sb.len() == nlen);
            assert(pc_key()(p0) == p0.pc.spec_addr());
            assert(pc_key()(p) == p.pc.spec_addr());
            assert(owner_key()(p0) == p0.owner as int);
            assert(owner_key()(p) == p.owner as int);
            lemma_count_member(sb, pc_key(), i);
            assert(count_pc(sb, from as int) >= 1);
            if to != from {
                lemma_count_other(sb, pc_key(), i, to as int);
            }
            lemma_count_le_len(sb, pc_key(), to as int);
        }
        let ghost cells0 = self.process_count_per_cells@;
        proof {
            assert(cells0[from as int] == count_pc(sb, from as int));
            assert(cells0[to as int] == count_pc(sb, to as int));
        }
        let v = self.process_count_per_cells[from];
        self.process_count_per_cells[from] = v - 1;
        proof {
            assert(self.process_count_per_cells@ == cells0.update(from as int, (v - 1) as usize));
        }
        let w = self.process_count_per_cells[to];
        self.process_count_per_cells[to] = w + 1;
        proof {
            assert(self.process_count_per_cells@ == cells0.update(from as int, (v - 1) as usize)
                .update(to as int, (w + 1) as usize));
            assert forall|c: int| 0 <= c < MEM_SIZE implies self.process_count_per_cells@[c]
                == count_pc(self.processes@, c) by {
                assert(old(self).process_count_per_cells@[c] == count_pc(sb, c));
                assert(pc_key()(sb[i]) == from as int);
                assert(pc_key()(p) == to as int);
                assert(self.processes@ == sb.update(i, p));
                lemma_count_update(sb, pc_key(), i, p, c);
            }
            assert forall|o: int| 0 <= o < MAX_PLAYERS implies self.process_count_by_owner@[o]
                == count_owner(self.processes@, o) by {
                assert(old(self).process_count_by_owner@[o] == count_owner(sb, o));
                assert(owner_key()(sb[i]) == owner_key()(p));
                assert(self.processes@ == sb.update(i, p));
                lemma_count_update(sb, owner_key(), i, p, o);
            }
        }
    }

    /// One cycle of the machine: a quiescent machine does nothing; else
    /// every process takes its scheduling step, memory ages decay, the
    /// cycle counter advances, and - when the check interval has elapsed -
    /// the live check evicts the processes that did not report in. The
    /// whole cycle is pinned by `spec_tick_trace`, witnessed by the pass's
    /// chain of intermediate states.
    pub fn tick(&mut self)
        requires
            old(self).wf(),
        ensures
            final(self).wf(),
            old(self).processes@.len() == 0 ==> *final(self) == *old(self),
            old(self).processes@.len() > 0 ==> final(self).cycles == u32_specs::wrapping_add(
                old(self).cycles,
                1,
            ),
            old(self).processes@.len() > 0 ==> {
                let fired = u32_specs::wrapping_sub(
                    u32_specs::wrapping_add(old(self).cycles, 1),
                    old(self).last_live_check,
                ) >= old(self).check_interval;
                &&& !fired ==> {
                    &&& final(self).last_live_check == old(self).last_live_check
                    &&& final(self).check_interval == old(self).check_interval
                    &&& final(self).checks_without_cycle_decrement == old(
                        self,
                    ).checks_without_cycle_decrement
                }
                &&& fired ==> {
                    &&& final(self).last_live_check == final(self).cycles
                    &&& final(self).live_count_since_last_check == 0
                    &&& forall|i: int|
                        0 <= i < final(self).processes@.len()
                            ==> (#[trigger] final(self).processes@[i]).last_live_cycle > old(
                            self,
                        ).last_live_check
                }
            },
            old(self).processes@.len() > 0 ==> exists|
                ms: Seq<Memory>,
                xs: Seq<crate::instructions::ExecutionContext>,
                merged: Seq<Process>,
            | #[trigger] spec_tick_trace(*old(self), *final(self), ms, xs, merged),
    {
        if self.processes.len() == 0 {
            return;
        }

        self.run_processes();
        let ghost mid = *self;
        let ghost (ms, xs) = choose|
            ms: Seq<Memory>,
            xs: Seq<crate::instructions::ExecutionContext>,
        | spec_pass_result(*old(self), mid, ms, xs);
        let ghost merged = mid.processes@;
        self.memory.tick();
        self.cycles = self.cycles.wrapping_add(1);

        if self.cycles.wrapping_sub(self.last_live_check) >= self.check_interval {
            self.live_check();
        }
        proof {
            assert(spec_pass_result(*old(self), mid, ms, xs));
            crate::memory::lemma_mem_lens(self.memory);
            assert(spec_tick_trace(*old(self), *self, ms, xs, merged));
        }
    }
}

/// Everything one whole tick of a non-quiescent machine does, witnessed
/// by the scheduling pass's chain of intermediate states `ms`/`xs` and the
/// merged process list `merged` (the stepped processes with the tick's
/// forks appended at the tail): the pass steps every process in reverse
/// order, memory then decays once, the cycle advances, each player named
/// by a `live` is stamped, and - exactly when the check interval has
/// elapsed - the live check keeps precisely the processes that reported
/// in, and shrinks the interval by `CYCLE_DELTA` exactly when enough
/// `live`s were counted or too many checks passed dry.
pub open spec fn spec_tick_trace(
    pre: VirtualMachine,
    post: VirtualMachine,
    ms: Seq<Memory>,
    xs: Seq<crate::instructions::ExecutionContext>,
    merged: Seq<Process>,
) -> bool {
    let n = pre.processes@.len() as int;
    let last = ms.len() - 1;
    &&& ms.len() == n + 1
    &&& xs.len() == n + 1
    &&& ms[0] == pre.memory
    &&& xs[0].cycle == pre.cycles
    &&& xs[0].live_count == pre.live_count_since_last_check
    &&& xs[0].forks@ == Seq::<Process>::empty()
    &&& xs[0].live_ids@ == Seq::<PlayerId>::empty()
    &&& xs[0].pid_pool.0 == pre.pid_pool.0
    &&& spec_pass(pre.processes@, merged.take(n), ms, xs)
    &&& merged == merged.take(n) + xs[last].forks@
    // after the pass, every cell's age decays once; values and owners stay
    &&& post.memory.values@ == ms[last].values@
    &&& post.memory.owners@ == ms[last].owners@
    &&& post.memory.ages@.len() == MEM_SIZE
    &&& forall|c: int|
        0 <= c < MEM_SIZE ==> post.memory.ages@[c] == (if ms[last].ages@[c] > 0 {
            (ms[last].ages@[c] - 1) as crate::memory::CellAge
        } else {
            0 as crate::memory::CellAge
        })
    &&& post.pid_pool.0 == xs[last].pid_pool.0
    &&& post.cycles == u32_specs::wrapping_add(pre.cycles, 1)
    &&& post.players == pre.players
    &&& post.last_lives@.len() == MAX_PLAYERS
    &&& forall|t: int|
        0 <= t < players_view(pre.players).len() ==> post.last_lives@[t] == (
        if xs[last].live_ids@.contains(#[trigger] players_view(pre.players)[t].id) {
            pre.cycles
        } else {
            pre.last_lives@[t]
        })
    &&& {
        let fired = u32_specs::wrapping_sub(
            u32_specs::wrapping_add(pre.cycles, 1),
            pre.last_live_check,
        ) >= pre.check_interval;
        if fired {
            let shortened = xs[last].live_count >= NBR_LIVE;
            let interval1 = if shortened {
                pre.check_interval.saturating_sub(CYCLE_DELTA)
            } else {
                pre.check_interval
            };
            let checks1: u32 = if shortened {
                0
            } else {
                (pre.checks_without_cycle_decrement + 1) as u32
            };
            &&& post.processes@ == surviving(merged, pre.last_live_check as int)
            &&& post.live_count_since_last_check == 0
            &&& post.last_live_check == post.cycles
            &&& post.check_interval == (if checks1 >= MAX_CHECKS {
                interval1.saturating_sub(CYCLE_DELTA)
            } else {
                interval1
            })
            &&& post.checks_without_cycle_decrement == (if checks1 >= MAX_CHECKS {
                0u32
            } else {
                checks1
            })
        } else {
            &&& post.processes@ == merged
            &&& post.live_count_since_last_check == xs[last].live_count
            &&& post.last_live_check == pre.last_live_check
            &&& post.check_interval == pre.check_interval
            &&& post.checks_without_cycle_decrement == pre.checks_without_cycle_decrement
        }
    }
}

/// The values of `s` below index `n`, added up.
pub open spec fn sum_cells(s: Seq<usize>, n: int) -> int
    decreases n,
{
    if n <= 0 {
        0
    } else {
        sum_cells(s, n - 1) + s[n - 1]
    }
}

proof fn lemma_sum_cells_matches(s: Seq<usize>, procs: Seq<Process>, key: spec_fn(Process) -> int, n: int)
    requires
        forall|c: int| 0 <= c < n ==> s[c] == count_key(procs, key, c),
    ensures
        sum_cells(s, n) == sum_count(procs, key, n),
    decreases n,
{
    if n > 0 {
        lemma_sum_cells_matches(s, procs, key, n - 1);
    }
}

/// In a well-formed machine, the per-cell process counts add up to the
/// number of processes, and so do the per-owner counts.
pub proof fn lemma_counts_sum(vm: &VirtualMachine)
    requires
        vm.wf(),
    ensures
        sum_cells(vm.process_count_per_cells@, MEM_SIZE as int) == vm.processes@.len(),
        sum_cells(vm.process_count_by_owner@, MAX_PLAYERS as int) == vm.processes@.len(),
{
    assert forall|i: int| 0 <= i < vm.processes@.len() implies 0 <= #[trigger] pc_key()(
        vm.processes@[i],
    ) < MEM_SIZE by {
        assert(vm.processes@[i].wf());
    }
    assert forall|i: int| 0 <= i < vm.processes@.len() implies 0 <= #[trigger] owner_key()(
        vm.processes@[i],
    ) < MAX_PLAYERS by {
        assert(vm.processes@[i].wf());
    }
    lemma_sum_count_is_len(vm.processes@, pc_key(), MEM_SIZE as int);
    lemma_sum_count_is_len(vm.processes@, owner_key(), MAX_PLAYERS as int);
    lemma_sum_cells_matches(vm.process_count_per_cells@, vm.processes@, pc_key(), MEM_SIZE as int);
    lemma_sum_cells_matches(
        vm.process_count_by_owner@,
        vm.processes@,
        owner_key(),
        MAX_PLAYERS as int,
    );
}

/// Whether a vector of player ids holds `x`.
fn vec_contains(v: &Vec<PlayerId>, x: PlayerId) -> (r: bool)
    ensures
        r == v@.contains(x),
{
    let n = v.len();
    let mut i: usize = 0;
    while i < n
        invariant
            0 <= i <= n == v@.len(),
            forall|j: int| 0 <= j < i ==> v@[j] != x,
        decreases n - i,
    {
        if *vstd::std_specs::vec::vec_index(v, i) == x {
            assert(v@[i as int] == x);
            return true;
        }
        i = i + 1;
    }
    false
}

impl Default for VirtualMachine {
    fn default() -> (r: Self)
        ensures
            r.wf(),
            r.processes@.len() == 0,
    {
        VirtualMachine::new()
    }
}

} // verus!
