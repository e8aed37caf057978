//! The program counter: a modular address into the arena, with two offset
//! modes that differ in how far an operand may reach.

use vstd::prelude::*;
use vstd::arithmetic::div_mod::{
    lemma_add_mod_noop, lemma_mod_add_multiples_vanish, lemma_mod_bound, lemma_mod_twice,
    lemma_small_mod, lemma_sub_mod_noop,
};
use crate::{IDX_MOD, MEM_SIZE};
use crate::vm_types::OffsetType;

verus! {

/// An address into the arena, always in `[0, MEM_SIZE)`.
#[derive(Debug, Clone, Copy)]
pub struct ProgramCounter {
    addr: usize,
}

/// Truncating remainder, as the `%` of the source language computes it:
/// the result carries the sign of `o` and `|result| < r`.
pub open spec fn trunc_mod(o: int, r: int) -> int
    recommends
        r > 0,
{
    if o >= 0 {
        o % r
    } else {
        -((-o) % r)
    }
}

/// The operand-offset modulus of each reach.
pub open spec fn spec_reach(ot: OffsetType) -> int {
    match ot {
        OffsetType::Limited => IDX_MOD as int,
        OffsetType::Long => MEM_SIZE as int,
    }
}

/// Where a program counter at `p` lands after following operand offset `o`
/// under a reach of modulus `r`.
pub open spec fn pc_offset_spec(p: int, o: int, r: int) -> int {
    (p + trunc_mod(o, r) + MEM_SIZE) % (MEM_SIZE as int)
}

impl ProgramCounter {
    pub closed spec fn spec_addr(&self) -> int {
        self.addr as int
    }

    pub fn new() -> (r: Self)
        ensures
            r.spec_addr() == 0,
    {
        ProgramCounter { addr: 0 }
    }

    /// A counter at `at`, reduced into the arena.
    pub fn at(at: usize) -> (r: Self)
        ensures
            r.spec_addr() == at as int % (MEM_SIZE as int),
    {
        proof {
            lemma_mod_bound(at as int, MEM_SIZE as int);
        }
        ProgramCounter { addr: at % MEM_SIZE }
    }

    pub fn addr(&self) -> (r: usize)
        ensures
            r == self.spec_addr(),
            r < MEM_SIZE,
    {
        proof {
            use_type_invariant(self);
        }
        self.addr
    }

    /// Advances by a signed delta, wrapping around the arena.
    pub fn advance(&mut self, offset: isize)
        ensures
            final(self).spec_addr() == (old(self).spec_addr() + offset) % (MEM_SIZE as int),
    {
        proof {
            use_type_invariant(&*self);
        }
        let m = MEM_SIZE;
        if offset >= 0 {
            let eff = (offset as usize) % m;
            proof {
                lemma_mod_bound(offset as int, m as int);
                lemma_add_mod_noop(self.addr as int, offset as int, m as int);
                lemma_small_mod(self.addr as nat, m as nat);
                lemma_mod_twice(offset as int, m as int);
                lemma_mod_bound(self.addr as int + eff as int, m as int);
            }
            self.addr = (self.addr + eff) % m;
        } else {
            let neg: usize = ((-(offset + 1)) as usize) + 1;
            let mag = neg % m;
            proof {
                lemma_mod_bound(neg as int, m as int);
                lemma_wrap_sub(self.addr as int, neg as int, m as int);
                lemma_mod_bound(self.addr as int + m as int - mag as int, m as int);
            }
            self.addr = (self.addr + m - mag) % m;
        }
    }

    /// Follows operand offset `offset` under the given reach, landing on
    /// `(p + (offset % reach) + MEM_SIZE) % MEM_SIZE` where `%` on the offset
    /// truncates toward zero.
    pub fn offset(&self, offset: isize, offset_type: OffsetType) -> (r: usize)
        ensures
            r == pc_offset_spec(self.spec_addr(), offset as int, spec_reach(offset_type)),
            r < MEM_SIZE,
    {
        proof {
            use_type_invariant(self);
        }
        let reach = match offset_type {
            OffsetType::Limited => IDX_MOD,
            OffsetType::Long => MEM_SIZE,
        };
        let m = MEM_SIZE;
        if offset >= 0 {
            let eff = (offset as usize) % reach;
            proof {
                lemma_mod_bound(offset as int, reach as int);
                lemma_mod_bound(self.addr as int + eff as int + m as int, m as int);
            }
            (self.addr + eff + m) % m
        } else {
            let neg: usize = ((-(offset + 1)) as usize) + 1;
            let mag = neg % reach;
            proof {
                lemma_mod_bound(neg as int, reach as int);
                lemma_mod_bound(self.addr as int + m as int - mag as int, m as int);
            }
            (self.addr + m - mag) % m
        }
    }
}

impl ProgramCounter {
    #[verifier::type_invariant]
    spec fn type_inv(self) -> bool {
        self.addr < MEM_SIZE
    }
}

/// `(a + m - (n % m)) % m == (a - n) % m`: stepping back by `n` is the same
/// as stepping forward by the complement of its remainder.
proof fn lemma_wrap_sub(a: int, n: int, m: int)
    requires
        a >= 0,
        n >= 0,
        m > 0,
    ensures
        (a + m - n % m) % m == (a - n) % m,
{
    lemma_mod_bound(n, m);
    lemma_mod_add_multiples_vanish(a - n % m, m);
    // (a - n % m) % m == (a - n) % m
    lemma_sub_mod_noop(a, n, m);
    lemma_mod_twice(a, m);
    lemma_sub_mod_noop(a, n % m, m);
    lemma_mod_twice(n, m);
}

} // verus!
