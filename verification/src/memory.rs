//! The circular memory arena: a fixed-size byte array indexed modulo its
//! length, with a parallel owner tag and a decaying age for every cell.

use vstd::prelude::*;
use vstd::arithmetic::div_mod::{
    lemma_add_mod_noop, lemma_mod_self_0, lemma_mod_twice, lemma_mod_bound,
};
use crate::MEM_SIZE;
use crate::bytes::{be16_of, be32_of, i16_from_be, i32_from_be, u32_be_byte, be32_byte};

verus! {

/// A fixed-size array whose every access wraps around: index `i` denotes
/// cell `i % LEN`.
pub struct WrappingArray<T, const LEN: usize> {
    items: [T; LEN],
}

impl<T, const LEN: usize> View for WrappingArray<T, LEN> {
    type V = Seq<T>;

    closed spec fn view(&self) -> Seq<T> {
        self.items@
    }
}

impl<T, const LEN: usize> WrappingArray<T, LEN> {
    pub fn from_array(items: [T; LEN]) -> (r: Self)
        ensures
            r@ == items@,
    {
        WrappingArray { items }
    }

    pub fn get(&self, i: usize) -> (r: &T)
        requires
            LEN > 0,
        ensures
            *r == self@[i as int % LEN as int],
    {
        proof {
            lemma_mod_bound(i as int, LEN as int);
        }
        &self.items[i % LEN]
    }

    pub fn set(&mut self, i: usize, v: T)
        requires
            LEN > 0,
        ensures
            final(self)@ == old(self)@.update(i as int % LEN as int, v),
    {
        proof {
            lemma_mod_bound(i as int, LEN as int);
        }
        self.items[i % LEN] = v;
    }

    pub fn len(&self) -> (r: usize)
        ensures
            r == self@.len(),
    {
        LEN
    }
}

/// Indexing is circular: offsetting an index by the array's length reaches
/// the same cell.
pub proof fn lemma_index_wraps<T, const LEN: usize>(a: &WrappingArray<T, LEN>, i: int)
    requires
        LEN > 0,
        i >= 0,
    ensures
        a@[(i + LEN) % LEN as int] == a@[i % LEN as int],
{
    lemma_add_mod_noop(i, LEN as int, LEN as int);
    lemma_mod_self_0(LEN as int);
    lemma_mod_twice(i, LEN as int);
}

/// Tag of the player that last wrote a memory cell.
pub type Owner = u8;

/// Owner tag of a cell never written by any player.
pub const NO_OWNER: Owner = 255;

pub type CellAge = u16;

/// Age given to a cell when it is written; it decays by one per tick.
pub const MAX_AGE: CellAge = 1024;

pub struct Memory {
    pub values: WrappingArray<u8, MEM_SIZE>,
    pub ages: WrappingArray<CellAge, MEM_SIZE>,
    pub owners: WrappingArray<Owner, MEM_SIZE>,
}

/// The arena cell denoted by an arbitrary index.
pub open spec fn wrap(i: int) -> int {
    i % (MEM_SIZE as int)
}

/// How far cell `c` lies ahead of position `at`, walking forward with
/// wrap-around: the unique `k` in `[0, MEM_SIZE)` with `(at + k) % MEM_SIZE == c`.
pub open spec fn wrap_dist(at: int, c: int) -> int {
    (c - at) % (MEM_SIZE as int)
}

/// The signed 32-bit big-endian value stored at `at`, read with wrap-around.
pub open spec fn mem_read_i32(vals: Seq<u8>, at: int) -> i32 {
    be32_of(vals[wrap(at)], vals[wrap(at + 1)], vals[wrap(at + 2)], vals[wrap(at + 3)])
}

/// The signed 16-bit big-endian value stored at `at`, read with wrap-around.
pub open spec fn mem_read_i16(vals: Seq<u8>, at: int) -> i16 {
    be16_of(vals[wrap(at)], vals[wrap(at + 1)])
}

/// Exactly how `write_i32` transforms the arena: the four big-endian bytes
/// of `value` land at `at..at+4` (wrapped), those cells take `owner` and a
/// fresh age, and every other cell keeps its value, owner and age.
pub open spec fn wrote_i32(pre: Memory, post: Memory, value: i32, owner: Owner, at: int) -> bool {
    &&& post.values@.len() == MEM_SIZE
    &&& forall|k: int|
        0 <= k < 4 ==> {
            &&& post.values@[#[trigger] wrap(at + k)] == crate::bytes::be32_byte(value as u32, k)
            &&& post.owners@[wrap(at + k)] == owner
            &&& post.ages@[wrap(at + k)] == MAX_AGE
        }
    &&& forall|c: int|
        0 <= c < MEM_SIZE && wrap_dist(at, c) >= 4 ==> {
            &&& post.values@[c] == pre.values@[c]
            &&& post.owners@[c] == pre.owners@[c]
            &&& post.ages@[c] == pre.ages@[c]
        }
}

/// Each of the arena's three arrays holds exactly `MEM_SIZE` cells.
pub proof fn lemma_mem_lens(m: Memory)
    ensures
        m.values@.len() == MEM_SIZE,
        m.ages@.len() == MEM_SIZE,
        m.owners@.len() == MEM_SIZE,
{
    broadcast use vstd::array::group_array_axioms;

}

impl Memory {
    pub fn size(&self) -> (r: usize)
        ensures
            r == MEM_SIZE,
    {
        MEM_SIZE
    }

    /// Every cell's age shrinks by one, stopping at zero.
    pub fn tick(&mut self)
        ensures
            final(self).values@ == old(self).values@,
            final(self).owners@ == old(self).owners@,
            final(self).ages@.len() == old(self).ages@.len(),
            forall|c: int|
                0 <= c < MEM_SIZE ==> final(self).ages@[c] == (if old(self).ages@[c] > 0 {
                    (old(self).ages@[c] - 1) as CellAge
                } else {
                    0 as CellAge
                }),
    {
        let mut i: usize = 0;
        while i < MEM_SIZE
            invariant
                i <= MEM_SIZE,
                self.values@ == old(self).values@,
                self.owners@ == old(self).owners@,
                self.ages@.len() == old(self).ages@.len() == MEM_SIZE,
                forall|c: int|
                    0 <= c < i ==> self.ages@[c] == (if old(self).ages@[c] > 0 {
                        (old(self).ages@[c] - 1) as CellAge
                    } else {
                        0 as CellAge
                    }),
                forall|c: int| i <= c < MEM_SIZE ==> self.ages@[c] == old(self).ages@[c],
            decreases MEM_SIZE - i,
        {
            proof {
                lemma_mod_bound(i as int, MEM_SIZE as int);
                assert(i as int % MEM_SIZE as int == i as int) by {
                    vstd::arithmetic::div_mod::lemma_small_mod(i as nat, MEM_SIZE as nat);
                };
            }
            let a = *self.ages.get(i);
            self.ages.set(i, if a > 0 { a - 1 } else { 0 });
            i = i + 1;
        }
    }

    pub fn read_byte(&self, at: usize) -> (r: u8)
        ensures
            r == self.values@[wrap(at as int)],
    {
        *self.values.get(at)
    }

    pub fn read_i32(&self, at: usize) -> (r: i32)
        ensures
            r == mem_read_i32(self.values@, at as int),
    {
        let a = at % MEM_SIZE;
        proof {
            lemma_mod_reduce_add(at as int, 0);
            lemma_mod_reduce_add(at as int, 1);
            lemma_mod_reduce_add(at as int, 2);
            lemma_mod_reduce_add(at as int, 3);
        }
        i32_from_be(
            *self.values.get(a),
            *self.values.get(a + 1),
            *self.values.get(a + 2),
            *self.values.get(a + 3),
        )
    }

    pub fn read_i16(&self, at: usize) -> (r: i16)
        ensures
            r == mem_read_i16(self.values@, at as int),
    {
        let a = at % MEM_SIZE;
        proof {
            lemma_mod_reduce_add(at as int, 0);
            lemma_mod_reduce_add(at as int, 1);
        }
        i16_from_be(*self.values.get(a), *self.values.get(a + 1))
    }

    /// Writes `bytes` starting at `at` with wrap-around; every written cell
    /// takes `owner` as its owner tag and starts a fresh age.
    pub fn write(&mut self, at: usize, bytes: &[u8], owner: Owner)
        requires
            bytes@.len() <= MEM_SIZE,
        ensures
            final(self).values@.len() == MEM_SIZE,
            forall|k: int|
                0 <= k < bytes@.len() ==> {
                    &&& final(self).values@[wrap(at + k)] == bytes@[k]
                    &&& final(self).owners@[wrap(at + k)] == owner
                    &&& final(self).ages@[wrap(at + k)] == MAX_AGE
                },
            forall|c: int|
                0 <= c < MEM_SIZE && wrap_dist(at as int, c) >= bytes@.len() ==> {
                    &&& final(self).values@[c] == old(self).values@[c]
                    &&& final(self).owners@[c] == old(self).owners@[c]
                    &&& final(self).ages@[c] == old(self).ages@[c]
                },
    {
        let len = bytes.len();
        let mut k: usize = 0;
        while k < len
            invariant
                k <= len == bytes@.len() <= MEM_SIZE,
                self.values@.len() == MEM_SIZE,
                self.ages@.len() == MEM_SIZE,
                self.owners@.len() == MEM_SIZE,
                forall|j: int|
                    0 <= j < k ==> {
                        &&& self.values@[wrap(at + j)] == bytes@[j]
                        &&& self.owners@[wrap(at + j)] == owner
                        &&& self.ages@[wrap(at + j)] == MAX_AGE
                    },
                forall|c: int|
                    0 <= c < MEM_SIZE && wrap_dist(at as int, c) >= k ==> {
                        &&& self.values@[c] == old(self).values@[c]
                        &&& self.owners@[c] == old(self).owners@[c]
                        &&& self.ages@[c] == old(self).ages@[c]
                    },
            decreases len - k,
        {
            let a = (at % MEM_SIZE) + k;
            proof {
                lemma_mod_reduce_add(at as int, k as int);
                lemma_mod_bound(at as int + k as int, MEM_SIZE as int);
                lemma_wrap_dist_inverse(at as int, k as int);
                assert forall|j: int| 0 <= j < k implies #[trigger] wrap(at + j) != wrap(
                    at + k as int,
                ) by {
                    lemma_wrap_dist_inverse(at as int, j);
                }
            }
            self.values.set(a, bytes[k]);
            self.owners.set(a, owner);
            self.ages.set(a, MAX_AGE);
            proof {
                assert(a as int % MEM_SIZE as int == wrap(at + k));
                assert(self.values@[wrap(at + k as int)] == bytes@[k as int]);
                assert(self.owners@[wrap(at + k as int)] == owner);
                assert(self.ages@[wrap(at + k as int)] == MAX_AGE);
                assert forall|j: int| 0 <= j < k + 1 implies {
                    &&& self.values@[#[trigger] wrap(at + j)] == bytes@[j]
                    &&& self.owners@[wrap(at + j)] == owner
                    &&& self.ages@[wrap(at + j)] == MAX_AGE
                } by {
                    if j < k {
                        lemma_wrap_dist_inverse(at as int, j);
                        lemma_wrap_dist_inverse(at as int, k as int);
                        assert(wrap_dist(at as int, wrap(at + j)) == j);
                        assert(wrap_dist(at as int, wrap(at + k as int)) == k);
                        assert(wrap(at + j) != wrap(at + k as int));
                    } else {
                        assert(j == k);
                    }
                }
            }
            k = k + 1;
        }
    }

    /// Writes the four big-endian bytes of `value` at `at`.
    pub fn write_i32(&mut self, value: i32, owner: Owner, at: usize)
        ensures
            wrote_i32(*old(self), *final(self), value, owner, at as int),
    {
        let w = #[verifier::truncate] (value as u32);
        let b: [u8; 4] = [
            u32_be_byte(w, 0),
            u32_be_byte(w, 1),
            u32_be_byte(w, 2),
            u32_be_byte(w, 3),
        ];
        self.write(at, &b, owner);
    }
}

impl Default for Memory {
    /// A fresh arena: all zero bytes, unowned, fully aged.
    fn default() -> (r: Self)
        ensures
            r.values@ == Seq::new(MEM_SIZE as nat, |i: int| 0u8),
            r.ages@ == Seq::new(MEM_SIZE as nat, |i: int| MAX_AGE),
            r.owners@ == Seq::new(MEM_SIZE as nat, |i: int| NO_OWNER),
    {
        let values = vstd::array::array_fill_for_copy_types::<u8, MEM_SIZE>(0);
        let ages = vstd::array::array_fill_for_copy_types::<CellAge, MEM_SIZE>(MAX_AGE);
        let owners = vstd::array::array_fill_for_copy_types::<Owner, MEM_SIZE>(NO_OWNER);
        Memory {
            values: WrappingArray::from_array(values),
            ages: WrappingArray::from_array(ages),
            owners: WrappingArray::from_array(owners),
        }
    }
}

/// `(at % MEM_SIZE + k) % MEM_SIZE` reaches the same cell as `(at + k) % MEM_SIZE`.
proof fn lemma_mod_reduce_add(at: int, k: int)
    requires
        at >= 0,
        k >= 0,
    ensures
        wrap(at % (MEM_SIZE as int) + k) == wrap(at + k),
{
    let m = MEM_SIZE as int;
    lemma_mod_twice(at, m);
    lemma_add_mod_noop(at % m, k, m);
    lemma_add_mod_noop(at, k, m);
    lemma_mod_twice(k, m);
}

/// Walking `k < MEM_SIZE` cells forward from `at` lands on the unique cell
/// whose distance from `at` is `k`.
proof fn lemma_wrap_dist_inverse(at: int, k: int)
    requires
        at >= 0,
        0 <= k < MEM_SIZE,
    ensures
        wrap_dist(at, wrap(at + k)) == k,
{
    let m = MEM_SIZE as int;
    // (((at + k) % m) - at) % m == ((at + k) - at) % m == k % m == k
    lemma_sub_mod_noop_left(at + k, at, m);
    vstd::arithmetic::div_mod::lemma_small_mod(k as nat, m as nat);
}

/// Subtracting `b` commutes with reducing the left operand modulo `m`.
proof fn lemma_sub_mod_noop_left(a: int, b: int, m: int)
    requires
        m > 0,
    ensures
        (a % m - b) % m == (a - b) % m,
{
    vstd::arithmetic::div_mod::lemma_sub_mod_noop(a, b, m);
    vstd::arithmetic::div_mod::lemma_mod_twice(b, m);
    vstd::arithmetic::div_mod::lemma_sub_mod_noop(a % m, b, m);
    vstd::arithmetic::div_mod::lemma_mod_twice(a, m);
}

} // verus!
