//! Counting processes by the cell their program counter sits on and by
//! their owner. The machine keeps both counts incrementally; the lemmas
//! here justify each increment and decrement, and the sum argument that
//! the counts always add up to the number of processes.

use vstd::prelude::*;
use crate::process::Process;

verus! {

/// How many processes of `s` have `key` equal to `c`.
pub open spec fn count_key(s: Seq<Process>, key: spec_fn(Process) -> int, c: int) -> int
    decreases s.len(),
{
    if s.len() == 0 {
        0
    } else {
        count_key(s.drop_last(), key, c) + if key(s.last()) == c {
            1int
        } else {
            0int
        }
    }
}

/// Keying a process by the arena cell its program counter sits on.
pub open spec fn pc_key() -> spec_fn(Process) -> int {
    |p: Process| p.pc.spec_addr()
}

/// Keying a process by its owner.
pub open spec fn owner_key() -> spec_fn(Process) -> int {
    |p: Process| p.owner as int
}

/// Processes of `s` whose program counter sits on cell `c`.
pub open spec fn count_pc(s: Seq<Process>, c: int) -> int {
    count_key(s, pc_key(), c)
}

/// Processes of `s` owned by player `o`.
pub open spec fn count_owner(s: Seq<Process>, o: int) -> int {
    count_key(s, owner_key(), o)
}

/// A count never exceeds the sequence's length.
pub proof fn lemma_count_le_len(s: Seq<Process>, key: spec_fn(Process) -> int, c: int)
    ensures
        0 <= count_key(s, key, c) <= s.len(),
    decreases s.len(),
{
    if s.len() > 0 {
        lemma_count_le_len(s.drop_last(), key, c);
    }
}

/// Appending one process raises exactly its own key's count by one.
pub proof fn lemma_count_push(s: Seq<Process>, key: spec_fn(Process) -> int, p: Process, c: int)
    ensures
        count_key(s.push(p), key, c) == count_key(s, key, c) + if key(p) == c {
            1int
        } else {
            0int
        },
{
    assert(s.push(p).drop_last() =~= s);
    assert(s.push(p).last() == p);
}

/// Replacing the process at `i` moves one unit of count from the old
/// process's key to the new one's.
pub proof fn lemma_count_update(s: Seq<Process>, key: spec_fn(Process) -> int, i: int, p: Process, c: int)
    requires
        0 <= i < s.len(),
    ensures
        count_key(s.update(i, p), key, c) == count_key(s, key, c) - (if key(s[i]) == c {
            1int
        } else {
            0int
        }) + if key(p) == c {
            1int
        } else {
            0int
        },
    decreases s.len(),
{
    if i == s.len() - 1 {
        assert(s.update(i, p).drop_last() =~= s.drop_last());
        assert(s.update(i, p).last() == p);
    } else {
        assert(s.update(i, p).drop_last() =~= s.drop_last().update(i, p));
        assert(s.update(i, p).last() == s.last());
        lemma_count_update(s.drop_last(), key, i, p, c);
    }
}

/// Counting over one more element of a prefix.
pub proof fn lemma_count_take_step(s: Seq<Process>, key: spec_fn(Process) -> int, j: int, c: int)
    requires
        0 <= j < s.len(),
    ensures
        count_key(s.take(j + 1), key, c) == count_key(s.take(j), key, c) + if key(s[j]) == c {
            1int
        } else {
            0int
        },
{
    assert(s.take(j + 1).drop_last() =~= s.take(j));
    assert(s.take(j + 1).last() == s[j]);
}

/// Every process is counted under its own key.
pub proof fn lemma_count_member(s: Seq<Process>, key: spec_fn(Process) -> int, i: int)
    requires
        0 <= i < s.len(),
    ensures
        count_key(s, key, key(s[i])) >= 1,
    decreases s.len(),
{
    if i == s.len() - 1 {
        lemma_count_le_len(s.drop_last(), key, key(s[i]));
    } else {
        lemma_count_member(s.drop_last(), key, i);
        assert(s.drop_last()[i] == s[i]);
    }
}

/// A key some process does not have is counted at most `len - 1` times.
pub proof fn lemma_count_other(s: Seq<Process>, key: spec_fn(Process) -> int, i: int, c: int)
    requires
        0 <= i < s.len(),
        key(s[i]) != c,
    ensures
        count_key(s, key, c) <= s.len() - 1,
    decreases s.len(),
{
    if i == s.len() - 1 {
        lemma_count_le_len(s.drop_last(), key, c);
    } else {
        lemma_count_other(s.drop_last(), key, i, c);
        assert(s.drop_last()[i] == s[i]);
    }
}

/// The counts of the cells `0..n`, added up.
pub open spec fn sum_count(s: Seq<Process>, key: spec_fn(Process) -> int, n: int) -> int
    decreases n,
{
    if n <= 0 {
        0
    } else {
        sum_count(s, key, n - 1) + count_key(s, key, n - 1)
    }
}

proof fn lemma_sum_count_empty(key: spec_fn(Process) -> int, n: int)
    ensures
        sum_count(Seq::<Process>::empty(), key, n) == 0,
    decreases n,
{
    if n > 0 {
        lemma_sum_count_empty(key, n - 1);
    }
}

proof fn lemma_sum_count_push(s: Seq<Process>, key: spec_fn(Process) -> int, p: Process, n: int)
    requires
        0 <= key(p) < n,
    ensures
        sum_count(s.push(p), key, n) == sum_count(s, key, n) + 1,
    decreases n,
{
    if n <= 0 {
    } else {
        lemma_count_push(s, key, p, n - 1);
        if key(p) == n - 1 {
            assert forall|c: int| 0 <= c < n - 1 implies count_key(s, key, c) == count_key(
                s.push(p),
                key,
                c,
            ) by {
                lemma_count_push(s, key, p, c);
            }
            lemma_sum_count_same(s, s.push(p), key, n - 1);
        } else {
            lemma_sum_count_push(s, key, p, n - 1);
        }
    }
}

/// Two sequences with the same counts below `n` have the same sum below `n`.
proof fn lemma_sum_count_same(a: Seq<Process>, b: Seq<Process>, key: spec_fn(Process) -> int, n: int)
    requires
        forall|c: int| 0 <= c < n ==> count_key(a, key, c) == count_key(b, key, c),
    ensures
        sum_count(a, key, n) == sum_count(b, key, n),
    decreases n,
{
    if n > 0 {
        lemma_sum_count_same(a, b, key, n - 1);
    }
}

/// When every process's key lies in `0..n`, the counts of `0..n` add up to
/// the number of processes.
pub proof fn lemma_sum_count_is_len(s: Seq<Process>, key: spec_fn(Process) -> int, n: int)
    requires
        forall|i: int| 0 <= i < s.len() ==> 0 <= #[trigger] key(s[i]) < n,
    ensures
        sum_count(s, key, n) == s.len(),
    decreases s.len(),
{
    if s.len() == 0 {
        assert(s =~= Seq::<Process>::empty());
        lemma_sum_count_empty(key, n);
    } else {
        let t = s.drop_last();
        assert(t.push(s.last()) =~= s);
        assert(forall|i: int| 0 <= i < t.len() ==> 0 <= #[trigger] key(t[i]) < n);
        assert(0 <= key(s[s.len() - 1]) < n);
        lemma_sum_count_is_len(t, key, n);
        lemma_sum_count_push(t, key, s.last(), n);
    }
}

/// A prefix never counts more than the whole.
pub proof fn lemma_count_take_le(s: Seq<Process>, key: spec_fn(Process) -> int, j: int, c: int)
    requires
        0 <= j <= s.len(),
    ensures
        count_key(s.take(j), key, c) <= count_key(s, key, c),
    decreases s.len() - j,
{
    if j == s.len() {
        assert(s.take(j) =~= s);
    } else {
        lemma_count_take_step(s, key, j, c);
        lemma_count_take_le(s, key, j + 1, c);
    }
}

/// A key that no process has counts zero.
pub proof fn lemma_count_absent(s: Seq<Process>, key: spec_fn(Process) -> int, c: int)
    requires
        forall|i: int| 0 <= i < s.len() ==> #[trigger] key(s[i]) != c,
    ensures
        count_key(s, key, c) == 0,
    decreases s.len(),
{
    if s.len() > 0 {
        assert(forall|i: int| 0 <= i < s.drop_last().len() ==> #[trigger] key(s.drop_last()[i])
            != c);
        lemma_count_absent(s.drop_last(), key, c);
        assert(key(s[s.len() - 1]) != c);
    }
}

} // verus!
