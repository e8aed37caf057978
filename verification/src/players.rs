//! The table of loaded players, held in a fixed-capacity vector of the
//! `arrayvec` crate. Verus sees the vector through `players_view` and the
//! small trusted wrappers below; everything built on them is verified.

use vstd::prelude::*;
use arrayvec::ArrayVec;
use crate::MAX_PLAYERS;
use crate::vm_types::Player;

verus! {

#[verifier::external_type_specification]
#[verifier::external_body]
#[verifier::reject_recursive_types(T)]
pub struct ExArrayVec<T, const CAP: usize>(ArrayVec<T, CAP>);

/// The players the vector holds, in insertion order.
pub uninterp spec fn players_view(v: ArrayVec<Player, MAX_PLAYERS>) -> Seq<Player>;

/// Relies on `arrayvec::ArrayVec::new`: the new vector is empty.
#[verifier::external_body]
pub fn players_new() -> (r: ArrayVec<Player, MAX_PLAYERS>)
    ensures
        players_view(r) == Seq::<Player>::empty(),
{
    ArrayVec::new()
}

/// Relies on `arrayvec::ArrayVec::push`: appends the element at the back.
/// It panics on a full vector, which the precondition rules out.
#[verifier::external_body]
pub fn players_push(v: &mut ArrayVec<Player, MAX_PLAYERS>, p: Player)
    requires
        players_view(*old(v)).len() < MAX_PLAYERS,
    ensures
        players_view(*final(v)) == players_view(*old(v)).push(p),
{
    v.push(p)
}

/// Relies on `arrayvec::ArrayVec::len`: the number of elements, which never
/// exceeds the vector's fixed capacity.
#[verifier::external_body]
pub fn players_len(v: &ArrayVec<Player, MAX_PLAYERS>) -> (r: usize)
    ensures
        r == players_view(*v).len(),
        r <= MAX_PLAYERS,
{
    v.len()
}

/// Relies on indexing through `arrayvec::ArrayVec`'s deref to a slice. It
/// panics out of range, which the precondition rules out.
#[verifier::external_body]
pub fn players_get(v: &ArrayVec<Player, MAX_PLAYERS>, i: usize) -> (r: &Player)
    requires
        i < players_view(*v).len(),
    ensures
        *r == players_view(*v)[i as int],
{
    &v[i]
}

} // verus!
