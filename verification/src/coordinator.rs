//! The update coordinator: per-user mutual exclusion for membership
//! updates.
//!
//! The deployed system keeps one mutex per user in a read-write-locked map;
//! this module models the set of users whose update lock is currently held.
//! An acquisition is granted exactly when the user's lock is free, so two
//! membership-update sequences for the same user can never be in flight at
//! once, while different users never block each other.

use crate::strutil::str_eq;
use vstd::prelude::*;

verus! {

/// The set of users whose update lock is held, as a duplicate-free row
/// sequence.
pub struct UpdateLocks {
    held: Vec<String>,
}

impl View for UpdateLocks {
    type V = Seq<Seq<char>>;

    closed spec fn view(&self) -> Seq<Seq<char>> {
        self.held@.map_values(|s: String| s@)
    }
}

/// The lock set after a grant attempt for `u`.
pub open spec fn acquire_state(held: Seq<Seq<char>>, u: Seq<char>) -> Seq<Seq<char>> {
    if held.contains(u) {
        held
    } else {
        held.push(u)
    }
}

/// Whether a grant attempt for `u` succeeds.
pub open spec fn acquire_granted(held: Seq<Seq<char>>, u: Seq<char>) -> bool {
    !held.contains(u)
}

/// The lock set after `u` releases.
pub open spec fn release_state(held: Seq<Seq<char>>, u: Seq<char>) -> Seq<Seq<char>>
    decreases held.len(),
{
    if held.len() == 0 {
        held
    } else if held.last() == u {
        held.drop_last()
    } else {
        release_state(held.drop_last(), u).push(held.last())
    }
}

/// Per-user serialization: after a grant for `u`, a second attempt for `u`
/// is refused until `u` releases — at most one membership-update sequence
/// per user is in flight. Releasing makes the next attempt succeed again.
pub proof fn lemma_per_user_exclusion(held: Seq<Seq<char>>, u: Seq<char>)
    requires
        acquire_granted(held, u),
    ensures
        !acquire_granted(acquire_state(held, u), u),
        held.no_duplicates() ==> acquire_granted(release_state(acquire_state(held, u), u), u),
{
    assert(acquire_state(held, u).contains(u)) by {
        assert(acquire_state(held, u).last() == u);
    }
    if held.no_duplicates() {
        lemma_release_removes(held, u);
        assert(acquire_state(held, u).drop_last() =~= held);
    }
}

/// Cross-user independence: a grant attempt for one user neither consults
/// nor changes another user's lock.
pub proof fn lemma_cross_user_independence(held: Seq<Seq<char>>, u: Seq<char>, v: Seq<char>)
    requires
        u != v,
    ensures
        acquire_granted(acquire_state(held, u), v) == acquire_granted(held, v),
{
    if held.contains(v) {
        let i = choose|i: int| 0 <= i < held.len() && held[i] == v;
        assert(acquire_state(held, u)[i] == v);
    } else {
        if acquire_state(held, u).contains(v) {
            let i = choose|i: int|
                0 <= i < acquire_state(held, u).len() && acquire_state(held, u)[i] == v;
            assert(i == held.len());
        }
    }
}

/// Acquiring a free lock and releasing it restores the lock set exactly.
pub proof fn lemma_acquire_release_round_trip(held: Seq<Seq<char>>, u: Seq<char>)
    requires
        held.no_duplicates(),
        acquire_granted(held, u),
    ensures
        release_state(acquire_state(held, u), u) == held,
{
    lemma_release_removes(held, u);
}

proof fn lemma_release_removes(held: Seq<Seq<char>>, u: Seq<char>)
    requires
        !held.contains(u),
    ensures
        release_state(held.push(u), u) == held,
        !release_state(held, u).contains(u),
    decreases held.len(),
{
    assert(held.push(u).last() == u);
    assert(held.push(u).drop_last() =~= held);
    if held.len() > 0 {
        assert(forall|i: int| 0 <= i < held.drop_last().len() ==> held.drop_last()[i] == held[i]);
        lemma_release_removes(held.drop_last(), u);
        let r = release_state(held.drop_last(), u).push(held.last());
        assert(held.last() != u);
        if r.contains(u) {
            let i = choose|i: int| 0 <= i < r.len() && r[i] == u;
            assert(release_state(held.drop_last(), u).contains(u));
        }
    }
}

impl UpdateLocks {
    /// No user appears twice.
    pub open spec fn inv(&self) -> bool {
        self@.no_duplicates()
    }

    /// A coordinator with every lock free.
    pub fn new() -> (l: UpdateLocks)
        ensures
            l.inv(),
            l@ == Seq::<Seq<char>>::empty(),
    {
        let l = UpdateLocks { held: Vec::new() };
        proof {
            assert(l@ =~= Seq::<Seq<char>>::empty());
        }
        l
    }

    /// Is `user`'s lock held?
    pub fn is_held(&self, user: &str) -> (r: bool)
        ensures
            r == self@.contains(user@),
    {
        let n = self.held.len();
        let mut i: usize = 0;
        while i < n
            invariant
                i <= n,
                n == self.held@.len(),
                forall|j: int| 0 <= j < i ==> self@[j] != user@,
            decreases n - i,
        {
            if str_eq(self.held[i].as_str(), user) {
                assert(self@[i as int] == user@);
                return true;
            }
            assert(self@[i as int] != user@);
            i += 1;
        }
        assert(!self@.contains(user@));
        false
    }

    /// Attempt to take `user`'s lock; granted exactly when it is free.
    pub fn try_acquire(&mut self, user: &str) -> (granted: bool)
        requires
            old(self).inv(),
        ensures
            final(self).inv(),
            granted == acquire_granted(old(self)@, user@),
            final(self)@ == acquire_state(old(self)@, user@),
    {
        if self.is_held(user) {
            false
        } else {
            let ghost prev = self@;
            self.held.push(user.to_owned());
            proof {
                assert(self@ =~= prev.push(user@));
                assert(self@.drop_last() =~= prev);
            }
            true
        }
    }

    /// Release `user`'s lock; a no-op when it is not held.
    pub fn release(&mut self, user: &str)
        requires
            old(self).inv(),
        ensures
            final(self).inv(),
            final(self)@ == release_state(old(self)@, user@),
    {
        let ghost prev = self@;
        let n = self.held.len();
        let mut i: usize = 0;
        while i < n
            invariant
                i <= n,
                n == self.held@.len(),
                self@ == prev,
                self.inv(),
                old(self)@ == prev,
                forall|j: int| 0 <= j < i ==> self@[j] != user@,
            decreases n - i,
        {
            if str_eq(self.held[i].as_str(), user) {
                assert(self@[i as int] == user@);
                self.held.remove(i);
                proof {
                    assert(self@ =~= prev.remove(i as int));
                    lemma_release_at(prev, user@, i as int);
                }
                return ;
            }
            assert(self@[i as int] != user@);
            i += 1;
        }
        proof {
            lemma_release_absent(prev, user@);
            assert(!prev.contains(user@));
        }
    }
}

proof fn lemma_release_absent(held: Seq<Seq<char>>, u: Seq<char>)
    requires
        !held.contains(u),
    ensures
        release_state(held, u) == held,
    decreases held.len(),
{
    if held.len() > 0 {
        assert(held.last() != u);
        assert(forall|i: int| 0 <= i < held.drop_last().len() ==> held.drop_last()[i] == held[i]);
        lemma_release_absent(held.drop_last(), u);
        assert(release_state(held, u) =~= held);
    }
}

proof fn lemma_release_at(held: Seq<Seq<char>>, u: Seq<char>, i: int)
    requires
        held.no_duplicates(),
        0 <= i < held.len(),
        held[i] == u,
    ensures
        release_state(held, u) == held.remove(i),
    decreases held.len(),
{
    if i == held.len() - 1 {
        assert(held.last() == u);
        assert(held.remove(i) =~= held.drop_last());
    } else {
        assert(held.last() != u);
        assert(held.drop_last()[i] == u);
        lemma_release_at(held.drop_last(), u, i);
        assert(held.remove(i) =~= held.drop_last().remove(i).push(held.last()));
    }
}

} // verus!
