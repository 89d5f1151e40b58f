//! What holds of every sound pool.
use crate::permit::lemmas::{
    lemma_acquire_members, lemma_no_next_in_line, lemma_release_members, lemma_release_wf,
};
use crate::permit::{Claim, PoolModel, Release};
use vstd::prelude::*;

verus! {

/// First come, first served. A returned permit goes to a waiter that
/// competes for it, and nobody who came before that waiter competes for it;
/// the permit goes back to the pool only where no waiter competes for it.
pub proof fn law_first_come_first_served(m: PoolModel, c: Claim)
    requires
        m.wf(),
    ensures
        match m.release(c).1 {
            Release::Transferred(w) => exists|j: int|
                {
                    &&& 0 <= j < m.waiters.len()
                    &&& #[trigger] m.waiters[j] == w
                    &&& m.rivals(w.owner, c.owner)
                    &&& forall|k: int|
                        0 <= k < j ==> !m.rivals(#[trigger] m.waiters[k].owner, c.owner)
                },
            Release::Freed => forall|k: int|
                0 <= k < m.waiters.len() ==> !m.rivals(#[trigger] m.waiters[k].owner, c.owner),
            Release::NotHeld => m.release(c).0 == m,
        },
{
    if m.holders.contains(c) {
        match m.next_in_line(c.owner) {
            Some(j) => {
                assert(m.is_next_in_line(c.owner, j));
                assert(m.waiters[j] == m.waiters[j]);
            },
            None => {
                lemma_no_next_in_line(m, c.owner);
            },
        }
    }
}

/// No permit is returned twice: after a claim has returned its permit, a
/// second return under the same claim finds nothing and changes nothing.
pub proof fn law_second_release_changes_nothing(m: PoolModel, c: Claim)
    requires
        m.wf(),
    ensures
        m.release(c).0.release(c) == (m.release(c).0, Release::NotHeld),
{
    lemma_release_wf(m, c);
    lemma_release_members(m, c);
    let n = m.release(c).0;
    match m.release(c).1 {
        Release::Transferred(w) => {
            assert(m.waiters.contains(w));
            assert(w != c);
        },
        _ => {},
    }
    assert(!n.holders.contains(c));
}

/// Asking again gives the same answer and changes nothing: a claim never
/// holds two permits and never waits at two places.
pub proof fn law_asking_again_changes_nothing(m: PoolModel, c: Claim)
    requires
        m.wf(),
    ensures
        m.acquire(c).0.acquire(c) == m.acquire(c),
{
    lemma_acquire_members(m, c);
}

} // verus!
