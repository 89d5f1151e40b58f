//! A bounded pool of permits with a first-come-first-served queue.
//!
//! A unit of work asks for a permit under a [`Claim`]. While the pool has
//! room the claim is granted and becomes a holder; otherwise it waits in
//! arrival order. A holder that releases its permit hands it to the waiter
//! that has waited longest among those that compete for it. Nothing here
//! blocks: suspending and waking the tasks is the driver's part.
use crate::error::ServerError;
use crate::permit::lemmas::{
    lemma_acquire_wf, lemma_cancel_wf, lemma_close_wf, lemma_filter_push, lemma_index_of_unique,
    lemma_next_in_line_unique, lemma_release_owner_wf, lemma_release_wf,
};
use vstd::prelude::*;

pub mod laws;
pub mod lemmas;

verus! {

/// The name under which a unit of work asks for, holds and returns a permit.
///
/// `unit` names the work and `owner` names what the work belongs to: a
/// connection belongs to its listener, a request to its connection. When the
/// owner goes away, all its claims go with it.
#[derive(Clone, Copy, Debug, PartialEq, Eq, Structural)]
pub struct Claim {
    pub owner: u64,
    pub unit: u64,
}

/// What the capacity of a pool bounds.
#[derive(Clone, Copy, Debug, PartialEq, Eq, Structural)]
pub enum PermitScope {
    /// One budget shared by all owners: at most `capacity` holders in all,
    /// and one queue across all waiters.
    Global,
    /// A budget for every owner: at most `capacity` holders of each owner,
    /// and no owner ever waits for another.
    PerOwner,
}

/// The answer to a request for a permit.
#[derive(Clone, Copy, Debug, PartialEq, Eq, Structural)]
pub enum Admission {
    /// The claim holds a permit.
    Granted,
    /// The claim waits in the queue; it holds nothing yet.
    Suspended,
    /// The pool is closed and admits nothing new.
    Unavailable,
}

/// The answer to the return of a permit.
#[derive(Clone, Copy, Debug, PartialEq, Eq, Structural)]
pub enum Release {
    /// The claim held no permit; nothing changed.
    NotHeld,
    /// The permit went back to the pool.
    Freed,
    /// The permit went straight to this waiter, which now holds it.
    Transferred(Claim),
}

/// The claims that a purge of one owner touched.
pub struct Purge {
    /// The holders of that owner, whose permits were taken back.
    pub revoked: Vec<Claim>,
    /// The waiters of that owner, which left the queue.
    pub dropped: Vec<Claim>,
    /// The waiters of other owners that took over the freed permits.
    pub promoted: Vec<Claim>,
}

/// The predicate "is filed under `owner`".
pub open spec fn owned_by(owner: u64) -> spec_fn(Claim) -> bool {
    |c: Claim| c.owner == owner
}

/// The predicate "is filed under another owner than `owner`".
pub open spec fn owned_by_other(owner: u64) -> spec_fn(Claim) -> bool {
    |c: Claim| c.owner != owner
}

/// The smaller of two numbers.
pub open spec fn least(a: int, b: int) -> int {
    if a <= b {
        a
    } else {
        b
    }
}

/// A pool as a mathematical value.
pub struct PoolModel {
    pub scope: PermitScope,
    pub capacity: nat,
    /// The claims that hold a permit, oldest grant first.
    pub holders: Seq<Claim>,
    /// The claims that wait, oldest arrival first.
    pub waiters: Seq<Claim>,
    pub closed: bool,
}

/// What a purge does, as a mathematical value.
pub struct PurgeModel {
    pub revoked: Seq<Claim>,
    pub dropped: Seq<Claim>,
    pub promoted: Seq<Claim>,
}

impl PoolModel {
    /// An open pool that nobody holds or waits for.
    pub open spec fn empty(scope: PermitScope, capacity: nat) -> PoolModel {
        PoolModel { scope, capacity, holders: Seq::empty(), waiters: Seq::empty(), closed: false }
    }

    /// Whether claims of owners `a` and `b` draw on the same budget.
    pub open spec fn rivals(self, a: u64, b: u64) -> bool {
        self.scope == PermitScope::Global || a == b
    }

    /// How much of the budget that `owner` draws on is in use.
    pub open spec fn load(self, owner: u64) -> nat {
        match self.scope {
            PermitScope::Global => self.holders.len(),
            PermitScope::PerOwner => self.holders.filter(owned_by(owner)).len(),
        }
    }

    /// The invariant of a pool. No budget is overdrawn, nobody holds or waits
    /// twice, nobody waits while a permit it could take is free, and a closed
    /// pool has no waiters.
    pub open spec fn wf(self) -> bool {
        &&& self.capacity > 0
        &&& self.holders.no_duplicates()
        &&& self.waiters.no_duplicates()
        &&& forall|c: Claim| !(self.holders.contains(c) && self.waiters.contains(c))
        &&& forall|owner: u64| #[trigger] self.load(owner) <= self.capacity
        &&& forall|i: int|
            0 <= i < self.waiters.len() ==> self.load(#[trigger] self.waiters[i].owner)
                >= self.capacity
        &&& self.closed ==> self.waiters.len() == 0
    }

    /// Whether the waiter at `j` is the one that has waited longest among
    /// those that compete for a permit of `owner`.
    pub open spec fn is_next_in_line(self, owner: u64, j: int) -> bool {
        &&& 0 <= j < self.waiters.len()
        &&& self.rivals(self.waiters[j].owner, owner)
        &&& forall|k: int| 0 <= k < j ==> !self.rivals(#[trigger] self.waiters[k].owner, owner)
    }

    /// The place in the queue of the waiter that takes over a permit of
    /// `owner`, if there is one.
    pub open spec fn next_in_line(self, owner: u64) -> Option<int> {
        if exists|j: int| self.is_next_in_line(owner, j) {
            Some(choose|j: int| self.is_next_in_line(owner, j))
        } else {
            None
        }
    }

    /// Asking for a permit under `c`. A claim that already holds or waits
    /// keeps its place and gets the same answer again.
    pub open spec fn acquire(self, c: Claim) -> (PoolModel, Admission) {
        if self.holders.contains(c) {
            (self, Admission::Granted)
        } else if self.closed {
            (self, Admission::Unavailable)
        } else if self.waiters.contains(c) {
            (self, Admission::Suspended)
        } else if self.load(c.owner) < self.capacity {
            (PoolModel { holders: self.holders.push(c), ..self }, Admission::Granted)
        } else {
            (PoolModel { waiters: self.waiters.push(c), ..self }, Admission::Suspended)
        }
    }

    /// Returning the permit held under `c`.
    pub open spec fn release(self, c: Claim) -> (PoolModel, Release) {
        if !self.holders.contains(c) {
            (self, Release::NotHeld)
        } else {
            let rest = self.holders.remove(self.holders.index_of(c));
            match self.next_in_line(c.owner) {
                Some(j) => (
                    PoolModel {
                        holders: rest.push(self.waiters[j]),
                        waiters: self.waiters.remove(j),
                        ..self
                    },
                    Release::Transferred(self.waiters[j]),
                ),
                None => (PoolModel { holders: rest, ..self }, Release::Freed),
            }
        }
    }

    /// Giving up the wait under `c`.
    pub open spec fn cancel(self, c: Claim) -> (PoolModel, bool) {
        if self.waiters.contains(c) {
            (PoolModel { waiters: self.waiters.remove(self.waiters.index_of(c)), ..self }, true)
        } else {
            (self, false)
        }
    }

    /// How many waiters take over once the claims of `owner` are gone.
    pub open spec fn refill(self, owner: u64) -> int {
        match self.scope {
            PermitScope::Global => least(
                self.capacity - self.holders.filter(owned_by_other(owner)).len(),
                self.waiters.filter(owned_by_other(owner)).len() as int,
            ),
            PermitScope::PerOwner => 0,
        }
    }

    /// Taking every claim of `owner` out of the pool, holders and waiters
    /// alike, and handing the freed permits to the longest waiting others.
    pub open spec fn release_owner(self, owner: u64) -> (PoolModel, PurgeModel) {
        let kept = self.holders.filter(owned_by_other(owner));
        let queue = self.waiters.filter(owned_by_other(owner));
        let n = self.refill(owner);
        (
            PoolModel { holders: kept + queue.take(n), waiters: queue.skip(n), ..self },
            PurgeModel {
                revoked: self.holders.filter(owned_by(owner)),
                dropped: self.waiters.filter(owned_by(owner)),
                promoted: queue.take(n),
            },
        )
    }

    /// Closing the pool: the waiters leave, the holders stay until they
    /// release, and nothing new is admitted.
    pub open spec fn close(self) -> (PoolModel, Seq<Claim>) {
        (PoolModel { waiters: Seq::empty(), closed: true, ..self }, self.waiters)
    }
}

/// A pool of permits.
pub struct PermitPool {
    scope: PermitScope,
    capacity: u64,
    holders: Vec<Claim>,
    waiters: Vec<Claim>,
    closed: bool,
}

impl View for PermitPool {
    type V = PoolModel;

    closed spec fn view(&self) -> PoolModel {
        PoolModel {
            scope: self.scope,
            capacity: self.capacity as nat,
            holders: self.holders@,
            waiters: self.waiters@,
            closed: self.closed,
        }
    }
}

/// The place of `c` in `v`, if it is there.
fn position(v: &Vec<Claim>, c: Claim) -> (found: Option<usize>)
    ensures
        match found {
            Some(i) => i < v@.len() && v@[i as int] == c,
            None => !v@.contains(c),
        },
{
    let mut i: usize = 0;
    while i < v.len()
        invariant
            i <= v@.len(),
            forall|k: int| 0 <= k < i ==> v@[k] != c,
        decreases v@.len() - i,
    {
        if v[i] == c {
            return Some(i);
        }
        i += 1;
    }
    None
}

/// How many claims of `v` are filed under `owner`.
fn count_owned(v: &Vec<Claim>, owner: u64) -> (n: usize)
    ensures
        n == v@.filter(owned_by(owner)).len(),
{
    let mut n: usize = 0;
    let mut i: usize = 0;
    proof {
        reveal(Seq::filter);
        assert(v@.take(0) =~= Seq::<Claim>::empty());
    }
    while i < v.len()
        invariant
            i <= v@.len(),
            n <= i,
            n == v@.take(i as int).filter(owned_by(owner)).len(),
        decreases v@.len() - i,
    {
        proof {
            assert(v@.take(i + 1) =~= v@.take(i as int).push(v@[i as int]));
            lemma_filter_push(v@.take(i as int), v@[i as int], owned_by(owner));
        }
        if v[i].owner == owner {
            n += 1;
        }
        i += 1;
    }
    proof {
        assert(v@.take(v@.len() as int) =~= v@);
    }
    n
}

/// The claims of `v` split in two: those of other owners than `owner`, and
/// those of `owner`, each in the order of `v`.
fn split_by_owner(v: &Vec<Claim>, owner: u64) -> (parts: (Vec<Claim>, Vec<Claim>))
    ensures
        parts.0@ == v@.filter(owned_by_other(owner)),
        parts.1@ == v@.filter(owned_by(owner)),
{
    let mut others: Vec<Claim> = Vec::new();
    let mut own: Vec<Claim> = Vec::new();
    let mut i: usize = 0;
    proof {
        reveal(Seq::filter);
        assert(v@.take(0) =~= Seq::<Claim>::empty());
    }
    while i < v.len()
        invariant
            i <= v@.len(),
            others@ == v@.take(i as int).filter(owned_by_other(owner)),
            own@ == v@.take(i as int).filter(owned_by(owner)),
        decreases v@.len() - i,
    {
        proof {
            assert(v@.take(i + 1) =~= v@.take(i as int).push(v@[i as int]));
            lemma_filter_push(v@.take(i as int), v@[i as int], owned_by_other(owner));
            lemma_filter_push(v@.take(i as int), v@[i as int], owned_by(owner));
        }
        let c = v[i];
        if c.owner == owner {
            own.push(c);
        } else {
            others.push(c);
        }
        i += 1;
    }
    proof {
        assert(v@.take(v@.len() as int) =~= v@);
    }
    (others, own)
}

/// The claims of `v` from place `from` on.
fn tail_from(v: &Vec<Claim>, from: usize) -> (tail: Vec<Claim>)
    requires
        from <= v@.len(),
    ensures
        tail@ == v@.skip(from as int),
{
    let mut tail: Vec<Claim> = Vec::new();
    let mut i: usize = from;
    while i < v.len()
        invariant
            from <= i <= v@.len(),
            tail@ == v@.subrange(from as int, i as int),
        decreases v@.len() - i,
    {
        tail.push(v[i]);
        proof {
            assert(v@.subrange(from as int, i + 1) =~= v@.subrange(from as int, i as int).push(
                v@[i as int],
            ));
        }
        i += 1;
    }
    proof {
        assert(v@.subrange(from as int, v@.len() as int) =~= v@.skip(from as int));
    }
    tail
}

impl PermitPool {
    /// A pool of `capacity` permits that nobody holds or waits for. A pool
    /// without a permit would never admit anything: a capacity of zero or
    /// less is refused.
    pub fn new(scope: PermitScope, capacity: i64) -> (made: Result<PermitPool, ServerError>)
        ensures
            match made {
                Ok(pool) => capacity > 0 && pool@ == PoolModel::empty(scope, capacity as nat)
                    && pool@.wf(),
                Err(e) => capacity <= 0 && e == ServerError::PermitPoolMisconfigured,
            },
    {
        if capacity <= 0 {
            return Err(ServerError::PermitPoolMisconfigured);
        }
        let pool = PermitPool {
            scope,
            capacity: capacity as u64,
            holders: Vec::new(),
            waiters: Vec::new(),
            closed: false,
        };
        proof {
            reveal(Seq::filter);
            assert forall|owner: u64| #[trigger] pool@.load(owner) <= pool@.capacity by {}
        }
        Ok(pool)
    }

    /// What the capacity bounds.
    pub fn scope(&self) -> (scope: PermitScope)
        ensures
            scope == self@.scope,
    {
        self.scope
    }

    /// How many permits a budget of this pool has.
    pub fn capacity(&self) -> (capacity: u64)
        ensures
            capacity == self@.capacity,
    {
        self.capacity
    }

    /// Whether the pool has been closed.
    pub fn is_closed(&self) -> (closed: bool)
        ensures
            closed == self@.closed,
    {
        self.closed
    }

    /// How many claims hold a permit.
    pub fn in_use(&self) -> (n: usize)
        ensures
            n == self@.holders.len(),
    {
        self.holders.len()
    }

    /// How many claims wait.
    pub fn waiting(&self) -> (n: usize)
        ensures
            n == self@.waiters.len(),
    {
        self.waiters.len()
    }

    /// Whether `c` holds a permit.
    pub fn holds(&self, c: Claim) -> (held: bool)
        ensures
            held == self@.holders.contains(c),
    {
        position(&self.holders, c).is_some()
    }

    /// Whether `c` waits for a permit.
    pub fn is_waiting(&self, c: Claim) -> (waits: bool)
        ensures
            waits == self@.waiters.contains(c),
    {
        position(&self.waiters, c).is_some()
    }

    /// How much of the budget that `owner` draws on is in use.
    pub fn load(&self, owner: u64) -> (n: usize)
        ensures
            n == self@.load(owner),
    {
        match self.scope {
            PermitScope::Global => self.holders.len(),
            PermitScope::PerOwner => count_owned(&self.holders, owner),
        }
    }

    /// The place of the waiter that takes over a permit of `owner`.
    fn successor(&self, owner: u64) -> (found: Option<usize>)
        ensures
            match found {
                Some(j) => self@.next_in_line(owner) == Some(j as int),
                None => self@.next_in_line(owner) is None,
            },
    {
        let mut j: usize = 0;
        while j < self.waiters.len()
            invariant
                j <= self@.waiters.len(),
                forall|k: int| 0 <= k < j ==> !self@.rivals(#[trigger] self@.waiters[k].owner, owner),
            decreases self@.waiters.len() - j,
        {
            let rival = match self.scope {
                PermitScope::Global => true,
                PermitScope::PerOwner => self.waiters[j].owner == owner,
            };
            if rival {
                proof {
                    assert(self@.is_next_in_line(owner, j as int));
                    lemma_next_in_line_unique(self@, owner, j as int);
                }
                return Some(j);
            }
            j += 1;
        }
        proof {
            assert forall|k: int| !self@.is_next_in_line(owner, k) by {
                if 0 <= k < self@.waiters.len() {
                    assert(!self@.rivals(self@.waiters[k].owner, owner));
                }
            }
        }
        None
    }

    /// Asks for a permit under `c`. The claim is granted a permit while its
    /// budget has room and waits otherwise, behind all who came before it. A
    /// claim that already holds or waits keeps its place and gets the same
    /// answer again. A closed pool admits nothing new.
    pub fn acquire(&mut self, c: Claim) -> (answer: Admission)
        requires
            old(self)@.wf(),
        ensures
            final(self)@.wf(),
            final(self)@ == old(self)@.acquire(c).0,
            answer == old(self)@.acquire(c).1,
    {
        proof {
            lemma_acquire_wf(self@, c);
        }
        if position(&self.holders, c).is_some() {
            return Admission::Granted;
        }
        if self.closed {
            return Admission::Unavailable;
        }
        if position(&self.waiters, c).is_some() {
            return Admission::Suspended;
        }
        let used = self.load(c.owner);
        if (used as u64) < self.capacity {
            self.holders.push(c);
            Admission::Granted
        } else {
            self.waiters.push(c);
            Admission::Suspended
        }
    }

    /// Returns the permit held under `c`. The permit goes to the waiter that
    /// has waited longest among those that compete for it, if there is one.
    /// A claim that holds nothing changes nothing, so that no permit is ever
    /// returned twice.
    pub fn release(&mut self, c: Claim) -> (answer: Release)
        requires
            old(self)@.wf(),
        ensures
            final(self)@.wf(),
            final(self)@ == old(self)@.release(c).0,
            answer == old(self)@.release(c).1,
    {
        proof {
            lemma_release_wf(self@, c);
        }
        match position(&self.holders, c) {
            None => Release::NotHeld,
            Some(i) => {
                proof {
                    lemma_index_of_unique(self@.holders, c, i as int);
                }
                let next = self.successor(c.owner);
                self.holders.remove(i);
                match next {
                    Some(j) => {
                        let w = self.waiters.remove(j);
                        self.holders.push(w);
                        Release::Transferred(w)
                    },
                    None => Release::Freed,
                }
            },
        }
    }

    /// Gives up the wait under `c`. The answer tells whether `c` was waiting.
    /// The others keep their order.
    pub fn cancel(&mut self, c: Claim) -> (was_waiting: bool)
        requires
            old(self)@.wf(),
        ensures
            final(self)@.wf(),
            final(self)@ == old(self)@.cancel(c).0,
            was_waiting == old(self)@.cancel(c).1,
    {
        proof {
            lemma_cancel_wf(self@, c);
        }
        match position(&self.waiters, c) {
            None => false,
            Some(j) => {
                proof {
                    lemma_index_of_unique(self@.waiters, c, j as int);
                }
                self.waiters.remove(j);
                true
            },
        }
    }

    /// Takes every claim of `owner` out of the pool. Its holders lose their
    /// permits, its waiters leave the queue, and the freed permits go to the
    /// longest waiting claims of the other owners.
    pub fn release_owner(&mut self, owner: u64) -> (purge: Purge)
        requires
            old(self)@.wf(),
        ensures
            final(self)@.wf(),
            final(self)@ == old(self)@.release_owner(owner).0,
            purge.revoked@ == old(self)@.release_owner(owner).1.revoked,
            purge.dropped@ == old(self)@.release_owner(owner).1.dropped,
            purge.promoted@ == old(self)@.release_owner(owner).1.promoted,
    {
        proof {
            lemma_release_owner_wf(self@, owner);
        }
        let (mut kept, revoked) = split_by_owner(&self.holders, owner);
        let (queue, dropped) = split_by_owner(&self.waiters, owner);
        let mut promoted: Vec<Claim> = Vec::new();
        let mut n: usize = 0;
        let ghost kept0 = kept@;
        if self.scope == PermitScope::Global {
            while n < queue.len() && (kept.len() as u64) < self.capacity
                invariant
                    n <= queue@.len(),
                    kept0.len() + n <= self.capacity,
                    kept@ == kept0 + queue@.take(n as int),
                    promoted@ == queue@.take(n as int),
                decreases queue@.len() - n,
            {
                proof {
                    assert(queue@.take(n + 1) =~= queue@.take(n as int).push(queue@[n as int]));
                    assert(kept0 + queue@.take(n + 1) =~= (kept0 + queue@.take(n as int)).push(
                        queue@[n as int],
                    ));
                }
                let w = queue[n];
                kept.push(w);
                promoted.push(w);
                n += 1;
            }
        } else {
            proof {
                assert(kept@ =~= kept0 + queue@.take(0));
            }
        }
        let rest = tail_from(&queue, n);
        self.holders = kept;
        self.waiters = rest;
        Purge { revoked, dropped, promoted }
    }

    /// Closes the pool. The waiters leave the queue at once and are handed
    /// back in the order in which they came; the holders keep their permits
    /// until they release them; nothing new is admitted from now on.
    pub fn close(&mut self) -> (flushed: Vec<Claim>)
        requires
            old(self)@.wf(),
        ensures
            final(self)@.wf(),
            final(self)@ == old(self)@.close().0,
            flushed@ == old(self)@.close().1,
    {
        proof {
            lemma_close_wf(self@);
        }
        let flushed = tail_from(&self.waiters, 0);
        self.waiters.clear();
        self.closed = true;
        flushed
    }
}

} // verus!
