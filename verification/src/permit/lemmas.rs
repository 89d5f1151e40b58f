//! Facts about sequences of claims and about the pool model: every
//! operation of the model keeps the invariant of the pool.
use crate::permit::{
    owned_by, owned_by_other, Admission, Claim, PermitScope, PoolModel, Release,
};
use vstd::prelude::*;

verus! {

/// Appending a claim that is not there yet keeps a sequence free of repeats.
pub proof fn lemma_push_fresh(s: Seq<Claim>, c: Claim)
    requires
        s.no_duplicates(),
        !s.contains(c),
    ensures
        s.push(c).no_duplicates(),
        forall|x: Claim| #[trigger] s.push(c).contains(x) <==> (x == c || s.contains(x)),
{
    let t = s.push(c);
    assert forall|x: Claim| #[trigger] t.contains(x) <==> (x == c || s.contains(x)) by {
        if x == c {
            assert(t[s.len() as int] == c);
        }
        if s.contains(x) {
            let i = choose|i: int| 0 <= i < s.len() && s[i] == x;
            assert(t[i] == x);
        }
        if t.contains(x) {
            let i = choose|i: int| 0 <= i < t.len() && t[i] == x;
            if i < s.len() {
                assert(s[i] == x);
            }
        }
    }
    assert forall|i: int, j: int| 0 <= i < t.len() && 0 <= j < t.len() && i != j implies t[i]
        != t[j] by {
        if i < s.len() && j < s.len() {
        } else if i < s.len() {
            assert(s[i] == t[i]);
        } else {
            assert(s[j] == t[j]);
        }
    }
}

/// In a sequence without repeats a claim stands at one place only.
pub proof fn lemma_index_of_unique(s: Seq<Claim>, c: Claim, i: int)
    requires
        s.no_duplicates(),
        0 <= i < s.len(),
        s[i] == c,
    ensures
        s.contains(c),
        s.index_of(c) == i,
{
    assert(s.contains(c));
    let k = s.index_of(c);
    assert(0 <= k < s.len() && s[k] == c);
}

/// Taking one claim out of a sequence without repeats removes that claim
/// and no other.
pub proof fn lemma_remove_at(s: Seq<Claim>, i: int)
    requires
        s.no_duplicates(),
        0 <= i < s.len(),
    ensures
        s.remove(i).no_duplicates(),
        s.remove(i).len() == s.len() - 1,
        forall|x: Claim| #[trigger] s.remove(i).contains(x) <==> (s.contains(x) && x != s[i]),
{
    let t = s.remove(i);
    assert forall|x: Claim| #[trigger] t.contains(x) <==> (s.contains(x) && x != s[i]) by {
        if t.contains(x) {
            let k = choose|k: int| 0 <= k < t.len() && t[k] == x;
            if k < i {
                assert(s[k] == x);
            } else {
                assert(s[k + 1] == x);
            }
        }
        if s.contains(x) && x != s[i] {
            let k = choose|k: int| 0 <= k < s.len() && s[k] == x;
            if k < i {
                assert(t[k] == x);
            } else {
                assert(t[k - 1] == x);
            }
        }
    }
}

/// What a filter keeps of a sequence with one more claim at its end.
pub proof fn lemma_filter_push(s: Seq<Claim>, c: Claim, p: spec_fn(Claim) -> bool)
    ensures
        s.push(c).filter(p) == if p(c) {
            s.filter(p).push(c)
        } else {
            s.filter(p)
        },
{
    reveal(Seq::filter);
    assert(s.push(c).drop_last() =~= s);
}

/// A filter keeps exactly the members that pass it.
pub proof fn lemma_filter_member(s: Seq<Claim>, p: spec_fn(Claim) -> bool)
    ensures
        forall|x: Claim| #[trigger] s.filter(p).contains(x) <==> (s.contains(x) && p(x)),
        s.filter(p).len() <= s.len(),
    decreases s.len(),
{
    reveal(Seq::filter);
    if s.len() == 0 {
        assert(s.filter(p) =~= Seq::<Claim>::empty());
        assert forall|x: Claim| #[trigger] s.filter(p).contains(x) <==> (s.contains(x) && p(
            x,
        )) by {}
    } else {
        let init = s.drop_last();
        let last = s.last();
        lemma_filter_member(init, p);
        assert(s =~= init.push(last));
        lemma_filter_push(init, last, p);
        assert forall|x: Claim| #[trigger] s.filter(p).contains(x) <==> (s.contains(x) && p(
            x,
        )) by {
            let f = init.filter(p);
            if s.contains(x) {
                let k = choose|k: int| 0 <= k < s.len() && s[k] == x;
                if k < init.len() {
                    assert(init[k] == x);
                }
            }
            if init.contains(x) {
                let k = choose|k: int| 0 <= k < init.len() && init[k] == x;
                assert(s[k] == x);
            }
            assert(s[s.len() - 1] == last);
            if p(last) {
                if f.push(last).contains(x) {
                    let k = choose|k: int| 0 <= k < f.push(last).len() && f.push(last)[k] == x;
                    if k < f.len() {
                        assert(f[k] == x);
                    }
                }
                if f.contains(x) {
                    let k = choose|k: int| 0 <= k < f.len() && f[k] == x;
                    assert(f.push(last)[k] == x);
                }
                assert(f.push(last)[f.len() as int] == last);
            }
        }
    }
}

/// A filter keeps a sequence free of repeats.
pub proof fn lemma_filter_no_duplicates(s: Seq<Claim>, p: spec_fn(Claim) -> bool)
    requires
        s.no_duplicates(),
    ensures
        s.filter(p).no_duplicates(),
    decreases s.len(),
{
    reveal(Seq::filter);
    if s.len() > 0 {
        let init = s.drop_last();
        let last = s.last();
        lemma_filter_no_duplicates(init, p);
        lemma_filter_member(init, p);
        assert(s =~= init.push(last));
        lemma_filter_push(init, last, p);
        if p(last) {
            if init.contains(last) {
                let k = choose|k: int| 0 <= k < init.len() && init[k] == last;
                assert(s[k] == s[s.len() - 1]);
            }
            lemma_push_fresh(init.filter(p), last);
        }
    }
}

/// A filter distributes over the concatenation of two sequences.
pub proof fn lemma_filter_concat(a: Seq<Claim>, b: Seq<Claim>, p: spec_fn(Claim) -> bool)
    ensures
        (a + b).filter(p) == a.filter(p) + b.filter(p),
    decreases b.len(),
{
    reveal(Seq::filter);
    if b.len() == 0 {
        assert(a + b =~= a);
        assert(a.filter(p) + b.filter(p) =~= a.filter(p));
    } else {
        let init = b.drop_last();
        lemma_filter_concat(a, init, p);
        assert(a + b =~= (a + init).push(b.last()));
        assert(b =~= init.push(b.last()));
        lemma_filter_push(a + init, b.last(), p);
        lemma_filter_push(init, b.last(), p);
        if p(b.last()) {
            assert((a.filter(p) + init.filter(p)).push(b.last()) =~= a.filter(p) + init.filter(
                p,
            ).push(b.last()));
        }
    }
}

/// Taking one claim out of a sequence takes it out of what a filter keeps,
/// if the filter keeps it at all.
pub proof fn lemma_filter_len_remove(s: Seq<Claim>, i: int, p: spec_fn(Claim) -> bool)
    requires
        0 <= i < s.len(),
    ensures
        s.remove(i).filter(p).len() == s.filter(p).len() - if p(s[i]) {
            1int
        } else {
            0int
        },
{
    let head = s.take(i);
    let tail = s.skip(i + 1);
    assert(s =~= head.push(s[i]) + tail);
    assert(s.remove(i) =~= head + tail);
    lemma_filter_concat(head.push(s[i]), tail, p);
    lemma_filter_concat(head, tail, p);
    lemma_filter_push(head, s[i], p);
}

/// Filtering twice, the second time by a narrower test, is filtering once
/// by the narrower test.
pub proof fn lemma_filter_narrow(
    s: Seq<Claim>,
    wide: spec_fn(Claim) -> bool,
    narrow: spec_fn(Claim) -> bool,
)
    requires
        forall|x: Claim| #[trigger] narrow(x) ==> wide(x),
    ensures
        s.filter(wide).filter(narrow) == s.filter(narrow),
    decreases s.len(),
{
    reveal(Seq::filter);
    if s.len() > 0 {
        let init = s.drop_last();
        let last = s.last();
        lemma_filter_narrow(init, wide, narrow);
        assert(s =~= init.push(last));
        lemma_filter_push(init, last, wide);
        lemma_filter_push(init, last, narrow);
        if wide(last) {
            lemma_filter_push(init.filter(wide), last, narrow);
        }
    }
}

/// Filtering by one test and then by a test that excludes it leaves nothing.
pub proof fn lemma_filter_exclusive(
    s: Seq<Claim>,
    first: spec_fn(Claim) -> bool,
    second: spec_fn(Claim) -> bool,
)
    requires
        forall|x: Claim| #[trigger] first(x) ==> !second(x),
    ensures
        s.filter(first).filter(second).len() == 0,
{
    let f = s.filter(first);
    lemma_filter_member(s, first);
    lemma_filter_member(f, second);
    if f.filter(second).len() > 0 {
        let x = f.filter(second)[0];
        assert(f.filter(second).contains(x));
    }
}

/// If some waiter competes for a permit of `owner`, one of them is first.
pub proof fn lemma_next_in_line_exists(m: PoolModel, owner: u64, k: int)
    requires
        0 <= k < m.waiters.len(),
        m.rivals(m.waiters[k].owner, owner),
    ensures
        exists|j: int| 0 <= j <= k && m.is_next_in_line(owner, j),
    decreases k,
{
    if exists|i: int| 0 <= i < k && m.rivals(#[trigger] m.waiters[i].owner, owner) {
        let i = choose|i: int| 0 <= i < k && m.rivals(#[trigger] m.waiters[i].owner, owner);
        lemma_next_in_line_exists(m, owner, i);
        let j = choose|j: int| 0 <= j <= i && m.is_next_in_line(owner, j);
        assert(0 <= j <= k && m.is_next_in_line(owner, j));
    } else {
        assert(m.is_next_in_line(owner, k));
    }
}

/// The waiter that is next in line is the only one that is.
pub proof fn lemma_next_in_line_unique(m: PoolModel, owner: u64, j: int)
    requires
        m.is_next_in_line(owner, j),
    ensures
        m.next_in_line(owner) == Some(j),
{
    let k = choose|k: int| m.is_next_in_line(owner, k);
    assert(m.is_next_in_line(owner, k));
    if k < j {
        assert(!m.rivals(m.waiters[k].owner, owner));
    }
    if j < k {
        assert(!m.rivals(m.waiters[j].owner, owner));
    }
}

/// Where nobody is next in line, no waiter competes for a permit of `owner`.
pub proof fn lemma_no_next_in_line(m: PoolModel, owner: u64)
    requires
        m.next_in_line(owner) is None,
    ensures
        forall|k: int|
            0 <= k < m.waiters.len() ==> !m.rivals(#[trigger] m.waiters[k].owner, owner),
{
    assert forall|k: int| 0 <= k < m.waiters.len() implies !m.rivals(
        #[trigger] m.waiters[k].owner,
        owner,
    ) by {
        if m.rivals(m.waiters[k].owner, owner) {
            lemma_next_in_line_exists(m, owner, k);
        }
    }
}

/// The members of two sequences laid end to end.
pub proof fn lemma_concat_member(a: Seq<Claim>, b: Seq<Claim>)
    ensures
        forall|x: Claim| #[trigger] (a + b).contains(x) <==> (a.contains(x) || b.contains(x)),
{
    let t = a + b;
    assert forall|x: Claim| #[trigger] t.contains(x) <==> (a.contains(x) || b.contains(x)) by {
        if t.contains(x) {
            let k = choose|k: int| 0 <= k < t.len() && t[k] == x;
            if k < a.len() {
                assert(a[k] == x);
            } else {
                assert(b[k - a.len()] == x);
            }
        }
        if a.contains(x) {
            let k = choose|k: int| 0 <= k < a.len() && a[k] == x;
            assert(t[k] == x);
        }
        if b.contains(x) {
            let k = choose|k: int| 0 <= k < b.len() && b[k] == x;
            assert(t[a.len() + k] == x);
        }
    }
}

/// Two sequences without repeats that share no member stay without
/// repeats when laid end to end.
pub proof fn lemma_concat_no_duplicates(a: Seq<Claim>, b: Seq<Claim>)
    requires
        a.no_duplicates(),
        b.no_duplicates(),
        forall|x: Claim| !(a.contains(x) && b.contains(x)),
    ensures
        (a + b).no_duplicates(),
{
    let t = a + b;
    assert forall|i: int, j: int| 0 <= i < t.len() && 0 <= j < t.len() && i != j implies t[i]
        != t[j] by {
        if i < a.len() && j >= a.len() {
            assert(a.contains(a[i]));
            assert(b.contains(b[j - a.len()]));
        }
        if j < a.len() && i >= a.len() {
            assert(a.contains(a[j]));
            assert(b.contains(b[i - a.len()]));
        }
    }
}

/// A sequence without repeats, cut in two: neither part repeats a claim,
/// and the parts share none.
pub proof fn lemma_split_no_duplicates(s: Seq<Claim>, n: int)
    requires
        s.no_duplicates(),
        0 <= n <= s.len(),
    ensures
        s.take(n).no_duplicates(),
        s.skip(n).no_duplicates(),
        forall|x: Claim| !(s.take(n).contains(x) && s.skip(n).contains(x)),
        forall|x: Claim| #[trigger] s.take(n).contains(x) ==> s.contains(x),
        forall|x: Claim| #[trigger] s.skip(n).contains(x) ==> s.contains(x),
{
    let a = s.take(n);
    let b = s.skip(n);
    assert forall|x: Claim| !(a.contains(x) && b.contains(x)) by {
        if a.contains(x) && b.contains(x) {
            let i = choose|i: int| 0 <= i < a.len() && a[i] == x;
            let j = choose|j: int| 0 <= j < b.len() && b[j] == x;
            assert(s[i] == s[j + n]);
        }
    }
    assert forall|x: Claim| #[trigger] a.contains(x) implies s.contains(x) by {
        let i = choose|i: int| 0 <= i < a.len() && a[i] == x;
        assert(s[i] == x);
    }
    assert forall|x: Claim| #[trigger] b.contains(x) implies s.contains(x) by {
        let j = choose|j: int| 0 <= j < b.len() && b[j] == x;
        assert(s[j + n] == x);
    }
}

/// Asking for a permit keeps the invariant of the pool.
pub proof fn lemma_acquire_wf(m: PoolModel, c: Claim)
    requires
        m.wf(),
    ensures
        m.acquire(c).0.wf(),
{
    let n = m.acquire(c).0;
    if m.holders.contains(c) || m.closed || m.waiters.contains(c) {
    } else if m.load(c.owner) < m.capacity {
        lemma_push_fresh(m.holders, c);
        assert forall|owner: u64| #[trigger] n.load(owner) <= n.capacity by {
            lemma_filter_push(m.holders, c, owned_by(owner));
            assert(m.load(owner) <= m.capacity);
        }
        assert forall|i: int| 0 <= i < n.waiters.len() implies n.load(
            #[trigger] n.waiters[i].owner,
        ) >= n.capacity by {
            lemma_filter_push(m.holders, c, owned_by(m.waiters[i].owner));
            assert(m.load(m.waiters[i].owner) >= m.capacity);
        }
    } else {
        lemma_push_fresh(m.waiters, c);
        assert forall|owner: u64| #[trigger] n.load(owner) <= n.capacity by {
            assert(m.load(owner) <= m.capacity);
        }
        assert forall|i: int| 0 <= i < n.waiters.len() implies n.load(
            #[trigger] n.waiters[i].owner,
        ) >= n.capacity by {
            if i < m.waiters.len() {
                assert(m.load(m.waiters[i].owner) >= m.capacity);
            }
        }
    }
}

/// Returning a permit keeps the invariant of the pool.
pub proof fn lemma_release_wf(m: PoolModel, c: Claim)
    requires
        m.wf(),
    ensures
        m.release(c).0.wf(),
{
    let n = m.release(c).0;
    if m.holders.contains(c) {
        let i = m.holders.index_of(c);
        let rest = m.holders.remove(i);
        lemma_remove_at(m.holders, i);
        match m.next_in_line(c.owner) {
            Some(j) => {
                assert(m.is_next_in_line(c.owner, j));
                let w = m.waiters[j];
                assert(m.waiters.contains(w));
                lemma_push_fresh(rest, w);
                lemma_remove_at(m.waiters, j);
                assert forall|owner: u64| #[trigger] n.load(owner) == m.load(owner) by {
                    lemma_filter_len_remove(m.holders, i, owned_by(owner));
                    lemma_filter_push(rest, w, owned_by(owner));
                }
                assert forall|owner: u64| #[trigger] n.load(owner) <= n.capacity by {
                    assert(m.load(owner) <= m.capacity);
                }
                assert forall|k: int| 0 <= k < n.waiters.len() implies n.load(
                    #[trigger] n.waiters[k].owner,
                ) >= n.capacity by {
                    let k0 = if k < j {
                        k
                    } else {
                        k + 1
                    };
                    assert(n.waiters[k] == m.waiters[k0]);
                    assert(m.load(m.waiters[k0].owner) >= m.capacity);
                    assert(n.load(n.waiters[k].owner) == m.load(n.waiters[k].owner));
                }
            },
            None => {
                lemma_no_next_in_line(m, c.owner);
                assert forall|owner: u64| #[trigger] n.load(owner) <= n.capacity by {
                    lemma_filter_len_remove(m.holders, i, owned_by(owner));
                    assert(m.load(owner) <= m.capacity);
                }
                assert forall|k: int| 0 <= k < n.waiters.len() implies n.load(
                    #[trigger] n.waiters[k].owner,
                ) >= n.capacity by {
                    assert(!m.rivals(m.waiters[k].owner, c.owner));
                    lemma_filter_len_remove(m.holders, i, owned_by(m.waiters[k].owner));
                    assert(m.load(m.waiters[k].owner) >= m.capacity);
                }
            },
        }
    }
}

/// Giving up a wait keeps the invariant of the pool.
pub proof fn lemma_cancel_wf(m: PoolModel, c: Claim)
    requires
        m.wf(),
    ensures
        m.cancel(c).0.wf(),
{
    let n = m.cancel(c).0;
    if m.waiters.contains(c) {
        let j = m.waiters.index_of(c);
        lemma_remove_at(m.waiters, j);
        assert forall|owner: u64| #[trigger] n.load(owner) <= n.capacity by {
            assert(m.load(owner) <= m.capacity);
        }
        assert forall|k: int| 0 <= k < n.waiters.len() implies n.load(
            #[trigger] n.waiters[k].owner,
        ) >= n.capacity by {
            let k0 = if k < j {
                k
            } else {
                k + 1
            };
            assert(n.waiters[k] == m.waiters[k0]);
            assert(m.load(m.waiters[k0].owner) >= m.capacity);
        }
    }
}

/// Taking an owner out of the pool keeps the invariant of the pool.
pub proof fn lemma_release_owner_wf(m: PoolModel, owner: u64)
    requires
        m.wf(),
    ensures
        m.release_owner(owner).0.wf(),
        0 <= m.refill(owner) <= m.waiters.filter(owned_by_other(owner)).len(),
{
    let n = m.release_owner(owner).0;
    let kept = m.holders.filter(owned_by_other(owner));
    let queue = m.waiters.filter(owned_by_other(owner));
    let r = m.refill(owner);
    lemma_filter_no_duplicates(m.holders, owned_by_other(owner));
    lemma_filter_no_duplicates(m.waiters, owned_by_other(owner));
    lemma_filter_member(m.holders, owned_by_other(owner));
    lemma_filter_member(m.waiters, owned_by_other(owner));
    assert(m.load(owner) <= m.capacity);
    if m.scope == PermitScope::Global {
        assert(kept.len() <= m.holders.len() <= m.capacity);
    }
    assert(0 <= r <= queue.len());
    lemma_split_no_duplicates(queue, r);
    lemma_concat_member(kept, queue.take(r));
    lemma_concat_no_duplicates(kept, queue.take(r));
    assert forall|x: Claim| !(n.holders.contains(x) && n.waiters.contains(x)) by {}
    assert forall|o: u64| #[trigger] n.load(o) <= n.capacity by {
        assert(m.load(o) <= m.capacity);
        if m.scope == PermitScope::PerOwner {
            assert(n.holders =~= kept);
            if o == owner {
                lemma_filter_exclusive(m.holders, owned_by_other(owner), owned_by(o));
            } else {
                lemma_filter_narrow(m.holders, owned_by_other(owner), owned_by(o));
            }
        }
    }
    assert forall|k: int| 0 <= k < n.waiters.len() implies n.load(#[trigger] n.waiters[k].owner)
        >= n.capacity by {
        let x = n.waiters[k];
        if m.scope == PermitScope::PerOwner {
            assert(n.holders =~= kept);
            assert(n.waiters =~= queue);
            assert(queue.contains(x));
            assert(m.waiters.contains(x) && x.owner != owner);
            let i = choose|i: int| 0 <= i < m.waiters.len() && m.waiters[i] == x;
            assert(m.load(m.waiters[i].owner) >= m.capacity);
            lemma_filter_narrow(m.holders, owned_by_other(owner), owned_by(x.owner));
        }
    }
}

/// Closing the pool keeps the invariant of the pool.
pub proof fn lemma_close_wf(m: PoolModel)
    requires
        m.wf(),
    ensures
        m.close().0.wf(),
{
    let n = m.close().0;
    assert forall|owner: u64| #[trigger] n.load(owner) <= n.capacity by {
        assert(m.load(owner) <= m.capacity);
    }
}

/// Who holds and who waits after a permit was asked for: the claim that
/// asked joins, and nobody leaves.
pub proof fn lemma_acquire_members(m: PoolModel, c: Claim)
    requires
        m.wf(),
    ensures
        ({
            let n = m.acquire(c).0;
            let answer = m.acquire(c).1;
            &&& forall|x: Claim| #[trigger]
                n.holders.contains(x) <==> (m.holders.contains(x) || (x == c && answer
                    == Admission::Granted))
            &&& forall|x: Claim| #[trigger]
                n.waiters.contains(x) <==> (m.waiters.contains(x) || (x == c && answer
                    == Admission::Suspended))
            &&& answer == Admission::Unavailable <==> (m.closed && !m.holders.contains(c))
        }),
{
    if m.holders.contains(c) || m.closed || m.waiters.contains(c) {
    } else if m.load(c.owner) < m.capacity {
        lemma_push_fresh(m.holders, c);
    } else {
        lemma_push_fresh(m.waiters, c);
    }
}

/// Who holds and who waits after a permit was returned: the claim that
/// returned it leaves, the waiter that takes it over moves from the queue
/// to the holders, and nobody else moves.
pub proof fn lemma_release_members(m: PoolModel, c: Claim)
    requires
        m.wf(),
    ensures
        ({
            let n = m.release(c).0;
            let answer = m.release(c).1;
            &&& answer is NotHeld <==> !m.holders.contains(c)
            &&& answer matches Release::Transferred(w) ==> m.waiters.contains(w) && m.rivals(
                w.owner,
                c.owner,
            )
            &&& forall|x: Claim| #[trigger]
                n.holders.contains(x) <==> ((m.holders.contains(x) && (x != c || answer
                    is NotHeld)) || answer == Release::Transferred(x))
            &&& forall|x: Claim| #[trigger]
                n.waiters.contains(x) <==> (m.waiters.contains(x) && answer
                    != Release::Transferred(x))
        }),
{
    if m.holders.contains(c) {
        let i = m.holders.index_of(c);
        let rest = m.holders.remove(i);
        lemma_remove_at(m.holders, i);
        match m.next_in_line(c.owner) {
            Some(j) => {
                assert(m.is_next_in_line(c.owner, j));
                let w = m.waiters[j];
                assert(m.waiters.contains(w));
                lemma_push_fresh(rest, w);
                lemma_remove_at(m.waiters, j);
            },
            None => {},
        }
    }
}

/// Who holds and who waits after an owner was taken out of the pool: none
/// of its claims, all holders of the others, and the waiters of the others
/// but for those that took over a freed permit.
pub proof fn lemma_release_owner_members(m: PoolModel, owner: u64)
    requires
        m.wf(),
    ensures
        ({
            let n = m.release_owner(owner).0;
            let p = m.release_owner(owner).1;
            &&& p.revoked.no_duplicates()
            &&& p.dropped.no_duplicates()
            &&& p.promoted.no_duplicates()
            &&& forall|x: Claim| #[trigger]
                p.revoked.contains(x) <==> (m.holders.contains(x) && x.owner == owner)
            &&& forall|x: Claim| #[trigger]
                p.dropped.contains(x) <==> (m.waiters.contains(x) && x.owner == owner)
            &&& forall|x: Claim| #[trigger]
                p.promoted.contains(x) ==> (m.waiters.contains(x) && x.owner != owner)
            &&& forall|x: Claim| #[trigger]
                n.holders.contains(x) <==> ((m.holders.contains(x) && x.owner != owner)
                    || p.promoted.contains(x))
            &&& forall|x: Claim| #[trigger]
                n.waiters.contains(x) <==> (m.waiters.contains(x) && x.owner != owner
                    && !p.promoted.contains(x))
        }),
{
    let n = m.release_owner(owner).0;
    let p = m.release_owner(owner).1;
    let kept = m.holders.filter(owned_by_other(owner));
    let queue = m.waiters.filter(owned_by_other(owner));
    let r = m.refill(owner);
    lemma_release_owner_wf(m, owner);
    lemma_filter_no_duplicates(m.holders, owned_by_other(owner));
    lemma_filter_no_duplicates(m.waiters, owned_by_other(owner));
    lemma_filter_no_duplicates(m.holders, owned_by(owner));
    lemma_filter_no_duplicates(m.waiters, owned_by(owner));
    lemma_filter_member(m.holders, owned_by_other(owner));
    lemma_filter_member(m.waiters, owned_by_other(owner));
    lemma_filter_member(m.holders, owned_by(owner));
    lemma_filter_member(m.waiters, owned_by(owner));
    lemma_split_no_duplicates(queue, r);
    lemma_concat_member(kept, queue.take(r));
    assert forall|x: Claim| #[trigger]
        n.waiters.contains(x) <==> (m.waiters.contains(x) && x.owner != owner
            && !p.promoted.contains(x)) by {
        if queue.contains(x) && !queue.take(r).contains(x) {
            let k = choose|k: int| 0 <= k < queue.len() && queue[k] == x;
            if k < r {
                assert(queue.take(r)[k] == x);
            } else {
                assert(queue.skip(r)[k - r] == x);
            }
        }
    }
}

/// Who holds and who waits after the pool was closed.
pub proof fn lemma_close_members(m: PoolModel)
    ensures
        m.close().0.holders == m.holders,
        m.close().0.waiters.len() == 0,
        m.close().1 == m.waiters,
        forall|x: Claim| !m.close().0.waiters.contains(x),
{
}

} // verus!
