//! Transaction ids: a counter over the positive 32-bit numbers that wraps
//! back to 1, and the search for the next id that no outstanding request
//! holds.

use crate::pending::{distinct_xids, has_xid, xids_of, Pending};
use vstd::prelude::*;
use vstd::set_lib::lemma_len_subset;

verus! {

/// The number of transaction ids: 1 up to the largest 32-bit number.
pub const XID_COUNT: i32 = 0x7fff_ffff;

/// The id that follows `x`: one more, and 1 after the largest.
pub open spec fn xid_succ(x: i32) -> i32 {
    if 1 <= x < i32::MAX {
        (x + 1) as i32
    } else {
        1
    }
}

/// The id `k` steps after `start`, wrapping from the largest back to 1.
pub open spec fn xid_after(start: i32, k: nat) -> i32
    recommends
        1 <= start,
{
    ((start - 1 + k) % (XID_COUNT as int) + 1) as i32
}

/// The first id at or after `start` that no entry of `s` holds, looking at
/// no more than `tries` ids after `start`.
pub open spec fn first_free(s: Seq<Pending>, start: i32, tries: nat) -> i32
    decreases tries,
{
    if tries == 0 || !has_xid(s, start) {
        start
    } else {
        first_free(s, xid_succ(start), (tries - 1) as nat)
    }
}

/// Whether every entry of `s` holds a positive transaction id.
pub open spec fn positive_xids(s: Seq<Pending>) -> bool {
    forall|i: int| 0 <= i < s.len() ==> (#[trigger] s[i]).xid >= 1
}

/// The ids that the first `k` steps from `start` pass.
pub open spec fn passed(start: i32, k: nat) -> Set<int> {
    Set::new(|x: int| exists|j: nat| j < k && #[trigger] xid_after(start, j) == x)
}

/// Stepping is counting: the next id is one step on, and ids stay positive.
pub proof fn lemma_xid_steps(start: i32, k: nat)
    requires
        1 <= start,
    ensures
        xid_after(start, 0) == start,
        1 <= xid_after(start, k),
        xid_after(start, k + 1) == xid_succ(xid_after(start, k)),
        xid_after(xid_succ(start), k) == xid_after(start, k + 1),
{
}

/// Fewer steps than there are ids never pass the same id twice.
pub proof fn lemma_xid_steps_differ(start: i32, j: nat, k: nat)
    requires
        1 <= start,
        j < k < XID_COUNT,
    ensures
        xid_after(start, j) != xid_after(start, k),
{
}

/// The first `k` steps pass `k` different ids.
proof fn lemma_passed_len(start: i32, k: nat)
    requires
        1 <= start,
        k <= XID_COUNT,
    ensures
        passed(start, k).finite(),
        passed(start, k).len() == k,
    decreases k,
{
    if k == 0 {
        assert(passed(start, 0) =~= Set::<int>::empty());
    } else {
        let before = (k - 1) as nat;
        lemma_passed_len(start, before);
        let x = xid_after(start, before) as int;
        assert forall|j: nat| j < before implies #[trigger] xid_after(start, j) != x by {
            lemma_xid_steps_differ(start, j, before);
        }
        assert(!passed(start, before).contains(x));
        assert(passed(start, k) =~= passed(start, before).insert(x)) by {
            assert forall|y: int| passed(start, k).contains(y) implies passed(
                start,
                before,
            ).insert(x).contains(y) by {
                let j = choose|j: nat| j < k && #[trigger] xid_after(start, j) == y;
                if j < before {
                    assert(passed(start, before).contains(y));
                }
            }
            assert(xid_after(start, before) == x);
        }
    }
}

/// A table without duplicates holds as many ids as it has entries.
proof fn lemma_xids_len(s: Seq<Pending>)
    requires
        distinct_xids(s),
    ensures
        xids_of(s).finite(),
        xids_of(s).len() == s.len(),
    decreases s.len(),
{
    if s.len() == 0 {
        assert(xids_of(s) =~= Set::<int>::empty());
    } else {
        let front = s.drop_last();
        let x = s.last().xid as int;
        lemma_xids_len(front);
        assert(!xids_of(front).contains(x)) by {
            if xids_of(front).contains(x) {
                let i = choose|i: int| 0 <= i < front.len() && (#[trigger] front[i]).xid == x;
                assert(s[i].xid == s[s.len() - 1].xid);
            }
        }
        assert(xids_of(s) =~= xids_of(front).insert(x)) by {
            assert forall|y: int| xids_of(s).contains(y) implies xids_of(front).insert(
                x,
            ).contains(y) by {
                let i = choose|i: int| 0 <= i < s.len() && (#[trigger] s[i]).xid == y;
                if i < front.len() {
                    assert(front[i].xid == y);
                }
            }
            assert forall|y: int| xids_of(front).insert(x).contains(y) implies xids_of(
                s,
            ).contains(y) by {
                if y == x {
                    assert(s[s.len() - 1].xid == y);
                } else {
                    let i = choose|i: int| 0 <= i < front.len() && (#[trigger] front[i]).xid == y;
                    assert(s[i].xid == y);
                }
            }
        }
    }
}

/// Among the ids that the first steps from `start` pass, one more than the
/// table has entries, some id is free.
proof fn lemma_some_step_is_free(s: Seq<Pending>, start: i32) -> (k: nat)
    requires
        distinct_xids(s),
        s.len() < XID_COUNT,
        1 <= start,
    ensures
        k <= s.len(),
        !has_xid(s, xid_after(start, k)),
        forall|j: nat| j < k ==> has_xid(s, #[trigger] xid_after(start, j)),
    decreases s.len() + 1,
{
    let n = (s.len() + 1) as nat;
    if forall|j: nat| j < n ==> has_xid(s, #[trigger] xid_after(start, j)) {
        lemma_passed_len(start, n);
        lemma_xids_len(s);
        assert(passed(start, n).subset_of(xids_of(s))) by {
            assert forall|x: int| passed(start, n).contains(x) implies xids_of(s).contains(x) by {
                let j = choose|j: nat| j < n && #[trigger] xid_after(start, j) == x;
                assert(has_xid(s, xid_after(start, j)));
            }
        }
        lemma_len_subset(passed(start, n), xids_of(s));
        assert(false);
    }
    lemma_least_free(s, start, n)
}

/// Where some step below `bound` reaches a free id, there is a first such
/// step.
proof fn lemma_least_free(s: Seq<Pending>, start: i32, bound: nat) -> (k: nat)
    requires
        exists|j: nat| j < bound && !has_xid(s, #[trigger] xid_after(start, j)),
    ensures
        k < bound,
        !has_xid(s, xid_after(start, k)),
        forall|j: nat| j < k ==> has_xid(s, #[trigger] xid_after(start, j)),
    decreases bound,
{
    let before = (bound - 1) as nat;
    if exists|j: nat| j < before && !has_xid(s, #[trigger] xid_after(start, j)) {
        lemma_least_free(s, start, before)
    } else {
        before
    }
}

/// The search stops at the first free step, where it has tries enough to
/// reach it.
proof fn lemma_first_free_at(s: Seq<Pending>, start: i32, tries: nat, k: nat)
    requires
        1 <= start,
        k <= tries,
        !has_xid(s, xid_after(start, k)),
        forall|j: nat| j < k ==> has_xid(s, #[trigger] xid_after(start, j)),
    ensures
        first_free(s, start, tries) == xid_after(start, k),
    decreases tries,
{
    lemma_xid_steps(start, 0);
    if k > 0 {
        assert(has_xid(s, xid_after(start, 0)));
        let next = xid_succ(start);
        assert forall|j: nat| j < k - 1 implies has_xid(s, #[trigger] xid_after(next, j)) by {
            lemma_xid_steps(start, j);
            assert(has_xid(s, xid_after(start, j + 1)));
        }
        lemma_xid_steps(start, (k - 1) as nat);
        lemma_first_free_at(s, next, (tries - 1) as nat, (k - 1) as nat);
    }
}

/// In a table without duplicates that holds fewer requests than there are
/// ids, the search from any id finds a positive id that no outstanding
/// request holds.
pub proof fn lemma_first_free_is_free(s: Seq<Pending>, start: i32)
    requires
        distinct_xids(s),
        s.len() < XID_COUNT,
        1 <= start,
    ensures
        !has_xid(s, first_free(s, start, s.len())),
        1 <= first_free(s, start, s.len()),
{
    let k = lemma_some_step_is_free(s, start);
    lemma_first_free_at(s, start, s.len(), k);
    lemma_xid_steps(start, k);
}

/// The search goes upwards from `start`: the id it finds is at or after
/// `start`, unless every id from `start` to the largest is held, and only
/// then does it wrap to a smaller one.
pub proof fn lemma_first_free_order(s: Seq<Pending>, start: i32)
    requires
        distinct_xids(s),
        s.len() < XID_COUNT,
        1 <= start,
    ensures
        first_free(s, start, s.len()) >= start || forall|y: i32|
            start <= y ==> has_xid(s, y),
{
    let k = lemma_some_step_is_free(s, start);
    lemma_first_free_at(s, start, s.len(), k);
    if first_free(s, start, s.len()) < start {
        assert forall|y: i32| start <= y implies has_xid(s, y) by {
            let j = (y - start) as nat;
            assert(j < k);
            assert(xid_after(start, j) == y);
        }
    }
}

/// The id that follows `x`.
pub fn next_xid(x: i32) -> (r: i32)
    ensures
        r == xid_succ(x),
        1 <= r,
{
    if 1 <= x && x < i32::MAX {
        x + 1
    } else {
        1
    }
}

} // verus!
