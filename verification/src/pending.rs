//! The table of outstanding requests, keyed by transaction id.
//!
//! A request enters the table when it is enqueued and leaves it exactly once:
//! when its reply arrives, or when the connection is lost and every entry is
//! failed together. What leaves the table is handed back as a completion, so
//! nothing is resolved twice and nothing is dropped unresolved.

use crate::types::{OpCode, Response, ResponseView, ZkError};
use vstd::prelude::*;

verus! {

/// Why a request did not get a response.
#[derive(Clone, Copy, Debug, PartialEq, Eq, Structural)]
pub enum Failure {
    /// The server answered with an error code.
    Server(ZkError),
    /// The connection was lost before the reply arrived.
    ConnectionLost,
    /// The session has expired or was closed.
    SessionOver,
}

/// An outstanding request: its transaction id and the operation it asked for.
#[derive(Clone, Copy, Debug, PartialEq, Eq, Structural)]
pub struct Pending {
    pub xid: i32,
    pub op: OpCode,
}

/// The end of one request: the single result that its waiter receives.
#[derive(Debug, PartialEq, Eq)]
pub struct Completion {
    pub xid: i32,
    pub outcome: Result<Response, Failure>,
}

/// What a `Completion` holds.
pub struct CompletionView {
    pub xid: i32,
    pub outcome: Result<ResponseView, Failure>,
}

impl View for Completion {
    type V = CompletionView;

    open spec fn view(&self) -> CompletionView {
        CompletionView {
            xid: self.xid,
            outcome: match self.outcome {
                Ok(resp) => Ok(resp@),
                Err(f) => Err(f),
            },
        }
    }
}

/// The completion that fails the request `p` for `reason`.
pub open spec fn failed(p: Pending, reason: Failure) -> CompletionView {
    CompletionView { xid: p.xid, outcome: Err(reason) }
}

/// Whether some entry of `s` has the transaction id `xid`.
pub open spec fn has_xid(s: Seq<Pending>, xid: i32) -> bool {
    exists|i: int| 0 <= i < s.len() && (#[trigger] s[i]).xid == xid
}

/// Whether no two entries of `s` share a transaction id.
pub open spec fn distinct_xids(s: Seq<Pending>) -> bool {
    forall|i: int, j: int| 0 <= i < j < s.len() ==> (#[trigger] s[i]).xid != (#[trigger] s[j]).xid
}

/// The place of the entry with transaction id `xid` in `s`.
pub open spec fn position_of(s: Seq<Pending>, xid: i32) -> int
    recommends
        has_xid(s, xid),
{
    choose|i: int| 0 <= i < s.len() && (#[trigger] s[i]).xid == xid
}

/// The transaction ids of the entries of `s`.
pub open spec fn xids_of(s: Seq<Pending>) -> Set<int> {
    Set::new(|x: int| exists|i: int| 0 <= i < s.len() && (#[trigger] s[i]).xid == x)
}

/// The outstanding requests of one session, oldest first.
pub struct PendingTable {
    entries: Vec<Pending>,
}

impl View for PendingTable {
    type V = Seq<Pending>;

    closed spec fn view(&self) -> Seq<Pending> {
        self.entries@
    }
}

impl PendingTable {
    /// The table's invariant: at most one waiter per transaction id.
    pub open spec fn wf(&self) -> bool {
        distinct_xids(self@)
    }

    /// Whether a request with transaction id `xid` is outstanding.
    pub open spec fn contains(&self, xid: i32) -> bool {
        has_xid(self@, xid)
    }

    /// An empty table.
    pub fn new() -> (r: PendingTable)
        ensures
            r@ == Seq::<Pending>::empty(),
            r.wf(),
    {
        PendingTable { entries: Vec::new() }
    }

    /// The number of outstanding requests.
    pub fn len(&self) -> (r: usize)
        ensures
            r == self@.len(),
    {
        self.entries.len()
    }

    /// Whether no request is outstanding.
    pub fn is_empty(&self) -> (r: bool)
        ensures
            r == (self@.len() == 0),
    {
        self.entries.len() == 0
    }

    /// Finds the place of the entry with transaction id `xid`.
    fn find(&self, xid: i32) -> (r: Option<usize>)
        ensures
            r is Some <==> self.contains(xid),
            r matches Some(i) ==> i < self@.len() && self@[i as int].xid == xid,
    {
        let mut i: usize = 0;
        while i < self.entries.len()
            invariant
                i <= self.entries@.len(),
                forall|j: int| 0 <= j < i ==> (#[trigger] self.entries@[j]).xid != xid,
            decreases self.entries@.len() - i,
        {
            if self.entries[i].xid == xid {
                return Some(i);
            }
            i += 1;
        }
        None
    }

    /// The operation of the outstanding request `xid`, if there is one.
    pub fn op_of(&self, xid: i32) -> (r: Option<OpCode>)
        requires
            self.wf(),
        ensures
            r is Some <==> self.contains(xid),
            r matches Some(op) ==> op == self@[position_of(self@, xid)].op,
    {
        match self.find(xid) {
            Some(i) => Some(self.entries[i].op),
            None => None,
        }
    }

    /// Records a waiter for `xid`. It fails exactly when `xid` is already
    /// outstanding, and then leaves the table as it was.
    pub fn register(&mut self, xid: i32, op: OpCode) -> (r: Result<(), Pending>)
        requires
            old(self).wf(),
        ensures
            final(self).wf(),
            r is Ok <==> !old(self).contains(xid),
            r is Ok ==> final(self)@ == old(self)@.push(Pending { xid, op }),
            r matches Err(p) ==> final(self)@ == old(self)@ && p == old(self)@[position_of(
                old(self)@,
                xid,
            )],
    {
        match self.find(xid) {
            Some(i) => Err(self.entries[i]),
            None => {
                self.entries.push(Pending { xid, op });
                Ok(())
            },
        }
    }

    /// Resolves the request `xid` with `outcome`. Where `xid` is outstanding
    /// its entry leaves the table and the completion is handed back; where it
    /// is not, nothing changes and nothing is handed back.
    pub fn complete(&mut self, xid: i32, outcome: Result<Response, Failure>) -> (r: Option<
        Completion,
    >)
        requires
            old(self).wf(),
        ensures
            final(self).wf(),
            r is Some <==> old(self).contains(xid),
            r matches Some(c) ==> c.xid == xid && c.outcome == outcome && final(self)@ == old(
                self,
            )@.remove(position_of(old(self)@, xid)),
            r is None ==> final(self)@ == old(self)@,
            !final(self).contains(xid),
            forall|other: i32|
                other != xid ==> (final(self).contains(other) <==> old(self).contains(other)),
    {
        match self.find(xid) {
            Some(i) => {
                let ghost before = self.entries@;
                self.entries.remove(i);
                proof {
                    lemma_remove_keeps_others(before, i as int);
                }
                Some(Completion { xid, outcome })
            },
            None => None,
        }
    }

    /// Resolves every outstanding request with the failure `reason` and
    /// empties the table. The completions come oldest first, one for each
    /// request that was outstanding.
    pub fn fail_all(&mut self, reason: Failure) -> (r: Vec<Completion>)
        ensures
            final(self)@ == Seq::<Pending>::empty(),
            final(self).wf(),
            r@.len() == old(self)@.len(),
            forall|i: int| 0 <= i < r@.len() ==> (#[trigger] r@[i])@ == failed(old(self)@[i], reason),
    {
        let mut out: Vec<Completion> = Vec::new();
        let mut i: usize = 0;
        while i < self.entries.len()
            invariant
                i <= self.entries@.len(),
                self.entries@ == old(self).entries@,
                out@.len() == i,
                forall|j: int|
                    0 <= j < i ==> (#[trigger] out@[j])@ == failed(old(self).entries@[j], reason),
            decreases self.entries@.len() - i,
        {
            out.push(Completion { xid: self.entries[i].xid, outcome: Err(reason) });
            i += 1;
        }
        self.entries.clear();
        out
    }
}

/// Taking one entry out of a table without duplicates removes its
/// transaction id and no other.
pub proof fn lemma_remove_keeps_others(s: Seq<Pending>, i: int)
    requires
        distinct_xids(s),
        0 <= i < s.len(),
    ensures
        distinct_xids(s.remove(i)),
        position_of(s, s[i].xid) == i,
        !has_xid(s.remove(i), s[i].xid),
        forall|other: i32|
            other != s[i].xid ==> (has_xid(s.remove(i), other) <==> has_xid(s, other)),
{
    let t = s.remove(i);
    assert forall|other: i32| other != s[i].xid && has_xid(s, other) implies has_xid(
        t,
        other,
    ) by {
        let k = choose|k: int| 0 <= k < s.len() && (#[trigger] s[k]).xid == other;
        if k < i {
            assert(t[k] == s[k]);
        } else {
            assert(t[k - 1] == s[k]);
        }
    }
    assert forall|other: i32| has_xid(t, other) implies has_xid(s, other) && other
        != s[i].xid by {
        let k = choose|k: int| 0 <= k < t.len() && (#[trigger] t[k]).xid == other;
        if k < i {
            assert(s[k] == t[k]);
        } else {
            assert(s[k + 1] == t[k]);
        }
    }
}

} // verus!
