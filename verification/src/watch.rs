//! The registry of armed watches.
//!
//! A watch names a path, the kind of change it waits for, and the sink that
//! is to hear of it. An event reaches every watch on its path whose kind it
//! triggers; a one-shot watch leaves the registry as it fires, a persistent
//! one stays.

use crate::types::{EventKind, WatchedEvent, WatchedEventView};
use vstd::prelude::*;

verus! {

/// What a watch waits for, after the request that left it.
#[derive(Clone, Copy, Debug, PartialEq, Eq, Structural)]
pub enum WatchKind {
    /// Left by an existence check: creation, deletion or a change of data.
    Exists,
    /// Left by a read of the data: creation, a change of data or deletion.
    Data,
    /// Left by a listing of the children: a change of children or deletion.
    Children,
}

/// One armed watch.
#[derive(Debug, PartialEq, Eq)]
pub struct Watch {
    /// The node that is watched.
    pub path: String,
    /// The kind of change that is waited for.
    pub kind: WatchKind,
    /// Whether the watch stays armed after it has fired.
    pub persistent: bool,
    /// The sink that hears of the event.
    pub sink: u64,
}

/// What a `Watch` holds.
pub struct WatchView {
    pub path: Seq<char>,
    pub kind: WatchKind,
    pub persistent: bool,
    pub sink: u64,
}

impl View for Watch {
    type V = WatchView;

    open spec fn view(&self) -> WatchView {
        WatchView {
            path: self.path@,
            kind: self.kind,
            persistent: self.persistent,
            sink: self.sink,
        }
    }
}

/// The views of a sequence of watches.
pub open spec fn watch_views(s: Seq<Watch>) -> Seq<WatchView> {
    Seq::new(s.len(), |i: int| s[i]@)
}

/// Whether an event of kind `event` triggers a watch of kind `kind`. A
/// change of the session's state triggers none.
pub open spec fn triggers(kind: WatchKind, event: EventKind) -> bool {
    match event {
        EventKind::Session => false,
        EventKind::NodeCreated => kind == WatchKind::Exists || kind == WatchKind::Data,
        EventKind::NodeDataChanged => kind == WatchKind::Exists || kind == WatchKind::Data,
        EventKind::NodeDeleted => true,
        EventKind::NodeChildrenChanged => kind == WatchKind::Children,
    }
}

/// Whether `event` fires the watch `w`: it is on the watch's path and of a
/// kind that triggers it.
pub open spec fn fires(w: WatchView, event: WatchedEventView) -> bool {
    w.path == event.path && triggers(w.kind, event.kind)
}

/// The sinks that hear of `event`, in the order in which their watches were
/// registered: one for each watch that the event fires.
pub open spec fn notified(s: Seq<WatchView>, event: WatchedEventView) -> Seq<u64>
    decreases s.len(),
{
    if s.len() == 0 {
        Seq::empty()
    } else if fires(s.last(), event) {
        notified(s.drop_last(), event).push(s.last().sink)
    } else {
        notified(s.drop_last(), event)
    }
}

/// The watches that stay armed after `event`, in their order: all but the
/// one-shot watches that the event fires.
pub open spec fn kept(s: Seq<WatchView>, event: WatchedEventView) -> Seq<WatchView>
    decreases s.len(),
{
    if s.len() == 0 {
        Seq::empty()
    } else if fires(s.last(), event) && !s.last().persistent {
        kept(s.drop_last(), event)
    } else {
        kept(s.drop_last(), event).push(s.last())
    }
}

/// Whether every watch of `s` is a one-shot watch left by an existence
/// check.
pub open spec fn one_shot_exists(s: Seq<WatchView>) -> bool {
    forall|i: int|
        0 <= i < s.len() ==> !(#[trigger] s[i]).persistent && s[i].kind == WatchKind::Exists
}

/// Whether every watch of `s` is a one-shot watch.
pub open spec fn all_one_shot(s: Seq<WatchView>) -> bool {
    forall|i: int| 0 <= i < s.len() ==> !(#[trigger] s[i]).persistent
}

/// Whether an event of kind `event` triggers a watch of kind `kind`.
pub fn kind_triggers(kind: WatchKind, event: EventKind) -> (r: bool)
    ensures
        r == triggers(kind, event),
{
    match event {
        EventKind::Session => false,
        EventKind::NodeCreated | EventKind::NodeDataChanged => match kind {
            WatchKind::Exists | WatchKind::Data => true,
            WatchKind::Children => false,
        },
        EventKind::NodeDeleted => true,
        EventKind::NodeChildrenChanged => match kind {
            WatchKind::Children => true,
            _ => false,
        },
    }
}

/// The armed watches of one session, in the order of their registration.
pub struct WatchRegistry {
    watches: Vec<Watch>,
}

impl View for WatchRegistry {
    type V = Seq<WatchView>;

    closed spec fn view(&self) -> Seq<WatchView> {
        watch_views(self.watches@)
    }
}

impl WatchRegistry {
    /// A registry with no watch.
    pub fn new() -> (r: WatchRegistry)
        ensures
            r@ == Seq::<WatchView>::empty(),
    {
        let r = WatchRegistry { watches: Vec::new() };
        assert(watch_views(r.watches@) =~= Seq::<WatchView>::empty());
        r
    }

    /// The number of armed watches.
    pub fn len(&self) -> (r: usize)
        ensures
            r == self@.len(),
    {
        self.watches.len()
    }

    /// Arms a watch on `path` for changes of `kind`, to be heard by `sink`.
    pub fn register(&mut self, path: String, kind: WatchKind, persistent: bool, sink: u64)
        ensures
            final(self)@ == old(self)@.push(
                WatchView { path: path@, kind, persistent, sink },
            ),
    {
        self.watches.push(Watch { path, kind, persistent, sink });
        assert(watch_views(self.watches@) =~= watch_views(old(self).watches@).push(
            WatchView { path: path@, kind, persistent, sink },
        ));
    }

    /// Disarms every watch.
    pub fn clear(&mut self)
        ensures
            final(self)@ == Seq::<WatchView>::empty(),
    {
        self.watches.clear();
        assert(watch_views(self.watches@) =~= Seq::<WatchView>::empty());
    }

    /// Hands `event` to the watches it fires. The result names their sinks in
    /// the order of registration; it is empty where the event fires no watch
    /// and is then to be dropped. One-shot watches that fired leave the
    /// registry, every other watch stays in its place.
    pub fn dispatch(&mut self, event: &WatchedEvent) -> (r: Vec<u64>)
        ensures
            r@ == notified(old(self)@, event@),
            final(self)@ == kept(old(self)@, event@),
    {
        let mut out: Vec<u64> = Vec::new();
        let mut i: usize = 0;
        let ghost mut seen: int = 0;
        let ghost before = watch_views(self.watches@);
        while i < self.watches.len()
            invariant
                0 <= i <= self.watches@.len(),
                i <= seen <= before.len(),
                self.watches@.len() - i == before.len() - seen,
                watch_views(self.watches@).take(i as int) == kept(before.take(seen), event@),
                watch_views(self.watches@).skip(i as int) == before.skip(seen),
                out@ == notified(before.take(seen), event@),
            decreases self.watches@.len() - i,
        {
            let ghost current = watch_views(self.watches@);
            assert(current[i as int] == current.skip(i as int)[0]);
            assert(before.take(seen + 1).drop_last() =~= before.take(seen));
            assert(before.take(seen + 1).last() == before[seen]);
            let hit = self.watches[i].path == event.path && kind_triggers(
                self.watches[i].kind,
                event.kind,
            );
            if hit {
                out.push(self.watches[i].sink);
            }
            if hit && !self.watches[i].persistent {
                self.watches.remove(i);
                proof {
                    let now = watch_views(self.watches@);
                    assert(now =~= current.remove(i as int));
                    assert(now.take(i as int) =~= current.take(i as int));
                    assert(now.skip(i as int) =~= current.skip(i as int).skip(1));
                    assert(before.skip(seen).skip(1) =~= before.skip(seen + 1));
                }
            } else {
                proof {
                    assert(current.take(i + 1) =~= current.take(i as int).push(current[i as int]));
                    assert(current.skip(i + 1) =~= current.skip(i as int).skip(1));
                    assert(before.skip(seen).skip(1) =~= before.skip(seen + 1));
                }
                i += 1;
            }
            proof {
                seen = seen + 1;
            }
        }
        proof {
            assert(before.take(seen) =~= before);
            assert(watch_views(self.watches@).take(i as int) =~= watch_views(self.watches@));
        }
        out
    }
}

/// Every watch that stays was armed before, and is persistent or was not
/// fired.
pub proof fn lemma_kept_members(s: Seq<WatchView>, event: WatchedEventView, w: WatchView)
    requires
        kept(s, event).contains(w),
    ensures
        s.contains(w),
        w.persistent || !fires(w, event),
    decreases s.len(),
{
    if s.len() > 0 {
        let rest = kept(s.drop_last(), event);
        let i = choose|i: int| 0 <= i < kept(s, event).len() && kept(s, event)[i] == w;
        if fires(s.last(), event) && !s.last().persistent {
            lemma_kept_members(s.drop_last(), event, w);
            let k = choose|k: int| 0 <= k < s.drop_last().len() && s.drop_last()[k] == w;
            assert(s[k] == w);
        } else if i < rest.len() {
            assert(rest[i] == w);
            lemma_kept_members(s.drop_last(), event, w);
            let k = choose|k: int| 0 <= k < s.drop_last().len() && s.drop_last()[k] == w;
            assert(s[k] == w);
        } else {
            assert(s[s.len() - 1] == w);
        }
    }
}

/// Every sink that hears of an event belongs to an armed watch that the
/// event fires.
pub proof fn lemma_notified_members(s: Seq<WatchView>, event: WatchedEventView, sink: u64)
    requires
        notified(s, event).contains(sink),
    ensures
        exists|k: int| 0 <= k < s.len() && (#[trigger] s[k]).sink == sink && fires(s[k], event),
    decreases s.len(),
{
    if s.len() > 0 {
        let rest = notified(s.drop_last(), event);
        let all = notified(s, event);
        let i = choose|i: int| 0 <= i < all.len() && all[i] == sink;
        if fires(s.last(), event) && i == rest.len() {
            assert(s[s.len() - 1].sink == sink);
        } else {
            assert(rest[i] == sink);
            lemma_notified_members(s.drop_last(), event, sink);
            let k = choose|k: int|
                0 <= k < s.drop_last().len() && (#[trigger] s.drop_last()[k]).sink == sink
                    && fires(s.drop_last()[k], event);
            assert(s[k] == s.drop_last()[k]);
        }
    }
}

/// A one-shot watch fires at most once: once an event has fired it, it is
/// gone from the registry, and where no other armed watch shares its sink,
/// no later event is delivered to that sink.
pub proof fn lemma_one_shot_fires_once(
    s: Seq<WatchView>,
    w: WatchView,
    first: WatchedEventView,
    later: WatchedEventView,
)
    requires
        s.contains(w),
        !w.persistent,
        fires(w, first),
        forall|k: int| 0 <= k < s.len() && (#[trigger] s[k]).sink == w.sink ==> s[k] == w,
    ensures
        notified(s, first).contains(w.sink),
        !kept(s, first).contains(w),
        !notified(kept(s, first), later).contains(w.sink),
{
    lemma_fired_is_notified(s, w, first);
    if kept(s, first).contains(w) {
        lemma_kept_members(s, first, w);
    }
    let after = kept(s, first);
    if notified(after, later).contains(w.sink) {
        lemma_notified_members(after, later, w.sink);
        let k = choose|k: int|
            0 <= k < after.len() && (#[trigger] after[k]).sink == w.sink && fires(after[k], later);
        assert(after.contains(after[k]));
        lemma_kept_members(s, first, after[k]);
        let j = choose|j: int| 0 <= j < s.len() && s[j] == after[k];
        assert(s[j].sink == w.sink);
    }
}

/// An armed watch that an event fires has its sink among those that hear of
/// the event.
pub proof fn lemma_fired_is_notified(s: Seq<WatchView>, w: WatchView, event: WatchedEventView)
    requires
        s.contains(w),
        fires(w, event),
    ensures
        notified(s, event).contains(w.sink),
    decreases s.len(),
{
    let all = notified(s, event);
    if s.last() == w {
        assert(all[all.len() - 1] == w.sink);
    } else {
        let k = choose|k: int| 0 <= k < s.len() && s[k] == w;
        assert(s.drop_last()[k] == w);
        lemma_fired_is_notified(s.drop_last(), w, event);
        let rest = notified(s.drop_last(), event);
        let i = choose|i: int| 0 <= i < rest.len() && rest[i] == w.sink;
        assert(all[i] == w.sink);
    }
}

/// Every watch that stays was armed before, at its place among those that
/// stay: what is kept is what was there, less the watches that left.
pub proof fn lemma_kept_are_armed(s: Seq<WatchView>, event: WatchedEventView)
    ensures
        kept(s, event).len() <= s.len(),
        forall|i: int|
            0 <= i < kept(s, event).len() ==> s.contains(#[trigger] kept(s, event)[i]),
        one_shot_exists(s) ==> one_shot_exists(kept(s, event)),
        all_one_shot(s) ==> all_one_shot(kept(s, event)),
    decreases s.len(),
{
    let k = kept(s, event);
    assert forall|i: int| 0 <= i < k.len() implies s.contains(#[trigger] k[i]) by {
        assert(k.contains(k[i]));
        lemma_kept_members(s, event, k[i]);
    }
    if s.len() > 0 {
        lemma_kept_are_armed(s.drop_last(), event);
    }
    if one_shot_exists(s) {
        assert forall|i: int| 0 <= i < k.len() implies !(#[trigger] k[i]).persistent && k[i].kind
            == WatchKind::Exists by {
            assert(s.contains(k[i]));
            let j = choose|j: int| 0 <= j < s.len() && s[j] == k[i];
            assert(!s[j].persistent);
        }
    }
    if all_one_shot(s) {
        assert forall|i: int| 0 <= i < k.len() implies !(#[trigger] k[i]).persistent by {
            assert(s.contains(k[i]));
            let j = choose|j: int| 0 <= j < s.len() && s[j] == k[i];
            assert(!s[j].persistent);
        }
    }
}

/// An event leaves every other registration untouched: a watch that it does
/// not fire, and every persistent watch, is still armed after it.
pub proof fn lemma_unfired_stays(s: Seq<WatchView>, event: WatchedEventView, w: WatchView)
    requires
        s.contains(w),
        w.persistent || !fires(w, event),
    ensures
        kept(s, event).contains(w),
    decreases s.len(),
{
    let k = kept(s, event);
    if s.last() == w {
        assert(k[k.len() - 1] == w);
    } else {
        let j = choose|j: int| 0 <= j < s.len() && s[j] == w;
        assert(s.drop_last()[j] == w);
        lemma_unfired_stays(s.drop_last(), event, w);
        let rest = kept(s.drop_last(), event);
        let i = choose|i: int| 0 <= i < rest.len() && rest[i] == w;
        assert(k[i] == w);
    }
}

/// Among one-shot watches an event clears what it fires: after `first`, an
/// event that fires only watches that `first` fires too is delivered to no
/// sink at all.
pub proof fn lemma_fired_watches_are_gone(
    s: Seq<WatchView>,
    first: WatchedEventView,
    later: WatchedEventView,
)
    requires
        all_one_shot(s),
        forall|i: int| 0 <= i < s.len() && fires(#[trigger] s[i], later) ==> fires(s[i], first),
    ensures
        notified(kept(s, first), later) == Seq::<u64>::empty(),
    decreases s.len(),
{
    if s.len() > 0 {
        let front = s.drop_last();
        let w = s.last();
        assert forall|i: int| 0 <= i < front.len() && fires(
            #[trigger] front[i],
            later,
        ) implies fires(front[i], first) by {
            assert(front[i] == s[i]);
        }
        assert forall|i: int| 0 <= i < front.len() implies !(#[trigger] front[i]).persistent by {
            assert(front[i] == s[i]);
        }
        lemma_fired_watches_are_gone(front, first, later);
        assert(!s[s.len() - 1].persistent);
        if !fires(w, first) {
            let k = kept(front, first).push(w);
            assert(k.drop_last() =~= kept(front, first));
            assert(k.last() == w);
        }
    }
}

/// A one-shot watch fires at most once, whatever sinks other watches have:
/// among one-shot watches, an event for the same path and kind as one that
/// has been dispatched is delivered to no sink.
pub proof fn lemma_same_event_fires_nothing(
    s: Seq<WatchView>,
    first: WatchedEventView,
    later: WatchedEventView,
)
    requires
        all_one_shot(s),
        later.path == first.path,
        later.kind == first.kind,
    ensures
        notified(kept(s, first), later) == Seq::<u64>::empty(),
{
    lemma_fired_watches_are_gone(s, first, later);
}

/// Among one-shot watches left by existence checks, an event on a node that
/// triggers such a watch disarms every watch on that node: no later event on
/// the node, of whatever kind, is delivered to any sink.
pub proof fn lemma_fired_path_is_clear(
    s: Seq<WatchView>,
    first: WatchedEventView,
    later: WatchedEventView,
)
    requires
        one_shot_exists(s),
        triggers(WatchKind::Exists, first.kind),
        later.path == first.path,
    ensures
        notified(kept(s, first), later) == Seq::<u64>::empty(),
{
    lemma_fired_watches_are_gone(s, first, later);
}

} // verus!
