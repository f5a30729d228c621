//! The store of active alerts, each under a handle that is never reused.

use crate::alerts::Alert;
use crate::seq_facts::{lemma_filter_drops_one, lemma_filter_keeps_all, lemma_filter_twice};
use vstd::prelude::*;

verus! {

/// The test that an entry stands under another handle than `handle`.
pub open spec fn under_other(handle: u64) -> spec_fn((u64, Alert)) -> bool {
    |entry: (u64, Alert)| entry.0 != handle
}

/// The test that an entry stands under none of `handles`.
pub open spec fn under_none(handles: Seq<u64>) -> spec_fn((u64, Alert)) -> bool {
    |entry: (u64, Alert)| !handles.contains(entry.0)
}

/// The entries without the one under `handle`, the others in their order.
pub open spec fn without_handle(entries: Seq<(u64, Alert)>, handle: u64) -> Seq<(u64, Alert)> {
    entries.filter(under_other(handle))
}

/// The entries without those under any of `handles`, the others in their
/// order.
pub open spec fn without_handles(entries: Seq<(u64, Alert)>, handles: Seq<u64>) -> Seq<
    (u64, Alert),
> {
    entries.filter(under_none(handles))
}

/// Whether some entry stands under `handle`.
pub open spec fn holds_handle(entries: Seq<(u64, Alert)>, handle: u64) -> bool {
    exists|i: int| 0 <= i < entries.len() && entries[i].0 == handle
}

/// Whether the handles grow strictly along the entries.
pub open spec fn handles_ascend(entries: Seq<(u64, Alert)>) -> bool {
    forall|i: int, j: int| 0 <= i < j < entries.len() ==> entries[i].0 < entries[j].0
}

/// Removing a handle that no entry stands under changes nothing.
pub proof fn lemma_without_absent(entries: Seq<(u64, Alert)>, handle: u64)
    requires
        !holds_handle(entries, handle),
    ensures
        without_handle(entries, handle) == entries,
{
    lemma_filter_keeps_all(entries, under_other(handle));
}

/// Removing a handle that one entry alone stands under removes that entry.
pub proof fn lemma_without_present(entries: Seq<(u64, Alert)>, handle: u64, at: int)
    requires
        0 <= at < entries.len(),
        entries[at].0 == handle,
        forall|i: int| 0 <= i < entries.len() && i != at ==> entries[i].0 != handle,
    ensures
        without_handle(entries, handle) == entries.remove(at),
{
    lemma_filter_drops_one(entries, under_other(handle), at);
}

/// Removing some handles and one more is removing them all at once.
pub proof fn lemma_without_one_more(entries: Seq<(u64, Alert)>, done: Seq<u64>, handle: u64)
    ensures
        without_handle(without_handles(entries, done), handle) == without_handles(
            entries,
            done.push(handle),
        ),
{
    let more = done.push(handle);
    assert forall|h: u64| #[trigger] more.contains(h) == (done.contains(h) || h == handle) by {
        if done.contains(h) {
            let at = choose|at: int| 0 <= at < done.len() && done[at] == h;
            assert(more[at] == h);
        }
        if h == handle {
            assert(more[done.len() as int] == h);
        }
    }
    lemma_filter_twice(entries, under_none(done), under_other(handle), under_none(more));
}

/// Removing a handle a second time changes nothing.
pub proof fn law_remove_idempotent(entries: Seq<(u64, Alert)>, handle: u64)
    ensures
        without_handle(without_handle(entries, handle), handle) == without_handle(entries, handle),
{
    lemma_filter_twice(entries, under_other(handle), under_other(handle), under_other(handle));
}

/// A removal takes out the one entry under the handle and nothing else:
/// where no entry stands under it the entries stay as they are, and where
/// one does, the others keep their order around the gap.
pub proof fn law_remove_takes_one(entries: Seq<(u64, Alert)>, handle: u64)
    requires
        handles_ascend(entries),
    ensures
        !holds_handle(entries, handle) ==> without_handle(entries, handle) == entries,
        holds_handle(entries, handle) ==> exists|at: int|
            0 <= at < entries.len() && entries[at].0 == handle && without_handle(entries, handle)
                == entries.remove(at),
{
    if holds_handle(entries, handle) {
        let at = choose|at: int| 0 <= at < entries.len() && entries[at].0 == handle;
        lemma_without_present(entries, handle, at);
    } else {
        lemma_without_absent(entries, handle);
    }
}

/// After the removal of `handles`, an entry stands under a handle exactly if
/// one stood there before and the handle is none of `handles`.
pub proof fn law_remove_all_exact(entries: Seq<(u64, Alert)>, handles: Seq<u64>, handle: u64)
    ensures
        holds_handle(without_handles(entries, handles), handle) == (holds_handle(entries, handle)
            && !handles.contains(handle)),
{
    let kept = without_handles(entries, handles);
    if holds_handle(kept, handle) {
        let at = choose|at: int| 0 <= at < kept.len() && kept[at].0 == handle;
        entries.lemma_filter_pred(under_none(handles), at);
        assert(kept.contains(kept[at]));
        entries.lemma_filter_contains_rev(under_none(handles), kept[at]);
        let from = choose|from: int| 0 <= from < entries.len() && entries[from] == kept[at];
        assert(entries[from].0 == handle);
    }
    if holds_handle(entries, handle) && !handles.contains(handle) {
        let from = choose|from: int| 0 <= from < entries.len() && entries[from].0 == handle;
        assert(under_none(handles)(entries[from]));
        entries.lemma_filter_contains(under_none(handles), from);
        let at = choose|at: int| 0 <= at < kept.len() && kept[at] == entries[from];
        assert(kept[at].0 == handle);
    }
}

/// The entries of a watchlist that held `entries`, with `next` as its next
/// handle, after `alerts` have been added one by one.
pub open spec fn with_added(entries: Seq<(u64, Alert)>, next: u64, alerts: Seq<Alert>) -> Seq<
    (u64, Alert),
> {
    entries + Seq::new(alerts.len(), |i: int| ((next + i) as u64, alerts[i]))
}

/// No addition is lost and none is seen in part. After any number of
/// additions the entries are those from before, untouched, and every alert
/// that was added, whole, under a handle of its own, in the order of
/// addition. What was seen after the first `seen` additions is the beginning
/// of what is seen after all of them.
pub proof fn law_additions_all_kept(
    entries: Seq<(u64, Alert)>,
    next: u64,
    alerts: Seq<Alert>,
    alert: Alert,
    seen: int,
)
    requires
        next + alerts.len() < u64::MAX,
        0 <= seen <= alerts.len(),
    ensures
        with_added(entries, next, Seq::empty()) == entries,
        with_added(entries, next, alerts.push(alert)) == with_added(entries, next, alerts).push(
            ((next + alerts.len()) as u64, alert),
        ),
        with_added(entries, next, alerts.take(seen)) == with_added(entries, next, alerts).take(
            entries.len() + seen,
        ),
        forall|i: int|
            0 <= i < alerts.len() ==> with_added(entries, next, alerts)[entries.len() + i] == ((next
                + i) as u64, alerts[i]),
{
}

/// The alerts that are being watched, in the order in which they were added.
/// Each stands under the handle that `add` gave it; handles grow with every
/// addition and none is given twice.
#[derive(Debug)]
pub struct Watchlist {
    entries: Vec<(u64, Alert)>,
    next_handle: u64,
}

impl View for Watchlist {
    type V = Seq<(u64, Alert)>;

    closed spec fn view(&self) -> Seq<(u64, Alert)> {
        self.entries@
    }
}

impl Watchlist {
    /// The handle that the next addition will get.
    pub closed spec fn next_handle(self) -> u64 {
        self.next_handle
    }

    /// What holds of every watchlist, since `new` establishes it and every
    /// method keeps it: the handles grow strictly along the entries and stay
    /// below the next handle.
    pub open spec fn well_formed(self) -> bool {
        &&& handles_ascend(self@)
        &&& forall|i: int| 0 <= i < self@.len() ==> self@[i].0 < self.next_handle()
    }

    /// An empty watchlist.
    pub fn new() -> (list: Watchlist)
        ensures
            list@ == Seq::<(u64, Alert)>::empty(),
            list.next_handle() == 0,
            list.well_formed(),
    {
        Watchlist { entries: Vec::new(), next_handle: 0 }
    }

    /// The number of alerts.
    pub fn len(&self) -> (n: usize)
        ensures
            n == self@.len(),
    {
        self.entries.len()
    }

    /// Whether no alert is being watched.
    pub fn is_empty(&self) -> (empty: bool)
        ensures
            empty == (self@.len() == 0),
    {
        self.entries.len() == 0
    }

    /// Whether another alert can be added: whether a handle is left.
    pub fn has_room(&self) -> (room: bool)
        ensures
            room == (self.next_handle() < u64::MAX),
    {
        self.next_handle < u64::MAX
    }

    /// Adds `alert` at the end, under a handle that no entry has or had.
    pub fn add(&mut self, alert: Alert) -> (handle: u64)
        requires
            old(self).well_formed(),
            old(self).next_handle() < u64::MAX,
        ensures
            final(self)@ == old(self)@.push((handle, alert)),
            handle == old(self).next_handle(),
            final(self).next_handle() == handle + 1,
            !holds_handle(old(self)@, handle),
            final(self).well_formed(),
    {
        let handle: u64 = self.next_handle;
        self.next_handle = handle + 1;
        self.entries.push((handle, alert));
        handle
    }

    /// A copy of the entries, each with its handle, in the order of addition.
    pub fn snapshot(&self) -> (copy: Vec<(u64, Alert)>)
        ensures
            copy@ == self@,
    {
        let mut copy: Vec<(u64, Alert)> = Vec::new();
        let mut i: usize = 0;
        while i < self.entries.len()
            invariant
                i <= self.entries.len(),
                copy@ == self.entries@.take(i as int),
            decreases self.entries.len() - i,
        {
            let entry: &(u64, Alert) = &self.entries[i];
            copy.push((entry.0, entry.1.clone()));
            assert(self.entries@.take(i as int + 1) == self.entries@.take(i as int).push(
                self.entries@[i as int],
            ));
            i += 1;
        }
        assert(self.entries@.take(i as int) == self.entries@);
        copy
    }

    /// Removes the entry under `handle`, if there is one, and says whether
    /// there was. Every other entry stays, in its place among the others.
    pub fn remove_by_handle(&mut self, handle: u64) -> (removed: bool)
        requires
            old(self).well_formed(),
        ensures
            final(self)@ == without_handle(old(self)@, handle),
            removed == holds_handle(old(self)@, handle),
            final(self).next_handle() == old(self).next_handle(),
            final(self).well_formed(),
    {
        let mut i: usize = 0;
        while i < self.entries.len()
            invariant
                i <= self.entries.len(),
                *self == *old(self),
                self.well_formed(),
                forall|j: int| 0 <= j < i ==> self.entries@[j].0 != handle,
            decreases self.entries.len() - i,
        {
            if self.entries[i].0 == handle {
                proof {
                    lemma_without_present(self.entries@, handle, i as int);
                }
                self.entries.remove(i);
                return true;
            }
            i += 1;
        }
        proof {
            lemma_without_absent(self.entries@, handle);
        }
        false
    }

    /// Removes the entries under any of `handles`. Every other entry stays,
    /// in its place among the others.
    pub fn remove_all(&mut self, handles: &Vec<u64>)
        requires
            old(self).well_formed(),
        ensures
            final(self)@ == without_handles(old(self)@, handles@),
            final(self).next_handle() == old(self).next_handle(),
            final(self).well_formed(),
    {
        proof {
            lemma_filter_keeps_all(self@, under_none(handles@.take(0)));
        }
        let mut k: usize = 0;
        while k < handles.len()
            invariant
                k <= handles.len(),
                self@ == without_handles(old(self)@, handles@.take(k as int)),
                self.next_handle() == old(self).next_handle(),
                self.well_formed(),
            decreases handles.len() - k,
        {
            let handle: u64 = handles[k];
            proof {
                assert(handles@.take(k as int + 1) == handles@.take(k as int).push(handle));
                lemma_without_one_more(old(self)@, handles@.take(k as int), handle);
            }
            self.remove_by_handle(handle);
            k += 1;
        }
        assert(handles@.take(k as int) == handles@);
    }
}

} // verus!
