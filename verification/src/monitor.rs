//! One pass of the alert monitor over a snapshot of the watchlist: resolve
//! each alert's price, deliver the alerts that fire, and note those that
//! were delivered, so that they are removed when the pass is over.

use crate::alerts::Alert;
use crate::binary64::Binary64;
use crate::watchlist::{
    handles_ascend,
    holds_handle,
    law_remove_all_exact,
    under_none,
    with_added,
    without_handles,
};
use vstd::prelude::*;

verus! {

/// The pause after each entry of a pass, in milliseconds.
pub const ENTRY_PAUSE_MILLIS: u64 = 200;

/// The sleep between two passes, in seconds.
pub const PASS_INTERVAL_SECS: u64 = 60;

/// What a pass is waiting for.
#[derive(Debug, PartialEq, Eq)]
pub enum PassPhase {
    /// The price of this entry's ticker.
    Resolving { handle: u64, alert: Alert },
    /// The outcome of delivering this entry, which fired at `price`.
    Delivering { handle: u64, alert: Alert, price: Binary64 },
    /// The end of the pause after an entry.
    Pausing,
    /// Nothing: the pass is over.
    Finished,
}

/// What happened to the action that a pass asked for.
#[derive(Clone, Copy, Debug, PartialEq, Eq, Structural)]
pub enum PassEvent {
    /// The ticker's price was resolved.
    Resolved { price: Binary64 },
    /// No source had a price for the ticker, or the resolution failed.
    Unresolved,
    /// The notification was delivered.
    Delivered,
    /// The notification was not delivered.
    DeliveryFailed,
    /// The pause is over.
    Paused,
}

/// What the caller of a pass does next.
#[derive(Debug, PartialEq, Eq)]
pub enum PassAction {
    /// Resolve the price of `ticker`, for the entry under `handle`.
    Resolve { handle: u64, ticker: String },
    /// Notify the alert's destination that it fired at `price`.
    Deliver { handle: u64, alert: Alert, price: Binary64 },
    /// Wait for `millis` milliseconds.
    Pause { millis: u64 },
    /// The pass is over: remove the marked handles from the watchlist, and
    /// start the next pass after `sleep_secs` seconds.
    Finish { sleep_secs: u64 },
}

/// A pass, with its sequences as they are.
pub struct PassState {
    /// The entries that the pass has not come to yet.
    pub pending: Seq<(u64, Alert)>,
    pub phase: PassPhase,
    /// The handles of the entries that fired and were delivered.
    pub marked: Seq<u64>,
}

impl PassState {
    /// The pass over `snapshot` and its first action. An empty snapshot is
    /// over at once.
    pub open spec fn begin(snapshot: Seq<(u64, Alert)>) -> (PassState, PassAction) {
        PassState { pending: snapshot, phase: PassPhase::Pausing, marked: Seq::empty() }.proceed()
    }

    /// The pass turned to its next entry, or over when none is pending.
    pub open spec fn proceed(self) -> (PassState, PassAction) {
        if self.pending.len() > 0 {
            let (handle, alert) = self.pending[0];
            (
                PassState {
                    pending: self.pending.drop_first(),
                    phase: PassPhase::Resolving { handle, alert },
                    marked: self.marked,
                },
                PassAction::Resolve { handle, ticker: alert.ticker },
            )
        } else {
            (
                PassState {
                    pending: self.pending,
                    phase: PassPhase::Finished,
                    marked: self.marked,
                },
                PassAction::Finish { sleep_secs: PASS_INTERVAL_SECS },
            )
        }
    }

    /// The pass pausing after its entry, with `marked` as the handles to
    /// remove.
    pub open spec fn pause(self, marked: Seq<u64>) -> (PassState, Option<PassAction>) {
        (
            PassState { pending: self.pending, phase: PassPhase::Pausing, marked },
            Some(PassAction::Pause { millis: ENTRY_PAUSE_MILLIS }),
        )
    }

    /// The pass and the action that `event` leads to.
    ///
    /// A resolved price at which the entry fires leads to its delivery; any
    /// other resolution leaves the entry alone. Only a delivery that
    /// succeeded marks the entry's handle. Every entry ends with a pause,
    /// and the pause with the next entry or the end of the pass. An event
    /// that does not answer the action in flight changes nothing and leads
    /// to no action.
    pub open spec fn after(self, event: PassEvent) -> (PassState, Option<PassAction>) {
        match (self.phase, event) {
            (PassPhase::Resolving { handle, alert }, PassEvent::Resolved { price }) => {
                if alert.fires_at(price) {
                    (
                        PassState {
                            pending: self.pending,
                            phase: PassPhase::Delivering { handle, alert, price },
                            marked: self.marked,
                        },
                        Some(PassAction::Deliver { handle, alert, price }),
                    )
                } else {
                    self.pause(self.marked)
                }
            },
            (PassPhase::Resolving { .. }, PassEvent::Unresolved) => self.pause(self.marked),
            (PassPhase::Delivering { handle, .. }, PassEvent::Delivered) => self.pause(
                self.marked.push(handle),
            ),
            (PassPhase::Delivering { .. }, PassEvent::DeliveryFailed) => self.pause(self.marked),
            (PassPhase::Pausing, PassEvent::Paused) => {
                let (state, action) = self.proceed();
                (state, Some(action))
            },
            _ => (self, None),
        }
    }
}

impl PassState {
    /// The pass after all of `events`, in order.
    pub open spec fn run(self, events: Seq<PassEvent>) -> PassState
        decreases events.len(),
    {
        if events.len() == 0 {
            self
        } else {
            self.after(events[0]).0.run(events.drop_first())
        }
    }

    /// The actions that `events` lead to, in order.
    pub open spec fn trace(self, events: Seq<PassEvent>) -> Seq<PassAction>
        decreases events.len(),
    {
        if events.len() == 0 {
            Seq::empty()
        } else {
            let (state, action) = self.after(events[0]);
            let rest = state.trace(events.drop_first());
            match action {
                Some(action) => seq![action] + rest,
                None => rest,
            }
        }
    }
}

/// How one entry of a pass goes: what its ticker's price resolves to, if to
/// anything, and whether a notification gets through.
pub struct EntryOutcome {
    pub price: Option<Binary64>,
    pub delivers: bool,
}

impl EntryOutcome {
    /// Whether `alert` fires.
    pub open spec fn fires(self, alert: Alert) -> bool {
        self.price is Some && alert.fires_at(self.price->Some_0)
    }

    /// Whether `alert` fires and its notification gets through.
    pub open spec fn retires(self, alert: Alert) -> bool {
        self.fires(alert) && self.delivers
    }

    /// What happens to the actions for `alert`, in order.
    pub open spec fn events(self, alert: Alert) -> Seq<PassEvent> {
        match self.price {
            None => seq![PassEvent::Unresolved, PassEvent::Paused],
            Some(price) => if !alert.fires_at(price) {
                seq![PassEvent::Resolved { price }, PassEvent::Paused]
            } else if self.delivers {
                seq![PassEvent::Resolved { price }, PassEvent::Delivered, PassEvent::Paused]
            } else {
                seq![PassEvent::Resolved { price }, PassEvent::DeliveryFailed, PassEvent::Paused]
            },
        }
    }

    /// The actions that are due for `alert` under `handle`: its price is
    /// resolved once, it is delivered once if it fires and not at all
    /// otherwise, and a pause follows.
    pub open spec fn actions(self, handle: u64, alert: Alert) -> Seq<PassAction> {
        let resolve = PassAction::Resolve { handle, ticker: alert.ticker };
        let pause = PassAction::Pause { millis: ENTRY_PAUSE_MILLIS };
        if self.fires(alert) {
            seq![resolve, PassAction::Deliver { handle, alert, price: self.price->Some_0 }, pause]
        } else {
            seq![resolve, pause]
        }
    }
}

/// What happens during a pass over `entries` that go as `outcomes` say.
pub open spec fn pass_events(entries: Seq<(u64, Alert)>, outcomes: Seq<EntryOutcome>) -> Seq<
    PassEvent,
>
    decreases entries.len(),
{
    if entries.len() == 0 {
        Seq::empty()
    } else {
        outcomes[0].events(entries[0].1) + pass_events(
            entries.drop_first(),
            outcomes.drop_first(),
        )
    }
}

/// The actions that are due in a pass over `entries` that go as `outcomes`
/// say: those of each entry, in the entries' order, and the end of the pass.
pub open spec fn pass_actions(entries: Seq<(u64, Alert)>, outcomes: Seq<EntryOutcome>) -> Seq<
    PassAction,
>
    decreases entries.len(),
{
    if entries.len() == 0 {
        seq![PassAction::Finish { sleep_secs: PASS_INTERVAL_SECS }]
    } else {
        outcomes[0].actions(entries[0].0, entries[0].1) + pass_actions(
            entries.drop_first(),
            outcomes.drop_first(),
        )
    }
}

/// The handles of the entries that fire and are delivered, in the entries'
/// order.
pub open spec fn pass_retired(entries: Seq<(u64, Alert)>, outcomes: Seq<EntryOutcome>) -> Seq<u64>
    decreases entries.len(),
{
    if entries.len() == 0 {
        Seq::empty()
    } else {
        let rest = pass_retired(entries.drop_first(), outcomes.drop_first());
        if outcomes[0].retires(entries[0].1) {
            seq![entries[0].0] + rest
        } else {
            rest
        }
    }
}

/// Running on one event and more is one step and a run on the rest.
proof fn lemma_run_first(state: PassState, event: PassEvent, rest: Seq<PassEvent>)
    ensures
        state.run(seq![event] + rest) == state.after(event).0.run(rest),
        state.trace(seq![event] + rest) == match state.after(event).1 {
            Some(action) => seq![action] + state.after(event).0.trace(rest),
            None => state.after(event).0.trace(rest),
        },
{
    let events = seq![event] + rest;
    assert(events[0] == event);
    assert(events.drop_first() == rest);
}

/// From the pause before an entry on, a pass does what is due for the
/// entries that are pending, and marks those that fire and are delivered.
proof fn lemma_pass_from(state: PassState, outcomes: Seq<EntryOutcome>)
    requires
        state.phase is Pausing,
        outcomes.len() == state.pending.len(),
    ensures
        state.proceed().0.run(pass_events(state.pending, outcomes)) == (PassState {
            pending: Seq::empty(),
            phase: PassPhase::Finished,
            marked: state.marked + pass_retired(state.pending, outcomes),
        }),
        seq![state.proceed().1] + state.proceed().0.trace(pass_events(state.pending, outcomes))
            == pass_actions(state.pending, outcomes),
    decreases state.pending.len(),
{
    let (resolving, first) = state.proceed();
    let entries = state.pending;
    if entries.len() == 0 {
        assert(entries == Seq::<(u64, Alert)>::empty());
        assert(state.marked + pass_retired(entries, outcomes) == state.marked);
        assert(seq![first] + resolving.trace(pass_events(entries, outcomes)) == pass_actions(
            entries,
            outcomes,
        ));
    } else {
        let (handle, alert) = entries[0];
        let outcome = outcomes[0];
        let later = pass_events(entries.drop_first(), outcomes.drop_first());
        let paused = seq![PassEvent::Paused] + later;
        let marked = if outcome.retires(alert) {
            state.marked.push(handle)
        } else {
            state.marked
        };
        let pausing = PassState {
            pending: entries.drop_first(),
            phase: PassPhase::Pausing,
            marked,
        };
        lemma_pass_from(pausing, outcomes.drop_first());
        lemma_run_first(pausing, PassEvent::Paused, later);
        match outcome.price {
            None => {
                assert(pass_events(entries, outcomes) == seq![PassEvent::Unresolved] + paused);
                lemma_run_first(resolving, PassEvent::Unresolved, paused);
            },
            Some(price) => {
                let resolved = PassEvent::Resolved { price };
                if !alert.fires_at(price) {
                    assert(pass_events(entries, outcomes) == seq![resolved] + paused);
                    lemma_run_first(resolving, resolved, paused);
                } else {
                    let result = if outcome.delivers {
                        PassEvent::Delivered
                    } else {
                        PassEvent::DeliveryFailed
                    };
                    assert(pass_events(entries, outcomes) == seq![resolved] + (seq![result]
                        + paused));
                    lemma_run_first(resolving, resolved, seq![result] + paused);
                    lemma_run_first(resolving.after(resolved).0, result, paused);
                }
            },
        }
        assert(state.marked + pass_retired(entries, outcomes) == marked + pass_retired(
            entries.drop_first(),
            outcomes.drop_first(),
        ));
        assert(seq![first] + resolving.trace(pass_events(entries, outcomes)) == pass_actions(
            entries,
            outcomes,
        ));
    }
}

/// A pass over `snapshot` whose entries go as `outcomes` say asks for
/// exactly the actions that are due, in the snapshot's order: each entry is
/// resolved once, delivered once if it fires and never otherwise. It ends
/// with exactly the handles marked whose entries fired and were delivered.
pub proof fn law_pass_fires_each_once(snapshot: Seq<(u64, Alert)>, outcomes: Seq<EntryOutcome>)
    requires
        outcomes.len() == snapshot.len(),
    ensures
        PassState::begin(snapshot).0.run(pass_events(snapshot, outcomes)) == (PassState {
            pending: Seq::empty(),
            phase: PassPhase::Finished,
            marked: pass_retired(snapshot, outcomes),
        }),
        seq![PassState::begin(snapshot).1] + PassState::begin(snapshot).0.trace(
            pass_events(snapshot, outcomes),
        ) == pass_actions(snapshot, outcomes),
{
    let state = PassState { pending: snapshot, phase: PassPhase::Pausing, marked: Seq::empty() };
    lemma_pass_from(state, outcomes);
    assert(state.marked + pass_retired(snapshot, outcomes) == pass_retired(snapshot, outcomes));
}

/// A handle is marked exactly if an entry under it fired and was delivered.
pub proof fn lemma_retired_are_delivered(
    entries: Seq<(u64, Alert)>,
    outcomes: Seq<EntryOutcome>,
    handle: u64,
)
    requires
        outcomes.len() == entries.len(),
    ensures
        pass_retired(entries, outcomes).contains(handle) == exists|i: int|
            0 <= i < entries.len() && entries[i].0 == handle && outcomes[i].retires(entries[i].1),
    decreases entries.len(),
{
    let retired = pass_retired(entries, outcomes);
    if entries.len() > 0 {
        let rest = pass_retired(entries.drop_first(), outcomes.drop_first());
        lemma_retired_are_delivered(entries.drop_first(), outcomes.drop_first(), handle);
        if retired.contains(handle) {
            let at = choose|at: int| 0 <= at < retired.len() && retired[at] == handle;
            if outcomes[0].retires(entries[0].1) && at == 0 {
                assert(entries[0].0 == handle);
            } else {
                let back: int = if outcomes[0].retires(entries[0].1) {
                    at - 1
                } else {
                    at
                };
                assert(rest[back] == handle);
                let i = choose|i: int|
                    0 <= i < entries.drop_first().len() && entries.drop_first()[i].0 == handle
                        && outcomes.drop_first()[i].retires(entries.drop_first()[i].1);
                assert(entries[i + 1].0 == handle && outcomes[i + 1].retires(entries[i + 1].1));
            }
        }
        if exists|i: int|
            0 <= i < entries.len() && entries[i].0 == handle && outcomes[i].retires(entries[i].1) {
            let i = choose|i: int|
                0 <= i < entries.len() && entries[i].0 == handle && outcomes[i].retires(
                    entries[i].1,
                );
            if i == 0 {
                assert(retired[0] == handle);
            } else {
                assert(entries.drop_first()[i - 1].0 == handle && outcomes.drop_first()[i
                    - 1].retires(entries.drop_first()[i - 1].1));
                let at = choose|at: int| 0 <= at < rest.len() && rest[at] == handle;
                let forth: int = if outcomes[0].retires(entries[0].1) {
                    at + 1
                } else {
                    at
                };
                assert(retired[forth] == handle);
            }
        }
    }
}

/// An alert leaves the watchlist exactly when it has fired and been
/// delivered. Let a pass run over `snapshot` with `outcomes`, and let its
/// marked handles be removed from `current`, the entries of the watchlist at
/// that time. An entry stands under `handle` afterwards exactly if one stood
/// there in `current` and no entry of the snapshot under that handle fired
/// and was delivered. An alert that did not fire, or whose delivery failed,
/// stays; so does one that was added after the snapshot was taken.
pub proof fn law_delivered_alerts_leave(
    snapshot: Seq<(u64, Alert)>,
    outcomes: Seq<EntryOutcome>,
    current: Seq<(u64, Alert)>,
    handle: u64,
)
    requires
        outcomes.len() == snapshot.len(),
    ensures
        holds_handle(without_handles(current, pass_retired(snapshot, outcomes)), handle) == (
        holds_handle(current, handle) && !exists|i: int|
            0 <= i < snapshot.len() && snapshot[i].0 == handle && outcomes[i].retires(
                snapshot[i].1,
            )),
{
    lemma_retired_are_delivered(snapshot, outcomes, handle);
    law_remove_all_exact(current, pass_retired(snapshot, outcomes), handle);
}

/// Every action of a pass is for an entry of its snapshot, but for the
/// pauses and the end.
pub proof fn law_pass_concerns_its_snapshot(
    snapshot: Seq<(u64, Alert)>,
    outcomes: Seq<EntryOutcome>,
    i: int,
)
    requires
        outcomes.len() == snapshot.len(),
        0 <= i < pass_actions(snapshot, outcomes).len(),
    ensures
        match pass_actions(snapshot, outcomes)[i] {
            PassAction::Resolve { handle, .. } => holds_handle(snapshot, handle),
            PassAction::Deliver { handle, .. } => holds_handle(snapshot, handle),
            PassAction::Pause { .. } => true,
            PassAction::Finish { .. } => true,
        },
    decreases snapshot.len(),
{
    if snapshot.len() > 0 {
        let first = outcomes[0].actions(snapshot[0].0, snapshot[0].1);
        if i < first.len() {
            assert(pass_actions(snapshot, outcomes)[i] == first[i]);
            assert(holds_handle(snapshot, snapshot[0].0));
        } else {
            let rest = snapshot.drop_first();
            law_pass_concerns_its_snapshot(rest, outcomes.drop_first(), i - first.len());
            let action = pass_actions(rest, outcomes.drop_first())[i - first.len()];
            assert(pass_actions(snapshot, outcomes)[i] == action);
            match action {
                PassAction::Resolve { handle, .. } => {
                    let at = choose|at: int| 0 <= at < rest.len() && rest[at].0 == handle;
                    assert(snapshot[at + 1].0 == handle);
                },
                PassAction::Deliver { handle, .. } => {
                    let at = choose|at: int| 0 <= at < rest.len() && rest[at].0 == handle;
                    assert(snapshot[at + 1].0 == handle);
                },
                _ => {},
            }
        }
    }
}

/// One round of the monitor as it goes: the alerts that were added since
/// the round before, and how the entries of the pass go.
pub struct Round {
    pub added: Seq<Alert>,
    pub outcomes: Seq<EntryOutcome>,
}

/// A watchlist between the rounds of the monitor: its entries and the
/// handle that the next addition gets.
pub struct Book {
    pub entries: Seq<(u64, Alert)>,
    pub next: u64,
}

impl Book {
    /// What holds of the book of every watchlist: the handles grow strictly
    /// along the entries and stay below the next handle.
    pub open spec fn well_formed(self) -> bool {
        &&& handles_ascend(self.entries)
        &&& forall|i: int| 0 <= i < self.entries.len() ==> self.entries[i].0 < self.next
    }

    /// The snapshot that the pass of `round` runs over: the entries and what
    /// the round added.
    pub open spec fn snapshot(self, round: Round) -> Seq<(u64, Alert)> {
        with_added(self.entries, self.next, round.added)
    }

    /// The book after `round`: the alerts of the round have been added, and
    /// those that fired and were delivered have been removed.
    pub open spec fn after_round(self, round: Round) -> Book {
        Book {
            entries: without_handles(
                self.snapshot(round),
                pass_retired(self.snapshot(round), round.outcomes),
            ),
            next: (self.next + round.added.len()) as u64,
        }
    }

    /// The book after `rounds`, one after another.
    pub open spec fn after_rounds(self, rounds: Seq<Round>) -> Book
        decreases rounds.len(),
    {
        if rounds.len() == 0 {
            self
        } else {
            self.after_rounds(rounds.drop_last()).after_round(rounds.last())
        }
    }

    /// Whether each of `rounds` adds no more alerts than there are handles
    /// left, and says of every entry of its snapshot how it goes.
    pub open spec fn fits(self, rounds: Seq<Round>) -> bool {
        forall|k: int|
            0 <= k < rounds.len() ==> {
                let before = self.after_rounds(rounds.take(k));
                &&& before.next + (#[trigger] rounds[k]).added.len() < u64::MAX
                &&& rounds[k].outcomes.len() == before.snapshot(rounds[k]).len()
            }
    }

    /// A round keeps the book well formed. A handle below the next one that
    /// no entry stands under is not in the round's snapshot, and stays
    /// without an entry. A handle that is marked in the round has no entry
    /// afterwards.
    proof fn lemma_round(self, round: Round, handle: u64)
        requires
            self.well_formed(),
            self.next + round.added.len() < u64::MAX,
            round.outcomes.len() == self.snapshot(round).len(),
        ensures
            self.after_round(round).well_formed(),
            self.next <= self.after_round(round).next,
            handle < self.next && !holds_handle(self.entries, handle) ==> !holds_handle(
                self.snapshot(round),
                handle,
            ) && !holds_handle(self.after_round(round).entries, handle),
            pass_retired(self.snapshot(round), round.outcomes).contains(handle) ==> handle
                < self.after_round(round).next && !holds_handle(
                self.after_round(round).entries,
                handle,
            ),
    {
        let snapshot = self.snapshot(round);
        let retired = pass_retired(snapshot, round.outcomes);
        let kept = self.after_round(round).entries;
        let next = self.after_round(round).next;
        assert forall|i: int| 0 <= i < snapshot.len() implies snapshot[i].0 < next by {
            if i < self.entries.len() {
                assert(snapshot[i] == self.entries[i]);
            }
        }
        assert(handles_ascend(snapshot)) by {
            assert forall|i: int, j: int| 0 <= i < j < snapshot.len() implies snapshot[i].0
                < snapshot[j].0 by {
                if j < self.entries.len() {
                    assert(snapshot[i] == self.entries[i] && snapshot[j] == self.entries[j]);
                } else if i < self.entries.len() {
                    assert(snapshot[i] == self.entries[i]);
                }
            }
        }
        lemma_filter_keeps_ascent(snapshot, under_none(retired), next);
        law_remove_all_exact(snapshot, retired, handle);
        lemma_retired_are_delivered(snapshot, round.outcomes, handle);
        if handle < self.next && !holds_handle(self.entries, handle) {
            if holds_handle(snapshot, handle) {
                let at = choose|at: int| 0 <= at < snapshot.len() && snapshot[at].0 == handle;
                if at < self.entries.len() {
                    assert(self.entries[at].0 == handle);
                }
            }
        }
    }

    /// An alert fires at most once. When an alert has fired and been
    /// delivered in the round `early`, no later round has it in its
    /// snapshot, however many alerts are added in between: so no later
    /// round resolves or delivers it.
    pub proof fn law_alert_fires_at_most_once(
        self,
        rounds: Seq<Round>,
        early: int,
        late: int,
        handle: u64,
    )
        requires
            self.well_formed(),
            self.fits(rounds),
            0 <= early < late < rounds.len(),
            pass_retired(
                self.after_rounds(rounds.take(early)).snapshot(rounds[early]),
                rounds[early].outcomes,
            ).contains(handle),
        ensures
            !holds_handle(self.after_rounds(rounds.take(late)).snapshot(rounds[late]), handle),
    {
        self.lemma_gone_for_good(rounds, early, late, handle);
        let before = self.after_rounds(rounds.take(late));
        self.lemma_rounds_keep_form(rounds, late);
        before.lemma_round(rounds[late], handle);
    }

    /// Rounds keep the book well formed.
    proof fn lemma_rounds_keep_form(self, rounds: Seq<Round>, upto: int)
        requires
            self.well_formed(),
            self.fits(rounds),
            0 <= upto <= rounds.len(),
        ensures
            self.after_rounds(rounds.take(upto)).well_formed(),
        decreases upto,
    {
        if upto > 0 {
            self.lemma_rounds_keep_form(rounds, upto - 1);
            assert(rounds.take(upto).drop_last() == rounds.take(upto - 1));
            assert(rounds.take(upto).last() == rounds[upto - 1]);
            self.after_rounds(rounds.take(upto - 1)).lemma_round(rounds[upto - 1], 0);
        }
    }

    /// From the round in which it was marked on, a handle has no entry.
    proof fn lemma_gone_for_good(self, rounds: Seq<Round>, early: int, upto: int, handle: u64)
        requires
            self.well_formed(),
            self.fits(rounds),
            0 <= early < upto <= rounds.len(),
            pass_retired(
                self.after_rounds(rounds.take(early)).snapshot(rounds[early]),
                rounds[early].outcomes,
            ).contains(handle),
        ensures
            handle < self.after_rounds(rounds.take(upto)).next,
            !holds_handle(self.after_rounds(rounds.take(upto)).entries, handle),
        decreases upto,
    {
        let before = self.after_rounds(rounds.take(upto - 1));
        assert(rounds.take(upto).drop_last() == rounds.take(upto - 1));
        assert(rounds.take(upto).last() == rounds[upto - 1]);
        self.lemma_rounds_keep_form(rounds, upto - 1);
        if upto - 1 > early {
            self.lemma_gone_for_good(rounds, early, upto - 1, handle);
        }
        before.lemma_round(rounds[upto - 1], handle);
    }
}

/// What passes a filter of entries whose handles ascend below `bound` has
/// handles that ascend below `bound`.
proof fn lemma_filter_keeps_ascent(
    entries: Seq<(u64, Alert)>,
    pred: spec_fn((u64, Alert)) -> bool,
    bound: u64,
)
    requires
        handles_ascend(entries),
        forall|i: int| 0 <= i < entries.len() ==> entries[i].0 < bound,
    ensures
        handles_ascend(entries.filter(pred)),
        forall|i: int| 0 <= i < entries.filter(pred).len() ==> entries.filter(pred)[i].0 < bound,
    decreases entries.len(),
{
    reveal(Seq::filter);
    if entries.len() > 0 {
        let front = entries.drop_last();
        let kept = front.filter(pred);
        assert forall|i: int| 0 <= i < front.len() implies front[i].0 < entries.last().0 by {
            assert(front[i] == entries[i]);
        }
        assert(handles_ascend(front)) by {
            assert forall|i: int, j: int| 0 <= i < j < front.len() implies front[i].0
                < front[j].0 by {
                assert(front[i] == entries[i] && front[j] == entries[j]);
            }
        }
        lemma_filter_keeps_ascent(front, pred, entries.last().0);
        lemma_filter_keeps_ascent(front, pred, bound);
    }
}

/// A pass of the alert monitor over a snapshot of the watchlist.
#[derive(Debug, PartialEq, Eq)]
pub struct AlertPass {
    /// The entries that the pass has not come to yet.
    pub pending: Vec<(u64, Alert)>,
    pub phase: PassPhase,
    /// The handles of the entries that fired and were delivered.
    pub marked: Vec<u64>,
}

impl View for AlertPass {
    type V = PassState;

    open spec fn view(&self) -> PassState {
        PassState { pending: self.pending@, phase: self.phase, marked: self.marked@ }
    }
}

impl AlertPass {
    fn proceed(self) -> (r: (AlertPass, PassAction))
        ensures
            (r.0@, r.1) == self@.proceed(),
    {
        let mut pending = self.pending;
        if pending.len() > 0 {
            let (handle, alert) = pending.remove(0);
            assert(pending@ == self@.pending.drop_first());
            let ask = PassAction::Resolve { handle, ticker: alert.ticker.clone() };
            (
                AlertPass {
                    pending,
                    phase: PassPhase::Resolving { handle, alert },
                    marked: self.marked,
                },
                ask,
            )
        } else {
            (
                AlertPass { pending, phase: PassPhase::Finished, marked: self.marked },
                PassAction::Finish { sleep_secs: PASS_INTERVAL_SECS },
            )
        }
    }

    /// Takes what happened to the action in flight and decides what follows.
    pub fn step(self, event: PassEvent) -> (r: (AlertPass, Option<PassAction>))
        ensures
            (r.0@, r.1) == self@.after(event),
    {
        let pause = PassAction::Pause { millis: ENTRY_PAUSE_MILLIS };
        match self.phase {
            PassPhase::Resolving { handle, alert } => match event {
                PassEvent::Resolved { price } => {
                    if alert.is_triggered(price) {
                        let deliver = PassAction::Deliver { handle, alert: alert.clone(), price };
                        (
                            AlertPass {
                                pending: self.pending,
                                phase: PassPhase::Delivering { handle, alert, price },
                                marked: self.marked,
                            },
                            Some(deliver),
                        )
                    } else {
                        (
                            AlertPass {
                                pending: self.pending,
                                phase: PassPhase::Pausing,
                                marked: self.marked,
                            },
                            Some(pause),
                        )
                    }
                },
                PassEvent::Unresolved => (
                    AlertPass {
                        pending: self.pending,
                        phase: PassPhase::Pausing,
                        marked: self.marked,
                    },
                    Some(pause),
                ),
                _ => (
                    AlertPass {
                        pending: self.pending,
                        phase: PassPhase::Resolving { handle, alert },
                        marked: self.marked,
                    },
                    None,
                ),
            },
            PassPhase::Delivering { handle, alert, price } => match event {
                PassEvent::Delivered => {
                    let mut marked = self.marked;
                    marked.push(handle);
                    (
                        AlertPass { pending: self.pending, phase: PassPhase::Pausing, marked },
                        Some(pause),
                    )
                },
                PassEvent::DeliveryFailed => (
                    AlertPass {
                        pending: self.pending,
                        phase: PassPhase::Pausing,
                        marked: self.marked,
                    },
                    Some(pause),
                ),
                _ => (
                    AlertPass {
                        pending: self.pending,
                        phase: PassPhase::Delivering { handle, alert, price },
                        marked: self.marked,
                    },
                    None,
                ),
            },
            PassPhase::Pausing => match event {
                PassEvent::Paused => {
                    let (pass, action) = self.proceed();
                    (pass, Some(action))
                },
                _ => (self, None),
            },
            PassPhase::Finished => (self, None),
        }
    }
}

/// Starts a pass of the alert monitor over `snapshot`, a copy of the
/// watchlist's entries, in the snapshot's order. What happens to each action
/// goes to `AlertPass::step`, until it says that the pass is over.
pub fn monitor_alerts(snapshot: Vec<(u64, Alert)>) -> (r: (AlertPass, PassAction))
    ensures
        (r.0@, r.1) == PassState::begin(snapshot@),
{
    AlertPass { pending: snapshot, phase: PassPhase::Pausing, marked: Vec::new() }.proceed()
}

} // verus!
