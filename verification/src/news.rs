//! The news poller: what of a fetched page is new, the order in which it is
//! delivered, and the watermark that remembers what has been delivered.

use crate::market::SourceError;
use crate::seq_facts::{lemma_filter_keeps_none, lemma_filter_push, lemma_filter_twice};
use vstd::prelude::*;

verus! {

/// The number of articles that one fetch asks for at most.
pub const NEWS_PAGE_LIMIT: usize = 50;

/// The pause after each article, in milliseconds.
pub const ARTICLE_PAUSE_MILLIS: u64 = 500;

/// The sleep between two polls, in seconds.
pub const POLL_INTERVAL_SECS: u64 = 60;

/// How far before its start a poller looks for news, in seconds.
pub const GRACE_WINDOW_SECS: u32 = 3600;

/// An instant of UTC: whole seconds since the Unix epoch, and nanoseconds
/// since the last whole second.
#[derive(Clone, Copy, Debug, PartialEq, Eq, Structural)]
pub struct Timestamp {
    pub secs: i64,
    pub nanos: u32,
}

impl Timestamp {
    /// An integer by which instants are ordered: by their seconds, and
    /// within a second by their nanoseconds.
    pub open spec fn instant(self) -> int {
        self.secs * 0x1_0000_0000 + self.nanos
    }

    /// Whether this instant comes after `other`.
    pub open spec fn later_than(self, other: Timestamp) -> bool {
        self.instant() > other.instant()
    }

    /// This instant moved back by `secs` seconds, but not beyond the
    /// earliest second there is.
    pub open spec fn moved_back(self, secs: u32) -> Timestamp {
        Timestamp {
            secs: if self.secs - secs < i64::MIN {
                i64::MIN
            } else {
                (self.secs - secs) as i64
            },
            nanos: self.nanos,
        }
    }

    /// An instant comes after another exactly if it has more seconds, or as
    /// many seconds and more nanoseconds. No two instants share a place in
    /// the order.
    pub proof fn law_order_by_seconds_then_nanos(self, other: Timestamp)
        ensures
            self.later_than(other) == (self.secs > other.secs || (self.secs == other.secs
                && self.nanos > other.nanos)),
            (self.instant() == other.instant()) == (self == other),
    {
    }

    /// Whether this instant comes after `other`.
    pub fn is_later_than(&self, other: &Timestamp) -> (later: bool)
        ensures
            later == self.later_than(*other),
    {
        self.secs > other.secs || (self.secs == other.secs && self.nanos > other.nanos)
    }

    /// This instant moved back by `secs` seconds, but not beyond the
    /// earliest second there is.
    pub fn back_by(&self, secs: u32) -> (moved: Timestamp)
        ensures
            moved == self.moved_back(secs),
    {
        let span: i64 = secs as i64;
        if self.secs >= i64::MIN + span {
            Timestamp { secs: self.secs - span, nanos: self.nanos }
        } else {
            Timestamp { secs: i64::MIN, nanos: self.nanos }
        }
    }
}

/// A news article as the feed gives it.
#[derive(Debug, PartialEq, Eq)]
pub struct NewsArticle {
    pub title: String,
    pub url: String,
    pub description: Option<String>,
    pub published_date: Timestamp,
    pub tags: Vec<String>,
    pub tickers: Vec<String>,
    pub source: String,
}

/// The test that an article was published after `watermark`.
pub open spec fn newer_than(watermark: Timestamp) -> spec_fn(NewsArticle) -> bool {
    |article: NewsArticle| article.published_date.later_than(watermark)
}

/// The test that an article was published at `stamp`.
pub open spec fn published_at(stamp: Timestamp) -> spec_fn(NewsArticle) -> bool {
    |article: NewsArticle| article.published_date == stamp
}

/// Where an article published at `stamp` goes among `articles`: right behind
/// the last one that was not published later.
pub open spec fn slot(articles: Seq<NewsArticle>, stamp: Timestamp) -> int
    decreases articles.len(),
{
    if articles.len() == 0 {
        0
    } else if articles.last().published_date.later_than(stamp) {
        slot(articles.drop_last(), stamp)
    } else {
        articles.len() as int
    }
}

/// The articles in the order of their publication; those published at the
/// same instant stay in the order in which they came.
pub open spec fn chronological(articles: Seq<NewsArticle>) -> Seq<NewsArticle>
    decreases articles.len(),
{
    if articles.len() == 0 {
        articles
    } else {
        let sorted = chronological(articles.drop_last());
        sorted.insert(slot(sorted, articles.last().published_date), articles.last())
    }
}

/// Whether no article comes before one that was published earlier.
pub open spec fn ascending(articles: Seq<NewsArticle>) -> bool {
    forall|i: int, j: int|
        0 <= i < j < articles.len() ==> !articles[i].published_date.later_than(
            articles[j].published_date,
        )
}

/// What of a fetched page is delivered, and in which order: the articles
/// published after the watermark, oldest first.
pub open spec fn dispatch_order(fetched: Seq<NewsArticle>, watermark: Timestamp) -> Seq<
    NewsArticle,
> {
    chronological(fetched.filter(newer_than(watermark)))
}

/// The slot lies within the sequence, every article from it on was published
/// later than `stamp`, and the one before it was not.
proof fn lemma_slot(articles: Seq<NewsArticle>, stamp: Timestamp)
    ensures
        0 <= slot(articles, stamp) <= articles.len(),
        forall|i: int|
            slot(articles, stamp) <= i < articles.len() ==> articles[i].published_date.later_than(
                stamp,
            ),
        slot(articles, stamp) > 0 ==> !articles[slot(articles, stamp)
            - 1].published_date.later_than(stamp),
    decreases articles.len(),
{
    if articles.len() > 0 && articles.last().published_date.later_than(stamp) {
        let front = articles.drop_last();
        let at = slot(articles, stamp);
        lemma_slot(front, stamp);
        assert forall|i: int| at <= i < articles.len() implies articles[i].published_date.later_than(
            stamp,
        ) by {
            if i < front.len() {
                assert(articles[i] == front[i]);
            }
        }
        if slot(articles, stamp) > 0 {
            assert(articles[slot(articles, stamp) - 1] == front[slot(front, stamp) - 1]);
        }
    }
}

/// Sorted articles ascend.
pub proof fn lemma_chronological_ascends(articles: Seq<NewsArticle>)
    ensures
        ascending(chronological(articles)),
    decreases articles.len(),
{
    if articles.len() > 0 {
        let sorted = chronological(articles.drop_last());
        let last = articles.last();
        let at = slot(sorted, last.published_date);
        let grown = sorted.insert(at, last);
        lemma_chronological_ascends(articles.drop_last());
        lemma_slot(sorted, last.published_date);
        assert forall|i: int, j: int|
            0 <= i < j < grown.len() implies !grown[i].published_date.later_than(
            grown[j].published_date,
        ) by {
            if j < at {
                assert(grown[i] == sorted[i] && grown[j] == sorted[j]);
            } else if j == at {
                assert(grown[i] == sorted[i]);
                if i < at - 1 {
                    assert(!sorted[i].published_date.later_than(sorted[at - 1].published_date));
                }
            } else if i < at {
                assert(grown[i] == sorted[i] && grown[j] == sorted[j - 1]);
            } else if i == at {
                assert(grown[j] == sorted[j - 1]);
            } else {
                assert(grown[i] == sorted[i - 1] && grown[j] == sorted[j - 1]);
            }
        }
    }
}

/// Sorting keeps, for every instant, the articles published at it, in the
/// order in which they came. So it loses none, adds none, and swaps no two
/// that tie.
pub proof fn lemma_chronological_keeps_ties(articles: Seq<NewsArticle>, stamp: Timestamp)
    ensures
        chronological(articles).filter(published_at(stamp)) == articles.filter(published_at(stamp)),
    decreases articles.len(),
{
    let pred = published_at(stamp);
    if articles.len() > 0 {
        let sorted = chronological(articles.drop_last());
        let last = articles.last();
        let at = slot(sorted, last.published_date);
        lemma_chronological_keeps_ties(articles.drop_last(), stamp);
        lemma_slot(sorted, last.published_date);
        let before = sorted.take(at);
        let behind = sorted.skip(at);
        assert(sorted == before + behind);
        assert(sorted.insert(at, last) == before.push(last) + behind);
        Seq::filter_distributes_over_add(before, behind, pred);
        Seq::filter_distributes_over_add(before.push(last), behind, pred);
        lemma_filter_push(before, last, pred);
        lemma_filter_push(articles.drop_last(), last, pred);
        assert(articles.drop_last().push(last) == articles);
        if pred(last) {
            assert forall|i: int| 0 <= i < behind.len() implies !pred(behind[i]) by {
                assert(behind[i] == sorted[at + i]);
            }
            lemma_filter_keeps_none(behind, pred);
            assert(before.filter(pred).push(last) + Seq::<NewsArticle>::empty()
                == before.filter(pred).push(last));
            assert(before.filter(pred) + Seq::<NewsArticle>::empty() == before.filter(pred));
        }
    }
}

/// What is delivered of a fetched page ascends by publication, and holds
/// for every instant after the watermark the articles published at it, in
/// the order in which they were fetched, and for every other instant none.
pub proof fn law_dispatch_order(fetched: Seq<NewsArticle>, watermark: Timestamp, stamp: Timestamp)
    ensures
        ascending(dispatch_order(fetched, watermark)),
        dispatch_order(fetched, watermark).filter(published_at(stamp)) == if stamp.later_than(
            watermark,
        ) {
            fetched.filter(published_at(stamp))
        } else {
            Seq::empty()
        },
{
    let newer = fetched.filter(newer_than(watermark));
    lemma_chronological_ascends(newer);
    lemma_chronological_keeps_ties(newer, stamp);
    if stamp.later_than(watermark) {
        lemma_filter_twice(
            fetched,
            newer_than(watermark),
            published_at(stamp),
            published_at(stamp),
        );
    } else {
        let never = |article: NewsArticle| false;
        lemma_filter_twice(fetched, newer_than(watermark), published_at(stamp), never);
        lemma_filter_keeps_none(fetched, never);
    }
}

/// Two sequences that ascend and hold for every instant the same articles in
/// the same order are one sequence.
pub proof fn lemma_ascending_order_is_unique(one: Seq<NewsArticle>, other: Seq<NewsArticle>)
    requires
        ascending(one),
        ascending(other),
        forall|stamp: Timestamp| #[trigger]
            one.filter(published_at(stamp)) == other.filter(published_at(stamp)),
    ensures
        one == other,
    decreases one.len(),
{
    if one.len() == 0 {
        if other.len() > 0 {
            let stamp = other.last().published_date;
            other.lemma_filter_contains(published_at(stamp), other.len() - 1);
            lemma_filter_keeps_none(one, published_at(stamp));
            assert(one.filter(published_at(stamp)) == other.filter(published_at(stamp)));
        }
    } else {
        let stamp = one.last().published_date;
        let ties = one.filter(published_at(stamp));
        assert(one.drop_last().push(one.last()) == one);
        lemma_filter_push(one.drop_last(), one.last(), published_at(stamp));
        assert(ties == other.filter(published_at(stamp)));
        assert(ties.last() == one.last());
        other.lemma_filter_pred(published_at(stamp), ties.len() - 1);
        other.lemma_filter_contains_rev(published_at(stamp), ties.last());
        let found = choose|i: int| 0 <= i < other.len() && other[i] == ties.last();
        let end = other.last().published_date;
        assert(!other[found].published_date.later_than(end));
        assert(other.drop_last().push(other.last()) == other);
        lemma_filter_push(other.drop_last(), other.last(), published_at(end));
        let end_ties = other.filter(published_at(end));
        assert(end_ties == one.filter(published_at(end)));
        assert(end_ties.last() == other.last());
        one.lemma_filter_pred(published_at(end), end_ties.len() - 1);
        one.lemma_filter_contains_rev(published_at(end), end_ties.last());
        let back = choose|i: int| 0 <= i < one.len() && one[i] == end_ties.last();
        assert(!one[back].published_date.later_than(stamp));
        stamp.law_order_by_seconds_then_nanos(end);
        assert(stamp == end);
        assert(one.last() == other.last());
        assert(one.drop_last().filter(published_at(stamp)) == ties.drop_last());
        assert(other.drop_last().filter(published_at(stamp)) == end_ties.drop_last());
        assert forall|at: Timestamp| #[trigger]
            one.drop_last().filter(published_at(at)) == other.drop_last().filter(
                published_at(at),
            ) by {
            if at != stamp {
                lemma_filter_push(one.drop_last(), one.last(), published_at(at));
                lemma_filter_push(other.drop_last(), other.last(), published_at(at));
                assert(one.filter(published_at(at)) == other.filter(published_at(at)));
            }
        }
        assert(ascending(one.drop_last())) by {
            let front = one.drop_last();
            assert forall|i: int, j: int|
                0 <= i < j < front.len() implies !front[i].published_date.later_than(
                front[j].published_date,
            ) by {
                assert(front[i] == one[i] && front[j] == one[j]);
            }
        }
        assert(ascending(other.drop_last())) by {
            let front = other.drop_last();
            assert forall|i: int, j: int|
                0 <= i < j < front.len() implies !front[i].published_date.later_than(
                front[j].published_date,
            ) by {
                assert(front[i] == other[i] && front[j] == other[j]);
            }
        }
        lemma_ascending_order_is_unique(one.drop_last(), other.drop_last());
    }
}

/// The order of delivery is the only one that ascends by publication and
/// holds for every instant after the watermark the articles published at
/// it, as they were fetched, and for every other instant none.
pub proof fn law_dispatch_order_is_determined(
    fetched: Seq<NewsArticle>,
    watermark: Timestamp,
    order: Seq<NewsArticle>,
)
    requires
        ascending(order),
        forall|stamp: Timestamp| #[trigger]
            order.filter(published_at(stamp)) == if stamp.later_than(watermark) {
                fetched.filter(published_at(stamp))
            } else {
                Seq::empty()
            },
    ensures
        order == dispatch_order(fetched, watermark),
{
    assert forall|stamp: Timestamp| #[trigger]
        order.filter(published_at(stamp)) == dispatch_order(fetched, watermark).filter(
            published_at(stamp),
        ) by {
        law_dispatch_order(fetched, watermark, stamp);
    }
    law_dispatch_order(fetched, watermark, watermark);
    lemma_ascending_order_is_unique(order, dispatch_order(fetched, watermark));
}

/// Everything that is delivered was published after the watermark.
pub proof fn law_dispatch_only_newer(fetched: Seq<NewsArticle>, watermark: Timestamp, i: int)
    requires
        0 <= i < dispatch_order(fetched, watermark).len(),
    ensures
        dispatch_order(fetched, watermark)[i].published_date.later_than(watermark),
{
    let order = dispatch_order(fetched, watermark);
    let stamp = order[i].published_date;
    law_dispatch_order(fetched, watermark, stamp);
    if !stamp.later_than(watermark) {
        assert(published_at(stamp)(order[i]));
        order.lemma_filter_contains(published_at(stamp), i);
    }
}

/// Puts `article` into `sorted`, right behind the last article that was not
/// published later.
fn insert_in_order(sorted: &mut Vec<NewsArticle>, article: NewsArticle)
    ensures
        final(sorted)@ == old(sorted)@.insert(
            slot(old(sorted)@, article.published_date),
            article,
        ),
{
    let mut at: usize = sorted.len();
    assert(sorted@.take(at as int) == sorted@);
    while at > 0 && sorted[at - 1].published_date.is_later_than(&article.published_date)
        invariant
            at <= sorted.len(),
            *sorted == *old(sorted),
            slot(sorted@, article.published_date) == slot(
                sorted@.take(at as int),
                article.published_date,
            ),
        decreases at,
    {
        assert(sorted@.take(at as int).drop_last() == sorted@.take(at as int - 1));
        at -= 1;
    }
    sorted.insert(at, article);
}

/// What of a fetched page is delivered, in the order of delivery: the
/// articles published after the watermark, oldest first, those that tie in
/// the order in which they were fetched.
pub fn into_dispatch_order(fetched: Vec<NewsArticle>, watermark: Timestamp) -> (order: Vec<
    NewsArticle,
>)
    ensures
        order@ == dispatch_order(fetched@, watermark),
{
    let mut order: Vec<NewsArticle> = Vec::new();
    for article in it: fetched
        invariant
            it.seq() == fetched@,
            order@ == dispatch_order(fetched@.take(it.index() as int), watermark),
    {
        proof {
            let seen = fetched@.take(it.index() as int);
            assert(fetched@.take(it.index() as int + 1) == seen.push(article));
            lemma_filter_push(seen, article, newer_than(watermark));
            let newer = seen.filter(newer_than(watermark));
            assert(newer.push(article).drop_last() == newer);
        }
        if article.published_date.is_later_than(&watermark) {
            insert_in_order(&mut order, article);
        }
    }
    assert(fetched@.take(fetched@.len() as int) == fetched@);
    order
}

/// What a poller is waiting for.
#[derive(Clone, Copy, Debug, PartialEq, Eq, Structural)]
pub enum NewsPhase {
    /// A page of the feed.
    Fetching,
    /// The outcome of delivering an article that was published at this
    /// instant.
    Delivering { published: Timestamp },
    /// The end of the pause after an article.
    Pausing,
    /// The end of the sleep between two polls.
    Sleeping,
}

/// What happened to the action that a poller asked for.
#[derive(Debug, PartialEq, Eq)]
pub enum NewsEvent {
    /// The feed answered with a page, or failed to.
    Fetched(Result<Vec<NewsArticle>, SourceError>),
    /// The article was delivered.
    Delivered,
    /// The article was not delivered.
    DeliveryFailed,
    /// The pause is over.
    Paused,
    /// The sleep is over.
    Woke,
}

/// What the caller of a poller does next.
#[derive(Debug, PartialEq, Eq)]
pub enum NewsAction {
    /// Fetch the latest articles of the feed, `limit` at most.
    Fetch { limit: usize },
    /// Deliver the article.
    Deliver { article: NewsArticle },
    /// Wait for `millis` milliseconds.
    Pause { millis: u64 },
    /// Wait for `seconds` seconds.
    Sleep { seconds: u64 },
}

/// A poller, with its queue as a sequence.
pub struct NewsState {
    /// The publication instant of the latest article that was delivered, or
    /// where the poller started to look.
    pub watermark: Timestamp,
    /// The articles of the current page that are still to be delivered.
    pub queue: Seq<NewsArticle>,
    pub phase: NewsPhase,
}

impl NewsState {
    /// The poller that starts at the instant `now`, and its first action:
    /// it looks back by the grace window, and fetches.
    pub open spec fn starting_at(now: Timestamp) -> (NewsState, NewsAction) {
        (
            NewsState {
                watermark: now.moved_back(GRACE_WINDOW_SECS),
                queue: Seq::empty(),
                phase: NewsPhase::Fetching,
            },
            NewsAction::Fetch { limit: NEWS_PAGE_LIMIT },
        )
    }

    /// The poller turned to the next article of its queue, or to sleep when
    /// the queue is empty.
    pub open spec fn proceed(self) -> (NewsState, Option<NewsAction>) {
        if self.queue.len() > 0 {
            (
                NewsState {
                    watermark: self.watermark,
                    queue: self.queue.drop_first(),
                    phase: NewsPhase::Delivering { published: self.queue[0].published_date },
                },
                Some(NewsAction::Deliver { article: self.queue[0] }),
            )
        } else {
            (
                NewsState {
                    watermark: self.watermark,
                    queue: self.queue,
                    phase: NewsPhase::Sleeping,
                },
                Some(NewsAction::Sleep { seconds: POLL_INTERVAL_SECS }),
            )
        }
    }

    /// The poller pausing after an article, with `watermark` as its
    /// watermark.
    pub open spec fn pause(self, watermark: Timestamp) -> (NewsState, Option<NewsAction>) {
        (
            NewsState { watermark, queue: self.queue, phase: NewsPhase::Pausing },
            Some(NewsAction::Pause { millis: ARTICLE_PAUSE_MILLIS }),
        )
    }

    /// The poller and the action that `event` leads to.
    ///
    /// A fetched page queues what is new of it, oldest first; a fetch that
    /// failed queues nothing. An article that was delivered raises the
    /// watermark to its publication instant, if that is later; one that was
    /// not delivered leaves the watermark alone. Every article ends with a
    /// pause, the queue with a sleep, and the sleep with the next fetch. An
    /// event that does not answer the action in flight changes nothing and
    /// leads to no action.
    pub open spec fn after(self, event: NewsEvent) -> (NewsState, Option<NewsAction>) {
        match (self.phase, event) {
            (NewsPhase::Fetching, NewsEvent::Fetched(Ok(page))) => NewsState {
                watermark: self.watermark,
                queue: dispatch_order(page@, self.watermark),
                phase: self.phase,
            }.proceed(),
            (NewsPhase::Fetching, NewsEvent::Fetched(Err(_))) => NewsState {
                watermark: self.watermark,
                queue: Seq::empty(),
                phase: self.phase,
            }.proceed(),
            (NewsPhase::Delivering { published }, NewsEvent::Delivered) => self.pause(
                if published.later_than(self.watermark) {
                    published
                } else {
                    self.watermark
                },
            ),
            (NewsPhase::Delivering { .. }, NewsEvent::DeliveryFailed) => self.pause(self.watermark),
            (NewsPhase::Pausing, NewsEvent::Paused) => self.proceed(),
            (NewsPhase::Sleeping, NewsEvent::Woke) => (
                NewsState {
                    watermark: self.watermark,
                    queue: self.queue,
                    phase: NewsPhase::Fetching,
                },
                Some(NewsAction::Fetch { limit: NEWS_PAGE_LIMIT }),
            ),
            _ => (self, None),
        }
    }
}

impl NewsState {
    /// The poller after all of `events`, in order.
    pub open spec fn run(self, events: Seq<NewsEvent>) -> NewsState
        decreases events.len(),
    {
        if events.len() == 0 {
            self
        } else {
            self.after(events[0]).0.run(events.drop_first())
        }
    }

    /// The actions that `events` lead to, in order.
    pub open spec fn trace(self, events: Seq<NewsEvent>) -> Seq<NewsAction>
        decreases events.len(),
    {
        if events.len() == 0 {
            Seq::empty()
        } else {
            let (state, action) = self.after(events[0]);
            let rest = state.trace(events.drop_first());
            match action {
                Some(action) => seq![action] + rest,
                None => rest,
            }
        }
    }
}

/// What happens while a queue is delivered, when the deliveries succeed as
/// `delivered` says.
pub open spec fn delivery_events(delivered: Seq<bool>) -> Seq<NewsEvent>
    decreases delivered.len(),
{
    if delivered.len() == 0 {
        Seq::empty()
    } else {
        let outcome = if delivered[0] {
            NewsEvent::Delivered
        } else {
            NewsEvent::DeliveryFailed
        };
        seq![outcome, NewsEvent::Paused] + delivery_events(delivered.drop_first())
    }
}

/// The actions that are due for a queue: each article is delivered once, in
/// the queue's order, with a pause behind it, and a sleep ends the poll.
pub open spec fn delivery_actions(queue: Seq<NewsArticle>) -> Seq<NewsAction>
    decreases queue.len(),
{
    if queue.len() == 0 {
        seq![NewsAction::Sleep { seconds: POLL_INTERVAL_SECS }]
    } else {
        seq![
            NewsAction::Deliver { article: queue[0] },
            NewsAction::Pause { millis: ARTICLE_PAUSE_MILLIS },
        ] + delivery_actions(queue.drop_first())
    }
}

/// The watermark after `queue` has been gone through: the latest of
/// `watermark` and the publication instants of the articles that were
/// delivered.
pub open spec fn raised(
    watermark: Timestamp,
    queue: Seq<NewsArticle>,
    delivered: Seq<bool>,
) -> Timestamp
    decreases queue.len(),
{
    if queue.len() == 0 {
        watermark
    } else if delivered[0] && queue[0].published_date.later_than(watermark) {
        raised(queue[0].published_date, queue.drop_first(), delivered.drop_first())
    } else {
        raised(watermark, queue.drop_first(), delivered.drop_first())
    }
}

/// Running on one event and more is one step and a run on the rest.
proof fn lemma_run_first(state: NewsState, event: NewsEvent, rest: Seq<NewsEvent>)
    ensures
        state.run(seq![event] + rest) == state.after(event).0.run(rest),
        state.trace(seq![event] + rest) == match state.after(event).1 {
            Some(action) => seq![action] + state.after(event).0.trace(rest),
            None => state.after(event).0.trace(rest),
        },
{
    let events = seq![event] + rest;
    assert(events[0] == event);
    assert(events.drop_first() == rest);
}

/// From the pause before an article on, a poller delivers its queue in
/// order and sleeps, and its watermark is raised by what was delivered.
proof fn lemma_deliver_from(state: NewsState, delivered: Seq<bool>)
    requires
        delivered.len() == state.queue.len(),
    ensures
        state.proceed().0.run(delivery_events(delivered)) == (NewsState {
            watermark: raised(state.watermark, state.queue, delivered),
            queue: Seq::empty(),
            phase: NewsPhase::Sleeping,
        }),
        seq![state.proceed().1->Some_0] + state.proceed().0.trace(delivery_events(delivered))
            == delivery_actions(state.queue),
    decreases state.queue.len(),
{
    let (delivering, first) = state.proceed();
    let events = delivery_events(delivered);
    if state.queue.len() == 0 {
        assert(state.queue == Seq::<NewsArticle>::empty());
        assert(seq![first->Some_0] + delivering.trace(events) == delivery_actions(state.queue));
    } else {
        let published = state.queue[0].published_date;
        let outcome = if delivered[0] {
            NewsEvent::Delivered
        } else {
            NewsEvent::DeliveryFailed
        };
        let later = delivery_events(delivered.drop_first());
        let paused = seq![NewsEvent::Paused] + later;
        assert(events == seq![outcome] + paused);
        let pausing = delivering.after(outcome).0;
        lemma_run_first(delivering, outcome, paused);
        lemma_run_first(pausing, NewsEvent::Paused, later);
        lemma_deliver_from(pausing, delivered.drop_first());
        assert(seq![first->Some_0] + delivering.trace(events) == delivery_actions(state.queue));
    }
}

/// One poll, from the fetch to the sleep. The poller delivers what is new
/// of the page, oldest first, each article once, and sleeps; a fetch that
/// failed delivers nothing. Its watermark ends as the latest of where it
/// was and the publication instants of the articles that were delivered.
pub proof fn law_poll_delivers_in_order(
    state: NewsState,
    reply: Result<Vec<NewsArticle>, SourceError>,
    delivered: Seq<bool>,
)
    requires
        state.phase is Fetching,
        delivered.len() == match reply {
            Ok(page) => dispatch_order(page@, state.watermark).len(),
            Err(_) => 0,
        },
    ensures
        ({
            let queue = match reply {
                Ok(page) => dispatch_order(page@, state.watermark),
                Err(_) => Seq::empty(),
            };
            let events = seq![NewsEvent::Fetched(reply)] + delivery_events(delivered);
            &&& state.trace(events) == delivery_actions(queue)
            &&& state.run(events) == (NewsState {
                watermark: raised(state.watermark, queue, delivered),
                queue: Seq::empty(),
                phase: NewsPhase::Sleeping,
            })
        }),
{
    let queue = match reply {
        Ok(page) => dispatch_order(page@, state.watermark),
        Err(_) => Seq::empty(),
    };
    let filled = NewsState { watermark: state.watermark, queue, phase: state.phase };
    lemma_run_first(state, NewsEvent::Fetched(reply), delivery_events(delivered));
    lemma_deliver_from(filled, delivered);
}

/// The watermark never moves back, whatever happens.
pub proof fn law_watermark_never_falls(state: NewsState, event: NewsEvent)
    ensures
        !state.watermark.later_than(state.after(event).0.watermark),
{
}

/// Going through a queue never moves the watermark back. It moves it only
/// to the publication instant of an article that was delivered: when none
/// was delivered, it stays.
pub proof fn law_watermark_follows_deliveries(
    watermark: Timestamp,
    queue: Seq<NewsArticle>,
    delivered: Seq<bool>,
)
    requires
        delivered.len() == queue.len(),
    ensures
        !watermark.later_than(raised(watermark, queue, delivered)),
        raised(watermark, queue, delivered) == watermark || exists|i: int|
            0 <= i < queue.len() && delivered[i] && queue[i].published_date == raised(
                watermark,
                queue,
                delivered,
            ),
        forall|i: int|
            0 <= i < queue.len() && delivered[i] ==> !queue[i].published_date.later_than(
                raised(watermark, queue, delivered),
            ),
    decreases queue.len(),
{
    if queue.len() > 0 {
        let start = if delivered[0] && queue[0].published_date.later_than(watermark) {
            queue[0].published_date
        } else {
            watermark
        };
        let rest = queue.drop_first();
        let end = raised(watermark, queue, delivered);
        law_watermark_follows_deliveries(start, rest, delivered.drop_first());
        if end != watermark {
            if end == start {
                assert(delivered[0] && queue[0].published_date == end);
            } else {
                let i = choose|i: int|
                    0 <= i < rest.len() && delivered.drop_first()[i] && rest[i].published_date
                        == end;
                assert(delivered[i + 1] && queue[i + 1].published_date == end);
            }
        }
        assert forall|i: int|
            0 <= i < queue.len() && delivered[i] implies !queue[i].published_date.later_than(
            end,
        ) by {
            if i > 0 {
                assert(delivered.drop_first()[i - 1] && rest[i - 1] == queue[i]);
            }
        }
    }
}

/// When every article of a poll is delivered, the watermark ends at the
/// publication instant of the last one.
pub proof fn law_watermark_reaches_last(
    fetched: Seq<NewsArticle>,
    watermark: Timestamp,
    delivered: Seq<bool>,
)
    requires
        delivered.len() == dispatch_order(fetched, watermark).len(),
        delivered.len() > 0,
        forall|i: int| 0 <= i < delivered.len() ==> delivered[i],
    ensures
        raised(watermark, dispatch_order(fetched, watermark), delivered) == dispatch_order(
            fetched,
            watermark,
        ).last().published_date,
{
    let queue = dispatch_order(fetched, watermark);
    let end = raised(watermark, queue, delivered);
    let last = queue.len() - 1;
    law_watermark_follows_deliveries(watermark, queue, delivered);
    law_dispatch_only_newer(fetched, watermark, last);
    lemma_chronological_ascends(fetched.filter(newer_than(watermark)));
    assert(delivered[last]);
    assert(!queue[last].published_date.later_than(end));
    if end != watermark {
        let i = choose|i: int|
            0 <= i < queue.len() && delivered[i] && queue[i].published_date == end;
        if i < last {
            assert(!queue[i].published_date.later_than(queue[last].published_date));
        }
    }
}

/// One poll as it goes: the page that is fetched, and which deliveries of
/// its queue get through.
pub struct Poll {
    pub page: Seq<NewsArticle>,
    pub delivered: Seq<bool>,
}

/// The watermark after `polls`, one after another, from `watermark` on.
pub open spec fn watermark_after(watermark: Timestamp, polls: Seq<Poll>) -> Timestamp
    decreases polls.len(),
{
    if polls.len() == 0 {
        watermark
    } else {
        let before = watermark_after(watermark, polls.drop_last());
        raised(before, dispatch_order(polls.last().page, before), polls.last().delivered)
    }
}

/// The queue of the poll that follows `polls`, when it fetches `page`.
pub open spec fn queue_after(watermark: Timestamp, polls: Seq<Poll>, page: Seq<NewsArticle>) -> Seq<
    NewsArticle,
> {
    dispatch_order(page, watermark_after(watermark, polls))
}

/// Whether each of `polls` says of every article of its queue whether its
/// delivery gets through.
pub open spec fn polls_fit(watermark: Timestamp, polls: Seq<Poll>) -> bool {
    forall|k: int|
        0 <= k < polls.len() ==> (#[trigger] polls[k]).delivered.len() == queue_after(
            watermark,
            polls.take(k),
            polls[k].page,
        ).len()
}

/// Over any number of polls the watermark never moves back.
proof fn lemma_watermark_grows_over_polls(watermark: Timestamp, polls: Seq<Poll>, early: int)
    requires
        polls_fit(watermark, polls),
        0 <= early <= polls.len(),
    ensures
        !watermark_after(watermark, polls.take(early)).later_than(
            watermark_after(watermark, polls),
        ),
    decreases polls.len() - early,
{
    if early < polls.len() {
        let front = polls.drop_last();
        assert(polls.take(polls.len() - 1) == front);
        assert(front.take(early) == polls.take(early));
        assert forall|k: int| 0 <= k < front.len() implies (#[trigger] front[k]).delivered.len()
            == queue_after(watermark, front.take(k), front[k].page).len() by {
            assert(front.take(k) == polls.take(k));
            assert(front[k] == polls[k]);
        }
        if early < front.len() {
            lemma_watermark_grows_over_polls(watermark, front, early);
        } else {
            assert(front.take(early) == front);
        }
        let before = watermark_after(watermark, front);
        assert(polls[polls.len() - 1] == polls.last());
        law_watermark_follows_deliveries(
            before,
            dispatch_order(polls.last().page, before),
            polls.last().delivered,
        );
    } else {
        assert(polls.take(early) == polls);
    }
}

/// An article that was delivered is not handed out again. When a delivery
/// of the poll `early` got through, every article that a later poll hands
/// out was published after the one that was delivered.
pub proof fn law_no_article_is_delivered_twice(
    watermark: Timestamp,
    polls: Seq<Poll>,
    early: int,
    late: int,
    i: int,
    j: int,
)
    requires
        polls_fit(watermark, polls),
        0 <= early < late < polls.len(),
        0 <= i < queue_after(watermark, polls.take(early), polls[early].page).len(),
        polls[early].delivered[i],
        0 <= j < queue_after(watermark, polls.take(late), polls[late].page).len(),
    ensures
        queue_after(watermark, polls.take(late), polls[late].page)[j].published_date.later_than(
            queue_after(watermark, polls.take(early), polls[early].page)[i].published_date,
        ),
{
    let before = watermark_after(watermark, polls.take(early));
    let queue = dispatch_order(polls[early].page, before);
    let through = polls.take(early + 1);
    assert(through.drop_last() == polls.take(early));
    assert(through.last() == polls[early]);
    law_watermark_follows_deliveries(before, queue, polls[early].delivered);
    let earlier = polls.take(late);
    assert(earlier.take(early + 1) == through);
    assert forall|k: int| 0 <= k < earlier.len() implies (#[trigger] earlier[k]).delivered.len()
        == queue_after(watermark, earlier.take(k), earlier[k].page).len() by {
        assert(earlier.take(k) == polls.take(k));
        assert(earlier[k] == polls[k]);
    }
    lemma_watermark_grows_over_polls(watermark, earlier, early + 1);
    law_dispatch_only_newer(polls[late].page, watermark_after(watermark, earlier), j);
}

/// The news poller: it fetches a page, delivers what is new of it in the
/// order of publication, sleeps, and fetches again.
#[derive(Debug, PartialEq, Eq)]
pub struct NewsPoller {
    /// The publication instant of the latest article that was delivered, or
    /// where the poller started to look.
    pub watermark: Timestamp,
    /// The articles of the current page that are still to be delivered.
    pub queue: Vec<NewsArticle>,
    pub phase: NewsPhase,
}

impl View for NewsPoller {
    type V = NewsState;

    open spec fn view(&self) -> NewsState {
        NewsState { watermark: self.watermark, queue: self.queue@, phase: self.phase }
    }
}

/// The system clock's instant, as `chrono::Utc::now` reads it, in the
/// seconds and nanoseconds that `DateTime::timestamp` and
/// `DateTime::timestamp_subsec_nanos` give for it. Nothing is claimed of
/// the instant. `Utc::now` panics where the clock stands before 1970 or
/// beyond the years that chrono can hold.
#[verifier::external_body]
fn utc_now() -> (now: Timestamp) {
    let now = chrono::Utc::now();
    Timestamp { secs: now.timestamp(), nanos: now.timestamp_subsec_nanos() }
}

impl NewsPoller {
    /// A poller that starts at the instant `now`, and its first action.
    pub fn starting_at(now: Timestamp) -> (r: (NewsPoller, NewsAction))
        ensures
            (r.0@, r.1) == NewsState::starting_at(now),
    {
        (
            NewsPoller {
                watermark: now.back_by(GRACE_WINDOW_SECS),
                queue: Vec::new(),
                phase: NewsPhase::Fetching,
            },
            NewsAction::Fetch { limit: NEWS_PAGE_LIMIT },
        )
    }

    fn proceed(self) -> (r: (NewsPoller, Option<NewsAction>))
        ensures
            (r.0@, r.1) == self@.proceed(),
    {
        let mut queue = self.queue;
        if queue.len() > 0 {
            let article: NewsArticle = queue.remove(0);
            assert(queue@ == self@.queue.drop_first());
            (
                NewsPoller {
                    watermark: self.watermark,
                    queue,
                    phase: NewsPhase::Delivering { published: article.published_date },
                },
                Some(NewsAction::Deliver { article }),
            )
        } else {
            (
                NewsPoller { watermark: self.watermark, queue, phase: NewsPhase::Sleeping },
                Some(NewsAction::Sleep { seconds: POLL_INTERVAL_SECS }),
            )
        }
    }

    /// Takes what happened to the action in flight and decides what follows.
    pub fn step(self, event: NewsEvent) -> (r: (NewsPoller, Option<NewsAction>))
        ensures
            (r.0@, r.1) == self@.after(event),
    {
        let pause = NewsAction::Pause { millis: ARTICLE_PAUSE_MILLIS };
        match self.phase {
            NewsPhase::Fetching => match event {
                NewsEvent::Fetched(reply) => {
                    let queue: Vec<NewsArticle> = match reply {
                        Ok(page) => into_dispatch_order(page, self.watermark),
                        Err(_) => Vec::new(),
                    };
                    NewsPoller { watermark: self.watermark, queue, phase: self.phase }.proceed()
                },
                _ => (self, None),
            },
            NewsPhase::Delivering { published } => match event {
                NewsEvent::Delivered => {
                    let watermark: Timestamp = if published.is_later_than(&self.watermark) {
                        published
                    } else {
                        self.watermark
                    };
                    (
                        NewsPoller { watermark, queue: self.queue, phase: NewsPhase::Pausing },
                        Some(pause),
                    )
                },
                NewsEvent::DeliveryFailed => (
                    NewsPoller {
                        watermark: self.watermark,
                        queue: self.queue,
                        phase: NewsPhase::Pausing,
                    },
                    Some(pause),
                ),
                _ => (self, None),
            },
            NewsPhase::Pausing => match event {
                NewsEvent::Paused => self.proceed(),
                _ => (self, None),
            },
            NewsPhase::Sleeping => match event {
                NewsEvent::Woke => (
                    NewsPoller {
                        watermark: self.watermark,
                        queue: self.queue,
                        phase: NewsPhase::Fetching,
                    },
                    Some(NewsAction::Fetch { limit: NEWS_PAGE_LIMIT }),
                ),
                _ => (self, None),
            },
        }
    }
}

/// Starts the news poller at the instant that the system clock shows.
/// What happens to each action goes to `NewsPoller::step`, for as long as
/// the poller is to run.
pub fn monitor_news() -> (r: (NewsPoller, NewsAction))
    ensures
        exists|now: Timestamp| (r.0@, r.1) == #[trigger] NewsState::starting_at(now),
{
    let now: Timestamp = utc_now();
    NewsPoller::starting_at(now)
}

} // verus!
