use market_watch::market::SourceError;
use market_watch::news::{
    into_dispatch_order, monitor_news, NewsAction, NewsArticle, NewsEvent, NewsPhase, NewsPoller, Timestamp,
    ARTICLE_PAUSE_MILLIS, GRACE_WINDOW_SECS, NEWS_PAGE_LIMIT, POLL_INTERVAL_SECS,
};

fn at(secs: i64) -> Timestamp {
    Timestamp { secs, nanos: 0 }
}

fn article(title: &str, published: Timestamp) -> NewsArticle {
    NewsArticle {
        title: title.to_string(),
        url: format!("https://news.example/{title}"),
        description: Some(format!("about {title}")),
        published_date: published,
        tags: vec!["markets".to_string()],
        tickers: vec!["aapl".to_string(), "msft".to_string()],
        source: "example.com".to_string(),
    }
}

fn titles(articles: &[NewsArticle]) -> Vec<String> {
    articles.iter().map(|article| article.title.clone()).collect()
}

/// One whole poll, as the poller's caller makes it. The poller must be
/// waiting for a page. `sink` says whether a delivery gets through. Returns
/// the poller, asleep, and the articles that were handed to the sink.
fn run_poll(
    poller: NewsPoller,
    page: Result<Vec<NewsArticle>, SourceError>,
    sink: &mut dyn FnMut(&NewsArticle) -> bool,
) -> (NewsPoller, Vec<NewsArticle>) {
    assert_eq!(poller.phase, NewsPhase::Fetching);
    let mut handed = Vec::new();
    let (mut poller, mut action) = poller.step(NewsEvent::Fetched(page));
    loop {
        let event = match action.expect("the event answers the action") {
            NewsAction::Fetch { .. } => panic!("one fetch per poll"),
            NewsAction::Deliver { article } => {
                let delivered = sink(&article);
                handed.push(article);
                if delivered {
                    NewsEvent::Delivered
                } else {
                    NewsEvent::DeliveryFailed
                }
            }
            NewsAction::Pause { millis } => {
                assert_eq!(millis, 500);
                NewsEvent::Paused
            }
            NewsAction::Sleep { seconds } => {
                assert_eq!(seconds, 60);
                assert_eq!(poller.phase, NewsPhase::Sleeping);
                assert!(poller.queue.is_empty());
                return (poller, handed);
            }
        };
        let (next, following) = poller.step(event);
        poller = next;
        action = following;
    }
}

fn wake(poller: NewsPoller) -> NewsPoller {
    let (poller, action) = poller.step(NewsEvent::Woke);
    assert_eq!(action, Some(NewsAction::Fetch { limit: 50 }));
    poller
}

#[test]
fn the_poller_s_constants() {
    assert_eq!(NEWS_PAGE_LIMIT, 50);
    assert_eq!(ARTICLE_PAUSE_MILLIS, 500);
    assert_eq!(POLL_INTERVAL_SECS, 60);
    assert_eq!(GRACE_WINDOW_SECS, 3600);
}

#[test]
fn timestamps_order_by_seconds_then_nanoseconds() {
    let a = Timestamp { secs: 10, nanos: 999_999_999 };
    let b = Timestamp { secs: 11, nanos: 0 };
    let c = Timestamp { secs: 11, nanos: 1 };
    let leap = Timestamp { secs: 10, nanos: 1_500_000_000 };
    assert!(b.is_later_than(&a));
    assert!(!a.is_later_than(&b));
    assert!(c.is_later_than(&b));
    assert!(!b.is_later_than(&c));
    assert!(!a.is_later_than(&a));
    assert!(leap.is_later_than(&a));
    assert!(b.is_later_than(&leap));
    let before = Timestamp { secs: -5, nanos: 7 };
    assert!(at(0).is_later_than(&before));
    assert!(before.is_later_than(&Timestamp { secs: -5, nanos: 6 }));
    assert!(Timestamp { secs: i64::MAX, nanos: u32::MAX }
        .is_later_than(&Timestamp { secs: i64::MAX, nanos: u32::MAX - 1 }));
    assert!(Timestamp { secs: i64::MIN, nanos: 1 }
        .is_later_than(&Timestamp { secs: i64::MIN, nanos: 0 }));
}

#[test]
fn back_by_moves_whole_seconds() {
    let now = Timestamp { secs: 1_700_000_000, nanos: 123 };
    assert_eq!(now.back_by(3600), Timestamp { secs: 1_699_996_400, nanos: 123 });
    assert_eq!(now.back_by(0), now);
    assert_eq!(at(10).back_by(20), at(-10));
    assert_eq!(
        Timestamp { secs: i64::MIN + 5, nanos: 9 }.back_by(6),
        Timestamp { secs: i64::MIN, nanos: 9 }
    );
    assert_eq!(
        Timestamp { secs: i64::MIN + 5, nanos: 9 }.back_by(5),
        Timestamp { secs: i64::MIN, nanos: 9 }
    );
    assert_eq!(at(i64::MIN).back_by(u32::MAX), at(i64::MIN));
}

#[test]
fn a_poller_starts_an_hour_back_with_a_fetch() {
    let (poller, action) = NewsPoller::starting_at(Timestamp { secs: 10_000, nanos: 5 });
    assert_eq!(action, NewsAction::Fetch { limit: 50 });
    assert_eq!(poller.watermark, Timestamp { secs: 6_400, nanos: 5 });
    assert_eq!(poller.phase, NewsPhase::Fetching);
    assert!(poller.queue.is_empty());
}

#[test]
fn a_poller_started_by_the_clock_looks_back_from_now() {
    let before = chrono::Utc::now().timestamp();
    let (poller, action) = monitor_news();
    let after = chrono::Utc::now().timestamp();
    assert_eq!(action, NewsAction::Fetch { limit: 50 });
    assert_eq!(poller.phase, NewsPhase::Fetching);
    assert!(poller.queue.is_empty());
    assert!(before - 3600 <= poller.watermark.secs);
    assert!(poller.watermark.secs <= after - 3600);
    assert!(poller.watermark.nanos < 2_000_000_000);
}

#[test]
fn dispatch_order_is_oldest_first() {
    let page = vec![article("t2", at(200)), article("t1", at(100)), article("t3", at(300))];
    let order = into_dispatch_order(page, at(50));
    assert_eq!(
        order,
        vec![article("t1", at(100)), article("t2", at(200)), article("t3", at(300))]
    );
}

#[test]
fn dispatch_order_drops_what_is_not_newer() {
    let page = vec![
        article("new", at(101)),
        article("same", at(100)),
        article("old", at(99)),
        article("nanos", Timestamp { secs: 100, nanos: 1 }),
    ];
    let order = into_dispatch_order(page, at(100));
    assert_eq!(titles(&order), vec!["nanos", "new"]);
    assert_eq!(into_dispatch_order(vec![], at(0)), vec![]);
    assert_eq!(into_dispatch_order(vec![article("old", at(1))], at(1)), vec![]);
}

#[test]
fn dispatch_order_keeps_ties_as_fetched() {
    let page = vec![
        article("c1", at(30)),
        article("a1", at(10)),
        article("b1", at(20)),
        article("a2", at(10)),
        article("c2", at(30)),
        article("a3", at(10)),
        article("b2", at(20)),
    ];
    let order = into_dispatch_order(page, at(0));
    assert_eq!(titles(&order), vec!["a1", "a2", "a3", "b1", "b2", "c1", "c2"]);
}

#[test]
fn dispatch_order_of_a_newest_first_page() {
    let page: Vec<NewsArticle> =
        (0..50).rev().map(|i| article(&format!("n{i}"), at(1000 + i))).collect();
    let order = into_dispatch_order(page, at(1009));
    assert_eq!(order.len(), 40);
    for (k, one) in order.iter().enumerate() {
        assert_eq!(one.published_date, at(1010 + k as i64));
        assert_eq!(one.title, format!("n{}", 10 + k));
    }
}

#[test]
fn three_articles_are_delivered_in_order_and_the_watermark_ends_at_the_last() {
    let (t1, t2, t3) = (at(5_000), at(6_000), at(7_000));
    let (poller, _) = NewsPoller::starting_at(at(8_000));
    assert!(t1.is_later_than(&poller.watermark));
    let page = vec![article("t2", t2), article("t1", t1), article("t3", t3)];
    let (poller, handed) = run_poll(poller, Ok(page), &mut |_| true);
    assert_eq!(handed, vec![article("t1", t1), article("t2", t2), article("t3", t3)]);
    assert_eq!(poller.watermark, t3);
}

#[test]
fn what_was_seen_is_not_delivered_again() {
    let (t3, t5, t6) = (at(3_000), at(5_000), at(6_000));
    let (poller, _) = NewsPoller::starting_at(at(3_700));
    let (poller, handed) = run_poll(poller, Ok(vec![article("t5", t5)]), &mut |_| true);
    assert_eq!(titles(&handed), vec!["t5"]);
    assert_eq!(poller.watermark, t5);
    let poller = wake(poller);
    let page = vec![article("t3", t3), article("t6", t6)];
    let (poller, handed) = run_poll(poller, Ok(page), &mut |_| true);
    assert_eq!(handed, vec![article("t6", t6)]);
    assert_eq!(poller.watermark, t6);
    // The same page again: nothing is new.
    let poller = wake(poller);
    let page = vec![article("t3", t3), article("t6", t6)];
    let (poller, handed) = run_poll(poller, Ok(page), &mut |_| true);
    assert_eq!(handed, vec![]);
    assert_eq!(poller.watermark, t6);
}

#[test]
fn a_failed_delivery_does_not_raise_the_watermark() {
    let (poller, _) = NewsPoller::starting_at(at(3_600));
    let start = poller.watermark;
    assert_eq!(start, at(0));
    let page = vec![article("a", at(10)), article("b", at(20))];
    let (poller, handed) = run_poll(poller, Ok(page), &mut |_| false);
    assert_eq!(titles(&handed), vec!["a", "b"]);
    assert_eq!(poller.watermark, start);
    // Both are tried again on the next poll.
    let poller = wake(poller);
    let page = vec![article("b", at(20)), article("a", at(10))];
    let (poller, handed) = run_poll(poller, Ok(page), &mut |_| true);
    assert_eq!(titles(&handed), vec!["a", "b"]);
    assert_eq!(poller.watermark, at(20));
}

#[test]
fn the_watermark_is_the_latest_delivered() {
    let (poller, _) = NewsPoller::starting_at(at(3_600));
    let page = vec![article("a", at(10)), article("b", at(20)), article("c", at(30))];
    // Only the middle one gets through.
    let (poller, handed) = run_poll(poller, Ok(page), &mut |one| one.title == "b");
    assert_eq!(titles(&handed), vec!["a", "b", "c"]);
    assert_eq!(poller.watermark, at(20));
    // The last one is tried again; the first one is behind the watermark.
    let poller = wake(poller);
    let page = vec![article("a", at(10)), article("b", at(20)), article("c", at(30))];
    let (poller, handed) = run_poll(poller, Ok(page), &mut |_| true);
    assert_eq!(titles(&handed), vec!["c"]);
    assert_eq!(poller.watermark, at(30));
}

#[test]
fn a_failed_fetch_is_a_poll_without_articles() {
    for error in [SourceError::Transport, SourceError::Parse] {
        let (poller, _) = NewsPoller::starting_at(at(10_000));
        let (poller, handed) = run_poll(poller, Err(error), &mut |_| true);
        assert_eq!(handed, vec![]);
        assert_eq!(poller.watermark, at(6_400));
    }
    let (poller, _) = NewsPoller::starting_at(at(10_000));
    let (poller, action) = poller.step(NewsEvent::Fetched(Err(SourceError::Parse)));
    assert_eq!(action, Some(NewsAction::Sleep { seconds: 60 }));
    assert_eq!(poller.phase, NewsPhase::Sleeping);
}

#[test]
fn each_article_is_followed_by_a_pause() {
    let (poller, _) = NewsPoller::starting_at(at(3_600));
    let page = vec![article("a", at(10)), article("b", at(20))];
    let (poller, action) = poller.step(NewsEvent::Fetched(Ok(page)));
    assert_eq!(action, Some(NewsAction::Deliver { article: article("a", at(10)) }));
    assert_eq!(poller.phase, NewsPhase::Delivering { published: at(10) });
    let (poller, action) = poller.step(NewsEvent::Delivered);
    assert_eq!(action, Some(NewsAction::Pause { millis: 500 }));
    assert_eq!(poller.watermark, at(10));
    let (poller, action) = poller.step(NewsEvent::Paused);
    assert_eq!(action, Some(NewsAction::Deliver { article: article("b", at(20)) }));
    let (poller, action) = poller.step(NewsEvent::DeliveryFailed);
    assert_eq!(action, Some(NewsAction::Pause { millis: 500 }));
    assert_eq!(poller.watermark, at(10));
    let (poller, action) = poller.step(NewsEvent::Paused);
    assert_eq!(action, Some(NewsAction::Sleep { seconds: 60 }));
    let (poller, action) = poller.step(NewsEvent::Woke);
    assert_eq!(action, Some(NewsAction::Fetch { limit: 50 }));
    assert_eq!(poller.phase, NewsPhase::Fetching);
    assert_eq!(poller.watermark, at(10));
}

#[test]
fn poller_out_of_turn_events_change_nothing() {
    let (poller, _) = NewsPoller::starting_at(at(3_600));
    let (poller, action) = poller.step(NewsEvent::Woke);
    assert_eq!(action, None);
    let (poller, action) = poller.step(NewsEvent::Delivered);
    assert_eq!(action, None);
    let (poller, action) = poller.step(NewsEvent::Paused);
    assert_eq!(action, None);
    assert_eq!(poller.phase, NewsPhase::Fetching);
    assert_eq!(poller.watermark, at(0));
    let (poller, _) = poller.step(NewsEvent::Fetched(Ok(vec![article("a", at(10))])));
    let (poller, action) = poller.step(NewsEvent::Fetched(Ok(vec![article("b", at(20))])));
    assert_eq!(action, None);
    let (poller, action) = poller.step(NewsEvent::Paused);
    assert_eq!(action, None);
    assert_eq!(poller.phase, NewsPhase::Delivering { published: at(10) });
    assert_eq!(poller.watermark, at(0));
    let (poller, _) = poller.step(NewsEvent::Delivered);
    let (poller, action) = poller.step(NewsEvent::Delivered);
    assert_eq!(action, None);
    assert_eq!(poller.watermark, at(10));
    let (poller, _) = poller.step(NewsEvent::Paused);
    let (poller, action) = poller.step(NewsEvent::Paused);
    assert_eq!(action, None);
    assert_eq!(poller.phase, NewsPhase::Sleeping);
}
