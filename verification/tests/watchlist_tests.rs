use market_watch::alerts::{Alert, AlertCondition};
use market_watch::binary64::Binary64;
use market_watch::watchlist::Watchlist;
use std::sync::{Arc, Mutex};

fn num(x: f64) -> Binary64 {
    Binary64::from_bits(x.to_bits())
}

fn alert(ticker: &str, target: f64, condition: AlertCondition) -> Alert {
    Alert {
        user_id: 7,
        channel_id: 70,
        ticker: ticker.to_string(),
        target_price: num(target),
        condition,
    }
}

#[test]
fn a_new_watchlist_is_empty() {
    let list = Watchlist::new();
    assert!(list.is_empty());
    assert_eq!(list.len(), 0);
    assert!(list.has_room());
    assert_eq!(list.snapshot(), vec![]);
}

#[test]
fn add_gives_fresh_handles_and_keeps_order() {
    let mut list = Watchlist::new();
    let a = list.add(alert("AAPL", 150.0, AlertCondition::Above));
    let b = list.add(alert("MSFT", 300.0, AlertCondition::Below));
    let c = list.add(alert("AAPL", 150.0, AlertCondition::Above));
    assert!(a != b && b != c && a != c);
    assert_eq!(list.len(), 3);
    assert!(!list.is_empty());
    assert_eq!(
        list.snapshot(),
        vec![
            (a, alert("AAPL", 150.0, AlertCondition::Above)),
            (b, alert("MSFT", 300.0, AlertCondition::Below)),
            (c, alert("AAPL", 150.0, AlertCondition::Above)),
        ]
    );
}

#[test]
fn snapshot_is_a_copy() {
    let mut list = Watchlist::new();
    let a = list.add(alert("AAPL", 150.0, AlertCondition::Above));
    let before = list.snapshot();
    let b = list.add(alert("MSFT", 300.0, AlertCondition::Below));
    assert_eq!(before, vec![(a, alert("AAPL", 150.0, AlertCondition::Above))]);
    assert_eq!(list.snapshot().len(), 2);
    assert_eq!(list.snapshot()[1].0, b);
}

#[test]
fn every_addition_is_seen_whole() {
    let mut list = Watchlist::new();
    let mut handles = Vec::new();
    for i in 0..100u64 {
        let mut one = alert("T", i as f64, AlertCondition::Below);
        one.user_id = i;
        one.channel_id = 1000 + i;
        one.ticker = format!("T{i}");
        handles.push(list.add(one));
        let seen = list.snapshot();
        assert_eq!(seen.len() as u64, i + 1);
        for (k, (handle, entry)) in seen.iter().enumerate() {
            assert_eq!(*handle, handles[k]);
            assert_eq!(entry.user_id, k as u64);
            assert_eq!(entry.channel_id, 1000 + k as u64);
            assert_eq!(entry.ticker, format!("T{k}"));
            assert_eq!(entry.target_price, num(k as f64));
            assert_eq!(entry.condition, AlertCondition::Below);
        }
    }
}

#[test]
fn remove_by_handle_takes_that_entry_only() {
    let mut list = Watchlist::new();
    let a = list.add(alert("A", 1.0, AlertCondition::Above));
    let b = list.add(alert("B", 2.0, AlertCondition::Above));
    let c = list.add(alert("C", 3.0, AlertCondition::Above));
    assert!(list.remove_by_handle(b));
    assert_eq!(
        list.snapshot(),
        vec![
            (a, alert("A", 1.0, AlertCondition::Above)),
            (c, alert("C", 3.0, AlertCondition::Above)),
        ]
    );
}

#[test]
fn remove_by_handle_twice_is_as_once() {
    let mut list = Watchlist::new();
    let a = list.add(alert("A", 1.0, AlertCondition::Above));
    let b = list.add(alert("B", 2.0, AlertCondition::Above));
    assert!(list.remove_by_handle(a));
    let once = list.snapshot();
    assert!(!list.remove_by_handle(a));
    assert_eq!(list.snapshot(), once);
    assert_eq!(once, vec![(b, alert("B", 2.0, AlertCondition::Above))]);
}

#[test]
fn remove_of_an_unknown_handle_is_a_no_op() {
    let mut list = Watchlist::new();
    let a = list.add(alert("A", 1.0, AlertCondition::Above));
    assert!(!list.remove_by_handle(a + 1000));
    assert_eq!(list.snapshot(), vec![(a, alert("A", 1.0, AlertCondition::Above))]);
    let mut empty = Watchlist::new();
    assert!(!empty.remove_by_handle(0));
    assert!(empty.is_empty());
}

#[test]
fn a_removed_handle_is_not_given_again() {
    let mut list = Watchlist::new();
    let a = list.add(alert("A", 1.0, AlertCondition::Above));
    assert!(list.remove_by_handle(a));
    let b = list.add(alert("B", 2.0, AlertCondition::Above));
    assert!(b != a);
    assert!(!list.remove_by_handle(a));
    assert_eq!(list.snapshot(), vec![(b, alert("B", 2.0, AlertCondition::Above))]);
}

#[test]
fn an_insertion_after_the_snapshot_does_not_shift_the_removal() {
    // Removal by position would take the wrong entry here.
    let mut list = Watchlist::new();
    let a = list.add(alert("A", 1.0, AlertCondition::Above));
    let b = list.add(alert("B", 2.0, AlertCondition::Above));
    let snapshot = list.snapshot();
    assert!(list.remove_by_handle(a));
    let c = list.add(alert("C", 3.0, AlertCondition::Above));
    let marked = vec![snapshot[1].0];
    list.remove_all(&marked);
    assert_eq!(list.snapshot(), vec![(c, alert("C", 3.0, AlertCondition::Above))]);
    assert!(b != c);
}

#[test]
fn remove_all_takes_the_named_entries() {
    let mut list = Watchlist::new();
    let mut handles = Vec::new();
    for i in 0..6 {
        handles.push(list.add(alert(&format!("T{i}"), i as f64, AlertCondition::Above)));
    }
    list.remove_all(&vec![handles[4], handles[1], handles[4], 9999]);
    let left: Vec<u64> = list.snapshot().iter().map(|entry| entry.0).collect();
    assert_eq!(left, vec![handles[0], handles[2], handles[3], handles[5]]);
    list.remove_all(&vec![]);
    assert_eq!(list.len(), 4);
    list.remove_all(&vec![handles[0], handles[2], handles[3], handles[5]]);
    assert!(list.is_empty());
}

#[test]
fn condition_faces_the_target() {
    assert_eq!(AlertCondition::toward(num(150.0), num(148.0)), AlertCondition::Above);
    assert_eq!(AlertCondition::toward(num(150.0), num(151.2)), AlertCondition::Below);
    assert_eq!(AlertCondition::toward(num(150.0), num(150.0)), AlertCondition::Below);
    assert_eq!(AlertCondition::toward(num(f64::NAN), num(150.0)), AlertCondition::Below);
    assert_eq!(AlertCondition::toward(num(150.0), num(f64::NAN)), AlertCondition::Below);
}

#[test]
fn an_alert_fires_at_or_beyond_its_target() {
    let above = alert("AAPL", 150.0, AlertCondition::Above);
    assert!(!above.is_triggered(num(148.0)));
    assert!(!above.is_triggered(num(149.5)));
    assert!(above.is_triggered(num(150.0)));
    assert!(above.is_triggered(num(151.2)));
    assert!(!above.is_triggered(num(f64::NAN)));
    let below = alert("AAPL", 150.0, AlertCondition::Below);
    assert!(below.is_triggered(num(148.0)));
    assert!(below.is_triggered(num(150.0)));
    assert!(!below.is_triggered(num(151.2)));
    assert!(!below.is_triggered(num(f64::NAN)));
}

#[test]
fn an_alert_s_clone_is_equal() {
    let one = alert("AAPL", 150.0, AlertCondition::Above);
    assert_eq!(one.clone(), one);
}

#[test]
fn additions_from_concurrent_tasks_are_all_kept_whole() {
    let list = Arc::new(Mutex::new(Watchlist::new()));
    let runtime =
        tokio::runtime::Builder::new_multi_thread().worker_threads(4).build().unwrap();
    let all = runtime.block_on(async {
        let mut tasks = Vec::new();
        for worker in 0..4u64 {
            let list = Arc::clone(&list);
            tasks.push(tokio::spawn(async move {
                let mut given = Vec::new();
                for i in 0..50u64 {
                    let mut one = alert("T", (worker * 1000 + i) as f64, AlertCondition::Above);
                    one.user_id = worker;
                    one.channel_id = i;
                    one.ticker = format!("T{worker}-{i}");
                    given.push(list.lock().unwrap().add(one));
                    tokio::task::yield_now().await;
                    let seen = list.lock().unwrap().snapshot();
                    for (_, entry) in seen.iter() {
                        assert_eq!(
                            entry.ticker,
                            format!("T{}-{}", entry.user_id, entry.channel_id)
                        );
                        assert_eq!(
                            entry.target_price,
                            num((entry.user_id * 1000 + entry.channel_id) as f64)
                        );
                    }
                    assert!(given.iter().all(|h| seen.iter().any(|entry| entry.0 == *h)));
                }
                given
            }));
        }
        let mut all: Vec<u64> = Vec::new();
        for task in tasks {
            all.extend(task.await.unwrap());
        }
        all
    });
    let mut all = all;
    all.sort();
    let seen: Vec<u64> = list.lock().unwrap().snapshot().iter().map(|entry| entry.0).collect();
    assert_eq!(seen.len(), 200);
    assert_eq!(seen, all);
}
