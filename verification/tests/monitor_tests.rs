use market_watch::alerts::{Alert, AlertCondition};
use market_watch::binary64::Binary64;
use market_watch::monitor::{
    monitor_alerts, AlertPass, PassAction, PassEvent, PassPhase, ENTRY_PAUSE_MILLIS,
    PASS_INTERVAL_SECS,
};
use market_watch::watchlist::Watchlist;

fn num(x: f64) -> Binary64 {
    Binary64::from_bits(x.to_bits())
}

fn alert(ticker: &str, target: f64, condition: AlertCondition) -> Alert {
    Alert {
        user_id: 1,
        channel_id: 2,
        ticker: ticker.to_string(),
        target_price: num(target),
        condition,
    }
}

/// One whole pass over the watchlist, as the monitor makes it: `price` says
/// what a ticker resolves to, `sink` whether a delivery gets through.
/// Returns the actions of the pass.
fn run_pass(
    list: &mut Watchlist,
    price: &dyn Fn(&str) -> Option<f64>,
    sink: &mut dyn FnMut(&Alert, Binary64) -> bool,
) -> Vec<PassAction> {
    let mut actions = Vec::new();
    let (mut pass, mut action) = monitor_alerts(list.snapshot());
    loop {
        let event = match &action {
            PassAction::Resolve { ticker, .. } => match price(ticker) {
                Some(found) => PassEvent::Resolved { price: num(found) },
                None => PassEvent::Unresolved,
            },
            PassAction::Deliver { alert, price, .. } => {
                if sink(alert, *price) {
                    PassEvent::Delivered
                } else {
                    PassEvent::DeliveryFailed
                }
            }
            PassAction::Pause { millis } => {
                assert_eq!(*millis, 200);
                PassEvent::Paused
            }
            PassAction::Finish { sleep_secs } => {
                assert_eq!(*sleep_secs, 60);
                assert_eq!(pass.phase, PassPhase::Finished);
                list.remove_all(&pass.marked);
                actions.push(action);
                return actions;
            }
        };
        actions.push(action);
        let (next, following) = pass.step(event);
        pass = next;
        action = following.expect("the event answers the action");
    }
}

fn deliveries(actions: &[PassAction]) -> usize {
    actions.iter().filter(|action| matches!(action, PassAction::Deliver { .. })).count()
}

#[test]
fn the_intervals_are_fixed() {
    assert_eq!(ENTRY_PAUSE_MILLIS, 200);
    assert_eq!(PASS_INTERVAL_SECS, 60);
}

#[test]
fn an_empty_snapshot_ends_the_pass_at_once() {
    let (pass, action) = monitor_alerts(vec![]);
    assert_eq!(action, PassAction::Finish { sleep_secs: 60 });
    assert_eq!(
        pass,
        AlertPass { pending: vec![], phase: PassPhase::Finished, marked: vec![] }
    );
}

#[test]
fn a_satisfied_alert_leaves_after_a_delivery() {
    let mut list = Watchlist::new();
    let handle = list.add(alert("AAPL", 150.0, AlertCondition::Above));
    let mut sent = Vec::new();
    let actions = run_pass(&mut list, &|_| Some(151.2), &mut |alert, price| {
        sent.push((alert.clone(), price));
        true
    });
    assert_eq!(
        actions,
        vec![
            PassAction::Resolve { handle, ticker: "AAPL".to_string() },
            PassAction::Deliver {
                handle,
                alert: alert("AAPL", 150.0, AlertCondition::Above),
                price: num(151.2)
            },
            PassAction::Pause { millis: 200 },
            PassAction::Finish { sleep_secs: 60 },
        ]
    );
    assert_eq!(sent, vec![(alert("AAPL", 150.0, AlertCondition::Above), num(151.2))]);
    assert!(list.is_empty());
}

#[test]
fn a_satisfied_alert_stays_when_the_delivery_fails() {
    let mut list = Watchlist::new();
    let handle = list.add(alert("AAPL", 150.0, AlertCondition::Above));
    let actions = run_pass(&mut list, &|_| Some(151.2), &mut |_, _| false);
    assert_eq!(deliveries(&actions), 1);
    assert_eq!(list.snapshot(), vec![(handle, alert("AAPL", 150.0, AlertCondition::Above))]);
    // It is tried again on the next pass, and leaves once it gets through.
    let actions = run_pass(&mut list, &|_| Some(151.2), &mut |_, _| true);
    assert_eq!(deliveries(&actions), 1);
    assert!(list.is_empty());
    let actions = run_pass(&mut list, &|_| Some(151.2), &mut |_, _| true);
    assert_eq!(actions, vec![PassAction::Finish { sleep_secs: 60 }]);
}

#[test]
fn an_unresolved_ticker_keeps_its_alert() {
    let mut list = Watchlist::new();
    let handle = list.add(alert("ZZZZ", 1.0, AlertCondition::Above));
    let actions = run_pass(&mut list, &|_| None, &mut |_, _| true);
    assert_eq!(
        actions,
        vec![
            PassAction::Resolve { handle, ticker: "ZZZZ".to_string() },
            PassAction::Pause { millis: 200 },
            PassAction::Finish { sleep_secs: 60 },
        ]
    );
    assert_eq!(list.len(), 1);
}

#[test]
fn aapl_above_150_over_three_cycles() {
    let mut list = Watchlist::new();
    let handle = list.add(alert("AAPL", 150.0, AlertCondition::Above));
    let mut dispatched = 0;
    for (cycle, price) in [148.0, 149.5, 151.2].into_iter().enumerate() {
        let actions = run_pass(
            &mut list,
            &|ticker| {
                assert_eq!(ticker, "AAPL");
                Some(price)
            },
            &mut |_, _| {
                dispatched += 1;
                true
            },
        );
        if cycle < 2 {
            assert_eq!(deliveries(&actions), 0);
            assert_eq!(dispatched, 0);
            assert_eq!(
                list.snapshot(),
                vec![(handle, alert("AAPL", 150.0, AlertCondition::Above))]
            );
        } else {
            assert_eq!(deliveries(&actions), 1);
        }
    }
    assert_eq!(dispatched, 1);
    assert!(list.is_empty());
}

#[test]
fn below_fires_at_or_under_the_target() {
    let mut list = Watchlist::new();
    list.add(alert("A", 10.0, AlertCondition::Below));
    let actions = run_pass(&mut list, &|_| Some(10.5), &mut |_, _| true);
    assert_eq!(deliveries(&actions), 0);
    assert_eq!(list.len(), 1);
    let actions = run_pass(&mut list, &|_| Some(10.0), &mut |_, _| true);
    assert_eq!(deliveries(&actions), 1);
    assert!(list.is_empty());
}

#[test]
fn entries_are_taken_in_snapshot_order_and_only_delivered_ones_leave() {
    let mut list = Watchlist::new();
    let a = list.add(alert("A", 10.0, AlertCondition::Above));
    let b = list.add(alert("B", 10.0, AlertCondition::Above));
    let c = list.add(alert("C", 10.0, AlertCondition::Below));
    let d = list.add(alert("D", 10.0, AlertCondition::Above));
    let e = list.add(alert("E", 10.0, AlertCondition::Below));
    let price = |ticker: &str| match ticker {
        "A" => Some(11.0), // fires, delivered
        "B" => Some(9.0),  // does not fire
        "C" => Some(9.0),  // fires, delivery fails
        "D" => None,       // unresolved
        _ => Some(10.0),   // fires, delivered
    };
    let actions = run_pass(&mut list, &price, &mut |alert, _| alert.ticker != "C");
    let resolved: Vec<String> = actions
        .iter()
        .filter_map(|action| match action {
            PassAction::Resolve { ticker, .. } => Some(ticker.clone()),
            _ => None,
        })
        .collect();
    assert_eq!(resolved, vec!["A", "B", "C", "D", "E"]);
    let delivered: Vec<u64> = actions
        .iter()
        .filter_map(|action| match action {
            PassAction::Deliver { handle, .. } => Some(*handle),
            _ => None,
        })
        .collect();
    assert_eq!(delivered, vec![a, c, e]);
    let pauses =
        actions.iter().filter(|action| **action == PassAction::Pause { millis: 200 }).count();
    assert_eq!(pauses, 5);
    assert_eq!(actions.last(), Some(&PassAction::Finish { sleep_secs: 60 }));
    let left: Vec<u64> = list.snapshot().iter().map(|entry| entry.0).collect();
    assert_eq!(left, vec![b, c, d]);
}

#[test]
fn an_alert_added_during_the_pass_is_untouched() {
    let mut list = Watchlist::new();
    let a = list.add(alert("A", 10.0, AlertCondition::Above));
    let (pass, action) = monitor_alerts(list.snapshot());
    assert_eq!(action, PassAction::Resolve { handle: a, ticker: "A".to_string() });
    let late = list.add(alert("LATE", 10.0, AlertCondition::Above));
    let (pass, _) = pass.step(PassEvent::Resolved { price: num(12.0) });
    let (pass, _) = pass.step(PassEvent::Delivered);
    let (pass, action) = pass.step(PassEvent::Paused);
    assert_eq!(action, Some(PassAction::Finish { sleep_secs: 60 }));
    assert_eq!(pass.marked, vec![a]);
    list.remove_all(&pass.marked);
    assert_eq!(list.snapshot(), vec![(late, alert("LATE", 10.0, AlertCondition::Above))]);
}

#[test]
fn pass_out_of_turn_events_change_nothing() {
    let mut list = Watchlist::new();
    let a = list.add(alert("A", 10.0, AlertCondition::Above));
    let (pass, _) = monitor_alerts(list.snapshot());
    for stray in [PassEvent::Delivered, PassEvent::DeliveryFailed, PassEvent::Paused] {
        let (same, action) = monitor_alerts(list.snapshot()).0.step(stray);
        assert_eq!(action, None);
        assert_eq!(same, monitor_alerts(list.snapshot()).0);
    }
    let (pass, action) = pass.step(PassEvent::Resolved { price: num(12.0) });
    assert!(matches!(action, Some(PassAction::Deliver { .. })));
    let (pass, action) = pass.step(PassEvent::Resolved { price: num(12.0) });
    assert_eq!(action, None);
    let (pass, action) = pass.step(PassEvent::Paused);
    assert_eq!(action, None);
    assert!(pass.marked.is_empty());
    assert_eq!(
        pass.phase,
        PassPhase::Delivering {
            handle: a,
            alert: alert("A", 10.0, AlertCondition::Above),
            price: num(12.0)
        }
    );
    let (pass, _) = pass.step(PassEvent::Delivered);
    let (pass, action) = pass.step(PassEvent::Delivered);
    assert_eq!(action, None);
    assert_eq!(pass.marked, vec![a]);
    let (pass, _) = pass.step(PassEvent::Paused);
    let (pass, action) = pass.step(PassEvent::Paused);
    assert_eq!(action, None);
    assert_eq!(pass.phase, PassPhase::Finished);
}
