use cex_orderbook_agg::amount::Amount;
use cex_orderbook_agg::capture::{harvest, parsed_event, FeedAction, FeedEvent, FeedPolicy, FeedState};
use cex_orderbook_agg::exchanges::FeedError;
use cex_orderbook_agg::order::Order;

fn snapshot(price_units: u64) -> (Vec<Order>, Vec<Order>) {
    (vec![Order::new("A", "p", Amount::from_units(price_units), Amount::from_units(1))], vec![])
}

#[test]
fn feed_publishes_and_stops_at_limit() {
    let policy = FeedPolicy { skip_malformed: false, max_snapshots: Some(2) };
    let mut state = FeedState::new();
    match state.step(policy, FeedEvent::Parsed(snapshot(1))) {
        FeedAction::Publish { snapshot, then_stop } => {
            assert_eq!(snapshot.0[0].price.units, 1);
            assert!(!then_stop);
        }
        _ => panic!("expected a publish"),
    }
    assert!(matches!(state.step(policy, FeedEvent::Ignored), FeedAction::Continue));
    match state.step(policy, FeedEvent::Parsed(snapshot(2))) {
        FeedAction::Publish { then_stop, .. } => assert!(then_stop),
        _ => panic!("expected a publish"),
    }
    assert_eq!(state.published, 2);
}

#[test]
fn feed_without_limit_never_stops_on_data() {
    let policy = FeedPolicy { skip_malformed: false, max_snapshots: None };
    let mut state = FeedState::new();
    for i in 0..5 {
        match state.step(policy, FeedEvent::Parsed(snapshot(i))) {
            FeedAction::Publish { then_stop, .. } => assert!(!then_stop),
            _ => panic!("expected a publish"),
        }
    }
}

#[test]
fn feed_stop_outcomes() {
    let strict = FeedPolicy { skip_malformed: false, max_snapshots: None };
    let lenient = FeedPolicy { skip_malformed: true, max_snapshots: None };
    let mut state = FeedState::new();
    assert!(matches!(state.step(strict, FeedEvent::Malformed), FeedAction::Stop(Err(FeedError::Parse))));
    assert!(matches!(state.step(lenient, FeedEvent::Malformed), FeedAction::Continue));
    assert!(matches!(state.step(strict, FeedEvent::Closed), FeedAction::Stop(Err(FeedError::Closed))));
    assert!(matches!(state.step(strict, FeedEvent::ReadFailed), FeedAction::Stop(Err(FeedError::Transport))));
    assert!(matches!(state.step(strict, FeedEvent::Cancelled), FeedAction::Stop(Ok(()))));
    assert_eq!(state.published, 0);
}

#[test]
fn parsed_event_maps_errors() {
    assert!(matches!(parsed_event(Err(FeedError::Parse)), FeedEvent::Malformed));
    assert!(matches!(parsed_event(Ok(snapshot(3))), FeedEvent::Parsed(_)));
}

#[test]
fn harvest_fills_empty_slots_in_order() {
    let out = harvest(vec![Some(snapshot(1)), None, Some(snapshot(3))]);
    assert_eq!(out.len(), 3);
    assert_eq!(out[0].0[0].price.units, 1);
    assert!(out[1].0.is_empty() && out[1].1.is_empty());
    assert_eq!(out[2].0[0].price.units, 3);
}
