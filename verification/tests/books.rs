use hftbacktest::decimal::Decimal;
use hftbacktest::depth::ApplySnapshot;
use hftbacktest::depth::BTreeMarketDepth;
use hftbacktest::depth::L2MarketDepth;
use hftbacktest::depth::MarketDepth;
use hftbacktest::evs::EventIntentKind;
use hftbacktest::evs::EventSet;
use hftbacktest::types::Event;
use hftbacktest::types::Side;
use hftbacktest::types::BUY_EVENT;
use hftbacktest::types::LOCAL_BID_DEPTH_CLEAR_EVENT;

fn dec(value: i64, scale: u32) -> Decimal {
    Decimal::new(value, scale)
}

#[test]
fn preserves_prices_that_do_not_share_a_tick_grid() {
    let mut depth = BTreeMarketDepth::new();
    depth.update_bid_depth(dec(10001, 2), dec(1, 0), 1);
    depth.update_bid_depth(dec(100005, 3), dec(2, 0), 2);
    assert_eq!(depth.best_bid(), Some(dec(10001, 2)));
    assert_eq!(depth.bid_qty_at_price(dec(100005, 3)), dec(2, 0));
}

#[test]
fn clears_only_prices_inside_the_requested_side_range() {
    let mut depth = BTreeMarketDepth::new();
    depth.update_ask_depth(dec(100, 0), dec(1, 0), 0);
    depth.update_ask_depth(dec(150, 0), dec(1, 0), 0);
    depth.clear_depth(Side::Sell, Some(dec(120, 0)));
    assert_eq!(depth.best_ask(), Some(dec(150, 0)));
}

#[test]
fn a_crossing_bid_uncrosses_the_best_prices() {
    let mut depth = BTreeMarketDepth::new();
    depth.update_ask_depth(dec(100, 0), dec(1, 0), 0);
    depth.update_ask_depth(dec(102, 0), dec(1, 0), 0);
    let update = depth.update_bid_depth(dec(101, 0), dec(3, 0), 1);
    assert_eq!(update.best_price, Some(dec(101, 0)));
    assert_eq!(update.previous_best_price, None);
    assert_eq!(depth.best_ask(), Some(dec(102, 0)));
}

#[test]
fn snapshots_restore_the_levels() {
    let mut depth = BTreeMarketDepth::new();
    depth.update_bid_depth(dec(99, 0), dec(1, 0), 3);
    depth.update_ask_depth(dec(101, 0), dec(2, 0), 4);
    let events = depth.snapshot();
    assert_eq!(events.len(), 2);
    let mut restored = BTreeMarketDepth::new();
    restored.apply_snapshot(&events);
    assert_eq!(restored.best_bid(), Some(dec(99, 0)));
    assert_eq!(restored.best_ask(), Some(dec(101, 0)));
    assert_eq!(restored.best_ask_qty(), dec(2, 0));
    assert!(restored.depth_ready());
}

#[test]
fn event_flags_are_independent_of_decimal_payloads() {
    let event = Event {
        ev: LOCAL_BID_DEPTH_CLEAR_EVENT | BUY_EVENT,
        exch_ts: 0,
        local_ts: 0,
        px: Decimal::new(10025, 2),
        qty: Decimal::new(1, 8),
    };
    assert!(event.is(LOCAL_BID_DEPTH_CLEAR_EVENT));
    assert!(event.is(BUY_EVENT));
}

#[test]
fn next_preserves_order_and_snapshot_after_updates() {
    let mut events = EventSet::new(2);
    assert!(events.next().is_none());

    events.update_exch_order(1, 12);
    events.update_local_data(0, 12);
    let snapshot = events.snapshot();

    assert_eq!(
        events
            .next()
            .map(|event| (event.timestamp, event.asset_no, event.kind)),
        Some((12, 0, EventIntentKind::LocalData))
    );

    events.invalidate_local_data(0);
    events.update_exch_data(1, 8);
    assert_eq!(
        events
            .next()
            .map(|event| (event.timestamp, event.asset_no, event.kind)),
        Some((8, 1, EventIntentKind::ExchData))
    );
    assert_eq!(
        snapshot
            .next()
            .map(|event| (event.timestamp, event.asset_no, event.kind)),
        Some((12, 0, EventIntentKind::LocalData))
    );

    events.update_local_order(0, 7);
    assert_eq!(
        events
            .next()
            .map(|event| (event.timestamp, event.asset_no, event.kind)),
        Some((7, 0, EventIntentKind::LocalOrder))
    );
}
