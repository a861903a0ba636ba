use hype_exec::book::{best_price, read_quote, size_from_book, BookLevel, BookSnapshot};
use hype_exec::decimal::Dec;
use hype_exec::error::TradeError;
use hype_exec::order::{plan_marketable_order, settle_order, ExchangeStatus, Fill, OrderIntent, OrderOutcome, OrderStage, OrderTicket, SubmitReply, TimeInForce};
use hype_exec::sizing::{default_lot_size, limit_price, position_size, Side};

fn d(m: i128, s: u32) -> Dec {
    Dec::new(m, s)
}

fn level(px: &str) -> BookLevel {
    BookLevel { px: px.to_string(), sz: "1.0".to_string() }
}

fn book(bids: Vec<&str>, asks: Vec<&str>) -> BookSnapshot {
    BookSnapshot {
        symbol: "HYPE".to_string(),
        bids: bids.into_iter().map(level).collect(),
        asks: asks.into_iter().map(level).collect(),
    }
}

#[test]
fn scenario_a_twelve_dollars_at_twenty_four() {
    let r = position_size(d(1200, 2), d(2400, 2), d(1, 2)).unwrap();
    assert_eq!(r.raw_quantity, d(5, 1));
    assert_eq!(r.rounded_quantity, d(50, 2));
    assert_eq!(r.target_notional_usd, d(1200, 2));
    assert_eq!(r.reference_price, d(2400, 2));
}

#[test]
fn scenario_b_buy_limit_is_five_percent_up() {
    let px = limit_price(d(2000, 2), Side::Buy, d(5, 2)).unwrap();
    assert_eq!(px, d(2100, 2));
    assert_eq!(px.normalized(), d(21, 0));
}

#[test]
fn scenario_c_sell_limit_is_five_percent_down() {
    let px = limit_price(d(2000, 2), Side::Sell, d(5, 2)).unwrap();
    assert_eq!(px.normalized(), d(19, 0));
}

#[test]
fn scenario_d_tiny_notional_rounds_to_zero() {
    let r = position_size(d(1, 3), d(5000, 2), d(1, 2)).unwrap();
    assert_eq!(r.raw_quantity, d(2, 5));
    assert_eq!(r.rounded_quantity, d(0, 2));
    assert!(r.rounded_quantity.is_zero());
    let b = book(vec!["49.90"], vec!["50.00"]);
    assert_eq!(plan_marketable_order(&b, Side::Buy, d(1, 3), d(1, 2), d(5, 2)), Ok(None));
}

#[test]
fn scenario_e_no_asks_is_empty_book() {
    let b = book(vec!["24.00"], vec![]);
    assert_eq!(size_from_book(&b, Side::Buy, d(1200, 2), d(1, 2)), Err(TradeError::EmptyBook));
    assert_eq!(best_price(&b, Side::Buy), Err(TradeError::EmptyBook));
    // even an invalid notional is not looked at first
    assert_eq!(size_from_book(&b, Side::Buy, d(0, 0), d(1, 2)), Err(TradeError::EmptyBook));
    assert_eq!(plan_marketable_order(&b, Side::Buy, d(1200, 2), d(1, 2), d(5, 2)), Err(TradeError::EmptyBook));
}

#[test]
fn empty_bid_side_is_empty_book_for_sell() {
    let b = book(vec![], vec!["24.00"]);
    assert_eq!(best_price(&b, Side::Sell), Err(TradeError::EmptyBook));
    assert_eq!(best_price(&b, Side::Buy), Ok(d(2400, 2)));
}

#[test]
fn sized_quantity_stays_below_ratio_and_on_lot_grid() {
    // 10 / 3 = 3.333..., lots of 0.01
    let r = position_size(d(10, 0), d(3, 0), d(1, 2)).unwrap();
    assert_eq!(r.rounded_quantity, d(333, 2));
    assert_eq!(r.raw_quantity, d(33333333333333333333333333333, 28));
    // lots of 0.05
    let r = position_size(d(10, 0), d(3, 0), d(5, 2)).unwrap();
    assert_eq!(r.rounded_quantity, d(330, 2));
}

#[test]
fn notional_of_exactly_one_lot_gives_one_lot() {
    let r = position_size(d(24, 2), d(2400, 2), d(1, 2)).unwrap();
    assert_eq!(r.rounded_quantity, d(1, 2));
    let r = position_size(d(12, 1), d(24, 0), d(5, 2)).unwrap();
    assert_eq!(r.rounded_quantity, d(5, 2));
}

#[test]
fn default_lot_is_one_hundredth() {
    assert_eq!(default_lot_size(), d(1, 2));
}

#[test]
fn sizing_rejects_non_positive_inputs() {
    assert_eq!(position_size(d(0, 0), d(24, 0), d(1, 2)), Err(TradeError::InvalidInput));
    assert_eq!(position_size(d(-5, 0), d(24, 0), d(1, 2)), Err(TradeError::InvalidInput));
    assert_eq!(position_size(d(12, 0), d(0, 0), d(1, 2)), Err(TradeError::InvalidInput));
    assert_eq!(position_size(d(12, 0), d(-24, 0), d(1, 2)), Err(TradeError::InvalidInput));
    assert_eq!(position_size(d(12, 0), d(24, 0), d(0, 2)), Err(TradeError::InvalidInput));
}

#[test]
fn sizing_out_of_range() {
    assert_eq!(position_size(d(100000000000000000000, 0), d(1, 28), d(1, 2)), Err(TradeError::OutOfRange));
}

#[test]
fn limit_price_rejects_bad_tolerance() {
    assert_eq!(limit_price(d(2000, 2), Side::Buy, d(0, 2)), Err(TradeError::InvalidInput));
    assert_eq!(limit_price(d(2000, 2), Side::Buy, d(1, 0)), Err(TradeError::InvalidInput));
    assert_eq!(limit_price(d(2000, 2), Side::Sell, d(15, 1)), Err(TradeError::InvalidInput));
    assert_eq!(limit_price(d(2000, 2), Side::Sell, d(-5, 2)), Err(TradeError::InvalidInput));
    assert_eq!(limit_price(d(0, 2), Side::Buy, d(5, 2)), Err(TradeError::InvalidInput));
}

#[test]
fn limit_price_out_of_range() {
    assert_eq!(limit_price(d(2001, 20), Side::Buy, d(3, 10)), Err(TradeError::OutOfRange));
}

#[test]
fn limit_price_moves_with_tolerance() {
    let a = limit_price(d(20, 0), Side::Buy, d(1, 2)).unwrap();
    let b = limit_price(d(20, 0), Side::Buy, d(2, 2)).unwrap();
    assert_eq!(a.normalized(), d(202, 1));
    assert_eq!(b.normalized(), d(204, 1));
    let s = limit_price(d(20, 0), Side::Sell, d(2, 2)).unwrap();
    assert_eq!(s.normalized(), d(196, 1));
}

#[test]
fn malformed_book_price() {
    let b = book(vec!["abc"], vec!["0"]);
    assert_eq!(best_price(&b, Side::Sell), Err(TradeError::MalformedNumber));
    assert_eq!(best_price(&b, Side::Buy), Err(TradeError::MalformedNumber));
}

#[test]
fn quote_reads_both_sides() {
    let q = read_quote(&book(vec!["24.10", "24.00"], vec!["24.25"])).unwrap();
    assert_eq!(q.symbol, "HYPE");
    assert_eq!(q.best_bid, Some(d(2410, 2)));
    assert_eq!(q.best_ask, Some(d(2425, 2)));
    let q = read_quote(&book(vec![], vec!["24.25"])).unwrap();
    assert_eq!(q.best_bid, None);
}

#[test]
fn plan_builds_marketable_buy() {
    let b = book(vec!["23.90"], vec!["24.00"]);
    let o = plan_marketable_order(&b, Side::Buy, d(1200, 2), d(1, 2), d(5, 2)).unwrap().unwrap();
    assert_eq!(o.symbol, "HYPE");
    assert_eq!(o.side, Side::Buy);
    assert_eq!(o.quantity, d(50, 2));
    assert_eq!(o.limit_price.normalized(), d(252, 1));
    assert_eq!(o.time_in_force, TimeInForce::ImmediateOrCancel);
    assert!(!o.reduce_only);
    assert_eq!(o.client_order_id, None);
}

#[test]
fn plan_rejects_bad_tolerance() {
    let b = book(vec!["23.90"], vec!["24.00"]);
    assert_eq!(plan_marketable_order(&b, Side::Sell, d(1200, 2), d(1, 2), d(1, 0)), Err(TradeError::InvalidInput));
}

#[test]
fn intent_refuses_zero_quantity() {
    let r = OrderIntent::new("HYPE".to_string(), Side::Buy, d(0, 2), d(1, 0), TimeInForce::GoodTillCancelled, false, None);
    assert_eq!(r, Err(TradeError::InvalidInput));
    let r = OrderIntent::new("HYPE".to_string(), Side::Buy, d(1, 0), d(1, 0), TimeInForce::GoodTillCancelled, false, None).unwrap();
    assert_eq!(r.time_in_force, TimeInForce::GoodTillCancelled);
}

#[test]
fn settle_covers_each_outcome() {
    assert_eq!(settle_order(SubmitReply::Transport("timeout".to_string())), OrderOutcome::TransportFailure { cause: "timeout".to_string() });
    assert_eq!(settle_order(SubmitReply::Refused("bad".to_string())), OrderOutcome::Rejected { reason: "bad".to_string() });
    assert_eq!(
        settle_order(SubmitReply::Statuses(vec![ExchangeStatus::Error("Insufficient margin".to_string())])),
        OrderOutcome::Rejected { reason: "Insufficient margin".to_string() }
    );
    assert_eq!(
        settle_order(SubmitReply::Statuses(vec![ExchangeStatus::Resting { oid: 7 }])),
        OrderOutcome::Accepted { exchange_order_id: Some(7), reported_fills: vec![] }
    );
    let f = Fill { oid: 9, total_sz: "0.5".to_string(), avg_px: "24.01".to_string() };
    assert_eq!(
        settle_order(SubmitReply::Statuses(vec![ExchangeStatus::Filled(f.clone())])),
        OrderOutcome::Accepted { exchange_order_id: Some(9), reported_fills: vec![f] }
    );
    // accepted with no fill: an IOC order that found no liquidity
    assert_eq!(
        settle_order(SubmitReply::Statuses(vec![ExchangeStatus::Success])),
        OrderOutcome::Accepted { exchange_order_id: None, reported_fills: vec![] }
    );
    assert_eq!(
        settle_order(SubmitReply::Statuses(vec![])),
        OrderOutcome::Accepted { exchange_order_id: None, reported_fills: vec![] }
    );
}

#[test]
fn parse_reads_decimal_text() {
    assert_eq!(Dec::parse("24.50"), Some(d(2450, 2)));
    assert_eq!(Dec::parse("-3"), Some(d(-3, 0)));
    assert_eq!(Dec::parse("x1"), None);
}

#[test]
fn ticket_moves_through_its_stages_once() {
    let intent = OrderIntent::new("HYPE".to_string(), Side::Buy, d(1, 0), d(1, 0), TimeInForce::GoodTillCancelled, false, None).unwrap();
    let mut t = OrderTicket::new(intent.clone());
    assert_eq!(t.stage, OrderStage::Built);
    assert!(!t.settle(SubmitReply::Refused("early".to_string())));
    assert_eq!(t.stage, OrderStage::Built);
    assert!(t.mark_submitted());
    assert!(!t.mark_submitted());
    assert!(!t.is_settled());
    assert!(t.settle(SubmitReply::Statuses(vec![ExchangeStatus::Resting { oid: 3 }])));
    assert!(t.is_settled());
    assert_eq!(t.stage, OrderStage::Settled(OrderOutcome::Accepted { exchange_order_id: Some(3), reported_fills: vec![] }));
    assert!(!t.settle(SubmitReply::Transport("late".to_string())));
    assert_eq!(t.intent, intent);
}

#[test]
fn limit_price_ignores_trailing_zeros() {
    // 2000e-20 is 2e-17: the scales add up past 28 only before normalizing
    let px = limit_price(d(2000, 20), Side::Buy, d(5, 10)).unwrap();
    assert_eq!(px, d(20000000010, 27));
    let px = limit_price(d(200000, 4), Side::Sell, d(500, 4)).unwrap();
    assert_eq!(px.normalized(), d(19, 0));
}

#[test]
fn sizing_with_many_price_digits() {
    let r = position_size(d(200, 1), d(24500000000, 9), d(1, 2)).unwrap();
    assert_eq!(r.rounded_quantity, d(81, 2));
    assert_eq!(r.raw_quantity, d(8163265306122448979591836734, 28));
    let r = position_size(d(20000, 0), d(24123456, 6), d(1, 2)).unwrap();
    assert_eq!(r.rounded_quantity, d(82906, 2));
    assert_eq!(r.raw_quantity.scale, 28);
}

#[test]
fn one_lot_with_padded_price() {
    // 20.0 == 2000.000000000 * 0.01
    let r = position_size(d(200, 1), d(2000000000000, 9), d(1, 2)).unwrap();
    assert_eq!(r.rounded_quantity, d(1, 2));
    assert_eq!(r.raw_quantity, d(1, 2));
}

#[test]
fn raw_quantity_keeps_the_digits_that_fit() {
    // 10^15 / 10^-8 = 10^23: only 15 fractional digits fit beside it
    let r = position_size(d(1000000000000000, 0), d(1, 8), d(1, 0)).unwrap();
    assert_eq!(r.rounded_quantity, d(100000000000000000000000, 0));
    assert_eq!(r.raw_quantity, d(100000000000000000000000, 0));
}

#[test]
fn crossed_book_is_refused() {
    assert_eq!(read_quote(&book(vec!["25.00"], vec!["24.0"])), Err(TradeError::CrossedBook));
    let q = read_quote(&book(vec!["24.00"], vec!["24.0"])).unwrap();
    assert_eq!(q.best_bid, Some(d(2400, 2)));
    assert_eq!(q.best_ask, Some(d(240, 1)));
}
