use trading_maid::data::{DataSource, KLine, Metadata};
use trading_maid::decimal::Dec;
use trading_maid::exchange::{ExchangeError, LocalExchange};
use trading_maid::level::Level;
use trading_maid::order::{Kind, Order, Side, Status};

const BTC: &str = "BTCUSDT";
const ETH: &str = "ETHUSDT";

fn d(text: &str) -> Dec {
    let v: rust_decimal::Decimal = text.parse().unwrap();
    Dec::from_parts(v.mantissa(), v.scale()).unwrap()
}

fn eq(a: Dec, b: &str) -> bool {
    a.eq_val(&d(b))
}

fn kline(time: u64, open: &str, high: &str, low: &str, close: &str) -> KLine {
    KLine { time, open: d(open), high: d(high), low: d(low), close: d(close), volume: Dec::one() }
}

fn btc_metadata() -> Metadata {
    Metadata {
        symbol: BTC.to_string(),
        level: Level::Minute1,
        min_size: d("0.001"),
        min_notional: d("0.0"),
        tick_size: d("0.1"),
        maker_fee: d("0.0002"),
        taker_fee: d("0.0005"),
        maintenance: d("0.004"),
    }
}

fn eth_metadata() -> Metadata {
    Metadata {
        symbol: ETH.to_string(),
        level: Level::Minute1,
        min_size: d("0.001"),
        min_notional: d("0.0"),
        tick_size: d("0.01"),
        maker_fee: d("0.0002"),
        taker_fee: d("0.0005"),
        maintenance: d("0.004"),
    }
}

fn btc_klines() -> Vec<KLine> {
    vec![
        kline(1, "100.0", "101.0", "99.0", "100.5"),
        kline(2, "105.0", "106.0", "104.0", "105.5"),
        kline(3, "110.0", "111.0", "109.0", "110.5"),
    ]
}

fn eth_klines() -> Vec<KLine> {
    vec![
        kline(1, "50.0", "51.0", "49.0", "50.5"),
        kline(2, "52.0", "53.0", "51.0", "52.5"),
        kline(3, "55.0", "56.0", "54.0", "55.5"),
    ]
}

fn exchange_with(metadata: Metadata, klines: Vec<KLine>, cash: &str) -> LocalExchange {
    LocalExchange::new(vec![DataSource::new(metadata, klines)]).unwrap().cash(d(cash)).leverage(10)
}

fn single_exchange() -> LocalExchange {
    exchange_with(btc_metadata(), btc_klines(), "10000")
}

fn order(side: Side, trigger: &str, price: &str, quantity: &str, reduce_only: bool) -> Order {
    Order {
        symbol: BTC.to_string(),
        side,
        trigger_price: d(trigger),
        price: d(price),
        quantity: d(quantity),
        reduce_only,
    }
}

fn step(ex: &mut LocalExchange) {
    ex.next(BTC, Level::Minute1).unwrap();
}

fn liquidation_price(ex: &LocalExchange) -> Dec {
    ex.get_pending_order_list(BTC).unwrap().into_iter().find(|v| v.kind == Kind::Liquidation).map(|v| v.price).unwrap()
}

#[test]
fn market_order_fills_on_next_kline() {
    let mut ex = single_exchange();
    step(&mut ex);
    let id = ex.place_order(order(Side::Buy, "0", "0", "1.0", false)).unwrap();
    assert!(ex.get_position(BTC).unwrap().is_none());
    step(&mut ex);
    let o = ex.get_order(&id).unwrap();
    let p = ex.get_position(BTC).unwrap().unwrap();
    assert_eq!(o.status, Status::Filled);
    assert!(eq(o.avg_price, "105"));
    assert!(eq(p.open_avg_price, "105"));
    assert!(eq(p.quantity, "1"));
}

#[test]
fn cancel_order_refunds_frozen_margin() {
    let mut ex = single_exchange();
    step(&mut ex);
    let cash_before = ex.get_cash();
    let id = ex.place_order(order(Side::Buy, "0", "90.0", "1.0", false)).unwrap();
    let cash_after_place = ex.get_cash();
    assert!(cash_after_place.lt(&cash_before));
    assert!(eq(cash_after_place, "9991"));
    ex.cancel_order(BTC, &id).unwrap();
    assert!(ex.get_cash().eq_val(&cash_before));
    assert!(ex.get_pending_order_list(BTC).unwrap().is_empty());
}

#[test]
fn placed_and_cancelled_orders_read_back() {
    let mut ex = single_exchange();
    step(&mut ex);
    let id = ex.place_order(order(Side::Buy, "0", "90.0", "1.0", false)).unwrap();
    let placed = ex.get_order(&id).unwrap();
    assert_eq!(placed.status, Status::Submitted);
    assert_eq!(placed.kind, Kind::Limit);
    assert_eq!(placed.side, Side::Buy);
    assert!(eq(placed.price, "90") && eq(placed.quantity, "1"));
    assert_eq!(placed.create_time, 1);
    ex.cancel_order(BTC, &id).unwrap();
    let cancelled = ex.get_order(&id).unwrap();
    assert_eq!(cancelled.status, Status::Canceled);
    assert!(eq(cancelled.price, "90") && eq(cancelled.quantity, "1"));
    assert_eq!(cancelled.update_time, 1);
}

#[test]
fn idle_steps_keep_the_account() {
    let mut ex = single_exchange();
    step(&mut ex);
    let cash = ex.get_cash();
    step(&mut ex);
    assert!(ex.get_cash().eq_val(&cash));
    assert!(eq(ex.get_cash(), "10000"));
    assert!(ex.get_position(BTC).unwrap().is_none());
    assert!(ex.get_pending_order_list(BTC).unwrap().is_empty());
}

#[test]
fn set_leverage_fails_when_pending_orders_exist() {
    let mut ex = single_exchange();
    step(&mut ex);
    let id = ex.place_order(order(Side::Buy, "0", "90.0", "1.0", false)).unwrap();
    assert_eq!(ex.set_leverage(BTC, 20), Err(ExchangeError::PendingOrdersExist));
    ex.cancel_order(BTC, &id).unwrap();
    ex.set_leverage(BTC, 20).unwrap();
    assert_eq!(ex.get_leverage(BTC).unwrap(), 20);
}

#[test]
fn set_leverage_rejects_zero_and_unknown_symbol() {
    let mut ex = single_exchange();
    assert_eq!(ex.set_leverage(BTC, 0), Err(ExchangeError::ZeroLeverage));
    assert_eq!(ex.set_leverage("XYZ", 3), Err(ExchangeError::UnknownSymbol));
}

#[test]
fn trigger_market_order_is_two_stage_filled() {
    let mut ex = single_exchange();
    step(&mut ex);
    let trigger_id = ex.place_order(order(Side::Buy, "105.0", "0", "1.0", false)).unwrap();
    step(&mut ex);
    assert_eq!(ex.get_order(&trigger_id).unwrap().status, Status::Filled);
    let p = ex.get_position(BTC).unwrap().unwrap();
    assert!(eq(p.open_avg_price, "105"));
    assert!(eq(p.quantity, "1"));
    let pending = ex.get_pending_order_list(BTC).unwrap();
    assert_eq!(pending.len(), 1);
    assert_eq!(pending[0].kind, Kind::Liquidation);
}

#[test]
fn reduce_only_without_position_is_canceled() {
    let mut ex = single_exchange();
    step(&mut ex);
    let id = ex.place_order(order(Side::Sell, "0", "0", "1.0", true)).unwrap();
    step(&mut ex);
    assert_eq!(ex.get_order(&id).unwrap().status, Status::Canceled);
    assert!(ex.get_position(BTC).unwrap().is_none());
}

#[test]
fn close_all_position_closes_on_next_kline() {
    let mut ex = single_exchange();
    step(&mut ex);
    ex.place_order(order(Side::Buy, "0", "0", "1.0", false)).unwrap();
    step(&mut ex);
    assert!(ex.get_position(BTC).unwrap().is_some());
    ex.close_all_position(BTC).unwrap();
    assert!(ex.get_position(BTC).unwrap().is_some());
    step(&mut ex);
    assert!(ex.get_position(BTC).unwrap().is_none());
    let history = ex.get_history_position_list(BTC).unwrap();
    assert_eq!(history.len(), 1);
    assert!(eq(history[0].close_avg_price, "110"));
}

#[test]
fn append_position_margin_checks_and_updates_cash() {
    let mut ex = single_exchange();
    step(&mut ex);
    ex.place_order(order(Side::Buy, "0", "0", "1.0", false)).unwrap();
    step(&mut ex);
    assert_eq!(ex.append_position_margin(BTC, d("-1.0")), Err(ExchangeError::MarginBelowInitial));
    let cash_before = ex.get_cash();
    let margin_before = ex.get_position(BTC).unwrap().unwrap().margin;
    let liquidation_before = liquidation_price(&ex);
    ex.append_position_margin(BTC, d("2.0")).unwrap();
    let cash_after = ex.get_cash();
    let position_after = ex.get_position(BTC).unwrap().unwrap();
    let liquidation_after = liquidation_price(&ex);
    assert!(eq(cash_before.checked_sub(&cash_after).unwrap(), "2"));
    assert!(eq(position_after.margin.checked_sub(&margin_before).unwrap(), "2"));
    assert!(liquidation_after.eq_val(&position_after.liquidation_price));
    assert!(liquidation_after.lt(&liquidation_before));
}

#[test]
fn append_then_withdraw_margin_restores_cash() {
    let mut ex = single_exchange();
    step(&mut ex);
    ex.place_order(order(Side::Buy, "0", "0", "1.0", false)).unwrap();
    step(&mut ex);
    let cash_before = ex.get_cash();
    let margin_before = ex.get_position(BTC).unwrap().unwrap().margin;
    ex.append_position_margin(BTC, d("0.37")).unwrap();
    assert!(eq(cash_before.checked_sub(&ex.get_cash()).unwrap(), "0.37"));
    ex.append_position_margin(BTC, d("-0.37")).unwrap();
    assert!(ex.get_cash().eq_val(&cash_before));
    assert!(ex.get_position(BTC).unwrap().unwrap().margin.eq_val(&margin_before));
}

#[test]
fn append_position_margin_without_position_fails() {
    let mut ex = single_exchange();
    step(&mut ex);
    assert_eq!(ex.append_position_margin(BTC, d("1")), Err(ExchangeError::NoPosition));
    assert!(eq(ex.get_cash(), "10000"));
}

#[test]
fn equity_tracks_unrealized_profit_over_klines() {
    let mut ex = single_exchange();
    step(&mut ex);
    ex.place_order(order(Side::Buy, "0", "0", "1.0", false)).unwrap();
    step(&mut ex);
    let equity_after_open = ex.get_equity().unwrap();
    step(&mut ex);
    let equity_after_next = ex.get_equity().unwrap();
    assert!(eq(equity_after_next.checked_sub(&equity_after_open).unwrap(), "5"));
}

#[test]
fn equity_tracks_unrealized_profit_for_short_position() {
    let mut ex = exchange_with(
        btc_metadata(),
        vec![
            kline(1, "100.0", "101.0", "99.0", "100.0"),
            kline(2, "105.0", "106.0", "104.0", "105.0"),
            kline(3, "100.0", "101.0", "99.0", "100.0"),
        ],
        "10000",
    );
    step(&mut ex);
    ex.place_order(order(Side::Sell, "0", "0", "1.0", false)).unwrap();
    step(&mut ex);
    let equity_after_open = ex.get_equity().unwrap();
    step(&mut ex);
    let equity_after_next = ex.get_equity().unwrap();
    assert!(eq(equity_after_next.checked_sub(&equity_after_open).unwrap(), "5"));
}

#[test]
fn limit_order_filled_when_price_in_range() {
    let mut ex = single_exchange();
    step(&mut ex);
    let id = ex.place_order(order(Side::Buy, "0", "105.0", "1.0", false)).unwrap();
    step(&mut ex);
    let o = ex.get_order(&id).unwrap();
    assert_eq!(o.status, Status::Filled);
    assert!(eq(o.avg_price, "106"));
    assert!(eq(ex.get_position(BTC).unwrap().unwrap().open_avg_price, "106"));
}

#[test]
fn limit_order_not_filled_when_price_out_of_range() {
    let mut ex = single_exchange();
    step(&mut ex);
    let id = ex.place_order(order(Side::Buy, "0", "90.0", "1.0", false)).unwrap();
    step(&mut ex);
    step(&mut ex);
    assert_eq!(ex.get_order(&id).unwrap().status, Status::Submitted);
    assert!(ex.get_position(BTC).unwrap().is_none());
}

#[test]
fn sell_market_order_fills_correctly() {
    let mut ex = single_exchange();
    step(&mut ex);
    ex.place_order(order(Side::Buy, "0", "0", "1.0", false)).unwrap();
    step(&mut ex);
    let close_id = ex.place_order(order(Side::Sell, "0", "0", "1.0", true)).unwrap();
    step(&mut ex);
    let close = ex.get_order(&close_id).unwrap();
    assert_eq!(close.status, Status::Filled);
    assert!(eq(close.avg_price, "110"));
    assert!(ex.get_position(BTC).unwrap().is_none());
    assert_eq!(ex.get_history_position_list(BTC).unwrap().len(), 1);
}

#[test]
fn reduce_only_close_rejected_when_fee_precharge_cash_is_insufficient() {
    let mut ex = exchange_with(btc_metadata(), btc_klines(), "10.56");
    step(&mut ex);
    ex.place_order(order(Side::Buy, "0", "0", "1.0", false)).unwrap();
    step(&mut ex);
    let cash_before = ex.get_cash();
    let position_before = ex.get_position(BTC).unwrap().unwrap();
    let close_id = ex.place_order(order(Side::Sell, "0", "0", "1.0", true)).unwrap();
    step(&mut ex);
    assert_eq!(ex.get_order(&close_id).unwrap().status, Status::Rejected);
    assert!(ex.get_cash().eq_val(&cash_before));
    let position_after = ex.get_position(BTC).unwrap().unwrap();
    assert_eq!(position_after.side, position_before.side);
    assert!(position_after.quantity.eq_val(&position_before.quantity));
}

#[test]
fn trigger_limit_order_triggers_then_fills_on_next_kline() {
    let mut ex = exchange_with(
        btc_metadata(),
        vec![
            kline(1, "100.0", "101.0", "99.0", "100.0"),
            kline(2, "102.0", "106.0", "101.0", "105.0"),
            kline(3, "105.0", "106.0", "104.0", "105.0"),
        ],
        "10000",
    );
    step(&mut ex);
    let trigger_id = ex.place_order(order(Side::Buy, "104.0", "105.0", "1.0", false)).unwrap();
    step(&mut ex);
    assert_eq!(ex.get_order(&trigger_id).unwrap().status, Status::Filled);
    assert!(eq(ex.get_position(BTC).unwrap().unwrap().open_avg_price, "106"));
}

#[test]
fn trigger_order_stays_submitted_when_not_triggered() {
    let mut ex = single_exchange();
    step(&mut ex);
    let id = ex.place_order(order(Side::Buy, "200.0", "0", "1.0", false)).unwrap();
    step(&mut ex);
    step(&mut ex);
    assert_eq!(ex.get_order(&id).unwrap().status, Status::Submitted);
    assert!(ex.get_position(BTC).unwrap().is_none());
}

#[test]
fn add_position_updates_avg_price_correctly() {
    let mut ex = single_exchange();
    step(&mut ex);
    ex.place_order(order(Side::Buy, "0", "0", "1.0", false)).unwrap();
    step(&mut ex);
    ex.place_order(order(Side::Buy, "0", "0", "1.0", false)).unwrap();
    step(&mut ex);
    let p = ex.get_position(BTC).unwrap().unwrap();
    assert!(eq(p.quantity, "2"));
    assert!(eq(p.open_avg_price, "107.5"));
}

#[test]
fn reverse_position_long_to_short() {
    let mut ex = single_exchange();
    step(&mut ex);
    ex.place_order(order(Side::Buy, "0", "0", "1.0", false)).unwrap();
    step(&mut ex);
    ex.place_order(order(Side::Sell, "0", "0", "2.0", false)).unwrap();
    step(&mut ex);
    let p = ex.get_position(BTC).unwrap().unwrap();
    let history = ex.get_history_position_list(BTC).unwrap();
    assert_eq!(p.side, Side::Sell);
    assert!(eq(p.quantity, "1"));
    assert!(eq(p.open_avg_price, "110"));
    assert_eq!(history.len(), 1);
    assert_eq!(history[0].side, Side::Buy);
}

#[test]
fn opposite_order_with_misaligned_quantity_is_refused() {
    let mut ex = single_exchange();
    step(&mut ex);
    ex.place_order(order(Side::Buy, "0", "0", "1.0", false)).unwrap();
    step(&mut ex);
    assert_eq!(ex.place_order(order(Side::Sell, "0", "0", "1.0005", false)), Err(ExchangeError::QuantityNotAligned));
    step(&mut ex);
    assert!(ex.get_position(BTC).unwrap().is_some());
}

#[test]
fn freeze_margin_only_for_non_reduce_only_orders() {
    let mut ex = single_exchange();
    step(&mut ex);
    let cash_before = ex.get_cash();
    let normal = ex.place_order(order(Side::Buy, "0", "90.0", "1.0", false)).unwrap();
    let cash_after_normal = ex.get_cash();
    let reduce = ex.place_order(order(Side::Sell, "0", "120.0", "1.0", true)).unwrap();
    assert!(cash_after_normal.lt(&cash_before));
    assert!(ex.get_cash().eq_val(&cash_after_normal));
    ex.cancel_order(BTC, &normal).unwrap();
    ex.cancel_order(BTC, &reduce).unwrap();
    assert!(ex.get_cash().eq_val(&cash_before));
}

#[test]
fn cancel_order_nonexistent_is_idempotent() {
    let mut ex = single_exchange();
    step(&mut ex);
    let cash_before = ex.get_cash();
    ex.cancel_order(BTC, "not-exists").unwrap();
    assert!(ex.get_cash().eq_val(&cash_before));
    assert!(ex.get_pending_order_list(BTC).unwrap().is_empty());
}

#[test]
fn cancel_order_of_other_symbol_is_refused() {
    let mut ex = LocalExchange::new(vec![
        DataSource::new(btc_metadata(), btc_klines()),
        DataSource::new(eth_metadata(), eth_klines()),
    ])
    .unwrap();
    step(&mut ex);
    let id = ex.place_order(order(Side::Buy, "0", "90.0", "1.0", false)).unwrap();
    assert_eq!(ex.cancel_order(ETH, &id), Err(ExchangeError::SymbolMismatch));
}

#[test]
fn orders_of_one_symbol_leave_the_other_alone() {
    let mut ex = LocalExchange::new(vec![
        DataSource::new(btc_metadata(), btc_klines()),
        DataSource::new(eth_metadata(), eth_klines()),
    ])
    .unwrap();
    step(&mut ex);
    ex.place_order(order(Side::Buy, "0", "0", "1.0", false)).unwrap();
    step(&mut ex);
    assert!(ex.get_position(BTC).unwrap().is_some());
    assert!(ex.get_position(ETH).unwrap().is_none());
    assert!(ex.get_pending_order_list(ETH).unwrap().is_empty());
    let mut eth = order(Side::Buy, "0", "0", "1.0", false);
    eth.symbol = ETH.to_string();
    ex.place_order(eth).unwrap();
    let btc_before = ex.get_position(BTC).unwrap().unwrap();
    step(&mut ex);
    let btc_after = ex.get_position(BTC).unwrap().unwrap();
    assert!(btc_after.quantity.eq_val(&btc_before.quantity));
    assert!(btc_after.open_avg_price.eq_val(&btc_before.open_avg_price));
    assert!(btc_after.margin.eq_val(&btc_before.margin));
    let p = ex.get_position(ETH).unwrap().unwrap();
    assert!(eq(p.open_avg_price, "55"));
}

#[test]
fn place_order_rejections() {
    let mut ex = single_exchange();
    step(&mut ex);
    assert_eq!(ex.place_order(order(Side::Buy, "0", "-1.0", "1.0", false)), Err(ExchangeError::NonPositiveLimitPrice));
    assert_eq!(ex.place_order(order(Side::Buy, "-1.0", "0", "1.0", false)), Err(ExchangeError::NonPositiveTriggerPrice));
    assert_eq!(ex.place_order(order(Side::Buy, "100.0", "-1.0", "1.0", false)), Err(ExchangeError::NegativeTriggerOrderPrice));
    assert_eq!(ex.place_order(order(Side::Buy, "0", "68000.123", "1.0", false)), Err(ExchangeError::LimitPriceNotAligned));
    assert_eq!(ex.place_order(order(Side::Buy, "105.05", "0", "1.0", false)), Err(ExchangeError::TriggerPriceNotAligned));
    assert_eq!(ex.place_order(order(Side::Buy, "105.0", "105.05", "1.0", false)), Err(ExchangeError::TriggerOrderPriceNotAligned));
    assert_eq!(ex.place_order(order(Side::Buy, "0", "0", "0", false)), Err(ExchangeError::NonPositiveQuantity));
    let mut unknown = order(Side::Buy, "0", "0", "1", false);
    unknown.symbol = "XYZ".to_string();
    assert_eq!(ex.place_order(unknown), Err(ExchangeError::UnknownSymbol));
}

#[test]
fn place_order_rejects_below_min_notional_and_min_size() {
    let mut metadata = btc_metadata();
    metadata.min_notional = d("100.0");
    let mut ex = exchange_with(metadata, btc_klines(), "10000");
    step(&mut ex);
    assert_eq!(ex.place_order(order(Side::Buy, "0", "10.0", "5.0", false)), Err(ExchangeError::BelowMinNotional));
    let mut metadata = btc_metadata();
    metadata.min_size = d("0.01");
    let mut ex = exchange_with(metadata, btc_klines(), "10000");
    step(&mut ex);
    assert_eq!(ex.place_order(order(Side::Buy, "0", "100.0", "0.001", false)), Err(ExchangeError::QuantityNotAligned));
    assert_eq!(ex.place_order(order(Side::Buy, "0", "100.0", "0.0096", false)), Err(ExchangeError::QuantityNotAligned));
}

#[test]
fn place_order_refused_when_cash_is_short() {
    let mut ex = exchange_with(btc_metadata(), btc_klines(), "1");
    step(&mut ex);
    assert_eq!(ex.place_order(order(Side::Buy, "0", "100.0", "1.0", false)), Err(ExchangeError::CashShortage));
    assert!(eq(ex.get_cash(), "1"));
}

#[test]
fn cancel_all_order_only_cancels_submitted_normal_orders() {
    let mut ex = single_exchange();
    step(&mut ex);
    ex.place_order(order(Side::Buy, "0", "0", "1.0", false)).unwrap();
    step(&mut ex);
    ex.place_order(order(Side::Buy, "0", "90.0", "1.0", false)).unwrap();
    let before = ex.get_pending_order_list(BTC).unwrap();
    assert_eq!(before.len(), 2);
    ex.cancel_all_order(BTC).unwrap();
    let after = ex.get_pending_order_list(BTC).unwrap();
    assert_eq!(after.len(), 1);
    assert_eq!(after[0].kind, Kind::Liquidation);
    let history = ex.get_history_order_list(BTC).unwrap();
    assert!(history.iter().any(|v| v.kind == Kind::Limit && v.status == Status::Canceled));
}

#[test]
fn set_leverage_recalculates_position_margin_and_cash() {
    let mut ex = single_exchange();
    step(&mut ex);
    ex.place_order(order(Side::Buy, "0", "0", "1.0", false)).unwrap();
    step(&mut ex);
    let cash_before = ex.get_cash();
    let position_before = ex.get_position(BTC).unwrap().unwrap();
    let liquidation_before = liquidation_price(&ex);
    ex.set_leverage(BTC, 5).unwrap();
    let position_after = ex.get_position(BTC).unwrap().unwrap();
    let liquidation_after = liquidation_price(&ex);
    assert_eq!(position_after.leverage, 5);
    assert!(eq(position_before.margin, "10.5"));
    assert!(eq(position_after.margin, "21"));
    assert!(eq(cash_before.checked_sub(&ex.get_cash()).unwrap(), "10.5"));
    assert!(liquidation_after.eq_val(&position_after.liquidation_price));
    assert!(liquidation_after.lt(&liquidation_before));
}

#[test]
fn set_leverage_fails_when_cash_insufficient_for_new_margin() {
    let mut ex = exchange_with(btc_metadata(), btc_klines(), "11.0");
    step(&mut ex);
    ex.place_order(order(Side::Buy, "0", "0", "1.0", false)).unwrap();
    step(&mut ex);
    assert_eq!(ex.set_leverage(BTC, 1), Err(ExchangeError::CashShortage));
    assert_eq!(ex.get_leverage(BTC).unwrap(), 10);
}

#[test]
fn trigger_limit_order_rejected_when_freeze_margin_fails() {
    let mut ex = exchange_with(btc_metadata(), btc_klines(), "1.0");
    step(&mut ex);
    let id = ex.place_order(order(Side::Buy, "105.0", "105.0", "1.0", false)).unwrap();
    step(&mut ex);
    assert_eq!(ex.get_order(&id).unwrap().status, Status::Rejected);
    assert!(ex.get_pending_order_list(BTC).unwrap().is_empty());
}

#[test]
fn next_replays_in_step_and_ends() {
    let mut ex = LocalExchange::new(vec![
        DataSource::new(btc_metadata(), btc_klines()),
        DataSource::new(eth_metadata(), eth_klines()),
    ])
    .unwrap();
    assert!(matches!(ex.next(BTC, Level::Hour1), Err(ExchangeError::UnknownSymbol)));
    for t in 1..=3u64 {
        let b = ex.next(BTC, Level::Minute1).unwrap().unwrap();
        let e = ex.next(ETH, Level::Minute1).unwrap().unwrap();
        assert_eq!(b.time, t);
        assert_eq!(e.time, t);
    }
    assert!(ex.next(BTC, Level::Minute1).unwrap().is_none());
    assert!(ex.next(ETH, Level::Minute1).unwrap().is_none());
}

#[test]
fn market_price_moves_by_slippage_within_the_kline() {
    let ex = single_exchange().slippage(d("0.001"));
    let k = kline(2, "105.0", "106.0", "104.0", "105.5");
    assert!(eq(ex.calc_market_price_slippage(Side::Buy, d("105"), k).unwrap(), "105.105"));
    assert!(eq(ex.calc_market_price_slippage(Side::Sell, d("105"), k).unwrap(), "104.895"));
    let wide = single_exchange().slippage(d("0.5"));
    assert!(eq(wide.calc_market_price_slippage(Side::Buy, d("105"), k).unwrap(), "106"));
    assert!(eq(wide.calc_market_price_slippage(Side::Sell, d("105"), k).unwrap(), "104"));
    let bad = kline(2, "105.0", "100.0", "104.0", "105.5");
    assert!(matches!(ex.calc_market_price_slippage(Side::Buy, d("105"), bad), Err(ExchangeError::InvalidKLine)));
}

#[test]
fn liquidation_closes_position_and_records_history() {
    let mut ex = exchange_with(
        btc_metadata(),
        vec![
            kline(1, "100.0", "101.0", "99.0", "100.0"),
            kline(2, "100.0", "101.0", "99.0", "100.0"),
            kline(3, "95.0", "96.0", "50.0", "60.0"),
        ],
        "10000",
    );
    step(&mut ex);
    ex.place_order(order(Side::Buy, "0", "0", "1.0", false)).unwrap();
    step(&mut ex);
    assert!(ex.get_position(BTC).unwrap().is_some());
    step(&mut ex);
    assert!(ex.get_position(BTC).unwrap().is_none());
    let history = ex.get_history_position_list(BTC).unwrap();
    assert_eq!(history.len(), 1);
    assert!(history[0].is_liquidation());
}

#[test]
fn orders_placed_in_turn_get_distinct_ids() {
    let mut ex = single_exchange();
    step(&mut ex);
    let first = ex.place_order(order(Side::Buy, "0", "90", "1.0", false)).unwrap();
    let second = ex.place_order(order(Side::Buy, "0", "90", "1.0", false)).unwrap();
    assert_ne!(first, second);
}

#[test]
fn a_step_with_one_filling_order_succeeds() {
    let mut ex = single_exchange();
    step(&mut ex);
    let id = ex.place_order(order(Side::Buy, "0", "0", "1.0", false)).unwrap();
    assert!(ex.next(BTC, Level::Minute1).unwrap().is_some());
    assert_eq!(ex.get_order(&id).unwrap().status, Status::Filled);
}
