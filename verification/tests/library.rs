use trading_maid::data::{AlignedSeries, DataSource, KLine, KLineBuffer, Metadata, Timeline, TimelineError};
use trading_maid::decimal::Dec;
use trading_maid::engine::{add_series, bar_source, check_continuity, check_gap_fill, clip_len, BarBuilder, BarSource, Continuity, GapError, SymbolBuffer};
use trading_maid::level::Level;
use trading_maid::order::{HistoryPosition, Side};
use trading_maid::time::TimeError;
use trading_maid::data::sort_if_descending;
use trading_maid::download::{download_url, first_six_columns, months_to_fetch, needs_merge, parse_request, previous_months};
use trading_maid::order::bracket_orders;
use trading_maid::time::get_time_range;
use trading_maid::util::{bar_offset_by_level, coarser_levels, get_last_time, level_from_file_name, resample, summarize};

const T0: u64 = 1_704_067_200_000;
const MIN: u64 = 60_000;
const HOUR: u64 = 3_600_000;

fn d(text: &str) -> Dec {
    let v: rust_decimal::Decimal = text.parse().unwrap();
    Dec::from_parts(v.mantissa(), v.scale()).unwrap()
}

fn k(time: u64, open: &str, high: &str, low: &str, close: &str, volume: &str) -> KLine {
    KLine { time, open: d(open), high: d(high), low: d(low), close: d(close), volume: d(volume) }
}

fn meta(symbol: &str, level: Level) -> Metadata {
    Metadata {
        symbol: symbol.to_string(),
        level,
        min_size: d("0.001"),
        min_notional: d("0"),
        tick_size: d("0.1"),
        maker_fee: d("0.0002"),
        taker_fee: d("0.0005"),
        maintenance: d("0.004"),
    }
}

fn closed(total: &str, gross: &str, fee: &str) -> HistoryPosition {
    HistoryPosition {
        symbol: "BTCUSDT".to_string(),
        leverage: 10,
        side: Side::Buy,
        open_avg_price: d("100"),
        close_avg_price: d("110"),
        max_quantity: d("1"),
        close_quantity: d("1"),
        total_profit: d(total),
        profit: d(gross),
        fee: d(fee),
        open_time: T0,
        close_time: T0 + HOUR,
        log: Vec::new(),
    }
}

#[test]
fn level_lengths_and_names() {
    assert_eq!(Level::from_interval_minutes(60), Some(Level::Hour1));
    assert_eq!(Level::from_interval_minutes(10080), Some(Level::Week1));
    assert_eq!(Level::from_interval_minutes(7), None);
    assert_eq!(Level::from_interval_minutes(20000), Some(Level::Month1));
    assert_eq!(Level::Hour4.interval_minutes(), 240);
    assert_eq!(Level::Month1.interval_minutes(), 0);
    assert_eq!(Level::Minute1.interval_millis(), 60_000);
    assert!(Level::Minute1.is_valid_sampling_target(Level::Hour1));
    assert!(Level::Hour1.is_valid_sampling_target(Level::Day1));
    assert!(!Level::Hour1.is_valid_sampling_target(Level::Minute1));
    assert!(!Level::Minute3.is_valid_sampling_target(Level::Minute5));
    assert!(Level::Month1.is_valid_sampling_target(Level::Month1));
    assert!(!Level::Month1.is_valid_sampling_target(Level::Day1));
    assert!(Level::Day1.is_valid_sampling_target(Level::Month1));
    assert!(Level::Minute1.is_valid_sampling_target(Level::Month1));
    assert!(!Level::Day3.is_valid_sampling_target(Level::Month1));
    assert!(!Level::Week1.is_valid_sampling_target(Level::Month1));
    assert!(!Level::Hour1.is_valid_sampling_target(Level::Minute30));
    assert_eq!(Level::Hour12.name(), "12h");
    assert_eq!(Level::parse("1mo"), Some(Level::Month1));
    assert_eq!(Level::parse("2d"), None);
}

#[test]
fn last_time_of_a_higher_period() {
    assert_eq!(get_last_time(T0 + 10 * MIN, Level::Minute1, Level::Hour1), Ok(T0 + 59 * MIN));
    assert_eq!(get_last_time(T0 + 10 * MIN, Level::Minute5, Level::Hour1), Ok(T0 + 55 * MIN));
    assert_eq!(get_last_time(T0 + 10 * MIN, Level::Hour1, Level::Hour1), Ok(T0 + 10 * MIN));
    assert_eq!(get_last_time(T0, Level::Hour1, Level::Minute1), Err(TimeError::InvalidSamplingTarget));
    assert_eq!(get_last_time(T0 + HOUR, Level::Hour1, Level::Day1), Ok(T0 + 23 * HOUR));
}

#[test]
fn bar_offsets_by_level() {
    assert_eq!(bar_offset_by_level(T0, T0 + 5 * HOUR, Level::Hour1), 5);
    assert_eq!(bar_offset_by_level(T0, T0 + 5 * HOUR + 30 * MIN, Level::Hour1), 5);
    assert_eq!(bar_offset_by_level(T0, T0, Level::Minute1), 0);
    let april = 1_711_929_600_000;
    assert_eq!(bar_offset_by_level(T0, april, Level::Month1), 3);
    assert_eq!(bar_offset_by_level(T0, april + 1, Level::Month1), 4);
}

#[test]
fn resample_groups_by_period() {
    let a = vec![
        k(T0, "10", "12", "9", "11", "1"),
        k(T0 + MIN, "11", "15", "10", "14", "2"),
        k(T0 + 2 * MIN, "14", "14", "8", "9", "3"),
        k(T0 + 3 * MIN, "9", "10", "7", "8", "4"),
    ];
    let out = resample(&a, Level::Minute3).unwrap();
    assert_eq!(out.len(), 2);
    assert_eq!(out[0].time, T0);
    assert!(out[0].open.eq_val(&d("10")) && out[0].high.eq_val(&d("15")));
    assert!(out[0].low.eq_val(&d("8")) && out[0].close.eq_val(&d("9")) && out[0].volume.eq_val(&d("6")));
    assert_eq!(out[1].time, T0 + 3 * MIN);
    assert!(out[1].close.eq_val(&d("8")) && out[1].volume.eq_val(&d("4")));
    let partial = resample(&a[1..], Level::Minute3).unwrap();
    assert_eq!(partial[0].time, T0);
    assert!(partial[0].open.eq_val(&d("11")));
    assert!(resample(&[], Level::Hour1).unwrap().is_empty());
}

#[test]
fn data_source_resample_and_range() {
    let ds = DataSource::new(
        meta("BTCUSDT", Level::Minute1),
        vec![k(T0, "1", "2", "1", "2", "1"), k(T0 + MIN, "2", "3", "2", "3", "1"), k(T0 + 2 * MIN, "3", "4", "3", "4", "1")],
    );
    let r = ds.resample(Level::Minute3).unwrap();
    assert_eq!(r.metadata.level, Level::Minute3);
    assert_eq!(r.data.len(), 1);
    assert!(ds.resample(Level::Minute5).is_ok());
    assert_eq!(ds.range(T0 + MIN, T0 + 2 * MIN).data.len(), 1);
    assert!(ds.is_sorted_by_time());
    let wrong = DataSource::new(meta("BTCUSDT", Level::Hour1), vec![]);
    assert!(matches!(wrong.resample(Level::Minute1), Err(TimeError::InvalidSamplingTarget)));
}

#[test]
fn summary_of_closed_positions() {
    let list = vec![closed("10", "12", "2"), closed("-5", "-3", "2")];
    let s = summarize(&list).unwrap();
    assert_eq!(s.total_trades, 2);
    assert_eq!(s.win_trades, 1);
    assert_eq!(s.loss_trades, 1);
    assert_eq!(s.leverage, 10);
    assert_eq!(s.symbol, "BTCUSDT");
    assert!(s.win_rate.eq_val(&d("50")));
    assert!(s.total_profit.eq_val(&d("5")));
    assert!(s.total_fee.eq_val(&d("4")));
    assert!(s.net_gross_profit.eq_val(&d("10")));
    assert!(s.net_gross_loss_abs.eq_val(&d("5")));
    assert!(s.profit_loss_ratio.eq_val(&d("2")));
    assert!(s.gross_profit.eq_val(&d("12")));
    assert!(s.gross_loss_abs.eq_val(&d("3")));
    assert!(s.avg_profit.eq_val(&d("2.5")));
    assert!(s.best_trade.eq_val(&d("10")));
    assert!(s.worst_trade.eq_val(&d("-5")));
    let empty = summarize(&[]).unwrap();
    assert_eq!(empty.total_trades, 0);
    assert!(empty.win_rate.eq_val(&d("0")) && empty.profit_loss_ratio.eq_val(&d("0")));
}

#[test]
fn summary_fails_when_a_sum_overflows() {
    let mut a = closed("1", "1", "1");
    a.total_profit = Dec::max_value();
    let mut b = closed("1", "1", "1");
    b.total_profit = Dec::max_value();
    let list = vec![a, b];
    assert!(summarize(&list).is_none());
}

#[test]
fn continuity_of_incoming_klines() {
    assert_eq!(check_continuity(None, 0, 5), Continuity::InOrder);
    assert_eq!(check_continuity(Some(10), 5, 10), Continuity::InOrder);
    assert_eq!(check_continuity(Some(10), 5, 5), Continuity::Repeated);
    assert_eq!(check_continuity(Some(10), 5, 3), Continuity::Regressed);
    assert_eq!(check_continuity(Some(10), 5, 20), Continuity::Gap { start: 10, end: 20 });
}

#[test]
fn gap_fill_must_span_the_gap() {
    let fill = vec![k(T0, "1", "1", "1", "1", "1"), k(T0 + MIN, "1", "1", "1", "1", "1")];
    assert_eq!(check_gap_fill(&fill, T0, T0 + 2 * MIN, Level::Minute1), Ok(()));
    assert_eq!(check_gap_fill(&fill, T0, T0 + 3 * MIN, Level::Minute1), Err(GapError::LastMismatch));
    assert_eq!(check_gap_fill(&fill, T0 + MIN, T0 + 2 * MIN, Level::Minute1), Err(GapError::FirstMismatch));
    assert_eq!(check_gap_fill(&[], T0, T0 + MIN, Level::Minute1), Err(GapError::Empty));
}

#[test]
fn bar_builder_completes_a_bar_on_its_last_kline() {
    let mut b: BarBuilder<10> = BarBuilder::new();
    assert_eq!(b.add(k(T0, "1", "2", "1", "2", "1"), Level::Minute1, Level::Minute3), Ok(false));
    assert_eq!(b.add(k(T0 + MIN, "2", "5", "2", "3", "1"), Level::Minute1, Level::Minute3), Ok(false));
    assert_eq!(b.accumulator.len(), 2);
    assert_eq!(b.add(k(T0 + 2 * MIN, "3", "4", "0.5", "4", "1"), Level::Minute1, Level::Minute3), Ok(true));
    assert!(b.accumulator.is_empty());
    assert_eq!(b.bars.time, vec![T0]);
    assert!(b.bars.high[0].eq_val(&d("5")) && b.bars.low[0].eq_val(&d("0.5")) && b.bars.volume[0].eq_val(&d("3")));
    assert_eq!(
        b.add(k(T0 + 3 * MIN, "1", "1", "1", "1", "1"), Level::Hour1, Level::Minute3),
        Err(TimeError::InvalidSamplingTarget)
    );
    let mut g: BarBuilder<10> = BarBuilder::new();
    g.add_gap(vec![k(T0, "1", "1", "1", "1", "1")]);
    assert_eq!(g.accumulator.len(), 1);
    assert_eq!(g.add(k(T0 + MIN, "1", "1", "1", "1", "1"), Level::Minute1, Level::Minute3), Ok(false));
}

#[test]
fn symbol_buffer_keeps_source_klines() {
    let mut s: SymbolBuffer<2> = SymbolBuffer::new();
    for i in 0..3 {
        let done = s.on_kline(k(T0 + i * MIN, "1", "1", "1", "1", "1"), Level::Minute1, Level::Minute3).unwrap();
        assert_eq!(done, i == 2);
    }
    assert_eq!(s.source_klines.len(), 3);
    assert_eq!(s.source_bars.time, vec![T0 + MIN, T0 + 2 * MIN]);
    assert_eq!(s.builder.bars.time, vec![T0]);
}

#[test]
fn kline_buffer_keeps_the_newest() {
    let mut b: KLineBuffer<2> = KLineBuffer::new();
    b.push(k(1, "1", "1", "1", "1", "1"));
    b.push(k(2, "2", "2", "2", "2", "2"));
    b.push(k(3, "3", "3", "3", "3", "3"));
    assert_eq!(b.time, vec![2, 3]);
    assert!(b.close[1].eq_val(&d("3")));
    b.extend(vec![k(4, "4", "4", "4", "4", "4"), k(5, "5", "5", "5", "5", "5"), k(6, "6", "6", "6", "6", "6")]);
    assert_eq!(b.time, vec![5, 6]);
    let mut unbounded: KLineBuffer<0> = KLineBuffer::new();
    unbounded.extend(vec![k(1, "1", "1", "1", "1", "1"), k(2, "2", "2", "2", "2", "2"), k(3, "3", "3", "3", "3", "3")]);
    assert_eq!(unbounded.time, vec![1, 2, 3]);
}

#[test]
fn series_registry_replaces_by_key() {
    let mut list = Vec::new();
    let aligned = |v: &str| AlignedSeries { level: Level::Hour1, start: T0, end: T0 + HOUR, series: vec![d(v)] };
    add_series(&mut list, "BTCUSDT", "rsi", aligned("1"));
    add_series(&mut list, "BTCUSDT", "ema", aligned("2"));
    assert_eq!(list.len(), 2);
    add_series(&mut list, "BTCUSDT", "rsi", aligned("3"));
    assert_eq!(list.len(), 2);
    assert!(list[0].1.series[0].eq_val(&d("3")));
    assert_eq!(list[0].0 .2, "rsi");
    add_series(&mut list, "ETHUSDT", "rsi", aligned("4"));
    assert_eq!(list.len(), 3);
}

#[test]
fn clip_len_stops_at_the_newest_bar() {
    let aligned = AlignedSeries { level: Level::Hour1, start: T0, end: T0 + 10 * HOUR, series: vec![] };
    assert_eq!(clip_len(&aligned, &[T0, T0 + HOUR, T0 + 2 * HOUR], Level::Hour1), 3);
    assert_eq!(clip_len(&aligned, &[T0 + 20 * HOUR], Level::Hour1), 0);
    assert_eq!(clip_len(&aligned, &[T0 + 9 * HOUR, T0 + 12 * HOUR], Level::Hour1), 10);
    assert_eq!(clip_len(&aligned, &[T0], Level::Minute1), 0);
    assert_eq!(clip_len(&aligned, &[], Level::Hour1), 0);
}

#[test]
fn timeline_needs_overlapping_sources() {
    assert!(matches!(Timeline::new(vec![]), Err(TimelineError::NoSources)));
    let a = DataSource::new(meta("A", Level::Minute1), vec![k(T0, "1", "1", "1", "1", "1"), k(T0 + MIN, "1", "1", "1", "1", "1")]);
    let b = DataSource::new(meta("B", Level::Hour1), vec![k(T0, "1", "1", "1", "1", "1")]);
    assert!(matches!(Timeline::new(vec![a.duplicate(), b]), Err(TimelineError::LevelMismatch)));
    let empty = DataSource::new(meta("C", Level::Minute1), vec![]);
    assert!(matches!(Timeline::new(vec![a.duplicate(), empty]), Err(TimelineError::NoData)));
    let later = DataSource::new(meta("D", Level::Minute1), vec![k(T0 + 5 * MIN, "1", "1", "1", "1", "1")]);
    assert!(matches!(Timeline::new(vec![a.duplicate(), later]), Err(TimelineError::NoOverlap)));
    let c = DataSource::new(
        meta("E", Level::Minute1),
        vec![k(T0 - MIN, "1", "1", "1", "1", "1"), k(T0, "2", "2", "2", "2", "2"), k(T0 + MIN, "3", "3", "3", "3", "3")],
    );
    let mut t = Timeline::new(vec![a, c]).unwrap();
    assert_eq!(t.len(), 2);
    assert_eq!(t.current_time(), Some(T0));
    assert!(t.at("E").unwrap().close.eq_val(&d("2")));
    assert!(t.at("Z").is_none());
    t.next();
    assert_eq!(t.current_time(), Some(T0 + MIN));
    assert_eq!(t.all().unwrap().len(), 2);
    t.next();
    assert!(t.is_done());
    assert!(t.current_time().is_none());
}

#[test]
fn level_names_round_trip() {
    for level in trading_maid::level::all_levels() {
        assert_eq!(Level::parse(level.name()), Some(level));
        if level != Level::Month1 {
            assert_eq!(Level::from_interval_minutes(level.interval_minutes()), Some(level));
        }
        assert!(level.is_valid_sampling_target(level));
    }
}

#[test]
fn period_start_lies_in_its_own_period() {
    for level in trading_maid::level::all_levels() {
        let (start, next) = get_time_range(T0 + 5 * HOUR + 7 * MIN, level).unwrap();
        assert_eq!(get_time_range(start, level).unwrap(), (start, next));
    }
}

#[test]
fn extend_matches_pushing_one_by_one() {
    let ks: Vec<KLine> = (0..5).map(|i| k(i, "1", "1", "1", "1", "1")).collect();
    let mut pushed: KLineBuffer<3> = KLineBuffer::new();
    let mut extended: KLineBuffer<3> = KLineBuffer::new();
    pushed.push(ks[0]);
    extended.push(ks[0]);
    for x in &ks[1..] {
        pushed.push(*x);
    }
    extended.extend(ks[1..].to_vec());
    assert_eq!(pushed.time, extended.time);
    assert_eq!(pushed.time, vec![2, 3, 4]);
}

#[test]
fn level_in_data_file_names() {
    assert_eq!(level_from_file_name("BTC-USDT-SWAP-1m.json"), Some(Level::Minute1));
    assert_eq!(level_from_file_name("BTCUSDT-1mo.csv"), Some(Level::Month1));
    assert_eq!(level_from_file_name("4h.bin"), Some(Level::Hour4));
    assert_eq!(level_from_file_name("BTCUSDT-2d.csv"), None);
    assert_eq!(coarser_levels(Level::Day1), vec![Level::Day3, Level::Week1, Level::Month1]);
    assert!(coarser_levels(Level::Month1).is_empty());
}

#[test]
fn descending_files_are_sorted_by_time() {
    let down = vec![k(3, "3", "3", "3", "3", "1"), k(1, "1", "1", "1", "1", "1"), k(2, "2", "2", "2", "2", "1")];
    let sorted = sort_if_descending(down);
    assert_eq!(sorted.iter().map(|x| x.time).collect::<Vec<_>>(), vec![1, 2, 3]);
    let up = vec![k(1, "1", "1", "1", "1", "1"), k(3, "3", "3", "3", "3", "1"), k(2, "2", "2", "2", "2", "1")];
    let kept = sort_if_descending(up);
    assert_eq!(kept.iter().map(|x| x.time).collect::<Vec<_>>(), vec![1, 3, 2]);
}

#[test]
fn bracket_orders_open_and_protect_a_position() {
    let (entry, tp, sl) = bracket_orders("BTCUSDT", Side::Sell, d("90"), d("110"), d("0.01"));
    assert_eq!(entry.side, Side::Sell);
    assert!(entry.is_market() && !entry.reduce_only && entry.quantity.eq_val(&d("0.01")));
    assert_eq!(tp.side, Side::Buy);
    assert!(tp.is_limit() && tp.reduce_only && tp.price.eq_val(&d("90")));
    assert_eq!(sl.side, Side::Buy);
    assert!(sl.is_trigger() && sl.reduce_only && sl.trigger_price.eq_val(&d("110")) && sl.price.eq_val(&d("0")));
    assert_eq!(sl.symbol, "BTCUSDT");
}

#[test]
fn archive_requests_and_addresses() {
    assert_eq!(
        parse_request("BTCUSDT/1m"),
        Some(("BTCUSDT".to_string(), "1m".to_string(), "futures".to_string()))
    );
    assert_eq!(
        parse_request("ETHUSDT/1h/spot"),
        Some(("ETHUSDT".to_string(), "1h".to_string(), "spot".to_string()))
    );
    assert_eq!(parse_request("ETHUSDT/1h/swap"), None);
    assert_eq!(parse_request("ETHUSDT"), None);
    assert_eq!(parse_request("a/b/spot/c"), None);
    assert_eq!(previous_months(2024, 3, 4), vec![(2023, 11), (2023, 12), (2024, 1), (2024, 2)]);
    assert!(previous_months(2024, 3, 0).is_empty());
    assert_eq!(
        download_url("https://data.binance.vision/data", "BTCUSDT", "1m", "2024-01", "futures"),
        "https://data.binance.vision/data/futures/um/monthly/klines/BTCUSDT/1m/BTCUSDT-1m-2024-01.zip"
    );
    assert_eq!(
        download_url("https://x", "ETHUSDT", "1h", "2023-12", "spot"),
        "https://x/spot/monthly/klines/ETHUSDT/1h/ETHUSDT-1h-2023-12.zip"
    );
    assert_eq!(first_six_columns("1,2,3,4,5,6,7,8"), Some("1,2,3,4,5,6"));
    assert_eq!(first_six_columns("1,2,3,4,5,6"), None);
}

#[test]
fn requested_levels_come_from_the_right_bars() {
    assert_eq!(bar_source(Level::Hour1, Level::Hour1, Level::Minute1), BarSource::Strategy);
    assert_eq!(bar_source(Level::Minute1, Level::Hour1, Level::Minute1), BarSource::Source);
    assert_eq!(bar_source(Level::Hour4, Level::Hour1, Level::Minute1), BarSource::Resampled);
    assert_eq!(bar_source(Level::Minute5, Level::Hour1, Level::Minute3), BarSource::Unavailable);
}

#[test]
fn archive_cache_rules() {
    assert_eq!(months_to_fetch(0), 120);
    assert_eq!(months_to_fetch(12), 12);
    assert!(needs_merge(true, true));
    assert!(needs_merge(false, false));
    assert!(!needs_merge(false, true));
}

#[test]
fn month_periods_tile_the_time_line() {
    let feb: u64 = 1_706_745_600_000;
    let mar: u64 = 1_709_251_200_000;
    let apr: u64 = 1_711_929_600_000;
    assert_eq!(get_time_range(feb + 5 * 86_400_000, Level::Month1), Ok((feb, mar)));
    assert_eq!(get_time_range(feb, Level::Month1), Ok((feb, mar)));
    assert_eq!(get_time_range(mar, Level::Month1), Ok((mar, apr)));
}
