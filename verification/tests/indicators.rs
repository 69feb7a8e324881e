use trading_maid::decimal::Dec;
use trading_maid::indicator::{
    atr, bollinger, camarilla_pivot_point, cci, cross_over, cross_under, ema, fib_pivot_point, highest, lowest, ma,
    macd, pivot_point, rsi, swing_high, swing_low, woodie_pivot_point, EMACache, RSICache,
};
use trading_maid::series::{Series, TimeSeries};

fn d(text: &str) -> Dec {
    let v: rust_decimal::Decimal = text.parse().unwrap();
    Dec::from_parts(v.mantissa(), v.scale()).unwrap()
}

fn same(a: Option<Dec>, b: &str) -> bool {
    match a {
        Some(x) => x.eq_val(&d(b)),
        None => false,
    }
}

fn close_to(a: Option<Dec>, b: &str) -> bool {
    match a {
        Some(x) => {
            let diff = x.checked_sub(&d(b)).unwrap().abs();
            diff.lt(&d("0.000000000001"))
        }
        None => false,
    }
}

fn decs(values: &[&str]) -> Vec<Dec> {
    values.iter().map(|s| d(s)).collect()
}

#[test]
fn series_indexes_back_from_the_newest_value() {
    let s_values = decs(&["1", "2", "3"]);
    let s = Series::new(&s_values);
    assert!(s.get(0).eq_val(&d("3")));
    assert!(s.current().eq_val(&d("3")));
    assert!(s.get(2).eq_val(&d("1")));
    assert!(s.get(3).eq_val(&Dec::max_value()));
    assert_eq!(s.len(), 3);
    let newest_first = s.iter();
    assert!(newest_first[0].eq_val(&d("3")) && newest_first[2].eq_val(&d("1")));
    let empty_values = decs(&[]);
    let empty = Series::new(&empty_values);
    assert!(empty.is_empty());
    assert!(empty.get(0).eq_val(&Dec::max_value()));
}

#[test]
fn series_ranges_count_bars_back() {
    let s_values = decs(&["1", "2", "3", "4", "5"]);
    let s = Series::new(&s_values);
    let r = s.range(1, 3);
    assert_eq!(r.len(), 2);
    assert!(r.get(0).eq_val(&d("4")) && r.get(1).eq_val(&d("3")));
    assert_eq!(s.range_from(2).len(), 3);
    assert!(s.range_from(2).get(0).eq_val(&d("3")));
    assert_eq!(s.range_to(2).len(), 2);
    assert!(s.range_to(2).get(0).eq_val(&d("5")));
    assert_eq!(s.range_inclusive(1, 3).len(), 3);
    assert_eq!(s.range_to_inclusive(0).len(), 1);
    assert_eq!(s.range(3, 1).len(), 0);
}

#[test]
fn time_series_past_the_end_is_max() {
    let t = TimeSeries::new(&[10, 20, 30]);
    assert_eq!(t.get(0), 30);
    assert_eq!(t.current(), 30);
    assert_eq!(t.get(2), 10);
    assert_eq!(t.get(3), u64::MAX);
    assert_eq!(t.iter(), vec![30, 20, 10]);
    assert_eq!(t.range(0, 2).iter(), vec![30, 20]);
    assert_eq!(t.range_from(1).len(), 2);
    assert_eq!(t.range_to(1).iter(), vec![30]);
}

#[test]
fn ma_averages_the_newest_values() {
    let s_values = decs(&["1", "2", "3", "4", "5"]);
    let s = Series::new(&s_values);
    assert!(same(ma(&s, 3), "4"));
    assert!(same(ma(&s, 5), "3"));
    assert!(ma(&s, 6).is_none());
    assert!(ma(&s, 0).is_none());
}

#[test]
fn highest_and_lowest_look_at_the_newest_values() {
    let s_values = decs(&["1", "5", "3", "2"]);
    let s = Series::new(&s_values);
    assert!(highest(&s, 3).unwrap().eq_val(&d("5")));
    assert!(highest(&s, 2).unwrap().eq_val(&d("3")));
    assert!(lowest(&s, 2).unwrap().eq_val(&d("2")));
    assert!(lowest(&s, 4).unwrap().eq_val(&d("1")));
    assert!(highest(&s, 5).is_none());
    assert!(lowest(&s, 0).is_none());
}

#[test]
fn cross_over_and_under_compare_the_last_two_bars() {
    let fast_values = decs(&["1", "3"]);
    let fast = Series::new(&fast_values);
    let slow_values = decs(&["2", "2"]);
    let slow = Series::new(&slow_values);
    assert!(cross_over(&fast, &slow));
    assert!(!cross_under(&fast, &slow));
    assert!(cross_under(&slow, &fast));
    let flat_values = decs(&["2", "3"]);
    let flat = Series::new(&flat_values);
    assert!(cross_over(&flat, &slow));
    let short_values = decs(&["3"]);
    let short = Series::new(&short_values);
    assert!(!cross_over(&short, &slow));
}

#[test]
fn pivot_points_of_the_current_bar() {
    let h_values = decs(&["1", "12"]);
    let h = Series::new(&h_values);
    let l_values = decs(&["1", "6"]);
    let l = Series::new(&l_values);
    let c_values = decs(&["1", "9"]);
    let c = Series::new(&c_values);
    let p = pivot_point(&h, &l, &c);
    assert!(same(p.0, "9") && same(p.1, "12") && same(p.2, "15") && same(p.3, "18"));
    assert!(same(p.4, "6") && same(p.5, "3") && same(p.6, "0"));
    let f = fib_pivot_point(&h, &l, &c);
    assert!(same(f.0, "9") && same(f.1, "11.292") && same(f.2, "12.708") && same(f.3, "15"));
    assert!(same(f.4, "6.708") && same(f.5, "5.292") && same(f.6, "3"));
    let m = camarilla_pivot_point(&h, &l, &c);
    assert!(same(m.0, "9") && same(m.1, "9.55") && same(m.2, "10.1") && same(m.3, "10.65") && same(m.4, "12.3"));
    assert!(same(m.5, "8.45") && same(m.6, "7.9") && same(m.7, "7.35") && same(m.8, "5.7"));
    let w = woodie_pivot_point(&h, &l, &c);
    assert!(same(w.0, "9") && same(w.1, "12") && same(w.2, "15") && same(w.3, "6") && same(w.4, "3"));
    let empty_values = decs(&[]);
    let empty = Series::new(&empty_values);
    assert!(pivot_point(&empty, &l, &c).0.is_none());
}

#[test]
fn atr_averages_true_ranges() {
    let h_values = decs(&["10", "12", "13"]);
    let h = Series::new(&h_values);
    let l_values = decs(&["8", "9", "11"]);
    let l = Series::new(&l_values);
    let c_values = decs(&["9", "11", "12"]);
    let c = Series::new(&c_values);
    assert!(same(atr(&h, &l, &c, 2), "2.5"));
    assert!(atr(&h, &l, &c, 3).is_none());
    assert!(atr(&h, &l, &c, 0).is_none());
}

#[test]
fn cci_measures_deviation_from_the_mean() {
    let v = ["10", "10", "10", "10", "10", "28"];
    let s_values = decs(&v);
    let s = Series::new(&s_values);
    assert!(same(cci(&s, &s, &s, 6), "200"));
    let flat_values = decs(&["5", "5", "5"]);
    let flat = Series::new(&flat_values);
    assert!(same(cci(&flat, &flat, &flat, 3), "0"));
    assert!(cci(&s, &s, &s, 7).is_none());
}

#[test]
fn bollinger_bands_around_the_mean() {
    let s_values = decs(&["2", "4", "4", "4", "5", "5", "7", "9"]);
    let s = Series::new(&s_values);
    let (mid, up, low) = bollinger(&s, 8, d("2"));
    assert!(same(mid, "5"));
    assert!(close_to(up, "9"));
    assert!(close_to(low, "1"));
    let (a, b, c) = bollinger(&s, 9, d("2"));
    assert!(a.is_none() && b.is_none() && c.is_none());
}

#[test]
fn ema_starts_from_the_mean_then_moves() {
    let s_values = decs(&["1", "2", "3", "4"]);
    let s = Series::new(&s_values);
    assert!(same(ema(&s, 3), "3"));
    assert!(same(ema(&s, 4), "2.5"));
    assert!(ema(&s, 5).is_none());
    let mut cache = EMACache::new(3);
    assert!(cache.update(d("1")).unwrap().is_none());
    assert!(cache.update(d("2")).unwrap().is_none());
    assert!(same(cache.update(d("3")).unwrap(), "2"));
    assert!(same(cache.update(d("4")).unwrap(), "3"));
    assert!(same(cache.value(), "3"));
    cache.reset();
    assert!(cache.value().is_none());
    let mut cont = EMACache::with_ema(3, d("10"));
    assert!(same(cont.value(), "10"));
    assert!(same(cont.update(d("20")).unwrap(), "15"));
}

#[test]
fn rsi_of_rising_falling_and_mixed_prices() {
    assert!(same(rsi(&Series::new(&decs(&["1", "2", "3"])), 2), "100"));
    assert!(same(rsi(&Series::new(&decs(&["3", "2", "1"])), 2), "0"));
    assert!(same(rsi(&Series::new(&decs(&["1", "2", "1"])), 2), "50"));
    assert!(same(rsi(&Series::new(&decs(&["4", "4", "4"])), 2), "50"));
    assert!(rsi(&Series::new(&decs(&["1", "2"])), 2).is_none());
    let mut cache = RSICache::new(2);
    assert!(cache.update(d("1")).unwrap().is_none());
    assert!(cache.update(d("2")).unwrap().is_none());
    assert!(same(cache.update(d("1")).unwrap(), "50"));
    assert!(same(cache.value(), "50"));
}

#[test]
fn macd_of_fast_and_slow_averages() {
    let s_values = decs(&["1", "2", "3", "4"]);
    let s = Series::new(&s_values);
    let (m, sig, hist) = macd(&s, 1, 3, 1);
    assert!(same(m, "1") && same(sig, "1") && same(hist, "0"));
    let (a, b, c) = macd(&s, 3, 3, 1);
    assert!(a.is_none() && b.is_none() && c.is_none());
}

#[test]
fn swing_high_and_low_around_a_bar() {
    let s_values = decs(&["1", "2", "5", "3", "2"]);
    let s = Series::new(&s_values);
    let (mid, older, newer) = swing_high(&s, 2, 2).unwrap();
    assert!(mid.eq_val(&d("5")) && older.eq_val(&d("1")) && newer.eq_val(&d("2")));
    assert!(swing_low(&s, 2, 2).is_none());
    let t_values = decs(&["5", "4", "1", "3", "4"]);
    let t = Series::new(&t_values);
    let (mid, older, newer) = swing_low(&t, 2, 2).unwrap();
    assert!(mid.eq_val(&d("1")) && older.eq_val(&d("5")) && newer.eq_val(&d("4")));
    assert!(swing_high(&s, 2, 3).is_none());
    assert!(swing_high(&s, 0, 2).is_none());
}
