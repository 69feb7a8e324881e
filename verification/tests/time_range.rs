use trading_maid::decimal::Dec;
use trading_maid::level::Level;
use trading_maid::margin::is_tick_aligned;
use trading_maid::time::{get_time_range, s2t_utc, t2s_utc};
use trading_maid::util::get_last_time;

fn dec(text: &str) -> Dec {
    let d: rust_decimal::Decimal = text.parse().unwrap();
    Dec::from_parts(d.mantissa(), d.scale()).unwrap()
}

fn assert_time_range(time_str: &str, level: Level, expected_start: &str, expected_end: &str) {
    let time = s2t_utc(time_str);
    let (actual_start, actual_end) = get_time_range(time, level).unwrap();
    assert_eq!(
        (t2s_utc(actual_start), t2s_utc(actual_end)),
        (expected_start.to_string(), expected_end.to_string()),
        "time: {}, level: {:?}",
        time_str,
        level
    );
}

#[test]
fn is_tick_aligned_works_for_aligned_and_non_aligned_prices() {
    assert!(is_tick_aligned(dec("68000.1"), dec("0.1")));
    assert!(!is_tick_aligned(dec("68000.1000000001"), dec("0.1")));
    assert!(!is_tick_aligned(dec("68000.123"), dec("0.1")));
    assert!(!is_tick_aligned(dec("1"), dec("0.0")));
}

#[test]
fn test_minute1_basic() {
    assert_time_range(
        "2024/03/21 10:23:45",
        Level::Minute1,
        "2024/03/21 10:23:00",
        "2024/03/21 10:24:00"
    );
}

#[test]
fn test_minute1_boundary() {
    assert_time_range(
        "2024/03/21 10:23:00",
        Level::Minute1,
        "2024/03/21 10:23:00",
        "2024/03/21 10:24:00"
    );
    assert_time_range(
        "2024/03/21 10:23:59.999",
        Level::Minute1,
        "2024/03/21 10:23:00",
        "2024/03/21 10:24:00"
    );
}

#[test]
fn test_minute3_various_offsets() {
    assert_time_range(
        "2024/03/21 10:21:30",
        Level::Minute3,
        "2024/03/21 10:21:00",
        "2024/03/21 10:24:00"
    );
    assert_time_range(
        "2024/03/21 10:22:15",
        Level::Minute3,
        "2024/03/21 10:21:00",
        "2024/03/21 10:24:00"
    );
    assert_time_range(
        "2024/03/21 10:23:45",
        Level::Minute3,
        "2024/03/21 10:21:00",
        "2024/03/21 10:24:00"
    );
}

#[test]
fn test_minute5_various_offsets() {
    assert_time_range(
        "2024/03/21 10:27:30",
        Level::Minute5,
        "2024/03/21 10:25:00",
        "2024/03/21 10:30:00"
    );
    assert_time_range(
        "2024/03/21 10:30:00",
        Level::Minute5,
        "2024/03/21 10:30:00",
        "2024/03/21 10:35:00"
    );
}

#[test]
fn test_minute15_cross_hour() {
    assert_time_range(
        "2024/03/21 10:59:30",
        Level::Minute15,
        "2024/03/21 10:45:00",
        "2024/03/21 11:00:00"
    );
    assert_time_range(
        "2024/03/21 11:02:00",
        Level::Minute15,
        "2024/03/21 11:00:00",
        "2024/03/21 11:15:00"
    );
}

#[test]
fn test_minute30_basic() {
    assert_time_range(
        "2024/03/21 10:45:30",
        Level::Minute30,
        "2024/03/21 10:30:00",
        "2024/03/21 11:00:00"
    );
    assert_time_range(
        "2024/03/21 11:00:00",
        Level::Minute30,
        "2024/03/21 11:00:00",
        "2024/03/21 11:30:00"
    );
}


#[test]
fn test_hour1_basic() {
    assert_time_range(
        "2024/03/21 10:23:45",
        Level::Hour1,
        "2024/03/21 10:00:00",
        "2024/03/21 11:00:00"
    );
}

#[test]
fn test_hour2_various() {
    assert_time_range(
        "2024/03/21 10:30:00",
        Level::Hour2,
        "2024/03/21 10:00:00",
        "2024/03/21 12:00:00"
    );
    assert_time_range(
        "2024/03/21 11:59:59",
        Level::Hour2,
        "2024/03/21 10:00:00",
        "2024/03/21 12:00:00"
    );
}

#[test]
fn test_hour4_basic() {
    assert_time_range(
        "2024/03/21 15:30:00",
        Level::Hour4,
        "2024/03/21 12:00:00",
        "2024/03/21 16:00:00"
    );
}

#[test]
fn test_hour6_cross_day() {
    assert_time_range(
        "2024/03/21 23:30:00",
        Level::Hour6,
        "2024/03/21 18:00:00",
        "2024/03/22 00:00:00"
    );
    assert_time_range(
        "2024/03/22 01:15:00",
        Level::Hour6,
        "2024/03/22 00:00:00",
        "2024/03/22 06:00:00"
    );
}

#[test]
fn test_hour12_basic() {
    assert_time_range(
        "2024/03/21 15:30:00",
        Level::Hour12,
        "2024/03/21 12:00:00",
        "2024/03/22 00:00:00"
    );
    assert_time_range(
        "2024/03/21 03:30:00",
        Level::Hour12,
        "2024/03/21 00:00:00",
        "2024/03/21 12:00:00"
    );
}


#[test]
fn test_day1_basic() {
    assert_time_range(
        "2024/03/21 15:30:45",
        Level::Day1,
        "2024/03/21 00:00:00",
        "2024/03/22 00:00:00"
    );
}

#[test]
fn test_day1_cross_month() {
    assert_time_range(
        "2024/03/31 23:59:59",
        Level::Day1,
        "2024/03/31 00:00:00",
        "2024/04/01 00:00:00"
    );
}

#[test]
fn test_day1_cross_year() {
    assert_time_range(
        "2024/12/31 12:00:00",
        Level::Day1,
        "2024/12/31 00:00:00",
        "2025/01/01 00:00:00"
    );
}

#[test]
fn test_day3_cross_month() {
    assert_time_range(
        "2026/02/04 05:00:00",
        Level::Day3,
        "2026/02/03 00:00:00",
        "2026/02/06 00:00:00"
    );
}


#[test]
fn test_week1_monday_start() {
    assert_time_range(
        "2024/03/18 00:00:00",
        Level::Week1,
        "2024/03/18 00:00:00",
        "2024/03/25 00:00:00"
    );
}

#[test]
fn test_week1_midweek() {
    assert_time_range(
        "2024/03/21 15:30:00",
        Level::Week1,
        "2024/03/18 00:00:00",
        "2024/03/25 00:00:00"
    );
}

#[test]
fn test_week1_cross_month() {
    assert_time_range(
        "2024/03/31 23:59:59",
        Level::Week1,
        "2024/03/25 00:00:00",
        "2024/04/01 00:00:00"
    );
}

#[test]
fn test_week1_cross_year() {
    assert_time_range(
        "2023/12/31 12:00:00",
        Level::Week1,
        "2023/12/25 00:00:00",
        "2024/01/01 00:00:00"
    );
}


#[test]
fn test_month1_basic() {
    assert_time_range(
        "2024/03/21 15:30:00",
        Level::Month1,
        "2024/03/01 00:00:00",
        "2024/04/01 00:00:00"
    );
}

#[test]
fn test_month1_first_day() {
    assert_time_range(
        "2024/03/01 00:00:00",
        Level::Month1,
        "2024/03/01 00:00:00",
        "2024/04/01 00:00:00"
    );
}

#[test]
fn test_month1_last_day_31() {
    assert_time_range(
        "2024/01/31 23:59:59",
        Level::Month1,
        "2024/01/01 00:00:00",
        "2024/02/01 00:00:00"
    );
}

#[test]
fn test_month1_last_day_30() {
    assert_time_range(
        "2024/04/30 12:00:00",
        Level::Month1,
        "2024/04/01 00:00:00",
        "2024/05/01 00:00:00"
    );
}

#[test]
fn test_month1_february_leap_year() {
    assert_time_range(
        "2024/02/29 12:00:00",
        Level::Month1,
        "2024/02/01 00:00:00",
        "2024/03/01 00:00:00"
    );
}

#[test]
fn test_month1_february_common_year() {
    assert_time_range(
        "2023/02/28 23:59:59",
        Level::Month1,
        "2023/02/01 00:00:00",
        "2023/03/01 00:00:00"
    );
}

#[test]
fn test_month1_cross_year() {
    assert_time_range(
        "2024/12/15 10:00:00",
        Level::Month1,
        "2024/12/01 00:00:00",
        "2025/01/01 00:00:00"
    );
}


#[test]
fn test_invalid_timestamp() {
    let result = get_time_range(i64::MAX as u64, Level::Minute1);
    assert!(result.is_err());
}

#[test]
fn test_epoch_time() {
    assert_time_range(
        "1970/01/01 00:00:00",
        Level::Minute1,
        "1970/01/01 00:00:00",
        "1970/01/01 00:01:00"
    );
}

#[test]
fn test_dst_transition() {
    assert_time_range(
        "2024/03/10 02:30:00",
        Level::Hour1,
        "2024/03/10 02:00:00",
        "2024/03/10 03:00:00"
    );
}

#[test]
fn periods_tile_for_fixed_levels() {
    let time = s2t_utc("2024/03/14 13:47:21.5");
    let levels = [
        (Level::Minute5, 300_000u64),
        (Level::Hour4, 14_400_000),
        (Level::Day3, 259_200_000),
        (Level::Week1, 604_800_000),
    ];
    for (level, length) in levels {
        let (start, next) = get_time_range(time, level).unwrap();
        assert!(start <= time && time < next);
        assert_eq!(next - start, length);
        assert_eq!(get_time_range(start, level).unwrap(), (start, next));
        assert_eq!(get_time_range(next, level).unwrap().0, next);
    }
}

#[test]
fn months_tile() {
    let time = s2t_utc("2024/02/10 08:00:00");
    let (start, next) = get_time_range(time, Level::Month1).unwrap();
    assert_eq!(get_time_range(start, Level::Month1).unwrap(), (start, next));
    assert_eq!(get_time_range(next, Level::Month1).unwrap().0, next);
    assert_eq!(t2s_utc(next), "2024/03/01 00:00:00");
}

#[test]
fn exact_quotients_are_returned_exactly() {
    assert!(dec("10").checked_div(&dec("4")).unwrap().eq_val(&dec("2.5")));
    assert!(dec("1").checked_div(&dec("0.008")).unwrap().eq_val(&dec("125")));
    assert!(dec("-3").checked_div(&dec("0.5")).unwrap().eq_val(&dec("-6")));
    assert!(dec("1").checked_div(&dec("0")).is_none());
}

#[test]
fn last_lower_candle_ends_with_the_period() {
    let time = s2t_utc("2024/03/14 13:47:21");
    let (start, next) = get_time_range(time, Level::Week1).unwrap();
    let last = get_last_time(time, Level::Day1, Level::Week1).unwrap();
    assert_eq!(last, next - 86_400_000);
    assert!(start <= last && last < next);
    assert_eq!(get_time_range(last, Level::Day1).unwrap().1, next);
    assert_eq!(t2s_utc(last), "2024/03/17 00:00:00");
}
