//! Period arithmetic over k-lines: the last lower-level candle of a period, bar
//! counts, resampling to a higher level, and the summary of closed positions.
use crate::data::KLine;
use crate::decimal::{dec_value, Dec};
use crate::level::{is_sampling_target, level_minutes, Level};
use crate::margin::{opt_add, DecView};
use crate::order::{HistoryPosition, HistoryPositionSummary};
use crate::time::{
    day_of, get_time_range, level_millis, lemma_periods_tile, millis_in_range, period_in_range, period_next,
    period_start, signed_millis, trunc_div, unsigned_millis, TimeError, DAY_MILLIS, MAX_DAY, UNIX_EPOCH_CE_DAY,
};
use vstd::prelude::*;

verus! {

/// The signed reading of a timestamp given as an integer (`t as i64`).
pub open spec fn signed_of(t: int) -> int {
    if t <= i64::MAX {
        t
    } else {
        t - 0x1_0000_0000_0000_0000int
    }
}

/// `get_time_range(time, level)` goes through: for a fixed-length level exactly when
/// its period lies within the calendar range; for a month at least when the
/// timestamp lies within that range with a month to spare.
pub open spec fn range_defined(time: u64, level: Level) -> bool {
    if level == Level::Month1 {
        millis_in_range(signed_millis(time)) && day_of(signed_millis(time)) + 31 <= MAX_DAY
    } else {
        period_in_range(time, level)
    }
}

/// The calendar computations of `get_last_time` go through: those of the `max_level`
/// period of `time` and of the `min_level` period of the instant before the next
/// `max_level` period (see `range_defined`).
pub open spec fn last_time_defined(time: u64, min_level: Level, max_level: Level) -> bool {
    let next = unsigned_millis(period_next(signed_millis(time), max_level));
    max_level == min_level || (range_defined(time, max_level) && next > 0 && range_defined((next - 1) as u64,
        min_level))
}

/// Time of the last `min_level` candle inside the `max_level` period that contains
/// `time`: the start of the `min_level` period just before the next `max_level`
/// period. `time` itself when the levels are equal; fails when `max_level` is not a
/// whole multiple of `min_level`, and where the calendar computation fails.
pub fn get_last_time(time: u64, min_level: Level, max_level: Level) -> (r: Result<u64, TimeError>)
    ensures
        !is_sampling_target(min_level, max_level) ==> r == Err::<u64, TimeError>(TimeError::InvalidSamplingTarget),
        is_sampling_target(min_level, max_level) && max_level == min_level ==> r == Ok::<u64, TimeError>(time),
        max_level != min_level ==> (r matches Ok(t) ==> {
            let next = unsigned_millis(period_next(signed_millis(time), max_level));
            next > 0 && t == unsigned_millis(period_start(signed_of(next - 1), min_level))
        }),
        r matches Err(e) ==> e == TimeError::InvalidSamplingTarget || e == TimeError::OutOfRange,
        is_sampling_target(min_level, max_level) && min_level != Level::Month1 && max_level != Level::Month1 ==> (r is Ok
            <==> last_time_defined(time, min_level, max_level)),
        is_sampling_target(min_level, max_level) && last_time_defined(time, min_level, max_level) ==> r is Ok,
{
    if !min_level.is_valid_sampling_target(max_level) {
        return Err(TimeError::InvalidSamplingTarget);
    }
    if max_level == min_level {
        return Ok(time);
    }
    let (_, next) = get_time_range(time, max_level)?;
    if next == 0 {
        return Err(TimeError::OutOfRange);
    }
    let (start, _) = get_time_range(next - 1, min_level)?;
    Ok(start)
}

/// The last lower-level candle of a period: when `max_level` is built from a
/// different `min_level` (neither a month), the `min_level` period just before the
/// end `n` of the `max_level` period `[s, n)` that contains `tt` ends exactly at `n`,
/// starts one `min_level` length before it, and lies inside `[s, n)`.
pub proof fn lemma_last_lower_period(tt: int, min_level: Level, max_level: Level)
    requires
        min_level != Level::Month1,
        max_level != Level::Month1,
        min_level != max_level,
        is_sampling_target(min_level, max_level),
    ensures
        ({
            let s = period_start(tt, max_level);
            let n = period_next(tt, max_level);
            &&& period_start(n - 1, min_level) == n - level_millis(min_level)
            &&& period_next(n - 1, min_level) == n
            &&& s <= period_start(n - 1, min_level) < n
        }),
{
    lemma_periods_tile(tt, max_level);
    let s = period_start(tt, max_level);
    let n = period_next(tt, max_level);
    let u = level_millis(min_level);
    let big = level_millis(max_level);
    let d = DAY_MILLIS as int;
    assert(min_level != Level::Day3 && min_level != Level::Week1);
    let mu = level_minutes(min_level) as int;
    let mb = level_minutes(max_level) as int;
    assert(mu > 0 && mb > 0 && mb % mu == 0);
    assert(1440int % mu == 0) by {
        match min_level {
            Level::Minute1 => {},
            Level::Minute3 => {},
            Level::Minute5 => {},
            Level::Minute15 => {},
            Level::Minute30 => {},
            Level::Hour1 => {},
            Level::Hour2 => {},
            Level::Hour4 => {},
            Level::Hour6 => {},
            Level::Hour12 => {},
            _ => {},
        }
    }
    assert(u == mu * 60000 && big == mb * 60000 && d == 1440 * 60000);
    let c = mb / mu;
    vstd::arithmetic::div_mod::lemma_fundamental_div_mod(mb, mu);
    vstd::arithmetic::div_mod::lemma_fundamental_div_mod(1440int, mu);
    let e = 1440int / mu;
    assert(big == u * c) by (nonlinear_arith)
        requires
            big == mb * 60000,
            u == mu * 60000,
            mb == mu * c,
    ;
    assert(d == u * e) by (nonlinear_arith)
        requires
            d == 1440 * 60000,
            u == mu * 60000,
            1440 == mu * e,
    ;
    assert(c >= 1) by (nonlinear_arith)
        requires
            big == u * c,
            big > 0,
            u > 0,
    ;
    assert(u <= big) by (nonlinear_arith)
        requires
            big == u * c,
            c >= 1,
            u > 0,
    ;
    // The end of the larger period is a whole number of smaller periods.
    let k: int = match max_level {
        Level::Day3 => {
            let dd = trunc_div(day_of(tt) + UNIX_EPOCH_CE_DAY, 3) * 3 - UNIX_EPOCH_CE_DAY + 3;
            dd * e
        },
        Level::Week1 => {
            let dd = day_of(tt) - (day_of(tt) + 3) % 7 + 7;
            dd * e
        },
        _ => (tt / big + 1) * c,
    };
    assert(n == k * u) by {
        match max_level {
            Level::Day3 => {
                let dd = trunc_div(day_of(tt) + UNIX_EPOCH_CE_DAY, 3) * 3 - UNIX_EPOCH_CE_DAY + 3;
                assert(n == dd * d);
                assert(dd * d == (dd * e) * u) by (nonlinear_arith)
                    requires
                        d == u * e,
                ;
            },
            Level::Week1 => {
                let dd = day_of(tt) - (day_of(tt) + 3) % 7 + 7;
                assert(n == dd * d);
                assert(dd * d == (dd * e) * u) by (nonlinear_arith)
                    requires
                        d == u * e,
                ;
            },
            _ => {
                let q = tt / big;
                assert(n == q * big + big);
                assert(q * big + big == ((q + 1) * c) * u) by (nonlinear_arith)
                    requires
                        big == u * c,
                ;
            },
        }
    }
    assert(n - 1 == (k - 1) * u + (u - 1)) by (nonlinear_arith)
        requires
            n == k * u,
    ;
    vstd::arithmetic::div_mod::lemma_fundamental_div_mod_converse_div(n - 1, u, k - 1, u - 1);
    assert((n - 1) / u == k - 1);
    assert(period_start(n - 1, min_level) == (k - 1) * u);
    assert((k - 1) * u == n - u) by (nonlinear_arith)
        requires
            n == k * u,
    ;
}

/// The signed timestamp `tt` moved on by `n` months (each step to the start of the
/// next month).
pub open spec fn month_after(tt: int, n: nat) -> int
    decreases n,
{
    if n == 0 {
        tt
    } else {
        month_after(period_next(tt, Level::Month1), (n - 1) as nat)
    }
}

/// The next month can be found from the signed timestamp `tt`.
pub open spec fn month_step_ok(tt: int) -> bool {
    &&& millis_in_range(tt)
    &&& day_of(tt) + 31 <= MAX_DAY
    &&& period_next(tt, Level::Month1) > tt
}

/// Number of `level` bars from `start` up to `end`. For a month the months are
/// stepped through one by one (they differ in length), stopping where the calendar
/// computation fails; other levels divide the span by their length.
pub fn bar_offset_by_level(start: u64, end: u64, level: Level) -> (r: usize)
    requires
        level != Level::Month1 ==> start <= end,
        level != Level::Month1 ==> (end - start) as int / (level_minutes(level) * 60000) as int <= usize::MAX,
    ensures
        level != Level::Month1 ==> r == (end - start) as int / (level_minutes(level) * 60000) as int,
        level == Level::Month1 ==> forall|i: nat| i < r ==> unsigned_millis(
            #[trigger] month_after(signed_millis(start), i),
        ) < end,
        level == Level::Month1 ==> (unsigned_millis(month_after(signed_millis(start), r as nat)) >= end
            || !month_step_ok(month_after(signed_millis(start), r as nat)) || r == usize::MAX),
{
    if level == Level::Month1 {
        let mut count: usize = 0;
        let mut cur = start;
        while cur < end
            invariant
                level == Level::Month1,
                signed_millis(cur) == month_after(signed_millis(start), count as nat),
                forall|i: nat| i < count ==> unsigned_millis(#[trigger] month_after(signed_millis(start), i)) < end,
            ensures
                signed_millis(cur) == month_after(signed_millis(start), count as nat),
                forall|i: nat| i < count ==> unsigned_millis(#[trigger] month_after(signed_millis(start), i)) < end,
                cur >= end || !month_step_ok(signed_millis(cur)) || count == usize::MAX,
            decreases (i64::MAX as int) - signed_millis(cur),
        {
            if count == usize::MAX {
                break;
            }
            match get_time_range(cur, level) {
                Ok((_, next)) => {
                    proof {
                        lemma_month_after_step(signed_millis(start), count as nat);
                        assert(unsigned_millis(signed_millis(cur)) == cur);
                    }
                    cur = next;
                    count = count + 1;
                },
                Err(_) => {
                    break;
                },
            }
        }
        return count;
    }
    ((end - start) / level.interval_millis()) as usize
}

pub proof fn lemma_month_after_step(tt: int, n: nat)
    ensures
        month_after(tt, n + 1) == period_next(month_after(tt, n), Level::Month1),
    decreases n,
{
    reveal_with_fuel(month_after, 2);
    if n > 0 {
        lemma_month_after_step(period_next(tt, Level::Month1), (n - 1) as nat);
    }
}

/// Index of the first candle from `i` on whose time reaches `next` (the length when
/// none).
pub open spec fn group_end(a: Seq<KLine>, i: int, next: int) -> int
    decreases a.len() - i,
{
    if i < 0 || i >= a.len() {
        a.len() as int
    } else if a[i].time >= next {
        i
    } else {
        group_end(a, i + 1, next)
    }
}

/// Highest high of `a[i..j]`, starting from `h` (a later equal high wins, as `max`).
pub open spec fn high_upto(a: Seq<KLine>, i: int, j: int, h: Dec) -> Dec
    decreases j - i,
{
    if j <= i {
        h
    } else {
        high_upto(a, i, j - 1, h).spec_max(a[j - 1].high)
    }
}

/// Lowest low of `a[i..j]`, starting from `l` (an earlier equal low stays, as `min`).
pub open spec fn low_upto(a: Seq<KLine>, i: int, j: int, l: Dec) -> Dec
    decreases j - i,
{
    if j <= i {
        l
    } else {
        low_upto(a, i, j - 1, l).spec_min(a[j - 1].low)
    }
}

/// Total volume of `a[i..j]`, summed from zero.
pub open spec fn volume_upto(a: Seq<KLine>, i: int, j: int) -> Option<DecView>
    decreases j - i,
{
    if j <= i {
        Some((0int, 0nat))
    } else {
        opt_add(volume_upto(a, i, j - 1), Some(a[j - 1].volume@))
    }
}

/// `k` is the candle aggregated from `a[i..j]` at time `t`: the first open, the
/// highest high, the lowest low, the last close and the total volume.
pub open spec fn aggregated(k: KLine, a: Seq<KLine>, i: int, j: int, t: int) -> bool {
    &&& k.time == t
    &&& k.open == a[i].open
    &&& k.high == high_upto(a, i, j, a[i].high)
    &&& k.low == low_upto(a, i, j, a[i].low)
    &&& k.close == a[j - 1].close
    &&& volume_upto(a, i, j) == Some(k.volume@)
}

/// `out` is `a` resampled to `level` with groups bounded by `b`: each group starts at
/// a candle and runs up to the first candle whose time reaches the start of the next
/// period of `level`; its candle is timed at the start of the group's period.
pub open spec fn resampled(a: Seq<KLine>, level: Level, b: Seq<int>, out: Seq<KLine>) -> bool {
    &&& b.len() == out.len() + 1
    &&& b[0] == 0
    &&& b[out.len() as int] == a.len()
    &&& forall|k: int| 0 <= k < out.len() ==> {
        let i = #[trigger] b[k];
        let t = signed_millis(a[i].time);
        &&& 0 <= i < b[k + 1] <= a.len()
        &&& b[k + 1] == group_end(a, i, unsigned_millis(period_next(t, level)))
        &&& aggregated(out[k], a, i, b[k + 1], unsigned_millis(period_start(t, level)))
    }
}

/// `out` is `a` resampled to `level` (for some grouping, see `resampled`).
pub open spec fn resample_of(a: Seq<KLine>, level: Level, out: Seq<KLine>) -> bool {
    exists|b: Seq<int>| #[trigger] resampled(a, level, b, out)
}

pub proof fn lemma_group_end(a: Seq<KLine>, i: int, next: int)
    requires
        0 <= i <= a.len(),
    ensures
        i <= group_end(a, i, next) <= a.len(),
        forall|j: int| i <= j < group_end(a, i, next) ==> #[trigger] a[j].time < next,
        group_end(a, i, next) < a.len() ==> a[group_end(a, i, next)].time >= next,
    decreases a.len() - i,
{
    if i < a.len() && a[i].time < next {
        lemma_group_end(a, i + 1, next);
    }
}

/// Resampling `a[i..]` to `level` goes through: for each group, the candle's period
/// lies within the calendar range, the next period starts after the candle, and the
/// group's volume sum does not overflow.
pub open spec fn resample_defined(a: Seq<KLine>, level: Level, i: int) -> bool
    decreases a.len() - i,
{
    if i < 0 || i >= a.len() {
        true
    } else {
        let next = unsigned_millis(period_next(signed_millis(a[i].time), level));
        let g = group_end(a, i, next);
        if range_defined(a[i].time, level) && next > a[i].time && volume_upto(a, i, g) is Some && g > i {
            proof {
                lemma_group_end(a, i, next);
            }
            resample_defined(a, level, g)
        } else {
            false
        }
    }
}

pub proof fn lemma_volume_none(a: Seq<KLine>, i: int, j: int, j2: int)
    requires
        j <= j2,
        volume_upto(a, i, j) is None,
    ensures
        volume_upto(a, i, j2) is None,
    decreases j2 - j,
{
    if j < j2 {
        lemma_volume_none(a, i, j, j2 - 1);
    }
}

/// Aggregates candles into candles of a higher `level`. Each group runs from a candle
/// up to the first candle that reaches the next period of `level` (see `resampled`);
/// the first and last groups may cover a period only in part. Fails where the
/// calendar computation fails, where the next period's start does not lie after the
/// candle (timestamps beyond the signed range), and where a volume sum overflows.
pub fn resample(array: &[KLine], level: Level) -> (r: Result<Vec<KLine>, TimeError>)
    ensures
        r matches Ok(v) ==> resample_of(array@, level, v@),
        r matches Err(e) ==> e == TimeError::OutOfRange || e == TimeError::Overflow,
        level != Level::Month1 ==> (r is Ok <==> resample_defined(array@, level, 0)),
        resample_defined(array@, level, 0) ==> r is Ok,
        array@.len() == 0 ==> r is Ok,
{
    let mut result: Vec<KLine> = Vec::new();
    let n = array.len();
    let ghost mut b: Seq<int> = seq![0int];
    let mut start_index: usize = 0;
    while start_index < n
        invariant
            n == array@.len(),
            start_index <= n,
            b.len() == result@.len() + 1,
            b[0] == 0,
            b[result@.len() as int] == start_index,
            forall|k: int| 0 <= k < result@.len() ==> {
                let i = #[trigger] b[k];
                let t = signed_millis(array@[i].time);
                &&& 0 <= i < b[k + 1] <= array@.len()
                &&& b[k + 1] == group_end(array@, i, unsigned_millis(period_next(t, level)))
                &&& aggregated(result@[k], array@, i, b[k + 1], unsigned_millis(period_start(t, level)))
            },
            level != Level::Month1 ==> (resample_defined(array@, level, 0) <==> resample_defined(array@, level,
                start_index as int)),
            resample_defined(array@, level, 0) ==> resample_defined(array@, level, start_index as int),
        decreases n - start_index,
    {
        let start_k = array[start_index];
        let (start_time, next_time) = get_time_range(start_k.time, level)?;
        if next_time <= start_k.time {
            return Err(TimeError::OutOfRange);
        }
        proof {
            lemma_group_end(array@, start_index as int, next_time as int);
        }
        let mut next_index: usize = start_index + 1;
        while next_index < n && array[next_index].time < next_time
            invariant
                n == array@.len(),
                start_index < next_index <= n,
                group_end(array@, start_index as int, next_time as int) == group_end(array@, next_index as int, next_time as int),
            decreases n - next_index,
        {
            next_index = next_index + 1;
        }
        assert(next_index == group_end(array@, start_index as int, next_time as int));
        let last_k = array[next_index - 1];
        let mut high = start_k.high;
        let mut low = start_k.low;
        let mut volume = Dec::zero();
        let mut k: usize = start_index;
        while k < next_index
            invariant
                n == array@.len(),
                start_index <= k <= next_index <= n,
                high == high_upto(array@, start_index as int, k as int, array@[start_index as int].high),
                low == low_upto(array@, start_index as int, k as int, array@[start_index as int].low),
                Some(volume@) == volume_upto(array@, start_index as int, k as int),
                next_index == group_end(array@, start_index as int, next_time as int),
                level != Level::Month1 ==> (resample_defined(array@, level, 0) <==> resample_defined(array@, level,
                    start_index as int)),
                resample_defined(array@, level, 0) ==> resample_defined(array@, level, start_index as int),
                next_time == unsigned_millis(period_next(signed_millis(array@[start_index as int].time), level)),
                level != Level::Month1 ==> period_in_range(array@[start_index as int].time, level),
                next_time > array@[start_index as int].time,
            decreases next_index - k,
        {
            high = high.max(array[k].high);
            low = low.min(array[k].low);
            volume = match volume.checked_add(&array[k].volume) {
                Some(v) => v,
                None => {
                    proof {
                        lemma_volume_none(array@, start_index as int, k + 1, next_index as int);
                    }
                    return Err(TimeError::Overflow);
                },
            };
            k = k + 1;
        }
        let candle = KLine { time: start_time, open: start_k.open, high, low, close: last_k.close, volume };
        proof {
            b = b.push(next_index as int);
        }
        result.push(candle);
        start_index = next_index;
    }
    proof {
        assert(resampled(array@, level, b, result@));
        assert(resample_of(array@, level, result@));
    }
    Ok(result)
}

/// Which entries a summary sum takes, and which of their amounts.
#[derive(Clone, Copy, Debug, PartialEq, Eq, Structural)]
pub enum Selection {
    /// The net profit of every entry.
    Net,
    /// The fee of every entry.
    Fee,
    /// The net profit of entries with a positive one.
    NetGain,
    /// The net profit of entries with a negative one.
    NetLoss,
    /// The gross profit of entries with a positive one.
    GrossGain,
    /// The gross profit of entries with a negative one.
    GrossLoss,
}

/// The entry is taken by the selection.
pub open spec fn picks(sel: Selection, h: HistoryPosition) -> bool {
    match sel {
        Selection::Net | Selection::Fee => true,
        Selection::NetGain => h.total_profit.val() > 0,
        Selection::NetLoss => h.total_profit.val() < 0,
        Selection::GrossGain => h.profit.val() > 0,
        Selection::GrossLoss => h.profit.val() < 0,
    }
}

/// The amount the selection takes from an entry.
pub open spec fn picked(sel: Selection, h: HistoryPosition) -> Dec {
    match sel {
        Selection::Fee => h.fee,
        Selection::GrossGain | Selection::GrossLoss => h.profit,
        _ => h.total_profit,
    }
}

/// Sum from zero of the selected amounts of the first `n` entries.
pub open spec fn sum_where(s: Seq<HistoryPosition>, n: int, sel: Selection) -> Option<DecView>
    decreases n,
{
    if n <= 0 {
        Some((0int, 0nat))
    } else if picks(sel, s[n - 1]) {
        opt_add(sum_where(s, n - 1, sel), Some(picked(sel, s[n - 1])@))
    } else {
        sum_where(s, n - 1, sel)
    }
}

/// Number of the first `n` entries the selection takes.
pub open spec fn count_where(s: Seq<HistoryPosition>, n: int, sel: Selection) -> nat
    decreases n,
{
    if n <= 0 {
        0
    } else if picks(sel, s[n - 1]) {
        count_where(s, n - 1, sel) + 1
    } else {
        count_where(s, n - 1, sel)
    }
}

pub proof fn lemma_sum_where_none(s: Seq<HistoryPosition>, sel: Selection, j: int, n: int)
    requires
        0 <= j <= n,
        sum_where(s, j, sel) is None,
    ensures
        sum_where(s, n, sel) is None,
    decreases n - j,
{
    if j < n {
        lemma_sum_where_none(s, sel, j + 1, n);
    }
}

/// The selected amounts of the entries, summed from zero, with the number of entries
/// taken; `None` where the sum overflows.
pub fn sum_selected(list: &[HistoryPosition], sel: Selection) -> (r: Option<(Dec, usize)>)
    ensures
        r is Some <==> sum_where(list@, list@.len() as int, sel) is Some,
        r matches Some(x) ==> Some(x.0@) == sum_where(list@, list@.len() as int, sel) && x.1 == count_where(
            list@,
            list@.len() as int,
            sel,
        ),
{
    let zero = Dec::zero();
    let mut sum = Dec::zero();
    let mut count: usize = 0;
    let mut i: usize = 0;
    while i < list.len()
        invariant
            i <= list@.len(),
            count <= i,
            Some(sum@) == sum_where(list@, i as int, sel),
            count == count_where(list@, i as int, sel),
            zero.val() == 0,
        decreases list.len() - i,
    {
        let h = &list[i];
        let take = match sel {
            Selection::Net | Selection::Fee => true,
            Selection::NetGain => h.total_profit.gt(&zero),
            Selection::NetLoss => h.total_profit.lt(&zero),
            Selection::GrossGain => h.profit.gt(&zero),
            Selection::GrossLoss => h.profit.lt(&zero),
        };
        if take {
            let amount = match sel {
                Selection::Fee => h.fee,
                Selection::GrossGain | Selection::GrossLoss => h.profit,
                _ => h.total_profit,
            };
            sum = match sum.checked_add(&amount) {
                Some(x) => x,
                None => {
                    proof {
                        lemma_sum_where_none(list@, sel, i + 1, list@.len() as int);
                    }
                    return None;
                },
            };
            count = count + 1;
        }
        i = i + 1;
    }
    Some((sum, count))
}

/// Largest net profit among the first `n` entries (a later equal one wins).
pub open spec fn best_upto(s: Seq<HistoryPosition>, n: int) -> Dec
    decreases n,
{
    if n <= 1 {
        s[0].total_profit
    } else {
        best_upto(s, n - 1).spec_max(s[n - 1].total_profit)
    }
}

/// Smallest net profit among the first `n` entries (an earlier equal one stays).
pub open spec fn worst_upto(s: Seq<HistoryPosition>, n: int) -> Dec
    decreases n,
{
    if n <= 1 {
        s[0].total_profit
    } else {
        worst_upto(s, n - 1).spec_min(s[n - 1].total_profit)
    }
}

/// The negation of a decimal (mantissa sign flipped, scale kept).
pub open spec fn neg_view(v: DecView) -> DecView {
    (-v.0, v.1)
}

/// `r` summarises the closed positions `s`: the first position's symbol and leverage;
/// the number of trades, of winning and of losing ones (by net profit); the win rate
/// in percent; total net profit and fees; the sum of net gains, the negated sum of net
/// losses and their ratio (zero without losses); the same for gross profit; the
/// average net profit; the best and the worst net profit (zero without trades).
pub open spec fn summary_of(s: Seq<HistoryPosition>, r: HistoryPositionSummary) -> bool {
    let n = s.len() as int;
    let sums = (
        sum_where(s, n, Selection::Net),
        sum_where(s, n, Selection::Fee),
        sum_where(s, n, Selection::NetGain),
        sum_where(s, n, Selection::NetLoss),
        sum_where(s, n, Selection::GrossGain),
        sum_where(s, n, Selection::GrossLoss),
    );
    let zero = (0int, 0nat);
    &&& sums.0 is Some && sums.1 is Some && sums.2 is Some && sums.3 is Some && sums.4 is Some && sums.5 is Some
    &&& r.symbol@ == (if n > 0 { s[0].symbol@ } else { Seq::<char>::empty() })
    &&& r.leverage == (if n > 0 { s[0].leverage } else { 0 })
    &&& r.total_trades == n
    &&& r.win_trades == count_where(s, n, Selection::NetGain)
    &&& r.loss_trades == count_where(s, n, Selection::NetLoss)
    &&& Some(r.total_profit@) == sums.0
    &&& Some(r.total_fee@) == sums.1
    &&& Some(r.net_gross_profit@) == sums.2
    &&& r.net_gross_loss_abs@ == neg_view(sums.3.unwrap())
    &&& Some(r.gross_profit@) == sums.4
    &&& r.gross_loss_abs@ == neg_view(sums.5.unwrap())
    &&& (n == 0 ==> r.win_rate@ == zero && r.avg_profit@ == zero)
    &&& (n > 0 ==> Some(r.win_rate@) == crate::margin::opt_mul(
        crate::decimal::decimal_checked_div((r.win_trades as int, 0nat), (n, 0nat)),
        Some((100int, 0nat)),
    ))
    &&& (n > 0 ==> Some(r.avg_profit@) == crate::decimal::decimal_checked_div(r.total_profit@, (n, 0nat)))
    &&& (r.net_gross_loss_abs.val() == 0 ==> r.profit_loss_ratio@ == zero)
    &&& (r.net_gross_loss_abs.val() != 0 ==> Some(r.profit_loss_ratio@) == crate::decimal::decimal_checked_div(
        r.net_gross_profit@,
        r.net_gross_loss_abs@,
    ))
    &&& (n == 0 ==> r.best_trade@ == zero && r.worst_trade@ == zero)
    &&& (n > 0 ==> r.best_trade == best_upto(s, n) && r.worst_trade == worst_upto(s, n))
}

/// Every sum, product and quotient that `summary_of` takes of `s` exists.
pub open spec fn summary_defined(s: Seq<HistoryPosition>) -> bool {
    let n = s.len() as int;
    let net = sum_where(s, n, Selection::Net);
    let gain = sum_where(s, n, Selection::NetGain);
    let loss = sum_where(s, n, Selection::NetLoss);
    &&& net is Some && sum_where(s, n, Selection::Fee) is Some && gain is Some && loss is Some
    &&& sum_where(s, n, Selection::GrossGain) is Some && sum_where(s, n, Selection::GrossLoss) is Some
    &&& n > 0 ==> crate::margin::opt_mul(
        crate::decimal::decimal_checked_div((count_where(s, n, Selection::NetGain) as int, 0nat), (n, 0nat)),
        Some((100int, 0nat)),
    ) is Some
    &&& n > 0 ==> crate::decimal::decimal_checked_div(net.unwrap(), (n, 0nat)) is Some
    &&& crate::decimal::dec_value(neg_view(loss.unwrap())) != 0 ==> crate::decimal::decimal_checked_div(
        gain.unwrap(),
        neg_view(loss.unwrap()),
    ) is Some
}

/// The statistics of a list of closed positions (see `summary_of`); `None` exactly
/// where a decimal sum or quotient overflows (see `summary_defined`).
pub fn summarize(list: &[HistoryPosition]) -> (r: Option<HistoryPositionSummary>)
    ensures
        r is Some <==> summary_defined(list@),
        r matches Some(x) ==> summary_of(list@, x),
{
    let n = list.len();
    let (total_profit, _) = sum_selected(list, Selection::Net)?;
    let (total_fee, _) = sum_selected(list, Selection::Fee)?;
    let (net_gross_profit, win_trades) = sum_selected(list, Selection::NetGain)?;
    let (net_loss_sum, loss_trades) = sum_selected(list, Selection::NetLoss)?;
    let (gross_profit, _) = sum_selected(list, Selection::GrossGain)?;
    let (gross_loss_sum, _) = sum_selected(list, Selection::GrossLoss)?;
    let mut best = Dec::zero();
    let mut worst = Dec::zero();
    let mut i: usize = 0;
    while i < n
        invariant
            n == list@.len(),
            i <= n,
            i > 0 ==> best == best_upto(list@, i as int) && worst == worst_upto(list@, i as int),
        decreases n - i,
    {
        if i == 0 {
            best = list[i].total_profit;
            worst = list[i].total_profit;
        } else {
            best = best.max(list[i].total_profit);
            worst = worst.min(list[i].total_profit);
        }
        i = i + 1;
    }
    let net_gross_loss_abs = net_loss_sum.neg();
    let gross_loss_abs = gross_loss_sum.neg();
    let (win_rate, avg_profit) = if n == 0 {
        (Dec::zero(), Dec::zero())
    } else {
        let trades = Dec::from_u64(n as u64);
        let rate = Dec::from_u64(win_trades as u64).checked_div(&trades)?.checked_mul(&Dec::from_u32(100))?;
        (rate, total_profit.checked_div(&trades)?)
    };
    let profit_loss_ratio = if net_gross_loss_abs.is_zero() {
        Dec::zero()
    } else {
        net_gross_profit.checked_div(&net_gross_loss_abs)?
    };
    let (symbol, leverage) = if n > 0 {
        (list[0].symbol.clone(), list[0].leverage)
    } else {
        (String::new(), 0)
    };
    Some(
        HistoryPositionSummary {
            symbol,
            leverage,
            total_trades: n,
            win_rate,
            win_trades,
            loss_trades,
            total_profit,
            profit_loss_ratio,
            net_gross_profit,
            net_gross_loss_abs,
            gross_profit,
            gross_loss_abs,
            total_fee,
            avg_profit,
            best_trade: if n > 0 { best } else { Dec::zero() },
            worst_trade: if n > 0 { worst } else { Dec::zero() },
        },
    )
}

impl crate::data::DataSource {
    /// The data source resampled to `level` (see `resample`), with its metadata moved to
    /// that level. Fails when `level` is not a whole multiple of the source's level.
    pub fn resample(&self, level: Level) -> (r: Result<crate::data::DataSource, TimeError>)
        ensures
            !is_sampling_target(self.metadata.level, level) ==> r == Err::<crate::data::DataSource, TimeError>(
                TimeError::InvalidSamplingTarget,
            ),
            r matches Ok(ds) ==> ds.metadata == (crate::data::Metadata { level, ..self.metadata }) && resample_of(
                self.data@,
                level,
                ds.data@,
            ),
            r matches Err(e) ==> e == TimeError::InvalidSamplingTarget || e == TimeError::OutOfRange || e
                == TimeError::Overflow,
            is_sampling_target(self.metadata.level, level) && resample_defined(self.data@, level, 0) ==> r is Ok,
            is_sampling_target(self.metadata.level, level) && level != Level::Month1 ==> (r is Ok <==> resample_defined(
                self.data@,
                level,
                0,
            )),
            self.data@.len() == 0 && is_sampling_target(self.metadata.level, level) ==> r is Ok,
    {
        if !self.metadata.level.is_valid_sampling_target(level) {
            return Err(TimeError::InvalidSamplingTarget);
        }
        let mut metadata = self.metadata.duplicate();
        let data = resample(self.data.as_slice(), level)?;
        metadata.level = level;
        Ok(crate::data::DataSource::new(metadata, data))
    }
}

/// Symbols given as one name or as a list of names.
pub trait ToStringVec {
    fn into_vec(self) -> Vec<String>;
}

impl ToStringVec for &str {
    fn into_vec(self) -> (r: Vec<String>)
        ensures
            r@.len() == 1 && r@[0]@ == self@,
    {
        vec![self.to_owned()]
    }
}

impl ToStringVec for String {
    fn into_vec(self) -> (r: Vec<String>)
        ensures
            r@.len() == 1 && r@[0]@ == self@,
    {
        vec![self]
    }
}

impl ToStringVec for Vec<String> {
    fn into_vec(self) -> (r: Vec<String>)
        ensures
            r@ == self@,
    {
        self
    }
}

impl ToStringVec for Vec<&str> {
    fn into_vec(self) -> (r: Vec<String>)
        ensures
            r@.len() == self@.len(),
            forall|i: int| 0 <= i < r@.len() ==> #[trigger] r@[i]@ == self@[i]@,
    {
        let mut out: Vec<String> = Vec::new();
        let mut i: usize = 0;
        while i < self.len()
            invariant
                i <= self@.len(),
                out@.len() == i,
                forall|j: int| 0 <= j < i ==> #[trigger] out@[j]@ == self@[j]@,
            decreases self@.len() - i,
        {
            out.push(self[i].to_owned());
            i = i + 1;
        }
        out
    }
}

/// Index of the last `c` among the first `n` characters of `s`, or -1.
pub open spec fn last_index_of(s: Seq<char>, c: char, n: int) -> int
    decreases n,
{
    if n <= 0 {
        -1
    } else if s[n - 1] == c {
        n - 1
    } else {
        last_index_of(s, c, n - 1)
    }
}

/// Index of the first `c` in `s` from `i` on, or the length of `s`.
pub open spec fn first_index_of(s: Seq<char>, c: char, i: int) -> int
    decreases s.len() - i,
{
    if i < 0 || i >= s.len() {
        s.len() as int
    } else if s[i] == c {
        i
    } else {
        first_index_of(s, c, i + 1)
    }
}

/// The level part of a data file name such as `BTC-USDT-SWAP-1m.json`: the text after
/// the last `-` (the whole name without one), up to its first `.`.
pub open spec fn file_level_text(name: Seq<char>) -> Seq<char> {
    let tail = name.subrange(last_index_of(name, '-', name.len() as int) + 1, name.len() as int);
    tail.subrange(0, first_index_of(tail, '.', 0))
}

pub proof fn lemma_last_index_of(s: Seq<char>, c: char, n: int)
    requires
        0 <= n <= s.len(),
    ensures
        -1 <= last_index_of(s, c, n) < n,
        last_index_of(s, c, n) >= 0 ==> s[last_index_of(s, c, n)] == c,
        forall|j: int| last_index_of(s, c, n) < j < n ==> s[j] != c,
    decreases n,
{
    if n > 0 && s[n - 1] != c {
        lemma_last_index_of(s, c, n - 1);
    }
}

pub proof fn lemma_first_index_of(s: Seq<char>, c: char, i: int)
    requires
        0 <= i <= s.len(),
    ensures
        i <= first_index_of(s, c, i) <= s.len(),
        first_index_of(s, c, i) < s.len() ==> s[first_index_of(s, c, i)] == c,
        forall|j: int| i <= j < first_index_of(s, c, i) ==> s[j] != c,
    decreases s.len() - i,
{
    if i < s.len() && s[i] != c {
        lemma_first_index_of(s, c, i + 1);
    }
}

/// The level named in a data file name (see `file_level_text`), if it names one.
pub fn level_from_file_name(name: &str) -> (r: Option<Level>)
    ensures
        r matches Some(l) ==> crate::level::level_name(l) == file_level_text(name@),
        r is None ==> forall|l: Level| crate::level::level_name(l) != file_level_text(name@),
{
    let n = name.unicode_len();
    let mut i = n;
    while i > 0 && name.get_char(i - 1) != '-'
        invariant
            n == name@.len(),
            i <= n,
            last_index_of(name@, '-', n as int) == last_index_of(name@, '-', i as int),
        decreases i,
    {
        i = i - 1;
    }
    proof {
        lemma_last_index_of(name@, '-', n as int);
    }
    let tail = name.substring_char(i, n);
    let m = tail.unicode_len();
    let mut j: usize = 0;
    while j < m && tail.get_char(j) != '.'
        invariant
            m == tail@.len(),
            j <= m,
            first_index_of(tail@, '.', 0) == first_index_of(tail@, '.', j as int),
        decreases m - j,
    {
        j = j + 1;
    }
    let text = tail.substring_char(0, j);
    Level::parse(text)
}

/// The levels coarser than `level` in the order of the enum, finest first.
pub fn coarser_levels(level: Level) -> (r: Vec<Level>)
    ensures
        r@ == crate::level::all_levels_spec().filter(|l: Level| crate::level::level_rank(l) > crate::level::level_rank(level)),
{
    let all = crate::level::all_levels();
    let rank = level.rank();
    let mut out: Vec<Level> = Vec::new();
    let mut i: usize = 0;
    while i < all.len()
        invariant
            i <= all@.len(),
            all@ == crate::level::all_levels_spec(),
            rank == crate::level::level_rank(level),
            out@ == all@.subrange(0, i as int).filter(|l: Level| crate::level::level_rank(l) > crate::level::level_rank(level)),
        decreases all.len() - i,
    {
        proof {
            reveal_with_fuel(Seq::filter, 1);
            assert(all@.subrange(0, i + 1).drop_last() =~= all@.subrange(0, i as int));
        }
        if all[i].rank() > rank {
            out.push(all[i]);
        }
        i = i + 1;
    }
    proof {
        assert(all@.subrange(0, all@.len() as int) =~= all@);
    }
    out
}

} // verus!

