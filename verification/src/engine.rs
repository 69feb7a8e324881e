//! The decisions of the strategy driver: whether a k-line from the exchange follows
//! the previous one, whether a filled gap is complete, when a strategy-level bar is
//! complete, how the bar buffers grow, and which part of an auxiliary series a
//! strategy may see.
use crate::data::{AlignedSeries, KLine, KLineBuffer};
use crate::level::{is_sampling_target, Level};
use crate::time::{get_time_range, period_next, signed_millis, unsigned_millis, TimeError};
use crate::util::{bar_offset_by_level, get_last_time, resample, resample_of};
use vstd::prelude::*;

verus! {

/// How a k-line from the exchange relates to the one expected next.
#[derive(Clone, Copy, Debug, PartialEq, Eq, Structural)]
pub enum Continuity {
    /// It is the expected k-line (or the first one).
    InOrder,
    /// It repeats the previous k-line's time.
    Repeated,
    /// It is older than the previous k-line.
    Regressed,
    /// K-lines are missing from `start` (included) to `end` (excluded).
    Gap { start: u64, end: u64 },
}

/// Classifies a k-line at `time` given the expected time of the next one (none before
/// the first k-line) and the time of the previous one.
pub fn check_continuity(expected: Option<u64>, prev_time: u64, time: u64) -> (r: Continuity)
    ensures
        r == (match expected {
            None => Continuity::InOrder,
            Some(e) => if time == e {
                Continuity::InOrder
            } else if time == prev_time {
                Continuity::Repeated
            } else if time < prev_time {
                Continuity::Regressed
            } else {
                Continuity::Gap { start: e, end: time }
            },
        }),
{
    match expected {
        None => Continuity::InOrder,
        Some(e) => {
            if time == e {
                Continuity::InOrder
            } else if time == prev_time {
                Continuity::Repeated
            } else if time < prev_time {
                Continuity::Regressed
            } else {
                Continuity::Gap { start: e, end: time }
            }
        },
    }
}

/// Why the k-lines that fill a gap do not fit it.
#[derive(Clone, Copy, Debug, PartialEq, Eq, Structural)]
pub enum GapError {
    /// No k-line came back.
    Empty,
    /// The first k-line does not start the gap.
    FirstMismatch,
    /// The last k-line's period does not end the gap.
    LastMismatch,
    /// The last k-line's period cannot be computed.
    Time,
}

/// The k-lines fill the gap `[start, end)` at `level`: the first one is at `start` and
/// the period of the last one ends at `end`.
pub fn check_gap_fill(filled: &[KLine], start: u64, end: u64, level: Level) -> (r: Result<(), GapError>)
    ensures
        filled@.len() == 0 ==> r == Err::<(), GapError>(GapError::Empty),
        filled@.len() > 0 && filled@[0].time != start ==> r == Err::<(), GapError>(GapError::FirstMismatch),
        r is Ok ==> filled@.len() > 0 && filled@[0].time == start && unsigned_millis(
            period_next(signed_millis(filled@.last().time), level),
        ) == end,
        r == Err::<(), GapError>(GapError::LastMismatch) ==> unsigned_millis(
            period_next(signed_millis(filled@.last().time), level),
        ) != end,
        level != Level::Month1 ==> (r is Ok <==> (filled@.len() > 0 && filled@[0].time == start
            && crate::time::period_in_range(filled@.last().time, level) && unsigned_millis(
            period_next(signed_millis(filled@.last().time), level),
        ) == end)),
        filled@.len() > 0 && filled@[0].time == start && crate::util::range_defined(filled@.last().time, level)
            && unsigned_millis(period_next(signed_millis(filled@.last().time), level)) == end ==> r is Ok,
{
    if filled.len() == 0 {
        return Err(GapError::Empty);
    }
    if filled[0].time != start {
        return Err(GapError::FirstMismatch);
    }
    match get_time_range(filled[filled.len() - 1].time, level) {
        Ok((_, next)) => {
            if next != end {
                Err(GapError::LastMismatch)
            } else {
                Ok(())
            }
        },
        Err(_) => Err(GapError::Time),
    }
}

/// Time of the last source-level k-line of the strategy-level bar that contains
/// `time` (see `get_last_time`).
pub open spec fn bar_end_time(time: u64, source: Level, level: Level) -> int {
    if source == level {
        time as int
    } else {
        unsigned_millis(
            crate::time::period_start(
                crate::util::signed_of(unsigned_millis(period_next(signed_millis(time), level)) - 1),
                source,
            ),
        )
    }
}

/// Builds strategy-level bars from source-level k-lines: k-lines accumulate until the
/// last one of a bar arrives, then they are resampled into the bar buffer.
#[derive(Debug)]
pub struct BarBuilder<const N: usize> {
    pub accumulator: Vec<KLine>,
    pub bars: KLineBuffer<N>,
}

impl<const N: usize> BarBuilder<N> {
    pub open spec fn wf(&self) -> bool {
        self.bars.wf()
    }

    /// A builder with no k-line yet.
    pub fn new() -> (r: BarBuilder<N>)
        ensures
            r.wf(),
            r.accumulator@ == Seq::<KLine>::empty(),
            r.bars.candles() == Seq::<KLine>::empty(),
    {
        BarBuilder { accumulator: Vec::new(), bars: KLineBuffer::new() }
    }

    /// Adds k-lines that fill a gap before the next one.
    pub fn add_gap(&mut self, klines: Vec<KLine>)
        ensures
            final(self).accumulator@ == old(self).accumulator@ + klines@,
            final(self).bars == old(self).bars,
    {
        let mut i: usize = 0;
        let ghost a0 = self.accumulator@;
        while i < klines.len()
            invariant
                i <= klines@.len(),
                self.accumulator@ == a0 + klines@.subrange(0, i as int),
                self.bars == old(self).bars,
                a0 == old(self).accumulator@,
            decreases klines.len() - i,
        {
            self.accumulator.push(klines[i]);
            proof {
                assert(a0 + klines@.subrange(0, i + 1) =~= (a0 + klines@.subrange(0, i as int)).push(klines@[i as int]));
            }
            i = i + 1;
        }
        proof {
            assert(klines@.subrange(0, klines@.len() as int) =~= klines@);
        }
    }

    /// Adds a source-level k-line. When it is the last one of its strategy-level bar
    /// (see `bar_end_time`), the accumulated k-lines are resampled to `level` into the
    /// bar buffer and the accumulator is emptied. Returns whether a bar completed.
    pub fn add(&mut self, kline: KLine, source: Level, level: Level) -> (r: Result<bool, TimeError>)
        requires
            old(self).wf(),
        ensures
            final(self).wf(),
            !is_sampling_target(source, level) ==> r == Err::<bool, TimeError>(TimeError::InvalidSamplingTarget),
            r == Ok::<bool, TimeError>(false) ==> final(self).accumulator@ == old(self).accumulator@.push(kline)
                && final(self).bars == old(self).bars && kline.time != bar_end_time(kline.time, source, level),
            r == Ok::<bool, TimeError>(true) ==> kline.time == bar_end_time(kline.time, source, level)
                && final(self).accumulator@ == Seq::<KLine>::empty() && exists|out: Seq<KLine>| #![trigger resample_of(old(self).accumulator@.push(kline), level, out)]
                resample_of(old(self).accumulator@.push(kline), level, out) && final(self).bars.candles()
                == crate::data::keep_last(old(self).bars.candles() + out, N as int),
            is_sampling_target(source, level) && source != Level::Month1 && level != Level::Month1 ==> (r is Ok <==> (
                crate::util::last_time_defined(kline.time, source, level) && (kline.time == bar_end_time(kline.time,
                source, level) ==> crate::util::resample_defined(old(self).accumulator@.push(kline), level, 0)))),
            is_sampling_target(source, level) && crate::util::last_time_defined(kline.time, source, level) && (kline.time
                == bar_end_time(kline.time, source, level) ==> crate::util::resample_defined(old(self).accumulator@.push(kline), level,
                0)) ==> r is Ok,
    {
        self.accumulator.push(kline);
        let last = get_last_time(kline.time, source, level)?;
        if kline.time != last {
            return Ok(false);
        }
        let bars = resample(self.accumulator.as_slice(), level)?;
        self.bars.extend(bars);
        self.accumulator.clear();
        Ok(true)
    }
}

/// The buffers of one symbol when several symbols run together: its strategy-level
/// bars, and every source-level k-line (as a list and as columns).
#[derive(Debug)]
pub struct SymbolBuffer<const N: usize> {
    pub builder: BarBuilder<N>,
    pub source_klines: Vec<KLine>,
    pub source_bars: KLineBuffer<N>,
}

impl<const N: usize> SymbolBuffer<N> {
    pub open spec fn wf(&self) -> bool {
        self.builder.wf() && self.source_bars.wf()
    }

    /// Buffers with no k-line yet.
    pub fn new() -> (r: SymbolBuffer<N>)
        ensures
            r.wf(),
            r.source_klines@ == Seq::<KLine>::empty(),
            r.source_bars.candles() == Seq::<KLine>::empty(),
            r.builder.accumulator@ == Seq::<KLine>::empty(),
            r.builder.bars.candles() == Seq::<KLine>::empty(),
    {
        SymbolBuffer { builder: BarBuilder::new(), source_klines: Vec::new(), source_bars: KLineBuffer::new() }
    }

    /// Records a source-level k-line and feeds it to the bar builder (see
    /// `BarBuilder::add`); returns whether a strategy-level bar completed.
    pub fn on_kline(&mut self, kline: KLine, source: Level, level: Level) -> (r: Result<bool, TimeError>)
        requires
            old(self).wf(),
        ensures
            final(self).wf(),
            final(self).source_klines@ == old(self).source_klines@.push(kline),
            final(self).source_bars.candles() == crate::data::keep_last(old(self).source_bars.candles().push(kline), N as int),
            !is_sampling_target(source, level) ==> r == Err::<bool, TimeError>(TimeError::InvalidSamplingTarget),
            r == Ok::<bool, TimeError>(false) ==> final(self).builder.accumulator@ == old(self).builder.accumulator@.push(kline)
                && final(self).builder.bars == old(self).builder.bars,
            r == Ok::<bool, TimeError>(true) ==> final(self).builder.accumulator@ == Seq::<KLine>::empty()
                && kline.time == bar_end_time(kline.time, source, level) && exists|out: Seq<KLine>| #![trigger resample_of(old(self).builder.accumulator@.push(kline), level, out)]
                resample_of(old(self).builder.accumulator@.push(kline), level, out) && final(self).builder.bars.candles()
                == crate::data::keep_last(old(self).builder.bars.candles() + out, N as int),
            is_sampling_target(source, level) && source != Level::Month1 && level != Level::Month1 ==> (r is Ok <==> (
                crate::util::last_time_defined(kline.time, source, level) && (kline.time == bar_end_time(kline.time,
                source, level) ==> crate::util::resample_defined(old(self).builder.accumulator@.push(kline), level, 0)))),
            is_sampling_target(source, level) && crate::util::last_time_defined(kline.time, source, level) && (kline.time
                == bar_end_time(kline.time, source, level) ==> crate::util::resample_defined(old(self).builder.accumulator@.push(kline), level,
                0)) ==> r is Ok,
    {
        self.source_klines.push(kline);
        self.source_bars.push(kline);
        self.builder.add(kline, source, level)
    }
}

/// Where the bars of a requested level come from in a multi-symbol run.
#[derive(Clone, Copy, Debug, PartialEq, Eq, Structural)]
pub enum BarSource {
    /// The strategy-level bars.
    Strategy,
    /// The source-level k-lines.
    Source,
    /// The source k-lines resampled to the requested level.
    Resampled,
    /// The level cannot be built from the source level.
    Unavailable,
}

/// Where `Context::request` takes the bars of `level` from: the strategy level and
/// the source level directly (the strategy level first), any other level that is a
/// multiple of the source level by resampling, and no other level.
pub fn bar_source(level: Level, strategy_level: Level, source_level: Level) -> (r: BarSource)
    ensures
        r == (if level == strategy_level {
            BarSource::Strategy
        } else if level == source_level {
            BarSource::Source
        } else if is_sampling_target(source_level, level) {
            BarSource::Resampled
        } else {
            BarSource::Unavailable
        }),
{
    if level == strategy_level {
        BarSource::Strategy
    } else if level == source_level {
        BarSource::Source
    } else if source_level.is_valid_sampling_target(level) {
        BarSource::Resampled
    } else {
        BarSource::Unavailable
    }
}

/// The key of an auxiliary series: symbol, level and name.
pub open spec fn series_key_is(k: (String, Level, String), symbol: Seq<char>, level: Level, name: Seq<char>) -> bool {
    k.0@ == symbol && k.1 == level && k.2@ == name
}

/// Index of the first entry with the key (the number of entries when none).
pub open spec fn series_index_from(
    list: Seq<((String, Level, String), AlignedSeries)>,
    symbol: Seq<char>,
    level: Level,
    name: Seq<char>,
    i: int,
) -> int
    decreases list.len() - i,
{
    if i < 0 || i >= list.len() {
        list.len() as int
    } else if series_key_is(list[i].0, symbol, level, name) {
        i
    } else {
        series_index_from(list, symbol, level, name, i + 1)
    }
}

/// Registers an auxiliary series under its symbol, its level and its name, replacing
/// the series of an entry with that key.
pub fn add_series(list: &mut Vec<((String, Level, String), AlignedSeries)>, symbol: &str, name: &str, series: AlignedSeries)
    ensures
        ({
            let k = series_index_from(old(list)@, symbol@, series.level, name@, 0);
            if k < old(list)@.len() {
                final(list)@ == old(list)@.update(k, (old(list)@[k].0, series))
            } else {
                final(list)@.len() == old(list)@.len() + 1 && final(list)@.drop_last() == old(list)@
                    && series_key_is(final(list)@.last().0, symbol@, series.level, name@)
                    && final(list)@.last().1 == series
            }
        }),
{
    let ghost l0 = list@;
    let level = series.level;
    let mut i: usize = 0;
    while i < list.len()
        invariant
            list@ == l0,
            l0 == old(list)@,
            level == series.level,
            i <= list@.len(),
            series_index_from(l0, symbol@, level, name@, i as int) == series_index_from(l0, symbol@, level, name@, 0),
        decreases list.len() - i,
    {
        let found = crate::level::str_equal(list[i].0.0.as_str(), symbol) && list[i].0.1 == level
            && crate::level::str_equal(list[i].0.2.as_str(), name);
        if found {
            let key = (list[i].0.0.clone(), list[i].0.1, list[i].0.2.clone());
            list.set(i, (key, series));
            proof {
                assert(list@ =~= l0.update(i as int, (l0[i as int].0, series)));
            }
            return;
        }
        i = i + 1;
    }
    let ghost l1 = list@;
    list.push(((symbol.to_owned(), level, name.to_owned()), series));
    proof {
        assert(list@.drop_last() =~= l1);
    }
}

/// How many leading elements of an auxiliary series a strategy on `level` may see,
/// given the times of its bars (oldest first): none when the series belongs to another
/// level, there is no bar, or the series and the bars do not overlap; otherwise the
/// bars of `level` from the series' start up to the end of the newest bar (or the
/// series' end, if earlier).
pub fn clip_len(aligned: &AlignedSeries, time_slice: &[u64], level: Level) -> (r: usize)
    requires
        aligned.start <= aligned.end,
        (aligned.end - aligned.start) as int / 60000 <= usize::MAX,
    ensures
        (aligned.level != level || time_slice@.len() == 0) ==> r == 0,
        (aligned.level == level && time_slice@.len() > 0 && level != Level::Month1) ==> {
            let last = time_slice@.last();
            let ctx_end: int = if crate::time::period_in_range(last, level) {
                unsigned_millis(period_next(signed_millis(last), level))
            } else {
                u64::MAX as int
            };
            let inter_end: int = if ctx_end < aligned.end { ctx_end } else { aligned.end as int };
            if !(ctx_end > aligned.start && time_slice@[0] < aligned.end) {
                r == 0
            } else {
                r == (inter_end - aligned.start) / (crate::level::level_minutes(level) * 60000) as int
            }
        },
{
    if aligned.level != level || time_slice.len() == 0 {
        return 0;
    }
    let ctx_start = time_slice[0];
    let ctx_end = match get_time_range(time_slice[time_slice.len() - 1], level) {
        Ok((_, next)) => next,
        Err(_) => u64::MAX,
    };
    if !(ctx_end > aligned.start && ctx_start < aligned.end) {
        return 0;
    }
    let inter_end = if ctx_end < aligned.end {
        ctx_end
    } else {
        aligned.end
    };
    proof {
        if level != Level::Month1 {
            assert(crate::level::level_minutes(level) >= 1);
            assert((inter_end - aligned.start) as int / (crate::level::level_minutes(level) * 60000) as int
                <= (aligned.end - aligned.start) as int / 60000) by (nonlinear_arith)
                requires
                    0 <= inter_end - aligned.start <= aligned.end - aligned.start,
                    crate::level::level_minutes(level) >= 1,
            ;
        }
    }
    bar_offset_by_level(aligned.start, inter_end, level)
}

} // verus!
