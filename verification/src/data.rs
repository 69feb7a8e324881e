//! K-line data: candles, data sources, column buffers and the multi-symbol timeline.
use crate::decimal::Dec;
use crate::level::Level;
use vstd::prelude::*;

verus! {

/// One candle: open time (ms) and OHLCV values.
#[derive(Clone, Copy, Debug)]
pub struct KLine {
    pub time: u64,
    pub open: Dec,
    pub high: Dec,
    pub low: Dec,
    pub close: Dec,
    pub volume: Dec,
}

impl KLine {
    /// A candle at time 0 whose values are all zero.
    pub fn zeroed() -> (r: KLine)
        ensures
            r.time == 0,
            r.open@ == (0int, 0nat),
            r.high@ == (0int, 0nat),
            r.low@ == (0int, 0nat),
            r.close@ == (0int, 0nat),
            r.volume@ == (0int, 0nat),
    {
        KLine {
            time: 0,
            open: Dec::zero(),
            high: Dec::zero(),
            low: Dec::zero(),
            close: Dec::zero(),
            volume: Dec::zero(),
        }
    }
}

impl Default for KLine {
    fn default() -> (r: KLine)
        ensures
            r.time == 0,
            r.open@ == (0int, 0nat),
            r.high@ == (0int, 0nat),
            r.low@ == (0int, 0nat),
            r.close@ == (0int, 0nat),
            r.volume@ == (0int, 0nat),
    {
        KLine::zeroed()
    }
}

/// A funding rate published at `time`.
#[derive(Clone, Copy, Debug)]
pub struct FundingRate {
    pub time: u64,
    pub funding_rate: Dec,
}

/// An auxiliary series aligned to the bars of `level`: element `i` belongs to the bar
/// that starts at `start + i * level.interval_millis()`; the series covers
/// `[start, end)` in chronological order.
#[derive(Debug)]
pub struct AlignedSeries {
    pub level: Level,
    pub start: u64,
    pub end: u64,
    pub series: Vec<Dec>,
}

/// Trading rules of a symbol.
#[derive(Debug)]
pub struct Metadata {
    pub symbol: String,
    pub level: Level,
    pub min_size: Dec,
    pub min_notional: Dec,
    pub tick_size: Dec,
    pub maker_fee: Dec,
    pub taker_fee: Dec,
    pub maintenance: Dec,
}

impl Metadata {
    /// A field-by-field copy.
    pub fn duplicate(&self) -> (r: Metadata)
        ensures
            r == *self,
    {
        Metadata {
            symbol: self.symbol.clone(),
            level: self.level,
            min_size: self.min_size,
            min_notional: self.min_notional,
            tick_size: self.tick_size,
            maker_fee: self.maker_fee,
            taker_fee: self.taker_fee,
            maintenance: self.maintenance,
        }
    }
}

/// The times of a candle sequence strictly increase.
pub open spec fn sorted_by_time(s: Seq<KLine>) -> bool {
    forall|i: int, j: int| 0 <= i < j < s.len() ==> s[i].time < s[j].time
}

/// Candle times never decrease along the sequence.
pub open spec fn ordered_by_time(s: Seq<KLine>) -> bool {
    forall|i: int, j: int| 0 <= i <= j < s.len() ==> s[i].time <= s[j].time
}

/// `slice::sort_by_key` with the candle time as key. Its documentation promises a
/// sorted result that is a rearrangement of the input; it also keeps candles of equal
/// time in their order, which this contract leaves unsaid.
#[verifier::external_body]
fn sort_klines_by_time(v: &mut Vec<KLine>)
    ensures
        final(v)@.to_multiset() == old(v)@.to_multiset(),
        ordered_by_time(final(v)@),
{
    v.sort_by_key(|k| k.time);
}

/// Candles as read from a file: a file whose first candle is later than its second is
/// stored newest first, and is sorted by time; otherwise the candles stay as they are.
pub fn sort_if_descending(data: Vec<KLine>) -> (r: Vec<KLine>)
    ensures
        (data@.len() < 2 || data@[0].time <= data@[1].time) ==> r@ == data@,
        (data@.len() >= 2 && data@[0].time > data@[1].time) ==> r@.to_multiset() == data@.to_multiset()
            && ordered_by_time(r@),
{
    let mut data = data;
    if data.len() >= 2 && data[0].time > data[1].time {
        sort_klines_by_time(&mut data);
    }
    data
}

/// A copy of a candle sequence.
pub fn copy_klines(data: &Vec<KLine>) -> (r: Vec<KLine>)
    ensures
        r@ == data@,
{
    let mut r: Vec<KLine> = Vec::new();
    let mut i: usize = 0;
    while i < data.len()
        invariant
            i <= data.len(),
            r@ == data@.subrange(0, i as int),
        decreases data.len() - i,
    {
        r.push(data[i]);
        i = i + 1;
    }
    proof {
        assert(data@.subrange(0, data@.len() as int) =~= data@);
    }
    r
}

/// The candles of one symbol at one level, with their trading rules.
#[derive(Debug)]
pub struct DataSource {
    pub metadata: Metadata,
    pub data: Vec<KLine>,
}

impl DataSource {
    pub fn new(metadata: Metadata, data: Vec<KLine>) -> (r: DataSource)
        ensures
            r.metadata == metadata,
            r.data@ == data@,
    {
        DataSource { metadata, data }
    }

    /// A copy of the data source.
    pub fn duplicate(&self) -> (r: DataSource)
        ensures
            r.metadata == self.metadata,
            r.data@ == self.data@,
    {
        DataSource { metadata: self.metadata.duplicate(), data: copy_klines(&self.data) }
    }

    /// The candles whose `time` lies in `[start_time, end_time)`, in their order.
    pub fn range(&self, start_time: u64, end_time: u64) -> (r: DataSource)
        ensures
            r.metadata == self.metadata,
            r.data@ == self.data@.filter(|k: KLine| start_time <= k.time && k.time < end_time),
    {
        let mut out: Vec<KLine> = Vec::new();
        let mut i: usize = 0;
        while i < self.data.len()
            invariant
                i <= self.data.len(),
                out@ == self.data@.subrange(0, i as int).filter(
                    |k: KLine| start_time <= k.time && k.time < end_time,
                ),
            decreases self.data.len() - i,
        {
            let k = self.data[i];
            proof {
                reveal_with_fuel(Seq::filter, 1);
                assert(self.data@.subrange(0, i + 1).drop_last() =~= self.data@.subrange(
                    0,
                    i as int,
                ));
            }
            if start_time <= k.time && k.time < end_time {
                out.push(k);
            }
            i = i + 1;
        }
        proof {
            assert(self.data@.subrange(0, self.data@.len() as int) =~= self.data@);
        }
        DataSource { metadata: self.metadata.duplicate(), data: out }
    }

    /// Every candle is strictly later than the one before it.
    pub fn is_sorted_by_time(&self) -> (r: bool)
        ensures
            r == sorted_by_time(self.data@),
    {
        let n = self.data.len();
        if n < 2 {
            return true;
        }
        let mut i: usize = 1;
        while i < n
            invariant
                n == self.data@.len(),
                1 <= i <= n,
                forall|a: int, b: int| 0 <= a < b < i ==> self.data@[a].time < self.data@[b].time,
            decreases n - i,
        {
            if self.data[i - 1].time >= self.data[i].time {
                return false;
            }
            proof {
                assert forall|a: int, b: int| 0 <= a < b < i + 1 implies self.data@[a].time
                    < self.data@[b].time by {
                    if b == i && a < i - 1 {
                        assert(self.data@[a].time < self.data@[i - 1].time);
                    }
                }
            }
            i = i + 1;
        }
        true
    }
}

} // verus!

verus! {

/// Time of the first candle.
pub open spec fn first_time(ds: DataSource) -> u64 {
    ds.data@[0].time
}

/// Time of the last candle.
pub open spec fn last_time(ds: DataSource) -> u64 {
    ds.data@.last().time
}

/// Latest first-candle time among the first `n` sources (0 when `n` is 0).
pub open spec fn max_first_time(ds: Seq<DataSource>, n: int) -> u64
    decreases n,
{
    if n <= 0 {
        0
    } else {
        let prev = max_first_time(ds, n - 1);
        let t = first_time(ds[n - 1]);
        if t > prev {
            t
        } else {
            prev
        }
    }
}

/// Earliest last-candle time among the first `n` sources (`u64::MAX` when `n` is 0).
pub open spec fn min_last_time(ds: Seq<DataSource>, n: int) -> u64
    decreases n,
{
    if n <= 0 {
        u64::MAX
    } else {
        let prev = min_last_time(ds, n - 1);
        let t = last_time(ds[n - 1]);
        if t < prev {
            t
        } else {
            prev
        }
    }
}

/// Index of the first candle at or after index `i` whose time is at least `t`
/// (the length when there is none).
pub open spec fn first_index_from(data: Seq<KLine>, t: u64, i: int) -> int
    decreases data.len() - i,
{
    if i >= data.len() || i < 0 {
        data.len() as int
    } else if data[i].time >= t {
        i
    } else {
        first_index_from(data, t, i + 1)
    }
}

/// Number of consecutive candles from index `i` on whose time is at most `end`.
pub open spec fn run_length(data: Seq<KLine>, i: int, end: u64) -> int
    decreases data.len() - i,
{
    if i >= data.len() || i < 0 {
        0
    } else if data[i].time > end {
        0
    } else {
        1 + run_length(data, i + 1, end)
    }
}

/// Start index of a source in the common window `[start, end]`.
pub open spec fn window_start(ds: DataSource, start: u64) -> int {
    first_index_from(ds.data@, start, 0)
}

/// Number of steps of a source within the common window.
pub open spec fn window_len(ds: DataSource, start: u64, end: u64) -> int {
    run_length(ds.data@, window_start(ds, start), end)
}

/// Smallest window length among the first `n` sources (`usize::MAX` when `n` is 0).
pub open spec fn min_window_len(ds: Seq<DataSource>, n: int, start: u64, end: u64) -> int
    decreases n,
{
    if n <= 0 {
        usize::MAX as int
    } else {
        let prev = min_window_len(ds, n - 1, start, end);
        let l = window_len(ds[n - 1], start, end);
        if l < prev {
            l
        } else {
            prev
        }
    }
}

/// The sources form a timeline: they share one level, all have candles, their time
/// ranges overlap and every source has a candle in the common window.
pub open spec fn timeline_buildable(ds: Seq<DataSource>) -> bool {
    let n = ds.len() as int;
    let s = max_first_time(ds, n);
    let e = min_last_time(ds, n);
    &&& n > 0
    &&& forall|k: int| 0 <= k < n ==> #[trigger] ds[k].metadata.level == ds[0].metadata.level
    &&& forall|k: int| 0 <= k < n ==> #[trigger] ds[k].data@.len() > 0
    &&& s < e
    &&& forall|k: int| 0 <= k < n ==> #[trigger] window_len(ds[k], s, e) > 0
}

/// Why a timeline could not be built.
#[derive(Clone, Copy, Debug, PartialEq, Eq, Structural)]
pub enum TimelineError {
    /// No data source was given.
    NoSources,
    /// The sources are not all at the same level.
    LevelMismatch,
    /// A source has no candles.
    NoData,
    /// The time ranges of the sources do not overlap.
    NoOverlap,
    /// A source has no candle inside the common time range.
    EmptyWindow,
}

/// Several data sources replayed in step: the common window runs from the latest
/// first-candle time to the earliest last-candle time; each source starts at its
/// first candle inside the window, and the timeline is as long as the shortest run of
/// candles inside it.
#[derive(Debug)]
pub struct Timeline {
    pub data_source: Vec<DataSource>,
    pub start: Vec<usize>,
    pub index: usize,
    pub len: usize,
}

impl Timeline {
    /// Per-source start indices are valid.
    pub open spec fn wf(&self) -> bool {
        &&& self.start@.len() == self.data_source@.len()
        &&& self.data_source@.len() > 0
        &&& forall|k: int| 0 <= k < self.start@.len() ==> self.start@[k] + self.len <= self.data_source@[k].data@.len()
    }

    /// Builds the timeline of the sources' common time window.
    pub fn new(data_source: Vec<DataSource>) -> (r: Result<Timeline, TimelineError>)
        ensures
            r is Ok <==> timeline_buildable(data_source@),
            data_source@.len() == 0 ==> r == Err::<Timeline, TimelineError>(TimelineError::NoSources),
            data_source@.len() > 0 ==> {
                let ds = data_source@;
                let n = ds.len() as int;
                let same_level = forall|k: int| 0 <= k < n ==> #[trigger] ds[k].metadata.level == ds[0].metadata.level;
                let all_data = forall|k: int| 0 <= k < n ==> #[trigger] ds[k].data@.len() > 0;
                let s = max_first_time(ds, n);
                let e = min_last_time(ds, n);
                let windows = forall|k: int| 0 <= k < n ==> #[trigger] window_len(ds[k], s, e) > 0;
                &&& !same_level ==> r == Err::<Timeline, TimelineError>(TimelineError::LevelMismatch)
                &&& (same_level && !all_data) ==> r == Err::<Timeline, TimelineError>(TimelineError::NoData)
                &&& (same_level && all_data && s >= e) ==> r == Err::<Timeline, TimelineError>(TimelineError::NoOverlap)
                &&& (same_level && all_data && s < e && !windows) ==> r == Err::<Timeline, TimelineError>(TimelineError::EmptyWindow)
                &&& (same_level && all_data && s < e && windows) ==> (r matches Ok(t) && t.data_source@ == ds
                    && t.index == 0 && t.len == min_window_len(ds, n, s, e) && t.wf()
                    && forall|k: int| 0 <= k < n ==> t.start@[k] == #[trigger] window_start(ds[k], s))
            },
    {
        let n = data_source.len();
        if n == 0 {
            return Err(TimelineError::NoSources);
        }
        let level = data_source[0].metadata.level;
        let mut k: usize = 1;
        while k < n
            invariant
                n == data_source@.len(),
                1 <= k <= n,
                level == data_source@[0].metadata.level,
                forall|j: int| 0 <= j < k ==> #[trigger] data_source@[j].metadata.level == level,
            decreases n - k,
        {
            if data_source[k].metadata.level != level {
                return Err(TimelineError::LevelMismatch);
            }
            k = k + 1;
        }
        let mut start_time: u64 = 0;
        let mut end_time: u64 = u64::MAX;
        let mut k: usize = 0;
        while k < n
            invariant
                n == data_source@.len(),
                k <= n,
                forall|j: int| 0 <= j < k ==> #[trigger] data_source@[j].data@.len() > 0,
                forall|j: int| 0 <= j < n ==> #[trigger] data_source@[j].metadata.level == data_source@[0].metadata.level,
                start_time == max_first_time(data_source@, k as int),
                end_time == min_last_time(data_source@, k as int),
            decreases n - k,
        {
            let len_k = data_source[k].data.len();
            if len_k == 0 {
                return Err(TimelineError::NoData);
            }
            let first = data_source[k].data[0].time;
            let last = data_source[k].data[len_k - 1].time;
            if first > start_time {
                start_time = first;
            }
            if last < end_time {
                end_time = last;
            }
            k = k + 1;
        }
        if start_time >= end_time {
            return Err(TimelineError::NoOverlap);
        }
        let mut start: Vec<usize> = Vec::new();
        let mut len: usize = usize::MAX;
        let mut k: usize = 0;
        while k < n
            invariant
                n == data_source@.len(),
                k <= n,
                start@.len() == k,
                forall|j: int| 0 <= j < n ==> #[trigger] data_source@[j].data@.len() > 0,
                forall|j: int| 0 <= j < n ==> #[trigger] data_source@[j].metadata.level == data_source@[0].metadata.level,
                start_time == max_first_time(data_source@, n as int),
                end_time == min_last_time(data_source@, n as int),
                start_time < end_time,
                forall|j: int| 0 <= j < k ==> #[trigger] start@[j] == window_start(data_source@[j], start_time),
                forall|j: int| 0 <= j < k ==> window_len(data_source@[j], start_time, end_time) > 0,
                forall|j: int| 0 <= j < k ==> start@[j] + len <= #[trigger] data_source@[j].data@.len(),
                len == min_window_len(data_source@, k as int, start_time, end_time),
            decreases n - k,
        {
            let data = &data_source[k].data;
            let m = data.len();
            let mut si: usize = 0;
            while si < m && data[si].time < start_time
                invariant
                    m == data@.len(),
                    si <= m,
                    first_index_from(data@, start_time, si as int) == first_index_from(data@, start_time, 0),
                decreases m - si,
            {
                si = si + 1;
            }
            proof {
                assert(si as int == window_start(data_source@[k as int], start_time));
            }
            let mut count: usize = 0;
            while si + count < m && data[si + count].time <= end_time
                invariant
                    m == data@.len(),
                    si <= m,
                    si + count <= m,
                    run_length(data@, si as int, end_time) == count + run_length(data@, (si + count) as int, end_time),
                decreases m - si - count,
            {
                count = count + 1;
            }
            proof {
                assert(run_length(data@, (si + count) as int, end_time) == 0);
            }
            if count == 0 {
                proof {
                    assert(window_len(data_source@[k as int], start_time, end_time) == 0);
                }
                return Err(TimelineError::EmptyWindow);
            }
            proof {
                lemma_run_length_bound(data@, si as int, end_time);
            }
            start.push(si);
            if count < len {
                len = count;
            }
            proof {
                assert forall|j: int| 0 <= j < k + 1 implies start@[j] + len <= #[trigger] data_source@[j].data@.len() by {
                    if j < k {
                        assert(start@[j] + len <= data_source@[j].data@.len());
                    }
                }
            }
            k = k + 1;
        }
        Ok(Timeline { data_source, start, index: 0, len })
    }

    /// Moves to the next step.
    pub fn next(&mut self)
        requires
            old(self).index < usize::MAX,
        ensures
            final(self).index == old(self).index + 1,
            final(self).data_source@ == old(self).data_source@,
            final(self).start@ == old(self).start@,
            final(self).len == old(self).len,
    {
        self.index = self.index + 1;
    }

    /// All steps have been played.
    pub fn is_done(&self) -> (r: bool)
        ensures
            r == (self.index >= self.len),
    {
        self.index >= self.len
    }

    /// Number of steps.
    pub fn len(&self) -> (r: usize)
        ensures
            r == self.len,
    {
        self.len
    }

    /// The timeline has no step.
    pub fn is_empty(&self) -> (r: bool)
        ensures
            r == (self.len == 0),
    {
        self.len == 0
    }

    /// The data sources.
    pub fn inner(&self) -> (r: &Vec<DataSource>)
        ensures
            r@ == self.data_source@,
    {
        &self.data_source
    }

    /// The candle of `symbol` at the current step, if the symbol is known and the
    /// timeline is not done.
    pub fn at(&self, symbol: &str) -> (r: Option<KLine>)
        requires
            self.wf(),
        ensures
            self.index >= self.len ==> r is None,
            self.index < self.len ==> (r is Some <==> exists|k: int| 0 <= k < self.data_source@.len() && #[trigger] self.data_source@[k].metadata.symbol@ == symbol@),
            r matches Some(kl) ==> exists|k: int| 0 <= k < self.data_source@.len()
                && self.data_source@[k].metadata.symbol@ == symbol@
                && (forall|j: int| 0 <= j < k ==> #[trigger] self.data_source@[j].metadata.symbol@ != symbol@)
                && kl == self.data_source@[k].data@[self.start@[k] + self.index],
    {
        if self.is_done() {
            return None;
        }
        let n = self.data_source.len();
        let mut k: usize = 0;
        while k < n
            invariant
                n == self.data_source@.len(),
                k <= n,
                self.wf(),
                self.index < self.len,
                forall|j: int| 0 <= j < k ==> #[trigger] self.data_source@[j].metadata.symbol@ != symbol@,
            decreases n - k,
        {
            if crate::level::str_equal(self.data_source[k].metadata.symbol.as_str(), symbol) {
                proof {
                    assert(self.start@[k as int] + self.len <= self.data_source@[k as int].data.len());
                }
                return Some(self.data_source[k].data[self.start[k] + self.index]);
            }
            k = k + 1;
        }
        None
    }

    /// Time of the current step (of the first source).
    pub fn current_time(&self) -> (r: Option<u64>)
        requires
            self.wf(),
        ensures
            r == (if self.index >= self.len { None } else { Some(self.data_source@[0].data@[self.start@[0] + self.index].time) }),
    {
        if self.is_done() {
            return None;
        }
        proof {
            assert(self.start@[0] + self.len <= self.data_source@[0].data.len());
        }
        Some(self.data_source[0].data[self.start[0] + self.index].time)
    }

    /// The symbols with their candles at the current step, in source order.
    pub fn all(&self) -> (r: Option<Vec<(String, KLine)>>)
        requires
            self.wf(),
        ensures
            self.index >= self.len ==> r is None,
            self.index < self.len ==> (r matches Some(v) && v@.len() == self.data_source@.len()
                && forall|k: int| 0 <= k < v@.len() ==> #[trigger] v@[k].0 == self.data_source@[k].metadata.symbol
                    && v@[k].1 == self.data_source@[k].data@[self.start@[k] + self.index]),
    {
        if self.is_done() {
            return None;
        }
        let n = self.data_source.len();
        let mut out: Vec<(String, KLine)> = Vec::new();
        let mut k: usize = 0;
        while k < n
            invariant
                n == self.data_source@.len(),
                k <= n,
                self.wf(),
                self.index < self.len,
                out@.len() == k,
                forall|j: int| 0 <= j < k ==> #[trigger] out@[j].0 == self.data_source@[j].metadata.symbol
                    && out@[j].1 == self.data_source@[j].data@[self.start@[j] + self.index],
            decreases n - k,
        {
            proof {
                assert(self.start@[k as int] + self.len <= self.data_source@[k as int].data.len());
            }
            out.push((self.data_source[k].metadata.symbol.clone(), self.data_source[k].data[self.start[k] + self.index]));
            k = k + 1;
        }
        Some(out)
    }
}

pub proof fn lemma_run_length_bound(data: Seq<KLine>, i: int, end: u64)
    requires
        0 <= i,
    ensures
        i + run_length(data, i, end) <= data.len() || run_length(data, i, end) == 0,
    decreases data.len() - i,
{
    if i < data.len() && data[i].time <= end {
        lemma_run_length_bound(data, i + 1, end);
    }
}

/// The last `n` elements of `s` (all of them when `n` is 0 or `s` is not longer).
pub open spec fn keep_last<T>(s: Seq<T>, n: int) -> Seq<T> {
    if n > 0 && s.len() > n {
        s.subrange(s.len() - n, s.len() as int)
    } else {
        s
    }
}

/// What pushing the elements of `ks` one by one onto `c` leaves, keeping the newest
/// `n` after each push.
pub open spec fn push_each<T>(c: Seq<T>, ks: Seq<T>, n: int) -> Seq<T>
    decreases ks.len(),
{
    if ks.len() == 0 {
        c
    } else {
        push_each(keep_last(c.push(ks[0]), n), ks.drop_first(), n)
    }
}

/// Cutting to the newest `n` before appending does not change the newest `n` after.
pub proof fn lemma_keep_last_absorbs<T>(a: Seq<T>, b: Seq<T>, n: int)
    ensures
        keep_last(keep_last(a, n) + b, n) == keep_last(a + b, n),
{
    if n > 0 && a.len() > n {
        let a2 = a.subrange(a.len() - n, a.len() as int);
        if b.len() == 0 {
            assert(a2 + b =~= a2);
            assert(a + b =~= a);
        } else {
            assert(keep_last(a2 + b, n) =~= keep_last(a + b, n));
        }
    }
}

/// Extending a buffer by several candles keeps exactly what pushing them one by one
/// keeps (for buffer contents within the capacity `n`, as `KLineBuffer::wf` holds).
pub proof fn lemma_extend_is_repeated_push<T>(c: Seq<T>, ks: Seq<T>, n: int)
    requires
        n > 0 ==> c.len() <= n,
    ensures
        push_each(c, ks, n) == keep_last(c + ks, n),
    decreases ks.len(),
{
    if ks.len() == 0 {
        assert(c + ks =~= c);
    } else {
        let c1 = keep_last(c.push(ks[0]), n);
        lemma_extend_is_repeated_push(c1, ks.drop_first(), n);
        lemma_keep_last_absorbs(c.push(ks[0]), ks.drop_first(), n);
        assert(c.push(ks[0]) + ks.drop_first() =~= c + ks);
    }
}

/// The candles of a k-line buffer, one column per field; with a capacity `N` above 0
/// it keeps only the newest `N` candles.
#[derive(Debug)]
pub struct KLineBuffer<const N: usize> {
    pub time: Vec<u64>,
    pub open: Vec<Dec>,
    pub high: Vec<Dec>,
    pub low: Vec<Dec>,
    pub close: Vec<Dec>,
    pub volume: Vec<Dec>,
}

/// Drops the first `k` elements.
fn drop_front<T: Copy>(v: &mut Vec<T>, k: usize)
    requires
        k <= old(v)@.len(),
    ensures
        final(v)@ == old(v)@.subrange(k as int, old(v)@.len() as int),
{
    let mut out: Vec<T> = Vec::new();
    let mut i = k;
    while i < v.len()
        invariant
            k <= i <= v@.len(),
            out@ == v@.subrange(k as int, i as int),
        decreases v.len() - i,
    {
        out.push(v[i]);
        proof {
            assert(out@ =~= v@.subrange(k as int, i + 1));
        }
        i = i + 1;
    }
    *v = out;
}

impl<const N: usize> KLineBuffer<N> {
    /// All columns have the same length, at most the capacity when there is one.
    pub open spec fn wf(&self) -> bool {
        let n = self.time@.len();
        &&& N > 0 ==> n <= N
        &&& self.open@.len() == n
        &&& self.high@.len() == n
        &&& self.low@.len() == n
        &&& self.close@.len() == n
        &&& self.volume@.len() == n
    }

    /// All columns have the same length.
    pub open spec fn columns_wf(&self) -> bool {
        let n = self.time@.len();
        &&& self.open@.len() == n
        &&& self.high@.len() == n
        &&& self.low@.len() == n
        &&& self.close@.len() == n
        &&& self.volume@.len() == n
    }

    /// The buffered candles, oldest first.
    pub open spec fn candles(&self) -> Seq<KLine> {
        Seq::new(
            self.time@.len(),
            |i: int|
                KLine {
                    time: self.time@[i],
                    open: self.open@[i],
                    high: self.high@[i],
                    low: self.low@[i],
                    close: self.close@[i],
                    volume: self.volume@[i],
                },
        )
    }

    /// An empty buffer.
    pub fn new() -> (r: KLineBuffer<N>)
        ensures
            r.wf(),
            r.candles() == Seq::<KLine>::empty(),
    {
        let r = KLineBuffer {
            time: Vec::new(),
            open: Vec::new(),
            high: Vec::new(),
            low: Vec::new(),
            close: Vec::new(),
            volume: Vec::new(),
        };
        proof {
            assert(r.candles() =~= Seq::<KLine>::empty());
        }
        r
    }

    fn drop_oldest(&mut self, k: usize)
        requires
            old(self).columns_wf(),
            k <= old(self).time@.len(),
        ensures
            final(self).columns_wf(),
            final(self).candles() == old(self).candles().subrange(k as int, old(self).time@.len() as int),
    {
        let ghost c = self.candles();
        drop_front(&mut self.time, k);
        drop_front(&mut self.open, k);
        drop_front(&mut self.high, k);
        drop_front(&mut self.low, k);
        drop_front(&mut self.close, k);
        drop_front(&mut self.volume, k);
        proof {
            assert(self.candles() =~= c.subrange(k as int, c.len() as int));
        }
    }

    fn push_back(&mut self, k: KLine)
        requires
            old(self).columns_wf(),
        ensures
            final(self).columns_wf(),
            final(self).candles() == old(self).candles().push(k),
    {
        let ghost c = self.candles();
        self.time.push(k.time);
        self.open.push(k.open);
        self.high.push(k.high);
        self.low.push(k.low);
        self.close.push(k.close);
        self.volume.push(k.volume);
        proof {
            assert(self.candles() =~= c.push(k));
        }
    }

    /// Appends a candle, dropping the oldest ones beyond the capacity.
    pub fn push(&mut self, k: KLine)
        requires
            old(self).wf(),
        ensures
            final(self).wf(),
            final(self).candles() == keep_last(old(self).candles().push(k), N as int),
    {
        if N > 0 && self.time.len() >= N {
            let remove = self.time.len() - N + 1;
            self.drop_oldest(remove);
        }
        let ghost c = self.candles();
        self.push_back(k);
        proof {
            let o = old(self).candles();
            if N > 0 && o.len() >= N {
                assert(self.candles() =~= keep_last(o.push(k), N as int));
            }
        }
    }

    /// Appends candles, keeping only the newest ones within the capacity.
    pub fn extend(&mut self, k: Vec<KLine>)
        requires
            old(self).wf(),
        ensures
            final(self).wf(),
            final(self).candles() == keep_last(old(self).candles() + k@, N as int),
    {
        if k.len() == 0 {
            proof {
                assert(old(self).candles() + k@ =~= old(self).candles());
            }
            return;
        }
        let start = if N > 0 && k.len() > N {
            k.len() - N
        } else {
            0
        };
        let ghost mut removed: int = 0;
        if N > 0 {
            let incoming = k.len() - start;
            if self.time.len() > N - incoming {
                let remove = self.time.len() - (N - incoming);
                self.drop_oldest(remove);
                proof {
                    removed = remove as int;
                }
            }
        }
        let ghost base = self.candles();
        proof {
            let o = old(self).candles();
            assert(base == o.subrange(removed, o.len() as int));
        }
        let mut i = start;
        while i < k.len()
            invariant
                self.columns_wf(),
                start <= i <= k@.len(),
                self.candles() == base + k@.subrange(start as int, i as int),
            decreases k.len() - i,
        {
            self.push_back(k[i]);
            proof {
                assert(base + k@.subrange(start as int, i + 1) =~= (base + k@.subrange(start as int, i as int)).push(k@[i as int]));
            }
            i = i + 1;
        }
        proof {
            let o = old(self).candles();
            let all = o + k@;
            let res = o.subrange(removed, o.len() as int) + k@.subrange(start as int, k@.len() as int);
            assert(self.candles() == res);
            if N > 0 && all.len() > N {
                let off = all.len() - N;
                assert(res.len() == N);
                assert forall|j: int| 0 <= j < N implies #[trigger] res[j] == all[off + j] by {
                    if j < o.len() - removed {
                        assert(res[j] == o[removed + j]);
                    } else {
                        assert(res[j] == k@[start + j - (o.len() - removed)]);
                    }
                }
                assert(res =~= keep_last(all, N as int));
            } else {
                assert(res =~= all);
            }
        }
    }
}

} // verus!
