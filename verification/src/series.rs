//! Price and time series indexed backwards from the newest bar: `[0]` is the current
//! bar, `[1]` the one before it.
use crate::decimal::Dec;
use vstd::prelude::*;

verus! {

/// `a - b`, or 0 when `b` is larger (`usize::saturating_sub`).
pub open spec fn sat_sub(a: int, b: int) -> int {
    if a >= b {
        a - b
    } else {
        0
    }
}

/// The stored values from `lo` to `hi` (oldest first), or nothing when the range is
/// not valid (`<[T]>::get(lo..hi)`, empty on failure).
pub open spec fn slice_or_empty<T>(s: Seq<T>, lo: int, hi: int) -> Seq<T> {
    if 0 <= lo <= hi <= s.len() {
        s.subrange(lo, hi)
    } else {
        Seq::empty()
    }
}

/// `series[index]`: the value `index` bars back; the largest decimal past the oldest
/// value.
pub open spec fn series_at(s: Seq<Dec>, index: int) -> Dec {
    if index >= s.len() {
        Dec::spec_max_value()
    } else {
        s[s.len() - 1 - index]
    }
}

/// `times[index]`: the time `index` bars back, `u64::MAX` past the oldest one.
pub open spec fn time_at(s: Seq<u64>, index: int) -> u64 {
    if index >= s.len() {
        u64::MAX
    } else {
        s[s.len() - 1 - index]
    }
}

fn slice_part<'b, T>(v: &'b [T], lo: usize, hi: usize) -> (r: &'b [T])
    ensures
        r@ == slice_or_empty(v@, lo as int, hi as int),
{
    if lo <= hi && hi <= v.len() {
        vstd::slice::slice_subrange(v, lo, hi)
    } else {
        vstd::slice::slice_subrange(v, 0, 0)
    }
}

fn reversed<T: Copy>(v: &[T]) -> (r: Vec<T>)
    ensures
        r@ == v@.reverse(),
{
    let mut out: Vec<T> = Vec::new();
    let n = v.len();
    let mut i: usize = 0;
    while i < n
        invariant
            n == v@.len(),
            i <= n,
            out@.len() == i,
            forall|j: int| 0 <= j < i ==> out@[j] == v@[n - 1 - j],
        decreases n - i,
    {
        out.push(v[n - 1 - i]);
        i = i + 1;
    }
    proof {
        assert(out@ =~= v@.reverse());
    }
    out
}

/// A series of decimal values, a view of values stored oldest first.
#[derive(Debug)]
pub struct Series<'a> {
    pub inner: &'a [Dec],
}

impl<'a> Series<'a> {
    /// A series of the given values (oldest first).
    pub fn new(value: &'a [Dec]) -> (r: Series<'a>)
        ensures
            r.inner@ == value@,
    {
        Series { inner: value }
    }

    /// Number of values.
    pub fn len(&self) -> (r: usize)
        ensures
            r == self.inner@.len(),
    {
        self.inner.len()
    }

    pub fn is_empty(&self) -> (r: bool)
        ensures
            r == (self.inner@.len() == 0),
    {
        self.inner.len() == 0
    }

    /// The value `index` bars back (see `series_at`).
    pub fn get(&self, index: usize) -> (r: Dec)
        ensures
            r == series_at(self.inner@, index as int),
    {
        let n = self.inner.len();
        if index >= n {
            return Dec::max_value();
        }
        self.inner[n - 1 - index]
    }

    /// The current value, `series[0]`.
    pub fn current(&self) -> (r: Dec)
        ensures
            r == series_at(self.inner@, 0),
    {
        self.get(0)
    }

    /// The values newest first.
    pub fn iter(&self) -> (r: Vec<Dec>)
        ensures
            r@ == self.inner@.reverse(),
    {
        reversed(self.inner)
    }

    /// `series[start..end]`: the bars `start` (included) to `end` (excluded) back.
    pub fn range(&self, start: usize, end: usize) -> (r: Series<'a>)
        ensures
            r.inner@ == slice_or_empty(self.inner@, sat_sub(self.inner@.len() as int, end as int), sat_sub(
                self.inner@.len() as int,
                start as int,
            )),
    {
        let n = self.inner.len();
        let lo = if n >= end {
            n - end
        } else {
            0
        };
        let hi = if n >= start {
            n - start
        } else {
            0
        };
        Series { inner: slice_part(self.inner, lo, hi) }
    }

    /// `series[start..]`: from `start` bars back to the oldest.
    pub fn range_from(&self, start: usize) -> (r: Series<'a>)
        ensures
            r.inner@ == slice_or_empty(self.inner@, 0, sat_sub(self.inner@.len() as int, start as int)),
    {
        let n = self.inner.len();
        let hi = if n >= start {
            n - start
        } else {
            0
        };
        Series { inner: slice_part(self.inner, 0, hi) }
    }

    /// `series[..end]`: the newest `end` bars.
    pub fn range_to(&self, end: usize) -> (r: Series<'a>)
        ensures
            r.inner@ == slice_or_empty(self.inner@, sat_sub(self.inner@.len() as int, end as int), self.inner@.len() as int),
    {
        let n = self.inner.len();
        let lo = if n >= end {
            n - end
        } else {
            0
        };
        Series { inner: slice_part(self.inner, lo, n) }
    }

    /// `series[start..=end]`: the bars `start` to `end` back, both included.
    pub fn range_inclusive(&self, start: usize, end: usize) -> (r: Series<'a>)
        ensures
            r.inner@ == slice_or_empty(self.inner@, sat_sub(sat_sub(self.inner@.len() as int, end as int), 1), sat_sub(
                self.inner@.len() as int,
                start as int,
            )),
    {
        let n = self.inner.len();
        let a = if n >= end {
            n - end
        } else {
            0
        };
        let lo = if a >= 1 {
            a - 1
        } else {
            0
        };
        let hi = if n >= start {
            n - start
        } else {
            0
        };
        Series { inner: slice_part(self.inner, lo, hi) }
    }

    /// `series[..=end]`: the newest `end + 1` bars.
    pub fn range_to_inclusive(&self, end: usize) -> (r: Series<'a>)
        ensures
            r.inner@ == slice_or_empty(self.inner@, sat_sub(sat_sub(self.inner@.len() as int, 1), end as int), self.inner@.len() as int),
    {
        let n = self.inner.len();
        let a = if n >= 1 {
            n - 1
        } else {
            0
        };
        let lo = if a >= end {
            a - end
        } else {
            0
        };
        Series { inner: slice_part(self.inner, lo, n) }
    }
}

/// A series of bar times, a view of times stored oldest first.
#[derive(Debug)]
pub struct TimeSeries<'a> {
    pub inner: &'a [u64],
}

impl<'a> TimeSeries<'a> {
    /// A series of the given times (oldest first).
    pub fn new(value: &'a [u64]) -> (r: TimeSeries<'a>)
        ensures
            r.inner@ == value@,
    {
        TimeSeries { inner: value }
    }

    /// Number of times.
    pub fn len(&self) -> (r: usize)
        ensures
            r == self.inner@.len(),
    {
        self.inner.len()
    }

    pub fn is_empty(&self) -> (r: bool)
        ensures
            r == (self.inner@.len() == 0),
    {
        self.inner.len() == 0
    }

    /// The time `index` bars back (see `time_at`).
    pub fn get(&self, index: usize) -> (r: u64)
        ensures
            r == time_at(self.inner@, index as int),
    {
        if index >= self.inner.len() {
            return u64::MAX;
        }
        self.inner[self.inner.len() - 1 - index]
    }

    /// The current time, `times[0]`.
    pub fn current(&self) -> (r: u64)
        ensures
            r == time_at(self.inner@, 0),
    {
        self.get(0)
    }

    /// The times newest first.
    pub fn iter(&self) -> (r: Vec<u64>)
        ensures
            r@ == self.inner@.reverse(),
    {
        reversed(self.inner)
    }

    /// `times[start..end]`: the bars `start` (included) to `end` (excluded) back.
    pub fn range(&self, start: usize, end: usize) -> (r: TimeSeries<'a>)
        ensures
            r.inner@ == slice_or_empty(self.inner@, sat_sub(self.inner@.len() as int, end as int), sat_sub(
                self.inner@.len() as int,
                start as int,
            )),
    {
        let n = self.inner.len();
        let lo = if n >= end {
            n - end
        } else {
            0
        };
        let hi = if n >= start {
            n - start
        } else {
            0
        };
        TimeSeries { inner: slice_part(self.inner, lo, hi) }
    }

    /// `times[start..]`: from `start` bars back to the oldest.
    pub fn range_from(&self, start: usize) -> (r: TimeSeries<'a>)
        ensures
            r.inner@ == slice_or_empty(self.inner@, 0, sat_sub(self.inner@.len() as int, start as int)),
    {
        let n = self.inner.len();
        let hi = if n >= start {
            n - start
        } else {
            0
        };
        TimeSeries { inner: slice_part(self.inner, 0, hi) }
    }

    /// `times[..end]`: the newest `end` bars.
    pub fn range_to(&self, end: usize) -> (r: TimeSeries<'a>)
        ensures
            r.inner@ == slice_or_empty(self.inner@, sat_sub(self.inner@.len() as int, end as int), self.inner@.len() as int),
    {
        let n = self.inner.len();
        let lo = if n >= end {
            n - end
        } else {
            0
        };
        TimeSeries { inner: slice_part(self.inner, lo, n) }
    }
}

/// Indexing and iterating agree: `series[i]` is the `i`-th value of the newest-first
/// iteration, for every index inside the series.
pub proof fn lemma_index_matches_iteration(s: Seq<Dec>, i: int)
    requires
        0 <= i < s.len(),
    ensures
        series_at(s, i) == s.reverse()[i],
{
}

/// The same for time series.
pub proof fn lemma_time_index_matches_iteration(s: Seq<u64>, i: int)
    requires
        0 <= i < s.len(),
    ensures
        time_at(s, i) == s.reverse()[i],
{
}

} // verus!

