//! K-line periods.
use vstd::prelude::*;
use vstd::string::*;

verus! {

/// The period of one k-line.
#[derive(Clone, Copy, Debug, PartialEq, Eq, Structural, PartialOrd, Ord, Hash)]
pub enum Level {
    Minute1,
    Minute3,
    Minute5,
    Minute15,
    Minute30,
    Hour1,
    Hour2,
    Hour4,
    Hour6,
    Hour12,
    Day1,
    Day3,
    Week1,
    Month1,
}

/// Minutes in one k-line of the level; 0 for a month, whose length varies.
pub open spec fn level_minutes(level: Level) -> nat {
    match level {
        Level::Minute1 => 1,
        Level::Minute3 => 3,
        Level::Minute5 => 5,
        Level::Minute15 => 15,
        Level::Minute30 => 30,
        Level::Hour1 => 60,
        Level::Hour2 => 120,
        Level::Hour4 => 240,
        Level::Hour6 => 360,
        Level::Hour12 => 720,
        Level::Day1 => 1440,
        Level::Day3 => 4320,
        Level::Week1 => 10080,
        Level::Month1 => 0,
    }
}

/// `minutes` is the length of one of the fixed-length levels (all but `Month1`).
pub open spec fn is_fixed_level_minutes(minutes: nat) -> bool {
    minutes == 1 || minutes == 3 || minutes == 5 || minutes == 15 || minutes == 30 || minutes == 60
        || minutes == 120 || minutes == 240 || minutes == 360 || minutes == 720 || minutes == 1440
        || minutes == 4320 || minutes == 10080
}

/// Position of the level in the order of the enum, finest first.
pub open spec fn level_rank(level: Level) -> nat {
    match level {
        Level::Minute1 => 0,
        Level::Minute3 => 1,
        Level::Minute5 => 2,
        Level::Minute15 => 3,
        Level::Minute30 => 4,
        Level::Hour1 => 5,
        Level::Hour2 => 6,
        Level::Hour4 => 7,
        Level::Hour6 => 8,
        Level::Hour12 => 9,
        Level::Day1 => 10,
        Level::Day3 => 11,
        Level::Week1 => 12,
        Level::Month1 => 13,
    }
}

/// `target` k-lines can be built from `source` k-lines: the target's period is a
/// whole multiple of the source's. For fixed lengths the target's minutes are a
/// multiple of the source's; a month is made of whole days, so it can be built from
/// any level that divides a day (not from three days or a week), and a month builds
/// only a month.
pub open spec fn is_sampling_target(source: Level, target: Level) -> bool {
    if level_minutes(source) == 0 {
        level_minutes(target) == 0
    } else if level_minutes(target) == 0 {
        1440nat % level_minutes(source) == 0
    } else {
        level_minutes(target) % level_minutes(source) == 0
    }
}

impl Level {
    /// The level of the given length in minutes; any length beyond a week is a month.
    pub fn from_interval_minutes(minutes: u64) -> (r: Option<Level>)
        ensures
            minutes > 10080 ==> r == Some(Level::Month1),
            minutes <= 10080 ==> (r matches Some(l) ==> level_minutes(l) == minutes),
            minutes <= 10080 ==> (r is None <==> !is_fixed_level_minutes(minutes as nat)),
            forall|l: Level| l != Level::Month1 && #[trigger] level_minutes(l) == minutes ==> r == Some(l),
    {
        if minutes == 1 {
            Some(Level::Minute1)
        } else if minutes == 3 {
            Some(Level::Minute3)
        } else if minutes == 5 {
            Some(Level::Minute5)
        } else if minutes == 15 {
            Some(Level::Minute15)
        } else if minutes == 30 {
            Some(Level::Minute30)
        } else if minutes == 60 {
            Some(Level::Hour1)
        } else if minutes == 120 {
            Some(Level::Hour2)
        } else if minutes == 240 {
            Some(Level::Hour4)
        } else if minutes == 360 {
            Some(Level::Hour6)
        } else if minutes == 720 {
            Some(Level::Hour12)
        } else if minutes == 1440 {
            Some(Level::Day1)
        } else if minutes == 4320 {
            Some(Level::Day3)
        } else if minutes == 10080 {
            Some(Level::Week1)
        } else if minutes > 10080 {
            Some(Level::Month1)
        } else {
            None
        }
    }

    /// Minutes in one k-line; 0 for `Month1`.
    pub fn interval_minutes(&self) -> (r: u64)
        ensures
            r == level_minutes(*self),
    {
        match self {
            Level::Minute1 => 1,
            Level::Minute3 => 3,
            Level::Minute5 => 5,
            Level::Minute15 => 15,
            Level::Minute30 => 30,
            Level::Hour1 => 60,
            Level::Hour2 => 120,
            Level::Hour4 => 240,
            Level::Hour6 => 360,
            Level::Hour12 => 720,
            Level::Day1 => 1440,
            Level::Day3 => 4320,
            Level::Week1 => 10080,
            Level::Month1 => 0,
        }
    }

    /// Milliseconds in one k-line; 0 for `Month1`.
    pub fn interval_millis(&self) -> (r: u64)
        ensures
            r == level_minutes(*self) * 60000,
    {
        self.interval_minutes() * 60000
    }

    /// `target_level` k-lines can be resampled from k-lines of this level.
    pub fn is_valid_sampling_target(&self, target_level: Level) -> (r: bool)
        ensures
            r == is_sampling_target(*self, target_level),
    {
        let source_minutes = self.interval_minutes();
        let target_minutes = target_level.interval_minutes();
        if source_minutes == 0 {
            target_minutes == 0
        } else if target_minutes == 0 {
            1440 % source_minutes == 0
        } else {
            target_minutes % source_minutes == 0
        }
    }

    /// The level's position in declaration order (`Minute1` is 0).
    pub fn rank(&self) -> (r: u8)
        ensures
            r == level_rank(*self),
    {
        match self {
            Level::Minute1 => 0,
            Level::Minute3 => 1,
            Level::Minute5 => 2,
            Level::Minute15 => 3,
            Level::Minute30 => 4,
            Level::Hour1 => 5,
            Level::Hour2 => 6,
            Level::Hour4 => 7,
            Level::Hour6 => 8,
            Level::Hour12 => 9,
            Level::Day1 => 10,
            Level::Day3 => 11,
            Level::Week1 => 12,
            Level::Month1 => 13,
        }
    }

    /// The short name used in file names and metadata (`"1m"`, `"1h"`, `"1mo"`, ...).
    pub fn name(&self) -> (r: &'static str)
        ensures
            r@ == level_name(*self),
    {
        proof {
            reveal_strlit("1m");
            reveal_strlit("3m");
            reveal_strlit("5m");
            reveal_strlit("15m");
            reveal_strlit("30m");
            reveal_strlit("1h");
            reveal_strlit("2h");
            reveal_strlit("4h");
            reveal_strlit("6h");
            reveal_strlit("12h");
            reveal_strlit("1d");
            reveal_strlit("3d");
            reveal_strlit("1w");
            reveal_strlit("1mo");
        }
        match self {
            Level::Minute1 => "1m",
            Level::Minute3 => "3m",
            Level::Minute5 => "5m",
            Level::Minute15 => "15m",
            Level::Minute30 => "30m",
            Level::Hour1 => "1h",
            Level::Hour2 => "2h",
            Level::Hour4 => "4h",
            Level::Hour6 => "6h",
            Level::Hour12 => "12h",
            Level::Day1 => "1d",
            Level::Day3 => "3d",
            Level::Week1 => "1w",
            Level::Month1 => "1mo",
        }
    }

    /// The level with the given short name, if any.
    pub fn parse(s: &str) -> (r: Option<Level>)
        ensures
            r matches Some(l) ==> level_name(l) == s@,
            r is None ==> forall|l: Level| level_name(l) != s@,
            forall|l: Level| #[trigger] level_name(l) == s@ ==> r == Some(l),
    {
        let all = all_levels();
        let mut i: usize = 0;
        while i < all.len()
            invariant
                i <= all.len(),
                all@ == all_levels_spec(),
                forall|j: int| 0 <= j < i ==> level_name(#[trigger] all@[j]) != s@,
            decreases all.len() - i,
        {
            let name = all[i].name();
            if str_equal(name, s) {
                proof {
                    assert forall|l: Level| #[trigger] level_name(l) == s@ implies all@[i as int] == l by {
                        lemma_level_names_distinct(l, all@[i as int]);
                    }
                }
                return Some(all[i]);
            }
            i = i + 1;
        }
        proof {
            assert forall|l: Level| level_name(l) != s@ by {
                lemma_all_levels_contains(l);
            }
        }
        None
    }
}

/// The short name of a level.
pub open spec fn level_name(level: Level) -> Seq<char> {
    match level {
        Level::Minute1 => "1m"@,
        Level::Minute3 => "3m"@,
        Level::Minute5 => "5m"@,
        Level::Minute15 => "15m"@,
        Level::Minute30 => "30m"@,
        Level::Hour1 => "1h"@,
        Level::Hour2 => "2h"@,
        Level::Hour4 => "4h"@,
        Level::Hour6 => "6h"@,
        Level::Hour12 => "12h"@,
        Level::Day1 => "1d"@,
        Level::Day3 => "3d"@,
        Level::Week1 => "1w"@,
        Level::Month1 => "1mo"@,
    }
}

/// No two levels share a short name.
pub proof fn lemma_level_names_distinct(a: Level, b: Level)
    ensures
        level_name(a) == level_name(b) ==> a == b,
{
    reveal_strlit("1m");
    reveal_strlit("3m");
    reveal_strlit("5m");
    reveal_strlit("15m");
    reveal_strlit("30m");
    reveal_strlit("1h");
    reveal_strlit("2h");
    reveal_strlit("4h");
    reveal_strlit("6h");
    reveal_strlit("12h");
    reveal_strlit("1d");
    reveal_strlit("3d");
    reveal_strlit("1w");
    reveal_strlit("1mo");
    if level_name(a) == level_name(b) {
        let x = level_name(a);
        assert(x.len() == level_name(b).len());
        assert(x[0] == level_name(b)[0]);
        assert(x[1] == level_name(b)[1]);
        if x.len() > 2 {
            assert(x[2] == level_name(b)[2]);
        }
    }
}

/// Every level can be resampled from k-lines of its own level.
pub proof fn lemma_sampling_target_reflexive(level: Level)
    ensures
        is_sampling_target(level, level),
{
}

/// All levels, finest first.
pub open spec fn all_levels_spec() -> Seq<Level> {
    seq![
        Level::Minute1,
        Level::Minute3,
        Level::Minute5,
        Level::Minute15,
        Level::Minute30,
        Level::Hour1,
        Level::Hour2,
        Level::Hour4,
        Level::Hour6,
        Level::Hour12,
        Level::Day1,
        Level::Day3,
        Level::Week1,
        Level::Month1,
    ]
}

pub proof fn lemma_all_levels_contains(l: Level)
    ensures
        0 <= level_rank(l) < 14,
        all_levels_spec()[level_rank(l) as int] == l,
{
}

/// All levels, finest first.
pub fn all_levels() -> (r: Vec<Level>)
    ensures
        r@ == all_levels_spec(),
{
    let r = vec![
        Level::Minute1,
        Level::Minute3,
        Level::Minute5,
        Level::Minute15,
        Level::Minute30,
        Level::Hour1,
        Level::Hour2,
        Level::Hour4,
        Level::Hour6,
        Level::Hour12,
        Level::Day1,
        Level::Day3,
        Level::Week1,
        Level::Month1,
    ];
    proof {
        assert(r@ =~= all_levels_spec());
    }
    r
}

/// Character-by-character equality of two strings.
pub fn str_equal(a: &str, b: &str) -> (r: bool)
    ensures
        r == (a@ == b@),
{
    let n = a.unicode_len();
    if n != b.unicode_len() {
        return false;
    }
    let mut i: usize = 0;
    while i < n
        invariant
            n == a@.len(),
            n == b@.len(),
            i <= n,
            forall|j: int| 0 <= j < i ==> a@[j] == b@[j],
        decreases n - i,
    {
        if a.get_char(i) != b.get_char(i) {
            return false;
        }
        i = i + 1;
    }
    proof {
        assert(a@ =~= b@);
    }
    true
}

} // verus!
