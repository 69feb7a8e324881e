//! The rules of the historical k-line archive: how a request names its data, which
//! months it covers, where each monthly file lives, and which columns of its lines
//! are kept.
use crate::util::first_index_of;
use std::io::Read;
use vstd::prelude::*;
use vstd::string::*;

verus! {

/// The parts of a request `symbol/interval[/market]`: the market defaults to
/// `futures` and must otherwise be `spot` or `futures`; any other number of parts is
/// refused.
pub open spec fn request_parts(s: Seq<char>) -> Option<(Seq<char>, Seq<char>, Seq<char>)> {
    let a = first_index_of(s, '/', 0);
    let b = first_index_of(s, '/', a + 1);
    let c = first_index_of(s, '/', b + 1);
    if a >= s.len() {
        None
    } else if b >= s.len() {
        Some((s.subrange(0, a), s.subrange(a + 1, s.len() as int), "futures"@))
    } else if c < s.len() {
        None
    } else {
        let market = s.subrange(b + 1, s.len() as int);
        if market == "spot"@ || market == "futures"@ {
            Some((s.subrange(0, a), s.subrange(a + 1, b), market))
        } else {
            None
        }
    }
}

/// Splits a request `symbol/interval[/market]` (see `request_parts`).
pub fn parse_request(input: &str) -> (r: Option<(String, String, String)>)
    ensures
        match request_parts(input@) {
            None => r is None,
            Some(p) => r matches Some(x) && x.0@ == p.0 && x.1@ == p.1 && x.2@ == p.2,
        },
{
    proof {
        reveal_strlit("futures");
        reveal_strlit("spot");
    }
    let n = input.unicode_len();
    let a = index_of_slash(input, 0);
    if a >= n {
        return None;
    }
    let symbol = input.substring_char(0, a).to_string();
    let b = index_of_slash(input, a + 1);
    if b >= n {
        let interval = input.substring_char(a + 1, n).to_string();
        return Some((symbol, interval, "futures".to_string()));
    }
    let c = index_of_slash(input, b + 1);
    if c < n {
        return None;
    }
    let interval = input.substring_char(a + 1, b).to_string();
    let market = input.substring_char(b + 1, n);
    if crate::level::str_equal(market, "spot") || crate::level::str_equal(market, "futures") {
        Some((symbol, interval, market.to_string()))
    } else {
        None
    }
}

/// Index of the first `/` of `s` from `i` on (the length when there is none).
fn index_of_slash(s: &str, i: usize) -> (r: usize)
    requires
        i <= s@.len(),
    ensures
        r == first_index_of(s@, '/', i as int),
        i <= r <= s@.len(),
{
    let n = s.unicode_len();
    let mut j = i;
    while j < n && s.get_char(j) != '/'
        invariant
            n == s@.len(),
            i <= j <= n,
            first_index_of(s@, '/', i as int) == first_index_of(s@, '/', j as int),
        decreases n - j,
    {
        j = j + 1;
    }
    j
}

/// Months a request covers: `month_count`, or the archive's ten years for 0.
pub fn months_to_fetch(month_count: u32) -> (r: u32)
    ensures
        r == (if month_count == 0 { 120 } else { month_count }),
{
    if month_count == 0 {
        120
    } else {
        month_count
    }
}

/// The monthly files are merged again unless the merged file exists and no month
/// was downloaded since (no lock file).
pub fn needs_merge(lock_exists: bool, merged_exists: bool) -> (r: bool)
    ensures
        r == (lock_exists || !merged_exists),
{
    lock_exists || !merged_exists
}

/// The month `back` months before month `month` (1 to 12) of `year`, as a year and a
/// month.
pub open spec fn month_before(year: int, month: int, back: int) -> (int, int) {
    let index = year * 12 + (month - 1) - back;
    (index / 12, index % 12 + 1)
}

/// The `count` months before the month `month` of `year`, oldest first: the archive
/// holds whole months only, so the current month is not among them.
pub fn previous_months(year: i32, month: u32, count: u32) -> (r: Vec<(i32, u32)>)
    requires
        1 <= month <= 12,
        year * 12 + (month - 1) - count >= i32::MIN as int * 12,
    ensures
        r@.len() == count,
        forall|k: int| 0 <= k < count ==> {
            let m = #[trigger] month_before(year as int, month as int, count - k);
            r@[k].0 == m.0 && r@[k].1 == m.1
        },
{
    let base: i64 = year as i64 * 12 + (month as i64 - 1);
    let mut out: Vec<(i32, u32)> = Vec::new();
    let mut k: u32 = 0;
    while k < count
        invariant
            k <= count,
            base == year * 12 + (month - 1),
            base <= i32::MAX as int * 12 + 11,
            base - count >= i32::MIN as int * 12,
            out@.len() == k,
            forall|j: int| 0 <= j < k ==> {
                let m = #[trigger] month_before(year as int, month as int, count - j);
                out@[j].0 == m.0 && out@[j].1 == m.1
            },
        decreases count - k,
    {
        let index: i64 = base - (count - k) as i64;
        let y = floor_div_12(index);
        let m = index - y * 12;
        proof {
            assert(y == index / 12 && m == index % 12);
            assert(i32::MIN <= y) by (nonlinear_arith)
                requires
                    y == index / 12,
                    index >= i32::MIN as int * 12,
            ;
            assert(y <= i32::MAX) by (nonlinear_arith)
                requires
                    y == index / 12,
                    index <= i32::MAX as int * 12 + 11,
            ;
        }
        out.push((y as i32, (m + 1) as u32));
        k = k + 1;
    }
    out
}

/// `x / 12` rounded down.
fn floor_div_12(x: i64) -> (r: i64)
    ensures
        r == x as int / 12,
        x - r * 12 == x as int % 12,
{
    let q = x / 12;
    let r = x % 12;
    if r < 0 {
        q - 1
    } else {
        q
    }
}

/// Index of the `k`-th comma (counted from 1) of `s`, or its length when it has fewer.
pub open spec fn comma_index(s: Seq<char>, k: nat) -> int
    decreases k,
{
    if k <= 1 {
        first_index_of(s, ',', 0)
    } else {
        let before = comma_index(s, (k - 1) as nat);
        if before >= s.len() {
            s.len() as int
        } else {
            first_index_of(s, ',', before + 1)
        }
    }
}

/// The first six columns of an archive line (timestamp, open, high, low, close,
/// volume): the text before its sixth comma; `None` for a line with fewer commas.
pub fn first_six_columns(line: &str) -> (r: Option<&str>)
    ensures
        comma_index(line@, 6) >= line@.len() ==> r is None,
        comma_index(line@, 6) < line@.len() ==> (r matches Some(x) && x@ == line@.subrange(
            0,
            comma_index(line@, 6),
        )),
{
    let n = line.unicode_len();
    let mut pos = n;
    let mut from: usize = 0;
    let mut k: usize = 1;
    while k <= 6
        invariant
            n == line@.len(),
            1 <= k <= 7,
            from <= n,
            k > 1 ==> pos == comma_index(line@, (k - 1) as nat),
            k > 1 ==> pos < n,
            k > 1 ==> from == pos + 1,
            k == 1 ==> from == 0,
        decreases 7 - k,
    {
        let i = index_of_comma(line, from);
        if i >= n {
            proof {
                assert(comma_index(line@, k as nat) == i);
                lemma_comma_index_past(line@, k as nat, 6);
            }
            return None;
        }
        pos = i;
        from = i + 1;
        k = k + 1;
    }
    Some(line.substring_char(0, pos))
}

pub proof fn lemma_comma_index_past(s: Seq<char>, j: nat, k: nat)
    requires
        1 <= j <= k,
        comma_index(s, j) >= s.len(),
    ensures
        comma_index(s, k) >= s.len(),
    decreases k - j,
{
    if j < k {
        lemma_comma_index_past(s, j + 1, k);
    }
}

/// Index of the first comma of `s` from `i` on (the length when there is none).
fn index_of_comma(s: &str, i: usize) -> (r: usize)
    requires
        i <= s@.len(),
    ensures
        r == first_index_of(s@, ',', i as int),
        i <= r <= s@.len(),
{
    let n = s.unicode_len();
    let mut j = i;
    while j < n && s.get_char(j) != ','
        invariant
            n == s@.len(),
            i <= j <= n,
            first_index_of(s@, ',', i as int) == first_index_of(s@, ',', j as int),
        decreases n - j,
    {
        j = j + 1;
    }
    j
}

/// Address of one monthly archive file:
/// `{base}/{spot/monthly | futures/um/monthly}/klines/{symbol}/{interval}/{symbol}-{interval}-{year_month}.zip`.
pub open spec fn archive_url(base: Seq<char>, symbol: Seq<char>, interval: Seq<char>, year_month: Seq<char>, market: Seq<char>) -> Seq<char> {
    let prefix = if market == "spot"@ { "spot/monthly"@ } else { "futures/um/monthly"@ };
    base + "/"@ + prefix + "/klines/"@ + symbol + "/"@ + interval + "/"@ + symbol + "-"@ + interval + "-"@
        + year_month + ".zip"@
}

/// The address of one monthly archive file (see `archive_url`).
pub fn download_url(base: &str, symbol: &str, interval: &str, year_month: &str, market: &str) -> (r: String)
    ensures
        r@ == archive_url(base@, symbol@, interval@, year_month@, market@),
{
    let prefix = if crate::level::str_equal(market, "spot") {
        "spot/monthly"
    } else {
        "futures/um/monthly"
    };
    proof {
        reveal_strlit("spot");
    }
    String::from_str(base).concat("/").concat(prefix).concat("/klines/").concat(symbol).concat("/").concat(
        interval,
    ).concat("/").concat(symbol).concat("-").concat(interval).concat("-").concat(year_month).concat(".zip")
}

/// The names of the entries of a zip archive, in the order of its central directory,
/// as `zip` lists them; `None` for bytes that `zip` does not read as an archive.
pub uninterp spec fn zip_names(bytes: Seq<u8>) -> Option<Seq<Seq<char>>>;

/// The text of the archive entry `name`, as `zip` unpacks it; `None` where the archive
/// or the entry cannot be read, or the entry is not UTF-8 text.
pub uninterp spec fn zip_entry_text(bytes: Seq<u8>, name: Seq<char>) -> Option<Seq<char>>;

/// `ZipArchive::new` over the bytes and `file_names`: the entry names, each converted
/// to a `String`. The contract names the result.
#[verifier::external_body]
fn zip_file_names(bytes: &[u8]) -> (r: Option<Vec<String>>)
    ensures
        match r {
            Some(v) => zip_names(bytes@) == Some(v@.map_values(|n: String| n@)),
            None => zip_names(bytes@) is None,
        },
{
    match zip::ZipArchive::new(std::io::Cursor::new(bytes)) {
        Ok(archive) => Some(archive.file_names().map(String::from).collect()),
        Err(_) => None,
    }
}

/// `ZipArchive::new` over the bytes, `by_name` and `read_to_string`: the entry's text.
/// The contract names the result.
#[verifier::external_body]
fn zip_read_entry(bytes: &[u8], name: &str) -> (r: Option<String>)
    ensures
        match r {
            Some(t) => zip_entry_text(bytes@, name@) == Some(t@),
            None => zip_entry_text(bytes@, name@) is None,
        },
{
    let mut archive = zip::ZipArchive::new(std::io::Cursor::new(bytes)).ok()?;
    let mut entry = archive.by_name(name).ok()?;
    let mut text = String::new();
    match entry.read_to_string(&mut text) {
        Ok(_) => Some(text),
        Err(_) => None,
    }
}

/// Why the text of a monthly archive could not be had.
#[derive(Clone, Copy, Debug, PartialEq, Eq, Structural)]
pub enum ArchiveError {
    /// The bytes are no readable zip archive, or its CSV entry cannot be read as text.
    Unreadable,
    /// No entry of the archive is a `.csv` file.
    NoCsv,
}

/// The name ends in `.csv`.
pub open spec fn is_csv_name(n: Seq<char>) -> bool {
    n.len() >= 4 && n.subrange(n.len() - 4, n.len() as int) == ".csv"@
}

/// Index of the first name from `i` on that ends in `.csv` (the length when none).
pub open spec fn first_csv_index(names: Seq<Seq<char>>, i: int) -> int
    decreases names.len() - i,
{
    if i < 0 || i >= names.len() {
        names.len() as int
    } else if is_csv_name(names[i]) {
        i
    } else {
        first_csv_index(names, i + 1)
    }
}

/// The text of the first `.csv` entry of the archive in `bytes`.
pub open spec fn archive_csv(bytes: Seq<u8>) -> Result<Seq<char>, ArchiveError> {
    match zip_names(bytes) {
        None => Err(ArchiveError::Unreadable),
        Some(names) => {
            let i = first_csv_index(names, 0);
            if i >= names.len() {
                Err(ArchiveError::NoCsv)
            } else {
                match zip_entry_text(bytes, names[i]) {
                    Some(t) => Ok(t),
                    None => Err(ArchiveError::Unreadable),
                }
            }
        },
    }
}

fn is_csv_file_name(n: &str) -> (r: bool)
    ensures
        r == is_csv_name(n@),
{
    proof {
        reveal_strlit(".csv");
    }
    let len = n.unicode_len();
    if len < 4 {
        return false;
    }
    let r = n.get_char(len - 4) == '.' && n.get_char(len - 3) == 'c' && n.get_char(len - 2) == 's' && n.get_char(
        len - 1,
    ) == 'v';
    proof {
        let t = n@.subrange(len - 4, len as int);
        if r {
            assert(t =~= ".csv"@);
        } else if t == ".csv"@ {
            assert(t[0] == '.' && t[1] == 'c' && t[2] == 's' && t[3] == 'v');
        }
    }
    r
}

/// The text of the first `.csv` entry of a downloaded monthly archive (see
/// `archive_csv`).
pub fn first_csv_of_zip(bytes: &[u8]) -> (r: Result<String, ArchiveError>)
    ensures
        match archive_csv(bytes@) {
            Ok(t) => r matches Ok(x) && x@ == t,
            Err(e) => r == Err::<String, ArchiveError>(e),
        },
{
    let names = match zip_file_names(bytes) {
        Some(v) => v,
        None => {
            return Err(ArchiveError::Unreadable);
        },
    };
    let ghost ns = names@.map_values(|n: String| n@);
    let mut i: usize = 0;
    while i < names.len()
        invariant
            ns == names@.map_values(|n: String| n@),
            zip_names(bytes@) == Some(ns),
            i <= names@.len(),
            first_csv_index(ns, 0) == first_csv_index(ns, i as int),
        decreases names.len() - i,
    {
        proof {
            assert(ns[i as int] == names@[i as int]@);
        }
        if is_csv_file_name(names[i].as_str()) {
            assert(first_csv_index(ns, i as int) == i);
            assert(zip_names(bytes@) == Some(ns));
            return match zip_read_entry(bytes, names[i].as_str()) {
                Some(t) => Ok(t),
                None => Err(ArchiveError::Unreadable),
            };
        }
        i = i + 1;
    }
    assert(first_csv_index(ns, i as int) == ns.len());
    Err(ArchiveError::NoCsv)
}

/// A line without its trailing carriage return.
pub open spec fn strip_cr(l: Seq<char>) -> Seq<char> {
    if l.len() > 0 && l.last() == '\r' {
        l.drop_last()
    } else {
        l
    }
}

/// The rows kept from the lines of `s` from index `from` on (lines end at `\n`, a
/// final line may lack it, a trailing `\r` is dropped): each line's first six
/// columns (see `first_six_columns`), the first line skipped when `skip` holds;
/// `None` when a kept line has fewer than six commas.
pub open spec fn rows_from(s: Seq<char>, from: int, skip: bool) -> Option<Seq<Seq<char>>>
    decreases s.len() - from,
{
    if from < 0 || from >= s.len() {
        Some(Seq::empty())
    } else {
        let e = first_index_of(s, '\n', from);
        let l = strip_cr(s.subrange(from, e));
        let rest = rows_from(s, if from <= e < s.len() { e + 1 } else { s.len() as int }, false);
        if skip {
            rest
        } else if comma_index(l, 6) >= l.len() {
            None
        } else {
            match rest {
                Some(r) => Some(seq![l.subrange(0, comma_index(l, 6))] + r),
                None => None,
            }
        }
    }
}

/// The rows of the archive text `s` kept in the merged file: every line after the
/// header, cut to its first six columns.
pub open spec fn archive_rows(s: Seq<char>) -> Option<Seq<Seq<char>>> {
    rows_from(s, 0, true)
}

/// `acc` followed by the rows of `r`, if any.
pub open spec fn rows_after(acc: Seq<Seq<char>>, r: Option<Seq<Seq<char>>>) -> Option<Seq<Seq<char>>> {
    match r {
        Some(x) => Some(acc + x),
        None => None,
    }
}

/// Index of the first line feed of `s` from `i` on (the length when there is none).
fn index_of_newline(s: &str, i: usize) -> (r: usize)
    requires
        i <= s@.len(),
    ensures
        r == first_index_of(s@, '\n', i as int),
        i <= r <= s@.len(),
{
    let n = s.unicode_len();
    let mut j = i;
    while j < n && s.get_char(j) != '\n'
        invariant
            n == s@.len(),
            i <= j <= n,
            first_index_of(s@, '\n', i as int) == first_index_of(s@, '\n', j as int),
        decreases n - j,
    {
        j = j + 1;
    }
    j
}

/// The rows kept from a monthly archive's text (see `archive_rows`); `None` when a
/// line has fewer than six columns.
pub fn kept_rows(text: &str) -> (r: Option<Vec<String>>)
    ensures
        match archive_rows(text@) {
            None => r is None,
            Some(rows) => r matches Some(v) && v@.map_values(|x: String| x@) == rows,
        },
{
    let n = text.unicode_len();
    let mut out: Vec<String> = Vec::new();
    let mut from: usize = 0;
    let mut skip = true;
    while from < n
        invariant
            n == text@.len(),
            from <= n,
            archive_rows(text@) == rows_after(out@.map_values(|x: String| x@), rows_from(text@, from as int, skip)),
        decreases n - from,
    {
        let e = index_of_newline(text, from);
        let ghost acc = out@.map_values(|x: String| x@);
        let raw = text.substring_char(from, e);
        let rl = raw.unicode_len();
        let line = if rl > 0 && raw.get_char(rl - 1) == '\r' {
            raw.substring_char(0, rl - 1)
        } else {
            raw
        };
        proof {
            assert(raw@ == text@.subrange(from as int, e as int));
            if rl > 0 && raw@.last() == '\r' {
                assert(line@ =~= raw@.drop_last());
            }
            assert(line@ == strip_cr(text@.subrange(from as int, e as int)));
        }
        if !skip {
            match first_six_columns(line) {
                Some(c) => {
                    out.push(String::from_str(c));
                    proof {
                        let a2 = out@.map_values(|x: String| x@);
                        assert(a2 =~= acc.push(c@));
                        match rows_from(text@, e + 1, false) {
                            Some(x) => {
                                assert(acc + (seq![c@] + x) =~= a2 + x);
                            },
                            None => {},
                        }
                    }
                },
                None => {
                    return None;
                },
            }
        }
        skip = false;
        from = if e >= n {
            n
        } else {
            e + 1
        };
    }
    proof {
        assert(out@.map_values(|x: String| x@) + Seq::<Seq<char>>::empty() =~= out@.map_values(|x: String| x@));
    }
    Some(out)
}

} // verus!
