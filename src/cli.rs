//! What the line-mode front end decides: which filter its options ask for,
//! and the intervals and texts it shows.

use vstd::prelude::*;
use vstd::utf8::{encode_scalar, encode_utf8};
use chrono::{TimeZone, Utc};
use crate::model::{BlockFilter, BlockSummary};

verus! {

/// Why the options of a listing were refused.
#[derive(Debug, Clone, Copy, PartialEq, Eq, Structural)]
pub enum FilterError {
    /// A single height and a range were both given.
    ConflictingOptions,
    /// A range that is not two numbers joined by one `-`.
    InvalidFormat,
    /// A range bound that is not a decimal `u64`.
    InvalidNumber,
    /// A range whose start lies after its end.
    StartAfterEnd,
}

/// Value of a run of decimal digits.
pub open spec fn digits_value(s: Seq<char>) -> int
    decreases s.len(),
{
    if s.len() == 0 {
        0
    } else {
        digits_value(s.drop_last()) * 10 + (s.last() as int - 48)
    }
}

pub open spec fn all_digits(s: Seq<char>) -> bool {
    forall|i: int| 0 <= i < s.len() ==> '0' <= #[trigger] s[i] <= '9'
}

/// The digits of an unsigned number: the text without one leading `+`.
pub open spec fn unsigned_digits(s: Seq<char>) -> Seq<char> {
    if s.len() > 0 && s[0] == '+' {
        s.drop_first()
    } else {
        s
    }
}

/// The `u64` that `s` spells in decimal, with an optional leading `+`.
pub open spec fn parse_u64_spec(s: Seq<char>) -> Option<u64> {
    let d = unsigned_digits(s);
    if d.len() > 0 && all_digits(d) && digits_value(d) <= u64::MAX {
        Some(digits_value(d) as u64)
    } else {
        None
    }
}

proof fn lemma_digits_grow(s: Seq<char>, k: int, n: int)
    requires
        0 <= k <= n <= s.len(),
        all_digits(s),
    ensures
        digits_value(s.take(k)) <= digits_value(s.take(n)),
    decreases n - k,
{
    if k < n {
        lemma_digits_grow(s, k, n - 1);
        assert(s.take(n).drop_last() =~= s.take(n - 1));
        assert(digits_value(s.take(n - 1)) >= 0) by {
            lemma_digits_nonneg(s.take(n - 1));
        }
    }
}

proof fn lemma_digits_nonneg(s: Seq<char>)
    requires
        all_digits(s),
    ensures
        digits_value(s) >= 0,
    decreases s.len(),
{
    if s.len() > 0 {
        assert(all_digits(s.drop_last()));
        lemma_digits_nonneg(s.drop_last());
    }
}

/// The `u64` that `s[from..to]` spells in decimal, with an optional leading `+`.
pub fn parse_u64_at(s: &str, from: usize, to: usize) -> (r: Option<u64>)
    requires
        from <= to <= s@.len(),
    ensures
        r == parse_u64_spec(s@.subrange(from as int, to as int)),
{
    let ghost t = s@.subrange(from as int, to as int);
    let mut i = from;
    if i < to && s.get_char(i) == '+' {
        i = i + 1;
    }
    let ghost d = unsigned_digits(t);
    assert(d =~= s@.subrange(i as int, to as int));
    if i == to {
        return None;
    }
    let mut acc: u64 = 0;
    let ghost start = i;
    while i < to
        invariant
            start <= i <= to <= s@.len(),
            from <= start,
            start < to,
            t == s@.subrange(from as int, to as int),
            d == unsigned_digits(t),
            d == s@.subrange(start as int, to as int),
            all_digits(d.take(i - start)),
            acc == digits_value(d.take(i - start)),
        decreases to - i,
    {
        let c = s.get_char(i);
        if c < '0' || c > '9' {
            assert(d[i - start] == c);
            assert(!all_digits(d));
            return None;
        }
        let ghost k = i - start;
        assert(d.take(k + 1).drop_last() =~= d.take(k));
        assert(d.take(k + 1).last() == c);
        let v = (acc as u128) * 10 + (c as u32 - 48) as u128;
        if v > u64::MAX as u128 {
            proof {
                assert(all_digits(d.take(k + 1)));
                if all_digits(d) {
                    lemma_digits_grow(d, k + 1, d.len() as int);
                    assert(d.take(d.len() as int) =~= d);
                }
            }
            return None;
        }
        acc = v as u64;
        i = i + 1;
    }
    assert(d.take(d.len() as int) =~= d);
    Some(acc)
}

/// `s` holds exactly one `-`, at `p`.
pub open spec fn single_dash_at(s: Seq<char>, p: int) -> bool {
    0 <= p < s.len() && s[p] == '-' && forall|i: int| 0 <= i < s.len() && i != p ==> s[i] != '-'
}

/// The filter that a range text `start-end` asks for.
pub open spec fn range_filter_spec(s: Seq<char>) -> Result<BlockFilter, FilterError> {
    if !exists|p: int| single_dash_at(s, p) {
        Err(FilterError::InvalidFormat)
    } else {
        let p = choose|p: int| single_dash_at(s, p);
        let a = parse_u64_spec(s.subrange(0, p));
        let b = parse_u64_spec(s.subrange(p + 1, s.len() as int));
        if a.is_none() || b.is_none() {
            Err(FilterError::InvalidNumber)
        } else if a.unwrap() > b.unwrap() {
            Err(FilterError::StartAfterEnd)
        } else {
            Ok(BlockFilter::Range(a.unwrap(), b.unwrap()))
        }
    }
}

/// Reads a range text `start-end` into a filter.
pub fn parse_range_filter(range: &str) -> (r: Result<BlockFilter, FilterError>)
    ensures
        r == range_filter_spec(range@),
{
    let n = range.unicode_len();
    let mut p: usize = 0;
    while p < n && range.get_char(p) != '-'
        invariant
            n == range@.len(),
            p <= n,
            forall|i: int| 0 <= i < p ==> range@[i] != '-',
        decreases n - p,
    {
        p = p + 1;
    }
    if p == n {
        assert(!exists|q: int| single_dash_at(range@, q));
        return Err(FilterError::InvalidFormat);
    }
    let mut q: usize = p + 1;
    while q < n
        invariant
            n == range@.len(),
            p < q <= n,
            range@[p as int] == '-',
            forall|i: int| 0 <= i < p ==> range@[i] != '-',
            forall|i: int| p < i < q ==> range@[i] != '-',
        decreases n - q,
    {
        if range.get_char(q) == '-' {
            assert forall|x: int| !single_dash_at(range@, x) by {
                if single_dash_at(range@, x) {
                    if x == p {
                        assert(range@[q as int] == '-');
                    } else {
                        assert(range@[p as int] == '-');
                    }
                }
            }
            return Err(FilterError::InvalidFormat);
        }
        q = q + 1;
    }
    assert(single_dash_at(range@, p as int));
    assert forall|x: int| single_dash_at(range@, x) implies x == p by {
        assert(x == p as int || range@[p as int] != '-');
    }
    let start = parse_u64_at(range, 0, p);
    let end = parse_u64_at(range, p + 1, n);
    match (start, end) {
        (Some(a), Some(b)) => {
            if a > b {
                Err(FilterError::StartAfterEnd)
            } else {
                Ok(BlockFilter::Range(a, b))
            }
        },
        _ => Err(FilterError::InvalidNumber),
    }
}

/// The filter that the listing options ask for: one height, a range, or
/// else the last `count` blocks.
pub fn create_block_filter(count: usize, range: Option<String>, block: Option<u64>) -> (r: Result<BlockFilter, FilterError>)
    ensures
        match (block, range) {
            (Some(h), None) => r == Ok::<BlockFilter, FilterError>(BlockFilter::Specific(h)),
            (None, Some(s)) => r == range_filter_spec(s@),
            (None, None) => r == Ok::<BlockFilter, FilterError>(BlockFilter::LastN(count)),
            (Some(_), Some(_)) => r == Err::<BlockFilter, FilterError>(FilterError::ConflictingOptions),
        },
{
    match (block, range) {
        (Some(h), None) => Ok(BlockFilter::Specific(h)),
        (None, Some(s)) => parse_range_filter(s.as_str()),
        (None, None) => Ok(BlockFilter::LastN(count)),
        (Some(_), Some(_)) => Err(FilterError::ConflictingOptions),
    }
}


/// Decimal digits of `n`, without sign or leading zeros.
pub open spec fn decimal_spec(n: nat) -> Seq<char>
    decreases n,
{
    if n < 10 {
        seq![(n + 48) as char]
    } else {
        decimal_spec(n / 10).push(((n % 10) + 48) as char)
    }
}

/// The decimal digit `d`.
fn digit_text(d: u64) -> (r: String)
    requires
        d < 10,
    ensures
        r@ == seq![(d + 48) as char],
{
    if d == 0 {
        proof {
            reveal_strlit("0");
        }
        String::from_str("0")
    } else if d == 1 {
        proof {
            reveal_strlit("1");
        }
        String::from_str("1")
    } else if d == 2 {
        proof {
            reveal_strlit("2");
        }
        String::from_str("2")
    } else if d == 3 {
        proof {
            reveal_strlit("3");
        }
        String::from_str("3")
    } else if d == 4 {
        proof {
            reveal_strlit("4");
        }
        String::from_str("4")
    } else if d == 5 {
        proof {
            reveal_strlit("5");
        }
        String::from_str("5")
    } else if d == 6 {
        proof {
            reveal_strlit("6");
        }
        String::from_str("6")
    } else if d == 7 {
        proof {
            reveal_strlit("7");
        }
        String::from_str("7")
    } else if d == 8 {
        proof {
            reveal_strlit("8");
        }
        String::from_str("8")
    } else {
        proof {
            reveal_strlit("9");
        }
        String::from_str("9")
    }
}

/// Decimal digits of `n`, without sign or leading zeros.
fn decimal(n: u64) -> (r: String)
    ensures
        r@ == decimal_spec(n as nat),
    decreases n,
{
    let d = digit_text(n % 10);
    if n < 10 {
        d
    } else {
        let mut r = decimal(n / 10);
        r.append(d.as_str());
        r
    }
}

/// The UTC date and time of a moment given in seconds since the epoch,
/// where chrono can represent the moment.
pub uninterp spec fn utc_text(secs: i64) -> Option<Seq<char>>;

/// Relies on chrono's `Utc.timestamp_opt(secs, 0).single()` and on
/// `format("%Y-%m-%d %H:%M:%S UTC")` of its result: the text depends on
/// `secs` alone, and there is none for a moment out of chrono's range.
#[verifier::external_body]
fn utc_format(secs: i64) -> (r: Option<String>)
    ensures
        match r {
            Some(s) => utc_text(secs) == Some(s@),
            None => utc_text(secs) is None,
        },
{
    match Utc.timestamp_opt(secs, 0).single() {
        Some(dt) => Some(dt.format("%Y-%m-%d %H:%M:%S UTC").to_string()),
        None => None,
    }
}

/// A timestamp as shown to a reader: its UTC text, or the number itself
/// marked invalid where there is no such text.
pub open spec fn timestamp_text(utc: Option<Seq<char>>, timestamp: u64) -> Seq<char> {
    match utc {
        Some(s) => s,
        None => "Invalid: "@ + decimal_spec(timestamp as nat),
    }
}

/// A timestamp as shown to a reader, from its UTC text where there is one.
pub fn render_timestamp(utc: Option<String>, timestamp: u64) -> (r: String)
    ensures
        r@ == timestamp_text(
            match utc {
                Some(s) => Some(s@),
                None => None,
            },
            timestamp,
        ),
{
    match utc {
        Some(s) => s,
        None => {
            let mut r = String::from_str("Invalid: ");
            let digits = decimal(timestamp);
            r.append(digits.as_str());
            r
        },
    }
}

/// A Unix timestamp as shown to a reader: UTC date and time.
pub fn format_timestamp(timestamp: u64) -> (r: String)
    ensures
        r@ == timestamp_text(utc_text(timestamp as i64), timestamp),
{
    render_timestamp(utc_format(timestamp as i64), timestamp)
}

/// A number of seconds as shown to a reader: seconds below a minute, minutes
/// and seconds below an hour, else hours and minutes.
pub open spec fn duration_text(s: u64) -> Seq<char> {
    if s < 60 {
        decimal_spec(s as nat) + "s"@
    } else if s < 3600 {
        if s % 60 == 0 {
            decimal_spec((s / 60) as nat) + "m"@
        } else {
            decimal_spec((s / 60) as nat) + "m "@ + decimal_spec((s % 60) as nat) + "s"@
        }
    } else {
        decimal_spec((s / 3600) as nat) + "h "@ + decimal_spec(((s % 3600) / 60) as nat) + "m"@
    }
}

/// A number of seconds as shown to a reader.
pub fn format_duration(seconds: u64) -> (r: String)
    ensures
        r@ == duration_text(seconds),
{
    if seconds < 60 {
        let mut r = decimal(seconds);
        r.append("s");
        r
    } else if seconds < 3600 {
        let mut r = decimal(seconds / 60);
        if seconds % 60 == 0 {
            r.append("m");
        } else {
            r.append("m ");
            let secs = decimal(seconds % 60);
            r.append(secs.as_str());
            r.append("s");
        }
        r
    } else {
        let mut r = decimal(seconds / 3600);
        r.append("h ");
        let mins = decimal((seconds % 3600) / 60);
        r.append(mins.as_str());
        r.append("m");
        r
    }
}

/// The positive differences between the timestamps of consecutive blocks.
pub open spec fn valid_intervals(s: Seq<BlockSummary>) -> Seq<u64>
    decreases s.len(),
{
    if s.len() < 2 {
        Seq::empty()
    } else {
        let p = valid_intervals(s.drop_last());
        let a = s[s.len() - 2].header.timestamp;
        let b = s.last().header.timestamp;
        if b > a {
            p.push((b - a) as u64)
        } else {
            p
        }
    }
}

/// The positive differences between the timestamps of consecutive blocks.
pub fn calculate_valid_intervals(summaries: &[BlockSummary]) -> (r: Vec<u64>)
    ensures
        r@ == valid_intervals(summaries@),
{
    let n = summaries.len();
    let mut out: Vec<u64> = Vec::new();
    if n < 2 {
        return out;
    }
    let mut i: usize = 1;
    assert(valid_intervals(summaries@.take(1)) =~= Seq::<u64>::empty());
    while i < n
        invariant
            n == summaries@.len(),
            1 <= i <= n,
            out@ == valid_intervals(summaries@.take(i as int)),
        decreases n - i,
    {
        let ghost t = summaries@.take(i + 1);
        assert(t.drop_last() =~= summaries@.take(i as int));
        let a = summaries[i - 1].header.timestamp;
        let b = summaries[i].header.timestamp;
        if b > a {
            out.push(b - a);
        }
        i = i + 1;
    }
    assert(summaries@.take(n as int) =~= summaries@);
    out
}

/// The interval shown beside block `i` of a listing.
pub open spec fn interval_text(s: Seq<BlockSummary>, i: int) -> Seq<char> {
    if i == 0 {
        "─"@
    } else if s[i].header.timestamp > s[i - 1].header.timestamp {
        duration_text((s[i].header.timestamp - s[i - 1].header.timestamp) as u64)
    } else {
        "⚠ -time"@
    }
}

/// The interval shown beside block `index` of a listing: the time since the
/// block before it, or a mark where there is none or it went backwards.
pub fn calculate_interval(summaries: &[BlockSummary], index: usize) -> (r: String)
    requires
        index < summaries@.len(),
    ensures
        r@ == interval_text(summaries@, index as int),
{
    if index == 0 {
        return String::from_str("─");
    }
    let prev = summaries[index - 1].header.timestamp;
    let curr = summaries[index].header.timestamp;
    if curr > prev {
        format_duration(curr - prev)
    } else {
        String::from_str("⚠ -time")
    }
}

/// Encoding one more character appends that character's bytes.
proof fn lemma_encode_push(s: Seq<char>, c: char)
    ensures
        encode_utf8(s.push(c)) == encode_utf8(s) + encode_scalar(c as u32),
    decreases s.len(),
{
    if s.len() == 0 {
        assert(s.push(c).drop_first() =~= Seq::<char>::empty());
        assert(encode_utf8(Seq::<char>::empty()) =~= Seq::<u8>::empty());
        assert(encode_utf8(s.push(c)) =~= encode_scalar(c as u32) + encode_utf8(Seq::<char>::empty()));
        assert(encode_utf8(s) + encode_scalar(c as u32) =~= encode_scalar(c as u32));
    } else {
        assert(s.push(c).drop_first() =~= s.drop_first().push(c));
        lemma_encode_push(s.drop_first(), c);
        assert(encode_utf8(s.push(c)) =~= encode_scalar(s[0] as u32) + encode_utf8(s.drop_first().push(c)));
    }
}

/// Number of bytes in the UTF-8 encoding of `c`.
fn utf8_width(c: char) -> (w: usize)
    ensures
        w == encode_scalar(c as u32).len(),
        1 <= w <= 4,
{
    let v = c as u32;
    if v <= 0x7f {
        1
    } else if v <= 0x7ff {
        2
    } else if v <= 0xffff && !(0xd800 <= v && v <= 0xdfff) {
        3
    } else {
        4
    }
}

/// The longest beginning of `hash` whose UTF-8 encoding takes at most
/// `max_len` bytes: all of it where it is short enough.
pub fn truncate_hash(hash: &str, max_len: usize) -> (r: String)
    ensures
        r@.len() <= hash@.len(),
        r@ == hash@.take(r@.len() as int),
        encode_utf8(r@).len() <= max_len,
        r@.len() == hash@.len() || encode_utf8(hash@.take(r@.len() + 1 as int)).len() > max_len,
{
    let n = hash.unicode_len();
    let mut i: usize = 0;
    let mut used: usize = 0;
    let mut full = false;
    assert(hash@.take(0) =~= Seq::<char>::empty());
    while i < n && !full
        invariant
            n == hash@.len(),
            i <= n,
            used <= max_len,
            used == encode_utf8(hash@.take(i as int)).len(),
            full ==> i < n && encode_utf8(hash@.take(i + 1)).len() > max_len,
        decreases n - i + (if full { 0int } else { 1int }),
    {
        let c = hash.get_char(i);
        let w = utf8_width(c);
        proof {
            assert(hash@.take(i + 1) =~= hash@.take(i as int).push(c));
            lemma_encode_push(hash@.take(i as int), c);
        }
        if w > max_len - used {
            full = true;
        } else {
            used = used + w;
            i = i + 1;
        }
    }
    String::from_str(hash.substring_char(0, i))
}

/// Average, least and greatest of a list of intervals.
#[derive(Debug, Clone, Copy, PartialEq, Eq, Structural)]
pub struct IntervalStats {
    pub avg: u64,
    pub min: u64,
    pub max: u64,
}

pub open spec fn seq_sum(s: Seq<u64>) -> int
    decreases s.len(),
{
    if s.len() == 0 {
        0
    } else {
        seq_sum(s.drop_last()) + s.last()
    }
}

pub open spec fn seq_min(s: Seq<u64>) -> int
    decreases s.len(),
{
    if s.len() <= 1 {
        if s.len() == 0 { 0 } else { s[0] as int }
    } else if s.last() < seq_min(s.drop_last()) {
        s.last() as int
    } else {
        seq_min(s.drop_last())
    }
}

pub open spec fn seq_max(s: Seq<u64>) -> int
    decreases s.len(),
{
    if s.len() <= 1 {
        if s.len() == 0 { 0 } else { s[0] as int }
    } else if s.last() > seq_max(s.drop_last()) {
        s.last() as int
    } else {
        seq_max(s.drop_last())
    }
}

/// Average (rounded down), least and greatest of `intervals`; none where
/// there are none.
pub fn interval_statistics(intervals: &Vec<u64>) -> (r: Option<IntervalStats>)
    ensures
        match r {
            None => intervals@.len() == 0,
            Some(st) => intervals@.len() > 0 && st.avg == seq_sum(intervals@) / intervals@.len() as int
                && st.min == seq_min(intervals@) && st.max == seq_max(intervals@),
        },
{
    let n = intervals.len();
    if n == 0 {
        return None;
    }
    let mut sum: u128 = intervals[0] as u128;
    let mut lo: u64 = intervals[0];
    let mut hi: u64 = intervals[0];
    let mut i: usize = 1;
    assert(intervals@.take(1).drop_last() =~= Seq::<u64>::empty());
    assert(seq_sum(Seq::<u64>::empty()) == 0);
    assert(intervals@.take(1).last() == intervals@[0]);
    while i < n
        invariant
            n == intervals@.len(),
            1 <= i <= n,
            sum == seq_sum(intervals@.take(i as int)),
            sum <= i * 0xffff_ffff_ffff_ffffu64,
            lo == seq_min(intervals@.take(i as int)),
            hi == seq_max(intervals@.take(i as int)),
        decreases n - i,
    {
        let x = intervals[i];
        assert(intervals@.take(i + 1).drop_last() =~= intervals@.take(i as int));
        proof {
            assert(sum + x <= (i + 1) * 0xffff_ffff_ffff_ffffu64) by (nonlinear_arith)
                requires
                    sum <= i * 0xffff_ffff_ffff_ffffu64,
                    x <= 0xffff_ffff_ffff_ffffu64,
            ;
            assert((i + 1) * 0xffff_ffff_ffff_ffffu64 <= 0xffff_ffff_ffff_ffff_ffff_ffff_ffff_ffffu128) by (nonlinear_arith)
                requires
                    i <= 0xffff_ffff_ffff_ffffu64,
            ;
        }
        sum = sum + x as u128;
        if x < lo {
            lo = x;
        }
        if x > hi {
            hi = x;
        }
        i = i + 1;
    }
    assert(intervals@.take(n as int) =~= intervals@);
    let avg = sum / (n as u128);
    proof {
        assert(avg <= 0xffff_ffff_ffff_ffffu64) by (nonlinear_arith)
            requires
                avg as int == sum as int / n as int,
                sum <= n * 0xffff_ffff_ffff_ffffu64,
                n >= 1,
        ;
    }
    Some(IntervalStats { avg: avg as u64, min: lo, max: hi })
}

} // verus!
