use vstd::prelude::*;

use crate::reading::TimestampError;

verus! {

use vstd::arithmetic::mul::{
    lemma_mul_inequality, lemma_mul_is_associative, lemma_mul_is_distributive_sub_other_way,
    lemma_mul_nonnegative,
};

/// An absolute point on the UTC timeline: seconds since the Unix
/// epoch plus a sub-second part. `secs` is negative for instants
/// before 1970.
#[derive(Clone, Copy, Debug, PartialEq, Eq, Structural)]
pub struct Timestamp {
    pub secs: i64,
    pub nanos: u32,
}

/// A well-formed instant carries less than a whole second of `nanos`.
pub open spec fn ts_wf(t: Timestamp) -> bool {
    t.nanos < 1_000_000_000
}

/// The instant as a single count of nanoseconds since the epoch.
pub open spec fn spec_total_nanos(t: Timestamp) -> int {
    t.secs * 1_000_000_000 + t.nanos
}

pub open spec fn is_digit(b: u8) -> bool {
    48 <= b <= 57
}

pub open spec fn d(b: u8) -> int {
    b - 48
}

/// Leap years of the proleptic Gregorian calendar.
pub open spec fn spec_is_leap(y: int) -> bool {
    (y % 4 == 0 && y % 100 != 0) || y % 400 == 0
}

pub open spec fn spec_days_in_month(y: int, m: int) -> int {
    if m == 1 { 31 }
    else if m == 2 { if spec_is_leap(y) { 29 } else { 28 } }
    else if m == 3 { 31 }
    else if m == 4 { 30 }
    else if m == 5 { 31 }
    else if m == 6 { 30 }
    else if m == 7 { 31 }
    else if m == 8 { 31 }
    else if m == 9 { 30 }
    else if m == 10 { 31 }
    else if m == 11 { 30 }
    else { 31 }
}

/// Days from the Unix epoch to the civil date `y-m-d`, on the
/// proleptic Gregorian calendar. The year is first shifted by 400
/// (exactly 146097 days) so that every intermediate quantity stays
/// non-negative for years 0 through 9999.
pub open spec fn spec_days_from_civil(y: int, m: int, day: int) -> int {
    let ys = y + 400;
    let yy = if m <= 2 { ys - 1 } else { ys };
    let era = yy / 400;
    let yoe = yy - era * 400;
    let mp = if m > 2 { m - 3 } else { m + 9 };
    let doy = (153 * mp + 2) / 5 + day - 1;
    let doe = yoe * 365 + yoe / 4 - yoe / 100 + doy;
    era * 146097 + doe - 865565
}

/// The first index at or after `i` that does not hold a decimal digit.
pub open spec fn spec_scan_digits(s: Seq<u8>, i: int) -> int
    decreases s.len() - i,
{
    if 0 <= i < s.len() && is_digit(s[i]) {
        spec_scan_digits(s, i + 1)
    } else {
        i
    }
}

pub proof fn lemma_scan_digits_bounds(s: Seq<u8>, i: int)
    requires
        0 <= i <= s.len(),
    ensures
        i <= spec_scan_digits(s, i) <= s.len(),
        forall|j: int| i <= j < spec_scan_digits(s, i) ==> is_digit(s[j]),
    decreases s.len() - i,
{
    if i < s.len() && is_digit(s[i]) {
        lemma_scan_digits_bounds(s, i + 1);
    }
}

/// The value of the decimal digits in `s[i..j]`.
pub open spec fn spec_digits_val(s: Seq<u8>, i: int, j: int) -> int
    decreases j - i,
{
    if i >= j {
        0
    } else {
        spec_digits_val(s, i, j - 1) * 10 + d(s[j - 1])
    }
}

pub open spec fn spec_pow10(k: int) -> int
    decreases k,
{
    if k <= 0 { 1 } else { 10 * spec_pow10(k - 1) }
}

/// The nanosecond count named by the fractional digits `s[start..end]`:
/// the first nine digits, scaled; further digits only refine precision
/// the timeline does not hold and are dropped.
pub open spec fn spec_frac_nanos(s: Seq<u8>, start: int, end: int) -> int {
    let stop = if end - start > 9 { start + 9 } else { end };
    spec_digits_val(s, start, stop) * spec_pow10(9 - (stop - start))
}

/// The offset suffix beginning at `i`, in seconds east of UTC; it must
/// run to the end of the text. `Z` (or `z`) is zero; otherwise
/// `+hh:mm` or `-hh:mm` with hours to 23 and minutes to 59.
pub open spec fn spec_parse_offset(s: Seq<u8>, i: int) -> Option<int> {
    if i >= s.len() {
        Option::None
    } else if s[i] == 90 || s[i] == 122 {
        if i + 1 == s.len() { Option::Some(0) } else { Option::None }
    } else if s[i] == 43 || s[i] == 45 {
        if i + 6 == s.len() && is_digit(s[i + 1]) && is_digit(s[i + 2]) && s[i + 3] == 58
            && is_digit(s[i + 4]) && is_digit(s[i + 5]) {
            let oh = d(s[i + 1]) * 10 + d(s[i + 2]);
            let om = d(s[i + 4]) * 10 + d(s[i + 5]);
            if oh <= 23 && om <= 59 {
                if s[i] == 43 {
                    Option::Some(oh * 3600 + om * 60)
                } else {
                    Option::Some(-(oh * 3600 + om * 60))
                }
            } else {
                Option::None
            }
        } else {
            Option::None
        }
    } else {
        Option::None
    }
}

/// The instant named by an RFC 3339 date-time, or nothing when the
/// text is not one. The shape is `yyyy-mm-ddThh:mm:ss`, an optional
/// `.digits` fraction, and a mandatory offset; `T` may be `t`.
/// A civil time that does not exist on the calendar (month 13, day 30
/// of February) names no instant, and a leap second (second 60) is
/// ambiguous on the UTC timeline: both are rejected.
pub open spec fn spec_parse_rfc3339(s: Seq<u8>) -> Option<Timestamp> {
    if s.len() < 20 {
        Option::None
    } else if !(is_digit(s[0]) && is_digit(s[1]) && is_digit(s[2]) && is_digit(s[3])
        && s[4] == 45 && is_digit(s[5]) && is_digit(s[6]) && s[7] == 45 && is_digit(s[8])
        && is_digit(s[9]) && (s[10] == 84 || s[10] == 116) && is_digit(s[11]) && is_digit(s[12])
        && s[13] == 58 && is_digit(s[14]) && is_digit(s[15]) && s[16] == 58 && is_digit(s[17])
        && is_digit(s[18])) {
        Option::None
    } else {
        let y = d(s[0]) * 1000 + d(s[1]) * 100 + d(s[2]) * 10 + d(s[3]);
        let mo = d(s[5]) * 10 + d(s[6]);
        let day = d(s[8]) * 10 + d(s[9]);
        let h = d(s[11]) * 10 + d(s[12]);
        let mi = d(s[14]) * 10 + d(s[15]);
        let se = d(s[17]) * 10 + d(s[18]);
        if !(1 <= mo <= 12 && 1 <= day <= spec_days_in_month(y, mo) && h <= 23 && mi <= 59
            && se <= 59) {
            Option::None
        } else {
            let frac_end = if s[19] == 46 { spec_scan_digits(s, 20) } else { 19 };
            if s[19] == 46 && frac_end == 20 {
                Option::None
            } else {
                let nanos = if s[19] == 46 { spec_frac_nanos(s, 20, frac_end) } else { 0 };
                match spec_parse_offset(s, frac_end) {
                    Option::None => Option::None,
                    Option::Some(off) => {
                        let secs = spec_days_from_civil(y, mo, day) * 86400 + h * 3600 + mi * 60
                            + se - off;
                        Option::Some(Timestamp { secs: secs as i64, nanos: nanos as u32 })
                    },
                }
            }
        }
    }
}

fn digit_val(b: u8) -> (r: u64)
    requires
        is_digit(b),
    ensures
        r == d(b),
{
    (b - 48) as u64
}

fn days_in_month(y: u64, m: u64) -> (r: u64)
    requires
        y <= 9999,
        1 <= m <= 12,
    ensures
        r == spec_days_in_month(y as int, m as int),
{
    if m == 2 {
        if (y % 4 == 0 && y % 100 != 0) || y % 400 == 0 { 29 } else { 28 }
    } else if m == 4 || m == 6 || m == 9 || m == 11 {
        30
    } else {
        31
    }
}

fn days_from_civil(y: u64, m: u64, day: u64) -> (r: i64)
    requires
        y <= 9999,
        1 <= m <= 12,
        1 <= day <= 31,
    ensures
        r == spec_days_from_civil(y as int, m as int, day as int),
        -719529 <= r <= 2932970,
{
    let ys: u64 = y + 400;
    let yy: u64 = if m <= 2 { ys - 1 } else { ys };
    let era: u64 = yy / 400;
    let yoe: u64 = yy - era * 400;
    let mp: u64 = if m > 2 { m - 3 } else { m + 9 };
    let doy: u64 = (153 * mp + 2) / 5 + day - 1;
    let doe: u64 = yoe * 365 + yoe / 4 - yoe / 100 + doy;
    assert(yoe < 400);
    assert(doe <= 146101);
    assert(era <= 25);
    (era * 146097 + doe) as i64 - 865565
}

fn pow10_u64(k: u64) -> (r: u64)
    requires
        k <= 9,
    ensures
        r == spec_pow10(k as int),
{
    let mut r: u64 = 1;
    let mut i: u64 = 0;
    while i < k
        invariant
            i <= k <= 9,
            r == spec_pow10(i as int),
        decreases k - i,
    {
        assert(spec_pow10(i + 1) == 10 * spec_pow10(i as int));
        assert(r <= 100_000_000) by {
            lemma_pow10_le(i as int);
        }
        r = r * 10;
        i = i + 1;
    }
    r
}

proof fn lemma_pow10_pos(k: int)
    ensures
        spec_pow10(k) >= 1,
    decreases k,
{
    if k > 0 {
        lemma_pow10_pos(k - 1);
    }
}

proof fn lemma_pow10_mono(a: int, b: int)
    requires
        a <= b,
    ensures
        spec_pow10(a) <= spec_pow10(b),
    decreases b - a,
{
    if a < b {
        lemma_pow10_mono(a, b - 1);
        if b > 0 {
            lemma_pow10_pos(b - 1);
        }
    }
}

proof fn lemma_pow10_values()
    ensures
        spec_pow10(8) == 100_000_000,
        spec_pow10(9) == 1_000_000_000,
{
    assert(spec_pow10(0) == 1);
    assert(spec_pow10(1) == 10);
    assert(spec_pow10(2) == 100);
    assert(spec_pow10(3) == 1000);
    assert(spec_pow10(4) == 10000);
    assert(spec_pow10(5) == 100_000);
    assert(spec_pow10(6) == 1_000_000);
    assert(spec_pow10(7) == 10_000_000);
    assert(spec_pow10(8) == 10 * spec_pow10(7));
    assert(spec_pow10(9) == 10 * spec_pow10(8));
}

proof fn lemma_pow10_le(k: int)
    ensures
        k <= 8 ==> spec_pow10(k) <= 100_000_000,
        k <= 9 ==> spec_pow10(k) <= 1_000_000_000,
        spec_pow10(k) >= 1,
{
    lemma_pow10_pos(k);
    lemma_pow10_values();
    if k <= 8 {
        lemma_pow10_mono(k, 8);
    }
    if k <= 9 {
        lemma_pow10_mono(k, 9);
    }
}

/// Resolve an RFC 3339 date-time to an absolute UTC instant; any text
/// that `spec_parse_rfc3339` gives no instant is rejected with a
/// classified error.
pub fn parse_rfc3339(s: &[u8]) -> (r: Result<Timestamp, TimestampError>)
    ensures
        spec_parse_rfc3339(s@) is Some ==> r == Result::<Timestamp, TimestampError>::Ok(
            spec_parse_rfc3339(s@)->Some_0,
        ),
        spec_parse_rfc3339(s@) is None ==> r == Result::<Timestamp, TimestampError>::Err(
            TimestampError::NotATimestamp,
        ),
        r is Ok ==> ts_wf(r->Ok_0),
{
    let n = s.len();
    if n < 20 {
        return Err(TimestampError::NotATimestamp);
    }
    if !(is_digit_at(s, 0) && is_digit_at(s, 1) && is_digit_at(s, 2) && is_digit_at(s, 3)
        && s[4] == 45 && is_digit_at(s, 5) && is_digit_at(s, 6) && s[7] == 45
        && is_digit_at(s, 8) && is_digit_at(s, 9) && (s[10] == 84 || s[10] == 116)
        && is_digit_at(s, 11) && is_digit_at(s, 12) && s[13] == 58 && is_digit_at(s, 14)
        && is_digit_at(s, 15) && s[16] == 58 && is_digit_at(s, 17) && is_digit_at(s, 18)) {
        return Err(TimestampError::NotATimestamp);
    }
    let y: u64 = digit_val(s[0]) * 1000 + digit_val(s[1]) * 100 + digit_val(s[2]) * 10
        + digit_val(s[3]);
    let mo: u64 = digit_val(s[5]) * 10 + digit_val(s[6]);
    let day: u64 = digit_val(s[8]) * 10 + digit_val(s[9]);
    let h: u64 = digit_val(s[11]) * 10 + digit_val(s[12]);
    let mi: u64 = digit_val(s[14]) * 10 + digit_val(s[15]);
    let se: u64 = digit_val(s[17]) * 10 + digit_val(s[18]);
    if !(1 <= mo && mo <= 12 && 1 <= day && h <= 23 && mi <= 59 && se <= 59) {
        return Err(TimestampError::NotATimestamp);
    }
    if day > days_in_month(y, mo) {
        return Err(TimestampError::NotATimestamp);
    }
    let mut frac_end: usize = 19;
    let mut nanos: u64 = 0;
    if s[19] == 46 {
        let mut e: usize = 20;
        while e < n && is_digit_at(s, e)
            invariant
                20 <= e <= n == s@.len(),
                forall|j: int| 20 <= j < e ==> is_digit(s@[j]),
                spec_scan_digits(s@, 20) == spec_scan_digits(s@, e as int),
            decreases n - e,
        {
            e = e + 1;
        }
        if e == 20 {
            return Err(TimestampError::NotATimestamp);
        }
        let stop: usize = if e - 20 > 9 { 29 } else { e };
        let mut acc: u64 = 0;
        let mut i: usize = 20;
        while i < stop
            invariant
                20 <= i <= stop <= 29,
                stop <= e <= n == s@.len(),
                forall|j: int| 20 <= j < e ==> is_digit(s@[j]),
                acc == spec_digits_val(s@, 20, i as int),
                acc < spec_pow10(i - 20),
            decreases stop - i,
        {
            proof {
                lemma_pow10_le(i - 20);
                assert(spec_pow10(i + 1 - 20) == 10 * spec_pow10(i - 20));
            }
            acc = acc * 10 + digit_val(s[i]);
            i = i + 1;
            assert(acc == spec_digits_val(s@, 20, i as int));
        }
        let scale = pow10_u64((9 - (stop - 20)) as u64);
        proof {
            lemma_pow10_le((9 - (stop - 20)) as int);
            lemma_frac_nanos_bound(s@, 20, e as int);
            lemma_pow10_mul(stop - 20, 9 - (stop - 20));
            lemma_mul_nonnegative(acc as int, scale as int);
        }
        nanos = acc * scale;
        assert(nanos == spec_frac_nanos(s@, 20, e as int));
        assert(nanos < 1_000_000_000);
        frac_end = e;
    }
    let off: i64;
    if frac_end < n && (s[frac_end] == 90 || s[frac_end] == 122) {
        if frac_end + 1 != n {
            return Err(TimestampError::NotATimestamp);
        }
        off = 0;
    } else if frac_end < n && (s[frac_end] == 43 || s[frac_end] == 45) {
        if !(n - frac_end == 6 && is_digit_at(s, frac_end + 1) && is_digit_at(s, frac_end + 2)
            && s[frac_end + 3] == 58 && is_digit_at(s, frac_end + 4)
            && is_digit_at(s, frac_end + 5)) {
            return Err(TimestampError::NotATimestamp);
        }
        let oh: u64 = digit_val(s[frac_end + 1]) * 10 + digit_val(s[frac_end + 2]);
        let om: u64 = digit_val(s[frac_end + 4]) * 10 + digit_val(s[frac_end + 5]);
        if !(oh <= 23 && om <= 59) {
            return Err(TimestampError::NotATimestamp);
        }
        let magnitude: i64 = (oh * 3600 + om * 60) as i64;
        off = if s[frac_end] == 43 { magnitude } else { -magnitude };
    } else {
        return Err(TimestampError::NotATimestamp);
    }
    let days = days_from_civil(y, mo, day);
    let secs: i64 = days * 86400 + (h * 3600 + mi * 60 + se) as i64 - off;
    Ok(Timestamp { secs, nanos: nanos as u32 })
}

fn is_digit_at(s: &[u8], i: usize) -> (r: bool)
    requires
        i < s@.len(),
    ensures
        r == is_digit(s@[i as int]),
{
    48 <= s[i] && s[i] <= 57
}

pub proof fn lemma_digits_val_nonneg(s: Seq<u8>, i: int, j: int)
    requires
        forall|k: int| i <= k < j ==> is_digit(s[k]),
    ensures
        spec_digits_val(s, i, j) >= 0,
    decreases j - i,
{
    if i < j {
        lemma_digits_val_nonneg(s, i, j - 1);
    }
}

proof fn lemma_digits_val_bounds(s: Seq<u8>, i: int, j: int)
    requires
        0 <= i <= j <= s.len(),
        forall|k: int| i <= k < j ==> is_digit(s[k]),
    ensures
        0 <= spec_digits_val(s, i, j) < spec_pow10(j - i),
    decreases j - i,
{
    if i < j {
        lemma_digits_val_bounds(s, i, j - 1);
        assert(spec_pow10(j - i) == 10 * spec_pow10(j - i - 1));
    }
}

proof fn lemma_frac_nanos_bound(s: Seq<u8>, start: int, end: int)
    requires
        0 <= start <= end <= s.len(),
        forall|k: int| start <= k < end ==> is_digit(s[k]),
    ensures
        0 <= spec_frac_nanos(s, start, end) < 1_000_000_000,
{
    let stop = if end - start > 9 { start + 9 } else { end };
    let a = stop - start;
    let b = 9 - a;
    let v = spec_digits_val(s, start, stop);
    let p = spec_pow10(b);
    lemma_digits_val_bounds(s, start, stop);
    lemma_pow10_le(b);
    lemma_mul_nonnegative(v, p);
    lemma_mul_inequality(v, spec_pow10(a) - 1, p);
    lemma_mul_is_distributive_sub_other_way(p, spec_pow10(a), 1);
    lemma_pow10_mul(a, b);
    lemma_pow10_values();
}

proof fn lemma_pow10_mul(a: int, b: int)
    requires
        0 <= a,
        0 <= b,
    ensures
        spec_pow10(a) * spec_pow10(b) == spec_pow10(a + b),
    decreases a,
{
    if a > 0 {
        lemma_pow10_mul(a - 1, b);
        lemma_mul_is_associative(10, spec_pow10(a - 1), spec_pow10(b));
    }
}

/// How a reported instant stands to the moment of writing.
#[derive(Clone, Copy, Debug, PartialEq, Eq, Structural)]
pub enum Freshness {
    /// Reported at most a second before now.
    Fresh,
    /// Reported more than 1000 milliseconds before now: worth a
    /// diagnostic, never a reason to withhold the write.
    Stale,
    /// Reported after now; the clocks disagree.
    FromFuture,
}

/// The advisory freshness check: how far `last_seen` lies behind
/// `now`, by whole milliseconds.
pub fn check_freshness(now: &Timestamp, last_seen: &Timestamp) -> (r: Freshness)
    ensures
        spec_total_nanos(*last_seen) > spec_total_nanos(*now) <==> r == Freshness::FromFuture,
        spec_total_nanos(*last_seen) <= spec_total_nanos(*now) ==> (r == Freshness::Stale <==> (
        spec_total_nanos(*now) - spec_total_nanos(*last_seen)) / 1_000_000 > 1000),
        r == Freshness::Fresh || r == Freshness::Stale || r == Freshness::FromFuture,
{
    let now_n: i128 = (now.secs as i128) * 1_000_000_000 + (now.nanos as i128);
    let ls_n: i128 = (last_seen.secs as i128) * 1_000_000_000 + (last_seen.nanos as i128);
    if ls_n > now_n {
        Freshness::FromFuture
    } else {
        let diff: u128 = (now_n - ls_n) as u128;
        if diff / 1_000_000 > 1000 {
            Freshness::Stale
        } else {
            Freshness::Fresh
        }
    }
}

} // verus!
