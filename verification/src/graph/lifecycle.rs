//! Timestamp arithmetic for node lifecycle bookkeeping: civil dates from day
//! counts, day counts from civil dates, and ISO 8601 text in both directions.
use vstd::prelude::*;
use vstd::string::StringSliceAdditionalSpecFns;

verus! {

// ── Calendar model ────────────────────────────────────

/// Gregorian leap year.
pub open spec fn leap(y: int) -> bool {
    (y % 4 == 0 && y % 100 != 0) || y % 400 == 0
}

/// Number of days in year `y`.
pub open spec fn year_len(y: int) -> int {
    if leap(y) {
        366
    } else {
        365
    }
}

/// Number of days in month `m` (1-based) of year `y`.
pub open spec fn month_len(y: int, m: int) -> int {
    if m == 2 {
        if leap(y) {
            29
        } else {
            28
        }
    } else if m == 4 || m == 6 || m == 9 || m == 11 {
        30
    } else {
        31
    }
}

/// Month and 1-based day of the `days`-th (0-based) day of year `y`, counting
/// from the start of month `m`; month 12 absorbs whatever is left.
pub open spec fn month_day_from(y: int, m: int, days: int) -> (int, int)
    decreases 12 - m,
{
    if m >= 12 || days < month_len(y, m) {
        (m, days + 1)
    } else {
        month_day_from(y, m + 1, days - month_len(y, m))
    }
}

/// Civil date `(year, month, day)` of the day `days` days after January 1st
/// of year `y`.
pub open spec fn civil_from(y: int, days: int) -> (int, int, int)
    decreases days,
{
    if days < year_len(y) || days < 0 {
        let (m, d) = month_day_from(y, 1, days);
        (y, m, d)
    } else {
        civil_from(y + 1, days - year_len(y))
    }
}

/// Civil date of day number `days` since 1970-01-01.
pub open spec fn civil_of_days(days: int) -> (int, int, int) {
    civil_from(1970, days)
}

/// `a / b` as integer division in Rust reads it: rounded toward zero.
pub open spec fn tdiv(a: int, b: int) -> int {
    if a >= 0 {
        a / b
    } else {
        -((-a) / b)
    }
}

/// Leap days in years `1..=y`, `y/4 - y/100 + y/400` with Rust's division
/// (for negative `y`, the same count mirrored).
pub open spec fn leaps_through(y: int) -> int {
    tdiv(y, 4) - tdiv(y, 100) + tdiv(y, 400)
}

/// Days from 1970-01-01 to January 1st of `year` (negative before 1970).
pub open spec fn days_before_year(year: int) -> int {
    (year - 1970) * 365 + leaps_through(year - 1) - leaps_through(1969)
}

/// Days in the first `k` months of year `y`.
pub open spec fn days_before_month(y: int, k: int) -> int
    decreases k,
{
    if k <= 0 {
        0
    } else {
        days_before_month(y, k - 1) + month_len(y, k)
    }
}

/// Day number since 1970-01-01 of `year-month-day`, with month and day taken
/// as they come (a month past December counts the twelve months before it, day 0 counts as day 1).
pub open spec fn epoch_days(year: int, month: int, day: int) -> int {
    days_before_year(year) + days_before_month(year, prior_months(month)) + day_offset(day)
}

/// Months before `month` that count: none for month 1 or less, at most 12.
pub open spec fn prior_months(month: int) -> int {
    if month <= 1 {
        0
    } else if month - 1 > 12 {
        12
    } else {
        month - 1
    }
}

/// Days before `day` in its month (day 0 counts as day 1).
pub open spec fn day_offset(day: int) -> int {
    if day >= 1 {
        day - 1
    } else {
        0
    }
}

/// `year as i64` for a `u64` year: years past `i64::MAX` wrap to negative values.
pub open spec fn year_as_i64(year: int) -> int {
    if year <= i64::MAX {
        year
    } else {
        year - 0x1_0000_0000_0000_0000
    }
}

/// `d as u64` for an `i64` value `d`: negative values wrap.
pub open spec fn wrap_u64(d: int) -> int {
    if d >= 0 {
        d
    } else {
        d + 0x1_0000_0000_0000_0000
    }
}

/// The day number that [`days_since_epoch`] computes: the days before the
/// year (its year taken as `i64`, the count as `u64`), then the days before
/// the month and the day.
pub open spec fn epoch_days_u64(year: int, month: int, day: int) -> int {
    wrap_u64(days_before_year(year_as_i64(year))) + days_before_month(year, prior_months(month))
        + day_offset(day)
}

/// Whether [`days_since_epoch`]'s arithmetic stays in range: the `i64` count
/// of days before the year, and the final `u64` sum.
pub open spec fn days_since_epoch_in_range(year: int, month: int, day: int) -> bool {
    let yi = year_as_i64(year);
    &&& i64::MIN <= yi - 1970
    &&& i64::MIN <= (yi - 1970) * 365 <= i64::MAX
    &&& i64::MIN <= days_before_year(yi) <= i64::MAX
    &&& epoch_days_u64(year, month, day) <= u64::MAX
}

// ── Calendar functions ────────────────────────────────

/// Gregorian leap-year test.
pub fn is_leap(y: u64) -> (b: bool)
    ensures
        b == leap(y as int),
{
    (y % 4 == 0 && y % 100 != 0) || y % 400 == 0
}

fn month_length(y: u64, m: u64) -> (n: u64)
    ensures
        n as int == month_len(y as int, m as int),
{
    if m == 2 {
        if is_leap(y) {
            29
        } else {
            28
        }
    } else if m == 4 || m == 6 || m == 9 || m == 11 {
        30
    } else {
        31
    }
}

/// Convert a day count since 1970-01-01 into `(year, month, day)`.
pub fn days_to_ymd(days: u64) -> (r: (u64, u64, u64))
    ensures
        (r.0 as int, r.1 as int, r.2 as int) == civil_of_days(days as int),
{
    let mut days = days;
    let mut year: u64 = 1970;
    let ghost total = days as int;
    loop
        invariant
            1970 <= year,
            (year - 1970) * 365 <= total - days,
            days <= total,
            total <= u64::MAX,
            civil_from(year as int, days as int) == civil_of_days(total),
        ensures
            1970 <= year,
            days < year_len(year as int),
            civil_from(year as int, days as int) == civil_of_days(total),
        decreases days,
    {
        let days_in_year: u64 = if is_leap(year) {
            366
        } else {
            365
        };
        if days < days_in_year {
            break ;
        }
        days -= days_in_year;
        year += 1;
    }
    let mut month: u64 = 1;
    loop
        invariant
            1 <= month <= 12,
            days < year_len(year as int),
            civil_of_days(total).0 == year,
            month_day_from(year as int, month as int, days as int) == (
                civil_of_days(total).1,
                civil_of_days(total).2,
            ),
        ensures
            1 <= month <= 12,
            civil_of_days(total).0 == year,
            (month as int, days + 1) == (civil_of_days(total).1, civil_of_days(total).2),
        decreases 12 - month,
    {
        if month >= 12 {
            break ;
        }
        let md = month_length(year, month);
        if days < md {
            break ;
        }
        days -= md;
        month += 1;
    }
    (year, month, days + 1)
}

/// Exact day number since 1970-01-01 of `year-month-day` (see [`epoch_days`]).
fn epoch_days_exact(year: u64, month: u64, day: u64) -> (r: i64)
    requires
        year <= u32::MAX,
        day <= u32::MAX,
    ensures
        r as int == epoch_days(year as int, month as int, day as int),
{
    let leaps: u64 = if year == 0 {
        0
    } else {
        let y = year - 1;
        assert(y / 100 <= y / 4);
        y / 4 - y / 100 + y / 400
    };
    assert(leaps_through(1969) == 477);
    let from_years: i64 = (year as i64 - 1970) * 365 + leaps as i64 - 477;
    let from_months = days_before_month_exec(year, month);
    let day_part: u64 = if day >= 1 {
        day - 1
    } else {
        0
    };
    from_years + from_months as i64 + day_part as i64
}

fn trunc_div(a: i128, b: i128) -> (q: i128)
    requires
        0 < b <= 400,
        -0x1_0000_0000_0000_0000 <= a <= 0x1_0000_0000_0000_0000,
    ensures
        q == tdiv(a as int, b as int),
{
    if a >= 0 {
        a / b
    } else {
        -((-a) / b)
    }
}

/// Days in the months before `month` of `year`.
fn days_before_month_exec(year: u64, month: u64) -> (r: u64)
    ensures
        r == days_before_month(year as int, prior_months(month as int)),
        r <= 372,
{
    let prior: u64 = if month <= 1 {
        0
    } else if month - 1 > 12 {
        12
    } else {
        month - 1
    };
    let mut from_months: u64 = 0;
    let mut k: u64 = 0;
    while k < prior
        invariant
            k <= prior <= 12,
            prior == prior_months(month as int),
            from_months as int == days_before_month(year as int, k as int),
            from_months <= 31 * k,
        decreases prior - k,
    {
        from_months += month_length(year, k + 1);
        k += 1;
    }
    from_months
}

/// Day number since 1970-01-01 of `year-month-day`: the year taken as `i64`
/// for the days before it, that count taken as `u64` (dates before 1970
/// wrap), then the days of the year added.
pub fn days_since_epoch(year: u64, month: u64, day: u64) -> (r: u64)
    requires
        days_since_epoch_in_range(year as int, month as int, day as int),
    ensures
        r == epoch_days_u64(year as int, month as int, day as int),
{
    let yi: i128 = if year <= 0x7fff_ffff_ffff_ffff {
        year as i128
    } else {
        year as i128 - 0x1_0000_0000_0000_0000i128
    };
    assert(yi == year_as_i64(year as int));
    let y: i128 = yi - 1;
    assert(leaps_through(1969) == 477);
    let leaps: i128 = trunc_div(y, 4) - trunc_div(y, 100) + trunc_div(y, 400) - 477;
    let from_years: i128 = (yi - 1970) * 365 + leaps;
    assert(from_years == days_before_year(yi as int));
    let wrapped: u64 = if from_years >= 0 {
        from_years as u64
    } else {
        (from_years + 0x1_0000_0000_0000_0000i128) as u64
    };
    let months = days_before_month_exec(year, month);
    let offset: u64 = if day >= 1 {
        day - 1
    } else {
        0
    };
    wrapped + months + offset
}

// ── ISO 8601 text ─────────────────────────────────────

/// Value of a run of ASCII decimal digits.
pub open spec fn digits_value(b: Seq<u8>) -> int
    decreases b.len(),
{
    if b.len() == 0 {
        0
    } else {
        digits_value(b.drop_last()) * 10 + (b.last() - 48)
    }
}

/// ASCII decimal digits only.
pub open spec fn all_digits(b: Seq<u8>) -> bool {
    forall|i: int| 0 <= i < b.len() ==> 48 <= #[trigger] b[i] <= 57
}

/// `str::parse::<u64>` on a short ASCII field: an optional `+` followed by
/// at least one digit; `None` for anything else.
pub open spec fn parse_field(b: Seq<u8>) -> Option<int> {
    if b.len() > 0 && all_digits(b) {
        Some(digits_value(b))
    } else if b.len() > 1 && b[0] == 43 && all_digits(b.drop_first()) {
        Some(digits_value(b.drop_first()))
    } else {
        None
    }
}

/// The field `b[lo..hi]` parsed, or `default` when it does not parse.
pub open spec fn field_or(b: Seq<u8>, lo: int, hi: int, default: int) -> int {
    match parse_field(b.subrange(lo, hi)) {
        Some(v) => v,
        None => default,
    }
}

/// Exact seconds since the epoch denoted by the fixed-position fields of an
/// ISO 8601 timestamp `YYYY-MM-DDTHH:MM:SS` (0 for text shorter than that).
pub open spec fn iso_secs(b: Seq<u8>) -> int {
    if b.len() < 19 {
        0
    } else {
        let year = field_or(b, 0, 4, 0);
        let month = field_or(b, 5, 7, 1);
        let day = field_or(b, 8, 10, 1);
        let hour = field_or(b, 11, 13, 0);
        let min = field_or(b, 14, 16, 0);
        let sec = field_or(b, 17, 19, 0);
        epoch_days(year, month, day) * 86400 + hour * 3600 + min * 60 + sec
    }
}

proof fn lemma_digits_value_bound(b: Seq<u8>)
    requires
        all_digits(b),
    ensures
        0 <= digits_value(b) < pow10(b.len() as nat),
    decreases b.len(),
{
    if b.len() > 0 {
        assert(all_digits(b.drop_last())) by {
            assert forall|i: int| 0 <= i < b.drop_last().len() implies 48 <= #[trigger] b.drop_last()[i] <= 57 by {
                assert(b.drop_last()[i] == b[i]);
            }
        }
        lemma_digits_value_bound(b.drop_last());
        assert(48 <= b.last() <= 57);
    }
}

/// `10^n`.
pub open spec fn pow10(n: nat) -> int
    decreases n,
{
    if n == 0 {
        1
    } else {
        10 * pow10((n - 1) as nat)
    }
}

/// Parse `b[lo..hi]` as `str::parse::<u64>` does, falling back to `default`.
fn parse_field_or(b: &[u8], lo: usize, hi: usize, default: u64) -> (r: u64)
    requires
        lo < hi <= b@.len(),
        hi - lo <= 4,
    ensures
        r as int == field_or(b@, lo as int, hi as int, default as int),
{
    let ghost f = b@.subrange(lo as int, hi as int);
    let mut start = lo;
    if b[lo] == 43u8 && hi - lo > 1 {
        start = lo + 1;
    }
    let mut v: u64 = 0;
    let mut i = start;
    while i < hi
        invariant
            lo <= start <= i <= hi <= b@.len(),
            hi - lo <= 4,
            f == b@.subrange(lo as int, hi as int),
            start == lo || (start == lo + 1 && b@[lo as int] == 43u8),
            start == lo ==> !(b@[lo as int] == 43u8 && hi - lo > 1),
            start == lo + 1 ==> hi - lo > 1,
            all_digits(b@.subrange(start as int, i as int)),
            v as int == digits_value(b@.subrange(start as int, i as int)),
            v < pow10((i - start) as nat),
        decreases hi - i,
    {
        let c = b[i];
        if !(48u8 <= c && c <= 57u8) {
            proof {
                assert(!all_digits(f)) by {
                    assert(f[i - lo] == c);
                }
                if start == lo + 1 {
                    assert(!all_digits(f.drop_first())) by {
                        assert(f.drop_first()[i - lo - 1] == c);
                    }
                    assert(!all_digits(f)) by {
                        assert(f[0] == 43u8);
                    }
                } else {
                    assert(f[0] == b@[lo as int]);
                }
            }
            return default;
        }
        proof {
            let g = b@.subrange(start as int, i + 1);
            assert(g.drop_last() == b@.subrange(start as int, i as int));
            assert(all_digits(g));
            assert(pow10((i + 1 - start) as nat) == 10 * pow10((i - start) as nat));
            assert(pow10((i - start) as nat) <= 1000) by {
                reveal_with_fuel(pow10, 5);
            }
        }
        v = v * 10 + (c - 48u8) as u64;
        i += 1;
    }
    proof {
        if start == lo {
            assert(b@.subrange(start as int, hi as int) == f);
            if !(f.len() > 0 && all_digits(f)) {
            }
        } else {
            assert(b@.subrange(start as int, hi as int) == f.drop_first());
            if start == hi {
                assert(false);
            }
            assert(!all_digits(f)) by {
                assert(f[0] == 43u8);
            }
        }
    }
    if start == hi {
        return default;
    }
    v
}

/// The byte positions at which the fields of `YYYY-MM-DDTHH:MM:SS` start and end.
pub open spec fn is_iso_field_edge(k: int) -> bool {
    k == 0 || k == 4 || k == 5 || k == 7 || k == 8 || k == 10 || k == 11 || k == 13 || k == 14 || k
        == 16 || k == 17 || k == 19
}

/// Every field edge of a text of at least 19 bytes is a character boundary
/// (slicing the fields there does not panic).
pub open spec fn iso_fields_on_boundaries(b: Seq<u8>) -> bool {
    b.len() >= 19 ==> forall|k: int|
        #![trigger vstd::utf8::is_char_boundary(b, k)]
        is_iso_field_edge(k) ==> vstd::utf8::is_char_boundary(b, k)
}

/// Parse an ISO 8601 timestamp to seconds since the epoch (best effort):
/// text shorter than `YYYY-MM-DDTHH:MM:SS` gives 0, an unparsable field its
/// default (year 0, month 1, day 1, time 0), and dates before 1970 the
/// wrapped `u64` of their negative value.
pub fn parse_iso_to_secs(ts: &str) -> (r: u64)
    requires
        iso_fields_on_boundaries(ts.spec_bytes()),
    ensures
        r == iso_secs(ts.spec_bytes()) as u64,
{
    let b = ts.as_bytes();
    if b.len() < 19 {
        return 0;
    }
    let year = parse_field_or(b, 0, 4, 0);
    let month = parse_field_or(b, 5, 7, 1);
    let day = parse_field_or(b, 8, 10, 1);
    let hour = parse_field_or(b, 11, 13, 0);
    let min = parse_field_or(b, 14, 16, 0);
    let sec = parse_field_or(b, 17, 19, 0);
    proof {
        lemma_field_bound(b@, 0, 4, 0);
        lemma_field_bound(b@, 8, 10, 1);
        lemma_field_bound(b@, 11, 13, 0);
        lemma_field_bound(b@, 14, 16, 0);
        lemma_field_bound(b@, 17, 19, 0);
    }
    let total_days = epoch_days_exact(year, month, day);
    assert(-1000000 <= total_days <= 4000000) by {
        lemma_epoch_days_range(year as int, month as int, day as int);
    }
    let secs: i64 = total_days * 86400 + (hour * 3600 + min * 60 + sec) as i64;
    secs as u64
}

/// [`parse_iso_to_secs`] for any text: `None` when a field edge of a text of
/// at least 19 bytes falls inside a multi-byte character (where slicing the
/// field would panic), else the parsed seconds.
pub fn parse_iso_to_secs_checked(ts: &str) -> (r: Option<u64>)
    ensures
        r is Some <==> iso_fields_on_boundaries(ts.spec_bytes()),
        r matches Some(v) ==> v == iso_secs(ts.spec_bytes()) as u64,
{
    if ts.as_bytes().len() >= 19 {
        let ok = ts.is_char_boundary(0) && ts.is_char_boundary(4) && ts.is_char_boundary(5)
            && ts.is_char_boundary(7) && ts.is_char_boundary(8) && ts.is_char_boundary(10)
            && ts.is_char_boundary(11) && ts.is_char_boundary(13) && ts.is_char_boundary(14)
            && ts.is_char_boundary(16) && ts.is_char_boundary(17) && ts.is_char_boundary(19);
        if !ok {
            return None;
        }
        assert forall|k: int| is_iso_field_edge(k) implies vstd::utf8::is_char_boundary(
            ts.spec_bytes(),
            k,
        ) by {}
    }
    Some(parse_iso_to_secs(ts))
}

proof fn lemma_field_bound(b: Seq<u8>, lo: int, hi: int, default: int)
    requires
        0 <= lo < hi <= b.len(),
        hi - lo <= 4,
        0 <= default <= 9999,
    ensures
        0 <= field_or(b, lo, hi, default) <= 9999,
{
    let f = b.subrange(lo, hi);
    if f.len() > 0 && all_digits(f) {
        lemma_digits_value_bound(f);
        lemma_pow10_mono(f.len() as nat);
    } else if f.len() > 1 && f[0] == 43 && all_digits(f.drop_first()) {
        lemma_digits_value_bound(f.drop_first());
        lemma_pow10_mono(f.drop_first().len() as nat);
    }
}

proof fn lemma_pow10_mono(n: nat)
    requires
        n <= 4,
    ensures
        pow10(n) <= 10000,
{
    reveal_with_fuel(pow10, 5);
}

proof fn lemma_days_before_month_bound(y: int, k: int)
    requires
        0 <= k <= 12,
    ensures
        0 <= days_before_month(y, k) <= 31 * k,
    decreases k,
{
    if k > 0 {
        lemma_days_before_month_bound(y, k - 1);
    }
}

proof fn lemma_epoch_days_range(year: int, month: int, day: int)
    requires
        0 <= year <= 9999,
        0 <= day <= 9999,
    ensures
        -1000000 <= epoch_days(year, month, day) <= 4000000,
{
    let prior = if month <= 1 {
        0
    } else if month - 1 > 12 {
        12
    } else {
        month - 1
    };
    lemma_days_before_month_bound(year, prior);
    assert(0 <= leaps_through(year - 1) <= 2500) by {
        if year >= 1 {
            let y = year - 1;
            assert(y / 100 <= y / 4);
            assert(y / 400 <= y / 4);
        }
    }
}

/// Decimal digits of `n`, most significant first.
pub open spec fn decimal(n: nat) -> Seq<char>
    decreases n,
{
    if n < 10 {
        seq![digit_char(n)]
    } else {
        decimal(n / 10).push(digit_char(n % 10))
    }
}

/// The ASCII digit for `d < 10`.
pub open spec fn digit_char(d: nat) -> char {
    (d + 48) as char
}

/// `n` in decimal, left-padded with zeros to at least `width` characters
/// (`format!("{n:0width$}")`).
pub open spec fn zero_padded(n: nat, width: nat) -> Seq<char> {
    let d = decimal(n);
    Seq::new(if width > d.len() {
        (width - d.len()) as nat
    } else {
        0
    }, |i: int| '0') + d
}

/// ISO 8601 UTC text `YYYY-MM-DDTHH:MM:SSZ` of `secs` seconds since the epoch.
pub open spec fn iso_text(secs: nat) -> Seq<char> {
    let (y, m, d) = civil_of_days((secs / 86400) as int);
    zero_padded(y as nat, 4) + seq!['-'] + zero_padded(m as nat, 2) + seq!['-'] + zero_padded(
        d as nat,
        2,
    ) + seq!['T'] + zero_padded(((secs / 3600) % 24) as nat, 2) + seq![':'] + zero_padded(
        ((secs / 60) % 60) as nat,
        2,
    ) + seq![':'] + zero_padded((secs % 60) as nat, 2) + seq!['Z']
}

pub(crate) fn push_decimal(out: &mut String, n: u64)
    ensures
        final(out)@ == old(out)@ + decimal(n as nat),
    decreases n,
{
    if n >= 10 {
        push_decimal(out, n / 10);
    }
    let d = (n % 10) as u32;
    let c = char_from_digit(d);
    crate::text::push_char(out, c);
}

fn char_from_digit(d: u32) -> (c: char)
    requires
        d < 10,
    ensures
        c == digit_char(d as nat),
{
    if d == 0 {
        '0'
    } else if d == 1 {
        '1'
    } else if d == 2 {
        '2'
    } else if d == 3 {
        '3'
    } else if d == 4 {
        '4'
    } else if d == 5 {
        '5'
    } else if d == 6 {
        '6'
    } else if d == 7 {
        '7'
    } else if d == 8 {
        '8'
    } else {
        '9'
    }
}

fn decimal_len(n: u64) -> (r: usize)
    ensures
        r as int == decimal(n as nat).len(),
        r <= 20,
    decreases n,
{
    if n >= 10 {
        let k = decimal_len(n / 10);
        proof {
            lemma_decimal_len_bound((n / 10) as nat);
        }
        k + 1
    } else {
        1
    }
}

proof fn lemma_decimal_len_bound(n: nat)
    requires
        n <= u64::MAX / 10,
    ensures
        decimal(n).len() <= 19,
{
    assert(pow10(19) == 10000000000000000000) by {
        reveal_with_fuel(pow10, 20);
    }
    lemma_decimal_len_pow(n, 19);
}

proof fn lemma_decimal_len_pow(n: nat, k: nat)
    requires
        k >= 1,
        n < pow10(k),
    ensures
        decimal(n).len() <= k,
    decreases n,
{
    if n >= 10 {
        if k == 1 {
            assert(pow10(1) == 10) by {
                reveal_with_fuel(pow10, 2);
            }
        } else {
            assert(pow10(k) == 10 * pow10((k - 1) as nat));
            lemma_decimal_len_pow(n / 10, (k - 1) as nat);
        }
    }
}

fn push_zero_padded(out: &mut String, n: u64, width: usize)
    ensures
        final(out)@ == old(out)@ + zero_padded(n as nat, width as nat),
{
    let len = decimal_len(n);
    let ghost o0 = out@;
    let mut k: usize = len;
    while k < width
        invariant
            len <= k,
            k <= width || k == len,
            out@ == o0 + Seq::new((k - len) as nat, |i: int| '0'),
        decreases width - k,
    {
        crate::text::push_char(out, '0');
        assert(Seq::new((k + 1 - len) as nat, |i: int| '0') == Seq::new((k - len) as nat, |i: int| '0').push('0'));
        k += 1;
    }
    let ghost pad_len: nat = if width > len { (width - len) as nat } else { 0 };
    assert(Seq::new((k - len) as nat, |i: int| '0') == Seq::new(pad_len, |i: int| '0'));
    push_decimal(out, n);
}

/// Format `secs` seconds since the epoch as ISO 8601 UTC
/// (`YYYY-MM-DDTHH:MM:SSZ`).
pub fn iso_from_secs(secs: u64) -> (s: String)
    ensures
        s@ == iso_text(secs as nat),
{
    let (y, m, d) = days_to_ymd(secs / 86400);
    let hh = (secs / 3600) % 24;
    let mm = (secs / 60) % 60;
    let ss = secs % 60;
    let mut s = String::new();
    push_zero_padded(&mut s, y, 4);
    crate::text::push_char(&mut s, '-');
    push_zero_padded(&mut s, m, 2);
    crate::text::push_char(&mut s, '-');
    push_zero_padded(&mut s, d, 2);
    crate::text::push_char(&mut s, 'T');
    push_zero_padded(&mut s, hh, 2);
    crate::text::push_char(&mut s, ':');
    push_zero_padded(&mut s, mm, 2);
    crate::text::push_char(&mut s, ':');
    push_zero_padded(&mut s, ss, 2);
    crate::text::push_char(&mut s, 'Z');
    s
}

/// The system clock's time type, carried through opaquely.
#[verifier::external_type_specification]
#[verifier::external_body]
pub struct ExSystemTime(std::time::SystemTime);

/// The current time of the system clock (`SystemTime::now`). Nothing is
/// stated of it.
#[verifier::external_body]
fn system_now() -> std::time::SystemTime {
    std::time::SystemTime::now()
}

/// The time elapsed from the Unix epoch to `t`
/// (`SystemTime::duration_since(UNIX_EPOCH)`), `None` when `t` is earlier.
/// Nothing is stated of it.
#[verifier::external_body]
fn since_unix_epoch(t: &std::time::SystemTime) -> Option<std::time::Duration> {
    t.duration_since(std::time::SystemTime::UNIX_EPOCH).ok()
}

/// The whole seconds of a duration (`Duration::as_secs`). Nothing is stated
/// of them.
#[verifier::external_body]
fn whole_secs(d: &std::time::Duration) -> u64 {
    d.as_secs()
}

/// Seconds since the epoch from the system clock, 0 if the clock is before
/// the epoch.
pub(crate) fn unix_now_secs() -> u64 {
    let now = system_now();
    match since_unix_epoch(&now) {
        Some(d) => whole_secs(&d),
        None => 0,
    }
}

/// The current time as ISO 8601 UTC text.
pub fn now_iso() -> (s: String)
    ensures
        exists|t: u64| s@ == iso_text(t as nat),
{
    let now = unix_now_secs();
    iso_from_secs(now)
}

/// `now` minus `days` whole days in seconds, clamped at 0.
pub open spec fn cutoff_secs(now: int, days: int) -> nat {
    if now >= days * 86400 {
        (now - days * 86400) as nat
    } else {
        0
    }
}

/// ISO 8601 UTC text of `now_secs` minus `days` whole days, clamped at the epoch.
pub fn cutoff_timestamp_at(now_secs: u64, days: u64) -> (s: String)
    requires
        days <= u64::MAX / 86400,
    ensures
        s@ == iso_text(cutoff_secs(now_secs as int, days as int)),
{
    let back = days * 86400;
    let secs = if now_secs >= back {
        now_secs - back
    } else {
        0
    };
    iso_from_secs(secs)
}

/// ISO 8601 UTC text of the current time minus `days` whole days, clamped at
/// the epoch.
pub fn compute_cutoff_timestamp(days: u64) -> (s: String)
    requires
        days <= u64::MAX / 86400,
    ensures
        exists|now: u64| s@ == iso_text(#[trigger] cutoff_secs(now as int, days as int)),
{
    let now = unix_now_secs();
    cutoff_timestamp_at(now, days)
}

// ── Round trip between day numbers and civil dates ────

proof fn lemma_div_step(y: int, k: int)
    requires
        y >= 1,
        k > 0,
    ensures
        y / k - (y - 1) / k == (if y % k == 0 {
            1int
        } else {
            0int
        }),
{
    vstd::arithmetic::div_mod::lemma_fundamental_div_mod(y, k);
    vstd::arithmetic::div_mod::lemma_fundamental_div_mod(y - 1, k);
    vstd::arithmetic::div_mod::lemma_mod_bound(y, k);
    vstd::arithmetic::div_mod::lemma_mod_bound(y - 1, k);
    let q = y / k;
    assert(k * (q - 1) == k * q - k) by (nonlinear_arith);
    assert(q * k == k * q && (q - 1) * k == k * (q - 1)) by (nonlinear_arith);
    if y % k == 0 {
        assert(y - 1 == k * (y / k - 1) + (k - 1));
        vstd::arithmetic::div_mod::lemma_fundamental_div_mod_converse(y - 1, k, y / k - 1, k - 1);
    } else {
        assert(y - 1 == k * (y / k) + (y % k - 1));
        vstd::arithmetic::div_mod::lemma_fundamental_div_mod_converse(y - 1, k, y / k, y % k - 1);
    }
}

proof fn lemma_days_before_next_year(y: int)
    requires
        y >= 1,
    ensures
        days_before_year(y + 1) == days_before_year(y) + year_len(y),
{
    lemma_div_step(y, 4);
    lemma_div_step(y, 100);
    lemma_div_step(y, 400);
    if y % 400 == 0 {
        assert(y % 100 == 0 && y % 4 == 0) by {
            vstd::arithmetic::div_mod::lemma_mod_mod(y, 100, 4);
            vstd::arithmetic::div_mod::lemma_mod_mod(y, 4, 100);
        }
    } else if y % 100 == 0 {
        assert(y % 4 == 0) by {
            vstd::arithmetic::div_mod::lemma_mod_mod(y, 4, 25);
        }
    }
}

proof fn lemma_month_day_from(y: int, m: int, r: int)
    requires
        1 <= m <= 12,
        r >= 0,
    ensures
        m <= month_day_from(y, m, r).0 <= 12,
        month_day_from(y, m, r).1 >= 1,
        days_before_month(y, month_day_from(y, m, r).0 - 1) + month_day_from(y, m, r).1 - 1
            == days_before_month(y, m - 1) + r,
    decreases 12 - m,
{
    if m >= 12 || r < month_len(y, m) {
    } else {
        lemma_month_day_from(y, m + 1, r - month_len(y, m));
    }
}

proof fn lemma_civil_from(y: int, r: int)
    requires
        y >= 1970,
        r >= 0,
    ensures
        epoch_days(civil_from(y, r).0, civil_from(y, r).1, civil_from(y, r).2) == days_before_year(
            y,
        ) + r,
        y <= civil_from(y, r).0 <= y + r,
        days_before_year(civil_from(y, r).0) >= days_before_year(y),
        1 <= civil_from(y, r).1 <= 12,
    decreases r,
{
    if r < year_len(y) {
        lemma_month_day_from(y, 1, r);
    } else {
        lemma_civil_from(y + 1, r - year_len(y));
        lemma_days_before_next_year(y);
    }
}

proof fn lemma_epoch_days_of_civil(days: int)
    requires
        days >= 0,
    ensures
        epoch_days(civil_of_days(days).0, civil_of_days(days).1, civil_of_days(days).2) == days,
        1970 <= civil_of_days(days).0 <= 1970 + days,
        days_before_year(civil_of_days(days).0) >= days_before_year(1970),
        1 <= civil_of_days(days).1 <= 12,
{
    lemma_civil_from(1970, days);
}

/// Day numbers and civil dates convert into each other without loss: the
/// date that [`days_to_ymd`] gives for a day number is counted back to the
/// same number by [`days_since_epoch`], whose arithmetic stays in range there.
pub proof fn lemma_days_roundtrip(days: int)
    requires
        0 <= days <= 0x7fff_ffff_ffff,
    ensures
        epoch_days(civil_of_days(days).0, civil_of_days(days).1, civil_of_days(days).2) == days,
        days_since_epoch_in_range(civil_of_days(days).0, civil_of_days(days).1, civil_of_days(days).2),
        epoch_days_u64(civil_of_days(days).0, civil_of_days(days).1, civil_of_days(days).2) == days,
{
    lemma_epoch_days_of_civil(days);
    let (y, m, d) = civil_of_days(days);
    assert(leaps_through(1969) == 477);
    assert(days_before_year(1970) == 0);
    lemma_days_before_month_bound(y, prior_months(m));
}


// ── Round trip between timestamps and their text ─────

/// The bytes of a text of ASCII characters.
pub open spec fn ascii_bytes(s: Seq<char>) -> Seq<u8> {
    Seq::new(s.len(), |i: int| s[i] as u8)
}

proof fn lemma_decimal_value(n: nat)
    ensures
        decimal(n).len() >= 1,
        forall|i: int| 0 <= i < decimal(n).len() ==> '0' <= #[trigger] decimal(n)[i] <= '9',
        all_digits(ascii_bytes(decimal(n))),
        digits_value(ascii_bytes(decimal(n))) == n,
    decreases n,
{
    if n >= 10 {
        let q = n / 10;
        lemma_decimal_value(q);
        let d = decimal(q);
        let t = decimal(n);
        let b = ascii_bytes(t);
        assert(t == d.push(digit_char(n % 10)));
        assert(b.drop_last() =~= ascii_bytes(d));
        assert(b.last() == (n % 10) + 48);
        vstd::arithmetic::div_mod::lemma_fundamental_div_mod(n as int, 10);
        assert(digits_value(b) == digits_value(ascii_bytes(d)) * 10 + (n % 10));
        assert forall|i: int| 0 <= i < t.len() implies '0' <= #[trigger] t[i] <= '9' by {
            if i < d.len() {
                assert(t[i] == d[i]);
            }
        }
        assert forall|i: int| 0 <= i < b.len() implies 48 <= #[trigger] b[i] <= 57 by {
            if i < d.len() {
                assert(b[i] == ascii_bytes(d)[i]);
            }
        }
    } else {
        let b = ascii_bytes(decimal(n));
        assert(decimal(n) == seq![digit_char(n)]);
        assert(b.len() == 1);
        assert(b[0] == n + 48);
        assert(b.drop_last() =~= Seq::<u8>::empty());
        assert(digits_value(b.drop_last()) == 0);
        assert(b.last() == b[0]);
    }
}

proof fn lemma_zeros_value(k: nat)
    ensures
        digits_value(ascii_bytes(Seq::new(k, |i: int| '0'))) == 0,
        all_digits(ascii_bytes(Seq::new(k, |i: int| '0'))),
    decreases k,
{
    if k > 0 {
        lemma_zeros_value((k - 1) as nat);
        let b = ascii_bytes(Seq::new(k, |i: int| '0'));
        assert(b.drop_last() =~= ascii_bytes(Seq::new((k - 1) as nat, |i: int| '0')));
    }
}

proof fn lemma_leading_zeros(k: nat, x: Seq<char>)
    requires
        all_digits(ascii_bytes(x)),
    ensures
        digits_value(ascii_bytes(Seq::new(k, |i: int| '0') + x)) == digits_value(ascii_bytes(x)),
        all_digits(ascii_bytes(Seq::new(k, |i: int| '0') + x)),
    decreases x.len(),
{
    let z = Seq::new(k, |i: int| '0');
    lemma_zeros_value(k);
    if x.len() == 0 {
        assert(z + x =~= z);
    } else {
        let xd = x.drop_last();
        assert(all_digits(ascii_bytes(xd))) by {
            assert forall|i: int| 0 <= i < ascii_bytes(xd).len() implies 48 <= #[trigger] ascii_bytes(xd)[i]
                <= 57 by {
                assert(ascii_bytes(xd)[i] == ascii_bytes(x)[i]);
            }
        }
        lemma_leading_zeros(k, xd);
        let b = ascii_bytes(z + x);
        assert(b.drop_last() =~= ascii_bytes(z + xd));
        assert(b.last() == ascii_bytes(x).last());
        assert(ascii_bytes(x).drop_last() =~= ascii_bytes(xd));
        assert forall|i: int| 0 <= i < b.len() implies 48 <= #[trigger] b[i] <= 57 by {
            if i < k {
                assert(b[i] == ascii_bytes(z)[i]);
            } else {
                assert(b[i] == ascii_bytes(x)[i - k]);
            }
        }
    }
}

proof fn lemma_zero_padded(n: nat, w: nat)
    requires
        1 <= w,
        n < pow10(w),
    ensures
        zero_padded(n, w).len() == w,
        all_digits(ascii_bytes(zero_padded(n, w))),
        digits_value(ascii_bytes(zero_padded(n, w))) == n,
        forall|i: int| 0 <= i < w ==> '0' <= #[trigger] zero_padded(n, w)[i] <= '9',
{
    lemma_decimal_value(n);
    lemma_decimal_len_pow(n, w);
    let d = decimal(n);
    let k = (w - d.len()) as nat;
    lemma_leading_zeros(k, d);
    let p = zero_padded(n, w);
    assert(p == Seq::new(k, |i: int| '0') + d);
    assert forall|i: int| 0 <= i < w implies '0' <= #[trigger] p[i] <= '9' by {
        if i >= k {
            assert(p[i] == d[i - k]);
        }
    }
}

proof fn lemma_month_day_bound(y: int, m: int, r: int)
    requires
        1 <= m <= 12,
        0 <= r < year_len(y) - days_before_month(y, m - 1),
    ensures
        month_day_from(y, m, r).1 <= 31,
    decreases 12 - m,
{
    reveal_with_fuel(days_before_month, 13);
    if m >= 12 {
        assert(days_before_month(y, 11) + 31 == year_len(y));
    } else if r < month_len(y, m) {
    } else {
        lemma_month_day_bound(y, m + 1, r - month_len(y, m));
    }
}

proof fn lemma_civil_fields(y: int, r: int)
    requires
        r >= 0,
    ensures
        civil_from(y, r).0 >= y,
        1 <= civil_from(y, r).1 <= 12,
        1 <= civil_from(y, r).2 <= 31,
    decreases r,
{
    if r < year_len(y) {
        lemma_month_day_from(y, 1, r);
        lemma_month_day_bound(y, 1, r);
    } else {
        lemma_civil_fields(y + 1, r - year_len(y));
    }
}

proof fn lemma_split_secs(t: int)
    requires
        t >= 0,
    ensures
        (t / 86400) * 86400 + ((t / 3600) % 24) * 3600 + ((t / 60) % 60) * 60 + t % 60 == t,
{
    vstd::arithmetic::div_mod::lemma_fundamental_div_mod(t, 60);
    vstd::arithmetic::div_mod::lemma_fundamental_div_mod(t / 60, 60);
    vstd::arithmetic::div_mod::lemma_fundamental_div_mod(t / 3600, 24);
    vstd::arithmetic::div_mod::lemma_div_denominator(t, 60, 60);
    vstd::arithmetic::div_mod::lemma_div_denominator(t, 3600, 24);
    assert((t / 60) / 60 == t / 3600);
    assert((t / 3600) / 24 == t / 86400);
}

proof fn lemma_field_of(b: Seq<u8>, lo: int, f: Seq<char>, n: nat, default: int)
    requires
        0 <= lo,
        lo + f.len() <= b.len(),
        f.len() >= 1,
        b.subrange(lo, lo + f.len()) == ascii_bytes(f),
        all_digits(ascii_bytes(f)),
        digits_value(ascii_bytes(f)) == n,
    ensures
        field_or(b, lo, lo + f.len(), default) == n,
{
}

/// Reading back a written timestamp gives the same second: the text that
/// [`iso_from_secs`] writes for `t` is parsed by [`parse_iso_to_secs`] back
/// to `t`, for every time whose year has at most four digits.
pub proof fn lemma_iso_round_trip(t: nat, s: &str)
    requires
        civil_of_days((t / 86400) as int).0 < 10000,
        s@ == iso_text(t),
    ensures
        iso_fields_on_boundaries(s.spec_bytes()),
        iso_secs(s.spec_bytes()) == t,
{
    let days = (t / 86400) as int;
    let (y, m, d) = civil_of_days(days);
    let hh = ((t / 3600) % 24) as nat;
    let mi = ((t / 60) % 60) as nat;
    let ss = (t % 60) as nat;
    lemma_civil_fields(1970, days);
    reveal_with_fuel(pow10, 5);
    lemma_zero_padded(y as nat, 4);
    lemma_zero_padded(m as nat, 2);
    lemma_zero_padded(d as nat, 2);
    lemma_zero_padded(hh, 2);
    lemma_zero_padded(mi, 2);
    lemma_zero_padded(ss, 2);
    let fy = zero_padded(y as nat, 4);
    let fm = zero_padded(m as nat, 2);
    let fd = zero_padded(d as nat, 2);
    let fh = zero_padded(hh, 2);
    let fi = zero_padded(mi, 2);
    let fs = zero_padded(ss, 2);
    let text = iso_text(t);
    assert(text == fy + seq!['-'] + fm + seq!['-'] + fd + seq!['T'] + fh + seq![':'] + fi + seq![':'] + fs
        + seq!['Z']);
    assert(text.len() == 20);
    assert(vstd::utf8::is_ascii_chars(text)) by {
        assert forall|i: int| 0 <= i < text.len() implies '\0' <= #[trigger] text[i] <= '\u{7f}' by {
            if i < 4 {
                assert(text[i] == fy[i]);
            } else if i == 4 || i == 7 || i == 10 || i == 13 || i == 16 || i == 19 {
            } else if i < 7 {
                assert(text[i] == fm[i - 5]);
            } else if i < 10 {
                assert(text[i] == fd[i - 8]);
            } else if i < 13 {
                assert(text[i] == fh[i - 11]);
            } else if i < 16 {
                assert(text[i] == fi[i - 14]);
            } else {
                assert(text[i] == fs[i - 17]);
            }
        }
    }
    vstd::string::is_ascii_spec_bytes(s);
    let b = s.spec_bytes();
    assert(b =~= ascii_bytes(text));
    assert(b.subrange(0, 4) =~= ascii_bytes(fy));
    assert(b.subrange(5, 7) =~= ascii_bytes(fm));
    assert(b.subrange(8, 10) =~= ascii_bytes(fd));
    assert(b.subrange(11, 13) =~= ascii_bytes(fh));
    assert(b.subrange(14, 16) =~= ascii_bytes(fi));
    assert(b.subrange(17, 19) =~= ascii_bytes(fs));
    lemma_field_of(b, 0, fy, y as nat, 0);
    lemma_field_of(b, 5, fm, m as nat, 1);
    lemma_field_of(b, 8, fd, d as nat, 1);
    lemma_field_of(b, 11, fh, hh, 0);
    lemma_field_of(b, 14, fi, mi, 0);
    lemma_field_of(b, 17, fs, ss, 0);
    lemma_epoch_days_of_civil(days);
    lemma_split_secs(t as int);
    vstd::utf8::encode_utf8_valid_utf8(s@);
    assert forall|k: int| is_iso_field_edge(k) implies vstd::utf8::is_char_boundary(b, k) by {
        vstd::utf8::is_char_boundary_iff_not_is_continuation_byte(b, k);
    }
}

// ── Lifecycle statements ──────────────────────────────

/// Records one access of node `?2` at time `?1`.
pub const TOUCH_NODE_SQL: &'static str = "UPDATE nodes SET access_count = access_count + 1, accessed_at = ?1 WHERE id = ?2";

/// Decays by factor `?2`, never below floor `?3`, the importance of nodes
/// neither accessed nor updated since `?1`; pinned nodes are left alone.
pub const DECAY_IMPORTANCE_SQL: &'static str = "UPDATE nodes SET importance = MAX(?3, importance * ?2)\n             WHERE (accessed_at < ?1 OR accessed_at = '')\n               AND updated < ?1\n               AND importance > ?3\n               AND ',' || tags || ',' NOT LIKE '%,pinned,%'";

/// Tags `stale` every node not updated since `?1` that is not tagged so yet.
pub const TAG_STALE_SQL: &'static str = "UPDATE nodes SET tags = CASE\n                WHEN tags = '' THEN 'stale'\n                WHEN ',' || tags || ',' NOT LIKE '%,stale,%' THEN tags || ',stale'\n                ELSE tags\n             END\n             WHERE updated < ?1\n               AND ',' || tags || ',' NOT LIKE '%,stale,%'";

} // verus!
