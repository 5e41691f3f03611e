//! Formatting of the metadata that can accompany an entry: permission bits,
//! sizes and modification dates.

use vstd::prelude::*;

verus! {

use crate::text::{
    decimal, digit_char, digit_of, four_or_more_digits, push_char, push_decimal,
    push_four_or_more_digits,
    push_two_digits, two_digits,
};

/// The character shown for one permission bit.
pub open spec fn perm_flag(mode: u32, bit: u32, c: char) -> char {
    if mode & bit != 0 {
        c
    } else {
        '-'
    }
}

/// `[drwxrwxrwx]`: the kind of entry, then read/write/execute for owner,
/// group and others.
pub open spec fn permissions_text(mode: u32, is_dir: bool) -> Seq<char> {
    seq![
        '[',
        if is_dir { 'd' } else { '-' },
        perm_flag(mode, 0o400, 'r'),
        perm_flag(mode, 0o200, 'w'),
        perm_flag(mode, 0o100, 'x'),
        perm_flag(mode, 0o040, 'r'),
        perm_flag(mode, 0o020, 'w'),
        perm_flag(mode, 0o010, 'x'),
        perm_flag(mode, 0o004, 'r'),
        perm_flag(mode, 0o002, 'w'),
        perm_flag(mode, 0o001, 'x'),
        ']',
    ]
}

fn push_flag(out: &mut String, mode: u32, bit: u32, c: char)
    ensures
        final(out)@ == old(out)@.push(perm_flag(mode, bit, c)),
{
    if mode & bit != 0 {
        push_char(out, c);
    } else {
        push_char(out, '-');
    }
}

pub fn format_permissions(mode: u32, is_dir: bool) -> (r: String)
    ensures
        r@ == permissions_text(mode, is_dir),
{
    let mut out = String::new();
    push_char(&mut out, '[');
    if is_dir {
        push_char(&mut out, 'd');
    } else {
        push_char(&mut out, '-');
    }
    push_flag(&mut out, mode, 0o400, 'r');
    push_flag(&mut out, mode, 0o200, 'w');
    push_flag(&mut out, mode, 0o100, 'x');
    push_flag(&mut out, mode, 0o040, 'r');
    push_flag(&mut out, mode, 0o020, 'w');
    push_flag(&mut out, mode, 0o010, 'x');
    push_flag(&mut out, mode, 0o004, 'r');
    push_flag(&mut out, mode, 0o002, 'w');
    push_flag(&mut out, mode, 0o001, 'x');
    push_char(&mut out, ']');
    assert(out@ =~= permissions_text(mode, is_dir));
    out
}

/// `1024^i`.
pub open spec fn pow1024(i: nat) -> nat
    decreases i,
{
    if i == 0 {
        1
    } else {
        1024 * pow1024((i - 1) as nat)
    }
}

/// The largest `i` with `1024^i <= bytes` (zero for `bytes == 0`).
pub open spec fn size_scale(bytes: nat) -> nat
    decreases bytes,
{
    if bytes < 1024 {
        0
    } else {
        1 + size_scale(bytes / 1024)
    }
}

/// The name of the unit `1024^i` bytes.
pub open spec fn unit_name(i: nat) -> Seq<char> {
    if i == 0 {
        seq!['B']
    } else if i == 1 {
        seq!['K', 'B']
    } else if i == 2 {
        seq!['M', 'B']
    } else if i == 3 {
        seq!['G', 'B']
    } else {
        seq!['T', 'B']
    }
}

/// `n / d` rounded to the nearest integer, ties to the even one.
pub open spec fn div_round_even(n: nat, d: nat) -> nat
    recommends
        d > 0,
{
    let q = n / d;
    let r = n % d;
    if 2 * r > d || (2 * r == d && q % 2 == 1) {
        q + 1
    } else {
        q
    }
}

/// A byte count in the largest unit (up to TB) that is at most the count,
/// with one decimal in every unit but bytes.
pub open spec fn size_text(bytes: nat) -> Seq<char> {
    let i = if size_scale(bytes) > 4 {
        4
    } else {
        size_scale(bytes)
    };
    if i == 0 {
        decimal(bytes) + seq![' ', 'B']
    } else {
        let tenths = div_round_even(10 * bytes, pow1024(i));
        decimal(tenths / 10) + seq!['.', digit_char(tenths % 10), ' '] + unit_name(i)
    }
}

proof fn lemma_pow1024_positive(i: nat)
    ensures
        pow1024(i) >= 1,
    decreases i,
{
    if i > 0 {
        lemma_pow1024_positive((i - 1) as nat);
    }
}

pub fn format_file_size(bytes: u64) -> (r: String)
    ensures
        r@ == size_text(bytes as nat),
{
    let mut i: u64 = 0;
    let mut rest: u64 = bytes;
    let mut unit: u64 = 1;
    while rest >= 1024 && i < 4
        invariant
            size_scale(bytes as nat) == i + size_scale(rest as nat),
            unit == pow1024(i as nat),
            rest as nat == bytes as nat / unit as nat,
            i <= 4,
            unit as nat * rest as nat <= bytes,
        decreases rest,
    {
        proof {
            lemma_pow1024_positive(i as nat);
            vstd::arithmetic::div_mod::lemma_div_denominator(bytes as int, unit as int, 1024);
            assert(rest >= 1024);
            assert(unit as nat * 1024 <= unit as nat * rest as nat) by (nonlinear_arith)
                requires rest >= 1024;
        }
        i = i + 1;
        unit = unit * 1024;
        rest = rest / 1024;
        proof {
            assert(unit as nat * rest as nat <= bytes) by (nonlinear_arith)
                requires rest as nat == bytes as nat / unit as nat, unit > 0;
        }
    }
    let mut out = String::new();
    assert(i == if size_scale(bytes as nat) > 4 { 4 } else { size_scale(bytes as nat) });
    if i == 0 {
        push_decimal(&mut out, bytes);
        push_char(&mut out, ' ');
        push_char(&mut out, 'B');
        assert(out@ =~= size_text(bytes as nat));
    } else {
        proof {
            lemma_pow1024_positive(i as nat);
        }
        let n: u128 = 10 * bytes as u128;
        let q: u128 = n / unit as u128;
        let rem: u128 = n % unit as u128;
        let tenths: u128 = if 2 * rem > unit as u128 || (2 * rem == unit as u128 && q % 2 == 1) {
            q + 1
        } else {
            q
        };
        proof {
            assert(q <= n);
        }
        push_decimal(&mut out, (tenths / 10) as u64);
        push_char(&mut out, '.');
        push_char(&mut out, digit_of((tenths % 10) as u64));
        push_char(&mut out, ' ');
        if i == 1 {
            push_char(&mut out, 'K');
        } else if i == 2 {
            push_char(&mut out, 'M');
        } else if i == 3 {
            push_char(&mut out, 'G');
        } else {
            push_char(&mut out, 'T');
        }
        push_char(&mut out, 'B');
        assert(out@ =~= size_text(bytes as nat));
    }
    out
}

/// A point in time: whole seconds since 1970-01-01 00:00:00 UTC (negative
/// before it), and the nanoseconds past that second.
#[derive(Clone, Copy, Debug, PartialEq, Eq, Hash)]
pub struct Timestamp {
    pub secs: i64,
    pub nanos: u32,
}

impl Timestamp {
    /// The start of 1970-01-01 UTC.
    pub fn epoch() -> (r: Timestamp)
        ensures
            r.secs == 0 && r.nanos == 0,
    {
        Timestamp { secs: 0, nanos: 0 }
    }

    /// A whole number of seconds after (or, negative, before) the epoch.
    pub fn from_secs(secs: i64) -> (r: Timestamp)
        ensures
            r.secs == secs && r.nanos == 0,
    {
        Timestamp { secs, nanos: 0 }
    }
}

pub open spec fn is_leap_year(y: nat) -> bool {
    (y % 4 == 0 && y % 100 != 0) || y % 400 == 0
}

pub open spec fn year_length(y: nat) -> nat {
    if is_leap_year(y) {
        366
    } else {
        365
    }
}

/// Days in month `m` (1 to 12) of year `y`.
pub open spec fn month_length(y: nat, m: nat) -> nat {
    if m == 2 {
        if is_leap_year(y) {
            29
        } else {
            28
        }
    } else if m == 4 || m == 6 || m == 9 || m == 11 {
        30
    } else {
        31
    }
}

/// The year that holds day `days` counted from the start of year `y`, and
/// the day's 0-based index within it.
pub open spec fn civil_year(days: nat, y: nat) -> (nat, nat)
    decreases days,
{
    if days < year_length(y) {
        (y, days)
    } else {
        civil_year((days - year_length(y)) as nat, y + 1)
    }
}

/// The month that holds day `doy` counted from the start of month `m` of
/// year `y`, and the 1-based day within it.
pub open spec fn civil_month(doy: nat, y: nat, m: nat) -> (nat, nat)
    decreases 12 - m,
{
    if m >= 12 || doy < month_length(y, m) {
        (m, doy + 1)
    } else {
        civil_month((doy - month_length(y, m)) as nat, y, m + 1)
    }
}

/// `YYYY-MM-DD HH:MM:SS`, in UTC, for a count of seconds since the epoch
/// (the year has four digits or more).
pub open spec fn date_text(secs: nat) -> Seq<char> {
    let (y, doy) = civil_year(secs / 86400, 1970);
    let (m, d) = civil_month(doy, y, 1);
    four_or_more_digits(y) + seq!['-'] + two_digits(m) + seq!['-'] + two_digits(d) + seq![' ']
        + two_digits((secs / 3600) % 24) + seq![':'] + two_digits((secs / 60) % 60) + seq![':']
        + two_digits(secs % 60)
}

/// The number of days in years `y` to `y + k - 1`.
pub open spec fn years_span(y: nat, k: nat) -> nat
    decreases k,
{
    if k == 0 {
        0
    } else {
        year_length(y) + years_span(y + 1, (k - 1) as nat)
    }
}

/// The number of leap years from year 1 to year `n`.
pub open spec fn leap_years_through(n: int) -> int {
    n / 4 - n / 100 + n / 400
}

proof fn lemma_year_length_by_leaps(n: int)
    requires
        n >= 1,
    ensures
        year_length(n as nat) == 365 + leap_years_through(n) - leap_years_through(n - 1),
{
    assert(n / 4 - (n - 1) / 4 == if n % 4 == 0 { 1int } else { 0int });
    assert(n / 100 - (n - 1) / 100 == if n % 100 == 0 { 1int } else { 0int });
    assert(n / 400 - (n - 1) / 400 == if n % 400 == 0 { 1int } else { 0int });
}

proof fn lemma_years_span_closed(y: nat, k: nat)
    requires
        y >= 1,
    ensures
        years_span(y, k) == 365 * k + leap_years_through(y + k - 1) - leap_years_through(y - 1),
    decreases k,
{
    if k > 0 {
        lemma_year_length_by_leaps(y as int);
        lemma_years_span_closed(y + 1, (k - 1) as nat);
    }
}

/// Every 400 consecutive years hold 146097 days.
proof fn lemma_four_centuries(y: nat)
    requires
        y >= 1,
    ensures
        years_span(y, 400) == 146097,
{
    lemma_years_span_closed(y, 400);
    let n = y - 1;
    assert((n + 400) / 4 == n / 4 + 100);
    assert((n + 400) / 100 == n / 100 + 4);
    assert((n + 400) / 400 == n / 400 + 1);
}

proof fn lemma_civil_year_skip(days: nat, y: nat, k: nat)
    requires
        days >= years_span(y, k),
    ensures
        civil_year(days, y) == civil_year((days - years_span(y, k)) as nat, y + k),
    decreases k,
{
    if k > 0 {
        lemma_civil_year_skip((days - year_length(y)) as nat, y + 1, (k - 1) as nat);
    }
}

/// The text shown for a date before the epoch.
pub open spec fn unknown_date_text() -> Seq<char> {
    seq!['U', 'n', 'k', 'n', 'o', 'w', 'n', ' ', 'd', 'a', 't', 'e']
}

pub open spec fn timestamp_text(t: Timestamp) -> Seq<char> {
    if t.secs < 0 {
        unknown_date_text()
    } else {
        date_text(t.secs as nat)
    }
}

pub(crate) fn push_unknown_date(out: &mut String)
    ensures
        final(out)@ == old(out)@ + unknown_date_text(),
{
    push_char(out, 'U');
    push_char(out, 'n');
    push_char(out, 'k');
    push_char(out, 'n');
    push_char(out, 'o');
    push_char(out, 'w');
    push_char(out, 'n');
    push_char(out, ' ');
    push_char(out, 'd');
    push_char(out, 'a');
    push_char(out, 't');
    push_char(out, 'e');
    assert(final(out)@ =~= old(out)@ + unknown_date_text());
}

fn leap(y: u64) -> (r: bool)
    ensures
        r == is_leap_year(y as nat),
{
    (y % 4 == 0 && y % 100 != 0) || y % 400 == 0
}

fn days_in_year(y: u64) -> (r: u64)
    ensures
        r == year_length(y as nat),
{
    if leap(y) {
        366
    } else {
        365
    }
}

fn days_in_month(y: u64, m: u64) -> (r: u64)
    ensures
        r == month_length(y as nat, m as nat),
{
    if m == 2 {
        if leap(y) {
            29
        } else {
            28
        }
    } else if m == 4 || m == 6 || m == 9 || m == 11 {
        30
    } else {
        31
    }
}

proof fn lemma_civil_month_bound(doy: nat, y: nat, m: nat)
    requires
        1 <= m <= 12,
    ensures
        1 <= civil_month(doy, y, m).0 <= 12,
    decreases 12 - m,
{
    if !(m >= 12 || doy < month_length(y, m)) {
        lemma_civil_month_bound((doy - month_length(y, m)) as nat, y, m + 1);
    }
}

pub fn format_date(time: Timestamp) -> (r: String)
    ensures
        r@ == timestamp_text(time),
{
    let mut out = String::new();
    if time.secs < 0 {
        push_unknown_date(&mut out);
        return out;
    }
    let secs = time.secs as u64;
    let days0: u64 = secs / 86400;
    let mut days: u64 = days0;
    let mut year: u64 = 1970;
    while days >= 146097
        invariant
            civil_year(days as nat, year as nat) == civil_year(days0 as nat, 1970),
            days <= days0 <= u64::MAX / 86400,
            1970 <= year <= 1970 + days0 - days,
        decreases days,
    {
        proof {
            lemma_four_centuries(year as nat);
            lemma_civil_year_skip(days as nat, year as nat, 400);
        }
        days = days - 146097;
        year = year + 400;
    }
    while days >= days_in_year(year)
        invariant
            civil_year(days as nat, year as nat) == civil_year(days0 as nat, 1970),
            days <= days0 <= u64::MAX / 86400,
            1970 <= year <= 1970 + days0 - days,
        decreases days,
    {
        days = days - days_in_year(year);
        year = year + 1;
    }
    let mut month: u64 = 1;
    while month < 12 && days >= days_in_month(year, month)
        invariant
            civil_month(days as nat, year as nat, month as nat) == civil_month(
                civil_year(days0 as nat, 1970).1,
                civil_year(days0 as nat, 1970).0,
                1,
            ),
            year as nat == civil_year(days0 as nat, 1970).0,
            1 <= month <= 12,
            days <= days0,
        decreases 12 - month,
    {
        days = days - days_in_month(year, month);
        month = month + 1;
    }
    proof {
        lemma_civil_month_bound(civil_year(days0 as nat, 1970).1, year as nat, 1);
    }
    push_four_or_more_digits(&mut out, year);
    push_char(&mut out, '-');
    push_two_digits(&mut out, month);
    push_char(&mut out, '-');
    push_two_digits(&mut out, days + 1);
    push_char(&mut out, ' ');
    push_two_digits(&mut out, (secs / 3600) % 24);
    push_char(&mut out, ':');
    push_two_digits(&mut out, (secs / 60) % 60);
    push_char(&mut out, ':');
    push_two_digits(&mut out, secs % 60);
    assert(out@ =~= timestamp_text(time));
    out
}

} // verus!
