//! The daemon's own bookkeeping: how many workers it lets in, what it takes
//! from its environment, and how it stamps the lines of its log.
use crate::text::{
    decimal, decimal_text, digit_char, digit_of, digits_value, is_digit, law_decimal_reads_back,
};
use vstd::prelude::*;
use vstd::string::*;

verus! {

/// How many connections are served at one time unless the environment says
/// otherwise.
pub const DEFAULT_MAX_INFLIGHT: usize = 16;

/// A variable of the environment.
#[derive(Debug, PartialEq, Eq)]
pub enum EnvVar {
    Unset,
    NotUnicode,
    Text(String),
}

/// Whether `s` is a decimal numeral: digits, with or without a plus before them.
pub open spec fn is_numeral(s: Seq<char>) -> bool {
    let digits = numeral_digits(s);
    digits.len() > 0 && forall|i: int| 0 <= i < digits.len() ==> is_digit(#[trigger] digits[i])
}

/// The digits of a numeral.
pub open spec fn numeral_digits(s: Seq<char>) -> Seq<char> {
    if s.len() > 0 && s[0] == '+' {
        s.drop_first()
    } else {
        s
    }
}

/// Whether `s` is a decimal numeral whose value fits into `usize`.
pub open spec fn is_size(s: Seq<char>) -> bool {
    is_numeral(s) && digits_value(numeral_digits(s)) <= usize::MAX
}

/// What the standard library says of a text that is no number of its type.
pub uninterp spec fn number_error(s: Seq<char>) -> Seq<char>;

/// `str::parse` to `usize`, the error by its message: the number that the text
/// stands for, where it is a decimal numeral, with or without a plus before it,
/// whose value fits. The message for any other text is given a name and not
/// spelled out.
#[verifier::external_body]
fn parse_usize(s: &str) -> (r: Result<usize, String>)
    ensures
        r is Ok == is_size(s@),
        r matches Ok(n) ==> n == digits_value(numeral_digits(s@)),
        r matches Err(e) ==> e@ == number_error(s@),
{
    s.parse::<usize>().map_err(|e| e.to_string())
}

/// What is wrong with a limit that is no number.
pub open spec fn not_a_number_text(s: Seq<char>, why: Seq<char>) -> Seq<char> {
    "VETTERD_MAX_INFLIGHT=`"@ + s + "` is not a non-negative integer: "@ + why
}

/// What is wrong with a limit of zero.
pub open spec fn zero_limit_text(s: Seq<char>) -> Seq<char> {
    "VETTERD_MAX_INFLIGHT must be > 0 (got `"@ + s + "`)"@
}

/// The limit for a text that was read as `number`.
pub fn inflight_limit(s: &str, number: Result<usize, String>) -> (r: Result<usize, String>)
    ensures
        match number {
            Ok(n) => if n > 0 {
                r == Ok::<usize, String>(n)
            } else {
                r matches Err(e) && e@ == zero_limit_text(s@)
            },
            Err(why) => r matches Err(e) && e@ == not_a_number_text(s@, why@),
        },
{
    match number {
        Ok(n) => {
            if n > 0 {
                return Ok(n);
            }
            let mut e = "VETTERD_MAX_INFLIGHT must be > 0 (got `".to_owned();
            e.append(s);
            e.append("`)");
            Err(e)
        },
        Err(why) => {
            let mut e = "VETTERD_MAX_INFLIGHT=`".to_owned();
            e.append(s);
            e.append("` is not a non-negative integer: ");
            e.append(why.as_str());
            Err(e)
        },
    }
}

/// The limit on connections served at one time, from the value of
/// `$VETTERD_MAX_INFLIGHT`. A value that makes no sense is an error: the daemon
/// does not start with a limit that nobody asked for.
pub fn max_inflight_from_env(value: &EnvVar) -> (r: Result<usize, String>)
    ensures
        match *value {
            EnvVar::Unset => r == Ok::<usize, String>(DEFAULT_MAX_INFLIGHT),
            EnvVar::NotUnicode => r matches Err(e) && e@
                == "VETTERD_MAX_INFLIGHT contains non-UTF-8 bytes"@,
            EnvVar::Text(s) => if is_size(s@) {
                let n = digits_value(numeral_digits(s@));
                if n > 0 {
                    r matches Ok(limit) && limit == n
                } else {
                    r matches Err(e) && e@ == zero_limit_text(s@)
                }
            } else {
                r matches Err(e) && e@ == not_a_number_text(s@, number_error(s@))
            },
        },
{
    match value {
        EnvVar::Unset => Ok(DEFAULT_MAX_INFLIGHT),
        EnvVar::NotUnicode => Err("VETTERD_MAX_INFLIGHT contains non-UTF-8 bytes".to_owned()),
        EnvVar::Text(s) => inflight_limit(s.as_str(), parse_usize(s.as_str())),
    }
}

/// How many connections are being served, and how many may be.
#[derive(Debug, Clone, Copy, PartialEq, Eq, Structural)]
pub struct Inflight {
    live: usize,
    cap: usize,
}

impl Inflight {
    pub closed spec fn served(self) -> usize {
        self.live
    }

    pub closed spec fn limit(self) -> usize {
        self.cap
    }

    /// Never are more connections served than may be.
    pub open spec fn wf(self) -> bool {
        self.served() <= self.limit()
    }

    pub fn new(cap: usize) -> (r: Inflight)
        ensures
            r.wf(),
            r.served() == 0,
            r.limit() == cap,
    {
        Inflight { live: 0, cap }
    }

    /// Lets a connection in where there is room, and says whether it did.
    pub fn enter(&mut self) -> (admitted: bool)
        requires
            old(self).wf(),
        ensures
            final(self).wf(),
            final(self).limit() == old(self).limit(),
            admitted == (old(self).served() < old(self).limit()),
            final(self).served() == old(self).served() + (if admitted {
                1int
            } else {
                0int
            }),
    {
        if self.live >= self.cap {
            return false;
        }
        self.live = self.live + 1;
        true
    }

    /// Gives back the place of a connection that was let in.
    pub fn leave(&mut self)
        requires
            old(self).wf(),
            old(self).served() > 0,
        ensures
            final(self).wf(),
            final(self).limit() == old(self).limit(),
            final(self).served() == old(self).served() - 1,
    {
        self.live = self.live - 1;
    }
}

pub open spec fn is_leap(year: nat) -> bool {
    year % 4 == 0 && (year % 100 != 0 || year % 400 == 0)
}

pub open spec fn days_in_month(year: nat, month: nat) -> nat {
    if month == 2 {
        if is_leap(year) {
            29
        } else {
            28
        }
    } else if month == 4 || month == 6 || month == 9 || month == 11 {
        30
    } else {
        31
    }
}

/// The days of a year before the first of `month`.
pub open spec fn days_before_month(year: nat, month: nat) -> nat
    decreases month,
{
    if month <= 1 {
        0
    } else {
        days_before_month(year, (month - 1) as nat) + days_in_month(year, (month - 1) as nat)
    }
}

/// The days from the first day of the year 0 to the first day of `year`.
pub open spec fn days_before_year(year: nat) -> int {
    365 * year + (year + 3) / 4 - (year + 99) / 100 + (year + 399) / 400
}

/// Whether the day that comes `days` after the first of January 1970 is the day
/// `day` of `month` of `year`.
pub open spec fn is_date(days: int, year: nat, month: nat, day: nat) -> bool {
    &&& 1 <= month <= 12
    &&& 1 <= day <= days_in_month(year, month)
    &&& days_before_year(year) - days_before_year(1970) + days_before_month(year, month) + day - 1
        == days
}

/// The last `width` decimal digits of `n`, with zeros in front where it has
/// fewer.
pub open spec fn fixed(n: nat, width: nat) -> Seq<char>
    decreases width,
{
    if width == 0 {
        Seq::empty()
    } else {
        fixed(n / 10, (width - 1) as nat).push(digit_char(n % 10))
    }
}

/// A point in time in the form of RFC 3339, in UTC.
pub open spec fn stamp(year: nat, month: nat, day: nat, second_of_day: nat, nanos: nat) -> Seq<char> {
    decimal(year) + "-"@ + fixed(month, 2) + "-"@ + fixed(day, 2) + "T"@ + fixed(
        second_of_day / 3600,
        2,
    ) + ":"@ + fixed(second_of_day / 60 % 60, 2) + ":"@ + fixed(second_of_day % 60, 2) + "."@ + fixed(
        nanos,
        9,
    ) + "Z"@
}

fn fixed_text(n: u64, width: u64) -> (r: String)
    ensures
        r@ == fixed(n as nat, width as nat),
    decreases width,
{
    if width == 0 {
        return String::new();
    }
    let mut out = fixed_text(n / 10, width - 1);
    out.push(digit_of((n % 10) as u8));
    out
}

proof fn lemma_year_length(year: nat)
    ensures
        days_before_year(year + 1) - days_before_year(year) == (if is_leap(year) {
            366int
        } else {
            365int
        }),
{
}

proof fn lemma_cycle(year: nat)
    ensures
        days_before_year(year + 400) == days_before_year(year) + 146097,
{
    assert((year + 403) / 4 == (year + 3) / 4 + 100);
    assert((year + 499) / 100 == (year + 99) / 100 + 4);
    assert((year + 799) / 400 == (year + 399) / 400 + 1);
}

proof fn lemma_four_centuries(year: nat, n: nat)
    ensures
        days_before_year(year + 400 * n) == days_before_year(year) + 146097 * n,
    decreases n,
{
    if n > 0 {
        let before: nat = (n - 1) as nat;
        lemma_four_centuries(year, before);
        lemma_cycle(year + 400 * before);
        assert(year + 400 * before + 400 == year + 400 * n);
    }
}

proof fn lemma_months(year: nat)
    ensures
        days_before_month(year, 13) == (if is_leap(year) {
            366nat
        } else {
            365nat
        }),
{
    reveal_with_fuel(days_before_month, 14);
}

fn leap(year: u64) -> (r: bool)
    ensures
        r == is_leap(year as nat),
{
    year % 4 == 0 && (year % 100 != 0 || year % 400 == 0)
}

fn month_length(year: u64, month: u64) -> (r: u64)
    ensures
        r == days_in_month(year as nat, month as nat),
{
    if month == 2 {
        if leap(year) {
            29
        } else {
            28
        }
    } else if month == 4 || month == 6 || month == 9 || month == 11 {
        30
    } else {
        31
    }
}

/// The date that comes `days` after the first of January 1970.
fn date_after(days: u64) -> (r: (u64, u64, u64))
    requires
        days <= 300_000_000_000_000,
    ensures
        is_date(days as int, r.0 as nat, r.1 as nat, r.2 as nat),
{
    let cycles: u64 = days / 146097;
    let mut year: u64 = 1970 + 400 * cycles;
    let mut rest: u64 = days % 146097;
    proof {
        lemma_four_centuries(1970, cycles as nat);
    }
    loop
        invariant
            days <= 300_000_000_000_000,
            1970 <= year <= 1970 + 400 * cycles + 400,
            cycles == days / 146097,
            rest <= 146097,
            days_before_year(year as nat) - days_before_year(1970) + rest == days,
        ensures
            days_before_year(year as nat) - days_before_year(1970) + rest == days,
            rest < days_before_year((year + 1) as nat) - days_before_year(year as nat),
            year <= 1970 + 400 * cycles + 400,
        decreases rest,
    {
        let length: u64 = if leap(year) {
            366
        } else {
            365
        };
        proof {
            lemma_year_length(year as nat);
        }
        if rest < length {
            break;
        }
        proof {
            if year == 1970 + 400 * cycles + 400 {
                lemma_four_centuries(1970, (cycles + 1) as nat);
            }
        }
        rest = rest - length;
        year = year + 1;
    }
    proof {
        lemma_year_length(year as nat);
        lemma_months(year as nat);
    }
    let ghost start = rest;
    let mut month: u64 = 1;
    loop
        invariant
            1 <= month <= 12,
            days_before_month(year as nat, month as nat) + rest == start,
            start < days_before_month(year as nat, 13),
        ensures
            1 <= month <= 12,
            days_before_month(year as nat, month as nat) + rest == start,
            rest < days_in_month(year as nat, month as nat),
        decreases 13 - month,
    {
        let length = month_length(year, month);
        if rest < length {
            break;
        }
        proof {
            if month == 12 {
                assert(days_before_month(year as nat, 13) == days_before_month(year as nat, 12)
                    + days_in_month(year as nat, 12));
            }
        }
        rest = rest - length;
        month = month + 1;
    }
    (year, month, rest + 1)
}

/// The point in time `secs` seconds and `nanos` nanoseconds after the start of
/// 1970, in the form of RFC 3339. The lines of the log are stamped with it.
pub fn timestamp_iso8601(secs: u64, nanos: u32) -> (r: String)
    requires
        nanos < 1_000_000_000,
    ensures
        exists|year: nat, month: nat, day: nat|
            #[trigger] is_date((secs / 86400) as int, year, month, day) && r@ == stamp(
                year,
                month,
                day,
                (secs % 86400) as nat,
                nanos as nat,
            ),
{
    let days: u64 = secs / 86400;
    let second: u64 = secs % 86400;
    let (year, month, day) = date_after(days);
    let mut out = decimal_text(year);
    out.append("-");
    out.append(fixed_text(month, 2).as_str());
    out.append("-");
    out.append(fixed_text(day, 2).as_str());
    out.append("T");
    out.append(fixed_text(second / 3600, 2).as_str());
    out.append(":");
    out.append(fixed_text(second / 60 % 60, 2).as_str());
    out.append(":");
    out.append(fixed_text(second % 60, 2).as_str());
    out.append(".");
    out.append(fixed_text(nanos as u64, 9).as_str());
    out.append("Z");
    assert(is_date((secs / 86400) as int, year as nat, month as nat, day as nat));
    out
}

proof fn lemma_years_grow(a: nat, b: nat)
    requires
        a < b,
    ensures
        days_before_year(a + 1) <= days_before_year(b),
    decreases b - a,
{
    if a + 1 < b {
        lemma_year_length(a + 1);
        lemma_years_grow(a + 1, b);
    }
}

proof fn lemma_month_end(year: nat, month: nat, last: nat)
    requires
        1 <= month < last <= 13,
    ensures
        days_before_month(year, month) + days_in_month(year, month) <= days_before_month(year, last),
    decreases last,
{
    if month + 1 < last {
        lemma_month_end(year, month, (last - 1) as nat);
    }
}

/// A day has one date.
pub proof fn law_one_date_per_day(days: int, y: nat, m: nat, d: nat, y2: nat, m2: nat, d2: nat)
    requires
        is_date(days, y, m, d),
        is_date(days, y2, m2, d2),
    ensures
        y == y2,
        m == m2,
        d == d2,
{
    lemma_month_end(y, m, 13);
    lemma_month_end(y2, m2, 13);
    lemma_months(y);
    lemma_months(y2);
    lemma_year_length(y);
    lemma_year_length(y2);
    if y < y2 {
        lemma_years_grow(y, y2);
    } else if y2 < y {
        lemma_years_grow(y2, y);
    }
    if m < m2 {
        lemma_month_end(y, m, m2);
    } else if m2 < m {
        lemma_month_end(y, m2, m);
    }
}

proof fn lemma_fixed(n: nat, width: nat)
    ensures
        fixed(n, width).len() == width,
        width == 2 && n < 100 ==> digits_value(fixed(n, width)) == n,
        width == 1 && n < 10 ==> digits_value(fixed(n, width)) == n,
        width == 9 && n < 1_000_000_000 ==> digits_value(fixed(n, width)) == n,
    decreases width,
{
    lemma_fixed_value(n, width);
    if width == 2 {
        reveal_with_fuel(pow10, 3);
    } else if width == 1 {
        reveal_with_fuel(pow10, 2);
    } else if width == 9 {
        reveal_with_fuel(pow10, 10);
    }
}

spec fn pow10(k: nat) -> nat
    decreases k,
{
    if k == 0 {
        1
    } else {
        10 * pow10((k - 1) as nat)
    }
}

proof fn lemma_fixed_value(n: nat, width: nat)
    ensures
        fixed(n, width).len() == width,
        n < pow10(width) ==> digits_value(fixed(n, width)) == n,
    decreases width,
{
    if width > 0 {
        let m = (width - 1) as nat;
        lemma_fixed_value(n / 10, m);
        assert(fixed(n, width).drop_last() =~= fixed(n / 10, m));
        assert(n < 10 * pow10(m) ==> n / 10 < pow10(m));
    }
}

/// The digits that stand at this place of a text.
pub open spec fn number_at(text: Seq<char>, at: int, width: int) -> nat {
    digits_value(text.subrange(at, at + width))
}

/// A stamp reads back: behind the year stand month, day, hour, minute and second,
/// two digits each, and then the nanoseconds in nine, each at its own place.
pub proof fn law_stamp_reads_back(year: nat, month: nat, day: nat, second_of_day: nat, nanos: nat) -> (
    at: int)
    requires
        month <= 12,
        day <= 31,
        second_of_day < 86400,
        nanos < 1_000_000_000,
    ensures
        ({
            let text = stamp(year, month, day, second_of_day, nanos);
            &&& 0 <= at
            &&& text.len() == at + 26
            &&& digits_value(text.take(at)) == year
            &&& number_at(text, at + 1, 2) == month
            &&& number_at(text, at + 4, 2) == day
            &&& 3600 * number_at(text, at + 7, 2) + 60 * number_at(text, at + 10, 2) + number_at(
                text,
                at + 13,
                2,
            ) == second_of_day
            &&& number_at(text, at + 10, 2) < 60
            &&& number_at(text, at + 13, 2) < 60
            &&& number_at(text, at + 16, 9) == nanos
            &&& text[at] == '-' && text[at + 3] == '-' && text[at + 6] == 'T' && text[at + 9] == ':'
            &&& text[at + 12] == ':' && text[at + 15] == '.' && text[at + 25] == 'Z'
        }),
{
    reveal_strlit("-");
    reveal_strlit("T");
    reveal_strlit(":");
    reveal_strlit(".");
    reveal_strlit("Z");
    let text = stamp(year, month, day, second_of_day, nanos);
    let at = decimal(year).len() as int;
    let h = second_of_day / 3600;
    let m = second_of_day / 60 % 60;
    let s = second_of_day % 60;
    law_decimal_reads_back(year);
    lemma_fixed(month, 2);
    lemma_fixed(day, 2);
    lemma_fixed(h, 2);
    lemma_fixed(m, 2);
    lemma_fixed(s, 2);
    lemma_fixed(nanos, 9);
    assert(text.take(at) =~= decimal(year));
    assert(text.subrange(at + 1, at + 3) =~= fixed(month, 2));
    assert(text.subrange(at + 4, at + 6) =~= fixed(day, 2));
    assert(text.subrange(at + 7, at + 9) =~= fixed(h, 2));
    assert(text.subrange(at + 10, at + 12) =~= fixed(m, 2));
    assert(text.subrange(at + 13, at + 15) =~= fixed(s, 2));
    assert(text.subrange(at + 16, at + 25) =~= fixed(nanos, 9));
    at
}

/// The day after a date is the next day of its month, or the first of the next
/// month. The years have the months of the Gregorian calendar.
pub proof fn law_days_follow_each_other(days: int, y: nat, m: nat, d: nat, y2: nat, m2: nat, d2: nat)
    requires
        is_date(days, y, m, d),
        is_date(days + 1, y2, m2, d2),
    ensures
        d2 == d + 1 && m2 == m && y2 == y || d2 == 1 && m2 == m + 1 && y2 == y || d2 == 1 && m2 == 1
            && m == 12 && d == 31 && y2 == y + 1,
        d2 == 1 ==> d == if m == 2 {
            if y % 400 == 0 || (y % 4 == 0 && y % 100 != 0) {
                29nat
            } else {
                28nat
            }
        } else if m == 4 || m == 6 || m == 9 || m == 11 {
            30nat
        } else {
            31nat
        },
        is_date(0, 1970, 1, 1),
{
    lemma_year_length(y);
    lemma_months(y);
    assert(days_before_month(1970, 1) == 0);
    if d < days_in_month(y, m) {
        assert(is_date(days + 1, y, m, d + 1));
        law_one_date_per_day(days + 1, y, m, d + 1, y2, m2, d2);
    } else if m < 12 {
        assert(days_before_month(y, m + 1) == days_before_month(y, m) + days_in_month(y, m));
        assert(is_date(days + 1, y, m + 1, 1));
        law_one_date_per_day(days + 1, y, m + 1, 1, y2, m2, d2);
    } else {
        assert(days_before_month(y, 13) == days_before_month(y, 12) + days_in_month(y, 12));
        assert(days_before_month(y + 1, 1) == 0);
        assert(is_date(days + 1, y + 1, 1, 1));
        law_one_date_per_day(days + 1, y + 1, 1, 1, y2, m2, d2);
    }
}

/// A limit that is written in decimal, with a plus before it or without, is read
/// as that number.
pub proof fn law_written_limit_is_read(n: nat)
    requires
        n <= usize::MAX,
    ensures
        is_size(decimal(n)),
        digits_value(numeral_digits(decimal(n))) == n,
        is_size(seq!['+'] + decimal(n)),
        digits_value(numeral_digits(seq!['+'] + decimal(n))) == n,
{
    law_decimal_reads_back(n);
    let s = decimal(n);
    assert(s[0] != '+');
    let t = seq!['+'] + s;
    assert(t.drop_first() =~= s);
}

/// A connection is turned away only where every place is taken; one that is let
/// in takes one place, and the limit stays as it is.
pub proof fn law_turned_away_only_when_full(gate: &mut Inflight, admitted: bool)
    requires
        call_ensures(Inflight::enter, (gate,), admitted),
    ensures
        !admitted <==> old(gate).served() >= old(gate).limit(),
        admitted ==> final(gate).served() == old(gate).served() + 1,
        !admitted ==> final(gate).served() == old(gate).served(),
        final(gate).limit() == old(gate).limit(),
{
}

/// A connection that leaves gives back one place, the one it took.
pub proof fn law_place_is_given_back(gate: &mut Inflight)
    requires
        old(gate).served() > 0,
        call_ensures(Inflight::leave, (gate,), ()),
    ensures
        final(gate).served() == old(gate).served() - 1,
        final(gate).limit() == old(gate).limit(),
{
}

/// The limit from the environment is a number above zero: the one that is written
/// there, or sixteen where nothing is. Zero and what is no number are refused.
pub proof fn law_limit_is_what_is_written(value: &EnvVar, r: Result<usize, String>)
    requires
        call_ensures(max_inflight_from_env, (value,), r),
    ensures
        r is Ok ==> r->Ok_0 > 0,
        *value is Unset ==> r is Ok && r->Ok_0 == 16,
        *value is NotUnicode ==> r is Err,
        forall|n: nat|
            0 < n <= usize::MAX && *value is Text && (*value)->Text_0@ == #[trigger] decimal(n) ==> r is Ok
                && r->Ok_0 == n,
        *value is Text && (*value)->Text_0@ == decimal(0) ==> r is Err,
        *value is Text && (*value)->Text_0@.len() == 0 ==> r is Err,
        *value is Text && (exists|i: int|
            0 < i < (*value)->Text_0@.len() && !is_digit(#[trigger] (*value)->Text_0@[i])) ==> r is Err,
{
    if let EnvVar::Text(s) = *value {
        assert forall|n: nat| 0 < n <= usize::MAX && s@ == #[trigger] decimal(n) implies r is Ok && r->Ok_0
            == n by {
            law_written_limit_is_read(n);
        }
        if s@ == decimal(0) {
            law_written_limit_is_read(0);
        }
        if exists|i: int| 0 < i < s@.len() && !is_digit(#[trigger] s@[i]) {
            let i = choose|i: int| 0 < i < s@.len() && !is_digit(#[trigger] s@[i]);
            let digits = numeral_digits(s@);
            let k = if s@[0] == '+' {
                i - 1
            } else {
                i
            };
            assert(digits[k] == s@[i]);
        }
    }
}

/// The stamp of a point in time is that of its day and of the second in it: a
/// reader finds the day that the seconds fall on and the rest of them.
pub proof fn law_stamp_is_of_its_time(secs: u64, nanos: u32, r: String)
    requires
        nanos < 1_000_000_000,
        call_ensures(timestamp_iso8601, (secs, nanos), r),
    ensures
        exists|at: int, y: nat, m: nat, d: nat|
            0 <= at && r@.len() == at + 26 && #[trigger] is_date((secs / 86400) as int, y, m, d)
                && digits_value(#[trigger] r@.take(at)) == y && number_at(r@, at + 1, 2) == m && number_at(
                r@,
                at + 4,
                2,
            ) == d && 3600 * number_at(r@, at + 7, 2) + 60 * number_at(r@, at + 10, 2) + number_at(
                r@,
                at + 13,
                2,
            ) == secs % 86400 && number_at(r@, at + 16, 9) == nanos,
{
    let (y, m, d) = choose|y: nat, m: nat, d: nat|
        #[trigger] is_date((secs / 86400) as int, y, m, d) && r@ == stamp(
            y,
            m,
            d,
            (secs % 86400) as nat,
            nanos as nat,
        );
    let at = law_stamp_reads_back(y, m, d, (secs % 86400) as nat, nanos as nat);
    assert(digits_value(r@.take(at)) == y);
}

} // verus!
