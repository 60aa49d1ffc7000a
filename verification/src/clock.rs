//! Wall-clock timestamps: the UTC calendar date and time of a count of
//! seconds since 1970-01-01 00:00:00, written `YYYY-MM-DD HH:MM:SS`.
use vstd::prelude::*;
use crate::text::{dec, dec_padded, digit_char, push_dec_padded};

verus! {

// ---------------------------------------------------------------------
// The calendar
// ---------------------------------------------------------------------

/// Gregorian leap years.
pub open spec fn spec_is_leap(y: int) -> bool {
    (y % 4 == 0 && y % 100 != 0) || (y % 400 == 0)
}

/// Calendar law: a year is a leap year when 4 divides it, except a century
/// year, which is one only when 400 divides it (2000 and 2024 are leap
/// years; 1900, 2023 and 2100 are not). A leap year has 366 days, any
/// other 365.
pub proof fn lemma_leap_years(y: int)
    ensures
        y % 4 != 0 ==> !spec_is_leap(y) && year_days(y) == 365,
        y % 4 == 0 && y % 100 != 0 ==> spec_is_leap(y) && year_days(y) == 366,
        y % 100 == 0 && y % 400 != 0 ==> !spec_is_leap(y) && year_days(y) == 365,
        y % 400 == 0 ==> spec_is_leap(y) && year_days(y) == 366,
{
}

/// The number of days in year `y`.
pub open spec fn year_days(y: int) -> nat {
    if spec_is_leap(y) {
        366
    } else {
        365
    }
}

/// The number of days in month `m` (0 for January) of a leap or common year.
pub open spec fn month_days(leap: bool, m: int) -> nat {
    if m == 1 {
        if leap {
            29
        } else {
            28
        }
    } else if m == 3 || m == 5 || m == 8 || m == 10 {
        30
    } else {
        31
    }
}

/// Counting whole years forward from year `y` with `rem` days left: the
/// year reached and the days left in it.
pub open spec fn year_of(y: int, rem: nat) -> (int, nat)
    decreases rem,
{
    if rem < year_days(y) {
        (y, rem)
    } else {
        year_of(y + 1, (rem - year_days(y)) as nat)
    }
}

/// Counting whole months forward from month `m` (0-based) with `rem` days
/// left: the month reached (12 if every month fits) and the days left.
pub open spec fn month_of(leap: bool, m: int, rem: nat) -> (int, nat)
    decreases 12 - m,
{
    if m >= 12 || rem < month_days(leap, m) {
        (m, rem)
    } else {
        month_of(leap, m + 1, (rem - month_days(leap, m)) as nat)
    }
}

/// Calendar law: the months of the Gregorian calendar, January to
/// December, have 31, 28 (29 in a leap year), 31, 30, 31, 30, 31, 31, 30,
/// 31, 30 and 31 days, so the days before each month are 0, 31, 59, 90,
/// 120, 151, 181, 212, 243, 273, 304, 334 (one more from March on in a leap
/// year), and 365 or 366 in all.
pub proof fn lemma_month_table(leap: bool, m: int)
    requires
        0 <= m < 12,
    ensures
        month_days(leap, m) == seq![31nat, if leap { 29nat } else { 28nat }, 31, 30, 31, 30, 31, 31, 30, 31, 30, 31][m],
        days_in_months(leap, m) == seq![0nat, 31, 59, 90, 120, 151, 181, 212, 243, 273, 304, 334][m]
            + (if leap && m >= 2 { 1nat } else { 0nat }),
        days_in_months(leap, 12) == (if leap { 366nat } else { 365nat }),
{
    reveal_with_fuel(days_in_months, 13);
}

/// The days in the years `from .. to`.
pub open spec fn days_in_years(from: int, to: int) -> nat
    decreases to - from,
{
    if to <= from {
        0
    } else {
        days_in_years(from, to - 1) + year_days(to - 1)
    }
}

/// The days in the months `0 .. m` of a leap or common year.
pub open spec fn days_in_months(leap: bool, m: int) -> nat
    decreases m,
{
    if m <= 0 {
        0
    } else {
        days_in_months(leap, m - 1) + month_days(leap, m - 1)
    }
}

/// The calendar fields of `secs` seconds after the epoch:
/// (year, month 1..=12, day 1..=31, hour, minute, second).
pub open spec fn civil(secs: nat) -> (int, int, int, int, int, int) {
    let days = secs / 86400;
    let (y, r) = year_of(1970, days);
    let (m, d0) = month_of(spec_is_leap(y), 0, r);
    let t = secs % 86400;
    (y, m + 1, (d0 + 1) as int, (t / 3600) as int, ((t % 3600) / 60) as int, (t % 60) as int)
}

/// `secs` as `YYYY-MM-DD HH:MM:SS`: the format that `chrono_now` writes.
pub open spec fn datetime_text(secs: nat) -> Seq<char> {
    let (y, mo, d, h, mi, s) = civil(secs);
    dec_padded(y as nat, 4) + seq!['-'] + dec_padded(mo as nat, 2) + seq!['-'] + dec_padded(
        d as nat,
        2,
    ) + seq![' '] + dec_padded(h as nat, 2) + seq![':'] + dec_padded(mi as nat, 2) + seq![':']
        + dec_padded(s as nat, 2)
}

// ---------------------------------------------------------------------
// Laws of the calendar
// ---------------------------------------------------------------------

proof fn lemma_year_of(y: int, rem: nat)
    ensures
        year_of(y, rem).0 >= y,
        year_of(y, rem).1 < year_days(year_of(y, rem).0),
        days_in_years(y, year_of(y, rem).0) + year_of(y, rem).1 == rem,
    decreases rem,
{
    if rem >= year_days(y) {
        let r2 = (rem - year_days(y)) as nat;
        lemma_year_of(y + 1, r2);
        let y2 = year_of(y + 1, r2).0;
        lemma_days_in_years_first(y, y2);
    }
}

proof fn lemma_days_in_years_first(from: int, to: int)
    requires
        from < to,
    ensures
        days_in_years(from, to) == year_days(from) + days_in_years(from + 1, to),
    decreases to - from,
{
    if to - 1 > from {
        lemma_days_in_years_first(from, to - 1);
    } else {
        assert(days_in_years(from, from) == 0);
        assert(days_in_years(from + 1, to) == 0);
    }
}

proof fn lemma_month_of(leap: bool, m: int, rem: nat)
    requires
        0 <= m <= 12,
        days_in_months(leap, m) + rem < days_in_months(leap, 12),
    ensures
        m <= month_of(leap, m, rem).0 < 12,
        month_of(leap, m, rem).1 < month_days(leap, month_of(leap, m, rem).0),
        days_in_months(leap, month_of(leap, m, rem).0) + month_of(leap, m, rem).1
            == days_in_months(leap, m) + rem,
    decreases 12 - m,
{
    if m >= 12 {
        assert(false);
    } else if rem >= month_days(leap, m) {
        lemma_month_of(leap, m + 1, (rem - month_days(leap, m)) as nat);
    }
}

proof fn lemma_months_fill_year(leap: bool)
    ensures
        days_in_months(leap, 12) == (if leap {
            366nat
        } else {
            365nat
        }),
{
    reveal_with_fuel(days_in_months, 13);
}

/// Calendar law: the fields of every timestamp are in range — a month of
/// the year, a day of that month, and a time of day.
pub proof fn lemma_civil_in_range(secs: nat)
    ensures
        ({
            let (y, mo, d, h, mi, s) = civil(secs);
            &&& y >= 1970
            &&& 1 <= mo <= 12
            &&& 1 <= d <= month_days(spec_is_leap(y), mo - 1)
            &&& 0 <= h < 24
            &&& 0 <= mi < 60
            &&& 0 <= s < 60
        }),
{
    let days = secs / 86400;
    lemma_year_of(1970, days);
    let (y, r) = year_of(1970, days);
    let leap = spec_is_leap(y);
    lemma_months_fill_year(leap);
    assert(days_in_months(leap, 0) == 0);
    lemma_month_of(leap, 0, r);
}

/// The day number, counted from 1970-01-01, of a calendar date.
pub open spec fn days_from_civil(y: int, mo: int, d: int) -> int {
    days_in_years(1970, y) + days_in_months(spec_is_leap(y), mo - 1) + d - 1
}

/// Calendar law: the date and time written for `secs` name exactly that
/// second — counting the days up to the date and adding the time of day
/// gives `secs` back.
pub proof fn lemma_civil_roundtrip(secs: nat)
    ensures
        ({
            let (y, mo, d, h, mi, s) = civil(secs);
            days_from_civil(y, mo, d) * 86400 + h * 3600 + mi * 60 + s == secs
        }),
{
    let days = secs / 86400;
    lemma_year_of(1970, days);
    let (y, r) = year_of(1970, days);
    let leap = spec_is_leap(y);
    lemma_months_fill_year(leap);
    assert(days_in_months(leap, 0) == 0);
    lemma_month_of(leap, 0, r);
    let t = secs % 86400;
    assert(days_from_civil(civil(secs).0, civil(secs).1, civil(secs).2) == days);
    assert(t / 3600 * 3600 + (t % 3600) / 60 * 60 + t % 60 == t);
    assert(days * 86400 + t == secs);
}

proof fn lemma_dec_len(n: nat)
    ensures
        n < 10 ==> dec(n).len() == 1,
        n < 100 ==> dec(n).len() <= 2,
        n < 1000 ==> dec(n).len() <= 3,
        n < 10000 ==> dec(n).len() <= 4,
    decreases n,
{
    if n >= 10 {
        lemma_dec_len(n / 10);
    }
}

/// Format law: every timestamp in a four-digit year is written in exactly
/// 19 characters, `YYYY-MM-DD HH:MM:SS`.
pub proof fn lemma_datetime_width(secs: nat)
    requires
        civil(secs).0 < 10000,
    ensures
        datetime_text(secs).len() == 19,
{
    lemma_civil_in_range(secs);
    let (y, mo, d, h, mi, s) = civil(secs);
    lemma_dec_len(y as nat);
    lemma_dec_len(mo as nat);
    lemma_dec_len(d as nat);
    lemma_dec_len(h as nat);
    lemma_dec_len(mi as nat);
    lemma_dec_len(s as nat);
    assert(month_days(spec_is_leap(y), mo - 1) <= 31);
}

// ---------------------------------------------------------------------
// The order of timestamps
// ---------------------------------------------------------------------

/// Whether the text `a` comes before `b` in the order of strings: at the
/// first place where they differ `a` has the lower character, or `a` is a
/// proper prefix of `b`.
pub open spec fn text_before(a: Seq<char>, b: Seq<char>) -> bool {
    ||| exists|i: int|
        0 <= i < a.len() && i < b.len() && a.take(i) == b.take(i) && (#[trigger] a[i] as u32) < (
        b[i] as u32)
    ||| a.len() < b.len() && b.take(a.len() as int) == a
}

/// Whether the calendar fields `f` come before `g`: the first field in which
/// they differ is lower in `f`.
pub open spec fn fields_before(f: (int, int, int, int, int, int), g: (int, int, int, int, int, int)) -> bool {
    ||| f.0 < g.0
    ||| f.0 == g.0 && f.1 < g.1
    ||| f.0 == g.0 && f.1 == g.1 && f.2 < g.2
    ||| f.0 == g.0 && f.1 == g.1 && f.2 == g.2 && f.3 < g.3
    ||| f.0 == g.0 && f.1 == g.1 && f.2 == g.2 && f.3 == g.3 && f.4 < g.4
    ||| f.0 == g.0 && f.1 == g.1 && f.2 == g.2 && f.3 == g.3 && f.4 == g.4 && f.5 < g.5
}

spec fn fields_ok(f: (int, int, int, int, int, int)) -> bool {
    &&& f.0 >= 1970
    &&& 1 <= f.1 <= 12
    &&& 1 <= f.2 <= month_days(spec_is_leap(f.0), f.1 - 1)
    &&& 0 <= f.3 < 24
    &&& 0 <= f.4 < 60
    &&& 0 <= f.5 < 60
}

spec fn seconds_of(f: (int, int, int, int, int, int)) -> int {
    days_from_civil(f.0, f.1, f.2) * 86400 + f.3 * 3600 + f.4 * 60 + f.5
}

proof fn lemma_days_in_months_mono(leap: bool, a: int, b: int)
    requires
        0 <= a <= b,
    ensures
        days_in_months(leap, a) <= days_in_months(leap, b),
    decreases b - a,
{
    if a < b {
        lemma_days_in_months_mono(leap, a, b - 1);
    }
}

proof fn lemma_days_in_years_mono(a: int, b: int)
    requires
        1970 <= a <= b,
    ensures
        days_in_years(1970, a) <= days_in_years(1970, b),
    decreases b - a,
{
    if a < b {
        lemma_days_in_years_mono(a, b - 1);
    }
}

proof fn lemma_day_in_year(f: (int, int, int, int, int, int))
    requires
        fields_ok(f),
    ensures
        days_in_months(spec_is_leap(f.0), f.1 - 1) + f.2 <= days_in_months(spec_is_leap(f.0), f.1),
        days_in_months(spec_is_leap(f.0), f.1) <= year_days(f.0),
{
    let leap = spec_is_leap(f.0);
    lemma_days_in_months_mono(leap, f.1, 12);
    lemma_months_fill_year(leap);
}

/// Fields in range that come first name the earlier second.
proof fn lemma_seconds_of_before(f: (int, int, int, int, int, int), g: (int, int, int, int, int, int))
    requires
        fields_ok(f),
        fields_ok(g),
        fields_before(f, g),
    ensures
        seconds_of(f) < seconds_of(g),
{
    lemma_day_in_year(f);
    lemma_day_in_year(g);
    let df = days_from_civil(f.0, f.1, f.2);
    let dg = days_from_civil(g.0, g.1, g.2);
    if f.0 < g.0 {
        assert(days_in_years(1970, f.0 + 1) == days_in_years(1970, f.0) + year_days(f.0));
        lemma_days_in_years_mono(f.0 + 1, g.0);
        assert(df < dg);
    } else if f.0 == g.0 && f.1 < g.1 {
        lemma_days_in_months_mono(spec_is_leap(f.0), f.1, g.1 - 1);
        assert(df < dg);
    }
    if df < dg {
        assert(seconds_of(f) < (df + 1) * 86400);
        assert((df + 1) * 86400 <= dg * 86400);
    }
}

/// `n` in exactly `k` decimal digits, the last `k` of `n`.
spec fn digits_of(n: nat, k: nat) -> Seq<char>
    decreases k,
{
    if k == 0 {
        Seq::empty()
    } else {
        digits_of(n / 10, (k - 1) as nat).push(digit_char(n % 10))
    }
}

spec fn pow10(k: nat) -> nat
    decreases k,
{
    if k == 0 {
        1
    } else {
        10 * pow10((k - 1) as nat)
    }
}

proof fn lemma_digits_len(n: nat, k: nat)
    ensures
        digits_of(n, k).len() == k,
    decreases k,
{
    if k > 0 {
        lemma_digits_len(n / 10, (k - 1) as nat);
    }
}

proof fn lemma_zero_digits(k: nat)
    ensures
        digits_of(0, k) == Seq::new(k, |i: int| '0'),
    decreases k,
{
    if k > 0 {
        lemma_zero_digits((k - 1) as nat);
        assert(digits_of(0, k) =~= Seq::new(k, |i: int| '0'));
    }
}

proof fn lemma_dec_padded_digits(n: nat, k: nat)
    requires
        k >= 1,
        n < pow10(k),
    ensures
        dec_padded(n, k) == digits_of(n, k),
    decreases k,
{
    if n < 10 {
        lemma_zero_digits((k - 1) as nat);
        assert(n / 10 == 0 && n % 10 == n);
        assert(dec(n) == seq![digit_char(n)]);
        if k == 1 {
            assert(digits_of(n, k) =~= seq![digit_char(n)]);
        } else {
            assert(dec_padded(n, k) =~= digits_of(n, k));
        }
    } else {
        assert(k >= 2) by {
            if k == 1 {
                assert(pow10(1) == 10) by {
                    reveal_with_fuel(pow10, 2);
                }
            }
        }
        let q = n / 10;
        assert(q < pow10((k - 1) as nat));
        lemma_dec_padded_digits(q, (k - 1) as nat);
        let dq = dec(q);
        assert(dec(n) == dq.push(digit_char(n % 10)));
        if dq.len() + 1 < k {
            assert(Seq::new((k - dec(n).len()) as nat, |i: int| '0') + dec(n) =~= (Seq::new(
                ((k - 1) - dq.len()) as nat,
                |i: int| '0',
            ) + dq).push(digit_char(n % 10)));
        }
    }
}

proof fn lemma_digit_char_code(d: nat)
    requires
        d < 10,
    ensures
        digit_char(d) as u32 == 48 + d,
{
}

proof fn lemma_before_push(a: Seq<char>, b: Seq<char>, c: char, e: char)
    requires
        a.len() == b.len(),
        text_before(a, b) || (a == b && (c as u32) < (e as u32)),
    ensures
        text_before(a.push(c), b.push(e)),
{
    if a == b && (c as u32) < (e as u32) {
        let i = a.len() as int;
        assert(a.push(c).take(i) =~= b.push(e).take(i));
        assert(a.push(c)[i] == c);
    } else {
        let i = choose|i: int|
            0 <= i < a.len() && i < b.len() && a.take(i) == b.take(i) && (#[trigger] a[i] as u32) < (
            b[i] as u32);
        assert(a.push(c).take(i) =~= a.take(i));
        assert(b.push(e).take(i) =~= b.take(i));
        assert(a.push(c)[i] == a[i]);
    }
}

proof fn lemma_digits_before(n1: nat, n2: nat, k: nat)
    requires
        n1 < n2 < pow10(k),
    ensures
        text_before(digits_of(n1, k), digits_of(n2, k)),
    decreases k,
{
    if k == 0 {
        assert(false);
    } else {
        let k1 = (k - 1) as nat;
        lemma_digits_len(n1 / 10, k1);
        lemma_digits_len(n2 / 10, k1);
        assert(n2 / 10 < pow10(k1));
        if n1 / 10 < n2 / 10 {
            lemma_digits_before(n1 / 10, n2 / 10, k1);
        } else {
            lemma_digit_char_code(n1 % 10);
            lemma_digit_char_code(n2 % 10);
        }
        lemma_before_push(
            digits_of(n1 / 10, k1),
            digits_of(n2 / 10, k1),
            digit_char(n1 % 10),
            digit_char(n2 % 10),
        );
    }
}

/// The `i`-th piece of the written timestamp: the fields and the marks
/// between them.
spec fn piece(f: (int, int, int, int, int, int), i: int) -> Seq<char> {
    if i == 0 {
        digits_of(f.0 as nat, 4)
    } else if i == 2 {
        digits_of(f.1 as nat, 2)
    } else if i == 4 {
        digits_of(f.2 as nat, 2)
    } else if i == 6 {
        digits_of(f.3 as nat, 2)
    } else if i == 8 {
        digits_of(f.4 as nat, 2)
    } else if i == 10 {
        digits_of(f.5 as nat, 2)
    } else if i == 1 || i == 3 {
        seq!['-']
    } else if i == 5 {
        seq![' ']
    } else {
        seq![':']
    }
}

/// The first `k` pieces, joined.
spec fn pieces(f: (int, int, int, int, int, int), k: int) -> Seq<char>
    decreases k,
{
    if k <= 0 {
        Seq::empty()
    } else {
        pieces(f, k - 1) + piece(f, k - 1)
    }
}

proof fn lemma_pieces_before(f: (int, int, int, int, int, int), g: (int, int, int, int, int, int), j: int, k: int)
    requires
        0 <= j <= 10,
        0 <= k <= 11,
        forall|i: int| 0 <= i <= 10 ==> (#[trigger] piece(f, i)).len() == piece(g, i).len(),
        forall|i: int| 0 <= i < j ==> #[trigger] piece(f, i) == piece(g, i),
        text_before(piece(f, j), piece(g, j)),
    ensures
        pieces(f, k).len() == pieces(g, k).len(),
        k <= j ==> pieces(f, k) == pieces(g, k),
        k > j ==> text_before(pieces(f, k), pieces(g, k)),
    decreases k,
{
    if k > 0 {
        lemma_pieces_before(f, g, j, k - 1);
        let a = pieces(f, k - 1);
        let b = pieces(g, k - 1);
        let pa = piece(f, k - 1);
        let pb = piece(g, k - 1);
        if k - 1 < j {
        } else if k - 1 == j {
            let i = choose|i: int|
                0 <= i < pa.len() && i < pb.len() && pa.take(i) == pb.take(i) && (#[trigger] pa[i] as u32)
                    < (pb[i] as u32);
            let w = a.len() + i;
            assert((a + pa).take(w) =~= a + pa.take(i));
            assert((b + pb).take(w) =~= b + pb.take(i));
            assert((a + pa)[w] == pa[i]);
            assert((b + pb)[w] == pb[i]);
        } else {
            let i = choose|i: int|
                0 <= i < a.len() && i < b.len() && a.take(i) == b.take(i) && (#[trigger] a[i] as u32) < (
                b[i] as u32);
            assert((a + pa).take(i) =~= a.take(i));
            assert((b + pb).take(i) =~= b.take(i));
            assert((a + pa)[i] == a[i]);
            assert((b + pb)[i] == b[i]);
        }
    }
}

proof fn lemma_text_is_pieces(secs: nat)
    requires
        civil(secs).0 < 10000,
    ensures
        datetime_text(secs) == pieces(civil(secs), 11),
{
    lemma_civil_in_range(secs);
    let f = civil(secs);
    assert(pow10(2) == 100 && pow10(4) == 10000) by {
        reveal_with_fuel(pow10, 5);
    }
    assert(month_days(spec_is_leap(f.0), f.1 - 1) <= 31);
    lemma_dec_padded_digits(f.0 as nat, 4);
    lemma_dec_padded_digits(f.1 as nat, 2);
    lemma_dec_padded_digits(f.2 as nat, 2);
    lemma_dec_padded_digits(f.3 as nat, 2);
    lemma_dec_padded_digits(f.4 as nat, 2);
    lemma_dec_padded_digits(f.5 as nat, 2);
    reveal_with_fuel(pieces, 12);
    assert(Seq::<char>::empty() + piece(f, 0) =~= piece(f, 0));
}

proof fn lemma_text_before_differs(a: Seq<char>, b: Seq<char>)
    requires
        text_before(a, b),
    ensures
        a != b,
{
    if a.len() == b.len() {
        let i = choose|i: int|
            0 <= i < a.len() && i < b.len() && a.take(i) == b.take(i) && (#[trigger] a[i] as u32) < (
            b[i] as u32);
        assert(a[i] != b[i]);
    }
}

/// Timestamp law: timestamps keep the clock's order. For seconds
/// `t1 <= t2` up to the end of year 9999, the text written for `t1` is the
/// text for `t2` or comes before it in the order of strings, and the two
/// texts are the same exactly when the seconds are.
pub proof fn lemma_datetime_order(t1: nat, t2: nat)
    requires
        t1 <= t2,
        civil(t2).0 < 10000,
    ensures
        datetime_text(t1) == datetime_text(t2) || text_before(datetime_text(t1), datetime_text(t2)),
        datetime_text(t1) == datetime_text(t2) <==> t1 == t2,
{
    if t1 < t2 {
        lemma_civil_in_range(t1);
        lemma_civil_in_range(t2);
        lemma_civil_roundtrip(t1);
        lemma_civil_roundtrip(t2);
        let f = civil(t1);
        let g = civil(t2);
        assert(seconds_of(f) == t1 && seconds_of(g) == t2);
        if fields_before(g, f) {
            lemma_seconds_of_before(g, f);
        }
        assert(f != g);
        assert(fields_before(f, g));
        let (y1, mo1, d1, h1, mi1, s1) = f;
        let (y2, mo2, d2, h2, mi2, s2) = g;
        assert(pow10(2) == 100 && pow10(4) == 10000) by {
            reveal_with_fuel(pow10, 5);
        }
        assert(month_days(spec_is_leap(y1), mo1 - 1) <= 31);
        assert(month_days(spec_is_leap(y2), mo2 - 1) <= 31);
        lemma_digits_len(y1 as nat, 4);
        lemma_digits_len(y2 as nat, 4);
        lemma_digits_len(mo1 as nat, 2);
        lemma_digits_len(mo2 as nat, 2);
        lemma_digits_len(d1 as nat, 2);
        lemma_digits_len(d2 as nat, 2);
        lemma_digits_len(h1 as nat, 2);
        lemma_digits_len(h2 as nat, 2);
        lemma_digits_len(mi1 as nat, 2);
        lemma_digits_len(mi2 as nat, 2);
        lemma_digits_len(s1 as nat, 2);
        lemma_digits_len(s2 as nat, 2);
        assert forall|i: int| 0 <= i <= 10 implies (#[trigger] piece(f, i)).len() == piece(g, i).len() by {}
        let j = if y1 < y2 {
            lemma_digits_before(y1 as nat, y2 as nat, 4);
            0
        } else if mo1 < mo2 {
            lemma_digits_before(mo1 as nat, mo2 as nat, 2);
            2
        } else if d1 < d2 {
            lemma_digits_before(d1 as nat, d2 as nat, 2);
            4
        } else if h1 < h2 {
            lemma_digits_before(h1 as nat, h2 as nat, 2);
            6
        } else if mi1 < mi2 {
            lemma_digits_before(mi1 as nat, mi2 as nat, 2);
            8
        } else {
            lemma_digits_before(s1 as nat, s2 as nat, 2);
            10
        };
        assert forall|i: int| 0 <= i < j implies #[trigger] piece(f, i) == piece(g, i) by {}
        lemma_pieces_before(f, g, j, 11);
        lemma_text_is_pieces(t1);
        lemma_text_is_pieces(t2);
        lemma_text_before_differs(datetime_text(t1), datetime_text(t2));
    }
}

// ---------------------------------------------------------------------
// Computing the fields
// ---------------------------------------------------------------------

/// Whether `y` is a leap year.
pub fn is_leap(y: u64) -> (b: bool)
    ensures
        b == spec_is_leap(y as int),
{
    (y % 4 == 0 && y % 100 != 0) || (y % 400 == 0)
}

fn year_len(y: u64) -> (r: u64)
    ensures
        r == year_days(y as int),
{
    if is_leap(y) {
        366
    } else {
        365
    }
}

fn month_len(leap: bool, m: u64) -> (r: u64)
    ensures
        r == month_days(leap, m as int),
{
    if m == 1 {
        if leap {
            29
        } else {
            28
        }
    } else if m == 3 || m == 5 || m == 8 || m == 10 {
        30
    } else {
        31
    }
}

/// The calendar fields of `secs` (see `civil`).
pub fn civil_fields(secs: u64) -> (r: (u64, u64, u64, u64, u64, u64))
    ensures
        civil(secs as nat) == (r.0 as int, r.1 as int, r.2 as int, r.3 as int, r.4 as int, r.5 as int),
{
    let days: u64 = secs / 86400;
    let mut y: u64 = 1970;
    let mut remaining: u64 = days;
    assert(days <= u64::MAX / 86400);
    while remaining >= year_len(y)
        invariant
            1970 <= y,
            remaining <= days,
            365 * (y - 1970) <= days - remaining,
            days <= u64::MAX / 86400,
            year_of(y as int, remaining as nat) == year_of(1970, days as nat),
        decreases remaining,
    {
        remaining = remaining - year_len(y);
        y = y + 1;
    }
    let leap = is_leap(y);
    let mut m: u64 = 0;
    while m < 12 && remaining >= month_len(leap, m)
        invariant
            m <= 12,
            remaining <= u64::MAX / 86400,
            leap == spec_is_leap(y as int),
            month_of(leap, m as int, remaining as nat) == month_of(leap, 0, year_of(
                1970,
                days as nat,
            ).1),
        decreases 12 - m,
    {
        remaining = remaining - month_len(leap, m);
        m = m + 1;
    }
    let day: u64 = remaining + 1;
    let time: u64 = secs % 86400;
    let h: u64 = time / 3600;
    let min: u64 = (time % 3600) / 60;
    let s: u64 = time % 60;
    proof {
        lemma_civil_in_range(secs as nat);
    }
    (y, m + 1, day, h, min, s)
}


/// `secs` written as `YYYY-MM-DD HH:MM:SS` (UTC).
pub fn format_datetime(secs: u64) -> (r: String)
    ensures
        r@ == datetime_text(secs as nat),
{
    let (y, mo, d, h, mi, s) = civil_fields(secs);
    let mut r = String::new();
    push_dec_padded(&mut r, y, 4);
    r.push('-');
    push_dec_padded(&mut r, mo, 2);
    r.push('-');
    push_dec_padded(&mut r, d, 2);
    r.push(' ');
    push_dec_padded(&mut r, h, 2);
    r.push(':');
    push_dec_padded(&mut r, mi, 2);
    r.push(':');
    push_dec_padded(&mut r, s, 2);
    assert(r@ =~= datetime_text(secs as nat));
    r
}

/// The system clock's readings.
#[verifier::external_type_specification]
#[verifier::external_body]
pub struct ExSystemTime(std::time::SystemTime);

/// `SystemTime::now()`: the time of the call, of which nothing is stated.
#[verifier::external_body]
fn system_now() -> std::time::SystemTime {
    std::time::SystemTime::now()
}

/// `t.duration_since(UNIX_EPOCH)` in whole seconds, or none where `t` is
/// before the epoch. Nothing more is stated of the value.
#[verifier::external_body]
fn secs_since_epoch(t: &std::time::SystemTime) -> Option<u64> {
    t.duration_since(std::time::UNIX_EPOCH).ok().map(|d| d.as_secs())
}

/// The seconds that a clock reading counts: its whole seconds since the
/// epoch, or 0 for a clock set before 1970.
pub open spec fn reading_secs(reading: Option<u64>) -> nat {
    match reading {
        Some(s) => s as nat,
        None => 0,
    }
}

/// A clock reading (whole seconds since the epoch; none before 1970)
/// written as `YYYY-MM-DD HH:MM:SS` (UTC): a clock set before 1970 reads
/// as the epoch.
pub fn datetime_of_reading(reading: Option<u64>) -> (r: String)
    ensures
        r@ == datetime_text(reading_secs(reading)),
{
    let secs = match reading {
        Some(s) => s,
        None => 0,
    };
    format_datetime(secs)
}

/// The current time, written as `YYYY-MM-DD HH:MM:SS` (UTC); a clock set
/// before 1970 reads as the epoch.
pub fn chrono_now() -> (r: String)
    ensures
        exists|reading: Option<u64>| r@ == datetime_text(reading_secs(reading)),
{
    let reading = secs_since_epoch(&system_now());
    datetime_of_reading(reading)
}

} // verus!
