use vstd::prelude::*;
use crate::text::{chars_of, is_digit, split_chars, split_on, string_of};

verus! {

/// Milliseconds in one day.
pub const MS_PER_DAY: u64 = 86400000;

/// The Gregorian leap-year rule.
pub open spec fn leap(y: int) -> bool {
    (y % 4 == 0 && y % 100 != 0) || y % 400 == 0
}

pub open spec fn year_len(y: int) -> int {
    if leap(y) {
        366
    } else {
        365
    }
}

/// Days in month `m` (1 to 12) of year `y`.
pub open spec fn month_len(y: int, m: int) -> int {
    if m == 2 {
        if leap(y) {
            29
        } else {
            28
        }
    } else if m == 4 || m == 6 || m == 9 || m == 11 {
        30
    } else {
        31
    }
}

/// Days from 1970-01-01 to the first day of year `y`; 0 for years before 1970.
pub open spec fn days_before_year(y: int) -> int
    decreases y - 1970,
{
    if y <= 1970 {
        0
    } else {
        days_before_year(y - 1) + year_len(y - 1)
    }
}

/// Days from the first day of year `y` to the first day of month `m`.
pub open spec fn days_before_month(y: int, m: int) -> int
    decreases m,
{
    if m <= 1 {
        0
    } else {
        days_before_month(y, m - 1) + month_len(y, m - 1)
    }
}

/// Whole years subtracted from `d` days counted from the start of year `y`:
/// the year reached and the days left within it.
pub open spec fn year_from(d: int, y: int) -> (int, int)
    decreases d,
{
    if d < year_len(y) || d < 0 {
        (y, d)
    } else {
        year_from(d - year_len(y), y + 1)
    }
}

/// Whole months subtracted from `d` days counted from the start of month `m` of year `y`:
/// the month reached (at most December) and the days left within it.
pub open spec fn month_from(d: int, y: int, m: int) -> (int, int)
    decreases 12 - m,
{
    if m >= 12 || d < month_len(y, m) {
        (m, d)
    } else {
        month_from(d - month_len(y, m), y, m + 1)
    }
}

pub open spec fn digit_char(d: int) -> char {
    ((d + 48) as u8) as char
}

/// Decimal digits of `n`, without leading zeros.
pub open spec fn decimal(n: nat) -> Seq<char>
    decreases n,
{
    if n < 10 {
        seq![digit_char(n as int)]
    } else {
        decimal(n / 10).push(digit_char((n % 10) as int))
    }
}

/// Decimal digits of `n`, left-padded with zeros to at least `w` characters.
pub open spec fn padded(n: nat, w: nat) -> Seq<char> {
    let s = decimal(n);
    if s.len() < w {
        Seq::new((w - s.len()) as nat, |i: int| '0') + s
    } else {
        s
    }
}

/// The text `YYYY-MM-DD` of a date.
pub open spec fn date_text(y: nat, m: nat, d: nat) -> Seq<char> {
    padded(y, 4) + seq!['-'] + padded(m, 2) + seq!['-'] + padded(d, 2)
}

/// The date text of the day `days` after 1970-01-01.
pub open spec fn date_of_day(days: nat) -> Seq<char> {
    let (y, r) = year_from(days as int, 1970);
    let (m, d) = month_from(r, y, 1);
    date_text(y as nat, m as nat, (d + 1) as nat)
}

pub fn is_leap_year(year: i32) -> (r: bool)
    ensures
        r == leap(year as int),
{
    (year % 4 == 0 && year % 100 != 0) || (year % 400 == 0)
}

fn is_leap(year: u64) -> (r: bool)
    ensures
        r == leap(year as int),
{
    (year % 4 == 0 && year % 100 != 0) || (year % 400 == 0)
}

fn days_in_year(year: u64) -> (r: u64)
    ensures
        r == year_len(year as int),
{
    if is_leap(year) {
        366
    } else {
        365
    }
}

fn days_in_month(year: u64, month: u64) -> (r: u64)
    ensures
        r == month_len(year as int, month as int),
{
    if month == 2 {
        if is_leap(year) {
            29
        } else {
            28
        }
    } else if month == 4 || month == 6 || month == 9 || month == 11 {
        30
    } else {
        31
    }
}

pub(crate) fn push_decimal(v: &mut Vec<char>, n: u64)
    ensures
        final(v)@ == old(v)@ + decimal(n as nat),
    decreases n,
{
    if n >= 10 {
        push_decimal(v, n / 10);
    }
    let c = ((n % 10) as u8 + 48u8) as char;
    v.push(c);
    assert(final(v)@ =~= old(v)@ + decimal(n as nat));
}

fn push_padded(v: &mut Vec<char>, n: u64, w: usize)
    ensures
        final(v)@ == old(v)@ + padded(n as nat, w as nat),
{
    let mut digits: Vec<char> = Vec::new();
    push_decimal(&mut digits, n);
    assert(digits@ =~= decimal(n as nat));
    let ghost start = v@;
    if digits.len() < w {
        let mut k: usize = 0;
        while k < w - digits.len()
            invariant
                digits@ == decimal(n as nat),
                digits@.len() < w,
                k <= w - digits@.len(),
                v@ == start + Seq::new(k as nat, |i: int| '0'),
            decreases w - digits@.len() - k,
        {
            v.push('0');
            k = k + 1;
            assert(v@ =~= start + Seq::new(k as nat, |i: int| '0'));
        }
    }
    let ghost mid = v@;
    let mut i: usize = 0;
    while i < digits.len()
        invariant
            i <= digits@.len(),
            v@ == mid + digits@.subrange(0, i as int),
        decreases digits@.len() - i,
    {
        v.push(digits[i]);
        i = i + 1;
        assert(v@ =~= mid + digits@.subrange(0, i as int));
    }
    assert(digits@.subrange(0, i as int) =~= digits@);
    assert(v@ =~= start + padded(n as nat, w as nat));
}

/// The date `YYYY-MM-DD` of the instant `epoch_ms` milliseconds after 1970-01-01T00:00:00Z.
pub fn epoch_ms_to_date(epoch_ms: u64) -> (r: String)
    ensures
        r@ == date_of_day((epoch_ms / MS_PER_DAY) as nat),
{
    let d0 = epoch_ms / MS_PER_DAY;
    let mut days = d0;
    let mut year: u64 = 1970;
    while days >= days_in_year(year)
        invariant
            days <= d0,
            d0 <= u64::MAX / MS_PER_DAY,
            year - 1970 <= d0 - days,
            year >= 1970,
            year_from(d0 as int, 1970) == year_from(days as int, year as int),
        decreases days,
    {
        days = days - days_in_year(year);
        year = year + 1;
    }
    let mut month: u64 = 1;
    while month < 12 && days >= days_in_month(year, month)
        invariant
            1 <= month <= 12,
            year_from(d0 as int, 1970).0 == year as int,
            month_from(year_from(d0 as int, 1970).1, year as int, 1) == month_from(
                days as int,
                year as int,
                month as int,
            ),
            days < 366,
        decreases 12 - month,
    {
        days = days - days_in_month(year, month);
        month = month + 1;
    }
    let mut v: Vec<char> = Vec::new();
    push_padded(&mut v, year, 4);
    v.push('-');
    push_padded(&mut v, month, 2);
    v.push('-');
    push_padded(&mut v, days + 1, 2);
    string_of(&v)
}


/// Value of a run of decimal digits.
pub open spec fn digits_value(s: Seq<char>) -> nat
    decreases s.len(),
{
    if s.len() == 0 {
        0
    } else {
        digits_value(s.drop_last()) * 10 + ((s.last() as u32 - 48) as nat)
    }
}

pub open spec fn all_digits(s: Seq<char>) -> bool {
    forall|i: int| 0 <= i < s.len() ==> is_digit(#[trigger] s[i])
}

/// A decimal number as integer parsing reads it from text without `-`: an optional `+`,
/// then one or more digits, of value at most `max`.
pub open spec fn parse_num(s: Seq<char>, max: nat) -> Option<nat> {
    let d = if s.len() > 0 && s[0] == '+' {
        s.drop_first()
    } else {
        s
    };
    if d.len() > 0 && all_digits(d) && digits_value(d) <= max {
        Some(digits_value(d))
    } else {
        None
    }
}

/// Days from 1970-01-01 to the date that `s` names, where `s` holds three dash-separated
/// numbers with month in 1 to 12 and day in 1 to 31.
pub open spec fn date_days(s: Seq<char>) -> Option<nat> {
    let p = split_on(s, '-');
    if p.len() != 3 {
        None
    } else {
        match (
            parse_num(p[0], i32::MAX as nat),
            parse_num(p[1], u32::MAX as nat),
            parse_num(p[2], u32::MAX as nat),
        ) {
            (Some(y), Some(m), Some(d)) => if 1 <= m <= 12 && 1 <= d <= 31 {
                Some((days_before_year(y as int) + days_before_month(y as int, m as int) + d
                    - 1) as nat)
            } else {
                None
            },
            _ => None,
        }
    }
}

/// The milliseconds of midnight of the date that `s` names, where they fit in a `u64`.
pub open spec fn date_ms(s: Seq<char>) -> Option<u64> {
    match date_days(s) {
        Some(d) => if d * MS_PER_DAY <= u64::MAX {
            Some((d * MS_PER_DAY) as u64)
        } else {
            None
        },
        None => None,
    }
}

fn parse_part(s: &Vec<char>, max: u64) -> (r: Option<u64>)
    requires
        max < u64::MAX / 10,
    ensures
        match parse_num(s@, max as nat) {
            Some(n) => r == Some(n as u64),
            None => r is None,
        },
{
    let start: usize = if s.len() > 0 && s[0] == '+' {
        1
    } else {
        0
    };
    let ghost d = if s@.len() > 0 && s@[0] == '+' {
        s@.drop_first()
    } else {
        s@
    };
    assert(d =~= s@.subrange(start as int, s@.len() as int));
    if start >= s.len() {
        return None;
    }
    let mut val: u64 = 0;
    let mut i: usize = start;
    while i < s.len()
        invariant
            start <= i <= s@.len(),
            max < u64::MAX / 10,
            d == s@.subrange(start as int, s@.len() as int),
            all_digits(s@.subrange(start as int, i as int)),
            d == (if s@.len() > 0 && s@[0] == '+' {
                s@.drop_first()
            } else {
                s@
            }),
            digits_value(s@.subrange(start as int, i as int)) <= max ==> val == digits_value(
                s@.subrange(start as int, i as int),
            ),
            digits_value(s@.subrange(start as int, i as int)) > max ==> val > max,
            val <= max * 10 + 9,
        decreases s@.len() - i,
    {
        let c = s[i];
        if c < '0' || c > '9' {
            assert(!is_digit(d[i - start]));
            assert(!all_digits(d));
            return None;
        }
        let ghost pre = s@.subrange(start as int, i as int);
        assert(s@.subrange(start as int, i + 1).drop_last() =~= pre);
        assert(digits_value(s@.subrange(start as int, i + 1)) == digits_value(pre) * 10 + ((c as u32
            - 48) as nat));
        if val <= max {
            val = val * 10 + (c as u64 - 48);
        }
        i = i + 1;
        assert(all_digits(s@.subrange(start as int, i as int)));
    }
    if val > max {
        None
    } else {
        Some(val)
    }
}

/// Days from 1970-01-01 to the first day of `year`, or `None` where that is past `limit`.
fn days_to_year(year: u64, limit: u64) -> (r: Option<u64>)
    requires
        limit < u64::MAX - 366,
    ensures
        match r {
            Some(n) => n == days_before_year(year as int) && n <= limit,
            None => days_before_year(year as int) > limit,
        },
{
    let mut total: u64 = 0;
    let mut y: u64 = 1970;
    if year <= 1970 {
        return Some(0);
    }
    while y < year
        invariant
            1970 <= y <= year,
            limit < u64::MAX - 366,
            total == days_before_year(y as int),
            total <= limit,
        decreases year - y,
    {
        total = total + days_in_year(y);
        y = y + 1;
        if total > limit {
            proof {
                lemma_days_before_year_monotone(y as int, year as int);
            }
            return None;
        }
    }
    Some(total)
}

pub proof fn lemma_days_before_year_monotone(a: int, b: int)
    requires
        a <= b,
    ensures
        days_before_year(a) <= days_before_year(b),
    decreases b - a,
{
    if a < b {
        lemma_days_before_year_monotone(a, b - 1);
    }
}

pub proof fn lemma_days_before_month_bounds(y: int, m: int)
    requires
        1 <= m,
    ensures
        0 <= days_before_month(y, m) <= 31 * (m - 1),
    decreases m,
{
    if m > 1 {
        lemma_days_before_month_bounds(y, m - 1);
    }
}

/// Milliseconds of midnight UTC of the date `YYYY-MM-DD` that `date` names.
///
/// `None` where `date` is not three dash-separated numbers, where the month is outside
/// 1 to 12 or the day outside 1 to 31, or where the instant does not fit in a `u64`.
/// Days past the end of a shorter month are accepted and counted on.
pub fn date_to_epoch_ms(date: &str) -> (r: Option<u64>)
    ensures
        r == date_ms(date@),
{
    let v = chars_of(date);
    let parts = split_chars(&v, '-');
    if parts.len() != 3 {
        return None;
    }
    let year = match parse_part(&parts[0], 2147483647) {
        Some(y) => y,
        None => return None,
    };
    let month = match parse_part(&parts[1], 4294967295) {
        Some(m) => m,
        None => return None,
    };
    let day = match parse_part(&parts[2], 4294967295) {
        Some(d) => d,
        None => return None,
    };
    if month < 1 || month > 12 || day < 1 || day > 31 {
        return None;
    }
    let max_days: u64 = u64::MAX / MS_PER_DAY;
    proof {
        assert(v@ == date@);
        lemma_days_before_month_bounds(year as int, month as int);
        assert(date_days(date@) == Some(
            (days_before_year(year as int) + days_before_month(year as int, month as int) + day
                - 1) as nat,
        ));
    }
    let before_year = match days_to_year(year, max_days) {
        Some(n) => n,
        None => {
            assert(date_days(date@).unwrap() * MS_PER_DAY > u64::MAX) by (nonlinear_arith)
                requires
                    date_days(date@).unwrap() > max_days,
                    max_days == u64::MAX / MS_PER_DAY,
            ;
            return None;
        },
    };
    let mut total = before_year;
    let mut m: u64 = 1;
    while m < month
        invariant
            1 <= m <= month <= 12,
            total == before_year + days_before_month(year as int, m as int),
            before_year <= max_days,
            max_days == u64::MAX / MS_PER_DAY,
            0 <= days_before_month(year as int, m as int) <= 31 * (m - 1),
        decreases month - m,
    {
        total = total + days_in_month(year, m);
        m = m + 1;
    }
    total = total + (day - 1);
    assert(date_days(date@) == Some(total as nat));
    match total.checked_mul(MS_PER_DAY) {
        Some(ms) => Some(ms),
        None => None,
    }
}


/// The date text of the day before the date `s` names; `s` itself where it does not parse
/// or names 1970-01-01 or earlier.
pub open spec fn day_before(s: Seq<char>) -> Seq<char> {
    match date_ms(s) {
        Some(ms) => if ms >= MS_PER_DAY {
            date_of_day(((ms - MS_PER_DAY) / MS_PER_DAY as int) as nat)
        } else {
            s
        },
        None => s,
    }
}

/// The date text of the day after the date `s` names; `s` itself where it does not parse
/// or the next midnight does not fit in a `u64` of milliseconds.
pub open spec fn day_after(s: Seq<char>) -> Seq<char> {
    match date_ms(s) {
        Some(ms) => if ms + MS_PER_DAY <= u64::MAX {
            date_of_day(((ms + MS_PER_DAY) / MS_PER_DAY as int) as nat)
        } else {
            s
        },
        None => s,
    }
}

/// The date before the one `date` names; `date` itself where it does not parse or names
/// 1970-01-01 or earlier.
pub fn prev_day(date: &str) -> (r: String)
    ensures
        r@ == day_before(date@),
{
    match date_to_epoch_ms(date) {
        Some(ms) => {
            if ms >= MS_PER_DAY {
                epoch_ms_to_date(ms - MS_PER_DAY)
            } else {
                date.to_owned()
            }
        },
        None => date.to_owned(),
    }
}

/// The date after the one `date` names; `date` itself where it does not parse or where
/// the next midnight does not fit in a `u64` of milliseconds.
pub fn next_day(date: &str) -> (r: String)
    ensures
        r@ == day_after(date@),
{
    match date_to_epoch_ms(date) {
        Some(ms) => match ms.checked_add(MS_PER_DAY) {
            Some(next) => epoch_ms_to_date(next),
            None => date.to_owned(),
        },
        None => date.to_owned(),
    }
}

/// Abbreviated name of weekday `w`, counted from Sunday as 0.
pub open spec fn weekday_name(w: int) -> Seq<char> {
    if w == 0 {
        seq!['S', 'u', 'n']
    } else if w == 1 {
        seq!['M', 'o', 'n']
    } else if w == 2 {
        seq!['T', 'u', 'e']
    } else if w == 3 {
        seq!['W', 'e', 'd']
    } else if w == 4 {
        seq!['T', 'h', 'u']
    } else if w == 5 {
        seq!['F', 'r', 'i']
    } else {
        seq!['S', 'a', 't']
    }
}

/// Abbreviated weekday of the instant `epoch_ms`; 1970-01-01 was a Thursday.
pub fn epoch_ms_to_weekday(epoch_ms: u64) -> (r: &'static str)
    ensures
        r@ == weekday_name(((epoch_ms / MS_PER_DAY) as int + 4) % 7),
{
    let days = epoch_ms / MS_PER_DAY;
    let weekday = (days + 4) % 7;
    proof {
        reveal_strlit("Sun");
        reveal_strlit("Mon");
        reveal_strlit("Tue");
        reveal_strlit("Wed");
        reveal_strlit("Thu");
        reveal_strlit("Fri");
        reveal_strlit("Sat");
        assert("Sun"@ =~= seq!['S', 'u', 'n']);
        assert("Mon"@ =~= seq!['M', 'o', 'n']);
        assert("Tue"@ =~= seq!['T', 'u', 'e']);
        assert("Wed"@ =~= seq!['W', 'e', 'd']);
        assert("Thu"@ =~= seq!['T', 'h', 'u']);
        assert("Fri"@ =~= seq!['F', 'r', 'i']);
        assert("Sat"@ =~= seq!['S', 'a', 't']);
    }
    if weekday == 0 {
        "Sun"
    } else if weekday == 1 {
        "Mon"
    } else if weekday == 2 {
        "Tue"
    } else if weekday == 3 {
        "Wed"
    } else if weekday == 4 {
        "Thu"
    } else if weekday == 5 {
        "Fri"
    } else {
        "Sat"
    }
}


proof fn lemma_digit_char(k: int)
    requires
        0 <= k < 10,
    ensures
        digit_char(k) as u32 == k + 48,
        is_digit(digit_char(k)),
{
}

proof fn lemma_decimal(n: nat)
    ensures
        decimal(n).len() >= 1,
        all_digits(decimal(n)),
        digits_value(decimal(n)) == n,
    decreases n,
{
    lemma_digit_char((n % 10) as int);
    if n >= 10 {
        lemma_decimal(n / 10);
        let s = decimal(n);
        assert(s.drop_last() =~= decimal(n / 10));
        assert(s.last() == digit_char((n % 10) as int));
        assert(digits_value(s) == (n / 10) * 10 + n % 10);
        assert forall|i: int| 0 <= i < s.len() implies is_digit(#[trigger] s[i]) by {
            if i < s.len() - 1 {
                assert(s[i] == decimal(n / 10)[i]);
            }
        }
    } else {
        assert(decimal(n).drop_last() =~= Seq::<char>::empty());
        assert(decimal(n).last() == digit_char(n as int));
        assert(digits_value(Seq::<char>::empty()) == 0);
    }
}

proof fn lemma_zeros_value(k: nat, s: Seq<char>)
    ensures
        digits_value(Seq::new(k, |i: int| '0') + s) == digits_value(s),
    decreases s.len(), k,
{
    let z = Seq::new(k, |i: int| '0');
    if s.len() > 0 {
        assert((z + s).drop_last() =~= z + s.drop_last());
        lemma_zeros_value(k, s.drop_last());
    } else if k > 0 {
        let z1 = Seq::new((k - 1) as nat, |i: int| '0');
        assert(z.drop_last() =~= z1);
        assert(z + s =~= z);
        assert(z1 + s =~= z1);
        lemma_zeros_value((k - 1) as nat, s);
    } else {
        assert(z + s =~= s);
    }
}

proof fn lemma_padded(n: nat, w: nat)
    ensures
        padded(n, w).len() >= 1,
        all_digits(padded(n, w)),
        digits_value(padded(n, w)) == n,
        padded(n, w).len() == if decimal(n).len() < w {
            w as int
        } else {
            decimal(n).len() as int
        },
{
    lemma_decimal(n);
    let s = decimal(n);
    if s.len() < w {
        let k = (w - s.len()) as nat;
        lemma_zeros_value(k, s);
        let p = Seq::new(k, |i: int| '0') + s;
        assert forall|i: int| 0 <= i < p.len() implies is_digit(#[trigger] p[i]) by {
            if i >= k {
                assert(p[i] == s[i - k]);
            }
        }
    }
}

proof fn lemma_split_append(x: Seq<char>, y: Seq<char>, sep: char)
    requires
        forall|i: int| 0 <= i < y.len() ==> #[trigger] y[i] != sep,
    ensures
        split_on(x + y, sep) == split_on(x, sep).update(
            split_on(x, sep).len() - 1,
            split_on(x, sep).last() + y,
        ),
    decreases y.len(),
{
    crate::text::lemma_split_on_nonempty(x, sep);
    if y.len() == 0 {
        assert(x + y =~= x);
        assert(split_on(x, sep).last() + y =~= split_on(x, sep).last());
        assert(split_on(x, sep).update(split_on(x, sep).len() - 1, split_on(x, sep).last())
            =~= split_on(x, sep));
    } else {
        let y1 = y.drop_last();
        lemma_split_append(x, y1, sep);
        assert((x + y).drop_last() =~= x + y1);
        assert((x + y).last() == y.last());
        let r = split_on(x, sep);
        assert(r.last() + y =~= (r.last() + y1).push(y.last()));
        assert(split_on(x + y, sep) =~= r.update(r.len() - 1, r.last() + y));
    }
}

proof fn lemma_split_three(a: Seq<char>, b: Seq<char>, c: Seq<char>)
    requires
        all_digits(a),
        all_digits(b),
        all_digits(c),
    ensures
        split_on(a + seq!['-'] + b + seq!['-'] + c, '-') == seq![a, b, c],
{
    let e = Seq::<char>::empty();
    assert(split_on(e, '-') =~= seq![e]);
    assert forall|i: int| 0 <= i < a.len() implies #[trigger] a[i] != '-' by {
        assert(is_digit(a[i]));
    }
    assert forall|i: int| 0 <= i < b.len() implies #[trigger] b[i] != '-' by {
        assert(is_digit(b[i]));
    }
    assert forall|i: int| 0 <= i < c.len() implies #[trigger] c[i] != '-' by {
        assert(is_digit(c[i]));
    }
    lemma_split_append(e, a, '-');
    assert(e + a =~= a);
    assert(split_on(a, '-') =~= seq![a]);
    let a1 = a + seq!['-'];
    assert(a1.drop_last() =~= a);
    assert(split_on(a1, '-') =~= seq![a, e]);
    lemma_split_append(a1, b, '-');
    assert(split_on(a1 + b, '-') =~= seq![a, b]);
    let b1 = a1 + b + seq!['-'];
    assert(b1.drop_last() =~= a1 + b);
    assert(split_on(b1, '-') =~= seq![a, b, e]);
    lemma_split_append(b1, c, '-');
    assert(split_on(b1 + c, '-') =~= seq![a, b, c]);
    assert(a + seq!['-'] + b + seq!['-'] + c =~= b1 + c);
}

proof fn lemma_parse_padded(n: nat, w: nat, max: nat)
    requires
        n <= max,
    ensures
        parse_num(padded(n, w), max) == Some(n),
{
    lemma_padded(n, w);
    let s = padded(n, w);
    assert(is_digit(s[0]));
}

proof fn lemma_days_before_year_bound(y: int)
    ensures
        days_before_year(y) <= 366 * (if y > 1970 { y - 1970 } else { 0 }),
    decreases y - 1970,
{
    if y > 1970 {
        lemma_days_before_year_bound(y - 1);
    }
}

proof fn lemma_days_before_month_monotone(y: int, a: int, b: int)
    requires
        a <= b,
    ensures
        days_before_month(y, a) <= days_before_month(y, b),
    decreases b - a,
{
    if a < b {
        lemma_days_before_month_monotone(y, a, b - 1);
    }
}

proof fn lemma_year_total(y: int)
    ensures
        days_before_month(y, 13) == year_len(y),
{
    reveal_with_fuel(days_before_month, 13);
}

proof fn lemma_year_from(y0: int, y: int, r: int)
    requires
        1970 <= y0 <= y,
        0 <= r < year_len(y),
    ensures
        year_from(days_before_year(y) - days_before_year(y0) + r, y0) == (y, r),
    decreases y - y0,
{
    if y0 < y {
        lemma_days_before_year_monotone(y0 + 1, y);
        lemma_year_from(y0 + 1, y, r);
    }
}

proof fn lemma_month_from(y: int, m0: int, m: int, r: int)
    requires
        1 <= m0 <= m <= 12,
        0 <= r < month_len(y, m),
    ensures
        month_from(days_before_month(y, m) - days_before_month(y, m0) + r, y, m0) == (m, r),
    decreases m - m0,
{
    if m0 < m {
        lemma_days_before_month_monotone(y, m0 + 1, m);
        lemma_month_from(y, m0 + 1, m, r);
    }
}

/// Every date from 1970-01-01 to 9999-12-31, written `YYYY-MM-DD`, parses to a midnight
/// that formats back to the same text.
pub proof fn lemma_date_round_trip(y: nat, m: nat, d: nat)
    requires
        1970 <= y <= 9999,
        1 <= m <= 12,
        1 <= d <= month_len(y as int, m as int),
    ensures
        date_ms(date_text(y, m, d)) matches Some(ms) && date_of_day((ms / MS_PER_DAY) as nat)
            == date_text(y, m, d),
{
    let s = date_text(y, m, d);
    lemma_padded(y, 4);
    lemma_padded(m, 2);
    lemma_padded(d, 2);
    lemma_split_three(padded(y, 4), padded(m, 2), padded(d, 2));
    lemma_parse_padded(y, 4, i32::MAX as nat);
    lemma_parse_padded(m, 2, u32::MAX as nat);
    lemma_parse_padded(d, 2, u32::MAX as nat);
    let before = days_before_month(y as int, m as int) + d - 1;
    let days = days_before_year(y as int) + before;
    lemma_days_before_month_bounds(y as int, m as int);
    assert(date_days(s) == Some(days as nat));
    lemma_days_before_year_bound(y as int);
    lemma_days_before_year_monotone(1970, y as int);
    assert(366 * (y - 1970) <= 366 * 8029) by (nonlinear_arith)
        requires
            1970 <= y <= 9999,
    ;
    assert(days <= 366 * 8030 + 400);
    assert(days * MS_PER_DAY <= u64::MAX) by (nonlinear_arith)
        requires
            0 <= days <= 366 * 8030 + 400,
    ;
    let ms = (days * MS_PER_DAY) as u64;
    assert(date_ms(s) == Some(ms));
    assert(ms / MS_PER_DAY == days) by (nonlinear_arith)
        requires
            ms == days * MS_PER_DAY,
            days >= 0,
    ;
    lemma_days_before_month_monotone(y as int, m as int + 1, 13);
    lemma_year_total(y as int);
    lemma_year_from(1970, y as int, before);
    lemma_days_before_month_bounds(y as int, 1);
    lemma_month_from(y as int, 1, m as int, d - 1);
}

} // verus!
