//! Calendar dates: the civil date of a Unix time, and the two ways a date
//! typed as eight digits is shown (in the form, and in the history file).
use vstd::prelude::*;
use crate::text::{all_digits, digits_value, lex_le, is_digit, at_byte, char_width, char_width_of, lemma_at_byte_unique, utf8_len, chars_of, decimal, push_char, push_padded, string_of, without, without_char, zero_pad};

verus! {

// ---------------------------------------------------------------------------
// The proleptic Gregorian calendar
// ---------------------------------------------------------------------------

/// Leap years of the Gregorian calendar.
pub open spec fn is_leap(y: int) -> bool {
    y % 4 == 0 && (y % 100 != 0 || y % 400 == 0)
}

/// The number of days of year `y`.
pub open spec fn year_len(y: int) -> int {
    if is_leap(y) {
        366
    } else {
        365
    }
}

/// The number of days of month `m` (1 to 12) of year `y`.
pub open spec fn month_len(y: int, m: int) -> int {
    if m == 2 {
        if is_leap(y) {
            29
        } else {
            28
        }
    } else if m == 4 || m == 6 || m == 9 || m == 11 {
        30
    } else {
        31
    }
}

/// Days from 1970-01-01 to the first day of year `y`.
pub open spec fn days_before_year(y: int) -> int
    decreases y - 1970,
{
    if y <= 1970 {
        0
    } else {
        days_before_year(y - 1) + year_len(y - 1)
    }
}

/// Days from the first day of year `y` to the first day of month `m`.
pub open spec fn days_before_month(y: int, m: int) -> int
    decreases m,
{
    if m <= 1 {
        0
    } else {
        days_before_month(y, m - 1) + month_len(y, m - 1)
    }
}

/// A date of the calendar, from 1970 on.
pub open spec fn valid_date(y: int, m: int, d: int) -> bool {
    y >= 1970 && 1 <= m <= 12 && 1 <= d <= month_len(y, m)
}

/// Days from 1970-01-01 to the date.
pub open spec fn day_number(y: int, m: int, d: int) -> int {
    days_before_year(y) + days_before_month(y, m) + d - 1
}

/// `YYYY-MM-DD`: each part in decimal, padded with zeros to 4, 2 and 2
/// digits.
pub open spec fn date_text(y: nat, m: nat, d: nat) -> Seq<char> {
    zero_pad(decimal(y), 4) + seq!['-'] + zero_pad(decimal(m), 2) + seq!['-'] + zero_pad(
        decimal(d),
        2,
    )
}

/// The text that `unix_to_date` gives for a Unix time: that of the one
/// calendar date whose day number is the number of whole days elapsed.
pub open spec fn is_date_of(secs: nat, text: Seq<char>) -> bool {
    exists|y: nat, m: nat, d: nat|
        valid_date(y as int, m as int, d as int) && day_number(y as int, m as int, d as int) == secs
            / 86400 && text == #[trigger] date_text(y, m, d)
}

// ---------------------------------------------------------------------------
// Lemmas
// ---------------------------------------------------------------------------

proof fn lemma_year_total(y: int)
    ensures
        days_before_month(y, 13) == year_len(y),
        forall|m: int| 1 <= m <= 12 ==> #[trigger] days_before_month(y, m) + month_len(y, m)
            == days_before_month(y, m + 1),
{
    reveal_with_fuel(days_before_month, 13);
}

proof fn lemma_days_before_month_mono(y: int, m1: int, m2: int)
    requires
        1 <= m1 <= m2,
    ensures
        days_before_month(y, m1) + (m2 - m1) * 28 <= days_before_month(y, m2),
    decreases m2 - m1,
{
    if m1 < m2 {
        lemma_days_before_month_mono(y, m1, m2 - 1);
    }
}

proof fn lemma_days_before_year_mono(y1: int, y2: int)
    requires
        1970 <= y1 <= y2,
    ensures
        days_before_year(y1) + (y2 - y1) * 365 <= days_before_year(y2),
    decreases y2 - y1,
{
    if y1 < y2 {
        lemma_days_before_year_mono(y1, y2 - 1);
    }
}

/// Two calendar dates with the same day number are the same date.
pub proof fn lemma_day_number_injective(y1: int, m1: int, d1: int, y2: int, m2: int, d2: int)
    requires
        valid_date(y1, m1, d1),
        valid_date(y2, m2, d2),
        day_number(y1, m1, d1) == day_number(y2, m2, d2),
    ensures
        y1 == y2 && m1 == m2 && d1 == d2,
{
    lemma_year_total(y1);
    lemma_year_total(y2);
    if y1 < y2 {
        lemma_days_before_year_mono(y1 + 1, y2);
        lemma_days_before_month_mono(y1, m1 + 1, 13);
        assert(false);
    } else if y2 < y1 {
        lemma_days_before_year_mono(y2 + 1, y1);
        lemma_days_before_month_mono(y2, m2 + 1, 13);
        assert(false);
    } else if m1 < m2 {
        lemma_days_before_month_mono(y1, m1 + 1, m2);
        assert(false);
    } else if m2 < m1 {
        lemma_days_before_month_mono(y1, m2 + 1, m1);
        assert(false);
    }
}

// ---------------------------------------------------------------------------
// Executable functions
// ---------------------------------------------------------------------------

fn is_leap_year(y: u64) -> (res: bool)
    ensures
        res == is_leap(y as int),
{
    y % 4 == 0 && (y % 100 != 0 || y % 400 == 0)
}

fn year_length(y: u64) -> (res: u64)
    ensures
        res == year_len(y as int),
{
    if is_leap_year(y) {
        366
    } else {
        365
    }
}

fn month_length(y: u64, m: u64) -> (res: u64)
    ensures
        res == month_len(y as int, m as int),
{
    if m == 2 {
        if is_leap_year(y) {
            29
        } else {
            28
        }
    } else if m == 4 || m == 6 || m == 9 || m == 11 {
        30
    } else {
        31
    }
}

/// The calendar date (year, month, day) that lies `days` days after
/// 1970-01-01.
pub fn civil_from_days(days: u64) -> (res: (u64, u64, u64))
    requires
        days <= u64::MAX / 86400,
    ensures
        valid_date(res.0 as int, res.1 as int, res.2 as int),
        day_number(res.0 as int, res.1 as int, res.2 as int) == days,
{
    let mut rest: u64 = days;
    let mut year: u64 = 1970;
    while rest >= year_length(year)
        invariant
            year >= 1970,
            rest <= days,
            days <= u64::MAX / 86400,
            days_before_year(year as int) + rest == days,
            (year - 1970) * 365 <= days - rest,
        decreases rest,
    {
        rest = rest - year_length(year);
        year = year + 1;
    }
    proof {
        lemma_year_total(year as int);
    }
    let mut month: u64 = 1;
    while rest >= month_length(year, month)
        invariant
            1 <= month <= 12,
            days_before_year(year as int) + days_before_month(year as int, month as int) + rest
                == days,
            days_before_month(year as int, month as int) + rest < year_len(year as int),
            days_before_month(year as int, 13) == year_len(year as int),
            forall|m: int|
                1 <= m <= 12 ==> #[trigger] days_before_month(year as int, m) + month_len(
                    year as int,
                    m,
                ) == days_before_month(year as int, m + 1),
        decreases 12 - month,
    {
        rest = rest - month_length(year, month);
        month = month + 1;
    }
    (year, month, rest + 1)
}

/// The date `YYYY-MM-DD` of a Unix time (seconds since 1970-01-01, UTC).
pub fn unix_to_date(secs: u64) -> (res: String)
    ensures
        is_date_of(secs as nat, res@),
{
    let (y, m, d) = civil_from_days(secs / 86400);
    let mut out = String::new();
    push_padded(&mut out, y, 4);
    push_char(&mut out, '-');
    push_padded(&mut out, m, 2);
    push_char(&mut out, '-');
    push_padded(&mut out, d, 2);
    assert(out@ =~= date_text(y as nat, m as nat, d as nat));
    out
}

/// The digits of a date: the text without its dashes.
pub fn date_digits(date: &str) -> (res: String)
    ensures
        res@ == without(date@, '-'),
{
    let cs = chars_of(date);
    let kept = without_char(cs.as_slice(), '-');
    string_of(kept.as_slice())
}

/// What the form shows at position `i` of the typed digits: the digit, or
/// `_` where none was typed yet.
pub open spec fn slot(cs: Seq<char>, i: int) -> char {
    if i < cs.len() {
        cs[i]
    } else {
        '_'
    }
}

/// The date as the form shows it while it is typed: `YYYY-MM-DD`, with the
/// first eight typed characters in place of the letters and `_` in place of
/// those not typed yet.
pub open spec fn display_text(cs: Seq<char>) -> Seq<char> {
    seq![
        slot(cs, 0),
        slot(cs, 1),
        slot(cs, 2),
        slot(cs, 3),
        '-',
        slot(cs, 4),
        slot(cs, 5),
        '-',
        slot(cs, 6),
        slot(cs, 7),
    ]
}

/// Text of eight bytes that can be cut after its fourth and sixth byte.
pub open spec fn cuttable(cs: Seq<char>) -> bool {
    utf8_len(cs) == 8 ==> (exists|i: int| at_byte(cs, 4, i)) && (exists|j: int| at_byte(cs, 6, j))
}

/// The date as the history file holds it: text of eight bytes is cut into
/// 4, 2 and 2 bytes joined by dashes; any other text is shown as the form
/// shows it.
pub open spec fn csv_date_text(cs: Seq<char>) -> Seq<char> {
    if utf8_len(cs) == 8 {
        let i = choose|i: int| at_byte(cs, 4, i);
        let j = choose|j: int| at_byte(cs, 6, j);
        cs.take(i) + seq!['-'] + cs.subrange(i, j) + seq!['-'] + cs.skip(j)
    } else {
        display_text(cs)
    }
}

fn slot_char(cs: &Vec<char>, i: usize) -> (c: char)
    ensures
        c == slot(cs@, i as int),
{
    if i < cs.len() {
        cs[i]
    } else {
        '_'
    }
}

/// The date as the form shows it while the digits are typed.
pub fn format_date_display(digits: &str) -> (res: String)
    ensures
        res@ == display_text(digits@),
{
    let cs = chars_of(digits);
    let mut out = String::new();
    push_char(&mut out, slot_char(&cs, 0));
    push_char(&mut out, slot_char(&cs, 1));
    push_char(&mut out, slot_char(&cs, 2));
    push_char(&mut out, slot_char(&cs, 3));
    push_char(&mut out, '-');
    push_char(&mut out, slot_char(&cs, 4));
    push_char(&mut out, slot_char(&cs, 5));
    push_char(&mut out, '-');
    push_char(&mut out, slot_char(&cs, 6));
    push_char(&mut out, slot_char(&cs, 7));
    assert(out@ =~= display_text(digits@));
    out
}

/// The character index at which the UTF-8 encoding of `cs` has its byte
/// offset `b`, if that offset is a character boundary.
fn byte_boundary(cs: &Vec<char>, b: u64) -> (res: Option<usize>)
    requires
        b <= 8,
    ensures
        match res {
            Some(i) => at_byte(cs@, b as nat, i as int),
            None => forall|k: int| !at_byte(cs@, b as nat, k),
        },
{
    let mut bytes: u64 = 0;
    let mut i: usize = 0;
    assert(cs@.take(0) =~= Seq::<char>::empty());
    while i < cs.len() && bytes < b
        invariant
            i <= cs.len(),
            b <= 8,
            bytes == utf8_len(cs@.take(i as int)),
            bytes < b + 4,
            forall|k: int| 0 <= k < i ==> utf8_len(#[trigger] cs@.take(k)) < b,
        decreases cs.len() - i,
    {
        assert(cs@.take(i + 1).drop_last() =~= cs@.take(i as int));
        bytes = bytes + char_width_of(cs[i]);
        i = i + 1;
    }
    if bytes == b {
        Some(i)
    } else {
        assert forall|k: int| !at_byte(cs@, b as nat, k) by {
            if 0 <= k <= cs@.len() && k > i {
                crate::text::lemma_utf8_len_take_mono(cs@, i as int, k);
            }
        }
        None
    }
}

/// Whether the UTF-8 encoding of `cs` takes `n` bytes.
fn has_utf8_len(cs: &Vec<char>, n: u64) -> (res: bool)
    requires
        n <= 8,
    ensures
        res == (utf8_len(cs@) == n),
{
    let mut bytes: u64 = 0;
    let mut i: usize = 0;
    assert(cs@.take(0) =~= Seq::<char>::empty());
    while i < cs.len() && bytes <= n
        invariant
            i <= cs.len(),
            n <= 8,
            bytes == utf8_len(cs@.take(i as int)),
            bytes <= n + 4,
        decreases cs.len() - i,
    {
        assert(cs@.take(i + 1).drop_last() =~= cs@.take(i as int));
        bytes = bytes + char_width_of(cs[i]);
        i = i + 1;
    }
    if i == cs.len() {
        assert(cs@.take(i as int) =~= cs@);
        bytes == n
    } else {
        assert(cs@.take(cs@.len() as int) =~= cs@);
        proof {
            crate::text::lemma_utf8_len_take_mono(cs@, i as int, cs@.len() as int);
        }
        false
    }
}

/// Appends the characters of `cs` from index `from` up to `to`.
fn push_range(out: &mut String, cs: &Vec<char>, from: usize, to: usize)
    requires
        from <= to <= cs.len(),
    ensures
        final(out)@ == old(out)@ + cs@.subrange(from as int, to as int),
{
    let ghost start = out@;
    let mut k = from;
    while k < to
        invariant
            from <= k <= to,
            to <= cs.len(),
            out@ == start + cs@.subrange(from as int, k as int),
        decreases to - k,
    {
        push_char(out, cs[k]);
        k = k + 1;
        assert(cs@.subrange(from as int, k as int) =~= cs@.subrange(from as int, k - 1).push(
            cs@[k - 1],
        ));
    }
}

/// The date as the history file holds it.
pub fn format_date_csv(digits: &str) -> (res: String)
    requires
        cuttable(digits@),
    ensures
        res@ == csv_date_text(digits@),
{
    let cs = chars_of(digits);
    if has_utf8_len(&cs, 8) {
        let i4 = match byte_boundary(&cs, 4) {
            Some(i) => i,
            None => {
                assert(false);
                0
            },
        };
        let i6 = match byte_boundary(&cs, 6) {
            Some(i) => i,
            None => {
                assert(false);
                0
            },
        };
        proof {
            lemma_at_byte_unique(cs@, 4, i4 as int, choose|i: int| at_byte(cs@, 4, i));
            lemma_at_byte_unique(cs@, 6, i6 as int, choose|j: int| at_byte(cs@, 6, j));
            if i6 < i4 {
                crate::text::lemma_utf8_len_take_mono(cs@, i6 as int, i4 as int);
            }
        }
        let mut out = String::new();
        push_range(&mut out, &cs, 0, i4);
        push_char(&mut out, '-');
        push_range(&mut out, &cs, i4, i6);
        push_char(&mut out, '-');
        push_range(&mut out, &cs, i6, cs.len());
        assert(cs@.subrange(0, i4 as int) =~= cs@.take(i4 as int));
        assert(cs@.subrange(i6 as int, cs@.len() as int) =~= cs@.skip(i6 as int));
        out
    } else {
        format_date_display(digits)
    }
}

// ---------------------------------------------------------------------------
// Dates through the form and the history file
// ---------------------------------------------------------------------------

/// Eight ASCII digits: a date as the form takes it.
pub open spec fn eight_digits(d: Seq<char>) -> bool {
    d.len() == 8 && all_digits(d)
}

/// Eight digits are cut into 4, 2 and 2 digits joined by dashes in the
/// history file; taking the dashes out gives the digits back.
pub proof fn lemma_csv_date_of_digits(d: Seq<char>)
    requires
        eight_digits(d),
    ensures
        cuttable(d),
        csv_date_text(d) == d.take(4) + seq!['-'] + d.subrange(4, 6) + seq!['-'] + d.skip(6),
        without(csv_date_text(d), '-') == d,
        !csv_date_text(d).contains(','),
        !csv_date_text(d).contains('\n'),
{
    assert forall|i: int| 0 <= i <= 8 implies utf8_len(#[trigger] d.take(i)) == i by {
        let t = d.take(i);
        assert forall|k: int| 0 <= k < t.len() implies (#[trigger] t[k] as int) < 128 by {
            assert(t[k] == d[k]);
            assert(is_digit(d[k]));
        }
        crate::text::lemma_utf8_len_ascii(t);
    }
    assert(d.take(8) =~= d);
    assert(at_byte(d, 4, 4));
    assert(at_byte(d, 6, 6));
    let i = choose|i: int| at_byte(d, 4, i);
    let j = choose|j: int| at_byte(d, 6, j);
    lemma_at_byte_unique(d, 4, i, 4);
    lemma_at_byte_unique(d, 6, j, 6);
    let t = d.take(4) + seq!['-'] + d.subrange(4, 6) + seq!['-'] + d.skip(6);
    assert(!d.contains('-')) by {
        if d.contains('-') {
            let k = choose|k: int| 0 <= k < d.len() && d[k] == '-';
            assert(is_digit(d[k]));
        }
    }
    crate::text::lemma_without_single('-');
    crate::text::lemma_without_concat(d.take(4) + seq!['-'] + d.subrange(4, 6) + seq!['-'], d.skip(6), '-');
    crate::text::lemma_without_concat(d.take(4) + seq!['-'] + d.subrange(4, 6), seq!['-'], '-');
    crate::text::lemma_without_concat(d.take(4) + seq!['-'], d.subrange(4, 6), '-');
    crate::text::lemma_without_concat(d.take(4), seq!['-'], '-');
    assert forall|a: int, b: int| 0 <= a <= b <= 8 implies !(#[trigger] d.subrange(a, b)).contains('-') by {
        if d.subrange(a, b).contains('-') {
            let k = choose|k: int| 0 <= k < d.subrange(a, b).len() && d.subrange(a, b)[k] == '-';
            assert(d[a + k] == '-');
        }
    }
    assert(d.take(4) =~= d.subrange(0, 4));
    assert(d.skip(6) =~= d.subrange(6, 8));
    crate::text::lemma_without_absent(d.subrange(0, 4), '-');
    crate::text::lemma_without_absent(d.subrange(4, 6), '-');
    crate::text::lemma_without_absent(d.subrange(6, 8), '-');
    assert(d.subrange(0, 4) + d.subrange(4, 6) + d.subrange(6, 8) =~= d);
    assert forall|k: int| 0 <= k < t.len() implies t[k] != ',' && t[k] != '\n' by {
        if k < 4 {
            assert(t[k] == d[k]);
            assert(is_digit(d[k]));
        } else if 4 < k < 7 {
            assert(t[k] == d[k - 1]);
            assert(is_digit(d[k - 1]));
        } else if k > 7 {
            assert(t[k] == d[k - 2]);
            assert(is_digit(d[k - 2]));
        }
    }
}

/// The powers of ten up to 10000.
pub open spec fn pow10(w: nat) -> nat
    decreases w,
{
    if w == 0 {
        1
    } else {
        10 * pow10((w - 1) as nat)
    }
}

proof fn lemma_decimal_short(n: nat, w: nat)
    requires
        1 <= w,
        n < pow10(w),
    ensures
        decimal(n).len() <= w,
    decreases w,
{
    if n >= 10 {
        assert(pow10(w) == 10 * pow10((w - 1) as nat));
        assert(pow10(0) == 1);
        if w == 1 {
            assert(false);
        }
        lemma_decimal_short(n / 10, (w - 1) as nat);
    }
}

proof fn lemma_padded_digits(n: nat, w: nat)
    requires
        1 <= w,
        n < pow10(w),
    ensures
        zero_pad(decimal(n), w).len() == w,
        all_digits(zero_pad(decimal(n), w)),
        digits_value(zero_pad(decimal(n), w)) == n,
{
    lemma_decimal_short(n, w);
    crate::text::lemma_zero_pad_digits(n, w);
    crate::text::lemma_decimal_digits(n);
    let z = zero_pad(decimal(n), w);
    let d = decimal(n);
    assert forall|k: int| 0 <= k < z.len() implies is_digit(#[trigger] z[k]) by {
        if d.len() < w {
            if k < w - d.len() {
                assert(z[k] == '0');
            } else {
                assert(z[k] == d[k - (w - d.len())]);
            }
        } else {
            assert(z[k] == d[k]);
        }
    }
}

/// A date of a four-digit year becomes eight digits in the form, which the
/// history file writes back as the same date.
pub proof fn lemma_date_round_trip(y: nat, m: nat, d: nat)
    requires
        valid_date(y as int, m as int, d as int),
        y <= 9999,
    ensures
        eight_digits(without(date_text(y, m, d), '-')),
        csv_date_text(without(date_text(y, m, d), '-')) == date_text(y, m, d),
{
    reveal_with_fuel(pow10, 5);
    lemma_padded_digits(y, 4);
    lemma_padded_digits(m, 2);
    lemma_padded_digits(d, 2);
    let a = zero_pad(decimal(y), 4);
    let b = zero_pad(decimal(m), 2);
    let c = zero_pad(decimal(d), 2);
    assert(date_text(y, m, d) == a + seq!['-'] + b + seq!['-'] + c);
    crate::text::lemma_without_single('-');
    assert forall|s: Seq<char>| all_digits(s) implies #[trigger] without(s, '-') == s by {
        if s.contains('-') {
            let k = choose|k: int| 0 <= k < s.len() && s[k] == '-';
            assert(is_digit(s[k]));
        }
        crate::text::lemma_without_absent(s, '-');
    }
    crate::text::lemma_without_concat(a + seq!['-'] + b + seq!['-'], c, '-');
    crate::text::lemma_without_concat(a + seq!['-'] + b, seq!['-'], '-');
    crate::text::lemma_without_concat(a + seq!['-'], b, '-');
    crate::text::lemma_without_concat(a, seq!['-'], '-');
    assert(without(a, '-') == a);
    assert(without(b, '-') == b);
    assert(without(c, '-') == c);
    let e = a + b + c;
    assert(without(date_text(y, m, d), '-') =~= e);
    assert forall|k: int| 0 <= k < e.len() implies is_digit(#[trigger] e[k]) by {
        if k < 4 {
            assert(e[k] == a[k]);
        } else if k < 6 {
            assert(e[k] == b[k - 4]);
        } else {
            assert(e[k] == c[k - 6]);
        }
    }
    lemma_csv_date_of_digits(e);
    assert(e.take(4) =~= a);
    assert(e.subrange(4, 6) =~= b);
    assert(e.skip(6) =~= c);
}


// ---------------------------------------------------------------------------
// The order of dates
// ---------------------------------------------------------------------------

/// The leap years from year 1 to year `n`.
spec fn leap_count(n: int) -> int {
    n / 4 - n / 100 + n / 400
}

proof fn lemma_days_before_year_closed(y: int)
    requires
        y >= 1970,
    ensures
        days_before_year(y) == 365 * (y - 1970) + leap_count(y - 1) - leap_count(1969),
    decreases y - 1970,
{
    if y > 1970 {
        lemma_days_before_year_closed(y - 1);
        let n = y - 1;
        assert(leap_count(n) - leap_count(n - 1) == if is_leap(n) {
            1int
        } else {
            0int
        });
    }
}

/// A date whose day number is below 2932897 (the day number of
/// 10000-01-01) has a four-digit year.
proof fn lemma_below_year_10000(y: int, m: int, d: int)
    requires
        valid_date(y, m, d),
        day_number(y, m, d) < 2932897,
    ensures
        y < 10000,
{
    if y >= 10000 {
        lemma_days_before_year_closed(10000);
        assert(leap_count(9999) == 2424);
        assert(leap_count(1969) == 477);
        lemma_days_before_year_mono(10000, y);
        lemma_days_before_month_mono(y, 1, m);
        assert(false);
    }
}

/// Date `(y1, m1, d1)` comes before date `(y2, m2, d2)`, or is the same.
pub open spec fn date_le(y1: int, m1: int, d1: int, y2: int, m2: int, d2: int) -> bool {
    y1 < y2 || (y1 == y2 && (m1 < m2 || (m1 == m2 && d1 <= d2)))
}

/// Day numbers are in the order of the dates.
proof fn lemma_day_number_order(y1: int, m1: int, d1: int, y2: int, m2: int, d2: int)
    requires
        valid_date(y1, m1, d1),
        valid_date(y2, m2, d2),
    ensures
        day_number(y1, m1, d1) <= day_number(y2, m2, d2) <==> date_le(y1, m1, d1, y2, m2, d2),
{
    lemma_year_total(y1);
    lemma_year_total(y2);
    if y1 < y2 {
        lemma_days_before_year_mono(y1 + 1, y2);
        lemma_days_before_month_mono(y1, m1 + 1, 13);
        lemma_days_before_month_mono(y2, 1, m2);
    } else if y2 < y1 {
        lemma_days_before_year_mono(y2 + 1, y1);
        lemma_days_before_month_mono(y2, m2 + 1, 13);
        lemma_days_before_month_mono(y1, 1, m1);
    } else if m1 < m2 {
        lemma_days_before_month_mono(y1, m1 + 1, m2);
    } else if m2 < m1 {
        lemma_days_before_month_mono(y1, m2 + 1, m1);
    }
}

/// The text of a date with a four-digit year: the padded year, then the
/// rest.
proof fn lemma_date_text_parts(y: nat, m: nat, d: nat)
    requires
        y < 10000,
        m < 100,
        d < 100,
    ensures
        date_text(y, m, d) == zero_pad(decimal(y), 4) + (seq!['-'] + (zero_pad(decimal(m), 2) + (
        seq!['-'] + zero_pad(decimal(d), 2)))),
        date_text(y, m, d).len() == 10,
        date_text(y, m, d)[4] == '-',
        date_text(y, m, d)[7] == '-',
        forall|i: int|
            0 <= i < 10 && i != 4 && i != 7 ==> is_digit(#[trigger] date_text(y, m, d)[i]),
{
    reveal_with_fuel(pow10, 5);
    lemma_padded_digits(y, 4);
    lemma_padded_digits(m, 2);
    lemma_padded_digits(d, 2);
    let a = zero_pad(decimal(y), 4);
    let b = zero_pad(decimal(m), 2);
    let c = zero_pad(decimal(d), 2);
    let t = date_text(y, m, d);
    assert(t =~= a + (seq!['-'] + (b + (seq!['-'] + c))));
    assert forall|i: int| 0 <= i < 10 && i != 4 && i != 7 implies is_digit(#[trigger] t[i]) by {
        if i < 4 {
            assert(t[i] == a[i]);
        } else if i < 7 {
            assert(t[i] == b[i - 5]);
        } else {
            assert(t[i] == c[i - 8]);
        }
    }
}

/// The texts of dates with four-digit years are in the order of the dates,
/// and equal only for the same date.
proof fn lemma_date_text_order(y1: nat, m1: nat, d1: nat, y2: nat, m2: nat, d2: nat)
    requires
        y1 < 10000,
        m1 < 100,
        d1 < 100,
        y2 < 10000,
        m2 < 100,
        d2 < 100,
    ensures
        lex_le(date_text(y1, m1, d1), date_text(y2, m2, d2)) <==> date_le(
            y1 as int,
            m1 as int,
            d1 as int,
            y2 as int,
            m2 as int,
            d2 as int,
        ),
{
    reveal_with_fuel(pow10, 5);
    lemma_date_text_parts(y1, m1, d1);
    lemma_date_text_parts(y2, m2, d2);
    lemma_padded_digits(y1, 4);
    lemma_padded_digits(m1, 2);
    lemma_padded_digits(d1, 2);
    lemma_padded_digits(y2, 4);
    lemma_padded_digits(m2, 2);
    lemma_padded_digits(d2, 2);
    let a1 = zero_pad(decimal(y1), 4);
    let b1 = zero_pad(decimal(m1), 2);
    let c1 = zero_pad(decimal(d1), 2);
    let a2 = zero_pad(decimal(y2), 4);
    let b2 = zero_pad(decimal(m2), 2);
    let c2 = zero_pad(decimal(d2), 2);
    let dash = seq!['-'];
    crate::text::lemma_digits_lex(a1, a2);
    crate::text::lemma_digits_lex(b1, b2);
    crate::text::lemma_digits_lex(c1, c2);
    crate::text::lemma_lex_le_concat(a1, dash + (b1 + (dash + c1)), a2, dash + (b2 + (dash + c2)));
    crate::text::lemma_lex_le_concat(dash, b1 + (dash + c1), dash, b2 + (dash + c2));
    crate::text::lemma_lex_le_concat(b1, dash + c1, b2, dash + c2);
    crate::text::lemma_lex_le_concat(dash, c1, dash, c2);
}

/// The date of a Unix time before the year 10000 is ten characters long:
/// four digits of the year, a dash, two digits of the month, a dash and two
/// digits of the day.
pub proof fn lemma_unix_date_shape(secs: nat, t: Seq<char>)
    requires
        is_date_of(secs, t),
        secs < 253402300800,
    ensures
        t.len() == 10,
        t[4] == '-',
        t[7] == '-',
        forall|i: int| 0 <= i < 10 && i != 4 && i != 7 ==> is_digit(#[trigger] t[i]),
{
    let (y, m, d) = choose|y: nat, m: nat, d: nat|
        valid_date(y as int, m as int, d as int) && day_number(y as int, m as int, d as int)
            == secs / 86400 && t == #[trigger] date_text(y, m, d);
    lemma_below_year_10000(y as int, m as int, d as int);
    lemma_date_text_parts(y, m, d);
}

/// Dates of Unix times before the year 10000 are in the order of the
/// times, as texts (so sorting by the text sorts by time), and two such
/// times give the same date exactly when they fall on the same day.
pub proof fn lemma_unix_date_order(s1: nat, t1: Seq<char>, s2: nat, t2: Seq<char>)
    requires
        is_date_of(s1, t1),
        is_date_of(s2, t2),
        s1 < 253402300800,
        s2 < 253402300800,
    ensures
        s1 <= s2 ==> lex_le(t1, t2),
        t1 == t2 <==> s1 / 86400 == s2 / 86400,
{
    let (y1, m1, d1) = choose|y: nat, m: nat, d: nat|
        valid_date(y as int, m as int, d as int) && day_number(y as int, m as int, d as int)
            == s1 / 86400 && t1 == #[trigger] date_text(y, m, d);
    let (y2, m2, d2) = choose|y: nat, m: nat, d: nat|
        valid_date(y as int, m as int, d as int) && day_number(y as int, m as int, d as int)
            == s2 / 86400 && t2 == #[trigger] date_text(y, m, d);
    lemma_below_year_10000(y1 as int, m1 as int, d1 as int);
    lemma_below_year_10000(y2 as int, m2 as int, d2 as int);
    lemma_day_number_order(y1 as int, m1 as int, d1 as int, y2 as int, m2 as int, d2 as int);
    lemma_day_number_order(y2 as int, m2 as int, d2 as int, y1 as int, m1 as int, d1 as int);
    lemma_date_text_order(y1, m1, d1, y2, m2, d2);
    lemma_date_text_order(y2, m2, d2, y1, m1, d1);
    if s1 <= s2 {
        assert(s1 / 86400 <= s2 / 86400) by (nonlinear_arith)
            requires
                s1 <= s2,
        ;
    }
    if t1 == t2 {
        crate::text::lemma_lex_le_refl(t1);
    }
    if s1 / 86400 == s2 / 86400 {
        lemma_day_number_injective(y1 as int, m1 as int, d1 as int, y2 as int, m2 as int, d2 as int);
    }
}

} // verus!
