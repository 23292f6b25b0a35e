//! Calendar dates: the day cursor of a user and the date segment of a key.
//!
//! Dates are timezone-naive days of the proleptic Gregorian calendar with a
//! year in `0..=9999`. Their text is the zero-padded ISO form `YYYY-MM-DD`,
//! ten characters wide, so that the order of the texts is the order of the
//! days.

use crate::text::{
    holds_at, lemma_holds_at_concat, lemma_lex_lt_common_prefix, lemma_lex_lt_extend,
    lemma_padded_text, lemma_padded_text_injective, lemma_padded_text_order, lemma_pow10_values,
    lex_lt, padded_text, pow10, read_padded, to_chars,
};
use jiff::ToSpan;
use vstd::prelude::*;

verus! {

/// The year, month and day that a date stands for.
pub struct YearMonthDay {
    pub year: int,
    pub month: int,
    pub day: int,
}

/// The date of the three numbers.
pub open spec fn ymd(year: int, month: int, day: int) -> YearMonthDay {
    YearMonthDay { year, month, day }
}

/// Whether `year` has a 29th of February.
pub open spec fn is_leap_year(year: int) -> bool {
    year % 4 == 0 && (year % 100 != 0 || year % 400 == 0)
}

/// The number of days of `month` in `year`.
pub open spec fn days_in_month(year: int, month: int) -> int {
    if month == 2 {
        if is_leap_year(year) {
            29
        } else {
            28
        }
    } else if month == 4 || month == 6 || month == 9 || month == 11 {
        30
    } else {
        31
    }
}

/// Whether the three numbers name a day of the Gregorian calendar.
pub open spec fn is_gregorian_date(year: int, month: int, day: int) -> bool {
    &&& -9999 <= year <= 9999
    &&& 1 <= month <= 12
    &&& 1 <= day <= days_in_month(year, month)
}

/// Whether `d` is a date that this library stores: a Gregorian date whose
/// year has four digits and no sign.
pub open spec fn is_calendar_date(d: YearMonthDay) -> bool {
    0 <= d.year && is_gregorian_date(d.year, d.month, d.day)
}

/// The last date that can be stored.
pub open spec fn is_last_date(d: YearMonthDay) -> bool {
    d.year == 9999 && d.month == 12 && d.day == 31
}

/// The day after `d`.
pub open spec fn next_day(d: YearMonthDay) -> YearMonthDay {
    if d.day < days_in_month(d.year, d.month) {
        YearMonthDay { year: d.year, month: d.month, day: d.day + 1 }
    } else if d.month < 12 {
        YearMonthDay { year: d.year, month: d.month + 1, day: 1 }
    } else {
        YearMonthDay { year: d.year + 1, month: 1, day: 1 }
    }
}

/// The day after the given one as machine integers, or `None` after the last
/// date.
pub open spec fn day_after(year: i16, month: i8, day: i8) -> Option<(i16, i8, i8)> {
    let d = ymd(year as int, month as int, day as int);
    if is_last_date(d) {
        None
    } else {
        Some((next_day(d).year as i16, next_day(d).month as i8, next_day(d).day as i8))
    }
}

/// Whether `a` is an earlier day than `b`.
pub open spec fn date_lt(a: YearMonthDay, b: YearMonthDay) -> bool {
    a.year < b.year || (a.year == b.year && (a.month < b.month || (a.month == b.month && a.day
        < b.day)))
}

/// The text `YYYY-MM-DD` of `d`.
pub open spec fn iso_date_text(d: YearMonthDay) -> Seq<char> {
    padded_text(d.year as nat, 4) + seq!['-'] + padded_text(d.month as nat, 2) + seq!['-']
        + padded_text(d.day as nat, 2)
}

/// The text of a date is ten characters wide and falls into the year, the
/// month and the day at fixed places.
pub proof fn lemma_iso_date_text_parts(s: Seq<char>, pos: int, d: YearMonthDay)
    ensures
        iso_date_text(d).len() == 10,
        holds_at(s, pos, iso_date_text(d)) <==> {
            &&& holds_at(s, pos, padded_text(d.year as nat, 4))
            &&& holds_at(s, pos + 4, seq!['-'])
            &&& holds_at(s, pos + 5, padded_text(d.month as nat, 2))
            &&& holds_at(s, pos + 7, seq!['-'])
            &&& holds_at(s, pos + 8, padded_text(d.day as nat, 2))
        },
{
    let y = padded_text(d.year as nat, 4);
    let m = padded_text(d.month as nat, 2);
    let n = padded_text(d.day as nat, 2);
    let dash = seq!['-'];
    lemma_padded_text(d.year as nat, 4);
    lemma_padded_text(d.month as nat, 2);
    lemma_padded_text(d.day as nat, 2);
    lemma_holds_at_concat(s, pos, y + dash + m + dash, n);
    lemma_holds_at_concat(s, pos, y + dash + m, dash);
    lemma_holds_at_concat(s, pos, y + dash, m);
    lemma_holds_at_concat(s, pos, y, dash);
}

/// The date `n` days after `d`.
pub open spec fn days_later(d: YearMonthDay, n: nat) -> YearMonthDay
    decreases n,
{
    if n == 0 {
        d
    } else {
        next_day(days_later(d, (n - 1) as nat))
    }
}

/// The day after a calendar date is a later calendar date, unless the date is
/// the last one.
pub proof fn lemma_next_day_is_later(d: YearMonthDay)
    requires
        is_calendar_date(d),
        !is_last_date(d),
    ensures
        is_calendar_date(next_day(d)),
        date_lt(d, next_day(d)),
{
}

/// Counting days on from a calendar date either stays within the calendar or
/// has left it for good.
proof fn lemma_days_later_stays_or_leaves(d: YearMonthDay, n: nat)
    requires
        is_calendar_date(d),
    ensures
        is_calendar_date(days_later(d, n)) || days_later(d, n).year > 9999,
    decreases n,
{
    if n > 0 {
        lemma_days_later_stays_or_leaves(d, (n - 1) as nat);
    }
}

/// Rollover monotonicity: of the dates that repeated rollovers of a calendar
/// date pass through, each is a calendar date strictly later than all before
/// it, as long as the last of them is still a calendar date.
pub proof fn lemma_rollovers_increase(d: YearMonthDay, i: nat, j: nat)
    requires
        is_calendar_date(d),
        i < j,
        is_calendar_date(days_later(d, j)),
    ensures
        is_calendar_date(days_later(d, i)),
        !is_last_date(days_later(d, i)),
        date_lt(days_later(d, i), days_later(d, j)),
    decreases j - i,
{
    let before = days_later(d, (j - 1) as nat);
    lemma_days_later_stays_or_leaves(d, (j - 1) as nat);
    assert(is_calendar_date(before) && !is_last_date(before));
    if i + 1 < j {
        lemma_rollovers_increase(d, i, (j - 1) as nat);
    }
}

/// Different dates have different texts.
pub proof fn lemma_iso_date_text_injective(a: YearMonthDay, b: YearMonthDay)
    requires
        is_calendar_date(a),
        is_calendar_date(b),
        iso_date_text(a) == iso_date_text(b),
    ensures
        a == b,
{
    lemma_pow10_values();
    let s = iso_date_text(a);
    lemma_iso_date_text_parts(s, 0, a);
    lemma_iso_date_text_parts(s, 0, b);
    assert(s.subrange(0, 10) == s);
    assert(holds_at(s, 0, s));
    lemma_padded_text(a.year as nat, 4);
    lemma_padded_text(b.year as nat, 4);
    lemma_padded_text(a.month as nat, 2);
    lemma_padded_text(b.month as nat, 2);
    lemma_padded_text(a.day as nat, 2);
    lemma_padded_text(b.day as nat, 2);
    assert(padded_text(a.year as nat, 4) == padded_text(b.year as nat, 4));
    assert(padded_text(a.month as nat, 2) == padded_text(b.month as nat, 2));
    assert(padded_text(a.day as nat, 2) == padded_text(b.day as nat, 2));
    lemma_padded_text_injective(a.year as nat, b.year as nat, 4);
    lemma_padded_text_injective(a.month as nat, b.month as nat, 2);
    lemma_padded_text_injective(a.day as nat, b.day as nat, 2);
}

/// Earlier dates have texts that sort first.
pub proof fn lemma_iso_date_text_order(a: YearMonthDay, b: YearMonthDay)
    requires
        is_calendar_date(a),
        is_calendar_date(b),
        date_lt(a, b),
    ensures
        lex_lt(iso_date_text(a), iso_date_text(b)),
{
    reveal_with_fuel(pow10, 5);
    let dash = seq!['-'];
    let ya = padded_text(a.year as nat, 4);
    let yb = padded_text(b.year as nat, 4);
    let ma = padded_text(a.month as nat, 2);
    let mb = padded_text(b.month as nat, 2);
    let da = padded_text(a.day as nat, 2);
    let db = padded_text(b.day as nat, 2);
    lemma_padded_text(a.year as nat, 4);
    lemma_padded_text(b.year as nat, 4);
    lemma_padded_text(a.month as nat, 2);
    lemma_padded_text(b.month as nat, 2);
    assert(iso_date_text(a) == ya + (dash + ma + dash + da));
    assert(iso_date_text(b) == yb + (dash + mb + dash + db));
    if a.year < b.year {
        lemma_padded_text_order(a.year as nat, b.year as nat, 4);
        lemma_lex_lt_extend(ya, yb, dash + ma + dash + da, dash + mb + dash + db);
    } else {
        assert(iso_date_text(a) == (ya + dash) + (ma + (dash + da)));
        assert(iso_date_text(b) == (ya + dash) + (mb + (dash + db)));
        if a.month < b.month {
            lemma_padded_text_order(a.month as nat, b.month as nat, 2);
            lemma_lex_lt_extend(ma, mb, dash + da, dash + db);
        } else {
            assert(ma + (dash + da) == (ma + dash) + da);
            assert(mb + (dash + db) == (ma + dash) + db);
            lemma_padded_text_order(a.day as nat, b.day as nat, 2);
            lemma_lex_lt_common_prefix(ma + dash, da, db);
        }
        lemma_lex_lt_common_prefix(ya + dash, ma + (dash + da), mb + (dash + db));
    }
}

/// Reads the ten characters at `pos` as a date in the form `YYYY-MM-DD`. It
/// answers with the date exactly where `v` holds the text of a calendar date
/// there.
pub(crate) fn read_iso_date(v: &Vec<char>, pos: usize) -> (r: Option<CivilDate>)
    ensures
        r matches Some(d) ==> is_calendar_date(d@) && holds_at(
            v@,
            pos as int,
            iso_date_text(d@),
        ),
        forall|x: YearMonthDay|
            is_calendar_date(x) && holds_at(v@, pos as int, #[trigger] iso_date_text(x)) ==> r
                is Some && r->0@ == x,
{
    proof {
        reveal_with_fuel(pow10, 5);
        assert forall|x: YearMonthDay|
            holds_at(v@, pos as int, #[trigger] iso_date_text(x)) implies {
            &&& pos + 10 <= v.len()
            &&& holds_at(v@, pos as int, padded_text(x.year as nat, 4))
            &&& v@[pos + 4] == '-'
            &&& holds_at(v@, pos + 5, padded_text(x.month as nat, 2))
            &&& v@[pos + 7] == '-'
            &&& holds_at(v@, pos + 8, padded_text(x.day as nat, 2))
        } by {
            lemma_iso_date_text_parts(v@, pos as int, x);
            assert(v@.subrange(pos + 4, pos + 5)[0] == v@[pos + 4]);
            assert(v@.subrange(pos + 7, pos + 8)[0] == v@[pos + 7]);
        }
    }
    if pos > v.len() || v.len() - pos < 10 {
        return None;
    }
    let year = match read_padded(v, pos, 4) {
        Some(n) => n,
        None => { return None; },
    };
    if v[pos + 4] != '-' {
        return None;
    }
    let month = match read_padded(v, pos + 5, 2) {
        Some(n) => n,
        None => { return None; },
    };
    if v[pos + 7] != '-' {
        return None;
    }
    let day = match read_padded(v, pos + 8, 2) {
        Some(n) => n,
        None => { return None; },
    };
    let r = CivilDate::new(year as i16, month as i8, day as i8);
    proof {
        let found = ymd(year as int, month as int, day as int);
        assert(holds_at(v@, pos as int, iso_date_text(found))) by {
            lemma_iso_date_text_parts(v@, pos as int, found);
            assert(v@.subrange(pos + 4, pos + 5) == seq!['-']);
            assert(v@.subrange(pos + 7, pos + 8) == seq!['-']);
        }
        assert forall|x: YearMonthDay|
            is_calendar_date(x) && holds_at(
                v@,
                pos as int,
                #[trigger] iso_date_text(x),
            ) implies x == found by {
            lemma_pow10_values();
            lemma_padded_text_injective(x.year as nat, year as nat, 4);
            lemma_padded_text_injective(x.month as nat, month as nat, 2);
            lemma_padded_text_injective(x.day as nat, day as nat, 2);
        }
    }
    r
}

/// `jiff::civil::Date::new` succeeds exactly on the days of the Gregorian
/// calendar with a year in `-9999..=9999`: the month in `1..=12` and the day
/// between 1 and the length of that month.
#[verifier::external_body]
fn gregorian_date_exists(year: i16, month: i8, day: i8) -> (b: bool)
    ensures
        b == is_gregorian_date(year as int, month as int, day as int),
{
    jiff::civil::Date::new(year, month, day).is_ok()
}

/// `jiff::civil::Date::checked_add` with a span of 27 hours. A civil date has
/// no time of day: of the span only the whole days count, here one, so the
/// sum is the following calendar day. It fails only where that day lies
/// beyond the last date jiff represents, 9999-12-31.
#[verifier::external_body]
fn gregorian_date_plus_27_hours(year: i16, month: i8, day: i8) -> (r: Option<(i16, i8, i8)>)
    requires
        is_gregorian_date(year as int, month as int, day as int),
    ensures
        r == day_after(year, month, day),
{
    let date = jiff::civil::Date::new(year, month, day).ok()?;
    let sum = date.checked_add(27.hours()).ok()?;
    Some((sum.year(), sum.month(), sum.day()))
}

/// The `Display` form of a `jiff::civil::Date` with a year that is not
/// negative: the year in four digits, the month and the day in two, zero-padded
/// and joined by hyphens.
#[verifier::external_body]
fn gregorian_date_text(year: i16, month: i8, day: i8) -> (s: String)
    requires
        0 <= year,
        is_gregorian_date(year as int, month as int, day as int),
    ensures
        s@ == iso_date_text(ymd(year as int, month as int, day as int)),
{
    match jiff::civil::Date::new(year, month, day) {
        Ok(date) => date.to_string(),
        Err(_) => String::new(),
    }
}

/// A day of the calendar, as stored in a user's day cursor.
#[derive(Clone, Copy, Debug, PartialEq, Eq, PartialOrd, Ord, Hash)]
pub struct CivilDate {
    year: i16,
    month: i8,
    day: i8,
}

impl View for CivilDate {
    type V = YearMonthDay;

    closed spec fn view(&self) -> YearMonthDay {
        YearMonthDay { year: self.year as int, month: self.month as int, day: self.day as int }
    }
}

impl CivilDate {
    /// Every `CivilDate` holds a calendar date.
    #[verifier::type_invariant]
    pub closed spec fn well_formed(self) -> bool {
        is_calendar_date(self@)
    }

    /// The date of the given year, month and day, where there is such a day
    /// with a year in `0..=9999`.
    pub fn new(year: i16, month: i8, day: i8) -> (r: Option<CivilDate>)
        ensures
            r is Some <==> is_calendar_date(ymd(year as int, month as int, day as int)),
            r matches Some(d) ==> d@ == ymd(year as int, month as int, day as int),
    {
        if year >= 0 && gregorian_date_exists(year, month, day) {
            Some(CivilDate { year, month, day })
        } else {
            None
        }
    }

    /// The year, in `0..=9999`.
    pub fn year(&self) -> (y: i16)
        ensures
            y == self@.year,
            is_calendar_date(self@),
    {
        proof {
            use_type_invariant(self);
        }
        self.year
    }

    /// The month, in `1..=12`.
    pub fn month(&self) -> (m: i8)
        ensures
            m == self@.month,
            is_calendar_date(self@),
    {
        proof {
            use_type_invariant(self);
        }
        self.month
    }

    /// The day of the month, from 1 to the length of the month.
    pub fn day(&self) -> (d: i8)
        ensures
            d == self@.day,
            is_calendar_date(self@),
    {
        proof {
            use_type_invariant(self);
        }
        self.day
    }

    /// The date that `text` spells in the form `YYYY-MM-DD`, where it is the
    /// text of a calendar date.
    pub fn parse(text: &str) -> (r: Option<CivilDate>)
        ensures
            r matches Some(d) ==> is_calendar_date(d@) && text@ == iso_date_text(d@),
            forall|x: YearMonthDay|
                is_calendar_date(x) && text@ == #[trigger] iso_date_text(x) ==> r is Some && r->0@
                    == x,
    {
        let v = to_chars(text);
        proof {
            assert forall|x: YearMonthDay| #[trigger] iso_date_text(x).len() == 10 by {
                lemma_iso_date_text_parts(v@, 0, x);
            }
        }
        if v.len() != 10 {
            return None;
        }
        assert(forall|t: Seq<char>| t.len() == 10 ==> (holds_at(v@, 0, t) <==> v@ == t)) by {
            assert(v@.subrange(0, 10) == v@);
        }
        read_iso_date(&v, 0)
    }

    /// The text `YYYY-MM-DD` of the date.
    pub fn to_text(&self) -> (s: String)
        ensures
            s@ == iso_date_text(self@),
            is_calendar_date(self@),
    {
        proof {
            use_type_invariant(self);
        }
        gregorian_date_text(self.year, self.month, self.day)
    }

    /// The date 27 hours later, which is the following calendar day, or
    /// `None` for the last date.
    pub fn plus_27_hours(&self) -> (r: Option<CivilDate>)
        ensures
            is_calendar_date(self@),
            r is None <==> is_last_date(self@),
            r matches Some(d) ==> d@ == next_day(self@) && date_lt(self@, d@) && is_calendar_date(
                d@,
            ),
    {
        proof {
            use_type_invariant(self);
        }
        match gregorian_date_plus_27_hours(self.year, self.month, self.day) {
            Some((year, month, day)) => Some(CivilDate { year, month, day }),
            None => None,
        }
    }
}

} // verus!
