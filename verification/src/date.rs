//! Calendar dates and the enumeration of first-of-month dates.

use vstd::prelude::*;

verus! {

/// Smallest year a `Date` may carry.
pub const MIN_YEAR: i32 = 0;

/// Largest year a `Date` may carry (four decimal digits).
pub const MAX_YEAR: i32 = 9999;

/// A calendar date in the proleptic Gregorian calendar.
#[derive(Clone, Copy, Debug, PartialEq, Eq)]
pub struct Date {
    pub year: i32,
    pub month: u8,
    pub day: u8,
}

pub open spec fn is_leap_year(y: int) -> bool {
    y % 4 == 0 && (y % 100 != 0 || y % 400 == 0)
}

pub open spec fn days_in_month(y: int, m: int) -> int {
    if m == 2 {
        if is_leap_year(y) {
            29
        } else {
            28
        }
    } else if m == 4 || m == 6 || m == 9 || m == 11 {
        30
    } else {
        31
    }
}

/// The first day of the month with the given month index (see
/// [`Date::month_index`]).
pub open spec fn first_of_month(idx: int) -> Date {
    Date { year: (idx / 12) as i32, month: (idx % 12 + 1) as u8, day: 1 }
}

impl Date {
    /// A real calendar date within the supported year range.
    pub open spec fn valid(self) -> bool {
        &&& MIN_YEAR <= self.year <= MAX_YEAR
        &&& 1 <= self.month <= 12
        &&& 1 <= self.day <= days_in_month(self.year as int, self.month as int)
    }

    /// The number of whole months from January of year 0 to this
    /// date's month.
    pub open spec fn month_index(self) -> int {
        self.year * 12 + self.month - 1
    }

    /// Chronological order on dates.
    pub open spec fn le(self, other: Date) -> bool {
        ||| self.year < other.year
        ||| (self.year == other.year && self.month < other.month)
        ||| (self.year == other.year && self.month == other.month && self.day <= other.day)
    }

    /// Builds the date if the fields name a real calendar date in the
    /// supported range, and nothing otherwise.
    pub fn from_ymd_opt(year: i32, month: u8, day: u8) -> (r: Option<Date>)
        ensures
            match r {
                Some(d) => d == (Date { year, month, day }) && d.valid(),
                None => !(Date { year, month, day }).valid(),
            },
    {
        if MIN_YEAR <= year && year <= MAX_YEAR && 1 <= month && month <= 12 && 1 <= day
            && day <= days_in_month_exec(year, month) {
            Some(Date { year, month, day })
        } else {
            None
        }
    }
}

pub fn days_in_month_exec(year: i32, month: u8) -> (r: u8)
    requires
        1 <= month <= 12,
    ensures
        r == days_in_month(year as int, month as int),
{
    if month == 2 {
        if year % 4 == 0 && (year % 100 != 0 || year % 400 == 0) {
            29
        } else {
            28
        }
    } else if month == 4 || month == 6 || month == 9 || month == 11 {
        30
    } else {
        31
    }
}

pub fn date_le(a: &Date, b: &Date) -> (r: bool)
    ensures
        r == a.le(*b),
{
    if a.year != b.year {
        a.year < b.year
    } else if a.month != b.month {
        a.month < b.month
    } else {
        a.day <= b.day
    }
}

/// The ordered first-of-month dates of every calendar month whose span
/// overlaps `[start, end]`: one entry per month from `start`'s month
/// through `end`'s month, or no entry at all when `start > end`.
pub open spec fn first_days_spec(start: Date, end: Date) -> Seq<Date> {
    if start.le(end) {
        Seq::new(
            (end.month_index() - start.month_index() + 1) as nat,
            |i: int| first_of_month(start.month_index() + i),
        )
    } else {
        Seq::empty()
    }
}

proof fn lemma_le_month_index(a: Date, b: Date)
    requires
        a.valid(),
        b.valid(),
        a.le(b),
    ensures
        a.month_index() <= b.month_index(),
{
}

pub fn get_first_day_of_months_between(start: &Date, end: &Date) -> (r: Vec<Date>)
    requires
        start.valid(),
        end.valid(),
    ensures
        r@ == first_days_spec(*start, *end),
{
    let mut out: Vec<Date> = Vec::new();
    if !date_le(start, end) {
        assert(out@ =~= first_days_spec(*start, *end));
        return out;
    }
    proof {
        lemma_le_month_index(*start, *end);
    }
    let start_idx: u32 = (start.year as u32) * 12 + (start.month as u32) - 1;
    let end_idx: u32 = (end.year as u32) * 12 + (end.month as u32) - 1;
    let mut idx: u32 = start_idx;
    while idx <= end_idx
        invariant
            start_idx == start.month_index(),
            end_idx == end.month_index(),
            start_idx <= idx <= end_idx + 1,
            end_idx <= 120000,
            out@ == Seq::new((idx - start_idx) as nat, |i: int| first_of_month(start_idx + i)),
        decreases end_idx + 1 - idx,
    {
        let y: i32 = (idx / 12) as i32;
        let m: u8 = ((idx % 12) as u8) + 1;
        out.push(Date { year: y, month: m, day: 1 });
        proof {
            assert(out@ =~= Seq::new(
                ((idx + 1) - start_idx) as nat,
                |i: int| first_of_month(start_idx + i),
            ));
        }
        idx = idx + 1;
    }
    assert(out@ =~= first_days_spec(*start, *end));
    out
}

/// The date a whole number of months after `d` that keeps `d`'s
/// day-of-month, or nothing when that day does not exist in the target
/// month (no clamping) or the target month lies past the supported
/// year range.
pub open spec fn add_months_spec(d: Date, n: int) -> Option<Date> {
    let idx = d.month_index() + n;
    if idx > MAX_YEAR * 12 + 11 {
        None
    } else {
        let y = idx / 12;
        let m = idx % 12 + 1;
        if d.day <= days_in_month(y, m) {
            Some(Date { year: y as i32, month: m as u8, day: d.day })
        } else {
            None
        }
    }
}

pub fn add_months(d: &Date, n: u32) -> (r: Option<Date>)
    requires
        d.valid(),
    ensures
        r == add_months_spec(*d, n as int),
        r matches Some(e) ==> e.valid() && e.month_index() == d.month_index() + n && e.day == d.day,
{
    let idx: u64 = (d.year as u64) * 12 + (d.month as u64) - 1 + (n as u64);
    if idx > (MAX_YEAR as u64) * 12 + 11 {
        return None;
    }
    let y: i32 = (idx / 12) as i32;
    let m: u8 = ((idx % 12) as u8) + 1;
    if d.day <= days_in_month_exec(y, m) {
        Some(Date { year: y, month: m, day: d.day })
    } else {
        None
    }
}

/// When the start date lies after the end date, the enumeration of
/// first-of-month dates is empty.
pub proof fn lemma_enumeration_empty(start: Date, end: Date)
    requires
        !start.le(end),
    ensures
        first_days_spec(start, end).len() == 0,
{
}

/// When the start and end dates fall in one and the same calendar
/// month, the enumeration holds exactly one date: day 1 of that month.
pub proof fn lemma_same_month_single(start: Date, end: Date)
    requires
        start.valid(),
        end.valid(),
        start.year == end.year,
        start.month == end.month,
        start.day <= end.day,
    ensures
        first_days_spec(start, end) =~= seq![Date { year: start.year, month: start.month, day: 1 }],
{
    lemma_month_index_roundtrip(start);
}

proof fn lemma_month_index_roundtrip(d: Date)
    requires
        d.valid(),
    ensures
        first_of_month(d.month_index()) == (Date { year: d.year, month: d.month, day: 1 }),
{
    let y = d.year as int;
    let m = d.month as int;
    assert((y * 12 + (m - 1)) / 12 == y && (y * 12 + (m - 1)) % 12 == m - 1) by (nonlinear_arith)
        requires
            0 <= m - 1 < 12,
            0 <= y,
    ;
}

/// Enumerating from some day of one month to the same day of the month
/// two months later yields exactly three dates: the first of each of
/// the three months crossed, in order.
pub proof fn lemma_two_months_span(start: Date, end: Date)
    requires
        start.valid(),
        end.valid(),
        end.month_index() == start.month_index() + 2,
        end.day == start.day,
    ensures
        first_days_spec(start, end).len() == 3,
        first_days_spec(start, end)[0] == (Date { year: start.year, month: start.month, day: 1 }),
        first_days_spec(start, end)[1] == first_of_month(start.month_index() + 1),
        first_days_spec(start, end)[1].day == 1,
        first_days_spec(start, end)[1].month_index() == start.month_index() + 1,
        first_days_spec(start, end)[2] == (Date { year: end.year, month: end.month, day: 1 }),
{
    assert(start.le(end));
    lemma_month_index_roundtrip(start);
    lemma_month_index_roundtrip(end);
    lemma_first_of_month_index(start.month_index() + 1);
}

proof fn lemma_first_of_month_index(idx: int)
    requires
        0 <= idx <= MAX_YEAR * 12 + 11,
    ensures
        first_of_month(idx).day == 1,
        first_of_month(idx).month_index() == idx,
        first_of_month(idx).valid(),
{
    assert(0 <= idx % 12 < 12 && idx == 12 * (idx / 12) + idx % 12 && 0 <= idx / 12 <= MAX_YEAR)
        by (nonlinear_arith)
        requires
            0 <= idx <= MAX_YEAR * 12 + 11,
    ;
}

/// Every date the enumeration yields is a valid first-of-month date,
/// and the `i`th one is `i` months after the start date's month.
pub proof fn lemma_first_days_elements(start: Date, end: Date)
    requires
        start.valid(),
        end.valid(),
    ensures
        forall|i: int|
            0 <= i < first_days_spec(start, end).len() ==> {
                let d = #[trigger] first_days_spec(start, end)[i];
                d.valid() && d.day == 1 && d.month_index() == start.month_index() + i
            },
{
    let s = first_days_spec(start, end);
    assert forall|i: int| 0 <= i < s.len() implies {
        let d = #[trigger] s[i];
        d.valid() && d.day == 1 && d.month_index() == start.month_index() + i
    } by {
        lemma_first_of_month_index(start.month_index() + i);
    }
}

} // verus!
