//! Calendar arithmetic: month lengths, weekdays, moving between months and
//! the 6-week page that shows a month.
use chrono::Datelike;
use vstd::prelude::*;

use super::note_date::NoteDate;

verus! {

/// Earliest year that dates can have.
pub const MIN_YEAR: i32 = -262143;

/// Latest year that dates can have.
pub const MAX_YEAR: i32 = 262142;

/// Number of day boxes on a month page: six weeks.
pub const MONTH_PAGE_CELLS: usize = 42;

/// Gregorian leap years.
pub open spec fn is_leap_year(y: int) -> bool {
    (y % 4 == 0 && y % 100 != 0) || y % 400 == 0
}

/// Number of days of month `m` in year `y`.
pub open spec fn days_in_month(y: int, m: int) -> int {
    if m == 2 {
        if is_leap_year(y) {
            29
        } else {
            28
        }
    } else if m == 4 || m == 6 || m == 9 || m == 11 {
        30
    } else {
        31
    }
}

/// `y-m-d` is a date of the calendar.
pub open spec fn valid_ymd(y: int, m: int, d: int) -> bool {
    &&& MIN_YEAR <= y <= MAX_YEAR
    &&& 1 <= m <= 12
    &&& 1 <= d <= days_in_month(y, m)
}

/// What chrono reports as the number of days of month `m` (1 to 12) in year
/// `y`: February needs the year to be in range, the other months do not.
pub open spec fn month_num_days_spec(y: int, m: int) -> Option<u8> {
    if m == 2 && !(MIN_YEAR <= y <= MAX_YEAR) {
        None
    } else {
        Some(days_in_month(y, m) as u8)
    }
}

/// The date `delta` months after `y-m-d` (`delta` being 1 or -1), with the
/// day cut back to the length of the new month; `None` when the year leaves
/// the range of dates.
pub open spec fn month_shift_spec(y: int, m: int, d: int, delta: int) -> Option<(i32, u32, u32)> {
    let t = y * 12 + (m - 1) + delta;
    let y2 = t / 12;
    let m2 = t % 12 + 1;
    let d2 = if d > days_in_month(y2, m2) {
        days_in_month(y2, m2)
    } else {
        d
    };
    if MIN_YEAR <= y2 <= MAX_YEAR {
        Some((y2 as i32, m2 as u32, d2 as u32))
    } else {
        None
    }
}

/// The weekday of a date of the proleptic Gregorian calendar, counted in
/// days from Sunday (Sunday is 0): Zeller's congruence, January and
/// February counted as months 13 and 14 of the year before.
pub open spec fn weekday_from_sunday(year: int, month: int, day: int) -> int {
    let (y, m) = if month < 3 {
        (year - 1, month + 12)
    } else {
        (year, month)
    };
    let from_saturday = (day + (13 * (m + 1)) / 5 + y + y / 4 - y / 100 + y / 400) % 7;
    (from_saturday + 6) % 7
}

/// Calls chrono's `NaiveDate::from_ymd_opt`, then `weekday()` and
/// `num_days_from_sunday()` on the date. Claims that a weekday comes back
/// exactly for valid dates, and that it is the weekday of the date in the
/// proleptic Gregorian calendar that chrono documents.
#[verifier::external_body]
fn weekday_of(year: i32, month: u32, day: u32) -> (w: Option<u32>)
    ensures
        w is Some <==> valid_ymd(year as int, month as int, day as int),
        w matches Some(v) ==> v as int == weekday_from_sunday(year as int, month as int, day as int),
{
    match chrono::NaiveDate::from_ymd_opt(year, month, day) {
        Some(date) => Some(date.weekday().num_days_from_sunday()),
        None => None,
    }
}

/// Calls chrono's `Month::try_from` on the month number and `Month::num_days`
/// on the year. Claims the month lengths of the Gregorian calendar, with
/// `None` for February of a year out of chrono's range (as its source shows).
#[verifier::external_body]
fn month_num_days(year: i32, month: u32) -> (n: Option<u8>)
    requires
        1 <= month <= 12,
    ensures
        n == month_num_days_spec(year as int, month as int),
{
    match chrono::Month::try_from(month as u8) {
        Ok(m) => m.num_days(year),
        Err(_) => None,
    }
}

/// Calls chrono's `NaiveDate::checked_add_months` with one month. Claims
/// what its documentation and source show: the next month, the day cut back
/// to that month's length, `None` out of range.
#[verifier::external_body]
fn checked_next_month(year: i32, month: u32, day: u32) -> (r: Option<(i32, u32, u32)>)
    requires
        valid_ymd(year as int, month as int, day as int),
    ensures
        r == month_shift_spec(year as int, month as int, day as int, 1),
{
    let date = chrono::NaiveDate::from_ymd_opt(year, month, day).unwrap();
    match date.checked_add_months(chrono::Months::new(1)) {
        Some(d) => Some((d.year(), d.month(), d.day())),
        None => None,
    }
}

/// Calls chrono's `NaiveDate::checked_sub_months` with one month. Claims
/// what its documentation and source show: the previous month, the day cut
/// back to that month's length, `None` out of range.
#[verifier::external_body]
fn checked_prev_month(year: i32, month: u32, day: u32) -> (r: Option<(i32, u32, u32)>)
    requires
        valid_ymd(year as int, month as int, day as int),
    ensures
        r == month_shift_spec(year as int, month as int, day as int, -1),
{
    let date = chrono::NaiveDate::from_ymd_opt(year, month, day).unwrap();
    match date.checked_sub_months(chrono::Months::new(1)) {
        Some(d) => Some((d.year(), d.month(), d.day())),
        None => None,
    }
}

/// The date one month after (`forward`) or before the selected date, as the
/// month selector moves it; `None` where the calendar's range ends.
pub fn shift_selected_month(year: i32, month: u32, day: u32, forward: bool) -> (r: Option<
    (i32, u32, u32),
>)
    requires
        valid_ymd(year as int, month as int, day as int),
    ensures
        r == month_shift_spec(year as int, month as int, day as int, if forward {
            1
        } else {
            -1
        }),
{
    if forward {
        checked_next_month(year, month, day)
    } else {
        checked_prev_month(year, month, day)
    }
}

/// Moving the selection one month forward and then one month back comes
/// back to the same month of the same year; the day is the starting day cut
/// back to the length of the month in between.
pub proof fn lemma_month_shift_round_trip(y: int, m: int, d: int)
    requires
        valid_ymd(y, m, d),
        month_shift_spec(y, m, d, 1) is Some,
    ensures
        ({
            let (y2, m2, d2) = month_shift_spec(y, m, d, 1)->0;
            month_shift_spec(y2 as int, m2 as int, d2 as int, -1) == Some(
                (y as i32, m as u32, d2),
            ) && d2 as int == (if d > days_in_month(y2 as int, m2 as int) {
                days_in_month(y2 as int, m2 as int)
            } else {
                d
            })
        }),
{
    let t = y * 12 + (m - 1) + 1;
    let y2 = t / 12;
    let m2 = t % 12 + 1;
    vstd::arithmetic::div_mod::lemma_fundamental_div_mod(t, 12);
    assert(0 <= t % 12 < 12) by {
        vstd::arithmetic::div_mod::lemma_mod_bound(t, 12);
    }
    let t2 = y2 * 12 + (m2 - 1) + (-1);
    assert(t2 == y * 12 + (m - 1));
    vstd::arithmetic::div_mod::lemma_fundamental_div_mod_converse(t2, 12, y, m - 1);
    let (ry, rm, rd) = month_shift_spec(y, m, d, 1)->0;
    assert(ry as int == y2 && rm as int == m2);
}

/// The day before `y-m-d`: the previous day of the month, else the last day
/// of the previous month; `None` before the first date of the calendar.
pub open spec fn prev_day_spec(y: int, m: int, d: int) -> Option<(i32, u32, u32)> {
    if d > 1 {
        Some((y as i32, m as u32, (d - 1) as u32))
    } else if m > 1 {
        Some((y as i32, (m - 1) as u32, days_in_month(y, m - 1) as u32))
    } else if MIN_YEAR <= y - 1 {
        Some(((y - 1) as i32, 12u32, 31u32))
    } else {
        None
    }
}

/// `y1-m1-d1` comes before `y2-m2-d2` in time.
pub open spec fn ymd_lt(y1: int, m1: int, d1: int, y2: int, m2: int, d2: int) -> bool {
    ||| y1 < y2
    ||| (y1 == y2 && m1 < m2)
    ||| (y1 == y2 && m1 == m2 && d1 < d2)
}

/// `ymd_lt` is the order of time: a date of an earlier year comes first and
/// one of a later year comes after, whatever the months and days; the order
/// is strict, transitive and total; and for months 1 to 12 and days 1 to 31
/// it is the order of the number of days counted on a calendar of 12 months
/// of 31 days.
pub proof fn lemma_ymd_order(
    y1: int,
    m1: int,
    d1: int,
    y2: int,
    m2: int,
    d2: int,
    y3: int,
    m3: int,
    d3: int,
)
    ensures
        y1 < y2 ==> ymd_lt(y1, m1, d1, y2, m2, d2),
        y1 > y2 ==> !ymd_lt(y1, m1, d1, y2, m2, d2),
        !ymd_lt(y1, m1, d1, y1, m1, d1),
        ymd_lt(y1, m1, d1, y2, m2, d2) ==> !ymd_lt(y2, m2, d2, y1, m1, d1),
        ymd_lt(y1, m1, d1, y2, m2, d2) && ymd_lt(y2, m2, d2, y3, m3, d3) ==> ymd_lt(
            y1,
            m1,
            d1,
            y3,
            m3,
            d3,
        ),
        (y1, m1, d1) != (y2, m2, d2) ==> ymd_lt(y1, m1, d1, y2, m2, d2) || ymd_lt(
            y2,
            m2,
            d2,
            y1,
            m1,
            d1,
        ),
        1 <= m1 <= 12 && 1 <= d1 <= 31 && 1 <= m2 <= 12 && 1 <= d2 <= 31 ==> (ymd_lt(
            y1,
            m1,
            d1,
            y2,
            m2,
            d2,
        ) <==> y1 * 372 + (m1 - 1) * 31 + (d1 - 1) < y2 * 372 + (m2 - 1) * 31 + (d2 - 1)),
{
}

/// A day is read-only exactly when it comes before yesterday in time: a day
/// of a later year than yesterday never is, a day of an earlier year always
/// is, and yesterday itself is not.
pub proof fn lemma_read_only_days(date: NoteDate, yesterday: (i32, u32, u32))
    ensures
        (date.year as i32) > yesterday.0 ==> !ymd_lt(
            date.year as i32 as int,
            date.month as int,
            date.day as int,
            yesterday.0 as int,
            yesterday.1 as int,
            yesterday.2 as int,
        ),
        (date.year as i32) < yesterday.0 ==> ymd_lt(
            date.year as i32 as int,
            date.month as int,
            date.day as int,
            yesterday.0 as int,
            yesterday.1 as int,
            yesterday.2 as int,
        ),
        !ymd_lt(
            yesterday.0 as int,
            yesterday.1 as int,
            yesterday.2 as int,
            yesterday.0 as int,
            yesterday.1 as int,
            yesterday.2 as int,
        ),
{
}

/// Calls chrono's `NaiveDate::pred_opt` on a date of the calendar. Claims
/// what its documentation and source show: the day before, `None` for the
/// first date of the calendar.
#[verifier::external_body]
fn checked_prev_day(year: i32, month: u32, day: u32) -> (r: Option<(i32, u32, u32)>)
    requires
        valid_ymd(year as int, month as int, day as int),
    ensures
        r == prev_day_spec(year as int, month as int, day as int),
{
    let date = chrono::NaiveDate::from_ymd_opt(year, month, day).unwrap();
    match date.pred_opt() {
        Some(d) => Some((d.year(), d.month(), d.day())),
        None => None,
    }
}

/// The day before `today`; `None` when `today` is the first date of the
/// calendar.
pub fn yesterday_of(today: (i32, u32, u32)) -> (r: Option<(i32, u32, u32)>)
    requires
        valid_ymd(today.0 as int, today.1 as int, today.2 as int),
    ensures
        r == prev_day_spec(today.0 as int, today.1 as int, today.2 as int),
{
    checked_prev_day(today.0, today.1, today.2)
}

/// Whether the note of `date` is read-only: the date (its year read as a
/// signed year) lies before `yesterday`.
pub fn before_yesterday_12_am(date: NoteDate, yesterday: (i32, u32, u32)) -> (r: bool)
    requires
        valid_ymd(date.year as i32 as int, date.month as int, date.day as int),
    ensures
        r == ymd_lt(
            date.year as i32 as int,
            date.month as int,
            date.day as int,
            yesterday.0 as int,
            yesterday.1 as int,
            yesterday.2 as int,
        ),
        (date.year as i32) > yesterday.0 ==> !r,
        (date.year as i32) < yesterday.0 ==> r,
{
    let y = date.year as i32;
    y < yesterday.0 || (y == yesterday.0 && date.month < yesterday.1) || (y == yesterday.0
        && date.month == yesterday.1 && date.day < yesterday.2)
}

/// One box of a month page: the date it shows and whether that date lies
/// in a neighbouring month.
#[derive(Clone, Copy, PartialEq, Eq, Structural, Debug)]
pub struct DayCell {
    pub date: NoteDate,
    pub other_month: bool,
}

/// The boxes of a month page and the box of the selected day, when the page
/// shows the current month.
pub struct MonthPage {
    pub cells: Vec<DayCell>,
    pub highlighted: Option<usize>,
}

/// The month before `m`.
pub open spec fn prev_month_of(m: int) -> int {
    if m == 1 {
        12
    } else {
        m - 1
    }
}

/// The month after `m`.
pub open spec fn next_month_of(m: int) -> int {
    if m == 12 {
        1
    } else {
        m + 1
    }
}

/// Box `i` of the page of month `month` of `year`, whose first day falls
/// `first` days after Sunday, which has `dim` days and follows a month of
/// `prev_days` days: the last days of the previous month, the days of the
/// month, then the first days of the next month.
pub open spec fn cell_spec(year: i32, month: u32, first: int, dim: int, prev_days: int, i: int) -> DayCell {
    if i < first {
        DayCell {
            date: NoteDate {
                year: (if month == 1 {
                    year - 1
                } else {
                    year as int
                }) as u32,
                month: prev_month_of(month as int) as u32,
                day: (prev_days - (first - i - 1)) as u32,
            },
            other_month: true,
        }
    } else if i < first + dim {
        DayCell {
            date: NoteDate { year: year as u32, month: month, day: (i - first + 1) as u32 },
            other_month: false,
        }
    } else {
        DayCell {
            date: NoteDate {
                year: (if month == 12 {
                    year + 1
                } else {
                    year as int
                }) as u32,
                month: next_month_of(month as int) as u32,
                day: (i - first - dim + 1) as u32,
            },
            other_month: true,
        }
    }
}

/// Column and row of box `i` of a month page; row 0 holds the weekday names.
pub open spec fn grid_position_spec(i: int) -> (i32, i32) {
    ((i % 7) as i32, (1 + i / 7) as i32)
}

/// Where box `i` of a month page stands in the calendar grid.
pub fn grid_position(i: usize) -> (pos: (i32, i32))
    requires
        i < MONTH_PAGE_CELLS,
    ensures
        pos == grid_position_spec(i as int),
{
    ((i % 7) as i32, (1 + i / 7) as i32)
}

/// The boxes of a month page, laid out from the weekday of the month's first
/// day and the lengths of the month and of the month before it.
#[verifier::loop_isolation(false)]
pub fn layout_month(
    year: i32,
    month: u32,
    first_weekday: u32,
    days_in_month: u32,
    prev_month_days: u32,
) -> (cells: Vec<DayCell>)
    requires
        1 <= month <= 12,
        first_weekday < 7,
        28 <= days_in_month <= 31,
        28 <= prev_month_days <= 31,
        i32::MIN < year < i32::MAX,
    ensures
        cells@.len() == MONTH_PAGE_CELLS,
        forall|i: int|
            0 <= i < MONTH_PAGE_CELLS ==> #[trigger] cells@[i] == cell_spec(
                year,
                month,
                first_weekday as int,
                days_in_month as int,
                prev_month_days as int,
                i,
            ),
{
    let prev_month = if month == 1 {
        12
    } else {
        month - 1
    };
    let next_month = if month == 12 {
        1
    } else {
        month + 1
    };
    let last_month_year: i32 = if month == 1 {
        year - 1
    } else {
        year
    };
    let next_month_year: i32 = if month == 12 {
        year + 1
    } else {
        year
    };
    let mut cells: Vec<DayCell> = Vec::new();
    let mut i: u32 = 0;
    while i < first_weekday
        invariant
            i <= first_weekday < 7,
            cells@.len() == i,
            forall|k: int|
                0 <= k < i ==> #[trigger] cells@[k] == cell_spec(
                    year,
                    month,
                    first_weekday as int,
                    days_in_month as int,
                    prev_month_days as int,
                    k,
                ),
        decreases first_weekday - i,
    {
        let day_number = prev_month_days - (first_weekday - i - 1);
        cells.push(
            DayCell {
                date: NoteDate { year: last_month_year as u32, month: prev_month, day: day_number },
                other_month: true,
            },
        );
        i += 1;
    }
    let mut day: u32 = 1;
    while day <= days_in_month
        invariant
            first_weekday < 7,
            1 <= day <= days_in_month + 1,
            days_in_month <= 31,
            cells@.len() == first_weekday + day - 1,
            forall|k: int|
                0 <= k < cells@.len() ==> #[trigger] cells@[k] == cell_spec(
                    year,
                    month,
                    first_weekday as int,
                    days_in_month as int,
                    prev_month_days as int,
                    k,
                ),
        decreases days_in_month + 1 - day,
    {
        cells.push(
            DayCell { date: NoteDate { year: year as u32, month, day }, other_month: false },
        );
        day += 1;
    }
    let mut next_day: u32 = 1;
    while cells.len() < MONTH_PAGE_CELLS
        invariant
            first_weekday < 7,
            days_in_month <= 31,
            cells@.len() <= MONTH_PAGE_CELLS,
            next_day >= 1,
            cells@.len() == first_weekday + days_in_month + next_day - 1,
            forall|k: int|
                0 <= k < cells@.len() ==> #[trigger] cells@[k] == cell_spec(
                    year,
                    month,
                    first_weekday as int,
                    days_in_month as int,
                    prev_month_days as int,
                    k,
                ),
        decreases MONTH_PAGE_CELLS - cells@.len(),
    {
        cells.push(
            DayCell {
                date: NoteDate { year: next_month_year as u32, month: next_month, day: next_day },
                other_month: true,
            },
        );
        next_day += 1;
    }
    cells
}

/// The page of the month of the selected date: chrono gives the weekday of
/// its first day and the month lengths; the selected day is highlighted when
/// the page shows the month of today.
pub fn month_page(
    year: i32,
    month: u32,
    day: u32,
    today_year: i32,
    today_month: u32,
) -> (page: MonthPage)
    requires
        valid_ymd(year as int, month as int, day as int),
    ensures
        ({
            let first = weekday_from_sunday(year as int, month as int, 1);
            let dim = days_in_month(year as int, month as int);
            let prev = if month == 1 {
                days_in_month(year - 1, 12)
            } else {
                days_in_month(year as int, month - 1)
            };
            &&& page.cells@.len() == MONTH_PAGE_CELLS
            &&& forall|i: int|
                0 <= i < MONTH_PAGE_CELLS ==> #[trigger] page.cells@[i] == cell_spec(
                    year,
                    month,
                    first,
                    dim,
                    prev,
                    i,
                )
            &&& page.highlighted == (if month == today_month && year == today_year {
                Some((first + day - 1) as usize)
            } else {
                None
            })
        }),
{
    let first = match weekday_of(year, month, 1) {
        Some(w) => w,
        None => 0,
    };
    let dim = match month_num_days(year, month) {
        Some(n) => n as u32,
        None => 31,
    };
    let prev = if month == 1 {
        month_num_days(year - 1, 12)
    } else {
        month_num_days(year, month - 1)
    };
    let prev = match prev {
        Some(n) => n as u32,
        None => 31,
    };
    let cells = layout_month(year, month, first, dim, prev);
    let highlighted = if month == today_month && year == today_year {
        Some((first + day - 1) as usize)
    } else {
        None
    };
    MonthPage { cells, highlighted }
}

} // verus!
