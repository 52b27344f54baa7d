//! Laying out a month, a week or a year as rows of day cells.

use vstd::prelude::*;
use vstd::arithmetic::div_mod::{lemma_add_mod_noop, lemma_div_is_ordered, lemma_fundamental_div_mod, lemma_mod_bound,
    lemma_mod_twice};
use crate::appointment::{
    find_appointments_from_date, indices_on, store_view, Appointment, AppointmentView,
};
use crate::date::{
    day_number, day_of_week, days_in_month, first_day_in_month, in_calendar, is_real_date,
    last_day_in_month, month_length, weekday_of, PDate, MAX_YEAR,
};

verus! {

/// One square of a calendar grid.
#[derive(Debug, Clone)]
pub enum Cell {
    /// Padding before the first or after the last day.
    Blank,
    /// A real day, with the positions in the store of the appointments on it.
    Day { date: PDate, appointments: Vec<usize> },
}

/// A month laid out in weeks of seven cells, Monday first.
#[derive(Debug, Clone)]
pub struct MonthGrid {
    /// The first of the month, at midnight.
    pub first: PDate,
    pub weeks: Vec<Vec<Cell>>,
}

/// Blank cells before the first of month `m` of year `y`.
pub open spec fn leading_blanks(y: int, m: int) -> int {
    weekday_of(y, m, 1)
}

/// Blank cells after the last day of month `m` of year `y`.
pub open spec fn trailing_blanks(y: int, m: int) -> int {
    6 - weekday_of(y, m, month_length(y, m))
}

/// Number of week rows of month `m` of year `y`.
pub open spec fn month_rows(y: int, m: int) -> int {
    (leading_blanks(y, m) + month_length(y, m) + trailing_blanks(y, m)) / 7
}

/// Midnight of day `(y, m, d)`.
pub open spec fn midnight(y: int, m: int, d: int) -> PDate {
    PDate { year: y as i32, month: m as u32, day: d as u32, hour: 0, min: 0, sec: 0 }
}

/// `cell` is the real day `date` with the appointments of `store` on it.
pub open spec fn is_day_cell(cell: Cell, store: Seq<AppointmentView>, date: PDate) -> bool {
    match cell {
        Cell::Day { date: d, appointments } => d == date && appointments@ == indices_on(
            store,
            date,
        ),
        Cell::Blank => false,
    }
}

/// `cell` is what position `k` (counted from Monday of the first row) of the grid of
/// month `m` of year `y` shows.
pub open spec fn month_cell(cell: Cell, store: Seq<AppointmentView>, y: int, m: int, k: int) -> bool {
    let day = k - leading_blanks(y, m) + 1;
    if 1 <= day <= month_length(y, m) {
        is_day_cell(cell, store, midnight(y, m, day))
    } else {
        cell is Blank
    }
}

/// `weeks` is the grid of month `m` of year `y`.
pub open spec fn is_month_grid(
    weeks: Seq<Vec<Cell>>,
    store: Seq<AppointmentView>,
    y: int,
    m: int,
) -> bool {
    &&& weeks.len() == month_rows(y, m)
    &&& forall|row: int| 0 <= row < weeks.len() ==> (#[trigger] weeks[row])@.len() == 7
    &&& forall|row: int, col: int|
        0 <= row < weeks.len() && 0 <= col < 7 ==> month_cell(
            #[trigger] weeks[row]@[col],
            store,
            y,
            m,
            7 * row + col,
        )
}

/// The cell of a real day.
pub fn day_cell(appointments: &Vec<Appointment>, date: PDate) -> (r: Cell)
    ensures
        is_day_cell(r, store_view(appointments@), date),
{
    Cell::Day { date, appointments: find_appointments_from_date(appointments, date) }
}

/// The weeks of the month of `date`: blanks up to the weekday of the first, every day
/// of the month in order, then blanks to the end of the last week.
pub fn view_month(appointments: &Vec<Appointment>, date: PDate) -> (r: Vec<Vec<Cell>>)
    requires
        date.has_real_day(),
    ensures
        is_month_grid(r@, store_view(appointments@), date.year as int, date.month as int),
{
    let ghost store = store_view(appointments@);
    let ghost y = date.year as int;
    let ghost m = date.month as int;
    let lead = first_day_in_month(date) as usize;
    let len = days_in_month(date) as usize;
    let trail = (6 - last_day_in_month(date)) as usize;
    let rows = (lead + len + trail) / 7;
    let mut weeks: Vec<Vec<Cell>> = Vec::new();
    let mut row: usize = 0;
    while row < rows
        invariant
            store == store_view(appointments@),
            y == date.year && m == date.month,
            date.has_real_day(),
            lead == leading_blanks(y, m),
            len == month_length(y, m),
            rows == month_rows(y, m),
            rows <= 7,
            row <= rows,
            weeks@.len() == row,
            forall|r: int| 0 <= r < row ==> (#[trigger] weeks@[r])@.len() == 7,
            forall|r: int, c: int|
                0 <= r < row && 0 <= c < 7 ==> month_cell(
                    #[trigger] weeks@[r]@[c],
                    store,
                    y,
                    m,
                    7 * r + c,
                ),
        decreases rows - row,
    {
        let mut cells: Vec<Cell> = Vec::new();
        let mut col: usize = 0;
        while col < 7
            invariant
                store == store_view(appointments@),
                y == date.year && m == date.month,
                date.has_real_day(),
                lead == leading_blanks(y, m),
                len == month_length(y, m),
                row < rows <= 7,
                col <= 7,
                cells@.len() == col,
                forall|c: int|
                    0 <= c < col ==> month_cell(#[trigger] cells@[c], store, y, m, 7 * row + c),
            decreases 7 - col,
        {
            let k = row * 7 + col;
            if k >= lead && k < lead + len {
                let day = (k - lead + 1) as u32;
                let cell = day_cell(appointments, PDate::new(date.year, date.month, day, 0, 0, 0));
                cells.push(cell);
            } else {
                cells.push(Cell::Blank);
            }
            col = col + 1;
        }
        weeks.push(cells);
        row = row + 1;
    }
    weeks
}

/// `cell` is what column `i` (Monday = 0) of the week of `anchor` shows: the day
/// of that column at midnight, or a blank when that day is outside the supported
/// years.
pub open spec fn week_cell(cell: Cell, store: Seq<AppointmentView>, anchor: PDate, i: int) -> bool {
    let target = anchor.serial() - anchor.weekday() + i;
    match cell {
        Cell::Day { date, appointments } => {
            &&& date.has_real_day()
            &&& date.serial() == target
            &&& date.hour == 0 && date.min == 0 && date.sec == 0
            &&& appointments@ == indices_on(store, date)
        },
        Cell::Blank => !in_calendar(target),
    }
}

/// `cells` is the week of `anchor`, Monday to Sunday.
pub open spec fn is_week_grid(cells: Seq<Cell>, store: Seq<AppointmentView>, anchor: PDate) -> bool {
    &&& cells.len() == 7
    &&& forall|i: int| 0 <= i < 7 ==> week_cell(#[trigger] cells[i], store, anchor, i)
}

/// The seven days, Monday to Sunday, of the week that holds `date`.
pub fn view_week(appointments: &Vec<Appointment>, date: PDate) -> (r: Vec<Cell>)
    requires
        date.has_real_day(),
    ensures
        is_week_grid(r@, store_view(appointments@), date),
{
    let ghost store = store_view(appointments@);
    let weekday = day_of_week(date) as i64;
    let start = PDate { hour: 0, min: 0, sec: 0, ..date };
    let mut cells: Vec<Cell> = Vec::new();
    let mut i: i64 = 0;
    while i < 7
        invariant
            store == store_view(appointments@),
            start.has_real_day(),
            start.serial() == date.serial(),
            start.hour == 0 && start.min == 0 && start.sec == 0,
            weekday == date.weekday(),
            0 <= i <= 7,
            cells@.len() == i,
            forall|c: int| 0 <= c < i ==> week_cell(#[trigger] cells@[c], store, date, c),
        decreases 7 - i,
    {
        match start.add_days(i - weekday) {
            Some(day) => cells.push(day_cell(appointments, day)),
            None => cells.push(Cell::Blank),
        }
        i = i + 1;
    }
    cells
}

/// The first of the month after month `m` of year `y`, at midnight.
pub open spec fn next_month_first(y: int, m: int) -> PDate {
    if m == 12 {
        midnight(y + 1, 1, 1)
    } else {
        midnight(y, m + 1, 1)
    }
}

/// `g` is the grid of month `m` of year `y`.
pub open spec fn is_month_of(g: MonthGrid, store: Seq<AppointmentView>, y: int, m: int) -> bool {
    g.first == midnight(y, m, 1) && is_month_grid(g.weeks@, store, y, m)
}

/// The grid of the month of `date`, and the first of the following month, where the
/// next month of a year view starts.
pub fn year_month(appointments: &Vec<Appointment>, date: PDate) -> (r: (MonthGrid, PDate))
    requires
        date.has_real_day(),
    ensures
        is_month_of(r.0, store_view(appointments@), date.year as int, date.month as int),
        r.1 == next_month_first(date.year as int, date.month as int),
{
    let weeks = view_month(appointments, date);
    let grid = MonthGrid { first: PDate::new(date.year, date.month, 1, 0, 0, 0), weeks };
    let next = if date.month == 12 {
        PDate::new(date.year + 1, 1, 1, 0, 0, 0)
    } else {
        PDate::new(date.year, date.month + 1, 1, 0, 0, 0)
    };
    (grid, next)
}

/// The month `j` months after month `m` of year `y`, as (year, month).
pub open spec fn nth_month(y: int, m: int, j: int) -> (int, int) {
    let t = y * 12 + (m - 1) + j;
    (t / 12, t % 12 + 1)
}

proof fn lemma_nth_month(y: int, m: int, j: int)
    requires
        1 <= m <= 12,
        0 <= j,
    ensures
        nth_month(y, m, 0) == (y, m),
        y <= nth_month(y, m, j).0,
        1 <= nth_month(y, m, j).1 <= 12,
        nth_month(y, m, j).0 <= nth_month(y, m, j + 1).0,
        next_month_first(nth_month(y, m, j).0, nth_month(y, m, j).1) == midnight(
            nth_month(y, m, j + 1).0,
            nth_month(y, m, j + 1).1,
            1,
        ),
{
    let t = y * 12 + (m - 1) + j;
    let q = t / 12;
    let r = t % 12;
    assert(y * 12 + (m - 1) == 12 * y + (m - 1));
    assert((12 * y + (m - 1)) / 12 == y && (12 * y + (m - 1)) % 12 == m - 1) by (nonlinear_arith)
        requires 0 <= m - 1 < 12;
    lemma_fundamental_div_mod(t, 12);
    lemma_mod_bound(t, 12);
    assert(t == 12 * q + r && 0 <= r < 12);
    assert(q >= y) by (nonlinear_arith)
        requires t == 12 * q + r, 0 <= r < 12, t >= 12 * y;
    if r == 11 {
        assert((t + 1) / 12 == q + 1 && (t + 1) % 12 == 0) by (nonlinear_arith)
            requires t == 12 * q + 11;
    } else {
        assert((t + 1) / 12 == q && (t + 1) % 12 == r + 1) by (nonlinear_arith)
            requires t == 12 * q + r, 0 <= r < 11;
    }
}

/// Six consecutive months from the month of `date` on, running into the next year
/// where they reach it, and the first of the month after them.
pub fn year_month_row(appointments: &Vec<Appointment>, date: PDate) -> (r: (Vec<MonthGrid>, PDate))
    requires
        date.has_real_day(),
        nth_month(date.year as int, date.month as int, 5).0 <= MAX_YEAR,
    ensures
        r.0@.len() == 6,
        forall|j: int|
            0 <= j < 6 ==> is_month_of(
                #[trigger] r.0@[j],
                store_view(appointments@),
                nth_month(date.year as int, date.month as int, j).0,
                nth_month(date.year as int, date.month as int, j).1,
            ),
        r.1 == midnight(
            nth_month(date.year as int, date.month as int, 6).0,
            nth_month(date.year as int, date.month as int, 6).1,
            1,
        ),
{
    let ghost store = store_view(appointments@);
    let ghost y = date.year as int;
    let ghost m = date.month as int;
    let mut months: Vec<MonthGrid> = Vec::new();
    let mut current = PDate::new(date.year, date.month, 1, 0, 0, 0);
    let mut j: u32 = 0;
    proof {
        lemma_nth_month(y, m, 0);
    }
    while j < 6
        invariant
            store == store_view(appointments@),
            y == date.year && m == date.month,
            date.has_real_day(),
            nth_month(y, m, 5).0 <= MAX_YEAR,
            j <= 6,
            months@.len() == j,
            current == midnight(nth_month(y, m, j as int).0, nth_month(y, m, j as int).1, 1),
            forall|c: int|
                0 <= c < j ==> is_month_of(
                    #[trigger] months@[c],
                    store,
                    nth_month(y, m, c).0,
                    nth_month(y, m, c).1,
                ),
        decreases 6 - j,
    {
        proof {
            lemma_nth_month(y, m, j as int);
            if j < 6 {
                lemma_div_is_ordered(y * 12 + (m - 1) + j, y * 12 + (m - 1) + 5, 12);
            }
        }
        let (grid, next) = year_month(appointments, current);
        months.push(grid);
        current = next;
        j = j + 1;
    }
    (months, current)
}

/// The twelve months of the year of `date`, in two rows of six.
pub fn view_year(appointments: &Vec<Appointment>, date: PDate) -> (r: Vec<Vec<MonthGrid>>)
    requires
        date.has_real_day(),
    ensures
        is_year_grid(r@, store_view(appointments@), date.year as int),
{
    let ghost y = date.year as int;
    proof {
        assert forall|j: int| 0 <= j <= 6 implies #[trigger] nth_month(y, 1, j) == (y, j + 1)
            && nth_month(y, 7, j) == (if j < 6 {
            (y, j + 7)
        } else {
            (y + 1, 1)
        }) by {
            assert((y * 12 + j) / 12 == y && (y * 12 + j) % 12 == j) by (nonlinear_arith)
                requires 0 <= j < 12;
            assert((y * 12 + 6 + j) / 12 == (if j < 6 {
                y
            } else {
                y + 1
            }) && (y * 12 + 6 + j) % 12 == (if j < 6 {
                j + 6
            } else {
                0
            })) by (nonlinear_arith)
                requires 0 <= j <= 6;
        }
    }
    let january = PDate::new(date.year, 1, 1, 0, 0, 0);
    let (first_half, july) = year_month_row(appointments, january);
    let (second_half, _) = year_month_row(appointments, july);
    let mut rows: Vec<Vec<MonthGrid>> = Vec::new();
    rows.push(first_half);
    rows.push(second_half);
    assert(rows@[0]@ == first_half@);
    assert(rows@[1]@ == second_half@);
    rows
}

/// `rows` is year `y` as two rows of six months.
pub open spec fn is_year_grid(rows: Seq<Vec<MonthGrid>>, store: Seq<AppointmentView>, y: int) -> bool {
    &&& rows.len() == 2
    &&& forall|i: int| 0 <= i < 2 ==> (#[trigger] rows[i])@.len() == 6
    &&& forall|i: int, j: int|
        0 <= i < 2 && 0 <= j < 6 ==> is_month_of(#[trigger] rows[i]@[j], store, y, 6 * i + j + 1)
}

/// Week `row` of the grid of month `m` of year `y` shows at least one real day.
pub open spec fn week_has_day(y: int, m: int, row: int) -> bool {
    leading_blanks(y, m) <= 7 * row + 6 && 7 * row < leading_blanks(y, m) + month_length(y, m)
}

/// The grid of every month holds exactly its days: the leading blanks, the days and
/// the trailing blanks fill whole weeks, and no week of the grid is blank throughout.
pub proof fn lemma_month_grid_shape(y: int, m: int)
    requires
        is_real_date(y, m, 1),
    ensures
        7 * month_rows(y, m) - leading_blanks(y, m) - trailing_blanks(y, m) == month_length(y, m),
        forall|row: int| 0 <= row < month_rows(y, m) ==> #[trigger] week_has_day(y, m, row),
{
    let len = month_length(y, m);
    let first = day_number(y, m, 1);
    let lead = first % 7;
    assert(day_number(y, m, len) == first + len - 1);
    lemma_add_mod_noop(first, len - 1, 7);
    let x = lead + len - 1;
    lemma_add_mod_noop(lead, len - 1, 7);
    lemma_mod_twice(first, 7);
    assert(weekday_of(y, m, len) == x % 7);
    assert(0 <= lead < 7);
    assert(28 <= len <= 31);
    assert(x + 7 - x % 7 == 7 * (x / 7 + 1)) by (nonlinear_arith)
        requires x >= 0;
    assert((x + 7 - x % 7) / 7 == x / 7 + 1) by (nonlinear_arith)
        requires x + 7 - x % 7 == 7 * (x / 7 + 1);
    assert(month_rows(y, m) == x / 7 + 1);
    assert forall|row: int| 0 <= row < month_rows(y, m) implies #[trigger] week_has_day(
        y,
        m,
        row,
    ) by {
        assert(7 * (x / 7) <= x) by (nonlinear_arith)
            requires x >= 0;
        assert(7 * row <= 7 * (x / 7)) by (nonlinear_arith)
            requires row <= x / 7;
    }
}

} // verus!
