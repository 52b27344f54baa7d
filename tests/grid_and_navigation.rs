use planer::appointment::Appointment;
use planer::calendar::{
    Calendar, CalendarWidget, DayContainer, DayContainerStyle, Depth, DialogOption, Effect,
    InputEvent, Key, Layout, Message, Screen,
};
use planer::date::{days_in_month, first_day_in_month, last_day_in_month, PDate};
use planer::grid::{view_month, view_week, view_year, year_month, year_month_row, Cell};

fn day(year: i32, month: u32, day: u32) -> PDate {
    PDate::new(year, month, day, 0, 0, 0)
}

fn widget_on(date: PDate) -> CalendarWidget {
    CalendarWidget::new(Calendar { active_date: date }, Vec::new())
}

fn real_days(row: &[Cell]) -> usize {
    row.iter().filter(|c| matches!(c, Cell::Day { .. })).count()
}

#[test]
fn month_grid_counts_match_for_all_months() {
    for year in [2023, 2024, 2021, 2000, 1900] {
        for month in 1..=12u32 {
            let first = day(year, month, 1);
            let weeks = view_month(&Vec::new(), first);
            let lead = first_day_in_month(first) as usize;
            let trail = 6 - last_day_in_month(first) as usize;
            let days = days_in_month(first) as usize;
            assert_eq!(7 * weeks.len() - lead - trail, days);
            let total: usize = weeks.iter().map(|w| real_days(w)).sum();
            assert_eq!(total, days);
            for week in &weeks {
                assert_eq!(week.len(), 7);
                assert!(real_days(week) > 0);
            }
        }
    }
}

#[test]
fn month_starting_monday_has_no_leading_blank() {
    // February 2021 starts on a Monday and ends on a Sunday: four full weeks.
    let weeks = view_month(&Vec::new(), day(2021, 2, 14));
    assert_eq!(weeks.len(), 4);
    assert!(weeks.iter().all(|w| real_days(w) == 7));
}

#[test]
fn month_ending_sunday_has_no_trailing_row() {
    // March 2024 starts on a Friday and ends on a Sunday.
    let weeks = view_month(&Vec::new(), day(2024, 3, 1));
    assert_eq!(weeks.len(), 5);
    assert!(matches!(weeks[0][3], Cell::Blank));
    assert!(matches!(weeks[0][4], Cell::Day { .. }));
    assert!(matches!(weeks[4][6], Cell::Day { .. }));
}

#[test]
fn month_with_six_rows() {
    // September 2024 starts on a Sunday: six rows, the first with one day.
    let weeks = view_month(&Vec::new(), day(2024, 9, 10));
    assert_eq!(weeks.len(), 6);
    assert_eq!(real_days(&weeks[0]), 1);
    assert_eq!(real_days(&weeks[5]), 1);
    match &weeks[5][0] {
        Cell::Day { date, .. } => assert_eq!(*date, day(2024, 9, 30)),
        Cell::Blank => panic!("the 30th is a real day"),
    }
}

#[test]
fn week_view_runs_monday_to_sunday() {
    let mut a = Appointment::default();
    a.date = day(2024, 3, 1);
    let cells = view_week(&vec![a], PDate::new(2024, 2, 28, 10, 0, 0));
    assert_eq!(cells.len(), 7);
    let expected = [
        day(2024, 2, 26),
        day(2024, 2, 27),
        day(2024, 2, 28),
        day(2024, 2, 29),
        day(2024, 3, 1),
        day(2024, 3, 2),
        day(2024, 3, 3),
    ];
    for (cell, want) in cells.iter().zip(expected.iter()) {
        match cell {
            Cell::Day { date, appointments } => {
                assert_eq!(date, want);
                let count = if *want == day(2024, 3, 1) { 1 } else { 0 };
                assert_eq!(appointments.len(), count);
            },
            Cell::Blank => panic!("every day of this week exists"),
        }
    }
}

#[test]
fn year_view_has_twelve_months() {
    let rows = view_year(&Vec::new(), day(2024, 8, 20));
    assert_eq!(rows.len(), 2);
    let mut month = 1u32;
    for row in &rows {
        assert_eq!(row.len(), 6);
        for grid in row {
            assert_eq!(grid.first, day(2024, month, 1));
            month += 1;
        }
    }
    assert_eq!(rows[0][1].weeks.len(), 5);
}

#[test]
fn year_month_reports_following_first() {
    let (grid, next) = year_month(&Vec::new(), day(2024, 12, 1));
    assert_eq!(grid.first, day(2024, 12, 1));
    assert_eq!(next, day(2025, 1, 1));
    let (months, after) = year_month_row(&Vec::new(), day(2024, 7, 1));
    assert_eq!(months.len(), 6);
    assert_eq!(months[5].first, day(2024, 12, 1));
    assert_eq!(after, day(2025, 1, 1));
}

#[test]
fn year_month_row_runs_into_next_year() {
    let (months, after) = year_month_row(&Vec::new(), day(2024, 9, 1));
    let firsts: Vec<PDate> = months.iter().map(|g| g.first).collect();
    assert_eq!(
        firsts,
        vec![
            day(2024, 9, 1),
            day(2024, 10, 1),
            day(2024, 11, 1),
            day(2024, 12, 1),
            day(2025, 1, 1),
            day(2025, 2, 1),
        ]
    );
    assert_eq!(after, day(2025, 3, 1));
    // February 2025 starts on a Saturday: five rows.
    assert_eq!(months[5].weeks.len(), 5);
}

#[test]
fn depth_zoom_saturates() {
    assert_eq!(Depth::Year.depth_increase(), Depth::Month);
    assert_eq!(Depth::Month.depth_increase(), Depth::Week);
    assert_eq!(Depth::Week.depth_increase(), Depth::Week);
    assert_eq!(Depth::Week.depth_decrease(), Depth::Month);
    assert_eq!(Depth::Month.depth_decrease(), Depth::Year);
    assert_eq!(Depth::Year.depth_decrease(), Depth::Year);
}

#[test]
fn time_steps_follow_depth() {
    let mut w = widget_on(day(2024, 1, 31));
    w.update(Message::TimeIncrement);
    assert_eq!(w.active_date, day(2024, 2, 29));
    w.update(Message::TimeDecrement);
    assert_eq!(w.active_date, day(2024, 1, 29));
    w.depth = Depth::Week;
    w.update(Message::TimeDecrement);
    assert_eq!(w.active_date, day(2024, 1, 22));
    w.depth = Depth::Year;
    w.update(Message::TimeIncrement);
    assert_eq!(w.active_date, day(2025, 1, 22));
}

#[test]
fn failed_step_leaves_anchor() {
    let mut w = widget_on(day(planer::date::MAX_YEAR, 12, 30));
    w.update(Message::TimeIncrement);
    assert_eq!(w.active_date, day(planer::date::MAX_YEAR, 12, 30));
}

#[test]
fn wheel_moves_time_or_depth() {
    let mut w = widget_on(day(2024, 3, 15));
    assert_eq!(w.handle_event(InputEvent::Wheel { up: true }), Effect::Nothing);
    assert_eq!(w.active_date, day(2024, 2, 15));
    w.handle_event(InputEvent::Wheel { up: false });
    w.handle_event(InputEvent::Wheel { up: false });
    assert_eq!(w.active_date, day(2024, 4, 15));
    w.handle_event(InputEvent::ModifiersChanged { control: true });
    w.handle_event(InputEvent::Wheel { up: true });
    assert_eq!(w.depth, Depth::Year);
    assert_eq!(w.active_date, day(2024, 4, 15));
    w.handle_event(InputEvent::Wheel { up: false });
    w.handle_event(InputEvent::Wheel { up: false });
    assert_eq!(w.depth, Depth::Week);
}

#[test]
fn keys_navigate() {
    let mut w = widget_on(day(2024, 3, 15));
    w.handle_event(InputEvent::KeyPressed(Key::Down));
    assert_eq!(w.active_date, day(2024, 4, 15));
    w.handle_event(InputEvent::KeyPressed(Key::Up));
    assert_eq!(w.active_date, day(2024, 3, 15));
    w.handle_event(InputEvent::KeyPressed(Key::Right));
    assert_eq!(w.depth, Depth::Week);
    w.handle_event(InputEvent::KeyPressed(Key::Left));
    w.handle_event(InputEvent::KeyPressed(Key::Left));
    assert_eq!(w.depth, Depth::Year);
    assert_eq!(w.handle_event(InputEvent::KeyPressed(Key::Tab)), Effect::FocusNext);
}

#[test]
fn escape_closes_dialog_and_close_saves() {
    let mut w = widget_on(day(2024, 3, 15));
    w.update(Message::AddAppointment(day(2024, 3, 15)));
    assert!(matches!(w.edit_dialog, Some(DialogOption::Add(_))));
    w.handle_event(InputEvent::KeyPressed(Key::Escape));
    assert!(w.edit_dialog.is_none());
    assert_eq!(w.handle_event(InputEvent::CloseRequested), Effect::SaveAndClose);
    assert_eq!(w.handle_event(InputEvent::Other), Effect::Nothing);
}

#[test]
fn view_follows_depth_and_dialog() {
    let mut w = widget_on(day(2024, 3, 15));
    let v = w.view();
    assert!(matches!(v.layout, Layout::Month(ref weeks) if weeks.len() == 5));
    assert!(v.submit.is_none());
    w.update(Message::AddAppointment(day(2024, 3, 15)));
    assert!(matches!(w.view().submit, Some(Message::DialogSubmit(None))));
    w.depth = Depth::Week;
    assert!(matches!(w.view().layout, Layout::Week(ref cells) if cells.len() == 7));
    w.depth = Depth::Year;
    assert!(matches!(w.view().layout, Layout::Year(ref rows) if rows.len() == 2));
}

#[test]
fn view_of_edit_dialog_carries_appointment() {
    let mut w = widget_on(day(2024, 3, 15));
    w.update(Message::AddAppointment(day(2024, 3, 15)));
    w.update(Message::DialogWarning("14.3.2024".to_string()));
    w.update(Message::DialogSubmit(None));
    w.update(Message::EditAppointment(0));
    match w.view().submit {
        Some(Message::DialogSubmit(Some(a))) => assert_eq!(a.id, 0),
        _ => panic!("an edit dialog submits its appointment"),
    }
}

#[test]
fn screen_and_day_style() {
    let screen = Screen::Calendar(widget_on(day(2024, 3, 15)));
    let Screen::Calendar(w) = screen;
    assert_eq!(w.depth, Depth::Month);
    assert_eq!(DayContainer::new().0, DayContainerStyle::Bordered);
    assert_eq!(DayContainer::default(), DayContainer::new());
}
