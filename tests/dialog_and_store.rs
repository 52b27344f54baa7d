use planer::appointment::{
    copy_appointment, find_appointments_from_date, find_by_id, new_id, remove_appointment,
    Appointment, Priority,
};
use planer::calendar::{
    valid_date, valid_tags, Calendar, CalendarWidget, DialogAppointment, DialogOption, Effect,
    Message,
};
use planer::date::PDate;
use planer::text::{join_fields, parse_i32, parse_u32, split_fields};

fn day(year: i32, month: u32, day: u32) -> PDate {
    PDate::new(year, month, day, 0, 0, 0)
}

fn with_id(id: i32) -> Appointment {
    Appointment { id, ..Appointment::default() }
}

fn strings(items: &[&str]) -> Vec<String> {
    items.iter().map(|s| s.to_string()).collect()
}

fn empty_widget() -> CalendarWidget {
    CalendarWidget::new(Calendar { active_date: day(2024, 3, 1) }, Vec::new())
}

#[test]
fn valid_date_leap_day() {
    assert_eq!(valid_date("29.02.2024".to_string()), Ok(day(2024, 2, 29)));
}

#[test]
fn valid_date_rejects_missing_leap_day() {
    assert_eq!(valid_date("29.02.2023".to_string()), Err("29.02.2023".to_string()));
}

#[test]
fn valid_date_requires_four_digit_year() {
    assert!(valid_date("1.1.2024".to_string()).is_ok());
    assert!(valid_date("1.1.24".to_string()).is_err());
    assert!(valid_date("1.1.02024".to_string()).is_err());
}

#[test]
fn valid_date_rejects_signed_year() {
    assert_eq!(valid_date("1.1.-202".to_string()), Err("1.1.-202".to_string()));
    assert_eq!(valid_date("1.1.+202".to_string()), Err("1.1.+202".to_string()));
    assert!(valid_date("1.1.0202".to_string()).is_ok());
}

#[test]
fn valid_date_rejects_april_31() {
    assert!(valid_date("31.04.2024".to_string()).is_err());
}

#[test]
fn valid_date_requires_three_fields() {
    assert!(valid_date("1.1".to_string()).is_err());
    assert!(valid_date("1.1.2024.5".to_string()).is_err());
    assert!(valid_date("".to_string()).is_err());
}

#[test]
fn valid_date_requires_numbers() {
    assert!(valid_date("a.1.2024".to_string()).is_err());
    assert!(valid_date(" 1.1.2024".to_string()).is_err());
    assert!(valid_date("1..2024".to_string()).is_err());
    assert_eq!(valid_date("+5.+3.2024".to_string()), Ok(day(2024, 3, 5)));
}

#[test]
fn tags_are_split_and_trimmed() {
    assert_eq!(valid_tags("a, b ,c".to_string()), Ok(strings(&["a", "b", "c"])));
}

#[test]
fn empty_tags_are_kept() {
    assert_eq!(valid_tags("a,,b".to_string()), Ok(strings(&["a", "", "b"])));
    assert_eq!(valid_tags("".to_string()), Ok(strings(&[""])));
    assert_eq!(valid_tags("  health  ".to_string()), Ok(strings(&["health"])));
    assert_eq!(valid_tags("\u{3000}x\t,\u{a0}y".to_string()), Ok(strings(&["x", "y"])));
}

#[test]
fn split_keeps_every_field() {
    assert_eq!(split_fields("a,,b,", ','), strings(&["a", "", "b", ""]));
    assert_eq!(split_fields("15.03.2024", '.'), strings(&["15", "03", "2024"]));
    assert_eq!(split_fields("none", ','), strings(&["none"]));
}

#[test]
fn join_puts_separator_between() {
    assert_eq!(join_fields(&strings(&["a", "b", "c"]), ", "), "a, b, c");
    assert_eq!(join_fields(&strings(&["solo"]), ", "), "solo");
    assert_eq!(join_fields(&Vec::new(), ", "), "");
}

#[test]
fn integers_parse_like_std() {
    assert_eq!(parse_u32("4294967295"), Some(u32::MAX));
    assert_eq!(parse_u32("4294967296"), None);
    assert_eq!(parse_u32("+7"), Some(7));
    assert_eq!(parse_u32("-7"), None);
    assert_eq!(parse_u32("+"), None);
    assert_eq!(parse_u32(""), None);
    assert_eq!(parse_i32("-2147483648"), Some(i32::MIN));
    assert_eq!(parse_i32("2147483648"), None);
    assert_eq!(parse_i32("-0042"), Some(-42));
    assert_eq!(parse_i32("12a"), None);
}

#[test]
fn next_id_fills_first_gap() {
    let store = vec![with_id(0), with_id(1), with_id(3)];
    assert_eq!(new_id(&store), 2);
}

#[test]
fn next_id_after_dense_ids() {
    let store = vec![with_id(0), with_id(1), with_id(2)];
    assert_eq!(new_id(&store), 3);
}

#[test]
fn next_id_ignores_order_and_negatives() {
    assert_eq!(new_id(&Vec::new()), 0);
    assert_eq!(new_id(&vec![with_id(2), with_id(-1), with_id(0)]), 1);
    assert_eq!(new_id(&vec![with_id(1), with_id(0), with_id(1)]), 2);
}

#[test]
fn lookup_by_date_and_id() {
    let mut a = with_id(0);
    a.date = day(2024, 3, 15);
    let mut b = with_id(5);
    b.date = PDate::new(2024, 3, 15, 9, 30, 0);
    let mut c = with_id(7);
    c.date = day(2024, 3, 16);
    let store = vec![a, b, c];
    assert_eq!(find_appointments_from_date(&store, day(2024, 3, 15)), vec![0, 1]);
    assert_eq!(find_appointments_from_date(&store, day(2024, 3, 17)), Vec::<usize>::new());
    assert_eq!(find_by_id(&store, 7), Some(2));
    assert_eq!(find_by_id(&store, 1), None);
}

#[test]
fn remove_takes_first_equal_only() {
    let mut store = vec![with_id(0), with_id(1), with_id(0)];
    assert!(remove_appointment(&mut store, &with_id(0)));
    assert_eq!(store.len(), 2);
    assert_eq!(store[0].id, 1);
    assert!(!remove_appointment(&mut store, &with_id(9)));
    assert_eq!(store.len(), 2);
}

#[test]
fn appointment_equality_and_copy() {
    let mut a = with_id(3);
    a.tags = Some(strings(&["x", "y"]));
    let b = copy_appointment(&a);
    assert!(a == b);
    let mut c = copy_appointment(&a);
    c.tags = Some(strings(&["x"]));
    assert!(a != c);
    assert_eq!(a.description(), "Description");
}

#[test]
fn priority_names() {
    assert_eq!(Priority::High.fmt(), "High");
    assert_eq!(Priority::Middle.fmt(), "Middle");
    assert_eq!(Priority::Low.fmt(), "Low");
}

#[test]
fn dialog_prefill_from_appointment() {
    let a = Appointment {
        id: 4,
        date: day(2024, 3, 15),
        priority: Priority::High,
        warning: day(2024, 3, 10),
        tags: Some(strings(&["health", "teeth"])),
        description: "Dentist".to_string(),
    };
    let draft = DialogAppointment::from_appointment(a);
    assert_eq!(draft.date, "15.3.2024");
    assert_eq!(draft.warning, "10.3.2024");
    assert_eq!(draft.tags, "health, teeth");
    assert_eq!(draft.description, "Dentist");
    assert_eq!(draft.priority, Priority::High);
}

#[test]
fn add_submit_and_month_grid() {
    let mut w = empty_widget();
    assert_eq!(w.update(Message::AddAppointment(day(2024, 3, 15))), Effect::Nothing);
    assert_eq!(w.dialog_appointment.date, "15.3.2024");
    assert!(matches!(w.edit_dialog, Some(DialogOption::Add(_))));
    w.update(Message::DialogDescription("Dentist".to_string()));
    w.update(Message::DialogDate("15.03.2024".to_string()));
    assert_eq!(w.update(Message::DialogWarning("10.03.2024".to_string())), Effect::FocusNext);
    w.update(Message::DialogTags("health".to_string()));
    assert_eq!(w.update(Message::DialogSubmit(None)), Effect::Save);
    assert!(w.edit_dialog.is_none());
    assert_eq!(w.appointments.len(), 1);
    let a = &w.appointments[0];
    assert_eq!(a.id, 0);
    assert_eq!(a.description, "Dentist");
    assert_eq!(a.date, day(2024, 3, 15));
    assert_eq!(a.warning, day(2024, 3, 10));
    assert_eq!(a.tags, Some(strings(&["health"])));

    let weeks = planer::grid::view_month(&w.appointments, day(2024, 3, 1));
    // 2024-03-01 is a Friday: four blanks lead, so the 15th sits in row 2, column 4.
    match &weeks[2][4] {
        planer::grid::Cell::Day { date, appointments } => {
            assert_eq!(*date, day(2024, 3, 15));
            assert_eq!(*appointments, vec![0]);
        },
        planer::grid::Cell::Blank => panic!("the 15th is a real day"),
    }
}

#[test]
fn edit_and_resubmit_does_not_duplicate() {
    let mut w = empty_widget();
    w.update(Message::AddAppointment(day(2024, 3, 15)));
    w.update(Message::DialogWarning("10.03.2024".to_string()));
    w.update(Message::DialogDescription("Dentist".to_string()));
    w.update(Message::DialogSubmit(None));
    w.update(Message::AddAppointment(day(2024, 3, 20)));
    w.update(Message::DialogWarning("19.03.2024".to_string()));
    w.update(Message::DialogSubmit(None));
    assert_eq!(w.appointments.len(), 2);

    w.update(Message::EditAppointment(0));
    assert_eq!(w.dialog_appointment.description, "Dentist");
    assert_eq!(w.dialog_appointment.date, "15.3.2024");
    let previous = match &w.edit_dialog {
        Some(DialogOption::Edit(a)) => copy_appointment(a),
        _ => panic!("the dialog edits the appointment"),
    };
    w.update(Message::DialogDescription("Dentist, checkup".to_string()));
    assert_eq!(w.update(Message::DialogSubmit(Some(previous))), Effect::Save);
    assert_eq!(w.appointments.len(), 2);
    let edited: Vec<&Appointment> =
        w.appointments.iter().filter(|a| a.date == day(2024, 3, 15)).collect();
    assert_eq!(edited.len(), 1);
    assert_eq!(edited[0].description, "Dentist, checkup");
    assert_eq!(edited[0].id, 0);
}

#[test]
fn submit_with_bad_date_keeps_dialog_open() {
    let mut w = empty_widget();
    w.update(Message::AddAppointment(day(2024, 3, 15)));
    w.update(Message::DialogWarning("31.04.2024".to_string()));
    assert_eq!(w.update(Message::DialogSubmit(None)), Effect::Nothing);
    assert!(w.appointments.is_empty());
    assert!(matches!(w.edit_dialog, Some(DialogOption::Add(_))));
    assert_eq!(w.dialog_appointment.warning, "31.04.2024");
}

#[test]
fn edit_unknown_id_changes_nothing() {
    let mut w = empty_widget();
    w.update(Message::EditAppointment(3));
    assert!(w.edit_dialog.is_none());
}

#[test]
fn cancel_closes_dialog_without_touching_store() {
    let mut w = empty_widget();
    w.update(Message::AddAppointment(day(2024, 3, 15)));
    w.update(Message::DialogWarning("1.3.2024".to_string()));
    assert_eq!(w.update(Message::DialogCancel), Effect::Nothing);
    assert!(w.edit_dialog.is_none());
    assert!(w.appointments.is_empty());
}

#[test]
fn priority_choice_moves_focus() {
    let mut w = empty_widget();
    w.update(Message::AddAppointment(day(2024, 3, 15)));
    assert_eq!(w.update(Message::DialogPriority(Priority::Middle)), Effect::FocusNext);
    assert_eq!(w.dialog_appointment.priority, Priority::Middle);
    assert_eq!(w.update(Message::DialogWarning("not yet".to_string())), Effect::Nothing);
    assert_eq!(w.dialog_appointment.warning, "not yet");
}
