//! The calendar screen: zoom depth, navigation, and the dialog that adds and edits
//! appointments.

use vstd::prelude::*;
use crate::appointment::{
    copy_appointment, find_by_id, first_with_id, is_least_free_id, new_id, remove_appointment,
    lemma_resubmit_replaces, removed_first, store_view, Appointment, AppointmentView, Priority,
};
use crate::date::{dmy_text, in_calendar, is_real_date, new_date, PDate};
use crate::grid::{
    is_month_grid, is_week_grid, is_year_grid, view_month, view_week, view_year, Cell, MonthGrid,
};
use crate::text::{
    all_digits, all_digits_text, join_fields, join_spec, parse_i32, parse_i32_spec, parse_u32, parse_u32_spec, split_fields,
    split_spec, trim_text, trimmed,
};

verus! {

/// Zoom level of the calendar, from the widest to the narrowest.
#[derive(Debug, Clone, Copy, PartialEq, Eq, Structural)]
pub enum Depth {
    Year,
    Month,
    Week,
}

impl Depth {
    /// One level deeper; the week view is the deepest.
    pub open spec fn deeper(self) -> Depth {
        match self {
            Depth::Year => Depth::Month,
            Depth::Month => Depth::Week,
            Depth::Week => Depth::Week,
        }
    }

    /// One level wider; the year view is the widest.
    pub open spec fn wider(self) -> Depth {
        match self {
            Depth::Year => Depth::Year,
            Depth::Month => Depth::Year,
            Depth::Week => Depth::Month,
        }
    }

    /// Zooms in one level; the week view is the deepest.
    pub fn depth_increase(&self) -> (r: Depth)
        ensures
            r == self.deeper(),
    {
        match *self {
            Depth::Year => Depth::Month,
            Depth::Month => Depth::Week,
            Depth::Week => Depth::Week,
        }
    }

    /// Zooms out one level; the year view is the widest.
    pub fn depth_decrease(&self) -> (r: Depth)
        ensures
            r == self.wider(),
    {
        match *self {
            Depth::Year => Depth::Year,
            Depth::Month => Depth::Year,
            Depth::Week => Depth::Month,
        }
    }
}

/// The date a `d.m.yyyy` text names: three fields separated by dots, day and month
/// numbers as `str::parse` reads them, a year of exactly four ASCII digits, and a day
/// that exists.
pub open spec fn date_text_value(s: Seq<char>) -> Option<PDate> {
    let fields = split_spec(s, '.');
    if fields.len() != 3 {
        None
    } else {
        let day = parse_u32_spec(fields[0]);
        let month = parse_u32_spec(fields[1]);
        let year = parse_i32_spec(fields[2]);
        if day is None || month is None || year is None || fields[2].len() != 4 || !all_digits(
            fields[2],
        ) {
            None
        } else if !is_real_date(year->0 as int, month->0 as int, day->0 as int) {
            None
        } else {
            Some(PDate { year: year->0, month: month->0, day: day->0, hour: 0, min: 0, sec: 0 })
        }
    }
}

/// The tags a comma-separated text lists, each trimmed; empty ones are kept.
pub open spec fn tag_list(s: Seq<char>) -> Seq<Seq<char>> {
    split_spec(s, ',').map_values(|field: Seq<char>| trimmed(field))
}

/// Reads a `d.m.yyyy` date; the text comes back as the error when it names no date.
pub fn valid_date(string: String) -> (r: Result<PDate, String>)
    ensures
        match date_text_value(string@) {
            Some(date) => r == Ok::<PDate, String>(date),
            None => r == Err::<PDate, String>(string),
        },
{
    let fields = split_fields(string.as_str(), '.');
    proof {
        assert(fields.deep_view().len() == fields@.len());
    }
    if fields.len() != 3 {
        return Err(string);
    }
    assert(fields.deep_view()[0] == fields@[0]@);
    assert(fields.deep_view()[1] == fields@[1]@);
    assert(fields.deep_view()[2] == fields@[2]@);
    if fields[2].as_str().unicode_len() != 4 || !all_digits_text(fields[2].as_str()) {
        return Err(string);
    }
    let day = parse_u32(fields[0].as_str());
    let month = parse_u32(fields[1].as_str());
    let year = parse_i32(fields[2].as_str());
    match (day, month, year) {
        (Some(day), Some(month), Some(year)) => {
            match new_date(year, month, day) {
                Ok(date) => Ok(date),
                Err(_) => Err(string),
            }
        },
        _ => Err(string),
    }
}

/// Splits a comma-separated list of tags and trims each; never fails.
pub fn valid_tags(string: String) -> (r: Result<Vec<String>, String>)
    ensures
        match r {
            Ok(tags) => tags.deep_view() == tag_list(string@),
            Err(_) => false,
        },
{
    let fields = split_fields(string.as_str(), ',');
    let mut tags: Vec<String> = Vec::new();
    let mut i: usize = 0;
    while i < fields.len()
        invariant
            i <= fields.len(),
            fields.deep_view() == split_spec(string@, ','),
            tags.deep_view() == tag_list(string@).subrange(0, i as int),
        decreases fields.len() - i,
    {
        let ghost before = tags.deep_view();
        let tag = trim_text(fields[i].as_str());
        assert(fields.deep_view()[i as int] == fields@[i as int]@);
        tags.push(tag);
        assert(tags.deep_view() =~= tag_list(string@).subrange(0, i + 1)) by {
            assert(tags.deep_view() =~= before.push(tag@));
        }
        i = i + 1;
    }
    assert(tag_list(string@).subrange(0, i as int) =~= tag_list(string@));
    Ok(tags)
}

/// The texts the dialog edits, as character sequences.
pub struct DraftView {
    pub date: Seq<char>,
    pub priority: Priority,
    pub warning: Seq<char>,
    pub tags: Seq<char>,
    pub description: Seq<char>,
}

/// The fields of the add/edit dialog, kept as typed until the dialog is submitted.
#[derive(Debug, Clone)]
pub struct DialogAppointment {
    pub date: String,
    pub priority: Priority,
    pub warning: String,
    pub tags: String,
    pub description: String,
}

impl View for DialogAppointment {
    type V = DraftView;

    open spec fn view(&self) -> DraftView {
        DraftView {
            date: self.date@,
            priority: self.priority,
            warning: self.warning@,
            tags: self.tags@,
            description: self.description@,
        }
    }
}

/// The dialog's fields when it opens to add an appointment on `date`.
pub open spec fn draft_for_day(date: PDate) -> DraftView {
    DraftView {
        date: dmy_text(date),
        priority: Priority::Low,
        warning: Seq::empty(),
        tags: Seq::empty(),
        description: Seq::empty(),
    }
}

/// The dialog's fields when it opens on appointment `a`.
pub open spec fn draft_of(a: AppointmentView) -> DraftView {
    DraftView {
        date: dmy_text(a.date),
        priority: a.priority,
        warning: dmy_text(a.warning),
        tags: match a.tags {
            Some(tags) => join_spec(tags, seq![',', ' ']),
            None => Seq::empty(),
        },
        description: a.description,
    }
}

/// Both date fields of the dialog name real days (the tags field always passes).
pub open spec fn draft_is_valid(d: DraftView) -> bool {
    date_text_value(d.date) is Some && date_text_value(d.warning) is Some
}

/// The appointment a valid dialog submits, under id `id`.
pub open spec fn drafted(d: DraftView, id: i32) -> AppointmentView {
    AppointmentView {
        id,
        date: date_text_value(d.date)->0,
        priority: d.priority,
        warning: date_text_value(d.warning)->0,
        tags: Some(tag_list(d.tags)),
        description: d.description,
    }
}

impl Default for DialogAppointment {
    fn default() -> (r: Self)
        ensures
            r@ == (DraftView {
                date: Seq::empty(),
                priority: Priority::Low,
                warning: Seq::empty(),
                tags: Seq::empty(),
                description: Seq::empty(),
            }),
    {
        DialogAppointment {
            date: String::new(),
            priority: Priority::Low,
            warning: String::new(),
            tags: String::new(),
            description: String::new(),
        }
    }
}

impl DialogAppointment {
    /// The dialog's fields for editing `appointment`: dates as `d.m.yyyy`, tags joined
    /// by `", "`.
    pub fn from_appointment(appointment: Appointment) -> (r: Self)
        ensures
            r@ == draft_of(appointment@),
    {
        proof { reveal_strlit(", "); }
        let tags = match &appointment.tags {
            Some(list) => join_fields(list, ", "),
            None => String::new(),
        };
        assert(", "@ =~= seq![',', ' ']);
        let r = DialogAppointment {
            date: appointment.date.fmt(),
            priority: appointment.priority,
            warning: appointment.warning.fmt(),
            tags,
            description: appointment.description,
        };
        assert(r@ == draft_of(appointment@));
        r
    }
}

/// What the dialog is open for.
#[derive(Debug, Clone)]
pub enum DialogOption {
    /// Editing this appointment of the store.
    Edit(Appointment),
    /// Adding an appointment on this day.
    Add(PDate),
}

/// What the calendar screen reacts to.
#[derive(Debug, Clone)]
pub enum Message {
    TimeIncrement,
    TimeDecrement,
    AddAppointment(PDate),
    EditAppointment(i32),
    DialogPriority(Priority),
    DialogDate(String),
    DialogWarning(String),
    DialogTags(String),
    DialogDescription(String),
    DialogCancel,
    /// Submits the dialog, replacing the given appointment when editing.
    DialogSubmit(Option<Appointment>),
}

/// Keys the calendar reacts to.
#[derive(Debug, Clone, Copy, PartialEq, Eq, Structural)]
pub enum Key {
    Tab,
    Escape,
    Up,
    Down,
    Left,
    Right,
    Other,
}

/// Input from the window.
#[derive(Debug, Clone, Copy, PartialEq, Eq, Structural)]
pub enum InputEvent {
    /// A wheel turn by lines; `up` when it turned away from the user.
    Wheel { up: bool },
    KeyPressed(Key),
    /// The held modifier keys changed; `control` tells whether Control is held.
    ModifiersChanged { control: bool },
    CloseRequested,
    Other,
}

/// What the host has to do after the calendar handled a message or an event.
#[derive(Debug, Clone, Copy, PartialEq, Eq, Structural)]
pub enum Effect {
    Nothing,
    /// Move the input focus to the next field.
    FocusNext,
    /// Write the whole appointment list to storage.
    Save,
    /// Write the whole appointment list to storage, then close the window.
    SaveAndClose,
}

/// The anchor date of a calendar screen.
#[derive(Debug, Clone, Copy, PartialEq, Eq, Structural)]
pub struct Calendar {
    pub active_date: PDate,
}

/// State of the calendar screen: where it looks, how deep, the appointments, and the
/// dialog.
#[derive(Debug, Clone)]
pub struct CalendarWidget {
    pub active_date: PDate,
    pub depth: Depth,
    pub appointments: Vec<Appointment>,
    pub edit_dialog: Option<DialogOption>,
    pub dialog_appointment: DialogAppointment,
    /// Control is held.
    pub control: bool,
}

/// The screens of the application.
#[derive(Debug, Clone)]
pub enum Screen {
    Calendar(CalendarWidget),
}

/// The grid a depth shows.
#[derive(Debug, Clone)]
pub enum Layout {
    Year(Vec<Vec<MonthGrid>>),
    Month(Vec<Vec<Cell>>),
    Week(Vec<Cell>),
}

/// What the calendar screen shows.
#[derive(Debug, Clone)]
pub struct CalendarView {
    pub layout: Layout,
    /// When the dialog is open, the message its submit button sends.
    pub submit: Option<Message>,
}

/// `new` is `old` moved one step of `depth` forward (back when `forward` is false), or
/// `old` itself when the step would leave the supported years.
pub open spec fn stepped(old: PDate, new: PDate, depth: Depth, forward: bool) -> bool {
    let sign: int = if forward {
        1
    } else {
        -1
    };
    match depth {
        Depth::Week => {
            ||| new == old && !in_calendar(old.serial() + 7 * sign)
            ||| old.days_shifted(7 * sign, Some(new))
        },
        Depth::Month => new == match old.months_shifted(sign) {
            Some(d) => d,
            None => old,
        },
        Depth::Year => new == match old.months_shifted(12 * sign) {
            Some(d) => d,
            None => old,
        },
    }
}

/// `after` and `effect` are what submitting the dialog of `before` gives, replacing
/// `previous` when it is set: with both date fields valid, the first appointment equal
/// to `previous` leaves the store, the drafted appointment is appended under the least
/// free id, the dialog closes and the store is saved; otherwise nothing changes.
pub open spec fn submitted(
    before: CalendarWidget,
    after: CalendarWidget,
    previous: Option<Appointment>,
    effect: Effect,
) -> bool {
    let store = store_view(before.appointments@);
    let draft = before.dialog_appointment@;
    if draft_is_valid(draft) {
        let kept = match previous {
            Some(p) => removed_first(store, p@),
            None => store,
        };
        let added = store_view(after.appointments@).last();
        &&& store_view(after.appointments@) == kept.push(added)
        &&& is_least_free_id(kept, added.id as int)
        &&& added == drafted(draft, added.id)
        &&& after.active_date == before.active_date
        &&& after.depth == before.depth
        &&& after.edit_dialog is None
        &&& after.dialog_appointment == before.dialog_appointment
        &&& after.control == before.control
        &&& effect == Effect::Save
    } else {
        &&& after == before
        &&& effect == Effect::Nothing
    }
}

/// Submitting the edit dialog again on an appointment of the store does not duplicate
/// it: exactly one entry equal to it is taken out before the drafted one is appended,
/// so the store keeps its size (the new entry's id may differ from the old one).
pub proof fn lemma_edit_resubmit_replaces(
    before: CalendarWidget,
    after: CalendarWidget,
    previous: Appointment,
    effect: Effect,
)
    requires
        store_view(before.appointments@).contains(previous@),
        draft_is_valid(before.dialog_appointment@),
        submitted(before, after, Some(previous), effect),
    ensures
        after.appointments.len() == before.appointments.len(),
        exists|i: int|
            0 <= i < before.appointments.len() && store_view(before.appointments@)[i]
                == previous@ && store_view(after.appointments@) == store_view(
                before.appointments@,
            ).remove(i).push(drafted(before.dialog_appointment@, after.appointments@.last().id)),
        after.edit_dialog is None,
        effect == Effect::Save,
{
    let store = store_view(before.appointments@);
    let added = store_view(after.appointments@).last();
    lemma_resubmit_replaces(store, previous@, added);
    assert(store_view(after.appointments@).len() == after.appointments.len());
    assert(added.id == after.appointments@.last().id);
}

/// The dialog edits an appointment with contents `a`.
pub open spec fn editing(dialog: Option<DialogOption>, a: AppointmentView) -> bool {
    match dialog {
        Some(DialogOption::Edit(x)) => x@ == a,
        _ => false,
    }
}

/// `submit` is the message the submit button of `dialog` sends: the edited appointment
/// goes with it, an added one does not.
pub open spec fn submits(submit: Option<Message>, dialog: Option<DialogOption>) -> bool {
    match dialog {
        Some(DialogOption::Edit(a)) => match submit {
            Some(Message::DialogSubmit(Some(p))) => p@ == a@,
            _ => false,
        },
        Some(DialogOption::Add(_)) => match submit {
            Some(Message::DialogSubmit(None)) => true,
            _ => false,
        },
        None => submit is None,
    }
}

impl CalendarWidget {
    pub open spec fn wf(self) -> bool {
        self.active_date.has_real_day()
    }

    pub open spec fn with_date(self, date: PDate) -> Self {
        CalendarWidget { active_date: date, ..self }
    }

    pub open spec fn with_depth(self, depth: Depth) -> Self {
        CalendarWidget { depth, ..self }
    }

    pub open spec fn with_dialog(self, dialog: Option<DialogOption>) -> Self {
        CalendarWidget { edit_dialog: dialog, ..self }
    }

    pub open spec fn with_draft(self, draft: DialogAppointment) -> Self {
        CalendarWidget { dialog_appointment: draft, ..self }
    }

    /// A calendar on `calendar`'s date, a month deep, with no dialog open.
    pub fn new(calendar: Calendar, appointments: Vec<Appointment>) -> (r: Self)
        ensures
            r.active_date == calendar.active_date,
            r.depth == Depth::Month,
            r.appointments == appointments,
            r.edit_dialog is None,
            r.dialog_appointment@ == (DraftView {
                date: Seq::empty(),
                priority: Priority::Low,
                warning: Seq::empty(),
                tags: Seq::empty(),
                description: Seq::empty(),
            }),
            !r.control,
    {
        CalendarWidget {
            active_date: calendar.active_date,
            depth: Depth::Month,
            appointments,
            edit_dialog: None,
            dialog_appointment: DialogAppointment::default(),
            control: false,
        }
    }

    /// Moves the anchor one step of the current depth.
    fn step_time(&mut self, forward: bool)
        requires
            old(self).wf(),
        ensures
            *final(self) == old(self).with_date(final(self).active_date),
            stepped(old(self).active_date, final(self).active_date, old(self).depth, forward),
            final(self).wf(),
    {
        let date = self.active_date;
        let moved = match self.depth {
            Depth::Week => date.add_days(if forward {
                7
            } else {
                -7
            }),
            Depth::Month => date.add_months(if forward {
                1
            } else {
                -1
            }),
            Depth::Year => date.add_months(if forward {
                12
            } else {
                -12
            }),
        };
        if let Some(d) = moved {
            self.active_date = d;
        }
    }

    /// Handles one message of the screen or of its dialog.
    pub fn update(&mut self, message: Message) -> (effect: Effect)
        requires
            old(self).wf(),
            old(self).appointments.len() < i32::MAX,
        ensures
            final(self).wf(),
            ({
                let before = *old(self);
                let after = *final(self);
                let store = store_view(before.appointments@);
                match message {
                    Message::TimeIncrement => {
                        &&& after == before.with_date(after.active_date)
                        &&& stepped(before.active_date, after.active_date, before.depth, true)
                        &&& effect == Effect::Nothing
                    },
                    Message::TimeDecrement => {
                        &&& after == before.with_date(after.active_date)
                        &&& stepped(before.active_date, after.active_date, before.depth, false)
                        &&& effect == Effect::Nothing
                    },
                    Message::AddAppointment(date) => {
                        &&& after == before.with_dialog(Some(DialogOption::Add(date))).with_draft(
                            after.dialog_appointment,
                        )
                        &&& after.dialog_appointment@ == draft_for_day(date)
                        &&& effect == Effect::Nothing
                    },
                    Message::EditAppointment(id) => {
                        let f = first_with_id(store, id, 0);
                        &&& f < store.len() ==> {
                            &&& after == before.with_dialog(after.edit_dialog).with_draft(
                                after.dialog_appointment,
                            )
                            &&& editing(after.edit_dialog, store[f])
                            &&& after.dialog_appointment@ == draft_of(store[f])
                        }
                        &&& f >= store.len() ==> after == before
                        &&& effect == Effect::Nothing
                    },
                    Message::DialogPriority(priority) => {
                        &&& after == before.with_draft(
                            DialogAppointment { priority, ..before.dialog_appointment },
                        )
                        &&& effect == Effect::FocusNext
                    },
                    Message::DialogDate(text) => {
                        &&& after == before.with_draft(
                            DialogAppointment { date: text, ..before.dialog_appointment },
                        )
                        &&& effect == Effect::Nothing
                    },
                    Message::DialogWarning(text) => {
                        &&& after == before.with_draft(
                            DialogAppointment { warning: text, ..before.dialog_appointment },
                        )
                        &&& effect == if date_text_value(text@) is Some {
                            Effect::FocusNext
                        } else {
                            Effect::Nothing
                        }
                    },
                    Message::DialogTags(text) => {
                        &&& after == before.with_draft(
                            DialogAppointment { tags: text, ..before.dialog_appointment },
                        )
                        &&& effect == Effect::Nothing
                    },
                    Message::DialogDescription(text) => {
                        &&& after == before.with_draft(
                            DialogAppointment { description: text, ..before.dialog_appointment },
                        )
                        &&& effect == Effect::Nothing
                    },
                    Message::DialogCancel => {
                        &&& after == before.with_dialog(None)
                        &&& effect == Effect::Nothing
                    },
                    Message::DialogSubmit(previous) => submitted(before, after, previous, effect),
                }
            }),
    {
        match message {
            Message::TimeIncrement => {
                self.step_time(true);
                Effect::Nothing
            },
            Message::TimeDecrement => {
                self.step_time(false);
                Effect::Nothing
            },
            Message::AddAppointment(date) => {
                self.edit_dialog = Some(DialogOption::Add(date));
                let mut draft = DialogAppointment::default();
                draft.date = date.fmt();
                self.dialog_appointment = draft;
                Effect::Nothing
            },
            Message::EditAppointment(id) => {
                if let Some(i) = find_by_id(&self.appointments, id) {
                    let appointment = copy_appointment(&self.appointments[i]);
                    let draft = DialogAppointment::from_appointment(
                        copy_appointment(&appointment),
                    );
                    self.edit_dialog = Some(DialogOption::Edit(appointment));
                    self.dialog_appointment = draft;
                }
                Effect::Nothing
            },
            Message::DialogDate(text) => {
                self.dialog_appointment.date = text;
                Effect::Nothing
            },
            Message::DialogPriority(priority) => {
                self.dialog_appointment.priority = priority;
                Effect::FocusNext
            },
            Message::DialogWarning(text) => {
                let parsed = valid_date(text.clone());
                self.dialog_appointment.warning = text;
                if parsed.is_ok() {
                    Effect::FocusNext
                } else {
                    Effect::Nothing
                }
            },
            Message::DialogTags(text) => {
                self.dialog_appointment.tags = text;
                Effect::Nothing
            },
            Message::DialogDescription(text) => {
                self.dialog_appointment.description = text;
                Effect::Nothing
            },
            Message::DialogCancel => {
                self.edit_dialog = None;
                Effect::Nothing
            },
            Message::DialogSubmit(previous) => {
                let date = valid_date(self.dialog_appointment.date.clone());
                let warning = valid_date(self.dialog_appointment.warning.clone());
                let tags = valid_tags(self.dialog_appointment.tags.clone());
                match (date, warning, tags) {
                    (Ok(date), Ok(warning), Ok(tags)) => {
                        let ghost store = store_view(self.appointments@);
                        if let Some(p) = &previous {
                            remove_appointment(&mut self.appointments, p);
                        }
                        let ghost kept = store_view(self.appointments@);
                        let id = new_id(&self.appointments);
                        let appointment = Appointment {
                            id,
                            date,
                            priority: self.dialog_appointment.priority,
                            warning,
                            tags: Some(tags),
                            description: self.dialog_appointment.description.clone(),
                        };
                        self.appointments.push(appointment);
                        assert(store_view(self.appointments@) =~= kept.push(appointment@));
                        self.edit_dialog = None;
                        Effect::Save
                    },
                    _ => Effect::Nothing,
                }
            },
        }
    }

    /// Handles input from the window: the wheel moves the anchor, or with Control held
    /// changes the depth; arrows move the anchor (up, down) or the depth (left, right);
    /// Tab moves the focus; Escape closes the dialog; closing the window saves first.
    pub fn handle_event(&mut self, event: InputEvent) -> (effect: Effect)
        requires
            old(self).wf(),
        ensures
            final(self).wf(),
            ({
                let before = *old(self);
                let after = *final(self);
                match event {
                    InputEvent::Wheel { up } => {
                        &&& before.control ==> after == before.with_depth(
                            if up {
                                before.depth.wider()
                            } else {
                                before.depth.deeper()
                            },
                        )
                        &&& !before.control ==> {
                            &&& after == before.with_date(after.active_date)
                            &&& stepped(before.active_date, after.active_date, before.depth, !up)
                        }
                        &&& effect == Effect::Nothing
                    },
                    InputEvent::KeyPressed(Key::Tab) => after == before && effect == Effect::FocusNext,
                    InputEvent::KeyPressed(Key::Escape) => after == before.with_dialog(None) && effect
                        == Effect::Nothing,
                    InputEvent::KeyPressed(Key::Down) => {
                        &&& after == before.with_date(after.active_date)
                        &&& stepped(before.active_date, after.active_date, before.depth, true)
                        &&& effect == Effect::Nothing
                    },
                    InputEvent::KeyPressed(Key::Up) => {
                        &&& after == before.with_date(after.active_date)
                        &&& stepped(before.active_date, after.active_date, before.depth, false)
                        &&& effect == Effect::Nothing
                    },
                    InputEvent::KeyPressed(Key::Left) => after == before.with_depth(
                        before.depth.wider(),
                    ) && effect == Effect::Nothing,
                    InputEvent::KeyPressed(Key::Right) => after == before.with_depth(
                        before.depth.deeper(),
                    ) && effect == Effect::Nothing,
                    InputEvent::KeyPressed(Key::Other) => after == before && effect == Effect::Nothing,
                    InputEvent::ModifiersChanged { control } => after == (CalendarWidget {
                        control,
                        ..before
                    }) && effect == Effect::Nothing,
                    InputEvent::CloseRequested => after == before && effect == Effect::SaveAndClose,
                    InputEvent::Other => after == before && effect == Effect::Nothing,
                }
            }),
    {
        match event {
            InputEvent::Wheel { up } => {
                if self.control {
                    self.depth = if up {
                        self.depth.depth_decrease()
                    } else {
                        self.depth.depth_increase()
                    };
                } else {
                    self.step_time(!up);
                }
                Effect::Nothing
            },
            InputEvent::KeyPressed(key) => match key {
                Key::Tab => Effect::FocusNext,
                Key::Escape => {
                    self.edit_dialog = None;
                    Effect::Nothing
                },
                Key::Down => {
                    self.step_time(true);
                    Effect::Nothing
                },
                Key::Up => {
                    self.step_time(false);
                    Effect::Nothing
                },
                Key::Left => {
                    self.depth = self.depth.depth_decrease();
                    Effect::Nothing
                },
                Key::Right => {
                    self.depth = self.depth.depth_increase();
                    Effect::Nothing
                },
                Key::Other => Effect::Nothing,
            },
            InputEvent::ModifiersChanged { control } => {
                self.control = control;
                Effect::Nothing
            },
            InputEvent::CloseRequested => Effect::SaveAndClose,
            InputEvent::Other => Effect::Nothing,
        }
    }

    /// The grid of the current depth around the anchor, and the dialog's submit message
    /// while the dialog is open.
    pub fn view(&self) -> (r: CalendarView)
        requires
            self.wf(),
        ensures
            ({
                let store = store_view(self.appointments@);
                let y = self.active_date.year as int;
                let m = self.active_date.month as int;
                &&& match r.layout {
                    Layout::Year(rows) => self.depth == Depth::Year && is_year_grid(rows@, store, y),
                    Layout::Month(weeks) => self.depth == Depth::Month && is_month_grid(
                        weeks@,
                        store,
                        y,
                        m,
                    ),
                    Layout::Week(cells) => self.depth == Depth::Week && is_week_grid(
                        cells@,
                        store,
                        self.active_date,
                    ),
                }
                &&& submits(r.submit, self.edit_dialog)
            }),
    {
        let layout = match self.depth {
            Depth::Year => Layout::Year(view_year(&self.appointments, self.active_date)),
            Depth::Month => Layout::Month(view_month(&self.appointments, self.active_date)),
            Depth::Week => Layout::Week(view_week(&self.appointments, self.active_date)),
        };
        let submit = match &self.edit_dialog {
            Some(DialogOption::Edit(a)) => Some(Message::DialogSubmit(Some(copy_appointment(a)))),
            Some(DialogOption::Add(_)) => Some(Message::DialogSubmit(None)),
            None => None,
        };
        CalendarView { layout, submit }
    }
}

/// Style of a day cell.
#[derive(Debug, Clone, Copy, PartialEq, Eq, Structural)]
pub enum DayContainerStyle {
    Bordered,
}

/// The look of a day cell of the calendar.
#[derive(Debug, Clone, Copy, PartialEq, Eq, Structural)]
pub struct DayContainer(pub DayContainerStyle);

impl Default for DayContainer {
    fn default() -> (r: Self)
        ensures
            r.0 == DayContainerStyle::Bordered,
    {
        DayContainer(DayContainerStyle::Bordered)
    }
}

impl DayContainer {
    pub fn new() -> (r: Self)
        ensures
            r.0 == DayContainerStyle::Bordered,
    {
        Self::default()
    }
}

} // verus!
