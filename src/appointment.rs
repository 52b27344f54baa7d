//! Appointments and the operations on the collection that holds them.

use vstd::prelude::*;
use vstd::seq_lib::seq_to_set_is_finite;
use vstd::set_lib::{lemma_int_range, lemma_len_subset, set_int_range};
use crate::date::PDate;

verus! {

/// How urgent an appointment is; listed from the most to the least urgent.
#[derive(Debug, Clone, Copy, PartialEq, Eq, Structural)]
pub enum Priority {
    High,
    Middle,
    Low,
}

impl Priority {
    /// The name a priority is shown by.
    pub open spec fn name(self) -> Seq<char> {
        match self {
            Priority::High => seq!['H', 'i', 'g', 'h'],
            Priority::Middle => seq!['M', 'i', 'd', 'd', 'l', 'e'],
            Priority::Low => seq!['L', 'o', 'w'],
        }
    }

    /// The name a priority is shown by.
    pub fn fmt(&self) -> (r: String)
        ensures
            r@ == self.name(),
    {
        match self {
            Priority::High => {
                proof { reveal_strlit("High"); }
                let r = String::from_str("High");
                assert(r@ =~= self.name());
                r
            },
            Priority::Middle => {
                proof { reveal_strlit("Middle"); }
                let r = String::from_str("Middle");
                assert(r@ =~= self.name());
                r
            },
            Priority::Low => {
                proof { reveal_strlit("Low"); }
                let r = String::from_str("Low");
                assert(r@ =~= self.name());
                r
            },
        }
    }
}

/// A scheduled entry of the planner.
#[derive(Debug, Clone)]
pub struct Appointment {
    pub id: i32,
    pub date: PDate,
    pub priority: Priority,
    pub warning: PDate,
    pub tags: Option<Vec<String>>,
    pub description: String,
}

/// What an appointment holds, with its texts as character sequences.
pub struct AppointmentView {
    pub id: i32,
    pub date: PDate,
    pub priority: Priority,
    pub warning: PDate,
    pub tags: Option<Seq<Seq<char>>>,
    pub description: Seq<char>,
}

pub open spec fn tags_view(tags: Option<Vec<String>>) -> Option<Seq<Seq<char>>> {
    match tags {
        Some(v) => Some(v.deep_view()),
        None => None,
    }
}

impl View for Appointment {
    type V = AppointmentView;

    open spec fn view(&self) -> AppointmentView {
        AppointmentView {
            id: self.id,
            date: self.date,
            priority: self.priority,
            warning: self.warning,
            tags: tags_view(self.tags),
            description: self.description@,
        }
    }
}

/// The appointments of a store, as values.
pub open spec fn store_view(store: Seq<Appointment>) -> Seq<AppointmentView> {
    store.map_values(|a: Appointment| a@)
}

fn same_texts(a: &Vec<String>, b: &Vec<String>) -> (r: bool)
    ensures
        r == (a.deep_view() == b.deep_view()),
{
    if a.len() != b.len() {
        assert(a.deep_view().len() != b.deep_view().len());
        return false;
    }
    let mut i: usize = 0;
    while i < a.len()
        invariant
            a.len() == b.len(),
            i <= a.len(),
            forall|k: int| 0 <= k < i ==> a@[k]@ == b@[k]@,
        decreases a.len() - i,
    {
        if a[i] != b[i] {
            assert(a.deep_view()[i as int] != b.deep_view()[i as int]);
            return false;
        }
        i = i + 1;
    }
    assert(a.deep_view() =~= b.deep_view());
    true
}

fn same_tags(a: &Option<Vec<String>>, b: &Option<Vec<String>>) -> (r: bool)
    ensures
        r == (tags_view(*a) == tags_view(*b)),
{
    match (a, b) {
        (Some(x), Some(y)) => same_texts(x, y),
        (None, None) => true,
        _ => false,
    }
}

impl PartialEq for Appointment {
    fn eq(&self, other: &Appointment) -> (r: bool) {
        self.id == other.id && self.date == other.date && self.priority == other.priority
            && self.warning == other.warning && same_tags(&self.tags, &other.tags)
            && self.description == other.description
    }
}

impl vstd::std_specs::cmp::PartialEqSpecImpl for Appointment {
    open spec fn obeys_eq_spec() -> bool {
        true
    }

    open spec fn eq_spec(&self, other: &Appointment) -> bool {
        self@ == other@
    }
}

impl Default for Appointment {
    fn default() -> (r: Self)
        ensures
            r.id == 0,
            r.date == PDate::default_date(),
            r.priority == Priority::Low,
            r.warning == PDate::default_date(),
            r.tags is None,
            r.description@ == "Description"@,
    {
        Appointment {
            id: 0,
            date: PDate::default(),
            priority: Priority::Low,
            warning: PDate::default(),
            tags: None,
            description: String::from_str("Description"),
        }
    }
}

impl Appointment {
    pub fn description(&self) -> (r: &String)
        ensures
            *r == self.description,
    {
        &self.description
    }
}

/// Some appointment of `store` has id `id`.
pub open spec fn id_in_use(store: Seq<AppointmentView>, id: int) -> bool {
    exists|i: int| 0 <= i < store.len() && store[i].id == id
}

/// `r` is the smallest non-negative id that no appointment of `store` has.
pub open spec fn is_least_free_id(store: Seq<AppointmentView>, r: int) -> bool {
    &&& r >= 0
    &&& !id_in_use(store, r)
    &&& forall|k: int| 0 <= k < r ==> id_in_use(store, k)
}

/// `n` appointments cannot use all of the `n + 1` ids from 0 to `n`.
proof fn lemma_some_id_free(store: Seq<AppointmentView>)
    ensures
        exists|k: int| 0 <= k <= store.len() && !id_in_use(store, k),
{
    if forall|k: int| 0 <= k <= store.len() ==> id_in_use(store, k) {
        lemma_all_ids_used_impossible(store);
    }
}

proof fn lemma_all_ids_used_impossible(store: Seq<AppointmentView>)
    requires
        forall|k: int| 0 <= k <= store.len() ==> id_in_use(store, k),
    ensures
        store.len() + 1 <= store.len(),
{
    let n = store.len() as int;
    let ids = Seq::new(store.len(), |i: int| store[i].id as int);
    let range = set_int_range(0, n + 1);
    assert(range.subset_of(ids.to_set())) by {
        assert forall|k: int| range.contains(k) implies ids.to_set().contains(k) by {
            assert(id_in_use(store, k));
            let i = choose|i: int| 0 <= i < store.len() && store[i].id == k;
            assert(ids[i] == k);
        }
    }
    lemma_int_range(0, n + 1);
    seq_to_set_is_finite(ids);
    lemma_len_subset(range, ids.to_set());
    ids.lemma_cardinality_of_set();
}

/// The smallest non-negative id that no appointment uses; ids freed by a removal are
/// handed out again.
pub fn new_id(appointments: &Vec<Appointment>) -> (r: i32)
    requires
        appointments.len() < i32::MAX,
    ensures
        is_least_free_id(store_view(appointments@), r as int),
        r as int <= appointments.len(),
{
    let ghost store = store_view(appointments@);
    let n = appointments.len();
    let mut seen: Vec<bool> = Vec::new();
    while seen.len() <= n
        invariant
            seen.len() <= n + 1,
            forall|k: int| 0 <= k < seen.len() ==> !seen@[k],
        decreases n + 1 - seen.len(),
    {
        seen.push(false);
    }
    let mut i: usize = 0;
    while i < n
        invariant
            n == appointments.len(),
            store == store_view(appointments@),
            seen.len() == n + 1,
            i <= n,
            forall|k: int|
                0 <= k <= n ==> (seen@[k] <==> exists|j: int|
                    0 <= j < i && store[j].id == k),
        decreases n - i,
    {
        let id = appointments[i].id;
        if id >= 0 && (id as usize) <= n {
            seen.set(id as usize, true);
        }
        assert forall|k: int| 0 <= k <= n implies (seen@[k] <==> exists|j: int|
            0 <= j < i + 1 && store[j].id == k) by {
            if seen@[k] && k != id {
                let j = choose|j: int| 0 <= j < i && store[j].id == k;
                assert(0 <= j < i + 1 && store[j].id == k);
            }
            if k == id {
                assert(store[i as int].id == k);
            }
        }
        i = i + 1;
    }
    let mut c: usize = 0;
    while c <= n
        invariant
            n == appointments.len(),
            store == store_view(appointments@),
            n < i32::MAX,
            seen.len() == n + 1,
            c <= n + 1,
            forall|k: int|
                0 <= k <= n ==> (seen@[k] <==> exists|j: int|
                    0 <= j < n && store[j].id == k),
            forall|k: int| 0 <= k < c ==> id_in_use(store, k),
        decreases n + 1 - c,
    {
        if !seen[c] {
            return c as i32;
        }
        assert(id_in_use(store, c as int));
        c = c + 1;
    }
    proof {
        lemma_some_id_free(store);
    }
    0
}

/// Two dates fall on the same calendar day, whatever their time of day.
pub open spec fn same_day(a: PDate, b: PDate) -> bool {
    a.year == b.year && a.month == b.month && a.day == b.day
}

/// Positions, in store order, of the appointments of `store` that fall on the day of
/// `date`.
pub open spec fn indices_on(store: Seq<AppointmentView>, date: PDate) -> Seq<usize> {
    Seq::new(store.len(), |i: int| i as usize).filter(|i: usize| same_day(store[i as int].date, date))
}

/// Positions of the appointments on the day of `date`.
pub fn find_appointments_from_date(appointments: &Vec<Appointment>, date: PDate) -> (r: Vec<usize>)
    ensures
        r@ == indices_on(store_view(appointments@), date),
{
    let ghost store = store_view(appointments@);
    let ghost pred = |i: usize| same_day(store[i as int].date, date);
    let mut found: Vec<usize> = Vec::new();
    let mut i: usize = 0;
    assert(Seq::new(0, |k: int| k as usize).filter(pred) =~= Seq::<usize>::empty()) by {
        reveal(Seq::filter);
    }
    while i < appointments.len()
        invariant
            i <= appointments.len(),
            store == store_view(appointments@),
            pred == (|i: usize| same_day(store[i as int].date, date)),
            found@ == Seq::new(i as nat, |k: int| k as usize).filter(pred),
        decreases appointments.len() - i,
    {
        let ghost upto = Seq::new((i + 1) as nat, |k: int| k as usize);
        assert(upto.drop_last() =~= Seq::new(i as nat, |k: int| k as usize));
        assert(upto.last() == i);
        reveal(Seq::filter);
        let a = &appointments[i];
        if a.date.year == date.year && a.date.month == date.month && a.date.day == date.day {
            found.push(i);
        }
        i = i + 1;
    }
    assert(Seq::new(appointments.len() as nat, |k: int| k as usize) =~= Seq::new(
        store.len(),
        |k: int| k as usize,
    ));
    found
}

/// Position of the first appointment of `store`, from `from` on, that has id `id`;
/// the length of `store` when there is none.
pub open spec fn first_with_id(store: Seq<AppointmentView>, id: i32, from: int) -> int
    decreases store.len() - from,
{
    if from < 0 || from >= store.len() {
        store.len() as int
    } else if store[from].id == id {
        from
    } else {
        first_with_id(store, id, from + 1)
    }
}

/// Position of the first appointment of `store`, from `from` on, equal to `x`; the
/// length of `store` when there is none.
pub open spec fn first_equal(store: Seq<AppointmentView>, x: AppointmentView, from: int) -> int
    decreases store.len() - from,
{
    if from < 0 || from >= store.len() {
        store.len() as int
    } else if store[from] == x {
        from
    } else {
        first_equal(store, x, from + 1)
    }
}

/// `store` without its first appointment equal to `x`, if it has one.
pub open spec fn removed_first(store: Seq<AppointmentView>, x: AppointmentView) -> Seq<
    AppointmentView,
> {
    let i = first_equal(store, x, 0);
    if i < store.len() {
        store.remove(i)
    } else {
        store
    }
}

proof fn lemma_first_equal_found(store: Seq<AppointmentView>, x: AppointmentView, from: int, j: int)
    requires
        0 <= from <= j < store.len(),
        store[j] == x,
    ensures
        from <= first_equal(store, x, from) <= j,
        store[first_equal(store, x, from)] == x,
        forall|k: int| from <= k < first_equal(store, x, from) ==> store[k] != x,
    decreases j - from,
{
    if store[from] != x {
        lemma_first_equal_found(store, x, from + 1, j);
    }
}

/// Resubmitting an appointment that is in the store replaces it: one entry equal to
/// it is taken out before the new one is appended, so the store keeps its size.
pub proof fn lemma_resubmit_replaces(
    store: Seq<AppointmentView>,
    x: AppointmentView,
    v: AppointmentView,
)
    requires
        store.contains(x),
    ensures
        removed_first(store, x).push(v).len() == store.len(),
        exists|i: int|
            0 <= i < store.len() && store[i] == x && removed_first(store, x) == store.remove(i),
{
    let j = choose|j: int| 0 <= j < store.len() && store[j] == x;
    lemma_first_equal_found(store, x, 0, j);
    let i = first_equal(store, x, 0);
    assert(0 <= i < store.len() && store[i] == x && removed_first(store, x) == store.remove(i));
}

/// Position of the first appointment with id `id`.
pub fn find_by_id(appointments: &Vec<Appointment>, id: i32) -> (r: Option<usize>)
    ensures
        ({
            let f = first_with_id(store_view(appointments@), id, 0);
            &&& 0 <= f <= appointments.len()
            &&& r == if f < appointments.len() {
                Some(f as usize)
            } else {
                None::<usize>
            }
        }),
{
    let ghost store = store_view(appointments@);
    let mut i: usize = 0;
    while i < appointments.len()
        invariant
            i <= appointments.len(),
            store == store_view(appointments@),
            first_with_id(store, id, 0) == first_with_id(store, id, i as int),
        decreases appointments.len() - i,
    {
        if appointments[i].id == id {
            return Some(i);
        }
        i = i + 1;
    }
    None
}

/// Takes the first appointment equal to `appointment` out of the store, if there is
/// one; says whether one was taken out.
pub fn remove_appointment(appointments: &mut Vec<Appointment>, appointment: &Appointment) -> (r:
    bool)
    ensures
        store_view(final(appointments)@) == removed_first(
            store_view(old(appointments)@),
            appointment@,
        ),
        r == (first_equal(store_view(old(appointments)@), appointment@, 0) < old(
            appointments,
        ).len()),
        final(appointments).len() <= old(appointments).len(),
{
    let ghost store = store_view(appointments@);
    let mut i: usize = 0;
    while i < appointments.len()
        invariant
            i <= appointments.len(),
            store == store_view(appointments@),
            appointments@ == old(appointments)@,
            first_equal(store, appointment@, 0) == first_equal(store, appointment@, i as int),
        decreases appointments.len() - i,
    {
        if appointments[i] == *appointment {
            appointments.remove(i);
            assert(store_view(appointments@) =~= store.remove(i as int));
            return true;
        }
        i = i + 1;
    }
    false
}

/// An appointment with the same contents.
pub fn copy_appointment(a: &Appointment) -> (r: Appointment)
    ensures
        r@ == a@,
{
    let tags = match &a.tags {
        Some(list) => {
            let mut copy: Vec<String> = Vec::new();
            let mut i: usize = 0;
            while i < list.len()
                invariant
                    i <= list.len(),
                    copy.deep_view() == list.deep_view().subrange(0, i as int),
                decreases list.len() - i,
            {
                let ghost before = copy.deep_view();
                let text = list[i].clone();
                assert(text@ == list.deep_view()[i as int]);
                copy.push(text);
                assert(copy.deep_view() =~= before.push(text@));
                assert(copy.deep_view() =~= list.deep_view().subrange(0, i + 1));
                i = i + 1;
            }
            assert(list.deep_view().subrange(0, list.len() as int) =~= list.deep_view());
            Some(copy)
        },
        None => None,
    };
    Appointment {
        id: a.id,
        date: a.date,
        priority: a.priority,
        warning: a.warning,
        tags,
        description: a.description.clone(),
    }
}

} // verus!
