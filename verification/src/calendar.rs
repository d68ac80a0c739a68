//! A calendar of schedules that do not overlap.

use vstd::prelude::*;

verus! {

/// A date and time of day, without a time zone: the whole seconds since
/// midnight before 1 January 1970, and the nanoseconds into the second.
#[derive(Clone, Copy, Debug, PartialEq, Eq, Hash, Structural)]
pub struct Timestamp {
    pub seconds: i64,
    pub nanos: u32,
}

impl Timestamp {
    /// Whether `self` is earlier than `other`.
    pub open spec fn spec_precedes(self, other: Timestamp) -> bool {
        self.seconds < other.seconds || (self.seconds == other.seconds && self.nanos
            < other.nanos)
    }

    /// Whether `self` is earlier than `other`.
    #[verifier::when_used_as_spec(spec_precedes)]
    pub fn precedes(self, other: Timestamp) -> (earlier: bool)
        ensures
            earlier == self.spec_precedes(other),
    {
        self.seconds < other.seconds || (self.seconds == other.seconds && self.nanos
            < other.nanos)
    }
}

/// One entry of the calendar.
#[derive(Debug, PartialEq, Eq)]
pub struct Schedule {
    /// What the entry is known by.
    pub id: u64,
    /// What the time is set aside for.
    pub subject: String,
    /// When it starts.
    pub start: Timestamp,
    /// When it ends.
    pub end: Timestamp,
}

/// The mathematical value of a `Schedule`.
pub struct ScheduleView {
    pub id: u64,
    pub subject: Seq<char>,
    pub start: Timestamp,
    pub end: Timestamp,
}

impl ScheduleView {
    /// Whether two schedules overlap: each starts before the other ends.
    /// Schedules that only touch, one ending when the other starts, do not
    /// overlap.
    pub open spec fn intersects(self, other: ScheduleView) -> bool {
        self.start.precedes(other.end) && other.start.precedes(self.end)
    }
}

impl View for Schedule {
    type V = ScheduleView;

    open spec fn view(&self) -> ScheduleView {
        ScheduleView { id: self.id, subject: self.subject@, start: self.start, end: self.end }
    }
}

impl DeepView for Schedule {
    type V = ScheduleView;

    open spec fn deep_view(&self) -> ScheduleView {
        self@
    }
}

impl Clone for Schedule {
    fn clone(&self) -> (copy: Schedule)
        ensures
            copy@ == self@,
    {
        Schedule {
            id: self.id,
            subject: self.subject.clone(),
            start: self.start,
            end: self.end,
        }
    }
}

impl Schedule {
    /// Whether this schedule and `other` overlap.
    pub fn intersects(&self, other: &Schedule) -> (overlap: bool)
        ensures
            overlap == self@.intersects(other@),
    {
        self.start.precedes(other.end) && other.start.precedes(self.end)
    }
}

/// The schedules of a calendar, in the order in which they were added.
#[derive(Debug, PartialEq, Eq)]
pub struct Calendar {
    pub schedules: Vec<Schedule>,
}

impl View for Calendar {
    type V = Seq<ScheduleView>;

    open spec fn view(&self) -> Seq<ScheduleView> {
        self.schedules.deep_view()
    }
}

impl Clone for Calendar {
    fn clone(&self) -> (copy: Calendar)
        ensures
            copy@ == self@,
    {
        let mut schedules: Vec<Schedule> = Vec::new();
        let mut i: usize = 0;
        while i < self.schedules.len()
            invariant
                i <= self.schedules.len(),
                schedules.deep_view() =~= self@.take(i as int),
            decreases self.schedules.len() - i,
        {
            let ghost copied = schedules.deep_view();
            let schedule = self.schedules[i].clone();
            schedules.push(schedule);
            assert(schedules.deep_view() =~= copied.push(self@[i as int]));
            i += 1;
        }
        assert(self@.take(i as int) =~= self@);
        Calendar { schedules }
    }
}

/// The id that the next schedule of a calendar is given: zero in an empty
/// calendar, and else one more than the id of the last schedule.
pub open spec fn next_id(schedules: Seq<ScheduleView>) -> int {
    if schedules.len() == 0 {
        0
    } else {
        schedules.last().id + 1
    }
}

/// Whether `candidate` overlaps any of `schedules`.
pub open spec fn clashes(schedules: Seq<ScheduleView>, candidate: ScheduleView) -> bool {
    exists|i: int| 0 <= i < schedules.len() && (#[trigger] schedules[i]).intersects(candidate)
}

/// The position of the first of `schedules` with the given id, or their
/// number if none has it.
pub open spec fn position_of(schedules: Seq<ScheduleView>, id: u64) -> int
    decreases schedules.len(),
{
    if schedules.len() == 0 {
        0
    } else if schedules[0].id == id {
        0
    } else {
        1 + position_of(schedules.drop_first(), id)
    }
}

/// `position_of` finds the first schedule with the id, and runs to the end
/// exactly when there is none.
pub proof fn lemma_position_of(schedules: Seq<ScheduleView>, id: u64)
    ensures
        0 <= position_of(schedules, id) <= schedules.len(),
        forall|k: int| 0 <= k < position_of(schedules, id) ==> (#[trigger] schedules[k]).id != id,
        position_of(schedules, id) < schedules.len() ==> schedules[position_of(schedules, id)].id
            == id,
    decreases schedules.len(),
{
    if schedules.len() > 0 && schedules[0].id != id {
        let rest = schedules.drop_first();
        lemma_position_of(rest, id);
        assert forall|k: int| 0 <= k < position_of(schedules, id) implies (
        #[trigger] schedules[k]).id != id by {
            if k > 0 {
                assert(rest[k - 1] == schedules[k]);
            }
        }
    }
}

/// Adds a schedule for `subject` from `start` to `end`, unless it overlaps
/// one that is there. Says whether it was added. The new schedule goes to
/// the end of the calendar, with an id of zero in an empty calendar and else
/// one above the id of the schedule before it.
pub fn add_schedule(calendar: &mut Calendar, subject: String, start: Timestamp, end: Timestamp) -> (added:
    bool)
    requires
        next_id(old(calendar)@) <= u64::MAX,
    ensures
        ({
            let candidate = ScheduleView {
                id: next_id(old(calendar)@) as u64,
                subject: subject@,
                start,
                end,
            };
            &&& added == !clashes(old(calendar)@, candidate)
            &&& added ==> final(calendar)@ == old(calendar)@.push(candidate)
            &&& !added ==> final(calendar)@ == old(calendar)@
        }),
{
    let count = calendar.schedules.len();
    let id = if count == 0 {
        0
    } else {
        calendar.schedules[count - 1].id + 1
    };
    proof {
        if count > 0 {
            assert(calendar@.last() == calendar.schedules@[count - 1]@);
        }
    }
    let ghost candidate = ScheduleView { id, subject: subject@, start, end };
    let new_schedule = Schedule { id, subject, start, end };
    let mut i: usize = 0;
    while i < count
        invariant
            count == calendar.schedules.len(),
            i <= count,
            calendar@ == old(calendar)@,
            new_schedule@ == candidate,
            candidate == (ScheduleView {
                id: next_id(old(calendar)@) as u64,
                subject: subject@,
                start,
                end,
            }),
            forall|k: int| 0 <= k < i ==> !(#[trigger] calendar@[k]).intersects(candidate),
        decreases count - i,
    {
        if calendar.schedules[i].intersects(&new_schedule) {
            assert(calendar@[i as int].intersects(candidate));
            return false;
        }
        i += 1;
    }
    let ghost before = calendar@;
    calendar.schedules.push(new_schedule);
    assert(calendar@ =~= before.push(candidate));
    true
}

/// Takes the first schedule with the given id out of the calendar, if there
/// is one. Says whether there was one. The other schedules stay as they are
/// and in their order.
pub fn delete_schedule(calendar: &mut Calendar, id: u64) -> (deleted: bool)
    ensures
        deleted == (position_of(old(calendar)@, id) < old(calendar)@.len()),
        deleted ==> final(calendar)@ == old(calendar)@.remove(position_of(old(calendar)@, id)),
        !deleted ==> final(calendar)@ == old(calendar)@,
{
    proof {
        lemma_position_of(calendar@, id);
    }
    let count = calendar.schedules.len();
    let mut i: usize = 0;
    while i < count
        invariant
            count == calendar.schedules.len(),
            i <= count,
            calendar@ == old(calendar)@,
            i <= position_of(calendar@, id) <= count,
            forall|k: int|
                0 <= k < position_of(calendar@, id) ==> (#[trigger] calendar@[k]).id != id,
            position_of(calendar@, id) < count ==> calendar@[position_of(calendar@, id)].id == id,
        decreases count - i,
    {
        if calendar.schedules[i].id == id {
            let ghost before = calendar@;
            assert(before[i as int].id == id);
            assert(position_of(before, id) == i);
            calendar.schedules.remove(i);
            assert(calendar@ =~= before.remove(i as int));
            return true;
        }
        assert(calendar@[i as int].id != id);
        i += 1;
    }
    false
}

/// Whether the ids of `schedules` rise from each schedule to the next.
pub open spec fn ids_rise(schedules: Seq<ScheduleView>) -> bool {
    forall|i: int, j: int| 0 <= i < j < schedules.len() ==> schedules[i].id < schedules[j].id
}

/// Whether no two of `schedules` overlap.
pub open spec fn free_of_clashes(schedules: Seq<ScheduleView>) -> bool {
    forall|i: int, j: int|
        0 <= i < j < schedules.len() ==> !(#[trigger] schedules[i]).intersects(
            #[trigger] schedules[j],
        )
}

/// Adding a schedule the way `add_schedule` does keeps a calendar in order:
/// the ids still rise, so no two schedules share one, and still no two
/// schedules overlap.
pub proof fn lemma_add_keeps_order(schedules: Seq<ScheduleView>, candidate: ScheduleView)
    requires
        ids_rise(schedules),
        free_of_clashes(schedules),
        candidate.id == next_id(schedules),
        !clashes(schedules, candidate),
    ensures
        ids_rise(schedules.push(candidate)),
        free_of_clashes(schedules.push(candidate)),
{
    let grown = schedules.push(candidate);
    assert forall|i: int, j: int| 0 <= i < j < grown.len() implies grown[i].id < grown[j].id by {
        if j == schedules.len() {
            if i < schedules.len() - 1 {
                assert(schedules[i].id < schedules[schedules.len() - 1].id);
            }
        }
    }
    assert forall|i: int, j: int| 0 <= i < j < grown.len() implies !(#[trigger] grown[i]).intersects(
        #[trigger] grown[j],
    ) by {
        if j == schedules.len() {
            assert(!schedules[i].intersects(candidate));
        } else {
            assert(!schedules[i].intersects(schedules[j]));
        }
    }
}

/// Taking a schedule out keeps a calendar in order.
pub proof fn lemma_delete_keeps_order(schedules: Seq<ScheduleView>, at: int)
    requires
        ids_rise(schedules),
        free_of_clashes(schedules),
        0 <= at < schedules.len(),
    ensures
        ids_rise(schedules.remove(at)),
        free_of_clashes(schedules.remove(at)),
{
    let rest = schedules.remove(at);
    assert forall|i: int, j: int| 0 <= i < j < rest.len() implies rest[i].id < rest[j].id by {
        let a = if i < at {
            i
        } else {
            i + 1
        };
        let b = if j < at {
            j
        } else {
            j + 1
        };
        assert(schedules[a].id < schedules[b].id);
    }
    assert forall|i: int, j: int| 0 <= i < j < rest.len() implies !(#[trigger] rest[i]).intersects(
        #[trigger] rest[j],
    ) by {
        let a = if i < at {
            i
        } else {
            i + 1
        };
        let b = if j < at {
            j
        } else {
            j + 1
        };
        assert(!schedules[a].intersects(schedules[b]));
    }
}

/// In a calendar whose ids rise, deleting the schedule that was added last
/// gives back the calendar as it was before.
pub proof fn lemma_delete_undoes_add(schedules: Seq<ScheduleView>, candidate: ScheduleView)
    requires
        ids_rise(schedules),
        candidate.id == next_id(schedules),
    ensures
        position_of(schedules.push(candidate), candidate.id) == schedules.len(),
        schedules.push(candidate).remove(schedules.len() as int) == schedules,
{
    let grown = schedules.push(candidate);
    lemma_position_of(grown, candidate.id);
    let at = position_of(grown, candidate.id);
    assert(grown[schedules.len() as int].id == candidate.id);
    if at < schedules.len() {
        assert(grown[at] == schedules[at]);
        if at < schedules.len() - 1 {
            assert(schedules[at].id < schedules[schedules.len() - 1].id);
        }
    }
    assert(grown.remove(schedules.len() as int) =~= schedules);
}

} // verus!
