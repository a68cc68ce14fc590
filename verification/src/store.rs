//! The task store: creation, listing and completion-recording.
//!
//! The store keeps one record per task, in creation order, and derives the
//! outward view of a task — who it is assigned to and how close its deadline
//! is — on every read.  "Today" is always an explicit argument, so every
//! operation is deterministic in its inputs.
//!
//! Policy notes: participant lists may not contain duplicates, and a
//! completion is only accepted from someone who is in the task's rota; both
//! are rejected as validation errors.

use vstd::prelude::*;
use crate::dates::{Date, MIN_DAY};
use crate::deadline::{next_deadline, spec_deadline};
use crate::rotation::{
    distinct_rota, lemma_rota_contains_reverse, lemma_successor_in_rota, next_assignee,
    predecessor_of, rota_contains, successor_of,
};
use crate::types::{Deadline, Routine, TaskId};

verus! {

/// Why a store operation was refused.
///
/// All variants but `InvariantViolated` are validation faults: the caller
/// named a task that does not exist, a person outside the rota, a duration
/// of zero days, a duplicated participant, or a completion date before the
/// task existed.  `InvariantViolated` reports corrupted task state — a
/// recorded completer that is not in the participant list, or records that
/// no creation could have produced.
#[derive(Debug, PartialEq, Eq)]
pub enum TaskStoreError {
    UnknownTask(TaskId),
    PersonNotInRota(String),
    DuplicateParticipant(String),
    InvalidDuration,
    CompletionBeforeStart,
    InvariantViolated,
}

/// The HTTP status an error maps to: corrupted state is the system's fault,
/// everything else the caller's.
pub open spec fn spec_status_code(e: TaskStoreError) -> int {
    match e {
        TaskStoreError::InvariantViolated => 500,
        TaskStoreError::UnknownTask(_) => 400,
        TaskStoreError::PersonNotInRota(_) => 400,
        TaskStoreError::DuplicateParticipant(_) => 400,
        TaskStoreError::InvalidDuration => 400,
        TaskStoreError::CompletionBeforeStart => 400,
    }
}

impl TaskStoreError {
    /// The HTTP status this error maps to.
    pub fn status_code(&self) -> (c: u16)
        ensures
            c == spec_status_code(*self),
    {
        match self {
            TaskStoreError::InvariantViolated => 500,
            TaskStoreError::UnknownTask(_) => 400,
            TaskStoreError::PersonNotInRota(_) => 400,
            TaskStoreError::DuplicateParticipant(_) => 400,
            TaskStoreError::InvalidDuration => 400,
            TaskStoreError::CompletionBeforeStart => 400,
        }
    }
}

/// One task as the store records it: its fixed attributes, the date its
/// period grid is anchored at (the date of its synthesized first
/// completion), and the latest completion.
pub struct StoredTask {
    pub id: TaskId,
    pub name: String,
    pub routine: Routine,
    pub duration_days: u16,
    pub participants: Vec<String>,
    pub anchor: Date,
    pub last_completed: Date,
    pub last_completed_by: String,
}

/// Internal consistency of one stored task.
pub open spec fn task_wf(t: StoredTask) -> bool {
    &&& t.duration_days > 0
    &&& t.participants.deep_view().len() > 0
    &&& distinct_rota(t.participants.deep_view())
    &&& rota_contains(t.participants.deep_view(), t.last_completed_by@)
    &&& t.anchor.day() <= t.last_completed.day()
}

/// What a stored task needs for its view to be derivable at all: a positive
/// duration, a completion no earlier than the anchor, and a completer that
/// is in the rota.
pub open spec fn derivable(t: StoredTask) -> bool {
    &&& t.duration_days > 0
    &&& t.anchor.day() <= t.last_completed.day()
    &&& rota_contains(t.participants.deep_view(), t.last_completed_by@)
}

/// The outward view of one task: its attributes together with the derived
/// current assignee and deadline.
#[derive(Debug, Clone, PartialEq, Eq)]
pub struct Task {
    pub id: TaskId,
    pub name: String,
    pub kind: Routine,
    pub assigned_to: String,
    pub deadline: Deadline,
    pub length_days: u16,
    pub last_completed: Date,
    pub participants: Vec<String>,
}

/// Mathematical shape of a task view.
#[verifier::ext_equal]
pub ghost struct TaskView {
    pub id: int,
    pub name: Seq<char>,
    pub kind: Routine,
    pub assigned_to: Seq<char>,
    pub deadline: Deadline,
    pub length_days: int,
    pub last_completed: int,
    pub participants: Seq<Seq<char>>,
}

impl View for Task {
    type V = TaskView;

    open spec fn view(&self) -> TaskView {
        TaskView {
            id: self.id@,
            name: self.name@,
            kind: self.kind,
            assigned_to: self.assigned_to@,
            deadline: self.deadline,
            length_days: self.length_days as int,
            last_completed: self.last_completed.day(),
            participants: self.participants.deep_view(),
        }
    }
}

/// The view a stored task derives to on `today`: the next assignee follows
/// the recorded completer in rotation order, and the deadline comes from
/// the task's policy, duration, anchor and latest completion.
pub open spec fn spec_model(t: StoredTask, today: int) -> TaskView {
    TaskView {
        id: t.id@,
        name: t.name@,
        kind: t.routine,
        assigned_to: successor_of(t.participants.deep_view(), t.last_completed_by@),
        deadline: spec_deadline(
            t.routine,
            t.duration_days as int,
            t.anchor.day(),
            t.last_completed.day(),
            today,
        ),
        length_days: t.duration_days as int,
        last_completed: t.last_completed.day(),
        participants: t.participants.deep_view(),
    }
}

/// The derived views of a whole record table.
pub open spec fn spec_models(ts: Seq<StoredTask>, today: int) -> Seq<TaskView> {
    ts.map_values(|t: StoredTask| spec_model(t, today))
}

/// The views of a list of task views.
pub open spec fn task_views(ts: Seq<Task>) -> Seq<TaskView> {
    ts.map_values(|t: Task| t@)
}

/// What lower-casing a string yields; written by `fold_case` alone.
pub uninterp spec fn case_folded(s: Seq<char>) -> Seq<char>;

/// Relies on `str::to_lowercase`: its result depends on the characters of
/// its argument alone.
#[verifier::external_body]
fn fold_case(s: &str) -> (r: String)
    ensures
        r@ == case_folded(s@),
{
    s.to_lowercase()
}

/// Whether a view is assigned to `person`, compared case-insensitively.
pub open spec fn spec_assigned_to(m: TaskView, person: Seq<char>) -> bool {
    case_folded(m.assigned_to) == case_folded(person)
}

/// Everything needed to create a task.
pub struct NewTask {
    pub name: String,
    pub routine: Routine,
    pub duration: u16,
    pub participants: Vec<String>,
    pub starts_on: Date,
    pub starts_with: String,
}

/// Copies a participant list.
fn clone_participants(ps: &Vec<String>) -> (r: Vec<String>)
    ensures
        r.deep_view() == ps.deep_view(),
{
    let mut out: Vec<String> = Vec::new();
    let mut i: usize = 0;
    while i < ps.len()
        invariant
            i <= ps.len(),
            out@.len() == i,
            forall|j: int| 0 <= j < i ==> out.deep_view()[j] == ps.deep_view()[j],
        decreases ps.len() - i,
    {
        let ghost prev = out@;
        out.push(ps[i].clone());
        proof {
            assert forall|j: int| 0 <= j < i + 1 implies out.deep_view()[j] == ps.deep_view()[j] by {
                if j < i {
                    assert(out@[j] == prev[j]);
                }
            }
        }
        i = i + 1;
    }
    proof {
        assert(out.deep_view() =~= ps.deep_view());
    }
    out
}

/// Copies a participant list in reverse order.
fn reverse_participants(ps: &Vec<String>) -> (r: Vec<String>)
    ensures
        r.deep_view() == ps.deep_view().reverse(),
{
    let mut out: Vec<String> = Vec::new();
    let mut i: usize = 0;
    while i < ps.len()
        invariant
            i <= ps.len(),
            out@.len() == i,
            forall|j: int| 0 <= j < i ==> (#[trigger] out@[j])@ == ps@[ps@.len() - 1 - j]@,
        decreases ps.len() - i,
    {
        let ghost prev = out@;
        out.push(ps[ps.len() - 1 - i].clone());
        proof {
            assert forall|j: int| 0 <= j < i + 1 implies (#[trigger] out@[j])@ == ps@[ps@.len() - 1
                - j]@ by {
                if j < i {
                    assert(out@[j] == prev[j]);
                }
            }
        }
        i = i + 1;
    }
    proof {
        assert(out.deep_view() =~= ps.deep_view().reverse());
    }
    out
}

/// First participant name that repeats, if any.
fn find_duplicate(ps: &Vec<String>) -> (r: Option<String>)
    ensures
        match r {
            Some(p) => !distinct_rota(ps.deep_view()) && rota_contains(ps.deep_view(), p@),
            None => distinct_rota(ps.deep_view()),
        },
{
    let mut k: usize = 1;
    while k < ps.len()
        invariant
            1 <= k,
            forall|j2: int, k2: int| 0 <= j2 < k2 < k && k2 < ps.deep_view().len()
                ==> ps.deep_view()[j2] != ps.deep_view()[k2],
        decreases ps.len() - k,
    {
        let mut j: usize = 0;
        while j < k
            invariant
                j <= k < ps@.len(),
                forall|j2: int| 0 <= j2 < j ==> ps.deep_view()[j2] != ps.deep_view()[k as int],
            decreases k - j,
        {
            if ps[j] == ps[k] {
                proof {
                    let dv = ps.deep_view();
                    assert(dv[j as int] == dv[k as int]);
                    assert(!distinct_rota(dv));
                }
                return Some(ps[k].clone());
            }
            j = j + 1;
        }
        k = k + 1;
    }
    None
}

/// Whether `name` is a member of the participant list.
fn contains_person(ps: &Vec<String>, name: &String) -> (b: bool)
    ensures
        b == rota_contains(ps.deep_view(), name@),
{
    let mut i: usize = 0;
    while i < ps.len()
        invariant
            i <= ps.len(),
            forall|j: int| 0 <= j < i ==> ps.deep_view()[j] != name@,
        decreases ps.len() - i,
    {
        if ps[i] == *name {
            assert(ps.deep_view()[i as int] == name@);
            return true;
        }
        i = i + 1;
    }
    false
}

/// Derives the outward view of one stored task as of `today`.
///
/// This is total over arbitrary records: a record whose duration is zero,
/// whose completion precedes its anchor, or whose completer is not in its
/// rota cannot have come from this store's own operations, and is reported
/// as corrupted state rather than crashing.
pub fn derive_task(t: &StoredTask, today: Date) -> (r: Result<Task, TaskStoreError>)
    ensures
        match r {
            Ok(v) => derivable(*t) && v@ == spec_model(*t, today.day()),
            Err(e) => e == TaskStoreError::InvariantViolated && !derivable(*t),
        },
{
    if t.duration_days == 0 {
        return Err(TaskStoreError::InvariantViolated);
    }
    let anchor_day = t.anchor.day_number();
    let last_day = t.last_completed.day_number();
    if last_day < anchor_day {
        return Err(TaskStoreError::InvariantViolated);
    }
    let assigned = match next_assignee(&t.participants, &t.last_completed_by) {
        Ok(name) => name.clone(),
        Err(_) => {
            return Err(TaskStoreError::InvariantViolated);
        },
    };
    let deadline = next_deadline(t.routine, t.duration_days, t.anchor, t.last_completed, today);
    let v = Task {
        id: t.id,
        name: t.name.clone(),
        kind: t.routine,
        assigned_to: assigned,
        deadline,
        length_days: t.duration_days,
        last_completed: t.last_completed,
        participants: clone_participants(&t.participants),
    };
    proof {
        assert(v@ =~= spec_model(*t, today.day()));
    }
    Ok(v)
}

/// Interval law, over task records: the deadline an interval task shows
/// after a completion on day `d` depends only on its duration and on `d` —
/// two records that agree on those, whatever their anchors or completers,
/// derive the same deadline, namely `duration` days counted from `d`.
pub proof fn lemma_interval_deadline_ignores_history(t1: StoredTask, t2: StoredTask, today: int)
    requires
        t1.routine == Routine::Interval,
        t2.routine == Routine::Interval,
        t1.duration_days == t2.duration_days,
        t1.last_completed.day() == t2.last_completed.day(),
    ensures
        spec_model(t1, today).deadline == spec_model(t2, today).deadline,
        spec_model(t1, today).deadline == crate::types::spec_deadline_of(
            t1.last_completed.day() + t1.duration_days - today,
        ),
{
    crate::deadline::lemma_interval_completion(
        t1.duration_days as int,
        t1.anchor.day(),
        t2.anchor.day(),
        t1.last_completed.day(),
        today,
    );
}

/// Schedule law, over task records: two completions of the same schedule
/// task dated inside the same grid period (period `k` runs from
/// `anchor + k * duration` up to but excluding `anchor + (k + 1) * duration`)
/// derive the same deadline, so recording a second completion inside an
/// already-satisfied period leaves the deadline unchanged.
pub proof fn lemma_schedule_same_period_completion_idempotent(
    t1: StoredTask,
    t2: StoredTask,
    k: int,
    today: int,
)
    requires
        t1.routine == Routine::Schedule,
        t2.routine == Routine::Schedule,
        t1.duration_days == t2.duration_days,
        t1.duration_days > 0,
        t1.anchor.day() == t2.anchor.day(),
        t1.anchor.day() + k * t1.duration_days <= t1.last_completed.day() < t1.anchor.day() + (k
            + 1) * t1.duration_days,
        t1.anchor.day() + k * t1.duration_days <= t2.last_completed.day() < t1.anchor.day() + (k
            + 1) * t1.duration_days,
    ensures
        spec_model(t1, today).deadline == spec_model(t2, today).deadline,
{
    crate::deadline::lemma_schedule_same_period_idempotent(
        t1.duration_days as int,
        t1.anchor.day(),
        k,
        t1.last_completed.day(),
        t2.last_completed.day(),
        today,
    );
}

/// The task store: every task record, in creation order.
pub struct TaskStore {
    tasks: Vec<StoredTask>,
}

impl View for TaskStore {
    type V = Seq<StoredTask>;

    closed spec fn view(&self) -> Seq<StoredTask> {
        self.tasks@
    }
}

impl TaskStore {
    /// Well-formedness: every record is internally consistent, and ids are
    /// the 1-based positions in creation order.
    pub open spec fn wf(&self) -> bool {
        &&& self@.len() <= 0x7fff_fffe
        &&& forall|i: int| 0 <= i < self@.len()
            ==> task_wf(#[trigger] self@[i]) && self@[i].id@ == i + 1
    }

    /// An empty store.
    pub fn new() -> (r: TaskStore)
        ensures
            r.wf(),
            r@.len() == 0,
    {
        TaskStore { tasks: Vec::new() }
    }

    /// Creates a task: validates the request, then records the task with a
    /// synthesized first completion dated `duration` days before
    /// `starts_on` and attributed to the rotation predecessor of
    /// `starts_with`, so that the first live assignee is `starts_with`.
    ///
    /// Checks run in this order: a zero duration, then a duplicated
    /// participant, then a starting person outside the (possibly empty)
    /// participant list.
    pub fn add_task(&mut self, new_task: NewTask) -> (r: Result<TaskId, TaskStoreError>)
        requires
            old(self).wf(),
            old(self)@.len() < 0x7fff_fffe,
            new_task.starts_on.day() - new_task.duration >= MIN_DAY,
        ensures
            final(self).wf(),
            match r {
                Ok(id) => ({
                    let t = final(self)@.last();
                    &&& new_task.duration > 0
                    &&& distinct_rota(new_task.participants.deep_view())
                    &&& rota_contains(new_task.participants.deep_view(), new_task.starts_with@)
                    &&& final(self)@ == old(self)@.push(t)
                    &&& id == t.id
                    &&& id@ == old(self)@.len() + 1
                    &&& t.name == new_task.name
                    &&& t.routine == new_task.routine
                    &&& t.duration_days == new_task.duration
                    &&& t.participants == new_task.participants
                    &&& t.anchor.day() == new_task.starts_on.day() - new_task.duration
                    &&& t.last_completed == t.anchor
                    &&& t.last_completed_by@ == predecessor_of(
                        new_task.participants.deep_view(),
                        new_task.starts_with@,
                    )
                }),
                Err(e) => final(self)@ == old(self)@ && match e {
                    TaskStoreError::InvalidDuration => new_task.duration == 0,
                    TaskStoreError::DuplicateParticipant(p) => {
                        &&& new_task.duration > 0
                        &&& !distinct_rota(new_task.participants.deep_view())
                        &&& rota_contains(new_task.participants.deep_view(), p@)
                    },
                    TaskStoreError::PersonNotInRota(p) => {
                        &&& new_task.duration > 0
                        &&& distinct_rota(new_task.participants.deep_view())
                        &&& !rota_contains(new_task.participants.deep_view(), new_task.starts_with@)
                        &&& p@ == new_task.starts_with@
                    },
                    _ => false,
                },
            },
    {
        if new_task.duration == 0 {
            return Err(TaskStoreError::InvalidDuration);
        }
        if let Some(dup) = find_duplicate(&new_task.participants) {
            return Err(TaskStoreError::DuplicateParticipant(dup));
        }
        let ghost ps = new_task.participants.deep_view();
        let reversed = reverse_participants(&new_task.participants);
        proof {
            lemma_rota_contains_reverse(ps, new_task.starts_with@);
        }
        let prev = match next_assignee(&reversed, &new_task.starts_with) {
            Ok(name) => name.clone(),
            Err(_) => {
                return Err(TaskStoreError::PersonNotInRota(new_task.starts_with));
            },
        };
        proof {
            lemma_successor_in_rota(ps.reverse(), new_task.starts_with@);
            lemma_rota_contains_reverse(ps, prev@);
        }
        let id = TaskId::new((self.tasks.len() + 1) as i32);
        let anchor = new_task.starts_on.minus_days(new_task.duration);
        let t = StoredTask {
            id,
            name: new_task.name,
            routine: new_task.routine,
            duration_days: new_task.duration,
            participants: new_task.participants,
            anchor,
            last_completed: anchor,
            last_completed_by: prev,
        };
        proof {
            assert(ps.reverse().len() == ps.len());
            assert(task_wf(t));
        }
        let ghost before = self.tasks@;
        self.tasks.push(t);
        proof {
            assert forall|i: int| 0 <= i < self@.len() implies task_wf(#[trigger] self@[i])
                && self@[i].id@ == i + 1 by {
                if i < before.len() {
                    assert(self@[i] == before[i]);
                }
            }
        }
        Ok(id)
    }

    /// Lists every task's derived view as of `today`, in creation order.
    pub fn tasks(&self, today: Date) -> (r: Result<Vec<Task>, TaskStoreError>)
        requires
            self.wf(),
        ensures
            match r {
                Ok(v) => task_views(v@) == spec_models(self@, today.day()),
                Err(_) => false,
            },
    {
        let mut out: Vec<Task> = Vec::new();
        let mut i: usize = 0;
        while i < self.tasks.len()
            invariant
                self.wf(),
                i <= self@.len(),
                out@.len() == i,
                forall|j: int| 0 <= j < i
                    ==> (#[trigger] out@[j])@ == spec_model(self@[j], today.day()),
            decreases self@.len() - i,
        {
            match derive_task(&self.tasks[i], today) {
                Ok(v) => {
                    let ghost prev = out@;
                    out.push(v);
                    proof {
                        assert forall|j: int| 0 <= j < i + 1 implies (#[trigger] out@[j])@
                            == spec_model(self@[j], today.day()) by {
                            if j < i {
                                assert(out@[j] == prev[j]);
                            }
                        }
                    }
                },
                Err(e) => {
                    proof {
                        assert(task_wf(self@[i as int]));
                        assert(false);
                    }
                    return Err(e);
                },
            }
            i = i + 1;
        }
        proof {
            assert(task_views(out@) =~= spec_models(self@, today.day()));
        }
        Ok(out)
    }

    /// Lists the derived views of the tasks assigned to `person` as of
    /// `today`, in creation order, matching the assignee name
    /// case-insensitively.
    pub fn tasks_for(&self, person: &String, today: Date) -> (r: Result<Vec<Task>, TaskStoreError>)
        requires
            self.wf(),
        ensures
            match r {
                Ok(v) => task_views(v@) == spec_models(self@, today.day()).filter(
                    |m: TaskView| spec_assigned_to(m, person@),
                ),
                Err(_) => false,
            },
    {
        let ghost pred = |m: TaskView| spec_assigned_to(m, person@);
        let wanted = fold_case(person.as_str());
        let mut out: Vec<Task> = Vec::new();
        let mut i: usize = 0;
        while i < self.tasks.len()
            invariant
                self.wf(),
                i <= self@.len(),
                wanted@ == case_folded(person@),
                pred == (|m: TaskView| spec_assigned_to(m, person@)),
                task_views(out@) == spec_models(self@, today.day()).subrange(0, i as int).filter(
                    pred,
                ),
            decreases self@.len() - i,
        {
            let ghost models = spec_models(self@, today.day());
            match derive_task(&self.tasks[i], today) {
                Ok(v) => {
                    proof {
                        reveal(Seq::filter);
                        assert(models.subrange(0, i + 1).drop_last() =~= models.subrange(
                            0,
                            i as int,
                        ));
                        assert(models.subrange(0, i + 1).last() == models[i as int]);
                    }
                    if fold_case(v.assigned_to.as_str()) == wanted {
                        proof {
                            assert(pred(models[i as int]));
                        }
                        out.push(v);
                        proof {
                            assert(task_views(out@) =~= models.subrange(0, i + 1).filter(pred));
                        }
                    } else {
                        proof {
                            assert(!pred(models[i as int]));
                            assert(task_views(out@) =~= models.subrange(0, i + 1).filter(pred));
                        }
                    }
                },
                Err(e) => {
                    proof {
                        assert(task_wf(self@[i as int]));
                        assert(false);
                    }
                    return Err(e);
                },
            }
            i = i + 1;
        }
        proof {
            assert(spec_models(self@, today.day()).subrange(
                0,
                self@.len() as int,
            ) =~= spec_models(self@, today.day()));
        }
        Ok(out)
    }

    /// Derives the view of the task named by `task_id` as of `today`, or
    /// reports that no such task exists.
    pub fn task(&self, task_id: TaskId, today: Date) -> (r: Result<Task, TaskStoreError>)
        requires
            self.wf(),
        ensures
            match r {
                Ok(v) => 1 <= task_id@ <= self@.len() && v@ == spec_model(
                    self@[task_id@ - 1],
                    today.day(),
                ),
                Err(e) => {
                    &&& e == TaskStoreError::UnknownTask(task_id)
                    &&& !(1 <= task_id@ <= self@.len())
                },
            },
    {
        let raw = task_id.value();
        if raw < 1 || raw as usize > self.tasks.len() {
            return Err(TaskStoreError::UnknownTask(task_id));
        }
        let idx = (raw as usize) - 1;
        match derive_task(&self.tasks[idx], today) {
            Ok(v) => Ok(v),
            Err(e) => {
                proof {
                    assert(task_wf(self@[idx as int]));
                    assert(false);
                }
                Err(e)
            },
        }
    }

    /// Records a completion: the task's latest completion becomes
    /// (`on_date`, `performed_by`), and the updated view as of `today` is
    /// returned.  The completer must already be a rota member, and the
    /// completion may not predate the task's anchor.
    pub fn mark_task_done(
        &mut self,
        task_id: TaskId,
        performed_by: &String,
        on_date: Date,
        today: Date,
    ) -> (r: Result<Task, TaskStoreError>)
        requires
            old(self).wf(),
        ensures
            final(self).wf(),
            match r {
                Ok(v) => ({
                    let i = task_id@ - 1;
                    let t0 = old(self)@[i];
                    let t1 = final(self)@[i];
                    &&& 1 <= task_id@ <= old(self)@.len()
                    &&& rota_contains(t0.participants.deep_view(), performed_by@)
                    &&& on_date.day() >= t0.anchor.day()
                    &&& final(self)@ == old(self)@.update(i, t1)
                    &&& t1.id == t0.id
                    &&& t1.name == t0.name
                    &&& t1.routine == t0.routine
                    &&& t1.duration_days == t0.duration_days
                    &&& t1.participants == t0.participants
                    &&& t1.anchor == t0.anchor
                    &&& t1.last_completed == on_date
                    &&& t1.last_completed_by@ == performed_by@
                    &&& v@ == spec_model(t1, today.day())
                }),
                Err(e) => final(self)@ == old(self)@ && match e {
                    TaskStoreError::UnknownTask(id) => {
                        &&& id == task_id
                        &&& !(1 <= task_id@ <= old(self)@.len())
                    },
                    TaskStoreError::PersonNotInRota(p) => {
                        &&& 1 <= task_id@ <= old(self)@.len()
                        &&& p@ == performed_by@
                        &&& !rota_contains(
                            old(self)@[task_id@ - 1].participants.deep_view(),
                            performed_by@,
                        )
                    },
                    TaskStoreError::CompletionBeforeStart => {
                        &&& 1 <= task_id@ <= old(self)@.len()
                        &&& rota_contains(
                            old(self)@[task_id@ - 1].participants.deep_view(),
                            performed_by@,
                        )
                        &&& on_date.day() < old(self)@[task_id@ - 1].anchor.day()
                    },
                    _ => false,
                },
            },
    {
        let raw = task_id.value();
        if raw < 1 || raw as usize > self.tasks.len() {
            return Err(TaskStoreError::UnknownTask(task_id));
        }
        let idx = (raw as usize) - 1;
        if !contains_person(&self.tasks[idx].participants, performed_by) {
            return Err(TaskStoreError::PersonNotInRota(performed_by.clone()));
        }
        if on_date.day_number() < self.tasks[idx].anchor.day_number() {
            return Err(TaskStoreError::CompletionBeforeStart);
        }
        let ghost before = self.tasks@;
        let mut t = self.tasks.remove(idx);
        t.last_completed = on_date;
        t.last_completed_by = performed_by.clone();
        self.tasks.insert(idx, t);
        proof {
            assert(self.tasks@ =~= before.update(idx as int, self.tasks@[idx as int]));
        }
        match derive_task(&self.tasks[idx], today) {
            Ok(v) => Ok(v),
            Err(e) => {
                proof {
                    assert(task_wf(self@[idx as int]));
                    assert(false);
                }
                Err(e)
            },
        }
    }
}

} // verus!
