//! What is known of a job at one instant, and how field-level changes turn
//! one such state into the next.
//!
//! The data types are generic in their text type: with `String` they are the
//! values that run, with `Seq<char>` they are the mathematical model that the
//! contracts speak of. The view `@` of a running value is its model.

use vstd::prelude::*;
use crate::instant::{Timestamp, same_instant};
use crate::model::{views, lemma_views_equal};

verus! {

/// The status that the scheduler reports for a job.
#[derive(Clone, Debug, PartialEq, Eq)]
pub enum Lifecycle<T> {
    Pending,
    Running,
    Completing,
    Completed,
    Cancelled,
    Failed,
    Timeout,
    OutOfMemory,
    /// A status outside the known set, with the label it was reported under.
    Other(T),
}

pub type LifecycleState = Lifecycle<String>;

pub type LifecycleModel = Lifecycle<Seq<char>>;

impl<T> Lifecycle<T> {
    /// A state in which a job has ended, one way or another.
    pub open spec fn is_terminal(self) -> bool {
        self is Completed || self is Cancelled || self is Failed || self is Timeout
            || self is OutOfMemory
    }
}

impl View for Lifecycle<String> {
    type V = Lifecycle<Seq<char>>;

    open spec fn view(&self) -> Lifecycle<Seq<char>> {
        match *self {
            Lifecycle::Pending => Lifecycle::Pending,
            Lifecycle::Running => Lifecycle::Running,
            Lifecycle::Completing => Lifecycle::Completing,
            Lifecycle::Completed => Lifecycle::Completed,
            Lifecycle::Cancelled => Lifecycle::Cancelled,
            Lifecycle::Failed => Lifecycle::Failed,
            Lifecycle::Timeout => Lifecycle::Timeout,
            Lifecycle::OutOfMemory => Lifecycle::OutOfMemory,
            Lifecycle::Other(label) => Lifecycle::Other(label@),
        }
    }
}

impl Lifecycle<String> {
    /// Whether two states are the same state, labels compared as text.
    pub fn same(&self, other: &LifecycleState) -> (b: bool)
        ensures
            b == (self@ == other@),
    {
        match (self, other) {
            (Lifecycle::Pending, Lifecycle::Pending) => true,
            (Lifecycle::Running, Lifecycle::Running) => true,
            (Lifecycle::Completing, Lifecycle::Completing) => true,
            (Lifecycle::Completed, Lifecycle::Completed) => true,
            (Lifecycle::Cancelled, Lifecycle::Cancelled) => true,
            (Lifecycle::Failed, Lifecycle::Failed) => true,
            (Lifecycle::Timeout, Lifecycle::Timeout) => true,
            (Lifecycle::OutOfMemory, Lifecycle::OutOfMemory) => true,
            (Lifecycle::Other(a), Lifecycle::Other(b)) => *a == *b,
            _ => false,
        }
    }

    /// A copy of the state.
    pub fn duplicate(&self) -> (r: LifecycleState)
        ensures
            r@ == self@,
    {
        match self {
            Lifecycle::Pending => Lifecycle::Pending,
            Lifecycle::Running => Lifecycle::Running,
            Lifecycle::Completing => Lifecycle::Completing,
            Lifecycle::Completed => Lifecycle::Completed,
            Lifecycle::Cancelled => Lifecycle::Cancelled,
            Lifecycle::Failed => Lifecycle::Failed,
            Lifecycle::Timeout => Lifecycle::Timeout,
            Lifecycle::OutOfMemory => Lifecycle::OutOfMemory,
            Lifecycle::Other(label) => Lifecycle::Other(label.clone()),
        }
    }
}

/// The model of an optional text.
pub open spec fn opt_text(t: Option<String>) -> Option<Seq<char>> {
    match t {
        Some(s) => Some(s@),
        None => None,
    }
}

/// Whether two optional texts are the same.
pub fn same_opt_text(a: &Option<String>, b: &Option<String>) -> (r: bool)
    ensures
        r == (opt_text(*a) == opt_text(*b)),
{
    match (a, b) {
        (None, None) => true,
        (Some(x), Some(y)) => *x == *y,
        _ => false,
    }
}

/// A copy of an optional text.
pub fn duplicate_opt_text(t: &Option<String>) -> (r: Option<String>)
    ensures
        opt_text(r) == opt_text(*t),
{
    match t {
        Some(s) => Some(s.clone()),
        None => None,
    }
}

/// The state of one job as observed, or as replayed, at one instant.
#[derive(Clone, Debug, PartialEq, Eq)]
pub struct Job<T> {
    pub job_id: T,
    pub command: T,
    pub work_dir: T,
    pub cpus: u64,
    pub min_memory: T,
    pub submit_time: Timestamp,
    pub start_time: Option<Timestamp>,
    pub state: Lifecycle<T>,
    pub account: T,
    pub group: T,
    pub partition: T,
    pub exec_host: Option<T>,
    pub reason: Option<T>,
}

pub type JobObservation = Job<String>;

pub type JobModel = Job<Seq<char>>;

impl View for Job<String> {
    type V = Job<Seq<char>>;

    open spec fn view(&self) -> Job<Seq<char>> {
        Job {
            job_id: self.job_id@,
            command: self.command@,
            work_dir: self.work_dir@,
            cpus: self.cpus,
            min_memory: self.min_memory@,
            submit_time: self.submit_time,
            start_time: self.start_time,
            state: self.state@,
            account: self.account@,
            group: self.group@,
            partition: self.partition@,
            exec_host: opt_text(self.exec_host),
            reason: opt_text(self.reason),
        }
    }
}

impl Job<String> {
    /// A copy of the observation.
    pub fn duplicate(&self) -> (r: JobObservation)
        ensures
            r@ == self@,
    {
        Job {
            job_id: self.job_id.clone(),
            command: self.command.clone(),
            work_dir: self.work_dir.clone(),
            cpus: self.cpus,
            min_memory: self.min_memory.clone(),
            submit_time: self.submit_time,
            start_time: self.start_time,
            state: self.state.duplicate(),
            account: self.account.clone(),
            group: self.group.clone(),
            partition: self.partition.clone(),
            exec_host: duplicate_opt_text(&self.exec_host),
            reason: duplicate_opt_text(&self.reason),
        }
    }
}

/// One field of a job set to a new value. The job's identifier is its
/// identity and is not among the fields that change.
#[derive(Clone, Debug, PartialEq, Eq)]
pub enum Change<T> {
    Command(T),
    WorkDir(T),
    Cpus(u64),
    MinMemory(T),
    SubmitTime(Timestamp),
    StartTime(Option<Timestamp>),
    State(Lifecycle<T>),
    Account(T),
    Group(T),
    Partition(T),
    ExecHost(Option<T>),
    Reason(Option<T>),
}

pub type FieldChange = Change<String>;

pub type ChangeModel = Change<Seq<char>>;

/// A sparse set of field-level changes; a field that is not named stays as
/// it is. Where a field is named more than once, the last value stands.
pub type JobStateDelta = Vec<FieldChange>;

impl View for Change<String> {
    type V = Change<Seq<char>>;

    open spec fn view(&self) -> Change<Seq<char>> {
        match *self {
            Change::Command(v) => Change::Command(v@),
            Change::WorkDir(v) => Change::WorkDir(v@),
            Change::Cpus(v) => Change::Cpus(v),
            Change::MinMemory(v) => Change::MinMemory(v@),
            Change::SubmitTime(v) => Change::SubmitTime(v),
            Change::StartTime(v) => Change::StartTime(v),
            Change::State(v) => Change::State(v@),
            Change::Account(v) => Change::Account(v@),
            Change::Group(v) => Change::Group(v@),
            Change::Partition(v) => Change::Partition(v@),
            Change::ExecHost(v) => Change::ExecHost(opt_text(v)),
            Change::Reason(v) => Change::Reason(opt_text(v)),
        }
    }
}

impl Change<String> {
    /// A copy of the change.
    pub fn duplicate(&self) -> (r: FieldChange)
        ensures
            r@ == self@,
    {
        match self {
            Change::Command(v) => Change::Command(v.clone()),
            Change::WorkDir(v) => Change::WorkDir(v.clone()),
            Change::Cpus(v) => Change::Cpus(*v),
            Change::MinMemory(v) => Change::MinMemory(v.clone()),
            Change::SubmitTime(v) => Change::SubmitTime(*v),
            Change::StartTime(v) => Change::StartTime(*v),
            Change::State(v) => Change::State(v.duplicate()),
            Change::Account(v) => Change::Account(v.clone()),
            Change::Group(v) => Change::Group(v.clone()),
            Change::Partition(v) => Change::Partition(v.clone()),
            Change::ExecHost(v) => Change::ExecHost(duplicate_opt_text(v)),
            Change::Reason(v) => Change::Reason(duplicate_opt_text(v)),
        }
    }
}

/// The job after one change: the named field holds the new value, every
/// other field is as before.
pub open spec fn apply_change(job: JobModel, change: ChangeModel) -> JobModel {
    match change {
        Change::Command(v) => Job { command: v, ..job },
        Change::WorkDir(v) => Job { work_dir: v, ..job },
        Change::Cpus(v) => Job { cpus: v, ..job },
        Change::MinMemory(v) => Job { min_memory: v, ..job },
        Change::SubmitTime(v) => Job { submit_time: v, ..job },
        Change::StartTime(v) => Job { start_time: v, ..job },
        Change::State(v) => Job { state: v, ..job },
        Change::Account(v) => Job { account: v, ..job },
        Change::Group(v) => Job { group: v, ..job },
        Change::Partition(v) => Job { partition: v, ..job },
        Change::ExecHost(v) => Job { exec_host: v, ..job },
        Change::Reason(v) => Job { reason: v, ..job },
    }
}

/// The job after a list of changes, applied from the first to the last.
pub open spec fn apply_delta(job: JobModel, delta: Seq<ChangeModel>) -> JobModel
    decreases delta.len(),
{
    if delta.len() == 0 {
        job
    } else {
        apply_change(apply_delta(job, delta.drop_last()), delta.last())
    }
}

/// Applies one change to the job.
pub fn apply(job: &mut JobObservation, change: FieldChange)
    ensures
        final(job)@ == apply_change(old(job)@, change@),
{
    match change {
        Change::Command(v) => { job.command = v; },
        Change::WorkDir(v) => { job.work_dir = v; },
        Change::Cpus(v) => { job.cpus = v; },
        Change::MinMemory(v) => { job.min_memory = v; },
        Change::SubmitTime(v) => { job.submit_time = v; },
        Change::StartTime(v) => { job.start_time = v; },
        Change::State(v) => { job.state = v; },
        Change::Account(v) => { job.account = v; },
        Change::Group(v) => { job.group = v; },
        Change::Partition(v) => { job.partition = v; },
        Change::ExecHost(v) => { job.exec_host = v; },
        Change::Reason(v) => { job.reason = v; },
    }
}

/// Applies the changes of a delta to the job, in their order.
pub fn apply_all(job: &mut JobObservation, delta: &Vec<FieldChange>)
    ensures
        final(job)@ == apply_delta(old(job)@, views(delta@)),
{
    let mut i: usize = 0;
    while i < delta.len()
        invariant
            i <= delta.len(),
            job@ == apply_delta(old(job)@, views(delta@).take(i as int)),
        decreases delta.len() - i,
    {
        let change = delta[i].duplicate();
        proof {
            let m = views(delta@);
            assert(m.take(i + 1).drop_last() =~= m.take(i as int));
        }
        apply(job, change);
        i = i + 1;
    }
    proof {
        let m = views(delta@);
        assert(m.take(delta.len() as int) =~= m);
    }
}

/// A copy of a list of changes.
pub fn duplicate_delta(delta: &Vec<FieldChange>) -> (copy: Vec<FieldChange>)
    ensures
        views(copy@) == views(delta@),
{
    let mut copy: Vec<FieldChange> = Vec::new();
    let mut i: usize = 0;
    while i < delta.len()
        invariant
            i <= delta.len(),
            copy.len() == i,
            forall|j: int| 0 <= j < i ==> (#[trigger] copy@[j])@ == delta@[j]@,
        decreases delta.len() - i,
    {
        copy.push(delta[i].duplicate());
        i = i + 1;
    }
    proof {
        lemma_views_equal(copy@, delta@);
    }
    copy
}

/// Changes leave the identifier of a job as it is.
pub proof fn lemma_apply_delta_keeps_identifier(job: JobModel, delta: Seq<ChangeModel>)
    ensures
        apply_delta(job, delta).job_id == job.job_id,
    decreases delta.len(),
{
    if delta.len() > 0 {
        lemma_apply_delta_keeps_identifier(job, delta.drop_last());
    }
}

/// The one change, where the field differs, and nothing where it does not.
pub open spec fn when_differs(differs: bool, change: ChangeModel) -> Seq<ChangeModel> {
    if differs {
        seq![change]
    } else {
        Seq::empty()
    }
}

/// The fields in which `to` differs from `from`, each with its value in
/// `to`, in the order in which a job lists its fields. The identifier is not
/// compared.
pub open spec fn changed_fields(from: JobModel, to: JobModel) -> Seq<ChangeModel> {
    when_differs(from.command != to.command, Change::Command(to.command))
        + when_differs(from.work_dir != to.work_dir, Change::WorkDir(to.work_dir))
        + when_differs(from.cpus != to.cpus, Change::Cpus(to.cpus))
        + when_differs(from.min_memory != to.min_memory, Change::MinMemory(to.min_memory))
        + when_differs(from.submit_time != to.submit_time, Change::SubmitTime(to.submit_time))
        + when_differs(from.start_time != to.start_time, Change::StartTime(to.start_time))
        + when_differs(from.state != to.state, Change::State(to.state))
        + when_differs(from.account != to.account, Change::Account(to.account))
        + when_differs(from.group != to.group, Change::Group(to.group))
        + when_differs(from.partition != to.partition, Change::Partition(to.partition))
        + when_differs(from.exec_host != to.exec_host, Change::ExecHost(to.exec_host))
        + when_differs(from.reason != to.reason, Change::Reason(to.reason))
}

/// Adds the change to the list where the field differs.
fn note_change(delta: &mut Vec<FieldChange>, differs: bool, change: FieldChange)
    ensures
        views(final(delta)@) == views(old(delta)@) + when_differs(differs, change@),
{
    if differs {
        delta.push(change);
    }
}

/// The fields in which `to` differs from `from`.
pub fn difference(from: &JobObservation, to: &JobObservation) -> (delta: Vec<FieldChange>)
    ensures
        views(delta@) == changed_fields(from@, to@),
{
    let mut delta: Vec<FieldChange> = Vec::new();
    assert(views(delta@) =~= Seq::empty());
    note_change(&mut delta, !(from.command == to.command), Change::Command(to.command.clone()));
    assert(views(delta@) =~= when_differs(
        from@.command != to@.command,
        Change::Command(to@.command),
    ));
    note_change(&mut delta, !(from.work_dir == to.work_dir), Change::WorkDir(to.work_dir.clone()));
    note_change(&mut delta, from.cpus != to.cpus, Change::Cpus(to.cpus));
    note_change(
        &mut delta,
        !(from.min_memory == to.min_memory),
        Change::MinMemory(to.min_memory.clone()),
    );
    note_change(&mut delta, from.submit_time != to.submit_time, Change::SubmitTime(to.submit_time));
    note_change(
        &mut delta,
        !same_instant(&from.start_time, &to.start_time),
        Change::StartTime(to.start_time),
    );
    note_change(&mut delta, !from.state.same(&to.state), Change::State(to.state.duplicate()));
    note_change(&mut delta, !(from.account == to.account), Change::Account(to.account.clone()));
    note_change(&mut delta, !(from.group == to.group), Change::Group(to.group.clone()));
    note_change(
        &mut delta,
        !(from.partition == to.partition),
        Change::Partition(to.partition.clone()),
    );
    note_change(
        &mut delta,
        !same_opt_text(&from.exec_host, &to.exec_host),
        Change::ExecHost(duplicate_opt_text(&to.exec_host)),
    );
    note_change(
        &mut delta,
        !same_opt_text(&from.reason, &to.reason),
        Change::Reason(duplicate_opt_text(&to.reason)),
    );
    delta
}

/// After a list of changes, a field that does not differ contributes
/// nothing more, and one that differs is set to its new value.
proof fn lemma_replay_field(
    job: JobModel,
    before: Seq<ChangeModel>,
    differs: bool,
    change: ChangeModel,
)
    ensures
        apply_delta(job, before + when_differs(differs, change)) == (if differs {
            apply_change(apply_delta(job, before), change)
        } else {
            apply_delta(job, before)
        }),
{
    let more = before + when_differs(differs, change);
    if differs {
        assert(more.drop_last() =~= before);
    }
}

/// The state that has the first `count` fields, in the order in which a job
/// lists them after its identifier, from `to` and the others from `from`.
spec fn merged(from: JobModel, to: JobModel, count: nat) -> JobModel {
    Job {
        job_id: from.job_id,
        command: if count > 0 { to.command } else { from.command },
        work_dir: if count > 1 { to.work_dir } else { from.work_dir },
        cpus: if count > 2 { to.cpus } else { from.cpus },
        min_memory: if count > 3 { to.min_memory } else { from.min_memory },
        submit_time: if count > 4 { to.submit_time } else { from.submit_time },
        start_time: if count > 5 { to.start_time } else { from.start_time },
        state: if count > 6 { to.state } else { from.state },
        account: if count > 7 { to.account } else { from.account },
        group: if count > 8 { to.group } else { from.group },
        partition: if count > 9 { to.partition } else { from.partition },
        exec_host: if count > 10 { to.exec_host } else { from.exec_host },
        reason: if count > 11 { to.reason } else { from.reason },
    }
}

/// The change that the field at a position contributes.
spec fn field_change(from: JobModel, to: JobModel, position: nat) -> Seq<ChangeModel> {
    if position == 0 {
        when_differs(from.command != to.command, Change::Command(to.command))
    } else if position == 1 {
        when_differs(from.work_dir != to.work_dir, Change::WorkDir(to.work_dir))
    } else if position == 2 {
        when_differs(from.cpus != to.cpus, Change::Cpus(to.cpus))
    } else if position == 3 {
        when_differs(from.min_memory != to.min_memory, Change::MinMemory(to.min_memory))
    } else if position == 4 {
        when_differs(from.submit_time != to.submit_time, Change::SubmitTime(to.submit_time))
    } else if position == 5 {
        when_differs(from.start_time != to.start_time, Change::StartTime(to.start_time))
    } else if position == 6 {
        when_differs(from.state != to.state, Change::State(to.state))
    } else if position == 7 {
        when_differs(from.account != to.account, Change::Account(to.account))
    } else if position == 8 {
        when_differs(from.group != to.group, Change::Group(to.group))
    } else if position == 9 {
        when_differs(from.partition != to.partition, Change::Partition(to.partition))
    } else if position == 10 {
        when_differs(from.exec_host != to.exec_host, Change::ExecHost(to.exec_host))
    } else if position == 11 {
        when_differs(from.reason != to.reason, Change::Reason(to.reason))
    } else {
        Seq::empty()
    }
}

/// The changes that the first `count` fields contribute.
spec fn changes_up_to(from: JobModel, to: JobModel, count: nat) -> Seq<ChangeModel>
    decreases count,
{
    if count == 0 {
        Seq::empty()
    } else {
        changes_up_to(from, to, (count - 1) as nat) + field_change(from, to, (count - 1) as nat)
    }
}

/// Replaying the changes of the first fields gives the state merged up to
/// them.
proof fn lemma_replay_up_to(from: JobModel, to: JobModel, count: nat)
    requires
        count <= 12,
    ensures
        apply_delta(from, changes_up_to(from, to, count)) == merged(from, to, count),
    decreases count,
{
    if count > 0 {
        let position = (count - 1) as nat;
        lemma_replay_up_to(from, to, position);
        let before = changes_up_to(from, to, position);
        let state = merged(from, to, position);
        if position == 0 {
            lemma_replay_field(from, before, from.command != to.command, Change::Command(to.command));
        } else if position == 1 {
            lemma_replay_field(from, before, from.work_dir != to.work_dir, Change::WorkDir(to.work_dir));
        } else if position == 2 {
            lemma_replay_field(from, before, from.cpus != to.cpus, Change::Cpus(to.cpus));
        } else if position == 3 {
            lemma_replay_field(
                from,
                before,
                from.min_memory != to.min_memory,
                Change::MinMemory(to.min_memory),
            );
        } else if position == 4 {
            lemma_replay_field(
                from,
                before,
                from.submit_time != to.submit_time,
                Change::SubmitTime(to.submit_time),
            );
        } else if position == 5 {
            lemma_replay_field(
                from,
                before,
                from.start_time != to.start_time,
                Change::StartTime(to.start_time),
            );
        } else if position == 6 {
            lemma_replay_field(from, before, from.state != to.state, Change::State(to.state));
        } else if position == 7 {
            lemma_replay_field(from, before, from.account != to.account, Change::Account(to.account));
        } else if position == 8 {
            lemma_replay_field(from, before, from.group != to.group, Change::Group(to.group));
        } else if position == 9 {
            lemma_replay_field(
                from,
                before,
                from.partition != to.partition,
                Change::Partition(to.partition),
            );
        } else if position == 10 {
            lemma_replay_field(
                from,
                before,
                from.exec_host != to.exec_host,
                Change::ExecHost(to.exec_host),
            );
        } else {
            lemma_replay_field(from, before, from.reason != to.reason, Change::Reason(to.reason));
        }
    }
}

/// Replaying onto a state the fields in which another state of the same job
/// differs from it gives that other state.
pub proof fn lemma_changed_fields_replay(from: JobModel, to: JobModel)
    requires
        from.job_id == to.job_id,
    ensures
        apply_delta(from, changed_fields(from, to)) == to,
{
    lemma_replay_up_to(from, to, 12);
    assert(changes_up_to(from, to, 12) == changed_fields(from, to)) by {
        reveal_with_fuel(changes_up_to, 13);
    }
}

} // verus!
