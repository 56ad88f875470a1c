//! Deriving lifecycle events from the replayed states of one job.
//!
//! The first observation of a job yields its submit event. After that each
//! change of state is held against the lifecycle
//!
//! | change of state              | event                         |
//! |------------------------------|-------------------------------|
//! | pending to running           | `Started`                     |
//! | running to completing        | `Ending`                      |
//! | any to completed             | `Completed`                   |
//! | any to cancelled             | `Cancelled`                   |
//! | any to failed                | `Failed`, with the reason     |
//! | any to timeout               | `Timeout`                     |
//! | any to out of memory         | `OutOfMemory`                 |
//! | any to pending               | none, an anomaly is recorded  |
//! | any to a state not known     | none, an anomaly is recorded  |
//!
//! and every other change of state is recorded as an anomaly too. The phase
//! that a change is held against is the one the job last reached through
//! this table, so that a change which made no event does not count.
//!
//! The start time of a job may become known before or after the job is seen
//! running. While the job is pending it is kept aside, and the `Started`
//! event takes it as its instant. Once the job has started, it is written
//! over the instant of the `Started` event that is already there.
//!
//! A job that is first seen past pending has started before it was seen.
//! Its `Started` event is made when its start time is known: with the submit
//! event where the base snapshot holds it, and else when it arrives.

use vstd::prelude::*;
use crate::instant::Timestamp;
use crate::model::{views, lemma_views_push, lemma_views_empty};
use crate::job::{
    Lifecycle, LifecycleState, LifecycleModel, JobObservation, JobModel, Change, FieldChange,
    ChangeModel, opt_text, duplicate_opt_text,
};
use crate::record::{
    EntityKind, Qualifier, EventCategory, EventKey, EventRecord, EventModel, Relation, relation,
};
use crate::anomaly::{Anomaly, AnomalyModel, Finding};
use crate::replay::{Replay, ReplayModel, Step, StepModel};

verus! {

/// How far a job has come in its lifecycle: where it was first seen, or
/// where the last change of state that made an event has brought it.
#[derive(Clone, Copy, Debug, PartialEq, Eq, Structural)]
pub enum Phase {
    Pending,
    Running,
    Completing,
    Finished,
}

/// The events and anomalies of one job so far, with what is carried from
/// one change to the next.
#[derive(Clone, Debug, PartialEq, Eq)]
pub struct Trace {
    pub job: String,
    pub phase: Phase,
    /// The start time that became known while the job was pending.
    pub pending_start: Option<Timestamp>,
    pub events: Vec<EventRecord>,
    pub anomalies: Vec<Anomaly>,
}

/// The model of a trace.
pub struct TraceModel {
    pub job: Seq<char>,
    pub phase: Phase,
    pub pending_start: Option<Timestamp>,
    pub events: Seq<EventModel>,
    pub anomalies: Seq<AnomalyModel>,
}

impl View for Trace {
    type V = TraceModel;

    open spec fn view(&self) -> TraceModel {
        TraceModel {
            job: self.job@,
            phase: self.phase,
            pending_start: self.pending_start,
            events: views(self.events@),
            anomalies: views(self.anomalies@),
        }
    }
}

/// The phase in which a job is first seen: that of its state, and pending
/// for a state that is not known.
pub open spec fn initial_phase(state: LifecycleModel) -> Phase {
    match state {
        Lifecycle::Pending => Phase::Pending,
        Lifecycle::Running => Phase::Running,
        Lifecycle::Completing => Phase::Completing,
        Lifecycle::Other(_) => Phase::Pending,
        _ => Phase::Finished,
    }
}

/// The event that the arrival in a terminal state makes.
pub open spec fn terminal_category(state: LifecycleModel) -> EventCategory
    recommends
        state.is_terminal(),
{
    match state {
        Lifecycle::Cancelled => EventCategory::Cancelled,
        Lifecycle::Failed => EventCategory::Failed,
        Lifecycle::Timeout => EventCategory::Timeout,
        Lifecycle::OutOfMemory => EventCategory::OutOfMemory,
        _ => EventCategory::Completed,
    }
}

/// Some event of the list is of the category.
pub open spec fn has_category(events: Seq<EventModel>, category: EventCategory) -> bool {
    exists|i: int| 0 <= i < events.len() && (#[trigger] events[i]).category == category
}

/// The submit event of a job: the first of its events, at the instant of
/// submission, related to the job and to the account that submitted it.
pub open spec fn submit_event(base: JobModel) -> EventModel {
    EventModel {
        id: EventKey { job: base.job_id, ordinal: 0 },
        category: EventCategory::Submit,
        time: base.submit_time,
        relationships: seq![
            relation(EntityKind::Job, base.job_id, Qualifier::Job),
            relation(EntityKind::Account, base.account, Qualifier::Submitter),
        ],
        reason: None,
    }
}

/// A later event of a job, related to the job.
pub open spec fn job_event(
    job: Seq<char>,
    ordinal: usize,
    category: EventCategory,
    time: Timestamp,
    reason: Option<Seq<char>>,
) -> EventModel {
    EventModel {
        id: EventKey { job, ordinal },
        category,
        time,
        relationships: seq![relation(EntityKind::Job, job, Qualifier::Job)],
        reason,
    }
}

/// The trace with one more event, numbered after those that are there.
pub open spec fn emit(
    trace: TraceModel,
    category: EventCategory,
    time: Timestamp,
    reason: Option<Seq<char>>,
) -> TraceModel {
    TraceModel {
        events: trace.events.push(
            job_event(trace.job, trace.events.len() as usize, category, time, reason),
        ),
        ..trace
    }
}

/// The trace with one more anomaly.
pub open spec fn warn(trace: TraceModel, finding: AnomalyModel) -> TraceModel {
    TraceModel { anomalies: trace.anomalies.push(finding), ..trace }
}

/// The trace of a job of which only the submission is known: its submit
/// event, and an anomaly where the state is not a known one.
pub open spec fn submitted(base: JobModel, at: Timestamp) -> TraceModel {
    TraceModel {
        job: base.job_id,
        phase: initial_phase(base.state),
        pending_start: base.start_time,
        events: seq![submit_event(base)],
        anomalies: match base.state {
            Lifecycle::Other(label) => seq![Finding::UnknownState { job: base.job_id, at, label }],
            _ => Seq::empty(),
        },
    }
}

/// The trace of a job of which only the base snapshot, captured at `at`, is
/// known. A job that is first seen past pending, with its start time known,
/// has started then: its `Started` event follows the submit event.
pub open spec fn begin(base: JobModel, at: Timestamp) -> TraceModel {
    match base.start_time {
        Some(start) => if initial_phase(base.state) != Phase::Pending {
            emit(submitted(base, at), EventCategory::Started, start, None)
        } else {
            submitted(base, at)
        },
        None => submitted(base, at),
    }
}

/// The events with the instant of every `Started` event set anew.
pub open spec fn restamp_started(events: Seq<EventModel>, start: Timestamp) -> Seq<EventModel> {
    Seq::new(
        events.len(),
        |i: int|
            if events[i].category == EventCategory::Started {
                EventModel { time: start, ..events[i] }
            } else {
                events[i]
            },
    )
}

/// The trace after the job was seen at `at` in a state other than the one
/// before, `reason` being the reason that stands with the new state.
pub open spec fn on_state(
    trace: TraceModel,
    at: Timestamp,
    next: LifecycleModel,
    reason: Option<Seq<char>>,
) -> TraceModel {
    let suppressed = warn(trace, Finding::SuppressedTransition { job: trace.job, at, to: next });
    match next {
        Lifecycle::Pending => suppressed,
        Lifecycle::Other(label) => warn(trace, Finding::UnknownState { job: trace.job, at, label }),
        Lifecycle::Running => if trace.phase == Phase::Pending {
            let time = match trace.pending_start {
                Some(start) => start,
                None => at,
            };
            TraceModel { phase: Phase::Running, ..emit(trace, EventCategory::Started, time, None) }
        } else {
            suppressed
        },
        Lifecycle::Completing => if trace.phase == Phase::Running {
            TraceModel { phase: Phase::Completing, ..emit(trace, EventCategory::Ending, at, None) }
        } else {
            suppressed
        },
        _ => if has_category(trace.events, terminal_category(next)) {
            suppressed
        } else {
            TraceModel {
                phase: Phase::Finished,
                ..emit(
                    trace,
                    terminal_category(next),
                    at,
                    if next is Failed {
                        reason
                    } else {
                        None
                    },
                )
            }
        },
    }
}

/// The trace after the start time of the job changed to `start`. For a
/// pending job it is kept aside. For a job that has ended it comes too late
/// and is recorded as an anomaly. For any other job it is the instant of the
/// `Started` event: of the one that is there, or of a new one where the job
/// was first seen past pending and has none yet.
pub open spec fn on_start_time(trace: TraceModel, start: Option<Timestamp>) -> TraceModel {
    match trace.phase {
        Phase::Pending => TraceModel { pending_start: start, ..trace },
        Phase::Finished => match start {
            Some(time) => warn(trace, Finding::LateStartTime { job: trace.job, start: time }),
            None => trace,
        },
        _ => match start {
            Some(time) => if has_category(trace.events, EventCategory::Started) {
                TraceModel { events: restamp_started(trace.events, time), ..trace }
            } else {
                emit(trace, EventCategory::Started, time, None)
            },
            None => trace,
        },
    }
}

/// The trace after one changed field of a step. Only the state and the
/// start time bear on the events.
pub open spec fn on_change(
    trace: TraceModel,
    at: Timestamp,
    reason: Option<Seq<char>>,
    change: ChangeModel,
) -> TraceModel {
    match change {
        Change::State(next) => on_state(trace, at, next, reason),
        Change::StartTime(start) => on_start_time(trace, start),
        _ => trace,
    }
}

/// The trace after the first `count` changed fields of a step.
pub open spec fn on_changes(
    trace: TraceModel,
    at: Timestamp,
    reason: Option<Seq<char>>,
    changed: Seq<ChangeModel>,
    count: nat,
) -> TraceModel
    decreases count,
{
    if count == 0 {
        trace
    } else {
        on_change(
            on_changes(trace, at, reason, changed, (count - 1) as nat),
            at,
            reason,
            changed[count - 1],
        )
    }
}

/// The trace after a step: after each of its changed fields, in their
/// order.
pub open spec fn on_step(trace: TraceModel, step: StepModel) -> TraceModel {
    on_changes(trace, step.time, step.state.reason, step.changed, step.changed.len())
}

/// The trace after the first `count` steps.
pub open spec fn on_steps(trace: TraceModel, steps: Seq<StepModel>, count: nat) -> TraceModel
    decreases count,
{
    if count == 0 {
        trace
    } else {
        on_step(on_steps(trace, steps, (count - 1) as nat), steps[count - 1])
    }
}

/// The trace of a replayed job.
pub open spec fn trace_of(replay: ReplayModel) -> TraceModel {
    on_steps(begin(replay.base, replay.base_time), replay.steps, replay.steps.len())
}

/// Whether some event of the list is of the category.
pub fn contains_category(events: &Vec<EventRecord>, category: EventCategory) -> (found: bool)
    ensures
        found == has_category(views(events@), category),
{
    let mut i: usize = 0;
    while i < events.len()
        invariant
            i <= events.len(),
            forall|j: int| 0 <= j < i ==> (#[trigger] views(events@)[j]).category != category,
        decreases events.len() - i,
    {
        if events[i].category == category {
            assert(views(events@)[i as int].category == category);
            return true;
        }
        i = i + 1;
    }
    false
}

/// Sets the instant of every `Started` event anew.
pub fn restamp(events: &mut Vec<EventRecord>, start: Timestamp)
    ensures
        views(final(events)@) == restamp_started(views(old(events)@), start),
{
    let mut i: usize = 0;
    while i < events.len()
        invariant
            i <= events.len(),
            events.len() == old(events).len(),
            forall|j: int|
                0 <= j < i ==> (#[trigger] events[j])@ == restamp_started(
                    views(old(events)@),
                    start,
                )[j],
            forall|j: int| i <= j < events.len() ==> events[j] == old(events)[j],
        decreases events.len() - i,
    {
        if events[i].category == EventCategory::Started {
            events[i].time = start;
        }
        i = i + 1;
    }
}

impl Trace {
    /// The trace of a job of which only the base snapshot, captured at `at`,
    /// is known.
    pub fn begin(base: &JobObservation, at: Timestamp) -> (trace: Trace)
        ensures
            trace@ == begin(base@, at),
    {
        let submit = EventRecord {
            id: EventKey { job: base.job_id.clone(), ordinal: 0 },
            category: EventCategory::Submit,
            time: base.submit_time,
            relationships: vec![
                Relation::new(EntityKind::Job, &base.job_id, Qualifier::Job),
                Relation::new(EntityKind::Account, &base.account, Qualifier::Submitter),
            ],
            reason: None,
        };
        assert(submit@.relationships =~= submit_event(base@).relationships);
        let mut events: Vec<EventRecord> = Vec::new();
        let mut anomalies: Vec<Anomaly> = Vec::new();
        proof {
            lemma_views_empty::<EventRecord>();
            lemma_views_empty::<Anomaly>();
            lemma_views_push(events@, submit);
        }
        events.push(submit);
        let phase = match &base.state {
            Lifecycle::Pending => Phase::Pending,
            Lifecycle::Running => Phase::Running,
            Lifecycle::Completing => Phase::Completing,
            Lifecycle::Other(label) => {
                let finding = Finding::UnknownState {
                    job: base.job_id.clone(),
                    at,
                    label: label.clone(),
                };
                proof {
                    lemma_views_push(anomalies@, finding);
                }
                anomalies.push(finding);
                Phase::Pending
            },
            _ => Phase::Finished,
        };
        let mut trace = Trace {
            job: base.job_id.clone(),
            phase,
            pending_start: base.start_time,
            events,
            anomalies,
        };
        if let Some(start) = base.start_time {
            if phase != Phase::Pending {
                trace.emit(EventCategory::Started, start, None);
            }
        }
        trace
    }

    /// Adds an event of the job, numbered after those that are there.
    fn emit(&mut self, category: EventCategory, time: Timestamp, reason: Option<String>)
        ensures
            final(self)@ == emit(old(self)@, category, time, opt_text(reason)),
    {
        let event = EventRecord {
            id: EventKey { job: self.job.clone(), ordinal: self.events.len() },
            category,
            time,
            relationships: vec![Relation::new(EntityKind::Job, &self.job, Qualifier::Job)],
            reason,
        };
        assert(event@.relationships =~= seq![relation(EntityKind::Job, self.job@, Qualifier::Job)]);
        proof {
            lemma_views_push(self.events@, event);
        }
        self.events.push(event);
    }

    /// Adds an anomaly.
    fn warn(&mut self, finding: Anomaly)
        ensures
            final(self)@ == warn(old(self)@, finding@),
    {
        proof {
            lemma_views_push(self.anomalies@, finding);
        }
        self.anomalies.push(finding);
    }

    /// Takes note that the job was seen at `at` in the state `next`, other
    /// than the one before, with the reason that stands with it.
    pub fn observe_state(&mut self, at: Timestamp, next: &LifecycleState, reason: &Option<String>)
        ensures
            final(self)@ == on_state(old(self)@, at, next@, opt_text(*reason)),
    {
        match next {
            Lifecycle::Other(label) => {
                let finding = Finding::UnknownState {
                    job: self.job.clone(),
                    at,
                    label: label.clone(),
                };
                self.warn(finding);
            },
            Lifecycle::Running => {
                if self.phase == Phase::Pending {
                    let time = match self.pending_start {
                        Some(start) => start,
                        None => at,
                    };
                    self.emit(EventCategory::Started, time, None);
                    self.phase = Phase::Running;
                } else {
                    self.suppress(at, next);
                }
            },
            Lifecycle::Completing => {
                if self.phase == Phase::Running {
                    self.emit(EventCategory::Ending, at, None);
                    self.phase = Phase::Completing;
                } else {
                    self.suppress(at, next);
                }
            },
            Lifecycle::Pending => {
                self.suppress(at, next);
            },
            _ => {
                let category = match next {
                    Lifecycle::Cancelled => EventCategory::Cancelled,
                    Lifecycle::Failed => EventCategory::Failed,
                    Lifecycle::Timeout => EventCategory::Timeout,
                    Lifecycle::OutOfMemory => EventCategory::OutOfMemory,
                    _ => EventCategory::Completed,
                };
                if contains_category(&self.events, category) {
                    self.suppress(at, next);
                } else {
                    let carried = match next {
                        Lifecycle::Failed => duplicate_opt_text(reason),
                        _ => None,
                    };
                    self.emit(category, at, carried);
                    self.phase = Phase::Finished;
                }
            },
        }
    }

    /// Records that a change of state made no event.
    fn suppress(&mut self, at: Timestamp, to: &LifecycleState)
        ensures
            final(self)@ == warn(
                old(self)@,
                Finding::SuppressedTransition { job: old(self)@.job, at, to: to@ },
            ),
    {
        let finding = Finding::SuppressedTransition {
            job: self.job.clone(),
            at,
            to: to.duplicate(),
        };
        self.warn(finding);
    }

    /// Takes note that the start time of the job changed to `start`.
    pub fn observe_start_time(&mut self, start: Option<Timestamp>)
        ensures
            final(self)@ == on_start_time(old(self)@, start),
    {
        match self.phase {
            Phase::Pending => {
                self.pending_start = start;
            },
            Phase::Finished => {
                if let Some(time) = start {
                    let finding = Finding::LateStartTime { job: self.job.clone(), start: time };
                    self.warn(finding);
                }
            },
            _ => {
                if let Some(time) = start {
                    if contains_category(&self.events, EventCategory::Started) {
                        restamp(&mut self.events, time);
                    } else {
                        self.emit(EventCategory::Started, time, None);
                    }
                }
            },
        }
    }

    /// Takes note of one changed field of a step captured at `at`.
    pub fn observe(&mut self, at: Timestamp, reason: &Option<String>, change: &FieldChange)
        ensures
            final(self)@ == on_change(old(self)@, at, opt_text(*reason), change@),
    {
        match change {
            Change::State(next) => {
                self.observe_state(at, next, reason);
            },
            Change::StartTime(start) => {
                self.observe_start_time(*start);
            },
            _ => {},
        }
    }

    /// Takes note of a step: of each of its changed fields, in their order.
    pub fn follow(&mut self, step: &Step)
        ensures
            final(self)@ == on_step(old(self)@, step@),
    {
        let mut i: usize = 0;
        while i < step.changed.len()
            invariant
                i <= step.changed.len(),
                self@ == on_changes(
                    old(self)@,
                    step.time,
                    step@.state.reason,
                    step@.changed,
                    i as nat,
                ),
            decreases step.changed.len() - i,
        {
            self.observe(step.time, &step.state.reason, &step.changed[i]);
            i = i + 1;
        }
    }
}

/// Derives the events of a replayed job.
pub fn derive_events(replay: &Replay) -> (trace: Trace)
    ensures
        trace@ == trace_of(replay@),
{
    let mut trace = Trace::begin(&replay.base, replay.base_time);
    let mut i: usize = 0;
    while i < replay.steps.len()
        invariant
            i <= replay.steps.len(),
            trace@ == on_steps(begin(replay@.base, replay@.base_time), replay@.steps, i as nat),
        decreases replay.steps.len() - i,
    {
        trace.follow(&replay.steps[i]);
        i = i + 1;
    }
    trace
}

/// No two events of the list are of one category, unless they are `Ending`
/// events.
pub open spec fn categories_unique(events: Seq<EventModel>) -> bool {
    forall|i: int, j: int|
        0 <= i < j < events.len() && (#[trigger] events[i]).category == (
        #[trigger] events[j]).category ==> events[i].category == EventCategory::Ending
}

/// What holds of the trace of a job with the base snapshot `base`, however
/// far it has come: the first event is the submit event and no other is one;
/// the events are numbered in their order; every later event is related to
/// the job alone; only an `Ending` event may occur more than once; and a job
/// that is still pending has no `Started` event.
pub open spec fn well_formed(trace: TraceModel, base: JobModel) -> bool {
    &&& trace.job == base.job_id
    &&& trace.events.len() >= 1
    &&& trace.events[0] == submit_event(base)
    &&& forall|i: int|
        0 <= i < trace.events.len() ==> (#[trigger] trace.events[i]).id == EventKey {
            job: trace.job,
            ordinal: i as usize,
        }
    &&& forall|i: int|
        0 < i < trace.events.len() ==> (#[trigger] trace.events[i]).category
            != EventCategory::Submit
    &&& forall|i: int|
        0 < i < trace.events.len() ==> (#[trigger] trace.events[i]).relationships == seq![
            relation(EntityKind::Job, trace.job, Qualifier::Job),
        ]
    &&& categories_unique(trace.events)
    &&& trace.phase == Phase::Pending ==> !has_category(trace.events, EventCategory::Started)
}

/// The trace of a base snapshot is well formed.
proof fn lemma_begin_well_formed(base: JobModel, at: Timestamp)
    ensures
        well_formed(begin(base, at), base),
{
    let first = submitted(base, at);
    if begin(base, at) != first {
        lemma_emit_keeps_well_formed(
            first,
            base,
            EventCategory::Started,
            base.start_time->0,
            None,
            first.phase,
        );
    }
}

/// An event of a category that is not there yet keeps a trace well formed.
proof fn lemma_emit_keeps_well_formed(
    trace: TraceModel,
    base: JobModel,
    category: EventCategory,
    time: Timestamp,
    reason: Option<Seq<char>>,
    phase: Phase,
)
    requires
        well_formed(trace, base),
        category != EventCategory::Submit,
        category == EventCategory::Ending || !has_category(trace.events, category),
        phase != Phase::Pending,
    ensures
        well_formed(TraceModel { phase, ..emit(trace, category, time, reason) }, base),
{
    let after = TraceModel { phase, ..emit(trace, category, time, reason) };
    let count = trace.events.len() as int;
    assert forall|i: int, j: int|
        0 <= i < j < after.events.len() && (#[trigger] after.events[i]).category == (
        #[trigger] after.events[j]).category implies after.events[i].category
        == EventCategory::Ending by {
        if j < count {
            assert(trace.events[i].category == trace.events[j].category);
        } else {
            assert(trace.events[i].category == category);
        }
    }
}

/// A change of state keeps a trace well formed.
proof fn lemma_on_state_keeps_well_formed(
    trace: TraceModel,
    base: JobModel,
    at: Timestamp,
    next: LifecycleModel,
    reason: Option<Seq<char>>,
)
    requires
        well_formed(trace, base),
    ensures
        well_formed(on_state(trace, at, next, reason), base),
{
    match next {
        Lifecycle::Pending => {},
        Lifecycle::Other(_) => {},
        Lifecycle::Running => {
            if trace.phase == Phase::Pending {
                let time = match trace.pending_start {
                    Some(start) => start,
                    None => at,
                };
                lemma_emit_keeps_well_formed(
                    trace,
                    base,
                    EventCategory::Started,
                    time,
                    None,
                    Phase::Running,
                );
            }
        },
        Lifecycle::Completing => {
            if trace.phase == Phase::Running {
                lemma_emit_keeps_well_formed(
                    trace,
                    base,
                    EventCategory::Ending,
                    at,
                    None,
                    Phase::Completing,
                );
            }
        },
        _ => {
            if !has_category(trace.events, terminal_category(next)) {
                lemma_emit_keeps_well_formed(
                    trace,
                    base,
                    terminal_category(next),
                    at,
                    if next is Failed {
                        reason
                    } else {
                        None
                    },
                    Phase::Finished,
                );
            }
        },
    }
}

/// A change of the start time keeps a trace well formed.
proof fn lemma_on_start_time_keeps_well_formed(
    trace: TraceModel,
    base: JobModel,
    start: Option<Timestamp>,
)
    requires
        well_formed(trace, base),
    ensures
        well_formed(on_start_time(trace, start), base),
{
    let after = on_start_time(trace, start);
    if after.events != trace.events && !has_category(trace.events, EventCategory::Started) {
        lemma_emit_keeps_well_formed(
            trace,
            base,
            EventCategory::Started,
            start->0,
            None,
            trace.phase,
        );
    } else if after.events != trace.events {
        let time = start->0;
        assert(after.events == restamp_started(trace.events, time));
        assert forall|i: int, j: int|
            0 <= i < j < after.events.len() && (#[trigger] after.events[i]).category == (
            #[trigger] after.events[j]).category implies after.events[i].category
            == EventCategory::Ending by {
            assert(trace.events[i].category == trace.events[j].category);
        }
        assert(forall|i: int|
            0 <= i < after.events.len() ==> (#[trigger] after.events[i]).id
                == trace.events[i].id);
        assert(forall|i: int|
            0 <= i < after.events.len() ==> (#[trigger] after.events[i]).relationships
                == trace.events[i].relationships);
        assert(forall|i: int|
            0 <= i < after.events.len() ==> (#[trigger] after.events[i]).category
                == trace.events[i].category);
    }
}

/// The changed fields of a step keep a trace well formed.
proof fn lemma_on_changes_keeps_well_formed(
    trace: TraceModel,
    base: JobModel,
    at: Timestamp,
    reason: Option<Seq<char>>,
    changed: Seq<ChangeModel>,
    count: nat,
)
    requires
        well_formed(trace, base),
    ensures
        well_formed(on_changes(trace, at, reason, changed, count), base),
    decreases count,
{
    if count > 0 {
        lemma_on_changes_keeps_well_formed(trace, base, at, reason, changed, (count - 1) as nat);
        let before = on_changes(trace, at, reason, changed, (count - 1) as nat);
        match changed[count - 1] {
            Change::State(next) => {
                lemma_on_state_keeps_well_formed(before, base, at, next, reason);
            },
            Change::StartTime(start) => {
                lemma_on_start_time_keeps_well_formed(before, base, start);
            },
            _ => {},
        }
    }
}

/// Steps keep a trace well formed.
proof fn lemma_on_steps_keeps_well_formed(
    trace: TraceModel,
    base: JobModel,
    steps: Seq<StepModel>,
    count: nat,
)
    requires
        well_formed(trace, base),
    ensures
        well_formed(on_steps(trace, steps, count), base),
    decreases count,
{
    if count > 0 {
        lemma_on_steps_keeps_well_formed(trace, base, steps, (count - 1) as nat);
        let before = on_steps(trace, steps, (count - 1) as nat);
        let step = steps[count - 1];
        lemma_on_changes_keeps_well_formed(
            before,
            base,
            step.time,
            step.state.reason,
            step.changed,
            step.changed.len(),
        );
    }
}

/// Whatever was replayed, the trace of a job is well formed: it holds
/// exactly one submit event, which comes first, at most one `Started` event,
/// and at most one event for each terminal state.
pub proof fn lemma_trace_is_well_formed(replay: ReplayModel)
    ensures
        well_formed(trace_of(replay), replay.base),
{
    lemma_begin_well_formed(replay.base, replay.base_time);
    lemma_on_steps_keeps_well_formed(
        begin(replay.base, replay.base_time),
        replay.base,
        replay.steps,
        replay.steps.len(),
    );
}

/// The events of a well-formed trace that a machine can hold have
/// identifiers that differ from one another.
pub proof fn lemma_event_identifiers_differ(trace: TraceModel, base: JobModel)
    requires
        well_formed(trace, base),
        trace.events.len() <= usize::MAX,
    ensures
        forall|i: int, j: int|
            0 <= i < j < trace.events.len() ==> (#[trigger] trace.events[i]).id != (
            #[trigger] trace.events[j]).id,
{
}

/// A return to pending makes no event and exactly one anomaly, whatever the
/// job's phase.
pub proof fn lemma_return_to_pending_is_suppressed(
    trace: TraceModel,
    at: Timestamp,
    reason: Option<Seq<char>>,
)
    ensures
        on_state(trace, at, Lifecycle::Pending, reason).events == trace.events,
        on_state(trace, at, Lifecycle::Pending, reason).anomalies == trace.anomalies.push(
            Finding::SuppressedTransition { job: trace.job, at, to: Lifecycle::Pending },
        ),
        on_state(trace, at, Lifecycle::Pending, reason).phase == trace.phase,
{
}

/// For a pending job it makes no difference to the events whether the start
/// time becomes known before the job is seen running or after: either way
/// one `Started` event is added, and its instant is the start time.
pub proof fn lemma_started_once_in_either_order(
    trace: TraceModel,
    base: JobModel,
    at: Timestamp,
    start: Timestamp,
    reason: Option<Seq<char>>,
)
    requires
        well_formed(trace, base),
        trace.phase == Phase::Pending,
    ensures
        on_state(on_start_time(trace, Some(start)), at, Lifecycle::Running, reason).events
            == trace.events.push(
            job_event(trace.job, trace.events.len() as usize, EventCategory::Started, start, None),
        ),
        on_start_time(on_state(trace, at, Lifecycle::Running, reason), Some(start)).events
            == trace.events.push(
            job_event(trace.job, trace.events.len() as usize, EventCategory::Started, start, None),
        ),
{
    let seen_first = on_state(trace, at, Lifecycle::Running, reason);
    assert(seen_first.events[trace.events.len() as int].category == EventCategory::Started);
    assert(has_category(seen_first.events, EventCategory::Started));
    let expected = trace.events.push(
        job_event(trace.job, trace.events.len() as usize, EventCategory::Started, start, None),
    );
    assert forall|i: int| 0 <= i < trace.events.len() implies (#[trigger] trace.events[i]).category
        != EventCategory::Started by {
        if trace.events[i].category == EventCategory::Started {
            assert(has_category(trace.events, EventCategory::Started));
        }
    }
    assert(restamp_started(seen_first.events, start) =~= expected);
}

} // verus!
