//! Replaying the captures of one job into its state over time.
//!
//! Where all captures of a job are snapshots, they are first put in the
//! order of their instants, so that at each instant the freshest snapshot
//! known up to then stands. Where deltas are among them, the captures are
//! taken in the order in which they are given, since a delta builds on the
//! capture before it.
//!
//! The first capture is then the base snapshot of the job. Each later
//! capture is either a delta, which is applied to the state that stands, or
//! a further snapshot, which replaces it unless it is older than what was
//! applied last. Every capture that is taken up yields a step: the instant,
//! the state that stands from then on, and the fields in which it differs
//! from the state before.
//!
//! A delta that was captured before the capture applied last is applied all
//! the same, and a temporal inversion is recorded for it.

use vstd::prelude::*;
use crate::instant::Timestamp;
use crate::model::{views, lemma_views_push, lemma_views_empty};
use crate::job::{
    JobObservation, JobModel, FieldChange, ChangeModel, apply_delta, apply_all, changed_fields,
    difference, duplicate_delta, lemma_apply_delta_keeps_identifier,
};
use crate::anomaly::{Anomaly, AnomalyModel, Finding, InputError};

verus! {

/// What was captured of a job: its whole state, or the fields that changed
/// since the capture before.
#[derive(Clone, Debug, PartialEq, Eq)]
pub enum Capture {
    Snapshot(JobObservation),
    Delta(Vec<FieldChange>),
}

/// The model of a capture.
pub enum CaptureModel {
    Snapshot(JobModel),
    Delta(Seq<ChangeModel>),
}

impl View for Capture {
    type V = CaptureModel;

    open spec fn view(&self) -> CaptureModel {
        match *self {
            Capture::Snapshot(job) => CaptureModel::Snapshot(job@),
            Capture::Delta(delta) => CaptureModel::Delta(views(delta@)),
        }
    }
}

impl Capture {
    /// A copy of the capture.
    pub fn duplicate(&self) -> (copy: Capture)
        ensures
            copy@ == self@,
    {
        match self {
            Capture::Snapshot(job) => Capture::Snapshot(job.duplicate()),
            Capture::Delta(delta) => Capture::Delta(duplicate_delta(delta)),
        }
    }
}

/// A capture with the instant at which it was made.
#[derive(Clone, Debug, PartialEq, Eq)]
pub struct Entry {
    pub time: Timestamp,
    pub capture: Capture,
}

/// The model of an entry.
pub struct EntryModel {
    pub time: Timestamp,
    pub capture: CaptureModel,
}

impl View for Entry {
    type V = EntryModel;

    open spec fn view(&self) -> EntryModel {
        EntryModel { time: self.time, capture: self.capture@ }
    }
}

/// One step of a replay.
#[derive(Clone, Debug, PartialEq, Eq)]
pub struct Step {
    pub time: Timestamp,
    /// The state that stands from `time` on.
    pub state: JobObservation,
    /// The fields in which `state` differs from the state before.
    pub changed: Vec<FieldChange>,
}

/// The model of a step.
pub struct StepModel {
    pub time: Timestamp,
    pub state: JobModel,
    pub changed: Seq<ChangeModel>,
}

impl View for Step {
    type V = StepModel;

    open spec fn view(&self) -> StepModel {
        StepModel { time: self.time, state: self.state@, changed: views(self.changed@) }
    }
}

/// The replay of one job: its base snapshot, the steps after it, and what
/// was found amiss on the way.
#[derive(Clone, Debug, PartialEq, Eq)]
pub struct Replay {
    pub base_time: Timestamp,
    pub base: JobObservation,
    pub steps: Vec<Step>,
    pub anomalies: Vec<Anomaly>,
}

/// The model of a replay.
pub struct ReplayModel {
    pub base_time: Timestamp,
    pub base: JobModel,
    pub steps: Seq<StepModel>,
    pub anomalies: Seq<AnomalyModel>,
}

impl View for Replay {
    type V = ReplayModel;

    open spec fn view(&self) -> ReplayModel {
        ReplayModel {
            base_time: self.base_time,
            base: self.base@,
            steps: views(self.steps@),
            anomalies: views(self.anomalies@),
        }
    }
}

/// A replay under way: what has been replayed, the state that stands, and
/// the instant of the capture that was applied last.
pub struct Cursor {
    pub replay: ReplayModel,
    pub current: JobModel,
    pub last: Timestamp,
}

/// The replay that has taken up the base snapshot and nothing else.
pub open spec fn start(base_time: Timestamp, base: JobModel) -> Cursor {
    Cursor {
        replay: ReplayModel {
            base_time,
            base,
            steps: Seq::empty(),
            anomalies: Seq::empty(),
        },
        current: base,
        last: base_time,
    }
}

/// The replay after a delta. The delta is applied whenever it was captured;
/// if that was before the capture applied last, a temporal inversion is
/// recorded with both instants.
pub open spec fn advance_delta(cursor: Cursor, time: Timestamp, delta: Seq<ChangeModel>) -> Cursor {
    let next = apply_delta(cursor.current, delta);
    let step = StepModel { time, state: next, changed: changed_fields(cursor.current, next) };
    Cursor {
        replay: ReplayModel {
            steps: cursor.replay.steps.push(step),
            anomalies: if time.precedes(cursor.last) {
                cursor.replay.anomalies.push(
                    Finding::TemporalInversion {
                        job: cursor.current.job_id,
                        previous: cursor.last,
                        current: time,
                    },
                )
            } else {
                cursor.replay.anomalies
            },
            ..cursor.replay
        },
        current: next,
        last: time,
    }
}

/// The replay after a further snapshot. One of another job is passed over
/// and recorded. One that is older than the capture applied last leaves the
/// fresher state standing. Any other becomes the state that stands.
pub open spec fn advance_snapshot(cursor: Cursor, time: Timestamp, snapshot: JobModel) -> Cursor {
    if snapshot.job_id != cursor.current.job_id {
        Cursor {
            replay: ReplayModel {
                anomalies: cursor.replay.anomalies.push(
                    Finding::ForeignSnapshot { job: cursor.current.job_id, at: time },
                ),
                ..cursor.replay
            },
            ..cursor
        }
    } else if time.precedes(cursor.last) {
        let step = StepModel { time, state: cursor.current, changed: Seq::empty() };
        Cursor {
            replay: ReplayModel { steps: cursor.replay.steps.push(step), ..cursor.replay },
            ..cursor
        }
    } else {
        let step = StepModel {
            time,
            state: snapshot,
            changed: changed_fields(cursor.current, snapshot),
        };
        Cursor {
            replay: ReplayModel { steps: cursor.replay.steps.push(step), ..cursor.replay },
            current: snapshot,
            last: time,
        }
    }
}

/// The replay after one more entry.
pub open spec fn advance(cursor: Cursor, entry: EntryModel) -> Cursor {
    match entry.capture {
        CaptureModel::Delta(delta) => advance_delta(cursor, entry.time, delta),
        CaptureModel::Snapshot(snapshot) => advance_snapshot(cursor, entry.time, snapshot),
    }
}

/// The replay after the first `count` entries, the first of which is the
/// base snapshot.
pub open spec fn replay_prefix(base: JobModel, entries: Seq<EntryModel>, count: nat) -> Cursor
    decreases count,
{
    if count <= 1 {
        start(entries[0].time, base)
    } else {
        advance(replay_prefix(base, entries, (count - 1) as nat), entries[count - 1])
    }
}

/// The replay of entries in the order in which they stand: an error where
/// the base snapshot is missing or is of another job than `job`, and else
/// the replay of all entries.
pub open spec fn replay_in_order(job: Seq<char>, entries: Seq<EntryModel>) -> Result<
    ReplayModel,
    InputError,
> {
    if entries.len() == 0 {
        Err(InputError::MissingBase)
    } else {
        match entries[0].capture {
            CaptureModel::Delta(_) => Err(InputError::MissingBase),
            CaptureModel::Snapshot(base) => if base.job_id != job {
                Err(InputError::MalformedBase)
            } else {
                Ok(replay_prefix(base, entries, entries.len()).replay)
            },
        }
    }
}

/// The model of the outcome of a replay.
pub open spec fn outcome_model(outcome: Result<Replay, InputError>) -> Result<ReplayModel, InputError> {
    match outcome {
        Ok(replay) => Ok(replay@),
        Err(error) => Err(error),
    }
}

/// Every entry is a snapshot.
pub open spec fn snapshots_only(entries: Seq<EntryModel>) -> bool {
    forall|i: int| 0 <= i < entries.len() ==> (#[trigger] entries[i]).capture is Snapshot
}

/// No entry is earlier than an entry that stands before it.
pub open spec fn in_order(entries: Seq<EntryModel>) -> bool {
    forall|i: int, j: int|
        0 <= i < j < entries.len() ==> !(#[trigger] entries[j]).time.precedes(
            (#[trigger] entries[i]).time,
        )
}

/// The entries with one more, which stands behind every entry that is not
/// later than it.
pub open spec fn inserted(entries: Seq<EntryModel>, entry: EntryModel) -> Seq<EntryModel>
    decreases entries.len(),
{
    if entries.len() == 0 {
        seq![entry]
    } else if entry.time.precedes(entries.last().time) {
        inserted(entries.drop_last(), entry).push(entries.last())
    } else {
        entries.push(entry)
    }
}

/// The first `count` entries in the order of their instants, entries of
/// one instant in the order in which they are given.
pub open spec fn by_time(entries: Seq<EntryModel>, count: nat) -> Seq<EntryModel>
    decreases count,
{
    if count == 0 {
        Seq::empty()
    } else {
        inserted(by_time(entries, (count - 1) as nat), entries[count - 1])
    }
}

/// The entries as they are replayed: snapshots alone in the order of their
/// instants, anything else as it is given.
pub open spec fn arranged(entries: Seq<EntryModel>) -> Seq<EntryModel> {
    if snapshots_only(entries) {
        by_time(entries, entries.len())
    } else {
        entries
    }
}

/// The replay of the entries filed under a job.
pub open spec fn replay_of(job: Seq<char>, entries: Seq<EntryModel>) -> Result<
    ReplayModel,
    InputError,
> {
    replay_in_order(job, arranged(entries))
}

impl Entry {
    /// A copy of the entry.
    pub fn duplicate(&self) -> (copy: Entry)
        ensures
            copy@ == self@,
    {
        Entry { time: self.time, capture: self.capture.duplicate() }
    }
}

/// An entry that is earlier than all entries from a place on, and not
/// earlier than the entry before that place, is inserted at that place.
proof fn lemma_inserted_at(entries: Seq<EntryModel>, entry: EntryModel, place: int)
    requires
        0 <= place <= entries.len(),
        forall|i: int| place <= i < entries.len() ==> entry.time.precedes(entries[i].time),
        place > 0 ==> !entry.time.precedes(entries[place - 1].time),
    ensures
        inserted(entries, entry) == entries.take(place).push(entry) + entries.skip(place),
    decreases entries.len() - place,
{
    if place == entries.len() {
        assert(entries.take(place) =~= entries);
        assert(entries.push(entry) + entries.skip(place) =~= entries.push(entry));
        if entries.len() == 0 {
            assert(entries.push(entry) =~= seq![entry]);
        }
    } else {
        let shorter = entries.drop_last();
        lemma_inserted_at(shorter, entry, place);
        assert(shorter.take(place) =~= entries.take(place));
        assert((shorter.take(place).push(entry) + shorter.skip(place)).push(entries.last())
            =~= entries.take(place).push(entry) + entries.skip(place));
    }
}

/// Whether every entry is a snapshot.
pub fn only_snapshots(entries: &Vec<Entry>) -> (all: bool)
    ensures
        all == snapshots_only(views(entries@)),
{
    let mut i: usize = 0;
    while i < entries.len()
        invariant
            i <= entries.len(),
            forall|j: int| 0 <= j < i ==> (#[trigger] views(entries@)[j]).capture is Snapshot,
        decreases entries.len() - i,
    {
        match &entries[i].capture {
            Capture::Delta(_) => {
                assert(views(entries@)[i as int].capture is Delta);
                return false;
            },
            Capture::Snapshot(_) => {},
        }
        i = i + 1;
    }
    true
}

/// Puts one more entry behind every entry that is not later than it.
fn insert_by_time(entries: &mut Vec<Entry>, entry: Entry)
    ensures
        views(final(entries)@) == inserted(views(old(entries)@), entry@),
{
    let ghost before = views(entries@);
    let mut place: usize = entries.len();
    while place > 0 && entry.time.is_before(&entries[place - 1].time)
        invariant
            place <= entries.len(),
            entries@ == old(entries)@,
            before == views(entries@),
            forall|i: int| place <= i < before.len() ==> entry@.time.precedes((#[trigger] before[i]).time),
        decreases place,
    {
        place = place - 1;
    }
    proof {
        lemma_inserted_at(before, entry@, place as int);
    }
    entries.insert(place, entry);
}

/// The entries in the order of their instants, entries of one instant in
/// the order in which they are given.
pub fn sort_by_time(entries: &Vec<Entry>) -> (sorted: Vec<Entry>)
    ensures
        views(sorted@) == by_time(views(entries@), entries.len() as nat),
{
    let mut sorted: Vec<Entry> = Vec::new();
    proof {
        lemma_views_empty::<Entry>();
    }
    let mut i: usize = 0;
    while i < entries.len()
        invariant
            i <= entries.len(),
            views(sorted@) == by_time(views(entries@), i as nat),
        decreases entries.len() - i,
    {
        insert_by_time(&mut sorted, entries[i].duplicate());
        i = i + 1;
    }
    sorted
}

/// Replays the entries filed under a job.
pub fn reconstruct(job: &String, entries: &Vec<Entry>) -> (outcome: Result<Replay, InputError>)
    ensures
        outcome_model(outcome) == replay_of(job@, views(entries@)),
{
    if only_snapshots(entries) {
        let sorted = sort_by_time(entries);
        replay(job, &sorted)
    } else {
        replay(job, entries)
    }
}

/// Replays entries in the order in which they stand.
pub fn replay(job: &String, entries: &Vec<Entry>) -> (outcome: Result<Replay, InputError>)
    ensures
        outcome_model(outcome) == replay_in_order(job@, views(entries@)),
{
    if entries.len() == 0 {
        return Err(InputError::MissingBase);
    }
    let base = match &entries[0].capture {
        Capture::Delta(_) => {
            return Err(InputError::MissingBase);
        },
        Capture::Snapshot(base) => base,
    };
    if !(base.job_id == *job) {
        return Err(InputError::MalformedBase);
    }
    let ghost model = views(entries@);
    let mut replay = Replay {
        base_time: entries[0].time,
        base: base.duplicate(),
        steps: Vec::new(),
        anomalies: Vec::new(),
    };
    let mut current = base.duplicate();
    let mut last = entries[0].time;
    proof {
        lemma_views_empty::<Step>();
        lemma_views_empty::<Anomaly>();
    }
    let mut i: usize = 1;
    while i < entries.len()
        invariant
            1 <= i <= entries.len(),
            model == views(entries@),
            (Cursor { replay: replay@, current: current@, last }) == replay_prefix(
                base@,
                model,
                i as nat,
            ),
        decreases entries.len() - i,
    {
        let entry = &entries[i];
        let ghost before = Cursor { replay: replay@, current: current@, last };
        match &entry.capture {
            Capture::Delta(delta) => {
                let mut next = current.duplicate();
                apply_all(&mut next, delta);
                let changed = difference(&current, &next);
                if entry.time.is_before(&last) {
                    let finding = Finding::TemporalInversion {
                        job: current.job_id.clone(),
                        previous: last,
                        current: entry.time,
                    };
                    proof {
                        lemma_views_push(replay.anomalies@, finding);
                    }
                    replay.anomalies.push(finding);
                }
                let step = Step { time: entry.time, state: next.duplicate(), changed };
                proof {
                    lemma_views_push(replay.steps@, step);
                }
                replay.steps.push(step);
                current = next;
                last = entry.time;
                assert((Cursor { replay: replay@, current: current@, last }) == advance_delta(
                    before,
                    entry.time,
                    views(delta@),
                ));
            },
            Capture::Snapshot(snapshot) => {
                if !(snapshot.job_id == current.job_id) {
                    let finding = Finding::ForeignSnapshot {
                        job: current.job_id.clone(),
                        at: entry.time,
                    };
                    proof {
                        lemma_views_push(replay.anomalies@, finding);
                    }
                    replay.anomalies.push(finding);
                } else if entry.time.is_before(&last) {
                    let unchanged: Vec<FieldChange> = Vec::new();
                    proof {
                        lemma_views_empty::<FieldChange>();
                    }
                    let step = Step { time: entry.time, state: current.duplicate(), changed: unchanged };
                    proof {
                        lemma_views_push(replay.steps@, step);
                    }
                    replay.steps.push(step);
                } else {
                    let changed = difference(&current, snapshot);
                    let step = Step { time: entry.time, state: snapshot.duplicate(), changed };
                    proof {
                        lemma_views_push(replay.steps@, step);
                    }
                    replay.steps.push(step);
                    current = snapshot.duplicate();
                    last = entry.time;
                }
                assert((Cursor { replay: replay@, current: current@, last }) == advance_snapshot(
                    before,
                    entry.time,
                    snapshot@,
                ));
            },
        }
        i = i + 1;
    }
    Ok(replay)
}

/// A delta that was captured before the capture applied last is applied all
/// the same, and one temporal inversion is recorded for it, with the job and
/// both instants.
pub proof fn lemma_late_delta_is_applied_and_recorded(
    cursor: Cursor,
    time: Timestamp,
    delta: Seq<ChangeModel>,
)
    requires
        time.precedes(cursor.last),
    ensures
        advance_delta(cursor, time, delta).current == apply_delta(cursor.current, delta),
        advance_delta(cursor, time, delta).replay.steps.last().state == apply_delta(
            cursor.current,
            delta,
        ),
        advance_delta(cursor, time, delta).replay.anomalies == cursor.replay.anomalies.push(
            Finding::TemporalInversion {
                job: cursor.current.job_id,
                previous: cursor.last,
                current: time,
            },
        ),
{
}

/// A replay stays with the job of its base snapshot: the base and its
/// instant are those it began with, and the state that stands, like the
/// state of every step, is a state of that job.
pub proof fn lemma_replay_stays_with_job(base: JobModel, entries: Seq<EntryModel>, count: nat)
    ensures
        replay_prefix(base, entries, count).replay.base == base,
        replay_prefix(base, entries, count).replay.base_time == entries[0].time,
        replay_prefix(base, entries, count).current.job_id == base.job_id,
        forall|i: int|
            0 <= i < replay_prefix(base, entries, count).replay.steps.len() ==> (
            #[trigger] replay_prefix(base, entries, count).replay.steps[i]).state.job_id
                == base.job_id,
    decreases count,
{
    if count > 1 {
        lemma_replay_stays_with_job(base, entries, (count - 1) as nat);
        let before = replay_prefix(base, entries, (count - 1) as nat);
        match entries[count - 1].capture {
            CaptureModel::Delta(delta) => {
                lemma_apply_delta_keeps_identifier(before.current, delta);
            },
            CaptureModel::Snapshot(_) => {},
        }
    }
}

/// A replay is of the job that its entries were filed under.
pub proof fn lemma_replay_is_of_job(job: Seq<char>, entries: Seq<EntryModel>)
    ensures
        replay_of(job, entries) matches Ok(replay) ==> replay.base.job_id == job,
{
    let taken = arranged(entries);
    if replay_of(job, entries) is Ok {
        let base = taken[0].capture->Snapshot_0;
        lemma_replay_stays_with_job(base, taken, taken.len());
    }
}

/// One more entry, put in its place among entries that are in order, leaves
/// them in order.
proof fn lemma_inserted_in_order(entries: Seq<EntryModel>, entry: EntryModel)
    requires
        in_order(entries),
    ensures
        in_order(inserted(entries, entry)),
        inserted(entries, entry).len() == entries.len() + 1,
        inserted(entries, entry).to_multiset() == entries.to_multiset().insert(entry),
        forall|i: int|
            0 <= i < inserted(entries, entry).len() ==> (#[trigger] inserted(entries, entry)[i])
                == entry || exists|j: int|
                0 <= j < entries.len() && entries[j] == inserted(entries, entry)[i],
    decreases entries.len(),
{
    broadcast use vstd::seq_lib::group_to_multiset_ensures;

    let after = inserted(entries, entry);
    if entries.len() == 0 {
        assert(seq![entry] =~= entries.push(entry));
    } else if entry.time.precedes(entries.last().time) {
        let shorter = entries.drop_last();
        assert forall|i: int, j: int| 0 <= i < j < shorter.len() implies !(
        #[trigger] shorter[j]).time.precedes((#[trigger] shorter[i]).time) by {
            assert(shorter[i] == entries[i] && shorter[j] == entries[j]);
        }
        lemma_inserted_in_order(shorter, entry);
        let inner = inserted(shorter, entry);
        assert(entries =~= shorter.push(entries.last()));
        assert forall|i: int, j: int| 0 <= i < j < after.len() implies !(
        #[trigger] after[j]).time.precedes((#[trigger] after[i]).time) by {
            if j < inner.len() {
                assert(after[i] == inner[i] && after[j] == inner[j]);
            } else {
                assert(after[j] == entries.last());
                assert(after[i] == inner[i]);
                if inner[i] != entry {
                    let k = choose|k: int| 0 <= k < shorter.len() && shorter[k] == inner[i];
                    assert(entries[k] == shorter[k]);
                    assert(!entries[entries.len() - 1].time.precedes(entries[k].time));
                }
            }
        }
        assert forall|i: int| 0 <= i < after.len() implies (#[trigger] after[i]) == entry
            || exists|j: int| 0 <= j < entries.len() && entries[j] == after[i] by {
            if i < inner.len() {
                assert(after[i] == inner[i]);
                if inner[i] != entry {
                    let k = choose|k: int| 0 <= k < shorter.len() && shorter[k] == inner[i];
                    assert(entries[k] == after[i]);
                }
            } else {
                assert(entries[entries.len() - 1] == after[i]);
            }
        }
        assert(after.to_multiset() =~= entries.to_multiset().insert(entry));
    } else {
        assert forall|i: int, j: int| 0 <= i < j < after.len() implies !(
        #[trigger] after[j]).time.precedes((#[trigger] after[i]).time) by {
            if j < entries.len() {
                assert(after[i] == entries[i] && after[j] == entries[j]);
            } else {
                assert(after[i] == entries[i]);
                assert(!entries[entries.len() - 1].time.precedes(entries[i].time));
            }
        }
        assert forall|i: int| 0 <= i < after.len() implies (#[trigger] after[i]) == entry
            || exists|j: int| 0 <= j < entries.len() && entries[j] == after[i] by {
            if i < entries.len() {
                assert(entries[i] == after[i]);
            }
        }
    }
}

/// Entries put in the order of their instants are in order, and they are
/// the entries that were given, each as often as it was given.
pub proof fn lemma_by_time_is_in_order(entries: Seq<EntryModel>, count: nat)
    requires
        count <= entries.len(),
    ensures
        in_order(by_time(entries, count)),
        by_time(entries, count).len() == count,
        by_time(entries, count).to_multiset() == entries.take(count as int).to_multiset(),
    decreases count,
{
    broadcast use vstd::seq_lib::group_to_multiset_ensures;

    if count == 0 {
        assert(entries.take(0) =~= Seq::<EntryModel>::empty());
    } else {
        lemma_by_time_is_in_order(entries, (count - 1) as nat);
        lemma_inserted_in_order(by_time(entries, (count - 1) as nat), entries[count - 1]);
        assert(entries.take(count as int) =~= entries.take(count - 1).push(entries[count - 1]));
    }
}

} // verus!
