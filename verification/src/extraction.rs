//! A whole run: from the captures of many jobs to one log.
//!
//! The captures are sorted into one stream for each job, in the order in
//! which the jobs are first met. Each stream is replayed, the events of the
//! job are derived, and the job is entered into the registry with what it
//! refers to. A job whose captures cannot be replayed is left out and an
//! anomaly is recorded for it; the other jobs are not affected. As long as
//! no two streams are of the same job, the events and objects of a run make
//! a log: no identifier occurs twice, and every relationship leads to an
//! object. A run over streams that does not make a log fails as a whole.

use vstd::prelude::*;
use crate::instant::Timestamp;
use crate::model::{views, lemma_views_push, lemma_views_empty, lemma_views_add};
use crate::job::{JobObservation, JobModel};
use crate::record::{EntityKind, EventRecord, EventModel, ObjectModel, object_key};
use crate::anomaly::{Anomaly, AnomalyModel, Finding};
use crate::replay::{
    Capture, CaptureModel, Entry, EntryModel, replay_of, reconstruct, lemma_replay_is_of_job,
};
use crate::lifecycle::{
    TraceModel, trace_of, derive_events, well_formed, lemma_trace_is_well_formed,
    lemma_event_identifiers_differ,
};
use crate::registry::{Registry, has_object, keys_distinct, targets_present};
use crate::enrollment::{enrolled, enroll, extends, job_key, lemma_extends_keeps_objects};
use crate::assembly::{
    EventLog, IntegrityError, IntegrityErrorModel, log_with, consistent, first_breach, assemble,
};

verus! {

/// A capture with its instant and the job it was filed under.
#[derive(Clone, Debug, PartialEq, Eq)]
pub struct CaptureRecord {
    pub time: Timestamp,
    pub job_id: String,
    pub capture: Capture,
}

/// The model of a capture record.
pub struct RecordModel {
    pub time: Timestamp,
    pub job_id: Seq<char>,
    pub capture: CaptureModel,
}

impl View for CaptureRecord {
    type V = RecordModel;

    open spec fn view(&self) -> RecordModel {
        RecordModel { time: self.time, job_id: self.job_id@, capture: self.capture@ }
    }
}

/// The captures of one job, in the order in which they were given.
#[derive(Clone, Debug, PartialEq, Eq)]
pub struct JobStream {
    pub job_id: String,
    pub entries: Vec<Entry>,
}

/// The model of a stream.
pub struct StreamModel {
    pub job_id: Seq<char>,
    pub entries: Seq<EntryModel>,
}

impl View for JobStream {
    type V = StreamModel;

    open spec fn view(&self) -> StreamModel {
        StreamModel { job_id: self.job_id@, entries: views(self.entries@) }
    }
}

/// One of the first `count` streams is that of the job.
pub open spec fn job_among(streams: Seq<StreamModel>, count: int, job: Seq<char>) -> bool {
    exists|s: int| 0 <= s < count && s < streams.len() && (#[trigger] streams[s]).job_id == job
}

/// No two streams are of the same job.
pub open spec fn jobs_distinct(streams: Seq<StreamModel>) -> bool {
    forall|i: int, j: int|
        0 <= i < j < streams.len() ==> (#[trigger] streams[i]).job_id != (
        #[trigger] streams[j]).job_id
}

/// The entry that a record holds.
pub open spec fn entry_of(record: RecordModel) -> EntryModel {
    EntryModel { time: record.time, capture: record.capture }
}

/// The streams after a record was filed: its entry is the last of the
/// stream of its job, which is a new last stream if the job had none.
pub open spec fn filed(streams: Seq<StreamModel>, record: RecordModel) -> Seq<StreamModel> {
    if job_among(streams, streams.len() as int, record.job_id) {
        Seq::new(
            streams.len(),
            |i: int|
                if streams[i].job_id == record.job_id {
                    StreamModel { entries: streams[i].entries.push(entry_of(record)), ..streams[i] }
                } else {
                    streams[i]
                },
        )
    } else {
        streams.push(StreamModel { job_id: record.job_id, entries: seq![entry_of(record)] })
    }
}

/// The streams of the first `count` records.
pub open spec fn grouped(records: Seq<RecordModel>, count: nat) -> Seq<StreamModel>
    decreases count,
{
    if count == 0 {
        Seq::empty()
    } else {
        filed(grouped(records, (count - 1) as nat), records[count - 1])
    }
}

/// Files a record with the stream of its job.
fn file(streams: &mut Vec<JobStream>, record: &CaptureRecord)
    requires
        jobs_distinct(views(old(streams)@)),
    ensures
        jobs_distinct(views(final(streams)@)),
        views(final(streams)@) == filed(views(old(streams)@), record@),
{
    let ghost before = views(streams@);
    let entry = Entry { time: record.time, capture: record.capture.duplicate() };
    let mut i: usize = 0;
    while i < streams.len()
        invariant
            i <= streams.len(),
            streams@ == old(streams)@,
            forall|j: int| 0 <= j < i ==> (#[trigger] before[j]).job_id != record@.job_id,
            before == views(streams@),
            jobs_distinct(before),
            entry@ == entry_of(record@),
        decreases streams.len() - i,
    {
        if streams[i].job_id == record.job_id {
            proof {
                assert(before[i as int].job_id == record@.job_id);
                lemma_views_push(streams@[i as int].entries@, entry);
            }
            streams[i].entries.push(entry);
            proof {
                assert(job_among(before, before.len() as int, record@.job_id));
                let after = views(streams@);
                assert forall|j: int| 0 <= j < after.len() implies after[j] == filed(
                    before,
                    record@,
                )[j] by {
                    if j != i {
                        assert(after[j] == before[j]);
                        if j < i {
                            assert(before[j].job_id != before[i as int].job_id);
                        } else {
                            assert(before[i as int].job_id != before[j].job_id);
                        }
                    }
                }
                assert(after =~= filed(before, record@));
            }
            return;
        }
        i = i + 1;
    }
    let stream = JobStream { job_id: record.job_id.clone(), entries: vec![entry] };
    proof {
        assert(stream@.entries =~= seq![entry_of(record@)]);
        lemma_views_push(streams@, stream);
        assert(!job_among(before, before.len() as int, record@.job_id));
    }
    streams.push(stream);
}

/// Sorts the records into one stream for each job. The streams stand in
/// the order in which their jobs are first met, and the entries of a stream
/// in the order of the records.
pub fn group_by_job(records: &Vec<CaptureRecord>) -> (streams: Vec<JobStream>)
    ensures
        views(streams@) == grouped(views(records@), records.len() as nat),
        jobs_distinct(views(streams@)),
{
    let mut streams: Vec<JobStream> = Vec::new();
    proof {
        lemma_views_empty::<JobStream>();
    }
    let mut i: usize = 0;
    while i < records.len()
        invariant
            i <= records.len(),
            jobs_distinct(views(streams@)),
            views(streams@) == grouped(views(records@), i as nat),
        decreases records.len() - i,
    {
        file(&mut streams, &records[i]);
        i = i + 1;
    }
    streams
}

/// What a run has brought together.
pub struct RunModel {
    pub objects: Seq<ObjectModel>,
    pub events: Seq<EventModel>,
    pub anomalies: Seq<AnomalyModel>,
}

/// The run after the stream of one more job. Where the stream can be
/// replayed, the job is entered with what it refers to, and its events and
/// anomalies come after those that are there. Where it cannot, nothing but
/// an anomaly that names the job and the error is added.
pub open spec fn run_job(run: RunModel, stream: StreamModel) -> RunModel {
    match replay_of(stream.job_id, stream.entries) {
        Ok(replay) => RunModel {
            objects: enrolled(run.objects, replay),
            events: run.events + trace_of(replay).events,
            anomalies: run.anomalies + replay.anomalies + trace_of(replay).anomalies,
        },
        Err(error) => RunModel {
            anomalies: run.anomalies.push(Finding::SkippedJob { job: stream.job_id, error }),
            ..run
        },
    }
}

/// The run after the first `count` streams.
pub open spec fn run_jobs(streams: Seq<StreamModel>, count: nat) -> RunModel
    decreases count,
{
    if count == 0 {
        RunModel { objects: Seq::empty(), events: Seq::empty(), anomalies: Seq::empty() }
    } else {
        run_job(run_jobs(streams, (count - 1) as nat), streams[count - 1])
    }
}

/// The run over given records.
pub open spec fn run_of(records: Seq<RecordModel>) -> RunModel {
    run_jobs(grouped(records, records.len()), grouped(records, records.len()).len())
}

/// What holds of a run after the first `count` streams: its objects and
/// events make a log, and each of its events is of the job of one of those
/// streams.
pub open spec fn sound(
    objects: Seq<ObjectModel>,
    events: Seq<EventModel>,
    streams: Seq<StreamModel>,
    count: int,
) -> bool {
    &&& consistent(log_with(objects, events))
    &&& forall|a: int|
        0 <= a < events.len() ==> job_among(streams, count, (#[trigger] events[a]).id.job)
}

/// The events of one more job, and objects that hold the job and its
/// account beside all that were there, keep a run sound.
proof fn lemma_job_keeps_run_sound(
    objects: Seq<ObjectModel>,
    events: Seq<EventModel>,
    streams: Seq<StreamModel>,
    count: int,
    trace: TraceModel,
    base: JobModel,
    after: Seq<ObjectModel>,
)
    requires
        sound(objects, events, streams, count),
        jobs_distinct(streams),
        0 <= count < streams.len(),
        well_formed(trace, base),
        trace.events.len() <= usize::MAX,
        base.job_id == streams[count].job_id,
        keys_distinct(after),
        targets_present(after),
        extends(after, objects),
        has_object(after, job_key(base.job_id)),
        has_object(after, object_key(EntityKind::Account, base.account)),
    ensures
        sound(after, events + trace.events, streams, count + 1),
{
    let joined = events + trace.events;
    let old_count = events.len() as int;
    lemma_event_identifiers_differ(trace, base);
    assert forall|a: int| 0 <= a < joined.len() implies job_among(
        streams,
        count + 1,
        (#[trigger] joined[a]).id.job,
    ) by {
        if a < old_count {
            assert(joined[a] == events[a]);
            let s = choose|s: int|
                0 <= s < count && s < streams.len() && (#[trigger] streams[s]).job_id
                    == events[a].id.job;
            assert(streams[s].job_id == joined[a].id.job);
        } else {
            assert(joined[a] == trace.events[a - old_count]);
            assert(streams[count].job_id == joined[a].id.job);
        }
    }
    assert forall|a: int, b: int| 0 <= a < b < joined.len() implies (#[trigger] joined[a]).id != (
    #[trigger] joined[b]).id by {
        if b < old_count {
            assert(joined[a] == events[a] && joined[b] == events[b]);
        } else if a >= old_count {
            assert(joined[a] == trace.events[a - old_count]);
            assert(joined[b] == trace.events[b - old_count]);
        } else {
            assert(joined[a] == events[a]);
            assert(joined[b] == trace.events[b - old_count]);
            let s = choose|s: int|
                0 <= s < count && s < streams.len() && (#[trigger] streams[s]).job_id
                    == events[a].id.job;
            assert(streams[s].job_id != streams[count].job_id);
        }
    }
    assert forall|a: int, k: int|
        0 <= a < joined.len() && 0 <= k < joined[a].relationships.len() implies has_object(
        after,
        (#[trigger] joined[a].relationships[k]).target,
    ) by {
        if a < old_count {
            assert(joined[a] == events[a]);
            assert(has_object(objects, events[a].relationships[k].target));
            lemma_extends_keeps_objects(after, objects, events[a].relationships[k].target);
        } else {
            let e = trace.events[a - old_count];
            assert(joined[a] == e);
            if a > old_count {
                assert(e.relationships[k].target == job_key(base.job_id));
            }
        }
    }
}

/// A run that is sound after some streams is sound after more of them.
proof fn lemma_skipped_job_keeps_run_sound(
    objects: Seq<ObjectModel>,
    events: Seq<EventModel>,
    streams: Seq<StreamModel>,
    count: int,
)
    requires
        sound(objects, events, streams, count),
    ensures
        sound(objects, events, streams, count + 1),
{
    assert forall|a: int| 0 <= a < events.len() implies job_among(
        streams,
        count + 1,
        (#[trigger] events[a]).id.job,
    ) by {
        let s = choose|s: int|
            0 <= s < count && s < streams.len() && (#[trigger] streams[s]).job_id
                == events[a].id.job;
        assert(streams[s].job_id == events[a].id.job);
    }
}

/// The run that a registry, events and anomalies stand for.
pub open spec fn run_model(
    registry: Registry,
    events: Seq<EventRecord>,
    anomalies: Seq<Anomaly>,
) -> RunModel {
    RunModel { objects: registry@, events: views(events), anomalies: views(anomalies) }
}

/// Takes up the stream of one more job.
fn take_up(
    registry: &mut Registry,
    events: &mut Vec<EventRecord>,
    anomalies: &mut Vec<Anomaly>,
    stream: &JobStream,
    Ghost(streams): Ghost<Seq<StreamModel>>,
    Ghost(count): Ghost<int>,
)
    requires
        old(registry).wf(),
        0 <= count < streams.len(),
        streams[count] == stream@,
    ensures
        final(registry).wf(),
        run_model(*final(registry), final(events)@, final(anomalies)@) == run_job(
            run_model(*old(registry), old(events)@, old(anomalies)@),
            stream@,
        ),
        jobs_distinct(streams) && sound(old(registry)@, views(old(events)@), streams, count)
            ==> sound(final(registry)@, views(final(events)@), streams, count + 1),
{
    let ghost before = run_model(*registry, events@, anomalies@);
    let ghost was_sound = jobs_distinct(streams) && sound(
        registry@,
        views(events@),
        streams,
        count,
    );
    match reconstruct(&stream.job_id, &stream.entries) {
        Err(error) => {
            let finding = Finding::SkippedJob { job: stream.job_id.clone(), error };
            proof {
                lemma_views_push(anomalies@, finding);
                if was_sound {
                    lemma_skipped_job_keeps_run_sound(registry@, views(events@), streams, count);
                }
            }
            anomalies.push(finding);
        },
        Ok(replay) => {
            let mut trace = derive_events(&replay);
            enroll(registry, &replay);
            let ghost replayed = replay@;
            let made = trace.events.len();
            proof {
                if was_sound {
                    lemma_replay_is_of_job(stream@.job_id, stream@.entries);
                    lemma_trace_is_well_formed(replayed);
                    assert(trace@.events.len() == made);
                    lemma_job_keeps_run_sound(
                        before.objects,
                        before.events,
                        streams,
                        count,
                        trace@,
                        replayed.base,
                        registry@,
                    );
                }
                lemma_views_add(events@, trace.events@);
                lemma_views_add(anomalies@, replay.anomalies@);
                lemma_views_add(anomalies@ + replay.anomalies@, trace.anomalies@);
            }
            let mut found = replay.anomalies;
            events.append(&mut trace.events);
            anomalies.append(&mut found);
            anomalies.append(&mut trace.anomalies);
        },
    }
}

/// The numbers of a run.
#[derive(Clone, Copy, Debug, PartialEq, Eq, Structural)]
pub struct RunSummary {
    pub objects: usize,
    pub events: usize,
    pub warnings: usize,
}

/// What a run hands out: the log, the anomalies that were recorded on the
/// way, and the numbers of both.
#[derive(Clone, Debug, PartialEq, Eq)]
pub struct Extraction {
    pub log: EventLog,
    pub anomalies: Vec<Anomaly>,
    pub summary: RunSummary,
}

impl View for Extraction {
    type V = RunModel;

    open spec fn view(&self) -> RunModel {
        RunModel {
            objects: self.log@.objects,
            events: self.log@.events,
            anomalies: views(self.anomalies@),
        }
    }
}

/// Runs over the streams of jobs.
fn run_streams(streams: &Vec<JobStream>) -> (run: (Registry, Vec<EventRecord>, Vec<Anomaly>))
    ensures
        run.0.wf(),
        run_model(run.0, run.1@, run.2@) == run_jobs(views(streams@), streams.len() as nat),
        jobs_distinct(views(streams@)) ==> consistent(log_with(run.0@, views(run.1@))),
{
    let mut registry = Registry::new();
    let mut events: Vec<EventRecord> = Vec::new();
    let mut anomalies: Vec<Anomaly> = Vec::new();
    proof {
        lemma_views_empty::<EventRecord>();
        lemma_views_empty::<Anomaly>();
    }
    let ghost model = views(streams@);
    let mut i: usize = 0;
    while i < streams.len()
        invariant
            i <= streams.len(),
            model == views(streams@),
            registry.wf(),
            jobs_distinct(model) ==> sound(registry@, views(events@), model, i as int),
            run_model(registry, events@, anomalies@) == run_jobs(model, i as nat),
        decreases streams.len() - i,
    {
        take_up(&mut registry, &mut events, &mut anomalies, &streams[i], Ghost(model), Ghost(i as int));
        i = i + 1;
    }
    (registry, events, anomalies)
}

/// Puts a log and the anomalies of its run together with their numbers.
fn conclude(log: EventLog, anomalies: Vec<Anomaly>) -> (extraction: Extraction)
    ensures
        extraction.log == log,
        extraction.anomalies == anomalies,
        extraction.summary.objects == log.objects.len(),
        extraction.summary.events == log.events.len(),
        extraction.summary.warnings == anomalies.len(),
{
    let summary = RunSummary {
        objects: log.objects.len(),
        events: log.events.len(),
        warnings: anomalies.len(),
    };
    Extraction { log, anomalies, summary }
}

/// Whether no two streams are of the same job.
pub fn streams_distinct(streams: &Vec<JobStream>) -> (distinct: bool)
    ensures
        distinct == jobs_distinct(views(streams@)),
{
    let ghost model = views(streams@);
    let mut j: usize = 0;
    while j < streams.len()
        invariant
            j <= streams.len(),
            model == views(streams@),
            forall|a: int, b: int|
                0 <= a < b < j ==> (#[trigger] model[a]).job_id != (#[trigger] model[b]).job_id,
        decreases streams.len() - j,
    {
        let mut i: usize = 0;
        while i < j
            invariant
                i <= j < streams.len(),
                model == views(streams@),
                forall|a: int| 0 <= a < i ==> (#[trigger] model[a]).job_id != model[j as int].job_id,
            decreases j - i,
        {
            if streams[i].job_id == streams[j].job_id {
                assert(model[i as int].job_id == model[j as int].job_id);
                return false;
            }
            i = i + 1;
        }
        j = j + 1;
    }
    true
}

/// The model of the outcome of a run over streams.
pub open spec fn extraction_model(outcome: Result<Extraction, IntegrityError>) -> Result<
    RunModel,
    IntegrityErrorModel,
> {
    match outcome {
        Ok(extraction) => Ok(extraction@),
        Err(breach) => Err(breach@),
    }
}

/// Runs over the streams of jobs. Where no two streams are of the same
/// job, the run makes a log. Where two are, the events and objects of the
/// run are held to what makes a log, and the run fails as a whole if they do
/// not: the error names what is first at fault, and nothing else is handed
/// out.
pub fn extract_streams(streams: &Vec<JobStream>) -> (outcome: Result<Extraction, IntegrityError>)
    ensures
        jobs_distinct(views(streams@)) ==> outcome is Ok,
        match outcome {
            Ok(extraction) => extraction@ == run_jobs(views(streams@), streams.len() as nat)
                && extraction.log@ == log_with(extraction@.objects, extraction@.events)
                && consistent(extraction.log@) && extraction.summary.objects
                == extraction@.objects.len() && extraction.summary.events
                == extraction@.events.len() && extraction.summary.warnings
                == extraction@.anomalies.len(),
            Err(breach) => first_breach(
                log_with(
                    run_jobs(views(streams@), streams.len() as nat).objects,
                    run_jobs(views(streams@), streams.len() as nat).events,
                ),
                breach@,
            ) && !consistent(
                log_with(
                    run_jobs(views(streams@), streams.len() as nat).objects,
                    run_jobs(views(streams@), streams.len() as nat).events,
                ),
            ),
        },
{
    let (registry, events, anomalies) = run_streams(streams);
    if streams_distinct(streams) {
        Ok(conclude(EventLog::with(registry.into_objects(), events), anomalies))
    } else {
        match assemble(registry.into_objects(), events) {
            Ok(log) => Ok(conclude(log, anomalies)),
            Err(breach) => Err(breach),
        }
    }
}

/// Runs over captures of any number of jobs, given in the order in which
/// they are to be replayed. The captures are sorted into one stream for each
/// job, so that the run always makes a log.
pub fn extract(records: &Vec<CaptureRecord>) -> (extraction: Extraction)
    ensures
        extraction@ == run_of(views(records@)),
        extraction.log@ == log_with(extraction@.objects, extraction@.events),
        consistent(extraction.log@),
        extraction.summary.objects == extraction@.objects.len(),
        extraction.summary.events == extraction@.events.len(),
        extraction.summary.warnings == extraction@.anomalies.len(),
{
    let streams = group_by_job(records);
    let (registry, events, anomalies) = run_streams(&streams);
    conclude(EventLog::with(registry.into_objects(), events), anomalies)
}

/// The record of a snapshot of a job, filed under that job.
pub open spec fn snapshot_record(time: Timestamp, job: JobModel) -> RecordModel {
    RecordModel { time, job_id: job.job_id, capture: CaptureModel::Snapshot(job) }
}

/// The records of the snapshots of one instant, in their order.
pub open spec fn batch_records(time: Timestamp, jobs: Seq<JobModel>) -> Seq<RecordModel> {
    Seq::new(jobs.len(), |i: int| snapshot_record(time, jobs[i]))
}

/// The model of what was captured at a number of instants: for each
/// instant, the jobs that were in the queue.
pub open spec fn batches_model(data: Seq<(Timestamp, Vec<JobObservation>)>) -> Seq<
    (Timestamp, Seq<JobModel>),
> {
    Seq::new(data.len(), |i: int| (data[i].0, views(data[i].1@)))
}

/// The records of the snapshots of the first `count` instants: those of
/// one instant after those of the instant before.
pub open spec fn snapshot_records(data: Seq<(Timestamp, Seq<JobModel>)>, count: nat) -> Seq<
    RecordModel,
>
    decreases count,
{
    if count == 0 {
        Seq::empty()
    } else {
        snapshot_records(data, (count - 1) as nat) + batch_records(
            data[count - 1].0,
            data[count - 1].1,
        )
    }
}

/// The records of what was captured at a number of instants.
pub fn snapshot_captures(data: &Vec<(Timestamp, Vec<JobObservation>)>) -> (records: Vec<
    CaptureRecord,
>)
    ensures
        views(records@) == snapshot_records(batches_model(data@), data.len() as nat),
{
    let ghost model = batches_model(data@);
    let mut records: Vec<CaptureRecord> = Vec::new();
    proof {
        lemma_views_empty::<CaptureRecord>();
    }
    let mut i: usize = 0;
    while i < data.len()
        invariant
            i <= data.len(),
            model == batches_model(data@),
            views(records@) == snapshot_records(model, i as nat),
        decreases data.len() - i,
    {
        let time = data[i].0;
        let jobs = &data[i].1;
        let ghost done = views(records@);
        let ghost batch = batch_records(time, views(jobs@));
        let mut k: usize = 0;
        while k < jobs.len()
            invariant
                k <= jobs.len(),
                batch == batch_records(time, views(jobs@)),
                views(records@) == done + batch.take(k as int),
            decreases jobs.len() - k,
        {
            let record = CaptureRecord {
                time,
                job_id: jobs[k].job_id.clone(),
                capture: Capture::Snapshot(jobs[k].duplicate()),
            };
            proof {
                lemma_views_push(records@, record);
                assert((done + batch.take(k as int)).push(batch[k as int]) =~= done + batch.take(
                    k + 1,
                ));
            }
            records.push(record);
            k = k + 1;
        }
        i = i + 1;
    }
    records
}

/// Runs over the queue as it was captured at a number of instants: for
/// each instant, the snapshots of the jobs that were in the queue. For each
/// job the freshest snapshot known up to an instant stands from that instant
/// on.
pub fn extract_ocel(data: Vec<(Timestamp, Vec<JobObservation>)>) -> (extraction: Extraction)
    ensures
        extraction@ == run_of(snapshot_records(batches_model(data@), data.len() as nat)),
        extraction.log@ == log_with(extraction@.objects, extraction@.events),
        consistent(extraction.log@),
        extraction.summary.objects == extraction@.objects.len(),
        extraction.summary.events == extraction@.events.len(),
        extraction.summary.warnings == extraction@.anomalies.len(),
{
    let records = snapshot_captures(&data);
    extract(&records)
}

} // verus!
