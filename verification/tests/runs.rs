use job_event_log::anomaly::{Finding, InputError};
use job_event_log::assembly::assemble;
use job_event_log::assembly::Breach;
use job_event_log::extraction::{
    extract, extract_ocel, extract_streams, group_by_job, snapshot_captures, streams_distinct,
    CaptureRecord, Extraction, JobStream, RunSummary,
};
use job_event_log::instant::Timestamp;
use job_event_log::job::{Change, FieldChange, Job, JobObservation, Lifecycle};
use job_event_log::record::{
    EntityKind, EventCategory, EventKey, EventRecord, ObjectKey, Qualifier, Relation,
};
use job_event_log::replay::{Capture, Entry};

fn at(secs: i64) -> Timestamp {
    Timestamp::new(secs, 0)
}

fn job(id: &str, account: &str, partition: &str) -> JobObservation {
    Job {
        job_id: id.to_string(),
        command: "run.sh".to_string(),
        work_dir: "/home/u".to_string(),
        cpus: 4,
        min_memory: "4G".to_string(),
        submit_time: at(1000),
        start_time: None,
        state: Lifecycle::Pending,
        account: account.to_string(),
        group: "G1".to_string(),
        partition: partition.to_string(),
        exec_host: None,
        reason: None,
    }
}

fn snapshot(secs: i64, observed: JobObservation) -> CaptureRecord {
    CaptureRecord {
        time: at(secs),
        job_id: observed.job_id.clone(),
        capture: Capture::Snapshot(observed),
    }
}

fn delta(secs: i64, id: &str, changes: Vec<FieldChange>) -> CaptureRecord {
    CaptureRecord { time: at(secs), job_id: id.to_string(), capture: Capture::Delta(changes) }
}

fn key(kind: EntityKind, name: &str) -> ObjectKey<String> {
    ObjectKey { kind, name: name.to_string() }
}

fn job_event(id: &str, ordinal: usize, category: EventCategory, secs: i64) -> EventRecord {
    EventRecord {
        id: EventKey { job: id.to_string(), ordinal },
        category,
        time: at(secs),
        relationships: vec![Relation { target: key(EntityKind::Job, id), qualifier: Qualifier::Job }],
        reason: None,
    }
}

fn submit_event(id: &str, account: &str, secs: i64) -> EventRecord {
    EventRecord {
        id: EventKey { job: id.to_string(), ordinal: 0 },
        category: EventCategory::Submit,
        time: at(secs),
        relationships: vec![
            Relation { target: key(EntityKind::Job, id), qualifier: Qualifier::Job },
            Relation { target: key(EntityKind::Account, account), qualifier: Qualifier::Submitter },
        ],
        reason: None,
    }
}

fn kinds(extraction: &Extraction, kind: EntityKind) -> Vec<String> {
    extraction
        .log
        .objects
        .iter()
        .filter(|o| o.id.kind == kind)
        .map(|o| o.id.name.clone())
        .collect()
}

fn all_identifiers_differ(extraction: &Extraction) -> bool {
    let events = &extraction.log.events;
    let objects = &extraction.log.objects;
    for j in 0..events.len() {
        for i in 0..j {
            if events[i].id == events[j].id {
                return false;
            }
        }
    }
    for j in 0..objects.len() {
        for i in 0..j {
            if objects[i].id == objects[j].id {
                return false;
            }
        }
    }
    true
}

#[test]
fn one_job_from_submission_to_completion() {
    let records = vec![
        snapshot(1000, job("J1", "A1", "batch")),
        delta(
            1010,
            "J1",
            vec![Change::State(Lifecycle::Running), Change::StartTime(Some(at(1010)))],
        ),
        delta(1020, "J1", vec![Change::State(Lifecycle::Completing)]),
        delta(1030, "J1", vec![Change::State(Lifecycle::Completed)]),
    ];
    let extraction = extract(&records);
    assert_eq!(
        extraction.log.events,
        vec![
            submit_event("J1", "A1", 1000),
            job_event("J1", 1, EventCategory::Started, 1010),
            job_event("J1", 2, EventCategory::Ending, 1020),
            job_event("J1", 3, EventCategory::Completed, 1030),
        ]
    );
    assert_eq!(kinds(&extraction, EntityKind::Job), vec!["J1".to_string()]);
    assert_eq!(kinds(&extraction, EntityKind::Account), vec!["A1".to_string()]);
    assert_eq!(kinds(&extraction, EntityKind::Partition), vec!["batch".to_string()]);
    assert_eq!(kinds(&extraction, EntityKind::Group), vec!["G1".to_string()]);
    assert_eq!(kinds(&extraction, EntityKind::Host), Vec::<String>::new());
    let related: Vec<ObjectKey<String>> =
        extraction.log.objects[0].relationships.iter().map(|r| r.target.clone()).collect();
    assert!(related.contains(&key(EntityKind::Account, "A1")));
    assert!(related.contains(&key(EntityKind::Partition, "batch")));
    assert!(all_identifiers_differ(&extraction));
    assert_eq!(extraction.anomalies, Vec::new());
    assert_eq!(extraction.summary, RunSummary { objects: 4, events: 4, warnings: 0 });
}

#[test]
fn the_started_event_is_at_the_start_time_in_either_order() {
    let together = extract(&vec![
        snapshot(1000, job("J1", "A1", "batch")),
        delta(
            1010,
            "J1",
            vec![Change::State(Lifecycle::Running), Change::StartTime(Some(at(1010)))],
        ),
    ]);
    let reordered = extract(&vec![
        snapshot(1000, job("J1", "A1", "batch")),
        delta(1010, "J1", vec![Change::State(Lifecycle::Running)]),
        delta(1010, "J1", vec![Change::StartTime(Some(at(1010)))]),
    ]);
    let started = job_event("J1", 1, EventCategory::Started, 1010);
    assert_eq!(together.log.events[1], started);
    assert_eq!(reordered.log.events[1], started);
    assert_eq!(together.log.events, reordered.log.events);
}

#[test]
fn the_started_event_takes_the_start_time_when_it_is_replayed_later() {
    let reordered = extract(&vec![
        snapshot(1000, job("J1", "A1", "batch")),
        delta(1012, "J1", vec![Change::State(Lifecycle::Running)]),
        delta(1015, "J1", vec![Change::StartTime(Some(at(1010)))]),
    ]);
    assert_eq!(reordered.log.events[1], job_event("J1", 1, EventCategory::Started, 1010));
    assert_eq!(reordered.log.events.len(), 2);
}

#[test]
fn captures_of_several_jobs_are_sorted_by_job() {
    let records = vec![
        snapshot(1000, job("J1", "A1", "batch")),
        snapshot(1001, job("J2", "A1", "gpu")),
        delta(1010, "J1", vec![Change::State(Lifecycle::Running)]),
        delta(1011, "J2", vec![Change::State(Lifecycle::Cancelled)]),
        delta(1020, "J1", vec![Change::State(Lifecycle::Timeout)]),
    ];
    let streams = group_by_job(&records);
    assert_eq!(
        streams,
        vec![
            JobStream {
                job_id: "J1".to_string(),
                entries: vec![
                    Entry { time: at(1000), capture: Capture::Snapshot(job("J1", "A1", "batch")) },
                    Entry {
                        time: at(1010),
                        capture: Capture::Delta(vec![Change::State(Lifecycle::Running)]),
                    },
                    Entry {
                        time: at(1020),
                        capture: Capture::Delta(vec![Change::State(Lifecycle::Timeout)]),
                    },
                ],
            },
            JobStream {
                job_id: "J2".to_string(),
                entries: vec![
                    Entry { time: at(1001), capture: Capture::Snapshot(job("J2", "A1", "gpu")) },
                    Entry {
                        time: at(1011),
                        capture: Capture::Delta(vec![Change::State(Lifecycle::Cancelled)]),
                    },
                ],
            },
        ]
    );
    let extraction = extract(&records);
    assert_eq!(
        extraction.log.events,
        vec![
            submit_event("J1", "A1", 1000),
            job_event("J1", 1, EventCategory::Started, 1010),
            job_event("J1", 2, EventCategory::Timeout, 1020),
            submit_event("J2", "A1", 1000),
            job_event("J2", 1, EventCategory::Cancelled, 1011),
        ]
    );
    assert_eq!(kinds(&extraction, EntityKind::Account), vec!["A1".to_string()]);
    assert_eq!(
        kinds(&extraction, EntityKind::Partition),
        vec!["batch".to_string(), "gpu".to_string()]
    );
    assert!(all_identifiers_differ(&extraction));
    assert_eq!(extraction.summary, RunSummary { objects: 6, events: 5, warnings: 0 });
    assert!(streams_distinct(&streams));
    assert_eq!(extract_streams(&streams), Ok(extraction));
}

#[test]
fn a_job_without_a_base_is_left_out_and_the_others_go_on() {
    let records = vec![
        delta(1005, "J0", vec![Change::State(Lifecycle::Running)]),
        snapshot(1000, job("J1", "A1", "batch")),
        snapshot(1006, job("J0", "A0", "debug")),
        delta(1010, "J1", vec![Change::State(Lifecycle::Running)]),
    ];
    let extraction = extract(&records);
    assert_eq!(
        extraction.log.events,
        vec![
            submit_event("J1", "A1", 1000),
            job_event("J1", 1, EventCategory::Started, 1010),
        ]
    );
    assert_eq!(kinds(&extraction, EntityKind::Job), vec!["J1".to_string()]);
    assert_eq!(kinds(&extraction, EntityKind::Account), vec!["A1".to_string()]);
    assert_eq!(
        extraction.anomalies,
        vec![Finding::SkippedJob { job: "J0".to_string(), error: InputError::MissingBase }]
    );
    assert_eq!(extraction.summary, RunSummary { objects: 4, events: 2, warnings: 1 });
}

#[test]
fn a_job_with_a_base_of_another_job_is_left_out() {
    let records = vec![CaptureRecord {
        time: at(1000),
        job_id: "J1".to_string(),
        capture: Capture::Snapshot(job("J2", "A1", "batch")),
    }];
    let extraction = extract(&records);
    assert_eq!(extraction.log.events, Vec::new());
    assert_eq!(extraction.log.objects, Vec::new());
    assert_eq!(
        extraction.anomalies,
        vec![Finding::SkippedJob { job: "J1".to_string(), error: InputError::MalformedBase }]
    );
}

#[test]
fn anomalies_of_replay_come_before_those_of_the_lifecycle() {
    let records = vec![
        snapshot(1000, job("J1", "A1", "batch")),
        delta(1020, "J1", vec![Change::State(Lifecycle::Other("SUSPENDED".to_string()))]),
        delta(1010, "J1", vec![Change::State(Lifecycle::Running)]),
    ];
    let extraction = extract(&records);
    assert_eq!(
        extraction.anomalies,
        vec![
            Finding::TemporalInversion {
                job: "J1".to_string(),
                previous: at(1020),
                current: at(1010),
            },
            Finding::UnknownState {
                job: "J1".to_string(),
                at: at(1020),
                label: "SUSPENDED".to_string(),
            },
        ]
    );
    assert_eq!(extraction.log.events[1], job_event("J1", 1, EventCategory::Started, 1010));
    assert_eq!(extraction.summary.warnings, 2);
}

#[test]
fn a_job_that_is_running_when_the_queue_is_first_captured_has_started() {
    let mut running = job("J1", "A1", "batch");
    running.state = Lifecycle::Running;
    running.start_time = Some(at(990));
    running.exec_host = Some("n01".to_string());
    let mut done = running.clone();
    done.state = Lifecycle::Completed;
    let data = vec![(at(1000), vec![running]), (at(1020), vec![done])];
    let extraction = extract_ocel(data);
    assert_eq!(
        extraction.log.events,
        vec![
            submit_event("J1", "A1", 1000),
            job_event("J1", 1, EventCategory::Started, 990),
            job_event("J1", 2, EventCategory::Completed, 1020),
        ]
    );
    assert_eq!(kinds(&extraction, EntityKind::Host), vec!["n01".to_string()]);
    assert_eq!(extraction.log.objects[0].relationships.len(), 4);
}

#[test]
fn two_streams_of_one_job_do_not_make_a_log() {
    let stream = JobStream {
        job_id: "J1".to_string(),
        entries: vec![Entry {
            time: at(1000),
            capture: Capture::Snapshot(job("J1", "A1", "batch")),
        }],
    };
    let other = JobStream {
        job_id: "J2".to_string(),
        entries: vec![Entry {
            time: at(1000),
            capture: Capture::Snapshot(job("J2", "A1", "batch")),
        }],
    };
    let streams = vec![stream.clone(), other, stream];
    assert!(!streams_distinct(&streams));
    assert_eq!(
        extract_streams(&streams),
        Err(Breach::DuplicateEvent(EventKey { job: "J1".to_string(), ordinal: 0 }))
    );
}

#[test]
fn a_second_stream_of_a_job_that_cannot_be_replayed_does_no_harm() {
    let stream = JobStream {
        job_id: "J1".to_string(),
        entries: vec![Entry {
            time: at(1000),
            capture: Capture::Snapshot(job("J1", "A1", "batch")),
        }],
    };
    let empty = JobStream { job_id: "J1".to_string(), entries: Vec::new() };
    let extraction = extract_streams(&vec![stream, empty]).unwrap();
    assert_eq!(extraction.log.events, vec![submit_event("J1", "A1", 1000)]);
    assert_eq!(
        extraction.anomalies,
        vec![Finding::SkippedJob { job: "J1".to_string(), error: InputError::MissingBase }]
    );
    assert_eq!(extraction.summary, RunSummary { objects: 4, events: 1, warnings: 1 });
}

#[test]
fn no_captures_make_an_empty_log() {
    let extraction = extract(&Vec::new());
    assert_eq!(extraction.log.events, Vec::new());
    assert_eq!(extraction.log.objects, Vec::new());
    assert_eq!(extraction.anomalies, Vec::new());
    assert_eq!(extraction.summary, RunSummary { objects: 0, events: 0, warnings: 0 });
}

#[test]
fn the_log_of_a_run_passes_assembly() {
    let records = vec![
        snapshot(1000, job("J1", "A1", "batch")),
        snapshot(1001, job("J2", "A2", "batch")),
        delta(1010, "J1", vec![Change::State(Lifecycle::Running), Change::Account("A3".to_string())]),
        delta(1011, "J2", vec![Change::ExecHost(Some("n01".to_string()))]),
    ];
    let extraction = extract(&records);
    let log = assemble(extraction.log.objects.clone(), extraction.log.events.clone());
    assert_eq!(log, Ok(extraction.log));
}

#[test]
fn the_runs_of_one_job_taken_twice_do_not_assemble() {
    let records = vec![snapshot(1000, job("J1", "A1", "batch"))];
    let first = extract(&records);
    let second = extract(&records);
    let mut objects = first.log.objects;
    let mut events = first.log.events;
    objects.extend(second.log.objects);
    events.extend(second.log.events);
    assert!(assemble(objects, events).is_err());
}

#[test]
fn snapshots_of_several_instants_become_records_in_their_order() {
    let mut running = job("J1", "A1", "batch");
    running.state = Lifecycle::Running;
    let data = vec![
        (at(1000), vec![job("J1", "A1", "batch"), job("J2", "A2", "batch")]),
        (at(1010), Vec::new()),
        (at(1020), vec![running.clone()]),
    ];
    assert_eq!(
        snapshot_captures(&data),
        vec![
            snapshot(1000, job("J1", "A1", "batch")),
            snapshot(1000, job("J2", "A2", "batch")),
            snapshot(1020, running),
        ]
    );
}

#[test]
fn the_queue_as_captured_over_time() {
    let mut running = job("J1", "A1", "batch");
    running.state = Lifecycle::Running;
    running.start_time = Some(at(1015));
    running.exec_host = Some("n01".to_string());
    let mut done = running.clone();
    done.state = Lifecycle::Completed;
    let data = vec![
        (at(1000), vec![job("J1", "A1", "batch")]),
        (at(1020), vec![running, job("J2", "A1", "batch")]),
        (at(1040), vec![done, job("J2", "A1", "batch")]),
    ];
    let extraction = extract_ocel(data);
    assert_eq!(
        extraction.log.events,
        vec![
            submit_event("J1", "A1", 1000),
            job_event("J1", 1, EventCategory::Started, 1015),
            job_event("J1", 2, EventCategory::Completed, 1040),
            submit_event("J2", "A1", 1000),
        ]
    );
    assert_eq!(kinds(&extraction, EntityKind::Job), vec!["J1".to_string(), "J2".to_string()]);
    assert_eq!(kinds(&extraction, EntityKind::Host), vec!["n01".to_string()]);
    assert_eq!(
        extraction.log.objects[0].relationships[3],
        Relation { target: key(EntityKind::Host, "n01"), qualifier: Qualifier::ExecutedOn }
    );
    assert_eq!(extraction.log.objects[0].relationships.len(), 4);
    assert!(all_identifiers_differ(&extraction));
    assert_eq!(extraction.anomalies, Vec::new());
}

#[test]
fn snapshots_out_of_order_are_taken_in_the_order_of_their_instants() {
    let mut done = job("J1", "A1", "batch");
    done.state = Lifecycle::Completed;
    let mut running = job("J1", "A1", "batch");
    running.state = Lifecycle::Running;
    let data = vec![
        (at(1040), vec![done]),
        (at(1000), vec![job("J1", "A1", "batch")]),
        (at(1020), vec![running]),
    ];
    let extraction = extract_ocel(data);
    assert_eq!(
        extraction.log.events,
        vec![
            submit_event("J1", "A1", 1000),
            job_event("J1", 1, EventCategory::Started, 1020),
            job_event("J1", 2, EventCategory::Completed, 1040),
        ]
    );
    assert_eq!(extraction.anomalies, Vec::new());
}
