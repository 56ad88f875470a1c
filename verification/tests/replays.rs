use job_event_log::anomaly::{Finding, InputError};
use job_event_log::instant::Timestamp;
use job_event_log::job::{Change, FieldChange, Job, JobObservation, Lifecycle};
use job_event_log::replay::{
    only_snapshots, reconstruct, replay as replay_in_given_order, sort_by_time, Capture, Entry,
    Step,
};

fn at(secs: i64) -> Timestamp {
    Timestamp::new(secs, 0)
}

fn pending(id: &str) -> JobObservation {
    Job {
        job_id: id.to_string(),
        command: "run.sh".to_string(),
        work_dir: "/home/u".to_string(),
        cpus: 4,
        min_memory: "4G".to_string(),
        submit_time: at(100),
        start_time: None,
        state: Lifecycle::Pending,
        account: "A1".to_string(),
        group: "G1".to_string(),
        partition: "batch".to_string(),
        exec_host: None,
        reason: None,
    }
}

fn snapshot(secs: i64, job: JobObservation) -> Entry {
    Entry { time: at(secs), capture: Capture::Snapshot(job) }
}

fn delta(secs: i64, changes: Vec<FieldChange>) -> Entry {
    Entry { time: at(secs), capture: Capture::Delta(changes) }
}

#[test]
fn no_captures_is_a_missing_base() {
    assert_eq!(reconstruct(&"J1".to_string(), &Vec::new()), Err(InputError::MissingBase));
}

#[test]
fn a_delta_first_is_a_missing_base() {
    let entries = vec![
        delta(110, vec![Change::State(Lifecycle::Running)]),
        snapshot(120, pending("J1")),
    ];
    assert_eq!(reconstruct(&"J1".to_string(), &entries), Err(InputError::MissingBase));
}

#[test]
fn a_base_of_another_job_is_malformed() {
    let entries = vec![snapshot(110, pending("J2"))];
    assert_eq!(reconstruct(&"J1".to_string(), &entries), Err(InputError::MalformedBase));
}

#[test]
fn a_base_alone_has_no_steps() {
    let entries = vec![snapshot(110, pending("J1"))];
    let replay = reconstruct(&"J1".to_string(), &entries).unwrap();
    assert_eq!(replay.base_time, at(110));
    assert_eq!(replay.base, pending("J1"));
    assert_eq!(replay.steps, Vec::new());
    assert_eq!(replay.anomalies, Vec::new());
}

#[test]
fn deltas_are_cumulative() {
    let entries = vec![
        snapshot(110, pending("J1")),
        delta(120, vec![Change::State(Lifecycle::Running), Change::Cpus(8)]),
        delta(130, vec![Change::State(Lifecycle::Completing)]),
    ];
    let replay = reconstruct(&"J1".to_string(), &entries).unwrap();
    let mut first = pending("J1");
    first.state = Lifecycle::Running;
    first.cpus = 8;
    let mut second = first.clone();
    second.state = Lifecycle::Completing;
    let expected = vec![
        Step {
            time: at(120),
            state: first,
            changed: vec![Change::Cpus(8), Change::State(Lifecycle::Running)],
        },
        Step {
            time: at(130),
            state: second,
            changed: vec![Change::State(Lifecycle::Completing)],
        },
    ];
    assert_eq!(replay.steps, expected);
    assert_eq!(replay.anomalies, Vec::new());
}

#[test]
fn a_change_to_the_value_that_stands_is_not_a_changed_field() {
    let entries = vec![
        snapshot(110, pending("J1")),
        delta(120, vec![Change::State(Lifecycle::Pending), Change::Cpus(4)]),
    ];
    let replay = reconstruct(&"J1".to_string(), &entries).unwrap();
    assert_eq!(replay.steps.len(), 1);
    assert_eq!(replay.steps[0].state, pending("J1"));
    assert_eq!(replay.steps[0].changed, Vec::new());
}

#[test]
fn a_late_delta_is_applied_and_recorded() {
    let entries = vec![
        snapshot(110, pending("J1")),
        delta(130, vec![Change::State(Lifecycle::Running)]),
        delta(120, vec![Change::ExecHost(Some("n01".to_string()))]),
    ];
    let replay = reconstruct(&"J1".to_string(), &entries).unwrap();
    assert_eq!(replay.steps.len(), 2);
    let mut expected = pending("J1");
    expected.state = Lifecycle::Running;
    expected.exec_host = Some("n01".to_string());
    assert_eq!(replay.steps[1].time, at(120));
    assert_eq!(replay.steps[1].state, expected);
    assert_eq!(replay.steps[1].changed, vec![Change::ExecHost(Some("n01".to_string()))]);
    assert_eq!(
        replay.anomalies,
        vec![Finding::TemporalInversion {
            job: "J1".to_string(),
            previous: at(130),
            current: at(120),
        }]
    );
}

#[test]
fn a_delta_at_the_same_instant_is_no_inversion() {
    let entries = vec![
        snapshot(110, pending("J1")),
        delta(110, vec![Change::State(Lifecycle::Running)]),
        delta(110, vec![Change::StartTime(Some(at(110)))]),
    ];
    let replay = reconstruct(&"J1".to_string(), &entries).unwrap();
    assert_eq!(replay.anomalies, Vec::new());
    assert_eq!(replay.steps.len(), 2);
}

#[test]
fn the_instant_applied_last_is_that_of_the_late_delta() {
    let entries = vec![
        snapshot(110, pending("J1")),
        delta(130, vec![Change::Cpus(1)]),
        delta(120, vec![Change::Cpus(2)]),
        delta(125, vec![Change::Cpus(3)]),
    ];
    let replay = reconstruct(&"J1".to_string(), &entries).unwrap();
    assert_eq!(replay.anomalies.len(), 1);
    assert_eq!(replay.steps[2].state.cpus, 3);
}

#[test]
fn snapshots_alone_are_replayed_in_the_order_of_their_instants() {
    let mut running = pending("J1");
    running.state = Lifecycle::Running;
    let mut done = pending("J1");
    done.state = Lifecycle::Completed;
    let entries = vec![
        snapshot(130, done.clone()),
        snapshot(110, pending("J1")),
        snapshot(120, running.clone()),
    ];
    let replay = reconstruct(&"J1".to_string(), &entries).unwrap();
    assert_eq!(replay.base_time, at(110));
    assert_eq!(replay.base, pending("J1"));
    let expected = vec![
        Step {
            time: at(120),
            state: running,
            changed: vec![Change::State(Lifecycle::Running)],
        },
        Step {
            time: at(130),
            state: done,
            changed: vec![Change::State(Lifecycle::Completed)],
        },
    ];
    assert_eq!(replay.steps, expected);
    assert_eq!(replay.anomalies, Vec::new());
}

#[test]
fn snapshots_of_one_instant_keep_the_order_in_which_they_are_given() {
    let mut first = pending("J1");
    first.cpus = 1;
    let mut second = pending("J1");
    second.cpus = 2;
    let mut third = pending("J1");
    third.cpus = 3;
    let entries = vec![
        snapshot(120, first.clone()),
        snapshot(110, pending("J1")),
        snapshot(120, second.clone()),
        snapshot(110, third.clone()),
    ];
    assert_eq!(
        sort_by_time(&entries),
        vec![
            snapshot(110, pending("J1")),
            snapshot(110, third),
            snapshot(120, first),
            snapshot(120, second),
        ]
    );
}

#[test]
fn instants_are_compared_to_the_nanosecond() {
    let early = Entry { time: Timestamp::new(110, 5), capture: Capture::Snapshot(pending("J1")) };
    let late = Entry { time: Timestamp::new(110, 6), capture: Capture::Snapshot(pending("J1")) };
    assert_eq!(sort_by_time(&vec![late.clone(), early.clone()]), vec![early, late]);
}

#[test]
fn entries_with_a_delta_are_not_put_in_order() {
    let entries = vec![
        snapshot(110, pending("J1")),
        delta(130, vec![Change::Cpus(1)]),
        delta(120, vec![Change::Cpus(2)]),
    ];
    assert!(!only_snapshots(&entries));
    assert!(only_snapshots(&entries[..1].to_vec()));
    assert!(only_snapshots(&Vec::new()));
    let replay = reconstruct(&"J1".to_string(), &entries).unwrap();
    assert_eq!(replay.steps[0].time, at(130));
    assert_eq!(replay.steps[1].time, at(120));
    assert_eq!(replay.steps[1].state.cpus, 2);
    assert_eq!(replay, replay_in_given_order(&"J1".to_string(), &entries).unwrap());
}

#[test]
fn among_deltas_an_older_snapshot_leaves_the_fresher_state_standing() {
    let mut older = pending("J1");
    older.cpus = 16;
    let entries = vec![
        snapshot(110, pending("J1")),
        delta(130, vec![Change::State(Lifecycle::Running)]),
        snapshot(120, older),
    ];
    let replay = reconstruct(&"J1".to_string(), &entries).unwrap();
    let mut running = pending("J1");
    running.state = Lifecycle::Running;
    let expected = vec![
        Step {
            time: at(130),
            state: running.clone(),
            changed: vec![Change::State(Lifecycle::Running)],
        },
        Step { time: at(120), state: running, changed: Vec::new() },
    ];
    assert_eq!(replay.steps, expected);
    assert_eq!(replay.anomalies, Vec::new());
}

#[test]
fn the_earliest_snapshot_is_the_base_and_must_be_of_the_job() {
    let entries = vec![snapshot(120, pending("J1")), snapshot(110, pending("J2"))];
    assert_eq!(reconstruct(&"J1".to_string(), &entries), Err(InputError::MalformedBase));
    let entries = vec![snapshot(110, pending("J1")), snapshot(120, pending("J2"))];
    assert!(reconstruct(&"J1".to_string(), &entries).is_ok());
}

#[test]
fn a_later_snapshot_of_another_job_is_passed_over() {
    let mut other = pending("J2");
    other.state = Lifecycle::Running;
    let entries = vec![snapshot(110, pending("J1")), snapshot(120, other)];
    let replay = reconstruct(&"J1".to_string(), &entries).unwrap();
    assert_eq!(replay.steps, Vec::new());
    assert_eq!(
        replay.anomalies,
        vec![Finding::ForeignSnapshot { job: "J1".to_string(), at: at(120) }]
    );
}

#[test]
fn a_snapshot_after_deltas_lists_what_differs_from_the_replayed_state() {
    let mut later = pending("J1");
    later.state = Lifecycle::Running;
    later.cpus = 8;
    let entries = vec![
        snapshot(110, pending("J1")),
        delta(120, vec![Change::State(Lifecycle::Running)]),
        snapshot(130, later.clone()),
    ];
    let replay = reconstruct(&"J1".to_string(), &entries).unwrap();
    assert_eq!(replay.steps[1].state, later);
    assert_eq!(replay.steps[1].changed, vec![Change::Cpus(8)]);
}
