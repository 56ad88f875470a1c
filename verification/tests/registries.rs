use job_event_log::enrollment::{command_name, enroll};
use job_event_log::instant::Timestamp;
use job_event_log::job::{Change, FieldChange, Job, JobObservation, Lifecycle};
use job_event_log::record::{
    state_label, EntityKind, JobAttribute, ObjectKey, ObjectRecord, Qualifier, Relation, Value,
    Version,
};
use job_event_log::registry::{has_relationship, Registry};
use job_event_log::replay::{reconstruct, Capture, Entry};

fn at(secs: i64) -> Timestamp {
    Timestamp::new(secs, 0)
}

fn pending(id: &str) -> JobObservation {
    Job {
        job_id: id.to_string(),
        command: "run.sh".to_string(),
        work_dir: "/home/u".to_string(),
        cpus: 4,
        min_memory: "4G".to_string(),
        submit_time: at(100),
        start_time: None,
        state: Lifecycle::Pending,
        account: "A1".to_string(),
        group: "G1".to_string(),
        partition: "batch".to_string(),
        exec_host: None,
        reason: None,
    }
}

fn bare(kind: EntityKind, name: &str) -> ObjectRecord {
    ObjectRecord {
        id: ObjectKey { kind, name: name.to_string() },
        attributes: Vec::new(),
        relationships: Vec::new(),
    }
}

fn related(kind: EntityKind, name: &str, qualifier: Qualifier) -> Relation<String> {
    Relation { target: ObjectKey { kind, name: name.to_string() }, qualifier }
}

fn text(name: JobAttribute, value: &str, secs: i64) -> Version<String> {
    Version { name, value: Value::Text(value.to_string()), observed_at: at(secs) }
}

fn enrolled(base: JobObservation, deltas: Vec<(i64, Vec<FieldChange>)>) -> Registry {
    let job = base.job_id.clone();
    let mut entries = vec![Entry { time: at(105), capture: Capture::Snapshot(base) }];
    for (secs, changes) in deltas {
        entries.push(Entry { time: at(secs), capture: Capture::Delta(changes) });
    }
    let replay = reconstruct(&job, &entries).unwrap();
    let mut registry = Registry::new();
    enroll(&mut registry, &replay);
    registry
}

#[test]
fn a_new_registry_is_empty() {
    let registry = Registry::new();
    assert_eq!(registry.len(), 0);
    assert_eq!(registry.objects(), &Vec::new());
    assert_eq!(registry.find(EntityKind::Account, &"A1".to_string()), None);
}

#[test]
fn registering_twice_yields_one_object() {
    let mut registry = Registry::new();
    let first = registry.register(EntityKind::Account, &"A1".to_string());
    let second = registry.register(EntityKind::Account, &"A1".to_string());
    assert_eq!(first, second);
    assert_eq!(registry.len(), 1);
    assert_eq!(registry.objects(), &vec![bare(EntityKind::Account, "A1")]);
}

#[test]
fn the_same_name_under_two_kinds_is_two_objects() {
    let mut registry = Registry::new();
    let account = registry.register(EntityKind::Account, &"shared".to_string());
    let partition = registry.register(EntityKind::Partition, &"shared".to_string());
    let again = registry.register(EntityKind::Account, &"shared".to_string());
    assert_eq!(account, 0);
    assert_eq!(partition, 1);
    assert_eq!(again, 0);
    assert_eq!(
        registry.into_objects(),
        vec![bare(EntityKind::Account, "shared"), bare(EntityKind::Partition, "shared")]
    );
}

#[test]
fn objects_are_found_where_they_were_entered() {
    let mut registry = Registry::new();
    registry.register(EntityKind::Account, &"A1".to_string());
    registry.register(EntityKind::Group, &"G1".to_string());
    registry.register(EntityKind::Host, &"n01".to_string());
    assert_eq!(registry.find(EntityKind::Group, &"G1".to_string()), Some(1));
    assert_eq!(registry.find(EntityKind::Host, &"n01".to_string()), Some(2));
    assert_eq!(registry.find(EntityKind::Host, &"G1".to_string()), None);
}

#[test]
fn a_value_keeps_the_instant_at_which_it_was_first_observed() {
    let mut registry = Registry::new();
    let slot = registry.register(EntityKind::Job, &"J1".to_string());
    registry.observe(slot, JobAttribute::State, Value::Text("PENDING".to_string()), at(110));
    registry.observe(slot, JobAttribute::State, Value::Text("PENDING".to_string()), at(120));
    assert_eq!(
        registry.objects()[slot].attributes,
        vec![text(JobAttribute::State, "PENDING", 110)]
    );
}

#[test]
fn a_differing_value_becomes_the_newest_version() {
    let mut registry = Registry::new();
    let slot = registry.register(EntityKind::Job, &"J1".to_string());
    registry.observe(slot, JobAttribute::State, Value::Text("PENDING".to_string()), at(110));
    registry.observe(slot, JobAttribute::Cpus, Value::Integer(4), at(110));
    registry.observe(slot, JobAttribute::State, Value::Text("RUNNING".to_string()), at(120));
    registry.observe(slot, JobAttribute::Cpus, Value::Integer(4), at(130));
    registry.observe(slot, JobAttribute::State, Value::Text("PENDING".to_string()), at(140));
    assert_eq!(
        registry.objects()[slot].attributes,
        vec![
            text(JobAttribute::State, "PENDING", 110),
            Version { name: JobAttribute::Cpus, value: Value::Integer(4), observed_at: at(110) },
            text(JobAttribute::State, "RUNNING", 120),
            text(JobAttribute::State, "PENDING", 140),
        ]
    );
}

#[test]
fn a_number_and_a_text_are_different_values() {
    let mut registry = Registry::new();
    let slot = registry.register(EntityKind::Job, &"J1".to_string());
    registry.observe(slot, JobAttribute::Cpus, Value::Integer(4), at(110));
    registry.observe(slot, JobAttribute::Cpus, Value::Text("4".to_string()), at(120));
    assert_eq!(registry.objects()[slot].attributes.len(), 2);
}

#[test]
fn relating_enters_the_target() {
    let mut registry = Registry::new();
    let slot = registry.register(EntityKind::Job, &"J1".to_string());
    registry.relate(slot, EntityKind::Account, &"A1".to_string(), Qualifier::SubmittedBy);
    registry.relate(slot, EntityKind::Account, &"A1".to_string(), Qualifier::Submitter);
    assert_eq!(registry.len(), 2);
    assert_eq!(registry.find(EntityKind::Account, &"A1".to_string()), Some(1));
    assert_eq!(
        registry.objects()[slot].relationships,
        vec![
            related(EntityKind::Account, "A1", Qualifier::SubmittedBy),
            related(EntityKind::Account, "A1", Qualifier::Submitter),
        ]
    );
    assert_eq!(registry.objects()[1], bare(EntityKind::Account, "A1"));
}

#[test]
fn a_job_is_entered_with_the_attributes_and_relationships_of_its_base() {
    let registry = enrolled(pending("J1"), Vec::new());
    let expected = vec![
        ObjectRecord {
            id: ObjectKey { kind: EntityKind::Job, name: "J1".to_string() },
            attributes: vec![
                text(JobAttribute::Command, "run.sh", 105),
                text(JobAttribute::WorkDir, "/home/u", 105),
                Version { name: JobAttribute::Cpus, value: Value::Integer(4), observed_at: at(105) },
                text(JobAttribute::MinMemory, "4G", 105),
                text(JobAttribute::State, "PENDING", 105),
            ],
            relationships: vec![
                related(EntityKind::Account, "A1", Qualifier::SubmittedBy),
                related(EntityKind::Group, "G1", Qualifier::SubmittedByGroup),
                related(EntityKind::Partition, "batch", Qualifier::SubmittedOn),
            ],
        },
        bare(EntityKind::Account, "A1"),
        bare(EntityKind::Group, "G1"),
        bare(EntityKind::Partition, "batch"),
    ];
    assert_eq!(registry.into_objects(), expected);
}

#[test]
fn a_job_with_a_host_is_related_to_it() {
    let mut base = pending("J1");
    base.state = Lifecycle::Running;
    base.exec_host = Some("n01".to_string());
    let registry = enrolled(base, Vec::new());
    let objects = registry.into_objects();
    assert_eq!(objects.len(), 5);
    assert_eq!(
        objects[0].relationships[3],
        related(EntityKind::Host, "n01", Qualifier::ExecutedOn)
    );
    assert_eq!(objects[4], bare(EntityKind::Host, "n01"));
}

#[test]
fn changed_attributes_get_versions_at_the_instant_of_the_step() {
    let registry = enrolled(
        pending("J1"),
        vec![
            (110, vec![Change::State(Lifecycle::Running), Change::Cpus(8)]),
            (120, vec![Change::State(Lifecycle::Other("SUSPENDED".to_string()))]),
            (130, vec![Change::Command("other.sh".to_string())]),
        ],
    );
    let objects = registry.into_objects();
    assert_eq!(
        objects[0].attributes[5..],
        [
            Version { name: JobAttribute::Cpus, value: Value::Integer(8), observed_at: at(110) },
            text(JobAttribute::State, "RUNNING", 110),
            text(JobAttribute::State, "SUSPENDED", 120),
            text(JobAttribute::Command, "other.sh", 130),
        ]
    );
}

#[test]
fn a_job_is_related_to_what_later_steps_name() {
    let registry = enrolled(
        pending("J1"),
        vec![
            (110, vec![Change::ExecHost(Some("n01".to_string()))]),
            (120, vec![Change::Account("A2".to_string()), Change::Partition("gpu".to_string())]),
            (130, vec![Change::Group("G2".to_string()), Change::ExecHost(None)]),
            (140, vec![Change::ExecHost(Some("n02".to_string()))]),
            (150, vec![Change::ExecHost(Some("n01".to_string()))]),
            (160, vec![Change::Account("A1".to_string())]),
        ],
    );
    let objects = registry.into_objects();
    let ids: Vec<(EntityKind, String)> =
        objects.iter().map(|o| (o.id.kind, o.id.name.clone())).collect();
    assert_eq!(
        ids,
        vec![
            (EntityKind::Job, "J1".to_string()),
            (EntityKind::Account, "A1".to_string()),
            (EntityKind::Group, "G1".to_string()),
            (EntityKind::Partition, "batch".to_string()),
            (EntityKind::Host, "n01".to_string()),
            (EntityKind::Account, "A2".to_string()),
            (EntityKind::Partition, "gpu".to_string()),
            (EntityKind::Group, "G2".to_string()),
            (EntityKind::Host, "n02".to_string()),
        ]
    );
    assert_eq!(
        objects[0].relationships,
        vec![
            related(EntityKind::Account, "A1", Qualifier::SubmittedBy),
            related(EntityKind::Group, "G1", Qualifier::SubmittedByGroup),
            related(EntityKind::Partition, "batch", Qualifier::SubmittedOn),
            related(EntityKind::Host, "n01", Qualifier::ExecutedOn),
            related(EntityKind::Account, "A2", Qualifier::SubmittedBy),
            related(EntityKind::Partition, "gpu", Qualifier::SubmittedOn),
            related(EntityKind::Group, "G2", Qualifier::SubmittedByGroup),
            related(EntityKind::Host, "n02", Qualifier::ExecutedOn),
        ]
    );
}

#[test]
fn a_relationship_is_had_once_however_often_it_is_given() {
    let mut registry = Registry::new();
    let slot = registry.register(EntityKind::Job, &"J1".to_string());
    registry.relate(slot, EntityKind::Host, &"n01".to_string(), Qualifier::ExecutedOn);
    registry.relate(slot, EntityKind::Host, &"n02".to_string(), Qualifier::ExecutedOn);
    registry.relate(slot, EntityKind::Host, &"n01".to_string(), Qualifier::ExecutedOn);
    assert_eq!(
        registry.objects()[slot].relationships,
        vec![
            related(EntityKind::Host, "n01", Qualifier::ExecutedOn),
            related(EntityKind::Host, "n02", Qualifier::ExecutedOn),
        ]
    );
    assert_eq!(registry.len(), 3);
    assert!(has_relationship(
        &registry.objects()[slot].relationships,
        &related(EntityKind::Host, "n02", Qualifier::ExecutedOn)
    ));
    assert!(!has_relationship(
        &registry.objects()[slot].relationships,
        &related(EntityKind::Host, "n02", Qualifier::SubmittedOn)
    ));
    assert!(!has_relationship(
        &registry.objects()[slot].relationships,
        &related(EntityKind::Partition, "n02", Qualifier::ExecutedOn)
    ));
}

#[test]
fn two_jobs_share_what_they_both_refer_to() {
    let mut registry = enrolled(pending("J1"), Vec::new());
    let mut second = pending("J2");
    second.partition = "gpu".to_string();
    let entries = vec![Entry { time: at(106), capture: Capture::Snapshot(second) }];
    let replay = reconstruct(&"J2".to_string(), &entries).unwrap();
    enroll(&mut registry, &replay);
    let objects = registry.into_objects();
    let ids: Vec<(EntityKind, String)> =
        objects.iter().map(|o| (o.id.kind, o.id.name.clone())).collect();
    assert_eq!(
        ids,
        vec![
            (EntityKind::Job, "J1".to_string()),
            (EntityKind::Account, "A1".to_string()),
            (EntityKind::Group, "G1".to_string()),
            (EntityKind::Partition, "batch".to_string()),
            (EntityKind::Job, "J2".to_string()),
            (EntityKind::Partition, "gpu".to_string()),
        ]
    );
}

#[test]
fn states_are_recorded_under_their_names() {
    assert_eq!(state_label(&Lifecycle::Pending), "PENDING");
    assert_eq!(state_label(&Lifecycle::Running), "RUNNING");
    assert_eq!(state_label(&Lifecycle::Completing), "COMPLETING");
    assert_eq!(state_label(&Lifecycle::Completed), "COMPLETED");
    assert_eq!(state_label(&Lifecycle::Cancelled), "CANCELLED");
    assert_eq!(state_label(&Lifecycle::Failed), "FAILED");
    assert_eq!(state_label(&Lifecycle::Timeout), "TIMEOUT");
    assert_eq!(state_label(&Lifecycle::OutOfMemory), "OUT_OF_MEMORY");
    assert_eq!(state_label(&Lifecycle::Other("NODE_FAIL".to_string())), "NODE_FAIL");
}

#[test]
fn only_the_file_name_of_a_command_is_kept() {
    assert_eq!(command_name(&"/usr/local/bin/run.sh".to_string()), "run.sh");
    assert_eq!(command_name(&"run.sh".to_string()), "run.sh");
    assert_eq!(command_name(&"./run.sh".to_string()), "run.sh");
    assert_eq!(command_name(&"/opt/jobs/".to_string()), "");
    assert_eq!(command_name(&"/".to_string()), "");
    assert_eq!(command_name(&"".to_string()), "");
    assert_eq!(command_name(&"/hörsaal/übung.sh".to_string()), "übung.sh");
}

#[test]
fn the_command_of_a_job_is_recorded_by_its_file_name() {
    let mut base = pending("J1");
    base.command = "/home/u/jobs/train.sh".to_string();
    let registry = enrolled(
        base,
        vec![
            (110, vec![Change::Command("/scratch/u/train.sh".to_string())]),
            (120, vec![Change::Command("/scratch/u/eval.sh".to_string())]),
        ],
    );
    let objects = registry.into_objects();
    let commands: Vec<&Version<String>> =
        objects[0].attributes.iter().filter(|v| v.name == JobAttribute::Command).collect();
    assert_eq!(
        commands,
        vec![
            &text(JobAttribute::Command, "train.sh", 105),
            &text(JobAttribute::Command, "eval.sh", 120),
        ]
    );
}
