use job_event_log::assembly::{
    assemble, holds, repeated_event, repeated_object, stray, Breach, EventLog,
};
use job_event_log::schema::{event_types, object_types};
use job_event_log::instant::Timestamp;
use job_event_log::record::{
    EntityKind, EventCategory, EventKey, EventRecord, ObjectKey, ObjectRecord, Qualifier,
    Relation,
};

fn key(kind: EntityKind, name: &str) -> ObjectKey<String> {
    ObjectKey { kind, name: name.to_string() }
}

fn object(kind: EntityKind, name: &str) -> ObjectRecord {
    ObjectRecord { id: key(kind, name), attributes: Vec::new(), relationships: Vec::new() }
}

fn job_object(name: &str, account: &str) -> ObjectRecord {
    ObjectRecord {
        id: key(EntityKind::Job, name),
        attributes: Vec::new(),
        relationships: vec![Relation {
            target: key(EntityKind::Account, account),
            qualifier: Qualifier::SubmittedBy,
        }],
    }
}

fn event(job: &str, ordinal: usize, category: EventCategory) -> EventRecord {
    EventRecord {
        id: EventKey { job: job.to_string(), ordinal },
        category,
        time: Timestamp::new(100 + ordinal as i64, 0),
        relationships: vec![Relation {
            target: key(EntityKind::Job, job),
            qualifier: Qualifier::Job,
        }],
        reason: None,
    }
}

#[test]
fn nothing_makes_an_empty_log() {
    let log = assemble(Vec::new(), Vec::new()).unwrap();
    assert_eq!(log.objects, Vec::new());
    assert_eq!(log.events, Vec::new());
}

#[test]
fn a_log_declares_all_kinds_and_categories() {
    let log = assemble(Vec::new(), Vec::new()).unwrap();
    assert_eq!(log.object_types, object_types());
    assert_eq!(log.event_types, event_types());
    assert_eq!(log.object_types.len(), 5);
    assert_eq!(log.event_types.len(), 8);
    assert_eq!(EventLog::with(Vec::new(), Vec::new()), log);
}

#[test]
fn sound_parts_are_handed_back_as_the_log() {
    let objects = vec![job_object("J1", "A1"), object(EntityKind::Account, "A1")];
    let events = vec![
        event("J1", 0, EventCategory::Submit),
        event("J1", 1, EventCategory::Started),
    ];
    let log = assemble(objects.clone(), events.clone()).unwrap();
    assert_eq!(log.objects, objects);
    assert_eq!(log.events, events);
}

#[test]
fn a_repeated_event_identifier_is_named() {
    let objects = vec![object(EntityKind::Job, "J1"), object(EntityKind::Job, "J2")];
    let events = vec![
        event("J1", 0, EventCategory::Submit),
        event("J2", 0, EventCategory::Submit),
        event("J1", 1, EventCategory::Started),
        event("J2", 0, EventCategory::Started),
        event("J1", 1, EventCategory::Ending),
    ];
    assert_eq!(
        assemble(objects, events),
        Err(Breach::DuplicateEvent(EventKey { job: "J2".to_string(), ordinal: 0 }))
    );
}

#[test]
fn events_of_one_number_under_two_jobs_are_different_events() {
    let objects = vec![object(EntityKind::Job, "J1"), object(EntityKind::Job, "J2")];
    let events = vec![
        event("J1", 0, EventCategory::Submit),
        event("J2", 0, EventCategory::Submit),
    ];
    assert!(assemble(objects, events).is_ok());
}

#[test]
fn a_repeated_object_identifier_is_named() {
    let objects = vec![
        object(EntityKind::Job, "J1"),
        object(EntityKind::Account, "A1"),
        object(EntityKind::Account, "A1"),
        object(EntityKind::Job, "J1"),
    ];
    assert_eq!(
        assemble(objects, vec![event("J1", 0, EventCategory::Submit)]),
        Err(Breach::DuplicateObject(key(EntityKind::Account, "A1")))
    );
}

#[test]
fn objects_of_one_name_under_two_kinds_are_different_objects() {
    let objects = vec![object(EntityKind::Account, "x"), object(EntityKind::Partition, "x")];
    assert!(assemble(objects, Vec::new()).is_ok());
}

#[test]
fn an_event_that_leads_nowhere_is_named() {
    let objects = vec![object(EntityKind::Job, "J1")];
    let events = vec![
        event("J1", 0, EventCategory::Submit),
        event("J3", 0, EventCategory::Submit),
        event("J4", 0, EventCategory::Submit),
    ];
    assert_eq!(
        assemble(objects, events),
        Err(Breach::DanglingReference(key(EntityKind::Job, "J3")))
    );
}

#[test]
fn an_object_that_leads_nowhere_is_named() {
    let objects = vec![job_object("J1", "A1"), object(EntityKind::Partition, "A1")];
    let events = vec![event("J1", 0, EventCategory::Submit)];
    assert_eq!(
        assemble(objects, events),
        Err(Breach::DanglingReference(key(EntityKind::Account, "A1")))
    );
}

#[test]
fn a_repeated_event_is_named_before_anything_else() {
    let objects = vec![job_object("J1", "A1"), job_object("J1", "A1")];
    let events = vec![
        event("J9", 0, EventCategory::Submit),
        event("J9", 0, EventCategory::Submit),
    ];
    assert_eq!(
        assemble(objects.clone(), events),
        Err(Breach::DuplicateEvent(EventKey { job: "J9".to_string(), ordinal: 0 }))
    );
    assert_eq!(
        assemble(objects, vec![event("J9", 0, EventCategory::Submit)]),
        Err(Breach::DuplicateObject(key(EntityKind::Job, "J1")))
    );
}

#[test]
fn an_event_that_leads_nowhere_is_named_before_an_object_that_does() {
    let objects = vec![job_object("J1", "A1")];
    let events = vec![event("J2", 0, EventCategory::Submit)];
    assert_eq!(
        assemble(objects, events),
        Err(Breach::DanglingReference(key(EntityKind::Job, "J2")))
    );
}

#[test]
fn the_first_repeat_is_found() {
    let events = vec![
        event("J1", 0, EventCategory::Submit),
        event("J1", 1, EventCategory::Started),
        event("J1", 1, EventCategory::Ending),
        event("J1", 0, EventCategory::Completed),
    ];
    assert_eq!(repeated_event(&events), Some(2));
    assert_eq!(repeated_event(&events[..2].to_vec()), None);
    let objects = vec![
        object(EntityKind::Host, "a"),
        object(EntityKind::Host, "b"),
        object(EntityKind::Host, "a"),
    ];
    assert_eq!(repeated_object(&objects), Some(2));
    assert_eq!(repeated_object(&Vec::new()), None);
}

#[test]
fn relationships_are_held_against_the_objects() {
    let objects = vec![object(EntityKind::Account, "A1"), object(EntityKind::Group, "G1")];
    assert!(holds(&objects, &key(EntityKind::Group, "G1")));
    assert!(!holds(&objects, &key(EntityKind::Group, "A1")));
    let relationships = vec![
        Relation { target: key(EntityKind::Account, "A1"), qualifier: Qualifier::SubmittedBy },
        Relation { target: key(EntityKind::Host, "n01"), qualifier: Qualifier::ExecutedOn },
        Relation { target: key(EntityKind::Host, "n02"), qualifier: Qualifier::ExecutedOn },
    ];
    assert_eq!(stray(&relationships, &objects), Some(1));
    assert_eq!(stray(&relationships[..1].to_vec(), &objects), None);
}
