//! Putting events and objects together into a log, and holding the log to
//! what makes it trustworthy: no two events share an identifier, no two
//! objects share one, and every relationship leads to an object of the log.
//! A log that fails any of this is not handed out; the error names the
//! identifier at fault.

use vstd::prelude::*;
use crate::model::views;
use crate::record::{
    EntityKind, EventCategory, EventKey, EventRecord, EventModel, ObjectKey, ObjectId,
    ObjectRecord, ObjectModel, Relationship, RelationshipModel,
};
use crate::registry::{has_object, keys_distinct, targets_present};
use crate::schema::{declared_kinds, declared_categories, object_types, event_types};

verus! {

/// A log: the kinds of object and categories of event that it declares,
/// and its objects and events.
#[derive(Clone, Debug, PartialEq, Eq)]
pub struct EventLog {
    pub object_types: Vec<EntityKind>,
    pub event_types: Vec<EventCategory>,
    pub objects: Vec<ObjectRecord>,
    pub events: Vec<EventRecord>,
}

/// The model of a log.
pub struct LogModel {
    pub object_types: Seq<EntityKind>,
    pub event_types: Seq<EventCategory>,
    pub objects: Seq<ObjectModel>,
    pub events: Seq<EventModel>,
}

impl View for EventLog {
    type V = LogModel;

    open spec fn view(&self) -> LogModel {
        LogModel {
            object_types: self.object_types@,
            event_types: self.event_types@,
            objects: views(self.objects@),
            events: views(self.events@),
        }
    }
}

/// The log of given objects and events. It declares every kind of object
/// and every category of event, whether or not one of them occurs.
pub open spec fn log_with(objects: Seq<ObjectModel>, events: Seq<EventModel>) -> LogModel {
    LogModel {
        object_types: declared_kinds(),
        event_types: declared_categories(),
        objects,
        events,
    }
}

impl EventLog {
    /// The log of given objects and events, with what every log declares.
    /// Nothing is asked of the objects and events here: `assemble` is the
    /// way to a log that can be trusted.
    pub fn with(objects: Vec<ObjectRecord>, events: Vec<EventRecord>) -> (log: EventLog)
        ensures
            log@ == log_with(views(objects@), views(events@)),
    {
        EventLog { object_types: object_types(), event_types: event_types(), objects, events }
    }
}

/// What is at fault in events and objects that do not make a log.
#[derive(Clone, Debug, PartialEq, Eq)]
pub enum Breach<T> {
    /// Two events have this identifier.
    DuplicateEvent(EventKey<T>),
    /// Two objects have this identifier.
    DuplicateObject(ObjectKey<T>),
    /// A relationship leads to this identifier, and no object has it.
    DanglingReference(ObjectKey<T>),
}

pub type IntegrityError = Breach<String>;

pub type IntegrityErrorModel = Breach<Seq<char>>;

impl View for Breach<String> {
    type V = Breach<Seq<char>>;

    open spec fn view(&self) -> Breach<Seq<char>> {
        match *self {
            Breach::DuplicateEvent(id) => Breach::DuplicateEvent(id@),
            Breach::DuplicateObject(id) => Breach::DuplicateObject(id@),
            Breach::DanglingReference(id) => Breach::DanglingReference(id@),
        }
    }
}

/// No two events of the list have the same identifier.
pub open spec fn event_ids_distinct(events: Seq<EventModel>) -> bool {
    forall|i: int, j: int|
        0 <= i < j < events.len() ==> (#[trigger] events[i]).id != (#[trigger] events[j]).id
}

/// Every relationship of every event of the list leads to one of the
/// objects.
pub open spec fn event_targets_present(events: Seq<EventModel>, objects: Seq<ObjectModel>) -> bool {
    forall|i: int, k: int|
        0 <= i < events.len() && 0 <= k < events[i].relationships.len() ==> has_object(
            objects,
            (#[trigger] events[i].relationships[k]).target,
        )
}

/// The events and objects make a log: identifiers of events differ,
/// identifiers of objects differ, and every relationship of an event or an
/// object leads to an object.
pub open spec fn consistent(log: LogModel) -> bool {
    &&& event_ids_distinct(log.events)
    &&& keys_distinct(log.objects)
    &&& event_targets_present(log.events, log.objects)
    &&& targets_present(log.objects)
}

/// The event at a position has the identifier of an earlier event.
pub open spec fn event_repeats(events: Seq<EventModel>, position: int) -> bool {
    exists|i: int| 0 <= i < position && (#[trigger] events[i]).id == events[position].id
}

/// The object at a position has the identifier of an earlier object.
pub open spec fn object_repeats(objects: Seq<ObjectModel>, position: int) -> bool {
    exists|i: int| 0 <= i < position && (#[trigger] objects[i]).id == objects[position].id
}

/// The first relationships of a list, up to a count, all lead to one of
/// the objects.
pub open spec fn leads_home(
    relationships: Seq<RelationshipModel>,
    objects: Seq<ObjectModel>,
    count: int,
) -> bool {
    forall|k: int| 0 <= k < count ==> has_object(objects, (#[trigger] relationships[k]).target)
}

/// The position of the first event that has the identifier of an earlier
/// one, if there is such an event.
pub fn repeated_event(events: &Vec<EventRecord>) -> (found: Option<usize>)
    ensures
        match found {
            Some(position) => position < events.len() && event_repeats(
                views(events@),
                position as int,
            ) && forall|earlier: int|
                0 <= earlier < position ==> !event_repeats(views(events@), earlier),
            None => event_ids_distinct(views(events@)),
        },
{
    let ghost model = views(events@);
    let mut j: usize = 0;
    while j < events.len()
        invariant
            j <= events.len(),
            model == views(events@),
            forall|earlier: int| 0 <= earlier < j ==> !event_repeats(model, earlier),
        decreases events.len() - j,
    {
        let mut i: usize = 0;
        while i < j
            invariant
                i <= j < events.len(),
                model == views(events@),
                forall|earlier: int| 0 <= earlier < j ==> !event_repeats(model, earlier),
                forall|l: int| 0 <= l < i ==> (#[trigger] model[l]).id != model[j as int].id,
            decreases j - i,
        {
            if events[i].id.same(&events[j].id) {
                assert(model[i as int].id == model[j as int].id);
                return Some(j);
            }
            i = i + 1;
        }
        j = j + 1;
    }
    assert forall|a: int, b: int| 0 <= a < b < model.len() implies (#[trigger] model[a]).id != (
    #[trigger] model[b]).id by {
        assert(!event_repeats(model, b));
    }
    None
}

/// The position of the first object that has the identifier of an earlier
/// one, if there is such an object.
pub fn repeated_object(objects: &Vec<ObjectRecord>) -> (found: Option<usize>)
    ensures
        match found {
            Some(position) => position < objects.len() && object_repeats(
                views(objects@),
                position as int,
            ) && forall|earlier: int|
                0 <= earlier < position ==> !object_repeats(views(objects@), earlier),
            None => keys_distinct(views(objects@)),
        },
{
    let ghost model = views(objects@);
    let mut j: usize = 0;
    while j < objects.len()
        invariant
            j <= objects.len(),
            model == views(objects@),
            forall|earlier: int| 0 <= earlier < j ==> !object_repeats(model, earlier),
        decreases objects.len() - j,
    {
        let mut i: usize = 0;
        while i < j
            invariant
                i <= j < objects.len(),
                model == views(objects@),
                forall|earlier: int| 0 <= earlier < j ==> !object_repeats(model, earlier),
                forall|l: int| 0 <= l < i ==> (#[trigger] model[l]).id != model[j as int].id,
            decreases j - i,
        {
            if objects[i].id.same(&objects[j].id) {
                assert(model[i as int].id == model[j as int].id);
                return Some(j);
            }
            i = i + 1;
        }
        j = j + 1;
    }
    assert forall|a: int, b: int| 0 <= a < b < model.len() implies (#[trigger] model[a]).id != (
    #[trigger] model[b]).id by {
        assert(!object_repeats(model, b));
    }
    None
}

/// Whether some object has the identifier.
pub fn holds(objects: &Vec<ObjectRecord>, id: &ObjectId) -> (found: bool)
    ensures
        found == has_object(views(objects@), id@),
{
    let mut i: usize = 0;
    while i < objects.len()
        invariant
            i <= objects.len(),
            forall|j: int| 0 <= j < i ==> (#[trigger] views(objects@)[j]).id != id@,
        decreases objects.len() - i,
    {
        if objects[i].id.same(id) {
            assert(views(objects@)[i as int].id == id@);
            return true;
        }
        i = i + 1;
    }
    false
}

/// The position of the first relationship of a list that leads to none of
/// the objects, if there is such a relationship.
pub fn stray(relationships: &Vec<Relationship>, objects: &Vec<ObjectRecord>) -> (found: Option<
    usize,
>)
    ensures
        match found {
            Some(position) => position < relationships.len() && !has_object(
                views(objects@),
                views(relationships@)[position as int].target,
            ) && leads_home(views(relationships@), views(objects@), position as int),
            None => leads_home(
                views(relationships@),
                views(objects@),
                relationships.len() as int,
            ),
        },
{
    let mut k: usize = 0;
    while k < relationships.len()
        invariant
            k <= relationships.len(),
            leads_home(views(relationships@), views(objects@), k as int),
        decreases relationships.len() - k,
    {
        if !holds(objects, &relationships[k].target) {
            return Some(k);
        }
        k = k + 1;
    }
    None
}

/// The events before a position all have relationships that lead to one
/// of the objects.
pub open spec fn events_lead_home(
    events: Seq<EventModel>,
    objects: Seq<ObjectModel>,
    count: int,
) -> bool {
    forall|i: int|
        0 <= i < count ==> leads_home(
            (#[trigger] events[i]).relationships,
            objects,
            events[i].relationships.len() as int,
        )
}

/// The objects before a position all have relationships that lead to one
/// of the objects.
pub open spec fn objects_lead_home(objects: Seq<ObjectModel>, count: int) -> bool {
    forall|i: int|
        0 <= i < count ==> leads_home(
            (#[trigger] objects[i]).relationships,
            objects,
            objects[i].relationships.len() as int,
        )
}

/// What is first at fault in events and objects, if anything is: the
/// identifier of the first event that repeats an earlier one; where no event
/// does, that of the first object that repeats an earlier one; where no
/// object does either, the target of the first relationship that leads
/// nowhere, the events' relationships taken before the objects'.
pub open spec fn first_breach(log: LogModel, breach: IntegrityErrorModel) -> bool {
    match breach {
        Breach::DuplicateEvent(id) => exists|j: int|
            0 <= j < log.events.len() && #[trigger] event_repeats(log.events, j)
                && log.events[j].id == id && forall|earlier: int|
                0 <= earlier < j ==> !event_repeats(log.events, earlier),
        Breach::DuplicateObject(id) => event_ids_distinct(log.events) && exists|j: int|
            0 <= j < log.objects.len() && #[trigger] object_repeats(log.objects, j)
                && log.objects[j].id == id && forall|earlier: int|
                0 <= earlier < j ==> !object_repeats(log.objects, earlier),
        Breach::DanglingReference(id) => event_ids_distinct(log.events) && keys_distinct(
            log.objects,
        ) && ((exists|i: int, k: int|
            0 <= i < log.events.len() && 0 <= k < log.events[i].relationships.len()
                && events_lead_home(log.events, log.objects, i) && #[trigger] leads_home(
                log.events[i].relationships,
                log.objects,
                k,
            ) && log.events[i].relationships[k].target == id && !has_object(log.objects, id)) || (
        event_targets_present(log.events, log.objects) && exists|i: int, k: int|
            0 <= i < log.objects.len() && 0 <= k < log.objects[i].relationships.len()
                && objects_lead_home(log.objects, i) && #[trigger] leads_home(
                log.objects[i].relationships,
                log.objects,
                k,
            ) && log.objects[i].relationships[k].target == id && !has_object(log.objects, id))),
    }
}

/// Events and objects in which something is first at fault do not make a
/// log.
pub proof fn lemma_breach_is_inconsistent(log: LogModel, breach: IntegrityErrorModel)
    requires
        first_breach(log, breach),
    ensures
        !consistent(log),
{
    match breach {
        Breach::DuplicateEvent(id) => {
            let j = choose|j: int|
                0 <= j < log.events.len() && #[trigger] event_repeats(log.events, j)
                    && log.events[j].id == id;
            let i = choose|i: int| 0 <= i < j && (#[trigger] log.events[i]).id == log.events[j].id;
        },
        Breach::DuplicateObject(id) => {
            let j = choose|j: int|
                0 <= j < log.objects.len() && #[trigger] object_repeats(log.objects, j)
                    && log.objects[j].id == id;
            let i = choose|i: int|
                0 <= i < j && (#[trigger] log.objects[i]).id == log.objects[j].id;
        },
        Breach::DanglingReference(id) => {
            if exists|i: int, k: int|
                0 <= i < log.events.len() && 0 <= k < log.events[i].relationships.len()
                    && events_lead_home(log.events, log.objects, i) && #[trigger] leads_home(
                    log.events[i].relationships,
                    log.objects,
                    k,
                ) && log.events[i].relationships[k].target == id && !has_object(log.objects, id) {
                let (i, k) = choose|i: int, k: int|
                    0 <= i < log.events.len() && 0 <= k < log.events[i].relationships.len()
                        && events_lead_home(log.events, log.objects, i) && #[trigger] leads_home(
                        log.events[i].relationships,
                        log.objects,
                        k,
                    ) && log.events[i].relationships[k].target == id && !has_object(
                        log.objects,
                        id,
                    );
            } else {
                let (i, k) = choose|i: int, k: int|
                    0 <= i < log.objects.len() && 0 <= k < log.objects[i].relationships.len()
                        && objects_lead_home(log.objects, i) && #[trigger] leads_home(
                        log.objects[i].relationships,
                        log.objects,
                        k,
                    ) && log.objects[i].relationships[k].target == id && !has_object(
                        log.objects,
                        id,
                    );
            }
        },
    }
}

/// The log that given objects and events make.
pub open spec fn log_of(objects: Seq<ObjectRecord>, events: Seq<EventRecord>) -> LogModel {
    log_with(views(objects), views(events))
}

/// The target of the first relationship of an event that leads to none of
/// the objects, if there is such a relationship.
fn stray_of_events(events: &Vec<EventRecord>, objects: &Vec<ObjectRecord>) -> (found: Option<
    ObjectId,
>)
    ensures
        match found {
            Some(id) => exists|i: int, k: int|
                0 <= i < events.len() && 0 <= k < views(events@)[i].relationships.len()
                    && events_lead_home(views(events@), views(objects@), i) && #[trigger] leads_home(
                    views(events@)[i].relationships,
                    views(objects@),
                    k,
                ) && views(events@)[i].relationships[k].target == id@ && !has_object(
                    views(objects@),
                    id@,
                ),
            None => event_targets_present(views(events@), views(objects@)),
        },
{
    let ghost model = views(events@);
    let ghost among = views(objects@);
    let mut i: usize = 0;
    while i < events.len()
        invariant
            i <= events.len(),
            model == views(events@),
            among == views(objects@),
            events_lead_home(model, among, i as int),
        decreases events.len() - i,
    {
        match stray(&events[i].relationships, objects) {
            Some(k) => {
                let id = events[i].relationships[k].target.duplicate();
                assert(model[i as int].relationships[k as int] == events@[i as int].relationships@[k as int]@);
                return Some(id);
            },
            None => {},
        }
        i = i + 1;
    }
    None
}

/// The target of the first relationship of an object that leads to none
/// of the objects, if there is such a relationship.
fn stray_of_objects(objects: &Vec<ObjectRecord>) -> (found: Option<ObjectId>)
    ensures
        match found {
            Some(id) => exists|i: int, k: int|
                0 <= i < objects.len() && 0 <= k < views(objects@)[i].relationships.len()
                    && objects_lead_home(views(objects@), i) && #[trigger] leads_home(
                    views(objects@)[i].relationships,
                    views(objects@),
                    k,
                ) && views(objects@)[i].relationships[k].target == id@ && !has_object(
                    views(objects@),
                    id@,
                ),
            None => targets_present(views(objects@)),
        },
{
    let ghost among = views(objects@);
    let mut i: usize = 0;
    while i < objects.len()
        invariant
            i <= objects.len(),
            among == views(objects@),
            objects_lead_home(among, i as int),
        decreases objects.len() - i,
    {
        match stray(&objects[i].relationships, objects) {
            Some(k) => {
                let id = objects[i].relationships[k].target.duplicate();
                assert(among[i as int].relationships[k as int] == objects@[i as int].relationships@[k as int]@);
                return Some(id);
            },
            None => {},
        }
        i = i + 1;
    }
    None
}

/// Makes a log of objects and events. They are handed back as the log if
/// and only if they make one; else the error names what is first at fault.
pub fn assemble(objects: Vec<ObjectRecord>, events: Vec<EventRecord>) -> (outcome: Result<
    EventLog,
    IntegrityError,
>)
    ensures
        match outcome {
            Ok(log) => consistent(log_of(objects@, events@)) && log@ == log_of(objects@, events@),
            Err(breach) => first_breach(log_of(objects@, events@), breach@) && !consistent(
                log_of(objects@, events@),
            ),
        },
{
    let ghost log = log_of(objects@, events@);
    if let Some(j) = repeated_event(&events) {
        let breach = Breach::DuplicateEvent(events[j].id.duplicate());
        proof {
            lemma_breach_is_inconsistent(log, breach@);
        }
        return Err(breach);
    }
    if let Some(j) = repeated_object(&objects) {
        let breach = Breach::DuplicateObject(objects[j].id.duplicate());
        proof {
            lemma_breach_is_inconsistent(log, breach@);
        }
        return Err(breach);
    }
    if let Some(id) = stray_of_events(&events, &objects) {
        let breach = Breach::DanglingReference(id);
        proof {
            lemma_breach_is_inconsistent(log, breach@);
        }
        return Err(breach);
    }
    if let Some(id) = stray_of_objects(&objects) {
        let breach = Breach::DanglingReference(id);
        proof {
            lemma_breach_is_inconsistent(log, breach@);
        }
        return Err(breach);
    }
    Ok(EventLog::with(objects, events))
}

} // verus!
