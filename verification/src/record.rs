//! The records of a log: events, objects, and what identifies and relates
//! them.
//!
//! Identifiers are structured, not concatenated text: an object is known by
//! its kind together with its name, so that an account and a partition of the
//! same name never collide, and an event by its job together with its
//! position among that job's events.

use vstd::prelude::*;
use crate::instant::Timestamp;
use crate::model::{views, lemma_views_push, lemma_views_empty};
use crate::job::{Lifecycle, LifecycleState, opt_text, duplicate_opt_text};

verus! {

/// The kinds of object in a log.
#[derive(Clone, Copy, Debug, PartialEq, Eq, Structural)]
pub enum EntityKind {
    Job,
    Account,
    Group,
    Host,
    Partition,
}

/// How an event or an object is related to an object.
#[derive(Clone, Copy, Debug, PartialEq, Eq, Structural)]
pub enum Qualifier {
    /// The job that an event is about.
    Job,
    /// The account that submitted the job of a submit event.
    Submitter,
    /// The account under which a job was submitted.
    SubmittedBy,
    /// The group under which a job was submitted.
    SubmittedByGroup,
    /// The partition to which a job was submitted.
    SubmittedOn,
    /// The host on which a job runs.
    ExecutedOn,
}

/// What identifies an object: its kind and its name within that kind.
#[derive(Clone, Debug, PartialEq, Eq)]
pub struct ObjectKey<T> {
    pub kind: EntityKind,
    pub name: T,
}

pub type ObjectId = ObjectKey<String>;

pub type ObjectIdModel = ObjectKey<Seq<char>>;

impl View for ObjectKey<String> {
    type V = ObjectKey<Seq<char>>;

    open spec fn view(&self) -> ObjectKey<Seq<char>> {
        ObjectKey { kind: self.kind, name: self.name@ }
    }
}

/// The identifier of the object of a kind and a name.
pub open spec fn object_key(kind: EntityKind, name: Seq<char>) -> ObjectIdModel {
    ObjectKey { kind, name }
}

impl ObjectKey<String> {
    pub fn new(kind: EntityKind, name: &String) -> (id: ObjectId)
        ensures
            id@ == object_key(kind, name@),
    {
        ObjectKey { kind, name: name.clone() }
    }

    /// Whether two identifiers name the same object.
    pub fn same(&self, other: &ObjectId) -> (b: bool)
        ensures
            b == (self@ == other@),
    {
        self.kind == other.kind && self.name == other.name
    }

    /// Whether the identifier is that of the object of a kind and a name.
    pub fn names(&self, kind: EntityKind, name: &String) -> (b: bool)
        ensures
            b == (self@ == object_key(kind, name@)),
    {
        self.kind == kind && self.name == *name
    }

    pub fn duplicate(&self) -> (r: ObjectId)
        ensures
            r@ == self@,
    {
        ObjectKey { kind: self.kind, name: self.name.clone() }
    }
}

/// A relationship to an object, under a qualifier.
#[derive(Clone, Debug, PartialEq, Eq)]
pub struct Relation<T> {
    pub target: ObjectKey<T>,
    pub qualifier: Qualifier,
}

pub type Relationship = Relation<String>;

pub type RelationshipModel = Relation<Seq<char>>;

impl View for Relation<String> {
    type V = Relation<Seq<char>>;

    open spec fn view(&self) -> Relation<Seq<char>> {
        Relation { target: self.target@, qualifier: self.qualifier }
    }
}

impl Relation<String> {
    pub fn new(kind: EntityKind, name: &String, qualifier: Qualifier) -> (r: Relationship)
        ensures
            r@ == relation(kind, name@, qualifier),
    {
        Relation { target: ObjectKey::new(kind, name), qualifier }
    }

    pub fn duplicate(&self) -> (r: Relationship)
        ensures
            r@ == self@,
    {
        Relation { target: self.target.duplicate(), qualifier: self.qualifier }
    }
}

/// The relationship to the object of a kind and a name, under a qualifier.
pub open spec fn relation(kind: EntityKind, name: Seq<char>, qualifier: Qualifier) -> RelationshipModel {
    Relation { target: object_key(kind, name), qualifier }
}

/// What identifies an event: the job it is about and its position among the
/// events of that job, counted from 0 in the order in which they were made.
#[derive(Clone, Debug, PartialEq, Eq)]
pub struct EventKey<T> {
    pub job: T,
    pub ordinal: usize,
}

pub type EventId = EventKey<String>;

pub type EventIdModel = EventKey<Seq<char>>;

impl View for EventKey<String> {
    type V = EventKey<Seq<char>>;

    open spec fn view(&self) -> EventKey<Seq<char>> {
        EventKey { job: self.job@, ordinal: self.ordinal }
    }
}

impl EventKey<String> {
    /// Whether two identifiers name the same event.
    pub fn same(&self, other: &EventId) -> (b: bool)
        ensures
            b == (self@ == other@),
    {
        self.ordinal == other.ordinal && self.job == other.job
    }

    pub fn duplicate(&self) -> (r: EventId)
        ensures
            r@ == self@,
    {
        EventKey { job: self.job.clone(), ordinal: self.ordinal }
    }
}

/// What a lifecycle event says has happened to a job.
#[derive(Clone, Copy, Debug, PartialEq, Eq, Structural)]
pub enum EventCategory {
    Submit,
    Started,
    Ending,
    Completed,
    Cancelled,
    Failed,
    Timeout,
    OutOfMemory,
}

/// One event of a log.
#[derive(Clone, Debug, PartialEq, Eq)]
pub struct EventRecord {
    pub id: EventId,
    pub category: EventCategory,
    pub time: Timestamp,
    pub relationships: Vec<Relationship>,
    /// Why the job failed, on a `Failed` event for which a reason was known.
    pub reason: Option<String>,
}

/// The model of an event.
pub struct EventModel {
    pub id: EventIdModel,
    pub category: EventCategory,
    pub time: Timestamp,
    pub relationships: Seq<RelationshipModel>,
    pub reason: Option<Seq<char>>,
}

impl View for EventRecord {
    type V = EventModel;

    open spec fn view(&self) -> EventModel {
        EventModel {
            id: self.id@,
            category: self.category,
            time: self.time,
            relationships: views(self.relationships@),
            reason: opt_text(self.reason),
        }
    }
}

/// A copy of a list of relationships.
pub fn duplicate_relationships(relationships: &Vec<Relationship>) -> (r: Vec<Relationship>)
    ensures
        views(r@) == views(relationships@),
{
    let mut copy: Vec<Relationship> = Vec::new();
    let mut i: usize = 0;
    proof {
        lemma_views_empty::<Relationship>();
    }
    while i < relationships.len()
        invariant
            i <= relationships.len(),
            views(copy@) == views(relationships@).take(i as int),
        decreases relationships.len() - i,
    {
        let ghost before = copy@;
        let next = relationships[i].duplicate();
        copy.push(next);
        proof {
            lemma_views_push(before, next);
            assert(views(relationships@).take(i + 1) =~= views(relationships@).take(
                i as int,
            ).push(relationships@[i as int]@));
        }
        i = i + 1;
    }
    copy
}

impl EventRecord {
    pub fn duplicate(&self) -> (r: EventRecord)
        ensures
            r@ == self@,
    {
        EventRecord {
            id: self.id.duplicate(),
            category: self.category,
            time: self.time,
            relationships: duplicate_relationships(&self.relationships),
            reason: duplicate_opt_text(&self.reason),
        }
    }
}

/// The attributes that a job object has.
#[derive(Clone, Copy, Debug, PartialEq, Eq, Structural)]
pub enum JobAttribute {
    State,
    Command,
    WorkDir,
    Cpus,
    MinMemory,
}

/// The value of an attribute.
#[derive(Clone, Debug, PartialEq, Eq)]
pub enum Value<T> {
    Text(T),
    Integer(u64),
}

pub type AttrValue = Value<String>;

pub type AttrValueModel = Value<Seq<char>>;

impl View for Value<String> {
    type V = Value<Seq<char>>;

    open spec fn view(&self) -> Value<Seq<char>> {
        match *self {
            Value::Text(t) => Value::Text(t@),
            Value::Integer(n) => Value::Integer(n),
        }
    }
}

impl Value<String> {
    /// Whether two values are the same.
    pub fn same(&self, other: &AttrValue) -> (b: bool)
        ensures
            b == (self@ == other@),
    {
        match (self, other) {
            (Value::Text(a), Value::Text(b)) => *a == *b,
            (Value::Integer(a), Value::Integer(b)) => *a == *b,
            _ => false,
        }
    }
}

/// One version of an attribute: the value it took and the instant at which
/// that value was first observed.
#[derive(Clone, Debug, PartialEq, Eq)]
pub struct Version<T> {
    pub name: JobAttribute,
    pub value: Value<T>,
    pub observed_at: Timestamp,
}

pub type AttributeVersion = Version<String>;

pub type AttributeVersionModel = Version<Seq<char>>;

impl View for Version<String> {
    type V = Version<Seq<char>>;

    open spec fn view(&self) -> Version<Seq<char>> {
        Version { name: self.name, value: self.value@, observed_at: self.observed_at }
    }
}

/// One object of a log. Its kind is that of its identifier.
#[derive(Clone, Debug, PartialEq, Eq)]
pub struct ObjectRecord {
    pub id: ObjectId,
    /// The versions of the object's attributes, oldest first.
    pub attributes: Vec<AttributeVersion>,
    pub relationships: Vec<Relationship>,
}

/// The model of an object.
pub struct ObjectModel {
    pub id: ObjectIdModel,
    pub attributes: Seq<AttributeVersionModel>,
    pub relationships: Seq<RelationshipModel>,
}

impl View for ObjectRecord {
    type V = ObjectModel;

    open spec fn view(&self) -> ObjectModel {
        ObjectModel {
            id: self.id@,
            attributes: views(self.attributes@),
            relationships: views(self.relationships@),
        }
    }
}

/// The text under which a lifecycle state is recorded as an attribute value.
pub open spec fn state_text(state: Lifecycle<Seq<char>>) -> Seq<char> {
    match state {
        Lifecycle::Pending => "PENDING"@,
        Lifecycle::Running => "RUNNING"@,
        Lifecycle::Completing => "COMPLETING"@,
        Lifecycle::Completed => "COMPLETED"@,
        Lifecycle::Cancelled => "CANCELLED"@,
        Lifecycle::Failed => "FAILED"@,
        Lifecycle::Timeout => "TIMEOUT"@,
        Lifecycle::OutOfMemory => "OUT_OF_MEMORY"@,
        Lifecycle::Other(label) => label,
    }
}

/// The text under which a lifecycle state is recorded as an attribute value:
/// the name of a known state, the label of another.
pub fn state_label(state: &LifecycleState) -> (text: String)
    ensures
        text@ == state_text(state@),
{
    match state {
        Lifecycle::Pending => "PENDING".to_owned(),
        Lifecycle::Running => "RUNNING".to_owned(),
        Lifecycle::Completing => "COMPLETING".to_owned(),
        Lifecycle::Completed => "COMPLETED".to_owned(),
        Lifecycle::Cancelled => "CANCELLED".to_owned(),
        Lifecycle::Failed => "FAILED".to_owned(),
        Lifecycle::Timeout => "TIMEOUT".to_owned(),
        Lifecycle::OutOfMemory => "OUT_OF_MEMORY".to_owned(),
        Lifecycle::Other(label) => label.clone(),
    }
}

} // verus!
