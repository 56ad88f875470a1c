//! What a log declares of itself: the kinds of object and the categories of
//! event it may hold, the attributes that go with them, and the names under
//! which all of these are written out.

use vstd::prelude::*;
use crate::record::{EntityKind, EventCategory, JobAttribute, Qualifier};

verus! {

/// The type of the values of an attribute.
#[derive(Clone, Copy, Debug, PartialEq, Eq, Structural)]
pub enum AttributeType {
    Text,
    Integer,
}

/// The name of a kind of object.
pub open spec fn kind_name(kind: EntityKind) -> Seq<char> {
    match kind {
        EntityKind::Job => "Job"@,
        EntityKind::Account => "Account"@,
        EntityKind::Group => "Group"@,
        EntityKind::Host => "Host"@,
        EntityKind::Partition => "Partition"@,
    }
}

/// The name of a category of event.
pub open spec fn category_name(category: EventCategory) -> Seq<char> {
    match category {
        EventCategory::Submit => "Submit Job"@,
        EventCategory::Started => "Job Started"@,
        EventCategory::Ending => "Job Ending"@,
        EventCategory::Completed => "Job Completed"@,
        EventCategory::Cancelled => "Job Cancelled"@,
        EventCategory::Failed => "Job Failed"@,
        EventCategory::Timeout => "Job Timeout"@,
        EventCategory::OutOfMemory => "Job Out Of Memory"@,
    }
}

/// The name of an attribute of a job.
pub open spec fn attribute_name(attribute: JobAttribute) -> Seq<char> {
    match attribute {
        JobAttribute::State => "state"@,
        JobAttribute::Command => "command"@,
        JobAttribute::WorkDir => "work_dir"@,
        JobAttribute::Cpus => "cpus"@,
        JobAttribute::MinMemory => "min_memory"@,
    }
}

/// The name of a qualifier.
pub open spec fn qualifier_name(qualifier: Qualifier) -> Seq<char> {
    match qualifier {
        Qualifier::Job => "job"@,
        Qualifier::Submitter => "submitter"@,
        Qualifier::SubmittedBy => "submitted by"@,
        Qualifier::SubmittedByGroup => "submitted by group"@,
        Qualifier::SubmittedOn => "submitted on"@,
        Qualifier::ExecutedOn => "executed on"@,
    }
}

/// The type of the values of an attribute of a job: the number of CPUs is
/// an integer, everything else is text.
pub open spec fn attribute_type(attribute: JobAttribute) -> AttributeType {
    match attribute {
        JobAttribute::Cpus => AttributeType::Integer,
        _ => AttributeType::Text,
    }
}

impl EntityKind {
    /// The name under which the kind is written out.
    pub fn label(&self) -> (name: &'static str)
        ensures
            name@ == kind_name(*self),
    {
        match self {
            EntityKind::Job => "Job",
            EntityKind::Account => "Account",
            EntityKind::Group => "Group",
            EntityKind::Host => "Host",
            EntityKind::Partition => "Partition",
        }
    }
}

impl EventCategory {
    /// The name under which the category is written out.
    pub fn label(&self) -> (name: &'static str)
        ensures
            name@ == category_name(*self),
    {
        match self {
            EventCategory::Submit => "Submit Job",
            EventCategory::Started => "Job Started",
            EventCategory::Ending => "Job Ending",
            EventCategory::Completed => "Job Completed",
            EventCategory::Cancelled => "Job Cancelled",
            EventCategory::Failed => "Job Failed",
            EventCategory::Timeout => "Job Timeout",
            EventCategory::OutOfMemory => "Job Out Of Memory",
        }
    }

    /// Whether events of the category may carry a reason: those of a
    /// failure do.
    pub fn carries_reason(&self) -> (carries: bool)
        ensures
            carries == (*self == EventCategory::Failed),
    {
        match self {
            EventCategory::Failed => true,
            _ => false,
        }
    }
}

impl JobAttribute {
    /// The name under which the attribute is written out.
    pub fn label(&self) -> (name: &'static str)
        ensures
            name@ == attribute_name(*self),
    {
        match self {
            JobAttribute::State => "state",
            JobAttribute::Command => "command",
            JobAttribute::WorkDir => "work_dir",
            JobAttribute::Cpus => "cpus",
            JobAttribute::MinMemory => "min_memory",
        }
    }

    /// The type of the attribute's values.
    pub fn value_type(&self) -> (kind: AttributeType)
        ensures
            kind == attribute_type(*self),
    {
        match self {
            JobAttribute::Cpus => AttributeType::Integer,
            _ => AttributeType::Text,
        }
    }
}

impl Qualifier {
    /// The name under which the qualifier is written out.
    pub fn label(&self) -> (name: &'static str)
        ensures
            name@ == qualifier_name(*self),
    {
        match self {
            Qualifier::Job => "job",
            Qualifier::Submitter => "submitter",
            Qualifier::SubmittedBy => "submitted by",
            Qualifier::SubmittedByGroup => "submitted by group",
            Qualifier::SubmittedOn => "submitted on",
            Qualifier::ExecutedOn => "executed on",
        }
    }
}

/// The kinds of object that a log declares, in the order in which it
/// declares them.
pub open spec fn declared_kinds() -> Seq<EntityKind> {
    seq![
        EntityKind::Job,
        EntityKind::Account,
        EntityKind::Group,
        EntityKind::Host,
        EntityKind::Partition,
    ]
}

/// The categories of event that a log declares, in the order in which it
/// declares them.
pub open spec fn declared_categories() -> Seq<EventCategory> {
    seq![
        EventCategory::Submit,
        EventCategory::Started,
        EventCategory::Ending,
        EventCategory::Completed,
        EventCategory::Cancelled,
        EventCategory::Failed,
        EventCategory::Timeout,
        EventCategory::OutOfMemory,
    ]
}

/// The attributes that a log declares for a kind of object.
pub open spec fn declared_attributes(kind: EntityKind) -> Seq<JobAttribute> {
    if kind == EntityKind::Job {
        seq![
            JobAttribute::State,
            JobAttribute::Command,
            JobAttribute::WorkDir,
            JobAttribute::Cpus,
            JobAttribute::MinMemory,
        ]
    } else {
        Seq::empty()
    }
}

/// The kinds of object that a log declares, in the order in which it
/// declares them.
pub fn object_types() -> (kinds: Vec<EntityKind>)
    ensures
        kinds@ == declared_kinds(),
{
    let kinds = vec![
        EntityKind::Job,
        EntityKind::Account,
        EntityKind::Group,
        EntityKind::Host,
        EntityKind::Partition,
    ];
    assert(kinds@ =~= seq![
        EntityKind::Job,
        EntityKind::Account,
        EntityKind::Group,
        EntityKind::Host,
        EntityKind::Partition,
    ]);
    kinds
}

/// The categories of event that a log declares, in the order in which it
/// declares them.
pub fn event_types() -> (categories: Vec<EventCategory>)
    ensures
        categories@ == declared_categories(),
{
    let categories = vec![
        EventCategory::Submit,
        EventCategory::Started,
        EventCategory::Ending,
        EventCategory::Completed,
        EventCategory::Cancelled,
        EventCategory::Failed,
        EventCategory::Timeout,
        EventCategory::OutOfMemory,
    ];
    assert(categories@ =~= seq![
        EventCategory::Submit,
        EventCategory::Started,
        EventCategory::Ending,
        EventCategory::Completed,
        EventCategory::Cancelled,
        EventCategory::Failed,
        EventCategory::Timeout,
        EventCategory::OutOfMemory,
    ]);
    categories
}

/// The attributes that a log declares for a kind of object: a job has its
/// state, command, working directory, number of CPUs and minimum memory; the
/// other kinds have none.
pub fn attributes_of(kind: EntityKind) -> (attributes: Vec<JobAttribute>)
    ensures
        attributes@ == declared_attributes(kind),
{
    match kind {
        EntityKind::Job => {
            let attributes = vec![
                JobAttribute::State,
                JobAttribute::Command,
                JobAttribute::WorkDir,
                JobAttribute::Cpus,
                JobAttribute::MinMemory,
            ];
            assert(attributes@ =~= seq![
                JobAttribute::State,
                JobAttribute::Command,
                JobAttribute::WorkDir,
                JobAttribute::Cpus,
                JobAttribute::MinMemory,
            ]);
            attributes
        },
        _ => Vec::new(),
    }
}

} // verus!
