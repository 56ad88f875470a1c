//! What may go wrong short of stopping a run, and what stops one job.

use vstd::prelude::*;
use crate::instant::Timestamp;
use crate::job::Lifecycle;

verus! {

/// Why the captures of one job cannot be replayed. The job is left out of
/// the run; the other jobs are not affected.
#[derive(Clone, Copy, Debug, PartialEq, Eq, Structural)]
pub enum InputError {
    /// There is no capture, or the first capture is a delta: nothing to
    /// apply the deltas to.
    MissingBase,
    /// The first capture is a snapshot of another job than the captures were
    /// filed under.
    MalformedBase,
}

/// Something unexpected in the captures of a job. It is recorded, and the
/// run goes on.
#[derive(Clone, Debug, PartialEq, Eq)]
pub enum Finding<T> {
    /// A delta was captured earlier than the capture applied before it. It
    /// was applied all the same.
    TemporalInversion { job: T, previous: Timestamp, current: Timestamp },
    /// A later snapshot was of another job. It was passed over.
    ForeignSnapshot { job: T, at: Timestamp },
    /// A change of state that the lifecycle does not provide for, such as a
    /// return to pending. No event was made of it.
    SuppressedTransition { job: T, at: Timestamp, to: Lifecycle<T> },
    /// A state outside the known set. No event was made of it.
    UnknownState { job: T, at: Timestamp, label: T },
    /// A start time that arrived when the job had already ended. It was not
    /// used.
    LateStartTime { job: T, start: Timestamp },
    /// The job's captures could not be replayed and the job was left out.
    SkippedJob { job: T, error: InputError },
}

pub type Anomaly = Finding<String>;

pub type AnomalyModel = Finding<Seq<char>>;

impl View for Finding<String> {
    type V = Finding<Seq<char>>;

    open spec fn view(&self) -> Finding<Seq<char>> {
        match *self {
            Finding::TemporalInversion { job, previous, current } => Finding::TemporalInversion {
                job: job@,
                previous,
                current,
            },
            Finding::ForeignSnapshot { job, at } => Finding::ForeignSnapshot { job: job@, at },
            Finding::SuppressedTransition { job, at, to } => Finding::SuppressedTransition {
                job: job@,
                at,
                to: to@,
            },
            Finding::UnknownState { job, at, label } => Finding::UnknownState {
                job: job@,
                at,
                label: label@,
            },
            Finding::LateStartTime { job, start } => Finding::LateStartTime { job: job@, start },
            Finding::SkippedJob { job, error } => Finding::SkippedJob { job: job@, error },
        }
    }
}

} // verus!
