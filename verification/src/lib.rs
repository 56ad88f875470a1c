//! Object-centric event logs from observations of a batch scheduler's queue.
//!
//! Captures of a job (full snapshots or field-level deltas) are replayed into
//! the job's state over time, lifecycle events are derived from the state
//! changes, the entities a job refers to are interned as objects, and the
//! result is assembled into a log whose identifiers are unique and whose
//! relationships all resolve.
//!
//! - [`instant`]: instants and their order.
//! - [`job`]: the state of a job, field-level changes, and the difference
//!   between two states.
//! - [`record`], [`schema`], [`canonical`]: events and objects, what a log
//!   declares of them, and how their identifiers are written.
//! - [`anomaly`]: what is recorded without stopping a run.
//! - [`replay`]: from the captures of a job to its states over time.
//! - [`lifecycle`]: from the states of a job to its events.
//! - [`registry`], [`enrollment`]: the objects of a run.
//! - [`assembly`]: holding events and objects to what makes a log.
//! - [`extraction`]: a whole run, over many jobs.
//! - [`stamp`]: the instant in the name of a capture's file.
//!
//! Every running type has a model, its view `@`, and the contracts of the
//! functions are stated over the models.

pub mod model;
pub mod instant;
pub mod job;
pub mod record;
pub mod schema;
pub mod anomaly;
pub mod replay;
pub mod lifecycle;
pub mod registry;
pub mod enrollment;
pub mod assembly;
pub mod extraction;
pub mod stamp;
pub mod canonical;
