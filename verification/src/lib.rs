//! Core engine for a rotating household-chore rota.
//!
//! Tasks recur under one of two policies, are owned in turn by the members of
//! an ordered participant list, and carry a deadline derived from the most
//! recent completion.  Everything here is pure domain logic: dates are plain
//! day counts, "today" is always an explicit argument, and storage is an
//! in-memory table that callers may mirror to any durable backend.

pub mod auth;
pub mod dates;
pub mod deadline;
pub mod rotation;
pub mod store;
pub mod translations;
pub mod types;

pub use auth::UserId;
pub use dates::Date;
pub use deadline::next_deadline;
pub use rotation::{next_assignee, RotationError};
pub use store::{NewTask, Task, TaskStore, TaskStoreError};
pub use translations::{find_best_language, parse, Language, MatchLevel};
pub use types::{Deadline, Routine, TaskId};
