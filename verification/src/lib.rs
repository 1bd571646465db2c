//! Execution engine for organisational process models: actor roles,
//! transaction kinds and an authorisation table on the static side; transaction
//! instances, an append-only world of coordination and production facts and the
//! agendas of the subjects on the dynamic side.

pub mod clock;
pub mod dashboard;
pub mod execution;
pub mod initiation;
pub mod laws;
pub mod model;
pub mod notation;
pub mod pattern;
pub mod search;
pub mod token;
pub mod waiting;
