//! Online monitoring of temporal relations between named events.
//!
//! A relation is declared between two event names. The monitor is fed every
//! occurrence that the instrumented program produces, decides on the spot
//! whether the occurrence is legal for each relation it takes part in, and
//! hands back the violations before the program goes on. It keeps no
//! history: each relation holds only what it expects next.
//!
//! The monitor takes occurrences through `&mut self`, so one occurrence is
//! judged at a time. A program that fires events from several threads puts
//! the monitor behind a lock and delivers each occurrence under it.

pub mod alternation;
pub mod logger;
pub mod monitor;
pub mod report;
pub mod text;
pub mod traces;

pub use alternation::{Alternates, DeclarationError, Expectation, Side};
pub use logger::FieldLogger;
pub use monitor::{Occurrence, TracingFormal, Violation};
