//! The build-time side: configuration, the scanner's state machine and the
//! records it produces.

pub mod derive;
pub mod table;
pub mod config;
pub mod records;
pub mod visitor;
pub mod targets;
