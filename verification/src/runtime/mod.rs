//! The runtime side: the environment of annotated functions and modules
//! that a build exports, and the queries over it.

pub mod attribute;
pub mod path;
pub mod internal;
pub mod query;
pub mod registry;
pub mod private_api;
