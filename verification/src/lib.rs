//! A verified core for an annotation and reflection framework: the runtime
//! model of annotated functions and modules, the build-time configuration,
//! the annotation scanner's state machine and the naming scheme of the
//! generated environment.

pub mod text;
pub mod trusted;
pub mod build;
pub mod runtime;
pub mod expand;
pub mod paths;

pub use runtime::attribute::{Attribute, Attributes, Type, Value};
pub use runtime::path::Path;
pub use runtime::internal::{
    Environment, Function, Module, ProtoEnvironment, ProtoFunction, ProtoModule, TypeMismatch,
};
pub use runtime::private_api as __private;
