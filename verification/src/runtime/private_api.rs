//! The constructors that generated environments are written with.

use vstd::prelude::*;

use crate::runtime::attribute::{is_identity_of, Attribute, Type, Value};
use crate::runtime::internal::{
    Environment, Function, Module, ProtoEnvironment, ProtoFunction, ProtoModule,
};
use crate::runtime::path::{str_views, Path};

verus! {

/// The path of the given segments.
pub fn path(segments: Vec<&'static str>) -> (r: Path)
    ensures
        r@ == str_views(segments@),
{
    Path::new(segments)
}

/// The attribute of the given name and value.
pub fn attribute(name: &'static str, value: Value) -> (r: Attribute)
    ensures
        r.spec_name() == name@,
        r.spec_value() == value,
{
    Attribute::new(name, value)
}

/// The type `T`, described by `description`.
pub fn ty<T: ?Sized + 'static>(description: &'static str) -> (r: Type)
    ensures
        r.spec_description() == description@,
        is_identity_of::<T>(r.spec_type_id()),
{
    Type::of::<T>(description)
}

/// The environment of the given prototypes.
pub fn proto_environment(modules: Vec<ProtoModule>, functions: Vec<ProtoFunction>) -> (r: ProtoEnvironment)
    ensures
        r.spec_modules() == modules@,
        r.spec_functions() == functions@,
{
    ProtoEnvironment::new(modules, functions)
}

/// The function prototype of the given parts.
pub fn proto_function(
    name: &'static str,
    path: Path,
    module: Option<usize>,
    attributes: Vec<Attribute>,
    function_type: Type,
) -> (r: ProtoFunction)
    ensures
        r.spec_name() == name@,
        r.spec_path() == path@,
        r.spec_module() == module,
        r.spec_attributes() == attributes@,
        r.spec_function_type() == function_type.spec_type_id(),
{
    ProtoFunction::new(name, path, module, attributes, function_type)
}

/// The module prototype of the given parts.
pub fn proto_module(
    name: &'static str,
    path: Path,
    submodules: Vec<usize>,
    functions: Vec<usize>,
    parent_module: Option<usize>,
    attributes: Vec<Attribute>,
) -> (r: ProtoModule)
    ensures
        r.spec_name() == name@,
        r.spec_path() == path@,
        r.spec_submodules() == submodules@,
        r.spec_functions() == functions@,
        r.spec_parent() == parent_module,
        r.spec_attributes() == attributes@,
{
    ProtoModule::new(name, path, submodules, functions, parent_module, attributes)
}

/// The environment of the given handles.
pub fn environment(modules: Vec<Module>, functions: Vec<Function>) -> (r: Environment)
    ensures
        r.spec_modules() == modules@,
        r.spec_functions() == functions@,
{
    Environment::new(modules, functions)
}

/// The handle of `proto_function` in `environment`.
pub fn function(environment: &'static ProtoEnvironment, proto_function: &'static ProtoFunction) -> (r: Function)
    requires
        environment.wf(),
    ensures
        r.spec_environment() == environment,
        r.spec_proto() == *proto_function,
{
    Function::new(environment, proto_function)
}

/// The handle of `proto_module` in `environment`.
pub fn module(environment: &'static ProtoEnvironment, proto_module: &'static ProtoModule) -> (r: Module)
    requires
        environment.wf(),
        forall|k: int| 0 <= k < proto_module.spec_submodules().len() ==> #[trigger] proto_module.spec_submodules()[k] < environment.spec_modules().len(),
        forall|k: int| 0 <= k < proto_module.spec_functions().len() ==> #[trigger] proto_module.spec_functions()[k] < environment.spec_functions().len(),
    ensures
        r.spec_environment() == environment,
        r.spec_proto() == *proto_module,
{
    Module::new(environment, proto_module)
}

} // verus!
