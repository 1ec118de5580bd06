//! The environment a build exports: prototypes of the annotated functions
//! and modules, linked by index, and the handles that queries return.

use vstd::prelude::*;

use std::any::TypeId;

use crate::runtime::attribute::{is_identity_of, Attribute, Type};
use crate::runtime::path::Path;
use crate::runtime::query::{answers, any_of, filter_copied, filter_refs, picked};

verus! {

/// An annotated function as exported: its name, path, enclosing annotated
/// module, attributes, and the type of its exported pointer.
#[derive(Debug)]
pub struct ProtoFunction {
    pub(crate) name: &'static str,
    pub(crate) path: Path,
    pub(crate) module: Option<usize>,
    pub(crate) attributes: Vec<Attribute>,
    pub(crate) function_type: Type,
}

/// An annotated module as exported: its name, path, the annotated modules
/// and functions directly inside it, its enclosing annotated module, and
/// its attributes.
#[derive(Debug)]
pub struct ProtoModule {
    pub(crate) name: &'static str,
    pub(crate) path: Path,
    pub(crate) submodules: Vec<usize>,
    pub(crate) functions: Vec<usize>,
    pub(crate) parent_module: Option<usize>,
    pub(crate) attributes: Vec<Attribute>,
}

/// All annotated modules and functions of a crate.
#[derive(Debug)]
pub struct ProtoEnvironment {
    pub(crate) modules: Vec<ProtoModule>,
    pub(crate) functions: Vec<ProtoFunction>,
}

impl ProtoFunction {
    /// A function prototype with the given parts.
    pub fn new(
        name: &'static str,
        path: Path,
        module: Option<usize>,
        attributes: Vec<Attribute>,
        function_type: Type,
    ) -> (r: Self)
        ensures
            r.spec_name() == name@,
            r.spec_path() == path@,
            r.spec_module() == module,
            r.spec_attributes() == attributes@,
            r.spec_function_type() == function_type.spec_type_id(),
    {
        ProtoFunction { name, path, module, attributes, function_type }
    }

    pub closed spec fn spec_module(&self) -> Option<usize> {
        self.module
    }

    pub closed spec fn spec_name(&self) -> Seq<char> {
        self.name@
    }

    pub closed spec fn spec_path(&self) -> Seq<Seq<char>> {
        self.path@
    }

    pub closed spec fn spec_attributes(&self) -> Seq<Attribute> {
        self.attributes@
    }

    pub closed spec fn spec_function_type(&self) -> TypeId {
        self.function_type.spec_type_id()
    }
}

impl ProtoModule {
    /// A module prototype with the given parts.
    pub fn new(
        name: &'static str,
        path: Path,
        submodules: Vec<usize>,
        functions: Vec<usize>,
        parent_module: Option<usize>,
        attributes: Vec<Attribute>,
    ) -> (r: Self)
        ensures
            r.spec_name() == name@,
            r.spec_path() == path@,
            r.spec_submodules() == submodules@,
            r.spec_functions() == functions@,
            r.spec_parent() == parent_module,
            r.spec_attributes() == attributes@,
    {
        ProtoModule { name, path, submodules, functions, parent_module, attributes }
    }

    pub closed spec fn spec_name(&self) -> Seq<char> {
        self.name@
    }

    pub closed spec fn spec_path(&self) -> Seq<Seq<char>> {
        self.path@
    }

    pub closed spec fn spec_submodules(&self) -> Seq<usize> {
        self.submodules@
    }

    pub closed spec fn spec_functions(&self) -> Seq<usize> {
        self.functions@
    }

    pub closed spec fn spec_parent(&self) -> Option<usize> {
        self.parent_module
    }

    pub closed spec fn spec_attributes(&self) -> Seq<Attribute> {
        self.attributes@
    }
}

impl ProtoEnvironment {
    /// An environment of the given prototypes.
    pub fn new(modules: Vec<ProtoModule>, functions: Vec<ProtoFunction>) -> (r: Self)
        ensures
            r.spec_modules() == modules@,
            r.spec_functions() == functions@,
    {
        ProtoEnvironment { modules, functions }
    }

    pub closed spec fn spec_modules(&self) -> Seq<ProtoModule> {
        self.modules@
    }

    pub closed spec fn spec_functions(&self) -> Seq<ProtoFunction> {
        self.functions@
    }

    /// Whether every index in the environment refers to an existing prototype.
    pub open spec fn wf(&self) -> bool {
        &&& forall|i: int|
            0 <= i < self.spec_functions().len() ==> match (#[trigger] self.spec_functions()[i]).spec_module() {
                Some(m) => m < self.spec_modules().len(),
                None => true,
            }
        &&& forall|i: int, k: int|
            0 <= i < self.spec_modules().len() && 0 <= k < self.spec_modules()[i].spec_submodules().len()
                ==> #[trigger] self.spec_modules()[i].spec_submodules()[k] < self.spec_modules().len()
        &&& forall|i: int, k: int|
            0 <= i < self.spec_modules().len() && 0 <= k < self.spec_modules()[i].spec_functions().len()
                ==> #[trigger] self.spec_modules()[i].spec_functions()[k] < self.spec_functions().len()
        &&& forall|i: int|
            0 <= i < self.spec_modules().len() ==> match (#[trigger] self.spec_modules()[i]).spec_parent() {
                Some(p) => p < self.spec_modules().len(),
                None => true,
            }
    }

    /// The handle of the function at `index`.
    pub fn get_function(&'static self, index: usize) -> (f: Function)
        requires
            self.wf(),
            index < self.spec_functions().len(),
        ensures
            f.spec_environment() == self,
            f.spec_proto() == self.spec_functions()[index as int],
    {
        Function { environment: self, proto_function: &self.functions[index] }
    }

    /// The handle of the module at `index`.
    pub fn get_module(&'static self, index: usize) -> (m: Module)
        requires
            self.wf(),
            index < self.spec_modules().len(),
        ensures
            m.spec_environment() == self,
            m.spec_proto() == self.spec_modules()[index as int],
    {
        Module { environment: self, proto_module: &self.modules[index] }
    }
}

/// The handle of an annotated function.
#[derive(Clone, Copy, Debug)]
pub struct Function {
    pub(crate) environment: &'static ProtoEnvironment,
    pub(crate) proto_function: &'static ProtoFunction,
}

/// The handle of an annotated module.
#[derive(Clone, Copy, Debug)]
pub struct Module {
    pub(crate) environment: &'static ProtoEnvironment,
    pub(crate) proto_module: &'static ProtoModule,
}

/// A requested function type that is not the type of a function's pointer.
#[derive(Debug)]
pub struct TypeMismatch {
    pub(crate) description: &'static str,
    pub(crate) type_id: TypeId,
    pub(crate) expected_type_id: TypeId,
}

impl TypeMismatch {
    pub closed spec fn spec_type_id(&self) -> TypeId {
        self.type_id
    }

    pub closed spec fn spec_expected_type_id(&self) -> TypeId {
        self.expected_type_id
    }

    pub closed spec fn spec_description(&self) -> Seq<char> {
        self.description@
    }

    /// The description of the requested type.
    pub fn description(&self) -> (r: &'static str)
        ensures
            r@ == self.spec_description(),
    {
        self.description
    }

    /// The identity of the requested type.
    pub fn type_id(&self) -> (r: TypeId)
        ensures
            r == self.spec_type_id(),
    {
        crate::trusted::copy_type_id(&self.type_id)
    }

    /// The identity of the function pointer's type.
    pub fn expected_type_id(&self) -> (r: TypeId)
        ensures
            r == self.spec_expected_type_id(),
    {
        crate::trusted::copy_type_id(&self.expected_type_id)
    }
}

/// The handles of the functions at `indices`.
pub closed spec fn function_handles(env: &'static ProtoEnvironment, indices: Seq<usize>) -> Seq<Function> {
    indices.map_values(|i: usize| Function { environment: env, proto_function: &env.spec_functions()[i as int] })
}

/// Each handle of [`function_handles`] is that of the function at its index.
pub proof fn lemma_function_handles(env: &'static ProtoEnvironment, indices: Seq<usize>)
    ensures
        function_handles(env, indices).len() == indices.len(),
        forall|k: int|
            0 <= k < indices.len() ==> (#[trigger] function_handles(env, indices)[k]).spec_environment() == env
                && function_handles(env, indices)[k].spec_proto() == env.spec_functions()[indices[k] as int],
{
}

/// Each handle of [`module_handles`] is that of the module at its index.
pub proof fn lemma_module_handles(env: &'static ProtoEnvironment, indices: Seq<usize>)
    ensures
        module_handles(env, indices).len() == indices.len(),
        forall|k: int|
            0 <= k < indices.len() ==> (#[trigger] module_handles(env, indices)[k]).spec_environment() == env
                && module_handles(env, indices)[k].spec_proto() == env.spec_modules()[indices[k] as int],
{
}

/// The handles of the modules at `indices`.
pub closed spec fn module_handles(env: &'static ProtoEnvironment, indices: Seq<usize>) -> Seq<Module> {
    indices.map_values(|i: usize| Module { environment: env, proto_module: &env.spec_modules()[i as int] })
}

impl Function {
    /// The handle of `proto_function` in `environment`.
    pub fn new(environment: &'static ProtoEnvironment, proto_function: &'static ProtoFunction) -> (f: Self)
        requires
            environment.wf(),
        ensures
            f.spec_environment() == environment,
            f.spec_proto() == *proto_function,
    {
        Function { environment, proto_function }
    }

    #[verifier::type_invariant]
    closed spec fn valid(self) -> bool {
        self.environment.wf()
    }

    pub closed spec fn spec_environment(&self) -> &'static ProtoEnvironment {
        self.environment
    }

    pub closed spec fn spec_proto(&self) -> ProtoFunction {
        *self.proto_function
    }

    /// The function's name.
    pub fn name(&self) -> (r: &'static str)
        ensures
            r@ == self.spec_proto().spec_name(),
    {
        self.proto_function.name
    }

    /// The function's path.
    pub fn path(&self) -> (r: &'static Path)
        ensures
            r@ == self.spec_proto().spec_path(),
    {
        &self.proto_function.path
    }

    /// The innermost annotated module around the function.
    pub fn module(&self) -> (r: Option<Module>)
        requires
            self.spec_proto().spec_module() matches Some(m) ==> m < self.spec_environment().spec_modules().len(),
        ensures
            match self.spec_proto().spec_module() {
                Some(m) => (r matches Some(md) && md.spec_environment() == self.spec_environment()
                    && md.spec_proto() == self.spec_environment().spec_modules()[m as int]),
                None => r is None,
            },
    {
        proof {
            use_type_invariant(self);
        }
        match self.proto_function.module {
            Some(id) => Some(self.environment.get_module(id)),
            None => None,
        }
    }

    /// The function's attributes.
    pub fn attributes(&self) -> (r: &'static [Attribute])
        ensures
            r@ == self.spec_proto().spec_attributes(),
    {
        self.proto_function.attributes.as_slice()
    }

    /// The function's attributes that `f` accepts, in order.
    pub fn find_attributes_such_that<F: Fn(&Attribute) -> bool>(&self, f: F) -> (r: Vec<&'static Attribute>)
        requires
            forall|i: int| 0 <= i < self.spec_proto().spec_attributes().len() ==> f.requires((&self.spec_proto().spec_attributes()[i],)),
        ensures
            exists|keep: Seq<bool>|
                answers(f, self.spec_proto().spec_attributes(), keep)
                    && crate::runtime::query::derefs(r@) == picked(self.spec_proto().spec_attributes(), keep),
    {
        filter_refs(self.attributes(), &f)
    }

    /// Whether `f` accepts one of the function's attributes.
    pub fn has_attribute_such_that<F: Fn(&Attribute) -> bool>(&self, f: F) -> (r: bool)
        requires
            forall|i: int| 0 <= i < self.spec_proto().spec_attributes().len() ==> f.requires((&self.spec_proto().spec_attributes()[i],)),
        ensures
            r ==> exists|i: int| 0 <= i < self.spec_proto().spec_attributes().len() && f.ensures((&self.spec_proto().spec_attributes()[i],), true),
            !r ==> forall|i: int| 0 <= i < self.spec_proto().spec_attributes().len() ==> f.ensures((&self.spec_proto().spec_attributes()[i],), false),
    {
        any_of(self.attributes(), &f)
    }

    /// Whether the function's pointer has the type with identity `id`.
    pub fn same_as_id(&self, id: &TypeId) -> (r: bool)
        ensures
            r == (self.spec_proto().spec_function_type() == *id),
    {
        self.proto_function.function_type.same_as_id(id)
    }

    /// Whether the function's pointer has type `F`: whether the identity of
    /// its type is the one that `TypeId::of::<F>()` gives, whatever the
    /// function's attributes.
    pub fn same_as<F: 'static>(&self) -> (r: bool)
        ensures
            exists|id: TypeId| is_identity_of::<F>(id) && r == (self.spec_proto().spec_function_type() == id),
    {
        self.proto_function.function_type.same_as::<F>()
    }

    /// The check before a cast of the function's pointer to the type with
    /// identity `id`, described by `description`: nothing if it is the
    /// pointer's type, else the mismatch.
    pub fn check_cast(&self, id: TypeId, description: &'static str) -> (r: Result<(), TypeMismatch>)
        ensures
            self.spec_proto().spec_function_type() == id ==> r is Ok,
            self.spec_proto().spec_function_type() != id ==> (r matches Err(e) && e.spec_type_id() == id
                && e.spec_expected_type_id() == self.spec_proto().spec_function_type()
                && e.spec_description() == description@),
    {
        if self.same_as_id(&id) {
            Ok(())
        } else {
            Err(TypeMismatch { description, type_id: id, expected_type_id: self.proto_function.function_type.type_id() })
        }
    }
}

impl Module {
    /// The handle of `proto_module` in `environment`.
    pub fn new(environment: &'static ProtoEnvironment, proto_module: &'static ProtoModule) -> (m: Self)
        requires
            environment.wf(),
            forall|k: int| 0 <= k < proto_module.spec_submodules().len() ==> #[trigger] proto_module.spec_submodules()[k] < environment.spec_modules().len(),
            forall|k: int| 0 <= k < proto_module.spec_functions().len() ==> #[trigger] proto_module.spec_functions()[k] < environment.spec_functions().len(),
        ensures
            m.spec_environment() == environment,
            m.spec_proto() == *proto_module,
    {
        Module { environment, proto_module }
    }

    #[verifier::type_invariant]
    closed spec fn valid(self) -> bool {
        &&& self.environment.wf()
        &&& forall|k: int| 0 <= k < self.proto_module.spec_submodules().len() ==> #[trigger] self.proto_module.spec_submodules()[k] < self.environment.spec_modules().len()
        &&& forall|k: int| 0 <= k < self.proto_module.spec_functions().len() ==> #[trigger] self.proto_module.spec_functions()[k] < self.environment.spec_functions().len()
    }

    pub closed spec fn spec_environment(&self) -> &'static ProtoEnvironment {
        self.environment
    }

    pub closed spec fn spec_proto(&self) -> ProtoModule {
        *self.proto_module
    }

    /// The module's name.
    pub fn name(&self) -> (r: &'static str)
        ensures
            r@ == self.spec_proto().spec_name(),
    {
        self.proto_module.name
    }

    /// The module's path.
    pub fn path(&self) -> (r: &'static Path)
        ensures
            r@ == self.spec_proto().spec_path(),
    {
        &self.proto_module.path
    }

    /// The module's attributes.
    pub fn attributes(&self) -> (r: &'static [Attribute])
        ensures
            r@ == self.spec_proto().spec_attributes(),
    {
        self.proto_module.attributes.as_slice()
    }

    /// The handles of the annotated functions directly inside the module.
    pub fn functions(&self) -> (r: Vec<Function>)
        ensures
            r@ == function_handles(self.spec_environment(), self.spec_proto().spec_functions()),
    {
        proof {
            use_type_invariant(self);
        }
        let ids = &self.proto_module.functions;
        let mut r: Vec<Function> = Vec::new();
        let mut i: usize = 0;
        while i < ids.len()
            invariant
                i <= ids@.len(),
                ids@ == self.spec_proto().spec_functions(),
                self.environment.wf(),
                forall|k: int| 0 <= k < ids@.len() ==> #[trigger] ids@[k] < self.environment.spec_functions().len(),
                r@ == function_handles(self.environment, ids@.take(i as int)),
            decreases ids.len() - i,
        {
            r.push(self.environment.get_function(ids[i]));
            assert(function_handles(self.environment, ids@.take(i + 1)) =~= function_handles(self.environment, ids@.take(i as int)).push(r@.last()));
            i = i + 1;
        }
        assert(ids@.take(i as int) =~= ids@);
        r
    }

    /// The handles of the annotated modules directly inside the module.
    pub fn modules(&self) -> (r: Vec<Module>)
        ensures
            r@ == module_handles(self.spec_environment(), self.spec_proto().spec_submodules()),
    {
        proof {
            use_type_invariant(self);
        }
        let ids = &self.proto_module.submodules;
        let mut r: Vec<Module> = Vec::new();
        let mut i: usize = 0;
        while i < ids.len()
            invariant
                i <= ids@.len(),
                ids@ == self.spec_proto().spec_submodules(),
                self.environment.wf(),
                forall|k: int| 0 <= k < ids@.len() ==> #[trigger] ids@[k] < self.environment.spec_modules().len(),
                r@ == module_handles(self.environment, ids@.take(i as int)),
            decreases ids.len() - i,
        {
            r.push(self.environment.get_module(ids[i]));
            assert(module_handles(self.environment, ids@.take(i + 1)) =~= module_handles(self.environment, ids@.take(i as int)).push(r@.last()));
            i = i + 1;
        }
        assert(ids@.take(i as int) =~= ids@);
        r
    }

    /// The annotated functions directly inside the module that `f` accepts, in order.
    pub fn find_functions_such_that<F: Fn(&Function) -> bool>(&self, f: F) -> (r: Vec<Function>)
        requires
            forall|x: Function| f.requires((&x,)),
        ensures
            exists|keep: Seq<bool>|
                answers(f, function_handles(self.spec_environment(), self.spec_proto().spec_functions()), keep)
                    && r@ == picked(function_handles(self.spec_environment(), self.spec_proto().spec_functions()), keep),
    {
        let all = self.functions();
        filter_copied(&all, &f)
    }

    /// The annotated modules directly inside the module that `f` accepts, in order.
    pub fn find_modules_such_that<F: Fn(&Module) -> bool>(&self, f: F) -> (r: Vec<Module>)
        requires
            forall|x: Module| f.requires((&x,)),
        ensures
            exists|keep: Seq<bool>|
                answers(f, module_handles(self.spec_environment(), self.spec_proto().spec_submodules()), keep)
                    && r@ == picked(module_handles(self.spec_environment(), self.spec_proto().spec_submodules()), keep),
    {
        let all = self.modules();
        filter_copied(&all, &f)
    }

    /// The module's attributes that `f` accepts, in order.
    pub fn find_attributes_such_that<F: Fn(&Attribute) -> bool>(&self, f: F) -> (r: Vec<&'static Attribute>)
        requires
            forall|i: int| 0 <= i < self.spec_proto().spec_attributes().len() ==> f.requires((&self.spec_proto().spec_attributes()[i],)),
        ensures
            exists|keep: Seq<bool>|
                answers(f, self.spec_proto().spec_attributes(), keep)
                    && crate::runtime::query::derefs(r@) == picked(self.spec_proto().spec_attributes(), keep),
    {
        filter_refs(self.attributes(), &f)
    }

    /// Whether `f` accepts one of the module's attributes.
    pub fn has_attribute_such_that<F: Fn(&Attribute) -> bool>(&self, f: F) -> (r: bool)
        requires
            forall|i: int| 0 <= i < self.spec_proto().spec_attributes().len() ==> f.requires((&self.spec_proto().spec_attributes()[i],)),
        ensures
            r ==> exists|i: int| 0 <= i < self.spec_proto().spec_attributes().len() && f.ensures((&self.spec_proto().spec_attributes()[i],), true),
            !r ==> forall|i: int| 0 <= i < self.spec_proto().spec_attributes().len() ==> f.ensures((&self.spec_proto().spec_attributes()[i],), false),
    {
        any_of(self.attributes(), &f)
    }
}

/// The handles of all annotated modules and functions of a crate.
#[derive(Debug)]
pub struct Environment {
    pub(crate) modules: Vec<Module>,
    pub(crate) functions: Vec<Function>,
}

impl Environment {
    /// An environment of the given handles.
    pub fn new(modules: Vec<Module>, functions: Vec<Function>) -> (r: Self)
        ensures
            r.spec_modules() == modules@,
            r.spec_functions() == functions@,
    {
        Environment { modules, functions }
    }

    pub closed spec fn spec_modules(&self) -> Seq<Module> {
        self.modules@
    }

    pub closed spec fn spec_functions(&self) -> Seq<Function> {
        self.functions@
    }

    /// The annotated functions that `f` accepts, in order.
    pub fn find_functions_such_that<F: Fn(&Function) -> bool>(&self, f: F) -> (r: Vec<Function>)
        requires
            forall|x: Function| f.requires((&x,)),
        ensures
            exists|keep: Seq<bool>| answers(f, self.spec_functions(), keep) && r@ == picked(self.spec_functions(), keep),
    {
        let r = filter_copied(&self.functions, &f);
        proof {
            let keep = choose|keep: Seq<bool>| answers(f, self.functions@, keep) && r@ == picked(self.functions@, keep);
            assert(self.spec_functions() == self.functions@);
            assert(answers(f, self.spec_functions(), keep));
            assert(r@ == picked(self.spec_functions(), keep));
        }
        r
    }

    /// The annotated modules that `f` accepts, in order.
    pub fn find_modules_such_that<F: Fn(&Module) -> bool>(&self, f: F) -> (r: Vec<Module>)
        requires
            forall|x: Module| f.requires((&x,)),
        ensures
            exists|keep: Seq<bool>| answers(f, self.spec_modules(), keep) && r@ == picked(self.spec_modules(), keep),
    {
        let r = filter_copied(&self.modules, &f);
        proof {
            let keep = choose|keep: Seq<bool>| answers(f, self.modules@, keep) && r@ == picked(self.modules@, keep);
            assert(answers(f, self.spec_modules(), keep));
            assert(r@ == picked(self.spec_modules(), keep));
        }
        r
    }
}

} // verus!
