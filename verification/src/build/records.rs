//! The annotated functions and modules that a scan finds, and the names
//! that the generated environment gives them.

use vstd::prelude::*;

use crate::text::{
    decimal, decimal_string, hex_fixed, join_strings, join_with, path_sep, replace_path_sep,
    replace_path_separators, views,
};
use crate::trusted::uuid_simple;

verus! {

/// What a scan records of an annotated function.
pub ghost struct FunctionView {
    pub id: int,
    pub name: Seq<char>,
    pub path: Seq<Seq<char>>,
    pub uuid: u128,
    pub line: int,
    pub source: Seq<char>,
    pub module: Option<int>,
}

/// What a scan records of an annotated module.
pub ghost struct ModuleView {
    pub id: int,
    pub name: Seq<char>,
    pub path: Seq<Seq<char>>,
    pub parent: Option<int>,
    pub modules: Seq<int>,
    pub functions: Seq<int>,
    pub uuid: u128,
    pub line: int,
    pub source: Seq<char>,
}

pub open spec fn opt_int(o: Option<usize>) -> Option<int> {
    match o {
        Some(x) => Some(x as int),
        None => None,
    }
}

pub open spec fn ints(s: Seq<usize>) -> Seq<int> {
    s.map_values(|x: usize| x as int)
}

/// An annotated function.
pub struct AnnotatedFunction {
    pub(crate) id: usize,
    pub(crate) function_name: String,
    pub(crate) function_path: Vec<String>,
    pub(crate) uuid: u128,
    pub(crate) line: usize,
    pub(crate) source_path: String,
    pub(crate) annotated_module: Option<usize>,
}

/// An annotated module.
pub struct AnnotatedModule {
    pub(crate) id: usize,
    pub(crate) name: String,
    pub(crate) path: Vec<String>,
    pub(crate) parent: Option<usize>,
    pub(crate) modules: Vec<usize>,
    pub(crate) functions: Vec<usize>,
    pub(crate) uuid: u128,
    pub(crate) line: usize,
    pub(crate) source_path: String,
}

impl View for AnnotatedFunction {
    type V = FunctionView;

    closed spec fn view(&self) -> FunctionView {
        FunctionView {
            id: self.id as int,
            name: self.function_name@,
            path: views(self.function_path@),
            uuid: self.uuid,
            line: self.line as int,
            source: self.source_path@,
            module: opt_int(self.annotated_module),
        }
    }
}

impl View for AnnotatedModule {
    type V = ModuleView;

    closed spec fn view(&self) -> ModuleView {
        ModuleView {
            id: self.id as int,
            name: self.name@,
            path: views(self.path@),
            parent: opt_int(self.parent),
            modules: ints(self.modules@),
            functions: ints(self.functions@),
            uuid: self.uuid,
            line: self.line as int,
            source: self.source_path@,
        }
    }
}

/// The views of a sequence of function records.
pub open spec fn function_views(s: Seq<AnnotatedFunction>) -> Seq<FunctionView> {
    s.map_values(|f: AnnotatedFunction| f@)
}

/// The views of a sequence of module records.
pub open spec fn module_views(s: Seq<AnnotatedModule>) -> Seq<ModuleView> {
    s.map_values(|m: AnnotatedModule| m@)
}

/// The symbol under which a function's pointer is exported:
/// `annotate$<path>$<source>:<line>`.
pub open spec fn function_link_name(path: Seq<Seq<char>>, source: Seq<char>, line: nat) -> Seq<char> {
    "annotate$"@ + join_with(path, path_sep()) + "$"@ + source + ":"@ + decimal(line)
}

/// The symbol under which an item's attributes are exported:
/// `annotate$attr$<path>$<source>:<line>`.
pub open spec fn attributes_link_name(path: Seq<Seq<char>>, source: Seq<char>, line: nat) -> Seq<
    char,
> {
    "annotate$attr$"@ + join_with(path, path_sep()) + "$"@ + source + ":"@ + decimal(line)
}

/// A generated identifier: `<prefix><path with :: as _>_<uuid in hex>`.
pub open spec fn generated_identifier(prefix: Seq<char>, path: Seq<Seq<char>>, uuid: u128) -> Seq<
    char,
> {
    prefix + replace_path_sep(join_with(path, path_sep())) + "_"@ + hex_fixed(uuid as nat, 32)
}

fn link_name(prefix: &str, path: &Vec<String>, source: &String, line: usize) -> (r: String)
    ensures
        r@ == prefix@ + join_with(views(path@), path_sep()) + "$"@ + source@ + ":"@ + decimal(
            line as nat,
        ),
{
    let mut r = String::from_str(prefix);
    let joined = join_strings(path, "::");
    r.append(joined.as_str());
    r.append("$");
    r.append(source.as_str());
    r.append(":");
    let l = decimal_string(line as u64);
    r.append(l.as_str());
    proof {
        reveal_strlit("::");
        assert("::"@ =~= path_sep());
    }
    r
}

fn identifier(prefix: &str, path: &Vec<String>, uuid: u128) -> (r: String)
    ensures
        r@ == generated_identifier(prefix@, views(path@), uuid),
{
    let mut r = String::from_str(prefix);
    let joined = join_strings(path, "::");
    let replaced = replace_path_separators(joined.as_str());
    r.append(replaced.as_str());
    r.append("_");
    let u = uuid_simple(uuid);
    r.append(u.as_str());
    proof {
        reveal_strlit("::");
        assert("::"@ =~= path_sep());
    }
    r
}

impl AnnotatedFunction {
    /// A record with the given fields.
    pub(crate) fn new(
        id: usize,
        function_name: String,
        function_path: Vec<String>,
        uuid: u128,
        line: usize,
        source_path: String,
        annotated_module: Option<usize>,
    ) -> (r: Self)
        ensures
            r@ == (FunctionView {
                id: id as int,
                name: function_name@,
                path: views(function_path@),
                uuid,
                line: line as int,
                source: source_path@,
                module: opt_int(annotated_module),
            }),
    {
        AnnotatedFunction { id, function_name, function_path, uuid, line, source_path, annotated_module }
    }

    /// The function's name.
    pub fn name(&self) -> (r: &str)
        ensures
            r@ == self@.name,
    {
        self.function_name.as_str()
    }

    /// The function's index among the annotated functions.
    pub fn id(&self) -> (r: usize)
        ensures
            r == self@.id,
    {
        self.id
    }

    /// The path of the function, its name last.
    pub fn path(&self) -> (r: &Vec<String>)
        ensures
            views(r@) == self@.path,
    {
        &self.function_path
    }

    /// The line of the function's annotation.
    pub fn line(&self) -> (r: usize)
        ensures
            r == self@.line,
    {
        self.line
    }

    /// The index of the innermost annotated module around the function.
    pub fn module_id(&self) -> (r: Option<usize>)
        ensures
            opt_int(r) == self@.module,
    {
        self.annotated_module
    }

    /// The symbol of the function's exported pointer.
    pub fn link_name(&self) -> (r: String)
        ensures
            r@ == function_link_name(self@.path, self@.source, self@.line as nat),
    {
        proof {
            reveal_strlit("annotate$");
        }
        link_name("annotate$", &self.function_path, &self.source_path, self.line)
    }

    /// The symbol of the function's exported attributes.
    pub fn attrib_link_name(&self) -> (r: String)
        ensures
            r@ == attributes_link_name(self@.path, self@.source, self@.line as nat),
    {
        proof {
            reveal_strlit("annotate$attr$");
        }
        link_name("annotate$attr$", &self.function_path, &self.source_path, self.line)
    }

    /// The identifier the generated code declares the function's pointer under.
    pub fn generated_function_name(&self) -> (r: String)
        ensures
            r@ == generated_identifier("annotate_fn_"@, self@.path, self@.uuid),
    {
        identifier("annotate_fn_", &self.function_path, self.uuid)
    }

    /// The identifier the generated code declares the function's attributes under.
    pub fn generate_attributes_function_identifier(&self) -> (r: String)
        ensures
            r@ == generated_identifier("annotate_fn_attrib_"@, self@.path, self@.uuid),
    {
        identifier("annotate_fn_attrib_", &self.function_path, self.uuid)
    }
}

impl AnnotatedModule {
    /// A record with the given fields and nothing inside yet.
    pub(crate) fn new(
        id: usize,
        name: String,
        path: Vec<String>,
        parent: Option<usize>,
        uuid: u128,
        line: usize,
        source_path: String,
    ) -> (r: Self)
        ensures
            r@ == (ModuleView {
                id: id as int,
                name: name@,
                path: views(path@),
                parent: opt_int(parent),
                modules: seq![],
                functions: seq![],
                uuid,
                line: line as int,
                source: source_path@,
            }),
    {
        let r = AnnotatedModule {
            id,
            name,
            path,
            parent,
            modules: Vec::new(),
            functions: Vec::new(),
            uuid,
            line,
            source_path,
        };
        assert(ints(r.modules@) =~= seq![]);
        assert(ints(r.functions@) =~= seq![]);
        r
    }

    /// Adds a function index after the module's own.
    pub(crate) fn push_function(&mut self, id: usize)
        ensures
            final(self)@ == (ModuleView { functions: old(self)@.functions.push(id as int), ..old(self)@ }),
    {
        self.functions.push(id);
        assert(ints(self.functions@) =~= ints(old(self).functions@).push(id as int));
    }

    /// Adds a module index after the module's own.
    pub(crate) fn push_module(&mut self, id: usize)
        ensures
            final(self)@ == (ModuleView { modules: old(self)@.modules.push(id as int), ..old(self)@ }),
    {
        self.modules.push(id);
        assert(ints(self.modules@) =~= ints(old(self).modules@).push(id as int));
    }

    /// The module's index among the annotated modules.
    pub fn id(&self) -> (r: usize)
        ensures
            r == self@.id,
    {
        self.id
    }

    /// The module's name.
    pub fn name(&self) -> (r: &str)
        ensures
            r@ == self@.name,
    {
        self.name.as_str()
    }

    /// The module's path, its name last.
    pub fn path(&self) -> (r: &Vec<String>)
        ensures
            views(r@) == self@.path,
    {
        &self.path
    }

    /// The line of the module's annotation.
    pub fn line(&self) -> (r: usize)
        ensures
            r == self@.line,
    {
        self.line
    }

    /// The index of the innermost annotated module around this one.
    pub fn parent_id(&self) -> (r: Option<usize>)
        ensures
            opt_int(r) == self@.parent,
    {
        self.parent
    }

    /// The indices of the annotated modules directly inside this one.
    pub fn module_ids(&self) -> (r: &Vec<usize>)
        ensures
            ints(r@) == self@.modules,
    {
        &self.modules
    }

    /// The indices of the annotated functions directly inside this one.
    pub fn function_ids(&self) -> (r: &Vec<usize>)
        ensures
            ints(r@) == self@.functions,
    {
        &self.functions
    }

    /// The symbol of the module's exported attributes.
    pub fn generate_attributes_function_link_name(&self) -> (r: String)
        ensures
            r@ == attributes_link_name(self@.path, self@.source, self@.line as nat),
    {
        proof {
            reveal_strlit("annotate$attr$");
        }
        link_name("annotate$attr$", &self.path, &self.source_path, self.line)
    }

    /// The identifier the generated code declares the module's attributes under.
    pub fn generate_attributes_function_identifier(&self) -> (r: String)
        ensures
            r@ == generated_identifier("annotate_mod_attrib_"@, self@.path, self@.uuid),
    {
        identifier("annotate_mod_attrib_", &self.path, self.uuid)
    }
}

/// The annotated modules and functions of a scan.
pub struct Environment {
    pub(crate) modules: Vec<AnnotatedModule>,
    pub(crate) functions: Vec<AnnotatedFunction>,
}

impl Environment {
    /// An environment of the given records.
    pub(crate) fn new(modules: Vec<AnnotatedModule>, functions: Vec<AnnotatedFunction>) -> (e: Self)
        ensures
            e.spec_modules() == module_views(modules@),
            e.spec_functions() == function_views(functions@),
    {
        Environment { modules, functions }
    }

    pub closed spec fn spec_modules(&self) -> Seq<ModuleView> {
        module_views(self.modules@)
    }

    pub closed spec fn spec_functions(&self) -> Seq<FunctionView> {
        function_views(self.functions@)
    }

    /// The annotated modules, by index.
    pub fn modules(&self) -> (r: &Vec<AnnotatedModule>)
        ensures
            module_views(r@) == self.spec_modules(),
    {
        &self.modules
    }

    /// The annotated functions, by index.
    pub fn functions(&self) -> (r: &Vec<AnnotatedFunction>)
        ensures
            function_views(r@) == self.spec_functions(),
    {
        &self.functions
    }

    /// The identifiers of the functions' pointers, by function index: the
    /// symbols the generated code keeps linked.
    pub fn function_pointer_identifiers(&self) -> (r: Vec<String>)
        ensures
            r@.len() == self.spec_functions().len(),
            forall|i: int|
                0 <= i < r@.len() ==> #[trigger] r@[i]@ == generated_identifier(
                    "annotate_fn_"@,
                    self.spec_functions()[i].path,
                    self.spec_functions()[i].uuid,
                ),
    {
        let mut r: Vec<String> = Vec::new();
        let mut i: usize = 0;
        while i < self.functions.len()
            invariant
                i <= self.functions@.len(),
                r@.len() == i,
                forall|k: int|
                    0 <= k < i ==> #[trigger] r@[k]@ == generated_identifier(
                        "annotate_fn_"@,
                        self.spec_functions()[k].path,
                        self.spec_functions()[k].uuid,
                    ),
            decreases self.functions.len() - i,
        {
            r.push(self.functions[i].generated_function_name());
            i = i + 1;
        }
        r
    }

    /// The identifiers of the functions' attribute lists, by function index.
    pub fn function_attribute_identifiers(&self) -> (r: Vec<String>)
        ensures
            r@.len() == self.spec_functions().len(),
            forall|i: int|
                0 <= i < r@.len() ==> #[trigger] r@[i]@ == generated_identifier(
                    "annotate_fn_attrib_"@,
                    self.spec_functions()[i].path,
                    self.spec_functions()[i].uuid,
                ),
    {
        let mut r: Vec<String> = Vec::new();
        let mut i: usize = 0;
        while i < self.functions.len()
            invariant
                i <= self.functions@.len(),
                r@.len() == i,
                forall|k: int|
                    0 <= k < i ==> #[trigger] r@[k]@ == generated_identifier(
                        "annotate_fn_attrib_"@,
                        self.spec_functions()[k].path,
                        self.spec_functions()[k].uuid,
                    ),
            decreases self.functions.len() - i,
        {
            r.push(self.functions[i].generate_attributes_function_identifier());
            i = i + 1;
        }
        r
    }

    /// The identifiers of the modules' attribute lists, by module index.
    pub fn module_attribute_identifiers(&self) -> (r: Vec<String>)
        ensures
            r@.len() == self.spec_modules().len(),
            forall|i: int|
                0 <= i < r@.len() ==> #[trigger] r@[i]@ == generated_identifier(
                    "annotate_mod_attrib_"@,
                    self.spec_modules()[i].path,
                    self.spec_modules()[i].uuid,
                ),
    {
        let mut r: Vec<String> = Vec::new();
        let mut i: usize = 0;
        while i < self.modules.len()
            invariant
                i <= self.modules@.len(),
                r@.len() == i,
                forall|k: int|
                    0 <= k < i ==> #[trigger] r@[k]@ == generated_identifier(
                        "annotate_mod_attrib_"@,
                        self.spec_modules()[k].path,
                        self.spec_modules()[k].uuid,
                    ),
            decreases self.modules.len() - i,
        {
            r.push(self.modules[i].generate_attributes_function_identifier());
            i = i + 1;
        }
        r
    }
}

} // verus!
