//! The scanner's state machine. A driver walks the syntax tree of a crate
//! and reports each item to the [`Visitor`]; the visitor decides which items
//! are annotated and records them, with the modules around them.

use vstd::prelude::*;

use crate::build::config::{derive_names, derive_specs, CustomDerive};
use crate::build::derive::{copy_string, forest, CustomModuleDerive, DeriveTree};
use crate::build::records::{
    function_views, module_views, AnnotatedFunction, AnnotatedModule, Environment, FunctionView,
    ModuleView,
};
use crate::build::table::{merged, ModuleDeriveTable};
use crate::text::{const_str_equal, copy_str, views};
use crate::paths::{joined, plain_join};
use crate::trusted::{fresh_uuid, join_paths};

verus! {

/// What the scanner reads of an attribute: the last segment of its path,
/// the line it starts on, and, for an attribute whose arguments are a list
/// of paths, the last segment of each of them.
pub struct AttrInfo {
    pub name: Option<String>,
    pub line: usize,
    pub list_paths: Option<Vec<String>>,
}

/// The pragma name an attribute with last path segment `name` stands for.
pub open spec fn annotation_name(pragmas: Seq<Seq<char>>, name: Option<String>) -> Option<Seq<char>> {
    match name {
        Some(n) => if n@ == "pragma"@ || pragmas.contains(n@) {
            Some(n@)
        } else {
            None
        },
        None => None,
    }
}

/// The index of the first attribute of `attrs` that is an annotation.
pub open spec fn first_annotation(pragmas: Seq<Seq<char>>, attrs: Seq<AttrInfo>) -> Option<int>
    decreases attrs.len(),
{
    if attrs.len() == 0 {
        None
    } else {
        match first_annotation(pragmas, attrs.drop_last()) {
            Some(i) => Some(i),
            None => if annotation_name(pragmas, attrs.last().name) is Some {
                Some(attrs.len() - 1)
            } else {
                None
            },
        }
    }
}

/// The paths of the functions that a derive adds under `prefix`, in the
/// order they are added: the derive's own functions, then those of its
/// modules in turn; a named derive adds its name to the prefix.
pub open spec fn derive_function_paths(t: DeriveTree, prefix: Seq<Seq<char>>) -> Seq<Seq<Seq<char>>>
    decreases t, 1nat,
{
    let p = match t.name() {
        Some(n) => prefix.push(n),
        None => prefix,
    };
    t.functions().map_values(|f: Seq<char>| p.push(f)) + forest_function_paths(t.modules(), p, t.modules().len() as int)
}

/// The paths of the functions that the first `n` derives of `ts` add under `prefix`.
pub open spec fn forest_function_paths(ts: Seq<DeriveTree>, prefix: Seq<Seq<char>>, n: int) -> Seq<Seq<Seq<char>>>
    decreases ts, 0nat, n,
{
    if n <= 0 || n > ts.len() {
        seq![]
    } else {
        forest_function_paths(ts, prefix, n - 1) + derive_function_paths(ts[n - 1], prefix)
    }
}

/// Whether parent and child links agree in both directions, and every
/// index refers to an existing record.
pub open spec fn links_agree(modules: Seq<ModuleView>, functions: Seq<FunctionView>) -> bool {
    &&& forall|i: int| 0 <= i < functions.len() ==> (#[trigger] functions[i]).id == i
    &&& forall|i: int| 0 <= i < modules.len() ==> (#[trigger] modules[i]).id == i
    &&& forall|i: int|
        0 <= i < functions.len() ==> match (#[trigger] functions[i]).module {
            Some(m) => 0 <= m < modules.len() && modules[m].functions.contains(i),
            None => true,
        }
    &&& forall|i: int|
        0 <= i < modules.len() ==> match (#[trigger] modules[i]).parent {
            Some(p) => 0 <= p < i && modules[p].modules.contains(i),
            None => true,
        }
    &&& forall|i: int, k: int|
        0 <= i < modules.len() && 0 <= k < modules[i].modules.len() ==> {
            let c = #[trigger] modules[i].modules[k];
            i < c < modules.len() && modules[c].parent == Some(i)
        }
    &&& forall|i: int, k: int|
        0 <= i < modules.len() && 0 <= k < modules[i].functions.len() ==> {
            let f = #[trigger] modules[i].functions[k];
            0 <= f < functions.len() && functions[f].module == Some(i)
        }
}

/// `m` with `ids` added after its function indices.
pub open spec fn with_functions_added(m: ModuleView, ids: Seq<int>) -> ModuleView {
    ModuleView { functions: m.functions + ids, ..m }
}

/// The consecutive indices `from`, `from + 1`, ..., `to - 1`.
pub open spec fn index_range(from: int, to: int) -> Seq<int> {
    Seq::new((to - from) as nat, |k: int| from + k)
}

/// Whether `after` is `before` with one function record appended for each
/// of `paths`, in order, each named by the last segment of its path, at
/// `line`, inside `module`.
pub open spec fn functions_appended(
    before: Seq<FunctionView>,
    after: Seq<FunctionView>,
    paths: Seq<Seq<Seq<char>>>,
    line: int,
    module: Option<int>,
) -> bool {
    &&& after.len() == before.len() + paths.len()
    &&& after.take(before.len() as int) == before
    &&& forall|k: int|
        0 <= k < paths.len() ==> {
            let f = #[trigger] after[before.len() + k];
            &&& f.id == before.len() + k
            &&& f.path == paths[k]
            &&& paths[k].len() > 0
            &&& f.name == paths[k].last()
            &&& f.line == line
            &&& f.module == module
        }
}

/// Whether `after` is `before` with the functions `from..to` added to `module`'s,
/// the same if there is no module.
pub open spec fn functions_attached(
    before: Seq<ModuleView>,
    after: Seq<ModuleView>,
    module: Option<int>,
    from: int,
    to: int,
) -> bool {
    match module {
        Some(m) => after == before.update(m, with_functions_added(before[m], index_range(from, to))),
        None => after == before,
    }
}

proof fn lemma_appended_trans(
    a: Seq<FunctionView>,
    b: Seq<FunctionView>,
    c: Seq<FunctionView>,
    p: Seq<Seq<Seq<char>>>,
    q: Seq<Seq<Seq<char>>>,
    line: int,
    module: Option<int>,
)
    requires
        functions_appended(a, b, p, line, module),
        functions_appended(b, c, q, line, module),
    ensures
        functions_appended(a, c, p + q, line, module),
{
    assert(c.take(a.len() as int) =~= b.take(b.len() as int).take(a.len() as int)) by {
        assert(c.take(b.len() as int) == b);
    }
    assert(b.take(b.len() as int) =~= b);
    assert forall|k: int| 0 <= k < (p + q).len() implies {
        let f = #[trigger] c[a.len() + k];
        &&& f.id == a.len() + k
        &&& f.path == (p + q)[k]
        &&& (p + q)[k].len() > 0
        &&& f.name == (p + q)[k].last()
        &&& f.line == line
        &&& f.module == module
    } by {
        if k < p.len() {
            assert(c[a.len() + k] == c.take(b.len() as int)[a.len() + k]);
            assert(b[a.len() + k] == c[a.len() + k]);
        } else {
            let k2 = k - p.len();
            assert(c[b.len() + k2] == c[a.len() + k]);
        }
    }
}

/// Whether the functions of `fs` from index `from` on were found in the file
/// `file` of the crate at `crate_root`: each record's source is the crate
/// root joined with that file (by either separator, as the platform joins).
pub open spec fn recorded_in(fs: Seq<FunctionView>, from: int, crate_root: Seq<char>, file: Seq<char>) -> bool {
    plain_join(crate_root, file) ==> forall|k: int|
        from <= k < fs.len() ==> joined(crate_root, file, #[trigger] fs[k].source)
}

proof fn lemma_recorded_trans(b: Seq<FunctionView>, c: Seq<FunctionView>, from: int, crate_root: Seq<char>, file: Seq<char>)
    requires
        recorded_in(b, from, crate_root, file),
        recorded_in(c, b.len() as int, crate_root, file),
        0 <= from,
        b.len() <= c.len(),
        c.take(b.len() as int) == b,
    ensures
        recorded_in(c, from, crate_root, file),
{
    if plain_join(crate_root, file) {
        assert forall|k: int| from <= k < c.len() implies joined(crate_root, file, #[trigger] c[k].source) by {
            if k < b.len() {
                assert(c.take(b.len() as int)[k] == c[k]);
            }
        }
    }
}

/// A record's source names the file it was found in: one crate root
/// joined with two files gives the same text only if the files are the same.
/// So a function recorded while the file `file` is visited carries `file`,
/// and no other file of the crate, in its source.
pub proof fn lemma_source_names_one_file(crate_root: Seq<char>, file: Seq<char>, other: Seq<char>, source: Seq<char>)
    requires
        joined(crate_root, file, source),
        joined(crate_root, other, source),
    ensures
        file == other,
{
    let n = crate_root.len() as int;
    assert(source.len() == n + 1 + file.len());
    assert(source.len() == n + 1 + other.len());
    assert forall|k: int| 0 <= k < file.len() implies file[k] == other[k] by {
        assert(source[n + 1 + k] == file[k]);
        assert(source[n + 1 + k] == other[k]);
    }
    assert(file =~= other);
}

proof fn lemma_attached_trans(
    a: Seq<ModuleView>,
    b: Seq<ModuleView>,
    c: Seq<ModuleView>,
    module: Option<int>,
    x: int,
    y: int,
    z: int,
)
    requires
        x <= y <= z,
        module matches Some(m) ==> 0 <= m < a.len(),
        functions_attached(a, b, module, x, y),
        functions_attached(b, c, module, y, z),
    ensures
        functions_attached(a, c, module, x, z),
{
    if let Some(m) = module {
        assert(index_range(x, y) + index_range(y, z) =~= index_range(x, z));
        assert(a[m].functions + index_range(x, y) + index_range(y, z) =~= a[m].functions + index_range(x, z));
        assert(c =~= a.update(m, with_functions_added(a[m], index_range(x, z))));
    }
}

/// The scanner's invariant over what it found: links agree, every module
/// on the stack exists, each is the parent of the next, the outermost has
/// no parent, and child indices are listed in increasing order.
pub open spec fn wf_views(ms: Seq<ModuleView>, fs: Seq<FunctionView>, stack: Seq<int>) -> bool {
    &&& links_agree(ms, fs)
    &&& forall|k: int| 0 <= k < stack.len() ==> 0 <= #[trigger] stack[k] < ms.len()
    &&& forall|k: int| 0 < k < stack.len() ==> ms[#[trigger] stack[k]].parent == Some(stack[k - 1])
    &&& stack.len() > 0 ==> ms[stack[0]].parent is None
    &&& forall|i: int, a: int, b: int|
        0 <= i < ms.len() && 0 <= a < b < ms[i].modules.len() ==> #[trigger] ms[i].modules[a]
            < #[trigger] ms[i].modules[b]
    &&& forall|i: int, a: int, b: int|
        0 <= i < ms.len() && 0 <= a < b < ms[i].functions.len() ==> #[trigger] ms[i].functions[a]
            < #[trigger] ms[i].functions[b]
}

proof fn lemma_wf_add_function(
    ms: Seq<ModuleView>,
    fs: Seq<FunctionView>,
    stack: Seq<int>,
    ms2: Seq<ModuleView>,
    f: FunctionView,
)
    requires
        wf_views(ms, fs, stack),
        f.id == fs.len(),
        f.module == (if stack.len() == 0 { None::<int> } else { Some(stack.last()) }),
        functions_attached(ms, ms2, f.module, fs.len() as int, fs.len() + 1int),
    ensures
        wf_views(ms2, fs.push(f), stack),
{
    let fs2 = fs.push(f);
    let n = fs.len() as int;
    if let Some(m) = f.module {
        assert(index_range(n, n + 1) =~= seq![n]);
        assert(ms2[m].functions =~= ms[m].functions.push(n));
    }
    assert forall|i: int| 0 <= i < fs2.len() implies match (#[trigger] fs2[i]).module {
        Some(m) => 0 <= m < ms2.len() && ms2[m].functions.contains(i),
        None => true,
    } by {
        if i < n {
            if let Some(m) = fs2[i].module {
                assert(fs[i].module == Some(m));
                let j = choose|j: int| 0 <= j < ms[m].functions.len() && ms[m].functions[j] == i;
                assert(ms2[m].functions[j] == i);
            }
        } else {
            if let Some(m) = fs2[i].module {
                assert(ms2[m].functions[ms2[m].functions.len() - 1] == i);
            }
        }
    }
    assert forall|i: int| 0 <= i < ms2.len() implies match (#[trigger] ms2[i]).parent {
        Some(p) => 0 <= p < i && ms2[p].modules.contains(i),
        None => true,
    } by {
        assert(ms2[i].parent == ms[i].parent);
        if let Some(p) = ms2[i].parent {
            assert(ms2[p].modules == ms[p].modules);
        }
    }
    assert forall|i: int, k: int| 0 <= i < ms2.len() && 0 <= k < ms2[i].modules.len() implies {
        let c = #[trigger] ms2[i].modules[k];
        i < c < ms2.len() && ms2[c].parent == Some(i)
    } by {
        assert(ms2[i].modules == ms[i].modules);
        let c = ms2[i].modules[k];
        assert(ms[i].modules[k] == c);
        assert(ms2[c].parent == ms[c].parent);
    }
    assert forall|i: int, k: int| 0 <= i < ms2.len() && 0 <= k < ms2[i].functions.len() implies {
        let g = #[trigger] ms2[i].functions[k];
        0 <= g < fs2.len() && fs2[g].module == Some(i)
    } by {
        if k < ms[i].functions.len() {
            assert(ms2[i].functions[k] == ms[i].functions[k]);
        }
    }
    assert forall|i: int, a: int, b: int| 0 <= i < ms2.len() && 0 <= a < b < ms2[i].functions.len() implies #[trigger] ms2[i].functions[a] < #[trigger] ms2[i].functions[b] by {
        assert(ms2[i].functions[a] == ms[i].functions[a]);
        if b < ms[i].functions.len() {
            assert(ms2[i].functions[b] == ms[i].functions[b]);
        }
    }
    assert forall|i: int, a: int, b: int| 0 <= i < ms2.len() && 0 <= a < b < ms2[i].modules.len() implies #[trigger] ms2[i].modules[a] < #[trigger] ms2[i].modules[b] by {
        assert(ms2[i].modules == ms[i].modules);
    }
    assert forall|k: int| 0 < k < stack.len() implies ms2[#[trigger] stack[k]].parent == Some(stack[k - 1]) by {
        assert(ms2[stack[k]].parent == ms[stack[k]].parent);
    }
    if stack.len() > 0 {
        assert(ms2[stack[0]].parent == ms[stack[0]].parent);
    }
}

/// `m` with `id` added after its module indices.
pub open spec fn with_module_child(m: ModuleView, id: int) -> ModuleView {
    ModuleView { modules: m.modules.push(id), ..m }
}

/// Whether `after` is `before` with a module record appended, named `name`,
/// with path `path`, inside `parent`, at `line`, and with nothing inside yet;
/// the parent lists it among its modules.
pub open spec fn module_appended(
    before: Seq<ModuleView>,
    after: Seq<ModuleView>,
    name: Seq<char>,
    path: Seq<Seq<char>>,
    parent: Option<int>,
    line: int,
) -> bool {
    let id = before.len() as int;
    &&& after.len() == before.len() + 1
    &&& after.take(id) == match parent {
        Some(p) => before.update(p, with_module_child(before[p], id)),
        None => before,
    }
    &&& after[id].id == id
    &&& after[id].name == name
    &&& after[id].path == path
    &&& after[id].parent == parent
    &&& after[id].modules == Seq::<int>::empty()
    &&& after[id].functions == Seq::<int>::empty()
    &&& after[id].line == line
}

proof fn lemma_wf_add_module(
    ms: Seq<ModuleView>,
    fs: Seq<FunctionView>,
    stack: Seq<int>,
    ms2: Seq<ModuleView>,
    name: Seq<char>,
    path: Seq<Seq<char>>,
    line: int,
)
    requires
        wf_views(ms, fs, stack),
        module_appended(ms, ms2, name, path, (if stack.len() == 0 { None::<int> } else { Some(stack.last()) }), line),
    ensures
        wf_views(ms2, fs, stack.push(ms.len() as int)),
{
    let n = ms.len() as int;
    let parent = if stack.len() == 0 { None::<int> } else { Some(stack.last()) };
    let stack2 = stack.push(n);
    assert forall|i: int| 0 <= i < n implies ms2[i] == (match parent {
        Some(p) => ms.update(p, with_module_child(ms[p], n)),
        None => ms,
    })[i] by {
        assert(ms2[i] == ms2.take(n)[i]);
    }
    assert forall|i: int| 0 <= i < ms2.len() implies (#[trigger] ms2[i]).id == i by {}
    assert forall|i: int| 0 <= i < fs.len() implies match (#[trigger] fs[i]).module {
        Some(m) => 0 <= m < ms2.len() && ms2[m].functions.contains(i),
        None => true,
    } by {
        if let Some(m) = fs[i].module {
            assert(ms2[m].functions == ms[m].functions);
        }
    }
    assert forall|i: int| 0 <= i < ms2.len() implies match (#[trigger] ms2[i]).parent {
        Some(p) => 0 <= p < i && ms2[p].modules.contains(i),
        None => true,
    } by {
        if i < n {
            if let Some(p) = ms2[i].parent {
                assert(ms[i].parent == Some(p));
                let j = choose|j: int| 0 <= j < ms[p].modules.len() && ms[p].modules[j] == i;
                assert(ms2[p].modules[j] == i);
            }
        } else {
            if let Some(p) = parent {
                assert(ms2[p].modules[ms2[p].modules.len() - 1] == i);
            }
        }
    }
    assert forall|i: int, k: int| 0 <= i < ms2.len() && 0 <= k < ms2[i].modules.len() implies {
        let c = #[trigger] ms2[i].modules[k];
        i < c < ms2.len() && ms2[c].parent == Some(i)
    } by {
        if i < n && k < ms[i].modules.len() {
            assert(ms2[i].modules[k] == ms[i].modules[k]);
        }
    }
    assert forall|i: int, k: int| 0 <= i < ms2.len() && 0 <= k < ms2[i].functions.len() implies {
        let g = #[trigger] ms2[i].functions[k];
        0 <= g < fs.len() && fs[g].module == Some(i)
    } by {
        assert(ms2[i].functions == ms[i].functions);
    }
    assert forall|i: int, a: int, b: int| 0 <= i < ms2.len() && 0 <= a < b < ms2[i].functions.len() implies #[trigger] ms2[i].functions[a] < #[trigger] ms2[i].functions[b] by {
        assert(ms2[i].functions == ms[i].functions);
    }
    assert forall|i: int, a: int, b: int| 0 <= i < ms2.len() && 0 <= a < b < ms2[i].modules.len() implies #[trigger] ms2[i].modules[a] < #[trigger] ms2[i].modules[b] by {
        assert(ms2[i].modules[a] == ms[i].modules[a]);
        if b < ms[i].modules.len() {
            assert(ms2[i].modules[b] == ms[i].modules[b]);
        }
    }
    assert forall|k: int| 0 <= k < stack2.len() implies 0 <= #[trigger] stack2[k] < ms2.len() by {}
    assert forall|k: int| 0 < k < stack2.len() implies ms2[#[trigger] stack2[k]].parent == Some(stack2[k - 1]) by {
        if k < stack.len() {
            assert(ms2[stack[k]].parent == ms[stack[k]].parent);
        }
    }
    if stack2.len() > 0 {
        if stack.len() > 0 {
            assert(ms2[stack[0]].parent == ms[stack[0]].parent);
        }
    }
}

/// The scanner's state.
pub struct Visitor {
    custom_pragmas: Vec<String>,
    custom_derives: Vec<CustomDerive>,
    custom_module_derives: ModuleDeriveTable,
    current_mod: Vec<String>,
    current_line: Option<usize>,
    current_path: String,
    root_path: String,
    crate_root: String,
    annotated_modules_stack: Vec<usize>,
    annotated_modules: Vec<AnnotatedModule>,
    annotated_functions: Vec<AnnotatedFunction>,
}

impl Visitor {
    /// The extra pragma names.
    pub closed spec fn pragmas(&self) -> Seq<Seq<char>> {
        views(self.custom_pragmas@)
    }

    /// The names of the custom derives.
    pub closed spec fn derives(&self) -> Seq<Seq<char>> {
        derive_names(self.custom_derives@)
    }

    /// The name and template source of each custom derive, in the order registered.
    pub closed spec fn registered_derives(&self) -> Seq<(Seq<char>, Seq<char>)> {
        derive_specs(self.custom_derives@)
    }

    /// The custom module derives per pragma name.
    pub closed spec fn module_derives(&self) -> Map<Seq<char>, Seq<DeriveTree>> {
        self.custom_module_derives.view()
    }

    /// The path of the module being visited.
    pub closed spec fn current_mod(&self) -> Seq<Seq<char>> {
        views(self.current_mod@)
    }

    /// The line that overrides annotations' own lines, while a derive's expansion is visited.
    pub closed spec fn current_line(&self) -> Option<usize> {
        self.current_line
    }

    /// The file being visited.
    pub closed spec fn current_path(&self) -> Seq<char> {
        self.current_path@
    }

    /// The file the scan started at.
    pub closed spec fn spec_root_path(&self) -> Seq<char> {
        self.root_path@
    }

    /// The directory of the crate, that records' source paths start with.
    pub closed spec fn crate_root(&self) -> Seq<char> {
        self.crate_root@
    }

    /// The indices of the annotated modules around the item being visited, innermost last.
    pub closed spec fn stack(&self) -> Seq<int> {
        self.annotated_modules_stack@.map_values(|x: usize| x as int)
    }

    /// The annotated modules found so far.
    pub closed spec fn modules(&self) -> Seq<ModuleView> {
        module_views(self.annotated_modules@)
    }

    /// The annotated functions found so far.
    pub closed spec fn functions(&self) -> Seq<FunctionView> {
        function_views(self.annotated_functions@)
    }

    /// The innermost annotated module around the item being visited.
    pub open spec fn enclosing(&self) -> Option<int> {
        if self.stack().len() == 0 {
            None
        } else {
            Some(self.stack().last())
        }
    }

    /// The state's invariant: links agree, every module on the stack
    /// exists, and each is the parent of the next.
    pub closed spec fn wf(&self) -> bool {
        wf_views(self.modules(), self.functions(), self.stack())
    }

    /// A scanner at the start of `path`, in the crate at `crate_root`, with
    /// nothing found and no extra names registered.
    pub fn new(crate_root: String, path: String) -> (v: Self)
        ensures
            v.wf(),
            v.pragmas() == Seq::<Seq<char>>::empty(),
            v.derives() == Seq::<Seq<char>>::empty(),
            v.registered_derives() == Seq::<(Seq<char>, Seq<char>)>::empty(),
            v.module_derives() == Map::<Seq<char>, Seq<DeriveTree>>::empty(),
            v.current_mod() == Seq::<Seq<char>>::empty(),
            v.current_line() is None,
            v.current_path() == path@,
            v.spec_root_path() == path@,
            v.crate_root() == crate_root@,
            v.stack() == Seq::<int>::empty(),
            v.modules() == Seq::<ModuleView>::empty(),
            v.functions() == Seq::<FunctionView>::empty(),
    {
        let root_path = copy_string(&path);
        let v = Visitor {
            custom_pragmas: Vec::new(),
            custom_derives: Vec::new(),
            custom_module_derives: ModuleDeriveTable::new(),
            current_mod: Vec::new(),
            current_line: None,
            current_path: path,
            root_path,
            crate_root,
            annotated_modules_stack: Vec::new(),
            annotated_modules: Vec::new(),
            annotated_functions: Vec::new(),
        };
        assert(v.pragmas() =~= Seq::<Seq<char>>::empty());
        assert(v.derives() =~= Seq::<Seq<char>>::empty());
        assert(v.registered_derives() =~= Seq::<(Seq<char>, Seq<char>)>::empty());
        assert(v.current_mod() =~= Seq::<Seq<char>>::empty());
        assert(v.stack() =~= Seq::<int>::empty());
        assert(v.modules() =~= Seq::<ModuleView>::empty());
        assert(v.functions() =~= Seq::<FunctionView>::empty());
        v
    }
}

impl Visitor {
    /// Whether `a` and `b` have found the same and stand at the same place.
    pub open spec fn same_scan(a: &Visitor, b: &Visitor) -> bool {
        &&& a.modules() == b.modules()
        &&& a.functions() == b.functions()
        &&& a.stack() == b.stack()
        &&& a.current_mod() == b.current_mod()
        &&& a.current_line() == b.current_line()
        &&& a.current_path() == b.current_path()
        &&& a.spec_root_path() == b.spec_root_path()
    }

    /// Whether `a` and `b` have the same names registered, for the same crate.
    pub open spec fn same_registrations(a: &Visitor, b: &Visitor) -> bool {
        &&& a.crate_root() == b.crate_root()
        &&& a.pragmas() == b.pragmas()
        &&& a.derives() == b.derives()
        &&& a.registered_derives() == b.registered_derives()
        &&& a.module_derives() == b.module_derives()
    }

    /// The scanner with the extra pragma names `pragmas` registered after its own.
    pub fn with_pragmas(self, pragmas: Vec<String>) -> (v: Self)
        requires
            self.wf(),
        ensures
            v.wf(),
            v.pragmas() == self.pragmas() + views(pragmas@),
            v.derives() == self.derives(),
            v.registered_derives() == self.registered_derives(),
            v.module_derives() == self.module_derives(),
            Self::same_scan(&v, &self),
    {
        let mut v = self;
        let ghost before = v.custom_pragmas@;
        let ghost added = pragmas@;
        let mut pragmas = pragmas;
        v.custom_pragmas.append(&mut pragmas);
        assert(views(v.custom_pragmas@) =~= views(before) + views(added));
        v
    }

    /// The scanner with the custom derives `derives` registered after its own.
    pub fn with_derives(self, derives: Vec<CustomDerive>) -> (v: Self)
        requires
            self.wf(),
        ensures
            v.wf(),
            v.derives() == self.derives() + derive_names(derives@),
            v.registered_derives() == self.registered_derives() + derive_specs(derives@),
            v.pragmas() == self.pragmas(),
            v.module_derives() == self.module_derives(),
            Self::same_scan(&v, &self),
    {
        let mut v = self;
        let ghost before = v.custom_derives@;
        let ghost added = derives@;
        let mut derives = derives;
        v.custom_derives.append(&mut derives);
        assert(derive_names(v.custom_derives@) =~= derive_names(before) + derive_names(added));
        assert(derive_specs(v.custom_derives@) =~= derive_specs(before) + derive_specs(added));
        v
    }

    /// The scanner with the module derives of `module_derives` added after
    /// its own, pragma by pragma.
    pub fn with_module_derives(self, module_derives: ModuleDeriveTable) -> (v: Self)
        requires
            self.wf(),
        ensures
            v.wf(),
            v.module_derives() == merged(self.module_derives(), module_derives.view()),
            v.pragmas() == self.pragmas(),
            v.derives() == self.derives(),
            v.registered_derives() == self.registered_derives(),
            Self::same_scan(&v, &self),
    {
        let mut v = self;
        v.custom_module_derives.merge(&module_derives);
        v
    }

    /// The file the scan started at.
    pub fn root_path(&self) -> (r: &str)
        ensures
            r@ == self.spec_root_path(),
    {
        self.root_path.as_str()
    }

    /// The file being visited.
    pub fn current_file(&self) -> (r: &str)
        ensures
            r@ == self.current_path(),
    {
        self.current_path.as_str()
    }

    /// Moves the scan to another file; the driver moves it back after the file.
    pub fn set_current_file(&mut self, path: String)
        requires
            old(self).wf(),
        ensures
            final(self).wf(),
            final(self).current_path() == path@,
            final(self).modules() == old(self).modules(),
            final(self).functions() == old(self).functions(),
            final(self).stack() == old(self).stack(),
            final(self).current_mod() == old(self).current_mod(),
            final(self).current_line() == old(self).current_line(),
            final(self).spec_root_path() == old(self).spec_root_path(),
            Self::same_registrations(&*final(self), &*old(self)),
    {
        self.current_path = path;
    }

    /// The path that records of the current file carry: the file joined
    /// onto the crate root, with the platform's separator between them.
    pub fn source_path(&self) -> (r: String)
        ensures
            plain_join(self.crate_root(), self.current_path()) ==> joined(
                self.crate_root(),
                self.current_path(),
                r@,
            ),
    {
        join_paths(self.crate_root.as_str(), self.current_path.as_str())
    }

    /// Enters the module named `module`.
    pub fn enter_mod(&mut self, module: String)
        requires
            old(self).wf(),
        ensures
            final(self).wf(),
            final(self).current_mod() == old(self).current_mod().push(module@),
            final(self).modules() == old(self).modules(),
            final(self).functions() == old(self).functions(),
            final(self).stack() == old(self).stack(),
            final(self).current_line() == old(self).current_line(),
            final(self).current_path() == old(self).current_path(),
            final(self).spec_root_path() == old(self).spec_root_path(),
            Self::same_registrations(&*final(self), &*old(self)),
    {
        let ghost m = module@;
        self.current_mod.push(module);
        assert(self.current_mod() =~= old(self).current_mod().push(m));
    }

    /// Leaves the innermost module entered.
    pub fn pop_mod(&mut self)
        requires
            old(self).wf(),
        ensures
            final(self).wf(),
            final(self).current_mod() == (if old(self).current_mod().len() == 0 {
                old(self).current_mod()
            } else {
                old(self).current_mod().drop_last()
            }),
            final(self).modules() == old(self).modules(),
            final(self).functions() == old(self).functions(),
            final(self).stack() == old(self).stack(),
            final(self).current_line() == old(self).current_line(),
            final(self).current_path() == old(self).current_path(),
            final(self).spec_root_path() == old(self).spec_root_path(),
            Self::same_registrations(&*final(self), &*old(self)),
    {
        if self.current_mod.len() > 0 {
            self.current_mod.pop();
            assert(self.current_mod() =~= old(self).current_mod().drop_last());
        }
    }

    /// The pragma name that `attr` stands for, if it is an annotation.
    pub fn get_annotation_name(&self, attr: &AttrInfo) -> (r: Option<String>)
        ensures
            match r {
                Some(n) => annotation_name(self.pragmas(), attr.name) == Some(n@),
                None => annotation_name(self.pragmas(), attr.name) is None,
            },
    {
        proof {
            reveal_strlit("pragma");
        }
        match &attr.name {
            Some(segment) => {
                if const_str_equal(segment.as_str(), "pragma") {
                    return Some(copy_string(segment));
                }
                let mut i: usize = 0;
                while i < self.custom_pragmas.len()
                    invariant
                        i <= self.custom_pragmas@.len(),
                        forall|j: int| 0 <= j < i ==> self.custom_pragmas@[j]@ != segment@,
                        attr.name == Some(*segment),
                    decreases self.custom_pragmas.len() - i,
                {
                    if const_str_equal(self.custom_pragmas[i].as_str(), segment.as_str()) {
                        assert(self.pragmas()[i as int] == segment@);
                        assert(self.pragmas().contains(segment@));
                        assert(attr.name == Some(*segment));
                        assert(annotation_name(self.pragmas(), attr.name) == Some(segment@));
                        return Some(copy_string(segment));
                    }
                    i = i + 1;
                }
                assert(!self.pragmas().contains(segment@)) by {
                    if self.pragmas().contains(segment@) {
                        let j = choose|j: int| 0 <= j < self.pragmas().len() && self.pragmas()[j] == segment@;
                        assert(self.custom_pragmas@[j]@ == segment@);
                    }
                }
                None
            },
            None => None,
        }
    }

    /// Whether `attr` is an annotation.
    pub fn is_annotation(&self, attr: &AttrInfo) -> (r: bool)
        ensures
            r == annotation_name(self.pragmas(), attr.name) is Some,
    {
        self.get_annotation_name(attr).is_some()
    }

    /// The index of the first annotation among `attrs`.
    pub fn find_annotation(&self, attrs: &Vec<AttrInfo>) -> (r: Option<usize>)
        ensures
            opt_index(r) == first_annotation(self.pragmas(), attrs@),
            r matches Some(i) ==> i < attrs@.len() && annotation_name(self.pragmas(), attrs@[i as int].name) is Some,
    {
        proof {
            lemma_first_annotation_some(self.pragmas(), attrs@);
        }
        let mut i: usize = 0;
        while i < attrs.len()
            invariant
                i <= attrs@.len(),
                first_annotation(self.pragmas(), attrs@.take(i as int)) is None,
            decreases attrs.len() - i,
        {
            assert(attrs@.take(i + 1).drop_last() =~= attrs@.take(i as int));
            if self.is_annotation(&attrs[i]) {
                proof {
                    lemma_first_annotation_prefix(self.pragmas(), attrs@, i as int + 1);
                }
                return Some(i);
            }
            i = i + 1;
        }
        assert(attrs@.take(i as int) =~= attrs@);
        None
    }

    /// The custom derives that `attr` names, if it is a `derive` attribute,
    /// in the order they are registered, each with its name and template.
    pub fn get_custom_derives(&self, attr: &AttrInfo) -> (r: Vec<CustomDerive>)
        ensures
            derive_specs(r@) == derive_specs_named(self.registered_derives(), attr),
            derive_names(r@) == derives_named(self.derives(), attr),
    {
        proof {
            reveal_strlit("derive");
        }
        let mut r: Vec<CustomDerive> = Vec::new();
        match (&attr.name, &attr.list_paths) {
            (Some(name), Some(paths)) => {
                if !const_str_equal(name.as_str(), "derive") {
                    assert(derive_names(r@) =~= seq![]);
                    assert(derive_specs(r@) =~= seq![]);
                    return r;
                }
                let ghost ps = views(paths@);
                let mut i: usize = 0;
                assert(derive_names(r@) =~= self.derives().take(0).filter(|n: Seq<char>| ps.contains(n)));
                assert(derive_specs(r@) =~= self.registered_derives().take(0).filter(
                    |p: (Seq<char>, Seq<char>)| ps.contains(p.0),
                ));
                while i < self.custom_derives.len()
                    invariant
                        i <= self.custom_derives@.len(),
                        ps == views(paths@),
                        derive_names(r@) == self.derives().take(i as int).filter(|n: Seq<char>| ps.contains(n)),
                        derive_specs(r@) == self.registered_derives().take(i as int).filter(
                            |p: (Seq<char>, Seq<char>)| ps.contains(p.0),
                        ),
                    decreases self.custom_derives.len() - i,
                {
                    let d = &self.custom_derives[i];
                    let ghost before = r@;
                    let mut found = false;
                    let mut j: usize = 0;
                    while j < paths.len()
                        invariant
                            j <= paths@.len(),
                            ps == views(paths@),
                            found == ps.take(j as int).contains(d.spec_name()),
                        decreases paths.len() - j,
                    {
                        assert(ps.take(j + 1) =~= ps.take(j as int).push(ps[j as int]));
                        proof {
                            lemma_contains_push(ps.take(j as int), ps[j as int], d.spec_name());
                        }
                        if const_str_equal(paths[j].as_str(), d.name()) {
                            found = true;
                        }
                        j = j + 1;
                    }
                    assert(ps.take(j as int) =~= ps);
                    if found {
                        r.push(d.duplicate());
                    }
                    proof {
                        reveal_with_fuel(Seq::<_>::filter, 1);
                        assert(self.derives().take(i + 1).drop_last() =~= self.derives().take(i as int));
                        assert(self.registered_derives().take(i + 1).drop_last() =~= self.registered_derives().take(
                            i as int,
                        ));
                        assert(self.registered_derives()[i as int] == (d.spec_name(), d.spec_source()));
                        if found {
                            assert(derive_names(r@) =~= derive_names(before).push(d.spec_name()));
                            assert(derive_specs(r@) =~= derive_specs(before).push((d.spec_name(), d.spec_source())));
                        } else {
                            assert(derive_names(r@) =~= derive_names(before));
                            assert(derive_specs(r@) =~= derive_specs(before));
                        }
                    }
                    i = i + 1;
                }
                assert(self.derives().take(i as int) =~= self.derives());
                assert(self.registered_derives().take(i as int) =~= self.registered_derives());
                r
            },
            _ => {
                assert(derive_names(r@) =~= seq![]);
                assert(derive_specs(r@) =~= seq![]);
                r
            },
        }
    }
}

impl Visitor {
    /// Records an annotated function named `function_name` at `line`, in the
    /// current module and inside the innermost annotated module, if any.
    pub fn add_annotated_function(&mut self, function_name: String, line: usize)
        requires
            old(self).wf(),
        ensures
            final(self).wf(),
            functions_appended(
                old(self).functions(),
                final(self).functions(),
                seq![old(self).current_mod().push(function_name@)],
                line as int,
                old(self).enclosing(),
            ),
            functions_attached(
                old(self).modules(),
                final(self).modules(),
                old(self).enclosing(),
                old(self).functions().len() as int,
                old(self).functions().len() + 1int,
            ),
            recorded_in(final(self).functions(), old(self).functions().len() as int, old(self).crate_root(), old(self).current_path()),
            final(self).stack() == old(self).stack(),
            final(self).current_mod() == old(self).current_mod(),
            final(self).current_line() == old(self).current_line(),
            final(self).current_path() == old(self).current_path(),
            final(self).spec_root_path() == old(self).spec_root_path(),
            Self::same_registrations(&*final(self), &*old(self)),
    {
        let ghost fname = function_name@;
        let id = self.annotated_functions.len();
        let mut function_path: Vec<String> = Vec::new();
        let mut k: usize = 0;
        while k < self.current_mod.len()
            invariant
                k <= self.current_mod@.len(),
                views(function_path@) == views(self.current_mod@).take(k as int),
            decreases self.current_mod.len() - k,
        {
            let ghost before = function_path@;
            function_path.push(copy_string(&self.current_mod[k]));
            assert(views(function_path@) =~= views(before).push(self.current_mod@[k as int]@));
            assert(views(self.current_mod@).take(k + 1) =~= views(self.current_mod@).take(k as int).push(
                self.current_mod@[k as int]@,
            ));
            k = k + 1;
        }
        assert(views(self.current_mod@).take(k as int) =~= views(self.current_mod@));
        let ghost before_path = function_path@;
        function_path.push(copy_string(&function_name));
        assert(views(function_path@) =~= views(before_path).push(fname));
        let module = if self.annotated_modules_stack.len() > 0 {
            Some(self.annotated_modules_stack[self.annotated_modules_stack.len() - 1])
        } else {
            None
        };
        let source_path = self.source_path();
        let uuid = fresh_uuid();
        let record = AnnotatedFunction::new(id, function_name, function_path, uuid, line, source_path, module);
        let ghost old_modules = self.annotated_modules@;
        match module {
            Some(m) => {
                self.annotated_modules[m].push_function(id);
                proof {
                    assert(index_range(id as int, id + 1) =~= seq![id as int]);
                    assert(module_views(old_modules)[m as int].functions + seq![id as int] =~= module_views(old_modules)[m as int].functions.push(id as int));
                    assert(module_views(self.annotated_modules@) =~= module_views(old_modules).update(
                        m as int,
                        with_functions_added(module_views(old_modules)[m as int], index_range(id as int, id + 1)),
                    ));
                }
            },
            None => {
            },
        }
        let ghost old_functions = self.annotated_functions@;
        self.annotated_functions.push(record);
        proof {
            assert(function_views(self.annotated_functions@) =~= function_views(old_functions).push(record@));
            assert(self.functions().take(old_functions.len() as int) =~= function_views(old_functions));
            assert(self.functions()[old_functions.len() as int] == record@);
            assert(seq![old(self).current_mod().push(fname)][0].last() == fname);
            lemma_wf_add_function(old(self).modules(), old(self).functions(), old(self).stack(), self.modules(), record@);
        }
    }
}

/// A copy of a path.
fn copy_segments(p: &Vec<String>) -> (r: Vec<String>)
    ensures
        views(r@) == views(p@),
{
    let mut r: Vec<String> = Vec::new();
    let mut k: usize = 0;
    assert(views(r@) =~= views(p@).take(0));
    while k < p.len()
        invariant
            k <= p@.len(),
            views(r@) == views(p@).take(k as int),
        decreases p.len() - k,
    {
        let ghost before = r@;
        r.push(copy_string(&p[k]));
        assert(views(r@) =~= views(before).push(p@[k as int]@));
        assert(views(p@).take(k + 1) =~= views(p@).take(k as int).push(p@[k as int]@));
        k = k + 1;
    }
    assert(views(p@).take(k as int) =~= views(p@));
    r
}

impl Visitor {
    /// Records an annotated module named `name` at `line`: the current
    /// module, inside the innermost annotated module, if any. The new module
    /// becomes the innermost; its index is returned.
    pub fn add_annotated_module(&mut self, name: String, line: usize) -> (id: usize)
        requires
            old(self).wf(),
        ensures
            final(self).wf(),
            id == old(self).modules().len(),
            module_appended(
                old(self).modules(),
                final(self).modules(),
                name@,
                old(self).current_mod(),
                old(self).enclosing(),
                line as int,
            ),
            plain_join(old(self).crate_root(), old(self).current_path()) ==> joined(
                old(self).crate_root(),
                old(self).current_path(),
                final(self).modules()[id as int].source,
            ),
            final(self).stack() == old(self).stack().push(id as int),
            final(self).functions() == old(self).functions(),
            final(self).current_mod() == old(self).current_mod(),
            final(self).current_line() == old(self).current_line(),
            final(self).current_path() == old(self).current_path(),
            final(self).spec_root_path() == old(self).spec_root_path(),
            Self::same_registrations(&*final(self), &*old(self)),
    {
        let id = self.annotated_modules.len();
        let path = copy_segments(&self.current_mod);
        let parent = if self.annotated_modules_stack.len() > 0 {
            Some(self.annotated_modules_stack[self.annotated_modules_stack.len() - 1])
        } else {
            None
        };
        let source_path = self.source_path();
        let uuid = fresh_uuid();
        let record = AnnotatedModule::new(id, name, path, parent, uuid, line, source_path);
        let ghost old_modules = self.annotated_modules@;
        match parent {
            Some(p) => {
                self.annotated_modules[p].push_module(id);
                assert(module_views(self.annotated_modules@) =~= module_views(old_modules).update(
                    p as int,
                    with_module_child(module_views(old_modules)[p as int], id as int),
                ));
            },
            None => {
            },
        }
        let ghost mid = self.annotated_modules@;
        self.annotated_modules.push(record);
        let ghost old_stack = self.annotated_modules_stack@;
        self.annotated_modules_stack.push(id);
        proof {
            assert(module_views(self.annotated_modules@) =~= module_views(mid).push(record@));
            assert(self.modules().take(id as int) =~= module_views(mid));
            assert(self.stack() =~= old(self).stack().push(id as int));
            lemma_wf_add_module(
                old(self).modules(),
                old(self).functions(),
                old(self).stack(),
                self.modules(),
                record@.name,
                record@.path,
                line as int,
            );
        }
        id
    }
}

impl Visitor {
    /// Adds the functions of a custom module derive to the annotated module
    /// `module`: a named derive is entered as a module around its functions
    /// and nested modules, and every function gets the module's line.
    pub fn visit_custom_module_derive(&mut self, module: usize, derive: &CustomModuleDerive)
        requires
            old(self).wf(),
            module < old(self).modules().len(),
        ensures
            final(self).wf(),
            functions_appended(
                old(self).functions(),
                final(self).functions(),
                derive_function_paths(derive.tree(), old(self).current_mod()),
                old(self).modules()[module as int].line,
                old(self).enclosing(),
            ),
            functions_attached(
                old(self).modules(),
                final(self).modules(),
                old(self).enclosing(),
                old(self).functions().len() as int,
                final(self).functions().len() as int,
            ),
            final(self).modules().len() == old(self).modules().len(),
            recorded_in(final(self).functions(), old(self).functions().len() as int, old(self).crate_root(), old(self).current_path()),
            final(self).stack() == old(self).stack(),
            final(self).current_mod() == old(self).current_mod(),
            final(self).current_line() == old(self).current_line(),
            final(self).current_path() == old(self).current_path(),
            final(self).spec_root_path() == old(self).spec_root_path(),
            Self::same_registrations(&*final(self), &*old(self)),
        decreases derive.tree(),
    {
        let ghost t = derive.tree();
        let ghost m0 = old(self).modules();
        let ghost f0 = old(self).functions();
        let ghost enc = old(self).enclosing();
        let ghost prefix = old(self).current_mod();
        let ghost p = match t.name() {
            Some(n) => prefix.push(n),
            None => prefix,
        };
        let ghost line0 = m0[module as int].line;
        let named = derive.name();
        match named {
            Some(n) => {
                self.enter_mod(copy_str(n));
            },
            None => {},
        }
        let line = self.annotated_modules[module].line();
        assert(line == line0);
        let fnames = derive.function_names();
        let ghost fps = t.functions().map_values(|f: Seq<char>| p.push(f));
        let mut j: usize = 0;
        proof {
            assert(fps.take(0) =~= seq![]);
            assert(f0.take(f0.len() as int) =~= f0);
            assert(index_range(f0.len() as int, f0.len() as int) =~= seq![]);
            if let Some(e) = enc {
                assert(m0[e].functions + seq![] =~= m0[e].functions);
                assert(m0.update(e, with_functions_added(m0[e], index_range(f0.len() as int, f0.len() as int))) =~= m0);
            }
        }
        while j < fnames.len()
            invariant
                self.wf(),
                j <= fnames@.len(),
                views(fnames@) == t.functions(),
                fps == t.functions().map_values(|f: Seq<char>| p.push(f)),
                module < self.modules().len(),
                self.modules().len() == m0.len(),
                self.modules()[module as int].line == line0,
                line == line0,
                enc == (if self.stack().len() == 0 { None::<int> } else { Some(self.stack().last()) }),
                enc matches Some(e) ==> 0 <= e < m0.len(),
                functions_appended(f0, self.functions(), fps.take(j as int), line0, enc),
                recorded_in(self.functions(), f0.len() as int, old(self).crate_root(), old(self).current_path()),
                functions_attached(m0, self.modules(), enc, f0.len() as int, self.functions().len() as int),
                self.stack() == old(self).stack(),
                self.current_mod() == p,
                self.current_line() == old(self).current_line(),
                self.current_path() == old(self).current_path(),
                self.spec_root_path() == old(self).spec_root_path(),
                Self::same_registrations(&*self, &*old(self)),
            decreases fnames.len() - j,
        {
            let ghost fs1 = self.functions();
            let ghost ms1 = self.modules();
            self.add_annotated_function(copy_string(&fnames[j]), line);
            proof {
                assert(seq![p.push(t.functions()[j as int])] =~= fps.take(j + 1).skip(j as int));
                assert(fps.take(j as int) + seq![p.push(t.functions()[j as int])] =~= fps.take(j + 1));
                lemma_appended_trans(f0, fs1, self.functions(), fps.take(j as int), seq![p.push(t.functions()[j as int])], line0, enc);
                lemma_recorded_trans(fs1, self.functions(), f0.len() as int, old(self).crate_root(), old(self).current_path());
                lemma_attached_trans(m0, ms1, self.modules(), enc, f0.len() as int, fs1.len() as int, self.functions().len() as int);
                if let Some(e) = enc {
                    assert(self.modules()[module as int].line == ms1[module as int].line);
                }
            }
            j = j + 1;
        }
        assert(fps.take(j as int) =~= fps);
        let mods = derive.modules();
        let mut k: usize = 0;
        proof {
            assert(fps + forest_function_paths(t.modules(), p, 0) =~= fps);
        }
        while k < mods.len()
            invariant
                self.wf(),
                k <= mods@.len(),
                forest(mods@) == t.modules(),
                t == derive.tree(),
                fps == t.functions().map_values(|f: Seq<char>| p.push(f)),
                module < self.modules().len(),
                self.modules().len() == m0.len(),
                self.modules()[module as int].line == line0,
                enc == (if self.stack().len() == 0 { None::<int> } else { Some(self.stack().last()) }),
                enc matches Some(e) ==> 0 <= e < m0.len(),
                functions_appended(f0, self.functions(), fps + forest_function_paths(t.modules(), p, k as int), line0, enc),
                recorded_in(self.functions(), f0.len() as int, old(self).crate_root(), old(self).current_path()),
                functions_attached(m0, self.modules(), enc, f0.len() as int, self.functions().len() as int),
                self.stack() == old(self).stack(),
                self.current_mod() == p,
                self.current_line() == old(self).current_line(),
                self.current_path() == old(self).current_path(),
                self.spec_root_path() == old(self).spec_root_path(),
                Self::same_registrations(&*self, &*old(self)),
            decreases mods.len() - k,
        {
            let ghost fs1 = self.functions();
            let ghost ms1 = self.modules();
            let child = &mods[k];
            assert(child.tree() == t.modules()[k as int]);
            self.visit_custom_module_derive(module, child);
            proof {
                assert(forest_function_paths(t.modules(), p, k + 1) == forest_function_paths(t.modules(), p, k as int) + derive_function_paths(t.modules()[k as int], p));
                assert(fps + forest_function_paths(t.modules(), p, k + 1) =~= (fps + forest_function_paths(t.modules(), p, k as int)) + derive_function_paths(child.tree(), p));
                lemma_appended_trans(f0, fs1, self.functions(), fps + forest_function_paths(t.modules(), p, k as int), derive_function_paths(child.tree(), p), line0, enc);
                lemma_recorded_trans(fs1, self.functions(), f0.len() as int, old(self).crate_root(), old(self).current_path());
                lemma_attached_trans(m0, ms1, self.modules(), enc, f0.len() as int, fs1.len() as int, self.functions().len() as int);
            }
            k = k + 1;
        }
        match named {
            Some(_) => {
                self.pop_mod();
                assert(self.current_mod() =~= prefix);
            },
            None => {},
        }
        assert(derive_function_paths(t, prefix) == fps + forest_function_paths(t.modules(), p, t.modules().len() as int));
    }
}

impl Visitor {
    /// The line an annotation is recorded at: the overriding line while a
    /// derive's expansion is visited, else the annotation's own.
    pub open spec fn annotation_line(&self, attr: AttrInfo) -> int {
        match self.current_line() {
            Some(l) => l as int,
            None => attr.line as int,
        }
    }

    /// Visits a function named `name` with attributes `attrs`: if one of
    /// them is an annotation, the first such records the function.
    pub fn visit_item_fn(&mut self, name: String, attrs: &Vec<AttrInfo>)
        requires
            old(self).wf(),
        ensures
            final(self).wf(),
            match first_annotation(old(self).pragmas(), attrs@) {
                Some(i) => {
                    &&& functions_appended(
                        old(self).functions(),
                        final(self).functions(),
                        seq![old(self).current_mod().push(name@)],
                        old(self).annotation_line(attrs@[i]),
                        old(self).enclosing(),
                    )
                    &&& functions_attached(
                        old(self).modules(),
                        final(self).modules(),
                        old(self).enclosing(),
                        old(self).functions().len() as int,
                        old(self).functions().len() + 1int,
                    )
                },
                None => final(self).functions() == old(self).functions() && final(self).modules()
                    == old(self).modules(),
            },
            recorded_in(final(self).functions(), old(self).functions().len() as int, old(self).crate_root(), old(self).current_path()),
            final(self).stack() == old(self).stack(),
            final(self).current_mod() == old(self).current_mod(),
            final(self).current_line() == old(self).current_line(),
            final(self).current_path() == old(self).current_path(),
            final(self).spec_root_path() == old(self).spec_root_path(),
            Self::same_registrations(&*final(self), &*old(self)),
    {
        match self.find_annotation(attrs) {
            Some(i) => {
                let line = match self.current_line {
                    Some(l) => l,
                    None => attrs[i].line,
                };
                self.add_annotated_function(name, line);
            },
            None => {},
        }
    }

    /// Visits a module named `name` with attributes `attrs`, entering it.
    /// A module with its content inline and an annotation among its
    /// attributes is recorded and becomes the innermost annotated module,
    /// and the custom module derives registered for the annotation's pragma
    /// add their functions to it. Returns whether it was recorded; the
    /// driver then visits the module's items and calls [`Self::leave_item_mod`].
    #[verifier::spinoff_prover]
    pub fn enter_item_mod(&mut self, name: String, attrs: &Vec<AttrInfo>, has_content: bool) -> (entered: bool)
        requires
            old(self).wf(),
        ensures
            final(self).wf(),
            final(self).current_mod() == old(self).current_mod().push(name@),
            entered == (has_content && first_annotation(old(self).pragmas(), attrs@) is Some),
            !entered ==> {
                &&& final(self).modules() == old(self).modules()
                &&& final(self).functions() == old(self).functions()
                &&& final(self).stack() == old(self).stack()
            },
            entered ==> {
                let i = first_annotation(old(self).pragmas(), attrs@)->0;
                let line = old(self).annotation_line(attrs@[i]);
                let id = old(self).modules().len() as int;
                let pragma = annotation_name(old(self).pragmas(), attrs@[i].name)->0;
                let ds = crate::build::table::derives_of(old(self).module_derives(), pragma);
                let path = old(self).current_mod().push(name@);
                &&& exists|mid: Seq<ModuleView>| module_appended(old(self).modules(), mid, name@, path, old(self).enclosing(), line)
                    && functions_attached(mid, final(self).modules(), Some(id), old(self).functions().len() as int, final(self).functions().len() as int)
                &&& functions_appended(old(self).functions(), final(self).functions(), forest_function_paths(ds, path, ds.len() as int), line, Some(id))
                &&& final(self).stack() == old(self).stack().push(id)
                &&& plain_join(old(self).crate_root(), old(self).current_path()) ==> joined(
                    old(self).crate_root(),
                    old(self).current_path(),
                    final(self).modules()[id].source,
                )
            },
            recorded_in(final(self).functions(), old(self).functions().len() as int, old(self).crate_root(), old(self).current_path()),
            final(self).current_line() == old(self).current_line(),
            final(self).current_path() == old(self).current_path(),
            final(self).spec_root_path() == old(self).spec_root_path(),
            Self::same_registrations(&*final(self), &*old(self)),
    {
        let ghost path = old(self).current_mod().push(name@);
        let module_name = copy_string(&name);
        self.enter_mod(name);
        if !has_content {
            return false;
        }
        let found = self.find_annotation(attrs);
        match found {
            None => false,
            Some(i) => {
                let line = match self.current_line {
                    Some(l) => l,
                    None => attrs[i].line,
                };
                let id = self.add_annotated_module(module_name, line);
                let ghost mid = self.modules();
                let ghost f0 = self.functions();
                let pragma = self.get_annotation_name(&attrs[i]);
                let ghost pn = annotation_name(old(self).pragmas(), attrs@[i as int].name)->0;
                let ghost ds = crate::build::table::derives_of(old(self).module_derives(), pn);
                let derives: Vec<CustomModuleDerive> = match pragma {
                    Some(pragma) => match self.custom_module_derives.get(pragma.as_str()) {
                        Some(ds) => crate::build::derive::duplicate_all(ds),
                        None => Vec::new(),
                    },
                    None => Vec::new(),
                };
                assert(forest(derives@) =~= ds);
                let mut k: usize = 0;
                proof {
                    assert(f0.take(f0.len() as int) =~= f0);
                    assert(index_range(f0.len() as int, f0.len() as int) =~= seq![]);
                    assert(mid[id as int].functions + seq![] =~= mid[id as int].functions);
                    assert(mid.update(id as int, with_functions_added(mid[id as int], index_range(f0.len() as int, f0.len() as int))) =~= mid);
                }
                while k < derives.len()
                    invariant
                        self.wf(),
                        k <= derives@.len(),
                        forest(derives@) == ds,
                        id == mid.len() - 1,
                        self.modules().len() == mid.len(),
                        self.stack().len() > 0 && self.stack().last() == id,
                        self.current_mod() == path,
                        functions_appended(f0, self.functions(), forest_function_paths(ds, path, k as int), mid[id as int].line, Some(id as int)),
                        f0.len() == old(self).functions().len(),
                        recorded_in(self.functions(), f0.len() as int, old(self).crate_root(), old(self).current_path()),
                        functions_attached(mid, self.modules(), Some(id as int), f0.len() as int, self.functions().len() as int),
                        self.stack() == old(self).stack().push(id as int),
                        self.current_line() == old(self).current_line(),
                        self.current_path() == old(self).current_path(),
                        self.spec_root_path() == old(self).spec_root_path(),
                        Self::same_registrations(&*self, &*old(self)),
                    decreases derives.len() - k,
                {
                    let ghost fs1 = self.functions();
                    let ghost ms1 = self.modules();
                    self.visit_custom_module_derive(id, &derives[k]);
                    proof {
                        assert(self.modules()[id as int].line == ms1[id as int].line);
                        lemma_appended_trans(f0, fs1, self.functions(), forest_function_paths(ds, path, k as int), derive_function_paths(ds[k as int], path), mid[id as int].line, Some(id as int));
                        lemma_recorded_trans(fs1, self.functions(), f0.len() as int, old(self).crate_root(), old(self).current_path());
                        lemma_attached_trans(mid, ms1, self.modules(), Some(id as int), f0.len() as int, fs1.len() as int, self.functions().len() as int);
                    }
                    k = k + 1;
                }
                proof {
                    assert(forest(derives@).len() == ds.len());
                    assert(line as int == old(self).annotation_line(attrs@[i as int]));
                    assert(module_appended(old(self).modules(), mid, name@, path, old(self).enclosing(), line as int));
                    assert(functions_attached(mid, self.modules(), Some(id as int), old(self).functions().len() as int, self.functions().len() as int));
                }
                true
            },
        }
    }

    /// Leaves the module entered by [`Self::enter_item_mod`], and the
    /// annotated module it recorded, if it did.
    pub fn leave_item_mod(&mut self, entered: bool)
        requires
            old(self).wf(),
            entered ==> old(self).stack().len() > 0,
        ensures
            final(self).wf(),
            final(self).current_mod() == (if old(self).current_mod().len() == 0 {
                old(self).current_mod()
            } else {
                old(self).current_mod().drop_last()
            }),
            final(self).stack() == (if entered { old(self).stack().drop_last() } else { old(self).stack() }),
            final(self).modules() == old(self).modules(),
            final(self).functions() == old(self).functions(),
            final(self).current_line() == old(self).current_line(),
            final(self).current_path() == old(self).current_path(),
            final(self).spec_root_path() == old(self).spec_root_path(),
            Self::same_registrations(&*final(self), &*old(self)),
    {
        self.pop_mod();
        if entered {
            self.annotated_modules_stack.pop();
            assert(self.stack() =~= old(self).stack().drop_last());
        }
    }

    /// Starts the visit of a derive's expansion: annotations inside it are
    /// recorded at `line`. Returns the line that was in force before.
    pub fn begin_expansion(&mut self, line: usize) -> (previous: Option<usize>)
        requires
            old(self).wf(),
        ensures
            final(self).wf(),
            previous == old(self).current_line(),
            final(self).current_line() == Some(line),
            final(self).modules() == old(self).modules(),
            final(self).functions() == old(self).functions(),
            final(self).stack() == old(self).stack(),
            final(self).current_mod() == old(self).current_mod(),
            final(self).current_path() == old(self).current_path(),
            final(self).spec_root_path() == old(self).spec_root_path(),
            Self::same_registrations(&*final(self), &*old(self)),
    {
        let previous = self.current_line;
        self.current_line = Some(line);
        previous
    }

    /// Ends the visit of a derive's expansion, restoring the line in force before it.
    pub fn end_expansion(&mut self, previous: Option<usize>)
        requires
            old(self).wf(),
        ensures
            final(self).wf(),
            final(self).current_line() == previous,
            final(self).modules() == old(self).modules(),
            final(self).functions() == old(self).functions(),
            final(self).stack() == old(self).stack(),
            final(self).current_mod() == old(self).current_mod(),
            final(self).current_path() == old(self).current_path(),
            final(self).spec_root_path() == old(self).spec_root_path(),
            Self::same_registrations(&*final(self), &*old(self)),
    {
        self.current_line = previous;
    }

    /// The annotated modules and functions found.
    pub fn into_environment(self) -> (e: Environment)
        requires
            self.wf(),
        ensures
            e.spec_modules() == self.modules(),
            e.spec_functions() == self.functions(),
            links_agree(e.spec_modules(), e.spec_functions()),
    {
        Environment::new(self.annotated_modules, self.annotated_functions)
    }
}

/// A scanner's records always agree on parent and child links: every
/// function and module inside an annotated module is listed by it, and
/// every one listed has it as its module or parent.
pub proof fn lemma_links_agree(v: &Visitor)
    requires
        v.wf(),
    ensures
        links_agree(v.modules(), v.functions()),
{
}

/// Leaving a module undoes entering it: after `enter_item_mod(name, ..)`
/// returns `entered` and `leave_item_mod(entered)` follows, the scanner
/// stands in the module it stood in before, inside the same annotated
/// modules. The requirements are what the two calls ensure of the three
/// states.
pub proof fn lemma_leave_undoes_enter(v0: Visitor, v1: Visitor, v2: Visitor, name: Seq<char>, entered: bool)
    requires
        v1.current_mod() == v0.current_mod().push(name),
        entered ==> v1.stack() == v0.stack().push(v0.modules().len() as int),
        !entered ==> v1.stack() == v0.stack(),
        v2.current_mod() == (if v1.current_mod().len() == 0 {
            v1.current_mod()
        } else {
            v1.current_mod().drop_last()
        }),
        v2.stack() == (if entered { v1.stack().drop_last() } else { v1.stack() }),
    ensures
        v2.current_mod() == v0.current_mod(),
        v2.stack() == v0.stack(),
        v2.enclosing() == v0.enclosing(),
{
    assert(v0.current_mod().push(name).drop_last() =~= v0.current_mod());
    if entered {
        assert(v0.stack().push(v0.modules().len() as int).drop_last() =~= v0.stack());
    }
}

/// The derives among `specs`, given by name and template source, whose
/// names the `derive` attribute `attr` lists.
pub open spec fn derive_specs_named(specs: Seq<(Seq<char>, Seq<char>)>, attr: &AttrInfo) -> Seq<(Seq<char>, Seq<char>)> {
    match (attr.name, attr.list_paths) {
        (Some(n), Some(ps)) => if n@ == "derive"@ {
            specs.filter(|p: (Seq<char>, Seq<char>)| views(ps@).contains(p.0))
        } else {
            seq![]
        },
        _ => seq![],
    }
}

/// The names among `derives` that the `derive` attribute `attr` lists.
pub open spec fn derives_named(derives: Seq<Seq<char>>, attr: &AttrInfo) -> Seq<Seq<char>> {
    match (attr.name, attr.list_paths) {
        (Some(n), Some(ps)) => if n@ == "derive"@ {
            derives.filter(|d: Seq<char>| views(ps@).contains(d))
        } else {
            seq![]
        },
        _ => seq![],
    }
}

proof fn lemma_contains_push(s: Seq<Seq<char>>, x: Seq<char>, y: Seq<char>)
    ensures
        s.push(x).contains(y) == (s.contains(y) || x == y),
{
    if s.contains(y) {
        let i = choose|i: int| 0 <= i < s.len() && s[i] == y;
        assert(s.push(x)[i] == y);
    }
    if x == y {
        assert(s.push(x)[s.len() as int] == y);
    }
    if s.push(x).contains(y) {
        let i = choose|i: int| 0 <= i < s.push(x).len() && s.push(x)[i] == y;
        if i < s.len() {
            assert(s[i] == y);
        }
    }
}

pub open spec fn opt_index(o: Option<usize>) -> Option<int> {
    match o {
        Some(x) => Some(x as int),
        None => None,
    }
}

proof fn lemma_first_annotation_some(pragmas: Seq<Seq<char>>, attrs: Seq<AttrInfo>)
    ensures
        first_annotation(pragmas, attrs) matches Some(i) ==> 0 <= i < attrs.len() && annotation_name(
            pragmas,
            attrs[i].name,
        ) is Some,
    decreases attrs.len(),
{
    if attrs.len() > 0 {
        lemma_first_annotation_some(pragmas, attrs.drop_last());
        if let Some(i) = first_annotation(pragmas, attrs.drop_last()) {
            assert(attrs.drop_last()[i] == attrs[i]);
        }
    }
}

proof fn lemma_first_annotation_prefix(pragmas: Seq<Seq<char>>, attrs: Seq<AttrInfo>, n: int)
    requires
        0 < n <= attrs.len(),
        first_annotation(pragmas, attrs.take(n - 1)) is None,
        annotation_name(pragmas, attrs[n - 1].name) is Some,
    ensures
        first_annotation(pragmas, attrs) == Some(n - 1),
    decreases attrs.len(),
{
    if attrs.len() == n {
        assert(attrs.drop_last() =~= attrs.take(n - 1));
    } else {
        assert(attrs.drop_last().take(n - 1) =~= attrs.take(n - 1));
        assert(attrs.drop_last()[n - 1] == attrs[n - 1]);
        lemma_first_annotation_prefix(pragmas, attrs.drop_last(), n);
    }
}

} // verus!
