//! Custom module derives: trees of module names and function names that an
//! annotated module is extended with, and the builder that grows them.

use vstd::prelude::*;

use crate::text::views;

verus! {

/// The mathematical shape of a [`CustomModuleDerive`].
pub ghost enum DeriveTree {
    Node { name: Option<Seq<char>>, functions: Seq<Seq<char>>, modules: Seq<DeriveTree> },
}

impl DeriveTree {
    pub open spec fn name(self) -> Option<Seq<char>> {
        self->name
    }

    pub open spec fn functions(self) -> Seq<Seq<char>> {
        self->functions
    }

    pub open spec fn modules(self) -> Seq<DeriveTree> {
        self->modules
    }

    /// A tree with the given name and no functions or modules.
    pub open spec fn leaf(name: Option<Seq<char>>) -> DeriveTree {
        DeriveTree::Node { name, functions: seq![], modules: seq![] }
    }

    /// The same tree with another list of child modules.
    pub open spec fn with_modules(self, modules: Seq<DeriveTree>) -> DeriveTree {
        DeriveTree::Node { name: self.name(), functions: self.functions(), modules }
    }

    /// The same tree with another list of functions.
    pub open spec fn with_functions(self, functions: Seq<Seq<char>>) -> DeriveTree {
        DeriveTree::Node { name: self.name(), functions, modules: self.modules() }
    }

    /// Whether every index of `path` selects an existing child, level by level.
    pub open spec fn valid_path(self, path: Seq<usize>) -> bool
        decreases path.len(),
    {
        path.len() == 0 || (path[0] < self.modules().len() && self.modules()[path[0] as int].valid_path(
            path.skip(1),
        ))
    }

    /// The subtree that `path` selects.
    pub open spec fn at(self, path: Seq<usize>) -> DeriveTree
        decreases path.len(),
    {
        if path.len() == 0 || path[0] >= self.modules().len() {
            self
        } else {
            self.modules()[path[0] as int].at(path.skip(1))
        }
    }

    /// This tree with the subtree that `path` selects replaced by `t`.
    pub open spec fn replace_at(self, path: Seq<usize>, t: DeriveTree) -> DeriveTree
        decreases path.len(),
    {
        if path.len() == 0 {
            t
        } else if path[0] >= self.modules().len() {
            self
        } else {
            self.with_modules(
                self.modules().update(
                    path[0] as int,
                    self.modules()[path[0] as int].replace_at(path.skip(1), t),
                ),
            )
        }
    }
}

pub open spec fn opt_view(o: Option<String>) -> Option<Seq<char>> {
    match o {
        Some(s) => Some(s@),
        None => None,
    }
}

/// The derive description that a configuration spec holds.
pub struct ModuleDeriveSpec {
    pub name: Option<String>,
    pub modules: Vec<ModuleDeriveSpec>,
    pub functions: Vec<String>,
}

impl ModuleDeriveSpec {
    pub open spec fn tree(self) -> DeriveTree
        decreases self,
    {
        DeriveTree::Node {
            name: opt_view(self.name),
            functions: views(self.functions@),
            modules: Seq::new(
                self.modules@.len(),
                |i: int|
                    if 0 <= i < self.modules@.len() {
                        self.modules@[i].tree()
                    } else {
                        DeriveTree::leaf(None)
                    },
            ),
        }
    }
}

/// A module, possibly unnamed, whose functions and nested modules are added
/// to every module annotated with the pragma it is registered for.
pub struct CustomModuleDerive {
    pub(crate) name: Option<String>,
    pub(crate) function_names: Vec<String>,
    pub(crate) modules: Vec<CustomModuleDerive>,
}

/// The trees of a sequence of derives.
pub open spec fn forest(s: Seq<CustomModuleDerive>) -> Seq<DeriveTree> {
    s.map_values(|d: CustomModuleDerive| d.tree())
}

pub open spec fn spec_forest(s: Seq<ModuleDeriveSpec>) -> Seq<DeriveTree> {
    s.map_values(|d: ModuleDeriveSpec| d.tree())
}

impl CustomModuleDerive {
    pub closed spec fn tree(self) -> DeriveTree
        decreases self,
    {
        DeriveTree::Node {
            name: opt_view(self.name),
            functions: views(self.function_names@),
            modules: Seq::new(
                self.modules@.len(),
                |i: int|
                    if 0 <= i < self.modules@.len() {
                        self.modules@[i].tree()
                    } else {
                        DeriveTree::leaf(None)
                    },
            ),
        }
    }

    proof fn lemma_modules_tree(self)
        ensures
            self.tree().modules() == forest(self.modules@),
    {
        assert(self.tree().modules() =~= forest(self.modules@));
    }

    proof fn lemma_tree_update(self, i: int)
        requires
            0 <= i < self.modules@.len(),
        ensures
            forall|s2: CustomModuleDerive|
                s2.name == self.name && s2.function_names == self.function_names
                    && s2.modules@ == self.modules@.update(i, s2.modules@[i])
                    ==> #[trigger] s2.tree() == self.tree().with_modules(
                    self.tree().modules().update(i, s2.modules@[i].tree()),
                ),
    {
        assert forall|s2: CustomModuleDerive|
            s2.name == self.name && s2.function_names == self.function_names
                && s2.modules@ == self.modules@.update(i, s2.modules@[i]) implies #[trigger] s2.tree()
            == self.tree().with_modules(self.tree().modules().update(i, s2.modules@[i].tree())) by {
            assert(s2.tree().modules() =~= self.tree().modules().update(i, s2.modules@[i].tree()));
        }
    }

    /// A named derive without functions or modules.
    pub fn new(name: String) -> (d: Self)
        ensures
            d.tree() == DeriveTree::leaf(Some(name@)),
    {
        let d = CustomModuleDerive { name: Some(name), function_names: Vec::new(), modules: Vec::new() };
        assert(d.tree().functions() =~= seq![]);
        assert(d.tree().modules() =~= seq![]);
        d
    }

    /// An unnamed derive without functions or modules.
    pub fn unnamed() -> (d: Self)
        ensures
            d.tree() == DeriveTree::leaf(None),
    {
        let d = CustomModuleDerive { name: None, function_names: Vec::new(), modules: Vec::new() };
        assert(d.tree().functions() =~= seq![]);
        assert(d.tree().modules() =~= seq![]);
        d
    }

    /// The derive that a configuration spec describes.
    pub fn from_spec(spec: &ModuleDeriveSpec) -> (d: Self)
        ensures
            d.tree() == spec.tree(),
        decreases spec,
    {
        let mut derive = match &spec.name {
            Some(name) => Self::new(copy_string(name)),
            None => Self::unnamed(),
        };
        let mut i: usize = 0;
        assert(views(spec.functions@).take(0) =~= seq![]);
        while i < spec.functions.len()
            invariant
                i <= spec.functions@.len(),
                derive.tree() == (DeriveTree::Node {
                    name: opt_view(spec.name),
                    functions: views(spec.functions@).take(i as int),
                    modules: seq![],
                }),
            decreases spec.functions.len() - i,
        {
            derive.add_function(copy_string(&spec.functions[i]));
            assert(views(spec.functions@).take(i + 1) =~= views(spec.functions@).take(i as int).push(
                spec.functions@[i as int]@,
            ));
            i = i + 1;
        }
        assert(views(spec.functions@).take(i as int) =~= views(spec.functions@));
        let mut j: usize = 0;
        assert(spec_forest(spec.modules@).take(0) =~= seq![]);
        while j < spec.modules.len()
            invariant
                j <= spec.modules@.len(),
                derive.tree() == (DeriveTree::Node {
                    name: opt_view(spec.name),
                    functions: views(spec.functions@),
                    modules: spec_forest(spec.modules@).take(j as int),
                }),
            decreases spec.modules.len() - j,
        {
            let child = Self::from_spec(&spec.modules[j]);
            let ghost before = derive;
            derive.modules.push(child);
            proof {
                before.lemma_modules_tree();
                derive.lemma_modules_tree();
                assert(forest(derive.modules@) =~= forest(before.modules@).push(child.tree()));
                assert(spec_forest(spec.modules@).take(j + 1) =~= spec_forest(spec.modules@).take(
                    j as int,
                ).push(spec.modules@[j as int].tree()));
            }
            j = j + 1;
        }
        assert(spec_forest(spec.modules@).take(j as int) =~= spec_forest(spec.modules@));
        assert(spec.tree().modules() =~= spec_forest(spec.modules@));
        derive
    }

    /// A copy of this derive.
    pub fn duplicate(&self) -> (d: Self)
        ensures
            d.tree() == self.tree(),
        decreases self,
    {
        let name = match &self.name {
            Some(n) => Some(copy_string(n)),
            None => None,
        };
        let mut function_names: Vec<String> = Vec::new();
        let mut i: usize = 0;
        assert(views(function_names@) =~= views(self.function_names@).take(0));
        while i < self.function_names.len()
            invariant
                i <= self.function_names@.len(),
                views(function_names@) == views(self.function_names@).take(i as int),
            decreases self.function_names.len() - i,
        {
            let ghost before = function_names@;
            function_names.push(copy_string(&self.function_names[i]));
            assert(views(function_names@) =~= views(before).push(self.function_names@[i as int]@));
            assert(views(self.function_names@).take(i + 1) =~= views(self.function_names@).take(
                i as int,
            ).push(self.function_names@[i as int]@));
            i = i + 1;
        }
        assert(views(self.function_names@).take(i as int) =~= views(self.function_names@));
        let mut modules: Vec<CustomModuleDerive> = Vec::new();
        let mut j: usize = 0;
        assert(forest(modules@) =~= forest(self.modules@).take(0));
        while j < self.modules.len()
            invariant
                j <= self.modules@.len(),
                forest(modules@) == forest(self.modules@).take(j as int),
            decreases self.modules.len() - j,
        {
            let ghost before = modules@;
            let m = self.modules[j].duplicate();
            modules.push(m);
            assert(forest(modules@) =~= forest(before).push(m.tree()));
            assert(forest(self.modules@).take(j + 1) =~= forest(self.modules@).take(j as int).push(
                self.modules@[j as int].tree(),
            ));
            j = j + 1;
        }
        assert(forest(self.modules@).take(j as int) =~= forest(self.modules@));
        let d = CustomModuleDerive { name, function_names, modules };
        proof {
            d.lemma_modules_tree();
            self.lemma_modules_tree();
        }
        assert(d.tree() =~= self.tree());
        d
    }

    /// The derive's name, if it has one.
    pub fn name(&self) -> (r: Option<&str>)
        ensures
            r is Some == self.tree().name() is Some,
            r matches Some(s) ==> Some(s@) == self.tree().name(),
    {
        match &self.name {
            Some(s) => Some(s.as_str()),
            None => None,
        }
    }

    /// The names of the derive's own functions.
    pub fn function_names(&self) -> (r: &[String])
        ensures
            views(r@) == self.tree().functions(),
    {
        self.function_names.as_slice()
    }

    /// The derive's nested modules.
    pub fn modules(&self) -> (r: &[CustomModuleDerive])
        ensures
            forest(r@) == self.tree().modules(),
    {
        proof { self.lemma_modules_tree(); }
        self.modules.as_slice()
    }

    /// Adds a function name at the end of the derive's own functions.
    pub fn add_function(&mut self, function_name: String)
        ensures
            final(self).tree() == old(self).tree().with_functions(
                old(self).tree().functions().push(function_name@),
            ),
    {
        self.function_names.push(function_name);
        assert(final(self).tree().functions() =~= old(self).tree().functions().push(function_name@));
        assert(final(self).tree().modules() =~= old(self).tree().modules());
    }

    /// Adds a nested module with the given name and returns its index.
    pub fn add_module(&mut self, module_name: String) -> (index: usize)
        ensures
            index == old(self).tree().modules().len(),
            final(self).tree() == old(self).tree().with_modules(
                old(self).tree().modules().push(DeriveTree::leaf(Some(module_name@))),
            ),
    {
        let len = self.modules.len();
        self.modules.push(Self::new(module_name));
        assert(final(self).tree().modules() =~= old(self).tree().modules().push(
            DeriveTree::leaf(Some(module_name@)),
        ));
        assert(final(self).tree().functions() =~= old(self).tree().functions());
        len
    }

    /// The nested derive that `path` selects, level by level.
    pub fn derive_at_mut(&mut self, path: &[usize]) -> (r: &mut Self)
        requires
            old(self).tree().valid_path(path@),
        ensures
            r.tree() == old(self).tree().at(path@),
            final(self).tree() == old(self).tree().replace_at(path@, final(r).tree()),
        decreases path@.len(),
    {
        if path.len() == 0 {
            return self;
        }
        let first_index = path[0];
        proof { self.lemma_modules_tree(); }
        let rest = vstd::slice::slice_subrange(path, 1, path.len());
        let ghost old_self = *self;
        proof {
            old_self.lemma_tree_update(first_index as int);
            assert(path@.skip(1) == rest@);
        }
        let module = &mut self.modules[first_index];
        let r = module.derive_at_mut(rest);
        r
    }
}

/// An index `i` of `f` and the tree `f[i]` with `t` in place of the subtree that `path` selects.
pub open spec fn forest_replace(f: Seq<DeriveTree>, i: int, path: Seq<usize>, t: DeriveTree) -> Seq<
    DeriveTree,
> {
    f.update(i, f[i].replace_at(path, t))
}

/// The derives a builder works on: those stored, or one unnamed derive if none is.
pub open spec fn ensure_nonempty(f: Seq<DeriveTree>) -> Seq<DeriveTree> {
    if f.len() == 0 {
        seq![DeriveTree::leaf(None)]
    } else {
        f
    }
}

/// The top-level derive that a builder path selects: the first index of the
/// path, or the last derive for the empty path.
pub open spec fn target_index(f: Seq<DeriveTree>, path: Seq<usize>) -> int {
    if path.len() == 0 {
        ensure_nonempty(f).len() - 1
    } else {
        path[0] as int
    }
}

/// The path inside the selected top-level derive.
pub open spec fn target_path(path: Seq<usize>) -> Seq<usize> {
    if path.len() == 0 {
        seq![]
    } else {
        path.skip(1)
    }
}

/// Whether a builder path selects an existing derive.
pub open spec fn valid_builder_path(f: Seq<DeriveTree>, path: Seq<usize>) -> bool {
    path.len() == 0 || (path[0] < ensure_nonempty(f).len() && ensure_nonempty(f)[path[0] as int].valid_path(
        path.skip(1),
    ))
}

/// The derive that a builder path selects.
pub open spec fn builder_target(f: Seq<DeriveTree>, path: Seq<usize>) -> DeriveTree {
    ensure_nonempty(f)[target_index(f, path)].at(target_path(path))
}

/// The derives after the functions `names` are added to the derive that `path` selects.
pub open spec fn functions_added(f: Seq<DeriveTree>, path: Seq<usize>, names: Seq<Seq<char>>) -> Seq<
    DeriveTree,
> {
    let t = builder_target(f, path);
    forest_replace(
        ensure_nonempty(f),
        target_index(f, path),
        target_path(path),
        t.with_functions(t.functions() + names),
    )
}

/// The derives after a module named `name` is added under the derive that `path` selects,
/// or at the top level for the empty path.
pub open spec fn module_added(f: Seq<DeriveTree>, path: Seq<usize>, name: Seq<char>) -> Seq<
    DeriveTree,
> {
    if path.len() == 0 {
        f.push(DeriveTree::leaf(Some(name)))
    } else {
        let t = builder_target(f, path);
        forest_replace(
            ensure_nonempty(f),
            target_index(f, path),
            target_path(path),
            t.with_modules(t.modules().push(DeriveTree::leaf(Some(name)))),
        )
    }
}

/// The path of the module that [`module_added`] adds.
pub open spec fn module_added_path(f: Seq<DeriveTree>, path: Seq<usize>) -> Seq<usize> {
    if path.len() == 0 {
        seq![f.len() as usize]
    } else {
        path.push(builder_target(f, path).modules().len() as usize)
    }
}

proof fn lemma_forest_update(v: Seq<CustomModuleDerive>, i: int)
    requires
        0 <= i < v.len(),
    ensures
        forall|v2: Seq<CustomModuleDerive>|
            v2 == v.update(i, v2[i]) ==> #[trigger] forest(v2) == forest(v).update(i, v2[i].tree()),
{
    assert forall|v2: Seq<CustomModuleDerive>| v2 == v.update(i, v2[i]) implies #[trigger] forest(v2)
        == forest(v).update(i, v2[i].tree()) by {
        assert(forest(v2) =~= forest(v).update(i, v2[i].tree()));
    }
}

/// The derive that a builder path selects, after storing an unnamed derive if none is stored.
fn builder_target_mut<'b>(derives: &'b mut Vec<CustomModuleDerive>, path: &Vec<usize>) -> (r:
    &'b mut CustomModuleDerive)
    requires
        valid_builder_path(forest(old(derives)@), path@),
    ensures
        r.tree() == builder_target(forest(old(derives)@), path@),
        forest(final(derives)@) == forest_replace(
            ensure_nonempty(forest(old(derives)@)),
            target_index(forest(old(derives)@), path@),
            target_path(path@),
            final(r).tree(),
        ),
        final(derives)@.len() == ensure_nonempty(forest(old(derives)@)).len(),
{
    if derives.len() == 0 {
        derives.push(CustomModuleDerive::unnamed());
        assert(forest(derives@) =~= ensure_nonempty(forest(old(derives)@)));
    }
    assert(forest(derives@) == ensure_nonempty(forest(old(derives)@)));
    let ghost before = derives@;
    if path.len() == 0 {
        let last = derives.len() - 1;
        proof {
            lemma_forest_update(before, last as int);
        }
        let empty: Vec<usize> = Vec::new();
        let target = &mut derives[last];
        target.derive_at_mut(empty.as_slice())
    } else {
        let first = path[0];
        let rest = vstd::slice::slice_subrange(path.as_slice(), 1, path.len());
        proof {
            lemma_forest_update(before, first as int);
        }
        let target = &mut derives[first];
        target.derive_at_mut(rest)
    }
}

/// Adds the functions `functions` at `path` in `derives`.
fn add_functions_at(derives: &mut Vec<CustomModuleDerive>, path: &Vec<usize>, functions: Vec<String>)
    requires
        valid_builder_path(forest(old(derives)@), path@),
    ensures
        forest(final(derives)@) == functions_added(forest(old(derives)@), path@, views(functions@)),
        valid_builder_path(forest(final(derives)@), path@),
{
    let ghost f = forest(derives@);
    let ghost p = path@;
    let target = builder_target_mut(derives, path);
    let ghost t0 = target.tree();
    let mut i: usize = 0;
    while i < functions.len()
        invariant
            0 <= i <= functions.len(),
            target.tree() == t0.with_functions(t0.functions() + views(functions@).take(i as int)),
        decreases functions.len() - i,
    {
        target.add_function(copy_string(&functions[i]));
        assert(views(functions@).take(i + 1) =~= views(functions@).take(i as int).push(
            functions@[i as int]@,
        ));
        assert(t0.functions() + views(functions@).take(i + 1) =~= (t0.functions() + views(
            functions@,
        ).take(i as int)).push(functions@[i as int]@));
        i = i + 1;
    }
    assert(views(functions@).take(functions.len() as int) =~= views(functions@));
    proof {
        lemma_functions_keep_path_valid(f, p, views(functions@));
    }
}

/// Grows the derives registered for one pragma, at the top level of them.
/// [`ModuleDeriveBuilder::module`] and [`ModuleDeriveBuilder::functions`]
/// return scopes that work on the same derives, each at its own place.
pub struct ModuleDeriveBuilder {
    pub(crate) derives: Vec<CustomModuleDerive>,
}

/// A place in the derives that a [`ModuleDeriveBuilder`] grows.
pub struct ModuleDeriveScope<'a> {
    /// The derives worked on, shared with the builder and the other scopes.
    pub derives: &'a mut Vec<CustomModuleDerive>,
    /// The place in them that this scope adds to, index by index.
    pub current_derive_path: Vec<usize>,
}

impl ModuleDeriveBuilder {
    /// The derives this builder works on.
    pub closed spec fn stored(&self) -> Seq<DeriveTree> {
        forest(self.derives@)
    }

    /// A builder over `derives`. Only the configuration makes builders, so
    /// the one a configuring closure gets is the only one it can reach.
    pub(crate) fn new(derives: Vec<CustomModuleDerive>) -> (b: Self)
        ensures
            b.stored() == forest(derives@),
    {
        ModuleDeriveBuilder { derives }
    }

    /// The derives built.
    pub(crate) fn into_derives(self) -> (r: Vec<CustomModuleDerive>)
        ensures
            forest(r@) == self.stored(),
    {
        self.derives
    }

    /// Adds a new top-level derive named `module` and returns a scope at it.
    /// The builder's derives end as the scope leaves them.
    pub fn module(&mut self, module: String) -> (b: ModuleDeriveScope<'_>)
        ensures
            b.stored() == module_added(old(self).stored(), seq![], module@),
            b.place() == module_added_path(old(self).stored(), seq![]),
            valid_builder_path(b.stored(), b.place()),
            final(self).stored() == forest(final(b.derives)@),
    {
        let ghost f = self.stored();
        let index = self.derives.len();
        self.derives.push(CustomModuleDerive::new(module));
        let mut path: Vec<usize> = Vec::new();
        path.push(index);
        assert(forest(self.derives@) =~= module_added(f, seq![], module@));
        assert(path@ =~= module_added_path(f, seq![]));
        let b = ModuleDeriveScope { derives: &mut self.derives, current_derive_path: path };
        assert(b.stored()[index as int].valid_path(seq![]));
        assert(path@.skip(1) =~= seq![]);
        b
    }

    /// Adds the functions `functions` to the last top-level derive (an
    /// unnamed one if there is none) and returns a scope at the top level.
    /// The builder's derives end as the scope leaves them.
    pub fn functions(&mut self, functions: Vec<String>) -> (b: ModuleDeriveScope<'_>)
        ensures
            b.stored() == functions_added(old(self).stored(), seq![], views(functions@)),
            b.place() == Seq::<usize>::empty(),
            valid_builder_path(b.stored(), b.place()),
            final(self).stored() == forest(final(b.derives)@),
    {
        let path: Vec<usize> = Vec::new();
        assert(valid_builder_path(self.stored(), path@));
        add_functions_at(&mut self.derives, &path, functions);
        ModuleDeriveScope { derives: &mut self.derives, current_derive_path: path }
    }
}

impl<'a> ModuleDeriveScope<'a> {
    /// The derives this scope works on.
    pub open spec fn stored(&self) -> Seq<DeriveTree> {
        forest(self.derives@)
    }

    /// The place in them that this scope adds to.
    pub open spec fn place(&self) -> Seq<usize> {
        self.current_derive_path@
    }

    /// Adds a module named `module` at this scope's place and returns a
    /// scope at that module. This scope keeps its place, and its derives
    /// end as the returned scope leaves them.
    pub fn module(&mut self, module: String) -> (b: ModuleDeriveScope<'_>)
        requires
            valid_builder_path(old(self).stored(), old(self).place()),
        ensures
            b.stored() == module_added(old(self).stored(), old(self).place(), module@),
            b.place() == module_added_path(old(self).stored(), old(self).place()),
            valid_builder_path(b.stored(), b.place()),
            final(self).place() == old(self).place(),
            final(self).stored() == forest(final(b.derives)@),
            *final(final(self).derives) == *final(old(self).derives),
    {
        let ghost f = self.stored();
        let ghost p = self.place();
        if self.current_derive_path.len() == 0 {
            let index = self.derives.len();
            self.derives.push(CustomModuleDerive::new(module));
            let mut path: Vec<usize> = Vec::new();
            path.push(index);
            assert(forest(self.derives@) =~= module_added(f, p, module@));
            assert(path@ =~= module_added_path(f, p));
            let b = ModuleDeriveScope { derives: &mut *self.derives, current_derive_path: path };
            assert(b.stored()[index as int].valid_path(seq![]));
            assert(path@.skip(1) =~= seq![]);
            b
        } else {
            let target = builder_target_mut(self.derives, &self.current_derive_path);
            let index = target.add_module(module);
            let mut path = copy_path(&self.current_derive_path);
            path.push(index);
            let b = ModuleDeriveScope { derives: &mut *self.derives, current_derive_path: path };
            proof {
                lemma_added_child_path_valid(f, p, module@);
            }
            assert(b.stored() =~= module_added(f, p, module@));
            b
        }
    }

    /// Adds the functions `functions` at this scope's place (the last
    /// top-level derive at the top level, an unnamed one if there is none)
    /// and returns a scope at the same place. This scope keeps its place,
    /// and its derives end as the returned scope leaves them.
    pub fn functions(&mut self, functions: Vec<String>) -> (b: ModuleDeriveScope<'_>)
        requires
            valid_builder_path(old(self).stored(), old(self).place()),
        ensures
            b.stored() == functions_added(old(self).stored(), old(self).place(), views(functions@)),
            b.place() == old(self).place(),
            valid_builder_path(b.stored(), b.place()),
            final(self).place() == old(self).place(),
            final(self).stored() == forest(final(b.derives)@),
            *final(final(self).derives) == *final(old(self).derives),
    {
        add_functions_at(self.derives, &self.current_derive_path, functions);
        let path = copy_path(&self.current_derive_path);
        ModuleDeriveScope { derives: &mut *self.derives, current_derive_path: path }
    }
}

proof fn lemma_replace_at_valid(t: DeriveTree, path: Seq<usize>, q: Seq<usize>, u: DeriveTree)
    requires
        t.valid_path(path),
    ensures
        u.valid_path(q) ==> t.replace_at(path, u).valid_path(path + q),
        t.replace_at(path, u).valid_path(path),
        t.replace_at(path, u).at(path) == u,
    decreases path.len(),
{
    if path.len() == 0 {
        assert(path + q =~= q);
    } else {
        let c = t.modules()[path[0] as int];
        lemma_replace_at_valid(c, path.skip(1), q, u);
        assert((path + q).skip(1) =~= path.skip(1) + q);
        assert((path + q)[0] == path[0]);
    }
}

proof fn lemma_added_child_path_valid(f: Seq<DeriveTree>, p: Seq<usize>, name: Seq<char>)
    requires
        p.len() > 0,
        valid_builder_path(f, p),
        builder_target(f, p).modules().len() <= usize::MAX,
    ensures
        valid_builder_path(module_added(f, p, name), module_added_path(f, p)),
{
    let g = ensure_nonempty(f);
    let i = p[0] as int;
    let q = p.skip(1);
    let t = g[i].at(q);
    let n = t.modules().len();
    let u = t.with_modules(t.modules().push(DeriveTree::leaf(Some(name))));
    assert(seq![n as usize].skip(1) =~= Seq::<usize>::empty());
    assert(u.modules()[n as int].valid_path(seq![n as usize].skip(1)));
    assert(u.valid_path(seq![n as usize]));
    lemma_replace_at_valid(g[i], q, seq![n as usize], u);
    let np = module_added_path(f, p);
    assert(np.skip(1) =~= q + seq![n as usize]);
    assert(ensure_nonempty(module_added(f, p, name)) == module_added(f, p, name));
}

proof fn lemma_functions_keep_path_valid(f: Seq<DeriveTree>, p: Seq<usize>, names: Seq<Seq<char>>)
    requires
        valid_builder_path(f, p),
    ensures
        valid_builder_path(functions_added(f, p, names), p),
{
    if p.len() > 0 {
        let g = ensure_nonempty(f);
        let i = p[0] as int;
        let q = p.skip(1);
        let t = g[i].at(q);
        lemma_replace_at_valid(g[i], q, seq![], t.with_functions(t.functions() + names));
        assert(q + seq![] =~= q);
    }
}

/// Copies of derives.
pub fn duplicate_all(v: &Vec<CustomModuleDerive>) -> (r: Vec<CustomModuleDerive>)
    ensures
        forest(r@) == forest(v@),
{
    let mut r: Vec<CustomModuleDerive> = Vec::new();
    let mut j: usize = 0;
    assert(forest(r@) =~= forest(v@).take(0));
    while j < v.len()
        invariant
            j <= v@.len(),
            forest(r@) == forest(v@).take(j as int),
        decreases v.len() - j,
    {
        let ghost before = r@;
        let m = v[j].duplicate();
        r.push(m);
        assert(forest(r@) =~= forest(before).push(m.tree()));
        assert(forest(v@).take(j + 1) =~= forest(v@).take(j as int).push(v@[j as int].tree()));
        j = j + 1;
    }
    assert(forest(v@).take(j as int) =~= forest(v@));
    r
}

/// A copy of a path.
fn copy_path(p: &Vec<usize>) -> (r: Vec<usize>)
    ensures
        r@ == p@,
{
    let mut r: Vec<usize> = Vec::new();
    let mut i: usize = 0;
    while i < p.len()
        invariant
            i <= p.len(),
            r@ == p@.take(i as int),
        decreases p.len() - i,
    {
        r.push(p[i]);
        assert(p@.take(i + 1) =~= p@.take(i as int).push(p@[i as int]));
        i = i + 1;
    }
    assert(p@.take(p.len() as int) =~= p@);
    r
}

/// A copy of a string.
pub fn copy_string(s: &String) -> (r: String)
    ensures
        r@ == s@,
{
    s.clone()
}

/// Putting back the subtree that a path selects leaves the tree as it was.
pub proof fn lemma_replace_at_same(t: DeriveTree, path: Seq<usize>)
    ensures
        t.replace_at(path, t.at(path)) == t,
    decreases path.len(),
{
    if path.len() > 0 && path[0] < t.modules().len() {
        let c = t.modules()[path[0] as int];
        lemma_replace_at_same(c, path.skip(1));
        assert(t.modules().update(path[0] as int, c) =~= t.modules());
    }
}

/// Selecting after replacing at a valid path gives what was put there.
pub proof fn lemma_at_replace_at(t: DeriveTree, path: Seq<usize>, u: DeriveTree)
    requires
        t.valid_path(path),
    ensures
        t.replace_at(path, u).at(path) == u,
        t.replace_at(path, u).valid_path(path),
    decreases path.len(),
{
    if path.len() > 0 {
        lemma_at_replace_at(t.modules()[path[0] as int], path.skip(1), u);
    }
}

proof fn lemma_at_concat(t: DeriveTree, p: Seq<usize>, q: Seq<usize>)
    requires
        t.valid_path(p),
    ensures
        t.at(p + q) == t.at(p).at(q),
    decreases p.len(),
{
    if p.len() == 0 {
        assert(p + q =~= q);
    } else {
        assert((p + q)[0] == p[0]);
        assert((p + q).skip(1) =~= p.skip(1) + q);
        lemma_at_concat(t.modules()[p[0] as int], p.skip(1), q);
    }
}

/// After a module is added under the derive that `path` selects (as
/// `derive_at_mut(path).add_module(name)` does), `path` followed by the
/// returned index selects the new module, which is empty.
pub proof fn lemma_added_module_at(t: DeriveTree, path: Seq<usize>, name: Seq<char>)
    requires
        t.valid_path(path),
        t.at(path).modules().len() < usize::MAX,
    ensures
        ({
            let s = t.at(path);
            let n = s.modules().len() as usize;
            let after = t.replace_at(path, s.with_modules(s.modules().push(DeriveTree::leaf(Some(name)))));
            &&& after.valid_path(path.push(n))
            &&& after.at(path.push(n)) == DeriveTree::leaf(Some(name))
        }),
{
    let s = t.at(path);
    let n = s.modules().len() as usize;
    let u = s.with_modules(s.modules().push(DeriveTree::leaf(Some(name))));
    let q = seq![n];
    assert(q.skip(1) =~= Seq::<usize>::empty());
    assert(u.modules() == s.modules().push(DeriveTree::leaf(Some(name))));
    assert(u.modules()[n as int] == DeriveTree::leaf(Some(name)));
    assert(DeriveTree::leaf(Some(name)).valid_path(q.skip(1)));
    assert(q[0] == n);
    assert(u.valid_path(q));
    lemma_replace_at_valid(t, path, q, u);
    assert(path + q =~= path.push(n));
    lemma_at_concat(t.replace_at(path, u), path, q);
    assert(u.at(q) == u.modules()[n as int].at(q.skip(1)));
}

} // verus!
