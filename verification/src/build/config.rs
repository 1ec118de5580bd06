//! The build configuration: extra pragma names, custom derives with their
//! templates, and custom module derives, assembled by hand or from specs.

use vstd::prelude::*;

use crate::build::derive::{
    copy_string, spec_forest, CustomModuleDerive, DeriveTree, ModuleDeriveBuilder,
    ModuleDeriveSpec, duplicate_all, forest,
};
use crate::build::table::{derives_of, merged, ModuleDeriveTable};
use crate::text::{copy_str, decimal, decimal_string, views};
use crate::trusted::{
    clone_template, compile_template, compiles, lowercase, render_derive, render_safe, rendered,
    safe_from, to_lowercase,
};

verus! {

/// The version of the configuration spec format that is understood.
pub const SCHEMA_VERSION: u32 = 1;

/// An extra pragma name for functions.
pub struct FunctionSpec {
    pub pragma: String,
}

/// An extra pragma name for modules, with the derives added to such modules.
pub struct ModuleSpec {
    pub pragma: String,
    pub derives: Vec<ModuleDeriveSpec>,
}

/// A configuration spec, as read from its JSON text.
pub struct ConfigSpec {
    pub schema_version: u32,
    pub functions: Vec<FunctionSpec>,
    pub modules: Vec<ModuleSpec>,
}

/// Why a configuration spec is refused.
pub enum ConfigError {
    /// The spec is written for another version of the format.
    SchemaVersionMismatch { found: u32, supported: u32 },
}

/// The text of a schema mismatch error.
pub open spec fn schema_mismatch_text(found: nat, supported: nat) -> Seq<char> {
    "schema_version "@ + decimal(found) + " does not match supported version "@ + decimal(supported)
}

impl ConfigError {
    /// The error's message.
    pub fn message(&self) -> (m: String)
        ensures
            match self {
                ConfigError::SchemaVersionMismatch { found, supported } => m@ == schema_mismatch_text(
                    *found as nat,
                    *supported as nat,
                ),
            },
    {
        match self {
            ConfigError::SchemaVersionMismatch { found, supported } => {
                let mut m = String::from_str("schema_version ");
                let f = decimal_string(*found as u64);
                m.append(f.as_str());
                m.append(" does not match supported version ");
                let s = decimal_string(*supported as u64);
                m.append(s.as_str());
                proof {
                    reveal_strlit("schema_version ");
                    reveal_strlit(" does not match supported version ");
                }
                m
            },
        }
    }
}

/// The pragma names that a spec registers, functions' first, then modules', in order.
pub open spec fn spec_pragmas(spec: ConfigSpec) -> Seq<Seq<char>> {
    spec.functions@.map_values(|f: FunctionSpec| f.pragma@) + spec.modules@.map_values(
        |m: ModuleSpec| m.pragma@,
    )
}

/// `s` with `x` added at the end unless it is there already.
pub open spec fn with_unique(s: Seq<Seq<char>>, x: Seq<char>) -> Seq<Seq<char>> {
    if s.contains(x) {
        s
    } else {
        s.push(x)
    }
}

/// `s` with each of `xs` added in turn unless it is there already.
pub open spec fn with_all_unique(s: Seq<Seq<char>>, xs: Seq<Seq<char>>) -> Seq<Seq<char>>
    decreases xs.len(),
{
    if xs.len() == 0 {
        s
    } else {
        with_unique(with_all_unique(s, xs.drop_last()), xs.last())
    }
}

/// The derives a spec registers per pragma: each module spec's derives, a
/// later module spec with the same pragma replacing an earlier one.
pub open spec fn spec_module_derives(mods: Seq<ModuleSpec>) -> Map<Seq<char>, Seq<DeriveTree>>
    decreases mods.len(),
{
    if mods.len() == 0 {
        Map::empty()
    } else {
        spec_module_derives(mods.drop_last()).insert(
            mods.last().pragma@,
            spec_forest(mods.last().derives@),
        )
    }
}

impl ConfigSpec {
    /// The spec itself if it is written for [`SCHEMA_VERSION`], else the mismatch.
    pub fn check_schema_version(self) -> (r: Result<ConfigSpec, ConfigError>)
        ensures
            self.schema_version == SCHEMA_VERSION ==> r == Ok::<ConfigSpec, ConfigError>(self),
            self.schema_version != SCHEMA_VERSION ==> r == Err::<ConfigSpec, ConfigError>(
                ConfigError::SchemaVersionMismatch {
                    found: self.schema_version,
                    supported: SCHEMA_VERSION,
                },
            ),
    {
        if self.schema_version != SCHEMA_VERSION {
            return Err(
                ConfigError::SchemaVersionMismatch {
                    found: self.schema_version,
                    supported: SCHEMA_VERSION,
                },
            );
        }
        Ok(self)
    }
}

/// A custom derive: a derive name and the template whose expansion, a
/// module, is scanned for every struct that derives it. The template is
/// kept both as its source and compiled from it.
pub struct CustomDerive {
    pub(crate) name: String,
    pub(crate) source: String,
    pub(crate) template: mustache::Template,
}

impl CustomDerive {
    /// The derive's name.
    pub closed spec fn spec_name(&self) -> Seq<char> {
        self.name@
    }

    /// The source of the derive's template.
    pub closed spec fn spec_source(&self) -> Seq<char> {
        self.source@
    }

    /// A custom derive with the given template, `None` if the template does
    /// not compile. A [`render_safe`] template compiles exactly when
    /// [`compiles`] says so; one without `{` always does.
    pub fn new(name: String, template: &str) -> (r: Option<Self>)
        ensures
            r matches Some(d) ==> d.spec_name() == name@ && d.spec_source() == template@,
            !template@.contains('{') ==> r is Some,
            render_safe(template@) ==> (r is Some <==> compiles(template@)),
    {
        match compile_template(template) {
            Ok(t) => Some(CustomDerive { name, source: copy_str(template), template: t }),
            Err(_) => None,
        }
    }

    /// The derive's name.
    pub fn name(&self) -> (r: &str)
        ensures
            r@ == self.spec_name(),
    {
        self.name.as_str()
    }

    /// The source of the derive's template.
    pub fn source(&self) -> (r: &str)
        ensures
            r@ == self.spec_source(),
    {
        self.source.as_str()
    }

    /// The value the template is rendered with for a struct: its name in lower case.
    pub fn struct_ident(struct_name: &str) -> (r: String)
        ensures
            r@ == lowercase(struct_name@),
    {
        to_lowercase(struct_name)
    }

    /// The template rendered with `struct_ident` set to the struct's name in
    /// lower case, for a [`render_safe`] template; `None` for any other,
    /// whose rendering reads partials from disk or may panic.
    pub fn render(&self, struct_name: &str) -> (r: Option<String>)
        ensures
            render_safe(self.spec_source()) ==> (r matches Some(text) && text@ == rendered(
                self.spec_source(),
                "struct_ident"@,
                lowercase(struct_name@),
            )),
            !render_safe(self.spec_source()) ==> r is None,
    {
        if !render_safe_source(self.source.as_str()) {
            return None;
        }
        let ident = Self::struct_ident(struct_name);
        proof {
            reveal_strlit("struct_ident");
        }
        match render_derive(self, "struct_ident", ident.as_str()) {
            Ok(s) => Some(s),
            Err(_) => None,
        }
    }

    /// A copy of this derive.
    pub fn duplicate(&self) -> (r: Self)
        ensures
            r.spec_name() == self.spec_name(),
            r.spec_source() == self.spec_source(),
    {
        CustomDerive {
            name: copy_string(&self.name),
            source: copy_string(&self.source),
            template: clone_template(&self.template),
        }
    }
}

/// Whether a template source is [`render_safe`].
pub fn render_safe_source(s: &str) -> (r: bool)
    ensures
        r == render_safe(s@),
{
    let n = s.unicode_len();
    let mut i: usize = 0;
    let mut in_tag = false;
    assert(s@.skip(0) =~= s@);
    while i < n
        invariant
            n == s@.len(),
            i <= n,
            render_safe(s@) == safe_from(s@.skip(i as int), in_tag),
        decreases n - i,
    {
        let ghost rest = s@.skip(i as int);
        let c = s.get_char(i);
        assert(rest[0] == c);
        if !in_tag {
            if c == '{' && i + 1 < n && s.get_char(i + 1) == '{' {
                assert(rest[1] == s@[i + 1]);
                if i + 2 < n {
                    let d = s.get_char(i + 2);
                    assert(rest[2] == d);
                    if d == '>' || d == '=' {
                        return false;
                    }
                }
                assert(rest.skip(2) =~= s@.skip(i + 2));
                in_tag = true;
                i = i + 2;
            } else {
                proof {
                    if rest.len() >= 2 && rest[0] == '{' {
                        assert(rest[1] == s@[i + 1]);
                    }
                }
                assert(rest.skip(1) =~= s@.skip(i + 1));
                i = i + 1;
            }
        } else {
            if c == '}' && i + 1 < n && s.get_char(i + 1) == '}' {
                assert(rest[1] == s@[i + 1]);
                assert(rest.skip(2) =~= s@.skip(i + 2));
                in_tag = false;
                i = i + 2;
            } else if c == '.' {
                proof {
                    if rest.len() >= 2 && rest[0] == '}' {
                        assert(rest[1] == s@[i + 1]);
                    }
                }
                return false;
            } else {
                proof {
                    if rest.len() >= 2 && rest[0] == '}' {
                        assert(rest[1] == s@[i + 1]);
                    }
                }
                assert(rest.skip(1) =~= s@.skip(i + 1));
                i = i + 1;
            }
        }
    }
    assert(s@.skip(i as int) =~= Seq::<char>::empty());
    true
}

/// The names of a sequence of custom derives.
pub open spec fn derive_names(s: Seq<CustomDerive>) -> Seq<Seq<char>> {
    s.map_values(|d: CustomDerive| d.spec_name())
}

/// The name and template source of each of a sequence of custom derives.
pub open spec fn derive_specs(s: Seq<CustomDerive>) -> Seq<(Seq<char>, Seq<char>)> {
    s.map_values(|d: CustomDerive| (d.spec_name(), d.spec_source()))
}

/// The build configuration.
pub struct BuildConfig {
    pub(crate) pragmas: Vec<String>,
    pub(crate) derives: Vec<CustomDerive>,
    pub(crate) module_derives: ModuleDeriveTable,
}

impl BuildConfig {
    /// The extra pragma names, in order.
    pub closed spec fn spec_pragmas(&self) -> Seq<Seq<char>> {
        views(self.pragmas@)
    }

    /// The names of the custom derives, in order.
    pub closed spec fn spec_derives(&self) -> Seq<Seq<char>> {
        derive_names(self.derives@)
    }

    /// The custom derives, in order.
    pub closed spec fn spec_derive_values(&self) -> Seq<CustomDerive> {
        self.derives@
    }

    /// The custom module derives per pragma name.
    pub closed spec fn spec_module_derives(&self) -> Map<Seq<char>, Seq<DeriveTree>> {
        self.module_derives.view()
    }

    /// An empty configuration.
    pub fn new() -> (c: Self)
        ensures
            c.spec_pragmas() == Seq::<Seq<char>>::empty(),
            c.spec_derives() == Seq::<Seq<char>>::empty(),
            c.spec_derive_values() == Seq::<CustomDerive>::empty(),
            c.spec_module_derives() == Map::<Seq<char>, Seq<DeriveTree>>::empty(),
    {
        let c = BuildConfig { pragmas: Vec::new(), derives: Vec::new(), module_derives: ModuleDeriveTable::new() };
        assert(c.spec_pragmas() =~= Seq::<Seq<char>>::empty());
        assert(c.spec_derives() =~= Seq::<Seq<char>>::empty());
        assert(c.spec_derive_values() =~= Seq::<CustomDerive>::empty());
        c
    }

    /// The extra pragma names.
    pub fn pragmas(&self) -> (r: &Vec<String>)
        ensures
            views(r@) == self.spec_pragmas(),
    {
        &self.pragmas
    }

    /// The custom derives.
    pub fn derives(&self) -> (r: &Vec<CustomDerive>)
        ensures
            r@ == self.spec_derive_values(),
            derive_names(r@) == self.spec_derives(),
    {
        &self.derives
    }

    /// The custom module derives per pragma name.
    pub fn module_derives(&self) -> (r: &ModuleDeriveTable)
        ensures
            r.view() == self.spec_module_derives(),
    {
        &self.module_derives
    }

    /// Registers an extra attribute name that is treated like `#[pragma(...)]`.
    pub fn pragma(&mut self, pragma: String) -> (r: &mut Self)
        ensures
            r.spec_pragmas() == old(self).spec_pragmas().push(pragma@),
            r.spec_derives() == old(self).spec_derives(),
            r.spec_derive_values() == old(self).spec_derive_values(),
            r.spec_module_derives() == old(self).spec_module_derives(),
            *final(self) == *final(r),
    {
        let ghost p = pragma@;
        self.pragmas.push(pragma);
        assert(self.spec_pragmas() =~= old(self).spec_pragmas().push(p));
        self
    }

    /// Registers a custom derive name and its mustache template. `None` if
    /// the template does not compile, and the configuration is then unchanged.
    pub fn derive(&mut self, name: String, template: &str) -> (r: Option<&mut Self>)
        ensures
            r matches Some(c) ==> {
                &&& c.spec_pragmas() == old(self).spec_pragmas()
                &&& c.spec_derives() == old(self).spec_derives().push(name@)
                &&& c.spec_derive_values().len() == old(self).spec_derive_values().len() + 1
                &&& c.spec_derive_values().drop_last() == old(self).spec_derive_values()
                &&& c.spec_derive_values().last().spec_name() == name@
                &&& c.spec_derive_values().last().spec_source() == template@
                &&& c.spec_module_derives() == old(self).spec_module_derives()
                &&& *final(self) == *final(c)
            },
            r is None ==> *final(self) == *old(self),
            !template@.contains('{') ==> r is Some,
            render_safe(template@) ==> (r is Some <==> compiles(template@)),
    {
        let ghost n = name@;
        match CustomDerive::new(name, template) {
            Some(d) => {
                self.derives.push(d);
                assert(self.spec_derives() =~= old(self).spec_derives().push(n));
                assert(self.spec_derive_values().drop_last() =~= old(self).spec_derive_values());
                Some(self)
            },
            None => None,
        }
    }

    /// Adds `pragma` at the end of the pragma names unless it is there already.
    pub fn push_unique_pragma(&mut self, pragma: &str)
        ensures
            final(self).spec_pragmas() == with_unique(old(self).spec_pragmas(), pragma@),
            final(self).spec_derives() == old(self).spec_derives(),
            final(self).spec_derive_values() == old(self).spec_derive_values(),
            final(self).spec_module_derives() == old(self).spec_module_derives(),
    {
        push_unique_pragma(&mut self.pragmas, pragma);
    }

    /// Adds the registrations of `other` to this configuration: its pragma
    /// names that are new here, after these; its custom derives after these;
    /// its module derives after these, pragma by pragma.
    pub fn merge(&mut self, other: BuildConfig)
        ensures
            final(self).spec_pragmas() == with_all_unique(old(self).spec_pragmas(), other.spec_pragmas()),
            final(self).spec_derives() == old(self).spec_derives() + other.spec_derives(),
            final(self).spec_derive_values() == old(self).spec_derive_values() + other.spec_derive_values(),
            final(self).spec_module_derives() == merged(
                old(self).spec_module_derives(),
                other.spec_module_derives(),
            ),
    {
        let BuildConfig { pragmas, derives, module_derives } = other;
        let mut i: usize = 0;
        assert(views(pragmas@).take(0) =~= seq![]);
        while i < pragmas.len()
            invariant
                i <= pragmas@.len(),
                views(self.pragmas@) == with_all_unique(views(old(self).pragmas@), views(pragmas@).take(i as int)),
                self.derives == old(self).derives,
                self.module_derives == old(self).module_derives,
            decreases pragmas.len() - i,
        {
            push_unique_pragma(&mut self.pragmas, pragmas[i].as_str());
            assert(views(pragmas@).take(i + 1).drop_last() =~= views(pragmas@).take(i as int));
            i = i + 1;
        }
        assert(views(pragmas@).take(i as int) =~= views(pragmas@));
        let ghost d0 = self.derives@;
        let ghost d1 = derives@;
        let mut derives = derives;
        self.derives.append(&mut derives);
        assert(derive_names(self.derives@) =~= derive_names(d0) + derive_names(d1));
        self.module_derives.merge(&module_derives);
    }

    /// The configuration that a spec describes: its pragma names, each once,
    /// functions' first, and its module derives per pragma.
    pub fn from_spec(spec: &ConfigSpec) -> (c: Self)
        ensures
            c.spec_pragmas() == with_all_unique(seq![], spec_pragmas(*spec)),
            c.spec_derives() == Seq::<Seq<char>>::empty(),
            c.spec_derive_values() == Seq::<CustomDerive>::empty(),
            c.spec_module_derives() == spec_module_derives(spec.modules@),
    {
        let mut config = BuildConfig::new();
        let ghost fps = spec.functions@.map_values(|f: FunctionSpec| f.pragma@);
        let ghost mps = spec.modules@.map_values(|m: ModuleSpec| m.pragma@);
        let mut i: usize = 0;
        assert(fps.take(0) =~= seq![]);
        while i < spec.functions.len()
            invariant
                i <= spec.functions@.len(),
                fps == spec.functions@.map_values(|f: FunctionSpec| f.pragma@),
                config.spec_pragmas() == with_all_unique(seq![], fps.take(i as int)),
                config.spec_derives() == Seq::<Seq<char>>::empty(),
                config.spec_derive_values() == Seq::<CustomDerive>::empty(),
                config.spec_module_derives() == Map::<Seq<char>, Seq<DeriveTree>>::empty(),
            decreases spec.functions.len() - i,
        {
            config.push_unique_pragma(spec.functions[i].pragma.as_str());
            assert(fps.take(i + 1).drop_last() =~= fps.take(i as int));
            i = i + 1;
        }
        assert(fps.take(i as int) =~= fps);
        let mut j: usize = 0;
        assert(spec.modules@.take(0) =~= seq![]);
        assert(fps + mps.take(0) =~= fps);
        while j < spec.modules.len()
            invariant
                j <= spec.modules@.len(),
                fps == spec.functions@.map_values(|f: FunctionSpec| f.pragma@),
                mps == spec.modules@.map_values(|m: ModuleSpec| m.pragma@),
                config.spec_pragmas() == with_all_unique(seq![], fps + mps.take(j as int)),
                config.spec_derives() == Seq::<Seq<char>>::empty(),
                config.spec_derive_values() == Seq::<CustomDerive>::empty(),
                config.spec_module_derives() == spec_module_derives(spec.modules@.take(j as int)),
            decreases spec.modules.len() - j,
        {
            let module = &spec.modules[j];
            config.push_unique_pragma(module.pragma.as_str());
            let mut derives: Vec<CustomModuleDerive> = Vec::new();
            let mut k: usize = 0;
            assert(spec_forest(module.derives@).take(0) =~= seq![]);
            while k < module.derives.len()
                invariant
                    k <= module.derives@.len(),
                    forest(derives@) == spec_forest(module.derives@).take(k as int),
                decreases module.derives.len() - k,
            {
                let ghost before = derives@;
                let d = custom_module_derive_from_spec(&module.derives[k]);
                derives.push(d);
                assert(forest(derives@) =~= forest(before).push(d.tree()));
                assert(spec_forest(module.derives@).take(k + 1) =~= spec_forest(module.derives@).take(
                    k as int,
                ).push(module.derives@[k as int].tree()));
                k = k + 1;
            }
            assert(spec_forest(module.derives@).take(k as int) =~= spec_forest(module.derives@));
            config.module_derives.insert(copy_string(&module.pragma), derives);
            proof {
                assert((fps + mps.take(j + 1)).drop_last() =~= fps + mps.take(j as int));
                assert(spec.modules@.take(j + 1).drop_last() =~= spec.modules@.take(j as int));
            }
            j = j + 1;
        }
        assert(mps.take(j as int) =~= mps);
        assert(spec.modules@.take(j as int) =~= spec.modules@);
        config
    }

    /// Lets `configure` grow the custom module derives registered for
    /// `extension`: it is called once, with a builder over those already
    /// registered (none if there are none), and what the builder holds
    /// afterwards is registered for `extension`. The other registrations
    /// are unchanged.
    pub fn module_derive(
        &mut self,
        extension: String,
        configure: impl FnOnce(&mut ModuleDeriveBuilder),
    ) -> (r: &mut Self)
        requires
            forall|b: &mut ModuleDeriveBuilder| call_requires(configure, (b,)),
        ensures
            r.spec_pragmas() == old(self).spec_pragmas(),
            r.spec_derives() == old(self).spec_derives(),
            r.spec_derive_values() == old(self).spec_derive_values(),
            r.spec_module_derives().dom() == old(self).spec_module_derives().dom().insert(extension@),
            forall|k: Seq<char>|
                k != extension@ && old(self).spec_module_derives().dom().contains(k)
                    ==> r.spec_module_derives()[k] == old(self).spec_module_derives()[k],
            exists|b: &mut ModuleDeriveBuilder|
                {
                    &&& (*b).stored() == derives_of(old(self).spec_module_derives(), extension@)
                    &&& call_ensures(configure, (b,), ())
                    &&& r.spec_module_derives()[extension@] == (*final(b)).stored()
                },
            *final(self) == *final(r),
    {
        let derives = match self.module_derives.get(extension.as_str()) {
            Some(existing) => duplicate_all(existing),
            None => Vec::new(),
        };
        let mut builder = ModuleDeriveBuilder::new(derives);
        configure(&mut builder);
        let derives = builder.into_derives();
        self.module_derives.insert(extension, derives);
        self
    }
}

/// Adds `pragma` at the end of `pragmas` unless it is there already.
pub fn push_unique_pragma(pragmas: &mut Vec<String>, pragma: &str)
    ensures
        views(final(pragmas)@) == with_unique(views(old(pragmas)@), pragma@),
{
    let mut i: usize = 0;
    while i < pragmas.len()
        invariant
            i <= pragmas@.len(),
            forall|j: int| 0 <= j < i ==> pragmas@[j]@ != pragma@,
        decreases pragmas.len() - i,
    {
        if crate::text::const_str_equal(pragmas[i].as_str(), pragma) {
            assert(views(pragmas@)[i as int] == pragma@);
            return;
        }
        i = i + 1;
    }
    assert(!views(pragmas@).contains(pragma@));
    let ghost before = pragmas@;
    pragmas.push(crate::text::copy_str(pragma));
    assert(views(pragmas@) =~= views(before).push(pragma@));
}

/// The custom module derive that a spec describes.
pub fn custom_module_derive_from_spec(spec: &ModuleDeriveSpec) -> (d: CustomModuleDerive)
    ensures
        d.tree() == spec.tree(),
{
    CustomModuleDerive::from_spec(spec)
}

/// The configuration that several specs describe together: each spec's
/// configuration merged in turn into an empty one. Every spec must be
/// written for [`SCHEMA_VERSION`]; [`ConfigSpec::check_schema_version`]
/// tells the others.
pub fn build_with_specs(specs: Vec<ConfigSpec>) -> (c: BuildConfig)
    requires
        forall|i: int| 0 <= i < specs@.len() ==> #[trigger] specs@[i].schema_version == SCHEMA_VERSION,
    ensures
        c.spec_pragmas() == all_spec_pragmas(specs@),
        c.spec_derives() == Seq::<Seq<char>>::empty(),
        c.spec_derive_values() == Seq::<CustomDerive>::empty(),
        c.spec_module_derives() == all_spec_module_derives(specs@),
{
    let mut config = BuildConfig::new();
    let ghost all = specs@;
    let mut n: usize = 0;
    assert(all.take(0) =~= seq![]);
    assert(config.spec_module_derives() =~= all_spec_module_derives(all.take(0)));
    assert(config.spec_derive_values() =~= Seq::<CustomDerive>::empty());
    while n < specs.len()
        invariant
            all == specs@,
            n <= specs@.len(),
            config.spec_pragmas() == all_spec_pragmas(all.take(n as int)),
            config.spec_derives() == Seq::<Seq<char>>::empty(),
            config.spec_derive_values() == Seq::<CustomDerive>::empty(),
            config.spec_module_derives() == all_spec_module_derives(all.take(n as int)),
        decreases specs.len() - n,
    {
        let spec = &specs[n];
        let c = BuildConfig::from_spec(spec);
        config.merge(c);
        assert(all.take(n + 1).drop_last() =~= all.take(n as int));
        n = n + 1;
    }
    assert(all.take(n as int) =~= all);
    config
}

/// The pragma names of several specs together, each once, in order.
pub open spec fn all_spec_pragmas(specs: Seq<ConfigSpec>) -> Seq<Seq<char>>
    decreases specs.len(),
{
    if specs.len() == 0 {
        seq![]
    } else {
        with_all_unique(all_spec_pragmas(specs.drop_last()), with_all_unique(seq![], spec_pragmas(specs.last())))
    }
}

/// The module derives of several specs together, each pragma's in the order of the specs.
pub open spec fn all_spec_module_derives(specs: Seq<ConfigSpec>) -> Map<Seq<char>, Seq<DeriveTree>>
    decreases specs.len(),
{
    if specs.len() == 0 {
        Map::empty()
    } else {
        merged(all_spec_module_derives(specs.drop_last()), spec_module_derives(specs.last().modules@))
    }
}

/// The configuration that `configure` makes of an empty one.
pub fn build_with(configure: impl FnOnce(&mut BuildConfig)) -> (c: BuildConfig)
    requires
        forall|b: &mut BuildConfig| call_requires(configure, (b,)),
    ensures
        exists|b: &mut BuildConfig|
            {
                &&& (*b).spec_pragmas() == Seq::<Seq<char>>::empty()
                &&& (*b).spec_derives() == Seq::<Seq<char>>::empty()
                &&& (*b).spec_module_derives() == Map::<Seq<char>, Seq<DeriveTree>>::empty()
                &&& call_ensures(configure, (b,), ())
                &&& *final(b) == c
            },
{
    let mut config = BuildConfig::new();
    configure(&mut config);
    config
}

/// The configuration with nothing registered.
pub fn build() -> (c: BuildConfig)
    ensures
        c.spec_pragmas() == Seq::<Seq<char>>::empty(),
        c.spec_derives() == Seq::<Seq<char>>::empty(),
        c.spec_module_derives() == Map::<Seq<char>, Seq<DeriveTree>>::empty(),
{
    BuildConfig::new()
}

/// Adding names each at most once keeps what was there, in front and in
/// order.
pub proof fn lemma_with_all_unique_keeps_prefix(s: Seq<Seq<char>>, xs: Seq<Seq<char>>)
    ensures
        with_all_unique(s, xs).len() >= s.len(),
        with_all_unique(s, xs).take(s.len() as int) == s,
    decreases xs.len(),
{
    if xs.len() > 0 {
        lemma_with_all_unique_keeps_prefix(s, xs.drop_last());
        let r = with_all_unique(s, xs.drop_last());
        if !r.contains(xs.last()) {
            assert(r.push(xs.last()).take(s.len() as int) =~= r.take(s.len() as int));
        }
    }
}

/// After names are added each at most once, a name is there exactly when
/// it was there before or is one of those added.
pub proof fn lemma_with_all_unique_contents(s: Seq<Seq<char>>, xs: Seq<Seq<char>>, x: Seq<char>)
    ensures
        with_all_unique(s, xs).contains(x) <==> (s.contains(x) || xs.contains(x)),
    decreases xs.len(),
{
    if xs.len() > 0 {
        lemma_with_all_unique_contents(s, xs.drop_last(), x);
        let r = with_all_unique(s, xs.drop_last());
        let y = xs.last();
        if xs.drop_last().contains(x) {
            let i = choose|i: int| 0 <= i < xs.drop_last().len() && xs.drop_last()[i] == x;
            assert(xs[i] == x);
        }
        if xs.contains(x) && !xs.drop_last().contains(x) {
            let i = choose|i: int| 0 <= i < xs.len() && xs[i] == x;
            if i < xs.len() - 1 {
                assert(xs.drop_last()[i] == x);
            }
        }
        if !r.contains(y) {
            if r.push(y).contains(x) {
                let i = choose|i: int| 0 <= i < r.push(y).len() && r.push(y)[i] == x;
                if i < r.len() {
                    assert(r[i] == x);
                }
            }
            if r.contains(x) {
                let i = choose|i: int| 0 <= i < r.len() && r[i] == x;
                assert(r.push(y)[i] == x);
            }
            if x == y {
                assert(r.push(y)[r.len() as int] == x);
            }
        }
    }
}

/// Adding names each at most once to a list without repeats gives a list
/// without repeats: registering the same pragma twice, in one spec or in
/// several, registers it once.
pub proof fn lemma_with_all_unique_no_duplicates(s: Seq<Seq<char>>, xs: Seq<Seq<char>>)
    requires
        s.no_duplicates(),
    ensures
        with_all_unique(s, xs).no_duplicates(),
    decreases xs.len(),
{
    if xs.len() > 0 {
        lemma_with_all_unique_no_duplicates(s, xs.drop_last());
        let r = with_all_unique(s, xs.drop_last());
        let y = xs.last();
        if !r.contains(y) {
            let r2 = r.push(y);
            assert forall|i: int, j: int| 0 <= i < r2.len() && 0 <= j < r2.len() && i != j implies r2[i] != r2[j] by {
                if i < r.len() && j < r.len() {
                } else if i < r.len() {
                    assert(r[i] == r2[i]);
                } else {
                    assert(r[j] == r2[j]);
                }
            }
        }
    }
}

/// The pragma names of any configuration built from specs are free of
/// repeats.
pub proof fn lemma_spec_pragmas_unique(specs: Seq<ConfigSpec>)
    ensures
        all_spec_pragmas(specs).no_duplicates(),
    decreases specs.len(),
{
    if specs.len() == 0 {
        assert(Seq::<Seq<char>>::empty().no_duplicates());
    } else {
        lemma_spec_pragmas_unique(specs.drop_last());
        lemma_with_all_unique_no_duplicates(all_spec_pragmas(specs.drop_last()), with_all_unique(seq![], spec_pragmas(specs.last())));
    }
}

/// Every pragma that a module spec registers derives for is registered as
/// a pragma name too, in one spec and in several merged together.
pub proof fn lemma_module_derive_pragmas_registered(specs: Seq<ConfigSpec>, k: Seq<char>)
    requires
        all_spec_module_derives(specs).dom().contains(k),
    ensures
        all_spec_pragmas(specs).contains(k),
    decreases specs.len(),
{
    let init = specs.drop_last();
    let last = specs.last();
    let own = with_all_unique(seq![], spec_pragmas(last));
    if all_spec_module_derives(init).dom().contains(k) {
        lemma_module_derive_pragmas_registered(init, k);
    } else {
        lemma_spec_module_derives_dom(last.modules@, k);
        let i = choose|i: int| 0 <= i < last.modules@.len() && last.modules@[i].pragma@ == k;
        let fps = last.functions@.map_values(|f: FunctionSpec| f.pragma@);
        let mps = last.modules@.map_values(|m: ModuleSpec| m.pragma@);
        assert(spec_pragmas(last)[fps.len() + i] == k);
        lemma_with_all_unique_contents(seq![], spec_pragmas(last), k);
    }
    lemma_with_all_unique_contents(all_spec_pragmas(init), own, k);
}

proof fn lemma_spec_module_derives_dom(mods: Seq<ModuleSpec>, k: Seq<char>)
    requires
        spec_module_derives(mods).dom().contains(k),
    ensures
        exists|i: int| 0 <= i < mods.len() && #[trigger] mods[i].pragma@ == k,
    decreases mods.len(),
{
    if mods.last().pragma@ == k {
        assert(mods[mods.len() - 1].pragma@ == k);
    } else {
        lemma_spec_module_derives_dom(mods.drop_last(), k);
        let i = choose|i: int| 0 <= i < mods.drop_last().len() && #[trigger] mods.drop_last()[i].pragma@ == k;
        assert(mods[i].pragma@ == k);
    }
}

/// In the configuration built from one spec, the pragmas that have module
/// derives are exactly those of its module specs, and each has the derives
/// of the last module spec that names it: a later module spec with the same
/// pragma replaces an earlier one.
pub proof fn lemma_module_spec_last_wins(mods: Seq<ModuleSpec>, k: Seq<char>, j: int)
    requires
        0 <= j < mods.len(),
        mods[j].pragma@ == k,
        forall|l: int| j < l < mods.len() ==> #[trigger] mods[l].pragma@ != k,
    ensures
        spec_module_derives(mods).dom().contains(k),
        spec_module_derives(mods)[k] == spec_forest(mods[j].derives@),
    decreases mods.len(),
{
    let last = mods.len() - 1;
    if j < last {
        assert(mods[last].pragma@ != k);
        let init = mods.drop_last();
        assert forall|l: int| j < l < init.len() implies #[trigger] init[l].pragma@ != k by {
            assert(init[l] == mods[l]);
        }
        lemma_module_spec_last_wins(init, k, j);
    }
}

/// Only the pragmas of a spec's module specs get module derives from it.
pub proof fn lemma_module_spec_pragmas(mods: Seq<ModuleSpec>, k: Seq<char>)
    ensures
        spec_module_derives(mods).dom().contains(k) <==> exists|i: int| 0 <= i < mods.len() && #[trigger] mods[i].pragma@ == k,
{
    if spec_module_derives(mods).dom().contains(k) {
        lemma_spec_module_derives_dom(mods, k);
    }
    if exists|i: int| 0 <= i < mods.len() && #[trigger] mods[i].pragma@ == k {
        let i = choose|i: int| 0 <= i < mods.len() && #[trigger] mods[i].pragma@ == k;
        lemma_spec_module_derives_has(mods, k, i);
    }
}

proof fn lemma_spec_module_derives_has(mods: Seq<ModuleSpec>, k: Seq<char>, i: int)
    requires
        0 <= i < mods.len(),
        mods[i].pragma@ == k,
    ensures
        spec_module_derives(mods).dom().contains(k),
    decreases mods.len(),
{
    if i < mods.len() - 1 {
        assert(mods.drop_last()[i] == mods[i]);
        lemma_spec_module_derives_has(mods.drop_last(), k, i);
    }
}

/// Building from several specs is merging, spec by spec, the configuration
/// built from each into the one built from those before it: with one more
/// spec `s`, the pragma names and module derives are what `merge` makes of
/// the configuration built so far and `from_spec(s)`.
pub proof fn lemma_specs_build_by_merging(specs: Seq<ConfigSpec>, s: ConfigSpec)
    ensures
        all_spec_pragmas(specs.push(s)) == with_all_unique(
            all_spec_pragmas(specs),
            with_all_unique(seq![], spec_pragmas(s)),
        ),
        all_spec_module_derives(specs.push(s)) == merged(
            all_spec_module_derives(specs),
            spec_module_derives(s.modules@),
        ),
        all_spec_pragmas(seq![]) == Seq::<Seq<char>>::empty(),
        all_spec_module_derives(seq![]) == Map::<Seq<char>, Seq<DeriveTree>>::empty(),
{
    assert(specs.push(s).drop_last() =~= specs);
    assert(specs.push(s).last() == s);
}

/// Merging the module derives of an empty registration changes nothing,
/// on either side.
pub proof fn lemma_merge_empty(m: Map<Seq<char>, Seq<DeriveTree>>)
    ensures
        merged(m, Map::empty()) == m,
        merged(Map::empty(), m) == m,
{
    assert forall|k: Seq<char>| m.dom().contains(k) implies crate::build::table::derives_of(m, k) + crate::build::table::derives_of(Map::empty(), k) == m[k] by {
        assert(m[k] + Seq::<DeriveTree>::empty() =~= m[k]);
    }
    assert forall|k: Seq<char>| m.dom().contains(k) implies crate::build::table::derives_of(Map::empty(), k) + crate::build::table::derives_of(m, k) == m[k] by {
        assert(Seq::<DeriveTree>::empty() + m[k] =~= m[k]);
    }
    assert(merged(m, Map::empty()) =~= m);
    assert(merged(Map::empty(), m) =~= m);
}

/// Merging module derives registers every pragma of either side, and a
/// pragma's derives are those of the first side, then those of the second.
pub proof fn lemma_merge_keeps_order(a: Map<Seq<char>, Seq<DeriveTree>>, b: Map<Seq<char>, Seq<DeriveTree>>, k: Seq<char>)
    requires
        a.dom().contains(k),
    ensures
        merged(a, b).dom().contains(k),
        merged(a, b)[k].take(a[k].len() as int) == a[k],
{
    let d = crate::build::table::derives_of(a, k) + crate::build::table::derives_of(b, k);
    assert(d.take(a[k].len() as int) =~= a[k]);
}

} // verus!
