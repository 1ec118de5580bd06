//! The build targets whose sources are scanned, and their crate names.

use vstd::prelude::*;

use crate::paths::{file_name_of, slash_path, stem_of};
use crate::text::{copy_str, replace_char, replace_chars};
use crate::trusted::file_stem;

verus! {

/// What a manifest declares of a target: its name and the path of its root
/// source file, each if given.
pub struct ProductInfo {
    pub name: Option<String>,
    pub path: Option<String>,
}

/// The crate name of a target declared without one, for a path that splits
/// at `/` alone: the stem of its file name with every `-` made `_`.
pub open spec fn default_name_of(path: Seq<char>) -> Seq<char> {
    replace_char(stem_of(file_name_of(path)->0), '-', '_')
}

/// The crate name of a target declared without one: the stem of its source
/// file with every `-` made `_`. A path must have a file name; on a path
/// that holds `\` or `:`, whose reading depends on the platform, `None`
/// says it had none.
pub fn default_target_name(path: &str) -> (r: Option<String>)
    requires
        slash_path(path@) ==> file_name_of(path@) is Some,
    ensures
        r matches Some(name) ==> exists|stem: Seq<char>| name@ == replace_char(stem, '-', '_'),
        slash_path(path@) ==> (r matches Some(name) && name@ == default_name_of(path@)),
{
    match file_stem(path) {
        Some(stem) => {
            let name = replace_chars(stem.as_str(), '-', '_');
            Some(name)
        },
        None => None,
    }
}

/// The name of the library target: its declared name, else the package's
/// name with every `-` made `_`.
pub open spec fn lib_name(package_name: Seq<char>, lib: Option<ProductInfo>) -> Seq<char> {
    match lib {
        Some(p) => match p.name {
            Some(n) => n@,
            None => replace_char(package_name, '-', '_'),
        },
        None => replace_char(package_name, '-', '_'),
    }
}

/// The root source file of the library target: its declared path, else `src/lib.rs`.
pub open spec fn lib_path(lib: Option<ProductInfo>) -> Seq<char> {
    match lib {
        Some(p) => match p.path {
            Some(x) => x@,
            None => "src/lib.rs"@,
        },
        None => "src/lib.rs"@,
    }
}

/// The library target's name is the name it declares, whether or not it
/// declares a path too, and only a library that declares no name takes the
/// package's name with every `-` made `_`. Its source file is the path it
/// declares, whether or not it declares a name, else `src/lib.rs`. So the
/// name depends on the declared name alone and the path on the declared
/// path alone.
pub proof fn lemma_lib_target_declared(package_name: Seq<char>, lib: Option<ProductInfo>, other: Option<ProductInfo>)
    ensures
        lib matches Some(p) ==> (p.name is Some ==> lib_name(package_name, lib) == p.name->0@),
        (lib is None || lib->0.name is None) ==> lib_name(package_name, lib) == replace_char(package_name, '-', '_'),
        lib matches Some(p) ==> (p.path is Some ==> lib_path(lib) == p.path->0@),
        (lib is None || lib->0.path is None) ==> lib_path(lib) == "src/lib.rs"@,
        lib matches Some(p) ==> (other matches Some(q) ==> (p.name == q.name ==> lib_name(package_name, lib) == lib_name(package_name, other))),
        lib matches Some(p) ==> (other matches Some(q) ==> (p.path == q.path ==> lib_path(lib) == lib_path(other))),
{
}

/// The name and root source file of the library target of a package named
/// `package_name`, as its manifest declares it, if it does.
pub fn lib_target(package_name: &str, lib: &Option<ProductInfo>) -> (r: (String, String))
    ensures
        r.0@ == lib_name(package_name@, *lib),
        r.1@ == lib_path(*lib),
        *lib matches Some(p) ==> (p.name is Some ==> r.0@ == p.name->0@),
        *lib matches Some(p) ==> (p.path is Some ==> r.1@ == p.path->0@),
{
    proof {
        reveal_strlit("src/lib.rs");
    }
    let default_name = replace_chars(package_name, '-', '_');
    match lib {
        Some(p) => {
            let name = match &p.name {
                Some(n) => copy_str(n.as_str()),
                None => default_name,
            };
            let path = match &p.path {
                Some(x) => copy_str(x.as_str()),
                None => copy_str("src/lib.rs"),
            };
            (name, path)
        },
        None => (default_name, copy_str("src/lib.rs")),
    }
}

/// The targets that are exported: those with a declared path whose file
/// exists, in order.
pub open spec fn exported(products: Seq<ProductInfo>, exists: Seq<bool>) -> Seq<ProductInfo>
    decreases products.len(),
{
    if products.len() == 0 {
        seq![]
    } else {
        let rest = exported(products.drop_last(), exists.drop_last());
        if exists.last() && products.last().path is Some {
            rest.push(products.last())
        } else {
            rest
        }
    }
}

/// Whether `t` is the name and path a declared target is exported under:
/// its path, and its declared name or the default one.
pub open spec fn names_target(p: ProductInfo, t: (String, String)) -> bool {
    &&& p.path matches Some(x) && t.1@ == x@
    &&& match p.name {
        Some(n) => t.0@ == n@,
        None => {
            &&& slash_path(p.path->0@) ==> t.0@ == default_name_of(p.path->0@)
            &&& exists|stem: Seq<char>| t.0@ == replace_char(stem, '-', '_')
        },
    }
}

/// Whether every exported target without a declared name has a path that
/// splits at `/` alone.
pub open spec fn all_named_or_slash(targets: Seq<ProductInfo>) -> bool {
    forall|j: int|
        0 <= j < targets.len() ==> (#[trigger] targets[j]).name is None ==> slash_path(
            targets[j].path->0@,
        )
}

/// The name and path of each target of `products` that has a declared path
/// whose file exists (`exists` says which do), in order. `None` where a
/// target without a declared name has a path holding `\` or `:` that had
/// no file name on this platform.
pub fn product_targets(products: &Vec<ProductInfo>, exists: &Vec<bool>) -> (r: Option<Vec<(String, String)>>)
    requires
        exists@.len() == products@.len(),
        forall|i: int|
            0 <= i < products@.len() && exists@[i] && (#[trigger] products@[i]).path is Some
                && products@[i].name is None && slash_path(products@[i].path->0@)
                ==> file_name_of(products@[i].path->0@) is Some,
    ensures
        r matches Some(v) ==> {
            &&& v@.len() == exported(products@, exists@).len()
            &&& forall|j: int| 0 <= j < v@.len() ==> names_target(exported(products@, exists@)[j], #[trigger] v@[j])
        },
        all_named_or_slash(exported(products@, exists@)) ==> r is Some,
{
    let mut r: Vec<(String, String)> = Vec::new();
    let mut i: usize = 0;
    assert(products@.take(0) =~= seq![]);
    assert(exists@.take(0) =~= seq![]);
    while i < products.len()
        invariant
            i <= products@.len(),
            exists@.len() == products@.len(),
            forall|k: int|
                0 <= k < products@.len() && exists@[k] && (#[trigger] products@[k]).path is Some
                    && products@[k].name is None && slash_path(products@[k].path->0@)
                    ==> file_name_of(products@[k].path->0@) is Some,
            r@.len() == exported(products@.take(i as int), exists@.take(i as int)).len(),
            forall|j: int|
                0 <= j < r@.len() ==> names_target(
                    exported(products@.take(i as int), exists@.take(i as int))[j],
                    #[trigger] r@[j],
                ),
        decreases products.len() - i,
    {
        let ghost ps = products@.take(i + 1);
        let ghost es = exists@.take(i + 1);
        assert(ps.drop_last() =~= products@.take(i as int));
        assert(es.drop_last() =~= exists@.take(i as int));
        assert(ps.last() == products@[i as int]);
        assert(es.last() == exists@[i as int]);
        let p = &products[i];
        if exists[i] {
            match &p.path {
                Some(path) => {
                    let name = match &p.name {
                        Some(n) => copy_str(n.as_str()),
                        None => match default_target_name(path.as_str()) {
                            Some(n) => n,
                            None => {
                                proof {
                                    assert(!slash_path(path@));
                                    let e = exported(products@, exists@);
                                    lemma_exported_prefix(products@, exists@, i as int);
                                    assert(e[r@.len() as int] == products@[i as int]);
                                }
                                return None;
                            },
                        },
                    };
                    let ghost before = r@;
                    r.push((name, copy_str(path.as_str())));
                    assert forall|j: int| 0 <= j < r@.len() implies names_target(
                        exported(ps, es)[j],
                        #[trigger] r@[j],
                    ) by {
                        if j < before.len() {
                            assert(r@[j] == before[j]);
                        }
                    }
                },
                None => {},
            }
        }
        i = i + 1;
    }
    assert(products@.take(i as int) =~= products@);
    assert(exists@.take(i as int) =~= exists@);
    Some(r)
}

/// Whether a group of declared targets meets what [`product_targets`] needs.
pub open spec fn group_ok(products: Seq<ProductInfo>, exists: Seq<bool>) -> bool {
    &&& exists.len() == products.len()
    &&& forall|i: int|
        0 <= i < products.len() && exists[i] && (#[trigger] products[i]).path is Some
            && products[i].name is None && slash_path(products[i].path->0@)
            ==> file_name_of(products[i].path->0@) is Some
}

/// Whether `v` lists the exported targets of a group, in order, by the
/// names and paths they are exported under.
pub open spec fn lists_targets(products: Seq<ProductInfo>, exists: Seq<bool>, v: Seq<(String, String)>) -> bool {
    &&& v.len() == exported(products, exists).len()
    &&& forall|j: int| 0 <= j < v.len() ==> names_target(exported(products, exists)[j], #[trigger] v[j])
}

/// The targets a manifest declares: the library, then the binaries,
/// examples, tests and benchmarks.
pub struct ManifestTargets {
    pub lib: Option<ProductInfo>,
    pub bin: Vec<ProductInfo>,
    pub example: Vec<ProductInfo>,
    pub test: Vec<ProductInfo>,
    pub bench: Vec<ProductInfo>,
}

/// Which of those targets' files exist: the library's at the path
/// [`lib_target`] gives, the others' at their declared paths.
pub struct TargetFiles {
    pub lib: bool,
    pub bin: Vec<bool>,
    pub example: Vec<bool>,
    pub test: Vec<bool>,
    pub bench: Vec<bool>,
}

fn append_group(r: &mut Vec<(String, String)>, products: &Vec<ProductInfo>, exists: &Vec<bool>) -> (ok: bool)
    requires
        group_ok(products@, exists@),
    ensures
        ok ==> exists|g: Seq<(String, String)>| final(r)@ == old(r)@ + g && lists_targets(products@, exists@, g),
        all_named_or_slash(exported(products@, exists@)) ==> ok,
{
    match product_targets(products, exists) {
        Some(v) => {
            let ghost g = v@;
            let mut v = v;
            r.append(&mut v);
            assert(lists_targets(products@, exists@, g));
            true
        },
        None => false,
    }
}

/// The name and path of every target of a manifest that is exported, in
/// the order the build exports them: the library if its file exists, then
/// the binaries, examples, tests and benchmarks with a declared path whose
/// file exists, each group in its declared order. `None` where a target
/// without a declared name has a path holding `\\` or `:` that had no file
/// name on this platform.
pub fn manifest_targets(package_name: &str, targets: &ManifestTargets, files: &TargetFiles) -> (r: Option<Vec<(String, String)>>)
    requires
        group_ok(targets.bin@, files.bin@),
        group_ok(targets.example@, files.example@),
        group_ok(targets.test@, files.test@),
        group_ok(targets.bench@, files.bench@),
    ensures
        r matches Some(v) ==> exists|l: Seq<(String, String)>, b: Seq<(String, String)>, x: Seq<(String, String)>, t: Seq<(String, String)>, h: Seq<(String, String)>|
            {
                &&& v@ == l + b + x + t + h
                &&& files.lib ==> l.len() == 1 && l[0].0@ == lib_name(package_name@, targets.lib) && l[0].1@
                    == lib_path(targets.lib)
                &&& !files.lib ==> l.len() == 0
                &&& lists_targets(targets.bin@, files.bin@, b)
                &&& lists_targets(targets.example@, files.example@, x)
                &&& lists_targets(targets.test@, files.test@, t)
                &&& lists_targets(targets.bench@, files.bench@, h)
            },
        all_named_or_slash(exported(targets.bin@, files.bin@))
            && all_named_or_slash(exported(targets.example@, files.example@))
            && all_named_or_slash(exported(targets.test@, files.test@))
            && all_named_or_slash(exported(targets.bench@, files.bench@)) ==> r is Some,
{
    let mut r: Vec<(String, String)> = Vec::new();
    if files.lib {
        let lib = lib_target(package_name, &targets.lib);
        r.push(lib);
    }
    let ghost l = r@;
    if !append_group(&mut r, &targets.bin, &files.bin) {
        return None;
    }
    let ghost after_b = r@;
    if !append_group(&mut r, &targets.example, &files.example) {
        return None;
    }
    let ghost after_x = r@;
    if !append_group(&mut r, &targets.test, &files.test) {
        return None;
    }
    let ghost after_t = r@;
    if !append_group(&mut r, &targets.bench, &files.bench) {
        return None;
    }
    proof {
        let b = choose|g: Seq<(String, String)>| after_b == l + g && lists_targets(targets.bin@, files.bin@, g);
        let x = choose|g: Seq<(String, String)>| after_x == after_b + g && lists_targets(targets.example@, files.example@, g);
        let t = choose|g: Seq<(String, String)>| after_t == after_x + g && lists_targets(targets.test@, files.test@, g);
        let h = choose|g: Seq<(String, String)>| r@ == after_t + g && lists_targets(targets.bench@, files.bench@, g);
        assert(r@ == l + b + x + t + h);
    }
    Some(r)
}

/// The targets exported from the first `i` declared ones come first among
/// all that are exported, and the `i`-th, if exported, right after them.
proof fn lemma_exported_prefix(products: Seq<ProductInfo>, exists: Seq<bool>, i: int)
    requires
        0 <= i < products.len(),
        exists.len() == products.len(),
        exists[i],
        products[i].path is Some,
    ensures
        exported(products, exists).len() > exported(products.take(i), exists.take(i)).len(),
        exported(products, exists)[exported(products.take(i), exists.take(i)).len() as int] == products[i],
    decreases products.len(),
{
    let n = products.len();
    if i == n - 1 {
        assert(products.drop_last() =~= products.take(i));
        assert(exists.drop_last() =~= exists.take(i));
    } else {
        let pd = products.drop_last();
        let ed = exists.drop_last();
        assert(pd.take(i) =~= products.take(i));
        assert(ed.take(i) =~= exists.take(i));
        lemma_exported_prefix(pd, ed, i);
    }
}

} // verus!
