//! What the `#[pragma(...)]` attribute macro makes of its arguments: which
//! path it reaches the runtime crate by, how each `name = value` argument
//! becomes an attribute, and the identifiers of the items it generates.

use vstd::prelude::*;

use crate::paths::{
    absolute_join, clean_absolute, file_name_of, joined, lemma_file_name_plain, lemma_join_plain, lemma_pieces_len,
    lemma_slash_pieces_plain, pieces_after, pieces_prefix, plain_join, plain_piece, slash_path,
    slash_pieces,
};
use crate::text::{const_str_equal, copy_str, hex_fixed, replace_char, replace_chars};
use crate::trusted::{
    fresh_uuid, join_paths, path_file_name, path_first_component, path_is_absolute,
    path_strip_prefix, uuid_simple,
};

verus! {

/// The argument that names the path to the runtime crate.
pub const PATH_TO_ANNOTATE_ATTRIBUTE: &'static str = "path_to_annotate";

/// The path to the runtime crate when no argument names one.
pub const DEFAULT_PATH_TO_ANNOTATE: &'static str = "annotate";

/// The value after `=` in one argument, as the macro's parser classifies it.
pub enum ArgValue {
    /// A string literal, by its token text.
    Str(String),
    /// An integer literal, by its token text.
    Int(String),
    /// A boolean literal.
    Bool(bool),
    /// Any other literal (float, character, byte string).
    OtherLiteral,
    /// A path, by its text.
    Path(String),
    /// Any other expression.
    Other,
}

/// One `name = value` argument. `ident` is `None` when the name is a path
/// of more than one segment rather than a single identifier.
pub struct PragmaArg {
    pub ident: Option<String>,
    pub value: ArgValue,
}

/// Why no path to the runtime crate can be taken from the arguments.
pub enum PathError {
    /// An argument before the path was found is named by a path that is no identifier.
    NotAnIdent,
    /// The `path_to_annotate` argument's value is no path.
    NotAPath,
}

/// The path to the runtime crate that the arguments select: the value of
/// the first `path_to_annotate` argument, or the default; scanning stops at
/// the first argument whose name is no identifier.
pub open spec fn detected_path(args: Seq<PragmaArg>) -> Result<Seq<char>, PathError>
    decreases args.len(),
{
    if args.len() == 0 {
        Ok("annotate"@)
    } else {
        match args[0].ident {
            None => Err(PathError::NotAnIdent),
            Some(id) => if id@ == "path_to_annotate"@ {
                match args[0].value {
                    ArgValue::Path(p) => Ok(p@),
                    _ => Err(PathError::NotAPath),
                }
            } else {
                detected_path(args.drop_first())
            },
        }
    }
}

/// The path to the runtime crate that the arguments select.
pub fn detect_path_to_annotate(args: &Vec<PragmaArg>) -> (r: Result<String, PathError>)
    ensures
        match (r, detected_path(args@)) {
            (Ok(s), Ok(t)) => s@ == t,
            (Err(PathError::NotAnIdent), Err(PathError::NotAnIdent)) => true,
            (Err(PathError::NotAPath), Err(PathError::NotAPath)) => true,
            _ => false,
        },
{
    let mut i: usize = 0;
    assert(args@.skip(0) =~= args@);
    while i < args.len()
        invariant
            i <= args@.len(),
            detected_path(args@) == detected_path(args@.skip(i as int)),
        decreases args.len() - i,
    {
        assert(args@.skip(i as int).drop_first() =~= args@.skip(i + 1));
        assert(args@.skip(i as int)[0] == args@[i as int]);
        match &args[i].ident {
            None => {
                return Err(PathError::NotAnIdent);
            },
            Some(id) => {
                proof {
                    reveal_strlit("path_to_annotate");
                }
                if crate::text::const_str_equal(id.as_str(), PATH_TO_ANNOTATE_ATTRIBUTE) {
                    return match &args[i].value {
                        ArgValue::Path(p) => Ok(copy_str(p.as_str())),
                        _ => Err(PathError::NotAPath),
                    };
                }
            },
        }
        i = i + 1;
    }
    assert(args@.skip(i as int) =~= Seq::<PragmaArg>::empty());
    proof {
        reveal_strlit("annotate");
    }
    Ok(copy_str(DEFAULT_PATH_TO_ANNOTATE))
}

/// The value an argument becomes in the generated attribute.
pub enum ExpandedValue {
    /// `Value::Str` of the literal.
    Str(String),
    /// `Value::Int` of the literal.
    Int(String),
    /// `Value::Bool` of the literal.
    Bool(bool),
    /// `Value::Type` of the named type.
    Type(String),
    /// A literal of a kind that attributes cannot hold: a compile error.
    UnsupportedLiteral,
    /// An expression that is neither a literal nor a path: a compile error.
    UnsupportedValue,
}

/// What an expanded value says, over plain values.
pub ghost enum ValueView {
    Str(Seq<char>),
    Int(Seq<char>),
    Bool(bool),
    Type(Seq<char>),
    UnsupportedLiteral,
    UnsupportedValue,
}

/// One generated attribute. `name` is `None` when the argument's name is no
/// identifier, which makes the name a compile error.
pub struct ExpandedArg {
    pub name: Option<String>,
    pub value: ExpandedValue,
}

impl ExpandedValue {
    pub open spec fn view(&self) -> ValueView {
        match self {
            ExpandedValue::Str(s) => ValueView::Str(s@),
            ExpandedValue::Int(s) => ValueView::Int(s@),
            ExpandedValue::Bool(b) => ValueView::Bool(*b),
            ExpandedValue::Type(s) => ValueView::Type(s@),
            ExpandedValue::UnsupportedLiteral => ValueView::UnsupportedLiteral,
            ExpandedValue::UnsupportedValue => ValueView::UnsupportedValue,
        }
    }
}

impl ExpandedArg {
    pub open spec fn view(&self) -> (Option<Seq<char>>, ValueView) {
        (
            match self.name {
                Some(n) => Some(n@),
                None => None,
            },
            self.value.view(),
        )
    }
}

/// What one argument becomes.
pub open spec fn expanded_value(v: ArgValue) -> ValueView {
    match v {
        ArgValue::Str(s) => ValueView::Str(s@),
        ArgValue::Int(s) => ValueView::Int(s@),
        ArgValue::Bool(b) => ValueView::Bool(b),
        ArgValue::OtherLiteral => ValueView::UnsupportedLiteral,
        ArgValue::Path(p) => ValueView::Type(p@),
        ArgValue::Other => ValueView::UnsupportedValue,
    }
}

/// Whether an argument becomes an attribute: all but `path_to_annotate`.
pub open spec fn becomes_attribute(a: PragmaArg) -> bool {
    match a.ident {
        Some(id) => id@ != "path_to_annotate"@,
        None => true,
    }
}

/// The attributes the arguments become, in order.
pub open spec fn expanded_args(args: Seq<PragmaArg>) -> Seq<(Option<Seq<char>>, ValueView)>
    decreases args.len(),
{
    if args.len() == 0 {
        seq![]
    } else {
        let rest = expanded_args(args.drop_last());
        let a = args.last();
        if becomes_attribute(a) {
            rest.push(
                (
                    match a.ident {
                        Some(n) => Some(n@),
                        None => None,
                    },
                    expanded_value(a.value),
                ),
            )
        } else {
            rest
        }
    }
}

/// The views of generated attributes.
pub open spec fn expanded_views(s: Seq<ExpandedArg>) -> Seq<(Option<Seq<char>>, ValueView)> {
    s.map_values(|e: ExpandedArg| e.view())
}

fn expand_value(v: &ArgValue) -> (r: ExpandedValue)
    ensures
        r.view() == expanded_value(*v),
{
    match v {
        ArgValue::Str(s) => ExpandedValue::Str(copy_str(s.as_str())),
        ArgValue::Int(s) => ExpandedValue::Int(copy_str(s.as_str())),
        ArgValue::Bool(b) => ExpandedValue::Bool(*b),
        ArgValue::OtherLiteral => ExpandedValue::UnsupportedLiteral,
        ArgValue::Path(p) => ExpandedValue::Type(copy_str(p.as_str())),
        ArgValue::Other => ExpandedValue::UnsupportedValue,
    }
}

/// The attributes the arguments become: every argument but
/// `path_to_annotate`, in order, each with its name and its value.
pub fn expand_args(args: &Vec<PragmaArg>) -> (r: Vec<ExpandedArg>)
    ensures
        expanded_views(r@) == expanded_args(args@),
{
    let mut r: Vec<ExpandedArg> = Vec::new();
    let mut i: usize = 0;
    proof {
        reveal_strlit("path_to_annotate");
    }
    assert(args@.take(0) =~= Seq::<PragmaArg>::empty());
    assert(expanded_views(r@) =~= seq![]);
    while i < args.len()
        invariant
            i <= args@.len(),
            expanded_views(r@) == expanded_args(args@.take(i as int)),
            "path_to_annotate"@ =~= PATH_TO_ANNOTATE_ATTRIBUTE@,
        decreases args.len() - i,
    {
        let a = &args[i];
        assert(args@.take(i + 1).drop_last() =~= args@.take(i as int));
        assert(args@.take(i + 1).last() == args@[i as int]);
        let keep = match &a.ident {
            Some(id) => !crate::text::const_str_equal(id.as_str(), PATH_TO_ANNOTATE_ATTRIBUTE),
            None => true,
        };
        if keep {
            let name = match &a.ident {
                Some(id) => Some(copy_str(id.as_str())),
                None => None,
            };
            let value = expand_value(&a.value);
            let e = ExpandedArg { name, value };
            let ghost before = r@;
            r.push(e);
            assert(expanded_views(r@) =~= expanded_views(before).push(e.view()));
        }
        i = i + 1;
    }
    assert(args@.take(i as int) =~= args@);
    r
}

/// An identifier for a generated item:
/// `annotate_<kind>_<prefix>_<name>_<uuid in hex>`.
pub open spec fn item_identifier(kind: Seq<char>, prefix: Seq<char>, name: Seq<char>, uuid: u128) -> Seq<
    char,
> {
    "annotate_"@ + kind + "_"@ + prefix + "_"@ + name + "_"@ + hex_fixed(uuid as nat, 32)
}

fn fresh_item_identifier(kind: &str, prefix: &str, name: &str) -> (r: String)
    ensures
        exists|u: u128| r@ == item_identifier(kind@, prefix@, name@, u),
{
    let mut r = String::from_str("annotate_");
    r.append(kind);
    r.append("_");
    r.append(prefix);
    r.append("_");
    r.append(name);
    r.append("_");
    let u = fresh_uuid();
    let h = uuid_simple(u);
    r.append(h.as_str());
    proof {
        reveal_strlit("annotate_");
        reveal_strlit("_");
        assert(r@ =~= item_identifier(kind@, prefix@, name@, u));
    }
    r
}

/// Whether an annotated function with `input_count` parameters gets a
/// caller that boxes its result: only a function without parameters can be
/// called without knowing its type.
pub fn boxes_return(input_count: usize) -> (r: bool)
    ensures
        r <==> input_count == 0,
{
    input_count == 0
}

/// A fresh identifier for an item generated beside an annotated function:
/// `annotate_fn_<prefix>_<name>_<uuid>`, with a random UUID.
pub fn function_item_identifier(prefix: &str, name: &str) -> (r: String)
    ensures
        exists|u: u128| r@ == item_identifier("fn"@, prefix@, name@, u),
{
    fresh_item_identifier("fn", prefix, name)
}

/// A fresh identifier for an item generated beside an annotated module:
/// `annotate_mod_<prefix>_<name>_<uuid>`, with a random UUID.
pub fn module_item_identifier(prefix: &str, name: &str) -> (r: String)
    ensures
        exists|u: u128| r@ == item_identifier("mod"@, prefix@, name@, u),
{
    fresh_item_identifier("mod", prefix, name)
}

/// Where the generated environment of a source file lies below the build's
/// output directory, for a relative source path that splits at `/` alone:
/// the path itself if its first piece is the crate directory's name `root`,
/// else the path under `root`.
pub open spec fn relative_source_path(root: Seq<char>, source: Seq<char>) -> Seq<char> {
    if slash_pieces(source)[0] == root {
        source
    } else {
        root + seq!['/'] + source
    }
}

proof fn lemma_forward_join(root: Seq<char>, source: Seq<char>, j: Seq<char>)
    requires
        joined(root, source, j),
        !root.contains('\\'),
        !source.contains('\\'),
    ensures
        replace_char(j, '\\', '/') == root + seq!['/'] + source,
{
    let want = root + seq!['/'] + source;
    assert forall|k: int| 0 <= k < j.len() implies #[trigger] replace_char(j, '\\', '/')[k] == want[k] by {
        if k < root.len() {
            assert(j[k] == root[k]);
            if root[k] == '\\' {
                assert(root.contains('\\'));
            }
        } else if k == root.len() {
        } else {
            assert(j[k] == source[k - root.len() - 1]);
            if source[k - root.len() - 1] == '\\' {
                assert(source.contains('\\'));
            }
        }
    }
    assert(replace_char(j, '\\', '/') =~= want);
}

proof fn lemma_forward_plain(s: Seq<char>)
    requires
        !s.contains('\\'),
    ensures
        replace_char(s, '\\', '/') == s,
{
    assert forall|k: int| 0 <= k < s.len() implies #[trigger] replace_char(s, '\\', '/')[k] == s[k] by {
        if s[k] == '\\' {
            assert(s.contains('\\'));
        }
    }
    assert(replace_char(s, '\\', '/') =~= s);
}

/// The place of the generated environment of an absolute source inside the
/// crate is relative: it starts with the crate directory's name and a `/`,
/// never with `/`, so it is never the absolute source itself.
pub proof fn lemma_inside_source_is_relative(manifest_dir: Seq<char>, source: Seq<char>)
    requires
        clean_absolute(manifest_dir),
        file_name_of(manifest_dir) is Some,
        clean_absolute(source),
    ensures
        ({
            let name = file_name_of(manifest_dir)->0;
            let p = name + seq!['/'] + pieces_after(manifest_dir, source);
            &&& p.take(name.len() + 1int) == name + seq!['/']
            &&& p[0] != '/'
            &&& p != source
        }),
{
    lemma_file_name_plain(manifest_dir);
    let name = file_name_of(manifest_dir)->0;
    let p = name + seq!['/'] + pieces_after(manifest_dir, source);
    assert(p.take(name.len() + 1int) =~= name + seq!['/']);
    assert(p[0] == name[0]);
    if name[0] == '/' {
        assert(name.contains('/'));
    }
    assert(source[0] == '/');
}

/// Where the generated environment of the source file `source` lies below
/// the build's output directory, for a crate in `manifest_dir`: under the
/// crate directory's name, with `\\` made `/`. An absolute source inside the
/// crate (one that starts with `/` counts as absolute on every platform) is
/// taken relative to it; a relative one that starts with the crate
/// directory's name is kept; any other goes under that name. `None` where
/// `manifest_dir` has no file name.
pub fn environment_source_path(source: &str, manifest_dir: &str) -> (r: Option<String>)
    ensures
        slash_path(manifest_dir@) ==> (r is None <==> file_name_of(manifest_dir@) is None),
        slash_path(manifest_dir@) && file_name_of(manifest_dir@) is Some && slash_path(source@)
            && source@.len() > 0 && source@[0] != '/' ==> (r matches Some(p) && p@
            == relative_source_path(file_name_of(manifest_dir@)->0, source@)),
        clean_absolute(source@) && clean_absolute(manifest_dir@) && file_name_of(manifest_dir@) is Some
            && pieces_prefix(manifest_dir@, source@) && slash_pieces(manifest_dir@).len() < slash_pieces(
            source@,
        ).len() ==> (r matches Some(p) && p@ == file_name_of(manifest_dir@)->0 + seq!['/']
            + pieces_after(manifest_dir@, source@)),
        r matches Some(p) ==> !p@.contains('\\'),
{
    let root = match path_file_name(manifest_dir) {
        Some(root) => root,
        None => return None,
    };
    let rooted = source.unicode_len() > 0 && source.get_char(0) == '/';
    if rooted || path_is_absolute(source) {
        match path_strip_prefix(source, manifest_dir) {
            Some(relative) => {
                let j = join_paths(root.as_str(), relative.as_str());
                let r = replace_chars(j.as_str(), '\\', '/');
                proof {
                    lemma_no_backslash(j@);
                    if clean_absolute(source@) && clean_absolute(manifest_dir@) && file_name_of(manifest_dir@) is Some
                        && pieces_prefix(manifest_dir@, source@)
                        && slash_pieces(manifest_dir@).len() < slash_pieces(source@).len() {
                        lemma_absolute_inside(source@, manifest_dir@, root@, relative@, j@);
                    }
                }
                return Some(r);
            },
            None => {},
        }
    }
    let is_root = match path_first_component(source) {
        Some(first) => {
            let same = const_str_equal(first.as_str(), root.as_str());
            proof {
                if clean_absolute(source@) && slash_path(manifest_dir@) && file_name_of(manifest_dir@) is Some {
                    lemma_file_name_plain(manifest_dir@);
                    if same {
                        assert(first@[0] == root@[0]);
                        assert(root@.contains(root@[0]));
                    }
                }
            }
            same
        },
        None => false,
    };
    if is_root {
        let r = replace_chars(source, '\\', '/');
        proof {
            lemma_no_backslash(source@);
            if slash_path(source@) {
                lemma_forward_plain(source@);
            }
        }
        return Some(r);
    }
    let j = join_paths(root.as_str(), source);
    let r = replace_chars(j.as_str(), '\\', '/');
    proof {
        lemma_no_backslash(j@);
        if clean_absolute(source@) && slash_path(manifest_dir@) && file_name_of(manifest_dir@) is Some {
            lemma_file_name_plain(manifest_dir@);
            assert(absolute_join(root@, source@)) by {
                if root@.len() >= 2 && root@[0] == '/' {
                    assert(root@.contains('/'));
                }
            }
            lemma_forward_plain(source@);
        }
        if slash_path(manifest_dir@) && slash_path(source@) && source@.len() > 0 && source@[0] != '/' {
            let name = file_name_of(manifest_dir@)->0;
            lemma_file_name_plain(manifest_dir@);
            assert(plain_join(root@, source@));
            lemma_forward_join(root@, source@, j@);
        }
    }
    Some(r)
}

proof fn lemma_absolute_inside(source: Seq<char>, manifest_dir: Seq<char>, root: Seq<char>, relative: Seq<char>, j: Seq<char>)
    requires
        clean_absolute(source),
        clean_absolute(manifest_dir),
        file_name_of(manifest_dir) == Some(root),
        pieces_prefix(manifest_dir, source),
        slash_pieces(manifest_dir).len() < slash_pieces(source).len(),
        relative == pieces_after(manifest_dir, source),
        plain_join(root, relative) ==> joined(root, relative, j),
    ensures
        replace_char(j, '\\', '/') == root + seq!['/'] + relative,
{
    lemma_file_name_plain(manifest_dir);
    let ps = slash_pieces(source);
    let n = slash_pieces(manifest_dir).len() as int;
    let rest = ps.skip(n);
    lemma_slash_pieces_plain(source);
    assert(n >= 1) by {
        lemma_pieces_len(manifest_dir, seq![]);
    }
    assert forall|i: int| 0 <= i < rest.len() implies plain_piece(#[trigger] rest[i]) && rest[i].len() > 0 by {
        assert(rest[i] == ps[i + n]);
        assert(plain_piece(ps[i + n]));
    }
    lemma_join_plain(rest);
    assert(rest[0][0] != '/') by {
        assert(plain_piece(rest[0]));
    }
    assert(slash_path(root)) by {
        if root.len() >= 2 && root[0] == '/' {
            assert(root.contains('/'));
        }
    }
    assert(root.last() != '/') by {
        assert(root.contains(root.last()));
    }
    assert(relative[0] != '\\') by {
        assert(plain_piece(rest[0]));
    }
    assert(plain_join(root, relative));
    lemma_forward_join(root, relative, j);
}

proof fn lemma_no_backslash(s: Seq<char>)
    ensures
        !replace_char(s, '\\', '/').contains('\\'),
{
    if replace_char(s, '\\', '/').contains('\\') {
        let k = choose|k: int| 0 <= k < replace_char(s, '\\', '/').len() && replace_char(s, '\\', '/')[k] == '\\';
        assert(replace_char(s, '\\', '/')[k] != '\\');
    }
}

} // verus!
