//! The calls into std and outside crates that the verified code makes,
//! each with the contract that the callee's documentation or source shows.

use vstd::prelude::*;

use crate::build::config::CustomDerive;
use crate::paths::{
    absolute_join, clean_absolute, file_name_of, joined, pieces_after, pieces_prefix, plain_join,
    slash_path, slash_pieces, stem_of,
};

verus! {

/// `String::push`: appends one character to the end of the string.
#[verifier::external_body]
pub(crate) fn push_char(s: &mut String, c: char)
    ensures
        final(s)@ == old(s)@.push(c),
{
    s.push(c);
}

/// `mustache::Template`, a compiled template; opaque here.
#[verifier::external_type_specification]
#[verifier::external_body]
pub struct ExTemplate(mustache::Template);

/// `mustache::Error`, the error of compiling or rendering a template; opaque here.
#[verifier::external_type_specification]
#[verifier::external_body]
pub struct ExMustacheError(mustache::Error);

/// Whether a template source is plain text and tags that hold no `.`,
/// with no tag that names a partial (`{{>`) or changes the delimiters
/// (`{{=`). Such a source compiles without reading any file, so whether it
/// compiles and what it renders depend on the source alone; and it names no
/// implicit iterator (`{{.}}`), the one tag whose rendering over a map of
/// strings panics.
pub open spec fn render_safe(s: Seq<char>) -> bool {
    safe_from(s, false)
}

/// [`render_safe`] of the rest of a source, inside a tag or not.
pub open spec fn safe_from(s: Seq<char>, in_tag: bool) -> bool
    decreases s.len(),
{
    if s.len() == 0 {
        true
    } else if !in_tag {
        if s.len() >= 3 && s[0] == '{' && s[1] == '{' && (s[2] == '>' || s[2] == '=') {
            false
        } else if s.len() >= 2 && s[0] == '{' && s[1] == '{' {
            safe_from(s.skip(2), true)
        } else {
            safe_from(s.skip(1), false)
        }
    } else {
        if s.len() >= 2 && s[0] == '}' && s[1] == '}' {
            safe_from(s.skip(2), false)
        } else if s[0] == '.' {
            false
        } else {
            safe_from(s.skip(1), true)
        }
    }
}

/// Whether `mustache::compile_str` accepts a [`render_safe`] source.
pub uninterp spec fn compiles(source: Seq<char>) -> bool;

/// What a template compiled from a [`render_safe`] source renders with a
/// map of one entry, `key` to `value`, as the data.
pub uninterp spec fn rendered(source: Seq<char>, key: Seq<char>, value: Seq<char>) -> Seq<char>;

/// `mustache::compile_str`: compiles a template from its source. Partials
/// that the source names are read from disk, so whether a source that names
/// one compiles is left open. A [`render_safe`] source reads no file, and
/// whether it compiles is a function of the source. A source without `{`
/// holds no tag: the parser only ever leaves its text state at the first
/// character of the opening delimiter `{{`, so such a source is plain text
/// and compiles.
#[verifier::external_body]
pub(crate) fn compile_template(source: &str) -> (r: Result<mustache::Template, mustache::Error>)
    ensures
        !source@.contains('{') ==> r is Ok,
        render_safe(source@) ==> (r is Ok) == compiles(source@),
{
    mustache::compile_str(source)
}

/// `mustache::Template::render_to_string` on the template of `derive`, with
/// a map of one entry, `key` to `value`, as the data. A derive's template is
/// always the compilation of its source (`CustomDerive::new` compiles the
/// source it keeps; `duplicate` copies both). For a [`render_safe`] source
/// the rendering succeeds: a map of strings always encodes, no tag resolves
/// to the map itself (only `{{.}}` would, and it panics), the only other
/// errors come from the writer, and the output is a `Vec` in memory. The
/// text depends on the source, the key and the value alone.
#[verifier::external_body]
pub(crate) fn render_derive(derive: &CustomDerive, key: &str, value: &str) -> (r: Result<
    String,
    mustache::Error,
>)
    requires
        render_safe(derive.spec_source()),
    ensures
        r is Ok,
        r matches Ok(text) ==> text@ == rendered(derive.spec_source(), key@, value@),
{
    let mut data = std::collections::HashMap::new();
    data.insert(key.to_string(), value.to_string());
    derive.template.render_to_string(&data)
}

/// `Clone::clone` on `mustache::Template`; nothing is claimed of the copy.
#[verifier::external_body]
pub(crate) fn clone_template(template: &mustache::Template) -> (r: mustache::Template) {
    template.clone()
}

/// What `str::to_lowercase` returns for a string with the given characters.
pub uninterp spec fn lowercase(s: Seq<char>) -> Seq<char>;

/// `str::to_lowercase`: the string mapped to lower case by Unicode's rules,
/// which depend on the characters alone.
#[verifier::external_body]
pub(crate) fn to_lowercase(s: &str) -> (r: String)
    ensures
        r@ == lowercase(s@),
{
    s.to_lowercase()
}

/// `uuid::Uuid::new_v4`: a random UUID, as its 128-bit value. Nothing is
/// claimed of the value.
#[verifier::external_body]
pub(crate) fn fresh_uuid() -> (r: u128) {
    uuid::Uuid::new_v4().as_u128()
}

/// `uuid::Uuid::as_simple` displayed: the 32 lower-case hexadecimal digits
/// of the UUID's 128-bit value, most significant first (the crate formats
/// the big-endian bytes nibble by nibble).
#[verifier::external_body]
pub(crate) fn uuid_simple(u: u128) -> (r: String)
    ensures
        r@ == crate::text::hex_fixed(u as nat, 32),
{
    uuid::Uuid::from_u128(u).as_simple().to_string()
}

/// `std::path::Path::join`, displayed: `file` joined onto `root`. The
/// separator and what counts as absolute depend on the platform. Where
/// [`plain_join`] holds, `file` is relative and without prefix and `root`
/// neither ends in a separator nor has a prefix, so on every platform the
/// documented rule "pushes `path` onto `self`, adding a separator if needed"
/// gives `root`, the platform's main separator (`/` or `\\`), then `file`.
/// Where [`absolute_join`] holds, `file` has a root and no prefix and `root`
/// no prefix, so on every platform the documented rules ("if `path` is
/// absolute, it replaces the current path"; on Windows "if `path` has a root
/// but no prefix, it replaces everything except for the prefix (if any) of
/// `self`") give `file`.
#[verifier::external_body]
pub(crate) fn join_paths(root: &str, file: &str) -> (r: String)
    ensures
        plain_join(root@, file@) ==> joined(root@, file@, r@),
        absolute_join(root@, file@) ==> r@ == file@,
{
    std::path::Path::new(root).join(file).display().to_string()
}

/// `std::path::Path::file_stem`, as text: the file name of the path
/// without its extension, or `None` where the path has no file name. How a
/// path splits into components depends on the platform; for a path that
/// holds no `\\` and no `:` it splits at `/` alone everywhere, and then the
/// documented rules give the result: no file name when the last component
/// is `..` or there is none (`.` and empty pieces are normalised away); the
/// whole name when it holds no `.` or only a leading one; else the part
/// before the last `.`.
#[verifier::external_body]
pub(crate) fn file_stem(path: &str) -> (r: Option<String>)
    ensures
        slash_path(path@) ==> (r is Some <==> file_name_of(path@) is Some),
        slash_path(path@) && r is Some ==> r.unwrap()@ == stem_of(file_name_of(path@).unwrap()),
{
    std::path::Path::new(path).file_stem().map(|stem| stem.to_string_lossy().into_owned())
}

/// `std::path::Path::file_name`, as text: the last component of the path,
/// `None` where there is none or it is `..`. For a path that holds no `\\`
/// and no `:` the components are split at `/` alone on every platform, and
/// the documented rule gives [`file_name_of`].
#[verifier::external_body]
pub(crate) fn path_file_name(path: &str) -> (r: Option<String>)
    ensures
        slash_path(path@) ==> (r is Some <==> file_name_of(path@) is Some),
        slash_path(path@) && r is Some ==> r.unwrap()@ == file_name_of(path@).unwrap(),
{
    std::path::Path::new(path).file_name().map(|name| name.to_string_lossy().into_owned())
}

/// `std::path::Path::is_absolute`. What is absolute depends on the platform
/// (on Windows a path needs a prefix too), so only this is claimed: a path
/// that holds no `\\` and no `:` and does not start with `/` has neither a
/// root nor a prefix anywhere, so it is not absolute.
#[verifier::external_body]
pub(crate) fn path_is_absolute(path: &str) -> (r: bool)
    ensures
        slash_path(path@) && (path@.len() == 0 || path@[0] != '/') ==> !r,
{
    std::path::Path::new(path).is_absolute()
}

/// `std::path::Path::strip_prefix`, as text: what remains of `path` after
/// the components of `base`, `None` where `base` is not a prefix of it. It
/// compares components, whose splitting depends on the platform; for two
/// paths in [`clean_absolute`] form the components are the root and the
/// pieces between `/` on every platform, so `base` is a prefix exactly when
/// its pieces come first in `path`, and, as documented ("a path that, when
/// joined onto `base`, yields `self`"; `/test/haha/foo.txt` less `/test` is
/// `haha/foo.txt`), what remains is the other pieces joined by `/`.
#[verifier::external_body]
pub(crate) fn path_strip_prefix(path: &str, base: &str) -> (r: Option<String>)
    ensures
        clean_absolute(path@) && clean_absolute(base@) ==> (r is Some <==> pieces_prefix(base@, path@)),
        clean_absolute(path@) && clean_absolute(base@) && r is Some ==> r.unwrap()@ == pieces_after(
            base@,
            path@,
        ),
{
    std::path::Path::new(path)
        .strip_prefix(base)
        .ok()
        .map(|rest| rest.to_string_lossy().into_owned())
}

/// The first of `std::path::Path::components`, as text. For a non-empty
/// [`slash_path`] that does not start with `/`, the first component is its
/// first piece before a `/` (`.` and `..` included, as the current and the
/// parent directory), on every platform. For one that starts with `/` it is
/// the root directory, which represents a separator: its text is made of
/// separators.
#[verifier::external_body]
pub(crate) fn path_first_component(path: &str) -> (r: Option<String>)
    ensures
        slash_path(path@) && path@.len() > 0 && path@[0] != '/' ==> (r is Some && r.unwrap()@
            == slash_pieces(path@)[0]),
        slash_path(path@) && path@.len() > 0 && path@[0] == '/' ==> (r is Some && r.unwrap()@.len()
            > 0 && forall|k: int|
            0 <= k < r.unwrap()@.len() ==> r.unwrap()@[k] == '/' || r.unwrap()@[k] == '\\'),
{
    std::path::Path::new(path)
        .components()
        .next()
        .map(|component| component.as_os_str().to_string_lossy().into_owned())
}

/// `std::any::TypeId`, the identity of a type; opaque here.
#[verifier::external_type_specification]
#[verifier::external_body]
pub struct ExTypeId(std::any::TypeId);

/// `std::any::TypeId::of`: the identity of `T`. Nothing is claimed of the value.
#[verifier::external_body]
pub(crate) fn type_id_of<T: ?Sized + 'static>() -> (r: std::any::TypeId) {
    std::any::TypeId::of::<T>()
}

/// `PartialEq::eq` on `TypeId`: two identities compare equal exactly when
/// they are the same identity.
#[verifier::external_body]
pub(crate) fn type_ids_equal(a: &std::any::TypeId, b: &std::any::TypeId) -> (r: bool)
    ensures
        r == (*a == *b),
{
    a == b
}

/// `Clone::clone` on `TypeId`, which is `Copy`: the same identity.
#[verifier::external_body]
pub(crate) fn copy_type_id(a: &std::any::TypeId) -> (r: std::any::TypeId)
    ensures
        r == *a,
{
    *a
}

} // verus!
