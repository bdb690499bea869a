//! Paths as text. What the platform's path rules make of a path is taken from
//! `std::path`, one call each. The results are named here so that contracts
//! can speak of them: a name stands for what `std` computes on the platform
//! the crate is built for, and nothing in the crate says what that is. The
//! functions below are the only ones in the crate that call `std::path`, and
//! their contracts are not proved.

use vstd::prelude::*;
use crate::text::text_of;
use crate::text::texts_of;

verus! {

/// The final component of `path` under the path rules of the platform the
/// crate is built for, if it has one.
pub uninterp spec fn path_file_name(path: Seq<char>) -> Option<Seq<char>>;

/// `path` without its final component under the platform's path rules, if it
/// has a parent.
pub uninterp spec fn path_parent(path: Seq<char>) -> Option<Seq<char>>;

/// Whether the final component of `path` has an extension under the
/// platform's path rules.
pub uninterp spec fn path_has_extension(path: Seq<char>) -> bool;

/// `name` appended to `base` as a further component under the platform's path
/// rules.
pub uninterp spec fn path_join(base: Seq<char>, name: Seq<char>) -> Seq<char>;

/// The final component of `path` without its extension under the
/// platform's path rules, if there is a final component.
pub uninterp spec fn path_file_stem(path: Seq<char>) -> Option<Seq<char>>;

/// The components of `path` under the platform's path rules, in order.
pub uninterp spec fn path_components(path: Seq<char>) -> Seq<Seq<char>>;

/// Whether the components of `base` are the first components of `path`
/// under the platform's path rules.
pub uninterp spec fn path_starts_with(path: Seq<char>, base: Seq<char>) -> bool;

/// Calls `Path::file_name` on `path` and gives the component as text. That
/// the result is what `path_file_name` names is by definition of that name;
/// nothing is said, and nothing proved, of what `std` makes of a given path.
#[verifier::external_body]
pub(crate) fn file_name(path: &str) -> (r: Option<String>)
    ensures
        text_of(r) == path_file_name(path@),
{
    Some(std::path::Path::new(path).file_name()?.to_str()?.to_string())
}

/// Calls `Path::parent` on `path` and gives the parent as text. The result
/// is what `path_parent` names; what that is for a given path is not stated.
#[verifier::external_body]
pub(crate) fn parent(path: &str) -> (r: Option<String>)
    ensures
        text_of(r) == path_parent(path@),
{
    Some(std::path::Path::new(path).parent()?.to_str()?.to_string())
}

/// Calls `Path::extension` on `path` and tells whether there is one. The
/// result is what `path_has_extension` names; what that is for a given path
/// is not stated.
#[verifier::external_body]
pub(crate) fn has_extension(path: &str) -> (r: bool)
    ensures
        r == path_has_extension(path@),
{
    std::path::Path::new(path).extension().is_some()
}

/// Calls `Path::join` on `base` with `name` and gives the joined path as
/// text. The result is what `path_join` names; what that is for given texts
/// is not stated.
#[verifier::external_body]
pub(crate) fn join(base: &str, name: &str) -> (r: String)
    ensures
        r@ == path_join(base@, name@),
{
    std::path::Path::new(base).join(name).to_string_lossy().into_owned()
}

/// Calls `Path::file_stem` on `path` and gives the stem as text. The result
/// is what `path_file_stem` names; what that is for a given path is not
/// stated.
#[verifier::external_body]
pub(crate) fn file_stem(path: &str) -> (r: Option<String>)
    ensures
        text_of(r) == path_file_stem(path@),
{
    Some(std::path::Path::new(path).file_stem()?.to_str()?.to_string())
}

/// Calls `Path::iter` on `path` and gives each component as text, in
/// order. The result is what `path_components` names; what that is for a
/// given path is not stated.
#[verifier::external_body]
pub(crate) fn components(path: &str) -> (r: Vec<String>)
    ensures
        texts_of(r@) == path_components(path@),
{
    let mut parts = Vec::new();
    for part in std::path::Path::new(path).iter() {
        parts.push(part.to_string_lossy().into_owned());
    }
    parts
}

/// Calls `Path::starts_with` on `path` with `base`. The result is what
/// `path_starts_with` names; what that is for given paths is not stated.
#[verifier::external_body]
pub(crate) fn starts_with(path: &str, base: &str) -> (r: bool)
    ensures
        r == path_starts_with(path@, base@),
{
    std::path::Path::new(path).starts_with(base)
}

} // verus!
