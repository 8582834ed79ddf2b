//! From the argument of a load call to the path of the file it names.
//!
//! Taking a path apart and putting one together is left to the standard
//! library, which knows the separators and roots of the platform that the
//! program is built for. What it returns depends on the paths alone, and has
//! a name here; which paths are handed to it is this library's rule.

use vstd::prelude::*;

verus! {

/// What `std::path::Path::parent` makes of a path on the platform that the
/// program is built for: the path without its last component, or `None`
/// where the path ends in a root or is empty.
pub uninterp spec fn parent_of(path: Seq<char>) -> Option<Seq<char>>;

/// What `std::path::Path::join` makes of a base and an argument on the
/// platform that the program is built for: the argument adjoined to the
/// base, or the argument alone where it is absolute.
pub uninterp spec fn joined(base: Seq<char>, argument: Seq<char>) -> Seq<char>;

/// The text of a path that may be missing, as a sequence of characters.
pub open spec fn path_view(path: Option<String>) -> Option<Seq<char>> {
    match path {
        Some(text) => Some(text@),
        None => None,
    }
}

/// `std::path::Path::parent`. It reads the path and nothing else, so its
/// result depends on the path alone; the contract gives the result the name
/// [`parent_of`] and claims no more.
#[verifier::external_body]
fn parent_directory(path: &str) -> (r: Option<String>)
    ensures
        path_view(r) == parent_of(path@),
{
    match std::path::Path::new(path).parent() {
        Some(directory) => Some(directory.to_string_lossy().into_owned()),
        None => None,
    }
}

/// `std::path::Path::join`. It reads the two paths and nothing else, so its
/// result depends on them alone; the contract gives the result the name
/// [`joined`] and claims no more. The argument goes in as written, so `..`
/// passes through.
#[verifier::external_body]
pub(crate) fn join(base: &str, argument: &str) -> (r: String)
    ensures
        r@ == joined(base@, argument@),
{
    std::path::Path::new(base).join(argument).to_string_lossy().into_owned()
}

/// The directory that load arguments are resolved against: the project root
/// under the root policy, else the directory of the file that holds the call,
/// where it has one.
pub open spec fn base_directory(
    root: Seq<char>,
    directory: Option<Seq<char>>,
    use_root: bool,
) -> Option<Seq<char>> {
    if use_root {
        Some(root)
    } else {
        directory
    }
}

/// The path of the file that a load argument names: the argument joined to
/// the project root under the root policy, else to the parent directory of
/// the file that holds the call; `None` where that file has no parent
/// directory.
pub open spec fn resolved_path(
    root: Seq<char>,
    referrer: Seq<char>,
    argument: Seq<char>,
    use_root: bool,
) -> Option<Seq<char>> {
    match base_directory(root, parent_of(referrer), use_root) {
        Some(base) => Some(joined(base, argument)),
        None => None,
    }
}

/// The directory to resolve against, given the project root and the
/// directory of the referring file where it has one.
pub fn load_base(root: &str, directory: Option<String>, use_root: bool) -> (r: Option<String>)
    ensures
        path_view(r) == base_directory(root@, path_view(directory), use_root),
{
    if use_root {
        Some(root.to_owned())
    } else {
        directory
    }
}

/// The directory that the loads of the file at `referrer` are resolved
/// against, or `None` where the root policy is off and the path of the file
/// has no parent directory.
pub fn resolve_base(root: &str, referrer: &str, use_root: bool) -> (r: Option<String>)
    ensures
        path_view(r) == base_directory(root@, parent_of(referrer@), use_root),
{
    load_base(root, parent_directory(referrer), use_root)
}

/// The path of the file that the load argument `argument` names, where the
/// call stands in the file at `referrer`.
pub fn resolve_path(root: &str, referrer: &str, argument: &str, use_root: bool) -> (r: Option<
    String,
>)
    ensures
        path_view(r) == resolved_path(root@, referrer@, argument@, use_root),
{
    match resolve_base(root, referrer, use_root) {
        Some(base) => Some(join(base.as_str(), argument)),
        None => None,
    }
}

} // verus!
