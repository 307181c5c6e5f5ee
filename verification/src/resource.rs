//! Locating the engine's resource directory from the engine crate's
//! manifest directory, three levels below it.

use vstd::prelude::*;

verus! {

/// What `Path::parent` gives for the path written `path`, as text: the
/// path without its final component, or nothing when the path ends in a
/// root or prefix or is empty.
pub uninterp spec fn path_parent(path: Seq<char>) -> Option<Seq<char>>;

/// `std::path::Path::parent`, read back as text. Claimed: the result is
/// `path_parent` of the input.
#[verifier::external_body]
fn parent_dir(path: &str) -> (parent: Option<String>)
    ensures
        match parent {
            Some(p) => path_parent(path@) == Some(p@),
            None => path_parent(path@) is None,
        },
{
    match std::path::Path::new(path).parent() {
        Some(p) => Some(p.to_string_lossy().into_owned()),
        None => None,
    }
}

/// The `n`-th ancestor directory of `path`, if it has that many.
pub open spec fn ancestor(path: Seq<char>, n: nat) -> Option<Seq<char>>
    decreases n,
{
    if n == 0 {
        Some(path)
    } else {
        match ancestor(path, (n - 1) as nat) {
            Some(p) => path_parent(p),
            None => None,
        }
    }
}

/// How many levels the engine's resource root lies above the engine crate.
pub const RESOURCE_ROOT_DEPTH: u32 = 3;

/// The resource root: the third ancestor of the engine crate's manifest
/// directory.
pub fn default_resource_dir(manifest_dir: &str) -> (dir: String)
    requires
        ancestor(manifest_dir@, 3) is Some,
    ensures
        ancestor(manifest_dir@, 3) == Some(dir@),
{
    proof {
        reveal_with_fuel(ancestor, 4);
    }
    let mut dir = String::new();
    if let Some(first) = parent_dir(manifest_dir) {
        if let Some(second) = parent_dir(first.as_str()) {
            if let Some(third) = parent_dir(second.as_str()) {
                dir = third;
            }
        }
    }
    dir
}

/// The resource root when the manifest directory has three ancestors, or
/// nothing.
pub fn resource_dir_of(manifest_dir: &str) -> (dir: Option<String>)
    ensures
        match dir {
            Some(d) => ancestor(manifest_dir@, 3) == Some(d@),
            None => ancestor(manifest_dir@, 3) is None,
        },
{
    proof {
        reveal_with_fuel(ancestor, 4);
    }
    let has_root = match parent_dir(manifest_dir) {
        Some(first) => match parent_dir(first.as_str()) {
            Some(second) => parent_dir(second.as_str()).is_some(),
            None => false,
        },
        None => false,
    };
    if has_root {
        Some(default_resource_dir(manifest_dir))
    } else {
        None
    }
}

} // verus!
