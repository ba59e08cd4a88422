use crate::text::concat;
use std::path::PathBuf;
use vstd::prelude::*;

verus! {

/// What `PathBuf::pop` leaves of a path: the path without its last
/// component, or the path itself where it has none to give up. Paths are
/// read by the rules of the platform that the crate is built for.
pub uninterp spec fn without_last_component(path: Seq<char>) -> Seq<char>;

/// `PathBuf::pop` on the path that `file_name` spells. It truncates the
/// path, so what is left is a prefix of what was given.
#[verifier::external_body]
fn pop_last_component(file_name: &str) -> (r: String)
    ensures
        r@ == without_last_component(file_name@),
        r@.is_prefix_of(file_name@),
{
    let mut path = PathBuf::from(file_name);
    path.pop();
    path.to_string_lossy().into_owned()
}

/// The prefix that makes a name inside `parent` a path: nothing for the
/// root, else `parent` and a slash.
pub open spec fn as_prefix(parent: Seq<char>) -> Seq<char> {
    if parent.len() == 0 {
        parent
    } else {
        parent + "/"@
    }
}

/// The folder that holds `file_name`, as a prefix for the names in it.
pub open spec fn folder_of(file_name: Seq<char>) -> Seq<char> {
    as_prefix(without_last_component(file_name))
}

/// Turns a folder into the prefix of the paths of its files.
pub fn folder_prefix(parent: &str) -> (r: String)
    ensures
        r@ == as_prefix(parent@),
{
    if parent.is_empty() {
        String::new()
    } else {
        concat(parent, "/")
    }
}

/// The folder that holds `file_name`: empty for a file at the root of the
/// archive, else the folder's path with a slash at its end.
pub fn containing_folder(file_name: &str) -> (r: String)
    ensures
        r@ == folder_of(file_name@),
        r@.len() == 0 || r@.drop_last().is_prefix_of(file_name@),
{
    let parent = pop_last_component(file_name);
    let r = folder_prefix(parent.as_str());
    proof {
        if parent@.len() > 0 {
            reveal_strlit("/");
            assert(("/"@).len() == 1);
            assert(r@.drop_last() =~= parent@);
        }
    }
    r
}

} // verus!
