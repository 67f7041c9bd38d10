//! Visibility Filter: the marker-file access rules.
//!
//! A zero-byte `RESTRICTED` marker in a directory closes that whole subtree
//! to unauthenticated callers; a `HIDDEN` marker closes it to everyone but
//! administrators. The filesystem probes that discover where the markers
//! are live outside the core; the checks here take the probed marker
//! locations as plain values and walk the ancestor chain of the path in
//! question. The two rules are independent of each other.

use vstd::prelude::*;

use crate::paths::{FilePath, is_prefix_of};

verus! {

/// Some directory holding a marker is the path itself or one of its
/// ancestors (the root included).
pub open spec fn marked_ancestor(marked: Seq<Seq<Seq<char>>>, path: Seq<Seq<char>>) -> bool {
    exists|i: int| 0 <= i < marked.len() && is_prefix_of(#[trigger] marked[i], path)
}

/// Whether some marked directory lies on the ancestor chain of `path`.
fn has_marked_ancestor(marked: &Vec<FilePath>, path: &FilePath) -> (r: bool)
    ensures
        r == marked_ancestor(marked.deep_view(), path@),
{
    let n = marked.len();
    let mut i: usize = 0;
    while i < n
        invariant
            i <= n,
            n == marked.len(),
            forall|j: int| 0 <= j < i ==> !is_prefix_of(#[trigger] marked.deep_view()[j], path@),
        decreases n - i,
    {
        proof {
            assert(marked.deep_view()[i as int] == marked@[i as int]@);
        }
        if marked[i].is_prefix(path) {
            return true;
        }
        i = i + 1;
    }
    false
}

/// The `RESTRICTED` rule: the path is blocked exactly when a marker lies on
/// its ancestor chain and the caller has no session at all; any
/// authentication clears it. `restricted_dirs` holds the directories that
/// contain a `RESTRICTED` marker.
pub fn is_restricted(path: &FilePath, restricted_dirs: &Vec<FilePath>, logged_in: bool) -> (r:
    bool)
    ensures
        r == (marked_ancestor(restricted_dirs.deep_view(), path@) && !logged_in),
{
    if logged_in {
        return false;
    }
    has_marked_ancestor(restricted_dirs, path)
}

/// The `HIDDEN` rule: the path is blocked exactly when a marker lies on its
/// ancestor chain and the caller is not an administrator; the anonymous
/// caller (`perms` absent) is always blocked by a marker. `hidden_dirs`
/// holds the directories that contain a `HIDDEN` marker.
pub fn is_hidden(path: &FilePath, hidden_dirs: &Vec<FilePath>, perms: Option<i32>) -> (r: bool)
    ensures
        r == (marked_ancestor(hidden_dirs.deep_view(), path@) && perms != Some(0i32)),
{
    match perms {
        Some(p) => {
            if p == 0 {
                return false;
            }
        },
        None => {},
    }
    has_marked_ancestor(hidden_dirs, path)
}

} // verus!
