//! Path Resolver: maps an untrusted URL-relative path and the caller's
//! identity to the real location under the served root, choosing between the
//! shared public tree and the caller's own private subtree.
//!
//! The private namespace is identity-bound: the username is substituted
//! server-side, so a request can never address another user's subtree.

use vstd::prelude::*;

use crate::Status;
use crate::paths::{FilePath, path_ok, seg_ok};

verus! {

/// The sentinel username of a caller with no session.
pub open spec fn anonymous() -> Seq<char> {
    "Nobody"@
}

/// Whether a requested path addresses the private namespace.
pub open spec fn requests_private(file: Seq<Seq<char>>) -> bool {
    file.len() > 0 && file[0] == "private"@
}

/// Where a private request resolves: the caller's own subtree under
/// `files/private`, followed by the remaining requested segments.
pub open spec fn private_target(file: Seq<Seq<char>>, username: Seq<char>) -> Seq<Seq<char>> {
    seq!["files"@, "private"@, username] + file.skip(1)
}

/// Where a public request resolves: directly under the served root.
pub open spec fn public_target(file: Seq<Seq<char>>) -> Seq<Seq<char>> {
    seq!["files"@] + file
}

/// The resolution rule: anonymous callers are denied the private namespace;
/// everyone reaches the public tree.
pub open spec fn resolve_spec(file: Seq<Seq<char>>, username: Seq<char>) -> Result<
    (Seq<Seq<char>>, bool),
    Status,
> {
    if requests_private(file) {
        if username == anonymous() {
            Err(Status::Forbidden)
        } else {
            Ok((private_target(file, username), true))
        }
    } else {
        Ok((public_target(file), false))
    }
}

/// The stricter rule for mutating operations: only administrators
/// (permission level 0) may touch the public tree; any authenticated user
/// may touch their own private subtree.
pub open spec fn resolve_with_perms_spec(
    file: Seq<Seq<char>>,
    username: Seq<char>,
    perms: i32,
) -> Result<(Seq<Seq<char>>, bool), Status> {
    if requests_private(file) {
        resolve_spec(file, username)
    } else if perms != 0 {
        Err(Status::Forbidden)
    } else {
        Ok((public_target(file), false))
    }
}

/// Resolves a requested path for the given caller, per `resolve_spec`:
/// a path whose first segment is `private` lands in the caller's own subtree
/// (and is refused for the anonymous caller); every other path lands in the
/// public tree. The flag reports whether the result is private.
pub fn get_real_path(file: &FilePath, username: String) -> (r: Result<(FilePath, bool), Status>)
    ensures
        match r {
            Ok((p, is_private)) => resolve_spec(file@, username@) == Ok::<_, Status>((
                p@,
                is_private,
            )) && (file.wf() && seg_ok(username@) ==> p.wf()),
            Err(e) => resolve_spec(file@, username@) == Err::<(Seq<Seq<char>>, bool), _>(e),
        },
{
    if file.starts_with("private") {
        if str_is_nobody(username.as_str()) {
            return Err(Status::Forbidden);
        }
        let mut p = FilePath::root();
        p.push_seg(String::from_str("files"));
        p.push_seg(String::from_str("private"));
        p.push_seg(username);
        let rest = file.tail();
        let mut i: usize = 0;
        let n = rest.segs.len();
        while i < n
            invariant
                i <= n,
                n == rest.segs.len(),
                p@ =~= seq!["files"@, "private"@, username@] + rest@.take(i as int),
            decreases n - i,
        {
            let seg = rest.segs[i].clone();
            proof {
                assert(seg@ == rest@[i as int]);
            }
            p.push_seg(seg);
            proof {
                assert(rest@.take(i as int).push(rest@[i as int]) =~= rest@.take(i as int + 1));
                assert(p@ =~= seq!["files"@, "private"@, username@] + rest@.take(i as int + 1));
            }
            i = i + 1;
        }
        proof {
            assert(rest@.take(n as int) =~= rest@);
            assert(p@ =~= private_target(file@, username@));
            reveal_strlit("private");
            reveal_strlit("files");
            assert("files"@ =~= seq!['f', 'i', 'l', 'e', 's']);
            assert("private"@ =~= seq!['p', 'r', 'i', 'v', 'a', 't', 'e']);
            assert(seg_ok("files"@) && seg_ok("private"@));
        }
        Ok((p, true))
    } else {
        let mut p = FilePath::root();
        p.push_seg(String::from_str("files"));
        let mut i: usize = 0;
        let n = file.segs.len();
        while i < n
            invariant
                i <= n,
                n == file.segs.len(),
                p@ =~= seq!["files"@] + file@.take(i as int),
            decreases n - i,
        {
            let seg = file.segs[i].clone();
            proof {
                assert(seg@ == file@[i as int]);
            }
            p.push_seg(seg);
            proof {
                assert(file@.take(i as int).push(file@[i as int]) =~= file@.take(i as int + 1));
                assert(p@ =~= seq!["files"@] + file@.take(i as int + 1));
            }
            i = i + 1;
        }
        proof {
            assert(file@.take(n as int) =~= file@);
            assert(p@ =~= public_target(file@));
            reveal_strlit("files");
            assert("files"@ =~= seq!['f', 'i', 'l', 'e', 's']);
            assert(seg_ok("files"@));
        }
        Ok((p, false))
    }
}

/// Resolves a requested path for a mutating operation, per
/// `resolve_with_perms_spec`: as `get_real_path`, but a public path is
/// refused unless the caller is an administrator.
pub fn get_real_path_with_perms(file: &FilePath, username: String, perms: i32) -> (r: Result<
    (FilePath, bool),
    Status,
>)
    ensures
        match r {
            Ok((p, is_private)) => resolve_with_perms_spec(file@, username@, perms)
                == Ok::<_, Status>((p@, is_private)) && (file.wf() && seg_ok(username@)
                ==> p.wf()),
            Err(e) => resolve_with_perms_spec(file@, username@, perms) == Err::<
                (Seq<Seq<char>>, bool),
                _,
            >(e),
        },
{
    if !file.starts_with("private") && perms != 0 {
        return Err(Status::Forbidden);
    }
    get_real_path(file, username)
}

/// Whether the username is the anonymous sentinel.
fn str_is_nobody(s: &str) -> (r: bool)
    ensures
        r == (s@ == anonymous()),
{
    crate::text::str_eq(s, "Nobody")
}

/// Namespace isolation: resolving a private path as `u1` puts `u1`, and
/// nobody else, in the owner position of the resolved path, directly under
/// `files/private`.
pub proof fn lemma_private_owner_slot(file: Seq<Seq<char>>, u1: Seq<char>, u2: Seq<char>)
    requires
        requests_private(file),
        u1 != u2,
    ensures
        private_target(file, u1)[2] == u1,
        private_target(file, u1)[2] != u2,
        resolve_spec(file, u1) matches Ok(t) ==> t.0 == private_target(file, u1),
{
}

/// Namespace isolation, stated over whole paths: if the requested sub-path
/// does not itself mention `u2`, then nothing in the path resolved for `u1`
/// is `u2`'s segment. (The exclusions are forced: a caller may request a
/// sub-path that spells out another user's name, and every resolved path
/// contains the literal segments `files` and `private`.)
pub proof fn lemma_namespace_isolation(file: Seq<Seq<char>>, u1: Seq<char>, u2: Seq<char>)
    requires
        requests_private(file),
        u1 != u2,
        !file.contains(u2),
        u2 != "files"@,
        u2 != "private"@,
    ensures
        !private_target(file, u1).contains(u2),
{
    let t = private_target(file, u1);
    if t.contains(u2) {
        let i = choose|i: int| 0 <= i < t.len() && t[i] == u2;
        if i >= 3 {
            assert(t[i] == file.skip(1)[i - 3]);
            assert(file.skip(1)[i - 3] == file[i - 2]);
            assert(file.contains(u2));
        }
    }
}

/// Anonymous exclusion: a path that addresses the private namespace never
/// resolves for the anonymous caller, whatever follows the first segment.
pub proof fn lemma_anonymous_exclusion(file: Seq<Seq<char>>)
    requires
        requests_private(file),
    ensures
        resolve_spec(file, anonymous()) == Err::<(Seq<Seq<char>>, bool), Status>(
            Status::Forbidden,
        ),
{
}

} // verus!
