//! Quota / Upload Admission: the byte-ceiling checks applied before any
//! file is accepted into a private-namespace upload, and the normalization
//! of the destination a caller asked to upload into.
//!
//! A quota of zero means unlimited. Reaching the quota exactly already
//! blocks: the rule is `usage + upload >= quota` rejects.

use vstd::prelude::*;

use crate::Status;
use crate::paths::FilePath;
use crate::resolve::{get_real_path_with_perms, resolve_with_perms_spec};
use crate::size_index::{FileEntry, folder_size, folder_size_spec};

verus! {

/// The byte ceiling for a caller of the given permission level:
/// administrators are exempt (unlimited), everyone else gets the configured
/// per-tier ceiling.
pub fn tier_quota(perms: i32, configured: u64) -> (r: u64)
    ensures
        perms == 0 ==> r == 0,
        perms != 0 ==> r == configured,
{
    if perms == 0 {
        0
    } else {
        configured
    }
}

/// The caller's current private-folder usage, read from the Size Index
/// snapshot: the aggregate recorded for `files/private/<username>`, zero
/// when that directory is not indexed.
pub fn private_usage(entries: &Vec<FileEntry>, username: &str) -> (r: u64)
    ensures
        r == folder_size_spec(
            entries.deep_view(),
            seq!["files"@, "private"@, username@],
        ),
{
    let mut p = FilePath::root();
    p.push_seg(String::from_str("files"));
    p.push_seg(String::from_str("private"));
    p.push_seg(String::from_str(username));
    proof {
        assert(p@ =~= seq!["files"@, "private"@, username@]);
    }
    folder_size(entries, &p)
}

/// Admission before any file content is read: a non-zero quota that is
/// already met or exceeded rejects the whole request.
pub fn quota_precheck(quota: u64, usage: u64) -> (r: Result<(), Status>)
    ensures
        r is Ok <==> (quota == 0 || usage < quota),
        r is Err ==> r == Err::<(), Status>(Status::InsufficientStorage),
{
    if quota != 0 && usage >= quota {
        Err(Status::InsufficientStorage)
    } else {
        Ok(())
    }
}

/// Admission of one file of known size: accepted exactly when the quota is
/// unlimited or current usage plus this file stays strictly below the
/// quota.
pub fn check_upload_admission(quota: u64, usage: u64, upload: u64) -> (r: Result<(), Status>)
    ensures
        r is Ok <==> (quota == 0 || usage + upload < quota),
        r is Err ==> r == Err::<(), Status>(Status::InsufficientStorage),
{
    if quota == 0 {
        return Ok(());
    }
    if usage >= quota || upload >= quota - usage {
        Err(Status::InsufficientStorage)
    } else {
        Ok(())
    }
}

/// Normalizes the destination directory named in an upload request and
/// resolves it under the stricter mutating rule: the path is read from the
/// request (`uploads` when empty or absent), then only administrators may
/// target the public tree, while any authenticated user may target their
/// own private subtree.
pub fn upload_destination(user_path: &str, username: String, perms: i32) -> (r: Result<
    (FilePath, bool),
    Status,
>)
    ensures
        match r {
            Ok((p, is_private)) => ({
                let requested = FilePath::parse_spec(user_path@);
                let normalized = if requested.len() == 0 {
                    seq!["uploads"@]
                } else {
                    requested
                };
                resolve_with_perms_spec(normalized, username@, perms) == Ok::<_, Status>((
                    p@,
                    is_private,
                ))
            }),
            Err(e) => ({
                let requested = FilePath::parse_spec(user_path@);
                let normalized = if requested.len() == 0 {
                    seq!["uploads"@]
                } else {
                    requested
                };
                !crate::paths::path_ok(requested) && e == Status::BadRequest
                    || resolve_with_perms_spec(normalized, username@, perms) == Err::<
                    (Seq<Seq<char>>, bool),
                    _,
                >(e)
            }),
        },
{
    let parsed = FilePath::parse(user_path);
    match parsed {
        None => Err(Status::BadRequest),
        Some(p) => {
            if p.segs.len() == 0 {
                let mut q = FilePath::root();
                q.push_seg(String::from_str("uploads"));
                proof {
                    assert(q@ =~= seq!["uploads"@]);
                }
                get_real_path_with_perms(&q, username, perms)
            } else {
                get_real_path_with_perms(&p, username, perms)
            }
        },
    }
}


/// Conservative admission of a chunked upload before any chunk arrives:
/// the upload is assumed to be as large as every announced chunk at the
/// fixed per-chunk ceiling.
pub fn chunked_upload_precheck(
    quota: u64,
    usage: u64,
    total_chunks: u64,
    chunk_ceiling: u64,
) -> (r: Result<(), Status>)
    ensures
        r is Ok <==> (quota == 0 || usage + total_chunks * chunk_ceiling < quota),
        r is Err ==> r == Err::<(), Status>(Status::InsufficientStorage),
{
    if quota == 0 {
        return Ok(());
    }
    if chunk_ceiling != 0 && total_chunks > u64::MAX / chunk_ceiling {
        proof {
            let c = chunk_ceiling as int;
            let t = total_chunks as int;
            let m = u64::MAX as int;
            assert((m / c) * c + m % c == m && 0 <= m % c < c) by (nonlinear_arith)
                requires
                    c > 0,
                    m >= 0,
            ;
            assert(t * c >= (m / c + 1) * c) by (nonlinear_arith)
                requires
                    t >= m / c + 1,
                    c > 0,
            ;
            assert((m / c + 1) * c == (m / c) * c + c) by (nonlinear_arith);
        }
        return Err(Status::InsufficientStorage);
    }
    proof {
        if chunk_ceiling != 0 {
            let c = chunk_ceiling as int;
            let t = total_chunks as int;
            let m = u64::MAX as int;
            assert(t * c <= (m / c) * c) by (nonlinear_arith)
                requires
                    t <= m / c,
                    c > 0,
            ;
            assert((m / c) * c + m % c == m && 0 <= m % c < c) by (nonlinear_arith)
                requires
                    c > 0,
                    m >= 0,
            ;
        }
    }
    let estimate = total_chunks * chunk_ceiling;
    if usage >= quota || estimate >= quota - usage {
        Err(Status::InsufficientStorage)
    } else {
        Ok(())
    }
}

/// The check after a chunked upload is reassembled: the final size must
/// stay within the per-tier maximum upload size (zero meaning unlimited),
/// or the assembly is to be discarded.
pub fn assembled_size_ok(final_size: u64, max_upload: u64) -> (r: bool)
    ensures
        r == (max_upload == 0 || final_size <= max_upload),
{
    max_upload == 0 || final_size <= max_upload
}

} // verus!
