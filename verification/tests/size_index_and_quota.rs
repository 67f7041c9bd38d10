use mirror_core::paths::FilePath;
use mirror_core::quota::{assembled_size_ok, check_upload_admission, chunked_upload_precheck,
    private_usage, quota_precheck, tier_quota, upload_destination};
use mirror_core::size_index::{calculate_sizes, folder_size, FileEntry, FileRec};
use mirror_core::Status;

fn path(s: &str) -> FilePath {
    FilePath::parse(s).expect("path should parse")
}

fn rec(p: &str, size: u64) -> FileRec {
    FileRec { path: path(p), size }
}

fn entry_triples(entries: &Vec<FileEntry>) -> Vec<(Vec<String>, u64, bool)> {
    entries.iter().map(|e| (e.path.segs.clone(), e.size, e.is_dir)).collect()
}

#[test]
fn aggregates_directory_sizes_bottom_up() {
    let files = vec![rec("files/a/x", 100), rec("files/a/b/y", 50)];
    let snapshot = calculate_sizes(&files);
    assert_eq!(folder_size(&snapshot, &path("files/a")), 150);
    assert_eq!(folder_size(&snapshot, &path("files/a/b")), 50);
    assert_eq!(folder_size(&snapshot, &path("files")), 150);
    assert_eq!(folder_size(&snapshot, &FilePath::root()), 150);
    // The files themselves are kept as given, ahead of the directories.
    let triples = entry_triples(&snapshot);
    assert_eq!(triples[0], (vec!["files".to_string(), "a".to_string(), "x".to_string()], 100, false));
    assert_eq!(triples[1], (
        vec!["files".to_string(), "a".to_string(), "b".to_string(), "y".to_string()],
        50,
        false,
    ));
    // One directory entry per ancestor: root, files, files/a, files/a/b.
    assert_eq!(snapshot.len(), 6);
}

#[test]
fn missing_directory_reads_as_zero() {
    let snapshot = calculate_sizes(&vec![rec("files/a/x", 7)]);
    assert_eq!(folder_size(&snapshot, &path("files/elsewhere")), 0);
    assert_eq!(folder_size(&snapshot, &path("files/a/x")), 0);
}

#[test]
fn rebuild_is_idempotent() {
    let files = vec![rec("files/a/x", 100), rec("files/a/b/y", 50), rec("files/z", 3)];
    let one = entry_triples(&calculate_sizes(&files));
    let two = entry_triples(&calculate_sizes(&files));
    assert_eq!(one.len(), two.len());
    for t in &one {
        assert!(two.contains(t));
    }
    for t in &two {
        assert!(one.contains(t));
    }
}

#[test]
fn empty_walk_yields_empty_snapshot() {
    let snapshot = calculate_sizes(&Vec::new());
    assert_eq!(snapshot.len(), 0);
}

#[test]
fn quota_boundary_uses_reaching_blocks() {
    // 900 + 80 stays under a 1000-byte quota; 900 + 150 reaches it.
    assert!(check_upload_admission(1000, 900, 80).is_ok());
    assert_eq!(
        check_upload_admission(1000, 900, 150).unwrap_err(),
        Status::InsufficientStorage
    );
    // Landing exactly on the quota already blocks.
    assert_eq!(
        check_upload_admission(1000, 900, 100).unwrap_err(),
        Status::InsufficientStorage
    );
    // A zero quota is unlimited.
    assert!(check_upload_admission(0, u64::MAX, u64::MAX).is_ok());
}

#[test]
fn precheck_rejects_full_folders_only() {
    assert!(quota_precheck(1000, 999).is_ok());
    assert_eq!(quota_precheck(1000, 1000).unwrap_err(), Status::InsufficientStorage);
    assert!(quota_precheck(0, 123456).is_ok());
}

#[test]
fn administrators_are_quota_exempt() {
    assert_eq!(tier_quota(0, 1000), 0);
    assert_eq!(tier_quota(1, 1000), 1000);
}

#[test]
fn private_usage_reads_the_owners_folder() {
    let files = vec![
        rec("files/public.txt", 10),
        rec("files/private/alice/note.txt", 20),
        rec("files/private/bob/note.txt", 5),
    ];
    let snapshot = calculate_sizes(&files);
    assert_eq!(private_usage(&snapshot, "alice"), 20);
    assert_eq!(private_usage(&snapshot, "bob"), 5);
    assert_eq!(private_usage(&snapshot, "carol"), 0);
}

#[test]
fn upload_destination_follows_the_mutating_rule() {
    let (p, private) = upload_destination("private/pics", "alice".to_string(), 1).unwrap();
    assert_eq!(p.segs, vec!["files", "private", "alice", "pics"]);
    assert!(private);
    assert_eq!(
        upload_destination("stuff", "alice".to_string(), 1).unwrap_err(),
        Status::Forbidden
    );
    let (p, private) = upload_destination("", "root".to_string(), 0).unwrap();
    assert_eq!(p.segs, vec!["files", "uploads"]);
    assert!(!private);
    assert_eq!(
        upload_destination("../escape", "root".to_string(), 0).unwrap_err(),
        Status::BadRequest
    );
}

#[test]
fn chunked_uploads_are_admitted_conservatively() {
    // 4 chunks at a 100-byte ceiling against 500 free bytes: admitted.
    assert!(chunked_upload_precheck(1000, 500, 4, 100).is_ok());
    // 5 chunks would reach the quota exactly: rejected up front.
    assert_eq!(
        chunked_upload_precheck(1000, 500, 5, 100).unwrap_err(),
        Status::InsufficientStorage
    );
    // An absurd chunk count cannot sneak past by overflowing.
    assert_eq!(
        chunked_upload_precheck(1000, 0, u64::MAX, u64::MAX).unwrap_err(),
        Status::InsufficientStorage
    );
    assert!(chunked_upload_precheck(0, 0, u64::MAX, u64::MAX).is_ok());
    // The reassembled size is held to the per-tier maximum.
    assert!(assembled_size_ok(100, 100));
    assert!(!assembled_size_ok(101, 100));
    assert!(assembled_size_ok(u64::MAX, 0));
}
