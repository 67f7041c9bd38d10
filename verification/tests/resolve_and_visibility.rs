use mirror_core::paths::FilePath;
use mirror_core::resolve::{get_real_path, get_real_path_with_perms};
use mirror_core::visibility::{is_hidden, is_restricted};
use mirror_core::Status;

fn path(s: &str) -> FilePath {
    FilePath::parse(s).expect("path should parse")
}

fn segs(p: &FilePath) -> Vec<String> {
    p.segs.clone()
}

#[test]
fn resolves_public_path_under_root() {
    let (p, private) = get_real_path(&path("docs/readme.txt"), "alice".to_string()).unwrap();
    assert_eq!(segs(&p), vec!["files", "docs", "readme.txt"]);
    assert!(!private);
}

#[test]
fn resolves_private_path_into_own_subtree() {
    let (p, private) = get_real_path(&path("private/note.txt"), "alice".to_string()).unwrap();
    assert_eq!(segs(&p), vec!["files", "private", "alice", "note.txt"]);
    assert!(private);
}

#[test]
fn anonymous_caller_never_reaches_private() {
    let r = get_real_path(&path("private/note.txt"), "Nobody".to_string());
    assert_eq!(r.unwrap_err(), Status::Forbidden);
    let r = get_real_path(&path("private"), "Nobody".to_string());
    assert_eq!(r.unwrap_err(), Status::Forbidden);
    let r = get_real_path(&path("private/deep/very/deep"), "Nobody".to_string());
    assert_eq!(r.unwrap_err(), Status::Forbidden);
}

#[test]
fn private_resolution_is_identity_bound() {
    let (for_alice, _) = get_real_path(&path("private/shared.txt"), "alice".to_string()).unwrap();
    let (for_bob, _) = get_real_path(&path("private/shared.txt"), "bob".to_string()).unwrap();
    assert_eq!(segs(&for_alice)[2], "alice");
    assert_eq!(segs(&for_bob)[2], "bob");
    assert!(!segs(&for_alice).contains(&"bob".to_string()));
    assert!(!segs(&for_bob).contains(&"alice".to_string()));
}

#[test]
fn mutating_public_paths_is_admin_only() {
    let r = get_real_path_with_perms(&path("docs/a.txt"), "alice".to_string(), 1);
    assert_eq!(r.unwrap_err(), Status::Forbidden);
    let (p, private) = get_real_path_with_perms(&path("docs/a.txt"), "root".to_string(), 0).unwrap();
    assert_eq!(segs(&p), vec!["files", "docs", "a.txt"]);
    assert!(!private);
    let (p, private) =
        get_real_path_with_perms(&path("private/a.txt"), "alice".to_string(), 1).unwrap();
    assert_eq!(segs(&p), vec!["files", "private", "alice", "a.txt"]);
    assert!(private);
}

#[test]
fn parse_normalizes_and_refuses_dot_steps() {
    assert_eq!(segs(&path("a//b/")), vec!["a", "b"]);
    assert_eq!(segs(&path("/")).len(), 0);
    assert!(FilePath::parse("../etc/passwd").is_none());
    assert!(FilePath::parse("a/./b").is_none());
}

#[test]
fn restricted_marker_blocks_only_unauthenticated() {
    let restricted = vec![path("files/locked")];
    let target = path("files/locked/secret.txt");
    assert!(is_restricted(&target, &restricted, false));
    assert!(!is_restricted(&target, &restricted, true));
    let open_target = path("files/open/readme.txt");
    assert!(!is_restricted(&open_target, &restricted, false));
}

#[test]
fn hidden_marker_blocks_everyone_but_admins() {
    let hidden = vec![path("files/secret")];
    let target = path("files/secret/plans.txt");
    assert!(is_hidden(&target, &hidden, None));
    assert!(is_hidden(&target, &hidden, Some(1)));
    assert!(!is_hidden(&target, &hidden, Some(0)));
    assert!(!is_hidden(&path("files/public.txt"), &hidden, Some(1)));
}

#[test]
fn marker_on_ancestor_reaches_deep_paths() {
    let restricted = vec![path("files/locked")];
    assert!(is_restricted(&path("files/locked/a/b/c.txt"), &restricted, false));
    let root_marker = vec![FilePath::root()];
    assert!(is_restricted(&path("files/anything.txt"), &root_marker, false));
}
