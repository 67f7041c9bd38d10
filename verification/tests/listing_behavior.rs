use mirror_core::config::Config;
use mirror_core::listing::{apply_locked_icons, list_folder, pick_readme, read_dirs, read_files,
    read_dirs_with_sizes, retain_visible, sort_by_name, DirChild, MirrorFile};
use mirror_core::paths::FilePath;
use mirror_core::size_index::{calculate_sizes, FileRec};
use mirror_core::Status;

fn path(s: &str) -> FilePath {
    FilePath::parse(s).expect("path should parse")
}

fn names(list: &Vec<MirrorFile>) -> Vec<String> {
    list.iter().map(|m| m.name.clone()).collect()
}

fn dir_child(name: &str) -> DirChild {
    DirChild { name: name.to_string(), has_hidden_marker: false }
}

#[test]
fn listing_orders_names_lexicographically() {
    let dirs = read_dirs(&vec![
        "banana".to_string(),
        "Apple".to_string(),
        "cherry".to_string(),
    ]);
    let sorted = sort_by_name(dirs);
    assert_eq!(names(&sorted), vec!["Apple", "banana", "cherry"]);
}

#[test]
fn files_and_directories_sort_by_the_same_rule() {
    let files = read_files(
        vec![
            ("banana.txt".to_string(), 1),
            ("Apple.txt".to_string(), 2),
            ("cherry.txt".to_string(), 3),
        ],
        &Vec::new(),
    );
    let sorted = sort_by_name(files);
    assert_eq!(names(&sorted), vec!["Apple.txt", "banana.txt", "cherry.txt"]);
}

#[test]
fn read_files_resolves_extension_and_icon() {
    let icons = vec!["txt".to_string(), "zip".to_string()];
    let files = read_files(
        vec![
            ("Notes.TXT".to_string(), 10),
            ("archive.zip".to_string(), 20),
            ("mystery.dat".to_string(), 30),
            ("no_extension".to_string(), 40),
        ],
        &icons,
    );
    assert_eq!(files[0].ext, "txt");
    assert_eq!(files[0].icon, "txt");
    assert_eq!(files[1].icon, "zip");
    assert_eq!(files[2].ext, "dat");
    assert_eq!(files[2].icon, "default");
    assert_eq!(files[3].ext, "");
    assert_eq!(files[3].size, 40);
}

#[test]
fn subdirectories_carry_snapshot_sizes_and_hidden_children_vanish() {
    let snapshot = calculate_sizes(&vec![
        FileRec { path: path("files/music/a.mp3"), size: 100 },
        FileRec { path: path("files/music/b.mp3"), size: 50 },
    ]);
    let children = vec![
        dir_child("music"),
        DirChild { name: "vault".to_string(), has_hidden_marker: true },
        dir_child("empty"),
    ];
    let dirs = read_dirs_with_sizes(&children, &snapshot, &path("files"));
    assert_eq!(names(&dirs), vec!["music", "empty"]);
    assert_eq!(dirs[0].size, 150);
    assert_eq!(dirs[1].size, 0);
    assert_eq!(dirs[0].ext, "folder");
}

#[test]
fn restricted_marker_locks_subdirectory_icons() {
    let files = read_files(vec![("RESTRICTED".to_string(), 0)], &Vec::new());
    let dirs = read_dirs(&vec!["sub".to_string()]);
    let locked = apply_locked_icons(dirs, &files);
    assert_eq!(locked[0].icon, "lockedfolder");
    let plain_files = read_files(vec![("readme.txt".to_string(), 5)], &Vec::new());
    let dirs = read_dirs(&vec!["sub".to_string()]);
    let untouched = apply_locked_icons(dirs, &plain_files);
    assert_eq!(untouched[0].icon, "folder");
}

#[test]
fn hidden_names_disappear_for_non_admins() {
    let cfg = Config::default();
    let list = read_dirs(&vec![
        "docs".to_string(),
        "private".to_string(),
        "static".to_string(),
    ]);
    let visible = retain_visible(list, &cfg.hidden_files);
    assert_eq!(names(&visible), vec!["docs"]);
}

#[test]
fn localized_readme_wins() {
    let files = read_files(
        vec![
            ("README.md".to_string(), 1),
            ("README.pl.md".to_string(), 1),
            ("data.bin".to_string(), 1),
        ],
        &Vec::new(),
    );
    assert_eq!(pick_readme(&files, "pl").unwrap(), "README.pl.md");
    assert_eq!(pick_readme(&files, "de").unwrap(), "README.md");
    let bare = read_files(vec![("data.bin".to_string(), 1)], &Vec::new());
    assert!(pick_readme(&bare, "pl").is_none());
}

#[test]
fn hidden_folder_lists_as_not_found() {
    let hidden_dirs = vec![path("files/secret")];
    let cfg = Config::default();
    let r = list_folder(
        vec![("plans.txt".to_string(), 10)],
        &vec![],
        &Vec::new(),
        &path("files/secret"),
        &hidden_dirs,
        &cfg.hidden_files,
        &Vec::new(),
        Some(1),
        "en",
    );
    assert_eq!(r.unwrap_err(), Status::NotFound);
    // The administrator still sees the listing.
    let r = list_folder(
        vec![("plans.txt".to_string(), 10)],
        &vec![],
        &Vec::new(),
        &path("files/secret"),
        &hidden_dirs,
        &cfg.hidden_files,
        &Vec::new(),
        Some(0),
        "en",
    );
    assert!(r.is_ok());
}

#[test]
fn anonymous_root_listing_shows_public_file_only() {
    let cfg = Config::default();
    let snapshot = calculate_sizes(&vec![
        FileRec { path: path("files/public.txt"), size: 10 },
        FileRec { path: path("files/private/alice/note.txt"), size: 20 },
        FileRec { path: path("files/private/bob/note.txt"), size: 5 },
    ]);
    let listing = list_folder(
        vec![("public.txt".to_string(), 10)],
        &vec![dir_child("private")],
        &snapshot,
        &path("files"),
        &Vec::new(),
        &cfg.hidden_files,
        &Vec::new(),
        None,
        "en",
    )
    .unwrap();
    assert_eq!(names(&listing.files), vec!["public.txt"]);
    assert_eq!(names(&listing.dirs), Vec::<String>::new());
    assert!(listing.readme.is_none());
}

#[test]
fn admin_root_listing_keeps_the_private_entry() {
    let cfg = Config::default();
    let listing = list_folder(
        vec![("public.txt".to_string(), 10)],
        &vec![dir_child("private")],
        &Vec::new(),
        &path("files"),
        &Vec::new(),
        &cfg.hidden_files,
        &Vec::new(),
        Some(0),
        "en",
    )
    .unwrap();
    assert_eq!(names(&listing.dirs), vec!["private"]);
}

#[test]
fn records_match_on_name_and_extension() {
    let a = MirrorFile {
        name: "x".to_string(),
        ext: "txt".to_string(),
        icon: "txt".to_string(),
        size: 1,
        downloads: None,
    };
    let b = MirrorFile {
        name: "x".to_string(),
        ext: "txt".to_string(),
        icon: "default".to_string(),
        size: 99,
        downloads: Some(3),
    };
    let c = MirrorFile {
        name: "x".to_string(),
        ext: "dat".to_string(),
        icon: "txt".to_string(),
        size: 1,
        downloads: None,
    };
    assert!(a == b);
    assert!(a != c);
}
