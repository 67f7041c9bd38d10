use mirror_core::archive::parse_7z_output;
use mirror_core::markup::{render_markdown, video_details};
use mirror_core::urls::{download_decision, download_url, replace, DownloadAction};

#[test]
fn markdown_renders_to_html() {
    assert_eq!(render_markdown("# Hi Mercury!"), "<h1>Hi Mercury!</h1>");
    assert_eq!(render_markdown("plain text"), "<p>plain text</p>");
}

#[test]
fn video_metadata_splits_title_and_details() {
    let (title, details) = video_details("# The Title\nFirst line.\nSecond line.");
    assert_eq!(title, "The Title");
    assert_eq!(details, "<p>First line.\nSecond line.</p>");
    let (title, details) = video_details("");
    assert_eq!(title, "");
    assert_eq!(details, "");
}

#[test]
fn download_urls_keep_separators_but_escape_the_rest() {
    assert_eq!(download_url("docs/setup file.exe"), "/file/docs/setup%20file.exe");
    assert_eq!(download_url("plain.txt"), "/file/plain.txt");
}

#[test]
fn replace_rewrites_every_occurrence() {
    assert_eq!(replace("a%2Fb%2Fc", "%2F", "/"), "a/b/c");
    assert_eq!(replace("nothing here", "%2F", "/"), "nothing here");
}

#[test]
fn download_decision_follows_the_extension_list() {
    let extensions = vec!["exe".to_string(), "zip".to_string(), "folder".to_string()];
    match download_decision("tools/setup.exe", "exe", &extensions) {
        DownloadAction::CountAndRedirect(url) => assert_eq!(url, "/file/tools/setup.exe"),
        _ => panic!("a listed extension should be counted"),
    }
    assert!(matches!(
        download_decision("docs/readme.txt", "txt", &extensions),
        DownloadAction::Stream
    ));
    assert!(matches!(
        download_decision("docs", "folder", &extensions),
        DownloadAction::Denied
    ));
}

#[test]
fn archive_rows_become_records() {
    let output = "\
Date      Time    Attr         Size   Compressed  Name\n\
------------------- ----- ------------ ------------  ------------------------\n\
2024-01-02 10:20:30 ....A          123          100  setup tool.exe\n\
2024-01-02 10:20:31 D....            0            0  subdir\n\
2024-01-02 10:20:32 ....A          456          400  Notes.TXT\n\
------------------- ----- ------------ ------------  ------------------------\n";
    let icons = vec!["exe".to_string(), "txt".to_string()];
    let records = parse_7z_output(output, &icons);
    assert_eq!(records.len(), 2);
    assert_eq!(records[0].name, "setup tool.exe");
    assert_eq!(records[0].ext, "exe");
    assert_eq!(records[0].icon, "exe");
    assert_eq!(records[0].size, 123);
    assert_eq!(records[1].name, "Notes.TXT");
    assert_eq!(records[1].ext, "TXT");
    assert_eq!(records[1].icon, "txt");
    assert_eq!(records[1].size, 456);
}

#[test]
fn archive_rows_without_a_size_are_skipped() {
    let line = "2024-01-02 10:20:31 D....            0            0  emptydir\n";
    assert_eq!(parse_7z_output(line, &Vec::new()).len(), 0);
    assert_eq!(parse_7z_output("no marker line 5 6 7\n", &Vec::new()).len(), 0);
}
