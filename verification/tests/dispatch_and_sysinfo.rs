use mirror_core::api::sysinfo;
use mirror_core::dispatch::{index_dispatch, PageKind};

fn exts() -> Vec<String> {
    vec!["exe".to_string(), "zip".to_string(), "7z".to_string()]
}

#[test]
fn markdown_and_viewers_dispatch() {
    assert_eq!(index_dispatch("md", true, true, true, &exts()), PageKind::Markdown);
    assert_eq!(index_dispatch("zip", true, true, true, &exts()), PageKind::ArchiveView);
    assert_eq!(index_dispatch("zip", false, true, true, &exts()), PageKind::Raw);
    assert_eq!(index_dispatch("mp4", true, true, true, &exts()), PageKind::Video);
    assert_eq!(index_dispatch("mp4", true, true, false, &exts()), PageKind::Raw);
    assert_eq!(index_dispatch("flac", true, true, true, &exts()), PageKind::Audio);
    assert_eq!(index_dispatch("flac", true, false, true, &exts()), PageKind::Raw);
}

#[test]
fn folders_details_and_raw_dispatch() {
    assert_eq!(index_dispatch("folder", true, true, true, &exts()), PageKind::Folder);
    assert_eq!(
        index_dispatch("privatefolder", true, true, true, &exts()),
        PageKind::PrivateFolder
    );
    assert_eq!(index_dispatch("exe", true, true, true, &exts()), PageKind::Details);
    assert_eq!(index_dispatch("txt", true, true, true, &exts()), PageKind::Raw);
}

#[test]
fn sysinfo_formats_and_skips_empty_disks() {
    let probed = vec![
        ("ext4".to_string(), 2048, 1024, "/".to_string()),
        ("tmpfs".to_string(), 0, 0, "/tmp".to_string()),
    ];
    let info = sysinfo(4096, 1024, probed);
    assert_eq!(info.total_mem_readable, "4.0 KiB");
    assert_eq!(info.used_mem_readable, "1.0 KiB");
    assert_eq!(info.disks.len(), 1);
    assert_eq!(info.disks[0].fs, "ext4");
    assert_eq!(info.disks[0].used_space, 1024);
    assert_eq!(info.disks[0].used_space_readable, "1.0 KiB");
    assert_eq!(info.disks[0].total_space_readable, "2.0 KiB");
    assert_eq!(info.disks[0].mount_point, "/");
}
