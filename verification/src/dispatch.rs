//! The page chosen for a resolved path: the decision at the heart of the
//! main request handler. A directory renders as a listing (after the
//! trailing-slash redirect); a file renders as the viewer its extension
//! calls for, the details page for a downloadable extension, or the raw
//! stream.

use vstd::prelude::*;

use crate::text::str_eq;

verus! {

/// The page kinds the main handler can answer with.
#[derive(Clone, Copy, Debug, PartialEq, Eq, Structural)]
pub enum PageKind {
    /// A markdown page rendered to HTML.
    Markdown,
    /// The archive browser over the file's listing.
    ArchiveView,
    /// The video player page.
    Video,
    /// The audio player page.
    Audio,
    /// The listing of a public directory.
    Folder,
    /// The listing of a private directory.
    PrivateFolder,
    /// The details page of a downloadable file.
    Details,
    /// The raw file stream.
    Raw,
}

/// The dispatch rule over the synthesized extension: a directory carries
/// `folder` or `privatefolder`; viewers and players can be switched off,
/// which falls back to the raw stream; unknown extensions show details
/// only when they are on the downloadable list.
pub open spec fn dispatch_spec(
    ext: Seq<char>,
    viewers: bool,
    audio_player: bool,
    video_player: bool,
    extensions: Seq<Seq<char>>,
) -> PageKind {
    if ext == "md"@ {
        PageKind::Markdown
    } else if ext == "7z"@ || ext == "rar"@ || ext == "zip"@ {
        if viewers {
            PageKind::ArchiveView
        } else {
            PageKind::Raw
        }
    } else if ext == "mp4"@ {
        if viewers && video_player {
            PageKind::Video
        } else {
            PageKind::Raw
        }
    } else if ext == "mp3"@ || ext == "m4a"@ || ext == "m4b"@ || ext == "flac"@ || ext
        == "wav"@ {
        if viewers && audio_player {
            PageKind::Audio
        } else {
            PageKind::Raw
        }
    } else if ext == "folder"@ {
        PageKind::Folder
    } else if ext == "privatefolder"@ {
        PageKind::PrivateFolder
    } else if extensions.contains(ext) {
        PageKind::Details
    } else {
        PageKind::Raw
    }
}

/// Chooses the page for a resolved path, per `dispatch_spec`. `ext` is the
/// lowercased extension of a file, or the `folder` / `privatefolder`
/// marker of a directory; `extensions` is the configured downloadable
/// list.
pub fn index_dispatch(
    ext: &str,
    viewers: bool,
    audio_player: bool,
    video_player: bool,
    extensions: &Vec<String>,
) -> (r: PageKind)
    ensures
        r == dispatch_spec(ext@, viewers, audio_player, video_player, extensions.deep_view()),
{
    if str_eq(ext, "md") {
        PageKind::Markdown
    } else if str_eq(ext, "7z") || str_eq(ext, "rar") || str_eq(ext, "zip") {
        if viewers {
            PageKind::ArchiveView
        } else {
            PageKind::Raw
        }
    } else if str_eq(ext, "mp4") {
        if viewers && video_player {
            PageKind::Video
        } else {
            PageKind::Raw
        }
    } else if str_eq(ext, "mp3") || str_eq(ext, "m4a") || str_eq(ext, "m4b") || str_eq(
        ext,
        "flac",
    ) || str_eq(ext, "wav") {
        if viewers && audio_player {
            PageKind::Audio
        } else {
            PageKind::Raw
        }
    } else if str_eq(ext, "folder") {
        PageKind::Folder
    } else if str_eq(ext, "privatefolder") {
        PageKind::PrivateFolder
    } else if crate::text::contains_str(extensions, ext) {
        PageKind::Details
    } else {
        PageKind::Raw
    }
}

} // verus!
