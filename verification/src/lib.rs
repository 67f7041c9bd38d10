use vstd::prelude::*;

pub mod paths;
pub mod resolve;
pub mod size_index;
pub mod visibility;
pub mod quota;
pub mod listing;
pub mod session;
pub mod config;
pub mod markup;
pub mod urls;
pub mod format;
pub mod i18n;
pub mod jwt;
pub mod responders;
pub mod account;
pub mod api;
pub mod archive;
pub mod dispatch;
pub mod text;

verus! {

/// HTTP-style outcome of an operation in the mirror core, mirroring the
/// status vocabulary of the serving boundary.
#[derive(Clone, Copy, Debug, PartialEq, Eq, Structural)]
pub enum Status {
    BadRequest,
    Unauthorized,
    Forbidden,
    NotFound,
    NotAcceptable,
    Conflict,
    UnprocessableEntity,
    InternalServerError,
    InsufficientStorage,
}

/// The filesystem failure classes that matter to the boundary.
#[derive(Clone, Copy, Debug, PartialEq, Eq, Structural)]
pub enum IoErrorKind {
    NotFound,
    PermissionDenied,
    StorageFull,
    Other,
}

/// Maps a filesystem failure onto the boundary's status vocabulary:
/// absence, denial and exhaustion keep their meaning, and everything else
/// is an internal error.
pub fn map_io_error_to_status(e: IoErrorKind) -> (r: Status)
    ensures
        r == (match e {
            IoErrorKind::NotFound => Status::NotFound,
            IoErrorKind::PermissionDenied => Status::Forbidden,
            IoErrorKind::StorageFull => Status::InsufficientStorage,
            IoErrorKind::Other => Status::InternalServerError,
        }),
{
    match e {
        IoErrorKind::NotFound => Status::NotFound,
        IoErrorKind::PermissionDenied => Status::Forbidden,
        IoErrorKind::StorageFull => Status::InsufficientStorage,
        IoErrorKind::Other => Status::InternalServerError,
    }
}

} // verus!
