//! Short messages for failed file and process operations.
use vstd::prelude::*;

verus! {

/// The kinds of I/O failure that get a message of their own.
#[derive(Clone, Copy, Debug, PartialEq, Eq, Structural)]
pub enum IoErrorKind {
    NotFound,
    PermissionDenied,
    AlreadyExists,
    /// Any other kind of failure.
    Other,
}

/// The message shown for an I/O failure of the given kind.
pub open spec fn clean_io_spec(kind: IoErrorKind) -> Seq<char> {
    match kind {
        IoErrorKind::NotFound => "not found"@,
        IoErrorKind::PermissionDenied => "permission denied"@,
        IoErrorKind::AlreadyExists => "already exists"@,
        IoErrorKind::Other => "failed"@,
    }
}

/// Turns an I/O failure into a short message.
pub fn clean_io(kind: IoErrorKind) -> (r: String)
    ensures
        r@ == clean_io_spec(kind),
{
    match kind {
        IoErrorKind::NotFound => "not found".to_string(),
        IoErrorKind::PermissionDenied => "permission denied".to_string(),
        IoErrorKind::AlreadyExists => "already exists".to_string(),
        IoErrorKind::Other => "failed".to_string(),
    }
}

} // verus!
