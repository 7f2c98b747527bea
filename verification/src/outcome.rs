//! What can come of compressing a file.

use vstd::prelude::*;
use vstd::string::*;

use crate::platform::Host;
use crate::text::joined;

verus! {

/// What happened to the file. Only an [`Error`] is a hard failure.
#[derive(Debug, Clone, Copy, PartialEq, Eq, Structural)]
#[allow(inconsistent_fields)]
pub enum Outcome {
    /// Applied, and the allocation on disk decreased.
    Compressed { before: u64, after: u64 },
    /// Applied, but the size on disk did not drop: incompressible, or smaller than
    /// a cluster. The content is the same and loads.
    NoGain { before: u64, after: u64 },
    /// Compressed before it was touched.
    AlreadyCompressed { before: u64 },
    /// This file system has no transparent compression of single files.
    Unsupported { reason: UnsupportedReason },
    /// Supported, but it could not be applied.
    Skipped { reason: SkipReason },
}

/// Why there is no transparent compression.
#[derive(Debug, Clone, Copy, PartialEq, Eq, Structural)]
pub enum UnsupportedReason {
    /// The file system has none.
    Filesystem,
    /// A network or overlay mount, where the signal is unreliable.
    NetworkOrOverlay,
    /// Built for a system without a backend.
    PlatformBuild,
}

/// Why compression was not applied.
#[derive(Debug, Clone, Copy, PartialEq, Eq, Structural)]
pub enum SkipReason {
    /// Read-only, or not owned.
    PermissionDenied,
    /// A write handle is held, a text file is busy, sharing is violated, or the file
    /// could not be locked.
    Busy,
    /// Immutable, and that was not toggled.
    Immutable,
    /// Encrypted.
    Encrypted,
    /// Applied, found wrong, and rolled back.
    IntegrityRevert,
    /// Applied, found not to load, and rolled back.
    NotLoadable,
    /// Over a limit of the backend.
    TooLarge,
}

/// Whether a file can be compressed where it is.
#[derive(Debug, Clone, Copy, PartialEq, Eq, Structural)]
pub enum Support {
    Supported,
    AlreadyCompressed,
    Unsupported(UnsupportedReason),
}

/// The kinds of I/O failure that the library tells apart.
#[derive(Debug, Clone, Copy, PartialEq, Eq, Structural)]
pub enum IoKind {
    NotFound,
    PermissionDenied,
    InvalidInput,
    InvalidData,
    Other,
}

/// A failed I/O operation.
#[derive(Debug, PartialEq, Eq)]
pub struct IoFailure {
    pub kind: IoKind,
    /// The error number of the operating system, where it gave one.
    pub raw_os_error: Option<i32>,
    pub message: String,
}

/// A genuine failure, which leaves the state of the file unknown. A missing
/// capability or permission is an [`Outcome`].
#[derive(Debug, PartialEq, Eq)]
pub enum Error {
    Io { context: &'static str, source: IoFailure },
    NotFound(String),
}

impl Error {
    /// The error's message.
    pub open spec fn text(self) -> Seq<char> {
        match self {
            Error::Io { context, source } => "io error at "@ + context@ + ": "@ + source.message@,
            Error::NotFound(path) => "file not found: "@ + path@,
        }
    }

    /// The error's message.
    pub fn message(&self) -> (r: String)
        ensures
            r@ == self.text(),
    {
        match self {
            Error::Io { context, source } => {
                let mut s: String = joined("io error at ", *context);
                s.append(": ");
                s.append(source.message.as_str());
                s
            },
            Error::NotFound(path) => joined("file not found: ", path.as_str()),
        }
    }

    /// The I/O failure behind the error, if there is one.
    pub fn source(&self) -> (r: Option<&IoFailure>)
        ensures
            match *self {
                Error::Io { context, source } => r == Some(&source),
                Error::NotFound(_) => r is None,
            },
    {
        match self {
            Error::Io { context: _, source } => Some(source),
            Error::NotFound(_) => None,
        }
    }
}

/// Wraps an operating system's error with its context.
pub fn io(context: &'static str, source: IoFailure) -> (r: Error)
    ensures
        r == (Error::Io { context, source }),
{
    Error::Io { context, source }
}

/// The reason to skip a file, for a failure that is none of the file's integrity:
/// a permission, a read-only file system, a busy file, or a size over the limit.
/// The kind of a failure is known on every system; the numbers are those that
/// Linux and macOS share, and on Windows a violation of sharing or of a lock.
pub open spec fn skip_reason(host: Host, kind: IoKind, code: Option<i32>) -> Option<SkipReason> {
    if kind == IoKind::PermissionDenied {
        Some(SkipReason::PermissionDenied)
    } else if host == Host::Windows && (code == Some(32i32) || code == Some(33i32)) {
        Some(SkipReason::Busy)
    } else {
        match code {
            Some(n) => if n == 1 || n == 13 || n == 30 {
                Some(SkipReason::PermissionDenied)
            } else if n == 16 || n == 26 {
                Some(SkipReason::Busy)
            } else if n == 27 {
                Some(SkipReason::TooLarge)
            } else {
                None
            },
            None => None,
        }
    }
}

/// The reason to skip a file for an I/O failure, or `None` for one that is a hard
/// error.
pub fn classify_skip(host: Host, err: &IoFailure) -> (r: Option<SkipReason>)
    ensures
        r == skip_reason(host, err.kind, err.raw_os_error),
{
    if err.kind == IoKind::PermissionDenied {
        return Some(SkipReason::PermissionDenied);
    }
    match err.raw_os_error {
        // EPERM, EACCES, EROFS
        Some(1) | Some(13) | Some(30) => Some(SkipReason::PermissionDenied),
        // EBUSY, ETXTBSY
        Some(16) | Some(26) => Some(SkipReason::Busy),
        // EFBIG
        Some(27) => Some(SkipReason::TooLarge),
        // ERROR_SHARING_VIOLATION, ERROR_LOCK_VIOLATION
        Some(32) | Some(33) => if host == Host::Windows {
            Some(SkipReason::Busy)
        } else {
            None
        },
        _ => None,
    }
}

/// What the facts after compressing come to: a file that no longer loads was
/// skipped; else the backend's signal decides, or where it has none, whether the
/// allocation dropped.
pub open spec fn outcome_of(
    loadable: bool,
    before: u64,
    after: u64,
    signal: Option<bool>,
) -> Outcome {
    if !loadable {
        Outcome::Skipped { reason: SkipReason::NotLoadable }
    } else if (match signal {
        Some(compressed) => compressed,
        None => after < before,
    }) {
        Outcome::Compressed { before, after }
    } else {
        Outcome::NoGain { before, after }
    }
}

/// What the facts after compressing come to.
pub fn classify_outcome(loadable: bool, before: u64, after: u64, signal: Option<bool>) -> (r:
    Outcome)
    ensures
        r == outcome_of(loadable, before, after, signal),
{
    if !loadable {
        return Outcome::Skipped { reason: SkipReason::NotLoadable };
    }
    let won: bool = match signal {
        Some(compressed) => compressed,
        None => after < before,
    };
    if won {
        Outcome::Compressed { before, after }
    } else {
        Outcome::NoGain { before, after }
    }
}

/// A failure for want of permission is one on every system, whatever its number. Else the
/// number decides: 1, 13 and 30 are permissions, 16 and 26 a busy file, 27 a file that is
/// too large, and on Windows 32 and 33 a busy file, too. Any other failure is no reason
/// to skip a file.
pub proof fn law_skip_by_kind_and_number(host: Host, kind: IoKind, code: Option<i32>)
    ensures
        kind == IoKind::PermissionDenied ==> skip_reason(host, kind, code) == Some(
            SkipReason::PermissionDenied,
        ),
        kind != IoKind::PermissionDenied ==> {
            let denied = code == Some(1i32) || code == Some(13i32) || code == Some(30i32);
            let busy = code == Some(16i32) || code == Some(26i32) || (host == Host::Windows && (code
                == Some(32i32) || code == Some(33i32)));
            let large = code == Some(27i32);
            &&& denied ==> skip_reason(host, kind, code) == Some(SkipReason::PermissionDenied)
            &&& busy ==> skip_reason(host, kind, code) == Some(SkipReason::Busy)
            &&& large ==> skip_reason(host, kind, code) == Some(SkipReason::TooLarge)
            &&& !denied && !busy && !large ==> skip_reason(host, kind, code) is None
        },
{
}

/// A file that does not load was skipped. One that does is compressed where the backend
/// says so, and without its word exactly where it takes less room than before, by however
/// little; the two sizes are reported as they are.
pub proof fn law_smaller_is_compressed(before: u64, after: u64, signal: Option<bool>)
    ensures
        outcome_of(false, before, after, signal) == (Outcome::Skipped {
            reason: SkipReason::NotLoadable,
        }),
        outcome_of(true, before, after, Some(true)) == (Outcome::Compressed { before, after }),
        outcome_of(true, before, after, Some(false)) == (Outcome::NoGain { before, after }),
        after < before <==> outcome_of(true, before, after, None) == (Outcome::Compressed {
            before,
            after,
        }),
        before <= after <==> outcome_of(true, before, after, None) == (Outcome::NoGain {
            before,
            after,
        }),
{
}

/// An error's message has its context and what the system said of it, or the path that is
/// missing.
pub proof fn law_error_says_what_and_where(context: &'static str, source: IoFailure, path: String)
    ensures
        (Error::Io { context, source }).text() == "io error at "@ + context@ + ": "@
            + source.message@,
        Error::NotFound(path).text() == "file not found: "@ + path@,
{
}

/// A wrapped failure can be taken out again; a missing file has none.
pub proof fn law_wrapped_failure_is_kept(
    context: &'static str,
    failure: IoFailure,
    path: String,
    e: Error,
    inner: Option<&IoFailure>,
    missing: Option<&IoFailure>,
)
    requires
        call_ensures(io, (context, failure), e),
        call_ensures(Error::source, (&e,), inner),
        call_ensures(Error::source, (&Error::NotFound(path),), missing),
    ensures
        e == (Error::Io { context, source: failure }),
        inner == Some(&failure),
        missing is None,
{
}

} // verus!
