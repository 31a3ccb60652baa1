//! Errors produced by the core library.
use vstd::prelude::*;
use crate::text::{dec, push_dec, push_str};

verus! {

/// What the library reads of an operating-system I/O failure: whether it was
/// a permission refusal, the raw OS error code if there is one, and the text
/// the OS gave for it.
#[derive(Debug, Clone)]
pub struct IoFailure {
    pub permission_denied: bool,
    pub raw_os_error: Option<i32>,
    pub message: String,
}

/// Errors produced by the core library.
#[derive(Debug)]
pub enum Error {
    /// Underlying I/O failure with extra context.
    Io { context: String, source: IoFailure },
    /// The OS refused access, almost always "not running as root/Administrator".
    Permission(String),
    /// Disk enumeration failed (e.g. a helper command could not be run).
    Enumerate(String),
    /// The requested device could not be found among the connected disks.
    DeviceNotFound(String),
    /// The device is in use / locked and could not be opened or unmounted.
    Busy(String),
    /// The supplied image has an invalid size or shape.
    InvalidImage(String),
    /// Read-back verification mismatch at a given byte offset.
    VerifyMismatch { offset: u64 },
    /// Generic catch-all.
    Other(String),
}

pub type Result<T> = std::result::Result<T, Error>;

/// The text shown for an error, one line per variant.
pub open spec fn error_message(e: Error) -> Seq<char> {
    match e {
        Error::Io { context, source } => context@ + ": "@ + source.message@,
        Error::Permission(ctx) => "permission denied ("@ + ctx@
            + "). Re-run this tool with administrator rights (Windows: \"Run as administrator\"; macOS/Linux: prefix the command with sudo)."@,
        Error::Enumerate(m) => "could not list disks: "@ + m@,
        Error::DeviceNotFound(m) => "device not found: "@ + m@,
        Error::Busy(m) => "device is busy: "@ + m@,
        Error::InvalidImage(m) => "invalid image: "@ + m@,
        Error::VerifyMismatch { offset } => "verification failed: data differs at byte offset "@
            + dec(offset as nat),
        Error::Other(m) => m@,
    }
}

impl Error {
    /// Wraps an I/O failure with context. Permission-denied is mapped at the
    /// boundary so callers get a clear message.
    pub fn io(context: &str, source: IoFailure) -> (e: Error)
        ensures
            source.permission_denied ==> (e matches Error::Permission(c) && c@ == context@),
            !source.permission_denied ==> (e matches Error::Io { context: c, source: s } && c@
                == context@ && s == source),
    {
        if source.permission_denied {
            Error::Permission(String::from_str(context))
        } else {
            Error::Io { context: String::from_str(context), source }
        }
    }

    /// The human-readable text of this error.
    pub fn message(&self) -> (s: String)
        ensures
            s@ == error_message(*self),
    {
        let mut s = String::new();
        match self {
            Error::Io { context, source } => {
                push_str(&mut s, context.as_str());
                push_str(&mut s, ": ");
                push_str(&mut s, source.message.as_str());
            },
            Error::Permission(ctx) => {
                push_str(&mut s, "permission denied (");
                push_str(&mut s, ctx.as_str());
                push_str(
                    &mut s,
                    "). Re-run this tool with administrator rights (Windows: \"Run as administrator\"; macOS/Linux: prefix the command with sudo).",
                );
            },
            Error::Enumerate(m) => {
                push_str(&mut s, "could not list disks: ");
                push_str(&mut s, m.as_str());
            },
            Error::DeviceNotFound(m) => {
                push_str(&mut s, "device not found: ");
                push_str(&mut s, m.as_str());
            },
            Error::Busy(m) => {
                push_str(&mut s, "device is busy: ");
                push_str(&mut s, m.as_str());
            },
            Error::InvalidImage(m) => {
                push_str(&mut s, "invalid image: ");
                push_str(&mut s, m.as_str());
            },
            Error::VerifyMismatch { offset } => {
                push_str(&mut s, "verification failed: data differs at byte offset ");
                push_dec(&mut s, *offset);
            },
            Error::Other(m) => {
                push_str(&mut s, m.as_str());
            },
        }
        assert(s@ =~= error_message(*self));
        s
    }
}

} // verus!
