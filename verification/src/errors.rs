//! The error kinds that can abort a resolution run.

use vstd::prelude::*;

verus! {

/// Everything that can go wrong while expanding a path into tracks or while
/// submitting them. All kinds are terminal for the current invocation.
#[derive(Clone, Copy, Debug, PartialEq, Eq, Structural)]
pub enum Error {
    /// A filesystem operation (stat, open, read) failed.
    Io,
    /// The media-queue service reported a connection or protocol failure.
    Queue,
    /// A playlist line held an invalid percent-encoding or did not decode to
    /// valid text.
    Utf8,
    /// The user's home directory could not be determined while resolving a
    /// relative path.
    MissingHomeDir,
    /// The home directory is known but no per-user audio directory is
    /// available.
    MissingMusicDir,
    /// A resolved track path cannot be represented as a valid string for the
    /// wire protocol.
    NonUtf8TrackPath,
}

/// The description each error kind carries.
pub open spec fn message_spec(e: Error) -> Seq<char> {
    match e {
        Error::Io => "filesystem error"@,
        Error::Queue => "media queue error"@,
        Error::Utf8 => "invalid encoding in playlist line"@,
        Error::MissingHomeDir => "could not determine user folder"@,
        Error::MissingMusicDir => "could not determine music folder"@,
        Error::NonUtf8TrackPath => "non-UTF-8 track path"@,
    }
}

impl Error {
    /// A human-readable description of the error kind.
    pub fn message(&self) -> (r: &'static str)
        ensures
            r@ == message_spec(*self),
    {
        match self {
            Error::Io => "filesystem error",
            Error::Queue => "media queue error",
            Error::Utf8 => "invalid encoding in playlist line",
            Error::MissingHomeDir => "could not determine user folder",
            Error::MissingMusicDir => "could not determine music folder",
            Error::NonUtf8TrackPath => "non-UTF-8 track path",
        }
    }
}

} // verus!
