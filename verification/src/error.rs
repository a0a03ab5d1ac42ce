//! The ways in which a padded stream fails of itself, apart from failures of
//! the stream that carries it.

use vstd::prelude::*;

verus! {

/// The category of an error.
#[derive(Copy, Clone, Debug, Eq, PartialEq, Structural)]
pub enum ErrorKind {
    UnexpectedEof,
    BrokenPipe,
}

/// A failure of a padded stream.
#[derive(Copy, Clone, Debug, Eq, PartialEq, Structural)]
pub enum PaddingError {
    /// The stream ended inside a frame.
    TruncatedFrame,
    /// Data was written after the end of the stream had been requested.
    WriteAfterEof,
    /// The end of the stream was requested a second time.
    RepeatedEof,
}

impl PaddingError {
    /// The category that the error belongs to.
    pub fn kind(self) -> (kind: ErrorKind)
        ensures
            kind == (match self {
                PaddingError::TruncatedFrame => ErrorKind::UnexpectedEof,
                PaddingError::WriteAfterEof => ErrorKind::BrokenPipe,
                PaddingError::RepeatedEof => ErrorKind::BrokenPipe,
            }),
    {
        match self {
            PaddingError::TruncatedFrame => ErrorKind::UnexpectedEof,
            PaddingError::WriteAfterEof => ErrorKind::BrokenPipe,
            PaddingError::RepeatedEof => ErrorKind::BrokenPipe,
        }
    }

    /// What to say of the error, where its category does not say it all.
    pub fn message(self) -> (message: Option<&'static str>)
        ensures
            message == (match self {
                PaddingError::TruncatedFrame => None,
                PaddingError::WriteAfterEof => Some("Cannot write after EOF"),
                PaddingError::RepeatedEof => Some("EOF has already been requested"),
            }),
    {
        match self {
            PaddingError::TruncatedFrame => None,
            PaddingError::WriteAfterEof => Some("Cannot write after EOF"),
            PaddingError::RepeatedEof => Some("EOF has already been requested"),
        }
    }
}

} // verus!
