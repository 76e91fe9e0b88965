//! What can go wrong while an archive is decoded.

use vstd::prelude::*;

verus! {

/// The text fields of a header.
#[derive(Debug, Clone, Copy, PartialEq, Eq)]
pub enum TextField {
    /// The entry's path.
    Name,
    /// The owner's user name.
    Uname,
    /// The owner's group name.
    Gname,
}

/// The reason a decode stopped.
#[derive(Debug, Clone, PartialEq, Eq)]
pub enum TarError {
    /// The input ended inside a block, or before the end of the archive.
    Io,
    /// The magic field holds neither accepted spelling of `ustar`.
    InvalidMagic,
    /// A text field has no NUL within its width, or the bytes before the
    /// NUL are not UTF-8.
    InvalidText(TextField),
    /// The size field is not a NUL-terminated run of octal digits.
    InvalidSize,
    /// The type flag is none of the known ones.
    InvalidTypeFlag,
    /// The destination refused to open the entry; its message.
    DestinationOpen(String),
    /// The writer refused a chunk; its message.
    DestinationWrite(String),
    /// The destination refused to commit the entry; its message.
    DestinationCommit(String),
}

impl TarError {
    /// Whether the error was raised by the destination rather than by the
    /// archive's bytes.
    pub open spec fn from_destination(self) -> bool {
        self is DestinationOpen || self is DestinationWrite || self is DestinationCommit
    }

    /// Whether the error was raised by the destination.
    pub fn is_from_destination(&self) -> (r: bool)
        ensures
            r == self.from_destination(),
    {
        match self {
            TarError::DestinationOpen(_) => true,
            TarError::DestinationWrite(_) => true,
            TarError::DestinationCommit(_) => true,
            _ => false,
        }
    }
}

/// What a decoder makes of a destination's answer to opening an entry: the
/// writer, or the destination's message as an error of opening.
pub fn opened<W>(answer: Result<W, String>) -> (r: Result<W, TarError>)
    ensures
        match answer {
            Ok(writer) => r == Ok::<W, TarError>(writer),
            Err(message) => r == Err::<W, TarError>(TarError::DestinationOpen(message)),
        },
{
    match answer {
        Ok(writer) => Ok(writer),
        Err(message) => Err(TarError::DestinationOpen(message)),
    }
}

/// What a decoder makes of a writer's answer to a chunk: nothing, or the
/// writer's message as an error of writing.
pub fn written(answer: Result<(), String>) -> (r: Result<(), TarError>)
    ensures
        match answer {
            Ok(()) => r == Ok::<(), TarError>(()),
            Err(message) => r == Err::<(), TarError>(TarError::DestinationWrite(message)),
        },
{
    match answer {
        Ok(()) => Ok(()),
        Err(message) => Err(TarError::DestinationWrite(message)),
    }
}

/// What a decoder makes of a destination's answer to a commit: nothing, or
/// the destination's message as an error of committing.
pub fn committed(answer: Result<(), String>) -> (r: Result<(), TarError>)
    ensures
        match answer {
            Ok(()) => r == Ok::<(), TarError>(()),
            Err(message) => r == Err::<(), TarError>(TarError::DestinationCommit(message)),
        },
{
    match answer {
        Ok(()) => Ok(()),
        Err(message) => Err(TarError::DestinationCommit(message)),
    }
}

} // verus!
