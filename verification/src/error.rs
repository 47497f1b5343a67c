//! What can go wrong while an archive is read or built.

use vstd::prelude::*;

verus! {

/// A failure in the I/O domain.
#[derive(Debug, PartialEq, Eq)]
pub enum IoError {
    /// The source ended before the bytes asked for were read.
    UnexpectedEof,
    /// A decoder gave up; the text is the decoder's own message.
    Other(String),
}

/// Why a run of bytes is not the record that was expected.
#[derive(Debug, Clone, Copy, PartialEq, Eq, Structural)]
pub enum ParseFault {
    /// A fixed field does not hold the bytes it must hold.
    Tag,
    /// The bytes end inside a field.
    Eof,
}

/// Why a run of bytes is not a UTF-16 text.
#[derive(Debug, Clone, Copy, PartialEq, Eq, Structural)]
pub enum Utf16Fault {
    /// The number of bytes is odd.
    UnevenBytes,
    /// A surrogate code unit stands without its partner.
    Malformed,
}

/// What ends the reading or the building of an archive. The variants that
/// hold a path are for the program around this library, which asks the file
/// system; the library itself reports the others.
#[derive(Debug, PartialEq, Eq)]
pub enum Error {
    /// The source ended too early, or a decoder failed.
    Io(IoError),
    /// A file does not lie below the directory that is packed.
    StripPrefix,
    /// The path to pack does not name a directory.
    NotDir(String),
    /// The output path is taken.
    OutputPathExists(String),
    /// The path of a file is not valid text.
    InvalidUnicode(String),
    /// The path has no last component to name the output after.
    CannotDetectDefaultName(String),
    /// The flags of a header are none of the known ones; the number is what
    /// the header holds.
    InvalidIroFlags(i32),
    /// The version of a header is none of the known ones; the number is what
    /// the header holds.
    InvalidIroVersion(i32),
    /// The bytes are not laid out as a header or a record.
    CannotParseBinary(ParseFault),
    /// The compression flag of a record is none of the known ones; the number
    /// is what the record holds.
    InvalidFileFlags(i32),
    /// The path of a record is not UTF-16.
    InvalidUtf16(Utf16Fault),
    /// The path of a file to write has no parent directory.
    ParentPathDoesNotExist(String),
}

/// An [`IoError`] with its text as a sequence of characters.
pub enum IoErrorView {
    UnexpectedEof,
    Other(Seq<char>),
}

/// An [`Error`] with its texts as sequences of characters.
pub enum ErrorView {
    Io(IoErrorView),
    StripPrefix,
    NotDir(Seq<char>),
    OutputPathExists(Seq<char>),
    InvalidUnicode(Seq<char>),
    CannotDetectDefaultName(Seq<char>),
    InvalidIroFlags(i32),
    InvalidIroVersion(i32),
    CannotParseBinary(ParseFault),
    InvalidFileFlags(i32),
    InvalidUtf16(Utf16Fault),
    ParentPathDoesNotExist(Seq<char>),
}

impl View for IoError {
    type V = IoErrorView;

    open spec fn view(&self) -> IoErrorView {
        match self {
            IoError::UnexpectedEof => IoErrorView::UnexpectedEof,
            IoError::Other(text) => IoErrorView::Other(text@),
        }
    }
}

impl View for Error {
    type V = ErrorView;

    open spec fn view(&self) -> ErrorView {
        match self {
            Error::Io(e) => ErrorView::Io(e@),
            Error::StripPrefix => ErrorView::StripPrefix,
            Error::NotDir(p) => ErrorView::NotDir(p@),
            Error::OutputPathExists(p) => ErrorView::OutputPathExists(p@),
            Error::InvalidUnicode(p) => ErrorView::InvalidUnicode(p@),
            Error::CannotDetectDefaultName(p) => ErrorView::CannotDetectDefaultName(p@),
            Error::InvalidIroFlags(v) => ErrorView::InvalidIroFlags(*v),
            Error::InvalidIroVersion(v) => ErrorView::InvalidIroVersion(*v),
            Error::CannotParseBinary(f) => ErrorView::CannotParseBinary(*f),
            Error::InvalidFileFlags(v) => ErrorView::InvalidFileFlags(*v),
            Error::InvalidUtf16(f) => ErrorView::InvalidUtf16(*f),
            Error::ParentPathDoesNotExist(p) => ErrorView::ParentPathDoesNotExist(p@),
        }
    }
}

} // verus!
