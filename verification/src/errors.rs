//! Failure values of the codec, the client and the server.

use vstd::prelude::*;

verus! {

/// Why a transport operation produced no datagram.
///
/// The transport itself lives outside this crate; whoever drives it reports its
/// failures in this form.
#[derive(Debug)]
pub enum SocketError {
    /// No datagram is ready yet. A wait treats this as an empty poll.
    WouldBlock,
    /// A wait passed its deadline; carries the microseconds that had elapsed.
    TimedOut(u64),
    /// Any other transport failure, with the transport's own description.
    Other(String),
}

/// Mathematical value of a [`SocketError`].
pub enum SocketErrorView {
    WouldBlock,
    TimedOut(u64),
    Other(Seq<char>),
}

impl View for SocketError {
    type V = SocketErrorView;

    open spec fn view(&self) -> SocketErrorView {
        match self {
            SocketError::WouldBlock => SocketErrorView::WouldBlock,
            SocketError::TimedOut(elapsed) => SocketErrorView::TimedOut(*elapsed),
            SocketError::Other(text) => SocketErrorView::Other(text@),
        }
    }
}

/// Everything that can go wrong while encoding, decoding or exchanging messages.
#[derive(Debug)]
pub enum Error {
    /// The named part of a datagram is not valid UTF-8.
    Utf8(String),
    /// A field of the first length was wanted, but the data ends at the second
    /// position; when encoding, a blob of the second length exceeds the first.
    DataLength(usize, usize),
    /// Data of the given length was expected and none arrived.
    NoData(usize),
    /// A type tag other than `i`, `f`, `s` and `b`.
    UnrecognisedTypeTag(char),
    /// A datagram of the first length is not a multiple of the second.
    Alignment(usize, usize),
    /// The named part of a datagram, or a value, does not have the required form.
    Malformed(String),
    /// The transport failed.
    Socket(SocketError),
    /// A blob announced a negative size.
    BlobSize(i32),
}

/// Mathematical value of an [`Error`].
pub enum ErrorView {
    Utf8(Seq<char>),
    DataLength(usize, usize),
    NoData(usize),
    UnrecognisedTypeTag(char),
    Alignment(usize, usize),
    Malformed(Seq<char>),
    Socket(SocketErrorView),
    BlobSize(i32),
}

impl View for Error {
    type V = ErrorView;

    open spec fn view(&self) -> ErrorView {
        match self {
            Error::Utf8(part) => ErrorView::Utf8(part@),
            Error::DataLength(expected, actual) => ErrorView::DataLength(*expected, *actual),
            Error::NoData(expected) => ErrorView::NoData(*expected),
            Error::UnrecognisedTypeTag(tag) => ErrorView::UnrecognisedTypeTag(*tag),
            Error::Alignment(length, multiple) => ErrorView::Alignment(*length, *multiple),
            Error::Malformed(part) => ErrorView::Malformed(part@),
            Error::Socket(e) => ErrorView::Socket(e@),
            Error::BlobSize(size) => ErrorView::BlobSize(*size),
        }
    }
}

} // verus!
