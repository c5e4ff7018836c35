//! Errors of the client.
use vstd::prelude::*;
use crate::text::{chars_of, push_decimal, push_str, string_from_chars, decimal, owned, concat};

verus! {

/// The kind of an input/output error, as far as the client tells kinds apart.
#[derive(Debug, Clone, Copy, PartialEq, Eq, Structural)]
pub enum IoErrorKind {
    ConnectionReset,
    ConnectionAborted,
    BrokenPipe,
    ConnectionRefused,
    TimedOut,
    UnexpectedEof,
    NotConnected,
    Other,
}

/// An input/output error: its kind and the text it shows.
#[derive(Debug, Clone, PartialEq, Eq)]
pub struct IoError {
    pub kind: IoErrorKind,
    pub message: String,
}

/// An error the server reported: its code and detail.
#[derive(Debug, Clone, PartialEq, Eq)]
pub struct ServerError {
    pub code: u32,
    pub detail: String,
}

/// An error of the client.
#[derive(Debug, Clone, PartialEq, Eq)]
pub enum Error {
    ClientClosed,
    ContextNotFound,
    TurnNotFound,
    InvalidResponse(String),
    Server(ServerError),
    Io(IoError),
    Tls(String),
    Timeout,
    Cancelled,
    QueueFull,
}

/// The mathematical form of an [`Error`].
pub enum SpecError {
    ClientClosed,
    ContextNotFound,
    TurnNotFound,
    InvalidResponse(Seq<char>),
    Server(u32, Seq<char>),
    Io(IoErrorKind, Seq<char>),
    Tls(Seq<char>),
    Timeout,
    Cancelled,
    QueueFull,
}

impl View for Error {
    type V = SpecError;

    open spec fn view(&self) -> SpecError {
        match self {
            Error::ClientClosed => SpecError::ClientClosed,
            Error::ContextNotFound => SpecError::ContextNotFound,
            Error::TurnNotFound => SpecError::TurnNotFound,
            Error::InvalidResponse(m) => SpecError::InvalidResponse(m@),
            Error::Server(e) => SpecError::Server(e.code, e.detail@),
            Error::Io(e) => SpecError::Io(e.kind, e.message@),
            Error::Tls(m) => SpecError::Tls(m@),
            Error::Timeout => SpecError::Timeout,
            Error::Cancelled => SpecError::Cancelled,
            Error::QueueFull => SpecError::QueueFull,
        }
    }
}

/// The text a server error shows.
pub open spec fn server_error_text(code: u32, detail: Seq<char>) -> Seq<char> {
    "cxdb server error "@ + decimal(code as nat) + ": "@ + detail
}

/// The text an error shows.
pub open spec fn error_text(e: SpecError) -> Seq<char> {
    match e {
        SpecError::ClientClosed => "cxdb: client closed"@,
        SpecError::ContextNotFound => "cxdb: context not found"@,
        SpecError::TurnNotFound => "cxdb: turn not found"@,
        SpecError::InvalidResponse(m) => "cxdb: invalid response: "@ + m,
        SpecError::Server(code, detail) => server_error_text(code, detail),
        SpecError::Io(_, m) => "cxdb io: "@ + m,
        SpecError::Tls(m) => "cxdb tls: "@ + m,
        SpecError::Timeout => "cxdb: deadline exceeded"@,
        SpecError::Cancelled => "cxdb: request cancelled"@,
        SpecError::QueueFull => "cxdb: request queue full"@,
    }
}

impl ServerError {
    /// The text the error shows.
    pub fn to_display_string(&self) -> (r: String)
        ensures
            r@ == server_error_text(self.code, self.detail@),
    {
        let mut out = chars_of("cxdb server error ");
        push_decimal(&mut out, self.code as u64);
        push_str(&mut out, ": ");
        push_str(&mut out, self.detail.as_str());
        string_from_chars(out.as_slice())
    }
}

impl Error {
    pub fn invalid_response(msg: String) -> (e: Error)
        ensures
            e@ == SpecError::InvalidResponse(msg@),
    {
        Error::InvalidResponse(msg)
    }

    pub fn server(code: u32, detail: String) -> (e: Error)
        ensures
            e@ == SpecError::Server(code, detail@),
    {
        Error::Server(ServerError { code, detail })
    }

    /// The text the error shows.
    pub fn to_display_string(&self) -> (r: String)
        ensures
            r@ == error_text(self@),
    {
        match self {
            Error::ClientClosed => owned("cxdb: client closed"),
            Error::ContextNotFound => owned("cxdb: context not found"),
            Error::TurnNotFound => owned("cxdb: turn not found"),
            Error::InvalidResponse(m) => concat("cxdb: invalid response: ", m.as_str()),
            Error::Server(e) => e.to_display_string(),
            Error::Io(e) => concat("cxdb io: ", e.message.as_str()),
            Error::Tls(m) => concat("cxdb tls: ", m.as_str()),
            Error::Timeout => owned("cxdb: deadline exceeded"),
            Error::Cancelled => owned("cxdb: request cancelled"),
            Error::QueueFull => owned("cxdb: request queue full"),
        }
    }
}

/// Whether an error is a server error with this code.
pub fn is_server_error(err: &Error, code: u32) -> (r: bool)
    ensures
        r == (err@ matches SpecError::Server(c, _) && c == code),
{
    match err {
        Error::Server(e) => e.code == code,
        _ => false,
    }
}

} // verus!
