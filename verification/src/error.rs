//! The error taxonomy of the mail core.

use crate::text::{push_str, string_of};
use vstd::prelude::*;

verus! {

/// Why an operation of the core failed.
#[derive(Debug)]
pub enum Error {
    /// Malformed range, flag list or URI; carries the offending token.
    Parse(String),
    /// The session could not be opened: authentication was refused.
    Connection,
    /// The server rejected a command; carries its message.
    Protocol(String),
    /// An addressed sequence number or mailbox does not exist.
    NotFound,
    /// The message could not be handed to the delivery service.
    Delivery,
    /// The operation is not allowed in the session's current state.
    InvalidState,
}

/// The mathematical value of an [`Error`].
pub ghost enum ErrorView {
    Parse(Seq<char>),
    Connection,
    Protocol(Seq<char>),
    NotFound,
    Delivery,
    InvalidState,
}

impl View for Error {
    type V = ErrorView;

    open spec fn view(&self) -> ErrorView {
        match self {
            Error::Parse(token) => ErrorView::Parse(token@),
            Error::Connection => ErrorView::Connection,
            Error::Protocol(message) => ErrorView::Protocol(message@),
            Error::NotFound => ErrorView::NotFound,
            Error::Delivery => ErrorView::Delivery,
            Error::InvalidState => ErrorView::InvalidState,
        }
    }
}

/// The message that an error is reported with: what went wrong, and for
/// a parse error the offending token, for a protocol error the server's
/// message as it came.
pub open spec fn error_text(e: ErrorView) -> Seq<char> {
    match e {
        ErrorView::Parse(token) => "cannot parse: "@ + token,
        ErrorView::Connection => "cannot open the session: login refused"@,
        ErrorView::Protocol(message) => message,
        ErrorView::NotFound => "no such message or mailbox"@,
        ErrorView::Delivery => "cannot deliver the message"@,
        ErrorView::InvalidState => "the session is in the wrong state for this"@,
    }
}

impl Error {
    /// The message to report the error with.
    pub fn describe(&self) -> (r: String)
        ensures
            r@ == error_text(self@),
    {
        match self {
            Error::Parse(token) => {
                let mut out: Vec<char> = Vec::new();
                push_str(&mut out, "cannot parse: ");
                push_str(&mut out, token.as_str());
                assert(out@.subrange(0, out@.len() as int) == out@);
                string_of(&out, 0, out.len())
            },
            Error::Connection => String::from_str("cannot open the session: login refused"),
            Error::Protocol(message) => message.clone(),
            Error::NotFound => String::from_str("no such message or mailbox"),
            Error::Delivery => String::from_str("cannot deliver the message"),
            Error::InvalidState => String::from_str("the session is in the wrong state for this"),
        }
    }
}

} // verus!
