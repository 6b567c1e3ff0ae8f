//! Workspace-wide error type.
use crate::text::{chars_of, find_str, find_sub, lower_seq, lower_vec, push_str, string_of};
use vstd::prelude::*;

verus! {

/// Errors produced by configuration, engine and CLI layers.
#[derive(Debug, Clone, PartialEq, Eq)]
pub enum SniffError {
    UnknownCategory(String),
    InvalidWaitStrategy(String),
    InvalidReadyCondition(String),
    InvalidAction(String),
    InvalidOutputFormat(String),
    InvalidFilter(String),
    NoMatch { selector: String },
    Timeout(String),
    Cdp(String),
    Browser(String),
    Serialization(String),
    Other(String),
}

/// Which variant an error is, without its payload.
#[derive(Debug, Clone, Copy, PartialEq, Eq, Structural)]
pub enum ErrorKind {
    UnknownCategory,
    InvalidWaitStrategy,
    InvalidReadyCondition,
    InvalidAction,
    InvalidOutputFormat,
    InvalidFilter,
    NoMatch,
    Timeout,
    Cdp,
    Browser,
    Serialization,
    Other,
}

/// An error is its kind and the characters of its payload (the selector
/// for `NoMatch`).
impl View for SniffError {
    type V = (ErrorKind, Seq<char>);

    open spec fn view(&self) -> (ErrorKind, Seq<char>) {
        match self {
            SniffError::UnknownCategory(s) => (ErrorKind::UnknownCategory, s@),
            SniffError::InvalidWaitStrategy(s) => (ErrorKind::InvalidWaitStrategy, s@),
            SniffError::InvalidReadyCondition(s) => (ErrorKind::InvalidReadyCondition, s@),
            SniffError::InvalidAction(s) => (ErrorKind::InvalidAction, s@),
            SniffError::InvalidOutputFormat(s) => (ErrorKind::InvalidOutputFormat, s@),
            SniffError::InvalidFilter(s) => (ErrorKind::InvalidFilter, s@),
            SniffError::NoMatch { selector } => (ErrorKind::NoMatch, selector@),
            SniffError::Timeout(s) => (ErrorKind::Timeout, s@),
            SniffError::Cdp(s) => (ErrorKind::Cdp, s@),
            SniffError::Browser(s) => (ErrorKind::Browser, s@),
            SniffError::Serialization(s) => (ErrorKind::Serialization, s@),
            SniffError::Other(s) => (ErrorKind::Other, s@),
        }
    }
}

/// The human-readable text of an error of kind `k` with payload `s`
/// (what its `Display` shows).
pub open spec fn kind_text(k: ErrorKind, s: Seq<char>) -> Seq<char> {
    match k {
        ErrorKind::UnknownCategory => "unknown style category: "@ + s,
        ErrorKind::InvalidWaitStrategy => "invalid wait strategy: "@ + s,
        ErrorKind::InvalidReadyCondition => "invalid ready condition: "@ + s,
        ErrorKind::InvalidAction => "invalid action: "@ + s,
        ErrorKind::InvalidOutputFormat => "invalid output format: "@ + s,
        ErrorKind::InvalidFilter => "invalid filter: "@ + s,
        ErrorKind::NoMatch => "no elements matched selector `"@ + s + "`"@,
        ErrorKind::Timeout => "timeout while waiting for "@ + s,
        ErrorKind::Cdp => "CDP error: "@ + s,
        ErrorKind::Browser => "browser error: "@ + s,
        ErrorKind::Serialization => "serialization error: "@ + s,
        ErrorKind::Other => s,
    }
}

/// The human-readable text of an error (what its `Display` shows).
pub open spec fn error_text(e: SniffError) -> Seq<char> {
    kind_text(e@.0, e@.1)
}

impl SniffError {
    /// The human-readable text of the error.
    pub fn message(&self) -> (r: String)
        ensures
            r@ == error_text(*self),
    {
        let mut v: Vec<char> = Vec::new();
        match self {
            SniffError::UnknownCategory(s) => {
                push_str(&mut v, "unknown style category: ");
                push_str(&mut v, s.as_str());
            },
            SniffError::InvalidWaitStrategy(s) => {
                push_str(&mut v, "invalid wait strategy: ");
                push_str(&mut v, s.as_str());
            },
            SniffError::InvalidReadyCondition(s) => {
                push_str(&mut v, "invalid ready condition: ");
                push_str(&mut v, s.as_str());
            },
            SniffError::InvalidAction(s) => {
                push_str(&mut v, "invalid action: ");
                push_str(&mut v, s.as_str());
            },
            SniffError::InvalidOutputFormat(s) => {
                push_str(&mut v, "invalid output format: ");
                push_str(&mut v, s.as_str());
            },
            SniffError::InvalidFilter(s) => {
                push_str(&mut v, "invalid filter: ");
                push_str(&mut v, s.as_str());
            },
            SniffError::NoMatch { selector } => {
                push_str(&mut v, "no elements matched selector `");
                push_str(&mut v, selector.as_str());
                push_str(&mut v, "`");
            },
            SniffError::Timeout(s) => {
                push_str(&mut v, "timeout while waiting for ");
                push_str(&mut v, s.as_str());
            },
            SniffError::Cdp(s) => {
                push_str(&mut v, "CDP error: ");
                push_str(&mut v, s.as_str());
            },
            SniffError::Browser(s) => {
                push_str(&mut v, "browser error: ");
                push_str(&mut v, s.as_str());
            },
            SniffError::Serialization(s) => {
                push_str(&mut v, "serialization error: ");
                push_str(&mut v, s.as_str());
            },
            SniffError::Other(s) => {
                push_str(&mut v, s.as_str());
            },
        }
        string_of(v)
    }
}

/// Whether `needle` occurs in `s`.
pub open spec fn occurs_in(s: Seq<char>, needle: Seq<char>) -> bool {
    find_sub(s, needle) is Some
}

/// A CDP or browser error whose lowercased text mentions the websocket,
/// a closed or lost connection, or an end of file: the transport died.
pub open spec fn transport_failure(e: SniffError) -> bool {
    let t = lower_seq(error_text(e));
    &&& (e is Cdp || e is Browser)
    &&& (occurs_in(t, "websocket"@) || occurs_in(t, "connection closed"@) || occurs_in(
        t,
        "connection lost"@,
    ) || occurs_in(t, "closed"@) || occurs_in(t, "eof"@))
}

/// Whether a failed run means the browser connection itself is gone, so
/// relaunching the browser is worthwhile.
pub fn is_transport_error(e: &SniffError) -> (r: bool)
    ensures
        r == transport_failure(*e),
{
    let kind_ok = match e {
        SniffError::Cdp(_) => true,
        SniffError::Browser(_) => true,
        _ => false,
    };
    if !kind_ok {
        return false;
    }
    let m = e.message();
    let t = lower_vec(&chars_of(m.as_str()));
    find_str(&t, "websocket").is_some() || find_str(&t, "connection closed").is_some() || find_str(
        &t,
        "connection lost",
    ).is_some() || find_str(&t, "closed").is_some() || find_str(&t, "eof").is_some()
}

} // verus!
