use vstd::prelude::*;
use vstd::string::*;
use vstd::utf8::*;

use crate::util::{find_from, lemma_first_from_props, occurs_at};

verus! {

/// What went wrong while reading, parsing or forwarding a message.
#[derive(Debug, PartialEq, Eq)]
pub enum TcpIpError {
    /// The buffered input did not hold a complete header block.
    DataTimeout,
    /// The socket timed out or reported the connection as gone: the end of a keep-alive.
    TcpTimeout,
    /// Any other failure, described in words.
    Other(String),
}

/// The kinds of socket failure that the error classification tells apart.
#[derive(Debug, Clone, Copy, PartialEq, Eq, Structural)]
pub enum IoKind {
    WouldBlock,
    TimedOut,
    Other,
}

/// The text by which the operating system reports an aborted connection.
pub open spec fn abort_marker() -> Seq<char> {
    seq!['(', 'o', 's', ' ', 'e', 'r', 'r', 'o', 'r', ' ', '1', '0', '0', '5', '3', ')']
}

/// Whether `text`'s encoding contains that of `marker`.
pub open spec fn mentions(text: Seq<char>, marker: Seq<char>) -> bool {
    exists|i: int| occurs_at(encode_utf8(text), encode_utf8(marker), i)
}

/// A socket failure of kind `kind`, described by `message`, counts as a TCP timeout.
pub open spec fn is_timeout_failure(kind: IoKind, message: Seq<char>) -> bool {
    kind == IoKind::WouldBlock || kind == IoKind::TimedOut || mentions(message, abort_marker())
}

/// `e` is how a socket failure of kind `kind`, described by `message`, is
/// classified: a TCP timeout, or else an error that keeps the description.
pub open spec fn classifies(kind: IoKind, message: Seq<char>, e: TcpIpError) -> bool {
    if is_timeout_failure(kind, message) {
        e == TcpIpError::TcpTimeout
    } else {
        e matches TcpIpError::Other(m) && m@ == message
    }
}

impl TcpIpError {
    pub fn new(msg: &str) -> (r: Self)
        ensures
            r matches TcpIpError::Other(m) && m@ == msg@,
    {
        TcpIpError::Other(msg.to_owned())
    }

    /// Classifies a socket failure: timeouts and aborted connections are the
    /// end of a keep-alive, anything else keeps its description.
    pub fn from_io(kind: IoKind, message: &str) -> (r: Self)
        ensures
            classifies(kind, message@, r),
    {
        if kind == IoKind::WouldBlock || kind == IoKind::TimedOut {
            return TcpIpError::TcpTimeout;
        }
        let marker = "(os error 10053)";
        proof {
            reveal_strlit("(os error 10053)");
            assert(marker@ =~= abort_marker());
        }
        let text = message.as_bytes();
        let pat = marker.as_bytes();
        proof {
            lemma_first_from_props(text@, pat@, 0);
            vstd::utf8::is_ascii_chars_encode_utf8(abort_marker());
        }
        if pat.len() > text.len() {
            assert forall|i: int| !occurs_at(text@, pat@, i) by {}
            return TcpIpError::Other(message.to_owned());
        }
        match find_from(text, pat, 0) {
            Some(_) => TcpIpError::TcpTimeout,
            None => TcpIpError::Other(message.to_owned()),
        }
    }

    pub fn is_tcp_timeout(&self) -> (r: bool)
        ensures
            r == (*self == TcpIpError::TcpTimeout),
    {
        match self {
            TcpIpError::TcpTimeout => true,
            _ => false,
        }
    }

    /// The description of the error, as it is logged.
    pub fn message(&self) -> (r: String)
        ensures
            self matches TcpIpError::Other(m) ==> r@ == m@,
            *self == TcpIpError::DataTimeout ==> r@ == "Data Timed out"@,
            *self == TcpIpError::TcpTimeout ==> r@ == "TCP Socket Timed out"@,
    {
        match self {
            TcpIpError::DataTimeout => "Data Timed out".to_owned(),
            TcpIpError::TcpTimeout => "TCP Socket Timed out".to_owned(),
            TcpIpError::Other(m) => m.clone(),
        }
    }
}

} // verus!
