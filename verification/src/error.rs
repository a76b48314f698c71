//! Parse errors as the sink records them.
use vstd::prelude::*;

verus! {

/// One parse error: the message, and the source line that was current when
/// the error was reported.
#[derive(Debug, PartialEq, Eq)]
pub struct Error {
    pub line: u64,
    pub msg: String,
}

/// What an [`Error`] is in contracts: its line and the characters of its
/// message.
pub struct ErrorView {
    pub line: u64,
    pub msg: Seq<char>,
}

impl View for Error {
    type V = ErrorView;

    open spec fn view(&self) -> ErrorView {
        ErrorView { line: self.line, msg: self.msg@ }
    }
}

impl Clone for Error {
    fn clone(&self) -> (r: Self)
        ensures
            r@ == self@,
    {
        Error { line: self.line, msg: self.msg.clone() }
    }
}

impl Error {
    /// An error with message `msg`, reported while `line` was current.
    pub fn new(line: u64, msg: String) -> (e: Self)
        ensures
            e@ == (ErrorView { line, msg: msg@ }),
    {
        Error { line, msg }
    }

    /// The line that was current when the error was reported.
    pub fn line(&self) -> (l: u64)
        ensures
            l == self@.line,
    {
        self.line
    }

    /// The message of the error.
    pub fn message(&self) -> (m: &str)
        ensures
            m@ == self@.msg,
    {
        self.msg.as_str()
    }
}

/// The views of a log of errors, in order.
pub open spec fn log_view(log: Seq<Error>) -> Seq<ErrorView> {
    log.map_values(|e: Error| e@)
}

} // verus!
