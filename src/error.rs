use vstd::prelude::*;

use crate::text::{decimal, push_decimal};

verus! {

/// A non-fatal diagnostic raised while scanning.
#[derive(Clone, Debug, PartialEq)]
pub struct ExecutionError {
    pub line: usize,
    /// Reserved for a finer position; scanning leaves it empty.
    pub location: String,
    pub message: String,
}

/// What a successful run hands back; it carries nothing yet.
#[derive(Clone, Copy, Debug, PartialEq, Eq, Structural)]
pub struct ExecutionSuccess {}

/// A diagnostic as plain values.
pub struct ErrorView {
    pub line: nat,
    pub location: Seq<char>,
    pub message: Seq<char>,
}

impl View for ExecutionError {
    type V = ErrorView;

    open spec fn view(&self) -> ErrorView {
        ErrorView { line: self.line as nat, location: self.location@, message: self.message@ }
    }
}

/// `[line <line>] Error <location>: <message>`
pub open spec fn report_text(e: ErrorView) -> Seq<char> {
    "[line "@ + decimal(e.line) + "] Error "@ + e.location + ": "@ + e.message
}

impl ExecutionError {
    /// The diagnostic as one line of text for the user.
    pub fn report(&self) -> (r: String)
        ensures
            r@ == report_text(self@),
    {
        let mut s = String::from_str("[line ");
        push_decimal(&mut s, self.line);
        s.append("] Error ");
        s.append(self.location.as_str());
        s.append(": ");
        s.append(self.message.as_str());
        assert(s@ =~= report_text(self@));
        s
    }
}

} // verus!
