//! What is reported when something goes wrong.

use vstd::prelude::*;

verus! {

/// Whether the user is notified of an error or only the log has it.
#[derive(Clone, Copy, Debug, PartialEq, Eq, Structural)]
pub enum M3uFilterErrorKind {
    Info,
    Notify,
}

/// An error.
#[derive(Debug)]
pub struct M3uFilterError {
    pub kind: M3uFilterErrorKind,
    pub message: String,
}

/// What an error says.
#[verifier::ext_equal]
pub struct ErrorView {
    pub kind: M3uFilterErrorKind,
    pub message: Seq<char>,
}

impl View for M3uFilterError {
    type V = ErrorView;

    open spec fn view(&self) -> ErrorView {
        ErrorView { kind: self.kind, message: self.message@ }
    }
}

/// What a list of errors says.
pub open spec fn errors_view(errors: Seq<M3uFilterError>) -> Seq<ErrorView> {
    errors.map_values(|e: M3uFilterError| e@)
}

impl M3uFilterError {
    /// An error of that kind.
    pub fn new(kind: M3uFilterErrorKind, message: String) -> (r: M3uFilterError)
        ensures
            r@ == (ErrorView { kind, message: message@ }),
    {
        M3uFilterError { kind, message }
    }
}

/// Moves errors to the end of a list.
pub fn append_errors(errors: &mut Vec<M3uFilterError>, more: Vec<M3uFilterError>)
    ensures
        final(errors)@ == old(errors)@ + more@,
        errors_view(final(errors)@) == errors_view(old(errors)@) + errors_view(more@),
{
    let mut rest = more;
    errors.append(&mut rest);
    assert(errors_view(errors@) =~= errors_view(old(errors)@) + errors_view(more@));
}

} // verus!
