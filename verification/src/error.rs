use vstd::prelude::*;

verus! {

/// The ways in which evaluating an expression can fail.
#[derive(Debug, Clone, Copy, PartialEq, Eq, Structural)]
pub enum PolishError {
    /// An operator symbol is not recognised, or the operands left at the end
    /// are not exactly one.
    FailedCalculate,
    /// An operator was met with fewer than two operands available.
    NotEnoughOperands,
    /// The expression, or a token, holds a character outside the allowed set.
    UseUnavailableCharacter,
    /// The expression is the empty string.
    NotEnteredExoression,
}

impl PolishError {
    /// The fixed one-line message of each kind, as a sequence of characters.
    pub open spec fn message_text(self) -> Seq<char> {
        match self {
            PolishError::FailedCalculate => "failed calculate"@,
            PolishError::NotEnoughOperands => "not enough operands"@,
            PolishError::UseUnavailableCharacter => "use unavailable character"@,
            PolishError::NotEnteredExoression => "not entered exoression"@,
        }
    }

    /// Returns the message of this kind of error.
    pub fn message(&self) -> (text: &'static str)
        ensures
            text@ == self.message_text(),
    {
        match self {
            PolishError::FailedCalculate => "failed calculate",
            PolishError::NotEnoughOperands => "not enough operands",
            PolishError::UseUnavailableCharacter => "use unavailable character",
            PolishError::NotEnteredExoression => "not entered exoression",
        }
    }
}

} // verus!
