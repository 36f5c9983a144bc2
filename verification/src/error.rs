//! Why a call is refused.
use vstd::prelude::*;

verus! {

/// The reasons for which the contract refuses a call. A refused call changes nothing.
#[derive(Clone, Copy, PartialEq, Eq, Structural, Debug)]
pub enum SplitError {
    NotAuthorized,
    InvoiceNotFound,
    TemplateNotFound,
    LengthMismatch,
    NoRecipients,
    MonthsOutOfRange,
    AmountNotPositive,
    DeadlineNotInFuture,
    NotPending,
    DeadlinePassed,
    PaymentNotPositive,
    NegativeTip,
    ExceedsRemaining,
    NotFullyFunded,
    FullyFunded,
    DeadlineNotPassed,
    OnlyCreatorCancels,
    PaymentsStarted,
    OnlyCreatorExtends,
    NewDeadlineNotInFuture,
    NotFinalized,
    /// A sum, an identifier or a deadline leaves the range of its type.
    Overflow,
}

impl SplitError {
    /// The text that tells a caller what is wrong.
    pub open spec fn text(self) -> Seq<char> {
        match self {
            SplitError::NotAuthorized => "not authorized"@,
            SplitError::InvoiceNotFound => "invoice not found"@,
            SplitError::TemplateNotFound => "template not found"@,
            SplitError::LengthMismatch => "recipients and amounts length mismatch"@,
            SplitError::NoRecipients => "must have at least one recipient"@,
            SplitError::MonthsOutOfRange => "months must be between 1 and 12"@,
            SplitError::AmountNotPositive => "amounts must be positive"@,
            SplitError::DeadlineNotInFuture => "deadline must be in the future"@,
            SplitError::NotPending => "invoice is not pending"@,
            SplitError::DeadlinePassed => "invoice deadline has passed"@,
            SplitError::PaymentNotPositive => "payment amount must be positive"@,
            SplitError::NegativeTip => "tip must not be negative"@,
            SplitError::ExceedsRemaining => "payment exceeds remaining balance"@,
            SplitError::NotFullyFunded => "invoice not fully funded"@,
            SplitError::FullyFunded => "invoice is fully funded"@,
            SplitError::DeadlineNotPassed => "deadline has not passed"@,
            SplitError::OnlyCreatorCancels => "only creator can cancel"@,
            SplitError::PaymentsStarted => "payments have started"@,
            SplitError::OnlyCreatorExtends => "only creator can extend deadline"@,
            SplitError::NewDeadlineNotInFuture => "new deadline must be in the future"@,
            SplitError::NotFinalized => "invoice not finalized"@,
            SplitError::Overflow => "arithmetic overflow"@,
        }
    }

    /// The text that tells a caller what is wrong.
    pub fn message(&self) -> (s: &'static str)
        ensures
            s@ == self.text(),
    {
        match self {
            SplitError::NotAuthorized => "not authorized",
            SplitError::InvoiceNotFound => "invoice not found",
            SplitError::TemplateNotFound => "template not found",
            SplitError::LengthMismatch => "recipients and amounts length mismatch",
            SplitError::NoRecipients => "must have at least one recipient",
            SplitError::MonthsOutOfRange => "months must be between 1 and 12",
            SplitError::AmountNotPositive => "amounts must be positive",
            SplitError::DeadlineNotInFuture => "deadline must be in the future",
            SplitError::NotPending => "invoice is not pending",
            SplitError::DeadlinePassed => "invoice deadline has passed",
            SplitError::PaymentNotPositive => "payment amount must be positive",
            SplitError::NegativeTip => "tip must not be negative",
            SplitError::ExceedsRemaining => "payment exceeds remaining balance",
            SplitError::NotFullyFunded => "invoice not fully funded",
            SplitError::FullyFunded => "invoice is fully funded",
            SplitError::DeadlineNotPassed => "deadline has not passed",
            SplitError::OnlyCreatorCancels => "only creator can cancel",
            SplitError::PaymentsStarted => "payments have started",
            SplitError::OnlyCreatorExtends => "only creator can extend deadline",
            SplitError::NewDeadlineNotInFuture => "new deadline must be in the future",
            SplitError::NotFinalized => "invoice not finalized",
            SplitError::Overflow => "arithmetic overflow",
        }
    }
}

} // verus!
