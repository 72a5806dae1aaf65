use vstd::prelude::*;

verus! {

/// The broad class an error belongs to.
#[derive(Clone, Copy, Debug, PartialEq, Eq, Structural)]
pub enum ErrorKind {
    /// Two values were combined that must not be, or a divisor was zero.
    Validation,
    /// The request describes no well-defined estimate.
    Domain,
    /// A result left the range that a `Fixed` can represent.
    Range,
}

/// Why a computation was abandoned.
#[derive(Clone, Copy, Debug, PartialEq, Eq, Structural)]
pub enum PricingError {
    /// Two cash flows with different settlement instants were combined.
    SettlementMismatch,
    /// Two cash flows in different currencies were combined.
    CurrencyMismatch,
    /// A division by zero was requested.
    DivisionByZero,
    /// A price was asked for as an average over no paths.
    NoPaths,
    /// A payoff was asked for on a path without a single price.
    EmptyPath,
    /// The random draws handed in do not match the paths and steps asked for.
    DrawCount,
    /// The square root of a negative number was asked for.
    NegativeRoot,
    /// A result does not fit the representable range.
    Overflow,
}

impl PricingError {
    /// The class of this error.
    pub open spec fn spec_kind(self) -> ErrorKind {
        match self {
            PricingError::SettlementMismatch => ErrorKind::Validation,
            PricingError::CurrencyMismatch => ErrorKind::Validation,
            PricingError::DivisionByZero => ErrorKind::Validation,
            PricingError::NoPaths => ErrorKind::Domain,
            PricingError::EmptyPath => ErrorKind::Domain,
            PricingError::DrawCount => ErrorKind::Domain,
            PricingError::NegativeRoot => ErrorKind::Domain,
            PricingError::Overflow => ErrorKind::Range,
        }
    }

    /// The class of this error.
    #[verifier::when_used_as_spec(spec_kind)]
    pub fn kind(self) -> (k: ErrorKind)
        ensures
            k == self.spec_kind(),
    {
        match self {
            PricingError::SettlementMismatch => ErrorKind::Validation,
            PricingError::CurrencyMismatch => ErrorKind::Validation,
            PricingError::DivisionByZero => ErrorKind::Validation,
            PricingError::NoPaths => ErrorKind::Domain,
            PricingError::EmptyPath => ErrorKind::Domain,
            PricingError::DrawCount => ErrorKind::Domain,
            PricingError::NegativeRoot => ErrorKind::Domain,
            PricingError::Overflow => ErrorKind::Range,
        }
    }
}

} // verus!
