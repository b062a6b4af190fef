use vstd::prelude::*;

verus! {

/// Every failure an operation of the engine can report.
#[derive(Clone, Copy, Debug, PartialEq, Eq, Structural)]
pub enum StellarSaveError {
    GroupNotFound,
    ContributionNotFound,
    PayoutNotFound,
    InvalidConfiguration,
    WrongAmount,
    NotMember,
    InvalidStatus,
    AlreadyMember,
    GroupFull,
    DuplicateContribution,
    AlreadyComplete,
    Unauthorized,
}

/// Coarse grouping of errors, so that callers can respond by category.
#[derive(Clone, Copy, Debug, PartialEq, Eq, Structural)]
pub enum ErrorCategory {
    /// The requested entity does not exist.
    NotFound,
    /// Caller-supplied input breaks a static precondition.
    Validation,
    /// Well-formed, but not applicable in the current state.
    StateConflict,
    /// The caller is not allowed to perform the operation.
    Authorization,
}

pub type ContractResult<T> = Result<T, StellarSaveError>;

pub open spec fn category_of(e: StellarSaveError) -> ErrorCategory {
    match e {
        StellarSaveError::GroupNotFound
        | StellarSaveError::ContributionNotFound
        | StellarSaveError::PayoutNotFound => ErrorCategory::NotFound,
        StellarSaveError::InvalidConfiguration
        | StellarSaveError::WrongAmount
        | StellarSaveError::NotMember => ErrorCategory::Validation,
        StellarSaveError::InvalidStatus
        | StellarSaveError::AlreadyMember
        | StellarSaveError::GroupFull
        | StellarSaveError::DuplicateContribution
        | StellarSaveError::AlreadyComplete => ErrorCategory::StateConflict,
        StellarSaveError::Unauthorized => ErrorCategory::Authorization,
    }
}

impl StellarSaveError {
    pub fn category(&self) -> (r: ErrorCategory)
        ensures
            r == category_of(*self),
    {
        match self {
            StellarSaveError::GroupNotFound
            | StellarSaveError::ContributionNotFound
            | StellarSaveError::PayoutNotFound => ErrorCategory::NotFound,
            StellarSaveError::InvalidConfiguration
            | StellarSaveError::WrongAmount
            | StellarSaveError::NotMember => ErrorCategory::Validation,
            StellarSaveError::InvalidStatus
            | StellarSaveError::AlreadyMember
            | StellarSaveError::GroupFull
            | StellarSaveError::DuplicateContribution
            | StellarSaveError::AlreadyComplete => ErrorCategory::StateConflict,
            StellarSaveError::Unauthorized => ErrorCategory::Authorization,
        }
    }
}

} // verus!
