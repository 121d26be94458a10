//! The ways in which a call fails. Every failure leaves the ledger as it was.

use vstd::prelude::*;
use vstd::string::*;

verus! {

#[derive(Debug, PartialEq, Eq)]
pub enum ContractError {
    /// The recipient of a deposit could not be mapped to an address.
    RecipientResolutionFailed { owner: String },
    /// The condition given for a new record is malformed.
    InvalidCondition { owner: String, recipient: String },
    /// A release by key found no record under the key.
    NoCustodyRecord { owner: String, recipient: String },
    /// A release by recipient found no record for the recipient.
    NoMatchingRecipientRecords { recipient: String },
    /// The condition is not met: of the one record of a release by key
    /// (`of_owner` names its owner), or of every record that a release by
    /// recipient matched (`of_owner` is `None`).
    FundsLocked { of_owner: Option<String>, recipient: String },
    /// A deposit would raise a held amount beyond what a coin can hold.
    Overflow { owner: String, recipient: String },
    /// The contract that stands may not be replaced: it is another contract
    /// (`previous_contract` is its name) or not an older version
    /// (`previous_contract` is its version).
    CannotMigrate { previous_contract: String },
    /// A text that should be a version is none.
    InvalidVersion { msg: String },
    /// A module of a kind that may occur once occurs more often.
    ModuleNotUnique,
    /// Two modules, or a module and its host, do not go together.
    IncompatibleModules { msg: String },
}

/// An error as a mathematical value.
pub enum ErrorView {
    RecipientResolutionFailed { owner: Seq<char> },
    InvalidCondition { owner: Seq<char>, recipient: Seq<char> },
    NoCustodyRecord { owner: Seq<char>, recipient: Seq<char> },
    NoMatchingRecipientRecords { recipient: Seq<char> },
    FundsLocked { of_owner: Option<Seq<char>>, recipient: Seq<char> },
    Overflow { owner: Seq<char>, recipient: Seq<char> },
    CannotMigrate { previous_contract: Seq<char> },
    InvalidVersion { msg: Seq<char> },
    ModuleNotUnique,
    IncompatibleModules { msg: Seq<char> },
}

impl View for ContractError {
    type V = ErrorView;

    open spec fn view(&self) -> ErrorView {
        match self {
            ContractError::RecipientResolutionFailed { owner } => {
                ErrorView::RecipientResolutionFailed { owner: owner@ }
            },
            ContractError::InvalidCondition { owner, recipient } => ErrorView::InvalidCondition {
                owner: owner@,
                recipient: recipient@,
            },
            ContractError::NoCustodyRecord { owner, recipient } => ErrorView::NoCustodyRecord {
                owner: owner@,
                recipient: recipient@,
            },
            ContractError::NoMatchingRecipientRecords { recipient } => {
                ErrorView::NoMatchingRecipientRecords { recipient: recipient@ }
            },
            ContractError::FundsLocked { of_owner, recipient } => ErrorView::FundsLocked {
                of_owner: match of_owner {
                    Some(o) => Some(o@),
                    None => None,
                },
                recipient: recipient@,
            },
            ContractError::Overflow { owner, recipient } => ErrorView::Overflow {
                owner: owner@,
                recipient: recipient@,
            },
            ContractError::CannotMigrate { previous_contract } => ErrorView::CannotMigrate {
                previous_contract: previous_contract@,
            },
            ContractError::InvalidVersion { msg } => ErrorView::InvalidVersion { msg: msg@ },
            ContractError::ModuleNotUnique => ErrorView::ModuleNotUnique,
            ContractError::IncompatibleModules { msg } => ErrorView::IncompatibleModules {
                msg: msg@,
            },
        }
    }
}

impl ContractError {
    /// The stable name of the kind of failure.
    pub fn code(&self) -> (r: &'static str)
        ensures
            r@ == error_code(self@),
    {
        match self {
            ContractError::RecipientResolutionFailed { .. } => "recipient_resolution_failed",
            ContractError::InvalidCondition { .. } => "invalid_condition",
            ContractError::NoCustodyRecord { .. } => "no_custody_record",
            ContractError::NoMatchingRecipientRecords { .. } => "no_matching_recipient_records",
            ContractError::FundsLocked { .. } => "funds_locked",
            ContractError::Overflow { .. } => "overflow",
            ContractError::CannotMigrate { .. } => "cannot_migrate",
            ContractError::InvalidVersion { .. } => "invalid_version",
            ContractError::ModuleNotUnique => "module_not_unique",
            ContractError::IncompatibleModules { .. } => "incompatible_modules",
        }
    }
}

/// The stable name of each kind of failure.
pub open spec fn error_code(e: ErrorView) -> Seq<char> {
    match e {
        ErrorView::RecipientResolutionFailed { .. } => "recipient_resolution_failed"@,
        ErrorView::InvalidCondition { .. } => "invalid_condition"@,
        ErrorView::NoCustodyRecord { .. } => "no_custody_record"@,
        ErrorView::NoMatchingRecipientRecords { .. } => "no_matching_recipient_records"@,
        ErrorView::FundsLocked { .. } => "funds_locked"@,
        ErrorView::Overflow { .. } => "overflow"@,
        ErrorView::CannotMigrate { .. } => "cannot_migrate"@,
        ErrorView::InvalidVersion { .. } => "invalid_version"@,
        ErrorView::ModuleNotUnique => "module_not_unique"@,
        ErrorView::IncompatibleModules { .. } => "incompatible_modules"@,
    }
}

} // verus!
