//! Whether the contract that stands may be replaced by this one: it must be
//! the same contract in an older version. Versions are read and compared by
//! the `semver` crate.

use vstd::prelude::*;
use vstd::string::*;
use crate::error::{ContractError, ErrorView};
use crate::text::text_eq;

verus! {

/// `semver::Version`, a version as the parser gives it. The library carries
/// it from the parser to the comparison and reads nothing of it.
#[verifier::external_type_specification]
#[verifier::external_body]
pub struct ExVersion(semver::Version);

/// `semver::Error`, the parser's account of a text that is no version.
#[verifier::external_type_specification]
#[verifier::external_body]
pub struct ExVersionError(semver::Error);

/// Whether `semver::Version::parse` takes `text` for a version.
pub uninterp spec fn is_version(text: Seq<char>) -> bool;

/// Calls `semver::Version::parse`. Trusted: that whether it gives a version
/// depends on the text alone. Nothing is claimed of the version or the error.
#[verifier::external_body]
fn parse_version(text: &str) -> (r: Result<semver::Version, semver::Error>)
    ensures
        r is Ok <==> is_version(text@),
{
    semver::Version::parse(text)
}

/// Calls `<` of `semver::Version`. Nothing is claimed of the result.
#[verifier::external_body]
fn version_lt(a: &semver::Version, b: &semver::Version) -> bool {
    a < b
}

/// Calls the `Display` of `semver::Error`. Nothing is claimed of the text.
#[verifier::external_body]
fn version_error_text(err: &semver::Error) -> String {
    format!("{}", err)
}

/// The error of a text that is no version: its message is "Semver: " and
/// what the parser said.
fn from_semver(err: semver::Error) -> (r: ContractError)
    ensures
        r@ matches ErrorView::InvalidVersion { msg } && "Semver: "@.is_prefix_of(msg),
{
    let said = version_error_text(&err);
    let msg = "Semver: ".to_owned().concat(said.as_str());
    ContractError::InvalidVersion { msg }
}

/// Why the stored contract may not be replaced, if it may not: it is another
/// contract, or its version is not older than the new one.
pub open spec fn migration_error(
    stored_contract: Seq<char>,
    stored_version: Seq<char>,
    contract_name: Seq<char>,
    stored_is_older: bool,
) -> Option<ErrorView> {
    if stored_contract != contract_name {
        Some(ErrorView::CannotMigrate { previous_contract: stored_contract })
    } else if !stored_is_older {
        Some(ErrorView::CannotMigrate { previous_contract: stored_version })
    } else {
        None
    }
}

/// Decides on a replacement once the versions are compared: see
/// [`migration_error`].
pub fn migration_verdict(
    stored_contract: String,
    stored_version: String,
    contract_name: &str,
    stored_is_older: bool,
) -> (r: Result<(), ContractError>)
    ensures
        match r {
            Ok(_) => migration_error(
                stored_contract@,
                stored_version@,
                contract_name@,
                stored_is_older,
            ) is None,
            Err(e) => migration_error(
                stored_contract@,
                stored_version@,
                contract_name@,
                stored_is_older,
            ) == Some(e@),
        },
{
    if !text_eq(stored_contract.as_str(), contract_name) {
        return Err(ContractError::CannotMigrate { previous_contract: stored_contract });
    }
    // The new version has to be greater than the stored one.
    if !stored_is_older {
        return Err(ContractError::CannotMigrate { previous_contract: stored_version });
    }
    Ok(())
}

/// Decides whether the contract `stored_contract` in the version
/// `stored_version` may be replaced by `contract_name` in the version
/// `contract_version`.
///
/// Fails with `InvalidVersion` exactly where one of the two is no version.
/// Else the two versions are compared, and the outcome is
/// [`migration_verdict`] of whether the stored one is the older.
pub fn migrate(
    stored_contract: String,
    stored_version: String,
    contract_name: &str,
    contract_version: &str,
) -> (r: Result<(), ContractError>)
    ensures
        match r {
            Ok(_) => {
                &&& is_version(contract_version@)
                &&& is_version(stored_version@)
                &&& stored_contract@ == contract_name@
            },
            Err(e) => if is_version(contract_version@) && is_version(stored_version@) {
                ||| migration_error(stored_contract@, stored_version@, contract_name@, true)
                    == Some(e@)
                ||| migration_error(stored_contract@, stored_version@, contract_name@, false)
                    == Some(e@)
            } else {
                e@ matches ErrorView::InvalidVersion { msg } && "Semver: "@.is_prefix_of(msg)
            },
        },
{
    let version = match parse_version(contract_version) {
        Ok(v) => v,
        Err(e) => {
            return Err(from_semver(e));
        },
    };
    let storage_version = match parse_version(stored_version.as_str()) {
        Ok(v) => v,
        Err(e) => {
            return Err(from_semver(e));
        },
    };
    let stored_is_older = version_lt(&storage_version, &version);
    migration_verdict(stored_contract, stored_version, contract_name, stored_is_older)
}

} // verus!
