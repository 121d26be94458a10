//! Modules that a component is made with, and the rules on which of them go
//! together.

use vstd::prelude::*;
use vstd::string::*;
use crate::error::{ContractError, ErrorView};
use crate::recipient::AndrAddress;
use crate::text::text_eq;

verus! {

pub const RATES: &'static str = "rates";

pub const BIDS: &'static str = "bids";

pub const ADDRESS_LIST: &'static str = "address_list";

pub const AUCTION: &'static str = "auction";

pub const RECEIPT: &'static str = "receipt";

pub const OTHER: &'static str = "other";

/// A module of a component: its kind, where it lives, and whether it may be
/// altered once it is registered.
#[derive(Debug, PartialEq, Eq)]
pub struct Module {
    pub module_type: String,
    pub address: AndrAddress,
    pub is_mutable: bool,
}

/// A module as a mathematical value.
pub struct ModuleView {
    pub module_type: Seq<char>,
    pub identifier: Seq<char>,
    pub is_mutable: bool,
}

impl View for Module {
    type V = ModuleView;

    open spec fn view(&self) -> ModuleView {
        ModuleView {
            module_type: self.module_type@,
            identifier: self.address.identifier@,
            is_mutable: self.is_mutable,
        }
    }
}

impl Clone for Module {
    fn clone(&self) -> (r: Self)
        ensures
            r@ == self@,
    {
        Module {
            module_type: self.module_type.clone(),
            address: self.address.clone(),
            is_mutable: self.is_mutable,
        }
    }
}

/// How many of `modules` are of the kind `module_type`.
pub open spec fn count_of_type(modules: Seq<Module>, module_type: Seq<char>) -> nat
    decreases modules.len(),
{
    if modules.len() == 0 {
        0
    } else {
        count_of_type(modules.drop_last(), module_type) + if modules.last().module_type@
            == module_type {
            1nat
        } else {
            0nat
        }
    }
}

/// Some module of `modules` is of the kind `module_type`.
pub open spec fn has_type(modules: Seq<Module>, module_type: Seq<char>) -> bool {
    exists|i: int| 0 <= i < modules.len() && (#[trigger] modules[i]).module_type@ == module_type
}

/// What is wrong with a module of the kind `module_type` among `modules` in
/// a component of the kind `ado_type`, if anything: a kind other than rates
/// occurs once among the modules, or the module is not unique; and a token
/// component of the kind cw20 has no auction among its modules.
pub open spec fn module_error(module_type: Seq<char>, modules: Seq<Module>, ado_type: Seq<char>) -> Option<
    ErrorView,
> {
    if module_type != RATES@ && count_of_type(modules, module_type) != 1 {
        Some(ErrorView::ModuleNotUnique)
    } else if ado_type == "cw20"@ && has_type(modules, AUCTION@) {
        Some(
            ErrorView::IncompatibleModules {
                msg: "An Auction module cannot be used for a CW20 ADO"@,
            },
        )
    } else {
        None
    }
}

/// No module among the first `n` of `modules` has anything wrong with it.
pub open spec fn all_valid(modules: Seq<Module>, ado_type: Seq<char>, n: int) -> bool {
    forall|i: int|
        0 <= i < n ==> module_error((#[trigger] modules[i]).module_type@, modules, ado_type)
            is None
}

impl Module {
    /// Checks the module against the modules that it is one of and against
    /// the kind of the component: see [`module_error`].
    pub fn validate(&self, modules: &[Module], ado_type: &str) -> (r: Result<(), ContractError>)
        ensures
            match r {
                Ok(_) => module_error(self.module_type@, modules@, ado_type@) is None,
                Err(e) => module_error(self.module_type@, modules@, ado_type@) == Some(e@),
            },
    {
        // Rates may occur more than once.
        if !text_eq(self.module_type.as_str(), RATES) {
            if !self.is_unique(modules) {
                return Err(ContractError::ModuleNotUnique);
            }
        }
        if text_eq(ado_type, "cw20") && contains_module(modules, AUCTION) {
            return Err(
                ContractError::IncompatibleModules {
                    msg: "An Auction module cannot be used for a CW20 ADO".to_owned(),
                },
            );
        }
        Ok(())
    }

    /// Whether exactly one of `all_modules` is of this module's kind.
    pub fn is_unique(&self, all_modules: &[Module]) -> (r: bool)
        ensures
            r == (count_of_type(all_modules@, self.module_type@) == 1),
    {
        let mut total: usize = 0;
        let mut i: usize = 0;
        while i < all_modules.len()
            invariant
                i <= all_modules.len(),
                total == count_of_type(all_modules@.take(i as int), self.module_type@),
                total <= i,
            decreases all_modules.len() - i,
        {
            proof {
                assert(all_modules@.take(i + 1).drop_last() =~= all_modules@.take(i as int));
                assert(all_modules@.take(i + 1).last() == all_modules@[i as int]);
            }
            if text_eq(self.module_type.as_str(), all_modules[i].module_type.as_str()) {
                total += 1;
            }
            i += 1;
        }
        proof {
            assert(all_modules@.take(i as int) =~= all_modules@);
        }
        total == 1
    }
}

/// Whether some module of `modules` is of the kind `module_type`.
pub fn contains_module(modules: &[Module], module_type: &str) -> (r: bool)
    ensures
        r == has_type(modules@, module_type@),
{
    let mut i: usize = 0;
    while i < modules.len()
        invariant
            i <= modules.len(),
            forall|j: int| 0 <= j < i ==> (#[trigger] modules@[j]).module_type@ != module_type@,
        decreases modules.len() - i,
    {
        if text_eq(modules[i].module_type.as_str(), module_type) {
            return true;
        }
        i += 1;
    }
    false
}

/// The state that the components share. The checks on modules read none of
/// it.
#[derive(Debug, Default, PartialEq, Eq)]
pub struct ADOContract {}

impl ADOContract {
    /// Checks every module of `modules` against the others and against the
    /// kind of the component. Fails with what is wrong with the first module
    /// that has anything wrong with it.
    pub fn validate_modules(&self, modules: &[Module], ado_type: &str) -> (r: Result<
        (),
        ContractError,
    >)
        ensures
            match r {
                Ok(_) => all_valid(modules@, ado_type@, modules@.len() as int),
                Err(e) => exists|i: int|
                    {
                        &&& 0 <= i < modules@.len()
                        &&& all_valid(modules@, ado_type@, i)
                        &&& #[trigger] module_error(modules@[i].module_type@, modules@, ado_type@)
                            == Some(e@)
                    },
            },
    {
        let mut i: usize = 0;
        while i < modules.len()
            invariant
                i <= modules.len(),
                all_valid(modules@, ado_type@, i as int),
            decreases modules.len() - i,
        {
            match modules[i].validate(modules, ado_type) {
                Ok(_) => {},
                Err(e) => {
                    return Err(e);
                },
            }
            i += 1;
        }
        Ok(())
    }
}

} // verus!
