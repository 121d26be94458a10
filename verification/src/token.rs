//! What a token ledger records of its token.

use vstd::prelude::*;
use vstd::string::*;

verus! {

/// The name and symbol of a token, and who owns it.
#[derive(Debug, PartialEq, Eq)]
pub struct GetTokenInfo {
    pub name: String,
    pub symbol: String,
    pub owner: String,
}

impl Clone for GetTokenInfo {
    fn clone(&self) -> (r: Self)
        ensures
            r.name@ == self.name@,
            r.symbol@ == self.symbol@,
            r.owner@ == self.owner@,
    {
        GetTokenInfo {
            name: self.name.clone(),
            symbol: self.symbol.clone(),
            owner: self.owner.clone(),
        }
    }
}

} // verus!
