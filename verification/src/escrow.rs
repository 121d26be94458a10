//! The unit of custody: value held for a recipient under one condition.

use vstd::prelude::*;
use vstd::string::*;
use crate::coin::{clone_coins, coins_view, in_range, is_valid_funds, merge, merge_coins, valid_funds, Coin, CoinView};
use crate::condition::{
    clone_condition, condition_view, is_locked, is_well_formed, locked, well_formed, BlockInfo,
    ConditionView, EscrowCondition,
};
use crate::recipient::{Recipient, RecipientView};

verus! {

/// Value held for a recipient.
#[derive(Debug, PartialEq, Eq)]
pub struct Escrow {
    /// The held value: one coin for each denomination.
    pub coins: Vec<Coin>,
    /// What has to hold before the value may leave; `None`: nothing.
    pub condition: Option<EscrowCondition>,
    /// The recipient as the depositor named it.
    pub recipient: Recipient,
    /// The address that the recipient resolved to when the escrow was made.
    pub recipient_addr: String,
}

/// An escrow as a mathematical value.
pub struct EscrowView {
    pub coins: Seq<CoinView>,
    pub condition: Option<ConditionView>,
    pub recipient: RecipientView,
    pub recipient_addr: Seq<char>,
}

impl EscrowView {
    /// What holds of every escrow in custody: it holds something, of no
    /// denomination twice and of none nothing, and its condition is well
    /// formed.
    pub open spec fn wf(self) -> bool {
        valid_funds(self.coins) && well_formed(self.condition)
    }

    /// Whether the escrow's condition holds its value back at time `now`.
    pub open spec fn is_locked(self, now: BlockInfo) -> bool {
        locked(self.condition, now, self.coins)
    }

    /// The escrow after `deposit` has come in: the value is merged, all else
    /// stays.
    pub open spec fn with_deposit(self, deposit: Seq<CoinView>) -> EscrowView {
        EscrowView { coins: merge(self.coins, deposit), ..self }
    }

    /// The instruction that moves the escrow's whole value to its recipient.
    pub open spec fn transfer(self) -> TransferView {
        TransferView {
            recipient: self.recipient,
            to_address: self.recipient_addr,
            amount: self.coins,
        }
    }
}

impl View for Escrow {
    type V = EscrowView;

    open spec fn view(&self) -> EscrowView {
        EscrowView {
            coins: coins_view(self.coins@),
            condition: condition_view(self.condition),
            recipient: self.recipient@,
            recipient_addr: self.recipient_addr@,
        }
    }
}

impl Clone for Escrow {
    fn clone(&self) -> (r: Self)
        ensures
            r@ == self@,
    {
        Escrow {
            coins: clone_coins(&self.coins),
            condition: clone_condition(&self.condition),
            recipient: self.recipient.clone(),
            recipient_addr: self.recipient_addr.clone(),
        }
    }
}

/// An instruction to the host: move `amount` to `to_address`. `recipient`
/// tells the host in which form the recipient takes it.
#[derive(Debug, PartialEq, Eq)]
pub struct Transfer {
    pub recipient: Recipient,
    pub to_address: String,
    pub amount: Vec<Coin>,
}

/// A transfer as a mathematical value.
pub struct TransferView {
    pub recipient: RecipientView,
    pub to_address: Seq<char>,
    pub amount: Seq<CoinView>,
}

impl View for Transfer {
    type V = TransferView;

    open spec fn view(&self) -> TransferView {
        TransferView {
            recipient: self.recipient@,
            to_address: self.to_address@,
            amount: coins_view(self.amount@),
        }
    }
}

/// An optional escrow as a mathematical value.
pub open spec fn escrow_view(e: Option<Escrow>) -> Option<EscrowView> {
    match e {
        Some(e) => Some(e@),
        None => None,
    }
}

impl Escrow {
    /// Whether the condition holds the value back at the time of `block`.
    pub fn is_locked(&self, block: &BlockInfo) -> (r: bool)
        ensures
            r == self@.is_locked(*block),
    {
        is_locked(&self.condition, block, &self.coins)
    }

    /// Whether the escrow may be taken into custody: see [`EscrowView::wf`].
    pub fn validate(&self) -> (r: bool)
        ensures
            r == self@.wf(),
    {
        is_valid_funds(&self.coins) && is_well_formed(&self.condition)
    }

    /// Merges `coins_to_add` into the held value. Returns whether every sum
    /// fits; where one does not, the escrow is left as it was.
    pub fn add_funds(&mut self, coins_to_add: &Vec<Coin>) -> (r: bool)
        ensures
            r == in_range(merge(old(self)@.coins, coins_view(coins_to_add@))),
            r ==> final(self)@ == old(self)@.with_deposit(coins_view(coins_to_add@)),
            !r ==> final(self)@ == old(self)@,
    {
        match merge_coins(&self.coins, coins_to_add) {
            Some(merged) => {
                self.coins = merged;
                true
            },
            None => false,
        }
    }

    /// Turns the escrow into the instruction that moves its whole value out.
    pub fn into_transfer(self) -> (r: Transfer)
        ensures
            r@ == self@.transfer(),
    {
        Transfer { recipient: self.recipient, to_address: self.recipient_addr, amount: self.coins }
    }
}

} // verus!
