//! Release conditions, and the rule that says whether one holds value back.

use vstd::prelude::*;
use vstd::string::*;
use crate::coin::{
    amount_of, clone_coins, coins_view, denoms_are_unique, denoms_unique, has_at_least, Coin,
    CoinView,
};

verus! {

/// The chain's time at a call: the height of the block and its time.
#[derive(Clone, Copy, Debug, PartialEq, Eq, Structural)]
pub struct BlockInfo {
    pub height: u64,
    pub time: u64,
}

/// What has to hold before an escrow's value may leave.
#[derive(Debug, PartialEq, Eq)]
pub enum EscrowCondition {
    /// Open from the block of this height on.
    ExpireAtHeight(u64),
    /// Open from this block time on.
    ExpireAtTime(u64),
    /// Open while the escrow holds at least these amounts.
    MinimumFunds(Vec<Coin>),
}

/// A condition as a mathematical value.
pub enum ConditionView {
    ExpireAtHeight(u64),
    ExpireAtTime(u64),
    MinimumFunds(Seq<CoinView>),
}

impl View for EscrowCondition {
    type V = ConditionView;

    open spec fn view(&self) -> ConditionView {
        match self {
            EscrowCondition::ExpireAtHeight(h) => ConditionView::ExpireAtHeight(*h),
            EscrowCondition::ExpireAtTime(t) => ConditionView::ExpireAtTime(*t),
            EscrowCondition::MinimumFunds(required) => ConditionView::MinimumFunds(
                coins_view(required@),
            ),
        }
    }
}

impl Clone for EscrowCondition {
    fn clone(&self) -> (r: Self)
        ensures
            r@ == self@,
    {
        match self {
            EscrowCondition::ExpireAtHeight(h) => EscrowCondition::ExpireAtHeight(*h),
            EscrowCondition::ExpireAtTime(t) => EscrowCondition::ExpireAtTime(*t),
            EscrowCondition::MinimumFunds(required) => EscrowCondition::MinimumFunds(
                clone_coins(required),
            ),
        }
    }
}

/// An optional condition as a mathematical value.
pub open spec fn condition_view(condition: Option<EscrowCondition>) -> Option<ConditionView> {
    match condition {
        Some(c) => Some(c@),
        None => None,
    }
}

/// A copy of an optional condition.
pub fn clone_condition(condition: &Option<EscrowCondition>) -> (r: Option<EscrowCondition>)
    ensures
        condition_view(r) == condition_view(*condition),
{
    match condition {
        Some(c) => Some(c.clone()),
        None => None,
    }
}

/// `held` holds of every required denomination at least the required amount.
pub open spec fn minimum_met(held: Seq<CoinView>, required: Seq<CoinView>) -> bool {
    forall|i: int|
        0 <= i < required.len() ==> amount_of(held, (#[trigger] required[i]).denom)
            >= required[i].amount
}

/// Whether `condition` holds back value `held` at time `now`: no condition
/// never does; a height or a time does until it is reached; minimum funds do
/// while some required amount is not held.
pub open spec fn locked(condition: Option<ConditionView>, now: BlockInfo, held: Seq<CoinView>) -> bool {
    match condition {
        None => false,
        Some(ConditionView::ExpireAtHeight(h)) => now.height < h,
        Some(ConditionView::ExpireAtTime(t)) => now.time < t,
        Some(ConditionView::MinimumFunds(required)) => !minimum_met(held, required),
    }
}

/// Whether a condition is well formed: minimum funds name at least one
/// denomination and none twice; every other condition is.
pub open spec fn well_formed(condition: Option<ConditionView>) -> bool {
    match condition {
        Some(ConditionView::MinimumFunds(required)) => required.len() > 0 && denoms_unique(
            required,
        ),
        _ => true,
    }
}

/// Whether `held` holds at least the amounts of `required`.
pub fn meets_minimum(held: &Vec<Coin>, required: &Vec<Coin>) -> (r: bool)
    ensures
        r == minimum_met(coins_view(held@), coins_view(required@)),
{
    let ghost h = coins_view(held@);
    let ghost q = coins_view(required@);
    let mut i: usize = 0;
    while i < required.len()
        invariant
            i <= required.len(),
            h == coins_view(held@),
            q == coins_view(required@),
            forall|j: int| 0 <= j < i ==> amount_of(h, (#[trigger] q[j]).denom) >= q[j].amount,
        decreases required.len() - i,
    {
        if !has_at_least(held, required[i].denom.as_str(), required[i].amount) {
            assert(amount_of(h, q[i as int].denom) < q[i as int].amount);
            return false;
        }
        i += 1;
    }
    true
}

/// Whether `condition` holds back value `held` at time `now`.
pub fn is_locked(condition: &Option<EscrowCondition>, now: &BlockInfo, held: &Vec<Coin>) -> (r:
    bool)
    ensures
        r == locked(condition_view(*condition), *now, coins_view(held@)),
{
    match condition {
        None => false,
        Some(EscrowCondition::ExpireAtHeight(h)) => now.height < *h,
        Some(EscrowCondition::ExpireAtTime(t)) => now.time < *t,
        Some(EscrowCondition::MinimumFunds(required)) => !meets_minimum(held, required),
    }
}

/// Whether `condition` is well formed.
pub fn is_well_formed(condition: &Option<EscrowCondition>) -> (r: bool)
    ensures
        r == well_formed(condition_view(*condition)),
{
    match condition {
        Some(EscrowCondition::MinimumFunds(required)) => required.len() > 0 && denoms_are_unique(
            required,
        ),
        _ => true,
    }
}

} // verus!
