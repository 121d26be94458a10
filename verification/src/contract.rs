//! The operations on the ledger that the host calls: holding funds, the two
//! releases, and the queries.

use vstd::prelude::*;
use vstd::string::*;
use crate::coin::{
    clone_coins, coins_view, in_range, lemma_merge_keeps, merge, valid_funds, Coin, CoinView,
};
use crate::condition::{
    clone_condition, condition_view, is_well_formed, well_formed, BlockInfo, ConditionView,
    EscrowCondition,
};
use crate::error::{ContractError, ErrorView};
use crate::escrow::{escrow_view, Escrow, EscrowView, Transfer, TransferView};
use crate::ledger::{
    entries_map, has_key, key_at, key_pos, lemma_lookup_map, lemma_member_lookup, lemma_page,
    lemma_sorted_keys_differ, lookup, page, page_size, records_view, sorted, Ledger, RecordView,
};
use crate::recipient::{recipient_or, recipient_or_sender, Recipient, RecipientView};

verus! {

/// Who calls, and the value that comes with the call.
#[derive(Debug, PartialEq, Eq)]
pub struct MessageInfo {
    pub sender: String,
    pub funds: Vec<Coin>,
}

impl Clone for MessageInfo {
    fn clone(&self) -> (r: Self)
        ensures
            r.sender@ == self.sender@,
            coins_view(r.funds@) == coins_view(self.funds@),
    {
        MessageInfo { sender: self.sender.clone(), funds: clone_coins(&self.funds) }
    }
}

/// The calls that change the ledger.
#[derive(Debug, PartialEq, Eq)]
pub enum ExecuteMsg {
    /// Hold the value that comes with the call for `recipient` (the caller
    /// where none is named) under `condition`.
    HoldFunds { condition: Option<EscrowCondition>, recipient: Option<Recipient> },
    /// Release what is held for `recipient_addr` (the caller where none is
    /// named) and is open, one page of records at a time: at most `limit`
    /// records, by owner, from behind the owner `start_after` on.
    ReleaseFunds { recipient_addr: Option<String>, start_after: Option<String>, limit: Option<u32> },
    /// Release what `owner` holds for `recipient_addr` (the caller where none
    /// is named).
    ReleaseSpecificFunds { owner: String, recipient_addr: Option<String> },
}

/// The calls that read the ledger.
#[derive(Debug, PartialEq, Eq)]
pub enum QueryMsg {
    /// What `owner` holds for `recipient`.
    GetLockedFunds { owner: String, recipient: String },
    /// What is held for `recipient`: at most `limit` escrows, by owner, from
    /// behind the owner `start_after` on.
    GetLockedFundsForRecipient { recipient: String, start_after: Option<String>, limit: Option<u32> },
}

/// The answer to [`QueryMsg::GetLockedFunds`].
#[derive(Debug, PartialEq, Eq)]
pub struct GetLockedFundsResponse {
    pub funds: Option<Escrow>,
}

/// The answer to [`QueryMsg::GetLockedFundsForRecipient`].
#[derive(Debug, PartialEq, Eq)]
pub struct GetLockedFundsForRecipientResponse {
    pub funds: Vec<Escrow>,
}

/// The answer to a query.
#[derive(Debug, PartialEq, Eq)]
pub enum QueryResponse {
    LockedFunds(GetLockedFundsResponse),
    LockedFundsForRecipient(GetLockedFundsForRecipientResponse),
}

/// What a call that changed the ledger reports.
#[derive(Debug, PartialEq, Eq)]
pub enum Response {
    /// Funds are held: by whom, for whom, at which address, and under which
    /// condition the record now stands.
    HoldFunds {
        sender: String,
        recipient: Recipient,
        recipient_addr: String,
        condition: Option<EscrowCondition>,
    },
    /// Funds are released: for which address, and one transfer for each
    /// record that was released, in the order of the scan.
    ReleaseFunds { recipient_addr: String, messages: Vec<Transfer> },
}

/// A response as a mathematical value.
pub enum ResponseView {
    HoldFunds {
        sender: Seq<char>,
        recipient: RecipientView,
        recipient_addr: Seq<char>,
        condition: Option<ConditionView>,
    },
    ReleaseFunds { recipient_addr: Seq<char>, messages: Seq<TransferView> },
}

/// A list of transfers as a sequence of mathematical values.
pub open spec fn transfers_view(transfers: Seq<Transfer>) -> Seq<TransferView> {
    transfers.map_values(|t: Transfer| t@)
}

/// A list of escrows as a sequence of mathematical values.
pub open spec fn escrows_view(escrows: Seq<Escrow>) -> Seq<EscrowView> {
    escrows.map_values(|e: Escrow| e@)
}

/// An optional string as a mathematical value.
pub open spec fn string_view(s: Option<String>) -> Option<Seq<char>> {
    match s {
        Some(s) => Some(s@),
        None => None,
    }
}

/// The address that a call names, or the caller's where it names none.
pub open spec fn address_or(named: Option<Seq<char>>, sender: Seq<char>) -> Seq<char> {
    match named {
        Some(a) => a,
        None => sender,
    }
}

/// The outcome of a call as a mathematical value.
pub open spec fn result_view(r: Result<Response, ContractError>) -> Result<ResponseView, ErrorView> {
    match r {
        Ok(resp) => Ok(resp@),
        Err(e) => Err(e@),
    }
}

impl View for Response {
    type V = ResponseView;

    open spec fn view(&self) -> ResponseView {
        match self {
            Response::HoldFunds { sender, recipient, recipient_addr, condition } => {
                ResponseView::HoldFunds {
                    sender: sender@,
                    recipient: recipient@,
                    recipient_addr: recipient_addr@,
                    condition: condition_view(*condition),
                }
            },
            Response::ReleaseFunds { recipient_addr, messages } => ResponseView::ReleaseFunds {
                recipient_addr: recipient_addr@,
                messages: transfers_view(messages@),
            },
        }
    }
}

impl Response {
    /// The tag of the action that the response reports.
    pub fn action(&self) -> (r: &'static str)
        ensures
            r@ == (match self@ {
                ResponseView::HoldFunds { .. } => "hold_funds"@,
                ResponseView::ReleaseFunds { .. } => "release_funds"@,
            }),
    {
        match self {
            Response::HoldFunds { .. } => "hold_funds",
            Response::ReleaseFunds { .. } => "release_funds",
        }
    }
}

/// The escrow that stands under a key after a deposit: where one stood
/// there, its value with the deposit merged in, under its own condition; else
/// the deposit under the condition that came with it. Either way it names the
/// recipient as this deposit did.
pub open spec fn deposited(
    existing: Option<EscrowView>,
    funds: Seq<CoinView>,
    condition: Option<ConditionView>,
    recipient: RecipientView,
    recipient_addr: Seq<char>,
) -> EscrowView {
    match existing {
        Some(e) => EscrowView {
            coins: merge(e.coins, funds),
            condition: e.condition,
            recipient,
            recipient_addr,
        },
        None => EscrowView { coins: funds, condition, recipient, recipient_addr },
    }
}

/// Why a deposit under the key (owner, addr) leaves no escrow, if it leaves
/// none: an escrow stands there and a merged amount does not fit; or none
/// stands there and the condition is malformed.
pub open spec fn deposit_error(
    existing: Option<EscrowView>,
    owner: Seq<char>,
    addr: Seq<char>,
    funds: Seq<CoinView>,
    condition: Option<ConditionView>,
) -> Option<ErrorView> {
    match existing {
        Some(e) => if in_range(merge(e.coins, funds)) {
            None
        } else {
            Some(ErrorView::Overflow { owner, recipient: addr })
        },
        None => if well_formed(condition) {
            None
        } else {
            Some(ErrorView::InvalidCondition { owner, recipient: addr })
        },
    }
}

/// Why a deposit fails, if it does: the recipient did not resolve, or
/// [`deposit_error`].
pub open spec fn hold_funds_error(
    s: Seq<RecordView>,
    owner: Seq<char>,
    funds: Seq<CoinView>,
    condition: Option<ConditionView>,
    resolved: Option<Seq<char>>,
) -> Option<ErrorView> {
    match resolved {
        None => Some(ErrorView::RecipientResolutionFailed { owner }),
        Some(addr) => deposit_error(lookup(s, owner, addr), owner, addr, funds, condition),
    }
}

/// The ledger after a deposit by `owner` for the address `addr`.
pub open spec fn after_hold(
    m: Map<(Seq<char>, Seq<char>), EscrowView>,
    owner: Seq<char>,
    addr: Seq<char>,
    funds: Seq<CoinView>,
    condition: Option<ConditionView>,
    recipient: RecipientView,
) -> Map<(Seq<char>, Seq<char>), EscrowView> {
    m.insert(
        (owner, addr),
        deposited(
            if m.dom().contains((owner, addr)) {
                Some(m[(owner, addr)])
            } else {
                None
            },
            funds,
            condition,
            recipient,
            addr,
        ),
    )
}

/// What a deposit comes to. Where [`hold_funds_error`] names an error, the
/// call fails with it and the ledger stays as it was. Else the ledger is
/// [`after_hold`], and the response names the caller, the recipient, its
/// address, and the condition under which the record now stands.
pub open spec fn hold_funds_post(
    before: Seq<RecordView>,
    after: Seq<RecordView>,
    sender: Seq<char>,
    funds: Seq<CoinView>,
    condition: Option<ConditionView>,
    recipient: RecipientView,
    resolved: Option<Seq<char>>,
    r: Result<ResponseView, ErrorView>,
) -> bool {
    match hold_funds_error(before, sender, funds, condition, resolved) {
        Some(e) => r == Err::<ResponseView, ErrorView>(e) && after == before,
        None => {
            let addr = resolved.unwrap();
            &&& entries_map(after) == after_hold(
                entries_map(before),
                sender,
                addr,
                funds,
                condition,
                recipient,
            )
            &&& r == Ok::<ResponseView, ErrorView>(
                ResponseView::HoldFunds {
                    sender,
                    recipient,
                    recipient_addr: addr,
                    condition: deposited(
                        lookup(before, sender, addr),
                        funds,
                        condition,
                        recipient,
                        addr,
                    ).condition,
                },
            )
        },
    }
}

/// Merges a deposit into the escrow that stands under a key, or makes the
/// escrow where none stands there: see [`deposited`]. The escrow that stands
/// keeps its condition, and the condition that came with the deposit is
/// dropped unread; a new escrow needs a well-formed condition.
pub fn merge_or_create(
    owner: &str,
    existing: Option<Escrow>,
    funds: Vec<Coin>,
    condition: Option<EscrowCondition>,
    recipient: Recipient,
    recipient_addr: String,
) -> (r: Result<Escrow, ContractError>)
    requires
        valid_funds(coins_view(funds@)),
        existing matches Some(e) ==> e@.wf(),
    ensures
        match r {
            Ok(e) => {
                &&& deposit_error(
                    escrow_view(existing),
                    owner@,
                    recipient_addr@,
                    coins_view(funds@),
                    condition_view(condition),
                ) is None
                &&& e@ == deposited(
                    escrow_view(existing),
                    coins_view(funds@),
                    condition_view(condition),
                    recipient@,
                    recipient_addr@,
                )
                &&& e@.wf()
            },
            Err(err) => deposit_error(
                escrow_view(existing),
                owner@,
                recipient_addr@,
                coins_view(funds@),
                condition_view(condition),
            ) == Some(err@),
        },
{
    match existing {
        Some(held) => {
            let mut escrow = Escrow {
                coins: held.coins,
                condition: held.condition,
                recipient,
                recipient_addr,
            };
            proof {
                lemma_merge_keeps(escrow@.coins, coins_view(funds@));
            }
            if escrow.add_funds(&funds) {
                Ok(escrow)
            } else {
                Err(
                    ContractError::Overflow {
                        owner: owner.to_owned(),
                        recipient: escrow.recipient_addr,
                    },
                )
            }
        },
        None => {
            if is_well_formed(&condition) {
                Ok(Escrow { coins: funds, condition, recipient, recipient_addr })
            } else {
                Err(
                    ContractError::InvalidCondition {
                        owner: owner.to_owned(),
                        recipient: recipient_addr,
                    },
                )
            }
        },
    }
}

/// Holds the funds of the call for a recipient.
///
/// `resolved` is what the host's resolver made of the recipient of the
/// deposit, which is [`recipient_or_sender`] of `recipient` and the caller:
/// the address, or `None` where it found none. The funds are merged into the
/// record under (caller, address) where one stands, and its condition stays;
/// else they make a new record under `condition`. Nothing goes out.
pub fn execute_hold_funds(
    ledger: &mut Ledger,
    info: MessageInfo,
    condition: Option<EscrowCondition>,
    recipient: Option<Recipient>,
    resolved: Option<String>,
) -> (r: Result<Response, ContractError>)
    requires
        old(ledger).wf(),
        valid_funds(coins_view(info.funds@)),
    ensures
        final(ledger).wf(),
        hold_funds_post(
            old(ledger)@,
            final(ledger)@,
            info.sender@,
            coins_view(info.funds@),
            condition_view(condition),
            recipient_or(recipient, info.sender@),
            string_view(resolved),
            result_view(r),
        ),
{
    let MessageInfo { sender, funds } = info;
    let rec = recipient_or_sender(recipient, sender.as_str());
    let recipient_addr = match resolved {
        Some(addr) => addr,
        None => {
            return Err(ContractError::RecipientResolutionFailed { owner: sender });
        },
    };
    let existing = ledger.get(sender.as_str(), recipient_addr.as_str());
    proof {
        lemma_lookup_map(ledger@, sender@, recipient_addr@);
        if existing is Some {
            let i = key_pos(ledger@, sender@, recipient_addr@);
            assert(key_at(ledger@, i, sender@, recipient_addr@));
        }
    }
    let escrow = merge_or_create(
        sender.as_str(),
        existing,
        funds,
        condition,
        rec,
        recipient_addr.clone(),
    )?;
    let response = Response::HoldFunds {
        sender: sender.clone(),
        recipient: escrow.recipient.clone(),
        recipient_addr: recipient_addr.clone(),
        condition: clone_condition(&escrow.condition),
    };
    ledger.put(sender, recipient_addr, escrow);
    Ok(response)
}

/// What an attempt to release one record came to.
#[derive(Debug, PartialEq, Eq)]
pub enum ReleaseAttempt {
    /// No record stands under the key.
    NoRecord,
    /// The record's condition holds its value back.
    Locked,
    /// The record is gone from the ledger; its whole value is to go out.
    Released(Transfer),
}

/// Tries to release the record under (owner, recipient): an open record is
/// taken out of the ledger and becomes a transfer of all it held; a locked
/// one stays, and so does the ledger.
pub fn attempt_release(ledger: &mut Ledger, block: &BlockInfo, owner: &str, recipient: &str) -> (r:
    ReleaseAttempt)
    requires
        old(ledger).wf(),
    ensures
        final(ledger).wf(),
        match lookup(old(ledger)@, owner@, recipient@) {
            None => r is NoRecord && final(ledger)@ == old(ledger)@,
            Some(e) => if e.is_locked(*block) {
                r is Locked && final(ledger)@ == old(ledger)@
            } else {
                &&& r matches ReleaseAttempt::Released(t)
                &&& t@ == e.transfer()
                &&& final(ledger).as_map() == old(ledger).as_map().remove((owner@, recipient@))
            },
        },
{
    match ledger.get(owner, recipient) {
        None => ReleaseAttempt::NoRecord,
        Some(escrow) => {
            if escrow.is_locked(block) {
                ReleaseAttempt::Locked
            } else {
                ledger.delete(owner, recipient);
                ReleaseAttempt::Released(escrow.into_transfer())
            }
        },
    }
}

/// The records of `p` that are open at time `now`, in their order.
pub open spec fn unlocked(p: Seq<RecordView>, now: BlockInfo) -> Seq<RecordView>
    decreases p.len(),
{
    if p.len() == 0 {
        Seq::empty()
    } else {
        let rest = unlocked(p.drop_last(), now);
        if p.last().escrow.is_locked(now) {
            rest
        } else {
            rest.push(p.last())
        }
    }
}

/// The transfers that release the records of `p`, one for each.
pub open spec fn transfers_of(p: Seq<RecordView>) -> Seq<TransferView> {
    p.map_values(|r: RecordView| r.escrow.transfer())
}

/// The keys of the records of `p`.
pub open spec fn key_set(p: Seq<RecordView>) -> Set<(Seq<char>, Seq<char>)> {
    Set::new(|k: (Seq<char>, Seq<char>)| has_key(p, k.0, k.1))
}

/// The open records of a list are records of the list, and open.
pub proof fn lemma_unlocked(p: Seq<RecordView>, now: BlockInfo)
    ensures
        unlocked(p, now).len() <= p.len(),
        forall|j: int|
            0 <= j < unlocked(p, now).len() ==> p.contains(#[trigger] unlocked(p, now)[j])
                && !unlocked(p, now)[j].escrow.is_locked(now),
        forall|i: int|
            0 <= i < p.len() && !(#[trigger] p[i]).escrow.is_locked(now) ==> unlocked(
                p,
                now,
            ).contains(p[i]),
    decreases p.len(),
{
    if p.len() > 0 {
        let front = p.drop_last();
        let rest = unlocked(front, now);
        let all = unlocked(p, now);
        lemma_unlocked(front, now);
        assert forall|j: int| 0 <= j < all.len() implies p.contains(#[trigger] all[j])
            && !all[j].escrow.is_locked(now) by {
            if j < rest.len() {
                assert(front.contains(rest[j]));
                let i = choose|i: int| 0 <= i < front.len() && front[i] == rest[j];
                assert(p[i] == all[j]);
            } else {
                assert(p[p.len() - 1] == all[j]);
            }
        }
        assert forall|i: int| 0 <= i < p.len() && !(#[trigger] p[i]).escrow.is_locked(
            now,
        ) implies all.contains(p[i]) by {
            if i < front.len() {
                assert(front[i] == p[i]);
                assert(rest.contains(front[i]));
                let j = choose|j: int| 0 <= j < rest.len() && rest[j] == front[i];
                assert(all[j] == p[i]);
            } else {
                assert(all[all.len() - 1] == p[i]);
            }
        }
    }
}

/// What a release by recipient comes to. The recipient is the one named, or
/// the caller. Where the scanned page is empty, or holds locked records
/// only, the call fails and the ledger stays as it was. Else every open
/// record of the page is gone from the ledger, all else stays, and the
/// response holds one transfer for each, in the order of the scan.
pub open spec fn release_funds_post(
    before: Seq<RecordView>,
    after: Seq<RecordView>,
    now: BlockInfo,
    sender: Seq<char>,
    recipient_addr: Option<Seq<char>>,
    start_after: Option<Seq<char>>,
    limit: Option<u32>,
    r: Result<ResponseView, ErrorView>,
) -> bool {
    let recipient = address_or(recipient_addr, sender);
    let scanned = page(before, recipient, start_after, page_size(limit));
    let open = unlocked(scanned, now);
    if scanned.len() == 0 {
        r == Err::<ResponseView, ErrorView>(ErrorView::NoMatchingRecipientRecords { recipient })
            && after == before
    } else if open.len() == 0 {
        r == Err::<ResponseView, ErrorView>(ErrorView::FundsLocked { of_owner: None, recipient })
            && after == before
    } else {
        &&& r == Ok::<ResponseView, ErrorView>(
            ResponseView::ReleaseFunds { recipient_addr: recipient, messages: transfers_of(open) },
        )
        &&& entries_map(after) == entries_map(before).remove_keys(key_set(open))
    }
}

/// Releases what is held for a recipient and is open.
///
/// The recipient is `recipient_addr`, or the caller where none is named. One
/// page of the recipient's records is scanned, see
/// [`Ledger::scan_by_recipient`]; every open record of it leaves the ledger
/// and becomes one transfer, in the order of the scan; the locked ones stay as
/// they are. The call fails, and changes nothing, where the page is empty or
/// holds locked records only.
pub fn execute_release_funds(
    ledger: &mut Ledger,
    block: &BlockInfo,
    info: MessageInfo,
    recipient_addr: Option<String>,
    start_after: Option<String>,
    limit: Option<u32>,
) -> (r: Result<Response, ContractError>)
    requires
        old(ledger).wf(),
    ensures
        final(ledger).wf(),
        release_funds_post(
            old(ledger)@,
            final(ledger)@,
            *block,
            info.sender@,
            string_view(recipient_addr),
            string_view(start_after),
            limit,
            result_view(r),
        ),
{
    let recipient = match recipient_addr {
        Some(a) => a,
        None => info.sender,
    };
    let after: Option<&str> = match &start_after {
        Some(s) => Some(s.as_str()),
        None => None,
    };
    let found = ledger.scan_by_recipient(recipient.as_str(), after, limit);
    let ghost before = ledger@;
    let ghost scanned = records_view(found@);
    proof {
        lemma_page(before, recipient@, string_view(start_after), page_size(limit));
    }
    if found.len() == 0 {
        return Err(ContractError::NoMatchingRecipientRecords { recipient });
    }
    let mut messages: Vec<Transfer> = Vec::new();
    let mut t: usize = 0;
    assert(scanned.take(0) =~= Seq::<RecordView>::empty());
    assert(entries_map(before).remove_keys(key_set(Seq::<RecordView>::empty())) =~= entries_map(
        before,
    ));
    while t < found.len()
        invariant
            t <= found.len(),
            ledger.wf(),
            sorted(before),
            sorted(scanned),
            scanned == records_view(found@),
            forall|j: int|
                0 <= j < scanned.len() ==> before.contains(#[trigger] scanned[j]) && scanned[j].recipient
                    == recipient@,
            transfers_view(messages@) == transfers_of(unlocked(scanned.take(t as int), *block)),
            ledger.as_map() == entries_map(before).remove_keys(
                key_set(unlocked(scanned.take(t as int), *block)),
            ),
            messages.len() == 0 ==> ledger@ == before,
        decreases found.len() - t,
    {
        let ghost done = unlocked(scanned.take(t as int), *block);
        let ghost here = scanned[t as int];
        proof {
            assert(scanned.take(t + 1).drop_last() =~= scanned.take(t as int));
            assert(scanned.take(t + 1).last() == here);
            lemma_member_lookup(before, here);
            lemma_unlocked(scanned.take(t as int), *block);
            if has_key(done, here.owner, here.recipient) {
                let q = key_pos(done, here.owner, here.recipient);
                assert(scanned.take(t as int).contains(done[q]));
                let j = choose|j: int|
                    0 <= j < scanned.take(t as int).len() && scanned.take(t as int)[j] == done[q];
                lemma_sorted_keys_differ(scanned, j, t as int);
            }
            assert(ledger.as_map().dom().contains((here.owner, here.recipient)));
            lemma_lookup_map(ledger@, here.owner, here.recipient);
        }
        let ghost map_before = ledger.as_map();
        match attempt_release(ledger, block, found[t].owner.as_str(), recipient.as_str()) {
            ReleaseAttempt::Released(transfer) => {
                let ghost sent = transfers_view(messages@);
                messages.push(transfer);
                proof {
                    let now_open = unlocked(scanned.take(t + 1), *block);
                    assert(now_open == done.push(here));
                    assert(transfers_view(messages@) =~= sent.push(here.escrow.transfer()));
                    assert(transfers_of(now_open) =~= transfers_of(done).push(
                        here.escrow.transfer(),
                    ));
                    assert forall|k: (Seq<char>, Seq<char>)| key_set(now_open).contains(k) == (
                    key_set(done).contains(k) || k == (here.owner, here.recipient)) by {
                        if has_key(now_open, k.0, k.1) {
                            let q = key_pos(now_open, k.0, k.1);
                            if q < done.len() {
                                assert(key_at(done, q, k.0, k.1));
                            }
                        }
                        if has_key(done, k.0, k.1) {
                            let q = key_pos(done, k.0, k.1);
                            assert(key_at(now_open, q, k.0, k.1));
                        }
                        if k == (here.owner, here.recipient) {
                            assert(key_at(now_open, done.len() as int, k.0, k.1));
                        }
                    }
                    assert(ledger.as_map() =~= entries_map(before).remove_keys(key_set(now_open)));
                }
            },
            _ => {},
        }
        t += 1;
    }
    proof {
        assert(scanned.take(t as int) =~= scanned);
    }
    if messages.len() == 0 {
        return Err(ContractError::FundsLocked { of_owner: None, recipient });
    }
    Ok(Response::ReleaseFunds { recipient_addr: recipient, messages })
}

/// What a release by key comes to. The recipient is the one named, or the
/// caller. Where no record stands under (owner, recipient), or the one that
/// does is locked, the call fails and the ledger stays as it was. Else the
/// record is gone from the ledger, all else stays, and the response holds the
/// one transfer of all that the record held.
pub open spec fn release_specific_funds_post(
    before: Seq<RecordView>,
    after: Seq<RecordView>,
    now: BlockInfo,
    sender: Seq<char>,
    owner: Seq<char>,
    recipient: Option<Seq<char>>,
    r: Result<ResponseView, ErrorView>,
) -> bool {
    let to = address_or(recipient, sender);
    match lookup(before, owner, to) {
        None => r == Err::<ResponseView, ErrorView>(
            ErrorView::NoCustodyRecord { owner, recipient: to },
        ) && after == before,
        Some(held) => if held.is_locked(now) {
            r == Err::<ResponseView, ErrorView>(
                ErrorView::FundsLocked { of_owner: Some(owner), recipient: to },
            ) && after == before
        } else {
            &&& r == Ok::<ResponseView, ErrorView>(
                ResponseView::ReleaseFunds { recipient_addr: to, messages: seq![held.transfer()] },
            )
            &&& entries_map(after) == entries_map(before).remove((owner, to))
            &&& lookup(after, owner, to) is None
        },
    }
}

/// Releases what `owner` holds for a recipient.
///
/// The recipient is `recipient` (the caller where none is named). The record
/// under (owner, recipient) leaves the ledger and becomes one transfer. The
/// call fails, and changes nothing, where no record stands there or where it
/// is locked.
pub fn execute_release_specific_funds(
    ledger: &mut Ledger,
    block: &BlockInfo,
    info: MessageInfo,
    owner: String,
    recipient: Option<String>,
) -> (r: Result<Response, ContractError>)
    requires
        old(ledger).wf(),
    ensures
        final(ledger).wf(),
        release_specific_funds_post(
            old(ledger)@,
            final(ledger)@,
            *block,
            info.sender@,
            owner@,
            string_view(recipient),
            result_view(r),
        ),
{
    let to = match recipient {
        Some(a) => a,
        None => info.sender,
    };
    let attempt = attempt_release(ledger, block, owner.as_str(), to.as_str());
    proof {
        lemma_lookup_map(ledger@, owner@, to@);
    }
    match attempt {
        ReleaseAttempt::NoRecord => Err(ContractError::NoCustodyRecord { owner, recipient: to }),
        ReleaseAttempt::Locked => Err(
            ContractError::FundsLocked { of_owner: Some(owner), recipient: to },
        ),
        ReleaseAttempt::Released(transfer) => {
            let mut messages: Vec<Transfer> = Vec::new();
            messages.push(transfer);
            assert(transfers_view(messages@) =~= seq![transfer@]);
            Ok(Response::ReleaseFunds { recipient_addr: to, messages })
        },
    }
}

/// Carries out a call that changes the ledger. `resolved` is read for
/// [`ExecuteMsg::HoldFunds`] only: see [`execute_hold_funds`].
pub fn execute(
    ledger: &mut Ledger,
    block: &BlockInfo,
    info: MessageInfo,
    msg: ExecuteMsg,
    resolved: Option<String>,
) -> (r: Result<Response, ContractError>)
    requires
        old(ledger).wf(),
        msg is HoldFunds ==> valid_funds(coins_view(info.funds@)),
    ensures
        final(ledger).wf(),
        match msg {
            ExecuteMsg::HoldFunds { condition, recipient } => hold_funds_post(
                old(ledger)@,
                final(ledger)@,
                info.sender@,
                coins_view(info.funds@),
                condition_view(condition),
                recipient_or(recipient, info.sender@),
                string_view(resolved),
                result_view(r),
            ),
            ExecuteMsg::ReleaseFunds { recipient_addr, start_after, limit } => release_funds_post(
                old(ledger)@,
                final(ledger)@,
                *block,
                info.sender@,
                string_view(recipient_addr),
                string_view(start_after),
                limit,
                result_view(r),
            ),
            ExecuteMsg::ReleaseSpecificFunds { owner, recipient_addr } => {
                release_specific_funds_post(
                    old(ledger)@,
                    final(ledger)@,
                    *block,
                    info.sender@,
                    owner@,
                    string_view(recipient_addr),
                    result_view(r),
                )
            },
        },
{
    match msg {
        ExecuteMsg::HoldFunds { condition, recipient } => execute_hold_funds(
            ledger,
            info,
            condition,
            recipient,
            resolved,
        ),
        ExecuteMsg::ReleaseFunds { recipient_addr, start_after, limit } => execute_release_funds(
            ledger,
            block,
            info,
            recipient_addr,
            start_after,
            limit,
        ),
        ExecuteMsg::ReleaseSpecificFunds { owner, recipient_addr } => {
            execute_release_specific_funds(ledger, block, info, owner, recipient_addr)
        },
    }
}

/// The escrow under (owner, recipient), if there is one.
pub fn query_held_funds(ledger: &Ledger, owner: String, recipient: String) -> (r:
    GetLockedFundsResponse)
    requires
        ledger.wf(),
    ensures
        escrow_view(r.funds) == lookup(ledger@, owner@, recipient@),
{
    GetLockedFundsResponse { funds: ledger.get(owner.as_str(), recipient.as_str()) }
}

/// The escrows of a list of records, one for each.
pub open spec fn escrows_of(p: Seq<RecordView>) -> Seq<EscrowView> {
    p.map_values(|r: RecordView| r.escrow)
}

/// The escrows held for `recipient`: one page of them, as
/// [`Ledger::scan_by_recipient`] scans.
pub fn query_funds_for_recipient(
    ledger: &Ledger,
    recipient: String,
    start_after: Option<String>,
    limit: Option<u32>,
) -> (r: GetLockedFundsForRecipientResponse)
    requires
        ledger.wf(),
    ensures
        escrows_view(r.funds@) == escrows_of(
            page(ledger@, recipient@, string_view(start_after), page_size(limit)),
        ),
{
    let after: Option<&str> = match &start_after {
        Some(s) => Some(s.as_str()),
        None => None,
    };
    let mut found = ledger.scan_by_recipient(recipient.as_str(), after, limit);
    let ghost scanned = records_view(found@);
    let mut funds: Vec<Escrow> = Vec::new();
    let mut i: usize = 0;
    while i < found.len()
        invariant
            i <= found.len(),
            scanned == records_view(found@),
            escrows_view(funds@) == escrows_of(scanned.take(i as int)),
        decreases found.len() - i,
    {
        let ghost so_far = escrows_view(funds@);
        funds.push(found[i].escrow.clone());
        assert(escrows_view(funds@) =~= so_far.push(scanned[i as int].escrow));
        assert(escrows_of(scanned.take(i + 1)) =~= escrows_of(scanned.take(i as int)).push(
            scanned[i as int].escrow,
        ));
        i += 1;
    }
    assert(scanned.take(i as int) =~= scanned);
    GetLockedFundsForRecipientResponse { funds }
}

/// Answers a query.
pub fn query(ledger: &Ledger, msg: QueryMsg) -> (r: QueryResponse)
    requires
        ledger.wf(),
    ensures
        match msg {
            QueryMsg::GetLockedFunds { owner, recipient } => {
                &&& r matches QueryResponse::LockedFunds(found)
                &&& escrow_view(found.funds) == lookup(ledger@, owner@, recipient@)
            },
            QueryMsg::GetLockedFundsForRecipient { recipient, start_after, limit } => {
                &&& r matches QueryResponse::LockedFundsForRecipient(found)
                &&& escrows_view(found.funds@) == escrows_of(
                    page(ledger@, recipient@, string_view(start_after), page_size(limit)),
                )
            },
        },
{
    match msg {
        QueryMsg::GetLockedFunds { owner, recipient } => QueryResponse::LockedFunds(
            query_held_funds(ledger, owner, recipient),
        ),
        QueryMsg::GetLockedFundsForRecipient { recipient, start_after, limit } => {
            QueryResponse::LockedFundsForRecipient(
                query_funds_for_recipient(ledger, recipient, start_after, limit),
            )
        },
    }
}

} // verus!
