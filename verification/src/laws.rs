//! What holds of the engine over more than one call, proved from the
//! contracts of the operations.

use vstd::prelude::*;
use crate::coin::{
    add_coin, amount_of, denoms_unique, has_denom, lemma_amount_of_absent, lemma_first_pos,
    lemma_merge_amount, merge, CoinView,
};
use crate::condition::{locked, minimum_met, BlockInfo, ConditionView};
use crate::contract::{
    address_or, hold_funds_post, key_set, lemma_unlocked, release_funds_post,
    release_specific_funds_post, transfers_of, unlocked, ResponseView,
};
use crate::error::ErrorView;
use crate::ledger::{
    entries_map, has_key, in_scan, key_at, key_pos, lemma_entries_determined, lemma_key_pos,
    lemma_lookup_map, lemma_page, lemma_select_after, lemma_sorted_keys_differ, lookup, page,
    page_size, select, sorted, valid_entries, RecordView,
};
use crate::recipient::RecipientView;

verus! {

/// A ledger holds at most one record for a pair of owner and recipient.
pub proof fn law_one_record_for_a_key(s: Seq<RecordView>, i: int, j: int)
    requires
        valid_entries(s),
        0 <= i < s.len(),
        0 <= j < s.len(),
        s[i].owner == s[j].owner,
        s[i].recipient == s[j].recipient,
    ensures
        i == j,
{
    if i != j {
        lemma_sorted_keys_differ(s, i, j);
    }
}

/// A ledger is what it holds under its keys: two ledgers that hold the same
/// escrows under the same keys have the same records in the same order.
pub proof fn law_ledger_is_its_map(s: Seq<RecordView>, t: Seq<RecordView>)
    requires
        valid_entries(s),
        valid_entries(t),
        entries_map(s) == entries_map(t),
    ensures
        s == t,
{
    lemma_entries_determined(s, t);
}

/// Held value holds nothing of a denomination of which it has no coin.
pub proof fn law_absent_denomination_counts_as_nothing(coins: Seq<CoinView>, denom: Seq<char>)
    requires
        !has_denom(coins, denom),
    ensures
        amount_of(coins, denom) == 0,
{
    lemma_amount_of_absent(coins, denom);
}

/// Where no denomination occurs twice, value holds of a denomination what
/// its one coin of it holds.
pub proof fn law_held_amount_is_the_coins(coins: Seq<CoinView>, i: int)
    requires
        denoms_unique(coins),
        0 <= i < coins.len(),
    ensures
        amount_of(coins, coins[i].denom) == coins[i].amount,
    decreases coins.len(),
{
    let rest = coins.drop_last();
    let d = coins[i].denom;
    if i == coins.len() - 1 {
        assert forall|j: int| 0 <= j < rest.len() implies (#[trigger] rest[j]).denom != d by {
            assert(coins[j].denom != coins[coins.len() - 1].denom);
        }
        lemma_amount_of_absent(rest, d);
    } else {
        assert(coins[i].denom != coins[coins.len() - 1].denom);
        assert(rest[i] == coins[i]);
        law_held_amount_is_the_coins(rest, i);
    }
}

/// A coin that comes to a coin of its denomination makes one coin of the sum
/// of the two; a coin that comes to a coin of another denomination stands
/// behind it, and each keeps its amount.
pub proof fn law_two_coins_merge(held: CoinView, deposit: CoinView)
    ensures
        held.denom == deposit.denom ==> merge(seq![held], seq![deposit]) == seq![
            CoinView { denom: held.denom, amount: held.amount + deposit.amount },
        ],
        held.denom != deposit.denom ==> merge(seq![held], seq![deposit]) == seq![held, deposit],
{
    let h = seq![held];
    let d = seq![deposit];
    assert(d.drop_last() =~= Seq::<CoinView>::empty());
    assert(merge(h, d.drop_last()) == h);
    assert(merge(h, d) == add_coin(h, deposit));
    if held.denom == deposit.denom {
        assert(h[0].denom == deposit.denom);
        lemma_first_pos(h, deposit.denom);
        assert(add_coin(h, deposit) =~= seq![
            CoinView { denom: held.denom, amount: held.amount + deposit.amount },
        ]);
    } else {
        assert(add_coin(h, deposit) =~= seq![held, deposit]);
    }
}

/// A deposit into a record that stands leaves the record under the condition
/// that it stood under, whatever condition comes with the deposit.
pub proof fn law_deposit_keeps_condition(
    before: Seq<RecordView>,
    after: Seq<RecordView>,
    sender: Seq<char>,
    funds: Seq<CoinView>,
    condition: Option<ConditionView>,
    recipient: RecipientView,
    addr: Seq<char>,
    r: Result<ResponseView, ErrorView>,
)
    requires
        hold_funds_post(before, after, sender, funds, condition, recipient, Some(addr), r),
        r is Ok,
        lookup(before, sender, addr) is Some,
    ensures
        lookup(after, sender, addr) is Some,
        lookup(after, sender, addr).unwrap().condition == lookup(
            before,
            sender,
            addr,
        ).unwrap().condition,
{
    lemma_lookup_map(before, sender, addr);
    lemma_lookup_map(after, sender, addr);
}

/// Of two deposits under one key of which the first makes the record, the
/// first one's condition is the record's, whatever condition comes with the
/// second.
pub proof fn law_merge_preserves_original_condition(
    s0: Seq<RecordView>,
    s1: Seq<RecordView>,
    s2: Seq<RecordView>,
    sender: Seq<char>,
    addr: Seq<char>,
    funds1: Seq<CoinView>,
    condition1: Option<ConditionView>,
    recipient1: RecipientView,
    r1: Result<ResponseView, ErrorView>,
    funds2: Seq<CoinView>,
    condition2: Option<ConditionView>,
    recipient2: RecipientView,
    r2: Result<ResponseView, ErrorView>,
)
    requires
        lookup(s0, sender, addr) is None,
        hold_funds_post(s0, s1, sender, funds1, condition1, recipient1, Some(addr), r1),
        r1 is Ok,
        hold_funds_post(s1, s2, sender, funds2, condition2, recipient2, Some(addr), r2),
        r2 is Ok,
    ensures
        lookup(s2, sender, addr) is Some,
        lookup(s2, sender, addr).unwrap().condition == condition1,
{
    lemma_lookup_map(s0, sender, addr);
    lemma_lookup_map(s1, sender, addr);
    lemma_lookup_map(s2, sender, addr);
}

/// After a deposit a record holds of every denomination what it held before
/// and what the deposit holds of it; a new record holds what the deposit
/// holds.
pub proof fn law_deposit_adds(
    before: Seq<RecordView>,
    after: Seq<RecordView>,
    sender: Seq<char>,
    funds: Seq<CoinView>,
    condition: Option<ConditionView>,
    recipient: RecipientView,
    addr: Seq<char>,
    r: Result<ResponseView, ErrorView>,
    denom: Seq<char>,
)
    requires
        hold_funds_post(before, after, sender, funds, condition, recipient, Some(addr), r),
        r is Ok,
    ensures
        lookup(after, sender, addr) is Some,
        amount_of(lookup(after, sender, addr).unwrap().coins, denom) == amount_of(funds, denom)
            + match lookup(before, sender, addr) {
            Some(e) => amount_of(e.coins, denom),
            None => 0,
        },
{
    lemma_lookup_map(before, sender, addr);
    lemma_lookup_map(after, sender, addr);
    match lookup(before, sender, addr) {
        Some(e) => {
            lemma_merge_amount(e.coins, funds, denom);
        },
        None => {},
    }
}

/// Two deposits under one key of which the first makes the record leave in
/// it, of every denomination, the sum of what the two hold of it: amounts of
/// one denomination add up, amounts of different denominations stand apart.
pub proof fn law_deposits_add_up(
    s0: Seq<RecordView>,
    s1: Seq<RecordView>,
    s2: Seq<RecordView>,
    sender: Seq<char>,
    addr: Seq<char>,
    funds1: Seq<CoinView>,
    condition1: Option<ConditionView>,
    recipient1: RecipientView,
    r1: Result<ResponseView, ErrorView>,
    funds2: Seq<CoinView>,
    condition2: Option<ConditionView>,
    recipient2: RecipientView,
    r2: Result<ResponseView, ErrorView>,
    denom: Seq<char>,
)
    requires
        lookup(s0, sender, addr) is None,
        hold_funds_post(s0, s1, sender, funds1, condition1, recipient1, Some(addr), r1),
        r1 is Ok,
        hold_funds_post(s1, s2, sender, funds2, condition2, recipient2, Some(addr), r2),
        r2 is Ok,
    ensures
        lookup(s2, sender, addr) is Some,
        lookup(s2, sender, addr).unwrap().coins == merge(funds1, funds2),
        amount_of(lookup(s2, sender, addr).unwrap().coins, denom) == amount_of(funds1, denom)
            + amount_of(funds2, denom),
{
    law_deposit_adds(s0, s1, sender, funds1, condition1, recipient1, addr, r1, denom);
    law_deposit_adds(s1, s2, sender, funds2, condition2, recipient2, addr, r2, denom);
    lemma_lookup_map(s0, sender, addr);
    lemma_lookup_map(s1, sender, addr);
    lemma_lookup_map(s2, sender, addr);
}

/// A height condition locks at every height below its own and at none from
/// its own on; a time condition does the same with the block time.
pub proof fn law_expiry_opens_at_its_mark(mark: u64, now: BlockInfo, held: Seq<CoinView>)
    ensures
        locked(Some(ConditionView::ExpireAtHeight(mark)), now, held) <==> now.height < mark,
        locked(Some(ConditionView::ExpireAtTime(mark)), now, held) <==> now.time < mark,
        mark > 0 ==> locked(
            Some(ConditionView::ExpireAtHeight(mark)),
            BlockInfo { height: (mark - 1) as u64, time: now.time },
            held,
        ),
        !locked(
            Some(ConditionView::ExpireAtHeight(mark)),
            BlockInfo { height: mark, time: now.time },
            held,
        ),
        mark > 0 ==> locked(
            Some(ConditionView::ExpireAtTime(mark)),
            BlockInfo { height: now.height, time: (mark - 1) as u64 },
            held,
        ),
        !locked(
            Some(ConditionView::ExpireAtTime(mark)),
            BlockInfo { height: now.height, time: mark },
            held,
        ),
{
}

/// A height or time condition that has opened stays open as height and time
/// go on.
pub proof fn law_expiry_stays_open(
    condition: ConditionView,
    earlier: BlockInfo,
    later: BlockInfo,
    held: Seq<CoinView>,
)
    requires
        condition is ExpireAtHeight || condition is ExpireAtTime,
        earlier.height <= later.height,
        earlier.time <= later.time,
        !locked(Some(condition), earlier, held),
    ensures
        !locked(Some(condition), later, held),
{
}

/// Minimum funds that ask for nothing lock nothing, whatever is held.
pub proof fn law_minimum_of_nothing_never_locks(
    required: Seq<CoinView>,
    now: BlockInfo,
    held: Seq<CoinView>,
)
    requires
        forall|i: int| 0 <= i < required.len() ==> (#[trigger] required[i]).amount == 0,
    ensures
        !locked(Some(ConditionView::MinimumFunds(required)), now, held),
{
}

/// Minimum funds lock exactly until every required amount is held; once they
/// are met, no deposit locks them again.
pub proof fn law_minimum_funds_stay_met(
    required: Seq<CoinView>,
    now: BlockInfo,
    later: BlockInfo,
    held: Seq<CoinView>,
    deposit: Seq<CoinView>,
)
    requires
        !locked(Some(ConditionView::MinimumFunds(required)), now, held),
    ensures
        minimum_met(held, required),
        !locked(Some(ConditionView::MinimumFunds(required)), later, merge(held, deposit)),
{
    assert forall|i: int| 0 <= i < required.len() implies amount_of(
        merge(held, deposit),
        (#[trigger] required[i]).denom,
    ) >= required[i].amount by {
        lemma_merge_amount(held, deposit, required[i].denom);
    }
}

/// After a release by key that succeeded, the ledger holds nothing under the
/// key.
pub proof fn law_exact_release_deletes(
    before: Seq<RecordView>,
    after: Seq<RecordView>,
    now: BlockInfo,
    sender: Seq<char>,
    owner: Seq<char>,
    recipient: Option<Seq<char>>,
    r: Result<ResponseView, ErrorView>,
)
    requires
        release_specific_funds_post(before, after, now, sender, owner, recipient, r),
        r is Ok,
    ensures
        lookup(after, owner, address_or(recipient, sender)) is None,
        !has_key(after, owner, address_or(recipient, sender)),
{
}

/// A release by recipient that succeeds releases exactly the open records of
/// the scanned page: it emits one transfer for each of them, they are gone
/// from the ledger, and every other record, a locked one of the page among
/// them, stands afterwards with the escrow that it stood with.
pub proof fn law_bulk_release_partial(
    before: Seq<RecordView>,
    after: Seq<RecordView>,
    now: BlockInfo,
    sender: Seq<char>,
    recipient_addr: Option<Seq<char>>,
    start_after: Option<Seq<char>>,
    limit: Option<u32>,
    r: Result<ResponseView, ErrorView>,
    i: int,
)
    requires
        valid_entries(before),
        release_funds_post(before, after, now, sender, recipient_addr, start_after, limit, r),
        r is Ok,
        0 <= i < before.len(),
    ensures
        ({
            let scanned = page(
                before,
                address_or(recipient_addr, sender),
                start_after,
                page_size(limit),
            );
            let kept = lookup(after, before[i].owner, before[i].recipient);
            &&& r matches Ok(ResponseView::ReleaseFunds { messages, .. })
            &&& messages == transfers_of(unlocked(scanned, now))
            &&& messages.len() == unlocked(scanned, now).len()
            &&& messages.len() > 0
            &&& if scanned.contains(before[i]) && !before[i].escrow.is_locked(now) {
                kept is None
            } else {
                kept == Some(before[i].escrow)
            }
        }),
{
    let recipient = address_or(recipient_addr, sender);
    let scanned = page(before, recipient, start_after, page_size(limit));
    let open = unlocked(scanned, now);
    let x = before[i];
    lemma_page(before, recipient, start_after, page_size(limit));
    lemma_unlocked(scanned, now);
    lemma_key_pos(before, i);
    lemma_lookup_map(after, x.owner, x.recipient);
    if scanned.contains(x) && !x.escrow.is_locked(now) {
        let j = choose|j: int| 0 <= j < scanned.len() && scanned[j] == x;
        assert(open.contains(scanned[j]));
        let q = choose|q: int| 0 <= q < open.len() && open[q] == x;
        assert(key_at(open, q, x.owner, x.recipient));
        assert(key_set(open).contains((x.owner, x.recipient)));
    } else {
        if has_key(open, x.owner, x.recipient) {
            let q = key_pos(open, x.owner, x.recipient);
            assert(key_at(open, q, x.owner, x.recipient));
            assert(scanned.contains(open[q]));
            assert(before.contains(open[q]));
            let p = choose|p: int| 0 <= p < before.len() && before[p] == open[q];
            if p != i {
                lemma_sorted_keys_differ(before, p, i);
            }
        }
        assert(!key_set(open).contains((x.owner, x.recipient)));
    }
}

/// A release by recipient whose scanned page holds locked records only fails
/// with `FundsLocked`, and the ledger stays as it was.
pub proof fn law_bulk_release_all_locked(
    before: Seq<RecordView>,
    after: Seq<RecordView>,
    now: BlockInfo,
    sender: Seq<char>,
    recipient_addr: Option<Seq<char>>,
    start_after: Option<Seq<char>>,
    limit: Option<u32>,
    r: Result<ResponseView, ErrorView>,
)
    requires
        release_funds_post(before, after, now, sender, recipient_addr, start_after, limit, r),
        page(before, address_or(recipient_addr, sender), start_after, page_size(limit)).len() > 0,
        forall|j: int|
            0 <= j < page(
                before,
                address_or(recipient_addr, sender),
                start_after,
                page_size(limit),
            ).len() ==> (#[trigger] page(
                before,
                address_or(recipient_addr, sender),
                start_after,
                page_size(limit),
            )[j]).escrow.is_locked(now),
    ensures
        r == Err::<ResponseView, ErrorView>(
            ErrorView::FundsLocked {
                of_owner: None,
                recipient: address_or(recipient_addr, sender),
            },
        ),
        after == before,
{
    let scanned = page(before, address_or(recipient_addr, sender), start_after, page_size(limit));
    let open = unlocked(scanned, now);
    lemma_unlocked(scanned, now);
    if open.len() > 0 {
        assert(scanned.contains(open[0]));
        let j = choose|j: int| 0 <= j < scanned.len() && scanned[j] == open[0];
        assert(scanned[j].escrow.is_locked(now));
    }
}

/// A scan misses no record: every record for the recipient whose owner
/// comes after the cursor is among those that the scan selects.
pub proof fn law_scan_finds_every_record(
    s: Seq<RecordView>,
    recipient: Seq<char>,
    start_after: Option<Seq<char>>,
    i: int,
)
    requires
        0 <= i < s.len(),
        in_scan(s[i], recipient, start_after),
    ensures
        select(s, recipient, start_after).contains(s[i]),
    decreases s.len(),
{
    let all = select(s, recipient, start_after);
    if i == s.len() - 1 {
        assert(all[all.len() - 1] == s[i]);
    } else {
        let front = s.drop_last();
        let rest = select(front, recipient, start_after);
        assert(front[i] == s[i]);
        law_scan_finds_every_record(front, recipient, start_after, i);
        let j = choose|j: int| 0 <= j < rest.len() && rest[j] == s[i];
        assert(all[j] == s[i]);
    }
}

/// Pages follow one another without a gap and without a repeat: a page of
/// `first` records, and the page of `second` records that resumes after the
/// owner of its last record, are together the page of `first + second`
/// records.
pub proof fn law_pages_continue(
    s: Seq<RecordView>,
    recipient: Seq<char>,
    start_after: Option<Seq<char>>,
    first: nat,
    second: nat,
)
    requires
        sorted(s),
        page(s, recipient, start_after, first).len() > 0,
    ensures
        page(s, recipient, start_after, first + second) == page(s, recipient, start_after, first)
            + page(
            s,
            recipient,
            Some(page(s, recipient, start_after, first).last().owner),
            second,
        ),
{
    let all = select(s, recipient, start_after);
    let one = page(s, recipient, start_after, first);
    let n = one.len() as int;
    lemma_select_after(s, recipient, start_after, n - 1);
    let two = page(s, recipient, Some(one.last().owner), second);
    assert(page(s, recipient, start_after, first + second) =~= one + two);
}

/// With pages of one record, the second page holds the record that stands
/// second in a scan of two.
pub proof fn law_pagination_stable(
    s: Seq<RecordView>,
    recipient: Seq<char>,
    start_after: Option<Seq<char>>,
)
    requires
        sorted(s),
        page(s, recipient, start_after, 2).len() == 2,
    ensures
        page(s, recipient, start_after, 1).len() == 1,
        page(s, recipient, start_after, 1)[0] == page(s, recipient, start_after, 2)[0],
        page(s, recipient, Some(page(s, recipient, start_after, 1)[0].owner), 1).len() == 1,
        page(s, recipient, Some(page(s, recipient, start_after, 1)[0].owner), 1)[0] == page(
            s,
            recipient,
            start_after,
            2,
        )[1],
{
    law_pages_continue(s, recipient, start_after, 1, 1);
}

} // verus!
