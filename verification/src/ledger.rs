//! The ledger: escrow records keyed by (owner, recipient), with an index that
//! walks them by recipient and, for one recipient, by owner.
//!
//! The primary store holds the records. The index holds the place of each
//! record in the store, in the order of the keys; every write and delete
//! keeps the two in step.

use vstd::prelude::*;
use vstd::string::*;
use crate::escrow::{escrow_view, Escrow, EscrowView};
use crate::text::{
    lemma_text_lt_asymmetric, lemma_text_lt_irreflexive, lemma_text_lt_total,
    lemma_text_lt_transitive, text_eq, text_lt, text_order, TextOrder,
};

verus! {

/// The page size of a scan that names none.
pub const DEFAULT_LIMIT: u32 = 10;

/// The largest page size of a scan.
pub const MAX_LIMIT: u32 = 30;

/// One entry of the ledger: a key and the escrow under it.
#[derive(Debug, PartialEq, Eq)]
pub struct Record {
    pub owner: String,
    pub recipient: String,
    pub escrow: Escrow,
}

/// A record as a mathematical value.
pub struct RecordView {
    pub owner: Seq<char>,
    pub recipient: Seq<char>,
    pub escrow: EscrowView,
}

impl View for Record {
    type V = RecordView;

    open spec fn view(&self) -> RecordView {
        RecordView { owner: self.owner@, recipient: self.recipient@, escrow: self.escrow@ }
    }
}

impl Clone for Record {
    fn clone(&self) -> (r: Self)
        ensures
            r@ == self@,
    {
        Record {
            owner: self.owner.clone(),
            recipient: self.recipient.clone(),
            escrow: self.escrow.clone(),
        }
    }
}

/// A list of records as a sequence of mathematical values.
pub open spec fn records_view(records: Seq<Record>) -> Seq<RecordView> {
    records.map_values(|r: Record| r@)
}

/// An optional string as a mathematical value.
pub open spec fn text_view(s: Option<&str>) -> Option<Seq<char>> {
    match s {
        Some(s) => Some(s@),
        None => None,
    }
}

/// The order of the keys: by recipient, and for one recipient by owner.
pub open spec fn key_lt(
    owner_a: Seq<char>,
    recipient_a: Seq<char>,
    owner_b: Seq<char>,
    recipient_b: Seq<char>,
) -> bool {
    text_lt(recipient_a, recipient_b) || (recipient_a == recipient_b && text_lt(owner_a, owner_b))
}

/// The key of `a` comes before the key of `b`.
pub open spec fn record_lt(a: RecordView, b: RecordView) -> bool {
    key_lt(a.owner, a.recipient, b.owner, b.recipient)
}

/// The records stand in the order of their keys, each key once.
pub open spec fn sorted(s: Seq<RecordView>) -> bool {
    forall|i: int, j: int| 0 <= i < j < s.len() ==> record_lt(#[trigger] s[i], #[trigger] s[j])
}

/// What holds of a record in custody: its escrow is well formed and was made
/// for the recipient under which it is kept.
pub open spec fn valid_record(r: RecordView) -> bool {
    r.escrow.wf() && r.escrow.recipient_addr == r.recipient
}

/// What holds of the records of a ledger: they stand in key order, each key
/// once, and each is valid.
pub open spec fn valid_entries(s: Seq<RecordView>) -> bool {
    &&& sorted(s)
    &&& forall|i: int| 0 <= i < s.len() ==> valid_record(#[trigger] s[i])
}

/// The record at place `i` has the key (owner, recipient).
pub open spec fn key_at(s: Seq<RecordView>, i: int, owner: Seq<char>, recipient: Seq<char>) -> bool {
    0 <= i < s.len() && s[i].owner == owner && s[i].recipient == recipient
}

/// Some record has the key (owner, recipient).
pub open spec fn has_key(s: Seq<RecordView>, owner: Seq<char>, recipient: Seq<char>) -> bool {
    exists|i: int| key_at(s, i, owner, recipient)
}

/// The place of the record with the key (owner, recipient), where there is one.
pub open spec fn key_pos(s: Seq<RecordView>, owner: Seq<char>, recipient: Seq<char>) -> int {
    choose|i: int| key_at(s, i, owner, recipient)
}

/// The records as a map from (owner, recipient) to the escrow under that key.
pub open spec fn entries_map(s: Seq<RecordView>) -> Map<(Seq<char>, Seq<char>), EscrowView> {
    Map::new(
        |k: (Seq<char>, Seq<char>)| has_key(s, k.0, k.1),
        |k: (Seq<char>, Seq<char>)| s[key_pos(s, k.0, k.1)].escrow,
    )
}

/// The escrow under the key (owner, recipient), if there is one.
pub open spec fn lookup(s: Seq<RecordView>, owner: Seq<char>, recipient: Seq<char>) -> Option<
    EscrowView,
> {
    if has_key(s, owner, recipient) {
        Some(s[key_pos(s, owner, recipient)].escrow)
    } else {
        None
    }
}

/// Whether a scan for `recipient` that resumes after the owner `start_after`
/// takes the record.
pub open spec fn in_scan(r: RecordView, recipient: Seq<char>, start_after: Option<Seq<char>>) -> bool {
    r.recipient == recipient && match start_after {
        Some(a) => text_lt(a, r.owner),
        None => true,
    }
}

/// The records for `recipient` whose owner comes after `start_after`, in
/// the order in which they stand.
pub open spec fn select(s: Seq<RecordView>, recipient: Seq<char>, start_after: Option<Seq<char>>) -> Seq<
    RecordView,
>
    decreases s.len(),
{
    if s.len() == 0 {
        Seq::empty()
    } else {
        let rest = select(s.drop_last(), recipient, start_after);
        if in_scan(s.last(), recipient, start_after) {
            rest.push(s.last())
        } else {
            rest
        }
    }
}

/// The size of the page that a scan with the given limit returns: the limit
/// where one is given, but no more than [`MAX_LIMIT`]; else [`DEFAULT_LIMIT`].
pub open spec fn page_size(limit: Option<u32>) -> nat {
    match limit {
        Some(n) => if n <= MAX_LIMIT {
            n as nat
        } else {
            MAX_LIMIT as nat
        },
        None => DEFAULT_LIMIT as nat,
    }
}

/// The first `size` of the records for `recipient` whose owner comes after
/// `start_after`, or all of them where they are fewer.
pub open spec fn page(
    s: Seq<RecordView>,
    recipient: Seq<char>,
    start_after: Option<Seq<char>>,
    size: nat,
) -> Seq<RecordView> {
    let all = select(s, recipient, start_after);
    if all.len() <= size {
        all
    } else {
        all.take(size as int)
    }
}

pub proof fn lemma_key_lt_irreflexive(owner: Seq<char>, recipient: Seq<char>)
    ensures
        !key_lt(owner, recipient, owner, recipient),
{
    lemma_text_lt_irreflexive(owner);
    lemma_text_lt_irreflexive(recipient);
}

pub proof fn lemma_record_lt_transitive(a: RecordView, b: RecordView, c: RecordView)
    requires
        record_lt(a, b),
        record_lt(b, c),
    ensures
        record_lt(a, c),
{
    if text_lt(a.recipient, b.recipient) && text_lt(b.recipient, c.recipient) {
        lemma_text_lt_transitive(a.recipient, b.recipient, c.recipient);
    }
    if a.recipient == b.recipient && b.recipient == c.recipient {
        lemma_text_lt_transitive(a.owner, b.owner, c.owner);
    }
}

pub proof fn lemma_record_lt_total(a: RecordView, b: RecordView)
    ensures
        record_lt(a, b) || record_lt(b, a) || (a.owner == b.owner && a.recipient == b.recipient),
{
    lemma_text_lt_total(a.recipient, b.recipient);
    lemma_text_lt_total(a.owner, b.owner);
}

/// In a sorted list no key stands at two places.
pub proof fn lemma_sorted_keys_differ(s: Seq<RecordView>, i: int, j: int)
    requires
        sorted(s),
        0 <= i < s.len(),
        0 <= j < s.len(),
        i != j,
    ensures
        !(s[i].owner == s[j].owner && s[i].recipient == s[j].recipient),
{
    lemma_key_lt_irreflexive(s[i].owner, s[i].recipient);
    if i < j {
        assert(record_lt(s[i], s[j]));
    } else {
        assert(record_lt(s[j], s[i]));
    }
}

/// In a sorted list the place of a record's key is the record's place.
pub proof fn lemma_key_pos(s: Seq<RecordView>, i: int)
    requires
        sorted(s),
        0 <= i < s.len(),
    ensures
        has_key(s, s[i].owner, s[i].recipient),
        key_pos(s, s[i].owner, s[i].recipient) == i,
        lookup(s, s[i].owner, s[i].recipient) == Some(s[i].escrow),
        entries_map(s).dom().contains((s[i].owner, s[i].recipient)),
        entries_map(s)[(s[i].owner, s[i].recipient)] == s[i].escrow,
{
    assert(key_at(s, i, s[i].owner, s[i].recipient));
    let p = key_pos(s, s[i].owner, s[i].recipient);
    if p != i {
        lemma_sorted_keys_differ(s, i, p);
    }
}

/// Replacing the escrow under a key that is there sets the map at that key.
pub proof fn lemma_map_update(s: Seq<RecordView>, i: int, r: RecordView)
    requires
        sorted(s),
        key_at(s, i, r.owner, r.recipient),
    ensures
        sorted(s.update(i, r)),
        entries_map(s.update(i, r)) == entries_map(s).insert((r.owner, r.recipient), r.escrow),
{
    let t = s.update(i, r);
    assert forall|a: int, b: int| 0 <= a < b < t.len() implies record_lt(
        #[trigger] t[a],
        #[trigger] t[b],
    ) by {
        assert(record_lt(s[a], s[b]));
    }
    let m = entries_map(s).insert((r.owner, r.recipient), r.escrow);
    assert forall|k: (Seq<char>, Seq<char>)| entries_map(t).dom().contains(k) == m.dom().contains(
        k,
    ) by {
        if has_key(t, k.0, k.1) {
            let p = key_pos(t, k.0, k.1);
            assert(key_at(s, p, k.0, k.1));
        }
        if has_key(s, k.0, k.1) {
            let p = key_pos(s, k.0, k.1);
            assert(key_at(t, p, k.0, k.1));
        }
        if k == (r.owner, r.recipient) {
            assert(key_at(t, i, k.0, k.1));
        }
    }
    assert forall|k: (Seq<char>, Seq<char>)| entries_map(t).dom().contains(k) implies entries_map(
        t,
    )[k] == m[k] by {
        let p = key_pos(t, k.0, k.1);
        lemma_key_pos(t, p);
        if p != i {
            assert(key_at(s, p, k.0, k.1));
            lemma_key_pos(s, p);
        }
    }
    assert(entries_map(t) =~= m);
}

/// Putting a record with a new key at its place in the order adds the key to
/// the map.
pub proof fn lemma_map_insert(s: Seq<RecordView>, pos: int, r: RecordView)
    requires
        sorted(s),
        0 <= pos <= s.len(),
        forall|i: int| 0 <= i < pos ==> record_lt(#[trigger] s[i], r),
        forall|i: int| pos <= i < s.len() ==> record_lt(r, #[trigger] s[i]),
    ensures
        sorted(s.insert(pos, r)),
        !has_key(s, r.owner, r.recipient),
        entries_map(s.insert(pos, r)) == entries_map(s).insert((r.owner, r.recipient), r.escrow),
{
    let t = s.insert(pos, r);
    assert forall|a: int, b: int| 0 <= a < b < t.len() implies record_lt(
        #[trigger] t[a],
        #[trigger] t[b],
    ) by {
        if b < pos {
            assert(record_lt(s[a], s[b]));
        } else if b == pos {
            assert(record_lt(s[a], r));
        } else if a < pos {
            assert(record_lt(s[a], r));
            assert(record_lt(r, s[b - 1]));
            lemma_record_lt_transitive(s[a], r, s[b - 1]);
        } else if a == pos {
            assert(record_lt(r, s[b - 1]));
        } else {
            assert(record_lt(s[a - 1], s[b - 1]));
        }
    }
    lemma_key_lt_irreflexive(r.owner, r.recipient);
    if has_key(s, r.owner, r.recipient) {
        let p = key_pos(s, r.owner, r.recipient);
        if p < pos {
            assert(record_lt(s[p], r));
        } else {
            assert(record_lt(r, s[p]));
        }
    }
    let m = entries_map(s).insert((r.owner, r.recipient), r.escrow);
    assert forall|k: (Seq<char>, Seq<char>)| entries_map(t).dom().contains(k) == m.dom().contains(
        k,
    ) by {
        if has_key(t, k.0, k.1) {
            let p = key_pos(t, k.0, k.1);
            if p < pos {
                assert(key_at(s, p, k.0, k.1));
            } else if p > pos {
                assert(key_at(s, p - 1, k.0, k.1));
            }
        }
        if has_key(s, k.0, k.1) {
            let p = key_pos(s, k.0, k.1);
            if p < pos {
                assert(key_at(t, p, k.0, k.1));
            } else {
                assert(key_at(t, p + 1, k.0, k.1));
            }
        }
        if k == (r.owner, r.recipient) {
            assert(key_at(t, pos, k.0, k.1));
        }
    }
    assert forall|k: (Seq<char>, Seq<char>)| entries_map(t).dom().contains(k) implies entries_map(
        t,
    )[k] == m[k] by {
        let p = key_pos(t, k.0, k.1);
        lemma_key_pos(t, p);
        if p < pos {
            assert(key_at(s, p, k.0, k.1));
            lemma_key_pos(s, p);
        } else if p > pos {
            assert(key_at(s, p - 1, k.0, k.1));
            lemma_key_pos(s, p - 1);
        }
    }
    assert(entries_map(t) =~= m);
}

/// Taking a record out takes its key out of the map.
pub proof fn lemma_map_remove(s: Seq<RecordView>, i: int)
    requires
        sorted(s),
        0 <= i < s.len(),
    ensures
        sorted(s.remove(i)),
        entries_map(s.remove(i)) == entries_map(s).remove((s[i].owner, s[i].recipient)),
{
    let t = s.remove(i);
    let gone = (s[i].owner, s[i].recipient);
    assert forall|a: int, b: int| 0 <= a < b < t.len() implies record_lt(
        #[trigger] t[a],
        #[trigger] t[b],
    ) by {
        let a0 = if a < i { a } else { a + 1 };
        let b0 = if b < i { b } else { b + 1 };
        assert(record_lt(s[a0], s[b0]));
    }
    let m = entries_map(s).remove(gone);
    assert forall|k: (Seq<char>, Seq<char>)| entries_map(t).dom().contains(k) == m.dom().contains(
        k,
    ) by {
        if has_key(t, k.0, k.1) {
            let p = key_pos(t, k.0, k.1);
            let p0 = if p < i { p } else { p + 1 };
            assert(key_at(s, p0, k.0, k.1));
            lemma_sorted_keys_differ(s, p0, i);
        }
        if has_key(s, k.0, k.1) && k != gone {
            let p = key_pos(s, k.0, k.1);
            if p < i {
                assert(key_at(t, p, k.0, k.1));
            } else {
                assert(key_at(t, p - 1, k.0, k.1));
            }
        }
    }
    assert forall|k: (Seq<char>, Seq<char>)| entries_map(t).dom().contains(k) implies entries_map(
        t,
    )[k] == m[k] by {
        let p = key_pos(t, k.0, k.1);
        lemma_key_pos(t, p);
        let p0 = if p < i { p } else { p + 1 };
        assert(key_at(s, p0, k.0, k.1));
        lemma_key_pos(s, p0);
    }
    assert(entries_map(t) =~= m);
}

/// What a scan selects from the first records of a list is the beginning of
/// what it selects from the list.
pub proof fn lemma_select_prefix(
    s: Seq<RecordView>,
    n: int,
    recipient: Seq<char>,
    start_after: Option<Seq<char>>,
)
    requires
        0 <= n <= s.len(),
    ensures
        select(s.take(n), recipient, start_after).len() <= select(s, recipient, start_after).len(),
        select(s.take(n), recipient, start_after) == select(s, recipient, start_after).take(
            select(s.take(n), recipient, start_after).len() as int,
        ),
    decreases s.len() - n,
{
    let part = select(s.take(n), recipient, start_after);
    if n == s.len() {
        assert(s.take(n) =~= s);
        assert(part =~= part.take(part.len() as int));
    } else {
        assert(s.take(n + 1).drop_last() =~= s.take(n));
        lemma_select_prefix(s, n + 1, recipient, start_after);
        let next = select(s.take(n + 1), recipient, start_after);
        let all = select(s, recipient, start_after);
        assert(part =~= next.take(part.len() as int));
        assert(part =~= all.take(part.len() as int));
    }
}

/// A scan of a sorted list selects from it, in its order, records that the
/// scan takes.
pub proof fn lemma_select_sorted(
    s: Seq<RecordView>,
    recipient: Seq<char>,
    start_after: Option<Seq<char>>,
)
    requires
        sorted(s),
    ensures
        sorted(select(s, recipient, start_after)),
        forall|j: int|
            0 <= j < select(s, recipient, start_after).len() ==> s.contains(
                #[trigger] select(s, recipient, start_after)[j],
            ) && in_scan(select(s, recipient, start_after)[j], recipient, start_after),
    decreases s.len(),
{
    if s.len() > 0 {
        let front = s.drop_last();
        let rest = select(front, recipient, start_after);
        let all = select(s, recipient, start_after);
        assert forall|a: int, b: int| 0 <= a < b < front.len() implies record_lt(
            #[trigger] front[a],
            #[trigger] front[b],
        ) by {
            assert(record_lt(s[a], s[b]));
        }
        lemma_select_sorted(front, recipient, start_after);
        assert forall|j: int| 0 <= j < all.len() implies s.contains(#[trigger] all[j]) && in_scan(
            all[j],
            recipient,
            start_after,
        ) by {
            if j < rest.len() {
                assert(front.contains(rest[j]));
                let i = choose|i: int| 0 <= i < front.len() && front[i] == rest[j];
                assert(s[i] == all[j]);
            } else {
                assert(s[s.len() - 1] == all[j]);
            }
        }
        assert forall|a: int, b: int| 0 <= a < b < all.len() implies record_lt(
            #[trigger] all[a],
            #[trigger] all[b],
        ) by {
            if b < rest.len() {
                assert(record_lt(rest[a], rest[b]));
            } else {
                assert(front.contains(rest[a]));
                let i = choose|i: int| 0 <= i < front.len() && front[i] == rest[a];
                assert(record_lt(s[i], s[s.len() - 1]));
            }
        }
    }
}

/// A page of a sorted list is sorted, holds records of the list that the
/// scan takes, and is no longer than its size.
pub proof fn lemma_page(
    s: Seq<RecordView>,
    recipient: Seq<char>,
    start_after: Option<Seq<char>>,
    size: nat,
)
    requires
        sorted(s),
    ensures
        sorted(page(s, recipient, start_after, size)),
        page(s, recipient, start_after, size).len() <= size,
        forall|j: int|
            0 <= j < page(s, recipient, start_after, size).len() ==> s.contains(
                #[trigger] page(s, recipient, start_after, size)[j],
            ) && in_scan(page(s, recipient, start_after, size)[j], recipient, start_after),
{
    lemma_select_sorted(s, recipient, start_after);
    let all = select(s, recipient, start_after);
    let p = page(s, recipient, start_after, size);
    assert forall|a: int, b: int| 0 <= a < b < p.len() implies record_lt(
        #[trigger] p[a],
        #[trigger] p[b],
    ) by {
        assert(record_lt(all[a], all[b]));
    }
    assert forall|j: int| 0 <= j < p.len() implies s.contains(#[trigger] p[j]) && in_scan(
        p[j],
        recipient,
        start_after,
    ) by {
        assert(p[j] == all[j]);
    }
}

/// What a list holds under a key is what its map holds there.
pub proof fn lemma_lookup_map(s: Seq<RecordView>, owner: Seq<char>, recipient: Seq<char>)
    ensures
        lookup(s, owner, recipient) == if entries_map(s).dom().contains((owner, recipient)) {
            Some(entries_map(s)[(owner, recipient)])
        } else {
            None
        },
{
}

/// A record of a sorted list is what the list holds under the record's key.
pub proof fn lemma_member_lookup(s: Seq<RecordView>, r: RecordView)
    requires
        sorted(s),
        s.contains(r),
    ensures
        lookup(s, r.owner, r.recipient) == Some(r.escrow),
        entries_map(s).dom().contains((r.owner, r.recipient)),
        entries_map(s)[(r.owner, r.recipient)] == r.escrow,
{
    let i = choose|i: int| 0 <= i < s.len() && s[i] == r;
    lemma_key_pos(s, i);
}

/// A scan selects nothing from a list of which it takes no record.
pub proof fn lemma_select_none(
    s: Seq<RecordView>,
    recipient: Seq<char>,
    start_after: Option<Seq<char>>,
)
    requires
        forall|i: int| 0 <= i < s.len() ==> !in_scan(#[trigger] s[i], recipient, start_after),
    ensures
        select(s, recipient, start_after).len() == 0,
    decreases s.len(),
{
    if s.len() > 0 {
        assert(!in_scan(s[s.len() - 1], recipient, start_after));
        assert forall|i: int| 0 <= i < s.drop_last().len() implies !in_scan(
            #[trigger] s.drop_last()[i],
            recipient,
            start_after,
        ) by {
            assert(!in_scan(s[i], recipient, start_after));
        }
        lemma_select_none(s.drop_last(), recipient, start_after);
    }
}

/// In a sorted list, the scan that resumes after the owner of a record that
/// a scan selected selects what that scan selected behind the record.
pub proof fn lemma_select_after(
    s: Seq<RecordView>,
    recipient: Seq<char>,
    start_after: Option<Seq<char>>,
    j: int,
)
    requires
        sorted(s),
        0 <= j < select(s, recipient, start_after).len(),
    ensures
        select(s, recipient, Some(select(s, recipient, start_after)[j].owner)) == select(
            s,
            recipient,
            start_after,
        ).skip(j + 1),
    decreases s.len(),
{
    let all = select(s, recipient, start_after);
    let x = all[j];
    let front = s.drop_last();
    let last = s.last();
    let rest = select(front, recipient, start_after);
    let resumed = Some(x.owner);
    assert forall|a: int, b: int| 0 <= a < b < front.len() implies record_lt(
        #[trigger] front[a],
        #[trigger] front[b],
    ) by {
        assert(record_lt(s[a], s[b]));
    }
    lemma_select_sorted(s, recipient, start_after);
    lemma_select_sorted(front, recipient, start_after);
    lemma_text_lt_irreflexive(recipient);
    if j < rest.len() {
        assert(x == rest[j]);
        lemma_select_after(front, recipient, start_after, j);
        assert(front.contains(rest[j]));
        let i = choose|i: int| 0 <= i < front.len() && front[i] == rest[j];
        assert(record_lt(s[i], s[s.len() - 1]));
        if in_scan(last, recipient, start_after) {
            assert(in_scan(last, recipient, resumed));
            assert(all.skip(j + 1) =~= rest.skip(j + 1).push(last));
        } else {
            if last.recipient == recipient && text_lt(x.owner, last.owner) {
                lemma_text_lt_transitive(start_after.unwrap(), x.owner, last.owner);
            }
            assert(!in_scan(last, recipient, resumed));
            assert(all.skip(j + 1) =~= rest.skip(j + 1));
        }
    } else {
        assert(x == last);
        assert forall|i: int| 0 <= i < s.len() implies !in_scan(
            #[trigger] s[i],
            recipient,
            resumed,
        ) by {
            if i < s.len() - 1 {
                assert(record_lt(s[i], s[s.len() - 1]));
                if s[i].recipient == recipient {
                    lemma_text_lt_asymmetric(s[i].owner, last.owner);
                }
            } else {
                lemma_text_lt_irreflexive(last.owner);
            }
        }
        lemma_select_none(s, recipient, resumed);
        assert(select(s, recipient, resumed) =~= all.skip(j + 1));
    }
}

/// Two sorted lists that hold the same escrows under the same keys are the
/// same list: the map of a ledger says all of it.
pub proof fn lemma_entries_determined(s: Seq<RecordView>, t: Seq<RecordView>)
    requires
        sorted(s),
        sorted(t),
        entries_map(s) == entries_map(t),
    ensures
        s == t,
    decreases s.len(),
{
    if s.len() == 0 {
        if t.len() > 0 {
            lemma_key_pos(t, 0);
            assert(entries_map(s).dom().contains((t[0].owner, t[0].recipient)));
            let p = key_pos(s, t[0].owner, t[0].recipient);
            assert(key_at(s, p, t[0].owner, t[0].recipient));
        }
        assert(s =~= t);
    } else {
        let a = s.last();
        lemma_key_pos(s, s.len() - 1);
        assert(entries_map(t).dom().contains((a.owner, a.recipient)));
        let p = key_pos(t, a.owner, a.recipient);
        assert(key_at(t, p, a.owner, a.recipient));
        let b = t.last();
        lemma_key_pos(t, t.len() - 1);
        assert(entries_map(s).dom().contains((b.owner, b.recipient)));
        let q = key_pos(s, b.owner, b.recipient);
        assert(key_at(s, q, b.owner, b.recipient));
        lemma_key_lt_irreflexive(a.owner, a.recipient);
        if p < t.len() - 1 {
            assert(record_lt(t[p], t[t.len() - 1]));
            if q < s.len() - 1 {
                assert(record_lt(s[q], s[s.len() - 1]));
                lemma_record_lt_transitive(t[p], b, s[s.len() - 1]);
            }
        }
        assert(a.owner == b.owner && a.recipient == b.recipient);
        lemma_key_pos(t, p);
        assert(a == b);
        lemma_map_remove(s, s.len() - 1);
        lemma_map_remove(t, t.len() - 1);
        assert(s.remove(s.len() - 1) =~= s.drop_last());
        assert(t.remove(t.len() - 1) =~= t.drop_last());
        lemma_entries_determined(s.drop_last(), t.drop_last());
        assert(s =~= s.drop_last().push(a));
        assert(t =~= t.drop_last().push(b));
    }
}

/// The ledger. Its fields are its own: a ledger comes from [`Ledger::new`]
/// and changes through [`Ledger::put`] and [`Ledger::delete`] only, which keep
/// it well formed.
#[derive(Debug)]
pub struct Ledger {
    /// The primary store.
    records: Vec<Record>,
    /// The index: the places in `records`, in the order of the keys.
    index: Vec<usize>,
}

impl View for Ledger {
    type V = Seq<RecordView>;

    /// The records in the order of the index.
    closed spec fn view(&self) -> Seq<RecordView> {
        Seq::new(self.index@.len(), |i: int| self.records@[self.index@[i] as int]@)
    }
}

impl Ledger {
    /// The index names a place of the store for each record.
    pub closed spec fn in_step(&self) -> bool {
        &&& self.index@.len() == self.records@.len()
        &&& forall|i: int|
            0 <= i < self.index@.len() ==> (#[trigger] self.index@[i]) < self.records@.len()
    }

    /// The ledger is well formed: store and index are in step, and the
    /// records are [`valid_entries`].
    pub open spec fn wf(&self) -> bool {
        self.in_step() && valid_entries(self@)
    }

    /// The ledger as a map from (owner, recipient) to the escrow under it.
    pub open spec fn as_map(&self) -> Map<(Seq<char>, Seq<char>), EscrowView> {
        entries_map(self@)
    }

    proof fn lemma_index_apart(&self, a: int, b: int)
        requires
            self.wf(),
            0 <= a < self.index@.len(),
            0 <= b < self.index@.len(),
            a != b,
        ensures
            self.index@[a] != self.index@[b],
    {
        lemma_sorted_keys_differ(self@, a, b);
    }

    /// An empty ledger.
    pub fn new() -> (r: Ledger)
        ensures
            r.wf(),
            r@ == Seq::<RecordView>::empty(),
    {
        let r = Ledger { records: Vec::new(), index: Vec::new() };
        assert(r@ =~= Seq::<RecordView>::empty());
        r
    }

    /// The number of records.
    pub fn len(&self) -> (r: usize)
        requires
            self.wf(),
        ensures
            r == self@.len(),
    {
        self.index.len()
    }

    /// The place in the index of the record with the key.
    fn find(&self, owner: &str, recipient: &str) -> (r: Option<usize>)
        requires
            self.wf(),
        ensures
            match r {
                Some(i) => key_at(self@, i as int, owner@, recipient@),
                None => !has_key(self@, owner@, recipient@),
            },
    {
        let mut i: usize = 0;
        while i < self.index.len()
            invariant
                self.wf(),
                i <= self.index.len(),
                forall|j: int| 0 <= j < i ==> !key_at(self@, j, owner@, recipient@),
            decreases self.index.len() - i,
        {
            let rec = &self.records[self.index[i]];
            if text_eq(rec.owner.as_str(), owner) && text_eq(rec.recipient.as_str(), recipient) {
                return Some(i);
            }
            i += 1;
        }
        None
    }

    /// The escrow under the key (owner, recipient), if there is one.
    pub fn get(&self, owner: &str, recipient: &str) -> (r: Option<Escrow>)
        requires
            self.wf(),
        ensures
            escrow_view(r) == lookup(self@, owner@, recipient@),
    {
        match self.find(owner, recipient) {
            Some(i) => {
                proof {
                    lemma_key_pos(self@, i as int);
                }
                Some(self.records[self.index[i]].escrow.clone())
            },
            None => None,
        }
    }

    /// The place in the index at which a record with the key belongs.
    fn place_for(&self, owner: &str, recipient: &str) -> (r: usize)
        requires
            self.wf(),
            !has_key(self@, owner@, recipient@),
        ensures
            r <= self@.len(),
            forall|i: int|
                0 <= i < r ==> key_lt(
                    (#[trigger] self@[i]).owner,
                    self@[i].recipient,
                    owner@,
                    recipient@,
                ),
            forall|i: int|
                r <= i < self@.len() ==> key_lt(
                    owner@,
                    recipient@,
                    (#[trigger] self@[i]).owner,
                    self@[i].recipient,
                ),
    {
        let mut i: usize = 0;
        while i < self.index.len()
            invariant
                self.wf(),
                !has_key(self@, owner@, recipient@),
                i <= self.index.len(),
                forall|j: int|
                    0 <= j < i ==> key_lt(
                        (#[trigger] self@[j]).owner,
                        self@[j].recipient,
                        owner@,
                        recipient@,
                    ),
            decreases self.index.len() - i,
        {
            let rec = &self.records[self.index[i]];
            let before = match text_order(rec.recipient.as_str(), recipient) {
                TextOrder::Before => true,
                TextOrder::Same => match text_order(rec.owner.as_str(), owner) {
                    TextOrder::Before => true,
                    _ => false,
                },
                TextOrder::After => false,
            };
            if !before {
                proof {
                    let here = self@[i as int];
                    let key = RecordView { owner: owner@, recipient: recipient@, escrow: here.escrow };
                    assert(!key_at(self@, i as int, owner@, recipient@));
                    lemma_record_lt_total(here, key);
                    assert(record_lt(key, here));
                    assert forall|j: int| i <= j < self@.len() implies key_lt(
                        owner@,
                        recipient@,
                        (#[trigger] self@[j]).owner,
                        self@[j].recipient,
                    ) by {
                        if j > i {
                            assert(record_lt(self@[i as int], self@[j]));
                            lemma_record_lt_transitive(key, here, self@[j]);
                        }
                    }
                }
                return i;
            }
            i += 1;
        }
        i
    }

    /// Stores `escrow` under the key (owner, recipient), in place of what was
    /// there.
    pub fn put(&mut self, owner: String, recipient: String, escrow: Escrow)
        requires
            old(self).wf(),
            escrow@.wf(),
            escrow@.recipient_addr == recipient@,
        ensures
            final(self).wf(),
            final(self).as_map() == old(self).as_map().insert((owner@, recipient@), escrow@),
    {
        let ghost before = self@;
        let ghost r = RecordView { owner: owner@, recipient: recipient@, escrow: escrow@ };
        match self.find(owner.as_str(), recipient.as_str()) {
            Some(i) => {
                let at = self.index[i];
                proof {
                    assert forall|j: int| 0 <= j < self.index@.len() && j != i implies self.index@[j]
                        != at by {
                        self.lemma_index_apart(j, i as int);
                    }
                    lemma_map_update(before, i as int, r);
                }
                self.records.set(at, Record { owner, recipient, escrow });
                assert(self@ =~= before.update(i as int, r));
            },
            None => {
                let pos = self.place_for(owner.as_str(), recipient.as_str());
                let at = self.records.len();
                proof {
                    lemma_map_insert(before, pos as int, r);
                }
                self.records.push(Record { owner, recipient, escrow });
                self.index.insert(pos, at);
                assert(self@ =~= before.insert(pos as int, r));
            },
        }
    }

    /// Removes the record under the key (owner, recipient) and returns its
    /// escrow; `None`, and nothing changes, where there is none.
    pub fn delete(&mut self, owner: &str, recipient: &str) -> (r: Option<Escrow>)
        requires
            old(self).wf(),
        ensures
            final(self).wf(),
            escrow_view(r) == lookup(old(self)@, owner@, recipient@),
            final(self).as_map() == old(self).as_map().remove((owner@, recipient@)),
    {
        let ghost before = self@;
        match self.find(owner, recipient) {
            Some(i) => {
                let at = self.index[i];
                let ghost old_index = self.index@;
                let ghost old_records = self.records@;
                proof {
                    assert forall|j: int| 0 <= j < self.index@.len() && j != i implies self.index@[j]
                        != at by {
                        self.lemma_index_apart(j, i as int);
                    }
                    lemma_key_pos(before, i as int);
                    lemma_map_remove(before, i as int);
                }
                let gone = self.records.remove(at);
                self.index.remove(i);
                let ghost cut = self.index@;
                let mut t: usize = 0;
                while t < self.index.len()
                    invariant
                        t <= self.index.len(),
                        self.index@.len() == cut.len(),
                        cut == old_index.remove(i as int),
                        self.records@ == old_records.remove(at as int),
                        old_index.len() == old_records.len(),
                        0 <= i < old_index.len(),
                        at < old_records.len(),
                        forall|j: int| 0 <= j < cut.len() ==> #[trigger] cut[j] != at,
                        forall|j: int| 0 <= j < cut.len() ==> #[trigger] cut[j] < old_records.len(),
                        forall|j: int|
                            0 <= j < t ==> #[trigger] self.index@[j] == if cut[j] > at {
                                cut[j] - 1
                            } else {
                                cut[j] as int
                            },
                        forall|j: int| t <= j < cut.len() ==> #[trigger] self.index@[j] == cut[j],
                    decreases self.index.len() - t,
                {
                    let p = self.index[t];
                    if p > at {
                        self.index.set(t, p - 1);
                    }
                    t += 1;
                }
                proof {
                    assert forall|j: int| 0 <= j < self.index@.len() implies self.records@[self.index@[j] as int]
                        == old_records[cut[j] as int] by {}
                    assert(self@ =~= before.remove(i as int));
                    assert forall|j: int| 0 <= j < self.index@.len() implies (
                    #[trigger] self.index@[j]) < self.records@.len() by {
                        assert(cut[j] != at);
                    }
                }
                Some(gone.escrow)
            },
            None => {
                proof {
                    assert(entries_map(before).remove((owner@, recipient@)) =~= entries_map(before));
                }
                None
            },
        }
    }

    /// The records for `recipient`, by owner, that come after the owner
    /// `start_after`: a page of at most `limit` of them, or of
    /// [`DEFAULT_LIMIT`] where no limit is given, and never more than
    /// [`MAX_LIMIT`].
    pub fn scan_by_recipient(
        &self,
        recipient: &str,
        start_after: Option<&str>,
        limit: Option<u32>,
    ) -> (r: Vec<Record>)
        requires
            self.wf(),
        ensures
            records_view(r@) == page(self@, recipient@, text_view(start_after), page_size(limit)),
    {
        let size: u32 = match limit {
            Some(n) => if n <= MAX_LIMIT {
                n
            } else {
                MAX_LIMIT
            },
            None => DEFAULT_LIMIT,
        };
        let ghost after = text_view(start_after);
        let mut out: Vec<Record> = Vec::new();
        let mut i: usize = 0;
        assert(self@.take(0) =~= Seq::<RecordView>::empty());
        while i < self.index.len() && out.len() < size as usize
            invariant
                self.wf(),
                i <= self.index.len(),
                after == text_view(start_after),
                size == page_size(limit),
                out.len() <= size,
                records_view(out@) == select(self@.take(i as int), recipient@, after),
            decreases self.index.len() - i,
        {
            let rec = &self.records[self.index[i]];
            let hit = text_eq(rec.recipient.as_str(), recipient) && match start_after {
                Some(a) => match text_order(a, rec.owner.as_str()) {
                    TextOrder::Before => true,
                    _ => false,
                },
                None => true,
            };
            proof {
                assert(self@.take(i + 1).drop_last() =~= self@.take(i as int));
                assert(self@.take(i + 1).last() == self@[i as int]);
                assert(hit == in_scan(self@[i as int], recipient@, after));
            }
            if hit {
                let ghost so_far = records_view(out@);
                out.push(rec.clone());
                assert(records_view(out@) =~= so_far.push(self@[i as int]));
            }
            i += 1;
        }
        proof {
            lemma_select_prefix(self@, i as int, recipient@, after);
            if i == self.index.len() {
                assert(self@.take(i as int) =~= self@);
            }
        }
        out
    }

    /// All records, in the order of the keys.
    pub fn entries(&self) -> (r: Vec<Record>)
        requires
            self.wf(),
        ensures
            records_view(r@) == self@,
    {
        let mut out: Vec<Record> = Vec::new();
        let mut i: usize = 0;
        while i < self.index.len()
            invariant
                self.wf(),
                i <= self.index.len(),
                records_view(out@) == self@.take(i as int),
            decreases self.index.len() - i,
        {
            let ghost so_far = records_view(out@);
            out.push(self.records[self.index[i]].clone());
            assert(records_view(out@) =~= so_far.push(self@[i as int]));
            assert(self@.take(i + 1) =~= self@.take(i as int).push(self@[i as int]));
            i += 1;
        }
        assert(self@.take(i as int) =~= self@);
        out
    }
}

} // verus!
