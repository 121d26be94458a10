//! Value in several denominations: coins, what a list of coins holds of a
//! denomination, and the merge of a deposit into held value.

use vstd::prelude::*;
use vstd::string::*;
use crate::text::text_eq;

verus! {

/// An amount of one denomination.
#[derive(Debug, PartialEq, Eq)]
pub struct Coin {
    pub denom: String,
    pub amount: u128,
}

/// A coin as a mathematical value.
pub struct CoinView {
    pub denom: Seq<char>,
    pub amount: nat,
}

impl View for Coin {
    type V = CoinView;

    open spec fn view(&self) -> CoinView {
        CoinView { denom: self.denom@, amount: self.amount as nat }
    }
}

impl Clone for Coin {
    fn clone(&self) -> (r: Self)
        ensures
            r@ == self@,
    {
        Coin { denom: self.denom.clone(), amount: self.amount }
    }
}

impl Coin {
    pub fn new(amount: u128, denom: &str) -> (r: Coin)
        ensures
            r@ == (CoinView { denom: denom@, amount: amount as nat }),
    {
        Coin { denom: denom.to_owned(), amount }
    }
}

/// A coin of `amount` of `denom`.
pub fn coin(amount: u128, denom: &str) -> (r: Coin)
    ensures
        r@ == (CoinView { denom: denom@, amount: amount as nat }),
{
    Coin::new(amount, denom)
}

/// A list of the one coin of `amount` of `denom`.
pub fn coins(amount: u128, denom: &str) -> (r: Vec<Coin>)
    ensures
        coins_view(r@) == seq![CoinView { denom: denom@, amount: amount as nat }],
{
    let mut v: Vec<Coin> = Vec::new();
    v.push(Coin::new(amount, denom));
    assert(coins_view(v@) =~= seq![CoinView { denom: denom@, amount: amount as nat }]);
    v
}

/// A list of coins as a sequence of mathematical values.
pub open spec fn coins_view(coins: Seq<Coin>) -> Seq<CoinView> {
    coins.map_values(|c: Coin| c@)
}

/// Every amount fits the machine's coin amounts.
pub open spec fn in_range(coins: Seq<CoinView>) -> bool {
    forall|i: int| 0 <= i < coins.len() ==> (#[trigger] coins[i]).amount <= u128::MAX
}

/// No denomination occurs twice.
pub open spec fn denoms_unique(coins: Seq<CoinView>) -> bool {
    forall|i: int, j: int|
        0 <= i < j < coins.len() ==> (#[trigger] coins[i]).denom != (#[trigger] coins[j]).denom
}

/// Every amount is above zero.
pub open spec fn all_positive(coins: Seq<CoinView>) -> bool {
    forall|i: int| 0 <= i < coins.len() ==> (#[trigger] coins[i]).amount > 0
}

/// What a deposit must be: at least one coin, no denomination twice, no
/// amount of zero.
pub open spec fn valid_funds(coins: Seq<CoinView>) -> bool {
    &&& coins.len() > 0
    &&& denoms_unique(coins)
    &&& all_positive(coins)
}

/// The amount that `coins` holds of `denom`: the sum over its coins of that
/// denomination, zero if there is none.
pub open spec fn amount_of(coins: Seq<CoinView>, denom: Seq<char>) -> nat
    decreases coins.len(),
{
    if coins.len() == 0 {
        0
    } else {
        amount_of(coins.drop_last(), denom) + if coins.last().denom == denom {
            coins.last().amount
        } else {
            0
        }
    }
}

/// Some coin of `coins` is of `denom`.
pub open spec fn has_denom(coins: Seq<CoinView>, denom: Seq<char>) -> bool {
    exists|i: int| 0 <= i < coins.len() && (#[trigger] coins[i]).denom == denom
}

/// `i` is the place of the first coin of `denom` in `coins`.
pub open spec fn is_first_pos(coins: Seq<CoinView>, denom: Seq<char>, i: int) -> bool {
    &&& 0 <= i < coins.len()
    &&& coins[i].denom == denom
    &&& forall|j: int| 0 <= j < i ==> (#[trigger] coins[j]).denom != denom
}

/// The place of the first coin of `denom` in `coins`, where there is one.
pub open spec fn first_pos(coins: Seq<CoinView>, denom: Seq<char>) -> int {
    choose|i: int| is_first_pos(coins, denom, i)
}

/// `coins` after one more coin has come in: its amount is added to the first
/// coin of its denomination, or the coin is put at the end where the
/// denomination is new.
pub open spec fn add_coin(coins: Seq<CoinView>, c: CoinView) -> Seq<CoinView> {
    if has_denom(coins, c.denom) {
        let i = first_pos(coins, c.denom);
        coins.update(i, CoinView { denom: c.denom, amount: coins[i].amount + c.amount })
    } else {
        coins.push(c)
    }
}

/// `held` after the coins of `deposit` have come in, one after the other.
pub open spec fn merge(held: Seq<CoinView>, deposit: Seq<CoinView>) -> Seq<CoinView>
    decreases deposit.len(),
{
    if deposit.len() == 0 {
        held
    } else {
        add_coin(merge(held, deposit.drop_last()), deposit.last())
    }
}

proof fn lemma_first_pos_from(coins: Seq<CoinView>, denom: Seq<char>, i: int, k: int)
    requires
        0 <= i <= k < coins.len(),
        coins[k].denom == denom,
        forall|j: int| 0 <= j < i ==> (#[trigger] coins[j]).denom != denom,
    ensures
        exists|p: int| is_first_pos(coins, denom, p),
    decreases k - i,
{
    if coins[i].denom == denom {
        assert(is_first_pos(coins, denom, i));
    } else {
        lemma_first_pos_from(coins, denom, i + 1, k);
    }
}

/// Where a denomination occurs, it has a first place.
pub proof fn lemma_first_pos(coins: Seq<CoinView>, denom: Seq<char>)
    requires
        has_denom(coins, denom),
    ensures
        is_first_pos(coins, denom, first_pos(coins, denom)),
{
    let k = choose|k: int| 0 <= k < coins.len() && (#[trigger] coins[k]).denom == denom;
    lemma_first_pos_from(coins, denom, 0, k);
}

/// A list that has no coin of `denom` holds nothing of it.
pub proof fn lemma_amount_of_absent(coins: Seq<CoinView>, denom: Seq<char>)
    requires
        !has_denom(coins, denom),
    ensures
        amount_of(coins, denom) == 0,
    decreases coins.len(),
{
    if coins.len() > 0 {
        assert(coins[coins.len() - 1].denom != denom);
        assert forall|i: int| 0 <= i < coins.drop_last().len() implies (
        #[trigger] coins.drop_last()[i]).denom != denom by {
            assert(coins[i].denom != denom);
        }
        lemma_amount_of_absent(coins.drop_last(), denom);
    }
}

/// Raising the amount of one coin raises what the list holds of that coin's
/// denomination by as much, and of no other.
pub proof fn lemma_amount_of_update(coins: Seq<CoinView>, i: int, more: nat, denom: Seq<char>)
    requires
        0 <= i < coins.len(),
    ensures
        amount_of(
            coins.update(i, CoinView { denom: coins[i].denom, amount: coins[i].amount + more }),
            denom,
        ) == amount_of(coins, denom) + if coins[i].denom == denom {
            more
        } else {
            0
        },
    decreases coins.len(),
{
    let after = coins.update(
        i,
        CoinView { denom: coins[i].denom, amount: coins[i].amount + more },
    );
    if i == coins.len() - 1 {
        assert(after.drop_last() =~= coins.drop_last());
    } else {
        let rest = coins.drop_last();
        assert(after.drop_last() =~= rest.update(
            i,
            CoinView { denom: rest[i].denom, amount: rest[i].amount + more },
        ));
        lemma_amount_of_update(rest, i, more, denom);
    }
}

/// One more coin raises what the list holds of the coin's denomination by the
/// coin's amount, and of no other.
pub proof fn lemma_add_coin_amount(coins: Seq<CoinView>, c: CoinView, denom: Seq<char>)
    ensures
        amount_of(add_coin(coins, c), denom) == amount_of(coins, denom) + if c.denom == denom {
            c.amount
        } else {
            0
        },
{
    if has_denom(coins, c.denom) {
        lemma_first_pos(coins, c.denom);
        lemma_amount_of_update(coins, first_pos(coins, c.denom), c.amount, denom);
    } else {
        assert(coins.push(c).drop_last() =~= coins);
    }
}

/// After a deposit the list holds of every denomination what it held before
/// and what the deposit holds of it.
pub proof fn lemma_merge_amount(held: Seq<CoinView>, deposit: Seq<CoinView>, denom: Seq<char>)
    ensures
        amount_of(merge(held, deposit), denom) == amount_of(held, denom) + amount_of(
            deposit,
            denom,
        ),
    decreases deposit.len(),
{
    if deposit.len() > 0 {
        lemma_merge_amount(held, deposit.drop_last(), denom);
        lemma_add_coin_amount(merge(held, deposit.drop_last()), deposit.last(), denom);
    }
}

/// One more coin leaves every coin in its place with its denomination, and
/// lowers no amount.
pub proof fn lemma_add_coin_keeps(coins: Seq<CoinView>, c: CoinView)
    ensures
        add_coin(coins, c).len() >= coins.len(),
        forall|j: int|
            0 <= j < coins.len() ==> (#[trigger] add_coin(coins, c)[j]).denom == coins[j].denom
                && add_coin(coins, c)[j].amount >= coins[j].amount,
        denoms_unique(coins) ==> denoms_unique(add_coin(coins, c)),
        all_positive(coins) && c.amount > 0 ==> all_positive(add_coin(coins, c)),
{
    if has_denom(coins, c.denom) {
        lemma_first_pos(coins, c.denom);
    } else {
        let after = coins.push(c);
        if denoms_unique(coins) {
            assert forall|i: int, j: int| 0 <= i < j < after.len() implies (
            #[trigger] after[i]).denom != (#[trigger] after[j]).denom by {
                if j == coins.len() {
                    assert(coins[i].denom != c.denom);
                }
            }
        }
    }
}

/// A deposit leaves every held coin in its place with its denomination, and
/// lowers no amount; it keeps the denominations apart, and the amounts above
/// zero where the deposit's are.
pub proof fn lemma_merge_keeps(held: Seq<CoinView>, deposit: Seq<CoinView>)
    ensures
        merge(held, deposit).len() >= held.len(),
        forall|j: int|
            0 <= j < held.len() ==> (#[trigger] merge(held, deposit)[j]).denom == held[j].denom
                && merge(held, deposit)[j].amount >= held[j].amount,
        denoms_unique(held) ==> denoms_unique(merge(held, deposit)),
        all_positive(held) && all_positive(deposit) ==> all_positive(merge(held, deposit)),
    decreases deposit.len(),
{
    if deposit.len() > 0 {
        let before = merge(held, deposit.drop_last());
        lemma_merge_keeps(held, deposit.drop_last());
        lemma_add_coin_keeps(before, deposit.last());
        if all_positive(deposit) {
            assert(deposit[deposit.len() - 1].amount > 0);
            assert forall|i: int| 0 <= i < deposit.drop_last().len() implies (
            #[trigger] deposit.drop_last()[i]).amount > 0 by {
                assert(deposit[i].amount > 0);
            }
        }
        assert forall|j: int| 0 <= j < held.len() implies (#[trigger] merge(
            held,
            deposit,
        )[j]).denom == held[j].denom && merge(held, deposit)[j].amount >= held[j].amount by {
            assert(before[j].denom == held[j].denom);
            assert(add_coin(before, deposit.last())[j].denom == before[j].denom);
        }
    }
}

/// What has come in of a deposit so far is never more, coin for coin, than
/// what will have come in at its end.
pub proof fn lemma_merge_grows(held: Seq<CoinView>, deposit: Seq<CoinView>, n: int)
    requires
        0 <= n <= deposit.len(),
    ensures
        merge(held, deposit.take(n)).len() <= merge(held, deposit).len(),
        forall|j: int|
            0 <= j < merge(held, deposit.take(n)).len() ==> (#[trigger] merge(
                held,
                deposit,
            )[j]).amount >= merge(held, deposit.take(n))[j].amount,
    decreases deposit.len() - n,
{
    if n == deposit.len() {
        assert(deposit.take(n) =~= deposit);
    } else {
        let part = merge(held, deposit.take(n));
        let next = merge(held, deposit.take(n + 1));
        assert(deposit.take(n + 1).drop_last() =~= deposit.take(n));
        assert(deposit.take(n + 1).last() == deposit[n]);
        lemma_add_coin_keeps(part, deposit[n]);
        lemma_merge_grows(held, deposit, n + 1);
        assert forall|j: int| 0 <= j < part.len() implies (#[trigger] merge(
            held,
            deposit,
        )[j]).amount >= part[j].amount by {
            assert(next[j].amount >= part[j].amount);
        }
    }
}

/// A copy of a list of coins.
pub fn clone_coins(coins: &Vec<Coin>) -> (r: Vec<Coin>)
    ensures
        coins_view(r@) == coins_view(coins@),
{
    let mut out: Vec<Coin> = Vec::new();
    let mut i: usize = 0;
    while i < coins.len()
        invariant
            i <= coins.len(),
            out.len() == i,
            forall|j: int| 0 <= j < i ==> (#[trigger] out@[j])@ == coins@[j]@,
        decreases coins.len() - i,
    {
        out.push(coins[i].clone());
        i += 1;
    }
    assert(coins_view(out@) =~= coins_view(coins@));
    out
}

/// The place of the first coin of `denom` in `coins`.
pub fn find_denom(coins: &Vec<Coin>, denom: &str) -> (r: Option<usize>)
    ensures
        match r {
            Some(i) => is_first_pos(coins_view(coins@), denom@, i as int),
            None => !has_denom(coins_view(coins@), denom@),
        },
{
    let mut i: usize = 0;
    while i < coins.len()
        invariant
            i <= coins.len(),
            forall|j: int| 0 <= j < i ==> (#[trigger] coins_view(coins@)[j]).denom != denom@,
        decreases coins.len() - i,
    {
        if text_eq(coins[i].denom.as_str(), denom) {
            return Some(i);
        }
        i += 1;
    }
    None
}

/// Whether `coins` holds at least `amount` of `denom`.
pub fn has_at_least(coins: &Vec<Coin>, denom: &str, amount: u128) -> (r: bool)
    ensures
        r == (amount_of(coins_view(coins@), denom@) >= amount),
{
    let ghost all = coins_view(coins@);
    let mut sum: u128 = 0;
    let mut i: usize = 0;
    while i < coins.len()
        invariant
            i <= coins.len(),
            all == coins_view(coins@),
            sum == amount_of(all.take(i as int), denom@),
        decreases coins.len() - i,
    {
        proof {
            assert(all.take(i + 1).drop_last() =~= all.take(i as int));
            assert(all.take(i + 1).last() == all[i as int]);
        }
        if text_eq(coins[i].denom.as_str(), denom) {
            match sum.checked_add(coins[i].amount) {
                Some(s) => {
                    sum = s;
                },
                None => {
                    proof {
                        lemma_amount_of_grows(all, denom@, i + 1);
                    }
                    return true;
                },
            }
        }
        i += 1;
    }
    proof {
        assert(all.take(i as int) =~= all);
    }
    sum >= amount
}

/// A list holds of a denomination at least what its first `n` coins hold.
pub proof fn lemma_amount_of_grows(coins: Seq<CoinView>, denom: Seq<char>, n: int)
    requires
        0 <= n <= coins.len(),
    ensures
        amount_of(coins.take(n), denom) <= amount_of(coins, denom),
    decreases coins.len() - n,
{
    if n == coins.len() {
        assert(coins.take(n) =~= coins);
    } else {
        assert(coins.take(n + 1).drop_last() =~= coins.take(n));
        lemma_amount_of_grows(coins, denom, n + 1);
    }
}

/// Whether no denomination occurs twice in `coins`.
pub fn denoms_are_unique(coins: &Vec<Coin>) -> (r: bool)
    ensures
        r == denoms_unique(coins_view(coins@)),
{
    let ghost all = coins_view(coins@);
    let mut j: usize = 0;
    while j < coins.len()
        invariant
            j <= coins.len(),
            all == coins_view(coins@),
            forall|a: int, b: int|
                0 <= a < b < j ==> (#[trigger] all[a]).denom != (#[trigger] all[b]).denom,
        decreases coins.len() - j,
    {
        let mut i: usize = 0;
        while i < j
            invariant
                i <= j,
                j < coins.len(),
                all == coins_view(coins@),
                forall|a: int| 0 <= a < i ==> (#[trigger] all[a]).denom != all[j as int].denom,
            decreases j - i,
        {
            if text_eq(coins[i].denom.as_str(), coins[j].denom.as_str()) {
                assert(all[i as int].denom == all[j as int].denom);
                return false;
            }
            i += 1;
        }
        j += 1;
    }
    true
}

/// Whether `coins` can be deposited: see [`valid_funds`].
pub fn is_valid_funds(coins: &Vec<Coin>) -> (r: bool)
    ensures
        r == valid_funds(coins_view(coins@)),
{
    if coins.len() == 0 {
        return false;
    }
    let ghost all = coins_view(coins@);
    let mut i: usize = 0;
    while i < coins.len()
        invariant
            i <= coins.len(),
            all == coins_view(coins@),
            forall|a: int| 0 <= a < i ==> (#[trigger] all[a]).amount > 0,
        decreases coins.len() - i,
    {
        if coins[i].amount == 0 {
            assert(all[i as int].amount == 0);
            return false;
        }
        i += 1;
    }
    denoms_are_unique(coins)
}

/// Merges `deposit` into `held`: amounts of one denomination are added, new
/// denominations follow the held ones in the order in which they come.
/// `None` when a sum does not fit a coin's amount.
pub fn merge_coins(held: &Vec<Coin>, deposit: &Vec<Coin>) -> (r: Option<Vec<Coin>>)
    ensures
        match r {
            Some(v) => coins_view(v@) == merge(coins_view(held@), coins_view(deposit@)),
            None => !in_range(merge(coins_view(held@), coins_view(deposit@))),
        },
{
    let ghost h = coins_view(held@);
    let ghost d = coins_view(deposit@);
    let mut acc = clone_coins(held);
    let mut i: usize = 0;
    while i < deposit.len()
        invariant
            i <= deposit.len(),
            h == coins_view(held@),
            d == coins_view(deposit@),
            coins_view(acc@) == merge(h, d.take(i as int)),
        decreases deposit.len() - i,
    {
        let ghost before = coins_view(acc@);
        proof {
            assert(d.take(i + 1).drop_last() =~= d.take(i as int));
            assert(d.take(i + 1).last() == d[i as int]);
            assert(d[i as int] == deposit@[i as int]@);
        }
        match find_denom(&acc, deposit[i].denom.as_str()) {
            Some(j) => {
                proof {
                    assert(has_denom(before, d[i as int].denom));
                    lemma_first_pos(before, d[i as int].denom);
                }
                match acc[j].amount.checked_add(deposit[i].amount) {
                    Some(sum) => {
                        let raised = Coin { denom: deposit[i].denom.clone(), amount: sum };
                        acc.set(j, raised);
                        assert(coins_view(acc@) =~= add_coin(before, d[i as int]));
                    },
                    None => {
                        proof {
                            let next = merge(h, d.take(i + 1));
                            assert(next[j as int].amount > u128::MAX);
                            lemma_merge_grows(h, d, i + 1);
                            assert(merge(h, d)[j as int].amount > u128::MAX);
                        }
                        return None;
                    },
                }
            },
            None => {
                acc.push(deposit[i].clone());
                assert(coins_view(acc@) =~= add_coin(before, d[i as int]));
            },
        }
        i += 1;
    }
    proof {
        assert(d.take(i as int) =~= d);
    }
    Some(acc)
}

} // verus!
