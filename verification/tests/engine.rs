use andromeda_timelock::coin::{
    coin, coins, denoms_are_unique, find_denom, has_at_least, is_valid_funds, merge_coins, Coin,
};
use andromeda_timelock::condition::{
    is_locked, is_well_formed, meets_minimum, BlockInfo, EscrowCondition,
};
use andromeda_timelock::contract::{
    attempt_release, execute_hold_funds, execute_release_funds, execute_release_specific_funds,
    query_funds_for_recipient, query_held_funds, MessageInfo, ReleaseAttempt, Response,
};
use andromeda_timelock::error::ContractError;
use andromeda_timelock::escrow::{Escrow, Transfer};
use andromeda_timelock::ledger::{Ledger, Record, DEFAULT_LIMIT, MAX_LIMIT};
use andromeda_timelock::recipient::{
    recipient_or_sender, ADORecipient, AndrAddress, Recipient,
};
use andromeda_timelock::text::{text_eq, text_order, TextOrder};

fn block(height: u64, time: u64) -> BlockInfo {
    BlockInfo { height, time }
}

fn info(sender: &str, funds: Vec<Coin>) -> MessageInfo {
    MessageInfo { sender: sender.to_string(), funds }
}

fn escrow(funds: Vec<Coin>, condition: Option<EscrowCondition>, recipient: &str) -> Escrow {
    Escrow {
        coins: funds,
        condition,
        recipient: Recipient::Addr(recipient.to_string()),
        recipient_addr: recipient.to_string(),
    }
}

fn hold(
    ledger: &mut Ledger,
    sender: &str,
    funds: Vec<Coin>,
    condition: Option<EscrowCondition>,
    recipient: &str,
) -> Result<Response, ContractError> {
    execute_hold_funds(
        ledger,
        info(sender, funds),
        condition,
        Some(Recipient::Addr(recipient.to_string())),
        Some(recipient.to_string()),
    )
}

fn owners(records: &[Record]) -> Vec<String> {
    records.iter().map(|r| r.owner.clone()).collect()
}

#[test]
fn text_order_goes_by_bytes() {
    assert_eq!(TextOrder::Before, text_order("a", "b"));
    assert_eq!(TextOrder::After, text_order("b", "a"));
    assert_eq!(TextOrder::Same, text_order("owner", "owner"));
    assert_eq!(TextOrder::Before, text_order("a", "ab"));
    assert_eq!(TextOrder::After, text_order("ab", "a"));
    assert_eq!(TextOrder::Before, text_order("", "a"));
    assert_eq!(TextOrder::Same, text_order("", ""));
    assert_eq!(TextOrder::Before, text_order("Z", "a"));
    assert_eq!(TextOrder::Before, text_order("sender1", "sender2"));
    assert_eq!(TextOrder::Before, text_order("sender10", "sender2"));
    // Two bytes in the encoding, the first above every ASCII byte.
    assert_eq!(TextOrder::After, text_order("\u{e9}", "z"));
    assert_eq!(TextOrder::Before, text_order("\u{e9}", "\u{ea}"));
}

#[test]
fn text_eq_compares_whole_strings() {
    assert!(text_eq("uusd", "uusd"));
    assert!(!text_eq("uusd", "uusd "));
    assert!(!text_eq("uusd", "uluna"));
    assert!(text_eq("", ""));
}

#[test]
fn merge_adds_amounts_of_one_denomination() {
    let merged = merge_coins(&coins(100, "uusd"), &coins(50, "uusd")).unwrap();
    assert_eq!(vec![coin(150, "uusd")], merged);
}

#[test]
fn merge_keeps_denominations_apart() {
    let merged = merge_coins(&coins(100, "uusd"), &coins(50, "uluna")).unwrap();
    assert_eq!(vec![coin(100, "uusd"), coin(50, "uluna")], merged);
}

#[test]
fn merge_appends_new_denominations_in_their_order() {
    let held = vec![coin(1, "b"), coin(2, "a")];
    let deposit = vec![coin(10, "z"), coin(20, "a"), coin(30, "c")];
    let merged = merge_coins(&held, &deposit).unwrap();
    assert_eq!(vec![coin(1, "b"), coin(22, "a"), coin(10, "z"), coin(30, "c")], merged);
}

#[test]
fn merge_takes_a_denomination_twice_in_one_deposit() {
    let merged = merge_coins(&vec![], &vec![coin(1, "a"), coin(2, "b"), coin(3, "a")]).unwrap();
    assert_eq!(vec![coin(4, "a"), coin(2, "b")], merged);
}

#[test]
fn merge_of_nothing_changes_nothing() {
    assert_eq!(coins(7, "a"), merge_coins(&coins(7, "a"), &vec![]).unwrap());
    assert_eq!(coins(7, "a"), merge_coins(&vec![], &coins(7, "a")).unwrap());
}

#[test]
fn merge_reports_a_sum_that_does_not_fit() {
    assert_eq!(None, merge_coins(&coins(u128::MAX, "uusd"), &coins(1, "uusd")));
    assert_eq!(
        Some(coins(u128::MAX, "uusd")),
        merge_coins(&coins(u128::MAX - 1, "uusd"), &coins(1, "uusd"))
    );
    // The sum that does not fit may come late in the deposit.
    let deposit = vec![coin(1, "a"), coin(u128::MAX, "b"), coin(1, "b")];
    assert_eq!(None, merge_coins(&coins(1, "a"), &deposit));
}

#[test]
fn find_denom_gives_the_first_place() {
    let held = vec![coin(1, "a"), coin(2, "b"), coin(3, "a")];
    assert_eq!(Some(0), find_denom(&held, "a"));
    assert_eq!(Some(1), find_denom(&held, "b"));
    assert_eq!(None, find_denom(&held, "c"));
    assert_eq!(None, find_denom(&vec![], "a"));
}

#[test]
fn has_at_least_sums_a_denomination() {
    let held = vec![coin(100, "uusd"), coin(5, "uluna"), coin(20, "uusd")];
    assert!(has_at_least(&held, "uusd", 120));
    assert!(!has_at_least(&held, "uusd", 121));
    assert!(has_at_least(&held, "uluna", 5));
    assert!(!has_at_least(&held, "ukrw", 1));
    // Nothing is at least nothing.
    assert!(has_at_least(&held, "ukrw", 0));
    assert!(has_at_least(&vec![], "uusd", 0));
    // A sum beyond the largest amount is at least any amount.
    let big = vec![coin(u128::MAX, "a"), coin(u128::MAX, "a")];
    assert!(has_at_least(&big, "a", u128::MAX));
}

#[test]
fn funds_are_valid_when_present_positive_and_distinct() {
    assert!(is_valid_funds(&coins(1, "uusd")));
    assert!(is_valid_funds(&vec![coin(1, "uusd"), coin(2, "uluna")]));
    assert!(!is_valid_funds(&vec![]));
    assert!(!is_valid_funds(&coins(0, "uusd")));
    assert!(!is_valid_funds(&vec![coin(1, "uusd"), coin(0, "uluna")]));
    assert!(!is_valid_funds(&vec![coin(1, "uusd"), coin(2, "uusd")]));
    assert!(denoms_are_unique(&vec![]));
    assert!(denoms_are_unique(&vec![coin(1, "a"), coin(1, "b"), coin(1, "c")]));
    assert!(!denoms_are_unique(&vec![coin(1, "a"), coin(1, "b"), coin(1, "a")]));
}

#[test]
fn no_condition_never_locks() {
    assert!(!is_locked(&None, &block(0, 0), &vec![]));
    assert!(!is_locked(&None, &block(u64::MAX, u64::MAX), &coins(1, "uusd")));
}

#[test]
fn height_condition_opens_at_its_height() {
    for h in [1u64, 2, 10, 12_345, u64::MAX] {
        let condition = Some(EscrowCondition::ExpireAtHeight(h));
        assert!(is_locked(&condition, &block(h - 1, 0), &coins(1, "uusd")));
        assert!(!is_locked(&condition, &block(h, 0), &coins(1, "uusd")));
    }
    let condition = Some(EscrowCondition::ExpireAtHeight(0));
    assert!(!is_locked(&condition, &block(0, 0), &coins(1, "uusd")));
    // The block time is not looked at.
    let condition = Some(EscrowCondition::ExpireAtHeight(5));
    assert!(is_locked(&condition, &block(4, u64::MAX), &coins(1, "uusd")));
    assert!(!is_locked(&condition, &block(6, 0), &coins(1, "uusd")));
}

#[test]
fn time_condition_opens_at_its_time() {
    for t in [1u64, 100, 1_571_797_419_879_305_533, u64::MAX] {
        let condition = Some(EscrowCondition::ExpireAtTime(t));
        assert!(is_locked(&condition, &block(0, t - 1), &coins(1, "uusd")));
        assert!(!is_locked(&condition, &block(0, t), &coins(1, "uusd")));
    }
    // The height is not looked at.
    let condition = Some(EscrowCondition::ExpireAtTime(5));
    assert!(is_locked(&condition, &block(u64::MAX, 4), &coins(1, "uusd")));
}

#[test]
fn minimum_funds_lock_until_every_amount_is_held() {
    let one = Some(EscrowCondition::MinimumFunds(coins(200, "uusd")));
    assert!(is_locked(&one, &block(0, 0), &coins(100, "uusd")));
    assert!(is_locked(&one, &block(0, 0), &coins(199, "uusd")));
    assert!(!is_locked(&one, &block(0, 0), &coins(200, "uusd")));

    let two = Some(EscrowCondition::MinimumFunds(vec![coin(200, "uusd"), coin(100, "uluna")]));
    assert!(!is_locked(&two, &block(0, 0), &vec![coin(210, "uusd"), coin(120, "uluna")]));
    assert!(is_locked(&two, &block(0, 0), &vec![coin(210, "uusd"), coin(99, "uluna")]));
    // A denomination that is not held counts as nothing held.
    assert!(is_locked(&two, &block(0, 0), &coins(210, "uusd")));
    assert!(is_locked(&two, &block(u64::MAX, u64::MAX), &vec![]));
}

#[test]
fn minimum_funds_of_nothing_are_met_by_nothing() {
    let zero = Some(EscrowCondition::MinimumFunds(coins(0, "uusd")));
    assert!(!is_locked(&zero, &block(0, 0), &vec![]));
    assert!(!is_locked(&zero, &block(0, 0), &coins(1, "uluna")));
    assert!(meets_minimum(&vec![], &vec![]));
    assert!(meets_minimum(&coins(5, "a"), &coins(5, "a")));
    assert!(!meets_minimum(&coins(5, "a"), &coins(6, "a")));
}

#[test]
fn conditions_are_well_formed_unless_minimum_funds_are_empty_or_repeat() {
    assert!(is_well_formed(&None));
    assert!(is_well_formed(&Some(EscrowCondition::ExpireAtHeight(0))));
    assert!(is_well_formed(&Some(EscrowCondition::ExpireAtTime(0))));
    assert!(is_well_formed(&Some(EscrowCondition::MinimumFunds(coins(0, "uusd")))));
    assert!(is_well_formed(&Some(EscrowCondition::MinimumFunds(vec![
        coin(1, "uusd"),
        coin(1, "uluna")
    ]))));
    assert!(!is_well_formed(&Some(EscrowCondition::MinimumFunds(vec![]))));
    assert!(!is_well_formed(&Some(EscrowCondition::MinimumFunds(vec![
        coin(1, "uusd"),
        coin(2, "uusd")
    ]))));
}

#[test]
fn escrow_add_funds_merges_or_leaves_alone() {
    let mut e = escrow(coins(100, "uusd"), Some(EscrowCondition::ExpireAtHeight(3)), "r");
    assert!(e.add_funds(&vec![coin(1, "uluna"), coin(2, "uusd")]));
    assert_eq!(
        escrow(
            vec![coin(102, "uusd"), coin(1, "uluna")],
            Some(EscrowCondition::ExpireAtHeight(3)),
            "r"
        ),
        e
    );
    assert!(!e.add_funds(&coins(u128::MAX, "uluna")));
    assert_eq!(vec![coin(102, "uusd"), coin(1, "uluna")], e.coins);
}

#[test]
fn escrow_validates_funds_and_condition() {
    assert!(escrow(coins(1, "uusd"), None, "r").validate());
    assert!(!escrow(vec![], None, "r").validate());
    assert!(!escrow(coins(0, "uusd"), None, "r").validate());
    assert!(!escrow(coins(1, "uusd"), Some(EscrowCondition::MinimumFunds(vec![])), "r").validate());
}

#[test]
fn escrow_locks_by_its_condition_and_becomes_a_transfer() {
    let e = escrow(coins(100, "uusd"), Some(EscrowCondition::ExpireAtHeight(3)), "r");
    assert!(e.is_locked(&block(2, 0)));
    assert!(!e.is_locked(&block(3, 0)));
    assert_eq!(
        Transfer {
            recipient: Recipient::Addr("r".to_string()),
            to_address: "r".to_string(),
            amount: coins(100, "uusd"),
        },
        e.into_transfer()
    );
}

#[test]
fn recipient_defaults_to_the_sender() {
    assert_eq!(Recipient::Addr("me".to_string()), recipient_or_sender(None, "me"));
    assert_eq!(
        Recipient::Addr("you".to_string()),
        recipient_or_sender(Some(Recipient::Addr("you".to_string())), "me")
    );
    assert_eq!(Recipient::Addr("a".to_string()), Recipient::from_string("a".to_string()));
}

#[test]
fn ledger_put_get_delete() {
    let mut ledger = Ledger::new();
    assert_eq!(0, ledger.len());
    assert_eq!(None, ledger.get("o", "r"));

    ledger.put("o".to_string(), "r".to_string(), escrow(coins(1, "uusd"), None, "r"));
    assert_eq!(1, ledger.len());
    assert_eq!(Some(escrow(coins(1, "uusd"), None, "r")), ledger.get("o", "r"));
    // The key is the pair, not the two strings run together.
    assert_eq!(None, ledger.get("or", ""));
    assert_eq!(None, ledger.get("", "or"));
    assert_eq!(None, ledger.get("r", "o"));

    // A second put under the key replaces.
    ledger.put("o".to_string(), "r".to_string(), escrow(coins(2, "uluna"), None, "r"));
    assert_eq!(1, ledger.len());
    assert_eq!(Some(escrow(coins(2, "uluna"), None, "r")), ledger.get("o", "r"));

    assert_eq!(None, ledger.delete("o", "x"));
    assert_eq!(1, ledger.len());
    assert_eq!(Some(escrow(coins(2, "uluna"), None, "r")), ledger.delete("o", "r"));
    assert_eq!(0, ledger.len());
    assert_eq!(None, ledger.get("o", "r"));
    assert_eq!(None, ledger.delete("o", "r"));
}

#[test]
fn ledger_keeps_keys_that_run_together_apart() {
    let mut ledger = Ledger::new();
    ledger.put("ab".to_string(), "c".to_string(), escrow(coins(1, "x"), None, "c"));
    ledger.put("a".to_string(), "bc".to_string(), escrow(coins(2, "x"), None, "bc"));
    assert_eq!(2, ledger.len());
    assert_eq!(Some(escrow(coins(1, "x"), None, "c")), ledger.get("ab", "c"));
    assert_eq!(Some(escrow(coins(2, "x"), None, "bc")), ledger.get("a", "bc"));
}

#[test]
fn ledger_walks_by_recipient_then_owner() {
    let mut ledger = Ledger::new();
    for (owner, recipient) in [("o2", "rb"), ("o1", "rb"), ("o3", "ra"), ("o1", "ra"), ("o2", "ra")] {
        ledger.put(owner.to_string(), recipient.to_string(), escrow(coins(1, "x"), None, recipient));
    }
    let all = ledger.entries();
    let keys: Vec<(String, String)> =
        all.iter().map(|r| (r.recipient.clone(), r.owner.clone())).collect();
    let expected: Vec<(String, String)> =
        [("ra", "o1"), ("ra", "o2"), ("ra", "o3"), ("rb", "o1"), ("rb", "o2")]
            .iter()
            .map(|(r, o)| (r.to_string(), o.to_string()))
            .collect();
    assert_eq!(expected, keys);

    // The walk stays in order over deletes in the middle and at the ends.
    ledger.delete("o2", "ra");
    ledger.delete("o2", "rb");
    ledger.delete("o1", "ra");
    let keys: Vec<(String, String)> =
        ledger.entries().iter().map(|r| (r.recipient.clone(), r.owner.clone())).collect();
    let expected: Vec<(String, String)> =
        [("ra", "o3"), ("rb", "o1")].iter().map(|(r, o)| (r.to_string(), o.to_string())).collect();
    assert_eq!(expected, keys);
    assert_eq!(Some(escrow(coins(1, "x"), None, "ra")), ledger.get("o3", "ra"));
    assert_eq!(Some(escrow(coins(1, "x"), None, "rb")), ledger.get("o1", "rb"));
}

#[test]
fn scan_takes_one_recipient_in_owner_order() {
    let mut ledger = Ledger::new();
    for (owner, recipient, amount) in
        [("c", "r", 3u128), ("a", "r", 1), ("b", "q", 9), ("b", "r", 2), ("a", "s", 8)]
    {
        ledger.put(
            owner.to_string(),
            recipient.to_string(),
            escrow(coins(amount, "x"), None, recipient),
        );
    }
    let found = ledger.scan_by_recipient("r", None, None);
    assert_eq!(vec!["a", "b", "c"], owners(&found));
    assert_eq!(
        vec![coins(1, "x"), coins(2, "x"), coins(3, "x")],
        found.iter().map(|r| r.escrow.coins.clone()).collect::<Vec<_>>()
    );
    assert!(found.iter().all(|r| r.recipient == "r"));
    assert_eq!(vec!["b"], owners(&ledger.scan_by_recipient("q", None, None)));
    assert!(ledger.scan_by_recipient("nobody", None, None).is_empty());
}

#[test]
fn scan_resumes_after_the_cursor() {
    let mut ledger = Ledger::new();
    for owner in ["a", "b", "c", "d"] {
        ledger.put(owner.to_string(), "r".to_string(), escrow(coins(1, "x"), None, "r"));
    }
    assert_eq!(vec!["b", "c", "d"], owners(&ledger.scan_by_recipient("r", Some("a"), None)));
    assert_eq!(vec!["d"], owners(&ledger.scan_by_recipient("r", Some("c"), None)));
    assert!(ledger.scan_by_recipient("r", Some("d"), None).is_empty());
    // The cursor need not be an owner.
    assert_eq!(vec!["c", "d"], owners(&ledger.scan_by_recipient("r", Some("bb"), None)));
    assert_eq!(vec!["a", "b", "c", "d"], owners(&ledger.scan_by_recipient("r", Some(""), None)));
    assert_eq!(vec!["b", "c"], owners(&ledger.scan_by_recipient("r", Some("a"), Some(2))));
}

#[test]
fn scan_limits_the_page() {
    let mut ledger = Ledger::new();
    for i in 0..35u32 {
        let owner = format!("owner{:02}", i);
        ledger.put(owner, "r".to_string(), escrow(coins(1, "x"), None, "r"));
    }
    assert_eq!(10, DEFAULT_LIMIT);
    assert_eq!(30, MAX_LIMIT);
    assert_eq!(10, ledger.scan_by_recipient("r", None, None).len());
    assert_eq!(30, ledger.scan_by_recipient("r", None, Some(100)).len());
    assert_eq!(30, ledger.scan_by_recipient("r", None, Some(30)).len());
    assert_eq!(29, ledger.scan_by_recipient("r", None, Some(29)).len());
    assert_eq!(1, ledger.scan_by_recipient("r", None, Some(1)).len());
    assert_eq!(0, ledger.scan_by_recipient("r", None, Some(0)).len());
    let page = ledger.scan_by_recipient("r", Some("owner29"), Some(100));
    assert_eq!(vec!["owner30", "owner31", "owner32", "owner33", "owner34"], owners(&page));
}

#[test]
fn pagination_is_stable() {
    let mut ledger = Ledger::new();
    for owner in ["sender2", "sender1", "sender3"] {
        ledger.put(owner.to_string(), "r".to_string(), escrow(coins(1, "x"), None, "r"));
    }
    ledger.put("sender0".to_string(), "q".to_string(), escrow(coins(1, "x"), None, "q"));
    let whole = ledger.scan_by_recipient("r", None, None);
    let first = ledger.scan_by_recipient("r", None, Some(1));
    assert_eq!(1, first.len());
    assert_eq!(whole[0], first[0]);
    let second = ledger.scan_by_recipient("r", Some(first[0].owner.as_str()), Some(1));
    assert_eq!(1, second.len());
    assert_eq!(whole[1], second[0]);
    let third = ledger.scan_by_recipient("r", Some(second[0].owner.as_str()), Some(1));
    assert_eq!(whole[2], third[0]);
    assert!(ledger.scan_by_recipient("r", Some(third[0].owner.as_str()), Some(1)).is_empty());
}

#[test]
fn hold_funds_fails_when_the_recipient_does_not_resolve() {
    let mut ledger = Ledger::new();
    let res = execute_hold_funds(
        &mut ledger,
        info("owner", coins(1, "uusd")),
        None,
        Some(Recipient::Addr("somewhere".to_string())),
        None,
    );
    assert_eq!(
        ContractError::RecipientResolutionFailed { owner: "owner".to_string() },
        res.unwrap_err()
    );
    assert_eq!(0, ledger.len());
}

#[test]
fn hold_funds_rejects_a_malformed_condition_for_a_new_record() {
    let mut ledger = Ledger::new();
    let res = hold(&mut ledger, "o", coins(1, "uusd"), Some(EscrowCondition::MinimumFunds(vec![])), "r");
    assert_eq!(
        ContractError::InvalidCondition { owner: "o".to_string(), recipient: "r".to_string() },
        res.unwrap_err()
    );
    let twice = EscrowCondition::MinimumFunds(vec![coin(1, "uusd"), coin(2, "uusd")]);
    let res = hold(&mut ledger, "o", coins(1, "uusd"), Some(twice), "r");
    assert_eq!(
        ContractError::InvalidCondition { owner: "o".to_string(), recipient: "r".to_string() },
        res.unwrap_err()
    );
    assert_eq!(0, ledger.len());
}

#[test]
fn hold_funds_does_not_look_at_the_condition_of_a_later_deposit() {
    let mut ledger = Ledger::new();
    hold(&mut ledger, "o", coins(1, "uusd"), None, "r").unwrap();
    let res = hold(&mut ledger, "o", coins(1, "uusd"), Some(EscrowCondition::MinimumFunds(vec![])), "r")
        .unwrap();
    assert_eq!(
        Response::HoldFunds {
            sender: "o".to_string(),
            recipient: Recipient::Addr("r".to_string()),
            recipient_addr: "r".to_string(),
            condition: None,
        },
        res
    );
    assert_eq!(Some(escrow(coins(2, "uusd"), None, "r")), ledger.get("o", "r"));
}

#[test]
fn hold_funds_accepts_a_condition_that_is_already_met() {
    let mut ledger = Ledger::new();
    hold(&mut ledger, "o", coins(5, "uusd"), Some(EscrowCondition::MinimumFunds(coins(1, "uusd"))), "r")
        .unwrap();
    hold(&mut ledger, "p", coins(5, "uusd"), Some(EscrowCondition::ExpireAtHeight(0)), "r").unwrap();
    assert_eq!(2, ledger.len());
    let res =
        execute_release_funds(&mut ledger, &block(0, 0), info("r", vec![]), None, None, None).unwrap();
    match res {
        Response::ReleaseFunds { messages, .. } => assert_eq!(2, messages.len()),
        other => panic!("unexpected response: {:?}", other),
    }
}

#[test]
fn merge_preserves_the_original_condition() {
    let mut ledger = Ledger::new();
    let first = EscrowCondition::ExpireAtTime(77);
    hold(&mut ledger, "o", coins(1, "uusd"), Some(first.clone()), "r").unwrap();
    hold(&mut ledger, "o", coins(1, "uusd"), Some(EscrowCondition::ExpireAtHeight(5)), "r").unwrap();
    hold(&mut ledger, "o", coins(1, "uusd"), None, "r").unwrap();
    assert_eq!(Some(first), ledger.get("o", "r").unwrap().condition);

    // No condition is a condition too: it stays.
    hold(&mut ledger, "p", coins(1, "uusd"), None, "r").unwrap();
    hold(&mut ledger, "p", coins(1, "uusd"), Some(EscrowCondition::ExpireAtHeight(5)), "r").unwrap();
    assert_eq!(None, ledger.get("p", "r").unwrap().condition);
}

#[test]
fn deposits_add_up_by_denomination() {
    let mut ledger = Ledger::new();
    hold(&mut ledger, "o", coins(30, "x"), None, "r").unwrap();
    hold(&mut ledger, "o", coins(12, "x"), None, "r").unwrap();
    assert_eq!(coins(42, "x"), ledger.get("o", "r").unwrap().coins);

    hold(&mut ledger, "p", coins(30, "x"), None, "r").unwrap();
    hold(&mut ledger, "p", coins(12, "y"), None, "r").unwrap();
    assert_eq!(vec![coin(30, "x"), coin(12, "y")], ledger.get("p", "r").unwrap().coins);
    // The records of other keys are not touched.
    assert_eq!(coins(42, "x"), ledger.get("o", "r").unwrap().coins);
}

#[test]
fn hold_funds_names_the_recipient_of_the_latest_deposit() {
    let mut ledger = Ledger::new();
    let component = Recipient::ADO(ADORecipient {
        address: AndrAddress { identifier: "vault".to_string() },
        msg: Some(vec![1, 2, 3]),
    });
    execute_hold_funds(
        &mut ledger,
        info("o", coins(1, "uusd")),
        None,
        Some(component.clone()),
        Some("addr1".to_string()),
    )
    .unwrap();
    assert_eq!(component, ledger.get("o", "addr1").unwrap().recipient);
    hold(&mut ledger, "o", coins(1, "uusd"), None, "addr1").unwrap();
    let e = ledger.get("o", "addr1").unwrap();
    assert_eq!(Recipient::Addr("addr1".to_string()), e.recipient);
    assert_eq!("addr1", e.recipient_addr);
    assert_eq!(coins(2, "uusd"), e.coins);
}

#[test]
fn hold_funds_fails_on_overflow_and_changes_nothing() {
    let mut ledger = Ledger::new();
    hold(&mut ledger, "o", vec![coin(5, "a"), coin(u128::MAX, "b")], None, "r").unwrap();
    let res = hold(&mut ledger, "o", vec![coin(1, "a"), coin(1, "b")], None, "r");
    assert_eq!(
        ContractError::Overflow { owner: "o".to_string(), recipient: "r".to_string() },
        res.unwrap_err()
    );
    assert_eq!(vec![coin(5, "a"), coin(u128::MAX, "b")], ledger.get("o", "r").unwrap().coins);
}

#[test]
fn attempt_release_tells_the_three_cases_apart() {
    let mut ledger = Ledger::new();
    hold(&mut ledger, "o", coins(1, "uusd"), Some(EscrowCondition::ExpireAtHeight(5)), "r").unwrap();
    assert_eq!(ReleaseAttempt::NoRecord, attempt_release(&mut ledger, &block(9, 0), "x", "r"));
    assert_eq!(ReleaseAttempt::Locked, attempt_release(&mut ledger, &block(4, 0), "o", "r"));
    assert_eq!(1, ledger.len());
    assert_eq!(
        ReleaseAttempt::Released(Transfer {
            recipient: Recipient::Addr("r".to_string()),
            to_address: "r".to_string(),
            amount: coins(1, "uusd"),
        }),
        attempt_release(&mut ledger, &block(5, 0), "o", "r")
    );
    assert_eq!(0, ledger.len());
    assert_eq!(ReleaseAttempt::NoRecord, attempt_release(&mut ledger, &block(5, 0), "o", "r"));
}

#[test]
fn release_funds_fails_when_nothing_is_held_for_the_recipient() {
    let mut ledger = Ledger::new();
    hold(&mut ledger, "o", coins(1, "uusd"), None, "r").unwrap();
    let res = execute_release_funds(&mut ledger, &block(0, 0), info("q", vec![]), None, None, None);
    assert_eq!(
        ContractError::NoMatchingRecipientRecords { recipient: "q".to_string() },
        res.unwrap_err()
    );
    // An owner is not a recipient.
    let res = execute_release_funds(&mut ledger, &block(0, 0), info("o", vec![]), None, None, None);
    assert_eq!(
        ContractError::NoMatchingRecipientRecords { recipient: "o".to_string() },
        res.unwrap_err()
    );
    // A page of no records is empty.
    let res =
        execute_release_funds(&mut ledger, &block(0, 0), info("r", vec![]), None, None, Some(0));
    assert_eq!(
        ContractError::NoMatchingRecipientRecords { recipient: "r".to_string() },
        res.unwrap_err()
    );
    assert_eq!(1, ledger.len());
}

#[test]
fn exact_release_deletes_the_record() {
    let mut ledger = Ledger::new();
    hold(&mut ledger, "o", coins(1, "uusd"), None, "r").unwrap();
    hold(&mut ledger, "p", coins(2, "uusd"), None, "r").unwrap();
    let res = execute_release_specific_funds(
        &mut ledger,
        &block(0, 0),
        info("anyone", vec![]),
        "o".to_string(),
        Some("r".to_string()),
    )
    .unwrap();
    assert_eq!(
        Response::ReleaseFunds {
            recipient_addr: "r".to_string(),
            messages: vec![Transfer {
                recipient: Recipient::Addr("r".to_string()),
                to_address: "r".to_string(),
                amount: coins(1, "uusd"),
            }],
        },
        res
    );
    assert_eq!(None, query_held_funds(&ledger, "o".to_string(), "r".to_string()).funds);
    assert_eq!(
        Some(escrow(coins(2, "uusd"), None, "r")),
        query_held_funds(&ledger, "p".to_string(), "r".to_string()).funds
    );
    let again = execute_release_specific_funds(
        &mut ledger,
        &block(0, 0),
        info("r", vec![]),
        "o".to_string(),
        None,
    );
    assert_eq!(
        ContractError::NoCustodyRecord { owner: "o".to_string(), recipient: "r".to_string() },
        again.unwrap_err()
    );
}

#[test]
fn exact_release_of_a_locked_record_changes_nothing() {
    let mut ledger = Ledger::new();
    hold(&mut ledger, "o", coins(1, "uusd"), Some(EscrowCondition::ExpireAtHeight(5)), "r").unwrap();
    let res = execute_release_specific_funds(
        &mut ledger,
        &block(4, 0),
        info("r", vec![]),
        "o".to_string(),
        None,
    );
    assert_eq!(
        ContractError::FundsLocked { of_owner: Some("o".to_string()), recipient: "r".to_string() },
        res.unwrap_err()
    );
    assert_eq!(
        Some(escrow(coins(1, "uusd"), Some(EscrowCondition::ExpireAtHeight(5)), "r")),
        ledger.get("o", "r")
    );
}

#[test]
fn bulk_release_partial_success() {
    let mut ledger = Ledger::new();
    hold(&mut ledger, "locked", coins(7, "uusd"), Some(EscrowCondition::ExpireAtHeight(100)), "r")
        .unwrap();
    hold(&mut ledger, "open", coins(9, "uusd"), None, "r").unwrap();
    let res =
        execute_release_funds(&mut ledger, &block(1, 0), info("r", vec![]), None, None, None).unwrap();
    assert_eq!(
        Response::ReleaseFunds {
            recipient_addr: "r".to_string(),
            messages: vec![Transfer {
                recipient: Recipient::Addr("r".to_string()),
                to_address: "r".to_string(),
                amount: coins(9, "uusd"),
            }],
        },
        res
    );
    assert_eq!(None, ledger.get("open", "r"));
    assert_eq!(
        Some(escrow(coins(7, "uusd"), Some(EscrowCondition::ExpireAtHeight(100)), "r")),
        query_held_funds(&ledger, "locked".to_string(), "r".to_string()).funds
    );
    assert_eq!(1, ledger.len());
}

#[test]
fn bulk_release_total_failure() {
    let mut ledger = Ledger::new();
    hold(&mut ledger, "a", coins(7, "uusd"), Some(EscrowCondition::ExpireAtHeight(100)), "r").unwrap();
    hold(&mut ledger, "b", coins(8, "uusd"), Some(EscrowCondition::ExpireAtTime(100)), "r").unwrap();
    let res = execute_release_funds(&mut ledger, &block(1, 1), info("r", vec![]), None, None, None);
    assert_eq!(
        ContractError::FundsLocked { of_owner: None, recipient: "r".to_string() },
        res.unwrap_err()
    );
    assert_eq!(2, ledger.len());
    assert_eq!(
        Some(escrow(coins(7, "uusd"), Some(EscrowCondition::ExpireAtHeight(100)), "r")),
        ledger.get("a", "r")
    );
    assert_eq!(
        Some(escrow(coins(8, "uusd"), Some(EscrowCondition::ExpireAtTime(100)), "r")),
        ledger.get("b", "r")
    );
}

#[test]
fn bulk_release_works_page_by_page() {
    let mut ledger = Ledger::new();
    for owner in ["a", "b", "c", "d"] {
        hold(&mut ledger, owner, coins(1, owner), None, "r").unwrap();
    }
    hold(&mut ledger, "a", coins(1, "other"), None, "q").unwrap();
    let res = execute_release_funds(
        &mut ledger,
        &block(0, 0),
        info("someone", vec![]),
        Some("r".to_string()),
        Some("a".to_string()),
        Some(2),
    )
    .unwrap();
    match res {
        Response::ReleaseFunds { recipient_addr, messages } => {
            assert_eq!("r", recipient_addr);
            // One transfer for each record, in the order of the scan.
            assert_eq!(
                vec![coins(1, "b"), coins(1, "c")],
                messages.iter().map(|m| m.amount.clone()).collect::<Vec<_>>()
            );
        }
        other => panic!("unexpected response: {:?}", other),
    }
    let left: Vec<(String, String)> =
        ledger.entries().iter().map(|r| (r.owner.clone(), r.recipient.clone())).collect();
    let expected: Vec<(String, String)> =
        [("a", "q"), ("a", "r"), ("d", "r")].iter().map(|(o, r)| (o.to_string(), r.to_string())).collect();
    assert_eq!(expected, left);
}

#[test]
fn query_funds_for_recipient_pages_like_the_scan() {
    let mut ledger = Ledger::new();
    for (owner, amount) in [("c", 3u128), ("a", 1), ("b", 2)] {
        hold(&mut ledger, owner, coins(amount, "x"), None, "r").unwrap();
    }
    let all = query_funds_for_recipient(&ledger, "r".to_string(), None, None);
    assert_eq!(
        vec![
            escrow(coins(1, "x"), None, "r"),
            escrow(coins(2, "x"), None, "r"),
            escrow(coins(3, "x"), None, "r")
        ],
        all.funds
    );
    let page = query_funds_for_recipient(&ledger, "r".to_string(), Some("a".to_string()), Some(1));
    assert_eq!(vec![escrow(coins(2, "x"), None, "r")], page.funds);
    assert!(query_funds_for_recipient(&ledger, "nobody".to_string(), None, None).funds.is_empty());
}

#[test]
fn end_to_end() {
    let mut ledger = Ledger::new();
    hold(&mut ledger, "owner", coins(100, "uusd"), None, "r").unwrap();
    hold(
        &mut ledger,
        "owner",
        coins(100, "uluna"),
        Some(EscrowCondition::MinimumFunds(coins(150, "uusd"))),
        "r",
    )
    .unwrap();
    assert_eq!(None, ledger.get("owner", "r").unwrap().condition);
    let res =
        execute_release_funds(&mut ledger, &block(0, 0), info("r", vec![]), None, None, None).unwrap();
    assert_eq!(
        Response::ReleaseFunds {
            recipient_addr: "r".to_string(),
            messages: vec![Transfer {
                recipient: Recipient::Addr("r".to_string()),
                to_address: "r".to_string(),
                amount: vec![coin(100, "uusd"), coin(100, "uluna")],
            }],
        },
        res
    );
    assert_eq!(None, query_held_funds(&ledger, "owner".to_string(), "r".to_string()).funds);
    assert_eq!(0, ledger.len());
}

#[test]
fn merge_or_create_is_the_whole_deposit_rule() {
    // No escrow stands: the deposit makes one under the condition that came.
    let made = andromeda_timelock::contract::merge_or_create(
        "o",
        None,
        coins(5, "x"),
        Some(EscrowCondition::ExpireAtHeight(9)),
        Recipient::Addr("r".to_string()),
        "r".to_string(),
    )
    .unwrap();
    assert_eq!(escrow(coins(5, "x"), Some(EscrowCondition::ExpireAtHeight(9)), "r"), made);

    // One stands: its value grows, its condition stays.
    let grown = andromeda_timelock::contract::merge_or_create(
        "o",
        Some(made),
        vec![coin(1, "y"), coin(2, "x")],
        None,
        Recipient::Addr("r".to_string()),
        "r".to_string(),
    )
    .unwrap();
    assert_eq!(
        escrow(vec![coin(7, "x"), coin(1, "y")], Some(EscrowCondition::ExpireAtHeight(9)), "r"),
        grown
    );

    let full = escrow(coins(u128::MAX, "x"), None, "r");
    let res = andromeda_timelock::contract::merge_or_create(
        "o",
        Some(full),
        coins(1, "x"),
        None,
        Recipient::Addr("r".to_string()),
        "r".to_string(),
    );
    assert_eq!(
        ContractError::Overflow { owner: "o".to_string(), recipient: "r".to_string() },
        res.unwrap_err()
    );
}
