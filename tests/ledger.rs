use wasm_token::address::{admin, Address, Witnesses};
use wasm_token::keys::{gen_approve_key, gen_balance_key, total_supply_key};
use wasm_token::ledger::{Ledger, LedgerError, LedgerEvent, DECIMAL_MULTIPLIER, TOTAL_SUPPLY};
use wasm_token::store::Store;

fn signed_by(signers: &[Address]) -> Witnesses {
    Witnesses::new(signers.to_vec())
}

fn initialized() -> Ledger {
    let mut l = Ledger::new();
    assert_eq!(l.initialize(&signed_by(&[admin()])), Ok(true));
    l
}

fn stored(l: Ledger, key: &Vec<u8>) -> bool {
    l.into_store().contains(key)
}

#[test]
fn test_init() {
    let admin = admin();
    let mut l = Ledger::new();
    assert!(l.initialize(&signed_by(&[admin])).unwrap());
    let total = DECIMAL_MULTIPLIER * TOTAL_SUPPLY;
    assert_eq!(l.total_supply(), total);
    assert_eq!(l.balance_of(&admin), total);

    let owner = Address::repeat_byte(1);
    let spender = Address::repeat_byte(2);
    let amount: u128 = 100;
    assert!(l.transfer(&signed_by(&[admin]), &admin, &owner, amount).unwrap());
    assert_eq!(l.balance_of(&admin), total - amount);
    assert_eq!(l.balance_of(&owner), amount);

    assert!(l.approve(&signed_by(&[owner]), &owner, &spender, amount).unwrap());
    assert_eq!(l.allowance(&owner, &spender), amount);

    let amount2: u128 = 50;
    assert!(l.transfer_from(&signed_by(&[spender]), &spender, &owner, amount2).unwrap());
    assert_eq!(l.allowance(&owner, &spender), amount - amount2);
    assert_eq!(l.balance_of(&owner), amount - amount2);
    assert_eq!(l.balance_of(&spender), amount2);

    let to1 = Address::repeat_byte(3);
    let to2 = Address::repeat_byte(4);
    let states = vec![(admin, to1, amount), (admin, to2, amount)];
    assert!(l.transfer_multi(&signed_by(&[admin]), states.as_slice()).unwrap());

    assert_eq!(l.balance_of(&admin), total - 3 * amount);
    assert_eq!(l.balance_of(&to1), amount);
    assert_eq!(l.balance_of(&to2), amount);
}

#[test]
fn new_ledger_is_empty() {
    let l = Ledger::new();
    assert_eq!(l.total_supply(), 0);
    assert_eq!(l.balance_of(&admin()), 0);
}

#[test]
fn initialize_twice_fails_and_keeps_state() {
    let mut l = initialized();
    let total = TOTAL_SUPPLY * DECIMAL_MULTIPLIER;
    assert_eq!(total, 10_000_000_000_000_000_000);
    assert_eq!(l.initialize(&signed_by(&[admin()])), Err(LedgerError::AlreadyInitialized));
    assert_eq!(l.total_supply(), total);
    assert_eq!(l.balance_of(&admin()), total);
}

#[test]
fn initialize_needs_the_administrator() {
    let mut l = Ledger::new();
    let other = Address::repeat_byte(9);
    assert_eq!(l.initialize(&signed_by(&[other])), Err(LedgerError::Unauthorized));
    assert_eq!(l.total_supply(), 0);
    assert_eq!(l.initialize(&signed_by(&[other, admin()])), Ok(true));
}

#[test]
fn transfer_of_more_than_balance_returns_false() {
    let mut l = initialized();
    let a = Address::repeat_byte(1);
    let b = Address::repeat_byte(2);
    assert_eq!(l.transfer(&signed_by(&[admin()]), &admin(), &a, 10), Ok(true));
    assert_eq!(l.transfer(&signed_by(&[a]), &a, &b, 11), Ok(false));
    assert_eq!(l.balance_of(&a), 10);
    assert_eq!(l.balance_of(&b), 0);
}

#[test]
fn transfer_of_zero_returns_false() {
    let mut l = initialized();
    let b = Address::repeat_byte(2);
    let total = l.total_supply();
    assert_eq!(l.transfer(&signed_by(&[admin()]), &admin(), &b, 0), Ok(false));
    assert_eq!(l.balance_of(&admin()), total);
    assert_eq!(l.balance_of(&b), 0);
    assert!(!stored(l, &gen_balance_key(&b)));
}

#[test]
fn transfer_needs_the_sender() {
    let mut l = initialized();
    let b = Address::repeat_byte(2);
    assert_eq!(l.transfer(&signed_by(&[b]), &admin(), &b, 5), Err(LedgerError::Unauthorized));
    assert_eq!(l.balance_of(&b), 0);
}

#[test]
fn full_self_transfer_keeps_balance() {
    let mut l = initialized();
    let a = Address::repeat_byte(1);
    assert_eq!(l.transfer(&signed_by(&[admin()]), &admin(), &a, 70), Ok(true));
    assert_eq!(l.transfer(&signed_by(&[a]), &a, &a, 70), Ok(true));
    assert_eq!(l.balance_of(&a), 70);
    assert!(stored(l, &gen_balance_key(&a)));
}

#[test]
fn full_transfer_removes_the_entry() {
    let mut l = initialized();
    let a = Address::repeat_byte(1);
    let b = Address::repeat_byte(2);
    assert_eq!(l.transfer(&signed_by(&[admin()]), &admin(), &a, 70), Ok(true));
    assert_eq!(l.transfer(&signed_by(&[a]), &a, &b, 70), Ok(true));
    assert_eq!(l.balance_of(&a), 0);
    assert_eq!(l.balance_of(&b), 70);
    assert!(!stored(l, &gen_balance_key(&a)));
}

#[test]
fn transfer_logs_an_event() {
    let mut l = initialized();
    let a = Address::repeat_byte(1);
    assert_eq!(l.transfer(&signed_by(&[admin()]), &admin(), &a, 5), Ok(true));
    assert_eq!(l.transfer(&signed_by(&[a]), &a, &a, 5), Ok(true));
    assert_eq!(l.transfer(&signed_by(&[a]), &a, &a, 6), Ok(false));
    let events = l.take_events();
    assert_eq!(events.len(), 2);
    match events[0] {
        LedgerEvent::Transfer { from, to, amount } => {
            assert_eq!(from, admin());
            assert_eq!(to, a);
            assert_eq!(amount, 5);
        }
        _ => panic!("expected a transfer event"),
    }
    assert!(matches!(events[1], LedgerEvent::Transfer { amount: 5, .. }));
    assert!(l.take_events().is_empty());
}

#[test]
fn approvals_add_up() {
    let mut l = initialized();
    let o = Address::repeat_byte(1);
    let s = Address::repeat_byte(2);
    assert_eq!(l.transfer(&signed_by(&[admin()]), &admin(), &o, 100), Ok(true));
    assert_eq!(l.approve(&signed_by(&[o]), &o, &s, 30), Ok(true));
    assert_eq!(l.approve(&signed_by(&[o]), &o, &s, 45), Ok(true));
    assert_eq!(l.allowance(&o, &s), 75);
    assert_eq!(l.allowance(&s, &o), 0);
    let events = l.take_events();
    assert!(matches!(events[2], LedgerEvent::Approve { amount: 45, .. }));
}

#[test]
fn approve_of_more_than_balance_aborts() {
    let mut l = initialized();
    let o = Address::repeat_byte(1);
    let s = Address::repeat_byte(2);
    assert_eq!(l.transfer(&signed_by(&[admin()]), &admin(), &o, 100), Ok(true));
    assert_eq!(l.approve(&signed_by(&[o]), &o, &s, 101), Err(LedgerError::InsufficientBalance));
    assert_eq!(l.approve(&signed_by(&[s]), &o, &s, 1), Err(LedgerError::Unauthorized));
    assert_eq!(l.allowance(&o, &s), 0);
}

#[test]
fn approve_of_zero_stores_nothing() {
    let mut l = initialized();
    let o = Address::repeat_byte(1);
    let s = Address::repeat_byte(2);
    assert_eq!(l.approve(&signed_by(&[o]), &o, &s, 0), Ok(true));
    assert_eq!(l.allowance(&o, &s), 0);
    assert!(!stored(l, &gen_approve_key(&o, &s)));
}

#[test]
fn transfer_from_over_allowance_aborts() {
    let mut l = initialized();
    let o = Address::repeat_byte(1);
    let s = Address::repeat_byte(2);
    assert_eq!(l.transfer(&signed_by(&[admin()]), &admin(), &o, 100), Ok(true));
    assert_eq!(l.approve(&signed_by(&[o]), &o, &s, 40), Ok(true));
    assert_eq!(l.transfer_from(&signed_by(&[s]), &s, &o, 41), Err(LedgerError::InsufficientAllowance));
    assert_eq!(l.allowance(&o, &s), 40);
    assert_eq!(l.balance_of(&o), 100);
    assert_eq!(l.balance_of(&s), 0);
}

#[test]
fn transfer_from_over_balance_aborts() {
    let mut l = initialized();
    let o = Address::repeat_byte(1);
    let s = Address::repeat_byte(2);
    let t = Address::repeat_byte(3);
    assert_eq!(l.transfer(&signed_by(&[admin()]), &admin(), &o, 100), Ok(true));
    assert_eq!(l.approve(&signed_by(&[o]), &o, &s, 100), Ok(true));
    assert_eq!(l.transfer(&signed_by(&[o]), &o, &t, 60), Ok(true));
    assert_eq!(l.transfer_from(&signed_by(&[s]), &s, &o, 50), Err(LedgerError::InsufficientBalance));
    assert_eq!(l.transfer_from(&signed_by(&[o]), &s, &o, 10), Err(LedgerError::Unauthorized));
    assert_eq!(l.allowance(&o, &s), 100);
    assert_eq!(l.balance_of(&o), 40);
}

#[test]
fn transfer_from_of_whole_allowance_removes_it() {
    let mut l = initialized();
    let o = Address::repeat_byte(1);
    let s = Address::repeat_byte(2);
    assert_eq!(l.transfer(&signed_by(&[admin()]), &admin(), &o, 100), Ok(true));
    assert_eq!(l.approve(&signed_by(&[o]), &o, &s, 100), Ok(true));
    assert_eq!(l.transfer_from(&signed_by(&[s]), &s, &o, 100), Ok(true));
    assert_eq!(l.balance_of(&o), 0);
    assert_eq!(l.balance_of(&s), 100);
    assert_eq!(l.allowance(&o, &s), 0);
    assert_eq!(l.take_events().len(), 2);
    let store = l.into_store();
    assert!(!store.contains(&gen_approve_key(&o, &s)));
    assert!(!store.contains(&gen_balance_key(&o)));
}

#[test]
fn transfer_from_to_oneself_keeps_balance() {
    let mut l = initialized();
    let o = Address::repeat_byte(1);
    assert_eq!(l.transfer(&signed_by(&[admin()]), &admin(), &o, 100), Ok(true));
    assert_eq!(l.approve(&signed_by(&[o]), &o, &o, 100), Ok(true));
    assert_eq!(l.transfer_from(&signed_by(&[o]), &o, &o, 100), Ok(true));
    assert_eq!(l.balance_of(&o), 100);
    assert_eq!(l.allowance(&o, &o), 0);
}

#[test]
fn failed_batch_changes_nothing() {
    let mut l = initialized();
    let a = Address::repeat_byte(1);
    let b = Address::repeat_byte(2);
    let total = l.total_supply();
    let states = vec![(admin(), a, 100), (a, b, 101)];
    assert_eq!(
        l.transfer_multi(&signed_by(&[admin(), a]), states.as_slice()),
        Err(LedgerError::BatchTransferFailed)
    );
    assert_eq!(l.balance_of(&admin()), total);
    assert_eq!(l.balance_of(&a), 0);
    assert!(l.take_events().is_empty());
    let unsigned = vec![(admin(), a, 100), (b, a, 1)];
    assert_eq!(
        l.transfer_multi(&signed_by(&[admin()]), unsigned.as_slice()),
        Err(LedgerError::Unauthorized)
    );
    assert_eq!(l.balance_of(&a), 0);
}

#[test]
fn batch_applies_in_order() {
    let mut l = initialized();
    let a = Address::repeat_byte(1);
    let b = Address::repeat_byte(2);
    let states = vec![(admin(), a, 100), (a, b, 100)];
    assert_eq!(l.transfer_multi(&signed_by(&[admin(), a]), states.as_slice()), Ok(true));
    assert_eq!(l.balance_of(&a), 0);
    assert_eq!(l.balance_of(&b), 100);
    assert_eq!(l.take_events().len(), 2);
    assert_eq!(l.transfer_multi(&signed_by(&[]), &[]), Ok(true));
}

#[test]
fn balances_add_up_to_the_supply() {
    let mut l = initialized();
    let a = Address::repeat_byte(1);
    let b = Address::repeat_byte(2);
    assert_eq!(l.transfer(&signed_by(&[admin()]), &admin(), &a, 500), Ok(true));
    assert_eq!(l.approve(&signed_by(&[a]), &a, &b, 200), Ok(true));
    assert_eq!(l.transfer_from(&signed_by(&[b]), &b, &a, 150), Ok(true));
    assert_eq!(l.transfer(&signed_by(&[b]), &b, &admin(), 20), Ok(true));
    let sum = l.balance_of(&admin()) + l.balance_of(&a) + l.balance_of(&b);
    assert_eq!(sum, l.total_supply());
    assert_eq!(l.balance_of(&a), 350);
    assert_eq!(l.balance_of(&b), 130);
}

#[test]
fn credit_past_the_largest_amount_aborts() {
    let a = Address::repeat_byte(1);
    let mut store = Store::new();
    store.put_u128(&gen_balance_key(&a), u128::MAX);
    store.put_u128(&gen_balance_key(&admin()), 1);
    let mut l = Ledger::from_store(store);
    assert_eq!(l.transfer(&signed_by(&[admin()]), &admin(), &a, 1), Err(LedgerError::Overflow));
    assert_eq!(l.balance_of(&admin()), 1);
    assert_eq!(l.balance_of(&a), u128::MAX);
}

#[test]
fn keys_follow_the_layout() {
    let a = Address::repeat_byte(7);
    let b = Address::repeat_byte(8);
    let mut expected = b"01".to_vec();
    expected.extend_from_slice(&[7u8; 20]);
    assert_eq!(gen_balance_key(&a), expected);
    let mut expected = b"02".to_vec();
    expected.extend_from_slice(&[7u8; 20]);
    expected.extend_from_slice(&[8u8; 20]);
    assert_eq!(gen_approve_key(&a, &b), expected);
    assert_ne!(gen_approve_key(&a, &b), gen_approve_key(&b, &a));
    assert_eq!(total_supply_key(), b"total_supply".to_vec());
    assert_eq!(admin().bytes[0], 220);
}
