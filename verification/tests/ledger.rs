use erc20::account::AccountId;
use erc20::ledger::Erc20;
use erc20::ledger::Error;
use erc20::ledger::Transfer;

#[test]
fn create_contract_work() {
    let erc20 = Erc20::new(1000, AccountId(1));
    assert_eq!(erc20.total_supply(), 1000);
}

#[test]
fn initial_holder_owns_everything() {
    let x = AccountId(1);
    let y = AccountId(2);
    let z = AccountId(3);
    let l = Erc20::new(1000, x);
    assert_eq!(l.total_supply(), 1000);
    assert_eq!(l.balance_of(x), 1000);
    assert_eq!(l.balance_of(y), 0);
    assert_eq!(l.balance_of(z), 0);
    assert_eq!(l.allowance(x, y), 0);
    assert_eq!(l.allowance(y, x), 0);
}

#[test]
fn transfer_moves_units() {
    let x = AccountId(1);
    let y = AccountId(2);
    let mut l = Erc20::new(1000, x);
    let r = l.transfer(x, y, 300);
    assert_eq!(r, Ok(Transfer { from: x, to: y, balance: 300 }));
    assert_eq!(l.balance_of(x), 700);
    assert_eq!(l.balance_of(y), 300);
    assert_eq!(l.total_supply(), 1000);
}

#[test]
fn transfer_beyond_balance_fails() {
    let x = AccountId(1);
    let y = AccountId(2);
    let mut l = Erc20::new(1000, x);
    let r = l.transfer(x, y, 1001);
    assert_eq!(r, Err(Error::InSufficientBalance));
    assert_eq!(l.balance_of(x), 1000);
    assert_eq!(l.balance_of(y), 0);
}

#[test]
fn transfer_from_without_allowance_fails() {
    let x = AccountId(1);
    let y = AccountId(2);
    let z = AccountId(3);
    let mut l = Erc20::new(1000, x);
    let r = l.transfer_from(z, x, y, 50);
    assert_eq!(r, Err(Error::InSufficientBalance));
    assert_eq!(l.balance_of(x), 1000);
    assert_eq!(l.balance_of(y), 0);
    assert_eq!(l.balance_of(z), 0);
    assert_eq!(l.allowance(x, z), 0);
}

#[test]
fn transfer_from_within_allowance() {
    let x = AccountId(1);
    let y = AccountId(2);
    let z = AccountId(3);
    let mut l = Erc20::new(1000, x);
    l.set_allowance(x, z, 100);
    assert_eq!(l.allowance(x, z), 100);
    let r = l.transfer_from(z, x, y, 60);
    assert_eq!(r, Ok(Transfer { from: x, to: y, balance: 60 }));
    assert_eq!(l.balance_of(x), 940);
    assert_eq!(l.balance_of(y), 60);
    assert_eq!(l.allowance(x, z), 40);
}

#[test]
fn self_transfer_keeps_balance() {
    let x = AccountId(1);
    let mut l = Erc20::new(1000, x);
    let r = l.transfer(x, x, 400);
    assert_eq!(r, Ok(Transfer { from: x, to: x, balance: 400 }));
    assert_eq!(l.balance_of(x), 1000);
    let r2 = l.transfer(x, x, 1001);
    assert_eq!(r2, Err(Error::InSufficientBalance));
    assert_eq!(l.balance_of(x), 1000);
}

#[test]
fn zero_amount_transfer_succeeds() {
    let x = AccountId(1);
    let y = AccountId(2);
    let mut l = Erc20::new(1000, x);
    let r = l.transfer(x, y, 0);
    assert_eq!(r, Ok(Transfer { from: x, to: y, balance: 0 }));
    assert_eq!(l.balance_of(x), 1000);
    assert_eq!(l.balance_of(y), 0);
    let r2 = l.transfer(y, x, 0);
    assert_eq!(r2, Ok(Transfer { from: y, to: x, balance: 0 }));
}

#[test]
fn conservation_across_operations() {
    let x = AccountId(1);
    let y = AccountId(2);
    let z = AccountId(3);
    let mut l = Erc20::new(1000, x);
    assert_eq!(l.balance_of(x) + l.balance_of(y) + l.balance_of(z), l.total_supply());
    l.transfer(x, y, 300).unwrap();
    assert_eq!(l.balance_of(x) + l.balance_of(y) + l.balance_of(z), l.total_supply());
    l.set_allowance(x, z, 500);
    l.transfer_from(z, x, z, 250).unwrap();
    assert_eq!(l.balance_of(x) + l.balance_of(y) + l.balance_of(z), l.total_supply());
    l.transfer(y, z, 300).unwrap();
    assert_eq!(l.balance_of(x) + l.balance_of(y) + l.balance_of(z), l.total_supply());
    assert_eq!(l.balance_of(x), 450);
    assert_eq!(l.balance_of(y), 0);
    assert_eq!(l.balance_of(z), 550);
}

#[test]
fn readings_are_never_negative() {
    // Balances and allowances are unsigned; a fresh or drained account reads
    // as exactly zero, never below it.
    let x = AccountId(1);
    let y = AccountId(2);
    let mut l = Erc20::new(5, x);
    l.transfer(x, y, 5).unwrap();
    assert_eq!(l.balance_of(x), 0);
    assert_eq!(l.balance_of(y), 5);
    assert_eq!(l.allowance(x, y), 0);
    l.set_allowance(y, x, 5);
    l.transfer_from(x, y, x, 5).unwrap();
    assert_eq!(l.allowance(y, x), 0);
    assert_eq!(l.balance_of(y), 0);
}

#[test]
fn failed_transfer_changes_nothing() {
    let x = AccountId(1);
    let y = AccountId(2);
    let z = AccountId(3);
    let mut l = Erc20::new(1000, x);
    l.transfer(x, y, 100).unwrap();
    l.set_allowance(x, z, 600);

    // Balance shortfall on a direct transfer.
    assert_eq!(l.transfer(y, z, 101), Err(Error::InSufficientBalance));
    // Allowance shortfall on a delegated transfer.
    assert_eq!(l.transfer_from(z, x, y, 601), Err(Error::InSufficientBalance));
    // Balance shortfall on a delegated transfer whose allowance suffices:
    // the allowance must survive untouched.
    l.set_allowance(x, z, 2000);
    assert_eq!(l.transfer_from(z, x, y, 1500), Err(Error::InSufficientBalance));

    assert_eq!(l.balance_of(x), 900);
    assert_eq!(l.balance_of(y), 100);
    assert_eq!(l.balance_of(z), 0);
    assert_eq!(l.allowance(x, z), 2000);
    assert_eq!(l.allowance(x, y), 0);
}

#[test]
fn allowance_decrement_is_exact() {
    let x = AccountId(1);
    let y = AccountId(2);
    let z = AccountId(3);
    let w = AccountId(4);
    let mut l = Erc20::new(1000, x);
    l.set_allowance(x, z, 100);
    l.set_allowance(x, w, 70);
    l.set_allowance(y, z, 30);
    l.transfer_from(z, x, y, 60).unwrap();
    assert_eq!(l.allowance(x, z), 40);
    assert_eq!(l.allowance(x, w), 70);
    assert_eq!(l.allowance(y, z), 30);
    assert_eq!(l.allowance(z, x), 0);
}

#[test]
fn allowance_may_exceed_balance() {
    let x = AccountId(1);
    let y = AccountId(2);
    let z = AccountId(3);
    let mut l = Erc20::new(1000, x);
    l.set_allowance(x, z, 2000);
    assert_eq!(l.transfer_from(z, x, y, 1500), Err(Error::InSufficientBalance));
    assert_eq!(l.allowance(x, z), 2000);
    let r = l.transfer_from(z, x, y, 1000);
    assert_eq!(r, Ok(Transfer { from: x, to: y, balance: 1000 }));
    assert_eq!(l.balance_of(x), 0);
    assert_eq!(l.balance_of(y), 1000);
    assert_eq!(l.allowance(x, z), 1000);
}

#[test]
fn set_allowance_overwrites() {
    let x = AccountId(1);
    let z = AccountId(3);
    let mut l = Erc20::new(1000, x);
    l.set_allowance(x, z, 100);
    l.set_allowance(x, z, 25);
    assert_eq!(l.allowance(x, z), 25);
    l.set_allowance(x, z, 0);
    assert_eq!(l.allowance(x, z), 0);
    assert_eq!(l.balance_of(x), 1000);
}

#[test]
fn full_supply_is_movable() {
    let x = AccountId(1);
    let y = AccountId(2);
    let mut l = Erc20::new(u128::MAX, x);
    let r = l.transfer(x, y, u128::MAX);
    assert_eq!(r, Ok(Transfer { from: x, to: y, balance: u128::MAX }));
    assert_eq!(l.balance_of(x), 0);
    assert_eq!(l.balance_of(y), u128::MAX);
    assert_eq!(l.transfer(x, y, 1), Err(Error::InSufficientBalance));
}

#[test]
fn zero_supply_ledger() {
    let x = AccountId(1);
    let y = AccountId(2);
    let mut l = Erc20::new(0, x);
    assert_eq!(l.total_supply(), 0);
    assert_eq!(l.balance_of(x), 0);
    assert_eq!(l.transfer(x, y, 0), Ok(Transfer { from: x, to: y, balance: 0 }));
    assert_eq!(l.transfer(x, y, 1), Err(Error::InSufficientBalance));
}

#[test]
fn round_trip_restores_balances() {
    let x = AccountId(1);
    let y = AccountId(2);
    let mut l = Erc20::new(1000, x);
    l.transfer(x, y, 500).unwrap();
    l.transfer(y, x, 500).unwrap();
    assert_eq!(l.balance_of(x), 1000);
    assert_eq!(l.balance_of(y), 0);
}
