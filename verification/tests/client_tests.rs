use payments_engine::client::Client;
use payments_engine::transaction::{Transaction, TransactionType};

fn deposit(tx: u32, amount: u64) -> Transaction {
    Transaction::new(TransactionType::Deposit, 1, tx, Some(amount))
}

fn withdrawal(tx: u32, amount: u64) -> Transaction {
    Transaction::new(TransactionType::Withdrawal, 1, tx, Some(amount))
}

fn balances(c: &Client) -> (i128, i128, i128, bool) {
    (c.available(), c.held(), c.total(), c.locked())
}

#[test]
fn a_new_account_is_empty_and_unlocked() {
    let c = Client::new(42);
    assert_eq!(c.id(), 42);
    assert_eq!(balances(&c), (0, 0, 0, false));
}

#[test]
fn a_withdrawal_of_all_that_is_available_succeeds() {
    let mut c = Client::new(1);
    c.deposit(&deposit(1, 5_000_000));
    c.withdrawal(&withdrawal(2, 5_000_000));
    assert_eq!(balances(&c), (0, 0, 0, false));
}

#[test]
fn a_withdrawal_of_more_than_is_available_changes_nothing() {
    let mut c = Client::new(1);
    c.deposit(&deposit(1, 5_000_000));
    c.withdrawal(&withdrawal(2, 5_000_100));
    assert_eq!(balances(&c), (5_000_000, 0, 5_000_000, false));
}

#[test]
fn held_funds_cannot_be_withdrawn() {
    let mut c = Client::new(1);
    let d = deposit(1, 5_000_000);
    c.deposit(&d);
    c.dispute(Some(&d));
    c.withdrawal(&withdrawal(2, 1));
    assert_eq!(balances(&c), (0, 5_000_000, 5_000_000, false));
}

#[test]
fn a_reference_to_nothing_changes_nothing() {
    let mut c = Client::new(1);
    c.deposit(&deposit(1, 5_000_000));
    c.dispute(None);
    assert_eq!(balances(&c), (5_000_000, 0, 5_000_000, false));
    c.resolve(None);
    assert_eq!(balances(&c), (5_000_000, 0, 5_000_000, false));
    c.chargeback(None);
    assert_eq!(balances(&c), (5_000_000, 0, 5_000_000, false));
}

#[test]
fn a_resolve_without_a_dispute_changes_nothing() {
    let mut c = Client::new(1);
    let d = deposit(1, 5_000_000);
    c.deposit(&d);
    c.resolve(Some(&d));
    assert_eq!(balances(&c), (5_000_000, 0, 5_000_000, false));
}

#[test]
fn a_chargeback_without_a_resolve_changes_nothing() {
    let mut c = Client::new(1);
    let d = deposit(1, 5_000_000);
    c.deposit(&d);
    c.chargeback(Some(&d));
    assert_eq!(balances(&c), (5_000_000, 0, 5_000_000, false));
    c.dispute(Some(&d));
    c.chargeback(Some(&d));
    assert_eq!(balances(&c), (0, 5_000_000, 5_000_000, false));
}

#[test]
fn a_dispute_then_a_resolve_restores_the_balances() {
    let mut c = Client::new(1);
    let d1 = deposit(1, 3_000_000);
    let d2 = deposit(2, 700_000);
    c.deposit(&d1);
    c.deposit(&d2);
    let before = balances(&c);
    c.dispute(Some(&d2));
    assert_eq!(c.total(), before.2);
    assert_eq!(balances(&c), (3_000_000, 700_000, 3_700_000, false));
    c.resolve(Some(&d2));
    assert_eq!(balances(&c), before);
}

#[test]
fn a_resolve_ends_the_dispute() {
    let mut c = Client::new(1);
    let d = deposit(1, 3_000_000);
    c.deposit(&d);
    c.dispute(Some(&d));
    c.resolve(Some(&d));
    c.resolve(Some(&d));
    assert_eq!(balances(&c), (3_000_000, 0, 3_000_000, false));
}

#[test]
fn a_chargeback_is_applied_once() {
    let mut c = Client::new(1);
    let d = deposit(1, 3_000_000);
    c.deposit(&d);
    c.dispute(Some(&d));
    c.resolve(Some(&d));
    c.chargeback(Some(&d));
    assert_eq!(balances(&c), (3_000_000, -3_000_000, 0, true));
    c.chargeback(Some(&d));
    assert_eq!(balances(&c), (3_000_000, -3_000_000, 0, true));
}

#[test]
fn a_second_dispute_of_the_same_transaction_holds_again() {
    let mut c = Client::new(1);
    let d = deposit(1, 3_000_000);
    c.deposit(&d);
    c.dispute(Some(&d));
    c.dispute(Some(&d));
    assert_eq!(balances(&c), (-3_000_000, 6_000_000, 3_000_000, false));
}

#[test]
fn a_locked_account_stays_locked_and_still_moves() {
    let mut c = Client::new(1);
    let d = deposit(1, 3_000_000);
    c.deposit(&d);
    c.dispute(Some(&d));
    c.resolve(Some(&d));
    c.chargeback(Some(&d));
    assert!(c.locked());
    let d2 = deposit(2, 1_000_000);
    c.deposit(&d2);
    assert!(c.locked());
    c.withdrawal(&withdrawal(3, 500_000));
    assert!(c.locked());
    c.dispute(Some(&d2));
    assert!(c.locked());
    c.resolve(Some(&d2));
    assert!(c.locked());
    c.format_4f();
    assert!(c.locked());
    assert_eq!(balances(&c), (3_500_000, -3_000_000, 500_000, true));
}

#[test]
fn the_total_is_always_available_plus_held() {
    let mut c = Client::new(1);
    let d1 = deposit(1, 3_000_000);
    let d2 = deposit(2, 1_234_500);
    let w = withdrawal(3, 2_000_000);
    c.deposit(&d1);
    assert_eq!(c.total(), c.available() + c.held());
    c.deposit(&d2);
    assert_eq!(c.total(), c.available() + c.held());
    c.withdrawal(&w);
    assert_eq!(c.total(), c.available() + c.held());
    c.dispute(Some(&d1));
    assert_eq!(c.total(), c.available() + c.held());
    c.dispute(Some(&w));
    assert_eq!(c.total(), c.available() + c.held());
    c.resolve(Some(&d1));
    assert_eq!(c.total(), c.available() + c.held());
    c.chargeback(Some(&d1));
    assert_eq!(c.total(), c.available() + c.held());
    c.format_4f();
    assert_eq!(c.total(), c.available() + c.held());
    assert_eq!(balances(&c), (234_500, -1_000_000, -765_500, true));
}

#[test]
fn format_4f_rounds_every_balance_down() {
    let mut c = Client::new(1);
    let d1 = deposit(1, 1_234_567);
    let d2 = deposit(2, 55);
    c.deposit(&d1);
    c.deposit(&d2);
    c.dispute(Some(&d2));
    assert_eq!(balances(&c), (1_234_567, 55, 1_234_622, false));
    c.format_4f();
    assert_eq!(balances(&c), (1_234_500, 0, 1_234_600, false));
    c.format_4f();
    assert_eq!(balances(&c), (1_234_500, 0, 1_234_600, false));
}

#[test]
fn format_4f_rounds_a_negative_balance_down() {
    let mut c = Client::new(1);
    let d = deposit(1, 150);
    c.dispute(Some(&d));
    assert_eq!(balances(&c), (-150, 150, 0, false));
    c.format_4f();
    assert_eq!(balances(&c), (-200, 100, 0, false));
}

#[test]
fn a_reference_without_amount_is_refused_like_any_other() {
    let mut c = Client::new(1);
    c.deposit(&deposit(1, 5_000_000));
    let bare = Transaction::new(TransactionType::Resolve, 1, 1, None);
    c.resolve(Some(&bare));
    assert_eq!(balances(&c), (5_000_000, 0, 5_000_000, false));
    c.chargeback(Some(&bare));
    assert_eq!(balances(&c), (5_000_000, 0, 5_000_000, false));
}

#[test]
fn a_clone_is_an_account_of_its_own() {
    let mut c = Client::new(9);
    let d1 = deposit(1, 5_000_000);
    let d2 = deposit(2, 250_000);
    c.deposit(&d1);
    c.deposit(&d2);
    c.dispute(Some(&d1));
    c.dispute(Some(&d2));
    c.resolve(Some(&d2));
    let mut copy = c.clone();
    assert_eq!(copy.id(), 9);
    assert_eq!(balances(&copy), balances(&c));
    copy.resolve(Some(&d1));
    copy.chargeback(Some(&d2));
    assert_eq!(balances(&copy), (5_250_000, -250_000, 5_000_000, true));
    assert_eq!(balances(&c), (250_000, 5_000_000, 5_250_000, false));
    c.chargeback(Some(&d1));
    assert_eq!(balances(&c), (250_000, 5_000_000, 5_250_000, false));
}
