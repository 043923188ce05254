use payments_engine::client;
use payments_engine::transaction::{Transaction, TransactionType};

/// Millionths in `x` currency units, for an amount.
fn amount(x: f64) -> u64 {
    (x * 1_000_000.0).round() as u64
}

/// Millionths in `x` currency units, for a balance.
fn balance(x: f64) -> i128 {
    (x * 1_000_000.0).round() as i128
}

/// Argument tests
#[test]
fn is_csv() {
    let args = vec!["--".to_string(), "file.csv".to_string()];
    assert_eq!(payments_engine::utils::parse_args(&args), true);
}

#[test]
fn no_csv() {
    let args = vec!["--".to_string(), "file.tar.gz".to_string()];
    assert_ne!(payments_engine::utils::parse_args(&args), true);
}

/// Transaction operations
///
#[test]
fn deposit() {
    let mut client = client::Client::new(0);
    let tx0 = Transaction::new(TransactionType::Deposit, 0, 0, Some(amount(2.0)));
    client.deposit(&tx0);

    assert_eq!(client.available(), balance(2.0));
    assert_eq!(client.total(), balance(2.0));
    assert_eq!(client.held(), balance(0.0));
    assert_eq!(client.locked(), false);
}

#[test]
fn withdrawal() {
    let mut client = client::Client::new(0);
    let tx0 = Transaction::new(TransactionType::Deposit, 0, 0, Some(amount(2.0)));
    let tx1 = Transaction::new(TransactionType::Withdrawal, 0, 1, Some(amount(1.0)));

    client.deposit(&tx0);
    client.withdrawal(&tx1);

    assert_eq!(client.available(), balance(1.0));
    assert_eq!(client.total(), balance(1.0));
    assert_eq!(client.held(), balance(0.0));
    assert_eq!(client.locked(), false);
}

#[test]
fn unit_tests_dispute() {
    let mut client = client::Client::new(0);

    let tx0 = Transaction::new(TransactionType::Deposit, 0, 0, Some(amount(2.0)));
    let tx1 = Transaction::new(TransactionType::Deposit, 0, 1, Some(amount(1.0)));

    client.deposit(&tx0);
    client.deposit(&tx1);

    let _tx2 = Transaction::new(TransactionType::Dispute, 0, 1, None);
    client.dispute(Some(&tx1));

    assert_eq!(client.available(), balance(3.0 - 1.0));
    assert_eq!(client.total(), balance(3.0));
    assert_eq!(client.held(), balance(0.0 + 1.0));
    assert_eq!(client.locked(), false);

    assert_eq!(client.available(), client.total() - client.held());
    assert_eq!(client.total(), client.available() + client.held());
    assert_eq!(client.held(), client.total() - client.available());
}

#[test]
fn unit_tests_resolve() {
    let mut client = client::Client::new(0);

    let tx0 = Transaction::new(TransactionType::Deposit, 0, 0, Some(amount(2.0)));
    let tx1 = Transaction::new(TransactionType::Deposit, 0, 1, Some(amount(1.0)));

    client.deposit(&tx0);
    client.deposit(&tx1);

    let _tx2 = Transaction::new(TransactionType::Dispute, 0, 1, None);
    client.dispute(Some(&tx1));

    client.resolve(Some(&tx1));

    assert_eq!(client.available(), balance(2.0 + 1.0));
    assert_eq!(client.total(), balance(3.0));
    assert_eq!(client.held(), balance(1.0 - 1.0));
    assert_eq!(client.locked(), false);

    assert_eq!(client.available(), client.total() - client.held());
    assert_eq!(client.total(), client.available() + client.held());
    assert_eq!(client.held(), client.total() - client.available());
}

#[test]
fn unit_tests_chargeback() {
    let mut client = client::Client::new(0);

    let tx0 = Transaction::new(TransactionType::Deposit, 0, 0, Some(amount(2.0)));
    let tx1 = Transaction::new(TransactionType::Deposit, 0, 1, Some(amount(1.0)));

    client.deposit(&tx0);
    client.deposit(&tx1);

    let _tx2 = Transaction::new(TransactionType::Dispute, 0, 1, None);
    client.dispute(Some(&tx1));
    client.resolve(Some(&tx1));
    client.chargeback(Some(&tx1));

    assert_eq!(client.available(), balance(2.0 + 1.0));
    assert_eq!(client.total(), balance(3.0 - 1.0));
    assert_eq!(client.held(), balance(0.0 - 1.0));
    assert_eq!(client.locked(), true);

    assert_eq!(client.available(), client.total() - client.held());
    assert_eq!(client.total(), client.available() + client.held());
    assert_eq!(client.held(), client.total() - client.available());
}
