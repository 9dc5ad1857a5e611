use moss_street::accounts::Accounts;
use moss_street::errors::ErrorKind;
use moss_street::wallet::{UpdateIndicator, Wallet};

#[test]
fn test_wallet_add_and_subtract() {
    let mut w = Wallet::new("USD".to_string());
    assert_eq!(w.balance(), 0);
    w.add(70);
    assert_eq!(w.balance(), 70);
    assert!(w.subtract(20).is_ok());
    assert_eq!(w.balance(), 50);
}

#[test]
fn test_subtract_unchanged_iff_failed() {
    // A failing debit leaves the balance exactly as it was; a successful
    // one always changes it.
    let mut w = Wallet::with_balance("USD".to_string(), 10);
    assert_eq!(w.subtract(11), Err(ErrorKind::InsufficientFunds));
    assert_eq!(w.balance(), 10);
    assert!(w.subtract(10).is_ok());
    assert_eq!(w.balance(), 0);
    assert_eq!(w.subtract(1), Err(ErrorKind::InsufficientFunds));
    assert_eq!(w.balance(), 0);
}

#[test]
fn test_check_sufficient_funds() {
    let w = Wallet::with_balance("BTC".to_string(), 5);
    assert!(w.check_sufficient_funds(5));
    assert!(!w.check_sufficient_funds(6));
}

#[test]
fn test_update_balance_dispatch() {
    let mut w = Wallet::new("ETH".to_string());
    assert!(w.update_balance(UpdateIndicator::Add, 3).is_ok());
    assert_eq!(w.balance(), 3);
    assert!(w.update_balance(UpdateIndicator::Subtract, 2).is_ok());
    assert_eq!(w.balance(), 1);
    assert_eq!(
        w.update_balance(UpdateIndicator::Subtract, 2),
        Err(ErrorKind::InsufficientFunds)
    );
    assert_eq!(w.balance(), 1);
}

#[test]
fn test_accounts_registry() {
    let mut accounts = Accounts::new();
    assert!(accounts.add_user(1).is_ok());
    assert_eq!(accounts.add_user(1), Err(ErrorKind::AlreadyExists));

    assert_eq!(
        accounts.add_wallet(9, Wallet::new("USD".to_string())),
        Err(ErrorKind::NotFound)
    );
    assert!(accounts
        .add_wallet(1, Wallet::with_balance("USD".to_string(), 100))
        .is_ok());
    assert_eq!(
        accounts.add_wallet(1, Wallet::new("USD".to_string())),
        Err(ErrorKind::AlreadyExists)
    );

    assert_eq!(accounts.balance_of(1, &"USD".to_string()), Some(100));
    assert_eq!(accounts.balance_of(1, &"BTC".to_string()), None);
    assert!(accounts.has_wallet_for(1, &"USD".to_string()));

    accounts.credit(1, &"USD".to_string(), 50);
    assert_eq!(accounts.balance_of(1, &"USD".to_string()), Some(150));
    accounts.debit(1, &"USD".to_string(), 70);
    assert_eq!(accounts.balance_of(1, &"USD".to_string()), Some(80));
}
