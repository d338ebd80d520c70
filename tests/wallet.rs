use orderbook::wallet::Wallet;

#[test]
fn create_sets_balance_and_hex_id() {
    let w = Wallet::create(100);
    assert_eq!(w.balance(), 100);
    let info = w.info();
    let rest = info.strip_prefix("Wallet [wallet_").unwrap();
    let hex = rest.strip_suffix("] Balance: 100 ETH").unwrap();
    assert!(!hex.is_empty() && hex.len() <= 16);
    assert!(hex.chars().all(|c| c.is_ascii_digit() || ('a'..='f').contains(&c)));
    assert!(hex == "0" || !hex.starts_with('0'));
}

#[test]
fn send_within_balance() {
    let mut w = Wallet::create(100);
    assert_eq!(w.send(30), Ok(()));
    assert_eq!(w.balance(), 70);
    assert_eq!(w.send(70), Ok(()));
    assert_eq!(w.balance(), 0);
}

#[test]
fn send_beyond_balance_fails() {
    let mut w = Wallet::create(10);
    assert_eq!(w.send(11), Err("Insufficient balance".to_string()));
    assert_eq!(w.balance(), 10);
}

#[test]
fn transfer_moves_amount() {
    let mut w1 = Wallet::create(70);
    let mut w2 = Wallet::create(50);
    assert_eq!(w1.transfer(&mut w2, 20), Ok(()));
    assert_eq!(w1.balance(), 50);
    assert_eq!(w2.balance(), 70);
}

#[test]
fn transfer_beyond_balance_changes_nothing() {
    let mut w1 = Wallet::create(5);
    let mut w2 = Wallet::create(50);
    assert_eq!(w1.transfer(&mut w2, 6), Err("Insufficient balance".to_string()));
    assert_eq!(w1.balance(), 5);
    assert_eq!(w2.balance(), 50);
}

#[test]
fn total_balance_sums_all() {
    let wallets = vec![Wallet::create(50), Wallet::create(70), Wallet::create(75)];
    assert_eq!(Wallet::total_balance(&wallets), 195);
    assert_eq!(Wallet::total_balance(&[]), 0);
}

#[test]
fn info_prints_decimal_balance() {
    let w = Wallet::create(1234567);
    let info = w.info();
    assert!(info.starts_with("Wallet [wallet_"));
    assert!(info.ends_with("] Balance: 1234567 ETH"));
    let zero = Wallet::create(0).info();
    assert!(zero.ends_with("] Balance: 0 ETH"));
}
