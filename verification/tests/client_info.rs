use payment_engine::client_info::ClientInfo;
use payment_engine::client_info::ClientTransaction;
use payment_engine::client_info::TransactionError;
use payment_engine::currency::Currency;

#[test]
fn handle_deposit() {
    let amount = Currency::new(5000);
    let mut clinfo = ClientInfo::default();
    clinfo.deposit(amount, 1);
    assert_eq!(clinfo.available_funds(), amount);
    assert_eq!(clinfo.transfers()[0].amount(), amount);
    assert_eq!(clinfo.transfers()[0].tx(), 1);
}

#[test]
fn handle_withdraw() {
    let amount = Currency::new(5000);
    let amount2 = Currency::new(1000);
    let amount3 = Currency::new(4000);
    let mut clinfo = ClientInfo::default();
    clinfo.deposit(amount, 1);
    clinfo.withdraw(amount2, 2).unwrap();
    assert_eq!(clinfo.available_funds(), amount3);
    assert_eq!(clinfo.transfers()[1].amount(), -amount2);
    assert_eq!(clinfo.transfers()[1].tx(), 2);
}

#[test]
fn handle_withdraw_not_enough_money() {
    let amount = Currency::new(5000);
    let amount2 = Currency::new(6000);
    let mut clinfo = ClientInfo::default();
    clinfo.deposit(amount, 1);
    assert!(clinfo.withdraw(amount2, 2).is_err());
    assert_eq!(clinfo.available_funds(), amount);
    assert_eq!(clinfo.transfers().len(), 1);
}

#[test]
fn handle_dispute() {
    let amount = Currency::new(5000);
    let amount0 = Currency::new(0);
    let mut clinfo = ClientInfo::default();
    clinfo.deposit(amount, 1);
    clinfo.dispute(1).unwrap();
    assert_eq!(clinfo.available_funds(), amount0);
    assert_eq!(clinfo.held_funds(), amount);
    assert_eq!(clinfo.total_funds(), amount);
    assert_eq!(clinfo.disputes()[0].amount(), amount);
    assert_eq!(clinfo.disputes()[0].tx(), 1);
}

#[test]
fn handle_resolve() {
    let amount = Currency::new(5000);
    let amount0 = Currency::new(0);
    let mut clinfo = ClientInfo::default();
    clinfo.deposit(amount, 1);
    clinfo.dispute(1).unwrap();
    clinfo.resolve(1).unwrap();
    assert_eq!(clinfo.available_funds(), amount);
    assert_eq!(clinfo.held_funds(), amount0);
    assert_eq!(clinfo.total_funds(), amount);
}

#[test]
fn handle_chargeback() {
    let amount = Currency::new(5000);
    let amount0 = Currency::new(0);
    let mut clinfo = ClientInfo::default();
    clinfo.deposit(amount, 1);
    clinfo.dispute(1).unwrap();
    clinfo.chargeback(1).unwrap();
    assert_eq!(clinfo.available_funds(), amount0);
    assert_eq!(clinfo.held_funds(), amount0);
    assert_eq!(clinfo.total_funds(), amount0);
}

#[test]
fn new_account_is_empty() {
    let clinfo = ClientInfo::default();
    assert_eq!(clinfo.available_funds(), Currency::new(0));
    assert_eq!(clinfo.held_funds(), Currency::new(0));
    assert!(!clinfo.locked());
    assert!(!clinfo.has_transfers());
    assert!(clinfo.transfers().is_empty());
    assert!(clinfo.disputes().is_empty());
    assert_eq!(clinfo.to_string(), "0.0000, 0.0000, 0.0000, false");
}

#[test]
fn entry_keeps_what_it_was_given() {
    let e = ClientTransaction::new(Currency::new(-7), 42);
    assert_eq!(e.tx(), 42);
    assert_eq!(e.amount(), Currency::new(-7));
}

#[test]
fn withdraw_of_everything_is_refused() {
    let mut clinfo = ClientInfo::default();
    clinfo.deposit(Currency::new(5000), 1);
    assert_eq!(clinfo.withdraw(Currency::new(5000), 2), Err(TransactionError::Overdraw));
    assert_eq!(clinfo.available_funds(), Currency::new(5000));
    assert_eq!(clinfo.transfers().len(), 1);
    assert_eq!(clinfo.withdraw(Currency::new(4999), 3), Ok(()));
    assert_eq!(clinfo.available_funds(), Currency::new(1));
}

#[test]
fn books_agree_after_each_deposit_and_withdrawal() {
    let mut clinfo = ClientInfo::default();
    let steps: [(bool, i64); 6] =
        [(true, 10000), (false, 2500), (false, 9000), (true, 1), (false, 7500), (true, 33)];
    let mut tx = 0;
    for (deposit, amount) in steps {
        tx += 1;
        if deposit {
            clinfo.deposit(Currency::new(amount), tx);
        } else {
            let _ = clinfo.withdraw(Currency::new(amount), tx);
        }
        let mut sum = Currency::new(0);
        for e in clinfo.transfers() {
            sum += e.amount();
        }
        assert_eq!(clinfo.available_funds() + clinfo.held_funds(), sum);
        assert_eq!(clinfo.total_funds(), sum);
    }
    assert_eq!(clinfo.transfers().len(), 5);
    assert_eq!(clinfo.available_funds(), Currency::new(34));
}

#[test]
fn deposit_then_dispute_holds_everything() {
    let mut clinfo = ClientInfo::default();
    clinfo.deposit(Currency::new(123456), 9);
    let total = clinfo.total_funds();
    assert_eq!(clinfo.dispute(9), Ok(()));
    assert_eq!(clinfo.available_funds(), Currency::new(0));
    assert_eq!(clinfo.held_funds(), Currency::new(123456));
    assert_eq!(clinfo.total_funds(), total);
}

#[test]
fn dispute_then_resolve_restores_the_balances() {
    let mut clinfo = ClientInfo::default();
    clinfo.deposit(Currency::new(30000), 1);
    clinfo.deposit(Currency::new(20000), 2);
    clinfo.withdraw(Currency::new(45000), 3).unwrap();
    let before = clinfo.available_funds();
    clinfo.dispute(2).unwrap();
    assert_eq!(clinfo.available_funds(), Currency::new(-15000));
    assert_eq!(clinfo.held_funds(), Currency::new(20000));
    clinfo.resolve(2).unwrap();
    assert_eq!(clinfo.available_funds(), before);
    assert_eq!(clinfo.held_funds(), Currency::new(0));
    assert!(!clinfo.locked());
}

#[test]
fn dispute_then_chargeback_locks_and_empties_held() {
    let mut clinfo = ClientInfo::default();
    clinfo.deposit(Currency::new(30000), 1);
    clinfo.deposit(Currency::new(20000), 2);
    clinfo.dispute(1).unwrap();
    let available = clinfo.available_funds();
    clinfo.chargeback(1).unwrap();
    assert_eq!(clinfo.held_funds(), Currency::new(0));
    assert!(clinfo.locked());
    assert_eq!(clinfo.available_funds(), available);
    assert_eq!(clinfo.total_funds(), Currency::new(20000));
    assert_eq!(clinfo.to_string(), "2.0000, 0.0000, 2.0000, true");
}

#[test]
fn disputing_a_withdrawal_moves_its_negative_amount() {
    let mut clinfo = ClientInfo::default();
    clinfo.deposit(Currency::new(10000), 1);
    clinfo.withdraw(Currency::new(4000), 2).unwrap();
    clinfo.dispute(2).unwrap();
    assert_eq!(clinfo.available_funds(), Currency::new(10000));
    assert_eq!(clinfo.held_funds(), Currency::new(-4000));
    assert_eq!(clinfo.total_funds(), Currency::new(6000));
}

#[test]
fn unknown_transaction_changes_nothing() {
    let mut clinfo = ClientInfo::default();
    clinfo.deposit(Currency::new(10000), 1);
    assert_eq!(clinfo.dispute(7), Err(TransactionError::InvalidTxId));
    assert_eq!(clinfo.resolve(1), Err(TransactionError::InvalidTxId));
    assert_eq!(clinfo.chargeback(1), Err(TransactionError::InvalidTxId));
    assert_eq!(clinfo.available_funds(), Currency::new(10000));
    assert_eq!(clinfo.held_funds(), Currency::new(0));
    assert!(!clinfo.locked());
    assert!(clinfo.disputes().is_empty());
    assert_eq!(clinfo.transfers().len(), 1);
}

#[test]
fn first_entry_with_the_id_wins() {
    let mut clinfo = ClientInfo::default();
    clinfo.deposit(Currency::new(100), 5);
    clinfo.deposit(Currency::new(900), 5);
    clinfo.dispute(5).unwrap();
    assert_eq!(clinfo.held_funds(), Currency::new(100));
    assert_eq!(clinfo.available_funds(), Currency::new(900));
}

#[test]
fn settled_dispute_stays_on_record() {
    let mut clinfo = ClientInfo::default();
    clinfo.deposit(Currency::new(100), 1);
    clinfo.dispute(1).unwrap();
    clinfo.resolve(1).unwrap();
    assert_eq!(clinfo.disputes().len(), 1);
    assert_eq!(clinfo.resolve(1), Ok(()));
    assert_eq!(clinfo.available_funds(), Currency::new(200));
    assert_eq!(clinfo.held_funds(), Currency::new(-100));
}

#[test]
fn locked_account_still_works() {
    let mut clinfo = ClientInfo::default();
    clinfo.deposit(Currency::new(100), 1);
    clinfo.dispute(1).unwrap();
    clinfo.chargeback(1).unwrap();
    assert!(clinfo.locked());
    clinfo.deposit(Currency::new(50), 2);
    assert_eq!(clinfo.withdraw(Currency::new(20), 3), Ok(()));
    assert_eq!(clinfo.available_funds(), Currency::new(30));
}

#[test]
fn negative_amounts_are_taken_as_given() {
    let mut clinfo = ClientInfo::default();
    clinfo.deposit(Currency::new(-100), 1);
    assert_eq!(clinfo.available_funds(), Currency::new(-100));
    assert_eq!(clinfo.withdraw(Currency::new(-300), 2), Ok(()));
    assert_eq!(clinfo.available_funds(), Currency::new(200));
    assert_eq!(clinfo.transfers()[1].amount(), Currency::new(300));
}

#[test]
fn balances_saturate() {
    let mut clinfo = ClientInfo::default();
    clinfo.deposit(Currency::new(i64::MAX), 1);
    clinfo.deposit(Currency::new(1), 2);
    assert_eq!(clinfo.available_funds(), Currency::new(i64::MAX));
    clinfo.dispute(1).unwrap();
    clinfo.deposit(Currency::new(i64::MAX), 3);
    assert_eq!(clinfo.total_funds(), Currency::new(i64::MAX));
}
