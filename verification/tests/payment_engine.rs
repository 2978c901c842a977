use payment_engine::client_info::TransactionError;
use payment_engine::csv_parser::parse_record;
use payment_engine::currency::Currency;
use payment_engine::payment_engine::ClientTable;
use payment_engine::transaction::Transaction;
use std::str::FromStr;

fn amount(text: &str) -> Currency {
    Currency::from_str(text).unwrap()
}

#[test]
fn new_table_is_empty() {
    let table = ClientTable::new();
    assert_eq!(table.to_string(), "client, available, held, total, locked\n");
    for client in [0u16, 1, 65534, 65535] {
        assert!(!table.client(client).has_transfers());
        assert_eq!(table.client(client).total_funds(), Currency::new(0));
    }
}

#[test]
fn deposit_withdraw_dispute_resolve_scenario() {
    let mut table = ClientTable::new();
    assert_eq!(
        table.handle_transaction(Transaction::Deposit { client: 1, tx: 1, amount: amount("1.0000") }),
        Ok(())
    );
    assert_eq!(
        table.handle_transaction(Transaction::Withdraw { client: 1, tx: 2, amount: amount("0.5000") }),
        Ok(())
    );
    assert_eq!(table.client(1).available_funds().to_string(), "0.5000");
    assert_eq!(
        table.handle_transaction(Transaction::Withdraw { client: 1, tx: 3, amount: amount("0.5000") }),
        Err(TransactionError::Overdraw)
    );
    assert_eq!(table.client(1).available_funds().to_string(), "0.5000");
    assert_eq!(table.handle_transaction(Transaction::Dispute { client: 1, tx: 1 }), Ok(()));
    assert_eq!(table.client(1).available_funds().to_string(), "-0.5000");
    assert_eq!(table.client(1).held_funds().to_string(), "1.0000");
    assert_eq!(table.handle_transaction(Transaction::Resolve { client: 1, tx: 1 }), Ok(()));
    assert_eq!(table.client(1).available_funds().to_string(), "0.5000");
    assert_eq!(table.client(1).held_funds().to_string(), "0.0000");
}

#[test]
fn records_reach_only_their_client() {
    let mut table = ClientTable::new();
    table.handle_transaction(Transaction::Deposit { client: 65535, tx: 1, amount: Currency::new(70000) }).unwrap();
    table.handle_transaction(Transaction::Deposit { client: 0, tx: 2, amount: Currency::new(15000) }).unwrap();
    assert_eq!(
        table.handle_transaction(Transaction::Dispute { client: 0, tx: 1 }),
        Err(TransactionError::InvalidTxId)
    );
    assert_eq!(
        table.handle_transaction(Transaction::Chargeback { client: 3, tx: 1 }),
        Err(TransactionError::InvalidTxId)
    );
    table.handle_transaction(Transaction::Dispute { client: 65535, tx: 1 }).unwrap();
    table.handle_transaction(Transaction::Chargeback { client: 65535, tx: 1 }).unwrap();
    assert_eq!(table.client(0).available_funds(), Currency::new(15000));
    assert!(!table.client(0).locked());
    assert!(table.client(65535).locked());
    assert!(!table.client(3).has_transfers());
    assert_eq!(
        table.to_string(),
        "client, available, held, total, locked\n0, 1.5000, 0.0000, 1.5000, false\n65535, 0.0000, 0.0000, 0.0000, true\n"
    );
}

#[test]
fn lines_in_ledger_out() {
    let input = "deposit, 1, 1, 1.0\ndeposit, 2, 2, 2.0\ndeposit, 1, 3, 2.0\nwithdrawal, 1, 4, 1.5\nwithdrawal, 2, 5, 3.0\ndispute, 2, 2\n";
    let mut table = ClientTable::new();
    for line in input.lines() {
        let _ = table.handle_transaction(parse_record(line).unwrap());
    }
    assert_eq!(
        table.to_string(),
        "client, available, held, total, locked\n1, 1.5000, 0.0000, 1.5000, false\n2, 0.0000, 2.0000, 2.0000, false\n"
    );
}
