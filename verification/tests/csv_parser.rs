use payment_engine::csv_parser::parse_line;
use payment_engine::csv_parser::parse_record;
use payment_engine::csv_parser::ParseCSVError;
use payment_engine::currency::Currency;
use payment_engine::transaction::Transaction;

fn error_name(e: &ParseCSVError) -> &'static str {
    match e {
        ParseCSVError::IoError(_) => "io",
        ParseCSVError::ParseIntError => "int",
        ParseCSVError::ParseCurrencyError(_) => "currency",
        ParseCSVError::UnknownRecord => "unknown",
    }
}

fn parsed(line: &str) -> Result<Transaction, &'static str> {
    parse_record(line).map_err(|e| error_name(&e))
}

#[test]
fn parses_each_record_type() {
    assert_eq!(
        parsed("deposit, 1, 2, 3.5"),
        Ok(Transaction::Deposit { client: 1, tx: 2, amount: Currency::new(35000) })
    );
    assert_eq!(
        parsed("withdrawal,65535,4294967295,-0.0001"),
        Ok(Transaction::Withdraw { client: 65535, tx: 4294967295, amount: Currency::new(-1) })
    );
    assert_eq!(parsed("dispute, 7, 8"), Ok(Transaction::Dispute { client: 7, tx: 8 }));
    assert_eq!(parsed("resolve, 7, 8,"), Ok(Transaction::Resolve { client: 7, tx: 8 }));
    assert_eq!(parsed("chargeback,7,8,junk,more"), Ok(Transaction::Chargeback { client: 7, tx: 8 }));
}

#[test]
fn trims_whitespace_around_fields() {
    assert_eq!(
        parsed(" \tdeposit\u{a0},\u{2003}+1 ,  002\t, 1.5 \r"),
        Ok(Transaction::Deposit { client: 1, tx: 2, amount: Currency::new(15000) })
    );
    assert_eq!(parsed("deposit, 1 2, 3, 1.5"), Err("int"));
}

#[test]
fn ignores_fields_after_the_amount() {
    assert_eq!(
        parsed("deposit,1,2,3,4,5"),
        Ok(Transaction::Deposit { client: 1, tx: 2, amount: Currency::new(30000) })
    );
}

#[test]
fn unknown_records() {
    for line in ["", "deposit", "deposit,1", "deposit,1,2", "withdrawal,1,2", "dispute,1", "refund,1,2,3", "Deposit,1,2,3", ",1,2,3", "deposit 1,2,3,4.0,"] {
        assert_eq!(parsed(line), Err("unknown"), "{:?}", line);
    }
}

#[test]
fn bad_integers() {
    for line in ["deposit,x,2,3", "deposit,1,,3", "deposit,-1,2,3", "deposit,65536,2,3", "deposit,1,4294967296,3", "dispute,1,2.0", "dispute,+,2", "resolve,1,0x10", "deposit,x,2,y"] {
        assert_eq!(parsed(line), Err("int"), "{:?}", line);
    }
}

#[test]
fn bad_amounts() {
    for line in ["deposit,1,2,", "deposit,1,2,abc", "deposit,1,2,1.00000", "withdrawal,1,2,1.2.3", "deposit,1,2,922337203685477.5808"] {
        assert_eq!(parsed(line), Err("currency"), "{:?}", line);
    }
    assert_eq!(
        parsed("deposit,1,2,922337203685477.5807"),
        Ok(Transaction::Deposit { client: 1, tx: 2, amount: Currency::new(i64::MAX) })
    );
}

#[test]
fn integers_are_read_as_std_reads_them() {
    for text in ["0", "7", "+7", "007", "65535", "65536", "99999999999999999999", "", "+", "-", "-0", "+-1", "1_0", " 1", "1 ", "٣", "0000000000000000000000065535"] {
        let line = format!("dispute,{},{}", text, text);
        let expected = match (text.parse::<u16>(), text.parse::<u32>()) {
            (Ok(client), Ok(tx)) => Ok(Transaction::Dispute { client, tx }),
            _ => Err("int"),
        };
        if text.trim() == text {
            assert_eq!(parsed(&line), expected, "{:?}", text);
        }
    }
}

#[test]
fn parse_line_hands_on_reader_errors() {
    let failed = std::io::Error::new(std::io::ErrorKind::UnexpectedEof, "cut short");
    match parse_line(Err(failed)) {
        Err(ParseCSVError::IoError(e)) => assert_eq!(e.kind(), std::io::ErrorKind::UnexpectedEof),
        other => panic!("{:?}", other),
    }
    assert_eq!(
        parse_line(Ok(String::from("deposit,1,1,1.0"))).map_err(|e| error_name(&e)),
        Ok(Transaction::Deposit { client: 1, tx: 1, amount: Currency::new(10000) })
    );
    assert_eq!(parse_line(Ok(String::from("nonsense"))).map_err(|e| error_name(&e)), Err("unknown"));
}

#[test]
fn errors_convert_into_parse_errors() {
    let failed = std::io::Error::new(std::io::ErrorKind::NotFound, "gone");
    assert_eq!(error_name(&ParseCSVError::from(failed)), "io");
    let amount = payment_engine::currency::ParseCurrencyError;
    assert_eq!(error_name(&ParseCSVError::from(amount)), "currency");
}
