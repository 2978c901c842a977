//! Reading one line of comma-separated input as a transaction record.
//!
//! A line is `type, client, tx, amount`. Fields are separated by commas and
//! trimmed of whitespace. Disputes, resolutions and chargebacks need no
//! amount, and whatever follows the fields a record needs is ignored.

use crate::currency::amount_of_text;
use crate::currency::Currency;
use crate::currency::ParseCurrencyError;
use crate::decimal::parse_unsigned;
use crate::decimal::unsigned_of_text;
use crate::text::chars_of;
use crate::text::find_char;
use crate::text::position_of;
use crate::text::spells;
use crate::text::trim;
use crate::text::trimmed;
use crate::transaction::ClientId;
use crate::transaction::Transaction;
use crate::transaction::TransactionView;
use crate::transaction::TxId;
use vstd::prelude::*;
use vstd::slice::slice_subrange;
use vstd::std_specs::convert::FromSpecImpl;

verus! {

/// `std::io::Error`, the error of the reader that fetched a line. It is
/// declared so that `ParseCSVError` can carry one; the library never looks
/// inside it and nothing is claimed of it.
#[verifier::external_type_specification]
#[verifier::external_body]
pub struct ExIoError(std::io::Error);

/// Why a line gave no record.
#[derive(Debug)]
pub enum ParseCSVError {
    /// The line could not be read at all.
    IoError(std::io::Error),
    /// The client or the transaction id is not an unsigned integer of its
    /// width.
    ParseIntError,
    /// The amount is not a decimal amount that fits.
    ParseCurrencyError(ParseCurrencyError),
    /// The record type is unknown, or the line has too few fields for it.
    UnknownRecord,
}

impl FromSpecImpl<std::io::Error> for ParseCSVError {
    open spec fn obeys_from_spec() -> bool {
        true
    }

    open spec fn from_spec(error: std::io::Error) -> ParseCSVError {
        ParseCSVError::IoError(error)
    }
}

impl From<std::io::Error> for ParseCSVError {
    /// The line could not be read.
    fn from(error: std::io::Error) -> (e: ParseCSVError) {
        ParseCSVError::IoError(error)
    }
}

impl FromSpecImpl<ParseCurrencyError> for ParseCSVError {
    open spec fn obeys_from_spec() -> bool {
        true
    }

    open spec fn from_spec(error: ParseCurrencyError) -> ParseCSVError {
        ParseCSVError::ParseCurrencyError(error)
    }
}

impl From<ParseCurrencyError> for ParseCSVError {
    /// The amount could not be read.
    fn from(error: ParseCurrencyError) -> (e: ParseCSVError) {
        ParseCSVError::ParseCurrencyError(error)
    }
}

/// The `k`-th comma-separated field of `line`, counted from 0 and trimmed;
/// `None` when the line has fewer fields.
pub open spec fn field(line: Seq<char>, k: nat) -> Option<Seq<char>>
    decreases k,
{
    let comma = position_of(line, ',');
    if k == 0 {
        Some(trimmed(line.take(comma)))
    } else if comma < line.len() {
        field(line.skip(comma + 1), (k - 1) as nat)
    } else {
        None
    }
}

/// The record type `word` takes an amount.
pub open spec fn moves_funds(word: Seq<char>) -> bool {
    word == "withdrawal"@ || word == "deposit"@
}

/// The record type `word` refers to an earlier transaction.
pub open spec fn settles(word: Seq<char>) -> bool {
    word == "dispute"@ || word == "resolve"@ || word == "chargeback"@
}

/// The client and transaction ids written by two fields, or `None` when
/// either is not an unsigned integer of its width.
pub open spec fn ids_of_text(client: Seq<char>, tx: Seq<char>) -> Option<(ClientId, TxId)> {
    match (unsigned_of_text(client, u16::MAX as int), unsigned_of_text(tx, u32::MAX as int)) {
        (Some(c), Some(t)) => Some((c as ClientId, t as TxId)),
        _ => None,
    }
}

/// The record with the given type, ids and amount. `word` is one of the
/// five record types.
pub open spec fn record(word: Seq<char>, client: ClientId, tx: TxId, amount: i64)
    -> TransactionView {
    if word == "withdrawal"@ {
        TransactionView::Withdraw { client, tx, amount }
    } else if word == "deposit"@ {
        TransactionView::Deposit { client, tx, amount }
    } else if word == "dispute"@ {
        TransactionView::Dispute { client, tx }
    } else if word == "resolve"@ {
        TransactionView::Resolve { client, tx }
    } else {
        TransactionView::Chargeback { client, tx }
    }
}

/// What a line says.
///
/// The first field names the record type. A line whose type is unknown, or
/// that lacks a field its type needs (client and transaction id always, the
/// amount for deposits and withdrawals), is an unknown record. Otherwise the
/// fields are read in order, and the first that cannot be read decides the
/// error.
pub open spec fn record_of_line(line: Seq<char>) -> Result<TransactionView, ParseCSVError> {
    let word = field(line, 0).unwrap();
    let client = field(line, 1);
    let tx = field(line, 2);
    let amount = field(line, 3);
    if !(moves_funds(word) || settles(word)) || client is None || tx is None || (moves_funds(word)
        && amount is None) {
        Err(ParseCSVError::UnknownRecord)
    } else {
        match ids_of_text(client.unwrap(), tx.unwrap()) {
            None => Err(ParseCSVError::ParseIntError),
            Some((c, t)) => if settles(word) {
                Ok(record(word, c, t, 0))
            } else {
                match amount_of_text(amount.unwrap()) {
                    None => Err(ParseCSVError::ParseCurrencyError(ParseCurrencyError)),
                    Some(a) => Ok(record(word, c, t, a)),
                }
            },
        }
    }
}

/// The five record types are five different words.
pub proof fn lemma_record_types_differ()
    ensures
        "withdrawal"@ != "deposit"@,
        "withdrawal"@ != "dispute"@,
        "withdrawal"@ != "resolve"@,
        "withdrawal"@ != "chargeback"@,
        "deposit"@ != "dispute"@,
        "deposit"@ != "resolve"@,
        "deposit"@ != "chargeback"@,
        "dispute"@ != "resolve"@,
        "dispute"@ != "chargeback"@,
        "resolve"@ != "chargeback"@,
{
    reveal_strlit("withdrawal");
    reveal_strlit("deposit");
    reveal_strlit("dispute");
    reveal_strlit("resolve");
    reveal_strlit("chargeback");
    assert("withdrawal"@[0] == 'w');
    assert("deposit"@[0] == 'd' && "deposit"@[1] == 'e');
    assert("dispute"@[0] == 'd' && "dispute"@[1] == 'i');
    assert("resolve"@[0] == 'r');
    assert("chargeback"@[0] == 'c');
}

/// Which of the five record types a field names.
enum Kind {
    Withdrawal,
    Deposit,
    Dispute,
    Resolve,
    Chargeback,
}

/// The record type `word` names, if any.
fn kind_of(word: &[char]) -> (k: Option<Kind>)
    ensures
        k is Some <==> moves_funds(word@) || settles(word@),
        match k {
            Some(Kind::Withdrawal) => word@ == "withdrawal"@,
            Some(Kind::Deposit) => word@ == "deposit"@,
            Some(Kind::Dispute) => word@ == "dispute"@,
            Some(Kind::Resolve) => word@ == "resolve"@,
            Some(Kind::Chargeback) => word@ == "chargeback"@,
            None => true,
        },
{
    if spells(word, "withdrawal") {
        Some(Kind::Withdrawal)
    } else if spells(word, "deposit") {
        Some(Kind::Deposit)
    } else if spells(word, "dispute") {
        Some(Kind::Dispute)
    } else if spells(word, "resolve") {
        Some(Kind::Resolve)
    } else if spells(word, "chargeback") {
        Some(Kind::Chargeback)
    } else {
        None
    }
}

/// Splits `line` at its first comma: the trimmed first field, and what
/// follows the comma, if there is one.
fn split_field(line: &[char]) -> (r: (&[char], Option<&[char]>))
    ensures
        r.0@ == trimmed(line@.take(position_of(line@, ','))),
        match r.1 {
            Some(rest) => position_of(line@, ',') < line@.len() && rest@ == line@.skip(
                position_of(line@, ',') + 1,
            ),
            None => position_of(line@, ',') >= line@.len(),
        },
{
    let n = line.len();
    let comma = find_char(line, ',');
    let first = trim(slice_subrange(line, 0, comma));
    assert(line@.subrange(0, comma as int) =~= line@.take(comma as int));
    if comma < n {
        assert(line@.subrange(comma + 1, n as int) =~= line@.skip(comma + 1));
        (first, Some(slice_subrange(line, comma + 1, n)))
    } else {
        (first, None)
    }
}

/// Reads the client and transaction ids from their fields.
fn parse_ids(client: &[char], tx: &[char]) -> (r: Option<(ClientId, TxId)>)
    ensures
        r == ids_of_text(client@, tx@),
{
    let c = match parse_unsigned(client, 65535) {
        Some(c) => c,
        None => {
            return None;
        },
    };
    let t = match parse_unsigned(tx, 4294967295) {
        Some(t) => t,
        None => {
            return None;
        },
    };
    Some((c as ClientId, t as TxId))
}

/// Reads one line of input as a record.
pub fn parse_record(line: &str) -> (r: Result<Transaction, ParseCSVError>)
    ensures
        match record_of_line(line@) {
            Ok(t) => r matches Ok(x) && x@ == t,
            Err(e) => r matches Err(x) && x == e,
        },
{
    let chars = chars_of(line);
    proof {
        reveal_with_fuel(field, 4);
        lemma_record_types_differ();
    }
    let (word, rest) = split_field(chars.as_slice());
    let kind = match kind_of(word) {
        Some(kind) => kind,
        None => {
            return Err(ParseCSVError::UnknownRecord);
        },
    };
    let rest = match rest {
        Some(rest) => rest,
        None => {
            return Err(ParseCSVError::UnknownRecord);
        },
    };
    let (client, rest) = split_field(rest);
    let rest = match rest {
        Some(rest) => rest,
        None => {
            return Err(ParseCSVError::UnknownRecord);
        },
    };
    let (tx, rest) = split_field(rest);
    match kind {
        Kind::Dispute | Kind::Resolve | Kind::Chargeback => {
            let (client, tx) = match parse_ids(client, tx) {
                Some(ids) => ids,
                None => {
                    return Err(ParseCSVError::ParseIntError);
                },
            };
            match kind {
                Kind::Dispute => Ok(Transaction::Dispute { client, tx }),
                Kind::Resolve => Ok(Transaction::Resolve { client, tx }),
                _ => Ok(Transaction::Chargeback { client, tx }),
            }
        },
        Kind::Withdrawal | Kind::Deposit => {
            let rest = match rest {
                Some(rest) => rest,
                None => {
                    return Err(ParseCSVError::UnknownRecord);
                },
            };
            let (amount, _) = split_field(rest);
            let (client, tx) = match parse_ids(client, tx) {
                Some(ids) => ids,
                None => {
                    return Err(ParseCSVError::ParseIntError);
                },
            };
            let amount = match Currency::parse(amount) {
                Ok(amount) => amount,
                Err(_) => {
                    return Err(ParseCSVError::from(ParseCurrencyError));
                },
            };
            match kind {
                Kind::Withdrawal => Ok(Transaction::Withdraw { client, tx, amount }),
                _ => Ok(Transaction::Deposit { client, tx, amount }),
            }
        },
    }
}

/// Reads one line of input as a record, or hands on the error of the reader
/// that failed to fetch the line.
pub fn parse_line(line: std::io::Result<String>) -> (r: Result<Transaction, ParseCSVError>)
    ensures
        match line {
            Ok(text) => match record_of_line(text@) {
                Ok(t) => r matches Ok(x) && x@ == t,
                Err(e) => r matches Err(x) && x == e,
            },
            Err(e) => r matches Err(ParseCSVError::IoError(x)) && x == e,
        },
{
    match line {
        Ok(text) => parse_record(text.as_str()),
        Err(e) => Err(ParseCSVError::from(e)),
    }
}

} // verus!
