//! A ledger of client accounts fed by a stream of transaction records:
//! deposits, withdrawals, and the disputes, resolutions and chargebacks that
//! refer back to them.
//!
//! `currency` holds the fixed-point money type, `client_info` one client's
//! account with its rules, `payment_engine` the table of all accounts,
//! `transaction` the records, and `csv_parser` the reading of a record from
//! a line of text. `decimal` and `text` are the character-level helpers the
//! readers and writers share.

pub mod client_info;
pub mod csv_parser;
pub mod currency;
pub mod decimal;
pub mod payment_engine;
pub mod text;
pub mod transaction;
