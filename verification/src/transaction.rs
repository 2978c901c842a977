//! The records the ledger is fed, one per line of input.

use crate::currency::Currency;
use vstd::prelude::*;

verus! {

/// Names a client. Every 16-bit value is a valid client.
pub type ClientId = u16;

/// Names a deposit or a withdrawal; disputes, resolutions and chargebacks
/// refer to one by this id.
pub type TxId = u32;

/// One record of the input: what to do, for which client, about which
/// transaction.
#[derive(Clone, Copy, Debug, PartialEq, Eq)]
pub enum Transaction {
    /// Take `amount` out of the client's available funds.
    Withdraw { client: ClientId, tx: TxId, amount: Currency },
    /// Put `amount` into the client's available funds.
    Deposit { client: ClientId, tx: TxId, amount: Currency },
    /// Contest the earlier deposit or withdrawal `tx`.
    Dispute { client: ClientId, tx: TxId },
    /// Settle the dispute about `tx` in the client's favour.
    Resolve { client: ClientId, tx: TxId },
    /// Settle the dispute about `tx` against the client.
    Chargeback { client: ClientId, tx: TxId },
}

/// A record as contracts see it: amounts are counts of ten-thousandths.
pub enum TransactionView {
    Withdraw { client: ClientId, tx: TxId, amount: i64 },
    Deposit { client: ClientId, tx: TxId, amount: i64 },
    Dispute { client: ClientId, tx: TxId },
    Resolve { client: ClientId, tx: TxId },
    Chargeback { client: ClientId, tx: TxId },
}

impl TransactionView {
    /// The client the record is about.
    pub open spec fn client(self) -> ClientId {
        match self {
            TransactionView::Withdraw { client, .. } => client,
            TransactionView::Deposit { client, .. } => client,
            TransactionView::Dispute { client, .. } => client,
            TransactionView::Resolve { client, .. } => client,
            TransactionView::Chargeback { client, .. } => client,
        }
    }
}

impl View for Transaction {
    type V = TransactionView;

    open spec fn view(&self) -> TransactionView {
        match *self {
            Transaction::Withdraw { client, tx, amount } => TransactionView::Withdraw {
                client,
                tx,
                amount: amount@,
            },
            Transaction::Deposit { client, tx, amount } => TransactionView::Deposit {
                client,
                tx,
                amount: amount@,
            },
            Transaction::Dispute { client, tx } => TransactionView::Dispute { client, tx },
            Transaction::Resolve { client, tx } => TransactionView::Resolve { client, tx },
            Transaction::Chargeback { client, tx } => TransactionView::Chargeback { client, tx },
        }
    }
}

} // verus!
