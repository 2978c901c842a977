//! One client's account: balances, the record of accepted deposits and
//! withdrawals, and the disputes raised against them.
//!
//! Decisions this module takes:
//! - A dispute stays on record after it is resolved or charged back. A
//!   second resolution or chargeback of the same transaction finds it again
//!   and is applied again.
//! - A locked account is not closed: `locked` reports that a chargeback
//!   happened, and every operation goes on working as before.
//! - Amounts are taken as given. A negative deposit lowers the available
//!   funds, and a negative withdrawal raises them.
//! - Sums stop at the ends of the 64-bit range instead of wrapping.
//!
//! Lookups scan in insertion order and take the first entry with the id, so
//! disputes cost time in proportion to the history; deposits and
//! withdrawals, which are far more frequent, cost a push.

use crate::currency::amount_text;
use crate::currency::clamp;
use crate::currency::Currency;
use crate::transaction::TransactionView;
use crate::transaction::TxId;
use std::ops::AddAssign;
use std::ops::Neg;
use std::ops::SubAssign;
use vstd::prelude::*;

verus! {

/// Why an operation on an account was refused. A refused operation leaves
/// the account as it was.
#[derive(Clone, Copy, Debug, PartialEq, Eq)]
pub enum TransactionError {
    /// Insufficient funds: the withdrawal asks for as much as is available,
    /// or more.
    Overdraw,
    /// Unknown transaction: no entry with that id where the operation looks
    /// for one.
    InvalidTxId,
}

/// An entry of an account's records: a transaction id and the signed amount
/// recorded under it.
#[derive(Clone, Copy, Debug)]
pub struct ClientTransaction {
    tx: TxId,
    amount: Currency,
}

/// An entry as contracts see it. `amount` counts ten-thousandths: positive
/// for a deposit, negative for a withdrawal.
pub struct Entry {
    pub tx: TxId,
    pub amount: i64,
}

impl View for ClientTransaction {
    type V = Entry;

    closed spec fn view(&self) -> Entry {
        Entry { tx: self.tx, amount: self.amount@ }
    }
}

impl ClientTransaction {
    /// The entry that records `amount` under `tx`.
    pub fn new(amount: Currency, tx: TxId) -> (e: Self)
        ensures
            e@ == (Entry { tx, amount: amount@ }),
    {
        Self { tx, amount }
    }

    /// The id the entry is recorded under.
    pub fn tx(&self) -> (tx: TxId)
        ensures
            tx == self@.tx,
    {
        self.tx
    }

    /// The signed amount of the entry.
    pub fn amount(&self) -> (amount: Currency)
        ensures
            amount@ == self@.amount,
    {
        self.amount
    }
}

/// The entries of a record as contracts see them, in the same order.
pub open spec fn entries(record: Seq<ClientTransaction>) -> Seq<Entry> {
    record.map_values(|e: ClientTransaction| e@)
}

/// The first entry recorded under `tx`, in insertion order.
pub open spec fn first_with(record: Seq<Entry>, tx: TxId) -> Option<Entry>
    decreases record.len(),
{
    if record.len() == 0 {
        None
    } else if record[0].tx == tx {
        Some(record[0])
    } else {
        first_with(record.skip(1), tx)
    }
}

/// The sum of the signed amounts of a record.
pub open spec fn sum_of(record: Seq<Entry>) -> int
    decreases record.len(),
{
    if record.len() == 0 {
        0
    } else {
        sum_of(record.drop_last()) + record.last().amount
    }
}

/// An account as contracts see it.
pub struct Account {
    /// Funds the client may withdraw or put under dispute.
    pub available: i64,
    /// Funds frozen by open disputes.
    pub held: i64,
    /// A chargeback has happened.
    pub locked: bool,
    /// Every accepted deposit and withdrawal, oldest first. Only ever grows.
    pub history: Seq<Entry>,
    /// Every dispute raised, oldest first.
    pub open_disputes: Seq<Entry>,
}

impl Account {
    /// The account of a client nothing has happened to.
    pub open spec fn empty() -> Account {
        Account {
            available: 0,
            held: 0,
            locked: false,
            history: Seq::empty(),
            open_disputes: Seq::empty(),
        }
    }

    /// Available and held funds together.
    pub open spec fn total(self) -> i64 {
        clamp(self.available + self.held)
    }

    /// The account after a deposit of `amount` under `tx`.
    pub open spec fn deposit(self, amount: i64, tx: TxId) -> Account {
        Account {
            available: clamp(self.available + amount),
            history: self.history.push(Entry { tx, amount }),
            ..self
        }
    }

    /// More is available than `amount`. Exactly `amount` is not enough.
    pub open spec fn covers(self, amount: i64) -> bool {
        self.available > amount
    }

    /// The account after a withdrawal of `amount` under `tx` was asked for:
    /// unchanged unless the funds cover it.
    pub open spec fn withdraw(self, amount: i64, tx: TxId) -> Account {
        if self.covers(amount) {
            Account {
                available: clamp(self.available - amount),
                history: self.history.push(Entry { tx, amount: clamp(-amount) }),
                ..self
            }
        } else {
            self
        }
    }

    /// The account after a dispute of `tx` was asked for: unchanged unless
    /// the history holds `tx`; else the amount first recorded under `tx`
    /// moves from available to held, and the entry joins the disputes.
    pub open spec fn dispute(self, tx: TxId) -> Account {
        match first_with(self.history, tx) {
            Some(e) => Account {
                available: clamp(self.available - e.amount),
                held: clamp(self.held + e.amount),
                open_disputes: self.open_disputes.push(e),
                ..self
            },
            None => self,
        }
    }

    /// The account after a resolution of `tx` was asked for: unchanged
    /// unless `tx` is under dispute; else the disputed amount moves back
    /// from held to available.
    pub open spec fn resolve(self, tx: TxId) -> Account {
        match first_with(self.open_disputes, tx) {
            Some(e) => Account {
                available: clamp(self.available + e.amount),
                held: clamp(self.held - e.amount),
                ..self
            },
            None => self,
        }
    }

    /// The account after a chargeback of `tx` was asked for: unchanged
    /// unless `tx` is under dispute; else the disputed amount leaves the
    /// held funds and the account is locked.
    pub open spec fn chargeback(self, tx: TxId) -> Account {
        match first_with(self.open_disputes, tx) {
            Some(e) => Account { held: clamp(self.held - e.amount), locked: true, ..self },
            None => self,
        }
    }

    /// The account after the record `t` was handled.
    pub open spec fn apply(self, t: TransactionView) -> Account {
        match t {
            TransactionView::Withdraw { tx, amount, .. } => self.withdraw(amount, tx),
            TransactionView::Deposit { tx, amount, .. } => self.deposit(amount, tx),
            TransactionView::Dispute { tx, .. } => self.dispute(tx),
            TransactionView::Resolve { tx, .. } => self.resolve(tx),
            TransactionView::Chargeback { tx, .. } => self.chargeback(tx),
        }
    }

    /// Whether the record `t` is accepted, and why not.
    pub open spec fn outcome(self, t: TransactionView) -> Result<(), TransactionError> {
        match t {
            TransactionView::Withdraw { amount, .. } => if self.covers(amount) {
                Ok(())
            } else {
                Err(TransactionError::Overdraw)
            },
            TransactionView::Deposit { .. } => Ok(()),
            TransactionView::Dispute { tx, .. } => if first_with(self.history, tx) is Some {
                Ok(())
            } else {
                Err(TransactionError::InvalidTxId)
            },
            TransactionView::Resolve { tx, .. } | TransactionView::Chargeback { tx, .. } => if first_with(
                self.open_disputes,
                tx,
            ) is Some {
                Ok(())
            } else {
                Err(TransactionError::InvalidTxId)
            },
        }
    }

    /// The account after the records `steps` were handled in order.
    pub open spec fn run(self, steps: Seq<TransactionView>) -> Account
        decreases steps.len(),
    {
        if steps.len() == 0 {
            self
        } else {
            self.run(steps.drop_last()).apply(steps.last())
        }
    }

    /// Every dispute on record carries the entry first recorded under its
    /// id in the history. Holds of the empty account, and every operation
    /// keeps it.
    pub open spec fn wf(self) -> bool {
        forall|i: int|
            0 <= i < self.open_disputes.len() ==> first_with(
                self.history,
                (#[trigger] self.open_disputes[i]).tx,
            ) == Some(self.open_disputes[i])
    }

    /// The books agree: available and held funds together are the sum of
    /// the history.
    pub open spec fn balanced(self) -> bool {
        self.available + self.held == sum_of(self.history)
    }

    /// Handling `t` changes the funds by exactly what it adds to the
    /// history. `lemma_exact_in_range` says when that is: in short, unless
    /// a sum leaves the 64-bit range or a chargeback takes funds away.
    pub open spec fn exact(self, t: TransactionView) -> bool {
        let next = self.apply(t);
        next.available + next.held - (self.available + self.held) == sum_of(next.history) - sum_of(
            self.history,
        )
    }
}

/// The first entry under `tx` is the one at `i` when `i` holds `tx` and
/// nothing before it does.
pub proof fn lemma_first_with_at(record: Seq<Entry>, tx: TxId, i: int)
    requires
        0 <= i < record.len(),
        record[i].tx == tx,
        forall|j: int| 0 <= j < i ==> record[j].tx != tx,
    ensures
        first_with(record, tx) == Some(record[i]),
    decreases i,
{
    if i > 0 {
        let rest = record.skip(1);
        assert forall|j: int| 0 <= j < i - 1 implies rest[j].tx != tx by {
            assert(rest[j] == record[j + 1]);
        }
        lemma_first_with_at(rest, tx, i - 1);
    }
}

/// There is no entry under `tx` exactly when no index holds `tx`.
pub proof fn lemma_first_with_none(record: Seq<Entry>, tx: TxId)
    ensures
        first_with(record, tx) is None <==> forall|j: int|
            0 <= j < record.len() ==> record[j].tx != tx,
        first_with(record, tx) matches Some(e) ==> e.tx == tx,
    decreases record.len(),
{
    if record.len() > 0 {
        let rest = record.skip(1);
        lemma_first_with_none(rest, tx);
        if record[0].tx != tx {
            if first_with(rest, tx) is None {
                assert forall|j: int| 0 <= j < record.len() implies record[j].tx != tx by {
                    if j > 0 {
                        assert(rest[j - 1] == record[j]);
                    }
                }
            } else {
                let j = choose|j: int| 0 <= j < rest.len() && rest[j].tx == tx;
                assert(record[j + 1] == rest[j]);
            }
        }
    }
}

/// A new entry at the end is found only where nothing was found before.
pub proof fn lemma_first_with_push(record: Seq<Entry>, e: Entry, tx: TxId)
    ensures
        first_with(record.push(e), tx) == match first_with(record, tx) {
            Some(found) => Some(found),
            None => if e.tx == tx {
                Some(e)
            } else {
                None
            },
        },
    decreases record.len(),
{
    let longer = record.push(e);
    if record.len() == 0 {
        assert(longer.skip(1) =~= Seq::<Entry>::empty());
    } else {
        assert(longer.skip(1) =~= record.skip(1).push(e));
        lemma_first_with_push(record.skip(1), e, tx);
    }
}

/// One more entry adds its amount to the sum.
pub proof fn lemma_sum_of_push(record: Seq<Entry>, e: Entry)
    ensures
        sum_of(record.push(e)) == sum_of(record) + e.amount,
{
    assert(record.push(e).drop_last() =~= record);
}

/// Handling a record keeps an account well-formed.
pub proof fn lemma_apply_keeps_wf(account: Account, t: TransactionView)
    requires
        account.wf(),
    ensures
        account.apply(t).wf(),
{
    let next = account.apply(t);
    assert forall|i: int| 0 <= i < next.open_disputes.len() implies first_with(
        next.history,
        (#[trigger] next.open_disputes[i]).tx,
    ) == Some(next.open_disputes[i]) by {
        let d = next.open_disputes[i];
        if i < account.open_disputes.len() {
            assert(d == account.open_disputes[i]);
        } else {
            let tx = t->Dispute_tx;
            lemma_first_with_none(account.history, tx);
            assert(d == first_with(account.history, tx).unwrap());
        }
        if next.history != account.history {
            let e = next.history.last();
            assert(next.history =~= account.history.push(e));
            lemma_first_with_push(account.history, e, d.tx);
        }
    }
}

/// Handling any sequence of records keeps an account well-formed.
pub proof fn lemma_run_keeps_wf(account: Account, steps: Seq<TransactionView>)
    requires
        account.wf(),
    ensures
        account.run(steps).wf(),
    decreases steps.len(),
{
    if steps.len() > 0 {
        lemma_run_keeps_wf(account, steps.drop_last());
        lemma_apply_keeps_wf(account.run(steps.drop_last()), steps.last());
    }
}

/// When a step is exact. A refused step always is. A deposit is exact
/// exactly when its sum stays in the 64-bit range; an accepted withdrawal,
/// exactly when its difference stays in range and the amount can be
/// negated, or when the least amount is withdrawn from no funds at all,
/// where both stop at the same end. A dispute or a resolution is exact when
/// both its sums stay in range. An accepted chargeback is exact only when it
/// leaves the held funds as they were: it takes funds away without a trace
/// in the history.
pub proof fn lemma_exact_in_range(account: Account, t: TransactionView)
    ensures
        match t {
            TransactionView::Deposit { amount, .. } => account.exact(t) <==> i64::MIN
                <= account.available + amount <= i64::MAX,
            TransactionView::Withdraw { amount, .. } => account.covers(amount) ==> (account.exact(
                t,
            ) <==> (amount != i64::MIN && account.available - amount <= i64::MAX) || (amount
                == i64::MIN && account.available == 0)),
            TransactionView::Dispute { tx, .. } => first_with(account.history, tx) matches Some(e)
                && i64::MIN <= account.available - e.amount <= i64::MAX && i64::MIN
                <= account.held + e.amount <= i64::MAX ==> account.exact(t),
            TransactionView::Resolve { tx, .. } => first_with(account.open_disputes, tx) matches Some(
                e,
            ) && i64::MIN <= account.available + e.amount <= i64::MAX && i64::MIN <= account.held
                - e.amount <= i64::MAX ==> account.exact(t),
            TransactionView::Chargeback { tx, .. } => first_with(
                account.open_disputes,
                tx,
            ) matches Some(e) ==> (account.exact(t) <==> clamp(account.held - e.amount)
                == account.held),
        },
        account.outcome(t) is Err ==> account.exact(t),
{
    match t {
        TransactionView::Deposit { tx, amount, .. } => {
            lemma_sum_of_push(account.history, Entry { tx, amount });
        },
        TransactionView::Withdraw { tx, amount, .. } => {
            lemma_sum_of_push(account.history, Entry { tx, amount: clamp(-amount) });
        },
        _ => {},
    }
}

/// The books stay in agreement: from an account whose funds are the sum of
/// its history, after every exact step of any sequence of records
/// (deposits and withdrawals, and disputes and their settlements too) the
/// funds are again the sum of the history.
pub proof fn lemma_balance_kept(account: Account, steps: Seq<TransactionView>)
    requires
        account.balanced(),
        forall|k: int| 0 <= k < steps.len() ==> account.run(steps.take(k)).exact(#[trigger] steps[k]),
    ensures
        forall|k: int| 0 <= k <= steps.len() ==> (#[trigger] account.run(steps.take(k))).balanced(),
    decreases steps.len(),
{
    if steps.len() > 0 {
        let front = steps.drop_last();
        assert forall|k: int| 0 <= k < front.len() implies account.run(front.take(k)).exact(
            #[trigger] front[k],
        ) by {
            assert(front.take(k) =~= steps.take(k));
            assert(front[k] == steps[k]);
        }
        lemma_balance_kept(account, front);
        assert forall|k: int| 0 <= k <= steps.len() implies (#[trigger] account.run(
            steps.take(k),
        )).balanced() by {
            if k < steps.len() {
                assert(front.take(k) =~= steps.take(k));
            } else {
                let n = steps.len() - 1;
                assert(steps.take(k) =~= steps);
                assert(front =~= steps.take(n));
                assert(front.take(n) =~= front);
                assert(account.run(front).balanced());
                assert(account.run(steps.take(n)).exact(steps[n]));
            }
        }
    } else {
        assert forall|k: int| 0 <= k <= steps.len() implies (#[trigger] account.run(
            steps.take(k),
        )).balanced() by {
            assert(steps.take(k) =~= steps);
        }
    }
}

/// Asking for exactly what is available, or for more, is refused and
/// changes nothing.
pub proof fn lemma_withdraw_needs_more(account: Account, amount: i64, tx: TxId)
    requires
        account.available <= amount,
    ensures
        account.outcome(TransactionView::Withdraw { client: 0, tx, amount }) == Err::<
            (),
            TransactionError,
        >(TransactionError::Overdraw),
        account.withdraw(amount, tx) == account,
{
}

/// A deposit into an empty account, disputed: nothing is available, the
/// whole amount is held, and the total is what was deposited.
pub proof fn lemma_deposit_then_dispute(amount: i64, tx: TxId)
    ensures
        Account::empty().deposit(amount, tx).dispute(tx).available == 0,
        Account::empty().deposit(amount, tx).dispute(tx).held == amount,
        Account::empty().deposit(amount, tx).dispute(tx).total() == Account::empty().deposit(
            amount,
            tx,
        ).total(),
        Account::empty().deposit(amount, tx).outcome(TransactionView::Dispute { client: 0, tx })
            is Ok,
{
    let deposited = Account::empty().deposit(amount, tx);
    let e = Entry { tx, amount };
    assert(deposited.history =~= seq![e]);
    lemma_first_with_at(deposited.history, tx, 0);
}

/// A dispute followed by its resolution: where the dispute moved the amount
/// without leaving the 64-bit range, the resolution is accepted and brings
/// the available and the held funds back to what they were before the
/// dispute; held funds that were 0 are 0 again in any case.
pub proof fn lemma_dispute_then_resolve(account: Account, tx: TxId)
    requires
        account.wf(),
        first_with(account.history, tx) is Some,
    ensures
        account.dispute(tx).outcome(TransactionView::Resolve { client: 0, tx }) is Ok,
        ({
            let amount = first_with(account.history, tx).unwrap().amount;
            let settled = account.dispute(tx).resolve(tx);
            &&& i64::MIN <= account.available - amount <= i64::MAX <==> settled.available
                == account.available
            &&& i64::MIN <= account.held + amount <= i64::MAX <==> settled.held == account.held
            &&& account.held == 0 ==> settled.held == 0
            &&& settled.locked == account.locked
            &&& settled.history == account.history
        }),
{
    lemma_disputed_entry(account, tx);
}

/// A dispute followed by its chargeback: the chargeback is accepted, locks
/// the account and leaves the available funds as the dispute left them;
/// where the dispute raised the held funds without leaving the 64-bit
/// range, which is so when they were 0, they are back to what they were
/// before the dispute.
pub proof fn lemma_dispute_then_chargeback(account: Account, tx: TxId)
    requires
        account.wf(),
        first_with(account.history, tx) is Some,
    ensures
        account.dispute(tx).outcome(TransactionView::Chargeback { client: 0, tx }) is Ok,
        ({
            let amount = first_with(account.history, tx).unwrap().amount;
            let settled = account.dispute(tx).chargeback(tx);
            &&& settled.locked
            &&& settled.available == account.dispute(tx).available
            &&& i64::MIN <= account.held + amount <= i64::MAX <==> settled.held == account.held
            &&& account.held == 0 ==> settled.held == 0
            &&& settled.history == account.history
        }),
{
    lemma_disputed_entry(account, tx);
}

/// After a dispute of `tx`, the entry found under `tx` among the disputes
/// is the one found under `tx` in the history.
pub proof fn lemma_disputed_entry(account: Account, tx: TxId)
    requires
        account.wf(),
        first_with(account.history, tx) is Some,
    ensures
        first_with(account.dispute(tx).open_disputes, tx) == first_with(account.history, tx),
{
    let e = first_with(account.history, tx).unwrap();
    lemma_first_with_none(account.history, tx);
    lemma_first_with_push(account.open_disputes, e, tx);
    lemma_first_with_none(account.open_disputes, tx);
    if first_with(account.open_disputes, tx) is Some {
        let i = choose|i: int|
            0 <= i < account.open_disputes.len() && account.open_disputes[i].tx == tx;
        let j = first_index(account.open_disputes, tx, i);
        lemma_first_with_at(account.open_disputes, tx, j);
        assert(first_with(account.history, account.open_disputes[j].tx) == Some(
            account.open_disputes[j],
        ));
    }
}

/// The least index that holds `tx`, given an index `i` that does.
proof fn first_index(record: Seq<Entry>, tx: TxId, i: int) -> (j: int)
    requires
        0 <= i < record.len(),
        record[i].tx == tx,
    ensures
        0 <= j <= i,
        record[j].tx == tx,
        forall|k: int| 0 <= k < j ==> record[k].tx != tx,
    decreases i,
{
    if exists|k: int| 0 <= k < i && record[k].tx == tx {
        let k = choose|k: int| 0 <= k < i && record[k].tx == tx;
        first_index(record, tx, k)
    } else {
        i
    }
}

/// An operation on an unknown transaction is refused and changes nothing.
pub proof fn lemma_unknown_transaction(account: Account, tx: TxId)
    ensures
        first_with(account.history, tx) is None ==> account.dispute(tx) == account
            && account.outcome(TransactionView::Dispute { client: 0, tx }) == Err::<
            (),
            TransactionError,
        >(TransactionError::InvalidTxId),
        first_with(account.open_disputes, tx) is None ==> account.resolve(tx) == account
            && account.chargeback(tx) == account && account.outcome(
            TransactionView::Resolve { client: 0, tx },
        ) == Err::<(), TransactionError>(TransactionError::InvalidTxId) && account.outcome(
            TransactionView::Chargeback { client: 0, tx },
        ) == Err::<(), TransactionError>(TransactionError::InvalidTxId),
{
}

/// A client's account.
#[derive(Clone, Debug)]
pub struct ClientInfo {
    available_funds: Currency,
    held_funds: Currency,
    locked: bool,
    transfers: Vec<ClientTransaction>,
    disputes: Vec<ClientTransaction>,
}

impl View for ClientInfo {
    type V = Account;

    closed spec fn view(&self) -> Account {
        Account {
            available: self.available_funds@,
            held: self.held_funds@,
            locked: self.locked,
            history: entries(self.transfers@),
            open_disputes: entries(self.disputes@),
        }
    }
}

impl Default for ClientInfo {
    /// The account of a client nothing has happened to.
    fn default() -> (account: ClientInfo)
        ensures
            account@ == Account::empty(),
    {
        let account = ClientInfo {
            available_funds: Currency::new(0),
            held_funds: Currency::new(0),
            locked: false,
            transfers: Vec::new(),
            disputes: Vec::new(),
        };
        assert(account@.history =~= Seq::<Entry>::empty());
        assert(account@.open_disputes =~= Seq::<Entry>::empty());
        account
    }
}

/// The first entry of `record` under `tx`.
fn find(record: &Vec<ClientTransaction>, tx: TxId) -> (r: Option<ClientTransaction>)
    ensures
        match first_with(entries(record@), tx) {
            Some(e) => r matches Some(found) && found@ == e,
            None => r is None,
        },
{
    let mut i: usize = 0;
    while i < record.len()
        invariant
            i <= record.len(),
            forall|j: int| 0 <= j < i ==> entries(record@)[j].tx != tx,
        decreases record.len() - i,
    {
        let entry = record[i];
        if entry.tx() == tx {
            proof {
                lemma_first_with_at(entries(record@), tx, i as int);
            }
            return Some(entry);
        }
        i += 1;
    }
    proof {
        lemma_first_with_none(entries(record@), tx);
    }
    None
}

impl ClientInfo {
    /// Puts `amount` into the available funds and records it under `tx`.
    /// Never refused.
    pub fn deposit(&mut self, amount: Currency, tx: TxId)
        ensures
            final(self)@ == old(self)@.deposit(amount@, tx),
    {
        self.available_funds.add_assign(amount);
        self.transfers.push(ClientTransaction::new(amount, tx));
        assert(self@.history =~= old(self)@.history.push(Entry { tx, amount: amount@ }));
    }

    /// Takes `amount` out of the available funds and records the negated
    /// amount under `tx`. Refused, with nothing changed, unless more than
    /// `amount` is available.
    pub fn withdraw(&mut self, amount: Currency, tx: TxId) -> (r: Result<(), TransactionError>)
        ensures
            final(self)@ == old(self)@.withdraw(amount@, tx),
            r == old(self)@.outcome(TransactionView::Withdraw { client: 0, tx, amount: amount@ }),
            r is Err ==> *final(self) == *old(self),
    {
        if self.available_funds <= amount {
            return Err(TransactionError::Overdraw);
        }
        self.available_funds.sub_assign(amount);
        self.transfers.push(ClientTransaction::new(amount.neg(), tx));
        assert(self@.history =~= old(self)@.history.push(
            Entry { tx, amount: clamp(-amount@) },
        ));
        Ok(())
    }

    /// Contests the deposit or withdrawal first recorded under `tx`: its
    /// amount moves from the available to the held funds, and the entry
    /// joins the disputes. Refused, with nothing changed, when the history
    /// holds no `tx`.
    pub fn dispute(&mut self, tx: TxId) -> (r: Result<(), TransactionError>)
        ensures
            final(self)@ == old(self)@.dispute(tx),
            r == old(self)@.outcome(TransactionView::Dispute { client: 0, tx }),
            r is Err ==> *final(self) == *old(self),
    {
        match find(&self.transfers, tx) {
            Some(t) => {
                self.available_funds.sub_assign(t.amount());
                self.held_funds.add_assign(t.amount());
                self.disputes.push(ClientTransaction::new(t.amount(), t.tx()));
                assert(self@.open_disputes =~= old(self)@.open_disputes.push(t@));
                Ok(())
            },
            None => Err(TransactionError::InvalidTxId),
        }
    }

    /// Settles the dispute first raised about `dispute_tx` in the client's
    /// favour: the disputed amount moves back from the held to the
    /// available funds. Refused, with nothing changed, when no dispute
    /// about `dispute_tx` is on record.
    pub fn resolve(&mut self, dispute_tx: TxId) -> (r: Result<(), TransactionError>)
        ensures
            final(self)@ == old(self)@.resolve(dispute_tx),
            r == old(self)@.outcome(TransactionView::Resolve { client: 0, tx: dispute_tx }),
            r is Err ==> *final(self) == *old(self),
    {
        match find(&self.disputes, dispute_tx) {
            Some(d) => {
                self.available_funds.add_assign(d.amount());
                self.held_funds.sub_assign(d.amount());
                Ok(())
            },
            None => Err(TransactionError::InvalidTxId),
        }
    }

    /// Settles the dispute first raised about `dispute_tx` against the
    /// client: the disputed amount leaves the held funds, and the account
    /// is locked. Refused, with nothing changed, when no dispute about
    /// `dispute_tx` is on record.
    pub fn chargeback(&mut self, dispute_tx: TxId) -> (r: Result<(), TransactionError>)
        ensures
            final(self)@ == old(self)@.chargeback(dispute_tx),
            r == old(self)@.outcome(TransactionView::Chargeback { client: 0, tx: dispute_tx }),
            r is Err ==> *final(self) == *old(self),
    {
        match find(&self.disputes, dispute_tx) {
            Some(d) => {
                self.held_funds.sub_assign(d.amount());
                self.locked = true;
                Ok(())
            },
            None => Err(TransactionError::InvalidTxId),
        }
    }

    /// Whether anything was ever deposited or withdrawn.
    pub fn has_transfers(&self) -> (r: bool)
        ensures
            r == (self@.history.len() > 0),
    {
        !self.transfers.is_empty()
    }

    /// Funds the client may withdraw or put under dispute.
    pub fn available_funds(&self) -> (amount: Currency)
        ensures
            amount@ == self@.available,
    {
        self.available_funds
    }

    /// Funds frozen by disputes.
    pub fn held_funds(&self) -> (amount: Currency)
        ensures
            amount@ == self@.held,
    {
        self.held_funds
    }

    /// Available and held funds together.
    pub fn total_funds(&self) -> (amount: Currency)
        ensures
            amount@ == self@.total(),
    {
        self.available_funds + self.held_funds
    }

    /// Whether a chargeback has happened.
    pub fn locked(&self) -> (r: bool)
        ensures
            r == self@.locked,
    {
        self.locked
    }

    /// Every accepted deposit and withdrawal, oldest first.
    pub fn transfers(&self) -> (record: &[ClientTransaction])
        ensures
            entries(record@) == self@.history,
    {
        self.transfers.as_slice()
    }

    /// Every dispute raised, oldest first.
    pub fn disputes(&self) -> (record: &[ClientTransaction])
        ensures
            entries(record@) == self@.open_disputes,
    {
        self.disputes.as_slice()
    }

    /// The account as one row of text: available, held and total funds and
    /// the lock, separated by a comma and a space.
    pub fn to_string(&self) -> (s: String)
        ensures
            s@ == account_text(self@),
    {
        let mut out = self.available_funds.to_string();
        let held = self.held_funds.to_string();
        let total = self.total_funds().to_string();
        out.append(", ");
        out.append(held.as_str());
        out.append(", ");
        out.append(total.as_str());
        out.append(", ");
        out.append(
            if self.locked {
                "true"
            } else {
                "false"
            },
        );
        out
    }
}

/// The text of a flag.
pub open spec fn flag_text(flag: bool) -> Seq<char> {
    if flag {
        "true"@
    } else {
        "false"@
    }
}

/// An account as one row of text: available, held and total funds, each
/// with four decimal places, and the lock, separated by a comma and a
/// space.
pub open spec fn account_text(account: Account) -> Seq<char> {
    amount_text(account.available as int) + ", "@ + amount_text(account.held as int) + ", "@
        + amount_text(account.total() as int) + ", "@ + flag_text(account.locked)
}

} // verus!
