//! The ledger: one account for every client id, and the dispatch of each
//! record to the account it is about.
//!
//! Client ids are 16 bits wide, so the ledger holds an account for each of
//! the 65536 ids from the start and finds the one it needs by index. An
//! account that nothing was ever deposited to or withdrawn from is left out
//! of the ledger's text.

use crate::client_info::account_text;
use crate::client_info::Account;
use crate::client_info::ClientInfo;
use crate::client_info::TransactionError;
use crate::decimal::number_text;
use crate::decimal::push_number;
use crate::transaction::ClientId;
use crate::transaction::Transaction;
use vstd::prelude::*;

verus! {

/// How many client ids there are.
pub const CLIENTS: usize = 65536;

/// The accounts of all clients.
pub struct ClientTable {
    clients: Vec<ClientInfo>,
}

/// The first line of the ledger's text.
pub open spec fn header_text() -> Seq<char> {
    "client, available, held, total, locked\n"@
}

/// The line of client `client` in the ledger's text: the id, a comma and a
/// space, the account's row, and a line feed.
pub open spec fn line_text(client: nat, account: Account) -> Seq<char> {
    number_text(client) + ", "@ + account_text(account) + "\n"@
}

/// The lines of the clients below `n`, in the order of their ids. Clients
/// without history have no line.
pub open spec fn lines_text(accounts: Seq<Account>, n: nat) -> Seq<char>
    decreases n,
{
    if n == 0 {
        Seq::empty()
    } else {
        let client = (n - 1) as nat;
        let account = accounts[client as int];
        lines_text(accounts, client) + if account.history.len() > 0 {
            line_text(client, account)
        } else {
            Seq::empty()
        }
    }
}

/// The ledger as text: the header, then one line for each client with
/// history.
pub open spec fn ledger_text(accounts: Seq<Account>) -> Seq<char> {
    header_text() + lines_text(accounts, accounts.len())
}

impl View for ClientTable {
    type V = Seq<Account>;

    /// The account of each client, at the index of its id.
    closed spec fn view(&self) -> Seq<Account> {
        Seq::new(CLIENTS as nat, |i: int| self.clients[i]@)
    }
}

impl ClientTable {
    /// There is an account at the index of every client id.
    #[verifier::type_invariant]
    spec fn holds_every_client(&self) -> bool {
        self.clients.len() == CLIENTS
    }

    /// The ledger holds an account for every client id.
    pub proof fn lemma_len(&self)
        ensures
            self@.len() == CLIENTS,
    {
    }

    /// The ledger in which nothing has happened to any client.
    pub fn new() -> (table: Self)
        ensures
            table@ == Seq::new(CLIENTS as nat, |i: int| Account::empty()),
    {
        let mut clients: Vec<ClientInfo> = Vec::new();
        let mut i: usize = 0;
        while i < CLIENTS
            invariant
                i <= CLIENTS,
                clients.len() == i,
                forall|j: int| 0 <= j < i ==> clients[j]@ == Account::empty(),
            decreases CLIENTS - i,
        {
            clients.push(ClientInfo::default());
            i += 1;
        }
        let table = ClientTable { clients };
        assert(table@ =~= Seq::new(CLIENTS as nat, |i: int| Account::empty()));
        table
    }

    /// Hands the record to the account of its client. The other accounts
    /// stay as they are; a refused record changes nothing at all.
    pub fn handle_transaction(&mut self, tx: Transaction) -> (r: Result<(), TransactionError>)
        ensures
            final(self)@ == old(self)@.update(
                tx@.client() as int,
                old(self)@[tx@.client() as int].apply(tx@),
            ),
            r == old(self)@[tx@.client() as int].outcome(tx@),
            r is Err ==> final(self)@ == old(self)@,
    {
        proof {
            use_type_invariant(&*self);
        }
        let r = match tx {
            Transaction::Withdraw { client, tx, amount } => self.clients[client as usize].withdraw(
                amount,
                tx,
            ),
            Transaction::Deposit { client, tx, amount } => {
                self.clients[client as usize].deposit(amount, tx);
                Ok(())
            },
            Transaction::Dispute { client, tx } => self.clients[client as usize].dispute(tx),
            Transaction::Resolve { client, tx } => self.clients[client as usize].resolve(tx),
            Transaction::Chargeback { client, tx } => self.clients[client as usize].chargeback(tx),
        };
        assert(self@ =~= old(self)@.update(
            tx@.client() as int,
            old(self)@[tx@.client() as int].apply(tx@),
        ));
        r
    }

    /// The account of `client`.
    pub fn client(&self, client: ClientId) -> (account: &ClientInfo)
        ensures
            account@ == self@[client as int],
    {
        proof {
            use_type_invariant(self);
        }
        &self.clients[client as usize]
    }

    /// The ledger as text: a header, then `client, available, held, total,
    /// locked` for each client with history, in the order of the ids, each
    /// line ended by a line feed.
    pub fn to_string(&self) -> (s: String)
        ensures
            s@ == ledger_text(self@),
    {
        proof {
            use_type_invariant(self);
        }
        let mut out = String::new();
        out.append("client, available, held, total, locked\n");
        let mut c: usize = 0;
        while c < CLIENTS
            invariant
                c <= CLIENTS,
                self.clients.len() == CLIENTS,
                out@ == header_text() + lines_text(self@, c as nat),
            decreases CLIENTS - c,
        {
            let ghost before = out@;
            if self.clients[c].has_transfers() {
                let row = self.clients[c].to_string();
                push_number(&mut out, c as u64);
                out.append(", ");
                out.append(row.as_str());
                out.append("\n");
                assert(out@ =~= before + line_text(c as nat, self@[c as int]));
            }
            c += 1;
            assert(out@ =~= header_text() + lines_text(self@, c as nat));
        }
        out
    }
}

} // verus!
