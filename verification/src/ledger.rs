//! The ledger as a mathematical object: what a log of rows amounts to.
//!
//! A [`Ledger`] holds the accounts seen so far and the table of deposits and
//! withdrawals that later disputes can refer to. [`replay`] folds a log into
//! a ledger, one row at a time and in order.

use crate::amount::{is_4f, lemma_floor_4f, MAX_AMOUNT};
use crate::client::Account;
use crate::transaction::{record_of, Transaction, TransactionType};
use vstd::prelude::*;

verus! {

pub struct Ledger {
    /// The account of every client that a record has named.
    pub accounts: Map<u16, Account>,
    /// Every deposit and withdrawal read so far, by transaction id.
    pub transactions: Map<u32, Transaction>,
}

impl Ledger {
    /// The ledger before any record.
    pub open spec fn empty() -> Ledger {
        Ledger { accounts: Map::empty(), transactions: Map::empty() }
    }

    /// The account of client `id`: a new one if no record has named `id`.
    pub open spec fn account(self, id: u16) -> Account {
        if self.accounts.contains_key(id) {
            self.accounts[id]
        } else {
            Account::new(id)
        }
    }

    /// The deposit or withdrawal with transaction id `tx`, if one was read.
    pub open spec fn lookup(self, tx: u32) -> Option<Transaction> {
        if self.transactions.contains_key(tx) {
            Some(self.transactions[tx])
        } else {
            None
        }
    }

    /// The table after `t` is entered. The first record with an id stays:
    /// a later one with the same id is not entered.
    pub open spec fn registered(self, t: Transaction) -> Map<u32, Transaction> {
        if self.transactions.contains_key(t.tx) {
            self.transactions
        } else {
            self.transactions.insert(t.tx, t)
        }
    }

    /// The account of the client of `t` after `t` is applied to it. A
    /// dispute, resolve or chargeback acts with the amount of the deposit or
    /// withdrawal it refers to, and not at all if none has that id.
    pub open spec fn moved(self, t: Transaction) -> Account {
        let account = self.account(t.client);
        match t.tx_type {
            TransactionType::Deposit => account.deposit(t.units()),
            TransactionType::Withdrawal => account.withdrawal(t.units()),
            TransactionType::Dispute => match self.lookup(t.tx) {
                Some(r) => account.dispute(r.tx, r.units()),
                None => account,
            },
            TransactionType::Resolve => match self.lookup(t.tx) {
                Some(r) => account.resolve(r.tx, r.units()),
                None => account,
            },
            TransactionType::Chargeback => match self.lookup(t.tx) {
                Some(r) => account.chargeback(r.tx, r.units()),
                None => account,
            },
        }
    }

    /// The ledger after the record `t`.
    ///
    /// The account of the client is created if need be and moved as the
    /// kind of `t` says. A deposit or withdrawal is then entered in the
    /// table, whether or not it moved any funds. A deposit or withdrawal
    /// without an amount is no record at all and changes nothing.
    pub open spec fn apply(self, t: Transaction) -> Ledger {
        if t.tx_type.needs_amount() && t.amount is None {
            self
        } else {
            Ledger {
                accounts: self.accounts.insert(t.client, self.moved(t)),
                transactions: if t.tx_type.needs_amount() {
                    self.registered(t)
                } else {
                    self.transactions
                },
            }
        }
    }

    /// The ledger after one row of the log. A row that could not be read
    /// (`None`) or that writes no record is skipped; the record of any other
    /// row is applied with its amount rounded down to four decimal digits.
    pub open spec fn read(self, row: Option<Seq<Seq<u8>>>) -> Ledger {
        match row {
            Some(fields) => match record_of(fields) {
                Some(t) => self.apply(t.normalized()),
                None => self,
            },
            None => self,
        }
    }

    /// Every record in the table is a deposit or withdrawal entered under
    /// its own id, with an amount of whole ten-thousandths that a record
    /// can carry.
    pub open spec fn table_sound(self) -> bool {
        forall|tx: u32| #[trigger]
            self.transactions.contains_key(tx) ==> {
                let r = self.transactions[tx];
                &&& r.tx == tx
                &&& r.tx_type.needs_amount()
                &&& r.amount is Some
                &&& r.units() <= MAX_AMOUNT
                &&& is_4f(r.units())
            }
    }

    /// Every account is entered under its own client id, is balanced, holds
    /// whole ten-thousandths, and has no balance beyond `bound` either way.
    pub open spec fn accounts_sound(self, bound: int) -> bool {
        forall|id: u16| #[trigger]
            self.accounts.contains_key(id) ==> {
                let a = self.accounts[id];
                &&& a.client == id
                &&& a.balanced()
                &&& a.is_4f()
                &&& a.within(bound)
            }
    }
}

/// The ledger that a log of rows amounts to.
pub open spec fn replay(rows: Seq<Option<Seq<Seq<u8>>>>) -> Ledger
    decreases rows.len(),
{
    if rows.len() == 0 {
        Ledger::empty()
    } else {
        replay(rows.drop_last()).read(rows.last())
    }
}

/// One row keeps a sound ledger sound, and moves no balance by more than
/// the largest amount a record can carry.
pub proof fn lemma_read_keeps_sound(ledger: Ledger, row: Option<Seq<Seq<u8>>>, bound: int)
    requires
        ledger.table_sound(),
        ledger.accounts_sound(bound),
        0 <= bound,
    ensures
        ledger.read(row).table_sound(),
        ledger.read(row).accounts_sound(bound + MAX_AMOUNT),
{
    let next = ledger.read(row);
    if next != ledger {
        let t = record_of(row->0)->0.normalized();
        if t.amount is Some {
            lemma_floor_4f(record_of(row->0)->0.units());
        }
        assert(next == ledger.apply(t));
        assert(ledger.account(t.client).balanced());
        assert(ledger.account(t.client).is_4f());
        assert(ledger.account(t.client).within(bound));
        assert forall|id: u16| #[trigger] next.accounts.contains_key(id) implies ({
            let a = next.accounts[id];
            &&& a.client == id
            &&& a.balanced()
            &&& a.is_4f()
            &&& a.within(bound + MAX_AMOUNT)
        }) by {
            if id != t.client {
                assert(ledger.accounts.contains_key(id));
            }
        }
        assert forall|tx: u32| #[trigger] next.transactions.contains_key(tx) implies ({
            let r = next.transactions[tx];
            &&& r.tx == tx
            &&& r.tx_type.needs_amount()
            &&& r.amount is Some
            &&& r.units() <= MAX_AMOUNT
            &&& is_4f(r.units())
        }) by {
            if ledger.transactions.contains_key(tx) {
            }
        }
    } else {
        assert forall|id: u16| #[trigger] next.accounts.contains_key(id) implies ({
            let a = next.accounts[id];
            &&& a.client == id
            &&& a.balanced()
            &&& a.is_4f()
            &&& a.within(bound + MAX_AMOUNT)
        }) by {
            assert(ledger.accounts.contains_key(id));
        }
    }
}

/// Whatever the log, the ledger it amounts to is sound: every account is
/// balanced (its total is what is available plus what is held), every
/// balance is a whole number of ten-thousandths, and no balance is further
/// from zero than the number of rows times the largest amount of a record.
pub proof fn lemma_replay_sound(rows: Seq<Option<Seq<Seq<u8>>>>)
    ensures
        replay(rows).table_sound(),
        replay(rows).accounts_sound(rows.len() * MAX_AMOUNT),
    decreases rows.len(),
{
    if rows.len() > 0 {
        lemma_replay_sound(rows.drop_last());
        lemma_read_keeps_sound(
            replay(rows.drop_last()),
            rows.last(),
            rows.drop_last().len() * MAX_AMOUNT,
        );
    }
}

/// A dispute, resolve or chargeback that refers to a transaction id under
/// which no deposit or withdrawal was read moves no funds: every client's
/// account stays as it was, and so does the table.
pub proof fn lemma_unknown_reference(ledger: Ledger, t: Transaction, id: u16)
    requires
        !t.tx_type.needs_amount(),
        ledger.lookup(t.tx) is None,
    ensures
        ledger.apply(t).account(id) == ledger.account(id),
        ledger.apply(t).transactions == ledger.transactions,
{
}

/// A record moves the account of its own client and no other.
pub proof fn lemma_apply_moves_one_account(ledger: Ledger, t: Transaction, id: u16)
    requires
        id != t.client,
    ensures
        ledger.apply(t).account(id) == ledger.account(id),
{
}

/// One more row never unlocks an account.
pub proof fn lemma_read_keeps_locked(ledger: Ledger, row: Option<Seq<Seq<u8>>>, id: u16)
    requires
        ledger.account(id).locked,
    ensures
        ledger.read(row).account(id).locked,
{
}

/// Once an account is locked it stays locked, whatever rows follow.
pub proof fn lemma_locked_stays_locked(
    rows: Seq<Option<Seq<Seq<u8>>>>,
    more: Seq<Option<Seq<Seq<u8>>>>,
    id: u16,
)
    requires
        replay(rows).account(id).locked,
    ensures
        replay(rows + more).account(id).locked,
    decreases more.len(),
{
    if more.len() == 0 {
        assert(rows + more =~= rows);
    } else {
        assert((rows + more).drop_last() =~= rows + more.drop_last());
        assert((rows + more).last() == more.last());
        lemma_locked_stays_locked(rows, more.drop_last(), id);
        lemma_read_keeps_locked(replay(rows + more.drop_last()), more.last(), id);
    }
}

/// After any log, every account is balanced: its total is exactly what is
/// available plus what is held. Its balances are whole ten-thousandths, so
/// rounding them for the report changes nothing.
pub proof fn lemma_replay_balanced(rows: Seq<Option<Seq<Seq<u8>>>>, id: u16)
    ensures
        replay(rows).account(id).balanced(),
        replay(rows).account(id).is_4f(),
        replay(rows).account(id).format_4f() == replay(rows).account(id),
{
    lemma_replay_sound(rows);
    let a = replay(rows).account(id);
    if replay(rows).accounts.contains_key(id) {
    }
    lemma_floor_4f(a.available);
    lemma_floor_4f(a.held);
    lemma_floor_4f(a.total);
}

/// The records that the rows of a log write, in order, each with its
/// amount rounded down to four decimal digits.
pub open spec fn records_of(rows: Seq<Option<Seq<Seq<u8>>>>) -> Seq<Transaction>
    decreases rows.len(),
{
    if rows.len() == 0 {
        Seq::empty()
    } else {
        let before = records_of(rows.drop_last());
        match rows.last() {
            Some(fields) => match record_of(fields) {
                Some(t) => before.push(t.normalized()),
                None => before,
            },
            None => before,
        }
    }
}

/// The ledger after `records`, applied in order.
pub open spec fn settle(records: Seq<Transaction>) -> Ledger
    decreases records.len(),
{
    if records.len() == 0 {
        Ledger::empty()
    } else {
        settle(records.drop_last()).apply(records.last())
    }
}

/// A log amounts to what its records amount to.
pub proof fn lemma_replay_settles(rows: Seq<Option<Seq<Seq<u8>>>>)
    ensures
        replay(rows) == settle(records_of(rows)),
    decreases rows.len(),
{
    if rows.len() > 0 {
        lemma_replay_settles(rows.drop_last());
        let before = records_of(rows.drop_last());
        if records_of(rows) != before {
            let t = records_of(rows).last();
            assert(records_of(rows) == before.push(t));
            assert(before.push(t).drop_last() =~= before);
        }
    }
}

/// The records of client `id` among `records`, in order.
pub open spec fn records_of_client(records: Seq<Transaction>, id: u16) -> Seq<Transaction>
    decreases records.len(),
{
    if records.len() == 0 {
        Seq::empty()
    } else {
        let before = records_of_client(records.drop_last(), id);
        if records.last().client == id {
            before.push(records.last())
        } else {
            before
        }
    }
}

/// Whether `t` is entered in the table when it is applied: a deposit or
/// withdrawal with an amount.
pub open spec fn is_entered(t: Transaction) -> bool {
    t.tx_type.needs_amount() && t.amount is Some
}

/// No two deposits or withdrawals carry the same transaction id.
pub open spec fn distinct_ids(records: Seq<Transaction>) -> bool {
    forall|i: int, j: int|
        #![trigger records[i], records[j]]
        0 <= i < j < records.len() && is_entered(records[i]) && is_entered(records[j])
            ==> records[i].tx != records[j].tx
}

/// Every dispute, resolve and chargeback refers to a deposit or withdrawal
/// of its own client, or to none that came before it.
pub open spec fn own_references(records: Seq<Transaction>) -> bool {
    forall|i: int, j: int|
        #![trigger records[i], records[j]]
        0 <= i < j < records.len() && is_entered(records[i]) && !records[j].tx_type.needs_amount()
            && records[i].tx == records[j].tx ==> records[i].client == records[j].client
}

/// What ties the ledger of all `records` to the ledger of those of client
/// `id` alone: the two agree on the account of `id` and on the entries of
/// `id` in the table, and every entry of the first is one of `records`.
spec fn agree_on_client(records: Seq<Transaction>, id: u16) -> bool {
    let all = settle(records);
    let own = settle(records_of_client(records, id));
    &&& all.account(id) == own.account(id)
    &&& all.accounts.contains_key(id) == own.accounts.contains_key(id)
    &&& forall|tx: u32| #[trigger]
        own.transactions.contains_key(tx) <==> all.transactions.contains_key(tx)
            && all.transactions[tx].client == id
    &&& forall|tx: u32| #[trigger]
        own.transactions.contains_key(tx) ==> own.transactions[tx] == all.transactions[tx]
    &&& forall|tx: u32| #[trigger]
        all.transactions.contains_key(tx) ==> exists|i: int|
            0 <= i < records.len() && is_entered(#[trigger] records[i]) && records[i].tx == tx
                && records[i] == all.transactions[tx]
}

/// The two ledgers agree on the client whatever the records, by induction
/// on their number.
proof fn lemma_agree_on_client(records: Seq<Transaction>, id: u16)
    requires
        distinct_ids(records),
        own_references(records),
    ensures
        agree_on_client(records, id),
    decreases records.len(),
{
    if records.len() > 0 {
        let before = records.drop_last();
        let t = records.last();
        let n = before.len() as int;
        assert forall|i: int| 0 <= i < n implies before[i] == records[i] by {}
        assert(distinct_ids(before)) by {
            assert forall|i: int, j: int|
                #![trigger before[i], before[j]]
                0 <= i < j < before.len() && is_entered(before[i]) && is_entered(
                    before[j],
                ) implies before[i].tx != before[j].tx by {
                assert(before[i] == records[i] && before[j] == records[j]);
            }
        }
        assert(own_references(before)) by {
            assert forall|i: int, j: int|
                #![trigger before[i], before[j]]
                0 <= i < j < before.len() && is_entered(before[i])
                    && !before[j].tx_type.needs_amount() && before[i].tx
                    == before[j].tx implies before[i].client == before[j].client by {
                assert(before[i] == records[i] && before[j] == records[j]);
            }
        }
        lemma_agree_on_client(before, id);
        let all_before = settle(before);
        let own_before = settle(records_of_client(before, id));
        let all = settle(records);
        let own = settle(records_of_client(records, id));
        assert(all == all_before.apply(t));
        if t.client == id {
            let mine = records_of_client(before, id);
            assert(mine.push(t).drop_last() =~= mine);
            assert(own == own_before.apply(t));
        } else {
            assert(own == own_before);
        }
        // An id that is in the table came with an earlier record, which the
        // two premises then hold against `t`.
        if all_before.transactions.contains_key(t.tx) {
            let i = choose|i: int|
                0 <= i < before.len() && is_entered(#[trigger] before[i]) && before[i].tx == t.tx
                    && before[i] == all_before.transactions[t.tx];
            assert(records[i] == before[i]);
            assert(records[n] == t);
            if is_entered(t) {
                assert(records[i].tx != records[n].tx);
            }
            if !t.tx_type.needs_amount() {
                assert(records[i].client == records[n].client);
            }
        }
        assert(all_before.lookup(t.tx) is Some ==> is_entered(t) == false);
        if !t.tx_type.needs_amount() && t.client == id {
            assert(own_before.lookup(t.tx) == all_before.lookup(t.tx));
        }
        assert forall|tx: u32| #[trigger] all.transactions.contains_key(tx) implies exists|i: int|
            0 <= i < records.len() && is_entered(#[trigger] records[i]) && records[i].tx == tx
                && records[i] == all.transactions[tx] by {
            if all_before.transactions.contains_key(tx) {
                let i = choose|i: int|
                    0 <= i < before.len() && is_entered(#[trigger] before[i]) && before[i].tx == tx
                        && before[i] == all_before.transactions[tx];
                assert(records[i] == before[i]);
                assert(all.transactions[tx] == all_before.transactions[tx]);
            } else {
                assert(records[n] == t);
                assert(is_entered(t) && t.tx == tx && all.transactions[tx] == t);
            }
        }
        assert forall|tx: u32| #[trigger]
            own.transactions.contains_key(tx) <==> all.transactions.contains_key(tx)
                && all.transactions[tx].client == id by {
            if own_before.transactions.contains_key(tx) {
            }
            if all_before.transactions.contains_key(tx) {
            }
        }
        assert forall|tx: u32| #[trigger]
            own.transactions.contains_key(tx) implies own.transactions[tx]
            == all.transactions[tx] by {
            if own_before.transactions.contains_key(tx) {
            }
        }
    }
}

/// What a log leaves in a client's account depends on the records of that
/// client alone, as long as no two deposits or withdrawals carry the same
/// transaction id and no client refers to the deposit or withdrawal of
/// another: the records of the other clients can be taken out of the log.
pub proof fn lemma_clients_are_independent(records: Seq<Transaction>, id: u16)
    requires
        distinct_ids(records),
        own_references(records),
    ensures
        settle(records).account(id) == settle(records_of_client(records, id)).account(id),
        settle(records).accounts.contains_key(id) == settle(
            records_of_client(records, id),
        ).accounts.contains_key(id),
{
    lemma_agree_on_client(records, id);
}

} // verus!
