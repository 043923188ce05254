//! The account state machine.
//!
//! [`Account`] is the mathematical account, with unbounded balances and the
//! five transitions as plain functions. [`Client`] is the account as it is
//! stored; each of its methods performs one transition of its [`Account`].

use crate::amount::{floor_4f, floor_balance, is_4f, lemma_floor_4f};
use crate::transaction::Transaction;
use std::collections::HashSet;
use vstd::prelude::*;

verus! {

/// The state of one client's account. Balances are in millionths.
pub struct Account {
    pub client: u16,
    /// Funds that can be withdrawn or disputed.
    pub available: int,
    /// Funds frozen by disputes.
    pub held: int,
    pub total: int,
    /// Set by the first chargeback, never cleared.
    pub locked: bool,
    /// Transactions under dispute.
    pub disputed: Set<u32>,
    /// Transactions whose dispute was resolved and that can still be charged back.
    pub resolved: Set<u32>,
}

impl Account {
    /// The account of a client that has not been seen before.
    pub open spec fn new(id: u16) -> Account {
        Account {
            client: id,
            available: 0,
            held: 0,
            total: 0,
            locked: false,
            disputed: Set::empty(),
            resolved: Set::empty(),
        }
    }

    /// Credits `amount`.
    pub open spec fn deposit(self, amount: int) -> Account {
        Account { available: self.available + amount, total: self.total + amount, ..self }
    }

    /// Debits `amount` if that much is available; otherwise changes nothing.
    pub open spec fn withdrawal(self, amount: int) -> Account {
        if self.available >= amount {
            Account { available: self.available - amount, total: self.total - amount, ..self }
        } else {
            self
        }
    }

    /// Freezes the `amount` of transaction `tx`.
    pub open spec fn dispute(self, tx: u32, amount: int) -> Account {
        Account {
            available: self.available - amount,
            held: self.held + amount,
            disputed: self.disputed.insert(tx),
            ..self
        }
    }

    /// Releases the `amount` of transaction `tx` if it is under dispute;
    /// otherwise changes nothing.
    pub open spec fn resolve(self, tx: u32, amount: int) -> Account {
        if self.disputed.contains(tx) {
            Account {
                available: self.available + amount,
                held: self.held - amount,
                disputed: self.disputed.remove(tx),
                resolved: self.resolved.insert(tx),
                ..self
            }
        } else {
            self
        }
    }

    /// Reverses transaction `tx` and locks the account if the dispute of
    /// `tx` was resolved; otherwise changes nothing.
    pub open spec fn chargeback(self, tx: u32, amount: int) -> Account {
        if self.resolved.contains(tx) {
            Account {
                held: self.held - amount,
                total: self.total - amount,
                locked: true,
                resolved: self.resolved.remove(tx),
                ..self
            }
        } else {
            self
        }
    }

    /// Every balance rounded down to four decimal digits.
    pub open spec fn format_4f(self) -> Account {
        Account {
            available: floor_4f(self.available),
            held: floor_4f(self.held),
            total: floor_4f(self.total),
            ..self
        }
    }

    /// The total is what is available plus what is held.
    pub open spec fn balanced(self) -> bool {
        self.total == self.available + self.held
    }

    /// Every balance is a whole number of ten-thousandths.
    pub open spec fn is_4f(self) -> bool {
        is_4f(self.available) && is_4f(self.held) && is_4f(self.total)
    }

    /// No balance is further from zero than `bound`.
    pub open spec fn within(self, bound: int) -> bool {
        &&& -bound <= self.available <= bound
        &&& -bound <= self.held <= bound
        &&& -bound <= self.total <= bound
    }

    /// Every balance is in the range of a stored balance.
    pub open spec fn fits(self) -> bool {
        &&& i128::MIN <= self.available <= i128::MAX
        &&& i128::MIN <= self.held <= i128::MAX
        &&& i128::MIN <= self.total <= i128::MAX
    }
}

/// A new account is balanced, and every transition keeps a balanced
/// account balanced: the total is always what is available plus what is held.
pub proof fn lemma_balanced_is_kept(a: Account, id: u16, tx: u32, amount: int)
    requires
        a.balanced(),
    ensures
        Account::new(id).balanced(),
        a.deposit(amount).balanced(),
        a.withdrawal(amount).balanced(),
        a.dispute(tx, amount).balanced(),
        a.resolve(tx, amount).balanced(),
        a.chargeback(tx, amount).balanced(),
{
}

/// Rounding the balances of a balanced account down to four decimal digits
/// leaves the total at most one ten-thousandth above what is available plus
/// what is held, and exactly there if the balances were whole
/// ten-thousandths, which the rounding then leaves as they are.
pub proof fn lemma_balanced_within_rounding(a: Account)
    requires
        a.balanced(),
    ensures
        a.format_4f().available + a.format_4f().held <= a.format_4f().total
            <= a.format_4f().available + a.format_4f().held + 100,
        a.is_4f() ==> a.format_4f() == a,
{
    lemma_floor_4f(a.available);
    lemma_floor_4f(a.held);
    lemma_floor_4f(a.total);
}

/// A new account is not locked, and no transition unlocks a locked account.
pub proof fn lemma_locked_is_kept(a: Account, id: u16, tx: u32, amount: int)
    requires
        a.locked,
    ensures
        !Account::new(id).locked,
        a.deposit(amount).locked,
        a.withdrawal(amount).locked,
        a.dispute(tx, amount).locked,
        a.resolve(tx, amount).locked,
        a.chargeback(tx, amount).locked,
        a.format_4f().locked,
{
}

/// Disputing a transaction and then resolving it brings what is available
/// and what is held back to where they were; the total does not move at any
/// point.
pub proof fn lemma_dispute_then_resolve(a: Account, tx: u32, amount: int)
    ensures
        a.dispute(tx, amount).total == a.total,
        a.dispute(tx, amount).resolve(tx, amount).total == a.total,
        a.dispute(tx, amount).resolve(tx, amount).available == a.available,
        a.dispute(tx, amount).resolve(tx, amount).held == a.held,
{
}

/// A withdrawal of more than is available, a resolve of a transaction that
/// is not under dispute and a chargeback of a transaction whose dispute was
/// not resolved each leave the account exactly as it was.
pub proof fn lemma_refused_changes_nothing(a: Account, tx: u32, amount: int)
    ensures
        amount > a.available ==> a.withdrawal(amount) == a,
        !a.disputed.contains(tx) ==> a.resolve(tx, amount) == a,
        !a.resolved.contains(tx) ==> a.chargeback(tx, amount) == a,
{
}

/// A client's account as the ledger stores it.
#[derive(Debug)]
pub struct Client {
    client: u16,
    available: i128,
    held: i128,
    total: i128,
    locked: bool,
    disputed_tx: HashSet<u32>,
    resolved_tx: HashSet<u32>,
}

impl View for Client {
    type V = Account;

    closed spec fn view(&self) -> Account {
        Account {
            client: self.client,
            available: self.available as int,
            held: self.held as int,
            total: self.total as int,
            locked: self.locked,
            disputed: self.disputed_tx@,
            resolved: self.resolved_tx@,
        }
    }
}

/// A copy of a set of transaction ids.
fn copy_ids(ids: &HashSet<u32>) -> (copy: HashSet<u32>)
    ensures
        copy@ == ids@,
{
    broadcast use vstd::std_specs::hash::axiom_spec_hash_keys_iter;

    let mut copy: HashSet<u32> = HashSet::new();
    for id in it: ids.iter()
        invariant
            it.seq().unref().to_set() == ids@,
            copy@ == it.seq().unref().take(it.index() as int).to_set(),
            it.index() == it.seq().len() ==> copy@ == ids@,
    {
        let ghost all = it.seq().unref();
        let ghost seen = all.take(it.index() as int);
        copy.insert(*id);
        proof {
            assert(all.take(it.index() + 1) =~= seen.push(*id));
            seen.lemma_push_to_set_commute(*id);
            assert(all.take(all.len() as int) =~= all);
        }
    }
    copy
}

impl Clone for Client {
    /// A copy that stands for the same account.
    fn clone(&self) -> (copy: Self)
        ensures
            copy@ == self@,
    {
        Self {
            client: self.client,
            available: self.available,
            held: self.held,
            total: self.total,
            locked: self.locked,
            disputed_tx: copy_ids(&self.disputed_tx),
            resolved_tx: copy_ids(&self.resolved_tx),
        }
    }
}

impl Client {
    /// The account of a client that has not been seen before: no funds, not
    /// locked, nothing under dispute.
    pub fn new(id: u16) -> (c: Self)
        ensures
            c@ == Account::new(id),
    {
        Self {
            client: id,
            available: 0,
            held: 0,
            total: 0,
            locked: false,
            disputed_tx: HashSet::<u32>::new(),
            resolved_tx: HashSet::<u32>::new(),
        }
    }

    /// The balances of a stored account are always in range.
    pub proof fn lemma_fits(&self)
        ensures
            self@.fits(),
    {
    }

    /// A deposit is a credit to the account: available and total funds grow
    /// by the amount of `tx`.
    pub fn deposit(&mut self, tx: &Transaction)
        requires
            tx.amount is Some,
            old(self)@.deposit(tx.units()).fits(),
        ensures
            final(self)@ == old(self)@.deposit(tx.units()),
    {
        let deposit = tx.amount.unwrap() as i128;
        self.available += deposit;
        self.total += deposit;
    }

    /// A withdrawal is a debit to the account: available and total funds
    /// shrink by the amount of `tx`. Without sufficient available funds the
    /// withdrawal fails and nothing changes.
    pub fn withdrawal(&mut self, tx: &Transaction)
        requires
            tx.amount is Some,
            old(self)@.withdrawal(tx.units()).fits(),
        ensures
            final(self)@ == old(self)@.withdrawal(tx.units()),
    {
        let withdrawal = tx.amount.unwrap() as i128;

        if self.available >= withdrawal {
            self.available -= withdrawal;
            self.total -= withdrawal;
        }
    }

    /// A dispute is a claim that a transaction was erroneous. The funds of
    /// the disputed transaction are held: available funds shrink and held
    /// funds grow by its amount, the total stays. Without a transaction to
    /// refer to, nothing changes.
    pub fn dispute(&mut self, disputed_tx: Option<&Transaction>)
        requires
            disputed_tx matches Some(t) ==> t.amount is Some && old(self)@.dispute(
                t.tx,
                t.units(),
            ).fits(),
        ensures
            final(self)@ == match disputed_tx {
                Some(t) => old(self)@.dispute(t.tx, t.units()),
                None => old(self)@,
            },
    {
        if let Some(tx) = disputed_tx {
            let dispute = tx.amount.unwrap() as i128;
            self.available -= dispute;
            self.held += dispute;
            self.disputed_tx.insert(tx.tx);
        }
    }

    /// A resolve ends a dispute and releases the held funds: held funds
    /// shrink and available funds grow by the amount of the transaction, the
    /// total stays. Nothing changes unless the transaction is under dispute.
    pub fn resolve(&mut self, resolved_tx: Option<&Transaction>)
        requires
            resolved_tx matches Some(t) ==> (old(self)@.disputed.contains(t.tx) ==> t.amount
                is Some && old(self)@.resolve(t.tx, t.units()).fits()),
        ensures
            final(self)@ == match resolved_tx {
                Some(t) => old(self)@.resolve(t.tx, t.units()),
                None => old(self)@,
            },
    {
        if let Some(tx) = resolved_tx {
            if self.disputed_tx.contains(&tx.tx) {
                let resolve = tx.amount.unwrap() as i128;
                self.held -= resolve;
                self.available += resolve;
                self.disputed_tx.remove(&tx.tx);
                self.resolved_tx.insert(tx.tx);
            }
        }
    }

    /// A chargeback reverses a transaction: held and total funds shrink by
    /// its amount and the account is locked. Nothing changes unless the
    /// dispute of the transaction was resolved before.
    pub fn chargeback(&mut self, chargeback_tx: Option<&Transaction>)
        requires
            chargeback_tx matches Some(t) ==> (old(self)@.resolved.contains(t.tx) ==> t.amount
                is Some && old(self)@.chargeback(t.tx, t.units()).fits()),
        ensures
            final(self)@ == match chargeback_tx {
                Some(t) => old(self)@.chargeback(t.tx, t.units()),
                None => old(self)@,
            },
    {
        if let Some(tx) = chargeback_tx {
            if self.resolved_tx.contains(&tx.tx) {
                let chargeback = tx.amount.unwrap() as i128;
                self.held -= chargeback;
                self.total -= chargeback;
                self.locked = true;
                self.resolved_tx.remove(&tx.tx);
            }
        }
    }

    /// Rounds every balance down to four decimal digits.
    pub fn format_4f(&mut self)
        requires
            old(self)@.format_4f().fits(),
        ensures
            final(self)@ == old(self)@.format_4f(),
    {
        self.available = floor_balance(self.available);
        self.held = floor_balance(self.held);
        self.total = floor_balance(self.total);
    }

    pub fn id(&self) -> (id: u16)
        ensures
            id == self@.client,
    {
        self.client
    }

    pub fn available(&self) -> (available: i128)
        ensures
            available == self@.available,
    {
        self.available
    }

    pub fn held(&self) -> (held: i128)
        ensures
            held == self@.held,
    {
        self.held
    }

    pub fn total(&self) -> (total: i128)
        ensures
            total == self@.total,
    {
        self.total
    }

    pub fn locked(&self) -> (locked: bool)
        ensures
            locked == self@.locked,
    {
        self.locked
    }
}

} // verus!
