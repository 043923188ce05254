//! The records of the log.

use crate::amount::{
    amount_value, bounded_integer, floor_4f, floor_amount, parse_amount, parse_integer,
};
use vstd::prelude::*;
use vstd::std_specs::cmp::PartialEqSpecImpl;

verus! {

/// What a record asks the ledger to do.
#[derive(Clone, Copy, Debug, PartialEq, Eq, Structural)]
pub enum TransactionType {
    Deposit,
    Withdrawal,
    Dispute,
    Resolve,
    Chargeback,
}

/// The lower-case form of an ASCII letter; any other byte as it is.
pub open spec fn ascii_lower(b: u8) -> u8 {
    if 0x41 <= b <= 0x5a {
        (b + 0x20) as u8
    } else {
        b
    }
}

/// Whether `name` spells the lower-case ASCII `word`, in any mix of cases.
pub open spec fn spells(name: Seq<u8>, word: Seq<char>) -> bool {
    &&& name.len() == word.len()
    &&& forall|i: int| 0 <= i < name.len() ==> ascii_lower(#[trigger] name[i]) == word[i] as u8
}

/// The kind that `name` spells, if it spells one.
pub open spec fn kind_of_name(name: Seq<u8>) -> Option<TransactionType> {
    if spells(name, "deposit"@) {
        Some(TransactionType::Deposit)
    } else if spells(name, "withdrawal"@) {
        Some(TransactionType::Withdrawal)
    } else if spells(name, "dispute"@) {
        Some(TransactionType::Dispute)
    } else if spells(name, "resolve"@) {
        Some(TransactionType::Resolve)
    } else if spells(name, "chargeback"@) {
        Some(TransactionType::Chargeback)
    } else {
        None
    }
}

/// Compares `name` with the ASCII `word`, ignoring the case of `name`.
fn spells_word(name: &[u8], word: &str) -> (r: bool)
    requires
        word.is_ascii(),
    ensures
        r == spells(name@, word@),
{
    broadcast use vstd::string::is_ascii_spec_bytes;

    let bytes = word.as_bytes();
    assert(bytes@ =~= Seq::new(word@.len(), |i: int| word@[i] as u8));
    if name.len() != bytes.len() {
        return false;
    }
    let mut i: usize = 0;
    while i < name.len()
        invariant
            i <= name@.len() == bytes@.len() == word@.len(),
            forall|j: int| 0 <= j < bytes@.len() ==> bytes@[j] == word@[j] as u8,
            forall|j: int| 0 <= j < i ==> ascii_lower(#[trigger] name@[j]) == word@[j] as u8,
        decreases name@.len() - i,
    {
        let b: u8 = name[i];
        let lower: u8 = if 0x41 <= b && b <= 0x5a {
            b + 0x20
        } else {
            b
        };
        if lower != bytes[i] {
            return false;
        }
        i += 1;
    }
    true
}

impl TransactionType {
    /// Reads a kind from its name, in any mix of upper and lower case.
    pub fn from_name(name: &[u8]) -> (kind: Option<TransactionType>)
        ensures
            kind == kind_of_name(name@),
    {
        proof {
            reveal_strlit("deposit");
            reveal_strlit("withdrawal");
            reveal_strlit("dispute");
            reveal_strlit("resolve");
            reveal_strlit("chargeback");
        }
        if spells_word(name, "deposit") {
            Some(TransactionType::Deposit)
        } else if spells_word(name, "withdrawal") {
            Some(TransactionType::Withdrawal)
        } else if spells_word(name, "dispute") {
            Some(TransactionType::Dispute)
        } else if spells_word(name, "resolve") {
            Some(TransactionType::Resolve)
        } else if spells_word(name, "chargeback") {
            Some(TransactionType::Chargeback)
        } else {
            None
        }
    }

    /// Whether a record of this kind must carry an amount.
    pub open spec fn needs_amount(self) -> bool {
        self is Deposit || self is Withdrawal
    }
}

/// One record of the log.
///
/// A deposit or withdrawal carries its own transaction id and an amount in
/// millionths. A dispute, resolve or chargeback carries the id of the deposit
/// or withdrawal it refers to, and no amount.
#[derive(Clone, Copy, Debug)]
pub struct Transaction {
    pub tx_type: TransactionType,
    pub client: u16,
    pub tx: u32,
    pub amount: Option<u64>,
}

/// Two records are the same transaction when they carry the same id.
impl PartialEq for Transaction {
    fn eq(&self, other: &Self) -> (r: bool) {
        self.tx == other.tx
    }
}

impl PartialEqSpecImpl for Transaction {
    open spec fn obeys_eq_spec() -> bool {
        true
    }

    open spec fn eq_spec(&self, other: &Self) -> bool {
        self.tx == other.tx
    }
}

impl Eq for Transaction {

}

/// An optional amount rounded down to four decimal digits.
pub open spec fn floor_4f_opt(amount: Option<u64>) -> Option<u64> {
    match amount {
        Some(a) => Some(floor_4f(a as int) as u64),
        None => None,
    }
}

impl Transaction {
    /// A record of the given kind, client, transaction id and amount.
    pub fn new(tx_type: TransactionType, client: u16, tx: u32, amount: Option<u64>) -> (t: Self)
        ensures
            t == (Transaction { tx_type, client, tx, amount }),
    {
        Self { tx_type, client, tx, amount }
    }

    /// The amount of this record in millionths; 0 where it carries none.
    pub open spec fn units(self) -> int {
        match self.amount {
            Some(a) => a as int,
            None => 0,
        }
    }

    /// This record with its amount rounded down to four decimal digits.
    pub open spec fn normalized(self) -> Transaction {
        Transaction { amount: floor_4f_opt(self.amount), ..self }
    }

    /// Rounds the amount down to four decimal digits; a record without an
    /// amount is left as it is.
    pub fn format_4f(&mut self)
        ensures
            *final(self) == old(self).normalized(),
    {
        if let Some(a) = self.amount {
            self.amount = Some(floor_amount(a));
        }
    }
}

/// The amount that the fields of a row give: `Some(None)` where the
/// fourth field is missing or empty, `Some(Some(a))` where it writes the
/// amount `a`, and `None` where it writes no amount that a record can carry.
pub open spec fn amount_of_fields(fields: Seq<Seq<u8>>) -> Option<Option<u64>> {
    if fields.len() < 4 || fields[3].len() == 0 {
        Some(None)
    } else {
        match amount_value(fields[3]) {
            Some(a) => Some(Some(a)),
            None => None,
        }
    }
}

/// The record that a row of text fields writes, if it writes one.
///
/// The fields are, in this order, the kind, the client id, the transaction
/// id and the amount. The amount may be missing or empty, but not on a
/// deposit or a withdrawal. Fields after the fourth are ignored.
pub open spec fn record_of(fields: Seq<Seq<u8>>) -> Option<Transaction> {
    if fields.len() < 3 {
        None
    } else {
        match (
            kind_of_name(fields[0]),
            bounded_integer(fields[1], 0xffff),
            bounded_integer(fields[2], 0xffff_ffff),
            amount_of_fields(fields),
        ) {
            (Some(tx_type), Some(client), Some(tx), Some(amount)) => if tx_type.needs_amount()
                && amount is None {
                None
            } else {
                Some(Transaction { tx_type, client: client as u16, tx: tx as u32, amount })
            },
            _ => None,
        }
    }
}

/// The deep view of a byte string is its view.
pub proof fn lemma_bytes_deep_view(bytes: Vec<u8>)
    ensures
        bytes.deep_view() == bytes@,
{
    assert(bytes.deep_view() =~= bytes@);
}

/// The deep view of a row holds the views of its fields.
pub proof fn lemma_fields_deep_view(fields: Vec<Vec<u8>>)
    ensures
        fields.deep_view().len() == fields@.len(),
        forall|i: int| 0 <= i < fields@.len() ==> #[trigger] fields.deep_view()[i] == fields@[i]@,
{
    assert forall|i: int| 0 <= i < fields@.len() implies #[trigger] fields.deep_view()[i]
        == fields@[i]@ by {
        lemma_bytes_deep_view(fields@[i]);
    }
}

impl Transaction {
    /// Reads a record from the text fields of a row; see [`record_of`].
    pub fn from_fields(fields: &Vec<Vec<u8>>) -> (record: Option<Transaction>)
        ensures
            record == record_of(fields.deep_view()),
    {
        proof {
            lemma_fields_deep_view(*fields);
        }
        if fields.len() < 3 {
            return None;
        }
        let tx_type = match TransactionType::from_name(fields[0].as_slice()) {
            Some(tx_type) => tx_type,
            None => {
                return None;
            },
        };
        let client: u16 = match parse_integer(fields[1].as_slice(), 0xffff) {
            Some(client) => client as u16,
            None => {
                return None;
            },
        };
        let tx: u32 = match parse_integer(fields[2].as_slice(), 0xffff_ffff) {
            Some(tx) => tx as u32,
            None => {
                return None;
            },
        };
        let amount: Option<u64> = if fields.len() < 4 || fields[3].len() == 0 {
            None
        } else {
            match parse_amount(fields[3].as_slice()) {
                Some(amount) => Some(amount),
                None => {
                    return None;
                },
            }
        };
        match tx_type {
            TransactionType::Deposit | TransactionType::Withdrawal => {
                if amount.is_none() {
                    return None;
                }
            },
            _ => {},
        }
        Some(Transaction { tx_type, client, tx, amount })
    }
}

} // verus!
