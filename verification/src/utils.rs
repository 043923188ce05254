//! The ledger engine: it folds a log of rows into accounts and reports them.

use crate::amount::{balance_text, decimal_text, digits_text, integer_text, MAX_AMOUNT};
use crate::client::{Account, Client};
use crate::codec::{csv_rows, csv_text, read_rows, write_rows, ReportError};
use crate::ledger::{lemma_replay_sound, replay, Ledger};
use crate::transaction::{lemma_bytes_deep_view, Transaction, TransactionType};
use std::collections::HashMap;
use vstd::prelude::*;
use vstd::slice::slice_to_vec;
use vstd::std_specs::iter::IteratorSpec;

verus! {

/// The accounts that the stored clients stand for.
pub open spec fn accounts_of(clients: Map<u16, Client>) -> Map<u16, Account> {
    clients.map_values(|c: Client| c@)
}

/// The ledger that the engine's two tables stand for.
pub open spec fn ledger_of(
    clients: Map<u16, Client>,
    transactions: Map<u32, Transaction>,
) -> Ledger {
    Ledger { accounts: accounts_of(clients), transactions }
}

/// Applies one record to the tables.
fn apply(
    clients: &mut HashMap<u16, Client>,
    transactions: &mut HashMap<u32, Transaction>,
    tx: Transaction,
)
    requires
        ledger_of(old(clients)@, old(transactions)@).table_sound(),
        ledger_of(old(clients)@, old(transactions)@).accounts_sound(i128::MAX - MAX_AMOUNT),
        tx.units() <= MAX_AMOUNT,
    ensures
        ledger_of(final(clients)@, final(transactions)@) == ledger_of(
            old(clients)@,
            old(transactions)@,
        ).apply(tx),
{
    let ghost before = ledger_of(clients@, transactions@);
    match tx.tx_type {
        TransactionType::Deposit | TransactionType::Withdrawal => {
            if tx.amount.is_none() {
                return;
            }
        },
        _ => {},
    }
    assert(clients@.contains_key(tx.client) ==> before.accounts.contains_key(tx.client));
    let mut client = match clients.remove(&tx.client) {
        Some(client) => client,
        None => Client::new(tx.client),
    };
    assert(client@ == before.account(tx.client));

    match tx.tx_type {
        TransactionType::Deposit => {
            client.deposit(&tx);
            if !transactions.contains_key(&tx.tx) {
                transactions.insert(tx.tx, tx);
            }
        },
        TransactionType::Withdrawal => {
            client.withdrawal(&tx);
            if !transactions.contains_key(&tx.tx) {
                transactions.insert(tx.tx, tx);
            }
        },
        TransactionType::Dispute => {
            let reference = transactions.get(&tx.tx);
            assert(reference matches Some(r) ==> before.transactions.contains_key(tx.tx) && *r
                == before.transactions[tx.tx]);
            client.dispute(reference);
        },
        TransactionType::Resolve => {
            let reference = transactions.get(&tx.tx);
            assert(reference matches Some(r) ==> before.transactions.contains_key(tx.tx) && *r
                == before.transactions[tx.tx]);
            client.resolve(reference);
        },
        TransactionType::Chargeback => {
            let reference = transactions.get(&tx.tx);
            assert(reference matches Some(r) ==> before.transactions.contains_key(tx.tx) && *r
                == before.transactions[tx.tx]);
            client.chargeback(reference);
        },
    }
    clients.insert(tx.client, client);
    proof {
        assert(accounts_of(clients@) =~= before.accounts.insert(tx.client, before.moved(tx)));
        assert(transactions@ =~= before.apply(tx).transactions);
    }
}

/// Replays a log.
///
/// `rows` holds the rows of the log in order, each as its text fields, or
/// `None` for a row that could not be read. The result maps every client
/// that a record names to its account after the last row; see [`replay`].
pub fn process_transactions(rows: &Vec<Option<Vec<Vec<u8>>>>) -> (clients: HashMap<u16, Client>)
    ensures
        accounts_of(clients@) == replay(rows.deep_view()).accounts,
{
    let mut clients = HashMap::<u16, Client>::new();
    let mut transactions = HashMap::<u32, Transaction>::new();
    let ghost log = rows.deep_view();
    assert(ledger_of(clients@, transactions@) == Ledger::empty()) by {
        assert(accounts_of(clients@) =~= Map::empty());
    }

    let mut i: usize = 0;
    while i < rows.len()
        invariant
            i <= rows.len(),
            log == rows.deep_view(),
            ledger_of(clients@, transactions@) == replay(log.take(i as int)),
        decreases rows.len() - i,
    {
        proof {
            lemma_replay_sound(log.take(i as int));
            assert(log.take(i + 1).drop_last() =~= log.take(i as int));
            assert(log.take(i + 1).last() == rows@[i as int].deep_view());
            assert(i * MAX_AMOUNT <= i128::MAX - MAX_AMOUNT) by (nonlinear_arith)
                requires
                    0 <= i < 0x1_0000_0000_0000_0000,
                    MAX_AMOUNT == 0x7fff_ffff_ffff_ffff,
            ;
        }
        match &rows[i] {
            Some(fields) => {
                match Transaction::from_fields(fields) {
                    Some(record) => {
                        let mut tx = record;
                        tx.format_4f();
                        apply(&mut clients, &mut transactions, tx);
                    },
                    None => {},
                }
            },
            None => {},
        }
        i += 1;
    }
    proof {
        assert(log.take(rows.len() as int) =~= log);
    }
    clients
}

/// The bytes of ASCII text.
pub open spec fn ascii(text: Seq<char>) -> Seq<u8> {
    Seq::new(text.len(), |i: int| text[i] as u8)
}

/// The first row of a report: the names of the columns.
pub open spec fn header_row() -> Seq<Seq<u8>> {
    seq![
        ascii("client"@),
        ascii("available"@),
        ascii("held"@),
        ascii("total"@),
        ascii("locked"@),
    ]
}

/// The row that reports one account: its client id, what is available,
/// held and in total, each rounded down to four decimal digits, and
/// whether it is locked.
pub open spec fn account_row(a: Account) -> Seq<Seq<u8>> {
    seq![
        digits_text(a.client as nat),
        decimal_text(a.available),
        decimal_text(a.held),
        decimal_text(a.total),
        if a.locked {
            ascii("true"@)
        } else {
            ascii("false"@)
        },
    ]
}

/// The rows of the accounts of the clients below `n`, by ascending client.
pub open spec fn rows_below(accounts: Map<u16, Account>, n: nat) -> Seq<Seq<Seq<u8>>>
    decreases n,
{
    if n == 0 {
        Seq::empty()
    } else {
        let id = (n - 1) as u16;
        let rows = rows_below(accounts, (n - 1) as nat);
        if accounts.contains_key(id) {
            rows.push(account_row(accounts[id]))
        } else {
            rows
        }
    }
}

/// The report on `accounts`: the header row, then one row for each
/// account by ascending client id. The header row is always there, also
/// where there is no account to report.
pub open spec fn report(accounts: Map<u16, Account>) -> Seq<Seq<Seq<u8>>> {
    seq![header_row()] + rows_below(accounts, 0x1_0000)
}

/// The bytes of an ASCII word.
fn word_bytes(word: &str) -> (bytes: Vec<u8>)
    requires
        word.is_ascii(),
    ensures
        bytes@ == ascii(word@),
{
    broadcast use vstd::string::is_ascii_spec_bytes;

    slice_to_vec(word.as_bytes())
}

/// Pushing a field onto a row pushes its view onto the row's deep view.
proof fn lemma_push_field(row: Vec<Vec<u8>>, field: Vec<u8>, pushed: Vec<Vec<u8>>)
    requires
        pushed@ == row@.push(field),
    ensures
        pushed.deep_view() == row.deep_view().push(field@),
{
    lemma_bytes_deep_view(field);
    assert(pushed.deep_view() =~= row.deep_view().push(field@));
}

/// Pushing a row onto a report pushes its deep view onto the report's.
proof fn lemma_push_row(rows: Vec<Vec<Vec<u8>>>, row: Vec<Vec<u8>>, pushed: Vec<Vec<Vec<u8>>>)
    requires
        pushed@ == rows@.push(row),
    ensures
        pushed.deep_view() == rows.deep_view().push(row.deep_view()),
{
    assert(pushed.deep_view() =~= rows.deep_view().push(row.deep_view()));
}

/// Builds a row from its five fields.
fn row_of(a: Vec<u8>, b: Vec<u8>, c: Vec<u8>, d: Vec<u8>, e: Vec<u8>) -> (row: Vec<Vec<u8>>)
    ensures
        row.deep_view() == seq![a@, b@, c@, d@, e@],
{
    let mut row: Vec<Vec<u8>> = Vec::new();
    assert(row.deep_view() =~= Seq::<Seq<u8>>::empty());
    let ghost r0 = row;
    row.push(a);
    let ghost r1 = row;
    row.push(b);
    let ghost r2 = row;
    row.push(c);
    let ghost r3 = row;
    row.push(d);
    let ghost r4 = row;
    row.push(e);
    proof {
        lemma_push_field(r0, a, r1);
        lemma_push_field(r1, b, r2);
        lemma_push_field(r2, c, r3);
        lemma_push_field(r3, d, r4);
        lemma_push_field(r4, e, row);
        assert(row.deep_view() =~= seq![a@, b@, c@, d@, e@]);
    }
    row
}

/// Reports the accounts; see [`report`].
pub fn account_rows(clients: &HashMap<u16, Client>) -> (rows: Vec<Vec<Vec<u8>>>)
    ensures
        rows.deep_view() == report(accounts_of(clients@)),
{
    proof {
        reveal_strlit("client");
        reveal_strlit("available");
        reveal_strlit("held");
        reveal_strlit("total");
        reveal_strlit("locked");
        reveal_strlit("true");
        reveal_strlit("false");
    }
    let ghost accounts = accounts_of(clients@);
    let mut rows: Vec<Vec<Vec<u8>>> = Vec::new();
    let header = row_of(
        word_bytes("client"),
        word_bytes("available"),
        word_bytes("held"),
        word_bytes("total"),
        word_bytes("locked"),
    );
    assert(header.deep_view() == header_row());
    let ghost none = rows;
    rows.push(header);
    proof {
        lemma_push_row(none, header, rows);
        assert(rows.deep_view() =~= seq![header_row()] + rows_below(accounts, 0));
    }
    let mut n: u32 = 0;
    while n < 0x1_0000
        invariant
            n <= 0x1_0000,
            accounts == accounts_of(clients@),
            "true".is_ascii(),
            "false".is_ascii(),
            rows.deep_view() == seq![header_row()] + rows_below(accounts, n as nat),
        decreases 0x1_0000 - n,
    {
        let id: u16 = n as u16;
        match clients.get(&id) {
            Some(client) => {
                assert(accounts.contains_key(id) && accounts[id] == client@);
                let row = row_of(
                    integer_text(client.id() as u64),
                    balance_text(client.available()),
                    balance_text(client.held()),
                    balance_text(client.total()),
                    if client.locked() {
                        word_bytes("true")
                    } else {
                        word_bytes("false")
                    },
                );
                assert(row.deep_view() == account_row(client@));
                let ghost before = rows;
                rows.push(row);
                proof {
                    lemma_push_row(before, row, rows);
                    assert(rows.deep_view() =~= seq![header_row()] + rows_below(
                        accounts,
                        (n + 1) as nat,
                    ));
                }
            },
            None => {
                assert(!accounts.contains_key(id));
            },
        }
        n += 1;
    }
    rows
}

/// Runs the ledger on the text of a log and gives the text of the report.
///
/// The log is split into rows ([`csv_rows`]), the rows are replayed
/// ([`replay`]), the accounts are reported ([`report`]) and the report is
/// written out ([`csv_text`]). The run fails only where the report cannot
/// be written.
pub fn run(input: &[u8]) -> (output: Result<Vec<u8>, ReportError>)
    ensures
        match output {
            Ok(bytes) => csv_text(report(replay(csv_rows(input@)).accounts)) == Some(bytes@),
            Err(_) => csv_text(report(replay(csv_rows(input@)).accounts)) is None,
        },
{
    let rows = read_rows(input);
    let clients = process_transactions(&rows);
    let rows = account_rows(&clients);
    write_rows(&rows)
}

/// Whether `text` ends with `suffix`.
pub open spec fn ends_with(text: Seq<char>, suffix: Seq<char>) -> bool {
    text.len() >= suffix.len() && text.skip(text.len() - suffix.len()) == suffix
}

/// Checks the command line: the program's name, then the path of the log,
/// which must end in `.csv`.
pub fn parse_args(args: &Vec<String>) -> (ok: bool)
    ensures
        ok == (args@.len() >= 2 && ends_with(args@[1]@, ".csv"@)),
{
    if args.len() < 2 {
        return false;
    }
    let input_file = &args[1];
    let ghost path = input_file@;
    let mut chars = input_file.as_str().chars();
    let mut seen: usize = 0;
    let mut last = ('\0', '\0', '\0', '\0');
    let mut done = false;
    let ghost mut k: int = 0;
    proof {
        broadcast use vstd::string::axiom_spec_iter;

        assert(chars.remaining() =~= path.skip(0));
    }
    while !done
        invariant
            0 <= k <= path.len(),
            chars.remaining() == path.skip(k),
            done ==> k == path.len(),
            seen == if k < 4 {
                k
            } else {
                4
            },
            k >= 1 ==> last.3 == path[k - 1],
            k >= 2 ==> last.2 == path[k - 2],
            k >= 3 ==> last.1 == path[k - 3],
            k >= 4 ==> last.0 == path[k - 4],
        decreases
                if done {
                    0
                } else {
                    path.len() - k + 1
                },
    {
        broadcast use vstd::string::next_postcondition;

        let ghost before = chars;
        match chars.next() {
            Some(c) => {
                proof {
                    assert(path.skip(k).drop_first() =~= path.skip(k + 1));
                    assert(c == path[k]);
                    k = k + 1;
                }
                last = (last.1, last.2, last.3, c);
                if seen < 4 {
                    seen += 1;
                }
            },
            None => {
                done = true;
            },
        }
    }
    proof {
        reveal_strlit(".csv");
        if path.len() >= 4 {
            assert(path.skip(path.len() - 4) =~= seq![
                path[path.len() - 4],
                path[path.len() - 3],
                path[path.len() - 2],
                path[path.len() - 1],
            ]);
        }
        assert(".csv"@ =~= seq!['.', 'c', 's', 'v']);
    }
    seen == 4 && last.0 == '.' && last.1 == 'c' && last.2 == 's' && last.3 == 'v'
}

} // verus!
