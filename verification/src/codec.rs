//! The comma-separated text that logs and reports are written in.
//!
//! Splitting a log into rows and quoting the fields of a report is the work
//! of the `csv` crate. What it returns is named here, not restated:
//! [`csv_rows`] for reading and [`csv_line`] for writing.

use vstd::prelude::*;

verus! {

/// The error of the `csv` crate. Nothing is known of what it holds; it is
/// only handed on.
#[verifier::external_type_specification]
#[verifier::external_body]
pub struct ExCsvError(csv::Error);

/// The rows that a `csv` reader yields for the text `input`, in order.
///
/// The reader takes the first row for a header and does not yield it,
/// separates fields by `,`, accepts rows of any number of fields, and
/// trims white space from both ends of every field. Each row is the bytes
/// of its fields, or `None` where the reader reports an error for it.
pub uninterp spec fn csv_rows(input: Seq<u8>) -> Seq<Option<Seq<Seq<u8>>>>;

/// The text that a `csv` writer produces for one row of `fields`: the
/// fields separated by `,`, quoted where need be, and ended by a carriage
/// return and a line feed; `None` where the writer reports an error.
pub uninterp spec fn csv_line(fields: Seq<Seq<u8>>) -> Option<Seq<u8>>;

/// Why a report could not be written.
#[derive(Debug)]
pub enum ReportError {
    /// The writer refused a row.
    Row(csv::Error),
}

/// Calls `csv::Reader::records` on a reader over `input`, built by
/// `csv::ReaderBuilder` with headers, the delimiter `,`, flexible row
/// lengths and trimming of all fields. The contract claims only that the
/// rows are a function of the bytes of `input`, which [`csv_rows`] names.
#[verifier::external_body]
pub(crate) fn read_rows(input: &[u8]) -> (rows: Vec<Option<Vec<Vec<u8>>>>)
    ensures
        rows.deep_view() == csv_rows(input@),
{
    let mut reader = csv::ReaderBuilder::new()
        .has_headers(true)
        .delimiter(b',')
        .flexible(true)
        .trim(csv::Trim::All)
        .from_reader(input);
    reader.records().map(
        |row| row.ok().map(|record| record.iter().map(|field| field.as_bytes().to_vec()).collect()),
    ).collect()
}

/// Calls `csv::Writer::write_record` with `fields` on a fresh writer into
/// memory, built by `csv::WriterBuilder` with the delimiter `,` and the
/// terminator CRLF, and takes the bytes back with `csv::Writer::into_inner`.
/// The contract claims only that the outcome is a function of `fields`,
/// which [`csv_line`] names: its text on success, `None` on an error.
#[verifier::external_body]
pub(crate) fn write_line(fields: &Vec<Vec<u8>>) -> (line: Result<Vec<u8>, csv::Error>)
    ensures
        match line {
            Ok(bytes) => csv_line(fields.deep_view()) == Some(bytes@),
            Err(_) => csv_line(fields.deep_view()) is None,
        },
{
    let mut writer = csv::WriterBuilder::new()
        .has_headers(true)
        .delimiter(b',')
        .terminator(csv::Terminator::CRLF)
        .from_writer(Vec::new());
    writer.write_record(fields)?;
    writer.into_inner().map_err(|e| csv::Error::from(e.into_error()))
}

/// The text of a whole report: the lines of its rows, one after the other;
/// `None` if any row has none.
pub open spec fn csv_text(rows: Seq<Seq<Seq<u8>>>) -> Option<Seq<u8>>
    decreases rows.len(),
{
    if rows.len() == 0 {
        Some(Seq::empty())
    } else {
        match (csv_text(rows.drop_last()), csv_line(rows.last())) {
            (Some(text), Some(line)) => Some(text + line),
            _ => None,
        }
    }
}

/// A report has no text if one of its first rows has none.
proof fn lemma_csv_text_prefix(rows: Seq<Seq<Seq<u8>>>, k: int)
    requires
        0 <= k <= rows.len(),
        csv_text(rows.take(k)) is None,
    ensures
        csv_text(rows) is None,
    decreases rows.len(),
{
    if k == rows.len() {
        assert(rows.take(k) =~= rows);
    } else {
        assert(rows.drop_last().take(k) =~= rows.take(k));
        lemma_csv_text_prefix(rows.drop_last(), k);
    }
}

/// Writes a report as text, row by row; see [`csv_text`]. It fails at
/// the first row that the writer refuses.
pub fn write_rows(rows: &Vec<Vec<Vec<u8>>>) -> (text: Result<Vec<u8>, ReportError>)
    ensures
        match text {
            Ok(bytes) => csv_text(rows.deep_view()) == Some(bytes@),
            Err(_) => csv_text(rows.deep_view()) is None,
        },
{
    let ghost all = rows.deep_view();
    let mut text: Vec<u8> = Vec::new();
    let mut i: usize = 0;
    while i < rows.len()
        invariant
            i <= rows.len(),
            all == rows.deep_view(),
            csv_text(all.take(i as int)) == Some(text@),
        decreases rows.len() - i,
    {
        proof {
            assert(all.take(i + 1).drop_last() =~= all.take(i as int));
            assert(all.take(i + 1).last() == rows@[i as int].deep_view());
        }
        match write_line(&rows[i]) {
            Ok(mut line) => {
                text.append(&mut line);
            },
            Err(e) => {
                proof {
                    lemma_csv_text_prefix(all, i + 1);
                }
                return Err(ReportError::Row(e));
            },
        }
        i += 1;
    }
    proof {
        assert(all.take(rows.len() as int) =~= all);
    }
    Ok(text)
}

} // verus!
