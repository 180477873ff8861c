//! Writing a header row and data rows out as delimited text.

use vstd::prelude::*;
use crate::table::{grid, texts, TableError, TableErrorView, WriteStage};
use crate::text::decimal;

verus! {

/// A `csv::Writer` that collects its output in a vector. The writer is held
/// whole and opaque: its type is bounded by `std::io::Write`, which cannot
/// be declared.
#[verifier::external_body]
pub struct RecordWriter {
    inner: csv::Writer<Vec<u8>>,
}

/// The bytes that writing one record of these fields adds to the output:
/// the fields, quoted where they need it, parted by commas and ended by a
/// line feed.
pub uninterp spec fn csv_record_bytes(fields: Seq<Seq<char>>) -> Seq<u8>;

/// The bytes that a writer has been given to write so far.
pub uninterp spec fn writer_bytes(writer: RecordWriter) -> Seq<u8>;

/// The number of fields of the first record that a writer wrote, if it
/// wrote one.
pub uninterp spec fn writer_width(writer: RecordWriter) -> Option<nat>;

/// `csv::Writer::from_writer` on an empty vector: nothing is written yet.
#[verifier::external_body]
fn new_writer() -> (writer: RecordWriter)
    ensures
        writer_bytes(writer) == Seq::<u8>::empty(),
        writer_width(writer) is None,
{
    RecordWriter { inner: csv::Writer::from_writer(Vec::new()) }
}

/// `csv::Writer::write_record` adds one record to the output. With the
/// default of rigid records it fails on a record whose number of fields
/// differs from that of the first record written, and, the target being a
/// vector that takes every write, on nothing else. The error comes back as
/// the text that it displays as, which names both numbers. A writer that
/// has refused a record is not handed back: every writer at hand has all
/// its records complete.
#[verifier::external_body]
fn write_record(writer: RecordWriter, fields: &Vec<String>) -> (r: Result<RecordWriter, String>)
    ensures
        r is Ok <==> fits(writer_width(writer), fields@.len()),
        r matches Ok(next) ==> writer_bytes(next) == writer_bytes(writer) + csv_record_bytes(
            texts(fields@),
        ),
        r matches Ok(next) ==> writer_width(next) == Some(fields@.len()),
        r matches Err(detail) ==> detail@ == width_error(writer_width(writer)->0, fields@.len()),
{
    let mut writer = writer;
    match writer.inner.write_record(fields) {
        Ok(()) => Ok(writer),
        Err(error) => Err(error.to_string()),
    }
}

/// What is said of a record of `found` fields that follows on records of
/// `expected` fields.
pub open spec fn width_error(expected: nat, found: nat) -> Seq<char> {
    "CSV error: found record with "@ + decimal(found)
        + " fields, but the previous record has "@ + decimal(expected) + " fields"@
}

/// `csv::Writer::into_inner` flushes the writer and hands back the vector
/// with everything that was written; flushing into a vector does not fail.
#[verifier::external_body]
fn finish_writer(writer: RecordWriter) -> (r: Option<Vec<u8>>)
    ensures
        r is Some,
        r->0@ == writer_bytes(writer),
{
    writer.inner.into_inner().ok()
}

/// Whether a record of `len` fields may follow on what a writer has
/// written: any record may come first, and every later one has the width of
/// the first.
pub open spec fn fits(width: Option<nat>, len: nat) -> bool {
    match width {
        Some(first) => first == len,
        None => true,
    }
}

/// The bytes of a run of records, one after the other.
pub open spec fn encoded_rows(rows: Seq<Seq<Seq<char>>>) -> Seq<u8>
    decreases rows.len(),
{
    if rows.len() == 0 {
        Seq::empty()
    } else {
        encoded_rows(rows.drop_last()) + csv_record_bytes(rows.last())
    }
}

/// The bytes of an export: the header record, then the data records.
pub open spec fn exported(headers: Seq<Seq<char>>, data: Seq<Seq<Seq<char>>>) -> Seq<u8> {
    csv_record_bytes(headers) + encoded_rows(data)
}

/// Every data row has as many fields as the header row.
pub open spec fn uniform(headers: Seq<Seq<char>>, data: Seq<Seq<Seq<char>>>) -> bool {
    forall|i: int| 0 <= i < data.len() ==> (#[trigger] data[i]).len() == headers.len()
}

/// The number of leading rows that have `width` fields.
pub open spec fn fitting_rows(width: nat, data: Seq<Seq<Seq<char>>>) -> nat
    decreases data.len(),
{
    if data.len() == 0 {
        0
    } else if data[0].len() != width {
        0
    } else {
        1 + fitting_rows(width, data.drop_first())
    }
}

/// The number of leading rows of the right width is the position of the
/// first row of another width, or the number of rows where there is none.
pub proof fn lemma_fitting_rows(width: nat, data: Seq<Seq<Seq<char>>>, n: nat)
    requires
        n <= data.len(),
        forall|k: int| 0 <= k < n ==> (#[trigger] data[k]).len() == width,
        n < data.len() ==> data[n as int].len() != width,
    ensures
        fitting_rows(width, data) == n,
    decreases data.len(),
{
    if n > 0 {
        let rest = data.drop_first();
        assert forall|k: int| 0 <= k < n - 1 implies (#[trigger] rest[k]).len() == width by {
            assert(rest[k] == data[k + 1]);
        }
        lemma_fitting_rows(width, rest, (n - 1) as nat);
    }
}

/// What an export gives: the bytes where every row has the header's width,
/// else the error of the first row of another width, which names both
/// widths.
pub open spec fn export_outcome(headers: Seq<Seq<char>>, data: Seq<Seq<Seq<char>>>) -> Result<
    Seq<u8>,
    TableErrorView,
> {
    let n = fitting_rows(headers.len(), data);
    if n == data.len() {
        Ok(exported(headers, data))
    } else {
        Err(
            TableErrorView::WriteError {
                stage: WriteStage::Row,
                detail: width_error(headers.len(), data[n as int].len()),
            },
        )
    }
}

/// The outcome of an export, as mathematical values.
pub open spec fn export_view(r: Result<Vec<u8>, TableError>) -> Result<Seq<u8>, TableErrorView> {
    match r {
        Ok(bytes) => Ok(bytes@),
        Err(error) => Err(error@),
    }
}

/// The bytes of the header row alone, as an export begins with them.
pub fn export_header(headers: &Vec<String>) -> (bytes: Vec<u8>)
    ensures
        bytes@ == csv_record_bytes(texts(headers@)),
{
    match write_record(new_writer(), headers) {
        Ok(writer) => match finish_writer(writer) {
            Some(bytes) => bytes,
            None => Vec::new(),
        },
        Err(_) => Vec::new(),
    }
}

/// Writes the header row and then every data row as delimited text and
/// gives the bytes. A row whose number of fields differs from that of the
/// header row is refused, and nothing is given then.
pub fn export_to_csv(data: Vec<Vec<String>>, headers: Vec<String>) -> (r: Result<
    Vec<u8>,
    TableError,
>)
    ensures
        export_view(r) == export_outcome(texts(headers@), grid(data@)),
        r is Ok <==> uniform(texts(headers@), grid(data@)),
{
    let mut writer = match write_record(new_writer(), &headers) {
        Ok(writer) => writer,
        Err(detail) => {
            return Err(TableError::WriteError { stage: WriteStage::Headers, detail });
        },
    };
    let ghost rows = grid(data@);
    let total = data.len();
    let mut i: usize = 0;
    assert(rows.take(0) =~= Seq::<Seq<Seq<char>>>::empty());
    while i < total
        invariant
            i <= total == data@.len(),
            rows == grid(data@),
            writer_width(writer) == Some(headers@.len() as nat),
            writer_bytes(writer) == csv_record_bytes(texts(headers@)) + encoded_rows(
                rows.take(i as int),
            ),
            forall|k: int| 0 <= k < i ==> (#[trigger] rows[k]).len() == headers@.len(),
        decreases total - i,
    {
        writer = match write_record(writer, &data[i]) {
            Ok(next) => next,
            Err(detail) => {
                proof {
                    assert(rows[i as int].len() != headers@.len());
                    lemma_fitting_rows(headers@.len() as nat, rows, i as nat);
                }
                return Err(TableError::WriteError { stage: WriteStage::Row, detail });
            },
        };
        proof {
            assert(rows.take(i + 1).drop_last() =~= rows.take(i as int));
            assert(rows.take(i + 1).last() == texts(data@[i as int]@));
            assert(rows[i as int].len() == headers@.len());
        }
        i += 1;
    }
    proof {
        assert(rows.take(total as int) =~= rows);
        lemma_fitting_rows(headers@.len() as nat, rows, total as nat);
    }
    match finish_writer(writer) {
        Some(bytes) => Ok(bytes),
        None => Err(TableError::WriteError { stage: WriteStage::Flush, detail: String::new() }),
    }
}

} // verus!
