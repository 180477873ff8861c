//! Reading delimited text into a table: the header row gives the column
//! labels, every later record is a data row, and the first rows are kept as
//! the preview.

use vstd::prelude::*;
use crate::encoding::{decode, decoded_text, detect_encoding, detected, MAX_DECODE_LEN};
use crate::text::push_text;
use crate::table::{
    counted, file_name_of, final_segment, grid, least, outcome_view, texts, FileReadResult,
    TableError, TableErrorView, TableView, PREVIEW_LIMIT,
};

verus! {

/// `csv::Reader`: a parser of delimited records over a source of bytes.
#[verifier::external_type_specification]
#[verifier::external_body]
#[verifier::reject_recursive_types(R)]
pub struct ExReader<R>(csv::Reader<R>);

/// The header row of delimited text, as the fields of its first record, or
/// the parser's description of why that record cannot be read.
pub uninterp spec fn csv_header(text: Seq<char>) -> Result<Seq<Seq<char>>, Seq<char>>;

/// The data records of delimited text, in order, each as its fields, or as
/// the parser's description of what is malformed in it.
pub uninterp spec fn csv_rows(text: Seq<char>) -> Seq<Result<Seq<Seq<char>>, Seq<char>>>;

/// The header row that a reader gives.
pub uninterp spec fn reader_header(reader: csv::Reader<&[u8]>) -> Result<
    Seq<Seq<char>>,
    Seq<char>,
>;

/// The data records that a reader has yet to give, in order.
pub uninterp spec fn reader_rows(reader: csv::Reader<&[u8]>) -> Seq<
    Result<Seq<Seq<char>>, Seq<char>>,
>;

/// Every well-formed record has as many fields as the header row.
pub open spec fn rows_fit_header(
    header: Result<Seq<Seq<char>>, Seq<char>>,
    rows: Seq<Result<Seq<Seq<char>>, Seq<char>>>,
) -> bool {
    forall|i: int|
        0 <= i < rows.len() && header is Ok && (#[trigger] rows[i]) is Ok ==> rows[i]->Ok_0.len()
            == header->Ok_0.len()
}

/// A record, or the description of what is wrong with it, as mathematical
/// values.
pub open spec fn record_view(record: Result<Vec<String>, String>) -> Result<
    Seq<Seq<char>>,
    Seq<char>,
> {
    match record {
        Ok(fields) => Ok(texts(fields@)),
        Err(detail) => Err(detail@),
    }
}

/// `csv::ReaderBuilder::from_reader` with `has_headers(true)`: the reader
/// parses the text's bytes. With the default of rigid records, a record whose
/// number of fields differs from that of the first record is an error.
#[verifier::external_body]
fn open_reader<'a>(text: &'a str) -> (reader: csv::Reader<&'a [u8]>)
    ensures
        reader_header(reader) == csv_header(text@),
        reader_rows(reader) == csv_rows(text@),
        rows_fit_header(reader_header(reader), reader_rows(reader)),
{
    csv::ReaderBuilder::new().has_headers(true).from_reader(text.as_bytes())
}

/// `csv::Reader::headers` gives the first record and leaves the data records
/// where they are; an error comes back as the text that it displays as.
#[verifier::external_body]
fn read_header(reader: &mut csv::Reader<&[u8]>) -> (r: Result<Vec<String>, String>)
    ensures
        record_view(r) == reader_header(*old(reader)),
        reader_header(*final(reader)) == reader_header(*old(reader)),
        reader_rows(*final(reader)) == reader_rows(*old(reader)),
{
    match reader.headers() {
        Ok(header) => Ok(header.iter().map(|f| f.to_string()).collect()),
        Err(error) => Err(error.to_string()),
    }
}

/// `csv::Reader::records`, one step of it: gives the next data record, or
/// the text that its error displays as, and moves past it; gives nothing
/// once no record is left.
#[verifier::external_body]
fn next_record(reader: &mut csv::Reader<&[u8]>) -> (r: Option<Result<Vec<String>, String>>)
    ensures
        match r {
            Some(record) => reader_rows(*old(reader)).len() > 0 && record_view(record)
                == reader_rows(*old(reader))[0] && reader_rows(*final(reader)) == reader_rows(
                *old(reader),
            ).drop_first(),
            None => reader_rows(*old(reader)).len() == 0 && reader_rows(*final(reader))
                == reader_rows(*old(reader)),
        },
{
    match reader.records().next() {
        Some(Ok(record)) => Some(Ok(record.iter().map(|f| f.to_string()).collect())),
        Some(Err(error)) => Some(Err(error.to_string())),
        None => None,
    }
}

/// The number of well-formed records before the first malformed one.
pub open spec fn good_rows(rows: Seq<Result<Seq<Seq<char>>, Seq<char>>>) -> nat
    decreases rows.len(),
{
    if rows.len() == 0 {
        0
    } else if rows[0] is Err {
        0
    } else {
        1 + good_rows(rows.drop_first())
    }
}

/// The fields of the first `n` records.
pub open spec fn row_values(rows: Seq<Result<Seq<Seq<char>>, Seq<char>>>, n: nat) -> Seq<
    Seq<Seq<char>>,
> {
    Seq::new(n, |k: int| rows[k]->Ok_0)
}

/// What a header row and data records make: an error where the header cannot
/// be read or a record is malformed, with the 0-based index of the first
/// such record and the parser's description of it; else the table with the
/// header as labels, the number of records as row count and the records
/// whose index is below the preview limit as preview.
pub open spec fn delimited_outcome(
    header: Result<Seq<Seq<char>>, Seq<char>>,
    rows: Seq<Result<Seq<Seq<char>>, Seq<char>>>,
    file_name: Seq<char>,
) -> Result<TableView, TableErrorView> {
    match header {
        Err(detail) => Err(TableErrorView::HeaderError { detail }),
        Ok(columns) => {
            let n = good_rows(rows);
            if n < rows.len() {
                Err(
                    TableErrorView::ParseError {
                        row_index: counted(n),
                        detail: rows[n as int]->Err_0,
                    },
                )
            } else {
                Ok(
                    TableView {
                        columns,
                        row_count: counted(n),
                        data_preview: row_values(rows, least(n, PREVIEW_LIMIT as nat)),
                        file_name,
                    },
                )
            }
        },
    }
}

/// What is said of content that is longer than the decoder takes.
pub const TOO_LONG: &'static str = "the content is too long to decode";

/// What the bytes of a delimited file give when read under a file name:
/// the encoding is detected from the leading bytes, the whole is decoded
/// under it, and the text is parsed.
pub open spec fn csv_outcome(content: Seq<u8>, file_name: Seq<char>) -> Result<
    TableView,
    TableErrorView,
> {
    if content.len() > MAX_DECODE_LEN {
        Err(TableErrorView::DecodeFailure { detail: TOO_LONG@ })
    } else {
        let text = decoded_text(detected(content), content);
        delimited_outcome(csv_header(text), csv_rows(text), file_name)
    }
}

/// The number of leading well-formed records is the position of the first
/// malformed record, or the number of records where none is malformed.
pub proof fn lemma_good_rows(rows: Seq<Result<Seq<Seq<char>>, Seq<char>>>, n: nat)
    requires
        n <= rows.len(),
        forall|k: int| 0 <= k < n ==> (#[trigger] rows[k]) is Ok,
        n < rows.len() ==> rows[n as int] is Err,
    ensures
        good_rows(rows) == n,
    decreases rows.len(),
{
    if n > 0 {
        let rest = rows.drop_first();
        assert forall|k: int| 0 <= k < n - 1 implies (#[trigger] rest[k]) is Ok by {
            assert(rest[k] == rows[k + 1]);
        }
        lemma_good_rows(rest, (n - 1) as nat);
    }
}

/// The running summary of the data rows seen so far: how many there were,
/// and the first of them, up to the preview limit.
pub struct RowCollector {
    pub count: usize,
    pub preview: Vec<Vec<String>>,
}

impl RowCollector {
    /// Whether the collector holds the summary of exactly these rows.
    pub open spec fn summarizes(&self, rows: Seq<Seq<Seq<char>>>) -> bool {
        &&& self.count == counted(rows.len())
        &&& grid(self.preview@) == rows.take(least(rows.len(), PREVIEW_LIMIT as nat) as int)
    }

    /// A collector that has seen no row.
    pub fn new() -> (collector: RowCollector)
        ensures
            collector.count == 0,
            collector.preview@.len() == 0,
            collector.summarizes(Seq::empty()),
    {
        let collector = RowCollector { count: 0, preview: Vec::new() };
        assert(grid(collector.preview@) =~= Seq::<Seq<Seq<char>>>::empty().take(0));
        collector
    }

    /// Takes one more data row: it is counted, and kept where fewer rows
    /// than the preview limit came before it.
    pub fn accept(&mut self, row: Vec<String>)
        ensures
            final(self).count == counted((old(self).count + 1) as nat),
            grid(final(self).preview@) == if old(self).count < PREVIEW_LIMIT {
                grid(old(self).preview@).push(texts(row@))
            } else {
                grid(old(self).preview@)
            },
            forall|rows: Seq<Seq<Seq<char>>>| #[trigger]
                old(self).summarizes(rows) ==> final(self).summarizes(rows.push(texts(row@))),
    {
        let ghost before = grid(self.preview@);
        if self.count < PREVIEW_LIMIT {
            self.preview.push(row);
            assert(grid(self.preview@) =~= before.push(texts(row@)));
        }
        if self.count < usize::MAX {
            self.count = self.count + 1;
        }
        assert forall|rows: Seq<Seq<Seq<char>>>| #[trigger]
            old(self).summarizes(rows) implies self.summarizes(rows.push(texts(row@))) by {
            let more = rows.push(texts(row@));
            if rows.len() < PREVIEW_LIMIT {
                assert(rows.take(rows.len() as int) =~= rows);
                assert(more.take(more.len() as int) =~= more);
            } else {
                assert(more.take(PREVIEW_LIMIT as int) =~= rows.take(PREVIEW_LIMIT as int));
            }
        }
    }

    /// The table of the rows seen, under the given labels and file name.
    pub fn finish(self, columns: Vec<String>, file_name: String) -> (table: FileReadResult)
        ensures
            table@ == (TableView {
                columns: texts(columns@),
                row_count: self.count as nat,
                data_preview: grid(self.preview@),
                file_name: file_name@,
            }),
    {
        FileReadResult {
            columns,
            row_count: self.count,
            data_preview: self.preview,
            file_name,
        }
    }
}

/// The records as mathematical values.
pub open spec fn records_view(rows: Seq<Result<Vec<String>, String>>) -> Seq<
    Result<Seq<Seq<char>>, Seq<char>>,
> {
    Seq::new(rows.len(), |i: int| record_view(rows[i]))
}

/// Builds the table of a header row and data records that are already at
/// hand; an `Err` holds the description of what could not be read.
pub fn table_from_records(
    header: Result<Vec<String>, String>,
    rows: Vec<Result<Vec<String>, String>>,
    file_name: String,
) -> (r: Result<FileReadResult, TableError>)
    ensures
        outcome_view(r) == delimited_outcome(record_view(header), records_view(rows@), file_name@),
        rows_fit_header(record_view(header), records_view(rows@)) ==> (r matches Ok(table)
            ==> table.well_formed()),
{
    let ghost labels = record_view(header);
    let ghost model = records_view(rows@);
    let columns = match header {
        Ok(columns) => columns,
        Err(detail) => {
            return Err(TableError::HeaderError { detail });
        },
    };
    let mut collector = RowCollector::new();
    let mut pending = rows;
    let total = pending.len();
    let mut i: usize = 0;
    assert(row_values(model, 0) =~= Seq::empty());
    while i < total
        invariant
            i <= total == pending@.len(),
            model.len() == total,
            model == records_view(rows@),
            labels == record_view(header),
            labels == Ok::<Seq<Seq<char>>, Seq<char>>(texts(columns@)),
            forall|k: int| i <= k < total ==> record_view(#[trigger] pending@[k]) == model[k],
            forall|k: int| 0 <= k < i ==> (#[trigger] model[k]) is Ok,
            collector.summarizes(row_values(model, i as nat)),
        decreases total - i,
    {
        assert(record_view(pending@[i as int]) == model[i as int]);
        let mut taken: Result<Vec<String>, String> = Err(String::new());
        std::mem::swap(&mut pending[i], &mut taken);
        match taken {
            Err(detail) => {
                proof {
                    lemma_good_rows(model, i as nat);
                }
                return Err(TableError::ParseError { row_index: i, detail });
            },
            Ok(row) => {
                collector.accept(row);
                assert(row_values(model, i as nat).push(texts(row@)) =~= row_values(
                    model,
                    (i + 1) as nat,
                ));
            },
        }
        i += 1;
    }
    proof {
        lemma_good_rows(model, total as nat);
        lemma_summary_is_table(labels, model, collector);
    }
    Ok(collector.finish(columns, file_name))
}

/// A collector that holds the summary of all records, none of them
/// malformed, holds the row count and the preview of the table.
pub proof fn lemma_summary_is_table(
    header: Result<Seq<Seq<char>>, Seq<char>>,
    rows: Seq<Result<Seq<Seq<char>>, Seq<char>>>,
    collector: RowCollector,
)
    requires
        good_rows(rows) == rows.len(),
        collector.summarizes(row_values(rows, rows.len())),
    ensures
        collector.count == counted(rows.len()),
        grid(collector.preview@) == row_values(rows, least(rows.len(), PREVIEW_LIMIT as nat)),
        rows_fit_header(header, rows) && header is Ok ==> forall|i: int|
            0 <= i < grid(collector.preview@).len() ==> (#[trigger] grid(
                collector.preview@,
            )[i]).len() == header->Ok_0.len(),
{
    let n = rows.len();
    let kept = least(n, PREVIEW_LIMIT as nat);
    assert(row_values(rows, n).take(kept as int) =~= row_values(rows, kept));
    lemma_all_good(rows, 0);
    if rows_fit_header(header, rows) && header is Ok {
        assert forall|i: int| 0 <= i < grid(collector.preview@).len() implies (#[trigger] grid(
            collector.preview@,
        )[i]).len() == header->Ok_0.len() by {
            lemma_all_good(rows, i);
            assert(grid(collector.preview@)[i] == rows[i]->Ok_0);
        }
    }
}

/// Where every record counts as leading and well-formed, each one is
/// well-formed.
pub proof fn lemma_all_good(rows: Seq<Result<Seq<Seq<char>>, Seq<char>>>, i: int)
    requires
        good_rows(rows) == rows.len(),
    ensures
        0 <= i < rows.len() ==> rows[i] is Ok,
    decreases rows.len(),
{
    if rows.len() > 0 {
        lemma_good_rows_bound(rows.drop_first());
        if i > 0 {
            lemma_all_good(rows.drop_first(), i - 1);
        }
    }
}

/// There are no more leading well-formed records than records.
pub proof fn lemma_good_rows_bound(rows: Seq<Result<Seq<Seq<char>>, Seq<char>>>)
    ensures
        good_rows(rows) <= rows.len(),
    decreases rows.len(),
{
    if rows.len() > 0 && rows[0] is Ok {
        lemma_good_rows_bound(rows.drop_first());
    }
}

/// Parses delimited text with a header row into a table named `file_name`.
/// The records are read one by one; none but the preview is kept.
pub fn parse_delimited(text: &str, file_name: String) -> (r: Result<FileReadResult, TableError>)
    ensures
        outcome_view(r) == delimited_outcome(csv_header(text@), csv_rows(text@), file_name@),
        r matches Ok(table) ==> table.well_formed(),
{
    let mut reader = open_reader(text);
    let ghost header = csv_header(text@);
    let ghost model = csv_rows(text@);
    let columns = match read_header(&mut reader) {
        Ok(columns) => columns,
        Err(detail) => {
            return Err(TableError::HeaderError { detail });
        },
    };
    let mut collector = RowCollector::new();
    let ghost mut seen: nat = 0;
    assert(row_values(model, 0) =~= Seq::empty());
    assert(model.skip(0) =~= model);
    loop
        invariant
            seen <= model.len(),
            reader_rows(reader) == model.skip(seen as int),
            forall|k: int| 0 <= k < seen ==> (#[trigger] model[k]) is Ok,
            collector.summarizes(row_values(model, seen)),
            header == Ok::<Seq<Seq<char>>, Seq<char>>(texts(columns@)),
            header == csv_header(text@),
            model == csv_rows(text@),
            rows_fit_header(header, model),
        ensures
            seen == model.len(),
            forall|k: int| 0 <= k < seen ==> (#[trigger] model[k]) is Ok,
            collector.summarizes(row_values(model, seen)),
            header == Ok::<Seq<Seq<char>>, Seq<char>>(texts(columns@)),
            header == csv_header(text@),
            model == csv_rows(text@),
            rows_fit_header(header, model),
        decreases model.len() - seen,
    {
        match next_record(&mut reader) {
            None => {
                break ;
            },
            Some(Err(detail)) => {
                proof {
                    assert(model.skip(seen as int)[0] == model[seen as int]);
                    lemma_good_rows(model, seen);
                }
                return Err(TableError::ParseError { row_index: collector.count, detail });
            },
            Some(Ok(row)) => {
                collector.accept(row);
                proof {
                    assert(model.skip(seen as int)[0] == model[seen as int]);
                    assert(row_values(model, seen).push(texts(row@)) =~= row_values(
                        model,
                        seen + 1,
                    ));
                    assert(model.skip(seen as int).drop_first() =~= model.skip((seen + 1) as int));
                    seen = seen + 1;
                }
            },
        }
    }
    proof {
        lemma_good_rows(model, seen);
        lemma_summary_is_table(header, model, collector);
    }
    Ok(collector.finish(columns, file_name))
}

/// Reads the bytes of a delimited file into a table named `file_name`: the
/// encoding is detected, the bytes are decoded, the text is parsed.
pub fn read_delimited(content: &[u8], file_name: String) -> (r: Result<FileReadResult, TableError>)
    ensures
        outcome_view(r) == csv_outcome(content@, file_name@),
        r matches Ok(table) ==> table.well_formed(),
{
    let label = detect_encoding(content);
    match decode(label, content) {
        None => {
            let mut detail = String::new();
            push_text(&mut detail, TOO_LONG);
            assert(detail@ =~= TOO_LONG@);
            Err(TableError::DecodeFailure { detail })
        },
        Some(text) => parse_delimited(text.as_str(), file_name),
    }
}

/// Reads the bytes of a delimited file; the table is named after the final
/// segment of `path`.
pub fn read_csv_file(path: &str, content: &[u8]) -> (r: Result<FileReadResult, TableError>)
    ensures
        outcome_view(r) == csv_outcome(content@, final_segment(path@)),
        r matches Ok(table) ==> table.well_formed(),
{
    let file_name = file_name_of(path);
    read_delimited(content, file_name)
}

} // verus!
