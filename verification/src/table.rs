//! The common shape that every reader produces, and the errors that a read
//! or an export can end in.

use vstd::prelude::*;
use crate::text::{decimal, push_decimal, push_text};

verus! {

/// Largest number of data rows that a table keeps for display.
pub const PREVIEW_LIMIT: usize = 100;

/// The characters of each string of `v`, in order.
pub open spec fn texts(v: Seq<String>) -> Seq<Seq<char>> {
    Seq::new(v.len(), |i: int| v[i]@)
}

/// The characters of each cell of each row of `v`, in order.
pub open spec fn grid(v: Seq<Vec<String>>) -> Seq<Seq<Seq<char>>> {
    Seq::new(v.len(), |i: int| texts(v[i]@))
}

/// The smaller of two natural numbers.
pub open spec fn least(a: nat, b: nat) -> nat {
    if a <= b {
        a
    } else {
        b
    }
}

/// A count as a machine word holds it: itself, or the largest word where it
/// would not fit.
pub open spec fn counted(n: nat) -> nat {
    if n <= usize::MAX {
        n
    } else {
        usize::MAX as nat
    }
}

/// What a table holds, as mathematical values.
pub struct TableView {
    pub columns: Seq<Seq<char>>,
    pub row_count: nat,
    pub data_preview: Seq<Seq<Seq<char>>>,
    pub file_name: Seq<char>,
}

/// A parsed source: its column labels in source order, the number of data
/// rows in the whole source, and the first rows of it.
#[derive(Debug, Clone, PartialEq, Eq)]
pub struct FileReadResult {
    pub columns: Vec<String>,
    pub row_count: usize,
    pub data_preview: Vec<Vec<String>>,
    pub file_name: String,
}

impl View for FileReadResult {
    type V = TableView;

    open spec fn view(&self) -> TableView {
        TableView {
            columns: texts(self.columns@),
            row_count: self.row_count as nat,
            data_preview: grid(self.data_preview@),
            file_name: self.file_name@,
        }
    }
}

impl TableView {
    /// The preview is a bounded prefix of the rows, and every row of it has
    /// one cell for each column.
    pub open spec fn well_formed(self) -> bool {
        &&& self.data_preview.len() <= least(self.row_count, PREVIEW_LIMIT as nat)
        &&& forall|i: int|
            0 <= i < self.data_preview.len() ==> (#[trigger] self.data_preview[i]).len()
                == self.columns.len()
    }
}

impl FileReadResult {
    /// The invariant of a table, stated of its view.
    pub open spec fn well_formed(&self) -> bool {
        self@.well_formed()
    }
}

/// One column of a table's schema.
#[derive(Debug, Clone, PartialEq, Eq)]
pub struct TableSchema {
    pub column_name: String,
    pub data_type: String,
    pub nullable: bool,
}

/// Memory and processor figures of the host.
#[derive(Debug, Clone, Copy, PartialEq, Eq)]
pub struct SystemInfo {
    pub total_memory: u64,
    pub available_memory: u64,
    pub cpu_count: usize,
}

/// The step of an export at which writing failed.
#[derive(Debug, Clone, Copy, PartialEq, Eq)]
pub enum WriteStage {
    Create,
    Headers,
    Row,
    Flush,
}

/// Why a read or an export did not produce its result.
#[derive(Debug, Clone, PartialEq, Eq)]
pub enum TableError {
    /// No file exists at the path.
    NotFound { path: String },
    /// The bytes of the source could not be obtained or decoded; `detail`
    /// says why.
    DecodeFailure { detail: String },
    /// The header row of delimited text could not be read; `detail` is the
    /// parser's own description.
    HeaderError { detail: String },
    /// The data row with this 0-based index is malformed; `detail` is the
    /// parser's own description.
    ParseError { row_index: usize, detail: String },
    /// The workbook could not be opened; `detail` says why.
    WorkbookError { detail: String },
    /// The workbook holds no sheet.
    NoSheets,
    /// The range of the named sheet could not be read.
    SheetReadError { sheet_name: String },
    /// An export failed at the given step; `detail` says why.
    WriteError { stage: WriteStage, detail: String },
    /// The operation is not offered.
    Unsupported,
}

/// What an error holds, as mathematical values.
pub enum TableErrorView {
    NotFound { path: Seq<char> },
    DecodeFailure { detail: Seq<char> },
    HeaderError { detail: Seq<char> },
    ParseError { row_index: nat, detail: Seq<char> },
    WorkbookError { detail: Seq<char> },
    NoSheets,
    SheetReadError { sheet_name: Seq<char> },
    WriteError { stage: WriteStage, detail: Seq<char> },
    Unsupported,
}

impl View for TableError {
    type V = TableErrorView;

    open spec fn view(&self) -> TableErrorView {
        match *self {
            TableError::NotFound { path } => TableErrorView::NotFound { path: path@ },
            TableError::DecodeFailure { detail } => TableErrorView::DecodeFailure {
                detail: detail@,
            },
            TableError::HeaderError { detail } => TableErrorView::HeaderError { detail: detail@ },
            TableError::ParseError { row_index, detail } => TableErrorView::ParseError {
                row_index: row_index as nat,
                detail: detail@,
            },
            TableError::WorkbookError { detail } => TableErrorView::WorkbookError {
                detail: detail@,
            },
            TableError::NoSheets => TableErrorView::NoSheets,
            TableError::SheetReadError { sheet_name } => TableErrorView::SheetReadError {
                sheet_name: sheet_name@,
            },
            TableError::WriteError { stage, detail } => TableErrorView::WriteError {
                stage,
                detail: detail@,
            },
            TableError::Unsupported => TableErrorView::Unsupported,
        }
    }
}

/// Whether a character parts the segments of a path: the slash does, and
/// so does the backslash.
pub open spec fn is_separator(c: char) -> bool {
    c == '/' || c == '\\'
}

/// Whether a text holds no character that parts segments.
pub open spec fn is_single_segment(name: Seq<char>) -> bool {
    forall|i: int| 0 <= i < name.len() ==> !is_separator(#[trigger] name[i])
}

/// The final segment of a path: what follows its last separator, or the
/// whole path where it holds none. It is empty for the empty path and for a
/// path that ends in a separator.
pub open spec fn final_segment(path: Seq<char>) -> Seq<char>
    decreases path.len(),
{
    if path.len() == 0 {
        Seq::empty()
    } else if is_separator(path.last()) {
        Seq::empty()
    } else {
        final_segment(path.drop_last()).push(path.last())
    }
}

/// The final segment holds no separator, ends the path, and is preceded by
/// a separator where it is not the whole path.
pub proof fn lemma_final_segment(path: Seq<char>)
    ensures
        is_single_segment(final_segment(path)),
        final_segment(path).len() <= path.len(),
        path.skip(path.len() - final_segment(path).len()) == final_segment(path),
        final_segment(path).len() < path.len() ==> is_separator(
            path[path.len() - final_segment(path).len() - 1],
        ),
    decreases path.len(),
{
    if path.len() > 0 && !is_separator(path.last()) {
        let head = path.drop_last();
        lemma_final_segment(head);
        let inner = final_segment(head);
        let whole = final_segment(path);
        assert(path.skip(path.len() - whole.len()) =~= whole) by {
            assert forall|k: int| 0 <= k < whole.len() implies path.skip(path.len() - whole.len())[k]
                == whole[k] by {
                if k < inner.len() {
                    assert(head.skip(head.len() - inner.len())[k] == inner[k]);
                }
            }
        }
    } else {
        assert(path.skip(path.len() as int) =~= Seq::<char>::empty());
    }
}

/// A path without a separator is its own final segment.
pub proof fn lemma_segment_of_name(name: Seq<char>)
    requires
        is_single_segment(name),
    ensures
        final_segment(name) == name,
    decreases name.len(),
{
    if name.len() > 0 {
        lemma_segment_of_name(name.drop_last());
        assert(name.drop_last().push(name.last()) =~= name);
    }
}

/// A name without a separator that follows on a separator is the final
/// segment, whatever stands before.
pub proof fn lemma_segment_after_separator(dir: Seq<char>, mark: char, name: Seq<char>)
    requires
        is_separator(mark),
        is_single_segment(name),
    ensures
        final_segment(dir.push(mark) + name) == name,
    decreases name.len(),
{
    let path = dir.push(mark) + name;
    if name.len() == 0 {
        assert(path =~= dir.push(mark));
    } else {
        lemma_segment_after_separator(dir, mark, name.drop_last());
        assert(path.drop_last() =~= dir.push(mark) + name.drop_last());
        assert(path.last() == name.last());
        assert(name.drop_last().push(name.last()) =~= name);
    }
}

/// The name that a table read from `path` carries: the final segment of the
/// path.
pub fn file_name_of(path: &str) -> (name: String)
    ensures
        name@ == final_segment(path@),
{
    let mut name = String::new();
    for c in it: path.chars()
        invariant
            it.seq() == path@,
            name@ == final_segment(path@.take(it.index() as int)),
    {
        proof {
            let next = path@.take(it.index() + 1);
            assert(next.drop_last() =~= path@.take(it.index() as int));
            assert(next.last() == c);
        }
        if c == '/' || c == '\\' {
            name = String::new();
        } else {
            name.push(c);
        }
    }
    assert(path@.take(path@.len() as int) =~= path@);
    name
}

/// The outcome of a read, as mathematical values.
pub open spec fn outcome_view(r: Result<FileReadResult, TableError>) -> Result<
    TableView,
    TableErrorView,
> {
    match r {
        Ok(t) => Ok(t@),
        Err(e) => Err(e@),
    }
}

/// How the message of a failed export begins, by the step that failed.
pub open spec fn stage_text(stage: WriteStage) -> Seq<char> {
    match stage {
        WriteStage::Create => "Failed to create file: "@,
        WriteStage::Headers => "Failed to write headers: "@,
        WriteStage::Row => "Failed to write row: "@,
        WriteStage::Flush => "Failed to flush writer: "@,
    }
}

impl TableErrorView {
    /// The text that describes the error to a user.
    pub open spec fn message(self) -> Seq<char> {
        match self {
            TableErrorView::NotFound { path } => "File not found: "@ + path,
            TableErrorView::DecodeFailure { detail } => "Failed to read file: "@ + detail,
            TableErrorView::HeaderError { detail } => "Failed to read headers: "@ + detail,
            TableErrorView::ParseError { row_index, detail } => "Failed to read row "@ + decimal(
                row_index,
            ) + ": "@ + detail,
            TableErrorView::WorkbookError { detail } => "Failed to open Excel file: "@ + detail,
            TableErrorView::NoSheets => "No sheets found in Excel file"@,
            TableErrorView::SheetReadError { sheet_name } => "Failed to read sheet: "@
                + sheet_name,
            TableErrorView::WriteError { stage, detail } => stage_text(stage) + detail,
            TableErrorView::Unsupported =>
                "Excel export not yet implemented. Please use CSV format."@,
        }
    }
}

impl TableError {
    /// The text that describes the error to a user.
    pub fn message(&self) -> (s: String)
        ensures
            s@ == self@.message(),
    {
        let mut s = String::new();
        let ghost start = s@;
        match self {
            TableError::NotFound { path } => {
                push_text(&mut s, "File not found: ");
                push_text(&mut s, path.as_str());
            },
            TableError::DecodeFailure { detail } => {
                push_text(&mut s, "Failed to read file: ");
                push_text(&mut s, detail.as_str());
            },
            TableError::HeaderError { detail } => {
                push_text(&mut s, "Failed to read headers: ");
                push_text(&mut s, detail.as_str());
            },
            TableError::ParseError { row_index, detail } => {
                push_text(&mut s, "Failed to read row ");
                push_decimal(&mut s, *row_index);
                push_text(&mut s, ": ");
                push_text(&mut s, detail.as_str());
            },
            TableError::WorkbookError { detail } => {
                push_text(&mut s, "Failed to open Excel file: ");
                push_text(&mut s, detail.as_str());
            },
            TableError::NoSheets => {
                push_text(&mut s, "No sheets found in Excel file");
            },
            TableError::SheetReadError { sheet_name } => {
                push_text(&mut s, "Failed to read sheet: ");
                push_text(&mut s, sheet_name.as_str());
            },
            TableError::WriteError { stage, detail } => {
                match stage {
                    WriteStage::Create => {
                        push_text(&mut s, "Failed to create file: ");
                    },
                    WriteStage::Headers => {
                        push_text(&mut s, "Failed to write headers: ");
                    },
                    WriteStage::Row => {
                        push_text(&mut s, "Failed to write row: ");
                    },
                    WriteStage::Flush => {
                        push_text(&mut s, "Failed to flush writer: ");
                    },
                }
                push_text(&mut s, detail.as_str());
            },
            TableError::Unsupported => {
                push_text(&mut s, "Excel export not yet implemented. Please use CSV format.");
            },
        }
        assert(s@ =~= self@.message());
        s
    }
}

} // verus!
