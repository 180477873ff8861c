//! Building a table from the first sheet of a workbook. The workbook itself
//! is opened by the caller, who is told which sheet to read and hands over
//! what was found in it as plain values.

use vstd::prelude::*;
use crate::table::{
    file_name_of, final_segment, grid, least, outcome_view, texts, FileReadResult, TableError,
    TableErrorView, TableView, PREVIEW_LIMIT,
};
use crate::text::{decimal, push_decimal, push_text};

verus! {

/// A rectangle of cells of a sheet. `first_row` and `first_col` say where on
/// the sheet its top left cell lies, `height` and `width` how many rows and
/// columns it spans. `cells` holds its rows from the top, each with the
/// texts of its cells from the left; an empty text stands for an empty cell.
#[derive(Debug, Clone, PartialEq, Eq)]
pub struct SheetGrid {
    pub height: usize,
    pub width: usize,
    pub first_row: usize,
    pub first_col: usize,
    pub cells: Vec<Vec<String>>,
}

/// What a rectangle of cells holds, as mathematical values.
pub struct SheetGridView {
    pub height: nat,
    pub width: nat,
    pub first_row: nat,
    pub first_col: nat,
    pub cells: Seq<Seq<Seq<char>>>,
}

impl View for SheetGrid {
    type V = SheetGridView;

    open spec fn view(&self) -> SheetGridView {
        SheetGridView {
            height: self.height as nat,
            width: self.width as nat,
            first_row: self.first_row as nat,
            first_col: self.first_col as nat,
            cells: grid(self.cells@),
        }
    }
}

impl SheetGridView {
    /// The text of the cell at a position of the sheet, if the rectangle
    /// holds one there.
    pub open spec fn cell_at(self, row: int, col: int) -> Option<Seq<char>> {
        let r = row - self.first_row;
        let c = col - self.first_col;
        if 0 <= r < self.cells.len() && 0 <= c < self.cells[r].len() {
            Some(self.cells[r][c])
        } else {
            None
        }
    }
}

/// The label made up for the column with 0-based index `col` when the sheet
/// gives none: `Column_` and the 1-based index.
pub open spec fn placeholder(col: nat) -> Seq<char> {
    seq!['C', 'o', 'l', 'u', 'm', 'n', '_'] + decimal(col + 1)
}

/// The label of a column: the text of its header cell, or the placeholder
/// where the cell is absent or its text is empty.
pub open spec fn header_label(cell: Option<Seq<char>>, col: nat) -> Seq<char> {
    match cell {
        Some(t) => if t.len() > 0 {
            t
        } else {
            placeholder(col)
        },
        None => placeholder(col),
    }
}

/// The text of a data cell: empty where the cell is absent.
pub open spec fn data_text(cell: Option<Seq<char>>) -> Seq<char> {
    match cell {
        Some(t) => t,
        None => Seq::empty(),
    }
}

/// The column labels of a sheet: one for each column where the sheet has a
/// row, none where it has no row at all.
pub open spec fn sheet_columns(sheet: SheetGridView) -> Seq<Seq<char>> {
    if sheet.height > 0 {
        Seq::new(sheet.width, |c: int| header_label(sheet.cell_at(0, c), c as nat))
    } else {
        Seq::empty()
    }
}

/// The cells of one row of a sheet, one for each column.
pub open spec fn sheet_row(sheet: SheetGridView, row: int) -> Seq<Seq<char>> {
    Seq::new(sheet.width, |c: int| data_text(sheet.cell_at(row, c)))
}

/// The number of data rows of a sheet: every row but the first.
pub open spec fn sheet_row_count(height: nat) -> nat {
    if height > 0 {
        (height - 1) as nat
    } else {
        0
    }
}

/// The table that a sheet makes: labels from row 0, then the data rows whose
/// 1-based index is at most the preview limit.
pub open spec fn sheet_table(sheet: SheetGridView, file_name: Seq<char>) -> TableView {
    TableView {
        columns: sheet_columns(sheet),
        row_count: sheet_row_count(sheet.height),
        data_preview: Seq::new(
            least(sheet_row_count(sheet.height), PREVIEW_LIMIT as nat),
            |i: int| sheet_row(sheet, i + 1),
        ),
        file_name,
    }
}

/// Which sheet of a workbook is read: the first in workbook order. A
/// workbook that did not open, for the reason given, or that holds no sheet
/// has none.
pub open spec fn first_sheet_outcome(opened: Result<Vec<String>, String>) -> Result<
    Seq<char>,
    TableErrorView,
> {
    match opened {
        Err(detail) => Err(TableErrorView::WorkbookError { detail: detail@ }),
        Ok(sheet_names) => if sheet_names@.len() == 0 {
            Err(TableErrorView::NoSheets)
        } else {
            Ok(sheet_names@[0]@)
        },
    }
}

/// What reading a sheet gives: the table of its range, or the error that
/// names the sheet where its range could not be read.
pub open spec fn sheet_outcome(
    sheet_name: Seq<char>,
    range: Option<SheetGrid>,
    file_name: Seq<char>,
) -> Result<TableView, TableErrorView> {
    match range {
        None => Err(TableErrorView::SheetReadError { sheet_name }),
        Some(sheet) => Ok(sheet_table(sheet@, file_name)),
    }
}

impl SheetGrid {
    /// The text of the cell at a position of the sheet, if the rectangle
    /// holds one there.
    pub fn cell(&self, row: usize, col: usize) -> (text: Option<&String>)
        ensures
            match text {
                Some(t) => self@.cell_at(row as int, col as int) == Some(t@),
                None => self@.cell_at(row as int, col as int) is None,
            },
    {
        if row < self.first_row || col < self.first_col {
            return None;
        }
        let r = row - self.first_row;
        let c = col - self.first_col;
        if r < self.cells.len() && c < self.cells[r].len() {
            assert(grid(self.cells@)[r as int][c as int] == self.cells@[r as int]@[c as int]@);
            Some(&self.cells[r][c])
        } else {
            None
        }
    }
}

fn column_label(sheet: &SheetGrid, col: usize) -> (label: String)
    requires
        col < usize::MAX,
    ensures
        label@ == header_label(sheet@.cell_at(0, col as int), col as nat),
{
    match sheet.cell(0, col) {
        Some(text) => {
            if !text.as_str().is_empty() {
                return text.clone();
            }
        },
        None => {},
    }
    let mut label = String::new();
    push_text(&mut label, "Column_");
    proof {
        reveal_strlit("Column_");
        assert(label@ =~= seq!['C', 'o', 'l', 'u', 'm', 'n', '_']);
    }
    push_decimal(&mut label, col + 1);
    label
}

fn read_row(sheet: &SheetGrid, row: usize) -> (cells: Vec<String>)
    ensures
        texts(cells@) == sheet_row(sheet@, row as int),
{
    let width = sheet.width;
    let mut cells: Vec<String> = Vec::new();
    let mut col: usize = 0;
    while col < width
        invariant
            col <= width == sheet.width,
            cells@.len() == col,
            forall|c: int|
                0 <= c < col ==> (#[trigger] cells@[c])@ == data_text(
                    sheet@.cell_at(row as int, c),
                ),
        decreases width - col,
    {
        let text = match sheet.cell(row, col) {
            Some(text) => text.clone(),
            None => String::new(),
        };
        cells.push(text);
        col += 1;
    }
    assert(texts(cells@) =~= sheet_row(sheet@, row as int));
    cells
}

/// Builds the table of a rectangle of cells. The labels come from row 0 of
/// the sheet, with a placeholder for each cell that is absent or empty;
/// every later row counts as data, and the first of them, up to the preview
/// limit, are kept with one cell for each column.
pub fn table_from_range(sheet: &SheetGrid, file_name: String) -> (table: FileReadResult)
    ensures
        table@ == sheet_table(sheet@, file_name@),
        table.well_formed(),
{
    let height = sheet.height;
    let width = sheet.width;
    let mut columns: Vec<String> = Vec::new();
    if height > 0 {
        let mut col: usize = 0;
        while col < width
            invariant
                col <= width == sheet.width,
                columns@.len() == col,
                forall|c: int|
                    0 <= c < col ==> (#[trigger] columns@[c])@ == header_label(
                        sheet@.cell_at(0, c),
                        c as nat,
                    ),
            decreases width - col,
        {
            let label = column_label(sheet, col);
            columns.push(label);
            col += 1;
        }
    }
    assert(texts(columns@) =~= sheet_columns(sheet@));
    let row_count: usize = if height > 0 {
        height - 1
    } else {
        0
    };
    let kept: usize = if row_count < PREVIEW_LIMIT {
        row_count
    } else {
        PREVIEW_LIMIT
    };
    let mut data_preview: Vec<Vec<String>> = Vec::new();
    let mut i: usize = 0;
    while i < kept
        invariant
            i <= kept <= PREVIEW_LIMIT,
            kept <= row_count,
            data_preview@.len() == i,
            forall|k: int|
                0 <= k < i ==> texts((#[trigger] data_preview@[k])@) == sheet_row(sheet@, k + 1),
        decreases kept - i,
    {
        let row = read_row(sheet, i + 1);
        data_preview.push(row);
        i += 1;
    }
    let table = FileReadResult { columns, row_count, data_preview, file_name };
    assert(table@.data_preview =~= sheet_table(sheet@, file_name@).data_preview);
    table
}

/// Says which sheet of a workbook is to be read, given the sheet names
/// that opening it gave, in workbook order, or the reason why it did not
/// open: the first sheet by position, whatever its name.
pub fn first_sheet(opened: Result<Vec<String>, String>) -> (r: Result<String, TableError>)
    ensures
        match r {
            Ok(name) => first_sheet_outcome(opened) == Ok::<Seq<char>, TableErrorView>(name@),
            Err(error) => first_sheet_outcome(opened) == Err::<Seq<char>, TableErrorView>(error@),
        },
{
    match opened {
        Err(detail) => Err(TableError::WorkbookError { detail }),
        Ok(sheet_names) => {
            if sheet_names.len() == 0 {
                Err(TableError::NoSheets)
            } else {
                Ok(sheet_names[0].clone())
            }
        },
    }
}

/// Makes the table of the sheet called `sheet_name`, given its range, or
/// nothing where the range could not be read; the table is named
/// `file_name`.
pub fn read_sheet(sheet_name: String, range: Option<SheetGrid>, file_name: String) -> (r: Result<
    FileReadResult,
    TableError,
>)
    ensures
        outcome_view(r) == sheet_outcome(sheet_name@, range, file_name@),
        r matches Ok(table) ==> table.well_formed(),
{
    match range {
        Some(sheet) => Ok(table_from_range(&sheet, file_name)),
        None => Err(TableError::SheetReadError { sheet_name }),
    }
}

/// Makes the table of a sheet of the workbook at `path`; the table is named
/// after the final segment of the path.
pub fn read_excel_file(path: &str, sheet_name: String, range: Option<SheetGrid>) -> (r: Result<
    FileReadResult,
    TableError,
>)
    ensures
        outcome_view(r) == sheet_outcome(sheet_name@, range, final_segment(path@)),
        r matches Ok(table) ==> table.well_formed(),
{
    read_sheet(sheet_name, range, file_name_of(path))
}

} // verus!
