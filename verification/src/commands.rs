//! The operations that have no logic of their own yet: the query hand-off,
//! the workbook export, the schema listing and the host figures.

use vstd::prelude::*;
use crate::table::{grid, SystemInfo, TableError, TableErrorView, TableSchema};
use crate::text::push_text;

verus! {

/// Memory that the host is taken to have, in bytes.
pub const TOTAL_MEMORY: u64 = 16_000_000_000;

/// Memory that the host is taken to have free, in bytes.
pub const AVAILABLE_MEMORY: u64 = 8_000_000_000;

/// `num_cpus::get` gives the number of logical processors that the process
/// may use, which is at least 1.
#[verifier::external_body]
fn logical_cpus() -> (n: usize)
    ensures
        n >= 1,
{
    num_cpus::get()
}

/// Queries run in the caller's own engine: whatever the query, the answer
/// is one row with one cell that says so.
pub fn execute_sql(query: String) -> (r: Result<Vec<Vec<String>>, TableError>)
    ensures
        r matches Ok(rows) && grid(rows@) == seq![seq!["Results will be processed in frontend"@]],
{
    let mut cell = String::new();
    push_text(&mut cell, "Results will be processed in frontend");
    let mut row: Vec<String> = Vec::new();
    row.push(cell);
    let mut rows: Vec<Vec<String>> = Vec::new();
    rows.push(row);
    assert(grid(rows@) =~~= seq![seq!["Results will be processed in frontend"@]]);
    Ok(rows)
}

/// Workbooks are not written: every call is refused.
pub fn export_to_excel(data: Vec<Vec<String>>, path: String, headers: Vec<String>) -> (r: Result<
    (),
    TableError,
>)
    ensures
        r matches Err(error) && error@ == TableErrorView::Unsupported,
{
    Err(TableError::Unsupported)
}

/// No table has a recorded schema: the listing is empty for every name.
pub fn get_table_schema(table_name: String) -> (r: Result<Vec<TableSchema>, TableError>)
    ensures
        r matches Ok(columns) && columns@.len() == 0,
{
    Ok(Vec::new())
}

/// The host figures for a given number of processors.
pub fn system_info_for(cpu_count: usize) -> (info: SystemInfo)
    ensures
        info == (SystemInfo {
            total_memory: TOTAL_MEMORY,
            available_memory: AVAILABLE_MEMORY,
            cpu_count,
        }),
{
    SystemInfo { total_memory: TOTAL_MEMORY, available_memory: AVAILABLE_MEMORY, cpu_count }
}

/// The host figures: fixed memory sizes, and the number of processors that
/// the host reports.
pub fn get_system_info() -> (r: Result<SystemInfo, TableError>)
    ensures
        r matches Ok(info) && info.total_memory == TOTAL_MEMORY && info.available_memory
            == AVAILABLE_MEMORY && info.cpu_count >= 1,
{
    Ok(system_info_for(logical_cpus()))
}

} // verus!
