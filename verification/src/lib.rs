//! Ingestion of tabular files: encoding detection, delimited and spreadsheet
//! reading into a bounded preview, and column-name normalisation.

pub mod columns;
pub mod commands;
pub mod delimited;
pub mod encoding;
pub mod export;
pub mod registry;
pub mod sheet;
pub mod table;
pub mod text;
pub mod uniqueness;

pub use columns::{generate_unique_column_names, sanitize_column_name};
pub use commands::{execute_sql, export_to_excel, get_system_info, get_table_schema};
pub use delimited::{read_csv_file, read_delimited};
pub use encoding::{detect_encoding, EncodingLabel};
pub use export::{export_header, export_to_csv};
pub use sheet::{first_sheet, read_excel_file, read_sheet, table_from_range, SheetGrid};
pub use table::{FileReadResult, SystemInfo, TableError, TableSchema, WriteStage};
