//! Inspection of tabular data: header reconciliation, column lookup and row
//! filtering, with the contracts that describe them.
//!
//! The data comes from one source or from the CSV files of a directory
//! ([`source`], [`listing`], [`directory`]). A query names the columns to
//! show and the conditions that rows have to meet ([`filter_arg`],
//! [`columns`]), the filter decides which rows pass ([`filter`]), and the
//! answer is a list of lines or one sampled row ([`select`], [`report`],
//! [`query`]).
//!
//! The library reads and writes no files and prints nothing. It does not
//! read numbers either: whoever builds a [`Field`] says how its text reads
//! as a number, by the bits of the double that the text stands for.

pub mod columns;
pub mod directory;
pub mod filter;
pub mod filter_arg;
pub mod listing;
pub mod operator;
pub mod query;
pub mod report;
pub mod row;
pub mod search;
pub mod select;
pub mod source;
pub mod text;

pub use columns::{
    find_column, resolve_display_columns, resolve_filters, ColumnRole, Condition, QueryError,
};
pub use directory::{
    load_data_from_directory, names_in_order, read_source, resolve_headers,
    resolve_headers_in_order, DirectoryError, DirectoryLoad, FileReading, HeaderFailure,
    HeaderResolution, ScanNotice, SourceFile,
};
pub use filter::{compare_fields, filter_rows, passes, satisfies, Predicate};
pub use filter_arg::{parse_filter, parse_filter_arg, FilterDefect, MalformedFilterExpression};
pub use listing::{is_csv_name, name_order, select_csv_files, DirectoryEntry};
pub use operator::Operator;
pub use source::{
    accept_headers, assemble_table, load_data_from_csv, parse_csv_from_reader, FileContent,
    IngestionError,
};
pub use query::{answer, answer_list, answer_sample, Answer, Mode, Request};
pub use report::{
    describe_condition, project, row_line, row_lines, sample_title, shown_names, title, Origin,
};
pub use row::{number_text, Field, Reading, Row};
pub use select::sample_row;
