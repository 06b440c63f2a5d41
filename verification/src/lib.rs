//! A small in-memory CSV reader with verified contracts.
//!
//! A document is split on `'\n'` into lines and each line on `','` into
//! fields; every field is reduced to its alphanumeric characters. On the
//! resulting table three queries are offered: one line, one column, and the
//! sum of a column below its header.
//!
//! The table is a `Vec<Vec<String>>`, and its model a sequence of rows of
//! cells, each cell a sequence of characters. The contracts are stated over
//! that model: `parser::parsed` says what a text holds, and `query::line_at`,
//! `query::column_at` and `query::column_sum` say what each query answers.
//! Nothing here reads a file or prints.

pub mod text;
pub mod scan;
pub mod cell;
pub mod error;
pub mod parser;
pub mod number;
pub mod query;
pub mod pretty;

pub use cell::clean_field;
pub use error::{IndexKind, ParseError};
pub use number::parse_i32;
pub use parser::{parse_csv, parse_record};
pub use pretty::{format_row, format_rows, pad_cell, pretty_lines};
pub use query::{
    get_col, get_line, join_cells, parse_and_get_col_from_csv, parse_and_get_line_from_csv,
    parse_and_sum_col_from_csv, sum_cells, sum_col,
};
pub use scan::{split_fields, split_lines, split_on, Separator};
