//! The ways in which reading or querying a table can fail.

use vstd::prelude::*;

verus! {

/// Which index of a table a query asked for.
#[derive(Debug, PartialEq, Eq, Clone, Copy)]
pub enum IndexKind {
    /// The number of a line.
    Line,
    /// The number of a column.
    Column,
}

/// Why a table could not be read or a query not be answered.
#[derive(Debug, PartialEq, Eq)]
pub enum ParseError {
    /// A cell that was to be summed is not a decimal 32-bit integer. It
    /// carries that cell.
    ParseIntError(String),
    /// The table has no such line, or one of its rows has no such column.
    IndexOutOfBounds(IndexKind),
    /// The text holds no table at all.
    CsvParseError,
}

/// The model of a `ParseError`: the same three cases, with the offending
/// cell as a sequence of characters.
pub enum ParseErrorView {
    /// The cell that denotes no 32-bit integer.
    ParseIntError(Seq<char>),
    /// The kind of index that was out of bounds.
    IndexOutOfBounds(IndexKind),
    /// No table in the text.
    CsvParseError,
}

impl View for ParseError {
    type V = ParseErrorView;

    open spec fn view(&self) -> ParseErrorView {
        match *self {
            ParseError::ParseIntError(cell) => ParseErrorView::ParseIntError(cell@),
            ParseError::IndexOutOfBounds(kind) => ParseErrorView::IndexOutOfBounds(kind),
            ParseError::CsvParseError => ParseErrorView::CsvParseError,
        }
    }
}

impl From<()> for ParseError {
    /// A failure without any detail is the failure to read the text.
    fn from(_unit: ()) -> (e: Self) {
        ParseError::CsvParseError
    }
}

impl vstd::std_specs::convert::FromSpecImpl<()> for ParseError {
    open spec fn obeys_from_spec() -> bool {
        true
    }

    open spec fn from_spec(_unit: ()) -> Self {
        ParseError::CsvParseError
    }
}

/// The model of a result: the value by its deep view, the error by its view.
pub open spec fn outcome<T: DeepView>(r: Result<T, ParseError>) -> Result<T::V, ParseErrorView> {
    match r {
        Ok(value) => Ok(value.deep_view()),
        Err(e) => Err(e@),
    }
}

} // verus!
