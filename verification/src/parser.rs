//! From text to table.

use vstd::prelude::*;
use crate::cell::{clean, clean_field, is_clean, lemma_clean_once_is_enough};
use crate::error::{outcome, ParseError, ParseErrorView};
use crate::scan::{split_fields, split_lines};
use crate::text::{
    free_of, join, lemma_join_free_of, lemma_join_of_split, lemma_split_of_join, split,
};

verus! {

/// The cells of one line: its fields between commas, each cleaned.
pub open spec fn record(line: Seq<char>) -> Seq<Seq<char>> {
    split(line, ',').map_values(|field: Seq<char>| clean(field))
}

/// The lines of a document: its pieces between newline characters, without
/// the last piece if that is empty and not the only one. So a newline at the
/// very end of the text closes the last line and opens no further one.
pub open spec fn lines_of(input: Seq<char>) -> Seq<Seq<char>> {
    let pieces = split(input, '\n');
    if pieces.len() > 1 && pieces.last().len() == 0 {
        pieces.drop_last()
    } else {
        pieces
    }
}

/// The table that a document holds: one row of cells for each of its lines.
pub open spec fn table_of(input: Seq<char>) -> Seq<Seq<Seq<char>>> {
    lines_of(input).map_values(|line: Seq<char>| record(line))
}

/// What reading a document gives: its table, and for the empty text the
/// error `CsvParseError`.
pub open spec fn parsed(input: Seq<char>) -> Result<Seq<Seq<Seq<char>>>, ParseErrorView> {
    if input.len() == 0 {
        Err(ParseErrorView::CsvParseError)
    } else {
        Ok(table_of(input))
    }
}

/// The text that writes a table of raw fields down: the fields of a row
/// joined by commas, the rows joined by newline characters.
pub open spec fn document(rows: Seq<Seq<Seq<char>>>) -> Seq<char> {
    join(rows.map_values(|row: Seq<Seq<char>>| join(row, seq![','])), seq!['\n'])
}

/// True if every cell of the table is clean.
pub open spec fn all_clean(table: Seq<Seq<Seq<char>>>) -> bool {
    forall|i: int, j: int|
        0 <= i < table.len() && 0 <= j < table[i].len() ==> is_clean(#[trigger] table[i][j])
}

/// True if the table has a row at least and every row a cell at least.
pub open spec fn has_rows_and_cells(table: Seq<Seq<Seq<char>>>) -> bool {
    &&& table.len() > 0
    &&& forall|i: int| 0 <= i < table.len() ==> (#[trigger] table[i]).len() > 0
}

/// A table that was read from text has a row at least, and each of its rows
/// a cell at least.
pub proof fn lemma_table_has_rows_and_cells(input: Seq<char>)
    ensures
        has_rows_and_cells(table_of(input)),
{
    lemma_join_of_split(input, '\n');
    let table = table_of(input);
    assert forall|i: int| 0 <= i < table.len() implies (#[trigger] table[i]).len() > 0 by {
        lemma_join_of_split(lines_of(input)[i], ',');
    }
}

/// Every cell of a table that was read from text is clean: no blank, no
/// punctuation and no control character is left in it.
pub proof fn lemma_cells_are_clean(input: Seq<char>)
    ensures
        all_clean(table_of(input)),
{
    let table = table_of(input);
    assert forall|i: int, j: int| 0 <= i < table.len() && 0 <= j < table[i].len() implies is_clean(
        #[trigger] table[i][j],
    ) by {
        let line = lines_of(input)[i];
        lemma_clean_once_is_enough(split(line, ',')[j]);
    }
}

/// Reading gives back what was written: a document of one or more rows,
/// each of one or more fields that hold neither a comma nor a newline, and
/// whose last row is not the single empty field, is read as just as many
/// rows, each of just as many cells, and each cell is its field cleaned.
pub proof fn lemma_parse_of_document(rows: Seq<Seq<Seq<char>>>)
    requires
        rows.len() > 0,
        forall|i: int| 0 <= i < rows.len() ==> (#[trigger] rows[i]).len() > 0,
        forall|i: int, j: int|
            0 <= i < rows.len() && 0 <= j < rows[i].len() ==> free_of(#[trigger] rows[i][j], ',')
                && free_of(rows[i][j], '\n'),
        join(rows.last(), seq![',']).len() > 0,
    ensures
        parsed(document(rows)) matches Ok(table) && {
            &&& table.len() == rows.len()
            &&& forall|i: int| 0 <= i < rows.len() ==> (#[trigger] table[i]).len() == rows[i].len()
            &&& forall|i: int, j: int|
                0 <= i < rows.len() && 0 <= j < rows[i].len() ==> #[trigger] table[i][j] == clean(
                    rows[i][j],
                )
        },
{
    let lines = rows.map_values(|row: Seq<Seq<char>>| join(row, seq![',']));
    // No line holds a newline, so the document falls apart into these lines.
    assert forall|i: int| 0 <= i < lines.len() implies free_of(#[trigger] lines[i], '\n') by {
        lemma_join_free_of(rows[i], seq![','], '\n');
    }
    lemma_split_of_join(lines, '\n');
    // The last line is not empty: it is not dropped, nor is the text empty.
    assert(lines_of(document(rows)) == lines);
    // No field holds a comma, so each line falls apart into its fields.
    assert forall|i: int| 0 <= i < rows.len() implies split(#[trigger] lines[i], ',') == rows[i] by {
        lemma_split_of_join(rows[i], ',');
    }
}

/// Reads one line into its row of cells.
pub fn parse_record(line: &str) -> (cells: Vec<String>)
    ensures
        cells.deep_view() == record(line@),
{
    let fields = split_fields(line);
    let mut cells: Vec<String> = Vec::new();
    let mut i: usize = 0;
    while i < fields.len()
        invariant
            i <= fields.len(),
            fields.deep_view() == split(line@, ','),
            cells.deep_view() =~= record(line@).take(i as int),
        decreases fields.len() - i,
    {
        let ghost before = cells.deep_view();
        let cell = clean_field(fields[i]);
        cells.push(cell);
        assert(cells.deep_view() =~= before.push(cell@));
        i += 1;
    }
    cells
}

/// Reads a whole document into its table.
///
/// The text is cut into lines at every `'\n'` and each line into fields at
/// every `','`; no other character has a special meaning, and nothing can be
/// quoted. Every field is cleaned, so an empty field and one without a
/// letter or digit both give an empty cell. One newline at the very end of
/// the text opens no further line. Rows may differ in length. The empty text
/// is the only one that is refused.
pub fn parse_csv(input: &str) -> (r: Result<Vec<Vec<String>>, ParseError>)
    ensures
        outcome(r) == parsed(input@),
        r matches Ok(table) ==> has_rows_and_cells(table.deep_view()) && all_clean(
            table.deep_view(),
        ),
{
    if input.is_empty() {
        return Err(ParseError::CsvParseError);
    }
    let lines = split_lines(input);
    let mut count = lines.len();
    if count > 1 && lines[count - 1].is_empty() {
        count -= 1;
    }
    let mut rows: Vec<Vec<String>> = Vec::new();
    let mut i: usize = 0;
    while i < count
        invariant
            i <= count <= lines.len(),
            lines.deep_view().take(count as int) == lines_of(input@),
            rows.deep_view() =~= table_of(input@).take(i as int),
        decreases count - i,
    {
        let ghost before = rows.deep_view();
        let row = parse_record(lines[i]);
        rows.push(row);
        assert(rows.deep_view() =~= before.push(row.deep_view()));
        i += 1;
    }
    proof {
        assert(table_of(input@).take(count as int) =~= table_of(input@));
        lemma_table_has_rows_and_cells(input@);
        lemma_cells_are_clean(input@);
    }
    Ok(rows)
}

} // verus!
