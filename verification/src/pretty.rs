//! A table laid out in columns of fixed width, as lines of text.

use vstd::prelude::*;

verus! {

/// The width to which every cell is filled up. A longer cell is not cut.
pub const COLUMN_WIDTH: usize = 15;

/// `n` spaces.
pub open spec fn spaces(n: nat) -> Seq<char> {
    Seq::new(n, |i: int| ' ')
}

/// A cell as it is laid out: the cell, then spaces up to the column width,
/// then one more space.
pub open spec fn padded(cell: Seq<char>) -> Seq<char> {
    let missing = if cell.len() < COLUMN_WIDTH {
        (COLUMN_WIDTH - cell.len()) as nat
    } else {
        0
    };
    cell + spaces(missing) + seq![' ']
}

/// A row as it is laid out: its padded cells one after the other.
pub open spec fn row_text(row: Seq<Seq<char>>) -> Seq<char>
    decreases row.len(),
{
    if row.len() == 0 {
        Seq::empty()
    } else {
        row_text(row.drop_last()) + padded(row.last())
    }
}

/// A table as it is laid out: one line of text for each row.
pub open spec fn rows_text(table: Seq<Seq<Seq<char>>>) -> Seq<Seq<char>> {
    table.map_values(|row: Seq<Seq<char>>| row_text(row))
}

/// The lines that show a table: for a table without rows the one line
/// `The CSV is empty!`, else a title and below it the table laid out.
pub open spec fn display(table: Seq<Seq<Seq<char>>>) -> Seq<Seq<char>> {
    if table.len() == 0 {
        seq!["The CSV is empty!"@]
    } else {
        seq!["Pretty CSV display:"@] + rows_text(table)
    }
}

/// Lays out one cell.
pub fn pad_cell(cell: &str) -> (text: String)
    ensures
        text@ == padded(cell@),
{
    let mut text = String::new();
    text.append(cell);
    let mut width = cell.unicode_len();
    while width < COLUMN_WIDTH
        invariant
            width >= cell@.len(),
            width <= COLUMN_WIDTH || width == cell@.len(),
            text@ == cell@ + spaces((width - cell@.len()) as nat),
        decreases COLUMN_WIDTH - width,
    {
        text.push(' ');
        width += 1;
    }
    text.push(' ');
    text
}

/// Lays out one row.
pub fn format_row(row: &Vec<String>) -> (text: String)
    ensures
        text@ == row_text(row.deep_view()),
{
    let mut text = String::new();
    let mut i: usize = 0;
    while i < row.len()
        invariant
            i <= row.len(),
            text@ == row_text(row.deep_view().take(i as int)),
        decreases row.len() - i,
    {
        assert(row.deep_view().take(i + 1).drop_last() =~= row.deep_view().take(i as int));
        let cell = pad_cell(row[i].as_str());
        text.append(cell.as_str());
        i += 1;
    }
    assert(row.deep_view().take(row.len() as int) =~= row.deep_view());
    text
}

/// Lays out a table: as many lines as it has rows, and no checks made.
pub fn format_rows(csv_lines: &Vec<Vec<String>>) -> (lines: Vec<String>)
    ensures
        lines.deep_view() == rows_text(csv_lines.deep_view()),
{
    let mut lines: Vec<String> = Vec::new();
    let mut i: usize = 0;
    while i < csv_lines.len()
        invariant
            i <= csv_lines.len(),
            lines.deep_view() =~= rows_text(csv_lines.deep_view()).take(i as int),
        decreases csv_lines.len() - i,
    {
        let ghost before = lines.deep_view();
        let text = format_row(&csv_lines[i]);
        lines.push(text);
        assert(lines.deep_view() =~= before.push(text@));
        i += 1;
    }
    assert(rows_text(csv_lines.deep_view()).take(csv_lines.len() as int) =~= rows_text(
        csv_lines.deep_view(),
    ));
    lines
}

/// The lines to print for a table, from the top: a title and the table
/// laid out, or the word that there is nothing to show.
pub fn pretty_lines(csv_lines: &Vec<Vec<String>>) -> (lines: Vec<String>)
    ensures
        lines.deep_view() == display(csv_lines.deep_view()),
{
    let mut lines: Vec<String> = Vec::new();
    if csv_lines.len() == 0 {
        lines.push("The CSV is empty!".to_string());
        return lines;
    }
    lines.push("Pretty CSV display:".to_string());
    let mut rows = format_rows(csv_lines);
    lines.append(&mut rows);
    lines
}

} // verus!
