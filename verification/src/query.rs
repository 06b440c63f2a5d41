//! Questions asked of a table: one line, one column, the sum of a column.

use vstd::prelude::*;
use crate::error::{outcome, IndexKind, ParseError, ParseErrorView};
use crate::number::{decimal_i32, parse_i32};
use crate::parser::{parse_csv, parsed};
use crate::text::{join, prefixed};

verus! {

/// What stands between two cells of a line that is handed out: a comma and
/// a space.
pub open spec fn separator() -> Seq<char> {
    seq![',', ' ']
}

/// The line with number `n`, counted from 0: its cells joined by the
/// separator. A table with no such line gives `IndexOutOfBounds`.
pub open spec fn line_at(table: Seq<Seq<Seq<char>>>, n: int) -> Result<Seq<char>, ParseErrorView> {
    if 0 <= n < table.len() {
        Ok(join(table[n], separator()))
    } else {
        Err(ParseErrorView::IndexOutOfBounds(IndexKind::Line))
    }
}

/// True if every row of the table has a cell with number `c`.
pub open spec fn has_column(table: Seq<Seq<Seq<char>>>, c: int) -> bool {
    forall|i: int| 0 <= i < table.len() ==> 0 <= c < (#[trigger] table[i]).len()
}

/// The cells with number `c`, one of each row, from the first row down.
pub open spec fn column(table: Seq<Seq<Seq<char>>>, c: int) -> Seq<Seq<char>> {
    Seq::new(table.len(), |i: int| table[i][c])
}

/// The column with number `c`, counted from 0. If any row is too short to
/// have such a cell, the answer is `IndexOutOfBounds`.
pub open spec fn column_at(table: Seq<Seq<Seq<char>>>, c: int) -> Result<
    Seq<Seq<char>>,
    ParseErrorView,
> {
    if has_column(table, c) {
        Ok(column(table, c))
    } else {
        Err(ParseErrorView::IndexOutOfBounds(IndexKind::Column))
    }
}

/// The sum of the integers that the cells denote, as a mathematical
/// integer. If some cell denotes no 32-bit integer, the first such cell is
/// reported instead.
pub open spec fn total(cells: Seq<Seq<char>>) -> Result<int, ParseErrorView>
    decreases cells.len(),
{
    if cells.len() == 0 {
        Ok(0)
    } else {
        match total(cells.drop_last()) {
            Err(e) => Err(e),
            Ok(sum) => match decimal_i32(cells.last()) {
                Some(v) => Ok(sum + v),
                None => Err(ParseErrorView::ParseIntError(cells.last())),
            },
        }
    }
}

/// The 32-bit integer that differs from `x` by a multiple of 2^32: what is
/// left of `x` when 32-bit additions wrap around.
pub open spec fn wrap_i32(x: int) -> i32 {
    ((x + 0x8000_0000) % 0x1_0000_0000 - 0x8000_0000) as i32
}

/// The cells of a column below its first cell, the header.
pub open spec fn below_header(cells: Seq<Seq<char>>) -> Seq<Seq<char>> {
    if cells.len() == 0 {
        cells
    } else {
        cells.drop_first()
    }
}

/// The sum of a column's cells below the header, wrapped to 32 bits.
pub open spec fn sum_of(cells: Seq<Seq<char>>) -> Result<i32, ParseErrorView> {
    match total(below_header(cells)) {
        Ok(sum) => Ok(wrap_i32(sum)),
        Err(e) => Err(e),
    }
}

/// The sum of the column with number `c` below its header: the failure of
/// `column_at` if the column is not there, else `sum_of` its cells.
pub open spec fn column_sum(table: Seq<Seq<Seq<char>>>, c: int) -> Result<i32, ParseErrorView> {
    match column_at(table, c) {
        Ok(cells) => sum_of(cells),
        Err(e) => Err(e),
    }
}

/// The sum of a row of integers.
pub open spec fn sum_ints(values: Seq<i32>) -> int
    decreases values.len(),
{
    if values.len() == 0 {
        0
    } else {
        sum_ints(values.drop_last()) + values.last()
    }
}

/// A column that every row has is handed out whole: it has one cell for
/// each row of the table, and its cell `i` is the cell `c` of row `i`.
pub proof fn lemma_column_matches_table(table: Seq<Seq<Seq<char>>>, c: int)
    requires
        has_column(table, c),
    ensures
        column_at(table, c) matches Ok(cells) && {
            &&& cells.len() == table.len()
            &&& forall|i: int| 0 <= i < table.len() ==> #[trigger] cells[i] == table[i][c]
        },
{
}

/// The line just past the last one is out of bounds, and so is every later
/// one.
pub proof fn lemma_line_out_of_bounds(table: Seq<Seq<Seq<char>>>, n: int)
    requires
        n >= table.len(),
    ensures
        line_at(table, n) == Err::<Seq<char>, ParseErrorView>(
            ParseErrorView::IndexOutOfBounds(IndexKind::Line),
        ),
{
}

/// A column that some row is too short for is out of bounds: so is the
/// column whose number is the length of the shortest row, and every later
/// one. The same holds of the column's sum.
pub proof fn lemma_column_out_of_bounds(table: Seq<Seq<Seq<char>>>, c: int, short: int)
    requires
        0 <= short < table.len(),
        table[short].len() <= c,
    ensures
        column_at(table, c) == Err::<Seq<Seq<char>>, ParseErrorView>(
            ParseErrorView::IndexOutOfBounds(IndexKind::Column),
        ),
        column_sum(table, c) == Err::<i32, ParseErrorView>(
            ParseErrorView::IndexOutOfBounds(IndexKind::Column),
        ),
{
}

/// Cells that all denote 32-bit integers total to the sum of these
/// integers.
pub proof fn lemma_total_of_numbers(cells: Seq<Seq<char>>, values: Seq<i32>)
    requires
        values.len() == cells.len(),
        forall|i: int| 0 <= i < cells.len() ==> decimal_i32(#[trigger] cells[i]) == Some(values[i]),
    ensures
        total(cells) == Ok::<int, ParseErrorView>(sum_ints(values)),
    decreases cells.len(),
{
    if cells.len() > 0 {
        lemma_total_of_numbers(cells.drop_last(), values.drop_last());
    }
}

/// Wrapping leaves a sum that fits in 32 bits as it is.
pub proof fn lemma_wrap_in_range(x: int)
    requires
        i32::MIN <= x <= i32::MAX,
    ensures
        wrap_i32(x) == x,
{
}

/// The header never counts: where the column is there and every cell below
/// its first one denotes a 32-bit integer, the sum of the column is the sum
/// of these integers, wrapped to 32 bits, whatever the first cell holds.
/// With no cell below the first one the sum is 0.
pub proof fn lemma_sum_skips_header(table: Seq<Seq<Seq<char>>>, c: int, values: Seq<i32>)
    requires
        has_column(table, c),
        table.len() > 0 ==> values.len() == table.len() - 1,
        table.len() == 0 ==> values.len() == 0,
        forall|i: int|
            1 <= i < table.len() ==> decimal_i32(#[trigger] table[i][c]) == Some(values[i - 1]),
    ensures
        column_sum(table, c) == Ok::<i32, ParseErrorView>(wrap_i32(sum_ints(values))),
        values.len() == 0 ==> column_sum(table, c) == Ok::<i32, ParseErrorView>(0),
        i32::MIN <= sum_ints(values) <= i32::MAX ==> column_sum(table, c) == Ok::<
            i32,
            ParseErrorView,
        >(sum_ints(values) as i32),
{
    lemma_total_of_numbers(below_header(column(table, c)), values);
}

/// Joins the cells of a row with a comma and a space between each two.
pub fn join_cells(cells: &Vec<String>) -> (line: String)
    ensures
        line@ == join(cells.deep_view(), separator()),
{
    let mut line = String::new();
    if cells.len() == 0 {
        return line;
    }
    line.append(cells[0].as_str());
    let ghost rest = cells.deep_view().drop_first();
    let mut i: usize = 1;
    while i < cells.len()
        invariant
            1 <= i <= cells.len(),
            rest == cells.deep_view().drop_first(),
            line@ == cells[0]@ + prefixed(rest.take(i - 1), separator()),
        decreases cells.len() - i,
    {
        proof {
            reveal_strlit(", ");
            assert(rest.take(i as int).drop_last() =~= rest.take(i - 1));
        }
        line.append(", ");
        line.append(cells[i].as_str());
        i += 1;
    }
    assert(rest.take(cells.len() - 1) =~= rest);
    line
}

/// The line with number `line_number`, counted from 0 and with the header,
/// if there is one, as line 0.
pub fn get_line(table: &Vec<Vec<String>>, line_number: usize) -> (r: Result<String, ParseError>)
    ensures
        outcome(r) == line_at(table.deep_view(), line_number as int),
{
    if line_number < table.len() {
        Ok(join_cells(&table[line_number]))
    } else {
        Err(ParseError::IndexOutOfBounds(IndexKind::Line))
    }
}

/// The column with number `col_number`, counted from 0: one cell of each
/// row, the header's included. Nothing is handed out if a row is too short.
pub fn get_col(table: &Vec<Vec<String>>, col_number: usize) -> (r: Result<Vec<String>, ParseError>)
    ensures
        outcome(r) == column_at(table.deep_view(), col_number as int),
{
    let mut cells: Vec<String> = Vec::new();
    let mut i: usize = 0;
    while i < table.len()
        invariant
            i <= table.len(),
            has_column(table.deep_view().take(i as int), col_number as int),
            cells.deep_view() =~= column(table.deep_view(), col_number as int).take(i as int),
        decreases table.len() - i,
    {
        let row = &table[i];
        if col_number < row.len() {
            let ghost before = cells.deep_view();
            let cell = row[col_number].clone();
            cells.push(cell);
            assert(cells.deep_view() =~= before.push(cell@));
        } else {
            assert(table.deep_view()[i as int].len() == row.len());
            return Err(ParseError::IndexOutOfBounds(IndexKind::Column));
        }
        i += 1;
    }
    assert(table.deep_view().take(table.len() as int) =~= table.deep_view());
    assert(column(table.deep_view(), col_number as int).take(table.len() as int) =~= column(
        table.deep_view(),
        col_number as int,
    ));
    Ok(cells)
}

/// An error among the first cells is the error of the whole row of cells.
pub proof fn lemma_total_error_stays(cells: Seq<Seq<char>>, k: int)
    requires
        0 <= k <= cells.len(),
        total(cells.take(k)) is Err,
    ensures
        total(cells) == total(cells.take(k)),
    decreases cells.len() - k,
{
    if k == cells.len() {
        assert(cells.take(k) =~= cells);
    } else {
        assert(cells.drop_last().take(k) =~= cells.take(k));
        lemma_total_error_stays(cells.drop_last(), k);
    }
}

/// Sums the cells of a column below its first cell, which is taken for a
/// header whatever it holds. The additions wrap around at 32 bits. The
/// first cell that is no decimal 32-bit integer ends the work and is
/// handed back in the error.
pub fn sum_cells(cells: &Vec<String>) -> (r: Result<i32, ParseError>)
    ensures
        outcome(r) == sum_of(cells.deep_view()),
{
    let mut sum: i32 = 0;
    let ghost mut exact: int = 0;
    let ghost data = below_header(cells.deep_view());
    let mut i: usize = 1;
    while i < cells.len()
        invariant
            1 <= i,
            i <= cells.len() || i == 1,
            data == below_header(cells.deep_view()),
            total(data.take(i - 1)) == Ok::<int, ParseErrorView>(exact),
            sum == wrap_i32(exact),
        decreases cells.len() - i,
    {
        assert(data.take(i as int).drop_last() =~= data.take(i - 1));
        match parse_i32(cells[i].as_str()) {
            Some(v) => {
                sum = sum.wrapping_add(v);
                proof {
                    exact = exact + v;
                }
            },
            None => {
                proof {
                    lemma_total_error_stays(data, i as int);
                }
                return Err(ParseError::ParseIntError(cells[i].clone()));
            },
        }
        i += 1;
    }
    assert(cells.len() > 0 ==> data.take(i - 1) =~= data);
    Ok(sum)
}

/// The sum of the column with number `col_number` below its header: the
/// first row never counts. A table with a header only, or with no row at
/// all, sums to 0.
pub fn sum_col(table: &Vec<Vec<String>>, col_number: usize) -> (r: Result<i32, ParseError>)
    ensures
        outcome(r) == column_sum(table.deep_view(), col_number as int),
{
    match get_col(table, col_number) {
        Ok(cells) => sum_cells(&cells),
        Err(e) => Err(e),
    }
}

/// Reads `input` and hands out the line with number `line_number`.
pub fn parse_and_get_line_from_csv(input: &str, line_number: usize) -> (r: Result<
    String,
    ParseError,
>)
    ensures
        outcome(r) == match parsed(input@) {
            Ok(table) => line_at(table, line_number as int),
            Err(e) => Err(e),
        },
{
    match parse_csv(input) {
        Ok(table) => get_line(&table, line_number),
        Err(e) => Err(e),
    }
}

/// Reads `input` and hands out the column with number `col_number`.
pub fn parse_and_get_col_from_csv(input: &str, col_number: usize) -> (r: Result<
    Vec<String>,
    ParseError,
>)
    ensures
        outcome(r) == match parsed(input@) {
            Ok(table) => column_at(table, col_number as int),
            Err(e) => Err(e),
        },
{
    match parse_csv(input) {
        Ok(table) => get_col(&table, col_number),
        Err(e) => Err(e),
    }
}

/// Reads `input` and sums the column with number `col_number` below the
/// first line, which is taken for a header.
pub fn parse_and_sum_col_from_csv(input: &str, col_number: usize) -> (r: Result<i32, ParseError>)
    ensures
        outcome(r) == match parsed(input@) {
            Ok(table) => column_sum(table, col_number as int),
            Err(e) => Err(e),
        },
{
    match parse_csv(input) {
        Ok(table) => sum_col(&table, col_number),
        Err(e) => Err(e),
    }
}

} // verus!
