//! Gravity: where a piece that is dropped into a column comes to rest.
//!
//! Row `0` is the top of the board, so the lowest cell of a column is the one
//! with the greatest row number.

use super::connect_four::{ConnectFour, Piece};
use crate::utils::{is_rectangular, rows_of, width};
use vstd::prelude::*;

verus! {

/// Whether every row of `grid` has a cell in `column`.
pub open spec fn has_column(grid: Seq<Seq<Piece>>, column: int) -> bool {
    forall|row: int| 0 <= row < grid.len() ==> 0 <= column < (#[trigger] grid[row]).len()
}

/// Whether some cell of `column` is empty.
pub open spec fn has_room(grid: Seq<Seq<Piece>>, column: int) -> bool {
    exists|row: int| 0 <= row < grid.len() && (#[trigger] grid[row])[column] == Piece::Empty
}

/// Whether `row` is the lowest empty cell of `column`: it is empty, and no
/// cell below it is.
pub open spec fn is_open_row(grid: Seq<Seq<Piece>>, column: int, row: int) -> bool {
    &&& 0 <= row < grid.len()
    &&& grid[row][column] == Piece::Empty
    &&& forall|below: int| row < below < grid.len() ==> (#[trigger] grid[below])[column] != Piece::Empty
}

/// The row of the lowest empty cell of `column`, if the column has room.
pub open spec fn open_row(grid: Seq<Seq<Piece>>, column: int) -> Option<usize> {
    if has_room(grid, column) {
        Some((choose|row: int| is_open_row(grid, column, row)) as usize)
    } else {
        None
    }
}

/// The lowest empty cell of each column left of `upto` that has room, as row
/// and column, by ascending column.
pub open spec fn open_cells(grid: Seq<Seq<Piece>>, upto: int) -> Seq<(usize, usize)>
    decreases upto,
{
    if upto <= 0 {
        Seq::empty()
    } else {
        let before = open_cells(grid, upto - 1);
        match open_row(grid, upto - 1) {
            Some(row) => before.push((row, (upto - 1) as usize)),
            None => before,
        }
    }
}

/// The columns left of `upto` that have room.
pub open spec fn columns_with_room(grid: Seq<Seq<Piece>>, upto: int) -> Set<int> {
    Set::new(|column: int| 0 <= column < upto && has_room(grid, column))
}

/// A column has at most one lowest empty cell, so a row that is one is the
/// open row.
pub proof fn lemma_open_row_is_unique(grid: Seq<Seq<Piece>>, column: int, row: int)
    requires
        is_open_row(grid, column, row),
        grid.len() <= usize::MAX,
    ensures
        open_row(grid, column) == Some(row as usize),
{
    assert(grid[row][column] == Piece::Empty);
    assert(has_room(grid, column));
    let chosen = choose|other: int| is_open_row(grid, column, other);
    assert(is_open_row(grid, column, chosen));
    if chosen < row {
        assert(grid[row][column] != Piece::Empty);
    }
    if row < chosen {
        assert(grid[chosen][column] != Piece::Empty);
    }
}

/// A column with room has a lowest empty cell, and the open row is it.
pub proof fn lemma_open_row_exists(grid: Seq<Seq<Piece>>, column: int)
    requires
        has_room(grid, column),
        grid.len() <= usize::MAX,
    ensures
        open_row(grid, column) is Some,
        is_open_row(grid, column, open_row(grid, column).unwrap() as int),
{
    let start = choose|row: int| 0 <= row < grid.len() && (#[trigger] grid[row])[column] == Piece::Empty;
    let lowest = lemma_lowest_empty(grid, column, start, grid.len() as int);
    lemma_open_row_is_unique(grid, column, lowest);
}

/// Going down from an empty cell there is a last empty one.
proof fn lemma_lowest_empty(grid: Seq<Seq<Piece>>, column: int, empty: int, below: int) -> (lowest:
    int)
    requires
        0 <= empty < below <= grid.len(),
        grid[empty][column] == Piece::Empty,
        forall|row: int| below <= row < grid.len() ==> (#[trigger] grid[row])[column] != Piece::Empty,
    ensures
        is_open_row(grid, column, lowest),
    decreases below - empty,
{
    if grid[below - 1][column] == Piece::Empty {
        below - 1
    } else {
        lemma_lowest_empty(grid, column, empty, below - 1)
    }
}

/// What the open cells are: one for each column with room, and no other;
/// each the lowest empty cell of its column; by ascending column.
pub proof fn lemma_open_cells(grid: Seq<Seq<Piece>>, upto: int)
    requires
        grid.len() <= usize::MAX,
        0 <= upto <= usize::MAX,
    ensures
        forall|i: int|
            0 <= i < open_cells(grid, upto).len() ==> {
                let cell = #[trigger] open_cells(grid, upto)[i];
                &&& cell.1 < upto
                &&& is_open_row(grid, cell.1 as int, cell.0 as int)
            },
        forall|i: int, j: int|
            0 <= i < j < open_cells(grid, upto).len() ==> open_cells(grid, upto)[i].1 < open_cells(
                grid,
                upto,
            )[j].1,
        forall|column: int|
            0 <= column < upto && has_room(grid, column) ==> exists|i: int|
                0 <= i < open_cells(grid, upto).len() && (#[trigger] open_cells(grid, upto)[i]).1
                    == column,
    decreases upto,
{
    if upto > 0 {
        lemma_open_cells(grid, upto - 1);
        let before = open_cells(grid, upto - 1);
        let cells = open_cells(grid, upto);
        if has_room(grid, upto - 1) {
            lemma_open_row_exists(grid, upto - 1);
            assert(cells == before.push(cells.last()));
            assert(cells.last().1 == upto - 1);
        } else {
            assert(cells == before);
        }
        assert forall|column: int| 0 <= column < upto && has_room(grid, column) implies exists|
            i: int,
        |
            0 <= i < cells.len() && (#[trigger] cells[i]).1 == column by {
            if column < upto - 1 {
                let i = choose|i: int| 0 <= i < before.len() && (#[trigger] before[i]).1 == column;
                assert(cells[i].1 == column);
            } else {
                assert(cells[cells.len() - 1].1 == column);
            }
        }
    }
}

/// There are as many open cells as there are columns with room.
pub proof fn lemma_open_cells_count(grid: Seq<Seq<Piece>>, upto: int)
    requires
        0 <= upto,
    ensures
        columns_with_room(grid, upto).finite(),
        open_cells(grid, upto).len() == columns_with_room(grid, upto).len(),
    decreases upto,
{
    if upto == 0 {
        assert(columns_with_room(grid, upto) =~= Set::<int>::empty());
    } else {
        lemma_open_cells_count(grid, upto - 1);
        let before = columns_with_room(grid, upto - 1);
        if has_room(grid, upto - 1) {
            assert(columns_with_room(grid, upto) =~= before.insert(upto - 1));
        } else {
            assert(columns_with_room(grid, upto) =~= before);
        }
    }
}

impl ConnectFour {
    /// The row of the lowest empty cell of `column`, or `None` where the
    /// column is full.
    pub fn get_open_row(board: &Vec<Vec<Piece>>, column: usize) -> (open: Option<usize>)
        requires
            has_column(rows_of(board), column as int),
        ensures
            open == open_row(rows_of(board), column as int),
            open matches Some(row) ==> is_open_row(rows_of(board), column as int, row as int),
            open is None ==> !has_room(rows_of(board), column as int),
    {
        let ghost grid = rows_of(board);
        let row_len = board.len();
        let mut lowest: Option<usize> = None;
        let mut row: usize = 0;
        while row < row_len
            invariant
                row <= row_len,
                row_len == board.len(),
                grid == rows_of(board),
                has_column(grid, column as int),
                match lowest {
                    Some(open) => {
                        &&& open < row
                        &&& grid[open as int][column as int] == Piece::Empty
                        &&& forall|below: int|
                            open < below < row ==> (#[trigger] grid[below])[column as int]
                                != Piece::Empty
                    },
                    None => forall|above: int|
                        0 <= above < row ==> (#[trigger] grid[above])[column as int]
                            != Piece::Empty,
                },
            decreases row_len - row,
        {
            assert(board[row as int]@ == grid[row as int]);
            if board[row][column] == Piece::Empty {
                lowest = Some(row);
            }
            row += 1;
        }
        proof {
            match lowest {
                Some(open) => {
                    lemma_open_row_is_unique(grid, column as int, open as int);
                },
                None => {},
            }
        }
        lowest
    }

    /// The lowest empty cell of every column that has room, as row and
    /// column, from the leftmost column to the rightmost.
    pub fn get_all_open_rows(board: &Vec<Vec<Piece>>) -> (open: Vec<(usize, usize)>)
        requires
            is_rectangular(rows_of(board)),
        ensures
            open@ == open_cells(rows_of(board), width(rows_of(board)) as int),
    {
        let ghost grid = rows_of(board);
        let num_cols = if board.len() == 0 {
            0
        } else {
            board[0].len()
        };
        let mut open_rows: Vec<(usize, usize)> = Vec::new();
        let mut column: usize = 0;
        while column < num_cols
            invariant
                column <= num_cols,
                grid == rows_of(board),
                num_cols == width(grid),
                is_rectangular(grid),
                open_rows@ == open_cells(grid, column as int),
            decreases num_cols - column,
        {
            match ConnectFour::get_open_row(board, column) {
                Some(row) => {
                    open_rows.push((row, column));
                },
                None => {},
            }
            column += 1;
        }
        open_rows
    }
}

} // verus!
