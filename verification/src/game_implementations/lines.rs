//! Four in a line: what a line is, and how the board is searched for one.
//!
//! Only rows are ever scanned. Columns and diagonals are first laid out as the
//! rows of another grid.

use super::connect_four::{ConnectFour, Piece};
use crate::utils::{is_rectangular, rows_of, transposed, width};
use vstd::prelude::*;

verus! {

/// Whether `grid` has a cell in row `r` and column `c`, and that cell holds
/// `piece`.
pub open spec fn holds(grid: Seq<Seq<Piece>>, r: int, c: int, piece: Piece) -> bool {
    0 <= r < grid.len() && 0 <= c < grid[r].len() && grid[r][c] == piece
}

/// Whether the four cells that start at row `r` and column `c`, and go on by
/// `dr` rows and `dc` columns each time, all hold `piece`.
pub open spec fn line_at(
    grid: Seq<Seq<Piece>>,
    piece: Piece,
    r: int,
    c: int,
    dr: int,
    dc: int,
) -> bool {
    &&& holds(grid, r, c, piece)
    &&& holds(grid, r + dr, c + dc, piece)
    &&& holds(grid, r + 2 * dr, c + 2 * dc, piece)
    &&& holds(grid, r + 3 * dr, c + 3 * dc, piece)
}

/// Whether `grid` has four cells in a line of direction (`dr`, `dc`) that all
/// hold `piece`.
pub open spec fn has_line(grid: Seq<Seq<Piece>>, piece: Piece, dr: int, dc: int) -> bool {
    exists|r: int, c: int| line_at(grid, piece, r, c, dr, dc)
}

/// Whether `grid` has four cells that hold `piece` side by side in a row, one
/// above the other in a column, or along either diagonal.
pub open spec fn has_four(grid: Seq<Seq<Piece>>, piece: Piece) -> bool {
    ||| has_line(grid, piece, 0, 1)
    ||| has_line(grid, piece, 1, 0)
    ||| has_line(grid, piece, -1, 1)
    ||| has_line(grid, piece, 1, 1)
}

/// `grid` with every row reversed: its first column is the last of `grid`.
pub open spec fn mirrored(grid: Seq<Seq<Piece>>) -> Seq<Seq<Piece>> {
    Seq::new(grid.len(), |r: int| grid[r].reverse())
}

/// Four in a row of the transposed grid are four in a column of the grid, and
/// the other way round.
pub proof fn lemma_column_lines(grid: Seq<Seq<Piece>>, piece: Piece)
    requires
        is_rectangular(grid),
    ensures
        has_line(transposed(grid), piece, 0, 1) == has_line(grid, piece, 1, 0),
{
    let columns = transposed(grid);
    if has_line(columns, piece, 0, 1) {
        let (c, r) = choose|c: int, r: int| line_at(columns, piece, c, r, 0, 1);
        assert(holds(columns, c, r, piece));
        assert(holds(columns, c, r + 1, piece));
        assert(holds(columns, c, r + 2, piece));
        assert(holds(columns, c, r + 3, piece));
        assert(grid[r].len() == width(grid));
        assert(grid[r + 1].len() == width(grid));
        assert(grid[r + 2].len() == width(grid));
        assert(grid[r + 3].len() == width(grid));
        assert(line_at(grid, piece, r, c, 1, 0));
    }
    if has_line(grid, piece, 1, 0) {
        let (r, c) = choose|r: int, c: int| line_at(grid, piece, r, c, 1, 0);
        assert(holds(grid, r, c, piece));
        assert(holds(grid, r + 1, c, piece));
        assert(holds(grid, r + 2, c, piece));
        assert(holds(grid, r + 3, c, piece));
        assert(grid[r].len() == width(grid));
        assert(holds(columns, c, r, piece));
        assert(holds(columns, c, r + 1, piece));
        assert(holds(columns, c, r + 2, piece));
        assert(holds(columns, c, r + 3, piece));
        assert(line_at(columns, piece, c, r, 0, 1));
    }
}

/// Four on a rising diagonal of the mirrored grid are four on a falling
/// diagonal of the grid, and the other way round.
pub proof fn lemma_mirrored_lines(grid: Seq<Seq<Piece>>, piece: Piece)
    requires
        is_rectangular(grid),
    ensures
        has_line(mirrored(grid), piece, -1, 1) == has_line(grid, piece, 1, 1),
{
    let mirror = mirrored(grid);
    let cols = width(grid) as int;
    let up: int = -1;
    if has_line(mirror, piece, up, 1) {
        let (r, c) = choose|r: int, c: int| line_at(mirror, piece, r, c, up, 1);
        assert(holds(mirror, r, c, piece));
        assert(holds(mirror, r - 1, c + 1, piece));
        assert(holds(mirror, r - 2, c + 2, piece));
        assert(holds(mirror, r - 3, c + 3, piece));
        assert(grid[r].len() == cols);
        assert(grid[r - 1].len() == cols);
        assert(grid[r - 2].len() == cols);
        assert(grid[r - 3].len() == cols);
        let c0 = cols - 1 - (c + 3);
        assert(holds(grid, r - 3, c0, piece));
        assert(holds(grid, r - 2, c0 + 1, piece));
        assert(holds(grid, r - 1, c0 + 2, piece));
        assert(holds(grid, r, c0 + 3, piece));
        assert(line_at(grid, piece, r - 3, c0, 1, 1));
    }
    if has_line(grid, piece, 1, 1) {
        let (r, c) = choose|r: int, c: int| line_at(grid, piece, r, c, 1, 1);
        assert(holds(grid, r, c, piece));
        assert(holds(grid, r + 1, c + 1, piece));
        assert(holds(grid, r + 2, c + 2, piece));
        assert(holds(grid, r + 3, c + 3, piece));
        assert(grid[r].len() == cols);
        assert(grid[r + 1].len() == cols);
        assert(grid[r + 2].len() == cols);
        assert(grid[r + 3].len() == cols);
        let c0 = cols - 1 - (c + 3);
        assert(holds(mirror, r + 3, c0, piece));
        assert(holds(mirror, r + 2, c0 + 1, piece));
        assert(holds(mirror, r + 1, c0 + 2, piece));
        assert(holds(mirror, r, c0 + 3, piece));
        assert(line_at(mirror, piece, r + 3, c0, up, 1));
    }
}

impl ConnectFour {
    /// Whether some row of `board` holds `player` in four cells side by side.
    ///
    /// Each row is scanned from the left with a counter that goes up on a cell
    /// of `player` and back to zero on any other cell.
    pub fn horizontal_win(board: &Vec<Vec<Piece>>, player: Piece) -> (won: bool)
        ensures
            won == has_line(rows_of(board), player, 0, 1),
    {
        let ghost grid = rows_of(board);
        let mut r: usize = 0;
        while r < board.len()
            invariant
                r <= board.len(),
                grid == rows_of(board),
                forall|r0: int, c0: int| 0 <= r0 < r ==> !line_at(grid, player, r0, c0, 0, 1),
            decreases board.len() - r,
        {
            let row = &board[r];
            assert(row@ == grid[r as int]);
            let mut count: usize = 0;
            let mut c: usize = 0;
            while c < row.len()
                invariant
                    c <= row.len(),
                    r < board.len(),
                    grid == rows_of(board),
                    row@ == grid[r as int],
                    count <= 3,
                    count <= c,
                    forall|j: int| c - count <= j < c ==> row[j] == player,
                    count < c ==> row[c - count - 1] != player,
                    forall|c0: int| c0 + 4 <= c ==> !line_at(grid, player, r as int, c0, 0, 1),
                decreases row.len() - c,
            {
                count = if row[c] == player {
                    count + 1
                } else {
                    0
                };
                if count == 4 {
                    assert(line_at(grid, player, r as int, c - 3, 0, 1));
                    return true;
                }
                c += 1;
            }
            r += 1;
        }
        false
    }
}

} // verus!
