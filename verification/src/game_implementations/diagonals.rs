//! The rising diagonals of a board, laid out as rows.
//!
//! Row `r` and column `c` lie on the diagonal `r + c`. The cells are put in
//! buckets by that sum, each bucket is sorted by column, and the sorted
//! buckets are scanned like rows.

use super::connect_four::{ConnectFour, Piece};
use super::lines::{has_line, holds, line_at};
use crate::utils::{is_rectangular, rows_of, width};
use itertools::Itertools;
use std::cmp::Ordering;
use std::collections::HashMap;
use vstd::prelude::*;

verus! {

/// Whether `order` says how `sorted` arises from `cells` by a stable sort on
/// the column, the middle component: `sorted[j]` is `cells[order[j]]`, no
/// index is used twice, the columns ascend, and cells of one column keep the
/// order that they had in `cells`.
pub open spec fn is_stable_column_order(
    cells: Seq<(usize, usize, Piece)>,
    sorted: Seq<(usize, usize, Piece)>,
    order: Seq<int>,
) -> bool {
    &&& sorted.len() == cells.len()
    &&& order.len() == cells.len()
    &&& forall|j: int|
        0 <= j < order.len() ==> 0 <= #[trigger] order[j] < cells.len() && sorted[j]
            == cells[order[j]]
    &&& forall|i: int, j: int| 0 <= i < j < order.len() ==> order[i] != order[j]
    &&& forall|i: int, j: int| 0 <= i < j < sorted.len() ==> sorted[i].1 <= sorted[j].1
    &&& forall|i: int, j: int|
        0 <= i < j < sorted.len() && sorted[i].1 == sorted[j].1 ==> order[i] < order[j]
}

/// Whether `sorted` is `cells` after a stable sort on the column.
pub open spec fn is_sorted_by_column(
    cells: Seq<(usize, usize, Piece)>,
    sorted: Seq<(usize, usize, Piece)>,
) -> bool {
    exists|order: Seq<int>| is_stable_column_order(cells, sorted, order)
}

/// How two cells compare by column.
fn compare_columns(a: &(usize, usize, Piece), b: &(usize, usize, Piece)) -> (order: Ordering)
    ensures
        order is Less <==> a.1 < b.1,
        order is Equal <==> a.1 == b.1,
        order is Greater <==> a.1 > b.1,
{
    Ord::cmp(&a.1, &b.1)
}

/// Sorts `cells` by column, ascending, with `Itertools::sorted_by` of the
/// itertools crate, and collects the result with its `collect_vec`. Not
/// verified: the contract restates what itertools documents, that the result
/// holds the same cells in the ascending order of the comparison and that the
/// sort is stable.
#[verifier::external_body]
fn sorted_by_column(cells: Vec<(usize, usize, Piece)>) -> (sorted: Vec<(usize, usize, Piece)>)
    ensures
        is_sorted_by_column(cells@, sorted@),
{
    cells.into_iter().sorted_by(|a, b| compare_columns(a, b)).collect_vec()
}

/// The topmost row that the diagonal `key` crosses on a board of `cols`
/// columns.
pub open spec fn first_row(cols: int, key: int) -> int {
    if key - (cols - 1) > 0 {
        key - (cols - 1)
    } else {
        0
    }
}

/// The leftmost column that the diagonal `key` crosses on a board of `rows`
/// rows.
pub open spec fn first_column(rows: int, key: int) -> int {
    if key - (rows - 1) > 0 {
        key - (rows - 1)
    } else {
        0
    }
}

/// The number of cells of the diagonal `key` on a board of `rows` rows and
/// `cols` columns; `0` for a diagonal that misses the board.
pub open spec fn diagonal_len(rows: int, cols: int, key: int) -> int {
    let last_column = if key < cols - 1 {
        key
    } else {
        cols - 1
    };
    if last_column >= first_column(rows, key) {
        last_column - first_column(rows, key) + 1
    } else {
        0
    }
}

/// The number of diagonals that cross a board of `rows` rows and `cols`
/// columns.
pub open spec fn diagonal_count(rows: int, cols: int) -> int {
    if rows == 0 || cols == 0 {
        0
    } else {
        rows + cols - 1
    }
}

/// The pieces on the diagonal `key` of `grid`, by ascending column: from the
/// bottom left to the top right.
pub open spec fn diagonal_row(grid: Seq<Seq<Piece>>, key: int) -> Seq<Piece> {
    let left = first_column(grid.len() as int, key);
    Seq::new(
        diagonal_len(grid.len() as int, width(grid) as int, key) as nat,
        |j: int| grid[key - left - j][left + j],
    )
}

/// The rising diagonals of `grid` as rows, the diagonal `r + c` in row
/// `r + c`.
pub open spec fn diagonal_rows(grid: Seq<Seq<Piece>>) -> Seq<Seq<Piece>> {
    Seq::new(
        diagonal_count(grid.len() as int, width(grid) as int) as nat,
        |key: int| diagonal_row(grid, key),
    )
}

/// The first `n` cells of the diagonal `key` of `grid` by ascending row, each
/// with its row and its column.
spec fn bucket_prefix(grid: Seq<Seq<Piece>>, key: int, n: int) -> Seq<(usize, usize, Piece)> {
    let top = first_row(width(grid) as int, key);
    Seq::new(
        n as nat,
        |a: int| ((top + a) as usize, (key - top - a) as usize, grid[top + a][key - top - a]),
    )
}

/// How many cells of the diagonal `key` lie in the rows above `rows_done`, or
/// in the row `rows_done` left of the column `cols_done`.
spec fn cells_visited(cols: int, key: int, rows_done: int, cols_done: int) -> int {
    let top = first_row(cols, key);
    let last_done = if key < rows_done - 1 {
        key
    } else {
        rows_done - 1
    };
    let above: int = if last_done >= top {
        last_done - top + 1
    } else {
        0
    };
    let beside: int = if top <= rows_done <= key && key - rows_done < cols_done {
        1
    } else {
        0
    };
    above + beside
}

/// What `buckets` holds under `key`: nothing where `key` is not a key.
spec fn bucket_of(buckets: Map<usize, Vec<(usize, usize, Piece)>>, key: usize) -> Seq<
    (usize, usize, Piece),
> {
    if buckets.contains_key(key) {
        buckets[key]@
    } else {
        Seq::empty()
    }
}

/// A strictly descending sequence of `n` indices below `n` counts down from
/// `n - 1`: here its entry `j` is at most `n - 1 - j`.
proof fn lemma_descending_upper(order: Seq<int>, j: int)
    requires
        0 <= j < order.len(),
        forall|i: int| 0 <= i < order.len() ==> 0 <= #[trigger] order[i] < order.len(),
        forall|i: int, k: int| 0 <= i < k < order.len() ==> order[i] > order[k],
    ensures
        order[j] <= order.len() - 1 - j,
    decreases j,
{
    if j > 0 {
        lemma_descending_upper(order, j - 1);
    }
}

/// And its entry `j` is at least `n - 1 - j`.
proof fn lemma_descending_lower(order: Seq<int>, j: int)
    requires
        0 <= j < order.len(),
        forall|i: int| 0 <= i < order.len() ==> 0 <= #[trigger] order[i] < order.len(),
        forall|i: int, k: int| 0 <= i < k < order.len() ==> order[i] > order[k],
    ensures
        order[j] >= order.len() - 1 - j,
    decreases order.len() - j,
{
    if j + 1 < order.len() {
        lemma_descending_lower(order, j + 1);
    }
}

/// A bucket holds its diagonal by ascending row, which is by descending
/// column. Sorted by column it holds the diagonal in reverse, which is the
/// diagonal as a row.
proof fn lemma_sorted_bucket(
    grid: Seq<Seq<Piece>>,
    key: int,
    cells: Seq<(usize, usize, Piece)>,
    sorted: Seq<(usize, usize, Piece)>,
)
    requires
        is_rectangular(grid),
        grid.len() + width(grid) <= usize::MAX,
        0 <= key < diagonal_count(grid.len() as int, width(grid) as int),
        cells == bucket_prefix(
            grid,
            key,
            diagonal_len(grid.len() as int, width(grid) as int, key),
        ),
        is_sorted_by_column(cells, sorted),
    ensures
        sorted.len() == diagonal_row(grid, key).len(),
        forall|j: int| 0 <= j < sorted.len() ==> (#[trigger] sorted[j]).2 == diagonal_row(grid, key)[j],
{
    let n = cells.len() as int;
    let order = choose|order: Seq<int>| is_stable_column_order(cells, sorted, order);
    let top = first_row(width(grid) as int, key);
    assert forall|i: int, k: int| 0 <= i < k < order.len() implies order[i] > order[k] by {
        assert(sorted[i].1 <= sorted[k].1);
        assert(sorted[i] == cells[order[i]]);
        assert(sorted[k] == cells[order[k]]);
        assert(order[i] != order[k]);
    }
    assert forall|j: int| 0 <= j < sorted.len() implies (#[trigger] sorted[j]).2 == diagonal_row(
        grid,
        key,
    )[j] by {
        lemma_descending_upper(order, j);
        lemma_descending_lower(order, j);
        assert(sorted[j] == cells[order[j]]);
    }
}

/// A line along a row of the diagonals is a rising line of the grid, and the
/// other way round.
pub proof fn lemma_diagonal_rows_lines(grid: Seq<Seq<Piece>>, piece: Piece)
    requires
        is_rectangular(grid),
    ensures
        has_line(diagonal_rows(grid), piece, 0, 1) == has_line(grid, piece, -1, 1),
{
    let rows = grid.len() as int;
    let cols = width(grid) as int;
    let diagonals = diagonal_rows(grid);
    if has_line(diagonals, piece, 0, 1) {
        let (key, j) = choose|key: int, j: int| line_at(diagonals, piece, key, j, 0, 1);
        let left = first_column(rows, key);
        assert(diagonals[key] == diagonal_row(grid, key));
        assert(holds(diagonals, key, j, piece));
        assert(holds(diagonals, key, j + 1, piece));
        assert(holds(diagonals, key, j + 2, piece));
        assert(holds(diagonals, key, j + 3, piece));
        let r = key - left - j;
        let c = left + j;
        assert(grid[r].len() == cols);
        assert(grid[r - 1].len() == cols);
        assert(grid[r - 2].len() == cols);
        assert(grid[r - 3].len() == cols);
        assert(holds(grid, r, c, piece));
        assert(holds(grid, r - 1, c + 1, piece));
        assert(holds(grid, r - 2, c + 2, piece));
        assert(holds(grid, r - 3, c + 3, piece));
        assert(line_at(grid, piece, r, c, -1, 1));
    }
    if has_line(grid, piece, -1, 1) {
        let up: int = -1;
        let (r, c) = choose|r: int, c: int| line_at(grid, piece, r, c, up, 1);
        assert(holds(grid, r, c, piece));
        assert(holds(grid, r - 1, c + 1, piece));
        assert(holds(grid, r - 2, c + 2, piece));
        assert(holds(grid, r - 3, c + 3, piece));
        assert(grid[r].len() == cols);
        assert(grid[r - 1].len() == cols);
        assert(grid[r - 2].len() == cols);
        assert(grid[r - 3].len() == cols);
        let key = r + c;
        let left = first_column(rows, key);
        let j = c - left;
        assert(diagonals[key] == diagonal_row(grid, key));
        assert(holds(diagonals, key, j, piece));
        assert(holds(diagonals, key, j + 1, piece));
        assert(holds(diagonals, key, j + 2, piece));
        assert(holds(diagonals, key, j + 3, piece));
        assert(line_at(diagonals, piece, key, j, 0, 1));
    }
}

impl ConnectFour {
    /// The rising diagonals of `board` as rows: row `k` holds the cells whose
    /// row and column add up to `k`, from the bottom left to the top right.
    ///
    /// The cells are put in buckets by the sum of row and column, which is the
    /// same along such a diagonal, and each bucket is sorted by column.
    pub fn rising_diagonals(board: &Vec<Vec<Piece>>) -> (new_board: Vec<Vec<Piece>>)
        requires
            is_rectangular(rows_of(board)),
            board.len() + width(rows_of(board)) <= usize::MAX,
        ensures
            rows_of(&new_board) == diagonal_rows(rows_of(board)),
    {
        let ghost grid = rows_of(board);
        let rows = board.len();
        let cols = if rows == 0 {
            0
        } else {
            board[0].len()
        };

        /* Put every cell in the bucket of its diagonal */
        let mut buckets: HashMap<usize, Vec<(usize, usize, Piece)>> = HashMap::new();
        let mut row_num: usize = 0;
        while row_num < rows
            invariant
                row_num <= rows,
                rows == board.len(),
                grid == rows_of(board),
                cols == width(grid),
                is_rectangular(grid),
                rows + cols <= usize::MAX,
                forall|key: usize| buckets@.contains_key(key) ==> (#[trigger] buckets@[key])@.len() > 0,
                forall|key: usize| #[trigger]
                    bucket_of(buckets@, key) == bucket_prefix(
                        grid,
                        key as int,
                        cells_visited(cols as int, key as int, row_num as int, 0),
                    ),
            decreases rows - row_num,
        {
            let row = &board[row_num];
            assert(row@ == grid[row_num as int]);
            let mut col_num: usize = 0;
            while col_num < cols
                invariant
                    col_num <= cols,
                    row_num < rows,
                    rows == board.len(),
                    grid == rows_of(board),
                    row@ == grid[row_num as int],
                    row.len() == cols,
                    cols == width(grid),
                    is_rectangular(grid),
                    rows + cols <= usize::MAX,
                    forall|key: usize|
                        buckets@.contains_key(key) ==> (#[trigger] buckets@[key])@.len() > 0,
                    forall|key: usize| #[trigger]
                        bucket_of(buckets@, key) == bucket_prefix(
                            grid,
                            key as int,
                            cells_visited(cols as int, key as int, row_num as int, col_num as int),
                        ),
                decreases cols - col_num,
            {
                let total = col_num + row_num;
                let ghost before = buckets@;
                let bucket = buckets.entry(total).or_insert(Vec::new());
                assert(bucket@ == bucket_of(before, total));
                bucket.push((row_num, col_num, row[col_num]));
                assert(bucket_of(buckets@, total) == bucket_prefix(
                    grid,
                    total as int,
                    cells_visited(cols as int, total as int, row_num as int, col_num + 1),
                ));
                assert forall|key: usize| #[trigger]
                    bucket_of(buckets@, key) == bucket_prefix(
                        grid,
                        key as int,
                        cells_visited(cols as int, key as int, row_num as int, col_num + 1),
                    ) by {
                    if key != total {
                        assert(bucket_of(buckets@, key) == bucket_of(before, key));
                    }
                }
                col_num += 1;
            }
            row_num += 1;
        }

        /* Sort every bucket by column and keep the pieces */
        let ghost count = diagonal_count(rows as int, cols as int);
        assert forall|key: usize| buckets@.contains_key(key) <==> key < count by {
            assert(bucket_of(buckets@, key) == bucket_prefix(
                grid,
                key as int,
                cells_visited(cols as int, key as int, rows as int, 0),
            ));
        }
        assert forall|key: usize| key < count implies (#[trigger] buckets@[key])@ == bucket_prefix(
            grid,
            key as int,
            diagonal_len(rows as int, cols as int, key as int),
        ) by {
            assert(bucket_of(buckets@, key) == bucket_prefix(
                grid,
                key as int,
                cells_visited(cols as int, key as int, rows as int, 0),
            ));
        }
        let mut new_board: Vec<Vec<Piece>> = Vec::new();
        let mut key: usize = 0;
        loop
            invariant
                key <= count,
                key == new_board.len(),
                rows == board.len(),
                grid == rows_of(board),
                cols == width(grid),
                is_rectangular(grid),
                rows + cols <= usize::MAX,
                count == diagonal_count(rows as int, cols as int),
                forall|k: usize| buckets@.contains_key(k) <==> key <= k < count,
                forall|k: usize|
                    key <= k < count ==> (#[trigger] buckets@[k])@ == bucket_prefix(
                        grid,
                        k as int,
                        diagonal_len(rows as int, cols as int, k as int),
                    ),
                forall|k: int| 0 <= k < key ==> (#[trigger] new_board[k])@ == diagonal_row(grid, k),
            ensures
                key == count,
                key == new_board.len(),
                forall|k: int| 0 <= k < key ==> (#[trigger] new_board[k])@ == diagonal_row(grid, k),
            decreases count - key,
        {
            match buckets.remove(&key) {
                Some(bucket) => {
                    let ghost cells = bucket@;
                    let sorted = sorted_by_column(bucket);
                    let mut line: Vec<Piece> = Vec::new();
                    let mut j: usize = 0;
                    while j < sorted.len()
                        invariant
                            j <= sorted.len(),
                            line.len() == j,
                            forall|i: int| 0 <= i < j ==> #[trigger] line[i] == sorted[i].2,
                        decreases sorted.len() - j,
                    {
                        line.push(sorted[j].2);
                        j += 1;
                    }
                    assert(line@ =~= diagonal_row(grid, key as int)) by {
                        lemma_sorted_bucket(grid, key as int, cells, sorted@);
                    }
                    new_board.push(line);
                    key += 1;
                },
                None => {
                    break ;
                },
            }
        }
        assert(rows_of(&new_board) =~= diagonal_rows(grid));
        new_board
    }

    /// Whether `board` holds `player` in four cells of a rising diagonal: each
    /// one row up and one column right of the one before.
    ///
    /// The diagonals are laid out as rows, and the rows are scanned.
    pub fn diagonal_up_win(board: &Vec<Vec<Piece>>, player: Piece) -> (won: bool)
        requires
            is_rectangular(rows_of(board)),
            board.len() + width(rows_of(board)) <= usize::MAX,
        ensures
            won == has_line(rows_of(board), player, -1, 1),
    {
        let new_board = ConnectFour::rising_diagonals(board);
        proof {
            lemma_diagonal_rows_lines(rows_of(board), player);
        }
        ConnectFour::horizontal_win(&new_board, player)
    }
}

} // verus!
