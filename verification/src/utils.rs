//! Grids as vectors of rows, and the transposition of a rectangular grid.

use std::collections::BTreeMap;
use vstd::prelude::*;

verus! {

/// The rows of `grid`, each as a sequence of its cells.
pub open spec fn rows_of<U>(grid: &Vec<Vec<U>>) -> Seq<Seq<U>> {
    Seq::new(grid.len() as nat, |r: int| grid[r]@)
}

/// Whether every row of `grid` is as long as the first one.
pub open spec fn is_rectangular<U>(grid: Seq<Seq<U>>) -> bool {
    forall|r: int| 0 <= r < grid.len() ==> (#[trigger] grid[r]).len() == grid[0].len()
}

/// The length of the first row of `grid`; `0` for a grid without rows.
pub open spec fn width<U>(grid: Seq<Seq<U>>) -> nat {
    if grid.len() == 0 {
        0
    } else {
        grid[0].len()
    }
}

/// The columns of `grid` as rows, leftmost column first: cell `r` of row `c`
/// is cell `c` of row `r` of `grid`.
pub open spec fn transposed<U>(grid: Seq<Seq<U>>) -> Seq<Seq<U>> {
    Seq::new(width(grid), |c: int| Seq::new(grid.len(), |r: int| grid[r][c]))
}

/// The transposed grid has one row for each column of `grid`, each as long as
/// `grid` has rows. So a single row of `n` cells becomes `n` rows of one cell.
pub proof fn lemma_transposed_shape<U>(grid: Seq<Seq<U>>)
    ensures
        transposed(grid).len() == width(grid),
        forall|c: int| 0 <= c < width(grid) ==> (#[trigger] transposed(grid)[c]).len() == grid.len(),
        is_rectangular(transposed(grid)),
{
}

/// Transposing a rectangular grid twice gives the grid back, provided that
/// its rows are not empty: a grid of empty rows has no columns, and its
/// transpose has no rows at all.
pub proof fn lemma_transposed_twice<U>(grid: Seq<Seq<U>>)
    requires
        is_rectangular(grid),
        grid.len() == 0 || width(grid) > 0,
    ensures
        transposed(transposed(grid)) == grid,
{
    lemma_transposed_shape(grid);
    assert(transposed(transposed(grid)) =~~= grid);
}

/// Why a grid was not transposed.
#[derive(PartialEq, Eq, Structural, Clone, Copy, Debug)]
pub enum GridError {
    /// Two rows of the grid differ in length.
    NotRectangular,
}

/// What `columns` holds under the index `c`: nothing where the index is not a
/// key.
spec fn column_of<U>(columns: Map<usize, Vec<U>>, c: usize) -> Seq<U> {
    if columns.contains_key(c) {
        columns[c]@
    } else {
        Seq::empty()
    }
}

/// The first `height` cells of column `c` of `grid`, top to bottom.
spec fn column_prefix<U>(grid: Seq<Seq<U>>, c: int, height: int) -> Seq<U> {
    Seq::new(height as nat, |r: int| grid[r][c])
}

/// Whether every row of `grid` is as long as the first one.
pub fn all_rows_equally_long<U>(grid: &Vec<Vec<U>>) -> (equal: bool)
    ensures
        equal == is_rectangular(rows_of(grid)),
{
    if grid.len() == 0 {
        return true;
    }
    let row_len = grid[0].len();
    let mut checked: usize = 1;
    while checked < grid.len()
        invariant
            1 <= checked <= grid.len(),
            row_len == rows_of(grid)[0].len(),
            forall|r: int| 0 <= r < checked ==> (#[trigger] rows_of(grid)[r]).len() == row_len,
        decreases grid.len() - checked,
    {
        if grid[checked].len() != row_len {
            assert(rows_of(grid)[checked as int].len() != rows_of(grid)[0].len());
            return false;
        }
        checked += 1;
    }
    true
}

/// Transposes a grid: the result's rows are the columns of `iter`, in column
/// order. A grid whose rows differ in length is rejected.
///
/// The cells are grouped by their index within the row, and the groups are
/// handed out by ascending index.
pub fn zip<U>(iter: Vec<Vec<U>>) -> (result: Result<Vec<Vec<U>>, GridError>)
    ensures
        result is Ok <==> is_rectangular(rows_of(&iter)),
        result matches Ok(columns) ==> rows_of(&columns) == transposed(rows_of(&iter)),
        result matches Err(e) ==> e == GridError::NotRectangular,
{
    let ghost grid = rows_of(&iter);
    if !all_rows_equally_long(&iter) {
        return Err(GridError::NotRectangular);
    }
    let height = iter.len();
    let row_len = if height == 0 {
        0
    } else {
        iter[0].len()
    };

    /* Group the cells by their index within the row */
    let mut columns: BTreeMap<usize, Vec<U>> = BTreeMap::new();
    for row in rows: iter
        invariant
            rows.seq() == iter@,
            height == iter.len(),
            grid == rows_of(&iter),
            row_len == width(grid),
            is_rectangular(grid),
            forall|c: usize| columns@.contains_key(c) ==> c < row_len,
            forall|c: usize|
                c < row_len ==> #[trigger] column_of(columns@, c) == column_prefix(
                    grid,
                    c as int,
                    rows.index() as int,
                ),
    {
        let ghost r = rows.index() as int;
        assert(row@ == grid[r]);
        let mut indice: usize = 0;
        for elem in cells: row
            invariant
                cells.seq() == grid[r],
                0 <= r < height,
                height == iter.len(),
                grid == rows_of(&iter),
                row_len == width(grid),
                is_rectangular(grid),
                indice == cells.index(),
                forall|c: usize| columns@.contains_key(c) ==> c < row_len,
                forall|c: usize|
                    c < row_len ==> #[trigger] column_of(columns@, c) == column_prefix(
                        grid,
                        c as int,
                        if c < indice {
                            r + 1
                        } else {
                            r
                        },
                    ),
        {
            assert(grid[r].len() == row_len);
            let ghost before = columns@;
            let mut column = match columns.remove(&indice) {
                Some(column) => column,
                None => Vec::new(),
            };
            assert(column@ == column_of(before, indice));
            column.push(elem);
            assert(column@ == column_prefix(grid, indice as int, r + 1));
            columns.insert(indice, column);
            assert forall|c: usize| c < row_len implies #[trigger] column_of(columns@, c)
                == column_prefix(
                grid,
                c as int,
                if c < indice + 1 {
                    r + 1
                } else {
                    r
                },
            ) by {
                if c != indice {
                    assert(column_of(columns@, c) == column_of(before, c));
                }
            }
            indice += 1;
        }
    }

    assert forall|c: usize| c < row_len implies #[trigger] columns@.contains_key(c) by {
        assert(column_of(columns@, c) == column_prefix(grid, c as int, height as int));
        assert(column_prefix(grid, c as int, height as int).len() == height);
    }
    assert forall|c: usize| c < row_len implies (#[trigger] columns@[c])@ == column_prefix(
        grid,
        c as int,
        height as int,
    ) by {
        assert(column_of(columns@, c) == column_prefix(grid, c as int, height as int));
    }

    /* Hand the groups out by ascending index */
    let mut transposed_grid: Vec<Vec<U>> = Vec::new();
    let mut next: usize = 0;
    loop
        invariant
            next <= row_len,
            next == transposed_grid.len(),
            height == iter.len(),
            grid == rows_of(&iter),
            row_len == width(grid),
            forall|c: usize| columns@.contains_key(c) <==> next <= c < row_len,
            forall|c: usize|
                next <= c < row_len ==> (#[trigger] columns@[c])@ == column_prefix(
                    grid,
                    c as int,
                    height as int,
                ),
            forall|c: int|
                0 <= c < next ==> (#[trigger] transposed_grid[c])@ == column_prefix(
                    grid,
                    c,
                    height as int,
                ),
        ensures
            next == row_len,
            next == transposed_grid.len(),
            forall|c: int|
                0 <= c < next ==> (#[trigger] transposed_grid[c])@ == column_prefix(
                    grid,
                    c,
                    height as int,
                ),
        decreases row_len - next,
    {
        match columns.remove(&next) {
            Some(column) => {
                transposed_grid.push(column);
                next += 1;
            },
            None => {
                break ;
            },
        }
    }
    assert(rows_of(&transposed_grid) =~~= transposed(grid));
    Ok(transposed_grid)
}

} // verus!
