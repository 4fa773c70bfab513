//! Connect-Four positions as mathematical values: what a move does to one,
//! when a game is won, and what holds of every position that play can reach.

use super::columns::{
    columns_with_room, has_room, is_open_row, lemma_open_cells, lemma_open_cells_count, open_cells,
};
use super::connect_four::Piece;
use super::lines::{has_four, holds};
use crate::game::game::GamePlayer;
use crate::utils::{is_rectangular, width};
use vstd::prelude::*;

verus! {

/// A Connect-Four position as a mathematical value: the view of a
/// [`ConnectFour`].
pub struct Position {
    /// The cells, row by row. Row `0` is the top row.
    pub cells: Seq<Seq<Piece>>,
    /// Whether red, the first player, moves next.
    pub red_turn: bool,
    /// Row and column of the piece that was dropped last.
    pub last_move: Option<(usize, usize)>,
}

impl Position {
    /// The piece of the player who moves next.
    pub open spec fn mover(self) -> Piece {
        if self.red_turn {
            Piece::Red
        } else {
            Piece::Black
        }
    }

    /// The piece of the player who made the last move.
    pub open spec fn last_mover(self) -> Piece {
        if self.red_turn {
            Piece::Black
        } else {
            Piece::Red
        }
    }

    /// The player who moves next.
    pub open spec fn player(self) -> GamePlayer {
        if self.red_turn {
            GamePlayer::Player1
        } else {
            GamePlayer::Player2
        }
    }

    /// Whether the position is well formed: the board has a row, its rows are
    /// equally long, its two sides together fit the machine's integers, and
    /// the cell of the last move, if one is recorded, holds a piece of the
    /// player who made it.
    pub open spec fn wf(self) -> bool {
        &&& self.cells.len() >= 1
        &&& is_rectangular(self.cells)
        &&& self.cells.len() + width(self.cells) <= usize::MAX
        &&& self.last_move matches Some(cell) ==> holds(
            self.cells,
            cell.0 as int,
            cell.1 as int,
            self.last_mover(),
        )
    }

    /// The position after the player to move has put a piece in `row` and
    /// `column`: that cell holds the piece, every other cell is as before,
    /// the turn has passed on, and the move is recorded.
    pub open spec fn place(self, row: int, column: int) -> Position {
        Position {
            cells: self.cells.update(row, self.cells[row].update(column, self.mover())),
            red_turn: !self.red_turn,
            last_move: Some((row as usize, column as usize)),
        }
    }

    /// Whether the player who made the last move has four in a line.
    pub open spec fn won(self) -> bool {
        has_four(self.cells, self.last_mover())
    }

    /// The cells that a piece can be dropped to, by ascending column.
    pub open spec fn open_moves(self) -> Seq<(usize, usize)> {
        open_cells(self.cells, width(self.cells) as int)
    }

    /// The positions that one move leads to, by ascending column: none where
    /// the game is won, else one for each column with room.
    pub open spec fn successors(self) -> Seq<Position> {
        if self.won() {
            Seq::empty()
        } else {
            self.open_moves().map_values(
                |cell: (usize, usize)| self.place(cell.0 as int, cell.1 as int),
            )
        }
    }

    /// The number of empty cells.
    pub open spec fn empties(self) -> nat {
        count_empty(self.cells)
    }

    /// The empty board of six rows and seven columns, red to move.
    pub open spec fn initial() -> Position {
        Position {
            cells: Seq::new(6, |r: int| Seq::new(7, |c: int| Piece::Empty)),
            red_turn: true,
            last_move: None,
        }
    }

    /// The board as text: for each row a line feed and then one character for
    /// each cell.
    pub open spec fn rendering(self) -> Seq<char> {
        render_rows(self.cells, self.cells.len() as int)
    }
}

/// The character that shows `piece`.
pub open spec fn symbol(piece: Piece) -> char {
    match piece {
        Piece::Red => 'R',
        Piece::Black => 'B',
        Piece::Empty => '.',
    }
}

/// The text of the first `n` rows of `grid`.
pub open spec fn render_rows(grid: Seq<Seq<Piece>>, n: int) -> Seq<char>
    decreases n,
{
    if n <= 0 {
        Seq::empty()
    } else {
        render_rows(grid, n - 1) + seq!['\n'] + grid[n - 1].map_values(|piece: Piece| symbol(piece))
    }
}

/// The number of empty cells of `row`.
pub open spec fn empty_in_row(row: Seq<Piece>) -> nat
    decreases row.len(),
{
    if row.len() == 0 {
        0
    } else {
        empty_in_row(row.drop_last()) + if row.last() == Piece::Empty {
            1nat
        } else {
            0nat
        }
    }
}

/// The number of empty cells of `grid`.
pub open spec fn count_empty(grid: Seq<Seq<Piece>>) -> nat
    decreases grid.len(),
{
    if grid.len() == 0 {
        0
    } else {
        count_empty(grid.drop_last()) + empty_in_row(grid.last())
    }
}

/// A piece put on an empty cell of a row leaves one empty cell less.
proof fn lemma_fill_in_row(row: Seq<Piece>, column: int, piece: Piece)
    requires
        0 <= column < row.len(),
        row[column] == Piece::Empty,
        piece != Piece::Empty,
    ensures
        empty_in_row(row.update(column, piece)) + 1 == empty_in_row(row),
    decreases row.len(),
{
    let filled = row.update(column, piece);
    if column == row.len() - 1 {
        assert(filled.drop_last() == row.drop_last());
    } else {
        assert(filled.drop_last() == row.drop_last().update(column, piece));
        lemma_fill_in_row(row.drop_last(), column, piece);
    }
}

/// A piece put on an empty cell of a grid leaves one empty cell less.
proof fn lemma_fill_in_grid(grid: Seq<Seq<Piece>>, row: int, column: int, piece: Piece)
    requires
        0 <= row < grid.len(),
        0 <= column < grid[row].len(),
        grid[row][column] == Piece::Empty,
        piece != Piece::Empty,
    ensures
        count_empty(grid.update(row, grid[row].update(column, piece))) + 1 == count_empty(grid),
    decreases grid.len(),
{
    let filled = grid.update(row, grid[row].update(column, piece));
    if row == grid.len() - 1 {
        assert(filled.drop_last() == grid.drop_last());
        lemma_fill_in_row(grid[row], column, piece);
    } else {
        assert(filled.drop_last() == grid.drop_last().update(
            row,
            grid.drop_last()[row].update(column, piece),
        ));
        lemma_fill_in_grid(grid.drop_last(), row, column, piece);
    }
}

/// The facts on which the search for the best move rests. From a well-formed
/// position, a won game has no further move; every move leads to a
/// well-formed position in which the other player moves; and every move fills
/// one empty cell.
pub proof fn lemma_position_successors(m: Position)
    requires
        m.wf(),
    ensures
        m.won() ==> m.successors().len() == 0,
        forall|i: int|
            0 <= i < m.successors().len() ==> {
                let next = #[trigger] m.successors()[i];
                &&& next.wf()
                &&& next.red_turn != m.red_turn
                &&& next.empties() + 1 == m.empties()
            },
{
    lemma_open_cells(m.cells, width(m.cells) as int);
    assert forall|i: int| 0 <= i < m.successors().len() implies {
        let next = #[trigger] m.successors()[i];
        &&& next.wf()
        &&& next.red_turn != m.red_turn
        &&& next.empties() + 1 == m.empties()
    } by {
        let cell = m.open_moves()[i];
        assert(is_open_row(m.cells, cell.1 as int, cell.0 as int));
        assert(m.cells[cell.0 as int].len() == width(m.cells));
        lemma_fill_in_grid(m.cells, cell.0 as int, cell.1 as int, m.mover());
        lemma_place_is_well_formed(m, cell.0 as int, cell.1 as int);
    }
}

/// A piece put on a cell of a well-formed position leaves it well formed.
pub proof fn lemma_place_is_well_formed(m: Position, row: int, column: int)
    requires
        m.wf(),
        0 <= row < m.cells.len(),
        0 <= column < width(m.cells),
    ensures
        m.place(row, column).wf(),
        width(m.place(row, column).cells) == width(m.cells),
        m.place(row, column).cells.len() == m.cells.len(),
{
    let next = m.place(row, column);
    assert(m.cells[row].len() == width(m.cells));
    assert forall|r: int| 0 <= r < next.cells.len() implies (#[trigger] next.cells[r]).len()
        == next.cells[0].len() by {
        assert(m.cells[r].len() == m.cells[0].len());
    }
}

/// Whether the pieces of `grid` obey gravity: no cell below a piece is empty.
pub open spec fn obeys_gravity(grid: Seq<Seq<Piece>>) -> bool {
    forall|r: int, below: int, c: int|
        #![trigger grid[r][c], grid[below][c]]
        0 <= r < below < grid.len() && 0 <= c < grid[r].len() && grid[r][c] != Piece::Empty
            ==> grid[below][c] != Piece::Empty
}

/// The number of pieces on the board of `m`: the number of moves that were
/// made on it.
pub open spec fn pieces(m: Position) -> int {
    m.cells.len() * width(m.cells) - m.empties()
}

/// Whether `m` has what every position has that play reaches from an empty
/// board on which red moves first: it is well formed, its pieces obey
/// gravity, and red is to move exactly when the number of pieces is even.
pub open spec fn in_play(m: Position) -> bool {
    &&& m.wf()
    &&& obeys_gravity(m.cells)
    &&& m.red_turn <==> pieces(m) % 2 == 0
}

/// A row of `n` empty cells has `n` empty cells.
proof fn lemma_empty_row(row: Seq<Piece>)
    requires
        forall|c: int| 0 <= c < row.len() ==> row[c] == Piece::Empty,
    ensures
        empty_in_row(row) == row.len(),
    decreases row.len(),
{
    if row.len() > 0 {
        lemma_empty_row(row.drop_last());
    }
}

/// A grid of empty cells has as many empty cells as it has cells.
proof fn lemma_empty_grid(grid: Seq<Seq<Piece>>, cols: nat)
    requires
        forall|r: int| 0 <= r < grid.len() ==> (#[trigger] grid[r]).len() == cols,
        forall|r: int, c: int| 0 <= r < grid.len() && 0 <= c < cols ==> grid[r][c] == Piece::Empty,
    ensures
        count_empty(grid) == grid.len() * cols,
    decreases grid.len(),
{
    if grid.len() > 0 {
        lemma_empty_grid(grid.drop_last(), cols);
        lemma_empty_row(grid.last());
        assert((grid.len() - 1) * cols + cols == grid.len() * cols) by (nonlinear_arith);
    }
}

/// The starting position is one that play can reach: nothing is on the board
/// and red moves.
pub proof fn lemma_initial_is_in_play()
    ensures
        in_play(Position::initial()),
        pieces(Position::initial()) == 0,
{
    let m = Position::initial();
    lemma_empty_grid(m.cells, 7);
}

/// Gravity: a move puts the piece of the player to move in the lowest empty
/// cell of its column. After the move that cell holds the piece, no cell
/// below it is empty, every other cell is as before, the turn has passed to
/// the other player, and the move is recorded as the last one.
pub proof fn lemma_move_drops_piece(m: Position, i: int)
    requires
        m.wf(),
        0 <= i < m.successors().len(),
    ensures
        ({
            let next = m.successors()[i];
            let (row, column) = m.open_moves()[i];
            &&& is_open_row(m.cells, column as int, row as int)
            &&& 0 <= column < width(m.cells)
            &&& next.cells[row as int][column as int] == m.mover()
            &&& next.cells[row as int][column as int] != Piece::Empty
            &&& forall|below: int|
                row < below < next.cells.len() ==> (#[trigger] next.cells[below])[column as int]
                    != Piece::Empty
            &&& forall|r: int, c: int|
                0 <= r < m.cells.len() && 0 <= c < width(m.cells) && (r != row || c != column)
                    ==> #[trigger] next.cells[r][c] == m.cells[r][c]
            &&& next.cells.len() == m.cells.len()
            &&& width(next.cells) == width(m.cells)
            &&& next.red_turn == !m.red_turn
            &&& next.last_move == Some((row, column))
        }),
{
    lemma_open_cells(m.cells, width(m.cells) as int);
    let cell = m.open_moves()[i];
    assert(is_open_row(m.cells, cell.1 as int, cell.0 as int));
    lemma_place_is_well_formed(m, cell.0 as int, cell.1 as int);
    assert forall|r: int| 0 <= r < m.cells.len() implies (#[trigger] m.cells[r]).len() == width(
        m.cells,
    ) by {}
}

/// What play can reach stays what play can reach: a move from such a position
/// leads to another one, with one piece more.
pub proof fn lemma_move_stays_in_play(m: Position, i: int)
    requires
        in_play(m),
        0 <= i < m.successors().len(),
    ensures
        in_play(m.successors()[i]),
        pieces(m.successors()[i]) == pieces(m) + 1,
{
    let next = m.successors()[i];
    let (row, column) = m.open_moves()[i];
    lemma_position_successors(m);
    lemma_move_drops_piece(m, i);
    assert forall|r: int| 0 <= r < m.cells.len() implies (#[trigger] m.cells[r]).len() == width(
        m.cells,
    ) by {}
    assert forall|r: int| 0 <= r < next.cells.len() implies (#[trigger] next.cells[r]).len()
        == width(m.cells) by {}
    assert forall|r: int, below: int, c: int|
        #![trigger next.cells[r][c], next.cells[below][c]]
        0 <= r < below < next.cells.len() && 0 <= c < next.cells[r].len() && next.cells[r][c]
            != Piece::Empty implies next.cells[below][c] != Piece::Empty by {
        assert(next.cells[r].len() == width(m.cells));
        if c == column {
            if below > row {
                assert(next.cells[below][c] != Piece::Empty);
            } else if below < row {
                assert(next.cells[r][c] == m.cells[r][c]);
                assert(m.cells[row as int][c] != Piece::Empty);
            }
        } else {
            assert(next.cells[r][c] == m.cells[r][c]);
            assert(next.cells[below][c] == m.cells[below][c]);
            assert(m.cells[below][c] != Piece::Empty);
        }
    }
}

/// As long as the game is not won there is one move for each column with
/// room. A won game has no move, and neither has a full board.
pub proof fn lemma_number_of_moves(m: Position)
    ensures
        columns_with_room(m.cells, width(m.cells) as int).finite(),
        !m.won() ==> m.successors().len() == columns_with_room(
            m.cells,
            width(m.cells) as int,
        ).len(),
        m.won() ==> m.successors().len() == 0,
        (forall|column: int| 0 <= column < width(m.cells) ==> !has_room(m.cells, column))
            ==> m.successors().len() == 0,
{
    lemma_open_cells_count(m.cells, width(m.cells) as int);
    if forall|column: int| 0 <= column < width(m.cells) ==> !has_room(m.cells, column) {
        assert(columns_with_room(m.cells, width(m.cells) as int) =~= Set::<int>::empty());
    }
}

} // verus!
