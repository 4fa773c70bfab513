//! Connect Four: the board, the legal moves and the end of the game.

use super::columns::{
    has_room, is_open_row, lemma_open_cells, lemma_open_row_is_unique, open_cells, open_row,
};
use super::lines::{lemma_column_lines, lemma_mirrored_lines, mirrored};
use super::position::{
    lemma_place_is_well_formed, lemma_position_successors, render_rows, symbol, Position,
};
use crate::game::game::GamePlayer;
use crate::game::rules::GameRules;
use crate::game::state::GameState;
use crate::utils::{all_rows_equally_long, is_rectangular, rows_of, width, zip};
use vstd::prelude::*;

verus! {

/// What a cell of the board holds.
#[derive(Debug, Clone, Copy, Eq, PartialEq, Structural)]
pub enum Piece {
    Empty,
    Red,
    Black,
}

/// A Connect-Four position: the board, the player to move, and the last move.
///
/// A position is never changed: a move gives a new one.
#[derive(Debug, Clone)]
pub struct ConnectFour {
    board: Vec<Vec<Piece>>,
    red_turn: bool,
    last_move: Option<(usize, usize)>,
}

impl View for ConnectFour {
    type V = Position;

    closed spec fn view(&self) -> Position {
        Position {
            cells: rows_of(&self.board),
            red_turn: self.red_turn,
            last_move: self.last_move,
        }
    }
}

/// Why a board was not accepted as the board of a position.
#[derive(Debug, Clone, Copy, Eq, PartialEq, Structural)]
pub enum BoardError {
    /// The board has no row.
    NoRows,
    /// Two rows of the board differ in length.
    NotRectangular,
    /// The number of rows and the number of columns together exceed the
    /// machine's integers.
    TooLarge,
}

/// Why a move was not made.
#[derive(Debug, Clone, Copy, Eq, PartialEq, Structural)]
pub enum MoveError {
    /// The board has no column of that number.
    ColumnOutOfRange,
    /// The column has no empty cell.
    ColumnFull,
}

/// Appends `ch` to `text`. Not verified: the contract restates what the
/// standard library documents of `String::push`.
pub assume_specification[ String::push ](text: &mut String, ch: char)
    ensures
        final(text)@ == old(text)@.push(ch),
;

impl ConnectFour {
    /// The position with the given board, in which red moves next if
    /// `red_turn` holds and black if not, and no last move is recorded.
    ///
    /// The board is accepted as it is: it need not be one that play can reach.
    pub fn from_board(board: Vec<Vec<Piece>>, red_turn: bool) -> (result: Result<Self, BoardError>)
        ensures
            match result {
                Ok(state) => {
                    &&& state@.wf()
                    &&& state@ == (Position { cells: rows_of(&board), red_turn, last_move: None })
                },
                Err(BoardError::NoRows) => board.len() == 0,
                Err(BoardError::NotRectangular) => {
                    &&& board.len() > 0
                    &&& !is_rectangular(rows_of(&board))
                },
                Err(BoardError::TooLarge) => {
                    &&& board.len() > 0
                    &&& is_rectangular(rows_of(&board))
                    &&& board.len() + width(rows_of(&board)) > usize::MAX
                },
            },
    {
        if board.len() == 0 {
            return Err(BoardError::NoRows);
        }
        if !all_rows_equally_long(&board) {
            return Err(BoardError::NotRectangular);
        }
        let num_cols = board[0].len();
        if board.len().checked_add(num_cols).is_none() {
            return Err(BoardError::TooLarge);
        }
        Ok(ConnectFour { board, red_turn, last_move: None })
    }

    /// The board, row by row from the top.
    pub fn board(&self) -> (board: &Vec<Vec<Piece>>)
        ensures
            rows_of(board) == self@.cells,
    {
        &self.board
    }

    /// Row and column of the piece that was dropped last, if any was.
    pub fn last_move(&self) -> (cell: Option<(usize, usize)>)
        ensures
            cell == self@.last_move,
    {
        self.last_move
    }

    /// The position after the player to move has put a piece in `row` and
    /// `column`.
    pub fn set_position(&self, row: usize, column: usize) -> (next: Self)
        requires
            self@.wf(),
            row < self@.cells.len(),
            column < width(self@.cells),
        ensures
            next@ == self@.place(row as int, column as int),
            next@.wf(),
    {
        let piece = if self.red_turn {
            Piece::Red
        } else {
            Piece::Black
        };
        proof {
            lemma_place_is_well_formed(self@, row as int, column as int);
            assert(self@.cells[row as int].len() == width(self@.cells));
        }
        let mut new_board = self.board.clone();
        assert(rows_of(&new_board) =~~= rows_of(&self.board));
        new_board[row][column] = piece;
        assert(rows_of(&new_board) =~~= self@.place(row as int, column as int).cells);
        ConnectFour { board: new_board, red_turn: !self.red_turn, last_move: Some((row, column)) }
    }

    /// The position after the player to move has dropped a piece into the
    /// column `col`: the piece lies in the lowest empty cell of that column.
    /// A column that the board does not have, or that is full, is an error.
    pub fn make_user_move(&self, col: usize) -> (result: Result<Self, MoveError>)
        requires
            self@.wf(),
        ensures
            match result {
                Ok(next) => {
                    &&& col < width(self@.cells)
                    &&& open_row(self@.cells, col as int) matches Some(row)
                    &&& is_open_row(self@.cells, col as int, row as int)
                    &&& next@ == self@.place(row as int, col as int)
                    &&& next@.wf()
                },
                Err(MoveError::ColumnOutOfRange) => col >= width(self@.cells),
                Err(MoveError::ColumnFull) => {
                    &&& col < width(self@.cells)
                    &&& !has_room(self@.cells, col as int)
                },
            },
    {
        let ghost grid = self@.cells;
        let valid_moves = ConnectFour::get_all_open_rows(&self.board);
        let mut i: usize = 0;
        while i < valid_moves.len()
            invariant
                i <= valid_moves.len(),
                self@.wf(),
                grid == self@.cells,
                valid_moves@ == open_cells(grid, width(grid) as int),
                forall|j: int| 0 <= j < i ==> (#[trigger] valid_moves[j]).1 != col,
            decreases valid_moves.len() - i,
        {
            let player_move = valid_moves[i];
            if player_move.1 == col {
                proof {
                    lemma_open_cells(grid, width(grid) as int);
                    lemma_open_row_is_unique(grid, col as int, player_move.0 as int);
                }
                return Ok(self.set_position(player_move.0, player_move.1));
            }
            i += 1;
        }
        proof {
            lemma_open_cells(grid, width(grid) as int);
        }
        if col >= self.board[0].len() {
            Err(MoveError::ColumnOutOfRange)
        } else {
            Err(MoveError::ColumnFull)
        }
    }
}

impl GameState for ConnectFour {
    open spec fn valid(m: Position) -> bool {
        m.wf()
    }

    open spec fn start() -> Position {
        Position::initial()
    }

    open spec fn to_move(m: Position) -> GamePlayer {
        m.player()
    }

    open spec fn rendering(m: Position) -> Seq<char> {
        m.rendering()
    }

    proof fn lemma_start_is_valid() {
    }

    /// The empty board of six rows and seven columns, with red to move and no
    /// last move.
    fn initial_state() -> (state: Self) {
        let mut board: Vec<Vec<Piece>> = Vec::new();
        while board.len() < 6
            invariant
                board.len() <= 6,
                forall|r: int|
                    0 <= r < board.len() ==> (#[trigger] board[r])@ == Seq::new(
                        7,
                        |c: int| Piece::Empty,
                    ),
            decreases 6 - board.len(),
        {
            let mut row: Vec<Piece> = Vec::new();
            while row.len() < 7
                invariant
                    row.len() <= 7,
                    forall|c: int| 0 <= c < row.len() ==> row[c] == Piece::Empty,
                decreases 7 - row.len(),
            {
                row.push(Piece::Empty);
            }
            assert(row@ =~= Seq::new(7, |c: int| Piece::Empty));
            board.push(row);
        }
        assert(rows_of(&board) =~~= Position::initial().cells);
        ConnectFour { board, red_turn: true, last_move: Option::None }
    }

    fn state_to_string(&self) -> (text: String) {
        let ghost grid = self@.cells;
        let mut text = String::new();
        let mut r: usize = 0;
        while r < self.board.len()
            invariant
                r <= self.board.len(),
                grid == rows_of(&self.board),
                text@ == render_rows(grid, r as int),
            decreases self.board.len() - r,
        {
            let row = &self.board[r];
            assert(row@ == grid[r as int]);
            let ghost line = render_rows(grid, r as int) + seq!['\n'];
            text.push('\n');
            let mut c: usize = 0;
            while c < row.len()
                invariant
                    c <= row.len(),
                    text@ == line + row@.take(c as int).map_values(|piece: Piece| symbol(piece)),
                decreases row.len() - c,
            {
                let mark = match row[c] {
                    Piece::Red => 'R',
                    Piece::Black => 'B',
                    Piece::Empty => '.',
                };
                text.push(mark);
                assert(row@.take(c + 1).map_values(|piece: Piece| symbol(piece)) =~= row@.take(
                    c as int,
                ).map_values(|piece: Piece| symbol(piece)).push(mark));
                c += 1;
            }
            assert(row@.take(c as int) =~= row@);
            r += 1;
        }
        text
    }

    fn player_turn(&self) -> (player: GamePlayer) {
        if self.red_turn {
            GamePlayer::Player1
        } else {
            GamePlayer::Player2
        }
    }
}

impl GameRules for ConnectFour {
    open spec fn successors(m: Position) -> Seq<Position> {
        m.successors()
    }

    open spec fn won(m: Position) -> bool {
        m.won()
    }

    open spec fn plies_left(m: Position) -> nat {
        m.empties()
    }

    proof fn lemma_successors(m: Position) {
        lemma_position_successors(m);
    }

    /// One position for each column with room, from the leftmost to the
    /// rightmost: the piece of the player to move lies in the lowest empty
    /// cell of the column. No position where the game is over.
    fn possible_moves(&self) -> (moves: Vec<Self>) {
        if self.is_game_over() {
            return Vec::new();
        }
        let board = &self.board;
        let open_rows = ConnectFour::get_all_open_rows(board);
        proof {
            lemma_open_cells(self@.cells, width(self@.cells) as int);
        }
        let mut new_states: Vec<Self> = Vec::new();
        let mut i: usize = 0;
        while i < open_rows.len()
            invariant
                i <= open_rows.len(),
                self@.wf(),
                open_rows@ == self@.open_moves(),
                new_states.len() == i,
                forall|j: int|
                    0 <= j < open_rows.len() ==> {
                        let cell = #[trigger] open_rows[j];
                        &&& cell.1 < width(self@.cells)
                        &&& is_open_row(self@.cells, cell.1 as int, cell.0 as int)
                    },
                forall|j: int|
                    0 <= j < i ==> (#[trigger] new_states[j])@ == self@.place(
                        open_rows[j].0 as int,
                        open_rows[j].1 as int,
                    ),
            decreases open_rows.len() - i,
        {
            let (row, column) = open_rows[i];
            new_states.push(self.set_position(row, column));
            i += 1;
        }
        return new_states;
    }

    fn is_game_over(&self) -> (over: bool) {
        ConnectFour::get_all_open_rows(&self.board).is_empty() || self.is_winning_state()
    }

    /// Whether the player who made the last move has four in a line.
    ///
    /// Only rows are scanned: the board itself for four side by side, its
    /// transpose for four in a column, its rising diagonals laid out as rows,
    /// and those of the mirrored board for the falling diagonals.
    fn is_winning_state(&self) -> (won: bool) {
        let ghost grid = self@.cells;
        let last_player = if self.red_turn {
            Piece::Black
        } else {
            Piece::Red
        };

        if ConnectFour::horizontal_win(&self.board, last_player) {
            return true;
        }
        // Transpose to transform vertical wins into horizontal wins

        let copied_board = self.board.clone();
        assert(rows_of(&copied_board) =~~= grid);
        proof {
            lemma_column_lines(grid, last_player);
        }
        match zip(copied_board) {
            Ok(transposed_board) => {
                if ConnectFour::horizontal_win(&transposed_board, last_player) {
                    return true;
                }
            },
            Err(_) => {},
        }

        if ConnectFour::diagonal_up_win(&self.board, last_player) {
            return true;
        }
        // Reverse all rows to transform falling diagonals into rising ones

        let mut reversed_column_board: Vec<Vec<Piece>> = Vec::new();
        let mut r: usize = 0;
        while r < self.board.len()
            invariant
                r <= self.board.len(),
                grid == rows_of(&self.board),
                reversed_column_board.len() == r,
                forall|i: int|
                    0 <= i < r ==> (#[trigger] reversed_column_board[i])@ == grid[i].reverse(),
            decreases self.board.len() - r,
        {
            let row = &self.board[r];
            assert(row@ == grid[r as int]);
            let mut reversed: Vec<Piece> = Vec::new();
            let mut c: usize = row.len();
            while c > 0
                invariant
                    c <= row.len(),
                    reversed.len() == row.len() - c,
                    forall|i: int|
                        0 <= i < reversed.len() ==> #[trigger] reversed[i] == row[row.len() - 1
                            - i],
                decreases c,
            {
                c -= 1;
                reversed.push(row[c]);
            }
            assert(reversed@ =~= row@.reverse());
            reversed_column_board.push(reversed);
            r += 1;
        }
        assert(rows_of(&reversed_column_board) =~~= mirrored(grid));
        proof {
            lemma_mirrored_lines(grid, last_player);
            assert(is_rectangular(mirrored(grid))) by {
                assert forall|i: int| 0 <= i < mirrored(grid).len() implies (#[trigger] mirrored(
                    grid,
                )[i]).len() == mirrored(grid)[0].len() by {
                    assert(grid[i].len() == grid[0].len());
                }
            }
        }
        if ConnectFour::diagonal_up_win(&reversed_column_board, last_player) {
            return true;
        }
        return false;
    }

    /// `1` where the game is won and `player` made the last move, `-1` where
    /// it is won and the opponent made it, `0` where it is not won.
    fn reward_value(&self, player: GamePlayer) -> (reward: i64) {
        let last_player = if self.red_turn {
            GamePlayer::Player2
        } else {
            GamePlayer::Player1
        };

        let winner = self.is_winning_state();
        let score: i64 = if winner && last_player == player {
            1
        } else if winner && last_player != player {
            -1
        } else {
            0
        };

        score
    }
}

} // verus!
