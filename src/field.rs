use vstd::prelude::*;

use crate::cell::{Cell, State};
use crate::coordinates::Coordinates;

verus! {

/// A 3x3 board of cells, indexed by row and then column.
pub struct Field(pub [[Cell; 3]; 3]);

/// The three cells of line `k` (0..3 rows, 3..6 columns, 6 the main
/// diagonal, 7 the anti-diagonal), as (row, column) pairs.
pub open spec fn line_cell(k: int, i: int) -> (int, int) {
    if k < 3 {
        (k, i)
    } else if k < 6 {
        (i, k - 3)
    } else if k == 6 {
        (i, i)
    } else {
        (i, 2 - i)
    }
}

/// Line `k` passes through the square (`row`, `col`).
pub open spec fn line_contains(k: int, row: int, col: int) -> bool {
    exists|i: int| 0 <= i < 3 && line_cell(k, i) == (row, col)
}

impl Field {
    /// The cell at (`r`, `c`).
    pub open spec fn at(&self, r: int, c: int) -> Cell {
        self.0[r][c]
    }

    /// `self` is `before` with `m` written at (`r`, `c`) and every other cell kept.
    pub open spec fn placed(&self, before: &Field, r: int, c: int, m: Cell) -> bool {
        forall|i: int, j: int|
            0 <= i < 3 && 0 <= j < 3 ==> #[trigger] self.at(i, j) == if i == r && j == c {
                m
            } else {
                before.at(i, j)
            }
    }

    /// Row `r` holds `m` in all three cells.
    pub open spec fn row_full(&self, r: int, m: Cell) -> bool {
        forall|j: int| 0 <= j < 3 ==> self.at(r, j) == m
    }

    /// Column `c` holds `m` in all three cells.
    pub open spec fn column_full(&self, c: int, m: Cell) -> bool {
        forall|i: int| 0 <= i < 3 ==> self.at(i, c) == m
    }

    /// The main diagonal holds `m` in all three cells.
    pub open spec fn diagonal_full(&self, m: Cell) -> bool {
        self.at(0, 0) == m && self.at(1, 1) == m && self.at(2, 2) == m
    }

    /// The anti-diagonal holds `m` in all three cells.
    pub open spec fn anti_diagonal_full(&self, m: Cell) -> bool {
        self.at(0, 2) == m && self.at(1, 1) == m && self.at(2, 0) == m
    }

    /// Line `k` holds `m` in all three cells.
    pub open spec fn line_full(&self, k: int, m: Cell) -> bool {
        &&& self.at(line_cell(k, 0).0, line_cell(k, 0).1) == m
        &&& self.at(line_cell(k, 1).0, line_cell(k, 1).1) == m
        &&& self.at(line_cell(k, 2).0, line_cell(k, 2).1) == m
    }

    /// No cell of the board is empty.
    pub open spec fn is_full(&self) -> bool {
        forall|i: int, j: int| 0 <= i < 3 && 0 <= j < 3 ==> self.at(i, j) != Cell::Empty
    }

    /// A row, column or diagonal through (`r`, `c`) holds `m` throughout.
    pub open spec fn wins_through(&self, r: int, c: int, m: Cell) -> bool {
        ||| self.row_full(r, m)
        ||| self.column_full(c, m)
        ||| (r == c && self.diagonal_full(m))
        ||| (r + c == 2 && self.anti_diagonal_full(m))
    }

    /// The state of the game once `m` has been played at (`r`, `c`).
    pub open spec fn outcome(&self, r: int, c: int, m: Cell) -> State {
        if self.wins_through(r, c, m) {
            State::Win(m)
        } else if self.is_full() {
            State::Draw
        } else {
            State::InGame
        }
    }

    /// An empty board.
    pub fn new() -> (r: Field)
        ensures
            forall|i: int, j: int| 0 <= i < 3 && 0 <= j < 3 ==> r.at(i, j) == Cell::Empty,
    {
        Field(
            [
                [Cell::Empty, Cell::Empty, Cell::Empty],
                [Cell::Empty, Cell::Empty, Cell::Empty],
                [Cell::Empty, Cell::Empty, Cell::Empty],
            ],
        )
    }

    /// The cell at (`r`, `c`).
    pub fn get(&self, r: usize, c: usize) -> (res: Cell)
        requires
            r < 3,
            c < 3,
        ensures
            res == self.at(r as int, c as int),
    {
        self.0[r][c]
    }

    /// Every cell of the board is non-empty.
    fn field_is_full(&self) -> (r: bool)
        ensures
            r == self.is_full(),
    {
        let mut i: usize = 0;
        while i < 3
            invariant
                i <= 3,
                forall|a: int, b: int| 0 <= a < i && 0 <= b < 3 ==> self.at(a, b) != Cell::Empty,
            decreases 3 - i,
        {
            let mut j: usize = 0;
            while j < 3
                invariant
                    i < 3,
                    j <= 3,
                    forall|b: int| 0 <= b < j ==> self.at(i as int, b) != Cell::Empty,
                decreases 3 - j,
            {
                if self.get(i, j) == Cell::Empty {
                    return false;
                }
                j += 1;
            }
            i += 1;
        }
        true
    }

    /// Row `r` holds `cell` throughout.
    fn check_row(&self, r: usize, cell: Cell) -> (res: bool)
        requires
            r < 3,
        ensures
            res == self.row_full(r as int, cell),
    {
        let mut j: usize = 0;
        while j < 3
            invariant
                r < 3,
                j <= 3,
                forall|b: int| 0 <= b < j ==> self.at(r as int, b) == cell,
            decreases 3 - j,
        {
            if self.get(r, j) != cell {
                return false;
            }
            j += 1;
        }
        true
    }

    /// Column `c` holds `cell` throughout.
    fn check_column(&self, c: usize, cell: Cell) -> (res: bool)
        requires
            c < 3,
        ensures
            res == self.column_full(c as int, cell),
    {
        let mut i: usize = 0;
        while i < 3
            invariant
                c < 3,
                i <= 3,
                forall|a: int| 0 <= a < i ==> self.at(a, c as int) == cell,
            decreases 3 - i,
        {
            if self.get(i, c) != cell {
                return false;
            }
            i += 1;
        }
        true
    }

    /// A diagonal through (`r`, `c`) holds `cell` throughout.
    fn check_diagonals(&self, r: usize, c: usize, cell: Cell) -> (res: bool)
        requires
            r < 3,
            c < 3,
        ensures
            res == ((r == c && self.diagonal_full(cell)) || (r + c == 2
                && self.anti_diagonal_full(cell))),
    {
        let main = r == c && self.get(0, 0) == cell && self.get(1, 1) == cell && self.get(2, 2)
            == cell;
        let anti = r + c == 2 && self.get(0, 2) == cell && self.get(1, 1) == cell && self.get(2, 0)
            == cell;
        main || anti
    }

    /// The state after `cell` was played at `coord`: a win if a row, a column
    /// or a diagonal through `coord` holds `cell` throughout, else a draw if
    /// the board is full, else the game goes on.
    pub fn check_win_draw(&self, coord: &Coordinates, cell: Cell) -> (r: State)
        ensures
            r == self.outcome(coord.row() as int, coord.column() as int, cell),
    {
        let row = coord.get_row();
        let column = coord.get_column();
        if self.check_row(row, cell) {
            State::Win(cell)
        } else if self.check_column(column, cell) {
            State::Win(cell)
        } else if self.check_diagonals(row, column, cell) {
            State::Win(cell)
        } else if self.field_is_full() {
            State::Draw
        } else {
            State::InGame
        }
    }

    /// Plays `val` at `coord`. An occupied square is refused and leaves the
    /// board as it was; otherwise exactly that square changes and the new
    /// state of the game is returned.
    pub fn set(&mut self, coord: &Coordinates, val: Cell) -> (r: Result<State, MoveError>)
        requires
            val != Cell::Empty,
        ensures
            old(self).at(coord.row() as int, coord.column() as int) != Cell::Empty ==> {
                &&& r == Err::<State, MoveError>(MoveError::CellOccupied)
                &&& *final(self) == *old(self)
            },
            old(self).at(coord.row() as int, coord.column() as int) == Cell::Empty ==> {
                &&& final(self).placed(old(self), coord.row() as int, coord.column() as int, val)
                &&& r == Ok::<State, MoveError>(
                    final(self).outcome(coord.row() as int, coord.column() as int, val),
                )
            },
    {
        let row = coord.get_row();
        let column = coord.get_column();
        if self.get(row, column) == Cell::Empty {
            self.0[row][column] = val;
            Ok(self.check_win_draw(coord, val))
        } else {
            Err(MoveError::CellOccupied)
        }
    }

    /// The nine cells in row-major order.
    pub fn render(&self) -> (r: Vec<Cell>)
        ensures
            r@.len() == 9,
            forall|i: int, j: int| 0 <= i < 3 && 0 <= j < 3 ==> r@[3 * i + j] == self.at(i, j),
    {
        let mut out: Vec<Cell> = Vec::new();
        let mut i: usize = 0;
        while i < 3
            invariant
                i <= 3,
                out@.len() == 3 * i,
                forall|a: int, b: int| 0 <= a < i && 0 <= b < 3 ==> out@[3 * a + b] == self.at(a, b),
            decreases 3 - i,
        {
            let mut j: usize = 0;
            while j < 3
                invariant
                    i < 3,
                    j <= 3,
                    out@.len() == 3 * i + j,
                    forall|a: int, b: int|
                        0 <= a < i && 0 <= b < 3 ==> out@[3 * a + b] == self.at(a, b),
                    forall|b: int| 0 <= b < j ==> out@[3 * i + b] == self.at(i as int, b),
                decreases 3 - j,
            {
                out.push(self.get(i, j));
                j += 1;
            }
            i += 1;
        }
        out
    }
}

/// A move of `m` onto the empty square (`r`, `c`) wins exactly when it fills
/// a row, a column or a diagonal that runs through that square. Where no line
/// was full of `m` before the move, it wins exactly when some line is full of
/// `m` after it: a line is reported on the move that completes it, not before.
pub proof fn lemma_win_on_completing_move(before: Field, after: Field, r: int, c: int, m: Cell)
    requires
        0 <= r < 3,
        0 <= c < 3,
        m != Cell::Empty,
        before.at(r, c) == Cell::Empty,
        after.placed(&before, r, c, m),
    ensures
        (after.outcome(r, c, m) == State::Win(m)) <==> (exists|k: int|
            0 <= k < 8 && line_contains(k, r, c) && #[trigger] after.line_full(k, m)),
        (forall|k: int| 0 <= k < 8 ==> !#[trigger] before.line_full(k, m)) ==> ((after.outcome(
            r,
            c,
            m,
        ) == State::Win(m)) <==> (exists|k: int| 0 <= k < 8 && #[trigger] after.line_full(k, m))),
{
    lemma_wins_through_lines(after, r, c, m);
    if forall|k: int| 0 <= k < 8 ==> !#[trigger] before.line_full(k, m) {
        assert forall|k: int| 0 <= k < 8 && #[trigger] after.line_full(k, m) implies line_contains(
            k,
            r,
            c,
        ) by {
            if !line_contains(k, r, c) {
                assert forall|i: int| 0 <= i < 3 implies #[trigger] line_cell(k, i) != (r, c) by {
                    if line_cell(k, i) == (r, c) {
                        assert(line_contains(k, r, c));
                    }
                }
                assert(after.at(line_cell(k, 0).0, line_cell(k, 0).1) == before.at(
                    line_cell(k, 0).0,
                    line_cell(k, 0).1,
                ));
                assert(after.at(line_cell(k, 1).0, line_cell(k, 1).1) == before.at(
                    line_cell(k, 1).0,
                    line_cell(k, 1).1,
                ));
                assert(after.at(line_cell(k, 2).0, line_cell(k, 2).1) == before.at(
                    line_cell(k, 2).0,
                    line_cell(k, 2).1,
                ));
                assert(before.line_full(k, m));
            }
        }
    }
}

/// A row, column or diagonal through (`r`, `c`) is full of `m` exactly when
/// one of the eight lines that contain the square is.
proof fn lemma_wins_through_lines(b: Field, r: int, c: int, m: Cell)
    requires
        0 <= r < 3,
        0 <= c < 3,
    ensures
        b.wins_through(r, c, m) <==> (exists|k: int|
            0 <= k < 8 && line_contains(k, r, c) && #[trigger] b.line_full(k, m)),
{
    if b.row_full(r, m) {
        assert(line_cell(r, c) == (r, c));
        assert(b.line_full(r, m));
    } else if b.column_full(c, m) {
        assert(line_cell(3 + c, r) == (r, c));
        assert(b.line_full(3 + c, m));
    } else if r == c && b.diagonal_full(m) {
        assert(line_cell(6, r) == (r, c));
        assert(b.line_full(6, m));
    } else if r + c == 2 && b.anti_diagonal_full(m) {
        assert(line_cell(7, r) == (r, c));
        assert(b.line_full(7, m));
    }
    if exists|k: int| 0 <= k < 8 && line_contains(k, r, c) && #[trigger] b.line_full(k, m) {
        let k = choose|k: int| 0 <= k < 8 && line_contains(k, r, c) && #[trigger] b.line_full(k, m);
        let i = choose|i: int| 0 <= i < 3 && line_cell(k, i) == (r, c);
        if k < 3 {
            assert(b.row_full(r, m));
        } else if k < 6 {
            assert(b.column_full(c, m));
        }
    }
}

/// A full board on which no line is full of one mark is a draw, whatever
/// the last move was.
pub proof fn lemma_full_board_draw(b: Field, r: int, c: int, m: Cell)
    requires
        0 <= r < 3,
        0 <= c < 3,
        m != Cell::Empty,
        b.is_full(),
        forall|k: int, x: Cell| 0 <= k < 8 && x != Cell::Empty ==> !#[trigger] b.line_full(k, x),
    ensures
        b.outcome(r, c, m) == State::Draw,
{
    lemma_wins_through_lines(b, r, c, m);
}

/// Why a move was refused.
#[derive(Debug, Clone, Copy, PartialEq, Eq, Structural)]
pub enum MoveError {
    /// The text does not name two in-range coordinates.
    InvalidInput,
    /// The square already holds a mark.
    CellOccupied,
}

} // verus!
