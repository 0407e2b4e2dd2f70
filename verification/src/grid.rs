//! The mathematical model of the game: a grid of numbers with a score, and
//! what a move makes of it.
//!
//! Cells are stored row by row: the cell in row `r` and column `c` of a grid
//! with `cols` columns has index `r * cols + c`. Zero stands for an empty
//! cell.

use vstd::prelude::*;
use vstd::arithmetic::div_mod::{
    lemma_fundamental_div_mod,
    lemma_fundamental_div_mod_converse,
    lemma_multiply_divide_lt,
};
use crate::line::{lemma_fixed_line_no_gain, slide, slide_fits, slide_gain};
use crate::status::GameStatus;

verus! {

/// The edge toward which a move pulls the tiles.
#[derive(Debug, Clone, Copy, PartialEq, Eq, Structural)]
pub enum Direction {
    Up,
    Down,
    Left,
    Right,
}

/// The tile value that wins the game.
pub const TARGET: u16 = 2048;

/// How many lines a move in direction `dir` works on: the columns for a
/// vertical move, the rows for a horizontal one.
pub open spec fn line_count(cols: nat, rows: nat, dir: Direction) -> nat {
    match dir {
        Direction::Up | Direction::Down => cols,
        Direction::Left | Direction::Right => rows,
    }
}

/// How many cells each of those lines has.
pub open spec fn line_len(cols: nat, rows: nat, dir: Direction) -> nat {
    match dir {
        Direction::Up | Direction::Down => rows,
        Direction::Left | Direction::Right => cols,
    }
}

/// The index of the cell at position `pos` of line `line`, where position
/// zero is the cell at the edge that `dir` pulls toward.
pub open spec fn cell_index(cols: nat, rows: nat, dir: Direction, line: int, pos: int) -> int {
    match dir {
        Direction::Left => line * cols + pos,
        Direction::Right => line * cols + (cols - 1 - pos),
        Direction::Up => pos * cols + line,
        Direction::Down => (rows - 1 - pos) * cols + line,
    }
}

/// The line that the cell with index `index` lies on.
pub open spec fn line_of(cols: nat, dir: Direction, index: int) -> int {
    match dir {
        Direction::Left | Direction::Right => index / (cols as int),
        Direction::Up | Direction::Down => index % (cols as int),
    }
}

/// The position of the cell with index `index` on its line.
pub open spec fn pos_of(cols: nat, rows: nat, dir: Direction, index: int) -> int {
    match dir {
        Direction::Left => index % (cols as int),
        Direction::Right => cols - 1 - index % (cols as int),
        Direction::Up => index / (cols as int),
        Direction::Down => rows - 1 - index / (cols as int),
    }
}

/// A position on a line names a cell of the grid, and that cell knows its
/// line and position.
pub proof fn lemma_cell_index(cols: nat, rows: nat, dir: Direction, line: int, pos: int)
    requires
        0 <= line < line_count(cols, rows, dir),
        0 <= pos < line_len(cols, rows, dir),
    ensures
        0 <= cell_index(cols, rows, dir, line, pos) < cols * rows,
        line_of(cols, dir, cell_index(cols, rows, dir, line, pos)) == line,
        pos_of(cols, rows, dir, cell_index(cols, rows, dir, line, pos)) == pos,
{
    let (row, col) = match dir {
        Direction::Left => (line, pos),
        Direction::Right => (line, cols - 1 - pos),
        Direction::Up => (pos, line),
        Direction::Down => (rows - 1 - pos, line),
    };
    let index = row * cols + col;
    assert(index == cell_index(cols, rows, dir, line, pos));
    assert(0 <= row * cols && row * cols + cols <= rows * cols) by (nonlinear_arith)
        requires
            0 <= row < rows,
    ;
    assert(cols * rows == rows * cols) by (nonlinear_arith);
    lemma_fundamental_div_mod_converse(index, cols as int, row, col);
}

/// Every cell of the grid lies at one position of one line.
pub proof fn lemma_line_and_pos(cols: nat, rows: nat, dir: Direction, index: int)
    requires
        0 <= index < cols * rows,
    ensures
        0 <= line_of(cols, dir, index) < line_count(cols, rows, dir),
        0 <= pos_of(cols, rows, dir, index) < line_len(cols, rows, dir),
        cell_index(cols, rows, dir, line_of(cols, dir, index), pos_of(cols, rows, dir, index))
            == index,
{
    assert(cols > 0) by (nonlinear_arith)
        requires
            0 <= index < cols * rows,
    ;
    let c = cols as int;
    lemma_fundamental_div_mod(index, c);
    lemma_multiply_divide_lt(index, c, rows as int);
    assert(0 <= index / c) by (nonlinear_arith)
        requires
            0 <= index,
            c > 0,
    ;
    assert(0 <= index % c < c);
    assert(c * (index / c) == (index / c) * c) by (nonlinear_arith);
}

/// The indices below `upto` of the empty cells, in rising order.
pub open spec fn empties_upto(cells: Seq<nat>, upto: int) -> Seq<int>
    decreases upto,
{
    if upto <= 0 {
        Seq::empty()
    } else if cells[upto - 1] == 0 {
        empties_upto(cells, upto - 1).push(upto - 1)
    } else {
        empties_upto(cells, upto - 1)
    }
}

/// The indices of the empty cells, in rising order.
pub open spec fn empties(cells: Seq<nat>) -> Seq<int> {
    empties_upto(cells, cells.len() as int)
}

/// The number of cells that hold a tile.
pub open spec fn tile_count(cells: Seq<nat>) -> int {
    cells.len() - empties(cells).len()
}

/// The value of a new tile: four when the roll is nine, two otherwise. With
/// a roll drawn evenly from zero to nine, one new tile in ten is a four.
pub open spec fn spawn_value(roll: nat) -> nat {
    if roll == 9 {
        4
    } else {
        2
    }
}

/// One move of a game: its direction, and the spawn that follows it if it
/// changes the grid.
pub struct Move {
    /// The edge toward which the tiles are pulled.
    pub dir: Direction,
    /// Which of the empty cells takes the new tile, counted from zero.
    pub nth: nat,
    /// The roll that decides the new tile's value.
    pub roll: nat,
}

/// A grid of numbers and a score.
pub struct State {
    /// The number of columns.
    pub cols: nat,
    /// The number of rows.
    pub rows: nat,
    /// The cells, row by row; zero for an empty cell.
    pub cells: Seq<nat>,
    /// The sum of all tiles that merges have produced.
    pub score: nat,
}

impl State {
    /// Whether there is one cell for each place of the grid.
    pub open spec fn wf(self) -> bool {
        self.cells.len() == self.cols * self.rows
    }

    /// The grid of that size with every cell empty, and no score.
    pub open spec fn blank(cols: nat, rows: nat) -> State {
        State { cols, rows, cells: Seq::new(cols * rows, |i: int| 0nat), score: 0 }
    }

    /// Line `line` in direction `dir`, read from the pulled edge.
    pub open spec fn line(self, dir: Direction, line: int) -> Seq<nat> {
        Seq::new(
            line_len(self.cols, self.rows, dir),
            |pos: int| self.cells[cell_index(self.cols, self.rows, dir, line, pos)],
        )
    }

    /// What the first `count` lines add to the score when pulled.
    pub open spec fn gain_upto(self, dir: Direction, count: nat) -> nat
        decreases count,
    {
        if count == 0 {
            0
        } else {
            self.gain_upto(dir, (count - 1) as nat) + slide_gain(self.line(dir, count - 1))
        }
    }

    /// What a move in direction `dir` adds to the score.
    pub open spec fn gain(self, dir: Direction) -> nat {
        self.gain_upto(dir, line_count(self.cols, self.rows, dir))
    }

    /// The state after every line has been pulled toward `dir`: each cell
    /// holds what the pull leaves at its position of its line, and the score
    /// has grown by the merged tiles.
    pub open spec fn shifted(self, dir: Direction) -> State {
        State {
            cols: self.cols,
            rows: self.rows,
            cells: Seq::new(
                self.cells.len(),
                |i: int|
                    slide(self.line(dir, line_of(self.cols, dir, i)))[pos_of(
                        self.cols,
                        self.rows,
                        dir,
                        i,
                    )],
            ),
            score: self.score + self.gain(dir),
        }
    }

    /// Whether a move in direction `dir` stays within what a cell and the
    /// score can hold.
    pub open spec fn shift_fits(self, dir: Direction) -> bool {
        &&& forall|line: int|
            0 <= line < line_count(self.cols, self.rows, dir) ==> #[trigger] slide_fits(
                self.line(dir, line),
            )
        &&& self.score + self.gain(dir) <= usize::MAX
    }

    /// The state with a new tile on the `nth` empty cell, counted from zero
    /// in index order. Where there is no such cell, nothing changes.
    pub open spec fn spawned(self, nth: nat, roll: nat) -> State {
        if nth < empties(self.cells).len() {
            State {
                cells: self.cells.update(empties(self.cells)[nth as int], spawn_value(roll)),
                ..self
            }
        } else {
            self
        }
    }

    /// Whether `after` is what one spawn can make of this state: a new tile
    /// on one of the empty cells, or no change where no cell is empty.
    pub open spec fn spawns_into(self, after: State) -> bool {
        if empties(self.cells).len() == 0 {
            after == self
        } else {
            exists|nth: nat, roll: nat|
                nth < empties(self.cells).len() && roll < 10 && after == #[trigger] self.spawned(
                    nth,
                    roll,
                )
        }
    }

    /// Whether a move in direction `dir` changes the grid. A move that would
    /// not fit a cell or the score is not made, and changes nothing.
    pub open spec fn can_move(self, dir: Direction) -> bool {
        self.shift_fits(dir) && self.shifted(dir).cells != self.cells
    }

    /// The state after a move in direction `dir` that spawns on the `nth`
    /// empty cell with roll `roll`. A move that changes no cell leaves the
    /// state as it is and spawns nothing.
    pub open spec fn step(self, dir: Direction, nth: nat, roll: nat) -> State {
        if self.can_move(dir) {
            self.shifted(dir).spawned(nth, roll)
        } else {
            self
        }
    }

    /// Whether `after` is what a move in direction `dir` can make of this
    /// state, whatever the spawn picks.
    pub open spec fn moves_into(self, dir: Direction, after: State) -> bool {
        if self.can_move(dir) {
            self.shifted(dir).spawns_into(after)
        } else {
            after == self
        }
    }

    /// What a move in direction `dir` adds to the score: the merged tiles
    /// if the move is made, nothing if it is not.
    pub open spec fn step_gain(self, dir: Direction) -> nat {
        if self.can_move(dir) {
            self.gain(dir)
        } else {
            0
        }
    }

    /// The state after the moves of `moves`, in their order.
    pub open spec fn run(self, moves: Seq<Move>) -> State
        decreases moves.len(),
    {
        if moves.len() == 0 {
            self
        } else {
            self.run(moves.drop_last()).step(moves.last().dir, moves.last().nth, moves.last().roll)
        }
    }

    /// The sum of all tiles that the moves of `moves` produce by merging.
    pub open spec fn run_gain(self, moves: Seq<Move>) -> nat
        decreases moves.len(),
    {
        if moves.len() == 0 {
            0
        } else {
            self.run_gain(moves.drop_last()) + self.run(moves.drop_last()).step_gain(
                moves.last().dir,
            )
        }
    }

    /// The number in row `row` and column `col`.
    pub open spec fn at(self, row: int, col: int) -> nat {
        self.cells[row * self.cols + col]
    }

    /// Whether no cell is empty.
    pub open spec fn full(self) -> bool {
        forall|i: int| 0 <= i < self.cells.len() ==> self.cells[i] != 0
    }

    /// Whether the cell in row `row` and column `col` is held in place: it is
    /// not empty, and it differs from its neighbour to the right and from its
    /// neighbour below, where it has them.
    pub open spec fn blocked_at(self, row: int, col: int) -> bool {
        &&& self.at(row, col) != 0
        &&& col + 1 < self.cols ==> self.at(row, col) != self.at(row, col + 1)
        &&& row + 1 < self.rows ==> self.at(row, col) != self.at(row + 1, col)
    }

    /// Whether the grid is full and no two neighbours in a row or a column
    /// are equal.
    pub open spec fn stuck(self) -> bool {
        forall|row: int, col: int|
            0 <= row < self.rows && 0 <= col < self.cols ==> #[trigger] self.blocked_at(row, col)
    }

    /// Whether some tile is at least `target`.
    pub open spec fn reached(self, target: nat) -> bool {
        exists|i: int| 0 <= i < self.cells.len() && self.cells[i] >= target
    }

    /// Where the game stands: over when the grid is stuck, else won when a
    /// tile has reached the winning value, else going on.
    pub open spec fn status(self) -> GameStatus {
        if self.stuck() {
            GameStatus::GameOver
        } else if self.reached(TARGET as nat) {
            GameStatus::Victory
        } else {
            GameStatus::Playing
        }
    }
}

/// The empty cells below a bound are the first of the empty cells below a
/// larger bound.
pub proof fn lemma_empties_prefix(cells: Seq<nat>, fewer: int, more: int)
    requires
        0 <= fewer <= more,
    ensures
        empties_upto(cells, fewer).len() <= empties_upto(cells, more).len(),
        forall|k: int|
            0 <= k < empties_upto(cells, fewer).len() ==> empties_upto(cells, more)[k]
                == empties_upto(cells, fewer)[k],
    decreases more,
{
    if fewer < more {
        lemma_empties_prefix(cells, fewer, more - 1);
    }
}

/// Every index that `empties_upto` lists is below the bound and names an
/// empty cell, and the list rises.
pub proof fn lemma_empties_are_empty(cells: Seq<nat>, upto: int)
    requires
        0 <= upto <= cells.len(),
    ensures
        empties_upto(cells, upto).len() <= upto,
        forall|k: int|
            0 <= k < empties_upto(cells, upto).len() ==> 0 <= #[trigger] empties_upto(cells, upto)[k]
                < upto && cells[empties_upto(cells, upto)[k]] == 0,
        forall|j: int, k: int|
            0 <= j < k < empties_upto(cells, upto).len() ==> empties_upto(cells, upto)[j]
                < empties_upto(cells, upto)[k],
    decreases upto,
{
    if upto > 0 {
        lemma_empties_are_empty(cells, upto - 1);
    }
}

/// The more lines are counted, the larger the gain.
pub proof fn lemma_gain_grows(state: State, dir: Direction, fewer: nat, more: nat)
    requires
        fewer <= more,
    ensures
        state.gain_upto(dir, fewer) <= state.gain_upto(dir, more),
    decreases more,
{
    if fewer < more {
        lemma_gain_grows(state, dir, fewer, (more - 1) as nat);
    }
}

/// After a move, each line holds what the pull makes of it.
pub proof fn lemma_shifted_line(state: State, dir: Direction, line: int)
    requires
        state.wf(),
        0 <= line < line_count(state.cols, state.rows, dir),
    ensures
        state.shifted(dir).line(dir, line) == slide(state.line(dir, line)),
{
    let moved = state.shifted(dir).line(dir, line);
    let pulled = slide(state.line(dir, line));
    assert forall|pos: int| 0 <= pos < moved.len() implies moved[pos] == pulled[pos] by {
        lemma_cell_index(state.cols, state.rows, dir, line, pos);
    }
    assert(moved =~= pulled);
}

/// A move that leaves every cell as it was adds nothing to the score, so it
/// leaves the whole state as it was.
pub proof fn lemma_no_change_no_gain(state: State, dir: Direction)
    requires
        state.wf(),
        state.shifted(dir).cells == state.cells,
    ensures
        state.gain(dir) == 0,
        state.shifted(dir) == state,
{
    lemma_fixed_lines_no_gain(state, dir, line_count(state.cols, state.rows, dir));
}

/// Lines that a move leaves as they were add nothing to the score.
proof fn lemma_fixed_lines_no_gain(state: State, dir: Direction, count: nat)
    requires
        state.wf(),
        state.shifted(dir).cells == state.cells,
        count <= line_count(state.cols, state.rows, dir),
    ensures
        state.gain_upto(dir, count) == 0,
    decreases count,
{
    if count > 0 {
        lemma_fixed_lines_no_gain(state, dir, (count - 1) as nat);
        lemma_shifted_line(state, dir, count - 1);
        assert(state.shifted(dir).line(dir, count - 1) =~= state.line(dir, count - 1));
        lemma_fixed_line_no_gain(state.line(dir, count - 1));
    }
}

} // verus!
