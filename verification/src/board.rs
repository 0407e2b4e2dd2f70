//! The board: the grid as it is stored, and the moves on it.

use vstd::prelude::*;
use crate::grid::{
    cell_index,
    empties,
    empties_upto,
    lemma_cell_index,
    lemma_empties_prefix,
    lemma_gain_grows,
    lemma_line_and_pos,
    lemma_no_change_no_gain,
    line_count,
    line_len,
    line_of,
    pos_of,
    Direction,
    State,
    TARGET,
};
use crate::random::random_below;
use crate::status::GameStatus;
use crate::line::{pull_gain, slide, slide_fits, slide_line};
use crate::tile::{values, Tile};

verus! {

/// A grid of tiles with its score.
pub struct Board {
    tiles: Vec<Tile>,
    score: usize,
    width: usize,
    height: usize,
}

impl View for Board {
    type V = State;

    /// The board as a grid of numbers with a score.
    closed spec fn view(&self) -> State {
        State {
            cols: self.width as nat,
            rows: self.height as nat,
            cells: values(self.tiles@),
            score: self.score as nat,
        }
    }
}

/// Whether a board of that size can be stored and laid out on a screen.
pub open spec fn size_fits(cols: nat, rows: nat) -> bool {
    &&& cols * rows <= usize::MAX
    &&& 6 * cols + 1 <= usize::MAX
    &&& 3 * rows + 2 <= usize::MAX
}

impl Board {
    #[verifier::type_invariant]
    spec fn inv(self) -> bool {
        &&& self.tiles.len() == self.width * self.height
        &&& size_fits(self.width as nat, self.height as nat)
    }

    /// The number of columns.
    pub fn cols(&self) -> (cols: usize)
        ensures
            cols == self@.cols,
    {
        self.width
    }

    /// The number of rows.
    pub fn rows(&self) -> (rows: usize)
        ensures
            rows == self@.rows,
    {
        self.height
    }

    /// The score: the sum of all tiles that merges have produced.
    pub fn score(&self) -> (score: usize)
        ensures
            score == self@.score,
    {
        self.score
    }

    /// The tiles, row by row.
    pub fn tiles(&self) -> (tiles: &Vec<Tile>)
        ensures
            values(tiles@) == self@.cells,
            self@.wf(),
            size_fits(self@.cols, self@.rows),
    {
        proof {
            use_type_invariant(self);
        }
        &self.tiles
    }

    /// The width of the board as drawn, in character cells: six for each
    /// column and one for the border.
    pub fn width(&self) -> (width: usize)
        ensures
            width == 6 * self@.cols + 1,
    {
        proof {
            use_type_invariant(self);
        }
        self.width * 6 + 1
    }

    /// The height of the board as drawn, in character cells: three for each
    /// row and two for the borders.
    pub fn height(&self) -> (height: usize)
        ensures
            height == 3 * self@.rows + 2,
    {
        proof {
            use_type_invariant(self);
        }
        self.height * 3 + 2
    }

    /// The number of lines that a move in direction `dir` pulls.
    fn lines(&self, dir: Direction) -> (count: usize)
        ensures
            count == line_count(self@.cols, self@.rows, dir),
    {
        match dir {
            Direction::Up | Direction::Down => self.width,
            Direction::Left | Direction::Right => self.height,
        }
    }

    /// The number of cells on each of those lines.
    fn line_cells(&self, dir: Direction) -> (len: usize)
        ensures
            len == line_len(self@.cols, self@.rows, dir),
    {
        match dir {
            Direction::Up | Direction::Down => self.height,
            Direction::Left | Direction::Right => self.width,
        }
    }

    /// The index of the cell at position `pos` of line `line`.
    fn cell(&self, dir: Direction, line: usize, pos: usize) -> (index: usize)
        requires
            line < line_count(self@.cols, self@.rows, dir),
            pos < line_len(self@.cols, self@.rows, dir),
        ensures
            index == cell_index(self@.cols, self@.rows, dir, line as int, pos as int),
            index < self@.cells.len(),
    {
        proof {
            use_type_invariant(self);
            lemma_cell_index(self@.cols, self@.rows, dir, line as int, pos as int);
        }
        match dir {
            Direction::Left => line * self.width + pos,
            Direction::Right => line * self.width + (self.width - 1 - pos),
            Direction::Up => pos * self.width + line,
            Direction::Down => (self.height - 1 - pos) * self.width + line,
        }
    }

    /// A copy of line `line`, read from the edge that `dir` pulls toward.
    fn read_line(&self, dir: Direction, line: usize) -> (cells: Vec<Tile>)
        requires
            line < line_count(self@.cols, self@.rows, dir),
        ensures
            values(cells@) == self@.line(dir, line as int),
    {
        let len = self.line_cells(dir);
        let mut cells: Vec<Tile> = Vec::new();
        let mut pos: usize = 0;
        while pos < len
            invariant
                pos <= len,
                len == line_len(self@.cols, self@.rows, dir),
                line < line_count(self@.cols, self@.rows, dir),
                cells.len() == pos,
                forall|p: int|
                    0 <= p < pos ==> cells[p]@ == self@.cells[cell_index(
                        self@.cols,
                        self@.rows,
                        dir,
                        line as int,
                        p,
                    )],
            decreases len - pos,
        {
            let index = self.cell(dir, line, pos);
            cells.push(self.tiles[index]);
            pos = pos + 1;
        }
        assert(values(cells@) =~= self@.line(dir, line as int));
        cells
    }

    /// Puts `cells` in the place of line `line`.
    fn write_line(&mut self, dir: Direction, line: usize, cells: &Vec<Tile>)
        requires
            line < line_count(old(self)@.cols, old(self)@.rows, dir),
            cells.len() == line_len(old(self)@.cols, old(self)@.rows, dir),
        ensures
            final(self)@.cols == old(self)@.cols,
            final(self)@.rows == old(self)@.rows,
            final(self)@.score == old(self)@.score,
            final(self)@.cells.len() == old(self)@.cells.len(),
            forall|i: int|
                0 <= i < old(self)@.cells.len() ==> #[trigger] final(self)@.cells[i] == (if line_of(
                    old(self)@.cols,
                    dir,
                    i,
                ) == line {
                    cells[pos_of(old(self)@.cols, old(self)@.rows, dir, i)]@
                } else {
                    old(self)@.cells[i]
                }),
    {
        let len = cells.len();
        let ghost cols = self@.cols;
        let ghost rows = self@.rows;
        let mut pos: usize = 0;
        proof {
            use_type_invariant(&*self);
            assert forall|i: int| 0 <= i < old(self)@.cells.len() implies 0 <= pos_of(
                cols,
                rows,
                dir,
                i,
            ) by {
                lemma_line_and_pos(cols, rows, dir, i);
            }
        }
        while pos < len
            invariant
                pos <= len,
                cols == old(self)@.cols,
                rows == old(self)@.rows,
                self@.cols == cols,
                self@.rows == rows,
                self@.score == old(self)@.score,
                self@.cells.len() == old(self)@.cells.len(),
                self@.cells.len() == cols * rows,
                len == line_len(cols, rows, dir),
                cells.len() == len,
                line < line_count(cols, rows, dir),
                forall|i: int|
                    0 <= i < self@.cells.len() ==> #[trigger] self@.cells[i] == (if line_of(
                        cols,
                        dir,
                        i,
                    ) == line && pos_of(cols, rows, dir, i) < pos {
                        cells[pos_of(cols, rows, dir, i)]@
                    } else {
                        old(self)@.cells[i]
                    }),
            decreases len - pos,
        {
            proof {
                use_type_invariant(&*self);
            }
            let index = self.cell(dir, line, pos);
            let ghost prior = self@.cells;
            self.tiles[index] = cells[pos];
            proof {
                lemma_cell_index(cols, rows, dir, line as int, pos as int);
                assert(self@.cells =~= prior.update(index as int, cells[pos as int]@));
                assert forall|i: int| 0 <= i < self@.cells.len() implies #[trigger] self@.cells[i]
                    == (if line_of(cols, dir, i) == line && pos_of(cols, rows, dir, i) < pos + 1 {
                    cells[pos_of(cols, rows, dir, i)]@
                } else {
                    old(self)@.cells[i]
                }) by {
                    lemma_line_and_pos(cols, rows, dir, i);
                }
            }
            pos = pos + 1;
        }
        proof {
            assert forall|i: int| 0 <= i < old(self)@.cells.len() implies #[trigger] self@.cells[i]
                == (if line_of(cols, dir, i) == line {
                cells[pos_of(cols, rows, dir, i)]@
            } else {
                old(self)@.cells[i]
            }) by {
                lemma_line_and_pos(cols, rows, dir, i);
            }
        }
    }

    /// Whether a move in direction `dir` stays within what a cell and the
    /// score can hold.
    pub fn fits(&self, dir: Direction) -> (fits: bool)
        ensures
            fits == self@.shift_fits(dir),
    {
        let count = self.lines(dir);
        let mut total: usize = 0;
        let mut line: usize = 0;
        while line < count
            invariant
                line <= count,
                count == line_count(self@.cols, self@.rows, dir),
                total == self@.gain_upto(dir, line as nat),
                forall|k: int| 0 <= k < line ==> #[trigger] slide_fits(self@.line(dir, k)),
            decreases count - line,
        {
            let cells = self.read_line(dir, line);
            proof {
                lemma_gain_grows(self@, dir, (line + 1) as nat, count as nat);
            }
            match pull_gain(&cells) {
                None => {
                    return false;
                },
                Some(gain) => {
                    if total > usize::MAX - gain {
                        return false;
                    }
                    total = total + gain;
                },
            }
            line = line + 1;
        }
        total <= usize::MAX - self.score
    }

    /// Pulls every tile toward `dir` and merges equal neighbours, each tile
    /// at most once. The merged tiles are added to the score. No tile is
    /// spawned. Returns whether any tile moved or merged.
    pub fn shift(&mut self, dir: Direction) -> (changed: bool)
        requires
            old(self)@.shift_fits(dir),
        ensures
            final(self)@ == old(self)@.shifted(dir),
            final(self)@.wf(),
            changed == (final(self)@.cells != old(self)@.cells),
    {
        let count = self.lines(dir);
        let ghost start = self@;
        let ghost goal = self@.shifted(dir);
        let mut changed = false;
        let mut line: usize = 0;
        proof {
            use_type_invariant(&*self);
            assert forall|i: int| 0 <= i < start.cells.len() implies 0 <= line_of(
                start.cols,
                dir,
                i,
            ) by {
                lemma_line_and_pos(start.cols, start.rows, dir, i);
            }
        }
        while line < count
            invariant
                line <= count,
                start == old(self)@,
                goal == start.shifted(dir),
                start.shift_fits(dir),
                start.wf(),
                count == line_count(start.cols, start.rows, dir),
                self@.cols == start.cols,
                self@.rows == start.rows,
                self@.cells.len() == start.cells.len(),
                self@.score == start.score + start.gain_upto(dir, line as nat),
                forall|i: int|
                    0 <= i < start.cells.len() ==> #[trigger] self@.cells[i] == (if line_of(
                        start.cols,
                        dir,
                        i,
                    ) < line {
                        goal.cells[i]
                    } else {
                        start.cells[i]
                    }),
                changed == (self@.cells != start.cells),
            decreases count - line,
        {
            let ghost prior = self@;
            let mut cells = self.read_line(dir, line);
            proof {
                assert(values(cells@) =~= start.line(dir, line as int)) by {
                    assert forall|pos: int|
                        0 <= pos < line_len(start.cols, start.rows, dir) implies prior.cells[cell_index(
                        start.cols,
                        start.rows,
                        dir,
                        line as int,
                        pos,
                    )] == start.cells[cell_index(start.cols, start.rows, dir, line as int, pos)] by {
                        lemma_cell_index(start.cols, start.rows, dir, line as int, pos);
                    }
                }
                lemma_gain_grows(start, dir, (line + 1) as nat, count as nat);
                assert(slide_fits(start.line(dir, line as int)));
            }
            let pull = slide_line(&mut cells);
            self.write_line(dir, line, &cells);
            proof {
                use_type_invariant(&*self);
            }
            self.score = self.score + pull.gain;
            proof {
                let pulled = start.line(dir, line as int);
                assert forall|i: int| 0 <= i < start.cells.len() implies #[trigger] self@.cells[i]
                    == (if line_of(start.cols, dir, i) < line + 1 {
                    goal.cells[i]
                } else {
                    start.cells[i]
                }) by {
                    lemma_line_and_pos(start.cols, start.rows, dir, i);
                    let pos = pos_of(start.cols, start.rows, dir, i);
                    assert(values(cells@)[pos] == cells[pos]@);
                }
                if pull.changed {
                    assert(exists|pos: int|
                        0 <= pos < pulled.len() && slide(pulled)[pos] != pulled[pos]) by {
                        if forall|pos: int| 0 <= pos < pulled.len() ==> slide(pulled)[pos] == pulled[pos] {
                            assert(slide(pulled) =~= pulled);
                        }
                    }
                    let pos = choose|pos: int|
                        0 <= pos < pulled.len() && slide(pulled)[pos] != pulled[pos];
                    lemma_cell_index(start.cols, start.rows, dir, line as int, pos);
                    let index = cell_index(start.cols, start.rows, dir, line as int, pos);
                    assert(self@.cells[index] != start.cells[index]);
                } else {
                    assert(self@.cells =~= prior.cells) by {
                        assert forall|i: int| 0 <= i < start.cells.len() implies self@.cells[i]
                            == prior.cells[i] by {
                            lemma_line_and_pos(start.cols, start.rows, dir, i);
                        }
                    }
                }
            }
            changed = changed || pull.changed;
            line = line + 1;
        }
        proof {
            assert(self@.cells =~= goal.cells) by {
                assert forall|i: int| 0 <= i < start.cells.len() implies self@.cells[i]
                    == goal.cells[i] by {
                    lemma_line_and_pos(start.cols, start.rows, dir, i);
                }
            }
        }
        changed
    }

    /// The number of empty cells.
    pub fn count_empty(&self) -> (count: usize)
        ensures
            count == empties(self@.cells).len(),
    {
        let n = self.tiles.len();
        let mut count: usize = 0;
        let mut i: usize = 0;
        while i < n
            invariant
                i <= n,
                n == self.tiles.len(),
                count <= i,
                count == empties_upto(self@.cells, i as int).len(),
            decreases n - i,
        {
            if self.tiles[i].is_empty() {
                count = count + 1;
            }
            i = i + 1;
        }
        count
    }

    /// Puts a new tile on the `nth` empty cell, counted from zero in index
    /// order: a four when `roll` is nine, a two otherwise. Where there is no
    /// such cell, nothing changes. Returns whether a tile was placed.
    pub fn spawn(&mut self, nth: usize, roll: usize) -> (placed: bool)
        ensures
            final(self)@ == old(self)@.spawned(nth as nat, roll as nat),
            placed == (nth < empties(old(self)@.cells).len()),
            final(self)@.wf(),
    {
        proof {
            use_type_invariant(&*self);
        }
        let n = self.tiles.len();
        let ghost cells = self@.cells;
        let mut seen: usize = 0;
        let mut i: usize = 0;
        while i < n
            invariant
                i <= n,
                n == self.tiles.len(),
                self@ == old(self)@,
                cells == self@.cells,
                seen <= i,
                seen <= nth,
                seen == empties_upto(cells, i as int).len(),
            decreases n - i,
        {
            if self.tiles[i].is_empty() {
                if seen == nth {
                    proof {
                        use_type_invariant(&*self);
                        lemma_empties_prefix(cells, i as int + 1, n as int);
                    }
                    let value: u16 = if roll == 9 {
                        4
                    } else {
                        2
                    };
                    self.tiles[i] = Tile::new(value);
                    assert(self@.cells =~= cells.update(i as int, value as nat));
                    return true;
                }
                seen = seen + 1;
            }
            i = i + 1;
        }
        false
    }

    /// Puts a new tile on an empty cell picked at random, a four one time in
    /// ten and a two otherwise. Where no cell is empty, nothing changes.
    fn generate(&mut self)
        ensures
            old(self)@.spawns_into(final(self)@),
            final(self)@.wf(),
    {
        proof {
            use_type_invariant(&*self);
        }
        let free = self.count_empty();
        if free > 0 {
            let nth = random_below(free);
            let roll = random_below(10);
            self.spawn(nth, roll);
        }
    }

    /// Whether a board of `width` columns and `height` rows can be stored
    /// and laid out on a screen.
    pub fn can_hold(width: usize, height: usize) -> (fits: bool)
        ensures
            fits == size_fits(width as nat, height as nat),
    {
        width <= (usize::MAX - 1) / 6 && height <= (usize::MAX - 2) / 3 && width.checked_mul(
            height,
        ).is_some()
    }

    /// A board of that size with every cell empty.
    fn blank(width: usize, height: usize) -> (board: Board)
        requires
            size_fits(width as nat, height as nat),
        ensures
            board@ == State::blank(width as nat, height as nat),
    {
        let n = width * height;
        let mut tiles: Vec<Tile> = Vec::new();
        let mut i: usize = 0;
        while i < n
            invariant
                i <= n,
                tiles.len() == i,
                forall|k: int| 0 <= k < i ==> tiles[k]@ == 0,
            decreases n - i,
        {
            tiles.push(Tile::new(0));
            i = i + 1;
        }
        let board = Board { tiles, score: 0, width, height };
        assert(board@.cells =~= State::blank(width as nat, height as nat).cells);
        board
    }

    /// A board of `width` columns and `height` rows, empty but for one new
    /// tile.
    pub fn new(width: usize, height: usize) -> (board: Board)
        requires
            size_fits(width as nat, height as nat),
        ensures
            State::blank(width as nat, height as nat).spawns_into(board@),
            board@.wf(),
    {
        let mut board = Board::blank(width, height);
        board.generate();
        board
    }

    /// A board of `width` columns and `height` rows that holds `tiles`, row
    /// by row, with no score. `None` if there is not exactly one tile for
    /// each cell, or if a board of that size cannot be stored and laid out.
    pub fn with_tiles(width: usize, height: usize, tiles: Vec<Tile>) -> (board: Option<Board>)
        ensures
            board is Some <==> size_fits(width as nat, height as nat) && tiles.len() == width
                * height,
            board matches Some(b) ==> b@ == (State {
                cols: width as nat,
                rows: height as nat,
                cells: values(tiles@),
                score: 0,
            }) && b@.wf(),
    {
        if Board::can_hold(width, height) && tiles.len() == width * height {
            Some(Board { tiles, score: 0, width, height })
        } else {
            None
        }
    }

    /// Empties every cell, clears the score and places one new tile. The
    /// size stays.
    pub fn reset(&mut self)
        ensures
            State::blank(old(self)@.cols, old(self)@.rows).spawns_into(final(self)@),
            final(self)@.wf(),
    {
        let n = self.tiles.len();
        let mut i: usize = 0;
        proof {
            use_type_invariant(&*self);
        }
        while i < n
            invariant
                i <= n,
                n == self.tiles.len(),
                n == self@.cols * self@.rows,
                n == self@.cells.len(),
                self@.cols == old(self)@.cols,
                self@.rows == old(self)@.rows,
                forall|k: int| 0 <= k < i ==> self@.cells[k] == 0,
            decreases n - i,
        {
            proof {
                use_type_invariant(&*self);
            }
            let ghost prior = self@.cells;
            self.tiles[i] = Tile::new(0);
            assert(self@.cells =~= prior.update(i as int, 0nat));
            i = i + 1;
        }
        self.score = 0;
        assert(self@.cells =~= State::blank(self@.cols, self@.rows).cells);
        self.generate();
    }

    /// Whether some tile is at least `target`.
    pub fn has_reached(&self, target: u16) -> (reached: bool)
        ensures
            reached == self@.reached(target as nat),
    {
        let n = self.tiles.len();
        let mut i: usize = 0;
        while i < n
            invariant
                i <= n,
                n == self.tiles.len(),
                forall|k: int| 0 <= k < i ==> self@.cells[k] < target,
            decreases n - i,
        {
            if self.tiles[i].value() >= target {
                assert(self@.cells[i as int] >= target);
                return true;
            }
            i = i + 1;
        }
        false
    }

    /// Whether the grid is full and no two neighbours in a row or a column
    /// are equal, so that no move can change it.
    pub fn is_stuck(&self) -> (stuck: bool)
        ensures
            stuck == self@.stuck(),
    {
        let mut row: usize = 0;
        while row < self.height
            invariant
                row <= self.height,
                forall|r: int, c: int|
                    0 <= r < row && 0 <= c < self@.cols ==> #[trigger] self@.blocked_at(r, c),
            decreases self.height - row,
        {
            let mut col: usize = 0;
            while col < self.width
                invariant
                    row < self.height,
                    col <= self.width,
                    forall|r: int, c: int|
                        0 <= r < row && 0 <= c < self@.cols ==> #[trigger] self@.blocked_at(r, c),
                    forall|c: int| 0 <= c < col ==> #[trigger] self@.blocked_at(row as int, c),
                decreases self.width - col,
            {
                let here = self.tiles[self.cell(Direction::Left, row, col)].value();
                assert(here == self@.at(row as int, col as int));
                if here == 0 {
                    assert(!self@.blocked_at(row as int, col as int));
                    return false;
                }
                if col + 1 < self.width {
                    let right = self.tiles[self.cell(Direction::Left, row, col + 1)].value();
                    assert(right == self@.at(row as int, col as int + 1));
                    if right == here {
                        assert(!self@.blocked_at(row as int, col as int));
                        return false;
                    }
                }
                if row + 1 < self.height {
                    let below = self.tiles[self.cell(Direction::Left, row + 1, col)].value();
                    assert(below == self@.at(row as int + 1, col as int));
                    if below == here {
                        assert(!self@.blocked_at(row as int, col as int));
                        return false;
                    }
                }
                assert(self@.blocked_at(row as int, col as int));
                col = col + 1;
            }
            row = row + 1;
        }
        true
    }

    /// Where the game stands: over when the grid is stuck, else won when a
    /// tile has reached the winning value, else going on.
    pub fn status(&self) -> (status: GameStatus)
        ensures
            status == self@.status(),
    {
        if self.is_stuck() {
            GameStatus::GameOver
        } else if self.has_reached(TARGET) {
            GameStatus::Victory
        } else {
            GameStatus::Playing
        }
    }

    /// Makes the move in direction `dir` without a spawn, if it fits and
    /// changes the grid. Returns whether it did.
    fn try_shift(&mut self, dir: Direction) -> (moved: bool)
        ensures
            moved == old(self)@.can_move(dir),
            final(self)@ == (if moved {
                old(self)@.shifted(dir)
            } else {
                old(self)@
            }),
            final(self)@.wf(),
    {
        proof {
            use_type_invariant(&*self);
        }
        if !self.fits(dir) {
            return false;
        }
        let moved = self.shift(dir);
        proof {
            if !moved {
                lemma_no_change_no_gain(old(self)@, dir);
            }
        }
        moved
    }

    /// Makes a move in direction `dir`: pulls and merges the tiles and, if
    /// that changed the grid, places a new tile on an empty cell picked at
    /// random. A move that would not fit a cell or the score is not made.
    /// Returns where the game stands after it.
    pub fn play(&mut self, dir: Direction) -> (status: GameStatus)
        ensures
            old(self)@.moves_into(dir, final(self)@),
            final(self)@.wf(),
            status == final(self)@.status(),
    {
        if self.try_shift(dir) {
            self.generate();
        }
        self.status()
    }

    /// Makes a move in direction `dir` with a given spawn: pulls and merges
    /// the tiles and, if that changed the grid, places a new tile on the
    /// `nth` empty cell, a four when `roll` is nine and a two otherwise.
    /// Returns where the game stands after it.
    pub fn step(&mut self, dir: Direction, nth: usize, roll: usize) -> (status: GameStatus)
        ensures
            final(self)@ == old(self)@.step(dir, nth as nat, roll as nat),
            final(self)@.wf(),
            status == final(self)@.status(),
    {
        if self.try_shift(dir) {
            self.spawn(nth, roll);
        }
        self.status()
    }

    /// Moves the tiles up.
    pub fn up(&mut self) -> (status: GameStatus)
        ensures
            old(self)@.moves_into(Direction::Up, final(self)@),
            final(self)@.wf(),
            status == final(self)@.status(),
    {
        self.play(Direction::Up)
    }

    /// Moves the tiles down.
    pub fn down(&mut self) -> (status: GameStatus)
        ensures
            old(self)@.moves_into(Direction::Down, final(self)@),
            final(self)@.wf(),
            status == final(self)@.status(),
    {
        self.play(Direction::Down)
    }

    /// Moves the tiles right.
    pub fn right(&mut self) -> (status: GameStatus)
        ensures
            old(self)@.moves_into(Direction::Right, final(self)@),
            final(self)@.wf(),
            status == final(self)@.status(),
    {
        self.play(Direction::Right)
    }

    /// Moves the tiles left.
    pub fn left(&mut self) -> (status: GameStatus)
        ensures
            old(self)@.moves_into(Direction::Left, final(self)@),
            final(self)@.wf(),
            status == final(self)@.status(),
    {
        self.play(Direction::Left)
    }
}

/// The cells of the board that shows one tile of each value up to the
/// winning one.
pub open spec fn showcase_cells() -> Seq<nat> {
    seq![0nat, 2, 4, 8, 16, 32, 64, 128, 256, 512, 1024, 2048, 0, 0, 0, 0]
}

impl Default for Board {
    /// A board of four by four cells that shows one tile of each value up
    /// to the winning one, with no score.
    fn default() -> (board: Board)
        ensures
            board@ == (State { cols: 4, rows: 4, cells: showcase_cells(), score: 0 }),
            board@.wf(),
    {
        let tiles = vec![
            Tile::new(0),
            Tile::new(2),
            Tile::new(4),
            Tile::new(8),
            Tile::new(16),
            Tile::new(32),
            Tile::new(64),
            Tile::new(128),
            Tile::new(256),
            Tile::new(512),
            Tile::new(1024),
            Tile::new(2048),
            Tile::new(0),
            Tile::new(0),
            Tile::new(0),
            Tile::new(0),
        ];
        assert(tiles.len() == 16);
        assert(size_fits(4, 4));
        let board = Board { tiles, score: 0, width: 4, height: 4 };
        assert(board@.cells =~= showcase_cells());
        board
    }
}

} // verus!
