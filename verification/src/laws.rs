//! What holds of every game: laws that relate the moves, the spawns, the
//! score and the end of the game.

use vstd::prelude::*;
use vstd::relations::injective_on;
use vstd::set_lib::{lemma_map_size, lemma_set_disjoint_lens};
use crate::grid::{
    cell_index,
    empties,
    empties_upto,
    lemma_cell_index,
    lemma_empties_are_empty,
    lemma_line_and_pos,
    lemma_no_change_no_gain,
    lemma_shifted_line,
    line_count,
    line_of,
    pos_of,
    spawn_value,
    tile_count,
    Direction,
    Move,
    State,
};
use crate::line::{
    compact,
    doubling,
    lemma_equal_neighbours_merge,
    lemma_occupied_count,
    lemma_pull_keeps_values,
    lemma_pull_leaves_room,
    lemma_pull_tile_count,
    lemma_settled_line_stays,
    occupied_from,
    settled,
    slide,
    tile_values,
};
use crate::status::GameStatus;

verus! {

/// The number of tiles on the first `count` lines of a direction.
pub open spec fn tiles_upto(state: State, dir: Direction, count: nat) -> nat
    decreases count,
{
    if count == 0 {
        0
    } else {
        tiles_upto(state, dir, (count - 1) as nat) + compact(state.line(dir, count - 1)).len()
    }
}

/// The cells that hold a tile and lie on one of the first `count` lines.
spec fn tiles_on_lines(state: State, dir: Direction, count: nat) -> Set<int> {
    Set::new(
        |i: int|
            0 <= i < state.cells.len() && state.cells[i] != 0 && line_of(state.cols, dir, i)
                < count,
    )
}

/// The cells that hold a tile and lie on line `line`.
spec fn tiles_on_line(state: State, dir: Direction, line: int) -> Set<int> {
    Set::new(
        |i: int|
            0 <= i < state.cells.len() && state.cells[i] != 0 && line_of(state.cols, dir, i)
                == line,
    )
}

/// A move leaves the grid and the score as they are when every line it
/// pulls is settled: no empty cell on it and no two equal neighbours. Such a
/// move spawns nothing.
pub proof fn lemma_settled_lines_stay(state: State, dir: Direction)
    requires
        state.wf(),
        forall|line: int|
            0 <= line < line_count(state.cols, state.rows, dir) ==> #[trigger] settled(
                state.line(dir, line),
            ),
    ensures
        state.shifted(dir) == state,
        !state.can_move(dir),
        forall|nth: nat, roll: nat| #[trigger] state.step(dir, nth, roll) == state,
        forall|after: State| #[trigger] state.moves_into(dir, after) ==> after == state,
{
    assert forall|i: int| 0 <= i < state.cells.len() implies state.shifted(dir).cells[i]
        == state.cells[i] by {
        lemma_line_and_pos(state.cols, state.rows, dir, i);
        let line = line_of(state.cols, dir, i);
        assert(settled(state.line(dir, line)));
        lemma_settled_line_stays(state.line(dir, line));
    }
    assert(state.shifted(dir).cells =~= state.cells);
    lemma_no_change_no_gain(state, dir);
}

/// In a stuck grid every line of every direction is settled.
pub proof fn lemma_stuck_lines_are_settled(state: State, dir: Direction, line: int)
    requires
        state.wf(),
        state.stuck(),
        0 <= line < line_count(state.cols, state.rows, dir),
    ensures
        settled(state.line(dir, line)),
{
    let cells = state.line(dir, line);
    let cols = state.cols as int;
    let rows = state.rows as int;
    assert forall|p: int| 0 <= p < cells.len() implies #[trigger] cells[p] != 0 by {
        match dir {
            Direction::Left => {
                assert(state.blocked_at(line, p));
            },
            Direction::Right => {
                assert(state.blocked_at(line, cols - 1 - p));
            },
            Direction::Up => {
                assert(state.blocked_at(p, line));
            },
            Direction::Down => {
                assert(state.blocked_at(rows - 1 - p, line));
            },
        }
    }
    assert forall|p: int| 0 <= p < cells.len() - 1 implies #[trigger] cells[p] != cells[p + 1] by {
        match dir {
            Direction::Left => {
                assert(state.blocked_at(line, p));
            },
            Direction::Right => {
                assert(state.blocked_at(line, cols - 2 - p));
                assert(cols - 2 - p + 1 == cols - 1 - p);
            },
            Direction::Up => {
                assert(state.blocked_at(p, line));
            },
            Direction::Down => {
                assert(state.blocked_at(rows - 2 - p, line));
                assert(rows - 2 - p + 1 == rows - 1 - p);
            },
        }
    }
}

/// A stuck grid is over for good: its status is game over, and a move in
/// any direction changes nothing and spawns nothing, so the status stays.
pub proof fn lemma_stuck_stays(state: State, dir: Direction)
    requires
        state.wf(),
        state.stuck(),
    ensures
        state.status() == GameStatus::GameOver,
        state.shifted(dir) == state,
        !state.can_move(dir),
        forall|nth: nat, roll: nat| #[trigger] state.step(dir, nth, roll) == state,
        forall|after: State| #[trigger]
            state.moves_into(dir, after) ==> after == state && after.status()
                == GameStatus::GameOver,
{
    assert forall|line: int| 0 <= line < line_count(state.cols, state.rows, dir) implies #[trigger] settled(
        state.line(dir, line),
    ) by {
        lemma_stuck_lines_are_settled(state, dir, line);
    }
    lemma_settled_lines_stay(state, dir);
}

/// A grid is stuck exactly when no cell is empty and no move in any
/// direction would change a cell.
pub proof fn lemma_stuck_means_no_move(state: State)
    requires
        state.wf(),
    ensures
        state.stuck() <==> state.full() && forall|dir: Direction| #[trigger]
            state.shifted(dir).cells == state.cells,
{
    let cols = state.cols as int;
    if state.stuck() {
        assert forall|dir: Direction| #[trigger] state.shifted(dir).cells == state.cells by {
            lemma_stuck_stays(state, dir);
        }
        assert forall|i: int| 0 <= i < state.cells.len() implies state.cells[i] != 0 by {
            lemma_line_and_pos(state.cols, state.rows, Direction::Left, i);
            assert(state.blocked_at(i / cols, i % cols));
        }
    }
    if state.full() && forall|dir: Direction| #[trigger]
        state.shifted(dir).cells == state.cells {
        assert forall|row: int, col: int|
            0 <= row < state.rows && 0 <= col < state.cols implies #[trigger] state.blocked_at(
            row,
            col,
        ) by {
            lemma_cell_index(state.cols, state.rows, Direction::Left, row, col);
            if col + 1 < state.cols && state.at(row, col) == state.at(row, col + 1) {
                lemma_full_line(state, Direction::Left, row);
                lemma_equal_neighbours_merge(state.line(Direction::Left, row), col);
                lemma_shifted_line(state, Direction::Left, row);
                assert(state.shifted(Direction::Left).cells == state.cells);
            }
            if row + 1 < state.rows && state.at(row, col) == state.at(row + 1, col) {
                lemma_full_line(state, Direction::Up, col);
                lemma_equal_neighbours_merge(state.line(Direction::Up, col), row);
                lemma_shifted_line(state, Direction::Up, col);
                assert(state.shifted(Direction::Up).cells == state.cells);
            }
        }
    }
}

/// A spawn puts a two or a four on a cell that was empty and leaves every
/// other cell, the size and the score as they were. The grid then holds
/// exactly one tile more.
pub proof fn lemma_spawn_places_one_tile(state: State, nth: nat, roll: nat)
    requires
        nth < empties(state.cells).len(),
    ensures
        ({
            let index = empties(state.cells)[nth as int];
            let after = state.spawned(nth, roll);
            &&& 0 <= index < state.cells.len()
            &&& state.cells[index] == 0
            &&& after.cells[index] == 2 || after.cells[index] == 4
            &&& after.cells == state.cells.update(index, after.cells[index])
            &&& after.cols == state.cols
            &&& after.rows == state.rows
            &&& after.score == state.score
            &&& tile_count(after.cells) == tile_count(state.cells) + 1
        }),
{
    lemma_empties_are_empty(state.cells, state.cells.len() as int);
    let index = empties(state.cells)[nth as int];
    assert(0 <= index < state.cells.len() && state.cells[index] == 0);
    lemma_empties_after_fill(state.cells, state.cells.len() as int, index, spawn_value(roll));
}

/// A move that changes the grid leaves an empty cell, so the spawn that
/// follows it always finds room.
pub proof fn lemma_changed_move_leaves_room(state: State, dir: Direction)
    requires
        state.wf(),
        state.shifted(dir).cells != state.cells,
    ensures
        empties(state.shifted(dir).cells).len() > 0,
{
    let moved = state.shifted(dir);
    assert(exists|i: int| 0 <= i < state.cells.len() && moved.cells[i] != state.cells[i]) by {
        if forall|i: int| 0 <= i < state.cells.len() ==> moved.cells[i] == state.cells[i] {
            assert(moved.cells =~= state.cells);
        }
    }
    let i = choose|i: int| 0 <= i < state.cells.len() && moved.cells[i] != state.cells[i];
    lemma_line_and_pos(state.cols, state.rows, dir, i);
    let line = line_of(state.cols, dir, i);
    let cells = state.line(dir, line);
    assert(slide(cells)[pos_of(state.cols, state.rows, dir, i)] != cells[pos_of(
        state.cols,
        state.rows,
        dir,
        i,
    )]);
    lemma_pull_leaves_room(cells);
    let last = cells.len() - 1;
    lemma_cell_index(state.cols, state.rows, dir, line, last);
    let free = cell_index(state.cols, state.rows, dir, line, last);
    assert(moved.cells[free] == 0);
    lemma_empty_is_listed(moved.cells, moved.cells.len() as int, free);
}

/// After a move that changes the grid, exactly one new tile stands on a
/// cell that the pull left empty: a two or a four. Every other cell is as
/// the pull left it, and the score is what the pull made it.
pub proof fn lemma_move_spawns_one_tile(state: State, dir: Direction, after: State)
    requires
        state.wf(),
        state.can_move(dir),
        state.moves_into(dir, after),
    ensures
        exists|index: int|
            {
                &&& 0 <= index < state.cells.len()
                &&& state.shifted(dir).cells[index] == 0
                &&& after.cells[index] == 2 || after.cells[index] == 4
                &&& after.cells == #[trigger] state.shifted(dir).cells.update(
                    index,
                    after.cells[index],
                )
            },
        tile_count(after.cells) == tile_count(state.shifted(dir).cells) + 1,
        after.score == state.score + state.gain(dir),
        after.cols == state.cols,
        after.rows == state.rows,
{
    let moved = state.shifted(dir);
    lemma_changed_move_leaves_room(state, dir);
    let (nth, roll) = choose|nth: nat, roll: nat|
        nth < empties(moved.cells).len() && roll < 10 && after == #[trigger] moved.spawned(
            nth,
            roll,
        );
    lemma_spawn_places_one_tile(moved, nth, roll);
    let index = empties(moved.cells)[nth as int];
    assert(after.cells == moved.cells.update(index, after.cells[index]));
}

/// A move that does not change the grid spawns nothing: the state stays as
/// it is, whatever spawn was offered.
pub proof fn lemma_unchanged_move_spawns_nothing(state: State, dir: Direction, after: State)
    requires
        !state.can_move(dir),
        state.moves_into(dir, after),
    ensures
        after == state,
        forall|nth: nat, roll: nat| #[trigger] state.step(dir, nth, roll) == state,
{
}

/// A move never lowers the score: it adds exactly the tiles that it
/// produced by merging.
pub proof fn lemma_move_adds_gain(state: State, dir: Direction, after: State)
    requires
        state.moves_into(dir, after),
    ensures
        after.score == state.score + state.step_gain(dir),
        after.score >= state.score,
{
}

/// One move with a given spawn is one of the outcomes that a move with a
/// random spawn can have, provided the spawn names an empty cell where
/// there is one and the roll is below ten.
pub proof fn lemma_step_is_an_outcome(state: State, dir: Direction, nth: nat, roll: nat)
    requires
        roll < 10,
        state.can_move(dir) ==> nth < empties(state.shifted(dir).cells).len(),
    ensures
        state.moves_into(dir, state.step(dir, nth, roll)),
{
}

/// Over any run of moves the score never falls, and it grows by exactly the
/// sum of the tiles that the moves produced by merging. A game that starts
/// with no score therefore shows that sum.
pub proof fn lemma_score_is_sum_of_gains(state: State, moves: Seq<Move>)
    ensures
        state.run(moves).score == state.score + state.run_gain(moves),
        state.run(moves).score >= state.score,
    decreases moves.len(),
{
    if moves.len() > 0 {
        lemma_score_is_sum_of_gains(state, moves.drop_last());
    }
}

/// A move keeps the size of the grid and one cell for each place.
pub proof fn lemma_step_keeps_shape(state: State, dir: Direction, nth: nat, roll: nat)
    requires
        state.wf(),
    ensures
        state.step(dir, nth, roll).wf(),
        state.step(dir, nth, roll).cols == state.cols,
        state.step(dir, nth, roll).rows == state.rows,
{
    let moved = state.shifted(dir);
    assert(moved.cells.len() == state.cells.len());
    lemma_empties_are_empty(moved.cells, moved.cells.len() as int);
}

/// A run of moves keeps the size of the grid and one cell for each place.
pub proof fn lemma_run_keeps_shape(state: State, moves: Seq<Move>)
    requires
        state.wf(),
    ensures
        state.run(moves).wf(),
        state.run(moves).cols == state.cols,
        state.run(moves).rows == state.rows,
    decreases moves.len(),
{
    if moves.len() > 0 {
        lemma_run_keeps_shape(state, moves.drop_last());
        lemma_step_keeps_shape(
            state.run(moves.drop_last()),
            moves.last().dir,
            moves.last().nth,
            moves.last().roll,
        );
    }
}

/// The number of tiles of a line is the number of cells that packing keeps.
pub proof fn lemma_tile_count_is_compact_len(cells: Seq<nat>)
    ensures
        tile_count(cells) == compact(cells).len(),
{
    lemma_tiles_and_empties(cells, cells.len() as int);
    lemma_occupied_count(cells, 0);
    assert(occupied_from(cells, 0) =~= Set::new(|p: int| 0 <= p < cells.len() && cells[p] != 0));
}

/// The tiles of a grid are the tiles of its lines, in any direction.
pub proof fn lemma_tiles_by_line(state: State, dir: Direction)
    requires
        state.wf(),
    ensures
        tile_count(state.cells) == tiles_upto(
            state,
            dir,
            line_count(state.cols, state.rows, dir),
        ),
{
    let count = line_count(state.cols, state.rows, dir);
    lemma_tiles_on_lines(state, dir, count);
    lemma_tile_count_is_compact_len(state.cells);
    lemma_occupied_count(state.cells, 0);
    assert(tiles_on_lines(state, dir, count) =~= occupied_from(state.cells, 0)) by {
        assert forall|i: int| occupied_from(state.cells, 0).contains(i) implies tiles_on_lines(
            state,
            dir,
            count,
        ).contains(i) by {
            lemma_line_and_pos(state.cols, state.rows, dir, i);
        }
    }
}

/// A pull never adds a tile to the grid, and it keeps the number of tiles
/// exactly when it merges none, that is, when it adds nothing to the score.
pub proof fn lemma_pull_tiles(state: State, dir: Direction)
    requires
        state.wf(),
    ensures
        tile_count(state.shifted(dir).cells) <= tile_count(state.cells),
        (tile_count(state.shifted(dir).cells) == tile_count(state.cells)) == (state.gain(dir)
            == 0),
{
    lemma_tiles_by_line(state, dir);
    lemma_tiles_by_line(state.shifted(dir), dir);
    lemma_pull_tiles_upto(state, dir, line_count(state.cols, state.rows, dir));
}

/// After a move that changes the grid and merges nothing, the grid holds
/// exactly one tile more than before the move. After one that merges, it
/// holds at most as many tiles as before.
pub proof fn lemma_move_tile_count(state: State, dir: Direction, after: State)
    requires
        state.wf(),
        state.can_move(dir),
        state.moves_into(dir, after),
    ensures
        state.gain(dir) == 0 ==> tile_count(after.cells) == tile_count(state.cells) + 1,
        state.gain(dir) > 0 ==> tile_count(after.cells) <= tile_count(state.cells),
{
    lemma_move_spawns_one_tile(state, dir, after);
    lemma_pull_tiles(state, dir);
}

/// A move keeps the tiles among the twos and their doubles: the pull
/// doubles equal tiles, and the spawn adds a two or a four.
pub proof fn lemma_step_keeps_values(state: State, dir: Direction, nth: nat, roll: nat)
    requires
        state.wf(),
        tile_values(state.cells),
    ensures
        tile_values(state.shifted(dir).cells),
        tile_values(state.step(dir, nth, roll).cells),
{
    let moved = state.shifted(dir);
    assert forall|i: int| 0 <= i < moved.cells.len() implies moved.cells[i] == 0 || doubling(
        #[trigger] moved.cells[i],
    ) by {
        lemma_line_and_pos(state.cols, state.rows, dir, i);
        let line = state.line(dir, line_of(state.cols, dir, i));
        assert forall|p: int| 0 <= p < line.len() implies line[p] == 0 || doubling(
            #[trigger] line[p],
        ) by {
            lemma_cell_index(state.cols, state.rows, dir, line_of(state.cols, dir, i), p);
        }
        lemma_pull_keeps_values(line);
        let pos = pos_of(state.cols, state.rows, dir, i);
        assert(slide(line)[pos] == 0 || doubling(slide(line)[pos]));
    }
    lemma_spawn_keeps_values(moved, nth, roll);
}

/// A spawn keeps the tiles among the twos and their doubles.
pub proof fn lemma_spawn_keeps_values(state: State, nth: nat, roll: nat)
    requires
        tile_values(state.cells),
    ensures
        tile_values(state.spawned(nth, roll).cells),
{
    if nth < empties(state.cells).len() {
        lemma_spawn_places_one_tile(state, nth, roll);
        let index = empties(state.cells)[nth as int];
        let after = state.spawned(nth, roll);
        assert(doubling(2) && doubling(4));
        assert forall|i: int| 0 <= i < after.cells.len() implies after.cells[i] == 0
            || doubling(#[trigger] after.cells[i]) by {
            if i != index {
                assert(after.cells[i] == state.cells[i]);
            }
        }
    }
}

/// In a game that starts on an empty grid with one spawn, every tile is a
/// two or a double of a two, whatever moves are made.
pub proof fn lemma_game_keeps_values(
    cols: nat,
    rows: nat,
    nth: nat,
    roll: nat,
    moves: Seq<Move>,
)
    ensures
        tile_values(State::blank(cols, rows).spawned(nth, roll).run(moves).cells),
    decreases moves.len(),
{
    let start = State::blank(cols, rows).spawned(nth, roll);
    if moves.len() == 0 {
        lemma_spawn_keeps_values(State::blank(cols, rows), nth, roll);
    } else {
        lemma_game_keeps_values(cols, rows, nth, roll, moves.drop_last());
        lemma_empties_are_empty(
            State::blank(cols, rows).cells,
            State::blank(cols, rows).cells.len() as int,
        );
        lemma_run_keeps_shape(start, moves.drop_last());
        lemma_step_keeps_values(
            start.run(moves.drop_last()),
            moves.last().dir,
            moves.last().nth,
            moves.last().roll,
        );
    }
}

/// A board that was just made or reset holds no score and, if it has any
/// cell, exactly one tile, a two or a four, with every other cell empty.
pub proof fn lemma_fresh_board_holds_one_tile(cols: nat, rows: nat, after: State)
    requires
        State::blank(cols, rows).spawns_into(after),
    ensures
        after.cols == cols,
        after.rows == rows,
        after.wf(),
        after.score == 0,
        cols * rows == 0 ==> after == State::blank(cols, rows),
        cols * rows > 0 ==> tile_count(after.cells) == 1 && exists|index: int|
            {
                &&& 0 <= index < cols * rows
                &&& after.cells[index] == 2 || after.cells[index] == 4
                &&& after.cells == #[trigger] State::blank(cols, rows).cells.update(
                    index,
                    after.cells[index],
                )
            },
{
    let blank = State::blank(cols, rows);
    lemma_tiles_and_empties(blank.cells, blank.cells.len() as int);
    assert(Set::new(|p: int| 0 <= p < blank.cells.len() && blank.cells[p] != 0) =~= Set::<
        int,
    >::empty());
    assert(tile_count(blank.cells) == 0);
    if cols * rows > 0 {
        let (nth, roll) = choose|nth: nat, roll: nat|
            nth < empties(blank.cells).len() && roll < 10 && after == #[trigger] blank.spawned(
                nth,
                roll,
            );
        lemma_spawn_places_one_tile(blank, nth, roll);
        let index = empties(blank.cells)[nth as int];
        assert(after.cells == blank.cells.update(index, after.cells[index]));
    }
}

/// In a game that starts on an empty grid with one spawn, the score is the
/// sum of all tiles that the moves since then produced by merging.
pub proof fn lemma_game_score(cols: nat, rows: nat, nth: nat, roll: nat, moves: Seq<Move>)
    ensures
        State::blank(cols, rows).spawned(nth, roll).run(moves).score == State::blank(
            cols,
            rows,
        ).spawned(nth, roll).run_gain(moves),
{
    lemma_score_is_sum_of_gains(State::blank(cols, rows).spawned(nth, roll), moves);
}

/// A line of a full grid has no empty cell.
proof fn lemma_full_line(state: State, dir: Direction, line: int)
    requires
        state.wf(),
        state.full(),
        0 <= line < line_count(state.cols, state.rows, dir),
    ensures
        forall|p: int|
            0 <= p < state.line(dir, line).len() ==> #[trigger] state.line(dir, line)[p] != 0,
{
    assert forall|p: int| 0 <= p < state.line(dir, line).len() implies #[trigger] state.line(
        dir,
        line,
    )[p] != 0 by {
        lemma_cell_index(state.cols, state.rows, dir, line, p);
    }
}

/// An empty cell is listed among the empty cells.
proof fn lemma_empty_is_listed(cells: Seq<nat>, upto: int, index: int)
    requires
        0 <= index < upto <= cells.len(),
        cells[index] == 0,
    ensures
        exists|k: int|
            0 <= k < empties_upto(cells, upto).len() && #[trigger] empties_upto(cells, upto)[k]
                == index,
    decreases upto,
{
    if index == upto - 1 {
        let k = empties_upto(cells, upto - 1).len() as int;
        assert(empties_upto(cells, upto)[k] == index);
    } else {
        lemma_empty_is_listed(cells, upto - 1, index);
        let k = choose|k: int|
            0 <= k < empties_upto(cells, upto - 1).len() && #[trigger] empties_upto(
                cells,
                upto - 1,
            )[k] == index;
        assert(empties_upto(cells, upto)[k] == index);
    }
}

/// A tile put on an empty cell takes that cell off the list of empty cells
/// and no other.
proof fn lemma_empties_after_fill(cells: Seq<nat>, upto: int, index: int, value: nat)
    requires
        0 <= index < cells.len(),
        0 <= upto <= cells.len(),
        cells[index] == 0,
        value != 0,
    ensures
        empties_upto(cells.update(index, value), upto).len() == empties_upto(cells, upto).len() - (
        if index < upto {
            1int
        } else {
            0int
        }),
    decreases upto,
{
    if upto > 0 {
        lemma_empties_after_fill(cells, upto - 1, index, value);
    }
}

/// Below any bound, each cell is either listed as empty or holds a tile.
proof fn lemma_tiles_and_empties(cells: Seq<nat>, upto: int)
    requires
        0 <= upto <= cells.len(),
    ensures
        Set::new(|p: int| 0 <= p < upto && cells[p] != 0).finite(),
        Set::new(|p: int| 0 <= p < upto && cells[p] != 0).len() + empties_upto(cells, upto).len()
            == upto,
    decreases upto,
{
    let tiles = Set::new(|p: int| 0 <= p < upto && cells[p] != 0);
    if upto == 0 {
        assert(tiles =~= Set::<int>::empty());
    } else {
        let fewer = Set::new(|p: int| 0 <= p < upto - 1 && cells[p] != 0);
        lemma_tiles_and_empties(cells, upto - 1);
        if cells[upto - 1] == 0 {
            assert(tiles =~= fewer);
        } else {
            assert(tiles =~= fewer.insert(upto - 1));
        }
    }
}

/// A line holds as many tiles as the grid holds on the cells of that line.
proof fn lemma_tiles_on_line(state: State, dir: Direction, line: int)
    requires
        state.wf(),
        0 <= line < line_count(state.cols, state.rows, dir),
    ensures
        tiles_on_line(state, dir, line).finite(),
        tiles_on_line(state, dir, line).len() == compact(state.line(dir, line)).len(),
{
    let cells = state.line(dir, line);
    let on_line = tiles_on_line(state, dir, line);
    let place = |pos: int| cell_index(state.cols, state.rows, dir, line, pos);
    let positions = occupied_from(cells, 0);
    lemma_occupied_count(cells, 0);
    assert forall|p: int, q: int|
        positions.contains(p) && positions.contains(q) && #[trigger] place(p) == #[trigger] place(
            q,
        ) implies p == q by {
        lemma_cell_index(state.cols, state.rows, dir, line, p);
        lemma_cell_index(state.cols, state.rows, dir, line, q);
    }
    assert(injective_on(place, positions));
    assert forall|i: int| on_line.contains(i) implies positions.map(place).contains(i) by {
        lemma_line_and_pos(state.cols, state.rows, dir, i);
        let pos = pos_of(state.cols, state.rows, dir, i);
        assert(positions.contains(pos) && i == place(pos));
    }
    assert forall|i: int| positions.map(place).contains(i) implies on_line.contains(i) by {
        let pos = choose|pos: int| positions.contains(pos) && i == place(pos);
        lemma_cell_index(state.cols, state.rows, dir, line, pos);
    }
    assert(positions.map(place) =~= on_line);
    lemma_map_size(positions, on_line, place);
}

/// The first `count` lines hold as many tiles as the grid holds on their
/// cells.
proof fn lemma_tiles_on_lines(state: State, dir: Direction, count: nat)
    requires
        state.wf(),
        count <= line_count(state.cols, state.rows, dir),
    ensures
        tiles_on_lines(state, dir, count).finite(),
        tiles_on_lines(state, dir, count).len() == tiles_upto(state, dir, count),
    decreases count,
{
    let all = tiles_on_lines(state, dir, count);
    if count == 0 {
        assert forall|i: int| !all.contains(i) by {
            if 0 <= i < state.cells.len() {
                lemma_line_and_pos(state.cols, state.rows, dir, i);
            }
        }
        assert(all =~= Set::<int>::empty());
    } else {
        let fewer = tiles_on_lines(state, dir, (count - 1) as nat);
        let last = tiles_on_line(state, dir, count - 1);
        lemma_tiles_on_lines(state, dir, (count - 1) as nat);
        lemma_tiles_on_line(state, dir, count - 1);
        assert(all =~= fewer + last);
        assert(fewer.disjoint(last));
        lemma_set_disjoint_lens(fewer, last);
    }
}

/// On the first `count` lines a pull adds no tile, and it keeps their
/// number exactly when it has no gain on them.
proof fn lemma_pull_tiles_upto(state: State, dir: Direction, count: nat)
    requires
        state.wf(),
        count <= line_count(state.cols, state.rows, dir),
    ensures
        tiles_upto(state.shifted(dir), dir, count) <= tiles_upto(state, dir, count),
        (tiles_upto(state.shifted(dir), dir, count) == tiles_upto(state, dir, count)) == (
        state.gain_upto(dir, count) == 0),
    decreases count,
{
    if count > 0 {
        lemma_pull_tiles_upto(state, dir, (count - 1) as nat);
        lemma_shifted_line(state, dir, count - 1);
        lemma_pull_tile_count(state.line(dir, count - 1));
    }
}

} // verus!
