use twenty48::board::Board;
use twenty48::grid::Direction;
use twenty48::status::GameStatus;
use twenty48::tile::Tile;

fn board_from(width: usize, height: usize, values: &[u16]) -> Board {
    let tiles: Vec<Tile> = values.iter().map(|v| Tile::new(*v)).collect();
    match Board::with_tiles(width, height, tiles) {
        Some(board) => board,
        None => panic!("the tiles do not fill the board"),
    }
}

fn cells_of(board: &Board) -> Vec<u16> {
    board.tiles().iter().map(|t| t.value()).collect()
}

fn count_tiles(board: &Board) -> usize {
    board.tiles().iter().filter(|t| !t.is_empty()).count()
}

const DIRECTIONS: [Direction; 4] =
    [Direction::Up, Direction::Down, Direction::Left, Direction::Right];

#[test]
fn a_new_board_holds_one_tile_and_no_score() {
    for _ in 0..200 {
        let board = Board::new(4, 4);
        let cells = cells_of(&board);
        assert_eq!(cells.len(), 16);
        assert_eq!(count_tiles(&board), 1);
        assert!(cells.iter().all(|v| *v == 0 || *v == 2 || *v == 4));
        assert_eq!(board.score(), 0);
        assert_eq!(board.cols(), 4);
        assert_eq!(board.rows(), 4);
    }
}

#[test]
fn a_new_board_of_one_cell_is_filled_at_once() {
    let board = Board::new(1, 1);
    assert_eq!(count_tiles(&board), 1);
    assert_eq!(board.status(), GameStatus::GameOver);
}

#[test]
fn a_board_without_cells_takes_no_tile() {
    let mut board = Board::new(0, 3);
    assert_eq!(cells_of(&board), Vec::<u16>::new());
    assert_eq!(board.count_empty(), 0);
    for dir in DIRECTIONS {
        board.play(dir);
        assert_eq!(cells_of(&board), Vec::<u16>::new());
    }
    let mut other = Board::new(3, 0);
    other.reset();
    assert_eq!(cells_of(&other), Vec::<u16>::new());
}

#[test]
fn new_tiles_land_on_every_cell_and_take_both_values() {
    let mut seen_at = [false; 4];
    let mut twos = 0;
    let mut fours = 0;
    for _ in 0..2000 {
        let board = Board::new(2, 2);
        for (i, v) in cells_of(&board).iter().enumerate() {
            if *v != 0 {
                seen_at[i] = true;
                if *v == 2 {
                    twos += 1;
                } else {
                    fours += 1;
                }
            }
        }
    }
    assert!(seen_at.iter().all(|s| *s));
    assert!(twos > fours);
    assert!(fours > 0);
}

#[test]
fn reset_leaves_one_tile_and_no_score() {
    let mut board = board_from(2, 2, &[2, 2, 4, 4]);
    board.step(Direction::Left, 0, 0);
    assert_eq!(board.score(), 12);
    board.reset();
    assert_eq!(board.score(), 0);
    assert_eq!(board.cols(), 2);
    assert_eq!(board.rows(), 2);
    assert_eq!(count_tiles(&board), 1);
    assert!(cells_of(&board).iter().all(|v| *v == 0 || *v == 2 || *v == 4));
}

#[test]
fn tiles_must_fill_the_board() {
    assert!(Board::with_tiles(2, 2, vec![Tile::new(0); 3]).is_none());
    assert!(Board::with_tiles(2, 2, vec![Tile::new(0); 5]).is_none());
    assert!(Board::with_tiles(2, 2, vec![Tile::new(0); 4]).is_some());
    assert!(Board::with_tiles(0, 0, vec![]).is_some());
    assert!(Board::with_tiles(0, 5, vec![]).is_some());
}

#[test]
fn a_board_too_large_to_lay_out_is_refused() {
    assert!(Board::with_tiles(usize::MAX, 0, vec![]).is_none());
    assert!(Board::with_tiles(0, usize::MAX, vec![]).is_none());
    assert!(Board::with_tiles(usize::MAX / 6 + 1, 0, vec![]).is_none());
    assert!(Board::with_tiles((usize::MAX - 1) / 6, 0, vec![]).is_some());
    assert!(Board::with_tiles(0, (usize::MAX - 2) / 3, vec![]).is_some());
    assert!(Board::with_tiles(0, (usize::MAX - 2) / 3 + 1, vec![]).is_none());
    assert!(Board::with_tiles(1 << 20, usize::MAX >> 20, vec![]).is_none());
}

#[test]
fn a_board_keeps_the_tiles_it_was_given() {
    let board = board_from(3, 2, &[0, 2, 4, 8, 16, 32]);
    assert_eq!(cells_of(&board), vec![0, 2, 4, 8, 16, 32]);
    assert_eq!(board.cols(), 3);
    assert_eq!(board.rows(), 2);
    assert_eq!(board.score(), 0);
    assert_eq!(board.count_empty(), 1);
}

#[test]
fn the_drawn_size_counts_cells_and_borders() {
    let board = board_from(4, 4, &[0; 16]);
    assert_eq!(board.width(), 25);
    assert_eq!(board.height(), 14);
    let small = board_from(3, 2, &[0; 6]);
    assert_eq!(small.width(), 19);
    assert_eq!(small.height(), 8);
    let none = board_from(0, 0, &[]);
    assert_eq!(none.width(), 1);
    assert_eq!(none.height(), 2);
}

#[test]
fn the_default_board_shows_every_value() {
    let board = Board::default();
    assert_eq!(
        cells_of(&board),
        vec![0, 2, 4, 8, 16, 32, 64, 128, 256, 512, 1024, 2048, 0, 0, 0, 0]
    );
    assert_eq!(board.cols(), 4);
    assert_eq!(board.rows(), 4);
    assert_eq!(board.score(), 0);
    assert_eq!(board.status(), GameStatus::Victory);
}

#[test]
fn shift_left_pulls_each_row_to_the_left() {
    let mut board = board_from(4, 4, &[
        2, 2, 2, 2,
        2, 0, 0, 2,
        0, 4, 0, 8,
        0, 0, 0, 0,
    ]);
    assert!(board.fits(Direction::Left));
    assert!(board.shift(Direction::Left));
    assert_eq!(cells_of(&board), vec![
        4, 4, 0, 0,
        4, 0, 0, 0,
        4, 8, 0, 0,
        0, 0, 0, 0,
    ]);
    assert_eq!(board.score(), 12);
}

#[test]
fn shift_right_pulls_each_row_to_the_right() {
    let mut board = board_from(4, 4, &[
        2, 2, 2, 2,
        2, 0, 0, 2,
        0, 4, 0, 8,
        4, 2, 2, 0,
    ]);
    assert!(board.shift(Direction::Right));
    assert_eq!(cells_of(&board), vec![
        0, 0, 4, 4,
        0, 0, 0, 4,
        0, 0, 4, 8,
        0, 0, 4, 4,
    ]);
    assert_eq!(board.score(), 16);
}

#[test]
fn shift_up_pulls_each_column_to_the_top() {
    let mut board = board_from(4, 4, &[
        2, 2, 0, 0,
        2, 0, 4, 0,
        2, 0, 0, 0,
        2, 2, 8, 0,
    ]);
    assert!(board.shift(Direction::Up));
    assert_eq!(cells_of(&board), vec![
        4, 4, 4, 0,
        4, 0, 8, 0,
        0, 0, 0, 0,
        0, 0, 0, 0,
    ]);
    assert_eq!(board.score(), 12);
}

#[test]
fn shift_down_pulls_each_column_to_the_bottom() {
    let mut board = board_from(4, 4, &[
        2, 2, 0, 4,
        2, 0, 4, 2,
        2, 0, 0, 2,
        2, 2, 8, 0,
    ]);
    assert!(board.shift(Direction::Down));
    assert_eq!(cells_of(&board), vec![
        0, 0, 0, 0,
        0, 0, 0, 0,
        4, 0, 4, 4,
        4, 4, 8, 4,
    ]);
    assert_eq!(board.score(), 16);
}

#[test]
fn three_equal_tiles_merge_at_the_pulled_edge() {
    let mut left = board_from(3, 1, &[2, 2, 2]);
    left.shift(Direction::Left);
    assert_eq!(cells_of(&left), vec![4, 2, 0]);
    let mut right = board_from(3, 1, &[2, 2, 2]);
    right.shift(Direction::Right);
    assert_eq!(cells_of(&right), vec![0, 2, 4]);
    let mut up = board_from(1, 3, &[2, 2, 2]);
    up.shift(Direction::Up);
    assert_eq!(cells_of(&up), vec![4, 2, 0]);
    let mut down = board_from(1, 3, &[2, 2, 2]);
    down.shift(Direction::Down);
    assert_eq!(cells_of(&down), vec![0, 2, 4]);
}

#[test]
fn a_board_that_is_not_square_keeps_rows_and_columns_apart() {
    let mut board = board_from(3, 2, &[
        2, 0, 2,
        4, 4, 2,
    ]);
    board.shift(Direction::Up);
    assert_eq!(cells_of(&board), vec![
        2, 4, 4,
        4, 0, 0,
    ]);
    assert_eq!(board.score(), 4);
    board.shift(Direction::Right);
    assert_eq!(cells_of(&board), vec![
        0, 2, 8,
        0, 0, 4,
    ]);
    assert_eq!(board.score(), 12);
}

#[test]
fn a_shift_that_moves_nothing_reports_no_change() {
    let mut board = board_from(2, 2, &[2, 0, 4, 0]);
    assert!(!board.shift(Direction::Left));
    assert_eq!(cells_of(&board), vec![2, 0, 4, 0]);
    assert_eq!(board.score(), 0);
    assert!(!board.shift(Direction::Up));
    assert!(board.shift(Direction::Right));
}

#[test]
fn a_move_on_settled_lines_changes_nothing_and_spawns_nothing() {
    let mut board = board_from(4, 2, &[
        2, 4, 2, 4,
        8, 16, 8, 16,
    ]);
    for dir in [Direction::Left, Direction::Right] {
        for _ in 0..20 {
            board.play(dir);
            assert_eq!(cells_of(&board), vec![2, 4, 2, 4, 8, 16, 8, 16]);
            assert_eq!(board.score(), 0);
        }
        board.step(dir, 0, 9);
        assert_eq!(cells_of(&board), vec![2, 4, 2, 4, 8, 16, 8, 16]);
    }
}

#[test]
fn a_move_without_change_spawns_nothing_though_cells_are_empty() {
    let mut board = board_from(2, 2, &[2, 0, 4, 0]);
    for _ in 0..50 {
        board.left();
        assert_eq!(cells_of(&board), vec![2, 0, 4, 0]);
        board.up();
        assert_eq!(cells_of(&board), vec![2, 0, 4, 0]);
    }
    assert_eq!(board.score(), 0);
}

#[test]
fn a_step_spawns_on_the_chosen_empty_cell() {
    let mut board = board_from(2, 2, &[2, 2, 0, 0]);
    let status = board.step(Direction::Left, 0, 0);
    assert_eq!(cells_of(&board), vec![4, 2, 0, 0]);
    assert_eq!(board.score(), 4);
    assert_eq!(status, GameStatus::Playing);

    let mut board = board_from(2, 2, &[2, 2, 0, 0]);
    board.step(Direction::Left, 2, 9);
    assert_eq!(cells_of(&board), vec![4, 0, 0, 4]);
    assert_eq!(board.score(), 4);

    let mut board = board_from(2, 2, &[2, 2, 0, 0]);
    board.step(Direction::Left, 1, 8);
    assert_eq!(cells_of(&board), vec![4, 0, 2, 0]);
}

#[test]
fn a_step_with_no_such_empty_cell_spawns_nothing() {
    let mut board = board_from(2, 2, &[2, 2, 0, 0]);
    board.step(Direction::Left, 3, 0);
    assert_eq!(cells_of(&board), vec![4, 0, 0, 0]);
    assert_eq!(board.score(), 4);
}

#[test]
fn move_left_on_two_by_two() {
    for _ in 0..100 {
        let mut board = board_from(2, 2, &[2, 2, 0, 0]);
        let status = board.left();
        let cells = cells_of(&board);
        assert_eq!(cells[0], 4);
        assert_eq!(count_tiles(&board), 2);
        let spawned: Vec<u16> = cells[1..].iter().copied().filter(|v| *v != 0).collect();
        assert!(spawned == vec![2] || spawned == vec![4]);
        assert_eq!(board.score(), 4);
        assert_eq!(status, GameStatus::Playing);
    }
}

#[test]
fn a_changed_move_adds_one_tile_to_what_the_pull_left() {
    for dir in DIRECTIONS {
        for _ in 0..50 {
            let start = [2, 0, 2, 4, 0, 0, 4, 4, 8, 0, 0, 8, 0, 2, 0, 0];
            let mut pulled = board_from(4, 4, &start);
            assert!(pulled.shift(dir));
            let mut board = board_from(4, 4, &start);
            board.play(dir);
            let before = cells_of(&pulled);
            let after = cells_of(&board);
            let differing: Vec<usize> = (0..16).filter(|i| before[*i] != after[*i]).collect();
            assert_eq!(differing.len(), 1);
            assert_eq!(before[differing[0]], 0);
            assert!(after[differing[0]] == 2 || after[differing[0]] == 4);
            assert_eq!(count_tiles(&board), count_tiles(&pulled) + 1);
            assert_eq!(board.score(), pulled.score());
        }
    }
}

#[test]
fn spawn_fills_the_nth_empty_cell() {
    let mut board = board_from(3, 2, &[2, 0, 4, 0, 0, 8]);
    assert_eq!(board.count_empty(), 3);
    assert!(board.spawn(1, 0));
    assert_eq!(cells_of(&board), vec![2, 0, 4, 2, 0, 8]);
    assert!(board.spawn(1, 9));
    assert_eq!(cells_of(&board), vec![2, 0, 4, 2, 4, 8]);
    assert!(!board.spawn(1, 9));
    assert_eq!(cells_of(&board), vec![2, 0, 4, 2, 4, 8]);
    assert!(board.spawn(0, 3));
    assert_eq!(cells_of(&board), vec![2, 2, 4, 2, 4, 8]);
    assert_eq!(board.count_empty(), 0);
    assert!(!board.spawn(0, 0));
}

#[test]
fn only_the_roll_nine_gives_a_four() {
    for roll in 0..12 {
        let mut board = board_from(1, 1, &[0]);
        assert!(board.spawn(0, roll));
        let expected = if roll == 9 { 4 } else { 2 };
        assert_eq!(cells_of(&board), vec![expected]);
    }
}

#[test]
fn the_score_never_falls_and_counts_the_merged_tiles() {
    let mut board = Board::new(4, 4);
    let mut score = 0;
    for round in 0..400 {
        let dir = DIRECTIONS[round % 4];
        let mut pulled = match Board::with_tiles(4, 4, board.tiles().clone()) {
            Some(b) => b,
            None => panic!("the tiles do not fill the board"),
        };
        let changed = pulled.shift(dir);
        let before = count_tiles(&board);
        board.play(dir);
        assert!(board.score() >= score);
        assert_eq!(board.score(), score + pulled.score());
        if changed {
            assert_eq!(count_tiles(&board), count_tiles(&pulled) + 1);
        } else {
            assert_eq!(count_tiles(&board), before);
        }
        score = board.score();
    }
}

#[test]
fn the_score_of_a_known_game() {
    let mut board = board_from(2, 2, &[2, 2, 4, 4]);
    board.step(Direction::Left, 0, 0);
    assert_eq!(cells_of(&board), vec![4, 2, 8, 0]);
    assert_eq!(board.score(), 12);
    board.step(Direction::Up, 0, 9);
    assert_eq!(cells_of(&board), vec![4, 2, 8, 0]);
    assert_eq!(board.score(), 12);
    board.step(Direction::Right, 0, 9);
    assert_eq!(cells_of(&board), vec![4, 2, 4, 8]);
    assert_eq!(board.score(), 12);
    board.step(Direction::Down, 0, 0);
    assert_eq!(cells_of(&board), vec![2, 2, 8, 8]);
    assert_eq!(board.score(), 20);
}

#[test]
fn a_full_board_without_equal_neighbours_is_over() {
    let start = [2, 4, 2, 4, 4, 2, 4, 2, 2, 4, 2, 4, 4, 2, 4, 2];
    let mut board = board_from(4, 4, &start);
    assert!(board.is_stuck());
    assert_eq!(board.status(), GameStatus::GameOver);
    for _ in 0..5 {
        for dir in DIRECTIONS {
            assert_eq!(board.play(dir), GameStatus::GameOver);
            assert_eq!(cells_of(&board), start.to_vec());
            assert_eq!(board.score(), 0);
            assert_eq!(board.step(dir, 0, 0), GameStatus::GameOver);
            assert_eq!(cells_of(&board), start.to_vec());
        }
    }
    assert_eq!(board.up(), GameStatus::GameOver);
    assert_eq!(board.down(), GameStatus::GameOver);
    assert_eq!(board.left(), GameStatus::GameOver);
    assert_eq!(board.right(), GameStatus::GameOver);
    assert_eq!(cells_of(&board), start.to_vec());
}

#[test]
fn a_full_board_with_equal_neighbours_goes_on() {
    let across = board_from(2, 2, &[2, 2, 4, 8]);
    assert!(!across.is_stuck());
    assert_eq!(across.status(), GameStatus::Playing);
    let down = board_from(2, 2, &[2, 4, 2, 8]);
    assert!(!down.is_stuck());
    let last_row = board_from(2, 2, &[2, 4, 8, 8]);
    assert!(!last_row.is_stuck());
    let last_column = board_from(2, 2, &[2, 4, 8, 4]);
    assert!(!last_column.is_stuck());
    let diagonal = board_from(2, 2, &[2, 4, 4, 2]);
    assert!(diagonal.is_stuck());
}

#[test]
fn a_board_with_an_empty_cell_goes_on() {
    let board = board_from(2, 2, &[2, 4, 4, 0]);
    assert!(!board.is_stuck());
    assert_eq!(board.status(), GameStatus::Playing);
}

#[test]
fn the_winning_tile_gives_victory() {
    let board = board_from(2, 2, &[2048, 0, 0, 0]);
    assert_eq!(board.status(), GameStatus::Victory);
    assert!(board.has_reached(2048));
    assert!(!board.has_reached(2049));
    let above = board_from(2, 2, &[4096, 0, 0, 0]);
    assert_eq!(above.status(), GameStatus::Victory);
    let below = board_from(2, 2, &[1024, 1024, 0, 0]);
    assert_eq!(below.status(), GameStatus::Playing);
    assert!(!below.has_reached(2048));
}

#[test]
fn a_move_that_makes_the_winning_tile_reports_victory() {
    let mut board = board_from(2, 2, &[1024, 1024, 0, 0]);
    assert_eq!(board.left(), GameStatus::Victory);
    assert_eq!(cells_of(&board)[0], 2048);
    assert_eq!(board.score(), 2048);
}

#[test]
fn a_stuck_board_is_over_though_it_holds_the_winning_tile() {
    let board = board_from(2, 2, &[2048, 4, 4, 2]);
    assert_eq!(board.status(), GameStatus::GameOver);
}

#[test]
fn a_move_that_a_cell_cannot_hold_is_not_made() {
    let mut board = board_from(2, 2, &[32768, 32768, 2, 0]);
    assert!(!board.fits(Direction::Left));
    assert!(!board.fits(Direction::Right));
    assert!(board.fits(Direction::Up));
    assert!(board.fits(Direction::Down));
    board.left();
    assert_eq!(cells_of(&board), vec![32768, 32768, 2, 0]);
    assert_eq!(board.score(), 0);
    board.step(Direction::Right, 0, 0);
    assert_eq!(cells_of(&board), vec![32768, 32768, 2, 0]);
    board.step(Direction::Up, 0, 0);
    assert_eq!(cells_of(&board), vec![32768, 32768, 2, 0]);
    board.step(Direction::Down, 0, 0);
    assert_eq!(cells_of(&board), vec![32768, 2, 2, 32768]);
}

#[test]
fn the_largest_tiles_that_fit_merge_on_the_board() {
    let mut board = board_from(2, 1, &[16384, 16384]);
    assert!(board.fits(Direction::Left));
    board.step(Direction::Left, 0, 0);
    assert_eq!(cells_of(&board), vec![32768, 2]);
    assert_eq!(board.score(), 32768);
}

#[test]
fn a_game_holds_only_twos_and_their_doubles() {
    for _ in 0..20 {
        let mut board = Board::new(4, 4);
        for round in 0..300 {
            board.play(DIRECTIONS[(round * 7 + round / 3) % 4]);
            for value in cells_of(&board) {
                assert!(value == 0 || (value >= 2 && value.is_power_of_two()));
            }
        }
    }
}

#[test]
fn a_move_that_merges_nothing_adds_exactly_one_tile() {
    for dir in [Direction::Left, Direction::Right] {
        let mut board = board_from(3, 2, &[0, 2, 4, 8, 0, 16]);
        let before = count_tiles(&board);
        board.play(dir);
        assert_eq!(board.score(), 0);
        assert_eq!(count_tiles(&board), before + 1);
    }
}

#[test]
fn a_move_that_merges_never_adds_a_tile() {
    let mut board = board_from(4, 1, &[2, 2, 4, 4]);
    board.left();
    assert_eq!(board.score(), 12);
    assert_eq!(count_tiles(&board), 3);
    let mut other = board_from(2, 1, &[2, 2]);
    other.right();
    assert_eq!(count_tiles(&other), 2);
}

#[test]
fn a_changed_move_always_finds_room_for_the_new_tile() {
    let mut board = board_from(2, 2, &[2, 2, 4, 8]);
    assert_eq!(board.count_empty(), 0);
    board.left();
    assert_eq!(board.count_empty(), 0);
    assert_eq!(cells_of(&board)[0], 4);
    assert_eq!(cells_of(&board)[2..], [4, 8]);
    assert!(cells_of(&board)[1] == 2 || cells_of(&board)[1] == 4);
}

#[test]
fn the_status_follows_the_board_after_each_move() {
    let mut board = board_from(2, 2, &[2, 4, 0, 4]);
    assert_eq!(board.status(), GameStatus::Playing);
    assert_eq!(board.step(Direction::Up, 0, 0), GameStatus::Playing);
    assert_eq!(cells_of(&board), vec![2, 8, 2, 0]);
    assert_eq!(board.step(Direction::Right, 0, 9), GameStatus::GameOver);
    assert_eq!(cells_of(&board), vec![2, 8, 4, 2]);
    assert_eq!(board.step(Direction::Down, 0, 0), GameStatus::GameOver);
    assert_eq!(cells_of(&board), vec![2, 8, 4, 2]);
    let mut last = board_from(2, 2, &[2, 4, 0, 4]);
    assert_eq!(last.step(Direction::Left, 0, 0), GameStatus::GameOver);
    assert_eq!(cells_of(&last), vec![2, 4, 4, 2]);
    assert_eq!(last.status(), GameStatus::GameOver);
}
