use twenty48::grid::Direction;
use twenty48::session::{Command, Key, Reaction, Screen, Session};
use twenty48::status::GameStatus;

fn session_cells(session: &Session) -> Vec<u16> {
    session.board().tiles().iter().map(|t| t.value()).collect()
}

#[test]
fn the_arrows_move_the_tiles_on_the_board_screen() {
    assert_eq!(Screen::Game.command(Key::Up), Command::Shift(Direction::Up));
    assert_eq!(Screen::Game.command(Key::Down), Command::Shift(Direction::Down));
    assert_eq!(Screen::Game.command(Key::Left), Command::Shift(Direction::Left));
    assert_eq!(Screen::Game.command(Key::Right), Command::Shift(Direction::Right));
}

#[test]
fn the_letters_of_the_board_screen() {
    assert_eq!(Screen::Game.command(Key::Char('r')), Command::Restart);
    assert_eq!(Screen::Game.command(Key::Char('i')), Command::ShowHelp);
    assert_eq!(Screen::Game.command(Key::Char('q')), Command::Quit);
    assert_eq!(Screen::Game.command(Key::Esc), Command::Quit);
    assert_eq!(Screen::Game.command(Key::Char('x')), Command::Nothing);
    assert_eq!(Screen::Game.command(Key::Char('R')), Command::Nothing);
    assert_eq!(Screen::Game.command(Key::Other), Command::Nothing);
}

#[test]
fn the_keys_of_the_help_screen() {
    assert_eq!(Screen::Help.command(Key::Char('i')), Command::ShowGame);
    assert_eq!(Screen::Help.command(Key::Char('q')), Command::Quit);
    assert_eq!(Screen::Help.command(Key::Esc), Command::Quit);
    assert_eq!(Screen::Help.command(Key::Up), Command::Nothing);
    assert_eq!(Screen::Help.command(Key::Down), Command::Nothing);
    assert_eq!(Screen::Help.command(Key::Left), Command::Nothing);
    assert_eq!(Screen::Help.command(Key::Right), Command::Nothing);
    assert_eq!(Screen::Help.command(Key::Char('r')), Command::Nothing);
    assert_eq!(Screen::Help.command(Key::Other), Command::Nothing);
}

#[test]
fn a_new_session_shows_a_fresh_board() {
    let session = Session::new(4, 4);
    assert_eq!(session.screen(), Screen::Game);
    assert_eq!(session.status(), GameStatus::Playing);
    assert_eq!(session.board().score(), 0);
    assert_eq!(session_cells(&session).iter().filter(|v| **v != 0).count(), 1);
}

#[test]
fn the_default_session_shows_every_value() {
    let session = Session::default();
    assert_eq!(session.screen(), Screen::Game);
    assert_eq!(session.status(), GameStatus::Playing);
    assert_eq!(
        session_cells(&session),
        vec![0, 2, 4, 8, 16, 32, 64, 128, 256, 512, 1024, 2048, 0, 0, 0, 0]
    );
}

#[test]
fn an_arrow_moves_and_asks_for_a_redraw() {
    let mut session = Session::default();
    assert_eq!(session.on_key(Key::Down), Reaction::Redraw);
    let cells = session_cells(&session);
    assert_eq!(cells[12..16], [256, 512, 1024, 2048]);
    assert_eq!(cells[8..12], [16, 32, 64, 128]);
    assert_eq!(cells[5..8], [2, 4, 8]);
    assert_eq!(cells.iter().filter(|v| **v != 0).count(), 12);
    assert_eq!(session.status(), GameStatus::Victory);
    assert_eq!(session.screen(), Screen::Game);
}

#[test]
fn help_is_toggled_with_a_cleared_screen() {
    let mut session = Session::default();
    let before = session_cells(&session);
    assert_eq!(session.on_key(Key::Char('i')), Reaction::ClearAndRedraw);
    assert_eq!(session.screen(), Screen::Help);
    assert_eq!(session_cells(&session), before);
    assert_eq!(session.on_key(Key::Up), Reaction::Ignore);
    assert_eq!(session.on_key(Key::Char('r')), Reaction::Ignore);
    assert_eq!(session_cells(&session), before);
    assert_eq!(session.on_key(Key::Char('i')), Reaction::ClearAndRedraw);
    assert_eq!(session.screen(), Screen::Game);
    assert_eq!(session_cells(&session), before);
}

#[test]
fn quitting_changes_nothing() {
    let mut session = Session::default();
    let before = session_cells(&session);
    assert_eq!(session.on_key(Key::Char('q')), Reaction::Quit);
    assert_eq!(session.on_key(Key::Esc), Reaction::Quit);
    assert_eq!(session_cells(&session), before);
    assert_eq!(session.on_key(Key::Char('i')), Reaction::ClearAndRedraw);
    assert_eq!(session.on_key(Key::Char('q')), Reaction::Quit);
    assert_eq!(session.on_key(Key::Esc), Reaction::Quit);
    assert_eq!(session.screen(), Screen::Help);
}

#[test]
fn a_key_without_meaning_is_ignored() {
    let mut session = Session::default();
    let before = session_cells(&session);
    assert_eq!(session.on_key(Key::Other), Reaction::Ignore);
    assert_eq!(session.on_key(Key::Char('z')), Reaction::Ignore);
    assert_eq!(session_cells(&session), before);
    assert_eq!(session.status(), GameStatus::Playing);
}

#[test]
fn restart_gives_a_fresh_board_of_the_same_size() {
    let mut session = Session::default();
    session.on_key(Key::Down);
    assert_eq!(session.status(), GameStatus::Victory);
    assert_eq!(session.on_key(Key::Char('r')), Reaction::ClearAndRedraw);
    assert_eq!(session.status(), GameStatus::Playing);
    assert_eq!(session.screen(), Screen::Game);
    assert_eq!(session.board().score(), 0);
    assert_eq!(session.board().cols(), 4);
    assert_eq!(session.board().rows(), 4);
    assert_eq!(session_cells(&session).iter().filter(|v| **v != 0).count(), 1);
}
