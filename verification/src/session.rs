//! A game in progress as the player sees it: the board, where the game
//! stands, which screen is shown, and what each key does.
//!
//! Reading keys and drawing are left to the caller. The caller hands each
//! key to the session and is told what to do next.

use vstd::prelude::*;
use crate::board::{size_fits, showcase_cells, Board};
use crate::grid::{Direction, State};
use crate::status::GameStatus;

verus! {

/// The screen that is shown.
#[derive(Debug, Clone, Copy, PartialEq, Eq, Structural)]
pub enum Screen {
    /// The board with its score.
    Game,
    /// The list of keys.
    Help,
}

/// A key that the player pressed.
#[derive(Debug, Clone, Copy, PartialEq, Eq, Structural)]
pub enum Key {
    Up,
    Down,
    Left,
    Right,
    Esc,
    /// A key that stands for a character.
    Char(char),
    /// Any other key.
    Other,
}

/// What a key asks for.
#[derive(Debug, Clone, Copy, PartialEq, Eq, Structural)]
pub enum Command {
    /// Move the tiles toward an edge.
    Shift(Direction),
    /// Start a new game on the same board.
    Restart,
    /// Show the list of keys.
    ShowHelp,
    /// Go back to the board.
    ShowGame,
    /// Leave the program.
    Quit,
    /// Nothing: the key has no meaning on this screen.
    Nothing,
}

/// What the caller has to do after a key.
#[derive(Debug, Clone, Copy, PartialEq, Eq, Structural)]
pub enum Reaction {
    /// Nothing changed.
    Ignore,
    /// Draw the screen again.
    Redraw,
    /// Clear the terminal, then draw the screen.
    ClearAndRedraw,
    /// Leave the program.
    Quit,
}

impl Screen {
    /// What `key` asks for on this screen. On the board the arrows move the
    /// tiles, `r` restarts and `i` shows the help; on the help `i` goes back
    /// to the board. On both, `q` and escape quit. Other keys do nothing.
    pub open spec fn command_of(self, key: Key) -> Command {
        match (self, key) {
            (_, Key::Esc) => Command::Quit,
            (_, Key::Char('q')) => Command::Quit,
            (Screen::Game, Key::Up) => Command::Shift(Direction::Up),
            (Screen::Game, Key::Down) => Command::Shift(Direction::Down),
            (Screen::Game, Key::Left) => Command::Shift(Direction::Left),
            (Screen::Game, Key::Right) => Command::Shift(Direction::Right),
            (Screen::Game, Key::Char('r')) => Command::Restart,
            (Screen::Game, Key::Char('i')) => Command::ShowHelp,
            (Screen::Help, Key::Char('i')) => Command::ShowGame,
            _ => Command::Nothing,
        }
    }

    /// What `key` asks for on this screen.
    pub fn command(&self, key: Key) -> (command: Command)
        ensures
            command == self.command_of(key),
    {
        match self {
            Screen::Game => match key {
                Key::Up => Command::Shift(Direction::Up),
                Key::Down => Command::Shift(Direction::Down),
                Key::Left => Command::Shift(Direction::Left),
                Key::Right => Command::Shift(Direction::Right),
                Key::Char('r') => Command::Restart,
                Key::Char('i') => Command::ShowHelp,
                Key::Char('q') | Key::Esc => Command::Quit,
                _ => Command::Nothing,
            },
            Screen::Help => match key {
                Key::Esc | Key::Char('q') => Command::Quit,
                Key::Char('i') => Command::ShowGame,
                _ => Command::Nothing,
            },
        }
    }
}

/// A game in progress.
pub struct Session {
    board: Board,
    status: GameStatus,
    screen: Screen,
}

/// A session as its parts: the grid with its score, where the game stands,
/// and the screen that is shown.
pub struct SessionView {
    pub board: State,
    pub status: GameStatus,
    pub screen: Screen,
}

impl View for Session {
    type V = SessionView;

    closed spec fn view(&self) -> SessionView {
        SessionView { board: self.board@, status: self.status, screen: self.screen }
    }
}

impl SessionView {
    /// Whether `after`, with the reaction `reaction`, is what the key `key`
    /// can make of this session.
    ///
    /// A move changes the board as a move of the board does, and the status
    /// follows the board. A restart leaves a board of the same size, empty
    /// but for one new tile, with no score, and the game goes on. The two
    /// screens are switched with a cleared terminal. Quitting and keys
    /// without meaning change nothing.
    pub open spec fn reacts(self, key: Key, after: SessionView, reaction: Reaction) -> bool {
        match self.screen.command_of(key) {
            Command::Shift(dir) => {
                &&& self.board.moves_into(dir, after.board)
                &&& after.status == after.board.status()
                &&& after.screen == self.screen
                &&& reaction == Reaction::Redraw
            },
            Command::Restart => {
                &&& State::blank(self.board.cols, self.board.rows).spawns_into(after.board)
                &&& after.status == GameStatus::Playing
                &&& after.screen == self.screen
                &&& reaction == Reaction::ClearAndRedraw
            },
            Command::ShowHelp => {
                &&& after == (SessionView { screen: Screen::Help, ..self })
                &&& reaction == Reaction::ClearAndRedraw
            },
            Command::ShowGame => {
                &&& after == (SessionView { screen: Screen::Game, ..self })
                &&& reaction == Reaction::ClearAndRedraw
            },
            Command::Quit => after == self && reaction == Reaction::Quit,
            Command::Nothing => after == self && reaction == Reaction::Ignore,
        }
    }
}

impl Session {
    /// A new game on a board of `width` columns and `height` rows, showing
    /// the board.
    pub fn new(width: usize, height: usize) -> (session: Session)
        requires
            size_fits(width as nat, height as nat),
        ensures
            State::blank(width as nat, height as nat).spawns_into(session@.board),
            session@.board.wf(),
            session@.status == GameStatus::Playing,
            session@.screen == Screen::Game,
    {
        Session { board: Board::new(width, height), status: GameStatus::Playing, screen: Screen::Game }
    }

    /// The board.
    pub fn board(&self) -> (board: &Board)
        ensures
            board@ == self@.board,
    {
        &self.board
    }

    /// Where the game stands.
    pub fn status(&self) -> (status: GameStatus)
        ensures
            status == self@.status,
    {
        self.status
    }

    /// The screen that is shown.
    pub fn screen(&self) -> (screen: Screen)
        ensures
            screen == self@.screen,
    {
        self.screen
    }

    /// Takes a key and tells the caller what to do next.
    pub fn on_key(&mut self, key: Key) -> (reaction: Reaction)
        ensures
            old(self)@.reacts(key, final(self)@, reaction),
    {
        match self.screen.command(key) {
            Command::Shift(dir) => {
                self.status = self.board.play(dir);
                Reaction::Redraw
            },
            Command::Restart => {
                self.board.reset();
                self.status = GameStatus::Playing;
                Reaction::ClearAndRedraw
            },
            Command::ShowHelp => {
                self.screen = Screen::Help;
                Reaction::ClearAndRedraw
            },
            Command::ShowGame => {
                self.screen = Screen::Game;
                Reaction::ClearAndRedraw
            },
            Command::Quit => Reaction::Quit,
            Command::Nothing => Reaction::Ignore,
        }
    }
}

impl Default for Session {
    /// A game on the board that shows one tile of each value, showing the
    /// board.
    fn default() -> (session: Session)
        ensures
            session@ == (SessionView {
                board: State { cols: 4, rows: 4, cells: showcase_cells(), score: 0 },
                status: GameStatus::Playing,
                screen: Screen::Game,
            }),
    {
        Session { board: Board::default(), status: GameStatus::Playing, screen: Screen::Game }
    }
}

} // verus!
