//! Where a game stands.

use vstd::prelude::*;
use vstd::string::StringExecFns;

verus! {

/// Where a game stands after a move.
#[derive(Debug, Clone, Copy, PartialEq, Eq, Structural)]
pub enum GameStatus {
    /// A move can still change the grid, and the winning tile is not there.
    Playing,
    /// The grid is full and no move can change it.
    GameOver,
    /// A tile has reached the winning value.
    Victory,
}

impl GameStatus {
    /// The words that announce the status; none while the game goes on.
    pub open spec fn words(self) -> Seq<char> {
        match self {
            GameStatus::Playing => ""@,
            GameStatus::GameOver => "Game Over!"@,
            GameStatus::Victory => "Victory!"@,
        }
    }

    /// The status as a line of text for the player.
    pub fn message(&self) -> (text: String)
        ensures
            text@ == self.words(),
    {
        match self {
            GameStatus::Playing => String::from_str(""),
            GameStatus::GameOver => String::from_str("Game Over!"),
            GameStatus::Victory => String::from_str("Victory!"),
        }
    }
}

} // verus!
