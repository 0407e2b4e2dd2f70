//! A single cell of the grid: its value, its colour and its label.

use vstd::prelude::*;
use vstd::std_specs::convert::FromSpecImpl;
use vstd::string::StringExecFns;

verus! {

/// One cell of the grid. The value zero stands for an empty cell.
#[derive(Debug, Clone, Copy, PartialEq, Eq, Structural)]
pub struct Tile(u16);

impl View for Tile {
    type V = nat;

    /// The number the tile shows, zero for an empty cell.
    closed spec fn view(&self) -> nat {
        self.0 as nat
    }
}

/// The numbers that a row of tiles shows, cell by cell.
pub open spec fn values(tiles: Seq<Tile>) -> Seq<nat> {
    Seq::new(tiles.len(), |i: int| tiles[i]@)
}

/// The tile that shows `value`.
pub closed spec fn tile_of(value: u16) -> Tile {
    Tile(value)
}

/// The colour in which a tile of each value is drawn, as red, green and
/// blue in one number. Values above the winning one share the colour of the
/// empty cell.
pub open spec fn color_of(value: nat) -> u32 {
    if value == 2 {
        0xeee4da
    } else if value == 4 {
        0xede0c8
    } else if value == 8 {
        0xf2b179
    } else if value == 16 {
        0xf59563
    } else if value == 32 {
        0xf67c5f
    } else if value == 64 {
        0xf65e3b
    } else if value == 128 {
        0xedcf72
    } else if value == 256 {
        0xedcc61
    } else if value == 512 {
        0xedc850
    } else if value == 1024 {
        0xedc53f
    } else if value == 2048 {
        0xedc22e
    } else {
        0x969696
    }
}

/// The character for one decimal digit.
pub open spec fn digit_char(digit: nat) -> char {
    if digit == 0 {
        '0'
    } else if digit == 1 {
        '1'
    } else if digit == 2 {
        '2'
    } else if digit == 3 {
        '3'
    } else if digit == 4 {
        '4'
    } else if digit == 5 {
        '5'
    } else if digit == 6 {
        '6'
    } else if digit == 7 {
        '7'
    } else if digit == 8 {
        '8'
    } else {
        '9'
    }
}

/// The decimal digits of `value`, without leading zeros.
pub open spec fn decimal(value: nat) -> Seq<char>
    decreases value,
{
    if value < 10 {
        seq![digit_char(value)]
    } else {
        decimal(value / 10).push(digit_char(value % 10))
    }
}

/// A run of `count` blanks.
pub open spec fn blanks(count: nat) -> Seq<char> {
    Seq::new(count, |i: int| ' ')
}

/// The width in characters of a tile's label.
pub const LABEL_WIDTH: usize = 5;

/// The label of a tile: blanks for an empty cell, else the number in the
/// middle of the label's width, with the odd blank, if any, in front.
pub open spec fn label_of(value: nat) -> Seq<char> {
    if value == 0 {
        blanks(LABEL_WIDTH as nat)
    } else {
        let gap = (LABEL_WIDTH - decimal(value).len()) as nat;
        blanks((gap - gap / 2) as nat) + decimal(value) + blanks(gap / 2)
    }
}

impl Tile {
    /// A tile showing `value`; zero gives the empty tile.
    pub fn new(value: u16) -> (tile: Tile)
        ensures
            tile@ == value,
            tile == tile_of(value),
    {
        Tile(value)
    }

    /// The number the tile shows.
    pub fn value(&self) -> (value: u16)
        ensures
            value == self@,
    {
        self.0
    }

    /// Whether the cell is empty.
    pub fn is_empty(&self) -> (empty: bool)
        ensures
            empty == (self@ == 0),
    {
        self.0 == 0
    }

    /// Combines two tiles of the same value into one that shows their sum.
    /// Two empty tiles combine into an empty tile.
    pub fn merge_with(self, other: Tile) -> (merged: Tile)
        requires
            self@ == other@,
            self@ + other@ <= u16::MAX,
        ensures
            merged@ == self@ + other@,
    {
        Tile(self.0 + other.0)
    }

    /// The colour in which the tile is drawn.
    pub fn color(&self) -> (color: u32)
        ensures
            color == color_of(self@),
    {
        match self.0 {
            2 => 0xeee4da,
            4 => 0xede0c8,
            8 => 0xf2b179,
            16 => 0xf59563,
            32 => 0xf67c5f,
            64 => 0xf65e3b,
            128 => 0xedcf72,
            256 => 0xedcc61,
            512 => 0xedc850,
            1024 => 0xedc53f,
            2048 => 0xedc22e,
            _ => 0x969696,
        }
    }

    /// The tile's label: its number in the middle of five characters, or
    /// five blanks for an empty cell.
    pub fn value_str(&self) -> (text: String)
        ensures
            text@ == label_of(self@),
    {
        let mut text = String::new();
        if self.0 == 0 {
            pad(&mut text, LABEL_WIDTH);
            assert(text@ =~= label_of(0));
            return text;
        }
        let digits = decimal_text(self.0);
        proof {
            lemma_decimal_len(self@);
        }
        let gap = LABEL_WIDTH - digits.as_str().unicode_len();
        let right = gap / 2;
        pad(&mut text, gap - right);
        text.append(digits.as_str());
        pad(&mut text, right);
        assert(text@ =~= label_of(self@));
        text
    }
}

impl From<u16> for Tile {
    /// The tile that shows `value`.
    fn from(value: u16) -> (tile: Tile) {
        Tile(value)
    }
}

impl FromSpecImpl<u16> for Tile {
    open spec fn obeys_from_spec() -> bool {
        true
    }

    open spec fn from_spec(value: u16) -> Tile {
        tile_of(value)
    }
}

impl From<Tile> for u16 {
    /// The number that `tile` shows.
    fn from(tile: Tile) -> (value: u16) {
        tile.0
    }
}

impl FromSpecImpl<Tile> for u16 {
    open spec fn obeys_from_spec() -> bool {
        true
    }

    open spec fn from_spec(tile: Tile) -> u16 {
        tile@ as u16
    }
}

/// Two tiles are equal exactly when they show the same number.
pub proof fn lemma_tile_equality(a: Tile, b: Tile)
    ensures
        (a == b) == (a@ == b@),
{
}

/// Making a tile of a number and reading the number back loses nothing,
/// either way round: every number that fits a cell is the value of its
/// tile, and every tile is the tile of its value.
pub proof fn lemma_tile_round_trip(value: u16, tile: Tile)
    ensures
        tile_of(value)@ == value,
        tile@ <= u16::MAX,
        tile_of(tile@ as u16) == tile,
{
}

/// A number that a tile can show has at most as many digits as a label is
/// wide.
pub proof fn lemma_decimal_len(value: nat)
    requires
        value <= u16::MAX,
    ensures
        1 <= decimal(value).len() <= LABEL_WIDTH,
{
    reveal_with_fuel(decimal, 6);
}

/// The text of one decimal digit.
fn digit_text(digit: u16) -> (text: &'static str)
    requires
        digit < 10,
    ensures
        text@ == seq![digit_char(digit as nat)],
{
    proof {
        reveal_strlit("0");
        reveal_strlit("1");
        reveal_strlit("2");
        reveal_strlit("3");
        reveal_strlit("4");
        reveal_strlit("5");
        reveal_strlit("6");
        reveal_strlit("7");
        reveal_strlit("8");
        reveal_strlit("9");
    }
    let text = match digit {
        0 => "0",
        1 => "1",
        2 => "2",
        3 => "3",
        4 => "4",
        5 => "5",
        6 => "6",
        7 => "7",
        8 => "8",
        _ => "9",
    };
    assert(text@ =~= seq![digit_char(digit as nat)]);
    text
}

/// The decimal digits of `value` as text.
fn decimal_text(value: u16) -> (text: String)
    ensures
        text@ == decimal(value as nat),
    decreases value,
{
    if value < 10 {
        String::from_str(digit_text(value))
    } else {
        let mut text = decimal_text(value / 10);
        text.append(digit_text(value % 10));
        assert(text@ =~= decimal(value as nat));
        text
    }
}

/// Appends `count` blanks to `text`.
fn pad(text: &mut String, count: usize)
    ensures
        final(text)@ == old(text)@ + blanks(count as nat),
{
    let mut done: usize = 0;
    assert(text@ =~= old(text)@ + blanks(0));
    while done < count
        invariant
            done <= count,
            text@ == old(text)@ + blanks(done as nat),
        decreases count - done,
    {
        proof {
            reveal_strlit(" ");
        }
        text.append(" ");
        done = done + 1;
        assert(text@ =~= old(text)@ + blanks(done as nat));
    }
}

} // verus!
