//! Table vocabulary shared by scoring, the AI fallbacks and the multiplayer
//! commands: seats, tile kinds, physical tiles, player actions and the
//! engine phases.

use vstd::prelude::*;

verus! {

/// A seat at the table, in turn order starting from East.
#[derive(Debug, Clone, Copy, PartialEq, Eq, Hash, Structural)]
pub enum Seat {
    East,
    South,
    West,
    North,
}

/// The seat at index `i` (East = 0, .., North = 3).
pub open spec fn seat_at(i: int) -> Seat {
    if i == 0 {
        Seat::East
    } else if i == 1 {
        Seat::South
    } else if i == 2 {
        Seat::West
    } else {
        Seat::North
    }
}

/// The index of a seat (East = 0, .., North = 3).
pub open spec fn seat_index(s: Seat) -> int {
    match s {
        Seat::East => 0,
        Seat::South => 1,
        Seat::West => 2,
        Seat::North => 3,
    }
}

impl Seat {
    /// Index of the seat, East = 0.
    pub fn index(self) -> (r: usize)
        ensures
            r == seat_index(self),
    {
        match self {
            Seat::East => 0,
            Seat::South => 1,
            Seat::West => 2,
            Seat::North => 3,
        }
    }

    /// The seat at index `i`.
    pub fn from_index(i: usize) -> (r: Seat)
        requires
            i < 4,
        ensures
            r == seat_at(i as int),
            seat_index(r) == i,
    {
        if i == 0 {
            Seat::East
        } else if i == 1 {
            Seat::South
        } else if i == 2 {
            Seat::West
        } else {
            Seat::North
        }
    }
}

/// A tile kind, 0..34: 0-8 characters, 9-17 circles, 18-26 bamboos,
/// 27-30 winds (East, South, West, North), 31-33 dragons.
#[derive(Debug, Clone, Copy, PartialEq, Eq, Hash, Structural)]
pub struct TileIndex(pub u8);

/// Dragons are the last three kinds.
pub open spec fn is_dragon_kind(k: u8) -> bool {
    31 <= k && k <= 33
}

/// Terminals (1 and 9 of each suit) and honours.
pub open spec fn is_yaochuu_kind(k: u8) -> bool {
    k == 0 || k == 8 || k == 9 || k == 17 || k == 18 || k == 26 || k >= 27
}

impl TileIndex {
    pub fn is_dragon(self) -> (r: bool)
        ensures
            r == is_dragon_kind(self.0),
    {
        31 <= self.0 && self.0 <= 33
    }

    pub fn is_yaochuu(self) -> (r: bool)
        ensures
            r == is_yaochuu_kind(self.0),
    {
        self.0 == 0 || self.0 == 8 || self.0 == 9 || self.0 == 17 || self.0 == 18 || self.0 == 26
            || self.0 >= 27
    }
}

/// One physical tile: its kind, whether it is a red five, and its id within
/// the wall.
#[derive(Debug, Clone, Copy, PartialEq, Eq, Hash, Structural)]
pub struct Tile {
    pub kind: TileIndex,
    pub red: bool,
    pub id: u8,
}

/// A player action.
#[derive(Debug, Clone, Copy, PartialEq, Eq, Structural)]
pub enum Action {
    Discard(Tile),
    Riichi(Tile),
    Tsumo,
    Ron(Seat),
    Pon,
    Chi,
    Minkan,
    Ankan(TileIndex),
    Shouminkan(TileIndex),
    Pass,
}

/// Phase of a round in the game engine.
#[derive(Debug, Clone, Copy, PartialEq, Eq, Structural)]
pub enum Phase {
    Deal,
    AwaitDiscard,
    AwaitCalls,
    RoundEnd,
    GameEnd,
}

} // verus!
