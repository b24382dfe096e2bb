//! The two sides of a game.

use vstd::prelude::*;

verus! {

/// The side a piece or a player belongs to.
#[derive(Clone, Copy, Debug, PartialEq, Eq, Hash, Structural)]
pub enum PlayerColor {
    White,
    Black,
}

/// One participant. The order of the players in a game fixes the order of the
/// turns.
#[derive(Clone, Copy, Debug, PartialEq, Eq, Structural)]
pub struct Player {
    pub color: PlayerColor,
}

impl PlayerColor {
    /// Whether this is white.
    pub fn white(&self) -> (r: bool)
        ensures
            r == (*self == PlayerColor::White),
    {
        *self == PlayerColor::White
    }

    /// Whether this is black.
    pub fn black(&self) -> (r: bool)
        ensures
            r == (*self == PlayerColor::Black),
    {
        *self == PlayerColor::Black
    }
}

impl Player {
    /// The player of this color.
    pub fn new(color: PlayerColor) -> (player: Player)
        ensures
            player.color == color,
    {
        Self { color }
    }
}

} // verus!
