//! A rule engine for chess variants.
//!
//! A [`board::Board`] holds the pieces. A [`piece::Piece`] says how one kind
//! of piece moves, as one [`movement::MovementType`] tree for each leg of its
//! turn; [`movement::MovementType::flatten`] turns a tree into the offsets
//! by which a piece can move on a given board, and [`moves`] says what those
//! offsets are. A [`game::Game`] keeps the catalog of pieces, the board, the
//! players and whose turn it is. A [`play::Sharmat`] is a game in play: it
//! takes the legs of a turn one by one, checks each, and lets them reach
//! the board together.

pub mod action;
pub mod board;
mod fmt;
pub mod game;
pub mod movement;
pub mod moves;
pub mod piece;
pub mod play;
pub mod player;
