//! A two-player card-placement board game engine on a 4x5 grid, with
//! unit-specific abilities, directional combat with chain captures, and an
//! alpha-beta search that picks moves for a non-human player.

pub mod ai;
pub mod board;
pub mod card;
pub mod utility;
