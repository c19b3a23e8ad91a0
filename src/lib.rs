//! Authoritative simulation core of a grow-by-eating arena game.
//!
//! Geometry is kept in fixed point: one world unit is [`vector::UNIT`]
//! fixed units, so that every rule of the game is integer arithmetic
//! that can be stated and proved exactly.
pub mod arith;
pub mod vector;
pub mod player;
pub mod game_manager;
