//! A chess rules engine: move legality checking, check and checkmate
//! detection, and resolution of the special moves (castling, en passant,
//! promotion).
//!
//! The engine is a pure in-process library. Reading input, rendering the
//! board and prompting for a promotion choice are left to the caller; the
//! core accepts already-resolved squares and promotion choices and returns
//! typed results.
#![verifier::loop_isolation(false)]

pub mod chess;
pub mod error;
pub mod moves;
pub mod piece;
pub mod player;
