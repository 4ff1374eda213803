use vstd::prelude::*;

use crate::piece::Piece;

verus! {

/// One of the two sides of a game.
#[derive(Debug, Clone, Copy, PartialEq, Eq, Hash, Structural)]
pub enum Player {
    White,
    Black,
}

impl Player {
    /// The side this one plays against.
    pub open spec fn spec_opponent(&self) -> Player {
        match self {
            Player::White => Player::Black,
            Player::Black => Player::White,
        }
    }

    /// Returns the opposing side.
    #[verifier::when_used_as_spec(spec_opponent)]
    pub fn opponent(&self) -> (r: Player)
        ensures
            r == self.spec_opponent(),
    {
        match self {
            Player::White => Player::Black,
            Player::Black => Player::White,
        }
    }

    /// Returns the side a piece belongs to.
    pub fn find_player(piece: &Piece) -> (r: Player)
        ensures
            r == piece.owner(),
    {
        match piece {
            Piece::Pawn(p) => *p,
            Piece::Bishob(p) => *p,
            Piece::Knight(p) => *p,
            Piece::Rook(p) => *p,
            Piece::Queen(p) => *p,
            Piece::King(p) => *p,
        }
    }
}

} // verus!
