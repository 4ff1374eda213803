use vstd::prelude::*;

verus! {

/// Every way a submitted move can be rejected. A rejected move leaves the
/// game untouched; only a validated move is ever executed.
#[derive(Debug, Clone, Copy, PartialEq, Eq, Structural)]
pub enum ChessError {
    /// The text given for a move could not be read as two squares.
    UnableToParseInput,
    /// The moved piece does not belong to the player making the move.
    PieceBelongsToOpponent,
    /// The displacement is not among the piece's candidate moves, or a
    /// special move's own rule (en passant, pawn push) is not met.
    NotAllowedMove,
    /// The mover is in check and the move is not among the legal replies.
    NotAllowedMoveInCheck,
    /// The origin square holds no piece.
    EmptyTile,
    /// The destination holds a piece of the mover's own side, or a pawn
    /// capture aims at an empty square.
    InvalidDestination,
    /// A square strictly between origin and destination is occupied.
    PathIsBlocked,
    /// The move would leave the mover's own king attacked.
    KingCompromised,
    /// The king or the matching rook has already moved.
    CastlingMoveUnavailable,
    /// A square the castling king or rook crosses is occupied or attacked,
    /// or the king is castling out of check.
    CastlingPathIsCompromised,
}

} // verus!
