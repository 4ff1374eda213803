use vstd::prelude::*;

use crate::chess::{
    at, attack_moves, board_set, board_view, can_move_spec, check_moves_spec, coord_gap,
    evade_spec, path_between, path_clear, state_matches, Chess, ChessState,
};
use crate::error::ChessError;
use crate::piece::{candidates, within_board, Piece};
use crate::player::Player;

verus! {

/// The derived kind of a move; which one applies follows from the piece,
/// the displacement and the destination square alone.
#[derive(Debug, PartialEq, Eq, Structural)]
pub enum MoveType {
    Castle,
    EnPassant,
    Promotion,
    PawnEat,
    PawnTwo,
    PawnOne,
    Other,
}

/// The rank direction a side's pawns advance in.
pub open spec fn pawn_dir(p: Player) -> int {
    match p {
        Player::White => 1,
        Player::Black => -1,
    }
}

/// The derived kind of a move on a given board: a king jumping two files
/// castles; a pawn reaching its far rank promotes; a pawn stepping
/// diagonally captures, en passant when the destination is empty; a pawn
/// jumping two ranks double-pushes; any other pawn move is a single push;
/// every other move is plain.
pub open spec fn move_type_of(bs: Seq<Seq<Option<Piece>>>, m: Move) -> MoveType {
    let dr = m.to.0 as int - m.from.0 as int;
    let dc = m.to.1 as int - m.from.1 as int;
    match m.piece {
        Piece::King(_) => if dr == 0 && (dc == 2 || dc == -2) {
            MoveType::Castle
        } else {
            MoveType::Other
        },
        Piece::Pawn(p) => if p == Player::White && m.to.0 == 7 {
            MoveType::Promotion
        } else if p == Player::Black && m.to.0 == 0 {
            MoveType::Promotion
        } else if dr == pawn_dir(p) && (dc == 1 || dc == -1) {
            if at(bs, m.to) is None {
                MoveType::EnPassant
            } else {
                MoveType::PawnEat
            }
        } else if dr == 2 * pawn_dir(p) && dc == 0 {
            MoveType::PawnTwo
        } else {
            MoveType::PawnOne
        },
        _ => MoveType::Other,
    }
}

impl MoveType {
    /// Returns the derived kind of a move on the current board.
    pub fn determine_type(chess: &Chess, m: &Move) -> (r: Self)
        requires
            m.spec_is_within_board(),
        ensures
            r == move_type_of(board_view(chess.board), *m),
    {
        move_type_on(&chess.board, m)
    }
}

/// Returns the derived kind of a move on a given board.
pub(crate) fn move_type_on(board: &[[Option<Piece>; 8]; 8], m: &Move) -> (r: MoveType)
    requires
        m.spec_is_within_board(),
    ensures
        r == move_type_of(board_view(*board), *m),
{
    let dr: i16 = m.to.0 as i16 - m.from.0 as i16;
    let dc: i16 = m.to.1 as i16 - m.from.1 as i16;
    match m.piece {
        Piece::King(_) => {
            if dr == 0 && (dc == 2 || dc == -2) {
                MoveType::Castle
            } else {
                MoveType::Other
            }
        },
        Piece::Pawn(p) => {
            let dir: i16 = match p {
                Player::White => 1,
                Player::Black => -1,
            };
            if p == Player::White && m.to.0 == 7 {
                MoveType::Promotion
            } else if p == Player::Black && m.to.0 == 0 {
                MoveType::Promotion
            } else if dr == dir && (dc == 1 || dc == -1) {
                if board[m.to.0][m.to.1].is_none() {
                    MoveType::EnPassant
                } else {
                    MoveType::PawnEat
                }
            } else if dr == 2 * dir && dc == 0 {
                MoveType::PawnTwo
            } else {
                MoveType::PawnOne
            }
        },
        _ => MoveType::Other,
    }
}

/// A candidate move: the piece moved, its origin and its destination, each
/// square given as (rank, file).
#[derive(Debug, Clone, Copy)]
pub struct Move {
    pub piece: Piece,
    pub from: (usize, usize),
    pub to: (usize, usize),
}

impl PartialEq for Move {
    fn eq(&self, other: &Move) -> (r: bool) {
        self.piece == other.piece && self.from.0 == other.from.0 && self.from.1 == other.from.1
            && self.to.0 == other.to.0 && self.to.1 == other.to.1
    }
}

impl vstd::std_specs::cmp::PartialEqSpecImpl for Move {
    open spec fn obeys_eq_spec() -> bool {
        true
    }

    open spec fn eq_spec(&self, other: &Move) -> bool {
        self == other
    }
}

/// A destination is valid when it is empty or holds an opposing piece.
pub open spec fn valid_destination(bs: Seq<Seq<Option<Piece>>>, m: Move, player: Player) -> bool {
    match at(bs, m.to) {
        Some(piece) => piece.owner() == player.spec_opponent(),
        None => true,
    }
}

/// Whether a square holds an opposing pawn that the last executed move
/// double-pushed onto it; the en-passant capture is legal only then.
pub open spec fn double_push_landed(
    bs: Seq<Seq<Option<Piece>>>,
    mvs: Seq<Move>,
    opp_pawn: Piece,
    x: int,
    y: int,
) -> bool {
    mvs.len() > 0 && {
        let last = mvs.last();
        0 <= x < 8 && bs[x][y] == Some(opp_pawn) && last.to.0 == x && last.to.1 == y && last.piece
            == opp_pawn && coord_gap(last.from.0 as int, last.to.0 as int) == 2
    }
}

/// The en-passant rule: the adjacent-file square on the same rank as the
/// origin must hold an opposing pawn whose double push was the last executed
/// move.
pub open spec fn en_passant_spec(
    bs: Seq<Seq<Option<Piece>>>,
    mvs: Seq<Move>,
    turn: Player,
    m: Move,
) -> Option<ChessError> {
    let opp_pawn = Piece::Pawn(turn.spec_opponent());
    if double_push_landed(bs, mvs, opp_pawn, m.from.0 as int, m.to.1 as int) {
        None
    } else {
        Some(ChessError::NotAllowedMove)
    }
}

/// En passant is legal only immediately after the adjacent opposing pawn's
/// double push: whenever the rule passes, the last executed move is that
/// double push, it landed beside the capture's origin on the destination's
/// file, and the pawn still stands there. On any other history the rule
/// answers NotAllowedMove.
pub proof fn lemma_en_passant_only_immediate(
    bs: Seq<Seq<Option<Piece>>>,
    mvs: Seq<Move>,
    turn: Player,
    m: Move,
)
    requires
        en_passant_spec(bs, mvs, turn, m) is None,
    ensures
        mvs.len() > 0,
        mvs.last().piece == Piece::Pawn(turn.spec_opponent()),
        mvs.last().to.0 == m.from.0,
        mvs.last().to.1 == m.to.1,
        coord_gap(mvs.last().from.0 as int, mvs.last().to.0 as int) == 2,
        bs[m.from.0 as int][m.to.1 as int] == Some(Piece::Pawn(turn.spec_opponent())),
{
}

/// The pawn-capture rule: the destination must hold a piece.
pub open spec fn pawn_eat_spec(bs: Seq<Seq<Option<Piece>>>, m: Move) -> Option<ChessError> {
    if at(bs, m.to) is None {
        Some(ChessError::InvalidDestination)
    } else {
        None
    }
}

/// The double-push rule: only from the mover's starting pawn rank.
pub open spec fn pawn_two_spec(m: Move) -> Option<ChessError> {
    let player = m.piece.owner();
    if (player == Player::White && m.from.0 != 1) || (player == Player::Black && m.from.0 != 6) {
        Some(ChessError::NotAllowedMove)
    } else {
        None
    }
}

/// The single-push rule: the destination must be empty.
pub open spec fn pawn_one_spec(bs: Seq<Seq<Option<Piece>>>, m: Move) -> Option<ChessError> {
    if at(bs, m.to) is Some {
        Some(ChessError::NotAllowedMove)
    } else {
        None
    }
}

/// The king's and the matching rook's home squares for a castle aimed at the
/// given destination.
pub open spec fn castle_squares(turn: Player, to: (usize, usize)) -> (
    (usize, usize),
    (usize, usize),
) {
    match turn {
        Player::White => if to == (0usize, 2usize) {
            ((0usize, 4usize), (0usize, 0usize))
        } else {
            ((0usize, 4usize), (0usize, 7usize))
        },
        Player::Black => if to == (7usize, 2usize) {
            ((7usize, 4usize), (7usize, 0usize))
        } else {
            ((7usize, 4usize), (7usize, 7usize))
        },
    }
}

/// Whether a pawn of `player` guards a square: it stands a diagonal step
/// away, on the rank it would attack the square from. A pawn attacks along
/// its diagonal offsets whether or not the square is occupied.
pub open spec fn pawn_guards(bs: Seq<Seq<Option<Piece>>>, player: Player, t: (usize, usize)) -> bool {
    let r = t.0 as int - pawn_dir(player);
    0 <= r < 8 && ((t.1 as int - 1 >= 0 && bs[r][t.1 - 1] == Some(Piece::Pawn(player))) || (t.1
        as int + 1 < 8 && bs[r][t.1 + 1] == Some(Piece::Pawn(player))))
}

/// Whether a pawn of `player` guards any of the given squares.
pub open spec fn any_pawn_guard(
    bs: Seq<Seq<Option<Piece>>>,
    player: Player,
    tiles: Seq<(usize, usize)>,
) -> bool {
    exists|i: int| 0 <= i < tiles.len() && pawn_guards(bs, player, #[trigger] tiles[i])
}

/// The castling rule: the king moves from its home square, neither the king
/// nor the matching rook has a history entry, every square strictly between
/// them is empty, and neither the king's square nor any square between king
/// and rook is attacked by the opponent — a pawn's diagonal onto such a
/// square counts even while the square is empty.
pub open spec fn castle_spec(
    bs: Seq<Seq<Option<Piece>>>,
    mvs: Seq<Move>,
    turn: Player,
    m: Move,
) -> Option<ChessError> {
    let (king_from, rook_from) = castle_squares(turn, m.to);
    if m.from != king_from {
        Some(ChessError::NotAllowedMove)
    } else if exists|i: int|
        0 <= i < mvs.len() && ((#[trigger] mvs[i]).from == king_from || mvs[i].from == rook_from) {
        Some(ChessError::CastlingMoveUnavailable)
    } else if !(path_clear(bs, king_from, rook_from) && can_move_spec(
        bs,
        mvs,
        turn,
        turn.spec_opponent(),
        seq![king_from] + path_between(king_from, rook_from),
        false,
        true,
    ).len() == 0 && !any_pawn_guard(
        bs,
        turn.spec_opponent(),
        seq![king_from] + path_between(king_from, rook_from),
    )) {
        Some(ChessError::CastlingPathIsCompromised)
    } else {
        None
    }
}

/// The rook's origin and destination for a castle landing the king on the
/// given square.
pub open spec fn castle_rook_squares(to: (usize, usize)) -> ((usize, usize), (usize, usize)) {
    if to == (0usize, 2usize) {
        ((0usize, 0usize), (0usize, 3usize))
    } else if to == (0usize, 6usize) {
        ((0usize, 7usize), (0usize, 5usize))
    } else if to == (7usize, 2usize) {
        ((7usize, 0usize), (7usize, 3usize))
    } else {
        ((7usize, 7usize), (7usize, 5usize))
    }
}

/// The square of the pawn an en-passant capture removes: the destination's
/// file, on the same rank as the capturing pawn's origin.
pub open spec fn captured_pawn_square(m: Move) -> (usize, usize) {
    (m.from.0, m.to.1)
}

/// The board a validated move leaves behind: for a castle the matching rook
/// is relocated beside the king's new square; for an en passant the captured
/// pawn's square is cleared; then the origin is cleared and the destination
/// receives the moved piece — for a promotion the replacement piece.
pub open spec fn apply_move_spec(
    bs: Seq<Seq<Option<Piece>>>,
    m: Move,
    mt: MoveType,
    promotion: Option<Piece>,
    turn: Player,
) -> Seq<Seq<Option<Piece>>> {
    let base = match mt {
        MoveType::Castle => {
            let (rook_from, rook_to) = castle_rook_squares(m.to);
            board_set(board_set(bs, rook_from, None), rook_to, Some(Piece::Rook(turn)))
        },
        MoveType::EnPassant => board_set(bs, captured_pawn_square(m), None),
        _ => bs,
    };
    let placed = if mt == MoveType::Promotion {
        match promotion {
            Some(p) => p,
            None => Piece::Queen(turn),
        }
    } else {
        m.piece
    };
    board_set(board_set(base, m.from, None), m.to, Some(placed))
}

/// A castling right once revoked never returns: once the king or the
/// matching rook has a history entry, the same castle keeps failing
/// CastlingMoveUnavailable on every later board and after any further
/// moves, since history is append-only.
pub proof fn lemma_castling_revocation_permanent(
    bs: Seq<Seq<Option<Piece>>>,
    later: Seq<Seq<Option<Piece>>>,
    mvs: Seq<Move>,
    ext: Seq<Move>,
    turn: Player,
    m: Move,
)
    requires
        m.from == castle_squares(turn, m.to).0,
        castle_spec(bs, mvs, turn, m) == Some(ChessError::CastlingMoveUnavailable),
    ensures
        castle_spec(later, mvs + ext, turn, m) == Some(ChessError::CastlingMoveUnavailable),
{
    let (king_from, rook_from) = castle_squares(turn, m.to);
    let i = choose|i: int|
        0 <= i < mvs.len() && ((#[trigger] mvs[i]).from == king_from || mvs[i].from == rook_from);
    assert((mvs + ext)[i] == mvs[i]);
}

/// The kind-specific rule of a move, dispatched on its derived kind; plain
/// moves and promotions have none.
pub open spec fn specific_spec(
    bs: Seq<Seq<Option<Piece>>>,
    mvs: Seq<Move>,
    turn: Player,
    m: Move,
) -> Result<MoveType, ChessError> {
    let mt = move_type_of(bs, m);
    let sub = match mt {
        MoveType::Castle => castle_spec(bs, mvs, turn, m),
        MoveType::EnPassant => en_passant_spec(bs, mvs, turn, m),
        MoveType::PawnEat => pawn_eat_spec(bs, m),
        MoveType::PawnTwo => pawn_two_spec(m),
        MoveType::PawnOne => pawn_one_spec(bs, m),
        _ => None,
    };
    match sub {
        Some(e) => Err(e),
        None => Ok(mt),
    }
}

/// The kind-specific rule as the attack scan applies it. The scan never
/// generates king moves, so no scanned move can be a castle and that arm is
/// passed through.
pub open spec fn specific_attack_spec(
    bs: Seq<Seq<Option<Piece>>>,
    mvs: Seq<Move>,
    turn: Player,
    m: Move,
) -> Result<MoveType, ChessError> {
    let mt = move_type_of(bs, m);
    let sub = match mt {
        MoveType::EnPassant => en_passant_spec(bs, mvs, turn, m),
        MoveType::PawnEat => pawn_eat_spec(bs, m),
        MoveType::PawnTwo => pawn_two_spec(m),
        MoveType::PawnOne => pawn_one_spec(bs, m),
        _ => None,
    };
    match sub {
        Some(e) => Err(e),
        None => Ok(mt),
    }
}

/// The shared checks every move passes first, in order: the piece belongs
/// to the mover; the destination is empty or opposing; the displacement is
/// among the piece's candidates; when the mover's own move is validated
/// while in check, it is one of the legal replies; and, but for the mover's
/// knights, the path between origin and destination is clear.
pub open spec fn regular_spec(
    bs: Seq<Seq<Option<Piece>>>,
    mvs: Seq<Move>,
    turn: Player,
    state: ChessState,
    m: Move,
    player: Player,
    what_if: bool,
) -> Option<ChessError> {
    if m.piece.owner() != player {
        Some(ChessError::PieceBelongsToOpponent)
    } else if !valid_destination(bs, m, player) {
        Some(ChessError::InvalidDestination)
    } else if !candidates(m.piece, m.from).contains(m) {
        Some(ChessError::NotAllowedMove)
    } else if !what_if && (match state {
        ChessState::Check { checked_player, moves_left } => !moves_left@.contains(m),
        _ => false,
    }) {
        Some(ChessError::NotAllowedMoveInCheck)
    } else if m.piece != Piece::Knight(turn) && !path_clear(bs, m.from, m.to) {
        Some(ChessError::PathIsBlocked)
    } else {
        None
    }
}

/// The full validation of a hypothetical move of `player`, used by the
/// check detector and the evasion enumerator: the shared checks without the
/// in-check restriction, then the kind-specific rule.
pub open spec fn what_if_valid(
    bs: Seq<Seq<Option<Piece>>>,
    mvs: Seq<Move>,
    turn: Player,
    m: Move,
    player: Player,
) -> Result<MoveType, ChessError> {
    match regular_spec(bs, mvs, turn, ChessState::Normal, m, player, true) {
        Some(e) => Err(e),
        None => specific_spec(bs, mvs, turn, m),
    }
}

/// The full validation of the mover's own move: the shared checks with the
/// in-check restriction, then the kind-specific rule.
pub open spec fn valid_move_spec(
    bs: Seq<Seq<Option<Piece>>>,
    mvs: Seq<Move>,
    turn: Player,
    state: ChessState,
    m: Move,
) -> Result<MoveType, ChessError> {
    match regular_spec(bs, mvs, turn, state, m, turn, false) {
        Some(e) => Err(e),
        None => specific_spec(bs, mvs, turn, m),
    }
}

/// The validation the attack scan applies to a scanned candidate: the
/// shared checks without the in-check restriction, then the kind-specific
/// rule without the castle arm.
pub open spec fn valid_attack_spec(
    bs: Seq<Seq<Option<Piece>>>,
    mvs: Seq<Move>,
    turn: Player,
    m: Move,
    player: Player,
) -> Result<MoveType, ChessError> {
    match regular_spec(bs, mvs, turn, ChessState::Normal, m, player, true) {
        Some(e) => Err(e),
        None => specific_attack_spec(bs, mvs, turn, m),
    }
}

/// What processing a move must do and return: a failed validation or the
/// self-check guard rejects the move and leaves the game untouched; a test
/// validation that passes leaves the game untouched and reports Normal;
/// otherwise the move is executed — board updated, history appended — and
/// the new position's derived state is returned.
pub open spec fn process_outcome(
    before: Chess,
    after: Chess,
    m: Move,
    test: Option<Player>,
    promotion: Option<Piece>,
    r: Result<ChessState, ChessError>,
) -> bool {
    let bs = board_view(before.board);
    let mvs = before.moves@;
    let t = before.turn;
    let v = match test {
        Some(p) => what_if_valid(bs, mvs, t, m, p),
        None => valid_move_spec(bs, mvs, t, before.state, m),
    };
    match v {
        Err(e) => r == Err::<ChessState, ChessError>(e) && after == before,
        Ok(mt) => {
            if check_moves_spec(bs, mvs, t, t.spec_opponent(), Some(m)).len() > 0 {
                r == Err::<ChessState, ChessError>(ChessError::KingCompromised) && after == before
            } else if test is Some {
                r == Ok::<ChessState, ChessError>(ChessState::Normal) && after == before
            } else {
                &&& board_view(after.board) == apply_move_spec(bs, m, mt, promotion, t)
                &&& after.moves@ == mvs.push(m)
                &&& after.turn == t
                &&& after.state == before.state
                &&& (match r {
                    Ok(st) => state_matches(board_view(after.board), after.moves@, t, st),
                    Err(_) => false,
                })
            }
        },
    }
}

impl Move {
    /// Holds when both the origin and the destination lie on the board.
    pub open spec fn spec_is_within_board(&self) -> bool {
        within_board(self.from) && within_board(self.to)
    }

    /// Returns whether both the origin and the destination lie on the board.
    #[verifier::when_used_as_spec(spec_is_within_board)]
    pub fn is_within_board(&self) -> (r: bool)
        ensures
            r == self.spec_is_within_board(),
    {
        self.from.0 < 8 && self.from.1 < 8 && self.to.0 < 8 && self.to.1 < 8
    }

    /// Returns whether this move's destination is empty or holds an opposing
    /// piece.
    pub fn is_valid_destination(&self, chess: &Chess, player_to_move: Player) -> (r: bool)
        requires
            within_board(self.to),
        ensures
            r == valid_destination(board_view(chess.board), *self, player_to_move),
    {
        destination_on(&chess.board, self, player_to_move)
    }

    /// Validates this move for a mover, without the self-check guard: the
    /// shared checks, then the kind-specific rule. With a test player the
    /// move is hypothetical and the in-check restriction is skipped.
    pub fn is_valid_move(&self, chess: &Chess, test: Option<&Player>) -> (r: Result<
        MoveType,
        ChessError,
    >)
        requires
            self.spec_is_within_board(),
        ensures
            (match test {
                Some(p) => r == what_if_valid(
                    board_view(chess.board),
                    chess.moves@,
                    chess.turn,
                    *self,
                    *p,
                ),
                None => r == valid_move_spec(
                    board_view(chess.board),
                    chess.moves@,
                    chess.turn,
                    chess.state,
                    *self,
                ),
            }),
    {
        if let Err(e) = self.regular_tests(chess, test) {
            return Err(e);
        }
        self.specific_tests(chess)
    }

    /// Runs the shared checks of this move for a mover.
    fn regular_tests(&self, chess: &Chess, test: Option<&Player>) -> (r: Result<(), ChessError>)
        requires
            self.spec_is_within_board(),
        ensures
            r == (match regular_spec(
                board_view(chess.board),
                chess.moves@,
                chess.turn,
                chess.state,
                *self,
                (match test {
                    Some(p) => *p,
                    None => chess.turn,
                }),
                test is Some,
            ) {
                Some(e) => Err::<(), ChessError>(e),
                None => Ok::<(), ChessError>(()),
            }),
    {
        let mut player_to_move = chess.turn;
        if let Some(p) = test {
            player_to_move = *p;
        }

        if Player::find_player(&self.piece) != player_to_move {
            return Err(ChessError::PieceBelongsToOpponent);
        }

        if !self.is_valid_destination(chess, player_to_move) {
            return Err(ChessError::InvalidDestination);
        }

        let cands = self.piece.possible_moves(&self.from);
        if !moves_contain(&cands, self) {
            return Err(ChessError::NotAllowedMove);
        }

        if test.is_none() {
            if let ChessState::Check { checked_player: _, moves_left } = &chess.state {
                if !moves_contain(moves_left, self) {
                    return Err(ChessError::NotAllowedMoveInCheck);
                }
            }
        }

        if self.piece != Piece::Knight(chess.turn) {
            if !chess.path_is_clear(&self.from, &self.to) {
                return Err(ChessError::PathIsBlocked);
            }
        }

        Ok(())
    }

    /// Runs the kind-specific rule of this move.
    fn specific_tests(&self, chess: &Chess) -> (r: Result<MoveType, ChessError>)
        requires
            self.spec_is_within_board(),
        ensures
            r == specific_spec(board_view(chess.board), chess.moves@, chess.turn, *self),
    {
        let move_type = move_type_on(&chess.board, self);

        let result = match move_type {
            MoveType::Castle => self.castling_tests(chess),
            MoveType::EnPassant => en_passant_on(&chess.board, &chess.moves, chess.turn, self),
            MoveType::PawnEat => pawn_eat_on(&chess.board, self),
            MoveType::PawnTwo => self.pawn_two_tests(),
            MoveType::PawnOne => pawn_one_on(&chess.board, self),
            _ => Ok(()),
        };

        if let Err(e) = result {
            return Err(e);
        }

        Ok(move_type)
    }

    /// Validates this move as the attack scan does: the shared checks
    /// without the in-check restriction, then the kind-specific rule without
    /// the castle arm (the scan never generates king moves).
    pub(crate) fn attack_validate(
        &self,
        board: &[[Option<Piece>; 8]; 8],
        mvs: &Vec<Move>,
        turn: Player,
        player: Player,
    ) -> (r: Result<MoveType, ChessError>)
        requires
            self.spec_is_within_board(),
        ensures
            r == valid_attack_spec(board_view(*board), mvs@, turn, *self, player),
    {
        if Player::find_player(&self.piece) != player {
            return Err(ChessError::PieceBelongsToOpponent);
        }

        if !destination_on(board, self, player) {
            return Err(ChessError::InvalidDestination);
        }

        let cands = self.piece.possible_moves(&self.from);
        if !moves_contain(&cands, self) {
            return Err(ChessError::NotAllowedMove);
        }

        if self.piece != Piece::Knight(turn) {
            if !crate::chess::board_path_is_clear(board, &self.from, &self.to) {
                return Err(ChessError::PathIsBlocked);
            }
        }

        let move_type = move_type_on(board, self);

        let result = match move_type {
            MoveType::EnPassant => en_passant_on(board, mvs, turn, self),
            MoveType::PawnEat => pawn_eat_on(board, self),
            MoveType::PawnTwo => self.pawn_two_tests(),
            MoveType::PawnOne => pawn_one_on(board, self),
            _ => Ok(()),
        };

        if let Err(e) = result {
            return Err(e);
        }

        Ok(move_type)
    }

    /// Runs the castling rule of this move against the current position.
    fn castling_tests(&self, chess: &Chess) -> (r: Result<(), ChessError>)
        requires
            self.spec_is_within_board(),
        ensures
            r == (match castle_spec(board_view(chess.board), chess.moves@, chess.turn, *self) {
                Some(e) => Err::<(), ChessError>(e),
                None => Ok::<(), ChessError>(()),
            }),
    {
        let (king_from, rook_from): ((usize, usize), (usize, usize)) = match chess.turn {
            Player::White => {
                if self.to.0 == 0 && self.to.1 == 2 {
                    ((0, 4), (0, 0))
                } else {
                    ((0, 4), (0, 7))
                }
            },
            Player::Black => {
                if self.to.0 == 7 && self.to.1 == 2 {
                    ((7, 4), (7, 0))
                } else {
                    ((7, 4), (7, 7))
                }
            },
        };

        if !(self.from.0 == king_from.0 && self.from.1 == king_from.1) {
            return Err(ChessError::NotAllowedMove);
        }

        let mut i: usize = 0;
        while i < chess.moves.len()
            invariant
                i <= chess.moves@.len(),
                forall|k: int|
                    0 <= k < i ==> !((#[trigger] chess.moves@[k]).from == king_from
                        || chess.moves@[k].from == rook_from),
            decreases chess.moves@.len() - i,
        {
            let past = chess.moves[i];
            if (past.from.0 == king_from.0 && past.from.1 == king_from.1) || (past.from.0
                == rook_from.0 && past.from.1 == rook_from.1) {
                return Err(ChessError::CastlingMoveUnavailable);
            }
            i = i + 1;
        }

        if !chess.path_is_clear(&king_from, &rook_from) {
            return Err(ChessError::CastlingPathIsCompromised);
        }

        let mut tiles: Vec<(usize, usize)> = Vec::new();
        tiles.push(king_from);
        let mut crossed = chess.find_path(&king_from, &rook_from);
        tiles.append(&mut crossed);
        proof {
            assert(tiles@ =~= seq![king_from] + path_between(king_from, rook_from));
            crate::chess::lemma_path_within(king_from, rook_from);
        }
        let attackers = attack_moves(
            &chess.board,
            &chess.moves,
            chess.turn,
            chess.turn.opponent(),
            &tiles,
            false,
            true,
        );
        if attackers.len() > 0 {
            return Err(ChessError::CastlingPathIsCompromised);
        }

        if pawn_guard_scan(&chess.board, chess.turn.opponent(), &tiles) {
            return Err(ChessError::CastlingPathIsCompromised);
        }

        Ok(())
    }

    /// Validates this move for the mover and, when every check passes — the
    /// self-check guard included — executes it and returns the game state
    /// the new position derives. With a test player the move is only
    /// validated and the game is left untouched. A promotion places the
    /// mover's queen.
    pub fn process_move(&self, chess: &mut Chess, test: Option<&Player>) -> (r: Result<
        ChessState,
        ChessError,
    >)
        requires
            self.spec_is_within_board(),
        ensures
            process_outcome(
                *old(chess),
                *final(chess),
                *self,
                (match test {
                    Some(p) => Some(*p),
                    None => None,
                }),
                None,
                r,
            ),
    {
        self.process_move_resolved(chess, test, None)
    }

    /// As `process_move`, with the promotion choice already resolved: a
    /// pawn reaching its far rank becomes the given piece, the mover's
    /// queen when none is given.
    pub fn process_move_resolved(
        &self,
        chess: &mut Chess,
        test: Option<&Player>,
        promotion: Option<Piece>,
    ) -> (r: Result<ChessState, ChessError>)
        requires
            self.spec_is_within_board(),
            (promotion matches Some(p) ==> p.owner() == old(chess).turn && !(p is King)),
        ensures
            process_outcome(
                *old(chess),
                *final(chess),
                *self,
                (match test {
                    Some(p) => Some(*p),
                    None => None,
                }),
                promotion,
                r,
            ),
    {
        if let Err(e) = self.regular_tests(chess, test) {
            return Err(e);
        }

        let move_type = match self.specific_tests(chess) {
            Ok(mt) => mt,
            Err(e) => return Err(e),
        };

        if chess.is_check(&chess.turn.opponent(), Some(self)).is_some() {
            return Err(ChessError::KingCompromised);
        }

        if test.is_some() {
            return Ok(ChessState::Normal);
        }

        Ok(self.finalise_move(chess, &move_type, promotion))
    }

    /// Applies this already-validated move: updates the board, appends the
    /// move to the history — always as originally stated, so castling-rights
    /// revocation still recognizes the origin squares — and returns the game
    /// state the new position derives. A promotion places the given piece,
    /// the mover's queen when none is given.
    pub fn finalise_move(
        &self,
        chess: &mut Chess,
        move_type: &MoveType,
        promotion: Option<Piece>,
    ) -> (r: ChessState)
        requires
            self.spec_is_within_board(),
            *move_type == move_type_of(board_view(old(chess).board), *self),
            (promotion matches Some(p) ==> p.owner() == old(chess).turn && !(p is King)),
        ensures
            board_view(final(chess).board) == apply_move_spec(
                board_view(old(chess).board),
                *self,
                *move_type,
                promotion,
                old(chess).turn,
            ),
            final(chess).moves@ == old(chess).moves@.push(*self),
            final(chess).turn == old(chess).turn,
            final(chess).state == old(chess).state,
            state_matches(
                board_view(final(chess).board),
                final(chess).moves@,
                final(chess).turn,
                r,
            ),
    {
        let new_piece: Piece = match promotion {
            Some(p) => p,
            None => Piece::Queen(chess.turn),
        };

        match move_type {
            MoveType::Castle => {
                let (rook_from, rook_to): ((usize, usize), (usize, usize)) = if self.to.0 == 0
                    && self.to.1 == 2 {
                    ((0, 0), (0, 3))
                } else if self.to.0 == 0 && self.to.1 == 6 {
                    ((0, 7), (0, 5))
                } else if self.to.0 == 7 && self.to.1 == 2 {
                    ((7, 0), (7, 3))
                } else {
                    ((7, 7), (7, 5))
                };
                crate::chess::put(&mut chess.board, rook_from, None);
                crate::chess::put(&mut chess.board, rook_to, Some(Piece::Rook(chess.turn)));
            },
            MoveType::EnPassant => {
                let opp_pawn_pos = (self.from.0, self.to.1);
                crate::chess::put(&mut chess.board, opp_pawn_pos, None);
            },
            _ => {},
        }

        if matches!(move_type, MoveType::Promotion) {
            crate::chess::put(&mut chess.board, self.from, None);
            crate::chess::put(&mut chess.board, self.to, Some(new_piece));
        } else {
            crate::chess::put(&mut chess.board, self.from, None);
            crate::chess::put(&mut chess.board, self.to, Some(self.piece));
        }

        chess.moves.push(*self);

        chess.game_state()
    }

    /// Runs the double-push rule of this move.
    fn pawn_two_tests(&self) -> (r: Result<(), ChessError>)
        ensures
            r == (match pawn_two_spec(*self) {
                Some(e) => Err::<(), ChessError>(e),
                None => Ok::<(), ChessError>(()),
            }),
    {
        let player = Player::find_player(&self.piece);

        if player == Player::White && self.from.0 != 1 || player == Player::Black && self.from.0
            != 6 {
            return Err(ChessError::NotAllowedMove);
        }

        Ok(())
    }
}

/// Returns whether a move's destination is empty or holds an opposing piece,
/// on a given board.
pub(crate) fn destination_on(
    board: &[[Option<Piece>; 8]; 8],
    m: &Move,
    player: Player,
) -> (r: bool)
    requires
        within_board(m.to),
    ensures
        r == valid_destination(board_view(*board), *m, player),
{
    if let Some(piece) = board[m.to.0][m.to.1] {
        Player::find_player(&piece) == player.opponent()
    } else {
        true
    }
}

/// Returns whether a pawn of `player` guards any of the given squares.
fn pawn_guard_scan(
    board: &[[Option<Piece>; 8]; 8],
    player: Player,
    tiles: &Vec<(usize, usize)>,
) -> (r: bool)
    requires
        forall|i: int| 0 <= i < tiles@.len() ==> within_board(#[trigger] tiles@[i]),
    ensures
        r == any_pawn_guard(board_view(*board), player, tiles@),
{
    let dir: i16 = match player {
        Player::White => 1,
        Player::Black => -1,
    };
    let pawn = Piece::Pawn(player);
    let mut j: usize = 0;
    while j < tiles.len()
        invariant
            j <= tiles@.len(),
            forall|i: int|
                0 <= i < j ==> !pawn_guards(board_view(*board), player, #[trigger] tiles@[i]),
        decreases tiles@.len() - j,
    {
        let t = tiles[j];
        let r = t.0 as i16 - dir;
        if 0 <= r && r < 8 {
            let rx = r as usize;
            if t.1 >= 1 && board[rx][t.1 - 1] == Some(pawn) {
                return true;
            }
            if t.1 + 1 < 8 && board[rx][t.1 + 1] == Some(pawn) {
                return true;
            }
        }
        j = j + 1;
    }
    false
}

/// Runs the en-passant rule of a move on a given position.
fn en_passant_on(
    board: &[[Option<Piece>; 8]; 8],
    mvs: &Vec<Move>,
    turn: Player,
    m: &Move,
) -> (r: Result<(), ChessError>)
    requires
        m.spec_is_within_board(),
    ensures
        r == (match en_passant_spec(board_view(*board), mvs@, turn, *m) {
            Some(e) => Err::<(), ChessError>(e),
            None => Ok::<(), ChessError>(()),
        }),
{
    let opp_pawn = Piece::Pawn(turn.opponent());
    let mut ok = false;
    if mvs.len() > 0 {
        let last = mvs[mvs.len() - 1];
        let gap = if last.to.0 >= last.from.0 {
            last.to.0 - last.from.0
        } else {
            last.from.0 - last.to.0
        };
        if board[m.from.0][m.to.1] == Some(opp_pawn) && last.to.0 == m.from.0 && last.to.1
            == m.to.1 && last.piece == opp_pawn && gap == 2 {
            ok = true;
        }
    }
    if ok {
        Ok(())
    } else {
        Err(ChessError::NotAllowedMove)
    }
}

/// Runs the pawn-capture rule of a move on a given board.
fn pawn_eat_on(board: &[[Option<Piece>; 8]; 8], m: &Move) -> (r: Result<(), ChessError>)
    requires
        within_board(m.to),
    ensures
        r == (match pawn_eat_spec(board_view(*board), *m) {
            Some(e) => Err::<(), ChessError>(e),
            None => Ok::<(), ChessError>(()),
        }),
{
    if board[m.to.0][m.to.1].is_none() {
        return Err(ChessError::InvalidDestination);
    }

    Ok(())
}

/// Runs the single-push rule of a move on a given board.
fn pawn_one_on(board: &[[Option<Piece>; 8]; 8], m: &Move) -> (r: Result<(), ChessError>)
    requires
        within_board(m.to),
    ensures
        r == (match pawn_one_spec(board_view(*board), *m) {
            Some(e) => Err::<(), ChessError>(e),
            None => Ok::<(), ChessError>(()),
        }),
{
    if board[m.to.0][m.to.1].is_some() {
        return Err(ChessError::NotAllowedMove);
    }

    Ok(())
}

/// Returns whether a list of moves holds a given move.
pub(crate) fn moves_contain(v: &Vec<Move>, m: &Move) -> (r: bool)
    ensures
        r == v@.contains(*m),
{
    let mut j: usize = 0;
    while j < v.len()
        invariant
            j <= v@.len(),
            forall|i: int| 0 <= i < j ==> v@[i] != *m,
        decreases v@.len() - j,
    {
        if v[j] == *m {
            return true;
        }
        j = j + 1;
    }
    false
}

} // verus!
