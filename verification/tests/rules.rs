use chess::chess::{Chess, ChessState};
use chess::error::ChessError;
use chess::moves::Move;
use chess::piece::Piece;
use chess::player::Player;

fn empty_game() -> Chess {
    let mut chess = Chess::new();
    chess.board = [[None; 8]; 8];
    chess
}

fn mv(piece: Piece, from: (usize, usize), to: (usize, usize)) -> Move {
    Move { piece, from, to }
}

#[test]
fn generated_moves_stay_on_board() {
    let players = [Player::White, Player::Black];
    for p in players {
        let pieces = [
            Piece::Pawn(p),
            Piece::Bishob(p),
            Piece::Knight(p),
            Piece::Rook(p),
            Piece::Queen(p),
            Piece::King(p),
        ];
        for piece in pieces {
            for x in 0..8 {
                for y in 0..8 {
                    for m in piece.possible_moves(&(x, y)) {
                        assert!(m.is_within_board());
                        assert_eq!(m.from, (x, y));
                        assert_eq!(m.piece, piece);
                    }
                }
            }
        }
    }
}

#[test]
fn path_clear_everywhere_on_empty_board() {
    let chess = empty_game();
    for fx in 0..8 {
        for fy in 0..8 {
            for tx in 0..8 {
                for ty in 0..8 {
                    assert!(chess.path_is_clear(&(fx, fy), &(tx, ty)));
                }
            }
        }
    }
}

#[test]
fn find_path_lists_strictly_intermediate_squares() {
    let chess = Chess::new();
    assert_eq!(chess.find_path(&(0, 0), &(3, 3)), vec![(1, 1), (2, 2)]);
    assert_eq!(chess.find_path(&(5, 2), &(5, 6)), vec![(5, 3), (5, 4), (5, 5)]);
    assert_eq!(chess.find_path(&(7, 7), &(4, 7)), vec![(6, 7), (5, 7)]);
    assert_eq!(chess.find_path(&(3, 3), &(4, 4)), vec![]);
    assert_eq!(chess.find_path(&(0, 0), &(2, 1)), vec![]);
    assert_eq!(chess.find_path(&(4, 4), &(4, 4)), vec![]);
}

#[test]
fn piece_offset_tables() {
    assert_eq!(Piece::Pawn(Player::White).moves(), vec![(1, 0), (1, 1), (1, -1), (2, 0)]);
    assert_eq!(Piece::Pawn(Player::Black).moves(), vec![(-1, 0), (-1, 1), (-1, -1), (-2, 0)]);
    let rook = Piece::Rook(Player::White).moves();
    assert_eq!(rook.len(), 28);
    assert_eq!(rook[0], (1, 0));
    assert_eq!(rook[6], (7, 0));
    assert_eq!(rook[7], (-1, 0));
    assert_eq!(rook[14], (0, 1));
    assert_eq!(rook[21], (0, -1));
    let queen = Piece::Queen(Player::Black).moves();
    assert_eq!(queen.len(), 56);
    assert_eq!(queen[0], (1, 1));
    assert_eq!(queen[28], (1, 0));
    let king = Piece::King(Player::White).moves();
    assert_eq!(king.len(), 10);
    assert_eq!(king[8], (0, 2));
    assert_eq!(king[9], (0, -2));
}

#[test]
fn knight_moves_from_corner() {
    let knight = Piece::Knight(Player::White);
    let expected = vec![
        mv(knight, (0, 1), (2, 2)),
        mv(knight, (0, 1), (2, 0)),
        mv(knight, (0, 1), (1, 3)),
    ];
    assert_eq!(knight.possible_moves(&(0, 1)), expected);
}

#[test]
fn opening_position() {
    let chess = Chess::new();
    assert_eq!(chess.turn, Player::White);
    assert_eq!(chess.state, ChessState::Normal);
    assert!(chess.moves.is_empty());
    assert_eq!(chess.board[0][0], Some(Piece::Rook(Player::White)));
    assert_eq!(chess.board[0][4], Some(Piece::King(Player::White)));
    assert_eq!(chess.board[1][5], Some(Piece::Pawn(Player::White)));
    assert_eq!(chess.board[4][4], None);
    assert_eq!(chess.board[6][2], Some(Piece::Pawn(Player::Black)));
    assert_eq!(chess.board[7][3], Some(Piece::Queen(Player::Black)));
    assert_eq!(chess.find_king(&Player::White), (0, 4));
    assert_eq!(chess.find_king(&Player::Black), (7, 4));
    assert_eq!(chess.find_piece(&(7, 1)), Some(Piece::Knight(Player::Black)));
    assert_eq!(chess.find_piece(&(3, 3)), None);
}

#[test]
fn pinned_bishop_must_not_leave_the_line() {
    let mut chess = empty_game();
    chess.board[0][4] = Some(Piece::King(Player::White));
    chess.board[3][4] = Some(Piece::Bishob(Player::White));
    chess.board[7][4] = Some(Piece::Rook(Player::Black));
    chess.board[7][7] = Some(Piece::King(Player::Black));
    chess.turn = Player::White;

    // A rook pin along the king's file leaves a bishop no move at all:
    // every bishop move leaves the line.
    let away = [(4usize, 5usize), (4, 3), (2, 5), (2, 3), (6, 7), (0, 1)];
    for to in away {
        let attempt = mv(Piece::Bishob(Player::White), (3, 4), to);
        assert_eq!(attempt.process_move(&mut chess, None), Err(ChessError::KingCompromised));
    }
}

#[test]
fn pinned_bishop_may_move_along_the_pin_line() {
    let mut chess = empty_game();
    chess.board[0][4] = Some(Piece::King(Player::White));
    chess.board[2][6] = Some(Piece::Bishob(Player::White));
    chess.board[3][7] = Some(Piece::Bishob(Player::Black));
    chess.board[7][0] = Some(Piece::King(Player::Black));
    chess.turn = Player::White;

    // Pinned on the king's diagonal: moves on the line, up to and including
    // the attacker's square, pass; any move off the line is rejected.
    let stay = mv(Piece::Bishob(Player::White), (2, 6), (1, 5));
    assert_eq!(stay.process_move(&mut chess, Some(&Player::White)), Ok(ChessState::Normal));
    let capture = mv(Piece::Bishob(Player::White), (2, 6), (3, 7));
    assert_eq!(capture.process_move(&mut chess, Some(&Player::White)), Ok(ChessState::Normal));
    let leave = mv(Piece::Bishob(Player::White), (2, 6), (1, 7));
    assert_eq!(
        leave.process_move(&mut chess, Some(&Player::White)),
        Err(ChessError::KingCompromised)
    );
}

#[test]
fn en_passant_only_immediately_after_double_push() {
    let mut chess = Chess::new();

    chess.turn = Player::White;
    assert!(mv(Piece::Pawn(Player::White), (1, 4), (3, 4)).process_move(&mut chess, None).is_ok());
    chess.turn = Player::Black;
    assert!(mv(Piece::Pawn(Player::Black), (6, 0), (5, 0)).process_move(&mut chess, None).is_ok());
    chess.turn = Player::White;
    assert!(mv(Piece::Pawn(Player::White), (3, 4), (4, 4)).process_move(&mut chess, None).is_ok());
    chess.turn = Player::Black;
    assert!(mv(Piece::Pawn(Player::Black), (6, 3), (4, 3)).process_move(&mut chess, None).is_ok());
    chess.turn = Player::White;

    // Immediately after the adjacent double push the capture is legal.
    let capture = mv(Piece::Pawn(Player::White), (4, 4), (5, 3));
    assert_eq!(capture.process_move(&mut chess, Some(&Player::White)), Ok(ChessState::Normal));

    // One move later the same capture fails.
    assert!(mv(Piece::Pawn(Player::White), (1, 0), (2, 0)).process_move(&mut chess, None).is_ok());
    chess.turn = Player::Black;
    assert!(mv(Piece::Pawn(Player::Black), (5, 0), (4, 0)).process_move(&mut chess, None).is_ok());
    chess.turn = Player::White;
    assert_eq!(capture.process_move(&mut chess, None), Err(ChessError::NotAllowedMove));
}

#[test]
fn en_passant_removes_the_captured_pawn() {
    let mut chess = Chess::new();
    chess.turn = Player::White;
    assert!(mv(Piece::Pawn(Player::White), (1, 4), (3, 4)).process_move(&mut chess, None).is_ok());
    chess.turn = Player::Black;
    assert!(mv(Piece::Pawn(Player::Black), (6, 0), (5, 0)).process_move(&mut chess, None).is_ok());
    chess.turn = Player::White;
    assert!(mv(Piece::Pawn(Player::White), (3, 4), (4, 4)).process_move(&mut chess, None).is_ok());
    chess.turn = Player::Black;
    assert!(mv(Piece::Pawn(Player::Black), (6, 3), (4, 3)).process_move(&mut chess, None).is_ok());
    chess.turn = Player::White;
    assert!(mv(Piece::Pawn(Player::White), (4, 4), (5, 3)).process_move(&mut chess, None).is_ok());
    assert_eq!(chess.board[5][3], Some(Piece::Pawn(Player::White)));
    assert_eq!(chess.board[4][4], None);
    assert_eq!(chess.board[4][3], None);
}

#[test]
fn castling_unavailable_after_king_moved() {
    let mut chess = empty_game();
    chess.board[0][4] = Some(Piece::King(Player::White));
    chess.board[0][7] = Some(Piece::Rook(Player::White));
    chess.board[7][4] = Some(Piece::King(Player::Black));
    chess.turn = Player::White;
    chess.moves.push(mv(Piece::King(Player::White), (0, 4), (0, 5)));
    chess.moves.push(mv(Piece::King(Player::White), (0, 5), (0, 4)));

    let castle = mv(Piece::King(Player::White), (0, 4), (0, 6));
    assert_eq!(castle.process_move(&mut chess, None), Err(ChessError::CastlingMoveUnavailable));
}

#[test]
fn castling_unavailable_after_rook_moved() {
    let mut chess = empty_game();
    chess.board[0][4] = Some(Piece::King(Player::White));
    chess.board[0][7] = Some(Piece::Rook(Player::White));
    chess.board[7][4] = Some(Piece::King(Player::Black));
    chess.turn = Player::White;
    chess.moves.push(mv(Piece::Rook(Player::White), (0, 7), (3, 7)));
    chess.moves.push(mv(Piece::Rook(Player::White), (3, 7), (0, 7)));

    let castle = mv(Piece::King(Player::White), (0, 4), (0, 6));
    assert_eq!(castle.process_move(&mut chess, None), Err(ChessError::CastlingMoveUnavailable));
}

#[test]
fn castling_path_compromised_when_transit_square_attacked() {
    let mut chess = empty_game();
    chess.board[0][4] = Some(Piece::King(Player::White));
    chess.board[0][7] = Some(Piece::Rook(Player::White));
    chess.board[7][5] = Some(Piece::Rook(Player::Black));
    chess.board[7][0] = Some(Piece::King(Player::Black));
    chess.turn = Player::White;

    let castle = mv(Piece::King(Player::White), (0, 4), (0, 6));
    assert_eq!(castle.process_move(&mut chess, None), Err(ChessError::CastlingPathIsCompromised));
}

#[test]
fn castling_relocates_king_and_rook() {
    let mut chess = empty_game();
    chess.board[0][4] = Some(Piece::King(Player::White));
    chess.board[0][7] = Some(Piece::Rook(Player::White));
    chess.board[7][4] = Some(Piece::King(Player::Black));
    chess.turn = Player::White;

    let castle = mv(Piece::King(Player::White), (0, 4), (0, 6));
    assert!(castle.process_move(&mut chess, None).is_ok());
    assert_eq!(chess.board[0][6], Some(Piece::King(Player::White)));
    assert_eq!(chess.board[0][5], Some(Piece::Rook(Player::White)));
    assert_eq!(chess.board[0][4], None);
    assert_eq!(chess.board[0][7], None);
}

#[test]
fn checkmate_with_no_reply() {
    let mut chess = empty_game();
    chess.board[7][0] = Some(Piece::King(Player::Black));
    chess.board[7][7] = Some(Piece::Rook(Player::White));
    chess.board[6][6] = Some(Piece::Rook(Player::White));
    chess.board[0][4] = Some(Piece::King(Player::White));
    chess.turn = Player::White;

    assert_eq!(chess.game_state(), ChessState::Checkmate);
}

#[test]
fn double_check_leaves_only_king_escapes() {
    let mut chess = empty_game();
    chess.board[7][4] = Some(Piece::King(Player::Black));
    chess.board[0][4] = Some(Piece::Rook(Player::White));
    chess.board[4][1] = Some(Piece::Bishob(Player::White));
    chess.board[0][0] = Some(Piece::King(Player::White));
    chess.turn = Player::White;

    match chess.game_state() {
        ChessState::Check { checked_player, moves_left } => {
            assert_eq!(checked_player, Player::Black);
            assert!(!moves_left.is_empty());
            for m in moves_left {
                assert_eq!(m.piece, Piece::King(Player::Black));
                assert_eq!(m.from, (7, 4));
            }
        },
        other => panic!("expected a check, got {:?}", other),
    }
}

#[test]
fn game_state_is_deterministic() {
    let mut a = Chess::new();
    let mut b = Chess::new();
    for chess in [&mut a, &mut b] {
        chess.turn = Player::White;
        assert!(
            mv(Piece::Pawn(Player::White), (1, 4), (3, 4)).process_move(chess, None).is_ok()
        );
        chess.turn = Player::Black;
        assert!(
            mv(Piece::Pawn(Player::Black), (6, 5), (4, 5)).process_move(chess, None).is_ok()
        );
        chess.turn = Player::White;
        assert!(
            mv(Piece::Queen(Player::White), (0, 3), (4, 7)).process_move(chess, None).is_ok()
        );
    }
    assert_eq!(a.game_state(), a.game_state());
    assert_eq!(a.game_state(), b.game_state());
}

#[test]
fn own_piece_of_the_opponent_is_rejected() {
    let mut chess = Chess::new();
    let attempt = mv(Piece::Pawn(Player::Black), (6, 0), (5, 0));
    assert_eq!(attempt.process_move(&mut chess, None), Err(ChessError::PieceBelongsToOpponent));
}

#[test]
fn own_piece_on_destination_is_rejected() {
    let mut chess = Chess::new();
    let attempt = mv(Piece::Rook(Player::White), (0, 0), (1, 0));
    assert_eq!(attempt.process_move(&mut chess, None), Err(ChessError::InvalidDestination));
}

#[test]
fn off_template_displacement_is_rejected() {
    let mut chess = Chess::new();
    let attempt = mv(Piece::Rook(Player::White), (0, 0), (2, 1));
    assert_eq!(attempt.process_move(&mut chess, None), Err(ChessError::NotAllowedMove));
}

#[test]
fn blocked_path_is_rejected() {
    let mut chess = Chess::new();
    let attempt = mv(Piece::Rook(Player::White), (0, 0), (3, 0));
    assert_eq!(attempt.process_move(&mut chess, None), Err(ChessError::PathIsBlocked));
}

#[test]
fn only_listed_replies_allowed_in_check() {
    let mut chess = empty_game();
    chess.board[0][4] = Some(Piece::King(Player::White));
    chess.board[1][1] = Some(Piece::Pawn(Player::White));
    chess.board[5][0] = Some(Piece::Rook(Player::Black));
    chess.board[7][7] = Some(Piece::King(Player::Black));
    chess.turn = Player::Black;

    let check = mv(Piece::Rook(Player::Black), (5, 0), (0, 0));
    let state = check.process_move(&mut chess, None).unwrap();
    match &state {
        ChessState::Check { checked_player, moves_left } => {
            assert_eq!(*checked_player, Player::White);
            assert!(!moves_left.is_empty());
        },
        other => panic!("expected a check, got {:?}", other),
    }
    chess.state = state;
    chess.turn = Player::White;

    let attempt = mv(Piece::Pawn(Player::White), (1, 1), (2, 1));
    assert_eq!(attempt.process_move(&mut chess, None), Err(ChessError::NotAllowedMoveInCheck));
}

#[test]
fn is_check_reports_the_checking_move() {
    let mut chess = empty_game();
    chess.board[0][4] = Some(Piece::King(Player::White));
    chess.board[5][4] = Some(Piece::Rook(Player::Black));
    chess.board[7][7] = Some(Piece::King(Player::Black));
    chess.turn = Player::Black;

    let checking = chess.is_check(&Player::Black, None).unwrap();
    assert_eq!(checking, vec![mv(Piece::Rook(Player::Black), (5, 4), (0, 4))]);
    assert!(chess.is_check(&Player::White, None).is_none());
}

#[test]
fn promotion_defaults_to_a_queen() {
    let mut chess = empty_game();
    chess.board[6][0] = Some(Piece::Pawn(Player::White));
    chess.board[0][4] = Some(Piece::King(Player::White));
    chess.board[7][7] = Some(Piece::King(Player::Black));
    chess.turn = Player::White;

    let push = mv(Piece::Pawn(Player::White), (6, 0), (7, 0));
    assert!(push.process_move(&mut chess, None).is_ok());
    assert_eq!(chess.board[7][0], Some(Piece::Queen(Player::White)));
    assert_eq!(chess.board[6][0], None);
}

#[test]
fn promotion_honours_the_resolved_choice() {
    let mut chess = empty_game();
    chess.board[6][0] = Some(Piece::Pawn(Player::White));
    chess.board[0][4] = Some(Piece::King(Player::White));
    chess.board[7][7] = Some(Piece::King(Player::Black));
    chess.turn = Player::White;

    let push = mv(Piece::Pawn(Player::White), (6, 0), (7, 0));
    assert!(
        push.process_move_resolved(&mut chess, None, Some(Piece::Rook(Player::White))).is_ok()
    );
    assert_eq!(chess.board[7][0], Some(Piece::Rook(Player::White)));
}

#[test]
fn pawn_pushes_do_not_count_as_attacks() {
    let chess = Chess::new();
    // The square in front of the white a-pawn: the pawn could move there,
    // but a forward push never attacks, so only the knight is reported.
    let found = chess.piece_can_move_to(&Player::White, vec![(2, 0)], false).unwrap();
    assert_eq!(found, vec![mv(Piece::Knight(Player::White), (0, 1), (2, 0))]);
    // With blocking moves asked for, the push counts too.
    let blockers = chess.piece_can_move_to(&Player::White, vec![(2, 0)], true).unwrap();
    assert_eq!(
        blockers,
        vec![
            mv(Piece::Knight(Player::White), (0, 1), (2, 0)),
            mv(Piece::Pawn(Player::White), (1, 0), (2, 0)),
        ]
    );
}

#[test]
fn queenside_castle_needs_the_whole_rook_path_empty() {
    let mut chess = empty_game();
    chess.board[0][4] = Some(Piece::King(Player::White));
    chess.board[0][0] = Some(Piece::Rook(Player::White));
    chess.board[0][1] = Some(Piece::Knight(Player::White));
    chess.board[7][4] = Some(Piece::King(Player::Black));
    chess.turn = Player::White;

    // The knight on b1 does not stand on the king's own two squares, but it
    // blocks the rook's path, so the castle is refused.
    let castle = mv(Piece::King(Player::White), (0, 4), (0, 2));
    assert_eq!(castle.process_move(&mut chess, None), Err(ChessError::CastlingPathIsCompromised));

    // Once the knight is gone the same castle goes through.
    chess.board[0][1] = None;
    assert!(castle.process_move(&mut chess, None).is_ok());
    assert_eq!(chess.board[0][2], Some(Piece::King(Player::White)));
    assert_eq!(chess.board[0][3], Some(Piece::Rook(Player::White)));
    assert_eq!(chess.board[0][0], None);
}

#[test]
fn en_passant_needs_the_pawn_beside_the_origin() {
    let mut chess = Chess::new();
    chess.turn = Player::White;
    assert!(mv(Piece::Pawn(Player::White), (1, 3), (2, 3)).process_move(&mut chess, None).is_ok());
    chess.turn = Player::Black;
    assert!(mv(Piece::Pawn(Player::Black), (6, 4), (4, 4)).process_move(&mut chess, None).is_ok());
    chess.turn = Player::White;

    // The double push landed on (4, 4): the square beyond this pawn's
    // destination, not beside its origin. The diagonal step onto the empty
    // square (3, 4) captures nothing and must be rejected.
    let phantom = mv(Piece::Pawn(Player::White), (2, 3), (3, 4));
    assert_eq!(phantom.process_move(&mut chess, None), Err(ChessError::NotAllowedMove));
}

#[test]
fn king_counts_as_an_attacker() {
    let mut chess = empty_game();
    chess.board[0][0] = Some(Piece::King(Player::White));
    chess.board[7][7] = Some(Piece::King(Player::Black));
    chess.turn = Player::White;

    let found = chess.piece_can_move_to(&Player::White, vec![(0, 1)], false).unwrap();
    assert_eq!(found, vec![mv(Piece::King(Player::White), (0, 0), (0, 1))]);
}

#[test]
fn kings_may_not_stand_beside_each_other() {
    let mut chess = empty_game();
    chess.board[0][0] = Some(Piece::King(Player::White));
    chess.board[0][2] = Some(Piece::King(Player::Black));
    chess.turn = Player::Black;

    // Stepping beside the opposing king walks into its guarded square.
    let step = mv(Piece::King(Player::Black), (0, 2), (0, 1));
    assert_eq!(step.process_move(&mut chess, None), Err(ChessError::KingCompromised));
}

#[test]
fn castling_blocked_by_a_pawn_guarding_a_transit_square() {
    let mut chess = empty_game();
    chess.board[0][4] = Some(Piece::King(Player::White));
    chess.board[0][7] = Some(Piece::Rook(Player::White));
    chess.board[1][6] = Some(Piece::Pawn(Player::Black));
    chess.board[7][0] = Some(Piece::King(Player::Black));
    chess.turn = Player::White;

    // The black pawn guards the empty transit square (0, 5) along its
    // diagonal, so the castle is refused even though nothing can move there.
    let castle = mv(Piece::King(Player::White), (0, 4), (0, 6));
    assert_eq!(castle.process_move(&mut chess, None), Err(ChessError::CastlingPathIsCompromised));
}

#[test]
fn pinned_capture_is_no_reply_to_check() {
    let mut chess = empty_game();
    chess.board[0][4] = Some(Piece::King(Player::White));
    chess.board[2][6] = Some(Piece::Bishob(Player::White));
    chess.board[3][7] = Some(Piece::Bishob(Player::Black));
    chess.board[4][4] = Some(Piece::Rook(Player::Black));
    chess.board[7][0] = Some(Piece::King(Player::Black));
    chess.turn = Player::Black;

    // The rook checks the white king; the white bishop could capture it,
    // but it is pinned by the black bishop, so only king moves are replies.
    match chess.game_state() {
        ChessState::Check { checked_player, moves_left } => {
            assert_eq!(checked_player, Player::White);
            assert!(!moves_left.is_empty());
            for m in moves_left {
                assert_eq!(m.piece, Piece::King(Player::White));
            }
        },
        other => panic!("expected a check, got {:?}", other),
    }
}

#[test]
fn rejected_moves_leave_the_game_untouched() {
    let mut chess = Chess::new();
    let before_board = chess.board;
    let before_moves = chess.moves.clone();
    let attempt = mv(Piece::Rook(Player::White), (0, 0), (3, 0));
    assert!(attempt.process_move(&mut chess, None).is_err());
    assert_eq!(chess.board, before_board);
    assert_eq!(chess.moves, before_moves);
    assert_eq!(chess.turn, Player::White);
}
