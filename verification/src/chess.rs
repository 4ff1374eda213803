use vstd::prelude::*;

use crate::error::ChessError;
use crate::moves::{valid_attack_spec, what_if_valid, Move, MoveType};
use crate::piece::{
    attack_candidates, candidates, lemma_candidates_from_contains, lemma_straight_offset_index,
    straight_offsets, within_board, Piece,
};
use crate::player::Player;

verus! {

/// The derived state of the game after a move: play goes on, one player is
/// in check with a known set of legal replies, or the game is over.
#[derive(Debug, PartialEq, Clone)]
pub enum ChessState {
    Checkmate,
    Check { checked_player: Player, moves_left: Vec<Move> },
    Normal,
}

/// The authoritative game: the board, the player to move, the state derived
/// after the last executed move, and the ordered history of executed moves.
/// The history is the sole source of truth for en-passant eligibility and
/// castling-rights revocation.
#[derive(Debug, Clone)]
pub struct Chess {
    pub board: [[Option<Piece>; 8]; 8],
    pub turn: Player,
    pub state: ChessState,
    pub moves: Vec<Move>,
}

/// The mathematical reading of a board: eight ranks of eight squares, each
/// square holding at most one piece.
pub open spec fn board_view(b: [[Option<Piece>; 8]; 8]) -> Seq<Seq<Option<Piece>>> {
    Seq::new(8, |i: int| Seq::new(8, |j: int| b[i][j]))
}

/// The content of a square.
pub open spec fn at(bs: Seq<Seq<Option<Piece>>>, s: (usize, usize)) -> Option<Piece> {
    bs[s.0 as int][s.1 as int]
}

/// A board with one square replaced.
pub open spec fn board_set(
    bs: Seq<Seq<Option<Piece>>>,
    s: (usize, usize),
    v: Option<Piece>,
) -> Seq<Seq<Option<Piece>>> {
    bs.update(s.0 as int, bs[s.0 as int].update(s.1 as int, v))
}

/// A well-formed board reading: eight ranks of eight squares.
pub open spec fn board_wf(bs: Seq<Seq<Option<Piece>>>) -> bool {
    bs.len() == 8 && forall|x: int| 0 <= x < 8 ==> (#[trigger] bs[x]).len() == 8
}

/// Replacing one square keeps a board well-formed and changes the content
/// of that square alone.
pub proof fn lemma_board_set_at(
    bs: Seq<Seq<Option<Piece>>>,
    s: (usize, usize),
    v: Option<Piece>,
    t: (usize, usize),
)
    requires
        board_wf(bs),
        within_board(s),
        within_board(t),
    ensures
        board_wf(board_set(bs, s, v)),
        at(board_set(bs, s, v), t) == if t == s {
            v
        } else {
            at(bs, t)
        },
{
}

/// How far apart two coordinates are.
pub open spec fn coord_gap(a: int, b: int) -> int {
    if a < b {
        b - a
    } else {
        a - b
    }
}

/// Two squares lie on a common ray when they share a rank, a file or a
/// diagonal and are not the same square.
pub open spec fn ray_aligned(from: (usize, usize), to: (usize, usize)) -> bool {
    let dr = coord_gap(from.0 as int, to.0 as int);
    let dc = coord_gap(from.1 as int, to.1 as int);
    !(dr == 0 && dc == 0) && (dr == 0 || dc == 0 || dr == dc)
}

/// The number of steps a ray-aligned move takes.
pub open spec fn ray_length(from: (usize, usize), to: (usize, usize)) -> int {
    let dr = coord_gap(from.0 as int, to.0 as int);
    let dc = coord_gap(from.1 as int, to.1 as int);
    if dr > dc {
        dr
    } else {
        dc
    }
}

/// The coordinate reached after stepping from a toward b the given number of
/// times.
pub open spec fn step_toward(a: int, b: int, t: int) -> int {
    if a < b {
        a + t
    } else if a > b {
        a - t
    } else {
        a
    }
}

/// The ordered squares strictly between two squares of a common ray, nearest
/// the origin first; empty when the squares share no ray.
pub open spec fn path_between(from: (usize, usize), to: (usize, usize)) -> Seq<(usize, usize)> {
    if ray_aligned(from, to) {
        Seq::new(
            (ray_length(from, to) - 1) as nat,
            |k: int|
                (
                    step_toward(from.0 as int, to.0 as int, k + 1) as usize,
                    step_toward(from.1 as int, to.1 as int, k + 1) as usize,
                ),
        )
    } else {
        Seq::<(usize, usize)>::empty()
    }
}

/// Every square strictly between two board squares lies on the board itself.
pub proof fn lemma_path_within(from: (usize, usize), to: (usize, usize))
    requires
        within_board(from),
        within_board(to),
    ensures
        forall|k: int|
            0 <= k < path_between(from, to).len() ==> within_board(
                #[trigger] path_between(from, to)[k],
            ),
{
}

/// The squares strictly between two squares name neither endpoint and never
/// repeat.
pub proof fn lemma_path_distinct(from: (usize, usize), to: (usize, usize))
    requires
        within_board(from),
        within_board(to),
    ensures
        forall|k: int|
            0 <= k < path_between(from, to).len() ==> #[trigger] path_between(from, to)[k] != from
                && path_between(from, to)[k] != to,
        forall|k1: int, k2: int|
            0 <= k1 < k2 < path_between(from, to).len() ==> path_between(from, to)[k1]
                != path_between(from, to)[k2],
{
    if ray_aligned(from, to) {
        let d = ray_length(from, to);
        assert forall|k: int|
            0 <= k < path_between(from, to).len() implies #[trigger] path_between(from, to)[k]
            != from && path_between(from, to)[k] != to by {
            if from.0 != to.0 {
                assert(coord_gap(from.0 as int, to.0 as int) == d);
            } else {
                assert(coord_gap(from.1 as int, to.1 as int) == d);
            }
        }
        assert forall|k1: int, k2: int|
            0 <= k1 < k2 < path_between(from, to).len() implies path_between(from, to)[k1]
            != path_between(from, to)[k2] by {
            if from.0 != to.0 {
                assert(step_toward(from.0 as int, to.0 as int, k1 + 1) != step_toward(
                    from.0 as int,
                    to.0 as int,
                    k2 + 1,
                ));
            } else {
                assert(step_toward(from.1 as int, to.1 as int, k1 + 1) != step_toward(
                    from.1 as int,
                    to.1 as int,
                    k2 + 1,
                ));
            }
        }
    }
}

/// A path is clear when every square strictly between origin and destination
/// is empty.
pub open spec fn path_clear(
    bs: Seq<Seq<Option<Piece>>>,
    from: (usize, usize),
    to: (usize, usize),
) -> bool {
    forall|k: int|
        0 <= k < path_between(from, to).len() ==> at(bs, #[trigger] path_between(from, to)[k])
            is None
}

/// The square the board scan for a king settles on: the last square found to
/// hold the king, the accumulator when none does.
pub open spec fn king_scan_row(
    bs: Seq<Seq<Option<Piece>>>,
    p: Player,
    x: int,
    yn: int,
    acc: (usize, usize),
) -> (usize, usize)
    decreases yn,
{
    if yn <= 0 {
        acc
    } else {
        let acc2 = king_scan_row(bs, p, x, yn - 1, acc);
        if bs[x][yn - 1] == Some(Piece::King(p)) {
            (x as usize, (yn - 1) as usize)
        } else {
            acc2
        }
    }
}

/// The scan of the first xn ranks for a king, rank by rank.
pub open spec fn king_scan(
    bs: Seq<Seq<Option<Piece>>>,
    p: Player,
    xn: int,
    acc: (usize, usize),
) -> (usize, usize)
    decreases xn,
{
    if xn <= 0 {
        acc
    } else {
        king_scan_row(bs, p, xn - 1, 8, king_scan(bs, p, xn - 1, acc))
    }
}

/// The square a full board scan finds the king of a side on; (0, 0) when the
/// board holds none.
pub open spec fn king_square(bs: Seq<Seq<Option<Piece>>>, p: Player) -> (usize, usize) {
    king_scan(bs, p, 8, (0usize, 0usize))
}

/// A rank scan that meets no king keeps its accumulator.
proof fn lemma_king_scan_row_none(
    bs: Seq<Seq<Option<Piece>>>,
    p: Player,
    x: int,
    yn: int,
    acc: (usize, usize),
)
    requires
        forall|y: int| 0 <= y < yn ==> #[trigger] bs[x][y] != Some(Piece::King(p)),
    ensures
        king_scan_row(bs, p, x, yn, acc) == acc,
    decreases yn,
{
    if yn > 0 {
        lemma_king_scan_row_none(bs, p, x, yn - 1, acc);
    }
}

/// A rank scan that meets the king on exactly one square settles on it.
proof fn lemma_king_scan_row_found(
    bs: Seq<Seq<Option<Piece>>>,
    p: Player,
    x: int,
    yn: int,
    acc: (usize, usize),
    y0: int,
)
    requires
        0 <= x < 8,
        0 <= y0 < yn <= 8,
        bs[x][y0] == Some(Piece::King(p)),
        forall|y: int| 0 <= y < yn && y != y0 ==> #[trigger] bs[x][y] != Some(Piece::King(p)),
    ensures
        king_scan_row(bs, p, x, yn, acc) == (x as usize, y0 as usize),
    decreases yn,
{
    if yn - 1 != y0 {
        lemma_king_scan_row_found(bs, p, x, yn - 1, acc, y0);
    }
}

/// When exactly one square of the board holds the king of a side, the board
/// scan finds that square.
pub proof fn lemma_king_square_unique(bs: Seq<Seq<Option<Piece>>>, p: Player, s: (usize, usize))
    requires
        within_board(s),
        at(bs, s) == Some(Piece::King(p)),
        forall|x: int, y: int|
            0 <= x < 8 && 0 <= y < 8 && !(x == s.0 as int && y == s.1 as int) ==> #[trigger] bs[x][y]
                != Some(Piece::King(p)),
    ensures
        king_square(bs, p) == s,
{
    lemma_king_scan_unique(bs, p, s, 8, (0usize, 0usize));
}

/// The scan of any set of ranks that includes the unique king's rank settles
/// on the king's square.
proof fn lemma_king_scan_unique(
    bs: Seq<Seq<Option<Piece>>>,
    p: Player,
    s: (usize, usize),
    xn: int,
    acc: (usize, usize),
)
    requires
        within_board(s),
        at(bs, s) == Some(Piece::King(p)),
        forall|x: int, y: int|
            0 <= x < 8 && 0 <= y < 8 && !(x == s.0 as int && y == s.1 as int) ==> #[trigger] bs[x][y]
                != Some(Piece::King(p)),
        (s.0 as int) < xn,
        xn <= 8,
    ensures
        king_scan(bs, p, xn, acc) == s,
    decreases xn,
{
    let inner = king_scan(bs, p, xn - 1, acc);
    if xn - 1 == s.0 as int {
        lemma_king_scan_row_found(bs, p, xn - 1, 8, inner, s.1 as int);
    } else {
        lemma_king_scan_unique(bs, p, s, xn - 1, acc);
        lemma_king_scan_row_none(bs, p, xn - 1, 8, inner);
    }
}

/// Whether one candidate move of a piece of `player` is kept by the attack
/// scan: it validates, it lands on one of the given tiles, and, unless any
/// blocking move is asked for, it is a plain move or a pawn capture.
pub open spec fn attack_keeps(
    bs: Seq<Seq<Option<Piece>>>,
    mvs: Seq<Move>,
    turn: Player,
    player: Player,
    m: Move,
    tiles: Seq<(usize, usize)>,
    block: bool,
) -> bool {
    (match valid_attack_spec(bs, mvs, turn, m, player) {
        Ok(mt) => block || mt == MoveType::PawnEat || mt == MoveType::Other,
        Err(_) => false,
    }) && tiles.contains(m.to)
}

/// The kept candidate moves out of a sequence of candidates, in order.
pub open spec fn collect_attacks(
    bs: Seq<Seq<Option<Piece>>>,
    mvs: Seq<Move>,
    turn: Player,
    player: Player,
    cands: Seq<Move>,
    tiles: Seq<(usize, usize)>,
    block: bool,
) -> Seq<Move>
    decreases cands.len(),
{
    if cands.len() == 0 {
        Seq::<Move>::empty()
    } else {
        collect_attacks(bs, mvs, turn, player, cands.drop_last(), tiles, block) + (
        if attack_keeps(bs, mvs, turn, player, cands.last(), tiles, block) {
            seq![cands.last()]
        } else {
            Seq::<Move>::empty()
        })
    }
}

/// The kept moves of the piece standing on one square, generated from its
/// attack candidates (a king uses its eight unit steps, never the castling
/// jumps). Without `with_king` the scanned side's king contributes none:
/// the evasion enumerator lists the checked king's own moves separately.
pub open spec fn square_attacks(
    bs: Seq<Seq<Option<Piece>>>,
    mvs: Seq<Move>,
    turn: Player,
    player: Player,
    x: int,
    y: int,
    tiles: Seq<(usize, usize)>,
    block: bool,
    with_king: bool,
) -> Seq<Move> {
    match bs[x][y] {
        Some(p) => if p.owner() == player && (with_king || !(p is King)) {
            collect_attacks(
                bs,
                mvs,
                turn,
                player,
                attack_candidates(p, (x as usize, y as usize)),
                tiles,
                block,
            )
        } else {
            Seq::<Move>::empty()
        },
        None => Seq::<Move>::empty(),
    }
}

/// The kept moves of the first yn squares of one rank.
pub open spec fn row_attacks(
    bs: Seq<Seq<Option<Piece>>>,
    mvs: Seq<Move>,
    turn: Player,
    player: Player,
    x: int,
    yn: int,
    tiles: Seq<(usize, usize)>,
    block: bool,
    with_king: bool,
) -> Seq<Move>
    decreases yn,
{
    if yn <= 0 {
        Seq::<Move>::empty()
    } else {
        row_attacks(bs, mvs, turn, player, x, yn - 1, tiles, block, with_king) + square_attacks(
            bs,
            mvs,
            turn,
            player,
            x,
            yn - 1,
            tiles,
            block,
            with_king,
        )
    }
}

/// The kept moves of the first xn ranks.
pub open spec fn board_attacks(
    bs: Seq<Seq<Option<Piece>>>,
    mvs: Seq<Move>,
    turn: Player,
    player: Player,
    xn: int,
    tiles: Seq<(usize, usize)>,
    block: bool,
    with_king: bool,
) -> Seq<Move>
    decreases xn,
{
    if xn <= 0 {
        Seq::<Move>::empty()
    } else {
        board_attacks(bs, mvs, turn, player, xn - 1, tiles, block, with_king) + row_attacks(
            bs,
            mvs,
            turn,
            player,
            xn - 1,
            8,
            tiles,
            block,
            with_king,
        )
    }
}

/// Every move of `player` that validates on the given position and lands on
/// one of the given tiles, scanning the board rank by rank; `block` keeps
/// moves of every kind, otherwise only plain moves and pawn captures count
/// as attacks. `with_king` admits the scanned side's king as a mover.
pub open spec fn can_move_spec(
    bs: Seq<Seq<Option<Piece>>>,
    mvs: Seq<Move>,
    turn: Player,
    player: Player,
    tiles: Seq<(usize, usize)>,
    block: bool,
    with_king: bool,
) -> Seq<Move> {
    board_attacks(bs, mvs, turn, player, 8, tiles, block, with_king)
}

/// The moves of `checking_player` that attack the opposing king, on the
/// given position or, when a test move is given, on the position that move
/// would leave behind.
pub open spec fn check_moves_spec(
    bs: Seq<Seq<Option<Piece>>>,
    mvs: Seq<Move>,
    turn: Player,
    checking_player: Player,
    test: Option<Move>,
) -> Seq<Move> {
    match test {
        Some(m) => {
            let bs2 = board_set(board_set(bs, m.from, None), m.to, Some(m.piece));
            can_move_spec(
                bs2,
                mvs,
                turn,
                checking_player,
                seq![king_square(bs2, checking_player.spec_opponent())],
                false,
                true,
            )
        },
        None => can_move_spec(
            bs,
            mvs,
            turn,
            checking_player,
            seq![king_square(bs, checking_player.spec_opponent())],
            false,
            true,
        ),
    }
}

/// Whether one candidate king move is kept as an escape from check: it
/// validates for the checked player and leaves the king unattacked.
pub open spec fn escape_keeps(
    bs: Seq<Seq<Option<Piece>>>,
    mvs: Seq<Move>,
    turn: Player,
    m: Move,
) -> bool {
    what_if_valid(bs, mvs, turn, m, turn.spec_opponent()) is Ok && check_moves_spec(
        bs,
        mvs,
        turn,
        turn,
        Some(m),
    ).len() == 0
}

/// The kept king escapes out of a sequence of candidate king moves.
pub open spec fn collect_escapes(
    bs: Seq<Seq<Option<Piece>>>,
    mvs: Seq<Move>,
    turn: Player,
    cands: Seq<Move>,
) -> Seq<Move>
    decreases cands.len(),
{
    if cands.len() == 0 {
        Seq::<Move>::empty()
    } else {
        collect_escapes(bs, mvs, turn, cands.drop_last()) + (if escape_keeps(
            bs,
            mvs,
            turn,
            cands.last(),
        ) {
            seq![cands.last()]
        } else {
            Seq::<Move>::empty()
        })
    }
}

/// Out of a sequence of candidate replies, those that leave the replying
/// side's own king unattacked once played.
pub open spec fn collect_safe(
    bs: Seq<Seq<Option<Piece>>>,
    mvs: Seq<Move>,
    turn: Player,
    ms: Seq<Move>,
) -> Seq<Move>
    decreases ms.len(),
{
    if ms.len() == 0 {
        Seq::<Move>::empty()
    } else {
        collect_safe(bs, mvs, turn, ms.drop_last()) + (if check_moves_spec(
            bs,
            mvs,
            turn,
            turn,
            Some(ms.last()),
        ).len() == 0 {
            seq![ms.last()]
        } else {
            Seq::<Move>::empty()
        })
    }
}

/// The complete legal-reply set of the checked player, given the non-empty
/// sequence of checking moves: king escapes, and, when exactly one piece
/// checks, moves of the other pieces that block the checking line or capture
/// the checking piece — each reply what-if tested, so none leaves the checked
/// king attacked.
pub open spec fn evade_spec(
    bs: Seq<Seq<Option<Piece>>>,
    mvs: Seq<Move>,
    turn: Player,
    checking: Seq<Move>,
) -> Seq<Move> {
    let defender = turn.spec_opponent();
    let escapes = collect_escapes(bs, mvs, turn, candidates(Piece::King(defender), checking[0].to));
    if checking.len() == 1 {
        escapes + collect_safe(
            bs,
            mvs,
            turn,
            can_move_spec(
                bs,
                mvs,
                turn,
                defender,
                path_between(checking[0].from, checking[0].to),
                true,
                false,
            ),
        ) + collect_safe(
            bs,
            mvs,
            turn,
            can_move_spec(bs, mvs, turn, defender, seq![checking[0].from], false, false),
        )
    } else {
        escapes
    }
}

/// What the derived game state of a position must be: Normal when the side
/// just moved gives no check, Checkmate when it does and no reply is left,
/// otherwise Check carrying the checked player and the full reply set.
pub open spec fn state_matches(
    bs: Seq<Seq<Option<Piece>>>,
    mvs: Seq<Move>,
    turn: Player,
    st: ChessState,
) -> bool {
    let ck = check_moves_spec(bs, mvs, turn, turn, None);
    if ck.len() == 0 {
        st == ChessState::Normal
    } else {
        let left = evade_spec(bs, mvs, turn, ck);
        if left.len() == 0 {
            st == ChessState::Checkmate
        } else {
            match st {
                ChessState::Check { checked_player, moves_left } => checked_player
                    == turn.spec_opponent() && moves_left@ == left,
                _ => false,
            }
        }
    }
}

/// The piece standing on a back-rank file in the opening position.
pub open spec fn opening_back_rank(p: Player, j: int) -> Piece {
    if j == 0 || j == 7 {
        Piece::Rook(p)
    } else if j == 1 || j == 6 {
        Piece::Knight(p)
    } else if j == 2 || j == 5 {
        Piece::Bishob(p)
    } else if j == 3 {
        Piece::Queen(p)
    } else {
        Piece::King(p)
    }
}

/// The standard opening position: white on ranks zero and one, black on
/// ranks six and seven.
pub open spec fn opening_square(i: int, j: int) -> Option<Piece> {
    if i == 0 {
        Some(opening_back_rank(Player::White, j))
    } else if i == 1 {
        Some(Piece::Pawn(Player::White))
    } else if i == 6 {
        Some(Piece::Pawn(Player::Black))
    } else if i == 7 {
        Some(opening_back_rank(Player::Black, j))
    } else {
        None
    }
}

impl Chess {
    /// Returns a fresh game: the opening position, white to move, no history.
    pub fn new() -> (r: Chess)
        ensures
            forall|i: int, j: int|
                0 <= i < 8 && 0 <= j < 8 ==> board_view(r.board)[i][j] == opening_square(i, j),
            r.turn == Player::White,
            r.state == ChessState::Normal,
            r.moves@ =~= Seq::<Move>::empty(),
    {
        let board: [[Option<Piece>; 8]; 8] = [
            [
                Some(Piece::Rook(Player::White)),
                Some(Piece::Knight(Player::White)),
                Some(Piece::Bishob(Player::White)),
                Some(Piece::Queen(Player::White)),
                Some(Piece::King(Player::White)),
                Some(Piece::Bishob(Player::White)),
                Some(Piece::Knight(Player::White)),
                Some(Piece::Rook(Player::White)),
            ],
            [Some(Piece::Pawn(Player::White)); 8],
            [None; 8],
            [None; 8],
            [None; 8],
            [None; 8],
            [Some(Piece::Pawn(Player::Black)); 8],
            [
                Some(Piece::Rook(Player::Black)),
                Some(Piece::Knight(Player::Black)),
                Some(Piece::Bishob(Player::Black)),
                Some(Piece::Queen(Player::Black)),
                Some(Piece::King(Player::Black)),
                Some(Piece::Bishob(Player::Black)),
                Some(Piece::Knight(Player::Black)),
                Some(Piece::Rook(Player::Black)),
            ],
        ];
        Chess { board, turn: Player::White, state: ChessState::Normal, moves: Vec::new() }
    }

    /// Returns the ordered squares strictly between two squares of a common
    /// ray, nearest the origin first; empty when the squares share no ray.
    pub fn find_path(&self, from: &(usize, usize), to: &(usize, usize)) -> (r: Vec<(usize, usize)>)
        requires
            within_board(*from),
            within_board(*to),
        ensures
            r@ == path_between(*from, *to),
    {
        path_squares(from, to)
    }

    /// Returns whether every square strictly between origin and destination
    /// is empty.
    pub fn path_is_clear(&self, from: &(usize, usize), to: &(usize, usize)) -> (r: bool)
        requires
            within_board(*from),
            within_board(*to),
        ensures
            r == path_clear(board_view(self.board), *from, *to),
    {
        board_path_is_clear(&self.board, from, to)
    }

    /// Returns the square a full board scan finds the king of a side on;
    /// (0, 0) when the board holds none.
    pub fn find_king(&self, player: &Player) -> (r: (usize, usize))
        ensures
            r == king_square(board_view(self.board), *player),
            within_board(r),
    {
        board_king(&self.board, player)
    }

    /// Returns the piece standing on a square, if any.
    pub fn find_piece(&self, tile: &(usize, usize)) -> (r: Option<Piece>)
        requires
            within_board(*tile),
        ensures
            r == at(board_view(self.board), *tile),
    {
        self.board[tile.0][tile.1]
    }

    /// Returns every move of `player` — its king included — that validates
    /// on this position and lands on one of the given tiles, or None when
    /// there is none. With `is_check_block` moves of every kind count;
    /// without it only plain moves and pawn captures do.
    pub fn piece_can_move_to(
        &self,
        player: &Player,
        tiles: Vec<(usize, usize)>,
        is_check_block: bool,
    ) -> (r: Option<Vec<Move>>)
        ensures
            ({
                let s = can_move_spec(
                    board_view(self.board),
                    self.moves@,
                    self.turn,
                    *player,
                    tiles@,
                    is_check_block,
                    true,
                );
                match r {
                    Some(v) => v@ == s && s.len() > 0,
                    None => s.len() == 0,
                }
            }),
    {
        let cm = attack_moves(
            &self.board,
            &self.moves,
            self.turn,
            *player,
            &tiles,
            is_check_block,
            true,
        );
        if cm.len() > 0 {
            Some(cm)
        } else {
            None
        }
    }

    /// Returns the moves of `checking_player` that attack the opposing king,
    /// or None when that king is not attacked. A test move is first played
    /// on a private copy of the board, so the live position is never touched.
    pub fn is_check(&self, checking_player: &Player, test: Option<&Move>) -> (r: Option<Vec<Move>>)
        requires
            (test matches Some(m) ==> m.spec_is_within_board()),
        ensures
            ({
                let s = check_moves_spec(
                    board_view(self.board),
                    self.moves@,
                    self.turn,
                    *checking_player,
                    match test {
                        Some(m) => Some(*m),
                        None => None,
                    },
                );
                match r {
                    Some(v) => v@ == s && s.len() > 0,
                    None => s.len() == 0,
                }
            }),
    {
        match test {
            Some(m) => {
                let mut board2 = self.board;
                put(&mut board2, m.from, None);
                put(&mut board2, m.to, Some(m.piece));
                let king_tile = board_king(&board2, &checking_player.opponent());
                let mut tiles: Vec<(usize, usize)> = Vec::new();
                tiles.push(king_tile);
                proof {
                    assert(tiles@ =~= seq![
                        king_square(board_view(board2), checking_player.spec_opponent()),
                    ]);
                }
                let cm = attack_moves(
                    &board2,
                    &self.moves,
                    self.turn,
                    *checking_player,
                    &tiles,
                    false,
                    true,
                );
                if cm.len() > 0 {
                    Some(cm)
                } else {
                    None
                }
            },
            None => {
                let king_tile = board_king(&self.board, &checking_player.opponent());
                let mut tiles: Vec<(usize, usize)> = Vec::new();
                tiles.push(king_tile);
                proof {
                    assert(tiles@ =~= seq![
                        king_square(board_view(self.board), checking_player.spec_opponent()),
                    ]);
                }
                let cm = attack_moves(
                    &self.board,
                    &self.moves,
                    self.turn,
                    *checking_player,
                    &tiles,
                    false,
                    true,
                );
                if cm.len() > 0 {
                    Some(cm)
                } else {
                    None
                }
            },
        }
    }

    /// Given the checking moves found after the last executed move, returns
    /// the complete legal-reply set of the checked player, or None when the
    /// position gives no check.
    pub fn moves_left(&self, is_check: Option<Vec<Move>>) -> (r: Option<Vec<Move>>)
        requires
            (is_check matches Some(v) ==> v@.len() > 0 && forall|i: int|
                0 <= i < v@.len() ==> (#[trigger] v@[i]).spec_is_within_board()),
        ensures
            match is_check {
                Some(v) => (match r {
                    Some(w) => w@ == evade_spec(
                        board_view(self.board),
                        self.moves@,
                        self.turn,
                        v@,
                    ),
                    None => false,
                }),
                None => r is None,
            },
    {
        if let Some(checking_moves) = is_check {
            let ghost bs = board_view(self.board);
            let ghost mvs = self.moves@;
            let mut moves_left: Vec<Move> = Vec::new();

            let player = self.turn.opponent();
            let king_pos = checking_moves[0].to;
            let cands = Piece::King(player).possible_moves(&king_pos);
            proof {
                crate::piece::lemma_candidates_on_board(Piece::King(player), king_pos);
            }
            let mut j: usize = 0;
            while j < cands.len()
                invariant
                    j <= cands@.len(),
                    moves_left@ == collect_escapes(bs, mvs, self.turn, cands@.take(j as int)),
                decreases cands@.len() - j,
            {
                let m = cands[j];
                if m.is_valid_move(self, Some(&player)).is_ok() {
                    if self.is_check(&self.turn, Some(&m)).is_none() {
                        moves_left.push(m);
                    }
                }
                proof {
                    assert(cands@.take(j + 1).drop_last() =~= cands@.take(j as int));
                    assert(cands@.take(j + 1).last() == cands@[j as int]);
                    assert(moves_left@ =~= collect_escapes(bs, mvs, self.turn, cands@.take(j + 1)));
                }
                j = j + 1;
            }
            proof {
                assert(cands@.take(cands@.len() as int) =~= cands@);
            }

            if checking_moves.len() == 1 {
                let m0 = checking_moves[0];
                let path = self.find_path(&m0.from, &m0.to);
                let blocks = attack_moves(
                    &self.board,
                    &self.moves,
                    self.turn,
                    player,
                    &path,
                    true,
                    false,
                );
                proof {
                    lemma_board_attacks_within(bs, mvs, self.turn, player, 8, path@, true, false);
                }
                let mut safe_blocks = self.safe_replies(&blocks);
                moves_left.append(&mut safe_blocks);
                let mut checker_tile: Vec<(usize, usize)> = Vec::new();
                checker_tile.push(m0.from);
                proof {
                    assert(checker_tile@ =~= seq![m0.from]);
                }
                let captures = attack_moves(
                    &self.board,
                    &self.moves,
                    self.turn,
                    player,
                    &checker_tile,
                    false,
                    false,
                );
                proof {
                    lemma_board_attacks_within(
                        bs,
                        mvs,
                        self.turn,
                        player,
                        8,
                        checker_tile@,
                        false,
                        false,
                    );
                }
                let mut safe_captures = self.safe_replies(&captures);
                moves_left.append(&mut safe_captures);
                proof {
                    assert(moves_left@ =~= evade_spec(bs, mvs, self.turn, checking_moves@));
                }
            }
            Some(moves_left)
        } else {
            None
        }
    }

    /// Returns the candidate replies that leave the replying side's own
    /// king unattacked once played.
    fn safe_replies(&self, v: &Vec<Move>) -> (r: Vec<Move>)
        requires
            forall|i: int| 0 <= i < v@.len() ==> (#[trigger] v@[i]).spec_is_within_board(),
        ensures
            r@ == collect_safe(board_view(self.board), self.moves@, self.turn, v@),
    {
        let ghost bs = board_view(self.board);
        let ghost mvs = self.moves@;
        let mut r: Vec<Move> = Vec::new();
        let mut j: usize = 0;
        while j < v.len()
            invariant
                j <= v@.len(),
                r@ == collect_safe(bs, mvs, self.turn, v@.take(j as int)),
            decreases v@.len() - j,
        {
            let m = v[j];
            if self.is_check(&self.turn, Some(&m)).is_none() {
                r.push(m);
            }
            proof {
                assert(v@.take(j + 1).drop_last() =~= v@.take(j as int));
                assert(v@.take(j + 1).last() == v@[j as int]);
                assert(r@ =~= collect_safe(bs, mvs, self.turn, v@.take(j + 1)));
            }
            j = j + 1;
        }
        proof {
            assert(v@.take(v@.len() as int) =~= v@);
        }
        r
    }

    /// Returns the game state this position derives: Normal when the side
    /// that just moved gives no check, Checkmate when it does and the checked
    /// player has no reply, otherwise Check with the full legal-reply set.
    /// The result is a function of board, history and player to move alone.
    pub fn game_state(&self) -> (r: ChessState)
        ensures
            state_matches(board_view(self.board), self.moves@, self.turn, r),
    {
        proof {
            lemma_check_moves_within(
                board_view(self.board),
                self.moves@,
                self.turn,
                self.turn,
                None,
            );
        }
        let is_check = self.is_check(&self.turn, None);
        match self.moves_left(is_check) {
            Some(ml) => {
                if ml.len() == 0 {
                    ChessState::Checkmate
                } else {
                    ChessState::Check { checked_player: self.turn.opponent(), moves_left: ml }
                }
            },
            None => ChessState::Normal,
        }
    }
}

/// Replaces the content of one square.
pub(crate) fn put(board: &mut [[Option<Piece>; 8]; 8], s: (usize, usize), v: Option<Piece>)
    requires
        within_board(s),
    ensures
        board_view(*final(board)) == board_set(board_view(*old(board)), s, v),
{
    let mut row = board[s.0];
    row[s.1] = v;
    board[s.0] = row;
    proof {
        assert(board_view(*board) =~~= board_set(board_view(*old(board)), s, v));
    }
}

/// Returns the ordered squares strictly between two squares of a common
/// ray, nearest the origin first; empty when the squares share no ray.
pub(crate) fn path_squares(from: &(usize, usize), to: &(usize, usize)) -> (r: Vec<(usize, usize)>)
    requires
        within_board(*from),
        within_board(*to),
    ensures
        r@ == path_between(*from, *to),
{
    let mut r: Vec<(usize, usize)> = Vec::new();
    let dr = if to.0 >= from.0 {
        to.0 - from.0
    } else {
        from.0 - to.0
    };
    let dc = if to.1 >= from.1 {
        to.1 - from.1
    } else {
        from.1 - to.1
    };
    if (dr == 0 && dc == 0) || !(dr == 0 || dc == 0 || dr == dc) {
        assert(r@ =~= path_between(*from, *to));
        return r;
    }
    let dist = if dr > dc {
        dr
    } else {
        dc
    };
    let mut x = from.0;
    let mut y = from.1;
    let mut k: usize = 1;
    while k < dist
        invariant
            1 <= k <= dist,
            x == step_toward(from.0 as int, to.0 as int, k - 1),
            y == step_toward(from.1 as int, to.1 as int, k - 1),
            r@ == path_between(*from, *to).take(k - 1),
        decreases dist - k,
    {
        x = if to.0 > from.0 {
            x + 1
        } else if to.0 < from.0 {
            x - 1
        } else {
            x
        };
        y = if to.1 > from.1 {
            y + 1
        } else if to.1 < from.1 {
            y - 1
        } else {
            y
        };
        r.push((x, y));
        proof {
            assert(path_between(*from, *to).take(k as int) =~= path_between(*from, *to).take(
                k - 1,
            ).push(path_between(*from, *to)[k - 1]));
        }
        k = k + 1;
    }
    proof {
        assert(path_between(*from, *to).take(dist - 1) =~= path_between(*from, *to));
    }
    r
}

/// Returns whether every square strictly between two squares of a given
/// board is empty.
pub(crate) fn board_path_is_clear(
    board: &[[Option<Piece>; 8]; 8],
    from: &(usize, usize),
    to: &(usize, usize),
) -> (r: bool)
    requires
        within_board(*from),
        within_board(*to),
    ensures
        r == path_clear(board_view(*board), *from, *to),
{
    proof {
        lemma_path_within(*from, *to);
    }
    let path = path_squares(from, to);
    let mut k: usize = 0;
    while k < path.len()
        invariant
            k <= path@.len(),
            forall|i: int| 0 <= i < k ==> at(board_view(*board), #[trigger] path@[i]) is None,
        decreases path@.len() - k,
    {
        let (px, py) = path[k];
        if board[px][py].is_some() {
            return false;
        }
        k = k + 1;
    }
    true
}

/// Returns the square a full scan of the given board finds the king of a
/// side on; (0, 0) when the board holds none.
pub(crate) fn board_king(board: &[[Option<Piece>; 8]; 8], player: &Player) -> (r: (usize, usize))
    ensures
        r == king_square(board_view(*board), *player),
        within_board(r),
{
    let mut acc: (usize, usize) = (0, 0);
    let mut x: usize = 0;
    while x < 8
        invariant
            x <= 8,
            within_board(acc),
            acc == king_scan(board_view(*board), *player, x as int, (0usize, 0usize)),
        decreases 8 - x,
    {
        let mut y: usize = 0;
        while y < 8
            invariant
                x < 8,
                y <= 8,
                within_board(acc),
                acc == king_scan_row(
                    board_view(*board),
                    *player,
                    x as int,
                    y as int,
                    king_scan(board_view(*board), *player, x as int, (0usize, 0usize)),
                ),
            decreases 8 - y,
        {
            if board[x][y] == Some(Piece::King(*player)) {
                acc = (x, y);
            }
            y = y + 1;
        }
        x = x + 1;
    }
    acc
}

/// Returns whether a list of tiles holds a given tile.
pub(crate) fn tiles_contain(tiles: &Vec<(usize, usize)>, t: &(usize, usize)) -> (r: bool)
    ensures
        r == tiles@.contains(*t),
{
    let mut j: usize = 0;
    while j < tiles.len()
        invariant
            j <= tiles@.len(),
            forall|i: int| 0 <= i < j ==> tiles@[i] != *t,
        decreases tiles@.len() - j,
    {
        if tiles[j].0 == t.0 && tiles[j].1 == t.1 {
            return true;
        }
        j = j + 1;
    }
    false
}

/// Returns the candidate moves of the piece on one square that the attack
/// scan keeps.
fn square_attack_moves(
    board: &[[Option<Piece>; 8]; 8],
    mvs: &Vec<Move>,
    turn: Player,
    player: Player,
    p: Piece,
    x: usize,
    y: usize,
    tiles: &Vec<(usize, usize)>,
    block: bool,
) -> (r: Vec<Move>)
    requires
        x < 8,
        y < 8,
    ensures
        r@ == collect_attacks(
            board_view(*board),
            mvs@,
            turn,
            player,
            attack_candidates(p, (x, y)),
            tiles@,
            block,
        ),
{
    let ghost bs = board_view(*board);
    let mut r: Vec<Move> = Vec::new();
    let cands = p.attack_moves_from(&(x, y));
    proof {
        crate::piece::lemma_attack_candidates_on_board(p, (x, y));
    }
    let mut j: usize = 0;
    while j < cands.len()
        invariant
            j <= cands@.len(),
            r@ == collect_attacks(bs, mvs@, turn, player, cands@.take(j as int), tiles@, block),
        decreases cands@.len() - j,
    {
        let m = cands[j];
        let keep = match m.attack_validate(board, mvs, turn, player) {
            Ok(mt) => block || mt == MoveType::PawnEat || mt == MoveType::Other,
            Err(_) => false,
        };
        if keep && tiles_contain(tiles, &m.to) {
            r.push(m);
        }
        proof {
            assert(cands@.take(j + 1).drop_last() =~= cands@.take(j as int));
            assert(cands@.take(j + 1).last() == cands@[j as int]);
            assert(r@ =~= collect_attacks(bs, mvs@, turn, player, cands@.take(j + 1), tiles@, block));
        }
        j = j + 1;
    }
    proof {
        assert(cands@.take(cands@.len() as int) =~= cands@);
    }
    r
}

/// Returns every move of `player` that validates on the given position and
/// lands on one of the given tiles, scanning the board rank by rank. With
/// `block` moves of every kind are kept, otherwise only plain moves and pawn
/// captures. `with_king` admits the scanned side's king as a mover.
#[verifier::rlimit(100)]
pub(crate) fn attack_moves(
    board: &[[Option<Piece>; 8]; 8],
    mvs: &Vec<Move>,
    turn: Player,
    player: Player,
    tiles: &Vec<(usize, usize)>,
    block: bool,
    with_king: bool,
) -> (r: Vec<Move>)
    ensures
        r@ == can_move_spec(board_view(*board), mvs@, turn, player, tiles@, block, with_king),
{
    let ghost bs = board_view(*board);
    let mut r: Vec<Move> = Vec::new();
    let mut x: usize = 0;
    while x < 8
        invariant
            x <= 8,
            r@ == board_attacks(bs, mvs@, turn, player, x as int, tiles@, block, with_king),
        decreases 8 - x,
    {
        let mut y: usize = 0;
        while y < 8
            invariant
                x < 8,
                y <= 8,
                r@ == board_attacks(bs, mvs@, turn, player, x as int, tiles@, block, with_king)
                    + row_attacks(bs, mvs@, turn, player, x as int, y as int, tiles@, block, with_king),
            decreases 8 - y,
        {
            if let Some(p) = board[x][y] {
                let is_attacker = match p {
                    Piece::King(_) => with_king && Player::find_player(&p) == player,
                    _ => Player::find_player(&p) == player,
                };
                if is_attacker {
                    let mut kept = square_attack_moves(board, mvs, turn, player, p, x, y, tiles, block);
                    r.append(&mut kept);
                }
            }
            proof {
                assert(r@ =~= board_attacks(bs, mvs@, turn, player, x as int, tiles@, block, with_king)
                    + row_attacks(bs, mvs@, turn, player, x as int, y + 1, tiles@, block, with_king));
            }
            y = y + 1;
        }
        proof {
            assert(r@ =~= board_attacks(bs, mvs@, turn, player, x + 1, tiles@, block, with_king));
        }
        x = x + 1;
    }
    r
}

/// Every move an attack scan keeps lies on the board.
proof fn lemma_collect_attacks_within(
    bs: Seq<Seq<Option<Piece>>>,
    mvs: Seq<Move>,
    turn: Player,
    player: Player,
    cands: Seq<Move>,
    tiles: Seq<(usize, usize)>,
    block: bool,
)
    requires
        forall|i: int| 0 <= i < cands.len() ==> (#[trigger] cands[i]).spec_is_within_board(),
    ensures
        forall|i: int|
            0 <= i < collect_attacks(bs, mvs, turn, player, cands, tiles, block).len() ==> (
            #[trigger] collect_attacks(bs, mvs, turn, player, cands, tiles, block)[i])
                .spec_is_within_board(),
    decreases cands.len(),
{
    if cands.len() > 0 {
        assert forall|i: int| 0 <= i < cands.drop_last().len() implies (#[trigger] cands.drop_last()[i])
            .spec_is_within_board() by {
            assert(cands.drop_last()[i] == cands[i]);
        }
        lemma_collect_attacks_within(bs, mvs, turn, player, cands.drop_last(), tiles, block);
        let s = collect_attacks(bs, mvs, turn, player, cands, tiles, block);
        let sd = collect_attacks(bs, mvs, turn, player, cands.drop_last(), tiles, block);
        assert forall|i: int| 0 <= i < s.len() implies (#[trigger] s[i]).spec_is_within_board() by {
            if i < sd.len() {
                assert(s[i] == sd[i]);
            } else {
                assert(s[i] == cands.last());
                assert(cands.last() == cands[cands.len() - 1]);
            }
        }
    }
}

/// Every move the rank-by-rank attack scan returns lies on the board.
proof fn lemma_board_attacks_within(
    bs: Seq<Seq<Option<Piece>>>,
    mvs: Seq<Move>,
    turn: Player,
    player: Player,
    xn: int,
    tiles: Seq<(usize, usize)>,
    block: bool,
    with_king: bool,
)
    requires
        xn <= 8,
    ensures
        forall|i: int|
            0 <= i < board_attacks(bs, mvs, turn, player, xn, tiles, block, with_king).len() ==> (
            #[trigger] board_attacks(bs, mvs, turn, player, xn, tiles, block, with_king)[i])
                .spec_is_within_board(),
    decreases xn,
{
    if xn > 0 {
        lemma_board_attacks_within(bs, mvs, turn, player, xn - 1, tiles, block, with_king);
        lemma_row_attacks_within(bs, mvs, turn, player, xn - 1, 8, tiles, block, with_king);
        let s = board_attacks(bs, mvs, turn, player, xn, tiles, block, with_king);
        let s1 = board_attacks(bs, mvs, turn, player, xn - 1, tiles, block, with_king);
        let s2 = row_attacks(bs, mvs, turn, player, xn - 1, 8, tiles, block, with_king);
        assert forall|i: int| 0 <= i < s.len() implies (#[trigger] s[i]).spec_is_within_board() by {
            if i < s1.len() {
                assert(s[i] == s1[i]);
            } else {
                assert(s[i] == s2[i - s1.len()]);
            }
        }
    }
}

/// Every move the scan of one rank keeps lies on the board.
proof fn lemma_row_attacks_within(
    bs: Seq<Seq<Option<Piece>>>,
    mvs: Seq<Move>,
    turn: Player,
    player: Player,
    x: int,
    yn: int,
    tiles: Seq<(usize, usize)>,
    block: bool,
    with_king: bool,
)
    requires
        0 <= x < 8,
        yn <= 8,
    ensures
        forall|i: int|
            0 <= i < row_attacks(bs, mvs, turn, player, x, yn, tiles, block, with_king).len() ==> (
            #[trigger] row_attacks(bs, mvs, turn, player, x, yn, tiles, block, with_king)[i])
                .spec_is_within_board(),
    decreases yn,
{
    if yn > 0 {
        lemma_row_attacks_within(bs, mvs, turn, player, x, yn - 1, tiles, block, with_king);
        let s = row_attacks(bs, mvs, turn, player, x, yn, tiles, block, with_king);
        let s1 = row_attacks(bs, mvs, turn, player, x, yn - 1, tiles, block, with_king);
        let s2 = square_attacks(bs, mvs, turn, player, x, yn - 1, tiles, block, with_king);
        match bs[x][yn - 1] {
            Some(p) => {
                if p.owner() == player && (with_king || !(p is King)) {
                    let from = (x as usize, (yn - 1) as usize);
                    crate::piece::lemma_attack_candidates_on_board(p, from);
                    lemma_collect_attacks_within(
                        bs,
                        mvs,
                        turn,
                        player,
                        attack_candidates(p, from),
                        tiles,
                        block,
                    );
                }
            },
            None => {},
        }
        assert forall|i: int| 0 <= i < s.len() implies (#[trigger] s[i]).spec_is_within_board() by {
            if i < s1.len() {
                assert(s[i] == s1[i]);
            } else {
                assert(s[i] == s2[i - s1.len()]);
            }
        }
    }
}

/// Every checking move a check scan returns lies on the board.
proof fn lemma_check_moves_within(
    bs: Seq<Seq<Option<Piece>>>,
    mvs: Seq<Move>,
    turn: Player,
    checking_player: Player,
    test: Option<Move>,
)
    ensures
        forall|i: int|
            0 <= i < check_moves_spec(bs, mvs, turn, checking_player, test).len() ==> (
            #[trigger] check_moves_spec(bs, mvs, turn, checking_player, test)[i])
                .spec_is_within_board(),
{
    match test {
        Some(m) => {
            let bs2 = board_set(board_set(bs, m.from, None), m.to, Some(m.piece));
            lemma_board_attacks_within(
                bs2,
                mvs,
                turn,
                checking_player,
                8,
                seq![king_square(bs2, checking_player.spec_opponent())],
                false,
                true,
            );
        },
        None => {
            lemma_board_attacks_within(
                bs,
                mvs,
                turn,
                checking_player,
                8,
                seq![king_square(bs, checking_player.spec_opponent())],
                false,
                true,
            );
        },
    }
}

/// Whether a move is an attack the scan must report: its origin holds a
/// piece of `player` (its king only when `with_king`), the move is among
/// that piece's attack candidates, and the scan keeps it — it validates and
/// lands on one of the tiles.
pub open spec fn is_kept_attack(
    bs: Seq<Seq<Option<Piece>>>,
    mvs: Seq<Move>,
    turn: Player,
    player: Player,
    tiles: Seq<(usize, usize)>,
    block: bool,
    with_king: bool,
    m: Move,
) -> bool {
    &&& within_board(m.from)
    &&& match at(bs, m.from) {
        Some(p) => p.owner() == player && (with_king || !(p is King)) && attack_candidates(
            p,
            m.from,
        ).contains(m),
        None => false,
    }
    &&& attack_keeps(bs, mvs, turn, player, m, tiles, block)
}

/// A move is kept out of a candidate sequence exactly when it is one of the
/// candidates and the scan keeps it.
proof fn lemma_collect_attacks_contains(
    bs: Seq<Seq<Option<Piece>>>,
    mvs: Seq<Move>,
    turn: Player,
    player: Player,
    cands: Seq<Move>,
    tiles: Seq<(usize, usize)>,
    block: bool,
    m: Move,
)
    ensures
        collect_attacks(bs, mvs, turn, player, cands, tiles, block).contains(m) <==> (
        cands.contains(m) && attack_keeps(bs, mvs, turn, player, m, tiles, block)),
    decreases cands.len(),
{
    if cands.len() > 0 {
        lemma_collect_attacks_contains(bs, mvs, turn, player, cands.drop_last(), tiles, block, m);
        let s = collect_attacks(bs, mvs, turn, player, cands, tiles, block);
        let sd = collect_attacks(bs, mvs, turn, player, cands.drop_last(), tiles, block);
        if s.contains(m) {
            let i = choose|i: int| 0 <= i < s.len() && s[i] == m;
            if i < sd.len() {
                assert(sd[i] == m);
                assert(sd.contains(m));
                let w = choose|w: int| 0 <= w < cands.drop_last().len() && cands.drop_last()[w]
                    == m;
                assert(cands[w] == m);
            } else {
                assert(m == cands.last());
                assert(cands[cands.len() - 1] == m);
            }
        }
        if cands.contains(m) && attack_keeps(bs, mvs, turn, player, m, tiles, block) {
            let i = choose|i: int| 0 <= i < cands.len() && cands[i] == m;
            if i < cands.len() - 1 {
                assert(cands.drop_last()[i] == m);
                assert(cands.drop_last().contains(m));
                let w = choose|w: int| 0 <= w < sd.len() && sd[w] == m;
                assert(s[w] == m);
            } else {
                assert(cands.last() == m);
                assert(s[sd.len() as int] == m);
            }
            assert(s.contains(m));
        }
    }
}

/// A move is kept by the scan of one rank exactly when one of its squares
/// contributes it.
proof fn lemma_row_attacks_contains(
    bs: Seq<Seq<Option<Piece>>>,
    mvs: Seq<Move>,
    turn: Player,
    player: Player,
    x: int,
    yn: int,
    tiles: Seq<(usize, usize)>,
    block: bool,
    with_king: bool,
    m: Move,
)
    ensures
        row_attacks(bs, mvs, turn, player, x, yn, tiles, block, with_king).contains(m) <==> exists|
            y: int,
        |
            0 <= y < yn && #[trigger] square_attacks(
                bs,
                mvs,
                turn,
                player,
                x,
                y,
                tiles,
                block,
                with_king,
            ).contains(m),
    decreases yn,
{
    if yn > 0 {
        lemma_row_attacks_contains(bs, mvs, turn, player, x, yn - 1, tiles, block, with_king, m);
        let s = row_attacks(bs, mvs, turn, player, x, yn, tiles, block, with_king);
        let s1 = row_attacks(bs, mvs, turn, player, x, yn - 1, tiles, block, with_king);
        let s2 = square_attacks(bs, mvs, turn, player, x, yn - 1, tiles, block, with_king);
        if s.contains(m) {
            let i = choose|i: int| 0 <= i < s.len() && s[i] == m;
            if i < s1.len() {
                assert(s1[i] == m);
                assert(s1.contains(m));
            } else {
                assert(s2[i - s1.len()] == m);
                assert(s2.contains(m));
            }
        }
        if exists|y: int|
            0 <= y < yn && #[trigger] square_attacks(
                bs,
                mvs,
                turn,
                player,
                x,
                y,
                tiles,
                block,
                with_king,
            ).contains(m) {
            let y = choose|y: int|
                0 <= y < yn && #[trigger] square_attacks(
                    bs,
                    mvs,
                    turn,
                    player,
                    x,
                    y,
                    tiles,
                    block,
                    with_king,
                ).contains(m);
            if y < yn - 1 {
                assert(s1.contains(m));
                let w = choose|w: int| 0 <= w < s1.len() && s1[w] == m;
                assert(s[w] == m);
            } else {
                let w = choose|w: int| 0 <= w < s2.len() && s2[w] == m;
                assert(s[s1.len() + w] == m);
            }
            assert(s.contains(m));
        }
    }
}

/// A move is kept by the scan of the first xn ranks exactly when one of
/// their squares contributes it.
proof fn lemma_board_attacks_contains(
    bs: Seq<Seq<Option<Piece>>>,
    mvs: Seq<Move>,
    turn: Player,
    player: Player,
    xn: int,
    tiles: Seq<(usize, usize)>,
    block: bool,
    with_king: bool,
    m: Move,
)
    ensures
        board_attacks(bs, mvs, turn, player, xn, tiles, block, with_king).contains(m) <==> exists|
            x: int,
            y: int,
        |
            0 <= x < xn && 0 <= y < 8 && #[trigger] square_attacks(
                bs,
                mvs,
                turn,
                player,
                x,
                y,
                tiles,
                block,
                with_king,
            ).contains(m),
    decreases xn,
{
    if xn > 0 {
        lemma_board_attacks_contains(bs, mvs, turn, player, xn - 1, tiles, block, with_king, m);
        lemma_row_attacks_contains(bs, mvs, turn, player, xn - 1, 8, tiles, block, with_king, m);
        let s = board_attacks(bs, mvs, turn, player, xn, tiles, block, with_king);
        let s1 = board_attacks(bs, mvs, turn, player, xn - 1, tiles, block, with_king);
        let s2 = row_attacks(bs, mvs, turn, player, xn - 1, 8, tiles, block, with_king);
        if s.contains(m) {
            let i = choose|i: int| 0 <= i < s.len() && s[i] == m;
            if i < s1.len() {
                assert(s1[i] == m);
                assert(s1.contains(m));
            } else {
                assert(s2[i - s1.len()] == m);
                assert(s2.contains(m));
            }
        }
        if exists|x: int, y: int|
            0 <= x < xn && 0 <= y < 8 && #[trigger] square_attacks(
                bs,
                mvs,
                turn,
                player,
                x,
                y,
                tiles,
                block,
                with_king,
            ).contains(m) {
            let (x, y) = choose|x: int, y: int|
                0 <= x < xn && 0 <= y < 8 && #[trigger] square_attacks(
                    bs,
                    mvs,
                    turn,
                    player,
                    x,
                    y,
                    tiles,
                    block,
                    with_king,
                ).contains(m);
            if x < xn - 1 {
                assert(s1.contains(m));
                let w = choose|w: int| 0 <= w < s1.len() && s1[w] == m;
                assert(s[w] == m);
            } else {
                assert(s2.contains(m));
                let w = choose|w: int| 0 <= w < s2.len() && s2[w] == m;
                assert(s[s1.len() + w] == m);
            }
            assert(s.contains(m));
        }
    }
}

/// The attack scan reports a move exactly when it is a kept attack: its
/// origin holds a piece of the scanned player (its king only when the scan
/// admits kings), the move is among that piece's attack candidates, it
/// validates, and it lands on one of the tiles.
pub proof fn lemma_can_move_characterization(
    bs: Seq<Seq<Option<Piece>>>,
    mvs: Seq<Move>,
    turn: Player,
    player: Player,
    tiles: Seq<(usize, usize)>,
    block: bool,
    with_king: bool,
    m: Move,
)
    ensures
        can_move_spec(bs, mvs, turn, player, tiles, block, with_king).contains(m)
            <==> is_kept_attack(bs, mvs, turn, player, tiles, block, with_king, m),
{
    lemma_board_attacks_contains(bs, mvs, turn, player, 8, tiles, block, with_king, m);
    if can_move_spec(bs, mvs, turn, player, tiles, block, with_king).contains(m) {
        let (x, y) = choose|x: int, y: int|
            0 <= x < 8 && 0 <= y < 8 && #[trigger] square_attacks(
                bs,
                mvs,
                turn,
                player,
                x,
                y,
                tiles,
                block,
                with_king,
            ).contains(m);
        let from = (x as usize, y as usize);
        match bs[x][y] {
            Some(p) => {
                lemma_collect_attacks_contains(
                    bs,
                    mvs,
                    turn,
                    player,
                    attack_candidates(p, from),
                    tiles,
                    block,
                    m,
                );
                crate::piece::lemma_attack_candidates_on_board(p, from);
                let w = choose|w: int|
                    0 <= w < attack_candidates(p, from).len() && attack_candidates(p, from)[w]
                        == m;
                assert(m.from == from);
            },
            None => {},
        }
    }
    if is_kept_attack(bs, mvs, turn, player, tiles, block, with_king, m) {
        let x = m.from.0 as int;
        let y = m.from.1 as int;
        match bs[x][y] {
            Some(p) => {
                lemma_collect_attacks_contains(
                    bs,
                    mvs,
                    turn,
                    player,
                    attack_candidates(p, m.from),
                    tiles,
                    block,
                    m,
                );
                assert(square_attacks(bs, mvs, turn, player, x, y, tiles, block, with_king)
                    .contains(m));
            },
            None => {},
        }
    }
}

/// A position gives check exactly when some kept attack of the checking
/// player lands on the opposing king's square.
pub proof fn lemma_check_iff_king_attacked(
    bs: Seq<Seq<Option<Piece>>>,
    mvs: Seq<Move>,
    turn: Player,
    checking_player: Player,
)
    ensures
        check_moves_spec(bs, mvs, turn, checking_player, None).len() > 0 <==> exists|m: Move|
            #[trigger] is_kept_attack(
                bs,
                mvs,
                turn,
                checking_player,
                seq![king_square(bs, checking_player.spec_opponent())],
                false,
                true,
                m,
            ),
{
    let tiles = seq![king_square(bs, checking_player.spec_opponent())];
    let s = check_moves_spec(bs, mvs, turn, checking_player, None);
    if s.len() > 0 {
        assert(s.contains(s[0]));
        lemma_can_move_characterization(bs, mvs, turn, checking_player, tiles, false, true, s[0]);
    }
    if exists|m: Move|
        #[trigger] is_kept_attack(bs, mvs, turn, checking_player, tiles, false, true, m) {
        let m = choose|m: Move|
            #[trigger] is_kept_attack(bs, mvs, turn, checking_player, tiles, false, true, m);
        lemma_can_move_characterization(bs, mvs, turn, checking_player, tiles, false, true, m);
        assert(s.contains(m));
    }
}

/// A rook standing on the same rank or file as the opposing king, with
/// every square between them empty, gives check: the check scan reports at
/// least one attack on the king's square.
pub proof fn lemma_rook_gives_check(
    bs: Seq<Seq<Option<Piece>>>,
    mvs: Seq<Move>,
    turn: Player,
    attacker: Player,
    rsq: (usize, usize),
    ksq: (usize, usize),
)
    requires
        within_board(rsq),
        within_board(ksq),
        rsq != ksq,
        rsq.0 == ksq.0 || rsq.1 == ksq.1,
        at(bs, rsq) == Some(Piece::Rook(attacker)),
        at(bs, ksq) == Some(Piece::King(attacker.spec_opponent())),
        path_clear(bs, rsq, ksq),
        king_square(bs, attacker.spec_opponent()) == ksq,
    ensures
        check_moves_spec(bs, mvs, turn, attacker, None).len() > 0,
{
    let m = Move { piece: Piece::Rook(attacker), from: rsq, to: ksq };
    let i = lemma_straight_offset_index(rsq, ksq);
    lemma_candidates_from_contains(Piece::Rook(attacker), rsq, straight_offsets(), i);
    assert(candidates(Piece::Rook(attacker), rsq).contains(m));
    assert(attack_candidates(Piece::Rook(attacker), rsq).contains(m));
    assert(valid_attack_spec(bs, mvs, turn, m, attacker) == Ok::<MoveType, ChessError>(
        MoveType::Other,
    ));
    let tiles = seq![ksq];
    assert(tiles[0] == ksq);
    assert(tiles.contains(ksq));
    assert(is_kept_attack(bs, mvs, turn, attacker, tiles, false, true, m));
    lemma_can_move_characterization(bs, mvs, turn, attacker, tiles, false, true, m);
    let s = check_moves_spec(bs, mvs, turn, attacker, None);
    assert(s.contains(m));
}

/// Pin enforcement: when a piece stands alone between its own king and an
/// aligned opposing rook, any of its moves that leaves that line uncovers
/// the king — the rook checks on the board the move would leave behind, so
/// the self-check guard of `process_move` answers KingCompromised.
pub proof fn lemma_pin_enforced(
    bs: Seq<Seq<Option<Piece>>>,
    mvs: Seq<Move>,
    turn: Player,
    rsq: (usize, usize),
    ksq: (usize, usize),
    j: int,
    m: Move,
)
    requires
        board_wf(bs),
        within_board(rsq),
        within_board(ksq),
        within_board(m.to),
        rsq != ksq,
        rsq.0 == ksq.0 || rsq.1 == ksq.1,
        at(bs, rsq) == Some(Piece::Rook(turn.spec_opponent())),
        at(bs, ksq) == Some(Piece::King(turn)),
        forall|x: int, y: int|
            0 <= x < 8 && 0 <= y < 8 && !(x == ksq.0 as int && y == ksq.1 as int)
                ==> #[trigger] bs[x][y] != Some(Piece::King(turn)),
        0 <= j < path_between(rsq, ksq).len(),
        m.from == path_between(rsq, ksq)[j],
        forall|k: int|
            0 <= k < path_between(rsq, ksq).len() && k != j ==> at(
                bs,
                #[trigger] path_between(rsq, ksq)[k],
            ) is None,
        m.piece != Piece::King(turn),
        m.to != rsq,
        m.to != ksq,
        forall|k: int|
            0 <= k < path_between(rsq, ksq).len() ==> m.to != #[trigger] path_between(rsq, ksq)[k],
    ensures
        check_moves_spec(bs, mvs, turn, turn.spec_opponent(), Some(m)).len() > 0,
{
    let attacker = turn.spec_opponent();
    let path = path_between(rsq, ksq);
    let bs2 = board_set(board_set(bs, m.from, None), m.to, Some(m.piece));
    lemma_path_within(rsq, ksq);
    lemma_path_distinct(rsq, ksq);
    lemma_board_set_at(bs, m.from, None, m.to);
    let bs1 = board_set(bs, m.from, None);

    assert(at(bs2, rsq) == Some(Piece::Rook(attacker))) by {
        lemma_board_set_at(bs, m.from, None, rsq);
        lemma_board_set_at(bs1, m.to, Some(m.piece), rsq);
    }
    assert(at(bs2, ksq) == Some(Piece::King(turn))) by {
        lemma_board_set_at(bs, m.from, None, ksq);
        lemma_board_set_at(bs1, m.to, Some(m.piece), ksq);
    }
    assert forall|k: int| 0 <= k < path.len() implies at(bs2, #[trigger] path[k]) is None by {
        lemma_board_set_at(bs, m.from, None, path[k]);
        lemma_board_set_at(bs1, m.to, Some(m.piece), path[k]);
        if k != j {
            assert(path[k] != path[j]);
        }
    }
    assert(path_clear(bs2, rsq, ksq));

    assert(king_square(bs2, turn) == ksq) by {
        assert(at(bs2, ksq) == Some(Piece::King(turn)));
        assert forall|x: int, y: int|
            0 <= x < 8 && 0 <= y < 8 && !(x == ksq.0 as int && y == ksq.1 as int)
                implies #[trigger] bs2[x][y] != Some(Piece::King(turn)) by {
            let t = (x as usize, y as usize);
            lemma_board_set_at(bs, m.from, None, t);
            lemma_board_set_at(bs1, m.to, Some(m.piece), t);
            assert(at(bs2, t) == bs2[x][y]);
        }
        lemma_king_square_unique(bs2, turn, ksq);
    }

    lemma_rook_gives_check(bs2, mvs, turn, attacker, rsq, ksq);
    assert(attacker.spec_opponent() == turn);
}

/// On a board with every square empty, the path of every move between board
/// squares is clear — in particular of every ray-aligned one.
pub proof fn lemma_path_clear_on_empty_board(
    bs: Seq<Seq<Option<Piece>>>,
    from: (usize, usize),
    to: (usize, usize),
)
    requires
        within_board(from),
        within_board(to),
        forall|x: int, y: int| 0 <= x < 8 && 0 <= y < 8 ==> #[trigger] bs[x][y] is None,
    ensures
        path_clear(bs, from, to),
{
    lemma_path_within(from, to);
    assert forall|k: int| 0 <= k < path_between(from, to).len() implies at(
        bs,
        #[trigger] path_between(from, to)[k],
    ) is None by {
        let s = path_between(from, to)[k];
        assert(within_board(s));
        assert(bs[s.0 as int][s.1 as int] is None);
    }
}

/// In a double check the legal-reply set holds king moves alone: every
/// reply moves the checked king from its square.
pub proof fn lemma_double_check_only_escapes(
    bs: Seq<Seq<Option<Piece>>>,
    mvs: Seq<Move>,
    turn: Player,
    checking: Seq<Move>,
)
    requires
        checking.len() > 1,
    ensures
        forall|i: int|
            0 <= i < evade_spec(bs, mvs, turn, checking).len() ==> {
                let m = #[trigger] evade_spec(bs, mvs, turn, checking)[i];
                m.piece == Piece::King(turn.spec_opponent()) && m.from == checking[0].to
            },
{
    let defender = turn.spec_opponent();
    let cands = candidates(Piece::King(defender), checking[0].to);
    crate::piece::lemma_candidates_on_board(Piece::King(defender), checking[0].to);
    lemma_collect_escapes_sub(bs, mvs, turn, cands);
}

/// Every kept king escape is one of the candidate king moves it was chosen
/// from.
proof fn lemma_collect_escapes_sub(
    bs: Seq<Seq<Option<Piece>>>,
    mvs: Seq<Move>,
    turn: Player,
    cands: Seq<Move>,
)
    ensures
        forall|i: int|
            0 <= i < collect_escapes(bs, mvs, turn, cands).len() ==> cands.contains(
                #[trigger] collect_escapes(bs, mvs, turn, cands)[i],
            ),
    decreases cands.len(),
{
    if cands.len() > 0 {
        lemma_collect_escapes_sub(bs, mvs, turn, cands.drop_last());
        assert forall|i: int| 0 <= i < collect_escapes(bs, mvs, turn, cands).len() implies cands
            .contains(collect_escapes(bs, mvs, turn, cands)[i]) by {
            let s = collect_escapes(bs, mvs, turn, cands);
            let sd = collect_escapes(bs, mvs, turn, cands.drop_last());
            if i < sd.len() {
                assert(cands.drop_last().contains(sd[i]));
                let w = choose|w: int| 0 <= w < cands.drop_last().len() && cands.drop_last()[w]
                    == sd[i];
                assert(cands[w] == sd[i]);
            } else {
                assert(s[i] == cands.last());
            }
        }
    }
}


} // verus!
