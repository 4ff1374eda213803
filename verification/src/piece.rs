use vstd::prelude::*;

use crate::moves::Move;
use crate::player::Player;

verus! {

/// A piece, tagged with the side that owns it.
#[derive(Debug, Clone, Copy, PartialEq, Eq, Hash, Structural)]
pub enum Piece {
    Pawn(Player),
    Bishob(Player),
    Knight(Player),
    Rook(Player),
    Queen(Player),
    King(Player),
}

/// A square, given as (rank, file), lies on the board when both parts are
/// below eight.
pub open spec fn within_board(s: (usize, usize)) -> bool {
    s.0 < 8 && s.1 < 8
}

/// One sliding ray: one to seven steps in the direction (dx, dy).
pub open spec fn ray_offsets(dx: int, dy: int) -> Seq<(i8, i8)> {
    Seq::new(7, |k: int| (((k + 1) * dx) as i8, ((k + 1) * dy) as i8))
}

/// The four diagonal rays, in the order a bishop generates them.
pub open spec fn diagonal_offsets() -> Seq<(i8, i8)> {
    ray_offsets(1, 1) + ray_offsets(1, -1) + ray_offsets(-1, -1) + ray_offsets(-1, 1)
}

/// The four straight rays, in the order a rook generates them.
pub open spec fn straight_offsets() -> Seq<(i8, i8)> {
    ray_offsets(1, 0) + ray_offsets(-1, 0) + ray_offsets(0, 1) + ray_offsets(0, -1)
}

/// The square an offset lands on from a given origin, when it stays on the
/// board.
pub open spec fn shifted(from: (usize, usize), off: (i8, i8)) -> Option<(usize, usize)> {
    let r = from.0 as int + off.0 as int;
    let c = from.1 as int + off.1 as int;
    if 0 <= r < 8 && 0 <= c < 8 {
        Some((r as usize, c as usize))
    } else {
        None
    }
}

/// The candidate moves a piece generates from a square out of a sequence of
/// offsets: one move for each offset whose landing square stays on the board,
/// in offset order.
pub open spec fn candidates_from(p: Piece, from: (usize, usize), offs: Seq<(i8, i8)>) -> Seq<Move>
    decreases offs.len(),
{
    if offs.len() == 0 {
        Seq::<Move>::empty()
    } else {
        candidates_from(p, from, offs.drop_last()) + (match shifted(from, offs.last()) {
            Some(to) => seq![Move { piece: p, from, to }],
            None => Seq::<Move>::empty(),
        })
    }
}

/// All candidate moves of a piece from a square.
pub open spec fn candidates(p: Piece, from: (usize, usize)) -> Seq<Move> {
    candidates_from(p, from, p.offsets())
}

/// The offsets a piece attacks along: every piece uses its candidate
/// offsets, but a king attacks only with its eight unit steps, never with
/// the two castling jumps.
pub open spec fn attack_offsets(p: Piece) -> Seq<(i8, i8)> {
    match p {
        Piece::King(_) => p.offsets().take(8),
        _ => p.offsets(),
    }
}

/// The candidate moves a piece can attack with from a square.
pub open spec fn attack_candidates(p: Piece, from: (usize, usize)) -> Seq<Move> {
    candidates_from(p, from, attack_offsets(p))
}

impl Piece {
    /// The side this piece belongs to.
    pub open spec fn owner(self) -> Player {
        match self {
            Piece::Pawn(p) => p,
            Piece::Bishob(p) => p,
            Piece::Knight(p) => p,
            Piece::Rook(p) => p,
            Piece::Queen(p) => p,
            Piece::King(p) => p,
        }
    }

    /// The candidate offsets of this piece: jumps for pawn, knight and king
    /// (the king's include the two castling jumps, the pawn's the double
    /// push and the two diagonal captures), rays for the sliding pieces.
    pub open spec fn offsets(self) -> Seq<(i8, i8)> {
        match self {
            Piece::Pawn(Player::White) => seq![(1i8, 0i8), (1i8, 1i8), (1i8, -1i8), (2i8, 0i8)],
            Piece::Pawn(Player::Black) => seq![
                (-1i8, 0i8),
                (-1i8, 1i8),
                (-1i8, -1i8),
                (-2i8, 0i8),
            ],
            Piece::Rook(_) => straight_offsets(),
            Piece::Knight(_) => seq![
                (2i8, 1i8),
                (2i8, -1i8),
                (-2i8, 1i8),
                (-2i8, -1i8),
                (1i8, -2i8),
                (-1i8, -2i8),
                (1i8, 2i8),
                (-1i8, 2i8),
            ],
            Piece::Bishob(_) => diagonal_offsets(),
            Piece::Queen(_) => diagonal_offsets() + straight_offsets(),
            Piece::King(_) => seq![
                (1i8, 0i8),
                (0i8, 1i8),
                (1i8, 1i8),
                (-1i8, 0i8),
                (0i8, -1i8),
                (-1i8, -1i8),
                (-1i8, 1i8),
                (1i8, -1i8),
                (0i8, 2i8),
                (0i8, -2i8),
            ],
        }
    }

    /// Returns this piece's candidate offsets.
    pub fn moves(&self) -> (r: Vec<(i8, i8)>)
        ensures
            r@ == self.offsets(),
    {
        let mut r: Vec<(i8, i8)> = Vec::new();
        match self {
            Piece::Pawn(p) => match p {
                Player::White => {
                    r.push((1, 0));
                    r.push((1, 1));
                    r.push((1, -1));
                    r.push((2, 0));
                },
                Player::Black => {
                    r.push((-1, 0));
                    r.push((-1, 1));
                    r.push((-1, -1));
                    r.push((-2, 0));
                },
            },
            Piece::Rook(_) => {
                push_straights(&mut r);
            },
            Piece::Knight(_) => {
                r.push((2, 1));
                r.push((2, -1));
                r.push((-2, 1));
                r.push((-2, -1));
                r.push((1, -2));
                r.push((-1, -2));
                r.push((1, 2));
                r.push((-1, 2));
            },
            Piece::Bishob(_) => {
                push_diagonals(&mut r);
            },
            Piece::Queen(_) => {
                push_diagonals(&mut r);
                push_straights(&mut r);
            },
            Piece::King(_) => {
                r.push((1, 0));
                r.push((0, 1));
                r.push((1, 1));
                r.push((-1, 0));
                r.push((0, -1));
                r.push((-1, -1));
                r.push((-1, 1));
                r.push((1, -1));
                r.push((0, 2));
                r.push((0, -2));
            },
        }
        proof {
            assert(r@ =~= self.offsets());
        }
        r
    }

    /// Returns the candidate moves of this piece from a square: one move per
    /// offset that stays on the board. Their legality is resolved downstream.
    pub fn possible_moves(&self, from: &(usize, usize)) -> (r: Vec<Move>)
        requires
            within_board(*from),
        ensures
            r@ == candidates(*self, *from),
    {
        let offs = self.moves();
        let mut r: Vec<Move> = Vec::new();
        let mut j: usize = 0;
        while j < offs.len()
            invariant
                j <= offs@.len(),
                r@ == candidates_from(*self, *from, offs@.take(j as int)),
            decreases offs@.len() - j,
        {
            let off = offs[j];
            let tx: i16 = from.0 as i16 + off.0 as i16;
            let ty: i16 = from.1 as i16 + off.1 as i16;
            if 0 <= tx && tx < 8 && 0 <= ty && ty < 8 {
                r.push(Move { piece: *self, from: *from, to: (tx as usize, ty as usize) });
            }
            proof {
                assert(offs@.take(j + 1).drop_last() =~= offs@.take(j as int));
                assert(offs@.take(j + 1).last() == offs@[j as int]);
            }
            j = j + 1;
        }
        proof {
            assert(offs@.take(offs@.len() as int) =~= offs@);
        }
        r
    }

    /// Returns the candidate moves this piece can attack with from a square:
    /// as `possible_moves`, but a king's two castling jumps are left out.
    pub fn attack_moves_from(&self, from: &(usize, usize)) -> (r: Vec<Move>)
        requires
            within_board(*from),
        ensures
            r@ == attack_candidates(*self, *from),
    {
        let offs = self.moves();
        let limit: usize = match self {
            Piece::King(_) => {
                proof {
                    assert(self.offsets().len() == 10);
                }
                8
            },
            _ => offs.len(),
        };
        let mut r: Vec<Move> = Vec::new();
        let mut j: usize = 0;
        while j < limit
            invariant
                j <= limit <= offs@.len(),
                r@ == candidates_from(*self, *from, offs@.take(j as int)),
            decreases limit - j,
        {
            let off = offs[j];
            let tx: i16 = from.0 as i16 + off.0 as i16;
            let ty: i16 = from.1 as i16 + off.1 as i16;
            if 0 <= tx && tx < 8 && 0 <= ty && ty < 8 {
                r.push(Move { piece: *self, from: *from, to: (tx as usize, ty as usize) });
            }
            proof {
                assert(offs@.take(j + 1).drop_last() =~= offs@.take(j as int));
                assert(offs@.take(j + 1).last() == offs@[j as int]);
            }
            j = j + 1;
        }
        proof {
            assert(offs@.take(limit as int) =~= attack_offsets(*self));
        }
        r
    }

    /// Returns the six pieces of a side, pawn first, king last.
    pub fn get_pieces(p: &Player) -> (r: [Piece; 6])
        ensures
            r@ == seq![
                Piece::Pawn(*p),
                Piece::Bishob(*p),
                Piece::Knight(*p),
                Piece::Rook(*p),
                Piece::Queen(*p),
                Piece::King(*p),
            ],
    {
        let r = [
            Piece::Pawn(*p),
            Piece::Bishob(*p),
            Piece::Knight(*p),
            Piece::Rook(*p),
            Piece::Queen(*p),
            Piece::King(*p),
        ];
        proof {
            assert(r@ =~= seq![
                Piece::Pawn(*p),
                Piece::Bishob(*p),
                Piece::Knight(*p),
                Piece::Rook(*p),
                Piece::Queen(*p),
                Piece::King(*p),
            ]);
        }
        r
    }
}

/// Appends one sliding ray to a list of offsets.
fn push_ray(r: &mut Vec<(i8, i8)>, dx: i8, dy: i8)
    requires
        -1 <= dx <= 1,
        -1 <= dy <= 1,
    ensures
        final(r)@ == old(r)@ + ray_offsets(dx as int, dy as int),
{
    let mut k: i8 = 1;
    while k <= 7
        invariant
            1 <= k <= 8,
            r@ == old(r)@ + ray_offsets(dx as int, dy as int).take(k - 1),
        decreases 8 - k,
    {
        proof {
            assert(-7 <= k * dx <= 7) by (nonlinear_arith)
                requires
                    1 <= k <= 7,
                    -1 <= dx <= 1,
            ;
            assert(-7 <= k * dy <= 7) by (nonlinear_arith)
                requires
                    1 <= k <= 7,
                    -1 <= dy <= 1,
            ;
        }
        r.push((k * dx, k * dy));
        proof {
            let ray = ray_offsets(dx as int, dy as int);
            assert(ray.take(k as int) =~= ray.take(k - 1).push(ray[k - 1]));
            assert((old(r)@ + ray.take(k - 1)).push(ray[k - 1]) =~= old(r)@ + ray.take(k as int));
        }
        k = k + 1;
    }
    proof {
        assert(ray_offsets(dx as int, dy as int).take(7) =~= ray_offsets(dx as int, dy as int));
    }
}

/// Appends the four diagonal rays to a list of offsets.
fn push_diagonals(r: &mut Vec<(i8, i8)>)
    ensures
        final(r)@ == old(r)@ + diagonal_offsets(),
{
    push_ray(r, 1, 1);
    push_ray(r, 1, -1);
    push_ray(r, -1, -1);
    push_ray(r, -1, 1);
    proof {
        assert(r@ =~= old(r)@ + diagonal_offsets());
    }
}

/// Appends the four straight rays to a list of offsets.
fn push_straights(r: &mut Vec<(i8, i8)>)
    ensures
        final(r)@ == old(r)@ + straight_offsets(),
{
    push_ray(r, 1, 0);
    push_ray(r, -1, 0);
    push_ray(r, 0, 1);
    push_ray(r, 0, -1);
    proof {
        assert(r@ =~= old(r)@ + straight_offsets());
    }
}

/// Every candidate move out of a sequence of offsets carries the piece and
/// origin it was generated from and lands on the board.
proof fn lemma_candidates_from_on_board(p: Piece, from: (usize, usize), offs: Seq<(i8, i8)>)
    ensures
        forall|i: int| 0 <= i < candidates_from(p, from, offs).len() ==> {
            let m = #[trigger] candidates_from(p, from, offs)[i];
            within_board(m.to) && m.piece == p && m.from == from
        },
    decreases offs.len(),
{
    if offs.len() > 0 {
        lemma_candidates_from_on_board(p, from, offs.drop_last());
    }
}

/// For every piece and origin, all generated candidate squares lie within
/// the eight-by-eight board, and each candidate keeps its piece and origin.
pub proof fn lemma_candidates_on_board(p: Piece, from: (usize, usize))
    ensures
        forall|i: int| 0 <= i < candidates(p, from).len() ==> {
            let m = #[trigger] candidates(p, from)[i];
            within_board(m.to) && m.piece == p && m.from == from
        },
{
    lemma_candidates_from_on_board(p, from, p.offsets());
}

/// An offset whose landing square stays on the board contributes its move to
/// the candidates generated from any offset sequence holding it.
pub proof fn lemma_candidates_from_contains(
    p: Piece,
    from: (usize, usize),
    offs: Seq<(i8, i8)>,
    i: int,
)
    requires
        0 <= i < offs.len(),
        shifted(from, offs[i]) is Some,
    ensures
        candidates_from(p, from, offs).contains(
            Move { piece: p, from, to: shifted(from, offs[i]).unwrap() },
        ),
    decreases offs.len(),
{
    let to = shifted(from, offs[i]).unwrap();
    let m = Move { piece: p, from, to };
    let s = candidates_from(p, from, offs);
    let sd = candidates_from(p, from, offs.drop_last());
    if i == offs.len() - 1 {
        assert(offs.last() == offs[i]);
        assert(s[sd.len() as int] == m);
        assert(s.contains(m));
    } else {
        assert(offs.drop_last()[i] == offs[i]);
        lemma_candidates_from_contains(p, from, offs.drop_last(), i);
        let w = choose|w: int| 0 <= w < sd.len() && sd[w] == m;
        assert(s[w] == m);
        assert(s.contains(m));
    }
}

/// The displacement between two distinct board squares of a common rank or
/// file is one of the straight offsets, and shifts the one square onto the
/// other.
pub proof fn lemma_straight_offset_index(from: (usize, usize), to: (usize, usize)) -> (i: int)
    requires
        within_board(from),
        within_board(to),
        from != to,
        from.0 == to.0 || from.1 == to.1,
    ensures
        0 <= i < straight_offsets().len(),
        shifted(from, straight_offsets()[i]) == Some(to),
{
    let dr = to.0 as int - from.0 as int;
    let dc = to.1 as int - from.1 as int;
    if dr > 0 {
        let i = dr - 1;
        assert(straight_offsets()[i] == ray_offsets(1, 0)[i]);
        assert(shifted(from, straight_offsets()[i]) == Some(to));
        i
    } else if dr < 0 {
        let i = 7 + (-dr - 1);
        assert(straight_offsets()[i] == ray_offsets(-1, 0)[-dr - 1]);
        assert(shifted(from, straight_offsets()[i]) == Some(to));
        i
    } else if dc > 0 {
        let i = 14 + (dc - 1);
        assert(straight_offsets()[i] == ray_offsets(0, 1)[dc - 1]);
        assert(shifted(from, straight_offsets()[i]) == Some(to));
        i
    } else {
        let i = 21 + (-dc - 1);
        assert(straight_offsets()[i] == ray_offsets(0, -1)[-dc - 1]);
        assert(shifted(from, straight_offsets()[i]) == Some(to));
        i
    }
}

/// Every attack candidate of a piece keeps its piece and origin and lands on
/// the board.
pub proof fn lemma_attack_candidates_on_board(p: Piece, from: (usize, usize))
    ensures
        forall|i: int| 0 <= i < attack_candidates(p, from).len() ==> {
            let m = #[trigger] attack_candidates(p, from)[i];
            within_board(m.to) && m.piece == p && m.from == from
        },
{
    lemma_candidates_from_on_board(p, from, attack_offsets(p));
}

} // verus!
