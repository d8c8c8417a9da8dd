use vstd::prelude::*;

use crate::board::Board;
use crate::engine::{is_legal, legal};
use crate::pieces::{Piece, PieceType, Player};

verus! {

/// The three geometric movement categories. Each has a fixed list of candidate slots, and
/// the slot order is part of the wire format:
/// - `Straight`: up, right, down, left;
/// - `Diagonal`: up-right, down-right, down-left, up-left;
/// - `Knight`: the file/rank offsets (2,1), (2,-1), (-2,1), (-2,-1), (1,2), (1,-2), (-1,2),
///   (-1,-2).
#[derive(Clone, Copy, Debug, PartialEq, Eq, Structural)]
pub enum FilterKind {
    Knight,
    Diagonal,
    Straight,
}

impl FilterKind {
    /// The 2-bit id carried in the top bits of a core byte.
    pub open spec fn raw_id(self) -> u8 {
        match self {
            FilterKind::Knight => 1,
            FilterKind::Diagonal => 2,
            FilterKind::Straight => 3,
        }
    }

    /// The filter with 2-bit id `id` (`1..4`).
    pub open spec fn of_id(id: u8) -> FilterKind {
        if id == 1 {
            FilterKind::Knight
        } else if id == 2 {
            FilterKind::Diagonal
        } else {
            FilterKind::Straight
        }
    }

    /// How many candidate slots the filter has.
    pub open spec fn slots(self) -> nat {
        match self {
            FilterKind::Knight => 8,
            _ => 4,
        }
    }

    /// How many bits select a slot when more than one is populated.
    pub open spec fn width(self) -> u8 {
        match self {
            FilterKind::Knight => 3,
            _ => 2,
        }
    }

    /// The file and rank step of slot `i`.
    pub open spec fn delta(self, i: int) -> (int, int) {
        match self {
            FilterKind::Straight => if i == 0 {
                (0, 1)
            } else if i == 1 {
                (1, 0)
            } else if i == 2 {
                (0, -1)
            } else {
                (-1, 0)
            },
            FilterKind::Diagonal => if i == 0 {
                (1, 1)
            } else if i == 1 {
                (1, -1)
            } else if i == 2 {
                (-1, -1)
            } else {
                (-1, 1)
            },
            FilterKind::Knight => if i == 0 {
                (2, 1)
            } else if i == 1 {
                (2, -1)
            } else if i == 2 {
                (-2, 1)
            } else if i == 3 {
                (-2, -1)
            } else if i == 4 {
                (1, 2)
            } else if i == 5 {
                (1, -2)
            } else if i == 6 {
                (-1, 2)
            } else {
                (-1, -2)
            },
        }
    }
}

pub open spec fn file_of(sq: int) -> int {
    sq % 8
}

pub open spec fn rank_of(sq: int) -> int {
    sq / 8
}

pub open spec fn abs_diff(a: int, b: int) -> int {
    if a >= b {
        a - b
    } else {
        b - a
    }
}

/// The square `k` steps of `(df, dr)` away from `to`, if it is on the board.
pub open spec fn step_square(to: int, df: int, dr: int, k: int) -> Option<int> {
    let f = file_of(to) + k * df;
    let r = rank_of(to) + k * dr;
    if 0 <= f < 8 && 0 <= r < 8 {
        Some(r * 8 + f)
    } else {
        None
    }
}

/// The first occupied square along the ray `(df, dr)` from `to`, from step `k` on.
pub open spec fn ray_first(b: Board, to: int, df: int, dr: int, k: int) -> Option<int>
    decreases 8 - k,
{
    if k >= 8 || k < 1 {
        None
    } else {
        match step_square(to, df, dr, k) {
            None => None,
            Some(s) => if b.piece_at(s) is Some {
                Some(s)
            } else {
                ray_first(b, to, df, dr, k + 1)
            },
        }
    }
}

/// A pawn of `player` on `from` moves toward `to`: up the board for White, down for Black.
pub open spec fn toward(player: Player, from: int, to: int) -> bool {
    if player == Player::White {
        rank_of(from) < rank_of(to)
    } else {
        rank_of(from) > rank_of(to)
    }
}

/// The promotion a pawn of `player` moving to `to` is checked with: a queen on the far rank.
pub open spec fn promotion_for(player: Player, to: int) -> Option<PieceType> {
    if (player == Player::White && rank_of(to) == 7) || (player == Player::Black && rank_of(to)
        == 0) {
        Some(PieceType::Queen)
    } else {
        None
    }
}

/// Whether the piece `p` on `from`, the first piece met along a vertical ray from `to`, is a
/// candidate origin for a move to `to`.
pub open spec fn vertical_admits(b: Board, p: Piece, from: int, to: int) -> bool {
    let d = abs_diff(rank_of(from), rank_of(to));
    if p.0 == PieceType::Rook || p.0 == PieceType::Queen || (p.0 == PieceType::King && d == 1) {
        is_legal(b, from as u8, to as u8, None)
    } else if p.0 == PieceType::Pawn {
        let second = if p.1 == Player::White {
            1int
        } else {
            6int
        };
        toward(p.1, from, to) && (d == 1 || (d == 2 && rank_of(from) == second)) && is_legal(
            b,
            from as u8,
            to as u8,
            promotion_for(p.1, to),
        )
    } else {
        false
    }
}

/// Whether the piece `p` on `from`, the first piece met along a horizontal ray from `to`, is
/// a candidate origin: a rook or queen, an adjacent king, or a king two files away that may
/// castle toward `to`.
pub open spec fn horizontal_admits(b: Board, p: Piece, from: int, to: int) -> bool {
    let d = abs_diff(file_of(from), file_of(to));
    if p.0 == PieceType::Rook || p.0 == PieceType::Queen || (p.0 == PieceType::King && d == 1) {
        is_legal(b, from as u8, to as u8, None)
    } else if p.0 == PieceType::King && d == 2 {
        b.rights().allows(p.1, file_of(to) == 6) && is_legal(b, from as u8, to as u8, None)
    } else {
        false
    }
}

/// Whether the piece `p` on `from`, the first piece met along a diagonal ray from `to`, is a
/// candidate origin: a bishop or queen, an adjacent king, or an adjacent pawn that moves
/// toward `to`.
pub open spec fn diagonal_admits(b: Board, p: Piece, from: int, to: int) -> bool {
    let d = abs_diff(rank_of(from), rank_of(to));
    if p.0 == PieceType::Bishop || p.0 == PieceType::Queen || (p.0 == PieceType::King && d == 1) {
        is_legal(b, from as u8, to as u8, None)
    } else if p.0 == PieceType::Pawn && d == 1 {
        toward(p.1, from, to) && is_legal(b, from as u8, to as u8, promotion_for(p.1, to))
    } else {
        false
    }
}

/// Slot `i` of the candidate set of `kind` for destination `to` in `b`.
pub open spec fn slot(b: Board, kind: FilterKind, to: int, i: int) -> Option<u8> {
    let (df, dr) = kind.delta(i);
    match kind {
        FilterKind::Knight => match step_square(to, df, dr, 1) {
            Some(s) => if b.piece_at(s) matches Some(p) && p.0 == PieceType::Knight && is_legal(
                b,
                s as u8,
                to as u8,
                None,
            ) {
                Some(s as u8)
            } else {
                None
            },
            None => None,
        },
        _ => match ray_first(b, to, df, dr, 1) {
            Some(s) => {
                let p = b.piece_at(s)->Some_0;
                let admitted = if kind == FilterKind::Diagonal {
                    diagonal_admits(b, p, s, to)
                } else if df == 0 {
                    vertical_admits(b, p, s, to)
                } else {
                    horizontal_admits(b, p, s, to)
                };
                if admitted {
                    Some(s as u8)
                } else {
                    None
                }
            },
            None => None,
        },
    }
}

/// The candidate set of `kind` for destination `to` in `b`, one entry per slot.
pub open spec fn candidates(b: Board, kind: FilterKind, to: int) -> Seq<Option<u8>> {
    Seq::new(kind.slots(), |i: int| slot(b, kind, to, i))
}

/// How many entries of `c` are populated.
pub open spec fn populated(c: Seq<Option<u8>>) -> nat
    decreases c.len(),
{
    if c.len() == 0 {
        0
    } else {
        populated(c.drop_last()) + if c.last() is Some {
            1nat
        } else {
            0nat
        }
    }
}

/// The first slot of `c` holding `from`, if any.
pub open spec fn slot_of(c: Seq<Option<u8>>, from: u8) -> Option<int>
    decreases c.len(),
{
    if c.len() == 0 {
        None
    } else if c[0] == Some(from) {
        Some(0)
    } else {
        match slot_of(c.drop_first(), from) {
            Some(i) => Some(i + 1),
            None => None,
        }
    }
}

/// The first populated slot of `c`, if any.
pub open spec fn first_populated(c: Seq<Option<u8>>) -> Option<int>
    decreases c.len(),
{
    if c.len() == 0 {
        None
    } else if c[0] is Some {
        Some(0)
    } else {
        match first_populated(c.drop_first()) {
            Some(i) => Some(i + 1),
            None => None,
        }
    }
}

/// The overflow entry for a move from `from` to `to`: the slot index and the filter's width,
/// when more than one slot is populated and `from` fills one of them.
pub open spec fn overflow_entry(b: Board, kind: FilterKind, to: int, from: u8) -> Option<(u8, u8)> {
    let c = candidates(b, kind, to);
    if populated(c) > 1 && slot_of(c, from) is Some {
        Some((slot_of(c, from)->Some_0 as u8, kind.width()))
    } else {
        None
    }
}

/// A ray ends on an occupied square of the board.
proof fn lemma_ray_first_occupied(b: Board, to: int, df: int, dr: int, k: int)
    ensures
        ray_first(b, to, df, dr, k) matches Some(s) ==> 0 <= s < 64 && b.piece_at(s) is Some,
    decreases 8 - k,
{
    if 1 <= k < 8 {
        lemma_ray_first_occupied(b, to, df, dr, k + 1);
        if let Some(s) = step_square(to, df, dr, k) {
            let f = file_of(to) + k * df;
            let r = rank_of(to) + k * dr;
            if 0 <= f < 8 && 0 <= r < 8 {
                assert(0 <= r * 8 + f < 64) by (nonlinear_arith)
                    requires
                        0 <= f < 8,
                        0 <= r < 8,
                ;
            }
        }
    }
}

/// A populated slot holds an occupied square of the board.
pub proof fn lemma_candidate_occupied(b: Board, kind: FilterKind, to: int, i: int)
    requires
        0 <= i < kind.slots(),
        candidates(b, kind, to)[i] is Some,
    ensures
        b.piece_at(candidates(b, kind, to)[i]->Some_0 as int) is Some,
        candidates(b, kind, to)[i]->Some_0 < 64,
{
    let (df, dr) = kind.delta(i);
    lemma_ray_first_occupied(b, to, df, dr, 1);
    if kind == FilterKind::Knight {
        if let Some(s) = step_square(to, df, dr, 1) {
            let f = file_of(to) + df;
            let r = rank_of(to) + dr;
            assert(0 <= r * 8 + f < 64) by (nonlinear_arith)
                requires
                    0 <= f < 8,
                    0 <= r < 8,
            ;
        }
    }
}

/// A candidate set with a populated slot has a first populated slot.
pub proof fn lemma_first_populated_exists(c: Seq<Option<u8>>)
    requires
        populated(c) > 0,
    ensures
        first_populated(c) is Some,
{
    if first_populated(c) is None {
        lemma_none_populated(c);
        lemma_all_empty(c);
    }
}

proof fn lemma_none_populated(c: Seq<Option<u8>>)
    requires
        first_populated(c) is None,
    ensures
        forall|i: int| 0 <= i < c.len() ==> #[trigger] c[i] is None,
    decreases c.len(),
{
    if c.len() > 0 {
        lemma_none_populated(c.drop_first());
        assert forall|i: int| 0 <= i < c.len() implies #[trigger] c[i] is None by {
            if i > 0 {
                assert(c[i] == c.drop_first()[i - 1]);
            }
        }
    }
}

proof fn lemma_all_empty(c: Seq<Option<u8>>)
    requires
        forall|i: int| 0 <= i < c.len() ==> #[trigger] c[i] is None,
    ensures
        populated(c) == 0,
    decreases c.len(),
{
    if c.len() > 0 {
        assert forall|i: int| 0 <= i < c.drop_last().len() implies #[trigger] c.drop_last()[i] is None by {
            assert(c.drop_last()[i] == c[i]);
        }
        lemma_all_empty(c.drop_last());
    }
}

/// What [`slot_of`] and [`first_populated`] return is a matching slot.
pub proof fn lemma_found_slots(c: Seq<Option<u8>>, from: u8)
    ensures
        slot_of(c, from) matches Some(i) ==> 0 <= i < c.len() && c[i] == Some(from),
        first_populated(c) matches Some(i) ==> 0 <= i < c.len() && c[i] is Some,
    decreases c.len(),
{
    if c.len() > 0 {
        lemma_found_slots(c.drop_first(), from);
    }
}

/// A candidate set with a populated slot counts it.
pub proof fn lemma_one_populated(c: Seq<Option<u8>>, i: int)
    requires
        0 <= i < c.len(),
        c[i] is Some,
    ensures
        populated(c) >= 1,
    decreases c.len(),
{
    if i < c.len() - 1 {
        lemma_one_populated(c.drop_last(), i);
    }
}

/// A candidate set with two distinct populated slots counts at least two.
pub proof fn lemma_two_populated(c: Seq<Option<u8>>, i: int, j: int)
    requires
        0 <= i < c.len(),
        0 <= j < c.len(),
        i != j,
        c[i] is Some,
        c[j] is Some,
    ensures
        populated(c) >= 2,
    decreases c.len(),
{
    let l = c.len() - 1;
    if i < l && j < l {
        lemma_two_populated(c.drop_last(), i, j);
    } else if i == l {
        lemma_one_populated(c.drop_last(), j);
    } else {
        lemma_one_populated(c.drop_last(), i);
    }
}

/// The square a populated slot holds lies `k` steps from `to` along the slot's direction.
proof fn lemma_slot_square(b: Board, kind: FilterKind, to: int, i: int) -> (k: int)
    requires
        0 <= to < 64,
        0 <= i < kind.slots(),
        slot(b, kind, to, i) is Some,
    ensures
        1 <= k < 8,
        kind == FilterKind::Knight ==> k == 1,
        step_square(to, kind.delta(i).0, kind.delta(i).1, k) == Some(
            slot(b, kind, to, i)->Some_0 as int,
        ),
{
    let (df, dr) = kind.delta(i);
    lemma_ray_first_occupied(b, to, df, dr, 1);
    if kind == FilterKind::Knight {
        let f = file_of(to) + df;
        let r = rank_of(to) + dr;
        assert(0 <= r * 8 + f < 64) by (nonlinear_arith)
            requires
                0 <= f < 8,
                0 <= r < 8,
        ;
        1
    } else {
        lemma_ray_first_step(b, to, df, dr, 1)
    }
}

proof fn lemma_ray_first_step(b: Board, to: int, df: int, dr: int, k: int) -> (j: int)
    requires
        ray_first(b, to, df, dr, k) is Some,
    ensures
        k <= j < 8,
        1 <= j,
        step_square(to, df, dr, j) == ray_first(b, to, df, dr, k),
    decreases 8 - k,
{
    if step_square(to, df, dr, k) matches Some(s) && b.piece_at(s) is Some {
        k
    } else {
        lemma_ray_first_step(b, to, df, dr, k + 1)
    }
}

/// No slot holds the destination itself: each slot lies at least one step away from it.
pub proof fn lemma_slot_not_destination(b: Board, kind: FilterKind, to: int, i: int)
    requires
        0 <= to < 64,
        0 <= i < kind.slots(),
        slot(b, kind, to, i) is Some,
    ensures
        slot(b, kind, to, i)->Some_0 as int != to,
{
    let k = lemma_slot_square(b, kind, to, i);
    let (df, dr) = kind.delta(i);
    let f = file_of(to) + k * df;
    let r = rank_of(to) + k * dr;
    if slot(b, kind, to, i)->Some_0 as int == to {
        assert(r * 8 + f == rank_of(to) * 8 + file_of(to));
        assert(f == file_of(to) && r == rank_of(to)) by (nonlinear_arith)
            requires
                r * 8 + f == rank_of(to) * 8 + file_of(to),
                0 <= f < 8,
                0 <= r < 8,
                0 <= file_of(to) < 8,
                0 <= rank_of(to) < 8,
        ;
        assert(false) by (nonlinear_arith)
            requires
                k * df == 0,
                k * dr == 0,
                k >= 1,
                df != 0 || dr != 0,
        ;
    }
}

/// No square fills two slots of one candidate set: slots lie in different directions.
pub proof fn lemma_slots_distinct(b: Board, kind: FilterKind, to: int, i: int, j: int)
    requires
        0 <= to < 64,
        0 <= i < kind.slots(),
        0 <= j < kind.slots(),
        i != j,
        slot(b, kind, to, i) is Some,
        slot(b, kind, to, j) is Some,
    ensures
        slot(b, kind, to, i) != slot(b, kind, to, j),
{
    let ki = lemma_slot_square(b, kind, to, i);
    let kj = lemma_slot_square(b, kind, to, j);
    let (dfi, dri) = kind.delta(i);
    let (dfj, drj) = kind.delta(j);
    if slot(b, kind, to, i) == slot(b, kind, to, j) {
        let s = slot(b, kind, to, i)->Some_0 as int;
        let fi = file_of(to) + ki * dfi;
        let ri = rank_of(to) + ki * dri;
        let fj = file_of(to) + kj * dfj;
        let rj = rank_of(to) + kj * drj;
        assert(ri * 8 + fi == rj * 8 + fj);
        assert(fi == fj && ri == rj) by (nonlinear_arith)
            requires
                ri * 8 + fi == rj * 8 + fj,
                0 <= fi < 8,
                0 <= fj < 8,
                0 <= ri < 8,
                0 <= rj < 8,
        ;
        assert(ki * dfi == kj * dfj && ki * dri == kj * drj);
        if kind == FilterKind::Knight {
            assert(ki == 1 && kj == 1);
        } else {
            assert(false) by (nonlinear_arith)
                requires
                    ki * dfi == kj * dfj,
                    ki * dri == kj * drj,
                    1 <= ki,
                    1 <= kj,
                    -1 <= dfi <= 1,
                    -1 <= dri <= 1,
                    -1 <= dfj <= 1,
                    -1 <= drj <= 1,
                    dfi != dfj || dri != drj,
                    dfi != 0 || dri != 0,
                    dfj != 0 || drj != 0,
            ;
        }
    }
}

/// The slot that [`slot_of`] finds for an origin is the only slot holding it.
pub proof fn lemma_unique_origin(b: Board, kind: FilterKind, to: int, from: u8, i: int)
    requires
        0 <= to < 64,
        0 <= i < kind.slots(),
        candidates(b, kind, to)[i] == Some(from),
    ensures
        slot_of(candidates(b, kind, to), from) == Some(i),
{
    let c = candidates(b, kind, to);
    assert forall|j: int| 0 <= j < i implies c[j] != Some(from) by {
        if c[j] == Some(from) {
            lemma_slots_distinct(b, kind, to, i, j);
        }
    }
    lemma_slot_of(c, from, i);
}

proof fn lemma_slot_of(c: Seq<Option<u8>>, from: u8, i: int)
    requires
        0 <= i <= c.len(),
        forall|j: int| 0 <= j < i ==> c[j] != Some(from),
    ensures
        i < c.len() && c[i] == Some(from) ==> slot_of(c, from) == Some(i),
        i == c.len() ==> slot_of(c, from) is None,
    decreases c.len(),
{
    if c.len() > 0 && i > 0 {
        lemma_slot_of(c.drop_first(), from, i - 1);
    }
}

proof fn lemma_first_populated(c: Seq<Option<u8>>, i: int)
    requires
        0 <= i <= c.len(),
        forall|j: int| 0 <= j < i ==> c[j] is None,
    ensures
        i < c.len() && c[i] is Some ==> first_populated(c) == Some(i),
        i == c.len() ==> first_populated(c) is None,
    decreases c.len(),
{
    if c.len() > 0 && i > 0 {
        lemma_first_populated(c.drop_first(), i - 1);
    }
}

/// The file and rank step of slot `i` of `kind`.
fn slot_delta(kind: FilterKind, i: usize) -> (r: (i8, i8))
    requires
        i < kind.slots(),
    ensures
        (r.0 as int, r.1 as int) == kind.delta(i as int),
        -2 <= r.0 <= 2,
        -2 <= r.1 <= 2,
{
    match kind {
        FilterKind::Straight => if i == 0 {
            (0, 1)
        } else if i == 1 {
            (1, 0)
        } else if i == 2 {
            (0, -1)
        } else {
            (-1, 0)
        },
        FilterKind::Diagonal => if i == 0 {
            (1, 1)
        } else if i == 1 {
            (1, -1)
        } else if i == 2 {
            (-1, -1)
        } else {
            (-1, 1)
        },
        FilterKind::Knight => if i == 0 {
            (2, 1)
        } else if i == 1 {
            (2, -1)
        } else if i == 2 {
            (-2, 1)
        } else if i == 3 {
            (-2, -1)
        } else if i == 4 {
            (1, 2)
        } else if i == 5 {
            (1, -2)
        } else if i == 6 {
            (-1, 2)
        } else {
            (-1, -2)
        },
    }
}

fn step(to: u8, df: i8, dr: i8, k: u8) -> (r: Option<u8>)
    requires
        to < 64,
        -2 <= df <= 2,
        -2 <= dr <= 2,
        k <= 8,
    ensures
        match r {
            Some(s) => s < 64 && step_square(to as int, df as int, dr as int, k as int) == Some(
                s as int,
            ),
            None => step_square(to as int, df as int, dr as int, k as int) is None,
        },
{
    assert(-16 <= k * df <= 16 && -16 <= k * dr <= 16) by (nonlinear_arith)
        requires
            k <= 8,
            -2 <= df <= 2,
            -2 <= dr <= 2,
    ;
    let f: i16 = (to % 8) as i16 + (k as i16) * (df as i16);
    let r: i16 = (to / 8) as i16 + (k as i16) * (dr as i16);
    if 0 <= f && f < 8 && 0 <= r && r < 8 {
        Some((r * 8 + f) as u8)
    } else {
        None
    }
}

/// The first occupied square along the ray `(df, dr)` from `to`.
fn ray_scan(b: &Board, to: u8, df: i8, dr: i8) -> (r: Option<u8>)
    requires
        to < 64,
        -2 <= df <= 2,
        -2 <= dr <= 2,
    ensures
        match r {
            Some(s) => s < 64 && ray_first(*b, to as int, df as int, dr as int, 1) == Some(s as int),
            None => ray_first(*b, to as int, df as int, dr as int, 1) is None,
        },
{
    let mut k: u8 = 1;
    while k < 8
        invariant
            1 <= k <= 8,
            to < 64,
            -2 <= df <= 2,
            -2 <= dr <= 2,
            ray_first(*b, to as int, df as int, dr as int, 1) == ray_first(
                *b,
                to as int,
                df as int,
                dr as int,
                k as int,
            ),
        decreases 8 - k,
    {
        match step(to, df, dr, k) {
            None => {
                return None;
            },
            Some(s) => {
                if b.piece_on(s).is_some() {
                    return Some(s);
                }
            },
        }
        k = k + 1;
    }
    None
}

fn abs_diff_u8(a: u8, b: u8) -> (r: u8)
    ensures
        r as int == abs_diff(a as int, b as int),
{
    if a >= b {
        a - b
    } else {
        b - a
    }
}

fn promotion_check(player: Player, to: u8) -> (r: Option<PieceType>)
    requires
        to < 64,
    ensures
        r == promotion_for(player, to as int),
{
    if (player == Player::White && to / 8 == 7) || (player == Player::Black && to / 8 == 0) {
        Some(PieceType::Queen)
    } else {
        None
    }
}

fn moves_toward(player: Player, from: u8, to: u8) -> (r: bool)
    ensures
        r == toward(player, from as int, to as int),
{
    if player == Player::White {
        from / 8 < to / 8
    } else {
        from / 8 > to / 8
    }
}

/// Whether the first piece `p` met on `from` along a vertical ray from `to` is a candidate;
/// see [`vertical_admits`].
fn vertical_checks(to: u8, from: u8, p: Piece, position: &Board) -> (r: bool)
    requires
        to < 64,
        from < 64,
        position.wf(),
    ensures
        r == vertical_admits(*position, p, from as int, to as int),
{
    let d = abs_diff_u8(from / 8, to / 8);
    if p.0 == PieceType::Rook || p.0 == PieceType::Queen || (p.0 == PieceType::King && d == 1) {
        legal(position, from, to, None)
    } else if p.0 == PieceType::Pawn {
        let second: u8 = if p.1 == Player::White {
            1
        } else {
            6
        };
        moves_toward(p.1, from, to) && (d == 1 || (d == 2 && from / 8 == second)) && legal(
            position,
            from,
            to,
            promotion_check(p.1, to),
        )
    } else {
        false
    }
}

/// Whether the first piece `p` met on `from` along a horizontal ray from `to` is a
/// candidate; see [`horizontal_admits`].
fn horizontal_checks(to: u8, from: u8, p: Piece, position: &Board) -> (r: bool)
    requires
        to < 64,
        from < 64,
        position.wf(),
    ensures
        r == horizontal_admits(*position, p, from as int, to as int),
{
    let d = abs_diff_u8(from % 8, to % 8);
    if p.0 == PieceType::Rook || p.0 == PieceType::Queen || (p.0 == PieceType::King && d == 1) {
        legal(position, from, to, None)
    } else if p.0 == PieceType::King && d == 2 {
        position.castling_rights().allows_castle(p.1, to % 8 == 6) && legal(
            position,
            from,
            to,
            None,
        )
    } else {
        false
    }
}

/// Whether the first piece `p` met on `from` along a diagonal ray from `to` is a candidate;
/// see [`diagonal_admits`].
fn diagonal_checks(to: u8, from: u8, p: Piece, position: &Board) -> (r: bool)
    requires
        to < 64,
        from < 64,
        position.wf(),
    ensures
        r == diagonal_admits(*position, p, from as int, to as int),
{
    let d = abs_diff_u8(from / 8, to / 8);
    if p.0 == PieceType::Bishop || p.0 == PieceType::Queen || (p.0 == PieceType::King && d == 1) {
        legal(position, from, to, None)
    } else if p.0 == PieceType::Pawn && d == 1 {
        moves_toward(p.1, from, to) && legal(position, from, to, promotion_check(p.1, to))
    } else {
        false
    }
}

fn slot_value(b: &Board, kind: FilterKind, to: u8, i: usize) -> (r: Option<u8>)
    requires
        b.wf(),
        to < 64,
        i < kind.slots(),
    ensures
        r == slot(*b, kind, to as int, i as int),
{
    let (df, dr) = slot_delta(kind, i);
    match kind {
        FilterKind::Knight => match step(to, df, dr, 1) {
            Some(s) => match b.piece_on(s) {
                Some(p) => if p.0 == PieceType::Knight && legal(b, s, to, None) {
                    Some(s)
                } else {
                    None
                },
                None => None,
            },
            None => None,
        },
        _ => match ray_scan(b, to, df, dr) {
            Some(s) => {
                proof {
                    lemma_ray_first_occupied(*b, to as int, df as int, dr as int, 1);
                }
                let p = b.piece_on(s).unwrap();
                let admitted = if kind == FilterKind::Diagonal {
                    diagonal_checks(to, s, p, b)
                } else if df == 0 {
                    vertical_checks(to, s, p, b)
                } else {
                    horizontal_checks(to, s, p, b)
                };
                if admitted {
                    Some(s)
                } else {
                    None
                }
            },
            None => None,
        },
    }
}

/// The candidate set of `kind` for destination `to`; see [`candidates`].
pub fn square_data(kind: FilterKind, to: u8, position: &Board) -> (r: Vec<Option<u8>>)
    requires
        position.wf(),
        to < 64,
    ensures
        r@ == candidates(*position, kind, to as int),
{
    let n: usize = match kind {
        FilterKind::Knight => 8,
        _ => 4,
    };
    let mut out: Vec<Option<u8>> = Vec::new();
    let mut i: usize = 0;
    while i < n
        invariant
            i <= n,
            n == kind.slots(),
            position.wf(),
            to < 64,
            out@ =~= candidates(*position, kind, to as int).take(i as int),
        decreases n - i,
    {
        let v = slot_value(position, kind, to, i);
        out.push(v);
        i = i + 1;
    }
    out
}

/// How many entries of `c` are populated.
pub fn populated_count(c: &Vec<Option<u8>>) -> (r: usize)
    ensures
        r == populated(c@),
{
    let mut n: usize = 0;
    let mut i: usize = 0;
    assert(c@.take(0) =~= Seq::<Option<u8>>::empty());
    while i < c.len()
        invariant
            i <= c@.len(),
            n <= i,
            n == populated(c@.take(i as int)),
        decreases c.len() - i,
    {
        assert(c@.take(i + 1).drop_last() =~= c@.take(i as int));
        if c[i].is_some() {
            n = n + 1;
        }
        i = i + 1;
    }
    assert(c@.take(i as int) =~= c@);
    n
}

/// The first slot of `c` holding `from`.
pub fn find_slot(c: &Vec<Option<u8>>, from: u8) -> (r: Option<usize>)
    ensures
        match r {
            Some(i) => slot_of(c@, from) == Some(i as int) && i < c@.len() && c@[i as int] == Some(
                from,
            ),
            None => slot_of(c@, from) is None,
        },
{
    let mut i: usize = 0;
    while i < c.len()
        invariant
            i <= c@.len(),
            forall|j: int| 0 <= j < i ==> c@[j] != Some(from),
        decreases c.len() - i,
    {
        if c[i] == Some(from) {
            proof {
                lemma_slot_of(c@, from, i as int);
            }
            return Some(i);
        }
        i = i + 1;
    }
    proof {
        lemma_slot_of(c@, from, i as int);
    }
    None
}

/// The first populated slot of `c`.
pub fn find_populated(c: &Vec<Option<u8>>) -> (r: Option<usize>)
    ensures
        match r {
            Some(i) => first_populated(c@) == Some(i as int) && i < c@.len() && c@[i as int] is Some,
            None => first_populated(c@) is None,
        },
{
    let mut i: usize = 0;
    while i < c.len()
        invariant
            i <= c@.len(),
            forall|j: int| 0 <= j < i ==> c@[j] is None,
        decreases c.len() - i,
    {
        if c[i].is_some() {
            proof {
                lemma_first_populated(c@, i as int);
            }
            return Some(i);
        }
        i = i + 1;
    }
    proof {
        lemma_first_populated(c@, i as int);
    }
    None
}

/// The overflow entry for a move from `from` to `to`; see [`overflow_entry`].
pub fn overflow_selector(kind: FilterKind, to: u8, from: u8, position: &Board) -> (r: Option<(u8, u8)>)
    requires
        position.wf(),
        to < 64,
    ensures
        r == overflow_entry(*position, kind, to as int, from),
{
    let c = square_data(kind, to, position);
    if populated_count(&c) > 1 {
        match find_slot(&c, from) {
            Some(i) => Some((i as u8, if kind == FilterKind::Knight {
                3
            } else {
                2
            })),
            None => None,
        }
    } else {
        None
    }
}

/// A movement category, as a type.
pub trait Filter {
    spec fn kind() -> FilterKind;

    /// The 2-bit id.
    fn get_raw_id() -> (r: u8)
        ensures
            r == Self::kind().raw_id(),
    ;

    /// The id in the top two bits of a byte.
    fn get_id() -> (r: u8)
        ensures
            r == Self::kind().raw_id() * 64,
    ;

    /// The candidate set for destination `to`.
    fn get_square_data(to: &u8, position: &Board) -> (r: Vec<Option<u8>>)
        requires
            *to < 64,
            position.wf(),
        ensures
            r@ == candidates(*position, Self::kind(), *to as int),
    ;

    /// The overflow entry for a move from `from` to `to`.
    fn get_overflow(to: &u8, from: &u8, position: &Board) -> (r: Option<(u8, u8)>)
        requires
            *to < 64,
            position.wf(),
        ensures
            r == overflow_entry(*position, Self::kind(), *to as int, *from),
    ;

    /// The mask of a slot selector: as many low bits set as the width.
    fn get_overflow_mask() -> (r: u8)
        ensures
            r as nat == crate::bitbuffer::pow2(Self::kind().width() as nat) - 1,
    ;
}

/// The diagonal filter.
pub struct Diagonal {}

impl Filter for Diagonal {
    open spec fn kind() -> FilterKind {
        FilterKind::Diagonal
    }

    fn get_raw_id() -> (r: u8) {
        2
    }

    fn get_id() -> (r: u8) {
        128
    }

    fn get_square_data(to: &u8, position: &Board) -> (r: Vec<Option<u8>>) {
        square_data(FilterKind::Diagonal, *to, position)
    }

    fn get_overflow(to: &u8, from: &u8, position: &Board) -> (r: Option<(u8, u8)>) {
        overflow_selector(FilterKind::Diagonal, *to, *from, position)
    }

    fn get_overflow_mask() -> (r: u8) {
        proof {
            reveal_with_fuel(crate::bitbuffer::pow2, 4);
        }
        3
    }
}

/// The knight filter.
pub struct Knight {}

impl Filter for Knight {
    open spec fn kind() -> FilterKind {
        FilterKind::Knight
    }

    fn get_raw_id() -> (r: u8) {
        1
    }

    fn get_id() -> (r: u8) {
        64
    }

    fn get_square_data(to: &u8, position: &Board) -> (r: Vec<Option<u8>>) {
        square_data(FilterKind::Knight, *to, position)
    }

    fn get_overflow(to: &u8, from: &u8, position: &Board) -> (r: Option<(u8, u8)>) {
        overflow_selector(FilterKind::Knight, *to, *from, position)
    }

    fn get_overflow_mask() -> (r: u8) {
        proof {
            reveal_with_fuel(crate::bitbuffer::pow2, 4);
        }
        7
    }
}

/// The straight filter.
pub struct Straight {}

impl Filter for Straight {
    open spec fn kind() -> FilterKind {
        FilterKind::Straight
    }

    fn get_raw_id() -> (r: u8) {
        3
    }

    fn get_id() -> (r: u8) {
        192
    }

    fn get_square_data(to: &u8, position: &Board) -> (r: Vec<Option<u8>>) {
        square_data(FilterKind::Straight, *to, position)
    }

    fn get_overflow(to: &u8, from: &u8, position: &Board) -> (r: Option<(u8, u8)>) {
        overflow_selector(FilterKind::Straight, *to, *from, position)
    }

    fn get_overflow_mask() -> (r: u8) {
        proof {
            reveal_with_fuel(crate::bitbuffer::pow2, 4);
        }
        3
    }
}

proof fn lemma_populated_bound(c: Seq<Option<u8>>)
    ensures
        populated(c) <= c.len(),
    decreases c.len(),
{
    if c.len() > 0 {
        lemma_populated_bound(c.drop_last());
    }
}

/// Straight and diagonal candidate sets have four slots and knight sets eight, so at most
/// that many are populated; for a move whose origin fills a slot, an overflow entry is
/// produced exactly when more than one slot is populated; and the populated slots hold
/// distinct squares, none of them the destination.
pub proof fn lemma_candidate_bound(b: Board, kind: FilterKind, to: int, from: u8)
    ensures
        candidates(b, kind, to).len() == if kind == FilterKind::Knight {
            8nat
        } else {
            4nat
        },
        populated(candidates(b, kind, to)) <= candidates(b, kind, to).len(),
        slot_of(candidates(b, kind, to), from) is Some ==> (overflow_entry(b, kind, to, from) is Some
            <==> populated(candidates(b, kind, to)) > 1),
        0 <= to < 64 ==> forall|i: int|
            0 <= i < candidates(b, kind, to).len() && (#[trigger] candidates(b, kind, to)[i]) is Some
                ==> candidates(b, kind, to)[i]->Some_0 as int != to,
        0 <= to < 64 ==> forall|i: int, j: int|
            0 <= i < candidates(b, kind, to).len() && 0 <= j < candidates(b, kind, to).len() && i
                != j && (#[trigger] candidates(b, kind, to)[i]) is Some && (#[trigger] candidates(
                b,
                kind,
                to,
            )[j]) is Some ==> candidates(b, kind, to)[i] != candidates(b, kind, to)[j],
{
    lemma_populated_bound(candidates(b, kind, to));
    if 0 <= to < 64 {
        assert forall|i: int|
            0 <= i < candidates(b, kind, to).len() && (#[trigger] candidates(b, kind, to)[i]) is Some
                implies candidates(b, kind, to)[i]->Some_0 as int != to by {
            lemma_slot_not_destination(b, kind, to, i);
        }
        assert forall|i: int, j: int|
            0 <= i < candidates(b, kind, to).len() && 0 <= j < candidates(b, kind, to).len() && i
                != j && (#[trigger] candidates(b, kind, to)[i]) is Some && (#[trigger] candidates(
                b,
                kind,
                to,
            )[j]) is Some implies candidates(b, kind, to)[i] != candidates(b, kind, to)[j] by {
            lemma_slots_distinct(b, kind, to, i, j);
        }
    }
}

} // verus!
