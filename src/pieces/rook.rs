use vstd::prelude::*;

use super::{at, clear_path, delta, diff, sign, PartialPiece};
use crate::board::position::BoardPosition;
use crate::board::Board;

verus! {

/// The rook: any distance along a rank or a file, over empty squares.
pub struct Rook {}

impl PartialPiece for Rook {
    open spec fn valid(from: (u8, u8), to: (u8, u8), board: Board) -> bool {
        (diff(from.0, to.0) == 0 || diff(from.1, to.1) == 0) && clear_path(from, to, board)
    }

    fn validate_move(from: (u8, u8), to: (u8, u8), board: &Board) -> (r: bool) {
        let (delta_x, delta_y) = (delta(from.0, to.0), delta(from.1, to.1));
        if delta_x != 0 && delta_y != 0 {
            return false;
        }
        let horizontal = delta_y == 0;
        let path = if horizontal {
            get_path_iter(from.0, to.0)
        } else {
            get_path_iter(from.1, to.1)
        };
        let mut i: usize = 0;
        while i < path.len()
            invariant
                super::on_board(from),
                super::on_board(to),
                horizontal == (diff(from.1, to.1) == 0),
                horizontal || diff(from.0, to.0) == 0,
                path@ == if horizontal {
                    path_between(from.0, to.0)
                } else {
                    path_between(from.1, to.1)
                },
                forall|j: int|
                    0 < j <= i ==> #[trigger] at(
                        *board,
                        (from.0 + j * sign(from.0, to.0), from.1 + j * sign(from.1, to.1)),
                    ) is None,
            decreases path.len() - i,
        {
            let v = path[i];
            let pos = if horizontal {
                BoardPosition::new(v, from.1)
            } else {
                BoardPosition::new(from.0, v)
            };
            let ghost k = i + 1;
            proof {
                if horizontal {
                    assert(v == path_between(from.0, to.0)[i as int]);
                    assert(from.0 != to.0);
                    assert(sign(from.1, to.1) == 0);
                    assert(i < diff(from.0, to.0) - 1);
                    if from.0 < to.0 {
                        assert(sign(from.0, to.0) == 1);
                        assert(v as int == from.0 + 1 + i);
                        assert(v as int == from.0 + k * sign(from.0, to.0));
                    } else {
                        assert(sign(from.0, to.0) == -1);
                        assert(v as int == from.0 - 1 - i);
                        assert(v as int == from.0 + k * sign(from.0, to.0));
                    }
                    assert(v as int == from.0 + k * sign(from.0, to.0));
                } else {
                    assert(v == path_between(from.1, to.1)[i as int]);
                    assert(from.1 != to.1);
                    assert(sign(from.0, to.0) == 0);
                    assert(i < diff(from.1, to.1) - 1);
                    if from.1 < to.1 {
                        assert(sign(from.1, to.1) == 1);
                        assert(v as int == from.1 + 1 + i);
                        assert(v as int == from.1 + k * sign(from.1, to.1));
                    } else {
                        assert(sign(from.1, to.1) == -1);
                        assert(v as int == from.1 - 1 - i);
                        assert(v as int == from.1 + k * sign(from.1, to.1));
                    }
                    assert(v as int == from.1 + k * sign(from.1, to.1));
                }
            }
            assert((pos.file_spec() as int, pos.rank_spec() as int) == (
                from.0 + k * sign(from.0, to.0),
                from.1 + k * sign(from.1, to.1),
            ));
            if board.get_square(&pos).is_some() {
                assert(at(
                    *board,
                    (from.0 + k * sign(from.0, to.0), from.1 + k * sign(from.1, to.1)),
                ) is Some);
                assert(0 < k < if diff(from.0, to.0) >= diff(from.1, to.1) {
                    diff(from.0, to.0)
                } else {
                    diff(from.1, to.1)
                });
                return false;
            }
            i = i + 1;
        }
        true
    }
}

/// The coordinates strictly between `first` and `second`, in order from `first`.
pub open spec fn path_between(first: u8, second: u8) -> Seq<u8> {
    let n = if diff(first, second) > 0 {
        diff(first, second) - 1
    } else {
        0
    };
    Seq::new(
        n as nat,
        |i: int|
            if first < second {
                (first + 1 + i) as u8
            } else {
                (first - 1 - i) as u8
            },
    )
}

/// The coordinates strictly between `first` and `second`, in order from `first`.
pub fn get_path_iter(first: u8, second: u8) -> (r: Vec<u8>)
    ensures
        r@ == path_between(first, second),
{
    let mut out: Vec<u8> = Vec::new();
    if first < second {
        let mut v: u8 = first + 1;
        while v < second
            invariant
                first < v <= second,
                out@ =~= path_between(first, second).take(v - first - 1),
            decreases second - v,
        {
            out.push(v);
            v = v + 1;
        }
        assert(out@ =~= path_between(first, second));
    } else if first > second {
        let mut v: u8 = first - 1;
        while v > second
            invariant
                second <= v < first,
                out@ =~= path_between(first, second).take(first - 1 - v),
            decreases v,
        {
            out.push(v);
            v = v - 1;
        }
        assert(out@ =~= path_between(first, second));
    }
    out
}

} // verus!
