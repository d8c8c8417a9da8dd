use vstd::prelude::*;

use super::{at, clear_path, delta, diff, sign, PartialPiece};
use crate::board::position::BoardPosition;
use crate::board::Board;

verus! {

/// The bishop: any distance along a diagonal, over empty squares.
pub struct Bishop {}

impl PartialPiece for Bishop {
    open spec fn valid(from: (u8, u8), to: (u8, u8), board: Board) -> bool {
        diff(from.0, to.0) == diff(from.1, to.1) && clear_path(from, to, board)
    }

    fn validate_move(from: (u8, u8), to: (u8, u8), board: &Board) -> (r: bool) {
        let n = delta(from.0, to.0);
        if n != delta(from.1, to.1) {
            return false;
        }
        let mut k: u8 = 1;
        while k < n
            invariant
                1 <= k,
                n as int == diff(from.0, to.0),
                n as int == diff(from.1, to.1),
                super::on_board(from),
                super::on_board(to),
                forall|j: int|
                    0 < j < k ==> #[trigger] at(
                        *board,
                        (from.0 + j * sign(from.0, to.0), from.1 + j * sign(from.1, to.1)),
                    ) is None,
            decreases n - k,
        {
            let x = if from.0 < to.0 {
                from.0 + k
            } else {
                from.0 - k
            };
            let y = if from.1 < to.1 {
                from.1 + k
            } else {
                from.1 - k
            };
            assert((x as int, y as int) == (
                from.0 + k * sign(from.0, to.0),
                from.1 + k * sign(from.1, to.1),
            ));
            if board.get_square(&BoardPosition::new(x, y)).is_some() {
                assert(at(
                    *board,
                    (from.0 + k * sign(from.0, to.0), from.1 + k * sign(from.1, to.1)),
                ) is Some);
                return false;
            }
            k = k + 1;
        }
        true
    }
}

} // verus!
