use vstd::prelude::*;

use super::{at, delta, diff, PartialPiece, Player};
use crate::board::position::BoardPosition;
use crate::board::Board;

verus! {

/// The pawn: one square forward onto an empty square, two from its starting rank over empty
/// squares, or one square diagonally forward onto an occupied square.
pub struct Pawn {}

impl PartialPiece for Pawn {
    open spec fn valid(from: (u8, u8), to: (u8, u8), board: Board) -> bool {
        match at(board, (from.0 as int, from.1 as int)) {
            None => false,
            Some(p) => {
                let forward = p.1 == Player::White;
                let (dx, dy) = (diff(from.0, to.0), diff(from.1, to.1));
                let target = at(board, (to.0 as int, to.1 as int));
                if (forward && from.1 > to.1) || (!forward && from.1 < to.1) {
                    false
                } else if dx == 1 && dy == 1 && target is Some {
                    true
                } else if dx == 0 && dy == 1 && target is None {
                    true
                } else {
                    dx == 0 && dy == 2 && ((from.1 == 2 && p.1 == Player::White) || (from.1 == 7
                        && p.1 == Player::Black)) && target is None && at(
                        board,
                        (
                            from.0 as int,
                            if forward {
                                from.1 + 1
                            } else {
                                from.1 - 1
                            },
                        ),
                    ) is None
                }
            },
        }
    }

    fn validate_move(from: (u8, u8), to: (u8, u8), board: &Board) -> (r: bool) {
        let piece = match board.get_square(&BoardPosition::from(from)) {
            Some(p) => *p,
            None => {
                return false;
            },
        };
        let should_move_forward = piece.1 == Player::White;
        let (delta_x, delta_y) = (delta(from.0, to.0), delta(from.1, to.1));
        if (should_move_forward && from.1 > to.1) || (!should_move_forward && from.1 < to.1) {
            return false;
        }
        let target_empty = board.get_square(&BoardPosition::from(to)).is_none();
        if delta_x == 1 && delta_y == 1 && !target_empty {
            true
        } else if delta_x == 0 && delta_y == 1 && target_empty {
            true
        } else if delta_x == 0 && delta_y == 2 && ((from.1 == 2 && piece.1 == Player::White) || (
        from.1 == 7 && piece.1 == Player::Black)) && target_empty {
            let middle = if should_move_forward {
                from.1 + 1
            } else {
                from.1 - 1
            };
            board.get_square(&BoardPosition::new(from.0, middle)).is_none()
        } else {
            false
        }
    }
}

} // verus!
