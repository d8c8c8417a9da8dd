use vstd::prelude::*;

use super::{delta, diff, PartialPiece};
use crate::board::Board;

verus! {

/// The knight: two squares along one axis and one along the other.
pub struct Knight {}

impl PartialPiece for Knight {
    open spec fn valid(from: (u8, u8), to: (u8, u8), board: Board) -> bool {
        let (dx, dy) = (diff(from.0, to.0), diff(from.1, to.1));
        (dx == 1 && dy == 2) || (dy == 1 && dx == 2)
    }

    fn validate_move(from: (u8, u8), to: (u8, u8), _board: &Board) -> (r: bool) {
        let (delta_x, delta_y) = (delta(from.0, to.0), delta(from.1, to.1));
        (delta_x == 1 && delta_y == 2) || (delta_y == 1 && delta_x == 2)
    }
}

} // verus!
