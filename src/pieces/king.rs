use vstd::prelude::*;

use super::{delta, diff, PartialPiece};
use crate::board::Board;

verus! {

/// The king: one square in any direction.
pub struct King {}

impl PartialPiece for King {
    open spec fn valid(from: (u8, u8), to: (u8, u8), board: Board) -> bool {
        diff(from.0, to.0) <= 1 && diff(from.1, to.1) <= 1
    }

    fn validate_move(from: (u8, u8), to: (u8, u8), _board: &Board) -> (r: bool) {
        delta(from.0, to.0) <= 1 && delta(from.1, to.1) <= 1
    }
}

} // verus!
