use vstd::prelude::*;

use super::bishop::Bishop;
use super::rook::Rook;
use super::PartialPiece;
use crate::board::Board;

verus! {

/// The queen: a rook's or a bishop's move.
pub struct Queen {}

impl PartialPiece for Queen {
    open spec fn valid(from: (u8, u8), to: (u8, u8), board: Board) -> bool {
        Bishop::valid(from, to, board) || Rook::valid(from, to, board)
    }

    fn validate_move(from: (u8, u8), to: (u8, u8), board: &Board) -> (r: bool) {
        Bishop::validate_move(from, to, board) || Rook::validate_move(from, to, board)
    }
}

} // verus!
