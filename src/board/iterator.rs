use vstd::prelude::*;

use super::position::BoardPosition;
use super::{square_of, Board};
use crate::pieces::Piece;

verus! {

/// Walks the pieces of a board, square by square from `a1`.
pub struct BoardIterator<'a> {
    board: &'a Board,
    index: usize,
}

impl<'a> BoardIterator<'a> {
    pub closed spec fn board_spec(&self) -> Board {
        *self.board
    }

    /// The index of the next square to look at.
    pub closed spec fn cursor(&self) -> int {
        self.index as int
    }

    pub fn new(board: &'a Board) -> (r: Self)
        ensures
            r.board_spec() == *board,
            r.cursor() == 0,
    {
        Self { board, index: 0 }
    }

    /// The next occupied square, with its piece.
    pub fn next(&mut self) -> (r: Option<(Piece, BoardPosition)>)
        requires
            old(self).cursor() <= 64,
        ensures
            final(self).board_spec() == old(self).board_spec(),
            final(self).cursor() <= 64,
            match r {
                None => final(self).cursor() == 64 && forall|s: int|
                    old(self).cursor() <= s < 64 ==> #[trigger] old(self).board_spec().piece_at(s) is None,
                Some((p, pos)) => {
                    let s = square_of(pos);
                    &&& pos.on_board()
                    &&& old(self).cursor() <= s < 64
                    &&& old(self).board_spec().piece_at(s) == Some(p)
                    &&& forall|t: int|
                        old(self).cursor() <= t < s ==> #[trigger] old(self).board_spec().piece_at(t) is None
                    &&& final(self).cursor() == s + 1
                },
            },
    {
        while self.index < 64
            invariant
                self.board == old(self).board,
                old(self).index <= self.index <= 64,
                forall|t: int| old(self).index <= t < self.index ==> #[trigger] self.board.piece_at(t) is None,
            decreases 64 - self.index,
        {
            let i = self.index as u8;
            match self.board.piece_on(i) {
                Some(p) => {
                    self.index = self.index + 1;
                    return Some((p, BoardPosition::from_index((i % 8, i / 8))));
                },
                None => {
                    self.index = self.index + 1;
                },
            }
        }
        None
    }
}

} // verus!
