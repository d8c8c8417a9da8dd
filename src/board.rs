use vstd::prelude::*;

pub mod iterator;
pub mod position;

use crate::pieces::{Piece, PieceType, Player};
use self::position::BoardPosition;
pub use self::position::Move;
use vstd::array::ArrayAdditionalExecFns;

verus! {

/// Which castling moves each side may still make.
#[derive(Clone, Copy, Debug, PartialEq, Eq, Structural)]
pub struct CastlingRights {
    pub white_king_side: bool,
    pub white_queen_side: bool,
    pub black_king_side: bool,
    pub black_queen_side: bool,
}

impl CastlingRights {
    pub open spec fn none() -> CastlingRights {
        CastlingRights {
            white_king_side: false,
            white_queen_side: false,
            black_king_side: false,
            black_queen_side: false,
        }
    }

    /// Whether `player` may castle on the king's side (`king_side`) or the queen's side.
    pub open spec fn allows(self, player: Player, king_side: bool) -> bool {
        match (player, king_side) {
            (Player::White, true) => self.white_king_side,
            (Player::White, false) => self.white_queen_side,
            (Player::Black, true) => self.black_king_side,
            (Player::Black, false) => self.black_queen_side,
        }
    }

    pub fn allows_castle(&self, player: Player, king_side: bool) -> (r: bool)
        ensures
            r == self.allows(player, king_side),
    {
        match (player, king_side) {
            (Player::White, true) => self.white_king_side,
            (Player::White, false) => self.white_queen_side,
            (Player::Black, true) => self.black_king_side,
            (Player::Black, false) => self.black_queen_side,
        }
    }
}

/// A chess position as plain values: what stands on each square, the side to move, the
/// castling rights and the en-passant target square. Squares are indexed `0..64`, `a1` first,
/// rank by rank (`index = 8 * rank + file`).
#[derive(Clone, Copy, Debug, PartialEq, Eq)]
pub struct Board {
    board: [[Option<Piece>; 8]; 8],
    to_move: Player,
    castling: CastlingRights,
    en_passant: Option<u8>,
}

/// The piece on the square with index `sq` of a grid of ranks.
pub open spec fn grid_at(grid: [[Option<Piece>; 8]; 8], sq: int) -> Option<Piece> {
    grid@[sq / 8]@[sq % 8]
}

/// The index `0..64` of a square given in board coordinates.
pub open spec fn square_of(pos: BoardPosition) -> int {
    (pos.rank_spec() - 1) * 8 + (pos.file_spec() - 1)
}

/// The piece on square `sq` of the standard starting position.
pub open spec fn start_piece(sq: int) -> Option<Piece> {
    let file = sq % 8;
    let rank = sq / 8;
    let back = if file == 0 || file == 7 {
        PieceType::Rook
    } else if file == 1 || file == 6 {
        PieceType::Knight
    } else if file == 2 || file == 5 {
        PieceType::Bishop
    } else if file == 3 {
        PieceType::Queen
    } else {
        PieceType::King
    };
    if rank == 0 {
        Some(Piece(back, Player::White))
    } else if rank == 1 {
        Some(Piece(PieceType::Pawn, Player::White))
    } else if rank == 6 {
        Some(Piece(PieceType::Pawn, Player::Black))
    } else if rank == 7 {
        Some(Piece(back, Player::Black))
    } else {
        None
    }
}

impl Board {
    /// The piece on square `sq` (`0 <= sq < 64`).
    pub closed spec fn piece_at(&self, sq: int) -> Option<Piece> {
        grid_at(self.board, sq)
    }

    pub closed spec fn side(&self) -> Player {
        self.to_move
    }

    pub closed spec fn rights(&self) -> CastlingRights {
        self.castling
    }

    pub closed spec fn ep_square(&self) -> Option<u8> {
        self.en_passant
    }

    /// An en-passant target, if any, is a square of the board.
    pub open spec fn wf(&self) -> bool {
        self.ep_square() matches Some(s) ==> s < 64
    }

    /// The standard starting position.
    pub open spec fn is_start(&self) -> bool {
        &&& forall|sq: int| 0 <= sq < 64 ==> #[trigger] self.piece_at(sq) == start_piece(sq)
        &&& self.side() == Player::White
        &&& self.rights() == (CastlingRights {
            white_king_side: true,
            white_queen_side: true,
            black_king_side: true,
            black_queen_side: true,
        })
        &&& self.ep_square() is None
    }

    /// A position with the given pieces, White to move, no castling rights and no en-passant
    /// target.
    pub fn new(board: [[Option<Piece>; 8]; 8]) -> (r: Self)
        ensures
            r.wf(),
            forall|sq: int| 0 <= sq < 64 ==> #[trigger] r.piece_at(sq) == grid_at(board, sq),
            r.side() == Player::White,
            r.rights() == CastlingRights::none(),
            r.ep_square() is None,
    {
        Self { board, to_move: Player::White, castling: CastlingRights { white_king_side: false, white_queen_side: false, black_king_side: false, black_queen_side: false }, en_passant: None }
    }

    /// The empty board, White to move.
    pub fn blank_board() -> (r: Self)
        ensures
            r.wf(),
            forall|sq: int| 0 <= sq < 64 ==> #[trigger] r.piece_at(sq) is None,
            r.side() == Player::White,
            r.rights() == CastlingRights::none(),
            r.ep_square() is None,
    {
        let row: [Option<Piece>; 8] = [None, None, None, None, None, None, None, None];
        let board = [row, row, row, row, row, row, row, row];
        assert forall|sq: int| 0 <= sq < 64 implies #[trigger] grid_at(board, sq) is None by {
            assert(0 <= sq / 8 < 8);
        }
        Self::new(board)
    }

    /// The standard starting position.
    pub fn starting_board() -> (r: Self)
        ensures
            r.wf(),
            r.is_start(),
    {
        let mut r = Self::blank_board();
        r.set_castling_rights(
            CastlingRights {
                white_king_side: true,
                white_queen_side: true,
                black_king_side: true,
                black_queen_side: true,
            },
        );
        let mut f: u8 = 0;
        while f < 8
            invariant
                f <= 8,
                r.wf(),
                r.side() == Player::White,
                r.ep_square() is None,
                r.rights() == (CastlingRights {
                    white_king_side: true,
                    white_queen_side: true,
                    black_king_side: true,
                    black_queen_side: true,
                }),
                forall|sq: int|
                    0 <= sq < 64 ==> #[trigger] r.piece_at(sq) == if sq % 8 < f {
                        start_piece(sq)
                    } else {
                        None
                    },
            decreases 8 - f,
        {
            let back = if f == 0 || f == 7 {
                PieceType::Rook
            } else if f == 1 || f == 6 {
                PieceType::Knight
            } else if f == 2 || f == 5 {
                PieceType::Bishop
            } else if f == 3 {
                PieceType::Queen
            } else {
                PieceType::King
            };
            r.put(f, Some(Piece(back, Player::White)));
            r.put(8 + f, Some(Piece(PieceType::Pawn, Player::White)));
            r.put(48 + f, Some(Piece(PieceType::Pawn, Player::Black)));
            r.put(56 + f, Some(Piece(back, Player::Black)));
            f = f + 1;
        }
        r
    }

    /// Puts `value` on square `sq`.
    pub(crate) fn put(&mut self, sq: u8, value: Option<Piece>)
        requires
            sq < 64,
        ensures
            forall|s: int|
                0 <= s < 64 ==> #[trigger] final(self).piece_at(s) == if s == sq {
                    value
                } else {
                    old(self).piece_at(s)
                },
            final(self).side() == old(self).side(),
            final(self).rights() == old(self).rights(),
            final(self).ep_square() == old(self).ep_square(),
    {
        let y = (sq / 8) as usize;
        let x = (sq % 8) as usize;
        let mut row = self.board[y];
        row.set(x, value);
        self.board.set(y, row);
        assert forall|s: int| 0 <= s < 64 implies #[trigger] self.piece_at(s) == if s == sq {
            value
        } else {
            old(self).piece_at(s)
        } by {
            if s != sq {
                assert(s / 8 != y || s % 8 != x);
            }
        }
    }

    /// The piece on square `sq` (`0..64`).
    pub fn piece_on(&self, sq: u8) -> (r: Option<Piece>)
        requires
            sq < 64,
        ensures
            r == self.piece_at(sq as int),
    {
        self.board[(sq / 8) as usize][(sq % 8) as usize]
    }

    pub fn set_to_move(&mut self, player: Player)
        ensures
            final(self).side() == player,
            forall|s: int| 0 <= s < 64 ==> #[trigger] final(self).piece_at(s) == old(self).piece_at(s),
            final(self).rights() == old(self).rights(),
            final(self).ep_square() == old(self).ep_square(),
    {
        self.to_move = player;
    }

    pub fn get_to_move(&self) -> (r: &Player)
        ensures
            *r == self.side(),
    {
        &self.to_move
    }

    pub fn castling_rights(&self) -> (r: CastlingRights)
        ensures
            r == self.rights(),
    {
        self.castling
    }

    pub fn set_castling_rights(&mut self, rights: CastlingRights)
        ensures
            final(self).rights() == rights,
            forall|s: int| 0 <= s < 64 ==> #[trigger] final(self).piece_at(s) == old(self).piece_at(s),
            final(self).side() == old(self).side(),
            final(self).ep_square() == old(self).ep_square(),
    {
        self.castling = rights;
    }

    /// The square a pawn passed over in a two-square advance on the last move, if any.
    pub fn en_passant(&self) -> (r: Option<u8>)
        ensures
            r == self.ep_square(),
    {
        self.en_passant
    }

    pub fn set_en_passant(&mut self, square: Option<u8>)
        requires
            square matches Some(s) ==> s < 64,
        ensures
            final(self).ep_square() == square,
            forall|s: int| 0 <= s < 64 ==> #[trigger] final(self).piece_at(s) == old(self).piece_at(s),
            final(self).side() == old(self).side(),
            final(self).rights() == old(self).rights(),
    {
        self.en_passant = square;
    }

    pub fn set_square(&mut self, pos: &BoardPosition, value: &Option<Piece>)
        requires
            pos.on_board(),
        ensures
            forall|s: int|
                0 <= s < 64 ==> #[trigger] final(self).piece_at(s) == if s == square_of(*pos) {
                    *value
                } else {
                    old(self).piece_at(s)
                },
            final(self).side() == old(self).side(),
            final(self).rights() == old(self).rights(),
            final(self).ep_square() == old(self).ep_square(),
    {
        let (x, y) = pos.get_index();
        self.put(y * 8 + x, *value);
    }

    pub fn get_square(&self, pos: &BoardPosition) -> (r: &Option<Piece>)
        requires
            pos.on_board(),
        ensures
            *r == self.piece_at(square_of(*pos)),
    {
        let (x, y) = pos.get_index();
        &self.board[y as usize][x as usize]
    }
}

/// The symbol of a square's contents: a chess figurine, or a space for an empty square.
pub open spec fn piece_symbol(possible_piece: Option<Piece>) -> char {
    match possible_piece {
        None => ' ',
        Some(Piece(t, p)) => {
            let white = match t {
                PieceType::King => '\u{2654}',
                PieceType::Queen => '\u{2655}',
                PieceType::Rook => '\u{2656}',
                PieceType::Bishop => '\u{2657}',
                PieceType::Knight => '\u{2658}',
                PieceType::Pawn => '\u{2659}',
            };
            let black = match t {
                PieceType::King => '\u{265A}',
                PieceType::Queen => '\u{265B}',
                PieceType::Rook => '\u{265C}',
                PieceType::Bishop => '\u{265D}',
                PieceType::Knight => '\u{265E}',
                PieceType::Pawn => '\u{265F}',
            };
            if p == Player::Black {
                black
            } else {
                white
            }
        },
    }
}

pub fn piece_to_char(possible_piece: &Option<Piece>) -> (r: char)
    ensures
        r == piece_symbol(*possible_piece),
{
    if let Some(piece) = possible_piece {
        return match piece.0 {
            PieceType::Queen => if piece.1 == Player::Black {
                '\u{265B}'
            } else {
                '\u{2655}'
            },
            PieceType::King => if piece.1 == Player::Black {
                '\u{265A}'
            } else {
                '\u{2654}'
            },
            PieceType::Rook => if piece.1 == Player::Black {
                '\u{265C}'
            } else {
                '\u{2656}'
            },
            PieceType::Bishop => if piece.1 == Player::Black {
                '\u{265D}'
            } else {
                '\u{2657}'
            },
            PieceType::Pawn => if piece.1 == Player::Black {
                '\u{265F}'
            } else {
                '\u{2659}'
            },
            PieceType::Knight => if piece.1 == Player::Black {
                '\u{265E}'
            } else {
                '\u{2658}'
            },
        };
    }
    ' '
}

/// Two positions that agree on every square, the side to move, the castling rights and the
/// en-passant target are the same position.
pub proof fn lemma_board_ext(a: Board, b: Board)
    requires
        forall|s: int| 0 <= s < 64 ==> #[trigger] a.piece_at(s) == b.piece_at(s),
        a.side() == b.side(),
        a.rights() == b.rights(),
        a.ep_square() == b.ep_square(),
    ensures
        a == b,
{
    broadcast use vstd::array::group_array_axioms;

    assert forall|y: int| 0 <= y < 8 implies a.board[y] =~= b.board[y] by {
        assert forall|x: int| 0 <= x < 8 implies a.board[y][x] == b.board[y][x] by {
            assert(a.piece_at(y * 8 + x) == b.piece_at(y * 8 + x));
            assert((y * 8 + x) / 8 == y && (y * 8 + x) % 8 == x);
        }
    }
    assert(a.board =~= b.board);
    assert(a.board == b.board);
}

} // verus!
