use vstd::prelude::*;

pub mod bishop;
pub mod king;
pub mod knight;
pub mod pawn;
pub mod queen;
pub mod rook;

use crate::board::position::{BoardPosition, Move};
use crate::board::Board;

verus! {

/// The side a piece belongs to.
#[derive(Clone, Copy, PartialEq, Eq, Debug, Structural)]
pub enum Player {
    White,
    Black,
}

impl Player {
    pub fn opposite(&self) -> (r: Self)
        ensures
            r != *self,
    {
        match self {
            Player::White => Player::Black,
            Player::Black => Player::White,
        }
    }
}

/// The kind of a chess piece.
#[derive(Clone, Copy, PartialEq, Eq, Debug, Structural)]
pub enum PieceType {
    Queen,
    King,
    Rook,
    Bishop,
    Pawn,
    Knight,
}

/// A piece: its kind and its side.
#[derive(Clone, Copy, PartialEq, Eq, Debug, Structural)]
pub struct Piece(pub PieceType, pub Player);

/// The FEN letter of a piece: upper case for White, lower case for Black.
pub open spec fn piece_letter(p: Piece) -> u8 {
    let upper: u8 = match p.0 {
        PieceType::Pawn => 80u8,
        PieceType::Knight => 78u8,
        PieceType::Bishop => 66u8,
        PieceType::Rook => 82u8,
        PieceType::Queen => 81u8,
        PieceType::King => 75u8,
    };
    if p.1 == Player::White {
        upper
    } else {
        (upper + 32) as u8
    }
}

/// The piece that a FEN letter names, if any.
pub open spec fn letter_piece(c: u8) -> Option<Piece> {
    let (lower, player) = if 65 <= c <= 90 {
        ((c + 32) as u8, Player::White)
    } else {
        (c, Player::Black)
    };
    if lower == 112 {
        Some(Piece(PieceType::Pawn, player))
    } else if lower == 110 {
        Some(Piece(PieceType::Knight, player))
    } else if lower == 98 {
        Some(Piece(PieceType::Bishop, player))
    } else if lower == 114 {
        Some(Piece(PieceType::Rook, player))
    } else if lower == 113 {
        Some(Piece(PieceType::Queen, player))
    } else if lower == 107 {
        Some(Piece(PieceType::King, player))
    } else {
        None
    }
}

pub fn to_letter(p: Piece) -> (r: u8)
    ensures
        r == piece_letter(p),
        letter_piece(r) == Some(p),
{
    let upper: u8 = match p.0 {
        PieceType::Pawn => 80,
        PieceType::Knight => 78,
        PieceType::Bishop => 66,
        PieceType::Rook => 82,
        PieceType::Queen => 81,
        PieceType::King => 75,
    };
    if p.1 == Player::White {
        upper
    } else {
        upper + 32
    }
}

pub fn from_letter(c: u8) -> (r: Option<Piece>)
    ensures
        r == letter_piece(c),
{
    let (lower, player) = if 65 <= c && c <= 90 {
        (c + 32, Player::White)
    } else {
        (c, Player::Black)
    };
    if lower == 112 {
        Some(Piece(PieceType::Pawn, player))
    } else if lower == 110 {
        Some(Piece(PieceType::Knight, player))
    } else if lower == 98 {
        Some(Piece(PieceType::Bishop, player))
    } else if lower == 114 {
        Some(Piece(PieceType::Rook, player))
    } else if lower == 113 {
        Some(Piece(PieceType::Queen, player))
    } else if lower == 107 {
        Some(Piece(PieceType::King, player))
    } else {
        None
    }
}

/// Coordinates counted from 1 that lie on the board.
pub open spec fn on_board(c: (u8, u8)) -> bool {
    1 <= c.0 <= 8 && 1 <= c.1 <= 8
}

/// The index `0..64` of the square with coordinates `c` counted from 1.
pub open spec fn index_of(c: (int, int)) -> int {
    (c.1 - 1) * 8 + (c.0 - 1)
}

/// The piece on the square with coordinates `c`.
pub open spec fn at(board: Board, c: (int, int)) -> Option<Piece> {
    board.piece_at(index_of(c))
}

pub open spec fn diff(a: u8, b: u8) -> int {
    if a >= b {
        a - b
    } else {
        b - a
    }
}

pub open spec fn sign(a: u8, b: u8) -> int {
    if b > a {
        1
    } else if b < a {
        -1
    } else {
        0
    }
}

/// Every square strictly between `from` and `to`, stepping one square at a time along the
/// line from `from` toward `to`, is empty (`from` and `to` on one rank, file or diagonal).
pub open spec fn clear_path(from: (u8, u8), to: (u8, u8), board: Board) -> bool {
    let n = if diff(from.0, to.0) >= diff(from.1, to.1) {
        diff(from.0, to.0)
    } else {
        diff(from.1, to.1)
    };
    forall|k: int|
        0 < k < n ==> #[trigger] at(
            board,
            (from.0 + k * sign(from.0, to.0), from.1 + k * sign(from.1, to.1)),
        ) is None
}

/// The distance between two coordinates.
pub fn delta(a: u8, b: u8) -> (r: u8)
    ensures
        r as int == diff(a, b),
{
    if a >= b {
        a - b
    } else {
        b - a
    }
}

/// Whether the rules of a piece of kind `t` allow the move from `from` to `to`.
pub open spec fn raw_valid(t: PieceType, from: (u8, u8), to: (u8, u8), board: Board) -> bool {
    match t {
        PieceType::Queen => <queen::Queen as PartialPiece>::valid(from, to, board),
        PieceType::King => <king::King as PartialPiece>::valid(from, to, board),
        PieceType::Rook => <rook::Rook as PartialPiece>::valid(from, to, board),
        PieceType::Bishop => <bishop::Bishop as PartialPiece>::valid(from, to, board),
        PieceType::Pawn => <pawn::Pawn as PartialPiece>::valid(from, to, board),
        PieceType::Knight => <knight::Knight as PartialPiece>::valid(from, to, board),
    }
}

/// The coordinates, counted from 1, of square `s` (`0..64`).
pub open spec fn coords(s: int) -> (u8, u8) {
    ((s % 8 + 1) as u8, (s / 8 + 1) as u8)
}

/// A piece of the other side on `a` may move, by its rules, onto the king of `player` on `k`.
pub open spec fn attacks(board: Board, player: Player, k: int, a: int) -> bool {
    &&& board.piece_at(k) == Some(Piece(PieceType::King, player))
    &&& board.piece_at(a) matches Some(q) && q.1 != player && raw_valid(
        q.0,
        coords(a),
        coords(k),
        board,
    )
}

impl Piece {
    /// Validates the move by the rules of the piece on its origin and, when it is valid,
    /// plays it on a copy of the board; with no piece on the origin the move is invalid.
    pub fn validate_and_execute_move(chess_move: &Move, board: &Board) -> (r: (bool, Board))
        requires
            chess_move.from.on_board(),
            chess_move.to.on_board(),
        ensures
            match board.piece_at(crate::board::square_of(chess_move.from)) {
                None => !r.0 && r.1 == *board,
                Some(p) => r.0 == raw_valid(
                    p.0,
                    chess_move.from.tuple_spec(),
                    chess_move.to.tuple_spec(),
                    *board,
                ) && executed(*board, *chess_move, r.0, r.1),
            },
    {
        let piece = match board.get_square(&chess_move.from) {
            Some(p) => *p,
            None => {
                return (false, *board);
            },
        };
        match piece.0 {
            PieceType::Queen => queen::Queen::validate_and_execute_move(chess_move, board),
            PieceType::King => king::King::validate_and_execute_move(chess_move, board),
            PieceType::Rook => rook::Rook::validate_and_execute_move(chess_move, board),
            PieceType::Bishop => bishop::Bishop::validate_and_execute_move(chess_move, board),
            PieceType::Pawn => pawn::Pawn::validate_and_execute_move(chess_move, board),
            PieceType::Knight => knight::Knight::validate_and_execute_move(chess_move, board),
        }
    }

    /// Whether the rules of a piece of kind `piece` allow the move.
    pub fn raw_validate_move(chess_move: &Move, board: &Board, piece: PieceType) -> (r: bool)
        requires
            chess_move.from.on_board(),
            chess_move.to.on_board(),
        ensures
            r == raw_valid(piece, chess_move.from.tuple_spec(), chess_move.to.tuple_spec(), *board),
    {
        let (from, to) = (chess_move.from.tuple(), chess_move.to.tuple());
        match piece {
            PieceType::Queen => queen::Queen::validate_move(from, to, board),
            PieceType::King => king::King::validate_move(from, to, board),
            PieceType::Rook => rook::Rook::validate_move(from, to, board),
            PieceType::Bishop => bishop::Bishop::validate_move(from, to, board),
            PieceType::Pawn => pawn::Pawn::validate_move(from, to, board),
            PieceType::Knight => knight::Knight::validate_move(from, to, board),
        }
    }

    /// Whether a king of `player` stands where a piece of the other side may move by its
    /// rules.
    pub fn is_check(player: &Player, board: &Board) -> (r: bool)
        ensures
            r == exists|k: int, a: int| 0 <= k < 64 && 0 <= a < 64 && attacks(*board, *player, k, a),
    {
        let mut k: u8 = 0;
        while k < 64
            invariant
                k <= 64,
                forall|k2: int, a: int|
                    0 <= k2 < k && 0 <= a < 64 ==> !#[trigger] attacks(*board, *player, k2, a),
            decreases 64 - k,
        {
            if board.piece_on(k) == Some(Piece(PieceType::King, *player)) {
                let mut a: u8 = 0;
                while a < 64
                    invariant
                        k < 64,
                        a <= 64,
                        board.piece_at(k as int) == Some(Piece(PieceType::King, *player)),
                        forall|k2: int, a2: int|
                            0 <= k2 < k && 0 <= a2 < 64 ==> !#[trigger] attacks(
                                *board,
                                *player,
                                k2,
                                a2,
                            ),
                        forall|a2: int| 0 <= a2 < a ==> !#[trigger] attacks(*board, *player, k as int, a2),
                    decreases 64 - a,
                {
                    match board.piece_on(a) {
                        Some(q) => {
                            if q.1 != *player {
                                let m = Move {
                                    from: BoardPosition::new(a % 8 + 1, a / 8 + 1),
                                    to: BoardPosition::new(k % 8 + 1, k / 8 + 1),
                                };
                                if Self::raw_validate_move(&m, board, q.0) {
                                    assert(attacks(*board, *player, k as int, a as int));
                                    return true;
                                }
                            }
                        },
                        None => {},
                    }
                    a = a + 1;
                }
            }
            k = k + 1;
        }
        false
    }
}

/// The movement rules of one kind of piece.
pub trait PartialPiece {
    /// Whether the piece's rules allow the move from `from` to `to` on `board`.
    spec fn valid(from: (u8, u8), to: (u8, u8), board: Board) -> bool;

    fn validate_move(from: (u8, u8), to: (u8, u8), board: &Board) -> (r: bool)
        requires
            on_board(from),
            on_board(to),
        ensures
            r == Self::valid(from, to, *board),
    ;

    /// Validates the move and, when it is valid, plays it on a copy of the board.
    fn validate_and_execute_move(chess_move: &Move, board: &Board) -> (r: (bool, Board))
        requires
            chess_move.from.on_board(),
            chess_move.to.on_board(),
            board.piece_at(crate::board::square_of(chess_move.from)) is Some,
        ensures
            r.0 == Self::valid(chess_move.from.tuple_spec(), chess_move.to.tuple_spec(), *board),
            executed(*board, *chess_move, r.0, r.1),
    {
        let is_valid = Self::validate_move(chess_move.from.tuple(), chess_move.to.tuple(), board);
        (is_valid, Self::execute_move(is_valid, board, chess_move))
    }

    /// Plays the move on a copy of the board when `is_valid`.
    fn execute_move(is_valid: bool, board: &Board, chess_move: &Move) -> (r: Board)
        requires
            chess_move.from.on_board(),
            chess_move.to.on_board(),
            board.piece_at(crate::board::square_of(chess_move.from)) is Some,
        ensures
            executed(*board, *chess_move, is_valid, r),
    {
        let mut new_board = *board;
        let piece = *board.get_square(&chess_move.from);
        if is_valid {
            new_board.set_square(&chess_move.from, &None);
            new_board.set_square(&chess_move.to, &piece);
        }
        new_board
    }
}

/// `after` is `before` with the move played when `is_valid`, and `before` unchanged
/// otherwise: the piece leaves `from` and stands on `to`.
pub open spec fn executed(before: Board, m: Move, is_valid: bool, after: Board) -> bool {
    let from = crate::board::square_of(m.from);
    let to = crate::board::square_of(m.to);
    &&& after.side() == before.side()
    &&& after.rights() == before.rights()
    &&& after.ep_square() == before.ep_square()
    &&& forall|s: int|
        0 <= s < 64 ==> #[trigger] after.piece_at(s) == if !is_valid {
            before.piece_at(s)
        } else if s == to {
            before.piece_at(from)
        } else if s == from {
            None
        } else {
            before.piece_at(s)
        }
}

} // verus!
