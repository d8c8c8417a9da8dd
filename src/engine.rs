use vstd::prelude::*;

use crate::board::Board;
use crate::fen::{fen_describes, fen_error, fen_text};
use crate::pieces::PieceType;
use shakmaty::fen::Fen;
use shakmaty::uci::UciMove;
use shakmaty::{CastlingMode, Chess, EnPassantMode, Position};

verus! {

/// A move as the codec carries it; squares are indexed `0..64` as on [`Board`].
#[derive(Clone, Copy, Debug, PartialEq, Eq, Structural)]
pub enum ChessMove {
    Normal { from: u8, to: u8, promotion: Option<PieceType> },
    EnPassant { from: u8, to: u8 },
    /// Castling, given by the king's square and the castling rook's square.
    Castle { king: u8, rook: u8 },
}

/// Whether the UCI move `uci` is legal in the position with FEN text `fen` (false when either
/// text does not describe a standard-chess position or move).
pub uninterp spec fn legal_uci(fen: Seq<u8>, uci: Seq<u8>) -> bool;

/// The FEN text of the position after the legal UCI move `uci` in the position `fen`.
pub uninterp spec fn played_fen(fen: Seq<u8>, uci: Seq<u8>) -> Seq<u8>;

/// Relies on shakmaty's `Fen::from_ascii`, `Fen::into_position` (standard castling) and
/// `UciMove::from_ascii`, and on `UciMove::to_move`, which succeeds exactly on a legal move:
/// the answer depends on the two texts alone.
#[verifier::external_body]
fn uci_is_legal(fen: &[u8], uci: &[u8]) -> (r: bool)
    ensures
        r == legal_uci(fen@, uci@),
{
    match (Fen::from_ascii(fen), UciMove::from_ascii(uci)) {
        (Ok(fen), Ok(uci)) => match fen.into_position::<Chess>(CastlingMode::Standard) {
            Ok(pos) => uci.to_move(&pos).is_ok(),
            Err(_) => false,
        },
        _ => false,
    }
}

/// Relies on the same parsing and `UciMove::to_move` as [`uci_is_legal`], then on
/// `Position::play_unchecked` and `Fen::from_position` (en-passant square only when a legal
/// capture exists) with `Fen::append_ascii_to`: a result exactly for a legal move, and one
/// that depends on the two texts alone.
#[verifier::external_body]
fn uci_play(fen: &[u8], uci: &[u8]) -> (r: Option<Vec<u8>>)
    ensures
        r is Some == legal_uci(fen@, uci@),
        r matches Some(v) ==> v@ == played_fen(fen@, uci@),
{
    match (Fen::from_ascii(fen), UciMove::from_ascii(uci)) {
        (Ok(fen), Ok(uci)) => match fen.into_position::<Chess>(CastlingMode::Standard) {
            Ok(mut pos) => match uci.to_move(&pos) {
                Ok(m) => {
                    pos.play_unchecked(&m);
                    let mut out = Vec::new();
                    Fen::from_position(pos, EnPassantMode::Legal).append_ascii_to(&mut out);
                    Some(out)
                },
                Err(_) => None,
            },
            Err(_) => None,
        },
        _ => None,
    }
}

/// The UCI letter of a promotion piece (`q`, `r`, `b`, `n`), if it is one.
pub open spec fn promotion_letter(p: PieceType) -> Option<u8> {
    match p {
        PieceType::Queen => Some(113u8),
        PieceType::Rook => Some(114u8),
        PieceType::Bishop => Some(98u8),
        PieceType::Knight => Some(110u8),
        _ => None,
    }
}

/// The name of square `sq`: its file letter and rank digit.
pub open spec fn square_text(sq: int) -> Seq<u8> {
    seq![(97 + sq % 8) as u8, (49 + sq / 8) as u8]
}

/// The UCI text of a move from `from` to `to` with an optional promotion.
pub open spec fn uci_text(from: u8, to: u8, promotion: Option<PieceType>) -> Seq<u8> {
    square_text(from as int) + square_text(to as int) + match promotion {
        Some(p) => match promotion_letter(p) {
            Some(c) => seq![c],
            None => seq![],
        },
        None => seq![],
    }
}

/// The square a castling king lands on: two files toward the rook.
pub open spec fn castle_landing(king: u8, rook: u8) -> int {
    if rook % 8 > king % 8 {
        king + 2
    } else {
        king - 2
    }
}

/// The UCI text of a move; castling is written as the king's two-square step.
pub open spec fn move_uci(m: ChessMove) -> Seq<u8> {
    match m {
        ChessMove::Normal { from, to, promotion } => uci_text(from, to, promotion),
        ChessMove::EnPassant { from, to } => uci_text(from, to, None),
        ChessMove::Castle { king, rook } => square_text(king as int) + square_text(
            castle_landing(king, rook),
        ),
    }
}

/// Whether the rules engine accepts the move from `from` to `to` in position `b`.
pub open spec fn is_legal(b: Board, from: u8, to: u8, promotion: Option<PieceType>) -> bool {
    legal_uci(fen_text(b), uci_text(from, to, promotion))
}

/// `next` is the position that the rules engine reaches by playing `m` in `b`.
#[verifier::opaque]
pub open spec fn follows(b: Board, m: ChessMove, next: Board) -> bool {
    let f = played_fen(fen_text(b), move_uci(m));
    &&& legal_uci(fen_text(b), move_uci(m))
    &&& fen_error(f) is None
    &&& fen_describes(f, next)
    &&& next.wf()
}

/// Whether the rules engine plays `m` in `b` to a position that this library reads back.
pub open spec fn playable(b: Board, m: ChessMove) -> bool {
    legal_uci(fen_text(b), move_uci(m)) && fen_error(played_fen(fen_text(b), move_uci(m))) is None
}

fn push_square(out: &mut Vec<u8>, sq: u8)
    requires
        sq < 64,
    ensures
        final(out)@ == old(out)@ + square_text(sq as int),
{
    out.push(97 + sq % 8);
    out.push(49 + sq / 8);
    assert(final(out)@ =~= old(out)@ + square_text(sq as int));
}

pub fn uci_bytes(from: u8, to: u8, promotion: Option<PieceType>) -> (r: Vec<u8>)
    requires
        from < 64,
        to < 64,
    ensures
        r@ == uci_text(from, to, promotion),
{
    let mut out: Vec<u8> = Vec::new();
    push_square(&mut out, from);
    push_square(&mut out, to);
    match promotion {
        Some(PieceType::Queen) => out.push(113),
        Some(PieceType::Rook) => out.push(114),
        Some(PieceType::Bishop) => out.push(98),
        Some(PieceType::Knight) => out.push(110),
        _ => {},
    }
    assert(out@ =~= uci_text(from, to, promotion));
    out
}

/// Every square of the move is on the board, and a castling king lands on its own rank.
pub open spec fn well_formed(m: ChessMove) -> bool {
    match m {
        ChessMove::Normal { from, to, .. } => from < 64 && to < 64,
        ChessMove::EnPassant { from, to } => from < 64 && to < 64,
        ChessMove::Castle { king, rook } => king < 64 && rook < 64 && if rook % 8 > king % 8 {
            king % 8 + 2 < 8
        } else {
            king % 8 >= 2
        },
    }
}

fn move_uci_bytes(m: &ChessMove) -> (r: Vec<u8>)
    requires
        well_formed(*m),
    ensures
        r@ == move_uci(*m),
{
    match *m {
        ChessMove::Normal { from, to, promotion } => uci_bytes(from, to, promotion),
        ChessMove::EnPassant { from, to } => uci_bytes(from, to, None),
        ChessMove::Castle { king, rook } => {
            let landing = if rook % 8 > king % 8 {
                king + 2
            } else {
                king - 2
            };
            let mut out: Vec<u8> = Vec::new();
            push_square(&mut out, king);
            push_square(&mut out, landing);
            assert(out@ =~= move_uci(*m));
            out
        },
    }
}

/// Asks the rules engine whether the move from `from` to `to` is legal in `b`.
pub fn legal(b: &Board, from: u8, to: u8, promotion: Option<PieceType>) -> (r: bool)
    requires
        b.wf(),
        from < 64,
        to < 64,
    ensures
        r == is_legal(*b, from, to, promotion),
{
    let fen = b.to_fen();
    let uci = uci_bytes(from, to, promotion);
    uci_is_legal(fen.as_slice(), uci.as_slice())
}

/// Plays `m` in `b` through the rules engine.
pub fn play(b: &Board, m: &ChessMove) -> (r: Option<Board>)
    requires
        b.wf(),
        well_formed(*m),
    ensures
        r is Some == playable(*b, *m),
        r matches Some(n) ==> follows(*b, *m, n) && n.wf(),
{
    reveal(follows);
    let fen = b.to_fen();
    let uci = move_uci_bytes(m);
    match uci_play(fen.as_slice(), uci.as_slice()) {
        None => None,
        Some(next) => match Board::from_fen_bytes(next.as_slice()) {
            Ok(n) => Some(n),
            Err(_) => None,
        },
    }
}

} // verus!
