use vstd::prelude::*;

use crate::bitbuffer::{
    bits_of_bytes, bits_value, bytes_of_bits, entries_bits, lemma_bytes_round_trip,
    lemma_entries_bits_append, lemma_low_bits_len, lemma_value_of_low_bits, low_bits, pow2, zeros,
};
use crate::board::Board;
use crate::engine::{castle_landing, follows, well_formed, ChessMove};
use crate::filters::{
    abs_diff, candidates, file_of, first_populated, lemma_first_populated_exists,
    lemma_found_slots, lemma_one_populated, lemma_two_populated, populated, rank_of, slot_of,
    FilterKind,
};
use crate::outcome::Outcome;
use crate::pieces::{PieceType, Player};

verus! {

/// The promotion key: index 0 Queen, 1 Bishop, 2 Rook, 3 Knight.
pub open spec fn promotion_index(p: PieceType) -> Option<u8> {
    match p {
        PieceType::Queen => Some(0u8),
        PieceType::Bishop => Some(1u8),
        PieceType::Rook => Some(2u8),
        PieceType::Knight => Some(3u8),
        _ => None,
    }
}

/// The piece at index `i` of the promotion key.
pub open spec fn promotion_piece(i: nat) -> Option<PieceType> {
    if i == 0 {
        Some(PieceType::Queen)
    } else if i == 1 {
        Some(PieceType::Bishop)
    } else if i == 2 {
        Some(PieceType::Rook)
    } else if i == 3 {
        Some(PieceType::Knight)
    } else {
        None
    }
}

/// The filter of a move from `from` to `to`: same file or rank is straight, equal file and
/// rank distances diagonal, anything else a knight's move.
pub open spec fn classify(from: int, to: int) -> FilterKind {
    if file_of(from) == file_of(to) || rank_of(from) == rank_of(to) {
        FilterKind::Straight
    } else if abs_diff(file_of(from), file_of(to)) == abs_diff(rank_of(from), rank_of(to)) {
        FilterKind::Diagonal
    } else {
        FilterKind::Knight
    }
}

/// The filter a move is encoded with: en passant is always diagonal, castling straight.
pub open spec fn move_kind(m: ChessMove) -> FilterKind {
    match m {
        ChessMove::Normal { from, to, .. } => classify(from as int, to as int),
        ChessMove::EnPassant { .. } => FilterKind::Diagonal,
        ChessMove::Castle { .. } => FilterKind::Straight,
    }
}

/// The origin and the encoded destination of a move; castling is encoded by the king's
/// landing square.
pub open spec fn move_ends(m: ChessMove) -> (int, int) {
    match m {
        ChessMove::Normal { from, to, .. } => (from as int, to as int),
        ChessMove::EnPassant { from, to } => (from as int, to as int),
        ChessMove::Castle { king, rook } => (king as int, castle_landing(king, rook)),
    }
}

pub open spec fn move_promotion(m: ChessMove) -> Option<PieceType> {
    match m {
        ChessMove::Normal { promotion, .. } => promotion,
        _ => None,
    }
}

/// A pawn stands on `from` and `to` lies on its far rank.
pub open spec fn promotes(b: Board, from: int, to: int) -> bool {
    b.piece_at(from) matches Some(p) && p.0 == PieceType::Pawn && if p.1 == Player::White {
        rank_of(to) == 7
    } else {
        rank_of(to) == 0
    }
}

/// The move the reader makes of origin `from` and destination `to` found with filter `kind`:
/// a pawn moving diagonally to an empty square takes en passant; a king moving two files
/// along a straight line castles with the rook in that corner of its rank; anything else is
/// a normal move with the given promotion.
pub open spec fn rebuild(
    b: Board,
    kind: FilterKind,
    from: int,
    to: int,
    promotion: Option<PieceType>,
) -> ChessMove {
    let p = b.piece_at(from)->Some_0;
    if kind == FilterKind::Diagonal && b.piece_at(to) is None && p.0 == PieceType::Pawn {
        ChessMove::EnPassant { from: from as u8, to: to as u8 }
    } else if kind == FilterKind::Straight && p.0 == PieceType::King && abs_diff(
        file_of(from),
        file_of(to),
    ) == 2 {
        ChessMove::Castle {
            king: from as u8,
            rook: (rank_of(from) * 8 + if file_of(to) > file_of(from) {
                7int
            } else {
                0int
            }) as u8,
        }
    } else {
        ChessMove::Normal { from: from as u8, to: to as u8, promotion }
    }
}

/// Why the writer refuses a move.
#[derive(Clone, Copy, Debug, PartialEq, Eq, Structural)]
pub enum WriteError {
    /// A square of the move is off the board.
    OffBoard,
    /// The move's origin is not among the candidates for its destination: the move is not
    /// legal in the position given.
    OriginNotFound,
    /// The move differs from the one the reader would rebuild from its origin and
    /// destination (castling or en passant given as a normal move, a missing or impossible
    /// promotion, and the like).
    MoveMismatch,
}

/// The core byte and the overflow entries that encode `m` played in `b`.
pub open spec fn encode_move(b: Board, m: ChessMove) -> Result<(u8, Seq<(u8, u8)>), WriteError> {
    if !well_formed(m) {
        Err(WriteError::OffBoard)
    } else {
        let (from, to) = move_ends(m);
        let kind = move_kind(m);
        let c = candidates(b, kind, to);
        let promotion = move_promotion(m);
        let rebuilt = rebuild(b, kind, from, to, promotion);
        if slot_of(c, from as u8) is None {
            Err(WriteError::OriginNotFound)
        } else if rebuilt != m || (rebuilt is Normal && promotes(b, from, to)
            != promotion is Some) || (promotion matches Some(p) && promotion_index(p) is None) {
            Err(WriteError::MoveMismatch)
        } else {
            let selector = if populated(c) > 1 {
                seq![(slot_of(c, from as u8)->Some_0 as u8, kind.width())]
            } else {
                seq![]
            };
            let promo = match promotion {
                Some(p) => seq![(promotion_index(p)->Some_0, 2u8)],
                None => seq![],
            };
            Ok(((to + 64 * kind.raw_id()) as u8, selector + promo))
        }
    }
}

/// The wire form of a game: core bytes, the terminator byte carrying the outcome code, and
/// the overflow entries packed into bytes.
pub open spec fn wire(core: Seq<u8>, entries: Seq<(u8, u8)>, outcome: Outcome) -> Seq<u8> {
    core + seq![outcome.code()] + bytes_of_bits(entries_bits(entries))
}

/// Why the reader fails.
#[derive(Clone, Copy, Debug, PartialEq, Eq, Structural)]
pub enum ReadError {
    /// The stream ended early: no terminator byte, or too few overflow bits.
    StreamUnderflow,
    /// The slot index read names no populated slot.
    AmbiguityResolutionFailure,
    /// The rules engine refuses the rebuilt move.
    IllegalReconstructedMove,
    /// The terminator byte carries a code above 3.
    InvalidOutcomeCode,
    /// A promotion field names no entry of the promotion key.
    InvalidPromotionIndex,
}

/// The move that core byte `byte` stands for in `b`, reading overflow bits from `bits`, and
/// how many bits it used.
pub open spec fn decode_move(b: Board, byte: u8, bits: Seq<bool>) -> Result<
    (ChessMove, nat),
    ReadError,
> {
    let kind = FilterKind::of_id(byte / 64);
    let to = (byte % 64) as int;
    let c = candidates(b, kind, to);
    let w = kind.width() as int;
    if populated(c) != 1 && bits.len() < w {
        Err(ReadError::StreamUnderflow)
    } else {
        let (index, used) = if populated(c) == 1 {
            (first_populated(c)->Some_0, 0int)
        } else {
            (bits_value(bits.take(w)) as int, w)
        };
        if index >= c.len() || c[index] is None {
            Err(ReadError::AmbiguityResolutionFailure)
        } else {
            let from = c[index]->Some_0 as int;
            let plain = rebuild(b, kind, from, to, None);
            if plain is Normal && promotes(b, from, to) {
                if bits.len() < used + 2 {
                    Err(ReadError::StreamUnderflow)
                } else {
                    match promotion_piece(bits_value(bits.subrange(used, used + 2))) {
                        Some(p) => Ok(
                            (rebuild(b, kind, from, to, Some(p)), (used + 2) as nat),
                        ),
                        None => Err(ReadError::InvalidPromotionIndex),
                    }
                }
            } else {
                Ok((plain, used as nat))
            }
        }
    }
}

/// The index of the first byte of `data` whose filter bits are 0, or the length.
pub open spec fn terminator_index(data: Seq<u8>) -> int
    decreases data.len(),
{
    if data.len() == 0 {
        0
    } else if data[0] < 64 {
        0
    } else {
        1 + terminator_index(data.drop_first())
    }
}

/// The core bytes of a stream: those before the terminator.
pub open spec fn core_of(data: Seq<u8>) -> Seq<u8> {
    data.take(terminator_index(data))
}

/// The terminator byte of a stream, if it has one.
pub open spec fn terminator_of(data: Seq<u8>) -> Option<u8> {
    let t = terminator_index(data);
    if t < data.len() {
        Some(data[t])
    } else {
        None
    }
}

/// The overflow bits of a stream: the bytes after the terminator, deserialised.
pub open spec fn overflow_of(data: Seq<u8>) -> Seq<bool> {
    let t = terminator_index(data);
    if t < data.len() {
        bits_of_bytes(data.skip(t + 1))
    } else {
        seq![]
    }
}

/// Reading the core bytes `core` from `b` with overflow bits `bits` yields the moves `ms`,
/// the rules engine taking each to the position at the same index of `bs`.
pub open spec fn reads_moves(
    b: Board,
    core: Seq<u8>,
    bits: Seq<bool>,
    ms: Seq<ChessMove>,
    bs: Seq<Board>,
) -> bool
    decreases core.len(),
{
    if core.len() == 0 {
        ms.len() == 0 && bs.len() == 0
    } else {
        &&& ms.len() > 0
        &&& bs.len() == ms.len()
        &&& decode_move(b, core[0], bits) matches Ok((m, used)) && m == ms[0] && used
            <= bits.len() && follows(b, m, bs[0]) && reads_moves(
            bs[0],
            core.drop_first(),
            bits.skip(used as int),
            ms.drop_first(),
            bs.drop_first(),
        )
    }
}

/// Reading the stream `data` from `b` yields the moves `ms` with the positions `bs`, and then
/// the outcome `o`.
pub open spec fn reads_game(
    b: Board,
    data: Seq<u8>,
    ms: Seq<ChessMove>,
    bs: Seq<Board>,
    o: Outcome,
) -> bool {
    &&& reads_moves(b, core_of(data), overflow_of(data), ms, bs)
    &&& terminator_of(data) == Some(o.code())
}

proof fn lemma_entries_bits_pair(a: (u8, u8), b: (u8, u8))
    ensures
        entries_bits(seq![a]) =~= low_bits(a.0 as nat, a.1 as nat),
        entries_bits(seq![a, b]) =~= low_bits(a.0 as nat, a.1 as nat) + low_bits(
            b.0 as nat,
            b.1 as nat,
        ),
{
    assert(seq![a].drop_first() =~= Seq::<(u8, u8)>::empty());
    assert(seq![a, b].drop_first() =~= seq![b]);
    assert(seq![b].drop_first() =~= Seq::<(u8, u8)>::empty());
    assert(entries_bits(Seq::<(u8, u8)>::empty()) =~= Seq::<bool>::empty());
    assert(entries_bits(seq![b]) =~= low_bits(b.0 as nat, b.1 as nat));
    assert(entries_bits(seq![a, b]) == low_bits(a.0 as nat, a.1 as nat) + entries_bits(seq![b]));
}

/// Decoding the core byte and overflow bits that encode a move, in the same position, gives
/// the move back and uses exactly the bits of its overflow entries.
pub proof fn lemma_decode_encoded(b: Board, m: ChessMove, rest: Seq<bool>)
    requires
        encode_move(b, m) is Ok,
    ensures
        ({
            let (byte, e) = encode_move(b, m)->Ok_0;
            &&& byte >= 64
            &&& decode_move(b, byte, entries_bits(e) + rest) == Ok::<(ChessMove, nat), ReadError>(
                (m, entries_bits(e).len()),
            )
        }),
{
    let (byte, e) = encode_move(b, m)->Ok_0;
    let (from, to) = move_ends(m);
    let kind = move_kind(m);
    let c = candidates(b, kind, to);
    let promotion = move_promotion(m);
    let s = slot_of(c, from as u8)->Some_0;
    lemma_found_slots(c, from as u8);
    lemma_one_populated(c, s);
    assert(0 <= to < 64);
    assert(byte / 64 == kind.raw_id() && byte % 64 == to);
    assert(FilterKind::of_id(byte / 64) == kind);
    let w = kind.width() as int;
    let bits = entries_bits(e) + rest;
    reveal_with_fuel(pow2, 4);
    let selector: Seq<(u8, u8)> = if populated(c) > 1 {
        seq![(s as u8, kind.width())]
    } else {
        seq![]
    };
    let used: int = if populated(c) == 1 {
        0
    } else {
        w
    };
    if populated(c) == 1 {
        lemma_first_populated_exists(c);
        let f = first_populated(c)->Some_0;
        if f != s {
            lemma_two_populated(c, f, s);
        }
        assert(selector =~= Seq::<(u8, u8)>::empty());
    } else {
        lemma_low_bits_len(s as nat, w as nat);
        assert(s < kind.slots());
        lemma_value_of_low_bits(s as nat, w as nat);
    }
    let plain = rebuild(b, kind, from, to, None);
    assert(bits.take(used) =~= entries_bits(selector)) by {
        if populated(c) > 1 {
            lemma_entries_bits_pair(selector[0], (0u8, 0u8));
        } else {
            assert(entries_bits(selector) =~= Seq::<bool>::empty());
        }
        match promotion {
            Some(p) => {
                let pe = (promotion_index(p)->Some_0, 2u8);
                lemma_entries_bits_pair(pe, pe);
                if populated(c) > 1 {
                    lemma_entries_bits_pair(selector[0], pe);
                    assert(e =~= seq![selector[0], pe]);
                } else {
                    assert(e =~= seq![pe]);
                }
                lemma_low_bits_len(pe.0 as nat, 2);
            },
            None => {
                assert(e =~= selector);
            },
        }
        if populated(c) > 1 {
            lemma_low_bits_len(s as nat, w as nat);
        }
    }
    if plain is Normal && promotes(b, from, to) {
        let p = promotion->Some_0;
        let pi = promotion_index(p)->Some_0;
        let pe = (pi, 2u8);
        lemma_entries_bits_pair(pe, pe);
        lemma_low_bits_len(pi as nat, 2);
        lemma_value_of_low_bits(pi as nat, 2);
        if populated(c) > 1 {
            lemma_entries_bits_pair(selector[0], pe);
            assert(e =~= seq![selector[0], pe]);
            lemma_low_bits_len(s as nat, w as nat);
        } else {
            assert(e =~= seq![pe]);
        }
        assert(bits.subrange(used, used + 2) =~= low_bits(pi as nat, 2));
        assert(entries_bits(e).len() == used + 2);
    } else {
        assert(promotion is None);
        assert(e =~= selector);
        if populated(c) > 1 {
            lemma_entries_bits_pair(selector[0], selector[0]);
            lemma_low_bits_len(s as nat, w as nat);
        }
        assert(entries_bits(e).len() == used);
    }
}

/// The index of the first byte whose filter bits are 0.
pub proof fn lemma_terminator_index(data: Seq<u8>, i: int)
    requires
        0 <= i <= data.len(),
        forall|j: int| 0 <= j < i ==> data[j] >= 64,
        i == data.len() || data[i] < 64,
    ensures
        terminator_index(data) == i,
    decreases i,
{
    if i > 0 {
        assert forall|j: int| 0 <= j < i - 1 implies data.drop_first()[j] >= 64 by {
            assert(data.drop_first()[j] == data[j + 1]);
        }
        lemma_terminator_index(data.drop_first(), i - 1);
    }
}

/// The core bytes and overflow entries that encode the moves `moves`, each played in the
/// position at the same index of `boards`.
pub open spec fn encode_game(boards: Seq<Board>, moves: Seq<ChessMove>) -> Result<
    (Seq<u8>, Seq<(u8, u8)>),
    WriteError,
>
    decreases moves.len(),
{
    if moves.len() == 0 || boards.len() == 0 {
        Ok((seq![], seq![]))
    } else {
        match encode_move(boards[0], moves[0]) {
            Err(e) => Err(e),
            Ok((byte, e)) => match encode_game(boards.drop_first(), moves.drop_first()) {
                Err(x) => Err(x),
                Ok((core, rest)) => Ok((seq![byte] + core, e + rest)),
            },
        }
    }
}

/// `boards` is a game: each position is reached from the one before by the move at the same
/// index, through the rules engine.
pub open spec fn is_game(boards: Seq<Board>, moves: Seq<ChessMove>) -> bool {
    &&& boards.len() == moves.len() + 1
    &&& forall|i: int| 0 <= i < moves.len() ==> #[trigger] follows(boards[i], moves[i], boards[i + 1])
}

#[verifier::rlimit(60)]
proof fn lemma_reads_encoded(boards: Seq<Board>, moves: Seq<ChessMove>, rest: Seq<bool>)
    requires
        is_game(boards, moves),
        encode_game(boards, moves) is Ok,
    ensures
        ({
            let (core, e) = encode_game(boards, moves)->Ok_0;
            &&& forall|i: int| 0 <= i < core.len() ==> #[trigger] core[i] >= 64
            &&& reads_moves(boards[0], core, entries_bits(e) + rest, moves, boards.drop_first())
        }),
    decreases moves.len(),
{
    let (core, e) = encode_game(boards, moves)->Ok_0;
    if moves.len() == 0 {
        assert(boards.drop_first() =~= Seq::<Board>::empty());
    } else {
        let (byte, e0) = encode_move(boards[0], moves[0])->Ok_0;
        let (tail_core, tail_e) = encode_game(boards.drop_first(), moves.drop_first())->Ok_0;
        assert(is_game(boards.drop_first(), moves.drop_first())) by {
            assert forall|i: int| 0 <= i < moves.drop_first().len() implies #[trigger] follows(
                boards.drop_first()[i],
                moves.drop_first()[i],
                boards.drop_first()[i + 1],
            ) by {
                let k = i + 1;
                assert(follows(boards[k], moves[k], boards[k + 1]));
                assert(boards.drop_first()[i + 1] == boards[k + 1]);
            }
        }
        lemma_reads_encoded(boards.drop_first(), moves.drop_first(), rest);
        let tail_bits = entries_bits(tail_e) + rest;
        lemma_decode_encoded(boards[0], moves[0], tail_bits);
        lemma_entries_bits_append(e0, tail_e);
        let bits = entries_bits(e) + rest;
        assert(bits =~= entries_bits(e0) + tail_bits);
        assert(bits.skip(entries_bits(e0).len() as int) =~= tail_bits);
        assert(core.drop_first() =~= tail_core);
        assert(follows(boards[0], moves[0], boards[1]));
        assert forall|i: int| 0 <= i < core.len() implies #[trigger] core[i] >= 64 by {
            if i > 0 {
                assert(core[i] == tail_core[i - 1]);
            }
        }
    }
}

/// Round trip: for a game that the writer accepts, reading its wire form from the same first
/// position yields exactly its moves, the positions they reach, and the outcome.
pub proof fn lemma_round_trip(boards: Seq<Board>, moves: Seq<ChessMove>, outcome: Outcome)
    requires
        is_game(boards, moves),
        encode_game(boards, moves) is Ok,
    ensures
        encode_game(boards, moves) matches Ok((core, e)) && reads_game(
            boards[0],
            wire(core, e, outcome),
            moves,
            boards.drop_first(),
            outcome,
        ),
{
    let (core, e) = encode_game(boards, moves)->Ok_0;
    lemma_reads_encoded(boards, moves, Seq::<bool>::empty());
    lemma_bytes_round_trip(entries_bits(e));
    let p = choose|p: nat|
        p < 8 && bits_of_bytes(bytes_of_bits(entries_bits(e))) =~= entries_bits(e) + zeros(p);
    lemma_reads_encoded(boards, moves, zeros(p));
    let data = wire(core, e, outcome);
    let n = core.len() as int;
    assert forall|j: int| 0 <= j < n implies data[j] >= 64 by {
        assert(data[j] == core[j]);
    }
    assert(data[n] == outcome.code());
    lemma_terminator_index(data, n);
    assert(core_of(data) =~= core);
    assert(data.skip(n + 1) =~= bytes_of_bits(entries_bits(e)));
    assert(overflow_of(data) =~= entries_bits(e) + zeros(p));
}

/// The rules engine's successor is unique: two positions that both follow `b` by `m` are the
/// same position.
pub proof fn lemma_follows_unique(b: Board, m: ChessMove, n1: Board, n2: Board)
    requires
        follows(b, m, n1),
        follows(b, m, n2),
    ensures
        n1 == n2,
{
    reveal(follows);
    crate::board::lemma_board_ext(n1, n2);
}

/// Determinism: encoding a game one move at a time, as the writer does, gives the encoding
/// of the whole sequence extended by that of the new move; so the writer's bytes depend on
/// the moves, the positions and the outcome alone.
pub proof fn lemma_encode_extend(
    boards: Seq<Board>,
    moves: Seq<ChessMove>,
    b: Board,
    m: ChessMove,
)
    requires
        boards.len() == moves.len(),
        encode_game(boards, moves) is Ok,
        encode_move(b, m) is Ok,
    ensures
        ({
            let (core, e) = encode_game(boards, moves)->Ok_0;
            let (byte, em) = encode_move(b, m)->Ok_0;
            encode_game(boards.push(b), moves.push(m)) == Ok::<
                (Seq<u8>, Seq<(u8, u8)>),
                WriteError,
            >((core.push(byte), e + em))
        }),
    decreases moves.len(),
{
    let (core, e) = encode_game(boards, moves)->Ok_0;
    let (byte, em) = encode_move(b, m)->Ok_0;
    if moves.len() == 0 {
        assert(boards.push(b).drop_first() =~= Seq::<Board>::empty());
        assert(moves.push(m).drop_first() =~= Seq::<ChessMove>::empty());
        assert(seq![byte] + Seq::<u8>::empty() =~= core.push(byte));
        assert(em + Seq::<(u8, u8)>::empty() =~= e + em);
        assert(boards.push(b)[0] == b && moves.push(m)[0] == m);
        assert(encode_game(boards.push(b).drop_first(), moves.push(m).drop_first()) == Ok::<
            (Seq<u8>, Seq<(u8, u8)>),
            WriteError,
        >((Seq::<u8>::empty(), Seq::<(u8, u8)>::empty())));
    } else {
        assert(boards.push(b).drop_first() =~= boards.drop_first().push(b));
        assert(moves.push(m).drop_first() =~= moves.drop_first().push(m));
        lemma_encode_extend(boards.drop_first(), moves.drop_first(), b, m);
        let (b0, e0) = encode_move(boards[0], moves[0])->Ok_0;
        let (tc, te) = encode_game(boards.drop_first(), moves.drop_first())->Ok_0;
        assert(seq![b0] + tc.push(byte) =~= core.push(byte));
        assert(e0 + (te + em) =~= e + em);
        assert(boards.push(b)[0] == boards[0] && moves.push(m)[0] == moves[0]);
    }
}

pub fn promotion_index_of(p: PieceType) -> (r: Option<u8>)
    ensures
        r == promotion_index(p),
{
    match p {
        PieceType::Queen => Some(0),
        PieceType::Bishop => Some(1),
        PieceType::Rook => Some(2),
        PieceType::Knight => Some(3),
        _ => None,
    }
}

pub fn promotion_piece_of(i: u8) -> (r: Option<PieceType>)
    ensures
        r == promotion_piece(i as nat),
{
    match i {
        0 => Some(PieceType::Queen),
        1 => Some(PieceType::Bishop),
        2 => Some(PieceType::Rook),
        3 => Some(PieceType::Knight),
        _ => None,
    }
}

pub fn well_formed_move(m: &ChessMove) -> (r: bool)
    ensures
        r == well_formed(*m),
{
    match *m {
        ChessMove::Normal { from, to, .. } => from < 64 && to < 64,
        ChessMove::EnPassant { from, to } => from < 64 && to < 64,
        ChessMove::Castle { king, rook } => king < 64 && rook < 64 && if rook % 8 > king % 8 {
            king % 8 + 2 < 8
        } else {
            king % 8 >= 2
        },
    }
}

fn abs_diff_u8(a: u8, b: u8) -> (r: u8)
    ensures
        r as int == abs_diff(a as int, b as int),
{
    if a >= b {
        a - b
    } else {
        b - a
    }
}

/// The filter of a move from `from` to `to`; see [`classify`].
pub fn classify_move(from: u8, to: u8) -> (r: FilterKind)
    ensures
        r == classify(from as int, to as int),
{
    if from % 8 == to % 8 || from / 8 == to / 8 {
        FilterKind::Straight
    } else if abs_diff_u8(from % 8, to % 8) == abs_diff_u8(from / 8, to / 8) {
        FilterKind::Diagonal
    } else {
        FilterKind::Knight
    }
}

pub fn kind_of(m: &ChessMove) -> (r: FilterKind)
    ensures
        r == move_kind(*m),
{
    match *m {
        ChessMove::Normal { from, to, .. } => classify_move(from, to),
        ChessMove::EnPassant { .. } => FilterKind::Diagonal,
        ChessMove::Castle { .. } => FilterKind::Straight,
    }
}

pub fn ends_of(m: &ChessMove) -> (r: (u8, u8))
    requires
        well_formed(*m),
    ensures
        (r.0 as int, r.1 as int) == move_ends(*m),
        r.0 < 64,
        r.1 < 64,
{
    match *m {
        ChessMove::Normal { from, to, .. } => (from, to),
        ChessMove::EnPassant { from, to } => (from, to),
        ChessMove::Castle { king, rook } => if rook % 8 > king % 8 {
            (king, king + 2)
        } else {
            (king, king - 2)
        },
    }
}

pub fn promotion_of(m: &ChessMove) -> (r: Option<PieceType>)
    ensures
        r == move_promotion(*m),
{
    match *m {
        ChessMove::Normal { promotion, .. } => promotion,
        _ => None,
    }
}

/// Whether a pawn on `from` reaches its far rank on `to`.
pub fn promotes_at(b: &Board, from: u8, to: u8) -> (r: bool)
    requires
        from < 64,
        to < 64,
    ensures
        r == promotes(*b, from as int, to as int),
{
    match b.piece_on(from) {
        Some(p) => p.0 == PieceType::Pawn && if p.1 == Player::White {
            to / 8 == 7
        } else {
            to / 8 == 0
        },
        None => false,
    }
}

/// The move the reader makes of an origin and a destination; see [`rebuild`].
pub fn rebuild_move(
    b: &Board,
    kind: FilterKind,
    from: u8,
    to: u8,
    promotion: Option<PieceType>,
) -> (r: ChessMove)
    requires
        from < 64,
        to < 64,
        b.piece_at(from as int) is Some,
    ensures
        r == rebuild(*b, kind, from as int, to as int, promotion),
{
    let p = b.piece_on(from).unwrap();
    if kind == FilterKind::Diagonal && b.piece_on(to).is_none() && p.0 == PieceType::Pawn {
        ChessMove::EnPassant { from, to }
    } else if kind == FilterKind::Straight && p.0 == PieceType::King && abs_diff_u8(
        from % 8,
        to % 8,
    ) == 2 {
        ChessMove::Castle {
            king: from,
            rook: (from / 8) * 8 + if to % 8 > from % 8 {
                7
            } else {
                0
            },
        }
    } else {
        ChessMove::Normal { from, to, promotion }
    }
}

} // verus!
