use vstd::prelude::*;

use crate::board::{Board, CastlingRights};
use crate::pieces::{from_letter, letter_piece, piece_letter, to_letter, Piece, Player};
use vstd::string::StringSliceAdditionalSpecFns;

verus! {

/// The reason a FEN text is refused.
#[derive(Clone, Copy, Debug, PartialEq, Eq, Structural)]
pub enum Error {
    /// The text does not have six space-separated fields.
    NotEnoughFields,
    /// The placement field does not have eight ranks.
    NotEnoughRanks,
    /// A rank does not describe exactly eight squares.
    NotEnoughFiles,
    /// A rank holds a character that is neither a piece letter nor a digit.
    InvalidPiece,
}

impl Error {
    /// The message of each error.
    pub open spec fn message(self) -> Seq<char> {
        match self {
            Error::NotEnoughFields => "Not enough fields in the fen string"@,
            Error::NotEnoughRanks => "Not enough ranks could be found in the fen string"@,
            Error::NotEnoughFiles => "Not enough files were found in a rank"@,
            Error::InvalidPiece => "Invalid piece character"@,
        }
    }

    pub fn to_string(&self) -> (r: &'static str)
        ensures
            r@ == self.message(),
    {
        match self {
            Error::NotEnoughFields => "Not enough fields in the fen string",
            Error::NotEnoughRanks => "Not enough ranks could be found in the fen string",
            Error::NotEnoughFiles => "Not enough files were found in a rank",
            Error::InvalidPiece => "Invalid piece character",
        }
    }
}

/// The pieces of `s` between occurrences of `sep`, in order.
pub open spec fn split(s: Seq<u8>, sep: u8) -> Seq<Seq<u8>>
    decreases s.len(),
{
    if s.len() == 0 {
        seq![seq![]]
    } else {
        let r = split(s.drop_last(), sep);
        if s.last() == sep {
            r.push(seq![])
        } else {
            r.update(r.len() - 1, r.last().push(s.last()))
        }
    }
}

/// The squares that one rank of a FEN placement describes, from the a-file on: a piece
/// letter stands for that piece, a digit for that many empty squares.
pub open spec fn row_cells(row: Seq<u8>) -> Result<Seq<Option<Piece>>, Error>
    decreases row.len(),
{
    if row.len() == 0 {
        Ok(seq![])
    } else {
        match row_cells(row.drop_last()) {
            Err(e) => Err(e),
            Ok(cells) => {
                let c = row.last();
                if 48 <= c <= 57 {
                    let n = c - 48;
                    if cells.len() + n > 8 {
                        Err(Error::NotEnoughFiles)
                    } else {
                        Ok(cells + Seq::new(n as nat, |i: int| None::<Piece>))
                    }
                } else {
                    match letter_piece(c) {
                        Some(p) => if cells.len() >= 8 {
                            Err(Error::NotEnoughFiles)
                        } else {
                            Ok(cells.push(Some(p)))
                        },
                        None => Err(Error::InvalidPiece),
                    }
                }
            },
        }
    }
}

/// The first error among the ranks from index `i` on, if any.
pub open spec fn rows_error(rows: Seq<Seq<u8>>, i: int) -> Option<Error>
    decreases rows.len() - i,
{
    if i >= rows.len() || i < 0 {
        None
    } else {
        match row_cells(rows[i]) {
            Err(e) => Some(e),
            Ok(cells) => if cells.len() != 8 {
                Some(Error::NotEnoughFiles)
            } else {
                rows_error(rows, i + 1)
            },
        }
    }
}

/// The castling rights that a FEN castling field names: the letters `KQkq` present, when the
/// field is made of those letters only, and no rights otherwise (for `-` among others).
pub open spec fn castling_of(field: Seq<u8>) -> CastlingRights {
    if forall|i: int|
        0 <= i < field.len() ==> #[trigger] field[i] == 75 || field[i] == 81 || field[i] == 107
            || field[i] == 113 {
        CastlingRights {
            white_king_side: field.contains(75),
            white_queen_side: field.contains(81),
            black_king_side: field.contains(107),
            black_queen_side: field.contains(113),
        }
    } else {
        CastlingRights::none()
    }
}

/// The en-passant target that a FEN en-passant field names: the square, when the field is a
/// square name, and none otherwise (for `-` among others).
pub open spec fn en_passant_of(field: Seq<u8>) -> Option<u8> {
    if field.len() == 2 && 97 <= field[0] <= 104 && 49 <= field[1] <= 56 {
        Some(((field[1] - 49) * 8 + (field[0] - 97)) as u8)
    } else {
        None
    }
}

/// Why the FEN text `s` is refused, if it is.
pub open spec fn fen_error(s: Seq<u8>) -> Option<Error> {
    let fields = split(s, 32);
    if fields.len() != 6 {
        Some(Error::NotEnoughFields)
    } else if split(fields[0], 47).len() != 8 {
        Some(Error::NotEnoughRanks)
    } else {
        rows_error(split(fields[0], 47), 0)
    }
}

/// What the accepted FEN text `s` puts on square `sq`: the first rank listed is the eighth.
pub open spec fn fen_piece(s: Seq<u8>, sq: int) -> Option<Piece> {
    row_cells(split(split(s, 32)[0], 47)[7 - sq / 8])->Ok_0[sq % 8]
}

/// A position is what the accepted FEN text `s` describes. The side field `w` gives White,
/// any other Black; the castling and en-passant fields are read as [`castling_of`] and
/// [`en_passant_of`] say; the clock fields are not read.
pub open spec fn fen_describes(s: Seq<u8>, b: Board) -> bool {
    let fields = split(s, 32);
    &&& forall|sq: int| 0 <= sq < 64 ==> #[trigger] b.piece_at(sq) == fen_piece(s, sq)
    &&& b.side() == if fields[1] == seq![119u8] {
        Player::White
    } else {
        Player::Black
    }
    &&& b.rights() == castling_of(fields[2])
    &&& b.ep_square() == en_passant_of(fields[3])
}

/// The FEN character of a square's contents: a piece letter, or `1` for an empty square.
pub open spec fn cell_letter(c: Option<Piece>) -> u8 {
    match c {
        Some(p) => piece_letter(p),
        None => 49,
    }
}

/// The FEN text of rank `r` (`0..8`).
pub open spec fn rank_text(b: Board, r: int) -> Seq<u8> {
    Seq::new(8, |f: int| cell_letter(b.piece_at(r * 8 + f)))
}

/// The FEN text of the top `n` ranks, from the eighth down, separated by `/`.
pub open spec fn ranks_text(b: Board, n: int) -> Seq<u8>
    decreases n,
{
    if n <= 0 {
        seq![]
    } else if n == 1 {
        rank_text(b, 7)
    } else {
        ranks_text(b, n - 1) + seq![47u8] + rank_text(b, 8 - n)
    }
}

pub open spec fn castling_text(c: CastlingRights) -> Seq<u8> {
    if c == CastlingRights::none() {
        seq![45u8]
    } else {
        (if c.white_king_side {
            seq![75u8]
        } else {
            seq![]
        }) + (if c.white_queen_side {
            seq![81u8]
        } else {
            seq![]
        }) + (if c.black_king_side {
            seq![107u8]
        } else {
            seq![]
        }) + (if c.black_queen_side {
            seq![113u8]
        } else {
            seq![]
        })
    }
}

pub open spec fn en_passant_text(e: Option<u8>) -> Seq<u8> {
    match e {
        None => seq![45u8],
        Some(s) => seq![(97 + s % 8) as u8, (49 + s / 8) as u8],
    }
}

/// The FEN text of a position, each empty square written `1`, with clocks `0 1`.
pub open spec fn fen_text(b: Board) -> Seq<u8> {
    ranks_text(b, 8) + seq![32u8] + seq![
        if b.side() == Player::White {
            119u8
        } else {
            98u8
        },
    ] + seq![32u8] + castling_text(b.rights()) + seq![32u8] + en_passant_text(b.ep_square())
        + seq![32u8, 48u8, 32u8, 49u8]
}

proof fn lemma_row_cells_error(row: Seq<u8>, k: int)
    requires
        0 <= k <= row.len(),
        row_cells(row.take(k)) is Err,
    ensures
        row_cells(row) == row_cells(row.take(k)),
    decreases row.len() - k,
{
    if k < row.len() {
        assert(row.take(k + 1).drop_last() =~= row.take(k));
        lemma_row_cells_error(row, k + 1);
    } else {
        assert(row.take(k) =~= row);
    }
}

/// Splits `s` at each occurrence of `sep`.
fn split_bytes(s: &[u8], sep: u8) -> (r: Vec<Vec<u8>>)
    ensures
        r@.map_values(|v: Vec<u8>| v@) == split(s@, sep),
{
    let mut done: Vec<Vec<u8>> = Vec::new();
    let mut cur: Vec<u8> = Vec::new();
    let mut i: usize = 0;
    assert(s@.take(0) =~= Seq::<u8>::empty());
    assert(done@.map_values(|v: Vec<u8>| v@).push(cur@) =~= seq![Seq::<u8>::empty()]);
    while i < s.len()
        invariant
            i <= s@.len(),
            split(s@.take(i as int), sep) == done@.map_values(|v: Vec<u8>| v@).push(cur@),
        decreases s.len() - i,
    {
        let c = s[i];
        let ghost prev = done@.map_values(|v: Vec<u8>| v@).push(cur@);
        assert(s@.take(i + 1).drop_last() =~= s@.take(i as int));
        if c == sep {
            done.push(cur);
            cur = Vec::new();
            assert(done@.map_values(|v: Vec<u8>| v@).push(cur@) =~= prev.push(seq![]));
        } else {
            cur.push(c);
            assert(done@.map_values(|v: Vec<u8>| v@).push(cur@) =~= prev.update(
                prev.len() - 1,
                prev.last().push(c),
            ));
        }
        i = i + 1;
    }
    assert(s@.take(i as int) =~= s@);
    done.push(cur);
    done
}

/// The squares that one rank of a FEN placement describes; see [`row_cells`].
fn parse_row(row: &Vec<u8>) -> (r: Result<Vec<Option<Piece>>, Error>)
    ensures
        match r {
            Ok(c) => row_cells(row@) == Ok::<Seq<Option<Piece>>, Error>(c@),
            Err(e) => row_cells(row@) == Err::<Seq<Option<Piece>>, Error>(e),
        },
{
    let mut cells: Vec<Option<Piece>> = Vec::new();
    let mut i: usize = 0;
    assert(row@.take(0) =~= Seq::<u8>::empty());
    while i < row.len()
        invariant
            i <= row@.len(),
            cells@.len() <= 8,
            row_cells(row@.take(i as int)) == Ok::<Seq<Option<Piece>>, Error>(cells@),
        decreases row.len() - i,
    {
        let c = row[i];
        let ghost before = cells@;
        assert(row@.take(i + 1).drop_last() =~= row@.take(i as int));
        assert(row@.take(i + 1).last() == c);
        if 48 <= c && c <= 57 {
            let n = c - 48;
            if cells.len() + n as usize > 8 {
                proof {
                    lemma_row_cells_error(row@, i + 1);
                }
                return Err(Error::NotEnoughFiles);
            }
            let mut k: u8 = 0;
            while k < n
                invariant
                    k <= n,
                    n <= 9,
                    before.len() + n <= 8,
                    cells@ =~= before + Seq::new(k as nat, |j: int| None::<Piece>),
                decreases n - k,
            {
                cells.push(None);
                k = k + 1;
            }
        } else {
            match from_letter(c) {
                Some(p) => {
                    if cells.len() >= 8 {
                        proof {
                            lemma_row_cells_error(row@, i + 1);
                        }
                        return Err(Error::NotEnoughFiles);
                    }
                    cells.push(Some(p));
                },
                None => {
                    proof {
                        lemma_row_cells_error(row@, i + 1);
                    }
                    return Err(Error::InvalidPiece);
                },
            }
        }
        i = i + 1;
    }
    assert(row@.take(i as int) =~= row@);
    Ok(cells)
}

fn parse_castling(field: &Vec<u8>) -> (r: CastlingRights)
    ensures
        r == castling_of(field@),
{
    let none = CastlingRights {
        white_king_side: false,
        white_queen_side: false,
        black_king_side: false,
        black_queen_side: false,
    };
    let mut rights = none;
    let mut i: usize = 0;
    assert(field@.take(0) =~= Seq::<u8>::empty());
    while i < field.len()
        invariant
            i <= field@.len(),
            none == CastlingRights::none(),
            forall|j: int|
                0 <= j < i ==> #[trigger] field@[j] == 75 || field@[j] == 81 || field@[j] == 107
                    || field@[j] == 113,
            rights.white_king_side == field@.take(i as int).contains(75),
            rights.white_queen_side == field@.take(i as int).contains(81),
            rights.black_king_side == field@.take(i as int).contains(107),
            rights.black_queen_side == field@.take(i as int).contains(113),
        decreases field.len() - i,
    {
        let c = field[i];
        let ghost t = field@.take(i + 1);
        assert(t =~= field@.take(i as int).push(c));
        assert forall|x: u8| #[trigger] t.contains(x) == (field@.take(i as int).contains(x) || c
            == x) by {
            if c == x {
                assert(t[i as int] == x);
            }
            if field@.take(i as int).contains(x) {
                let j = choose|j: int| 0 <= j < i && field@.take(i as int)[j] == x;
                assert(t[j] == x);
            }
        }
        if c == 75 {
            rights.white_king_side = true;
        } else if c == 81 {
            rights.white_queen_side = true;
        } else if c == 107 {
            rights.black_king_side = true;
        } else if c == 113 {
            rights.black_queen_side = true;
        } else {
            assert(!(field@[i as int] == 75 || field@[i as int] == 81 || field@[i as int] == 107
                || field@[i as int] == 113));
            return none;
        }
        i = i + 1;
    }
    assert(field@.take(i as int) =~= field@);
    rights
}

fn parse_en_passant(field: &Vec<u8>) -> (r: Option<u8>)
    ensures
        r == en_passant_of(field@),
{
    if field.len() == 2 && 97 <= field[0] && field[0] <= 104 && 49 <= field[1] && field[1] <= 56 {
        Some((field[1] - 49) * 8 + (field[0] - 97))
    } else {
        None
    }
}

impl Board {
    /// Reads a position from FEN text.
    pub fn from_fen(fen: &str) -> (r: Result<Self, Error>)
        ensures
            match r {
                Ok(b) => fen_error(fen.spec_bytes()) is None && fen_describes(fen.spec_bytes(), b)
                    && b.wf(),
                Err(e) => fen_error(fen.spec_bytes()) == Some(e),
            },
    {
        Self::from_fen_bytes(fen.as_bytes())
    }

    /// Reads a position from FEN text given as bytes.
    pub fn from_fen_bytes(fen: &[u8]) -> (r: Result<Self, Error>)
        ensures
            match r {
                Ok(b) => fen_error(fen@) is None && fen_describes(fen@, b) && b.wf(),
                Err(e) => fen_error(fen@) == Some(e),
            },
    {
        let ghost s = fen@;
        let fields = split_bytes(fen, 32);
        if fields.len() != 6 {
            return Err(Error::NotEnoughFields);
        }
        let rows = split_bytes(fields[0].as_slice(), 47);
        let ghost rows_spec = split(split(s, 32)[0], 47);
        assert(rows_spec == rows@.map_values(|v: Vec<u8>| v@));
        if rows.len() != 8 {
            return Err(Error::NotEnoughRanks);
        }
        let mut board = Board::blank_board();
        let mut i: usize = 0;
        while i < 8
            invariant
                i <= 8,
                rows@.len() == 8,
                rows_spec == rows@.map_values(|v: Vec<u8>| v@),
                rows_spec == split(split(s, 32)[0], 47),
                split(s, 32).len() == 6,
                s == fen@,
                rows_error(rows_spec, 0) == rows_error(rows_spec, i as int),
                forall|j: int| 0 <= j < i ==> (#[trigger] row_cells(rows_spec[j])) is Ok,
                board.wf(),
                board.side() == Player::White,
                board.rights() == CastlingRights::none(),
                board.ep_square() is None,
                forall|sq: int|
                    0 <= sq < 64 ==> #[trigger] board.piece_at(sq) == if 7 - sq / 8 < i {
                        fen_piece(s, sq)
                    } else {
                        None
                    },
            decreases 8 - i,
        {
            assert(rows_spec[i as int] == rows@[i as int]@);
            let cells = match parse_row(&rows[i]) {
                Ok(c) => c,
                Err(e) => {
                    assert(rows_error(rows_spec, i as int) == Some(e));
                    return Err(e);
                },
            };
            if cells.len() != 8 {
                assert(rows_error(rows_spec, i as int) == Some(Error::NotEnoughFiles));
                return Err(Error::NotEnoughFiles);
            }
            let rank = (7 - i) as u8;
            let mut f: u8 = 0;
            while f < 8
                invariant
                    f <= 8,
                    i < 8,
                    rank == 7 - i,
                    cells@.len() == 8,
                    rows_spec == split(split(s, 32)[0], 47),
                    row_cells(rows_spec[i as int]) == Ok::<Seq<Option<Piece>>, Error>(cells@),
                    board.wf(),
                    board.side() == Player::White,
                    board.rights() == CastlingRights::none(),
                    board.ep_square() is None,
                    forall|sq: int|
                        0 <= sq < 64 ==> #[trigger] board.piece_at(sq) == if 7 - sq / 8 < i || (
                        sq / 8 == rank && sq % 8 < f) {
                            fen_piece(s, sq)
                        } else {
                            None
                        },
                decreases 8 - f,
            {
                board.put(rank * 8 + f, cells[f as usize]);
                f = f + 1;
            }
            i = i + 1;
        }
        assert(rows_error(rows_spec, 8) is None);
        let side = if fields[1].len() == 1 && fields[1][0] == 119 {
            assert(fields@[1]@ =~= seq![119u8]);
            Player::White
        } else {
            assert(fields@[1]@ != seq![119u8]);
            Player::Black
        };
        board.set_to_move(side);
        board.set_castling_rights(parse_castling(&fields[2]));
        board.set_en_passant(parse_en_passant(&fields[3]));
        Ok(board)
    }

    /// The FEN text of this position, as bytes; see [`fen_text`].
    pub fn to_fen(&self) -> (r: Vec<u8>)
        requires
            self.wf(),
        ensures
            r@ == fen_text(*self),
    {
        let mut out = self.placement_text();
        let mut c = castling_bytes(self.castling_rights());
        let mut e = en_passant_bytes(self.en_passant());
        let side: u8 = if *self.get_to_move() == Player::White {
            119
        } else {
            98
        };
        out.push(32);
        out.push(side);
        out.push(32);
        out.append(&mut c);
        out.push(32);
        out.append(&mut e);
        out.push(32);
        out.push(48);
        out.push(32);
        out.push(49);
        assert(out@ =~= fen_text(*self));
        out
    }

    fn placement_text(&self) -> (r: Vec<u8>)
        ensures
            r@ == ranks_text(*self, 8),
    {
        let mut out: Vec<u8> = Vec::new();
        let mut n: u8 = 0;
        while n < 8
            invariant
                n <= 8,
                out@ == ranks_text(*self, n as int),
            decreases 8 - n,
        {
            if n > 0 {
                out.push(47);
            }
            let ghost head = out@;
            let rank = 7 - n;
            let mut f: u8 = 0;
            while f < 8
                invariant
                    f <= 8,
                    rank == 7 - n,
                    n < 8,
                    out@ == head + rank_text(*self, rank as int).take(f as int),
                decreases 8 - f,
            {
                let c = match self.piece_on(rank * 8 + f) {
                    Some(p) => to_letter(p),
                    None => 49,
                };
                assert(rank_text(*self, rank as int).take(f + 1) =~= rank_text(
                    *self,
                    rank as int,
                ).take(f as int).push(c));
                out.push(c);
                f = f + 1;
            }
            assert(rank_text(*self, rank as int).take(8) =~= rank_text(*self, rank as int));
            assert(n == 0 ==> head =~= Seq::<u8>::empty());
            assert(out@ =~= ranks_text(*self, n + 1));
            n = n + 1;
        }
        out
    }
}

fn castling_bytes(c: CastlingRights) -> (r: Vec<u8>)
    ensures
        r@ == castling_text(c),
{
    let mut out: Vec<u8> = Vec::new();
    if !c.white_king_side && !c.white_queen_side && !c.black_king_side && !c.black_queen_side {
        out.push(45);
    } else {
        if c.white_king_side {
            out.push(75);
        }
        if c.white_queen_side {
            out.push(81);
        }
        if c.black_king_side {
            out.push(107);
        }
        if c.black_queen_side {
            out.push(113);
        }
    }
    assert(out@ =~= castling_text(c));
    out
}

fn en_passant_bytes(e: Option<u8>) -> (r: Vec<u8>)
    requires
        e matches Some(s) ==> s < 64,
    ensures
        r@ == en_passant_text(e),
{
    let mut out: Vec<u8> = Vec::new();
    match e {
        None => out.push(45),
        Some(sq) => {
            out.push(97 + sq % 8);
            out.push(49 + sq / 8);
        },
    }
    assert(out@ =~= en_passant_text(e));
    out
}

} // verus!
