use vstd::prelude::*;

use crate::bitbuffer::{bits_of_bytes, lemma_bits_value_bound, lemma_pow2_mono, lemma_pow2_8, BitBuffer};
use crate::board::Board;
use crate::codec::{
    core_of, decode_move, lemma_terminator_index, overflow_of, promotes_at, promotion_piece_of,
    rebuild_move, terminator_of, ReadError,
};
use crate::engine::{follows, play, playable, well_formed, ChessMove};
use crate::filters::{
    find_populated, lemma_candidate_occupied, lemma_first_populated_exists, populated_count,
    square_data, FilterKind,
};
use crate::outcome::Outcome;

verus! {

/// Decodes one game, one move per call of [`Reader::next`], replaying it on its own
/// position through the rules engine.
pub struct Reader {
    data: Vec<u8>,
    cursor: usize,
    terminator: usize,
    bit_buffer: BitBuffer,
    chess: Board,
    outcome: Option<Outcome>,
    finished: bool,
}

/// A step of the reader: what the next call of [`Reader::next`] returns from the state
/// before it.
pub open spec fn step_result(
    b: Board,
    core: Seq<u8>,
    term: Option<u8>,
    bits: Seq<bool>,
    r: Option<Result<(ChessMove, Board), ReadError>>,
) -> bool {
    if core.len() == 0 {
        match term {
            None => r == Some(Err::<(ChessMove, Board), ReadError>(ReadError::StreamUnderflow)),
            Some(t) => if t < 4 {
                r is None
            } else {
                r == Some(Err::<(ChessMove, Board), ReadError>(ReadError::InvalidOutcomeCode))
            },
        }
    } else {
        match decode_move(b, core[0], bits) {
            Err(e) => r == Some(Err::<(ChessMove, Board), ReadError>(e)),
            Ok((m, used)) => if playable(b, m) {
                r matches Some(Ok((m2, n))) && m2 == m && follows(b, m, n)
            } else {
                r == Some(
                    Err::<(ChessMove, Board), ReadError>(ReadError::IllegalReconstructedMove),
                )
            },
        }
    }
}

impl Reader {
    /// The core bytes not yet read.
    pub closed spec fn pending_core(&self) -> Seq<u8> {
        self.data@.subrange(self.cursor as int, self.terminator as int)
    }

    /// The terminator byte, if the stream has one.
    pub closed spec fn terminator_byte(&self) -> Option<u8> {
        if self.terminator < self.data@.len() {
            Some(self.data@[self.terminator as int])
        } else {
            None
        }
    }

    /// The overflow bits not yet read.
    pub closed spec fn pending_bits(&self) -> Seq<bool> {
        self.bit_buffer@
    }

    /// The position reached so far.
    pub closed spec fn position(&self) -> Board {
        self.chess
    }

    pub closed spec fn is_finished(&self) -> bool {
        self.finished
    }

    pub closed spec fn outcome_spec(&self) -> Option<Outcome> {
        self.outcome
    }

    pub closed spec fn wf(&self) -> bool {
        &&& self.cursor <= self.terminator <= self.data@.len()
        &&& self.bit_buffer.wf()
        &&& self.chess.wf()
        &&& forall|i: int| self.cursor <= i < self.terminator ==> #[trigger] self.data@[i] >= 64
        &&& self.terminator < self.data@.len() ==> self.data@[self.terminator as int] < 64
    }

    /// Creates a reader of `data`, starting from the standard starting position.
    pub fn new(data: &[u8]) -> (r: Self)
        ensures
            r.wf(),
            r.position().is_start(),
            r.pending_core() == core_of(data@),
            r.terminator_byte() == terminator_of(data@),
            r.pending_bits() == overflow_of(data@),
            !r.is_finished(),
            r.outcome_spec() is None,
    {
        Self::with_position(data, Board::starting_board())
    }

    /// Creates a reader of `data`, starting from `position`.
    pub fn with_position(data: &[u8], position: Board) -> (r: Self)
        requires
            position.wf(),
        ensures
            r.wf(),
            r.position() == position,
            r.pending_core() == core_of(data@),
            r.terminator_byte() == terminator_of(data@),
            r.pending_bits() == overflow_of(data@),
            !r.is_finished(),
            r.outcome_spec() is None,
    {
        let n = data.len();
        let mut t: usize = 0;
        while t < n && data[t] >= 64
            invariant
                t <= n == data@.len(),
                forall|j: int| 0 <= j < t ==> data@[j] >= 64,
            decreases n - t,
        {
            t = t + 1;
        }
        proof {
            lemma_terminator_index(data@, t as int);
        }
        let mut tail: Vec<u8> = Vec::new();
        if t < n {
            let mut j: usize = t + 1;
            while j < n
                invariant
                    t < j <= n == data@.len(),
                    tail@ =~= data@.subrange(t + 1, j as int),
                decreases n - j,
            {
                tail.push(data[j]);
                j = j + 1;
            }
        }
        let bit_buffer = BitBuffer::from_bytes(tail.as_slice());
        let mut copy: Vec<u8> = Vec::new();
        let mut k: usize = 0;
        while k < n
            invariant
                k <= n == data@.len(),
                copy@ =~= data@.take(k as int),
            decreases n - k,
        {
            copy.push(data[k]);
            k = k + 1;
        }
        assert(copy@ =~= data@);
        proof {
            if t >= n {
                assert(tail@ =~= Seq::<u8>::empty());
                assert(bits_of_bytes(tail@) =~= Seq::<bool>::empty());
            }
        }
        Reader {
            data: copy,
            cursor: 0,
            terminator: t,
            bit_buffer,
            chess: position,
            outcome: None,
            finished: false,
        }
    }

    /// The outcome, once the terminator has been read.
    pub fn get_outcome(&self) -> (r: &Option<Outcome>)
        ensures
            *r == self.outcome_spec(),
    {
        &self.outcome
    }

    /// Decodes core byte `byte` in the current position, consuming overflow bits.
    #[verifier::rlimit(80)]
    fn decode(&mut self, byte: u8) -> (r: Result<ChessMove, ReadError>)
        requires
            old(self).wf(),
            byte >= 64,
        ensures
            final(self).wf(),
            final(self).chess == old(self).chess,
            final(self).data == old(self).data,
            final(self).cursor == old(self).cursor,
            final(self).terminator == old(self).terminator,
            final(self).finished == old(self).finished,
            final(self).outcome == old(self).outcome,
            match decode_move(old(self).chess, byte, old(self).bit_buffer@) {
                Ok((m, used)) => r == Ok::<ChessMove, ReadError>(m) && final(self).bit_buffer@
                    == old(self).bit_buffer@.skip(used as int) && well_formed(m),
                Err(e) => r == Err::<ChessMove, ReadError>(e),
            },
    {
        let ghost bits = self.bit_buffer@;
        let kind = if byte / 64 == 1 {
            FilterKind::Knight
        } else if byte / 64 == 2 {
            FilterKind::Diagonal
        } else {
            FilterKind::Straight
        };
        let to = byte % 64;
        let c = square_data(kind, to, &self.chess);
        let width: u8 = if kind == FilterKind::Knight {
            3
        } else {
            2
        };
        let ghost used: int;
        let index: usize;
        if populated_count(&c) == 1 {
            proof {
                lemma_first_populated_exists(c@);
            }
            index = find_populated(&c).unwrap();
            proof {
                used = 0;
            }
        } else {
            match self.bit_buffer.read(width) {
                Ok(v) => {
                    index = v as usize;
                    proof {
                        used = width as int;
                        lemma_bits_value_bound(bits.take(width as int));
                        lemma_pow2_mono(width as nat, 8);
                        lemma_pow2_8();
                    }
                },
                Err(_) => {
                    return Err(ReadError::StreamUnderflow);
                },
            }
        }
        assert(self.bit_buffer@ == bits.skip(used));
        if index >= c.len() || c[index].is_none() {
            return Err(ReadError::AmbiguityResolutionFailure);
        }
        let from = c[index].unwrap();
        proof {
            lemma_candidate_occupied(self.chess, kind, to as int, index as int);
        }
        let plain = rebuild_move(&self.chess, kind, from, to, None);
        let is_normal = match plain {
            ChessMove::Normal { .. } => true,
            _ => false,
        };
        if is_normal && promotes_at(&self.chess, from, to) {
            let ghost rest = self.bit_buffer@;
            match self.bit_buffer.read(2) {
                Ok(v) => {
                    proof {
                        assert(rest.take(2) =~= bits.subrange(used, used + 2));
                        assert(self.bit_buffer@ =~= bits.skip(used + 2));
                        lemma_bits_value_bound(rest.take(2));
                        lemma_pow2_mono(2, 8);
                        lemma_pow2_8();
                    }
                    match promotion_piece_of(v) {
                        Some(p) => Ok(rebuild_move(&self.chess, kind, from, to, Some(p))),
                        None => Err(ReadError::InvalidPromotionIndex),
                    }
                },
                Err(_) => Err(ReadError::StreamUnderflow),
            }
        } else {
            Ok(plain)
        }
    }

    /// Returns the next move and the position after it; `None` once the terminator has been
    /// read (the outcome is then available) or after a failure. A failure ends the reading.
    pub fn next(&mut self) -> (r: Option<Result<(ChessMove, Board), ReadError>>)
        requires
            old(self).wf(),
        ensures
            final(self).wf(),
            old(self).is_finished() ==> r is None && final(self).is_finished()
                && final(self).outcome_spec() == old(self).outcome_spec(),
            !old(self).is_finished() ==> step_result(
                old(self).position(),
                old(self).pending_core(),
                old(self).terminator_byte(),
                old(self).pending_bits(),
                r,
            ),
            !old(self).is_finished() && old(self).pending_core().len() == 0
                ==> final(self).is_finished(),
            !old(self).is_finished() && old(self).pending_core().len() == 0
                && old(self).terminator_byte() is Some && old(self).terminator_byte()->Some_0 < 4
                ==> final(self).outcome_spec() == Some(
                Outcome::of_code(old(self).terminator_byte()->Some_0),
            ),
            !(!old(self).is_finished() && old(self).pending_core().len() == 0
                && old(self).terminator_byte() is Some && old(self).terminator_byte()->Some_0 < 4)
                ==> final(self).outcome_spec() == old(self).outcome_spec(),
            r matches Some(Err(_)) ==> final(self).is_finished(),
            r matches Some(Ok((m, n))) ==> {
                &&& !final(self).is_finished()
                &&& final(self).position() == n
                &&& final(self).pending_core() == old(self).pending_core().drop_first()
                &&& final(self).terminator_byte() == old(self).terminator_byte()
                &&& decode_move(
                    old(self).position(),
                    old(self).pending_core()[0],
                    old(self).pending_bits(),
                ) matches Ok((m2, used)) && m2 == m && final(self).pending_bits()
                    == old(self).pending_bits().skip(used as int)
            },
    {
        if self.finished {
            return None;
        }
        if self.cursor == self.terminator {
            self.finished = true;
            if self.terminator == self.data.len() {
                return Some(Err(ReadError::StreamUnderflow));
            }
            return match Outcome::from_id(self.data[self.terminator]) {
                Ok(o) => {
                    self.outcome = Some(o);
                    None
                },
                Err(_) => Some(Err(ReadError::InvalidOutcomeCode)),
            };
        }
        let byte = self.data[self.cursor];
        assert(self.pending_core()[0] == byte);
        match self.decode(byte) {
            Err(e) => {
                self.finished = true;
                Some(Err(e))
            },
            Ok(m) => match play(&self.chess, &m) {
                None => {
                    self.finished = true;
                    Some(Err(ReadError::IllegalReconstructedMove))
                },
                Some(n) => {
                    self.chess = n;
                    self.cursor = self.cursor + 1;
                    assert(self.pending_core() =~= old(self).pending_core().drop_first());
                    Some(Ok((m, n)))
                },
            },
        }
    }
}

} // verus!
