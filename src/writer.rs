use vstd::prelude::*;

use crate::bitbuffer::{bytes_of_bits, entries_bits, entries_fit, lemma_entries_bits_append, pow2, BitBuffer};
use crate::board::Board;
use crate::codec::{
    encode_move, ends_of, kind_of, promotes_at, promotion_index_of, promotion_of, rebuild_move,
    well_formed_move, wire, WriteError,
};
use crate::engine::ChessMove;
use crate::filters::{find_slot, populated_count, square_data, FilterKind};
use crate::outcome::Outcome;

verus! {

/// Encodes one game: each move, with the position before it, becomes a core byte and
/// possibly overflow entries; [`Writer::get_data`] lays them out on the wire.
#[derive(Clone, Debug)]
pub struct Writer {
    core: Vec<u8>,
    overflow: Vec<(u8, u8)>,
}

impl Writer {
    /// The core bytes written so far.
    pub closed spec fn core_bytes(&self) -> Seq<u8> {
        self.core@
    }

    /// The overflow entries `(value, width)` written so far.
    pub closed spec fn entries(&self) -> Seq<(u8, u8)> {
        self.overflow@
    }

    pub open spec fn wf(&self) -> bool {
        &&& entries_fit(self.entries())
        &&& forall|i: int| 0 <= i < self.core_bytes().len() ==> #[trigger] self.core_bytes()[i] >= 64
    }

    /// Creates a new empty instance of the `Writer`.
    pub fn new() -> (r: Self)
        ensures
            r.wf(),
            r.core_bytes() == Seq::<u8>::empty(),
            r.entries() == Seq::<(u8, u8)>::empty(),
    {
        Self { core: Vec::new(), overflow: Vec::new() }
    }

    /// The wire form of the game written so far, ending with `outcome` (unknown when none
    /// is given).
    pub fn get_data(self, outcome: Option<Outcome>) -> (r: Vec<u8>)
        requires
            self.wf(),
        ensures
            r@ == wire(
                self.core_bytes(),
                self.entries(),
                match outcome {
                    Some(o) => o,
                    None => Outcome::Unknown,
                },
            ),
    {
        let o = match outcome {
            Some(o) => o,
            None => Outcome::Unknown,
        };
        let Writer { mut core, overflow } = self;
        core.push(o.get_id());
        let mut packed = Self::get_overflow_data(overflow);
        core.append(&mut packed);
        core
    }

    /// Packs the overflow entries into bytes.
    fn get_overflow_data(overflow: Vec<(u8, u8)>) -> (r: Vec<u8>)
        requires
            forall|i: int| 0 <= i < overflow@.len() ==> #[trigger] overflow@[i].1 <= 8,
        ensures
            r@ == bytes_of_bits(entries_bits(overflow@)),
    {
        let mut bit_buffer = BitBuffer::new();
        let mut i: usize = 0;
        assert(overflow@.take(0) =~= Seq::<(u8, u8)>::empty());
        while i < overflow.len()
            invariant
                i <= overflow@.len(),
                bit_buffer.wf(),
                forall|j: int| 0 <= j < overflow@.len() ==> #[trigger] overflow@[j].1 <= 8,
                bit_buffer@ == entries_bits(overflow@.take(i as int)),
            decreases overflow.len() - i,
        {
            let (data, length) = overflow[i];
            proof {
                let e = overflow@[i as int];
                lemma_entries_bits_append(overflow@.take(i as int), seq![e]);
                assert(overflow@.take(i + 1) =~= overflow@.take(i as int) + seq![e]);
                assert(seq![e].drop_first() =~= Seq::<(u8, u8)>::empty());
                assert(entries_bits(seq![e].drop_first()) == Seq::<bool>::empty());
                assert(entries_bits(seq![e]) =~= crate::bitbuffer::low_bits(
                    e.0 as nat,
                    e.1 as nat,
                ));
            }
            bit_buffer.add(data, length);
            i = i + 1;
        }
        assert(overflow@.take(i as int) =~= overflow@);
        bit_buffer.to_bytes()
    }

    /// Adds a move played in `position` (the position before the move): one core byte, a
    /// slot selector when more than one candidate is populated, and a promotion field for a
    /// promotion. A move that the reader could not rebuild from `position` is refused and
    /// nothing is written.
    pub fn add_move(&mut self, chess_move: &ChessMove, position: &Board) -> (r: Result<
        (),
        WriteError,
    >)
        requires
            old(self).wf(),
            position.wf(),
        ensures
            final(self).wf(),
            match encode_move(*position, *chess_move) {
                Ok((byte, e)) => r is Ok && final(self).core_bytes() == old(self).core_bytes().push(
                    byte,
                ) && final(self).entries() == old(self).entries() + e,
                Err(err) => r == Err::<(), WriteError>(err) && final(self).core_bytes() == old(
                    self,
                ).core_bytes() && final(self).entries() == old(self).entries(),
            },
    {
        if !well_formed_move(chess_move) {
            return Err(WriteError::OffBoard);
        }
        let (from, to) = ends_of(chess_move);
        let kind = kind_of(chess_move);
        let c = square_data(kind, to, position);
        let slot = match find_slot(&c, from) {
            Some(i) => i,
            None => {
                return Err(WriteError::OriginNotFound);
            },
        };
        assert(c@[slot as int] == Some(from));
        assert(position.piece_at(from as int) is Some) by {
            crate::filters::lemma_candidate_occupied(*position, kind, to as int, slot as int);
        }
        let promotion = promotion_of(chess_move);
        let rebuilt = rebuild_move(position, kind, from, to, promotion);
        if rebuilt != *chess_move {
            return Err(WriteError::MoveMismatch);
        }
        let is_normal = match rebuilt {
            ChessMove::Normal { .. } => true,
            _ => false,
        };
        if is_normal && promotes_at(position, from, to) != promotion.is_some() {
            return Err(WriteError::MoveMismatch);
        }
        let promotion_entry = match promotion {
            Some(p) => match promotion_index_of(p) {
                Some(i) => Some(i),
                None => {
                    return Err(WriteError::MoveMismatch);
                },
            },
            None => None,
        };
        let id: u8 = match kind {
            FilterKind::Knight => 1,
            FilterKind::Diagonal => 2,
            FilterKind::Straight => 3,
        };
        let ghost old_core = self.core@;
        self.core.push(to + 64 * id);
        assert forall|j: int| 0 <= j < self.core@.len() implies #[trigger] self.core@[j] >= 64 by {
            if j < old_core.len() {
                assert(self.core@[j] == old_core[j]);
                assert(old(self).core_bytes()[j] >= 64);
            }
        }
        let ghost before = self.overflow@;
        let width: u8 = if kind == FilterKind::Knight {
            3
        } else {
            2
        };
        if populated_count(&c) > 1 {
            proof {
                reveal_with_fuel(pow2, 4);
                assert((slot as u8) as nat == slot);
                assert(slot < kind.slots());
                assert(((slot as u8) as nat) < pow2(width as nat));
            }
            self.overflow.push((slot as u8, width));
        }
        match promotion_entry {
            Some(i) => {
                proof {
                    reveal_with_fuel(pow2, 3);
                    assert((i as nat) < pow2(2));
                }
                self.overflow.push((i, 2));
            },
            None => {},
        }
        proof {
            let e = self.overflow@.subrange(before.len() as int, self.overflow@.len() as int);
            assert(self.overflow@ =~= before + e);
            reveal_with_fuel(pow2, 4);
            assert forall|j: int| 0 <= j < self.overflow@.len() implies #[trigger] self.overflow@[j].1
                <= 8 && (self.overflow@[j].0 as nat) < pow2(self.overflow@[j].1 as nat) by {
                if j < before.len() {
                    assert(self.overflow@[j] == before[j]);
                    assert(old(self).entries()[j] == before[j]);
                }
            }
        }
        Ok(())
    }
}

impl Default for Writer {
    fn default() -> (r: Self)
        ensures
            r.wf(),
            r.core_bytes() == Seq::<u8>::empty(),
            r.entries() == Seq::<(u8, u8)>::empty(),
    {
        Self::new()
    }
}

} // verus!
