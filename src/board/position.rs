use vstd::prelude::*;

verus! {

/// A square in board coordinates: file and rank, each counted from 1.
#[derive(Clone, Copy, Debug, PartialEq, Eq, Structural)]
pub struct BoardPosition(u8, u8);

impl BoardPosition {
    pub closed spec fn file_spec(&self) -> u8 {
        self.0
    }

    pub closed spec fn rank_spec(&self) -> u8 {
        self.1
    }

    pub open spec fn tuple_spec(&self) -> (u8, u8) {
        (self.file_spec(), self.rank_spec())
    }

    /// Both coordinates lie in `1..=8`.
    pub open spec fn on_board(&self) -> bool {
        1 <= self.file_spec() <= 8 && 1 <= self.rank_spec() <= 8
    }

    /// The coordinates counted from 0.
    pub fn get_index(&self) -> (r: (u8, u8))
        requires
            self.file_spec() >= 1,
            self.rank_spec() >= 1,
        ensures
            r == ((self.file_spec() - 1) as u8, (self.rank_spec() - 1) as u8),
    {
        (self.0 - 1, self.1 - 1)
    }

    /// The square with the given coordinates counted from 0.
    pub fn from_index(pos: (u8, u8)) -> (r: Self)
        requires
            pos.0 < 255,
            pos.1 < 255,
        ensures
            r.file_spec() == pos.0 + 1,
            r.rank_spec() == pos.1 + 1,
    {
        BoardPosition(pos.0 + 1, pos.1 + 1)
    }

    pub fn tuple(&self) -> (r: (u8, u8))
        ensures
            r == (self.file_spec(), self.rank_spec()),
    {
        (self.0, self.1)
    }

    pub fn from(pos: (u8, u8)) -> (r: Self)
        ensures
            r.file_spec() == pos.0,
            r.rank_spec() == pos.1,
    {
        Self(pos.0, pos.1)
    }

    pub fn new(file: u8, rank: u8) -> (r: Self)
        ensures
            r.file_spec() == file,
            r.rank_spec() == rank,
    {
        Self(file, rank)
    }

    pub fn file(&self) -> (r: u8)
        ensures
            r == self.file_spec(),
    {
        self.0
    }

    pub fn rank(&self) -> (r: u8)
        ensures
            r == self.rank_spec(),
    {
        self.1
    }
}

/// The two ends of a move.
#[derive(Clone, Copy, Debug, PartialEq, Eq, Structural)]
pub struct Move {
    pub from: BoardPosition,
    pub to: BoardPosition,
}

} // verus!
