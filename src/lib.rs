//! A compact binary codec for chess games.
//!
//! Each move becomes one core byte: the destination square in the low six bits and a
//! movement category (straight, diagonal or knight) in the top two. The origin is found again
//! from the destination and the position: only when more than one piece of the category can
//! reach the square are a few selector bits written, and a promotion adds two bits. After the
//! core bytes comes a terminator byte with the game's outcome, then the packed overflow bits.
//!
//! Positions are plain values ([`board::Board`]); legality and move application are asked of
//! the shakmaty rules engine through [`engine`].
pub mod bitbuffer;
pub mod board;
pub mod codec;
pub mod engine;
pub mod fen;
pub mod filters;
pub mod outcome;
pub mod permutations;
pub mod pieces;
pub mod reader;
pub mod writer;
