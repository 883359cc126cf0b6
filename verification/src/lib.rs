//! An opening book from chess game records.
//!
//! The lines of a text with many games are cut into games ([`segment`]). The
//! headers and move tokens of a game become its record, with a chess rules
//! engine deciding what each token means ([`extract`], [`rules`],
//! [`record`]). The records are taken into the book, which counts for every
//! position and every move played there the games won, drawn and lost by the
//! side to move ([`book`], [`position`], [`outcome`], [`counts`]). From a
//! position of the book a move is drawn at random, by its plays or by its
//! score ([`sample`]).

pub mod book;
pub mod counts;
pub mod extract;
pub mod keyed;
pub mod outcome;
pub mod parser;
pub mod position;
pub mod record;
pub mod rules;
pub mod sample;
pub mod segment;
pub mod tally;
pub mod text;
