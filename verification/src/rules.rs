//! The chess rules engine, as far as this library needs it.
//!
//! A position travels through the library as text: a full encoding in which
//! promoted pieces are marked, so that decoding it gives the position back.
//! Every wrapper here decodes such a text, asks the engine one question and
//! hands back text. What the engine answers is not proved: but for the
//! starting positions, which are written out, each answer has a name, and the
//! contracts of the library speak of these names.
//!
//! The engine counts the rows of a board in eight bits and breaks down on a
//! text with too many of them. A board has eight rows, parted by seven `/`,
//! so the engine is asked about no text with more than sixteen `/`: such a
//! text is taken as one that does not decode.
//!
//! The engine does not decode every position in which a game has ended (in
//! the atomic game, one without the king that exploded). No move is legal
//! there, so nothing is lost: the encodings of the position that a move
//! reaches are asked for together with the move.

use crate::text::text_of;
use shakmaty::fen::{epd, fen, Fen, FenOpts};
use shakmaty::san::San;
use shakmaty::uci::Uci;
use shakmaty::variants::{Variant, VariantPosition};
use shakmaty::{CastlingMode, Position};
use vstd::prelude::*;

verus! {

/// The number of `/` among the first `n` characters of `text`.
pub open spec fn slashes(text: Seq<char>, n: nat) -> nat
    decreases n,
{
    if n == 0 {
        0
    } else {
        slashes(text, (n - 1) as nat) + if text[n - 1] == '/' {
            1nat
        } else {
            0nat
        }
    }
}

/// The engine can be asked about `text`: it holds no more than sixteen `/`.
pub open spec fn askable(text: Seq<char>) -> bool {
    slashes(text, text.len()) <= 16
}

/// Whether the engine can be asked about `text`.
pub fn is_askable(text: &str) -> (r: bool)
    ensures
        r == askable(text@),
{
    let mut count: u8 = 0;
    for c in it: text.chars()
        invariant
            it.seq() == text@,
            count <= 17,
            count == if slashes(text@, it.index() as nat) <= 17 {
                slashes(text@, it.index() as nat)
            } else {
                17
            },
    {
        assert(c == text@[it.index()]);
        if c == '/' && count <= 16 {
            count = count + 1;
        }
    }
    count <= 16
}

/// The text of the engine's starting position for the rules called `rules`;
/// `None` where the engine knows no rules of that name.
pub open spec fn start_position(rules: Seq<char>) -> Option<Seq<char>> {
    if rules == "chess"@ || rules == "atomic"@ || rules == "kingofthehill"@ {
        Some("rnbqkbnr/pppppppp/8/8/8/8/PPPPPPPP/RNBQKBNR w KQkq - 0 1"@)
    } else if rules == "antichess"@ {
        Some("rnbqkbnr/pppppppp/8/8/8/8/PPPPPPPP/RNBQKBNR w - - 0 1"@)
    } else if rules == "3check"@ {
        Some("rnbqkbnr/pppppppp/8/8/8/8/PPPPPPPP/RNBQKBNR w KQkq - 3+3 0 1"@)
    } else if rules == "crazyhouse"@ {
        Some("rnbqkbnr/pppppppp/8/8/8/8/PPPPPPPP/RNBQKBNR[] w KQkq - 0 1"@)
    } else if rules == "racingkings"@ {
        Some("8/8/8/8/8/8/krbnNBRK/qrbnNBRQ w - - 0 1"@)
    } else if rules == "horde"@ {
        Some("rnbqkbnr/pppppppp/8/1PP2PP1/PPPPPPPP/PPPPPPPP/PPPPPPPP/PPPPPPPP w kq - 0 1"@)
    } else {
        None
    }
}

/// The text of the position that the full encoding `encoding` describes under
/// `rules`; `None` where it describes no legal position.
pub uninterp spec fn load_position(rules: Seq<char>, chess960: bool, encoding: Seq<char>) -> Option<
    Seq<char>,
>;

/// The full encoding of the position with the text `position`.
pub uninterp spec fn full_encoding(rules: Seq<char>, chess960: bool, position: Seq<char>) -> Option<
    Seq<char>,
>;

/// The position-only encoding of the position with the text `position`.
pub uninterp spec fn position_only_encoding(
    rules: Seq<char>,
    chess960: bool,
    position: Seq<char>,
) -> Option<Seq<char>>;

/// The coordinate notation of the legal move that `san` denotes in the
/// position with the text `position`; `None` where it denotes none.
pub uninterp spec fn coordinate_notation(
    rules: Seq<char>,
    chess960: bool,
    position: Seq<char>,
    san: Seq<char>,
) -> Option<Seq<char>>;

/// The text of the position reached by the legal move that `san` denotes in
/// the position with the text `position`; `None` where it denotes none.
pub uninterp spec fn position_after(
    rules: Seq<char>,
    chess960: bool,
    position: Seq<char>,
    san: Seq<char>,
) -> Option<Seq<char>>;

/// The full encoding of the position reached by the legal move that `san`
/// denotes in the position with the text `position`; `None` where it denotes
/// none.
pub uninterp spec fn full_encoding_after(
    rules: Seq<char>,
    chess960: bool,
    position: Seq<char>,
    san: Seq<char>,
) -> Option<Seq<char>>;

/// The position-only encoding of the position reached by the legal move that
/// `san` denotes in the position with the text `position`; `None` where it
/// denotes none.
pub uninterp spec fn position_only_encoding_after(
    rules: Seq<char>,
    chess960: bool,
    position: Seq<char>,
    san: Seq<char>,
) -> Option<Seq<char>>;

/// Calls `VariantPosition::new` on the variant that `Variant::from_uci` finds
/// for `rules`, and encodes the result with `FenOpts::fen`, promoted pieces
/// marked. Trusted: the engine knows the eight names of `start_position` and
/// no others, and the result is the text given there for the name.
#[verifier::external_body]
pub(crate) fn start_text(rules: &str) -> (r: Option<String>)
    ensures
        text_of(r) == start_position(rules@),
{
    let pos = VariantPosition::new(Variant::from_uci(rules)?);
    Some(FenOpts::new().promoted(true).fen(&pos))
}

/// Calls `Fen::from_ascii` and `VariantPosition::from_setup`, and encodes the
/// position with `FenOpts::fen`, promoted pieces marked. Trusted: the result
/// is the one named `load_position`, `None` where either call fails. A text
/// with more than sixteen `/` is left out: `Fen::from_ascii` counts the rows
/// of the board in an `i8` and can panic on it.
#[verifier::external_body]
pub(crate) fn load_text(rules: &str, chess960: bool, encoding: &str) -> (r: Option<String>)
    requires
        askable(encoding@),
    ensures
        text_of(r) == load_position(rules@, chess960, encoding@),
{
    let setup = Fen::from_ascii(encoding.as_bytes()).ok()?;
    let mode = CastlingMode::from_chess960(chess960);
    let pos = VariantPosition::from_setup(Variant::from_uci(rules)?, &setup, mode).ok()?;
    Some(FenOpts::new().promoted(true).fen(&pos))
}

/// Calls `shakmaty::fen::fen` on the decoded position. Trusted: the result is
/// the one named `full_encoding`, `None` where `position` does not decode.
/// A text with more than sixteen `/` is left out, as in `load_text`.
#[verifier::external_body]
pub(crate) fn full_text(rules: &str, chess960: bool, position: &str) -> (r: Option<String>)
    requires
        askable(position@),
    ensures
        text_of(r) == full_encoding(rules@, chess960, position@),
{
    let setup = Fen::from_ascii(position.as_bytes()).ok()?;
    let mode = CastlingMode::from_chess960(chess960);
    let pos = VariantPosition::from_setup(Variant::from_uci(rules)?, &setup, mode).ok()?;
    Some(fen(&pos))
}

/// Calls `shakmaty::fen::epd` on the decoded position. Trusted: the result is
/// the one named `position_only_encoding`, `None` where `position` does not
/// decode.
/// A text with more than sixteen `/` is left out, as in `load_text`.
#[verifier::external_body]
pub(crate) fn position_only_text(rules: &str, chess960: bool, position: &str) -> (r: Option<
    String,
>)
    requires
        askable(position@),
    ensures
        text_of(r) == position_only_encoding(rules@, chess960, position@),
{
    let setup = Fen::from_ascii(position.as_bytes()).ok()?;
    let mode = CastlingMode::from_chess960(chess960);
    let pos = VariantPosition::from_setup(Variant::from_uci(rules)?, &setup, mode).ok()?;
    Some(epd(&pos))
}

/// Calls `San::to_move` on the parsed `san` and the decoded position, and
/// writes the move with `Uci::from_move`. Trusted: the result is the one named
/// `coordinate_notation`, `None` where a text does not parse or the move is
/// not legal.
/// A text with more than sixteen `/` is left out, as in `load_text`.
#[verifier::external_body]
pub(crate) fn coordinate_text(rules: &str, chess960: bool, position: &str, san: &str) -> (r:
    Option<String>)
    requires
        askable(position@),
    ensures
        text_of(r) == coordinate_notation(rules@, chess960, position@, san@),
{
    let setup = Fen::from_ascii(position.as_bytes()).ok()?;
    let mode = CastlingMode::from_chess960(chess960);
    let pos = VariantPosition::from_setup(Variant::from_uci(rules)?, &setup, mode).ok()?;
    let m = san.parse::<San>().ok()?.to_move(&pos).ok()?;
    Some(Uci::from_move(&m, mode).to_string())
}

/// Calls `Position::play_unchecked` with the move that `San::to_move` finds
/// for the parsed `san` in the decoded position, and encodes the position
/// reached with `FenOpts::fen`, promoted pieces marked. Trusted: the result is
/// the one named `position_after`, `None` where a text does not parse or the
/// move is not legal.
/// A text with more than sixteen `/` is left out, as in `load_text`.
#[verifier::external_body]
pub(crate) fn after_text(rules: &str, chess960: bool, position: &str, san: &str) -> (r: Option<
    String,
>)
    requires
        askable(position@),
    ensures
        text_of(r) == position_after(rules@, chess960, position@, san@),
{
    let setup = Fen::from_ascii(position.as_bytes()).ok()?;
    let mode = CastlingMode::from_chess960(chess960);
    let mut pos = VariantPosition::from_setup(Variant::from_uci(rules)?, &setup, mode).ok()?;
    let m = san.parse::<San>().ok()?.to_move(&pos).ok()?;
    pos.play_unchecked(&m);
    Some(FenOpts::new().promoted(true).fen(&pos))
}

/// Calls `Position::play_unchecked` as `after_text` does, and
/// `shakmaty::fen::fen` on the position reached. Trusted: the result is the
/// one named `full_encoding_after`, `None` where a text does not parse or the
/// move is not legal.
/// A text with more than sixteen `/` is left out, as in `load_text`.
#[verifier::external_body]
pub(crate) fn full_text_after(rules: &str, chess960: bool, position: &str, san: &str) -> (r:
    Option<String>)
    requires
        askable(position@),
    ensures
        text_of(r) == full_encoding_after(rules@, chess960, position@, san@),
{
    let setup = Fen::from_ascii(position.as_bytes()).ok()?;
    let mode = CastlingMode::from_chess960(chess960);
    let mut pos = VariantPosition::from_setup(Variant::from_uci(rules)?, &setup, mode).ok()?;
    let m = san.parse::<San>().ok()?.to_move(&pos).ok()?;
    pos.play_unchecked(&m);
    Some(fen(&pos))
}

/// Calls `Position::play_unchecked` as `after_text` does, and
/// `shakmaty::fen::epd` on the position reached. Trusted: the result is the
/// one named `position_only_encoding_after`, `None` where a text does not
/// parse or the move is not legal.
/// A text with more than sixteen `/` is left out, as in `load_text`.
#[verifier::external_body]
pub(crate) fn position_only_text_after(
    rules: &str,
    chess960: bool,
    position: &str,
    san: &str,
) -> (r: Option<String>)
    requires
        askable(position@),
    ensures
        text_of(r) == position_only_encoding_after(rules@, chess960, position@, san@),
{
    let setup = Fen::from_ascii(position.as_bytes()).ok()?;
    let mode = CastlingMode::from_chess960(chess960);
    let mut pos = VariantPosition::from_setup(Variant::from_uci(rules)?, &setup, mode).ok()?;
    let m = san.parse::<San>().ok()?.to_move(&pos).ok()?;
    pos.play_unchecked(&m);
    Some(epd(&pos))
}

} // verus!
