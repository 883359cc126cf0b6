//! Move-record extraction: from the headers and move tokens of one game to
//! its record, with the rules engine deciding what each token means.

use crate::keyed::lemma_first_found;
use crate::record::{header_keys, GameRecord, PgnInfo, Ply, SanUciFenEpd, Variant};
use crate::rules::{
    after_text, askable, coordinate_notation, coordinate_text, full_encoding,
    full_encoding_after, full_text, full_text_after, is_askable, load_position, load_text,
    position_after, position_only_encoding, position_only_encoding_after, position_only_text,
    position_only_text_after, start_position, start_text,
};
use crate::text::{decode, lowercase, str_eq, text_of, to_lowercase};
use vstd::prelude::*;
use vstd::string::StringExecFns;
use vstd::utf8::{decode_utf8, valid_utf8};

verus! {

/// The variant that a lowercase variant name stands for; a name that is not
/// recognised stands for the standard game.
pub open spec fn variant_of(lower: Seq<char>) -> Variant {
    if lower == "antichess"@ || lower == "anti chess"@ || lower == "giveaway"@ || lower
        == "give away"@ {
        Variant::VariantAntichess
    } else if lower == "atomic"@ {
        Variant::VariantAtomic
    } else if lower == "chess960"@ || lower == "chess 960"@ {
        Variant::VariantChess960
    } else if lower == "crazyhouse"@ || lower == "crazy house"@ {
        Variant::VariantCrazyhose
    } else if lower == "fromposition"@ || lower == "from position"@ {
        Variant::VariantFromPosition
    } else if lower == "horde"@ {
        Variant::VariantHorde
    } else if lower == "kingofthehill"@ || lower == "king of the hill"@ || lower == "koth"@ {
        Variant::VariantKingOfTheHill
    } else if lower == "racingkings"@ || lower == "racing kings"@ {
        Variant::VariantRacingKings
    } else if lower == "threecheck"@ || lower == "three check"@ || lower == "3check"@ || lower
        == "3 check"@ {
        Variant::VariantThreeCheck
    } else {
        Variant::VariantStandard
    }
}

/// The variant that a name already in lowercase stands for.
pub fn variant_from_lowercase(lower: &str) -> (r: Variant)
    ensures
        r == variant_of(lower@),
{
    if str_eq(lower, "antichess") || str_eq(lower, "anti chess") || str_eq(lower, "giveaway")
        || str_eq(lower, "give away") {
        Variant::VariantAntichess
    } else if str_eq(lower, "atomic") {
        Variant::VariantAtomic
    } else if str_eq(lower, "chess960") || str_eq(lower, "chess 960") {
        Variant::VariantChess960
    } else if str_eq(lower, "crazyhouse") || str_eq(lower, "crazy house") {
        Variant::VariantCrazyhose
    } else if str_eq(lower, "fromposition") || str_eq(lower, "from position") {
        Variant::VariantFromPosition
    } else if str_eq(lower, "horde") {
        Variant::VariantHorde
    } else if str_eq(lower, "kingofthehill") || str_eq(lower, "king of the hill") || str_eq(
        lower,
        "koth",
    ) {
        Variant::VariantKingOfTheHill
    } else if str_eq(lower, "racingkings") || str_eq(lower, "racing kings") {
        Variant::VariantRacingKings
    } else if str_eq(lower, "threecheck") || str_eq(lower, "three check") || str_eq(
        lower,
        "3check",
    ) || str_eq(lower, "3 check") {
        Variant::VariantThreeCheck
    } else {
        Variant::VariantStandard
    }
}

/// The variant that a variant name stands for, whatever its case.
pub fn variant_name_to_variant(variant: &str) -> (r: Variant)
    ensures
        r == variant_of(lowercase(variant@)),
{
    let lower = to_lowercase(variant);
    variant_from_lowercase(lower.as_str())
}

/// The name under which the rules engine knows the rules of `variant`.
pub open spec fn rules_name(variant: Variant) -> Seq<char> {
    match variant {
        Variant::VariantAntichess => "antichess"@,
        Variant::VariantAtomic => "atomic"@,
        Variant::VariantCrazyhose => "crazyhouse"@,
        Variant::VariantHorde => "horde"@,
        Variant::VariantKingOfTheHill => "kingofthehill"@,
        Variant::VariantRacingKings => "racingkings"@,
        Variant::VariantThreeCheck => "3check"@,
        Variant::VariantStandard | Variant::VariantChess960 | Variant::VariantFromPosition => "chess"@,
    }
}

/// Whether castling follows the rules of Chess960 under `variant`.
pub open spec fn is_chess960(variant: Variant) -> bool {
    variant == Variant::VariantChess960
}

/// The name under which the rules engine knows the rules of `variant`.
pub fn rules_of(variant: Variant) -> (r: &'static str)
    ensures
        r@ == rules_name(variant),
{
    match variant {
        Variant::VariantAntichess => "antichess",
        Variant::VariantAtomic => "atomic",
        Variant::VariantCrazyhose => "crazyhouse",
        Variant::VariantHorde => "horde",
        Variant::VariantKingOfTheHill => "kingofthehill",
        Variant::VariantRacingKings => "racingkings",
        Variant::VariantThreeCheck => "3check",
        Variant::VariantStandard | Variant::VariantChess960 | Variant::VariantFromPosition => "chess",
    }
}

/// The position that the full encoding `encoding` describes under `variant`;
/// none where the engine cannot be asked about the text or finds no legal
/// position in it.
pub open spec fn loaded(variant: Variant, encoding: Seq<char>) -> Option<Seq<char>> {
    if askable(encoding) {
        load_position(rules_name(variant), is_chess960(variant), encoding)
    } else {
        None
    }
}

/// The position in which a game under `variant` with the headers `headers`
/// starts: the one its `FEN` header describes where there is such a header
/// and it describes a legal position, else the variant's starting position.
pub open spec fn starting_position(variant: Variant, headers: Map<Seq<char>, Seq<char>>) -> Option<
    Seq<char>,
> {
    let rules = rules_name(variant);
    if headers.contains_key("FEN"@) {
        match loaded(variant, headers["FEN"@]) {
            Some(position) => Some(position),
            None => start_position(rules),
        }
    } else {
        start_position(rules)
    }
}

/// The answers of the rules engine on one token put together: the ply to
/// record and the text of the position reached where the engine gave the
/// move, the position reached and the four encodings; nothing where it
/// withheld one of them.
pub open spec fn assembled(
    san: Seq<char>,
    uci: Option<Seq<char>>,
    next: Option<Seq<char>>,
    fen_before: Option<Seq<char>>,
    epd_before: Option<Seq<char>>,
    fen_after: Option<Seq<char>>,
    epd_after: Option<Seq<char>>,
) -> Option<(Ply, Seq<char>)> {
    if uci is Some && next is Some && fen_before is Some && epd_before is Some && fen_after is Some
        && epd_after is Some {
        Some(
            (
                Ply {
                    san,
                    uci: uci->0,
                    fen_before: fen_before->0,
                    epd_before: epd_before->0,
                    fen_after: fen_after->0,
                    epd_after: epd_after->0,
                },
                next->0,
            ),
        )
    } else {
        None
    }
}

/// What the token `san` does in the position with the text `position`: the
/// ply to record and the text of the position reached, or nothing where the
/// rules engine cannot be asked about the position or does not accept the
/// token there.
pub open spec fn played(variant: Variant, position: Seq<char>, san: Seq<char>) -> Option<
    (Ply, Seq<char>),
> {
    let rules = rules_name(variant);
    let chess960 = is_chess960(variant);
    if askable(position) {
        assembled(
            san,
            coordinate_notation(rules, chess960, position, san),
            position_after(rules, chess960, position, san),
            full_encoding(rules, chess960, position),
            position_only_encoding(rules, chess960, position),
            full_encoding_after(rules, chess960, position, san),
            position_only_encoding_after(rules, chess960, position, san),
        )
    } else {
        None
    }
}

/// The content of an answer of the rules engine.
pub open spec fn answer_of(answer: Option<(SanUciFenEpd, String)>) -> Option<(Ply, Seq<char>)> {
    match answer {
        Some((record, next)) => Some((record@, next@)),
        None => None,
    }
}

/// Puts the answers of the rules engine on the token `san` together.
pub fn assemble(
    san: &str,
    uci: Option<String>,
    next: Option<String>,
    fen_before: Option<String>,
    epd_before: Option<String>,
    fen_after: Option<String>,
    epd_after: Option<String>,
) -> (r: Option<(SanUciFenEpd, String)>)
    ensures
        answer_of(r) == assembled(
            san@,
            text_of(uci),
            text_of(next),
            text_of(fen_before),
            text_of(epd_before),
            text_of(fen_after),
            text_of(epd_after),
        ),
{
    match (uci, next, fen_before, epd_before, fen_after, epd_after) {
        (Some(uci), Some(next), Some(fen_before), Some(epd_before), Some(fen_after), Some(epd_after)) => {
            let record = SanUciFenEpd {
                san: String::from_str(san),
                uci,
                fen_before,
                epd_before,
                fen_after,
                epd_after,
            };
            Some((record, next))
        },
        _ => None,
    }
}

/// What is known of a game while its tokens come in.
pub struct ParsingState {
    /// The variant that the headers seen so far ask for.
    pub variant: Variant,
    /// The text of the current position; `None` until the first move token.
    pub position: Option<String>,
    /// The headers and plies gathered so far.
    pub pgn_info: PgnInfo,
}

/// The mathematical content of a [`ParsingState`].
pub struct Parsing {
    pub variant: Variant,
    pub position: Option<Seq<char>>,
    pub record: GameRecord,
}

impl View for ParsingState {
    type V = Parsing;

    open spec fn view(&self) -> Parsing {
        Parsing {
            variant: self.variant,
            position: match self.position {
                Some(p) => Some(p@),
                None => None,
            },
            record: self.pgn_info@,
        }
    }
}

/// The state after a header with the raw key `key` and the raw value `value`:
/// a header that is not UTF-8 in both parts is passed over; any other is
/// recorded, and one with the key `Variant` also chooses the variant.
pub open spec fn after_header(s: Parsing, key: Seq<u8>, value: Seq<u8>) -> Parsing {
    if valid_utf8(key) && valid_utf8(value) {
        let k = decode_utf8(key);
        let v = decode_utf8(value);
        Parsing {
            variant: if k == "Variant"@ {
                variant_of(lowercase(v))
            } else {
                s.variant
            },
            position: s.position,
            record: GameRecord { headers: s.record.headers.insert(k, v), moves: s.record.moves },
        }
    } else {
        s
    }
}

/// The state after a move token, where `position` is the text of the
/// position in which the token was read and `answer` what the rules engine
/// made of it: an accepted token adds its ply and moves the position on, any
/// other leaves the position where it was. Without a position nothing
/// changes.
pub open spec fn advanced(
    s: Parsing,
    position: Option<Seq<char>>,
    answer: Option<(Ply, Seq<char>)>,
) -> Parsing {
    match position {
        Some(p) => match answer {
            Some((ply, next)) => Parsing {
                variant: s.variant,
                position: Some(next),
                record: GameRecord { headers: s.record.headers, moves: s.record.moves.push(ply) },
            },
            None => Parsing { variant: s.variant, position: Some(p), record: s.record },
        },
        None => Parsing { variant: s.variant, position: None, record: s.record },
    }
}

/// The position in which the next token is read: the current one, or the
/// starting position where no token was read yet.
pub open spec fn reading_position(s: Parsing) -> Option<Seq<char>> {
    match s.position {
        Some(p) => Some(p),
        None => starting_position(s.variant, s.record.headers),
    }
}

/// The state after the move token `san`. The first token fixes the starting
/// position. A token that the rules engine accepts adds a ply and moves the
/// position on; any other token changes neither.
pub open spec fn after_san(s: Parsing, san: Seq<char>) -> Parsing {
    let position = reading_position(s);
    advanced(
        s,
        position,
        match position {
            Some(p) => played(s.variant, p, san),
            None => None,
        },
    )
}

/// Asks the rules engine what `san` does in `position`.
fn play(variant: Variant, position: &str, san: &str) -> (r: Option<(SanUciFenEpd, String)>)
    ensures
        answer_of(r) == played(variant, position@, san@),
{
    if !is_askable(position) {
        return None;
    }
    let rules = rules_of(variant);
    let chess960 = variant == Variant::VariantChess960;
    let uci = coordinate_text(rules, chess960, position, san);
    let next = after_text(rules, chess960, position, san);
    let fen_before = full_text(rules, chess960, position);
    let epd_before = position_only_text(rules, chess960, position);
    let fen_after = full_text_after(rules, chess960, position, san);
    let epd_after = position_only_text_after(rules, chess960, position, san);
    assemble(san, uci, next, fen_before, epd_before, fen_after, epd_after)
}

impl ParsingState {
    /// The state before anything of a game was seen: the standard variant, no
    /// position yet, an empty record.
    pub fn new() -> (r: ParsingState)
        ensures
            r@.variant == Variant::VariantStandard,
            r@.position is None,
            r@.record.headers == Map::<Seq<char>, Seq<char>>::empty(),
            r@.record.moves == Seq::<Ply>::empty(),
    {
        ParsingState { variant: Variant::VariantStandard, position: None, pgn_info: PgnInfo::new() }
    }

    /// Takes in one header, given as raw bytes.
    pub fn header(&mut self, key: &[u8], value: &[u8])
        ensures
            final(self)@ == after_header(old(self)@, key@, value@),
            final(self).pgn_info.moves == old(self).pgn_info.moves,
    {
        match decode(key) {
            Some(key_str) => match decode(value) {
                Some(value_str) => {
                    self.pgn_info.insert_header(key_str, value_str);
                    if str_eq(key_str, "Variant") {
                        self.variant = variant_name_to_variant(value_str);
                    }
                },
                None => {},
            },
            None => {},
        }
    }

    /// The position in which the game starts, as the headers seen so far and
    /// the rules engine have it.
    fn starting(&self) -> (r: Option<String>)
        ensures
            text_of(r) == starting_position(self.variant, self.pgn_info@.headers),
    {
        let rules = rules_of(self.variant);
        let chess960 = self.variant == Variant::VariantChess960;
        match self.pgn_info.find_header("FEN") {
            Some(i) => {
                proof {
                    lemma_first_found(header_keys(self.pgn_info.headers@), "FEN"@, i as int);
                }
                let encoding = self.pgn_info.headers[i].value.as_str();
                let found = if is_askable(encoding) {
                    load_text(rules, chess960, encoding)
                } else {
                    None
                };
                match found {
                    Some(position) => Some(position),
                    None => start_text(rules),
                }
            },
            None => start_text(rules),
        }
    }

    /// Takes in what the rules engine made of a move token: `position` is
    /// the text of the position in which the token was read, `answer` the ply
    /// and the text of the position reached, if the engine accepted the
    /// token.
    pub fn advance(&mut self, position: Option<String>, answer: Option<(SanUciFenEpd, String)>)
        ensures
            final(self)@ == advanced(old(self)@, text_of(position), answer_of(answer)),
            final(self).pgn_info.headers == old(self).pgn_info.headers,
    {
        match position {
            Some(p) => match answer {
                Some((record, next)) => {
                    self.pgn_info.push(record);
                    self.position = Some(next);
                },
                None => {
                    self.position = Some(p);
                },
            },
            None => {
                self.position = None;
            },
        }
    }

    /// Takes in one move token of the main line.
    pub fn san(&mut self, san: &str)
        ensures
            final(self)@ == after_san(old(self)@, san@),
            final(self).pgn_info.headers == old(self).pgn_info.headers,
    {
        let position = match self.position.take() {
            Some(p) => Some(p),
            None => self.starting(),
        };
        let answer = match &position {
            Some(p) => play(self.variant, p.as_str(), san),
            None => None,
        };
        self.advance(position, answer);
    }

    /// Ends the game: the record gathered.
    pub fn end_game(self) -> (r: PgnInfo)
        ensures
            r == self.pgn_info,
    {
        self.pgn_info
    }
}

} // verus!
