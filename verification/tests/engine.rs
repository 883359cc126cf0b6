use pgnparse::extract::ParsingState;
use shakmaty::fen::{epd, fen, Fen};
use shakmaty::san::San;
use shakmaty::uci::Uci;
use shakmaty::variants::{Variant, VariantPosition};
use shakmaty::{CastlingMode, Position};

/// A fixed sequence of numbers that looks random.
struct Dice(u64);

impl Dice {
    fn roll(&mut self, sides: usize) -> usize {
        self.0 = self.0.wrapping_mul(6364136223846793005).wrapping_add(1442695040888963407);
        ((self.0 >> 33) as usize) % sides
    }
}

const TOKENS: [&str; 16] = [
    "e4", "e5", "Nf3", "Nc6", "O-O", "O-O-O", "Qxd5", "a8=Q", "exd5", "N@f3", "P@e4", "Kd2", "Rb1",
    "--", "xyz", "",
];

/// Plays games of tokens chosen by the dice, most of them legal moves, once
/// on a position that the engine holds and once through the library, which
/// carries the position as text, and holds the plies of the one against
/// those of the other.
fn agree(header: &str, variant: Variant, start: Option<&str>, seed: u64) -> usize {
    let chess960 = header == "Chess960";
    let mode = CastlingMode::from_chess960(chess960);
    let mut dice = Dice(seed);
    let mut plies = 0;
    for _ in 0..40 {
        let mut pos = match start {
            Some(text) => {
                let setup = Fen::from_ascii(text.as_bytes()).expect("a full encoding");
                VariantPosition::from_setup(variant, &setup, mode).expect("a legal position")
            }
            None => VariantPosition::new(variant),
        };
        let mut state = ParsingState::new();
        state.header(b"Variant", header.as_bytes());
        if let Some(text) = start {
            state.header(b"FEN", text.as_bytes());
        }
        let mut expected: Vec<[String; 6]> = Vec::new();
        for _ in 0..150 {
            let legals = pos.legals();
            let token = if legals.is_empty() || dice.roll(5) == 0 {
                TOKENS[dice.roll(TOKENS.len())].to_string()
            } else {
                San::from_move(&pos, &legals[dice.roll(legals.len())]).to_string()
            };
            state.san(&token);
            let found = token.parse::<San>().ok().and_then(|san| san.to_move(&pos).ok());
            if let Some(m) = found {
                let uci = Uci::from_move(&m, mode).to_string();
                let fen_before = fen(&pos);
                let epd_before = epd(&pos);
                pos.play_unchecked(&m);
                expected.push([token, uci, fen_before, epd_before, fen(&pos), epd(&pos)]);
            }
        }
        let game = state.end_game();
        for (m, e) in game.moves.iter().zip(expected.iter()) {
            assert_eq!(
                [&m.san, &m.uci, &m.fen_before, &m.epd_before, &m.fen_after, &m.epd_after],
                [&e[0], &e[1], &e[2], &e[3], &e[4], &e[5]]
            );
        }
        assert_eq!(game.moves.len(), expected.len());
        plies += expected.len();
    }
    plies
}

#[test]
fn the_library_agrees_with_the_engine_in_the_standard_game() {
    assert!(agree("Standard", Variant::Chess, None, 1) > 2000);
    assert!(agree("From Position", Variant::Chess, None, 2) > 2000);
    assert!(agree("unknown", Variant::Chess, None, 3) > 2000);
}

#[test]
fn the_library_agrees_with_the_engine_from_a_given_position() {
    // Pawns about to promote, castling rights, a pawn that can be taken in
    // passing.
    let starts = [
        "r3k2r/p1ppqpb1/bn2pnp1/3PN3/1p2P3/2N2Q1p/PPPBBPPP/R3K2R w KQkq - 0 1",
        "r3k3/1P6/8/8/8/8/6p1/4K2R w Kq - 0 1",
        "rnbqkbnr/ppp1pppp/8/8/3pP3/5N2/PPPP1PPP/RNBQKB1R b KQkq e3 0 2",
        "8/2P3k1/8/8/8/8/1p3K2/8 w - - 0 1",
        "r3k2r/8/8/8/8/8/8/R3K2R b KQkq - 3 10",
    ];
    for (i, start) in starts.iter().enumerate() {
        assert!(agree("From Position", Variant::Chess, Some(start), 10 + i as u64) > 500);
        assert!(agree("Standard", Variant::Chess, Some(start), 20 + i as u64) > 500);
    }
}

#[test]
fn the_library_agrees_with_the_engine_in_chess960() {
    assert!(agree("Chess960", Variant::Chess, None, 4) > 2000);
    let starts = [
        "bnrqkrnb/pppppppp/8/8/8/8/PPPPPPPP/BNRQKRNB w KQkq - 0 1",
        "1rk3r1/8/8/8/8/8/8/1RK3R1 w KQkq - 0 1",
        "nrk1brnb/pp1ppppp/2p5/3q4/5P2/PP6/1KPPP1PP/NR1QBRNB b kq - 2 10",
    ];
    for (i, start) in starts.iter().enumerate() {
        assert!(agree("Chess960", Variant::Chess, Some(start), 30 + i as u64) > 500);
    }
}

#[test]
fn the_library_agrees_with_the_engine_in_atomic() {
    assert!(agree("Atomic", Variant::Atomic, None, 5) > 500);
    assert!(agree("Atomic", Variant::Atomic, Some("8/8/8/8/8/7k/8/7K w - - 0 1"), 6) > 500);
}

#[test]
fn the_library_agrees_with_the_engine_in_antichess() {
    assert!(agree("Antichess", Variant::Antichess, None, 7) > 500);
    assert!(agree("giveaway", Variant::Antichess, Some("8/1P6/8/8/8/8/6p1/8 w - - 0 1"), 8) > 100);
}

#[test]
fn the_library_agrees_with_the_engine_in_crazyhouse() {
    assert!(agree("Crazyhouse", Variant::Crazyhouse, None, 9) > 2000);
    let start = "r3k2r/1P6/8/8/8/8/6p1/R3K2R[QRNqbnPPpp] w KQkq - 0 1";
    assert!(agree("Crazy House", Variant::Crazyhouse, Some(start), 10) > 2000);
}

#[test]
fn the_library_agrees_with_the_engine_in_king_of_the_hill() {
    assert!(agree("King of the Hill", Variant::KingOfTheHill, None, 11) > 1000);
    assert!(agree("koth", Variant::KingOfTheHill, None, 12) > 1000);
}

#[test]
fn the_library_agrees_with_the_engine_in_three_check() {
    assert!(agree("Three Check", Variant::ThreeCheck, None, 13) > 1000);
    assert!(agree("3check", Variant::ThreeCheck, None, 14) > 1000);
}

#[test]
fn the_library_agrees_with_the_engine_in_racing_kings() {
    assert!(agree("Racing Kings", Variant::RacingKings, None, 15) > 500);
}

#[test]
fn the_library_agrees_with_the_engine_in_horde() {
    assert!(agree("Horde", Variant::Horde, None, 16) > 2000);
}
