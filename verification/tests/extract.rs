use pgnparse::extract::{
    assemble, rules_of, variant_from_lowercase, variant_name_to_variant, ParsingState,
};
use pgnparse::record::{PgnInfo, SanUciFenEpd, Variant};
use pgnparse::rules::is_askable;
use pgnparse::text::str_eq;

const START_EPD: &str = "rnbqkbnr/pppppppp/8/8/8/8/PPPPPPPP/RNBQKBNR w KQkq -";
const START_FEN: &str = "rnbqkbnr/pppppppp/8/8/8/8/PPPPPPPP/RNBQKBNR w KQkq - 0 1";

fn header<'a>(info: &'a PgnInfo, key: &str) -> Option<&'a str> {
    info.headers.iter().find(|h| h.key == key).map(|h| h.value.as_str())
}

#[test]
fn strings_compare_by_their_characters() {
    assert!(str_eq("", ""));
    assert!(str_eq("koth", "koth"));
    assert!(!str_eq("koth", "kot"));
    assert!(!str_eq("koth", "kotH"));
    assert!(str_eq("Żółw", "Żółw"));
    assert!(!str_eq("Żółw", "Zolw"));
}

#[test]
fn variant_names() {
    let names = [
        ("antichess", Variant::VariantAntichess),
        ("anti chess", Variant::VariantAntichess),
        ("giveaway", Variant::VariantAntichess),
        ("give away", Variant::VariantAntichess),
        ("atomic", Variant::VariantAtomic),
        ("chess960", Variant::VariantChess960),
        ("chess 960", Variant::VariantChess960),
        ("crazyhouse", Variant::VariantCrazyhose),
        ("crazy house", Variant::VariantCrazyhose),
        ("fromposition", Variant::VariantFromPosition),
        ("from position", Variant::VariantFromPosition),
        ("horde", Variant::VariantHorde),
        ("kingofthehill", Variant::VariantKingOfTheHill),
        ("king of the hill", Variant::VariantKingOfTheHill),
        ("koth", Variant::VariantKingOfTheHill),
        ("racingkings", Variant::VariantRacingKings),
        ("racing kings", Variant::VariantRacingKings),
        ("standard", Variant::VariantStandard),
        ("threecheck", Variant::VariantThreeCheck),
        ("three check", Variant::VariantThreeCheck),
        ("3check", Variant::VariantThreeCheck),
        ("3 check", Variant::VariantThreeCheck),
        ("", Variant::VariantStandard),
        ("chess", Variant::VariantStandard),
        ("atomic ", Variant::VariantStandard),
    ];
    for (name, variant) in names {
        assert_eq!(variant_from_lowercase(name), variant, "{}", name);
        assert_eq!(variant_name_to_variant(name), variant, "{}", name);
        assert_eq!(variant_name_to_variant(&name.to_uppercase()), variant, "{}", name);
    }
    assert_eq!(variant_from_lowercase("KOTH"), Variant::VariantStandard);
    assert_eq!(variant_name_to_variant("King Of The Hill"), Variant::VariantKingOfTheHill);
    // The Kelvin sign is an upper case letter whose lower case is `k`.
    assert_eq!(variant_name_to_variant("\u{212A}oth"), Variant::VariantKingOfTheHill);
    assert_eq!(variant_from_lowercase("\u{212A}oth"), Variant::VariantStandard);
}

#[test]
fn rules_names() {
    assert_eq!(rules_of(Variant::VariantStandard), "chess");
    assert_eq!(rules_of(Variant::VariantChess960), "chess");
    assert_eq!(rules_of(Variant::VariantFromPosition), "chess");
    assert_eq!(rules_of(Variant::VariantAntichess), "antichess");
    assert_eq!(rules_of(Variant::VariantAtomic), "atomic");
    assert_eq!(rules_of(Variant::VariantCrazyhose), "crazyhouse");
    assert_eq!(rules_of(Variant::VariantHorde), "horde");
    assert_eq!(rules_of(Variant::VariantKingOfTheHill), "kingofthehill");
    assert_eq!(rules_of(Variant::VariantRacingKings), "racingkings");
    assert_eq!(rules_of(Variant::VariantThreeCheck), "3check");
}

#[test]
fn a_fresh_state() {
    let state = ParsingState::new();
    assert_eq!(state.variant, Variant::VariantStandard);
    assert!(state.position.is_none());
    let game = state.end_game();
    assert!(game.headers.is_empty());
    assert!(game.moves.is_empty());
}

#[test]
fn headers_are_recorded() {
    let mut state = ParsingState::new();
    state.header(b"White", b"Deep Blue");
    state.header(b"Black", b"Kasparov");
    state.header(b"White", b"Deeper Blue");
    assert_eq!(state.variant, Variant::VariantStandard);
    let game = state.end_game();
    assert_eq!(game.headers.len(), 2);
    assert_eq!(header(&game, "White"), Some("Deeper Blue"));
    assert_eq!(header(&game, "Black"), Some("Kasparov"));
    assert_eq!(header(&game, "Result"), None);
}

#[test]
fn a_header_that_is_not_utf8_is_passed_over() {
    let mut state = ParsingState::new();
    state.header(b"White", b"\xff\xfe");
    state.header(b"\xc3\x28", b"x");
    state.header(b"Variant", b"\xffatomic");
    state.header("Zawodnik".as_bytes(), "Żółw".as_bytes());
    assert_eq!(state.variant, Variant::VariantStandard);
    let game = state.end_game();
    assert_eq!(game.headers.len(), 1);
    assert_eq!(header(&game, "Zawodnik"), Some("Żółw"));
}

#[test]
fn the_variant_header_chooses_the_variant() {
    let mut state = ParsingState::new();
    state.header(b"Variant", b"Atomic");
    assert_eq!(state.variant, Variant::VariantAtomic);
    state.header(b"variant", b"Horde");
    assert_eq!(state.variant, Variant::VariantAtomic);
    state.header(b"Variant", b"KOTH");
    assert_eq!(state.variant, Variant::VariantKingOfTheHill);
    state.header(b"Variant", b"something else");
    assert_eq!(state.variant, Variant::VariantStandard);
    assert!(state.position.is_none());
}

fn assert_ply(m: &SanUciFenEpd, expected: [&str; 6]) {
    assert_eq!(
        [
            m.san.as_str(),
            m.uci.as_str(),
            m.fen_before.as_str(),
            m.epd_before.as_str(),
            m.fen_after.as_str(),
            m.epd_after.as_str()
        ],
        expected
    );
}

#[test]
fn moves_from_the_starting_position() {
    let mut state = ParsingState::new();
    state.san("e4");
    state.san("e5");
    state.san("Nf3");
    let game = state.end_game();
    assert_eq!(game.moves.len(), 3);
    assert_ply(
        &game.moves[0],
        [
            "e4",
            "e2e4",
            START_FEN,
            START_EPD,
            "rnbqkbnr/pppppppp/8/8/4P3/8/PPPP1PPP/RNBQKBNR b KQkq - 0 1",
            "rnbqkbnr/pppppppp/8/8/4P3/8/PPPP1PPP/RNBQKBNR b KQkq -",
        ],
    );
    assert_ply(
        &game.moves[1],
        [
            "e5",
            "e7e5",
            "rnbqkbnr/pppppppp/8/8/4P3/8/PPPP1PPP/RNBQKBNR b KQkq - 0 1",
            "rnbqkbnr/pppppppp/8/8/4P3/8/PPPP1PPP/RNBQKBNR b KQkq -",
            "rnbqkbnr/pppp1ppp/8/4p3/4P3/8/PPPP1PPP/RNBQKBNR w KQkq - 0 2",
            "rnbqkbnr/pppp1ppp/8/4p3/4P3/8/PPPP1PPP/RNBQKBNR w KQkq -",
        ],
    );
    assert_ply(
        &game.moves[2],
        [
            "Nf3",
            "g1f3",
            "rnbqkbnr/pppp1ppp/8/4p3/4P3/8/PPPP1PPP/RNBQKBNR w KQkq - 0 2",
            "rnbqkbnr/pppp1ppp/8/4p3/4P3/8/PPPP1PPP/RNBQKBNR w KQkq -",
            "rnbqkbnr/pppp1ppp/8/4p3/4P3/5N2/PPPP1PPP/RNBQKB1R b KQkq - 1 2",
            "rnbqkbnr/pppp1ppp/8/4p3/4P3/5N2/PPPP1PPP/RNBQKB1R b KQkq -",
        ],
    );
}

#[test]
fn a_move_that_is_refused_is_dropped() {
    let mut state = ParsingState::new();
    state.san("e5");
    state.san("Ke2");
    state.san("xyz");
    state.san("");
    state.san("--");
    assert_eq!(state.position.as_deref(), Some(START_FEN));
    state.san("e4");
    state.san("e4");
    state.san("e5");
    let game = state.end_game();
    assert_eq!(game.moves.len(), 2);
    assert_eq!(game.moves[0].uci, "e2e4");
    assert_eq!(game.moves[0].fen_before, START_FEN);
    assert_eq!(game.moves[1].uci, "e7e5");
}

#[test]
fn the_fen_header_gives_the_starting_position() {
    let mut state = ParsingState::new();
    state.header(b"FEN", b"8/8/8/8/8/7k/8/7K w - - 0 1");
    state.header(b"White", b"White");
    state.header(b"Black", b"Black");
    state.header(b"Variant", b"Atomic");
    state.san("Kh2");
    state.san("Kg2");
    let game = state.end_game();
    assert_eq!(game.headers.len(), 4);
    assert_eq!(game.moves.len(), 2);
    assert_ply(
        &game.moves[0],
        [
            "Kh2",
            "h1h2",
            "8/8/8/8/8/7k/8/7K w - - 0 1",
            "8/8/8/8/8/7k/8/7K w - -",
            "8/8/8/8/8/7k/7K/8 b - - 1 1",
            "8/8/8/8/8/7k/7K/8 b - -",
        ],
    );
    assert_ply(
        &game.moves[1],
        [
            "Kg2",
            "h3g2",
            "8/8/8/8/8/7k/7K/8 b - - 1 1",
            "8/8/8/8/8/7k/7K/8 b - -",
            "8/8/8/8/8/8/6kK/8 w - - 2 2",
            "8/8/8/8/8/8/6kK/8 w - -",
        ],
    );
}

#[test]
fn kings_may_not_touch_in_the_standard_game() {
    let mut state = ParsingState::new();
    state.header(b"FEN", b"8/8/8/8/8/7k/8/7K w - - 0 1");
    state.san("Kh2");
    state.san("Kg1");
    let game = state.end_game();
    assert_eq!(game.moves.len(), 1);
    assert_eq!(game.moves[0].uci, "h1g1");
}

#[test]
fn the_fen_header_is_written_in_the_usual_form() {
    let mut state = ParsingState::new();
    // No counters, and an en passant square that no pawn can take on.
    state.header(b"FEN", b"4k3/8/8/8/3Pp3/8/8/3KR3 b - d3");
    state.san("Kd7");
    let game = state.end_game();
    assert_eq!(game.moves.len(), 1);
    assert_eq!(game.moves[0].fen_before, "4k3/8/8/8/3Pp3/8/8/3KR3 b - - 0 1");
    assert_eq!(game.moves[0].epd_before, "4k3/8/8/8/3Pp3/8/8/3KR3 b - -");
    assert_eq!(game.moves[0].uci, "e8d7");
}

#[test]
fn a_fen_header_that_gives_no_position_is_ignored() {
    for fen in ["", "nonsense", "8/8/8/8/8/8/8/8 w - - 0 1", "kk6/8/8/8/8/8/8/K7 w - - 0 1"] {
        let mut state = ParsingState::new();
        state.header(b"FEN", fen.as_bytes());
        state.san("e4");
        let game = state.end_game();
        assert_eq!(game.moves.len(), 1, "{}", fen);
        assert_eq!(game.moves[0].fen_before, START_FEN, "{}", fen);
    }
}

#[test]
fn the_fen_header_is_read_with_the_first_move() {
    // A header that comes after the first move token changes nothing.
    let mut state = ParsingState::new();
    state.san("e4");
    state.header(b"FEN", b"8/8/8/8/8/7k/8/7K w - - 0 1");
    state.san("e5");
    let game = state.end_game();
    assert_eq!(game.moves.len(), 2);
    assert_eq!(game.moves[1].uci, "e7e5");

    // The order of the headers before it does not matter.
    let mut one = ParsingState::new();
    one.header(b"Variant", b"Atomic");
    one.header(b"FEN", b"8/8/8/8/8/7k/8/7K w - - 0 1");
    one.san("Kh2");
    one.san("Kg2");
    assert_eq!(one.end_game().moves.len(), 2);
}

#[test]
fn castling_is_written_by_the_variant() {
    let moves = ["e4", "e5", "Nf3", "Nc6", "Bc4", "Bc5", "O-O"];
    let mut standard = ParsingState::new();
    let mut chess960 = ParsingState::new();
    chess960.header(b"Variant", b"Chess960");
    for m in moves {
        standard.san(m);
        chess960.san(m);
    }
    let standard = standard.end_game();
    let chess960 = chess960.end_game();
    assert_eq!(standard.moves.len(), 7);
    assert_eq!(chess960.moves.len(), 7);
    assert_eq!(standard.moves[6].uci, "e1g1");
    assert_eq!(chess960.moves[6].uci, "e1h1");
    assert_eq!(
        standard.moves[6].fen_after,
        "r1bqk1nr/pppp1ppp/2n5/2b1p3/2B1P3/5N2/PPPP1PPP/RNBQ1RK1 b kq - 5 4"
    );
    assert_eq!(standard.moves[6].fen_after, chess960.moves[6].fen_after);
}

#[test]
fn a_chess960_position_from_the_fen_header() {
    let fen = "bnrqkrnb/pppppppp/8/8/8/8/PPPPPPPP/BNRQKRNB w KQkq - 0 1";
    let mut chess960 = ParsingState::new();
    chess960.header(b"Variant", b"Chess960");
    chess960.header(b"FEN", fen.as_bytes());
    chess960.san("g3");
    let chess960 = chess960.end_game();
    assert_eq!(chess960.moves.len(), 1);
    assert_eq!(chess960.moves[0].uci, "g2g3");

    // In the standard game the castling rights of this position are refused,
    // and with them the header.
    let mut standard = ParsingState::new();
    standard.header(b"FEN", fen.as_bytes());
    standard.san("g3");
    let standard = standard.end_game();
    assert_eq!(standard.moves.len(), 1);
    assert_eq!(standard.moves[0].fen_before, START_FEN);
}

#[test]
fn starting_positions_of_the_variants() {
    let starts = [
        ("Antichess", "e3", "rnbqkbnr/pppppppp/8/8/8/8/PPPPPPPP/RNBQKBNR w - - 0 1"),
        ("Atomic", "e3", START_FEN),
        ("Chess960", "e3", START_FEN),
        ("Crazyhouse", "e3", "rnbqkbnr/pppppppp/8/8/8/8/PPPPPPPP/RNBQKBNR[] w KQkq - 0 1"),
        ("From Position", "e3", START_FEN),
        ("Horde", "a5", "rnbqkbnr/pppppppp/8/1PP2PP1/PPPPPPPP/PPPPPPPP/PPPPPPPP/PPPPPPPP w kq - 0 1"),
        ("King of the Hill", "e3", START_FEN),
        ("Racing Kings", "Kg3", "8/8/8/8/8/8/krbnNBRK/qrbnNBRQ w - - 0 1"),
        ("Standard", "e3", START_FEN),
        ("Three Check", "e3", "rnbqkbnr/pppppppp/8/8/8/8/PPPPPPPP/RNBQKBNR w KQkq - 3+3 0 1"),
    ];
    for (variant, san, fen) in starts {
        let mut state = ParsingState::new();
        state.header(b"Variant", variant.as_bytes());
        state.san("xyz");
        assert_eq!(state.position.as_deref(), Some(fen), "{}", variant);
        state.san(san);
        let game = state.end_game();
        assert_eq!(game.moves.len(), 1, "{}", variant);
        assert_eq!(game.moves[0].fen_before, fen, "{}", variant);
    }
}

#[test]
fn a_promoted_piece_is_written_like_any_other() {
    let mut state = ParsingState::new();
    state.header(b"FEN", b"8/P7/8/8/8/8/k6K/8 w - - 0 1");
    state.san("a8=Q");
    state.san("Kb3");
    state.san("Qa1");
    let game = state.end_game();
    assert_eq!(game.moves.len(), 3);
    assert_eq!(game.moves[0].uci, "a7a8q");
    assert_eq!(game.moves[0].fen_after, "Q7/8/8/8/8/8/k6K/8 b - - 0 1");
    assert_eq!(game.moves[1].fen_before, "Q7/8/8/8/8/8/k6K/8 b - - 0 1");
    assert_eq!(game.moves[1].epd_before, "Q7/8/8/8/8/8/k6K/8 b - -");
    assert_eq!(game.moves[2].fen_after, "8/8/8/8/8/1k6/7K/Q7 b - - 2 2");
}

#[test]
fn a_promoted_piece_taken_in_crazyhouse_is_a_pawn_in_hand() {
    let mut state = ParsingState::new();
    state.header(b"Variant", b"Crazyhouse");
    state.header(b"FEN", b"1r5k/P7/8/8/8/8/8/7K[] w - - 0 1");
    state.san("a8=Q");
    state.san("Rxa8");
    let game = state.end_game();
    assert_eq!(game.moves.len(), 2);
    assert_eq!(game.moves[0].fen_after, "Qr5k/8/8/8/8/8/8/7K[] b - - 0 1");
    assert_eq!(game.moves[1].uci, "b8a8");
    assert_eq!(game.moves[1].fen_after, "r6k/8/8/8/8/8/8/7K[p] w - - 0 2");
}

#[test]
fn a_piece_is_dropped_in_crazyhouse() {
    let mut state = ParsingState::new();
    state.header(b"Variant", b"Crazyhouse");
    state.header(b"FEN", b"7k/8/8/8/8/8/8/7K[Q] w - - 0 1");
    state.san("Q@a1");
    let game = state.end_game();
    assert_eq!(game.moves.len(), 1);
    assert_eq!(game.moves[0].uci, "Q@a1");
    assert_eq!(game.moves[0].fen_after, "7k/8/8/8/8/8/8/Q6K[] b - - 1 1");
}

#[test]
fn the_token_is_recorded_as_it_was_given() {
    let mut state = ParsingState::new();
    state.header(b"FEN", b"7k/8/8/8/8/8/8/R6K w - - 0 1");
    state.san("Ra8+");
    let game = state.end_game();
    assert_eq!(game.moves.len(), 1);
    assert_eq!(game.moves[0].san, "Ra8+");
    assert_eq!(game.moves[0].uci, "a1a8");
}

fn some(text: &str) -> Option<String> {
    Some(text.to_string())
}

#[test]
fn the_answers_of_the_engine_are_put_together() {
    let (record, next) = assemble("e4", some("e2e4"), some("n"), some("fb"), some("eb"), some("fa"), some("ea"))
        .expect("all answers are there");
    assert_ply(&record, ["e4", "e2e4", "fb", "eb", "fa", "ea"]);
    assert_eq!(next, "n");
    assert!(assemble("e4", None, some("n"), some("fb"), some("eb"), some("fa"), some("ea")).is_none());
    assert!(assemble("e4", some("e2e4"), None, some("fb"), some("eb"), some("fa"), some("ea")).is_none());
    assert!(assemble("e4", some("e2e4"), some("n"), None, some("eb"), some("fa"), some("ea")).is_none());
    assert!(assemble("e4", some("e2e4"), some("n"), some("fb"), None, some("fa"), some("ea")).is_none());
    assert!(assemble("e4", some("e2e4"), some("n"), some("fb"), some("eb"), None, some("ea")).is_none());
    assert!(assemble("e4", some("e2e4"), some("n"), some("fb"), some("eb"), some("fa"), None).is_none());
    assert!(assemble("e4", None, None, None, None, None, None).is_none());
}

#[test]
fn the_state_moves_on_with_an_accepted_token() {
    let answer = assemble("e4", some("e2e4"), some("n"), some("fb"), some("eb"), some("fa"), some("ea"));
    let mut state = ParsingState::new();
    state.header(b"White", b"x");

    state.advance(None, answer.clone());
    assert!(state.position.is_none());
    assert!(state.pgn_info.moves.is_empty());

    state.advance(some("p"), None);
    assert_eq!(state.position.as_deref(), Some("p"));
    assert!(state.pgn_info.moves.is_empty());

    state.advance(some("p"), answer);
    assert_eq!(state.position.as_deref(), Some("n"));
    assert_eq!(state.pgn_info.moves.len(), 1);
    assert_ply(&state.pgn_info.moves[0], ["e4", "e2e4", "fb", "eb", "fa", "ea"]);
    assert_eq!(state.pgn_info.headers.len(), 1);
    assert_eq!(state.variant, Variant::VariantStandard);
}

fn rows(n: usize) -> String {
    vec!["8"; n].join("/")
}

#[test]
fn a_text_is_askable_up_to_sixteen_slashes() {
    assert!(is_askable(""));
    assert!(is_askable(START_FEN));
    assert!(is_askable("rnbqkbnr/pppppppp/8/8/8/8/PPPPPPPP/RNBQKBNR/ w KQkq - 0 1"));
    assert!(is_askable(&rows(17)));
    assert!(!is_askable(&rows(18)));
    assert!(is_askable("////////////////"));
    assert!(!is_askable("/////////////////"));
    assert!(is_askable("a/b c/d e/f/g/h/i/j/k/l/m/n/o/p/q/r/s"));
    assert!(!is_askable("a/b c/d e/f/g/h/i/j/k/l/m/n/o/p/q/r/s/t"));
    assert!(is_askable("é/é/é"));
    assert!(!is_askable(&rows(137)));
    assert!(!is_askable(&rows(1000)));
}

#[test]
fn a_board_of_too_many_rows_is_no_position() {
    for n in [18, 136, 137, 138, 300] {
        let text = format!("{}[] w - - 0 1", rows(n));

        let mut state = ParsingState::new();
        state.header(b"FEN", text.as_bytes());
        state.san("e4");
        let game = state.end_game();
        assert_eq!(game.moves.len(), 1, "{}", n);
        assert_eq!(game.moves[0].fen_before, START_FEN, "{}", n);

        let mut state = ParsingState::new();
        state.header(b"Variant", b"Crazyhouse");
        state.position = Some(text.clone());
        state.san("e4");
        state.san("Nf3");
        assert_eq!(state.position.as_deref(), Some(text.as_str()));
        assert!(state.end_game().moves.is_empty());
    }
}

#[test]
fn a_pocket_behind_an_eighth_slash() {
    let mut state = ParsingState::new();
    state.header(b"Variant", b"Crazyhouse");
    state.header(b"FEN", b"7k/8/8/8/8/8/8/7K/Q w - - 0 1");
    state.san("Q@a1");
    let game = state.end_game();
    assert_eq!(game.moves.len(), 1);
    assert_eq!(game.moves[0].fen_before, "7k/8/8/8/8/8/8/7K[Q] w - - 0 1");
    assert_eq!(game.moves[0].fen_after, "7k/8/8/8/8/8/8/Q6K[] b - - 1 1");
}
