use pgnparse::position::{BookMove, BookPosition};
use pgnparse::sample::goes_by_plays;

fn counted(uci: &str, win: usize, draw: usize, loss: usize) -> BookMove {
    let mut m = BookMove::new(uci, uci);
    m.win = win;
    m.draw = draw;
    m.loss = loss;
    m
}

fn position(moves: Vec<BookMove>) -> BookPosition {
    let mut p = BookPosition::new("8/8/8/8/8/8/8/8 w - -");
    p.moves = moves;
    p
}

fn uci(m: Option<&BookMove>) -> Option<&str> {
    m.map(|m| m.uci.as_str())
}

#[test]
fn nothing_is_drawn_from_a_position_without_moves() {
    let p = position(vec![]);
    assert!(p.pick_by_plays(0).is_none());
    assert!(p.pick_by_perf(0).is_none());
    assert!(p.get_random_weighted_by_plays().is_none());
    assert!(p.get_random_weighted_by_perf().is_none());
    assert!(p.get_random_mixed(0).is_none());
    assert!(p.get_random_mixed(50).is_none());
    assert!(p.get_random_mixed(100).is_none());
}

#[test]
fn nothing_is_drawn_where_the_weights_add_up_to_nothing() {
    let unplayed = position(vec![counted("a", 0, 0, 0), counted("b", 0, 0, 0)]);
    assert!(unplayed.get_random_weighted_by_plays().is_none());
    assert!(unplayed.get_random_weighted_by_perf().is_none());
    let lost = position(vec![counted("a", 0, 0, 3), counted("b", 0, 0, 1)]);
    for _ in 0..50 {
        assert!(lost.get_random_weighted_by_plays().is_some());
        assert!(lost.get_random_weighted_by_perf().is_none());
    }
}

#[test]
fn the_first_move_that_reaches_the_draw_is_taken() {
    let p = position(vec![counted("a", 1, 0, 0), counted("b", 0, 2, 0), counted("c", 0, 0, 3)]);
    assert_eq!(p.total_plays(), 6);
    let expected = ["a", "a", "b", "b", "c", "c", "c"];
    for (draw, taken) in expected.iter().enumerate() {
        assert_eq!(uci(p.pick_by_plays(draw)), Some(*taken), "{}", draw);
    }
    assert_eq!(uci(p.pick_by_plays(7)), None);
    assert_eq!(uci(p.pick_by_plays(usize::MAX)), None);
}

#[test]
fn the_first_move_that_reaches_the_draw_by_score() {
    // The scores are 100, 50 and 0.
    let p = position(vec![counted("a", 1, 0, 0), counted("b", 0, 2, 0), counted("c", 0, 0, 3)]);
    assert_eq!(p.total_perf(), 150);
    assert_eq!(uci(p.pick_by_perf(0)), Some("a"));
    assert_eq!(uci(p.pick_by_perf(100)), Some("a"));
    assert_eq!(uci(p.pick_by_perf(101)), Some("b"));
    assert_eq!(uci(p.pick_by_perf(149)), Some("b"));
    assert_eq!(uci(p.pick_by_perf(150)), Some("b"));
    assert_eq!(uci(p.pick_by_perf(151)), None);
}

#[test]
fn the_draw_nothing_takes_the_first_move_whatever_its_weight() {
    let p = position(vec![counted("a", 0, 0, 0), counted("b", 0, 0, 1), counted("c", 2, 0, 0)]);
    assert_eq!(uci(p.pick_by_plays(0)), Some("a"));
    assert_eq!(uci(p.pick_by_plays(1)), Some("b"));
    assert_eq!(uci(p.pick_by_plays(2)), Some("c"));
    assert_eq!(uci(p.pick_by_perf(0)), Some("a"));
    assert_eq!(uci(p.pick_by_perf(1)), Some("c"));
    assert_eq!(uci(p.pick_by_perf(100)), Some("c"));
}

#[test]
fn a_draw_stays_below_the_sum_of_the_weights() {
    // With the plays 1 and 1 the draws are 0 and 1, and both take the first
    // move; only the sum itself would take the second.
    let p = position(vec![counted("a", 0, 0, 1), counted("b", 1, 0, 0)]);
    for _ in 0..200 {
        assert_eq!(uci(p.get_random_weighted_by_plays()), Some("a"));
    }
    // With the scores 100 and 0 every draw takes the first move.
    let q = position(vec![counted("a", 1, 0, 0), counted("b", 0, 0, 1)]);
    for _ in 0..200 {
        assert_eq!(uci(q.get_random_weighted_by_perf()), Some("a"));
    }
}

#[test]
fn a_move_is_drawn_where_one_has_weight() {
    let p = position(vec![
        counted("a", 0, 0, 0),
        counted("b", 3, 1, 0),
        counted("c", 0, 0, 0),
        counted("d", 0, 5, 2),
    ]);
    let mut seen_by_plays = [0usize; 4];
    let mut seen_by_perf = [0usize; 4];
    for _ in 0..2000 {
        let m = p.get_random_weighted_by_plays().expect("a move has plays");
        seen_by_plays[p.find_move(&m.uci).unwrap()] += 1;
        let m = p.get_random_weighted_by_perf().expect("a move has a score");
        seen_by_perf[p.find_move(&m.uci).unwrap()] += 1;
        assert!(p.get_random_mixed(0).is_some());
        assert!(p.get_random_mixed(50).is_some());
        assert!(p.get_random_mixed(100).is_some());
    }
    // The third move has no weight and never comes first: it is never drawn.
    assert_eq!(seen_by_plays[2], 0);
    assert_eq!(seen_by_perf[2], 0);
    assert!(seen_by_plays[1] > 0 && seen_by_plays[3] > 0);
    assert!(seen_by_perf[1] > 0 && seen_by_perf[3] > 0);
}

#[test]
fn the_mixed_policy_by_the_draw() {
    assert!(goes_by_plays(0, 0));
    for draw in 1..100 {
        assert!(!goes_by_plays(draw, 0));
    }
    for draw in 0..100 {
        assert!(goes_by_plays(draw, 100));
        assert!(goes_by_plays(draw, 99));
        assert_eq!(goes_by_plays(draw, 50), draw <= 50);
    }
    assert!(goes_by_plays(50, 50));
    assert!(!goes_by_plays(51, 50));
    assert!(!goes_by_plays(99, 98));
}

#[test]
fn the_mixed_policy_with_full_weight_goes_by_plays() {
    // By plays the first move is always taken; by score it is taken on the
    // draw 0 alone.
    let p = position(vec![counted("a", 0, 0, 1), counted("b", 1, 0, 0)]);
    for _ in 0..300 {
        assert_eq!(uci(p.get_random_mixed(100)), Some("a"));
        assert_eq!(uci(p.get_random_mixed(99)), Some("a"));
        assert_eq!(uci(p.get_random_mixed(usize::MAX)), Some("a"));
    }
}

#[test]
fn the_mixed_policy_without_weight_goes_by_score_but_for_one_draw() {
    // By score the second move is taken on 99 draws of 100, and the mixed
    // policy goes by score on 99 draws of 100.
    let p = position(vec![counted("a", 0, 0, 1), counted("b", 1, 0, 0)]);
    let mut second = 0;
    for _ in 0..1000 {
        if uci(p.get_random_mixed(0)) == Some("b") {
            second += 1;
        }
    }
    assert!(second > 900);
}
