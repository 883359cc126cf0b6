//! The moves played in one position, each with the results of the games in
//! which it was played, counted from the point of view of the side to move.

use crate::keyed::{first_at, first_index, lemma_first_found};
use crate::tally::{
    lemma_sum_all, lemma_sum_bounds_each, lemma_sum_monotone, lemma_sum_push, lemma_sum_step,
    lemma_sum_update, sum,
};
use crate::text::str_eq;
use vstd::prelude::*;
use vstd::string::StringExecFns;

verus! {

/// The mathematical content of a [`BookMove`].
pub struct MoveStats {
    pub uci: Seq<char>,
    pub san: Seq<char>,
    pub win: nat,
    pub draw: nat,
    pub loss: nat,
}

impl MoveStats {
    /// A move that no game has played yet.
    pub open spec fn fresh(uci: Seq<char>, san: Seq<char>) -> MoveStats {
        MoveStats { uci, san, win: 0, draw: 0, loss: 0 }
    }

    /// The number of games in which the move was played.
    pub open spec fn plays(self) -> nat {
        self.win + self.draw + self.loss
    }

    /// The score of the move on a scale from 0 to 100: a win counts 100, a
    /// draw 50, a loss nothing, averaged over the plays and rounded down.
    pub open spec fn perf(self) -> nat {
        if self.plays() == 0 {
            0
        } else {
            ((2 * self.win + self.draw) * 50) / self.plays()
        }
    }

    /// The move with one more game counted: a win for the result code 2, a
    /// draw for 1, a loss for any other.
    pub open spec fn credited(self, code: int) -> MoveStats {
        if code == 2 {
            MoveStats { win: self.win + 1, ..self }
        } else if code == 1 {
            MoveStats { draw: self.draw + 1, ..self }
        } else {
            MoveStats { loss: self.loss + 1, ..self }
        }
    }
}

/// The score of a move is at most 100, and is 0 where the move has no plays.
pub proof fn lemma_perf_bounds(m: MoveStats)
    ensures
        0 <= m.perf() <= 100,
        m.plays() == 0 ==> m.perf() == 0,
{
    if m.plays() > 0 {
        let x = ((2 * m.win + m.draw) * 50) as int;
        let p = m.plays() as int;
        assert(0 <= x <= 100 * p);
        assert(0 <= x / p <= 100) by (nonlinear_arith)
            requires
                0 <= x <= 100 * p,
                p > 0,
        ;
    }
}

/// A move of the book with its counters.
#[derive(Debug, Clone)]
pub struct BookMove {
    /// Games won by the side that was to move.
    pub win: usize,
    /// Games drawn.
    pub draw: usize,
    /// Games lost by the side that was to move.
    pub loss: usize,
    /// The move in coordinate notation.
    pub uci: String,
    /// The move in short notation.
    pub san: String,
}

impl View for BookMove {
    type V = MoveStats;

    open spec fn view(&self) -> MoveStats {
        MoveStats {
            uci: self.uci@,
            san: self.san@,
            win: self.win as nat,
            draw: self.draw as nat,
            loss: self.loss as nat,
        }
    }
}

impl BookMove {
    /// The counters are small enough for the plays and the score of the move
    /// to be computed.
    pub open spec fn within_capacity(&self) -> bool {
        &&& self.win + self.draw + self.loss <= usize::MAX
        &&& (2 * self.win + self.draw) * 50 <= usize::MAX
    }

    /// A move with all counters at zero.
    pub fn new(uci: &str, san: &str) -> (r: BookMove)
        ensures
            r@ == MoveStats::fresh(uci@, san@),
            r.within_capacity(),
    {
        BookMove { win: 0, draw: 0, loss: 0, uci: String::from_str(uci), san: String::from_str(san) }
    }

    /// The number of games in which the move was played.
    pub fn plays(&self) -> (r: usize)
        requires
            self.win + self.draw + self.loss <= usize::MAX,
        ensures
            r == self.win + self.draw + self.loss,
            r == self@.plays(),
    {
        self.win + self.draw + self.loss
    }

    /// The score of the move on a scale from 0 to 100.
    pub fn perf(&self) -> (r: usize)
        requires
            self.within_capacity(),
        ensures
            r == self@.perf(),
            r <= 100,
            self@.plays() == 0 ==> r == 0,
    {
        proof {
            lemma_perf_bounds(self@);
        }
        let plays = self.plays();
        if plays == 0 {
            return 0;
        }
        (((2 * self.win) + self.draw) * 50) / plays
    }

    /// The score of the move, where it can be computed in a `usize`.
    pub fn checked_perf(&self) -> (r: Option<usize>)
        ensures
            match r {
                Some(perf) => self.within_capacity() && perf == self@.perf(),
                None => !self.within_capacity(),
            },
    {
        let doubled = match self.win.checked_mul(2) {
            Some(twice) => twice.checked_add(self.draw),
            None => None,
        };
        let weighed = match doubled {
            Some(points) => points.checked_mul(50),
            None => None,
        };
        match (weighed, self.checked_plays()) {
            (Some(_), Some(_)) => Some(self.perf()),
            _ => None,
        }
    }

    /// The number of games in which the move was played, where a `usize`
    /// holds it.
    pub fn checked_plays(&self) -> (r: Option<usize>)
        ensures
            match r {
                Some(plays) => plays == self@.plays(),
                None => self@.plays() > usize::MAX,
            },
    {
        match self.win.checked_add(self.draw) {
            Some(decided) => decided.checked_add(self.loss),
            None => None,
        }
    }
}

/// The views of a list of moves.
pub open spec fn stats_of(moves: Seq<BookMove>) -> Seq<MoveStats> {
    moves.map_values(|m: BookMove| m@)
}

/// The plays of each move of a list.
pub open spec fn plays_of(moves: Seq<MoveStats>) -> Seq<nat> {
    moves.map_values(|m: MoveStats| m.plays())
}

/// The score of each move of a list.
pub open spec fn perfs_of(moves: Seq<MoveStats>) -> Seq<nat> {
    moves.map_values(|m: MoveStats| m.perf())
}

/// The coordinate notations of a list of moves.
pub open spec fn move_keys(moves: Seq<MoveStats>) -> Seq<Seq<char>> {
    moves.map_values(|m: MoveStats| m.uci)
}

/// The moves of a position after one more game played `uci` there: where the
/// move is known, the counter for `code` of the first move with that
/// notation goes up by one; where it is not, the move joins the list at the
/// end, with `san` as its short notation and that one game counted.
pub open spec fn record_move(moves: Seq<MoveStats>, uci: Seq<char>, san: Seq<char>, code: int) -> Seq<
    MoveStats,
> {
    let keys = move_keys(moves);
    if keys.contains(uci) {
        let i = first_index(keys, uci);
        moves.update(i, moves[i].credited(code))
    } else {
        moves.push(MoveStats::fresh(uci, san).credited(code))
    }
}

/// The mathematical content of a [`BookPosition`].
pub struct PositionStats {
    pub epd: Seq<char>,
    pub moves: Seq<MoveStats>,
}

impl PositionStats {
    /// The plays of all moves of the position together.
    pub open spec fn total_plays(self) -> nat {
        sum(plays_of(self.moves))
    }

    /// The scores of all moves of the position together.
    pub open spec fn total_perf(self) -> nat {
        sum(perfs_of(self.moves))
    }

    /// The counters leave room for `n` more games: the plays of the position
    /// and `n` together fit in a `usize`.
    pub open spec fn has_room(self, n: nat) -> bool {
        self.total_plays() + n <= usize::MAX
    }
}

/// A position of the book with the moves played in it, in the order in which
/// they were first seen.
#[derive(Debug, Clone)]
pub struct BookPosition {
    /// The position-only encoding of the position.
    pub epd: String,
    /// The moves; a move is looked up from the front.
    pub moves: Vec<BookMove>,
}

impl View for BookPosition {
    type V = PositionStats;

    open spec fn view(&self) -> PositionStats {
        PositionStats { epd: self.epd@, moves: stats_of(self.moves@) }
    }
}

impl BookPosition {
    /// The plays of the position can be added up in a `usize`.
    pub open spec fn plays_countable(&self) -> bool {
        self@.has_room(0)
    }

    /// The score of every move can be computed, and the scores can be added
    /// up, in a `usize`.
    pub open spec fn perf_countable(&self) -> bool {
        &&& forall|j: int|
            0 <= j < self.moves@.len() ==> (#[trigger] self.moves@[j]).within_capacity()
        &&& self@.total_perf() <= usize::MAX
    }

    /// No two moves have the same coordinate notation.
    pub open spec fn wf(&self) -> bool {
        move_keys(self@.moves).no_duplicates()
    }

    /// A position without moves.
    pub fn new(epd: &str) -> (r: BookPosition)
        ensures
            r@.epd == epd@,
            r@.moves == Seq::<MoveStats>::empty(),
            r.wf(),
            r.plays_countable(),
            r.perf_countable(),
    {
        let r = BookPosition { epd: String::from_str(epd), moves: Vec::new() };
        assert(r@.moves =~= Seq::<MoveStats>::empty());
        assert(plays_of(r@.moves) =~= Seq::<nat>::empty());
        assert(perfs_of(r@.moves) =~= Seq::<nat>::empty());
        assert(move_keys(r@.moves) =~= Seq::<Seq<char>>::empty());
        r
    }

    /// Where the plays of the position can be added up, so can those of each
    /// move.
    pub proof fn lemma_plays_fit(&self, j: int)
        requires
            self.plays_countable(),
            0 <= j < self.moves@.len(),
        ensures
            self.moves@[j].win + self.moves@[j].draw + self.moves@[j].loss <= usize::MAX,
    {
        lemma_sum_bounds_each(plays_of(self@.moves), j);
    }

    /// The place of the first move with the coordinate notation `uci`, if the
    /// position has one.
    pub fn find_move(&self, uci: &str) -> (r: Option<usize>)
        ensures
            match r {
                Some(i) => first_at(move_keys(self@.moves), uci@, i as int),
                None => !move_keys(self@.moves).contains(uci@),
            },
    {
        let n = self.moves.len();
        let mut i: usize = 0;
        while i < n
            invariant
                n == self.moves@.len(),
                i <= n,
                forall|j: int| 0 <= j < i ==> move_keys(self@.moves)[j] != uci@,
            decreases n - i,
        {
            if str_eq(self.moves[i].uci.as_str(), uci) {
                return Some(i);
            }
            i += 1;
        }
        None
    }

    /// Counts one more game in which `uci` was played here, with the result
    /// code `code` (2 for a win of the side to move, 1 for a draw, any other
    /// for a loss). A move not seen here before joins the list, with `san` as
    /// its short notation.
    pub fn record(&mut self, uci: &str, san: &str, code: u8)
        requires
            old(self)@.total_plays() < usize::MAX,
        ensures
            final(self)@.epd == old(self)@.epd,
            final(self)@.moves == record_move(old(self)@.moves, uci@, san@, code as int),
            final(self)@.total_plays() == old(self)@.total_plays() + 1,
            old(self).wf() ==> final(self).wf(),
    {
        let ghost before = self@.moves;
        let found = self.find_move(uci);
        match found {
            Some(j) => {
                proof {
                    lemma_first_found(move_keys(before), uci@, j as int);
                    lemma_sum_bounds_each(plays_of(before), j as int);
                }
                let m = &mut self.moves[j];
                if code == 2 {
                    m.win = m.win + 1;
                } else if code == 1 {
                    m.draw = m.draw + 1;
                } else {
                    m.loss = m.loss + 1;
                }
                proof {
                    let after = self@.moves;
                    assert(after =~= before.update(j as int, before[j as int].credited(code as int)));
                    assert(move_keys(after) =~= move_keys(before));
                    assert(plays_of(after) =~= plays_of(before).update(
                        j as int,
                        before[j as int].plays() + 1,
                    ));
                    lemma_sum_update(plays_of(before), j as int, before[j as int].plays() + 1);
                }
            },
            None => {
                let mut m = BookMove::new(uci, san);
                if code == 2 {
                    m.win = 1;
                } else if code == 1 {
                    m.draw = 1;
                } else {
                    m.loss = 1;
                }
                self.moves.push(m);
                proof {
                    let after = self@.moves;
                    let added = MoveStats::fresh(uci@, san@).credited(code as int);
                    assert(after =~= before.push(added));
                    assert(move_keys(after) =~= move_keys(before).push(uci@));
                    assert(plays_of(after) =~= plays_of(before).push(1));
                    lemma_sum_push(plays_of(before), 1);
                }
            },
        }
    }

    /// The plays of all moves together, where a `usize` holds them.
    pub fn checked_total_plays(&self) -> (r: Option<usize>)
        ensures
            match r {
                Some(total) => total == self@.total_plays(),
                None => self@.total_plays() > usize::MAX,
            },
    {
        let ghost weights = plays_of(self@.moves);
        let n = self.moves.len();
        let mut accum: usize = 0;
        let mut i: usize = 0;
        while i < n
            invariant
                n == self.moves@.len(),
                i <= n,
                weights == plays_of(self@.moves),
                accum == sum(weights.take(i as int)),
            decreases n - i,
        {
            proof {
                lemma_sum_step(weights, i as int);
                lemma_sum_monotone(weights, i + 1, n as int);
                lemma_sum_all(weights);
            }
            let next = match self.moves[i].checked_plays() {
                Some(plays) => accum.checked_add(plays),
                None => None,
            };
            match next {
                Some(total) => {
                    accum = total;
                },
                None => {
                    return None;
                },
            }
            i += 1;
        }
        proof {
            lemma_sum_all(weights);
        }
        Some(accum)
    }

    /// Whether the counters leave room for `n` more games.
    pub fn fits(&self, n: usize) -> (r: bool)
        ensures
            r == self@.has_room(n as nat),
    {
        match self.checked_total_plays() {
            Some(total) => total.checked_add(n).is_some(),
            None => false,
        }
    }

    /// The scores of all moves together, where every score and their sum can
    /// be computed in a `usize`.
    pub fn checked_total_perf(&self) -> (r: Option<usize>)
        ensures
            match r {
                Some(total) => self.perf_countable() && total == self@.total_perf(),
                None => !self.perf_countable(),
            },
    {
        let ghost weights = perfs_of(self@.moves);
        let n = self.moves.len();
        let mut accum: usize = 0;
        let mut i: usize = 0;
        while i < n
            invariant
                n == self.moves@.len(),
                i <= n,
                weights == perfs_of(self@.moves),
                accum == sum(weights.take(i as int)),
                forall|j: int| 0 <= j < i ==> (#[trigger] self.moves@[j]).within_capacity(),
            decreases n - i,
        {
            proof {
                lemma_sum_step(weights, i as int);
                lemma_sum_monotone(weights, i + 1, n as int);
                lemma_sum_all(weights);
            }
            let next = match self.moves[i].checked_perf() {
                Some(perf) => accum.checked_add(perf),
                None => None,
            };
            match next {
                Some(total) => {
                    accum = total;
                },
                None => {
                    return None;
                },
            }
            i += 1;
        }
        proof {
            lemma_sum_all(weights);
        }
        Some(accum)
    }

    /// The plays of all moves together.
    pub fn total_plays(&self) -> (r: usize)
        requires
            self.plays_countable(),
        ensures
            r == self@.total_plays(),
    {
        let ghost weights = plays_of(self@.moves);
        let n = self.moves.len();
        let mut accum: usize = 0;
        let mut i: usize = 0;
        while i < n
            invariant
                n == self.moves@.len(),
                i <= n,
                weights == plays_of(self@.moves),
                sum(weights) <= usize::MAX,
                accum == sum(weights.take(i as int)),
            decreases n - i,
        {
            proof {
                lemma_sum_step(weights, i as int);
                lemma_sum_bounds_each(weights, i as int);
                lemma_sum_monotone(weights, i + 1, n as int);
                lemma_sum_all(weights);
            }
            accum += self.moves[i].plays();
            i += 1;
        }
        proof {
            lemma_sum_all(weights);
        }
        accum
    }

    /// The scores of all moves together.
    pub fn total_perf(&self) -> (r: usize)
        requires
            self.perf_countable(),
        ensures
            r == self@.total_perf(),
    {
        let ghost weights = perfs_of(self@.moves);
        let n = self.moves.len();
        let mut accum: usize = 0;
        let mut i: usize = 0;
        while i < n
            invariant
                n == self.moves@.len(),
                i <= n,
                weights == perfs_of(self@.moves),
                self.perf_countable(),
                accum == sum(weights.take(i as int)),
            decreases n - i,
        {
            proof {
                lemma_sum_step(weights, i as int);
                lemma_sum_monotone(weights, i + 1, n as int);
                lemma_sum_all(weights);
                assert(self.moves@[i as int].within_capacity());
            }
            accum += self.moves[i].perf();
            i += 1;
        }
        proof {
            lemma_sum_all(weights);
        }
        accum
    }
}

} // verus!
