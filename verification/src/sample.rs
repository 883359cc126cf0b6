//! Weighted sampling of a move from a position of the book.
//!
//! A draw is a number below the sum of the weights. The moves are walked in
//! their order, and the first one at which the running sum of the weights is
//! at least the draw is taken. The comparison is "at least", not "more than":
//! the draw 0 takes the first move whatever its weight.

use crate::position::{perfs_of, plays_of, BookMove, BookPosition};
use crate::tally::{
    first_reaching, lemma_draw_is_reached, lemma_sum_all, lemma_sum_monotone,
    lemma_sum_positive, lemma_sum_step, reaches, sum,
};
use rand::Rng;
use vstd::prelude::*;

verus! {

/// Calls `rand::thread_rng` and `Rng::gen_range` with the range from 0 up to,
/// and without, `bound`. Trusted: the number drawn lies in that range. An
/// empty range is left out, for `gen_range` panics on it.
#[verifier::external_body]
pub(crate) fn random_below(bound: usize) -> (r: usize)
    requires
        bound > 0,
    ensures
        r < bound,
{
    rand::thread_rng().gen_range(0..bound)
}

/// Whether the mixed policy goes by plays on the draw `draw`, a number below
/// 100: it does where the draw does not exceed `plays_weight`.
pub open spec fn mixed_by_plays(draw: nat, plays_weight: nat) -> bool {
    draw <= plays_weight
}

/// Whether the mixed policy goes by plays on the draw `draw`.
pub fn goes_by_plays(draw: usize, plays_weight: usize) -> (r: bool)
    ensures
        r == mixed_by_plays(draw as nat, plays_weight as nat),
{
    draw <= plays_weight
}

/// With the weight 100 the mixed policy goes by plays on every draw.
pub proof fn lemma_mixed_full_weight(draw: nat)
    requires
        draw < 100,
    ensures
        mixed_by_plays(draw, 100),
{
}

/// With the weight 0 the mixed policy goes by score on every draw but 0, and
/// by plays on the draw 0.
pub proof fn lemma_mixed_zero_weight(draw: nat)
    requires
        0 < draw < 100,
    ensures
        !mixed_by_plays(draw, 0),
        mixed_by_plays(0, 0),
{
}

impl BookPosition {
    /// The weights of the moves: their scores where `by_perf` holds, their
    /// plays where it does not.
    pub open spec fn weights(&self, by_perf: bool) -> Seq<nat> {
        if by_perf {
            perfs_of(self@.moves)
        } else {
            plays_of(self@.moves)
        }
    }

    /// `r` is what the draw `draw` takes under `weights`: the first move at
    /// which the running sum reaches the draw, or none where it never does.
    pub open spec fn takes(&self, weights: Seq<nat>, draw: nat, r: Option<&BookMove>) -> bool {
        match r {
            Some(m) => exists|i: int|
                first_reaching(weights, i, draw) && 0 <= i < self.moves@.len() && *m
                    == self.moves@[i],
            None => forall|i: int| !reaches(weights, i, draw),
        }
    }

    /// `r` is a sample under `weights`: none where the weights add up to 0,
    /// else what some draw below their sum takes, which is a move.
    pub open spec fn sampled(&self, weights: Seq<nat>, r: Option<&BookMove>) -> bool {
        if sum(weights) == 0 {
            r is None
        } else {
            r is Some && exists|draw: nat| draw < sum(weights) && self.takes(weights, draw, r)
        }
    }

    /// What the walk under the weights chosen by `by_perf` asks of the
    /// counters.
    pub open spec fn countable(&self, by_perf: bool) -> bool {
        if by_perf {
            self.perf_countable()
        } else {
            self.plays_countable()
        }
    }

    /// Walks the moves until the running sum of the weights reaches `draw`.
    fn walk(&self, by_perf: bool, draw: usize) -> (r: Option<usize>)
        requires
            self.countable(by_perf),
        ensures
            match r {
                Some(i) => first_reaching(self.weights(by_perf), i as int, draw as nat),
                None => forall|i: int| !reaches(self.weights(by_perf), i, draw as nat),
            },
    {
        let ghost weights = self.weights(by_perf);
        let n = self.moves.len();
        let mut accum: usize = 0;
        let mut i: usize = 0;
        while i < n
            invariant
                n == self.moves@.len(),
                i <= n,
                weights == self.weights(by_perf),
                weights.len() == n,
                self.countable(by_perf),
                sum(weights) <= usize::MAX,
                accum == sum(weights.take(i as int)),
                forall|j: int| 0 <= j < i ==> !reaches(weights, j, draw as nat),
            decreases n - i,
        {
            proof {
                lemma_sum_step(weights, i as int);
                lemma_sum_monotone(weights, i + 1, n as int);
                lemma_sum_all(weights);
                if by_perf {
                    assert(self.moves@[i as int].within_capacity());
                } else {
                    self.lemma_plays_fit(i as int);
                }
            }
            let weight = if by_perf {
                self.moves[i].perf()
            } else {
                self.moves[i].plays()
            };
            accum = accum + weight;
            if accum >= draw {
                return Some(i);
            }
            i += 1;
        }
        None
    }

    /// The move that the draw `draw` takes by plays.
    pub fn pick_by_plays(&self, draw: usize) -> (r: Option<&BookMove>)
        requires
            self.plays_countable(),
        ensures
            self.takes(plays_of(self@.moves), draw as nat, r),
            draw <= self@.total_plays() && self.moves@.len() > 0 ==> r is Some,
            r matches Some(m) ==> m.win + m.draw + m.loss <= usize::MAX,
    {
        proof {
            if draw <= self@.total_plays() && self.moves@.len() > 0 {
                lemma_draw_is_reached(plays_of(self@.moves), draw as nat);
            }
        }
        let ghost weights = plays_of(self@.moves);
        let found = self.walk(false, draw);
        assert(weights == self.weights(false));
        match found {
            Some(i) => {
                let r = Some(&self.moves[i]);
                proof {
                    self.lemma_plays_fit(i as int);
                }
                assert(first_reaching(weights, i as int, draw as nat) && *r->0 == self.moves@[i as int]);
                r
            },
            None => {
                assert(self.moves@.len() > 0 ==> !reaches(
                    weights,
                    self.moves@.len() - 1,
                    draw as nat,
                ));
                None
            },
        }
    }

    /// The move that the draw `draw` takes by score.
    pub fn pick_by_perf(&self, draw: usize) -> (r: Option<&BookMove>)
        requires
            self.perf_countable(),
        ensures
            self.takes(perfs_of(self@.moves), draw as nat, r),
            draw <= self@.total_perf() && self.moves@.len() > 0 ==> r is Some,
            r matches Some(m) ==> m.within_capacity(),
    {
        proof {
            if draw <= self@.total_perf() && self.moves@.len() > 0 {
                lemma_draw_is_reached(perfs_of(self@.moves), draw as nat);
            }
        }
        let ghost weights = perfs_of(self@.moves);
        let found = self.walk(true, draw);
        assert(weights == self.weights(true));
        match found {
            Some(i) => {
                let r = Some(&self.moves[i]);
                assert(self.moves@[i as int].within_capacity());
                assert(first_reaching(weights, i as int, draw as nat) && *r->0 == self.moves@[i as int]);
                r
            },
            None => {
                assert(self.moves@.len() > 0 ==> !reaches(
                    weights,
                    self.moves@.len() - 1,
                    draw as nat,
                ));
                None
            },
        }
    }

    /// A move drawn at random, each with its plays as weight; none where no
    /// move has been played.
    pub fn get_random_weighted_by_plays(&self) -> (r: Option<&BookMove>)
        requires
            self.plays_countable(),
        ensures
            self.sampled(plays_of(self@.moves), r),
            (exists|i: int| 0 <= i < self@.moves.len() && self@.moves[i].plays() > 0) ==> r is Some,
            r matches Some(m) ==> m.win + m.draw + m.loss <= usize::MAX,
    {
        proof {
            lemma_sum_positive(plays_of(self@.moves));
            if exists|i: int| 0 <= i < self@.moves.len() && self@.moves[i].plays() > 0 {
                let i = choose|i: int| 0 <= i < self@.moves.len() && self@.moves[i].plays() > 0;
                assert(plays_of(self@.moves)[i] > 0);
            }
        }
        let t = self.total_plays();
        if t == 0 {
            return None;
        }
        let draw = random_below(t);
        self.pick_by_plays(draw)
    }

    /// A move drawn at random, each with its score as weight; none where no
    /// move has a score above 0.
    pub fn get_random_weighted_by_perf(&self) -> (r: Option<&BookMove>)
        requires
            self.perf_countable(),
        ensures
            self.sampled(perfs_of(self@.moves), r),
            (exists|i: int| 0 <= i < self@.moves.len() && self@.moves[i].perf() > 0) ==> r is Some,
            r matches Some(m) ==> m.within_capacity(),
    {
        proof {
            lemma_sum_positive(perfs_of(self@.moves));
            if exists|i: int| 0 <= i < self@.moves.len() && self@.moves[i].perf() > 0 {
                let i = choose|i: int| 0 <= i < self@.moves.len() && self@.moves[i].perf() > 0;
                assert(perfs_of(self@.moves)[i] > 0);
            }
        }
        let t = self.total_perf();
        if t == 0 {
            return None;
        }
        let draw = random_below(t);
        self.pick_by_perf(draw)
    }

    /// A move drawn at random by plays or by score: a number below 100 is
    /// drawn, and where it does not exceed `plays_weight` the move is drawn
    /// by plays, else by score.
    pub fn get_random_mixed(&self, plays_weight: usize) -> (r: Option<&BookMove>)
        requires
            self.plays_countable(),
            self.perf_countable(),
        ensures
            exists|draw: nat|
                draw < 100 && if mixed_by_plays(draw, plays_weight as nat) {
                    self.sampled(plays_of(self@.moves), r)
                } else {
                    self.sampled(perfs_of(self@.moves), r)
                },
            plays_weight >= 99 ==> self.sampled(plays_of(self@.moves), r),
            r matches Some(m) ==> m.win + m.draw + m.loss <= usize::MAX,
    {
        let draw = random_below(100);
        if goes_by_plays(draw, plays_weight) {
            return self.get_random_weighted_by_plays();
        }
        self.get_random_weighted_by_perf()
    }
}

} // verus!
