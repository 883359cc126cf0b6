//! What taking in a game adds to the counters of a book: the same for every
//! book, so that a game taken in twice counts twice, and games taken in in
//! another order count the same.

use crate::book::{
    absorb_game, absorb_plies, cutoff, position_keys, positions_wf, record_ply, BookStats,
};
use crate::keyed::{first_at, first_index, lemma_first_found, lemma_first_of_contained};
use crate::outcome::{oriented, result_code, result_in, white_to_move};
use crate::position::{move_keys, record_move, MoveStats, PositionStats};
use crate::record::Ply;
use vstd::prelude::*;

verus! {

/// Three counters: games won, drawn and lost.
pub struct Counts {
    pub win: nat,
    pub draw: nat,
    pub loss: nat,
}

impl Counts {
    /// No game.
    pub open spec fn zero() -> Counts {
        Counts { win: 0, draw: 0, loss: 0 }
    }

    /// One game with the result code `code`.
    pub open spec fn one(code: int) -> Counts {
        if code == 2 {
            Counts { win: 1, draw: 0, loss: 0 }
        } else if code == 1 {
            Counts { win: 0, draw: 1, loss: 0 }
        } else {
            Counts { win: 0, draw: 0, loss: 1 }
        }
    }

    /// The games of both.
    pub open spec fn plus(self, other: Counts) -> Counts {
        Counts {
            win: self.win + other.win,
            draw: self.draw + other.draw,
            loss: self.loss + other.loss,
        }
    }

    /// Twice the games.
    pub open spec fn doubled(self) -> Counts {
        self.plus(self)
    }
}

/// The counters of a move.
pub open spec fn counts(m: MoveStats) -> Counts {
    Counts { win: m.win, draw: m.draw, loss: m.loss }
}

/// The counters of the move `uci` among `moves`; zero where it is not there.
pub open spec fn counts_in(moves: Seq<MoveStats>, uci: Seq<char>) -> Counts {
    let keys = move_keys(moves);
    if keys.contains(uci) {
        counts(moves[first_index(keys, uci)])
    } else {
        Counts::zero()
    }
}

/// The counters of the move `uci` in the position `epd` of a book; zero where
/// the book does not know the position or the move.
pub open spec fn counts_of(positions: Seq<PositionStats>, epd: Seq<char>, uci: Seq<char>) -> Counts {
    let keys = position_keys(positions);
    if keys.contains(epd) {
        counts_in(positions[first_index(keys, epd)].moves, uci)
    } else {
        Counts::zero()
    }
}

/// The book knows the move `uci` in the position `epd`.
pub open spec fn known(positions: Seq<PositionStats>, epd: Seq<char>, uci: Seq<char>) -> bool {
    let keys = position_keys(positions);
    keys.contains(epd) && move_keys(positions[first_index(keys, epd)].moves).contains(uci)
}

/// Two books hold the same positions, each with the same moves, in the same
/// order.
pub open spec fn same_entries(a: Seq<PositionStats>, b: Seq<PositionStats>) -> bool {
    &&& a.len() == b.len()
    &&& position_keys(a) == position_keys(b)
    &&& forall|i: int| 0 <= i < a.len() ==> move_keys(#[trigger] a[i].moves) == move_keys(b[i].moves)
}

/// What one ply played as `uci` in the position `epd` with the result code
/// `code` adds to the counters of the move `u` in the position `e`.
pub open spec fn credit(epd: Seq<char>, uci: Seq<char>, code: int, e: Seq<char>, u: Seq<char>) -> Counts {
    if e == epd && u == uci {
        Counts::one(code)
    } else {
        Counts::zero()
    }
}

/// What the first `n` of `plies`, of a game with the result `result`, add to
/// the counters of the move `uci` in the position `epd`.
pub open spec fn tally(plies: Seq<Ply>, result: int, n: nat, epd: Seq<char>, uci: Seq<char>) -> Counts
    decreases n,
{
    if n == 0 {
        Counts::zero()
    } else {
        let ply = plies[n - 1];
        tally(plies, result, (n - 1) as nat, epd, uci).plus(
            credit(
                ply.epd_before,
                ply.uci,
                oriented(result, white_to_move(ply.epd_before)),
                epd,
                uci,
            ),
        )
    }
}

/// Recording a move in a position adds the move where it was not known,
/// forgets none, keeps the moves distinct where they were, and adds one game
/// to the counters of that move and to no others.
pub proof fn lemma_record_move(
    moves: Seq<MoveStats>,
    uci: Seq<char>,
    san: Seq<char>,
    code: int,
    u: Seq<char>,
)
    ensures
        move_keys(record_move(moves, uci, san, code)) == if move_keys(moves).contains(uci) {
            move_keys(moves)
        } else {
            move_keys(moves).push(uci)
        },
        move_keys(record_move(moves, uci, san, code)).contains(uci),
        move_keys(moves).contains(u) ==> move_keys(record_move(moves, uci, san, code)).contains(u),
        move_keys(moves).no_duplicates() ==> move_keys(
            record_move(moves, uci, san, code),
        ).no_duplicates(),
        counts_in(record_move(moves, uci, san, code), u) == counts_in(moves, u).plus(
            if u == uci {
                Counts::one(code)
            } else {
                Counts::zero()
            },
        ),
{
    let keys = move_keys(moves);
    let after = record_move(moves, uci, san, code);
    let keys_after = move_keys(after);
    if keys.contains(uci) {
        lemma_first_of_contained(keys, uci);
        let i = first_index(keys, uci);
        assert(keys_after =~= keys);
        if keys.contains(u) {
            lemma_first_of_contained(keys, u);
            let j = first_index(keys, u);
            if j != i {
                assert(after[j] == moves[j]);
            }
        }
    } else {
        let last = moves.len() as int;
        assert(keys_after =~= keys.push(uci));
        assert(first_at(keys_after, uci, last));
        lemma_first_found(keys_after, uci, last);
        if keys.contains(u) {
            lemma_first_of_contained(keys, u);
            let j = first_index(keys, u);
            assert(first_at(keys_after, u, j));
            lemma_first_found(keys_after, u, j);
            assert(after[j] == moves[j]);
        } else if u != uci {
            if keys_after.contains(u) {
                let j = choose|j: int| 0 <= j < keys_after.len() && keys_after[j] == u;
                assert(keys[j] == u);
            }
        }
    }
}

/// Books that hold the same entries know the same moves.
pub proof fn lemma_known_in_same(
    a: Seq<PositionStats>,
    b: Seq<PositionStats>,
    epd: Seq<char>,
    uci: Seq<char>,
)
    requires
        same_entries(a, b),
        known(a, epd, uci),
    ensures
        known(b, epd, uci),
{
    lemma_first_of_contained(position_keys(a), epd);
    let i = first_index(position_keys(a), epd);
    assert(move_keys(a[i].moves) == move_keys(b[i].moves));
}

/// Holding the same entries carries over from book to book.
pub proof fn lemma_same_entries_transitive(
    a: Seq<PositionStats>,
    b: Seq<PositionStats>,
    c: Seq<PositionStats>,
)
    requires
        same_entries(a, b),
        same_entries(b, c),
    ensures
        same_entries(a, c),
{
    assert forall|i: int| 0 <= i < a.len() implies move_keys(#[trigger] a[i].moves) == move_keys(
        c[i].moves,
    ) by {
        assert(move_keys(a[i].moves) == move_keys(b[i].moves));
        assert(move_keys(b[i].moves) == move_keys(c[i].moves));
    }
}

/// Recording a ply makes its move known, forgets nothing, adds no entry where
/// the move was known, keeps a book free of duplicates, and adds one game to
/// the counters of that move in that position and to no others.
pub proof fn lemma_record_ply(
    positions: Seq<PositionStats>,
    epd: Seq<char>,
    uci: Seq<char>,
    san: Seq<char>,
    code: int,
    e: Seq<char>,
    u: Seq<char>,
)
    ensures
        known(record_ply(positions, epd, uci, san, code), epd, uci),
        known(positions, e, u) ==> known(record_ply(positions, epd, uci, san, code), e, u),
        known(positions, epd, uci) ==> same_entries(
            positions,
            record_ply(positions, epd, uci, san, code),
        ),
        positions_wf(positions) ==> positions_wf(record_ply(positions, epd, uci, san, code)),
        counts_of(record_ply(positions, epd, uci, san, code), e, u) == counts_of(
            positions,
            e,
            u,
        ).plus(credit(epd, uci, code, e, u)),
{
    let keys = position_keys(positions);
    let after = record_ply(positions, epd, uci, san, code);
    let keys_after = position_keys(after);
    if keys.contains(epd) {
        lemma_first_of_contained(keys, epd);
        let i = first_index(keys, epd);
        lemma_record_move(positions[i].moves, uci, san, code, u);
        assert(keys_after =~= keys);
        if positions_wf(positions) {
            assert forall|k: int| 0 <= k < after.len() implies move_keys(
                (#[trigger] after[k]).moves,
            ).no_duplicates() by {
                if k != i {
                    assert(after[k] == positions[k]);
                } else {
                    assert(move_keys(positions[k].moves).no_duplicates());
                }
            }
        }
        if keys.contains(e) {
            lemma_first_of_contained(keys, e);
            let j = first_index(keys, e);
            if j != i {
                assert(after[j] == positions[j]);
            }
        }
        if known(positions, epd, uci) {
            assert forall|k: int| 0 <= k < positions.len() implies move_keys(
                #[trigger] positions[k].moves,
            ) == move_keys(after[k].moves) by {
                if k != i {
                    assert(after[k] == positions[k]);
                }
            }
        }
    } else {
        let last = positions.len() as int;
        let none = Seq::<MoveStats>::empty();
        assert(move_keys(none) =~= Seq::<Seq<char>>::empty());
        lemma_record_move(none, uci, san, code, u);
        assert(keys_after =~= keys.push(epd));
        assert(first_at(keys_after, epd, last));
        lemma_first_found(keys_after, epd, last);
        if positions_wf(positions) {
            assert forall|k: int| 0 <= k < after.len() implies move_keys(
                (#[trigger] after[k]).moves,
            ).no_duplicates() by {
                if k < last {
                    assert(after[k] == positions[k]);
                }
            }
        }
        if keys.contains(e) {
            lemma_first_of_contained(keys, e);
            let j = first_index(keys, e);
            assert(first_at(keys_after, e, j));
            lemma_first_found(keys_after, e, j);
            assert(after[j] == positions[j]);
        } else if e != epd {
            if keys_after.contains(e) {
                let j = choose|j: int| 0 <= j < keys_after.len() && keys_after[j] == e;
                assert(keys[j] == e);
            }
        }
    }
}

/// Recording plies makes each of their moves known, forgets nothing, adds no
/// entry where all of them were known, keeps a book free of duplicates, and
/// adds to each counter what the plies alone determine.
pub proof fn lemma_absorb_plies(
    positions: Seq<PositionStats>,
    plies: Seq<Ply>,
    result: int,
    n: nat,
    e: Seq<char>,
    u: Seq<char>,
)
    requires
        n <= plies.len(),
    ensures
        known(positions, e, u) ==> known(absorb_plies(positions, plies, result, n), e, u),
        forall|k: int|
            0 <= k < n ==> known(
                absorb_plies(positions, plies, result, n),
                (#[trigger] plies[k]).epd_before,
                plies[k].uci,
            ),
        (forall|k: int| 0 <= k < n ==> known(positions, (#[trigger] plies[k]).epd_before, plies[k].uci))
            ==> same_entries(positions, absorb_plies(positions, plies, result, n)),
        positions_wf(positions) ==> positions_wf(absorb_plies(positions, plies, result, n)),
        counts_of(absorb_plies(positions, plies, result, n), e, u) == counts_of(positions, e, u).plus(
            tally(plies, result, n, e, u),
        ),
    decreases n,
{
    if n == 0 {
        assert forall|i: int| 0 <= i < positions.len() implies move_keys(
            #[trigger] positions[i].moves,
        ) == move_keys(positions[i].moves) by {}
    } else {
        let m = (n - 1) as nat;
        let ply = plies[n - 1];
        let code = oriented(result, white_to_move(ply.epd_before));
        let mid = absorb_plies(positions, plies, result, m);
        let after = absorb_plies(positions, plies, result, n);
        lemma_absorb_plies(positions, plies, result, m, e, u);
        lemma_record_ply(mid, ply.epd_before, ply.uci, ply.san, code, e, u);
        assert forall|k: int| 0 <= k < n implies known(
            after,
            (#[trigger] plies[k]).epd_before,
            plies[k].uci,
        ) by {
            if k < m {
                lemma_record_ply(
                    mid,
                    ply.epd_before,
                    ply.uci,
                    ply.san,
                    code,
                    plies[k].epd_before,
                    plies[k].uci,
                );
            }
        }
        if forall|k: int| 0 <= k < n ==> known(positions, (#[trigger] plies[k]).epd_before, plies[k].uci) {
            assert(known(positions, plies[n - 1].epd_before, plies[n - 1].uci));
            lemma_known_in_same(positions, mid, ply.epd_before, ply.uci);
            lemma_same_entries_transitive(positions, mid, after);
        }
    }
}

/// A ply counts the result of its game as the side to move before it sees
/// it: a game that white won (`1-0`) is a win for a move made with white to
/// move and a loss for one made with black to move, a game that black won
/// (`0-1`) the other way round, and any other game a draw. Recording the ply
/// adds that one game to the counters of its move in its position.
pub proof fn lemma_result_seen_by_mover(positions: Seq<PositionStats>, ply: Ply, result: Seq<char>)
    ensures
        ({
            let white = white_to_move(ply.epd_before);
            let code = oriented(result_code(result), white);
            let after = record_ply(positions, ply.epd_before, ply.uci, ply.san, code);
            let seen = if result == "1-0"@ {
                if white {
                    Counts { win: 1, draw: 0, loss: 0 }
                } else {
                    Counts { win: 0, draw: 0, loss: 1 }
                }
            } else if result == "0-1"@ {
                if white {
                    Counts { win: 0, draw: 0, loss: 1 }
                } else {
                    Counts { win: 1, draw: 0, loss: 0 }
                }
            } else {
                Counts { win: 0, draw: 1, loss: 0 }
            };
            counts_of(after, ply.epd_before, ply.uci) == counts_of(
                positions,
                ply.epd_before,
                ply.uci,
            ).plus(seen)
        }),
{
    let code = oriented(result_code(result), white_to_move(ply.epd_before));
    lemma_record_ply(positions, ply.epd_before, ply.uci, ply.san, code, ply.epd_before, ply.uci);
}

/// Taking in a game adds to each counter what the plies taken in and the
/// result of the game determine, whatever the book held before, and keeps a
/// book free of duplicates.
pub proof fn lemma_absorb_adds(
    book: BookStats,
    headers: Map<Seq<char>, Seq<char>>,
    plies: Seq<Ply>,
    epd: Seq<char>,
    uci: Seq<char>,
)
    ensures
        positions_wf(book.positions) ==> positions_wf(absorb_game(book, headers, plies).positions),
        counts_of(absorb_game(book, headers, plies).positions, epd, uci) == counts_of(
            book.positions,
            epd,
            uci,
        ).plus(
            tally(plies, result_in(headers), cutoff(book.max_depth, plies.len()), epd, uci),
        ),
{
    lemma_absorb_plies(
        book.positions,
        plies,
        result_in(headers),
        cutoff(book.max_depth, plies.len()),
        epd,
        uci,
    );
}

/// A game taken in a second time adds no position and no move to the book,
/// and adds to every counter what it added the first time. A counter that
/// stood at zero before the first time is then twice what it was after the
/// first time.
pub proof fn lemma_absorb_twice(
    book: BookStats,
    headers: Map<Seq<char>, Seq<char>>,
    plies: Seq<Ply>,
    epd: Seq<char>,
    uci: Seq<char>,
)
    ensures
        ({
            let once = absorb_game(book, headers, plies);
            let twice = absorb_game(once, headers, plies);
            &&& same_entries(once.positions, twice.positions)
            &&& counts_of(twice.positions, epd, uci).plus(counts_of(book.positions, epd, uci))
                == counts_of(once.positions, epd, uci).doubled()
            &&& counts_of(book.positions, epd, uci) == Counts::zero() ==> counts_of(
                twice.positions,
                epd,
                uci,
            ) == counts_of(once.positions, epd, uci).doubled()
        }),
{
    let result = result_in(headers);
    let n = cutoff(book.max_depth, plies.len());
    let once = absorb_game(book, headers, plies);
    lemma_absorb_plies(book.positions, plies, result, n, epd, uci);
    lemma_absorb_plies(once.positions, plies, result, n, epd, uci);
}

/// Two games taken in give the same counters in either order.
pub proof fn lemma_absorb_commutes(
    book: BookStats,
    first_headers: Map<Seq<char>, Seq<char>>,
    first_plies: Seq<Ply>,
    second_headers: Map<Seq<char>, Seq<char>>,
    second_plies: Seq<Ply>,
    epd: Seq<char>,
    uci: Seq<char>,
)
    ensures
        counts_of(
            absorb_game(
                absorb_game(book, first_headers, first_plies),
                second_headers,
                second_plies,
            ).positions,
            epd,
            uci,
        ) == counts_of(
            absorb_game(
                absorb_game(book, second_headers, second_plies),
                first_headers,
                first_plies,
            ).positions,
            epd,
            uci,
        ),
{
    lemma_absorb_adds(book, first_headers, first_plies, epd, uci);
    lemma_absorb_adds(book, second_headers, second_plies, epd, uci);
    lemma_absorb_adds(
        absorb_game(book, first_headers, first_plies),
        second_headers,
        second_plies,
        epd,
        uci,
    );
    lemma_absorb_adds(
        absorb_game(book, second_headers, second_plies),
        first_headers,
        first_plies,
        epd,
        uci,
    );
}

} // verus!
