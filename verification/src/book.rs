//! The opening book: the positions met in the games taken in, each with the
//! moves played there.

use crate::keyed::{first_at, first_index, lemma_first_found};
use crate::outcome::{orient, oriented, result_in, result_of, white_to_move};
use crate::position::{move_keys, record_move, BookPosition, MoveStats, PositionStats};
use crate::record::{header_keys, header_or_mark, GameRecord, PgnInfo, Ply, SanUciFenEpd};
use crate::text::{parse_usize, parsed_usize, str_eq};
use vstd::prelude::*;
use vstd::string::StringExecFns;

verus! {

/// The position-only encodings of a list of positions.
pub open spec fn position_keys(positions: Seq<PositionStats>) -> Seq<Seq<char>> {
    positions.map_values(|p: PositionStats| p.epd)
}

/// The positions of a book after one more game played `uci` in the position
/// `epd`: the move is recorded in the first position with that encoding, or
/// in a new position at the end of the list where the book has none.
pub open spec fn record_ply(
    positions: Seq<PositionStats>,
    epd: Seq<char>,
    uci: Seq<char>,
    san: Seq<char>,
    code: int,
) -> Seq<PositionStats> {
    let keys = position_keys(positions);
    if keys.contains(epd) {
        let i = first_index(keys, epd);
        positions.update(
            i,
            PositionStats { epd: positions[i].epd, moves: record_move(positions[i].moves, uci, san, code) },
        )
    } else {
        positions.push(
            PositionStats { epd, moves: record_move(Seq::<MoveStats>::empty(), uci, san, code) },
        )
    }
}

/// The positions of a book after the first `n` of `plies` were recorded, each
/// with the game result `result` as the side to move before it sees it.
pub open spec fn absorb_plies(
    positions: Seq<PositionStats>,
    plies: Seq<Ply>,
    result: int,
    n: nat,
) -> Seq<PositionStats>
    decreases n,
{
    if n == 0 {
        positions
    } else {
        let ply = plies[n - 1];
        record_ply(
            absorb_plies(positions, plies, result, (n - 1) as nat),
            ply.epd_before,
            ply.uci,
            ply.san,
            oriented(result, white_to_move(ply.epd_before)),
        )
    }
}

/// The number of plies of a game that a book of depth `max_depth` takes in.
pub open spec fn cutoff(max_depth: nat, plies: nat) -> nat {
    if plies < max_depth {
        plies
    } else {
        max_depth
    }
}

/// No position occurs twice, and in no position a move occurs twice.
pub open spec fn positions_wf(positions: Seq<PositionStats>) -> bool {
    &&& position_keys(positions).no_duplicates()
    &&& forall|i: int|
        0 <= i < positions.len() ==> move_keys((#[trigger] positions[i]).moves).no_duplicates()
}

/// The counters of every position leave room for `n` more games, and a
/// position that `n` games make has room for them.
pub open spec fn room_in(positions: Seq<PositionStats>, n: nat) -> bool {
    &&& n <= usize::MAX
    &&& forall|i: int| 0 <= i < positions.len() ==> (#[trigger] positions[i]).has_room(n)
}

/// The views of a list of positions.
pub open spec fn positions_of(positions: Seq<BookPosition>) -> Seq<PositionStats> {
    positions.map_values(|p: BookPosition| p@)
}

/// The mathematical content of a [`Book`].
pub struct BookStats {
    pub positions: Seq<PositionStats>,
    pub max_depth: nat,
    pub me: Option<Seq<char>>,
}

/// The book after a game with the headers `headers` and the plies `plies`
/// was taken in: its first plies, up to the depth of the book, are recorded
/// with the result that the `Result` header gives.
pub open spec fn absorb_game(
    book: BookStats,
    headers: Map<Seq<char>, Seq<char>>,
    plies: Seq<Ply>,
) -> BookStats {
    BookStats {
        positions: absorb_plies(
            book.positions,
            plies,
            result_in(headers),
            cutoff(book.max_depth, plies.len()),
        ),
        max_depth: book.max_depth,
        me: book.me,
    }
}

/// The views of a list of games.
pub open spec fn records_of(games: Seq<PgnInfo>) -> Seq<GameRecord> {
    games.map_values(|g: PgnInfo| g@)
}

/// The book after the first `n` of `games` were taken in, one after another.
pub open spec fn absorb_games(book: BookStats, games: Seq<GameRecord>, n: nat) -> BookStats
    decreases n,
{
    if n == 0 {
        book
    } else {
        let game = games[n - 1];
        absorb_game(absorb_games(book, games, (n - 1) as nat), game.headers, game.moves)
    }
}

/// The plies of the first `n` of `games` together.
pub open spec fn moves_among(games: Seq<GameRecord>, n: nat) -> nat
    decreases n,
{
    if n == 0 {
        0
    } else {
        moves_among(games, (n - 1) as nat) + games[n - 1].moves.len()
    }
}

/// The plies that a book of depth `max_depth` takes in of the first `n` of
/// `games`.
pub open spec fn taken_among(games: Seq<GameRecord>, max_depth: nat, n: nat) -> nat
    decreases n,
{
    if n == 0 {
        0
    } else {
        taken_among(games, max_depth, (n - 1) as nat) + cutoff(max_depth, games[n - 1].moves.len())
    }
}

/// How many of the first `n` of `games` have `name` as the value of their
/// header `key`, a missing header counting as `?`.
pub open spec fn named_among(games: Seq<GameRecord>, key: Seq<char>, name: Seq<char>, n: nat) -> nat
    decreases n,
{
    if n == 0 {
        0
    } else {
        named_among(games, key, name, (n - 1) as nat) + if header_or_mark(
            games[n - 1].headers,
            key,
        ) == name {
            1nat
        } else {
            0nat
        }
    }
}

/// What a book of depth `max_depth` takes in never decreases with the games.
pub proof fn lemma_taken_monotone(games: Seq<GameRecord>, max_depth: nat, i: nat, j: nat)
    requires
        i <= j,
    ensures
        taken_among(games, max_depth, i) <= taken_among(games, max_depth, j),
    decreases j - i,
{
    if i < j {
        lemma_taken_monotone(games, max_depth, i, (j - 1) as nat);
    }
}

/// The plies of the games never decrease with the games.
pub proof fn lemma_moves_monotone(games: Seq<GameRecord>, i: nat, j: nat)
    requires
        i <= j,
    ensures
        moves_among(games, i) <= moves_among(games, j),
    decreases j - i,
{
    if i < j {
        lemma_moves_monotone(games, i, (j - 1) as nat);
    }
}

/// Taking in games changes neither the depth of a book nor its player.
pub proof fn lemma_absorb_games_frame(book: BookStats, games: Seq<GameRecord>, n: nat)
    ensures
        absorb_games(book, games, n).max_depth == book.max_depth,
        absorb_games(book, games, n).me == book.me,
    decreases n,
{
    if n > 0 {
        lemma_absorb_games_frame(book, games, (n - 1) as nat);
    }
}

/// Room for more games is room for fewer.
pub proof fn lemma_room_for_fewer(positions: Seq<PositionStats>, m: nat, n: nat)
    requires
        room_in(positions, m),
        n <= m,
    ensures
        room_in(positions, n),
{
    assert forall|i: int| 0 <= i < positions.len() implies (#[trigger] positions[i]).has_room(n) by {
        assert(positions[i].has_room(m));
    }
}

/// What taking in a list of games counted.
#[derive(Debug, Clone, Copy, PartialEq, Eq, Structural)]
pub struct ParseStats {
    /// The games.
    pub games: usize,
    /// The plies of all games.
    pub moves: usize,
    /// The plies taken in.
    pub parsed_moves: usize,
    /// The games in which the player of the book had white.
    pub me_white: usize,
    /// The games in which the player of the book had black.
    pub me_black: usize,
}

/// The opening book.
#[derive(Debug, Clone)]
pub struct Book {
    /// The positions, in the order in which they were first seen; a position
    /// is looked up from the front.
    pub positions: Vec<BookPosition>,
    /// The number of plies of each game that are taken in.
    pub max_depth: usize,
    /// The player whose games are counted by colour, if any.
    pub me: Option<String>,
}

impl View for Book {
    type V = BookStats;

    open spec fn view(&self) -> BookStats {
        BookStats {
            positions: positions_of(self.positions@),
            max_depth: self.max_depth as nat,
            me: match self.me {
                Some(name) => Some(name@),
                None => None,
            },
        }
    }
}

impl Book {
    /// No position and no move of a position occurs twice.
    pub open spec fn wf(&self) -> bool {
        positions_wf(self@.positions)
    }

    /// The counters of the book leave room for `n` more plies.
    pub open spec fn has_room(&self, n: nat) -> bool {
        room_in(self@.positions, n)
    }

    /// An empty book of depth 20.
    pub fn new() -> (r: Book)
        ensures
            r.wf(),
            r@.positions == Seq::<PositionStats>::empty(),
            r@.max_depth == 20,
            r@.me is None,
    {
        let r = Book { positions: Vec::new(), max_depth: 20, me: None };
        assert(r@.positions =~= Seq::<PositionStats>::empty());
        assert(position_keys(r@.positions) =~= Seq::<Seq<char>>::empty());
        r
    }

    /// The book with `me` as the player whose games are counted by colour.
    pub fn me(self, me: &str) -> (r: Book)
        ensures
            r@.me == Some(me@),
            r.positions == self.positions,
            r.max_depth == self.max_depth,
    {
        let mut r = self;
        r.me = Some(String::from_str(me));
        r
    }

    /// The book with the depth that `max_depth` denotes as a decimal numeral;
    /// the book unchanged where it denotes none.
    pub fn max_depth(self, max_depth: &str) -> (r: Book)
        ensures
            r.max_depth == match parsed_usize(max_depth@) {
                Some(depth) => depth,
                None => self.max_depth,
            },
            r.positions == self.positions,
            r.me == self.me,
    {
        let mut r = self;
        match parse_usize(max_depth) {
            Some(depth) => {
                r.max_depth = depth;
            },
            None => {},
        }
        r
    }

    /// The place of the first position with the encoding `epd`, if the book
    /// has one.
    pub fn find_position(&self, epd: &str) -> (r: Option<usize>)
        ensures
            match r {
                Some(i) => first_at(position_keys(self@.positions), epd@, i as int),
                None => !position_keys(self@.positions).contains(epd@),
            },
    {
        let n = self.positions.len();
        let mut i: usize = 0;
        while i < n
            invariant
                n == self.positions@.len(),
                i <= n,
                forall|j: int| 0 <= j < i ==> position_keys(self@.positions)[j] != epd@,
            decreases n - i,
        {
            if str_eq(self.positions[i].epd.as_str(), epd) {
                return Some(i);
            }
            i += 1;
        }
        None
    }

    /// The first position with the encoding `epd`, if the book has one.
    pub fn get(&self, epd: &str) -> (r: Option<&BookPosition>)
        ensures
            match r {
                Some(p) => {
                    &&& position_keys(self@.positions).contains(epd@)
                    &&& *p == self.positions@[first_index(position_keys(self@.positions), epd@)]
                    &&& self.wf() ==> p.wf()
                    &&& self.has_room(0) ==> p.plays_countable()
                },
                None => !position_keys(self@.positions).contains(epd@),
            },
    {
        match self.find_position(epd) {
            Some(i) => {
                proof {
                    lemma_first_found(position_keys(self@.positions), epd@, i as int);
                    assert(self@.positions[i as int] == self.positions@[i as int]@);
                }
                Some(&self.positions[i])
            },
            None => None,
        }
    }

    /// Records one ply with the result code `code`.
    fn record(&mut self, ply: &SanUciFenEpd, code: u8)
        requires
            old(self).has_room(1),
        ensures
            final(self)@.positions == record_ply(
                old(self)@.positions,
                ply@.epd_before,
                ply@.uci,
                ply@.san,
                code as int,
            ),
            final(self).max_depth == old(self).max_depth,
            final(self).me == old(self).me,
            old(self).wf() ==> final(self).wf(),
            forall|m: nat| old(self).has_room(m + 1) ==> #[trigger] final(self).has_room(m),
    {
        let ghost before = self@.positions;
        let found = self.find_position(ply.epd_before.as_str());
        match found {
            Some(i) => {
                proof {
                    lemma_first_found(position_keys(before), ply@.epd_before, i as int);
                    assert(before[i as int] == self.positions@[i as int]@);
                    assert(before[i as int].has_room(1));
                }
                let p = &mut self.positions[i];
                p.record(ply.uci.as_str(), ply.san.as_str(), code);
                proof {
                    let after = self@.positions;
                    let entry = PositionStats {
                        epd: before[i as int].epd,
                        moves: record_move(before[i as int].moves, ply@.uci, ply@.san, code as int),
                    };
                    assert(after =~= before.update(i as int, entry));
                    assert(position_keys(after) =~= position_keys(before));
                    if positions_wf(before) {
                        assert forall|k: int| 0 <= k < after.len() implies move_keys(
                            (#[trigger] after[k]).moves,
                        ).no_duplicates() by {
                            if k != i {
                                assert(after[k] == before[k]);
                            } else {
                                assert(move_keys(before[k].moves).no_duplicates());
                            }
                        }
                    }
                    assert forall|m: nat| room_in(before, m + 1) implies #[trigger] room_in(
                        after,
                        m,
                    ) by {
                        assert forall|k: int| 0 <= k < after.len() implies (
                        #[trigger] after[k]).has_room(m) by {
                            assert(before[k].has_room(m + 1));
                            if k != i {
                                assert(after[k] == before[k]);
                            }
                        }
                    }
                }
            },
            None => {
                let mut p = BookPosition::new(ply.epd_before.as_str());
                p.record(ply.uci.as_str(), ply.san.as_str(), code);
                self.positions.push(p);
                proof {
                    let after = self@.positions;
                    let entry = PositionStats {
                        epd: ply@.epd_before,
                        moves: record_move(
                            Seq::<MoveStats>::empty(),
                            ply@.uci,
                            ply@.san,
                            code as int,
                        ),
                    };
                    assert(after =~= before.push(entry));
                    assert(position_keys(after) =~= position_keys(before).push(ply@.epd_before));
                    if positions_wf(before) {
                        assert forall|k: int| 0 <= k < after.len() implies move_keys(
                            (#[trigger] after[k]).moves,
                        ).no_duplicates() by {
                            if k < before.len() {
                                assert(after[k] == before[k]);
                            }
                        }
                    }
                    assert forall|m: nat| room_in(before, m + 1) implies #[trigger] room_in(
                        after,
                        m,
                    ) by {
                        assert forall|k: int| 0 <= k < after.len() implies (
                        #[trigger] after[k]).has_room(m) by {
                            if k < before.len() {
                                assert(before[k].has_room(m + 1));
                                assert(after[k] == before[k]);
                            }
                        }
                    }
                }
            },
        }
    }

    /// Takes in one game: its first plies, up to the depth of the book, each
    /// with the result of the game as the side to move before it sees it.
    pub fn absorb(&mut self, game: &PgnInfo)
        requires
            old(self).has_room(cutoff(old(self).max_depth as nat, game.moves@.len())),
        ensures
            final(self)@ == absorb_game(old(self)@, game@.headers, game@.moves),
            old(self).wf() ==> final(self).wf(),
            forall|m: nat|
                old(self).has_room(m + cutoff(old(self).max_depth as nat, game.moves@.len()))
                    ==> #[trigger] final(self).has_room(m),
    {
        let result: u8 = match game.find_header("Result") {
            Some(i) => {
                proof {
                    lemma_first_found(header_keys(game.headers@), "Result"@, i as int);
                }
                result_of(game.headers[i].value.as_str())
            },
            None => 1,
        };
        let n = if game.moves.len() < self.max_depth {
            game.moves.len()
        } else {
            self.max_depth
        };
        let ghost start = self@;
        let mut i: usize = 0;
        while i < n
            invariant
                i <= n,
                n <= game.moves@.len(),
                result <= 2,
                start == old(self)@,
                old(self).wf() ==> self.wf(),
                forall|m: nat| room_in(start.positions, m + i as nat) ==> #[trigger] self.has_room(m),
                room_in(start.positions, n as nat),
                self.max_depth == start.max_depth,
                self@.me == start.me,
                self@.positions == absorb_plies(start.positions, game@.moves, result as int, i as nat),
            decreases n - i,
        {
            let ply = &game.moves[i];
            let code = orient(result, ply.epd_before.as_str());
            assert(game@.moves[i as int] == ply@);
            let ghost mid = *self;
            proof {
                lemma_room_for_fewer(start.positions, n as nat, 1 + i as nat);
                assert(mid.has_room(1));
            }
            self.record(ply, code);
            proof {
                assert forall|m: nat|
                    room_in(start.positions, m + (i + 1) as nat) implies #[trigger] self.has_room(
                    m,
                ) by {
                    assert(room_in(start.positions, (m + 1) + i as nat));
                    assert(mid.has_room(m + 1));
                }
            }
            i += 1;
        }
    }

    /// Whether the counters of the book leave room for `n` more plies.
    pub fn fits(&self, n: usize) -> (r: bool)
        ensures
            r == self.has_room(n as nat),
    {
        let k = self.positions.len();
        let mut i: usize = 0;
        while i < k
            invariant
                k == self.positions@.len(),
                i <= k,
                forall|j: int| 0 <= j < i ==> (#[trigger] self@.positions[j]).has_room(n as nat),
            decreases k - i,
        {
            assert(self@.positions[i as int] == self.positions@[i as int]@);
            if !self.positions[i].fits(n) {
                return false;
            }
            i += 1;
        }
        true
    }

    /// Whether `parse` can take in `games`: the book has room for the plies
    /// it takes in of them, and the plies of all games together can be
    /// counted in a `usize`.
    pub fn accepts(&self, games: &Vec<PgnInfo>) -> (r: bool)
        ensures
            r == (self.has_room(
                taken_among(records_of(games@), self.max_depth as nat, games@.len()),
            ) && moves_among(records_of(games@), games@.len()) <= usize::MAX),
    {
        let ghost records = records_of(games@);
        let n = games.len();
        let mut taken: usize = 0;
        let mut moves: usize = 0;
        let mut i: usize = 0;
        while i < n
            invariant
                n == games@.len(),
                i <= n,
                records == records_of(games@),
                taken == taken_among(records, self.max_depth as nat, i as nat),
                moves == moves_among(records, i as nat),
            decreases n - i,
        {
            let game = &games[i];
            proof {
                assert(records[i as int] == game@);
                lemma_taken_monotone(records, self.max_depth as nat, (i + 1) as nat, n as nat);
                lemma_moves_monotone(records, (i + 1) as nat, n as nat);
            }
            let len = game.moves.len();
            let part = if len < self.max_depth {
                len
            } else {
                self.max_depth
            };
            match (taken.checked_add(part), moves.checked_add(len)) {
                (Some(t), Some(m)) => {
                    taken = t;
                    moves = m;
                },
                _ => {
                    return false;
                },
            }
            i += 1;
        }
        self.fits(taken)
    }

    /// Takes in `games`, one after another, and counts them: the games, their
    /// plies, the plies taken in and, where the book has a player, the games
    /// in which that player had white and black.
    pub fn parse(&mut self, games: &Vec<PgnInfo>) -> (stats: ParseStats)
        requires
            old(self).has_room(
                taken_among(records_of(games@), old(self).max_depth as nat, games@.len()),
            ),
            moves_among(records_of(games@), games@.len()) <= usize::MAX,
        ensures
            final(self)@ == absorb_games(old(self)@, records_of(games@), games@.len()),
            old(self).wf() ==> final(self).wf(),
            forall|m: nat|
                old(self).has_room(
                    m + taken_among(records_of(games@), old(self).max_depth as nat, games@.len()),
                ) ==> #[trigger] final(self).has_room(m),
            stats.games == games@.len(),
            stats.moves == moves_among(records_of(games@), games@.len()),
            stats.parsed_moves == taken_among(
                records_of(games@),
                old(self).max_depth as nat,
                games@.len(),
            ),
            stats.me_white == match old(self)@.me {
                Some(me) => named_among(records_of(games@), "White"@, me, games@.len()),
                None => 0,
            },
            stats.me_black == match old(self)@.me {
                Some(me) => named_among(records_of(games@), "Black"@, me, games@.len()),
                None => 0,
            },
    {
        let ghost start = self@;
        let ghost records = records_of(games@);
        let ghost all = taken_among(records, start.max_depth, games@.len());
        let n = games.len();
        let mut stats = ParseStats { games: 0, moves: 0, parsed_moves: 0, me_white: 0, me_black: 0 };
        let mut i: usize = 0;
        while i < n
            invariant
                n == games@.len(),
                i <= n,
                records == records_of(games@),
                start == old(self)@,
                all == taken_among(records, start.max_depth, n as nat),
                old(self).wf() ==> self.wf(),
                self@ == absorb_games(start, records, i as nat),
                self.max_depth == start.max_depth,
                forall|m: nat|
                    room_in(start.positions, m + taken_among(records, start.max_depth, i as nat))
                        ==> #[trigger] self.has_room(m),
                room_in(start.positions, all),
                moves_among(records, n as nat) <= usize::MAX,
                stats.games == i,
                stats.moves == moves_among(records, i as nat),
                stats.parsed_moves == taken_among(records, start.max_depth, i as nat),
                stats.me_white <= i,
                stats.me_black <= i,
                stats.me_white == match start.me {
                    Some(me) => named_among(records, "White"@, me, i as nat),
                    None => 0,
                },
                stats.me_black == match start.me {
                    Some(me) => named_among(records, "Black"@, me, i as nat),
                    None => 0,
                },
            decreases n - i,
        {
            let game = &games[i];
            let ghost before = taken_among(records, start.max_depth, i as nat);
            let ghost part = cutoff(start.max_depth, game@.moves.len());
            proof {
                assert(records[i as int] == game@);
                lemma_absorb_games_frame(start, records, i as nat);
                lemma_taken_monotone(records, start.max_depth, (i + 1) as nat, n as nat);
                lemma_taken_monotone(records, start.max_depth, i as nat, n as nat);
                lemma_moves_monotone(records, (i + 1) as nat, n as nat);
                lemma_room_for_fewer(start.positions, all, part + before);
                assert(self.has_room(part));
            }
            let ghost mid = *self;
            match &self.me {
                Some(me) => {
                    if game.header_is("White", me.as_str()) {
                        stats.me_white = stats.me_white + 1;
                    }
                    if game.header_is("Black", me.as_str()) {
                        stats.me_black = stats.me_black + 1;
                    }
                },
                None => {},
            }
            let len = game.moves.len();
            let taken = if len < self.max_depth {
                len
            } else {
                self.max_depth
            };
            stats.games = stats.games + 1;
            stats.moves = stats.moves + len;
            stats.parsed_moves = stats.parsed_moves + taken;
            self.absorb(game);
            proof {
                assert forall|m: nat|
                    room_in(
                        start.positions,
                        m + taken_among(records, start.max_depth, (i + 1) as nat),
                    ) implies #[trigger] self.has_room(m) by {
                    assert(room_in(start.positions, (m + part) + before));
                    assert(mid.has_room(m + part));
                }
            }
            i += 1;
        }
        stats
    }
}

} // verus!
