//! Game segmentation: from the lines of a text with many games to the text of
//! each game, by a machine of four states that blank lines and the opening
//! bracket of a header drive.

use crate::text::text_of;
use vstd::prelude::*;
use vstd::string::{StrSliceExecFns, StringExecFns};

verus! {

/// Where the machine stands within a game.
#[derive(Debug, Clone, Copy, PartialEq, Eq, Structural)]
pub enum PgnReadingState {
    /// Before the first header line.
    WaitHead,
    /// Within the header lines.
    ReadHead,
    /// Between the header lines and the move text.
    WaitBody,
    /// Within the move text.
    ReadBody,
}

/// What one line does to the machine.
pub enum Step {
    /// The game goes on, in this state and with this text gathered.
    More(PgnReadingState, Seq<char>),
    /// The game is complete: this is its text.
    Game(Seq<char>),
    /// The line cannot start a game: there is no game.
    Stop,
}

/// A line with its line end.
pub open spec fn terminated(line: Seq<char>) -> Seq<char> {
    line + seq!['\n']
}

/// What the line `line` does in the state `state` with the text `accum`
/// gathered.
///
/// A blank line is passed over before the headers, closes the header lines,
/// is kept as a line end between the headers and the move text, and completes
/// the game within the move text. Any other line is added with its line end:
/// the first must open with `[` to start a game, and the first one after the
/// headers starts the move text.
pub open spec fn step(state: PgnReadingState, accum: Seq<char>, line: Seq<char>) -> Step {
    if line.len() == 0 {
        match state {
            PgnReadingState::WaitHead => Step::More(PgnReadingState::WaitHead, accum),
            PgnReadingState::ReadHead => Step::More(PgnReadingState::WaitBody, accum),
            PgnReadingState::WaitBody => Step::More(PgnReadingState::WaitBody, terminated(accum)),
            PgnReadingState::ReadBody => Step::Game(accum),
        }
    } else {
        match state {
            PgnReadingState::WaitHead => if line[0] == '[' {
                Step::More(PgnReadingState::ReadHead, terminated(line))
            } else {
                Step::Stop
            },
            PgnReadingState::ReadHead => Step::More(
                PgnReadingState::ReadHead,
                accum + terminated(line),
            ),
            PgnReadingState::WaitBody | PgnReadingState::ReadBody => Step::More(
                PgnReadingState::ReadBody,
                accum + terminated(line),
            ),
        }
    }
}

/// What the end of the lines does in the state `state` with the text `accum`
/// gathered: within the move text it completes the game, elsewhere there is
/// none.
pub open spec fn at_end(state: PgnReadingState, accum: Seq<char>) -> Option<Seq<char>> {
    if state == PgnReadingState::ReadBody {
        Some(accum)
    } else {
        None
    }
}

/// The game that the machine finds in `lines` from line `at` on, when it is
/// in the state `state` with the text `accum` gathered, and the line at
/// which the search for the next game starts.
pub open spec fn scan(lines: Seq<Seq<char>>, at: int, state: PgnReadingState, accum: Seq<char>) -> (
    Option<Seq<char>>,
    int,
)
    decreases lines.len() - at,
{
    if at < 0 || at >= lines.len() {
        (at_end(state, accum), at)
    } else {
        match step(state, accum, lines[at]) {
            Step::More(next, gathered) => scan(lines, at + 1, next, gathered),
            Step::Game(text) => (Some(text), at + 1),
            Step::Stop => (None, at + 1),
        }
    }
}

/// The next game in `lines` from line `at` on, and the line at which the
/// search for the one after it starts.
pub open spec fn next_game(lines: Seq<Seq<char>>, at: int) -> (Option<Seq<char>>, int) {
    scan(lines, at, PgnReadingState::WaitHead, Seq::<char>::empty())
}

/// A game is found behind the line at which the search started, and within
/// the lines.
pub proof fn lemma_scan_advances(
    lines: Seq<Seq<char>>,
    at: int,
    state: PgnReadingState,
    accum: Seq<char>,
)
    requires
        0 <= at,
    ensures
        at <= scan(lines, at, state, accum).1,
        at < lines.len() ==> at < scan(lines, at, state, accum).1 <= lines.len(),
    decreases lines.len() - at,
{
    if at < lines.len() {
        match step(state, accum, lines[at]) {
            Step::More(next, gathered) => {
                lemma_scan_advances(lines, at + 1, next, gathered);
            },
            _ => {},
        }
    }
}

/// The games found in `lines` from line `at` on, one after another, up to
/// the first place at which none is found, and the line behind that place.
pub open spec fn games_from(lines: Seq<Seq<char>>, at: int) -> (Seq<Seq<char>>, int)
    decreases lines.len() - at,
{
    if at < 0 || at >= lines.len() {
        (Seq::<Seq<char>>::empty(), at)
    } else {
        match next_game(lines, at) {
            (Some(game), next) => {
                proof {
                    lemma_scan_advances(lines, at, PgnReadingState::WaitHead, Seq::<char>::empty());
                }
                (seq![game] + games_from(lines, next).0, games_from(lines, next).1)
            },
            (None, next) => (Seq::<Seq<char>>::empty(), next),
        }
    }
}

/// The characters of each of a list of lines.
pub open spec fn lines_of(lines: Seq<String>) -> Seq<Seq<char>> {
    lines.map_values(|line: String| line@)
}

/// The lines from `from` up to, and without, `to`, each with its line end.
pub open spec fn joined(lines: Seq<Seq<char>>, from: int, to: int) -> Seq<char>
    decreases to - from,
{
    if from >= to {
        Seq::<char>::empty()
    } else {
        terminated(lines[from]) + joined(lines, from + 1, to)
    }
}

/// None of the lines from `from` up to, and without, `to` is blank.
pub open spec fn filled(lines: Seq<Seq<char>>, from: int, to: int) -> bool {
    forall|k: int| from <= k < to ==> (#[trigger] lines[k]).len() > 0
}

/// The lines from `at` on start with a game in its usual form: header lines
/// up to `head_end`, the first of which opens with `[`; a blank line; lines
/// of move text up to `body_end`; and there a blank line or the end of the
/// lines.
pub open spec fn block_at(lines: Seq<Seq<char>>, at: int, head_end: int, body_end: int) -> bool {
    &&& 0 <= at < head_end
    &&& head_end + 1 < body_end <= lines.len()
    &&& lines[at][0] == '['
    &&& filled(lines, at, head_end)
    &&& lines[head_end].len() == 0
    &&& filled(lines, head_end + 1, body_end)
    &&& body_end < lines.len() ==> lines[body_end].len() == 0
}

/// The text of the game in its usual form: its header lines, then its lines
/// of move text, each as it stands and with its line end.
pub open spec fn block_text(lines: Seq<Seq<char>>, at: int, head_end: int, body_end: int) -> Seq<
    char,
> {
    joined(lines, at, head_end) + joined(lines, head_end + 1, body_end)
}

/// Within the header lines and within the move text, lines that are not
/// blank are gathered one after another.
pub proof fn lemma_scan_filled(
    lines: Seq<Seq<char>>,
    from: int,
    to: int,
    state: PgnReadingState,
    accum: Seq<char>,
)
    requires
        0 <= from <= to <= lines.len(),
        filled(lines, from, to),
        state == PgnReadingState::ReadHead || state == PgnReadingState::ReadBody,
    ensures
        scan(lines, from, state, accum) == scan(lines, to, state, accum + joined(lines, from, to)),
    decreases to - from,
{
    if from < to {
        let next = accum + terminated(lines[from]);
        assert(lines[from].len() > 0);
        assert(scan(lines, from, state, accum) == scan(lines, from + 1, state, next));
        lemma_scan_filled(lines, from + 1, to, state, next);
        assert(next + joined(lines, from + 1, to) =~= accum + joined(lines, from, to));
    } else {
        assert(accum + joined(lines, from, to) =~= accum);
    }
}

/// A game in its usual form is found whole: the next game is its text, and
/// the search goes on behind the blank line that ends it.
pub proof fn lemma_block_found(lines: Seq<Seq<char>>, at: int, head_end: int, body_end: int)
    requires
        block_at(lines, at, head_end, body_end),
    ensures
        next_game(lines, at) == (
            Some(block_text(lines, at, head_end, body_end)),
            if body_end < lines.len() {
                body_end + 1
            } else {
                body_end
            },
        ),
{
    let head = joined(lines, at, head_end);
    let text = block_text(lines, at, head_end, body_end);
    let opening = terminated(lines[at]);
    assert(lines[at].len() > 0);
    assert(next_game(lines, at) == scan(lines, at + 1, PgnReadingState::ReadHead, opening));
    lemma_scan_filled(lines, at + 1, head_end, PgnReadingState::ReadHead, opening);
    assert(opening + joined(lines, at + 1, head_end) =~= head);
    assert(scan(lines, head_end, PgnReadingState::ReadHead, head) == scan(
        lines,
        head_end + 1,
        PgnReadingState::WaitBody,
        head,
    ));
    let first = head + terminated(lines[head_end + 1]);
    assert(lines[head_end + 1].len() > 0);
    assert(scan(lines, head_end + 1, PgnReadingState::WaitBody, head) == scan(
        lines,
        head_end + 2,
        PgnReadingState::ReadBody,
        first,
    ));
    lemma_scan_filled(lines, head_end + 2, body_end, PgnReadingState::ReadBody, first);
    assert(first + joined(lines, head_end + 2, body_end) =~= text);
}

/// Two games in their usual form with one blank line between them, and
/// nothing but blank lines behind them, are found as two games: the text of
/// the one, then the text of the other, and no more.
pub proof fn lemma_two_blocks_found(
    lines: Seq<Seq<char>>,
    first_head_end: int,
    first_body_end: int,
    second_head_end: int,
    second_body_end: int,
)
    requires
        block_at(lines, 0, first_head_end, first_body_end),
        first_body_end < lines.len(),
        block_at(lines, first_body_end + 1, second_head_end, second_body_end),
        forall|k: int| second_body_end <= k < lines.len() ==> (#[trigger] lines[k]).len() == 0,
    ensures
        games_from(lines, 0) == (
            seq![
                block_text(lines, 0, first_head_end, first_body_end),
                block_text(lines, first_body_end + 1, second_head_end, second_body_end),
            ],
            lines.len() as int,
        ),
{
    let second = first_body_end + 1;
    let rest = if second_body_end < lines.len() {
        second_body_end + 1
    } else {
        second_body_end
    };
    lemma_block_found(lines, 0, first_head_end, first_body_end);
    lemma_block_found(lines, second, second_head_end, second_body_end);
    lemma_blank_tail(lines, rest);
    assert(games_from(lines, rest) == (Seq::<Seq<char>>::empty(), lines.len() as int));
    assert(games_from(lines, second).0 =~= seq![
        block_text(lines, second, second_head_end, second_body_end),
    ]);
    assert(games_from(lines, 0).0 =~= seq![
        block_text(lines, 0, first_head_end, first_body_end),
        block_text(lines, second, second_head_end, second_body_end),
    ]);
}

/// Where only blank lines are left, no game is found.
pub proof fn lemma_blank_tail(lines: Seq<Seq<char>>, at: int)
    requires
        0 <= at <= lines.len(),
        forall|k: int| at <= k < lines.len() ==> (#[trigger] lines[k]).len() == 0,
    ensures
        next_game(lines, at) == (None::<Seq<char>>, lines.len() as int),
    decreases lines.len() - at,
{
    if at < lines.len() {
        assert(lines[at].len() == 0);
        lemma_blank_tail(lines, at + 1);
    }
}

/// What feeding a line to a [`Segmenter`] gave.
#[derive(Debug, Clone)]
pub enum Fed {
    /// The game goes on.
    More,
    /// The game is complete: this is its text.
    Game(String),
    /// The line cannot start a game.
    Stop,
}

/// The machine, fed line by line.
#[derive(Debug, Clone)]
pub struct Segmenter {
    pub state: PgnReadingState,
    pub accum: String,
}

impl Segmenter {
    /// The machine before a game.
    pub open spec fn is_fresh(&self) -> bool {
        self.state == PgnReadingState::WaitHead && self.accum@ == Seq::<char>::empty()
    }

    /// A machine before a game.
    pub fn new() -> (r: Segmenter)
        ensures
            r.is_fresh(),
    {
        Segmenter { state: PgnReadingState::WaitHead, accum: String::new() }
    }

    /// Takes in one line, without its line end. After a complete game and
    /// after a line that cannot start one, the machine is before a game
    /// again.
    pub fn feed(&mut self, line: &str) -> (r: Fed)
        ensures
            match step(old(self).state, old(self).accum@, line@) {
                Step::More(state, accum) => {
                    &&& r is More
                    &&& final(self).state == state
                    &&& final(self).accum@ == accum
                },
                Step::Game(text) => r matches Fed::Game(t) && t@ == text && final(self).is_fresh(),
                Step::Stop => r is Stop && final(self).is_fresh(),
            },
    {
        proof {
            reveal_strlit("\n");
            assert("\n"@ =~= seq!['\n']);
        }
        if line.is_empty() {
            match self.state {
                PgnReadingState::WaitHead => Fed::More,
                PgnReadingState::ReadHead => {
                    self.state = PgnReadingState::WaitBody;
                    Fed::More
                },
                PgnReadingState::WaitBody => {
                    self.accum.append("\n");
                    Fed::More
                },
                PgnReadingState::ReadBody => {
                    let mut text = String::new();
                    core::mem::swap(&mut self.accum, &mut text);
                    self.state = PgnReadingState::WaitHead;
                    Fed::Game(text)
                },
            }
        } else {
            match self.state {
                PgnReadingState::WaitHead => {
                    if line.get_char(0) == '[' {
                        self.accum = String::from_str(line);
                        self.accum.append("\n");
                        self.state = PgnReadingState::ReadHead;
                        assert(self.accum@ =~= terminated(line@));
                        Fed::More
                    } else {
                        self.accum = String::new();
                        Fed::Stop
                    }
                },
                PgnReadingState::ReadHead => {
                    self.accum.append(line);
                    self.accum.append("\n");
                    assert(self.accum@ =~= old(self).accum@ + terminated(line@));
                    Fed::More
                },
                PgnReadingState::WaitBody | PgnReadingState::ReadBody => {
                    self.accum.append(line);
                    self.accum.append("\n");
                    self.state = PgnReadingState::ReadBody;
                    assert(self.accum@ =~= old(self).accum@ + terminated(line@));
                    Fed::More
                },
            }
        }
    }

    /// Takes in the end of the lines: the game that it completes, if any.
    /// The machine is before a game again.
    pub fn finish(&mut self) -> (r: Option<String>)
        ensures
            text_of(r) == at_end(old(self).state, old(self).accum@),
            final(self).is_fresh(),
    {
        let mut text = String::new();
        core::mem::swap(&mut self.accum, &mut text);
        let state = self.state;
        self.state = PgnReadingState::WaitHead;
        match state {
            PgnReadingState::ReadBody => Some(text),
            _ => None,
        }
    }
}

/// The games of a text, one after another, from its lines.
#[derive(Debug, Clone)]
pub struct PgnIterator {
    /// The lines of the text, without their line ends.
    pub lines: Vec<String>,
    /// The line at which the search for the next game starts.
    pub cursor: usize,
}

impl PgnIterator {
    /// The games of the text with the lines `lines`, from its first line on.
    pub fn new(lines: Vec<String>) -> (r: PgnIterator)
        ensures
            r.lines == lines,
            r.cursor == 0,
    {
        PgnIterator { lines, cursor: 0 }
    }

    /// The games from the cursor on, up to the first place at which none is
    /// found.
    pub fn games(&mut self) -> (r: Vec<String>)
        ensures
            final(self).lines == old(self).lines,
            (lines_of(r@), final(self).cursor as int) == games_from(
                lines_of(old(self).lines@),
                old(self).cursor as int,
            ),
    {
        let ghost lines = lines_of(self.lines@);
        let ghost start = self.cursor as int;
        let mut found: Vec<String> = Vec::new();
        assert(lines_of(found@) =~= Seq::<Seq<char>>::empty());
        loop
            invariant_except_break
                games_from(lines, start) == (
                    lines_of(found@) + games_from(lines, self.cursor as int).0,
                    games_from(lines, self.cursor as int).1,
                ),
            invariant
                self.lines == old(self).lines,
                lines == lines_of(old(self).lines@),
                start == old(self).cursor,
            ensures
                self.lines == old(self).lines,
                (lines_of(found@), self.cursor as int) == games_from(lines, start),
            decreases lines.len() - self.cursor,
        {
            let ghost at = self.cursor as int;
            let ghost sofar = lines_of(found@);
            proof {
                lemma_scan_advances(lines, at, PgnReadingState::WaitHead, Seq::<char>::empty());
            }
            match self.next() {
                Some(game) => {
                    found.push(game);
                    proof {
                        assert(lines_of(found@) =~= sofar + seq![game@]);
                        if at < lines.len() {
                            assert(sofar + games_from(lines, at).0 =~= lines_of(found@) + games_from(
                                lines,
                                self.cursor as int,
                            ).0);
                        } else {
                            assert(false);
                        }
                    }
                },
                None => {
                    proof {
                        assert(sofar + games_from(lines, at).0 =~= sofar);
                    }
                    break ;
                },
            }
        }
        found
    }

    /// The next game, or `None` where the lines end before a game is complete
    /// or a line that cannot start a game is met; in either case the search
    /// goes on behind the last line read.
    pub fn next(&mut self) -> (r: Option<String>)
        ensures
            final(self).lines == old(self).lines,
            (text_of(r), final(self).cursor as int) == next_game(
                lines_of(old(self).lines@),
                old(self).cursor as int,
            ),
    {
        let ghost lines = lines_of(self.lines@);
        let ghost start = self.cursor as int;
        let n = self.lines.len();
        let mut machine = Segmenter::new();
        while self.cursor < n
            invariant
                n == self.lines@.len(),
                self.lines == old(self).lines,
                lines == lines_of(old(self).lines@),
                start == old(self).cursor,
                start <= self.cursor,
                next_game(lines, start) == scan(lines, self.cursor as int, machine.state, machine.accum@),
            decreases n - self.cursor,
        {
            let ghost at = self.cursor as int;
            assert(lines[at] == self.lines@[at]@);
            let fed = machine.feed(self.lines[self.cursor].as_str());
            self.cursor = self.cursor + 1;
            match fed {
                Fed::More => {},
                Fed::Game(text) => {
                    return Some(text);
                },
                Fed::Stop => {
                    return None;
                },
            }
        }
        machine.finish()
    }
}

} // verus!
