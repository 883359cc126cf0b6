//! The result of a game, and how the side to move sees it.

use crate::text::str_eq;
use vstd::prelude::*;

verus! {

/// The first space of `epd` is at place `i`, and the field behind it is
/// exactly `w`.
pub open spec fn white_marked_at(epd: Seq<char>, i: int) -> bool {
    &&& 0 <= i < epd.len()
    &&& epd[i] == ' '
    &&& forall|j: int| 0 <= j < i ==> epd[j] != ' '
    &&& i + 1 < epd.len()
    &&& epd[i + 1] == 'w'
    &&& (i + 2 == epd.len() || epd[i + 2] == ' ')
}

/// Whether white is to move in the position with the position-only encoding
/// `epd`: whether the second of the fields that single spaces part `epd` into
/// is exactly `w`.
pub open spec fn white_to_move(epd: Seq<char>) -> bool {
    exists|i: int| white_marked_at(epd, i)
}

/// Whether white is to move in the position with the position-only encoding
/// `epd`. An encoding without a second field has black to move.
pub fn turn_white(epd: &str) -> (r: bool)
    ensures
        r == white_to_move(epd@),
{
    // 0: no space yet; 1: the first space was the last character;
    // 2: the second field is `w` so far; 3: it is exactly `w`; 4: it is not.
    let mut stage: u8 = 0;
    for c in it: epd.chars()
        invariant
            it.seq() == epd@,
            stage <= 4,
            stage == 0 ==> forall|j: int| 0 <= j < it.index() ==> epd@[j] != ' ',
            stage == 1 ==> it.index() >= 1 && epd@[it.index() - 1] == ' ' && forall|j: int|
                0 <= j < it.index() - 1 ==> epd@[j] != ' ',
            stage == 2 ==> it.index() >= 2 && epd@[it.index() - 2] == ' ' && epd@[it.index() - 1]
                == 'w' && forall|j: int| 0 <= j < it.index() - 2 ==> epd@[j] != ' ',
            stage == 3 ==> white_to_move(epd@),
            stage == 4 ==> !white_to_move(epd@),
    {
        let ghost k = it.index();
        assert(c == epd@[k]);
        if stage == 0 {
            if c == ' ' {
                stage = 1;
            }
        } else if stage == 1 {
            if c == 'w' {
                stage = 2;
            } else {
                stage = 4;
                assert forall|i: int| !white_marked_at(epd@, i) by {
                    if white_marked_at(epd@, i) {
                        assert(i == k - 1);
                    }
                }
            }
        } else if stage == 2 {
            if c == ' ' {
                stage = 3;
                assert(white_marked_at(epd@, k - 2));
            } else {
                stage = 4;
                assert forall|i: int| !white_marked_at(epd@, i) by {
                    if white_marked_at(epd@, i) {
                        assert(i == k - 2);
                    }
                }
            }
        }
    }
    proof {
        let n = epd@.len() as int;
        if stage == 2 {
            assert(white_marked_at(epd@, n - 2));
        }
        if stage == 1 {
            assert forall|i: int| !white_marked_at(epd@, i) by {
                if white_marked_at(epd@, i) {
                    assert(i == n - 1);
                }
            }
        }
    }
    stage == 2 || stage == 3
}

/// The result of a game as its `Result` header gives it: 2 where white won
/// (`1-0`), 0 where black won (`0-1`), 1 for anything else.
pub open spec fn result_code(result: Seq<char>) -> int {
    if result == "1-0"@ {
        2
    } else if result == "0-1"@ {
        0
    } else {
        1
    }
}

/// The result code of a game with the headers `headers`: that of its `Result`
/// header, and a draw where it has none.
pub open spec fn result_in(headers: Map<Seq<char>, Seq<char>>) -> int {
    if headers.contains_key("Result"@) {
        result_code(headers["Result"@])
    } else {
        1
    }
}

/// The result of a game as seen by the side to move: the result code itself
/// where white is to move, its complement where black is.
pub open spec fn oriented(code: int, white: bool) -> int {
    if white {
        code
    } else {
        2 - code
    }
}

/// The result code of a `Result` header.
pub fn result_of(result: &str) -> (r: u8)
    ensures
        r == result_code(result@),
{
    if str_eq(result, "1-0") {
        2
    } else if str_eq(result, "0-1") {
        0
    } else {
        1
    }
}

/// The result code `code` (2, 1 or 0) as the side to move in `epd` sees it.
pub fn orient(code: u8, epd: &str) -> (r: u8)
    requires
        code <= 2,
    ensures
        r == oriented(code as int, white_to_move(epd@)),
        r <= 2,
{
    if turn_white(epd) {
        code
    } else {
        2 - code
    }
}

} // verus!
