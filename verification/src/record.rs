//! Game records: the headers and the plies read from one game.

use crate::keyed::{first_at, first_index, lemma_first_found, lemma_first_of_contained};
use crate::text::str_eq;
use vstd::prelude::*;
use vstd::string::StringExecFns;

verus! {

/// The chess variants a game can be played under.
#[derive(Debug, Clone, Copy, PartialEq, Eq, Structural)]
pub enum Variant {
    VariantAntichess,
    VariantAtomic,
    VariantChess960,
    VariantCrazyhose,
    VariantFromPosition,
    VariantHorde,
    VariantKingOfTheHill,
    VariantRacingKings,
    VariantStandard,
    VariantThreeCheck,
}

/// One ply: the move in short and in coordinate notation, and the position
/// before and after it, each in its full and its position-only encoding.
#[derive(Debug, Clone)]
pub struct SanUciFenEpd {
    pub san: String,
    pub uci: String,
    pub fen_before: String,
    pub epd_before: String,
    pub fen_after: String,
    pub epd_after: String,
}

/// The mathematical content of a [`SanUciFenEpd`].
pub struct Ply {
    pub san: Seq<char>,
    pub uci: Seq<char>,
    pub fen_before: Seq<char>,
    pub epd_before: Seq<char>,
    pub fen_after: Seq<char>,
    pub epd_after: Seq<char>,
}

impl View for SanUciFenEpd {
    type V = Ply;

    open spec fn view(&self) -> Ply {
        Ply {
            san: self.san@,
            uci: self.uci@,
            fen_before: self.fen_before@,
            epd_before: self.epd_before@,
            fen_after: self.fen_after@,
            epd_after: self.epd_after@,
        }
    }
}

/// One header of a game: a key and its value.
#[derive(Debug, Clone)]
pub struct Header {
    pub key: String,
    pub value: String,
}

/// The keys of a list of headers.
pub open spec fn header_keys(headers: Seq<Header>) -> Seq<Seq<char>> {
    headers.map_values(|h: Header| h.key@)
}

/// The dictionary that a list of headers stands for: under each key the
/// value of the first header with that key.
pub open spec fn header_map(headers: Seq<Header>) -> Map<Seq<char>, Seq<char>> {
    Map::new(
        |key: Seq<char>| header_keys(headers).contains(key),
        |key: Seq<char>| headers[first_index(header_keys(headers), key)].value@,
    )
}

/// The plies of a list of move records.
pub open spec fn plies_of(moves: Seq<SanUciFenEpd>) -> Seq<Ply> {
    moves.map_values(|m: SanUciFenEpd| m@)
}

/// The headers and the plies of one game.
#[derive(Debug, Clone)]
pub struct PgnInfo {
    /// The headers; a key is looked up from the front.
    pub headers: Vec<Header>,
    /// The plies, in the order in which they were played.
    pub moves: Vec<SanUciFenEpd>,
}

/// The mathematical content of a [`PgnInfo`].
pub struct GameRecord {
    pub headers: Map<Seq<char>, Seq<char>>,
    pub moves: Seq<Ply>,
}

impl View for PgnInfo {
    type V = GameRecord;

    open spec fn view(&self) -> GameRecord {
        GameRecord { headers: header_map(self.headers@), moves: plies_of(self.moves@) }
    }
}

/// The value that stands for a header that a game does not have.
pub open spec fn missing_header() -> Seq<char> {
    seq!['?']
}

/// The value of the header `key` among `headers`, or `?` where there is none.
pub open spec fn header_or_mark(headers: Map<Seq<char>, Seq<char>>, key: Seq<char>) -> Seq<char> {
    if headers.contains_key(key) {
        headers[key]
    } else {
        missing_header()
    }
}

impl PgnInfo {
    /// No key occurs twice among the headers.
    pub open spec fn wf(&self) -> bool {
        header_keys(self.headers@).no_duplicates()
    }

    /// An empty record.
    pub fn new() -> (r: PgnInfo)
        ensures
            r.wf(),
            r@.headers == Map::<Seq<char>, Seq<char>>::empty(),
            r@.moves == Seq::<Ply>::empty(),
    {
        let r = PgnInfo { headers: Vec::new(), moves: Vec::new() };
        assert(r@.headers =~= Map::<Seq<char>, Seq<char>>::empty());
        assert(r@.moves =~= Seq::<Ply>::empty());
        r
    }

    /// Appends one ply.
    pub fn push(&mut self, san_uci_fen_epd: SanUciFenEpd)
        ensures
            final(self).headers == old(self).headers,
            final(self).moves@ == old(self).moves@.push(san_uci_fen_epd),
            final(self)@.moves == old(self)@.moves.push(san_uci_fen_epd@),
    {
        self.moves.push(san_uci_fen_epd);
        assert(plies_of(self.moves@) =~= plies_of(old(self).moves@).push(san_uci_fen_epd@));
    }

    /// The place of the first header with the key `key`, if there is one.
    pub fn find_header(&self, key: &str) -> (r: Option<usize>)
        ensures
            match r {
                Some(i) => first_at(header_keys(self.headers@), key@, i as int),
                None => !header_keys(self.headers@).contains(key@),
            },
    {
        let n = self.headers.len();
        let mut i: usize = 0;
        while i < n
            invariant
                n == self.headers@.len(),
                i <= n,
                forall|j: int| 0 <= j < i ==> header_keys(self.headers@)[j] != key@,
            decreases n - i,
        {
            if str_eq(self.headers[i].key.as_str(), key) {
                return Some(i);
            }
            i += 1;
        }
        None
    }

    /// Records `value` under `key`, in place of what was recorded under it.
    pub fn insert_header(&mut self, key: &str, value: &str)
        ensures
            final(self)@.headers == old(self)@.headers.insert(key@, value@),
            final(self).moves == old(self).moves,
            old(self).wf() ==> final(self).wf(),
    {
        let ghost before = self.headers@;
        let ghost keys = header_keys(before);
        let found = self.find_header(key);
        let entry = Header { key: String::from_str(key), value: String::from_str(value) };
        match found {
            Some(i) => {
                self.headers[i] = entry;
                proof {
                    let after = self.headers@;
                    assert(header_keys(after) =~= keys);
                    lemma_first_found(keys, key@, i as int);
                    assert forall|k: Seq<char>| keys.contains(k) implies header_map(after)[k]
                        == header_map(before).insert(key@, value@)[k] by {
                        lemma_first_of_contained(keys, k);
                        let w = first_index(keys, k);
                        if w != i {
                            assert(after[w] == before[w]);
                        }
                    }
                    assert(header_map(after) =~= header_map(before).insert(key@, value@));
                }
            },
            None => {
                self.headers.push(entry);
                proof {
                    let after = self.headers@;
                    let last = before.len() as int;
                    assert(header_keys(after) =~= keys.push(key@));
                    assert(first_at(header_keys(after), key@, last));
                    lemma_first_found(header_keys(after), key@, last);
                    assert forall|k: Seq<char>|
                        header_keys(after).contains(k) == (keys.contains(k) || k == key@) by {
                        if header_keys(after).contains(k) {
                            let w = choose|w: int|
                                0 <= w < header_keys(after).len() && header_keys(after)[w] == k;
                            if w < last {
                                assert(keys[w] == k);
                            }
                        }
                        if keys.contains(k) {
                            let w = choose|w: int| 0 <= w < keys.len() && keys[w] == k;
                            assert(header_keys(after)[w] == k);
                        }
                    }
                    assert forall|k: Seq<char>| keys.contains(k) implies header_map(after)[k]
                        == header_map(before)[k] by {
                        lemma_first_of_contained(keys, k);
                        let w = first_index(keys, k);
                        assert(first_at(header_keys(after), k, w));
                        lemma_first_found(header_keys(after), k, w);
                    }
                    assert(header_map(after) =~= header_map(before).insert(key@, value@));
                }
            },
        }
    }

    /// Whether `value` is what `get_header` reports for `key`.
    pub fn header_is(&self, key: &str, value: &str) -> (r: bool)
        ensures
            r == (header_or_mark(self@.headers, key@) == value@),
    {
        match self.find_header(key) {
            Some(i) => {
                proof {
                    lemma_first_found(header_keys(self.headers@), key@, i as int);
                }
                str_eq(self.headers[i].value.as_str(), value)
            },
            None => {
                proof {
                    reveal_strlit("?");
                }
                assert("?"@ =~= missing_header());
                str_eq("?", value)
            },
        }
    }

    /// The value recorded under `key`, or `?` where none is.
    pub fn get_header(&mut self, key: &str) -> (r: String)
        ensures
            *final(self) == *old(self),
            r@ == header_or_mark(old(self)@.headers, key@),
    {
        let found = self.find_header(key);
        match found {
            Some(i) => {
                proof {
                    lemma_first_found(header_keys(self.headers@), key@, i as int);
                }
                self.headers[i].value.clone()
            },
            None => {
                proof {
                    reveal_strlit("?");
                }
                let r = String::from_str("?");
                assert(r@ =~= missing_header());
                r
            },
        }
    }
}

} // verus!
