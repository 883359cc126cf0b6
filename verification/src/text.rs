//! Small string utilities shared by the other modules.

use vstd::prelude::*;
use vstd::string::StringSliceAdditionalSpecFns;
use vstd::utf8::{decode_utf8, encode_utf8, encode_utf8_decode_utf8, valid_utf8};

verus! {

/// Equal character sequences have equal UTF-8 encodings, and conversely.
pub proof fn lemma_encoding_injective(a: Seq<char>, b: Seq<char>)
    ensures
        (encode_utf8(a) == encode_utf8(b)) <==> (a == b),
{
    encode_utf8_decode_utf8(a);
    encode_utf8_decode_utf8(b);
}

/// The characters of an optional string.
pub open spec fn text_of(s: Option<String>) -> Option<Seq<char>> {
    match s {
        Some(t) => Some(t@),
        None => None,
    }
}

/// Whether two string slices hold the same characters.
pub fn str_eq(a: &str, b: &str) -> (r: bool)
    ensures
        r == (a@ == b@),
{
    let x = a.as_bytes();
    let y = b.as_bytes();
    proof {
        lemma_encoding_injective(a@, b@);
    }
    assert(x@ == y@ <==> a@ == b@);
    if x.len() != y.len() {
        return false;
    }
    let n = x.len();
    let mut i: usize = 0;
    while i < n
        invariant
            n == x@.len(),
            n == y@.len(),
            i <= n,
            x@ == y@ <==> a@ == b@,
            forall|j: int| 0 <= j < i ==> x@[j] == y@[j],
        decreases n - i,
    {
        if x[i] != y[i] {
            return false;
        }
        i += 1;
    }
    assert(x@ =~= y@);
    true
}

/// The lowercase form of `s`, as `str::to_lowercase` gives it.
pub uninterp spec fn lowercase(s: Seq<char>) -> Seq<char>;

/// Calls `str::to_lowercase`. Trusted: the result is the one named
/// `lowercase`.
#[verifier::external_body]
pub(crate) fn to_lowercase(s: &str) -> (r: String)
    ensures
        r@ == lowercase(s@),
{
    s.to_lowercase()
}

/// Calls `core::str::from_utf8`. Trusted: it succeeds exactly on well-formed
/// UTF-8, and then gives the characters that the bytes encode.
#[verifier::external_body]
pub(crate) fn decode<'a>(bytes: &'a [u8]) -> (r: Option<&'a str>)
    ensures
        r is Some <==> valid_utf8(bytes@),
        r matches Some(s) ==> s@ == decode_utf8(bytes@),
{
    core::str::from_utf8(bytes).ok()
}

/// Whether `c` is one of the ten decimal digits.
pub open spec fn is_digit(c: char) -> bool {
    '0' <= c <= '9'
}

/// The number that a sequence of decimal digits denotes.
pub open spec fn digits_value(s: Seq<char>) -> nat
    decreases s.len(),
{
    if s.len() == 0 {
        0
    } else {
        digits_value(s.drop_last()) * 10 + ((s.last() as u32) - ('0' as u32)) as nat
    }
}

/// The digits of a decimal numeral: the text without a leading `+`.
pub open spec fn numeral_digits(s: Seq<char>) -> Seq<char> {
    if s.len() > 0 && s[0] == '+' {
        s.subrange(1, s.len() as int)
    } else {
        s
    }
}

/// The number that `s` denotes as a `usize`: an optional `+`, then one or
/// more decimal digits and nothing else, of a value that fits.
pub open spec fn parsed_usize(s: Seq<char>) -> Option<usize> {
    let digits = numeral_digits(s);
    if digits.len() > 0 && (forall|i: int| 0 <= i < digits.len() ==> is_digit(#[trigger] digits[i]))
        && digits_value(digits) <= usize::MAX {
        Some(digits_value(digits) as usize)
    } else {
        None
    }
}

/// A numeral of digits alone is worth at least as much as any of its
/// beginnings.
pub proof fn lemma_digits_value_grows(s: Seq<char>, n: int)
    requires
        0 <= n <= s.len(),
        forall|i: int| 0 <= i < s.len() ==> is_digit(#[trigger] s[i]),
    ensures
        digits_value(s.take(n)) <= digits_value(s),
    decreases s.len() - n,
{
    if n < s.len() {
        lemma_digits_value_grows(s, n + 1);
        assert(s.take(n + 1).drop_last() =~= s.take(n));
    } else {
        assert(s.take(n) =~= s);
    }
}

/// The number that `s` denotes as a `usize`, as `str::parse::<usize>` gives
/// it: an optional `+`, then one or more decimal digits and nothing else, of
/// a value that fits.
pub fn parse_usize(s: &str) -> (r: Option<usize>)
    ensures
        r == parsed_usize(s@),
{
    let ghost digits = numeral_digits(s@);
    let ghost skipped: int = if s@.len() > 0 && s@[0] == '+' {
        1
    } else {
        0
    };
    let mut value: usize = 0;
    let mut first = true;
    let mut any = false;
    let mut ok = true;
    for c in it: s.chars()
        invariant
            it.seq() == s@,
            digits == numeral_digits(s@),
            skipped == if s@.len() > 0 && s@[0] == '+' {
                1int
            } else {
                0int
            },
            first == (it.index() == 0),
            !ok ==> parsed_usize(s@) is None,
            ok ==> it.index() >= skipped || it.index() == 0,
            ok && it.index() >= skipped ==> {
                &&& any == (it.index() > skipped)
                &&& forall|i: int| 0 <= i < it.index() - skipped ==> is_digit(#[trigger] digits[i])
                &&& value == digits_value(digits.take(it.index() - skipped))
            },
            ok && it.index() < skipped ==> !any && value == 0,
    {
        let ghost k = it.index();
        assert(c == s@[k]);
        if ok {
            if first && c == '+' {
                assert(digits.take(0) =~= Seq::<char>::empty());
            } else if c >= '0' && c <= '9' {
                let digit = (c as u32 - '0' as u32) as usize;
                proof {
                    assert(digits[k - skipped] == c);
                    assert(digits.take(k - skipped + 1).drop_last() =~= digits.take(k - skipped));
                }
                let grown = match value.checked_mul(10) {
                    Some(tenfold) => tenfold.checked_add(digit),
                    None => None,
                };
                match grown {
                    Some(v) => {
                        value = v;
                        any = true;
                    },
                    None => {
                        ok = false;
                        proof {
                            if forall|i: int| 0 <= i < digits.len() ==> is_digit(#[trigger] digits[i]) {
                                lemma_digits_value_grows(digits, k - skipped + 1);
                            }
                        }
                    },
                }
            } else {
                ok = false;
                assert(!is_digit(digits[k - skipped]));
            }
        }
        first = false;
    }
    proof {
        if ok {
            assert(digits.take(digits.len() as int) =~= digits);
        }
    }
    if ok && any {
        Some(value)
    } else {
        None
    }
}

} // verus!
