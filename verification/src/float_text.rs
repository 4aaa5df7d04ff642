use vstd::prelude::*;
use vstd::string::StringSliceAdditionalSpecFns;

use crate::dict::{ascii_lower, lower_bytes};
use crate::read::text_is;
use crate::text::{
    all_digits, is_digit, lemma_skip_space, lemma_words_step, next_word, skip_space, words, words_from,
};

verus! {

/// Whether `c` is an ASCII digit or a decimal point.
pub open spec fn digit_or_dot(c: u8) -> bool {
    is_digit(c) || c == 46
}

/// Where the run of digits and decimal points of `t` that starts at `i` ends.
pub open spec fn mantissa_end(t: Seq<u8>, i: int) -> int
    decreases t.len() - i,
{
    if 0 <= i < t.len() && digit_or_dot(t[i]) {
        mantissa_end(t, i + 1)
    } else {
        i
    }
}

/// How many decimal points `t` holds.
pub open spec fn dots(t: Seq<u8>) -> nat
    decreases t.len(),
{
    if t.len() == 0 {
        0
    } else {
        dots(t.drop_last()) + if t.last() == 46 {
            1nat
        } else {
            0nat
        }
    }
}

/// Whether `m` is digits with at most one decimal point, and at least one
/// digit.
pub open spec fn mantissa_ok(m: Seq<u8>) -> bool {
    &&& forall|i: int| 0 <= i < m.len() ==> digit_or_dot(#[trigger] m[i])
    &&& dots(m) <= 1
    &&& dots(m) < m.len()
}

/// The digits of an exponent `x`: what follows its `e` and its sign, if any.
pub open spec fn exponent_digits(x: Seq<u8>) -> Seq<u8> {
    if x.len() >= 2 && (x[1] == 43 || x[1] == 45) {
        x.skip(2)
    } else {
        x.skip(1)
    }
}

/// Whether `x` is an exponent: `e` or `E`, an optional sign, and at least one
/// digit.
pub open spec fn exponent_ok(x: Seq<u8>) -> bool {
    &&& x.len() >= 1
    &&& (x[0] == 101 || x[0] == 69)
    &&& exponent_digits(x).len() >= 1
    &&& all_digits(exponent_digits(x))
}

/// The text `s` without a leading `+` or `-`.
pub open spec fn unsigned_part(s: Seq<u8>) -> Seq<u8> {
    if s.len() > 0 && (s[0] == 43 || s[0] == 45) {
        s.skip(1)
    } else {
        s
    }
}

/// Whether `s` is the text of a float as Rust's float parsing takes it: an
/// optional sign, then `inf`, `infinity` or `nan` in any case, or digits with at
/// most one decimal point and at least one digit, followed by an optional
/// exponent.
pub open spec fn float_text(s: Seq<u8>) -> bool {
    let t = unsigned_part(s);
    let k = mantissa_end(t, 0);
    ||| ascii_lower(t) == "inf".spec_bytes()
    ||| ascii_lower(t) == "infinity".spec_bytes()
    ||| ascii_lower(t) == "nan".spec_bytes()
    ||| mantissa_ok(t.take(k)) && (k == t.len() || exponent_ok(t.skip(k)))
}

/// Whether every white-space separated word of `s` is the text of a float.
pub open spec fn float_words(s: Seq<u8>) -> bool {
    forall|i: int| 0 <= i < words(s).len() ==> float_text(#[trigger] words(s)[i])
}

/// The end of the run of digits and decimal points at the start of `t`, and how
/// many decimal points it holds.
fn scan_mantissa(t: &[u8]) -> (r: (usize, usize))
    ensures
        r.0 == mantissa_end(t@, 0),
        r.0 <= t@.len(),
        r.1 == dots(t@.take(r.0 as int)),
        r.1 <= r.0,
        forall|k: int| 0 <= k < r.0 ==> digit_or_dot(#[trigger] t@[k]),
{
    let mut i: usize = 0;
    let mut count: usize = 0;
    while i < t.len() && (t[i] == 46 || (t[i] >= 48 && t[i] <= 57))
        invariant
            i <= t@.len(),
            mantissa_end(t@, 0) == mantissa_end(t@, i as int),
            count == dots(t@.take(i as int)),
            count <= i,
            forall|k: int| 0 <= k < i ==> digit_or_dot(#[trigger] t@[k]),
        decreases t@.len() - i,
    {
        assert(t@.take(i + 1).drop_last() =~= t@.take(i as int));
        if t[i] == 46 {
            count += 1;
        }
        i += 1;
    }
    (i, count)
}

/// Whether `x` is an exponent, as [`exponent_ok`] says.
fn is_exponent(x: &[u8]) -> (b: bool)
    ensures
        b == exponent_ok(x@),
{
    if x.len() == 0 || !(x[0] == 101 || x[0] == 69) {
        return false;
    }
    let j: usize = if x.len() >= 2 && (x[1] == 43 || x[1] == 45) {
        2
    } else {
        1
    };
    let ghost y = x@.skip(j as int);
    assert(y == exponent_digits(x@));
    if j == x.len() {
        return false;
    }
    assert(exponent_ok(x@) == (forall|q: int| 0 <= q < y.len() ==> is_digit(#[trigger] y[q])));
    let mut d: usize = j;
    while d < x.len()
        invariant
            j <= d <= x@.len(),
            y == x@.skip(j as int),
            exponent_ok(x@) == (forall|q: int| 0 <= q < y.len() ==> is_digit(#[trigger] y[q])),
            forall|q: int| j <= q < d ==> is_digit(#[trigger] x@[q]),
        decreases x@.len() - d,
    {
        if !(x[d] >= 48 && x[d] <= 57) {
            assert(y[d - j] == x@[d as int]);
            assert(!is_digit(y[d - j]));
            assert(!(forall|q: int| 0 <= q < y.len() ==> is_digit(#[trigger] y[q])));
            return false;
        }
        d += 1;
    }
    assert forall|q: int| 0 <= q < y.len() implies is_digit(#[trigger] y[q]) by {
        assert(y[q] == x@[j + q]);
    }
    true
}

/// Whether `s` is the text of a float, as [`float_text`] says.
pub fn is_float_text(s: &[u8]) -> (b: bool)
    ensures
        b == float_text(s@),
{
    let start: usize = if s.len() > 0 && (s[0] == 43 || s[0] == 45) {
        1
    } else {
        0
    };
    let t = &s[start..s.len()];
    assert(t@ =~= unsigned_part(s@));
    let lowered = lower_bytes(t);
    if text_is(lowered.as_slice(), "inf") || text_is(lowered.as_slice(), "infinity") || text_is(
        lowered.as_slice(),
        "nan",
    ) {
        return true;
    }
    let (k, count) = scan_mantissa(t);
    assert forall|j: int| 0 <= j < t@.take(k as int).len() implies digit_or_dot(#[trigger] t@.take(k as int)[j]) by {
        assert(t@.take(k as int)[j] == t@[j]);
    }
    if !(count <= 1 && count < k) {
        return false;
    }
    if k == t.len() {
        return true;
    }
    let x = &t[k..t.len()];
    assert(x@ =~= t@.skip(k as int));
    is_exponent(x)
}

/// Whether every white-space separated word of `s` is the text of a float, as
/// [`float_words`] says.
pub fn are_float_words(s: &[u8]) -> (b: bool)
    ensures
        b == float_words(s@),
{
    let mut i: usize = 0;
    assert(words(s@) == words_from(s@, 0));
    loop
        invariant
            i <= s@.len(),
            float_words(s@) == forall|k: int|
                0 <= k < words_from(s@, i as int).len() ==> float_text(#[trigger] words_from(s@, i as int)[k]),
        decreases s@.len() - i,
    {
        match next_word(s, i) {
            None => {
                proof {
                    lemma_skip_space(s@, i as int);
                    assert(words_from(s@, i as int) =~= Seq::<Seq<u8>>::empty());
                }
                return true;
            },
            Some((start, end)) => {
                proof {
                    lemma_words_step(s@, i as int, start as int, end as int);
                }
                let ghost ws = words_from(s@, i as int);
                let word = &s[start..end];
                assert(ws[0] == word@);
                if !is_float_text(word) {
                    return false;
                }
                proof {
                    let rest = words_from(s@, end as int);
                    assert forall|k: int| 0 <= k < rest.len() implies #[trigger] ws[k + 1] == rest[k] by {}
                    if forall|k: int| 0 <= k < rest.len() ==> float_text(#[trigger] rest[k]) {
                        assert forall|k: int| 0 <= k < ws.len() implies float_text(#[trigger] ws[k]) by {
                            if k > 0 {
                                assert(ws[k] == rest[k - 1]);
                            }
                        }
                    }
                    if forall|k: int| 0 <= k < ws.len() ==> float_text(#[trigger] ws[k]) {
                        assert forall|k: int| 0 <= k < rest.len() implies float_text(#[trigger] rest[k]) by {
                            assert(ws[k + 1] == rest[k]);
                        }
                    }
                }
                i = end;
            },
        }
    }
}

/// Whether a text, when there is one, is the text of a float.
pub open spec fn optional_float(t: Option<Seq<u8>>) -> bool {
    match t {
        Some(v) => float_text(v),
        None => true,
    }
}

/// Whether each word of a text, when there is one, is the text of a float.
pub open spec fn optional_floats(t: Option<Seq<u8>>) -> bool {
    match t {
        Some(v) => float_words(v),
        None => true,
    }
}

/// Whether a text, when there is one, is the text of a float.
pub fn check_float(t: Option<&Vec<u8>>) -> (b: bool)
    ensures
        match t {
            Some(v) => b == float_text(v@),
            None => b,
        },
{
    match t {
        Some(v) => is_float_text(v.as_slice()),
        None => true,
    }
}

/// Whether each word of a text, when there is one, is the text of a float.
pub fn check_floats(t: Option<&Vec<u8>>) -> (b: bool)
    ensures
        match t {
            Some(v) => b == float_words(v@),
            None => b,
        },
{
    match t {
        Some(v) => are_float_words(v.as_slice()),
        None => true,
    }
}

} // verus!
