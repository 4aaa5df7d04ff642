use vstd::prelude::*;

verus! {

/// Whether `b` is an ASCII decimal digit.
pub open spec fn is_digit(b: u8) -> bool {
    48 <= b <= 57
}

/// Whether every byte of `s` is an ASCII decimal digit.
pub open spec fn all_digits(s: Seq<u8>) -> bool {
    forall|i: int| 0 <= i < s.len() ==> is_digit(#[trigger] s[i])
}

/// The number that the decimal digits `s` spell.
pub open spec fn digits_value(s: Seq<u8>) -> nat
    decreases s.len(),
{
    if s.len() == 0 {
        0
    } else {
        digits_value(s.drop_last()) * 10 + (s.last() - 48) as nat
    }
}

/// The digits of `s` after one optional leading `sign` byte.
pub open spec fn unsigned_part(s: Seq<u8>, sign: u8) -> Seq<u8> {
    if s.len() > 0 && s[0] == sign {
        s.skip(1)
    } else {
        s
    }
}

/// `u32` parsing as std's `str::parse::<u32>` does it: an optional `+`, then
/// one or more decimal digits whose value fits a `u32`.
pub open spec fn parse_u32_text(s: Seq<u8>) -> Option<u32> {
    let d = unsigned_part(s, 43);
    if d.len() > 0 && all_digits(d) && digits_value(d) <= u32::MAX {
        Some(digits_value(d) as u32)
    } else {
        None
    }
}

/// `i32` parsing as std's `str::parse::<i32>` does it: an optional `+` or `-`,
/// then one or more decimal digits whose signed value fits an `i32`.
pub open spec fn parse_i32_text(s: Seq<u8>) -> Option<i32> {
    if s.len() > 0 && s[0] == 45 {
        let d = s.skip(1);
        if d.len() > 0 && all_digits(d) && digits_value(d) <= 0x8000_0000 {
            Some((-(digits_value(d) as int)) as i32)
        } else {
            None
        }
    } else {
        let d = unsigned_part(s, 43);
        if d.len() > 0 && all_digits(d) && digits_value(d) <= 0x7fff_ffff {
            Some(digits_value(d) as i32)
        } else {
            None
        }
    }
}

/// The shortest decimal digits of `n`.
pub open spec fn decimal(n: nat) -> Seq<u8>
    decreases n,
{
    if n < 10 {
        seq![(48 + n) as u8]
    } else {
        decimal(n / 10).push((48 + n % 10) as u8)
    }
}

/// The decimal text of a signed number: a `-` before negative numbers.
pub open spec fn signed_decimal(n: int) -> Seq<u8> {
    if n < 0 {
        seq![45u8] + decimal((-n) as nat)
    } else {
        decimal(n as nat)
    }
}

/// The decimal text of `n` has at most `n` digits, and one for zero.
pub proof fn lemma_decimal_len(n: nat)
    ensures
        1 <= decimal(n).len(),
        decimal(n).len() <= if n == 0 {
            1
        } else {
            n
        },
    decreases n,
{
    if n >= 10 {
        lemma_decimal_len(n / 10);
    }
}

/// Ten to the power `k`.
pub open spec fn pow10(k: nat) -> nat
    decreases k,
{
    if k == 0 {
        1
    } else {
        10 * pow10((k - 1) as nat)
    }
}

/// A number below `10^k`, for `k` at least one, has at most `k` digits.
pub proof fn lemma_decimal_digits(n: nat, k: nat)
    requires
        k >= 1,
        n < pow10(k),
    ensures
        decimal(n).len() <= k,
    decreases k,
{
    if n >= 10 {
        assert(k >= 2) by {
            if k == 1 {
                reveal_with_fuel(pow10, 2);
                assert(pow10(1) == 10);
            }
        }
        assert(n / 10 < pow10((k - 1) as nat));
        lemma_decimal_digits(n / 10, (k - 1) as nat);
    }
}

/// The decimal text of a `u32` has at most ten bytes, that of an `i32` at most
/// eleven.
pub proof fn lemma_short_decimals(n: u32, m: i32)
    ensures
        decimal(n as nat).len() <= 10,
        signed_decimal(m as int).len() <= 11,
{
    reveal_with_fuel(pow10, 11);
    lemma_decimal_digits(n as nat, 10);
    if m < 0 {
        lemma_decimal_digits((-m) as nat, 10);
    } else {
        lemma_decimal_digits(m as nat, 10);
    }
}

proof fn lemma_decimal(n: nat)
    ensures
        decimal(n).len() > 0,
        all_digits(decimal(n)),
        digits_value(decimal(n)) == n,
        decimal(n)[0] != 43u8,
        decimal(n)[0] != 45u8,
    decreases n,
{
    let d = decimal(n);
    if n >= 10 {
        lemma_decimal(n / 10);
        assert(d.drop_last() =~= decimal(n / 10));
        assert(n == (n / 10) * 10 + n % 10);
        assert(d.last() == (48 + n % 10) as u8);
        assert(d.last() - 48 == n % 10);
        assert(digits_value(d) == digits_value(decimal(n / 10)) * 10 + (d.last() - 48) as nat);
        assert forall|i: int| 0 <= i < d.len() implies is_digit(#[trigger] d[i]) by {
            if i < d.len() - 1 {
                assert(d[i] == decimal(n / 10)[i]);
            }
        }
    } else {
        assert(d.drop_last() =~= Seq::<u8>::empty());
        assert(digits_value(d.drop_last()) == 0);
        assert(digits_value(d) == digits_value(d.drop_last()) * 10 + (d.last() - 48) as nat);
    }
}

/// Law: parsing the decimal text of a `u32` gives the `u32` back.
pub proof fn decimal_u32_round_trip(n: u32)
    ensures
        parse_u32_text(decimal(n as nat)) == Some(n),
{
    lemma_decimal(n as nat);
}

/// Law: parsing the decimal text of an `i32` gives the `i32` back.
pub proof fn decimal_i32_round_trip(n: i32)
    ensures
        parse_i32_text(signed_decimal(n as int)) == Some(n),
{
    if n < 0 {
        lemma_decimal((-n) as nat);
        let s = signed_decimal(n as int);
        assert(s.skip(1) =~= decimal((-n) as nat));
    } else {
        lemma_decimal(n as nat);
    }
}

/// Parses `s` as `str::parse::<u32>` would.
pub fn parse_u32(s: &[u8]) -> (value: Option<u32>)
    ensures
        value == parse_u32_text(s@),
{
    let start: usize = if s.len() > 0 && s[0] == 43 {
        1
    } else {
        0
    };
    let ghost d = unsigned_part(s@, 43);
    assert(d =~= s@.skip(start as int));
    if start >= s.len() {
        return None;
    }
    let mut value: u64 = 0;
    let mut index: usize = start;
    while index < s.len()
        invariant
            start <= index <= s@.len(),
            d == s@.skip(start as int),
            d == unsigned_part(s@, 43),
            all_digits(s@.subrange(start as int, index as int)),
            value == if digits_value(s@.subrange(start as int, index as int)) <= u32::MAX {
                digits_value(s@.subrange(start as int, index as int))
            } else {
                0x1_0000_0000 as nat
            },
        decreases s@.len() - index,
    {
        let b = s[index];
        if b < 48 || b > 57 {
            assert(d[index - start] == b);
            assert(!is_digit(d[index - start]));
            return None;
        }
        let ghost prefix = s@.subrange(start as int, index as int);
        let ghost next = s@.subrange(start as int, index + 1);
        assert(next.drop_last() =~= prefix);
        assert(all_digits(next)) by {
            assert forall|i: int| 0 <= i < next.len() implies is_digit(#[trigger] next[i]) by {
                if i < prefix.len() {
                    assert(next[i] == prefix[i]);
                }
            }
        }
        if value > 0xffff_ffff {
            value = 0x1_0000_0000;
        } else {
            let v = value * 10 + (b - 48) as u64;
            value = if v > 0xffff_ffff {
                0x1_0000_0000
            } else {
                v
            };
        }
        index += 1;
    }
    assert(s@.subrange(start as int, index as int) =~= d);
    if value > 0xffff_ffff {
        None
    } else {
        Some(value as u32)
    }
}

/// Parses `s` as `str::parse::<i32>` would.
pub fn parse_i32(s: &[u8]) -> (value: Option<i32>)
    ensures
        value == parse_i32_text(s@),
{
    let negative = s.len() > 0 && s[0] == 45;
    let start: usize = if s.len() > 0 && (s[0] == 43 || s[0] == 45) {
        1
    } else {
        0
    };
    let ghost d = s@.skip(start as int);
    assert(negative ==> d =~= s@.skip(1));
    assert(!negative ==> d =~= unsigned_part(s@, 43));
    if start >= s.len() {
        return None;
    }
    let mut value: u64 = 0;
    let mut index: usize = start;
    while index < s.len()
        invariant
            start <= index <= s@.len(),
            d == s@.skip(start as int),
            negative ==> d == s@.skip(1) && s@.len() > 0 && s@[0] == 45,
            !negative ==> d == unsigned_part(s@, 43) && !(s@.len() > 0 && s@[0] == 45),
            all_digits(s@.subrange(start as int, index as int)),
            value == if digits_value(s@.subrange(start as int, index as int)) <= 0x8000_0000 {
                digits_value(s@.subrange(start as int, index as int))
            } else {
                0x8000_0001 as nat
            },
        decreases s@.len() - index,
    {
        let b = s[index];
        if b < 48 || b > 57 {
            assert(d[index - start] == b);
            assert(!is_digit(d[index - start]));
            return None;
        }
        let ghost prefix = s@.subrange(start as int, index as int);
        let ghost next = s@.subrange(start as int, index + 1);
        assert(next.drop_last() =~= prefix);
        assert(all_digits(next)) by {
            assert forall|i: int| 0 <= i < next.len() implies is_digit(#[trigger] next[i]) by {
                if i < prefix.len() {
                    assert(next[i] == prefix[i]);
                }
            }
        }
        if value > 0x8000_0000 {
            value = 0x8000_0001;
        } else {
            let v = value * 10 + (b - 48) as u64;
            value = if v > 0x8000_0000 {
                0x8000_0001
            } else {
                v
            };
        }
        index += 1;
    }
    assert(s@.subrange(start as int, index as int) =~= d);
    if negative {
        assert(d =~= s@.skip(1));
        if value > 0x8000_0000 {
            None
        } else if value == 0x8000_0000 {
            Some(i32::MIN)
        } else {
            Some(-(value as i32))
        }
    } else {
        assert(d =~= unsigned_part(s@, 43));
        if value > 0x7fff_ffff {
            None
        } else {
            Some(value as i32)
        }
    }
}

/// The decimal digits of `n`.
pub fn format_u64(n: u64) -> (text: Vec<u8>)
    ensures
        text@ == decimal(n as nat),
    decreases n,
{
    if n < 10 {
        let mut text = Vec::new();
        text.push((48 + n) as u8);
        assert(text@ =~= decimal(n as nat));
        text
    } else {
        let mut text = format_u64(n / 10);
        text.push((48 + n % 10) as u8);
        text
    }
}

/// The decimal text of `n`, with a `-` before negative numbers.
pub fn format_i64(n: i64) -> (text: Vec<u8>)
    ensures
        text@ == signed_decimal(n as int),
{
    if n < 0 {
        let magnitude: u64 = if n == i64::MIN {
            0x8000_0000_0000_0000
        } else {
            (-n) as u64
        };
        let digits = format_u64(magnitude);
        let mut text = Vec::new();
        text.push(45u8);
        let mut index: usize = 0;
        while index < digits.len()
            invariant
                index <= digits@.len(),
                text@ == seq![45u8] + digits@.take(index as int),
            decreases digits@.len() - index,
        {
            text.push(digits[index]);
            index += 1;
            assert(text@ =~= seq![45u8] + digits@.take(index as int));
        }
        assert(digits@.take(index as int) =~= digits@);
        text
    } else {
        format_u64(n as u64)
    }
}

/// Whether `b` is ASCII white space as `char::is_whitespace` sees it.
pub open spec fn is_space(b: u8) -> bool {
    b == 32 || (9 <= b <= 13)
}

/// The first index at or after `i` that does not hold white space.
pub open spec fn skip_space(s: Seq<u8>, i: int) -> int
    decreases s.len() - i,
{
    if 0 <= i < s.len() && is_space(s[i]) {
        skip_space(s, i + 1)
    } else {
        i
    }
}

/// The first index at or after `i` that holds white space, or the end.
pub open spec fn word_end(s: Seq<u8>, i: int) -> int
    decreases s.len() - i,
{
    if 0 <= i < s.len() && !is_space(s[i]) {
        word_end(s, i + 1)
    } else {
        i
    }
}

pub(crate) proof fn lemma_skip_space(s: Seq<u8>, i: int)
    requires
        0 <= i <= s.len(),
    ensures
        i <= skip_space(s, i) <= s.len(),
        skip_space(s, i) < s.len() ==> !is_space(s[skip_space(s, i)]),
    decreases s.len() - i,
{
    if i < s.len() && is_space(s[i]) {
        lemma_skip_space(s, i + 1);
    }
}

proof fn lemma_word_end(s: Seq<u8>, i: int)
    requires
        0 <= i <= s.len(),
    ensures
        i <= word_end(s, i) <= s.len(),
        i < s.len() && !is_space(s[i]) ==> i < word_end(s, i),
    decreases s.len() - i,
{
    if i < s.len() && !is_space(s[i]) {
        lemma_word_end(s, i + 1);
    }
}

/// The white-space separated words of `s` from index `i` on.
pub open spec fn words_from(s: Seq<u8>, i: int) -> Seq<Seq<u8>>
    decreases s.len() - i,
{
    let start = skip_space(s, i);
    if 0 <= i && i <= start && start < s.len() {
        let end = word_end(s, start);
        if start < end <= s.len() {
            seq![s.subrange(start, end)] + words_from(s, end)
        } else {
            Seq::empty()
        }
    } else {
        Seq::empty()
    }
}

/// The white-space separated words of `s`, as `str::split_whitespace` yields them.
pub open spec fn words(s: Seq<u8>) -> Seq<Seq<u8>> {
    words_from(s, 0)
}

/// Each word parsed as a `u32`, or `None` when one of them is not a `u32`.
pub open spec fn parse_u32_words(ws: Seq<Seq<u8>>) -> Option<Seq<u32>>
    decreases ws.len(),
{
    if ws.len() == 0 {
        Some(Seq::empty())
    } else {
        match (parse_u32_text(ws[0]), parse_u32_words(ws.skip(1))) {
            (Some(v), Some(rest)) => Some(seq![v] + rest),
            _ => None,
        }
    }
}

/// Each word parsed as an `i32`, or `None` when one of them is not an `i32`.
pub open spec fn parse_i32_words(ws: Seq<Seq<u8>>) -> Option<Seq<i32>>
    decreases ws.len(),
{
    if ws.len() == 0 {
        Some(Seq::empty())
    } else {
        match (parse_i32_text(ws[0]), parse_i32_words(ws.skip(1))) {
            (Some(v), Some(rest)) => Some(seq![v] + rest),
            _ => None,
        }
    }
}

/// Finds the next word at or after `i`: its start and end, or `None` when only
/// white space is left.
pub(crate) fn next_word(s: &[u8], i: usize) -> (word: Option<(usize, usize)>)
    requires
        i <= s@.len(),
    ensures
        match word {
            Some((start, end)) => start == skip_space(s@, i as int) && start < s@.len() && end
                == word_end(s@, start as int) && start < end <= s@.len(),
            None => skip_space(s@, i as int) >= s@.len(),
        },
{
    let mut start = i;
    while start < s.len() && (s[start] == 32 || (s[start] >= 9 && s[start] <= 13))
        invariant
            i <= start <= s@.len(),
            skip_space(s@, i as int) == skip_space(s@, start as int),
        decreases s@.len() - start,
    {
        start += 1;
    }
    if start >= s.len() {
        return None;
    }
    let mut end = start;
    while end < s.len() && !(s[end] == 32 || (s[end] >= 9 && s[end] <= 13))
        invariant
            start <= end <= s@.len(),
            word_end(s@, start as int) == word_end(s@, end as int),
        decreases s@.len() - end,
    {
        end += 1;
    }
    proof {
        lemma_word_end(s@, start as int);
    }
    Some((start, end))
}

pub(crate) proof fn lemma_words_step(s: Seq<u8>, i: int, start: int, end: int)
    requires
        0 <= i <= s.len(),
        start == skip_space(s, i),
        start < s.len(),
        end == word_end(s, start),
        start < end,
    ensures
        words_from(s, i) == seq![s.subrange(start, end)] + words_from(s, end),
{
    lemma_skip_space(s, i);
    lemma_word_end(s, start);
}

/// Parses the white-space separated words of `s` as `u32` values.
pub fn parse_vec_u32(s: &[u8]) -> (values: Option<Vec<u32>>)
    ensures
        match parse_u32_words(words(s@)) {
            Some(v) => values matches Some(x) && x@ == v,
            None => values is None,
        },
{
    let mut values: Vec<u32> = Vec::new();
    let mut i: usize = 0;
    loop
        invariant
            i <= s@.len(),
            match parse_u32_words(words_from(s@, i as int)) {
                Some(rest) => parse_u32_words(words(s@)) == Some(values@ + rest),
                None => parse_u32_words(words(s@)) is None,
            },
        decreases s@.len() - i,
    {
        match next_word(s, i) {
            None => {
                proof {
                    lemma_skip_space(s@, i as int);
                    assert(words_from(s@, i as int) =~= Seq::<Seq<u8>>::empty());
                    assert(values@ + Seq::<u32>::empty() =~= values@);
                }
                return Some(values);
            },
            Some((start, end)) => {
                proof {
                    lemma_words_step(s@, i as int, start as int, end as int);
                    let ws = words_from(s@, i as int);
                    assert(ws.skip(1) =~= words_from(s@, end as int));
                }
                let word = &s[start..end];
                match parse_u32(word) {
                    None => {
                        return None;
                    },
                    Some(v) => {
                        proof {
                            if let Some(rest) = parse_u32_words(words_from(s@, end as int)) {
                                assert(values@.push(v) + rest =~= values@ + (seq![v] + rest));
                            }
                        }
                        values.push(v);
                        i = end;
                    },
                }
            },
        }
    }
}

/// Parses the white-space separated words of `s` as `i32` values.
pub fn parse_vec_i32(s: &[u8]) -> (values: Option<Vec<i32>>)
    ensures
        match parse_i32_words(words(s@)) {
            Some(v) => values matches Some(x) && x@ == v,
            None => values is None,
        },
{
    let mut values: Vec<i32> = Vec::new();
    let mut i: usize = 0;
    loop
        invariant
            i <= s@.len(),
            match parse_i32_words(words_from(s@, i as int)) {
                Some(rest) => parse_i32_words(words(s@)) == Some(values@ + rest),
                None => parse_i32_words(words(s@)) is None,
            },
        decreases s@.len() - i,
    {
        match next_word(s, i) {
            None => {
                proof {
                    lemma_skip_space(s@, i as int);
                    assert(words_from(s@, i as int) =~= Seq::<Seq<u8>>::empty());
                    assert(values@ + Seq::<i32>::empty() =~= values@);
                }
                return Some(values);
            },
            Some((start, end)) => {
                proof {
                    lemma_words_step(s@, i as int, start as int, end as int);
                    let ws = words_from(s@, i as int);
                    assert(ws.skip(1) =~= words_from(s@, end as int));
                }
                let word = &s[start..end];
                match parse_i32(word) {
                    None => {
                        return None;
                    },
                    Some(v) => {
                        proof {
                            if let Some(rest) = parse_i32_words(words_from(s@, end as int)) {
                                assert(values@.push(v) + rest =~= values@ + (seq![v] + rest));
                            }
                        }
                        values.push(v);
                        i = end;
                    },
                }
            },
        }
    }
}

} // verus!

verus! {

/// The characters that std's `String::from_utf8_lossy` makes of `bytes`.
pub uninterp spec fn utf8_lossy(bytes: Seq<u8>) -> Seq<char>;

/// Calls std's `String::from_utf8_lossy`. Claimed: the result is the lossy
/// decoding of `bytes`, and bytes that are valid UTF-8 decode unchanged.
#[verifier::external_body]
pub(crate) fn string_from_utf8_lossy(bytes: &[u8]) -> (s: String)
    ensures
        s@ == utf8_lossy(bytes@),
        vstd::utf8::valid_utf8(bytes@) ==> s@ == vstd::utf8::decode_utf8(bytes@),
{
    String::from_utf8_lossy(bytes).into_owned()
}

} // verus!
