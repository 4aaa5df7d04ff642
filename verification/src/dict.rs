use vstd::prelude::*;

use crate::bytes::{length_prefixed, u32_at, LimitedReader};
use crate::text::{parse_u32, parse_u32_text};
use crate::types::VoxError;

verus! {

/// `b` with ASCII capitals turned into small letters.
pub open spec fn lower_byte(b: u8) -> u8 {
    if 65 <= b <= 90 {
        (b + 32) as u8
    } else {
        b
    }
}

/// `s` with ASCII capitals turned into small letters.
pub open spec fn ascii_lower(s: Seq<u8>) -> Seq<u8> {
    s.map_values(|b: u8| lower_byte(b))
}

/// `count` key/value pairs of length-prefixed strings at the start of `s`, with
/// the keys in small letters, and the number of bytes they take; `None` when `s`
/// ends first.
pub open spec fn parse_pairs(s: Seq<u8>, count: nat) -> Option<(Seq<(Seq<u8>, Seq<u8>)>, int)>
    decreases count,
{
    if count == 0 {
        Some((Seq::empty(), 0))
    } else {
        match length_prefixed(s) {
            None => None,
            Some((key, a)) => match length_prefixed(s.skip(a)) {
                None => None,
                Some((value, b)) => match parse_pairs(s.skip(a + b), (count - 1) as nat) {
                    None => None,
                    Some((rest, c)) => Some((seq![(ascii_lower(key), value)] + rest, a + b + c)),
                },
            },
        }
    }
}

/// A dictionary at the start of `s`: a `u32` pair count, then the pairs.
pub open spec fn parse_dict(s: Seq<u8>) -> Option<(Seq<(Seq<u8>, Seq<u8>)>, int)> {
    if s.len() < 4 {
        None
    } else {
        match parse_pairs(s.skip(4), u32_at(s, 0) as nat) {
            None => None,
            Some((entries, n)) => Some((entries, 4 + n)),
        }
    }
}

/// The pairs take no more bytes than `s` holds.
pub proof fn lemma_parse_pairs_len(s: Seq<u8>, count: nat)
    ensures
        parse_pairs(s, count) matches Some((e, n)) ==> 0 <= n <= s.len(),
    decreases count,
{
    if count > 0 {
        if let Some((key, a)) = length_prefixed(s) {
            if let Some((value, b)) = length_prefixed(s.skip(a)) {
                lemma_parse_pairs_len(s.skip(a + b), (count - 1) as nat);
            }
        }
    }
}

/// A dictionary takes at least its count word and no more bytes than `s` holds.
pub proof fn lemma_parse_dict_len(s: Seq<u8>)
    ensures
        parse_dict(s) matches Some((e, n)) ==> 4 <= n <= s.len(),
{
    if s.len() >= 4 {
        lemma_parse_pairs_len(s.skip(4), u32_at(s, 0) as nat);
    }
}

/// The value stored under `key` in the first `n` entries: the last one wins.
pub open spec fn lookup(entries: Seq<(Seq<u8>, Seq<u8>)>, key: Seq<u8>, n: int) -> Option<Seq<u8>>
    decreases n,
{
    if n <= 0 {
        None
    } else if entries[n - 1].0 == key {
        Some(entries[n - 1].1)
    } else {
        lookup(entries, key, n - 1)
    }
}

/// The value stored under `key` among `entries`, keys compared without regard
/// to ASCII case.
pub open spec fn dict_value(entries: Seq<(Seq<u8>, Seq<u8>)>, key: Seq<u8>) -> Option<Seq<u8>> {
    lookup(entries, ascii_lower(key), entries.len() as int)
}

/// Key/value text attached to a chunk. Keys are kept in small letters, and a
/// later entry for the same key replaces an earlier one.
pub struct Dict {
    entries: Vec<(Vec<u8>, Vec<u8>)>,
}

impl Dict {
    /// The entries in the order they were read.
    pub closed spec fn view(&self) -> Seq<(Seq<u8>, Seq<u8>)> {
        self.entries@.map_values(|e: (Vec<u8>, Vec<u8>)| (e.0@, e.1@))
    }

    /// The value for `key`, which is given in small letters.
    pub open spec fn spec_get(&self, key: Seq<u8>) -> Option<Seq<u8>> {
        dict_value(self.view(), key)
    }

    /// Reads a dictionary from the payload of a chunk.
    pub fn read(reader: &mut LimitedReader) -> (dict: Result<Self, VoxError>)
        requires
            old(reader).wf(),
        ensures
            final(reader).wf(),
            match parse_dict(old(reader).avail()) {
                Some((entries, n)) => (dict matches Ok(d) && d.view() == entries
                    && final(reader).avail() == old(reader).avail().skip(n)
                    && final(reader).budget() == old(reader).budget() - n),
                None => dict == Err::<Dict, VoxError>(VoxError::UnexpectedEof),
            },
    {
        let ghost s0 = reader.avail();
        let count = reader.read_u32()?;
        let ghost after_count = reader.avail();
        assert(after_count == s0.skip(4));
        let mut entries: Vec<(Vec<u8>, Vec<u8>)> = Vec::new();
        let mut consumed: Ghost<int> = Ghost(4);
        let mut i: u32 = 0;
        while i < count
            invariant
                reader.wf(),
                i <= count,
                count == u32_at(s0, 0),
                s0.len() >= 4,
                0 <= consumed@ <= s0.len(),
                reader.avail() == s0.skip(consumed@),
                reader.budget() == old(reader).budget() - consumed@,
                old(reader).avail() == s0,
                match parse_pairs(reader.avail(), (count - i) as nat) {
                    Some((rest, c)) => parse_dict(s0) == Some(
                        (
                            entries@.map_values(|e: (Vec<u8>, Vec<u8>)| (e.0@, e.1@)) + rest,
                            consumed@ + c,
                        ),
                    ),
                    None => parse_dict(s0) is None,
                },
            decreases count - i,
        {
            let ghost before = reader.avail();
            let key = reader.read_bytes_with_length()?;
            let ghost a = 4 + u32_at(before, 0) as int;
            let value = reader.read_bytes_with_length()?;
            let ghost b = 4 + u32_at(before.skip(a), 0) as int;
            let lowered = lower_bytes(key);
            proof {
                assert(reader.avail() =~= before.skip(a + b));
                assert(before.skip(a).skip(b) =~= before.skip(a + b));
            }
            let value_vec = to_vec(value);
            let ghost old_entries = entries@.map_values(|e: (Vec<u8>, Vec<u8>)| (e.0@, e.1@));
            entries.push((lowered, value_vec));
            proof {
                let new_entries = entries@.map_values(|e: (Vec<u8>, Vec<u8>)| (e.0@, e.1@));
                assert(new_entries =~= old_entries.push((ascii_lower(key@), value@)));
                if let Some((rest, c)) = parse_pairs(reader.avail(), (count - i - 1) as nat) {
                    assert(old_entries + (seq![(ascii_lower(key@), value@)] + rest) =~= new_entries
                        + rest);
                }
                consumed@ = consumed@ + a + b;
            }
            i += 1;
        }
        proof {
            assert(parse_pairs(reader.avail(), 0) == Some((Seq::<(Seq<u8>, Seq<u8>)>::empty(), 0int)));
        }
        let dict = Dict { entries };
        assert(dict.view() =~= entries@.map_values(|e: (Vec<u8>, Vec<u8>)| (e.0@, e.1@)) + Seq::<
            (Seq<u8>, Seq<u8>),
        >::empty());
        Ok(dict)
    }
}

impl Dict {
    /// The value stored under `key`, compared without regard to ASCII case.
    pub fn get(&self, key: &[u8]) -> (value: Option<&Vec<u8>>)
        ensures
            match self.spec_get(key@) {
                Some(v) => value matches Some(x) && x@ == v,
                None => value is None,
            },
    {
        let wanted = lower_bytes(key);
        let mut n: usize = self.entries.len();
        while n > 0
            invariant
                n <= self.entries@.len(),
                self.view().len() == self.entries@.len(),
                wanted@ == ascii_lower(key@),
                self.spec_get(key@) == lookup(self.view(), wanted@, n as int),
            decreases n,
        {
            let entry = &self.entries[n - 1];
            assert(self.view()[n - 1] == (entry.0@, entry.1@));
            if bytes_equal(&entry.0, &wanted) {
                return Some(&entry.1);
            }
            n -= 1;
        }
        None
    }

    /// Whether the value for `key` is the text `1`; `default` when there is none.
    pub fn get_bool(&self, key: &[u8], default: bool) -> (b: bool)
        ensures
            b == match self.spec_get(key@) {
                Some(v) => v == seq![49u8],
                None => default,
            },
    {
        match self.get(key) {
            Some(value) => {
                let b = value.len() == 1 && value[0] == 49;
                assert(b == (value@ =~= seq![49u8]));
                b
            },
            None => default,
        }
    }

    /// The value for `key` parsed as a `u32`; `default` when there is none or it
    /// does not parse.
    pub fn get_u32(&self, key: &[u8], default: u32) -> (v: u32)
        ensures
            v == match self.spec_get(key@) {
                Some(text) => match parse_u32_text(text) {
                    Some(x) => x,
                    None => default,
                },
                None => default,
            },
    {
        match self.get(key) {
            Some(value) => match parse_u32(value.as_slice()) {
                Some(x) => x,
                None => default,
            },
            None => default,
        }
    }
}

/// Whether `a` and `b` hold the same bytes.
pub fn bytes_equal(a: &[u8], b: &[u8]) -> (eq: bool)
    ensures
        eq == (a@ == b@),
{
    if a.len() != b.len() {
        return false;
    }
    let mut index: usize = 0;
    while index < a.len()
        invariant
            index <= a@.len(),
            a@.len() == b@.len(),
            a@.take(index as int) == b@.take(index as int),
        decreases a@.len() - index,
    {
        if a[index] != b[index] {
            return false;
        }
        index += 1;
        assert(a@.take(index as int) =~= a@.take(index - 1).push(a@[index - 1]));
        assert(b@.take(index as int) =~= b@.take(index - 1).push(b@[index - 1]));
    }
    assert(a@.take(index as int) =~= a@);
    assert(b@.take(index as int) =~= b@);
    true
}

/// A copy of `s` with ASCII capitals turned into small letters.
pub(crate) fn lower_bytes(s: &[u8]) -> (lowered: Vec<u8>)
    ensures
        lowered@ == ascii_lower(s@),
{
    let mut lowered: Vec<u8> = Vec::new();
    let mut index: usize = 0;
    while index < s.len()
        invariant
            index <= s@.len(),
            lowered@ == ascii_lower(s@.take(index as int)),
        decreases s@.len() - index,
    {
        let b = s[index];
        lowered.push(if b >= 65 && b <= 90 {
            b + 32
        } else {
            b
        });
        index += 1;
        assert(lowered@ =~= ascii_lower(s@.take(index as int)));
    }
    assert(s@.take(index as int) =~= s@);
    lowered
}

/// A copy of `s`.
pub fn to_vec(s: &[u8]) -> (v: Vec<u8>)
    ensures
        v@ == s@,
{
    let mut v: Vec<u8> = Vec::new();
    let mut index: usize = 0;
    while index < s.len()
        invariant
            index <= s@.len(),
            v@ == s@.take(index as int),
        decreases s@.len() - index,
    {
        v.push(s[index]);
        index += 1;
        assert(v@ =~= s@.take(index as int));
    }
    assert(s@.take(index as int) =~= s@);
    v
}

} // verus!
