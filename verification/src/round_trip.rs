use vstd::prelude::*;

use crate::bytes::{le_bytes, le_bytes_round_trip, length_prefixed, u32_at};
use crate::dict::{ascii_lower, parse_dict, parse_pairs};
use crate::chunk_writers::{rgba_bytes, rgba_content};
use crate::chunks::{place_voxels, rgba_at, voxel_slot, xyzi_voxels};
use crate::writer::{lemma_records_len, model_writable, slot_coords, solid_records};
use crate::types::{count_solid, slot_count, Model};
use crate::scene_writer::{frame_entries, frames_bytes, indexed_concat as concat_pieces, transform_entries, translation_text};
use crate::node_chunks::{frame_from_text, read_frames};
use crate::dict::{dict_value, lookup};
use crate::scene::KeyframeTransform;
use vstd::string::StringSliceAdditionalSpecFns;
use crate::text::{
    decimal, decimal_i32_round_trip, decimal_u32_round_trip, is_space, lemma_decimal_len, parse_i32_text, parse_i32_words,
    signed_decimal, skip_space, word_end, words, words_from,
};
use crate::transform::{transform_from_text, valid_rotation, CardinalTransform};
use crate::writer::{join2, join3};
use crate::chunk_writers::meta_content;
use crate::chunks::anim_range_from_text;
use crate::file_writer::framed;
use crate::reader::header_ok;
use crate::scene_writer::indexed_concat;
use crate::types::{scene_palette_color, Rgba};
use crate::writer::{dict_bytes, lp, pairs_bytes, pairs_fit};

verus! {

/// The `u32` at the start of its little-endian bytes followed by anything is
/// that `u32`.
pub(crate) proof fn lemma_u32_prefix(v: u32, tail: Seq<u8>)
    ensures
        u32_at(le_bytes(v) + tail, 0) == v,
{
    le_bytes_round_trip(v);
    let s = le_bytes(v) + tail;
    assert(s[0] == le_bytes(v)[0] && s[1] == le_bytes(v)[1] && s[2] == le_bytes(v)[2] && s[3] == le_bytes(v)[3]);
}

/// A length-prefixed string followed by anything reads back as that string.
proof fn lemma_lp_read(k: Seq<u8>, tail: Seq<u8>)
    requires
        k.len() <= u32::MAX,
    ensures
        length_prefixed(lp(k) + tail) == Some((k, 4 + k.len() as int)),
        lp(k).len() == 4 + k.len(),
{
    le_bytes_round_trip(k.len() as u32);
    let s = lp(k) + tail;
    assert(s =~= le_bytes(k.len() as u32) + (k + tail));
    lemma_u32_prefix(k.len() as u32, k + tail);
    assert(s.subrange(4, 4 + k.len() as int) =~= k);
}

/// One written pair, followed by anything, reads back as its key and value.
proof fn lemma_pair_read(key: Seq<u8>, value: Seq<u8>, tail: Seq<u8>)
    requires
        key.len() <= u32::MAX,
        value.len() <= u32::MAX,
    ensures
        ({
            let s = lp(key) + lp(value) + tail;
            let a = 4 + key.len() as int;
            let b = 4 + value.len() as int;
            &&& length_prefixed(s) == Some((key, a))
            &&& length_prefixed(s.skip(a)) == Some((value, b))
            &&& s.skip(a + b) == tail
        }),
{
    let s = lp(key) + lp(value) + tail;
    let a = 4 + key.len() as int;
    let b = 4 + value.len() as int;
    let after_key = lp(value) + tail;
    assert(s =~= lp(key) + after_key);
    lemma_lp_read(key, after_key);
    assert(s.skip(a) =~= after_key);
    lemma_lp_read(value, tail);
    assert(s.skip(a + b) =~= tail);
}

/// The pairs of a dictionary, written from the front: the first pair, then the
/// rest.
proof fn lemma_pairs_front(entries: Seq<(Seq<u8>, Seq<u8>)>)
    requires
        entries.len() > 0,
    ensures
        pairs_bytes(entries) == lp(entries[0].0) + lp(entries[0].1) + pairs_bytes(entries.skip(1)),
    decreases entries.len(),
{
    if entries.len() == 1 {
        assert(entries.drop_last() =~= Seq::<(Seq<u8>, Seq<u8>)>::empty());
        assert(entries.skip(1) =~= Seq::<(Seq<u8>, Seq<u8>)>::empty());
        assert(pairs_bytes(entries) =~= lp(entries[0].0) + lp(entries[0].1) + pairs_bytes(entries.skip(1)));
    } else {
        let rest = entries.drop_last();
        lemma_pairs_front(rest);
        assert(rest.skip(1) =~= entries.skip(1).drop_last());
        assert(rest[0] == entries[0]);
        assert(entries.skip(1).last() == entries.last());
        assert(pairs_bytes(entries) =~= lp(entries[0].0) + lp(entries[0].1) + pairs_bytes(entries.skip(1)));
    }
}

/// The entries of a dictionary as reading gives them back: keys in small
/// letters.
pub open spec fn lowered_keys(entries: Seq<(Seq<u8>, Seq<u8>)>) -> Seq<(Seq<u8>, Seq<u8>)> {
    entries.map_values(|e: (Seq<u8>, Seq<u8>)| (ascii_lower(e.0), e.1))
}

/// Written pairs read back as the same pairs, keys in small letters, taking
/// exactly the bytes written.
#[verifier::rlimit(40)]
proof fn lemma_pairs_round_trip(entries: Seq<(Seq<u8>, Seq<u8>)>, tail: Seq<u8>)
    requires
        pairs_fit(entries),
    ensures
        parse_pairs(pairs_bytes(entries) + tail, entries.len()) == Some(
            (lowered_keys(entries), pairs_bytes(entries).len() as int),
        ),
    decreases entries.len(),
{
    if entries.len() == 0 {
        assert(lowered_keys(entries) =~= Seq::<(Seq<u8>, Seq<u8>)>::empty());
    } else {
        let rest = entries.skip(1);
        assert(pairs_fit(rest)) by {
            assert forall|i: int| 0 <= i < rest.len() implies (#[trigger] rest[i]).0.len() <= u32::MAX
                && rest[i].1.len() <= u32::MAX by {
                assert(rest[i] == entries[i + 1]);
            }
        }
        assert(entries[0].0.len() <= u32::MAX && entries[0].1.len() <= u32::MAX);
        lemma_pairs_front(entries);
        lemma_pairs_round_trip(rest, tail);
        let key = entries[0].0;
        let value = entries[0].1;
        let after_value = pairs_bytes(rest) + tail;
        let s = pairs_bytes(entries) + tail;
        assert(s =~= lp(key) + lp(value) + after_value);
        lemma_pair_read(key, value, after_value);
        let a = 4 + key.len() as int;
        let b = 4 + value.len() as int;
        assert(pairs_bytes(entries).len() == a + b + pairs_bytes(rest).len());
        assert(lowered_keys(entries) =~= seq![(ascii_lower(key), value)] + lowered_keys(rest));
    }
}

/// Law: a written dictionary, followed by anything, reads back as its entries
/// with the keys in small letters, and takes exactly the bytes written.
pub proof fn dict_round_trip(entries: Seq<(Seq<u8>, Seq<u8>)>, tail: Seq<u8>)
    requires
        pairs_fit(entries),
    ensures
        parse_dict(dict_bytes(entries) + tail) == Some((lowered_keys(entries), dict_bytes(entries).len() as int)),
{
    let s = dict_bytes(entries) + tail;
    le_bytes_round_trip(entries.len() as u32);
    assert(s =~= le_bytes(entries.len() as u32) + (pairs_bytes(entries) + tail));
    lemma_u32_prefix(entries.len() as u32, pairs_bytes(entries) + tail);
    assert(s.skip(4) =~= pairs_bytes(entries) + tail);
    lemma_pairs_round_trip(entries, tail);
}

/// Byte `t` of piece `j` of a run of four-byte pieces stands at `4 * j + t`.
proof fn lemma_four_byte_piece_at(f: spec_fn(int) -> Seq<u8>, n: nat, j: int, t: int)
    requires
        forall|i: int| 0 <= i < n ==> (#[trigger] f(i)).len() == 4,
        0 <= j < n,
        0 <= t < 4,
    ensures
        indexed_concat(n, f).len() == 4 * n,
        indexed_concat(n, f)[4 * j + t] == f(j)[t],
    decreases n,
{
    lemma_four_byte_len(f, (n - 1) as nat);
    if j < n - 1 {
        lemma_four_byte_piece_at(f, (n - 1) as nat, j, t);
    }
}

/// A run of `n` four-byte pieces takes `4 * n` bytes.
proof fn lemma_four_byte_len(f: spec_fn(int) -> Seq<u8>, n: nat)
    requires
        forall|i: int| 0 <= i < n + 1 ==> (#[trigger] f(i)).len() == 4,
    ensures
        indexed_concat(n, f).len() == 4 * n,
    decreases n,
{
    if n > 0 {
        lemma_four_byte_len(f, (n - 1) as nat);
    }
}

/// The color that reading slot `j` of a written palette chunk gives.
proof fn lemma_rgba_slot(colors: Seq<Rgba>, j: int)
    requires
        colors.len() == 256,
        0 <= j < 256,
    ensures
        rgba_content(colors).len() == 1024,
        rgba_at(rgba_content(colors), 4 * j) == colors[(j + 1) % 256],
{
    let f = |i: int| rgba_bytes(colors[(i + 1) % 256]);
    assert forall|i: int| 0 <= i < 256 implies (#[trigger] f(i)).len() == 4 by {}
    lemma_four_byte_piece_at(f, 256, j, 0);
    lemma_four_byte_piece_at(f, 256, j, 1);
    lemma_four_byte_piece_at(f, 256, j, 2);
    lemma_four_byte_piece_at(f, 256, j, 3);
}

/// The 256 colors that reading the `RGBA` chunk of a palette gives, before the
/// reader moves them up by one slot.
pub open spec fn stored_palette(colors: Seq<Rgba>) -> Seq<Rgba> {
    Seq::new(256, |j: int| rgba_at(rgba_content(colors), 4 * j))
}

/// Law: a palette written as an `RGBA` chunk and read back, with the reading's
/// move of the stored palette up by one slot, gives back every color but that
/// of slot `0`, which comes back with its alpha cleared.
pub proof fn palette_round_trip(colors: Seq<Rgba>)
    requires
        colors.len() == 256,
    ensures
        rgba_content(colors).len() == 1024,
        forall|i: int|
            0 <= i < 256 ==> #[trigger] scene_palette_color(stored_palette(colors), i) == if i == 0 {
                Rgba { a: 0, ..colors[0] }
            } else {
                colors[i]
            },
{
    lemma_rgba_slot(colors, 0);
    let raw = stored_palette(colors);
    assert forall|i: int| 0 <= i < 256 implies #[trigger] scene_palette_color(raw, i) == if i == 0 {
        Rgba { a: 0, ..colors[0] }
    } else {
        colors[i]
    } by {
        if i == 0 {
            lemma_rgba_slot(colors, 255);
        } else {
            lemma_rgba_slot(colors, i - 1);
        }
    }
}

/// The coordinates of a slot lie inside the model, and name that slot again.
proof fn lemma_slot_coords(k: int, sx: int, sy: int, sz: int)
    requires
        0 < sx <= 256,
        0 < sy <= 256,
        0 < sz <= 256,
        0 <= k < sx * sy * sz,
    ensures
        0 <= slot_coords(k, sx, sy).0 < sx,
        0 <= slot_coords(k, sx, sy).1 < sy,
        0 <= slot_coords(k, sx, sy).2 < sz,
        voxel_slot(slot_coords(k, sx, sy).0, slot_coords(k, sx, sy).1, slot_coords(k, sx, sy).2, sx, sy) == k,
{
    let x = k % sx;
    let q = k / sx;
    let y = q % sy;
    let z = q / sy;
    vstd::arithmetic::div_mod::lemma_fundamental_div_mod(k, sx);
    vstd::arithmetic::div_mod::lemma_fundamental_div_mod(q, sy);
    vstd::arithmetic::div_mod::lemma_mod_pos_bound(k, sx);
    vstd::arithmetic::div_mod::lemma_mod_pos_bound(q, sy);
    vstd::arithmetic::div_mod::lemma_div_pos_is_pos(k, sx);
    vstd::arithmetic::div_mod::lemma_div_pos_is_pos(q, sy);
    vstd::arithmetic::div_mod::lemma_div_denominator(k, sx, sy);
    assert(slot_coords(k, sx, sy) == (x, y, z));
    assert(x + y * sx + z * sx * sy == k) by (nonlinear_arith)
        requires
            k == sx * q + x,
            q == sy * z + y,
    ;
    assert(z < sz) by (nonlinear_arith)
        requires
            k == x + y * sx + z * sx * sy,
            0 <= x,
            0 <= y,
            k < sx * sy * sz,
            0 < sx,
            0 < sy,
    ;
}

/// The records of the first `k` slots start the records of the first `m`.
proof fn lemma_records_prefix(v: Seq<u8>, k: int, m: int, sx: int, sy: int)
    requires
        0 <= k <= m,
    ensures
        solid_records(v, k, sx, sy).len() <= solid_records(v, m, sx, sy).len(),
        forall|i: int|
            0 <= i < solid_records(v, k, sx, sy).len() ==> #[trigger] solid_records(v, m, sx, sy)[i]
                == solid_records(v, k, sx, sy)[i],
    decreases m - k,
{
    if k < m {
        lemma_records_prefix(v, k, m - 1, sx, sy);
    }
}

/// The voxels of the first `k` slots of `v`, and zeros after them.
pub open spec fn voxels_upto(v: Seq<u8>, k: int) -> Seq<u8> {
    Seq::new(v.len(), |i: int| if i < k { v[i] } else { 0u8 })
}

/// Placing the records of the solid voxels among the first `k` slots into a
/// grid of zeros gives those slots back.
proof fn lemma_place_upto(v: Seq<u8>, k: int, sx: int, sy: int, sz: int)
    requires
        0 < sx <= 256,
        0 < sy <= 256,
        0 < sz <= 256,
        v.len() == sx * sy * sz,
        0 <= k <= v.len(),
    ensures
        place_voxels(
            Seq::new(v.len(), |i: int| 0u8),
            solid_records(v, v.len() as int, sx, sy),
            count_solid(v.take(k)),
            sx,
            sy,
            sz,
        ) == voxels_upto(v, k),
    decreases k,
{
    let zeros = Seq::new(v.len(), |i: int| 0u8);
    let recs = solid_records(v, v.len() as int, sx, sy);
    if k == 0 {
        assert(v.take(0) =~= Seq::<u8>::empty());
        assert(voxels_upto(v, 0) =~= zeros);
    } else {
        lemma_place_upto(v, k - 1, sx, sy, sz);
        let c = count_solid(v.take(k - 1)) as int;
        assert(v.take(k).drop_last() =~= v.take(k - 1));
        lemma_records_len(v, k - 1, sx, sy);
        lemma_records_len(v, k, sx, sy);
        lemma_records_prefix(v, k, v.len() as int, sx, sy);
        if v[k - 1] != 0 {
            assert(count_solid(v.take(k)) == c + 1);
            let (x, y, z) = slot_coords(k - 1, sx, sy);
            lemma_slot_coords(k - 1, sx, sy, sz);
            let here = solid_records(v, k, sx, sy);
            assert(here == solid_records(v, k - 1, sx, sy) + seq![x as u8, y as u8, z as u8, v[k - 1]]);
            assert(recs[4 * c] == x as u8);
            assert(recs[4 * c + 1] == y as u8);
            assert(recs[4 * c + 2] == z as u8);
            assert(recs[4 * c + 3] == v[k - 1]);
            assert(place_voxels(zeros, recs, (c + 1) as nat, sx, sy, sz) == voxels_upto(v, k - 1).update(k - 1, v[k - 1]));
            assert(voxels_upto(v, k - 1).update(k - 1, v[k - 1]) =~= voxels_upto(v, k));
        } else {
            assert(count_solid(v.take(k)) == c);
            assert(voxels_upto(v, k - 1) =~= voxels_upto(v, k));
        }
    }
}

/// The payload of the `XYZI` chunk of a model: the number of solid voxels, then
/// their records.
pub open spec fn xyzi_payload(m: Model) -> Seq<u8> {
    le_bytes(count_solid(m.voxels@) as u32) + solid_records(m.voxels@, m.voxels@.len() as int, m.size_x as int, m.size_y as int)
}

/// Law: the voxels that reading a written `XYZI` payload gives a model of the
/// written size are the model's voxels.
pub proof fn voxels_round_trip(m: Model)
    requires
        model_writable(m),
    ensures
        xyzi_voxels(xyzi_payload(m), m.size_x, m.size_y, m.size_z) == m.voxels@,
{
    let v = m.voxels@;
    let sx = m.size_x as int;
    let sy = m.size_y as int;
    let sz = m.size_z as int;
    crate::types::lemma_count_solid_bound(v);
    assert(v.len() <= 256 * 256 * 256) by (nonlinear_arith)
        requires
            v.len() == sx * sy * sz,
            0 < sx <= 256,
            0 < sy <= 256,
            0 < sz <= 256,
    ;
    let recs = solid_records(v, v.len() as int, sx, sy);
    lemma_u32_prefix(count_solid(v) as u32, recs);
    assert(xyzi_payload(m).skip(4) =~= recs);
    assert(v.take(v.len() as int) =~= v);
    lemma_place_upto(v, v.len() as int, sx, sy, sz);
    assert(voxels_upto(v, v.len() as int) =~= v);
    assert(slot_count(m.size_x, m.size_y, m.size_z) == v.len());
}

/// Decimal digits are no white space.
proof fn lemma_decimal_no_space(n: nat)
    ensures
        forall|i: int| 0 <= i < decimal(n).len() ==> 48 <= #[trigger] decimal(n)[i] <= 57,
    decreases n,
{
    if n >= 10 {
        lemma_decimal_no_space(n / 10);
        let d = decimal(n);
        assert(d == decimal(n / 10).push((48 + n % 10) as u8));
        assert forall|i: int| 0 <= i < d.len() implies 48 <= #[trigger] d[i] <= 57 by {
            if i < d.len() - 1 {
                assert(d[i] == decimal(n / 10)[i]);
            }
        }
    }
}

/// The text of a signed number is a nonempty run without white space.
proof fn lemma_signed_no_space(n: int)
    ensures
        signed_decimal(n).len() >= 1,
        forall|i: int| 0 <= i < signed_decimal(n).len() ==> !is_space(#[trigger] signed_decimal(n)[i]),
{
    if n < 0 {
        lemma_decimal_no_space((-n) as nat);
        lemma_decimal_len((-n) as nat);
        let s = signed_decimal(n);
        assert forall|i: int| 0 <= i < s.len() implies !is_space(#[trigger] s[i]) by {
            if i > 0 {
                assert(s[i] == decimal((-n) as nat)[i - 1]);
            }
        }
    } else {
        lemma_decimal_no_space(n as nat);
        lemma_decimal_len(n as nat);
    }
}

/// A run without white space that ends at the end or at white space ends a
/// word there.
proof fn lemma_word_end_at(s: Seq<u8>, i: int, e: int)
    requires
        0 <= i <= e <= s.len(),
        forall|k: int| i <= k < e ==> !is_space(#[trigger] s[k]),
        e == s.len() || is_space(s[e]),
    ensures
        word_end(s, i) == e,
    decreases e - i,
{
    if i < e {
        lemma_word_end_at(s, i + 1, e);
    }
}

/// The words of a text from `i` on, where a word without white space starts at
/// `i` and ends at `e`, are that word and the words after it.
proof fn lemma_word_at(s: Seq<u8>, i: int, e: int)
    requires
        0 <= i < e <= s.len(),
        forall|k: int| i <= k < e ==> !is_space(#[trigger] s[k]),
        e == s.len() || is_space(s[e]),
    ensures
        words_from(s, i) == seq![s.subrange(i, e)] + words_from(s, e),
{
    assert(skip_space(s, i) == i);
    lemma_word_end_at(s, i, e);
}

/// One space before a word is skipped.
proof fn lemma_space_before(s: Seq<u8>, j: int)
    requires
        0 <= j,
        j + 1 < s.len(),
        is_space(s[j]),
        !is_space(s[j + 1]),
    ensures
        words_from(s, j) == words_from(s, j + 1),
{
    assert(skip_space(s, j + 1) == j + 1);
    assert(skip_space(s, j) == j + 1);
}

/// Law: three numbers written with single spaces between them split back into
/// their texts.
pub proof fn words_of_join3(a: int, b: int, c: int)
    ensures
        words(join3(signed_decimal(a), signed_decimal(b), signed_decimal(c))) == seq![
            signed_decimal(a),
            signed_decimal(b),
            signed_decimal(c),
        ],
{
    let (x, y, z) = (signed_decimal(a), signed_decimal(b), signed_decimal(c));
    lemma_signed_no_space(a);
    lemma_signed_no_space(b);
    lemma_signed_no_space(c);
    let s = join3(x, y, z);
    let p = x.len() as int;
    let q = p + 1 + y.len();
    let e = q + 1 + z.len();
    assert(s.len() == e);
    assert forall|k: int| 0 <= k < p implies !is_space(#[trigger] s[k]) by {
        assert(s[k] == x[k]);
    }
    assert(s[p] == 32u8);
    lemma_word_at(s, 0, p);
    lemma_space_before(s, p);
    assert forall|k: int| p + 1 <= k < q implies !is_space(#[trigger] s[k]) by {
        assert(s[k] == y[k - p - 1]);
    }
    assert(s[q] == 32u8);
    lemma_word_at(s, p + 1, q);
    lemma_space_before(s, q);
    assert forall|k: int| q + 1 <= k < e implies !is_space(#[trigger] s[k]) by {
        assert(s[k] == z[k - q - 1]);
    }
    lemma_word_at(s, q + 1, e);
    assert(words_from(s, e) =~= Seq::<Seq<u8>>::empty());
    assert(s.subrange(0, p) =~= x);
    assert(s.subrange(p + 1, q) =~= y);
    assert(s.subrange(q + 1, e) =~= z);
    assert(words(s) =~= seq![x, y, z]);
}

/// Law: the `_r` and `_t` texts written for a transform with a valid rotation
/// read back as that transform.
pub proof fn transform_text_round_trip(t: CardinalTransform)
    requires
        valid_rotation(t.rotation),
    ensures
        transform_from_text(Some(decimal(t.rotation as nat)), Some(translation_text(t))) == Some(t),
{
    decimal_u32_round_trip(t.rotation as u32);
    decimal_i32_round_trip(t.tx);
    decimal_i32_round_trip(t.ty);
    decimal_i32_round_trip(t.tz);
    words_of_join3(t.tx as int, t.ty as int, t.tz as int);
    let ws = words(translation_text(t));
    assert(ws.skip(1) =~= seq![signed_decimal(t.ty as int), signed_decimal(t.tz as int)]);
    assert(ws.skip(1).skip(1) =~= seq![signed_decimal(t.tz as int)]);
    assert(ws.skip(1).skip(1).skip(1) =~= Seq::<Seq<u8>>::empty());
    assert(crate::text::parse_i32_words(ws) == Some(seq![t.tx, t.ty, t.tz])) by {
        reveal_with_fuel(crate::text::parse_i32_words, 4);
        assert(seq![t.tx] + (seq![t.ty] + (seq![t.tz] + Seq::<i32>::empty())) =~= seq![t.tx, t.ty, t.tz]);
    }
}

/// The bytes of the keys of a frame dictionary.
proof fn lemma_frame_key_bytes()
    ensures
        "_r".spec_bytes() == seq![95u8, 114u8],
        "_t".spec_bytes() == seq![95u8, 116u8],
        "_f".spec_bytes() == seq![95u8, 102u8],
{
    reveal_strlit("_r");
    vstd::string::is_ascii_spec_bytes("_r");
    assert("_r".spec_bytes() =~= seq![95u8, 114u8]);
    reveal_strlit("_t");
    vstd::string::is_ascii_spec_bytes("_t");
    assert("_t".spec_bytes() =~= seq![95u8, 116u8]);
    reveal_strlit("_f");
    vstd::string::is_ascii_spec_bytes("_f");
    assert("_f".spec_bytes() =~= seq![95u8, 102u8]);
}

/// Keys without capitals stay as they are.
proof fn lemma_lower_keys(a: u8, b: u8)
    requires
        !(65 <= a <= 90),
        !(65 <= b <= 90),
    ensures
        ascii_lower(seq![a, b]) == seq![a, b],
{
    assert(ascii_lower(seq![a, b]) =~= seq![a, b]);
}

/// Looking up a key among entries whose keys are the given two-byte keys.
proof fn lemma_lookup3(e: Seq<(Seq<u8>, Seq<u8>)>, key: Seq<u8>)
    requires
        e.len() == 3,
        e[0].0 == seq![95u8, 114u8],
        e[1].0 == seq![95u8, 116u8],
        e[2].0 == seq![95u8, 102u8],
    ensures
        lookup(e, seq![95u8, 114u8], 3) == Some(e[0].1),
        lookup(e, seq![95u8, 116u8], 3) == Some(e[1].1),
        lookup(e, seq![95u8, 102u8], 3) == Some(e[2].1),
{
    assert(seq![95u8, 114u8] != seq![95u8, 116u8]) by {
        assert(seq![95u8, 114u8][1] != seq![95u8, 116u8][1]);
    }
    assert(seq![95u8, 114u8] != seq![95u8, 102u8]) by {
        assert(seq![95u8, 114u8][1] != seq![95u8, 102u8][1]);
    }
    assert(seq![95u8, 116u8] != seq![95u8, 102u8]) by {
        assert(seq![95u8, 116u8][1] != seq![95u8, 102u8][1]);
    }
    reveal_with_fuel(lookup, 4);
}

/// Looking up a key among entries whose keys are the rotation and translation
/// keys.
proof fn lemma_lookup2(e: Seq<(Seq<u8>, Seq<u8>)>)
    requires
        e.len() == 2,
        e[0].0 == seq![95u8, 114u8],
        e[1].0 == seq![95u8, 116u8],
    ensures
        lookup(e, seq![95u8, 114u8], 2) == Some(e[0].1),
        lookup(e, seq![95u8, 116u8], 2) == Some(e[1].1),
        lookup(e, seq![95u8, 102u8], 2) is None,
{
    assert(seq![95u8, 114u8] != seq![95u8, 116u8]) by {
        assert(seq![95u8, 114u8][1] != seq![95u8, 116u8][1]);
    }
    assert(seq![95u8, 114u8] != seq![95u8, 102u8]) by {
        assert(seq![95u8, 114u8][1] != seq![95u8, 102u8][1]);
    }
    assert(seq![95u8, 116u8] != seq![95u8, 102u8]) by {
        assert(seq![95u8, 116u8][1] != seq![95u8, 102u8][1]);
    }
    reveal_with_fuel(lookup, 3);
}

/// The texts of a transform, and of a keyframe, fit a dictionary, and its keys
/// have no capitals.
proof fn lemma_frame_entries_fit(k: KeyframeTransform, with_frame: bool)
    ensures
        ({
            let entries = if with_frame {
                frame_entries(k)
            } else {
                transform_entries(k.transform)
            };
            &&& pairs_fit(entries)
            &&& lowered_keys(entries) == entries
            &&& entries[0].0 == seq![95u8, 114u8]
            &&& entries[1].0 == seq![95u8, 116u8]
            &&& entries[0].1 == decimal(k.transform.rotation as nat)
            &&& entries[1].1 == translation_text(k.transform)
            &&& with_frame ==> entries.len() == 3 && entries[2].0 == seq![95u8, 102u8] && entries[2].1 == decimal(
                k.frame_index as nat,
            )
            &&& !with_frame ==> entries.len() == 2
        }),
{
    lemma_frame_key_bytes();
    lemma_lower_keys(95, 114);
    lemma_lower_keys(95, 116);
    lemma_lower_keys(95, 102);
    let t = k.transform;
    crate::text::lemma_short_decimals(t.rotation as u32, t.tx);
    crate::text::lemma_short_decimals(k.frame_index, t.ty);
    crate::text::lemma_short_decimals(0, t.tz);
    let entries = if with_frame {
        frame_entries(k)
    } else {
        transform_entries(t)
    };
    assert(lowered_keys(entries) =~= entries);
}

/// The dictionary of a transform, and of a keyframe, read back: its rotation and
/// translation texts, and the keyframe's frame text.
proof fn lemma_frame_dict(k: KeyframeTransform, with_frame: bool, tail: Seq<u8>)
    ensures
        ({
            let entries = if with_frame {
                frame_entries(k)
            } else {
                transform_entries(k.transform)
            };
            &&& parse_dict(dict_bytes(entries) + tail) == Some((entries, dict_bytes(entries).len() as int))
            &&& dict_value(entries, "_r".spec_bytes()) == Some(decimal(k.transform.rotation as nat))
            &&& dict_value(entries, "_t".spec_bytes()) == Some(translation_text(k.transform))
            &&& dict_value(entries, "_f".spec_bytes()) == if with_frame {
                Some(decimal(k.frame_index as nat))
            } else {
                None::<Seq<u8>>
            }
        }),
{
    lemma_frame_key_bytes();
    lemma_lower_keys(95, 114);
    lemma_lower_keys(95, 116);
    lemma_lower_keys(95, 102);
    lemma_frame_entries_fit(k, with_frame);
    let entries = if with_frame {
        frame_entries(k)
    } else {
        transform_entries(k.transform)
    };
    dict_round_trip(entries, tail);
    if with_frame {
        lemma_lookup3(entries, seq![95u8, 114u8]);
    } else {
        lemma_lookup2(entries);
    }
}

/// Law: the frames that a transform node is written with read back as its
/// keyframes, or, without keyframes, as one frame `0` with its static transform;
/// the frame count comes first.
pub proof fn frames_round_trip(t: CardinalTransform, frames: Seq<KeyframeTransform>, tail: Seq<u8>)
    requires
        valid_rotation(t.rotation),
        forall|k: int| 0 <= k < frames.len() ==> valid_rotation((#[trigger] frames[k]).transform.rotation),
        frames.len() <= u32::MAX,
    ensures
        ({
            let s = frames_bytes(t, frames) + tail;
            let count = if frames.len() == 0 {
                1nat
            } else {
                frames.len()
            };
            &&& u32_at(s, 0) == count
            &&& read_frames(s.skip(4), count) == Some(
                Some(
                    (
                        if frames.len() == 0 {
                            seq![KeyframeTransform { frame_index: 0, transform: t }]
                        } else {
                            frames
                        },
                        frames_bytes(t, frames).len() - 4,
                    ),
                ),
            )
        }),
{
    if frames.len() == 0 {
        lemma_static_frame(t, frames, tail);
    } else {
        lemma_keyframes(t, frames, tail);
    }
}

/// Without keyframes, one frame `0` with the static transform reads back.
#[verifier::rlimit(30)]
proof fn lemma_static_frame(t: CardinalTransform, frames: Seq<KeyframeTransform>, tail: Seq<u8>)
    requires
        valid_rotation(t.rotation),
        frames.len() == 0,
    ensures
        ({
            let s = frames_bytes(t, frames) + tail;
            &&& u32_at(s, 0) == 1
            &&& read_frames(s.skip(4), 1) == Some(
                Some((seq![KeyframeTransform { frame_index: 0, transform: t }], frames_bytes(t, frames).len() - 4)),
            )
        }),
{
    let s = frames_bytes(t, frames) + tail;
    let k = KeyframeTransform { frame_index: 0, transform: t };
    let body = dict_bytes(transform_entries(t));
    assert(frames_bytes(t, frames) == le_bytes(1) + body);
    assert(s =~= le_bytes(1) + (body + tail));
    lemma_u32_prefix(1, body + tail);
    assert(s.skip(4) =~= body + tail);
    lemma_frame_dict(k, false, tail);
    transform_text_round_trip(t);
    let e = transform_entries(t);
    let u = s.skip(4);
    assert(u.skip(0) =~= u);
    assert(parse_dict(u.skip(0)) == Some((e, body.len() as int)));
    assert(read_frames(u, 0) == Some(Some((Seq::<KeyframeTransform>::empty(), 0int))));
    assert(transform_from_text(dict_value(e, "_r".spec_bytes()), dict_value(e, "_t".spec_bytes())) == Some(t));
    assert(frame_from_text(dict_value(e, "_f".spec_bytes())) == 0);
    assert(Seq::<KeyframeTransform>::empty().push(k) =~= seq![k]);
}

/// With keyframes, the keyframes read back.
proof fn lemma_keyframes(t: CardinalTransform, frames: Seq<KeyframeTransform>, tail: Seq<u8>)
    requires
        frames.len() > 0,
        forall|k: int| 0 <= k < frames.len() ==> valid_rotation((#[trigger] frames[k]).transform.rotation),
        frames.len() <= u32::MAX,
    ensures
        ({
            let s = frames_bytes(t, frames) + tail;
            &&& u32_at(s, 0) == frames.len()
            &&& read_frames(s.skip(4), frames.len()) == Some(Some((frames, frames_bytes(t, frames).len() - 4)))
        }),
{
    let s = frames_bytes(t, frames) + tail;
    let f = |k: int| dict_bytes(frame_entries(frames[k]));
    let body = concat_pieces(frames.len(), f);
    assert(frames_bytes(t, frames) == le_bytes(frames.len() as u32) + body);
    assert(s =~= le_bytes(frames.len() as u32) + (body + tail));
    lemma_u32_prefix(frames.len() as u32, body + tail);
    assert(s.skip(4) =~= body + tail);
    lemma_frames_prefix(frames, frames.len(), tail);
    assert(frames.take(frames.len() as int) =~= frames);
}

/// The first `c` keyframe dictionaries, followed by anything, read back as the
/// first `c` keyframes.
proof fn lemma_frames_prefix(frames: Seq<KeyframeTransform>, c: nat, tail: Seq<u8>)
    requires
        c <= frames.len(),
        forall|k: int| 0 <= k < frames.len() ==> valid_rotation((#[trigger] frames[k]).transform.rotation),
    ensures
        read_frames(
            concat_pieces(c, |k: int| dict_bytes(frame_entries(frames[k]))) + tail,
            c,
        ) == Some(
            Some((frames.take(c as int), concat_pieces(c, |k: int| dict_bytes(frame_entries(frames[k]))).len() as int)),
        ),
    decreases c,
{
    let f = |k: int| dict_bytes(frame_entries(frames[k]));
    if c == 0 {
        assert(frames.take(0) =~= Seq::<KeyframeTransform>::empty());
    } else {
        let prev = concat_pieces((c - 1) as nat, f);
        let piece = f(c - 1);
        let s = concat_pieces(c, f) + tail;
        assert(s =~= prev + (piece + tail));
        lemma_frames_prefix(frames, (c - 1) as nat, piece + tail);
        assert(s.skip(prev.len() as int) =~= piece + tail);
        let k = frames[c - 1];
        lemma_frame_dict(k, true, tail);
        transform_text_round_trip(k.transform);
        decimal_u32_round_trip(k.frame_index);
        assert(frames.take(c - 1).push(k) =~= frames.take(c as int));
    }
}

/// Law: a file that writing gives, of version 150 or 200, starts with a header
/// that reading accepts, carrying that version, and its chunks start with
/// `MAIN`.
pub proof fn written_header_reads(b: Seq<u8>, version: u32)
    requires
        framed(b, version),
        version == 150 || version == 200,
    ensures
        header_ok(b),
        u32_at(b, 4) == version,
        u32_at(b.skip(8), 0) == 0x4e49414d,
{
    let head = b.take(20);
    le_bytes_round_trip(0x20584f56);
    le_bytes_round_trip(version);
    le_bytes_round_trip(0x4e49414d);
    assert(head.subrange(0, 4) =~= le_bytes(0x20584f56));
    assert(head.subrange(4, 8) =~= le_bytes(version));
    assert(head.subrange(8, 12) =~= le_bytes(0x4e49414d));
    assert(u32_at(b, 0) == u32_at(head.subrange(0, 4), 0));
    assert(u32_at(b, 4) == u32_at(head.subrange(4, 8), 0));
    assert(u32_at(b.skip(8), 0) == u32_at(head.subrange(8, 12), 0));
}

/// Law: two numbers written with a single space between them split back into
/// their texts.
pub proof fn words_of_join2(a: nat, b: nat)
    ensures
        words(join2(decimal(a), decimal(b))) == seq![decimal(a), decimal(b)],
{
    let (x, y) = (decimal(a), decimal(b));
    lemma_signed_no_space(a as int);
    lemma_signed_no_space(b as int);
    let s = join2(x, y);
    let p = x.len() as int;
    let e = p + 1 + y.len();
    assert(s.len() == e);
    assert forall|k: int| 0 <= k < p implies !is_space(#[trigger] s[k]) by {
        assert(s[k] == x[k]);
        assert(x[k] == signed_decimal(a as int)[k]);
    }
    assert(s[p] == 32u8);
    lemma_word_at(s, 0, p);
    lemma_space_before(s, p);
    assert forall|k: int| p + 1 <= k < e implies !is_space(#[trigger] s[k]) by {
        assert(s[k] == y[k - p - 1]);
        assert(y[k - p - 1] == signed_decimal(b as int)[k - p - 1]);
    }
    lemma_word_at(s, p + 1, e);
    assert(words_from(s, e) =~= Seq::<Seq<u8>>::empty());
    assert(s.subrange(0, p) =~= x);
    assert(s.subrange(p + 1, e) =~= y);
    assert(words(s) =~= seq![x, y]);
}

/// The text of an animation range from `a` to `b` reads back as that range.
proof fn lemma_range_text(a: u32, b: u32)
    requires
        a <= b <= 0x7fff_ffff,
    ensures
        anim_range_from_text(join2(decimal(a as nat), decimal(b as nat))) == Some((a, b)),
{
    words_of_join2(a as nat, b as nat);
    decimal_i32_round_trip(a as i32);
    decimal_i32_round_trip(b as i32);
    assert(signed_decimal(a as i32 as int) == decimal(a as nat));
    assert(signed_decimal(b as i32 as int) == decimal(b as nat));
    let ws = seq![decimal(a as nat), decimal(b as nat)];
    let wb = seq![decimal(b as nat)];
    assert(ws.skip(1) =~= wb);
    assert(wb.skip(1) =~= Seq::<Seq<u8>>::empty());
    assert(parse_i32_words(Seq::<Seq<u8>>::empty()) == Some(Seq::<i32>::empty()));
    assert(parse_i32_words(wb) == Some(seq![b as i32])) by {
        assert(seq![b as i32] + Seq::<i32>::empty() =~= seq![b as i32]);
    }
    assert(parse_i32_words(ws) == Some(seq![a as i32, b as i32])) by {
        assert(seq![a as i32] + seq![b as i32] =~= seq![a as i32, b as i32]);
    }
}

/// Law: the metadata chunk that writing gives for an animation range from `a`
/// to `b` holds, under `_anim_range`, a text that reads back as that range.
pub proof fn anim_range_round_trip(a: u32, b: u32)
    requires
        a <= b <= 0x7fff_ffff,
    ensures
        parse_dict(meta_content(a, b)) matches Some((entries, n)) && lookup(
            entries,
            ascii_lower("_anim_range".spec_bytes()),
            entries.len() as int,
        ) == Some(join2(decimal(a as nat), decimal(b as nat))),
        anim_range_from_text(join2(decimal(a as nat), decimal(b as nat))) == Some((a, b)),
{
    let text = join2(decimal(a as nat), decimal(b as nat));
    let entries = seq![("_anim_range".spec_bytes(), text)];
    crate::scene_writer::lemma_meta_keys();
    crate::text::lemma_decimal_len(a as nat);
    crate::text::lemma_decimal_len(b as nat);
    assert(pairs_fit(entries));
    dict_round_trip(entries, Seq::empty());
    assert(dict_bytes(entries) + Seq::<u8>::empty() =~= meta_content(a, b));
    let low = lowered_keys(entries);
    assert(low[0] == (ascii_lower("_anim_range".spec_bytes()), text));
    assert(lookup(low, ascii_lower("_anim_range".spec_bytes()), 1) == Some(text));
    lemma_range_text(a, b);
}

} // verus!
