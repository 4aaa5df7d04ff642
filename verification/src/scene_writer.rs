use vstd::prelude::*;
use vstd::string::StringSliceAdditionalSpecFns;

use crate::bytes::{le_bytes, ByteWriter, CHUNK_HEADER_LEN};
use crate::dict::to_vec;
use crate::scene::{AnimTransform, Camera, Group, Instance, KeyframeTransform, Material, ScalarText, Scene, Sun};
use crate::text::{decimal, signed_decimal};
use crate::transform::{valid_rotation, CardinalTransform};
use crate::types::{CameraMode, KeyframeModel, Layer, MaterialType, MediaType, Model, Rgba, VoxError};
use crate::writer::{
    chunk_bytes, dict_bytes, entries_view, entry, i32_text, join2, join3, join_three, join_two,
    lemma_finish_chunk, lp, model_bytes, model_writable, pairs_bytes, pairs_fit, u32_text,
    write_dict, write_model,
};

verus! {

/// The bytes `f(0)`, `f(1)`, ... `f(n - 1)`, one after the other.
pub open spec fn indexed_concat(n: nat, f: spec_fn(int) -> Seq<u8>) -> Seq<u8>
    decreases n,
{
    if n == 0 {
        Seq::empty()
    } else {
        indexed_concat((n - 1) as nat, f) + f(n - 1)
    }
}

/// A longer run of pieces is no shorter.
pub proof fn lemma_indexed_concat_grows(f: spec_fn(int) -> Seq<u8>, k: nat, n: nat)
    requires
        k <= n,
    ensures
        indexed_concat(k, f).len() <= indexed_concat(n, f).len(),
    decreases n,
{
    if k < n {
        lemma_indexed_concat_grows(f, k, (n - 1) as nat);
    }
}

/// The UTF-8 bytes of a string.
pub open spec fn string_bytes(s: String) -> Seq<u8> {
    vstd::utf8::encode_utf8(s@)
}

/// Whether an optional name's bytes, when present, fit a `u32` length.
pub open spec fn name_fits(name: Option<String>) -> bool {
    match name {
        Some(s) => string_bytes(s).len() <= u32::MAX,
        None => true,
    }
}

/// The bytes of an optional name.
pub open spec fn opt_name(name: Option<String>) -> Option<Seq<u8>> {
    match name {
        Some(s) => Some(string_bytes(s)),
        None => None,
    }
}

/// The entry `key = 1` when `on` holds, else nothing.
pub open spec fn flag_entry(key: Seq<u8>, on: bool) -> Seq<(Seq<u8>, Seq<u8>)> {
    if on {
        seq![(key, seq![49u8])]
    } else {
        Seq::empty()
    }
}

/// The entry `key = value` when there is a value, else nothing.
pub open spec fn opt_entry(key: Seq<u8>, value: Option<Seq<u8>>) -> Seq<(Seq<u8>, Seq<u8>)> {
    match value {
        Some(v) => seq![(key, v)],
        None => Seq::empty(),
    }
}

/// The text of an optional stored text, or `default` when there is none.
pub open spec fn text_or(text: Option<Vec<u8>>, default: Seq<u8>) -> Seq<u8> {
    match text {
        Some(t) => t@,
        None => default,
    }
}

/// The `_t` text of a transform: its translation as three decimal numbers.
pub open spec fn translation_text(t: CardinalTransform) -> Seq<u8> {
    join3(signed_decimal(t.tx as int), signed_decimal(t.ty as int), signed_decimal(t.tz as int))
}

/// The `_r` and `_t` entries of a transform.
pub open spec fn transform_entries(t: CardinalTransform) -> Seq<(Seq<u8>, Seq<u8>)> {
    seq![("_r".spec_bytes(), decimal(t.rotation as nat)), ("_t".spec_bytes(), translation_text(t))]
}

/// The entries of a transform keyframe: its transform and its frame `_f`.
pub open spec fn frame_entries(k: KeyframeTransform) -> Seq<(Seq<u8>, Seq<u8>)> {
    transform_entries(k.transform).push(("_f".spec_bytes(), decimal(k.frame_index as nat)))
}

/// The layer word of a node: the layer index, or all bits set for none.
pub open spec fn layer_word(layer: Option<usize>) -> u32 {
    match layer {
        Some(i) => i as u32,
        None => 0xffff_ffff,
    }
}

/// What follows the dictionary of a transform node: the child id, a reserved
/// word, the layer word and the frames.
pub open spec fn ntrn_tail(child: u32, layer: Option<usize>, transform: CardinalTransform, frames: Seq<KeyframeTransform>) -> Seq<u8> {
    le_bytes(child) + le_bytes(0xffff_ffff) + le_bytes(layer_word(layer)) + frames_bytes(transform, frames)
}

/// The content of a transform node chunk.
#[verifier::opaque]
pub open spec fn ntrn_content(
    node_id: u32,
    child: u32,
    name: Option<String>,
    hidden: bool,
    transform: CardinalTransform,
    layer: Option<usize>,
    anim: AnimTransform,
) -> Seq<u8> {
    let frames = anim.keyframes@;
    le_bytes(node_id) + dict_bytes(node_entries(name, hidden, anim.looped)) + ntrn_tail(child, layer, transform, frames)
}

/// Whether a node's transforms have valid rotations, and its name, frame count
/// and layer fit the format.
pub open spec fn node_writable(name: Option<String>, transform: CardinalTransform, layer: Option<usize>, anim: AnimTransform) -> bool {
    &&& valid_rotation(transform.rotation)
    &&& forall|k: int| 0 <= k < anim.keyframes@.len() ==> valid_rotation((#[trigger] anim.keyframes@[k]).transform.rotation)
    &&& anim.keyframes@.len() <= u32::MAX
    &&& name_fits(name)
    &&& (layer matches Some(i) ==> i <= u32::MAX)
}

/// The keys of a node dictionary are short, and its flag text is `1`.
pub proof fn lemma_node_keys()
    ensures
        "_name".spec_bytes().len() <= 16,
        "_hidden".spec_bytes().len() <= 16,
        "_loop".spec_bytes().len() <= 16,
        "1".spec_bytes() == seq![49u8],
        "0".spec_bytes() == seq![48u8],
{
    reveal_strlit("_name");
    vstd::string::is_ascii_spec_bytes("_name");
    reveal_strlit("_hidden");
    vstd::string::is_ascii_spec_bytes("_hidden");
    reveal_strlit("_loop");
    vstd::string::is_ascii_spec_bytes("_loop");
    reveal_strlit("1");
    vstd::string::is_ascii_spec_bytes("1");
    reveal_strlit("0");
    vstd::string::is_ascii_spec_bytes("0");
}

/// The keys of a transform dictionary are short.
pub proof fn lemma_transform_keys()
    ensures
        "_r".spec_bytes().len() <= 16,
        "_t".spec_bytes().len() <= 16,
        "_f".spec_bytes().len() <= 16,
{
    reveal_strlit("_r");
    vstd::string::is_ascii_spec_bytes("_r");
    reveal_strlit("_t");
    vstd::string::is_ascii_spec_bytes("_t");
    reveal_strlit("_f");
    vstd::string::is_ascii_spec_bytes("_f");
}

/// The keys of a camera dictionary are short.
pub proof fn lemma_camera_keys()
    ensures
        "_mode".spec_bytes().len() <= 16,
        "_focus".spec_bytes().len() <= 16,
        "_angle".spec_bytes().len() <= 16,
        "_radius".spec_bytes().len() <= 16,
        "_frustum".spec_bytes().len() <= 16,
        "_fov".spec_bytes().len() <= 16,
{
    reveal_strlit("_mode");
    vstd::string::is_ascii_spec_bytes("_mode");
    reveal_strlit("_focus");
    vstd::string::is_ascii_spec_bytes("_focus");
    reveal_strlit("_angle");
    vstd::string::is_ascii_spec_bytes("_angle");
    reveal_strlit("_radius");
    vstd::string::is_ascii_spec_bytes("_radius");
    reveal_strlit("_frustum");
    vstd::string::is_ascii_spec_bytes("_frustum");
    reveal_strlit("_fov");
    vstd::string::is_ascii_spec_bytes("_fov");
}

/// The keys of a sun dictionary are short, and its flag texts are `1` and `0`.
pub proof fn lemma_sun_keys()
    ensures
        "_type".spec_bytes().len() <= 16,
        "_inf".spec_bytes().len() <= 16,
        "_i".spec_bytes().len() <= 16,
        "_area".spec_bytes().len() <= 16,
        "_angle".spec_bytes().len() <= 16,
        "_k".spec_bytes().len() <= 16,
        "_disk".spec_bytes().len() <= 16,
        "1".spec_bytes() == seq![49u8],
        "0".spec_bytes() == seq![48u8],
{
    reveal_strlit("_type");
    vstd::string::is_ascii_spec_bytes("_type");
    reveal_strlit("_inf");
    vstd::string::is_ascii_spec_bytes("_inf");
    reveal_strlit("_i");
    vstd::string::is_ascii_spec_bytes("_i");
    reveal_strlit("_area");
    vstd::string::is_ascii_spec_bytes("_area");
    reveal_strlit("_angle");
    vstd::string::is_ascii_spec_bytes("_angle");
    reveal_strlit("_k");
    vstd::string::is_ascii_spec_bytes("_k");
    reveal_strlit("_disk");
    vstd::string::is_ascii_spec_bytes("_disk");
    reveal_strlit("1");
    vstd::string::is_ascii_spec_bytes("1");
    reveal_strlit("0");
    vstd::string::is_ascii_spec_bytes("0");
}

/// The keys of a material dictionary are short.
pub proof fn lemma_material_keys()
    ensures
        "_type".spec_bytes().len() <= 16,
        "_media_type".spec_bytes().len() <= 16,
        "_metal".spec_bytes().len() <= 16,
        "_rough".spec_bytes().len() <= 16,
        "_spec".spec_bytes().len() <= 16,
        "_ior".spec_bytes().len() <= 16,
        "_ri".spec_bytes().len() <= 16,
        "_att".spec_bytes().len() <= 16,
        "_flux".spec_bytes().len() <= 16,
        "_emit".spec_bytes().len() <= 16,
        "_ldr".spec_bytes().len() <= 16,
        "_trans".spec_bytes().len() <= 16,
        "_alpha".spec_bytes().len() <= 16,
        "_d".spec_bytes().len() <= 16,
        "_sp".spec_bytes().len() <= 16,
        "_g".spec_bytes().len() <= 16,
        "_media".spec_bytes().len() <= 16,
{
    reveal_strlit("_type");
    vstd::string::is_ascii_spec_bytes("_type");
    reveal_strlit("_media_type");
    vstd::string::is_ascii_spec_bytes("_media_type");
    reveal_strlit("_metal");
    vstd::string::is_ascii_spec_bytes("_metal");
    reveal_strlit("_rough");
    vstd::string::is_ascii_spec_bytes("_rough");
    reveal_strlit("_spec");
    vstd::string::is_ascii_spec_bytes("_spec");
    reveal_strlit("_ior");
    vstd::string::is_ascii_spec_bytes("_ior");
    reveal_strlit("_ri");
    vstd::string::is_ascii_spec_bytes("_ri");
    reveal_strlit("_att");
    vstd::string::is_ascii_spec_bytes("_att");
    reveal_strlit("_flux");
    vstd::string::is_ascii_spec_bytes("_flux");
    reveal_strlit("_emit");
    vstd::string::is_ascii_spec_bytes("_emit");
    reveal_strlit("_ldr");
    vstd::string::is_ascii_spec_bytes("_ldr");
    reveal_strlit("_trans");
    vstd::string::is_ascii_spec_bytes("_trans");
    reveal_strlit("_alpha");
    vstd::string::is_ascii_spec_bytes("_alpha");
    reveal_strlit("_d");
    vstd::string::is_ascii_spec_bytes("_d");
    reveal_strlit("_sp");
    vstd::string::is_ascii_spec_bytes("_sp");
    reveal_strlit("_g");
    vstd::string::is_ascii_spec_bytes("_g");
    reveal_strlit("_media");
    vstd::string::is_ascii_spec_bytes("_media");
}

/// The keys of a layer dictionary are short, and its flag text is `1`.
pub proof fn lemma_layer_keys()
    ensures
        "_name".spec_bytes().len() <= 16,
        "_hidden".spec_bytes().len() <= 16,
        "_color".spec_bytes().len() <= 16,
        "1".spec_bytes() == seq![49u8],
        "0".spec_bytes() == seq![48u8],
{
    reveal_strlit("_name");
    vstd::string::is_ascii_spec_bytes("_name");
    reveal_strlit("_hidden");
    vstd::string::is_ascii_spec_bytes("_hidden");
    reveal_strlit("_color");
    vstd::string::is_ascii_spec_bytes("_color");
    reveal_strlit("1");
    vstd::string::is_ascii_spec_bytes("1");
    reveal_strlit("0");
    vstd::string::is_ascii_spec_bytes("0");
}

/// The key of the metadata dictionary is short.
pub proof fn lemma_meta_keys()
    ensures
        "_anim_range".spec_bytes().len() <= 16,
{
    reveal_strlit("_anim_range");
    vstd::string::is_ascii_spec_bytes("_anim_range");
}

/// The name, hidden and loop entries of a node's dictionary.
pub open spec fn node_entries(name: Option<String>, hidden: bool, looped: bool) -> Seq<(Seq<u8>, Seq<u8>)> {
    opt_entry("_name".spec_bytes(), opt_name(name)) + flag_entry("_hidden".spec_bytes(), hidden) + flag_entry(
        "_loop".spec_bytes(),
        looped,
    )
}

/// The frames part of a transform node: one frame with the static transform, or
/// the keyframes.
pub open spec fn frames_bytes(transform: CardinalTransform, frames: Seq<KeyframeTransform>) -> Seq<u8> {
    if frames.len() == 0 {
        le_bytes(1) + dict_bytes(transform_entries(transform))
    } else {
        le_bytes(frames.len() as u32) + indexed_concat(frames.len(), |k: int| dict_bytes(frame_entries(frames[k])))
    }
}

/// Writes the dictionary of a node: its name, and flags for hidden and looping.
fn write_node_dict(writer: &mut ByteWriter, name: &Option<String>, hidden: bool, looped: bool) -> (r: Result<(), VoxError>)
    ensures
        old(writer).bytes().len() <= final(writer).bytes().len(),
        name_fits(*name) ==> r is Ok && final(writer).bytes()
            == old(writer).bytes() + dict_bytes(node_entries(*name, hidden, looped)),
        r is Err ==> r->Err_0 is InvalidData,
{
    proof {
        lemma_node_keys();
    }
    let mut entries: Vec<(Vec<u8>, Vec<u8>)> = Vec::new();
    match name {
        Some(s) => {
            let text = to_vec(s.as_str().as_bytes());
            assert(text@ == string_bytes(*s));
            entries.push(entry("_name", text));
        },
        None => {},
    }
    assert(entries_view(entries@) =~= opt_entry("_name".spec_bytes(), opt_name(*name)));
    let ghost e1 = entries_view(entries@);
    if hidden {
        entries.push(entry("_hidden", to_vec("1".as_bytes())));
    }
    assert(entries_view(entries@) =~= e1 + flag_entry("_hidden".spec_bytes(), hidden));
    let ghost e2 = entries_view(entries@);
    if looped {
        entries.push(entry("_loop", to_vec("1".as_bytes())));
    }
    assert(entries_view(entries@) =~= e2 + flag_entry("_loop".spec_bytes(), looped));
    assert(entries_view(entries@) =~= node_entries(*name, hidden, looped));
    proof {
        let v = entries_view(entries@);
        if name_fits(*name) {
            assert forall|i: int| 0 <= i < v.len() implies (#[trigger] v[i]).0.len() <= u32::MAX && v[i].1.len()
                <= u32::MAX by {}
        }
    }
    write_dict(writer, &entries)
}

/// Writes the frames part of a transform node.
fn write_frames(writer: &mut ByteWriter, transform: CardinalTransform, frames: &Vec<KeyframeTransform>) -> (r: Result<(), VoxError>)
    ensures
        old(writer).bytes().len() <= final(writer).bytes().len(),
        valid_rotation(transform.rotation) && (forall|k: int|
            0 <= k < frames@.len() ==> valid_rotation((#[trigger] frames@[k]).transform.rotation))
            && frames@.len() <= u32::MAX ==> r is Ok && final(writer).bytes() == old(writer).bytes()
            + frames_bytes(transform, frames@),
        r is Err ==> r->Err_0 is InvalidData,
{
    if frames.len() == 0 {
        writer.write_u32(1);
        return write_transform_dict(writer, transform, None);
    }
    if frames.len() > 0xffff_ffff {
        return Err(VoxError::InvalidData("value exceeds u32".to_string()));
    }
    let ghost ok = valid_rotation(transform.rotation) && (forall|k: int|
        0 <= k < frames@.len() ==> valid_rotation((#[trigger] frames@[k]).transform.rotation));
    writer.write_u32(frames.len() as u32);
    let ghost f = |k: int| dict_bytes(frame_entries(frames@[k]));
    let ghost head = writer.bytes();
    let mut k: usize = 0;
    while k < frames.len()
        invariant
            k <= frames@.len(),
            f == (|k: int| dict_bytes(frame_entries(frames@[k]))),
            ok ==> forall|j: int| 0 <= j < frames@.len() ==> valid_rotation((#[trigger] frames@[j]).transform.rotation),
            ok ==> writer.bytes() == head + indexed_concat(k as nat, f),
            old(writer).bytes().len() <= writer.bytes().len(),
        decreases frames@.len() - k,
    {
        match write_transform_dict(writer, frames[k].transform, Some(frames[k].frame_index)) {
            Ok(()) => {},
            Err(e) => {
                return Err(e);
            },
        }
        proof {
            if ok {
                assert(frames@[k as int] == (KeyframeTransform {
                    frame_index: frames@[k as int].frame_index,
                    transform: frames@[k as int].transform,
                }));
            }
        }
        k += 1;
    }
    Ok(())
}

/// Writes what follows the dictionary of a transform node.
fn write_ntrn_tail(
    writer: &mut ByteWriter,
    child: u32,
    layer: Option<usize>,
    transform: CardinalTransform,
    frames: &Vec<KeyframeTransform>,
) -> (r: Result<(), VoxError>)
    ensures
        old(writer).bytes().len() <= final(writer).bytes().len(),
        valid_rotation(transform.rotation) && (forall|k: int|
            0 <= k < frames@.len() ==> valid_rotation((#[trigger] frames@[k]).transform.rotation))
            && frames@.len() <= u32::MAX && (layer matches Some(i) ==> i <= u32::MAX) ==> r is Ok
            && final(writer).bytes() == old(writer).bytes() + ntrn_tail(child, layer, transform, frames@),
        r is Err ==> r->Err_0 is InvalidData,
{
    writer.write_u32(child);
    writer.write_u32(0xffff_ffff);
    let word: u32 = match layer {
        Some(i) => {
            if i > 0xffff_ffff {
                return Err(VoxError::InvalidData("index exceeds u32".to_string()));
            }
            i as u32
        },
        None => 0xffff_ffff,
    };
    writer.write_u32(word);
    let r = write_frames(writer, transform, frames);
    proof {
        if valid_rotation(transform.rotation) && (forall|k: int|
            0 <= k < frames@.len() ==> valid_rotation((#[trigger] frames@[k]).transform.rotation))
            && frames@.len() <= u32::MAX {
            assert(writer.bytes() =~= old(writer).bytes() + ntrn_tail(child, layer, transform, frames@));
        }
    }
    r
}

/// Writes a transform node chunk.
#[verifier::rlimit(30)]
pub(crate) fn write_ntrn(
    writer: &mut ByteWriter,
    node_id: u32,
    child: u32,
    name: &Option<String>,
    hidden: bool,
    transform: CardinalTransform,
    layer: Option<usize>,
    anim: &AnimTransform,
) -> (r: Result<(), VoxError>)
    ensures
        old(writer).bytes().len() <= final(writer).bytes().len(),
        node_writable(*name, transform, layer, *anim) && ntrn_content(node_id, child, *name, hidden, transform, layer, *anim).len()
            <= u32::MAX ==> r is Ok && final(writer).bytes() == old(writer).bytes() + chunk_bytes(
            0x4e52546e,
            ntrn_content(node_id, child, *name, hidden, transform, layer, *anim),
        ),
        r is Err ==> r->Err_0 is InvalidData || r->Err_0 is FileTooLarge,
{
    let ghost start = writer.bytes();
    let ghost content = ntrn_content(node_id, child, *name, hidden, transform, layer, *anim);
    let offset = writer.begin_chunk(0x4e52546e);
    writer.write_u32(node_id);
    let ghost b2 = writer.bytes();
    match write_node_dict(writer, name, hidden, anim.looped) {
        Ok(()) => {},
        Err(e) => {
            return Err(e);
        },
    }
    let ghost b3 = writer.bytes();
    match write_ntrn_tail(writer, child, layer, transform, &anim.keyframes) {
        Ok(()) => {},
        Err(e) => {
            return Err(e);
        },
    }
    proof {
        if node_writable(*name, transform, layer, *anim) && content.len() <= u32::MAX {
            reveal(ntrn_content);
            assert(writer.bytes() =~= start + le_bytes(0x4e52546e) + le_bytes(0) + le_bytes(0) + content);
            lemma_finish_chunk(start, 0x4e52546e, content);
        }
    }
    match writer.finish_chunk(offset) {
        Ok(()) => {},
        Err(e) => {
            return Err(e);
        },
    }
    Ok(())
}

/// Writes the dictionary of a transform, with the frame when there is one.
fn write_transform_dict(writer: &mut ByteWriter, t: CardinalTransform, frame: Option<u32>) -> (r: Result<(), VoxError>)
    ensures
        old(writer).bytes().len() <= final(writer).bytes().len(),
        valid_rotation(t.rotation) ==> r is Ok && final(writer).bytes() == old(writer).bytes() + dict_bytes(
            match frame {
                Some(f) => frame_entries(KeyframeTransform { frame_index: f, transform: t }),
                None => transform_entries(t),
            },
        ),
        r is Err ==> r->Err_0 is InvalidData,
{
    if !(t.rotation % 4 < 3 && (t.rotation / 4) % 4 < 3 && t.rotation % 4 != (t.rotation / 4) % 4
        && t.rotation < 128) {
        return Err(VoxError::InvalidData("transform rows are not orthogonal cardinal axes".to_string()));
    }
    let mut entries: Vec<(Vec<u8>, Vec<u8>)> = Vec::new();
    entries.push(entry("_r", u32_text(t.rotation as u32)));
    entries.push(entry("_t", join_three(i32_text(t.tx), i32_text(t.ty), i32_text(t.tz))));
    match frame {
        Some(f) => {
            entries.push(entry("_f", u32_text(f)));
        },
        None => {},
    }
    let ghost expected = match frame {
        Some(f) => frame_entries(KeyframeTransform { frame_index: f, transform: t }),
        None => transform_entries(t),
    };
    assert(entries_view(entries@) =~= expected);
    proof {
        crate::text::lemma_short_decimals(t.rotation as u32, t.tx);
        crate::text::lemma_short_decimals(0, t.ty);
        crate::text::lemma_short_decimals(0, t.tz);
        if let Some(f) = frame {
            crate::text::lemma_short_decimals(f, 0);
        }
        lemma_transform_keys();
        assert forall|i: int| 0 <= i < expected.len() implies (#[trigger] expected[i]).0.len() <= u32::MAX
            && expected[i].1.len() <= u32::MAX by {
            if i == 0 {
                assert(expected[i].1 == decimal(t.rotation as nat));
            } else if i == 1 {
                assert(expected[i].1 == translation_text(t));
            }
        }
    }
    write_dict(writer, &entries)
}

/// The transform node ids of the groups among the first `k` whose parent is
/// group `g`: a group's transform node id is its index.
pub open spec fn child_group_ids(groups: Seq<Group>, g: int, k: nat) -> Seq<u32>
    decreases k,
{
    if k == 0 {
        Seq::empty()
    } else {
        let before = child_group_ids(groups, g, (k - 1) as nat);
        if groups[k - 1].parent_group_index == Some(g as usize) {
            before.push((k - 1) as u32)
        } else {
            before
        }
    }
}

/// The transform node ids of the instances among the first `k` that lie in
/// group `g`: an instance's transform node id is `base` plus its index.
pub open spec fn child_instance_ids(instances: Seq<Instance>, g: int, base: int, k: nat) -> Seq<u32>
    decreases k,
{
    if k == 0 {
        Seq::empty()
    } else {
        let before = child_instance_ids(instances, g, base, (k - 1) as nat);
        if instances[k - 1].group_index == Some(g as usize) {
            before.push((base + k - 1) as u32)
        } else {
            before
        }
    }
}

/// Little-endian `u32` values, one after the other.
pub open spec fn u32s_bytes(s: Seq<u32>) -> Seq<u8>
    decreases s.len(),
{
    if s.len() == 0 {
        Seq::empty()
    } else {
        u32s_bytes(s.drop_last()) + le_bytes(s.last())
    }
}

/// The content of a group node chunk.
#[verifier::opaque]
pub open spec fn ngrp_content(node_id: u32, hidden: bool, children: Seq<u32>) -> Seq<u8> {
    le_bytes(node_id) + dict_bytes(flag_entry("_hidden".spec_bytes(), hidden)) + le_bytes(children.len() as u32)
        + u32s_bytes(children)
}

/// The children of group `g`: its child groups' transform nodes, then its
/// instances' transform nodes, whose ids start at `base`.
pub open spec fn group_children(groups: Seq<Group>, instances: Seq<Instance>, g: int, base: int) -> Seq<u32> {
    child_group_ids(groups, g, groups.len()) + child_instance_ids(instances, g, base, instances.len())
}

/// A list has no more entries than it picks from.
proof fn lemma_child_ids_len(groups: Seq<Group>, instances: Seq<Instance>, g: int, base: int, k: nat, m: nat)
    requires
        k <= groups.len(),
        m <= instances.len(),
    ensures
        child_group_ids(groups, g, k).len() <= k,
        child_instance_ids(instances, g, base, m).len() <= m,
    decreases k + m,
{
    if k > 0 {
        lemma_child_ids_len(groups, instances, g, base, (k - 1) as nat, m);
    }
    if m > 0 {
        lemma_child_ids_len(groups, instances, g, base, k, (m - 1) as nat);
    }
}

/// Writes a group node chunk for group `g`.
pub(crate) fn write_ngrp(
    writer: &mut ByteWriter,
    node_id: u32,
    g: usize,
    groups: &Vec<Group>,
    instances: &Vec<Instance>,
    base: u32,
) -> (r: Result<(), VoxError>)
    requires
        groups@.len() + instances@.len() <= u32::MAX,
        base + instances@.len() <= u32::MAX,
        g < groups@.len(),
    ensures
        old(writer).bytes().len() <= final(writer).bytes().len(),
        ngrp_content(node_id, groups@[g as int].hidden, group_children(groups@, instances@, g as int, base as int)).len()
            <= u32::MAX ==> r is Ok && final(writer).bytes() == old(writer).bytes() + chunk_bytes(
            0x5052476e,
            ngrp_content(node_id, groups@[g as int].hidden, group_children(groups@, instances@, g as int, base as int)),
        ),
        r is Err ==> r->Err_0 is InvalidData || r->Err_0 is FileTooLarge,
{
    let mut children: Vec<u32> = Vec::new();
    let mut k: usize = 0;
    while k < groups.len()
        invariant
            k <= groups@.len(),
            groups@.len() + instances@.len() <= u32::MAX,
            children@ == child_group_ids(groups@, g as int, k as nat),
        decreases groups@.len() - k,
    {
        if groups[k].parent_group_index == Some(g) {
            children.push(k as u32);
        }
        k += 1;
    }
    let ghost group_ids = children@;
    let mut k: usize = 0;
    while k < instances.len()
        invariant
            k <= instances@.len(),
            base + instances@.len() <= u32::MAX,
            children@ == group_ids + child_instance_ids(instances@, g as int, base as int, k as nat),
        decreases instances@.len() - k,
    {
        if instances[k].group_index == Some(g) {
            children.push(base + k as u32);
        }
        k += 1;
    }
    proof {
        lemma_child_ids_len(groups@, instances@, g as int, base as int, groups@.len(), instances@.len());
        assert(children@ == group_children(groups@, instances@, g as int, base as int));
    }
    let ghost start = writer.bytes();
    let ghost content = ngrp_content(node_id, groups@[g as int].hidden, children@);
    let offset = writer.begin_chunk(0x5052476e);
    writer.write_u32(node_id);
    match write_node_dict(writer, &None, groups[g].hidden, false) {
        Ok(()) => {},
        Err(e) => {
            return Err(e);
        },
    }
    writer.write_u32(children.len() as u32);
    let ghost head = writer.bytes();
    let mut k: usize = 0;
    while k < children.len()
        invariant
            k <= children@.len(),
            writer.bytes() == head + u32s_bytes(children@.take(k as int)),
        decreases children@.len() - k,
    {
        writer.write_u32(children[k]);
        k += 1;
        assert(children@.take(k as int).drop_last() =~= children@.take(k - 1));
    }
    proof {
        assert(children@.take(k as int) =~= children@);
        if content.len() <= u32::MAX {
            reveal(ngrp_content);
            assert(node_entries(None, groups@[g as int].hidden, false) =~= flag_entry("_hidden".spec_bytes(), groups@[g as int].hidden));
            assert(writer.bytes() =~= start + le_bytes(0x5052476e) + le_bytes(0) + le_bytes(0) + content);
            lemma_finish_chunk(start, 0x5052476e, content);
        }
    }
    match writer.finish_chunk(offset) {
        Ok(()) => {},
        Err(e) => {
            return Err(e);
        },
    }
    Ok(())
}

/// The content of a shape node chunk for an instance: its model, or its model
/// keyframes with their frames.
#[verifier::opaque]
pub open spec fn nshp_content(node_id: u32, inst: Instance) -> Seq<u8> {
    let kf = inst.model_anim.keyframes@;
    le_bytes(node_id) + dict_bytes(flag_entry("_loop".spec_bytes(), inst.model_anim.looped)) + if kf.len() == 0 {
        le_bytes(1) + le_bytes(inst.model_index as u32) + le_bytes(0)
    } else {
        le_bytes(kf.len() as u32) + indexed_concat(
            kf.len(),
            |k: int| le_bytes(kf[k].model_index as u32) + dict_bytes(seq![("_f".spec_bytes(), decimal(kf[k].frame_index as nat))]),
        )
    }
}

/// Whether an instance's model indices and keyframe count fit a `u32`.
pub open spec fn shape_writable(inst: Instance) -> bool {
    &&& inst.model_index <= u32::MAX
    &&& inst.model_anim.keyframes@.len() <= u32::MAX
    &&& forall|k: int|
        0 <= k < inst.model_anim.keyframes@.len() ==> (#[trigger] inst.model_anim.keyframes@[k]).model_index
            <= u32::MAX
}

/// Writes the shape node chunk of an instance.
pub(crate) fn write_nshp(writer: &mut ByteWriter, node_id: u32, inst: &Instance) -> (r: Result<(), VoxError>)
    ensures
        old(writer).bytes().len() <= final(writer).bytes().len(),
        shape_writable(*inst) && nshp_content(node_id, *inst).len() <= u32::MAX ==> r is Ok
            && final(writer).bytes() == old(writer).bytes() + chunk_bytes(0x5048536e, nshp_content(node_id, *inst)),
        r is Err ==> r->Err_0 is InvalidData || r->Err_0 is FileTooLarge,
{
    let ghost start = writer.bytes();
    let ghost content = nshp_content(node_id, *inst);
    let ghost ok = shape_writable(*inst) && content.len() <= u32::MAX;
    let offset = writer.begin_chunk(0x5048536e);
    writer.write_u32(node_id);
    match write_node_dict(writer, &None, false, inst.model_anim.looped) {
        Ok(()) => {},
        Err(e) => {
            return Err(e);
        },
    }
    let ghost dict_end = writer.bytes();
    let kf = &inst.model_anim.keyframes;
    if kf.len() == 0 {
        if inst.model_index > 0xffff_ffff {
            return Err(VoxError::InvalidData("value exceeds u32".to_string()));
        }
        writer.write_u32(1);
        writer.write_u32(inst.model_index as u32);
        writer.write_u32(0);
    } else {
        if kf.len() > 0xffff_ffff {
            return Err(VoxError::InvalidData("value exceeds u32".to_string()));
        }
        writer.write_u32(kf.len() as u32);
        let ghost f = |k: int| le_bytes(kf@[k].model_index as u32) + dict_bytes(seq![("_f".spec_bytes(), decimal(kf@[k].frame_index as nat))]);
        let ghost head = writer.bytes();
        let mut k: usize = 0;
        while k < kf.len()
            invariant
                k <= kf@.len(),
                f == (|k: int| le_bytes(kf@[k].model_index as u32) + dict_bytes(seq![("_f".spec_bytes(), decimal(kf@[k].frame_index as nat))])),
                ok ==> shape_writable(*inst),
                kf@ == inst.model_anim.keyframes@,
                ok ==> writer.bytes() == head + indexed_concat(k as nat, f),
                start == old(writer).bytes(),
                start.len() <= writer.bytes().len(),
                offset + CHUNK_HEADER_LEN <= writer.bytes().len(),
                start.len() == offset,
            decreases kf@.len() - k,
        {
            let model_index = kf[k].model_index;
            if model_index > 0xffff_ffff {
                return Err(VoxError::InvalidData("value exceeds u32".to_string()));
            }
            writer.write_u32(model_index as u32);
            let mut entries: Vec<(Vec<u8>, Vec<u8>)> = Vec::new();
            entries.push(entry("_f", u32_text(kf[k].frame_index)));
            proof {
                lemma_transform_keys();
                crate::text::lemma_short_decimals(kf@[k as int].frame_index, 0);
                assert(entries_view(entries@) =~= seq![("_f".spec_bytes(), decimal(kf@[k as int].frame_index as nat))]);
                let v = entries_view(entries@);
                assert forall|i: int| 0 <= i < v.len() implies (#[trigger] v[i]).0.len() <= u32::MAX && v[i].1.len()
                    <= u32::MAX by {}
            }
            match write_dict(writer, &entries) {
                Ok(()) => {},
                Err(e) => {
                    return Err(e);
                },
            }
            k += 1;
        }
    }
    proof {
        if ok {
            reveal(nshp_content);
            assert(node_entries(None, false, inst.model_anim.looped) =~= flag_entry("_loop".spec_bytes(), inst.model_anim.looped));
            assert(writer.bytes() =~= start + le_bytes(0x5048536e) + le_bytes(0) + le_bytes(0) + content);
            lemma_finish_chunk(start, 0x5048536e, content);
        }
    }
    match writer.finish_chunk(offset) {
        Ok(()) => {},
        Err(e) => {
            return Err(e);
        },
    }
    Ok(())
}

} // verus!
