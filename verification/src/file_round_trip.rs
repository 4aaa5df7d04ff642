use vstd::prelude::*;

use crate::bytes::{le_bytes, le_bytes_round_trip, u32_at};
use crate::chunk_writers::{layr_content, matl_content, meta_content, note_content, rcam_content, rgba_content, sun_entries};
use crate::chunks::ReadState;
use crate::file_writer::{
    file_bytes, group_ntrn_chunk, instance_ntrn_chunk, main_children, matl_chunk, meta_part, ngrp_chunk, nodes_part, nshp_chunk,
    settings_part, tables_part, write_version,
};
use crate::scene_writer::{group_children, ngrp_content, nshp_content, ntrn_content};
use crate::read::{
    CHUNK_ID_IMAP, CHUNK_ID_MAIN, CHUNK_ID_MATL, CHUNK_ID_META, CHUNK_ID_NGRP, CHUNK_ID_NSHP, CHUNK_ID_NTRN, CHUNK_ID_LAYR, CHUNK_ID_NOTE, CHUNK_ID_RCAM, CHUNK_ID_RGBA, CHUNK_ID_ROBJ, CHUNK_ID_SIZE, CHUNK_ID_XYZI,
};
use crate::round_trip::{anim_range_round_trip, lemma_u32_prefix, palette_round_trip, stored_palette, voxels_round_trip, xyzi_payload};
use crate::chunks::{layr_read, length_prefixed_texts};
use crate::reader::{chunks_ok, initial_read_state, parts_built, read_outcome, regrouped, scene_from, scene_read};
use crate::file_writer::scene_writable;
use crate::types::scene_palette_color;
use crate::bytes::length_prefixed;
use crate::models::kept_models;
use crate::types::Rgba;
use crate::scene::{Camera, Group, Instance, Material, Scene};
use crate::scene_writer::indexed_concat;
use crate::types::{Layer, Model, VoxError};
use crate::models::same_model;
use crate::writer::{chunk_bytes, dict_bytes, model_bytes, model_writable};
use crate::reader::{chunk_read, chunk_step, chunks_read, next_chunk, payload_at};
use crate::types::ReadOptions;

verus! {

/// A chunk as it is stored: its id, its content, and the word that gives the
/// length of its children.
pub open spec fn raw_chunk(c: (u32, Seq<u8>, u32)) -> Seq<u8> {
    le_bytes(c.0) + le_bytes(c.1.len() as u32) + le_bytes(c.2) + c.1
}

/// Chunks stored one after the other.
pub open spec fn chunk_run(cs: Seq<(u32, Seq<u8>, u32)>) -> Seq<u8>
    decreases cs.len(),
{
    if cs.len() == 0 {
        Seq::empty()
    } else {
        raw_chunk(cs[0]) + chunk_run(cs.skip(1))
    }
}

/// Whether the content of every chunk of `cs` has a length that fits a `u32`.
pub open spec fn run_fits(cs: Seq<(u32, Seq<u8>, u32)>) -> bool {
    forall|i: int| 0 <= i < cs.len() ==> (#[trigger] cs[i]).1.len() <= u32::MAX
}

/// Whether reading the chunk `c` takes the state `s0` to `s1` and succeeds.
#[verifier::opaque]
pub open spec fn step_reads(options: ReadOptions, c: (u32, Seq<u8>, u32), s0: ReadState, s1: ReadState) -> bool {
    chunk_read(c.0, s0, c.1, s1, options, Ok(true))
}

/// Runs stored one after the other are one run.
pub proof fn lemma_run_append(a: Seq<(u32, Seq<u8>, u32)>, b: Seq<(u32, Seq<u8>, u32)>)
    ensures
        chunk_run(a + b) == chunk_run(a) + chunk_run(b),
    decreases a.len(),
{
    if a.len() == 0 {
        assert(a + b =~= b);
        assert(chunk_run(a) + chunk_run(b) =~= chunk_run(b));
    } else {
        assert((a + b).skip(1) =~= a.skip(1) + b);
        lemma_run_append(a.skip(1), b);
        assert((a + b)[0] == a[0]);
        assert(chunk_run(a + b) =~= raw_chunk(a[0]) + (chunk_run(a.skip(1)) + chunk_run(b)));
    }
}

/// A run of one chunk is that chunk.
pub proof fn lemma_run_one(c: (u32, Seq<u8>, u32))
    ensures
        chunk_run(seq![c]) == raw_chunk(c),
{
    let one = seq![c];
    assert(one.skip(1) =~= Seq::<(u32, Seq<u8>, u32)>::empty());
    assert(chunk_run(one.skip(1)) == Seq::<u8>::empty());
    assert(one[0] == c);
    assert(raw_chunk(c) + Seq::<u8>::empty() =~= raw_chunk(c));
}

/// What a reader finds at a chunk stored at `p`: its id, its length, its
/// content, and the rest after it.
proof fn lemma_raw_chunk_at(bytes: Seq<u8>, p: int, c: (u32, Seq<u8>, u32), rest: Seq<u8>)
    requires
        0 <= p <= bytes.len(),
        bytes.skip(p) == raw_chunk(c) + rest,
        c.1.len() <= u32::MAX,
    ensures
        p + 12 + c.1.len() <= bytes.len(),
        u32_at(bytes, p) == c.0,
        u32_at(bytes, p + 4) == c.1.len(),
        payload_at(bytes, p) == c.1,
        bytes.skip(p + 12 + c.1.len()) == rest,
{
    let s = bytes.skip(p);
    let n = c.1.len() as u32;
    le_bytes_round_trip(c.0);
    le_bytes_round_trip(n);
    le_bytes_round_trip(c.2);
    assert(s.len() == 12 + c.1.len() + rest.len());
    assert forall|j: int| 0 <= j < 4 implies bytes[p + j] == le_bytes(c.0)[j] by {
        assert(bytes[p + j] == s[j]);
    }
    assert forall|j: int| 0 <= j < 4 implies bytes[p + 4 + j] == le_bytes(n)[j] by {
        assert(bytes[p + 4 + j] == s[4 + j]);
    }
    assert(u32_at(bytes, p) == u32_at(le_bytes(c.0), 0));
    assert(u32_at(bytes, p + 4) == u32_at(le_bytes(n), 0));
    assert(bytes.skip(p + 12).take(c.1.len() as int) =~= c.1) by {
        assert forall|j: int| 0 <= j < c.1.len() implies bytes.skip(p + 12).take(c.1.len() as int)[j] == c.1[j] by {
            assert(bytes[p + 12 + j] == s[12 + j]);
        }
    }
    assert(bytes.skip(p + 12 + c.1.len()) =~= rest) by {
        assert forall|j: int| 0 <= j < rest.len() implies bytes.skip(p + 12 + c.1.len())[j] == rest[j] by {
            assert(bytes[p + 12 + c.1.len() + j] == s[12 + c.1.len() + j]);
        }
    }
}

/// A chunk read on the way to the end with empty models kept tells the reader
/// to go on after the whole chunk.
proof fn lemma_read_goes_on(id: u32, s0: ReadState, p: Seq<u8>, s1: ReadState, options: ReadOptions, b: bool)
    requires
        chunk_read(id, s0, p, s1, options, Ok(b)),
        options.keep_empty_models_instances,
    ensures
        b,
{
}

/// Law: when the bytes from the start of the chunk read `k` on are a run of
/// chunks, and reading goes to the end with empty models kept, each chunk of the
/// run is read in turn, from its content, and nothing else is read.
pub proof fn run_read_in_order(
    bytes: Seq<u8>,
    options: ReadOptions,
    states: Seq<ReadState>,
    pos: Seq<int>,
    skips: Seq<bool>,
    k: int,
    cs: Seq<(u32, Seq<u8>, u32)>,
)
    requires
        chunks_read(bytes, options, states, pos, skips),
        pos.last() == bytes.len(),
        0 <= k < pos.len(),
        0 <= pos[k] <= bytes.len(),
        bytes.skip(pos[k]) == chunk_run(cs),
        run_fits(cs),
        options.keep_empty_models_instances,
    ensures
        skips.len() == k + cs.len(),
        forall|i: int|
            0 <= i < cs.len() ==> #[trigger] step_reads(options, cs[i], states[k + i], states[k + i + 1]),
    decreases cs.len(),
{
    reveal(step_reads);
    if cs.len() == 0 {
        assert(bytes.skip(pos[k]).len() == 0);
        assert(pos[k] == bytes.len());
        if k < skips.len() {
            assert(chunk_step(bytes, options, states[k], states[k + 1], pos[k], pos[k + 1], skips[k]));
        }
    } else {
        let c = cs[0];
        assert(run_fits(cs.skip(1))) by {
            assert forall|i: int| 0 <= i < cs.skip(1).len() implies (#[trigger] cs.skip(1)[i]).1.len() <= u32::MAX by {
                assert(cs.skip(1)[i] == cs[i + 1]);
            }
        }
        lemma_raw_chunk_at(bytes, pos[k], c, chunk_run(cs.skip(1)));
        assert(k < skips.len());
        assert(chunk_step(bytes, options, states[k], states[k + 1], pos[k], pos[k + 1], skips[k]));
        lemma_read_goes_on(c.0, states[k], c.1, states[k + 1], options, skips[k]);
        assert(pos[k + 1] == pos[k] + 12 + c.1.len());
        run_read_in_order(bytes, options, states, pos, skips, k + 1, cs.skip(1));
        assert forall|i: int| 0 <= i < cs.len() implies #[trigger] step_reads(
            options,
            cs[i],
            states[k + i],
            states[k + i + 1],
        ) by {
            if i > 0 {
                assert(cs.skip(1)[i - 1] == cs[i]);
                assert(step_reads(options, cs.skip(1)[i - 1], states[k + 1 + (i - 1)], states[k + 1 + (i - 1) + 1]));
            }
        }
    }
}

/// The chunk stored in `b`: its id, its content, and its children word.
pub open spec fn chunk_of(b: Seq<u8>) -> (u32, Seq<u8>, u32) {
    (u32_at(b, 0), b.skip(12), u32_at(b, 8))
}

/// The chunks stored in `b`: none when it is empty, else the one it stores.
pub open spec fn pieces_of(b: Seq<u8>) -> Seq<(u32, Seq<u8>, u32)> {
    if b.len() == 0 {
        Seq::empty()
    } else {
        seq![chunk_of(b)]
    }
}

/// Whether `b` is empty or one chunk.
pub open spec fn one_or_none(b: Seq<u8>) -> bool {
    b.len() == 0 || raw_chunk(chunk_of(b)) == b
}

/// The runs of pieces, one after the other.
pub open spec fn list_concat(n: nat, f: spec_fn(int) -> Seq<(u32, Seq<u8>, u32)>) -> Seq<(u32, Seq<u8>, u32)>
    decreases n,
{
    if n == 0 {
        Seq::empty()
    } else {
        list_concat((n - 1) as nat, f) + f(n - 1)
    }
}

/// A written chunk is the chunk that its bytes store.
pub proof fn lemma_chunk_of(id: u32, c: Seq<u8>)
    ensures
        chunk_of(chunk_bytes(id, c)) == (id, c, 0u32),
        raw_chunk((id, c, 0u32)) == chunk_bytes(id, c),
        one_or_none(chunk_bytes(id, c)),
        pieces_of(chunk_bytes(id, c)) == seq![(id, c, 0u32)],
        chunk_run(pieces_of(chunk_bytes(id, c))) == chunk_bytes(id, c),
{
    let b = chunk_bytes(id, c);
    le_bytes_round_trip(id);
    le_bytes_round_trip(0);
    assert(u32_at(b, 0) == u32_at(le_bytes(id), 0));
    assert(u32_at(b, 8) == u32_at(le_bytes(0), 0));
    assert(b.skip(12) =~= c);
    lemma_run_one((id, c, 0u32));
}

/// The pieces of one-chunk texts make the run of their concatenation.
pub proof fn lemma_pieces_run(b: Seq<u8>)
    requires
        one_or_none(b),
    ensures
        chunk_run(pieces_of(b)) == b,
{
    if b.len() == 0 {
        assert(chunk_run(Seq::<(u32, Seq<u8>, u32)>::empty()) == Seq::<u8>::empty());
    } else {
        lemma_run_one(chunk_of(b));
    }
}

/// A run of pieces, each empty or one chunk, is the run of their chunks.
pub proof fn lemma_concat_runs(n: nat, f: spec_fn(int) -> Seq<u8>)
    requires
        forall|i: int| 0 <= i < n ==> one_or_none(#[trigger] f(i)),
    ensures
        indexed_concat(n, f) == chunk_run(list_concat(n, |i: int| pieces_of(f(i)))),
    decreases n,
{
    let g = |i: int| pieces_of(f(i));
    if n == 0 {
        assert(chunk_run(Seq::<(u32, Seq<u8>, u32)>::empty()) == Seq::<u8>::empty());
    } else {
        lemma_concat_runs((n - 1) as nat, f);
        lemma_run_append(list_concat((n - 1) as nat, g), g(n - 1));
        lemma_pieces_run(f(n - 1));
        assert(list_concat(n, g) == list_concat((n - 1) as nat, g) + g(n - 1));
    }
}

/// The chunks of a model: its size, then its voxels.
pub open spec fn model_chunks(m: Model) -> Seq<(u32, Seq<u8>, u32)> {
    seq![
        (CHUNK_ID_SIZE, le_bytes(m.size_x) + le_bytes(m.size_y) + le_bytes(m.size_z), 0u32),
        (CHUNK_ID_XYZI, xyzi_payload(m), 0u32),
    ]
}

/// The chunks of the first `n` models, model by model.
pub open spec fn models_prefix(models: Seq<Model>, n: nat) -> Seq<(u32, Seq<u8>, u32)> {
    list_concat(n, |i: int| model_chunks(models[i]))
}

/// The chunks of the models, model by model.
pub open spec fn models_list(models: Seq<Model>) -> Seq<(u32, Seq<u8>, u32)> {
    models_prefix(models, models.len())
}

/// The models' part of a written file is the run of their chunks.
proof fn lemma_models_run(models: Seq<Model>, n: nat)
    requires
        n <= models.len(),
    ensures
        indexed_concat(n, |i: int| model_bytes(models[i])) == chunk_run(
            list_concat(n, |i: int| model_chunks(models[i])),
        ),
    decreases n,
{
    let g = |i: int| model_chunks(models[i]);
    if n == 0 {
        assert(chunk_run(Seq::<(u32, Seq<u8>, u32)>::empty()) == Seq::<u8>::empty());
    } else {
        let m = models[n - 1];
        lemma_models_run(models, (n - 1) as nat);
        lemma_run_append(list_concat((n - 1) as nat, g), g(n - 1));
        let a = (CHUNK_ID_SIZE, le_bytes(m.size_x) + le_bytes(m.size_y) + le_bytes(m.size_z), 0u32);
        let b = (CHUNK_ID_XYZI, xyzi_payload(m), 0u32);
        assert(model_chunks(m) =~= seq![a] + seq![b]);
        lemma_run_append(seq![a], seq![b]);
        lemma_run_one(a);
        lemma_run_one(b);
        assert(list_concat(n, g) == list_concat((n - 1) as nat, g) + g(n - 1));
    }
}

/// The node chunks of a written file.
#[verifier::opaque]
pub open spec fn nodes_list(s: Scene) -> Seq<(u32, Seq<u8>, u32)> {
    let gl = s.groups@.len();
    let n = s.instances@.len();
    list_concat(gl, |i: int| pieces_of(group_ntrn_chunk(s, i))) + list_concat(gl, |i: int| pieces_of(ngrp_chunk(s, i)))
        + list_concat(n, |i: int| pieces_of(nshp_chunk(s, i))) + list_concat(
        n,
        |i: int| pieces_of(instance_ntrn_chunk(s, i)),
    )
}

/// The camera chunks of a written file.
pub open spec fn cams_list(s: Scene) -> Seq<(u32, Seq<u8>, u32)> {
    list_concat(s.cameras@.len(), |i: int| pieces_of(chunk_bytes(CHUNK_ID_RCAM, rcam_content(s.cameras@[i]))))
}

/// The palette chunk of a written file.
pub open spec fn rgba_list(s: Scene) -> Seq<(u32, Seq<u8>, u32)> {
    pieces_of(chunk_bytes(CHUNK_ID_RGBA, rgba_content(s.palette.colors@)))
}

/// The camera, sun, palette and color name chunks of a written file.
#[verifier::opaque]
pub open spec fn settings_list(s: Scene) -> Seq<(u32, Seq<u8>, u32)> {
    cams_list(s) + pieces_of(sun_part(s)) + rgba_list(s) + pieces_of(note_part(s))
}

/// The material chunks of a written file.
pub open spec fn matls_list(s: Scene) -> Seq<(u32, Seq<u8>, u32)> {
    list_concat(256, |i: int| pieces_of(matl_chunk(s.materials@, i)))
}

/// The layer chunks of a written file.
pub open spec fn layers_list(s: Scene) -> Seq<(u32, Seq<u8>, u32)> {
    list_concat(
        s.layers@.len(),
        |i: int| pieces_of(chunk_bytes(CHUNK_ID_LAYR, layr_content(i as u32, s.layers@[i]))),
    )
}

/// The material and layer chunks of a written file.
#[verifier::opaque]
pub open spec fn tables_list(s: Scene) -> Seq<(u32, Seq<u8>, u32)> {
    matls_list(s) + layers_list(s)
}

/// The chunks of a file inside `MAIN`, in the order they are written.
#[verifier::opaque]
pub open spec fn children_list(s: Scene) -> Seq<(u32, Seq<u8>, u32)> {
    pieces_of(meta_part(s)) + models_list(s.models@) + nodes_list(s) + settings_list(s) + tables_list(s)
}

/// The sun's chunk, when there is a sun.
pub open spec fn sun_part(s: Scene) -> Seq<u8> {
    match s.sun {
        Some(x) => chunk_bytes(CHUNK_ID_ROBJ, dict_bytes(sun_entries(x))),
        None => Seq::empty(),
    }
}

/// The color names' chunk, when there are color names.
pub open spec fn note_part(s: Scene) -> Seq<u8> {
    if s.color_names@.len() > 0 {
        chunk_bytes(CHUNK_ID_NOTE, note_content(s.color_names@))
    } else {
        Seq::empty()
    }
}

/// Runs of pieces that agree piece by piece are the same.
proof fn lemma_list_concat_ext(
    n: nat,
    g1: spec_fn(int) -> Seq<(u32, Seq<u8>, u32)>,
    g2: spec_fn(int) -> Seq<(u32, Seq<u8>, u32)>,
)
    requires
        forall|i: int| 0 <= i < n ==> #[trigger] g1(i) == g2(i),
    ensures
        list_concat(n, g1) == list_concat(n, g2),
    decreases n,
{
    if n > 0 {
        lemma_list_concat_ext((n - 1) as nat, g1, g2);
    }
}

/// A run of written chunks, one per index, is the run of their chunks.
proof fn lemma_chunks_run(n: nat, f: spec_fn(int) -> Seq<u8>, g: spec_fn(int) -> Seq<(u32, Seq<u8>, u32)>)
    requires
        forall|i: int| 0 <= i < n ==> one_or_none(#[trigger] f(i)),
        forall|i: int| 0 <= i < n ==> #[trigger] g(i) == pieces_of(f(i)),
    ensures
        indexed_concat(n, f) == chunk_run(list_concat(n, g)),
{
    lemma_concat_runs(n, f);
    lemma_list_concat_ext(n, |i: int| pieces_of(f(i)), g);
}

proof fn lemma_group_ntrns_run(s: Scene)
    ensures
        indexed_concat(s.groups@.len(), |i: int| group_ntrn_chunk(s, i)) == chunk_run(
            list_concat(s.groups@.len(), |i: int| pieces_of(group_ntrn_chunk(s, i))),
        ),
{
    let gl = s.groups@.len();
    assert forall|i: int| 0 <= i < gl implies one_or_none(#[trigger] group_ntrn_chunk(s, i)) by {
        let g = s.groups@[i];
        lemma_chunk_of(
            0x4e52546e,
            ntrn_content(i as u32, (gl + i) as u32, g.name, g.hidden, g.transform, g.layer_index, g.transform_anim),
        );
    }
    lemma_chunks_run(gl, |i: int| group_ntrn_chunk(s, i), |i: int| pieces_of(group_ntrn_chunk(s, i)));
}

proof fn lemma_ngrps_run(s: Scene)
    ensures
        indexed_concat(s.groups@.len(), |i: int| ngrp_chunk(s, i)) == chunk_run(
            list_concat(s.groups@.len(), |i: int| pieces_of(ngrp_chunk(s, i))),
        ),
{
    let gl = s.groups@.len();
    let n = s.instances@.len();
    assert forall|i: int| 0 <= i < gl implies one_or_none(#[trigger] ngrp_chunk(s, i)) by {
        lemma_chunk_of(
            0x5052476e,
            ngrp_content((gl + i) as u32, s.groups@[i].hidden, group_children(s.groups@, s.instances@, i, (2 * gl + n) as int)),
        );
    }
    lemma_chunks_run(gl, |i: int| ngrp_chunk(s, i), |i: int| pieces_of(ngrp_chunk(s, i)));
}

proof fn lemma_nshps_run(s: Scene)
    ensures
        indexed_concat(s.instances@.len(), |i: int| nshp_chunk(s, i)) == chunk_run(
            list_concat(s.instances@.len(), |i: int| pieces_of(nshp_chunk(s, i))),
        ),
{
    let gl = s.groups@.len();
    let n = s.instances@.len();
    assert forall|i: int| 0 <= i < n implies one_or_none(#[trigger] nshp_chunk(s, i)) by {
        lemma_chunk_of(0x5048536e, nshp_content((2 * gl + i) as u32, s.instances@[i]));
    }
    lemma_chunks_run(n, |i: int| nshp_chunk(s, i), |i: int| pieces_of(nshp_chunk(s, i)));
}

proof fn lemma_instance_ntrns_run(s: Scene)
    ensures
        indexed_concat(s.instances@.len(), |i: int| instance_ntrn_chunk(s, i)) == chunk_run(
            list_concat(s.instances@.len(), |i: int| pieces_of(instance_ntrn_chunk(s, i))),
        ),
{
    let gl = s.groups@.len();
    let n = s.instances@.len();
    assert forall|i: int| 0 <= i < n implies one_or_none(#[trigger] instance_ntrn_chunk(s, i)) by {
        let inst = s.instances@[i];
        lemma_chunk_of(
            0x4e52546e,
            ntrn_content((2 * gl + n + i) as u32, (2 * gl + i) as u32, inst.name, inst.hidden, inst.transform, inst.layer_index, inst.transform_anim),
        );
    }
    lemma_chunks_run(n, |i: int| instance_ntrn_chunk(s, i), |i: int| pieces_of(instance_ntrn_chunk(s, i)));
}

/// The node chunks of a written file, as listed.
proof fn lemma_nodes_run(s: Scene)
    ensures
        nodes_part(s) == chunk_run(nodes_list(s)),
{
    reveal(nodes_part);
    let gl = s.groups@.len();
    let n = s.instances@.len();
    lemma_group_ntrns_run(s);
    lemma_ngrps_run(s);
    lemma_nshps_run(s);
    lemma_instance_ntrns_run(s);
    let l3 = list_concat(gl, |i: int| pieces_of(group_ntrn_chunk(s, i)));
    let l4 = list_concat(gl, |i: int| pieces_of(ngrp_chunk(s, i)));
    let l5 = list_concat(n, |i: int| pieces_of(nshp_chunk(s, i)));
    let l6 = list_concat(n, |i: int| pieces_of(instance_ntrn_chunk(s, i)));
    lemma_run_append(l3, l4);
    lemma_run_append(l3 + l4, l5);
    lemma_run_append(l3 + l4 + l5, l6);
    reveal(nodes_list);
}

proof fn lemma_cameras_run(s: Scene)
    ensures
        indexed_concat(s.cameras@.len(), |i: int| chunk_bytes(CHUNK_ID_RCAM, rcam_content(s.cameras@[i])))
            == chunk_run(
            list_concat(
                s.cameras@.len(),
                |i: int| pieces_of(chunk_bytes(CHUNK_ID_RCAM, rcam_content(s.cameras@[i]))),
            ),
        ),
{
    assert forall|i: int| 0 <= i < s.cameras@.len() implies one_or_none(
        #[trigger] chunk_bytes(CHUNK_ID_RCAM, rcam_content(s.cameras@[i])),
    ) by {
        lemma_chunk_of(CHUNK_ID_RCAM, rcam_content(s.cameras@[i]));
    }
    lemma_chunks_run(
        s.cameras@.len(),
        |i: int| chunk_bytes(CHUNK_ID_RCAM, rcam_content(s.cameras@[i])),
        |i: int| pieces_of(chunk_bytes(CHUNK_ID_RCAM, rcam_content(s.cameras@[i]))),
    );
}

/// The camera, sun, palette and color name chunks of a written file, as listed.
proof fn lemma_settings_run(s: Scene)
    ensures
        settings_part(s) == chunk_run(settings_list(s)),
{
    reveal(settings_part);
    lemma_cameras_run(s);
    if let Some(x) = s.sun {
        lemma_chunk_of(CHUNK_ID_ROBJ, dict_bytes(sun_entries(x)));
    }
    lemma_pieces_run(sun_part(s));
    lemma_chunk_of(CHUNK_ID_RGBA, rgba_content(s.palette.colors@));
    if s.color_names@.len() > 0 {
        lemma_chunk_of(CHUNK_ID_NOTE, note_content(s.color_names@));
    }
    lemma_pieces_run(note_part(s));
    let l7 = list_concat(
        s.cameras@.len(),
        |i: int| pieces_of(chunk_bytes(CHUNK_ID_RCAM, rcam_content(s.cameras@[i]))),
    );
    let l8 = pieces_of(sun_part(s));
    let l9 = pieces_of(chunk_bytes(CHUNK_ID_RGBA, rgba_content(s.palette.colors@)));
    let l10 = pieces_of(note_part(s));
    lemma_run_append(l7, l8);
    lemma_run_append(l7 + l8, l9);
    lemma_run_append(l7 + l8 + l9, l10);
    reveal(settings_list);
}

proof fn lemma_matls_run(s: Scene)
    ensures
        indexed_concat(256, |i: int| matl_chunk(s.materials@, i)) == chunk_run(
            list_concat(256, |i: int| pieces_of(matl_chunk(s.materials@, i))),
        ),
{
    assert forall|i: int| 0 <= i < 256 implies one_or_none(#[trigger] matl_chunk(s.materials@, i)) by {
        if s.materials@[i].has_any() {
            lemma_chunk_of(0x4c54414d, matl_content(i as u32, s.materials@[i]));
        }
    }
    lemma_chunks_run(256, |i: int| matl_chunk(s.materials@, i), |i: int| pieces_of(matl_chunk(s.materials@, i)));
}

proof fn lemma_layers_run(s: Scene)
    ensures
        indexed_concat(s.layers@.len(), |i: int| chunk_bytes(CHUNK_ID_LAYR, layr_content(i as u32, s.layers@[i])))
            == chunk_run(
            list_concat(
                s.layers@.len(),
                |i: int| pieces_of(chunk_bytes(CHUNK_ID_LAYR, layr_content(i as u32, s.layers@[i]))),
            ),
        ),
{
    assert forall|i: int| 0 <= i < s.layers@.len() implies one_or_none(
        #[trigger] chunk_bytes(CHUNK_ID_LAYR, layr_content(i as u32, s.layers@[i])),
    ) by {
        lemma_chunk_of(CHUNK_ID_LAYR, layr_content(i as u32, s.layers@[i]));
    }
    lemma_chunks_run(
        s.layers@.len(),
        |i: int| chunk_bytes(CHUNK_ID_LAYR, layr_content(i as u32, s.layers@[i])),
        |i: int| pieces_of(chunk_bytes(CHUNK_ID_LAYR, layr_content(i as u32, s.layers@[i]))),
    );
}

/// The material and layer chunks of a written file, as listed.
proof fn lemma_tables_run(s: Scene)
    ensures
        tables_part(s) == chunk_run(tables_list(s)),
{
    reveal(tables_part);
    lemma_matls_run(s);
    lemma_layers_run(s);
    let l11 = list_concat(256, |i: int| pieces_of(matl_chunk(s.materials@, i)));
    let l12 = list_concat(
        s.layers@.len(),
        |i: int| pieces_of(chunk_bytes(CHUNK_ID_LAYR, layr_content(i as u32, s.layers@[i]))),
    );
    lemma_run_append(l11, l12);
    reveal(tables_list);
}

/// The chunks inside `MAIN` of a written file are its children, as listed.
#[verifier::spinoff_prover]
#[verifier::rlimit(100)]
pub proof fn lemma_children_run(s: Scene)
    ensures
        main_children(s) == chunk_run(children_list(s)),
{
    lemma_nodes_run(s);
    lemma_settings_run(s);
    lemma_tables_run(s);
    lemma_models_run(s.models@, s.models@.len());
    if write_version(s) >= 200 {
        lemma_chunk_of(0x4154454d, meta_content(s.anim_range_start, s.anim_range_end));
    }
    lemma_pieces_run(meta_part(s));
    let l1 = pieces_of(meta_part(s));
    let l2 = models_list(s.models@);
    let l3 = nodes_list(s);
    let l4 = settings_list(s);
    let l5 = tables_list(s);
    lemma_run_append(l1, l2);
    lemma_run_append(l1 + l2, l3);
    lemma_run_append(l1 + l2 + l3, l4);
    lemma_run_append(l1 + l2 + l3 + l4, l5);
    reveal(children_list);
    assert(main_children(s) =~= chunk_run(children_list(s)));
}

/// The chunks of a written file after its header: `MAIN`, then its children.
#[verifier::opaque]
pub open spec fn main_list(s: Scene) -> Seq<(u32, Seq<u8>, u32)> {
    seq![(CHUNK_ID_MAIN, Seq::<u8>::empty(), main_children(s).len() as u32)] + children_list(s)
}

/// The chunks of a run whose bytes fit a `u32` length each fit it.
proof fn lemma_run_fits(cs: Seq<(u32, Seq<u8>, u32)>)
    requires
        chunk_run(cs).len() <= u32::MAX,
    ensures
        run_fits(cs),
    decreases cs.len(),
{
    if cs.len() > 0 {
        lemma_run_fits(cs.skip(1));
        assert forall|i: int| 0 <= i < cs.len() implies (#[trigger] cs[i]).1.len() <= u32::MAX by {
            if i > 0 {
                assert(cs[i] == cs.skip(1)[i - 1]);
            }
        }
    }
}

/// Eight bytes in front of a text are dropped by skipping eight.
proof fn lemma_skip_header(a: Seq<u8>, b: Seq<u8>, rest: Seq<u8>)
    requires
        a.len() == 4,
        b.len() == 4,
    ensures
        (a + b + rest).skip(8) == rest,
{
    assert((a + b + rest).skip(8) =~= rest);
}

/// The bytes of a written file: its header, and `MAIN` with its children.
proof fn lemma_file_bytes_shape(s: Scene)
    ensures
        file_bytes(s) == le_bytes(0x20584f56) + le_bytes(write_version(s)) + (le_bytes(0x4e49414d) + le_bytes(0)
            + le_bytes(main_children(s).len() as u32) + main_children(s)),
{
    reveal(file_bytes);
    let ch = main_children(s);
    assert(file_bytes(s) =~= le_bytes(0x20584f56) + le_bytes(write_version(s)) + (le_bytes(0x4e49414d) + le_bytes(0)
        + le_bytes(ch.len() as u32) + ch));
}

/// `MAIN` with no content and the run `cl` as its children is one run.
proof fn lemma_main_run(ch: Seq<u8>, cl: Seq<(u32, Seq<u8>, u32)>)
    requires
        ch == chunk_run(cl),
        ch.len() <= u32::MAX,
    ensures
        le_bytes(0x4e49414d) + le_bytes(0) + le_bytes(ch.len() as u32) + ch == chunk_run(
            seq![(CHUNK_ID_MAIN, Seq::<u8>::empty(), ch.len() as u32)] + cl,
        ),
        run_fits(seq![(CHUNK_ID_MAIN, Seq::<u8>::empty(), ch.len() as u32)] + cl),
{
    let head = (CHUNK_ID_MAIN, Seq::<u8>::empty(), ch.len() as u32);
    lemma_run_one(head);
    lemma_run_append(seq![head], cl);
    assert(raw_chunk(head) + ch =~= le_bytes(0x4e49414d) + le_bytes(0) + le_bytes(ch.len() as u32) + ch);
    lemma_run_fits(cl);
    let all = seq![head] + cl;
    assert forall|i: int| 0 <= i < all.len() implies (#[trigger] all[i]).1.len() <= u32::MAX by {
        if i > 0 {
            assert(all[i] == cl[i - 1]);
        }
    }
}

/// A written file, after its header, is the run of its chunks.
pub proof fn lemma_file_run(s: Scene)
    requires
        main_children(s).len() <= u32::MAX,
    ensures
        file_bytes(s).skip(8) == chunk_run(main_list(s)),
        run_fits(main_list(s)),
{
    reveal(main_list);
    lemma_children_run(s);
    lemma_main_run(main_children(s), children_list(s));
    lemma_file_bytes_shape(s);
    lemma_skip_header(
        le_bytes(0x20584f56),
        le_bytes(write_version(s)),
        le_bytes(0x4e49414d) + le_bytes(0) + le_bytes(main_children(s).len() as u32) + main_children(s),
    );
}

/// What reading one chunk leaves as it was, by the chunk's id.
pub proof fn lemma_step_frame(options: ReadOptions, c: (u32, Seq<u8>, u32), s0: ReadState, s1: ReadState)
    requires
        step_reads(options, c, s0, s1),
    ensures
        c.0 != CHUNK_ID_XYZI ==> s1.temp_models == s0.temp_models,
        c.0 != CHUNK_ID_RGBA ==> s1.palette == s0.palette,
        c.0 != CHUNK_ID_NOTE ==> s1.color_names == s0.color_names,
        c.0 != CHUNK_ID_LAYR ==> s1.layers == s0.layers,
        c.0 != CHUNK_ID_RCAM ==> s1.cameras == s0.cameras,
        c.0 != CHUNK_ID_META ==> s1.anim_range_start == s0.anim_range_start && s1.anim_range_end
            == s0.anim_range_end,
        c.0 != CHUNK_ID_IMAP ==> s1.found_index_map == s0.found_index_map,
        c.0 != CHUNK_ID_SIZE ==> s1.size_x == s0.size_x && s1.size_y == s0.size_y && s1.size_z == s0.size_z,
{
    reveal(step_reads);
}

/// Whether every chunk of `cs` has one of the ids in `ids`.
pub open spec fn ids_within(cs: Seq<(u32, Seq<u8>, u32)>, ids: Set<u32>) -> bool {
    forall|i: int| 0 <= i < cs.len() ==> ids.contains(#[trigger] cs[i].0)
}

/// Runs of pieces whose ids are among `ids` have ids among them.
proof fn lemma_concat_ids(n: nat, g: spec_fn(int) -> Seq<(u32, Seq<u8>, u32)>, ids: Set<u32>)
    requires
        forall|i: int| 0 <= i < n ==> ids_within(#[trigger] g(i), ids),
    ensures
        ids_within(list_concat(n, g), ids),
    decreases n,
{
    if n > 0 {
        lemma_concat_ids((n - 1) as nat, g, ids);
        let a = list_concat((n - 1) as nat, g);
        let b = g(n - 1);
        assert forall|i: int| 0 <= i < (a + b).len() implies ids.contains(#[trigger] (a + b)[i].0) by {
            if i >= a.len() {
                assert((a + b)[i] == b[i - a.len()]);
            }
        }
    }
}

/// Two runs whose ids are among `ids` make one.
proof fn lemma_append_ids(a: Seq<(u32, Seq<u8>, u32)>, b: Seq<(u32, Seq<u8>, u32)>, ids: Set<u32>)
    requires
        ids_within(a, ids),
        ids_within(b, ids),
    ensures
        ids_within(a + b, ids),
{
    assert forall|i: int| 0 <= i < (a + b).len() implies ids.contains(#[trigger] (a + b)[i].0) by {
        if i >= a.len() {
            assert((a + b)[i] == b[i - a.len()]);
        }
    }
}

/// The pieces of a written chunk have its id.
proof fn lemma_piece_ids(id: u32, c: Seq<u8>, ids: Set<u32>)
    requires
        ids.contains(id),
    ensures
        ids_within(pieces_of(chunk_bytes(id, c)), ids),
        pieces_of(chunk_bytes(id, c)).len() == 1,
{
    lemma_chunk_of(id, c);
}

/// The ids of the node chunks.
pub open spec fn node_ids() -> Set<u32> {
    set![CHUNK_ID_NTRN, CHUNK_ID_NGRP, CHUNK_ID_NSHP]
}

/// The node chunks have node ids.
proof fn lemma_nodes_ids(s: Scene)
    ensures
        ids_within(nodes_list(s), node_ids()),
{
    reveal(nodes_list);
    let gl = s.groups@.len();
    let n = s.instances@.len();
    let ids = node_ids();
    let g1 = |i: int| pieces_of(group_ntrn_chunk(s, i));
    let g2 = |i: int| pieces_of(ngrp_chunk(s, i));
    let g3 = |i: int| pieces_of(nshp_chunk(s, i));
    let g4 = |i: int| pieces_of(instance_ntrn_chunk(s, i));
    assert forall|i: int| 0 <= i < gl implies ids_within(#[trigger] g1(i), ids) by {
        let g = s.groups@[i];
        lemma_piece_ids(
            CHUNK_ID_NTRN,
            ntrn_content(i as u32, (gl + i) as u32, g.name, g.hidden, g.transform, g.layer_index, g.transform_anim),
            ids,
        );
    }
    assert forall|i: int| 0 <= i < gl implies ids_within(#[trigger] g2(i), ids) by {
        lemma_piece_ids(
            CHUNK_ID_NGRP,
            ngrp_content((gl + i) as u32, s.groups@[i].hidden, group_children(s.groups@, s.instances@, i, (2 * gl + n) as int)),
            ids,
        );
    }
    assert forall|i: int| 0 <= i < n implies ids_within(#[trigger] g3(i), ids) by {
        lemma_piece_ids(CHUNK_ID_NSHP, nshp_content((2 * gl + i) as u32, s.instances@[i]), ids);
    }
    assert forall|i: int| 0 <= i < n implies ids_within(#[trigger] g4(i), ids) by {
        let inst = s.instances@[i];
        lemma_piece_ids(
            CHUNK_ID_NTRN,
            ntrn_content((2 * gl + n + i) as u32, (2 * gl + i) as u32, inst.name, inst.hidden, inst.transform, inst.layer_index, inst.transform_anim),
            ids,
        );
    }
    lemma_concat_ids(gl, g1, ids);
    lemma_concat_ids(gl, g2, ids);
    lemma_concat_ids(n, g3, ids);
    lemma_concat_ids(n, g4, ids);
    lemma_append_ids(list_concat(gl, g1), list_concat(gl, g2), ids);
    lemma_append_ids(list_concat(gl, g1) + list_concat(gl, g2), list_concat(n, g3), ids);
    lemma_append_ids(list_concat(gl, g1) + list_concat(gl, g2) + list_concat(n, g3), list_concat(n, g4), ids);
}

/// Whether the chunks `cs`, read from the state `states[k]` on, take the states
/// one by one through `states[k + cs.len()]`.
#[verifier::opaque]
pub open spec fn steps_read(options: ReadOptions, cs: Seq<(u32, Seq<u8>, u32)>, states: Seq<ReadState>, k: int) -> bool {
    forall|i: int| 0 <= i < cs.len() ==> #[trigger] step_reads(options, cs[i], states[k + i], states[k + i + 1])
}

/// What chunks whose ids are among `ids` leave as it was.
proof fn lemma_segment_frames(
    options: ReadOptions,
    cs: Seq<(u32, Seq<u8>, u32)>,
    states: Seq<ReadState>,
    k: int,
    ids: Set<u32>,
)
    requires
        steps_read(options, cs, states, k),
        ids_within(cs, ids),
        0 <= k,
        k + cs.len() < states.len(),
    ensures
        !ids.contains(CHUNK_ID_XYZI) ==> states[k + cs.len()].temp_models == states[k].temp_models,
        !ids.contains(CHUNK_ID_RGBA) ==> states[k + cs.len()].palette == states[k].palette,
        !ids.contains(CHUNK_ID_NOTE) ==> states[k + cs.len()].color_names == states[k].color_names,
        !ids.contains(CHUNK_ID_LAYR) ==> states[k + cs.len()].layers == states[k].layers,
        !ids.contains(CHUNK_ID_RCAM) ==> states[k + cs.len()].cameras == states[k].cameras,
        !ids.contains(CHUNK_ID_META) ==> states[k + cs.len()].anim_range_start == states[k].anim_range_start
            && states[k + cs.len()].anim_range_end == states[k].anim_range_end,
        !ids.contains(CHUNK_ID_IMAP) ==> states[k + cs.len()].found_index_map == states[k].found_index_map,
    decreases cs.len(),
{
    reveal(steps_read);
    if cs.len() > 0 {
        let front = cs.drop_last();
        let j = cs.len() - 1;
        assert forall|i: int| 0 <= i < front.len() implies #[trigger] step_reads(
            options,
            front[i],
            states[k + i],
            states[k + i + 1],
        ) by {
            assert(front[i] == cs[i]);
        }
        assert forall|i: int| 0 <= i < front.len() implies ids.contains(#[trigger] front[i].0) by {
            assert(front[i] == cs[i]);
        }
        lemma_segment_frames(options, front, states, k, ids);
        assert(step_reads(options, cs[j], states[k + j], states[k + j + 1]));
        assert(ids.contains(cs[j].0));
        lemma_step_frame(options, cs[j], states[k + j], states[k + j + 1]);
    }
}

/// Ten runs regrouped are the same run.
proof fn lemma_regroup<T>(
    a: Seq<T>,
    b: Seq<T>,
    c: Seq<T>,
    d: Seq<T>,
    e: Seq<T>,
    f: Seq<T>,
    g: Seq<T>,
    h: Seq<T>,
    i: Seq<T>,
    j: Seq<T>,
)
    ensures
        a + (b + c + d + (e + f + g + h) + (i + j)) == a + b + c + d + e + f + g + h + i + j,
{
    assert(a + (b + c + d + (e + f + g + h) + (i + j)) =~= a + b + c + d + e + f + g + h + i + j);
}

/// The chunks of a written file, part by part.
pub proof fn lemma_main_list_shape(s: Scene)
    ensures
        main_list(s) == seq![(CHUNK_ID_MAIN, Seq::<u8>::empty(), main_children(s).len() as u32)] + pieces_of(
            meta_part(s),
        ) + models_list(s.models@) + nodes_list(s) + cams_list(s) + pieces_of(sun_part(s)) + rgba_list(s)
            + pieces_of(note_part(s)) + matls_list(s) + layers_list(s),
{
    reveal(main_list);
    reveal(children_list);
    reveal(settings_list);
    reveal(tables_list);
    lemma_regroup(
        seq![(CHUNK_ID_MAIN, Seq::<u8>::empty(), main_children(s).len() as u32)],
        pieces_of(meta_part(s)),
        models_list(s.models@),
        nodes_list(s),
        cams_list(s),
        pieces_of(sun_part(s)),
        rgba_list(s),
        pieces_of(note_part(s)),
        matls_list(s),
        layers_list(s),
    );
}

/// The pieces of the runs, one per index, are as many as the indices when each
/// is one chunk with id `id`.
proof fn lemma_single_pieces(n: nat, g: spec_fn(int) -> Seq<(u32, Seq<u8>, u32)>, id: u32)
    requires
        forall|i: int| 0 <= i < n ==> (#[trigger] g(i)).len() == 1 && g(i)[0].0 == id,
    ensures
        list_concat(n, g).len() == n,
        forall|i: int| 0 <= i < n ==> #[trigger] list_concat(n, g)[i] == g(i)[0],
    decreases n,
{
    if n > 0 {
        lemma_single_pieces((n - 1) as nat, g, id);
        let a = list_concat((n - 1) as nat, g);
        assert forall|i: int| 0 <= i < n implies #[trigger] list_concat(n, g)[i] == g(i)[0] by {
            assert(list_concat(n, g) == a + g(n - 1));
            if i < n - 1 {
                assert(list_concat(n, g)[i] == a[i]);
            }
        }
    }
}

/// The camera chunks, one per camera.
proof fn lemma_cams_list(s: Scene)
    ensures
        cams_list(s).len() == s.cameras@.len(),
        forall|i: int|
            0 <= i < s.cameras@.len() ==> #[trigger] cams_list(s)[i] == (CHUNK_ID_RCAM, rcam_content(s.cameras@[i]), 0u32),
{
    let g = |i: int| pieces_of(chunk_bytes(CHUNK_ID_RCAM, rcam_content(s.cameras@[i])));
    assert forall|i: int| 0 <= i < s.cameras@.len() implies (#[trigger] g(i)).len() == 1 && g(i)[0].0 == CHUNK_ID_RCAM
        && g(i)[0] == (CHUNK_ID_RCAM, rcam_content(s.cameras@[i]), 0u32) by {
        lemma_chunk_of(CHUNK_ID_RCAM, rcam_content(s.cameras@[i]));
    }
    lemma_single_pieces(s.cameras@.len(), g, CHUNK_ID_RCAM);
}

/// The layer chunks, one per layer.
proof fn lemma_layers_list(s: Scene)
    ensures
        layers_list(s).len() == s.layers@.len(),
        forall|i: int|
            0 <= i < s.layers@.len() ==> #[trigger] layers_list(s)[i] == (
                CHUNK_ID_LAYR,
                layr_content(i as u32, s.layers@[i]),
                0u32,
            ),
{
    let g = |i: int| pieces_of(chunk_bytes(CHUNK_ID_LAYR, layr_content(i as u32, s.layers@[i])));
    assert forall|i: int| 0 <= i < s.layers@.len() implies (#[trigger] g(i)).len() == 1 && g(i)[0].0 == CHUNK_ID_LAYR
        && g(i)[0] == (CHUNK_ID_LAYR, layr_content(i as u32, s.layers@[i]), 0u32) by {
        lemma_chunk_of(CHUNK_ID_LAYR, layr_content(i as u32, s.layers@[i]));
    }
    lemma_single_pieces(s.layers@.len(), g, CHUNK_ID_LAYR);
}

/// The material chunks have the material id.
proof fn lemma_matls_ids(s: Scene)
    ensures
        ids_within(matls_list(s), set![CHUNK_ID_MATL]),
{
    let ids = set![CHUNK_ID_MATL];
    let g = |i: int| pieces_of(matl_chunk(s.materials@, i));
    assert forall|i: int| 0 <= i < 256 implies ids_within(#[trigger] g(i), ids) by {
        if s.materials@[i].has_any() {
            lemma_piece_ids(CHUNK_ID_MATL, matl_content(i as u32, s.materials@[i]), ids);
        }
    }
    lemma_concat_ids(256, g, ids);
}

/// The chunks of the models, two per model: its size, then its voxels.
proof fn lemma_models_list(models: Seq<Model>, n: nat)
    requires
        n <= models.len(),
    ensures
        models_prefix(models, n).len() == 2 * n,
        forall|j: int, e: int|
            0 <= j < n && 0 <= e < 2 ==> #[trigger] models_prefix(models, n)[2 * j + e] == model_chunks(models[j])[e],
    decreases n,
{
    let g = |i: int| model_chunks(models[i]);
    if n > 0 {
        lemma_models_list(models, (n - 1) as nat);
        let a = models_prefix(models, (n - 1) as nat);
        assert(models_prefix(models, n) == a + g(n - 1));
        assert forall|j: int, e: int| 0 <= j < n && 0 <= e < 2 implies #[trigger] models_prefix(models, n)[2 * j + e]
            == model_chunks(models[j])[e] by {
            if j < n - 1 {
                assert(a[2 * j + e] == model_chunks(models[j])[e]);
            }
        }
    }
}

/// Whether a model slot holds a model the same as `m`.
pub open spec fn holds_model(slot: Option<Model>, m: Model) -> bool {
    slot matches Some(x) && same_model(x, m)
}

/// Reading the size chunk of a model, then its voxel chunk, adds the model.
proof fn lemma_model_read(options: ReadOptions, m: Model, s0: ReadState, s1: ReadState, s2: ReadState)
    requires
        model_writable(m),
        step_reads(options, model_chunks(m)[0], s0, s1),
        step_reads(options, model_chunks(m)[1], s1, s2),
        options.keep_empty_models_instances,
    ensures
        s2.temp_models@.len() == s0.temp_models@.len() + 1,
        s2.temp_models@.drop_last() == s0.temp_models@,
        holds_model(s2.temp_models@.last(), m),
{
    reveal(step_reads);
    let size = le_bytes(m.size_x) + le_bytes(m.size_y) + le_bytes(m.size_z);
    assert(model_chunks(m)[0] == (CHUNK_ID_SIZE, size, 0u32));
    assert(model_chunks(m)[1] == (CHUNK_ID_XYZI, xyzi_payload(m), 0u32));
    lemma_u32_prefix(m.size_x, le_bytes(m.size_y) + le_bytes(m.size_z));
    assert(size =~= le_bytes(m.size_x) + (le_bytes(m.size_y) + le_bytes(m.size_z)));
    assert(size.skip(4) =~= le_bytes(m.size_y) + le_bytes(m.size_z));
    lemma_u32_prefix(m.size_y, le_bytes(m.size_z));
    assert(size.skip(8) =~= le_bytes(m.size_z) + Seq::<u8>::empty());
    lemma_u32_prefix(m.size_z, Seq::<u8>::empty());
    assert(s1.size_x == m.size_x && s1.size_y == m.size_y && s1.size_z == m.size_z);
    assert(s1.temp_models == s0.temp_models);
    voxels_round_trip(m);
    crate::types::lemma_count_solid_bound(m.voxels@);
    assert(s2.temp_models@.drop_last() =~= s0.temp_models@);
}

/// Reading the chunks of the first `j` models adds those models, each the same
/// as the one written.
proof fn lemma_models_upto(options: ReadOptions, models: Seq<Model>, states: Seq<ReadState>, k: int, j: nat)
    requires
        steps_read(options, models_list(models), states, k),
        forall|i: int| 0 <= i < models.len() ==> model_writable(#[trigger] models[i]),
        j <= models.len(),
        0 <= k,
        k + 2 * models.len() < states.len(),
        options.keep_empty_models_instances,
    ensures
        states[k + 2 * j].temp_models@.len() == states[k].temp_models@.len() + j,
        forall|i: int|
            0 <= i < states[k].temp_models@.len() ==> #[trigger] states[k + 2 * j].temp_models@[i]
                == states[k].temp_models@[i],
        forall|i: int|
            0 <= i < j ==> holds_model(#[trigger] states[k + 2 * j].temp_models@[states[k].temp_models@.len() + i], models[i]),
    decreases j,
{
    reveal(steps_read);
    if j > 0 {
        let jn = (j - 1) as nat;
        let jj = j - 1;
        lemma_models_upto(options, models, states, k, jn);
        lemma_models_list(models, models.len());
        let m = models[jj];
        let a = k + 2 * jj;
        assert(models_list(models)[2 * jj + 0] == model_chunks(m)[0]);
        assert(models_list(models)[2 * jj + 1] == model_chunks(m)[1]);
        assert(step_reads(options, models_list(models)[2 * jj], states[k + 2 * jj], states[k + 2 * jj + 1]));
        assert(step_reads(options, models_list(models)[2 * jj + 1], states[k + (2 * jj + 1)], states[k + (2 * jj + 1) + 1]));
        lemma_model_read(options, m, states[a], states[a + 1], states[a + 2]);
        let before = states[a].temp_models@;
        let after = states[a + 2].temp_models@;
        assert(after.len() == before.len() + 1);
        assert forall|i: int| 0 <= i < before.len() implies #[trigger] after[i] == before[i] by {
            assert(after.drop_last()[i] == after[i]);
        }
        assert(k + 2 * j == a + 2);
    }
}

/// Reading the camera chunks adds one camera each.
proof fn lemma_cams_read(options: ReadOptions, s: Scene, states: Seq<ReadState>, k: int, j: nat)
    requires
        steps_read(options, cams_list(s), states, k),
        j <= s.cameras@.len(),
        0 <= k,
        k + s.cameras@.len() < states.len(),
    ensures
        states[k + j].cameras@.len() == states[k].cameras@.len() + j,
    decreases j,
{
    reveal(steps_read);
    if j > 0 {
        lemma_cams_read(options, s, states, k, (j - 1) as nat);
        lemma_cams_list(s);
        let i = j - 1;
        assert(step_reads(options, cams_list(s)[i], states[k + i], states[k + i + 1]));
        lemma_rcam_step(options, s.cameras@[i], states[k + i], states[k + i + 1]);
    }
}

/// Reading a camera chunk adds one camera.
proof fn lemma_rcam_step(options: ReadOptions, c: Camera, s0: ReadState, s1: ReadState)
    requires
        step_reads(options, (CHUNK_ID_RCAM, rcam_content(c), 0u32), s0, s1),
    ensures
        s1.cameras@.len() == s0.cameras@.len() + 1,
{
    reveal(step_reads);
}

/// Reading the layer chunks sets layer `i` from chunk `i`, one after the other,
/// starting without layers.
proof fn lemma_layers_read(options: ReadOptions, s: Scene, states: Seq<ReadState>, k: int, j: nat)
    requires
        steps_read(options, layers_list(s), states, k),
        j <= s.layers@.len(),
        s.layers@.len() <= 0x1_0000_0000,
        0 <= k,
        k + s.layers@.len() < states.len(),
        states[k].layers@.len() == 0,
    ensures
        states[k + j].layers@.len() == j,
    decreases j,
{
    reveal(steps_read);
    if j > 0 {
        lemma_layers_read(options, s, states, k, (j - 1) as nat);
        lemma_layers_list(s);
        let i = j - 1;
        assert(step_reads(options, layers_list(s)[i], states[k + i], states[k + i + 1]));
        lemma_layr_step(options, i as nat, s.layers@[i], states[k + i], states[k + i + 1]);
    }
}

/// Reading the chunk of layer `i` after `i` layers adds one.
#[verifier::rlimit(80)]
proof fn lemma_layr_step(options: ReadOptions, i: nat, l: Layer, s0: ReadState, s1: ReadState)
    requires
        step_reads(options, (CHUNK_ID_LAYR, layr_content(i as u32, l), 0u32), s0, s1),
        s0.layers@.len() == i,
        i < 0x1_0000_0000,
    ensures
        s1.layers@.len() == i + 1,
{
    reveal(step_reads);
    let c = layr_content(i as u32, l);
    lemma_u32_prefix(i as u32, c.skip(4));
    assert(c =~= le_bytes(i as u32) + c.skip(4));
    assert(u32_at(c, 0) == i as u32);
    assert(layr_read(s0, c, s1, Ok(())));
}

/// Texts read one after the other are as many as were asked for.
proof fn lemma_texts_len(p: Seq<u8>, count: nat)
    requires
        length_prefixed_texts(p, count) is Some,
    ensures
        length_prefixed_texts(p, count)->Some_0.len() == count,
    decreases count,
{
    if count > 0 {
        let (t, n) = length_prefixed(p)->Some_0;
        lemma_texts_len(p.skip(n), (count - 1) as nat);
    }
}

/// Reading a written color name chunk adds as many names as were written.
proof fn lemma_note_read(options: ReadOptions, names: Seq<String>, s0: ReadState, s1: ReadState)
    requires
        step_reads(options, (CHUNK_ID_NOTE, note_content(names), 0u32), s0, s1),
        names.len() <= u32::MAX,
    ensures
        s1.color_names@.len() == s0.color_names@.len() + names.len(),
{
    reveal(step_reads);
    let c = note_content(names);
    lemma_u32_prefix(names.len() as u32, c.skip(4));
    assert(c =~= le_bytes(names.len() as u32) + c.skip(4));
    lemma_texts_len(c.skip(4), u32_at(c, 0) as nat);
}

/// Reading a written palette chunk stores the palette as written.
proof fn lemma_rgba_read(options: ReadOptions, colors: Seq<Rgba>, s0: ReadState, s1: ReadState)
    requires
        colors.len() == 256,
        step_reads(options, (CHUNK_ID_RGBA, rgba_content(colors), 0u32), s0, s1),
    ensures
        s1.palette.colors@ == stored_palette(colors),
{
    reveal(step_reads);
    palette_round_trip(colors);
    assert(s1.palette.colors@ =~= stored_palette(colors));
}

/// The model chunks have the size and voxel ids.
proof fn lemma_models_ids(models: Seq<Model>)
    ensures
        ids_within(models_list(models), set![CHUNK_ID_SIZE, CHUNK_ID_XYZI]),
{
    lemma_models_list(models, models.len());
    let l = models_list(models);
    assert forall|i: int| 0 <= i < l.len() implies set![CHUNK_ID_SIZE, CHUNK_ID_XYZI].contains(#[trigger] l[i].0) by {
        let j = i / 2;
        let e = i % 2;
        assert(l[2 * j + e] == model_chunks(models[j])[e]);
    }
}

/// The models held in slots that all hold one are those models, in order.
proof fn lemma_kept_all(slots: Seq<Option<Model>>)
    requires
        forall|i: int| 0 <= i < slots.len() ==> (#[trigger] slots[i]) is Some,
    ensures
        kept_models(slots).len() == slots.len(),
        forall|i: int| 0 <= i < slots.len() ==> Some(#[trigger] kept_models(slots)[i]) == slots[i],
    decreases slots.len(),
{
    if slots.len() > 0 {
        let front = slots.drop_last();
        assert forall|i: int| 0 <= i < front.len() implies (#[trigger] front[i]) is Some by {
            assert(front[i] == slots[i]);
        }
        lemma_kept_all(front);
        assert forall|i: int| 0 <= i < slots.len() implies Some(#[trigger] kept_models(slots)[i]) == slots[i] by {
            if i < front.len() {
                assert(front[i] == slots[i]);
                assert(kept_models(slots)[i] == kept_models(front)[i]);
            }
        }
    }
}

/// The chunks of a run read as a front part, then a last part.
proof fn lemma_peel(
    options: ReadOptions,
    pre: Seq<(u32, Seq<u8>, u32)>,
    last: Seq<(u32, Seq<u8>, u32)>,
    states: Seq<ReadState>,
)
    requires
        steps_read(options, pre + last, states, 0),
    ensures
        steps_read(options, pre, states, 0),
        steps_read(options, last, states, pre.len() as int),
{
    reveal(steps_read);
    let all = pre + last;
    assert forall|i: int| 0 <= i < pre.len() implies #[trigger] step_reads(options, pre[i], states[0 + i], states[0 + i + 1]) by {
        assert(all[i] == pre[i]);
        assert(step_reads(options, all[i], states[0 + i], states[0 + i + 1]));
    }
    let k = pre.len() as int;
    assert forall|i: int| 0 <= i < last.len() implies #[trigger] step_reads(
        options,
        last[i],
        states[k + i],
        states[k + i + 1],
    ) by {
        assert(all[k + i] == last[i]);
        assert(step_reads(options, all[k + i], states[0 + (k + i)], states[0 + (k + i) + 1]));
    }
}

/// Part `j` of a written file after its header: `MAIN`, the metadata, the
/// models, the nodes, the cameras, the sun, the palette, the color names, the
/// materials and the layers.
pub open spec fn file_part(n: Scene, j: int) -> Seq<(u32, Seq<u8>, u32)> {
    if j == 0 {
        seq![(CHUNK_ID_MAIN, Seq::<u8>::empty(), main_children(n).len() as u32)]
    } else if j == 1 {
        pieces_of(meta_part(n))
    } else if j == 2 {
        models_list(n.models@)
    } else if j == 3 {
        nodes_list(n)
    } else if j == 4 {
        cams_list(n)
    } else if j == 5 {
        pieces_of(sun_part(n))
    } else if j == 6 {
        rgba_list(n)
    } else if j == 7 {
        pieces_of(note_part(n))
    } else if j == 8 {
        matls_list(n)
    } else {
        layers_list(n)
    }
}

/// The ten parts of a written file after its header.
pub open spec fn file_parts(n: Scene) -> Seq<Seq<(u32, Seq<u8>, u32)>> {
    Seq::new(10, |j: int| file_part(n, j))
}

/// Where part `j` of a file starts among its chunks.
pub open spec fn part_start(parts: Seq<Seq<(u32, Seq<u8>, u32)>>, j: nat) -> int
    decreases j,
{
    if j == 0 {
        0
    } else {
        part_start(parts, (j - 1) as nat) + parts[j - 1].len()
    }
}

/// The ids of the chunks of each part of a file.
pub open spec fn part_ids(j: int) -> Set<u32> {
    if j == 0 {
        set![CHUNK_ID_MAIN]
    } else if j == 1 {
        set![CHUNK_ID_META]
    } else if j == 2 {
        set![CHUNK_ID_SIZE, CHUNK_ID_XYZI]
    } else if j == 3 {
        node_ids()
    } else if j == 4 {
        set![CHUNK_ID_RCAM]
    } else if j == 5 {
        set![CHUNK_ID_ROBJ]
    } else if j == 6 {
        set![CHUNK_ID_RGBA]
    } else if j == 7 {
        set![CHUNK_ID_NOTE]
    } else if j == 8 {
        set![CHUNK_ID_MATL]
    } else {
        set![CHUNK_ID_LAYR]
    }
}

/// The chunks of each part of a file have the part's ids.
proof fn lemma_part_ids(n: Scene)
    ensures
        forall|j: int| 0 <= j < 10 ==> ids_within(#[trigger] file_parts(n)[j], part_ids(j)),
{
    let parts = file_parts(n);
    assert(ids_within(parts[0], part_ids(0)));
    if write_version(n) >= 200 {
        lemma_piece_ids(CHUNK_ID_META, meta_content(n.anim_range_start, n.anim_range_end), set![CHUNK_ID_META]);
    }
    assert(ids_within(parts[1], part_ids(1)));
    lemma_models_ids(n.models@);
    assert(ids_within(parts[2], part_ids(2)));
    lemma_nodes_ids(n);
    assert(ids_within(parts[3], part_ids(3)));
    lemma_cams_list(n);
    assert(ids_within(parts[4], part_ids(4)));
    if let Some(x) = n.sun {
        lemma_piece_ids(CHUNK_ID_ROBJ, dict_bytes(sun_entries(x)), set![CHUNK_ID_ROBJ]);
    }
    assert(ids_within(parts[5], part_ids(5)));
    lemma_piece_ids(CHUNK_ID_RGBA, rgba_content(n.palette.colors@), set![CHUNK_ID_RGBA]);
    assert(ids_within(parts[6], part_ids(6)));
    if n.color_names@.len() > 0 {
        lemma_piece_ids(CHUNK_ID_NOTE, note_content(n.color_names@), set![CHUNK_ID_NOTE]);
    }
    assert(ids_within(parts[7], part_ids(7)));
    lemma_matls_ids(n);
    assert(ids_within(parts[8], part_ids(8)));
    lemma_layers_list(n);
    assert(ids_within(parts[9], part_ids(9)));
}

/// The chunks of ten parts, one after the other, are read part by part.
#[verifier::rlimit(80)]
proof fn lemma_ten_parts(options: ReadOptions, parts: Seq<Seq<(u32, Seq<u8>, u32)>>, states: Seq<ReadState>)
    requires
        parts.len() == 10,
        steps_read(
            options,
            parts[0] + parts[1] + parts[2] + parts[3] + parts[4] + parts[5] + parts[6] + parts[7] + parts[8] + parts[9],
            states,
            0,
        ),
    ensures
        forall|j: int| 0 <= j < 10 ==> steps_read(options, #[trigger] parts[j], states, part_start(parts, j as nat)),
        part_start(parts, 10) == (parts[0] + parts[1] + parts[2] + parts[3] + parts[4] + parts[5] + parts[6] + parts[7]
            + parts[8] + parts[9]).len(),
{
    let p0 = parts[0];
    let p1 = parts[1];
    let p2 = parts[2];
    let p3 = parts[3];
    let p4 = parts[4];
    let p5 = parts[5];
    let p6 = parts[6];
    let p7 = parts[7];
    let p8 = parts[8];
    let p9 = parts[9];
    lemma_peel(options, p0 + p1 + p2 + p3 + p4 + p5 + p6 + p7 + p8, p9, states);
    lemma_peel(options, p0 + p1 + p2 + p3 + p4 + p5 + p6 + p7, p8, states);
    lemma_peel(options, p0 + p1 + p2 + p3 + p4 + p5 + p6, p7, states);
    lemma_peel(options, p0 + p1 + p2 + p3 + p4 + p5, p6, states);
    lemma_peel(options, p0 + p1 + p2 + p3 + p4, p5, states);
    lemma_peel(options, p0 + p1 + p2 + p3, p4, states);
    lemma_peel(options, p0 + p1 + p2, p3, states);
    lemma_peel(options, p0 + p1, p2, states);
    lemma_peel(options, p0, p1, states);
    assert(part_start(parts, 0) == 0);
    assert(part_start(parts, 1) == p0.len());
    assert(part_start(parts, 2) == (p0 + p1).len());
    assert(part_start(parts, 3) == (p0 + p1 + p2).len());
    assert(part_start(parts, 4) == (p0 + p1 + p2 + p3).len());
    assert(part_start(parts, 5) == (p0 + p1 + p2 + p3 + p4).len());
    assert(part_start(parts, 6) == (p0 + p1 + p2 + p3 + p4 + p5).len());
    assert(part_start(parts, 7) == (p0 + p1 + p2 + p3 + p4 + p5 + p6).len());
    assert(part_start(parts, 8) == (p0 + p1 + p2 + p3 + p4 + p5 + p6 + p7).len());
    assert(part_start(parts, 9) == (p0 + p1 + p2 + p3 + p4 + p5 + p6 + p7 + p8).len());
    assert(part_start(parts, 10) == (p0 + p1 + p2 + p3 + p4 + p5 + p6 + p7 + p8 + p9).len());
    assert forall|j: int| 0 <= j < 10 implies steps_read(options, #[trigger] parts[j], states, part_start(parts, j as nat)) by {
        if j == 0 {
        } else if j == 1 {
        } else if j == 2 {
        } else if j == 3 {
        } else if j == 4 {
        } else if j == 5 {
        } else if j == 6 {
        } else if j == 7 {
        } else if j == 8 {
        } else {
        }
    }
}

/// Reading a written file, the chunks of each of its parts are read in turn,
/// from where the part starts.
#[verifier::spinoff_prover]
#[verifier::rlimit(100)]
proof fn lemma_parts_read(options: ReadOptions, n: Scene, states: Seq<ReadState>)
    requires
        steps_read(options, main_list(n), states, 0),
    ensures
        forall|j: int|
            0 <= j < 10 ==> steps_read(options, #[trigger] file_parts(n)[j], states, part_start(file_parts(n), j as nat)),
        part_start(file_parts(n), 10) == main_list(n).len(),
{
    let parts = file_parts(n);
    lemma_main_list_shape(n);
    assert(main_list(n) == parts[0] + parts[1] + parts[2] + parts[3] + parts[4] + parts[5] + parts[6] + parts[7]
        + parts[8] + parts[9]);
    lemma_ten_parts(options, parts, states);
}

/// Whether reading a written file went through every chunk, from the state
/// `states[0]` to its last.
pub open spec fn file_read_steps(options: ReadOptions, n: Scene, states: Seq<ReadState>) -> bool {
    &&& steps_read(options, main_list(n), states, 0)
    &&& states.len() == main_list(n).len() + 1
}

/// What the chunks of part `j` of a written file leave as it was.
proof fn lemma_part_frames(options: ReadOptions, n: Scene, states: Seq<ReadState>, j: int)
    requires
        file_read_steps(options, n, states),
        0 <= j < 10,
    ensures
        ({
            let a = states[part_start(file_parts(n), j as nat)];
            let b = states[part_start(file_parts(n), (j + 1) as nat)];
            let ids = part_ids(j);
            &&& !ids.contains(CHUNK_ID_XYZI) ==> b.temp_models == a.temp_models
            &&& !ids.contains(CHUNK_ID_RGBA) ==> b.palette == a.palette
            &&& !ids.contains(CHUNK_ID_NOTE) ==> b.color_names == a.color_names
            &&& !ids.contains(CHUNK_ID_LAYR) ==> b.layers == a.layers
            &&& !ids.contains(CHUNK_ID_RCAM) ==> b.cameras == a.cameras
            &&& !ids.contains(CHUNK_ID_IMAP) ==> b.found_index_map == a.found_index_map
            &&& !ids.contains(CHUNK_ID_META) ==> b.anim_range_start == a.anim_range_start && b.anim_range_end
                == a.anim_range_end
        }),
        0 <= part_start(file_parts(n), j as nat),
        part_start(file_parts(n), (j + 1) as nat) == part_start(file_parts(n), j as nat) + file_parts(n)[j].len(),
        part_start(file_parts(n), (j + 1) as nat) <= main_list(n).len(),
{
    let parts = file_parts(n);
    lemma_parts_read(options, n, states);
    lemma_part_ids(n);
    lemma_part_start_grows(parts, (j + 1) as nat, 10);
    lemma_part_start_grows(parts, 0, j as nat);
    lemma_segment_frames(options, parts[j], states, part_start(parts, j as nat), part_ids(j));
}

/// Parts start no earlier than the parts before them.
proof fn lemma_part_start_grows(parts: Seq<Seq<(u32, Seq<u8>, u32)>>, i: nat, j: nat)
    requires
        i <= j,
    ensures
        part_start(parts, i) <= part_start(parts, j),
    decreases j - i,
{
    if i < j {
        lemma_part_start_grows(parts, i, (j - 1) as nat);
    }
}

/// Whether no part of a file from `from` up to `to` has a chunk with id `id`.
pub open spec fn parts_avoid(from: int, to: int, id: u32) -> bool {
    forall|j: int| from <= j < to ==> !(#[trigger] part_ids(j)).contains(id)
}

/// What the parts of a written file from `from` up to `to` leave as it was.
proof fn lemma_span_keeps(options: ReadOptions, n: Scene, states: Seq<ReadState>, from: nat, to: nat)
    requires
        file_read_steps(options, n, states),
        from <= to <= 10,
    ensures
        ({
            let a = states[part_start(file_parts(n), from)];
            let b = states[part_start(file_parts(n), to)];
            &&& parts_avoid(from as int, to as int, CHUNK_ID_XYZI) ==> b.temp_models == a.temp_models
            &&& parts_avoid(from as int, to as int, CHUNK_ID_RGBA) ==> b.palette == a.palette
            &&& parts_avoid(from as int, to as int, CHUNK_ID_NOTE) ==> b.color_names == a.color_names
            &&& parts_avoid(from as int, to as int, CHUNK_ID_LAYR) ==> b.layers == a.layers
            &&& parts_avoid(from as int, to as int, CHUNK_ID_RCAM) ==> b.cameras == a.cameras
            &&& parts_avoid(from as int, to as int, CHUNK_ID_IMAP) ==> b.found_index_map == a.found_index_map
            &&& parts_avoid(from as int, to as int, CHUNK_ID_META) ==> b.anim_range_start == a.anim_range_start
                && b.anim_range_end == a.anim_range_end
        }),
    decreases to - from,
{
    if from < to {
        let t = (to - 1) as nat;
        lemma_span_keeps(options, n, states, from, t);
        lemma_part_frames(options, n, states, t as int);
        assert(from <= t < to);
    }
}

/// The part starts of a written file, part by part.
proof fn lemma_starts(options: ReadOptions, n: Scene, states: Seq<ReadState>)
    requires
        file_read_steps(options, n, states),
    ensures
        part_start(file_parts(n), 0) == 0,
        part_start(file_parts(n), 10) == main_list(n).len(),
        forall|j: int|
            0 <= j < 10 ==> steps_read(options, #[trigger] file_parts(n)[j], states, part_start(file_parts(n), j as nat)),
        forall|j: int|
            0 <= j < 10 ==> #[trigger] part_start(file_parts(n), (j + 1) as nat) == part_start(file_parts(n), j as nat)
                + file_parts(n)[j].len(),
{
    lemma_parts_read(options, n, states);
}

/// Reading a written file adds its models, each the same as written.
#[verifier::spinoff_prover]
#[verifier::rlimit(100)]
proof fn lemma_final_models(options: ReadOptions, n: Scene, states: Seq<ReadState>)
    requires
        file_read_steps(options, n, states),
        options.keep_empty_models_instances,
        initial_read_state(states[0]),
        forall|i: int| 0 <= i < n.models@.len() ==> model_writable(#[trigger] n.models@[i]),
    ensures
        states[main_list(n).len() as int].temp_models@.len() == n.models@.len(),
        forall|k: int|
            0 <= k < n.models@.len() ==> holds_model(#[trigger] states[main_list(n).len() as int].temp_models@[k], n.models@[k]),
{
    let parts = file_parts(n);
    lemma_starts(options, n, states);
    lemma_span_keeps(options, n, states, 0, 2);
    assert(parts_avoid(0, 2, CHUNK_ID_XYZI));
    let a2 = part_start(parts, 2);
    assert(steps_read(options, parts[2], states, a2));
    lemma_models_list(n.models@, n.models@.len());
    lemma_part_start_grows(parts, 3, 10);
    assert(part_start(parts, 3) == a2 + parts[2].len());
    lemma_models_upto(options, n.models@, states, a2, n.models@.len());
    lemma_span_keeps(options, n, states, 3, 10);
    assert(parts_avoid(3, 10, CHUNK_ID_XYZI));
    let z = states[main_list(n).len() as int];
    let y = states[a2 + 2 * n.models@.len()];
    assert(states[a2].temp_models@.len() == 0);
    assert(z.temp_models == y.temp_models);
    assert forall|k: int| 0 <= k < n.models@.len() implies holds_model(#[trigger] z.temp_models@[k], n.models@[k]) by {
        assert(holds_model(y.temp_models@[states[a2].temp_models@.len() + k], n.models@[k]));
    }
}

/// Reading a written file stores its palette as written.
proof fn lemma_final_palette(options: ReadOptions, n: Scene, states: Seq<ReadState>)
    requires
        file_read_steps(options, n, states),
    ensures
        states[main_list(n).len() as int].palette.colors@ == stored_palette(n.palette.colors@),
{
    let parts = file_parts(n);
    lemma_starts(options, n, states);
    let a6 = part_start(parts, 6);
    lemma_chunk_of(CHUNK_ID_RGBA, rgba_content(n.palette.colors@));
    assert(parts[6] == seq![(CHUNK_ID_RGBA, rgba_content(n.palette.colors@), 0u32)]);
    assert(steps_read(options, parts[6], states, a6));
    assert(step_reads(options, parts[6][0], states[a6 + 0], states[a6 + 0 + 1])) by {
        reveal(steps_read);
    }
    lemma_part_start_grows(parts, 7, 10);
    lemma_rgba_read(options, n.palette.colors@, states[a6], states[a6 + 1]);
    assert(part_start(parts, 7) == a6 + 1);
    lemma_span_keeps(options, n, states, 7, 10);
    assert(parts_avoid(7, 10, CHUNK_ID_RGBA));
}

/// Reading a written file adds as many cameras as it holds.
proof fn lemma_final_cameras(options: ReadOptions, n: Scene, states: Seq<ReadState>)
    requires
        file_read_steps(options, n, states),
        initial_read_state(states[0]),
    ensures
        states[main_list(n).len() as int].cameras@.len() == n.cameras@.len(),
{
    let parts = file_parts(n);
    lemma_starts(options, n, states);
    lemma_span_keeps(options, n, states, 0, 4);
    assert(parts_avoid(0, 4, CHUNK_ID_RCAM));
    let a4 = part_start(parts, 4);
    assert(steps_read(options, parts[4], states, a4));
    lemma_cams_list(n);
    lemma_part_start_grows(parts, 5, 10);
    assert(part_start(parts, 5) == a4 + parts[4].len());
    lemma_cams_read(options, n, states, a4, n.cameras@.len());
    lemma_span_keeps(options, n, states, 5, 10);
    assert(parts_avoid(5, 10, CHUNK_ID_RCAM));
}

/// Reading a written file adds as many color names as it holds.
proof fn lemma_final_names(options: ReadOptions, n: Scene, states: Seq<ReadState>)
    requires
        file_read_steps(options, n, states),
        initial_read_state(states[0]),
        n.color_names@.len() <= u32::MAX,
    ensures
        states[main_list(n).len() as int].color_names@.len() == n.color_names@.len(),
{
    let parts = file_parts(n);
    lemma_starts(options, n, states);
    lemma_span_keeps(options, n, states, 0, 7);
    assert(parts_avoid(0, 7, CHUNK_ID_NOTE));
    let a7 = part_start(parts, 7);
    lemma_part_start_grows(parts, 8, 10);
    if n.color_names@.len() > 0 {
        lemma_chunk_of(CHUNK_ID_NOTE, note_content(n.color_names@));
        assert(parts[7] == seq![(CHUNK_ID_NOTE, note_content(n.color_names@), 0u32)]);
        assert(steps_read(options, parts[7], states, a7));
        assert(step_reads(options, parts[7][0], states[a7 + 0], states[a7 + 0 + 1])) by {
            reveal(steps_read);
        }
        lemma_note_read(options, n.color_names@, states[a7], states[a7 + 1]);
        assert(part_start(parts, 8) == a7 + 1);
    } else {
        assert(parts[7].len() == 0);
        assert(part_start(parts, 8) == a7);
    }
    lemma_span_keeps(options, n, states, 8, 10);
    assert(parts_avoid(8, 10, CHUNK_ID_NOTE));
}

/// Reading a written file adds as many layers as it holds, and no index map.
proof fn lemma_final_layers(options: ReadOptions, n: Scene, states: Seq<ReadState>)
    requires
        file_read_steps(options, n, states),
        initial_read_state(states[0]),
        n.layers@.len() <= 0x1_0000_0000,
    ensures
        states[main_list(n).len() as int].layers@.len() == n.layers@.len(),
        !states[main_list(n).len() as int].found_index_map,
{
    let parts = file_parts(n);
    lemma_starts(options, n, states);
    lemma_span_keeps(options, n, states, 0, 9);
    assert(parts_avoid(0, 9, CHUNK_ID_LAYR));
    let a9 = part_start(parts, 9);
    assert(steps_read(options, parts[9], states, a9));
    lemma_layers_list(n);
    lemma_part_start_grows(parts, 9, 10);
    assert(part_start(parts, 10) == a9 + parts[9].len());
    lemma_layers_read(options, n, states, a9, n.layers@.len());
    lemma_span_keeps(options, n, states, 0, 10);
    assert(parts_avoid(0, 10, CHUNK_ID_IMAP));
}

/// The options that keep everything a file holds: groups, keyframes, empty
/// models and duplicate models.
pub open spec fn keep_all() -> ReadOptions {
    ReadOptions {
        preserve_groups: true,
        preserve_keyframes: true,
        keep_empty_models_instances: true,
        keep_duplicate_models: true,
    }
}

/// The state after the last chunk of a successful read of a written file.
proof fn lemma_written_read_state(n: Scene, s0: ReadState, s1: ReadState)
    requires
        scene_writable(n),
        initial_read_state(s0),
        chunks_ok(file_bytes(n).skip(8), keep_all(), s0, s1),
    ensures
        s1.temp_models@.len() == n.models@.len(),
        forall|k: int| 0 <= k < n.models@.len() ==> holds_model(#[trigger] s1.temp_models@[k], n.models@[k]),
        s1.palette.colors@ == stored_palette(n.palette.colors@),
        s1.cameras@.len() == n.cameras@.len(),
        s1.color_names@.len() == n.color_names@.len(),
        s1.layers@.len() == n.layers@.len(),
        !s1.found_index_map,
        write_version(n) >= 200 && n.anim_range_start <= n.anim_range_end <= 0x7fff_ffff ==> s1.anim_range_start
            == n.anim_range_start && s1.anim_range_end == n.anim_range_end,
        write_version(n) < 200 ==> s1.anim_range_start == 0 && s1.anim_range_end == 30,
{
    reveal(scene_writable);
    let options = keep_all();
    let chunks = file_bytes(n).skip(8);
    let (states, pos, skips) = choose|states: Seq<ReadState>, pos: Seq<int>, skips: Seq<bool>|
        chunks_read(chunks, options, states, pos, skips) && states[0] == s0 && states.last() == s1 && pos.last()
            == chunks.len();
    lemma_file_run(n);
    assert(chunks.skip(pos[0]) =~= chunks);
    run_read_in_order(chunks, options, states, pos, skips, 0, main_list(n));
    assert(steps_read(options, main_list(n), states, 0)) by {
        reveal(steps_read);
    }
    assert(file_read_steps(options, n, states));
    lemma_final_models(options, n, states);
    lemma_final_palette(options, n, states);
    lemma_final_cameras(options, n, states);
    lemma_final_names(options, n, states);
    lemma_final_layers(options, n, states);
    lemma_final_anim(options, n, states);
}

/// Law: reading back, with everything kept, a file that writing gives for a
/// scene `n` that can be written gives, when it succeeds, the version written,
/// models the same as `n`'s, `n`'s palette with the alpha of entry `0` cleared,
/// as many cameras and color names as `n`, as many layers as `n`, or one added
/// layer when it has none, and `n`'s animation range when the version writes
/// one and it reads as a range, else the range from 0 to 30.
#[verifier::rlimit(100)]
pub proof fn written_file_reads_back(n: Scene, r: Result<Scene, VoxError>)
    requires
        scene_writable(n),
        read_outcome(file_bytes(n), keep_all(), r),
        r is Ok,
    ensures
        r->Ok_0.file_version == write_version(n),
        r->Ok_0.models@.len() == n.models@.len(),
        forall|k: int| 0 <= k < n.models@.len() ==> same_model(#[trigger] r->Ok_0.models@[k], n.models@[k]),
        forall|i: int|
            0 <= i < 256 ==> #[trigger] r->Ok_0.palette.colors@[i] == if i == 0 {
                Rgba { a: 0, ..n.palette.colors@[0] }
            } else {
                n.palette.colors@[i]
            },
        r->Ok_0.cameras@.len() == n.cameras@.len(),
        r->Ok_0.color_names@.len() == n.color_names@.len(),
        r->Ok_0.layers@.len() == if n.layers@.len() == 0 {
            1
        } else {
            n.layers@.len()
        },
        write_version(n) >= 200 && n.anim_range_start <= n.anim_range_end <= 0x7fff_ffff ==> r->Ok_0.anim_range_start
            == n.anim_range_start && r->Ok_0.anim_range_end == n.anim_range_end,
        write_version(n) < 200 ==> r->Ok_0.anim_range_start == 0 && r->Ok_0.anim_range_end == 30,
{
    let options = keep_all();
    let bytes = file_bytes(n);
    let t = r->Ok_0;
    let v = u32_at(bytes, 4);
    lemma_file_bytes_shape(n);
    let rest = le_bytes(0x4e49414d) + le_bytes(0) + le_bytes(main_children(n).len() as u32) + main_children(n);
    assert(bytes.skip(4) =~= le_bytes(write_version(n)) + rest);
    lemma_u32_prefix(write_version(n), rest);
    assert(v == u32_at(bytes.skip(4), 0));
    let p = choose|p: Scene| scene_read(bytes.skip(8), options, v, p) && #[trigger] regrouped(true, p, t);
    assert(t == p);
    let (s0, s1) = choose|s0: ReadState, s1: ReadState|
        initial_read_state(s0) && #[trigger] chunks_ok(bytes.skip(8), options, s0, s1) && scene_from(s1, options, v, p);
    lemma_written_read_state(n, s0, s1);
    let (g, l, m, d) = choose|
        g: (Seq<Instance>, Seq<Group>),
        l: (Seq<Layer>, Seq<Instance>),
        m: (Seq<Rgba>, Seq<Material>, Seq<Option<Model>>),
        d: (Seq<Option<Model>>, Seq<Instance>),
    | #[trigger] parts_built(s1, options, v, p, g, l, m, d);
    assert(m.2 == s1.temp_models@);
    assert(d.0 == m.2);
    assert(p.models@ == kept_models(d.0));
    assert forall|k: int| 0 <= k < d.0.len() implies (#[trigger] d.0[k]) is Some by {
        assert(holds_model(s1.temp_models@[k], n.models@[k]));
    }
    lemma_kept_all(d.0);
    assert forall|k: int| 0 <= k < n.models@.len() implies same_model(#[trigger] t.models@[k], n.models@[k]) by {
        assert(holds_model(s1.temp_models@[k], n.models@[k]));
        assert(Some(kept_models(d.0)[k]) == d.0[k]);
    }
    assert(m.0 == s1.palette.colors@);
    palette_round_trip(n.palette.colors@);
    assert forall|i: int| 0 <= i < 256 implies #[trigger] t.palette.colors@[i] == if i == 0 {
        Rgba { a: 0, ..n.palette.colors@[0] }
    } else {
        n.palette.colors@[i]
    } by {
        assert(t.palette.colors@[i] == scene_palette_color(m.0, i));
        assert(scene_palette_color(stored_palette(n.palette.colors@), i) == if i == 0 {
            Rgba { a: 0, ..n.palette.colors@[0] }
        } else {
            n.palette.colors@[i]
        });
    }
}

/// Reading a written metadata chunk sets its animation range.
proof fn lemma_meta_step(options: ReadOptions, a: u32, b: u32, s0: ReadState, s1: ReadState)
    requires
        step_reads(options, (CHUNK_ID_META, meta_content(a, b), 0u32), s0, s1),
        a <= b <= 0x7fff_ffff,
    ensures
        s1.anim_range_start == a && s1.anim_range_end == b,
{
    reveal(step_reads);
    anim_range_round_trip(a, b);
}

/// Reading a written file sets the animation range that it holds, when its
/// version writes one.
#[verifier::spinoff_prover]
#[verifier::rlimit(100)]
proof fn lemma_final_anim(options: ReadOptions, n: Scene, states: Seq<ReadState>)
    requires
        file_read_steps(options, n, states),
        initial_read_state(states[0]),
    ensures
        write_version(n) >= 200 && n.anim_range_start <= n.anim_range_end <= 0x7fff_ffff ==> states[main_list(
            n,
        ).len() as int].anim_range_start == n.anim_range_start && states[main_list(n).len() as int].anim_range_end
            == n.anim_range_end,
        write_version(n) < 200 ==> states[main_list(n).len() as int].anim_range_start == 0 && states[main_list(
            n,
        ).len() as int].anim_range_end == 30,
{
    let parts = file_parts(n);
    lemma_starts(options, n, states);
    lemma_part_start_grows(parts, 2, 10);
    let a1 = part_start(parts, 1);
    lemma_span_keeps(options, n, states, 2, 10);
    assert(parts_avoid(2, 10, CHUNK_ID_META));
    if write_version(n) >= 200 {
        if n.anim_range_start <= n.anim_range_end <= 0x7fff_ffff {
            let c = meta_content(n.anim_range_start, n.anim_range_end);
            lemma_chunk_of(CHUNK_ID_META, c);
            assert(parts[1] == seq![(CHUNK_ID_META, c, 0u32)]);
            assert(steps_read(options, parts[1], states, a1));
            assert(step_reads(options, parts[1][0], states[a1 + 0], states[a1 + 0 + 1])) by {
                reveal(steps_read);
            }
            lemma_meta_step(options, n.anim_range_start, n.anim_range_end, states[a1], states[a1 + 1]);
            assert(part_start(parts, 2) == a1 + 1);
        }
    } else {
        lemma_span_keeps(options, n, states, 0, 1);
        assert(parts_avoid(0, 1, CHUNK_ID_META));
        assert(parts[1].len() == 0);
        assert(part_start(parts, 2) == a1);
    }
}

} // verus!
