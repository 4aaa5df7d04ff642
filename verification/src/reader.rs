use vstd::prelude::*;

use crate::bytes::{u32_at, ByteReader, LimitedReader};
use crate::bytes::min_int;
use crate::chunks::{
    imap_read, layr_read, meta_read, note_read, read_imap_chunk, read_layr_chunk, read_meta_chunk,
    read_note_chunk, read_rgba_chunk, read_size_chunk, read_xyzi_chunk, rgba_read, size_read, state_ok,
    xyzi_read, ReadState,
};
use crate::material_chunks::{matl_read, matt_read, rcam_read, robj_read};
use crate::node_chunks::{ngrp_read, nshp_read, ntrn_read};
use crate::index_map::{apply_index_map, color_source, material_source, remapped_voxel, same_material};
use crate::material_chunks::{read_matl_chunk, read_matt_chunk, read_rcam_chunk, read_robj_chunk};
use crate::models::{
    canonical, compact_models, dedupe_models, instance_remapped, kept_index, kept_models, lemma_canonical,
    model_refs_below, shows_empty, same_model, lemma_kept_index, holds_same, lemma_first_match, lemma_kept_source,
    lemma_kept_index_grows,
};
use crate::node_chunks::{read_ngrp_chunk, read_nshp_chunk, read_ntrn_chunk};
use crate::nodes::{
    generate_instances_for_node, group_built, walk_children, TempTransformNode, groups_ordered, instance_built, instances_placed, nodes_ok, walk_built, walk_node, TempNode,
};
use crate::types::{raw_default_color, scene_palette_color, MaterialType, MediaType, Rgba};
use crate::read::{
    CHUNK_ID_IMAP, CHUNK_ID_LAYR, CHUNK_ID_MATL, CHUNK_ID_MATT, CHUNK_ID_META, CHUNK_ID_NGRP,
    CHUNK_ID_NOTE, CHUNK_ID_NSHP, CHUNK_ID_NTRN, CHUNK_ID_RCAM, CHUNK_ID_RGBA, CHUNK_ID_ROBJ,
    CHUNK_ID_SIZE, CHUNK_ID_VOX, CHUNK_ID_XYZI,
};
use crate::scene::{
    added_layer, default_layer_on_missing_scene_layer, default_materials, default_root_group,
    flatten_groups, graph_ordered, group_rotations_valid, instance_rotations_valid, is_added_root,
    parents_precede, ref_ok, references_valid, validate_scene_references, AnimTransform, Group,
    Instance, Material, Scene, chain_transform, group_refs_ok, group_chain, same_content,
};
use crate::transform::CardinalTransform;
use crate::types::{rotate_palette_right, AnimModel, Layer, Model, Palette, ReadOptions, VoxError};

verus! {

/// Whether `s` is the state before any chunk is read: no size, the raw default
/// palette, 256 plain materials, no models, nodes, layers, cameras, color names,
/// index map or sun, and the animation range from 0 to 30.
pub open spec fn initial_read_state(s: ReadState) -> bool {
    &&& s.size_x == 0 && s.size_y == 0 && s.size_z == 0
    &&& forall|i: int| 0 <= i < 256 ==> #[trigger] s.palette.colors@[i] == raw_default_color(i)
    &&& s.materials@.len() == 256
    &&& forall|i: int|
        0 <= i < 256 ==> !(#[trigger] s.materials@[i]).has_any() && s.materials@[i].material_type
            == MaterialType::Diffuse && s.materials@[i].media_type == MediaType::Absorb
    &&& s.temp_models@.len() == 0
    &&& s.nodes@.len() == 0
    &&& s.layers@.len() == 0
    &&& s.cameras@.len() == 0
    &&& s.color_names@.len() == 0
    &&& !s.found_index_map
    &&& s.sun is None
    &&& s.anim_range_start == 0
    &&& s.anim_range_end == 30
}

/// The state before any chunk is read.
fn new_read_state() -> (s: ReadState)
    ensures
        state_ok(s),
        initial_read_state(s),
{
    ReadState {
        size_x: 0,
        size_y: 0,
        size_z: 0,
        palette: Palette::raw_default(),
        materials: default_materials(),
        temp_models: Vec::new(),
        nodes: Vec::new(),
        layers: Vec::new(),
        cameras: Vec::new(),
        color_names: Vec::new(),
        found_index_map: false,
        index_map: [0u8; 256],
        sun: None,
        anim_range_start: 0,
        anim_range_end: 30,
    }
}

/// A chunk reader's result as the chunk loop sees it: success means the rest of
/// the chunk is skipped.
pub open spec fn unit_of(r: Result<bool, VoxError>) -> Result<(), VoxError> {
    match r {
        Ok(_) => Ok(()),
        Err(e) => Err(e),
    }
}

/// What reading one chunk with id `id` and payload `p` does to the read state
/// `s0`, giving `s1` and `r`: the reader for its id does it, and a chunk of an
/// unknown id is passed over.
pub open spec fn chunk_read(
    id: u32,
    s0: ReadState,
    p: Seq<u8>,
    s1: ReadState,
    options: ReadOptions,
    r: Result<bool, VoxError>,
) -> bool {
    if id == CHUNK_ID_XYZI {
        xyzi_read(s0, p, s1, options.keep_empty_models_instances, r)
    } else {
        &&& r is Ok ==> r == Ok::<bool, VoxError>(true)
        &&& if id == CHUNK_ID_SIZE {
            size_read(s0, p, s1, unit_of(r))
        } else if id == CHUNK_ID_RGBA {
            rgba_read(s0, p, s1, unit_of(r))
        } else if id == CHUNK_ID_NTRN {
            ntrn_read(s0, p, s1, unit_of(r))
        } else if id == CHUNK_ID_NGRP {
            ngrp_read(s0, p, s1, unit_of(r))
        } else if id == CHUNK_ID_NSHP {
            nshp_read(s0, p, s1, unit_of(r))
        } else if id == CHUNK_ID_IMAP {
            imap_read(s0, p, s1, unit_of(r))
        } else if id == CHUNK_ID_LAYR {
            layr_read(s0, p, s1, unit_of(r))
        } else if id == CHUNK_ID_MATL {
            matl_read(s0, p, s1, unit_of(r))
        } else if id == CHUNK_ID_MATT {
            matt_read(s0, p, s1, unit_of(r))
        } else if id == CHUNK_ID_META {
            meta_read(s0, p, s1, unit_of(r))
        } else if id == CHUNK_ID_NOTE {
            note_read(s0, p, s1, unit_of(r))
        } else if id == CHUNK_ID_RCAM {
            rcam_read(s0, p, s1, unit_of(r))
        } else if id == CHUNK_ID_ROBJ {
            robj_read(s0, p, s1, unit_of(r))
        } else {
            s1 == s0 && r == Ok::<bool, VoxError>(true)
        }
    }
}

/// The payload of the chunk at `pos` of `bytes`: its size in bytes from twelve
/// bytes on, cut to what the bytes hold.
pub open spec fn payload_at(bytes: Seq<u8>, pos: int) -> Seq<u8> {
    bytes.skip(pos + 12).take(min_int(u32_at(bytes, pos + 4) as int, bytes.len() - pos - 12))
}

/// Where the chunk after the one at `pos` starts: past its header and its
/// payload, or only four bytes of the payload when its reader says so.
pub open spec fn next_chunk(bytes: Seq<u8>, pos: int, skip_rest: bool) -> int {
    pos + 12 + if skip_rest {
        u32_at(bytes, pos + 4) as int
    } else {
        4
    }
}

/// Whether the chunks of `bytes` from the start were read one after the other:
/// chunk `i` starts at `pos[i]`, takes the state from `states[i]` to
/// `states[i + 1]` and succeeds with `skips[i]`, and the next chunk starts where
/// it ends.
pub open spec fn chunks_read(
    bytes: Seq<u8>,
    options: ReadOptions,
    states: Seq<ReadState>,
    pos: Seq<int>,
    skips: Seq<bool>,
) -> bool {
    &&& states.len() == skips.len() + 1
    &&& pos.len() == skips.len() + 1
    &&& pos[0] == 0
    &&& forall|i: int| 0 <= i < skips.len() ==> #[trigger] chunk_step(bytes, options, states[i], states[i + 1], pos[i], pos[i + 1], skips[i])
}

/// Whether the chunk at `at` of `bytes` reads, taking state `s0` to `s1` and
/// succeeding with `skip_rest`, and the next chunk starts at `next`.
pub open spec fn chunk_step(
    bytes: Seq<u8>,
    options: ReadOptions,
    s0: ReadState,
    s1: ReadState,
    at: int,
    next: int,
    skip_rest: bool,
) -> bool {
    &&& at + 12 <= bytes.len()
    &&& chunk_read(u32_at(bytes, at), s0, payload_at(bytes, at), s1, options, Ok(skip_rest))
    &&& next == next_chunk(bytes, at, skip_rest)
    &&& next <= bytes.len()
}

/// Whether reading the chunks of `bytes` from state `s0` ends in state `s1`:
/// every chunk reads, and the last one ends where the bytes do.
pub open spec fn chunks_ok(bytes: Seq<u8>, options: ReadOptions, s0: ReadState, s1: ReadState) -> bool {
    exists|states: Seq<ReadState>, pos: Seq<int>, skips: Seq<bool>|
        #![trigger chunks_read(bytes, options, states, pos, skips)]
        chunks_read(bytes, options, states, pos, skips) && states[0] == s0 && states.last() == s1 && pos.last()
            == bytes.len()
}

/// Whether reading the chunks of `bytes` from state `s0` fails with `e`: the
/// chunks before read, and then the bytes end inside a chunk's header, the
/// chunk's reader fails, or its payload runs past the end.
pub open spec fn chunks_fail(bytes: Seq<u8>, options: ReadOptions, s0: ReadState, e: VoxError) -> bool {
    exists|states: Seq<ReadState>, pos: Seq<int>, skips: Seq<bool>|
        #![trigger chunks_read(bytes, options, states, pos, skips)]
        chunks_read(bytes, options, states, pos, skips) && states[0] == s0 && {
            let at = pos.last();
            let s = states.last();
            ||| (at < bytes.len() < at + 12 && e == VoxError::UnexpectedEof)
            ||| (at + 12 <= bytes.len() && exists|s1: ReadState|
                #![trigger chunk_read(u32_at(bytes, at), s, payload_at(bytes, at), s1, options, Err(e))]
                chunk_read(u32_at(bytes, at), s, payload_at(bytes, at), s1, options, Err(e)))
            ||| (at + 12 <= bytes.len() && exists|s1: ReadState, b: bool|
                #![trigger chunk_read(u32_at(bytes, at), s, payload_at(bytes, at), s1, options, Ok(b))]
                chunk_read(u32_at(bytes, at), s, payload_at(bytes, at), s1, options, Ok(b)) && next_chunk(
                    bytes,
                    at,
                    b,
                ) > bytes.len() && e == VoxError::UnexpectedEof)
        }
}

/// One more chunk read after those before keeps them read one after the other.
proof fn lemma_chunks_read_push(
    bytes: Seq<u8>,
    options: ReadOptions,
    states: Seq<ReadState>,
    pos: Seq<int>,
    skips: Seq<bool>,
    s1: ReadState,
    b: bool,
)
    requires
        chunks_read(bytes, options, states, pos, skips),
        chunk_step(bytes, options, states.last(), s1, pos.last(), next_chunk(bytes, pos.last(), b), b),
    ensures
        chunks_read(
            bytes,
            options,
            states.push(s1),
            pos.push(next_chunk(bytes, pos.last(), b)),
            skips.push(b),
        ),
{
    let st = states.push(s1);
    let ps = pos.push(next_chunk(bytes, pos.last(), b));
    let sk = skips.push(b);
    assert forall|i: int| 0 <= i < sk.len() implies #[trigger] chunk_step(bytes, options, st[i], st[i + 1], ps[i], ps[i + 1], sk[i]) by {
        if i < skips.len() {
            assert(chunk_step(bytes, options, states[i], states[i + 1], pos[i], pos[i + 1], skips[i]));
        }
    }
    assert(ps[0] == pos[0]);
}

/// Reads the payload of one chunk into the state. Returns whether the rest of
/// the chunk is to be skipped; it is not after an empty model that is dropped,
/// of which four bytes were read. Unknown chunks are ignored.
fn read_chunk(
    id: u32,
    state: &mut ReadState,
    payload: &mut LimitedReader,
    options: ReadOptions,
) -> (r: Result<bool, VoxError>)
    requires
        state_ok(*old(state)),
        old(payload).wf(),
    ensures
        state_ok(*final(state)),
        r == Ok::<bool, VoxError>(false) ==> old(payload).avail().len() >= 4,
        chunk_read(id, *old(state), old(payload).avail(), *final(state), options, r),
{
    if id == CHUNK_ID_SIZE {
        match read_size_chunk(state, payload) {
            Ok(()) => Ok(true),
            Err(e) => Err(e),
        }
    } else if id == CHUNK_ID_XYZI {
        read_xyzi_chunk(state, payload, options.keep_empty_models_instances)
    } else if id == CHUNK_ID_RGBA {
        match read_rgba_chunk(state, payload) {
            Ok(()) => Ok(true),
            Err(e) => Err(e),
        }
    } else if id == CHUNK_ID_NTRN {
        match read_ntrn_chunk(state, payload) {
            Ok(()) => Ok(true),
            Err(e) => Err(e),
        }
    } else if id == CHUNK_ID_NGRP {
        match read_ngrp_chunk(state, payload) {
            Ok(()) => Ok(true),
            Err(e) => Err(e),
        }
    } else if id == CHUNK_ID_NSHP {
        match read_nshp_chunk(state, payload) {
            Ok(()) => Ok(true),
            Err(e) => Err(e),
        }
    } else if id == CHUNK_ID_IMAP {
        match read_imap_chunk(state, payload) {
            Ok(()) => Ok(true),
            Err(e) => Err(e),
        }
    } else if id == CHUNK_ID_LAYR {
        match read_layr_chunk(state, payload) {
            Ok(()) => Ok(true),
            Err(e) => Err(e),
        }
    } else if id == CHUNK_ID_MATL {
        match read_matl_chunk(state, payload) {
            Ok(()) => Ok(true),
            Err(e) => Err(e),
        }
    } else if id == CHUNK_ID_MATT {
        match read_matt_chunk(state, payload) {
            Ok(()) => Ok(true),
            Err(e) => Err(e),
        }
    } else if id == CHUNK_ID_META {
        match read_meta_chunk(state, payload) {
            Ok(()) => Ok(true),
            Err(e) => Err(e),
        }
    } else if id == CHUNK_ID_NOTE {
        match read_note_chunk(state, payload) {
            Ok(()) => Ok(true),
            Err(e) => Err(e),
        }
    } else if id == CHUNK_ID_RCAM {
        match read_rcam_chunk(state, payload) {
            Ok(()) => Ok(true),
            Err(e) => Err(e),
        }
    } else if id == CHUNK_ID_ROBJ {
        match read_robj_chunk(state, payload) {
            Ok(()) => Ok(true),
            Err(e) => Err(e),
        }
    } else {
        Ok(true)
    }
}

/// Reads chunks until the data ends: each an id, a payload size, a size of its
/// children and the payload. The children of `MAIN` follow it as chunks of their
/// own.
fn read_chunks(reader: &mut ByteReader, state: &mut ReadState, options: ReadOptions) -> (r: Result<(), VoxError>)
    requires
        old(reader).wf(),
        state_ok(*old(state)),
    ensures
        state_ok(*final(state)),
        r is Ok ==> chunks_ok(old(reader).rest(), options, *old(state), *final(state)),
        r matches Err(e) ==> chunks_fail(old(reader).rest(), options, *old(state), e),
{
    let ghost bytes = reader.rest();
    let ghost mut states: Seq<ReadState> = seq![*state];
    let ghost mut pos: Seq<int> = seq![0int];
    let ghost mut skips: Seq<bool> = Seq::empty();
    assert(bytes.skip(0) =~= bytes);
    let ghost s_init = *state;
    let mut result: Result<(), VoxError> = Ok(());
    loop
        invariant_except_break
            reader.wf(),
            state_ok(*state),
            chunks_read(bytes, options, states, pos, skips),
            states[0] == s_init,
            states.last() == *state,
            0 <= pos.last() <= bytes.len(),
            reader.rest() == bytes.skip(pos.last()),
        ensures
            state_ok(*state),
            result is Ok ==> chunks_ok(bytes, options, s_init, *state),
            result matches Err(e) ==> chunks_fail(bytes, options, s_init, e),
        decreases reader.rest().len(),
    {
        let ghost before = reader.rest();
        let ghost at = pos.last();
        let ghost s_before = *state;
        let id = match reader.read_u32_or_eof() {
            Ok(Some(id)) => id,
            Ok(None) => {
                proof {
                    assert(at == bytes.len());
                    assert(chunks_read(bytes, options, states, pos, skips) && states[0] == s_init);
                    assert(chunks_ok(bytes, options, s_init, *state));
                }
                result = Ok(());
                break;
            },
            Err(e) => {
                proof {
                    assert(chunks_read(bytes, options, states, pos, skips) && states[0] == s_init);
                    assert(bytes.len() == at + before.len());
                }
                result = Err(e);
                break;
            },
        };
        let size = match reader.read_u32() {
            Ok(v) => v,
            Err(e) => {
                proof {
                    assert(chunks_read(bytes, options, states, pos, skips) && states[0] == s_init);
                    assert(bytes.len() == at + before.len());
                }
                result = Err(e);
                break;
            },
        };
        let _child_size = match reader.read_u32() {
            Ok(v) => v,
            Err(e) => {
                proof {
                    assert(chunks_read(bytes, options, states, pos, skips) && states[0] == s_init);
                    assert(bytes.len() == at + before.len());
                }
                result = Err(e);
                break;
            },
        };
        proof {
            assert(before.len() >= 12);
            assert(id == u32_at(bytes, at)) by {
                assert(before[0] == bytes[at] && before[1] == bytes[at + 1] && before[2] == bytes[at + 2]
                    && before[3] == bytes[at + 3]);
            }
            assert(size == u32_at(bytes, at + 4)) by {
                assert(before.skip(4)[0] == bytes[at + 4] && before.skip(4)[1] == bytes[at + 5]
                    && before.skip(4)[2] == bytes[at + 6] && before.skip(4)[3] == bytes[at + 7]);
            }
            assert(reader.rest() =~= bytes.skip(at + 12));
        }
        let mut payload = reader.limited(size as usize);
        proof {
            assert(payload.avail() =~= payload_at(bytes, at));
        }
        let skip_rest = match read_chunk(id, state, &mut payload, options) {
            Ok(b) => b,
            Err(e) => {
                proof {
                    assert(chunk_read(u32_at(bytes, at), s_before, payload_at(bytes, at), *state, options, Err(e)));
                    assert(chunks_read(bytes, options, states, pos, skips) && states[0] == s_init);
                }
                result = Err(e);
                break;
            },
        };
        let skip_len: usize = if skip_rest {
            size as usize
        } else {
            4
        };
        match reader.skip(skip_len) {
            Ok(()) => {},
            Err(e) => {
                proof {
                    assert(chunk_read(u32_at(bytes, at), s_before, payload_at(bytes, at), *state, options, Ok(skip_rest)));
                    assert(next_chunk(bytes, at, skip_rest) > bytes.len());
                    assert(chunks_read(bytes, options, states, pos, skips) && states[0] == s_init);
                }
                result = Err(e);
                break;
            },
        }
        proof {
            let next = next_chunk(bytes, at, skip_rest);
            assert(reader.rest() =~= bytes.skip(next));
            assert(chunk_read(u32_at(bytes, at), s_before, payload_at(bytes, at), *state, options, Ok(skip_rest)));
            lemma_chunks_read_push(bytes, options, states, pos, skips, *state, skip_rest);
            states = states.push(*state);
            pos = pos.push(next);
            skips = skips.push(skip_rest);
        }
    }
    result
}

/// Whether every instance lies in an existing group, names models below
/// `models_len`, and has valid rotations.
pub open spec fn instances_in_graph(instances: Seq<Instance>, groups_len: nat, models_len: nat) -> bool {
    forall|i: int|
        0 <= i < instances.len() ==> {
            let inst = #[trigger] instances[i];
            &&& inst.group_index matches Some(g) && g < groups_len
            &&& model_refs_below(inst, models_len)
            &&& instance_rotations_valid(inst)
        }
}

/// Whether `inst` is the instance given to a file with one model and no scene
/// graph: model `0` in layer `0` and group `0`, unnamed, untransformed, shown and
/// not animated.
pub open spec fn is_lone_instance(inst: Instance) -> bool {
    &&& inst.name is None
    &&& inst.transform == (CardinalTransform { rotation: 4, tx: 0, ty: 0, tz: 0 })
    &&& inst.model_index == 0
    &&& inst.layer_index == Some(0usize)
    &&& inst.group_index == Some(0usize)
    &&& !inst.hidden
    &&& inst.transform_anim.keyframes@.len() == 0
    &&& !inst.transform_anim.looped
    &&& inst.model_anim.keyframes@.len() == 0
    &&& !inst.model_anim.looped
}

/// How deep the walk of a scene graph of `n` nodes may go.
pub open spec fn graph_fuel(n: nat) -> nat {
    if n < usize::MAX {
        n + 1
    } else {
        n
    }
}

/// Builds the instances and groups of the scene. With a scene graph, walks it
/// from node `0`; without one, a file with exactly one model gets one instance of
/// it in a root group, and other files get neither.
fn build_graph(
    nodes: &Vec<TempNode>,
    models: &Vec<Option<Model>>,
    preserve_keyframes: bool,
) -> (r: Result<(Vec<Instance>, Vec<Group>), VoxError>)
    requires
        nodes_ok(nodes@, models@.len()),
    ensures
        r matches Ok((instances, groups)) ==> groups_ordered(groups@) && instances_in_graph(
            instances@,
            groups@.len(),
            models@.len(),
        ),
        r is Err ==> r->Err_0 is InvalidNodeGraph,
        nodes@.len() > 0 && nodes@[0] is Invalid ==> r is Err,
        nodes@.len() > 0 && !(nodes@[0] is Invalid) ==> match walk_node(
            nodes@,
            0,
            models@,
            None,
            None,
            0,
            graph_fuel(nodes@.len()),
        ) {
            None => r is Err,
            Some(out) => r is Ok && walk_built(r->Ok_0.1@, r->Ok_0.0@, 0, 0, out, preserve_keyframes),
        },
        nodes@.len() == 0 && models@.len() != 1 ==> r is Ok && r->Ok_0.0@.len() == 0 && r->Ok_0.1@.len() == 0,
        nodes@.len() == 0 && models@.len() == 1 ==> r is Ok && r->Ok_0.0@.len() == 1 && is_lone_instance(
            r->Ok_0.0@[0],
        ) && r->Ok_0.1@.len() == 1 && is_added_root(r->Ok_0.1@[0], Some(0)),
{
    let mut instances: Vec<Instance> = Vec::new();
    let mut groups: Vec<Group> = Vec::new();
    if nodes.len() > 0 {
        if let TempNode::Invalid = &nodes[0] {
            return Err(VoxError::InvalidNodeGraph("root node 0 is missing"));
        }
        let fuel: usize = if nodes.len() < usize::MAX {
            nodes.len() + 1
        } else {
            nodes.len()
        };
        match generate_instances_for_node(
            nodes,
            0,
            models,
            &mut instances,
            &mut groups,
            None,
            None,
            preserve_keyframes,
            fuel,
        ) {
            Ok(()) => {},
            Err(e) => {
                return Err(e);
            },
        }
        assert(instances_in_graph(instances@, groups@.len(), models@.len())) by {
            assert forall|i: int| 0 <= i < instances@.len() implies {
                let inst = #[trigger] instances@[i];
                &&& inst.group_index matches Some(g) && g < groups@.len()
                &&& model_refs_below(inst, models@.len())
                &&& instance_rotations_valid(inst)
            } by {
                let inst = instances@[i];
                assert(crate::scene::keyframe_models_ok(inst.model_anim.keyframes@, models@.len()));
            }
        }
        Ok((instances, groups))
    } else if models.len() == 1 {
        instances.push(
            Instance {
                name: None,
                transform: CardinalTransform::identity(),
                model_index: 0,
                layer_index: Some(0),
                group_index: Some(0),
                hidden: false,
                transform_anim: AnimTransform::default(),
                model_anim: AnimModel::default(),
            },
        );
        groups.push(default_root_group(Some(0)));
        Ok((instances, groups))
    } else {
        Ok((instances, groups))
    }
}

/// Gives a scene without layers one: every instance moves to layer `0`, the
/// added layer.
fn ensure_layers(layers: &mut Vec<Layer>, instances: &mut Vec<Instance>)
    ensures
        old(layers)@.len() > 0 ==> final(layers)@ == old(layers)@ && final(instances)@ == old(instances)@,
        old(layers)@.len() == 0 ==> final(layers)@ == seq![added_layer()] && final(instances)@.len()
            == old(instances)@.len() && forall|i: int|
            0 <= i < old(instances)@.len() ==> #[trigger] final(instances)@[i] == (Instance {
                layer_index: Some(0),
                ..old(instances)@[i]
            }),
{
    if layers.len() > 0 {
        return;
    }
    let mut i: usize = 0;
    while i < instances.len()
        invariant
            i <= instances@.len(),
            instances@.len() == old(instances)@.len(),
            forall|k: int|
                0 <= k < i ==> #[trigger] instances@[k] == (Instance { layer_index: Some(0), ..old(instances)@[k] }),
            forall|k: int| i <= k < instances@.len() ==> #[trigger] instances@[k] == old(instances)@[k],
        decreases instances@.len() - i,
    {
        instances[i].layer_index = Some(0);
        i += 1;
    }
    layers.push(default_layer_on_missing_scene_layer());
    assert(layers@ =~= seq![added_layer()]);
}

/// The models that are held, in order.
fn held_models(slots: Vec<Option<Model>>) -> (models: Vec<Model>)
    ensures
        models@ == kept_models(slots@),
{
    let ghost all = slots@;
    let mut rest = slots;
    let mut models: Vec<Model> = Vec::new();
    let n = rest.len();
    let mut j: usize = 0;
    while j < n
        invariant
            j <= n,
            n == all.len(),
            rest@.len() == n,
            models@ == kept_models(all.take(j as int)),
            forall|i: int| j <= i < n ==> #[trigger] rest@[i] == all[i],
        decreases n - j,
    {
        let mut slot: Option<Model> = None;
        rest.set_and_swap(j, &mut slot);
        match slot {
            Some(m) => {
                models.push(m);
            },
            None => {},
        }
        assert(all.take(j + 1).drop_last() =~= all.take(j as int));
        j += 1;
    }
    assert(all.take(n as int) =~= all);
    models
}

/// Whether `instances` and `groups` are what the scene graph of `nodes` gives
/// over the model slots `models`: the walk from node `0` when there are nodes;
/// without nodes, one lone instance in an added root group when there is exactly
/// one model, and nothing otherwise.
pub open spec fn graph_of(
    nodes: Seq<TempNode>,
    models: Seq<Option<Model>>,
    preserve_keyframes: bool,
    instances: Seq<Instance>,
    groups: Seq<Group>,
) -> bool {
    if nodes.len() == 0 {
        if models.len() == 1 {
            &&& instances.len() == 1
            &&& is_lone_instance(instances[0])
            &&& groups.len() == 1
            &&& is_added_root(groups[0], Some(0))
        } else {
            instances.len() == 0 && groups.len() == 0
        }
    } else {
        &&& !(nodes[0] is Invalid)
        &&& match walk_node(nodes, 0, models, None, None, 0, graph_fuel(nodes.len())) {
            Some(out) => walk_built(groups, instances, 0, 0, out, preserve_keyframes),
            None => false,
        }
    }
}

/// Whether the scene graph of `nodes` cannot be walked: node `0` is missing, or
/// the walk from it fails.
pub open spec fn graph_fails(nodes: Seq<TempNode>, models: Seq<Option<Model>>) -> bool {
    &&& nodes.len() > 0
    &&& (nodes[0] is Invalid || walk_node(nodes, 0, models, None, None, 0, graph_fuel(nodes.len())) is None)
}

/// Whether `layers2` and `instances2` are `layers` and `instances` after a scene
/// without layers got one: then every instance moves to the added layer `0`.
pub open spec fn layered(
    layers: Seq<Layer>,
    instances: Seq<Instance>,
    layers2: Seq<Layer>,
    instances2: Seq<Instance>,
) -> bool {
    if layers.len() > 0 {
        layers2 == layers && instances2 == instances
    } else {
        &&& layers2 == seq![added_layer()]
        &&& instances2.len() == instances.len()
        &&& forall|i: int|
            0 <= i < instances.len() ==> #[trigger] instances2[i] == (Instance {
                layer_index: Some(0),
                ..instances[i]
            })
    }
}

/// Whether `colors`, `materials` and `slots` are the palette, materials and
/// model slots of `s` after its index map, when it read one, was applied.
pub open spec fn index_mapped(
    s: ReadState,
    colors: Seq<Rgba>,
    materials: Seq<Material>,
    slots: Seq<Option<Model>>,
) -> bool {
    if s.found_index_map {
        let map = s.index_map@;
        &&& colors.len() == 256
        &&& forall|i: int| 0 <= i < 256 ==> #[trigger] colors[i] == s.palette.colors@[color_source(map, i)]
        &&& materials.len() == 256
        &&& forall|i: int|
            0 <= i < 256 ==> same_material(#[trigger] materials[i], s.materials@[material_source(map, i)])
        &&& slots.len() == s.temp_models@.len()
        &&& forall|j: int|
            0 <= j < slots.len() ==> match (#[trigger] s.temp_models@[j], slots[j]) {
                (None, None) => true,
                (Some(a), Some(b)) => b.size_x == a.size_x && b.size_y == a.size_y && b.size_z == a.size_z
                    && b.voxels@ == a.voxels@.map_values(|v: u8| remapped_voxel(map, v)),
                _ => false,
            }
    } else {
        colors == s.palette.colors@ && materials == s.materials@ && slots == s.temp_models@
    }
}

/// Whether `slots2` and `instances2` are `slots` and `instances` after
/// duplicate models were merged, unless they are kept: each model gives way to
/// the first one equal to it, and every instance follows.
pub open spec fn deduped(
    keep: bool,
    slots: Seq<Option<Model>>,
    instances: Seq<Instance>,
    slots2: Seq<Option<Model>>,
    instances2: Seq<Instance>,
) -> bool {
    if keep {
        slots2 == slots && instances2 == instances
    } else {
        &&& slots2.len() == slots.len()
        &&& forall|j: int|
            0 <= j < slots.len() ==> #[trigger] slots2[j] == if canonical(slots, j) == j {
                slots[j]
            } else {
                None
            }
        &&& instances2.len() == instances.len()
        &&& forall|t: int|
            0 <= t < instances.len() ==> instance_remapped(
                #[trigger] instances[t],
                instances2[t],
                Seq::new(slots.len(), |j: int| canonical(slots, j) as usize),
            )
    }
}

/// Whether no two of `models` are the same.
pub open spec fn models_distinct(models: Seq<Model>) -> bool {
    forall|a: int, b: int| 0 <= a < b < models.len() ==> !same_model(#[trigger] models[a], #[trigger] models[b])
}

/// After duplicates are merged, the models held are all different.
proof fn lemma_deduped_distinct(
    slots: Seq<Option<Model>>,
    instances: Seq<Instance>,
    slots2: Seq<Option<Model>>,
    instances2: Seq<Instance>,
)
    requires
        deduped(false, slots, instances, slots2, instances2),
    ensures
        models_distinct(kept_models(slots2)),
{
    let kept = kept_models(slots2);
    assert forall|a: int, b: int| 0 <= a < b < kept.len() implies !same_model(#[trigger] kept[a], #[trigger] kept[b]) by {
        lemma_kept_source(slots2, a);
        lemma_kept_source(slots2, b);
        let j = choose|j: int| 0 <= j < slots2.len() && slots2[j] == Some(kept[a]) && #[trigger] kept_index(slots2, j) == a;
        let k = choose|k: int| 0 <= k < slots2.len() && slots2[k] == Some(kept[b]) && #[trigger] kept_index(slots2, k) == b;
        if k <= j {
            lemma_kept_index_grows(slots2, k, j);
        }
        assert(j < k);
        assert(canonical(slots, k) == k);
        let mk = slots[k]->Some_0;
        lemma_first_match(slots, mk, k + 1);
        assert(!holds_same(slots, j, mk));
    }
}

/// Whether some instance shows a model slot that holds no model.
pub open spec fn empty_shown(slots: Seq<Option<Model>>, instances: Seq<Instance>) -> bool {
    exists|t: int| 0 <= t < instances.len() && shows_empty(slots, #[trigger] instances[t])
}

/// Whether `models` and `instances2` are the models held in `slots` and
/// `instances` after the empty slots were dropped: unless they are kept, every
/// instance then follows its model to its new place.
pub open spec fn compacted(
    keep: bool,
    slots: Seq<Option<Model>>,
    instances: Seq<Instance>,
    models: Seq<Model>,
    instances2: Seq<Instance>,
) -> bool {
    &&& models == kept_models(slots)
    &&& if keep {
        instances2 == instances
    } else {
        &&& !empty_shown(slots, instances)
        &&& instances2.len() == instances.len()
        &&& forall|t: int|
            0 <= t < instances.len() ==> instance_remapped(
                #[trigger] instances[t],
                instances2[t],
                Seq::new(slots.len(), |j: int| kept_index(slots, j) as usize),
            )
    }
}

/// Whether `scene` is built from the state `s` after the last chunk, through
/// the steps whose results are `graph` (instances and groups of the scene
/// graph), `laid` (layers and instances once a layer is ensured), `mapped`
/// (palette, materials and model slots after the index map) and `merged`
/// (model slots and instances after duplicates are merged).
pub open spec fn parts_built(
    s: ReadState,
    options: ReadOptions,
    version: u32,
    scene: Scene,
    graph: (Seq<Instance>, Seq<Group>),
    laid: (Seq<Layer>, Seq<Instance>),
    mapped: (Seq<Rgba>, Seq<Material>, Seq<Option<Model>>),
    merged: (Seq<Option<Model>>, Seq<Instance>),
) -> bool {
    &&& graph_of(s.nodes@, s.temp_models@, options.preserve_keyframes, graph.0, graph.1)
    &&& layered(s.layers@, graph.0, laid.0, laid.1)
    &&& index_mapped(s, mapped.0, mapped.1, mapped.2)
    &&& deduped(options.keep_duplicate_models, mapped.2, laid.1, merged.0, merged.1)
    &&& compacted(options.keep_empty_models_instances, merged.0, merged.1, scene.models@, scene.instances@)
    &&& scene.layers@ == laid.0
    &&& scene.groups@ == graph.1
    &&& forall|i: int| 0 <= i < 256 ==> #[trigger] scene.palette.colors@[i] == scene_palette_color(mapped.0, i)
    &&& scene.materials@ == mapped.1
    &&& scene.file_version == version
    &&& scene.color_names@ == s.color_names@
    &&& scene.cameras@ == s.cameras@
    &&& scene.sun == s.sun
    &&& scene.anim_range_start == s.anim_range_start
    &&& scene.anim_range_end == s.anim_range_end
}

/// Whether `scene` is what the state `s` after the last chunk gives.
pub open spec fn scene_from(s: ReadState, options: ReadOptions, version: u32, scene: Scene) -> bool {
    exists|
        graph: (Seq<Instance>, Seq<Group>),
        laid: (Seq<Layer>, Seq<Instance>),
        mapped: (Seq<Rgba>, Seq<Material>, Seq<Option<Model>>),
        merged: (Seq<Option<Model>>, Seq<Instance>),
    | #[trigger] parts_built(s, options, version, scene, graph, laid, mapped, merged)
}

/// Whether building a scene from the state `s` reaches an instance that shows
/// an empty model slot while empty models are dropped.
pub open spec fn parts_fail(
    s: ReadState,
    options: ReadOptions,
    graph: (Seq<Instance>, Seq<Group>),
    laid: (Seq<Layer>, Seq<Instance>),
    mapped: (Seq<Rgba>, Seq<Material>, Seq<Option<Model>>),
    merged: (Seq<Option<Model>>, Seq<Instance>),
) -> bool {
    &&& graph_of(s.nodes@, s.temp_models@, options.preserve_keyframes, graph.0, graph.1)
    &&& layered(s.layers@, graph.0, laid.0, laid.1)
    &&& index_mapped(s, mapped.0, mapped.1, mapped.2)
    &&& deduped(options.keep_duplicate_models, mapped.2, laid.1, merged.0, merged.1)
    &&& !options.keep_empty_models_instances
    &&& empty_shown(merged.0, merged.1)
}

/// Whether building a scene from the state `s` fails with `e`: the scene graph
/// cannot be walked, or an instance shows an empty model that is dropped.
pub open spec fn build_fails(s: ReadState, options: ReadOptions, e: VoxError) -> bool {
    ||| graph_fails(s.nodes@, s.temp_models@) && e is InvalidNodeGraph
    ||| e is InvalidData && exists|
        graph: (Seq<Instance>, Seq<Group>),
        laid: (Seq<Layer>, Seq<Instance>),
        mapped: (Seq<Rgba>, Seq<Material>, Seq<Option<Model>>),
        merged: (Seq<Option<Model>>, Seq<Instance>),
    | #[trigger] parts_fail(s, options, graph, laid, mapped, merged)
}

/// Whether `bytes` start with the header `VOX ` and a version of 150 or 200.
pub open spec fn header_ok(bytes: Seq<u8>) -> bool {
    &&& bytes.len() >= 8
    &&& u32_at(bytes, 0) == 0x20584f56
    &&& (u32_at(bytes, 4) == 150 || u32_at(bytes, 4) == 200)
}

/// Whether `scene` is what the chunks `chunks` of a file of `version` give:
/// they are read one by one from the state before any chunk, and the scene is
/// built from the state after the last.
pub open spec fn scene_read(chunks: Seq<u8>, options: ReadOptions, version: u32, scene: Scene) -> bool {
    exists|s0: ReadState, s1: ReadState|
        initial_read_state(s0) && #[trigger] chunks_ok(chunks, options, s0, s1) && scene_from(
            s1,
            options,
            version,
            scene,
        )
}

/// Whether reading the chunks `chunks` fails with `e`: a chunk cannot be read,
/// or the scene cannot be built from the state after the last.
pub open spec fn read_fails(chunks: Seq<u8>, options: ReadOptions, e: VoxError) -> bool {
    exists|s0: ReadState|
        #[trigger] initial_read_state(s0) && (chunks_fail(chunks, options, s0, e) || exists|s1: ReadState|
            #[trigger] chunks_ok(chunks, options, s0, s1) && build_fails(s1, options, e))
}

/// Whether `inst` has no keyframes and does not loop.
pub open spec fn unanimated(inst: Instance) -> bool {
    &&& inst.transform_anim.keyframes@.len() == 0
    &&& !inst.transform_anim.looped
    &&& inst.model_anim.keyframes@.len() == 0
    &&& !inst.model_anim.looped
}

/// Whether no instance or group of `scene` has keyframes or loops.
pub open spec fn keyframes_dropped(scene: Scene) -> bool {
    &&& forall|i: int| 0 <= i < scene.instances@.len() ==> unanimated(#[trigger] scene.instances@[i])
    &&& forall|g: int|
        0 <= g < scene.groups@.len() ==> (#[trigger] scene.groups@[g]).transform_anim.keyframes@.len() == 0
            && !scene.groups@[g].transform_anim.looped
}

/// A scene built without keeping keyframes has none.
proof fn lemma_parts_keyframes(
    s: ReadState,
    options: ReadOptions,
    version: u32,
    scene: Scene,
    graph: (Seq<Instance>, Seq<Group>),
    laid: (Seq<Layer>, Seq<Instance>),
    mapped: (Seq<Rgba>, Seq<Material>, Seq<Option<Model>>),
    merged: (Seq<Option<Model>>, Seq<Instance>),
)
    requires
        parts_built(s, options, version, scene, graph, laid, mapped, merged),
        !options.preserve_keyframes,
    ensures
        keyframes_dropped(scene),
{
    let nodes = s.nodes@;
    assert forall|i: int| 0 <= i < graph.0.len() implies unanimated(#[trigger] graph.0[i]) by {
        if nodes.len() > 0 {
            let out = walk_node(nodes, 0, s.temp_models@, None, None, 0, graph_fuel(nodes.len()))->Some_0;
            assert(instance_built(graph.0[0 + i], out.1[i].0, out.1[i].1, out.1[i].2, false));
        }
    }
    assert forall|g: int| 0 <= g < graph.1.len() implies (#[trigger] graph.1[g]).transform_anim.keyframes@.len()
        == 0 && !graph.1[g].transform_anim.looped by {
        if nodes.len() > 0 {
            let out = walk_node(nodes, 0, s.temp_models@, None, None, 0, graph_fuel(nodes.len()))->Some_0;
            assert(group_built(graph.1[0 + g], out.0[g].0, out.0[g].1, false));
        }
    }
    assert forall|i: int| 0 <= i < laid.1.len() implies unanimated(#[trigger] laid.1[i]) by {
        assert(unanimated(graph.0[i]));
    }
    assert forall|i: int| 0 <= i < merged.1.len() implies unanimated(#[trigger] merged.1[i]) by {
        assert(unanimated(laid.1[i]));
    }
    assert forall|i: int| 0 <= i < scene.instances@.len() implies unanimated(#[trigger] scene.instances@[i]) by {
        assert(unanimated(merged.1[i]));
    }
}

/// Whether `scene` is ready to be used: 256 materials, at least one layer, a
/// clear palette entry `0`, and a scene graph whose parents come first.
pub open spec fn scene_well_formed(scene: Scene) -> bool {
    &&& scene.materials@.len() == 256
    &&& scene.layers@.len() > 0
    &&& scene.palette.colors@[0].a == 0
    &&& graph_ordered(scene)
}

/// Reads a `.vox` file into a scene whose scene graph is kept as the file gives
/// it: a header `VOX ` and a version of 150 or 200, then chunks. After reading,
/// the scene gets instances and groups from its scene graph, a layer when it has
/// none, the palette index map applied, its palette moved up by one entry so
/// that entry `0` is clear, duplicate models merged unless they are kept, and
/// empty models dropped unless they are kept.
pub fn read_scene_parts(bytes: &[u8], options: ReadOptions) -> (r: Result<Scene, VoxError>)
    ensures
        bytes@.len() < 8 ==> r == Err::<Scene, VoxError>(VoxError::UnexpectedEof),
        bytes@.len() >= 8 && u32_at(bytes@, 0) != 0x20584f56 ==> r == Err::<Scene, VoxError>(
            VoxError::InvalidHeader,
        ),
        bytes@.len() >= 8 && u32_at(bytes@, 0) == 0x20584f56 && u32_at(bytes@, 4) != 150 && u32_at(
            bytes@,
            4,
        ) != 200 ==> r == Err::<Scene, VoxError>(VoxError::UnsupportedVersion(u32_at(bytes@, 4))),
        r matches Ok(scene) ==> scene.file_version == u32_at(bytes@, 4) && scene_well_formed(scene),
        r matches Ok(scene) ==> scene.anim_range_start <= scene.anim_range_end && forall|i: int|
            0 <= i < scene.instances@.len() ==> (#[trigger] scene.instances@[i]).group_index is Some,
        r matches Ok(scene) ==> header_ok(bytes@) && scene_read(bytes@.skip(8), options, u32_at(bytes@, 4), scene),
        r is Err && header_ok(bytes@) ==> read_fails(bytes@.skip(8), options, r->Err_0),
        r is Ok && !options.preserve_keyframes ==> keyframes_dropped(r->Ok_0),
        r is Ok && !options.keep_duplicate_models ==> models_distinct(r->Ok_0.models@),
{
    let mut reader = ByteReader::new(bytes);
    let header = match reader.read_u32() {
        Ok(v) => v,
        Err(e) => {
            return Err(e);
        },
    };
    let version = match reader.read_u32() {
        Ok(v) => v,
        Err(e) => {
            return Err(e);
        },
    };
    proof {
        assert(bytes@.skip(4).len() >= 4 ==> u32_at(bytes@.skip(4), 0) == u32_at(bytes@, 4));
    }
    if header != CHUNK_ID_VOX {
        return Err(VoxError::InvalidHeader);
    }
    if version != 150 && version != 200 {
        return Err(VoxError::UnsupportedVersion(version));
    }
    let mut state = new_read_state();
    let ghost s0 = state;
    let ghost chunks = bytes@.skip(8);
    assert(reader.rest() =~= chunks);
    match read_chunks(&mut reader, &mut state, options) {
        Ok(()) => {},
        Err(e) => {
            assert(initial_read_state(s0) && chunks_fail(chunks, options, s0, e));
            return Err(e);
        },
    }
    let ghost sn = state;
    assert(chunks_ok(chunks, options, s0, sn));
    let (mut instances, groups) = match build_graph(&state.nodes, &state.temp_models, options.preserve_keyframes) {
        Ok(x) => x,
        Err(e) => {
            assert(build_fails(sn, options, e));
            assert(initial_read_state(s0) && chunks_ok(chunks, options, s0, sn));
            return Err(e);
        },
    };
    let ghost graph = (instances@, groups@);
    assert(graph_of(sn.nodes@, sn.temp_models@, options.preserve_keyframes, graph.0, graph.1));
    let mut layers = state.layers;
    ensure_layers(&mut layers, &mut instances);
    let ghost laid = (layers@, instances@);
    let mut palette = state.palette;
    let mut materials = state.materials;
    let mut slots = state.temp_models;
    if state.found_index_map {
        apply_index_map(&mut palette.colors, &mut materials, &mut slots, &state.index_map);
    }
    let ghost mapped = (palette.colors@, materials@, slots@);
    assert(index_mapped(sn, mapped.0, mapped.1, mapped.2));
    rotate_palette_right(&mut palette.colors);
    let ghost slots_len = slots@.len();
    assert(instances_in_graph(instances@, groups@.len(), slots_len));
    if !options.keep_duplicate_models {
        let ghost before = instances@;
        let ghost before_slots = slots@;
        dedupe_models(&mut slots, &mut instances);
        proof {
            let map = Seq::new(before_slots.len(), |j: int| canonical(before_slots, j) as usize);
            assert forall|i: int| 0 <= i < instances@.len() implies {
                let inst = #[trigger] instances@[i];
                &&& inst.group_index matches Some(g) && g < groups@.len()
                &&& model_refs_below(inst, slots_len)
                &&& instance_rotations_valid(inst)
            } by {
                let a = before[i];
                let b = instances@[i];
                assert(instance_remapped(a, b, map));
                assert(model_refs_below(a, slots_len));
                lemma_canonical(before_slots, a.model_index as int);
                assert forall|k: int| 0 <= k < b.model_anim.keyframes@.len() implies (#[trigger] b.model_anim.keyframes@[k]).model_index < slots_len by {
                    assert(a.model_anim.keyframes@[k].model_index < slots_len);
                    lemma_canonical(before_slots, a.model_anim.keyframes@[k].model_index as int);
                }
            }
        }
    }
    let ghost before_compact = instances@;
    let ghost old_slots = slots@;
    let ghost merged = (slots@, instances@);
    assert(deduped(options.keep_duplicate_models, mapped.2, laid.1, merged.0, merged.1));
    let models = if !options.keep_empty_models_instances {
        match compact_models(slots, &mut instances) {
            Ok(m) => m,
            Err(e) => {
                assert(parts_fail(sn, options, graph, laid, mapped, merged));
                assert(build_fails(sn, options, e));
                assert(initial_read_state(s0) && chunks_ok(chunks, options, s0, sn));
                return Err(e);
            },
        }
    } else {
        held_models(slots)
    };
    proof {
        assert forall|i: int| 0 <= i < instances@.len() implies {
            let inst = #[trigger] instances@[i];
            &&& inst.group_index matches Some(g) && g < groups@.len()
            &&& instance_rotations_valid(inst)
        } by {
            if !options.keep_empty_models_instances {
                assert(instance_remapped(before_compact[i], instances@[i], Seq::new(slots_len, |j: int| kept_index(old_slots, j) as usize)));
            }
        }
    }
    let scene = Scene {
        file_version: version,
        models,
        instances,
        layers,
        groups,
        color_names: state.color_names,
        palette,
        materials,
        cameras: state.cameras,
        sun: state.sun,
        anim_range_start: state.anim_range_start,
        anim_range_end: state.anim_range_end,
    };
    proof {
        assert(parts_built(sn, options, version, scene, graph, laid, mapped, merged));
        assert(scene_from(sn, options, version, scene));
        assert(initial_read_state(s0) && chunks_ok(chunks, options, s0, sn));
        if !options.preserve_keyframes {
            lemma_parts_keyframes(sn, options, version, scene, graph, laid, mapped, merged);
        }
        if !options.keep_duplicate_models {
            lemma_deduped_distinct(mapped.2, laid.1, merged.0, merged.1);
        }
    }
    Ok(scene)
}

/// Whether the options ask for animation keyframes to be baked into flattened
/// instances. Baking samples transforms between keyframes in floating point,
/// which this library leaves to its caller.
pub open spec fn bakes_keyframes(options: ReadOptions) -> bool {
    options.preserve_keyframes && !options.preserve_groups
}

/// Whether `q` is the scene `p` with its groups flattened: every instance's
/// transform takes in those of its groups, every instance moves to group `0`,
/// and one added root group in layer `0` takes the place of the groups.
pub open spec fn flattened(p: Scene, q: Scene) -> bool {
    &&& same_content(q, p)
    &&& q.layers == p.layers
    &&& q.groups@.len() == 1
    &&& is_added_root(q.groups@[0], Some(0))
    &&& q.instances@.len() == p.instances@.len()
    &&& forall|i: int|
        0 <= i < p.instances@.len() ==> #[trigger] q.instances@[i] == (Instance {
            transform: chain_transform(
                p.groups@,
                p.instances@[i].transform,
                group_chain(p.groups@, p.instances@[i].group_index, p.groups@.len())->Some_0,
            ),
            group_index: Some(0),
            ..p.instances@[i]
        })
}

/// Whether `q` is the scene `p` as kept when `preserve_groups` holds or `p`
/// has no groups, and flattened otherwise.
pub open spec fn regrouped(preserve_groups: bool, p: Scene, q: Scene) -> bool {
    if preserve_groups || p.groups@.len() == 0 {
        q == p
    } else {
        flattened(p, q)
    }
}

/// Whether `r` is what reading the file `bytes` with `options` gives: the
/// header errors; on success the scene that the chunks give, with its groups kept
/// or flattened as the options ask, whose indices all name something; and
/// otherwise the error met reading a chunk, building the scene, or checking its
/// indices.
pub open spec fn read_outcome(bytes: Seq<u8>, options: ReadOptions, r: Result<Scene, VoxError>) -> bool {
    &&& bytes.len() < 8 ==> r == Err::<Scene, VoxError>(VoxError::UnexpectedEof)
    &&& bytes.len() >= 8 && u32_at(bytes, 0) != 0x20584f56 ==> r == Err::<Scene, VoxError>(VoxError::InvalidHeader)
    &&& bytes.len() >= 8 && u32_at(bytes, 0) == 0x20584f56 && u32_at(bytes, 4) != 150 && u32_at(bytes, 4) != 200
        ==> r == Err::<Scene, VoxError>(VoxError::UnsupportedVersion(u32_at(bytes, 4)))
    &&& r is Ok ==> {
        let scene = r->Ok_0;
        &&& header_ok(bytes)
        &&& scene.file_version == u32_at(bytes, 4)
        &&& scene_well_formed(scene)
        &&& references_valid(scene)
        &&& scene.anim_range_start <= scene.anim_range_end
        &&& forall|i: int| 0 <= i < scene.instances@.len() ==> (#[trigger] scene.instances@[i]).group_index is Some
        &&& exists|p: Scene|
            scene_read(bytes.skip(8), options, u32_at(bytes, 4), p) && #[trigger] regrouped(
                options.preserve_groups,
                p,
                scene,
            )
        &&& !options.preserve_groups ==> {
            &&& scene.groups@.len() <= 1
            &&& scene.groups@.len() == 1 ==> is_added_root(scene.groups@[0], Some(0))
            &&& forall|i: int|
                0 <= i < scene.instances@.len() ==> (#[trigger] scene.instances@[i]).group_index == Some(0usize)
        }
        &&& !options.preserve_keyframes ==> keyframes_dropped(scene)
        &&& !options.keep_duplicate_models ==> models_distinct(scene.models@)
    }
    &&& r is Err && header_ok(bytes) ==> {
        let e = r->Err_0;
        ||| read_fails(bytes.skip(8), options, e)
        ||| exists|p: Scene, q: Scene|
            scene_read(bytes.skip(8), options, u32_at(bytes, 4), p) && #[trigger] regrouped(
                options.preserve_groups,
                p,
                q,
            ) && !references_valid(q) && (e is IndexOutOfBounds || e is InvalidData)
    }
}

/// Reads a `.vox` file into a scene, as [`read_scene_parts`] does; unless groups
/// are preserved or there are none, every instance's transform then takes in
/// those of its groups and the groups give way to one root group. Fails when an index of the scene
/// names nothing.
pub fn read_scene(bytes: &[u8], options: ReadOptions) -> (r: Result<Scene, VoxError>)
    requires
        !bakes_keyframes(options),
    ensures
        read_outcome(bytes@, options, r),
{
    let scene = match read_scene_parts(bytes, options) {
        Ok(s) => s,
        Err(e) => {
            return Err(e);
        },
    };
    let ghost p = scene;
    let scene = if options.preserve_groups || scene.groups.len() == 0 {
        scene
    } else {
        flatten_groups(scene)
    };
    assert(regrouped(options.preserve_groups, p, scene));
    proof {
        if !options.preserve_keyframes && !options.preserve_groups && p.groups@.len() > 0 {
            assert forall|i: int| 0 <= i < scene.instances@.len() implies unanimated(#[trigger] scene.instances@[i]) by {
                assert(unanimated(p.instances@[i]));
            }
        }
    }
    match validate_scene_references(&scene) {
        Ok(()) => Ok(scene),
        Err(e) => Err(e),
    }
}

impl Scene {
    /// Reads a `.vox` file from an in-memory byte slice with the default options:
    /// groups flattened, keyframes dropped, empty and duplicate models removed.
    pub fn read_bytes(bytes: &[u8]) -> (r: Result<Scene, VoxError>)
        ensures
            read_outcome(
                bytes@,
                ReadOptions {
                    preserve_groups: false,
                    preserve_keyframes: false,
                    keep_empty_models_instances: false,
                    keep_duplicate_models: false,
                },
                r,
            ),
    {
        read_scene(bytes, ReadOptions::default())
    }

    /// Reads a `.vox` file from an in-memory byte slice with explicit options.
    /// Baking keyframes into flattened instances is left to the caller.
    pub fn read_bytes_with_options(bytes: &[u8], options: ReadOptions) -> (r: Result<Scene, VoxError>)
        requires
            !bakes_keyframes(options),
        ensures
            read_outcome(bytes@, options, r),
    {
        read_scene(bytes, options)
    }
}

/// No chunk is read from bytes that hold none.
proof fn lemma_no_chunks(
    chunks: Seq<u8>,
    options: ReadOptions,
    states: Seq<ReadState>,
    pos: Seq<int>,
    skips: Seq<bool>,
)
    requires
        chunks.len() == 0,
        chunks_read(chunks, options, states, pos, skips),
    ensures
        skips.len() == 0,
        states.last() == states[0],
        pos.last() == 0,
{
    if skips.len() > 0 {
        let k: int = 0;
        assert(chunk_step(chunks, options, states[k], states[k + 1], pos[k], pos[k + 1], skips[k]));
    }
}

/// Building a scene from the state before any chunk gives one added layer and
/// nothing else.
#[verifier::rlimit(60)]
proof fn lemma_empty_build(
    s: ReadState,
    options: ReadOptions,
    version: u32,
    p: Scene,
    graph: (Seq<Instance>, Seq<Group>),
    laid: (Seq<Layer>, Seq<Instance>),
    mapped: (Seq<Rgba>, Seq<Material>, Seq<Option<Model>>),
    merged: (Seq<Option<Model>>, Seq<Instance>),
)
    requires
        initial_read_state(s),
        parts_built(s, options, version, p, graph, laid, mapped, merged),
    ensures
        p.models@.len() == 0,
        p.instances@.len() == 0,
        p.groups@.len() == 0,
        p.layers@ == seq![added_layer()],
        p.cameras@.len() == 0,
        p.color_names@.len() == 0,
        p.sun is None,
        p.anim_range_start == 0 && p.anim_range_end == 30,
        forall|i: int|
            0 <= i < 256 ==> #[trigger] p.palette.colors@[i] == scene_palette_color(
                Seq::new(256, |j: int| raw_default_color(j)),
                i,
            ),
{
    assert(graph.0.len() == 0 && graph.1.len() == 0);
    assert(laid.0 == seq![added_layer()] && laid.1.len() == 0);
    assert(!s.found_index_map);
    assert(mapped.2.len() == 0);
    assert(merged.0.len() == 0 && merged.1.len() == 0);
    assert(kept_models(merged.0) =~= Seq::<Model>::empty());
    assert(mapped.0 =~= Seq::new(256, |j: int| raw_default_color(j)));
}

/// Law: a file with a good header and no chunks reads, whatever the options,
/// as a scene with no models, instances, cameras, color names or sun, the
/// default palette, the animation range from 0 to 30, one added layer and no
/// groups.
#[verifier::rlimit(60)]
pub proof fn chunkless_file_reads_empty(bytes: Seq<u8>, options: ReadOptions, r: Result<Scene, VoxError>)
    requires
        bytes.len() == 8,
        header_ok(bytes),
        read_outcome(bytes, options, r),
    ensures
        r is Ok,
        r->Ok_0.models@.len() == 0,
        r->Ok_0.instances@.len() == 0,
        r->Ok_0.layers@ == seq![added_layer()],
        r->Ok_0.groups@.len() == 0,
        r->Ok_0.cameras@.len() == 0,
        r->Ok_0.color_names@.len() == 0,
        r->Ok_0.sun is None,
        r->Ok_0.anim_range_start == 0 && r->Ok_0.anim_range_end == 30,
        forall|i: int|
            0 <= i < 256 ==> #[trigger] r->Ok_0.palette.colors@[i] == scene_palette_color(
                Seq::new(256, |j: int| raw_default_color(j)),
                i,
            ),
{
    let chunks = bytes.skip(8);
    let version = u32_at(bytes, 4);
    assert(chunks.len() == 0);
    if r is Err {
        let e = r->Err_0;
        if read_fails(chunks, options, e) {
            let s0 = choose|s0: ReadState| #[trigger] initial_read_state(s0) && (chunks_fail(chunks, options, s0, e) || exists|s1: ReadState|
                #[trigger] chunks_ok(chunks, options, s0, s1) && build_fails(s1, options, e));
            if chunks_fail(chunks, options, s0, e) {
                let (states, pos, skips) = choose|states: Seq<ReadState>, pos: Seq<int>, skips: Seq<bool>|
                    chunks_read(chunks, options, states, pos, skips) && states[0] == s0 && {
                        let at = pos.last();
                        let s = states.last();
                        ||| (at < chunks.len() < at + 12 && e == VoxError::UnexpectedEof)
                        ||| (at + 12 <= chunks.len() && exists|s1: ReadState|
                            #![trigger chunk_read(u32_at(chunks, at), s, payload_at(chunks, at), s1, options, Err(e))]
                            chunk_read(u32_at(chunks, at), s, payload_at(chunks, at), s1, options, Err(e)))
                        ||| (at + 12 <= chunks.len() && exists|s1: ReadState, b: bool|
                            #![trigger chunk_read(u32_at(chunks, at), s, payload_at(chunks, at), s1, options, Ok(b))]
                            chunk_read(u32_at(chunks, at), s, payload_at(chunks, at), s1, options, Ok(b)) && next_chunk(
                                chunks,
                                at,
                                b,
                            ) > chunks.len() && e == VoxError::UnexpectedEof)
                    };
                lemma_no_chunks(chunks, options, states, pos, skips);
            } else {
                let s1 = choose|s1: ReadState| #[trigger] chunks_ok(chunks, options, s0, s1) && build_fails(s1, options, e);
                let (states, pos, skips) = choose|states: Seq<ReadState>, pos: Seq<int>, skips: Seq<bool>|
                    chunks_read(chunks, options, states, pos, skips) && states[0] == s0 && states.last() == s1
                        && pos.last() == chunks.len();
                lemma_no_chunks(chunks, options, states, pos, skips);
                assert(s1 == s0);
                if !(graph_fails(s1.nodes@, s1.temp_models@) && e is InvalidNodeGraph) {
                    let (g, l, m, d) = choose|
                        g: (Seq<Instance>, Seq<Group>),
                        l: (Seq<Layer>, Seq<Instance>),
                        m: (Seq<Rgba>, Seq<Material>, Seq<Option<Model>>),
                        d: (Seq<Option<Model>>, Seq<Instance>),
                    | #[trigger] parts_fail(s1, options, g, l, m, d);
                    assert(d.1.len() == 0);
                }
            }
        } else {
            let (p, q) = choose|p: Scene, q: Scene|
                scene_read(chunks, options, version, p) && #[trigger] regrouped(options.preserve_groups, p, q)
                    && !references_valid(q) && (e is IndexOutOfBounds || e is InvalidData);
            let (s0, s1) = choose|s0: ReadState, s1: ReadState|
                initial_read_state(s0) && #[trigger] chunks_ok(chunks, options, s0, s1) && scene_from(s1, options, version, p);
            let (states, pos, skips) = choose|states: Seq<ReadState>, pos: Seq<int>, skips: Seq<bool>|
                chunks_read(chunks, options, states, pos, skips) && states[0] == s0 && states.last() == s1
                    && pos.last() == chunks.len();
            lemma_no_chunks(chunks, options, states, pos, skips);
            let (g, l, m, d) = choose|
                g: (Seq<Instance>, Seq<Group>),
                l: (Seq<Layer>, Seq<Instance>),
                m: (Seq<Rgba>, Seq<Material>, Seq<Option<Model>>),
                d: (Seq<Option<Model>>, Seq<Instance>),
            | #[trigger] parts_built(s1, options, version, p, g, l, m, d);
            lemma_empty_build(s1, options, version, p, g, l, m, d);
            assert(references_valid(q));
        }
    } else {
        let scene = r->Ok_0;
        let p = choose|p: Scene|
            scene_read(chunks, options, version, p) && #[trigger] regrouped(options.preserve_groups, p, scene);
        let (s0, s1) = choose|s0: ReadState, s1: ReadState|
            initial_read_state(s0) && #[trigger] chunks_ok(chunks, options, s0, s1) && scene_from(s1, options, version, p);
        let (states, pos, skips) = choose|states: Seq<ReadState>, pos: Seq<int>, skips: Seq<bool>|
            chunks_read(chunks, options, states, pos, skips) && states[0] == s0 && states.last() == s1
                && pos.last() == chunks.len();
        lemma_no_chunks(chunks, options, states, pos, skips);
        let (g, l, m, d) = choose|
            g: (Seq<Instance>, Seq<Group>),
            l: (Seq<Layer>, Seq<Instance>),
            m: (Seq<Rgba>, Seq<Material>, Seq<Option<Model>>),
            d: (Seq<Option<Model>>, Seq<Instance>),
        | #[trigger] parts_built(s1, options, version, p, g, l, m, d);
        lemma_empty_build(s1, options, version, p, g, l, m, d);
    }
}

/// Every shape that a walk of the scene graph reaches names a model slot that
/// exists.
proof fn lemma_walk_shapes(
    nodes: Seq<TempNode>,
    node_id: u32,
    models: Seq<Option<Model>>,
    current_group: Option<usize>,
    current_transform: Option<TempTransformNode>,
    group_count: nat,
    fuel: nat,
)
    ensures
        walk_node(nodes, node_id, models, current_group, current_transform, group_count, fuel) matches Some(out)
            ==> forall|j: int| 0 <= j < out.1.len() ==> (#[trigger] out.1[j]).1.model_id < models.len(),
    decreases fuel, 0nat,
{
    if fuel > 0 && node_id < nodes.len() {
        match nodes[node_id as int] {
            TempNode::Transform(t) => {
                lemma_walk_shapes(nodes, t.child_node_id, models, current_group, Some(t), group_count, (fuel - 1) as nat);
            },
            TempNode::Group(g) => {
                lemma_walk_children_shapes(
                    nodes,
                    g.children@,
                    g.children@.len(),
                    models,
                    group_count,
                    group_count + 1,
                    (fuel - 1) as nat,
                );
            },
            _ => {},
        }
    }
}

/// Every shape that walks from the first `k` children reach names a model slot
/// that exists.
proof fn lemma_walk_children_shapes(
    nodes: Seq<TempNode>,
    children: Seq<u32>,
    k: nat,
    models: Seq<Option<Model>>,
    group: nat,
    group_count: nat,
    fuel: nat,
)
    ensures
        walk_children(nodes, children, k, models, group, group_count, fuel) matches Some(out) ==> forall|j: int|
            0 <= j < out.1.len() ==> (#[trigger] out.1[j]).1.model_id < models.len(),
    decreases fuel, k + 1,
{
    if k > 0 {
        lemma_walk_children_shapes(nodes, children, (k - 1) as nat, models, group, group_count, fuel);
        match walk_children(nodes, children, (k - 1) as nat, models, group, group_count, fuel) {
            None => {},
            Some((gs, is)) => {
                lemma_walk_shapes(
                    nodes,
                    children[k - 1],
                    models,
                    Some(group as usize),
                    None,
                    group_count + gs.len(),
                    fuel,
                );
                match walk_node(nodes, children[k - 1], models, Some(group as usize), None, group_count + gs.len(), fuel) {
                    None => {},
                    Some((gs2, is2)) => {
                        let all = is + is2;
                        assert forall|j: int| 0 <= j < all.len() implies (#[trigger] all[j]).1.model_id < models.len() by {
                            if j >= is.len() {
                                assert(all[j] == is2[j - is.len()]);
                            }
                        }
                    },
                }
            },
        }
    }
}

/// Two scene graphs built from the same nodes and models give their instances
/// the same models.
proof fn lemma_graph_models(
    nodes: Seq<TempNode>,
    models: Seq<Option<Model>>,
    preserve_keyframes: bool,
    a: (Seq<Instance>, Seq<Group>),
    b: (Seq<Instance>, Seq<Group>),
)
    requires
        graph_of(nodes, models, preserve_keyframes, a.0, a.1),
        graph_of(nodes, models, preserve_keyframes, b.0, b.1),
    ensures
        a.0.len() == b.0.len(),
        forall|t: int| 0 <= t < a.0.len() ==> (#[trigger] a.0[t]).model_index == b.0[t].model_index,
        forall|t: int| 0 <= t < a.0.len() ==> (#[trigger] a.0[t]).model_index < models.len(),
{
    if nodes.len() > 0 {
        let out = walk_node(nodes, 0, models, None, None, 0, graph_fuel(nodes.len()))->Some_0;
        lemma_walk_shapes(nodes, 0, models, None, None, 0, graph_fuel(nodes.len()));
        assert forall|t: int| 0 <= t < a.0.len() implies (#[trigger] a.0[t]).model_index < models.len() by {
            assert(instance_built(a.0[0 + t], out.1[t].0, out.1[t].1, out.1[t].2, preserve_keyframes));
        }
        assert forall|t: int| 0 <= t < a.0.len() implies (#[trigger] a.0[t]).model_index == b.0[t].model_index by {
            assert(instance_built(a.0[0 + t], out.1[t].0, out.1[t].1, out.1[t].2, preserve_keyframes));
            assert(instance_built(b.0[0 + t], out.1[t].0, out.1[t].1, out.1[t].2, preserve_keyframes));
        }
    }
}

/// Slots after the same index map agree, model for model.
proof fn lemma_mapped_agree(
    s: ReadState,
    a: (Seq<Rgba>, Seq<Material>, Seq<Option<Model>>),
    b: (Seq<Rgba>, Seq<Material>, Seq<Option<Model>>),
)
    requires
        index_mapped(s, a.0, a.1, a.2),
        index_mapped(s, b.0, b.1, b.2),
    ensures
        a.2.len() == b.2.len(),
        forall|j: int|
            0 <= j < a.2.len() ==> match (#[trigger] a.2[j], b.2[j]) {
                (None, None) => true,
                (Some(x), Some(y)) => same_model(x, y),
                _ => false,
            },
{
    assert forall|j: int| 0 <= j < a.2.len() implies match (#[trigger] a.2[j], b.2[j]) {
        (None, None) => true,
        (Some(x), Some(y)) => same_model(x, y),
        _ => false,
    } by {
        if s.found_index_map {
            let m = s.temp_models@[j];
            assert(match (m, a.2[j]) {
                (None, None) => true,
                (Some(p), Some(q)) => q.size_x == p.size_x && q.size_y == p.size_y && q.size_z == p.size_z
                    && q.voxels@ == p.voxels@.map_values(|v: u8| remapped_voxel(s.index_map@, v)),
                _ => false,
            });
            assert(match (m, b.2[j]) {
                (None, None) => true,
                (Some(p), Some(q)) => q.size_x == p.size_x && q.size_y == p.size_y && q.size_z == p.size_z
                    && q.voxels@ == p.voxels@.map_values(|v: u8| remapped_voxel(s.index_map@, v)),
                _ => false,
            });
        }
    }
}

/// After compaction, instance `t` shows the model of the slot it showed.
proof fn lemma_compacted_shows(
    slots: Seq<Option<Model>>,
    instances: Seq<Instance>,
    models: Seq<Model>,
    instances2: Seq<Instance>,
    t: int,
)
    requires
        compacted(false, slots, instances, models, instances2),
        0 <= t < instances.len(),
        instances[t].model_index < slots.len(),
        models.len() <= usize::MAX,
    ensures
        slots[instances[t].model_index as int] is Some,
        instances2[t].model_index < models.len(),
        models[instances2[t].model_index as int] == slots[instances[t].model_index as int]->Some_0,
{
    let i = instances[t].model_index as int;
    assert(instance_remapped(instances[t], instances2[t], Seq::new(slots.len(), |j: int| kept_index(slots, j) as usize)));
    assert(!shows_empty(slots, instances[t]));
    lemma_kept_index(slots, i);
    assert(instances2[t].model_index as int == kept_index(slots, i));
}

/// After duplicates are merged and slots compacted, instance `t` shows a model
/// the same as the one in the slot it showed.
proof fn lemma_deduped_shows(
    slots: Seq<Option<Model>>,
    instances: Seq<Instance>,
    slots2: Seq<Option<Model>>,
    instances2: Seq<Instance>,
    models: Seq<Model>,
    instances3: Seq<Instance>,
    t: int,
)
    requires
        deduped(false, slots, instances, slots2, instances2),
        compacted(false, slots2, instances2, models, instances3),
        0 <= t < instances.len(),
        instances[t].model_index < slots.len(),
        models.len() <= usize::MAX,
    ensures
        slots[instances[t].model_index as int] is Some,
        same_model(models[instances3[t].model_index as int], slots[instances[t].model_index as int]->Some_0),
{
    let i = instances[t].model_index as int;
    assert(instance_remapped(instances[t], instances2[t], Seq::new(slots.len(), |j: int| canonical(slots, j) as usize)));
    lemma_canonical(slots, i);
    let c = canonical(slots, i);
    assert(instances2[t].model_index as int == c);
    lemma_canonical(slots, c);
    assert(slots2[c] == slots[c]);
    lemma_compacted_shows(slots2, instances2, models, instances3, t);
}

/// Law: from the same chunks, and with empty models dropped, merging duplicate
/// models keeps what every instance shows: the instances are as many, and each
/// shows a model the same as the one it shows when duplicates are kept.
#[verifier::rlimit(60)]
pub proof fn dedup_keeps_shown_models(
    s: ReadState,
    options: ReadOptions,
    version: u32,
    kept: Scene,
    merged_scene: Scene,
    graph: ((Seq<Instance>, Seq<Group>), (Seq<Instance>, Seq<Group>)),
    laid: ((Seq<Layer>, Seq<Instance>), (Seq<Layer>, Seq<Instance>)),
    mapped: ((Seq<Rgba>, Seq<Material>, Seq<Option<Model>>), (Seq<Rgba>, Seq<Material>, Seq<Option<Model>>)),
    merged: ((Seq<Option<Model>>, Seq<Instance>), (Seq<Option<Model>>, Seq<Instance>)),
)
    requires
        !options.keep_empty_models_instances,
        kept.models@.len() <= usize::MAX,
        merged_scene.models@.len() <= usize::MAX,
        parts_built(
            s,
            ReadOptions { keep_duplicate_models: true, ..options },
            version,
            kept,
            graph.0,
            laid.0,
            mapped.0,
            merged.0,
        ),
        parts_built(
            s,
            ReadOptions { keep_duplicate_models: false, ..options },
            version,
            merged_scene,
            graph.1,
            laid.1,
            mapped.1,
            merged.1,
        ),
    ensures
        merged_scene.instances@.len() == kept.instances@.len(),
        forall|t: int|
            0 <= t < kept.instances@.len() ==> same_model(
                merged_scene.models@[(#[trigger] merged_scene.instances@[t]).model_index as int],
                kept.models@[kept.instances@[t].model_index as int],
            ),
{
    lemma_graph_models(s.nodes@, s.temp_models@, options.preserve_keyframes, graph.0, graph.1);
    lemma_mapped_agree(s, mapped.0, mapped.1);
    let sa = mapped.0.2;
    let sb = mapped.1.2;
    let ia = laid.0.1;
    let ib = laid.1.1;
    assert forall|t: int| 0 <= t < kept.instances@.len() implies same_model(
        merged_scene.models@[(#[trigger] merged_scene.instances@[t]).model_index as int],
        kept.models@[kept.instances@[t].model_index as int],
    ) by {
        let i = ia[t].model_index as int;
        assert(i < sa.len() && ib[t].model_index as int == i) by {
            if s.layers@.len() == 0 {
                assert(ia[t] == (Instance { layer_index: Some(0), ..graph.0.0[t] }));
                assert(ib[t] == (Instance { layer_index: Some(0), ..graph.1.0[t] }));
            }
        }
        lemma_compacted_shows(sa, ia, kept.models@, kept.instances@, t);
        lemma_deduped_shows(sb, ib, merged.1.0, merged.1.1, merged_scene.models@, merged_scene.instances@, t);
        assert(match (sa[i], sb[i]) {
            (None, None) => true,
            (Some(x), Some(y)) => same_model(x, y),
            _ => false,
        });
    }
}

} // verus!
