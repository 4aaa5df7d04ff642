use vstd::prelude::*;
use vstd::string::StringSliceAdditionalSpecFns;

use crate::bytes::{u32_at, LimitedReader};
use crate::chunks::{kept, nodes_ok_grow, state_ok, ReadState};
use crate::dict::{dict_value, lemma_parse_dict_len, parse_dict, Dict};
use crate::nodes::{ensure_node_slot, node_ok, nodes_ok, TempGroupNode, TempNode, TempShapeNode, TempTransformNode};
use crate::read::{index_from_u32, parse_optional_name};
use crate::scene::KeyframeTransform;
use crate::text::{parse_u32_text, utf8_lossy};
use crate::transform::{parse_transform, transform_from_text, valid_rotation};
use crate::types::{KeyframeModel, VoxError};

verus! {

/// The frame number that the `_f` text of a frame gives: zero when there is none
/// or it is not a `u32`.
pub open spec fn frame_from_text(text: Option<Seq<u8>>) -> u32 {
    match text {
        Some(t) => match parse_u32_text(t) {
            Some(x) => x,
            None => 0,
        },
        None => 0,
    }
}

/// The first `count` frames of a transform node at the start of `s`, each a
/// dictionary: `Some(Some((keyframes, n)))` with the bytes they take, `Some(None)`
/// when a frame's `_r` or `_t` text is not a valid transform, `None` when `s`
/// ends first. Frames are read in order, and the first failure decides.
pub open spec fn read_frames(s: Seq<u8>, count: nat) -> Option<Option<(Seq<KeyframeTransform>, int)>>
    decreases count,
{
    if count == 0 {
        Some(Some((Seq::empty(), 0)))
    } else {
        match read_frames(s, (count - 1) as nat) {
            Some(Some((ks, a))) => match parse_dict(s.skip(a)) {
                None => None,
                Some((e, b)) => match transform_from_text(
                    dict_value(e, "_r".spec_bytes()),
                    dict_value(e, "_t".spec_bytes()),
                ) {
                    None => Some(None),
                    Some(t) => Some(
                        Some(
                            (
                                ks.push(
                                    KeyframeTransform {
                                        frame_index: frame_from_text(dict_value(e, "_f".spec_bytes())),
                                        transform: t,
                                    },
                                ),
                                a + b,
                            ),
                        ),
                    ),
                },
            },
            other => other,
        }
    }
}

/// Once reading frames fails, reading more of them fails the same way.
proof fn lemma_frames_stop(s: Seq<u8>, k: nat, m: nat)
    requires
        k <= m,
        !(read_frames(s, k) matches Some(Some(_))),
    ensures
        read_frames(s, m) == read_frames(s, k),
    decreases m,
{
    if m > k {
        lemma_frames_stop(s, k, (m - 1) as nat);
    }
}

/// The node list after a chunk stored a node under `id`: grown with invalid
/// nodes up to `id` where it was shorter, and unchanged but for `id`.
pub open spec fn nodes_set(before: Seq<TempNode>, id: int, after: Seq<TempNode>) -> bool {
    &&& after.len() == if before.len() > id {
        before.len() as int
    } else {
        id + 1
    }
    &&& forall|i: int|
        0 <= i < after.len() && i != id ==> #[trigger] after[i] == if i < before.len() {
            before[i]
        } else {
            TempNode::Invalid
        }
}

/// Whether `name` is what the `_name` text gives: none when it is absent or
/// empty, else its lossy decoding.
pub open spec fn name_from(text: Option<Seq<u8>>, name: Option<String>) -> bool {
    match text {
        Some(v) => if v.len() > 0 {
            name is Some && name->Some_0@ == utf8_lossy(v)
        } else {
            name is None
        },
        None => name is None,
    }
}

/// Stores `node` under `id`, growing the list as needed.
fn store_node(nodes: &mut Vec<TempNode>, id: usize, node: TempNode, Ghost(models_len): Ghost<nat>) -> (r: Result<(), VoxError>)
    requires
        nodes_ok(old(nodes)@, models_len),
        node_ok(node, models_len),
    ensures
        nodes_ok(final(nodes)@, models_len),
        r is Ok <==> id < usize::MAX,
        r is Ok ==> nodes_set(old(nodes)@, id as int, final(nodes)@) && final(nodes)@[id as int] == node,
        r is Err ==> r->Err_0 is InvalidData && final(nodes)@ == old(nodes)@,
{
    match ensure_node_slot(nodes, id, Ghost(models_len)) {
        Ok(()) => {},
        Err(e) => {
            return Err(e);
        },
    }
    nodes.set(id, node);
    Ok(())
}

/// The first `count` models of a shape node at the start of `s`, each a model
/// index followed by a dictionary with the frame number `_f`:
/// `Some(Some((keyframes, n)))` with the bytes they take, `Some(None)` when an
/// index is not below `models_len`, `None` when `s` ends first. Models are read
/// in order, and the first failure decides.
pub open spec fn read_shape_models(s: Seq<u8>, count: nat, models_len: nat) -> Option<
    Option<(Seq<KeyframeModel>, int)>,
>
    decreases count,
{
    if count == 0 {
        Some(Some((Seq::empty(), 0)))
    } else {
        match read_shape_models(s, (count - 1) as nat, models_len) {
            Some(Some((ks, a))) => if s.skip(a).len() < 4 {
                None
            } else if u32_at(s.skip(a), 0) >= models_len {
                Some(None)
            } else {
                match parse_dict(s.skip(a + 4)) {
                    None => None,
                    Some((e, b)) => Some(
                        Some(
                            (
                                ks.push(
                                    KeyframeModel {
                                        frame_index: frame_from_text(dict_value(e, "_f".spec_bytes())),
                                        model_index: u32_at(s.skip(a), 0) as usize,
                                    },
                                ),
                                a + 4 + b,
                            ),
                        ),
                    ),
                }
            },
            other => other,
        }
    }
}

/// Once reading shape models fails, reading more of them fails the same way.
proof fn lemma_shape_models_stop(s: Seq<u8>, k: nat, m: nat, models_len: nat)
    requires
        k <= m,
        !(read_shape_models(s, k, models_len) matches Some(Some(_))),
    ensures
        read_shape_models(s, m, models_len) == read_shape_models(s, k, models_len),
    decreases m,
{
    if m > k {
        lemma_shape_models_stop(s, k, (m - 1) as nat, models_len);
    }
}

/// Reads the start of a node chunk: the node id and the node's dictionary.
fn read_node_header(payload: &mut LimitedReader) -> (r: Result<(u32, Dict), VoxError>)
    requires
        old(payload).wf(),
    ensures
        final(payload).wf(),
        ({
            let s = old(payload).avail();
            if s.len() < 4 {
                r == Err::<(u32, Dict), VoxError>(VoxError::UnexpectedEof)
            } else {
                match parse_dict(s.skip(4)) {
                    None => r == Err::<(u32, Dict), VoxError>(VoxError::UnexpectedEof),
                    Some((entries, n)) => r is Ok && r->Ok_0.0 == u32_at(s, 0) && r->Ok_0.1.view()
                        == entries && final(payload).avail() == s.skip(4 + n),
                }
            }
        }),
{
    let ghost s = payload.avail();
    let node_id = match payload.read_u32() {
        Ok(v) => v,
        Err(e) => {
            return Err(e);
        },
    };
    let dict = match Dict::read(payload) {
        Ok(d) => d,
        Err(e) => {
            return Err(e);
        },
    };
    proof {
        lemma_parse_dict_len(s.skip(4));
        let n = parse_dict(s.skip(4))->Some_0.1;
        assert(s.skip(4).skip(n) =~= s.skip(4 + n));
    }
    Ok((node_id, dict))
}

/// Reads `count` little-endian `u32` values.
fn read_u32_list(payload: &mut LimitedReader, count: u32) -> (r: Result<Vec<u32>, VoxError>)
    requires
        old(payload).wf(),
    ensures
        final(payload).wf(),
        ({
            let s = old(payload).avail();
            if s.len() < 4 * count {
                r == Err::<Vec<u32>, VoxError>(VoxError::UnexpectedEof)
            } else {
                r is Ok && r->Ok_0@ == Seq::new(count as nat, |i: int| u32_at(s.skip(4 * i), 0))
                    && final(payload).avail() == s.skip(4 * count)
            }
        }),
{
    let ghost s = payload.avail();
    let mut values: Vec<u32> = Vec::new();
    let mut read: u32 = 0;
    while read < count
        invariant
            payload.wf(),
            s == old(payload).avail(),
            read <= count,
            s.len() >= 4 * read,
            payload.avail() == s.skip(4 * read),
            values@ == Seq::new(read as nat, |i: int| u32_at(s.skip(4 * i), 0)),
        decreases count - read,
    {
        let value = match payload.read_u32() {
            Ok(v) => v,
            Err(e) => {
                return Err(e);
            },
        };
        proof {
            assert(s.skip(4 * read).skip(4) =~= s.skip(4 * (read + 1)));
        }
        values.push(value);
        read += 1;
        assert(values@ =~= Seq::new(read as nat, |i: int| u32_at(s.skip(4 * i), 0)));
    }
    Ok(values)
}

/// Reads the frames of a transform node.
fn read_transform_frames(payload: &mut LimitedReader, count: u32) -> (r: Result<Vec<KeyframeTransform>, VoxError>)
    requires
        old(payload).wf(),
    ensures
        final(payload).wf(),
        match read_frames(old(payload).avail(), count as nat) {
            None => r == Err::<Vec<KeyframeTransform>, VoxError>(VoxError::UnexpectedEof),
            Some(None) => r matches Err(VoxError::InvalidData(_)),
            Some(Some((ks, n))) => r is Ok && r->Ok_0@ == ks,
        },
        r is Ok ==> r->Ok_0@.len() == count,
        r is Ok ==> forall|k: int|
            0 <= k < r->Ok_0@.len() ==> valid_rotation((#[trigger] r->Ok_0@[k]).transform.rotation),
{
    let ghost f = payload.avail();
    let mut keyframes: Vec<KeyframeTransform> = Vec::new();
    let mut read: u32 = 0;
    let ghost mut consumed: int = 0;
    while read < count
        invariant
            payload.wf(),
            f == old(payload).avail(),
            read <= count,
            0 <= consumed <= f.len(),
            payload.avail() == f.skip(consumed),
            read_frames(f, read as nat) == Some(Some((keyframes@, consumed))),
            keyframes@.len() == read,
            forall|k: int| 0 <= k < keyframes@.len() ==> valid_rotation((#[trigger] keyframes@[k]).transform.rotation),
        decreases count - read,
    {
        let frame_dict = match Dict::read(payload) {
            Ok(d) => d,
            Err(e) => {
                proof {
                    lemma_frames_stop(f, (read + 1) as nat, count as nat);
                }
                return Err(e);
            },
        };
        let transform = match parse_transform(frame_dict.get("_r".as_bytes()), frame_dict.get("_t".as_bytes())) {
            Ok(x) => x,
            Err(e) => {
                proof {
                    lemma_frames_stop(f, (read + 1) as nat, count as nat);
                }
                return Err(e);
            },
        };
        let frame_index = frame_dict.get_u32("_f".as_bytes(), 0);
        keyframes.push(KeyframeTransform { frame_index, transform });
        proof {
            lemma_parse_dict_len(f.skip(consumed));
            let b = parse_dict(f.skip(consumed))->Some_0.1;
            assert(f.skip(consumed).skip(b) =~= f.skip(consumed + b));
            consumed = consumed + b;
        }
        read += 1;
    }
    Ok(keyframes)
}

/// Reads the models of a shape node.
fn read_shape_model_list(payload: &mut LimitedReader, count: u32, models_len: usize) -> (r: Result<
    Vec<KeyframeModel>,
    VoxError,
>)
    requires
        old(payload).wf(),
    ensures
        final(payload).wf(),
        match read_shape_models(old(payload).avail(), count as nat, models_len as nat) {
            None => r == Err::<Vec<KeyframeModel>, VoxError>(VoxError::UnexpectedEof),
            Some(None) => r matches Err(VoxError::InvalidData(_)),
            Some(Some((ks, n))) => r is Ok && r->Ok_0@ == ks,
        },
        r is Ok ==> r->Ok_0@.len() == count,
        r is Ok ==> forall|k: int| 0 <= k < r->Ok_0@.len() ==> (#[trigger] r->Ok_0@[k]).model_index < models_len,
{
    let ghost f = payload.avail();
    let mut keyframes: Vec<KeyframeModel> = Vec::new();
    let mut read: u32 = 0;
    let ghost mut consumed: int = 0;
    while read < count
        invariant
            payload.wf(),
            f == old(payload).avail(),
            read <= count,
            0 <= consumed <= f.len(),
            payload.avail() == f.skip(consumed),
            read_shape_models(f, read as nat, models_len as nat) == Some(Some((keyframes@, consumed))),
            keyframes@.len() == read,
            forall|k: int| 0 <= k < keyframes@.len() ==> (#[trigger] keyframes@[k]).model_index < models_len,
        decreases count - read,
    {
        let raw = match payload.read_u32() {
            Ok(v) => v,
            Err(e) => {
                proof {
                    lemma_shape_models_stop(f, (read + 1) as nat, count as nat, models_len as nat);
                }
                return Err(e);
            },
        };
        let model_index = raw as usize;
        if model_index >= models_len {
            proof {
                lemma_shape_models_stop(f, (read + 1) as nat, count as nat, models_len as nat);
            }
            return Err(VoxError::InvalidData("nSHP references an unknown model".to_string()));
        }
        proof {
            assert(f.skip(consumed).skip(4) =~= f.skip(consumed + 4));
        }
        let model_dict = match Dict::read(payload) {
            Ok(d) => d,
            Err(e) => {
                proof {
                    lemma_shape_models_stop(f, (read + 1) as nat, count as nat, models_len as nat);
                }
                return Err(e);
            },
        };
        let frame_index = model_dict.get_u32("_f".as_bytes(), 0);
        keyframes.push(KeyframeModel { frame_index, model_index });
        proof {
            lemma_parse_dict_len(f.skip(consumed + 4));
            let b = parse_dict(f.skip(consumed + 4))->Some_0.1;
            assert(f.skip(consumed + 4).skip(b) =~= f.skip(consumed + 4 + b));
            consumed = consumed + 4 + b;
        }
        read += 1;
    }
    Ok(keyframes)
}

/// The transform node that an `nTRN` chunk with a dictionary of `entries`, child
/// id `child`, layer word `layer` and frames `keyframes` describes.
pub open spec fn transform_node_from(
    entries: Seq<(Seq<u8>, Seq<u8>)>,
    child: u32,
    layer: u32,
    keyframes: Seq<KeyframeTransform>,
    node: TempTransformNode,
) -> bool {
    &&& name_from(dict_value(entries, "_name".spec_bytes()), node.name)
    &&& node.transform == keyframes[0].transform
    &&& node.child_node_id == child
    &&& node.layer_index == if layer == 0xffff_ffffu32 {
        None::<usize>
    } else {
        Some(layer as usize)
    }
    &&& node.hidden == (dict_value(entries, "_hidden".spec_bytes()) == Some(seq![49u8]))
    &&& node.looped == (dict_value(entries, "_loop".spec_bytes()) == Some(seq![49u8]))
    &&& node.keyframes@ == keyframes
}

/// What reading this chunk does to the read state `s0`, giving `s1`, from the
/// payload `p`.
pub open spec fn ntrn_read(s0: ReadState, p: Seq<u8>, s1: ReadState, r: Result<(), VoxError>) -> bool {
    &&& kept(s0, s1, true, true, true, true, false, true, true, true, true, true, true)
    &&& (state_ok(s1))
    &&& (s1.temp_models == s0.temp_models)
    &&& (s1.materials == s0.materials)
    &&& (r is Err ==> s1.nodes@ == s0.nodes@)
    &&& (({
        let s = p;
        if s.len() < 4 {
            r == Err::<(), VoxError>(VoxError::UnexpectedEof)
        } else {
            match parse_dict(s.skip(4)) {
                None => r == Err::<(), VoxError>(VoxError::UnexpectedEof),
                Some((entries, n)) => {
                    let t = s.skip(4 + n);
                    if t.len() < 16 {
                        r == Err::<(), VoxError>(VoxError::UnexpectedEof)
                    } else if u32_at(t.skip(12), 0) == 0 {
                        r matches Err(VoxError::InvalidData(_))
                    } else {
                        match read_frames(t.skip(16), u32_at(t.skip(12), 0) as nat) {
                            None => r == Err::<(), VoxError>(VoxError::UnexpectedEof),
                            Some(None) => r matches Err(VoxError::InvalidData(_)),
                            Some(Some((keyframes, m))) => {
                                let id = u32_at(s, 0) as int;
                                &&& id < usize::MAX ==> r is Ok
                                &&& r is Ok ==> nodes_set(s0.nodes@, id, s1.nodes@)
                                &&& r is Ok ==> s1.nodes@[id] is Transform
                                    && transform_node_from(
                                    entries,
                                    u32_at(t, 0),
                                    u32_at(t.skip(8), 0),
                                    keyframes,
                                    s1.nodes@[id]->Transform_0,
                                )
                            },
                        }
                    }
                },
            }
        }
    }))
}

/// Reads an `nTRN` chunk: a node id, a dictionary with the node's name, hidden
/// and loop flags, the child node id, a reserved word, the layer id, and at least
/// one frame, each a dictionary with the frame number `_f`, rotation `_r` and
/// translation `_t`. The transform node is stored under its id.
pub fn read_ntrn_chunk(state: &mut ReadState, payload: &mut LimitedReader) -> (r: Result<(), VoxError>)
    requires
        state_ok(*old(state)),
        old(payload).wf(),
    ensures
        final(payload).wf(),
        ntrn_read(*old(state), old(payload).avail(), *final(state), r),
{
    let (node_id, dict) = match read_node_header(payload) {
        Ok(x) => x,
        Err(e) => {
            return Err(e);
        },
    };
    let fields = match read_u32_list(payload, 4) {
        Ok(v) => v,
        Err(e) => {
            return Err(e);
        },
    };
    let child_node_id = fields[0];
    let layer_id = fields[2];
    let num_frames = fields[3];
    if num_frames == 0 {
        return Err(VoxError::InvalidData("nTRN must contain at least one frame".to_string()));
    }
    let keyframes = match read_transform_frames(payload, num_frames) {
        Ok(k) => k,
        Err(e) => {
            return Err(e);
        },
    };
    let node = TempNode::Transform(
        TempTransformNode {
            name: parse_optional_name(dict.get("_name".as_bytes())),
            transform: keyframes[0].transform,
            child_node_id,
            layer_index: index_from_u32(layer_id),
            hidden: dict.get_bool("_hidden".as_bytes(), false),
            keyframes,
            looped: dict.get_bool("_loop".as_bytes(), false),
        },
    );
    store_node(&mut state.nodes, node_id as usize, node, Ghost(state.temp_models@.len()))
}

/// What reading this chunk does to the read state `s0`, giving `s1`, from the
/// payload `p`.
pub open spec fn ngrp_read(s0: ReadState, p: Seq<u8>, s1: ReadState, r: Result<(), VoxError>) -> bool {
    &&& kept(s0, s1, true, true, true, true, false, true, true, true, true, true, true)
    &&& (state_ok(s1))
    &&& (s1.temp_models == s0.temp_models)
    &&& (s1.materials == s0.materials)
    &&& (r is Err ==> s1.nodes@ == s0.nodes@)
    &&& (({
        let s = p;
        if s.len() < 4 {
            r == Err::<(), VoxError>(VoxError::UnexpectedEof)
        } else {
            match parse_dict(s.skip(4)) {
                None => r == Err::<(), VoxError>(VoxError::UnexpectedEof),
                Some((entries, n)) => {
                    let t = s.skip(4 + n);
                    let c = u32_at(t, 0) as int;
                    if t.len() < 4 || t.skip(4).len() < 4 * c {
                        r == Err::<(), VoxError>(VoxError::UnexpectedEof)
                    } else {
                        let id = u32_at(s, 0) as int;
                        &&& id < usize::MAX ==> r is Ok
                        &&& r is Ok ==> nodes_set(s0.nodes@, id, s1.nodes@)
                        &&& r is Ok ==> s1.nodes@[id] is Group
                            && s1.nodes@[id]->Group_0.children@ == Seq::new(
                            c as nat,
                            |i: int| u32_at(t.skip(4).skip(4 * i), 0),
                        )
                    }
                },
            }
        }
    }))
}

/// Reads an `nGRP` chunk: a node id, a dictionary, a child count and that many
/// child node ids. The group node is stored under its id.
pub fn read_ngrp_chunk(state: &mut ReadState, payload: &mut LimitedReader) -> (r: Result<(), VoxError>)
    requires
        state_ok(*old(state)),
        old(payload).wf(),
    ensures
        final(payload).wf(),
        ngrp_read(*old(state), old(payload).avail(), *final(state), r),
{
    let (node_id, _dict) = match read_node_header(payload) {
        Ok(x) => x,
        Err(e) => {
            return Err(e);
        },
    };
    let count = match payload.read_u32() {
        Ok(v) => v,
        Err(e) => {
            return Err(e);
        },
    };
    let children = match read_u32_list(payload, count) {
        Ok(v) => v,
        Err(e) => {
            return Err(e);
        },
    };
    let node = TempNode::Group(TempGroupNode { children });
    store_node(&mut state.nodes, node_id as usize, node, Ghost(state.temp_models@.len()))
}

/// What reading this chunk does to the read state `s0`, giving `s1`, from the
/// payload `p`.
pub open spec fn nshp_read(s0: ReadState, p: Seq<u8>, s1: ReadState, r: Result<(), VoxError>) -> bool {
    &&& kept(s0, s1, true, true, true, true, false, true, true, true, true, true, true)
    &&& (state_ok(s1))
    &&& (s1.temp_models == s0.temp_models)
    &&& (s1.materials == s0.materials)
    &&& (r is Err ==> s1.nodes@ == s0.nodes@)
    &&& (({
        let s = p;
        if s.len() < 4 {
            r == Err::<(), VoxError>(VoxError::UnexpectedEof)
        } else {
            match parse_dict(s.skip(4)) {
                None => r == Err::<(), VoxError>(VoxError::UnexpectedEof),
                Some((entries, n)) => {
                    let t = s.skip(4 + n);
                    if t.len() < 4 {
                        r == Err::<(), VoxError>(VoxError::UnexpectedEof)
                    } else if u32_at(t, 0) == 0 {
                        r matches Err(VoxError::InvalidData(_))
                    } else {
                        match read_shape_models(t.skip(4), u32_at(t, 0) as nat, s0.temp_models@.len()) {
                            None => r == Err::<(), VoxError>(VoxError::UnexpectedEof),
                            Some(None) => r matches Err(VoxError::InvalidData(_)),
                            Some(Some((keyframes, m))) => {
                                let id = u32_at(s, 0) as int;
                                &&& id < usize::MAX ==> r is Ok
                                &&& r is Ok ==> nodes_set(s0.nodes@, id, s1.nodes@)
                                &&& r is Ok ==> s1.nodes@[id] is Shape && {
                                    let node = s1.nodes@[id]->Shape_0;
                                    &&& node.model_id == keyframes[0].model_index
                                    &&& node.keyframes@ == keyframes
                                    &&& node.looped == (dict_value(entries, "_loop".spec_bytes()) == Some(seq![49u8]))
                                }
                            },
                        }
                    }
                },
            }
        }
    }))
}

/// Reads an `nSHP` chunk: a node id, a dictionary with the loop flag, and at
/// least one model, each an index of a model read before and a dictionary with
/// the frame number `_f`. The shape node is stored under its id.
pub fn read_nshp_chunk(state: &mut ReadState, payload: &mut LimitedReader) -> (r: Result<(), VoxError>)
    requires
        state_ok(*old(state)),
        old(payload).wf(),
    ensures
        final(payload).wf(),
        nshp_read(*old(state), old(payload).avail(), *final(state), r),
{
    let (node_id, dict) = match read_node_header(payload) {
        Ok(x) => x,
        Err(e) => {
            return Err(e);
        },
    };
    let num_models = match payload.read_u32() {
        Ok(v) => v,
        Err(e) => {
            return Err(e);
        },
    };
    if num_models == 0 {
        return Err(VoxError::InvalidData("nSHP must contain at least one model".to_string()));
    }
    let keyframes = match read_shape_model_list(payload, num_models, state.temp_models.len()) {
        Ok(k) => k,
        Err(e) => {
            return Err(e);
        },
    };
    let node = TempNode::Shape(
        TempShapeNode {
            model_id: keyframes[0].model_index,
            keyframes,
            looped: dict.get_bool("_loop".as_bytes(), false),
        },
    );
    store_node(&mut state.nodes, node_id as usize, node, Ghost(state.temp_models@.len()))
}

} // verus!
