use vstd::prelude::*;
use vstd::string::StringSliceAdditionalSpecFns;

use crate::bytes::{i32_from_bits, length_prefixed, u32_at, LimitedReader};
use crate::dict::{dict_value, parse_dict, to_vec, Dict};
use crate::nodes::{
    ensure_node_slot, node_ok, nodes_ok, transform_node_ok, TempGroupNode, TempNode, TempShapeNode,
    TempTransformNode,
};
use crate::read::{
    copy_text, index_from_u32, parse_camera_mode, parse_material_type, parse_media_type,
    parse_optional_name, text_is,
};
use crate::scene::{default_layer_from_chunk, keyframe_models_ok, Camera, KeyframeTransform, Material, ScalarText, Sun};
use crate::text::{parse_u32_words, parse_i32, parse_i32_words, parse_vec_i32, parse_vec_u32, string_from_utf8_lossy, utf8_lossy, words};
use crate::transform::{parse_transform, valid_rotation};
use crate::types::{KeyframeModel, Layer, MaterialType, Model, Palette, Rgba, VoxError};

verus! {

/// What has been read from a file so far.
pub struct ReadState {
    /// Size of the next model along x, from the last `SIZE` chunk.
    pub size_x: u32,
    /// Size of the next model along y.
    pub size_y: u32,
    /// Size of the next model along z.
    pub size_z: u32,
    /// The palette, in the order the file stores it.
    pub palette: Palette,
    /// One material for each palette entry.
    pub materials: Vec<Material>,
    /// The models, `None` for an empty one that is dropped.
    pub temp_models: Vec<Option<Model>>,
    /// The scene graph nodes by id.
    pub nodes: Vec<TempNode>,
    /// The layers by id.
    pub layers: Vec<Layer>,
    /// The cameras.
    pub cameras: Vec<Camera>,
    /// The color names.
    pub color_names: Vec<String>,
    /// Whether an `IMAP` chunk was read.
    pub found_index_map: bool,
    /// The palette index map.
    pub index_map: [u8; 256],
    /// The sun.
    pub sun: Option<Sun>,
    /// The first frame of the animation.
    pub anim_range_start: u32,
    /// The last frame of the animation.
    pub anim_range_end: u32,
}

/// Whether the state is consistent: a material for each palette entry, nodes that
/// name models read before them, and models whose voxels fill their dimensions.
pub open spec fn state_ok(s: ReadState) -> bool {
    &&& s.materials@.len() == 256
    &&& nodes_ok(s.nodes@, s.temp_models@.len())
    &&& s.anim_range_start <= s.anim_range_end
}

/// Which parts of the read state a chunk leaves as they were, from `s0` to `s1`:
/// each flag that holds names a part that is kept.
pub open spec fn kept(
    s0: ReadState,
    s1: ReadState,
    sizes: bool,
    palette: bool,
    materials: bool,
    models: bool,
    nodes: bool,
    layers: bool,
    cameras: bool,
    names: bool,
    index_map: bool,
    sun: bool,
    anim: bool,
) -> bool {
    &&& sizes ==> s1.size_x == s0.size_x && s1.size_y == s0.size_y && s1.size_z == s0.size_z
    &&& palette ==> s1.palette == s0.palette
    &&& materials ==> s1.materials == s0.materials
    &&& models ==> s1.temp_models == s0.temp_models
    &&& nodes ==> s1.nodes == s0.nodes
    &&& layers ==> s1.layers == s0.layers
    &&& cameras ==> s1.cameras == s0.cameras
    &&& names ==> s1.color_names == s0.color_names
    &&& index_map ==> s1.found_index_map == s0.found_index_map && s1.index_map == s0.index_map
    &&& sun ==> s1.sun == s0.sun
    &&& anim ==> s1.anim_range_start == s0.anim_range_start && s1.anim_range_end == s0.anim_range_end
}

/// Nodes well formed for some number of models stay so for more models.
pub proof fn nodes_ok_grow(nodes: Seq<TempNode>, a: nat, b: nat)
    requires
        nodes_ok(nodes, a),
        a <= b,
    ensures
        nodes_ok(nodes, b),
{
    assert forall|i: int| 0 <= i < nodes.len() implies node_ok(#[trigger] nodes[i], b) by {
        assert(node_ok(nodes[i], a));
        if let TempNode::Shape(s) = nodes[i] {
            assert forall|k: int| 0 <= k < s.keyframes@.len() implies (#[trigger] s.keyframes@[k]).model_index < b by {
                assert(s.keyframes@[k].model_index < a);
            }
        }
    }
}

/// What reading this chunk does to the read state `s0`, giving `s1`, from the
/// payload `p`.
pub open spec fn size_read(s0: ReadState, p: Seq<u8>, s1: ReadState, r: Result<(), VoxError>) -> bool {
    &&& kept(s0, s1, false, true, true, true, true, true, true, true, true, true, true)
    &&& (state_ok(s1))
    &&& (s1.temp_models == s0.temp_models)
    &&& (p.len() < 12 ==> r == Err::<(), VoxError>(VoxError::UnexpectedEof))
    &&& (p.len() >= 12 ==> {
        let s = p;
        let (x, y, z) = (u32_at(s, 0), u32_at(s.skip(4), 0), u32_at(s.skip(8), 0));
        &&& (x == 0 || y == 0 || z == 0) ==> r is Err && r->Err_0 is InvalidData
        &&& (x != 0 && y != 0 && z != 0) ==> r is Ok && s1.size_x == x
            && s1.size_y == y && s1.size_z == z
    })
}

/// Reads a `SIZE` chunk: the dimensions of the next model, none of them zero.
pub fn read_size_chunk(state: &mut ReadState, payload: &mut LimitedReader) -> (r: Result<(), VoxError>)
    requires
        state_ok(*old(state)),
        old(payload).wf(),
    ensures
        final(payload).wf(),
        size_read(*old(state), old(payload).avail(), *final(state), r),
{
    let ghost s = payload.avail();
    let x = payload.read_u32()?;
    let y = payload.read_u32()?;
    let z = payload.read_u32()?;
    proof {
        assert(s.skip(4).skip(4) =~= s.skip(8));
    }
    state.size_x = x;
    state.size_y = y;
    state.size_z = z;
    if x == 0 || y == 0 || z == 0 {
        return Err(VoxError::InvalidData("SIZE chunk has zero dimension".to_string()));
    }
    Ok(())
}

/// The linear index of voxel `(x, y, z)` in a model of the given dimensions.
proof fn lemma_voxel_index(x: int, y: int, z: int, sx: int, sy: int, sz: int)
    requires
        0 <= x < sx,
        0 <= y < sy,
        0 <= z < sz,
    ensures
        0 <= y * sx <= x + y * sx,
        0 <= z * sx <= z * sx * sy,
        x + y * sx + z * sx * sy < sx * sy * sz,
{
    assert(x + y * sx < sx * sy) by (nonlinear_arith)
        requires
            0 <= x < sx,
            0 <= y < sy,
    ;
    assert(x + y * sx + z * (sx * sy) < sx * sy * sz) by (nonlinear_arith)
        requires
            0 <= x + y * sx < sx * sy,
            0 <= z < sz,
    ;
    assert(z * sx * sy == z * (sx * sy)) by (nonlinear_arith);
    assert(0 <= z * sx <= z * sx * sy) by (nonlinear_arith)
        requires
            0 <= z,
            0 < sx,
            0 < sy,
    ;
    assert(0 <= y * sx) by (nonlinear_arith)
        requires
            0 <= y,
            0 < sx,
    ;
}

/// The slot of voxel `(x, y, z)` in a model `sx` wide and `sy` deep.
pub open spec fn voxel_slot(x: int, y: int, z: int, sx: int, sy: int) -> int {
    x + y * sx + z * sx * sy
}

/// The grid after the first `k` voxel records of `rec` (four bytes each: x, y,
/// z and color index) are written into it, in order; a record outside the
/// `sx` by `sy` by `sz` box is ignored.
pub open spec fn place_voxels(grid: Seq<u8>, rec: Seq<u8>, k: nat, sx: int, sy: int, sz: int) -> Seq<u8>
    decreases k,
{
    if k == 0 {
        grid
    } else {
        let prev = place_voxels(grid, rec, (k - 1) as nat, sx, sy, sz);
        let i = 4 * (k - 1);
        let (x, y, z) = (rec[i] as int, rec[i + 1] as int, rec[i + 2] as int);
        if x < sx && y < sy && z < sz {
            prev.update(voxel_slot(x, y, z, sx, sy), rec[i + 3])
        } else {
            prev
        }
    }
}

/// The voxels that an `XYZI` payload `s` gives a model of the given size: its
/// records written, in order, into a grid of zeros.
pub open spec fn xyzi_voxels(s: Seq<u8>, sx: u32, sy: u32, sz: u32) -> Seq<u8> {
    place_voxels(
        Seq::new(crate::types::slot_count(sx, sy, sz) as nat, |i: int| 0u8),
        s.skip(4),
        u32_at(s, 0) as nat,
        sx as int,
        sy as int,
        sz as int,
    )
}

/// What reading this chunk does to the read state `s0`, giving `s1`, from the
/// payload `p`.
pub open spec fn xyzi_read(s0: ReadState, p: Seq<u8>, s1: ReadState, keep_empty: bool, r: Result<bool, VoxError>) -> bool {
    &&& kept(s0, s1, true, true, true, false, true, true, true, true, true, true, true)
    &&& (state_ok(s1))
    &&& (s1.nodes == s0.nodes)
    &&& (({
        let s = p;
        let (sx, sy, sz) = (s0.size_x, s0.size_y, s0.size_z);
        let n = u32_at(s, 0) as int;
        if sx == 0 || sy == 0 || sz == 0 {
            r == Err::<bool, VoxError>(VoxError::InvalidChunk("XYZI"))
        } else if s.len() < 4 {
            r == Err::<bool, VoxError>(VoxError::UnexpectedEof)
        } else if n == 0 && !keep_empty {
            r == Ok::<bool, VoxError>(false) && s1.temp_models@ == s0.temp_models@.push(None)
        } else if !crate::types::voxel_count_fits(sx, sy, sz) {
            r matches Err(VoxError::InvalidData(_))
        } else if s.len() < 4 + 4 * n {
            r == Err::<bool, VoxError>(VoxError::UnexpectedEof)
        } else {
            r == Ok::<bool, VoxError>(true) && s1.temp_models@ == s0.temp_models@.push(
                Some(
                    Model {
                        size_x: sx,
                        size_y: sy,
                        size_z: sz,
                        voxels: s1.temp_models@.last()->0.voxels,
                    },
                ),
            ) && s1.temp_models@.last()->0.voxels@ == xyzi_voxels(s, sx, sy, sz)
        }
    }))
    &&& (r is Err ==> s1.temp_models == s0.temp_models)
}

/// Reads an `XYZI` chunk: the voxels of a model of the last read size. Returns
/// whether the rest of the chunk is to be skipped: it is not when the model is
/// empty and dropped, and then four bytes were read.
pub fn read_xyzi_chunk(state: &mut ReadState, payload: &mut LimitedReader, keep_empty: bool) -> (r: Result<
    bool,
    VoxError,
>)
    requires
        state_ok(*old(state)),
        old(payload).wf(),
    ensures
        final(payload).wf(),
        xyzi_read(*old(state), old(payload).avail(), *final(state), keep_empty, r),
{
    let ghost s = payload.avail();
    let size_x = state.size_x;
    let size_y = state.size_y;
    let size_z = state.size_z;
    if size_x == 0 || size_y == 0 || size_z == 0 {
        return Err(VoxError::InvalidChunk("XYZI"));
    }
    let num_voxels = match payload.read_u32() {
        Ok(v) => v,
        Err(e) => {
            return Err(e);
        },
    };
    if num_voxels == 0 && !keep_empty {
        state.temp_models.push(None);
        proof {
            nodes_ok_grow(old(state).nodes@, old(state).temp_models@.len(), state.temp_models@.len());
        }
        return Ok(false);
    }
    let sx = size_x as usize;
    let sy = size_y as usize;
    let sz = size_z as usize;
    let xy = match sx.checked_mul(sy) {
        Some(v) => v,
        None => {
            return Err(VoxError::InvalidData("voxel grid overflow".to_string()));
        },
    };
    let count = match xy.checked_mul(sz) {
        Some(v) => v,
        None => {
            assert(crate::types::slot_count(size_x, size_y, size_z) > usize::MAX) by (nonlinear_arith)
                requires
                    xy == sx * sy,
                    xy * sz > usize::MAX,
                    sx == size_x,
                    sy == size_y,
                    sz == size_z,
            ;
            return Err(VoxError::InvalidData("voxel grid overflow".to_string()));
        },
    };
    assert(count == crate::types::slot_count(size_x, size_y, size_z)) by (nonlinear_arith)
        requires
            xy == sx * sy,
            count == xy * sz,
            sx == size_x,
            sy == size_y,
            sz == size_z,
    ;
    assert(crate::types::voxel_count_fits(size_x, size_y, size_z));
    let mut voxels: Vec<u8> = vec![0u8; count];
    let ghost grid = voxels@;
    let ghost rec = s.skip(4);
    assert(grid =~= Seq::new(crate::types::slot_count(size_x, size_y, size_z) as nat, |i: int| 0u8));
    let mut read: u32 = 0;
    while read < num_voxels
        invariant
            payload.wf(),
            *state == *old(state),
            state_ok(*state),
            s == old(payload).avail(),
            crate::types::voxel_count_fits(size_x, size_y, size_z),
            !(num_voxels == 0 && !keep_empty),
            size_x != 0 && size_y != 0 && size_z != 0,
            s.len() >= 4,
            rec == s.skip(4),
            num_voxels == u32_at(s, 0),
            read <= num_voxels,
            4 * read <= rec.len() ==> payload.avail() == rec.skip(4 * read as int),
            4 * read <= rec.len(),
            voxels@.len() == count,
            voxels@ == place_voxels(grid, rec, read as nat, sx as int, sy as int, sz as int),
            count == sx * sy * sz,
            sx == size_x,
            sy == size_y,
            sz == size_z,
            size_x == state.size_x,
            size_y == state.size_y,
            size_z == state.size_z,
        decreases num_voxels - read,
    {
        let b = match payload.read_exact(4) {
            Ok(b) => b,
            Err(e) => {
                return Err(e);
            },
        };
        proof {
            assert(rec.skip(4 * read as int).skip(4) =~= rec.skip(4 * (read + 1)));
            assert(b@[0] == rec[4 * read as int]);
            assert(b@[1] == rec[4 * read + 1]);
            assert(b@[2] == rec[4 * read + 2]);
            assert(b@[3] == rec[4 * read + 3]);
        }
        let x = b[0];
        let y = b[1];
        let z = b[2];
        let color_index = b[3];
        if (x as u32) < size_x && (y as u32) < size_y && (z as u32) < size_z {
            proof {
                lemma_voxel_index(x as int, y as int, z as int, sx as int, sy as int, sz as int);
            }
            let index = x as usize + (y as usize) * sx + (z as usize) * sx * sy;
            voxels.set(index, color_index);
        }
        read += 1;
    }
    state.temp_models.push(Some(Model { size_x, size_y, size_z, voxels }));
    proof {
        nodes_ok_grow(old(state).nodes@, old(state).temp_models@.len(), state.temp_models@.len());
    }
    Ok(true)
}

/// The color that four bytes from `i` on give.
pub open spec fn rgba_at(s: Seq<u8>, i: int) -> Rgba {
    Rgba { r: s[i], g: s[i + 1], b: s[i + 2], a: s[i + 3] }
}

/// What reading this chunk does to the read state `s0`, giving `s1`, from the
/// payload `p`.
pub open spec fn rgba_read(s0: ReadState, p: Seq<u8>, s1: ReadState, r: Result<(), VoxError>) -> bool {
    &&& kept(s0, s1, true, false, true, true, true, true, true, true, true, true, true)
    &&& (state_ok(s1))
    &&& (s1.temp_models == s0.temp_models)
    &&& (p.len() < 1024 ==> r == Err::<(), VoxError>(VoxError::UnexpectedEof))
    &&& (p.len() >= 1024 ==> r is Ok && forall|i: int|
        0 <= i < 256 ==> #[trigger] s1.palette.colors@[i] == rgba_at(p, 4 * i))
}

/// Reads an `RGBA` chunk: 256 colors of four bytes each.
pub fn read_rgba_chunk(state: &mut ReadState, payload: &mut LimitedReader) -> (r: Result<(), VoxError>)
    requires
        state_ok(*old(state)),
        old(payload).wf(),
    ensures
        final(payload).wf(),
        rgba_read(*old(state), old(payload).avail(), *final(state), r),
{
    let ghost s = payload.avail();
    let mut index: usize = 0;
    while index < 256
        invariant
            kept(*old(state), *state, true, false, true, true, true, true, true, true, true, true, true),
            index <= 256,
            payload.wf(),
            state_ok(*state),
            state.temp_models == old(state).temp_models,
            s == old(payload).avail(),
            index * 4 <= s.len() ==> payload.avail() == s.skip(4 * index as int),
            s.len() < 4 * index ==> false,
            forall|i: int| 0 <= i < index ==> #[trigger] state.palette.colors@[i] == rgba_at(s, 4 * i),
        decreases 256 - index,
    {
        let ghost before = payload.avail();
        let bytes = payload.read_exact(4);
        match bytes {
            Err(e) => {
                assert(s.len() < 1024);
                return Err(e);
            },
            Ok(b) => {
                proof {
                    assert(s.skip(4 * index as int).skip(4) =~= s.skip(4 * (index + 1)));
                    assert(b@[0] == s[4 * index as int]);
                    assert(b@[1] == s[4 * index + 1]);
                    assert(b@[2] == s[4 * index + 2]);
                    assert(b@[3] == s[4 * index + 3]);
                }
                state.palette.colors[index] = Rgba { r: b[0], g: b[1], b: b[2], a: b[3] };
            },
        }
        index += 1;
    }
    Ok(())
}

/// What reading this chunk does to the read state `s0`, giving `s1`, from the
/// payload `p`.
pub open spec fn imap_read(s0: ReadState, p: Seq<u8>, s1: ReadState, r: Result<(), VoxError>) -> bool {
    &&& kept(s0, s1, true, true, true, true, true, true, true, true, false, true, true)
    &&& (state_ok(s1))
    &&& (s1.temp_models == s0.temp_models)
    &&& (p.len() < 256 ==> r == Err::<(), VoxError>(VoxError::UnexpectedEof))
    &&& (p.len() >= 256 ==> r is Ok && s1.found_index_map
        && s1.index_map@ == p.take(256))
}

/// Reads an `IMAP` chunk: the 256 entries of the palette index map.
pub fn read_imap_chunk(state: &mut ReadState, payload: &mut LimitedReader) -> (r: Result<(), VoxError>)
    requires
        state_ok(*old(state)),
        old(payload).wf(),
    ensures
        final(payload).wf(),
        imap_read(*old(state), old(payload).avail(), *final(state), r),
{
    let bytes = payload.read_exact(256)?;
    let mut index: usize = 0;
    while index < 256
        invariant
            kept(*old(state), *state, true, true, true, true, true, true, true, true, false, true, true),
            index <= 256,
            bytes@.len() == 256,
            forall|i: int| 0 <= i < index ==> #[trigger] state.index_map@[i] == bytes@[i],
            state_ok(*state),
            state.temp_models == old(state).temp_models,
        decreases 256 - index,
    {
        state.index_map[index] = bytes[index];
        index += 1;
    }
    state.found_index_map = true;
    assert(state.index_map@ =~= bytes@);
    Ok(())
}

/// What reading this chunk does to the read state `s0`, giving `s1`, from the
/// payload `p`.
pub open spec fn note_read(s0: ReadState, p: Seq<u8>, s1: ReadState, r: Result<(), VoxError>) -> bool {
    &&& kept(s0, s1, true, true, true, true, true, true, true, false, true, true, true)
    &&& (state_ok(s1))
    &&& (s1.temp_models == s0.temp_models)
    &&& (p.len() < 4 ==> r == Err::<(), VoxError>(VoxError::UnexpectedEof))
    &&& (p.len() >= 4 ==> match length_prefixed_texts(p.skip(4), u32_at(p, 0) as nat) {
        None => r == Err::<(), VoxError>(VoxError::UnexpectedEof),
        Some(names) => names_added(s0.color_names@, names, s1.color_names@) && r is Ok,
    })
}

/// The `count` texts at the start of `p`, each a `u32` length and that many
/// bytes, or `None` when `p` ends first.
pub open spec fn length_prefixed_texts(p: Seq<u8>, count: nat) -> Option<Seq<Seq<u8>>>
    decreases count,
{
    if count == 0 {
        Some(Seq::empty())
    } else {
        match length_prefixed(p) {
            None => None,
            Some((t, n)) => match length_prefixed_texts(p.skip(n), (count - 1) as nat) {
                None => None,
                Some(rest) => Some(seq![t] + rest),
            },
        }
    }
}

/// Whether `after` is `before` with the texts `names` added, each decoded
/// lossily from UTF-8.
pub open spec fn names_added(before: Seq<String>, names: Seq<Seq<u8>>, after: Seq<String>) -> bool {
    &&& after.len() == before.len() + names.len()
    &&& forall|i: int| 0 <= i < before.len() ==> #[trigger] after[i] == before[i]
    &&& forall|i: int| 0 <= i < names.len() ==> (#[trigger] after[before.len() + i])@ == utf8_lossy(names[i])
}

/// Reads a `NOTE` chunk: a count, then that many color names.
pub fn read_note_chunk(state: &mut ReadState, payload: &mut LimitedReader) -> (r: Result<(), VoxError>)
    requires
        state_ok(*old(state)),
        old(payload).wf(),
    ensures
        final(payload).wf(),
        note_read(*old(state), old(payload).avail(), *final(state), r),
{
    let count = payload.read_u32()?;
    let ghost texts = length_prefixed_texts(old(payload).avail().skip(4), count as nat);
    let ghost got: Seq<Seq<u8>> = Seq::empty();
    let mut read: u32 = 0;
    while read < count
        invariant
            kept(*old(state), *state, true, true, true, true, true, true, true, false, true, true, true),
            payload.wf(),
            state_ok(*state),
            state.temp_models == old(state).temp_models,
            read <= count,
            old(payload).avail().len() >= 4,
            count == u32_at(old(payload).avail(), 0),
            texts == length_prefixed_texts(old(payload).avail().skip(4), count as nat),
            got.len() == read,
            names_added(old(state).color_names@, got, state.color_names@),
            texts == match length_prefixed_texts(payload.avail(), (count - read) as nat) {
                None => None,
                Some(rest) => Some(got + rest),
            },
        decreases count - read,
    {
        let ghost before = payload.avail();
        let bytes = payload.read_bytes_with_length()?;
        let ghost t = bytes@;
        let name = string_from_utf8_lossy(bytes);
        let ghost prior = state.color_names@;
        state.color_names.push(name);
        proof {
            let n = length_prefixed(before)->Some_0.1;
            assert(payload.avail() == before.skip(n));
            let c = (count - read) as nat;
            assert(length_prefixed_texts(before, c) == match length_prefixed_texts(before.skip(n), (c - 1) as nat) {
                None => None,
                Some(rest) => Some(seq![t] + rest),
            });
            match length_prefixed_texts(before.skip(n), (c - 1) as nat) {
                None => {},
                Some(rest) => {
                    assert(got + (seq![t] + rest) =~= got.push(t) + rest);
                },
            }
            let g2 = got.push(t);
            assert forall|i: int| 0 <= i < g2.len() implies (#[trigger] state.color_names@[old(state).color_names@.len() + i])@ == utf8_lossy(g2[i]) by {
                if i < got.len() {
                    assert(prior[old(state).color_names@.len() + i]@ == utf8_lossy(got[i]));
                }
            }
            got = g2;
        }
        read += 1;
    }
    proof {
        assert(got + Seq::<Seq<u8>>::empty() =~= got);
    }
    Ok(())
}

/// The animation range that the `_anim_range` text names: two numbers, the first
/// at least zero and the second at least the first.
pub open spec fn anim_range_from_text(text: Seq<u8>) -> Option<(u32, u32)> {
    match parse_i32_words(words(text)) {
        Some(v) => if v.len() == 2 && v[0] >= 0 && v[1] >= v[0] {
            Some((v[0] as u32, v[1] as u32))
        } else {
            None
        },
        None => None,
    }
}

/// What reading this chunk does to the read state `s0`, giving `s1`, from the
/// payload `p`.
pub open spec fn meta_read(s0: ReadState, p: Seq<u8>, s1: ReadState, r: Result<(), VoxError>) -> bool {
    &&& kept(s0, s1, true, true, true, true, true, true, true, true, true, true, false)
    &&& (state_ok(s1))
    &&& (s1.temp_models == s0.temp_models)
    &&& (match crate::dict::parse_dict(p) {
        None => r == Err::<(), VoxError>(VoxError::UnexpectedEof),
        Some((entries, n)) => match crate::dict::lookup(
            entries,
            crate::dict::ascii_lower("_anim_range".spec_bytes()),
            entries.len() as int,
        ) {
            None => r is Ok && s1.anim_range_start == s0.anim_range_start
                && s1.anim_range_end == s0.anim_range_end,
            Some(text) => match anim_range_from_text(text) {
                Some((a, b)) => r is Ok && s1.anim_range_start == a
                    && s1.anim_range_end == b,
                None => r is Err && r->Err_0 is InvalidData,
            },
        },
    })
}

/// Reads a `META` chunk: a dictionary whose `_anim_range` sets the animation range.
pub fn read_meta_chunk(state: &mut ReadState, payload: &mut LimitedReader) -> (r: Result<(), VoxError>)
    requires
        state_ok(*old(state)),
        old(payload).wf(),
    ensures
        final(payload).wf(),
        meta_read(*old(state), old(payload).avail(), *final(state), r),
{
    let dict = Dict::read(payload)?;
    if let Some(text) = dict.get("_anim_range".as_bytes()) {
        match parse_vec_i32(text.as_slice()) {
            Some(values) => {
                if values.len() == 2 && values[0] >= 0 && values[1] >= values[0] {
                    state.anim_range_start = values[0] as u32;
                    state.anim_range_end = values[1] as u32;
                } else {
                    return Err(VoxError::InvalidData("invalid animation range".to_string()));
                }
            },
            None => {
                return Err(VoxError::InvalidData("invalid animation range".to_string()));
            },
        }
    }
    Ok(())
}

/// The low byte of a `u32`.
pub open spec fn low_byte(v: u32) -> u8 {
    (v % 256) as u8
}

/// What reading this chunk does to the read state `s0`, giving `s1`, from the
/// payload `p`.
pub open spec fn layr_read(s0: ReadState, p: Seq<u8>, s1: ReadState, r: Result<(), VoxError>) -> bool {
    &&& kept(s0, s1, true, true, true, true, true, false, true, true, true, true, true)
    &&& (state_ok(s1))
    &&& (s1.temp_models == s0.temp_models)
    &&& (p.len() < 4 ==> r == Err::<(), VoxError>(VoxError::UnexpectedEof))
    &&& (p.len() >= 4 && i32_from_bits(u32_at(p, 0)) < 0 ==> (r matches Err(VoxError::InvalidData(_))))
    &&& (p.len() >= 4 && i32_from_bits(u32_at(p, 0)) >= 0 ==> match parse_dict(p.skip(4)) {
        None => r == Err::<(), VoxError>(VoxError::UnexpectedEof),
        Some((entries, n)) => if p.skip(4).skip(n).len() < 4 {
            r == Err::<(), VoxError>(VoxError::UnexpectedEof)
        } else if layer_color_refused(entries) {
            r matches Err(VoxError::InvalidData(_))
        } else {
            r is Ok && layer_placed(s0.layers@, i32_from_bits(u32_at(p, 0)) as int, entries, s1.layers@)
        },
    })
}

/// The layer that a layer chunk makes before its dictionary is read: unnamed,
/// white and shown.
pub open spec fn blank_layer() -> Layer {
    Layer { name: None, color: Rgba { r: 255, g: 255, b: 255, a: 255 }, hidden: false }
}

/// Whether the `_color` text of a layer's dictionary is there and is not a list
/// of numbers.
pub open spec fn layer_color_refused(entries: Seq<(Seq<u8>, Seq<u8>)>) -> bool {
    dict_value(entries, "_color".spec_bytes()) matches Some(t) && parse_u32_words(words(t)) is None
}

/// Whether `layer` is what a layer's dictionary `entries` describes: its
/// `_name` when not empty, hidden when `_hidden` is `1`, and the color of
/// `_color` when it holds three numbers, each cut to its low byte; otherwise
/// white.
pub open spec fn layer_described(entries: Seq<(Seq<u8>, Seq<u8>)>, layer: Layer) -> bool {
    &&& match dict_value(entries, "_name".spec_bytes()) {
        Some(v) => if v.len() > 0 {
            layer.name is Some && layer.name->Some_0@ == utf8_lossy(v)
        } else {
            layer.name is None
        },
        None => layer.name is None,
    }
    &&& layer.hidden == (dict_value(entries, "_hidden".spec_bytes()) == Some(seq![49u8]))
    &&& layer.color == match dict_value(entries, "_color".spec_bytes()) {
        Some(t) => match parse_u32_words(words(t)) {
            Some(rgb) => if rgb.len() == 3 {
                Rgba { r: low_byte(rgb[0]), g: low_byte(rgb[1]), b: low_byte(rgb[2]), a: 255 }
            } else {
                blank_layer().color
            },
            None => blank_layer().color,
        },
        None => blank_layer().color,
    }
}

/// Whether `after` is the layers `before` with layer `id` set to what `entries`
/// describe, blank layers filling any gap before it.
pub open spec fn layer_placed(
    before: Seq<Layer>,
    id: int,
    entries: Seq<(Seq<u8>, Seq<u8>)>,
    after: Seq<Layer>,
) -> bool {
    &&& after.len() == if id < before.len() {
        before.len() as int
    } else {
        id + 1
    }
    &&& layer_described(entries, after[id])
    &&& forall|k: int|
        0 <= k < after.len() && k != id ==> #[trigger] after[k] == if k < before.len() {
            before[k]
        } else {
            blank_layer()
        }
}

/// Reads a `LAYR` chunk: a layer id that is not negative, its dictionary, and a
/// reserved word.
pub fn read_layr_chunk(state: &mut ReadState, payload: &mut LimitedReader) -> (r: Result<(), VoxError>)
    requires
        state_ok(*old(state)),
        old(payload).wf(),
    ensures
        final(payload).wf(),
        layr_read(*old(state), old(payload).avail(), *final(state), r),
{
    let layer_id = payload.read_i32()?;
    if layer_id < 0 {
        return Err(VoxError::InvalidData("negative layer id".to_string()));
    }
    let dict = Dict::read(payload)?;
    let _reserved = payload.read_i32()?;
    let id = layer_id as usize;
    while state.layers.len() <= id
        invariant
            kept(*old(state), *state, true, true, true, true, true, false, true, true, true, true, true),
            state_ok(*state),
            state.temp_models == old(state).temp_models,
            state.layers@.len() >= old(state).layers@.len(),
            id < 0x8000_0000,
            state.layers@.len() <= if old(state).layers@.len() > id {
                old(state).layers@.len() as int
            } else {
                id + 1
            },
            forall|k: int|
                0 <= k < state.layers@.len() ==> #[trigger] state.layers@[k] == if k < old(state).layers@.len() {
                    old(state).layers@[k]
                } else {
                    blank_layer()
                },
        decreases id + 1 - state.layers@.len(),
    {
        state.layers.push(default_layer_from_chunk());
    }
    let mut layer = default_layer_from_chunk();
    layer.name = parse_optional_name(dict.get("_name".as_bytes()));
    layer.hidden = dict.get_bool("_hidden".as_bytes(), false);
    if let Some(color) = dict.get("_color".as_bytes()) {
        match parse_vec_u32(color.as_slice()) {
            Some(rgb) => {
                if rgb.len() == 3 {
                    layer.color.r = (rgb[0] % 256) as u8;
                    layer.color.g = (rgb[1] % 256) as u8;
                    layer.color.b = (rgb[2] % 256) as u8;
                }
            },
            None => {
                return Err(VoxError::InvalidData("failed to parse layer color".to_string()));
            },
        }
    }
    assert(layer_described(dict@, layer));
    state.layers.set(id, layer);
    Ok(())
}

} // verus!
