use vstd::prelude::*;

use crate::bytes::{le_bytes, ByteWriter};
use crate::chunk_writers::{
    camera_writable, layr_content, material_writable, matl_content, meta_content, names_writable,
    note_content, rcam_content, rgba_content, sun_entries, sun_writable, write_layr, write_matl,
    write_meta, write_note, write_rcam, write_rgba, write_robj,
};
use crate::scene::{
    group_indices_shiftable, has_root, lemma_normalization_keeps, normalization, normalize_scene_graph,
    references_valid,
    some_instance_grouped, validate_scene_references, Camera, Group, Instance, Material, Scene,
};
use crate::scene_writer::{
    group_children, indexed_concat, lemma_indexed_concat_grows, name_fits, ngrp_content,
    node_writable, nshp_content, ntrn_content, shape_writable, write_ngrp, write_nshp, write_ntrn,
};
use crate::types::{Layer, Model, VoxError};
use crate::writer::{chunk_bytes, dict_bytes, model_bytes, model_writable, write_model};

verus! {

/// One piece is no longer than the run of pieces it belongs to.
pub proof fn lemma_piece_len(f: spec_fn(int) -> Seq<u8>, i: int, n: nat)
    requires
        0 <= i < n,
    ensures
        f(i).len() <= indexed_concat(n, f).len(),
{
    lemma_indexed_concat_grows(f, (i + 1) as nat, n);
}

/// The version written for a scene: 150 when it has none.
pub open spec fn write_version(s: Scene) -> u32 {
    if s.file_version == 0 {
        150
    } else {
        s.file_version
    }
}

/// The metadata chunk, written for version 200 and later.
pub open spec fn meta_part(s: Scene) -> Seq<u8> {
    if write_version(s) >= 200 {
        chunk_bytes(0x4154454d, meta_content(s.anim_range_start, s.anim_range_end))
    } else {
        Seq::empty()
    }
}

/// The `SIZE` and `XYZI` chunks of every model.
pub open spec fn models_part(models: Seq<Model>) -> Seq<u8> {
    indexed_concat(models.len(), |i: int| model_bytes(models[i]))
}

/// The transform node of group `i`: node id `i`, child the group node.
pub open spec fn group_ntrn_chunk(s: Scene, i: int) -> Seq<u8> {
    let g = s.groups@[i];
    chunk_bytes(
        0x4e52546e,
        ntrn_content(
            i as u32,
            (s.groups@.len() + i) as u32,
            g.name,
            g.hidden,
            g.transform,
            g.layer_index,
            g.transform_anim,
        ),
    )
}

/// The group node of group `i`: node id the number of groups plus `i`.
pub open spec fn ngrp_chunk(s: Scene, i: int) -> Seq<u8> {
    let gl = s.groups@.len();
    chunk_bytes(
        0x5052476e,
        ngrp_content(
            (gl + i) as u32,
            s.groups@[i].hidden,
            group_children(s.groups@, s.instances@, i, (2 * gl + s.instances@.len()) as int),
        ),
    )
}

/// The shape node of instance `i`: node id twice the number of groups plus `i`.
pub open spec fn nshp_chunk(s: Scene, i: int) -> Seq<u8> {
    chunk_bytes(0x5048536e, nshp_content((2 * s.groups@.len() + i) as u32, s.instances@[i]))
}

/// The transform node of instance `i`, after the shape nodes; its child is the
/// instance's shape node.
pub open spec fn instance_ntrn_chunk(s: Scene, i: int) -> Seq<u8> {
    let inst = s.instances@[i];
    let gl = s.groups@.len();
    chunk_bytes(
        0x4e52546e,
        ntrn_content(
            (2 * gl + s.instances@.len() + i) as u32,
            (2 * gl + i) as u32,
            inst.name,
            inst.hidden,
            inst.transform,
            inst.layer_index,
            inst.transform_anim,
        ),
    )
}

/// The material chunk of material `i`, written when it has a property.
pub open spec fn matl_chunk(materials: Seq<Material>, i: int) -> Seq<u8> {
    if materials[i].has_any() {
        chunk_bytes(0x4c54414d, matl_content(i as u32, materials[i]))
    } else {
        Seq::empty()
    }
}

/// The node chunks: the transform and group nodes of the groups, then the shape
/// and transform nodes of the instances.
#[verifier::opaque]
pub open spec fn nodes_part(s: Scene) -> Seq<u8> {
    let gl = s.groups@.len();
    let n = s.instances@.len();
    indexed_concat(gl, |i: int| group_ntrn_chunk(s, i)) + indexed_concat(gl, |i: int| ngrp_chunk(s, i))
        + indexed_concat(n, |i: int| nshp_chunk(s, i)) + indexed_concat(n, |i: int| instance_ntrn_chunk(s, i))
}

/// The chunks of the cameras, the sun, the palette and the color names.
#[verifier::opaque]
pub open spec fn settings_part(s: Scene) -> Seq<u8> {
    indexed_concat(s.cameras@.len(), |i: int| chunk_bytes(0x4d414372, rcam_content(s.cameras@[i])))
        + match s.sun {
        Some(x) => chunk_bytes(0x4a424f72, dict_bytes(sun_entries(x))),
        None => Seq::empty(),
    } + chunk_bytes(0x41424752, rgba_content(s.palette.colors@)) + if s.color_names@.len() > 0 {
        chunk_bytes(0x45544f4e, note_content(s.color_names@))
    } else {
        Seq::empty()
    }
}

/// The chunks of the materials and the layers.
#[verifier::opaque]
pub open spec fn tables_part(s: Scene) -> Seq<u8> {
    indexed_concat(256, |i: int| matl_chunk(s.materials@, i)) + indexed_concat(
        s.layers@.len(),
        |i: int| chunk_bytes(0x5259414c, layr_content(i as u32, s.layers@[i])),
    )
}

/// The chunks after the nodes: cameras, sun, palette, color names, materials and
/// layers.
pub open spec fn tail_part(s: Scene) -> Seq<u8> {
    settings_part(s) + tables_part(s)
}

/// The chunks inside `MAIN` after the models.
pub open spec fn rest_part(s: Scene) -> Seq<u8> {
    nodes_part(s) + tail_part(s)
}

/// The chunks inside `MAIN`, in the order they are written.
pub open spec fn main_children(s: Scene) -> Seq<u8> {
    meta_part(s) + models_part(s.models@) + rest_part(s)
}

/// The bytes of a `.vox` file for `s`: the header `VOX `, the version, and
/// `MAIN` with its children.
#[verifier::opaque]
pub open spec fn file_bytes(s: Scene) -> Seq<u8> {
    le_bytes(0x20584f56) + le_bytes(write_version(s)) + le_bytes(0x4e49414d) + le_bytes(0) + le_bytes(
        main_children(s).len() as u32,
    ) + main_children(s)
}

/// The first model that cannot be written, or the number of models.
pub open spec fn first_unwritable_model(models: Seq<Model>, k: nat) -> nat
    decreases models.len() - k,
{
    if k >= models.len() {
        models.len()
    } else if !model_writable(models[k as int]) {
        k
    } else {
        first_unwritable_model(models, k + 1)
    }
}

/// Writes the transform node of every group.
fn write_group_ntrns(writer: &mut ByteWriter, s: &Scene) -> (r: Result<(), VoxError>)
    requires
        2 * s.groups@.len() + 2 * s.instances@.len() <= u32::MAX,
    ensures
        old(writer).bytes().len() <= final(writer).bytes().len(),
        (forall|i: int| 0 <= i < s.groups@.len() ==> #[trigger] node_writable(s.groups@[i].name, s.groups@[i].transform, s.groups@[i].layer_index, s.groups@[i].transform_anim)) && indexed_concat(s.groups@.len(), |i: int| group_ntrn_chunk(*s, i)).len()
            <= u32::MAX ==> r is Ok && final(writer).bytes() == old(writer).bytes() + indexed_concat(
            s.groups@.len(),
            |i: int| group_ntrn_chunk(*s, i),
        ),
        r is Err ==> r->Err_0 is InvalidData || r->Err_0 is FileTooLarge,
{
    let ghost f = |i: int| group_ntrn_chunk(*s, i);
    let ghost ok = (forall|i: int| 0 <= i < s.groups@.len() ==> #[trigger] node_writable(s.groups@[i].name, s.groups@[i].transform, s.groups@[i].layer_index, s.groups@[i].transform_anim)) && indexed_concat(s.groups@.len(), f).len() <= u32::MAX;
    let ghost start = writer.bytes();
    let count = s.groups.len();
    let mut i: usize = 0;
    while i < count
        invariant
            i <= count,
            count == s.groups@.len(),
            2 * s.groups@.len() + 2 * s.instances@.len() <= u32::MAX,
            f == (|i: int| group_ntrn_chunk(*s, i)),
            ok == ((forall|i: int| 0 <= i < s.groups@.len() ==> #[trigger] node_writable(s.groups@[i].name, s.groups@[i].transform, s.groups@[i].layer_index, s.groups@[i].transform_anim)) && indexed_concat(s.groups@.len(), f).len() <= u32::MAX),
            ok ==> writer.bytes() == start + indexed_concat(i as nat, f),
            start == old(writer).bytes(),
            start.len() <= writer.bytes().len(),
        decreases count - i,
    {
        proof {
            if ok {
                lemma_piece_len(f, i as int, s.groups@.len());
            }
        }
        let g = &s.groups[i];
        match write_ntrn(
            writer,
            i as u32,
            (s.groups.len() + i) as u32,
            &g.name,
            g.hidden,
            g.transform,
            g.layer_index,
            &g.transform_anim,
        ) {
            Ok(()) => {},
            Err(e) => {
                return Err(e);
            },
        }
        i += 1;
    }
    Ok(())
}

/// Writes the group node of every group.
fn write_group_nodes(writer: &mut ByteWriter, s: &Scene) -> (r: Result<(), VoxError>)
    requires
        2 * s.groups@.len() + 2 * s.instances@.len() <= u32::MAX,
    ensures
        old(writer).bytes().len() <= final(writer).bytes().len(),
        (forall|i: int| 0 <= i < s.groups@.len() ==> #[trigger] s.groups@[i].hidden == s.groups@[i].hidden) && indexed_concat(s.groups@.len(), |i: int| ngrp_chunk(*s, i)).len()
            <= u32::MAX ==> r is Ok && final(writer).bytes() == old(writer).bytes() + indexed_concat(
            s.groups@.len(),
            |i: int| ngrp_chunk(*s, i),
        ),
        r is Err ==> r->Err_0 is InvalidData || r->Err_0 is FileTooLarge,
{
    let ghost f = |i: int| ngrp_chunk(*s, i);
    let ghost ok = (forall|i: int| 0 <= i < s.groups@.len() ==> #[trigger] s.groups@[i].hidden == s.groups@[i].hidden) && indexed_concat(s.groups@.len(), f).len() <= u32::MAX;
    let ghost start = writer.bytes();
    let count = s.groups.len();
    let mut i: usize = 0;
    while i < count
        invariant
            i <= count,
            count == s.groups@.len(),
            2 * s.groups@.len() + 2 * s.instances@.len() <= u32::MAX,
            f == (|i: int| ngrp_chunk(*s, i)),
            ok == ((forall|i: int| 0 <= i < s.groups@.len() ==> #[trigger] s.groups@[i].hidden == s.groups@[i].hidden) && indexed_concat(s.groups@.len(), f).len() <= u32::MAX),
            ok ==> writer.bytes() == start + indexed_concat(i as nat, f),
            start == old(writer).bytes(),
            start.len() <= writer.bytes().len(),
        decreases count - i,
    {
        proof {
            if ok {
                lemma_piece_len(f, i as int, s.groups@.len());
            }
        }
        let gl = s.groups.len();
        match write_ngrp(writer, (gl + i) as u32, i, &s.groups, &s.instances, (2 * gl + s.instances.len()) as u32) {
            Ok(()) => {},
            Err(e) => {
                return Err(e);
            },
        }
        i += 1;
    }
    Ok(())
}

/// Writes the shape node of every instance.
fn write_shape_nodes(writer: &mut ByteWriter, s: &Scene) -> (r: Result<(), VoxError>)
    requires
        2 * s.groups@.len() + 2 * s.instances@.len() <= u32::MAX,
    ensures
        old(writer).bytes().len() <= final(writer).bytes().len(),
        (forall|i: int| 0 <= i < s.instances@.len() ==> shape_writable(#[trigger] s.instances@[i])) && indexed_concat(s.instances@.len(), |i: int| nshp_chunk(*s, i)).len()
            <= u32::MAX ==> r is Ok && final(writer).bytes() == old(writer).bytes() + indexed_concat(
            s.instances@.len(),
            |i: int| nshp_chunk(*s, i),
        ),
        r is Err ==> r->Err_0 is InvalidData || r->Err_0 is FileTooLarge,
{
    let ghost f = |i: int| nshp_chunk(*s, i);
    let ghost ok = (forall|i: int| 0 <= i < s.instances@.len() ==> shape_writable(#[trigger] s.instances@[i])) && indexed_concat(s.instances@.len(), f).len() <= u32::MAX;
    let ghost start = writer.bytes();
    let count = s.instances.len();
    let mut i: usize = 0;
    while i < count
        invariant
            i <= count,
            count == s.instances@.len(),
            2 * s.groups@.len() + 2 * s.instances@.len() <= u32::MAX,
            f == (|i: int| nshp_chunk(*s, i)),
            ok == ((forall|i: int| 0 <= i < s.instances@.len() ==> shape_writable(#[trigger] s.instances@[i])) && indexed_concat(s.instances@.len(), f).len() <= u32::MAX),
            ok ==> writer.bytes() == start + indexed_concat(i as nat, f),
            start == old(writer).bytes(),
            start.len() <= writer.bytes().len(),
        decreases count - i,
    {
        proof {
            if ok {
                lemma_piece_len(f, i as int, s.instances@.len());
            }
        }
        match write_nshp(writer, (2 * s.groups.len() + i) as u32, &s.instances[i]) {
            Ok(()) => {},
            Err(e) => {
                return Err(e);
            },
        }
        i += 1;
    }
    Ok(())
}

/// Writes the transform node of every instance.
fn write_instance_ntrns(writer: &mut ByteWriter, s: &Scene) -> (r: Result<(), VoxError>)
    requires
        2 * s.groups@.len() + 2 * s.instances@.len() <= u32::MAX,
    ensures
        old(writer).bytes().len() <= final(writer).bytes().len(),
        (forall|i: int| 0 <= i < s.instances@.len() ==> #[trigger] node_writable(s.instances@[i].name, s.instances@[i].transform, s.instances@[i].layer_index, s.instances@[i].transform_anim)) && indexed_concat(s.instances@.len(), |i: int| instance_ntrn_chunk(*s, i)).len()
            <= u32::MAX ==> r is Ok && final(writer).bytes() == old(writer).bytes() + indexed_concat(
            s.instances@.len(),
            |i: int| instance_ntrn_chunk(*s, i),
        ),
        r is Err ==> r->Err_0 is InvalidData || r->Err_0 is FileTooLarge,
{
    let ghost f = |i: int| instance_ntrn_chunk(*s, i);
    let ghost ok = (forall|i: int| 0 <= i < s.instances@.len() ==> #[trigger] node_writable(s.instances@[i].name, s.instances@[i].transform, s.instances@[i].layer_index, s.instances@[i].transform_anim)) && indexed_concat(s.instances@.len(), f).len() <= u32::MAX;
    let ghost start = writer.bytes();
    let count = s.instances.len();
    let mut i: usize = 0;
    while i < count
        invariant
            i <= count,
            count == s.instances@.len(),
            2 * s.groups@.len() + 2 * s.instances@.len() <= u32::MAX,
            f == (|i: int| instance_ntrn_chunk(*s, i)),
            ok == ((forall|i: int| 0 <= i < s.instances@.len() ==> #[trigger] node_writable(s.instances@[i].name, s.instances@[i].transform, s.instances@[i].layer_index, s.instances@[i].transform_anim)) && indexed_concat(s.instances@.len(), f).len() <= u32::MAX),
            ok ==> writer.bytes() == start + indexed_concat(i as nat, f),
            start == old(writer).bytes(),
            start.len() <= writer.bytes().len(),
        decreases count - i,
    {
        proof {
            if ok {
                lemma_piece_len(f, i as int, s.instances@.len());
            }
        }
        let inst = &s.instances[i];
        let base = 2 * s.groups.len() + s.instances.len();
        match write_ntrn(
            writer,
            (base + i) as u32,
            (2 * s.groups.len() + i) as u32,
            &inst.name,
            inst.hidden,
            inst.transform,
            inst.layer_index,
            &inst.transform_anim,
        ) {
            Ok(()) => {},
            Err(e) => {
                return Err(e);
            },
        }
        i += 1;
    }
    Ok(())
}

/// Writes the chunk of every camera.
fn write_cameras(writer: &mut ByteWriter, s: &Scene) -> (r: Result<(), VoxError>)
    requires
        2 * s.groups@.len() + 2 * s.instances@.len() <= u32::MAX,
    ensures
        old(writer).bytes().len() <= final(writer).bytes().len(),
        (forall|i: int| 0 <= i < s.cameras@.len() ==> camera_writable(#[trigger] s.cameras@[i])) && indexed_concat(s.cameras@.len(), |i: int| chunk_bytes(0x4d414372, rcam_content(s.cameras@[i]))).len()
            <= u32::MAX ==> r is Ok && final(writer).bytes() == old(writer).bytes() + indexed_concat(
            s.cameras@.len(),
            |i: int| chunk_bytes(0x4d414372, rcam_content(s.cameras@[i])),
        ),
        r is Err ==> r->Err_0 is InvalidData || r->Err_0 is FileTooLarge,
{
    let ghost f = |i: int| chunk_bytes(0x4d414372, rcam_content(s.cameras@[i]));
    let ghost ok = (forall|i: int| 0 <= i < s.cameras@.len() ==> camera_writable(#[trigger] s.cameras@[i])) && indexed_concat(s.cameras@.len(), f).len() <= u32::MAX;
    let ghost start = writer.bytes();
    let count = s.cameras.len();
    let mut i: usize = 0;
    while i < count
        invariant
            i <= count,
            count == s.cameras@.len(),
            2 * s.groups@.len() + 2 * s.instances@.len() <= u32::MAX,
            f == (|i: int| chunk_bytes(0x4d414372, rcam_content(s.cameras@[i]))),
            ok == ((forall|i: int| 0 <= i < s.cameras@.len() ==> camera_writable(#[trigger] s.cameras@[i])) && indexed_concat(s.cameras@.len(), f).len() <= u32::MAX),
            ok ==> writer.bytes() == start + indexed_concat(i as nat, f),
            start == old(writer).bytes(),
            start.len() <= writer.bytes().len(),
        decreases count - i,
    {
        proof {
            if ok {
                lemma_piece_len(f, i as int, s.cameras@.len());
            }
        }
        match write_rcam(writer, &s.cameras[i]) {
            Ok(()) => {},
            Err(e) => {
                return Err(e);
            },
        }
        i += 1;
    }
    Ok(())
}

/// Writes the chunk of every material that has a property.
fn write_materials(writer: &mut ByteWriter, s: &Scene) -> (r: Result<(), VoxError>)
    requires
        2 * s.groups@.len() + 2 * s.instances@.len() <= u32::MAX,
        s.materials@.len() == 256,
    ensures
        old(writer).bytes().len() <= final(writer).bytes().len(),
        (forall|i: int| 0 <= i < s.materials@.len() ==> material_writable(#[trigger] s.materials@[i])) && indexed_concat(s.materials@.len(), |i: int| matl_chunk(s.materials@, i)).len()
            <= u32::MAX ==> r is Ok && final(writer).bytes() == old(writer).bytes() + indexed_concat(
            s.materials@.len(),
            |i: int| matl_chunk(s.materials@, i),
        ),
        r is Err ==> r->Err_0 is InvalidData || r->Err_0 is FileTooLarge,
{
    let ghost f = |i: int| matl_chunk(s.materials@, i);
    let ghost ok = (forall|i: int| 0 <= i < s.materials@.len() ==> material_writable(#[trigger] s.materials@[i])) && indexed_concat(s.materials@.len(), f).len() <= u32::MAX;
    let ghost start = writer.bytes();
    let count = s.materials.len();
    let mut i: usize = 0;
    while i < count
        invariant
            i <= count,
            count == s.materials@.len(),
            2 * s.groups@.len() + 2 * s.instances@.len() <= u32::MAX,
            f == (|i: int| matl_chunk(s.materials@, i)),
            ok == ((forall|i: int| 0 <= i < s.materials@.len() ==> material_writable(#[trigger] s.materials@[i])) && indexed_concat(s.materials@.len(), f).len() <= u32::MAX),
            ok ==> writer.bytes() == start + indexed_concat(i as nat, f),
            start == old(writer).bytes(),
            start.len() <= writer.bytes().len(),
            s.materials@.len() == 256,
        decreases count - i,
    {
        proof {
            if ok {
                lemma_piece_len(f, i as int, s.materials@.len());
            }
        }
        if s.materials[i].has_content() {
            match write_matl(writer, i as u32, &s.materials[i]) {
                Ok(()) => {},
                Err(e) => {
                    return Err(e);
                },
            }
        }
        i += 1;
    }
    Ok(())
}

/// Writes the chunk of every layer.
fn write_layers(writer: &mut ByteWriter, s: &Scene) -> (r: Result<(), VoxError>)
    requires
        2 * s.groups@.len() + 2 * s.instances@.len() <= u32::MAX,
        s.layers@.len() <= 0x1_0000_0000,
    ensures
        old(writer).bytes().len() <= final(writer).bytes().len(),
        (forall|i: int| 0 <= i < s.layers@.len() ==> name_fits((#[trigger] s.layers@[i]).name)) && indexed_concat(s.layers@.len(), |i: int| chunk_bytes(0x5259414c, layr_content(i as u32, s.layers@[i]))).len()
            <= u32::MAX ==> r is Ok && final(writer).bytes() == old(writer).bytes() + indexed_concat(
            s.layers@.len(),
            |i: int| chunk_bytes(0x5259414c, layr_content(i as u32, s.layers@[i])),
        ),
        r is Err ==> r->Err_0 is InvalidData || r->Err_0 is FileTooLarge,
{
    let ghost f = |i: int| chunk_bytes(0x5259414c, layr_content(i as u32, s.layers@[i]));
    let ghost ok = (forall|i: int| 0 <= i < s.layers@.len() ==> name_fits((#[trigger] s.layers@[i]).name)) && indexed_concat(s.layers@.len(), f).len() <= u32::MAX;
    let ghost start = writer.bytes();
    let count = s.layers.len();
    let mut i: usize = 0;
    while i < count
        invariant
            i <= count,
            count == s.layers@.len(),
            2 * s.groups@.len() + 2 * s.instances@.len() <= u32::MAX,
            f == (|i: int| chunk_bytes(0x5259414c, layr_content(i as u32, s.layers@[i]))),
            ok == ((forall|i: int| 0 <= i < s.layers@.len() ==> name_fits((#[trigger] s.layers@[i]).name)) && indexed_concat(s.layers@.len(), f).len() <= u32::MAX),
            ok ==> writer.bytes() == start + indexed_concat(i as nat, f),
            start == old(writer).bytes(),
            start.len() <= writer.bytes().len(),
            s.layers@.len() <= 0x1_0000_0000,
        decreases count - i,
    {
        proof {
            if ok {
                lemma_piece_len(f, i as int, s.layers@.len());
            }
        }
        if i > 0xffff_ffff {
            return Err(VoxError::InvalidData("index exceeds u32".to_string()));
        }
        match write_layr(writer, i as u32, &s.layers[i]) {
            Ok(()) => {},
            Err(e) => {
                return Err(e);
            },
        }
        i += 1;
    }
    Ok(())
}

/// Writes the chunks of every model, stopping at the first that cannot be
/// written. Returns how many were written.
fn write_models(writer: &mut ByteWriter, models: &Vec<Model>) -> (r: (Result<(), VoxError>, usize))
    ensures
        old(writer).bytes().len() <= final(writer).bytes().len(),
        r.1 == first_unwritable_model(models@, 0),
        r.1 <= models@.len(),
        r.1 < models@.len() ==> r.0 matches Err(VoxError::InvalidData(_)),
        r.1 == models@.len() ==> r.0 is Ok && final(writer).bytes() == old(writer).bytes() + models_part(models@),
{
    let ghost f = |i: int| model_bytes(models@[i]);
    let ghost start = writer.bytes();
    let mut i: usize = 0;
    while i < models.len()
        invariant
            i <= models@.len(),
            f == (|i: int| model_bytes(models@[i])),
            first_unwritable_model(models@, i as nat) == first_unwritable_model(models@, 0),
            writer.bytes() == start + indexed_concat(i as nat, f),
            start == old(writer).bytes(),
        decreases models@.len() - i,
    {
        match write_model(writer, &models[i]) {
            Ok(()) => {},
            Err(e) => {
                return (Err(e), i);
            },
        }
        i += 1;
    }
    (Ok(()), i)
}

/// Whether the nodes can be written: at least one group, node ids that fit a
/// `u32`, valid rotations, names, frame counts and indices that fit a `u32`, and
/// node chunks whose total size fits a `u32`.
pub open spec fn nodes_writable(s: Scene) -> bool {
    &&& s.groups@.len() > 0
    &&& 2 * s.groups@.len() + 2 * s.instances@.len() <= u32::MAX
    &&& forall|i: int|
        0 <= i < s.groups@.len() ==> #[trigger] node_writable(
            s.groups@[i].name,
            s.groups@[i].transform,
            s.groups@[i].layer_index,
            s.groups@[i].transform_anim,
        )
    &&& forall|i: int|
        0 <= i < s.instances@.len() ==> #[trigger] node_writable(
            s.instances@[i].name,
            s.instances@[i].transform,
            s.instances@[i].layer_index,
            s.instances@[i].transform_anim,
        )
    &&& forall|i: int| 0 <= i < s.instances@.len() ==> shape_writable(#[trigger] s.instances@[i])
    &&& nodes_part(s).len() <= u32::MAX
}

/// Whether the chunks of the cameras, the sun and the color names can be
/// written: texts whose lengths fit a `u32`, and chunks whose total size fits a
/// `u32`.
pub open spec fn settings_writable(s: Scene) -> bool {
    &&& forall|i: int| 0 <= i < s.cameras@.len() ==> camera_writable(#[trigger] s.cameras@[i])
    &&& (s.sun matches Some(x) ==> sun_writable(x))
    &&& names_writable(s.color_names@)
    &&& settings_part(s).len() <= u32::MAX
}

/// Whether the chunks of the materials and the layers can be written: material
/// properties held as text, layer indices and names that fit a `u32`, and chunks
/// whose total size fits a `u32`.
pub open spec fn tables_writable(s: Scene) -> bool {
    &&& forall|i: int| 0 <= i < s.materials@.len() ==> material_writable(#[trigger] s.materials@[i])
    &&& s.layers@.len() <= 0x1_0000_0000
    &&& forall|i: int| 0 <= i < s.layers@.len() ==> name_fits((#[trigger] s.layers@[i]).name)
    &&& tables_part(s).len() <= u32::MAX
}

/// Whether the chunks after the nodes can be written.
pub open spec fn tail_writable(s: Scene) -> bool {
    settings_writable(s) && tables_writable(s) && tail_part(s).len() <= u32::MAX
}

/// Writes the node chunks.
fn write_nodes(writer: &mut ByteWriter, s: &Scene) -> (r: Result<(), VoxError>)
    requires
        2 * s.groups@.len() + 2 * s.instances@.len() <= u32::MAX,
    ensures
        old(writer).bytes().len() <= final(writer).bytes().len(),
        nodes_writable(*s) ==> r is Ok && final(writer).bytes() == old(writer).bytes() + nodes_part(*s),
        r is Err ==> r->Err_0 is InvalidData || r->Err_0 is FileTooLarge,
{
    proof {
        reveal(nodes_part);
    }
    match write_group_ntrns(writer, s) {
        Ok(()) => {},
        Err(e) => {
            return Err(e);
        },
    }
    match write_group_nodes(writer, s) {
        Ok(()) => {},
        Err(e) => {
            return Err(e);
        },
    }
    match write_shape_nodes(writer, s) {
        Ok(()) => {},
        Err(e) => {
            return Err(e);
        },
    }
    match write_instance_ntrns(writer, s) {
        Ok(()) => {},
        Err(e) => {
            return Err(e);
        },
    }
    Ok(())
}

/// Writes the chunks of the cameras, the sun, the palette and the color names.
fn write_settings(writer: &mut ByteWriter, s: &Scene) -> (r: Result<(), VoxError>)
    requires
        2 * s.groups@.len() + 2 * s.instances@.len() <= u32::MAX,
    ensures
        old(writer).bytes().len() <= final(writer).bytes().len(),
        settings_writable(*s) ==> r is Ok && final(writer).bytes() == old(writer).bytes() + settings_part(*s),
        r is Err ==> r->Err_0 is InvalidData || r->Err_0 is FileTooLarge,
{
    proof {
        reveal(settings_part);
    }
    match write_cameras(writer, s) {
        Ok(()) => {},
        Err(e) => {
            return Err(e);
        },
    }
    match &s.sun {
        Some(sun) => match write_robj(writer, sun) {
            Ok(()) => {},
            Err(e) => {
                return Err(e);
            },
        },
        None => {},
    }
    write_rgba(writer, &s.palette.colors);
    if s.color_names.len() > 0 {
        match write_note(writer, &s.color_names) {
            Ok(()) => {},
            Err(e) => {
                return Err(e);
            },
        }
    }
    Ok(())
}

/// Writes the chunks of the materials and the layers.
fn write_tables(writer: &mut ByteWriter, s: &Scene) -> (r: Result<(), VoxError>)
    requires
        s.materials@.len() == 256,
        2 * s.groups@.len() + 2 * s.instances@.len() <= u32::MAX,
        s.layers@.len() <= 0x1_0000_0000,
    ensures
        old(writer).bytes().len() <= final(writer).bytes().len(),
        tables_writable(*s) ==> r is Ok && final(writer).bytes() == old(writer).bytes() + tables_part(*s),
        r is Err ==> r->Err_0 is InvalidData || r->Err_0 is FileTooLarge,
{
    proof {
        reveal(tables_part);
    }
    match write_materials(writer, s) {
        Ok(()) => {},
        Err(e) => {
            return Err(e);
        },
    }
    match write_layers(writer, s) {
        Ok(()) => {},
        Err(e) => {
            return Err(e);
        },
    }
    Ok(())
}

/// Writes the chunks after the nodes.
fn write_tail(writer: &mut ByteWriter, s: &Scene) -> (r: Result<(), VoxError>)
    requires
        s.materials@.len() == 256,
        2 * s.groups@.len() + 2 * s.instances@.len() <= u32::MAX,
        s.layers@.len() <= 0x1_0000_0000,
    ensures
        old(writer).bytes().len() <= final(writer).bytes().len(),
        tail_writable(*s) ==> r is Ok && final(writer).bytes() == old(writer).bytes() + tail_part(*s),
        r is Err ==> r->Err_0 is InvalidData || r->Err_0 is FileTooLarge,
{
    match write_settings(writer, s) {
        Ok(()) => {},
        Err(e) => {
            return Err(e);
        },
    }
    match write_tables(writer, s) {
        Ok(()) => {},
        Err(e) => {
            return Err(e);
        },
    }
    Ok(())
}

/// Models that can all be written are all written.
proof fn lemma_all_models_writable(models: Seq<Model>, k: nat)
    requires
        forall|i: int| 0 <= i < models.len() ==> model_writable(#[trigger] models[i]),
    ensures
        first_unwritable_model(models, k) == models.len(),
    decreases models.len() - k,
{
    if k < models.len() {
        assert(model_writable(models[k as int]));
        lemma_all_models_writable(models, k + 1);
    }
}

/// A scene can be written when its models, its nodes and the chunks after them
/// can, and the chunks inside `MAIN` fit a `u32` size.
#[verifier::opaque]
pub open spec fn scene_writable(s: Scene) -> bool {
    &&& forall|i: int| 0 <= i < s.models@.len() ==> model_writable(#[trigger] s.models@[i])
    &&& nodes_writable(s)
    &&& tail_writable(s)
    &&& main_children(s).len() <= u32::MAX
}

/// Whether `b` is a `.vox` file of `version`: the header `VOX `, the version,
/// and a `MAIN` chunk without content whose children fill the rest.
pub open spec fn framed(b: Seq<u8>, version: u32) -> bool {
    &&& 20 <= b.len() <= 20 + u32::MAX
    &&& b.take(20) == le_bytes(0x20584f56) + le_bytes(version) + le_bytes(0x4e49414d) + le_bytes(0) + le_bytes(
        (b.len() - 20) as u32,
    )
}

/// Writes a scene already brought into the shape that writing expects: its
/// header, `MAIN`, and the chunks inside it. Returns, besides the bytes, how
/// many models were written before a model that cannot be written stopped it.
pub fn write_scene_bytes(s: &Scene) -> (r: (Result<Vec<u8>, VoxError>, usize))
    requires
        s.materials@.len() == 256,
        2 * s.groups@.len() + 2 * s.instances@.len() <= u32::MAX,
    ensures
        r.1 == first_unwritable_model(s.models@, 0),
        r.1 < s.models@.len() ==> r.0 matches Err(VoxError::InvalidData(_)),
        r.1 == s.models@.len() && s.groups@.len() == 0 ==> r.0 matches Err(VoxError::InvalidData(_)),
        scene_writable(*s) ==> r.0 is Ok && r.0->Ok_0@ == file_bytes(*s),
        r.0 is Err ==> r.0->Err_0 is InvalidData || r.0->Err_0 is FileTooLarge,
        r.0 is Ok ==> framed(r.0->Ok_0@, write_version(*s)),
{
    let ghost ok = scene_writable(*s);
    proof {
        reveal(scene_writable);
        reveal(file_bytes);
        if ok {
            lemma_all_models_writable(s.models@, 0);
        }
    }
    let mut writer = ByteWriter::new();
    let version: u32 = if s.file_version == 0 {
        150
    } else {
        s.file_version
    };
    if version >= 200 {
        let _ = write_meta(&mut writer, s.anim_range_start, s.anim_range_end);
    }
    let ghost after_meta = writer.bytes();
    assert(after_meta =~= meta_part(*s));
    let (models_result, models_done) = write_models(&mut writer, &s.models);
    match models_result {
        Ok(()) => {},
        Err(e) => {
            return (Err(e), models_done);
        },
    }
    let ghost after_models = writer.bytes();
    if s.groups.len() == 0 {
        return (Err(VoxError::InvalidData("scene must contain at least one group".to_string())), models_done);
    }
    if s.layers.len() as u64 > 0x1_0000_0000u64 {
        return (Err(VoxError::InvalidData("index exceeds u32".to_string())), models_done);
    }
    match write_nodes(&mut writer, s) {
        Ok(()) => {},
        Err(e) => {
            return (Err(e), models_done);
        },
    }
    match write_tail(&mut writer, s) {
        Ok(()) => {},
        Err(e) => {
            return (Err(e), models_done);
        },
    }
    let ghost children = main_children(*s);
    proof {
        if ok {
            vstd::seq_lib::lemma_concat_associative(meta_part(*s), models_part(s.models@), rest_part(*s));
            assert(writer.bytes() =~= children);
        }
    }
    let children_len = writer.len();
    if children_len > 0xffff_ffff {
        return (Err(VoxError::FileTooLarge), models_done);
    }
    let body = writer.into_inner();
    let mut file = ByteWriter::new();
    file.write_u32(0x20584f56);
    file.write_u32(version);
    file.write_u32(0x4e49414d);
    file.write_u32(0);
    file.write_u32(children_len as u32);
    let ghost header = file.bytes();
    file.write_bytes(body.as_slice());
    proof {
        assert(file.bytes().take(20) =~= header);
        assert(file.bytes().skip(20) =~= body@);
        if ok {
            assert(file.bytes() =~= file_bytes(*s));
        }
    }
    (Ok(file.into_inner()), models_done)
}

/// Whether normalizing `scene` fails: it has no groups but an instance names
/// one, or it has groups but none without a parent.
pub open spec fn normalization_fails(scene: Scene) -> bool {
    (scene.groups@.len() == 0 && some_instance_grouped(scene.instances@)) || (scene.groups@.len() > 0
        && !has_root(scene.groups@))
}

/// Whether `r` is what writing the normalized scene `n` gives: when an index of
/// `n` names nothing, an error; otherwise a model that cannot be written fails
/// with `InvalidData`, and a scene that can be written gives its file bytes.
pub open spec fn written_bytes(n: Scene, r: Result<Vec<u8>, VoxError>) -> bool {
    if !references_valid(n) {
        &&& r is Err
        &&& r->Err_0 is IndexOutOfBounds || r->Err_0 is InvalidData
    } else {
        &&& first_unwritable_model(n.models@, 0) < n.models@.len() ==> (r matches Err(VoxError::InvalidData(_)))
        &&& scene_writable(n) ==> r is Ok && r->Ok_0@ == file_bytes(n)
        &&& r is Err ==> r->Err_0 is InvalidData || r->Err_0 is FileTooLarge
        &&& r is Ok ==> framed(r->Ok_0@, write_version(n))
    }
}

/// Whether `r` is what writing the normalized scene `n` gives, as
/// [`written_bytes`] says, with the number of models written: none when an
/// index names nothing, else those before the first that cannot be written.
pub open spec fn written_as(n: Scene, r: (Result<Vec<u8>, VoxError>, usize)) -> bool {
    &&& written_bytes(n, r.0)
    &&& r.1 == if references_valid(n) {
        first_unwritable_model(n.models@, 0)
    } else {
        0
    }
}

/// Writes a scene as a `.vox` file: the scene is first brought into the shape
/// that writing expects (a single root group `0`, every instance in a group, and
/// a layer), its indices are checked, and then it is written. Returns, besides
/// the bytes, how many models were written before an error stopped it.
#[verifier::rlimit(40)]
pub fn write_scene(scene: Scene) -> (r: (Result<Vec<u8>, VoxError>, usize))
    requires
        group_indices_shiftable(scene),
        scene.materials@.len() == 256,
        2 * (scene.groups@.len() + 1) + 2 * scene.instances@.len() <= u32::MAX,
    ensures
        normalization_fails(scene) ==> r.0 is Err && r.0->Err_0 is InvalidData && r.1 == 0,
        !normalization_fails(scene) && (forall|n: Scene|
            #![trigger normalization(scene, true, Ok(n))]
            normalization(scene, true, Ok(n)) ==> references_valid(n) && scene_writable(n)) ==> r.0 is Ok
            && exists|n: Scene|
            #![trigger file_bytes(n)]
            normalization(scene, true, Ok(n)) && r.0->Ok_0@ == file_bytes(n),
        !normalization_fails(scene) ==> exists|n: Scene|
            #![trigger normalization(scene, true, Ok(n))]
            normalization(scene, true, Ok(n)) && written_as(n, r),
        r.1 <= scene.models@.len(),
        r.1 < scene.models@.len() ==> r.0 is Err,
        r.1 == first_unwritable_model(scene.models@, 0) || r.1 == 0,
        r.1 < first_unwritable_model(scene.models@, 0) ==> r.1 == 0 && r.0 is Err,
        r.0 is Err ==> r.0->Err_0 is InvalidData || r.0->Err_0 is FileTooLarge || r.0->Err_0 is IndexOutOfBounds,
        r.0 is Ok ==> framed(r.0->Ok_0@, write_version(scene)),
{
    let ghost original = scene;
    let result = normalize_scene_graph(scene, true);
    proof {
        lemma_normalization_keeps(original, true, result);
    }
    let normalized = match result {
        Ok(n) => n,
        Err(e) => {
            return (Err(e), 0);
        },
    };
    assert(normalization(original, true, Ok(normalized)));
    match validate_scene_references(&normalized) {
        Ok(()) => {},
        Err(e) => {
            assert(written_as(normalized, (Err(e), 0usize)));
            return (Err(e), 0);
        },
    }
    let (bytes, models_done) = write_scene_bytes(&normalized);
    assert(written_as(normalized, (bytes, models_done)));
    proof {
        lemma_first_unwritable_bound(normalized.models@, 0);
        if scene_writable(normalized) {
            assert(normalization(original, true, Ok(normalized)) && bytes->Ok_0@ == file_bytes(normalized));
        }
    }
    (bytes, models_done)
}

/// The first model that cannot be written is one of them, or the count.
proof fn lemma_first_unwritable_bound(models: Seq<Model>, k: nat)
    ensures
        first_unwritable_model(models, k) <= models.len(),
        first_unwritable_model(models, k) < models.len() ==> !model_writable(
            models[first_unwritable_model(models, k) as int],
        ),
    decreases models.len() - k,
{
    if k < models.len() && model_writable(models[k as int]) {
        lemma_first_unwritable_bound(models, k + 1);
    }
}

impl Scene {
    /// Serializes the scene into a new byte vector, as [`write_scene`] does.
    pub fn write(self) -> (r: Result<Vec<u8>, VoxError>)
        requires
            group_indices_shiftable(self),
            self.materials@.len() == 256,
            2 * (self.groups@.len() + 1) + 2 * self.instances@.len() <= u32::MAX,
        ensures
            normalization_fails(self) ==> r matches Err(VoxError::InvalidData(_)),
            !normalization_fails(self) && (forall|n: Scene|
                #![trigger normalization(self, true, Ok(n))]
                normalization(self, true, Ok(n)) ==> references_valid(n) && scene_writable(n)) ==> r is Ok
                && exists|n: Scene|
                #![trigger file_bytes(n)]
                normalization(self, true, Ok(n)) && r->Ok_0@ == file_bytes(n),
            !normalization_fails(self) ==> exists|n: Scene|
                #![trigger normalization(self, true, Ok(n))]
                normalization(self, true, Ok(n)) && written_bytes(n, r),
            r is Err ==> r->Err_0 is InvalidData || r->Err_0 is FileTooLarge || r->Err_0 is IndexOutOfBounds,
            r is Ok ==> framed(r->Ok_0@, write_version(self)),
    {
        write_scene(self).0
    }
}

} // verus!
