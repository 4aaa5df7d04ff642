use vstd::prelude::*;
use vstd::string::StringSliceAdditionalSpecFns;

use crate::bytes::{i32_from_bits, u32_at, ByteReader, LimitedReader};
use crate::dict::{bytes_equal, Dict};
use crate::chunk_writers::{media_text, mode_text, type_text};
use crate::nodes::{
    ensure_node_slot, node_ok, nodes_ok, transform_node_ok, TempGroupNode, TempNode, TempShapeNode,
    TempTransformNode,
};
use crate::scene::{
    default_layer_from_chunk, keyframe_models_ok, Camera, KeyframeTransform, Material, ScalarText,
    Sun,
};
use crate::text::{parse_i32, parse_vec_i32, parse_vec_u32, string_from_utf8_lossy};
use crate::transform::{parse_transform, valid_rotation};
use crate::types::{
    CameraMode, KeyframeModel, Layer, MaterialType, MediaType, Model, Palette, Rgba, VoxError,
};

verus! {

/// The file header id, `VOX `.
pub const CHUNK_ID_VOX: u32 = 0x20584f56;
/// The id of the chunk that holds all others, `MAIN`.
pub const CHUNK_ID_MAIN: u32 = 0x4e49414d;
/// The id of a model's size chunk, `SIZE`.
pub const CHUNK_ID_SIZE: u32 = 0x455a4953;
/// The id of a model's voxel chunk, `XYZI`.
pub const CHUNK_ID_XYZI: u32 = 0x495a5958;
/// The id of the palette chunk, `RGBA`.
pub const CHUNK_ID_RGBA: u32 = 0x41424752;
/// The id of a transform node chunk, `nTRN`.
pub const CHUNK_ID_NTRN: u32 = 0x4e52546e;
/// The id of a group node chunk, `nGRP`.
pub const CHUNK_ID_NGRP: u32 = 0x5052476e;
/// The id of a shape node chunk, `nSHP`.
pub const CHUNK_ID_NSHP: u32 = 0x5048536e;
/// The id of the palette index map chunk, `IMAP`.
pub const CHUNK_ID_IMAP: u32 = 0x50414d49;
/// The id of a layer chunk, `LAYR`.
pub const CHUNK_ID_LAYR: u32 = 0x5259414c;
/// The id of a material chunk, `MATL`.
pub const CHUNK_ID_MATL: u32 = 0x4c54414d;
/// The id of a legacy material chunk, `MATT`.
pub const CHUNK_ID_MATT: u32 = 0x5454414d;
/// The id of a render object chunk, `rOBJ`.
pub const CHUNK_ID_ROBJ: u32 = 0x4a424f72;
/// The id of a camera chunk, `rCAM`.
pub const CHUNK_ID_RCAM: u32 = 0x4d414372;
/// The id of the color name chunk, `NOTE`.
pub const CHUNK_ID_NOTE: u32 = 0x45544f4e;
/// The id of the scene metadata chunk, `META`.
pub const CHUNK_ID_META: u32 = 0x4154454d;

/// The index that marks "none" in the file.
pub const INVALID_U32_INDEX: u32 = 0xffff_ffff;

/// Whether `value` is the text `lit`.
pub fn text_is(value: &[u8], lit: &str) -> (b: bool)
    ensures
        b == (value@ == lit.spec_bytes()),
{
    bytes_equal(value, lit.as_bytes())
}

/// An index stored as a `u32`, where all bits set means "none".
pub fn index_from_u32(raw: u32) -> (index: Option<usize>)
    ensures
        raw == INVALID_U32_INDEX ==> index is None,
        raw != INVALID_U32_INDEX ==> index == Some(raw as usize),
{
    if raw == INVALID_U32_INDEX {
        None
    } else {
        Some(raw as usize)
    }
}

/// The `u32` that stores an optional index: all bits set for "none".
pub fn u32_from_index(index: Option<usize>) -> (raw: Result<u32, VoxError>)
    ensures
        match index {
            Some(i) => if i <= u32::MAX {
                raw == Ok::<u32, VoxError>(i as u32)
            } else {
                raw is Err && raw->Err_0 is InvalidData
            },
            None => raw == Ok::<u32, VoxError>(INVALID_U32_INDEX),
        },
{
    match index {
        Some(i) => usize_to_u32(i),
        None => Ok(INVALID_U32_INDEX),
    }
}

/// `value` as a `u32`, or an error when it does not fit.
pub fn usize_to_u32(value: usize) -> (v: Result<u32, VoxError>)
    ensures
        value <= u32::MAX ==> v == Ok::<u32, VoxError>(value as u32),
        value > u32::MAX ==> v is Err && v->Err_0 is InvalidData,
{
    if value > 0xffff_ffff {
        Err(VoxError::InvalidData("value exceeds u32".to_string()))
    } else {
        Ok(value as u32)
    }
}

/// The material type that the `_type` text of a material names.
pub open spec fn material_type_from_text(value: Option<Seq<u8>>) -> MaterialType {
    match value {
        Some(v) => if v == "_metal".spec_bytes() {
            MaterialType::Metal
        } else if v == "_glass".spec_bytes() {
            MaterialType::Glass
        } else if v == "_emit".spec_bytes() {
            MaterialType::Emit
        } else if v == "_blend".spec_bytes() {
            MaterialType::Blend
        } else if v == "_media".spec_bytes() {
            MaterialType::Media
        } else {
            MaterialType::Diffuse
        },
        None => MaterialType::Diffuse,
    }
}

/// The media type that the `_media_type` text of a material names.
pub open spec fn media_type_from_text(value: Option<Seq<u8>>) -> MediaType {
    match value {
        Some(v) => if v == "_scatter".spec_bytes() {
            MediaType::Scatter
        } else if v == "_emit".spec_bytes() {
            MediaType::Emit
        } else if v == "_sss".spec_bytes() {
            MediaType::Sss
        } else {
            MediaType::Absorb
        },
        None => MediaType::Absorb,
    }
}

/// The view of an optional borrowed text.
pub open spec fn opt_view(value: Option<&Vec<u8>>) -> Option<Seq<u8>> {
    match value {
        Some(v) => Some(v@),
        None => None,
    }
}

/// The material type that the `_type` text of a material names.
pub fn parse_material_type(value: Option<&Vec<u8>>) -> (t: MaterialType)
    ensures
        t == material_type_from_text(opt_view(value)),
{
    match value {
        Some(v) => if text_is(v.as_slice(), "_metal") {
            MaterialType::Metal
        } else if text_is(v.as_slice(), "_glass") {
            MaterialType::Glass
        } else if text_is(v.as_slice(), "_emit") {
            MaterialType::Emit
        } else if text_is(v.as_slice(), "_blend") {
            MaterialType::Blend
        } else if text_is(v.as_slice(), "_media") {
            MaterialType::Media
        } else {
            MaterialType::Diffuse
        },
        None => MaterialType::Diffuse,
    }
}

/// The media type that the `_media_type` text of a material names.
pub fn parse_media_type(value: Option<&Vec<u8>>) -> (t: MediaType)
    ensures
        t == media_type_from_text(opt_view(value)),
{
    match value {
        Some(v) => if text_is(v.as_slice(), "_scatter") {
            MediaType::Scatter
        } else if text_is(v.as_slice(), "_emit") {
            MediaType::Emit
        } else if text_is(v.as_slice(), "_sss") {
            MediaType::Sss
        } else {
            MediaType::Absorb
        },
        None => MediaType::Absorb,
    }
}

/// The camera mode that the `_mode` text of a camera names.
pub open spec fn camera_mode_from_text(value: Option<Seq<u8>>) -> CameraMode {
    match value {
        Some(v) => if v == "free".spec_bytes() {
            CameraMode::Free
        } else if v == "pano".spec_bytes() {
            CameraMode::Pano
        } else if v == "iso".spec_bytes() {
            CameraMode::Isometric
        } else if v == "orth".spec_bytes() {
            CameraMode::Orthographic
        } else if v == "pers".spec_bytes() {
            CameraMode::Perspective
        } else {
            CameraMode::Unknown
        },
        None => CameraMode::Unknown,
    }
}

/// The camera mode that the `_mode` text of a camera names.
pub fn parse_camera_mode(value: Option<&Vec<u8>>) -> (m: CameraMode)
    ensures
        m == camera_mode_from_text(opt_view(value)),
{
    match value {
        Some(v) => if text_is(v.as_slice(), "free") {
            CameraMode::Free
        } else if text_is(v.as_slice(), "pano") {
            CameraMode::Pano
        } else if text_is(v.as_slice(), "iso") {
            CameraMode::Isometric
        } else if text_is(v.as_slice(), "orth") {
            CameraMode::Orthographic
        } else if text_is(v.as_slice(), "pers") {
            CameraMode::Perspective
        } else {
            CameraMode::Unknown
        },
        None => CameraMode::Unknown,
    }
}

/// A name from its text: none when the text is absent or empty.
pub fn parse_optional_name(value: Option<&Vec<u8>>) -> (name: Option<String>)
    ensures
        match value {
            Some(v) => if v@.len() > 0 {
                name is Some && name->Some_0@ == crate::text::utf8_lossy(v@)
            } else {
                name is None
            },
            None => name is None,
        },
{
    match value {
        Some(v) => if v.len() > 0 {
            Some(string_from_utf8_lossy(v.as_slice()))
        } else {
            None
        },
        None => None,
    }
}

/// A copy of an optional borrowed text.
pub fn copy_text(value: Option<&Vec<u8>>) -> (copy: Option<Vec<u8>>)
    ensures
        match value {
            Some(v) => copy is Some && copy->Some_0@ == v@,
            None => copy is None,
        },
{
    match value {
        Some(v) => Some(crate::dict::to_vec(v.as_slice())),
        None => None,
    }
}

/// The bytes of the material and media type names.
proof fn lemma_type_name_bytes()
    ensures
        "_diffuse".spec_bytes() == seq![95u8, 100, 105, 102, 102, 117, 115, 101],
        "_metal".spec_bytes() == seq![95u8, 109, 101, 116, 97, 108],
        "_glass".spec_bytes() == seq![95u8, 103, 108, 97, 115, 115],
        "_emit".spec_bytes() == seq![95u8, 101, 109, 105, 116],
        "_blend".spec_bytes() == seq![95u8, 98, 108, 101, 110, 100],
        "_media".spec_bytes() == seq![95u8, 109, 101, 100, 105, 97],
        "_absorb".spec_bytes() == seq![95u8, 97, 98, 115, 111, 114, 98],
        "_scatter".spec_bytes() == seq![95u8, 115, 99, 97, 116, 116, 101, 114],
        "_sss".spec_bytes() == seq![95u8, 115, 115, 115],
{
    reveal_strlit("_diffuse");
    vstd::string::is_ascii_spec_bytes("_diffuse");
    reveal_strlit("_metal");
    vstd::string::is_ascii_spec_bytes("_metal");
    reveal_strlit("_glass");
    vstd::string::is_ascii_spec_bytes("_glass");
    reveal_strlit("_emit");
    vstd::string::is_ascii_spec_bytes("_emit");
    reveal_strlit("_blend");
    vstd::string::is_ascii_spec_bytes("_blend");
    reveal_strlit("_media");
    vstd::string::is_ascii_spec_bytes("_media");
    reveal_strlit("_absorb");
    vstd::string::is_ascii_spec_bytes("_absorb");
    reveal_strlit("_scatter");
    vstd::string::is_ascii_spec_bytes("_scatter");
    reveal_strlit("_sss");
    vstd::string::is_ascii_spec_bytes("_sss");
    assert("_diffuse".spec_bytes() =~= seq![95u8, 100, 105, 102, 102, 117, 115, 101]);
    assert("_metal".spec_bytes() =~= seq![95u8, 109, 101, 116, 97, 108]);
    assert("_glass".spec_bytes() =~= seq![95u8, 103, 108, 97, 115, 115]);
    assert("_emit".spec_bytes() =~= seq![95u8, 101, 109, 105, 116]);
    assert("_blend".spec_bytes() =~= seq![95u8, 98, 108, 101, 110, 100]);
    assert("_media".spec_bytes() =~= seq![95u8, 109, 101, 100, 105, 97]);
    assert("_absorb".spec_bytes() =~= seq![95u8, 97, 98, 115, 111, 114, 98]);
    assert("_scatter".spec_bytes() =~= seq![95u8, 115, 99, 97, 116, 116, 101, 114]);
    assert("_sss".spec_bytes() =~= seq![95u8, 115, 115, 115]);
}

/// Law: reading the `_type` text that writing gives for a material type gives
/// that type back, and so does the `_media_type` text of a media type.
pub proof fn material_type_text_round_trip(t: MaterialType, m: MediaType)
    ensures
        material_type_from_text(Some(type_text(t))) == t,
        media_type_from_text(Some(media_text(m))) == m,
{
    lemma_type_name_bytes();
    let metal = "_metal".spec_bytes();
    let glass = "_glass".spec_bytes();
    let emit = "_emit".spec_bytes();
    let blend = "_blend".spec_bytes();
    let media = "_media".spec_bytes();
    let diffuse = "_diffuse".spec_bytes();
    assert(glass != metal) by {
        assert(glass[1] != metal[1]);
    }
    assert(blend != metal && blend != glass) by {
        assert(blend[1] != metal[1] && blend[1] != glass[1]);
    }
    assert(media != metal && media != glass && media != blend) by {
        assert(media[3] != metal[3] && media[1] != glass[1] && media[1] != blend[1]);
    }
    assert(emit != metal && emit != glass && emit != blend && emit != media) by {
        assert(emit.len() != metal.len());
    }
    assert(diffuse != metal && diffuse != glass && diffuse != emit && diffuse != blend && diffuse != media) by {
        assert(diffuse.len() != metal.len() && diffuse.len() != emit.len());
    }
    let scatter = "_scatter".spec_bytes();
    let memit = "_emit".spec_bytes();
    let sss = "_sss".spec_bytes();
    let absorb = "_absorb".spec_bytes();
    assert(memit != scatter && sss != scatter && sss != memit && absorb != scatter && absorb != memit
        && absorb != sss) by {
        assert(memit.len() != scatter.len() && sss.len() != scatter.len() && sss.len() != memit.len());
        assert(absorb.len() != scatter.len() && absorb.len() != memit.len() && absorb.len() != sss.len());
    }
}

/// Law: reading the `_mode` text that writing gives for a camera mode gives
/// that mode back; a mode that is not recognized is written as perspective.
pub proof fn camera_mode_text_round_trip(m: CameraMode)
    ensures
        camera_mode_from_text(Some(mode_text(m))) == if m == CameraMode::Unknown {
            CameraMode::Perspective
        } else {
            m
        },
{
    reveal_strlit("free");
    vstd::string::is_ascii_spec_bytes("free");
    reveal_strlit("pano");
    vstd::string::is_ascii_spec_bytes("pano");
    reveal_strlit("iso");
    vstd::string::is_ascii_spec_bytes("iso");
    reveal_strlit("orth");
    vstd::string::is_ascii_spec_bytes("orth");
    reveal_strlit("pers");
    vstd::string::is_ascii_spec_bytes("pers");
    let free = "free".spec_bytes();
    let pano = "pano".spec_bytes();
    let iso = "iso".spec_bytes();
    let orth = "orth".spec_bytes();
    let pers = "pers".spec_bytes();
    assert(pano != free) by {
        assert(pano[0] != free[0]);
    }
    assert(iso != free && iso != pano) by {
        assert(iso.len() != free.len());
    }
    assert(orth != free && orth != pano && orth != iso) by {
        assert(orth[0] != free[0] && orth[0] != pano[0]);
    }
    assert(pers != free && pers != pano && pers != iso && pers != orth) by {
        assert(pers[0] != free[0] && pers[1] != pano[1] && pers[0] != orth[0]);
    }
}

} // verus!
