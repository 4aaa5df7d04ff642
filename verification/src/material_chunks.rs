use vstd::prelude::*;
use vstd::string::StringSliceAdditionalSpecFns;

use crate::bytes::{i32_from_bits, u32_at, LimitedReader};
use crate::chunks::{kept, low_byte, state_ok, ReadState};
use crate::dict::{dict_value, parse_dict, to_vec, Dict};
use crate::float_text::{check_float, check_floats, optional_float, optional_floats};
use crate::read::{
    camera_mode_from_text, copy_text, material_type_from_text, media_type_from_text, opt_view,
    parse_camera_mode, parse_material_type, parse_media_type,
};
use crate::scene::{Camera, Material, ScalarText, Sun};
use crate::text::{parse_i32, parse_i32_text, parse_u32_words, parse_vec_u32, words};
use crate::types::{MaterialType, Rgba, VoxError};

verus! {

/// The text of an optional owned text.
pub open spec fn opt_text(value: Option<Vec<u8>>) -> Option<Seq<u8>> {
    match value {
        Some(v) => Some(v@),
        None => None,
    }
}

/// A scalar property after a dictionary was applied: its decimal text when the
/// dictionary has one, else what it was before.
pub open spec fn scalar_after(
    before: Option<ScalarText>,
    text: Option<Seq<u8>>,
    after: Option<ScalarText>,
) -> bool {
    match text {
        None => after == before,
        Some(t) => after matches Some(ScalarText::Decimal(v)) && v@ == t,
    }
}

/// What a `MATL` dictionary with `entries` makes of the material `before`: type
/// and media type from `_type` and `_media_type`, each property whose key it
/// holds set to that text, and `_ri`, a refractive index, in place of `_ior`.
pub open spec fn matl_applied(
    before: Material,
    entries: Seq<(Seq<u8>, Seq<u8>)>,
    after: Material,
) -> bool {
    &&& after.material_type == material_type_from_text(dict_value(entries, "_type".spec_bytes()))
    &&& after.media_type == media_type_from_text(dict_value(entries, "_media_type".spec_bytes()))
    &&& scalar_after(before.metal, dict_value(entries, "_metal".spec_bytes()), after.metal)
    &&& scalar_after(before.rough, dict_value(entries, "_rough".spec_bytes()), after.rough)
    &&& scalar_after(before.spec, dict_value(entries, "_spec".spec_bytes()), after.spec)
    &&& match dict_value(entries, "_ri".spec_bytes()) {
        Some(t) => after.ior matches Some(ScalarText::RefractiveIndex(v)) && v@ == t,
        None => scalar_after(before.ior, dict_value(entries, "_ior".spec_bytes()), after.ior),
    }
    &&& scalar_after(before.att, dict_value(entries, "_att".spec_bytes()), after.att)
    &&& scalar_after(before.flux, dict_value(entries, "_flux".spec_bytes()), after.flux)
    &&& scalar_after(before.emit, dict_value(entries, "_emit".spec_bytes()), after.emit)
    &&& scalar_after(before.ldr, dict_value(entries, "_ldr".spec_bytes()), after.ldr)
    &&& scalar_after(before.trans, dict_value(entries, "_trans".spec_bytes()), after.trans)
    &&& scalar_after(before.alpha, dict_value(entries, "_alpha".spec_bytes()), after.alpha)
    &&& scalar_after(before.d, dict_value(entries, "_d".spec_bytes()), after.d)
    &&& scalar_after(before.sp, dict_value(entries, "_sp".spec_bytes()), after.sp)
    &&& scalar_after(before.g, dict_value(entries, "_g".spec_bytes()), after.g)
    &&& scalar_after(before.media, dict_value(entries, "_media".spec_bytes()), after.media)
}

/// A property set to its decimal text when there is one, else left as it was.
fn with_decimal(before: Option<ScalarText>, text: Option<&Vec<u8>>) -> (after: Option<ScalarText>)
    ensures
        scalar_after(before, opt_view(text), after),
{
    match text {
        Some(t) => Some(ScalarText::Decimal(to_vec(t.as_slice()))),
        None => before,
    }
}

/// Whether each decimal property of a `MATL` dictionary, when it is there, is
/// the text of a float.
pub open spec fn matl_floats_ok(entries: Seq<(Seq<u8>, Seq<u8>)>) -> bool {
    &&& optional_float(dict_value(entries, "_metal".spec_bytes()))
    &&& optional_float(dict_value(entries, "_rough".spec_bytes()))
    &&& optional_float(dict_value(entries, "_spec".spec_bytes()))
    &&& optional_float(dict_value(entries, "_ior".spec_bytes()))
    &&& optional_float(dict_value(entries, "_att".spec_bytes()))
    &&& optional_float(dict_value(entries, "_flux".spec_bytes()))
    &&& optional_float(dict_value(entries, "_emit".spec_bytes()))
    &&& optional_float(dict_value(entries, "_ldr".spec_bytes()))
    &&& optional_float(dict_value(entries, "_trans".spec_bytes()))
    &&& optional_float(dict_value(entries, "_alpha".spec_bytes()))
    &&& optional_float(dict_value(entries, "_d".spec_bytes()))
    &&& optional_float(dict_value(entries, "_sp".spec_bytes()))
    &&& optional_float(dict_value(entries, "_g".spec_bytes()))
    &&& optional_float(dict_value(entries, "_media".spec_bytes()))
    &&& optional_float(dict_value(entries, "_ri".spec_bytes()))
}

/// What reading this chunk does to the read state `s0`, giving `s1`, from the
/// payload `p`.
pub open spec fn matl_read(s0: ReadState, p: Seq<u8>, s1: ReadState, r: Result<(), VoxError>) -> bool {
    &&& kept(s0, s1, true, true, false, true, true, true, true, true, true, true, true)
    &&& (state_ok(s1))
    &&& (s1.temp_models == s0.temp_models)
    &&& (s1.nodes == s0.nodes)
    &&& (({
        let s = p;
        if s.len() < 4 {
            r == Err::<(), VoxError>(VoxError::UnexpectedEof)
        } else {
            match parse_dict(s.skip(4)) {
                None => r == Err::<(), VoxError>(VoxError::UnexpectedEof),
                Some((entries, n)) => if !matl_floats_ok(entries) {
                    r matches Err(VoxError::InvalidData(_))
                } else {
                    let id = low_byte(u32_at(s, 0)) as int;
                    &&& r is Ok
                    &&& s1.materials@ == s0.materials@.update(
                        id,
                        s1.materials@[id],
                    )
                    &&& matl_applied(s0.materials@[id], entries, s1.materials@[id])
                },
            }
        }
    }))
}

/// Reads a `MATL` chunk: a material id, of which the low byte counts, and a
/// dictionary of material properties.
pub fn read_matl_chunk(state: &mut ReadState, payload: &mut LimitedReader) -> (r: Result<(), VoxError>)
    requires
        state_ok(*old(state)),
        old(payload).wf(),
    ensures
        final(payload).wf(),
        matl_read(*old(state), old(payload).avail(), *final(state), r),
{
    let ghost s = payload.avail();
    let bits = match payload.read_u32() {
        Ok(v) => v,
        Err(e) => {
            return Err(e);
        },
    };
    let id = (bits % 256) as usize;
    let dict = match Dict::read(payload) {
        Ok(d) => d,
        Err(e) => {
            return Err(e);
        },
    };
    let floats_ok = check_float(dict.get("_metal".as_bytes())) && check_float(dict.get("_rough".as_bytes()))
        && check_float(dict.get("_spec".as_bytes())) && check_float(dict.get("_ior".as_bytes()))
        && check_float(dict.get("_att".as_bytes())) && check_float(dict.get("_flux".as_bytes()))
        && check_float(dict.get("_emit".as_bytes())) && check_float(dict.get("_ldr".as_bytes()))
        && check_float(dict.get("_trans".as_bytes())) && check_float(dict.get("_alpha".as_bytes()))
        && check_float(dict.get("_d".as_bytes())) && check_float(dict.get("_sp".as_bytes()))
        && check_float(dict.get("_g".as_bytes())) && check_float(dict.get("_media".as_bytes()))
        && check_float(dict.get("_ri".as_bytes()));
    if !floats_ok {
        return Err(VoxError::InvalidData("invalid float value".to_string()));
    }
    let before = state.materials.remove(id);
    let ior = match dict.get("_ri".as_bytes()) {
        Some(t) => Some(ScalarText::RefractiveIndex(to_vec(t.as_slice()))),
        None => with_decimal(before.ior, dict.get("_ior".as_bytes())),
    };
    let material = Material {
        material_type: parse_material_type(dict.get("_type".as_bytes())),
        media_type: parse_media_type(dict.get("_media_type".as_bytes())),
        metal: with_decimal(before.metal, dict.get("_metal".as_bytes())),
        rough: with_decimal(before.rough, dict.get("_rough".as_bytes())),
        spec: with_decimal(before.spec, dict.get("_spec".as_bytes())),
        ior,
        att: with_decimal(before.att, dict.get("_att".as_bytes())),
        flux: with_decimal(before.flux, dict.get("_flux".as_bytes())),
        emit: with_decimal(before.emit, dict.get("_emit".as_bytes())),
        ldr: with_decimal(before.ldr, dict.get("_ldr".as_bytes())),
        trans: with_decimal(before.trans, dict.get("_trans".as_bytes())),
        alpha: with_decimal(before.alpha, dict.get("_alpha".as_bytes())),
        d: with_decimal(before.d, dict.get("_d".as_bytes())),
        sp: with_decimal(before.sp, dict.get("_sp".as_bytes())),
        g: with_decimal(before.g, dict.get("_g".as_bytes())),
        media: with_decimal(before.media, dict.get("_media".as_bytes())),
    };
    state.materials.insert(id, material);
    assert(state.materials@ =~= old(state).materials@.update(id as int, state.materials@[id as int]));
    Ok(())
}

/// The material type that a legacy `MATT` chunk's type number names.
pub open spec fn matt_type(t: i32) -> MaterialType {
    if t == 1 {
        MaterialType::Metal
    } else if t == 2 {
        MaterialType::Glass
    } else if t == 3 {
        MaterialType::Emit
    } else {
        MaterialType::Diffuse
    }
}

/// What a `MATT` chunk with type number `t` and weight bits `w` makes of the
/// material `before`: the type, and the weight stored as the metal, transparency
/// or emission of a metal, glass or emissive material.
pub open spec fn matt_applied(before: Material, t: i32, w: u32, after: Material) -> bool {
    let ty = matt_type(t);
    after == Material {
        material_type: ty,
        metal: if ty == MaterialType::Metal {
            Some(ScalarText::Bits(w))
        } else {
            before.metal
        },
        trans: if ty == MaterialType::Glass {
            Some(ScalarText::Bits(w))
        } else {
            before.trans
        },
        emit: if ty == MaterialType::Emit {
            Some(ScalarText::Bits(w))
        } else {
            before.emit
        },
        ..before
    }
}

/// What reading this chunk does to the read state `s0`, giving `s1`, from the
/// payload `p`.
pub open spec fn matt_read(s0: ReadState, p: Seq<u8>, s1: ReadState, r: Result<(), VoxError>) -> bool {
    &&& kept(s0, s1, true, true, false, true, true, true, true, true, true, true, true)
    &&& (state_ok(s1))
    &&& (s1.temp_models == s0.temp_models)
    &&& (s1.nodes == s0.nodes)
    &&& (({
        let s = p;
        if s.len() < 16 {
            r == Err::<(), VoxError>(VoxError::UnexpectedEof)
        } else {
            let id = low_byte(u32_at(s, 0)) as int;
            &&& r is Ok
            &&& s1.materials@ == s0.materials@.update(id, s1.materials@[id])
            &&& matt_applied(
                s0.materials@[id],
                i32_from_bits(u32_at(s.skip(4), 0)),
                u32_at(s.skip(8), 0),
                s1.materials@[id],
            )
        }
    }))
}

/// Reads a legacy `MATT` chunk: a material id, of which the low byte counts, a
/// type number, the bits of a weight and a property word.
pub fn read_matt_chunk(state: &mut ReadState, payload: &mut LimitedReader) -> (r: Result<(), VoxError>)
    requires
        state_ok(*old(state)),
        old(payload).wf(),
    ensures
        final(payload).wf(),
        matt_read(*old(state), old(payload).avail(), *final(state), r),
{
    let ghost s = payload.avail();
    let bits = match payload.read_u32() {
        Ok(v) => v,
        Err(e) => {
            return Err(e);
        },
    };
    let material_type = match payload.read_i32() {
        Ok(v) => v,
        Err(e) => {
            return Err(e);
        },
    };
    let weight = match payload.read_u32() {
        Ok(v) => v,
        Err(e) => {
            return Err(e);
        },
    };
    let _property_bits = match payload.read_u32() {
        Ok(v) => v,
        Err(e) => {
            assert(s.len() < 16);
            return Err(e);
        },
    };
    proof {
        assert(s.skip(4).skip(4) =~= s.skip(8));
        assert(s.skip(8).skip(4) =~= s.skip(12));
    }
    let id = (bits % 256) as usize;
    let before = state.materials.remove(id);
    let ty = if material_type == 1 {
        MaterialType::Metal
    } else if material_type == 2 {
        MaterialType::Glass
    } else if material_type == 3 {
        MaterialType::Emit
    } else {
        MaterialType::Diffuse
    };
    let metal = if material_type == 1 {
        Some(ScalarText::Bits(weight))
    } else {
        before.metal
    };
    let trans = if material_type == 2 {
        Some(ScalarText::Bits(weight))
    } else {
        before.trans
    };
    let emit = if material_type == 3 {
        Some(ScalarText::Bits(weight))
    } else {
        before.emit
    };
    let material = Material {
        material_type: ty,
        media_type: before.media_type,
        metal,
        rough: before.rough,
        spec: before.spec,
        ior: before.ior,
        att: before.att,
        flux: before.flux,
        emit,
        ldr: before.ldr,
        trans,
        alpha: before.alpha,
        d: before.d,
        sp: before.sp,
        g: before.g,
        media: before.media,
    };
    state.materials.insert(id, material);
    assert(state.materials@ =~= old(state).materials@.update(id as int, state.materials@[id as int]));
    Ok(())
}

/// The field of view that the `_fov` text gives: zero when there is none, and
/// `None` when the text is not an `i32`.
pub open spec fn fov_from_text(text: Option<Seq<u8>>) -> Option<i32> {
    match text {
        None => Some(0),
        Some(t) => parse_i32_text(t),
    }
}

/// The camera that an `rCAM` chunk with id `id` and a dictionary of `entries`
/// describes, with the field of view `fov`.
pub open spec fn camera_from(id: u32, entries: Seq<(Seq<u8>, Seq<u8>)>, fov: i32, c: Camera) -> bool {
    &&& c.camera_id == id
    &&& c.mode == camera_mode_from_text(dict_value(entries, "_mode".spec_bytes()))
    &&& opt_text(c.focus) == dict_value(entries, "_focus".spec_bytes())
    &&& opt_text(c.angle) == dict_value(entries, "_angle".spec_bytes())
    &&& opt_text(c.radius) == dict_value(entries, "_radius".spec_bytes())
    &&& opt_text(c.frustum) == dict_value(entries, "_frustum".spec_bytes())
    &&& c.fov == fov
}

/// Whether the decimal settings of an `rCAM` dictionary, when they are there,
/// are texts of floats: `_focus` and `_angle` word by word.
pub open spec fn rcam_floats_ok(entries: Seq<(Seq<u8>, Seq<u8>)>) -> bool {
    &&& optional_floats(dict_value(entries, "_focus".spec_bytes()))
    &&& optional_floats(dict_value(entries, "_angle".spec_bytes()))
    &&& optional_float(dict_value(entries, "_radius".spec_bytes()))
    &&& optional_float(dict_value(entries, "_frustum".spec_bytes()))
}

/// What reading this chunk does to the read state `s0`, giving `s1`, from the
/// payload `p`.
pub open spec fn rcam_read(s0: ReadState, p: Seq<u8>, s1: ReadState, r: Result<(), VoxError>) -> bool {
    &&& kept(s0, s1, true, true, true, true, true, true, false, true, true, true, true)
    &&& (state_ok(s1))
    &&& (s1.temp_models == s0.temp_models)
    &&& (s1.nodes == s0.nodes)
    &&& (s1.materials == s0.materials)
    &&& (({
        let s = p;
        if s.len() < 4 {
            r == Err::<(), VoxError>(VoxError::UnexpectedEof)
        } else {
            match parse_dict(s.skip(4)) {
                None => r == Err::<(), VoxError>(VoxError::UnexpectedEof),
                Some((entries, n)) => match fov_from_text(dict_value(entries, "_fov".spec_bytes())) {
                    None => r matches Err(VoxError::InvalidData(_)),
                    Some(fov) => if !rcam_floats_ok(entries) {
                        r matches Err(VoxError::InvalidData(_))
                    } else {
                        &&& r is Ok
                        &&& s1.cameras@.len() == s0.cameras@.len() + 1
                        &&& s1.cameras@.drop_last() == s0.cameras@
                        &&& camera_from(u32_at(s, 0), entries, fov, s1.cameras@.last())
                    },
                },
            }
        }
    }))
}

/// Reads an `rCAM` chunk: a camera id and a dictionary of camera settings. The
/// camera is added to the list.
pub fn read_rcam_chunk(state: &mut ReadState, payload: &mut LimitedReader) -> (r: Result<(), VoxError>)
    requires
        state_ok(*old(state)),
        old(payload).wf(),
    ensures
        final(payload).wf(),
        rcam_read(*old(state), old(payload).avail(), *final(state), r),
{
    let camera_id = match payload.read_u32() {
        Ok(v) => v,
        Err(e) => {
            return Err(e);
        },
    };
    let dict = match Dict::read(payload) {
        Ok(d) => d,
        Err(e) => {
            return Err(e);
        },
    };
    let fov = match dict.get("_fov".as_bytes()) {
        None => 0,
        Some(text) => match parse_i32(text.as_slice()) {
            Some(v) => v,
            None => {
                return Err(VoxError::InvalidData("invalid fov value".to_string()));
            },
        },
    };
    let floats_ok = check_floats(dict.get("_focus".as_bytes())) && check_floats(dict.get("_angle".as_bytes()))
        && check_float(dict.get("_radius".as_bytes())) && check_float(dict.get("_frustum".as_bytes()));
    if !floats_ok {
        return Err(VoxError::InvalidData("invalid camera value".to_string()));
    }
    let camera = Camera {
        camera_id,
        mode: parse_camera_mode(dict.get("_mode".as_bytes())),
        focus: copy_text(dict.get("_focus".as_bytes())),
        angle: copy_text(dict.get("_angle".as_bytes())),
        radius: copy_text(dict.get("_radius".as_bytes())),
        frustum: copy_text(dict.get("_frustum".as_bytes())),
        fov,
    };
    state.cameras.push(camera);
    assert(state.cameras@.drop_last() =~= old(state).cameras@);
    Ok(())
}

/// The sun color that the `_k` text gives: white when there is none or it does
/// not hold three numbers, the low bytes of the three numbers when it does, and
/// `None` when a word of it is not a `u32`.
pub open spec fn sun_color_from_text(text: Option<Seq<u8>>) -> Option<Rgba> {
    let white = Rgba { r: 255, g: 255, b: 255, a: 255 };
    match text {
        None => Some(white),
        Some(t) => match parse_u32_words(words(t)) {
            None => None,
            Some(v) => if v.len() == 3 {
                Some(Rgba { r: low_byte(v[0]), g: low_byte(v[1]), b: low_byte(v[2]), a: 255 })
            } else {
                Some(white)
            },
        },
    }
}

/// The sun that an `rOBJ` dictionary of `entries` with the color `rgba`
/// describes.
pub open spec fn sun_from(entries: Seq<(Seq<u8>, Seq<u8>)>, rgba: Rgba, sun: Sun) -> bool {
    &&& opt_text(sun.intensity) == dict_value(entries, "_i".spec_bytes())
    &&& opt_text(sun.area) == dict_value(entries, "_area".spec_bytes())
    &&& opt_text(sun.angle) == dict_value(entries, "_angle".spec_bytes())
    &&& sun.rgba == rgba
    &&& sun.disk == (dict_value(entries, "_disk".spec_bytes()) == Some(seq![49u8]))
}

/// Whether the decimal settings of a sun's `rOBJ` dictionary, when they are
/// there, are texts of floats: `_angle` word by word.
pub open spec fn robj_floats_ok(entries: Seq<(Seq<u8>, Seq<u8>)>) -> bool {
    &&& optional_float(dict_value(entries, "_i".spec_bytes()))
    &&& optional_float(dict_value(entries, "_area".spec_bytes()))
    &&& optional_floats(dict_value(entries, "_angle".spec_bytes()))
}

/// What reading this chunk does to the read state `s0`, giving `s1`, from the
/// payload `p`.
pub open spec fn robj_read(s0: ReadState, p: Seq<u8>, s1: ReadState, r: Result<(), VoxError>) -> bool {
    &&& kept(s0, s1, true, true, true, true, true, true, true, true, true, false, true)
    &&& (state_ok(s1))
    &&& (s1.temp_models == s0.temp_models)
    &&& (s1.nodes == s0.nodes)
    &&& (s1.materials == s0.materials)
    &&& (match parse_dict(p) {
        None => r == Err::<(), VoxError>(VoxError::UnexpectedEof),
        Some((entries, n)) => if dict_value(entries, "_type".spec_bytes()) == Some(
            "_inf".spec_bytes(),
        ) {
            match sun_color_from_text(dict_value(entries, "_k".spec_bytes())) {
                None => r matches Err(VoxError::InvalidData(_)),
                Some(rgba) => if !robj_floats_ok(entries) {
                    r matches Err(VoxError::InvalidData(_))
                } else {
                    r is Ok && s1.sun is Some && sun_from(entries, rgba, s1.sun->Some_0)
                },
            }
        } else {
            r is Ok && s1.sun == s0.sun
        },
    })
}

/// Reads an `rOBJ` chunk: a dictionary of render settings. One whose `_type` is
/// `_inf` sets the sun; others are ignored.
pub fn read_robj_chunk(state: &mut ReadState, payload: &mut LimitedReader) -> (r: Result<(), VoxError>)
    requires
        state_ok(*old(state)),
        old(payload).wf(),
    ensures
        final(payload).wf(),
        robj_read(*old(state), old(payload).avail(), *final(state), r),
{
    let dict = match Dict::read(payload) {
        Ok(d) => d,
        Err(e) => {
            return Err(e);
        },
    };
    let is_sun = match dict.get("_type".as_bytes()) {
        Some(t) => crate::read::text_is(t.as_slice(), "_inf"),
        None => false,
    };
    if !is_sun {
        return Ok(());
    }
    let floats_ok = check_float(dict.get("_i".as_bytes())) && check_float(dict.get("_area".as_bytes()))
        && check_floats(dict.get("_angle".as_bytes()));
    if !floats_ok {
        return Err(VoxError::InvalidData("invalid sun value".to_string()));
    }
    let mut rgba = Rgba { r: 255, g: 255, b: 255, a: 255 };
    if let Some(text) = dict.get("_k".as_bytes()) {
        match parse_vec_u32(text.as_slice()) {
            Some(v) => {
                if v.len() == 3 {
                    rgba.r = (v[0] % 256) as u8;
                    rgba.g = (v[1] % 256) as u8;
                    rgba.b = (v[2] % 256) as u8;
                }
            },
            None => {
                return Err(VoxError::InvalidData("invalid sun color".to_string()));
            },
        }
    }
    let sun = Sun {
        intensity: copy_text(dict.get("_i".as_bytes())),
        area: copy_text(dict.get("_area".as_bytes())),
        angle: copy_text(dict.get("_angle".as_bytes())),
        rgba,
        disk: dict.get_bool("_disk".as_bytes(), false),
    };
    state.sun = Some(sun);
    Ok(())
}

} // verus!
