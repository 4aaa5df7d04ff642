use vstd::prelude::*;
use vstd::string::StringSliceAdditionalSpecFns;

use crate::bytes::{le_bytes, ByteWriter, CHUNK_HEADER_LEN};
use crate::dict::to_vec;
use crate::scene::{Camera, Material, ScalarText, Sun};
use crate::scene_writer::{
    flag_entry, indexed_concat, lemma_camera_keys, lemma_layer_keys, lemma_material_keys,
    lemma_meta_keys, lemma_sun_keys, name_fits, opt_entry, opt_name, string_bytes, text_or,
};
use crate::text::{decimal, signed_decimal};
use crate::types::{CameraMode, Layer, MaterialType, MediaType, Rgba, VoxError};
use crate::writer::{
    chunk_bytes, dict_bytes, entries_view, entry, i32_text, join2, join3, join_three, join_two,
    lemma_finish_chunk, lp, pairs_bytes, pairs_fit, u32_text, write_dict,
};

verus! {

/// Whether an optional stored text fits a `u32` length.
pub open spec fn text_fits(text: Option<Vec<u8>>) -> bool {
    match text {
        Some(t) => t@.len() <= u32::MAX,
        None => true,
    }
}

/// The text of an optional stored text, or the given default.
fn text_or_default(text: &Option<Vec<u8>>, default: &str) -> (t: Vec<u8>)
    ensures
        t@ == text_or(*text, default.spec_bytes()),
{
    match text {
        Some(v) => to_vec(v.as_slice()),
        None => to_vec(default.as_bytes()),
    }
}

/// The `_mode` text of a camera mode; an unknown mode is written as
/// perspective.
pub open spec fn mode_text(mode: CameraMode) -> Seq<u8> {
    match mode {
        CameraMode::Free => "free".spec_bytes(),
        CameraMode::Pano => "pano".spec_bytes(),
        CameraMode::Isometric => "iso".spec_bytes(),
        CameraMode::Orthographic => "orth".spec_bytes(),
        _ => "pers".spec_bytes(),
    }
}

/// The dictionary of a camera. Settings without text are written with the
/// format's defaults: zeros.
pub open spec fn camera_entries(c: Camera) -> Seq<(Seq<u8>, Seq<u8>)> {
    seq![
        ("_mode".spec_bytes(), mode_text(c.mode)),
        ("_focus".spec_bytes(), text_or(c.focus, "0.00000 0.00000 0.00000".spec_bytes())),
        ("_angle".spec_bytes(), text_or(c.angle, "0.00000 0.00000 0.00000".spec_bytes())),
        ("_radius".spec_bytes(), text_or(c.radius, "0.00000".spec_bytes())),
        ("_frustum".spec_bytes(), text_or(c.frustum, "0.00000".spec_bytes())),
        ("_fov".spec_bytes(), signed_decimal(c.fov as int)),
    ]
}

/// The content of a camera chunk.
pub open spec fn rcam_content(c: Camera) -> Seq<u8> {
    le_bytes(c.camera_id) + dict_bytes(camera_entries(c))
}

/// Whether a camera's stored texts fit a `u32` length.
pub open spec fn camera_writable(c: Camera) -> bool {
    text_fits(c.focus) && text_fits(c.angle) && text_fits(c.radius) && text_fits(c.frustum)
}

/// The lengths of the camera defaults.
proof fn lemma_camera_texts()
    ensures
        "0.00000 0.00000 0.00000".spec_bytes().len() <= 32,
        "0.00000".spec_bytes().len() <= 32,
        "free".spec_bytes().len() <= 32,
        "pano".spec_bytes().len() <= 32,
        "iso".spec_bytes().len() <= 32,
        "orth".spec_bytes().len() <= 32,
        "pers".spec_bytes().len() <= 32,
{
    reveal_strlit("0.00000 0.00000 0.00000");
    vstd::string::is_ascii_spec_bytes("0.00000 0.00000 0.00000");
    reveal_strlit("0.00000");
    vstd::string::is_ascii_spec_bytes("0.00000");
    reveal_strlit("free");
    vstd::string::is_ascii_spec_bytes("free");
    reveal_strlit("pano");
    vstd::string::is_ascii_spec_bytes("pano");
    reveal_strlit("iso");
    vstd::string::is_ascii_spec_bytes("iso");
    reveal_strlit("orth");
    vstd::string::is_ascii_spec_bytes("orth");
    reveal_strlit("pers");
    vstd::string::is_ascii_spec_bytes("pers");
}

/// Writes a camera chunk.
pub fn write_rcam(writer: &mut ByteWriter, c: &Camera) -> (r: Result<(), VoxError>)
    ensures
        old(writer).bytes().len() <= final(writer).bytes().len(),
        camera_writable(*c) && rcam_content(*c).len() <= u32::MAX ==> r is Ok && final(writer).bytes()
            == old(writer).bytes() + chunk_bytes(0x4d414372, rcam_content(*c)),
        r is Err ==> r->Err_0 is InvalidData || r->Err_0 is FileTooLarge,
{
    let ghost start = writer.bytes();
    let ghost content = rcam_content(*c);
    let mode: &str = match c.mode {
        CameraMode::Free => "free",
        CameraMode::Pano => "pano",
        CameraMode::Isometric => "iso",
        CameraMode::Orthographic => "orth",
        _ => "pers",
    };
    let mut entries: Vec<(Vec<u8>, Vec<u8>)> = Vec::new();
    entries.push(entry("_mode", to_vec(mode.as_bytes())));
    entries.push(entry("_focus", text_or_default(&c.focus, "0.00000 0.00000 0.00000")));
    entries.push(entry("_angle", text_or_default(&c.angle, "0.00000 0.00000 0.00000")));
    entries.push(entry("_radius", text_or_default(&c.radius, "0.00000")));
    entries.push(entry("_frustum", text_or_default(&c.frustum, "0.00000")));
    entries.push(entry("_fov", i32_text(c.fov)));
    proof {
        assert(entries_view(entries@) =~= camera_entries(*c));
        lemma_camera_keys();
        lemma_camera_texts();
        crate::text::lemma_short_decimals(0, c.fov);
        if camera_writable(*c) {
            let v = entries_view(entries@);
            assert forall|i: int| 0 <= i < v.len() implies (#[trigger] v[i]).0.len() <= u32::MAX && v[i].1.len()
                <= u32::MAX by {}
        }
    }
    let offset = writer.begin_chunk(0x4d414372);
    writer.write_u32(c.camera_id);
    match write_dict(writer, &entries) {
        Ok(()) => {},
        Err(e) => {
            return Err(e);
        },
    }
    proof {
        if camera_writable(*c) && content.len() <= u32::MAX {
            assert(writer.bytes() =~= start + le_bytes(0x4d414372) + le_bytes(0) + le_bytes(0) + content);
            lemma_finish_chunk(start, 0x4d414372, content);
        }
    }
    match writer.finish_chunk(offset) {
        Ok(()) => {},
        Err(e) => {
            return Err(e);
        },
    }
    Ok(())
}

/// The dictionary of the sun. Settings without text are written with the
/// format's defaults.
pub open spec fn sun_entries(s: Sun) -> Seq<(Seq<u8>, Seq<u8>)> {
    seq![
        ("_type".spec_bytes(), "_inf".spec_bytes()),
        ("_i".spec_bytes(), text_or(s.intensity, "0.70000".spec_bytes())),
        ("_area".spec_bytes(), text_or(s.area, "0.70000".spec_bytes())),
        ("_angle".spec_bytes(), text_or(s.angle, "50 50".spec_bytes())),
        ("_k".spec_bytes(), join3(decimal(s.rgba.r as nat), decimal(s.rgba.g as nat), decimal(s.rgba.b as nat))),
        ("_disk".spec_bytes(), if s.disk {
            seq![49u8]
        } else {
            seq![48u8]
        }),
    ]
}

/// Whether the sun's stored texts fit a `u32` length.
pub open spec fn sun_writable(s: Sun) -> bool {
    text_fits(s.intensity) && text_fits(s.area) && text_fits(s.angle)
}

/// The lengths of the sun defaults.
proof fn lemma_sun_texts()
    ensures
        "0.70000".spec_bytes().len() <= 32,
        "50 50".spec_bytes().len() <= 32,
{
    reveal_strlit("0.70000");
    vstd::string::is_ascii_spec_bytes("0.70000");
    reveal_strlit("50 50");
    vstd::string::is_ascii_spec_bytes("50 50");
}

/// Writes the sun chunk.
pub fn write_robj(writer: &mut ByteWriter, s: &Sun) -> (r: Result<(), VoxError>)
    ensures
        old(writer).bytes().len() <= final(writer).bytes().len(),
        sun_writable(*s) && dict_bytes(sun_entries(*s)).len() <= u32::MAX ==> r is Ok && final(writer).bytes()
            == old(writer).bytes() + chunk_bytes(0x4a424f72, dict_bytes(sun_entries(*s))),
        r is Err ==> r->Err_0 is InvalidData || r->Err_0 is FileTooLarge,
{
    let ghost start = writer.bytes();
    let ghost content = dict_bytes(sun_entries(*s));
    let mut entries: Vec<(Vec<u8>, Vec<u8>)> = Vec::new();
    entries.push(entry("_type", to_vec("_inf".as_bytes())));
    entries.push(entry("_i", text_or_default(&s.intensity, "0.70000")));
    entries.push(entry("_area", text_or_default(&s.area, "0.70000")));
    entries.push(entry("_angle", text_or_default(&s.angle, "50 50")));
    entries.push(
        entry(
            "_k",
            join_three(u32_text(s.rgba.r as u32), u32_text(s.rgba.g as u32), u32_text(s.rgba.b as u32)),
        ),
    );
    let disk: &str = if s.disk {
        "1"
    } else {
        "0"
    };
    entries.push(entry("_disk", to_vec(disk.as_bytes())));
    proof {
        lemma_sun_keys();
        lemma_sun_texts();
        assert(entries_view(entries@) =~= sun_entries(*s));
        crate::text::lemma_short_decimals(s.rgba.r as u32, 0);
        crate::text::lemma_short_decimals(s.rgba.g as u32, 0);
        crate::text::lemma_short_decimals(s.rgba.b as u32, 0);
        if sun_writable(*s) {
            let v = entries_view(entries@);
            assert forall|i: int| 0 <= i < v.len() implies (#[trigger] v[i]).0.len() <= u32::MAX && v[i].1.len()
                <= u32::MAX by {}
        }
    }
    let offset = writer.begin_chunk(0x4a424f72);
    match write_dict(writer, &entries) {
        Ok(()) => {},
        Err(e) => {
            return Err(e);
        },
    }
    proof {
        if sun_writable(*s) && content.len() <= u32::MAX {
            assert(writer.bytes() =~= start + le_bytes(0x4a424f72) + le_bytes(0) + le_bytes(0) + content);
            lemma_finish_chunk(start, 0x4a424f72, content);
        }
    }
    match writer.finish_chunk(offset) {
        Ok(()) => {},
        Err(e) => {
            return Err(e);
        },
    }
    Ok(())
}

/// The four bytes of a color.
pub open spec fn rgba_bytes(c: Rgba) -> Seq<u8> {
    seq![c.r, c.g, c.b, c.a]
}

/// The content of the palette chunk: entry `i + 1` of the palette in slot `i`,
/// wrapping around, so that the palette as stored is the scene palette moved
/// down by one.
pub open spec fn rgba_content(colors: Seq<Rgba>) -> Seq<u8> {
    indexed_concat(256, |i: int| rgba_bytes(colors[(i + 1) % 256]))
}

/// Pieces of four bytes make four bytes each.
proof fn lemma_four_byte_pieces(f: spec_fn(int) -> Seq<u8>, n: nat)
    requires
        forall|i: int| 0 <= i < n ==> (#[trigger] f(i)).len() == 4,
    ensures
        indexed_concat(n, f).len() == 4 * n,
    decreases n,
{
    if n > 0 {
        lemma_four_byte_pieces(f, (n - 1) as nat);
    }
}

/// Writes the palette chunk.
pub fn write_rgba(writer: &mut ByteWriter, colors: &[Rgba; 256])
    ensures
        final(writer).bytes() == old(writer).bytes() + chunk_bytes(0x41424752, rgba_content(colors@)),
{
    let ghost f = |i: int| rgba_bytes(colors@[(i + 1) % 256]);
    proof {
        lemma_four_byte_pieces(f, 256);
    }
    writer.write_u32(0x41424752);
    writer.write_u32(1024);
    writer.write_u32(0);
    let ghost head = writer.bytes();
    let mut i: usize = 0;
    while i < 256
        invariant
            i <= 256,
            f == (|i: int| rgba_bytes(colors@[(i + 1) % 256])),
            writer.bytes() == head + indexed_concat(i as nat, f),
        decreases 256 - i,
    {
        let c = colors[(i + 1) % 256];
        writer.write_u8(c.r);
        writer.write_u8(c.g);
        writer.write_u8(c.b);
        writer.write_u8(c.a);
        i += 1;
        assert(writer.bytes() =~= head + indexed_concat(i as nat, f));
    }
    assert(writer.bytes() =~= old(writer).bytes() + chunk_bytes(0x41424752, rgba_content(colors@)));
}

/// The content of the color name chunk.
pub open spec fn note_content(names: Seq<String>) -> Seq<u8> {
    le_bytes(names.len() as u32) + indexed_concat(names.len(), |i: int| lp(string_bytes(names[i])))
}

/// Whether every color name, and their number, fit a `u32`.
pub open spec fn names_writable(names: Seq<String>) -> bool {
    &&& names.len() <= u32::MAX
    &&& forall|i: int| 0 <= i < names.len() ==> string_bytes(#[trigger] names[i]).len() <= u32::MAX
}

/// Writes the color name chunk.
pub fn write_note(writer: &mut ByteWriter, names: &Vec<String>) -> (r: Result<(), VoxError>)
    ensures
        old(writer).bytes().len() <= final(writer).bytes().len(),
        names_writable(names@) && note_content(names@).len() <= u32::MAX ==> r is Ok && final(writer).bytes()
            == old(writer).bytes() + chunk_bytes(0x45544f4e, note_content(names@)),
        r is Err ==> r->Err_0 is InvalidData || r->Err_0 is FileTooLarge,
{
    let ghost start = writer.bytes();
    let ghost content = note_content(names@);
    let ghost ok = names_writable(names@) && content.len() <= u32::MAX;
    if names.len() > 0xffff_ffff {
        return Err(VoxError::InvalidData("value exceeds u32".to_string()));
    }
    let offset = writer.begin_chunk(0x45544f4e);
    writer.write_u32(names.len() as u32);
    let ghost f = |i: int| lp(string_bytes(names@[i]));
    let ghost head = writer.bytes();
    let mut i: usize = 0;
    while i < names.len()
        invariant
            i <= names@.len(),
            f == (|i: int| lp(string_bytes(names@[i]))),
            ok ==> names_writable(names@),
            ok ==> writer.bytes() == head + indexed_concat(i as nat, f),
            start == old(writer).bytes(),
            offset == start.len(),
            offset + CHUNK_HEADER_LEN <= writer.bytes().len(),
        decreases names@.len() - i,
    {
        match writer.write_string(names[i].as_str().as_bytes()) {
            Ok(()) => {},
            Err(e) => {
                return Err(e);
            },
        }
        i += 1;
    }
    proof {
        if ok {
            assert(writer.bytes() =~= start + le_bytes(0x45544f4e) + le_bytes(0) + le_bytes(0) + content);
            lemma_finish_chunk(start, 0x45544f4e, content);
        }
    }
    match writer.finish_chunk(offset) {
        Ok(()) => {},
        Err(e) => {
            return Err(e);
        },
    }
    Ok(())
}

/// The `_type` text of a material type.
pub open spec fn type_text(t: MaterialType) -> Seq<u8> {
    match t {
        MaterialType::Diffuse => "_diffuse".spec_bytes(),
        MaterialType::Metal => "_metal".spec_bytes(),
        MaterialType::Glass => "_glass".spec_bytes(),
        MaterialType::Emit => "_emit".spec_bytes(),
        MaterialType::Blend => "_blend".spec_bytes(),
        MaterialType::Media => "_media".spec_bytes(),
    }
}

/// The `_media_type` text of a media type.
pub open spec fn media_text(t: MediaType) -> Seq<u8> {
    match t {
        MediaType::Absorb => "_absorb".spec_bytes(),
        MediaType::Scatter => "_scatter".spec_bytes(),
        MediaType::Emit => "_emit".spec_bytes(),
        MediaType::Sss => "_sss".spec_bytes(),
    }
}

/// The entry of a scalar property: its decimal text under its key, a refractive
/// index under `_ri`, nothing when it is absent.
pub open spec fn scalar_entry(key: Seq<u8>, v: Option<ScalarText>) -> Seq<(Seq<u8>, Seq<u8>)> {
    match v {
        Some(ScalarText::Decimal(t)) => seq![(key, t@)],
        Some(ScalarText::RefractiveIndex(t)) => seq![("_ri".spec_bytes(), t@)],
        _ => Seq::empty(),
    }
}

/// Whether a material's type carries a media type.
pub open spec fn has_media(t: MaterialType) -> bool {
    t == MaterialType::Glass || t == MaterialType::Blend || t == MaterialType::Media
}

/// The entries of a material's type and, for types that carry one, its media
/// type.
pub open spec fn material_head(m: Material) -> Seq<(Seq<u8>, Seq<u8>)> {
    seq![("_type".spec_bytes(), type_text(m.material_type))] + if has_media(m.material_type) {
        seq![("_media_type".spec_bytes(), media_text(m.media_type))]
    } else {
        Seq::empty()
    }
}

/// The dictionary of a material: its type, its media type when the type carries
/// one, and each property it has, in a fixed order.
pub open spec fn material_entries(m: Material) -> Seq<(Seq<u8>, Seq<u8>)> {
    material_head(m) + scalar_entry("_metal".spec_bytes(), m.metal) + scalar_entry("_rough".spec_bytes(), m.rough)
        + scalar_entry("_spec".spec_bytes(), m.spec) + scalar_entry("_ior".spec_bytes(), m.ior) + scalar_entry(
        "_att".spec_bytes(),
        m.att,
    ) + scalar_entry("_flux".spec_bytes(), m.flux) + scalar_entry("_emit".spec_bytes(), m.emit)
        + scalar_entry("_ldr".spec_bytes(), m.ldr) + scalar_entry("_trans".spec_bytes(), m.trans)
        + scalar_entry("_alpha".spec_bytes(), m.alpha) + scalar_entry("_d".spec_bytes(), m.d) + scalar_entry(
        "_sp".spec_bytes(),
        m.sp,
    ) + scalar_entry("_g".spec_bytes(), m.g) + scalar_entry("_media".spec_bytes(), m.media)
}

/// Whether a scalar property is held as text that fits a `u32` length: the bits
/// of a legacy weight are not.
pub open spec fn scalar_writable(v: Option<ScalarText>) -> bool {
    match v {
        Some(ScalarText::Decimal(t)) => t@.len() <= u32::MAX,
        Some(ScalarText::RefractiveIndex(t)) => t@.len() <= u32::MAX,
        Some(ScalarText::Bits(_)) => false,
        None => true,
    }
}

/// Whether every property of a material is held as text that fits.
pub open spec fn material_writable(m: Material) -> bool {
    &&& scalar_writable(m.metal)
    &&& scalar_writable(m.rough)
    &&& scalar_writable(m.spec)
    &&& scalar_writable(m.ior)
    &&& scalar_writable(m.att)
    &&& scalar_writable(m.flux)
    &&& scalar_writable(m.emit)
    &&& scalar_writable(m.ldr)
    &&& scalar_writable(m.trans)
    &&& scalar_writable(m.alpha)
    &&& scalar_writable(m.d)
    &&& scalar_writable(m.sp)
    &&& scalar_writable(m.g)
    &&& scalar_writable(m.media)
}

/// The content of a material chunk.
pub open spec fn matl_content(index: u32, m: Material) -> Seq<u8> {
    le_bytes(index) + dict_bytes(material_entries(m))
}

/// Appends the entry of a scalar property. Fails on the bits of a legacy weight.
fn push_scalar(entries: &mut Vec<(Vec<u8>, Vec<u8>)>, key: &str, v: &Option<ScalarText>) -> (r: Result<(), VoxError>)
    ensures
        scalar_writable(*v) ==> r is Ok && entries_view(final(entries)@) == entries_view(old(entries)@) + scalar_entry(
            key.spec_bytes(),
            *v,
        ),
        r is Err ==> r->Err_0 is InvalidData,
{
    match v {
        Some(ScalarText::Decimal(t)) => {
            entries.push(entry(key, to_vec(t.as_slice())));
        },
        Some(ScalarText::RefractiveIndex(t)) => {
            entries.push(entry("_ri", to_vec(t.as_slice())));
        },
        Some(ScalarText::Bits(_)) => {
            return Err(VoxError::InvalidData("material weight is not held as text".to_string()));
        },
        None => {},
    }
    assert(scalar_writable(*v) ==> entries_view(entries@) =~= entries_view(old(entries)@) + scalar_entry(
        key.spec_bytes(),
        *v,
    ));
    Ok(())
}

/// The lengths of the material texts.
proof fn lemma_material_texts()
    ensures
        "_diffuse".spec_bytes().len() <= 32,
        "_glass".spec_bytes().len() <= 32,
        "_blend".spec_bytes().len() <= 32,
        "_absorb".spec_bytes().len() <= 32,
        "_scatter".spec_bytes().len() <= 32,
        "_sss".spec_bytes().len() <= 32,
{
    reveal_strlit("_diffuse");
    vstd::string::is_ascii_spec_bytes("_diffuse");
    reveal_strlit("_glass");
    vstd::string::is_ascii_spec_bytes("_glass");
    reveal_strlit("_blend");
    vstd::string::is_ascii_spec_bytes("_blend");
    reveal_strlit("_absorb");
    vstd::string::is_ascii_spec_bytes("_absorb");
    reveal_strlit("_scatter");
    vstd::string::is_ascii_spec_bytes("_scatter");
    reveal_strlit("_sss");
    vstd::string::is_ascii_spec_bytes("_sss");
}

/// Appends the entries of a material's first seven properties.
fn push_first(entries: &mut Vec<(Vec<u8>, Vec<u8>)>, m: &Material) -> (r: Result<(), VoxError>)
    ensures
        material_writable(*m) ==> r is Ok && entries_view(final(entries)@) == entries_view(old(entries)@)
            + scalar_entry("_metal".spec_bytes(), m.metal) + scalar_entry("_rough".spec_bytes(), m.rough)
            + scalar_entry("_spec".spec_bytes(), m.spec) + scalar_entry("_ior".spec_bytes(), m.ior)
            + scalar_entry("_att".spec_bytes(), m.att) + scalar_entry("_flux".spec_bytes(), m.flux)
            + scalar_entry("_emit".spec_bytes(), m.emit),
        r is Err ==> r->Err_0 is InvalidData,
{
    match push_scalar(entries, "_metal", &m.metal) {
        Ok(()) => {},
        Err(e) => {
            return Err(e);
        },
    }
    let ghost e0 = entries_view(entries@);
    match push_scalar(entries, "_rough", &m.rough) {
        Ok(()) => {},
        Err(e) => {
            return Err(e);
        },
    }
    let ghost e1 = entries_view(entries@);
    match push_scalar(entries, "_spec", &m.spec) {
        Ok(()) => {},
        Err(e) => {
            return Err(e);
        },
    }
    let ghost e2 = entries_view(entries@);
    match push_scalar(entries, "_ior", &m.ior) {
        Ok(()) => {},
        Err(e) => {
            return Err(e);
        },
    }
    let ghost e3 = entries_view(entries@);
    match push_scalar(entries, "_att", &m.att) {
        Ok(()) => {},
        Err(e) => {
            return Err(e);
        },
    }
    let ghost e4 = entries_view(entries@);
    match push_scalar(entries, "_flux", &m.flux) {
        Ok(()) => {},
        Err(e) => {
            return Err(e);
        },
    }
    let ghost e5 = entries_view(entries@);
    match push_scalar(entries, "_emit", &m.emit) {
        Ok(()) => {},
        Err(e) => {
            return Err(e);
        },
    }
    let ghost e6 = entries_view(entries@);
    Ok(())
}

/// Appends the entries of a material's last seven properties.
fn push_second(entries: &mut Vec<(Vec<u8>, Vec<u8>)>, m: &Material) -> (r: Result<(), VoxError>)
    ensures
        material_writable(*m) ==> r is Ok && entries_view(final(entries)@) == entries_view(old(entries)@)
            + scalar_entry("_ldr".spec_bytes(), m.ldr) + scalar_entry("_trans".spec_bytes(), m.trans)
            + scalar_entry("_alpha".spec_bytes(), m.alpha) + scalar_entry("_d".spec_bytes(), m.d)
            + scalar_entry("_sp".spec_bytes(), m.sp) + scalar_entry("_g".spec_bytes(), m.g)
            + scalar_entry("_media".spec_bytes(), m.media),
        r is Err ==> r->Err_0 is InvalidData,
{
    match push_scalar(entries, "_ldr", &m.ldr) {
        Ok(()) => {},
        Err(e) => {
            return Err(e);
        },
    }
    let ghost e0 = entries_view(entries@);
    match push_scalar(entries, "_trans", &m.trans) {
        Ok(()) => {},
        Err(e) => {
            return Err(e);
        },
    }
    let ghost e1 = entries_view(entries@);
    match push_scalar(entries, "_alpha", &m.alpha) {
        Ok(()) => {},
        Err(e) => {
            return Err(e);
        },
    }
    let ghost e2 = entries_view(entries@);
    match push_scalar(entries, "_d", &m.d) {
        Ok(()) => {},
        Err(e) => {
            return Err(e);
        },
    }
    let ghost e3 = entries_view(entries@);
    match push_scalar(entries, "_sp", &m.sp) {
        Ok(()) => {},
        Err(e) => {
            return Err(e);
        },
    }
    let ghost e4 = entries_view(entries@);
    match push_scalar(entries, "_g", &m.g) {
        Ok(()) => {},
        Err(e) => {
            return Err(e);
        },
    }
    let ghost e5 = entries_view(entries@);
    match push_scalar(entries, "_media", &m.media) {
        Ok(()) => {},
        Err(e) => {
            return Err(e);
        },
    }
    let ghost e6 = entries_view(entries@);
    Ok(())
}

/// Two dictionaries whose texts fit make one whose texts fit, when their pair
/// counts add up within a `u32`.
proof fn lemma_pairs_fit_concat(a: Seq<(Seq<u8>, Seq<u8>)>, b: Seq<(Seq<u8>, Seq<u8>)>)
    requires
        pairs_fit(a),
        pairs_fit(b),
        a.len() + b.len() <= u32::MAX,
    ensures
        pairs_fit(a + b),
{
    let c = a + b;
    assert forall|i: int| 0 <= i < c.len() implies (#[trigger] c[i]).0.len() <= u32::MAX && c[i].1.len()
        <= u32::MAX by {
        if i < a.len() {
            assert(c[i] == a[i]);
        } else {
            assert(c[i] == b[i - a.len()]);
        }
    }
}

/// The entry of a property held as text fits, when its key does.
proof fn lemma_scalar_entry_fits(key: Seq<u8>, v: Option<ScalarText>)
    requires
        key.len() <= 16,
        scalar_writable(v),
    ensures
        pairs_fit(scalar_entry(key, v)),
        scalar_entry(key, v).len() <= 1,
{
    lemma_material_keys();
}

/// The texts of a material held as text fit.
proof fn lemma_material_entries_fit(m: Material)
    requires
        material_writable(m),
    ensures
        pairs_fit(material_entries(m)),
{
    lemma_material_keys();
    lemma_material_texts();
    let h = material_head(m);
    assert forall|i: int| 0 <= i < h.len() implies (#[trigger] h[i]).0.len() <= u32::MAX && h[i].1.len()
        <= u32::MAX by {}
    let s1 = scalar_entry("_metal".spec_bytes(), m.metal);
    let s2 = scalar_entry("_rough".spec_bytes(), m.rough);
    let s3 = scalar_entry("_spec".spec_bytes(), m.spec);
    let s4 = scalar_entry("_ior".spec_bytes(), m.ior);
    let s5 = scalar_entry("_att".spec_bytes(), m.att);
    let s6 = scalar_entry("_flux".spec_bytes(), m.flux);
    let s7 = scalar_entry("_emit".spec_bytes(), m.emit);
    let s8 = scalar_entry("_ldr".spec_bytes(), m.ldr);
    let s9 = scalar_entry("_trans".spec_bytes(), m.trans);
    let s10 = scalar_entry("_alpha".spec_bytes(), m.alpha);
    let s11 = scalar_entry("_d".spec_bytes(), m.d);
    let s12 = scalar_entry("_sp".spec_bytes(), m.sp);
    let s13 = scalar_entry("_g".spec_bytes(), m.g);
    let s14 = scalar_entry("_media".spec_bytes(), m.media);
    lemma_scalar_entry_fits("_metal".spec_bytes(), m.metal);
    lemma_scalar_entry_fits("_rough".spec_bytes(), m.rough);
    lemma_scalar_entry_fits("_spec".spec_bytes(), m.spec);
    lemma_scalar_entry_fits("_ior".spec_bytes(), m.ior);
    lemma_scalar_entry_fits("_att".spec_bytes(), m.att);
    lemma_scalar_entry_fits("_flux".spec_bytes(), m.flux);
    lemma_scalar_entry_fits("_emit".spec_bytes(), m.emit);
    lemma_scalar_entry_fits("_ldr".spec_bytes(), m.ldr);
    lemma_scalar_entry_fits("_trans".spec_bytes(), m.trans);
    lemma_scalar_entry_fits("_alpha".spec_bytes(), m.alpha);
    lemma_scalar_entry_fits("_d".spec_bytes(), m.d);
    lemma_scalar_entry_fits("_sp".spec_bytes(), m.sp);
    lemma_scalar_entry_fits("_g".spec_bytes(), m.g);
    lemma_scalar_entry_fits("_media".spec_bytes(), m.media);
    lemma_pairs_fit_concat(h, s1);
    lemma_pairs_fit_concat(h + s1, s2);
    lemma_pairs_fit_concat(h + s1 + s2, s3);
    lemma_pairs_fit_concat(h + s1 + s2 + s3, s4);
    lemma_pairs_fit_concat(h + s1 + s2 + s3 + s4, s5);
    lemma_pairs_fit_concat(h + s1 + s2 + s3 + s4 + s5, s6);
    lemma_pairs_fit_concat(h + s1 + s2 + s3 + s4 + s5 + s6, s7);
    lemma_pairs_fit_concat(h + s1 + s2 + s3 + s4 + s5 + s6 + s7, s8);
    lemma_pairs_fit_concat(h + s1 + s2 + s3 + s4 + s5 + s6 + s7 + s8, s9);
    lemma_pairs_fit_concat(h + s1 + s2 + s3 + s4 + s5 + s6 + s7 + s8 + s9, s10);
    lemma_pairs_fit_concat(h + s1 + s2 + s3 + s4 + s5 + s6 + s7 + s8 + s9 + s10, s11);
    lemma_pairs_fit_concat(h + s1 + s2 + s3 + s4 + s5 + s6 + s7 + s8 + s9 + s10 + s11, s12);
    lemma_pairs_fit_concat(h + s1 + s2 + s3 + s4 + s5 + s6 + s7 + s8 + s9 + s10 + s11 + s12, s13);
    lemma_pairs_fit_concat(h + s1 + s2 + s3 + s4 + s5 + s6 + s7 + s8 + s9 + s10 + s11 + s12 + s13, s14);
}

/// The dictionary entries of a material.
fn material_dict(m: &Material) -> (r: Result<Vec<(Vec<u8>, Vec<u8>)>, VoxError>)
    ensures
        material_writable(*m) ==> r is Ok && entries_view(r->Ok_0@) == material_entries(*m) && pairs_fit(
            material_entries(*m),
        ),
        r is Err ==> r->Err_0 is InvalidData,
{
    let kind_label: &str = match m.material_type {
        MaterialType::Diffuse => "_diffuse",
        MaterialType::Metal => "_metal",
        MaterialType::Glass => "_glass",
        MaterialType::Emit => "_emit",
        MaterialType::Blend => "_blend",
        MaterialType::Media => "_media",
    };
    let mut entries: Vec<(Vec<u8>, Vec<u8>)> = Vec::new();
    entries.push(entry("_type", to_vec(kind_label.as_bytes())));
    match m.material_type {
        MaterialType::Glass | MaterialType::Blend | MaterialType::Media => {
            let media: &str = match m.media_type {
                MediaType::Absorb => "_absorb",
                MediaType::Scatter => "_scatter",
                MediaType::Emit => "_emit",
                MediaType::Sss => "_sss",
            };
            entries.push(entry("_media_type", to_vec(media.as_bytes())));
        },
        _ => {},
    }
    assert(entries_view(entries@) =~= material_head(*m));
    match push_first(&mut entries, m) {
        Ok(()) => {},
        Err(e) => {
            return Err(e);
        },
    }
    match push_second(&mut entries, m) {
        Ok(()) => {},
        Err(e) => {
            return Err(e);
        },
    }
    proof {
        if material_writable(*m) {
            lemma_material_entries_fit(*m);
        }
    }
    Ok(entries)
}

/// Writes a material chunk.
pub fn write_matl(writer: &mut ByteWriter, index: u32, m: &Material) -> (r: Result<(), VoxError>)
    ensures
        old(writer).bytes().len() <= final(writer).bytes().len(),
        material_writable(*m) && matl_content(index, *m).len() <= u32::MAX ==> r is Ok && final(writer).bytes()
            == old(writer).bytes() + chunk_bytes(0x4c54414d, matl_content(index, *m)),
        r is Err ==> r->Err_0 is InvalidData || r->Err_0 is FileTooLarge,
{
    let ghost start = writer.bytes();
    let ghost content = matl_content(index, *m);
    let entries = match material_dict(m) {
        Ok(e) => e,
        Err(e) => {
            return Err(e);
        },
    };
    let offset = writer.begin_chunk(0x4c54414d);
    writer.write_u32(index);
    match write_dict(writer, &entries) {
        Ok(()) => {},
        Err(e) => {
            return Err(e);
        },
    }
    proof {
        if material_writable(*m) && content.len() <= u32::MAX {
            assert(writer.bytes() =~= start + le_bytes(0x4c54414d) + le_bytes(0) + le_bytes(0) + content);
            lemma_finish_chunk(start, 0x4c54414d, content);
        }
    }
    match writer.finish_chunk(offset) {
        Ok(()) => {},
        Err(e) => {
            return Err(e);
        },
    }
    Ok(())
}

/// The dictionary of a layer: its name, hidden flag and color.
pub open spec fn layer_entries(l: Layer) -> Seq<(Seq<u8>, Seq<u8>)> {
    opt_entry("_name".spec_bytes(), opt_name(l.name)) + flag_entry("_hidden".spec_bytes(), l.hidden) + seq![
        ("_color".spec_bytes(), join3(decimal(l.color.r as nat), decimal(l.color.g as nat), decimal(l.color.b as nat))),
    ]
}

/// The content of a layer chunk.
pub open spec fn layr_content(index: u32, l: Layer) -> Seq<u8> {
    le_bytes(index) + dict_bytes(layer_entries(l)) + le_bytes(0xffff_ffff)
}

/// Writes a layer chunk.
pub fn write_layr(writer: &mut ByteWriter, index: u32, l: &Layer) -> (r: Result<(), VoxError>)
    ensures
        old(writer).bytes().len() <= final(writer).bytes().len(),
        name_fits(l.name) && layr_content(index, *l).len() <= u32::MAX ==> r is Ok && final(writer).bytes()
            == old(writer).bytes() + chunk_bytes(0x5259414c, layr_content(index, *l)),
        r is Err ==> r->Err_0 is InvalidData || r->Err_0 is FileTooLarge,
{
    let ghost start = writer.bytes();
    let ghost content = layr_content(index, *l);
    let mut entries: Vec<(Vec<u8>, Vec<u8>)> = Vec::new();
    match &l.name {
        Some(s) => {
            let text = to_vec(s.as_str().as_bytes());
            assert(text@ == string_bytes(*s));
            entries.push(entry("_name", text));
        },
        None => {},
    }
    assert(entries_view(entries@) =~= opt_entry("_name".spec_bytes(), opt_name(l.name)));
    let ghost e1 = entries_view(entries@);
    if l.hidden {
        entries.push(entry("_hidden", to_vec("1".as_bytes())));
    }
    proof {
        lemma_layer_keys();
    }
    assert(entries_view(entries@) =~= e1 + flag_entry("_hidden".spec_bytes(), l.hidden));
    entries.push(
        entry(
            "_color",
            join_three(u32_text(l.color.r as u32), u32_text(l.color.g as u32), u32_text(l.color.b as u32)),
        ),
    );
    proof {
        assert(entries_view(entries@) =~= layer_entries(*l));
        crate::text::lemma_short_decimals(l.color.r as u32, 0);
        crate::text::lemma_short_decimals(l.color.g as u32, 0);
        crate::text::lemma_short_decimals(l.color.b as u32, 0);
        if name_fits(l.name) {
            let v = entries_view(entries@);
            assert forall|i: int| 0 <= i < v.len() implies (#[trigger] v[i]).0.len() <= u32::MAX && v[i].1.len()
                <= u32::MAX by {}
        }
    }
    let offset = writer.begin_chunk(0x5259414c);
    writer.write_u32(index);
    match write_dict(writer, &entries) {
        Ok(()) => {},
        Err(e) => {
            return Err(e);
        },
    }
    writer.write_u32(0xffff_ffff);
    proof {
        if name_fits(l.name) && content.len() <= u32::MAX {
            assert(writer.bytes() =~= start + le_bytes(0x5259414c) + le_bytes(0) + le_bytes(0) + content);
            lemma_finish_chunk(start, 0x5259414c, content);
        }
    }
    match writer.finish_chunk(offset) {
        Ok(()) => {},
        Err(e) => {
            return Err(e);
        },
    }
    Ok(())
}

/// The content of the metadata chunk: the animation range.
pub open spec fn meta_content(start: u32, end: u32) -> Seq<u8> {
    dict_bytes(seq![("_anim_range".spec_bytes(), join2(decimal(start as nat), decimal(end as nat)))])
}

/// Writes the metadata chunk.
pub fn write_meta(writer: &mut ByteWriter, first: u32, last: u32) -> (r: Result<(), VoxError>)
    ensures
        r is Ok,
        final(writer).bytes() == old(writer).bytes() + chunk_bytes(0x4154454d, meta_content(first, last)),
{
    let ghost start = writer.bytes();
    let mut entries: Vec<(Vec<u8>, Vec<u8>)> = Vec::new();
    entries.push(entry("_anim_range", join_two(u32_text(first), u32_text(last))));
    proof {
        lemma_meta_keys();
        crate::text::lemma_short_decimals(first, 0);
        crate::text::lemma_short_decimals(last, 0);
        assert(entries_view(entries@) =~= seq![("_anim_range".spec_bytes(), join2(decimal(first as nat), decimal(last as nat)))]);
        let v = entries_view(entries@);
        assert forall|i: int| 0 <= i < v.len() implies (#[trigger] v[i]).0.len() <= u32::MAX && v[i].1.len()
            <= u32::MAX by {}
    }
    let offset = writer.begin_chunk(0x4154454d);
    let r = write_dict(writer, &entries);
    let ghost content = meta_content(first, last);
    proof {
        assert(writer.bytes() =~= start + le_bytes(0x4154454d) + le_bytes(0) + le_bytes(0) + content);
        let pairs = seq![("_anim_range".spec_bytes(), join2(decimal(first as nat), decimal(last as nat)))];
        assert(pairs.drop_last() =~= Seq::<(Seq<u8>, Seq<u8>)>::empty());
        assert(pairs_bytes(pairs.drop_last()) == Seq::<u8>::empty());
        assert(pairs_bytes(pairs) == pairs_bytes(pairs.drop_last()) + lp(pairs.last().0) + lp(pairs.last().1));
        assert(content.len() <= 4 + 4 + 16 + 4 + 21);
        lemma_finish_chunk(start, 0x4154454d, content);
    }
    match writer.finish_chunk(offset) {
        Ok(()) => Ok(()),
        Err(e) => Err(e),
    }
}

} // verus!
