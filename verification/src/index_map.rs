use vstd::prelude::*;

use crate::dict::to_vec;
use crate::scene::{Material, ScalarText};
use crate::types::{Model, Rgba};

verus! {

/// Whether two optional scalar properties hold the same text or bits.
pub open spec fn same_scalar(a: Option<ScalarText>, b: Option<ScalarText>) -> bool {
    match (a, b) {
        (None, None) => true,
        (Some(ScalarText::Decimal(x)), Some(ScalarText::Decimal(y))) => x@ == y@,
        (Some(ScalarText::RefractiveIndex(x)), Some(ScalarText::RefractiveIndex(y))) => x@ == y@,
        (Some(ScalarText::Bits(x)), Some(ScalarText::Bits(y))) => x == y,
        _ => false,
    }
}

/// Whether two materials have the same type, media type and properties.
pub open spec fn same_material(a: Material, b: Material) -> bool {
    &&& a.material_type == b.material_type
    &&& a.media_type == b.media_type
    &&& same_scalar(a.metal, b.metal)
    &&& same_scalar(a.rough, b.rough)
    &&& same_scalar(a.spec, b.spec)
    &&& same_scalar(a.ior, b.ior)
    &&& same_scalar(a.att, b.att)
    &&& same_scalar(a.flux, b.flux)
    &&& same_scalar(a.emit, b.emit)
    &&& same_scalar(a.ldr, b.ldr)
    &&& same_scalar(a.trans, b.trans)
    &&& same_scalar(a.alpha, b.alpha)
    &&& same_scalar(a.d, b.d)
    &&& same_scalar(a.sp, b.sp)
    &&& same_scalar(a.g, b.g)
    &&& same_scalar(a.media, b.media)
}

/// A copy of an optional scalar property.
pub fn copy_scalar(s: &Option<ScalarText>) -> (c: Option<ScalarText>)
    ensures
        same_scalar(c, *s),
{
    match s {
        None => None,
        Some(ScalarText::Decimal(x)) => Some(ScalarText::Decimal(to_vec(x.as_slice()))),
        Some(ScalarText::RefractiveIndex(x)) => Some(ScalarText::RefractiveIndex(to_vec(x.as_slice()))),
        Some(ScalarText::Bits(x)) => Some(ScalarText::Bits(*x)),
    }
}

/// A copy of a material.
pub fn copy_material(m: &Material) -> (c: Material)
    ensures
        same_material(c, *m),
{
    Material {
        material_type: m.material_type,
        media_type: m.media_type,
        metal: copy_scalar(&m.metal),
        rough: copy_scalar(&m.rough),
        spec: copy_scalar(&m.spec),
        ior: copy_scalar(&m.ior),
        att: copy_scalar(&m.att),
        flux: copy_scalar(&m.flux),
        emit: copy_scalar(&m.emit),
        ldr: copy_scalar(&m.ldr),
        trans: copy_scalar(&m.trans),
        alpha: copy_scalar(&m.alpha),
        d: copy_scalar(&m.d),
        sp: copy_scalar(&m.sp),
        g: copy_scalar(&m.g),
        media: copy_scalar(&m.media),
    }
}

/// The last slot `d` below `n` whose map entry is `v`, or `0` when there is none.
pub open spec fn inverse_upto(map: Seq<u8>, v: u8, n: int) -> u8
    decreases n,
{
    if n <= 0 {
        0
    } else if map[n - 1] == v {
        (n - 1) as u8
    } else {
        inverse_upto(map, v, n - 1)
    }
}

/// The display slot of stored palette entry `v` under the index map: the last
/// slot that names it, or `0`.
pub open spec fn inverse_entry(map: Seq<u8>, v: u8) -> u8 {
    inverse_upto(map, v, 256)
}

/// The stored palette entry shown in slot `i`: one below what the map names,
/// wrapping around.
pub open spec fn color_source(map: Seq<u8>, i: int) -> int {
    (map[i] as int + 255) % 256
}

/// The stored material shown in slot `i`: what the map names for the slot below
/// `i`, wrapping around.
pub open spec fn material_source(map: Seq<u8>, i: int) -> int {
    map[(i + 255) % 256] as int
}

/// A voxel's color index after the index map: one above the display slot of its
/// stored entry, wrapping around.
pub open spec fn remapped_voxel(map: Seq<u8>, v: u8) -> u8 {
    ((inverse_entry(map, v) as int + 1) % 256) as u8
}

/// For each stored palette entry, its display slot.
fn inverse_table(map: &[u8; 256]) -> (inverse: [u8; 256])
    ensures
        forall|v: int| 0 <= v < 256 ==> #[trigger] inverse@[v] == inverse_entry(map@, v as u8),
{
    let mut inverse = [0u8; 256];
    let mut d: usize = 0;
    while d < 256
        invariant
            d <= 256,
            forall|v: int| 0 <= v < 256 ==> #[trigger] inverse@[v] == inverse_upto(map@, v as u8, d as int),
        decreases 256 - d,
    {
        let actual = map[d];
        inverse[actual as usize] = d as u8;
        d += 1;
        assert forall|v: int| 0 <= v < 256 implies #[trigger] inverse@[v] == inverse_upto(map@, v as u8, d as int) by {
            if v == actual as int {
                assert(map@[d - 1] == v as u8);
            }
        }
    }
    inverse
}

/// Applies the palette index map of an `IMAP` chunk: each palette slot shows the
/// stored color one below what the map names, each material slot the stored
/// material that the map names for the slot below, and each voxel one above the
/// display slot of its stored entry.
pub fn apply_index_map(
    colors: &mut [Rgba; 256],
    materials: &mut Vec<Material>,
    models: &mut Vec<Option<Model>>,
    map: &[u8; 256],
)
    requires
        old(materials)@.len() == 256,
    ensures
        forall|i: int| 0 <= i < 256 ==> #[trigger] final(colors)@[i] == old(colors)@[color_source(map@, i)],
        final(materials)@.len() == 256,
        forall|i: int|
            0 <= i < 256 ==> same_material(
                #[trigger] final(materials)@[i],
                old(materials)@[material_source(map@, i)],
            ),
        final(models)@.len() == old(models)@.len(),
        forall|j: int|
            0 <= j < old(models)@.len() ==> match (#[trigger] old(models)@[j], final(models)@[j]) {
                (None, None) => true,
                (Some(a), Some(b)) => b.size_x == a.size_x && b.size_y == a.size_y && b.size_z == a.size_z
                    && b.voxels@ == a.voxels@.map_values(|v: u8| remapped_voxel(map@, v)),
                _ => false,
            },
{
    let inverse = inverse_table(map);
    let old_colors = *colors;
    let mut i: usize = 0;
    while i < 256
        invariant
            i <= 256,
            old_colors@ == old(colors)@,
            forall|k: int| 0 <= k < i ==> #[trigger] colors@[k] == old_colors@[color_source(map@, k)],
        decreases 256 - i,
    {
        let source = ((map[i] as usize) + 255) % 256;
        colors[i] = old_colors[source];
        i += 1;
    }
    let mut remapped: Vec<Material> = Vec::new();
    let mut i: usize = 0;
    while i < 256
        invariant
            i <= 256,
            materials@ == old(materials)@,
            materials@.len() == 256,
            remapped@.len() == i,
            forall|k: int|
                0 <= k < i ==> same_material(#[trigger] remapped@[k], old(materials)@[material_source(map@, k)]),
        decreases 256 - i,
    {
        let source = map[(i + 255) % 256] as usize;
        remapped.push(copy_material(&materials[source]));
        i += 1;
    }
    *materials = remapped;
    let mut j: usize = 0;
    while j < models.len()
        invariant
            j <= models@.len(),
            models@.len() == old(models)@.len(),
            forall|v: int| 0 <= v < 256 ==> #[trigger] inverse@[v] == inverse_entry(map@, v as u8),
            forall|k: int|
                0 <= k < j ==> match (#[trigger] old(models)@[k], models@[k]) {
                    (None, None) => true,
                    (Some(a), Some(b)) => b.size_x == a.size_x && b.size_y == a.size_y && b.size_z == a.size_z
                        && b.voxels@ == a.voxels@.map_values(|v: u8| remapped_voxel(map@, v)),
                    _ => false,
                },
            forall|k: int| j <= k < models@.len() ==> #[trigger] models@[k] == old(models)@[k],
        decreases models@.len() - j,
    {
        let mut slot: Option<Model> = None;
        models.set_and_swap(j, &mut slot);
        let updated = match slot {
            None => None,
            Some(model) => {
                let mut voxels = model.voxels;
                let ghost before = voxels@;
                let mut k: usize = 0;
                while k < voxels.len()
                    invariant
                        k <= voxels@.len(),
                        voxels@.len() == before.len(),
                        forall|v: int| 0 <= v < 256 ==> #[trigger] inverse@[v] == inverse_entry(map@, v as u8),
                        forall|x: int| 0 <= x < k ==> #[trigger] voxels@[x] == remapped_voxel(map@, before[x]),
                        forall|x: int| k <= x < voxels@.len() ==> #[trigger] voxels@[x] == before[x],
                    decreases voxels@.len() - k,
                {
                    let v = voxels[k];
                    voxels.set(k, 1u8.wrapping_add(inverse[v as usize]));
                    k += 1;
                }
                assert(voxels@ =~= before.map_values(|v: u8| remapped_voxel(map@, v)));
                Some(Model { size_x: model.size_x, size_y: model.size_y, size_z: model.size_z, voxels })
            },
        };
        models.set(j, updated);
        j += 1;
    }
}

} // verus!
