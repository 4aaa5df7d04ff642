use vstd::prelude::*;

use crate::index_map::{copy_material, same_material};
use crate::scene::{Material, Scene};
use crate::types::{Model, Rgba};

verus! {

/// Whether two colors have the same red, green and blue.
pub open spec fn same_rgb(a: Rgba, b: Rgba) -> bool {
    a.r == b.r && a.g == b.g && a.b == b.b
}

/// The first slot from `k` up to `count` whose color has the same red, green and
/// blue as `color`.
pub open spec fn exact_from(palette: Seq<Rgba>, count: int, color: Rgba, k: int) -> Option<int>
    decreases count - k,
{
    if k >= count {
        None
    } else if same_rgb(palette[k], color) {
        Some(k)
    } else {
        exact_from(palette, count, color, k + 1)
    }
}

/// A slot found from `k` on lies between `k` and `count`.
proof fn lemma_exact_from_range(palette: Seq<Rgba>, count: int, color: Rgba, k: int)
    ensures
        exact_from(palette, count, color, k) matches Some(i) ==> k <= i < count,
    decreases count - k,
{
    if k < count && !same_rgb(palette[k], color) {
        lemma_exact_from_range(palette, count, color, k + 1);
    }
}

/// Finds the first palette slot after slot `0` and below `palette_count` with
/// the red, green and blue of `color`.
pub fn find_exact_color_in_palette(palette: &[Rgba; 256], palette_count: usize, color: Rgba) -> (r: Option<usize>)
    requires
        palette_count <= 256,
    ensures
        r == match exact_from(palette@, palette_count as int, color, 1) {
            Some(i) => Some(i as usize),
            None => None::<usize>,
        },
        r matches Some(i) ==> 1 <= i < palette_count && exact_from(palette@, palette_count as int, color, 1)
            == Some(i as int),
{
    proof {
        lemma_exact_from_range(palette@, palette_count as int, color, 1);
    }
    let mut index: usize = 1;
    while index < palette_count
        invariant
            1 <= index,
            palette_count <= 256,
            index <= palette_count || palette_count < 1,
            exact_from(palette@, palette_count as int, color, 1) == exact_from(
                palette@,
                palette_count as int,
                color,
                index as int,
            ),
        decreases palette_count - index,
    {
        let candidate = palette[index];
        if candidate.r == color.r && candidate.g == color.g && candidate.b == color.b {
            return Some(index);
        }
        index += 1;
    }
    None
}

/// The squared distance between the red, green and blue of two colors.
pub open spec fn color_distance(a: Rgba, b: Rgba) -> int {
    (a.r - b.r) * (a.r - b.r) + (a.g - b.g) * (a.g - b.g) + (a.b - b.b) * (a.b - b.b)
}

/// The slot among `1..k` whose color is nearest to `color`, the first of equals;
/// slot `1` when there is none.
pub open spec fn closest_below(palette: Seq<Rgba>, color: Rgba, k: int) -> int
    decreases k,
{
    if k <= 2 {
        1
    } else {
        let best = closest_below(palette, color, k - 1);
        if color_distance(color, palette[k - 1]) < color_distance(color, palette[best]) {
            k - 1
        } else {
            best
        }
    }
}

/// The squared distance of one channel fits an `i32` sum.
proof fn lemma_distance_bound(a: Rgba, b: Rgba)
    ensures
        0 <= color_distance(a, b) <= 3 * 255 * 255,
{
    assert(0 <= (a.r - b.r) * (a.r - b.r) <= 255 * 255) by (nonlinear_arith)
        requires
            -255 <= a.r - b.r <= 255,
    ;
    assert(0 <= (a.g - b.g) * (a.g - b.g) <= 255 * 255) by (nonlinear_arith)
        requires
            -255 <= a.g - b.g <= 255,
    ;
    assert(0 <= (a.b - b.b) * (a.b - b.b) <= 255 * 255) by (nonlinear_arith)
        requires
            -255 <= a.b - b.b <= 255,
    ;
}

/// The squared distance between the red, green and blue of two colors.
fn distance(a: Rgba, b: Rgba) -> (d: i32)
    ensures
        d == color_distance(a, b),
{
    proof {
        lemma_distance_bound(a, b);
    }
    let r = a.r as i32 - b.r as i32;
    let g = a.g as i32 - b.g as i32;
    let bl = a.b as i32 - b.b as i32;
    assert(r * r <= 255 * 255 && g * g <= 255 * 255 && bl * bl <= 255 * 255) by (nonlinear_arith)
        requires
            -255 <= r <= 255,
            -255 <= g <= 255,
            -255 <= bl <= 255,
    ;
    assert(r * r >= 0 && g * g >= 0 && bl * bl >= 0) by (nonlinear_arith);
    r * r + g * g + bl * bl
}

/// Finds the palette slot after slot `0` and below `palette_count` whose color is
/// nearest to `color`, the first of equals; slot `1` when there is none.
pub fn find_closest_color_in_palette(palette: &[Rgba; 256], palette_count: usize, color: Rgba) -> (r: usize)
    requires
        palette_count <= 256,
    ensures
        r == closest_below(palette@, color, palette_count as int),
        1 <= r < 256,
{
    let mut best_score: i32 = i32::MAX;
    let mut best_index: usize = 1;
    let mut index: usize = 1;
    while index < palette_count
        invariant
            1 <= index,
            palette_count <= 256,
            index <= palette_count || index == 1,
            1 <= best_index < 256,
            index == 1 ==> best_score == i32::MAX && best_index == 1,
            index > 1 ==> best_index == closest_below(palette@, color, index as int) && best_index < index
                && best_score == color_distance(color, palette@[best_index as int]),
        decreases palette_count - index,
    {
        let score = distance(color, palette[index]);
        proof {
            lemma_distance_bound(color, palette@[index as int]);
        }
        if score < best_score {
            best_score = score;
            best_index = index;
        }
        index += 1;
    }
    best_index
}

/// Which of the 256 color indices some voxel of the scene's models holds.
pub open spec fn used_colors(scene: Scene) -> Seq<bool> {
    Seq::new(256, |v: int| color_used(scene.models@, v))
}

/// Whether some voxel of some model holds the color index `v`.
pub open spec fn color_used(models: Seq<Model>, v: int) -> bool {
    exists|m: int, k: int|
        0 <= m < models.len() && 0 <= k < models[m].voxels@.len() && #[trigger] models[m].voxels@[k] == v
}

/// Marks each color index that some voxel of some model holds.
pub fn compute_scene_used_color_index_mask(models: &Vec<Model>) -> (used: [bool; 256])
    ensures
        forall|v: int| 0 <= v < 256 ==> #[trigger] used@[v] == color_used(models@, v),
{
    let mut used = [false; 256];
    let mut m: usize = 0;
    while m < models.len()
        invariant
            m <= models@.len(),
            forall|v: int|
                0 <= v < 256 ==> #[trigger] used@[v] == exists|mm: int, k: int|
                    0 <= mm < m && 0 <= k < models@[mm].voxels@.len() && #[trigger] models@[mm].voxels@[k] == v,
        decreases models@.len() - m,
    {
        let voxels = &models[m].voxels;
        let mut k: usize = 0;
        while k < voxels.len()
            invariant
                k <= voxels@.len(),
                m < models@.len(),
                voxels@ == models@[m as int].voxels@,
                forall|v: int|
                    0 <= v < 256 ==> #[trigger] used@[v] == ((exists|mm: int, kk: int|
                        0 <= mm < m && 0 <= kk < models@[mm].voxels@.len() && #[trigger] models@[mm].voxels@[kk]
                            == v) || exists|kk: int| 0 <= kk < k && #[trigger] voxels@[kk] == v),
            decreases voxels@.len() - k,
        {
            let v = voxels[k];
            used[v as usize] = true;
            proof {
                assert forall|w: int| 0 <= w < 256 implies #[trigger] used@[w] == ((exists|mm: int, kk: int|
                    0 <= mm < m && 0 <= kk < models@[mm].voxels@.len() && #[trigger] models@[mm].voxels@[kk] == w)
                    || exists|kk: int| 0 <= kk < k + 1 && #[trigger] voxels@[kk] == w) by {
                    if w == v as int {
                        assert(voxels@[k as int] == w);
                    } else {
                        if exists|kk: int| 0 <= kk < k + 1 && #[trigger] voxels@[kk] == w {
                            let kk = choose|kk: int| 0 <= kk < k + 1 && #[trigger] voxels@[kk] == w;
                            assert(kk < k);
                        }
                    }
                }
            }
            k += 1;
        }
        proof {
            assert forall|w: int| 0 <= w < 256 implies #[trigger] used@[w] == exists|mm: int, kk: int|
                0 <= mm < m + 1 && 0 <= kk < models@[mm].voxels@.len() && #[trigger] models@[mm].voxels@[kk] == w by {
                if exists|mm: int, kk: int|
                    0 <= mm < m + 1 && 0 <= kk < models@[mm].voxels@.len() && #[trigger] models@[mm].voxels@[kk] == w {
                    let (mm, kk) = choose|mm: int, kk: int|
                        0 <= mm < m + 1 && 0 <= kk < models@[mm].voxels@.len() && #[trigger] models@[mm].voxels@[kk] == w;
                    if mm == m {
                        assert(voxels@[kk] == w);
                    }
                }
                if exists|kk: int| 0 <= kk < k && #[trigger] voxels@[kk] == w {
                    let kk = choose|kk: int| 0 <= kk < k && #[trigger] voxels@[kk] == w;
                    assert(models@[m as int].voxels@[kk] == w);
                }
            }
        }
        m += 1;
    }
    used
}

/// The palette slot that one color of a merged scene takes: the first slot with
/// the same red, green and blue; else a new slot while there is room; else the
/// nearest slot. Returns the palette, its count and the slot.
pub open spec fn place_color(palette: Seq<Rgba>, count: int, color: Rgba) -> (Seq<Rgba>, int, int) {
    match exact_from(palette, count, color, 1) {
        Some(i) => (palette, count, i),
        None => if count < 256 {
            (palette.update(count, color), count + 1, count)
        } else {
            (palette, count, closest_below(palette, color, count))
        },
    }
}

/// The master palette, its count, the slot of each color, and the source of each
/// slot after the used colors among the first `k` of a scene's palette were
/// placed. Color `0` stays slot `0`, and unused colors get no slot (all bits set).
/// A slot that a color of the scene took anew has that color's index as its
/// source; every other slot has `-1`.
pub open spec fn place_colors(palette: Seq<Rgba>, count: int, colors: Seq<Rgba>, used: Seq<bool>, k: int) -> (
    Seq<Rgba>,
    int,
    Seq<u32>,
    Seq<int>,
)
    decreases k,
{
    if k <= 1 {
        (palette, count, seq![0u32], Seq::new(256, |i: int| -1))
    } else {
        let (p, c, m, src) = place_colors(palette, count, colors, used, k - 1);
        if used[k - 1] {
            let (p2, c2, i) = place_color(p, c, colors[k - 1]);
            (p2, c2, m.push(i as u32), if c2 > c {
                src.update(c, k - 1)
            } else {
                src
            })
        } else {
            (p, c, m.push(0xffff_ffffu32), src)
        }
    }
}

/// The sources of the slots that placing colors gives are `-1` or the index of
/// a color placed, and there is one for each of the 256 slots.
pub proof fn lemma_place_colors_sources(palette: Seq<Rgba>, count: int, colors: Seq<Rgba>, used: Seq<bool>, k: int)
    requires
        0 <= count <= 256,
    ensures
        count <= place_colors(palette, count, colors, used, k).1 <= 256,
        place_colors(palette, count, colors, used, k).3.len() == 256,
        forall|i: int|
            0 <= i < 256 ==> -1 <= #[trigger] place_colors(palette, count, colors, used, k).3[i] < if k < 1 {
                1
            } else {
                k
            },
    decreases k,
{
    if k > 1 {
        lemma_place_colors_sources(palette, count, colors, used, k - 1);
        let (p, c, m, src) = place_colors(palette, count, colors, used, k - 1);
        if used[k - 1] {
            let (p2, c2, i) = place_color(p, c, colors[k - 1]);
            if c2 > c {
                assert(src.update(c, k - 1).len() == 256);
            }
        }
    } else {
        assert(Seq::new(256, |i: int| -1int).len() == 256);
    }
}

/// Whether each slot of `mats` holds its material from before when its source is
/// `-1`, and else the material of the scene color that is its source.
pub open spec fn materials_placed(mats: Seq<Material>, before: Seq<Material>, scene_mats: Seq<Material>, src: Seq<int>) -> bool {
    forall|i: int|
        0 <= i < 256 ==> if src[i] < 0 {
            #[trigger] mats[i] == before[i]
        } else {
            src[i] < 256 && same_material(mats[i], scene_mats[src[i]])
        }
}

/// Places the colors that the scene's voxels use into the master palette, with
/// their materials when they take a new slot, and returns the slot of each of
/// the scene's colors.
pub fn update_master_palette_and_materials_from_scene(
    master_palette: &mut [Rgba; 256],
    master_palette_count: &mut usize,
    scene: &Scene,
    master_materials: &mut Vec<Material>,
) -> (mapping: [u32; 256])
    requires
        1 <= *old(master_palette_count) <= 256,
        old(master_materials)@.len() == 256,
        scene.materials@.len() == 256,
    ensures
        ({
            let used = used_colors(*scene);
            let (p, c, m, src) = place_colors(
                old(master_palette)@,
                *old(master_palette_count) as int,
                scene.palette.colors@,
                used,
                256,
            );
            &&& final(master_palette)@ == p
            &&& *final(master_palette_count) == c
            &&& mapping@ == m
            &&& materials_placed(final(master_materials)@, old(master_materials)@, scene.materials@, src)
        }),
        1 <= *final(master_palette_count) <= 256,
        final(master_materials)@.len() == 256,
{
    let used = compute_scene_used_color_index_mask(&scene.models);
    let ghost used_seq = used_colors(*scene);
    assert(used@ =~= used_seq);
    let mut mapping = [0xffff_ffffu32; 256];
    mapping[0] = 0;
    let mut color_index: usize = 1;
    while color_index < 256
        invariant
            1 <= color_index <= 256,
            used@ == used_seq,
            scene.materials@.len() == 256,
            master_materials@.len() == 256,
            1 <= *master_palette_count <= 256,
            *old(master_palette_count) <= *master_palette_count,
            materials_placed(
                master_materials@,
                old(master_materials)@,
                scene.materials@,
                place_colors(
                    old(master_palette)@,
                    *old(master_palette_count) as int,
                    scene.palette.colors@,
                    used_seq,
                    color_index as int,
                ).3,
            ),
            *master_palette_count == place_colors(
                old(master_palette)@,
                *old(master_palette_count) as int,
                scene.palette.colors@,
                used_seq,
                color_index as int,
            ).1,
            master_palette@ == place_colors(
                old(master_palette)@,
                *old(master_palette_count) as int,
                scene.palette.colors@,
                used_seq,
                color_index as int,
            ).0,
            mapping@.take(color_index as int) == place_colors(
                old(master_palette)@,
                *old(master_palette_count) as int,
                scene.palette.colors@,
                used_seq,
                color_index as int,
            ).2,
            forall|j: int| color_index <= j < 256 ==> #[trigger] mapping@[j] == 0xffff_ffffu32,
        decreases 256 - color_index,
    {
        let ghost before = mapping@;
        proof {
            lemma_place_colors_sources(
                old(master_palette)@,
                *old(master_palette_count) as int,
                scene.palette.colors@,
                used_seq,
                color_index as int,
            );
            lemma_place_colors_sources(
                old(master_palette)@,
                *old(master_palette_count) as int,
                scene.palette.colors@,
                used_seq,
                color_index + 1,
            );
        }
        let ghost prev = place_colors(
            old(master_palette)@,
            *old(master_palette_count) as int,
            scene.palette.colors@,
            used_seq,
            color_index as int,
        );
        let ghost next = place_colors(
            old(master_palette)@,
            *old(master_palette_count) as int,
            scene.palette.colors@,
            used_seq,
            color_index + 1,
        );
        if used[color_index] {
            let color = scene.palette.colors[color_index];
            let ghost placed = place_color(prev.0, prev.1, color);
            let master_index = match find_exact_color_in_palette(master_palette, *master_palette_count, color) {
                Some(existing) => {
                    assert(placed == (prev.0, prev.1, existing as int));
                    assert(next.3 == prev.3);
                    existing
                },
                None => {
                    if *master_palette_count < 256 {
                        let index = *master_palette_count;
                        master_palette[index] = color;
                        let material = copy_material(&scene.materials[color_index]);
                        let ghost mats_before = master_materials@;
                        master_materials.set(index, material);
                        *master_palette_count = *master_palette_count + 1;
                        assert(placed == (master_palette@, *master_palette_count as int, index as int));
                        assert(next.3 == prev.3.update(index as int, color_index as int));
                        assert forall|i: int| 0 <= i < 256 implies if next.3[i] < 0 {
                            #[trigger] master_materials@[i] == old(master_materials)@[i]
                        } else {
                            next.3[i] < 256 && same_material(master_materials@[i], scene.materials@[next.3[i]])
                        } by {
                            if i != index as int {
                                assert(master_materials@[i] == mats_before[i]);
                            }
                        }
                        index
                    } else {
                        let closest = find_closest_color_in_palette(master_palette, *master_palette_count, color);
                        assert(placed == (prev.0, prev.1, closest as int));
                        assert(next.3 == prev.3);
                        closest
                    }
                },
            };
            mapping[color_index] = master_index as u32;
            proof {
                assert(next.0 == placed.0 && next.1 == placed.1 && next.2 == prev.2.push(placed.2 as u32));
            }
        } else {
            proof {
                assert(next.0 == prev.0 && next.1 == prev.1 && next.2 == prev.2.push(0xffff_ffffu32) && next.3 == prev.3);
            }
        }
        proof {
            assert(mapping@.take(color_index + 1) =~= before.take(color_index as int).push(mapping@[color_index as int]));
        }
        color_index += 1;
    }
    assert(mapping@.take(256) =~= mapping@);
    mapping
}

} // verus!
