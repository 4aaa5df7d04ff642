use vstd::prelude::*;

use crate::file_writer::normalization_fails;
use crate::palette_merge::update_master_palette_and_materials_from_scene;
use crate::scene::{
    chain_settles, chain_transform, default_materials, default_root_group, group_chain,
    group_rotations_valid, group_indices_shiftable, instance_rotations_valid, is_added_root,
    lemma_normalization_keeps, normalization, normalize_scene_graph, references_valid,
    validate_scene_references, walk_group_chain, Group, Instance, Scene,
};
use crate::transform::{clamp_i32, column_axis, valid_rotation, CardinalTransform};
use crate::types::{KeyframeModel, Layer, Model, Palette, Rgba, VoxError};

verus! {

/// The size of a model along axis `k`.
pub open spec fn size_along(m: Model, k: int) -> int {
    if k == 0 {
        m.size_x as int
    } else if k == 1 {
        m.size_y as int
    } else if k == 2 {
        m.size_z as int
    } else {
        m.size_x as int
    }
}

/// The world transform of an instance: its transform followed by those of its
/// groups up to the root.
pub open spec fn instance_world(s: Scene, inst: Instance) -> CardinalTransform {
    chain_transform(s.groups@, inst.transform, group_chain(s.groups@, inst.group_index, s.groups@.len())->Some_0)
}

/// The half-width along x of an instance's model in the world: half its size
/// along the axis that the world's first column points along.
pub open spec fn half_width(s: Scene, inst: Instance) -> int {
    size_along(s.models@[inst.model_index as int], column_axis(instance_world(s, inst).rotation, 0)) / 2
}

/// The least and greatest x reached by the first `k` instances, starting from
/// half the `i32` range the other way round.
pub open spec fn x_extent(s: Scene, k: int) -> (int, int)
    decreases k,
{
    if k <= 0 {
        ((i32::MAX / 2) as int, (i32::MIN / 2) as int)
    } else {
        let (lo, hi) = x_extent(s, k - 1);
        let inst = s.instances@[k - 1];
        let x = instance_world(s, inst).tx as int;
        let h = half_width(s, inst);
        (if x - h < lo {
            x - h
        } else {
            lo
        }, if x + h > hi {
            x + h
        } else {
            hi
        })
    }
}

/// Whether an instance's model exists, its group chain stays in range and ends,
/// and it and its groups have valid rotations.
pub open spec fn instance_placeable(s: Scene, inst: Instance) -> bool {
    &&& inst.model_index < s.models@.len()
    &&& chain_settles(s.groups@, inst.group_index, s.groups@.len())
    &&& group_chain(s.groups@, inst.group_index, s.groups@.len()) is Some
    &&& instance_rotations_valid(inst)
}

/// Whether every instance of a scene can be placed, and every group has valid
/// rotations.
pub open spec fn scene_placeable(s: Scene) -> bool {
    &&& forall|i: int| 0 <= i < s.instances@.len() ==> instance_placeable(s, #[trigger] s.instances@[i])
    &&& forall|i: int| 0 <= i < s.groups@.len() ==> group_rotations_valid(#[trigger] s.groups@[i])
}

/// An instance's transform followed by those of its groups.
fn world_of(groups: &Vec<Group>, inst: &Instance) -> (w: CardinalTransform)
    requires
        chain_settles(groups@, inst.group_index, groups@.len()),
        group_chain(groups@, inst.group_index, groups@.len()) is Some,
        instance_rotations_valid(*inst),
        forall|i: int| 0 <= i < groups@.len() ==> group_rotations_valid(#[trigger] groups@[i]),
    ensures
        w == chain_transform(groups@, inst.transform, group_chain(groups@, inst.group_index, groups@.len())->Some_0),
{
    let chain = match walk_group_chain(groups, inst.group_index) {
        Ok(c) => c,
        Err(_) => {
            return inst.transform;
        },
    };
    let ghost full = chain@;
    proof {
        lemma_chain_in_range(groups@, inst.group_index, groups@.len());
    }
    let mut w = inst.transform;
    let mut i: usize = 0;
    assert(full.skip(0) =~= full);
    while i < chain.len()
        invariant
            i <= chain@.len(),
            full == chain@,
            forall|j: int| 0 <= j < chain@.len() ==> (#[trigger] chain@[j]) < groups@.len(),
            forall|j: int| 0 <= j < groups@.len() ==> group_rotations_valid(#[trigger] groups@[j]),
            valid_rotation(w.rotation),
            chain_transform(groups@, inst.transform, full) == chain_transform(groups@, w, full.skip(i as int)),
        decreases chain@.len() - i,
    {
        let g = chain[i];
        assert(group_rotations_valid(groups@[g as int]));
        proof {
            assert(full.skip(i as int).skip(1) =~= full.skip(i + 1));
        }
        w = w.multiply(groups[g].transform);
        i += 1;
    }
    assert(full.skip(i as int) =~= Seq::<usize>::empty());
    w
}

/// Every group in a walked chain is in range.
proof fn lemma_chain_in_range(groups: Seq<Group>, start: Option<usize>, fuel: nat)
    ensures
        group_chain(groups, start, fuel) matches Some(c) ==> forall|j: int|
            0 <= j < c.len() ==> (#[trigger] c[j]) < groups.len(),
    decreases fuel,
{
    if let Some(i) = start {
        if i < groups.len() && fuel > 0 {
            lemma_chain_in_range(groups, groups[i as int].parent_group_index, (fuel - 1) as nat);
            if let Some(rest) = group_chain(groups, groups[i as int].parent_group_index, (fuel - 1) as nat) {
                let c = seq![i] + rest;
                assert forall|j: int| 0 <= j < c.len() implies (#[trigger] c[j]) < groups.len() by {
                    if j > 0 {
                        assert(c[j] == rest[j - 1]);
                    }
                }
            }
        }
    }
}

/// The least and greatest x that a scene's instances reach in the world; `(0, 0)`
/// for a scene without instances or models.
pub open spec fn x_bounds(s: Scene) -> (int, int) {
    if s.instances@.len() == 0 || s.models@.len() == 0 {
        (0, 0)
    } else {
        x_extent(s, s.instances@.len() as int)
    }
}

/// Whether the extent of a scene along x can be measured: it has no instances or
/// no models, or every instance can be placed.
pub open spec fn measurable(s: Scene) -> bool {
    s.instances@.len() == 0 || s.models@.len() == 0 || scene_placeable(s)
}

/// The extent reached by instances never falls below the least `i32` less half
/// the `u32` range, nor rises above the greatest `i32` plus as much, and the least
/// is at most the greatest once an instance was seen.
pub(crate) proof fn lemma_x_extent_bounds(s: Scene, k: int)
    ensures
        i32::MIN - 0x8000_0000 <= x_extent(s, k).0 <= i32::MAX / 2,
        i32::MIN / 2 <= x_extent(s, k).1 <= i32::MAX + 0x8000_0000,
        k > 0 ==> x_extent(s, k).0 <= x_extent(s, k).1,
    decreases k,
{
    if k > 0 {
        lemma_x_extent_bounds(s, k - 1);
        let inst = s.instances@[k - 1];
        let x = instance_world(s, inst).tx as int;
        let h = half_width(s, inst);
        assert(0 <= h <= 0x7fff_ffff);
    }
}

/// The least and greatest x that the scene's instances reach in the world: each
/// instance spans half its model's width to either side of its world
/// translation. A scene without instances or models gives `(0, 0)`.
pub fn scene_bounding_box_x(scene: &Scene) -> (r: (i64, i64))
    requires
        measurable(*scene),
    ensures
        (r.0 as int, r.1 as int) == x_bounds(*scene),
        -0x1_0000_0000 <= r.0 <= r.1 <= 0x1_0000_0000,
{
    proof {
        lemma_x_extent_bounds(*scene, scene.instances@.len() as int);
    }
    if scene.instances.len() == 0 || scene.models.len() == 0 {
        return (0, 0);
    }
    let mut min_x: i64 = (i32::MAX / 2) as i64;
    let mut max_x: i64 = (i32::MIN / 2) as i64;
    let mut i: usize = 0;
    while i < scene.instances.len()
        invariant
            i <= scene.instances@.len(),
            scene_placeable(*scene),
            (min_x as int, max_x as int) == x_extent(*scene, i as int),
            i32::MIN - 0x8000_0000 <= min_x <= i32::MAX,
            i32::MIN <= max_x <= i32::MAX + 0x8000_0000,
        decreases scene.instances@.len() - i,
    {
        let inst = &scene.instances[i];
        assert(instance_placeable(*scene, scene.instances@[i as int]));
        let w = world_of(&scene.groups, inst);
        let model = &scene.models[inst.model_index];
        let axis = w.rotation % 4;
        let dim: u32 = if axis == 0 {
            model.size_x
        } else if axis == 1 {
            model.size_y
        } else if axis == 2 {
            model.size_z
        } else {
            model.size_x
        };
        let half = (dim / 2) as i64;
        assert(half <= 0x7fff_ffff);
        let local_min = w.tx as i64 - half;
        let local_max = w.tx as i64 + half;
        if local_min < min_x {
            min_x = local_min;
        }
        if local_max > max_x {
            max_x = local_max;
        }
        i += 1;
    }
    (min_x, max_x)
}

/// The least x that instance `i` of a scene reaches in the world.
pub open spec fn instance_left(s: Scene, i: int) -> int {
    instance_world(s, s.instances@[i]).tx as int - half_width(s, s.instances@[i])
}

/// The greatest x that instance `i` of a scene reaches in the world.
pub open spec fn instance_right(s: Scene, i: int) -> int {
    instance_world(s, s.instances@[i]).tx as int + half_width(s, s.instances@[i])
}

/// The extent of the first `k` instances spans each of them, and each of its
/// ends is the start value or reached by one of them.
proof fn lemma_x_extent_covers(s: Scene, k: int)
    requires
        0 <= k <= s.instances@.len(),
    ensures
        forall|i: int| 0 <= i < k ==> x_extent(s, k).0 <= #[trigger] instance_left(s, i),
        forall|i: int| 0 <= i < k ==> #[trigger] instance_right(s, i) <= x_extent(s, k).1,
        x_extent(s, k).0 == (i32::MAX / 2) as int || exists|i: int| 0 <= i < k && x_extent(s, k).0 == #[trigger] instance_left(s, i),
        x_extent(s, k).1 == (i32::MIN / 2) as int || exists|i: int| 0 <= i < k && x_extent(s, k).1 == #[trigger] instance_right(s, i),
    decreases k,
{
    if k > 0 {
        lemma_x_extent_covers(s, k - 1);
        assert(instance_left(s, k - 1) == instance_world(s, s.instances@[k - 1]).tx as int - half_width(s, s.instances@[k - 1]));
        assert(instance_right(s, k - 1) == instance_world(s, s.instances@[k - 1]).tx as int + half_width(s, s.instances@[k - 1]));
    }
}

/// Law: the extent along x of a scene with instances and models spans every
/// instance, from its world translation less half its model's width to that
/// translation plus as much; its least end is reached by an instance unless it
/// is half the greatest `i32`, and its greatest end unless it is half the least.
/// So scenes placed side by side by these extents never overlap.
pub proof fn x_bounds_span_instances(s: Scene)
    requires
        s.instances@.len() > 0,
        s.models@.len() > 0,
    ensures
        forall|i: int| 0 <= i < s.instances@.len() ==> x_bounds(s).0 <= #[trigger] instance_left(s, i),
        forall|i: int| 0 <= i < s.instances@.len() ==> #[trigger] instance_right(s, i) <= x_bounds(s).1,
        x_bounds(s).0 == (i32::MAX / 2) as int || exists|i: int|
            0 <= i < s.instances@.len() && x_bounds(s).0 == #[trigger] instance_left(s, i),
        x_bounds(s).1 == (i32::MIN / 2) as int || exists|i: int|
            0 <= i < s.instances@.len() && x_bounds(s).1 == #[trigger] instance_right(s, i),
{
    lemma_x_extent_covers(s, s.instances@.len() as int);
}

} // verus!
