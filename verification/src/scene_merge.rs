use vstd::prelude::*;

use crate::index_map::same_material;
use crate::merge::{measurable, scene_bounding_box_x, x_bounds};
use crate::palette_merge::{place_colors, update_master_palette_and_materials_from_scene, used_colors};
use crate::scene::{
    default_materials, default_root_group, is_added_root, lemma_normalization_keeps, normalization,
    normalize_scene_graph, references_valid, group_indices_shiftable, validate_scene_references,
    AnimTransform, Group, Instance, Material, Scene,
};
use crate::file_writer::normalization_fails;
use crate::transform::{clamp_i32, CardinalTransform};
use crate::types::{AnimModel, KeyframeModel, Layer, MaterialType, MediaType, Model, Palette, Rgba, VoxError};

verus! {

/// The number of models of all the scenes.
pub open spec fn models_total(ns: Seq<Scene>) -> int
    decreases ns.len(),
{
    if ns.len() == 0 {
        0
    } else {
        models_total(ns.drop_last()) + ns.last().models@.len()
    }
}

/// The number of instances of all the scenes.
pub open spec fn instances_total(ns: Seq<Scene>) -> int
    decreases ns.len(),
{
    if ns.len() == 0 {
        0
    } else {
        instances_total(ns.drop_last()) + ns.last().instances@.len()
    }
}

/// One root group, and the groups of all the scenes besides their roots.
pub open spec fn groups_total(ns: Seq<Scene>) -> int
    decreases ns.len(),
{
    if ns.len() == 0 {
        1
    } else {
        groups_total(ns.drop_last()) + ns.last().groups@.len() - 1
    }
}

/// How far along x the scenes after these are placed: each scene takes its width
/// and a gap of four.
pub open spec fn offset_total(ns: Seq<Scene>) -> int
    decreases ns.len(),
{
    if ns.len() == 0 {
        0
    } else {
        offset_total(ns.drop_last()) + x_bounds(ns.last()).1 - x_bounds(ns.last()).0 + 4
    }
}

/// The black of an empty palette slot.
pub open spec fn blank_color() -> Rgba {
    Rgba { r: 0, g: 0, b: 0, a: 0 }
}

/// The color of the slots that no scene filled: opaque magenta.
pub open spec fn unused_slot_color() -> Rgba {
    Rgba { r: 255, g: 0, b: 255, a: 255 }
}

/// A diffuse material without properties.
pub open spec fn blank_material() -> Material {
    Material {
        material_type: MaterialType::Diffuse,
        media_type: MediaType::Absorb,
        metal: None,
        rough: None,
        spec: None,
        ior: None,
        att: None,
        flux: None,
        emit: None,
        ldr: None,
        trans: None,
        alpha: None,
        d: None,
        sp: None,
        g: None,
        media: None,
    }
}

/// The master palette before any scene: slot `0` empty, then the required
/// colors.
pub open spec fn initial_palette(required: Seq<Rgba>) -> Seq<Rgba> {
    Seq::new(
        256,
        |i: int|
            if 1 <= i <= required.len() {
                required[i - 1]
            } else {
                blank_color()
            },
    )
}

/// The master palette, its count and its materials once the scenes' colors were
/// placed, one scene after the other.
#[verifier::opaque]
pub open spec fn palette_after(ns: Seq<Scene>, required: Seq<Rgba>) -> (Seq<Rgba>, int, Seq<Material>)
    decreases ns.len(),
{
    if ns.len() == 0 {
        (initial_palette(required), required.len() + 1int, Seq::new(256, |i: int| blank_material()))
    } else {
        let (p, c, mats) = palette_after(ns.drop_last(), required);
        let n = ns.last();
        let placed = place_colors(p, c, n.palette.colors@, used_colors(n), 256);
        (
            placed.0,
            placed.1,
            Seq::new(
                256,
                |i: int|
                    if placed.3[i] < 0 {
                        mats[i]
                    } else {
                        n.materials@[placed.3[i]]
                    },
            ),
        )
    }
}

/// The master slot of each color of `scene`, merged after the scenes `before`.
#[verifier::opaque]
pub open spec fn scene_mapping(before: Seq<Scene>, scene: Scene, required: Seq<Rgba>) -> Seq<u32> {
    let (p, c, mats) = palette_after(before, required);
    place_colors(p, c, scene.palette.colors@, used_colors(scene), 256).2
}

/// How far along x the instances and groups at the root of `scene` move, merged
/// after the scenes `before`.
#[verifier::opaque]
pub open spec fn scene_shift(before: Seq<Scene>, scene: Scene) -> int {
    offset_total(before) - x_bounds(scene).0
}

/// `v`, or the largest `usize` when it is larger.
pub open spec fn capped_index(v: int) -> usize {
    if v > usize::MAX {
        usize::MAX
    } else {
        v as usize
    }
}

/// Where a parent group index of a scene points in the merged scene, whose
/// groups of that scene start at `base`: its root and no parent become the
/// merged root `0`.
pub open spec fn merged_parent(parent: Option<usize>, base: int) -> Option<usize> {
    match parent {
        Some(q) => if q == 0 {
            Some(0usize)
        } else {
            Some(capped_index(base + q - 1))
        },
        None => Some(0usize),
    }
}

/// A transform moved along x by `shift` when its node sits at the merged root.
pub open spec fn placed_transform(t: CardinalTransform, parent: Option<usize>, shift: int) -> CardinalTransform {
    if parent == Some(0usize) {
        CardinalTransform { tx: clamp_i32(t.tx + shift), ..t }
    } else {
        t
    }
}

/// A group of a scene as the merged scene holds it.
pub open spec fn group_merged(g: Group, base: int, shift: int) -> Group {
    let parent = merged_parent(g.parent_group_index, base);
    Group {
        layer_index: Some(0usize),
        parent_group_index: parent,
        transform: placed_transform(g.transform, parent, shift),
        ..g
    }
}

/// A model of a scene with each voxel's color moved to its master slot.
pub open spec fn model_merged(out: Model, m: Model, mapping: Seq<u32>) -> bool {
    &&& out.size_x == m.size_x
    &&& out.size_y == m.size_y
    &&& out.size_z == m.size_z
    &&& out.voxels@ == m.voxels@.map_values(|v: u8| mapping[v as int] as u8)
}

/// A model keyframe whose model moved up by `base`.
pub open spec fn keyframe_merged(k: KeyframeModel, base: int) -> KeyframeModel {
    KeyframeModel { model_index: capped_index(k.model_index + base), ..k }
}

/// An instance of a scene as the merged scene holds it, whose scene's models
/// start at `model_base` and groups at `group_base`.
pub open spec fn instance_merged(out: Instance, inst: Instance, model_base: int, group_base: int, shift: int) -> bool {
    let group = merged_parent(inst.group_index, group_base);
    &&& out.name == inst.name
    &&& out.transform == placed_transform(inst.transform, group, shift)
    &&& out.model_index == capped_index(inst.model_index + model_base)
    &&& out.layer_index == Some(0usize)
    &&& out.group_index == group
    &&& out.hidden == inst.hidden
    &&& out.transform_anim == inst.transform_anim
    &&& out.model_anim.looped == inst.model_anim.looped
    &&& out.model_anim.keyframes@ == inst.model_anim.keyframes@.map_values(
        |k: KeyframeModel| keyframe_merged(k, model_base),
    )
}

/// Whether `models` holds the models of the scenes one after the other, each with
/// its colors moved to the master palette.
#[verifier::opaque]
pub open spec fn models_merged(models: Seq<Model>, ns: Seq<Scene>, required: Seq<Rgba>) -> bool {
    &&& models.len() == models_total(ns)
    &&& forall|s: int, j: int|
        0 <= s < ns.len() && 0 <= j < ns[s].models@.len() ==> model_merged(
            models[models_total(ns.take(s)) + j],
            #[trigger] ns[s].models@[j],
            scene_mapping(ns.take(s), ns[s], required),
        )
}

/// Whether `groups` holds the merged root and then the groups of the scenes
/// besides their roots, one scene after the other.
#[verifier::opaque]
pub open spec fn groups_merged(groups: Seq<Group>, ns: Seq<Scene>) -> bool {
    &&& groups.len() == groups_total(ns)
    &&& is_added_root(groups[0], Some(0usize))
    &&& forall|s: int, j: int|
        0 <= s < ns.len() && 1 <= j < ns[s].groups@.len() ==> groups[groups_total(ns.take(s)) + j - 1]
            == group_merged(#[trigger] ns[s].groups@[j], groups_total(ns.take(s)), scene_shift(ns.take(s), ns[s]))
}

/// Whether `instances` holds the instances of the scenes one after the other.
#[verifier::opaque]
pub open spec fn instances_merged(instances: Seq<Instance>, ns: Seq<Scene>) -> bool {
    &&& instances.len() == instances_total(ns)
    &&& forall|s: int, j: int|
        0 <= s < ns.len() && 0 <= j < ns[s].instances@.len() ==> instance_merged(
            instances[instances_total(ns.take(s)) + j],
            #[trigger] ns[s].instances@[j],
            models_total(ns.take(s)),
            groups_total(ns.take(s)),
            scene_shift(ns.take(s), ns[s]),
        )
}

/// Whether `m` is the merge of the normalized scenes `ns` with the required
/// colors first in the palette: their models, groups and instances one scene
/// after the other in one layer, each scene placed along x after the one
/// before, and their colors and materials in one master palette whose unused
/// slots are magenta.
pub open spec fn merged_from(m: Scene, ns: Seq<Scene>, required: Seq<Rgba>) -> bool {
    let (p, c, mats) = palette_after(ns, required);
    &&& m.file_version == 0
    &&& models_merged(m.models@, ns, required)
    &&& groups_merged(m.groups@, ns)
    &&& instances_merged(m.instances@, ns)
    &&& m.layers@.len() == 1
    &&& m.layers@[0].name matches Some(name) && name@ == "merged"@
    &&& m.layers@[0].color == (Rgba { r: 255, g: 255, b: 255, a: 255 })
    &&& !m.layers@[0].hidden
    &&& m.color_names@.len() == 0
    &&& forall|i: int|
        0 <= i < 256 ==> #[trigger] m.palette.colors@[i] == if i < c {
            p[i]
        } else {
            unused_slot_color()
        }
    &&& m.materials@.len() == 256
    &&& forall|i: int| 0 <= i < 256 ==> same_material(#[trigger] m.materials@[i], mats[i])
    &&& m.cameras@.len() == 0
    &&& m.sun is None
    &&& m.anim_range_start == 0
    &&& m.anim_range_end == 30
}

/// Whether `ns` are the normalized forms of `scenes`.
pub open spec fn normalized_all(scenes: Seq<Scene>, ns: Seq<Scene>) -> bool {
    &&& ns.len() == scenes.len()
    &&& forall|i: int| 0 <= i < scenes.len() ==> normalization(#[trigger] scenes[i], false, Ok(ns[i]))
}

/// Whether a scene can be merged: it has a material for each palette slot, its
/// group indices can move up by one, and once normalized its extent along x can
/// be measured.
pub open spec fn mergeable(scene: Scene) -> bool {
    &&& scene.materials@.len() == 256
    &&& group_indices_shiftable(scene)
    &&& forall|n: Scene|
        #![trigger normalization(scene, false, Ok(n))]
        normalization(scene, false, Ok(n)) ==> measurable(n)
}

/// A model with each voxel's color moved to its master slot.
fn remap_model(model: Model, mapping: &[u32; 256]) -> (out: Model)
    ensures
        model_merged(out, model, mapping@),
{
    let ghost orig = model.voxels@;
    let mut voxels = model.voxels;
    let mut k: usize = 0;
    while k < voxels.len()
        invariant
            k <= voxels@.len(),
            voxels@.len() == orig.len(),
            forall|i: int| 0 <= i < k ==> #[trigger] voxels@[i] == mapping@[orig[i] as int] as u8,
            forall|i: int| k <= i < orig.len() ==> #[trigger] voxels@[i] == orig[i],
        decreases orig.len() - k,
    {
        let v = voxels[k];
        voxels.set(k, mapping[v as usize] as u8);
        k += 1;
    }
    assert(voxels@ =~= orig.map_values(|v: u8| mapping@[v as int] as u8));
    Model { size_x: model.size_x, size_y: model.size_y, size_z: model.size_z, voxels }
}

/// Appends the models of one scene, each with its colors moved to the master
/// palette.
fn append_models(models: &mut Vec<Model>, src: Vec<Model>, mapping: &[u32; 256])
    ensures
        final(models)@.len() == old(models)@.len() + src@.len(),
        forall|i: int| 0 <= i < old(models)@.len() ==> #[trigger] final(models)@[i] == old(models)@[i],
        forall|j: int|
            0 <= j < src@.len() ==> model_merged(
                final(models)@[old(models)@.len() + j],
                #[trigger] src@[j],
                mapping@,
            ),
{
    let ghost orig = src@;
    let ghost start = models@;
    let mut src = src;
    let mut j: usize = 0;
    while j < src.len()
        invariant
            j <= orig.len(),
            src@.len() == orig.len(),
            forall|i: int| j <= i < orig.len() ==> #[trigger] src@[i] == orig[i],
            models@.len() == start.len() + j,
            forall|i: int| 0 <= i < start.len() ==> #[trigger] models@[i] == start[i],
            forall|i: int| 0 <= i < j ==> model_merged(models@[start.len() + i], #[trigger] orig[i], mapping@),
        decreases orig.len() - j,
    {
        let mut slot = Model { size_x: 0, size_y: 0, size_z: 0, voxels: Vec::new() };
        src.set_and_swap(j, &mut slot);
        let merged = remap_model(slot, mapping);
        models.push(merged);
        j += 1;
    }
}

/// Where a parent group index of a scene points in the merged scene.
fn merged_parent_index(parent: Option<usize>, base: usize) -> (r: Option<usize>)
    ensures
        r == merged_parent(parent, base as int),
{
    match parent {
        Some(q) => if q == 0 {
            Some(0)
        } else {
            Some(base.saturating_add(q - 1))
        },
        None => Some(0),
    }
}

/// A transform moved along x by `shift` when its node sits at the merged root.
fn placed(t: CardinalTransform, parent: Option<usize>, shift: i64) -> (r: CardinalTransform)
    requires
        -0x4000_0000_0000_0000 <= shift <= 0x4000_0000_0000_0000,
    ensures
        r == placed_transform(t, parent, shift as int),
{
    let at_root = match parent {
        Some(p) => p == 0,
        None => false,
    };
    if at_root {
        let sum = t.tx as i64 + shift;
        let tx = if sum < i32::MIN as i64 {
            i32::MIN
        } else if sum > i32::MAX as i64 {
            i32::MAX
        } else {
            sum as i32
        };
        CardinalTransform { tx, ..t }
    } else {
        t
    }
}

/// A group of a scene as the merged scene holds it.
fn merge_group(g: Group, base: usize, shift: i64) -> (out: Group)
    requires
        -0x4000_0000_0000_0000 <= shift <= 0x4000_0000_0000_0000,
    ensures
        out == group_merged(g, base as int, shift as int),
{
    let parent = merged_parent_index(g.parent_group_index, base);
    let transform = placed(g.transform, parent, shift);
    Group { layer_index: Some(0), parent_group_index: parent, transform, ..g }
}

/// Appends the groups of one scene besides its root `0`, with their parents
/// moved to where the scene's groups start.
fn append_groups(groups: &mut Vec<Group>, src: Vec<Group>, shift: i64)
    requires
        -0x4000_0000_0000_0000 <= shift <= 0x4000_0000_0000_0000,
        src@.len() >= 1,
    ensures
        final(groups)@.len() == old(groups)@.len() + src@.len() - 1,
        forall|i: int| 0 <= i < old(groups)@.len() ==> #[trigger] final(groups)@[i] == old(groups)@[i],
        forall|j: int|
            1 <= j < src@.len() ==> final(groups)@[old(groups)@.len() + j - 1] == group_merged(
                #[trigger] src@[j],
                old(groups)@.len() as int,
                shift as int,
            ),
{
    let ghost orig = src@;
    let ghost start = groups@;
    let base = groups.len();
    let mut src = src;
    let mut j: usize = 1;
    while j < src.len()
        invariant
            1 <= j <= orig.len(),
            base == start.len(),
            -0x4000_0000_0000_0000 <= shift <= 0x4000_0000_0000_0000,
            src@.len() == orig.len(),
            forall|i: int| j <= i < orig.len() ==> #[trigger] src@[i] == orig[i],
            groups@.len() == start.len() + j - 1,
            forall|i: int| 0 <= i < start.len() ==> #[trigger] groups@[i] == start[i],
            forall|i: int|
                1 <= i < j ==> groups@[start.len() + i - 1] == group_merged(
                    #[trigger] orig[i],
                    start.len() as int,
                    shift as int,
                ),
        decreases orig.len() - j,
    {
        let mut slot = default_root_group(None);
        src.set_and_swap(j, &mut slot);
        let merged = merge_group(slot, base, shift);
        groups.push(merged);
        j += 1;
    }
}

/// An instance of a scene as the merged scene holds it.
fn merge_instance(inst: Instance, model_base: usize, group_base: usize, shift: i64) -> (out: Instance)
    requires
        -0x4000_0000_0000_0000 <= shift <= 0x4000_0000_0000_0000,
    ensures
        instance_merged(out, inst, model_base as int, group_base as int, shift as int),
{
    let ghost orig = inst.model_anim.keyframes@;
    let group = merged_parent_index(inst.group_index, group_base);
    let transform = placed(inst.transform, group, shift);
    let mut keyframes = inst.model_anim.keyframes;
    let mut k: usize = 0;
    while k < keyframes.len()
        invariant
            k <= keyframes@.len(),
            keyframes@.len() == orig.len(),
            forall|i: int| 0 <= i < k ==> #[trigger] keyframes@[i] == keyframe_merged(orig[i], model_base as int),
            forall|i: int| k <= i < orig.len() ==> #[trigger] keyframes@[i] == orig[i],
        decreases orig.len() - k,
    {
        let frame = keyframes[k];
        keyframes.set(
            k,
            KeyframeModel { model_index: frame.model_index.saturating_add(model_base), ..frame },
        );
        k += 1;
    }
    assert(keyframes@ =~= orig.map_values(|f: KeyframeModel| keyframe_merged(f, model_base as int)));
    Instance {
        name: inst.name,
        transform,
        model_index: inst.model_index.saturating_add(model_base),
        layer_index: Some(0),
        group_index: group,
        hidden: inst.hidden,
        transform_anim: inst.transform_anim,
        model_anim: AnimModel { keyframes, looped: inst.model_anim.looped },
    }
}

/// Appends the instances of one scene, with their models and groups moved to
/// where the scene's models and groups start.
fn append_instances(
    instances: &mut Vec<Instance>,
    src: Vec<Instance>,
    model_base: usize,
    group_base: usize,
    shift: i64,
)
    requires
        -0x4000_0000_0000_0000 <= shift <= 0x4000_0000_0000_0000,
    ensures
        final(instances)@.len() == old(instances)@.len() + src@.len(),
        forall|i: int| 0 <= i < old(instances)@.len() ==> #[trigger] final(instances)@[i] == old(instances)@[i],
        forall|j: int|
            0 <= j < src@.len() ==> instance_merged(
                final(instances)@[old(instances)@.len() + j],
                #[trigger] src@[j],
                model_base as int,
                group_base as int,
                shift as int,
            ),
{
    let ghost orig = src@;
    let ghost start = instances@;
    let mut src = src;
    let mut j: usize = 0;
    while j < src.len()
        invariant
            j <= orig.len(),
            -0x4000_0000_0000_0000 <= shift <= 0x4000_0000_0000_0000,
            src@.len() == orig.len(),
            forall|i: int| j <= i < orig.len() ==> #[trigger] src@[i] == orig[i],
            instances@.len() == start.len() + j,
            forall|i: int| 0 <= i < start.len() ==> #[trigger] instances@[i] == start[i],
            forall|i: int|
                0 <= i < j ==> instance_merged(
                    instances@[start.len() + i],
                    #[trigger] orig[i],
                    model_base as int,
                    group_base as int,
                    shift as int,
                ),
        decreases orig.len() - j,
    {
        let mut slot = Instance {
            name: None,
            transform: CardinalTransform::identity(),
            model_index: 0,
            layer_index: None,
            group_index: None,
            hidden: false,
            transform_anim: AnimTransform::default(),
            model_anim: AnimModel::default(),
        };
        src.set_and_swap(j, &mut slot);
        let merged = merge_instance(slot, model_base, group_base, shift);
        instances.push(merged);
        j += 1;
    }
}

/// Whether every scene has a group.
pub open spec fn all_grouped(ns: Seq<Scene>) -> bool {
    forall|i: int| 0 <= i < ns.len() ==> (#[trigger] ns[i]).groups@.len() >= 1
}

/// The models, instances and groups of scene `s` come before those of the
/// scenes after it.
proof fn lemma_totals_prefix(ns: Seq<Scene>, s: int)
    requires
        0 <= s < ns.len(),
        all_grouped(ns),
    ensures
        models_total(ns.take(s)) + ns[s].models@.len() <= models_total(ns),
        instances_total(ns.take(s)) + ns[s].instances@.len() <= instances_total(ns),
        groups_total(ns.take(s)) + ns[s].groups@.len() - 1 <= groups_total(ns),
        1 <= groups_total(ns.take(s)),
        0 <= models_total(ns.take(s)),
        0 <= instances_total(ns.take(s)),
    decreases ns.len(),
{
    let rest = ns.drop_last();
    if s == ns.len() - 1 {
        assert(ns.take(s) =~= rest);
        lemma_groups_total_positive(rest);
        lemma_totals_nonneg(rest);
    } else {
        assert(rest.take(s) =~= ns.take(s));
        assert(rest[s] == ns[s]);
        assert(all_grouped(rest)) by {
            assert forall|i: int| 0 <= i < rest.len() implies (#[trigger] rest[i]).groups@.len() >= 1 by {
                assert(rest[i] == ns[i]);
            }
        }
        assert(ns.last() == ns[ns.len() - 1]);
        lemma_totals_prefix(rest, s);
    }
}

/// No total is negative, and with every scene grouped, there is at least the
/// merged root.
proof fn lemma_totals_nonneg(ns: Seq<Scene>)
    ensures
        0 <= models_total(ns),
        0 <= instances_total(ns),
    decreases ns.len(),
{
    if ns.len() > 0 {
        lemma_totals_nonneg(ns.drop_last());
    }
}

/// With every scene grouped, there is at least the merged root.
proof fn lemma_groups_total_positive(ns: Seq<Scene>)
    requires
        all_grouped(ns),
    ensures
        1 <= groups_total(ns),
    decreases ns.len(),
{
    if ns.len() > 0 {
        let rest = ns.drop_last();
        assert(all_grouped(rest)) by {
            assert forall|i: int| 0 <= i < rest.len() implies (#[trigger] rest[i]).groups@.len() >= 1 by {
                assert(rest[i] == ns[i]);
            }
        }
        assert(ns.last() == ns[ns.len() - 1]);
        lemma_groups_total_positive(rest);
    }
}

/// A model of an earlier scene stays where it was once another scene is appended.
proof fn lemma_model_kept(
    before: Seq<Model>,
    after: Seq<Model>,
    done: Seq<Scene>,
    n: Scene,
    required: Seq<Rgba>,
    s: int,
    j: int,
)
    requires
        models_merged(before, done, required),
        all_grouped(done),
        forall|i: int| 0 <= i < before.len() ==> #[trigger] after[i] == before[i],
        0 <= s < done.len(),
        0 <= j < done[s].models@.len(),
    ensures
        model_merged(
            after[models_total(done.push(n).take(s)) + j],
            done.push(n)[s].models@[j],
            scene_mapping(done.push(n).take(s), done.push(n)[s], required),
        ),
{
    reveal(models_merged);
    let ns = done.push(n);
    assert(ns.take(s) =~= done.take(s));
    assert(ns[s] == done[s]);
    lemma_totals_prefix(done, s);
    let idx = models_total(done.take(s)) + j;
    assert(idx < before.len());
    assert(after[idx] == before[idx]);
    assert(models_total(ns.take(s)) == models_total(done.take(s)));
    assert(scene_mapping(ns.take(s), ns[s], required) == scene_mapping(done.take(s), done[s], required));
    assert(model_merged(before[idx], done[s].models@[j], scene_mapping(done.take(s), done[s], required)));
}

/// Appending the models of one more scene keeps the models merged.
proof fn lemma_models_step(
    before: Seq<Model>,
    after: Seq<Model>,
    done: Seq<Scene>,
    n: Scene,
    required: Seq<Rgba>,
    mapping: Seq<u32>,
)
    requires
        models_merged(before, done, required),
        all_grouped(done),
        after.len() == before.len() + n.models@.len(),
        forall|i: int| 0 <= i < before.len() ==> #[trigger] after[i] == before[i],
        forall|j: int| 0 <= j < n.models@.len() ==> model_merged(after[before.len() + j], #[trigger] n.models@[j], mapping),
        mapping == scene_mapping(done, n, required),
    ensures
        models_merged(after, done.push(n), required),
        after.len() == models_total(done.push(n)),
{
    reveal(models_merged);
    let ns = done.push(n);
    assert(ns.drop_last() =~= done);
    assert(ns.take(done.len() as int) =~= done);
    assert forall|s: int, j: int| 0 <= s < ns.len() && 0 <= j < ns[s].models@.len() implies model_merged(
        after[models_total(ns.take(s)) + j],
        #[trigger] ns[s].models@[j],
        scene_mapping(ns.take(s), ns[s], required),
    ) by {
        if s < done.len() {
            lemma_model_kept(before, after, done, n, required, s, j);
        } else {
            assert(ns[s] == n);
        }
    }
}

/// Appending the groups of one more scene keeps the groups merged.
proof fn lemma_groups_step(before: Seq<Group>, after: Seq<Group>, done: Seq<Scene>, n: Scene, shift: int)
    requires
        groups_merged(before, done),
        all_grouped(done),
        n.groups@.len() >= 1,
        after.len() == before.len() + n.groups@.len() - 1,
        forall|i: int| 0 <= i < before.len() ==> #[trigger] after[i] == before[i],
        forall|j: int|
            1 <= j < n.groups@.len() ==> after[before.len() + j - 1] == group_merged(
                #[trigger] n.groups@[j],
                before.len() as int,
                shift,
            ),
        shift == scene_shift(done, n),
    ensures
        groups_merged(after, done.push(n)),
        after.len() == groups_total(done.push(n)),
{
    reveal(groups_merged);
    let ns = done.push(n);
    assert(ns.drop_last() =~= done);
    assert(ns.take(done.len() as int) =~= done);
    lemma_groups_total_positive(done);
    assert forall|s: int, j: int| 0 <= s < ns.len() && 1 <= j < ns[s].groups@.len() implies after[groups_total(
        ns.take(s),
    ) + j - 1] == group_merged(#[trigger] ns[s].groups@[j], groups_total(ns.take(s)), scene_shift(ns.take(s), ns[s])) by {
        if s < done.len() {
            assert(ns.take(s) =~= done.take(s));
            assert(ns[s] == done[s]);
            lemma_totals_prefix(done, s);
            assert(before[groups_total(done.take(s)) + j - 1] == group_merged(
                done[s].groups@[j],
                groups_total(done.take(s)),
                scene_shift(done.take(s), done[s]),
            ));
        } else {
            assert(ns[s] == n);
        }
    }
}

/// Appending the instances of one more scene keeps the instances merged.
proof fn lemma_instances_step(
    before: Seq<Instance>,
    after: Seq<Instance>,
    done: Seq<Scene>,
    n: Scene,
    model_base: int,
    group_base: int,
    shift: int,
)
    requires
        instances_merged(before, done),
        all_grouped(done),
        after.len() == before.len() + n.instances@.len(),
        forall|i: int| 0 <= i < before.len() ==> #[trigger] after[i] == before[i],
        forall|j: int|
            0 <= j < n.instances@.len() ==> instance_merged(
                after[before.len() + j],
                #[trigger] n.instances@[j],
                model_base,
                group_base,
                shift,
            ),
        model_base == models_total(done),
        group_base == groups_total(done),
        shift == scene_shift(done, n),
    ensures
        instances_merged(after, done.push(n)),
{
    reveal(instances_merged);
    let ns = done.push(n);
    assert(ns.drop_last() =~= done);
    assert(ns.take(done.len() as int) =~= done);
    assert forall|s: int, j: int| 0 <= s < ns.len() && 0 <= j < ns[s].instances@.len() implies instance_merged(
        after[instances_total(ns.take(s)) + j],
        #[trigger] ns[s].instances@[j],
        models_total(ns.take(s)),
        groups_total(ns.take(s)),
        scene_shift(ns.take(s), ns[s]),
    ) by {
        if s < done.len() {
            assert(ns.take(s) =~= done.take(s));
            assert(ns[s] == done[s]);
            lemma_totals_prefix(done, s);
            assert(instance_merged(
                before[instances_total(done.take(s)) + j],
                done[s].instances@[j],
                models_total(done.take(s)),
                groups_total(done.take(s)),
                scene_shift(done.take(s), done[s]),
            ));
        } else {
            assert(ns[s] == n);
        }
    }
}

/// Placing the colors of one more scene: the master palette, its count and its
/// materials follow from those before by placing the scene's used colors, which
/// gives the scene's mapping.
proof fn lemma_palette_step(done: Seq<Scene>, n: Scene, required: Seq<Rgba>)
    ensures
        ({
            let (p, c, mats) = palette_after(done, required);
            let placed = place_colors(p, c, n.palette.colors@, used_colors(n), 256);
            &&& palette_after(done.push(n), required).0 == placed.0
            &&& palette_after(done.push(n), required).1 == placed.1
            &&& palette_after(done.push(n), required).2 == Seq::new(
                256,
                |i: int|
                    if placed.3[i] < 0 {
                        mats[i]
                    } else {
                        n.materials@[placed.3[i]]
                    },
            )
            &&& scene_mapping(done, n, required) == placed.2
        }),
{
    reveal(palette_after);
    reveal(scene_mapping);
    assert(done.push(n).drop_last() =~= done);
}

/// The layer that holds every node of a merged scene: named `merged`, opaque
/// white, shown.
fn merged_layer() -> (layer: Layer)
    ensures
        layer.name matches Some(name) && name@ == "merged"@,
        layer.color == (Rgba { r: 255, g: 255, b: 255, a: 255 }),
        !layer.hidden,
{
    Layer { name: Some("merged".to_owned()), color: Rgba { r: 255, g: 255, b: 255, a: 255 }, hidden: false }
}

/// Whether normalizing one of the scenes fails.
pub open spec fn any_normalization_fails(scenes: Seq<Scene>) -> bool {
    exists|i: int| 0 <= i < scenes.len() && normalization_fails(#[trigger] scenes[i])
}

/// Merges scenes side by side along x into one scene.
///
/// The required colors take palette slots `1` onwards, in order; then each
/// scene's used colors take the first slot with the same red, green and blue,
/// else a new slot with the color's material, else the nearest slot, and its
/// voxels follow. Each scene is normalized first; its groups besides the root
/// and its instances follow those of the scenes before, in one layer, under one
/// new root group. Nodes at a scene's root move along x so that the scene starts
/// where the one before ended, four further on. Slots that no color took are
/// magenta.
///
/// Fails with `TooManyRequiredColors` for more than 255 required colors, with
/// `InvalidData` when normalizing a scene fails, and with the error of the
/// reference check when the merged scene names a model, group or layer that it
/// lacks.
#[verifier::rlimit(50)]
pub(crate) fn merge_scenes(scenes: Vec<Scene>, required_colors: &[Rgba]) -> (r: Result<Scene, VoxError>)
    requires
        required_colors@.len() <= 255 ==> scenes@.len() <= 0x800_0000,
        required_colors@.len() <= 255 ==> forall|i: int| 0 <= i < scenes@.len() ==> mergeable(#[trigger] scenes@[i]),
    ensures
        required_colors@.len() > 255 ==> r == Err::<Scene, VoxError>(
            VoxError::TooManyRequiredColors(required_colors@.len() as usize),
        ),
        required_colors@.len() <= 255 && any_normalization_fails(scenes@) ==> r is Err && r->Err_0 is InvalidData,
        r is Ok ==> required_colors@.len() <= 255 && references_valid(r->Ok_0) && exists|ns: Seq<Scene>|
            #![trigger merged_from(r->Ok_0, ns, required_colors@)]
            normalized_all(scenes@, ns) && merged_from(r->Ok_0, ns, required_colors@),
        r is Err && required_colors@.len() <= 255 && !any_normalization_fails(scenes@) ==> (r->Err_0 is IndexOutOfBounds
            || r->Err_0 is InvalidData) && exists|ns: Seq<Scene>, m: Scene|
            #![trigger merged_from(m, ns, required_colors@)]
            normalized_all(scenes@, ns) && merged_from(m, ns, required_colors@) && !references_valid(m),
{
    if required_colors.len() > 255 {
        return Err(VoxError::TooManyRequiredColors(required_colors.len()));
    }
    let ghost required = required_colors@;
    let mut master_palette = [Rgba { r: 0, g: 0, b: 0, a: 0 }; 256];
    let mut master_materials = default_materials();
    let mut master_palette_count: usize = 1;
    let mut k: usize = 0;
    while k < required_colors.len()
        invariant
            k <= required.len() <= 255,
            required == required_colors@,
            master_palette_count == k + 1,
            forall|i: int|
                0 <= i < 256 ==> #[trigger] master_palette@[i] == if 1 <= i <= k {
                    required[i - 1]
                } else {
                    blank_color()
                },
        decreases required.len() - k,
    {
        master_palette[master_palette_count] = required_colors[k];
        master_palette_count += 1;
        k += 1;
    }
    proof {
        reveal(palette_after);
        assert(master_palette@ =~= initial_palette(required));
        assert(palette_after(Seq::<Scene>::empty(), required).0 == initial_palette(required));
    }
    let mut models: Vec<Model> = Vec::new();
    let mut groups: Vec<Group> = Vec::new();
    groups.push(default_root_group(Some(0)));
    let mut instances: Vec<Instance> = Vec::new();
    let mut offset_x: i64 = 0;
    let ghost inputs = scenes@;
    let ghost mut done: Seq<Scene> = Seq::empty();
    let mut remaining = scenes;
    assert(remaining@.skip(0) =~= remaining@);
    proof {
        reveal(models_merged);
        reveal(groups_merged);
        reveal(instances_merged);
        assert(models_merged(models@, done, required));
        assert(groups_merged(groups@, done));
        assert(instances_merged(instances@, done));
    }
    while remaining.len() > 0
        invariant
            required == required_colors@,
            inputs == scenes@,
            required.len() <= 255,
            inputs.len() <= 0x800_0000,
            forall|i: int| 0 <= i < inputs.len() ==> mergeable(#[trigger] inputs[i]),
            done.len() <= inputs.len(),
            remaining@ == inputs.skip(done.len() as int),
            forall|i: int| 0 <= i < done.len() ==> normalization(#[trigger] inputs[i], false, Ok(done[i])),
            forall|i: int| 0 <= i < done.len() ==> !normalization_fails(#[trigger] inputs[i]),
            all_grouped(done),
            master_palette@ == palette_after(done, required).0,
            master_palette_count == palette_after(done, required).1,
            1 <= master_palette_count <= 256,
            master_materials@.len() == 256,
            forall|i: int|
                0 <= i < 256 ==> same_material(#[trigger] master_materials@[i], palette_after(done, required).2[i]),
            models_merged(models@, done, required),
            models@.len() == models_total(done),
            groups_merged(groups@, done),
            groups@.len() == groups_total(done),
            instances_merged(instances@, done),
            offset_x == offset_total(done),
            0 <= offset_x <= done.len() * 0x2_0000_0004,
        decreases remaining@.len(),
    {
        let ghost k = done.len() as int;
        let scene = remaining.remove(0);
        assert(scene == inputs[k]);
        assert(remaining@ =~= inputs.skip(k + 1));
        let normalized = normalize_scene_graph(scene, false);
        proof {
            lemma_normalization_keeps(inputs[k], false, normalized);
        }
        let n = match normalized {
            Ok(n) => n,
            Err(e) => {
                assert(normalization_fails(inputs[k]));
                assert(any_normalization_fails(inputs));
                return Err(e);
            },
        };
        let ghost gn = n;
        proof {
            lemma_palette_step(done, n, required);
        }
        let mapping = update_master_palette_and_materials_from_scene(
            &mut master_palette,
            &mut master_palette_count,
            &n,
            &mut master_materials,
        );
        let (min_x, max_x) = scene_bounding_box_x(&n);
        let shift = offset_x - min_x;
        if n.groups.len() == 0 || n.groups[0].parent_group_index.is_some() {
            return Err(VoxError::InvalidData("merged scenes must have a root group at index 0".to_string()));
        }
        let model_base = models.len();
        let group_base = groups.len();
        let ghost models_before = models@;
        let ghost groups_before = groups@;
        let ghost instances_before = instances@;
        append_models(&mut models, n.models, &mapping);
        append_groups(&mut groups, n.groups, shift);
        append_instances(&mut instances, n.instances, model_base, group_base, shift);
        offset_x = offset_x + (max_x - min_x) + 4;
        proof {
            reveal(scene_shift);
            lemma_models_step(models_before, models@, done, gn, required, mapping@);
            lemma_groups_step(groups_before, groups@, done, gn, shift as int);
            lemma_instances_step(
                instances_before,
                instances@,
                done,
                gn,
                model_base as int,
                group_base as int,
                shift as int,
            );
            let next = done.push(gn);
            assert(next.drop_last() =~= done);
            done = next;
        }
    }
    let ghost count = master_palette_count as int;
    let mut slot = master_palette_count;
    while slot < 256
        invariant
            count <= slot <= 256,
            forall|i: int|
                0 <= i < 256 ==> #[trigger] master_palette@[i] == if i < count {
                    palette_after(done, required).0[i]
                } else if i < slot {
                    unused_slot_color()
                } else {
                    palette_after(done, required).0[i]
                },
        decreases 256 - slot,
    {
        master_palette[slot] = Rgba { r: 255, g: 0, b: 255, a: 255 };
        slot += 1;
    }
    let mut layers: Vec<Layer> = Vec::new();
    layers.push(merged_layer());
    let merged = Scene {
        file_version: 0,
        models,
        instances,
        layers,
        groups,
        color_names: Vec::new(),
        palette: Palette { colors: master_palette },
        materials: master_materials,
        cameras: Vec::new(),
        sun: None,
        anim_range_start: 0,
        anim_range_end: 30,
    };
    proof {
        assert(done.len() == inputs.len());
        assert(normalized_all(inputs, done));
        assert(merged_from(merged, done, required));
    }
    assert(!any_normalization_fails(inputs));
    match validate_scene_references(&merged) {
        Ok(()) => {
            assert(normalized_all(inputs, done) && merged_from(merged, done, required));
            Ok(merged)
        },
        Err(e) => {
            assert(normalized_all(inputs, done) && merged_from(merged, done, required) && !references_valid(merged));
            Err(e)
        },
    }
}

/// Normalizing keeps the models and the number of instances of every scene.
proof fn lemma_normalized_totals(scenes: Seq<Scene>, ns: Seq<Scene>)
    requires
        normalized_all(scenes, ns),
    ensures
        models_total(ns) == models_total(scenes),
        instances_total(ns) == instances_total(scenes),
    decreases scenes.len(),
{
    if scenes.len() > 0 {
        let k = scenes.len() - 1;
        lemma_normalization_keeps(scenes[k], false, Ok(ns[k]));
        assert(normalized_all(scenes.drop_last(), ns.drop_last())) by {
            assert forall|i: int| 0 <= i < scenes.drop_last().len() implies normalization(
                #[trigger] scenes.drop_last()[i],
                false,
                Ok(ns.drop_last()[i]),
            ) by {
                assert(scenes.drop_last()[i] == scenes[i]);
                assert(ns.drop_last()[i] == ns[i]);
            }
        }
        lemma_normalized_totals(scenes.drop_last(), ns.drop_last());
        assert(ns.last() == ns[k]);
        assert(scenes.last() == scenes[k]);
    }
}

/// Law: a merged scene holds as many models and instances as the scenes it
/// merges together, one layer named `merged`, and a root group `0` without a
/// parent.
pub proof fn merge_counts(scenes: Seq<Scene>, ns: Seq<Scene>, m: Scene, required: Seq<Rgba>)
    requires
        normalized_all(scenes, ns),
        merged_from(m, ns, required),
    ensures
        m.models@.len() == models_total(scenes),
        m.instances@.len() == instances_total(scenes),
        m.layers@.len() == 1,
        m.layers@[0].name matches Some(name) && name@ == "merged"@,
        m.groups@.len() >= 1,
        m.groups@[0].parent_group_index is None,
{
    reveal(models_merged);
    reveal(groups_merged);
    reveal(instances_merged);
    lemma_normalized_totals(scenes, ns);
    assert(all_grouped(ns)) by {
        assert forall|i: int| 0 <= i < ns.len() implies (#[trigger] ns[i]).groups@.len() >= 1 by {
            lemma_normalization_keeps(scenes[i], false, Ok(ns[i]));
        }
    }
    lemma_groups_total_positive(ns);
}

impl Scene {
    /// Merges scenes side by side along x into one scene, as
    /// [`merge_scenes`] describes.
    pub fn merge(scenes: Vec<Scene>, required_colors: &[Rgba]) -> (r: Result<Scene, VoxError>)
        requires
            required_colors@.len() <= 255 ==> scenes@.len() <= 0x800_0000,
            required_colors@.len() <= 255 ==> forall|i: int| 0 <= i < scenes@.len() ==> mergeable(#[trigger] scenes@[i]),
        ensures
            required_colors@.len() > 255 ==> r == Err::<Scene, VoxError>(
                VoxError::TooManyRequiredColors(required_colors@.len() as usize),
            ),
            required_colors@.len() <= 255 && any_normalization_fails(scenes@) ==> r is Err && r->Err_0 is InvalidData,
            r is Ok ==> required_colors@.len() <= 255 && references_valid(r->Ok_0) && exists|ns: Seq<Scene>|
                #![trigger merged_from(r->Ok_0, ns, required_colors@)]
                normalized_all(scenes@, ns) && merged_from(r->Ok_0, ns, required_colors@),
            r is Err && required_colors@.len() <= 255 && !any_normalization_fails(scenes@) ==> (r->Err_0 is IndexOutOfBounds
                || r->Err_0 is InvalidData) && exists|ns: Seq<Scene>, m: Scene|
                #![trigger merged_from(m, ns, required_colors@)]
                normalized_all(scenes@, ns) && merged_from(m, ns, required_colors@) && !references_valid(m),
    {
        merge_scenes(scenes, required_colors)
    }
}

/// A scene's extent along x never runs backwards.
proof fn lemma_x_bounds_ordered(s: Scene)
    ensures
        x_bounds(s).0 <= x_bounds(s).1,
{
    crate::merge::lemma_x_extent_bounds(s, s.instances@.len() as int);
}

/// Placing more scenes never moves the next one back.
proof fn lemma_offset_grows(ns: Seq<Scene>, i: int, j: int)
    requires
        0 <= i <= j <= ns.len(),
    ensures
        offset_total(ns.take(i)) <= offset_total(ns.take(j)),
        i < j ==> offset_total(ns.take(i)) + x_bounds(ns[i]).1 - x_bounds(ns[i]).0 + 4 <= offset_total(ns.take(j)),
    decreases j - i,
{
    if i < j {
        lemma_offset_grows(ns, i, j - 1);
        let t = ns.take(j);
        assert(t.drop_last() =~= ns.take(j - 1));
        assert(t.last() == ns[j - 1]);
        lemma_x_bounds_ordered(ns[j - 1]);
    }
}

/// Law: scenes merged side by side never overlap along x: with the shift that
/// merging gives each scene, every scene ends at least four voxels before any
/// later scene begins.
pub proof fn merged_scenes_keep_apart(ns: Seq<Scene>, i: int, j: int)
    requires
        0 <= i < j < ns.len(),
    ensures
        x_bounds(ns[i]).1 + scene_shift(ns.take(i), ns[i]) + 4 <= x_bounds(ns[j]).0 + scene_shift(ns.take(j), ns[j]),
{
    reveal(scene_shift);
    lemma_offset_grows(ns, i, j);
}

} // verus!
