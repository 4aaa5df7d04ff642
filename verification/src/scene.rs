use vstd::prelude::*;

use crate::transform::{valid_rotation, CardinalTransform};
use crate::types::{
    raw_default_color, scene_palette_color, AnimModel, CameraMode, KeyframeModel, Layer,
    MaterialType, MediaType, Model, Palette, Rgba, VoxError,
};

verus! {

/// A transform sampled at a specific animation frame.
#[derive(Clone, Copy, Debug, PartialEq, Eq, Structural)]
pub struct KeyframeTransform {
    /// Frame at which this transform applies.
    pub frame_index: u32,
    /// Transform value for the frame.
    pub transform: CardinalTransform,
}

/// Transform keyframes and looping state for a node.
#[derive(Clone, Debug, PartialEq, Eq)]
pub struct AnimTransform {
    /// Ordered transform keyframes.
    pub keyframes: Vec<KeyframeTransform>,
    /// Whether animation should loop.
    pub looped: bool,
}

impl Default for AnimTransform {
    fn default() -> (anim: Self)
        ensures
            anim.keyframes@.len() == 0,
            !anim.looped,
    {
        AnimTransform { keyframes: Vec::new(), looped: false }
    }
}

impl AnimTransform {
    /// Returns `true` when no transform keyframes are stored.
    pub fn is_empty(&self) -> (empty: bool)
        ensures
            empty == (self.keyframes@.len() == 0),
    {
        self.keyframes.len() == 0
    }
}

/// A scene instance referencing one model and optional parents in the scene graph.
#[derive(Clone, Debug, PartialEq, Eq)]
pub struct Instance {
    /// Optional instance name.
    pub name: Option<String>,
    /// Local transform.
    pub transform: CardinalTransform,
    /// Index into `Scene::models`.
    pub model_index: usize,
    /// Optional index into `Scene::layers`.
    pub layer_index: Option<usize>,
    /// Optional index into `Scene::groups`.
    pub group_index: Option<usize>,
    /// Whether the instance is hidden.
    pub hidden: bool,
    /// Transform animation for the instance.
    pub transform_anim: AnimTransform,
    /// Model selection animation for the instance.
    pub model_anim: AnimModel,
}

/// A group node in the scene graph.
#[derive(Clone, Debug, PartialEq, Eq)]
pub struct Group {
    /// Optional group name.
    pub name: Option<String>,
    /// Local transform.
    pub transform: CardinalTransform,
    /// Optional parent group index.
    pub parent_group_index: Option<usize>,
    /// Optional layer index.
    pub layer_index: Option<usize>,
    /// Whether the group is hidden.
    pub hidden: bool,
    /// Transform animation for the group.
    pub transform_anim: AnimTransform,
}

/// The text of a scalar property as the file stores it, before it is read as a
/// 32-bit float.
#[derive(Clone, Debug, PartialEq, Eq)]
pub enum ScalarText {
    /// Decimal text of the value.
    Decimal(Vec<u8>),
    /// Decimal text of a refractive index; the value is one less than it.
    RefractiveIndex(Vec<u8>),
    /// The bits of the value, as the legacy `MATT` chunk stores them.
    Bits(u32),
}

/// Material properties attached to a palette entry.
#[derive(Clone, Debug, PartialEq, Eq)]
pub struct Material {
    /// Material family.
    pub material_type: MaterialType,
    /// Media interaction mode.
    pub media_type: MediaType,
    /// Optional value for the `_metal` property.
    pub metal: Option<ScalarText>,
    /// Optional value for the `_rough` property.
    pub rough: Option<ScalarText>,
    /// Optional value for the `_spec` property.
    pub spec: Option<ScalarText>,
    /// Optional value for the `_ior` property.
    pub ior: Option<ScalarText>,
    /// Optional value for the `_att` property.
    pub att: Option<ScalarText>,
    /// Optional value for the `_flux` property.
    pub flux: Option<ScalarText>,
    /// Optional value for the `_emit` property.
    pub emit: Option<ScalarText>,
    /// Optional value for the `_ldr` property.
    pub ldr: Option<ScalarText>,
    /// Optional value for the `_trans` property.
    pub trans: Option<ScalarText>,
    /// Optional value for the `_alpha` property.
    pub alpha: Option<ScalarText>,
    /// Optional value for the `_d` property.
    pub d: Option<ScalarText>,
    /// Optional value for the `_sp` property.
    pub sp: Option<ScalarText>,
    /// Optional value for the `_g` property.
    pub g: Option<ScalarText>,
    /// Optional value for the `_media` property.
    pub media: Option<ScalarText>,
}

impl Default for Material {
    fn default() -> (m: Self)
        ensures
            m.material_type == MaterialType::Diffuse,
            m.media_type == MediaType::Absorb,
            !m.has_any(),
    {
        Material {
            material_type: MaterialType::Diffuse,
            media_type: MediaType::Absorb,
            metal: None,
            rough: None,
            spec: None,
            ior: None,
            att: None,
            flux: None,
            emit: None,
            ldr: None,
            trans: None,
            alpha: None,
            d: None,
            sp: None,
            g: None,
            media: None,
        }
    }
}

impl Material {
    /// Whether any material property is set.
    pub open spec fn has_any(&self) -> bool {
        self.metal is Some || self.rough is Some || self.spec is Some || self.ior is Some
            || self.att is Some || self.flux is Some || self.emit is Some || self.ldr is Some
            || self.trans is Some || self.alpha is Some || self.d is Some || self.sp is Some
            || self.g is Some || self.media is Some
    }

    /// Returns `true` if any material property is set.
    pub fn has_content(&self) -> (b: bool)
        ensures
            b == self.has_any(),
    {
        self.metal.is_some() || self.rough.is_some() || self.spec.is_some() || self.ior.is_some()
            || self.att.is_some() || self.flux.is_some() || self.emit.is_some()
            || self.ldr.is_some() || self.trans.is_some() || self.alpha.is_some()
            || self.d.is_some() || self.sp.is_some() || self.g.is_some() || self.media.is_some()
    }
}

/// A camera definition stored in a scene. Its scalar settings keep the text of
/// the file.
#[derive(Clone, Debug, PartialEq, Eq)]
pub struct Camera {
    /// Stable camera identifier.
    pub camera_id: u32,
    /// Camera projection mode.
    pub mode: CameraMode,
    /// Text of the focus point in scene space: three numbers.
    pub focus: Option<Vec<u8>>,
    /// Text of the Euler angles in degrees: three numbers.
    pub angle: Option<Vec<u8>>,
    /// Text of the distance from the focus point.
    pub radius: Option<Vec<u8>>,
    /// Text of the frustum parameter used by some camera modes.
    pub frustum: Option<Vec<u8>>,
    /// Field of view in degrees.
    pub fov: i32,
}

/// Global sun and sky lighting parameters. Its scalar settings keep the text of
/// the file; absent ones take the defaults of the format.
#[derive(Clone, Debug, PartialEq, Eq)]
pub struct Sun {
    /// Text of the light intensity.
    pub intensity: Option<Vec<u8>>,
    /// Text of the light area.
    pub area: Option<Vec<u8>>,
    /// Text of the sun angles in degrees: two numbers.
    pub angle: Option<Vec<u8>>,
    /// Light color.
    pub rgba: Rgba,
    /// Whether the light renders as a disk.
    pub disk: bool,
}

/// The complete in-memory representation of a `.vox` file.
#[derive(Clone, Debug, PartialEq, Eq)]
pub struct Scene {
    /// File version reported by the source file.
    pub file_version: u32,
    /// Voxel models referenced by the scene graph.
    pub models: Vec<Model>,
    /// Scene instances referencing models and groups.
    pub instances: Vec<Instance>,
    /// Scene layers.
    pub layers: Vec<Layer>,
    /// Scene groups.
    pub groups: Vec<Group>,
    /// Optional color names from `NOTE` chunks.
    pub color_names: Vec<String>,
    /// Active palette.
    pub palette: Palette,
    /// Per-palette-entry material data: one material for each of the 256 entries.
    pub materials: Vec<Material>,
    /// Cameras defined in the scene.
    pub cameras: Vec<Camera>,
    /// Optional sun/light definition.
    pub sun: Option<Sun>,
    /// Start frame for animation playback.
    pub anim_range_start: u32,
    /// End frame for animation playback.
    pub anim_range_end: u32,
}

/// 256 materials without properties.
pub fn default_materials() -> (materials: Vec<Material>)
    ensures
        materials@.len() == 256,
        forall|i: int|
            0 <= i < 256 ==> !(#[trigger] materials@[i]).has_any()
                && materials@[i].material_type == MaterialType::Diffuse
                && materials@[i].media_type == MediaType::Absorb,
{
    let mut materials: Vec<Material> = Vec::new();
    let mut index: usize = 0;
    while index < 256
        invariant
            index <= 256,
            materials@.len() == index,
            forall|i: int|
                0 <= i < index ==> !(#[trigger] materials@[i]).has_any()
                    && materials@[i].material_type == MaterialType::Diffuse
                    && materials@[i].media_type == MediaType::Absorb,
        decreases 256 - index,
    {
        materials.push(Material::default());
        index += 1;
    }
    materials
}

impl Default for Scene {
    fn default() -> (scene: Self)
        ensures
            scene.file_version == 150,
            scene.models@.len() == 0,
            scene.instances@.len() == 0,
            scene.layers@.len() == 0,
            scene.groups@.len() == 0,
            scene.color_names@.len() == 0,
            scene.cameras@.len() == 0,
            scene.sun is None,
            scene.anim_range_start == 0,
            scene.anim_range_end == 30,
            scene.materials@.len() == 256,
            forall|i: int| 0 <= i < 256 ==> !(#[trigger] scene.materials@[i]).has_any(),
            forall|i: int|
                0 <= i < 256 ==> #[trigger] scene.palette.colors@[i] == scene_palette_color(
                    Seq::new(256, |j: int| raw_default_color(j)),
                    i,
                ),
    {
        Scene {
            file_version: 150,
            models: Vec::new(),
            instances: Vec::new(),
            layers: Vec::new(),
            groups: Vec::new(),
            color_names: Vec::new(),
            palette: Palette::default(),
            materials: default_materials(),
            cameras: Vec::new(),
            sun: None,
            anim_range_start: 0,
            anim_range_end: 30,
        }
    }
}

} // verus!

verus! {

/// Whether `index` names one of `len` entries, when present.
pub open spec fn ref_ok(index: Option<usize>, len: nat) -> bool {
    match index {
        Some(i) => i < len,
        None => true,
    }
}

/// Whether group `i` has a parent and a layer that exist, and is not its own
/// parent.
pub open spec fn group_refs_ok(groups: Seq<Group>, layers_len: nat, i: int) -> bool {
    let g = groups[i];
    &&& ref_ok(g.parent_group_index, groups.len())
    &&& g.parent_group_index != Some(i as usize)
    &&& ref_ok(g.layer_index, layers_len)
}

/// Whether every keyframe names one of `models_len` models.
pub open spec fn keyframe_models_ok(keyframes: Seq<KeyframeModel>, models_len: nat) -> bool {
    forall|k: int| 0 <= k < keyframes.len() ==> (#[trigger] keyframes[k]).model_index < models_len
}

/// Whether an instance names a model, layer, group and keyframe models that exist.
pub open spec fn instance_refs_ok(inst: Instance, models_len: nat, layers_len: nat, groups_len: nat) -> bool {
    &&& inst.model_index < models_len
    &&& ref_ok(inst.layer_index, layers_len)
    &&& ref_ok(inst.group_index, groups_len)
    &&& keyframe_models_ok(inst.model_anim.keyframes@, models_len)
}

/// Whether every group names a parent and a layer that exist.
pub open spec fn groups_valid(groups: Seq<Group>, layers_len: nat) -> bool {
    forall|i: int| 0 <= i < groups.len() ==> #[trigger] group_refs_ok(groups, layers_len, i)
}

/// Whether every instance names a model, layer, group and keyframe models that exist.
pub open spec fn instances_valid(instances: Seq<Instance>, models_len: nat, layers_len: nat, groups_len: nat) -> bool {
    forall|i: int|
        0 <= i < instances.len() ==> #[trigger] instance_refs_ok(
            instances[i],
            models_len,
            layers_len,
            groups_len,
        )
}

/// Whether every index stored in `scene` names an entry that exists.
pub open spec fn references_valid(scene: Scene) -> bool {
    &&& groups_valid(scene.groups@, scene.layers@.len())
    &&& instances_valid(
        scene.instances@,
        scene.models@.len(),
        scene.layers@.len(),
        scene.groups@.len(),
    )
}

/// Checks the parent and layer of every group.
fn validate_groups(groups: &Vec<Group>, layers_len: usize) -> (r: Result<(), VoxError>)
    ensures
        r is Ok <==> groups_valid(groups@, layers_len as nat),
        r matches Err(e) ==> (e matches VoxError::IndexOutOfBounds { .. } || e matches VoxError::InvalidData(_)),
{
    let groups_len = groups.len();
    let mut index: usize = 0;
    while index < groups_len
        invariant
            index <= groups_len,
            groups_len == groups@.len(),
            forall|i: int| 0 <= i < index ==> #[trigger] group_refs_ok(groups@, layers_len as nat, i),
        decreases groups_len - index,
    {
        let group = &groups[index];
        if let Some(parent) = group.parent_group_index {
            if parent >= groups_len {
                assert(!group_refs_ok(groups@, layers_len as nat, index as int));
                return Err(VoxError::IndexOutOfBounds { kind: "group", index: parent, len: groups_len });
            }
            if parent == index {
                assert(!group_refs_ok(groups@, layers_len as nat, index as int));
                return Err(VoxError::InvalidData("group cannot parent itself".to_string()));
            }
        }
        if let Some(layer) = group.layer_index {
            if layer >= layers_len {
                assert(!group_refs_ok(groups@, layers_len as nat, index as int));
                return Err(VoxError::IndexOutOfBounds { kind: "layer", index: layer, len: layers_len });
            }
        }
        index += 1;
    }
    Ok(())
}

/// Checks the model, layer, group and keyframe models of one instance.
fn validate_instance(instance: &Instance, models_len: usize, layers_len: usize, groups_len: usize) -> (r: Result<
    (),
    VoxError,
>)
    ensures
        r is Ok <==> instance_refs_ok(*instance, models_len as nat, layers_len as nat, groups_len as nat),
        r matches Err(e) ==> e matches VoxError::IndexOutOfBounds { .. },
{
    if instance.model_index >= models_len {
        return Err(
            VoxError::IndexOutOfBounds { kind: "model", index: instance.model_index, len: models_len },
        );
    }
    if let Some(layer) = instance.layer_index {
        if layer >= layers_len {
            return Err(VoxError::IndexOutOfBounds { kind: "layer", index: layer, len: layers_len });
        }
    }
    if let Some(group) = instance.group_index {
        if group >= groups_len {
            return Err(VoxError::IndexOutOfBounds { kind: "group", index: group, len: groups_len });
        }
    }
    let keyframes = &instance.model_anim.keyframes;
    let mut k: usize = 0;
    while k < keyframes.len()
        invariant
            k <= keyframes@.len(),
            keyframes@ == instance.model_anim.keyframes@,
            instance.model_index < models_len,
            ref_ok(instance.layer_index, layers_len as nat),
            ref_ok(instance.group_index, groups_len as nat),
            forall|j: int| 0 <= j < k ==> (#[trigger] keyframes@[j]).model_index < models_len,
        decreases keyframes@.len() - k,
    {
        if keyframes[k].model_index >= models_len {
            assert(!keyframe_models_ok(keyframes@, models_len as nat));
            return Err(
                VoxError::IndexOutOfBounds { kind: "model", index: keyframes[k].model_index, len: models_len },
            );
        }
        k += 1;
    }
    Ok(())
}

/// Checks that every index stored in `scene` names an entry that exists.
pub fn validate_scene_references(scene: &Scene) -> (r: Result<(), VoxError>)
    ensures
        r is Ok <==> references_valid(*scene),
        r matches Err(e) ==> (e matches VoxError::IndexOutOfBounds { .. } || e matches VoxError::InvalidData(_)),
{
    let models_len = scene.models.len();
    let layers_len = scene.layers.len();
    let groups_len = scene.groups.len();
    let checked = validate_groups(&scene.groups, layers_len);
    if checked.is_err() {
        return checked;
    }
    let instances = &scene.instances;
    let mut index: usize = 0;
    while index < instances.len()
        invariant
            index <= instances@.len(),
            instances@ == scene.instances@,
            models_len == scene.models@.len(),
            layers_len == scene.layers@.len(),
            groups_len == scene.groups@.len(),
            groups_valid(scene.groups@, scene.layers@.len()),
            forall|i: int|
                0 <= i < index ==> #[trigger] instance_refs_ok(
                    instances@[i],
                    models_len as nat,
                    layers_len as nat,
                    groups_len as nat,
                ),
        decreases instances@.len() - index,
    {
        let r = validate_instance(&instances[index], models_len, layers_len, groups_len);
        if r.is_err() {
            assert(!instance_refs_ok(instances@[index as int], models_len as nat, layers_len as nat, groups_len as nat));
            return r;
        }
        index += 1;
    }
    Ok(())
}

} // verus!

verus! {

/// `index`, or layer `0` when it is absent and `fill` holds.
pub open spec fn layer_after(index: Option<usize>, fill: bool) -> Option<usize> {
    if fill && index is None {
        Some(0)
    } else {
        index
    }
}

/// Gives every instance without a layer the layer `0`.
fn fill_instance_layers(instances: &mut Vec<Instance>)
    ensures
        final(instances)@.len() == old(instances)@.len(),
        forall|i: int|
            0 <= i < old(instances)@.len() ==> #[trigger] final(instances)@[i] == (Instance {
                layer_index: layer_after(old(instances)@[i].layer_index, true),
                ..old(instances)@[i]
            }),
{
    let mut index: usize = 0;
    while index < instances.len()
        invariant
            index <= instances@.len(),
            instances@.len() == old(instances)@.len(),
            forall|i: int|
                0 <= i < index ==> #[trigger] instances@[i] == (Instance {
                    layer_index: layer_after(old(instances)@[i].layer_index, true),
                    ..old(instances)@[i]
                }),
            forall|i: int| index <= i < instances@.len() ==> #[trigger] instances@[i] == old(instances)@[i],
        decreases instances@.len() - index,
    {
        if instances[index].layer_index.is_none() {
            instances[index].layer_index = Some(0);
        }
        index += 1;
    }
}

} // verus!

verus! {

/// Whether `g` is the root group that normalization adds: no name, the identity
/// transform, no parent, the given layer, shown, and no animation.
pub open spec fn is_added_root(g: Group, layer: Option<usize>) -> bool {
    &&& g.name is None
    &&& g.transform == (CardinalTransform { rotation: 4, tx: 0, ty: 0, tz: 0 })
    &&& g.parent_group_index is None
    &&& g.layer_index == layer
    &&& !g.hidden
    &&& g.transform_anim.keyframes@.len() == 0
    &&& !g.transform_anim.looped
}

/// The root group that normalization adds, in the given layer.
pub fn default_root_group(layer_index: Option<usize>) -> (g: Group)
    ensures
        is_added_root(g, layer_index),
{
    Group {
        name: None,
        transform: CardinalTransform::identity(),
        parent_group_index: None,
        layer_index,
        hidden: false,
        transform_anim: AnimTransform::default(),
    }
}

/// The layer that normalization adds when a scene has none.
pub open spec fn added_layer() -> Layer {
    Layer { name: None, color: Rgba { r: 0, g: 0, b: 0, a: 0 }, hidden: false }
}

/// The layer that normalization adds when a scene has none: no name, all color
/// channels zero, shown.
pub fn default_layer_on_missing_scene_layer() -> (layer: Layer)
    ensures
        layer == added_layer(),
{
    Layer { name: None, color: Rgba { r: 0, g: 0, b: 0, a: 0 }, hidden: false }
}

/// The layer a `LAYR` chunk starts from: no name, opaque white, shown.
pub fn default_layer_from_chunk() -> (layer: Layer)
    ensures
        layer == (Layer { name: None, color: Rgba { r: 255, g: 255, b: 255, a: 255 }, hidden: false }),
{
    Layer { name: None, color: Rgba { r: 255, g: 255, b: 255, a: 255 }, hidden: false }
}

/// A group index moved up by one for the added root, or the added root itself
/// when there was none.
pub open spec fn shifted(index: Option<usize>) -> Option<usize> {
    match index {
        Some(g) => Some((g + 1) as usize),
        None => Some(0),
    }
}

/// Whether no group index below `scene` is the largest `usize`, so that it can be
/// moved up by one.
pub open spec fn group_indices_shiftable(scene: Scene) -> bool {
    &&& forall|i: int|
        0 <= i < scene.groups@.len() ==> (#[trigger] scene.groups@[i]).parent_group_index
            != Some(usize::MAX)
    &&& forall|i: int|
        0 <= i < scene.instances@.len() ==> (#[trigger] scene.instances@[i]).group_index != Some(
            usize::MAX,
        )
}

/// Whether exactly group `0` has no parent.
pub open spec fn single_root_at_zero(groups: Seq<Group>) -> bool {
    &&& groups.len() > 0
    &&& groups[0].parent_group_index is None
    &&& forall|i: int| 1 <= i < groups.len() ==> (#[trigger] groups[i]).parent_group_index is Some
}

/// Whether some group has no parent.
pub open spec fn has_root(groups: Seq<Group>) -> bool {
    exists|i: int| 0 <= i < groups.len() && (#[trigger] groups[i]).parent_group_index is None
}

/// Gives every group without a layer the layer `0`.
fn fill_group_layers(groups: &mut Vec<Group>)
    ensures
        final(groups)@.len() == old(groups)@.len(),
        forall|i: int|
            0 <= i < old(groups)@.len() ==> #[trigger] final(groups)@[i] == (Group {
                layer_index: layer_after(old(groups)@[i].layer_index, true),
                ..old(groups)@[i]
            }),
{
    let mut index: usize = 0;
    while index < groups.len()
        invariant
            index <= groups@.len(),
            groups@.len() == old(groups)@.len(),
            forall|i: int|
                0 <= i < index ==> #[trigger] groups@[i] == (Group {
                    layer_index: layer_after(old(groups)@[i].layer_index, true),
                    ..old(groups)@[i]
                }),
            forall|i: int| index <= i < groups@.len() ==> #[trigger] groups@[i] == old(groups)@[i],
        decreases groups@.len() - index,
    {
        if groups[index].layer_index.is_none() {
            groups[index].layer_index = Some(0);
        }
        index += 1;
    }
}

/// Puts every instance into group `0`, or only those without a group when
/// `only_missing` holds.
fn root_instance_groups(instances: &mut Vec<Instance>, only_missing: bool)
    ensures
        final(instances)@.len() == old(instances)@.len(),
        forall|i: int|
            0 <= i < old(instances)@.len() ==> #[trigger] final(instances)@[i] == (Instance {
                group_index: if only_missing && old(instances)@[i].group_index is Some {
                    old(instances)@[i].group_index
                } else {
                    Some(0)
                },
                ..old(instances)@[i]
            }),
{
    let mut index: usize = 0;
    while index < instances.len()
        invariant
            index <= instances@.len(),
            instances@.len() == old(instances)@.len(),
            forall|i: int|
                0 <= i < index ==> #[trigger] instances@[i] == (Instance {
                    group_index: if only_missing && old(instances)@[i].group_index is Some {
                        old(instances)@[i].group_index
                    } else {
                        Some(0)
                    },
                    ..old(instances)@[i]
                }),
            forall|i: int| index <= i < instances@.len() ==> #[trigger] instances@[i] == old(instances)@[i],
        decreases instances@.len() - index,
    {
        if !only_missing || instances[index].group_index.is_none() {
            instances[index].group_index = Some(0);
        }
        index += 1;
    }
}

/// Moves every instance's group up by one, and puts instances without a group
/// into group `0`.
fn shift_instance_groups(instances: &mut Vec<Instance>)
    requires
        forall|i: int|
            0 <= i < old(instances)@.len() ==> (#[trigger] old(instances)@[i]).group_index != Some(
                usize::MAX,
            ),
    ensures
        final(instances)@.len() == old(instances)@.len(),
        forall|i: int|
            0 <= i < old(instances)@.len() ==> #[trigger] final(instances)@[i] == (Instance {
                group_index: shifted(old(instances)@[i].group_index),
                ..old(instances)@[i]
            }),
{
    let mut index: usize = 0;
    while index < instances.len()
        invariant
            index <= instances@.len(),
            instances@.len() == old(instances)@.len(),
            forall|i: int|
                0 <= i < old(instances)@.len() ==> (#[trigger] old(instances)@[i]).group_index
                    != Some(usize::MAX),
            forall|i: int|
                0 <= i < index ==> #[trigger] instances@[i] == (Instance {
                    group_index: shifted(old(instances)@[i].group_index),
                    ..old(instances)@[i]
                }),
            forall|i: int| index <= i < instances@.len() ==> #[trigger] instances@[i] == old(instances)@[i],
        decreases instances@.len() - index,
    {
        let next = match instances[index].group_index {
            Some(g) => Some(g + 1),
            None => Some(0),
        };
        instances[index].group_index = next;
        index += 1;
    }
}

/// Moves every group's parent up by one, and gives groups without a parent the
/// parent `0`.
fn shift_group_parents(groups: &mut Vec<Group>)
    requires
        forall|i: int|
            0 <= i < old(groups)@.len() ==> (#[trigger] old(groups)@[i]).parent_group_index != Some(
                usize::MAX,
            ),
    ensures
        final(groups)@.len() == old(groups)@.len(),
        forall|i: int|
            0 <= i < old(groups)@.len() ==> #[trigger] final(groups)@[i] == (Group {
                parent_group_index: shifted(old(groups)@[i].parent_group_index),
                ..old(groups)@[i]
            }),
{
    let mut index: usize = 0;
    while index < groups.len()
        invariant
            index <= groups@.len(),
            groups@.len() == old(groups)@.len(),
            forall|i: int|
                0 <= i < old(groups)@.len() ==> (#[trigger] old(groups)@[i]).parent_group_index
                    != Some(usize::MAX),
            forall|i: int|
                0 <= i < index ==> #[trigger] groups@[i] == (Group {
                    parent_group_index: shifted(old(groups)@[i].parent_group_index),
                    ..old(groups)@[i]
                }),
            forall|i: int| index <= i < groups@.len() ==> #[trigger] groups@[i] == old(groups)@[i],
        decreases groups@.len() - index,
    {
        let next = match groups[index].parent_group_index {
            Some(g) => Some(g + 1),
            None => Some(0),
        };
        groups[index].parent_group_index = next;
        index += 1;
    }
}

/// Counts the groups without a parent, and tells whether group `0` is the only one.
fn root_groups(groups: &Vec<Group>) -> (r: (bool, bool))
    ensures
        r.0 == has_root(groups@),
        r.1 == single_root_at_zero(groups@),
{
    let mut count: usize = 0;
    let mut first_is_root = false;
    let mut index: usize = 0;
    while index < groups.len()
        invariant
            index <= groups@.len(),
            count <= index,
            count == 0 <==> forall|i: int| 0 <= i < index ==> (#[trigger] groups@[i]).parent_group_index is Some,
            count == 1 && first_is_root <==> (index > 0 && groups@[0].parent_group_index is None
                && forall|i: int| 1 <= i < index ==> (#[trigger] groups@[i]).parent_group_index is Some),
            first_is_root ==> index > 0 && groups@[0].parent_group_index is None,
        decreases groups@.len() - index,
    {
        if groups[index].parent_group_index.is_none() {
            if index == 0 {
                first_is_root = true;
            }
            count += 1;
        }
        index += 1;
    }
    proof {
        if count > 0 {
            let i = choose|i: int| 0 <= i < index && (#[trigger] groups@[i]).parent_group_index is None;
            assert(has_root(groups@));
        }
    }
    (count > 0, count == 1 && first_is_root)
}

} // verus!

verus! {

/// Whether `r` holds what `s` holds besides its layers, groups and instances.
pub open spec fn same_content(r: Scene, s: Scene) -> bool {
    &&& r.file_version == s.file_version
    &&& r.models == s.models
    &&& r.color_names == s.color_names
    &&& r.palette == s.palette
    &&& r.materials == s.materials
    &&& r.cameras == s.cameras
    &&& r.sun == s.sun
    &&& r.anim_range_start == s.anim_range_start
    &&& r.anim_range_end == s.anim_range_end
}

/// Whether some instance names a group.
pub open spec fn some_instance_grouped(instances: Seq<Instance>) -> bool {
    exists|i: int| 0 <= i < instances.len() && (#[trigger] instances[i]).group_index is Some
}

/// Whether some instance names a group.
fn any_grouped(instances: &Vec<Instance>) -> (b: bool)
    ensures
        b == some_instance_grouped(instances@),
{
    let mut index: usize = 0;
    while index < instances.len()
        invariant
            index <= instances@.len(),
            forall|i: int| 0 <= i < index ==> (#[trigger] instances@[i]).group_index is None,
        decreases instances@.len() - index,
    {
        if instances[index].group_index.is_some() {
            return true;
        }
        index += 1;
    }
    false
}

/// What normalizing `scene` gives: `r`, an error exactly when a scene without
/// groups has a grouped instance or a scene with groups has no root, and
/// otherwise the scene brought into shape as [`normalize_scene_graph`] says.
#[verifier::opaque]
pub open spec fn normalization(scene: Scene, ensure_layer: bool, r: Result<Scene, VoxError>) -> bool {
            let fill = ensure_layer && scene.layers@.len() == 0;
            let root_layer = if ensure_layer {
                Some(0usize)
            } else {
                None
            };
            let inst = |i: int| Instance {
                layer_index: layer_after(scene.instances@[i].layer_index, fill),
                ..scene.instances@[i]
            };
            let grp = |i: int| Group {
                layer_index: layer_after(scene.groups@[i].layer_index, fill),
                ..scene.groups@[i]
            };
            &&& r is Err <==> ((scene.groups@.len() == 0 && some_instance_grouped(scene.instances@))
                || (scene.groups@.len() > 0 && !has_root(scene.groups@)))
            &&& r is Err ==> r->Err_0 is InvalidData
            &&& (r is Ok ==> {
                let n = r->Ok_0;
                &&& same_content(n, scene)
                &&& n.layers@ == if fill {
                    scene.layers@.push(added_layer())
                } else {
                    scene.layers@
                }
                &&& n.instances@.len() == scene.instances@.len()
                &&& if scene.groups@.len() == 0 {
                    &&& n.groups@.len() == 1
                    &&& is_added_root(n.groups@[0], root_layer)
                    &&& forall|i: int|
                        0 <= i < scene.instances@.len() ==> #[trigger] n.instances@[i] == (Instance {
                            group_index: Some(0),
                            ..inst(i)
                        })
                } else if single_root_at_zero(scene.groups@) {
                    &&& n.groups@.len() == scene.groups@.len()
                    &&& forall|i: int| 0 <= i < scene.groups@.len() ==> #[trigger] n.groups@[i] == grp(i)
                    &&& forall|i: int|
                        0 <= i < scene.instances@.len() ==> #[trigger] n.instances@[i] == (Instance {
                            group_index: if scene.instances@[i].group_index is Some {
                                scene.instances@[i].group_index
                            } else {
                                Some(0)
                            },
                            ..inst(i)
                        })
                } else {
                    &&& n.groups@.len() == scene.groups@.len() + 1
                    &&& is_added_root(n.groups@[0], root_layer)
                    &&& forall|i: int|
                        0 <= i < scene.groups@.len() ==> #[trigger] n.groups@[i + 1] == (Group {
                            parent_group_index: shifted(scene.groups@[i].parent_group_index),
                            ..grp(i)
                        })
                    &&& forall|i: int|
                        0 <= i < scene.instances@.len() ==> #[trigger] n.instances@[i] == (Instance {
                            group_index: shifted(scene.instances@[i].group_index),
                            ..inst(i)
                        })
                }
            })
        }

/// What a normalization keeps: it fails exactly when a scene without groups has
/// a grouped instance or a scene with groups has no root; otherwise it keeps the
/// models and materials, the number of instances, adds at most one group, and
/// group `0` has no parent.
pub proof fn lemma_normalization_keeps(scene: Scene, ensure_layer: bool, r: Result<Scene, VoxError>)
    requires
        normalization(scene, ensure_layer, r),
    ensures
        r is Err <==> ((scene.groups@.len() == 0 && some_instance_grouped(scene.instances@)) || (
        scene.groups@.len() > 0 && !has_root(scene.groups@))),
        r is Err ==> r->Err_0 is InvalidData,
        r is Ok ==> same_content(r->Ok_0, scene) && r->Ok_0.instances@.len() == scene.instances@.len()
            && r->Ok_0.groups@.len() <= scene.groups@.len() + 1,
        r is Ok ==> r->Ok_0.groups@.len() > 0 && r->Ok_0.groups@[0].parent_group_index is None,
{
    reveal(normalization);
}

/// Brings `scene` into the shape that writing and merging expect: group `0` is
/// the only group without a parent, every instance belongs to a group, and, when
/// `ensure_layer` holds, there is a layer and every node belongs to one.
///
/// A scene without groups gets a root group that every instance joins. A scene
/// whose only root is group `0` keeps its groups, and instances without a group
/// join group `0`. Otherwise a new root is put in front: group indices move up by
/// one, and former roots and ungrouped instances join the new root.
#[verifier::rlimit(50)]
pub fn normalize_scene_graph(scene: Scene, ensure_layer: bool) -> (r: Result<Scene, VoxError>)
    requires
        group_indices_shiftable(scene),
    ensures
        normalization(scene, ensure_layer, r),
{
    proof {
        reveal(normalization);
    }
    let ghost s = scene;
    let mut scene = scene;
    let fill = ensure_layer && scene.layers.len() == 0;
    if fill {
        scene.layers.push(default_layer_on_missing_scene_layer());
        fill_instance_layers(&mut scene.instances);
        fill_group_layers(&mut scene.groups);
    }
    let ghost filled = scene;
    assert(forall|i: int| 0 <= i < s.instances@.len() ==> #[trigger] filled.instances@[i] == (Instance {
        layer_index: layer_after(s.instances@[i].layer_index, fill),
        ..s.instances@[i]
    }));
    assert(forall|i: int| 0 <= i < s.groups@.len() ==> #[trigger] filled.groups@[i] == (Group {
        layer_index: layer_after(s.groups@[i].layer_index, fill),
        ..s.groups@[i]
    }));
    let root_layer = if ensure_layer {
        Some(0usize)
    } else {
        None
    };
    if scene.groups.len() == 0 {
        let grouped = any_grouped(&scene.instances);
        assert(some_instance_grouped(filled.instances@) == some_instance_grouped(s.instances@)) by {
            if some_instance_grouped(s.instances@) {
                let i = choose|i: int| 0 <= i < s.instances@.len() && (#[trigger] s.instances@[i]).group_index is Some;
                assert(filled.instances@[i].group_index == s.instances@[i].group_index);
            }
            if some_instance_grouped(filled.instances@) {
                let i = choose|i: int| 0 <= i < filled.instances@.len() && (#[trigger] filled.instances@[i]).group_index is Some;
                assert(filled.instances@[i].group_index == s.instances@[i].group_index);
            }
        }
        if grouped {
            return Err(
                VoxError::InvalidData("instances reference groups but scene has no groups".to_string()),
            );
        }
        scene.groups.push(default_root_group(root_layer));
        root_instance_groups(&mut scene.instances, false);
        return Ok(scene);
    }
    let (any_root, single_root) = root_groups(&scene.groups);
    assert(forall|i: int| 0 <= i < s.groups@.len() ==> (#[trigger] filled.groups@[i]).parent_group_index == s.groups@[i].parent_group_index);
    assert(has_root(filled.groups@) == has_root(s.groups@)) by {
        if has_root(s.groups@) {
            let i = choose|i: int| 0 <= i < s.groups@.len() && (#[trigger] s.groups@[i]).parent_group_index is None;
            assert(filled.groups@[i].parent_group_index is None);
        }
        if has_root(filled.groups@) {
            let i = choose|i: int| 0 <= i < filled.groups@.len() && (#[trigger] filled.groups@[i]).parent_group_index is None;
            assert(s.groups@[i].parent_group_index is None);
        }
    }
    assert(single_root_at_zero(filled.groups@) == single_root_at_zero(s.groups@)) by {
        if single_root_at_zero(s.groups@) {
            assert forall|i: int| 1 <= i < filled.groups@.len() implies (#[trigger] filled.groups@[i]).parent_group_index is Some by {
                assert(s.groups@[i].parent_group_index is Some);
            }
        }
        if single_root_at_zero(filled.groups@) {
            assert forall|i: int| 1 <= i < s.groups@.len() implies (#[trigger] s.groups@[i]).parent_group_index is Some by {
                assert(filled.groups@[i].parent_group_index is Some);
            }
        }
    }
    if !any_root {
        return Err(VoxError::InvalidData("scene has no root group".to_string()));
    }
    if single_root {
        root_instance_groups(&mut scene.instances, true);
        return Ok(scene);
    }
    let mut groups = Vec::new();
    groups.push(default_root_group(root_layer));
    let mut old_groups = scene.groups;
    shift_group_parents(&mut old_groups);
    let ghost shifted_groups = old_groups@;
    groups.append(&mut old_groups);
    assert(forall|i: int| 0 <= i < s.groups@.len() ==> #[trigger] groups@[i + 1] == shifted_groups[i]);
    shift_instance_groups(&mut scene.instances);
    Ok(Scene { groups, ..scene })
}

} // verus!

verus! {

/// Whether every group's parent comes before it, so that walking from a group to
/// its parents ends.
pub open spec fn parents_precede(groups: Seq<Group>) -> bool {
    forall|i: int|
        0 <= i < groups.len() ==> match (#[trigger] groups[i]).parent_group_index {
            Some(p) => p < i,
            None => true,
        }
}

/// Whether every transform of `g`, static and animated, has a valid rotation.
pub open spec fn group_rotations_valid(g: Group) -> bool {
    &&& valid_rotation(g.transform.rotation)
    &&& forall|k: int|
        0 <= k < g.transform_anim.keyframes@.len() ==> valid_rotation(
            (#[trigger] g.transform_anim.keyframes@[k]).transform.rotation,
        )
}

/// Whether every transform of `inst`, static and animated, has a valid rotation.
pub open spec fn instance_rotations_valid(inst: Instance) -> bool {
    &&& valid_rotation(inst.transform.rotation)
    &&& forall|k: int|
        0 <= k < inst.transform_anim.keyframes@.len() ==> valid_rotation(
            (#[trigger] inst.transform_anim.keyframes@[k]).transform.rotation,
        )
}

/// Whether `scene`'s groups form a forest whose parents come first, every
/// instance's group exists, and every rotation is valid.
pub open spec fn graph_ordered(scene: Scene) -> bool {
    &&& parents_precede(scene.groups@)
    &&& forall|i: int| 0 <= i < scene.groups@.len() ==> group_rotations_valid(#[trigger] scene.groups@[i])
    &&& forall|i: int|
        0 <= i < scene.instances@.len() ==> ref_ok(
            (#[trigger] scene.instances@[i]).group_index,
            scene.groups@.len(),
        ) && instance_rotations_valid(scene.instances@[i])
}

/// The groups met when walking from `start` to the root, nearest first, or `None`
/// when an index out of range is met; `fuel` bounds the walk.
pub open spec fn group_chain(groups: Seq<Group>, start: Option<usize>, fuel: nat) -> Option<Seq<usize>>
    decreases fuel,
{
    match start {
        None => Some(Seq::empty()),
        Some(i) => if i >= groups.len() {
            None
        } else if fuel == 0 {
            Some(seq![i])
        } else {
            match group_chain(groups, groups[i as int].parent_group_index, (fuel - 1) as nat) {
                Some(rest) => Some(seq![i] + rest),
                None => None,
            }
        },
    }
}

/// Whether walking from `start` to the root ends, or meets an index out of range,
/// within `fuel` steps.
pub open spec fn chain_settles(groups: Seq<Group>, start: Option<usize>, fuel: nat) -> bool
    decreases fuel,
{
    match start {
        None => true,
        Some(i) => i >= groups.len() || (fuel > 0 && chain_settles(
            groups,
            groups[i as int].parent_group_index,
            (fuel - 1) as nat,
        )),
    }
}

/// With parents before children, a walk from a group in range settles within one
/// step more than its index.
pub proof fn ordered_chain_settles(groups: Seq<Group>, start: Option<usize>, fuel: nat)
    requires
        parents_precede(groups),
        start matches Some(i) ==> i < fuel,
    ensures
        chain_settles(groups, start, fuel),
    decreases fuel,
{
    if let Some(i) = start {
        if i < groups.len() {
            assert(groups[i as int].parent_group_index matches Some(p) ==> p < i);
            ordered_chain_settles(groups, groups[i as int].parent_group_index, (fuel - 1) as nat);
        }
    }
}

/// With parents before children, a walk from a group in range stays in range.
pub proof fn ordered_chain_some(groups: Seq<Group>, start: Option<usize>, fuel: nat)
    requires
        parents_precede(groups),
        ref_ok(start, groups.len()),
        start matches Some(i) ==> i < fuel,
    ensures
        group_chain(groups, start, fuel) is Some,
        chain_settles(groups, start, fuel),
    decreases fuel,
{
    if let Some(i) = start {
        assert(groups[i as int].parent_group_index matches Some(p) ==> p < i);
        ordered_chain_some(groups, groups[i as int].parent_group_index, (fuel - 1) as nat);
    }
}

/// A walk that settles with more fuel gives the same chain.
proof fn chain_fuel_irrelevant(groups: Seq<Group>, start: Option<usize>, f1: nat, f2: nat)
    requires
        chain_settles(groups, start, f1),
        f1 <= f2,
    ensures
        chain_settles(groups, start, f2),
        group_chain(groups, start, f1) == group_chain(groups, start, f2),
    decreases f1,
{
    if let Some(i) = start {
        if i < groups.len() {
            chain_fuel_irrelevant(groups, groups[i as int].parent_group_index, (f1 - 1) as nat, (f2 - 1) as nat);
        }
    }
}

/// Walks from `start` to the root and lists the groups met, nearest first.
/// Fails when an index out of range is met, and when the walk goes on for more
/// steps than there are groups, which means the parents form a cycle.
pub fn walk_group_chain(groups: &Vec<Group>, start: Option<usize>) -> (chain: Result<Vec<usize>, VoxError>)
    ensures
        chain_settles(groups@, start, groups@.len()) ==> match group_chain(groups@, start, groups@.len()) {
            Some(c) => chain matches Ok(v) && v@ == c,
            None => chain matches Err(VoxError::IndexOutOfBounds { .. }),
        },
        !chain_settles(groups@, start, groups@.len()) ==> (chain matches Err(VoxError::InvalidNodeGraph(_))),
{
    let mut chain: Vec<usize> = Vec::new();
    let mut current = start;
    let mut fuel: usize = groups.len();
    while current.is_some()
        invariant
            fuel <= groups@.len(),
            chain_settles(groups@, start, groups@.len()) == chain_settles(groups@, current, fuel as nat),
            chain_settles(groups@, current, fuel as nat) ==> match group_chain(groups@, current, fuel as nat) {
                Some(rest) => group_chain(groups@, start, groups@.len()) == Some(chain@ + rest),
                None => group_chain(groups@, start, groups@.len()) is None,
            },
        decreases fuel,
    {
        let index = current.unwrap();
        if index >= groups.len() {
            return Err(VoxError::IndexOutOfBounds { kind: "group", index, len: groups.len() });
        }
        if fuel == 0 {
            return Err(VoxError::InvalidNodeGraph("group parents form a cycle"));
        }
        proof {
            if let Some(rest) = group_chain(groups@, groups@[index as int].parent_group_index, (fuel - 1) as nat) {
                assert(chain@.push(index) + rest =~= chain@ + (seq![index] + rest));
            }
        }
        chain.push(index);
        current = groups[index].parent_group_index;
        fuel = fuel - 1;
    }
    assert(chain@ + Seq::<usize>::empty() =~= chain@);
    Ok(chain)
}

impl Scene {
    /// The groups that an instance lies in, from its own group to the root: the
    /// groups whose transforms its global transform composes.
    pub fn instance_group_chain(&self, instance_index: usize) -> (chain: Result<Vec<usize>, VoxError>)
        ensures
            instance_index >= self.instances@.len() ==> chain == Err::<Vec<usize>, VoxError>(
                VoxError::IndexOutOfBounds {
                    kind: "instance",
                    index: instance_index,
                    len: self.instances@.len() as usize,
                },
            ),
            instance_index < self.instances@.len() && chain_settles(
                self.groups@,
                self.instances@[instance_index as int].group_index,
                self.groups@.len(),
            ) ==> match group_chain(
                self.groups@,
                self.instances@[instance_index as int].group_index,
                self.groups@.len(),
            ) {
                Some(c) => chain matches Ok(v) && v@ == c,
                None => chain matches Err(VoxError::IndexOutOfBounds { .. }),
            },
            instance_index < self.instances@.len() && !chain_settles(
                self.groups@,
                self.instances@[instance_index as int].group_index,
                self.groups@.len(),
            ) ==> (chain matches Err(VoxError::InvalidNodeGraph(_))),
    {
        if instance_index >= self.instances.len() {
            return Err(
                VoxError::IndexOutOfBounds {
                    kind: "instance",
                    index: instance_index,
                    len: self.instances.len(),
                },
            );
        }
        walk_group_chain(&self.groups, self.instances[instance_index].group_index)
    }

    /// The groups that a group lies in, from the group itself to the root.
    pub fn group_chain(&self, group_index: usize) -> (chain: Result<Vec<usize>, VoxError>)
        ensures
            chain_settles(self.groups@, Some(group_index), self.groups@.len()) ==> match group_chain(
                self.groups@,
                Some(group_index),
                self.groups@.len(),
            ) {
                Some(c) => chain matches Ok(v) && v@ == c,
                None => chain matches Err(VoxError::IndexOutOfBounds { .. }),
            },
            !chain_settles(self.groups@, Some(group_index), self.groups@.len()) ==> (chain matches Err(
                VoxError::InvalidNodeGraph(_),
            )),
    {
        walk_group_chain(&self.groups, Some(group_index))
    }
}

impl Instance {
    /// Returns the model index for the given animation frame.
    pub fn sample_model_index(&self, frame_index: u32) -> (model_index: usize)
        requires
            self.model_anim.keyframes@.len() > 0 ==> crate::types::anim_model_samplable(
                self.model_anim.keyframes@,
                self.model_anim.looped,
            ),
        ensures
            self.model_anim.keyframes@.len() == 0 ==> model_index == self.model_index,
            self.model_anim.keyframes@.len() > 0 ==> model_index == crate::types::sampled_model_index(
                self.model_anim.keyframes@,
                self.model_anim.looped,
                frame_index,
            ),
    {
        if self.model_anim.keyframes.len() == 0 {
            self.model_index
        } else {
            crate::types::sample_anim_model(&self.model_anim, frame_index)
        }
    }
}

} // verus!

verus! {

/// `t` followed by the transforms of the groups in `chain`, in order.
pub open spec fn chain_transform(groups: Seq<Group>, t: CardinalTransform, chain: Seq<usize>) -> CardinalTransform
    decreases chain.len(),
{
    if chain.len() == 0 {
        t
    } else {
        chain_transform(
            groups,
            crate::transform::compose(t, groups[chain[0] as int].transform),
            chain.skip(1),
        )
    }
}

/// `t` followed by the transforms of the groups from `start` up to the root.
pub fn world_transform(groups: &Vec<Group>, t: CardinalTransform, start: Option<usize>) -> (w: CardinalTransform)
    requires
        parents_precede(groups@),
        forall|i: int| 0 <= i < groups@.len() ==> group_rotations_valid(#[trigger] groups@[i]),
        ref_ok(start, groups@.len()),
        valid_rotation(t.rotation),
    ensures
        group_chain(groups@, start, groups@.len()) is Some,
        w == chain_transform(groups@, t, group_chain(groups@, start, groups@.len())->Some_0),
        valid_rotation(w.rotation),
{
    let mut transform = t;
    let mut current = start;
    let ghost fuel: nat = groups@.len();
    proof {
        ordered_chain_some(groups@, start, groups@.len() as nat);
    }
    while current.is_some()
        invariant
            parents_precede(groups@),
            forall|i: int| 0 <= i < groups@.len() ==> group_rotations_valid(#[trigger] groups@[i]),
            ref_ok(current, groups@.len()),
            valid_rotation(transform.rotation),
            current matches Some(c) ==> c < fuel,
            fuel <= groups@.len(),
            group_chain(groups@, current, fuel) is Some,
            group_chain(groups@, start, groups@.len()) is Some,
            chain_transform(groups@, t, group_chain(groups@, start, groups@.len())->Some_0)
                == chain_transform(groups@, transform, group_chain(groups@, current, fuel)->Some_0),
        decreases fuel,
    {
        let index = current.unwrap();
        let ghost rest = group_chain(groups@, current, fuel)->Some_0;
        proof {
            assert(groups@[index as int].parent_group_index matches Some(p) ==> p < index);
            ordered_chain_some(groups@, groups@[index as int].parent_group_index, (fuel - 1) as nat);
            assert(rest.skip(1) =~= group_chain(groups@, groups@[index as int].parent_group_index, (fuel - 1) as nat)->Some_0);
        }
        transform = transform.multiply(groups[index].transform);
        current = groups[index].parent_group_index;
        proof {
            fuel = (fuel - 1) as nat;
        }
    }
    transform
}

/// Composes every instance's transform with the transforms of its groups and
/// puts it into group `0`.
fn flatten_instances(instances: &mut Vec<Instance>, groups: &Vec<Group>)
    requires
        parents_precede(groups@),
        forall|i: int| 0 <= i < groups@.len() ==> group_rotations_valid(#[trigger] groups@[i]),
        forall|i: int|
            0 <= i < old(instances)@.len() ==> ref_ok(
                (#[trigger] old(instances)@[i]).group_index,
                groups@.len(),
            ) && instance_rotations_valid(old(instances)@[i]),
    ensures
        final(instances)@.len() == old(instances)@.len(),
        forall|i: int| 0 <= i < old(instances)@.len() ==> instance_rotations_valid(#[trigger] final(instances)@[i]),
        forall|i: int|
            0 <= i < old(instances)@.len() ==> #[trigger] final(instances)@[i] == (Instance {
                transform: chain_transform(
                    groups@,
                    old(instances)@[i].transform,
                    group_chain(groups@, old(instances)@[i].group_index, groups@.len())->Some_0,
                ),
                group_index: Some(0),
                ..old(instances)@[i]
            }),
{
    let mut index: usize = 0;
    while index < instances.len()
        invariant
            index <= instances@.len(),
            instances@.len() == old(instances)@.len(),
            parents_precede(groups@),
            forall|i: int| 0 <= i < groups@.len() ==> group_rotations_valid(#[trigger] groups@[i]),
            forall|i: int|
                0 <= i < old(instances)@.len() ==> ref_ok(
                    (#[trigger] old(instances)@[i]).group_index,
                    groups@.len(),
                ) && instance_rotations_valid(old(instances)@[i]),
            forall|i: int|
                0 <= i < index ==> #[trigger] instances@[i] == (Instance {
                    transform: chain_transform(
                        groups@,
                        old(instances)@[i].transform,
                        group_chain(groups@, old(instances)@[i].group_index, groups@.len())->Some_0,
                    ),
                    group_index: Some(0),
                    ..old(instances)@[i]
                }),
            forall|i: int| index <= i < instances@.len() ==> #[trigger] instances@[i] == old(instances)@[i],
            forall|i: int| 0 <= i < index ==> instance_rotations_valid(#[trigger] instances@[i]),
        decreases instances@.len() - index,
    {
        let t = instances[index].transform;
        let start = instances[index].group_index;
        assert(instance_rotations_valid(old(instances)@[index as int]));
        let world = world_transform(groups, t, start);
        instances[index].transform = world;
        instances[index].group_index = Some(0);
        index += 1;
    }
}

/// Composes every instance's transform with the transforms of its groups, puts
/// every instance into a single root group, and drops the other groups.
pub fn flatten_groups(scene: Scene) -> (r: Scene)
    requires
        graph_ordered(scene),
    ensures
        same_content(r, scene),
        r.layers == scene.layers,
        graph_ordered(r),
        r.groups@.len() == 1,
        is_added_root(r.groups@[0], Some(0)),
        r.instances@.len() == scene.instances@.len(),
        forall|i: int|
            0 <= i < scene.instances@.len() ==> #[trigger] r.instances@[i] == (Instance {
                transform: chain_transform(
                    scene.groups@,
                    scene.instances@[i].transform,
                    group_chain(scene.groups@, scene.instances@[i].group_index, scene.groups@.len())->Some_0,
                ),
                group_index: Some(0),
                ..scene.instances@[i]
            }),
{
    let mut instances = scene.instances;
    flatten_instances(&mut instances, &scene.groups);
    let mut groups = Vec::new();
    groups.push(default_root_group(Some(0)));
    Scene { instances, groups, ..scene }
}

} // verus!

verus! {

/// The keyframes that a transform animation is sampled from at a frame: one
/// keyframe's transform as it is, or a blend of keyframe `index` and the next one
/// at `frame`.
#[derive(Clone, Copy, Debug, PartialEq, Eq, Structural)]
pub enum TransformSample {
    /// The transform of this keyframe.
    Keyframe(usize),
    /// Between keyframe `index` and the next one, at `frame`.
    Between {
        /// The keyframe at or before the frame.
        index: usize,
        /// The frame sampled, inside the animation.
        frame: u32,
    },
}

/// Whether transform keyframes can be sampled: there is at least one, and a
/// looped animation runs forwards from its first to its last keyframe.
pub open spec fn transform_samplable(keyframes: Seq<KeyframeTransform>, looped: bool) -> bool {
    &&& keyframes.len() > 0
    &&& (looped && keyframes.len() > 1) ==> crate::types::loop_range_ok(
        keyframes[0].frame_index,
        keyframes.last().frame_index,
    )
}

/// The greatest index `i <= from` whose keyframe starts at or before `frame`, or `0`.
pub open spec fn last_transform_keyframe_at_or_before(keyframes: Seq<KeyframeTransform>, frame: int, from: int) -> int
    decreases from,
{
    if from <= 0 {
        0
    } else if frame >= keyframes[from].frame_index {
        from
    } else {
        last_transform_keyframe_at_or_before(keyframes, frame, from - 1)
    }
}

/// The keyframes that transform keyframes are sampled from at `frame`: looped
/// animations first map the frame into the loop of their first and last
/// keyframes; before the first keyframe or from the last one on, that keyframe;
/// else the last keyframe at or before the frame, blended with the next.
pub open spec fn sampled_transform(keyframes: Seq<KeyframeTransform>, looped: bool, frame: u32) -> TransformSample {
    let last = keyframes.len() - 1;
    if keyframes.len() == 1 {
        TransformSample::Keyframe(0)
    } else {
        let f = if looped {
            crate::types::looped_frame(keyframes[0].frame_index, keyframes[last].frame_index, frame)
        } else {
            frame as int
        };
        if f <= keyframes[0].frame_index {
            TransformSample::Keyframe(0)
        } else if f >= keyframes[last].frame_index {
            TransformSample::Keyframe(last as usize)
        } else {
            TransformSample::Between {
                index: last_transform_keyframe_at_or_before(keyframes, f, last - 1) as usize,
                frame: f as u32,
            }
        }
    }
}

/// Finds the greatest keyframe index `i <= from` whose keyframe starts at or
/// before `frame`, or `0` when there is none.
fn find_transform_keyframe(keyframes: &Vec<KeyframeTransform>, frame: u32, from: usize) -> (index: usize)
    requires
        from < keyframes@.len(),
    ensures
        index == last_transform_keyframe_at_or_before(keyframes@, frame as int, from as int),
        index <= from,
{
    let mut index: usize = from;
    while index > 0
        invariant
            index <= from < keyframes@.len(),
            last_transform_keyframe_at_or_before(keyframes@, frame as int, from as int)
                == last_transform_keyframe_at_or_before(keyframes@, frame as int, index as int),
        decreases index,
    {
        if frame >= keyframes[index].frame_index {
            return index;
        }
        index -= 1;
    }
    0
}

/// Picks the keyframes that `anim` is sampled from at `frame_index`; the blend
/// of two keyframes' translations is left to the caller.
pub fn sample_anim_transform(anim: &AnimTransform, frame_index: u32) -> (s: TransformSample)
    requires
        transform_samplable(anim.keyframes@, anim.looped),
    ensures
        s == sampled_transform(anim.keyframes@, anim.looped, frame_index),
        s matches TransformSample::Keyframe(i) ==> i < anim.keyframes@.len(),
        s matches TransformSample::Between { index, frame } ==> index + 1 < anim.keyframes@.len()
            && anim.keyframes@[index as int].frame_index <= frame < anim.keyframes@.last().frame_index,
{
    let keyframes = &anim.keyframes;
    let len = keyframes.len();
    if len == 1 {
        return TransformSample::Keyframe(0);
    }
    let frame = if anim.looped {
        crate::types::compute_looped_frame_index(keyframes[0].frame_index, keyframes[len - 1].frame_index, frame_index)
    } else {
        frame_index
    };
    if frame <= keyframes[0].frame_index {
        return TransformSample::Keyframe(0);
    }
    if frame >= keyframes[len - 1].frame_index {
        return TransformSample::Keyframe(len - 1);
    }
    let index = find_transform_keyframe(keyframes, frame, len - 2);
    proof {
        lemma_transform_keyframe_found(keyframes@, frame as int, (len - 2) as int);
    }
    TransformSample::Between { index, frame }
}

/// The keyframe found starts at or before the frame when the first one does.
proof fn lemma_transform_keyframe_found(keyframes: Seq<KeyframeTransform>, frame: int, from: int)
    requires
        0 <= from < keyframes.len(),
        frame >= keyframes[0].frame_index,
    ensures
        keyframes[last_transform_keyframe_at_or_before(keyframes, frame, from)].frame_index <= frame,
    decreases from,
{
    if from > 0 && frame < keyframes[from].frame_index {
        lemma_transform_keyframe_found(keyframes, frame, from - 1);
    }
}

/// The keyframe that the search from `from` down finds is at or before the
/// frame when the first keyframe is, and every keyframe after it up to `from`
/// starts later.
proof fn lemma_transform_search(keyframes: Seq<KeyframeTransform>, frame: int, from: int)
    requires
        0 <= from < keyframes.len(),
    ensures
        0 <= last_transform_keyframe_at_or_before(keyframes, frame, from) <= from,
        forall|j: int|
            last_transform_keyframe_at_or_before(keyframes, frame, from) < j <= from ==> frame
                < (#[trigger] keyframes[j]).frame_index,
    decreases from,
{
    if from > 0 && frame < keyframes[from].frame_index {
        lemma_transform_search(keyframes, frame, from - 1);
    }
}

/// The frame at which transform keyframes are looked up: a looped animation of
/// more than one keyframe maps the requested frame into the loop from its first
/// to its last keyframe.
pub open spec fn transform_frame(keyframes: Seq<KeyframeTransform>, looped: bool, frame: u32) -> int {
    if looped && keyframes.len() > 1 {
        crate::types::looped_frame(keyframes[0].frame_index, keyframes.last().frame_index, frame)
    } else {
        frame as int
    }
}

/// Law: transform keyframes are sampled at a frame from the first keyframe up
/// to it; past it, from the last keyframe from it on; and before it, between
/// the keyframe at or before the frame after which every keyframe starts later
/// and the next one, at that frame. A looped animation first maps the frame
/// into its loop.
#[verifier::rlimit(60)]
pub proof fn sampled_transform_is_latest_started(keyframes: Seq<KeyframeTransform>, looped: bool, frame: u32)
    requires
        transform_samplable(keyframes, looped),
        keyframes.len() <= usize::MAX,
    ensures
        keyframes.len() == 1 ==> sampled_transform(keyframes, looped, frame) == TransformSample::Keyframe(0),
        keyframes.len() > 1 && transform_frame(keyframes, looped, frame) <= keyframes[0].frame_index
            ==> sampled_transform(keyframes, looped, frame) == TransformSample::Keyframe(0),
        keyframes.len() > 1 && keyframes[0].frame_index < transform_frame(keyframes, looped, frame)
            && transform_frame(keyframes, looped, frame) >= keyframes.last().frame_index ==> sampled_transform(
            keyframes,
            looped,
            frame,
        ) == TransformSample::Keyframe((keyframes.len() - 1) as usize),
        keyframes.len() > 1 && keyframes[0].frame_index < transform_frame(keyframes, looped, frame)
            < keyframes.last().frame_index ==> (sampled_transform(keyframes, looped, frame) matches TransformSample::Between {
            index,
            frame: f,
        } && f == transform_frame(keyframes, looped, frame) && index + 1 < keyframes.len()
            && keyframes[index as int].frame_index <= f && forall|j: int|
            index < j < keyframes.len() ==> f < (#[trigger] keyframes[j]).frame_index),
{
    let last = keyframes.len() - 1;
    if keyframes.len() > 1 {
        let f = transform_frame(keyframes, looped, frame);
        if keyframes[0].frame_index < f < keyframes[last].frame_index {
            lemma_transform_search(keyframes, f, last - 1);
            lemma_transform_keyframe_found(keyframes, f, last - 1);
            let found = last_transform_keyframe_at_or_before(keyframes, f, last - 1);
            assert(0 <= found < last);
            assert(found as usize as int == found);
            assert(f as u32 as int == f);
            assert(sampled_transform(keyframes, looped, frame) == TransformSample::Between {
                index: found as usize,
                frame: f as u32,
            });
            assert forall|j: int| found < j < keyframes.len() implies f < (#[trigger] keyframes[j]).frame_index by {
                if j < last {
                    assert(j <= last - 1);
                }
            }
        }
    }
}

} // verus!
