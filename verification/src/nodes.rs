use vstd::prelude::*;

use crate::scene::{
    group_rotations_valid, instance_rotations_valid, keyframe_models_ok, parents_precede, ref_ok,
    AnimTransform, Group, Instance, KeyframeTransform,
};
use crate::transform::{valid_rotation, CardinalTransform};
use crate::types::{AnimModel, KeyframeModel, Model, VoxError};

verus! {

/// A transform node of the file's scene graph.
pub struct TempTransformNode {
    /// The node's name.
    pub name: Option<String>,
    /// The transform of the first frame.
    pub transform: CardinalTransform,
    /// The node below this one.
    pub child_node_id: u32,
    /// The layer of the node.
    pub layer_index: Option<usize>,
    /// Whether the node is hidden.
    pub hidden: bool,
    /// The transform of every frame.
    pub keyframes: Vec<KeyframeTransform>,
    /// Whether the animation loops.
    pub looped: bool,
}

/// A group node of the file's scene graph.
pub struct TempGroupNode {
    /// The nodes below this one.
    pub children: Vec<u32>,
}

/// A shape node of the file's scene graph.
pub struct TempShapeNode {
    /// The model of the first frame.
    pub model_id: usize,
    /// The model of every frame.
    pub keyframes: Vec<KeyframeModel>,
    /// Whether the animation loops.
    pub looped: bool,
}

/// A node of the file's scene graph, by the id the file gives it.
pub enum TempNode {
    /// No chunk defined this id.
    Invalid,
    /// A transform node.
    Transform(TempTransformNode),
    /// A group node.
    Group(TempGroupNode),
    /// A shape node.
    Shape(TempShapeNode),
}

/// Whether the transforms of a transform node have valid rotations.
pub open spec fn transform_node_ok(t: TempTransformNode) -> bool {
    &&& valid_rotation(t.transform.rotation)
    &&& forall|k: int|
        0 <= k < t.keyframes@.len() ==> valid_rotation((#[trigger] t.keyframes@[k]).transform.rotation)
}

/// Whether a node is well formed: transforms have valid rotations, and shapes name
/// models among the first `models_len`.
pub open spec fn node_ok(node: TempNode, models_len: nat) -> bool {
    match node {
        TempNode::Transform(t) => transform_node_ok(t),
        TempNode::Shape(s) => s.model_id < models_len && keyframe_models_ok(s.keyframes@, models_len),
        _ => true,
    }
}

/// Whether every node is well formed.
pub open spec fn nodes_ok(nodes: Seq<TempNode>, models_len: nat) -> bool {
    forall|i: int| 0 <= i < nodes.len() ==> node_ok(#[trigger] nodes[i], models_len)
}

/// Whether every instance lies in an existing group, names a model that is not
/// empty, and has valid rotations.
pub open spec fn instances_placed(instances: Seq<Instance>, groups_len: nat, models: Seq<Option<Model>>) -> bool {
    forall|i: int|
        0 <= i < instances.len() ==> {
            let inst = #[trigger] instances[i];
            &&& inst.group_index matches Some(g) && g < groups_len
            &&& inst.model_index < models.len()
            &&& models[inst.model_index as int] is Some
            &&& keyframe_models_ok(inst.model_anim.keyframes@, models.len())
            &&& instance_rotations_valid(inst)
        }
}

/// Whether groups have their parents first and valid rotations.
pub open spec fn groups_ordered(groups: Seq<Group>) -> bool {
    &&& parents_precede(groups)
    &&& forall|i: int| 0 <= i < groups.len() ==> group_rotations_valid(#[trigger] groups[i])
}

/// Makes sure that `nodes` has an entry for `index`, filling the gap with
/// invalid nodes.
pub fn ensure_node_slot(nodes: &mut Vec<TempNode>, index: usize, Ghost(models_len): Ghost<nat>) -> (r: Result<(), VoxError>)
    requires
        nodes_ok(old(nodes)@, models_len),
    ensures
        nodes_ok(final(nodes)@, models_len),
        r is Ok <==> index < usize::MAX,
        r is Ok ==> final(nodes)@.len() == if old(nodes)@.len() > index {
            old(nodes)@.len() as int
        } else {
            index + 1
        },
        r is Err ==> r->Err_0 is InvalidData && final(nodes)@ == old(nodes)@,
        forall|i: int| 0 <= i < old(nodes)@.len() ==> #[trigger] final(nodes)@[i] == old(nodes)@[i],
        forall|i: int| old(nodes)@.len() <= i < final(nodes)@.len() ==> #[trigger] final(nodes)@[i] is Invalid,
{
    if index == usize::MAX {
        return Err(VoxError::InvalidData("node id overflow".to_string()));
    }
    while nodes.len() <= index
        invariant
            nodes_ok(nodes@, models_len),
            index < usize::MAX,
            nodes@.len() >= old(nodes)@.len(),
            nodes@.len() <= if old(nodes)@.len() > index {
                old(nodes)@.len() as int
            } else {
                index + 1
            },
            forall|i: int| 0 <= i < old(nodes)@.len() ==> #[trigger] nodes@[i] == old(nodes)@[i],
            forall|i: int| old(nodes)@.len() <= i < nodes@.len() ==> #[trigger] nodes@[i] is Invalid,
        decreases index + 1 - nodes@.len(),
    {
        nodes.push(TempNode::Invalid);
    }
    Ok(())
}

/// A copy of transform keyframes.
pub fn copy_transform_keyframes(keyframes: &Vec<KeyframeTransform>) -> (copy: Vec<KeyframeTransform>)
    ensures
        copy@ == keyframes@,
{
    let mut copy: Vec<KeyframeTransform> = Vec::new();
    let mut index: usize = 0;
    while index < keyframes.len()
        invariant
            index <= keyframes@.len(),
            copy@ == keyframes@.take(index as int),
        decreases keyframes@.len() - index,
    {
        copy.push(keyframes[index]);
        index += 1;
        assert(copy@ =~= keyframes@.take(index as int));
    }
    assert(keyframes@.take(index as int) =~= keyframes@);
    copy
}

/// A copy of model keyframes.
pub fn copy_model_keyframes(keyframes: &Vec<KeyframeModel>) -> (copy: Vec<KeyframeModel>)
    ensures
        copy@ == keyframes@,
{
    let mut copy: Vec<KeyframeModel> = Vec::new();
    let mut index: usize = 0;
    while index < keyframes.len()
        invariant
            index <= keyframes@.len(),
            copy@ == keyframes@.take(index as int),
        decreases keyframes@.len() - index,
    {
        copy.push(keyframes[index]);
        index += 1;
        assert(copy@ =~= keyframes@.take(index as int));
    }
    assert(keyframes@.take(index as int) =~= keyframes@);
    copy
}

/// A copy of an optional name.
pub fn copy_name(name: &Option<String>) -> (copy: Option<String>)
    ensures
        copy is Some <==> name is Some,
        copy is Some ==> copy->Some_0@ == name->Some_0@,
{
    match name {
        Some(s) => Some(s.clone()),
        None => None,
    }
}

/// The groups, each as the transform node above it and its parent, and the
/// instances, each as its transform and shape nodes and its group, that a walk of
/// the scene graph from `node_id` adds after `group_count` groups; `None` when
/// the walk is refused.
pub open spec fn walk_node(
    nodes: Seq<TempNode>,
    node_id: u32,
    models: Seq<Option<Model>>,
    current_group: Option<usize>,
    current_transform: Option<TempTransformNode>,
    group_count: nat,
    fuel: nat,
) -> Option<(Seq<(TempTransformNode, Option<usize>)>, Seq<(TempTransformNode, TempShapeNode, usize)>)>
    decreases fuel, 0nat,
{
    if fuel == 0 || node_id >= nodes.len() {
        None
    } else {
        match nodes[node_id as int] {
            TempNode::Invalid => None,
            TempNode::Transform(t) => walk_node(
                nodes,
                t.child_node_id,
                models,
                current_group,
                Some(t),
                group_count,
                (fuel - 1) as nat,
            ),
            TempNode::Group(g) => match current_transform {
                None => None,
                Some(t) => match walk_children(
                    nodes,
                    g.children@,
                    g.children@.len(),
                    models,
                    group_count,
                    group_count + 1,
                    (fuel - 1) as nat,
                ) {
                    None => None,
                    Some((gs, is)) => Some((seq![(t, current_group)] + gs, is)),
                },
            },
            TempNode::Shape(sh) => match (current_transform, current_group) {
                (Some(t), Some(g)) => if sh.model_id >= models.len() {
                    None
                } else if models[sh.model_id as int] is None {
                    Some((Seq::empty(), Seq::empty()))
                } else {
                    Some((Seq::empty(), seq![(t, sh, g)]))
                },
                _ => None,
            },
        }
    }
}

/// The groups and instances that walks from the first `k` of `children`, in
/// order, add below group `group` after `group_count` groups.
pub open spec fn walk_children(
    nodes: Seq<TempNode>,
    children: Seq<u32>,
    k: nat,
    models: Seq<Option<Model>>,
    group: nat,
    group_count: nat,
    fuel: nat,
) -> Option<(Seq<(TempTransformNode, Option<usize>)>, Seq<(TempTransformNode, TempShapeNode, usize)>)>
    decreases fuel, k + 1,
{
    if k == 0 {
        Some((Seq::empty(), Seq::empty()))
    } else {
        match walk_children(nodes, children, (k - 1) as nat, models, group, group_count, fuel) {
            None => None,
            Some((gs, is)) => match walk_node(
                nodes,
                children[k - 1],
                models,
                Some(group as usize),
                None,
                group_count + gs.len(),
                fuel,
            ) {
                None => None,
                Some((gs2, is2)) => Some((gs + gs2, is + is2)),
            },
        }
    }
}

/// Once a walk of the first children is refused, so is the walk of more.
pub proof fn lemma_walk_children_stays_refused(
    nodes: Seq<TempNode>,
    children: Seq<u32>,
    k: nat,
    m: nat,
    models: Seq<Option<Model>>,
    group: nat,
    group_count: nat,
    fuel: nat,
)
    requires
        k <= m,
        walk_children(nodes, children, k, models, group, group_count, fuel) is None,
    ensures
        walk_children(nodes, children, m, models, group, group_count, fuel) is None,
    decreases m - k,
{
    if k < m {
        lemma_walk_children_stays_refused(nodes, children, k, (m - 1) as nat, models, group, group_count, fuel);
    }
}

/// Whether two optional names have the same text.
pub open spec fn same_name(a: Option<String>, b: Option<String>) -> bool {
    match (a, b) {
        (None, None) => true,
        (Some(x), Some(y)) => x@ == y@,
        _ => false,
    }
}

/// Whether `g` is the group that a transform node above a group node gives,
/// with the given parent.
pub open spec fn group_built(g: Group, t: TempTransformNode, parent: Option<usize>, preserve_keyframes: bool) -> bool {
    &&& same_name(g.name, t.name)
    &&& g.transform == t.transform
    &&& g.parent_group_index == parent
    &&& g.layer_index == t.layer_index
    &&& g.hidden == t.hidden
    &&& g.transform_anim.keyframes@ == if preserve_keyframes {
        t.keyframes@
    } else {
        Seq::empty()
    }
    &&& g.transform_anim.looped == (preserve_keyframes && t.looped)
}

/// Whether `inst` is the instance that a transform node above a shape node
/// gives, in the given group.
pub open spec fn instance_built(
    inst: Instance,
    t: TempTransformNode,
    sh: TempShapeNode,
    group: usize,
    preserve_keyframes: bool,
) -> bool {
    &&& same_name(inst.name, t.name)
    &&& inst.transform == t.transform
    &&& inst.model_index == sh.model_id
    &&& inst.layer_index == t.layer_index
    &&& inst.group_index == Some(group)
    &&& inst.hidden == t.hidden
    &&& inst.transform_anim.keyframes@ == if preserve_keyframes {
        t.keyframes@
    } else {
        Seq::empty()
    }
    &&& inst.transform_anim.looped == (preserve_keyframes && t.looped)
    &&& inst.model_anim.keyframes@ == if preserve_keyframes {
        sh.keyframes@
    } else {
        Seq::empty()
    }
    &&& inst.model_anim.looped == (preserve_keyframes && sh.looped)
}

/// Whether the groups and instances from `gstart` and `istart` on are those
/// that the walk's records give.
pub open spec fn walk_built(
    groups: Seq<Group>,
    instances: Seq<Instance>,
    gstart: int,
    istart: int,
    out: (Seq<(TempTransformNode, Option<usize>)>, Seq<(TempTransformNode, TempShapeNode, usize)>),
    preserve_keyframes: bool,
) -> bool {
    &&& groups.len() == gstart + out.0.len()
    &&& instances.len() == istart + out.1.len()
    &&& forall|j: int|
        0 <= j < out.0.len() ==> group_built(#[trigger] groups[gstart + j], out.0[j].0, out.0[j].1, preserve_keyframes)
    &&& forall|j: int|
        0 <= j < out.1.len() ==> instance_built(
            #[trigger] instances[istart + j],
            out.1[j].0,
            out.1[j].1,
            out.1[j].2,
            preserve_keyframes,
        )
}

/// Walks the scene graph from `node_id` and adds a group for every group node and
/// an instance for every shape node whose model is not empty.
///
/// A group takes the name, transform, layer, visibility and (when
/// `preserve_keyframes` holds) animation of the transform node above it, and
/// belongs to the group above it. An instance takes the same from the transform
/// node above its shape node, and belongs to the group above it. A walk deeper
/// than `fuel` nodes means the graph has a cycle; it is refused.
pub fn generate_instances_for_node(
    nodes: &Vec<TempNode>,
    node_id: u32,
    models: &Vec<Option<Model>>,
    instances: &mut Vec<Instance>,
    groups: &mut Vec<Group>,
    current_group: Option<usize>,
    current_transform: Option<&TempTransformNode>,
    preserve_keyframes: bool,
    fuel: usize,
) -> (r: Result<(), VoxError>)
    requires
        nodes_ok(nodes@, models@.len()),
        groups_ordered(old(groups)@),
        instances_placed(old(instances)@, old(groups)@.len(), models@),
        current_group matches Some(g) ==> g < old(groups)@.len(),
        current_transform matches Some(t) ==> transform_node_ok(*t),
    ensures
        groups_ordered(final(groups)@),
        instances_placed(final(instances)@, final(groups)@.len(), models@),
        final(groups)@.len() >= old(groups)@.len(),
        final(instances)@.len() >= old(instances)@.len(),
        forall|i: int| 0 <= i < old(groups)@.len() ==> #[trigger] final(groups)@[i] == old(groups)@[i],
        forall|i: int| 0 <= i < old(instances)@.len() ==> #[trigger] final(instances)@[i] == old(instances)@[i],
        forall|i: int|
            old(groups)@.len() <= i < final(groups)@.len() ==> (#[trigger] final(groups)@[i]).parent_group_index
                is Some || (current_group is None && i == old(groups)@.len()),
        r is Err ==> r->Err_0 is InvalidNodeGraph,
        ({
            let ct = match current_transform {
                Some(t) => Some(*t),
                None => None,
            };
            match walk_node(nodes@, node_id, models@, current_group, ct, old(groups)@.len(), fuel as nat) {
                None => r is Err,
                Some(out) => r is Ok && walk_built(
                    final(groups)@,
                    final(instances)@,
                    old(groups)@.len() as int,
                    old(instances)@.len() as int,
                    out,
                    preserve_keyframes,
                ),
            }
        }),
    decreases fuel,
{
    if fuel == 0 {
        return Err(VoxError::InvalidNodeGraph("node graph contains a cycle"));
    }
    let index = node_id as usize;
    if index >= nodes.len() {
        return Err(VoxError::InvalidNodeGraph("node id out of bounds"));
    }
    let node = &nodes[index];
    assert(node_ok(*node, models@.len()));
    match node {
        TempNode::Invalid => Err(VoxError::InvalidNodeGraph("encountered invalid node")),
        TempNode::Transform(transform_node) => generate_instances_for_node(
            nodes,
            transform_node.child_node_id,
            models,
            instances,
            groups,
            current_group,
            Some(transform_node),
            preserve_keyframes,
            fuel - 1,
        ),
        TempNode::Group(group_node) => {
            let transform_node = match current_transform {
                Some(t) => t,
                None => {
                    return Err(
                        VoxError::InvalidNodeGraph("group node must be preceded by a transform node"),
                    );
                },
            };
            let next_group_index = groups.len();
            let transform_anim = if preserve_keyframes {
                AnimTransform {
                    keyframes: copy_transform_keyframes(&transform_node.keyframes),
                    looped: transform_node.looped,
                }
            } else {
                AnimTransform::default()
            };
            groups.push(
                Group {
                    name: copy_name(&transform_node.name),
                    transform: transform_node.transform,
                    parent_group_index: current_group,
                    layer_index: transform_node.layer_index,
                    hidden: transform_node.hidden,
                    transform_anim,
                },
            );
            proof {
                let g = groups@[next_group_index as int];
                assert(group_rotations_valid(g));
                assert(parents_precede(groups@)) by {
                    assert forall|i: int| 0 <= i < groups@.len() implies match (#[trigger] groups@[i]).parent_group_index {
                        Some(p) => p < i,
                        None => true,
                    } by {
                        if i < next_group_index {
                            assert(groups@[i] == old(groups)@[i]);
                        }
                    }
                }
                assert forall|i: int| 0 <= i < groups@.len() implies group_rotations_valid(#[trigger] groups@[i]) by {
                    if i < next_group_index {
                        assert(groups@[i] == old(groups)@[i]);
                    }
                }
            }
            proof {
                let g = groups@[next_group_index as int];
                if !preserve_keyframes {
                    assert(g.transform_anim.keyframes@ =~= Seq::<KeyframeTransform>::empty());
                }
                assert(group_built(g, *transform_node, current_group, preserve_keyframes));
                assert(walk_children(
                    nodes@,
                    group_node.children@,
                    0,
                    models@,
                    next_group_index as nat,
                    (next_group_index + 1) as nat,
                    (fuel - 1) as nat,
                ) == Some((Seq::<(TempTransformNode, Option<usize>)>::empty(), Seq::<(TempTransformNode, TempShapeNode, usize)>::empty())));
            }
            let children = &group_node.children;
            let mut child: usize = 0;
            while child < children.len()
                invariant
                    child <= children@.len(),
                    fuel > 0,
                    nodes_ok(nodes@, models@.len()),
                    groups_ordered(groups@),
                    instances_placed(instances@, groups@.len(), models@),
                    next_group_index < groups@.len(),
                    next_group_index == old(groups)@.len(),
                    groups@.len() >= old(groups)@.len() + 1,
                    instances@.len() >= old(instances)@.len(),
                    forall|i: int| 0 <= i < old(groups)@.len() ==> #[trigger] groups@[i] == old(groups)@[i],
                    forall|i: int| 0 <= i < old(instances)@.len() ==> #[trigger] instances@[i] == old(instances)@[i],
                    groups@[next_group_index as int].parent_group_index == current_group,
                    forall|i: int|
                        old(groups)@.len() < i < groups@.len() ==> (#[trigger] groups@[i]).parent_group_index
                            is Some,
                    (node_id as int) < nodes@.len(),
                    nodes@[node_id as int] matches TempNode::Group(gn) && gn.children@ == children@,
                    current_transform == Some(transform_node),
                    group_built(groups@[next_group_index as int], *transform_node, current_group, preserve_keyframes),
                    walk_children(
                        nodes@,
                        children@,
                        child as nat,
                        models@,
                        next_group_index as nat,
                        (next_group_index + 1) as nat,
                        (fuel - 1) as nat,
                    ) matches Some(out) && walk_built(
                        groups@,
                        instances@,
                        next_group_index + 1,
                        old(instances)@.len() as int,
                        out,
                        preserve_keyframes,
                    ),
                decreases children@.len() - child,
            {
                let ghost prior = walk_children(
                    nodes@,
                    children@,
                    child as nat,
                    models@,
                    next_group_index as nat,
                    (next_group_index + 1) as nat,
                    (fuel - 1) as nat,
                )->Some_0;
                let ghost before_groups = groups@;
                let ghost before_instances = instances@;
                let r = generate_instances_for_node(
                    nodes,
                    children[child],
                    models,
                    instances,
                    groups,
                    Some(next_group_index),
                    None,
                    preserve_keyframes,
                    fuel - 1,
                );
                if r.is_err() {
                    proof {
                        lemma_walk_children_stays_refused(
                            nodes@,
                            children@,
                            (child + 1) as nat,
                            children@.len(),
                            models@,
                            next_group_index as nat,
                            (next_group_index + 1) as nat,
                            (fuel - 1) as nat,
                        );
                    }
                    return r;
                }
                proof {
                    let added = walk_node(
                        nodes@,
                        children@[child as int],
                        models@,
                        Some(next_group_index),
                        None,
                        before_groups.len(),
                        (fuel - 1) as nat,
                    )->Some_0;
                    let next = walk_children(
                        nodes@,
                        children@,
                        (child + 1) as nat,
                        models@,
                        next_group_index as nat,
                        (next_group_index + 1) as nat,
                        (fuel - 1) as nat,
                    );
                    assert(next == Some((prior.0 + added.0, prior.1 + added.1)));
                    let out = next->Some_0;
                    assert forall|j: int| 0 <= j < out.0.len() implies group_built(
                        #[trigger] groups@[next_group_index + 1 + j],
                        out.0[j].0,
                        out.0[j].1,
                        preserve_keyframes,
                    ) by {
                        if j < prior.0.len() {
                            assert(groups@[next_group_index + 1 + j] == before_groups[next_group_index + 1 + j]);
                        } else {
                            assert(out.0[j] == added.0[j - prior.0.len()]);
                            assert(groups@[next_group_index + 1 + j] == groups@[before_groups.len() + (j - prior.0.len())]);
                        }
                    }
                    assert forall|j: int| 0 <= j < out.1.len() implies instance_built(
                        #[trigger] instances@[old(instances)@.len() + j],
                        out.1[j].0,
                        out.1[j].1,
                        out.1[j].2,
                        preserve_keyframes,
                    ) by {
                        if j < prior.1.len() {
                            assert(instances@[old(instances)@.len() + j] == before_instances[old(instances)@.len() + j]);
                        } else {
                            assert(out.1[j] == added.1[j - prior.1.len()]);
                            assert(instances@[old(instances)@.len() + j] == instances@[before_instances.len() + (j - prior.1.len())]);
                        }
                    }
                }
                proof {
                    assert forall|i: int| 0 <= i < old(groups)@.len() implies #[trigger] groups@[i] == old(groups)@[i] by {
                        assert(groups@[i] == before_groups[i]);
                    }
                    assert forall|i: int| 0 <= i < old(instances)@.len() implies #[trigger] instances@[i] == old(instances)@[i] by {
                        assert(instances@[i] == before_instances[i]);
                    }
                    assert(groups@[next_group_index as int] == before_groups[next_group_index as int]);
                    assert forall|i: int| old(groups)@.len() < i < groups@.len() implies (#[trigger] groups@[i]).parent_group_index is Some by {
                        if i < before_groups.len() {
                            assert(groups@[i] == before_groups[i]);
                        }
                    }
                }
                child += 1;
            }
            proof {
                let out = walk_children(
                    nodes@,
                    children@,
                    children@.len(),
                    models@,
                    next_group_index as nat,
                    (next_group_index + 1) as nat,
                    (fuel - 1) as nat,
                )->Some_0;
                let whole = (seq![(*transform_node, current_group)] + out.0, out.1);
                assert forall|j: int| 0 <= j < whole.0.len() implies group_built(
                    #[trigger] groups@[old(groups)@.len() + j],
                    whole.0[j].0,
                    whole.0[j].1,
                    preserve_keyframes,
                ) by {
                    if j > 0 {
                        assert(whole.0[j] == out.0[j - 1]);
                        assert(groups@[old(groups)@.len() + j] == groups@[next_group_index + 1 + (j - 1)]);
                    }
                }
                assert forall|j: int| 0 <= j < whole.1.len() implies instance_built(
                    #[trigger] instances@[old(instances)@.len() + j],
                    whole.1[j].0,
                    whole.1[j].1,
                    whole.1[j].2,
                    preserve_keyframes,
                ) by {
                    assert(whole.1[j] == out.1[j]);
                }
                assert(walk_built(
                    groups@,
                    instances@,
                    old(groups)@.len() as int,
                    old(instances)@.len() as int,
                    whole,
                    preserve_keyframes,
                ));
            }
            Ok(())
        },
        TempNode::Shape(shape_node) => {
            let transform_node = match current_transform {
                Some(t) => t,
                None => {
                    return Err(
                        VoxError::InvalidNodeGraph("shape node must be preceded by a transform node"),
                    );
                },
            };
            let group_index = match current_group {
                Some(g) => g,
                None => {
                    return Err(VoxError::InvalidNodeGraph("shape node must belong to a group"));
                },
            };
            if shape_node.model_id >= models.len() {
                return Err(VoxError::InvalidNodeGraph("shape node references an unknown model"));
            }
            if models[shape_node.model_id].is_none() {
                return Ok(());
            }
            let transform_anim = if preserve_keyframes {
                AnimTransform {
                    keyframes: copy_transform_keyframes(&transform_node.keyframes),
                    looped: transform_node.looped,
                }
            } else {
                AnimTransform::default()
            };
            let model_anim = if preserve_keyframes {
                AnimModel {
                    keyframes: copy_model_keyframes(&shape_node.keyframes),
                    looped: shape_node.looped,
                }
            } else {
                AnimModel::default()
            };
            let ghost before = instances@;
            instances.push(
                Instance {
                    name: copy_name(&transform_node.name),
                    transform: transform_node.transform,
                    model_index: shape_node.model_id,
                    layer_index: transform_node.layer_index,
                    group_index: Some(group_index),
                    hidden: transform_node.hidden,
                    transform_anim,
                    model_anim,
                },
            );
            proof {
                let inst = instances@[before.len() as int];
                if !preserve_keyframes {
                    assert(inst.transform_anim.keyframes@ =~= Seq::<KeyframeTransform>::empty());
                    assert(inst.model_anim.keyframes@ =~= Seq::<KeyframeModel>::empty());
                }
                assert(instance_built(inst, *transform_node, *shape_node, group_index, preserve_keyframes));
                assert forall|i: int| 0 <= i < instances@.len() implies {
                    let inst = #[trigger] instances@[i];
                    &&& inst.group_index matches Some(g) && g < groups@.len()
                    &&& inst.model_index < models@.len()
                    &&& models@[inst.model_index as int] is Some
                    &&& keyframe_models_ok(inst.model_anim.keyframes@, models@.len())
                    &&& instance_rotations_valid(inst)
                } by {
                    if i < before.len() {
                        assert(instances@[i] == before[i]);
                    }
                }
            }
            Ok(())
        },
    }
}

} // verus!
