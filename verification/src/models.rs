use vstd::arithmetic::div_mod::lemma_add_mod_noop_right;
use vstd::prelude::*;

use crate::dict::bytes_equal;
use crate::scene::Instance;
use crate::types::{KeyframeModel, Model, VoxError};

verus! {

/// The hash of voxel data: each byte added to 65559 times the hash of the bytes
/// before it, modulo 2^32.
pub open spec fn voxel_hash(s: Seq<u8>) -> u32
    decreases s.len(),
{
    if s.len() == 0 {
        0
    } else {
        ((s.last() as int + voxel_hash(s.drop_last()) as int * 65559) % 0x1_0000_0000) as u32
    }
}

/// Hashes voxel data.
pub fn model_hash(data: &[u8]) -> (h: u32)
    ensures
        h == voxel_hash(data@),
{
    let mut hash: u32 = 0;
    let mut index: usize = 0;
    while index < data.len()
        invariant
            index <= data@.len(),
            hash == voxel_hash(data@.take(index as int)),
        decreases data@.len() - index,
    {
        proof {
            assert(data@.take(index + 1).drop_last() =~= data@.take(index as int));
            lemma_add_mod_noop_right(data@[index as int] as int, hash as int * 65559, 0x1_0000_0000);
        }
        hash = (data[index] as u32).wrapping_add(hash.wrapping_mul(65559));
        index += 1;
    }
    assert(data@.take(index as int) =~= data@);
    hash
}

/// Whether two models have the same size and the same voxels.
pub open spec fn same_model(a: Model, b: Model) -> bool {
    &&& a.size_x == b.size_x
    &&& a.size_y == b.size_y
    &&& a.size_z == b.size_z
    &&& a.voxels@ == b.voxels@
}

/// Compares two models: sizes first, then the hash of their voxels, then the
/// voxels themselves.
pub fn models_equal(lhs: &Model, rhs: &Model) -> (eq: bool)
    ensures
        eq == same_model(*lhs, *rhs),
{
    lhs.size_x == rhs.size_x && lhs.size_y == rhs.size_y && lhs.size_z == rhs.size_z && model_hash(
        lhs.voxels.as_slice(),
    ) == model_hash(rhs.voxels.as_slice()) && bytes_equal(lhs.voxels.as_slice(), rhs.voxels.as_slice())
}

/// Whether slot `k` holds a model the same as `m`.
pub open spec fn holds_same(models: Seq<Option<Model>>, k: int, m: Model) -> bool {
    models[k] matches Some(x) && same_model(x, m)
}

/// The first slot below `n` that holds a model the same as `m`, or `n` when no
/// slot does.
pub open spec fn first_match(models: Seq<Option<Model>>, m: Model, n: int) -> int
    decreases n,
{
    if n <= 0 {
        0
    } else {
        let f = first_match(models, m, n - 1);
        if f < n - 1 {
            f
        } else if holds_same(models, n - 1, m) {
            n - 1
        } else {
            n
        }
    }
}

/// `first_match` is the first slot that matches, or `n`.
pub proof fn lemma_first_match(models: Seq<Option<Model>>, m: Model, n: int)
    requires
        0 <= n <= models.len(),
    ensures
        0 <= first_match(models, m, n) <= n,
        first_match(models, m, n) < n ==> holds_same(models, first_match(models, m, n), m),
        forall|k: int| 0 <= k < first_match(models, m, n) ==> !holds_same(models, k, m),
    decreases n,
{
    if n > 0 {
        lemma_first_match(models, m, n - 1);
    }
}

/// The slot whose model stands for the model in slot `j`: the first slot that
/// holds the same model, or `j` itself when it is empty.
pub open spec fn canonical(models: Seq<Option<Model>>, j: int) -> int {
    match models[j] {
        Some(m) => first_match(models, m, j + 1),
        None => j,
    }
}

/// The slot that stands for `j` comes no later, holds the same model, and
/// stands for itself.
pub proof fn lemma_canonical(models: Seq<Option<Model>>, j: int)
    requires
        0 <= j < models.len(),
    ensures
        0 <= canonical(models, j) <= j,
        models[j] matches Some(m) ==> holds_same(models, canonical(models, j), m),
        models[canonical(models, j)] is Some <==> models[j] is Some,
        canonical(models, canonical(models, j)) == canonical(models, j),
{
    if let Some(m) = models[j] {
        lemma_first_match(models, m, j + 1);
        let c = first_match(models, m, j + 1);
        assert(holds_same(models, j, m));
        let mc = models[c]->Some_0;
        lemma_first_match(models, mc, c + 1);
        let cc = first_match(models, mc, c + 1);
        assert(holds_same(models, c, mc));
        if cc < c {
            assert(holds_same(models, cc, m));
        }
    }
}

/// For each slot, the slot whose model stands for it.
pub fn canonical_indices(models: &Vec<Option<Model>>) -> (c: Vec<usize>)
    ensures
        c@.len() == models@.len(),
        forall|j: int| 0 <= j < models@.len() ==> #[trigger] c@[j] == canonical(models@, j),
{
    let mut c: Vec<usize> = Vec::new();
    let mut j: usize = 0;
    while j < models.len()
        invariant
            j <= models@.len(),
            c@.len() == j,
            forall|k: int| 0 <= k < j ==> #[trigger] c@[k] == canonical(models@, k),
        decreases models@.len() - j,
    {
        match &models[j] {
            None => {
                c.push(j);
            },
            Some(mj) => {
                let mut i: usize = 0;
                while i < j
                    invariant
                        i <= j,
                        j < models@.len(),
                        models@[j as int] == Some(*mj),
                        forall|k: int| 0 <= k < i ==> !holds_same(models@, k, *mj),
                    ensures
                        i <= j,
                        i == j || holds_same(models@, i as int, *mj),
                        forall|k: int| 0 <= k < i ==> !holds_same(models@, k, *mj),
                    decreases j - i,
                {
                    let same = match &models[i] {
                        Some(mi) => models_equal(mi, mj),
                        None => false,
                    };
                    if same {
                        break;
                    }
                    i += 1;
                }
                proof {
                    lemma_first_match(models@, *mj, j + 1);
                    let f = first_match(models@, *mj, j + 1);
                    assert(holds_same(models@, j as int, *mj));
                    assert(i == j ==> holds_same(models@, i as int, *mj));
                    assert(holds_same(models@, i as int, *mj));
                    if f < i {
                        assert(!holds_same(models@, f, *mj));
                    }
                    if f > i {
                        assert(!holds_same(models@, i as int, *mj));
                    }
                }
                c.push(i);
            },
        }
        j += 1;
    }
    c
}

/// Keyframes with each model index sent through `map`.
pub open spec fn keyframes_remapped(keyframes: Seq<KeyframeModel>, map: Seq<usize>) -> Seq<KeyframeModel> {
    keyframes.map_values(
        |k: KeyframeModel| KeyframeModel { frame_index: k.frame_index, model_index: map[k.model_index as int] },
    )
}

/// Whether `b` is the instance `a` with its model index and the model indices of
/// its keyframes sent through `map`.
pub open spec fn instance_remapped(a: Instance, b: Instance, map: Seq<usize>) -> bool {
    &&& b.model_index == map[a.model_index as int]
    &&& b.model_anim.keyframes@ == keyframes_remapped(a.model_anim.keyframes@, map)
    &&& b.model_anim.looped == a.model_anim.looped
    &&& b.name == a.name
    &&& b.transform == a.transform
    &&& b.layer_index == a.layer_index
    &&& b.group_index == a.group_index
    &&& b.hidden == a.hidden
    &&& b.transform_anim == a.transform_anim
}

/// Whether every model index of `inst`, its own and its keyframes', is below `n`.
pub open spec fn model_refs_below(inst: Instance, n: nat) -> bool {
    &&& inst.model_index < n
    &&& forall|k: int|
        0 <= k < inst.model_anim.keyframes@.len() ==> (#[trigger] inst.model_anim.keyframes@[k]).model_index
            < n
}

/// Keyframes with each model index sent through `map`.
fn remap_keyframes(keyframes: &Vec<KeyframeModel>, map: &Vec<usize>) -> (r: Vec<KeyframeModel>)
    requires
        forall|k: int| 0 <= k < keyframes@.len() ==> (#[trigger] keyframes@[k]).model_index < map@.len(),
    ensures
        r@ == keyframes_remapped(keyframes@, map@),
{
    let mut r: Vec<KeyframeModel> = Vec::new();
    let mut k: usize = 0;
    while k < keyframes.len()
        invariant
            k <= keyframes@.len(),
            forall|i: int| 0 <= i < keyframes@.len() ==> (#[trigger] keyframes@[i]).model_index < map@.len(),
            r@ == keyframes_remapped(keyframes@.take(k as int), map@),
        decreases keyframes@.len() - k,
    {
        let kf = keyframes[k];
        r.push(KeyframeModel { frame_index: kf.frame_index, model_index: map[kf.model_index] });
        k += 1;
        assert(r@ =~= keyframes_remapped(keyframes@.take(k as int), map@));
    }
    assert(keyframes@.take(k as int) =~= keyframes@);
    r
}

/// Sends the model index of every instance, and of its keyframes, through `map`.
pub fn remap_instances(instances: &mut Vec<Instance>, map: &Vec<usize>)
    requires
        forall|t: int| 0 <= t < old(instances)@.len() ==> model_refs_below(#[trigger] old(instances)@[t], map@.len()),
    ensures
        final(instances)@.len() == old(instances)@.len(),
        forall|t: int|
            0 <= t < old(instances)@.len() ==> instance_remapped(
                #[trigger] old(instances)@[t],
                final(instances)@[t],
                map@,
            ),
{
    let mut t: usize = 0;
    while t < instances.len()
        invariant
            t <= instances@.len(),
            instances@.len() == old(instances)@.len(),
            forall|u: int| 0 <= u < old(instances)@.len() ==> model_refs_below(#[trigger] old(instances)@[u], map@.len()),
            forall|u: int| 0 <= u < t ==> instance_remapped(#[trigger] old(instances)@[u], instances@[u], map@),
            forall|u: int| t <= u < instances@.len() ==> #[trigger] instances@[u] == old(instances)@[u],
        decreases instances@.len() - t,
    {
        assert(model_refs_below(old(instances)@[t as int], map@.len()));
        let keyframes = remap_keyframes(&instances[t].model_anim.keyframes, map);
        let index = map[instances[t].model_index];
        instances[t].model_index = index;
        instances[t].model_anim.keyframes = keyframes;
        t += 1;
    }
}

/// Drops every model that an earlier slot already holds, and sends the instances
/// that showed it to that earlier slot.
pub fn dedupe_models(models: &mut Vec<Option<Model>>, instances: &mut Vec<Instance>)
    requires
        forall|t: int| 0 <= t < old(instances)@.len() ==> model_refs_below(#[trigger] old(instances)@[t], old(models)@.len()),
    ensures
        final(models)@.len() == old(models)@.len(),
        forall|j: int|
            0 <= j < old(models)@.len() ==> #[trigger] final(models)@[j] == if canonical(old(models)@, j) == j {
                old(models)@[j]
            } else {
                None
            },
        final(instances)@.len() == old(instances)@.len(),
        forall|t: int|
            0 <= t < old(instances)@.len() ==> instance_remapped(
                #[trigger] old(instances)@[t],
                final(instances)@[t],
                Seq::new(old(models)@.len(), |j: int| canonical(old(models)@, j) as usize),
            ),
{
    let map = canonical_indices(models);
    assert(map@ =~= Seq::new(old(models)@.len(), |j: int| canonical(old(models)@, j) as usize)) by {
        assert forall|j: int| 0 <= j < old(models)@.len() implies map@[j] == canonical(old(models)@, j) as usize by {
            lemma_canonical(old(models)@, j);
        }
    }
    remap_instances(instances, &map);
    let mut j: usize = 0;
    while j < models.len()
        invariant
            j <= models@.len(),
            models@.len() == old(models)@.len(),
            map@.len() == old(models)@.len(),
            forall|k: int| 0 <= k < old(models)@.len() ==> #[trigger] map@[k] == canonical(old(models)@, k),
            forall|k: int|
                0 <= k < j ==> #[trigger] models@[k] == if canonical(old(models)@, k) == k {
                    old(models)@[k]
                } else {
                    None
                },
            forall|k: int| j <= k < models@.len() ==> #[trigger] models@[k] == old(models)@[k],
        decreases models@.len() - j,
    {
        if map[j] != j {
            models.set(j, None);
        }
        j += 1;
    }
}

/// The models held in `slots`, in order.
pub open spec fn kept_models(slots: Seq<Option<Model>>) -> Seq<Model>
    decreases slots.len(),
{
    if slots.len() == 0 {
        Seq::empty()
    } else {
        let before = kept_models(slots.drop_last());
        match slots.last() {
            Some(m) => before.push(m),
            None => before,
        }
    }
}

/// The index that slot `j` takes among the models held: the number of models
/// held before it.
pub open spec fn kept_index(slots: Seq<Option<Model>>, j: int) -> int {
    kept_models(slots.take(j)).len() as int
}

/// Whether `inst` shows an empty slot, itself or in a keyframe.
pub open spec fn shows_empty(slots: Seq<Option<Model>>, inst: Instance) -> bool {
    ||| slots[inst.model_index as int] is None
    ||| exists|k: int|
        0 <= k < inst.model_anim.keyframes@.len() && slots[(#[trigger] inst.model_anim.keyframes@[k]).model_index as int]
            is None
}

/// Slot `j`'s model sits at its kept index among the models held.
pub proof fn lemma_kept_index(slots: Seq<Option<Model>>, j: int)
    requires
        0 <= j < slots.len(),
    ensures
        0 <= kept_index(slots, j) <= kept_models(slots).len(),
        slots[j] matches Some(m) ==> kept_index(slots, j) < kept_models(slots).len() && kept_models(slots)[kept_index(
            slots,
            j,
        )] == m,
    decreases slots.len(),
{
    if j == slots.len() - 1 {
        assert(slots.take(j) =~= slots.drop_last());
    } else {
        lemma_kept_index(slots.drop_last(), j);
        assert(slots.drop_last().take(j) =~= slots.take(j));
    }
}

/// The count of models held before slot `j` grows with `j`.
pub proof fn lemma_kept_index_grows(slots: Seq<Option<Model>>, j: int, k: int)
    requires
        0 <= j <= k <= slots.len(),
    ensures
        kept_index(slots, j) <= kept_index(slots, k),
        j < k && slots[j] is Some ==> kept_index(slots, j) < kept_index(slots, k),
    decreases k - j,
{
    if j < k {
        lemma_kept_index_grows(slots, j, k - 1);
        assert(slots.take(k).drop_last() =~= slots.take(k - 1));
        if j == k - 1 {
            assert(slots.take(k).last() == slots[j]);
        }
    }
}

/// Each model held comes from a slot whose kept index is its place.
pub proof fn lemma_kept_source(slots: Seq<Option<Model>>, a: int)
    requires
        0 <= a < kept_models(slots).len(),
    ensures
        exists|j: int| 0 <= j < slots.len() && slots[j] == Some(kept_models(slots)[a]) && #[trigger] kept_index(slots, j) == a,
    decreases slots.len(),
{
    let rest = slots.drop_last();
    let n = slots.len() - 1;
    if a < kept_models(rest).len() {
        lemma_kept_source(rest, a);
        let j = choose|j: int| 0 <= j < rest.len() && rest[j] == Some(kept_models(rest)[a]) && #[trigger] kept_index(rest, j) == a;
        assert(rest.take(j) =~= slots.take(j));
        assert(kept_index(slots, j) == a);
    } else {
        assert(slots.take(n) =~= rest);
        assert(kept_index(slots, n) == a);
    }
}

/// Drops the empty slots: the models held, in order, with every instance sent to
/// its model's new index. Fails when an instance shows an empty slot.
pub fn compact_models(slots: Vec<Option<Model>>, instances: &mut Vec<Instance>) -> (r: Result<Vec<Model>, VoxError>)
    requires
        forall|t: int| 0 <= t < old(instances)@.len() ==> model_refs_below(#[trigger] old(instances)@[t], slots@.len()),
    ensures
        (exists|t: int| 0 <= t < old(instances)@.len() && shows_empty(slots@, #[trigger] old(instances)@[t]))
            ==> r matches Err(VoxError::InvalidData(_)),
        !(exists|t: int| 0 <= t < old(instances)@.len() && shows_empty(slots@, #[trigger] old(instances)@[t]))
            ==> r is Ok && r->Ok_0@ == kept_models(slots@) && final(instances)@.len() == old(instances)@.len()
            && forall|t: int|
            0 <= t < old(instances)@.len() ==> instance_remapped(
                #[trigger] old(instances)@[t],
                final(instances)@[t],
                Seq::new(slots@.len(), |j: int| kept_index(slots@, j) as usize),
            ),
{
    let mut t: usize = 0;
    while t < instances.len()
        invariant
            t <= instances@.len(),
            *instances == *old(instances),
            forall|u: int| 0 <= u < instances@.len() ==> model_refs_below(#[trigger] instances@[u], slots@.len()),
            forall|u: int| 0 <= u < t ==> !shows_empty(slots@, #[trigger] instances@[u]),
        decreases instances@.len() - t,
    {
        let inst = &instances[t];
        assert(model_refs_below(instances@[t as int], slots@.len()));
        if slots[inst.model_index].is_none() {
            return Err(VoxError::InvalidData("instance references an empty model".to_string()));
        }
        let mut k: usize = 0;
        while k < inst.model_anim.keyframes.len()
            invariant
                k <= inst.model_anim.keyframes@.len(),
                model_refs_below(*inst, slots@.len()),
                *instances == *old(instances),
                t < instances@.len(),
                *inst == instances@[t as int],
                forall|i: int| 0 <= i < k ==> slots@[(#[trigger] inst.model_anim.keyframes@[i]).model_index as int] is Some,
            decreases inst.model_anim.keyframes@.len() - k,
        {
            if slots[inst.model_anim.keyframes[k].model_index].is_none() {
                assert(shows_empty(slots@, *inst));
                return Err(VoxError::InvalidData("animation references an empty model".to_string()));
            }
            k += 1;
        }
        assert(!shows_empty(slots@, *inst));
        t += 1;
    }
    let mut kept: Vec<Model> = Vec::new();
    let mut map: Vec<usize> = Vec::new();
    let ghost all = slots@;
    let mut rest = slots;
    let mut j: usize = 0;
    let n = rest.len();
    while j < n
        invariant
            j <= n,
            n == all.len(),
            map@.len() == j,
            kept@ == kept_models(all.take(j as int)),
            forall|i: int| 0 <= i < j ==> #[trigger] map@[i] == kept_index(all, i),
            rest@.len() == n,
            forall|i: int| j <= i < n ==> #[trigger] rest@[i] == all[i],
            kept@.len() <= j,
        decreases n - j,
    {
        assert(kept_index(all, j as int) == kept@.len());
        map.push(kept.len());
        let mut slot: Option<Model> = None;
        rest.set_and_swap(j, &mut slot);
        match slot {
            Some(m) => {
                kept.push(m);
            },
            None => {},
        }
        assert(all.take(j + 1).drop_last() =~= all.take(j as int));
        j += 1;
        assert forall|i: int| j <= i < n implies #[trigger] rest@[i] == all[i] by {}
    }
    assert(all.take(n as int) =~= all);
    remap_instances(instances, &map);
    assert(map@ =~= Seq::new(all.len(), |j: int| kept_index(all, j) as usize));
    Ok(kept)
}

} // verus!
