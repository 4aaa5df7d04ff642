use vstd::prelude::*;

use crate::scene::{Group, Instance};

verus! {

/// Whether `v` is strictly increasing.
pub open spec fn increasing(v: Seq<u32>) -> bool {
    forall|i: int, j: int| 0 <= i < j < v.len() ==> v[i] < v[j]
}

/// Adds the frame `x` to the increasing frames `v`, which stay increasing and
/// hold `x` once.
pub fn insert_frame(v: &mut Vec<u32>, x: u32)
    requires
        increasing(old(v)@),
    ensures
        increasing(final(v)@),
        forall|y: u32| final(v)@.contains(y) <==> (old(v)@.contains(y) || y == x),
{
    let mut i: usize = 0;
    while i < v.len() && v[i] < x
        invariant
            i <= v@.len(),
            v@ == old(v)@,
            forall|k: int| 0 <= k < i ==> v@[k] < x,
        decreases v@.len() - i,
    {
        i += 1;
    }
    if i < v.len() && v[i] == x {
        assert forall|y: u32| v@.contains(y) <==> (old(v)@.contains(y) || y == x) by {
            if y == x {
                assert(v@[i as int] == x);
            }
        }
        return;
    }
    let ghost before = v@;
    v.insert(i, x);
    let ghost after = v@;
    assert forall|a: int, b: int| 0 <= a < b < after.len() implies after[a] < after[b] by {
        if b < i {
        } else if b == i {
            assert(after[a] == before[a]);
        } else if a < i {
            assert(after[a] == before[a]);
            assert(after[b] == before[b - 1]);
            assert(before[i as int] > x);
            if b - 1 > i {
                assert(before[i as int] < before[b - 1]);
            }
        } else if a == i {
            assert(after[b] == before[b - 1]);
            assert(before[i as int] > x);
            if b - 1 > i {
                assert(before[i as int] < before[b - 1]);
            }
        } else {
            assert(after[a] == before[a - 1]);
            assert(after[b] == before[b - 1]);
        }
    }
    assert forall|y: u32| after.contains(y) <==> (before.contains(y) || y == x) by {
        if before.contains(y) {
            let k = choose|k: int| 0 <= k < before.len() && before[k] == y;
            if k < i {
                assert(after[k] == y);
            } else {
                assert(after[k + 1] == y);
            }
        }
        if y == x {
            assert(after[i as int] == x);
        }
        if after.contains(y) {
            let k = choose|k: int| 0 <= k < after.len() && after[k] == y;
            if k < i {
                assert(before[k] == y);
            } else if k > i {
                assert(before[k - 1] == y);
            }
        }
    }
}

/// Whether `f` is a frame at which an instance's global transform is sampled
/// for baking: a frame of one of its own keyframes, or frame `0` when it has
/// none, or a frame of a keyframe of one of the groups of `chain`.
pub open spec fn bake_frame(inst: Instance, groups: Seq<Group>, chain: Seq<usize>, f: u32) -> bool {
    ||| (inst.transform_anim.keyframes@.len() == 0 && f == 0)
    ||| (exists|k: int|
        0 <= k < inst.transform_anim.keyframes@.len() && (#[trigger] inst.transform_anim.keyframes@[k]).frame_index
            == f)
    ||| (exists|c: int, k: int|
        0 <= c < chain.len() && 0 <= k < groups[chain[c] as int].transform_anim.keyframes@.len() && (
        #[trigger] groups[chain[c] as int].transform_anim.keyframes@[k]).frame_index == f)
}

/// The frames at which an instance's global transform is sampled for baking,
/// in increasing order, each once: those of its own keyframes, or frame `0`
/// when it has none, and those of the keyframes of the groups in `chain`, the
/// groups it lies in.
pub fn bake_frames(inst: &Instance, groups: &Vec<Group>, chain: &Vec<usize>) -> (frames: Vec<u32>)
    requires
        forall|c: int| 0 <= c < chain@.len() ==> (#[trigger] chain@[c]) < groups@.len(),
    ensures
        increasing(frames@),
        forall|f: u32| frames@.contains(f) <==> bake_frame(*inst, groups@, chain@, f),
{
    let mut frames: Vec<u32> = Vec::new();
    let own = &inst.transform_anim.keyframes;
    if own.len() == 0 {
        insert_frame(&mut frames, 0);
    }
    let mut k: usize = 0;
    while k < own.len()
        invariant
            k <= own@.len(),
            own@ == inst.transform_anim.keyframes@,
            increasing(frames@),
            forall|f: u32|
                frames@.contains(f) <==> ((own@.len() == 0 && f == 0) || exists|q: int|
                    0 <= q < k && (#[trigger] own@[q]).frame_index == f),
        decreases own@.len() - k,
    {
        let ghost prior = frames@;
        insert_frame(&mut frames, own[k].frame_index);
        proof {
            assert forall|f: u32| frames@.contains(f) <==> ((own@.len() == 0 && f == 0) || exists|q: int|
                0 <= q < k + 1 && (#[trigger] own@[q]).frame_index == f) by {
                if exists|q: int| 0 <= q < k + 1 && (#[trigger] own@[q]).frame_index == f {
                    let q = choose|q: int| 0 <= q < k + 1 && (#[trigger] own@[q]).frame_index == f;
                    if q < k {
                        assert(prior.contains(f));
                    }
                }
            }
        }
        k += 1;
    }
    let mut c: usize = 0;
    while c < chain.len()
        invariant
            c <= chain@.len(),
            forall|c2: int| 0 <= c2 < chain@.len() ==> (#[trigger] chain@[c2]) < groups@.len(),
            own@ == inst.transform_anim.keyframes@,
            increasing(frames@),
            forall|f: u32|
                frames@.contains(f) <==> ((own@.len() == 0 && f == 0) || (exists|q: int|
                    0 <= q < own@.len() && (#[trigger] own@[q]).frame_index == f) || (exists|c2: int, q: int|
                    0 <= c2 < c && 0 <= q < groups@[chain@[c2] as int].transform_anim.keyframes@.len() && (
                    #[trigger] groups@[chain@[c2] as int].transform_anim.keyframes@[q]).frame_index == f)),
        decreases chain@.len() - c,
    {
        let keys = &groups[chain[c]].transform_anim.keyframes;
        let mut q: usize = 0;
        while q < keys.len()
            invariant
                c < chain@.len(),
                q <= keys@.len(),
                keys@ == groups@[chain@[c as int] as int].transform_anim.keyframes@,
                forall|c2: int| 0 <= c2 < chain@.len() ==> (#[trigger] chain@[c2]) < groups@.len(),
                own@ == inst.transform_anim.keyframes@,
                increasing(frames@),
                forall|f: u32|
                    frames@.contains(f) <==> ((own@.len() == 0 && f == 0) || (exists|q1: int|
                        0 <= q1 < own@.len() && (#[trigger] own@[q1]).frame_index == f) || (exists|c2: int, q1: int|
                        0 <= c2 < c && 0 <= q1 < groups@[chain@[c2] as int].transform_anim.keyframes@.len() && (
                        #[trigger] groups@[chain@[c2] as int].transform_anim.keyframes@[q1]).frame_index == f)
                        || (exists|q1: int| 0 <= q1 < q && (#[trigger] keys@[q1]).frame_index == f)),
            decreases keys@.len() - q,
        {
            let ghost prior = frames@;
            insert_frame(&mut frames, keys[q].frame_index);
            proof {
                assert forall|f: u32| frames@.contains(f) <==> ((own@.len() == 0 && f == 0) || (exists|q1: int|
                    0 <= q1 < own@.len() && (#[trigger] own@[q1]).frame_index == f) || (exists|c2: int, q1: int|
                    0 <= c2 < c && 0 <= q1 < groups@[chain@[c2] as int].transform_anim.keyframes@.len() && (
                    #[trigger] groups@[chain@[c2] as int].transform_anim.keyframes@[q1]).frame_index == f)
                    || (exists|q1: int| 0 <= q1 < q + 1 && (#[trigger] keys@[q1]).frame_index == f)) by {
                    if exists|q1: int| 0 <= q1 < q + 1 && (#[trigger] keys@[q1]).frame_index == f {
                        let q1 = choose|q1: int| 0 <= q1 < q + 1 && (#[trigger] keys@[q1]).frame_index == f;
                        if q1 < q {
                            assert(prior.contains(f));
                        }
                    }
                }
            }
            q += 1;
        }
        proof {
            assert forall|f: u32| frames@.contains(f) <==> ((own@.len() == 0 && f == 0) || (exists|q1: int|
                0 <= q1 < own@.len() && (#[trigger] own@[q1]).frame_index == f) || (exists|c2: int, q1: int|
                0 <= c2 < c + 1 && 0 <= q1 < groups@[chain@[c2] as int].transform_anim.keyframes@.len() && (
                #[trigger] groups@[chain@[c2] as int].transform_anim.keyframes@[q1]).frame_index == f)) by {
                if exists|c2: int, q1: int|
                    0 <= c2 < c + 1 && 0 <= q1 < groups@[chain@[c2] as int].transform_anim.keyframes@.len() && (
                    #[trigger] groups@[chain@[c2] as int].transform_anim.keyframes@[q1]).frame_index == f {
                    let (c2, q1) = choose|c2: int, q1: int|
                        0 <= c2 < c + 1 && 0 <= q1 < groups@[chain@[c2] as int].transform_anim.keyframes@.len() && (
                        #[trigger] groups@[chain@[c2] as int].transform_anim.keyframes@[q1]).frame_index == f;
                    if c2 == c {
                        assert(keys@[q1].frame_index == f);
                    }
                }
                if exists|q1: int| 0 <= q1 < keys@.len() && (#[trigger] keys@[q1]).frame_index == f {
                    let q1 = choose|q1: int| 0 <= q1 < keys@.len() && (#[trigger] keys@[q1]).frame_index == f;
                    assert(groups@[chain@[c as int] as int].transform_anim.keyframes@[q1].frame_index == f);
                }
            }
        }
        c += 1;
    }
    frames
}

} // verus!
