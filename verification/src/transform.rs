use vstd::prelude::*;

use crate::text::{parse_i32_words, parse_u32, parse_u32_text, parse_vec_i32, words};
use crate::types::VoxError;

verus! {

/// A transform that maps each axis onto a signed axis and then translates by
/// whole voxels: the transforms that a `.vox` file stores.
///
/// `rotation` packs the rotation as the file does: bits 0-1 name the axis that
/// the first column points along, bits 2-3 the axis of the second column, and
/// bits 4, 5, 6 negate the first, second and third column. The third column
/// points along the remaining axis.
#[derive(Clone, Copy, Debug, PartialEq, Eq, Structural)]
pub struct CardinalTransform {
    /// The packed rotation.
    pub rotation: u8,
    /// The translation along x.
    pub tx: i32,
    /// The translation along y.
    pub ty: i32,
    /// The translation along z.
    pub tz: i32,
}

/// The translation of `t` along axis `k`.
pub open spec fn translation_along(t: CardinalTransform, k: int) -> i32 {
    if k == 0 {
        t.tx
    } else if k == 1 {
        t.ty
    } else {
        t.tz
    }
}

/// The axis that column `k` of a packed rotation points along.
pub open spec fn column_axis(rotation: u8, k: int) -> int {
    if k == 0 {
        (rotation % 4) as int
    } else if k == 1 {
        ((rotation / 4) % 4) as int
    } else {
        3 - (rotation % 4) as int - ((rotation / 4) % 4) as int
    }
}

/// Whether column `k` of a packed rotation is negated.
pub open spec fn column_negated(rotation: u8, k: int) -> bool {
    if k == 0 {
        (rotation / 16) % 2 == 1
    } else if k == 1 {
        (rotation / 32) % 2 == 1
    } else {
        (rotation / 64) % 2 == 1
    }
}

/// The sign of column `k` of a packed rotation.
pub open spec fn column_sign(rotation: u8, k: int) -> int {
    if column_negated(rotation, k) {
        -1
    } else {
        1
    }
}

/// Whether a packed rotation is in the form the file format writes: both named
/// axes are real and distinct, and no bit above the sign bits is set.
pub open spec fn valid_rotation(rotation: u8) -> bool {
    &&& rotation % 4 < 3
    &&& (rotation / 4) % 4 < 3
    &&& rotation % 4 != (rotation / 4) % 4
    &&& rotation < 128
}

/// The packed rotation whose columns point along `a0`, `a1` (and the remaining
/// axis) with the given negations.
pub open spec fn pack_rotation(a0: int, a1: int, n0: bool, n1: bool, n2: bool) -> int {
    a0 + 4 * a1 + (if n0 {
        16int
    } else {
        0
    }) + (if n1 {
        32int
    } else {
        0
    }) + (if n2 {
        64int
    } else {
        0
    })
}

/// `v` held to the range of an `i32`.
pub open spec fn clamp_i32(v: int) -> i32 {
    if v < i32::MIN {
        i32::MIN
    } else if v > i32::MAX {
        i32::MAX
    } else {
        v as i32
    }
}

/// `a` followed by `b`, as the product of their matrices in row-vector form:
/// column `k` of the result points along the axis that column `b_k` of `a`
/// points along, and the translation is `a`'s translation rotated by `b`, plus
/// `b`'s translation, held to the range of an `i32`.
pub open spec fn compose(a: CardinalTransform, b: CardinalTransform) -> CardinalTransform {
    CardinalTransform {
        rotation: pack_rotation(
            composed_axis(a, b, 0),
            composed_axis(a, b, 1),
            composed_negated(a, b, 0),
            composed_negated(a, b, 1),
            composed_negated(a, b, 2),
        ) as u8,
        tx: composed_translation(a, b, 0),
        ty: composed_translation(a, b, 1),
        tz: composed_translation(a, b, 2),
    }
}

/// The axis that column `k` of `a` followed by `b` points along.
pub open spec fn composed_axis(a: CardinalTransform, b: CardinalTransform, k: int) -> int {
    column_axis(a.rotation, column_axis(b.rotation, k))
}

/// Whether column `k` of `a` followed by `b` is negated.
pub open spec fn composed_negated(a: CardinalTransform, b: CardinalTransform, k: int) -> bool {
    column_negated(a.rotation, column_axis(b.rotation, k)) != column_negated(b.rotation, k)
}

/// The translation of `a` followed by `b` along axis `k`.
pub open spec fn composed_translation(a: CardinalTransform, b: CardinalTransform, k: int) -> i32 {
    clamp_i32(
        with_sign(translation_along(a, column_axis(b.rotation, k)) as int, column_negated(b.rotation, k))
            + translation_along(b, k),
    )
}

/// `v`, negated when `negated` holds.
pub open spec fn with_sign(v: int, negated: bool) -> int {
    if negated {
        -v
    } else {
        v
    }
}

/// The packed rotation built from two distinct real axes and three negations
/// is valid and decodes to them.
proof fn lemma_pack(a0: u8, a1: u8, n0: bool, n1: bool, n2: bool)
    requires
        a0 < 3,
        a1 < 3,
        a0 != a1,
    ensures
        ({
            let p = pack_rotation(a0 as int, a1 as int, n0, n1, n2) as u8;
            &&& 0 <= pack_rotation(a0 as int, a1 as int, n0, n1, n2) < 128
            &&& valid_rotation(p)
            &&& column_axis(p, 0) == a0
            &&& column_axis(p, 1) == a1
            &&& column_negated(p, 0) == n0
            &&& column_negated(p, 1) == n1
            &&& column_negated(p, 2) == n2
        }),
{
    let b0: u8 = if n0 { 1 } else { 0 };
    let b1: u8 = if n1 { 1 } else { 0 };
    let b2: u8 = if n2 { 1 } else { 0 };
    let p: u8 = (a0 + 4 * a1 + 16 * b0 + 32 * b1 + 64 * b2) as u8;
    assert(pack_rotation(a0 as int, a1 as int, n0, n1, n2) == a0 + 4 * a1 + 16 * b0 + 32 * b1 + 64 * b2);
    assert(p % 4 == a0 && (p / 4) % 4 == a1 && (p / 16) % 2 == b0 && (p / 32) % 2 == b1 && (p / 64)
        % 2 == b2 && p < 128) by (bit_vector)
        requires
            a0 < 3,
            a1 < 3,
            b0 < 2,
            b1 < 2,
            b2 < 2,
            p == a0 + 4 * a1 + 16 * b0 + 32 * b1 + 64 * b2,
    ;
}

/// The packed rotation that leaves every axis in place.
pub open spec fn identity_rotation() -> u8 {
    4
}

impl CardinalTransform {
    /// The transform that changes nothing.
    pub fn identity() -> (t: Self)
        ensures
            t == (CardinalTransform { rotation: identity_rotation(), tx: 0, ty: 0, tz: 0 }),
    {
        CardinalTransform { rotation: 4, tx: 0, ty: 0, tz: 0 }
    }

    /// Composes this transform with `other`: `self` first, then `other`.
    pub fn multiply(self, other: Self) -> (t: Self)
        requires
            valid_rotation(self.rotation),
            valid_rotation(other.rotation),
        ensures
            t == compose(self, other),
            valid_rotation(t.rotation),
    {
        let b0 = axis_of(other.rotation, 0);
        let b1 = axis_of(other.rotation, 1);
        let b2 = axis_of(other.rotation, 2);
        let axis0 = axis_of(self.rotation, b0);
        let axis1 = axis_of(self.rotation, b1);
        let neg0 = negated_of(self.rotation, b0) != negated_of(other.rotation, 0);
        let neg1 = negated_of(self.rotation, b1) != negated_of(other.rotation, 1);
        let neg2 = negated_of(self.rotation, b2) != negated_of(other.rotation, 2);
        let rotation = axis0 + 4 * axis1 + if neg0 {
            16
        } else {
            0
        } + if neg1 {
            32
        } else {
            0
        } + if neg2 {
            64
        } else {
            0
        };
        let tx = moved_translation(&self, b0, negated_of(other.rotation, 0), other.tx);
        let ty = moved_translation(&self, b1, negated_of(other.rotation, 1), other.ty);
        let tz = moved_translation(&self, b2, negated_of(other.rotation, 2), other.tz);
        proof {
            lemma_pack(axis0, axis1, neg0, neg1, neg2);
        }
        CardinalTransform { rotation, tx, ty, tz }
    }
}

/// The axis that column `k` of a valid packed rotation points along.
fn axis_of(rotation: u8, k: u8) -> (axis: u8)
    requires
        valid_rotation(rotation),
        k < 3,
    ensures
        axis == column_axis(rotation, k as int),
        axis < 3,
{
    if k == 0 {
        rotation % 4
    } else if k == 1 {
        (rotation / 4) % 4
    } else {
        3 - rotation % 4 - (rotation / 4) % 4
    }
}

/// Whether column `k` of a packed rotation is negated.
fn negated_of(rotation: u8, k: u8) -> (negated: bool)
    requires
        k < 3,
    ensures
        negated == column_negated(rotation, k as int),
{
    if k == 0 {
        (rotation / 16) % 2 == 1
    } else if k == 1 {
        (rotation / 32) % 2 == 1
    } else {
        (rotation / 64) % 2 == 1
    }
}

/// The translation of `t` along `axis`, negated when asked, plus `offset`, held
/// to the range of an `i32`.
fn moved_translation(t: &CardinalTransform, axis: u8, negated: bool, offset: i32) -> (v: i32)
    requires
        axis < 3,
    ensures
        v == clamp_i32(with_sign(translation_along(*t, axis as int) as int, negated) + offset),
{
    let moved: i64 = if axis == 0 {
        t.tx as i64
    } else if axis == 1 {
        t.ty as i64
    } else {
        t.tz as i64
    };
    let signed = if negated {
        -moved
    } else {
        moved
    };
    let sum = signed + offset as i64;
    if sum < i32::MIN as i64 {
        i32::MIN
    } else if sum > i32::MAX as i64 {
        i32::MAX
    } else {
        sum as i32
    }
}

/// The rotation that the text `_r` of a frame names: its decimal value cut to
/// the seven bits in use, or `None` when the text is not a number, or does not
/// name two distinct real axes.
pub open spec fn rotation_from_text(text: Seq<u8>) -> Option<u8> {
    match parse_u32_text(text) {
        Some(bits) => {
            let r = (bits % 128) as u8;
            if valid_rotation(r) {
                Some(r)
            } else {
                None
            }
        },
        None => None,
    }
}

/// The translation that the text `_t` of a frame names: exactly three `i32` words.
pub open spec fn translation_from_text(text: Seq<u8>) -> Option<Seq<i32>> {
    match parse_i32_words(words(text)) {
        Some(v) => if v.len() == 3 {
            Some(v)
        } else {
            None
        },
        None => None,
    }
}

/// The transform that the texts `_r` and `_t` of a frame describe; an absent text
/// leaves the identity's part in place.
pub open spec fn transform_from_text(rotation: Option<Seq<u8>>, translation: Option<Seq<u8>>) -> Option<
    CardinalTransform,
> {
    let r = match rotation {
        Some(text) => rotation_from_text(text),
        None => Some(identity_rotation()),
    };
    let t = match translation {
        Some(text) => translation_from_text(text),
        None => Some(seq![0i32, 0i32, 0i32]),
    };
    match (r, t) {
        (Some(r), Some(t)) => Some(CardinalTransform { rotation: r, tx: t[0], ty: t[1], tz: t[2] }),
        _ => None,
    }
}

/// Builds a transform from the `_r` and `_t` texts of a frame.
pub fn parse_transform(rotation: Option<&Vec<u8>>, translation: Option<&Vec<u8>>) -> (t: Result<
    CardinalTransform,
    VoxError,
>)
    ensures
        match transform_from_text(
            match rotation {
                Some(r) => Some(r@),
                None => None,
            },
            match translation {
                Some(x) => Some(x@),
                None => None,
            },
        ) {
            Some(x) => t == Ok::<CardinalTransform, VoxError>(x),
            None => t matches Err(VoxError::InvalidData(_)),
        },
{
    let mut transform = CardinalTransform::identity();
    if let Some(text) = rotation {
        match parse_u32(text.as_slice()) {
            None => {
                return Err(VoxError::InvalidData("invalid rotation value".to_string()));
            },
            Some(bits) => {
                let r = (bits % 128) as u8;
                let row0 = r % 4;
                let row1 = (r / 4) % 4;
                if row0 == 3 || row1 == 3 || row0 == row1 {
                    return Err(VoxError::InvalidData("invalid packed rotation bits".to_string()));
                }
                transform.rotation = r;
            },
        }
    }
    if let Some(text) = translation {
        match parse_vec_i32(text.as_slice()) {
            None => {
                return Err(VoxError::InvalidData("invalid translation value".to_string()));
            },
            Some(values) => {
                if values.len() != 3 {
                    return Err(VoxError::InvalidData("invalid translation value".to_string()));
                }
                transform.tx = values[0];
                transform.ty = values[1];
                transform.tz = values[2];
            },
        }
    }
    Ok(transform)
}

/// Law: the identity changes nothing when it comes first.
pub proof fn identity_then(t: CardinalTransform)
    requires
        valid_rotation(t.rotation),
    ensures
        compose(CardinalTransform { rotation: identity_rotation(), tx: 0, ty: 0, tz: 0 }, t) == t,
{
    assert(compose(CardinalTransform { rotation: identity_rotation(), tx: 0, ty: 0, tz: 0 }, t).rotation == t.rotation) by {
        assert(pack_rotation(
            column_axis(t.rotation, 0),
            column_axis(t.rotation, 1),
            column_negated(t.rotation, 0),
            column_negated(t.rotation, 1),
            column_negated(t.rotation, 2),
        ) == t.rotation);
    }
}

/// Law: the identity changes nothing when it comes second.
pub proof fn then_identity(t: CardinalTransform)
    requires
        valid_rotation(t.rotation),
    ensures
        compose(t, CardinalTransform { rotation: identity_rotation(), tx: 0, ty: 0, tz: 0 }) == t,
{
}

/// The coordinate of the point `p` along axis `k`.
pub open spec fn coord(p: (int, int, int), k: int) -> int {
    if k == 0 {
        p.0
    } else if k == 1 {
        p.1
    } else {
        p.2
    }
}

/// Coordinate `k` of the point that `t` moves `p` to, with points as row
/// vectors: the coordinate of `p` along the axis that column `k` of the rotation
/// points along, negated with the column, plus the translation along `k`.
pub open spec fn moved_coord(t: CardinalTransform, p: (int, int, int), k: int) -> int {
    column_sign(t.rotation, k) * coord(p, column_axis(t.rotation, k)) + translation_along(t, k) as int
}

/// The point that `t` moves `p` to.
pub open spec fn apply(t: CardinalTransform, p: (int, int, int)) -> (int, int, int) {
    (moved_coord(t, p, 0), moved_coord(t, p, 1), moved_coord(t, p, 2))
}

/// The translation of `t` as a point.
pub open spec fn translation_point(t: CardinalTransform) -> (int, int, int) {
    (t.tx as int, t.ty as int, t.tz as int)
}

/// The three columns of a valid rotation point along the three axes, each once.
proof fn lemma_columns(r: u8)
    requires
        valid_rotation(r),
    ensures
        0 <= column_axis(r, 0) < 3,
        0 <= column_axis(r, 1) < 3,
        0 <= column_axis(r, 2) < 3,
        column_axis(r, 0) != column_axis(r, 1),
        column_axis(r, 0) != column_axis(r, 2),
        column_axis(r, 1) != column_axis(r, 2),
{
}

/// The columns of `a` followed by `b` point along `a`'s columns picked by
/// `b`'s, with the signs of both.
proof fn lemma_composed_columns(a: CardinalTransform, b: CardinalTransform)
    requires
        valid_rotation(a.rotation),
        valid_rotation(b.rotation),
    ensures
        forall|k: int|
            0 <= k < 3 ==> column_axis(compose(a, b).rotation, k) == #[trigger] column_axis(
                a.rotation,
                column_axis(b.rotation, k),
            ),
        forall|k: int|
            0 <= k < 3 ==> #[trigger] column_negated(compose(a, b).rotation, k) == (column_negated(
                a.rotation,
                column_axis(b.rotation, k),
            ) != column_negated(b.rotation, k)),
{
    lemma_columns(a.rotation);
    lemma_columns(b.rotation);
    let c = compose(a, b);
    lemma_pack(
        composed_axis(a, b, 0) as u8,
        composed_axis(a, b, 1) as u8,
        composed_negated(a, b, 0),
        composed_negated(a, b, 1),
        composed_negated(a, b, 2),
    );
    assert(column_axis(c.rotation, 2) == composed_axis(a, b, 2));
}

/// Coordinate `k` of a point moved by `a` followed by `b` is as `a` and then
/// `b` move it, when the composed translation fits an `i32`.
proof fn lemma_composed_coord(a: CardinalTransform, b: CardinalTransform, p: (int, int, int), k: int)
    requires
        valid_rotation(a.rotation),
        valid_rotation(b.rotation),
        0 <= k < 3,
        i32::MIN <= moved_coord(b, translation_point(a), k) <= i32::MAX,
    ensures
        moved_coord(compose(a, b), p, k) == moved_coord(b, apply(a, p), k),
        translation_along(compose(a, b), k) as int == moved_coord(b, translation_point(a), k),
{
    lemma_columns(b.rotation);
    lemma_composed_columns(a, b);
    let c = compose(a, b);
    let bk = column_axis(b.rotation, k);
    assert(column_axis(c.rotation, k) == column_axis(a.rotation, bk));
    assert(column_negated(c.rotation, k) == (column_negated(a.rotation, bk) != column_negated(b.rotation, k)));
    assert(coord(apply(a, p), bk) == moved_coord(a, p, bk));
    assert(coord(translation_point(a), bk) == translation_along(a, bk) as int);
    assert(translation_along(c, k) == composed_translation(a, b, k));
}

/// Law: `a` followed by `b` moves every point as `a` and then `b` do, whenever
/// the translation of the result fits an `i32`: the composed translation is that
/// of `a` moved by `b`, and the composed rotation is `a`'s then `b`'s.
pub proof fn compose_moves_as_both(a: CardinalTransform, b: CardinalTransform, p: (int, int, int))
    requires
        valid_rotation(a.rotation),
        valid_rotation(b.rotation),
        forall|k: int| 0 <= k < 3 ==> i32::MIN <= #[trigger] moved_coord(b, translation_point(a), k) <= i32::MAX,
    ensures
        apply(compose(a, b), p) == apply(b, apply(a, p)),
        translation_point(compose(a, b)) == apply(b, translation_point(a)),
{
    assert(i32::MIN <= moved_coord(b, translation_point(a), 0) <= i32::MAX);
    assert(i32::MIN <= moved_coord(b, translation_point(a), 1) <= i32::MAX);
    assert(i32::MIN <= moved_coord(b, translation_point(a), 2) <= i32::MAX);
    lemma_composed_coord(a, b, p, 0);
    lemma_composed_coord(a, b, p, 1);
    lemma_composed_coord(a, b, p, 2);
}

} // verus!
