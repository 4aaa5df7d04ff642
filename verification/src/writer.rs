use vstd::prelude::*;
use vstd::string::StringSliceAdditionalSpecFns;

use crate::bytes::{le_bytes, ByteWriter, CHUNK_HEADER_LEN};
use crate::dict::to_vec;
use crate::text::{decimal, format_i64, format_u64, signed_decimal};
use crate::types::{count_solid, slot_count, Model, VoxError};

verus! {

/// A length-prefixed string: its length as a `u32`, then its bytes.
pub open spec fn lp(s: Seq<u8>) -> Seq<u8> {
    le_bytes(s.len() as u32) + s
}

/// The key/value pairs of a dictionary, each as two length-prefixed strings.
pub open spec fn pairs_bytes(entries: Seq<(Seq<u8>, Seq<u8>)>) -> Seq<u8>
    decreases entries.len(),
{
    if entries.len() == 0 {
        Seq::empty()
    } else {
        pairs_bytes(entries.drop_last()) + lp(entries.last().0) + lp(entries.last().1)
    }
}

/// A dictionary: the number of pairs, then the pairs.
pub open spec fn dict_bytes(entries: Seq<(Seq<u8>, Seq<u8>)>) -> Seq<u8> {
    le_bytes(entries.len() as u32) + pairs_bytes(entries)
}

/// Whether every key and value of a dictionary, and the number of its pairs, fit
/// a `u32`.
pub open spec fn pairs_fit(entries: Seq<(Seq<u8>, Seq<u8>)>) -> bool {
    &&& entries.len() <= u32::MAX
    &&& forall|i: int|
        0 <= i < entries.len() ==> (#[trigger] entries[i]).0.len() <= u32::MAX && entries[i].1.len()
            <= u32::MAX
}

/// A chunk: its id, the length of its content, no children, and its content.
pub open spec fn chunk_bytes(id: u32, content: Seq<u8>) -> Seq<u8> {
    le_bytes(id) + le_bytes(content.len() as u32) + le_bytes(0) + content
}

/// The view of dictionary entries held as byte vectors.
pub open spec fn entries_view(entries: Seq<(Vec<u8>, Vec<u8>)>) -> Seq<(Seq<u8>, Seq<u8>)> {
    entries.map_values(|e: (Vec<u8>, Vec<u8>)| (e.0@, e.1@))
}

/// Three texts separated by single spaces.
pub open spec fn join3(a: Seq<u8>, b: Seq<u8>, c: Seq<u8>) -> Seq<u8> {
    a + seq![32u8] + b + seq![32u8] + c
}

/// Two texts separated by a single space.
pub open spec fn join2(a: Seq<u8>, b: Seq<u8>) -> Seq<u8> {
    a + seq![32u8] + b
}

/// Writes a dictionary.
pub fn write_dict(writer: &mut ByteWriter, entries: &Vec<(Vec<u8>, Vec<u8>)>) -> (r: Result<(), VoxError>)
    ensures
        old(writer).bytes().len() <= final(writer).bytes().len(),
        pairs_fit(entries_view(entries@)) ==> r is Ok && final(writer).bytes() == old(writer).bytes()
            + dict_bytes(entries_view(entries@)),
        r is Err ==> r->Err_0 is InvalidData,
{
    let ghost view = entries_view(entries@);
    if entries.len() > 0xffff_ffff {
        return Err(VoxError::InvalidData("value exceeds u32".to_string()));
    }
    writer.write_u32(entries.len() as u32);
    let mut i: usize = 0;
    while i < entries.len()
        invariant
            i <= entries@.len(),
            view == entries_view(entries@),
            entries@.len() <= u32::MAX,
            old(writer).bytes().len() <= writer.bytes().len(),
            pairs_fit(view) ==> writer.bytes() == old(writer).bytes() + le_bytes(entries@.len() as u32)
                + pairs_bytes(view.take(i as int)),
        decreases entries@.len() - i,
    {
        let ghost before = writer.bytes();
        assert(view[i as int] == (entries@[i as int].0@, entries@[i as int].1@));
        match writer.write_string(entries[i].0.as_slice()) {
            Ok(()) => {},
            Err(e) => {
                return Err(e);
            },
        }
        match writer.write_string(entries[i].1.as_slice()) {
            Ok(()) => {},
            Err(e) => {
                return Err(e);
            },
        }
        proof {
            if pairs_fit(view) {
                assert(view[i as int] == (entries@[i as int].0@, entries@[i as int].1@));
                assert(view.take(i + 1).drop_last() =~= view.take(i as int));
                assert(writer.bytes() =~= old(writer).bytes() + le_bytes(entries@.len() as u32)
                    + pairs_bytes(view.take(i + 1)));
            }
        }
        i += 1;
    }
    proof {
        assert(view.take(i as int) =~= view);
        assert(view.len() == entries@.len());
    }
    Ok(())
}

/// Finishing a chunk begun after `start` with content `content` leaves `start`
/// followed by the chunk.
pub proof fn lemma_finish_chunk(start: Seq<u8>, id: u32, content: Seq<u8>)
    requires
        content.len() <= u32::MAX,
    ensures
        ({
            let before = start + le_bytes(id) + le_bytes(0) + le_bytes(0) + content;
            before.subrange(0, start.len() + 4int) + le_bytes(content.len() as u32) + before.subrange(
                start.len() + 8int,
                before.len() as int,
            ) == start + chunk_bytes(id, content)
        }),
{
    let before = start + le_bytes(id) + le_bytes(0) + le_bytes(0) + content;
    assert(before.subrange(0, start.len() + 4int) =~= start + le_bytes(id));
    assert(before.subrange(start.len() + 8int, before.len() as int) =~= le_bytes(0) + content);
    assert(before.subrange(0, start.len() + 4int) + le_bytes(content.len() as u32) + before.subrange(
        start.len() + 8int,
        before.len() as int,
    ) =~= start + chunk_bytes(id, content));
}

/// The key/value entry for `key` with the text `value`.
pub fn entry(key: &str, value: Vec<u8>) -> (e: (Vec<u8>, Vec<u8>))
    ensures
        e.0@ == key.spec_bytes(),
        e.1@ == value@,
{
    (to_vec(key.as_bytes()), value)
}

/// The decimal text of a `u32`.
pub fn u32_text(v: u32) -> (t: Vec<u8>)
    ensures
        t@ == decimal(v as nat),
{
    format_u64(v as u64)
}

/// The decimal text of an `i32`.
pub fn i32_text(v: i32) -> (t: Vec<u8>)
    ensures
        t@ == signed_decimal(v as int),
{
    format_i64(v as i64)
}

/// Three texts separated by single spaces.
pub fn join_three(a: Vec<u8>, b: Vec<u8>, c: Vec<u8>) -> (t: Vec<u8>)
    ensures
        t@ == join3(a@, b@, c@),
{
    let mut t = a;
    t.push(32);
    let mut b = b;
    t.append(&mut b);
    t.push(32);
    let mut c = c;
    t.append(&mut c);
    t
}

/// Two texts separated by a single space.
pub fn join_two(a: Vec<u8>, b: Vec<u8>) -> (t: Vec<u8>)
    ensures
        t@ == join2(a@, b@),
{
    let mut t = a;
    t.push(32);
    let mut b = b;
    t.append(&mut b);
    t
}

/// The coordinates of slot `k` of a model `sx` wide and `sy` deep.
pub open spec fn slot_coords(k: int, sx: int, sy: int) -> (int, int, int) {
    (k % sx, (k / sx) % sy, k / (sx * sy))
}

/// The records, four bytes each (x, y, z and color index), of the voxels that are
/// not zero among the first `k` slots, in slot order.
pub open spec fn solid_records(voxels: Seq<u8>, k: int, sx: int, sy: int) -> Seq<u8>
    decreases k,
{
    if k <= 0 {
        Seq::empty()
    } else {
        let before = solid_records(voxels, k - 1, sx, sy);
        let (x, y, z) = slot_coords(k - 1, sx, sy);
        if voxels[k - 1] != 0 {
            before + seq![x as u8, y as u8, z as u8, voxels[k - 1]]
        } else {
            before
        }
    }
}

/// Each solid voxel takes four bytes of records.
pub proof fn lemma_records_len(voxels: Seq<u8>, k: int, sx: int, sy: int)
    requires
        0 <= k <= voxels.len(),
    ensures
        solid_records(voxels, k, sx, sy).len() == 4 * count_solid(voxels.take(k)),
    decreases k,
{
    if k > 0 {
        lemma_records_len(voxels, k - 1, sx, sy);
        assert(voxels.take(k).drop_last() =~= voxels.take(k - 1));
    }
}

/// Whether a model can be written: no dimension zero or above 256, and as many
/// voxels as slots.
pub open spec fn model_writable(m: Model) -> bool {
    &&& 0 < m.size_x <= 256
    &&& 0 < m.size_y <= 256
    &&& 0 < m.size_z <= 256
    &&& m.voxels@.len() == slot_count(m.size_x, m.size_y, m.size_z)
}

/// The `SIZE` and `XYZI` chunks of a model.
pub open spec fn model_bytes(m: Model) -> Seq<u8> {
    chunk_bytes(0x455a4953, le_bytes(m.size_x) + le_bytes(m.size_y) + le_bytes(m.size_z)) + chunk_bytes(
        0x495a5958,
        le_bytes(count_solid(m.voxels@) as u32) + solid_records(
            m.voxels@,
            m.voxels@.len() as int,
            m.size_x as int,
            m.size_y as int,
        ),
    )
}

/// Writes a model's `SIZE` and `XYZI` chunks. Fails on a model that cannot be
/// written.
pub fn write_model(writer: &mut ByteWriter, m: &Model) -> (r: Result<(), VoxError>)
    ensures
        old(writer).bytes().len() <= final(writer).bytes().len(),
        model_writable(*m) ==> r is Ok && final(writer).bytes() == old(writer).bytes() + model_bytes(*m),
        !model_writable(*m) ==> r matches Err(VoxError::InvalidData(_)),
{
    if m.size_x == 0 || m.size_y == 0 || m.size_z == 0 {
        return Err(VoxError::InvalidData("model has zero dimension".to_string()));
    }
    if m.size_x > 256 || m.size_y > 256 || m.size_z > 256 {
        return Err(VoxError::InvalidData("model dimensions exceed 256x256x256".to_string()));
    }
    let sx = m.size_x as usize;
    let sy = m.size_y as usize;
    let sz = m.size_z as usize;
    assert(0 < sx * sy <= 65536) by (nonlinear_arith)
        requires
            0 < sx <= 256,
            0 < sy <= 256,
    ;
    assert(sx * sy * sz <= 16777216) by (nonlinear_arith)
        requires
            0 < sx * sy <= 65536,
            0 < sz <= 256,
    ;
    let count = sx * sy * sz;
    assert(count == slot_count(m.size_x, m.size_y, m.size_z));
    if m.voxels.len() != count {
        return Err(VoxError::InvalidData("model voxel count does not match dimensions".to_string()));
    }
    let ghost start = writer.bytes();
    writer.write_u32(0x455a4953);
    writer.write_u32(12);
    writer.write_u32(0);
    writer.write_u32(m.size_x);
    writer.write_u32(m.size_y);
    writer.write_u32(m.size_z);
    let ghost after_size = writer.bytes();
    assert(after_size =~= start + chunk_bytes(0x455a4953, le_bytes(m.size_x) + le_bytes(m.size_y) + le_bytes(m.size_z)));
    let solid = m.solid_voxel_count();
    proof {
        lemma_records_len(m.voxels@, m.voxels@.len() as int, sx as int, sy as int);
        assert(m.voxels@.take(m.voxels@.len() as int) =~= m.voxels@);
        crate::types::lemma_count_solid_bound(m.voxels@);
    }
    writer.write_u32(0x495a5958);
    writer.write_u32((4 + 4 * solid) as u32);
    writer.write_u32(0);
    writer.write_u32(solid as u32);
    let ghost head = writer.bytes();
    let mut k: usize = 0;
    while k < count
        invariant
            k <= count,
            count == m.voxels@.len(),
            count == sx * sy * sz,
            0 < sx <= 256,
            0 < sy <= 256,
            0 < sz <= 256,
            0 < sx * sy <= 65536,
            sx == m.size_x,
            sy == m.size_y,
            writer.bytes() == head + solid_records(m.voxels@, k as int, sx as int, sy as int),
        decreases count - k,
    {
        let c = m.voxels[k];
        let x = k % sx;
        let y = (k / sx) % sy;
        let z = k / (sx * sy);
        assert(z < sz) by (nonlinear_arith)
            requires
                k < sx * sy * sz,
                z == k as int / (sx * sy) as int,
                0 < sx * sy,
        ;
        if c != 0 {
            writer.write_u8(x as u8);
            writer.write_u8(y as u8);
            writer.write_u8(z as u8);
            writer.write_u8(c);
        }
        k += 1;
        assert(writer.bytes() =~= head + solid_records(m.voxels@, k as int, sx as int, sy as int));
    }
    assert(writer.bytes() =~= old(writer).bytes() + model_bytes(*m));
    Ok(())
}

} // verus!
