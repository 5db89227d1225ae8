//! The binary layout of a 26-DOP (k-discrete oriented polytope) collision
//! chunk. Every float is given and written as its IEEE-754 bit pattern.
use crate::bytes::{
    lemma_le_u32_roundtrip, le_u16, le_u32, le_u64, put_u16_le, put_u32_le, put_u64_le, u32_at_le,
};
use vstd::prelude::*;

verus! {

/// Bit patterns of the direction `d` (0 to 12) of the 13 half-directions of
/// a 26-DOP: the three axes, the six edge diagonals (components ±1/√2 as
/// `f32`) and the four cube diagonals (components ±1/√3 as `f32`).
pub open spec fn dop_direction_spec(d: int) -> Seq<u32> {
    let one = 0x3f80_0000u32;
    let e = 0x3f35_04f3u32;
    let ne = 0xbf35_04f3u32;
    let c = 0x3f13_cd3au32;
    let nc = 0xbf13_cd3au32;
    if d == 0 {
        seq![one, 0, 0]
    } else if d == 1 {
        seq![0, one, 0]
    } else if d == 2 {
        seq![0, 0, one]
    } else if d == 3 {
        seq![e, e, 0]
    } else if d == 4 {
        seq![e, ne, 0]
    } else if d == 5 {
        seq![0, e, e]
    } else if d == 6 {
        seq![0, ne, e]
    } else if d == 7 {
        seq![e, 0, e]
    } else if d == 8 {
        seq![e, 0, ne]
    } else if d == 9 {
        seq![c, c, c]
    } else if d == 10 {
        seq![c, c, nc]
    } else if d == 11 {
        seq![c, nc, c]
    } else {
        seq![c, nc, nc]
    }
}

/// The direction `d` of the 26-DOP, as bit patterns.
pub fn dop_direction(d: usize) -> (r: [u32; 3])
    requires
        d < 13,
    ensures
        r@ == dop_direction_spec(d as int),
{
    let one = 0x3f80_0000u32;
    let e = 0x3f35_04f3u32;
    let ne = 0xbf35_04f3u32;
    let c = 0x3f13_cd3au32;
    let nc = 0xbf13_cd3au32;
    let r = if d == 0 {
        [one, 0, 0]
    } else if d == 1 {
        [0, one, 0]
    } else if d == 2 {
        [0, 0, one]
    } else if d == 3 {
        [e, e, 0]
    } else if d == 4 {
        [e, ne, 0]
    } else if d == 5 {
        [0, e, e]
    } else if d == 6 {
        [0, ne, e]
    } else if d == 7 {
        [e, 0, e]
    } else if d == 8 {
        [e, 0, ne]
    } else if d == 9 {
        [c, c, c]
    } else if d == 10 {
        [c, c, nc]
    } else if d == 11 {
        [c, nc, c]
    } else {
        [c, nc, nc]
    };
    assert(r@ =~= dop_direction_spec(d as int));
    r
}

/// Three numbers, little-endian.
pub open spec fn le_triple(t: Seq<u32>) -> Seq<u8> {
    le_u32(t[0]) + le_u32(t[1]) + le_u32(t[2])
}

/// The record of direction `d`: its projection bounds, its direction and
/// three zero words.
pub open spec fn direction_record(d: int, proj_min: Seq<u32>, proj_max: Seq<u32>) -> Seq<u8> {
    le_u32(proj_min[d]) + le_u32(proj_max[d]) + le_triple(dop_direction_spec(d)) + le_u32(0)
        + le_u32(0) + le_u32(0)
}

/// The records of the directions below `n`.
pub open spec fn direction_records(n: int, proj_min: Seq<u32>, proj_max: Seq<u32>) -> Seq<u8>
    decreases n,
{
    if n <= 0 {
        Seq::empty()
    } else {
        direction_records(n - 1, proj_min, proj_max) + direction_record(n - 1, proj_min, proj_max)
    }
}

/// Vertex coordinates, three per vertex, little-endian.
pub open spec fn vertices_bytes(vs: Seq<[u32; 3]>) -> Seq<u8>
    decreases vs.len(),
{
    if vs.len() == 0 {
        Seq::empty()
    } else {
        vertices_bytes(vs.drop_last()) + le_triple(vs.last()@)
    }
}

/// Triangle indices, three per face, little-endian.
pub open spec fn faces_bytes(fs: Seq<[u16; 3]>) -> Seq<u8>
    decreases fs.len(),
{
    if fs.len() == 0 {
        Seq::empty()
    } else {
        faces_bytes(fs.drop_last()) + le_u16(fs.last()@[0]) + le_u16(fs.last()@[1]) + le_u16(
            fs.last()@[2],
        )
    }
}

/// A KDOP chunk's payload: the bounding-sphere radius and the box corners,
/// the 13 direction records, the vertex count and vertices, the face count
/// and faces, and 8 bytes of zero padding.
pub open spec fn kdop_bytes(
    radius: u32,
    aabb_min: Seq<u32>,
    aabb_max: Seq<u32>,
    proj_min: Seq<u32>,
    proj_max: Seq<u32>,
    vertices: Seq<[u32; 3]>,
    faces: Seq<[u16; 3]>,
) -> Seq<u8> {
    le_u32(radius) + le_triple(aabb_min) + le_triple(aabb_max) + direction_records(
        13,
        proj_min,
        proj_max,
    ) + le_u32(vertices.len() as u32) + vertices_bytes(vertices) + le_u32(faces.len() as u32)
        + faces_bytes(faces) + le_u64(0)
}

proof fn lemma_direction_records_len(n: int, proj_min: Seq<u32>, proj_max: Seq<u32>)
    requires
        0 <= n,
    ensures
        direction_records(n, proj_min, proj_max).len() == 32 * n,
    decreases n,
{
    if n > 0 {
        lemma_direction_records_len(n - 1, proj_min, proj_max);
    }
}

proof fn lemma_vertices_bytes_len(vs: Seq<[u32; 3]>)
    ensures
        vertices_bytes(vs).len() == 12 * vs.len(),
    decreases vs.len(),
{
    if vs.len() > 0 {
        lemma_vertices_bytes_len(vs.drop_last());
    }
}

proof fn lemma_faces_bytes_len(fs: Seq<[u16; 3]>)
    ensures
        faces_bytes(fs).len() == 6 * fs.len(),
    decreases fs.len(),
{
    if fs.len() > 0 {
        lemma_faces_bytes_len(fs.drop_last());
    }
}

/// A KDOP chunk takes 460 bytes plus 12 per vertex and 6 per face.
pub proof fn lemma_kdop_len(
    radius: u32,
    aabb_min: Seq<u32>,
    aabb_max: Seq<u32>,
    proj_min: Seq<u32>,
    proj_max: Seq<u32>,
    vertices: Seq<[u32; 3]>,
    faces: Seq<[u16; 3]>,
)
    ensures
        kdop_bytes(radius, aabb_min, aabb_max, proj_min, proj_max, vertices, faces).len() == 460
            + 12 * vertices.len() + 6 * faces.len(),
{
    lemma_direction_records_len(13, proj_min, proj_max);
    lemma_vertices_bytes_len(vertices);
    lemma_faces_bytes_len(faces);
}

/// Four bytes equal to `le_u32(v)` read back as `v`.
proof fn lemma_read_back(s: Seq<u8>, pos: int, v: u32)
    requires
        0 <= pos,
        pos + 4 <= s.len(),
        s.subrange(pos, pos + 4) == le_u32(v),
    ensures
        u32_at_le(s, pos) == v,
{
    let pre = s.subrange(0, pos);
    let post = s.subrange(pos + 4, s.len() as int);
    assert(s =~= pre + le_u32(v) + post);
    lemma_le_u32_roundtrip(v, pre, post);
}

proof fn lemma_records_slice(n: int, d: int, proj_min: Seq<u32>, proj_max: Seq<u32>)
    requires
        0 <= d < n,
    ensures
        direction_records(n, proj_min, proj_max).subrange(32 * d, 32 * d + 32) == direction_record(
            d,
            proj_min,
            proj_max,
        ),
    decreases n,
{
    lemma_direction_records_len(n - 1, proj_min, proj_max);
    let prev = direction_records(n - 1, proj_min, proj_max);
    let all = direction_records(n, proj_min, proj_max);
    assert(all == prev + direction_record(n - 1, proj_min, proj_max));
    if d == n - 1 {
        assert(all.subrange(32 * d, 32 * d + 32) =~= direction_record(d, proj_min, proj_max));
    } else {
        lemma_records_slice(n - 1, d, proj_min, proj_max);
        assert(all.subrange(32 * d, 32 * d + 32) =~= prev.subrange(32 * d, 32 * d + 32));
    }
}

proof fn lemma_vertices_slice(vs: Seq<[u32; 3]>, i: int)
    requires
        0 <= i < vs.len(),
    ensures
        vertices_bytes(vs).subrange(12 * i, 12 * i + 12) == le_triple(vs[i]@),
    decreases vs.len(),
{
    let prev = vs.drop_last();
    lemma_vertices_bytes_len(prev);
    let all = vertices_bytes(vs);
    assert(all == vertices_bytes(prev) + le_triple(vs.last()@));
    if i == vs.len() - 1 {
        assert(all.subrange(12 * i, 12 * i + 12) =~= le_triple(vs[i]@));
    } else {
        lemma_vertices_slice(prev, i);
        assert(all.subrange(12 * i, 12 * i + 12) =~= vertices_bytes(prev).subrange(12 * i, 12 * i + 12));
    }
}

proof fn lemma_header_fields(kb: Seq<u8>, radius: u32, aabb_min: Seq<u32>, aabb_max: Seq<u32>, rest: Seq<u8>)
    requires
        aabb_min.len() == 3,
        aabb_max.len() == 3,
        kb == le_u32(radius) + le_triple(aabb_min) + le_triple(aabb_max) + rest,
    ensures
        u32_at_le(kb, 0) == radius,
        forall|j: int| 0 <= j < 3 ==> u32_at_le(kb, 4 + 4 * j) == #[trigger] aabb_min[j],
        forall|j: int| 0 <= j < 3 ==> u32_at_le(kb, 16 + 4 * j) == #[trigger] aabb_max[j],
{
    assert(kb.subrange(0, 4) =~= le_u32(radius));
    lemma_read_back(kb, 0, radius);
    assert forall|j: int| 0 <= j < 3 implies u32_at_le(kb, 4 + 4 * j) == #[trigger] aabb_min[j] by {
        assert(kb.subrange(4 + 4 * j, 8 + 4 * j) =~= le_u32(aabb_min[j]));
        lemma_read_back(kb, 4 + 4 * j, aabb_min[j]);
    }
    assert forall|j: int| 0 <= j < 3 implies u32_at_le(kb, 16 + 4 * j) == #[trigger] aabb_max[j] by {
        assert(kb.subrange(16 + 4 * j, 20 + 4 * j) =~= le_u32(aabb_max[j]));
        lemma_read_back(kb, 16 + 4 * j, aabb_max[j]);
    }
}

proof fn lemma_record_fields(kb: Seq<u8>, pre: Seq<u8>, post: Seq<u8>, proj_min: Seq<u32>, proj_max: Seq<u32>, d: int)
    requires
        pre.len() == 28,
        0 <= d < 13,
        kb == pre + direction_records(13, proj_min, proj_max) + post,
    ensures
        u32_at_le(kb, 28 + 32 * d) == proj_min[d],
        u32_at_le(kb, 32 + 32 * d) == proj_max[d],
{
    let recs = direction_records(13, proj_min, proj_max);
    lemma_direction_records_len(13, proj_min, proj_max);
    lemma_records_slice(13, d, proj_min, proj_max);
    let rec = direction_record(d, proj_min, proj_max);
    assert(kb.subrange(28 + 32 * d, 32 + 32 * d) =~= recs.subrange(32 * d, 32 * d + 4));
    assert(recs.subrange(32 * d, 32 * d + 4) =~= rec.subrange(0, 4));
    assert(rec.subrange(0, 4) =~= le_u32(proj_min[d]));
    assert(kb.subrange(32 + 32 * d, 36 + 32 * d) =~= recs.subrange(32 * d + 4, 32 * d + 8));
    assert(recs.subrange(32 * d + 4, 32 * d + 8) =~= rec.subrange(4, 8));
    assert(rec.subrange(4, 8) =~= le_u32(proj_max[d]));
    lemma_read_back(kb, 28 + 32 * d, proj_min[d]);
    lemma_read_back(kb, 32 + 32 * d, proj_max[d]);
}

proof fn lemma_vertex_fields(kb: Seq<u8>, pre: Seq<u8>, vertices: Seq<[u32; 3]>, nf: u32, post: Seq<u8>)
    requires
        pre.len() == 444,
        kb == pre + le_u32(vertices.len() as u32) + vertices_bytes(vertices) + le_u32(nf) + post,
    ensures
        u32_at_le(kb, 444) == vertices.len() as u32,
        forall|i: int, j: int|
            0 <= i < vertices.len() && 0 <= j < 3 ==> u32_at_le(kb, 448 + 12 * i + 4 * j)
                == #[trigger] vertices[i]@[j],
        u32_at_le(kb, 448 + 12 * vertices.len() as int) == nf,
{
    let vb = vertices_bytes(vertices);
    lemma_vertices_bytes_len(vertices);
    assert(kb.subrange(444, 448) =~= le_u32(vertices.len() as u32));
    lemma_read_back(kb, 444, vertices.len() as u32);
    assert forall|i: int, j: int| 0 <= i < vertices.len() && 0 <= j < 3 implies u32_at_le(
        kb,
        448 + 12 * i + 4 * j,
    ) == #[trigger] vertices[i]@[j] by {
        lemma_vertices_slice(vertices, i);
        let t = le_triple(vertices[i]@);
        assert(kb.subrange(448 + 12 * i + 4 * j, 452 + 12 * i + 4 * j) =~= vb.subrange(
            12 * i + 4 * j,
            12 * i + 4 * j + 4,
        ));
        assert(vb.subrange(12 * i + 4 * j, 12 * i + 4 * j + 4) =~= t.subrange(4 * j, 4 * j + 4));
        assert(t.subrange(4 * j, 4 * j + 4) =~= le_u32(vertices[i]@[j]));
        lemma_read_back(kb, 448 + 12 * i + 4 * j, vertices[i]@[j]);
    }
    let n: int = 448 + 12 * vertices.len() as int;
    assert(kb.subrange(n, n + 4) =~= le_u32(nf));
    lemma_read_back(kb, n, nf);
}

/// Where each field stands in a KDOP payload, read back little-endian: the
/// radius at 0, the box's low corner at 4 and high corner at 16, the record
/// of direction `d` at `28 + 32 * d` starting with its lower projection
/// bound and then its upper one, the vertex count at 444, vertex `i` at
/// `448 + 12 * i`, and the face count after the vertices.
#[verifier::spinoff_prover]
pub proof fn lemma_kdop_layout(
    radius: u32,
    aabb_min: Seq<u32>,
    aabb_max: Seq<u32>,
    proj_min: Seq<u32>,
    proj_max: Seq<u32>,
    vertices: Seq<[u32; 3]>,
    faces: Seq<[u16; 3]>,
)
    requires
        aabb_min.len() == 3,
        aabb_max.len() == 3,
        proj_min.len() == 13,
        proj_max.len() == 13,
    ensures
        ({
            let kb = kdop_bytes(radius, aabb_min, aabb_max, proj_min, proj_max, vertices, faces);
            &&& u32_at_le(kb, 0) == radius
            &&& forall|j: int| 0 <= j < 3 ==> u32_at_le(kb, 4 + 4 * j) == #[trigger] aabb_min[j]
            &&& forall|j: int| 0 <= j < 3 ==> u32_at_le(kb, 16 + 4 * j) == #[trigger] aabb_max[j]
            &&& forall|d: int| 0 <= d < 13 ==> u32_at_le(kb, 28 + 32 * d) == #[trigger] proj_min[d]
            &&& forall|d: int| 0 <= d < 13 ==> u32_at_le(kb, 32 + 32 * d) == #[trigger] proj_max[d]
            &&& u32_at_le(kb, 444) == vertices.len() as u32
            &&& forall|i: int, j: int|
                0 <= i < vertices.len() && 0 <= j < 3 ==> u32_at_le(kb, 448 + 12 * i + 4 * j)
                    == #[trigger] vertices[i]@[j]
            &&& u32_at_le(kb, 448 + 12 * vertices.len() as int) == faces.len() as u32
        }),
{
    let kb = kdop_bytes(radius, aabb_min, aabb_max, proj_min, proj_max, vertices, faces);
    let head = le_u32(radius) + le_triple(aabb_min) + le_triple(aabb_max);
    let recs = direction_records(13, proj_min, proj_max);
    let nv = le_u32(vertices.len() as u32);
    let vb = vertices_bytes(vertices);
    let nf = le_u32(faces.len() as u32);
    let post = faces_bytes(faces) + le_u64(0);
    lemma_direction_records_len(13, proj_min, proj_max);
    assert(head.len() == 28);
    assert(kb =~= head + (recs + nv + vb + nf + post));
    lemma_header_fields(kb, radius, aabb_min, aabb_max, recs + nv + vb + nf + post);
    assert(kb =~= head + recs + (nv + vb + nf + post));
    assert forall|d: int| 0 <= d < 13 implies u32_at_le(kb, 28 + 32 * d) == #[trigger] proj_min[d] by {
        lemma_record_fields(kb, head, nv + vb + nf + post, proj_min, proj_max, d);
    }
    assert forall|d: int| 0 <= d < 13 implies u32_at_le(kb, 32 + 32 * d) == #[trigger] proj_max[d] by {
        lemma_record_fields(kb, head, nv + vb + nf + post, proj_min, proj_max, d);
    }
    assert((head + recs).len() == 444);
    assert(kb =~= (head + recs) + nv + vb + nf + post);
    lemma_vertex_fields(kb, head + recs, vertices, faces.len() as u32, post);
}

fn put_triple(buf: &mut Vec<u8>, t: &[u32; 3])
    ensures
        final(buf)@ == old(buf)@ + le_triple(t@),
{
    put_u32_le(buf, t[0]);
    put_u32_le(buf, t[1]);
    put_u32_le(buf, t[2]);
    assert(final(buf)@ =~= old(buf)@ + le_triple(t@));
}

/// Lays out a KDOP chunk's payload; `radius` is the bit pattern of the
/// radius of the sphere around the box, half its diagonal.
#[verifier::spinoff_prover]
pub fn write_kdop_binary(
    radius: u32,
    aabb_min: &[u32; 3],
    aabb_max: &[u32; 3],
    proj_min: &[u32; 13],
    proj_max: &[u32; 13],
    vertices: &[[u32; 3]],
    faces: &[[u16; 3]],
) -> (r: Vec<u8>)
    ensures
        r@ == kdop_bytes(
            radius,
            aabb_min@,
            aabb_max@,
            proj_min@,
            proj_max@,
            vertices@,
            faces@,
        ),
        u32_at_le(r@, 0) == radius,
        forall|d: int| 0 <= d < 13 ==> u32_at_le(r@, 28 + 32 * d) == #[trigger] proj_min[d],
        forall|d: int| 0 <= d < 13 ==> u32_at_le(r@, 32 + 32 * d) == #[trigger] proj_max[d],
        u32_at_le(r@, 444) == vertices@.len() as u32,
{
    let mut data: Vec<u8> = Vec::new();
    put_u32_le(&mut data, radius);
    put_triple(&mut data, aabb_min);
    put_triple(&mut data, aabb_max);
    let ghost head = data@;
    let mut d: usize = 0;
    while d < 13
        invariant
            d <= 13,
            data@ == head + direction_records(d as int, proj_min@, proj_max@),
        decreases 13 - d,
    {
        let dir = dop_direction(d);
        put_u32_le(&mut data, proj_min[d]);
        put_u32_le(&mut data, proj_max[d]);
        put_triple(&mut data, &dir);
        put_u32_le(&mut data, 0);
        put_u32_le(&mut data, 0);
        put_u32_le(&mut data, 0);
        d += 1;
        assert(data@ =~= head + direction_records(d as int, proj_min@, proj_max@));
    }
    put_u32_le(&mut data, vertices.len() as u32);
    let ghost mid = data@;
    let mut i: usize = 0;
    while i < vertices.len()
        invariant
            i <= vertices@.len(),
            data@ == mid + vertices_bytes(vertices@.take(i as int)),
        decreases vertices@.len() - i,
    {
        put_triple(&mut data, &vertices[i]);
        assert(vertices@.take(i + 1).drop_last() =~= vertices@.take(i as int));
        i += 1;
        assert(data@ =~= mid + vertices_bytes(vertices@.take(i as int)));
    }
    assert(vertices@.take(i as int) =~= vertices@);
    put_u32_le(&mut data, faces.len() as u32);
    let ghost mid2 = data@;
    let mut j: usize = 0;
    while j < faces.len()
        invariant
            j <= faces@.len(),
            data@ == mid2 + faces_bytes(faces@.take(j as int)),
        decreases faces@.len() - j,
    {
        let f = &faces[j];
        put_u16_le(&mut data, f[0]);
        put_u16_le(&mut data, f[1]);
        put_u16_le(&mut data, f[2]);
        assert(faces@.take(j + 1).drop_last() =~= faces@.take(j as int));
        j += 1;
        assert(data@ =~= mid2 + faces_bytes(faces@.take(j as int)));
    }
    assert(faces@.take(j as int) =~= faces@);
    put_u64_le(&mut data, 0);
    assert(data@ =~= kdop_bytes(
        radius,
        aabb_min@,
        aabb_max@,
        proj_min@,
        proj_max@,
        vertices@,
        faces@,
    ));
    proof {
        lemma_kdop_layout(radius, aabb_min@, aabb_max@, proj_min@, proj_max@, vertices@, faces@);
    }
    data
}

/// The KDOP chunk of a mesh without vertices: every bound, the radius and
/// both counts zero.
pub fn generate_empty_kdop() -> (r: Vec<u8>)
    ensures
        r@ == kdop_bytes(
            0,
            seq![0u32, 0, 0],
            seq![0u32, 0, 0],
            Seq::new(13, |i: int| 0u32),
            Seq::new(13, |i: int| 0u32),
            Seq::empty(),
            Seq::empty(),
        ),
{
    let min = [0u32; 3];
    let max = [0u32; 3];
    let proj_min = [0u32; 13];
    let proj_max = [0u32; 13];
    let no_vertices: Vec<[u32; 3]> = Vec::new();
    let no_faces: Vec<[u16; 3]> = Vec::new();
    let r = write_kdop_binary(
        0,
        &min,
        &max,
        &proj_min,
        &proj_max,
        no_vertices.as_slice(),
        no_faces.as_slice(),
    );
    assert(min@ =~= seq![0u32, 0, 0]);
    assert(max@ =~= seq![0u32, 0, 0]);
    assert(proj_min@ =~= Seq::new(13, |i: int| 0u32));
    assert(proj_max@ =~= Seq::new(13, |i: int| 0u32));
    r
}

/// The fan of triangles over a convex polygon: the polygon's corners are
/// `hull` (positions in `on_plane`, in order around it), and each triangle
/// joins the first corner to two consecutive others; corners are numbered
/// by `on_plane` (as `u16`).
pub open spec fn fan_spec(on_plane: Seq<usize>, hull: Seq<usize>) -> Seq<[u16; 3]> {
    if hull.len() < 3 {
        Seq::empty()
    } else {
        Seq::new(
            (hull.len() - 2) as nat,
            |i: int|
                [
                    on_plane[hull[0] as int] as u16,
                    on_plane[hull[i + 1] as int] as u16,
                    on_plane[hull[i + 2] as int] as u16,
                ],
        )
    }
}

/// Triangulates one face of the polytope as `fan_spec` says.
pub fn fan_triangles(on_plane: &[usize], hull: &[usize]) -> (r: Vec<[u16; 3]>)
    requires
        forall|i: int| 0 <= i < hull@.len() ==> #[trigger] hull@[i] < on_plane@.len(),
    ensures
        r@ == fan_spec(on_plane@, hull@),
{
    let mut faces: Vec<[u16; 3]> = Vec::new();
    if hull.len() >= 3 {
        let mut i: usize = 1;
        while i < hull.len() - 1
            invariant
                hull@.len() >= 3,
                1 <= i <= hull@.len() - 1,
                forall|k: int| 0 <= k < hull@.len() ==> #[trigger] hull@[k] < on_plane@.len(),
                faces@ =~= fan_spec(on_plane@, hull@).take(i - 1),
            decreases hull@.len() - i,
        {
            faces.push(
                [
                    on_plane[hull[0]] as u16,
                    on_plane[hull[i]] as u16,
                    on_plane[hull[i + 1]] as u16,
                ],
            );
            i += 1;
            assert(faces@ =~= fan_spec(on_plane@, hull@).take(i - 1));
        }
        assert(faces@ =~= fan_spec(on_plane@, hull@));
    }
    faces
}

} // verus!
