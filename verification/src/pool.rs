//! The POOL chunk of a HOD file: the texture, vertex and index streams,
//! each stored with its compressed and decompressed lengths.
use crate::bytes::{
    be_u32, lemma_be_u32_roundtrip, lemma_le_u32_roundtrip, le_u16, le_u32, put_bytes, put_u16_le, put_u32_le, read_u32_be, read_u32_le, u32_at_be,
    u32_at_le,
};
use crate::xpress::{decode_stream, decompressed};
use crate::compiler::{compiled_view, CompiledMesh, CompiledMeshView};
use crate::mesh::{HODMeshPart, PartView};
use vstd::prelude::*;

verus! {

/// Bytes of one vertex in the vertex stream for `mask`: 16 for the position
/// (0x01), 16 for the normal (0x02), 4 for the color (0x04), 8 for each of
/// the texture coordinate sets (0x08, 0x10, 0x20), 12 for the tangent
/// (0x2000), 12 for the binormal (0x4000), plus `skin` bytes of skinning
/// data; at least 1.
pub open spec fn stride_of(mask: u32, skin: int) -> int {
    let s = (if mask & 0x01 != 0 {
        16int
    } else {
        0
    }) + (if mask & 0x02 != 0 {
        16int
    } else {
        0
    }) + (if mask & 0x04 != 0 {
        4int
    } else {
        0
    }) + (if mask & 0x08 != 0 {
        8int
    } else {
        0
    }) + (if mask & 0x10 != 0 {
        8int
    } else {
        0
    }) + (if mask & 0x20 != 0 {
        8int
    } else {
        0
    }) + (if mask & 0x2000 != 0 {
        12int
    } else {
        0
    }) + (if mask & 0x4000 != 0 {
        12int
    } else {
        0
    }) + skin;
    if s == 0 {
        1
    } else {
        s
    }
}

/// Skinning bytes per vertex of a part: those of its first vertex, or 0.
pub open spec fn skin_len(p: PartView) -> int {
    if p.vertices.len() > 0 {
        match p.vertices[0].skinning_data {
            Some(b) => b.len() as int,
            None => 0,
        }
    } else {
        0
    }
}

/// Bytes of one vertex of `part` in the vertex stream.
pub fn part_vertex_stride(part: &HODMeshPart) -> (r: u32)
    requires
        skin_len(part@) + 100 <= u32::MAX,
    ensures
        r == stride_of(part.vertex_mask, skin_len(part@)),
{
    let mut vertex_stride: u32 = 0;
    if (part.vertex_mask & 0x01) != 0 {
        vertex_stride += 16;
    }
    if (part.vertex_mask & 0x02) != 0 {
        vertex_stride += 16;
    }
    if (part.vertex_mask & 0x04) != 0 {
        vertex_stride += 4;
    }
    if (part.vertex_mask & 0x08) != 0 {
        vertex_stride += 8;
    }
    if (part.vertex_mask & 0x10) != 0 {
        vertex_stride += 8;
    }
    if (part.vertex_mask & 0x20) != 0 {
        vertex_stride += 8;
    }
    if (part.vertex_mask & 0x2000) != 0 {
        vertex_stride += 12;
    }
    if (part.vertex_mask & 0x4000) != 0 {
        vertex_stride += 12;
    }
    if part.vertices.len() > 0 {
        assert(part@.vertices[0] == part.vertices@[0]@);
        if let Some(skin) = &part.vertices[0].skinning_data {
            vertex_stride += skin.len() as u32;
        }
    }
    if vertex_stride == 0 {
        vertex_stride = 1;
    }
    vertex_stride
}

/// The little-endian bytes of a sequence of indices.
pub open spec fn indices_bytes(idx: Seq<u16>) -> Seq<u8>
    decreases idx.len(),
{
    if idx.len() == 0 {
        Seq::empty()
    } else {
        indices_bytes(idx.drop_last()) + le_u16(idx.last())
    }
}

/// `face` padded with a zero byte to an even length, then the indices of
/// `p` appended.
pub open spec fn face_pool_add_part(face: Seq<u8>, p: PartView) -> Seq<u8> {
    (if face.len() % 2 != 0 {
        face.push(0)
    } else {
        face
    }) + indices_bytes(p.indices)
}

/// The index stream after adding the parts of `ps` in order.
pub open spec fn face_pool_add_parts(face: Seq<u8>, ps: Seq<PartView>) -> Seq<u8>
    decreases ps.len(),
{
    if ps.len() == 0 {
        face
    } else {
        face_pool_add_part(face_pool_add_parts(face, ps.drop_last()), ps.last())
    }
}

/// The index stream of a sequence of compiled meshes: for each part of each
/// mesh in order, padding to a 2-byte boundary and then its indices as
/// little-endian `u16`s.
pub open spec fn face_pool(ms: Seq<CompiledMeshView>) -> Seq<u8>
    decreases ms.len(),
{
    if ms.len() == 0 {
        Seq::empty()
    } else {
        face_pool_add_parts(face_pool(ms.drop_last()), ms.last().new_parts)
    }
}

/// Builds the decompressed index stream of `compiled_meshes`.
pub fn build_face_pool(compiled_meshes: &[CompiledMesh]) -> (r: Vec<u8>)
    ensures
        r@ == face_pool(compiled_view(compiled_meshes@)),
{
    let ghost ms = compiled_view(compiled_meshes@);
    let mut decomp_face: Vec<u8> = Vec::new();
    let mut i: usize = 0;
    while i < compiled_meshes.len()
        invariant
            ms == compiled_view(compiled_meshes@),
            i <= ms.len(),
            decomp_face@ == face_pool(ms.take(i as int)),
        decreases ms.len() - i,
    {
        let mesh = &compiled_meshes[i];
        let ghost start = decomp_face@;
        let ghost ps = mesh@.new_parts;
        let mut j: usize = 0;
        while j < mesh.new_parts.len()
            invariant
                ps == mesh@.new_parts,
                j <= ps.len(),
                decomp_face@ == face_pool_add_parts(start, ps.take(j as int)),
            decreases ps.len() - j,
        {
            let part = &mesh.new_parts[j];
            let ghost before = decomp_face@;
            if decomp_face.len() % 2 != 0 {
                decomp_face.push(0);
            }
            let ghost padded = decomp_face@;
            let mut k: usize = 0;
            while k < part.indices.len()
                invariant
                    k <= part.indices@.len(),
                    decomp_face@ == padded + indices_bytes(part.indices@.take(k as int)),
                decreases part.indices@.len() - k,
            {
                put_u16_le(&mut decomp_face, part.indices[k]);
                assert(part.indices@.take(k + 1).drop_last() =~= part.indices@.take(k as int));
                k += 1;
                assert(decomp_face@ =~= padded + indices_bytes(part.indices@.take(k as int)));
            }
            assert(part.indices@.take(k as int) =~= part.indices@);
            assert(ps.take(j + 1).drop_last() =~= ps.take(j as int));
            assert(ps[j as int] == part@);
            j += 1;
        }
        assert(ps.take(j as int) =~= ps);
        assert(ms.take(i + 1).drop_last() =~= ms.take(i as int));
        i += 1;
    }
    assert(ms.take(i as int) =~= ms);
    decomp_face
}

/// One stream of a pool: compressed length, decompressed length, then the
/// compressed bytes.
pub open spec fn stream_record(comp: Seq<u8>, decomp_len: u32) -> Seq<u8> {
    le_u32(comp.len() as u32) + le_u32(decomp_len) + comp
}

/// The payload of a POOL chunk: the pool type, then the texture, vertex and
/// index streams.
pub open spec fn pool_bytes(
    pool_type: u32,
    comp_tex: Seq<u8>,
    decomp_tex_len: u32,
    comp_mesh: Seq<u8>,
    decomp_mesh_len: u32,
    comp_face: Seq<u8>,
    decomp_face_len: u32,
) -> Seq<u8> {
    le_u32(pool_type) + stream_record(comp_tex, decomp_tex_len) + stream_record(
        comp_mesh,
        decomp_mesh_len,
    ) + stream_record(comp_face, decomp_face_len)
}

/// Lays out the payload of a POOL chunk.
pub fn write_pool(
    pool_type: u32,
    comp_tex: &[u8],
    decomp_tex_len: u32,
    comp_mesh: &[u8],
    decomp_mesh_len: u32,
    comp_face: &[u8],
    decomp_face_len: u32,
) -> (r: Vec<u8>)
    ensures
        r@ == pool_bytes(
            pool_type,
            comp_tex@,
            decomp_tex_len,
            comp_mesh@,
            decomp_mesh_len,
            comp_face@,
            decomp_face_len,
        ),
{
    let mut pool_buf: Vec<u8> = Vec::new();
    put_u32_le(&mut pool_buf, pool_type);
    put_u32_le(&mut pool_buf, comp_tex.len() as u32);
    put_u32_le(&mut pool_buf, decomp_tex_len);
    put_bytes(&mut pool_buf, comp_tex);
    put_u32_le(&mut pool_buf, comp_mesh.len() as u32);
    put_u32_le(&mut pool_buf, decomp_mesh_len);
    put_bytes(&mut pool_buf, comp_mesh);
    put_u32_le(&mut pool_buf, comp_face.len() as u32);
    put_u32_le(&mut pool_buf, decomp_face_len);
    put_bytes(&mut pool_buf, comp_face);
    assert(pool_buf@ =~= pool_bytes(
        pool_type,
        comp_tex@,
        decomp_tex_len,
        comp_mesh@,
        decomp_mesh_len,
        comp_face@,
        decomp_face_len,
    ));
    pool_buf
}

/// Why a POOL chunk could not be read.
#[derive(Clone, Copy, Debug, PartialEq, Eq, Structural)]
pub enum PoolError {
    /// The chunks end without a POOL chunk.
    NoPool,
    /// A chunk header, or a field or stream of the pool, runs past the end.
    Truncated,
    /// A compressed stream does not decode.
    BadStream,
}

/// Whether the four bytes at `pos` of `s` are the id `POOL`.
pub open spec fn is_pool_id(s: Seq<u8>, pos: int) -> bool {
    s[pos] == 'P' as u8 && s[pos + 1] == 'O' as u8 && s[pos + 2] == 'O' as u8 && s[pos + 3]
        == 'L' as u8
}

/// Walks the chunks from `pos` (each a four-byte id, a big-endian size and
/// that many payload bytes) to the first POOL chunk: the position of its
/// payload, or why there is none.
pub open spec fn find_pool_from(s: Seq<u8>, pos: int) -> Result<int, PoolError>
    decreases s.len() - pos,
{
    if pos < 0 || pos >= s.len() {
        Err(PoolError::NoPool)
    } else if pos + 8 > s.len() {
        Err(PoolError::Truncated)
    } else if is_pool_id(s, pos) {
        Ok(pos + 8)
    } else {
        let next = pos + 8 + u32_at_be(s, pos + 4) as int;
        if next > s.len() {
            Err(PoolError::Truncated)
        } else {
            find_pool_from(s, next)
        }
    }
}

/// The compressed bytes and the decompressed length of one stream.
pub type StreamView = (Seq<u8>, u32);

/// Reads the stream record at `pos`: the stream and the position after it.
pub open spec fn stream_at(s: Seq<u8>, pos: int) -> Option<(StreamView, int)> {
    if pos + 8 > s.len() {
        None
    } else {
        let comp_len = u32_at_le(s, pos) as int;
        let decomp_len = u32_at_le(s, pos + 4);
        if pos + 8 + comp_len > s.len() {
            None
        } else {
            Some(((s.subrange(pos + 8, pos + 8 + comp_len), decomp_len), pos + 8 + comp_len))
        }
    }
}

/// A pool as read: its type and its texture, vertex and index streams.
pub type RawPoolView = (u32, StreamView, StreamView, StreamView);

/// Reads the pool payload at `pos`.
pub open spec fn pool_at(s: Seq<u8>, pos: int) -> Option<RawPoolView> {
    if pos + 4 > s.len() {
        None
    } else {
        match stream_at(s, pos + 4) {
            None => None,
            Some((tex, p1)) => match stream_at(s, p1) {
                None => None,
                Some((mesh, p2)) => match stream_at(s, p2) {
                    None => None,
                    Some((face, _)) => Some((u32_at_le(s, pos), tex, mesh, face)),
                },
            },
        }
    }
}

/// The end of the POOL chunk whose payload starts at `p`: the payload
/// start plus the chunk's big-endian size.
pub open spec fn chunk_end(s: Seq<u8>, p: int) -> int {
    p + u32_at_be(s, p - 4) as int
}

/// The pool of a HOD file's bytes, or why it cannot be read: the first POOL
/// chunk must lie inside the file, and its pool is read from its payload
/// alone.
pub open spec fn parse_pool_spec(s: Seq<u8>) -> Result<RawPoolView, PoolError> {
    match find_pool_from(s, 0) {
        Err(e) => Err(e),
        Ok(p) => if chunk_end(s, p) > s.len() {
            Err(PoolError::Truncated)
        } else {
            match pool_at(s.take(chunk_end(s, p)), p) {
                None => Err(PoolError::Truncated),
                Some(v) => Ok(v),
            }
        },
    }
}

/// A pool as read from a file.
pub struct RawPool {
    pub pool_type: u32,
    pub tex_comp: Vec<u8>,
    pub tex_decomp_len: u32,
    pub mesh_comp: Vec<u8>,
    pub mesh_decomp_len: u32,
    pub face_comp: Vec<u8>,
    pub face_decomp_len: u32,
}

impl View for RawPool {
    type V = RawPoolView;

    open spec fn view(&self) -> RawPoolView {
        (
            self.pool_type,
            (self.tex_comp@, self.tex_decomp_len),
            (self.mesh_comp@, self.mesh_decomp_len),
            (self.face_comp@, self.face_decomp_len),
        )
    }
}

/// Copies `n` bytes of `s` from `pos`.
fn copy_range(s: &[u8], pos: usize, n: usize) -> (r: Vec<u8>)
    requires
        pos + n <= s@.len(),
    ensures
        r@ == s@.subrange(pos as int, pos + n),
{
    let len = s.len();
    let mut r: Vec<u8> = Vec::new();
    let mut i: usize = 0;
    while i < n
        invariant
            len == s@.len(),
            pos + n <= s@.len(),
            i <= n,
            r@ == s@.subrange(pos as int, pos + i),
        decreases n - i,
    {
        r.push(s[pos + i]);
        i += 1;
        assert(r@ =~= s@.subrange(pos as int, pos + i));
    }
    r
}

/// Reads the stream record at `pos` of the first `end` bytes of `s`.
fn read_stream(s: &[u8], end: usize, pos: usize) -> (r: Option<(Vec<u8>, u32, usize)>)
    requires
        end <= s@.len(),
    ensures
        r matches Some((c, d, p)) ==> stream_at(s@.take(end as int), pos as int) == Some(((c@, d), p as int)),
        r is None ==> stream_at(s@.take(end as int), pos as int) is None,
{
    let len = end;
    proof {
        let t = s@.take(end as int);
        assert forall|k: int| 0 <= k < end implies t[k] == s@[k] by {}
        assert forall|a: int, b: int| 0 <= a <= b <= end implies t.subrange(a, b) =~= s@.subrange(a, b) by {}
    }
    if pos > len || len - pos < 8 {
        return None;
    }
    let comp_len = read_u32_le(s, pos) as usize;
    let decomp_len = read_u32_le(s, pos + 4);
    if len - (pos + 8) < comp_len {
        return None;
    }
    let comp = copy_range(s, pos + 8, comp_len);
    Some((comp, decomp_len, pos + 8 + comp_len))
}

/// Finds the first POOL chunk and reads its pool.
pub fn parse_pool(data: &[u8]) -> (r: Result<RawPool, PoolError>)
    ensures
        r matches Ok(p) ==> parse_pool_spec(data@) == Ok::<RawPoolView, PoolError>(p@),
        r matches Err(e) ==> parse_pool_spec(data@) == Err::<RawPoolView, PoolError>(e),
{
    let len = data.len();
    let mut pos: usize = 0;
    loop
        invariant
            len == data@.len(),
            find_pool_from(data@, 0) == find_pool_from(data@, pos as int),
        ensures
            pos + 8 <= len,
            find_pool_from(data@, 0) == Ok::<int, PoolError>(pos + 8),
        decreases len - pos,
    {
        if pos >= len {
            return Err(PoolError::NoPool);
        }
        if len - pos < 8 {
            return Err(PoolError::Truncated);
        }
        if data[pos] == 'P' as u8 && data[pos + 1] == 'O' as u8 && data[pos + 2] == 'O' as u8
            && data[pos + 3] == 'L' as u8 {
            break ;
        }
        let size = read_u32_be(data, pos + 4) as usize;
        if len - (pos + 8) < size {
            return Err(PoolError::Truncated);
        }
        pos = pos + 8 + size;
    }
    let payload = pos + 8;
    let size = read_u32_be(data, pos + 4) as usize;
    if len - payload < size {
        return Err(PoolError::Truncated);
    }
    let end = payload + size;
    assert(end == chunk_end(data@, payload as int));
    if size < 4 {
        return Err(PoolError::Truncated);
    }
    let pool_type = read_u32_le(data, payload);
    assert(u32_at_le(data@.take(end as int), payload as int) == pool_type);
    let (tex_comp, tex_decomp_len, p1) = match read_stream(data, end, payload + 4) {
        Some(t) => t,
        None => return Err(PoolError::Truncated),
    };
    let (mesh_comp, mesh_decomp_len, p2) = match read_stream(data, end, p1) {
        Some(t) => t,
        None => return Err(PoolError::Truncated),
    };
    let (face_comp, face_decomp_len, _) = match read_stream(data, end, p2) {
        Some(t) => t,
        None => return Err(PoolError::Truncated),
    };
    Ok(
        RawPool {
            pool_type,
            tex_comp,
            tex_decomp_len,
            mesh_comp,
            mesh_decomp_len,
            face_comp,
            face_decomp_len,
        },
    )
}

/// The decompressed bytes of a stored stream: the stored bytes when both
/// lengths agree (the stream is stored raw), nothing when the stream is
/// empty, and otherwise the stream decoded (indicator bits least
/// significant first); `None` when that decoding fails.
pub open spec fn stream_contents(comp: Seq<u8>, decomp_len: u32) -> Option<Seq<u8>> {
    if comp.len() == decomp_len as int {
        Some(comp)
    } else if comp.len() > 0 {
        decompressed(false, comp, decomp_len as int)
    } else {
        Some(Seq::empty())
    }
}

/// Decompresses one stored stream as `stream_contents` says.
pub fn decompress_pool_stream(comp: &Vec<u8>, decomp_len: u32) -> (r: Option<Vec<u8>>)
    ensures
        r matches Some(v) ==> stream_contents(comp@, decomp_len) == Some(v@),
        r is None ==> stream_contents(comp@, decomp_len) is None,
{
    if comp.len() as u64 == decomp_len as u64 {
        Some(copy_range(comp.as_slice(), 0, comp.len()))
    } else if comp.len() > 0 {
        decode_stream(comp.as_slice(), decomp_len as usize, false)
    } else {
        Some(Vec::new())
    }
}

/// The decompressed texture, vertex and index streams of a HOD file and its
/// pool type, reading and decompressing one stream after the other, as
/// `extract_pools` does.
pub open spec fn extract_pools_spec(s: Seq<u8>) -> Result<(Seq<u8>, Seq<u8>, Seq<u8>, u32), PoolError> {
    match find_pool_from(s, 0) {
        Err(e) => Err(e),
        Ok(p) => if p + 4 > s.len() {
            Err(PoolError::Truncated)
        } else {
            match stream_at(s, p + 4) {
                None => Err(PoolError::Truncated),
                Some(((tc, tl), p1)) => match stream_contents(tc, tl) {
                    None => Err(PoolError::BadStream),
                    Some(tex) => match stream_at(s, p1) {
                        None => Err(PoolError::Truncated),
                        Some(((mc, ml), p2)) => match stream_contents(mc, ml) {
                            None => Err(PoolError::BadStream),
                            Some(mesh) => match stream_at(s, p2) {
                                None => Err(PoolError::Truncated),
                                Some(((fc, fl), _)) => match stream_contents(fc, fl) {
                                    None => Err(PoolError::BadStream),
                                    Some(face) => Ok((tex, mesh, face, u32_at_le(s, p))),
                                },
                            },
                        },
                    },
                },
            }
        },
    }
}

/// Reads the first POOL chunk of a HOD file's bytes and decompresses its
/// streams: the texture, vertex and index streams and the pool type.
pub fn extract_pools(data: &[u8]) -> (r: Result<(Vec<u8>, Vec<u8>, Vec<u8>, u32), PoolError>)
    ensures
        r matches Ok((t, m, f, ty)) ==> extract_pools_spec(data@) == Ok::<
            (Seq<u8>, Seq<u8>, Seq<u8>, u32),
            PoolError,
        >((t@, m@, f@, ty)),
        r matches Err(e) ==> extract_pools_spec(data@) == Err::<
            (Seq<u8>, Seq<u8>, Seq<u8>, u32),
            PoolError,
        >(e),
{
    let len = data.len();
    let mut pos: usize = 0;
    loop
        invariant
            len == data@.len(),
            find_pool_from(data@, 0) == find_pool_from(data@, pos as int),
        ensures
            pos + 8 <= len,
            find_pool_from(data@, 0) == Ok::<int, PoolError>(pos + 8),
        decreases len - pos,
    {
        if pos >= len {
            return Err(PoolError::NoPool);
        }
        if len - pos < 8 {
            return Err(PoolError::Truncated);
        }
        if data[pos] == 'P' as u8 && data[pos + 1] == 'O' as u8 && data[pos + 2] == 'O' as u8
            && data[pos + 3] == 'L' as u8 {
            break ;
        }
        let size = read_u32_be(data, pos + 4) as usize;
        if len - (pos + 8) < size {
            return Err(PoolError::Truncated);
        }
        pos = pos + 8 + size;
    }
    let payload = pos + 8;
    if len - payload < 4 {
        return Err(PoolError::Truncated);
    }
    let pool_type = read_u32_le(data, payload);
    assert(data@.take(len as int) =~= data@);
    let (tex_comp, tex_len, p1) = match read_stream(data, len, payload + 4) {
        Some(t) => t,
        None => return Err(PoolError::Truncated),
    };
    let tex = match decompress_pool_stream(&tex_comp, tex_len) {
        Some(v) => v,
        None => return Err(PoolError::BadStream),
    };
    let (mesh_comp, mesh_len, p2) = match read_stream(data, len, p1) {
        Some(t) => t,
        None => return Err(PoolError::Truncated),
    };
    let mesh = match decompress_pool_stream(&mesh_comp, mesh_len) {
        Some(v) => v,
        None => return Err(PoolError::BadStream),
    };
    let (face_comp, face_len, _) = match read_stream(data, len, p2) {
        Some(t) => t,
        None => return Err(PoolError::Truncated),
    };
    let face = match decompress_pool_stream(&face_comp, face_len) {
        Some(v) => v,
        None => return Err(PoolError::BadStream),
    };
    Ok((tex, mesh, face, pool_type))
}

/// The compressed and decompressed forms of a pool's three streams.
pub struct PoolStreams {
    pub tex_comp: Vec<u8>,
    pub tex_decomp: Vec<u8>,
    pub mesh_comp: Vec<u8>,
    pub mesh_decomp: Vec<u8>,
    pub face_comp: Vec<u8>,
    pub face_decomp: Vec<u8>,
}

/// A pool's streams as values.
pub type PoolStreamsView = (Seq<u8>, Seq<u8>, Seq<u8>, Seq<u8>, Seq<u8>, Seq<u8>);

impl View for PoolStreams {
    type V = PoolStreamsView;

    open spec fn view(&self) -> PoolStreamsView {
        (
            self.tex_comp@,
            self.tex_decomp@,
            self.mesh_comp@,
            self.mesh_decomp@,
            self.face_comp@,
            self.face_decomp@,
        )
    }
}

/// The streams of the first POOL chunk: all three are read first, then
/// decompressed in order.
pub open spec fn extract_pool_spec(s: Seq<u8>) -> Result<PoolStreamsView, PoolError> {
    match parse_pool_spec(s) {
        Err(e) => Err(e),
        Ok((_, (tc, tl), (mc, ml), (fc, fl))) => match stream_contents(tc, tl) {
            None => Err(PoolError::BadStream),
            Some(td) => match stream_contents(mc, ml) {
                None => Err(PoolError::BadStream),
                Some(md) => match stream_contents(fc, fl) {
                    None => Err(PoolError::BadStream),
                    Some(fd) => Ok((tc, td, mc, md, fc, fd)),
                },
            },
        },
    }
}

/// Reads the streams of the first POOL chunk of a HOD file's bytes, in
/// compressed and decompressed form.
pub fn extract_pool(bytes: &[u8]) -> (r: Result<PoolStreams, PoolError>)
    ensures
        r matches Ok(p) ==> extract_pool_spec(bytes@) == Ok::<PoolStreamsView, PoolError>(p@),
        r matches Err(e) ==> extract_pool_spec(bytes@) == Err::<PoolStreamsView, PoolError>(e),
{
    let raw = match parse_pool(bytes) {
        Ok(p) => p,
        Err(e) => return Err(e),
    };
    let tex_decomp = match decompress_pool_stream(&raw.tex_comp, raw.tex_decomp_len) {
        Some(v) => v,
        None => return Err(PoolError::BadStream),
    };
    let mesh_decomp = match decompress_pool_stream(&raw.mesh_comp, raw.mesh_decomp_len) {
        Some(v) => v,
        None => return Err(PoolError::BadStream),
    };
    let face_decomp = match decompress_pool_stream(&raw.face_comp, raw.face_decomp_len) {
        Some(v) => v,
        None => return Err(PoolError::BadStream),
    };
    Ok(
        PoolStreams {
            tex_comp: raw.tex_comp,
            tex_decomp,
            mesh_comp: raw.mesh_comp,
            mesh_decomp,
            face_comp: raw.face_comp,
            face_decomp,
        },
    )
}

/// The chunks from `pos` on with every POOL chunk replaced by one holding
/// `new_pool` (its size written little-endian) and the others copied as they are.
pub open spec fn replaced_from(s: Seq<u8>, pos: int, new_pool: Seq<u8>) -> Result<Seq<u8>, PoolError>
    decreases s.len() - pos,
{
    if pos < 0 || pos >= s.len() {
        Ok(Seq::empty())
    } else if pos + 8 > s.len() {
        Err(PoolError::Truncated)
    } else {
        let next = pos + 8 + u32_at_be(s, pos + 4) as int;
        if next > s.len() {
            Err(PoolError::Truncated)
        } else {
            let head = if is_pool_id(s, pos) {
                s.subrange(pos, pos + 4) + le_u32(new_pool.len() as u32) + new_pool
            } else {
                s.subrange(pos, next)
            };
            match replaced_from(s, next, new_pool) {
                Ok(rest) => Ok(head + rest),
                Err(e) => Err(e),
            }
        }
    }
}

/// A copy of a HOD file's bytes whose POOL chunk holds `new_pool_data`.
pub fn replace_pool(original_bytes: &[u8], new_pool_data: &[u8]) -> (r: Result<Vec<u8>, PoolError>)
    ensures
        r matches Ok(v) ==> replaced_from(original_bytes@, 0, new_pool_data@) == Ok::<
            Seq<u8>,
            PoolError,
        >(v@),
        r matches Err(e) ==> replaced_from(original_bytes@, 0, new_pool_data@) == Err::<
            Seq<u8>,
            PoolError,
        >(e),
{
    let len = original_bytes.len();
    let mut output: Vec<u8> = Vec::new();
    let mut pos: usize = 0;
    while pos < len
        invariant
            len == original_bytes@.len(),
            pos <= len,
            replaced_from(original_bytes@, 0, new_pool_data@) == match replaced_from(
                original_bytes@,
                pos as int,
                new_pool_data@,
            ) {
                Ok(rest) => Ok(output@ + rest),
                Err(e) => Err(e),
            },
        decreases len - pos,
    {
        let ghost rest_here = replaced_from(original_bytes@, pos as int, new_pool_data@);
        if len - pos < 8 {
            assert(rest_here == Err::<Seq<u8>, PoolError>(PoolError::Truncated));
            assert(replaced_from(original_bytes@, 0, new_pool_data@) == Err::<Seq<u8>, PoolError>(
                PoolError::Truncated,
            ));
            return Err(PoolError::Truncated);
        }
        let size = read_u32_be(original_bytes, pos + 4) as usize;
        if len - (pos + 8) < size {
            assert(rest_here == Err::<Seq<u8>, PoolError>(PoolError::Truncated));
            assert(replaced_from(original_bytes@, 0, new_pool_data@) == Err::<Seq<u8>, PoolError>(
                PoolError::Truncated,
            ));
            return Err(PoolError::Truncated);
        }
        let next = pos + 8 + size;
        let ghost before = output@;
        let ghost spec_head = if is_pool_id(original_bytes@, pos as int) {
            original_bytes@.subrange(pos as int, pos + 4) + le_u32(new_pool_data@.len() as u32) + new_pool_data@
        } else {
            original_bytes@.subrange(pos as int, next as int)
        };
        assert(rest_here == match replaced_from(original_bytes@, next as int, new_pool_data@) {
            Ok(rest) => Ok(spec_head + rest),
            Err(e) => Err(e),
        });
        if original_bytes[pos] == 'P' as u8 && original_bytes[pos + 1] == 'O' as u8 && original_bytes[pos + 2] == 'O' as u8 && original_bytes[pos + 3]
            == 'L' as u8 {
            put_bytes(&mut output, ['P' as u8, 'O' as u8, 'O' as u8, 'L' as u8].as_slice());
            put_u32_le(&mut output, new_pool_data.len() as u32);
            put_bytes(&mut output, new_pool_data);
            assert(original_bytes@.subrange(pos as int, pos + 4) =~= seq![
                'P' as u8,
                'O' as u8,
                'O' as u8,
                'L' as u8,
            ]);
            assert(output@ =~= before + spec_head);
        } else {
            let chunk = copy_range(original_bytes, pos, next - pos);
            put_bytes(&mut output, chunk.as_slice());
            assert(output@ =~= before + spec_head);
        }
        proof {
            match replaced_from(original_bytes@, next as int, new_pool_data@) {
                Ok(rest) => {
                    assert(output@ + rest =~= before + (spec_head + rest));
                },
                Err(e) => {},
            }
        }
        pos = next;
    }
    Ok(output)
}

/// A POOL chunk's bytes: its id, a big-endian size, and the payload.
pub open spec fn pool_chunk(size: u32, payload: Seq<u8>) -> Seq<u8> {
    seq!['P' as u8, 'O' as u8, 'O' as u8, 'L' as u8] + be_u32(size) + payload
}

/// A stream record reads back as its stream.
proof fn lemma_stream_roundtrip(pre: Seq<u8>, c: Seq<u8>, dl: u32, post: Seq<u8>)
    requires
        c.len() <= u32::MAX,
    ensures
        stream_at(pre + stream_record(c, dl) + post, pre.len() as int) == Some(
            ((c, dl), pre.len() + 8 + c.len() as int),
        ),
{
    let s = pre + stream_record(c, dl) + post;
    assert(s =~= pre + le_u32(c.len() as u32) + (le_u32(dl) + c + post));
    lemma_le_u32_roundtrip(c.len() as u32, pre, le_u32(dl) + c + post);
    assert(s =~= (pre + le_u32(c.len() as u32)) + le_u32(dl) + (c + post));
    lemma_le_u32_roundtrip(dl, pre + le_u32(c.len() as u32), c + post);
    assert(s.subrange(pre.len() + 8 as int, pre.len() + 8 + c.len() as int) =~= c);
}

/// What `write_pool` lays out reads back as its pool type and streams,
/// wherever it stands and whatever follows it.
#[verifier::rlimit(60)]
proof fn lemma_pool_at_roundtrip(
    pre: Seq<u8>,
    pool_type: u32,
    tex: Seq<u8>,
    tex_len: u32,
    mesh: Seq<u8>,
    mesh_len: u32,
    face: Seq<u8>,
    face_len: u32,
    rest: Seq<u8>,
)
    requires
        tex.len() <= u32::MAX,
        mesh.len() <= u32::MAX,
        face.len() <= u32::MAX,
    ensures
        pool_at(
            pre + pool_bytes(pool_type, tex, tex_len, mesh, mesh_len, face, face_len) + rest,
            pre.len() as int,
        ) == Some((pool_type, (tex, tex_len), (mesh, mesh_len), (face, face_len))),
{
    let t = stream_record(tex, tex_len);
    let m = stream_record(mesh, mesh_len);
    let f = stream_record(face, face_len);
    let s = pre + pool_bytes(pool_type, tex, tex_len, mesh, mesh_len, face, face_len) + rest;
    let p1 = pre + le_u32(pool_type);
    let p2 = p1 + t;
    let p3 = p2 + m;
    assert(pool_bytes(pool_type, tex, tex_len, mesh, mesh_len, face, face_len) == le_u32(
        pool_type,
    ) + t + m + f);
    assert(s =~= p3 + f + rest);
    assert(s =~= p1 + t + (m + f + rest));
    assert(s =~= p2 + m + (f + rest));
    assert(s =~= pre + le_u32(pool_type) + (t + m + f + rest));
    lemma_le_u32_roundtrip(pool_type, pre, t + m + f + rest);
    lemma_stream_roundtrip(p1, tex, tex_len, m + f + rest);
    lemma_stream_roundtrip(p2, mesh, mesh_len, f + rest);
    lemma_stream_roundtrip(p3, face, face_len, rest);
}

/// What `write_pool` lays out in a POOL chunk (whose size is that of its
/// payload) at the start of a file reads back as the same pool type and
/// streams, whatever follows the chunk.
pub proof fn lemma_pool_roundtrip(
    size: u32,
    pool_type: u32,
    tex: Seq<u8>,
    tex_len: u32,
    mesh: Seq<u8>,
    mesh_len: u32,
    face: Seq<u8>,
    face_len: u32,
    rest: Seq<u8>,
)
    requires
        tex.len() <= u32::MAX,
        mesh.len() <= u32::MAX,
        face.len() <= u32::MAX,
        size == pool_bytes(pool_type, tex, tex_len, mesh, mesh_len, face, face_len).len(),
    ensures
        parse_pool_spec(
            pool_chunk(size, pool_bytes(pool_type, tex, tex_len, mesh, mesh_len, face, face_len))
                + rest,
        ) == Ok::<RawPoolView, PoolError>(
            (pool_type, (tex, tex_len), (mesh, mesh_len), (face, face_len)),
        ),
{
    let tag = seq!['P' as u8, 'O' as u8, 'O' as u8, 'L' as u8];
    let hdr = tag + be_u32(size);
    let np = pool_bytes(pool_type, tex, tex_len, mesh, mesh_len, face, face_len);
    let s = pool_chunk(size, np) + rest;
    lemma_chunk_header(tag, size, np, rest);
    assert(s =~= hdr + np + rest);
    assert(is_pool_id(s, 0));
    assert(find_pool_from(s, 0) == Ok::<int, PoolError>(8));
    assert(chunk_end(s, 8) == 8 + size);
    let empty = Seq::<u8>::empty();
    assert(s.take(8 + size) =~= hdr + np + empty);
    lemma_pool_at_roundtrip(hdr, pool_type, tex, tex_len, mesh, mesh_len, face, face_len, empty);
}

/// The size in a chunk header reads back.
proof fn lemma_chunk_header(tag: Seq<u8>, size: u32, np: Seq<u8>, rest: Seq<u8>)
    requires
        tag.len() == 4,
    ensures
        u32_at_be(tag + be_u32(size) + np + rest, 4) == size,
{
    let s = tag + be_u32(size) + np + rest;
    assert(s =~= tag + be_u32(size) + (np + rest));
    lemma_be_u32_roundtrip(size, tag, np + rest);
}

/// Walking the chunks of a file whose POOL chunks were replaced by `np`
/// (`r`, from position `pos` of `s`, placed after `pre`) reaches the first
/// POOL chunk at the same offset as in `s`, and its payload is `np`.
proof fn lemma_replaced_walk(s: Seq<u8>, pos: int, np: Seq<u8>, pre: Seq<u8>, p: int, r: Seq<u8>)
    requires
        0 <= pos,
        find_pool_from(s, pos) == Ok::<int, PoolError>(p),
        replaced_from(s, pos, np) == Ok::<Seq<u8>, PoolError>(r),
    ensures
        p >= pos + 8,
        find_pool_from(pre + r, pre.len() as int) == Ok::<int, PoolError>(pre.len() + p - pos),
        pre.len() + p - pos + np.len() <= (pre + r).len(),
        (pre + r).subrange(pre.len() + p - pos, pre.len() + p - pos + np.len()) == np,
        (pre + r).subrange(pre.len() + p - pos - 4, pre.len() + p - pos) == le_u32(
            np.len() as u32,
        ),
    decreases s.len() - pos,
{
    let x = pre + r;
    let q = pre.len() as int;
    let next = pos + 8 + u32_at_be(s, pos + 4) as int;
    if is_pool_id(s, pos) {
        let head = s.subrange(pos, pos + 4) + le_u32(np.len() as u32) + np;
        match replaced_from(s, next, np) {
            Ok(rest) => {
                assert(r == head + rest);
                assert(x =~= pre + head + rest);
                assert(x[q] == s[pos] && x[q + 1] == s[pos + 1] && x[q + 2] == s[pos + 2] && x[q
                    + 3] == s[pos + 3]);
                assert(is_pool_id(x, q));
                assert(x.subrange(q + 8, q + 8 + np.len()) =~= np);
                assert(x.subrange(q + 4, q + 8) =~= le_u32(np.len() as u32));
            },
            Err(e) => {},
        }
    } else {
        let head = s.subrange(pos, next);
        match replaced_from(s, next, np) {
            Ok(rest) => {
                assert(r == head + rest);
                lemma_replaced_walk(s, next, np, pre + head, p, rest);
                assert(x =~= (pre + head) + rest);
                assert(x[q] == s[pos] && x[q + 1] == s[pos + 1] && x[q + 2] == s[pos + 2] && x[q
                    + 3] == s[pos + 3]);
                assert(x[q + 4] == s[pos + 4] && x[q + 5] == s[pos + 5] && x[q + 6] == s[pos + 6]
                    && x[q + 7] == s[pos + 7]);
                assert(u32_at_be(x, q + 4) == u32_at_be(s, pos + 4));
                assert(!is_pool_id(x, q));
            },
            Err(e) => {},
        }
    }
}

/// Replacing the POOL chunk keeps the other chunks, so the walk over the
/// chunks of the replaced file reaches its first POOL chunk at the offset
/// `p` where the original file has its own; that chunk's size field holds
/// the new pool's length (little-endian) and its payload is the new pool.
pub proof fn lemma_replaced_layout(s: Seq<u8>, np: Seq<u8>, out: Seq<u8>, p: int)
    requires
        find_pool_from(s, 0) == Ok::<int, PoolError>(p),
        replaced_from(s, 0, np) == Ok::<Seq<u8>, PoolError>(out),
    ensures
        p >= 8,
        p + np.len() <= out.len(),
        find_pool_from(out, 0) == Ok::<int, PoolError>(p),
        out.subrange(p - 4, p) == le_u32(np.len() as u32),
        out.subrange(p, p + np.len()) == np,
{
    let empty = Seq::<u8>::empty();
    lemma_replaced_walk(s, 0, np, empty, p, out);
    assert(empty + out =~= out);
}

/// A sequence is the part before `np`, `np`, and the part after it.
proof fn lemma_split_at(out: Seq<u8>, p: int, np: Seq<u8>)
    requires
        0 <= p,
        p + np.len() <= out.len(),
        out.subrange(p, p + np.len()) == np,
    ensures
        out == out.subrange(0, p) + np + out.subrange(p + np.len(), out.len() as int),
{
    assert(out =~= out.subrange(0, p) + np + out.subrange(p + np.len(), out.len() as int));
}

/// A file whose POOL chunk (at payload offset `p`) is replaced by what
/// `write_pool` lays out reads back as that pool, when the chunk size that
/// the reader finds (the new length, written little-endian, read
/// big-endian) covers the new pool and stays inside the file.
pub proof fn lemma_replaced_pool_reads_back(
    s: Seq<u8>,
    out: Seq<u8>,
    p: int,
    pool_type: u32,
    tex: Seq<u8>,
    tex_len: u32,
    mesh: Seq<u8>,
    mesh_len: u32,
    face: Seq<u8>,
    face_len: u32,
)
    requires
        tex.len() <= u32::MAX,
        mesh.len() <= u32::MAX,
        face.len() <= u32::MAX,
        find_pool_from(s, 0) == Ok::<int, PoolError>(p),
        replaced_from(s, 0, pool_bytes(pool_type, tex, tex_len, mesh, mesh_len, face, face_len))
            == Ok::<Seq<u8>, PoolError>(out),
        u32_at_be(le_u32(pool_bytes(pool_type, tex, tex_len, mesh, mesh_len, face, face_len).len() as u32), 0)
            >= pool_bytes(pool_type, tex, tex_len, mesh, mesh_len, face, face_len).len(),
        p + u32_at_be(le_u32(pool_bytes(pool_type, tex, tex_len, mesh, mesh_len, face, face_len).len() as u32), 0)
            <= out.len(),
    ensures
        parse_pool_spec(out) == Ok::<RawPoolView, PoolError>(
            (pool_type, (tex, tex_len), (mesh, mesh_len), (face, face_len)),
        ),
{
    let np = pool_bytes(pool_type, tex, tex_len, mesh, mesh_len, face, face_len);
    lemma_replaced_layout(s, np, out, p);
    let lf = le_u32(np.len() as u32);
    assert(out[p - 4] == lf[0] && out[p - 3] == lf[1] && out[p - 2] == lf[2] && out[p - 1] == lf[3]) by {
        assert(out.subrange(p - 4, p)[0] == out[p - 4]);
        assert(out.subrange(p - 4, p)[1] == out[p - 3]);
        assert(out.subrange(p - 4, p)[2] == out[p - 2]);
        assert(out.subrange(p - 4, p)[3] == out[p - 1]);
    }
    assert(u32_at_be(out, p - 4) == u32_at_be(lf, 0));
    let end = chunk_end(out, p);
    let t = out.take(end);
    assert(t.subrange(p, p + np.len()) =~= np);
    lemma_split_at(t, p, np);
    let a = t.subrange(0, p);
    let b = t.subrange(p + np.len(), t.len() as int);
    lemma_pool_at_roundtrip(a, pool_type, tex, tex_len, mesh, mesh_len, face, face_len, b);
}

} // verus!
