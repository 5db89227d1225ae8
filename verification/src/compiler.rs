//! Compiling model meshes into the HOD 2.0 layout: normalized vertex masks,
//! indexed parts, and the MULT chunks that group levels of detail.
use crate::dedup::{dedup_fold, distinct_keys, lemma_dedup_fold, vertex_key, MeshDeduplicator};
use crate::mesh::{
    clone_indices, clone_vertices, vertices_view, HODMeshPart, HODModel, MeshView, PartView,
    VertexView,
};
use crate::bytes::{
    be_u32, le_i16, le_i32, le_u32, put_bytes, put_i16_le, put_i32_le, put_tag, put_u32_be,
    put_u32_le,
};
use crate::iff::{ChunkType, IffChunk};
use crate::names::{base_name, get_base_name};
use vstd::prelude::*;
use vstd::utf8::encode_utf8;

verus! {

/// A mesh after compilation.
pub struct CompiledMesh {
    pub name: String,
    pub parent_name: String,
    pub lod: i32,
    pub new_parts: Vec<HODMeshPart>,
}

/// A compiled mesh as a mathematical value.
pub struct CompiledMeshView {
    pub name: Seq<char>,
    pub parent_name: Seq<char>,
    pub lod: i32,
    pub new_parts: Seq<PartView>,
}

impl View for CompiledMesh {
    type V = CompiledMeshView;

    open spec fn view(&self) -> CompiledMeshView {
        CompiledMeshView {
            name: self.name@,
            parent_name: self.parent_name@,
            lod: self.lod,
            new_parts: crate::mesh::parts_view(self.new_parts@),
        }
    }
}

/// The views of a sequence of compiled meshes.
pub open spec fn compiled_view(ms: Seq<CompiledMesh>) -> Seq<CompiledMeshView> {
    ms.map_values(|m: CompiledMesh| m@)
}

/// The HOD 2.0 vertex mask for a HWRM mask: bits 0x10 and 0x20 are
/// cleared, and bit 0x08 is set when bit 0x10 was.
pub open spec fn normalized_mask(mask: u32) -> u32 {
    if mask & 0x10 != 0 {
        (mask & !0x30u32) | 0x08
    } else {
        mask & !0x30u32
    }
}

/// Normalizes a HWRM vertex mask for HOD 2.0.
pub fn normalize_hwrm_vertex_mask(mask: u32) -> (r: u32)
    ensures
        r == normalized_mask(mask),
{
    let mut normalized = mask & !0x30;
    if (mask & 0x10) != 0 {
        normalized |= 0x08;
    }
    normalized
}

/// Normalizing a mask that is already normalized leaves it as it is.
pub proof fn lemma_normalized_mask_idempotent(mask: u32)
    ensures
        normalized_mask(normalized_mask(mask)) == normalized_mask(mask),
        normalized_mask(mask) & 0x30 == 0,
{
    assert(((mask & !0x30u32) | 0x08) & 0x10 == 0 && ((mask & !0x30u32) | 0x08) & !0x30u32 == ((
    mask & !0x30u32) | 0x08) && (mask & !0x30u32) & 0x10 == 0 && (mask & !0x30u32) & !0x30u32
        == mask & !0x30u32 && ((mask & !0x30u32) | 0x08) & 0x30 == 0 && (mask & !0x30u32) & 0x30
        == 0) by (bit_vector);
}

/// A part after compilation: an indexed part keeps its vertices and
/// indices; a part without indices, a flat triangle list, becomes its
/// distinct vertices and one index per original vertex. Either way the mask
/// is normalized.
pub open spec fn compiled_part(p: PartView) -> PartView {
    if p.indices.len() > 0 {
        PartView { vertex_mask: normalized_mask(p.vertex_mask), ..p }
    } else {
        PartView {
            material_index: p.material_index,
            vertex_mask: normalized_mask(p.vertex_mask),
            vertices: dedup_fold(p.vertices).0,
            indices: dedup_fold(p.vertices).1,
        }
    }
}

/// A mesh after compilation: its name, parent and level, and its parts compiled.
pub open spec fn compiled_mesh(m: MeshView) -> CompiledMeshView {
    CompiledMeshView {
        name: m.name,
        parent_name: m.parent_name,
        lod: m.lod,
        new_parts: m.parts.map_values(|p: PartView| compiled_part(p)),
    }
}

/// Compiling a part keeps its material, whether it already had indices or
/// was a flat triangle list; its mask loses bits 0x10 and 0x20, gaining
/// 0x08 when 0x10 was set; and a part that already has indices keeps its
/// vertices and indices.
pub proof fn lemma_compiled_part_keeps_material(p: PartView)
    ensures
        compiled_part(p).material_index == p.material_index,
        compiled_part(p).vertex_mask & 0x30 == 0,
        compiled_part(p).vertex_mask & !0x38u32 == p.vertex_mask & !0x38u32,
        p.vertex_mask & 0x10 != 0 ==> compiled_part(p).vertex_mask & 0x08 != 0,
        p.indices.len() > 0 ==> compiled_part(p).vertices == p.vertices && compiled_part(p).indices
            == p.indices,
{
    let m = p.vertex_mask;
    assert(((m & !0x30u32) | 0x08) & 0x30 == 0 && (m & !0x30u32) & 0x30 == 0
        && ((m & !0x30u32) | 0x08) & !0x38u32 == m & !0x38u32 && (m & !0x30u32) & !0x38u32 == m
        & !0x38u32 && ((m & !0x30u32) | 0x08) & 0x08 != 0) by (bit_vector);
}

/// Compiling a mesh keeps its name, parent and level, and gives one part per
/// part, each with the material of the part it was compiled from.
pub proof fn lemma_compiled_mesh_keeps_parts(m: MeshView)
    ensures
        compiled_mesh(m).name == m.name,
        compiled_mesh(m).parent_name == m.parent_name,
        compiled_mesh(m).lod == m.lod,
        compiled_mesh(m).new_parts.len() == m.parts.len(),
        forall|j: int|
            0 <= j < m.parts.len() ==> (#[trigger] compiled_mesh(m).new_parts[j]).material_index
                == m.parts[j].material_index,
{
    assert forall|j: int| 0 <= j < m.parts.len() implies (
    #[trigger] compiled_mesh(m).new_parts[j]).material_index == m.parts[j].material_index by {
        lemma_compiled_part_keeps_material(m.parts[j]);
    }
}

/// Compiling a part without indices gives one index per original vertex,
/// and, while the part has at most 65536 distinct vertices, each original
/// vertex's index designates a compiled vertex with the same key; the
/// compiled vertices have pairwise different keys.
pub proof fn lemma_compiled_part_keeps_vertices(p: PartView)
    requires
        p.indices.len() == 0,
    ensures
        compiled_part(p).indices.len() == p.vertices.len(),
        distinct_keys(compiled_part(p).vertices),
        compiled_part(p).vertices.len() <= 65536 ==> forall|j: int|
            0 <= j < p.vertices.len() ==> #[trigger] compiled_part(p).indices[j]
                < compiled_part(p).vertices.len() && vertex_key(
                compiled_part(p).vertices[compiled_part(p).indices[j] as int],
            ) == vertex_key(p.vertices[j]),
{
    lemma_dedup_fold(p.vertices);
}

fn compile_part(part: &HODMeshPart) -> (r: HODMeshPart)
    ensures
        r@ == compiled_part(part@),
{
    if !part.indices.is_empty() {
        HODMeshPart {
            material_index: part.material_index,
            vertex_mask: normalize_hwrm_vertex_mask(part.vertex_mask),
            vertices: clone_vertices(part.vertices.as_slice()),
            indices: clone_indices(&part.indices),
        }
    } else {
        let mut dedup = MeshDeduplicator::new();
        let mut new_indices: Vec<u16> = Vec::new();
        let ghost vs = vertices_view(part.vertices@);
        let mut i: usize = 0;
        while i < part.vertices.len()
            invariant
                vs == vertices_view(part.vertices@),
                i <= vs.len(),
                dedup.wf(),
                (dedup@, new_indices@) == dedup_fold(vs.take(i as int)),
            decreases vs.len() - i,
        {
            let ghost before = dedup@;
            let new_idx = dedup.add_vertex(&part.vertices[i]);
            new_indices.push(new_idx);
            assert(vs.take(i + 1).drop_last() =~= vs.take(i as int));
            assert(vs.take(i + 1).last() == vs[i as int]);
            i += 1;
        }
        assert(vs.take(i as int) =~= vs);
        HODMeshPart {
            material_index: part.material_index,
            vertex_mask: normalize_hwrm_vertex_mask(part.vertex_mask),
            vertices: clone_vertices(dedup.get_vertices()),
            indices: new_indices,
        }
    }
}

/// Compiles every mesh of `model`, in order.
pub fn compile_model_meshes(model: &HODModel) -> (r: Vec<CompiledMesh>)
    ensures
        compiled_view(r@) == model@.map_values(|m: MeshView| compiled_mesh(m)),
        r@.len() == model@.len(),
        forall|i: int, j: int|
            0 <= i < r@.len() && 0 <= j < model@[i].parts.len() ==> j < r@[i]@.new_parts.len()
                && (#[trigger] r@[i]@.new_parts[j]).material_index == model@[i].parts[j].material_index,
{
    let mut compiled_meshes: Vec<CompiledMesh> = Vec::new();
    let mut i: usize = 0;
    while i < model.meshes.len()
        invariant
            i <= model.meshes@.len(),
            compiled_meshes@.len() == i,
            forall|j: int|
                0 <= j < i ==> (#[trigger] compiled_meshes@[j])@ == compiled_mesh(
                    model.meshes@[j]@,
                ),
        decreases model.meshes@.len() - i,
    {
        let mesh = &model.meshes[i];
        let mut new_parts: Vec<HODMeshPart> = Vec::new();
        let mut j: usize = 0;
        while j < mesh.parts.len()
            invariant
                j <= mesh.parts@.len(),
                new_parts@.len() == j,
                forall|k: int|
                    0 <= k < j ==> (#[trigger] new_parts@[k])@ == compiled_part(mesh.parts@[k]@),
            decreases mesh.parts@.len() - j,
        {
            new_parts.push(compile_part(&mesh.parts[j]));
            j += 1;
        }
        let compiled = CompiledMesh {
            name: mesh.name.clone(),
            parent_name: mesh.parent_name.clone(),
            lod: mesh.lod,
            new_parts,
        };
        assert(compiled@.new_parts =~= mesh@.parts.map_values(|p: PartView| compiled_part(p)));
        compiled_meshes.push(compiled);
        i += 1;
    }
    assert(compiled_view(compiled_meshes@) =~= model@.map_values(
        |m: MeshView| compiled_mesh(m),
    ));
    proof {
        assert forall|i: int, j: int|
            0 <= i < compiled_meshes@.len() && 0 <= j < model@[i].parts.len() implies j
            < compiled_meshes@[i]@.new_parts.len() && (
            #[trigger] compiled_meshes@[i]@.new_parts[j]).material_index
            == model@[i].parts[j].material_index by {
            assert(compiled_meshes@[i]@ == compiled_view(compiled_meshes@)[i]);
            assert(compiled_meshes@[i]@ == compiled_mesh(model@[i]));
            lemma_compiled_mesh_keeps_parts(model@[i]);
        }
    }
    compiled_meshes
}

/// A string as written in a chunk: its UTF-8 length as a little-endian
/// `u32`, then its UTF-8 bytes.
pub open spec fn len_string(s: Seq<char>) -> Seq<u8> {
    le_u32(encode_utf8(s).len() as u32) + encode_utf8(s)
}

/// Appends a string as `len_string` lays it out.
pub fn write_len_string(writer: &mut Vec<u8>, s: &str)
    ensures
        final(writer)@ == old(writer)@ + len_string(s@),
{
    let bytes = s.as_bytes();
    put_u32_le(writer, bytes.len() as u32);
    put_bytes(writer, bytes);
    assert(final(writer)@ =~= old(writer)@ + len_string(s@));
}

/// The tag block of a MULT chunk: a FORM chunk of 15 bytes holding a TAGS
/// chunk with the string "DoScars".
pub open spec fn tags_block() -> Seq<u8> {
    seq!['F' as u8, 'O' as u8, 'R' as u8, 'M' as u8] + be_u32(15) + seq!['T' as u8, 'A' as u8, 'G' as u8, 'S' as u8] + le_u32(7) + seq!['D' as u8, 'o' as u8, 'S' as u8, 'c' as u8, 'a' as u8, 'r' as u8, 's' as u8]
}

/// The record of one part in a BMSH chunk: material, vertex mask, vertex
/// count, a primitive group count of -1, and index count.
pub open spec fn part_record(p: PartView) -> Seq<u8> {
    le_i32(p.material_index as i32) + le_u32(p.vertex_mask) + le_i32(p.vertices.len() as i32)
        + le_i16(-1i16) + le_i32(p.indices.len() as i32)
}

/// The records of a sequence of parts, in order.
pub open spec fn part_records(ps: Seq<PartView>) -> Seq<u8>
    decreases ps.len(),
{
    if ps.len() == 0 {
        Seq::empty()
    } else {
        part_records(ps.drop_last()) + part_record(ps.last())
    }
}

/// One level of detail in a MULT chunk: an NRML chunk wrapping a BMSH
/// chunk of version 1400 with the level, the part count and the part records.
pub open spec fn lod_record(m: CompiledMeshView) -> Seq<u8> {
    seq!['N' as u8, 'R' as u8, 'M' as u8, 'L' as u8] + be_u32((16 + 18 * m.new_parts.len()) as u32) + seq!['B' as u8, 'M' as u8, 'S' as u8, 'H' as u8] + be_u32(1400) + le_i32(m.lod) + le_i32(m.new_parts.len() as i32) + part_records(
        m.new_parts,
    )
}

/// The level records of the meshes of `ms` at positions `idxs`, in order.
pub open spec fn lod_records(ms: Seq<CompiledMeshView>, idxs: Seq<int>) -> Seq<u8>
    decreases idxs.len(),
{
    if idxs.len() == 0 {
        Seq::empty()
    } else {
        lod_records(ms, idxs.drop_last()) + lod_record(ms[idxs.last()])
    }
}

/// A group of levels of detail: the shared base name, the parent name, and
/// the positions of the meshes in it.
pub type LodGroup = (Seq<char>, Seq<char>, Seq<int>);

/// Whether group `i` of `gs` is the first with this base name and parent.
pub open spec fn is_first_group(gs: Seq<LodGroup>, name: Seq<char>, parent: Seq<char>, i: int) -> bool {
    &&& 0 <= i < gs.len()
    &&& gs[i].0 == name && gs[i].1 == parent
    &&& forall|j: int| 0 <= j < i ==> !(gs[j].0 == name && gs[j].1 == parent)
}

/// Groups meshes by base name and parent, in order of first appearance;
/// within a group the meshes keep their order.
pub open spec fn lod_groups(ms: Seq<CompiledMeshView>) -> Seq<LodGroup>
    decreases ms.len(),
{
    if ms.len() == 0 {
        Seq::empty()
    } else {
        let gs = lod_groups(ms.drop_last());
        let i = ms.len() - 1;
        let name = base_name(ms[i].name);
        let parent = ms[i].parent_name;
        if exists|g: int| is_first_group(gs, name, parent, g) {
            let g = choose|g: int| is_first_group(gs, name, parent, g);
            gs.update(g, (gs[g].0, gs[g].1, gs[g].2.push(i)))
        } else {
            gs.push((name, parent, seq![i]))
        }
    }
}

/// Whether the groups `gs` partition the meshes of `ms` by key: every group
/// lists meshes of its own base name and parent in increasing order, no two
/// groups share a key, every mesh is in a group, and groups come in the
/// order of their first meshes.
pub open spec fn partitions_by_key(gs: Seq<LodGroup>, ms: Seq<CompiledMeshView>) -> bool {
    &&& forall|g: int, k: int|
        0 <= g < gs.len() && 0 <= k < gs[g].2.len() ==> {
            let i = #[trigger] gs[g].2[k];
            &&& 0 <= i < ms.len()
            &&& base_name(ms[i].name) == gs[g].0
            &&& ms[i].parent_name == gs[g].1
        }
    &&& forall|g: int, k1: int, k2: int|
        0 <= g < gs.len() && 0 <= k1 < k2 < gs[g].2.len() ==> #[trigger] gs[g].2[k1]
            < #[trigger] gs[g].2[k2]
    &&& forall|g1: int, g2: int|
        0 <= g1 < g2 < gs.len() ==> !(#[trigger] gs[g1].0 == #[trigger] gs[g2].0 && gs[g1].1
            == gs[g2].1)
    &&& forall|i: int| 0 <= i < ms.len() ==> #[trigger] in_some_group(gs, i)
    &&& forall|g: int| 0 <= g < gs.len() ==> #[trigger] gs[g].2.len() > 0
    &&& forall|g1: int, g2: int|
        0 <= g1 < g2 < gs.len() ==> (#[trigger] gs[g1]).2[0] < (#[trigger] gs[g2]).2[0]
}

/// Whether mesh `i` is listed in some group of `gs`.
pub open spec fn in_some_group(gs: Seq<LodGroup>, i: int) -> bool {
    exists|g: int, k: int| 0 <= g < gs.len() && 0 <= k < gs[g].2.len() && #[trigger] gs[g].2[k] == i
}

/// Grouping levels of detail partitions the meshes by base name and parent:
/// each mesh is in exactly the group of its key, groups have distinct keys,
/// groups come in order of first appearance, and within a group the meshes
/// keep their order.
pub proof fn lemma_lod_groups_partition(ms: Seq<CompiledMeshView>)
    ensures
        partitions_by_key(lod_groups(ms), ms),
    decreases ms.len(),
{
    if ms.len() > 0 {
        let prev = ms.drop_last();
        lemma_lod_groups_partition(prev);
        let gs = lod_groups(prev);
        let i = ms.len() - 1;
        let name = base_name(ms[i].name);
        let parent = ms[i].parent_name;
        assert forall|j: int| 0 <= j < prev.len() implies prev[j] == ms[j] by {}
        if exists|g: int| is_first_group(gs, name, parent, g) {
            let g0 = choose|g: int| is_first_group(gs, name, parent, g);
            let ng = gs.update(g0, (gs[g0].0, gs[g0].1, gs[g0].2.push(i)));
            assert(lod_groups(ms) == ng);
            assert forall|g: int, k: int| 0 <= g < ng.len() && 0 <= k < ng[g].2.len() implies {
                let x = #[trigger] ng[g].2[k];
                &&& 0 <= x < ms.len()
                &&& base_name(ms[x].name) == ng[g].0
                &&& ms[x].parent_name == ng[g].1
            } by {
                if g == g0 && k == gs[g0].2.len() {
                } else {
                    assert(ng[g].2[k] == gs[g].2[k]);
                }
            }
            assert forall|g: int, k1: int, k2: int|
                0 <= g < ng.len() && 0 <= k1 < k2 < ng[g].2.len() implies #[trigger] ng[g].2[k1]
                < #[trigger] ng[g].2[k2] by {
                if g == g0 && k2 == gs[g0].2.len() {
                    assert(ng[g].2[k1] == gs[g].2[k1]);
                } else {
                    assert(ng[g].2[k1] == gs[g].2[k1]);
                    assert(ng[g].2[k2] == gs[g].2[k2]);
                }
            }
            assert forall|j: int| 0 <= j < ms.len() implies #[trigger] in_some_group(ng, j) by {
                if j == i {
                    assert(ng[g0].2[gs[g0].2.len() as int] == j);
                } else {
                    assert(in_some_group(gs, j));
                    let (g, k) = choose|g: int, k: int|
                        0 <= g < gs.len() && 0 <= k < gs[g].2.len() && #[trigger] gs[g].2[k] == j;
                    assert(ng[g].2[k] == j);
                }
            }
            assert forall|g: int| 0 <= g < ng.len() implies #[trigger] ng[g].2.len() > 0 by {}
            assert forall|g1: int, g2: int| 0 <= g1 < g2 < ng.len() implies (#[trigger] ng[g1]).2[0]
                < (#[trigger] ng[g2]).2[0] by {
                assert(ng[g1].2[0] == gs[g1].2[0]);
                assert(ng[g2].2[0] == gs[g2].2[0]);
            }
            assert forall|g1: int, g2: int|
                0 <= g1 < g2 < ng.len() implies !(#[trigger] ng[g1].0 == #[trigger] ng[g2].0
                && ng[g1].1 == ng[g2].1) by {
                assert(ng[g1].0 == gs[g1].0 && ng[g1].1 == gs[g1].1);
                assert(ng[g2].0 == gs[g2].0 && ng[g2].1 == gs[g2].1);
            }
        } else {
            let ng = gs.push((name, parent, seq![i]));
            assert(lod_groups(ms) == ng);
            assert forall|g: int| 0 <= g < gs.len() implies !(gs[g].0 == name && gs[g].1
                == parent) by {
                if gs[g].0 == name && gs[g].1 == parent {
                    assert forall|j: int| 0 <= j < g implies !(gs[j].0 == name && gs[j].1
                        == parent) by {
                        assert(!(gs[j].0 == gs[g].0 && gs[j].1 == gs[g].1));
                    }
                    assert(is_first_group(gs, name, parent, g));
                }
            }
            assert forall|g: int, k: int| 0 <= g < ng.len() && 0 <= k < ng[g].2.len() implies {
                let x = #[trigger] ng[g].2[k];
                &&& 0 <= x < ms.len()
                &&& base_name(ms[x].name) == ng[g].0
                &&& ms[x].parent_name == ng[g].1
            } by {
                if g < gs.len() {
                    assert(ng[g].2[k] == gs[g].2[k]);
                }
            }
            assert forall|g: int, k1: int, k2: int|
                0 <= g < ng.len() && 0 <= k1 < k2 < ng[g].2.len() implies #[trigger] ng[g].2[k1]
                < #[trigger] ng[g].2[k2] by {
                if g < gs.len() {
                    assert(ng[g].2[k1] == gs[g].2[k1]);
                    assert(ng[g].2[k2] == gs[g].2[k2]);
                }
            }
            assert forall|j: int| 0 <= j < ms.len() implies #[trigger] in_some_group(ng, j) by {
                if j == i {
                    assert(ng[gs.len() as int].2[0] == j);
                } else {
                    assert(in_some_group(gs, j));
                    let (g, k) = choose|g: int, k: int|
                        0 <= g < gs.len() && 0 <= k < gs[g].2.len() && #[trigger] gs[g].2[k] == j;
                    assert(ng[g].2[k] == j);
                }
            }
            assert forall|g: int| 0 <= g < ng.len() implies #[trigger] ng[g].2.len() > 0 by {
                if g < gs.len() {
                    assert(ng[g] == gs[g]);
                }
            }
            assert forall|g1: int, g2: int|
                0 <= g1 < g2 < ng.len() implies !(#[trigger] ng[g1].0 == #[trigger] ng[g2].0
                && ng[g1].1 == ng[g2].1) by {
                assert(ng[g1] == gs[g1]);
                if g2 < gs.len() {
                    assert(ng[g2] == gs[g2]);
                }
            }
            assert forall|g1: int, g2: int| 0 <= g1 < g2 < ng.len() implies (#[trigger] ng[g1]).2[0]
                < (#[trigger] ng[g2]).2[0] by {
                assert(ng[g1] == gs[g1]);
                assert(gs[g1].2[0] < prev.len());
                if g2 < gs.len() {
                    assert(ng[g2] == gs[g2]);
                }
            }
        }
    }
}

/// The payload of the MULT chunk of one group.
pub open spec fn mult_data(ms: Seq<CompiledMeshView>, g: LodGroup) -> Seq<u8> {
    len_string(g.0) + len_string(g.1) + le_u32(g.2.len() as u32) + tags_block() + lod_records(
        ms,
        g.2,
    )
}

/// Whether `c` is the MULT chunk of group `g` of `ms`.
pub open spec fn is_mult_chunk(c: IffChunk, ms: Seq<CompiledMeshView>, g: LodGroup) -> bool {
    &&& c.id@ == "MULT"@
    &&& c.chunk_type == ChunkType::Normal
    &&& c.version == 1400
    &&& c.data@ == mult_data(ms, g)
    &&& c.children@.len() == 0
}

/// `std::io::Error`, the error of the writes that chunk generation makes.
#[verifier::external_type_specification]
#[verifier::external_body]
pub struct ExIoError(std::io::Error);

/// Appends the level record of `mesh`.
fn write_lod_record(buf: &mut Vec<u8>, mesh: &CompiledMesh)
    requires
        16 + 18 * mesh.new_parts@.len() <= usize::MAX,
    ensures
        final(buf)@ == old(buf)@ + lod_record(mesh@),
{
    let bmsh_data_size = 8 + mesh.new_parts.len() * 18;
    let nrml_size = 8 + bmsh_data_size;
    put_tag(buf, ['N' as u8, 'R' as u8, 'M' as u8, 'L' as u8]);
    put_u32_be(buf, nrml_size as u32);
    put_tag(buf, ['B' as u8, 'M' as u8, 'S' as u8, 'H' as u8]);
    put_u32_be(buf, 1400);
    put_i32_le(buf, mesh.lod);
    put_i32_le(buf, mesh.new_parts.len() as i32);
    let ghost head = buf@;
    let ghost parts = mesh@.new_parts;
    let mut j: usize = 0;
    while j < mesh.new_parts.len()
        invariant
            parts == mesh@.new_parts,
            j <= parts.len(),
            buf@ == head + part_records(parts.take(j as int)),
        decreases parts.len() - j,
    {
        let part = &mesh.new_parts[j];
        put_i32_le(buf, part.material_index as i32);
        put_u32_le(buf, part.vertex_mask);
        put_i32_le(buf, part.vertices.len() as i32);
        put_i16_le(buf, -1);
        put_i32_le(buf, part.indices.len() as i32);
        assert(parts.take(j + 1).drop_last() =~= parts.take(j as int));
        assert(parts[j as int] == part@);
        j += 1;
        assert(buf@ =~= head + part_records(parts.take(j as int)));
    }
    assert(parts.take(j as int) =~= parts);
    assert(buf@ =~= old(buf)@ + lod_record(mesh@));
}

/// The views of exec groups.
pub open spec fn groups_view(gs: Seq<(String, String, Vec<usize>)>) -> Seq<LodGroup> {
    gs.map_values(
        |g: (String, String, Vec<usize>)| (g.0@, g.1@, g.2@.map_values(|i: usize| i as int)),
    )
}

/// Groups the meshes as `lod_groups` does.
fn group_meshes(compiled_meshes: &[CompiledMesh]) -> (r: Vec<(String, String, Vec<usize>)>)
    ensures
        groups_view(r@) == lod_groups(compiled_view(compiled_meshes@)),
        forall|g: int, k: int|
            0 <= g < r@.len() && 0 <= k < r@[g].2@.len() ==> #[trigger] r@[g].2@[k]
                < compiled_meshes@.len(),
{
    let ghost ms = compiled_view(compiled_meshes@);
    let mut groups: Vec<(String, String, Vec<usize>)> = Vec::new();
    let mut i: usize = 0;
    while i < compiled_meshes.len()
        invariant
            ms == compiled_view(compiled_meshes@),
            i <= ms.len(),
            groups_view(groups@) == lod_groups(ms.take(i as int)),
            forall|g: int, k: int|
                0 <= g < groups@.len() && 0 <= k < groups@[g].2@.len() ==> #[trigger] groups@[g].2@[k]
                    < i,
        decreases ms.len() - i,
    {
        let mesh = &compiled_meshes[i];
        let base = get_base_name(mesh.name.as_str());
        let ghost gs = groups_view(groups@);
        assert(ms.take(i + 1).drop_last() =~= ms.take(i as int));
        assert(ms.take(i + 1)[i as int] == mesh@);
        let mut gi: usize = 0;
        let mut found = false;
        while gi < groups.len()
            invariant_except_break
                !found,
            invariant
                gs == groups_view(groups@),
                gi <= groups@.len(),
                base@ == base_name(mesh@.name),
                forall|j: int| 0 <= j < gi ==> !(gs[j].0 == base@ && gs[j].1 == mesh@.parent_name),
            ensures
                found ==> gi < groups@.len() && gs[gi as int].0 == base@ && gs[gi as int].1
                    == mesh@.parent_name,
                !found ==> gi >= groups@.len(),
            decreases groups@.len() - gi,
        {
            if groups[gi].0 == base && groups[gi].1 == mesh.parent_name {
                found = true;
                break ;
            }
            gi += 1;
        }
        if found {
            assert(is_first_group(gs, base@, mesh@.parent_name, gi as int));
            let ghost c = choose|g: int| is_first_group(gs, base@, mesh@.parent_name, g);
            assert(c == gi) by {
                if c < gi {
                    assert(!(gs[c].0 == base@ && gs[c].1 == mesh@.parent_name));
                } else if c > gi {
                    assert(!(gs[gi as int].0 == base@ && gs[gi as int].1 == mesh@.parent_name));
                }
            }
            let name = groups[gi].0.clone();
            let parent = groups[gi].1.clone();
            let mut members = groups[gi].2.clone();
            members.push(i);
            let ghost old_groups = groups@;
            groups.set(gi, (name, parent, members));
            assert(groups_view(groups@) =~= gs.update(
                gi as int,
                (gs[gi as int].0, gs[gi as int].1, gs[gi as int].2.push(i as int)),
            )) by {
                assert(members@.map_values(|x: usize| x as int) =~= old_groups[gi as int].2@.map_values(
                    |x: usize| x as int,
                ).push(i as int));
            }
        } else {
            assert forall|g: int| !is_first_group(gs, base@, mesh@.parent_name, g) by {
                if 0 <= g < gs.len() {
                    assert(!(gs[g].0 == base@ && gs[g].1 == mesh@.parent_name));
                }
            }
            let mut members: Vec<usize> = Vec::new();
            members.push(i);
            let ghost old_groups = groups@;
            groups.push((base, mesh.parent_name.clone(), members));
            assert(members@.map_values(|x: usize| x as int) =~= seq![i as int]);
            assert(groups_view(groups@) =~= gs.push((base_name(mesh@.name), mesh@.parent_name, seq![i as int])));
        }
        i += 1;
    }
    assert(ms.take(i as int) =~= ms);
    groups
}

/// Builds one MULT chunk per group of levels of detail: meshes are grouped
/// by base name (see `get_base_name`) and parent name, groups in order of
/// first appearance, meshes within a group in their order.
pub fn generate_mult_chunks(compiled_meshes: &[CompiledMesh]) -> (r: std::io::Result<Vec<IffChunk>>)
    requires
        forall|i: int|
            0 <= i < compiled_meshes@.len() ==> 16 + 18 * (#[trigger] compiled_meshes@[i]).new_parts@.len()
                <= usize::MAX,
    ensures
        r matches Ok(chunks) && chunks@.len() == lod_groups(compiled_view(compiled_meshes@)).len()
            && forall|g: int|
            0 <= g < chunks@.len() ==> is_mult_chunk(
                #[trigger] chunks@[g],
                compiled_view(compiled_meshes@),
                lod_groups(compiled_view(compiled_meshes@))[g],
            ),
{
    let ghost ms = compiled_view(compiled_meshes@);
    let grouped_meshes = group_meshes(compiled_meshes);
    let ghost gs = groups_view(grouped_meshes@);
    let mut mult_chunks: Vec<IffChunk> = Vec::new();
    let mut g: usize = 0;
    while g < grouped_meshes.len()
        invariant
            ms == compiled_view(compiled_meshes@),
            gs == groups_view(grouped_meshes@),
            gs == lod_groups(ms),
            g <= gs.len(),
            forall|i: int|
                0 <= i < compiled_meshes@.len() ==> 16 + 18 * (#[trigger] compiled_meshes@[i]).new_parts@.len()
                    <= usize::MAX,
            forall|a: int, k: int|
                0 <= a < grouped_meshes@.len() && 0 <= k < grouped_meshes@[a].2@.len() ==> #[trigger] grouped_meshes@[a].2@[k]
                    < compiled_meshes@.len(),
            mult_chunks@.len() == g,
            forall|a: int| 0 <= a < g ==> is_mult_chunk(#[trigger] mult_chunks@[a], ms, gs[a]),
        decreases gs.len() - g,
    {
        let (name, parent_name, lod_meshes) = &grouped_meshes[g];
        let ghost grp = gs[g as int];
        let mut mult_buf: Vec<u8> = Vec::new();
        write_len_string(&mut mult_buf, name.as_str());
        write_len_string(&mut mult_buf, parent_name.as_str());
        put_u32_le(&mut mult_buf, lod_meshes.len() as u32);
        put_tag(&mut mult_buf, ['F' as u8, 'O' as u8, 'R' as u8, 'M' as u8]);
        put_u32_be(&mut mult_buf, 15);
        put_tag(&mut mult_buf, ['T' as u8, 'A' as u8, 'G' as u8, 'S' as u8]);
        put_u32_le(&mut mult_buf, 7);
        put_bytes(
            &mut mult_buf,
            ['D' as u8, 'o' as u8, 'S' as u8, 'c' as u8, 'a' as u8, 'r' as u8, 's' as u8].as_slice(),
        );
        let ghost head = mult_buf@;
        assert(head =~= len_string(grp.0) + len_string(grp.1) + le_u32(grp.2.len() as u32)
            + tags_block());
        let mut k: usize = 0;
        while k < lod_meshes.len()
            invariant
                ms == compiled_view(compiled_meshes@),
                grp.2 == lod_meshes@.map_values(|x: usize| x as int),
                k <= lod_meshes@.len(),
                forall|i: int|
                    0 <= i < compiled_meshes@.len() ==> 16 + 18 * (#[trigger] compiled_meshes@[i]).new_parts@.len()
                        <= usize::MAX,
                forall|a: int| 0 <= a < lod_meshes@.len() ==> #[trigger] lod_meshes@[a] < compiled_meshes@.len(),
                mult_buf@ == head + lod_records(ms, grp.2.take(k as int)),
            decreases lod_meshes@.len() - k,
        {
            let mi = lod_meshes[k];
            write_lod_record(&mut mult_buf, &compiled_meshes[mi]);
            assert(grp.2.take(k + 1).drop_last() =~= grp.2.take(k as int));
            assert(ms[mi as int] == compiled_meshes@[mi as int]@);
            k += 1;
            assert(mult_buf@ =~= head + lod_records(ms, grp.2.take(k as int)));
        }
        assert(grp.2.take(k as int) =~= grp.2);
        let chunk = IffChunk {
            id: String::from_str("MULT"),
            chunk_type: ChunkType::Normal,
            version: 1400,
            data: mult_buf,
            children: Vec::new(),
        };
        mult_chunks.push(chunk);
        g += 1;
    }
    Ok(mult_chunks)
}

} // verus!
