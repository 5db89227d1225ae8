//! Mesh data of a HOD model. Floating-point attributes are held as their
//! IEEE-754 single-precision bit patterns (`f32::to_bits`), which is how
//! they are compared and written.
use vstd::prelude::*;

verus! {

/// A three-component vector, each component an `f32` bit pattern.
#[derive(Clone, Copy, Debug, PartialEq, Eq, Structural)]
pub struct Vector3 {
    pub x: u32,
    pub y: u32,
    pub z: u32,
}

/// A texture coordinate pair, each an `f32` bit pattern.
#[derive(Clone, Copy, Debug, PartialEq, Eq, Structural)]
pub struct Vector2 {
    pub u: u32,
    pub v: u32,
}

/// One vertex with its optional attributes.
pub struct HODVertex {
    pub position: Vector3,
    pub normal: Option<Vector3>,
    pub color: Option<u32>,
    pub uv: Option<Vector2>,
    pub tangent: Option<Vector3>,
    pub binormal: Option<Vector3>,
    pub skinning_data: Option<Vec<u8>>,
}

/// A vertex as a mathematical value.
pub struct VertexView {
    pub position: Vector3,
    pub normal: Option<Vector3>,
    pub color: Option<u32>,
    pub uv: Option<Vector2>,
    pub tangent: Option<Vector3>,
    pub binormal: Option<Vector3>,
    pub skinning_data: Option<Seq<u8>>,
}

/// The view of optional bytes.
pub open spec fn bytes_view(b: Option<Vec<u8>>) -> Option<Seq<u8>> {
    match b {
        Some(v) => Some(v@),
        None => None,
    }
}

impl View for HODVertex {
    type V = VertexView;

    open spec fn view(&self) -> VertexView {
        VertexView {
            position: self.position,
            normal: self.normal,
            color: self.color,
            uv: self.uv,
            tangent: self.tangent,
            binormal: self.binormal,
            skinning_data: bytes_view(self.skinning_data),
        }
    }
}

/// The views of a sequence of vertices.
pub open spec fn vertices_view(vs: Seq<HODVertex>) -> Seq<VertexView> {
    vs.map_values(|v: HODVertex| v@)
}

/// A run of vertices and triangle indices drawn with one material.
pub struct HODMeshPart {
    pub material_index: u32,
    pub vertex_mask: u32,
    pub vertices: Vec<HODVertex>,
    pub indices: Vec<u16>,
}

/// A mesh part as a mathematical value.
pub struct PartView {
    pub material_index: u32,
    pub vertex_mask: u32,
    pub vertices: Seq<VertexView>,
    pub indices: Seq<u16>,
}

impl View for HODMeshPart {
    type V = PartView;

    open spec fn view(&self) -> PartView {
        PartView {
            material_index: self.material_index,
            vertex_mask: self.vertex_mask,
            vertices: vertices_view(self.vertices@),
            indices: self.indices@,
        }
    }
}

/// The views of a sequence of parts.
pub open spec fn parts_view(ps: Seq<HODMeshPart>) -> Seq<PartView> {
    ps.map_values(|p: HODMeshPart| p@)
}

/// A named mesh at one level of detail.
pub struct HODMesh {
    pub name: String,
    pub parent_name: String,
    pub lod: i32,
    pub has_mult_tags: bool,
    pub parts: Vec<HODMeshPart>,
}

/// A mesh as a mathematical value.
pub struct MeshView {
    pub name: Seq<char>,
    pub parent_name: Seq<char>,
    pub lod: i32,
    pub has_mult_tags: bool,
    pub parts: Seq<PartView>,
}

impl View for HODMesh {
    type V = MeshView;

    open spec fn view(&self) -> MeshView {
        MeshView {
            name: self.name@,
            parent_name: self.parent_name@,
            lod: self.lod,
            has_mult_tags: self.has_mult_tags,
            parts: parts_view(self.parts@),
        }
    }
}

/// The views of a sequence of meshes.
pub open spec fn meshes_view(ms: Seq<HODMesh>) -> Seq<MeshView> {
    ms.map_values(|m: HODMesh| m@)
}

/// The meshes of a model, which are what its compilation and level-of-detail
/// generation read and change.
pub struct HODModel {
    pub meshes: Vec<HODMesh>,
}

impl View for HODModel {
    type V = Seq<MeshView>;

    open spec fn view(&self) -> Seq<MeshView> {
        meshes_view(self.meshes@)
    }
}

/// Copies bytes.
pub fn copy_bytes(b: &Vec<u8>) -> (r: Vec<u8>)
    ensures
        r@ == b@,
{
    let mut r: Vec<u8> = Vec::new();
    let mut i: usize = 0;
    while i < b.len()
        invariant
            i <= b@.len(),
            r@ == b@.take(i as int),
        decreases b@.len() - i,
    {
        r.push(b[i]);
        i += 1;
        assert(r@ =~= b@.take(i as int));
    }
    assert(b@.take(i as int) =~= b@);
    r
}

/// Copies a vertex.
pub fn clone_vertex(v: &HODVertex) -> (r: HODVertex)
    ensures
        r@ == v@,
{
    let skinning_data = match &v.skinning_data {
        Some(b) => Some(copy_bytes(b)),
        None => None,
    };
    HODVertex {
        position: v.position,
        normal: v.normal,
        color: v.color,
        uv: v.uv,
        tangent: v.tangent,
        binormal: v.binormal,
        skinning_data,
    }
}

/// Copies a sequence of vertices.
pub fn clone_vertices(vs: &[HODVertex]) -> (r: Vec<HODVertex>)
    ensures
        vertices_view(r@) == vertices_view(vs@),
{
    let mut r: Vec<HODVertex> = Vec::new();
    let mut i: usize = 0;
    while i < vs.len()
        invariant
            i <= vs@.len(),
            r@.len() == i,
            forall|j: int| 0 <= j < i ==> (#[trigger] r@[j])@ == vs@[j]@,
        decreases vs@.len() - i,
    {
        r.push(clone_vertex(&vs[i]));
        i += 1;
    }
    assert(vertices_view(r@) =~= vertices_view(vs@));
    r
}

/// Copies a sequence of indices.
pub fn clone_indices(v: &Vec<u16>) -> (r: Vec<u16>)
    ensures
        r@ == v@,
{
    let mut r: Vec<u16> = Vec::new();
    let mut i: usize = 0;
    while i < v.len()
        invariant
            i <= v@.len(),
            r@ == v@.take(i as int),
        decreases v@.len() - i,
    {
        r.push(v[i]);
        i += 1;
        assert(r@ =~= v@.take(i as int));
    }
    assert(v@.take(i as int) =~= v@);
    r
}

/// Copies a part.
pub fn clone_part(p: &HODMeshPart) -> (r: HODMeshPart)
    ensures
        r@ == p@,
{
    HODMeshPart {
        material_index: p.material_index,
        vertex_mask: p.vertex_mask,
        vertices: clone_vertices(p.vertices.as_slice()),
        indices: clone_indices(&p.indices),
    }
}

/// Copies a sequence of parts.
pub fn clone_parts(ps: &Vec<HODMeshPart>) -> (r: Vec<HODMeshPart>)
    ensures
        parts_view(r@) == parts_view(ps@),
{
    let mut r: Vec<HODMeshPart> = Vec::new();
    let mut i: usize = 0;
    while i < ps.len()
        invariant
            i <= ps@.len(),
            r@.len() == i,
            forall|j: int| 0 <= j < i ==> (#[trigger] r@[j])@ == ps@[j]@,
        decreases ps@.len() - i,
    {
        r.push(clone_part(&ps[i]));
        i += 1;
    }
    assert(parts_view(r@) =~= parts_view(ps@));
    r
}

/// Copies a mesh.
pub fn clone_mesh(m: &HODMesh) -> (r: HODMesh)
    ensures
        r@ == m@,
{
    HODMesh {
        name: m.name.clone(),
        parent_name: m.parent_name.clone(),
        lod: m.lod,
        has_mult_tags: m.has_mult_tags,
        parts: clone_parts(&m.parts),
    }
}

} // verus!
