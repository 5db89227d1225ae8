//! The discrete side of collision-mesh generation: choosing the source mesh,
//! gathering its vertex positions, and assembling the collision mesh from the
//! hull (or the fallback box) that the geometry stage produced.
use vstd::prelude::*;
use crate::mesh::{HODMesh, HODMeshPart, HODVertex, MeshView, PartView, VertexView, Vector3};

verus! {

/// Whether mesh `m` is the one a collision mesh is built from: the mesh with
/// the requested name, or, when no name is given, a mesh at level of detail 0.
pub open spec fn is_target(m: MeshView, name: Option<Seq<char>>) -> bool {
    match name {
        Some(n) => m.name == n,
        None => m.lod == 0,
    }
}

/// The index of the first target mesh in `ms`, if any.
pub open spec fn first_target(ms: Seq<MeshView>, name: Option<Seq<char>>) -> Option<int>
    decreases ms.len(),
{
    if ms.len() == 0 {
        None
    } else {
        match first_target(ms.drop_last(), name) {
            Some(i) => Some(i),
            None => if is_target(ms.last(), name) {
                Some(ms.len() - 1)
            } else {
                None
            },
        }
    }
}

/// The positions of a part's vertices, in order.
pub open spec fn part_positions(p: PartView) -> Seq<Vector3> {
    p.vertices.map_values(|v: VertexView| v.position)
}

/// The positions of the vertices of all parts, part after part.
pub open spec fn mesh_positions(ps: Seq<PartView>) -> Seq<Vector3>
    decreases ps.len(),
{
    if ps.len() == 0 {
        Seq::empty()
    } else {
        mesh_positions(ps.drop_last()) + part_positions(ps.last())
    }
}

/// The points a hull is computed from: those of the target mesh, when there
/// is one, it has parts, and it has at least four vertices.
pub open spec fn collision_source_spec(ms: Seq<MeshView>, name: Option<Seq<char>>) -> Option<
    Seq<Vector3>,
> {
    match first_target(ms, name) {
        None => None,
        Some(i) => if ms[i].parts.len() == 0 || mesh_positions(ms[i].parts).len() < 4 {
            None
        } else {
            Some(mesh_positions(ms[i].parts))
        },
    }
}

/// A vertex that carries a position and no other attribute.
pub open spec fn bare_vertex(p: Vector3) -> VertexView {
    VertexView {
        position: p,
        normal: None,
        color: None,
        uv: None,
        tangent: None,
        binormal: None,
        skinning_data: None,
    }
}

/// The collision mesh over `positions` and the triangle list `indices`: one
/// position-only part with material 0.
pub open spec fn collision_mesh_spec(positions: Seq<Vector3>, indices: Seq<u16>) -> MeshView {
    MeshView {
        name: "CollisionMesh"@,
        parent_name: Seq::empty(),
        lod: 0,
        has_mult_tags: false,
        parts: seq![PartView {
            material_index: 0,
            vertex_mask: 1,
            vertices: positions.map_values(|p: Vector3| bare_vertex(p)),
            indices: indices,
        }],
    }
}

/// The eight corners of the box from `lo` to `hi`: the bottom face
/// counter-clockwise from `lo`, then the top face in the same order.
pub open spec fn box_corners_spec(lo: Vector3, hi: Vector3) -> Seq<Vector3> {
    seq![
        Vector3 { x: lo.x, y: lo.y, z: lo.z },
        Vector3 { x: hi.x, y: lo.y, z: lo.z },
        Vector3 { x: hi.x, y: hi.y, z: lo.z },
        Vector3 { x: lo.x, y: hi.y, z: lo.z },
        Vector3 { x: lo.x, y: lo.y, z: hi.z },
        Vector3 { x: hi.x, y: lo.y, z: hi.z },
        Vector3 { x: hi.x, y: hi.y, z: hi.z },
        Vector3 { x: lo.x, y: hi.y, z: hi.z },
    ]
}

/// The twelve triangles of the box over `box_corners_spec`, two per face.
pub open spec fn box_indices_spec() -> Seq<u16> {
    seq![
        0u16, 1, 2, 0, 2, 3,
        4, 6, 5, 4, 7, 6,
        0, 4, 5, 0, 5, 1,
        2, 6, 7, 2, 7, 3,
        0, 3, 7, 0, 7, 4,
        1, 5, 6, 1, 6, 2,
    ]
}

/// Triangles written out as a flat index list.
pub open spec fn flat_faces(fs: Seq<[u16; 3]>) -> Seq<u16>
    decreases fs.len(),
{
    if fs.len() == 0 {
        Seq::empty()
    } else {
        flat_faces(fs.drop_last()) + seq![fs.last()[0], fs.last()[1], fs.last()[2]]
    }
}

proof fn lemma_flat_faces_len(fs: Seq<[u16; 3]>)
    ensures
        flat_faces(fs).len() == 3 * fs.len(),
    decreases fs.len(),
{
    if fs.len() > 0 {
        lemma_flat_faces_len(fs.drop_last());
    }
}

/// Whether `name` equals the mesh name `s`.
fn name_is(s: &String, name: &str) -> (r: bool)
    ensures
        r == (s@ == name@),
{
    *s == String::from_str(name)
}

/// The index of the first mesh that a collision mesh is built from: the first
/// with the given name, or the first at level of detail 0 when no name is given.
pub fn find_target_mesh(visible_meshes: &[HODMesh], mesh_name: Option<&str>) -> (r: Option<usize>)
    ensures
        match r {
            Some(i) => i < visible_meshes@.len() && first_target(
                crate::mesh::meshes_view(visible_meshes@),
                opt_view(mesh_name),
            ) == Some(i as int),
            None => first_target(crate::mesh::meshes_view(visible_meshes@), opt_view(mesh_name)) is None,
        },
{
    let ghost ms = crate::mesh::meshes_view(visible_meshes@);
    let ghost nm = opt_view(mesh_name);
    let mut i: usize = 0;
    while i < visible_meshes.len()
        invariant
            i <= visible_meshes@.len(),
            ms == crate::mesh::meshes_view(visible_meshes@),
            nm == opt_view(mesh_name),
            first_target(ms.take(i as int), nm) is None,
        decreases visible_meshes@.len() - i,
    {
        let m = &visible_meshes[i];
        let hit = match mesh_name {
            Some(n) => name_is(&m.name, n),
            None => m.lod == 0,
        };
        assert(ms.take(i as int + 1).drop_last() =~= ms.take(i as int));
        assert(ms[i as int] == m@);
        if hit {
            proof {
                lemma_first_target_prefix(ms, i as int + 1, nm);
            }
            return Some(i);
        }
        i += 1;
    }
    assert(ms.take(i as int) =~= ms);
    None
}

/// The view of an optional name.
pub open spec fn opt_view(name: Option<&str>) -> Option<Seq<char>> {
    match name {
        Some(n) => Some(n@),
        None => None,
    }
}

/// A target found in a prefix is the first target of the whole sequence.
proof fn lemma_first_target_prefix(ms: Seq<MeshView>, k: int, n: Option<Seq<char>>)
    requires
        0 <= k <= ms.len(),
        first_target(ms.take(k), n) is Some,
    ensures
        first_target(ms, n) == first_target(ms.take(k), n),
    decreases ms.len() - k,
{
    if k < ms.len() {
        assert(ms.take(k + 1).drop_last() =~= ms.take(k));
        lemma_first_target_prefix(ms, k + 1, n);
    } else {
        assert(ms.take(k) =~= ms);
    }
}

/// Appends the positions of a part's vertices.
fn push_part_positions(out: &mut Vec<Vector3>, part: &HODMeshPart)
    ensures
        final(out)@ == old(out)@ + part_positions(part@),
{
    let ghost start = out@;
    let mut j: usize = 0;
    while j < part.vertices.len()
        invariant
            j <= part.vertices@.len(),
            out@ == start + part_positions(part@).take(j as int),
        decreases part.vertices@.len() - j,
    {
        out.push(part.vertices[j].position);
        proof {
            assert(part@.vertices[j as int] == part.vertices@[j as int]@);
            assert(part_positions(part@).take(j as int + 1) =~= part_positions(part@).take(
                j as int,
            ).push(part.vertices@[j as int].position));
        }
        j += 1;
    }
    assert(part_positions(part@).take(j as int) =~= part_positions(part@));
}

/// The positions of all vertices of a mesh, part after part.
pub fn mesh_vertex_positions(mesh: &HODMesh) -> (r: Vec<Vector3>)
    ensures
        r@ == mesh_positions(mesh@.parts),
{
    let mut out: Vec<Vector3> = Vec::new();
    let mut k: usize = 0;
    while k < mesh.parts.len()
        invariant
            k <= mesh.parts@.len(),
            out@ == mesh_positions(mesh@.parts.take(k as int)),
        decreases mesh.parts@.len() - k,
    {
        push_part_positions(&mut out, &mesh.parts[k]);
        proof {
            let ps = mesh@.parts.take(k as int + 1);
            assert(ps.drop_last() =~= mesh@.parts.take(k as int));
            assert(ps.last() == mesh.parts@[k as int]@);
        }
        k += 1;
    }
    assert(mesh@.parts.take(k as int) =~= mesh@.parts);
    out
}

/// The points a collision hull is computed from: the vertex positions of the
/// target mesh (see `find_target_mesh`). `None` when there is no target mesh,
/// when it has no parts, or when it has fewer than four vertices.
pub fn collision_source(visible_meshes: &[HODMesh], mesh_name: Option<&str>) -> (r: Option<
    Vec<Vector3>,
>)
    ensures
        match r {
            Some(v) => collision_source_spec(crate::mesh::meshes_view(visible_meshes@), opt_view(mesh_name)) == Some(v@),
            None => collision_source_spec(crate::mesh::meshes_view(visible_meshes@), opt_view(mesh_name)) is None,
        },
{
    let t = find_target_mesh(visible_meshes, mesh_name);
    match t {
        None => {
            assert(collision_source_spec(crate::mesh::meshes_view(visible_meshes@), opt_view(mesh_name)) is None);
            None
        },
        Some(i) => {
            let m = &visible_meshes[i];
            assert(crate::mesh::meshes_view(visible_meshes@)[i as int] == m@);
            assert(m@.parts.len() == m.parts@.len());
            if m.parts.len() == 0 {
                return None;
            }
            let positions = mesh_vertex_positions(m);
            if positions.len() < 4 {
                None
            } else {
                Some(positions)
            }
        },
    }
}

/// The eight corners of the box from `lo` to `hi` (see `box_corners_spec`).
pub fn box_corners(lo: Vector3, hi: Vector3) -> (r: Vec<Vector3>)
    ensures
        r@ == box_corners_spec(lo, hi),
{
    let r = vec![
        Vector3 { x: lo.x, y: lo.y, z: lo.z },
        Vector3 { x: hi.x, y: lo.y, z: lo.z },
        Vector3 { x: hi.x, y: hi.y, z: lo.z },
        Vector3 { x: lo.x, y: hi.y, z: lo.z },
        Vector3 { x: lo.x, y: lo.y, z: hi.z },
        Vector3 { x: hi.x, y: lo.y, z: hi.z },
        Vector3 { x: hi.x, y: hi.y, z: hi.z },
        Vector3 { x: lo.x, y: hi.y, z: hi.z },
    ];
    assert(r@ =~= box_corners_spec(lo, hi));
    r
}

/// The triangle list of the box over `box_corners` (see `box_indices_spec`).
pub fn box_indices() -> (r: Vec<u16>)
    ensures
        r@ == box_indices_spec(),
{
    let r: Vec<u16> = vec![
        0, 1, 2, 0, 2, 3, 4, 6, 5, 4, 7, 6, 0, 4, 5, 0, 5, 1, 2, 6, 7, 2, 7, 3, 0, 3, 7, 0, 7,
        4, 1, 5, 6, 1, 6, 2,
    ];
    assert(r@ =~= box_indices_spec());
    r
}

/// Triangles written out as a flat index list, three indices per triangle.
pub fn flatten_faces(faces: &[[u16; 3]]) -> (r: Vec<u16>)
    ensures
        r@ == flat_faces(faces@),
        r@.len() == 3 * faces@.len(),
{
    let mut r: Vec<u16> = Vec::new();
    let mut i: usize = 0;
    while i < faces.len()
        invariant
            i <= faces@.len(),
            r@ == flat_faces(faces@.take(i as int)),
        decreases faces@.len() - i,
    {
        let f = faces[i];
        r.push(f[0]);
        r.push(f[1]);
        r.push(f[2]);
        proof {
            let fs = faces@.take(i as int + 1);
            assert(fs.drop_last() =~= faces@.take(i as int));
            assert(fs.last() == f);
            assert(r@ =~= flat_faces(fs));
        }
        i += 1;
    }
    assert(faces@.take(i as int) =~= faces@);
    proof {
        lemma_flat_faces_len(faces@);
    }
    r
}

/// The collision mesh over `positions` with triangle list `indices` (see
/// `collision_mesh_spec`).
pub fn collision_mesh(positions: &[Vector3], indices: Vec<u16>) -> (r: HODMesh)
    ensures
        r@ == collision_mesh_spec(positions@, indices@),
{
    let mut vertices: Vec<HODVertex> = Vec::new();
    let mut i: usize = 0;
    while i < positions.len()
        invariant
            i <= positions@.len(),
            vertices@.len() == i,
            crate::mesh::vertices_view(vertices@) == positions@.take(i as int).map_values(
                |p: Vector3| bare_vertex(p),
            ),
        decreases positions@.len() - i,
    {
        let ghost old_vertices = vertices@;
        vertices.push(
            HODVertex {
                position: positions[i],
                normal: None,
                color: None,
                uv: None,
                tangent: None,
                binormal: None,
                skinning_data: None,
            },
        );
        proof {
            let ghost last = vertices@[i as int];
            assert(last@ == bare_vertex(positions@[i as int]));
            assert(vertices@.drop_last() == old_vertices);
            assert forall|j: int| 0 <= j < i as int + 1 implies #[trigger] crate::mesh::vertices_view(
                vertices@,
            )[j] == bare_vertex(positions@[j]) by {
                if j < i {
                    assert(vertices@[j] == old_vertices[j]);
                    assert(crate::mesh::vertices_view(old_vertices)[j] == positions@.take(
                        i as int,
                    ).map_values(|p: Vector3| bare_vertex(p))[j]);
                }
            }
            assert(crate::mesh::vertices_view(vertices@) =~= positions@.take(i as int + 1).map_values(
                |p: Vector3| bare_vertex(p),
            ));
        }
        i += 1;
    }
    assert(positions@.take(i as int) =~= positions@);
    let part = HODMeshPart { material_index: 0, vertex_mask: 1, vertices, indices };
    let parts = vec![part];
    let name = String::from_str("CollisionMesh");
    let r = HODMesh {
        name,
        parent_name: String::new(),
        lod: 0,
        has_mult_tags: false,
        parts,
    };
    assert(crate::mesh::parts_view(r.parts@) =~= collision_mesh_spec(positions@, indices@).parts);
    r
}

} // verus!
