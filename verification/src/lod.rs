//! Replacing a model's lower levels of detail with generated ones.
use crate::mesh::{
    clone_indices, clone_mesh, clone_vertices, meshes_view, parts_view, vertices_view, HODMesh,
    HODMeshPart, HODModel, HODVertex, MeshView, PartView, VertexView,
};
use vstd::prelude::*;

verus! {

/// The meshes of `ms` at level of detail 0, in order.
pub open spec fn lod0_of(ms: Seq<MeshView>) -> Seq<MeshView>
    decreases ms.len(),
{
    if ms.len() == 0 {
        Seq::empty()
    } else if ms.last().lod == 0 {
        lod0_of(ms.drop_last()).push(ms.last())
    } else {
        lod0_of(ms.drop_last())
    }
}

/// The meshes of `ls` one list after the other.
pub open spec fn concat_meshes(ls: Seq<Seq<MeshView>>) -> Seq<MeshView>
    decreases ls.len(),
{
    if ls.len() == 0 {
        Seq::empty()
    } else {
        concat_meshes(ls.drop_last()) + ls.last()
    }
}

/// The views of lists of meshes.
pub open spec fn mesh_lists_view(ls: Seq<Vec<HODMesh>>) -> Seq<Seq<MeshView>> {
    ls.map_values(|l: Vec<HODMesh>| meshes_view(l@))
}

/// Copies of the level-0 meshes of `model`, in order: those from which the
/// other levels are generated.
pub fn lod0_meshes(model: &HODModel) -> (r: Vec<HODMesh>)
    ensures
        meshes_view(r@) == lod0_of(model@),
{
    let ghost ms = model@;
    let mut r: Vec<HODMesh> = Vec::new();
    let mut i: usize = 0;
    while i < model.meshes.len()
        invariant
            ms == model@,
            i <= ms.len(),
            meshes_view(r@) == lod0_of(ms.take(i as int)),
        decreases ms.len() - i,
    {
        let ghost before = r@;
        assert(ms.take(i + 1).drop_last() =~= ms.take(i as int));
        assert(ms.take(i + 1).last() == model.meshes@[i as int]@);
        if model.meshes[i].lod == 0 {
            r.push(clone_mesh(&model.meshes[i]));
            assert(meshes_view(r@) =~= meshes_view(before).push(model.meshes@[i as int]@));
        }
        i += 1;
    }
    assert(ms.take(i as int) =~= ms);
    r
}

/// Replaces the levels of detail of `model`: when it has level-0 meshes,
/// every other mesh is removed and the meshes of `new_lods` (the levels
/// generated from each level-0 mesh, in the order of `lod0_meshes`) are
/// appended after them; a model without level-0 meshes is left as it is.
pub fn generate_all_lod_meshes(model: &mut HODModel, new_lods: Vec<Vec<HODMesh>>)
    ensures
        lod0_of(old(model)@).len() == 0 ==> final(model)@ == old(model)@,
        lod0_of(old(model)@).len() > 0 ==> final(model)@ == lod0_of(old(model)@) + concat_meshes(
            mesh_lists_view(new_lods@),
        ),
        final(model)@ == lods_replaced(old(model)@, concat_meshes(mesh_lists_view(new_lods@))),
{
    let lod0 = lod0_meshes(model);
    if lod0.len() == 0 {
        return ;
    }
    let mut meshes = lod0;
    let ghost head = meshes_view(meshes@);
    let ghost ls = mesh_lists_view(new_lods@);
    let mut k: usize = 0;
    let mut lists = new_lods;
    let ghost all = lists@;
    while k < lists.len()
        invariant
            all == lists@,
            ls == mesh_lists_view(all),
            k <= ls.len(),
            meshes_view(meshes@) == head + concat_meshes(ls.take(k as int)),
        decreases ls.len() - k,
    {
        let ghost before = meshes_view(meshes@);
        let mut j: usize = 0;
        while j < lists[k].len()
            invariant
                all == lists@,
                k < lists@.len(),
                j <= lists@[k as int]@.len(),
                meshes_view(meshes@) == before + meshes_view(lists@[k as int]@.take(j as int)),
            decreases lists@[k as int]@.len() - j,
        {
            let ghost pv = meshes_view(meshes@);
            let ghost cur = lists@[k as int]@;
            meshes.push(clone_mesh(&lists[k][j]));
            assert(meshes_view(meshes@) =~= pv.push(cur[j as int]@));
            assert(meshes_view(cur.take(j + 1)) =~= meshes_view(cur.take(j as int)).push(
                cur[j as int]@,
            ));
            assert(meshes_view(meshes@) =~= before + meshes_view(cur.take(j + 1)));
            j += 1;
        }
        assert(lists@[k as int]@.take(j as int) =~= lists@[k as int]@);
        assert(ls.take(k + 1).drop_last() =~= ls.take(k as int));
        k += 1;
        assert(meshes_view(meshes@) =~= head + concat_meshes(ls.take(k as int)));
    }
    assert(ls.take(k as int) =~= ls);
    model.meshes = meshes;
}

/// `ms` with its levels of detail replaced by `levels`, as
/// `generate_all_lod_meshes` does: its level-0 meshes followed by `levels`,
/// or `ms` itself when it has no level-0 mesh.
pub open spec fn lods_replaced(ms: Seq<MeshView>, levels: Seq<MeshView>) -> Seq<MeshView> {
    if lod0_of(ms).len() == 0 {
        ms
    } else {
        lod0_of(ms) + levels
    }
}

proof fn lemma_lod0_of_append(a: Seq<MeshView>, b: Seq<MeshView>)
    ensures
        lod0_of(a + b) == lod0_of(a) + lod0_of(b),
    decreases b.len(),
{
    if b.len() == 0 {
        assert(a + b =~= a);
        assert(lod0_of(a) + lod0_of(b) =~= lod0_of(a));
    } else {
        lemma_lod0_of_append(a, b.drop_last());
        assert((a + b).drop_last() =~= a + b.drop_last());
        assert((a + b).last() == b.last());
        if b.last().lod == 0 {
            assert(lod0_of(a) + lod0_of(b) =~= (lod0_of(a) + lod0_of(b.drop_last())).push(
                b.last(),
            ));
        }
    }
}

proof fn lemma_lod0_of_lod0(a: Seq<MeshView>)
    ensures
        lod0_of(lod0_of(a)) == lod0_of(a),
    decreases a.len(),
{
    if a.len() > 0 {
        lemma_lod0_of_lod0(a.drop_last());
        if a.last().lod == 0 {
            let p = lod0_of(a.drop_last());
            assert(p.push(a.last()).drop_last() =~= p);
        }
    }
}

proof fn lemma_lod0_of_none(b: Seq<MeshView>)
    requires
        forall|i: int| 0 <= i < b.len() ==> (#[trigger] b[i]).lod != 0,
    ensures
        lod0_of(b) == Seq::<MeshView>::empty(),
    decreases b.len(),
{
    if b.len() > 0 {
        lemma_lod0_of_none(b.drop_last());
    }
}

/// Replacing the levels of detail twice is replacing them once, when the
/// generated levels are not at level 0: the level-0 meshes, from which the
/// levels are generated, are the same after the first replacement, so the
/// same generator gives the same levels, and the second replacement changes
/// nothing.
pub proof fn lemma_lod_replacement_idempotent(ms: Seq<MeshView>, levels: Seq<MeshView>)
    requires
        forall|i: int| 0 <= i < levels.len() ==> (#[trigger] levels[i]).lod != 0,
    ensures
        lod0_of(lods_replaced(ms, levels)) == lod0_of(ms),
        lods_replaced(lods_replaced(ms, levels), levels) == lods_replaced(ms, levels),
{
    if lod0_of(ms).len() > 0 {
        lemma_lod0_of_append(lod0_of(ms), levels);
        lemma_lod0_of_lod0(ms);
        lemma_lod0_of_none(levels);
        assert(lod0_of(ms) + Seq::<MeshView>::empty() =~= lod0_of(ms));
    }
}

/// The views of decimated parts: vertices and indices.
pub open spec fn decimated_view(ds: Seq<(Vec<HODVertex>, Vec<u16>)>) -> Seq<(Seq<VertexView>, Seq<u16>)> {
    ds.map_values(|d: (Vec<HODVertex>, Vec<u16>)| (vertices_view(d.0@), d.1@))
}

/// The parts of a generated level: for each part of the level-0 mesh that
/// has vertices and indices, and whose decimation (`ds`, one per part) kept
/// vertices and indices, a part with the original material and mask and the
/// decimated vertices and indices; in order.
pub open spec fn level_parts(ps: Seq<PartView>, ds: Seq<(Seq<VertexView>, Seq<u16>)>) -> Seq<PartView>
    decreases ps.len(),
{
    if ps.len() == 0 || ds.len() == 0 {
        Seq::empty()
    } else {
        let prev = level_parts(ps.drop_last(), ds.drop_last());
        let p = ps.last();
        let d = ds.last();
        if p.vertices.len() > 0 && p.indices.len() > 0 && d.0.len() > 0 && d.1.len() > 0 {
            prev.push(PartView { material_index: p.material_index, vertex_mask: p.vertex_mask, vertices: d.0, indices: d.1 })
        } else {
            prev
        }
    }
}

/// The mesh of level `level` generated from `m` with the decimated parts
/// `ds`: named and parented as `m`, with the parts of `level_parts`; none
/// when no part is kept.
pub open spec fn level_mesh(m: MeshView, level: i32, ds: Seq<(Seq<VertexView>, Seq<u16>)>) -> Option<MeshView> {
    let parts = level_parts(m.parts, ds);
    if parts.len() == 0 {
        None
    } else {
        Some(MeshView { name: m.name, parent_name: m.parent_name, lod: level, has_mult_tags: m.has_mult_tags, parts })
    }
}

/// Whether part `i` of the level-0 parts `ps` yields a part of a generated
/// level: it has vertices and indices, and so has its decimation `ds[i]`.
pub open spec fn yields_part(ps: Seq<PartView>, ds: Seq<(Seq<VertexView>, Seq<u16>)>, i: int) -> bool {
    ps[i].vertices.len() > 0 && ps[i].indices.len() > 0 && ds[i].0.len() > 0 && ds[i].1.len() > 0
}

/// Whether `q` is the part made from part `i`: the material and mask of
/// `ps[i]` with the decimated vertices and indices `ds[i]`.
pub open spec fn made_from(q: PartView, ps: Seq<PartView>, ds: Seq<(Seq<VertexView>, Seq<u16>)>, i: int) -> bool {
    q.material_index == ps[i].material_index && q.vertex_mask == ps[i].vertex_mask
        && q.vertices == ds[i].0 && q.indices == ds[i].1
}

/// The shape of the last step of `level_parts`.
proof fn lemma_level_parts_step(ps: Seq<PartView>, ds: Seq<(Seq<VertexView>, Seq<u16>)>)
    requires
        ps.len() == ds.len(),
        ps.len() > 0,
    ensures
        yields_part(ps, ds, ps.len() - 1) ==> level_parts(ps, ds).len() == level_parts(ps.drop_last(), ds.drop_last()).len() + 1
            && made_from(level_parts(ps, ds).last(), ps, ds, ps.len() - 1),
        !yields_part(ps, ds, ps.len() - 1) ==> level_parts(ps, ds) == level_parts(ps.drop_last(), ds.drop_last()),
        forall|k: int| 0 <= k < level_parts(ps.drop_last(), ds.drop_last()).len() ==> #[trigger] level_parts(ps, ds)[k]
            == level_parts(ps.drop_last(), ds.drop_last())[k],
{
}

/// Whether `q` is made from some level-0 part of `ps` that yields a part.
pub open spec fn from_some_part(q: PartView, ps: Seq<PartView>, ds: Seq<(Seq<VertexView>, Seq<u16>)>) -> bool {
    exists|i: int| 0 <= i < ps.len() && yields_part(ps, ds, i) && #[trigger] made_from(q, ps, ds, i)
}

/// Each part of a generated level keeps the material and mask of a level-0
/// part that yields a part, and holds that part's decimated vertices and
/// indices.
pub proof fn lemma_level_parts_keep_materials(ps: Seq<PartView>, ds: Seq<(Seq<VertexView>, Seq<u16>)>)
    requires
        ps.len() == ds.len(),
    ensures
        forall|k: int|
            0 <= k < level_parts(ps, ds).len() ==> from_some_part(#[trigger] level_parts(ps, ds)[k], ps, ds),
        level_parts(ps, ds).len() <= ps.len(),
    decreases ps.len(),
{
    if ps.len() > 0 {
        let pp = ps.drop_last();
        let dd = ds.drop_last();
        lemma_level_parts_keep_materials(pp, dd);
        lemma_level_parts_step(ps, ds);
        let prev = level_parts(pp, dd);
        let n = ps.len() - 1;
        assert forall|k: int| 0 <= k < level_parts(ps, ds).len() implies from_some_part(
            #[trigger] level_parts(ps, ds)[k],
            ps,
            ds,
        ) by {
            if k < prev.len() {
                assert(from_some_part(prev[k], pp, dd));
                let i = choose|i: int|
                    0 <= i < pp.len() && yields_part(pp, dd, i) && #[trigger] made_from(prev[k], pp, dd, i);
                assert(pp[i] == ps[i] && dd[i] == ds[i]);
                assert(made_from(level_parts(ps, ds)[k], ps, ds, i));
            } else {
                assert(yields_part(ps, ds, n));
                assert(made_from(level_parts(ps, ds)[k], ps, ds, n));
            }
        }
    }
}

/// Every level-0 part that yields a part (it and its decimation have
/// vertices and indices) gives a part of the generated level, made from it.
pub proof fn lemma_level_parts_complete(ps: Seq<PartView>, ds: Seq<(Seq<VertexView>, Seq<u16>)>)
    requires
        ps.len() == ds.len(),
    ensures
        forall|i: int|
            0 <= i < ps.len() && #[trigger] yields_part(ps, ds, i) ==> exists|k: int|
                0 <= k < level_parts(ps, ds).len() && made_from(level_parts(ps, ds)[k], ps, ds, i),
    decreases ps.len(),
{
    if ps.len() > 0 {
        let pp = ps.drop_last();
        let dd = ds.drop_last();
        lemma_level_parts_complete(pp, dd);
        lemma_level_parts_step(ps, ds);
        let prev = level_parts(pp, dd);
        let n = ps.len() - 1;
        assert forall|i: int| 0 <= i < ps.len() && #[trigger] yields_part(ps, ds, i) implies exists|k: int|
            0 <= k < level_parts(ps, ds).len() && made_from(level_parts(ps, ds)[k], ps, ds, i) by {
            if i < n {
                assert(pp[i] == ps[i] && dd[i] == ds[i]);
                assert(yields_part(pp, dd, i));
                let k = choose|k: int| 0 <= k < prev.len() && made_from(prev[k], pp, dd, i);
                assert(made_from(level_parts(ps, ds)[k], ps, ds, i));
            } else {
                assert(made_from(level_parts(ps, ds)[prev.len() as int], ps, ds, i));
            }
        }
    }
}

/// Assembles one generated level of `lod0_mesh` from the decimation of each
/// of its parts (`decimated[i]` for part `i`; what is given for a part
/// without vertices or indices is not read), as `level_mesh` says.
pub fn assemble_lod_level(lod0_mesh: &HODMesh, lod_level: i32, decimated: &Vec<(Vec<HODVertex>, Vec<u16>)>) -> (r: Option<HODMesh>)
    requires
        decimated@.len() == lod0_mesh.parts@.len(),
    ensures
        match r {
            Some(m) => level_mesh(lod0_mesh@, lod_level, decimated_view(decimated@)) == Some(m@),
            None => level_mesh(lod0_mesh@, lod_level, decimated_view(decimated@)) is None,
        },
        r matches Some(m) ==> m@.lod == lod_level && m@.name == lod0_mesh@.name && forall|k: int|
            0 <= k < m@.parts.len() ==> from_some_part(
                #[trigger] m@.parts[k],
                lod0_mesh@.parts,
                decimated_view(decimated@),
            ),
{
    proof {
        lemma_level_parts_keep_materials(lod0_mesh@.parts, decimated_view(decimated@));
    }
    let ghost ps = lod0_mesh@.parts;
    let ghost ds = decimated_view(decimated@);
    let mut parts: Vec<HODMeshPart> = Vec::new();
    let mut i: usize = 0;
    while i < lod0_mesh.parts.len()
        invariant
            ps == lod0_mesh@.parts,
            ds == decimated_view(decimated@),
            decimated@.len() == ps.len(),
            i <= ps.len(),
            parts_view(parts@) == level_parts(ps.take(i as int), ds.take(i as int)),
        decreases ps.len() - i,
    {
        let part = &lod0_mesh.parts[i];
        let d = &decimated[i];
        let ghost before = parts_view(parts@);
        proof {
            assert(ps.take(i + 1).drop_last() =~= ps.take(i as int));
            assert(ds.take(i + 1).drop_last() =~= ds.take(i as int));
            assert(ps.take(i + 1).last() == part@);
            assert(ds.take(i + 1).last() == (vertices_view(d.0@), d.1@));
            assert(part@.vertices.len() == part.vertices@.len());
            assert(vertices_view(d.0@).len() == d.0@.len());
        }
        if part.vertices.len() > 0 && part.indices.len() > 0 && d.0.len() > 0 && d.1.len() > 0 {
            let np = HODMeshPart {
                material_index: part.material_index,
                vertex_mask: part.vertex_mask,
                vertices: clone_vertices(d.0.as_slice()),
                indices: clone_indices(&d.1),
            };
            parts.push(np);
            assert(parts_view(parts@) =~= before.push(np@));
        }
        i += 1;
    }
    assert(ps.take(i as int) =~= ps);
    assert(ds.take(i as int) =~= ds);
    if parts.len() == 0 {
        return None;
    }
    Some(
        HODMesh {
            name: lod0_mesh.name.clone(),
            parent_name: lod0_mesh.parent_name.clone(),
            lod: lod_level,
            has_mult_tags: lod0_mesh.has_mult_tags,
            parts,
        },
    )
}

} // verus!
