use hwr_hod_parser::compiler::{compile_model_meshes, generate_mult_chunks, normalize_hwrm_vertex_mask, write_len_string, CompiledMesh};
use hwr_hod_parser::dedup::{f32_to_u32, HashableVertex, MeshDeduplicator};
use hwr_hod_parser::iff::ChunkType;
use hwr_hod_parser::lod::{assemble_lod_level, generate_all_lod_meshes, lod0_meshes};
use hwr_hod_parser::mesh::{HODMesh, HODMeshPart, HODModel, HODVertex, Vector2, Vector3};
use hwr_hod_parser::names::get_base_name;

fn vertex(x: f32, y: f32, z: f32) -> HODVertex {
    HODVertex {
        position: Vector3 { x: x.to_bits(), y: y.to_bits(), z: z.to_bits() },
        normal: None,
        color: None,
        uv: None,
        tangent: None,
        binormal: None,
        skinning_data: None,
    }
}

fn position_x(v: &HODVertex) -> f32 {
    f32::from_bits(v.position.x)
}

fn part(mask: u32, vertices: Vec<HODVertex>, indices: Vec<u16>) -> HODMeshPart {
    HODMeshPart { material_index: 2, vertex_mask: mask, vertices, indices }
}

fn mesh(name: &str, lod: i32, parts: Vec<HODMeshPart>) -> HODMesh {
    HODMesh {
        name: name.to_string(),
        parent_name: "Root".to_string(),
        lod,
        has_mult_tags: false,
        parts,
    }
}

#[test]
fn nan_keys_compare_equal() {
    assert_eq!(f32_to_u32(f32::NAN.to_bits()), 0);
    assert_eq!(f32_to_u32(0x7f80_0001), 0);
    assert_eq!(f32_to_u32(0xffc0_0000), 0);
    assert_eq!(f32_to_u32(f32::INFINITY.to_bits()), 0x7f80_0000);
    assert_eq!(f32_to_u32(1.5f32.to_bits()), 1.5f32.to_bits());
}

#[test]
fn hashable_vertex_fills_absent_attributes_with_zero() {
    let mut v = vertex(1.0, 2.0, 3.0);
    v.uv = Some(Vector2 { u: 0.5f32.to_bits(), v: f32::NAN.to_bits() });
    v.color = Some(0xffee_ddcc);
    v.skinning_data = Some(vec![1, 2]);
    let h = HashableVertex::from_hod(&v);
    assert_eq!((h.px, h.py, h.pz), (1.0f32.to_bits(), 2.0f32.to_bits(), 3.0f32.to_bits()));
    assert_eq!((h.nx, h.ny, h.nz, h.tx, h.bz), (0, 0, 0, 0, 0));
    assert_eq!((h.c, h.u, h.v), (0xffee_ddcc, 0.5f32.to_bits(), 0));
    assert_eq!(h.skinning, Some(vec![1, 2]));
}

#[test]
fn deduplicator_merges_equal_vertices() {
    let mut d = MeshDeduplicator::new();
    assert_eq!(d.add_vertex(&vertex(1.0, 0.0, 0.0)), 0);
    assert_eq!(d.add_vertex(&vertex(2.0, 0.0, 0.0)), 1);
    assert_eq!(d.add_vertex(&vertex(1.0, 0.0, 0.0)), 0);
    let mut skinned = vertex(1.0, 0.0, 0.0);
    skinned.skinning_data = Some(vec![3]);
    assert_eq!(d.add_vertex(&skinned), 2);
    assert_eq!(d.get_vertices().len(), 3);
    assert_eq!(position_x(&d.get_vertices()[1]), 2.0);
}

#[test]
fn deduplicator_treats_nan_as_zero() {
    let mut d = MeshDeduplicator::new();
    assert_eq!(d.add_vertex(&vertex(0.0, 0.0, 0.0)), 0);
    assert_eq!(d.add_vertex(&vertex(f32::NAN, 0.0, 0.0)), 0);
    assert_eq!(d.get_vertices().len(), 1);
}

#[test]
fn vertex_mask_normalization() {
    assert_eq!(normalize_hwrm_vertex_mask(0x13), 0x0b);
    assert_eq!(normalize_hwrm_vertex_mask(0x23), 0x03);
    assert_eq!(normalize_hwrm_vertex_mask(0x600b), 0x600b);
    assert_eq!(normalize_hwrm_vertex_mask(0x31), 0x09);
    let m = normalize_hwrm_vertex_mask(0xffff_ffff);
    assert_eq!(normalize_hwrm_vertex_mask(m), m);
}

#[test]
fn compile_indexes_flat_triangle_lists() {
    let a = vertex(1.0, 0.0, 0.0);
    let b = vertex(2.0, 0.0, 0.0);
    let c = vertex(3.0, 0.0, 0.0);
    let flat = part(0x13, vec![a, b, vertex(1.0, 0.0, 0.0), c, vertex(2.0, 0.0, 0.0)], vec![]);
    let indexed = part(0x21, vec![vertex(5.0, 0.0, 0.0)], vec![0, 0, 0]);
    let model = HODModel { meshes: vec![mesh("Root_mesh", 0, vec![flat, indexed])] };
    let compiled = compile_model_meshes(&model);
    assert_eq!(compiled.len(), 1);
    assert_eq!(compiled[0].name, "Root_mesh");
    assert_eq!(compiled[0].parent_name, "Root");
    let p0 = &compiled[0].new_parts[0];
    assert_eq!(p0.vertex_mask, 0x0b);
    assert_eq!(p0.indices, vec![0, 1, 0, 2, 1]);
    let xs: Vec<f32> = p0.vertices.iter().map(position_x).collect();
    assert_eq!(xs, vec![1.0, 2.0, 3.0]);
    let p1 = &compiled[0].new_parts[1];
    assert_eq!(p1.vertex_mask, 0x01);
    assert_eq!(p1.indices, vec![0, 0, 0]);
    assert_eq!(p1.vertices.len(), 1);
}

#[test]
fn base_names_strip_lod_suffixes() {
    assert_eq!(get_base_name("hull_lod_1"), "hull");
    assert_eq!(get_base_name("Hull_LOD2"), "Hull");
    assert_eq!(get_base_name("Hull_LOD"), "Hull_LOD");
    assert_eq!(get_base_name("Hull_LODx"), "Hull_LODx");
    assert_eq!(get_base_name("ship_lod3"), "ship");
    assert_eq!(get_base_name("ship"), "ship");
    assert_eq!(get_base_name("a_lod_b_lod_c"), "a");
    assert_eq!(get_base_name("x_LOD1_LOD2"), "x_LOD1");
    assert_eq!(get_base_name("ß_lod12"), "ß");
    assert_eq!(get_base_name(""), "");
}

#[test]
fn len_string_is_length_then_utf8() {
    let mut buf = vec![9u8];
    write_len_string(&mut buf, "Aé");
    assert_eq!(buf, vec![9, 3, 0, 0, 0, b'A', 0xc3, 0xa9]);
}

fn compiled(name: &str, lod: i32, parts: Vec<HODMeshPart>) -> CompiledMesh {
    CompiledMesh { name: name.to_string(), parent_name: "Root".to_string(), lod, new_parts: parts }
}

#[test]
fn mult_chunks_group_levels_of_detail() {
    let p = HODMeshPart {
        material_index: 2,
        vertex_mask: 0x600b,
        vertices: vec![vertex(0.0, 0.0, 0.0), vertex(1.0, 0.0, 0.0), vertex(2.0, 0.0, 0.0)],
        indices: vec![0, 1, 2, 2, 1, 0],
    };
    let meshes = vec![
        compiled("Root_mesh", 0, vec![p]),
        compiled("Root_mesh_LOD1", 1, vec![]),
        compiled("Other", 0, vec![]),
    ];
    let chunks = generate_mult_chunks(&meshes).unwrap();
    assert_eq!(chunks.len(), 2);
    assert_eq!(chunks[0].id, "MULT");
    assert!(chunks[0].chunk_type == ChunkType::Normal);
    assert_eq!(chunks[0].version, 1400);
    assert!(chunks[0].children.is_empty());
    let expected: Vec<u8> = vec![
        9, 0, 0, 0, 82, 111, 111, 116, 95, 109, 101, 115, 104, 4, 0, 0, 0, 82, 111, 111, 116, 2,
        0, 0, 0, 70, 79, 82, 77, 0, 0, 0, 15, 84, 65, 71, 83, 7, 0, 0, 0, 68, 111, 83, 99, 97,
        114, 115, 78, 82, 77, 76, 0, 0, 0, 34, 66, 77, 83, 72, 0, 0, 5, 120, 0, 0, 0, 0, 1, 0, 0,
        0, 2, 0, 0, 0, 11, 96, 0, 0, 3, 0, 0, 0, 255, 255, 6, 0, 0, 0, 78, 82, 77, 76, 0, 0, 0,
        16, 66, 77, 83, 72, 0, 0, 5, 120, 1, 0, 0, 0, 0, 0, 0, 0,
    ];
    assert_eq!(chunks[0].data, expected);
    let mut second = vec![5, 0, 0, 0];
    second.extend_from_slice(b"Other");
    second.extend_from_slice(&[4, 0, 0, 0]);
    second.extend_from_slice(b"Root");
    second.extend_from_slice(&[1, 0, 0, 0]);
    second.extend_from_slice(b"FORM\x00\x00\x00\x0fTAGS\x07\x00\x00\x00DoScars");
    second.extend_from_slice(b"NRML\x00\x00\x00\x10BMSH\x00\x00\x05\x78");
    second.extend_from_slice(&[0, 0, 0, 0, 0, 0, 0, 0]);
    assert_eq!(chunks[1].data, second);
}

#[test]
fn mult_chunks_of_nothing() {
    assert!(generate_mult_chunks(&[]).unwrap().is_empty());
}

#[test]
fn lod_meshes_are_replaced() {
    let mut model = HODModel {
        meshes: vec![mesh("A", 0, vec![]), mesh("B", 1, vec![]), mesh("C", 0, vec![]), mesh("D", 2, vec![])],
    };
    let bases = lod0_meshes(&model);
    let names: Vec<&str> = bases.iter().map(|m| m.name.as_str()).collect();
    assert_eq!(names, vec!["A", "C"]);
    let new_lods = vec![vec![mesh("A", 1, vec![])], vec![mesh("C", 1, vec![]), mesh("C", 2, vec![])]];
    generate_all_lod_meshes(&mut model, new_lods);
    let got: Vec<(String, i32)> = model.meshes.iter().map(|m| (m.name.clone(), m.lod)).collect();
    assert_eq!(
        got,
        vec![
            ("A".to_string(), 0),
            ("C".to_string(), 0),
            ("A".to_string(), 1),
            ("C".to_string(), 1),
            ("C".to_string(), 2)
        ]
    );
}

#[test]
fn model_without_base_level_is_unchanged() {
    let mut model = HODModel { meshes: vec![mesh("B", 1, vec![])] };
    generate_all_lod_meshes(&mut model, vec![vec![mesh("X", 1, vec![])]]);
    assert_eq!(model.meshes.len(), 1);
    assert_eq!(model.meshes[0].name, "B");
}

#[test]
fn lod_replacement_twice_is_once() {
    let levels = |bases: &[HODMesh]| -> Vec<Vec<HODMesh>> {
        bases.iter().map(|b| vec![mesh(&b.name, 1, vec![]), mesh(&b.name, 2, vec![])]).collect()
    };
    let mut model = HODModel { meshes: vec![mesh("A", 0, vec![]), mesh("A", 3, vec![]), mesh("B", 0, vec![])] };
    let first = levels(&lod0_meshes(&model));
    generate_all_lod_meshes(&mut model, first);
    let once: Vec<(String, i32)> = model.meshes.iter().map(|m| (m.name.clone(), m.lod)).collect();
    let second = levels(&lod0_meshes(&model));
    generate_all_lod_meshes(&mut model, second);
    let twice: Vec<(String, i32)> = model.meshes.iter().map(|m| (m.name.clone(), m.lod)).collect();
    assert_eq!(once, twice);
    assert_eq!(once.len(), 6);
}

#[test]
fn earlier_indices_stay_valid() {
    let mut d = MeshDeduplicator::new();
    let vs = [vertex(1.0, 0.0, 0.0), vertex(2.0, 0.0, 0.0), vertex(1.0, 0.0, 0.0), vertex(3.0, 0.0, 0.0), vertex(2.0, 0.0, 0.0)];
    let idx: Vec<u16> = vs.iter().map(|v| d.add_vertex(v)).collect();
    assert_eq!(idx, vec![0, 1, 0, 2, 1]);
    for (v, &i) in vs.iter().zip(idx.iter()) {
        let kept = &d.get_vertices()[i as usize];
        assert_eq!(position_x(kept), position_x(v));
    }
}

#[test]
fn lod_level_is_assembled_from_decimated_parts() {
    let base = mesh(
        "Hull",
        0,
        vec![
            part(0x1, vec![vertex(0.0, 0.0, 0.0), vertex(1.0, 0.0, 0.0), vertex(0.0, 1.0, 0.0)], vec![0, 1, 2]),
            part(0x3, vec![], vec![]),
            part(0x5, vec![vertex(5.0, 0.0, 0.0)], vec![0, 0, 0]),
        ],
    );
    let decimated = vec![
        (vec![vertex(0.0, 0.0, 0.0), vertex(1.0, 0.0, 0.0)], vec![0, 1, 1]),
        (vec![vertex(9.0, 0.0, 0.0)], vec![0]),
        (vec![], vec![]),
    ];
    let level = assemble_lod_level(&base, 2, &decimated).unwrap();
    assert_eq!((level.name.as_str(), level.parent_name.as_str(), level.lod), ("Hull", "Root", 2));
    assert_eq!(level.parts.len(), 1);
    assert_eq!(level.parts[0].vertex_mask, 0x1);
    assert_eq!(level.parts[0].indices, vec![0, 1, 1]);
    assert_eq!(level.parts[0].vertices.len(), 2);
    let none = vec![(vec![], vec![]), (vec![], vec![]), (vec![], vec![0])];
    assert!(assemble_lod_level(&base, 1, &none).is_none());
}
