use hwr_hod_parser::bytes::{read_u32_be, read_u32_le};
use hwr_hod_parser::compiler::CompiledMesh;
use hwr_hod_parser::diff::{compare_pools, extract_bmsh_data};
use hwr_hod_parser::kdop::{dop_direction, generate_empty_kdop, write_kdop_binary};
use hwr_hod_parser::mesh::{HODMeshPart, HODVertex, Vector3};
use hwr_hod_parser::pool::{
    build_face_pool, decompress_pool_stream, extract_pool, extract_pools, parse_pool,
    part_vertex_stride, replace_pool, write_pool, PoolError,
};

fn chunk(id: &[u8; 4], payload: &[u8]) -> Vec<u8> {
    let mut v = id.to_vec();
    v.extend_from_slice(&(payload.len() as u32).to_be_bytes());
    v.extend_from_slice(payload);
    v
}

fn sample_pool() -> Vec<u8> {
    // Raw texture, compressed mesh stream, empty face stream.
    let mesh = [8u8, 0, 0, 0, b'a', b'b', b'c', 12, 0];
    write_pool(3518, &[1, 2], 2, &mesh, 6, &[], 0)
}

#[test]
fn pool_layout() {
    let p = sample_pool();
    let mut expected = vec![0xbe, 0x0d, 0, 0, 2, 0, 0, 0, 2, 0, 0, 0, 1, 2, 9, 0, 0, 0, 6, 0, 0, 0];
    expected.extend_from_slice(&[8, 0, 0, 0, b'a', b'b', b'c', 12, 0]);
    expected.extend_from_slice(&[0, 0, 0, 0, 0, 0, 0, 0]);
    assert_eq!(p, expected);
}

#[test]
fn pool_reads_back() {
    let mut file = chunk(b"VERS", &[0, 0, 5, 0x78]);
    file.extend(chunk(b"POOL", &sample_pool()));
    let raw = parse_pool(&file).unwrap();
    assert_eq!(raw.pool_type, 3518);
    assert_eq!((raw.tex_comp.clone(), raw.tex_decomp_len), (vec![1, 2], 2));
    assert_eq!(raw.mesh_decomp_len, 6);
    assert_eq!(raw.face_comp.len(), 0);
    let (tex, mesh, face, ty) = extract_pools(&file).unwrap();
    assert_eq!(tex, vec![1, 2]);
    assert_eq!(mesh, b"abcabc".to_vec());
    assert!(face.is_empty());
    assert_eq!(ty, 3518);
    let streams = extract_pool(&file).unwrap();
    assert_eq!(streams.mesh_comp.len(), 9);
    assert_eq!(streams.mesh_decomp, b"abcabc".to_vec());
    assert_eq!(streams.tex_decomp, vec![1, 2]);
}

#[test]
fn pool_errors() {
    assert!(matches!(parse_pool(&[]), Err(PoolError::NoPool)));
    assert!(matches!(extract_pools(&chunk(b"VERS", &[1, 2])), Err(PoolError::NoPool)));
    assert!(matches!(extract_pools(b"POOL\x00\x00"), Err(PoolError::Truncated)));
    let mut short = chunk(b"POOL", &sample_pool());
    short.truncate(20);
    assert!(matches!(extract_pool(&short), Err(PoolError::Truncated)));
    let bad = write_pool(1, &[1, 0, 0, 0, 0b111, 0], 9, &[], 0, &[], 0);
    assert!(matches!(extract_pools(&chunk(b"POOL", &bad)), Err(PoolError::BadStream)));
}

#[test]
fn stored_streams() {
    assert_eq!(decompress_pool_stream(&vec![5, 6, 7], 3), Some(vec![5, 6, 7]));
    assert_eq!(decompress_pool_stream(&vec![], 10), Some(vec![]));
    assert_eq!(decompress_pool_stream(&vec![8, 0, 0, 0, b'a', b'b', b'c', 12, 0], 6), Some(b"abcabc".to_vec()));
}

#[test]
fn pool_is_replaced() {
    let mut file = chunk(b"HVMD", &[7, 7]);
    file.extend(chunk(b"POOL", &[1, 2, 3, 4]));
    let out = replace_pool(&file, &[5, 6]).unwrap();
    let mut expected = chunk(b"HVMD", &[7, 7]);
    expected.extend_from_slice(b"POOL");
    expected.extend_from_slice(&[2, 0, 0, 0, 5, 6]);
    assert_eq!(out, expected);
    assert!(matches!(replace_pool(b"HVMD\x00\x00\x00\x09ab", &[]), Err(PoolError::Truncated)));
}

#[test]
fn replaced_pool_layout() {
    let mut file = chunk(b"HVMD", &[7, 7, 7]);
    file.extend(chunk(b"POOL", &[1, 2, 3, 4]));
    file.extend(chunk(b"INFO", &[9]));
    let pool = sample_pool();
    let out = replace_pool(&file, &pool).unwrap();
    // The chunks before the POOL chunk are kept, its payload is the new pool.
    assert_eq!(&out[0..11], &file[0..11]);
    assert_eq!(&out[11..15], b"POOL");
    assert_eq!(&out[15..19], &(pool.len() as u32).to_le_bytes());
    assert_eq!(&out[19..19 + pool.len()], &pool[..]);
    // Its size is written little-endian; read as a chunk size it runs past
    // the end of this small file.
    assert!(matches!(parse_pool(&out), Err(PoolError::Truncated)));
}

#[test]
fn pool_is_read_inside_its_chunk() {
    // A chunk size that stops before the last stream ends.
    let pool = sample_pool();
    let mut file = b"POOL".to_vec();
    file.extend_from_slice(&((pool.len() - 1) as u32).to_be_bytes());
    file.extend_from_slice(&pool);
    file.push(0);
    assert!(matches!(parse_pool(&file), Err(PoolError::Truncated)));
    assert!(extract_pools(&file).is_ok());
}

#[test]
fn reading_integers() {
    let b = [1u8, 2, 3, 4, 5];
    assert_eq!(read_u32_le(&b, 1), 0x0504_0302);
    assert_eq!(read_u32_be(&b, 0), 0x0102_0304);
}

fn vertex_with_skin(skin: Option<Vec<u8>>) -> HODVertex {
    HODVertex {
        position: Vector3 { x: 0, y: 0, z: 0 },
        normal: None,
        color: None,
        uv: None,
        tangent: None,
        binormal: None,
        skinning_data: skin,
    }
}

#[test]
fn vertex_strides() {
    let p = HODMeshPart { material_index: 0, vertex_mask: 0x600b, vertices: vec![], indices: vec![] };
    assert_eq!(part_vertex_stride(&p), 64);
    let p = HODMeshPart { material_index: 0, vertex_mask: 0, vertices: vec![], indices: vec![] };
    assert_eq!(part_vertex_stride(&p), 1);
    let p = HODMeshPart {
        material_index: 0,
        vertex_mask: 0x3f,
        vertices: vec![vertex_with_skin(Some(vec![0; 8])), vertex_with_skin(None)],
        indices: vec![],
    };
    assert_eq!(part_vertex_stride(&p), 16 + 16 + 4 + 8 + 8 + 8 + 8);
}

#[test]
fn face_pool_is_aligned() {
    let part = |indices: Vec<u16>| HODMeshPart { material_index: 0, vertex_mask: 1, vertices: vec![], indices };
    let meshes = vec![CompiledMesh {
        name: "m".to_string(),
        parent_name: String::new(),
        lod: 0,
        new_parts: vec![part(vec![0x0102]), part(vec![3, 4])],
    }];
    assert_eq!(build_face_pool(&meshes), vec![2, 1, 3, 0, 4, 0]);
}

#[test]
fn pool_comparison() {
    let c = compare_pools("Face", &[1, 2, 3, 4, 5], &[1, 9, 9, 4, 0, 7], 2);
    assert_eq!(c.compare_len, 5);
    assert_eq!(c.diff_count, 3);
    assert_eq!(c.first_diff, Some(1));
    assert_eq!(c.regions, vec![(1, 3), (4, 5)]);
    assert!(c.heatmap.is_none());
    let same = compare_pools("Texture", &[1, 2], &[1, 2], 0);
    assert_eq!((same.diff_count, same.first_diff, same.regions.len()), (0, None, 0));
}

#[test]
fn pool_comparison_heatmap() {
    let a = vec![0u8; 40];
    let mut b = vec![0u8; 40];
    b[1] = 1;
    b[17] = 1;
    b[35] = 9;
    let c = compare_pools("Mesh", &a, &b, 16);
    let h = c.heatmap.unwrap();
    assert_eq!(h.len(), 16);
    assert_eq!(h[1], 2);
    assert_eq!(h.iter().sum::<u32>(), 2);
    assert_eq!(c.diff_count, 3);
}

#[test]
fn bmsh_records() {
    let mut data = b"NRML".to_vec();
    data.extend_from_slice(&12u32.to_be_bytes());
    data.extend_from_slice(b"BMSH");
    data.extend_from_slice(&1400u32.to_be_bytes());
    data.extend_from_slice(&[1, 2, 3, 4]);
    assert_eq!(extract_bmsh_data(&data), vec![vec![1, 2, 3, 4]]);
    assert!(extract_bmsh_data(b"BMSHxxxxxxxxxxxx").is_empty());
}

#[test]
fn empty_kdop_layout() {
    let k = generate_empty_kdop();
    assert_eq!(k.len(), 460);
    assert!(k[..28].iter().all(|&b| b == 0));
    assert_eq!(&k[28..60], &[0, 0, 0, 0, 0, 0, 0, 0, 0, 0, 0x80, 0x3f, 0, 0, 0, 0, 0, 0, 0, 0, 0, 0, 0, 0, 0, 0, 0, 0, 0, 0, 0, 0]);
    assert!(k[444..].iter().all(|&b| b == 0));
}

#[test]
fn kdop_directions_are_unit_floats() {
    for d in 0..13 {
        let dir = dop_direction(d);
        let len2: f32 = dir.iter().map(|&b| f32::from_bits(b) * f32::from_bits(b)).sum();
        assert!((len2 - 1.0).abs() < 1e-5);
    }
    assert_eq!(f32::from_bits(dop_direction(4)[1]), -0.70710677);
}

#[test]
fn kdop_layout_with_geometry() {
    let one = 1.0f32.to_bits();
    let k = write_kdop_binary(one, &[0; 3], &[one; 3], &[0; 13], &[one; 13], &[[one, 0, 0]], &[[0, 1, 2], [2, 1, 0]]);
    assert_eq!(k.len(), 460 + 12 + 12);
    assert_eq!(&k[0..4], &one.to_le_bytes());
    assert_eq!(&k[444..448], &[1, 0, 0, 0]);
    assert_eq!(&k[448..452], &one.to_le_bytes());
    assert_eq!(&k[460..464], &[2, 0, 0, 0]);
    assert_eq!(&k[464..476], &[0, 0, 1, 0, 2, 0, 2, 0, 1, 0, 0, 0]);
}
