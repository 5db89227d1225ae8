use hwr_hod_parser::collision::{
    box_corners, box_indices, collision_mesh, collision_source, find_target_mesh, flatten_faces,
    mesh_vertex_positions,
};
use hwr_hod_parser::hull::finish_hull;
use hwr_hod_parser::kdop::fan_triangles;
use hwr_hod_parser::mesh::{HODMesh, HODMeshPart, HODVertex, Vector3};

fn v3(x: f32, y: f32, z: f32) -> Vector3 {
    Vector3 { x: x.to_bits(), y: y.to_bits(), z: z.to_bits() }
}

fn vertex(x: f32, y: f32, z: f32) -> HODVertex {
    HODVertex {
        position: v3(x, y, z),
        normal: Some(v3(0.0, 0.0, 1.0)),
        color: Some(7),
        uv: None,
        tangent: None,
        binormal: None,
        skinning_data: None,
    }
}

fn part(n: usize, offset: f32) -> HODMeshPart {
    let vertices = (0..n).map(|i| vertex(i as f32 + offset, 0.0, 0.0)).collect();
    HODMeshPart { material_index: 3, vertex_mask: 0x1f, vertices, indices: vec![0, 1, 2] }
}

fn mesh(name: &str, lod: i32, parts: Vec<HODMeshPart>) -> HODMesh {
    HODMesh { name: name.to_string(), parent_name: "Root".to_string(), lod, has_mult_tags: false, parts }
}

#[test]
fn target_is_first_base_level_mesh_without_a_name() {
    let ms = vec![mesh("A", 1, vec![]), mesh("B", 0, vec![]), mesh("C", 0, vec![])];
    assert_eq!(find_target_mesh(&ms, None), Some(1));
}

#[test]
fn target_is_found_by_name() {
    let ms = vec![mesh("A", 0, vec![]), mesh("Hull", 2, vec![]), mesh("Hull", 0, vec![])];
    assert_eq!(find_target_mesh(&ms, Some("Hull")), Some(1));
    assert_eq!(find_target_mesh(&ms, Some("Missing")), None);
    assert_eq!(find_target_mesh(&[], None), None);
}

#[test]
fn positions_run_part_after_part() {
    let m = mesh("A", 0, vec![part(2, 0.0), part(3, 10.0)]);
    let ps = mesh_vertex_positions(&m);
    let xs: Vec<f32> = ps.iter().map(|p| f32::from_bits(p.x)).collect();
    assert_eq!(xs, vec![0.0, 1.0, 10.0, 11.0, 12.0]);
}

#[test]
fn collision_source_needs_a_target_with_four_points() {
    let ms = vec![
        mesh("Empty", 0, vec![]),
        mesh("Small", 0, vec![part(3, 0.0)]),
        mesh("Split", 0, vec![part(2, 0.0), part(2, 5.0)]),
    ];
    assert!(collision_source(&ms, None).is_none());
    assert!(collision_source(&ms, Some("Small")).is_none());
    assert!(collision_source(&ms, Some("Nope")).is_none());
    let pts = collision_source(&ms, Some("Split")).unwrap();
    assert_eq!(pts.len(), 4);
    assert_eq!(f32::from_bits(pts[3].x), 6.0);
}

#[test]
fn box_has_eight_corners_and_twelve_triangles() {
    let lo = v3(-1.0, -2.0, -3.0);
    let hi = v3(1.0, 2.0, 3.0);
    let c = box_corners(lo, hi);
    assert_eq!(c.len(), 8);
    assert_eq!(c[0], lo);
    assert_eq!(c[6], hi);
    assert_eq!(c[2], v3(1.0, 2.0, -3.0));
    assert_eq!(c[7], v3(-1.0, 2.0, 3.0));
    let idx = box_indices();
    assert_eq!(idx.len(), 36);
    assert_eq!(&idx[0..6], &[0, 1, 2, 0, 2, 3]);
    assert_eq!(&idx[30..36], &[1, 5, 6, 1, 6, 2]);
    assert!(idx.iter().all(|&i| i < 8));
}

#[test]
fn faces_flatten_in_order() {
    assert_eq!(flatten_faces(&[[0, 1, 2], [2, 1, 3]]), vec![0, 1, 2, 2, 1, 3]);
    assert!(flatten_faces(&[]).is_empty());
}

#[test]
fn collision_mesh_is_one_position_only_part() {
    let ps = vec![v3(0.0, 0.0, 0.0), v3(1.0, 0.0, 0.0), v3(0.0, 1.0, 0.0)];
    let m = collision_mesh(&ps, vec![0, 1, 2]);
    assert_eq!(m.name, "CollisionMesh");
    assert_eq!(m.parent_name, "");
    assert_eq!(m.lod, 0);
    assert!(!m.has_mult_tags);
    assert_eq!(m.parts.len(), 1);
    let p = &m.parts[0];
    assert_eq!(p.material_index, 0);
    assert_eq!(p.vertex_mask, 1);
    assert_eq!(p.indices, vec![0, 1, 2]);
    assert_eq!(p.vertices.len(), 3);
    assert_eq!(p.vertices[1].position, ps[1]);
    assert!(p.vertices[1].normal.is_none() && p.vertices[1].color.is_none());
}

#[test]
fn fan_over_a_pentagon() {
    let on_plane = vec![10usize, 20, 30, 40, 50];
    let hull = vec![4usize, 0, 1, 2, 3];
    assert_eq!(
        fan_triangles(&on_plane, &hull),
        vec![[50, 10, 20], [50, 20, 30], [50, 30, 40]]
    );
    assert!(fan_triangles(&on_plane, &[0, 1]).is_empty());
}

#[test]
fn hull_of_a_tetrahedron_with_repeats() {
    // The same face twice in a row (once reversed) and one degenerate face.
    let faces = vec![[2, 5, 7], [7, 5, 2], [5, 5, 9], [2, 9, 5], [9, 7, 5], [2, 7, 9]];
    let (used, tris) = finish_hull(faces);
    assert_eq!(used, vec![2, 5, 7, 9]);
    assert_eq!(tris, vec![[0, 1, 2], [0, 3, 1], [3, 2, 1], [0, 2, 3]]);
}

#[test]
fn hull_without_proper_faces_is_empty() {
    let (used, tris) = finish_hull(vec![[1, 1, 2], [3, 4, 4]]);
    assert!(used.is_empty());
    assert!(tris.is_empty());
}
