use auto_instance::geometry::{
    avg_distances_from_first_vert, floor_sqrt_u128, get_midpoint, Aabb, FixedVec3,
    UNITS_PER_SCENE_UNIT,
};
use auto_instance::mesh::{
    consolidate_mesh_instances, find_match, is_within_tolerance, mesh_fingerprint, mesh_stats,
    AttributeLayout, MeshData, MeshEntity, MeshGeometry, MeshInstances,
};

const U: i64 = UNITS_PER_SCENE_UNIT;

fn v(x: i64, y: i64, z: i64) -> FixedVec3 {
    FixedVec3 { x, y, z }
}

fn layout() -> Vec<AttributeLayout> {
    vec![AttributeLayout { id: 0, byte_len: 24 }, AttributeLayout { id: 1, byte_len: 24 }]
}

fn aabb(c: i64) -> Aabb {
    Aabb { center: v(c, c, c), half_extents: v(U, U, U) }
}

fn mesh_entity(mesh: u64, positions: Vec<FixedVec3>, bounds: Aabb) -> MeshEntity {
    MeshEntity {
        mesh,
        geometry: Some(MeshGeometry { attributes: layout(), positions: Some(positions) }),
        aabb: bounds,
        placement: None,
        marked: true,
    }
}

fn record(avg: u64) -> MeshData {
    MeshData { handle: 1, midpoint: v(0, 0, 0), first_vert: v(0, 0, 0), aabb: aabb(0), avg_vert_dist: avg }
}

#[test]
fn tolerance_boundary_at_one_thousandth() {
    assert!(!is_within_tolerance(1_001_100, 1_000_000));
    assert!(is_within_tolerance(1_000_900, 1_000_000));
    assert!(is_within_tolerance(1_000_000, 1_000_900));
    assert!(!is_within_tolerance(1_000, 0));
    assert!(is_within_tolerance(999, 0));
    let recs = vec![record(5_000_000), record(1_000_000)];
    assert_eq!(find_match(&recs, 1_000_900), Some(1));
    assert_eq!(find_match(&recs, 1_001_100), None);
}

#[test]
fn meshes_apart_by_more_than_tolerance_stay_distinct() {
    let mut table = MeshInstances::new();
    // Mean distances 1.0 and 1.0011 scene units.
    let mut entities = vec![
        mesh_entity(1, vec![v(0, 0, 0), v(2 * U, 0, 0)], aabb(0)),
        mesh_entity(2, vec![v(0, 0, 0), v(2_002_200, 0, 0)], aabb(1)),
    ];
    assert!(consolidate_mesh_instances(&mut table, &mut entities));
    assert_eq!(entities[1].mesh, 2);
    assert_eq!(entities[1].placement, None);
    assert_eq!(table.duplicate_count(), 0);
    let h = mesh_fingerprint(&layout());
    let recs = table.records_for(h);
    assert_eq!(recs.len(), 2);
    assert_eq!(recs[1].avg_vert_dist, 1_001_100);
}

#[test]
fn meshes_within_tolerance_merge() {
    let mut table = MeshInstances::new();
    // Mean distances 1.0 and 1.0009 scene units.
    let mut entities = vec![
        mesh_entity(1, vec![v(0, 0, 0), v(2 * U, 0, 0)], aabb(0)),
        mesh_entity(2, vec![v(0, 0, 0), v(2_001_800, 0, 0)], aabb(1)),
    ];
    assert!(consolidate_mesh_instances(&mut table, &mut entities));
    assert_eq!(entities[1].mesh, 1);
    assert_eq!(entities[1].aabb, aabb(0));
    assert_eq!(table.duplicate_count(), 1);
    assert_eq!(table.records_for(mesh_fingerprint(&layout())).len(), 1);
}

#[test]
fn duplicate_is_moved_by_midpoint_offset() {
    let mut table = MeshInstances::new();
    let mut entities = vec![
        mesh_entity(1, vec![v(-U, 0, 0), v(U, 0, 0)], aabb(0)),
        mesh_entity(2, vec![v(4 * U, 2 * U, -3 * U), v(6 * U, 2 * U, -3 * U)], aabb(7)),
    ];
    assert!(consolidate_mesh_instances(&mut table, &mut entities));
    assert_eq!(entities[0].placement, None);
    assert_eq!(entities[1].placement, Some(v(5 * U, 2 * U, -3 * U)));
    assert_eq!(entities[1].mesh, 1);
    assert_eq!(entities[1].aabb, aabb(0));
    assert!(!entities[1].marked);
    assert_eq!(table.unique_count(), 1);
}

#[test]
fn different_layouts_open_different_buckets() {
    let mut table = MeshInstances::new();
    let mut other = mesh_entity(2, vec![v(0, 0, 0), v(2 * U, 0, 0)], aabb(0));
    if let Some(g) = other.geometry.as_mut() {
        g.attributes = vec![AttributeLayout { id: 0, byte_len: 48 }, AttributeLayout { id: 1, byte_len: 24 }];
    }
    let mut entities = vec![mesh_entity(1, vec![v(0, 0, 0), v(2 * U, 0, 0)], aabb(0)), other];
    consolidate_mesh_instances(&mut table, &mut entities);
    assert_eq!(entities[1].mesh, 2);
    assert_eq!(table.unique_count(), 2);
    assert_eq!(table.duplicate_count(), 0);
}

#[test]
fn structural_fingerprint_reads_layout() {
    let a = mesh_fingerprint(&layout());
    assert_eq!(a, mesh_fingerprint(&layout()));
    let longer = vec![AttributeLayout { id: 0, byte_len: 24 }, AttributeLayout { id: 1, byte_len: 36 }];
    assert_ne!(a, mesh_fingerprint(&longer));
    let renamed = vec![AttributeLayout { id: 0, byte_len: 24 }, AttributeLayout { id: 2, byte_len: 24 }];
    assert_ne!(a, mesh_fingerprint(&renamed));
    assert_ne!(a, mesh_fingerprint(&vec![AttributeLayout { id: 0, byte_len: 24 }]));
}

#[test]
fn unloaded_mesh_keeps_marker() {
    let mut table = MeshInstances::new();
    let mut entities = vec![MeshEntity { mesh: 3, geometry: None, aabb: aabb(0), placement: None, marked: true }];
    assert!(!consolidate_mesh_instances(&mut table, &mut entities));
    assert!(entities[0].marked);
    assert_eq!(table.unique_count(), 0);
}

#[test]
fn mesh_without_positions_has_zero_statistics() {
    let g = MeshGeometry { attributes: layout(), positions: None };
    let s = mesh_stats(&g);
    assert_eq!(s.midpoint, v(0, 0, 0));
    assert_eq!(s.first_vert, v(0, 0, 0));
    assert_eq!(s.avg_vert_dist, 0);
    let empty = MeshGeometry { attributes: layout(), positions: Some(vec![]) };
    assert_eq!(mesh_stats(&empty), s);
}

#[test]
fn midpoint_rounds_down() {
    assert_eq!(get_midpoint(&vec![]), v(0, 0, 0));
    assert_eq!(get_midpoint(&vec![v(1, -1, 4), v(2, -2, 4)]), v(1, -2, 4));
    assert_eq!(get_midpoint(&vec![v(3, 6, -9), v(6, 0, 0), v(0, 0, 0)]), v(3, 2, -3));
}

#[test]
fn average_distance_from_first_vertex() {
    let (first, avg) = avg_distances_from_first_vert(&vec![v(0, 0, 0), v(3, 4, 0), v(0, 0, 10)]);
    assert_eq!(first, v(0, 0, 0));
    assert_eq!(avg, 5);
    let (first, avg) = avg_distances_from_first_vert(&vec![v(1, 1, 1), v(2, 2, 2)]);
    assert_eq!(first, v(1, 1, 1));
    assert_eq!(avg, 0);
    assert_eq!(avg_distances_from_first_vert(&vec![]), (v(0, 0, 0), 0));
}

#[test]
fn integer_square_root() {
    assert_eq!(floor_sqrt_u128(0), 0);
    assert_eq!(floor_sqrt_u128(1), 1);
    assert_eq!(floor_sqrt_u128(3), 1);
    assert_eq!(floor_sqrt_u128(4), 2);
    assert_eq!(floor_sqrt_u128(99), 9);
    assert_eq!(floor_sqrt_u128(u128::MAX), u64::MAX);
}
