use auto_instance::propagation::{all_children, apply_auto_instance_recursive, DedupMarkers};

fn none() -> DedupMarkers {
    DedupMarkers { material: false, material_recursive: false, mesh: false, mesh_recursive: false }
}

/// 0 -> 1 -> 2 -> 3, 0 -> 4; 5 stands apart with child 6.
fn scene() -> Vec<Vec<usize>> {
    vec![vec![1, 4], vec![2], vec![3], vec![], vec![], vec![6], vec![]]
}

#[test]
fn recursive_marker_covers_whole_subtree() {
    let children = scene();
    let mut markers = vec![none(); 7];
    markers[0].material_recursive = true;
    markers[0].mesh_recursive = true;
    apply_auto_instance_recursive(&children, &mut markers);
    for d in 1..5 {
        assert!(markers[d].material, "entity {}", d);
        assert!(markers[d].mesh, "entity {}", d);
    }
    assert_eq!(markers[0], none());
    assert_eq!(markers[5], none());
    assert_eq!(markers[6], none());
}

#[test]
fn kinds_expand_independently() {
    let children = scene();
    let mut markers = vec![none(); 7];
    markers[1].material_recursive = true;
    markers[5].mesh_recursive = true;
    apply_auto_instance_recursive(&children, &mut markers);
    assert!(markers[2].material && markers[3].material);
    assert!(!markers[2].mesh && !markers[4].material);
    assert!(markers[6].mesh && !markers[6].material);
    assert!(!markers[1].material_recursive && !markers[5].mesh_recursive);
}

#[test]
fn leaf_root_only_loses_its_marker() {
    let children = scene();
    let mut markers = vec![none(); 7];
    markers[3].material_recursive = true;
    markers[3].mesh = true;
    apply_auto_instance_recursive(&children, &mut markers);
    let mut expected = none();
    expected.mesh = true;
    assert_eq!(markers[3], expected);
    assert!(markers.iter().all(|m| !m.material));
}

#[test]
fn second_expansion_is_a_no_op() {
    let children = scene();
    let mut markers = vec![none(); 7];
    markers[0].material_recursive = true;
    markers[2].material_recursive = true;
    apply_auto_instance_recursive(&children, &mut markers);
    let once = markers.clone();
    apply_auto_instance_recursive(&children, &mut markers);
    assert_eq!(markers, once);
}

#[test]
fn all_children_follows_every_level() {
    let reached = all_children(&scene(), 0);
    assert_eq!(reached, vec![false, true, true, true, true, false, false]);
    let cyclic = vec![vec![1], vec![0]];
    assert_eq!(all_children(&cyclic, 0), vec![true, true]);
}
