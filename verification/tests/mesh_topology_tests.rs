use anigo_core::mesh_topology::{targets_missing_normals, usable_triangles};

#[test]
fn triangles_out_of_range_or_degenerate_are_skipped() {
    let indices: Vec<u32> = vec![0, 1, 2, 0, 0, 1, 5, 1, 2, 2, 3, 1, 9];
    assert_eq!(usable_triangles(&indices, 4, true), vec![(0, 1, 2), (2, 3, 1)]);
    assert_eq!(usable_triangles(&indices, 4, false), vec![(0, 1, 2), (0, 0, 1), (2, 3, 1)]);
    assert_eq!(usable_triangles(&indices, 6, false).len(), 4);
}

#[test]
fn a_trailing_partial_group_is_no_triangle() {
    assert!(usable_triangles(&[0, 1], 3, false).is_empty());
    assert!(usable_triangles(&[], 3, true).is_empty());
    assert_eq!(usable_triangles(&[2, 1, 0, 0, 1], 3, true), vec![(2, 1, 0)]);
}

#[test]
fn targets_without_normals_are_listed_in_order() {
    let summaries = vec![(2, false), (0, false), (3, true), (1, false)];
    assert_eq!(targets_missing_normals(&summaries), vec![0, 3]);
    assert!(targets_missing_normals(&[(0, false), (4, true)]).is_empty());
}
