use contour_isobands::quadtree::split_point;
use contour_isobands::{BorrowedGrid, QuadTree, Sample};

fn samples(values: &[u64]) -> Vec<Sample> {
    values.iter().map(|v| Sample::Finite(*v)).collect()
}

#[test]
fn test_partition_quadtree() {
    let data = samples(&[1, 2, 3, 4, 5, 6, 7, 8, 9, 10, 11, 12, 13, 14, 15, 16]);
    let grid = BorrowedGrid::new(&data, 4, 4);
    let quadtree = QuadTree::new(&grid);
    let root = quadtree.root().unwrap();
    let a = root.child_a().unwrap();
    assert_eq!(a.lower_bound(), Sample::Finite(1));
    assert_eq!(a.upper_bound(), Sample::Finite(11));
    assert_eq!(a.x(), 0);
    assert_eq!(a.y(), 0);
    let b = root.child_b().unwrap();
    assert_eq!(b.lower_bound(), Sample::Finite(3));
    assert_eq!(b.upper_bound(), Sample::Finite(12));
    assert_eq!(b.x(), 2);
    assert_eq!(b.y(), 0);
    let c = root.child_c().unwrap();
    assert_eq!(c.lower_bound(), Sample::Finite(11));
    assert_eq!(c.upper_bound(), Sample::Finite(16));
    assert_eq!(c.x(), 2);
    assert_eq!(c.y(), 2);
    let d = root.child_d().unwrap();
    assert_eq!(d.lower_bound(), Sample::Finite(9));
    assert_eq!(d.upper_bound(), Sample::Finite(15));
    assert_eq!(d.x(), 0);
    assert_eq!(d.y(), 2);
}

#[test]
fn quadtree_skips_regions_outside_the_band() {
    let data = samples(&[1, 2, 3, 4, 5, 6, 7, 8, 9, 10, 11, 12, 13, 14, 15, 16]);
    let grid = BorrowedGrid::new(&data, 4, 4);
    let quadtree = QuadTree::new(&grid);
    let mut all = quadtree.cells_in_band(&Sample::Finite(0), &Sample::Finite(100));
    all.sort();
    assert_eq!(all.len(), 9);
    let mut low = quadtree.cells_in_band(&Sample::Finite(0), &Sample::Finite(3));
    low.sort();
    assert_eq!(low, vec![(0, 0), (1, 0), (2, 0)]);
    assert!(quadtree.cells_in_band(&Sample::Finite(17), &Sample::Finite(20)).is_empty());
    let mut high = quadtree.cells_in_band(&Sample::Finite(16), &Sample::Finite(20));
    high.sort();
    assert_eq!(high, vec![(2, 2)]);
}

#[test]
fn quadtree_of_a_single_row_has_no_cells() {
    let data = samples(&[1, 2, 3]);
    let grid = BorrowedGrid::new(&data, 3, 1);
    let quadtree = QuadTree::new(&grid);
    assert!(quadtree.root().is_none());
    assert!(quadtree.cells_in_band(&Sample::Finite(0), &Sample::Finite(9)).is_empty());
}

#[test]
fn quadtree_ignores_missing_values_in_bounds() {
    let data = vec![Sample::Nan, Sample::Finite(4), Sample::Finite(2), Sample::Nan];
    let grid = BorrowedGrid::new(&data, 2, 2);
    let quadtree = QuadTree::new(&grid);
    let root = quadtree.root().unwrap();
    assert_eq!(root.lower_bound(), Sample::Finite(2));
    assert_eq!(root.upper_bound(), Sample::Finite(4));
}

#[test]
fn split_point_is_largest_power_of_two_below() {
    assert_eq!(split_point(0), 0);
    assert_eq!(split_point(1), 1);
    assert_eq!(split_point(2), 1);
    assert_eq!(split_point(3), 2);
    assert_eq!(split_point(4), 2);
    assert_eq!(split_point(5), 4);
    assert_eq!(split_point(16), 8);
    assert_eq!(split_point(17), 16);
}
