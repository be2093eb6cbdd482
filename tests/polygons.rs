use contour_isobands::{assemble_polygons, sort_by_area, ErrorKind};

#[test]
fn ring_inside_ring_becomes_a_hole() {
    // ring 0 (small) lies inside ring 1 (large)
    let enclosing = vec![vec![false, false], vec![true, false]];
    let plans = assemble_polygons(&enclosing, &vec![1, 1], true).unwrap();
    assert_eq!(plans.len(), 1);
    assert_eq!(plans[0].exterior, 1);
    assert!(!plans[0].reverse_exterior);
    assert_eq!(plans[0].holes, vec![0]);
    assert_eq!(plans[0].reverse_holes, vec![true]);
}

#[test]
fn winding_is_left_alone_when_not_enforced() {
    let enclosing = vec![vec![false, false], vec![true, false]];
    let plans = assemble_polygons(&enclosing, &vec![1, -1], false).unwrap();
    assert!(!plans[0].reverse_exterior);
    assert_eq!(plans[0].reverse_holes, vec![false]);
}

#[test]
fn nested_exteriors_come_largest_first() {
    // 0 inside 1 inside 2: 2 is an exterior, 1 its hole, 0 an exterior again
    let enclosing = vec![
        vec![false, false, false],
        vec![true, false, false],
        vec![true, true, false],
    ];
    let plans = assemble_polygons(&enclosing, &vec![-1, -1, -1], true).unwrap();
    assert_eq!(plans.len(), 2);
    assert_eq!(plans[0].exterior, 2);
    assert!(plans[0].reverse_exterior);
    assert_eq!(plans[0].holes, vec![1]);
    assert_eq!(plans[0].reverse_holes, vec![false]);
    assert_eq!(plans[1].exterior, 0);
    assert!(plans[1].holes.is_empty());
}

#[test]
fn hole_goes_to_the_first_exterior_that_contains_it() {
    // ring 1 is inside ring 2 only; ring 0 is an unrelated exterior
    let enclosing = vec![
        vec![false, false, false],
        vec![false, false, false],
        vec![false, true, false],
    ];
    let plans = assemble_polygons(&enclosing, &vec![1, -1, 1], true).unwrap();
    assert_eq!(plans.len(), 2);
    assert_eq!((plans[0].exterior, plans[0].holes.clone()), (2, vec![1]));
    assert_eq!((plans[1].exterior, plans[1].holes.clone()), (0, vec![]));
}

#[test]
fn hole_without_exterior_is_an_error() {
    // ring 0 is inside ring 1 and ring 1 inside ring 0: both are holes
    let enclosing = vec![vec![false, true], vec![true, false]];
    let r = assemble_polygons(&enclosing, &vec![1, 1], true);
    assert_eq!(r.unwrap_err(), ErrorKind::PolygonReconstructionError);
}

#[test]
fn no_rings_no_polygons() {
    let plans = assemble_polygons(&vec![], &vec![], true).unwrap();
    assert!(plans.is_empty());
}

#[test]
fn rings_sort_by_area_keeping_ties_in_order() {
    assert_eq!(sort_by_area(&vec![5, 1, 3, 1, 0]), vec![4, 1, 3, 2, 0]);
    assert_eq!(sort_by_area(&vec![2, 2, 2]), vec![0, 1, 2]);
    assert_eq!(sort_by_area(&vec![]), Vec::<usize>::new());
}
