use contour_isobands::{BorrowedGrid, Grid};

#[test]
fn grid_new_is_filled_with_default() {
    let g: Grid<i32> = Grid::new(3, 2);
    assert_eq!(g.width(), 3);
    assert_eq!(g.height(), 2);
    assert_eq!(g.iter().len(), 6);
    assert!(g.iter().iter().all(|(v, _, _)| *v == 0));
}

#[test]
fn grid_new_from_vec_rows_and_coordinates() {
    let g = Grid::new_from_vec(vec![1, 2, 3, 4, 5, 6], 3, 2);
    assert_eq!(g.iter_rows(), vec![vec![1, 2, 3], vec![4, 5, 6]]);
    assert_eq!(
        g.iter(),
        vec![(1, 0, 0), (2, 1, 0), (3, 2, 0), (4, 0, 1), (5, 1, 1), (6, 2, 1)]
    );
    assert_eq!(g.get(&(2, 1)), Some(&6));
    assert_eq!(g.get(&(3, 0)), None);
    assert_eq!(g.get(&(0, 2)), None);
    assert_eq!(*g.index((1, 1)), 5);
    assert!(g.has(&(2, 1)));
    assert!(!g.has(&(2, 2)));
}

#[test]
fn grid_iter_mut_updates_every_value() {
    let mut g = Grid::new_from_vec(vec![10, 20, 30, 40], 2, 2);
    g.iter_mut(|v: i32, x: usize, y: usize| v + (x as i32) + 100 * (y as i32));
    assert_eq!(g.iter_rows(), vec![vec![10, 21], vec![130, 141]]);
}

#[test]
fn grid_from_rows_keeps_row_order() {
    let rows = vec![vec![1u8, 2], vec![3, 4], vec![5, 6]];
    let g = Grid::from_rows(&rows);
    assert_eq!(g.width(), 2);
    assert_eq!(g.height(), 3);
    assert_eq!(*g.index((0, 2)), 5);
    assert_eq!(g.iter_rows(), rows);
}

#[test]
fn borrowed_grid_reads_the_slice() {
    let data = [1.5f64, 2.5, 3.5, 4.5];
    let g = BorrowedGrid::new(&data, 2, 2);
    assert_eq!(g.iter_rows(), vec![vec![1.5, 2.5], vec![3.5, 4.5]]);
    assert_eq!(g.get(&(1, 0)), Some(&2.5));
    assert_eq!(g.get(&(2, 0)), None);
    assert_eq!(*g.index((0, 1)), 3.5);
    assert_eq!((g.width(), g.height()), (2, 2));
}
