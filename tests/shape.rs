use contour_isobands::{
    prepare_cell, BorrowedGrid, Corner, EnterType, InterpKind, Level, Sample, Settings, Side,
};

fn band(lo: u64, hi: u64) -> Settings {
    Settings { min_v: Sample::Finite(lo), max_v: Sample::Finite(hi) }
}

#[test]
fn test_compute_center_average() {
    // averages of the corners, compared with the band as the classifier does
    assert_eq!(band(0, 2).center_level(&Sample::Finite(1)), Level::Within);
    assert_eq!(band(0, 1).center_level(&Sample::Finite(0)), Level::Within);
    assert_eq!(band(0, 0).center_level(&Sample::Finite(1)), Level::Above);
    assert_eq!(band(0, 1).center_level(&Sample::Finite(1)), Level::Within);
    assert_eq!(band(5, 9).center_level(&Sample::Finite(4)), Level::Below);
}

#[test]
fn cell_with_missing_corner_is_absent() {
    let data = vec![Sample::Finite(1), Sample::Nan, Sample::Finite(1), Sample::Finite(1)];
    let grid = BorrowedGrid::new(&data, 2, 2);
    let r = prepare_cell(0, 0, &grid, Sample::Finite(1), &band(0, 2)).unwrap();
    assert!(r.is_none());
    let data = vec![Sample::Finite(1), Sample::PosInfinity, Sample::Finite(1), Sample::Finite(1)];
    let grid = BorrowedGrid::new(&data, 2, 2);
    assert!(prepare_cell(0, 0, &grid, Sample::Finite(1), &band(0, 2)).unwrap().is_none());
}

#[test]
fn uniform_cells_have_no_fragments() {
    for v in [0u64, 5, 9] {
        let data = vec![Sample::Finite(v); 4];
        let grid = BorrowedGrid::new(&data, 2, 2);
        let cell = prepare_cell(0, 0, &grid, Sample::Finite(v), &band(3, 6)).unwrap().unwrap();
        assert!(cell.edges.iter().all(|e| e.is_none()));
    }
}

#[test]
fn single_corner_within_gives_one_triangle_fragment() {
    // bottom left within, the rest below: code 1
    let data = vec![Sample::Finite(5), Sample::Finite(1), Sample::Finite(1), Sample::Finite(1)];
    let grid = BorrowedGrid::new(&data, 2, 2);
    let cell = prepare_cell(0, 0, &grid, Sample::Finite(2), &band(3, 6)).unwrap().unwrap();
    let filled: Vec<usize> = (0..8).filter(|k| cell.edges[*k].is_some()).collect();
    assert_eq!(filled, vec![EnterType::LB.index()]);
    let e = cell.edges[EnterType::LB.index()].unwrap();
    assert_eq!(e.start.side, Side::Left);
    assert_eq!(e.start.t.kind, InterpKind::Both);
    assert_eq!((e.start.t.from, e.start.t.to), (Corner::BottomLeft, Corner::TopLeft));
    assert_eq!(e.end.side, Side::Bottom);
    assert_eq!((e.move_info.x, e.move_info.y, e.move_info.enter), (0, -1, EnterType::TL));
}

#[test]
fn saddle_cell_follows_its_center() {
    // x0 and x2 within, x1 and x3 below: code 17
    let data = vec![Sample::Finite(5), Sample::Finite(1), Sample::Finite(1), Sample::Finite(5)];
    let grid = BorrowedGrid::new(&data, 2, 2);
    let apart = prepare_cell(0, 0, &grid, Sample::Finite(2), &band(3, 6)).unwrap().unwrap();
    let joined = prepare_cell(0, 0, &grid, Sample::Finite(4), &band(3, 6)).unwrap().unwrap();
    let count = |c: &contour_isobands::Cell| c.edges.iter().filter(|e| e.is_some()).count();
    assert_eq!(count(&apart), 2);
    assert!(apart.edges[EnterType::LB.index()].is_some());
    assert!(apart.edges[EnterType::RT.index()].is_some());
    assert_eq!(count(&joined), 2);
    // apart, the fragment from the left side cuts off the bottom left
    // corner; joined, it runs to the top side
    assert_eq!(apart.edges[EnterType::LB.index()].unwrap().move_info.enter, EnterType::TL);
    assert_eq!(joined.edges[EnterType::LB.index()].unwrap().move_info.enter, EnterType::BR);
}

#[test]
fn levels_of_samples() {
    let b = band(3, 6);
    assert_eq!(b.level(&Sample::Finite(2)), Level::Below);
    assert_eq!(b.level(&Sample::Finite(3)), Level::Within);
    assert_eq!(b.level(&Sample::Finite(6)), Level::Within);
    assert_eq!(b.level(&Sample::Finite(7)), Level::Above);
    assert_eq!(b.level(&Sample::NegInfinity), Level::Below);
    assert_eq!(b.level(&Sample::PosInfinity), Level::Above);
    assert!(!b.holds(&Sample::Nan));
    assert!(b.holds(&Sample::Finite(4)));
}
