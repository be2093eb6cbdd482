use contour_isobands::{
    isobands, ErrorKind, GridInterpolation, InterpKind, Ring, RingPoint, Sample,
};

/// The order key of a sample, as callers hand samples to the library.
fn key(v: f64) -> Sample {
    if v.is_nan() {
        Sample::Nan
    } else if v == f64::INFINITY {
        Sample::PosInfinity
    } else if v == f64::NEG_INFINITY {
        Sample::NegInfinity
    } else {
        let bits = (v + 0.0).to_bits();
        if bits >> 63 == 1 {
            Sample::Finite(!bits)
        } else {
            Sample::Finite(bits | (1 << 63))
        }
    }
}

fn grid_of(rows: &[Vec<f64>]) -> (Vec<f64>, usize, usize) {
    let width = rows[0].len();
    let height = rows.len();
    let mut data = Vec::with_capacity(width * height);
    for row in rows {
        data.extend_from_slice(row);
    }
    (data, width, height)
}

fn centers_of(data: &[f64], width: usize, height: usize) -> Vec<f64> {
    let mut out = Vec::new();
    for j in 0..height.saturating_sub(1) {
        for i in 0..width.saturating_sub(1) {
            let x0 = data[j * width + i];
            let x1 = data[j * width + i + 1];
            let x2 = data[(j + 1) * width + i + 1];
            let x3 = data[(j + 1) * width + i];
            out.push((x0 + x1 + x2 + x3) / 4.);
        }
    }
    out
}

fn interpolate_linear_ab(a: f64, b: f64, v0: f64, v1: f64) -> f64 {
    let (v0, v1) = if v0 > v1 { (v1, v0) } else { (v0, v1) };
    if a < b {
        if a < v0 {
            (v0 - a) / (b - a)
        } else {
            (v1 - a) / (b - a)
        }
    } else if a > v1 {
        (a - v1) / (a - b)
    } else {
        (a - v0) / (a - b)
    }
}

fn interpolate_linear_a(a: f64, b: f64, min_v: f64, max_v: f64) -> f64 {
    if a < b {
        (min_v - a) / (b - a)
    } else {
        (a - max_v) / (a - b)
    }
}

fn interpolate_linear_b(a: f64, b: f64, min_v: f64, max_v: f64) -> f64 {
    if a < b {
        (max_v - a) / (b - a)
    } else {
        (a - min_v) / (a - b)
    }
}

fn fraction(t: &GridInterpolation, data: &[f64], width: usize, min_v: f64, max_v: f64) -> f64 {
    let a = data[t.from.y * width + t.from.x];
    let b = data[t.to.y * width + t.to.x];
    match t.kind {
        InterpKind::Both => interpolate_linear_ab(a, b, min_v, max_v),
        InterpKind::Lower => interpolate_linear_a(a, b, min_v, max_v),
        InterpKind::Upper => interpolate_linear_b(a, b, min_v, max_v),
    }
}

fn point(p: &RingPoint, data: &[f64], width: usize, min_v: f64, max_v: f64) -> (f64, f64) {
    match p {
        RingPoint::Vertex { x, y } => (*x as f64, *y as f64),
        RingPoint::OnVertical { x, y, t } => (*x as f64, fraction(t, data, width, min_v, max_v) + *y as f64),
        RingPoint::OnHorizontal { x, y, t } => (fraction(t, data, width, min_v, max_v) + *x as f64, *y as f64),
    }
}

/// Runs the library on floating-point input, as a caller does, and gives
/// each band's rings as coordinates.
fn run(
    data: &[f64],
    thresholds: &[f64],
    quad: bool,
    width: usize,
    height: usize,
) -> Result<Vec<Vec<Vec<(f64, f64)>>>, ErrorKind> {
    let keys: Vec<Sample> = data.iter().map(|v| key(*v)).collect();
    let centers: Vec<Sample> = if data.len() == width * height && !data.is_empty() {
        centers_of(data, width, height).iter().map(|v| key(*v)).collect()
    } else {
        Vec::new()
    };
    let t: Vec<Sample> = thresholds.iter().map(|v| key(*v)).collect();
    let lowered: Vec<Sample> = thresholds.iter().map(|v| key(v - 1e-4)).collect();
    let bands: Vec<Vec<Ring>> = isobands(&keys, &centers, &t, &lowered, quad, width, height)?;
    let n = thresholds.len() - 1;
    Ok(bands
        .iter()
        .enumerate()
        .map(|(i, rings)| {
            let min_v = thresholds[i];
            let max_v = if i + 1 == n { thresholds[i + 1] } else { thresholds[i + 1] - 1e-4 };
            rings
                .iter()
                .map(|r| {
                    let mut pts: Vec<(f64, f64)> =
                        r.points.iter().map(|p| point(p, data, width, min_v, max_v)).collect();
                    // a closing point is only added where the walk ended elsewhere
                    let n = pts.len();
                    if r.closing_added && pts[n - 2] == pts[0] {
                        pts.pop();
                    }
                    pts
                })
                .collect()
        })
        .collect())
}

fn pts(v: &[(f64, f64)]) -> Vec<(f64, f64)> {
    v.to_vec()
}

#[test]
fn isobands_err_matrix_empty() {
    let (matrix, width, height) = grid_of(&[vec![]]);
    let res = run(&matrix, &[1., 3.], false, width, height);
    assert!(res.is_err());
    assert_eq!(res.unwrap_err(), ErrorKind::BadData);
}

#[test]
fn isobands_err_threshold_too_short() {
    let (matrix, width, height) = grid_of(&[vec![1., 1.], vec![1., 5.]]);
    let keys: Vec<Sample> = matrix.iter().map(|v| key(*v)).collect();
    let centers: Vec<Sample> = centers_of(&matrix, width, height).iter().map(|v| key(*v)).collect();
    let res = isobands(&keys, &centers, &[key(2.)], &[key(2. - 1e-4)], false, width, height);
    assert!(res.is_err());
    assert_eq!(res.unwrap_err(), ErrorKind::BadIntervals);
}

#[test]
fn isobands_err_matrix_rows_not_same_length() {
    let (matrix, width, height) = grid_of(&[vec![1., 1.], vec![1., 5., 5.]]);
    let res = run(&matrix, &[1., 3.], false, width, height);
    assert!(res.is_err());
    assert_eq!(res.unwrap_err(), ErrorKind::BadDimension);
}

#[test]
fn isobands_minimal() {
    let (matrix, width, height) = grid_of(&[vec![1., 1.], vec![1., 5.]]);
    let res = run(&matrix, &[1., 3.], false, width, height).unwrap();
    assert_eq!(
        res[0],
        vec![pts(&[(0.5, 1.), (1., 0.5), (1., 0.), (0., 0.), (0., 1.), (0.5, 1.)])]
    );
}

#[test]
fn isoband_simple() {
    let (matrix, width, height) =
        grid_of(&[vec![1., 1., 1., 0.], vec![1., 5., 5., 1.], vec![0., 1., 1., 1.]]);
    let res = run(&matrix, &[1., 2.], false, width, height).unwrap();
    assert_eq!(
        res[0],
        vec![
            pts(&[(0.25, 1.), (1., 0.25), (2., 0.25), (2.75, 1.), (2., 1.75), (1., 1.75), (0.25, 1.)]),
            pts(&[
                (0., 1.),
                (1., 2.),
                (1., 2.),
                (2., 2.),
                (3., 2.),
                (3., 1.),
                (3., 1.),
                (2., 0.),
                (2., 0.),
                (1., 0.),
                (0., 0.),
                (0., 1.),
            ]),
        ]
    );
}

#[test]
fn isobands_example() {
    let (matrix, width, height) = grid_of(&[
        vec![18., 13., 10., 9., 10., 13., 18.],
        vec![13., 8., 5., 4., 5., 8., 13.],
        vec![10., 5., 2., 1., 2., 5., 10.],
        vec![9., 4., 1., 12., 1., 4., 9.],
        vec![10., 5., 2., 1., 2., 5., 10.],
        vec![13., 8., 5., 4., 5., 8., 13.],
        vec![18., 13., 10., 9., 10., 13., 18.],
        vec![18., 13., 10., 9., 10., 13., 18.],
    ]);
    let res = run(&matrix, &[4.5, 9.], false, width, height).unwrap();
    assert_eq!(
        res[0],
        vec![
            pts(&[
                (1., 0.8),
                (0.8, 1.),
                (0.2, 2.),
                (0., 3.),
                (0., 3.),
                (0., 3.),
                (0.2, 4.),
                (0.8, 5.),
                (1., 5.2),
                (2., 5.8),
                (3., 6.),
                (3., 7.),
                (3., 7.),
                (3., 7.),
                (3., 6.),
                (4., 5.8),
                (5., 5.2),
                (5.2, 5.),
                (5.8, 4.),
                (6., 3.),
                (6., 3.),
                (6., 3.),
                (5.8, 2.),
                (5.2, 1.),
                (5., 0.8),
                (4., 0.2),
                (3., 0.),
                (3., 0.),
                (3., 0.),
                (2., 0.2),
                (1., 0.8),
            ]),
            pts(&[
                (0.9, 3.),
                (1., 2.5),
                (1.1666666666666667, 2.),
                (2., 1.1666666666666667),
                (2.5, 1.),
                (3., 0.9),
                (3.5, 1.),
                (4., 1.1666666666666667),
                (4.833333333333333, 2.),
                (5., 2.5),
                (5.1, 3.),
                (5., 3.5),
                (4.833333333333333, 4.),
                (4., 4.833333333333333),
                (3.5, 5.),
                (3., 5.1),
                (2.5, 5.),
                (2., 4.833333333333333),
                (1.1666666666666667, 4.),
                (1., 3.5),
                (0.9, 3.),
            ]),
            pts(&[
                (2.7272727272727275, 3.),
                (3., 2.7272727272727275),
                (3.2727272727272725, 3.),
                (3., 3.2727272727272725),
                (2.7272727272727275, 3.),
            ]),
            pts(&[
                (3., 2.3181818181818183),
                (2.3181818181818183, 3.),
                (3., 3.6818181818181817),
                (3.6818181818181817, 3.),
                (3., 2.3181818181818183),
            ]),
        ]
    );
}

fn issue_grid() -> (Vec<f64>, usize, usize) {
    grid_of(&[
        vec![1., 1., 1., 1., 1., 1., 1.],
        vec![1., 5., 5., 5., 5., 5., 1.],
        vec![1., 5., 15., 15., 15., 5., 1.],
        vec![1., 5., 10., 10., 10., 5., 1.],
        vec![1., 5., 5., 5., 5., 5., 1.],
        vec![1., 1., 1., 1., 1., 1., 1.],
    ])
}

fn ring_3_5_outer() -> Vec<(f64, f64)> {
    pts(&[
        (1.0, 0.5),
        (0.5, 1.0),
        (0.5, 2.0),
        (0.5, 3.0),
        (0.5, 4.0),
        (1.0, 4.5),
        (2.0, 4.5),
        (3.0, 4.5),
        (4.0, 4.5),
        (5.0, 4.5),
        (5.5, 4.0),
        (5.5, 3.0),
        (5.5, 2.0),
        (5.5, 1.0),
        (5.0, 0.5),
        (4.0, 0.5),
        (3.0, 0.5),
        (2.0, 0.5),
        (1.0, 0.5),
    ])
}

fn band_5_7() -> Vec<Vec<(f64, f64)>> {
    vec![
        pts(&[
            (1.0, 1.0),
            (1.0, 1.0),
            (1.0, 2.0),
            (1.0, 3.0),
            (1.0, 4.0),
            (1.0, 4.0),
            (2.0, 4.0),
            (3.0, 4.0),
            (4.0, 4.0),
            (5.0, 4.0),
            (5.0, 4.0),
            (5.0, 3.0),
            (5.0, 2.0),
            (5.0, 1.0),
            (5.0, 1.0),
            (4.0, 1.0),
            (3.0, 1.0),
            (2.0, 1.0),
            (1.0, 1.0),
        ]),
        pts(&[
            (1.2, 2.0),
            (2.0, 1.2),
            (3.0, 1.2),
            (4.0, 1.2),
            (4.8, 2.0),
            (4.6, 3.0),
            (4.0, 3.6),
            (3.0, 3.6),
            (2.0, 3.6),
            (1.4, 3.0),
            (1.2, 2.0),
        ]),
    ]
}

#[test]
fn isobands_original_code_issue_6_3_5() {
    let (matrix, width, height) = issue_grid();
    let res = run(&matrix, &[3., 5.], false, width, height).unwrap();
    assert_eq!(
        res[0],
        vec![
            ring_3_5_outer(),
            pts(&[
                (1.0, 2.0),
                (2.0, 1.0),
                (3.0, 1.0),
                (4.0, 1.0),
                (5.0, 2.0),
                (5.0, 3.0),
                (4.0, 4.0),
                (3.0, 4.0),
                (2.0, 4.0),
                (1.0, 3.0),
                (1.0, 2.0),
            ]),
        ]
    );
}

#[test]
fn isobands_original_code_issue_6_5_7() {
    let (matrix, width, height) = issue_grid();
    let res = run(&matrix, &[5., 7.], false, width, height).unwrap();
    assert_eq!(res[0], band_5_7());
}

#[test]
fn isobands_multiple_bands() {
    let (matrix, width, height) = issue_grid();
    let res = run(&matrix, &[3., 5., 7.], false, width, height).unwrap();
    assert_eq!(res.len(), 2);
    // the first band stops at 5 - 1e-4, so its inner ring sits a quarter of
    // that inside the cells around the samples equal to 5
    assert_eq!(
        res[0],
        vec![
            pts(&[
                (0.9999750000000001, 1.0),
                (1.0, 0.9999750000000001),
                (2.0, 0.9999750000000001),
                (3.0, 0.9999750000000001),
                (4.0, 0.9999750000000001),
                (5.0, 0.9999750000000001),
                (5.000025, 1.0),
                (5.000025, 2.0),
                (5.000025, 3.0),
                (5.000025, 4.0),
                (5.0, 4.000025),
                (4.0, 4.000025),
                (3.0, 4.000025),
                (2.0, 4.000025),
                (1.0, 4.000025),
                (0.9999750000000001, 4.0),
                (0.9999750000000001, 3.0),
                (0.9999750000000001, 2.0),
                (0.9999750000000001, 1.0),
            ]),
            ring_3_5_outer(),
        ]
    );
    assert_eq!(res[1], band_5_7());
}

#[test]
fn isobands_simple_same_with_quadtree() {
    let (matrix, width, height) =
        grid_of(&[vec![1., 1., 1., 0.], vec![1., 5., 5., 1.], vec![0., 1., 1., 1.]]);
    let res1 = run(&matrix, &[1., 2.], false, width, height).unwrap();
    let res2 = run(&matrix, &[1., 2.], true, width, height).unwrap();
    assert_eq!(res1, res2);
}

#[test]
fn frame_case_gives_the_whole_grid() {
    let (matrix, width, height) = grid_of(&[vec![2., 2., 2.], vec![2., 2.5, 2.], vec![2., 2., 2.]]);
    let res = run(&matrix, &[1., 3.], false, width, height).unwrap();
    assert_eq!(res[0], vec![pts(&[(0., 0.), (0., 2.), (2., 2.), (2., 0.), (0., 0.)])]);
}

#[test]
fn frame_with_a_hole() {
    let (matrix, width, height) = grid_of(&[vec![2., 2., 2.], vec![2., 9., 2.], vec![2., 2., 2.]]);
    let res = run(&matrix, &[1., 3.], false, width, height).unwrap();
    assert_eq!(res[0].len(), 2);
    assert_eq!(res[0][0], pts(&[(0., 0.), (0., 2.), (2., 2.), (2., 0.), (0., 0.)]));
    let hole = &res[0][1];
    assert_eq!(hole.first(), hole.last());
    assert_eq!(hole.len(), 5);
}

#[test]
fn band_partition_regression() {
    let (matrix, width, height) = grid_of(&[vec![1., 1.], vec![1., 5.]]);
    let res = run(&matrix, &[1., 3.], true, width, height).unwrap();
    assert_eq!(
        res[0],
        vec![pts(&[(0.5, 1.), (1., 0.5), (1., 0.), (0., 0.), (0., 1.), (0.5, 1.)])]
    );
}

#[test]
fn split_bands_match_one_call() {
    let (matrix, width, height) = issue_grid();
    let both = run(&matrix, &[3., 5., 7.], false, width, height).unwrap();
    let lower = run(&matrix, &[3., 5. - 1e-4], false, width, height).unwrap();
    let upper = run(&matrix, &[5., 7.], false, width, height).unwrap();
    assert_eq!(both[0], lower[0]);
    assert_eq!(both[1], upper[0]);
}

#[test]
fn repeated_calls_give_the_same_rings() {
    let (matrix, width, height) = issue_grid();
    let a = run(&matrix, &[3., 5., 7.], true, width, height).unwrap();
    let b = run(&matrix, &[3., 5., 7.], true, width, height).unwrap();
    assert_eq!(a, b);
}

#[test]
fn quadtree_gives_the_same_rings_on_the_example() {
    let (matrix, width, height) = grid_of(&[
        vec![18., 13., 10., 9., 10., 13., 18.],
        vec![13., 8., 5., 4., 5., 8., 13.],
        vec![10., 5., 2., 1., 2., 5., 10.],
        vec![9., 4., 1., 12., 1., 4., 9.],
        vec![10., 5., 2., 1., 2., 5., 10.],
        vec![13., 8., 5., 4., 5., 8., 13.],
        vec![18., 13., 10., 9., 10., 13., 18.],
        vec![18., 13., 10., 9., 10., 13., 18.],
    ]);
    let t = [0., 2., 4.5, 7., 9., 12., 20.];
    assert_eq!(
        run(&matrix, &t, false, width, height).unwrap(),
        run(&matrix, &t, true, width, height).unwrap()
    );
}

#[test]
fn missing_samples_leave_cells_out() {
    let (matrix, width, height) = grid_of(&[vec![1., f64::NAN], vec![1., 1.]]);
    let res = run(&matrix, &[0., 2.], false, width, height).unwrap();
    // a missing sample lies in no band, so the border does not frame it, and
    // the only cell has a missing corner
    assert!(res[0].is_empty());
}

#[test]
fn centers_of_wrong_size_are_refused() {
    let (matrix, width, height) = grid_of(&[vec![1., 1.], vec![1., 5.]]);
    let keys: Vec<Sample> = matrix.iter().map(|v| key(*v)).collect();
    let t = [key(1.), key(3.)];
    let res = isobands(&keys, &[], &t, &t, false, width, height);
    assert_eq!(res.unwrap_err(), ErrorKind::BadDimension);
}

#[test]
fn band_settings_nudge_all_but_the_last() {
    let t = [key(3.), key(5.), key(7.)];
    let l = [key(3. - 1e-4), key(5. - 1e-4), key(7. - 1e-4)];
    let bands = contour_isobands::band_settings(&t, &l);
    assert_eq!(bands.len(), 2);
    assert_eq!((bands[0].min_v, bands[0].max_v), (key(3.), key(5. - 1e-4)));
    assert_eq!((bands[1].min_v, bands[1].max_v), (key(5.), key(7.)));
}

#[test]
fn sample_keys_keep_the_order() {
    let values = [f64::NEG_INFINITY, -3.5, -0.0, 0.0, 1e-300, 2.0, 1e300, f64::INFINITY];
    for w in values.windows(2) {
        let (a, b) = (key(w[0]), key(w[1]));
        assert_eq!(a.less_than(&b), w[0] < w[1]);
        assert!(!b.less_than(&a));
    }
    assert!(!key(f64::NAN).less_than(&key(1.0)));
    assert!(!key(1.0).less_than(&key(f64::NAN)));
}

#[test]
fn quadtree_matches_on_an_inverted_band() {
    // thresholds closer than the nudge make the first band's upper bound
    // fall below its lower one
    let (matrix, width, height) = grid_of(&[vec![0.99997, 1.5], vec![1.5, 1.5]]);
    let t = [1., 1.00005, 2.];
    assert_eq!(
        run(&matrix, &t, false, width, height).unwrap(),
        run(&matrix, &t, true, width, height).unwrap()
    );
}

#[test]
fn nan_on_the_border_breaks_the_frame() {
    let (matrix, width, height) = grid_of(&[vec![1., 1., 1.], vec![1., 1., 1.], vec![1., 1., f64::NAN]]);
    let res = run(&matrix, &[0., 2.], false, width, height).unwrap();
    assert!(res[0].iter().all(|r| r.first() == r.last()));
    assert_ne!(res[0].first(), Some(&pts(&[(0., 0.), (0., 2.), (2., 2.), (2., 0.), (0., 0.)])));
}
