//! The engine for whole bands: input checks, the bands made from the
//! thresholds, and for each band classify, then trace.
use vstd::prelude::*;
use crate::errors::ErrorKind;
use crate::grid::BorrowedGrid;
use crate::quadtree::{QuadTree, cell_quiet, is_cell};
use crate::sample::{Sample, Settings, gt, in_band, is_finite, lt};
use crate::shape::{
    Edge,
    cell_corners,
    center_level_of,
    classify,
    corners_code,
    corners_finite,
    no_edges,
    prepare_cell,
    shape_edges,
};
use crate::trace::{CellGrid, Ring, RingPoint, closed_ring, frame_count, frame_required, frame_ring, on_border, ring_views, slot, trace_band_paths, traced};

verus! {

/// The bands of a threshold list: band `i` runs from threshold `i` to
/// threshold `i + 1`, except that every band but the last stops at
/// `lowered[i + 1]`, the next threshold nudged down, so that adjacent bands
/// do not both claim a sample equal to their shared threshold.
pub open spec fn bands_of(thresholds: Seq<Sample>, lowered: Seq<Sample>) -> Seq<Settings> {
    Seq::new(
        (thresholds.len() - 1) as nat,
        |i: int|
            Settings {
                min_v: thresholds[i],
                max_v: if i + 1 == thresholds.len() - 1 {
                    thresholds[i + 1]
                } else {
                    lowered[i + 1]
                },
            },
    )
}

/// The bands for `thresholds`, of which there are at least two;
/// `lowered[k]` is threshold `k` nudged down.
pub fn band_settings(thresholds: &[Sample], lowered: &[Sample]) -> (bands: Vec<Settings>)
    requires
        thresholds@.len() >= 2,
        lowered@.len() == thresholds@.len(),
    ensures
        bands@ == bands_of(thresholds@, lowered@),
{
    let n = thresholds.len();
    let mut bands: Vec<Settings> = Vec::new();
    let mut i: usize = 0;
    while i + 1 < n
        invariant
            n == thresholds@.len(),
            n == lowered@.len(),
            n >= 2,
            i + 1 <= n,
            bands@ =~= bands_of(thresholds@, lowered@).subrange(0, i as int),
        decreases n - i,
    {
        let max_v = if i + 2 == n {
            thresholds[i + 1]
        } else {
            lowered[i + 1]
        };
        bands.push(Settings { min_v: thresholds[i], max_v });
        i = i + 1;
    }
    bands
}

/// Each band of a threshold list is the one band of the pair made of its
/// own bounds: a band can be asked for alone, by its lower threshold and its
/// (possibly nudged) upper bound, and it is the same band.
pub proof fn lemma_band_alone(thresholds: Seq<Sample>, lowered: Seq<Sample>, b: int, other: Seq<Sample>)
    requires
        thresholds.len() >= 2,
        lowered.len() == thresholds.len(),
        0 <= b < thresholds.len() - 1,
        other.len() == 2,
    ensures
        ({
            let band = bands_of(thresholds, lowered)[b];
            bands_of(seq![band.min_v, band.max_v], other) =~= seq![band]
        }),
{
}

/// The fragments that cell `(i, j)` holds for band `opt`: those the
/// classifier gives it, or none where a corner is not finite.
pub open spec fn expected_fragment(
    data: BorrowedGrid<Sample>,
    centers: BorrowedGrid<Sample>,
    opt: Settings,
    i: int,
    j: int,
    k: int,
) -> Option<Edge> {
    match classify(data, i, j, centers.at(i, j), opt) {
        Some(e) => e[k],
        None => None,
    }
}

/// Every cell of `cells` holds the fragments the classifier gives it.
pub open spec fn grid_filled(
    cells: CellGrid,
    data: BorrowedGrid<Sample>,
    centers: BorrowedGrid<Sample>,
    opt: Settings,
) -> bool {
    forall|i: int, j: int, k: int|
        0 <= i < cells.dims().0 && 0 <= j < cells.dims().1 && 0 <= k < 8 ==> #[trigger] cells.fragment(
            i,
            j,
            k,
        ) == expected_fragment(data, centers, opt, i, j, k)
}

/// The sample grid and the grid of cell averages agree in size.
pub open spec fn grids_match(data: BorrowedGrid<Sample>, centers: BorrowedGrid<Sample>) -> bool {
    &&& data.wf()
    &&& centers.wf()
    &&& data.spec_width() >= 1
    &&& data.spec_height() >= 1
    &&& centers.spec_width() == data.spec_width() - 1
    &&& centers.spec_height() == data.spec_height() - 1
}

/// A band whose upper bound lies below its lower one.
pub open spec fn inverted(opt: Settings) -> bool {
    lt(opt.max_v, opt.min_v)
}

/// A cell that the quadtree leaves out of a band holds no fragment for it,
/// unless the band is inverted: filling only the cells the quadtree gives
/// yields the same cells as filling all of them.
pub proof fn lemma_quiet_cell_is_empty(
    data: BorrowedGrid<Sample>,
    centers: BorrowedGrid<Sample>,
    opt: Settings,
    i: int,
    j: int,
    k: int,
)
    requires
        grids_match(data, centers),
        is_cell(i, j, data.spec_width() as int, data.spec_height() as int),
        0 <= k < 8,
        !inverted(opt),
        cell_quiet(data@, data.spec_width() as int, i, j, opt.min_v, opt.max_v),
    ensures
        expected_fragment(data, centers, opt, i, j, k) is None,
{
    let c = cell_corners(data, i, j);
    if corners_finite(c) {
        if gt(c.0, opt.max_v) && gt(c.1, opt.max_v) && gt(c.2, opt.max_v) && gt(c.3, opt.max_v) {
            assert(corners_code(c, opt) == 170);
        } else {
            assert(corners_code(c, opt) == 0);
        }
    }
}

/// Two cell grids of the same size that both hold every cell's fragments
/// for band `opt` are the same: the tracer is handed the same cells whether
/// they were all classified or only those the quadtree gave.
pub proof fn lemma_filled_grids_equal(
    c1: CellGrid,
    c2: CellGrid,
    data: BorrowedGrid<Sample>,
    centers: BorrowedGrid<Sample>,
    opt: Settings,
)
    requires
        c1.wf(),
        c2.wf(),
        c1.dims() == c2.dims(),
        grid_filled(c1, data, centers, opt),
        grid_filled(c2, data, centers, opt),
    ensures
        c1@ == c2@,
{
    assert forall|n: int| 0 <= n < c1@.len() implies c1@[n] == c2@[n] by {
        let (i, j, k) = lemma_slot_parts(n, c1.dims().0, c1.dims().1);
        assert(c1.fragment(i, j, k) == expected_fragment(data, centers, opt, i, j, k));
        assert(c2.fragment(i, j, k) == expected_fragment(data, centers, opt, i, j, k));
    }
    assert(c1@ =~= c2@);
}

/// A filled grid holds no fragment when no cell has one for the band.
proof fn lemma_filled_grid_empty(
    c: CellGrid,
    data: BorrowedGrid<Sample>,
    centers: BorrowedGrid<Sample>,
    opt: Settings,
)
    requires
        grids_match(data, centers),
        c.wf(),
        c.dims() == (data.spec_width() - 1, data.spec_height() - 1),
        grid_filled(c, data, centers, opt),
        !band_crosses(data, centers, opt),
    ensures
        crate::trace::live(c@) == 0,
{
    assert forall|n: int| 0 <= n < c@.len() implies (#[trigger] c@[n]) is None by {
        let (i, j, k) = lemma_slot_parts(n, c.dims().0, c.dims().1);
        assert(c.fragment(i, j, k) == expected_fragment(data, centers, opt, i, j, k));
        if expected_fragment(data, centers, opt, i, j, k) is Some {
            assert(band_crosses(data, centers, opt));
        }
    }
    crate::trace::lemma_live_empty(c@);
}

/// The cell `(i, j)` and crossing `k` whose slot is `n`.
proof fn lemma_slot_parts(n: int, cols: int, rows: int) -> (r: (int, int, int))
    requires
        0 <= n < cols * rows * 8,
        cols >= 0,
        rows >= 0,
    ensures
        0 <= r.0 < cols,
        0 <= r.1 < rows,
        0 <= r.2 < 8,
        slot(r.0, r.1, r.2, rows) == n,
        r == ((n / 8) / rows, (n / 8) % rows, n % 8),
{
    let k = n % 8;
    let c = n / 8;
    assert(rows > 0 && cols > 0) by (nonlinear_arith)
        requires
            0 <= n < cols * rows * 8,
            cols >= 0,
            rows >= 0,
    ;
    let i = c / rows;
    let j = c % rows;
    vstd::arithmetic::div_mod::lemma_fundamental_div_mod(c, rows);
    vstd::arithmetic::div_mod::lemma_fundamental_div_mod(n, 8);
    assert(0 <= c < cols * rows) by (nonlinear_arith)
        requires
            0 <= n < cols * rows * 8,
            c == n / 8,
    ;
    assert(i >= 0) by (nonlinear_arith)
        requires
            c >= 0,
            rows > 0,
            i == c / rows,
    ;
    assert(i < cols) by (nonlinear_arith)
        requires
            c == rows * i + j,
            0 <= j < rows,
            c < cols * rows,
            i >= 0,
    ;
    assert(slot(i, j, k, rows) == n) by (nonlinear_arith)
        requires
            c == rows * i + j,
            n == 8 * c + k,
    ;
    (i, j, k)
}

/// A grid whose samples are all finite and all in the band has no fragment
/// for it, and the band frames it: its rings are the frame ring alone.
pub proof fn lemma_frame_case(data: BorrowedGrid<Sample>, centers: BorrowedGrid<Sample>, opt: Settings)
    requires
        grids_match(data, centers),
        forall|n: int| 0 <= n < data@.len() ==> is_finite(#[trigger] data@[n]) && in_band(data@[n], opt),
    ensures
        !band_crosses(data, centers, opt),
        frame_required(data@, data.spec_width() as int, data.spec_height() as int, opt),
{
    let w = data.spec_width() as int;
    let h = data.spec_height() as int;
    assert forall|i: int, j: int, k: int|
        is_cell(i, j, w, h) && 0 <= k < 8 implies #[trigger] expected_fragment(data, centers, opt, i, j, k) is None by {
        crate::grid::lemma_flat_index(i, j, w, h);
        crate::grid::lemma_flat_index(i + 1, j, w, h);
        crate::grid::lemma_flat_index(i, j + 1, w, h);
        crate::grid::lemma_flat_index(i + 1, j + 1, w, h);
        let c = cell_corners(data, i, j);
        assert(data.at(i, j) == data@[j * w + i]);
        assert(data.at(i + 1, j) == data@[j * w + i + 1]);
        assert(data.at(i, j + 1) == data@[(j + 1) * w + i]);
        assert(data.at(i + 1, j + 1) == data@[(j + 1) * w + i + 1]);
        assert(corners_code(c, opt) == 85);
    }
    assert forall|x: int, y: int| on_border(x, y, w, h) implies in_band(#[trigger] data@[y * w + x], opt) by {
        crate::grid::lemma_flat_index(x, y, w, h);
    }
}

proof fn lemma_cell_slot(i: int, j: int, k: int, cols: int, rows: int)
    requires
        0 <= i < cols,
        0 <= j < rows,
        0 <= k < 8,
    ensures
        0 <= slot(i, j, k, rows) < cols * rows * 8,
        slot(i, j, k, rows) / 8 == i * rows + j,
        forall|i2: int, j2: int|
            0 <= i2 < cols && 0 <= j2 < rows && (i2 != i || j2 != j) ==> #[trigger] (i2 * rows + j2)
                != i * rows + j,
{
    crate::grid::lemma_flat_index(j, i, rows, cols);
    assert forall|i2: int, j2: int|
        0 <= i2 < cols && 0 <= j2 < rows && (i2 != i || j2 != j) implies #[trigger] (i2 * rows + j2)
        != i * rows + j by {
        if i2 * rows + j2 == i * rows + j {
            vstd::arithmetic::div_mod::lemma_fundamental_div_mod_converse(i * rows + j, rows, i, j);
            vstd::arithmetic::div_mod::lemma_fundamental_div_mod_converse(i * rows + j, rows, i2, j2);
        }
    }
}


/// Fills every cell of `cells` with its fragments for band `opt`.
fn fill_all_cells(
    data: &BorrowedGrid<Sample>,
    centers: &BorrowedGrid<Sample>,
    cells: &mut CellGrid,
    opt: &Settings,
) -> (r: Result<(), ErrorKind>)
    requires
        grids_match(*data, *centers),
        old(cells).wf(),
        old(cells).dims() == (data.spec_width() - 1, data.spec_height() - 1),
    ensures
        final(cells).wf(),
        final(cells).dims() == old(cells).dims(),
        r is Ok,
        grid_filled(*final(cells), *data, *centers, *opt),
{
    let cols = cells.cols();
    let rows = cells.rows();
    let empty: Vec<Option<Edge>> = vec![None, None, None, None, None, None, None, None];
    assert(empty@ =~= no_edges());
    let mut i: usize = 0;
    while i < cols
        invariant
            i <= cols,
            grids_match(*data, *centers),
            cells.wf(),
            cells.dims() == old(cells).dims(),
            cols == cells.dims().0,
            rows == cells.dims().1,
            cells.dims() == (data.spec_width() - 1, data.spec_height() - 1),
            empty@ == no_edges(),
            forall|i2: int, j2: int, k: int|
                0 <= i2 < i && 0 <= j2 < rows && 0 <= k < 8 ==> #[trigger] cells.fragment(i2, j2, k)
                    == expected_fragment(*data, *centers, *opt, i2, j2, k),
        decreases cols - i,
    {
        let mut j: usize = 0;
        while j < rows
            invariant
                i < cols,
                j <= rows,
                grids_match(*data, *centers),
                cells.wf(),
                cells.dims() == old(cells).dims(),
                cols == cells.dims().0,
                rows == cells.dims().1,
                cells.dims() == (data.spec_width() - 1, data.spec_height() - 1),
                empty@ == no_edges(),
                forall|i2: int, j2: int, k: int|
                    0 <= i2 < cols && 0 <= j2 < rows && 0 <= k < 8 && (i2 < i || (i2 == i && j2 < j))
                        ==> #[trigger] cells.fragment(i2, j2, k) == expected_fragment(
                        *data,
                        *centers,
                        *opt,
                        i2,
                        j2,
                        k,
                    ),
            decreases rows - j,
        {
            let ghost before = *cells;
            let center = *centers.index((i, j));
            match prepare_cell(i, j, data, center, opt) {
                Ok(Some(cell)) => {
                    cells.set_cell(i, j, &cell.edges);
                },
                Ok(None) => {
                    cells.set_cell(i, j, &empty);
                },
                Err(e) => {
                    return Err(e);
                },
            }
            proof {
                assert forall|i2: int, j2: int, k: int|
                    0 <= i2 < cols && 0 <= j2 < rows && 0 <= k < 8 && (i2 < i || (i2 == i && j2 < j + 1))
                        implies #[trigger] cells.fragment(i2, j2, k) == expected_fragment(
                        *data,
                        *centers,
                        *opt,
                        i2,
                        j2,
                        k,
                    ) by {
                    lemma_cell_slot(i as int, j as int, 0, cols as int, rows as int);
                    lemma_cell_slot(i2, j2, k, cols as int, rows as int);
                    if i2 != i || j2 != j {
                        assert(i2 * rows + j2 != i * rows + j);
                        assert(cells.fragment(i2, j2, k) == before.fragment(i2, j2, k));
                    }
                }
            }
            j = j + 1;
        }
        i = i + 1;
    }
    Ok(())
}

/// Fills the cells that `tree` gives for band `opt`, which is not inverted,
/// and empties the others: every cell then holds its fragments.
fn fill_cells_in_band(
    tree: &QuadTree,
    data: &BorrowedGrid<Sample>,
    centers: &BorrowedGrid<Sample>,
    cells: &mut CellGrid,
    opt: &Settings,
) -> (r: Result<(), ErrorKind>)
    requires
        grids_match(*data, *centers),
        tree.wf(),
        tree.grid() == (data@, data.spec_width() as int, data.spec_height() as int),
        old(cells).wf(),
        old(cells).dims() == (data.spec_width() - 1, data.spec_height() - 1),
        !inverted(*opt),
    ensures
        final(cells).wf(),
        final(cells).dims() == old(cells).dims(),
        r is Ok,
        grid_filled(*final(cells), *data, *centers, *opt),
{
    let cols = cells.cols();
    let rows = cells.rows();
    cells.clear();
    let empty: Vec<Option<Edge>> = vec![None, None, None, None, None, None, None, None];
    assert(empty@ =~= no_edges());
    let list = tree.cells_in_band(&opt.min_v, &opt.max_v);
    assert forall|i2: int, j2: int, k: int|
        0 <= i2 < cols && 0 <= j2 < rows && 0 <= k < 8 implies (#[trigger] cells.fragment(i2, j2, k)) is None by {
        lemma_cell_slot(i2, j2, k, cols as int, rows as int);
    }
    let mut t: usize = 0;
    while t < list.len()
        invariant
            t <= list@.len(),
            grids_match(*data, *centers),
            cells.wf(),
            cells.dims() == old(cells).dims(),
            cols == cells.dims().0,
            rows == cells.dims().1,
            cells.dims() == (data.spec_width() - 1, data.spec_height() - 1),
            tree.grid() == (data@, data.spec_width() as int, data.spec_height() as int),
            empty@ == no_edges(),
            forall|k: int|
                0 <= k < list@.len() ==> is_cell(
                    #[trigger] list@[k].0 as int,
                    list@[k].1 as int,
                    tree.grid().1,
                    tree.grid().2,
                ),
            forall|i2: int, j2: int, k: int|
                0 <= i2 < cols && 0 <= j2 < rows && 0 <= k < 8 ==> (#[trigger] cells.fragment(i2, j2, k)) is None
                    || cells.fragment(i2, j2, k) == expected_fragment(*data, *centers, *opt, i2, j2, k),
            forall|s: int, k: int|
                0 <= s < t && 0 <= k < 8 ==> #[trigger] cells.fragment(list@[s].0 as int, list@[s].1 as int, k)
                    == expected_fragment(*data, *centers, *opt, list@[s].0 as int, list@[s].1 as int, k),
        decreases list@.len() - t,
    {
        let (i, j) = list[t];
        let ghost before = *cells;
        let center = *centers.index((i, j));
        match prepare_cell(i, j, data, center, opt) {
            Ok(Some(cell)) => {
                cells.set_cell(i, j, &cell.edges);
            },
            Ok(None) => {
                cells.set_cell(i, j, &empty);
            },
            Err(e) => {
                return Err(e);
            },
        }
        proof {
            lemma_cell_slot(i as int, j as int, 0, cols as int, rows as int);
            assert forall|i2: int, j2: int, k: int|
                0 <= i2 < cols && 0 <= j2 < rows && 0 <= k < 8 implies (#[trigger] cells.fragment(i2, j2, k)) is None
                || cells.fragment(i2, j2, k) == expected_fragment(*data, *centers, *opt, i2, j2, k) by {
                lemma_cell_slot(i2, j2, k, cols as int, rows as int);
                if i2 != i || j2 != j {
                    assert(i2 * rows + j2 != i * rows + j);
                    assert(cells.fragment(i2, j2, k) == before.fragment(i2, j2, k));
                }
            }
            assert forall|s: int, k: int|
                0 <= s < t + 1 && 0 <= k < 8 implies #[trigger] cells.fragment(list@[s].0 as int, list@[s].1 as int, k)
                == expected_fragment(*data, *centers, *opt, list@[s].0 as int, list@[s].1 as int, k) by {
                let i2 = list@[s].0 as int;
                let j2 = list@[s].1 as int;
                lemma_cell_slot(i2, j2, k, cols as int, rows as int);
                if i2 != i || j2 != j {
                    assert(i2 * rows + j2 != i * rows + j);
                    assert(cells.fragment(i2, j2, k) == before.fragment(i2, j2, k));
                }
            }
        }
        t = t + 1;
    }
    proof {
        if !inverted(*opt) {
            assert forall|i: int, j: int, k: int|
                0 <= i < cols && 0 <= j < rows && 0 <= k < 8 implies #[trigger] cells.fragment(i, j, k)
                == expected_fragment(*data, *centers, *opt, i, j, k) by {
                let v = (i as usize, j as usize);
                if list@.contains(v) {
                    let s = choose|s: int| 0 <= s < list@.len() && list@[s] == v;
                    assert(cells.fragment(list@[s].0 as int, list@[s].1 as int, k) == expected_fragment(*data, *centers, *opt, list@[s].0 as int, list@[s].1 as int, k));
                } else {
                    assert(is_cell(i, j, tree.grid().1, tree.grid().2));
                    assert(cell_quiet(tree.grid().0, tree.grid().1, i, j, opt.min_v, opt.max_v));
                    lemma_quiet_cell_is_empty(*data, *centers, *opt, i, j, k);
                }
            }
        }
    }
    Ok(())
}


/// Some cell holds a fragment for band `opt`.
pub open spec fn band_crosses(data: BorrowedGrid<Sample>, centers: BorrowedGrid<Sample>, opt: Settings) -> bool {
    exists|i: int, j: int, k: int|
        #![trigger expected_fragment(data, centers, opt, i, j, k)]
        is_cell(i, j, data.spec_width() as int, data.spec_height() as int) && 0 <= k < 8
            && expected_fragment(data, centers, opt, i, j, k) is Some
}

/// What holds of the rings traced for a band `opt` over a grid `w` by `h`:
/// each is closed and on the grid, and the ring around the whole grid comes
/// first exactly when the band frames the grid.
pub open spec fn band_rings_wf(rings: Seq<Ring>, g: Seq<Sample>, w: int, h: int, opt: Settings) -> bool {
    &&& forall|k: int| 0 <= k < rings.len() ==> closed_ring(#[trigger] rings[k], w - 1, h - 1)
    &&& (frame_required(g, w, h, opt) <==> (rings.len() > 0 && rings[0]@ == frame_ring(w - 1, h - 1)))
}

/// The rings of band `opt`: every cell is classified (only those that
/// `tree` gives, when there is one and the band is not inverted), then the
/// fragments are traced. With or without the tree the tracer is handed the
/// same cells (see `lemma_filled_grids_equal`).
pub fn band_rings(
    data: &BorrowedGrid<Sample>,
    centers: &BorrowedGrid<Sample>,
    tree: Option<&QuadTree>,
    cells: &mut CellGrid,
    opt: &Settings,
) -> (rings: Vec<Ring>)
    requires
        grids_match(*data, *centers),
        tree matches Some(t) ==> t.wf() && t.grid() == (
            data@,
            data.spec_width() as int,
            data.spec_height() as int,
        ),
        old(cells).wf(),
        old(cells).dims() == (data.spec_width() - 1, data.spec_height() - 1),
    ensures
        final(cells).wf(),
        final(cells).dims() == old(cells).dims(),
        final(cells).is_empty(),
        band_rings_wf(rings@, data@, data.spec_width() as int, data.spec_height() as int, *opt),
        band_crosses(*data, *centers, *opt) ==> rings@.len() > frame_count(
            data@,
            data.spec_width() as int,
            data.spec_height() as int,
            *opt,
        ),
        !band_crosses(*data, *centers, *opt) ==> rings@.len() == frame_count(
            data@,
            data.spec_width() as int,
            data.spec_height() as int,
            *opt,
        ),
        ring_views(rings@) == band_spec(
            data@,
            data.spec_width() as int,
            data.spec_height() as int,
            centers@,
            *opt,
        ),
{
    let inverted_band = opt.max_v.less_than(&opt.min_v);
    match tree {
        Some(t) if !inverted_band => {
            let _ = fill_cells_in_band(t, data, centers, cells, opt);
        },
        _ => {
            let _ = fill_all_cells(data, centers, cells, opt);
        },
    }
    proof {
        if band_crosses(*data, *centers, *opt) {
            let (i, j, k) = choose|i: int, j: int, k: int|
                is_cell(i, j, data.spec_width() as int, data.spec_height() as int) && 0 <= k < 8
                    && #[trigger] expected_fragment(*data, *centers, *opt, i, j, k) is Some;
            assert(cells.fragment(i, j, k) is Some);
            lemma_cell_slot(i, j, k, cells.dims().0, cells.dims().1);
            crate::trace::lemma_live_some(cells@, slot(i, j, k, cells.dims().1));
        } else {
            lemma_filled_grid_empty(*cells, *data, *centers, *opt);
        }
        let w = data.spec_width() as int;
        let h = data.spec_height() as int;
        assert forall|n: int| 0 <= n < cells@.len() implies #[trigger] cells@[n] == filled_slots(data@, w, h, centers@, *opt)[n] by {
            let (i, j, k) = lemma_slot_parts(n, cells.dims().0, cells.dims().1);
            assert(cells.fragment(i, j, k) == expected_fragment(*data, *centers, *opt, i, j, k));
            assert(data.at(i, j) == data@[j * w + i]);
            assert(data.at(i + 1, j) == data@[j * w + i + 1]);
            assert(data.at(i + 1, j + 1) == data@[(j + 1) * w + i + 1]);
            assert(data.at(i, j + 1) == data@[(j + 1) * w + i]);
            assert(centers.at(i, j) == centers@[j * (w - 1) + i]);
        }
        assert(cells@ =~= filled_slots(data@, w, h, centers@, *opt));
    }
    trace_band_paths(data, cells, opt)
}

/// Slot `k` of cell `(i, j)` of the `w`-wide samples `g` for band `opt`,
/// where `cg` holds the cells' average samples: the fragment the classifier
/// puts there, if the cell's corners are finite.
pub open spec fn cell_fragment(g: Seq<Sample>, w: int, cg: Seq<Sample>, opt: Settings, i: int, j: int, k: int) -> Option<Edge> {
    let c = (g[j * w + i], g[j * w + i + 1], g[(j + 1) * w + i + 1], g[(j + 1) * w + i]);
    if corners_finite(c) {
        shape_edges(corners_code(c, opt), center_level_of(cg[j * (w - 1) + i], opt))[k]
    } else {
        None
    }
}

/// The fragment slots of all cells of a `w` by `h` grid for band `opt`.
pub open spec fn filled_slots(g: Seq<Sample>, w: int, h: int, cg: Seq<Sample>, opt: Settings) -> Seq<Option<Edge>> {
    Seq::new(
        ((w - 1) * (h - 1) * 8) as nat,
        |n: int| cell_fragment(g, w, cg, opt, (n / 8) / (h - 1), (n / 8) % (h - 1), n % 8),
    )
}

/// The rings of band `opt` over the `w` by `h` samples `g` with cell
/// averages `cg`: each ring's points, and whether its closing point was
/// added. A function of these values alone.
pub open spec fn band_spec(g: Seq<Sample>, w: int, h: int, cg: Seq<Sample>, opt: Settings) -> Seq<(Seq<RingPoint>, bool)> {
    traced(g, w, h, opt, filled_slots(g, w, h, cg, opt))
}

/// Each band of a multi-band call has the rings of a call for that band
/// alone: thresholds `t[b]` and the band's (possibly nudged) upper bound.
pub proof fn lemma_split_bands(
    g: Seq<Sample>,
    w: int,
    h: int,
    cg: Seq<Sample>,
    thresholds: Seq<Sample>,
    lowered: Seq<Sample>,
    b: int,
    other: Seq<Sample>,
)
    requires
        thresholds.len() >= 2,
        lowered.len() == thresholds.len(),
        0 <= b < thresholds.len() - 1,
        other.len() == 2,
    ensures
        ({
            let band = bands_of(thresholds, lowered)[b];
            band_spec(g, w, h, cg, band) == band_spec(
                g,
                w,
                h,
                cg,
                bands_of(seq![band.min_v, band.max_v], other)[0],
            )
        }),
{
    lemma_band_alone(thresholds, lowered, b, other);
    let band = bands_of(thresholds, lowered)[b];
    assert(bands_of(seq![band.min_v, band.max_v], other)[0] == band);
}

/// Why an input is refused, if it is: no samples at all, a sample count that
/// is not `width * height`, cell averages that are not one per cell, a grid
/// too large to index its cells' fragments, or fewer than two thresholds.
pub open spec fn input_error(data_len: int, centers_len: int, n_thresholds: int, width: int, height: int) -> Option<ErrorKind> {
    if data_len == 0 {
        Some(ErrorKind::BadData)
    } else if data_len != width * height {
        Some(ErrorKind::BadDimension)
    } else if centers_len != (width - 1) * (height - 1) || (width - 1) * (height - 1) * 8 > usize::MAX {
        Some(ErrorKind::BadDimension)
    } else if n_thresholds < 2 {
        Some(ErrorKind::BadIntervals)
    } else {
        None
    }
}

/// The isobands of a `width` by `height` grid of samples, given row after
/// row: for each pair of adjacent thresholds, the rings that bound the
/// region between them (see `bands_of` for the bands, whose upper bounds are
/// taken from `lowered` but for the last). Each band's rings are
/// `band_spec` of the samples, the averages and the band: the same on every
/// call, and the same with or without the quadtree. `centers` holds, for each cell
/// row after row, the average of its four corner samples.
pub fn isobands(
    data: &[Sample],
    centers: &[Sample],
    thresholds: &[Sample],
    lowered: &[Sample],
    use_quad_tree: bool,
    width: usize,
    height: usize,
) -> (r: Result<Vec<Vec<Ring>>, ErrorKind>)
    requires
        lowered@.len() == thresholds@.len(),
    ensures
        input_error(data@.len() as int, centers@.len() as int, thresholds@.len() as int, width as int, height as int) matches Some(e) ==> r == Err::<Vec<Vec<Ring>>, ErrorKind>(e),
        input_error(data@.len() as int, centers@.len() as int, thresholds@.len() as int, width as int, height as int) is None ==> r is Ok,
        r matches Ok(bands) ==> {
            &&& bands@.len() == thresholds@.len() - 1
            &&& forall|b: int| 0 <= b < bands@.len() ==> band_rings_wf(
                #[trigger] bands@[b]@,
                data@,
                width as int,
                height as int,
                bands_of(thresholds@, lowered@)[b],
            )
            &&& forall|b: int| 0 <= b < bands@.len() ==> ring_views(#[trigger] bands@[b]@) == band_spec(
                data@,
                width as int,
                height as int,
                centers@,
                bands_of(thresholds@, lowered@)[b],
            )
        },
{
    if data.len() == 0 {
        return Err(ErrorKind::BadData);
    }
    assert((width as int) * (height as int) <= (usize::MAX as int) * (usize::MAX as int)) by (nonlinear_arith)
        requires
            width <= usize::MAX,
            height <= usize::MAX,
    ;
    assert((usize::MAX as int) * (usize::MAX as int) <= u128::MAX) by (nonlinear_arith)
        requires
            usize::MAX <= u64::MAX,
    ;
    if data.len() as u128 != (width as u128) * (height as u128) {
        return Err(ErrorKind::BadDimension);
    }
    assert(width >= 1 && height >= 1) by (nonlinear_arith)
        requires
            data@.len() == width * height,
            data@.len() > 0,
    ;
    let cols = width - 1;
    let rows = height - 1;
    assert((cols as int) * (rows as int) <= (width as int) * (height as int)) by (nonlinear_arith)
        requires
            cols < width,
            rows < height,
    ;
    if centers.len() as u128 != (cols as u128) * (rows as u128) || (cols as u128) * (rows as u128)
        * 8 > usize::MAX as u128 {
        return Err(ErrorKind::BadDimension);
    }
    if thresholds.len() < 2 {
        return Err(ErrorKind::BadIntervals);
    }
    assert(input_error(
        data@.len() as int,
        centers@.len() as int,
        thresholds@.len() as int,
        width as int,
        height as int,
    ) is None);
    let grid = BorrowedGrid::new(data, width, height);
    let center_grid = BorrowedGrid::new(centers, cols, rows);
    let bands = band_settings(thresholds, lowered);
    let mut cells = CellGrid::new(cols, rows);
    let tree = if use_quad_tree {
        Some(QuadTree::new(&grid))
    } else {
        None
    };
    let mut res: Vec<Vec<Ring>> = Vec::new();
    let mut b: usize = 0;
    while b < bands.len()
        invariant
            b <= bands@.len(),
            bands@ == bands_of(thresholds@, lowered@),
            input_error(
                data@.len() as int,
                centers@.len() as int,
                thresholds@.len() as int,
                width as int,
                height as int,
            ) is None,
            grids_match(grid, center_grid),
            grid@ == data@,
            grid.spec_width() == width,
            grid.spec_height() == height,
            tree matches Some(t) ==> t.wf() && t.grid() == (data@, width as int, height as int),
            cells.wf(),
            cells.dims() == (width - 1, height - 1),
            res@.len() == b,
            forall|q: int| 0 <= q < b ==> band_rings_wf(
                #[trigger] res@[q]@,
                data@,
                width as int,
                height as int,
                bands_of(thresholds@, lowered@)[q],
            ),
            center_grid@ == centers@,
            forall|q: int| 0 <= q < b ==> ring_views(#[trigger] res@[q]@) == band_spec(
                data@,
                width as int,
                height as int,
                centers@,
                bands_of(thresholds@, lowered@)[q],
            ),
        decreases bands@.len() - b,
    {
        let t = match &tree {
            Some(t) => Some(t),
            None => None,
        };
        let rings = band_rings(&grid, &center_grid, t, &mut cells, &bands[b]);
        res.push(rings);
        b = b + 1;
    }
    Ok(res)
}

} // verus!
