//! The path tracer: stitches the fragments of all cells of one band into
//! closed rings, following the grid's border where a boundary runs along it.
use vstd::prelude::*;
use crate::errors::ErrorKind;
use crate::grid::{BorrowedGrid, lemma_flat_index};
use crate::sample::{Sample, Settings, in_band};
use crate::shape::{CellPoint, Corner, Edge, EnterType, InterpKind, Side, edge_wf, edges_wf};

verus! {

/// A point of the sample grid.
#[derive(Clone, Copy, Debug, PartialEq, Eq, Structural)]
pub struct GridPoint {
    pub x: usize,
    pub y: usize,
}

/// An interpolated position between two grid points, from the sample at
/// `from` to the sample at `to`.
#[derive(Clone, Copy, Debug, PartialEq, Eq, Structural)]
pub struct GridInterpolation {
    pub kind: InterpKind,
    pub from: GridPoint,
    pub to: GridPoint,
}

/// A point of a ring, in grid coordinates.
#[derive(Clone, Copy, Debug, PartialEq, Eq, Structural)]
pub enum RingPoint {
    /// The grid point `(x, y)`.
    Vertex { x: usize, y: usize },
    /// `(x, y + t)`: on the grid line `x`, between rows `y` and `y + 1`.
    OnVertical { x: usize, y: usize, t: GridInterpolation },
    /// `(x + t, y)`: on the grid line `y`, between columns `x` and `x + 1`.
    OnHorizontal { x: usize, y: usize, t: GridInterpolation },
}

/// A ring traced for a band: its first and last points are the same.
/// `closing_added` tells that the walk ended elsewhere and the first point
/// was repeated at the end to close it.
#[derive(Debug)]
pub struct Ring {
    pub points: Vec<RingPoint>,
    pub closing_added: bool,
}

impl View for Ring {
    type V = Seq<RingPoint>;

    open spec fn view(&self) -> Seq<RingPoint> {
        self.points@
    }
}

/// The grid point at corner `c` of cell `(i, j)`.
pub open spec fn corner_coord(i: int, j: int, c: Corner) -> (int, int) {
    match c {
        Corner::BottomLeft => (i, j),
        Corner::BottomRight => (i + 1, j),
        Corner::TopRight => (i + 1, j + 1),
        Corner::TopLeft => (i, j + 1),
    }
}

/// A grid point of a grid with `cols` by `rows` cells.
pub open spec fn coord_in_grid(p: GridPoint, cols: int, rows: int) -> bool {
    p.x <= cols && p.y <= rows
}

/// A ring point lies on the grid of `cols` by `rows` cells.
pub open spec fn point_in_grid(p: RingPoint, cols: int, rows: int) -> bool {
    match p {
        RingPoint::Vertex { x, y } => x <= cols && y <= rows,
        RingPoint::OnVertical { x, y, t } => x <= cols && y < rows && coord_in_grid(t.from, cols, rows)
            && coord_in_grid(t.to, cols, rows),
        RingPoint::OnHorizontal { x, y, t } => x < cols && y <= rows && coord_in_grid(t.from, cols, rows)
            && coord_in_grid(t.to, cols, rows),
    }
}

/// The ring point for the cell point `p` of cell `(i, j)`.
pub open spec fn global_point(i: int, j: int, p: CellPoint) -> RingPoint {
    let a = corner_coord(i, j, p.t.from);
    let b = corner_coord(i, j, p.t.to);
    let t = GridInterpolation {
        kind: p.t.kind,
        from: GridPoint { x: a.0 as usize, y: a.1 as usize },
        to: GridPoint { x: b.0 as usize, y: b.1 as usize },
    };
    match p.side {
        Side::Left => RingPoint::OnVertical { x: i as usize, y: j as usize, t },
        Side::Right => RingPoint::OnVertical { x: (i + 1) as usize, y: j as usize, t },
        Side::Bottom => RingPoint::OnHorizontal { x: i as usize, y: j as usize, t },
        Side::Top => RingPoint::OnHorizontal { x: i as usize, y: (j + 1) as usize, t },
    }
}

fn corner_at(i: usize, j: usize, c: Corner) -> (r: GridPoint)
    requires
        i < usize::MAX,
        j < usize::MAX,
    ensures
        r.x == corner_coord(i as int, j as int, c).0,
        r.y == corner_coord(i as int, j as int, c).1,
{
    match c {
        Corner::BottomLeft => GridPoint { x: i, y: j },
        Corner::BottomRight => GridPoint { x: i + 1, y: j },
        Corner::TopRight => GridPoint { x: i + 1, y: j + 1 },
        Corner::TopLeft => GridPoint { x: i, y: j + 1 },
    }
}

/// The ring point of the cell point `p` of cell `(i, j)`.
pub fn to_ring_point(i: usize, j: usize, p: &CellPoint) -> (r: RingPoint)
    requires
        i < usize::MAX,
        j < usize::MAX,
    ensures
        r == global_point(i as int, j as int, *p),
{
    let t = GridInterpolation {
        kind: p.t.kind,
        from: corner_at(i, j, p.t.from),
        to: corner_at(i, j, p.t.to),
    };
    match p.side {
        Side::Left => RingPoint::OnVertical { x: i, y: j, t },
        Side::Right => RingPoint::OnVertical { x: i + 1, y: j, t },
        Side::Bottom => RingPoint::OnHorizontal { x: i, y: j, t },
        Side::Top => RingPoint::OnHorizontal { x: i, y: j + 1, t },
    }
}

/// The number of filled slots.
pub open spec fn live(s: Seq<Option<Edge>>) -> nat
    decreases s.len(),
{
    if s.len() == 0 {
        0
    } else {
        live(s.drop_last()) + if s.last() is Some {
            1nat
        } else {
            0nat
        }
    }
}

pub proof fn lemma_live_take(s: Seq<Option<Edge>>, n: int)
    requires
        0 <= n < s.len(),
        s[n] is Some,
    ensures
        live(s.update(n, None)) + 1 == live(s),
    decreases s.len(),
{
    let t = s.update(n, None);
    if n == s.len() - 1 {
        assert(t.drop_last() =~= s.drop_last());
    } else {
        lemma_live_take(s.drop_last(), n);
        assert(t.drop_last() =~= s.drop_last().update(n, None));
    }
}

/// The fragments of every cell of a grid with `cols` by `rows` cells for one
/// band: eight slots per cell, one per `EnterType`.
pub struct CellGrid {
    cols: usize,
    rows: usize,
    edges: Vec<Option<Edge>>,
}

/// The slot of crossing `k` of cell `(i, j)` among the slots of all cells.
pub open spec fn slot(i: int, j: int, k: int, rows: int) -> int {
    (i * rows + j) * 8 + k
}

pub proof fn lemma_slot(i: int, j: int, k: int, cols: int, rows: int)
    requires
        0 <= i < cols,
        0 <= j < rows,
        0 <= k < 8,
    ensures
        0 <= slot(i, j, k, rows) < cols * rows * 8,
        slot(i, j, k, rows) % 8 == k,
        slot(i, j, k, rows) / 8 == i * rows + j,
        0 <= i * rows + j < cols * rows,
{
    lemma_flat_index(j, i, rows, cols);
}

impl CellGrid {
    pub closed spec fn dims(&self) -> (int, int) {
        (self.cols as int, self.rows as int)
    }

    pub closed spec fn view(&self) -> Seq<Option<Edge>> {
        self.edges@
    }

    /// The fragment in slot `k` of cell `(i, j)`.
    pub open spec fn fragment(&self, i: int, j: int, k: int) -> Option<Edge> {
        self@[slot(i, j, k, self.dims().1)]
    }

    /// Every slot of every cell is empty or holds a consistent fragment.
    pub open spec fn wf(&self) -> bool {
        &&& self@.len() == self.dims().0 * self.dims().1 * 8
        &&& self.dims().0 * self.dims().1 * 8 <= usize::MAX
        &&& self.dims().0 >= 0
        &&& self.dims().1 >= 0
        &&& forall|n: int| 0 <= n < self@.len() && (#[trigger] self@[n]) is Some ==> edge_wf(n % 8, self@[n]->Some_0)
    }

    pub open spec fn is_empty(&self) -> bool {
        forall|n: int| 0 <= n < self@.len() ==> (#[trigger] self@[n]) is None
    }

    /// An empty grid of `cols` by `rows` cells.
    pub fn new(cols: usize, rows: usize) -> (g: CellGrid)
        requires
            cols * rows * 8 <= usize::MAX,
        ensures
            g.wf(),
            g.is_empty(),
            g.dims() == (cols as int, rows as int),
    {
        let n = cols * rows * 8;
        let mut edges: Vec<Option<Edge>> = Vec::new();
        let mut k: usize = 0;
        while k < n
            invariant
                k <= n,
                edges@.len() == k,
                forall|m: int| 0 <= m < k ==> (#[trigger] edges@[m]) is None,
            decreases n - k,
        {
            edges.push(None);
            k = k + 1;
        }
        CellGrid { cols, rows, edges }
    }

    pub fn cols(&self) -> (r: usize)
        ensures
            r == self.dims().0,
    {
        self.cols
    }

    pub fn rows(&self) -> (r: usize)
        ensures
            r == self.dims().1,
    {
        self.rows
    }

    /// Empties every slot.
    pub fn clear(&mut self)
        requires
            old(self).wf(),
        ensures
            final(self).wf(),
            final(self).is_empty(),
            final(self).dims() == old(self).dims(),
    {
        let n = self.edges.len();
        let mut k: usize = 0;
        while k < n
            invariant
                k <= n,
                n == self@.len(),
                self.dims() == old(self).dims(),
                self.wf(),
                forall|m: int| 0 <= m < k ==> (#[trigger] self@[m]) is None,
            decreases n - k,
        {
            self.edges.set(k, None);
            k = k + 1;
        }
    }

    /// Puts the eight slots `cell` into cell `(i, j)`.
    pub fn set_cell(&mut self, i: usize, j: usize, cell: &Vec<Option<Edge>>)
        requires
            old(self).wf(),
            i < old(self).dims().0,
            j < old(self).dims().1,
            edges_wf(cell@),
        ensures
            final(self).wf(),
            final(self).dims() == old(self).dims(),
            forall|k: int| 0 <= k < 8 ==> #[trigger] final(self).fragment(i as int, j as int, k) == cell@[k],
            forall|n: int|
                0 <= n < old(self)@.len() && n / 8 != i * old(self).dims().1 + j ==> #[trigger] final(self)@[n]
                    == old(self)@[n],
    {
        proof {
            lemma_slot(i as int, j as int, 0, self.cols as int, self.rows as int);
        }
        let base = (i * self.rows + j) * 8;
        let mut k: usize = 0;
        while k < 8
            invariant
                k <= 8,
                base == slot(i as int, j as int, 0, self.dims().1),
                base + 8 <= self@.len(),
                base % 8 == 0,
                self.dims() == old(self).dims(),
                self@.len() == old(self)@.len(),
                self.wf(),
                edges_wf(cell@),
                forall|m: int| 0 <= m < k ==> #[trigger] self@[base + m] == cell@[m],
                forall|n: int|
                    0 <= n < old(self)@.len() && (n < base || n >= base + k) ==> #[trigger] self@[n]
                        == old(self)@[n],
            decreases 8 - k,
        {
            self.edges.set(base + k, cell[k]);
            proof {
                assert((base + k) % 8 == k as int);
            }
            k = k + 1;
        }
        proof {
            assert forall|k: int| 0 <= k < 8 implies #[trigger] self.fragment(i as int, j as int, k)
                == cell@[k] by {
                lemma_slot(i as int, j as int, k, self.cols as int, self.rows as int);
            }
            assert forall|n: int|
                0 <= n < old(self)@.len() && n / 8 != i * old(self).dims().1 + j implies #[trigger] self@[n]
                == old(self)@[n] by {
            }
        }
    }

    /// The fragment in slot `e` of cell `(i, j)`.
    pub fn get(&self, i: usize, j: usize, e: EnterType) -> (r: Option<Edge>)
        requires
            self.wf(),
            i < self.dims().0,
            j < self.dims().1,
        ensures
            r == self.fragment(i as int, j as int, e.spec_index()),
    {
        proof {
            lemma_slot(i as int, j as int, e.spec_index(), self.cols as int, self.rows as int);
        }
        self.edges[(i * self.rows + j) * 8 + e.index()]
    }

    /// Removes and returns the fragment in slot `e` of cell `(i, j)`.
    pub fn take(&mut self, i: usize, j: usize, e: EnterType) -> (r: Option<Edge>)
        requires
            old(self).wf(),
            i < old(self).dims().0,
            j < old(self).dims().1,
        ensures
            final(self).wf(),
            final(self).dims() == old(self).dims(),
            r == old(self).fragment(i as int, j as int, e.spec_index()),
            final(self)@ == old(self)@.update(slot(i as int, j as int, e.spec_index(), old(self).dims().1), None),
            r is Some ==> live(final(self)@) < live(old(self)@),
            r is None ==> final(self)@ == old(self)@,
            r is Some ==> edge_wf(e.spec_index(), r->Some_0),
    {
        proof {
            lemma_slot(i as int, j as int, e.spec_index(), self.cols as int, self.rows as int);
        }
        let n = (i * self.rows + j) * 8 + e.index();
        let r = self.edges[n];
        proof {
            if r is Some {
                lemma_live_take(self.edges@, n as int);
            }
        }
        self.edges.set(n, None);
        proof {
            if r is None {
                assert(self.edges@ =~= old(self).edges@);
            }
        }
        r
    }
}


/// The side along which the border walk goes on after leaving a cell through
/// the crossing `e`: 0 down, 1 left, 2 up, 3 right.
pub open spec fn spec_entry_dir(e: EnterType) -> int {
    match e {
        EnterType::RT | EnterType::RB => 0,
        EnterType::BL | EnterType::BR => 1,
        EnterType::LB | EnterType::LT => 2,
        EnterType::TL | EnterType::TR => 3,
    }
}

fn entry_dir(e: EnterType) -> (r: usize)
    ensures
        r == spec_entry_dir(e),
{
    match e {
        EnterType::RT | EnterType::RB => 0,
        EnterType::BL | EnterType::BR => 1,
        EnterType::LB | EnterType::LT => 2,
        EnterType::TL | EnterType::TR => 3,
    }
}

/// The two crossings at which a boundary may come back into the grid from
/// a border walk in direction `dir`, in the order they are tried.
fn valid_entry(dir: usize, s: usize) -> (r: EnterType)
    requires
        dir < 4,
        s < 2,
    ensures
        r == valid_entry_spec(dir as int, s as int),
{
    if dir == 0 {
        if s == 0 { EnterType::RT } else { EnterType::RB }
    } else if dir == 1 {
        if s == 0 { EnterType::BR } else { EnterType::BL }
    } else if dir == 2 {
        if s == 0 { EnterType::LB } else { EnterType::LT }
    } else {
        if s == 0 { EnterType::TL } else { EnterType::TR }
    }
}

/// The step of a border walk in direction `dir`.
pub open spec fn walk_step(dir: int) -> (int, int) {
    if dir == 0 {
        (0, -1)
    } else if dir == 1 {
        (-1, 0)
    } else if dir == 2 {
        (0, 1)
    } else {
        (1, 0)
    }
}

/// How many steps a border walk in direction `dir` from cell `(x, y)` can
/// take before it leaves the grid.
pub open spec fn border_dist(x: int, y: int, dir: int, cols: int, rows: int) -> int {
    if dir == 0 {
        y
    } else if dir == 1 {
        x
    } else if dir == 2 {
        rows - 1 - y
    } else {
        cols - 1 - x
    }
}

/// The grid point a border walk in direction `dir` passes when it leaves
/// cell `(x, y)`.
fn skip_point(x: usize, y: usize, dir: usize) -> (r: RingPoint)
    requires
        x < usize::MAX,
        y < usize::MAX,
    ensures
        r == (if dir == 0 {
            RingPoint::Vertex { x: (x + 1) as usize, y }
        } else if dir == 1 {
            RingPoint::Vertex { x, y }
        } else if dir == 2 {
            RingPoint::Vertex { x, y: (y + 1) as usize }
        } else {
            RingPoint::Vertex { x: (x + 1) as usize, y: (y + 1) as usize }
        }),
{
    if dir == 0 {
        RingPoint::Vertex { x: x + 1, y }
    } else if dir == 1 {
        RingPoint::Vertex { x, y }
    } else if dir == 2 {
        RingPoint::Vertex { x, y: y + 1 }
    } else {
        RingPoint::Vertex { x: x + 1, y: y + 1 }
    }
}

pub open spec fn in_cells(x: int, y: int, cols: int, rows: int) -> bool {
    0 <= x < cols && 0 <= y < rows
}

/// Every point of `path` lies on the grid.
pub open spec fn path_in_grid(path: Seq<RingPoint>, cols: int, rows: int) -> bool {
    forall|k: int| 0 <= k < path.len() ==> point_in_grid(#[trigger] path[k], cols, rows)
}

/// `after` holds no fragment that `before` did not hold in the same slot.
pub open spec fn only_taken(before: Seq<Option<Edge>>, after: Seq<Option<Edge>>) -> bool {
    &&& after.len() == before.len()
    &&& forall|n: int| 0 <= n < after.len() && (#[trigger] after[n]) is Some ==> after[n] == before[n]
}

proof fn lemma_global_in_grid(i: int, j: int, p: CellPoint, cols: int, rows: int)
    requires
        in_cells(i, j, cols, rows),
    ensures
        point_in_grid(global_point(i, j, p), cols, rows),
        !(global_point(i, j, p) is Vertex),
{
}

/// One step of a border walk in direction `dir` from cell `(x, y)`: to the
/// next cell, or, where that would leave the grid, a turn to the next
/// direction in place.
fn border_step(x: i64, y: i64, dir: usize, cols: i64, rows: i64) -> (r: (i64, i64, usize))
    requires
        in_cells(x as int, y as int, cols as int, rows as int),
        dir < 4,
    ensures
        in_cells(r.0 as int, r.1 as int, cols as int, rows as int),
        r.2 < 4,
        r.2 == dir ==> (r.0 - x, r.1 - y) == walk_step(dir as int) && border_dist(
            r.0 as int,
            r.1 as int,
            dir as int,
            cols as int,
            rows as int,
        ) < border_dist(x as int, y as int, dir as int, cols as int, rows as int),
        r.2 != dir ==> r.0 == x && r.1 == y && r.2 == (dir + 1) % 4,
        (r.0 as int, r.1 as int, r.2 as int) == border_step_spec(x as int, y as int, dir as int, cols as int, rows as int),
{
    let (nx, ny) = if dir == 0 {
        (x, y - 1)
    } else if dir == 1 {
        (x - 1, y)
    } else if dir == 2 {
        (x, y + 1)
    } else {
        (x + 1, y)
    };
    if !(0 <= nx && nx < cols && 0 <= ny && ny < rows) && ((dir == 0 && ny < 0) || (dir == 1 && nx
        < 0) || (dir == 2 && ny == rows) || (dir == 3 && nx == cols)) {
        (x, y, (dir + 1) % 4)
    } else {
        (nx, ny, dir)
    }
}

/// The first of the two crossings of cell `(x, y)` at which a border walk
/// in direction `dir` may come back into the grid that holds a fragment.
fn find_reentry(cells: &CellGrid, x: usize, y: usize, dir: usize) -> (r: Option<EnterType>)
    requires
        cells.wf(),
        in_cells(x as int, y as int, cells.dims().0, cells.dims().1),
        dir < 4,
    ensures
        r matches Some(e) ==> cells.fragment(x as int, y as int, e.spec_index()) is Some,
        r == reentry(cells@, cells.dims().1, x as int, y as int, dir as int),
{
    let mut s: usize = 0;
    while s < 2
        invariant
            s <= 2,
            dir < 4,
            cells.wf(),
            in_cells(x as int, y as int, cells.dims().0, cells.dims().1),
            s >= 1 ==> frag_at(cells@, cells.dims().1, x as int, y as int, valid_entry_spec(dir as int, 0)) is None,
            s >= 2 ==> frag_at(cells@, cells.dims().1, x as int, y as int, valid_entry_spec(dir as int, 1)) is None,
        decreases 2 - s,
    {
        let ve = valid_entry(dir, s);
        if cells.get(x, y, ve).is_some() {
            return Some(ve);
        }
        s = s + 1;
    }
    None
}


pub open spec fn valid_entry_spec(dir: int, s: int) -> EnterType {
    if dir == 0 {
        if s == 0 { EnterType::RT } else { EnterType::RB }
    } else if dir == 1 {
        if s == 0 { EnterType::BR } else { EnterType::BL }
    } else if dir == 2 {
        if s == 0 { EnterType::LB } else { EnterType::LT }
    } else {
        if s == 0 { EnterType::TL } else { EnterType::TR }
    }
}

/// The fragment in slot `e` of cell `(x, y)` of the slots `s`.
pub open spec fn frag_at(s: Seq<Option<Edge>>, rows: int, x: int, y: int, e: EnterType) -> Option<Edge> {
    s[slot(x, y, e.spec_index(), rows)]
}

/// The first crossing of cell `(x, y)` at which a border walk in direction
/// `dir` comes back into the grid.
pub open spec fn reentry(s: Seq<Option<Edge>>, rows: int, x: int, y: int, dir: int) -> Option<EnterType> {
    if frag_at(s, rows, x, y, valid_entry_spec(dir, 0)) is Some {
        Some(valid_entry_spec(dir, 0))
    } else if frag_at(s, rows, x, y, valid_entry_spec(dir, 1)) is Some {
        Some(valid_entry_spec(dir, 1))
    } else {
        None
    }
}

/// One border step: to the next cell in direction `dir`, or a turn in place
/// where that would leave the grid.
pub open spec fn border_step_spec(x: int, y: int, dir: int, cols: int, rows: int) -> (int, int, int) {
    let (nx, ny) = if dir == 0 {
        (x, y - 1)
    } else if dir == 1 {
        (x - 1, y)
    } else if dir == 2 {
        (x, y + 1)
    } else {
        (x + 1, y)
    };
    if !in_cells(nx, ny, cols, rows) && ((dir == 0 && ny < 0) || (dir == 1 && nx < 0) || (dir == 2
        && ny == rows) || (dir == 3 && nx == cols)) {
        (x, y, (dir + 1) % 4)
    } else {
        (nx, ny, dir)
    }
}

/// The grid point a border walk passes when it leaves cell `(x, y)`.
pub open spec fn skip_spec(x: int, y: int, dir: int) -> RingPoint {
    if dir == 0 {
        RingPoint::Vertex { x: (x + 1) as usize, y: y as usize }
    } else if dir == 1 {
        RingPoint::Vertex { x: x as usize, y: y as usize }
    } else if dir == 2 {
        RingPoint::Vertex { x: x as usize, y: (y + 1) as usize }
    } else {
        RingPoint::Vertex { x: (x + 1) as usize, y: (y + 1) as usize }
    }
}

/// Where a walk that stepped out of the grid to `(x, y)` is put back, and
/// the direction its border walk takes.
pub open spec fn clamp(x: int, y: int, cols: int, rows: int) -> Option<(int, int, int)> {
    if x == cols {
        Some((x - 1, y, 0))
    } else if x < 0 {
        Some((x + 1, y, 2))
    } else if y == rows {
        Some((x, y - 1, 3))
    } else if y < 0 {
        Some((x, y + 1, 1))
    } else {
        None
    }
}

pub open spec fn dist_nat(x: int, y: int, dir: int, cols: int, rows: int) -> nat {
    let d = border_dist(x, y, dir, cols, rows);
    if d >= 0 {
        d as nat
    } else {
        0
    }
}

/// The walk of a ring that started at crossing `start` of cell `(i, j)`,
/// now entering cell `(x, y)` at crossing `enter` with points `path`: it
/// takes the fragment there, adds its end point, and goes on into the next
/// cell, or along the border where it leaves the grid. It ends where no
/// fragment is left to take, and gives the slots left and the points.
pub open spec fn walk(
    cols: int,
    rows: int,
    i: int,
    j: int,
    start: EnterType,
    s: Seq<Option<Edge>>,
    x: int,
    y: int,
    enter: EnterType,
    path: Seq<RingPoint>,
) -> (Seq<Option<Edge>>, Seq<RingPoint>)
    decreases live(s), 0nat, 0nat, 0nat,
{
    if !(in_cells(x, y, cols, rows) && s.len() == cols * rows * 8) {
        (s, path)
    } else {
        let n = slot(x, y, enter.spec_index(), rows);
        match s[n] {
            None => (s, path),
            Some(e) => {
                proof {
                    lemma_slot(x, y, enter.spec_index(), cols, rows);
                    lemma_live_take(s, n);
                }
                let s2 = s.update(n, None);
                let path2 = path.push(global_point(x, y, e.end));
                let nx = x + e.move_info.x as int;
                let ny = y + e.move_info.y as int;
                if in_cells(nx, ny, cols, rows) {
                    walk(cols, rows, i, j, start, s2, nx, ny, e.move_info.enter, path2)
                } else {
                    match clamp(nx, ny, cols, rows) {
                        None => (s2, path2),
                        Some((cx, cy, dir)) => if cx == i && cy == j && dir == spec_entry_dir(start) {
                            (s2, path2)
                        } else {
                            border_walk(cols, rows, i, j, start, s2, cx, cy, dir, 0, path2)
                        },
                    }
                }
            },
        }
    }
}

/// The border part of a ring's walk, at cell `(x, y)` going in direction
/// `dir` after `count` turns: it comes back in at the first crossing there
/// that holds a fragment, or passes the cell's corner and steps on. It ends
/// back at the ring's start, or after more than four turns.
pub open spec fn border_walk(
    cols: int,
    rows: int,
    i: int,
    j: int,
    start: EnterType,
    s: Seq<Option<Edge>>,
    x: int,
    y: int,
    dir: int,
    count: int,
    path: Seq<RingPoint>,
) -> (Seq<Option<Edge>>, Seq<RingPoint>)
    decreases live(s), 1nat, (5 - count) as nat, dist_nat(x, y, dir, cols, rows),
{
    if !(in_cells(x, y, cols, rows) && 0 <= dir && dir < 4 && 0 <= count && s.len() == cols * rows * 8) {
        (s, path)
    } else if count > 4 {
        (s, path)
    } else {
        match reentry(s, rows, x, y, dir) {
            Some(ve) => walk(
                cols,
                rows,
                i,
                j,
                start,
                s,
                x,
                y,
                ve,
                path.push(global_point(x, y, frag_at(s, rows, x, y, ve)->Some_0.start)),
            ),
            None => {
                let path2 = path.push(skip_spec(x, y, dir));
                let (nx, ny, nd) = border_step_spec(x, y, dir, cols, rows);
                let count2 = if nd != dir {
                    count + 1
                } else {
                    count
                };
                if nx == i && ny == j && nd == spec_entry_dir(start) {
                    (s, path2)
                } else {
                    border_walk(cols, rows, i, j, start, s, nx, ny, nd, count2, path2)
                }
            },
        }
    }
}

/// The ring that starts at crossing `start` of cell `(i, j)`: the slots left
/// after its walk, its points, closed by repeating the first one where the
/// walk ended elsewhere, and whether it was.
pub open spec fn ring_of(cols: int, rows: int, i: int, j: int, start: EnterType, s: Seq<Option<Edge>>) -> (
    Seq<Option<Edge>>,
    Seq<RingPoint>,
    bool,
) {
    let origin = global_point(i, j, frag_at(s, rows, i, j, start)->Some_0.start);
    let w = walk(cols, rows, i, j, start, s, i, j, start, seq![origin]);
    let closing = w.1.last() != origin;
    (w.0, if closing {
        w.1.push(origin)
    } else {
        w.1
    }, closing)
}

/// Follows one ring from the fragment that starts at crossing `start` of
/// cell `(i, j)`, taking each fragment it passes out of `cells` (see
/// `ring_of`). A border walk that has turned more than four times without
/// coming back in or reaching the start ends the ring there.
#[verifier::rlimit(100)]
#[verifier::spinoff_prover]
fn trace_ring(cells: &mut CellGrid, i: usize, j: usize, start: EnterType) -> (ring: Ring)
    requires
        old(cells).wf(),
        in_cells(i as int, j as int, old(cells).dims().0, old(cells).dims().1),
        old(cells).fragment(i as int, j as int, start.spec_index()) is Some,
    ensures
        final(cells).wf(),
        final(cells).dims() == old(cells).dims(),
        only_taken(old(cells)@, final(cells)@),
        final(cells).fragment(i as int, j as int, start.spec_index()) is None,
        live(final(cells)@) < live(old(cells)@),
        ring@.len() >= 2,
        ring@[0] == ring@.last(),
        ring.closing_added ==> ring@.len() >= 3 && ring@[ring@.len() - 2] != ring@[0],
        ring@[0] == global_point(
            i as int,
            j as int,
            old(cells).fragment(i as int, j as int, start.spec_index())->Some_0.start,
        ),
        path_in_grid(ring@, old(cells).dims().0, old(cells).dims().1),
        (final(cells)@, ring@, ring.closing_added) == ring_of(
            old(cells).dims().0,
            old(cells).dims().1,
            i as int,
            j as int,
            start,
            old(cells)@,
        ),
{
    let ghost cols_i = cells.dims().0;
    let ghost rows_i = cells.dims().1;
    let cols = cells.cols();
    let rows = cells.rows();
    proof {
        lemma_slot(i as int, j as int, start.spec_index(), cols as int, rows as int);
        assert(cols * rows * 8 <= usize::MAX);
        assert(cols <= usize::MAX / 8) by (nonlinear_arith)
            requires
                cols * rows * 8 <= usize::MAX,
                rows >= 1,
        ;
        assert(rows <= usize::MAX / 8) by (nonlinear_arith)
            requires
                cols * rows * 8 <= usize::MAX,
                cols >= 1,
        ;
    }
    assert(cols as i64 == cols as int);
    assert(rows as i64 == rows as int);
    let first = cells.get(i, j, start);
    let first_edge = first.unwrap();
    let origin = to_ring_point(i, j, &first_edge.start);
    proof {
        lemma_global_in_grid(i as int, j as int, first_edge.start, cols as int, rows as int);
    }
    let mut path: Vec<RingPoint> = vec![origin];
    let mut enter = start;
    let mut x: i64 = i as i64;
    let mut y: i64 = j as i64;
    let ghost start_slot = slot(i as int, j as int, start.spec_index(), rows as int);
    assert(path@ =~= seq![origin]);
    let ghost w0 = walk(cols as int, rows as int, i as int, j as int, start, old(cells)@, i as int, j as int, start, seq![origin]);
    loop
        invariant_except_break
            w0 == walk(cols as int, rows as int, i as int, j as int, start, cells@, x as int, y as int, enter, path@),
        invariant
            cells.wf(),
            cells.dims() == old(cells).dims(),
            cols == cells.dims().0,
            rows == cells.dims().1,
            cols >= 1,
            rows >= 1,
            cols <= usize::MAX / 8,
            rows <= usize::MAX / 8,
            only_taken(old(cells)@, cells@),
            in_cells(x as int, y as int, cols as int, rows as int),
            in_cells(i as int, j as int, cols as int, rows as int),
            cols as i64 == cols as int,
            rows as i64 == rows as int,
            path@.len() >= 1,
            path@[0] == origin,
            origin == global_point(i as int, j as int, first_edge.start),
            first == old(cells).fragment(i as int, j as int, start.spec_index()),
            first == Some(first_edge),
            start_slot == slot(i as int, j as int, start.spec_index(), rows as int),
            0 <= start_slot < cells@.len(),
            path_in_grid(path@, cols as int, rows as int),
            path@.len() == 1 ==> x == i && y == j && enter == start && cells@ == old(cells)@,
            path@.len() >= 2 ==> cells@[start_slot] is None,
            path@.len() >= 2 ==> live(cells@) < live(old(cells)@),
        ensures
            cells.wf(),
            cells.dims() == old(cells).dims(),
            only_taken(old(cells)@, cells@),
            path@.len() >= 2,
            path@[0] == origin,
            path_in_grid(path@, cols as int, rows as int),
            cells@[start_slot] is None,
            live(cells@) < live(old(cells)@),
            w0 == (cells@, path@),
        decreases live(cells@),
    {
        let xu = x as usize;
        let yu = y as usize;
        let ghost before = cells@;
        proof {
            lemma_slot(x as int, y as int, enter.spec_index(), cols as int, rows as int);
        }
        let taken = cells.take(xu, yu, enter);
        proof {
            assert forall|n: int| 0 <= n < cells@.len() && (#[trigger] cells@[n]) is Some implies cells@[n]
                == old(cells)@[n] by {
                assert(before[n] is Some);
            }
            if path@.len() == 1 {
                assert(taken == first);
            }
            assert(cells@[start_slot] is None || path@.len() == 1);
        }
        let e = match taken {
            None => {
                break;
            },
            Some(e) => e,
        };
        proof {
            lemma_global_in_grid(x as int, y as int, e.end, cols as int, rows as int);
        }
        path.push(to_ring_point(xu, yu, &e.end));
        enter = e.move_info.enter;
        x = x + e.move_info.x as i64;
        y = y + e.move_info.y as i64;
        if !(0 <= x && x < cols as i64 && 0 <= y && y < rows as i64) {
            let mut dir: usize = 0;
            if x == cols as i64 {
                x = x - 1;
                dir = 0;
            } else if x < 0 {
                x = x + 1;
                dir = 2;
            } else if y == rows as i64 {
                y = y - 1;
                dir = 3;
            } else if y < 0 {
                y = y + 1;
                dir = 1;
            } else {
                break;
            }
            if x == i as i64 && y == j as i64 && dir == entry_dir(start) {
                break;
            }
            let mut count: usize = 0;
            let mut finalized = false;
            loop
                invariant_except_break
                    !finalized,
                    w0 == border_walk(cols as int, rows as int, i as int, j as int, start, cells@, x as int, y as int, dir as int, count as int, path@),
                invariant
                    cells.wf(),
                    cells.dims() == old(cells).dims(),
                    cols == cells.dims().0,
                    rows == cells.dims().1,
                    cols >= 1,
                    rows >= 1,
                    cols <= usize::MAX / 8,
                    rows <= usize::MAX / 8,
                    only_taken(old(cells)@, cells@),
                    in_cells(x as int, y as int, cols as int, rows as int),
                    dir < 4,
                    count <= 5,
                    in_cells(i as int, j as int, cols as int, rows as int),
                    start_slot == slot(i as int, j as int, start.spec_index(), rows as int),
                    cols as i64 == cols as int,
                    rows as i64 == rows as int,
                    path@.len() >= 2,
                    path@[0] == origin,
                    0 <= start_slot < cells@.len(),
                    cells@[start_slot] is None,
                    path_in_grid(path@, cols as int, rows as int),
                    live(cells@) < live(old(cells)@),
                ensures
                    finalized ==> w0 == (cells@, path@),
                    !finalized ==> w0 == walk(cols as int, rows as int, i as int, j as int, start, cells@, x as int, y as int, enter, path@),
                    cells.wf(),
                    cells.dims() == old(cells).dims(),
                    only_taken(old(cells)@, cells@),
                    in_cells(x as int, y as int, cols as int, rows as int),
                    path@.len() >= 2,
                    path@[0] == origin,
                    cells@[start_slot] is None,
                    path_in_grid(path@, cols as int, rows as int),
                    live(cells@) < live(old(cells)@),
                decreases 5 - count, border_dist(x as int, y as int, dir as int, cols as int, rows as int),
            {
                if count > 4 {
                    assert(cells@.len() == cols * rows * 8);
                    assert(border_walk(cols as int, rows as int, i as int, j as int, start, cells@, x as int, y as int, dir as int, count as int, path@) == (cells@, path@));
                    finalized = true;
                    break;
                }
                match find_reentry(cells, x as usize, y as usize, dir) {
                    Some(ve) => {
                        let ghost before_path = path@;
                        let f = cells.get(x as usize, y as usize, ve).unwrap();
                        proof {
                            lemma_global_in_grid(x as int, y as int, f.start, cols as int, rows as int);
                            assert(cells@.len() == cols * rows * 8);
                            assert(count <= 4);
                            assert(reentry(cells@, rows as int, x as int, y as int, dir as int) == Some(ve));
                            assert(frag_at(cells@, rows as int, x as int, y as int, ve) == Some(f));
                            assert(w0 == border_walk(cols as int, rows as int, i as int, j as int, start, cells@, x as int, y as int, dir as int, count as int, before_path));
                            assert(border_walk(cols as int, rows as int, i as int, j as int, start, cells@, x as int, y as int, dir as int, count as int, before_path) == walk(cols as int, rows as int, i as int, j as int, start, cells@, x as int, y as int, ve, before_path.push(global_point(x as int, y as int, frag_at(cells@, rows as int, x as int, y as int, ve)->Some_0.start))));
                            assert(w0 == walk(cols as int, rows as int, i as int, j as int, start, cells@, x as int, y as int, ve, before_path.push(global_point(x as int, y as int, f.start))));
                        }
                        path.push(to_ring_point(x as usize, y as usize, &f.start));
                        enter = ve;
                        assert(path@ == before_path.push(global_point(x as int, y as int, f.start)));
                        break;
                    },
                    None => {},
                }
                path.push(skip_point(x as usize, y as usize, dir));
                let (nx, ny, ndir) = border_step(x, y, dir, cols as i64, rows as i64);
                if ndir != dir {
                    count = count + 1;
                }
                x = nx;
                y = ny;
                dir = ndir;
                if x == i as i64 && y == j as i64 && dir == entry_dir(start) {
                    finalized = true;
                    break;
                }
            }
            if finalized {
                break;
            }
        }
    }
    assert(path@.len() >= 2);
    let last = path[path.len() - 1];
    let closing_added = last != origin;
    if closing_added {
        path.push(origin);
    }
    Ring { points: path, closing_added }
}


/// A sample on the outer border of a `w` by `h` grid.
pub open spec fn on_border(x: int, y: int, w: int, h: int) -> bool {
    0 <= x < w && 0 <= y < h && (x == 0 || x == w - 1 || y == 0 || y == h - 1)
}

/// Every sample on the grid's outer border lies in the band: the whole
/// domain is framed by the band.
pub open spec fn frame_required(g: Seq<Sample>, w: int, h: int, opt: Settings) -> bool {
    forall|x: int, y: int| on_border(x, y, w, h) ==> in_band(#[trigger] g[y * w + x], opt)
}

/// Whether the band frames the whole grid.
pub fn require_frame(data: &BorrowedGrid<Sample>, opt: &Settings) -> (r: bool)
    requires
        data.wf(),
        data.spec_width() >= 1,
        data.spec_height() >= 1,
    ensures
        r == frame_required(data@, data.spec_width() as int, data.spec_height() as int, *opt),
{
    let cols = data.width();
    let rows = data.height();
    let mut r: usize = 0;
    while r < rows
        invariant
            r <= rows,
            data.wf(),
            cols == data.spec_width(),
            rows == data.spec_height(),
            cols >= 1,
            forall|x: int, y: int|
                on_border(x, y, cols as int, rows as int) && (x == 0 || x == cols - 1) && y < r
                    ==> in_band(#[trigger] data.at(x, y), *opt),
        decreases rows - r,
    {
        if !opt.holds(data.index((0, r))) || !opt.holds(data.index((cols - 1, r))) {
            return false;
        }
        r = r + 1;
    }
    let mut c: usize = 0;
    while c < cols
        invariant
            c <= cols,
            data.wf(),
            cols == data.spec_width(),
            rows == data.spec_height(),
            rows >= 1,
            forall|x: int, y: int|
                on_border(x, y, cols as int, rows as int) && ((x == 0 || x == cols - 1) || x < c)
                    ==> in_band(#[trigger] data.at(x, y), *opt),
        decreases cols - c,
    {
        if !opt.holds(data.index((c, 0))) || !opt.holds(data.index((c, rows - 1))) {
            return false;
        }
        c = c + 1;
    }
    assert forall|x: int, y: int| on_border(x, y, cols as int, rows as int) implies in_band(
        #[trigger] data@[y * cols + x],
        *opt,
    ) by {
        assert(data.at(x, y) == data@[y * cols + x]);
    }
    true
}

/// The ring around the whole grid of `cols` by `rows` cells.
pub open spec fn frame_ring(cols: int, rows: int) -> Seq<RingPoint> {
    seq![
        RingPoint::Vertex { x: 0, y: 0 },
        RingPoint::Vertex { x: 0, y: rows as usize },
        RingPoint::Vertex { x: cols as usize, y: rows as usize },
        RingPoint::Vertex { x: cols as usize, y: 0 },
        RingPoint::Vertex { x: 0, y: 0 },
    ]
}

/// The order in which the crossings of a cell are tried as ring starts.
pub open spec fn start_order(m: int) -> EnterType {
    if m == 0 {
        EnterType::BL
    } else if m == 1 {
        EnterType::LB
    } else if m == 2 {
        EnterType::LT
    } else if m == 3 {
        EnterType::TL
    } else if m == 4 {
        EnterType::TR
    } else if m == 5 {
        EnterType::RT
    } else if m == 6 {
        EnterType::RB
    } else {
        EnterType::BR
    }
}

/// The points of each ring, and whether its closing point was added.
pub open spec fn ring_views(rings: Seq<Ring>) -> Seq<(Seq<RingPoint>, bool)> {
    rings.map_values(|r: Ring| (r@, r.closing_added))
}

/// The rings traced from scan position `p` on (cell `p / 8` column-major,
/// crossing `start_order(p % 8)`), after the rings `acc`: at each position
/// whose crossing still holds a fragment, the ring that starts there.
pub open spec fn scan(
    cols: int,
    rows: int,
    s: Seq<Option<Edge>>,
    p: int,
    acc: Seq<(Seq<RingPoint>, bool)>,
) -> Seq<(Seq<RingPoint>, bool)>
    decreases cols * rows * 8 - p,
{
    if p < 0 || p >= cols * rows * 8 {
        acc
    } else {
        let c = p / 8;
        let st = start_order(p % 8);
        let i = c / rows;
        let j = c % rows;
        if s.len() == cols * rows * 8 && frag_at(s, rows, i, j, st) is Some {
            let r = ring_of(cols, rows, i, j, st, s);
            scan(cols, rows, r.0, p + 1, acc.push((r.1, r.2)))
        } else {
            scan(cols, rows, s, p + 1, acc)
        }
    }
}

proof fn lemma_scan_step(cols: int, rows: int, s: Seq<Option<Edge>>, p: int, acc: Seq<(Seq<RingPoint>, bool)>, i: int, j: int, st: EnterType)
    requires
        0 <= p,
        p < cols * rows * 8,
        rows > 0,
        i == (p / 8) / rows,
        j == (p / 8) % rows,
        st == start_order(p % 8),
        s.len() == cols * rows * 8,
    ensures
        frag_at(s, rows, i, j, st) is None ==> scan(cols, rows, s, p, acc) == scan(cols, rows, s, p + 1, acc),
        frag_at(s, rows, i, j, st) is Some ==> scan(cols, rows, s, p, acc) == scan(
            cols,
            rows,
            ring_of(cols, rows, i, j, st, s).0,
            p + 1,
            acc.push((ring_of(cols, rows, i, j, st, s).1, ring_of(cols, rows, i, j, st, s).2)),
        ),
{
}

/// The ring around the whole grid, when the band frames it.
pub open spec fn frame_prefix(g: Seq<Sample>, w: int, h: int, opt: Settings) -> Seq<(Seq<RingPoint>, bool)> {
    if frame_required(g, w, h, opt) {
        seq![(frame_ring(w - 1, h - 1), false)]
    } else {
        seq![]
    }
}

/// The rings of band `opt` over the `w` by `h` samples `g` whose cells hold
/// the fragments `s`: the frame ring when the band frames the grid, then the
/// ring of every fragment still there when the scan reaches it.
pub open spec fn traced(g: Seq<Sample>, w: int, h: int, opt: Settings, s: Seq<Option<Edge>>) -> Seq<(Seq<RingPoint>, bool)> {
    scan(w - 1, h - 1, s, 0, frame_prefix(g, w, h, opt))
}

fn available_start(m: usize) -> (r: EnterType)
    ensures
        r == start_order(m as int),
{
    if m == 0 {
        EnterType::BL
    } else if m == 1 {
        EnterType::LB
    } else if m == 2 {
        EnterType::LT
    } else if m == 3 {
        EnterType::TL
    } else if m == 4 {
        EnterType::TR
    } else if m == 5 {
        EnterType::RT
    } else if m == 6 {
        EnterType::RB
    } else {
        EnterType::BR
    }
}

/// Ring `ring` starts at the start of a fragment that `cells` held.
pub open spec fn starts_at_fragment(ring: Ring, cells: Seq<Option<Edge>>, cols: int, rows: int) -> bool {
    exists|i: int, j: int, k: int|
        #![trigger slot(i, j, k, rows), global_point(i, j, cells[slot(i, j, k, rows)]->Some_0.start)]
        in_cells(i, j, cols, rows) && 0 <= k < 8 && cells[slot(i, j, k, rows)] is Some && ring@.len() > 0
            && ring@[0] == global_point(i, j, cells[slot(i, j, k, rows)]->Some_0.start)
}

/// 1 when the band frames the grid, else 0: the number of rings that come
/// before the traced ones.
pub open spec fn frame_count(g: Seq<Sample>, w: int, h: int, opt: Settings) -> int {
    if frame_required(g, w, h, opt) {
        1
    } else {
        0
    }
}

/// A ring that the tracer closed: at least two points, the last equal to the
/// first, all on the grid.
pub open spec fn closed_ring(ring: Ring, cols: int, rows: int) -> bool {
    &&& ring@.len() >= 2
    &&& ring@[0] == ring@.last()
    &&& path_in_grid(ring@, cols, rows)
    &&& ring.closing_added ==> ring@.len() >= 3 && ring@[ring@.len() - 2] != ring@[0]
}

pub(crate) proof fn lemma_live_empty(s: Seq<Option<Edge>>)
    requires
        forall|n: int| 0 <= n < s.len() ==> (#[trigger] s[n]) is None,
    ensures
        live(s) == 0,
    decreases s.len(),
{
    if s.len() > 0 {
        lemma_live_empty(s.drop_last());
    }
}

pub(crate) proof fn lemma_live_some(s: Seq<Option<Edge>>, n: int)
    requires
        0 <= n < s.len(),
        s[n] is Some,
    ensures
        live(s) > 0,
{
    lemma_live_take(s, n);
}

/// Stitches the fragments in `cells` into rings for the band `opt`, taking
/// every fragment out of `cells`. The ring around the whole grid comes first
/// when the band frames it; every other ring starts at the start of a
/// fragment, tried cell by cell (column-major) in a fixed order of crossings.
pub fn trace_band_paths(data: &BorrowedGrid<Sample>, cells: &mut CellGrid, opt: &Settings) -> (rings: Vec<Ring>)
    requires
        data.wf(),
        data.spec_width() >= 1,
        data.spec_height() >= 1,
        old(cells).wf(),
        old(cells).dims() == (data.spec_width() - 1, data.spec_height() - 1),
    ensures
        final(cells).wf(),
        final(cells).dims() == old(cells).dims(),
        final(cells).is_empty(),
        frame_required(data@, data.spec_width() as int, data.spec_height() as int, *opt) <==> (
        rings@.len() > 0 && rings@[0]@ == frame_ring(old(cells).dims().0, old(cells).dims().1)),
        forall|k: int|
            0 <= k < rings@.len() ==> closed_ring(
                #[trigger] rings@[k],
                old(cells).dims().0,
                old(cells).dims().1,
            ),
        forall|k: int|
            frame_count(data@, data.spec_width() as int, data.spec_height() as int, *opt) <= k
                < rings@.len() ==> starts_at_fragment(
                #[trigger] rings@[k],
                old(cells)@,
                old(cells).dims().0,
                old(cells).dims().1,
            ),
        live(old(cells)@) > 0 ==> rings@.len() > frame_count(
            data@,
            data.spec_width() as int,
            data.spec_height() as int,
            *opt,
        ),
        rings@.len() <= frame_count(data@, data.spec_width() as int, data.spec_height() as int, *opt)
            + live(old(cells)@),
        ring_views(rings@) == traced(data@, data.spec_width() as int, data.spec_height() as int, *opt, old(cells)@),
{
    let cols = cells.cols();
    let rows = cells.rows();
    let mut rings: Vec<Ring> = Vec::new();
    let framed = require_frame(data, opt);
    if framed {
        rings.push(
            Ring {
                points: vec![
                    RingPoint::Vertex { x: 0, y: 0 },
                    RingPoint::Vertex { x: 0, y: rows },
                    RingPoint::Vertex { x: cols, y: rows },
                    RingPoint::Vertex { x: cols, y: 0 },
                    RingPoint::Vertex { x: 0, y: 0 },
                ],
                closing_added: false,
            },
        );
        assert(rings@[0]@ =~= frame_ring(cols as int, rows as int));
    }
    let ghost n_frame: int = if framed {
        1
    } else {
        0
    };
    assert(ring_views(rings@) =~= frame_prefix(data@, data.spec_width() as int, data.spec_height() as int, *opt));
    let ghost s0 = scan(cols as int, rows as int, old(cells)@, 0, ring_views(rings@));
    let n_cells = cols * rows;
    let mut c: usize = 0;
    while c < n_cells
        invariant
            c <= n_cells,
            n_cells == cols * rows,
            cells.wf(),
            cells.dims() == old(cells).dims(),
            cols == cells.dims().0,
            rows == cells.dims().1,
            only_taken(old(cells)@, cells@),
            forall|n: int| 0 <= n < c * 8 ==> (#[trigger] cells@[n]) is None,
            rings@.len() >= n_frame,
            n_frame == (if framed { 1int } else { 0int }),
            framed ==> rings@[0]@ == frame_ring(cols as int, rows as int),
            forall|k: int|
                n_frame <= k < rings@.len() ==> !((#[trigger] rings@[k])@[0] is Vertex),
            forall|k: int|
                0 <= k < rings@.len() ==> closed_ring(#[trigger] rings@[k], cols as int, rows as int),
            forall|k: int|
                n_frame <= k < rings@.len() ==> starts_at_fragment(#[trigger] rings@[k], old(cells)@, cols as int, rows as int),
            rings@.len() == n_frame ==> cells@ == old(cells)@,
            rings@.len() - n_frame + live(cells@) <= live(old(cells)@),
            s0 == scan(cols as int, rows as int, cells@, c * 8, ring_views(rings@)),
        decreases n_cells - c,
    {
        assert(rows > 0) by (nonlinear_arith)
            requires
                c < n_cells,
                n_cells == cols * rows,
        ;
        let i = c / rows;
        let j = c % rows;
        proof {
            vstd::arithmetic::div_mod::lemma_fundamental_div_mod(c as int, rows as int);
            assert(i < cols) by (nonlinear_arith)
                requires
                    c == rows * i + j,
                    0 <= j < rows,
                    c < cols * rows,
                    i >= 0,
            ;
            assert(i * rows + j == c) by (nonlinear_arith)
                requires
                    c == rows * i + j,
            ;
        }
        let mut m: usize = 0;
        while m < 8
            invariant
                m <= 8,
                c < n_cells,
                n_cells == cols * rows,
                i < cols,
                j < rows,
                i * rows + j == c,
                i == c / rows,
                j == c % rows,
                rows > 0,
                cells.wf(),
                cells.dims() == old(cells).dims(),
                cols == cells.dims().0,
                rows == cells.dims().1,
                only_taken(old(cells)@, cells@),
                forall|n: int| 0 <= n < c * 8 ==> (#[trigger] cells@[n]) is None,
                forall|q: int| 0 <= q < m ==> (#[trigger] cells.fragment(i as int, j as int, start_order(q).spec_index())) is None,
                rings@.len() >= n_frame,
                n_frame == (if framed { 1int } else { 0int }),
                framed ==> rings@[0]@ == frame_ring(cols as int, rows as int),
                forall|k: int|
                    n_frame <= k < rings@.len() ==> !((#[trigger] rings@[k])@[0] is Vertex),
                forall|k: int|
                    0 <= k < rings@.len() ==> closed_ring(#[trigger] rings@[k], cols as int, rows as int),
                forall|k: int|
                    n_frame <= k < rings@.len() ==> starts_at_fragment(#[trigger] rings@[k], old(cells)@, cols as int, rows as int),
                rings@.len() == n_frame ==> cells@ == old(cells)@,
                rings@.len() - n_frame + live(cells@) <= live(old(cells)@),
                s0 == scan(cols as int, rows as int, cells@, c * 8 + m, ring_views(rings@)),
            decreases 8 - m,
        {
            let start = available_start(m);
            proof {
                vstd::arithmetic::div_mod::lemma_fundamental_div_mod_converse(c * 8 + m, 8, c as int, m as int);
                assert(cells@.len() == cols * rows * 8);
            }
            let ghost before_views = ring_views(rings@);
            let ghost before = cells@;
            let ghost p = c * 8 + m;
            assert(p / 8 == c && p % 8 == m);
            assert(0 <= p < cols * rows * 8);
            assert(start == start_order(p % 8));
            let ghost before_cells = *cells;
            let ghost before_rings = rings@;
            if cells.get(i, j, start).is_some() {
                let ring = trace_ring(cells, i, j, start);
                proof {
                    lemma_global_in_grid(
                        i as int,
                        j as int,
                        before_cells.fragment(i as int, j as int, start.spec_index())->Some_0.start,
                        cols as int,
                        rows as int,
                    );
                }
                rings.push(ring);
                proof {
                    assert(ring_views(rings@) =~= before_views.push((ring@, ring.closing_added)));
                    assert(frag_at(before, rows as int, i as int, j as int, start) is Some);
                    lemma_scan_step(cols as int, rows as int, before, p, before_views, i as int, j as int, start);
                    assert(scan(cols as int, rows as int, before, p, before_views) == scan(cols as int, rows as int, cells@, p + 1, ring_views(rings@)));
                    assert(rings@[rings@.len() - 1] == ring);
                    assert forall|k: int| n_frame <= k < rings@.len() implies !((#[trigger] rings@[k])@[0] is Vertex) by {
                        if k < rings@.len() - 1 {
                            assert(rings@[k] == before_rings[k]);
                        }
                    }
                    assert forall|k: int| 0 <= k < rings@.len() implies closed_ring(#[trigger] rings@[k], cols as int, rows as int) by {
                        if k < rings@.len() - 1 {
                            assert(rings@[k] == before_rings[k]);
                        }
                    }
                    let sl = slot(i as int, j as int, start.spec_index(), rows as int);
                    lemma_slot(i as int, j as int, start.spec_index(), cols as int, rows as int);
                    assert(before[sl] is Some);
                    assert(before[sl] == old(cells)@[sl]);
                    assert(starts_at_fragment(ring, old(cells)@, cols as int, rows as int)) by {
                        assert(ring@[0] == global_point(i as int, j as int, old(cells)@[sl]->Some_0.start));
                    }
                    assert forall|k: int| n_frame <= k < rings@.len() implies starts_at_fragment(#[trigger] rings@[k], old(cells)@, cols as int, rows as int) by {
                        if k < rings@.len() - 1 {
                            assert(rings@[k] == before_rings[k]);
                        }
                    }
                }
            }
            proof {
                if before == cells@ && before_views == ring_views(rings@) {
                    if frag_at(before, rows as int, i as int, j as int, start) is None {
                        lemma_scan_step(cols as int, rows as int, before, p, before_views, i as int, j as int, start);
                        assert(scan(cols as int, rows as int, before, p, before_views) == scan(cols as int, rows as int, cells@, p + 1, ring_views(rings@)));
                    }
                }
                assert forall|q: int| 0 <= q < m + 1 implies (#[trigger] cells.fragment(i as int, j as int, start_order(q).spec_index())) is None by {
                    lemma_slot(i as int, j as int, start_order(q).spec_index(), cols as int, rows as int);
                    let n = slot(i as int, j as int, start_order(q).spec_index(), rows as int);
                    if q < m {
                        assert(before_cells.fragment(i as int, j as int, start_order(q).spec_index()) is None);
                        assert(before[n] is None);
                        if cells@[n] is Some {
                            assert(cells@[n] == old(cells)@[n]);
                        }
                    }
                }
            }
            m = m + 1;
        }
        proof {
            assert forall|n: int| 0 <= n < (c + 1) * 8 implies (#[trigger] cells@[n]) is None by {
                if n >= c * 8 {
                    let k = n - c * 8;
                    lemma_slot(i as int, j as int, k, cols as int, rows as int);
                    assert(n == slot(i as int, j as int, k, rows as int));
                    assert(cells.fragment(i as int, j as int, start_order(0).spec_index()) is None);
                    assert(cells.fragment(i as int, j as int, start_order(1).spec_index()) is None);
                    assert(cells.fragment(i as int, j as int, start_order(2).spec_index()) is None);
                    assert(cells.fragment(i as int, j as int, start_order(3).spec_index()) is None);
                    assert(cells.fragment(i as int, j as int, start_order(4).spec_index()) is None);
                    assert(cells.fragment(i as int, j as int, start_order(5).spec_index()) is None);
                    assert(cells.fragment(i as int, j as int, start_order(6).spec_index()) is None);
                    assert(cells.fragment(i as int, j as int, start_order(7).spec_index()) is None);
                }
            }
        }
        c = c + 1;
    }
    proof {
        assert(n_cells * 8 == cells@.len());
        assert(scan(cols as int, rows as int, cells@, c * 8, ring_views(rings@)) == ring_views(rings@));
        if live(old(cells)@) > 0 && rings@.len() == n_frame {
            lemma_live_empty(cells@);
        }
        if framed {
            assert(frame_required(data@, data.spec_width() as int, data.spec_height() as int, *opt));
        } else {
            assert(!(rings@.len() > 0 && rings@[0]@ == frame_ring(cols as int, rows as int))) by {
                if rings@.len() > 0 {
                    assert(!(rings@[0]@[0] is Vertex));
                }
            }
        }
    }
    rings
}

} // verus!
