//! A quadtree over the cells of a grid that holds, for each region, the
//! range of the samples under it, so that a band can skip the regions it
//! cannot cross.
use vstd::prelude::*;
use crate::grid::{BorrowedGrid, GridCoord};
use crate::sample::{Sample, comparable, gt, lt, rank};

verus! {

/// `v` is not a number, or lies in `[lo, hi]`.
pub open spec fn within_bounds(v: Sample, lo: Sample, hi: Sample) -> bool {
    !comparable(v) || (comparable(lo) && comparable(hi) && rank(lo) <= rank(v) && rank(v) <= rank(
        hi,
    ))
}

/// The sample at column `x` of row `y` of the samples `g`, `w` to a row.
pub open spec fn sample_at(g: Seq<Sample>, w: int, x: int, y: int) -> Sample {
    g[y * w + x]
}

/// Every corner sample of cell `(i, j)` is within `[lo, hi]`.
pub open spec fn cell_bounded(g: Seq<Sample>, w: int, i: int, j: int, lo: Sample, hi: Sample) -> bool {
    &&& within_bounds(sample_at(g, w, i, j), lo, hi)
    &&& within_bounds(sample_at(g, w, i + 1, j), lo, hi)
    &&& within_bounds(sample_at(g, w, i + 1, j + 1), lo, hi)
    &&& within_bounds(sample_at(g, w, i, j + 1), lo, hi)
}

pub open spec fn in_region(i: int, j: int, x: int, y: int, dx: int, dy: int) -> bool {
    x <= i < x + dx && y <= j < y + dy
}

/// A cell that no band `[lower, upper]` can cross: one of its corners is not
/// a number, or all four lie above `upper`, or all four below `lower`.
pub open spec fn cell_quiet(g: Seq<Sample>, w: int, i: int, j: int, lower: Sample, upper: Sample) -> bool {
    let c = (
        sample_at(g, w, i, j),
        sample_at(g, w, i + 1, j),
        sample_at(g, w, i + 1, j + 1),
        sample_at(g, w, i, j + 1),
    );
    ||| !comparable(c.0) || !comparable(c.1) || !comparable(c.2) || !comparable(c.3)
    ||| gt(c.0, upper) && gt(c.1, upper) && gt(c.2, upper) && gt(c.3, upper)
    ||| lt(c.0, lower) && lt(c.1, lower) && lt(c.2, lower) && lt(c.3, lower)
}

/// The smaller of two samples; a value that is not a number gives way to the
/// other one.
pub open spec fn min_sample(a: Sample, b: Sample) -> Sample {
    if !comparable(a) {
        b
    } else if !comparable(b) {
        a
    } else if rank(b) < rank(a) {
        b
    } else {
        a
    }
}

/// The larger of two samples; a value that is not a number gives way to the
/// other one.
pub open spec fn max_sample(a: Sample, b: Sample) -> Sample {
    if !comparable(a) {
        b
    } else if !comparable(b) {
        a
    } else if rank(a) < rank(b) {
        b
    } else {
        a
    }
}

fn smaller(a: Sample, b: Sample) -> (r: Sample)
    ensures
        r == min_sample(a, b),
{
    if a.is_nan() {
        b
    } else if b.is_nan() {
        a
    } else if b.less_than(&a) {
        b
    } else {
        a
    }
}

fn larger(a: Sample, b: Sample) -> (r: Sample)
    ensures
        r == max_sample(a, b),
{
    if a.is_nan() {
        b
    } else if b.is_nan() {
        a
    } else if a.less_than(&b) {
        b
    } else {
        a
    }
}

/// The bound `acc` taking in child `c`'s lower bound, if there is a child.
pub open spec fn lower_of(c: Option<Box<TreeNode>>, acc: Sample) -> Sample {
    match c {
        Some(b) => min_sample(acc, b.lower_bound),
        None => acc,
    }
}

/// The bound `acc` taking in child `c`'s upper bound, if there is a child.
pub open spec fn upper_of(c: Option<Box<TreeNode>>, acc: Sample) -> Sample {
    match c {
        Some(b) => max_sample(acc, b.upper_bound),
        None => acc,
    }
}

/// The largest power of two below `n` that is at least `p`, found by
/// doubling `p`.
pub open spec fn power_below(n: int, p: int) -> int
    decreases n - p,
{
    if p >= 1 && p < n - p {
        power_below(n, 2 * p)
    } else {
        p
    }
}

/// Where a side of `n` cells is split: the largest power of two below `n`,
/// or `n` itself when it is 0 or 1.
pub open spec fn split_spec(n: int) -> int {
    if n <= 1 {
        n
    } else {
        power_below(n, 1)
    }
}

pub open spec fn is_power_of_two(n: nat) -> bool
    decreases n,
{
    if n <= 1 {
        n == 1
    } else {
        n % 2 == 0 && is_power_of_two(n / 2)
    }
}

proof fn lemma_double_power_of_two(p: nat)
    requires
        is_power_of_two(p),
    ensures
        is_power_of_two(2 * p),
{
    assert((2 * p) / 2 == p);
}

/// Where a side of `n` cells is split: the largest power of two below `n`,
/// or `n` itself when it is 0 or 1.
pub fn split_point(n: usize) -> (r: usize)
    ensures
        n <= 1 ==> r == n,
        n > 1 ==> 1 <= r < n && n <= 2 * r && is_power_of_two(r as nat),
        r == split_spec(n as int),
{
    if n <= 1 {
        return n;
    }
    let mut p: usize = 1;
    while p < n - p
        invariant
            1 <= p < n,
            is_power_of_two(p as nat),
            split_spec(n as int) == power_below(n as int, p as int),
        decreases n - p,
    {
        proof {
            lemma_double_power_of_two(p as nat);
        }
        p = p * 2;
    }
    p
}

/// A node of the quadtree: the cells `x .. x + dx` by `y .. y + dy`, and the
/// range of the samples at their corners.
pub struct TreeNode {
    pub child_a: Option<Box<TreeNode>>,
    pub child_b: Option<Box<TreeNode>>,
    pub child_c: Option<Box<TreeNode>>,
    pub child_d: Option<Box<TreeNode>>,
    pub x: usize,
    pub y: usize,
    pub dx: usize,
    pub dy: usize,
    pub lower_bound: Sample,
    pub upper_bound: Sample,
    pub samples: Ghost<Seq<Sample>>,
    pub grid_width: Ghost<int>,
    pub grid_height: Ghost<int>,
}

impl TreeNode {
    pub open spec fn region(self) -> (int, int, int, int) {
        (self.x as int, self.y as int, self.dx as int, self.dy as int)
    }

    /// The samples of the grid the node was built over, their row length and
    /// their number of rows.
    pub open spec fn grid(self) -> (Seq<Sample>, int, int) {
        (self.samples@, self.grid_width@, self.grid_height@)
    }

    /// Child `k`, counting `child_a` as 0.
    pub open spec fn child_node(self, k: int) -> Option<TreeNode> {
        let c = if k == 0 {
            self.child_a
        } else if k == 1 {
            self.child_b
        } else if k == 2 {
            self.child_c
        } else {
            self.child_d
        };
        match c {
            Some(b) => Some(*b),
            None => None,
        }
    }

    pub open spec fn bounds(self) -> (Sample, Sample) {
        (self.lower_bound, self.upper_bound)
    }

    pub open spec fn is_leaf(self) -> bool {
        self.child_a is None && self.child_b is None && self.child_c is None && self.child_d is None
    }

    pub open spec fn contains_cell(self, i: int, j: int) -> bool {
        in_region(i, j, self.region().0, self.region().1, self.region().2, self.region().3)
    }

    /// A child is well formed and lies inside this node's region.
    pub open spec fn child_wf(self, c: Option<Box<TreeNode>>) -> bool
        decreases c,
    {
        match c {
            None => true,
            Some(b) => {
                &&& (*b).wf()
                &&& b.grid() == self.grid()
                &&& self.region().0 <= b.region().0
                &&& b.region().0 + b.region().2 <= self.region().0 + self.region().2
                &&& self.region().1 <= b.region().1
                &&& b.region().1 + b.region().3 <= self.region().1 + self.region().3
            },
        }
    }

    /// The node is what the construction makes of its region: a leaf holds
    /// the smallest and largest of its cell's four corner samples; an inner
    /// node is split at `split_spec` of each side into up to four children,
    /// whose bounds it takes in, in the order a, b, c, d.
    pub open spec fn exact(self) -> bool {
        let (g, w) = (self.samples@, self.grid_width@);
        let (x, y, dx, dy) = (self.x as int, self.y as int, self.dx as int, self.dy as int);
        if dx == 1 && dy == 1 {
            &&& self.lower_bound == min_sample(
                sample_at(g, w, x, y),
                min_sample(sample_at(g, w, x + 1, y), min_sample(sample_at(g, w, x, y + 1), sample_at(g, w, x + 1, y + 1))),
            )
            &&& self.upper_bound == max_sample(
                sample_at(g, w, x, y),
                max_sample(sample_at(g, w, x + 1, y), max_sample(sample_at(g, w, x, y + 1), sample_at(g, w, x + 1, y + 1))),
            )
        } else {
            let sx = split_spec(dx);
            let sy = split_spec(dy);
            &&& self.child_a matches Some(a) && a.region() == (x, y, sx, sy)
                && self.lower_bound == lower_of(self.child_d, lower_of(self.child_c, lower_of(self.child_b, a.lower_bound)))
                && self.upper_bound == upper_of(self.child_d, upper_of(self.child_c, upper_of(self.child_b, a.upper_bound)))
            &&& (self.child_b is Some <==> dx - sx > 0)
            &&& (self.child_b matches Some(b) ==> b.region() == (x + sx, y, dx - sx, sy))
            &&& (self.child_c is Some <==> dx - sx > 0 && dy - sy > 0)
            &&& (self.child_c matches Some(c) ==> c.region() == (x + sx, y + sy, dx - sx, dy - sy))
            &&& (self.child_d is Some <==> dy - sy > 0)
            &&& (self.child_d matches Some(d) ==> d.region() == (x, y + sy, sx, dy - sy))
        }
    }

    pub open spec fn child_has(c: Option<Box<TreeNode>>, i: int, j: int) -> bool {
        c matches Some(b) && b.contains_cell(i, j)
    }

    /// The node covers cells of the grid, its bounds hold every corner sample
    /// of them, a leaf is a single cell, and an inner node's children cover
    /// its region.
    pub open spec fn wf(self) -> bool
        decreases self,
    {
        &&& self.dx >= 1
        &&& self.dy >= 1
        &&& self.x + self.dx < self.grid_width@
        &&& self.y + self.dy < self.grid_height@
        &&& self.samples@.len() == self.grid_width@ * self.grid_height@
        &&& forall|i: int, j: int|
            #![trigger self.contains_cell(i, j)]
            self.contains_cell(i, j) ==> cell_bounded(
                self.samples@,
                self.grid_width@,
                i,
                j,
                self.lower_bound,
                self.upper_bound,
            )
        &&& (self.is_leaf() <==> (self.dx == 1 && self.dy == 1))
        &&& self.exact()
        &&& self.child_wf(self.child_a)
        &&& self.child_wf(self.child_b)
        &&& self.child_wf(self.child_c)
        &&& self.child_wf(self.child_d)
        &&& forall|i: int, j: int|
            #![trigger self.contains_cell(i, j)]
            self.contains_cell(i, j) && !self.is_leaf() ==> Self::child_has(self.child_a, i, j)
                || Self::child_has(self.child_b, i, j) || Self::child_has(self.child_c, i, j)
                || Self::child_has(self.child_d, i, j)
    }
}


/// `a` is not above `b`, or `b` is not a number.
pub open spec fn below_or_eq(a: Sample, b: Sample) -> bool {
    !comparable(b) || (comparable(a) && rank(a) <= rank(b))
}

/// `a` is not below `b`, or `b` is not a number.
pub open spec fn above_or_eq(a: Sample, b: Sample) -> bool {
    !comparable(b) || (comparable(a) && rank(b) <= rank(a))
}

/// The bounds `[lo, hi]` take in those of child `c`, if any.
pub open spec fn child_within(lo: Sample, hi: Sample, c: Option<Box<TreeNode>>) -> bool {
    c matches Some(b) ==> below_or_eq(lo, b.bounds().0) && above_or_eq(hi, b.bounds().1)
}

proof fn lemma_widen(v: Sample, lo: Sample, hi: Sample, lo2: Sample, hi2: Sample)
    requires
        within_bounds(v, lo, hi),
        below_or_eq(lo2, lo),
        above_or_eq(hi2, hi),
    ensures
        within_bounds(v, lo2, hi2),
{
}

proof fn lemma_cell_widen(g: Seq<Sample>, w: int, i: int, j: int, lo: Sample, hi: Sample, lo2: Sample, hi2: Sample)
    requires
        cell_bounded(g, w, i, j, lo, hi),
        below_or_eq(lo2, lo),
        above_or_eq(hi2, hi),
    ensures
        cell_bounded(g, w, i, j, lo2, hi2),
{
    lemma_widen(sample_at(g, w, i, j), lo, hi, lo2, hi2);
    lemma_widen(sample_at(g, w, i + 1, j), lo, hi, lo2, hi2);
    lemma_widen(sample_at(g, w, i + 1, j + 1), lo, hi, lo2, hi2);
    lemma_widen(sample_at(g, w, i, j + 1), lo, hi, lo2, hi2);
}

impl TreeNode {
    /// Builds the node for the cells `x .. x + dx` by `y .. y + dy`.
    pub fn new(data: &BorrowedGrid<Sample>, x: usize, y: usize, dx: usize, dy: usize) -> (tn: TreeNode)
        requires
            data.wf(),
            dx >= 1,
            dy >= 1,
            x + dx < data.spec_width(),
            y + dy < data.spec_height(),
        ensures
            tn.wf(),
            tn.grid() == (data@, data.spec_width() as int, data.spec_height() as int),
            tn.region() == (x as int, y as int, dx as int, dy as int),
        decreases dx + dy,
    {
        if dx == 1 && dy == 1 {
            let v0 = *data.index((x, y));
            let v1 = *data.index((x + 1, y));
            let v3 = *data.index((x, y + 1));
            let v2 = *data.index((x + 1, y + 1));
            let lower_bound = smaller(v0, smaller(v1, smaller(v3, v2)));
            let upper_bound = larger(v0, larger(v1, larger(v3, v2)));
            let tn = TreeNode {
                child_a: None,
                child_b: None,
                child_c: None,
                child_d: None,
                x,
                y,
                dx,
                dy,
                lower_bound,
                upper_bound,
                samples: Ghost(data@),
                grid_width: Ghost(data.spec_width() as int),
                grid_height: Ghost(data.spec_height() as int),
            };
            assert forall|i: int, j: int| #[trigger] tn.contains_cell(i, j) implies cell_bounded(
                data@,
                data.spec_width() as int,
                i,
                j,
                tn.lower_bound,
                tn.upper_bound,
            ) by {
                assert(i == x && j == y);
            }
            return tn;
        }
        let sx = split_point(dx);
        let sy = split_point(dy);
        let a = TreeNode::new(data, x, y, sx, sy);
        let mut lower_bound = a.lower_bound;
        let mut upper_bound = a.upper_bound;
        let mut child_b: Option<Box<TreeNode>> = None;
        let mut child_c: Option<Box<TreeNode>> = None;
        let mut child_d: Option<Box<TreeNode>> = None;
        assert(child_within(lower_bound, upper_bound, Some(Box::new(a))));
        if dx - sx > 0 {
            let b = TreeNode::new(data, x + sx, y, dx - sx, sy);
            lower_bound = smaller(lower_bound, b.lower_bound);
            upper_bound = larger(upper_bound, b.upper_bound);
            child_b = Some(Box::new(b));
            assert(child_within(lower_bound, upper_bound, Some(Box::new(a))));
            assert(child_within(lower_bound, upper_bound, child_b));
            if dy - sy > 0 {
                let c = TreeNode::new(data, x + sx, y + sy, dx - sx, dy - sy);
                lower_bound = smaller(lower_bound, c.lower_bound);
                upper_bound = larger(upper_bound, c.upper_bound);
                child_c = Some(Box::new(c));
                assert(child_within(lower_bound, upper_bound, Some(Box::new(a))));
                assert(child_within(lower_bound, upper_bound, child_b));
                assert(child_within(lower_bound, upper_bound, child_c));
            }
        }
        if dy - sy > 0 {
            let d = TreeNode::new(data, x, y + sy, sx, dy - sy);
            lower_bound = smaller(lower_bound, d.lower_bound);
            upper_bound = larger(upper_bound, d.upper_bound);
            child_d = Some(Box::new(d));
            assert(child_within(lower_bound, upper_bound, Some(Box::new(a))));
            assert(child_within(lower_bound, upper_bound, child_b));
            assert(child_within(lower_bound, upper_bound, child_c));
            assert(child_within(lower_bound, upper_bound, child_d));
        }
        let tn = TreeNode {
            child_a: Some(Box::new(a)),
            child_b,
            child_c,
            child_d,
            x,
            y,
            dx,
            dy,
            lower_bound,
            upper_bound,
            samples: Ghost(data@),
            grid_width: Ghost(data.spec_width() as int),
            grid_height: Ghost(data.spec_height() as int),
        };
        proof {
            assert(child_within(lower_bound, upper_bound, tn.child_a));
            assert forall|i: int, j: int| #[trigger] tn.contains_cell(i, j) implies cell_bounded(
                data@,
                data.spec_width() as int,
                i,
                j,
                tn.lower_bound,
                tn.upper_bound,
            ) by {
                if a.contains_cell(i, j) {
                    lemma_cell_widen(data@, data.spec_width() as int, i, j, a.lower_bound, a.upper_bound, lower_bound, upper_bound);
                } else if TreeNode::child_has(tn.child_b, i, j) {
                    let b = tn.child_b->Some_0;
                    assert(b.contains_cell(i, j));
                    lemma_cell_widen(data@, data.spec_width() as int, i, j, b.lower_bound, b.upper_bound, lower_bound, upper_bound);
                } else if TreeNode::child_has(tn.child_c, i, j) {
                    let c = tn.child_c->Some_0;
                    assert(c.contains_cell(i, j));
                    lemma_cell_widen(data@, data.spec_width() as int, i, j, c.lower_bound, c.upper_bound, lower_bound, upper_bound);
                } else {
                    let d = tn.child_d->Some_0;
                    assert(d.contains_cell(i, j));
                    lemma_cell_widen(data@, data.spec_width() as int, i, j, d.lower_bound, d.upper_bound, lower_bound, upper_bound);
                }
            }
        }
        tn
    }
}



proof fn lemma_contains_concat(a: Seq<GridCoord>, b: Seq<GridCoord>, v: GridCoord)
    ensures
        a.contains(v) ==> (a + b).contains(v),
        b.contains(v) ==> (a + b).contains(v),
{
    if a.contains(v) {
        let k = choose|k: int| 0 <= k < a.len() && a[k] == v;
        assert((a + b)[k] == v);
    }
    if b.contains(v) {
        let k = choose|k: int| 0 <= k < b.len() && b[k] == v;
        assert((a + b)[a.len() + k] == v);
    }
}

/// The band `[lb, ub]` misses the node's range of samples.
pub open spec fn pruned(n: TreeNode, lb: Sample, ub: Sample) -> bool {
    gt(n.lower_bound, ub) || lt(n.upper_bound, lb)
}

/// The cells a query for `[lb, ub]` gives under child `c`.
pub open spec fn child_cells(c: Option<Box<TreeNode>>, lb: Sample, ub: Sample) -> Seq<GridCoord>
    decreases c,
{
    match c {
        Some(b) => node_cells(*b, lb, ub),
        None => seq![],
    }
}

/// The cells a query for `[lb, ub]` gives under node `n`: none when the band
/// misses the node's range, its cell for a leaf, else those of its children
/// a, b, c and d in turn.
pub open spec fn node_cells(n: TreeNode, lb: Sample, ub: Sample) -> Seq<GridCoord>
    decreases n,
{
    if pruned(n, lb, ub) {
        seq![]
    } else if n.is_leaf() {
        seq![(n.x, n.y)]
    } else {
        child_cells(n.child_a, lb, ub) + child_cells(n.child_b, lb, ub) + child_cells(n.child_c, lb, ub)
            + child_cells(n.child_d, lb, ub)
    }
}

/// The cells of a query answer lie in the node's region, and every cell of
/// the region left out of it is quiet for the band `[lower, upper]`.
pub open spec fn answers_query(node: TreeNode, cells: Seq<GridCoord>, lower: Sample, upper: Sample) -> bool {
    &&& forall|k: int|
        0 <= k < cells.len() ==> node.contains_cell(#[trigger] cells[k].0 as int, cells[k].1 as int)
    &&& forall|i: int, j: int|
        #![trigger node.contains_cell(i, j)]
        node.contains_cell(i, j) && !cells.contains((i as usize, j as usize)) ==> cell_quiet(
            node.grid().0,
            node.grid().1,
            i,
            j,
            lower,
            upper,
        )
}

/// Every cell of `node`'s region that lies under child `c` and is left out
/// of `cells` is quiet.
pub open spec fn child_answered(
    node: TreeNode,
    c: Option<Box<TreeNode>>,
    cells: Seq<GridCoord>,
    lower: Sample,
    upper: Sample,
) -> bool {
    forall|i: int, j: int|
        #![trigger TreeNode::child_has(c, i, j)]
        TreeNode::child_has(c, i, j) && !cells.contains((i as usize, j as usize)) ==> cell_quiet(
            node.grid().0,
            node.grid().1,
            i,
            j,
            lower,
            upper,
        )
}

impl TreeNode {
    /// Appends to `cells` the answer of child `c`.
    fn collect_child(
        &self,
        c: &Option<Box<TreeNode>>,
        cells: &mut Vec<GridCoord>,
        lowerbound: &Sample,
        upperbound: &Sample,
    )
        requires
            self.wf(),
            *c == self.child_a || *c == self.child_b || *c == self.child_c || *c == self.child_d,
            forall|k: int|
                0 <= k < old(cells)@.len() ==> self.contains_cell(
                    #[trigger] old(cells)@[k].0 as int,
                    old(cells)@[k].1 as int,
                ),
        ensures
            forall|k: int|
                0 <= k < final(cells)@.len() ==> self.contains_cell(
                    #[trigger] final(cells)@[k].0 as int,
                    final(cells)@[k].1 as int,
                ),
            child_answered(*self, *c, final(cells)@, *lowerbound, *upperbound),
            forall|v: GridCoord| old(cells)@.contains(v) ==> #[trigger] final(cells)@.contains(v),
            final(cells)@ == old(cells)@ + child_cells(*c, *lowerbound, *upperbound),
        decreases self, 0nat,
    {
        match c {
            None => {
                assert(cells@ =~= cells@ + child_cells(*c, *lowerbound, *upperbound));
            },
            Some(b) => {
                proof {
                    assert(self.child_wf(*c));
                }
                let mut found = b.cells_in_band(lowerbound, upperbound);
                let ghost before = cells@;
                let ghost mine = found@;
                cells.append(&mut found);
                proof {
                    assert forall|k: int| 0 <= k < cells@.len() implies self.contains_cell(
                        #[trigger] cells@[k].0 as int,
                        cells@[k].1 as int,
                    ) by {
                        if k >= before.len() {
                            assert(cells@[k] == mine[k - before.len()]);
                            assert(b.contains_cell(mine[k - before.len()].0 as int, mine[k - before.len()].1 as int));
                        }
                    }
                    assert forall|v: GridCoord| before.contains(v) implies #[trigger] cells@.contains(v) by {
                        lemma_contains_concat(before, mine, v);
                    }
                    assert forall|i: int, j: int|
                        #![trigger TreeNode::child_has(*c, i, j)]
                        TreeNode::child_has(*c, i, j) && !cells@.contains((i as usize, j as usize)) implies cell_quiet(
                            self.grid().0,
                            self.grid().1,
                            i,
                            j,
                            *lowerbound,
                            *upperbound,
                        ) by {
                        lemma_contains_concat(before, mine, (i as usize, j as usize));
                        assert(b.contains_cell(i, j));
                    }
                }
            },
        }
    }

    /// The cells under this node that the band `[lowerbound, upperbound]`
    /// may cross: subtrees whose range misses the band are left out.
    pub fn cells_in_band(&self, lowerbound: &Sample, upperbound: &Sample) -> (cells: Vec<GridCoord>)
        requires
            self.wf(),
        ensures
            answers_query(*self, cells@, *lowerbound, *upperbound),
            cells@ == node_cells(*self, *lowerbound, *upperbound),
        decreases self, 1nat,
    {
        if self.lower_bound.greater_than(upperbound) || self.upper_bound.less_than(lowerbound) {
            let cells: Vec<GridCoord> = Vec::new();
            assert(cells@ =~= node_cells(*self, *lowerbound, *upperbound));
            proof {
                assert forall|i: int, j: int| #[trigger] self.contains_cell(i, j) implies cell_quiet(
                    self.grid().0,
                    self.grid().1,
                    i,
                    j,
                    *lowerbound,
                    *upperbound,
                ) by {
                    assert(cell_bounded(
                        self.samples@,
                        self.grid_width@,
                        i,
                        j,
                        self.lower_bound,
                        self.upper_bound,
                    ));
                }
            }
            return cells;
        }
        if self.child_a.is_none() && self.child_b.is_none() && self.child_c.is_none()
            && self.child_d.is_none() {
            let mut cells: Vec<GridCoord> = Vec::new();
            cells.push((self.x, self.y));
            proof {
                assert forall|i: int, j: int| #[trigger] self.contains_cell(i, j) implies cells@.contains(
                    (i as usize, j as usize),
                ) by {
                    assert(cells@[0] == (i as usize, j as usize));
                }
                assert(cells@ =~= node_cells(*self, *lowerbound, *upperbound));
            }
            return cells;
        }
        let mut cells: Vec<GridCoord> = Vec::new();
        assert(cells@ =~= seq![]);
        self.collect_child(&self.child_a, &mut cells, lowerbound, upperbound);
        let ghost after_a = cells@;
        self.collect_child(&self.child_b, &mut cells, lowerbound, upperbound);
        let ghost after_b = cells@;
        self.collect_child(&self.child_c, &mut cells, lowerbound, upperbound);
        let ghost after_c = cells@;
        self.collect_child(&self.child_d, &mut cells, lowerbound, upperbound);
        proof {
            assert(cells@ =~= node_cells(*self, *lowerbound, *upperbound));
            assert forall|i: int, j: int|
                #![trigger self.contains_cell(i, j)]
                self.contains_cell(i, j) && !cells@.contains((i as usize, j as usize)) implies cell_quiet(
                    self.grid().0,
                    self.grid().1,
                    i,
                    j,
                    *lowerbound,
                    *upperbound,
                ) by {
                let v = (i as usize, j as usize);
                assert(!after_c.contains(v));
                assert(!after_b.contains(v));
                assert(!after_a.contains(v));
                if TreeNode::child_has(self.child_a, i, j) {
                } else if TreeNode::child_has(self.child_b, i, j) {
                } else if TreeNode::child_has(self.child_c, i, j) {
                } else {
                    assert(TreeNode::child_has(self.child_d, i, j));
                }
            }
        }
        cells
    }
}


impl TreeNode {
    /// The first child: the lowest cells of both axes.
    pub fn child_a(&self) -> (r: Option<&TreeNode>)
        ensures
            r is Some <==> self.child_node(0) is Some,
            r matches Some(c) ==> *c == self.child_node(0)->Some_0,
    {
        match &self.child_a {
            Some(b) => Some(&**b),
            None => None,
        }
    }

    /// The child to the right of the first one.
    pub fn child_b(&self) -> (r: Option<&TreeNode>)
        ensures
            r is Some <==> self.child_node(1) is Some,
            r matches Some(c) ==> *c == self.child_node(1)->Some_0,
    {
        match &self.child_b {
            Some(b) => Some(&**b),
            None => None,
        }
    }

    /// The child above and to the right of the first one.
    pub fn child_c(&self) -> (r: Option<&TreeNode>)
        ensures
            r is Some <==> self.child_node(2) is Some,
            r matches Some(c) ==> *c == self.child_node(2)->Some_0,
    {
        match &self.child_c {
            Some(b) => Some(&**b),
            None => None,
        }
    }

    /// The child above the first one.
    pub fn child_d(&self) -> (r: Option<&TreeNode>)
        ensures
            r is Some <==> self.child_node(3) is Some,
            r matches Some(c) ==> *c == self.child_node(3)->Some_0,
    {
        match &self.child_d {
            Some(b) => Some(&**b),
            None => None,
        }
    }

    /// The column of the node's first cell.
    pub fn x(&self) -> (r: usize)
        ensures
            r == self.region().0,
    {
        self.x
    }

    /// The row of the node's first cell.
    pub fn y(&self) -> (r: usize)
        ensures
            r == self.region().1,
    {
        self.y
    }

    /// The smallest sample under the node.
    pub fn lower_bound(&self) -> (r: Sample)
        ensures
            r == self.bounds().0,
    {
        self.lower_bound
    }

    /// The largest sample under the node.
    pub fn upper_bound(&self) -> (r: Sample)
        ensures
            r == self.bounds().1,
    {
        self.upper_bound
    }
}

/// The cells `(i, j)` of a grid `w` by `h`: `0 <= i < w - 1`, `0 <= j < h - 1`.
pub open spec fn is_cell(i: int, j: int, w: int, h: int) -> bool {
    0 <= i < w - 1 && 0 <= j < h - 1
}

/// The quadtree of a whole grid; a grid one sample wide or high has no cells
/// and no root.
pub struct QuadTree {
    pub root: Option<Box<TreeNode>>,
    pub samples: Ghost<Seq<Sample>>,
    pub grid_width: Ghost<int>,
    pub grid_height: Ghost<int>,
}

impl QuadTree {
    /// The samples of the grid, their row length and their number of rows.
    pub open spec fn grid(self) -> (Seq<Sample>, int, int) {
        (self.samples@, self.grid_width@, self.grid_height@)
    }

    pub open spec fn root_node(self) -> Option<TreeNode> {
        match self.root {
            Some(b) => Some(*b),
            None => None,
        }
    }

    pub open spec fn wf(self) -> bool {
        match self.root {
            None => self.grid_width@ <= 1 || self.grid_height@ <= 1,
            Some(r) => {
                &&& r.wf()
                &&& r.grid() == self.grid()
                &&& r.region() == (0int, 0int, self.grid_width@ - 1, self.grid_height@ - 1)
            },
        }
    }

    /// The quadtree over all cells of `data`.
    pub fn new(data: &BorrowedGrid<Sample>) -> (t: QuadTree)
        requires
            data.wf(),
        ensures
            t.wf(),
            t.grid() == (data@, data.spec_width() as int, data.spec_height() as int),
    {
        let w = data.width();
        let h = data.height();
        let root = if w > 1 && h > 1 {
            Some(Box::new(TreeNode::new(data, 0, 0, w - 1, h - 1)))
        } else {
            None
        };
        QuadTree {
            root,
            samples: Ghost(data@),
            grid_width: Ghost(w as int),
            grid_height: Ghost(h as int),
        }
    }

    /// The root node, if the grid has cells.
    pub fn root(&self) -> (r: Option<&TreeNode>)
        ensures
            r is Some <==> self.root_node() is Some,
            r matches Some(c) ==> *c == self.root_node()->Some_0,
    {
        match &self.root {
            Some(b) => Some(&**b),
            None => None,
        }
    }

    /// The cells that the band `[lowerbound, upperbound]` may cross: every
    /// cell of the grid that is left out is quiet for the band.
    pub fn cells_in_band(&self, lowerbound: &Sample, upperbound: &Sample) -> (cells: Vec<GridCoord>)
        requires
            self.wf(),
        ensures
            forall|k: int|
                0 <= k < cells@.len() ==> is_cell(
                    #[trigger] cells@[k].0 as int,
                    cells@[k].1 as int,
                    self.grid().1,
                    self.grid().2,
                ),
            cells@ == (match self.root {
                Some(r) => node_cells(*r, *lowerbound, *upperbound),
                None => seq![],
            }),
            forall|i: int, j: int|
                is_cell(i, j, self.grid().1, self.grid().2) && !cells@.contains(
                    (i as usize, j as usize),
                ) ==> #[trigger] cell_quiet(
                    self.grid().0,
                    self.grid().1,
                    i,
                    j,
                    *lowerbound,
                    *upperbound,
                ),
    {
        match &self.root {
            None => Vec::new(),
            Some(r) => {
                let cells = r.cells_in_band(lowerbound, upperbound);
                proof {
                    assert forall|k: int| 0 <= k < cells@.len() implies is_cell(
                        #[trigger] cells@[k].0 as int,
                        cells@[k].1 as int,
                        self.grid().1,
                        self.grid().2,
                    ) by {
                        assert(r.contains_cell(cells@[k].0 as int, cells@[k].1 as int));
                    }
                    assert forall|i: int, j: int|
                        is_cell(i, j, self.grid().1, self.grid().2) && !cells@.contains(
                            (i as usize, j as usize),
                        ) implies #[trigger] cell_quiet(
                        self.grid().0,
                        self.grid().1,
                        i,
                        j,
                        *lowerbound,
                        *upperbound,
                    ) by {
                        assert(r.contains_cell(i, j));
                    }
                }
                cells
            },
        }
    }
}

} // verus!
