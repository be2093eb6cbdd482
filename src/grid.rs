//! Rectangular grids stored row by row.
use vstd::prelude::*;

verus! {

/// A grid position: column first, then row.
pub type GridCoord = (usize, usize);

/// The flat index of column `x` of row `y` lies inside a `w` by `h` grid.
pub proof fn lemma_flat_index(x: int, y: int, w: int, h: int)
    requires
        0 <= x < w,
        0 <= y < h,
    ensures
        0 <= y * w + x < w * h,
        y * w + x + 1 <= w * h,
        w * h == h * w,
{
    assert(w * h == h * w) by (nonlinear_arith);
    assert(y * w + x < w * h) by (nonlinear_arith)
        requires
            0 <= x < w,
            0 <= y < h,
    ;
    assert(0 <= y * w) by (nonlinear_arith)
        requires
            0 <= y,
            0 <= w,
    ;
}

/// Row `r` of a grid `w` wide starts at `r * w` and ends at `r * w + w`.
proof fn lemma_row_bounds(r: int, w: int, h: int)
    requires
        0 <= r < h,
        0 <= w,
    ensures
        0 <= r * w,
        r * w + w <= w * h,
        w * h == h * w,
{
    assert(w * h == h * w) by (nonlinear_arith);
    assert(0 <= r * w) by (nonlinear_arith)
        requires
            0 <= r,
            0 <= w,
    ;
    assert(r * w + w <= w * h) by (nonlinear_arith)
        requires
            0 <= r < h,
            0 <= w,
    ;
}

/// An owned grid of `width * height` values, row after row.
#[derive(Debug)]
pub struct Grid<T> {
    array: Vec<T>,
    width: usize,
    height: usize,
}

impl<T> Grid<T> {
    pub closed spec fn spec_width(&self) -> nat {
        self.width as nat
    }

    pub closed spec fn spec_height(&self) -> nat {
        self.height as nat
    }

    /// The values, row after row.
    pub closed spec fn view(&self) -> Seq<T> {
        self.array@
    }

    pub open spec fn wf(&self) -> bool {
        &&& self@.len() == self.spec_width() * self.spec_height()
        &&& self.spec_width() <= usize::MAX
        &&& self.spec_height() <= usize::MAX
    }

    /// The value at column `x` of row `y`.
    pub open spec fn at(&self, x: int, y: int) -> T {
        self@[y * self.spec_width() + x]
    }

    /// A grid of the given size filled with `T::default()`.
    pub fn new(width: usize, height: usize) -> (g: Self)
        where
            T: Default + Copy,
        requires
            width * height <= usize::MAX,
        ensures
            g.wf(),
            g.spec_width() == width,
            g.spec_height() == height,
            forall|k: int| 0 <= k < g@.len() ==> call_ensures(T::default, (), #[trigger] g@[k]),
    {
        let n = width * height;
        let fill = T::default();
        let mut array: Vec<T> = Vec::new();
        let mut k: usize = 0;
        while k < n
            invariant
                k <= n,
                array@.len() == k,
                forall|m: int| 0 <= m < k ==> array@[m] == fill,
            decreases n - k,
        {
            array.push(fill);
            k = k + 1;
        }
        Grid { array, width, height }
    }

    /// A grid over `vec`, whose length is `width * height`.
    pub fn new_from_vec(vec: Vec<T>, width: usize, height: usize) -> (g: Self)
        requires
            vec@.len() == width * height,
        ensures
            g.wf(),
            g@ == vec@,
            g.spec_width() == width,
            g.spec_height() == height,
    {
        Grid { array: vec, width, height }
    }

    /// A grid made of equally long rows, the first row first.
    pub fn from_rows(rows: &[Vec<T>]) -> (g: Self)
        where
            T: Copy,
        requires
            rows@.len() > 0,
            forall|r: int| 0 <= r < rows@.len() ==> (#[trigger] rows@[r])@.len() == rows@[0]@.len(),
            rows@.len() * rows@[0]@.len() <= usize::MAX,
        ensures
            g.wf(),
            g.spec_width() == rows@[0]@.len(),
            g.spec_height() == rows@.len(),
            forall|x: int, y: int|
                0 <= x < g.spec_width() && 0 <= y < g.spec_height() ==> #[trigger] g.at(x, y)
                    == rows@[y]@[x],
    {
        let width = rows[0].len();
        let height = rows.len();
        let mut array: Vec<T> = Vec::new();
        let mut r: usize = 0;
        while r < height
            invariant
                r <= height,
                height == rows@.len(),
                width == rows@[0]@.len(),
                height * width <= usize::MAX,
                forall|q: int| 0 <= q < rows@.len() ==> (#[trigger] rows@[q])@.len() == width,
                array@.len() == r * width,
                forall|y: int, x: int|
                    0 <= y < r && 0 <= x < width ==> array@[y * width + x] == rows@[y]@[x],
            decreases height - r,
        {
            let row = &rows[r];
            let mut c: usize = 0;
            proof {
                lemma_row_bounds(r as int, width as int, height as int);
            }
            while c < width
                invariant
                    c <= width,
                    r < height,
                    row@ == rows@[r as int]@,
                    row@.len() == width,
                    r * width + width <= width * height,
                    array@.len() == r * width + c,
                    forall|y: int, x: int|
                        0 <= y < r && 0 <= x < width ==> array@[y * width + x] == rows@[y]@[x],
                    forall|x: int| 0 <= x < c ==> array@[r * width + x] == rows@[r as int]@[x],
                decreases width - c,
            {
                array.push(row[c]);
                c = c + 1;
                proof {
                    assert forall|y: int, x: int|
                        0 <= y < r && 0 <= x < width implies array@[y * width + x]
                        == rows@[y]@[x] by {
                        lemma_flat_index(x, y, width as int, r as int);
                    }
                }
            }
            proof {
                assert forall|y: int, x: int|
                    0 <= y < r + 1 && 0 <= x < width implies array@[y * width + x]
                    == rows@[y]@[x] by {
                    if y == r {
                    } else {
                        lemma_flat_index(x, y, width as int, r as int);
                    }
                }
                assert((r + 1) * width == r * width + width) by (nonlinear_arith);
            }
            r = r + 1;
        }
        assert(height * width == width * height) by (nonlinear_arith);
        Grid { array, width, height }
    }

    /// The rows of the grid, the first row first.
    pub fn iter_rows(&self) -> (rows: Vec<Vec<T>>)
        where
            T: Copy,
        requires
            self.wf(),
            self.spec_width() > 0,
        ensures
            rows@.len() == self.spec_height(),
            forall|r: int|
                0 <= r < self.spec_height() ==> (#[trigger] rows@[r])@ == self@.subrange(
                    r * self.spec_width(),
                    r * self.spec_width() + self.spec_width(),
                ),
    {
        rows_of(&self.array, self.width, self.height)
    }

    /// Every value with its column and row, in storage order.
    pub fn iter(&self) -> (items: Vec<(T, usize, usize)>)
        where
            T: Copy,
        requires
            self.wf(),
        ensures
            items@.len() == self@.len(),
            forall|k: int|
                0 <= k < items@.len() ==> #[trigger] items@[k] == (
                    self@[k],
                    (k % self.spec_width() as int) as usize,
                    (k / self.spec_width() as int) as usize,
                ),
    {
        let mut items: Vec<(T, usize, usize)> = Vec::new();
        let n = self.array.len();
        let mut k: usize = 0;
        while k < n
            invariant
                k <= n,
                n == self@.len(),
                self.wf(),
                items@.len() == k,
                forall|m: int|
                    0 <= m < k ==> #[trigger] items@[m] == (
                        self@[m],
                        (m % self.spec_width() as int) as usize,
                        (m / self.spec_width() as int) as usize,
                    ),
            decreases n - k,
        {
            assert(self.width > 0) by {
                if self.width == 0 {
                    assert(self.spec_width() * self.spec_height() == 0) by (nonlinear_arith)
                        requires
                            self.spec_width() == 0,
                    ;
                }
            }
            items.push((self.array[k], k % self.width, k / self.width));
            k = k + 1;
        }
        items
    }

    /// Replaces every value by `f(value, column, row)`.
    pub fn iter_mut<F: Fn(T, usize, usize) -> T>(&mut self, f: F)
        where
            T: Copy,
        requires
            old(self).wf(),
            forall|v: T, x: usize, y: usize| #[trigger] f.requires((v, x, y)),
        ensures
            final(self).wf(),
            final(self).spec_width() == old(self).spec_width(),
            final(self).spec_height() == old(self).spec_height(),
            final(self)@.len() == old(self)@.len(),
            forall|k: int|
                0 <= k < old(self)@.len() ==> f.ensures(
                    (
                        old(self)@[k],
                        (k % old(self).spec_width() as int) as usize,
                        (k / old(self).spec_width() as int) as usize,
                    ),
                    #[trigger] final(self)@[k],
                ),
    {
        let n = self.array.len();
        let w = self.width;
        let mut k: usize = 0;
        while k < n
            invariant
                k <= n,
                n == self@.len(),
                n == old(self)@.len(),
                w == self.width,
                self.width == old(self).width,
                self.height == old(self).height,
                self.wf(),
                forall|v: T, x: usize, y: usize| #[trigger] f.requires((v, x, y)),
                forall|m: int| k <= m < n ==> self@[m] == old(self)@[m],
                forall|m: int|
                    0 <= m < k ==> f.ensures(
                        (old(self)@[m], (m % w as int) as usize, (m / w as int) as usize),
                        #[trigger] self@[m],
                    ),
            decreases n - k,
        {
            assert(w > 0) by {
                if w == 0 {
                    assert(self.spec_width() * self.spec_height() == 0) by (nonlinear_arith)
                        requires
                            self.spec_width() == 0,
                    ;
                }
            }
            let v = f(self.array[k], k % w, k / w);
            self.array.set(k, v);
            k = k + 1;
        }
    }

    pub fn width(&self) -> (r: usize)
        ensures
            r == self.spec_width(),
    {
        self.width
    }

    pub fn height(&self) -> (r: usize)
        ensures
            r == self.spec_height(),
    {
        self.height
    }

    pub fn has(&self, p: &GridCoord) -> (r: bool)
        ensures
            r == (p.0 < self.spec_width() && p.1 < self.spec_height()),
    {
        p.0 < self.width && p.1 < self.height
    }

    /// The value at `p`, or `None` outside the grid.
    pub fn get(&self, p: &GridCoord) -> (r: Option<&T>)
        requires
            self.wf(),
        ensures
            r == (if p.0 < self.spec_width() && p.1 < self.spec_height() {
                Some(&self.at(p.0 as int, p.1 as int))
            } else {
                None
            }),
    {
        let n = self.array.len();
        if !self.has(p) {
            None
        } else {
            proof {
                lemma_flat_index(p.0 as int, p.1 as int, self.width as int, self.height as int);
            }
            Some(&self.array[p.1 * self.width + p.0])
        }
    }

    /// The value at `p`, which lies inside the grid.
    pub fn index(&self, p: GridCoord) -> (r: &T)
        requires
            self.wf(),
            p.0 < self.spec_width(),
            p.1 < self.spec_height(),
        ensures
            *r == self.at(p.0 as int, p.1 as int),
    {
        let n = self.array.len();
        proof {
            lemma_flat_index(p.0 as int, p.1 as int, self.width as int, self.height as int);
        }
        &self.array[p.1 * self.width + p.0]
    }
}

/// The `height` consecutive rows, each `width` long, of `array`.
fn rows_of<T: Copy>(array: &[T], width: usize, height: usize) -> (rows: Vec<Vec<T>>)
    requires
        array@.len() == width * height,
        width > 0,
    ensures
        rows@.len() == height,
        forall|r: int|
            0 <= r < height ==> (#[trigger] rows@[r])@ == array@.subrange(r * width, r * width + width),
{
    let n = array.len();
    let mut rows: Vec<Vec<T>> = Vec::new();
    let mut r: usize = 0;
    while r < height
        invariant
            r <= height,
            array@.len() == width * height,
            n == array@.len(),
            rows@.len() == r,
            forall|q: int|
                0 <= q < r ==> (#[trigger] rows@[q])@ == array@.subrange(q * width, q * width + width),
        decreases height - r,
    {
        proof {
            lemma_row_bounds(r as int, width as int, height as int);
        }
        let start = r * width;
        let mut row: Vec<T> = Vec::new();
        let mut c: usize = 0;
        while c < width
            invariant
                c <= width,
                start == r * width,
                start + width <= array@.len(),
                array@.len() == n,
                row@ == array@.subrange(start as int, start + c),
            decreases width - c,
        {
            row.push(array[start + c]);
            c = c + 1;
            assert(row@ =~= array@.subrange(start as int, start + c));
        }
        rows.push(row);
        r = r + 1;
    }
    rows
}

/// A grid of `width * height` values borrowed from a slice, row after row.
pub struct BorrowedGrid<'a, T> {
    array: &'a [T],
    width: usize,
    height: usize,
}

impl<'a, T> BorrowedGrid<'a, T> {
    pub closed spec fn spec_width(&self) -> nat {
        self.width as nat
    }

    pub closed spec fn spec_height(&self) -> nat {
        self.height as nat
    }

    /// The values, row after row.
    pub closed spec fn view(&self) -> Seq<T> {
        self.array@
    }

    pub open spec fn wf(&self) -> bool {
        &&& self@.len() == self.spec_width() * self.spec_height()
        &&& self.spec_width() <= usize::MAX
        &&& self.spec_height() <= usize::MAX
    }

    /// The value at column `x` of row `y`.
    pub open spec fn at(&self, x: int, y: int) -> T {
        self@[y * self.spec_width() + x]
    }

    /// A grid over `array`, whose length is `width * height`.
    pub fn new(array: &'a [T], width: usize, height: usize) -> (g: Self)
        requires
            array@.len() == width * height,
        ensures
            g.wf(),
            g@ == array@,
            g.spec_width() == width,
            g.spec_height() == height,
    {
        BorrowedGrid { array, width, height }
    }

    /// The rows of the grid, the first row first.
    pub fn iter_rows(&self) -> (rows: Vec<Vec<T>>)
        where
            T: Copy,
        requires
            self.wf(),
            self.spec_width() > 0,
        ensures
            rows@.len() == self.spec_height(),
            forall|r: int|
                0 <= r < self.spec_height() ==> (#[trigger] rows@[r])@ == self@.subrange(
                    r * self.spec_width(),
                    r * self.spec_width() + self.spec_width(),
                ),
    {
        rows_of(self.array, self.width, self.height)
    }

    pub fn width(&self) -> (r: usize)
        ensures
            r == self.spec_width(),
    {
        self.width
    }

    pub fn height(&self) -> (r: usize)
        ensures
            r == self.spec_height(),
    {
        self.height
    }

    pub fn has(&self, p: &GridCoord) -> (r: bool)
        ensures
            r == (p.0 < self.spec_width() && p.1 < self.spec_height()),
    {
        p.0 < self.width && p.1 < self.height
    }

    /// The value at `p`, or `None` outside the grid.
    pub fn get(&self, p: &GridCoord) -> (r: Option<&T>)
        requires
            self.wf(),
        ensures
            r == (if p.0 < self.spec_width() && p.1 < self.spec_height() {
                Some(&self.at(p.0 as int, p.1 as int))
            } else {
                None
            }),
    {
        let n = self.array.len();
        if !self.has(p) {
            None
        } else {
            proof {
                lemma_flat_index(p.0 as int, p.1 as int, self.width as int, self.height as int);
            }
            Some(&self.array[p.1 * self.width + p.0])
        }
    }

    /// The value at `p`, which lies inside the grid.
    pub fn index(&self, p: GridCoord) -> (r: &T)
        requires
            self.wf(),
            p.0 < self.spec_width(),
            p.1 < self.spec_height(),
        ensures
            *r == self.at(p.0 as int, p.1 as int),
    {
        let n = self.array.len();
        proof {
            lemma_flat_index(p.0 as int, p.1 as int, self.width as int, self.height as int);
        }
        &self.array[p.1 * self.width + p.0]
    }
}

} // verus!
