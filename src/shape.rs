//! The cell classifier: which boundary fragments of a band cross one cell.
use vstd::prelude::*;
use crate::errors::ErrorKind;
use crate::grid::BorrowedGrid;
use crate::sample::{Level, Sample, Settings, is_finite, level_of, lt, gt};

verus! {

/// A side of a cell.
#[derive(Clone, Copy, Debug, PartialEq, Eq, Structural)]
pub enum Side {
    Left,
    Right,
    Bottom,
    Top,
}

/// The four corners of a cell, in the order of its samples `x0` to `x3`.
#[derive(Clone, Copy, Debug, PartialEq, Eq, Structural)]
pub enum Corner {
    BottomLeft,
    BottomRight,
    TopRight,
    TopLeft,
}

/// Which crossing of a side a position stands for: the one of whichever
/// threshold lies between the two samples, the lower one, or the upper one.
#[derive(Clone, Copy, Debug, PartialEq, Eq, Structural)]
pub enum InterpKind {
    Both,
    Lower,
    Upper,
}

/// A position between 0 and 1 along a side, found by linear interpolation
/// from the sample at corner `from` to the sample at corner `to`.
#[derive(Clone, Copy, Debug, PartialEq, Eq, Structural)]
pub struct Interpolation {
    pub kind: InterpKind,
    pub from: Corner,
    pub to: Corner,
}

/// A point on the boundary of a cell: on side `side`, at position `t` along
/// it (left to right on the bottom and top sides, bottom to top on the left
/// and right sides).
#[derive(Clone, Copy, Debug, PartialEq, Eq, Structural)]
pub struct CellPoint {
    pub side: Side,
    pub t: Interpolation,
}

/// One of the up to two crossings on each side of a cell. The first letter
/// names the side, the second which end of that side the crossing is nearer.
#[derive(Clone, Copy, Debug, PartialEq, Eq, Structural)]
pub enum EnterType {
    TL,
    LT,
    LB,
    BL,
    BR,
    RB,
    RT,
    TR,
}

/// Where a boundary goes on after a fragment: the offset of the next cell
/// and the crossing it is picked up at there.
#[derive(Clone, Copy, Debug, PartialEq, Eq, Structural)]
pub struct MoveInfo {
    pub x: i32,
    pub y: i32,
    pub enter: EnterType,
}

/// A fragment of band boundary inside one cell, from `start` to `end`.
#[derive(Clone, Copy, Debug, PartialEq, Eq, Structural)]
pub struct Edge {
    pub start: CellPoint,
    pub end: CellPoint,
    pub move_info: MoveInfo,
}

/// One cell for one band: its four corner samples and its fragments, one
/// slot per `EnterType`, keyed by the crossing the fragment starts at.
#[derive(Debug)]
pub struct Cell {
    pub x0: Sample,
    pub x1: Sample,
    pub x2: Sample,
    pub x3: Sample,
    pub edges: Vec<Option<Edge>>,
}

impl EnterType {
    pub open spec fn spec_index(self) -> int {
        match self {
            EnterType::TL => 0,
            EnterType::LT => 1,
            EnterType::LB => 2,
            EnterType::BL => 3,
            EnterType::BR => 4,
            EnterType::RB => 5,
            EnterType::RT => 6,
            EnterType::TR => 7,
        }
    }

    /// The slot of this crossing in a cell's fragment list.
    pub fn index(&self) -> (r: usize)
        ensures
            r == self.spec_index(),
            r < 8,
    {
        match self {
            EnterType::TL => 0,
            EnterType::LT => 1,
            EnterType::LB => 2,
            EnterType::BL => 3,
            EnterType::BR => 4,
            EnterType::RB => 5,
            EnterType::RT => 6,
            EnterType::TR => 7,
        }
    }

    pub open spec fn spec_side(self) -> Side {
        match self {
            EnterType::TL | EnterType::TR => Side::Top,
            EnterType::LT | EnterType::LB => Side::Left,
            EnterType::BL | EnterType::BR => Side::Bottom,
            EnterType::RB | EnterType::RT => Side::Right,
        }
    }
}

/// The crossing stored in slot `k` of a cell.
pub open spec fn enter_at(k: int) -> EnterType {
    if k == 0 {
        EnterType::TL
    } else if k == 1 {
        EnterType::LT
    } else if k == 2 {
        EnterType::LB
    } else if k == 3 {
        EnterType::BL
    } else if k == 4 {
        EnterType::BR
    } else if k == 5 {
        EnterType::RB
    } else if k == 6 {
        EnterType::RT
    } else {
        EnterType::TR
    }
}

pub open spec fn opposite(s: Side) -> Side {
    match s {
        Side::Left => Side::Right,
        Side::Right => Side::Left,
        Side::Bottom => Side::Top,
        Side::Top => Side::Bottom,
    }
}

/// The offset to the neighbouring cell across side `s`.
pub open spec fn step_across(s: Side) -> (int, int) {
    match s {
        Side::Left => (-1, 0),
        Side::Right => (1, 0),
        Side::Bottom => (0, -1),
        Side::Top => (0, 1),
    }
}

/// A fragment stored in slot `k` is consistent: it starts on the side of
/// its crossing, ends on another side, moves across the side it ends on, and
/// is picked up in the next cell on the matching side there.
pub open spec fn edge_wf(k: int, e: Edge) -> bool {
    &&& e.start.side == enter_at(k).spec_side()
    &&& e.end.side != e.start.side
    &&& (e.move_info.x as int, e.move_info.y as int) == step_across(e.end.side)
    &&& e.move_info.enter.spec_side() == opposite(e.end.side)
}

/// Eight slots, each empty or holding a consistent fragment.
pub open spec fn edges_wf(e: Seq<Option<Edge>>) -> bool {
    &&& e.len() == 8
    &&& forall|k: int| 0 <= k < 8 && (#[trigger] e[k]) is Some ==> edge_wf(k, e[k]->Some_0)
}

pub open spec fn no_edges() -> Seq<Option<Edge>> {
    seq![None, None, None, None, None, None, None, None]
}

pub open spec fn cell_point(side: Side, kind: InterpKind, from: Corner, to: Corner) -> CellPoint {
    CellPoint { side, t: Interpolation { kind, from, to } }
}

pub open spec fn fragment_of(start: CellPoint, end: CellPoint, x: int, y: int, enter: EnterType) -> Edge {
    Edge { start, end, move_info: MoveInfo { x: x as i32, y: y as i32, enter } }
}

fn at(side: Side, kind: InterpKind, from: Corner, to: Corner) -> (p: CellPoint)
    ensures
        p == cell_point(side, kind, from, to),
{
    CellPoint { side, t: Interpolation { kind, from, to } }
}

fn fragment(start: CellPoint, end: CellPoint, x: i32, y: i32, enter: EnterType) -> (e: Edge)
    ensures
        e == fragment_of(start, end, x as int, y as int, enter),
{
    Edge { start, end, move_info: MoveInfo { x, y, enter } }
}

impl Cell {
    pub open spec fn wf(&self) -> bool {
        self.edges@.len() == 8
    }

    pub open spec fn corners(&self) -> (Sample, Sample, Sample, Sample) {
        (self.x0, self.x1, self.x2, self.x3)
    }

    /// Stores `e` as the fragment that starts at crossing `key`.
    pub fn set_edge(&mut self, key: EnterType, e: Edge)
        requires
            old(self).wf(),
        ensures
            final(self).wf(),
            final(self).corners() == old(self).corners(),
            final(self).edges@ == old(self).edges@.update(key.spec_index(), Some(e)),
    {
        let k = key.index();
        self.edges.set(k, Some(e));
    }
}

/// The digit that a corner's level adds to a cell code.
pub open spec fn level_digit(l: Level) -> u8 {
    match l {
        Level::Below => 0,
        Level::Within => 1,
        Level::Above => 2,
    }
}

/// The cell code: one base-4 digit per corner, `x0` the lowest.
pub open spec fn cell_code(l0: Level, l1: Level, l2: Level, l3: Level) -> u8 {
    (level_digit(l0) + 4 * level_digit(l1) + 16 * level_digit(l2) + 64 * level_digit(
        l3,
    )) as u8
}

/// The level of the average of a cell's corners, which settles the
/// ambiguous codes: above is tested first.
pub open spec fn center_level_of(avg: Sample, opt: Settings) -> Level {
    if gt(avg, opt.max_v) {
        Level::Above
    } else if lt(avg, opt.min_v) {
        Level::Below
    } else {
        Level::Within
    }
}

impl Settings {
    /// The level of a cell's average sample; see `center_level_of`.
    pub fn center_level(&self, avg: &Sample) -> (r: Level)
        ensures
            r == center_level_of(*avg, *self),
    {
        if avg.greater_than(&self.max_v) {
            Level::Above
        } else if avg.less_than(&self.min_v) {
            Level::Below
        } else {
            Level::Within
        }
    }
}

fn digit(l: Level) -> (d: u8)
    ensures
        d == level_digit(l),
{
    match l {
        Level::Below => 0,
        Level::Within => 1,
        Level::Above => 2,
    }
}

pub open spec fn triangle_bl_edges(e: Seq<Option<Edge>>) -> Seq<Option<Edge>> {
    e.update(
        EnterType::LB.spec_index(),
        Some(fragment_of(
            cell_point(Side::Left, InterpKind::Both, Corner::BottomLeft, Corner::TopLeft),
            cell_point(Side::Bottom, InterpKind::Both, Corner::BottomLeft, Corner::BottomRight),
            0,
            -1,
            EnterType::TL,
        )),
    )
}

fn triangle_bl(cell: &mut Cell)
    requires
        old(cell).wf(),
    ensures
        final(cell).wf(),
        final(cell).corners() == old(cell).corners(),
        final(cell).edges@ == triangle_bl_edges(old(cell).edges@),
{
    cell.set_edge(
        EnterType::LB,
        fragment(
            at(Side::Left, InterpKind::Both, Corner::BottomLeft, Corner::TopLeft),
            at(Side::Bottom, InterpKind::Both, Corner::BottomLeft, Corner::BottomRight),
            0,
            -1,
            EnterType::TL,
        ),
    );
}

pub open spec fn triangle_br_edges(e: Seq<Option<Edge>>) -> Seq<Option<Edge>> {
    e.update(
        EnterType::BR.spec_index(),
        Some(fragment_of(
            cell_point(Side::Bottom, InterpKind::Both, Corner::BottomLeft, Corner::BottomRight),
            cell_point(Side::Right, InterpKind::Both, Corner::BottomRight, Corner::TopRight),
            1,
            0,
            EnterType::LB,
        )),
    )
}

fn triangle_br(cell: &mut Cell)
    requires
        old(cell).wf(),
    ensures
        final(cell).wf(),
        final(cell).corners() == old(cell).corners(),
        final(cell).edges@ == triangle_br_edges(old(cell).edges@),
{
    cell.set_edge(
        EnterType::BR,
        fragment(
            at(Side::Bottom, InterpKind::Both, Corner::BottomLeft, Corner::BottomRight),
            at(Side::Right, InterpKind::Both, Corner::BottomRight, Corner::TopRight),
            1,
            0,
            EnterType::LB,
        ),
    );
}

pub open spec fn triangle_tr_edges(e: Seq<Option<Edge>>) -> Seq<Option<Edge>> {
    e.update(
        EnterType::RT.spec_index(),
        Some(fragment_of(
            cell_point(Side::Right, InterpKind::Both, Corner::BottomRight, Corner::TopRight),
            cell_point(Side::Top, InterpKind::Both, Corner::TopLeft, Corner::TopRight),
            0,
            1,
            EnterType::BR,
        )),
    )
}

fn triangle_tr(cell: &mut Cell)
    requires
        old(cell).wf(),
    ensures
        final(cell).wf(),
        final(cell).corners() == old(cell).corners(),
        final(cell).edges@ == triangle_tr_edges(old(cell).edges@),
{
    cell.set_edge(
        EnterType::RT,
        fragment(
            at(Side::Right, InterpKind::Both, Corner::BottomRight, Corner::TopRight),
            at(Side::Top, InterpKind::Both, Corner::TopLeft, Corner::TopRight),
            0,
            1,
            EnterType::BR,
        ),
    );
}

pub open spec fn triangle_tl_edges(e: Seq<Option<Edge>>) -> Seq<Option<Edge>> {
    e.update(
        EnterType::TL.spec_index(),
        Some(fragment_of(
            cell_point(Side::Top, InterpKind::Both, Corner::TopLeft, Corner::TopRight),
            cell_point(Side::Left, InterpKind::Both, Corner::BottomLeft, Corner::TopLeft),
            -1,
            0,
            EnterType::RT,
        )),
    )
}

fn triangle_tl(cell: &mut Cell)
    requires
        old(cell).wf(),
    ensures
        final(cell).wf(),
        final(cell).corners() == old(cell).corners(),
        final(cell).edges@ == triangle_tl_edges(old(cell).edges@),
{
    cell.set_edge(
        EnterType::TL,
        fragment(
            at(Side::Top, InterpKind::Both, Corner::TopLeft, Corner::TopRight),
            at(Side::Left, InterpKind::Both, Corner::BottomLeft, Corner::TopLeft),
            -1,
            0,
            EnterType::RT,
        ),
    );
}

pub open spec fn tetragon_t_edges(e: Seq<Option<Edge>>) -> Seq<Option<Edge>> {
    e.update(
        EnterType::RT.spec_index(),
        Some(fragment_of(
            cell_point(Side::Right, InterpKind::Both, Corner::BottomRight, Corner::TopRight),
            cell_point(Side::Left, InterpKind::Both, Corner::BottomLeft, Corner::TopLeft),
            -1,
            0,
            EnterType::RT,
        )),
    )
}

fn tetragon_t(cell: &mut Cell)
    requires
        old(cell).wf(),
    ensures
        final(cell).wf(),
        final(cell).corners() == old(cell).corners(),
        final(cell).edges@ == tetragon_t_edges(old(cell).edges@),
{
    cell.set_edge(
        EnterType::RT,
        fragment(
            at(Side::Right, InterpKind::Both, Corner::BottomRight, Corner::TopRight),
            at(Side::Left, InterpKind::Both, Corner::BottomLeft, Corner::TopLeft),
            -1,
            0,
            EnterType::RT,
        ),
    );
}

pub open spec fn tetragon_r_edges(e: Seq<Option<Edge>>) -> Seq<Option<Edge>> {
    e.update(
        EnterType::BR.spec_index(),
        Some(fragment_of(
            cell_point(Side::Bottom, InterpKind::Both, Corner::BottomLeft, Corner::BottomRight),
            cell_point(Side::Top, InterpKind::Both, Corner::TopLeft, Corner::TopRight),
            0,
            1,
            EnterType::BR,
        )),
    )
}

fn tetragon_r(cell: &mut Cell)
    requires
        old(cell).wf(),
    ensures
        final(cell).wf(),
        final(cell).corners() == old(cell).corners(),
        final(cell).edges@ == tetragon_r_edges(old(cell).edges@),
{
    cell.set_edge(
        EnterType::BR,
        fragment(
            at(Side::Bottom, InterpKind::Both, Corner::BottomLeft, Corner::BottomRight),
            at(Side::Top, InterpKind::Both, Corner::TopLeft, Corner::TopRight),
            0,
            1,
            EnterType::BR,
        ),
    );
}

pub open spec fn tetragon_b_edges(e: Seq<Option<Edge>>) -> Seq<Option<Edge>> {
    e.update(
        EnterType::LB.spec_index(),
        Some(fragment_of(
            cell_point(Side::Left, InterpKind::Both, Corner::BottomLeft, Corner::TopLeft),
            cell_point(Side::Right, InterpKind::Both, Corner::BottomRight, Corner::TopRight),
            1,
            0,
            EnterType::LB,
        )),
    )
}

fn tetragon_b(cell: &mut Cell)
    requires
        old(cell).wf(),
    ensures
        final(cell).wf(),
        final(cell).corners() == old(cell).corners(),
        final(cell).edges@ == tetragon_b_edges(old(cell).edges@),
{
    cell.set_edge(
        EnterType::LB,
        fragment(
            at(Side::Left, InterpKind::Both, Corner::BottomLeft, Corner::TopLeft),
            at(Side::Right, InterpKind::Both, Corner::BottomRight, Corner::TopRight),
            1,
            0,
            EnterType::LB,
        ),
    );
}

pub open spec fn tetragon_l_edges(e: Seq<Option<Edge>>) -> Seq<Option<Edge>> {
    e.update(
        EnterType::TL.spec_index(),
        Some(fragment_of(
            cell_point(Side::Top, InterpKind::Both, Corner::TopLeft, Corner::TopRight),
            cell_point(Side::Bottom, InterpKind::Both, Corner::BottomLeft, Corner::BottomRight),
            0,
            -1,
            EnterType::TL,
        )),
    )
}

fn tetragon_l(cell: &mut Cell)
    requires
        old(cell).wf(),
    ensures
        final(cell).wf(),
        final(cell).corners() == old(cell).corners(),
        final(cell).edges@ == tetragon_l_edges(old(cell).edges@),
{
    cell.set_edge(
        EnterType::TL,
        fragment(
            at(Side::Top, InterpKind::Both, Corner::TopLeft, Corner::TopRight),
            at(Side::Bottom, InterpKind::Both, Corner::BottomLeft, Corner::BottomRight),
            0,
            -1,
            EnterType::TL,
        ),
    );
}

pub open spec fn tetragon_bl_edges(e: Seq<Option<Edge>>) -> Seq<Option<Edge>> {
    e.update(
        EnterType::BL.spec_index(),
        Some(fragment_of(
            cell_point(Side::Bottom, InterpKind::Lower, Corner::BottomLeft, Corner::BottomRight),
            cell_point(Side::Left, InterpKind::Lower, Corner::BottomLeft, Corner::TopLeft),
            -1,
            0,
            EnterType::RB,
        )),
    ).update(
        EnterType::LT.spec_index(),
        Some(fragment_of(
            cell_point(Side::Left, InterpKind::Upper, Corner::BottomLeft, Corner::TopLeft),
            cell_point(Side::Bottom, InterpKind::Upper, Corner::BottomLeft, Corner::BottomRight),
            0,
            -1,
            EnterType::TR,
        )),
    )
}

fn tetragon_bl(cell: &mut Cell)
    requires
        old(cell).wf(),
    ensures
        final(cell).wf(),
        final(cell).corners() == old(cell).corners(),
        final(cell).edges@ == tetragon_bl_edges(old(cell).edges@),
{
    cell.set_edge(
        EnterType::BL,
        fragment(
            at(Side::Bottom, InterpKind::Lower, Corner::BottomLeft, Corner::BottomRight),
            at(Side::Left, InterpKind::Lower, Corner::BottomLeft, Corner::TopLeft),
            -1,
            0,
            EnterType::RB,
        ),
    );
    cell.set_edge(
        EnterType::LT,
        fragment(
            at(Side::Left, InterpKind::Upper, Corner::BottomLeft, Corner::TopLeft),
            at(Side::Bottom, InterpKind::Upper, Corner::BottomLeft, Corner::BottomRight),
            0,
            -1,
            EnterType::TR,
        ),
    );
}

pub open spec fn tetragon_br_edges(e: Seq<Option<Edge>>) -> Seq<Option<Edge>> {
    e.update(
        EnterType::BL.spec_index(),
        Some(fragment_of(
            cell_point(Side::Bottom, InterpKind::Lower, Corner::BottomLeft, Corner::BottomRight),
            cell_point(Side::Right, InterpKind::Upper, Corner::BottomRight, Corner::TopRight),
            1,
            0,
            EnterType::LT,
        )),
    ).update(
        EnterType::RB.spec_index(),
        Some(fragment_of(
            cell_point(Side::Right, InterpKind::Lower, Corner::BottomRight, Corner::TopRight),
            cell_point(Side::Bottom, InterpKind::Upper, Corner::BottomLeft, Corner::BottomRight),
            0,
            -1,
            EnterType::TR,
        )),
    )
}

fn tetragon_br(cell: &mut Cell)
    requires
        old(cell).wf(),
    ensures
        final(cell).wf(),
        final(cell).corners() == old(cell).corners(),
        final(cell).edges@ == tetragon_br_edges(old(cell).edges@),
{
    cell.set_edge(
        EnterType::BL,
        fragment(
            at(Side::Bottom, InterpKind::Lower, Corner::BottomLeft, Corner::BottomRight),
            at(Side::Right, InterpKind::Upper, Corner::BottomRight, Corner::TopRight),
            1,
            0,
            EnterType::LT,
        ),
    );
    cell.set_edge(
        EnterType::RB,
        fragment(
            at(Side::Right, InterpKind::Lower, Corner::BottomRight, Corner::TopRight),
            at(Side::Bottom, InterpKind::Upper, Corner::BottomLeft, Corner::BottomRight),
            0,
            -1,
            EnterType::TR,
        ),
    );
}

pub open spec fn tetragon_tr_edges(e: Seq<Option<Edge>>) -> Seq<Option<Edge>> {
    e.update(
        EnterType::RB.spec_index(),
        Some(fragment_of(
            cell_point(Side::Right, InterpKind::Lower, Corner::BottomRight, Corner::TopRight),
            cell_point(Side::Top, InterpKind::Lower, Corner::TopLeft, Corner::TopRight),
            0,
            1,
            EnterType::BL,
        )),
    ).update(
        EnterType::TR.spec_index(),
        Some(fragment_of(
            cell_point(Side::Top, InterpKind::Upper, Corner::TopLeft, Corner::TopRight),
            cell_point(Side::Right, InterpKind::Upper, Corner::BottomRight, Corner::TopRight),
            1,
            0,
            EnterType::LT,
        )),
    )
}

fn tetragon_tr(cell: &mut Cell)
    requires
        old(cell).wf(),
    ensures
        final(cell).wf(),
        final(cell).corners() == old(cell).corners(),
        final(cell).edges@ == tetragon_tr_edges(old(cell).edges@),
{
    cell.set_edge(
        EnterType::RB,
        fragment(
            at(Side::Right, InterpKind::Lower, Corner::BottomRight, Corner::TopRight),
            at(Side::Top, InterpKind::Lower, Corner::TopLeft, Corner::TopRight),
            0,
            1,
            EnterType::BL,
        ),
    );
    cell.set_edge(
        EnterType::TR,
        fragment(
            at(Side::Top, InterpKind::Upper, Corner::TopLeft, Corner::TopRight),
            at(Side::Right, InterpKind::Upper, Corner::BottomRight, Corner::TopRight),
            1,
            0,
            EnterType::LT,
        ),
    );
}

pub open spec fn tetragon_tl_edges(e: Seq<Option<Edge>>) -> Seq<Option<Edge>> {
    e.update(
        EnterType::TR.spec_index(),
        Some(fragment_of(
            cell_point(Side::Top, InterpKind::Upper, Corner::TopLeft, Corner::TopRight),
            cell_point(Side::Left, InterpKind::Lower, Corner::BottomLeft, Corner::TopLeft),
            -1,
            0,
            EnterType::RB,
        )),
    ).update(
        EnterType::LT.spec_index(),
        Some(fragment_of(
            cell_point(Side::Left, InterpKind::Upper, Corner::BottomLeft, Corner::TopLeft),
            cell_point(Side::Top, InterpKind::Lower, Corner::TopLeft, Corner::TopRight),
            0,
            1,
            EnterType::BL,
        )),
    )
}

fn tetragon_tl(cell: &mut Cell)
    requires
        old(cell).wf(),
    ensures
        final(cell).wf(),
        final(cell).corners() == old(cell).corners(),
        final(cell).edges@ == tetragon_tl_edges(old(cell).edges@),
{
    cell.set_edge(
        EnterType::TR,
        fragment(
            at(Side::Top, InterpKind::Upper, Corner::TopLeft, Corner::TopRight),
            at(Side::Left, InterpKind::Lower, Corner::BottomLeft, Corner::TopLeft),
            -1,
            0,
            EnterType::RB,
        ),
    );
    cell.set_edge(
        EnterType::LT,
        fragment(
            at(Side::Left, InterpKind::Upper, Corner::BottomLeft, Corner::TopLeft),
            at(Side::Top, InterpKind::Lower, Corner::TopLeft, Corner::TopRight),
            0,
            1,
            EnterType::BL,
        ),
    );
}

pub open spec fn tetragon_lr_edges(e: Seq<Option<Edge>>) -> Seq<Option<Edge>> {
    e.update(
        EnterType::LT.spec_index(),
        Some(fragment_of(
            cell_point(Side::Left, InterpKind::Upper, Corner::BottomLeft, Corner::TopLeft),
            cell_point(Side::Right, InterpKind::Upper, Corner::BottomRight, Corner::TopRight),
            1,
            0,
            EnterType::LT,
        )),
    ).update(
        EnterType::RB.spec_index(),
        Some(fragment_of(
            cell_point(Side::Right, InterpKind::Lower, Corner::BottomRight, Corner::TopRight),
            cell_point(Side::Left, InterpKind::Lower, Corner::BottomLeft, Corner::TopLeft),
            -1,
            0,
            EnterType::RB,
        )),
    )
}

fn tetragon_lr(cell: &mut Cell)
    requires
        old(cell).wf(),
    ensures
        final(cell).wf(),
        final(cell).corners() == old(cell).corners(),
        final(cell).edges@ == tetragon_lr_edges(old(cell).edges@),
{
    cell.set_edge(
        EnterType::LT,
        fragment(
            at(Side::Left, InterpKind::Upper, Corner::BottomLeft, Corner::TopLeft),
            at(Side::Right, InterpKind::Upper, Corner::BottomRight, Corner::TopRight),
            1,
            0,
            EnterType::LT,
        ),
    );
    cell.set_edge(
        EnterType::RB,
        fragment(
            at(Side::Right, InterpKind::Lower, Corner::BottomRight, Corner::TopRight),
            at(Side::Left, InterpKind::Lower, Corner::BottomLeft, Corner::TopLeft),
            -1,
            0,
            EnterType::RB,
        ),
    );
}

pub open spec fn tetragon_tb_edges(e: Seq<Option<Edge>>) -> Seq<Option<Edge>> {
    e.update(
        EnterType::TR.spec_index(),
        Some(fragment_of(
            cell_point(Side::Top, InterpKind::Upper, Corner::TopLeft, Corner::TopRight),
            cell_point(Side::Bottom, InterpKind::Upper, Corner::BottomLeft, Corner::BottomRight),
            0,
            -1,
            EnterType::TR,
        )),
    ).update(
        EnterType::BL.spec_index(),
        Some(fragment_of(
            cell_point(Side::Bottom, InterpKind::Lower, Corner::BottomLeft, Corner::BottomRight),
            cell_point(Side::Top, InterpKind::Lower, Corner::TopLeft, Corner::TopRight),
            0,
            1,
            EnterType::BL,
        )),
    )
}

fn tetragon_tb(cell: &mut Cell)
    requires
        old(cell).wf(),
    ensures
        final(cell).wf(),
        final(cell).corners() == old(cell).corners(),
        final(cell).edges@ == tetragon_tb_edges(old(cell).edges@),
{
    cell.set_edge(
        EnterType::TR,
        fragment(
            at(Side::Top, InterpKind::Upper, Corner::TopLeft, Corner::TopRight),
            at(Side::Bottom, InterpKind::Upper, Corner::BottomLeft, Corner::BottomRight),
            0,
            -1,
            EnterType::TR,
        ),
    );
    cell.set_edge(
        EnterType::BL,
        fragment(
            at(Side::Bottom, InterpKind::Lower, Corner::BottomLeft, Corner::BottomRight),
            at(Side::Top, InterpKind::Lower, Corner::TopLeft, Corner::TopRight),
            0,
            1,
            EnterType::BL,
        ),
    );
}

pub open spec fn pentagon_tr_edges(e: Seq<Option<Edge>>) -> Seq<Option<Edge>> {
    e.update(
        EnterType::TL.spec_index(),
        Some(fragment_of(
            cell_point(Side::Top, InterpKind::Both, Corner::TopLeft, Corner::TopRight),
            cell_point(Side::Right, InterpKind::Both, Corner::BottomRight, Corner::TopRight),
            1,
            0,
            EnterType::LB,
        )),
    )
}

fn pentagon_tr(cell: &mut Cell)
    requires
        old(cell).wf(),
    ensures
        final(cell).wf(),
        final(cell).corners() == old(cell).corners(),
        final(cell).edges@ == pentagon_tr_edges(old(cell).edges@),
{
    cell.set_edge(
        EnterType::TL,
        fragment(
            at(Side::Top, InterpKind::Both, Corner::TopLeft, Corner::TopRight),
            at(Side::Right, InterpKind::Both, Corner::BottomRight, Corner::TopRight),
            1,
            0,
            EnterType::LB,
        ),
    );
}

pub open spec fn pentagon_tl_edges(e: Seq<Option<Edge>>) -> Seq<Option<Edge>> {
    e.update(
        EnterType::LB.spec_index(),
        Some(fragment_of(
            cell_point(Side::Left, InterpKind::Both, Corner::BottomLeft, Corner::TopLeft),
            cell_point(Side::Top, InterpKind::Both, Corner::TopLeft, Corner::TopRight),
            0,
            1,
            EnterType::BR,
        )),
    )
}

fn pentagon_tl(cell: &mut Cell)
    requires
        old(cell).wf(),
    ensures
        final(cell).wf(),
        final(cell).corners() == old(cell).corners(),
        final(cell).edges@ == pentagon_tl_edges(old(cell).edges@),
{
    cell.set_edge(
        EnterType::LB,
        fragment(
            at(Side::Left, InterpKind::Both, Corner::BottomLeft, Corner::TopLeft),
            at(Side::Top, InterpKind::Both, Corner::TopLeft, Corner::TopRight),
            0,
            1,
            EnterType::BR,
        ),
    );
}

pub open spec fn pentagon_br_edges(e: Seq<Option<Edge>>) -> Seq<Option<Edge>> {
    e.update(
        EnterType::RT.spec_index(),
        Some(fragment_of(
            cell_point(Side::Right, InterpKind::Both, Corner::BottomRight, Corner::TopRight),
            cell_point(Side::Bottom, InterpKind::Both, Corner::BottomLeft, Corner::BottomRight),
            0,
            -1,
            EnterType::TL,
        )),
    )
}

fn pentagon_br(cell: &mut Cell)
    requires
        old(cell).wf(),
    ensures
        final(cell).wf(),
        final(cell).corners() == old(cell).corners(),
        final(cell).edges@ == pentagon_br_edges(old(cell).edges@),
{
    cell.set_edge(
        EnterType::RT,
        fragment(
            at(Side::Right, InterpKind::Both, Corner::BottomRight, Corner::TopRight),
            at(Side::Bottom, InterpKind::Both, Corner::BottomLeft, Corner::BottomRight),
            0,
            -1,
            EnterType::TL,
        ),
    );
}

pub open spec fn pentagon_bl_edges(e: Seq<Option<Edge>>) -> Seq<Option<Edge>> {
    e.update(
        EnterType::BR.spec_index(),
        Some(fragment_of(
            cell_point(Side::Bottom, InterpKind::Both, Corner::BottomLeft, Corner::BottomRight),
            cell_point(Side::Left, InterpKind::Both, Corner::BottomLeft, Corner::TopLeft),
            -1,
            0,
            EnterType::RT,
        )),
    )
}

fn pentagon_bl(cell: &mut Cell)
    requires
        old(cell).wf(),
    ensures
        final(cell).wf(),
        final(cell).corners() == old(cell).corners(),
        final(cell).edges@ == pentagon_bl_edges(old(cell).edges@),
{
    cell.set_edge(
        EnterType::BR,
        fragment(
            at(Side::Bottom, InterpKind::Both, Corner::BottomLeft, Corner::BottomRight),
            at(Side::Left, InterpKind::Both, Corner::BottomLeft, Corner::TopLeft),
            -1,
            0,
            EnterType::RT,
        ),
    );
}

pub open spec fn pentagon_tr_rl_edges(e: Seq<Option<Edge>>) -> Seq<Option<Edge>> {
    e.update(
        EnterType::TL.spec_index(),
        Some(fragment_of(
            cell_point(Side::Top, InterpKind::Both, Corner::TopLeft, Corner::TopRight),
            cell_point(Side::Right, InterpKind::Upper, Corner::BottomRight, Corner::TopRight),
            1,
            0,
            EnterType::LT,
        )),
    ).update(
        EnterType::RB.spec_index(),
        Some(fragment_of(
            cell_point(Side::Right, InterpKind::Lower, Corner::BottomRight, Corner::TopRight),
            cell_point(Side::Left, InterpKind::Both, Corner::BottomLeft, Corner::TopLeft),
            -1,
            0,
            EnterType::RT,
        )),
    )
}

fn pentagon_tr_rl(cell: &mut Cell)
    requires
        old(cell).wf(),
    ensures
        final(cell).wf(),
        final(cell).corners() == old(cell).corners(),
        final(cell).edges@ == pentagon_tr_rl_edges(old(cell).edges@),
{
    cell.set_edge(
        EnterType::TL,
        fragment(
            at(Side::Top, InterpKind::Both, Corner::TopLeft, Corner::TopRight),
            at(Side::Right, InterpKind::Upper, Corner::BottomRight, Corner::TopRight),
            1,
            0,
            EnterType::LT,
        ),
    );
    cell.set_edge(
        EnterType::RB,
        fragment(
            at(Side::Right, InterpKind::Lower, Corner::BottomRight, Corner::TopRight),
            at(Side::Left, InterpKind::Both, Corner::BottomLeft, Corner::TopLeft),
            -1,
            0,
            EnterType::RT,
        ),
    );
}

pub open spec fn pentagon_rb_bt_edges(e: Seq<Option<Edge>>) -> Seq<Option<Edge>> {
    e.update(
        EnterType::RT.spec_index(),
        Some(fragment_of(
            cell_point(Side::Right, InterpKind::Both, Corner::BottomRight, Corner::TopRight),
            cell_point(Side::Bottom, InterpKind::Upper, Corner::BottomLeft, Corner::BottomRight),
            0,
            -1,
            EnterType::TR,
        )),
    ).update(
        EnterType::BL.spec_index(),
        Some(fragment_of(
            cell_point(Side::Bottom, InterpKind::Lower, Corner::BottomLeft, Corner::BottomRight),
            cell_point(Side::Top, InterpKind::Both, Corner::TopLeft, Corner::TopRight),
            0,
            1,
            EnterType::BR,
        )),
    )
}

fn pentagon_rb_bt(cell: &mut Cell)
    requires
        old(cell).wf(),
    ensures
        final(cell).wf(),
        final(cell).corners() == old(cell).corners(),
        final(cell).edges@ == pentagon_rb_bt_edges(old(cell).edges@),
{
    cell.set_edge(
        EnterType::RT,
        fragment(
            at(Side::Right, InterpKind::Both, Corner::BottomRight, Corner::TopRight),
            at(Side::Bottom, InterpKind::Upper, Corner::BottomLeft, Corner::BottomRight),
            0,
            -1,
            EnterType::TR,
        ),
    );
    cell.set_edge(
        EnterType::BL,
        fragment(
            at(Side::Bottom, InterpKind::Lower, Corner::BottomLeft, Corner::BottomRight),
            at(Side::Top, InterpKind::Both, Corner::TopLeft, Corner::TopRight),
            0,
            1,
            EnterType::BR,
        ),
    );
}

pub open spec fn pentagon_bl_lr_edges(e: Seq<Option<Edge>>) -> Seq<Option<Edge>> {
    e.update(
        EnterType::BR.spec_index(),
        Some(fragment_of(
            cell_point(Side::Bottom, InterpKind::Both, Corner::BottomLeft, Corner::BottomRight),
            cell_point(Side::Left, InterpKind::Lower, Corner::BottomLeft, Corner::TopLeft),
            -1,
            0,
            EnterType::RB,
        )),
    ).update(
        EnterType::LT.spec_index(),
        Some(fragment_of(
            cell_point(Side::Left, InterpKind::Upper, Corner::BottomLeft, Corner::TopLeft),
            cell_point(Side::Right, InterpKind::Both, Corner::BottomRight, Corner::TopRight),
            1,
            0,
            EnterType::LB,
        )),
    )
}

fn pentagon_bl_lr(cell: &mut Cell)
    requires
        old(cell).wf(),
    ensures
        final(cell).wf(),
        final(cell).corners() == old(cell).corners(),
        final(cell).edges@ == pentagon_bl_lr_edges(old(cell).edges@),
{
    cell.set_edge(
        EnterType::BR,
        fragment(
            at(Side::Bottom, InterpKind::Both, Corner::BottomLeft, Corner::BottomRight),
            at(Side::Left, InterpKind::Lower, Corner::BottomLeft, Corner::TopLeft),
            -1,
            0,
            EnterType::RB,
        ),
    );
    cell.set_edge(
        EnterType::LT,
        fragment(
            at(Side::Left, InterpKind::Upper, Corner::BottomLeft, Corner::TopLeft),
            at(Side::Right, InterpKind::Both, Corner::BottomRight, Corner::TopRight),
            1,
            0,
            EnterType::LB,
        ),
    );
}

pub open spec fn pentagon_lt_tb_edges(e: Seq<Option<Edge>>) -> Seq<Option<Edge>> {
    e.update(
        EnterType::LB.spec_index(),
        Some(fragment_of(
            cell_point(Side::Left, InterpKind::Both, Corner::BottomLeft, Corner::TopLeft),
            cell_point(Side::Top, InterpKind::Lower, Corner::TopLeft, Corner::TopRight),
            0,
            1,
            EnterType::BL,
        )),
    ).update(
        EnterType::TR.spec_index(),
        Some(fragment_of(
            cell_point(Side::Top, InterpKind::Upper, Corner::TopLeft, Corner::TopRight),
            cell_point(Side::Bottom, InterpKind::Both, Corner::BottomLeft, Corner::BottomRight),
            0,
            -1,
            EnterType::TL,
        )),
    )
}

fn pentagon_lt_tb(cell: &mut Cell)
    requires
        old(cell).wf(),
    ensures
        final(cell).wf(),
        final(cell).corners() == old(cell).corners(),
        final(cell).edges@ == pentagon_lt_tb_edges(old(cell).edges@),
{
    cell.set_edge(
        EnterType::LB,
        fragment(
            at(Side::Left, InterpKind::Both, Corner::BottomLeft, Corner::TopLeft),
            at(Side::Top, InterpKind::Lower, Corner::TopLeft, Corner::TopRight),
            0,
            1,
            EnterType::BL,
        ),
    );
    cell.set_edge(
        EnterType::TR,
        fragment(
            at(Side::Top, InterpKind::Upper, Corner::TopLeft, Corner::TopRight),
            at(Side::Bottom, InterpKind::Both, Corner::BottomLeft, Corner::BottomRight),
            0,
            -1,
            EnterType::TL,
        ),
    );
}

pub open spec fn pentagon_bl_tb_edges(e: Seq<Option<Edge>>) -> Seq<Option<Edge>> {
    e.update(
        EnterType::BL.spec_index(),
        Some(fragment_of(
            cell_point(Side::Bottom, InterpKind::Lower, Corner::BottomLeft, Corner::BottomRight),
            cell_point(Side::Left, InterpKind::Both, Corner::BottomLeft, Corner::TopLeft),
            -1,
            0,
            EnterType::RT,
        )),
    ).update(
        EnterType::TL.spec_index(),
        Some(fragment_of(
            cell_point(Side::Top, InterpKind::Both, Corner::TopLeft, Corner::TopRight),
            cell_point(Side::Bottom, InterpKind::Upper, Corner::BottomLeft, Corner::BottomRight),
            0,
            -1,
            EnterType::TR,
        )),
    )
}

fn pentagon_bl_tb(cell: &mut Cell)
    requires
        old(cell).wf(),
    ensures
        final(cell).wf(),
        final(cell).corners() == old(cell).corners(),
        final(cell).edges@ == pentagon_bl_tb_edges(old(cell).edges@),
{
    cell.set_edge(
        EnterType::BL,
        fragment(
            at(Side::Bottom, InterpKind::Lower, Corner::BottomLeft, Corner::BottomRight),
            at(Side::Left, InterpKind::Both, Corner::BottomLeft, Corner::TopLeft),
            -1,
            0,
            EnterType::RT,
        ),
    );
    cell.set_edge(
        EnterType::TL,
        fragment(
            at(Side::Top, InterpKind::Both, Corner::TopLeft, Corner::TopRight),
            at(Side::Bottom, InterpKind::Upper, Corner::BottomLeft, Corner::BottomRight),
            0,
            -1,
            EnterType::TR,
        ),
    );
}

pub open spec fn pentagon_lt_rl_edges(e: Seq<Option<Edge>>) -> Seq<Option<Edge>> {
    e.update(
        EnterType::LT.spec_index(),
        Some(fragment_of(
            cell_point(Side::Left, InterpKind::Upper, Corner::BottomLeft, Corner::TopLeft),
            cell_point(Side::Top, InterpKind::Both, Corner::TopLeft, Corner::TopRight),
            0,
            1,
            EnterType::BR,
        )),
    ).update(
        EnterType::RT.spec_index(),
        Some(fragment_of(
            cell_point(Side::Right, InterpKind::Both, Corner::BottomRight, Corner::TopLeft),
            cell_point(Side::Left, InterpKind::Lower, Corner::BottomLeft, Corner::TopLeft),
            -1,
            0,
            EnterType::RB,
        )),
    )
}

fn pentagon_lt_rl(cell: &mut Cell)
    requires
        old(cell).wf(),
    ensures
        final(cell).wf(),
        final(cell).corners() == old(cell).corners(),
        final(cell).edges@ == pentagon_lt_rl_edges(old(cell).edges@),
{
    cell.set_edge(
        EnterType::LT,
        fragment(
            at(Side::Left, InterpKind::Upper, Corner::BottomLeft, Corner::TopLeft),
            at(Side::Top, InterpKind::Both, Corner::TopLeft, Corner::TopRight),
            0,
            1,
            EnterType::BR,
        ),
    );
    cell.set_edge(
        EnterType::RT,
        fragment(
            at(Side::Right, InterpKind::Both, Corner::BottomRight, Corner::TopLeft),
            at(Side::Left, InterpKind::Lower, Corner::BottomLeft, Corner::TopLeft),
            -1,
            0,
            EnterType::RB,
        ),
    );
}

pub open spec fn pentagon_tr_bt_edges(e: Seq<Option<Edge>>) -> Seq<Option<Edge>> {
    e.update(
        EnterType::BR.spec_index(),
        Some(fragment_of(
            cell_point(Side::Bottom, InterpKind::Both, Corner::BottomLeft, Corner::BottomRight),
            cell_point(Side::Top, InterpKind::Lower, Corner::TopLeft, Corner::TopRight),
            0,
            1,
            EnterType::BL,
        )),
    ).update(
        EnterType::TR.spec_index(),
        Some(fragment_of(
            cell_point(Side::Top, InterpKind::Upper, Corner::TopLeft, Corner::TopRight),
            cell_point(Side::Right, InterpKind::Both, Corner::BottomRight, Corner::TopRight),
            1,
            0,
            EnterType::LB,
        )),
    )
}

fn pentagon_tr_bt(cell: &mut Cell)
    requires
        old(cell).wf(),
    ensures
        final(cell).wf(),
        final(cell).corners() == old(cell).corners(),
        final(cell).edges@ == pentagon_tr_bt_edges(old(cell).edges@),
{
    cell.set_edge(
        EnterType::BR,
        fragment(
            at(Side::Bottom, InterpKind::Both, Corner::BottomLeft, Corner::BottomRight),
            at(Side::Top, InterpKind::Lower, Corner::TopLeft, Corner::TopRight),
            0,
            1,
            EnterType::BL,
        ),
    );
    cell.set_edge(
        EnterType::TR,
        fragment(
            at(Side::Top, InterpKind::Upper, Corner::TopLeft, Corner::TopRight),
            at(Side::Right, InterpKind::Both, Corner::BottomRight, Corner::TopRight),
            1,
            0,
            EnterType::LB,
        ),
    );
}

pub open spec fn pentagon_rb_lr_edges(e: Seq<Option<Edge>>) -> Seq<Option<Edge>> {
    e.update(
        EnterType::LB.spec_index(),
        Some(fragment_of(
            cell_point(Side::Left, InterpKind::Both, Corner::BottomLeft, Corner::TopLeft),
            cell_point(Side::Right, InterpKind::Upper, Corner::BottomRight, Corner::TopRight),
            1,
            0,
            EnterType::LT,
        )),
    ).update(
        EnterType::RB.spec_index(),
        Some(fragment_of(
            cell_point(Side::Right, InterpKind::Lower, Corner::BottomRight, Corner::TopRight),
            cell_point(Side::Bottom, InterpKind::Both, Corner::BottomLeft, Corner::BottomRight),
            0,
            -1,
            EnterType::TL,
        )),
    )
}

fn pentagon_rb_lr(cell: &mut Cell)
    requires
        old(cell).wf(),
    ensures
        final(cell).wf(),
        final(cell).corners() == old(cell).corners(),
        final(cell).edges@ == pentagon_rb_lr_edges(old(cell).edges@),
{
    cell.set_edge(
        EnterType::LB,
        fragment(
            at(Side::Left, InterpKind::Both, Corner::BottomLeft, Corner::TopLeft),
            at(Side::Right, InterpKind::Upper, Corner::BottomRight, Corner::TopRight),
            1,
            0,
            EnterType::LT,
        ),
    );
    cell.set_edge(
        EnterType::RB,
        fragment(
            at(Side::Right, InterpKind::Lower, Corner::BottomRight, Corner::TopRight),
            at(Side::Bottom, InterpKind::Both, Corner::BottomLeft, Corner::BottomRight),
            0,
            -1,
            EnterType::TL,
        ),
    );
}

pub open spec fn hexagon_lt_tr_edges(e: Seq<Option<Edge>>) -> Seq<Option<Edge>> {
    e.update(
        EnterType::LB.spec_index(),
        Some(fragment_of(
            cell_point(Side::Left, InterpKind::Both, Corner::BottomLeft, Corner::TopLeft),
            cell_point(Side::Top, InterpKind::Lower, Corner::TopLeft, Corner::TopRight),
            0,
            1,
            EnterType::BL,
        )),
    ).update(
        EnterType::TR.spec_index(),
        Some(fragment_of(
            cell_point(Side::Top, InterpKind::Upper, Corner::TopLeft, Corner::TopRight),
            cell_point(Side::Right, InterpKind::Both, Corner::BottomRight, Corner::TopRight),
            1,
            0,
            EnterType::LB,
        )),
    )
}

fn hexagon_lt_tr(cell: &mut Cell)
    requires
        old(cell).wf(),
    ensures
        final(cell).wf(),
        final(cell).corners() == old(cell).corners(),
        final(cell).edges@ == hexagon_lt_tr_edges(old(cell).edges@),
{
    cell.set_edge(
        EnterType::LB,
        fragment(
            at(Side::Left, InterpKind::Both, Corner::BottomLeft, Corner::TopLeft),
            at(Side::Top, InterpKind::Lower, Corner::TopLeft, Corner::TopRight),
            0,
            1,
            EnterType::BL,
        ),
    );
    cell.set_edge(
        EnterType::TR,
        fragment(
            at(Side::Top, InterpKind::Upper, Corner::TopLeft, Corner::TopRight),
            at(Side::Right, InterpKind::Both, Corner::BottomRight, Corner::TopRight),
            1,
            0,
            EnterType::LB,
        ),
    );
}

pub open spec fn hexagon_bl_lt_edges(e: Seq<Option<Edge>>) -> Seq<Option<Edge>> {
    e.update(
        EnterType::BR.spec_index(),
        Some(fragment_of(
            cell_point(Side::Bottom, InterpKind::Both, Corner::BottomLeft, Corner::BottomRight),
            cell_point(Side::Left, InterpKind::Lower, Corner::BottomLeft, Corner::TopLeft),
            -1,
            0,
            EnterType::RB,
        )),
    ).update(
        EnterType::LT.spec_index(),
        Some(fragment_of(
            cell_point(Side::Left, InterpKind::Upper, Corner::BottomLeft, Corner::TopLeft),
            cell_point(Side::Top, InterpKind::Both, Corner::TopLeft, Corner::TopRight),
            0,
            1,
            EnterType::BR,
        )),
    )
}

fn hexagon_bl_lt(cell: &mut Cell)
    requires
        old(cell).wf(),
    ensures
        final(cell).wf(),
        final(cell).corners() == old(cell).corners(),
        final(cell).edges@ == hexagon_bl_lt_edges(old(cell).edges@),
{
    cell.set_edge(
        EnterType::BR,
        fragment(
            at(Side::Bottom, InterpKind::Both, Corner::BottomLeft, Corner::BottomRight),
            at(Side::Left, InterpKind::Lower, Corner::BottomLeft, Corner::TopLeft),
            -1,
            0,
            EnterType::RB,
        ),
    );
    cell.set_edge(
        EnterType::LT,
        fragment(
            at(Side::Left, InterpKind::Upper, Corner::BottomLeft, Corner::TopLeft),
            at(Side::Top, InterpKind::Both, Corner::TopLeft, Corner::TopRight),
            0,
            1,
            EnterType::BR,
        ),
    );
}

pub open spec fn hexagon_bl_rb_edges(e: Seq<Option<Edge>>) -> Seq<Option<Edge>> {
    e.update(
        EnterType::BL.spec_index(),
        Some(fragment_of(
            cell_point(Side::Bottom, InterpKind::Lower, Corner::BottomLeft, Corner::BottomRight),
            cell_point(Side::Left, InterpKind::Both, Corner::BottomLeft, Corner::TopLeft),
            -1,
            0,
            EnterType::RT,
        )),
    ).update(
        EnterType::RT.spec_index(),
        Some(fragment_of(
            cell_point(Side::Right, InterpKind::Both, Corner::BottomRight, Corner::TopRight),
            cell_point(Side::Bottom, InterpKind::Upper, Corner::BottomLeft, Corner::BottomRight),
            0,
            -1,
            EnterType::TR,
        )),
    )
}

fn hexagon_bl_rb(cell: &mut Cell)
    requires
        old(cell).wf(),
    ensures
        final(cell).wf(),
        final(cell).corners() == old(cell).corners(),
        final(cell).edges@ == hexagon_bl_rb_edges(old(cell).edges@),
{
    cell.set_edge(
        EnterType::BL,
        fragment(
            at(Side::Bottom, InterpKind::Lower, Corner::BottomLeft, Corner::BottomRight),
            at(Side::Left, InterpKind::Both, Corner::BottomLeft, Corner::TopLeft),
            -1,
            0,
            EnterType::RT,
        ),
    );
    cell.set_edge(
        EnterType::RT,
        fragment(
            at(Side::Right, InterpKind::Both, Corner::BottomRight, Corner::TopRight),
            at(Side::Bottom, InterpKind::Upper, Corner::BottomLeft, Corner::BottomRight),
            0,
            -1,
            EnterType::TR,
        ),
    );
}

pub open spec fn hexagon_tr_rb_edges(e: Seq<Option<Edge>>) -> Seq<Option<Edge>> {
    e.update(
        EnterType::TL.spec_index(),
        Some(fragment_of(
            cell_point(Side::Top, InterpKind::Both, Corner::TopLeft, Corner::TopRight),
            cell_point(Side::Right, InterpKind::Upper, Corner::BottomRight, Corner::TopRight),
            1,
            0,
            EnterType::LT,
        )),
    ).update(
        EnterType::RB.spec_index(),
        Some(fragment_of(
            cell_point(Side::Right, InterpKind::Lower, Corner::BottomRight, Corner::TopRight),
            cell_point(Side::Bottom, InterpKind::Both, Corner::BottomLeft, Corner::BottomRight),
            0,
            -1,
            EnterType::TL,
        )),
    )
}

fn hexagon_tr_rb(cell: &mut Cell)
    requires
        old(cell).wf(),
    ensures
        final(cell).wf(),
        final(cell).corners() == old(cell).corners(),
        final(cell).edges@ == hexagon_tr_rb_edges(old(cell).edges@),
{
    cell.set_edge(
        EnterType::TL,
        fragment(
            at(Side::Top, InterpKind::Both, Corner::TopLeft, Corner::TopRight),
            at(Side::Right, InterpKind::Upper, Corner::BottomRight, Corner::TopRight),
            1,
            0,
            EnterType::LT,
        ),
    );
    cell.set_edge(
        EnterType::RB,
        fragment(
            at(Side::Right, InterpKind::Lower, Corner::BottomRight, Corner::TopRight),
            at(Side::Bottom, InterpKind::Both, Corner::BottomLeft, Corner::BottomRight),
            0,
            -1,
            EnterType::TL,
        ),
    );
}

pub open spec fn hexagon_lt_rb_edges(e: Seq<Option<Edge>>) -> Seq<Option<Edge>> {
    e.update(
        EnterType::LB.spec_index(),
        Some(fragment_of(
            cell_point(Side::Left, InterpKind::Both, Corner::BottomLeft, Corner::TopLeft),
            cell_point(Side::Top, InterpKind::Both, Corner::TopLeft, Corner::TopRight),
            0,
            1,
            EnterType::BR,
        )),
    ).update(
        EnterType::RT.spec_index(),
        Some(fragment_of(
            cell_point(Side::Right, InterpKind::Both, Corner::BottomRight, Corner::TopRight),
            cell_point(Side::Bottom, InterpKind::Both, Corner::BottomLeft, Corner::BottomRight),
            0,
            -1,
            EnterType::TL,
        )),
    )
}

fn hexagon_lt_rb(cell: &mut Cell)
    requires
        old(cell).wf(),
    ensures
        final(cell).wf(),
        final(cell).corners() == old(cell).corners(),
        final(cell).edges@ == hexagon_lt_rb_edges(old(cell).edges@),
{
    cell.set_edge(
        EnterType::LB,
        fragment(
            at(Side::Left, InterpKind::Both, Corner::BottomLeft, Corner::TopLeft),
            at(Side::Top, InterpKind::Both, Corner::TopLeft, Corner::TopRight),
            0,
            1,
            EnterType::BR,
        ),
    );
    cell.set_edge(
        EnterType::RT,
        fragment(
            at(Side::Right, InterpKind::Both, Corner::BottomRight, Corner::TopRight),
            at(Side::Bottom, InterpKind::Both, Corner::BottomLeft, Corner::BottomRight),
            0,
            -1,
            EnterType::TL,
        ),
    );
}

pub open spec fn hexagon_bl_tr_edges(e: Seq<Option<Edge>>) -> Seq<Option<Edge>> {
    e.update(
        EnterType::BR.spec_index(),
        Some(fragment_of(
            cell_point(Side::Bottom, InterpKind::Both, Corner::BottomLeft, Corner::BottomRight),
            cell_point(Side::Left, InterpKind::Both, Corner::BottomLeft, Corner::TopLeft),
            -1,
            0,
            EnterType::RT,
        )),
    ).update(
        EnterType::TL.spec_index(),
        Some(fragment_of(
            cell_point(Side::Top, InterpKind::Both, Corner::TopLeft, Corner::TopRight),
            cell_point(Side::Right, InterpKind::Both, Corner::BottomRight, Corner::TopRight),
            1,
            0,
            EnterType::LB,
        )),
    )
}

fn hexagon_bl_tr(cell: &mut Cell)
    requires
        old(cell).wf(),
    ensures
        final(cell).wf(),
        final(cell).corners() == old(cell).corners(),
        final(cell).edges@ == hexagon_bl_tr_edges(old(cell).edges@),
{
    cell.set_edge(
        EnterType::BR,
        fragment(
            at(Side::Bottom, InterpKind::Both, Corner::BottomLeft, Corner::BottomRight),
            at(Side::Left, InterpKind::Both, Corner::BottomLeft, Corner::TopLeft),
            -1,
            0,
            EnterType::RT,
        ),
    );
    cell.set_edge(
        EnterType::TL,
        fragment(
            at(Side::Top, InterpKind::Both, Corner::TopLeft, Corner::TopRight),
            at(Side::Right, InterpKind::Both, Corner::BottomRight, Corner::TopRight),
            1,
            0,
            EnterType::LB,
        ),
    );
}

pub open spec fn heptagon_tr_edges(e: Seq<Option<Edge>>) -> Seq<Option<Edge>> {
    e.update(
        EnterType::BL.spec_index(),
        Some(fragment_of(
            cell_point(Side::Bottom, InterpKind::Lower, Corner::BottomLeft, Corner::BottomRight),
            cell_point(Side::Left, InterpKind::Lower, Corner::BottomLeft, Corner::TopLeft),
            -1,
            0,
            EnterType::RB,
        )),
    ).update(
        EnterType::LT.spec_index(),
        Some(fragment_of(
            cell_point(Side::Left, InterpKind::Upper, Corner::BottomLeft, Corner::TopLeft),
            cell_point(Side::Top, InterpKind::Both, Corner::TopLeft, Corner::TopRight),
            0,
            1,
            EnterType::BR,
        )),
    ).update(
        EnterType::RT.spec_index(),
        Some(fragment_of(
            cell_point(Side::Right, InterpKind::Both, Corner::BottomRight, Corner::TopRight),
            cell_point(Side::Bottom, InterpKind::Upper, Corner::BottomLeft, Corner::BottomRight),
            0,
            -1,
            EnterType::TR,
        )),
    )
}

fn heptagon_tr(cell: &mut Cell)
    requires
        old(cell).wf(),
    ensures
        final(cell).wf(),
        final(cell).corners() == old(cell).corners(),
        final(cell).edges@ == heptagon_tr_edges(old(cell).edges@),
{
    cell.set_edge(
        EnterType::BL,
        fragment(
            at(Side::Bottom, InterpKind::Lower, Corner::BottomLeft, Corner::BottomRight),
            at(Side::Left, InterpKind::Lower, Corner::BottomLeft, Corner::TopLeft),
            -1,
            0,
            EnterType::RB,
        ),
    );
    cell.set_edge(
        EnterType::LT,
        fragment(
            at(Side::Left, InterpKind::Upper, Corner::BottomLeft, Corner::TopLeft),
            at(Side::Top, InterpKind::Both, Corner::TopLeft, Corner::TopRight),
            0,
            1,
            EnterType::BR,
        ),
    );
    cell.set_edge(
        EnterType::RT,
        fragment(
            at(Side::Right, InterpKind::Both, Corner::BottomRight, Corner::TopRight),
            at(Side::Bottom, InterpKind::Upper, Corner::BottomLeft, Corner::BottomRight),
            0,
            -1,
            EnterType::TR,
        ),
    );
}

pub open spec fn heptagon_bl_edges(e: Seq<Option<Edge>>) -> Seq<Option<Edge>> {
    e.update(
        EnterType::LB.spec_index(),
        Some(fragment_of(
            cell_point(Side::Left, InterpKind::Both, Corner::BottomLeft, Corner::TopLeft),
            cell_point(Side::Top, InterpKind::Lower, Corner::TopLeft, Corner::TopRight),
            0,
            1,
            EnterType::BL,
        )),
    ).update(
        EnterType::TR.spec_index(),
        Some(fragment_of(
            cell_point(Side::Top, InterpKind::Upper, Corner::TopLeft, Corner::TopRight),
            cell_point(Side::Right, InterpKind::Upper, Corner::BottomRight, Corner::TopRight),
            1,
            0,
            EnterType::LT,
        )),
    ).update(
        EnterType::RB.spec_index(),
        Some(fragment_of(
            cell_point(Side::Right, InterpKind::Lower, Corner::BottomRight, Corner::TopRight),
            cell_point(Side::Bottom, InterpKind::Both, Corner::BottomLeft, Corner::BottomRight),
            0,
            -1,
            EnterType::TL,
        )),
    )
}

fn heptagon_bl(cell: &mut Cell)
    requires
        old(cell).wf(),
    ensures
        final(cell).wf(),
        final(cell).corners() == old(cell).corners(),
        final(cell).edges@ == heptagon_bl_edges(old(cell).edges@),
{
    cell.set_edge(
        EnterType::LB,
        fragment(
            at(Side::Left, InterpKind::Both, Corner::BottomLeft, Corner::TopLeft),
            at(Side::Top, InterpKind::Lower, Corner::TopLeft, Corner::TopRight),
            0,
            1,
            EnterType::BL,
        ),
    );
    cell.set_edge(
        EnterType::TR,
        fragment(
            at(Side::Top, InterpKind::Upper, Corner::TopLeft, Corner::TopRight),
            at(Side::Right, InterpKind::Upper, Corner::BottomRight, Corner::TopRight),
            1,
            0,
            EnterType::LT,
        ),
    );
    cell.set_edge(
        EnterType::RB,
        fragment(
            at(Side::Right, InterpKind::Lower, Corner::BottomRight, Corner::TopRight),
            at(Side::Bottom, InterpKind::Both, Corner::BottomLeft, Corner::BottomRight),
            0,
            -1,
            EnterType::TL,
        ),
    );
}

pub open spec fn heptagon_tl_edges(e: Seq<Option<Edge>>) -> Seq<Option<Edge>> {
    e.update(
        EnterType::BL.spec_index(),
        Some(fragment_of(
            cell_point(Side::Bottom, InterpKind::Lower, Corner::BottomLeft, Corner::BottomRight),
            cell_point(Side::Left, InterpKind::Both, Corner::BottomLeft, Corner::TopLeft),
            -1,
            0,
            EnterType::RT,
        )),
    ).update(
        EnterType::TL.spec_index(),
        Some(fragment_of(
            cell_point(Side::Top, InterpKind::Both, Corner::TopLeft, Corner::TopRight),
            cell_point(Side::Right, InterpKind::Upper, Corner::BottomRight, Corner::TopRight),
            1,
            0,
            EnterType::LT,
        )),
    ).update(
        EnterType::RB.spec_index(),
        Some(fragment_of(
            cell_point(Side::Right, InterpKind::Lower, Corner::BottomRight, Corner::TopRight),
            cell_point(Side::Bottom, InterpKind::Upper, Corner::BottomLeft, Corner::BottomRight),
            0,
            -1,
            EnterType::TR,
        )),
    )
}

fn heptagon_tl(cell: &mut Cell)
    requires
        old(cell).wf(),
    ensures
        final(cell).wf(),
        final(cell).corners() == old(cell).corners(),
        final(cell).edges@ == heptagon_tl_edges(old(cell).edges@),
{
    cell.set_edge(
        EnterType::BL,
        fragment(
            at(Side::Bottom, InterpKind::Lower, Corner::BottomLeft, Corner::BottomRight),
            at(Side::Left, InterpKind::Both, Corner::BottomLeft, Corner::TopLeft),
            -1,
            0,
            EnterType::RT,
        ),
    );
    cell.set_edge(
        EnterType::TL,
        fragment(
            at(Side::Top, InterpKind::Both, Corner::TopLeft, Corner::TopRight),
            at(Side::Right, InterpKind::Upper, Corner::BottomRight, Corner::TopRight),
            1,
            0,
            EnterType::LT,
        ),
    );
    cell.set_edge(
        EnterType::RB,
        fragment(
            at(Side::Right, InterpKind::Lower, Corner::BottomRight, Corner::TopRight),
            at(Side::Bottom, InterpKind::Upper, Corner::BottomLeft, Corner::BottomRight),
            0,
            -1,
            EnterType::TR,
        ),
    );
}

pub open spec fn heptagon_br_edges(e: Seq<Option<Edge>>) -> Seq<Option<Edge>> {
    e.update(
        EnterType::BR.spec_index(),
        Some(fragment_of(
            cell_point(Side::Bottom, InterpKind::Both, Corner::BottomLeft, Corner::BottomRight),
            cell_point(Side::Left, InterpKind::Lower, Corner::BottomLeft, Corner::TopLeft),
            -1,
            0,
            EnterType::RB,
        )),
    ).update(
        EnterType::LT.spec_index(),
        Some(fragment_of(
            cell_point(Side::Left, InterpKind::Upper, Corner::BottomLeft, Corner::TopLeft),
            cell_point(Side::Top, InterpKind::Lower, Corner::TopLeft, Corner::TopRight),
            0,
            1,
            EnterType::BL,
        )),
    ).update(
        EnterType::TR.spec_index(),
        Some(fragment_of(
            cell_point(Side::Top, InterpKind::Upper, Corner::TopLeft, Corner::TopRight),
            cell_point(Side::Right, InterpKind::Both, Corner::BottomRight, Corner::TopRight),
            1,
            0,
            EnterType::LB,
        )),
    )
}

fn heptagon_br(cell: &mut Cell)
    requires
        old(cell).wf(),
    ensures
        final(cell).wf(),
        final(cell).corners() == old(cell).corners(),
        final(cell).edges@ == heptagon_br_edges(old(cell).edges@),
{
    cell.set_edge(
        EnterType::BR,
        fragment(
            at(Side::Bottom, InterpKind::Both, Corner::BottomLeft, Corner::BottomRight),
            at(Side::Left, InterpKind::Lower, Corner::BottomLeft, Corner::TopLeft),
            -1,
            0,
            EnterType::RB,
        ),
    );
    cell.set_edge(
        EnterType::LT,
        fragment(
            at(Side::Left, InterpKind::Upper, Corner::BottomLeft, Corner::TopLeft),
            at(Side::Top, InterpKind::Lower, Corner::TopLeft, Corner::TopRight),
            0,
            1,
            EnterType::BL,
        ),
    );
    cell.set_edge(
        EnterType::TR,
        fragment(
            at(Side::Top, InterpKind::Upper, Corner::TopLeft, Corner::TopRight),
            at(Side::Right, InterpKind::Both, Corner::BottomRight, Corner::TopRight),
            1,
            0,
            EnterType::LB,
        ),
    );
}

pub open spec fn octagon_edges(e: Seq<Option<Edge>>) -> Seq<Option<Edge>> {
    e.update(
        EnterType::BL.spec_index(),
        Some(fragment_of(
            cell_point(Side::Bottom, InterpKind::Lower, Corner::BottomLeft, Corner::BottomRight),
            cell_point(Side::Left, InterpKind::Lower, Corner::BottomLeft, Corner::TopLeft),
            -1,
            0,
            EnterType::RB,
        )),
    ).update(
        EnterType::LT.spec_index(),
        Some(fragment_of(
            cell_point(Side::Left, InterpKind::Upper, Corner::BottomLeft, Corner::TopLeft),
            cell_point(Side::Top, InterpKind::Lower, Corner::TopLeft, Corner::TopRight),
            0,
            1,
            EnterType::BL,
        )),
    ).update(
        EnterType::TR.spec_index(),
        Some(fragment_of(
            cell_point(Side::Top, InterpKind::Upper, Corner::TopLeft, Corner::TopRight),
            cell_point(Side::Right, InterpKind::Upper, Corner::BottomRight, Corner::TopRight),
            1,
            0,
            EnterType::LT,
        )),
    ).update(
        EnterType::RB.spec_index(),
        Some(fragment_of(
            cell_point(Side::Right, InterpKind::Lower, Corner::BottomRight, Corner::TopRight),
            cell_point(Side::Bottom, InterpKind::Upper, Corner::BottomLeft, Corner::BottomRight),
            0,
            -1,
            EnterType::TR,
        )),
    )
}

fn octagon(cell: &mut Cell)
    requires
        old(cell).wf(),
    ensures
        final(cell).wf(),
        final(cell).corners() == old(cell).corners(),
        final(cell).edges@ == octagon_edges(old(cell).edges@),
{
    cell.set_edge(
        EnterType::BL,
        fragment(
            at(Side::Bottom, InterpKind::Lower, Corner::BottomLeft, Corner::BottomRight),
            at(Side::Left, InterpKind::Lower, Corner::BottomLeft, Corner::TopLeft),
            -1,
            0,
            EnterType::RB,
        ),
    );
    cell.set_edge(
        EnterType::LT,
        fragment(
            at(Side::Left, InterpKind::Upper, Corner::BottomLeft, Corner::TopLeft),
            at(Side::Top, InterpKind::Lower, Corner::TopLeft, Corner::TopRight),
            0,
            1,
            EnterType::BL,
        ),
    );
    cell.set_edge(
        EnterType::TR,
        fragment(
            at(Side::Top, InterpKind::Upper, Corner::TopLeft, Corner::TopRight),
            at(Side::Right, InterpKind::Upper, Corner::BottomRight, Corner::TopRight),
            1,
            0,
            EnterType::LT,
        ),
    );
    cell.set_edge(
        EnterType::RB,
        fragment(
            at(Side::Right, InterpKind::Lower, Corner::BottomRight, Corner::TopRight),
            at(Side::Bottom, InterpKind::Upper, Corner::BottomLeft, Corner::BottomRight),
            0,
            -1,
            EnterType::TR,
        ),
    );
}

/// The fragments of a cell whose code is `code` and whose average sample
/// lies at level `center`.
pub open spec fn shape_edges(code: u8, center: Level) -> Seq<Option<Edge>> {
    match code {
        0 | 85 | 170 => no_edges(),
        1 | 169 => triangle_bl_edges(no_edges()),
        2 | 168 => tetragon_bl_edges(no_edges()),
        4 | 166 => triangle_br_edges(no_edges()),
        5 | 165 => tetragon_b_edges(no_edges()),
        6 | 164 => pentagon_bl_lr_edges(no_edges()),
        8 | 162 => tetragon_br_edges(no_edges()),
        9 | 161 => pentagon_rb_lr_edges(no_edges()),
        10 | 160 => tetragon_lr_edges(no_edges()),
        16 | 154 => triangle_tr_edges(no_edges()),
        17 => if center == Level::Below {
            triangle_tr_edges(triangle_bl_edges(no_edges()))
        } else {
            hexagon_lt_rb_edges(no_edges())
        },
        18 => if center == Level::Below {
            tetragon_bl_edges(triangle_tr_edges(no_edges()))
        } else {
            heptagon_tr_edges(no_edges())
        },
        20 | 150 => tetragon_r_edges(no_edges()),
        21 | 149 => pentagon_tl_edges(no_edges()),
        22 | 148 => hexagon_bl_lt_edges(no_edges()),
        24 | 146 => pentagon_rb_bt_edges(no_edges()),
        25 | 145 => hexagon_lt_rb_edges(no_edges()),
        26 | 144 => pentagon_lt_rl_edges(no_edges()),
        32 | 138 => tetragon_tr_edges(no_edges()),
        33 => if center == Level::Below {
            tetragon_tr_edges(triangle_bl_edges(no_edges()))
        } else {
            heptagon_bl_edges(no_edges())
        },
        34 => if center == Level::Below {
            tetragon_tr_edges(tetragon_bl_edges(no_edges()))
        } else if center == Level::Within {
            octagon_edges(no_edges())
        } else {
            tetragon_br_edges(tetragon_tl_edges(no_edges()))
        },
        36 | 134 => pentagon_tr_bt_edges(no_edges()),
        37 | 133 => hexagon_lt_tr_edges(no_edges()),
        38 => if center == Level::Above {
            tetragon_tl_edges(triangle_br_edges(no_edges()))
        } else {
            heptagon_br_edges(no_edges())
        },
        40 | 130 => tetragon_tb_edges(no_edges()),
        41 | 129 => pentagon_lt_tb_edges(no_edges()),
        42 | 128 => tetragon_tl_edges(no_edges()),
        64 | 106 => triangle_tl_edges(no_edges()),
        65 | 105 => tetragon_l_edges(no_edges()),
        66 | 104 => pentagon_bl_tb_edges(no_edges()),
        68 => if center == Level::Below {
            triangle_br_edges(triangle_tl_edges(no_edges()))
        } else {
            hexagon_bl_tr_edges(no_edges())
        },
        69 | 101 => pentagon_tr_edges(no_edges()),
        70 | 100 => hexagon_bl_tr_edges(no_edges()),
        72 => if center == Level::Below {
            tetragon_br_edges(triangle_tl_edges(no_edges()))
        } else {
            heptagon_tl_edges(no_edges())
        },
        73 | 97 => hexagon_tr_rb_edges(no_edges()),
        74 | 96 => pentagon_tr_rl_edges(no_edges()),
        80 | 90 => tetragon_t_edges(no_edges()),
        81 | 89 => pentagon_br_edges(no_edges()),
        82 | 88 => hexagon_bl_rb_edges(no_edges()),
        84 | 86 => pentagon_bl_edges(no_edges()),
        98 => if center == Level::Above {
            tetragon_br_edges(triangle_tl_edges(no_edges()))
        } else {
            heptagon_tl_edges(no_edges())
        },
        102 => if center == Level::Above {
            triangle_br_edges(triangle_tl_edges(no_edges()))
        } else {
            hexagon_bl_tr_edges(no_edges())
        },
        132 => if center == Level::Below {
            tetragon_tl_edges(triangle_br_edges(no_edges()))
        } else {
            heptagon_br_edges(no_edges())
        },
        136 => if center == Level::Below {
            tetragon_br_edges(tetragon_tl_edges(no_edges()))
        } else if center == Level::Within {
            octagon_edges(no_edges())
        } else {
            tetragon_tr_edges(tetragon_bl_edges(no_edges()))
        },
        137 => if center == Level::Above {
            tetragon_tr_edges(triangle_bl_edges(no_edges()))
        } else {
            heptagon_bl_edges(no_edges())
        },
        152 => if center == Level::Above {
            tetragon_bl_edges(triangle_tr_edges(no_edges()))
        } else {
            heptagon_tr_edges(no_edges())
        },
        153 => if center == Level::Above {
            triangle_tr_edges(triangle_bl_edges(no_edges()))
        } else {
            hexagon_lt_rb_edges(no_edges())
        },
        _ => no_edges(),
    }
}

/// The corner samples of the cell at column `x`, row `y`: bottom left,
/// bottom right, top right, top left.
pub open spec fn cell_corners(data: BorrowedGrid<Sample>, x: int, y: int) -> (
    Sample,
    Sample,
    Sample,
    Sample,
) {
    (data.at(x, y), data.at(x + 1, y), data.at(x + 1, y + 1), data.at(x, y + 1))
}

pub open spec fn corners_finite(c: (Sample, Sample, Sample, Sample)) -> bool {
    is_finite(c.0) && is_finite(c.1) && is_finite(c.2) && is_finite(c.3)
}

/// The code of a cell with corners `c` in the band `opt`.
pub open spec fn corners_code(c: (Sample, Sample, Sample, Sample), opt: Settings) -> u8 {
    cell_code(level_of(c.0, opt), level_of(c.1, opt), level_of(c.2, opt), level_of(c.3, opt))
}

/// What the classifier makes of the cell at column `x`, row `y`, whose
/// corners average to `center`: nothing when a corner is not finite, else
/// the fragments that the cell's code calls for.
pub open spec fn classify(
    data: BorrowedGrid<Sample>,
    x: int,
    y: int,
    center: Sample,
    opt: Settings,
) -> Option<Seq<Option<Edge>>> {
    let c = cell_corners(data, x, y);
    if corners_finite(c) {
        Some(shape_edges(corners_code(c, opt), center_level_of(center, opt)))
    } else {
        None
    }
}

/// Classifies the cell at column `x`, row `y` for the band `opt`; `center`
/// is the average of its four corner samples.
pub fn prepare_cell(
    x: usize,
    y: usize,
    data: &BorrowedGrid<Sample>,
    center: Sample,
    opt: &Settings,
) -> (r: Result<Option<Cell>, ErrorKind>)
    requires
        data.wf(),
        x + 1 < data.spec_width(),
        y + 1 < data.spec_height(),
    ensures
        r is Ok,
        r matches Ok(oc) && (oc matches Some(c) ==> c.corners() == cell_corners(*data, x as int, y as int)
            && edges_wf(c.edges@) && c.wf()),
        r matches Ok(oc) && (match oc {
            None => classify(*data, x as int, y as int, center, *opt) is None,
            Some(c) => classify(*data, x as int, y as int, center, *opt) == Some(c.edges@),
        }),
{
    let x3 = *data.index((x, y + 1));
    let x2 = *data.index((x + 1, y + 1));
    let x1 = *data.index((x + 1, y));
    let x0 = *data.index((x, y));
    if !(x0.is_finite() && x1.is_finite() && x2.is_finite() && x3.is_finite()) {
        return Ok(None);
    }
    let code: u8 = digit(opt.level(&x0)) + 4 * digit(opt.level(&x1)) + 16 * digit(
        opt.level(&x2),
    ) + 64 * digit(opt.level(&x3));
    let center = opt.center_level(&center);
    let mut cell = Cell { x0, x1, x2, x3, edges: vec![None, None, None, None, None, None, None, None] };
    assert(cell.edges@ =~= no_edges());
    match code {
            0 | 85 | 170 => {},
            1 | 169 => {
                triangle_bl(&mut cell);
            },
            2 | 168 => {
                tetragon_bl(&mut cell);
            },
            4 | 166 => {
                triangle_br(&mut cell);
            },
            5 | 165 => {
                tetragon_b(&mut cell);
            },
            6 | 164 => {
                pentagon_bl_lr(&mut cell);
            },
            8 | 162 => {
                tetragon_br(&mut cell);
            },
            9 | 161 => {
                pentagon_rb_lr(&mut cell);
            },
            10 | 160 => {
                tetragon_lr(&mut cell);
            },
            16 | 154 => {
                triangle_tr(&mut cell);
            },
            17 => {
                if center == Level::Below {
                    triangle_bl(&mut cell);
                    triangle_tr(&mut cell);
                } else {
                    hexagon_lt_rb(&mut cell);
                }
            },
            18 => {
                if center == Level::Below {
                    triangle_tr(&mut cell);
                    tetragon_bl(&mut cell);
                } else {
                    heptagon_tr(&mut cell);
                }
            },
            20 | 150 => {
                tetragon_r(&mut cell);
            },
            21 | 149 => {
                pentagon_tl(&mut cell);
            },
            22 | 148 => {
                hexagon_bl_lt(&mut cell);
            },
            24 | 146 => {
                pentagon_rb_bt(&mut cell);
            },
            25 | 145 => {
                hexagon_lt_rb(&mut cell);
            },
            26 | 144 => {
                pentagon_lt_rl(&mut cell);
            },
            32 | 138 => {
                tetragon_tr(&mut cell);
            },
            33 => {
                if center == Level::Below {
                    triangle_bl(&mut cell);
                    tetragon_tr(&mut cell);
                } else {
                    heptagon_bl(&mut cell);
                }
            },
            34 => {
                if center == Level::Below {
                    tetragon_bl(&mut cell);
                    tetragon_tr(&mut cell);
                } else if center == Level::Within {
                    octagon(&mut cell);
                } else {
                    tetragon_tl(&mut cell);
                    tetragon_br(&mut cell);
                }
            },
            36 | 134 => {
                pentagon_tr_bt(&mut cell);
            },
            37 | 133 => {
                hexagon_lt_tr(&mut cell);
            },
            38 => {
                if center == Level::Above {
                    triangle_br(&mut cell);
                    tetragon_tl(&mut cell);
                } else {
                    heptagon_br(&mut cell);
                }
            },
            40 | 130 => {
                tetragon_tb(&mut cell);
            },
            41 | 129 => {
                pentagon_lt_tb(&mut cell);
            },
            42 | 128 => {
                tetragon_tl(&mut cell);
            },
            64 | 106 => {
                triangle_tl(&mut cell);
            },
            65 | 105 => {
                tetragon_l(&mut cell);
            },
            66 | 104 => {
                pentagon_bl_tb(&mut cell);
            },
            68 => {
                if center == Level::Below {
                    triangle_tl(&mut cell);
                    triangle_br(&mut cell);
                } else {
                    hexagon_bl_tr(&mut cell);
                }
            },
            69 | 101 => {
                pentagon_tr(&mut cell);
            },
            70 | 100 => {
                hexagon_bl_tr(&mut cell);
            },
            72 => {
                if center == Level::Below {
                    triangle_tl(&mut cell);
                    tetragon_br(&mut cell);
                } else {
                    heptagon_tl(&mut cell);
                }
            },
            73 | 97 => {
                hexagon_tr_rb(&mut cell);
            },
            74 | 96 => {
                pentagon_tr_rl(&mut cell);
            },
            80 | 90 => {
                tetragon_t(&mut cell);
            },
            81 | 89 => {
                pentagon_br(&mut cell);
            },
            82 | 88 => {
                hexagon_bl_rb(&mut cell);
            },
            84 | 86 => {
                pentagon_bl(&mut cell);
            },
            98 => {
                if center == Level::Above {
                    triangle_tl(&mut cell);
                    tetragon_br(&mut cell);
                } else {
                    heptagon_tl(&mut cell);
                }
            },
            102 => {
                if center == Level::Above {
                    triangle_tl(&mut cell);
                    triangle_br(&mut cell);
                } else {
                    hexagon_bl_tr(&mut cell);
                }
            },
            132 => {
                if center == Level::Below {
                    triangle_br(&mut cell);
                    tetragon_tl(&mut cell);
                } else {
                    heptagon_br(&mut cell);
                }
            },
            136 => {
                if center == Level::Below {
                    tetragon_tl(&mut cell);
                    tetragon_br(&mut cell);
                } else if center == Level::Within {
                    octagon(&mut cell);
                } else {
                    tetragon_bl(&mut cell);
                    tetragon_tr(&mut cell);
                }
            },
            137 => {
                if center == Level::Above {
                    triangle_bl(&mut cell);
                    tetragon_tr(&mut cell);
                } else {
                    heptagon_bl(&mut cell);
                }
            },
            152 => {
                if center == Level::Above {
                    triangle_tr(&mut cell);
                    tetragon_bl(&mut cell);
                } else {
                    heptagon_tr(&mut cell);
                }
            },
            153 => {
                if center == Level::Above {
                    triangle_bl(&mut cell);
                    triangle_tr(&mut cell);
                } else {
                    hexagon_lt_rb(&mut cell);
                }
            },
        _ => {
            return Err(ErrorKind::UnexpectedCVAL);
        },
    }
    Ok(Some(cell))
}

} // verus!
