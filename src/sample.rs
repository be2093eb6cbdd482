//! Sample values, known to the library by their order only.
use vstd::prelude::*;

verus! {

/// One grid sample, held by its place in the order of real numbers.
///
/// A finite value is carried as an order key: for finite `a` and `b`,
/// `a < b` exactly when the key of `a` is below the key of `b`, and equal
/// values have equal keys. The two infinities lie beyond every key, and a
/// value that is not a number compares with nothing.
#[derive(Clone, Copy, Debug, PartialEq, Eq, Structural)]
pub enum Sample {
    Nan,
    NegInfinity,
    Finite(u64),
    PosInfinity,
}

/// Where a sample lies with respect to a band.
#[derive(Clone, Copy, Debug, PartialEq, Eq, Structural)]
pub enum Level {
    Below,
    Within,
    Above,
}

/// The two bounds of the band being traced: a sample is in the band when it
/// is neither below `min_v` nor above `max_v`.
#[derive(Clone, Copy, Debug, PartialEq, Eq, Structural)]
pub struct Settings {
    pub min_v: Sample,
    pub max_v: Sample,
}

/// The place of a comparable sample on a line of integers.
pub open spec fn rank(s: Sample) -> int {
    match s {
        Sample::Nan => 0,
        Sample::NegInfinity => -1,
        Sample::Finite(k) => k as int,
        Sample::PosInfinity => 0x1_0000_0000_0000_0000,
    }
}

pub open spec fn comparable(s: Sample) -> bool {
    s != Sample::Nan
}

/// `a < b`; false when either is not a number.
pub open spec fn lt(a: Sample, b: Sample) -> bool {
    comparable(a) && comparable(b) && rank(a) < rank(b)
}

/// `a > b`; false when either is not a number.
pub open spec fn gt(a: Sample, b: Sample) -> bool {
    lt(b, a)
}

pub open spec fn is_finite(s: Sample) -> bool {
    s is Finite
}

/// The level of `v` in the band `[min_v, max_v]`. A value that is not a
/// number compares with neither bound and so is given `Within` here; it lies
/// in no band (see `in_band`), and the classifier sets aside every cell with
/// such a corner before it looks at levels.
pub open spec fn level_of(v: Sample, opt: Settings) -> Level {
    if lt(v, opt.min_v) {
        Level::Below
    } else if gt(v, opt.max_v) {
        Level::Above
    } else {
        Level::Within
    }
}

/// Whether `v` lies in the band: a number, neither below nor above it.
pub open spec fn in_band(v: Sample, opt: Settings) -> bool {
    comparable(v) && !outside_band(v, opt)
}

/// Whether `v` lies outside the band, below or above it.
pub open spec fn outside_band(v: Sample, opt: Settings) -> bool {
    lt(v, opt.min_v) || gt(v, opt.max_v)
}

impl Sample {
    pub fn less_than(&self, other: &Sample) -> (r: bool)
        ensures
            r == lt(*self, *other),
    {
        match (*self, *other) {
            (Sample::Nan, _) => false,
            (_, Sample::Nan) => false,
            (Sample::NegInfinity, Sample::NegInfinity) => false,
            (Sample::NegInfinity, _) => true,
            (Sample::Finite(_), Sample::NegInfinity) => false,
            (Sample::Finite(a), Sample::Finite(b)) => a < b,
            (Sample::Finite(_), Sample::PosInfinity) => true,
            (Sample::PosInfinity, _) => false,
        }
    }

    pub fn greater_than(&self, other: &Sample) -> (r: bool)
        ensures
            r == gt(*self, *other),
    {
        other.less_than(self)
    }

    pub fn is_finite(&self) -> (r: bool)
        ensures
            r == is_finite(*self),
    {
        match self {
            Sample::Finite(_) => true,
            _ => false,
        }
    }

    pub fn is_nan(&self) -> (r: bool)
        ensures
            r == !comparable(*self),
    {
        match self {
            Sample::Nan => true,
            _ => false,
        }
    }
}

impl Settings {
    /// The level of `v` in this band.
    pub fn level(&self, v: &Sample) -> (r: Level)
        ensures
            r == level_of(*v, *self),
    {
        if v.less_than(&self.min_v) {
            Level::Below
        } else if v.greater_than(&self.max_v) {
            Level::Above
        } else {
            Level::Within
        }
    }

    /// Whether `v` lies in this band.
    pub fn holds(&self, v: &Sample) -> (r: bool)
        ensures
            r == in_band(*v, *self),
    {
        !v.is_nan() && !self.outside(v)
    }

    pub fn outside(&self, v: &Sample) -> (r: bool)
        ensures
            r == outside_band(*v, *self),
    {
        v.less_than(&self.min_v) || v.greater_than(&self.max_v)
    }
}

} // verus!
