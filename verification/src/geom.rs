//! Axis-aligned rectangles in page coordinates.

use vstd::prelude::*;

use crate::{clamp, in_range, COORD_LIMIT};

verus! {

/// An axis-aligned rectangle in page coordinates (thousandths of a page
/// unit). A well-formed rectangle has `left <= right` and `bottom <= top`,
/// so its width and height are never negative.
#[derive(Clone, Copy, Debug, PartialEq, Eq, Structural)]
pub struct Rect {
    pub left: i64,
    pub bottom: i64,
    pub right: i64,
    pub top: i64,
}

pub open spec fn spec_min(a: int, b: int) -> int {
    if a <= b {
        a
    } else {
        b
    }
}

pub open spec fn spec_max(a: int, b: int) -> int {
    if a >= b {
        a
    } else {
        b
    }
}

impl Rect {
    /// Every edge in range, and the edges ordered.
    pub open spec fn wf(self) -> bool {
        &&& in_range(self.left as int)
        &&& in_range(self.bottom as int)
        &&& in_range(self.right as int)
        &&& in_range(self.top as int)
        &&& self.left <= self.right
        &&& self.bottom <= self.top
    }

    pub open spec fn spec_width(self) -> int {
        self.right - self.left
    }

    pub open spec fn spec_height(self) -> int {
        self.top - self.bottom
    }

    /// Twice the x coordinate of the center; doubling keeps it an integer.
    pub open spec fn center_x2(self) -> int {
        self.left + self.right
    }

    /// Twice the y coordinate of the center.
    pub open spec fn center_y2(self) -> int {
        self.bottom + self.top
    }

    /// The normalized rectangle spanned by two corner points: each
    /// coordinate is clamped into range and the corners are reordered so
    /// that the result is well formed.
    pub open spec fn spec_from_corners(x1: int, y1: int, x2: int, y2: int) -> Rect {
        Rect {
            left: clamp(spec_min(x1, x2)) as i64,
            bottom: clamp(spec_min(y1, y2)) as i64,
            right: clamp(spec_max(x1, x2)) as i64,
            top: clamp(spec_max(y1, y2)) as i64,
        }
    }

    /// Builds the normalized rectangle spanned by two corner points.
    pub fn from_corners(x1: i64, y1: i64, x2: i64, y2: i64) -> (r: Rect)
        ensures
            r == Rect::spec_from_corners(x1 as int, y1 as int, x2 as int, y2 as int),
            r.wf(),
    {
        let (lo_x, hi_x) = if x1 <= x2 {
            (x1, x2)
        } else {
            (x2, x1)
        };
        let (lo_y, hi_y) = if y1 <= y2 {
            (y1, y2)
        } else {
            (y2, y1)
        };
        Rect {
            left: clamp_exec(lo_x),
            bottom: clamp_exec(lo_y),
            right: clamp_exec(hi_x),
            top: clamp_exec(hi_y),
        }
    }

    pub fn width(&self) -> (r: i64)
        requires
            self.wf(),
        ensures
            r == self.spec_width(),
    {
        self.right - self.left
    }

    pub fn height(&self) -> (r: i64)
        requires
            self.wf(),
        ensures
            r == self.spec_height(),
    {
        self.top - self.bottom
    }

    /// Twice the x coordinate of the center.
    pub fn cx2(&self) -> (r: i64)
        requires
            self.wf(),
        ensures
            r == self.center_x2(),
    {
        self.left + self.right
    }

    /// Twice the y coordinate of the center.
    pub fn cy2(&self) -> (r: i64)
        requires
            self.wf(),
        ensures
            r == self.center_y2(),
    {
        self.bottom + self.top
    }

    /// True when `inner` lies inside `self`, borders included.
    pub open spec fn spec_contains(self, inner: Rect) -> bool {
        &&& self.left <= inner.left
        &&& inner.right <= self.right
        &&& self.bottom <= inner.bottom
        &&& inner.top <= self.top
    }

    /// Reports whether `inner` lies inside `self`, borders included.
    pub fn contains(&self, inner: &Rect) -> (r: bool)
        ensures
            r == self.spec_contains(*inner),
    {
        self.left <= inner.left && inner.right <= self.right && self.bottom <= inner.bottom
            && inner.top <= self.top
    }

    /// The smallest rectangle covering both arguments.
    pub open spec fn spec_union(self, other: Rect) -> Rect {
        Rect {
            left: spec_min(self.left as int, other.left as int) as i64,
            bottom: spec_min(self.bottom as int, other.bottom as int) as i64,
            right: spec_max(self.right as int, other.right as int) as i64,
            top: spec_max(self.top as int, other.top as int) as i64,
        }
    }

    /// Computes the smallest rectangle covering both arguments.
    pub fn union(&self, other: &Rect) -> (r: Rect)
        requires
            self.wf(),
            other.wf(),
        ensures
            r == self.spec_union(*other),
            r.wf(),
    {
        Rect {
            left: if self.left <= other.left {
                self.left
            } else {
                other.left
            },
            bottom: if self.bottom <= other.bottom {
                self.bottom
            } else {
                other.bottom
            },
            right: if self.right >= other.right {
                self.right
            } else {
                other.right
            },
            top: if self.top >= other.top {
                self.top
            } else {
                other.top
            },
        }
    }
}

/// Clamps one coordinate into the supported range.
pub fn clamp_exec(v: i64) -> (r: i64)
    ensures
        r == clamp(v as int),
{
    if v < -COORD_LIMIT {
        -COORD_LIMIT
    } else if v > COORD_LIMIT {
        COORD_LIMIT
    } else {
        v
    }
}

} // verus!
