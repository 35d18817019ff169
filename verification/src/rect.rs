use vstd::prelude::*;

verus! {

/// Rust's `/` on integers rounds toward zero; this is that quotient by two.
pub open spec fn half_toward_zero(v: int) -> int {
    if v >= 0 {
        v / 2
    } else {
        -((-v) / 2)
    }
}

pub open spec fn min_i(a: int, b: int) -> int {
    if a <= b { a } else { b }
}

pub open spec fn max_i(a: int, b: int) -> int {
    if a >= b { a } else { b }
}

/// `n` lies in the closed interval `[lo, hi]`.
pub open spec fn within(n: int, lo: int, hi: int) -> bool {
    lo <= n && n <= hi
}

/// An axis-aligned rectangle given by its two corners.
#[derive(Clone, Copy, Debug, PartialEq, Eq, Structural)]
pub struct Rect {
    pub x1: i32,
    pub x2: i32,
    pub y1: i32,
    pub y2: i32,
}

impl Rect {
    /// Two rectangles overlap (borders included).
    pub open spec fn overlaps(self, other: Rect) -> bool {
        self.x1 <= other.x2 && self.x2 >= other.x1 && self.y1 <= other.y2 && self.y2 >= other.y1
    }

    /// One of the two horizontal edges of `self` lies within the vertical extent of `other`.
    pub open spec fn lined_horizontal(self, other: Rect) -> bool {
        within(self.y1 as int, other.y1 as int, other.y2 as int)
            || within(self.y2 as int, other.y1 as int, other.y2 as int)
    }

    /// `self` lies entirely left of `other` and is lined up with it.
    pub open spec fn west_of(self, other: Rect) -> bool {
        max_i(self.x1 as int, self.x2 as int) < min_i(other.x1 as int, other.x2 as int)
            && self.lined_horizontal(other)
    }

    /// `self` lies entirely right of `other` and is lined up with it.
    pub open spec fn east_of(self, other: Rect) -> bool {
        min_i(self.x1 as int, self.x2 as int) > max_i(other.x1 as int, other.x2 as int)
            && self.lined_horizontal(other)
    }

    /// The rectangle with corner `(x, y)`, width `w` and height `h`.
    pub fn new(x: i32, y: i32, w: i32, h: i32) -> (r: Rect)
        requires
            i32::MIN <= x + w <= i32::MAX,
            i32::MIN <= y + h <= i32::MAX,
        ensures
            r.x1 == x,
            r.y1 == y,
            r.x2 == x + w,
            r.y2 == y + h,
    {
        Rect { x1: x, y1: y, x2: x + w, y2: y + h }
    }

    /// Returns true if this overlaps with other.
    pub fn intersect(&self, other: &Rect) -> (r: bool)
        ensures
            r == self.overlaps(*other),
    {
        self.x1 <= other.x2 && self.x2 >= other.x1 && self.y1 <= other.y2 && self.y2 >= other.y1
    }

    /// The middle of the rectangle, each coordinate rounded toward zero.
    pub fn center(&self) -> (r: (i32, i32))
        requires
            i32::MIN <= self.x1 + self.x2 <= i32::MAX,
            i32::MIN <= self.y1 + self.y2 <= i32::MAX,
        ensures
            r.0 == half_toward_zero(self.x1 + self.x2),
            r.1 == half_toward_zero(self.y1 + self.y2),
    {
        ((self.x1 + self.x2) / 2, (self.y1 + self.y2) / 2)
    }

    pub fn is_west(&self, other: &Rect) -> (r: bool)
        ensures
            r == self.west_of(*other),
    {
        self.x1.max(self.x2) < other.x1.min(other.x2) && (between(self.y1, (other.y1, other.y2))
            || between(self.y2, (other.y1, other.y2)))
    }

    pub fn is_east(&self, other: &Rect) -> (r: bool)
        ensures
            r == self.east_of(*other),
    {
        self.x1.min(self.x2) > other.x1.max(other.x2) && (between(self.y1, (other.y1, other.y2))
            || between(self.y2, (other.y1, other.y2)))
    }

    pub fn is_lined_horizontal(&self, other: &Rect) -> (r: bool)
        ensures
            r == self.lined_horizontal(*other),
    {
        between(self.y1, (other.y1, other.y2)) || between(self.y2, (other.y1, other.y2))
    }
}

/// `n` lies in the closed interval given by `bound`.
pub fn between(n: i32, bound: (i32, i32)) -> (r: bool)
    ensures
        r == within(n as int, bound.0 as int, bound.1 as int),
{
    n >= bound.0 && n <= bound.1
}

/// Overlap does not depend on the order of the two rectangles.
pub proof fn lemma_overlap_symmetric(a: Rect, b: Rect)
    ensures
        a.overlaps(b) == b.overlaps(a),
{
}

/// No rectangle is both west and east of another one.
pub proof fn lemma_west_east_exclusive(a: Rect, b: Rect)
    ensures
        !(a.west_of(b) && a.east_of(b)),
{
}

/// If `a` is west of `b` then `b` lies horizontally beyond `a`: the horizontal
/// part of "east of" holds for `b` against `a`, and `b` is east of `a`
/// whenever `b` is lined up with `a` in turn.
pub proof fn lemma_west_mirrors_east(a: Rect, b: Rect)
    requires
        a.west_of(b),
    ensures
        min_i(b.x1 as int, b.x2 as int) > max_i(a.x1 as int, a.x2 as int),
        !b.west_of(a),
        b.lined_horizontal(a) ==> b.east_of(a),
{
}

/// If `a` is east of `b` then `b` lies horizontally before `a`, and `b` is
/// west of `a` whenever `b` is lined up with `a` in turn.
pub proof fn lemma_east_mirrors_west(a: Rect, b: Rect)
    requires
        a.east_of(b),
    ensures
        max_i(b.x1 as int, b.x2 as int) < min_i(a.x1 as int, a.x2 as int),
        !b.east_of(a),
        b.lined_horizontal(a) ==> b.west_of(a),
{
}

} // verus!
