//! The bounds calculator: an axis-aligned bounding volume expanded over the
//! endpoints of depositing segments only, so travel-only motion never affects
//! scale or centering.
//!
//! A fresh `Bounds` starts at the extreme sentinels (`i64::MAX` minima,
//! `i64::MIN` maxima), the fixed-point analogue of positive and negative
//! infinity; it stays there — degenerate — when no depositing segment exists,
//! and callers must check for that before asking for the center or the
//! maximum extent.
use vstd::prelude::*;

use crate::geometry::LineSegment;
use crate::geometry::COORD_LIMIT;
use crate::geometry::Point3D;

verus! {

/// An axis-aligned bounding volume.
#[derive(Clone, Copy, PartialEq, Eq, Structural, Debug)]
pub struct Bounds {
    pub min: Point3D,
    pub max: Point3D,
}

/// The sentinel bounds nothing has expanded yet.
pub open spec fn initial_bounds() -> Bounds {
    Bounds {
        min: Point3D { x: i64::MAX, y: i64::MAX, z: i64::MAX },
        max: Point3D { x: i64::MIN, y: i64::MIN, z: i64::MIN },
    }
}

/// The bounds after taking one more point in.
pub open spec fn expand_spec(b: Bounds, p: Point3D) -> Bounds {
    Bounds {
        min: Point3D {
            x: if p.x < b.min.x {
                p.x
            } else {
                b.min.x
            },
            y: if p.y < b.min.y {
                p.y
            } else {
                b.min.y
            },
            z: if p.z < b.min.z {
                p.z
            } else {
                b.min.z
            },
        },
        max: Point3D {
            x: if p.x > b.max.x {
                p.x
            } else {
                b.max.x
            },
            y: if p.y > b.max.y {
                p.y
            } else {
                b.max.y
            },
            z: if p.z > b.max.z {
                p.z
            } else {
                b.max.z
            },
        },
    }
}

/// The bounds after folding in the endpoints of every depositing segment from
/// index `i` on.
pub open spec fn bounds_from(s: Seq<LineSegment>, i: int, b: Bounds) -> Bounds
    decreases s.len() - i,
{
    if 0 <= i < s.len() {
        bounds_from(
            s,
            i + 1,
            if s[i].is_depositing {
                expand_spec(expand_spec(b, s[i].start), s[i].end)
            } else {
                b
            },
        )
    } else {
        b
    }
}

/// The bounding volume of the depositing portion of a segment sequence.
pub open spec fn spec_compute_bounds(s: Seq<LineSegment>) -> Bounds {
    bounds_from(s, 0, initial_bounds())
}

impl Bounds {
    /// No point was ever taken in: some axis still has its minimum above its
    /// maximum.
    pub open spec fn is_degenerate_spec(self) -> bool {
        self.min.x > self.max.x || self.min.y > self.max.y || self.min.z > self.max.z
    }

    /// Representable, ordered bounds: what expanding at least one
    /// representable point over a fresh `Bounds` always yields.
    pub open spec fn wf(self) -> bool {
        self.min.wf() && self.max.wf() && self.min.x <= self.max.x && self.min.y <= self.max.y
            && self.min.z <= self.max.z
    }

    /// Per-axis midpoint of `min` and `max`, at fixed-point resolution
    /// (rounded toward `min`).
    pub open spec fn center_spec(self) -> Point3D {
        Point3D {
            x: (self.min.x + (self.max.x - self.min.x) / 2) as i64,
            y: (self.min.y + (self.max.y - self.min.y) / 2) as i64,
            z: (self.min.z + (self.max.z - self.min.z) / 2) as i64,
        }
    }

    /// The largest of the three per-axis extents.
    pub open spec fn max_dimension_spec(self) -> int {
        let dx = self.max.x - self.min.x;
        let dy = self.max.y - self.min.y;
        let dz = self.max.z - self.min.z;
        if dx >= dy && dx >= dz {
            dx
        } else if dy >= dz {
            dy
        } else {
            dz
        }
    }

    /// A fresh volume at the sentinel extrema.
    pub fn new() -> (b: Bounds)
        ensures
            b == initial_bounds(),
    {
        Bounds {
            min: Point3D { x: i64::MAX, y: i64::MAX, z: i64::MAX },
            max: Point3D { x: i64::MIN, y: i64::MIN, z: i64::MIN },
        }
    }

    /// Expands the volume to take one more point in.
    pub fn expand(&mut self, p: Point3D)
        ensures
            *final(self) == expand_spec(*old(self), p),
    {
        if p.x < self.min.x {
            self.min.x = p.x;
        }
        if p.y < self.min.y {
            self.min.y = p.y;
        }
        if p.z < self.min.z {
            self.min.z = p.z;
        }
        if p.x > self.max.x {
            self.max.x = p.x;
        }
        if p.y > self.max.y {
            self.max.y = p.y;
        }
        if p.z > self.max.z {
            self.max.z = p.z;
        }
    }

    /// Whether no point was ever taken in; callers must treat such bounds as
    /// an empty model and ask for neither center nor extent.
    pub fn is_degenerate(&self) -> (r: bool)
        ensures
            r == self.is_degenerate_spec(),
    {
        self.min.x > self.max.x || self.min.y > self.max.y || self.min.z > self.max.z
    }

    /// Whether the bounds are representable and ordered, the precondition of
    /// `center` and `max_dimension`.
    pub fn is_finite(&self) -> (r: bool)
        ensures
            r == self.wf(),
    {
        -COORD_LIMIT <= self.min.x && self.min.x <= COORD_LIMIT && -COORD_LIMIT <= self.min.y
            && self.min.y <= COORD_LIMIT && -COORD_LIMIT <= self.min.z && self.min.z <= COORD_LIMIT
            && -COORD_LIMIT <= self.max.x && self.max.x <= COORD_LIMIT && -COORD_LIMIT
            <= self.max.y && self.max.y <= COORD_LIMIT && -COORD_LIMIT <= self.max.z && self.max.z
            <= COORD_LIMIT && self.min.x <= self.max.x && self.min.y <= self.max.y && self.min.z
            <= self.max.z
    }

    /// The per-axis midpoint of the volume.
    pub fn center(&self) -> (c: Point3D)
        requires
            self.wf(),
        ensures
            c == self.center_spec(),
    {
        let hx = ((self.max.x - self.min.x) as u64 / 2) as i64;
        let hy = ((self.max.y - self.min.y) as u64 / 2) as i64;
        let hz = ((self.max.z - self.min.z) as u64 / 2) as i64;
        Point3D { x: self.min.x + hx, y: self.min.y + hy, z: self.min.z + hz }
    }

    /// The largest of the three per-axis extents, the basis of a caller's
    /// normalization scale.
    pub fn max_dimension(&self) -> (d: i64)
        requires
            self.wf(),
        ensures
            d as int == self.max_dimension_spec(),
    {
        let dx = self.max.x - self.min.x;
        let dy = self.max.y - self.min.y;
        let dz = self.max.z - self.min.z;
        if dx >= dy && dx >= dz {
            dx
        } else if dy >= dz {
            dy
        } else {
            dz
        }
    }
}

/// Either still the untouched sentinels, or well-formed: what the fold keeps.
pub open spec fn bounds_inv(b: Bounds) -> bool {
    b == initial_bounds() || b.wf()
}

proof fn lemma_expand_inv(b: Bounds, p: Point3D)
    requires
        bounds_inv(b),
        p.wf(),
    ensures
        expand_spec(b, p).wf(),
{
}

proof fn lemma_bounds_from_inv(s: Seq<LineSegment>, i: int, b: Bounds)
    requires
        bounds_inv(b),
        forall|k: int| 0 <= k < s.len() ==> (#[trigger] s[k]).wf(),
    ensures
        bounds_inv(bounds_from(s, i, b)),
    decreases s.len() - i,
{
    if 0 <= i < s.len() {
        if s[i].is_depositing {
            lemma_expand_inv(b, s[i].start);
            lemma_expand_inv(expand_spec(b, s[i].start), s[i].end);
            lemma_bounds_from_inv(s, i + 1, expand_spec(expand_spec(b, s[i].start), s[i].end));
        } else {
            lemma_bounds_from_inv(s, i + 1, b);
        }
    }
}

/// Computes the bounding volume over the endpoints of depositing segments
/// only. When every segment is well-formed, the result is either degenerate
/// (no depositing segment) or well-formed.
pub fn compute_bounds(segments: &Vec<LineSegment>) -> (b: Bounds)
    ensures
        b == spec_compute_bounds(segments@),
        (forall|k: int| 0 <= k < segments@.len() ==> (#[trigger] segments@[k]).wf()) ==> (
        b.is_degenerate_spec() || b.wf()),
{
    let ghost s = segments@;
    let mut b = Bounds::new();
    let mut i: usize = 0;
    while i < segments.len()
        invariant
            i <= s.len(),
            spec_compute_bounds(s) == bounds_from(s, i as int, b),
        decreases s.len() - i,
    {
        let seg = segments[i];
        if seg.is_depositing {
            b.expand(seg.start);
            b.expand(seg.end);
        }
        i = i + 1;
    }
    proof {
        if forall|k: int| 0 <= k < s.len() ==> (#[trigger] s[k]).wf() {
            lemma_bounds_from_inv(s, 0, initial_bounds());
        }
    }
    b
}

/// Recomputing the bounds of the same sequence yields identical minima and
/// maxima: the computation is a pure function of its input.
pub proof fn lemma_bounds_recompute(s: Seq<LineSegment>, b1: Bounds, b2: Bounds)
    requires
        b1 == spec_compute_bounds(s),
        b2 == spec_compute_bounds(s),
    ensures
        b1.min == b2.min,
        b1.max == b2.max,
{
}

/// The depositing segments of a sequence, in order.
pub open spec fn depositing_only(s: Seq<LineSegment>) -> Seq<LineSegment> {
    s.filter(|seg: LineSegment| seg.is_depositing)
}

proof fn lemma_bounds_from_snoc(s: Seq<LineSegment>, x: LineSegment, i: int, b: Bounds)
    requires
        0 <= i <= s.len(),
    ensures
        bounds_from(s.push(x), i, b) == if x.is_depositing {
            expand_spec(expand_spec(bounds_from(s, i, b), x.start), x.end)
        } else {
            bounds_from(s, i, b)
        },
    decreases s.len() - i,
{
    if i < s.len() {
        assert(s.push(x)[i] == s[i]);
        if s[i].is_depositing {
            lemma_bounds_from_snoc(s, x, i + 1, expand_spec(expand_spec(b, s[i].start), s[i].end));
        } else {
            lemma_bounds_from_snoc(s, x, i + 1, b);
        }
    } else {
        assert(s.push(x)[i] == x);
        assert(bounds_from(s.push(x), i + 1, expand_spec(expand_spec(b, x.start), x.end))
            == expand_spec(expand_spec(b, x.start), x.end));
        assert(bounds_from(s.push(x), i + 1, b) == b);
    }
}

/// Non-depositing motion never affects the volume: the bounds of a sequence
/// equal the bounds of its depositing-only subsequence.
pub proof fn lemma_bounds_depend_only_on_depositing(s: Seq<LineSegment>)
    ensures
        spec_compute_bounds(s) == spec_compute_bounds(depositing_only(s)),
    decreases s.len(),
{
    reveal_with_fuel(Seq::filter, 2);
    if s.len() == 0 {
        assert(depositing_only(s) == s);
    } else {
        let prefix = s.drop_last();
        let x = s.last();
        lemma_bounds_depend_only_on_depositing(prefix);
        assert(s =~= prefix.push(x));
        lemma_bounds_from_snoc(prefix, x, 0, initial_bounds());
        if x.is_depositing {
            assert(depositing_only(s) =~= depositing_only(prefix).push(x));
            lemma_bounds_from_snoc(depositing_only(prefix), x, 0, initial_bounds());
        } else {
            assert(depositing_only(s) =~= depositing_only(prefix));
        }
    }
}

} // verus!
