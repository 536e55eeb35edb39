//! Shapes and separating-axis collision.
//!
//! A [`Collider`] is a centered axis-aligned box or a line segment.
//! Candidate separating axes are each shape's own critical axes plus
//! every vertex-to-vertex delta; each axis is normalized, both shapes'
//! vertices are projected onto it as raw dot products, and the
//! minimum-penetration axis with positive overlap becomes the
//! resolution normal.  The normal points from the second shape toward
//! the first.

use vstd::prelude::*;

use crate::fixed::{fx_neg, fx_sub, sat64, sat_i64, spec_abs, tdiv, UNIT};
use crate::vector::{
    len2, normalize_or_zero, rawdot, rotate_90, spec_normalize, spec_rot90, spec_v_neg,
    spec_v_sub, v_neg, v_rawdot, v_sub, Vec2,
};

verus! {

/// Largest point coordinate the collision system accepts: keeps every
/// raw projection within `i64`.
pub const COLLIDER_LIMIT: i64 = 1_000_000_000_000;

/// A collision shape, centered on its own origin.
#[derive(Clone, Copy, Debug, PartialEq, Eq, Structural)]
pub enum Collider {
    /// An axis-aligned box given by its half-extents.
    Aabb { half: Vec2 },
    /// A line segment between two points.
    Surface { p1: Vec2, p2: Vec2 },
}

/// A detected collision: the direction to push the first shape, and
/// the raw overlap depth along it (scaled by [`UNIT`], since the
/// normal is a unit vector in raw units).
#[derive(Clone, Copy, Debug, PartialEq, Eq, Structural)]
pub struct Collision {
    pub normal: Vec2,
    pub penetration: i64,
}

/// A one-dimensional interval: the extent of a shape projected onto an
/// axis.
#[derive(Clone, Copy, Debug, PartialEq, Eq, Structural)]
pub struct Projection {
    pub a: i64,
    pub b: i64,
}

/// A vector whose components are bounded by `m` in magnitude.
pub open spec fn bounded_vec2(v: Vec2, m: int) -> bool {
    spec_abs(v.x as int) <= m && spec_abs(v.y as int) <= m
}

/// A collider whose defining points are bounded by [`COLLIDER_LIMIT`].
pub open spec fn collider_wf(c: Collider) -> bool {
    match c {
        Collider::Aabb { half } => 0 <= half.x <= COLLIDER_LIMIT && 0 <= half.y <= COLLIDER_LIMIT,
        Collider::Surface { p1, p2 } => bounded_vec2(p1, COLLIDER_LIMIT as int) && bounded_vec2(
            p2,
            COLLIDER_LIMIT as int,
        ),
    }
}

/// The shape's vertices: the box's four corners, or the segment's two
/// endpoints.
pub open spec fn spec_points(c: Collider) -> Seq<Vec2> {
    match c {
        Collider::Aabb { half } => seq![
            Vec2 { x: sat_i64(-half.x), y: sat_i64(-half.y) },
            Vec2 { x: half.x, y: sat_i64(-half.y) },
            Vec2 { x: half.x, y: half.y },
            Vec2 { x: sat_i64(-half.x), y: half.y },
        ],
        Collider::Surface { p1, p2 } => seq![p1, p2],
    }
}

/// The shape's own critical axes: the box's two edge normals, or the
/// segment's direction and normal.
pub open spec fn spec_critical_axes(c: Collider) -> Seq<Vec2> {
    match c {
        Collider::Aabb { half } => seq![
            Vec2 { x: UNIT, y: 0i64 },
            Vec2 { x: 0i64, y: UNIT },
        ],
        Collider::Surface { p1, p2 } => {
            let dir = spec_normalize(spec_v_sub(p2, p1));
            seq![dir, spec_rot90(dir)]
        },
    }
}

/// The raw projection of a point, moved by `offset`, onto an axis:
/// exact integer arithmetic.
pub open spec fn proj_of(p: Vec2, offset: Vec2, axis: Vec2) -> int {
    (p.x + offset.x) * (axis.x as int) + (p.y + offset.y) * (axis.y as int)
}

/// The minimum raw projection of the first `i` points.
pub open spec fn min_proj(pts: Seq<Vec2>, offset: Vec2, axis: Vec2, i: int) -> int
    decreases i,
{
    if i <= 1 {
        proj_of(pts[0], offset, axis)
    } else {
        let prev = min_proj(pts, offset, axis, i - 1);
        let cur = proj_of(pts[i - 1], offset, axis);
        if cur < prev {
            cur
        } else {
            prev
        }
    }
}

/// The maximum raw projection of the first `i` points.
pub open spec fn max_proj(pts: Seq<Vec2>, offset: Vec2, axis: Vec2, i: int) -> int
    decreases i,
{
    if i <= 1 {
        proj_of(pts[0], offset, axis)
    } else {
        let prev = max_proj(pts, offset, axis, i - 1);
        let cur = proj_of(pts[i - 1], offset, axis);
        if cur > prev {
            cur
        } else {
            prev
        }
    }
}

impl Collider {
    /// A square of the given side length, centered on the origin.
    pub fn square(side: i64) -> (r: Collider)
        requires
            0 <= side <= COLLIDER_LIMIT,
        ensures
            r == (Collider::Aabb { half: Vec2 { x: (side / 2) as i64, y: (side / 2) as i64 } }),
            collider_wf(r),
    {
        let h = ((side as u64) / 2) as i64;
        Collider::Aabb { half: Vec2 { x: h, y: h } }
    }

    /// A rectangle of the given width and height, centered on the
    /// origin.
    pub fn rectangle(width: i64, height: i64) -> (r: Collider)
        requires
            0 <= width <= COLLIDER_LIMIT,
            0 <= height <= COLLIDER_LIMIT,
        ensures
            r == (Collider::Aabb { half: Vec2 { x: (width / 2) as i64, y: (height / 2) as i64 } }),
            collider_wf(r),
    {
        Collider::Aabb {
            half: Vec2 { x: ((width as u64) / 2) as i64, y: ((height as u64) / 2) as i64 },
        }
    }

    /// The shape's vertices.
    pub fn points(&self) -> (r: Vec<Vec2>)
        requires
            collider_wf(*self),
        ensures
            r@ == spec_points(*self),
            r@.len() >= 2,
            forall|i: int| 0 <= i < r@.len() ==> bounded_vec2(#[trigger] r@[i],
                COLLIDER_LIMIT as int),
    {
        match self {
            Collider::Aabb { half } => {
                let mut v: Vec<Vec2> = Vec::new();
                v.push(Vec2 { x: fx_neg(half.x), y: fx_neg(half.y) });
                v.push(Vec2 { x: half.x, y: fx_neg(half.y) });
                v.push(Vec2 { x: half.x, y: half.y });
                v.push(Vec2 { x: fx_neg(half.x), y: half.y });
                proof {
                    assert(v@ =~= spec_points(*self));
                }
                v
            },
            Collider::Surface { p1, p2 } => {
                let mut v: Vec<Vec2> = Vec::new();
                v.push(*p1);
                v.push(*p2);
                proof {
                    assert(v@ =~= spec_points(*self));
                }
                v
            },
        }
    }

    /// The shape's own critical axes.
    pub fn critical_axes(&self) -> (r: Vec<Vec2>)
        requires
            collider_wf(*self),
        ensures
            r@ == spec_critical_axes(*self),
            forall|i: int| 0 <= i < r@.len() ==> bounded_vec2(#[trigger] r@[i], UNIT as int),
    {
        match self {
            Collider::Aabb { .. } => {
                let mut v: Vec<Vec2> = Vec::new();
                v.push(Vec2 { x: UNIT, y: 0 });
                v.push(Vec2 { x: 0, y: UNIT });
                proof {
                    assert(v@ =~= spec_critical_axes(*self));
                }
                v
            },
            Collider::Surface { p1, p2 } => {
                let dir = normalize_or_zero(v_sub(*p2, *p1));
                let mut v: Vec<Vec2> = Vec::new();
                v.push(dir);
                v.push(rotate_90(dir));
                proof {
                    assert(v@ =~= spec_critical_axes(*self));
                }
                v
            },
        }
    }
}

/// Projects points moved by `offset` onto an axis and returns the
/// covered interval, or nothing for an empty point set.
pub fn project_points(points: &Vec<Vec2>, offset: Vec2, axis: Vec2) -> (r: Option<Projection>)
    requires
        forall|i: int| 0 <= i < points@.len() ==> bounded_vec2(#[trigger] points@[i],
            COLLIDER_LIMIT as int),
        bounded_vec2(offset, 1_000_000_000_000_000),
        bounded_vec2(axis, 2 * UNIT as int),
    ensures
        points@.len() == 0 ==> r == Option::<Projection>::None,
        points@.len() > 0 ==> r == Option::Some(
            Projection {
                a: min_proj(points@, offset, axis, points@.len() as int) as i64,
                b: max_proj(points@, offset, axis, points@.len() as int) as i64,
            },
        ),
{
    let n = points.len();
    if n == 0 {
        return Option::None;
    }
    proof {
        lemma_proj_bounded(points@, offset, axis, n as int, 1_000_000_000_000_000, 2 * UNIT as int,
            4_004_000_000_000_000_000);
    }
    let first = proj_exact(points[0], offset, axis);
    let mut lo: i64 = first;
    let mut hi: i64 = first;
    let mut i: usize = 1;
    while i < n
        invariant
            1 <= i <= n,
            n == points@.len(),
            forall|k: int| 0 <= k < points@.len() ==> bounded_vec2(#[trigger] points@[k],
                COLLIDER_LIMIT as int),
            bounded_vec2(offset, 1_000_000_000_000_000),
            bounded_vec2(axis, 2 * UNIT as int),
            lo as int == min_proj(points@, offset, axis, i as int),
            hi as int == max_proj(points@, offset, axis, i as int),
        decreases n - i,
    {
        let p = proj_exact(points[i], offset, axis);
        if p < lo {
            lo = p;
        }
        if p > hi {
            hi = p;
        }
        i = i + 1;
    }
    Option::Some(Projection { a: lo, b: hi })
}

/// Every projection of a bounded point set is bounded: with points
/// within [`COLLIDER_LIMIT`], an offset within `ob` and an axis within
/// `ab`, each raw projection stays within
/// `(COLLIDER_LIMIT + ob) * ab * 2`.
pub proof fn lemma_proj_bounded(
    pts: Seq<Vec2>,
    offset: Vec2,
    axis: Vec2,
    n: int,
    ob: int,
    ab: int,
    bound: int,
)
    requires
        forall|i: int| 0 <= i < pts.len() ==> bounded_vec2(#[trigger] pts[i],
            COLLIDER_LIMIT as int),
        bounded_vec2(offset, ob),
        bounded_vec2(axis, ab),
        0 <= ob,
        0 <= ab,
        (COLLIDER_LIMIT + ob) * ab * 2 <= bound,
        1 <= n <= pts.len(),
    ensures
        forall|i: int| 0 <= i < pts.len() ==> -bound <= #[trigger] proj_of(pts[i], offset, axis)
            <= bound,
        -bound <= min_proj(pts, offset, axis, n) <= bound,
        -bound <= max_proj(pts, offset, axis, n) <= bound,
    decreases n,
{
    assert forall|i: int| 0 <= i < pts.len() implies -bound <= #[trigger] proj_of(pts[i], offset,
        axis) <= bound by {
        let p = pts[i];
        assert(-((COLLIDER_LIMIT + ob) * ab * 2) <= (p.x + offset.x) * (axis.x as int) + (p.y
            + offset.y) * (axis.y as int) <= (COLLIDER_LIMIT + ob) * ab * 2) by (nonlinear_arith)
            requires
                -(COLLIDER_LIMIT as int) <= p.x as int <= COLLIDER_LIMIT as int,
                -(COLLIDER_LIMIT as int) <= p.y as int <= COLLIDER_LIMIT as int,
                -ob <= offset.x as int <= ob,
                -ob <= offset.y as int <= ob,
                -ab <= axis.x as int <= ab,
                -ab <= axis.y as int <= ab,
                0 <= ob,
                0 <= ab;
    }
    if n > 1 {
        lemma_proj_bounded(pts, offset, axis, n - 1, ob, ab, bound);
    }
}

/// The exact raw projection of one bounded point.
fn proj_exact(p: Vec2, offset: Vec2, axis: Vec2) -> (r: i64)
    requires
        bounded_vec2(p, COLLIDER_LIMIT as int),
        bounded_vec2(offset, 1_000_000_000_000_000),
        bounded_vec2(axis, 2 * UNIT as int),
    ensures
        r as int == proj_of(p, offset, axis),
{
    proof {
        assert(-4_004_000_000_000_000_000 <= (p.x + offset.x) * (axis.x as int) + (p.y + offset.y)
            * (axis.y as int) <= 4_004_000_000_000_000_000 && -2_002_000_000_000_000_000 <= (p.x
            + offset.x) * (axis.x as int) <= 2_002_000_000_000_000_000
            && -2_002_000_000_000_000_000 <= (p.y + offset.y) * (axis.y as int)
            <= 2_002_000_000_000_000_000) by (nonlinear_arith)
            requires
                -1_000_000_000_000 <= p.x as int <= 1_000_000_000_000,
                -1_000_000_000_000 <= p.y as int <= 1_000_000_000_000,
                -1_000_000_000_000_000 <= offset.x as int <= 1_000_000_000_000_000,
                -1_000_000_000_000_000 <= offset.y as int <= 1_000_000_000_000_000,
                -2000 <= axis.x as int <= 2000,
                -2000 <= axis.y as int <= 2000;
    }
    let px: i128 = ((p.x as i128) + (offset.x as i128)) * (axis.x as i128);
    let py: i128 = ((p.y as i128) + (offset.y as i128)) * (axis.y as i128);
    (px + py) as i64
}

impl Projection {
    /// An interval from its endpoints.
    pub fn new(a: i64, b: i64) -> (r: Projection)
        ensures
            r == (Projection { a, b }),
    {
        Projection { a, b }
    }

    /// The signed overlap of two intervals: positive when `self`
    /// penetrates `other` from below, negative from above, `None` when
    /// they do not overlap.  The magnitude is the smaller escape
    /// distance.
    pub open spec fn spec_get_intersection(self, other: Projection) -> Option<i64> {
        let da = sat64(self.b - other.a);
        let db = sat64(other.b - self.a);
        if da < db {
            if da > 0 {
                Option::Some(da as i64)
            } else {
                Option::None
            }
        } else {
            if db > 0 {
                Option::Some(sat_i64(-db))
            } else {
                Option::None
            }
        }
    }

    /// The signed overlap of two intervals.
    pub fn get_intersection(self, other: Projection) -> (r: Option<i64>)
        ensures
            r == self.spec_get_intersection(other),
    {
        let da = fx_sub(self.b, other.a);
        let db = fx_sub(other.b, self.a);
        if da < db {
            if da > 0 {
                Option::Some(da)
            } else {
                Option::None
            }
        } else {
            if db > 0 {
                Option::Some(fx_neg(db))
            } else {
                Option::None
            }
        }
    }
}


/// The vertex-to-vertex delta axes: for each vertex of the first
/// shape, every second-shape vertex minus it, in that order.
pub open spec fn spec_deltas(pa: Seq<Vec2>, pb: Seq<Vec2>) -> Seq<Vec2> {
    Seq::new((pa.len() * pb.len()) as nat, |k: int| spec_v_sub(pb[k % pb.len() as int],
        pa[k / pb.len() as int]))
}

/// All candidate separating axes of a shape pair.
pub open spec fn spec_axes(a: Collider, b: Collider) -> Seq<Vec2> {
    spec_critical_axes(a) + spec_critical_axes(b) + spec_deltas(spec_points(a), spec_points(b))
}

/// The facts every reported collision satisfies: a positive, bounded
/// penetration; a bounded, non-degenerate unit normal; and, measured
/// along that normal, the second shape's greatest projection exceeds
/// the first shape's least projection by exactly the penetration.
pub open spec fn col_props(col: Collision, a: Collider, b: Collider, off: Vec2) -> bool {
    let pa = spec_points(a);
    let pb = spec_points(b);
    &&& 0 < col.penetration <= 20_000_000_000_000_000
    &&& bounded_vec2(col.normal, UNIT as int)
    &&& len2(col.normal) >= 250_000
    &&& max_proj(pb, off, col.normal, pb.len() as int) - min_proj(
        pa,
        Vec2 { x: 0i64, y: 0i64 },
        col.normal,
        pa.len() as int,
    ) == col.penetration
}

/// The separating-axis scan from axis `i` on, carrying the best
/// (minimum-penetration) collision so far.  A degenerate zero axis is
/// skipped; an axis with no overlap ends the scan with no collision.
pub open spec fn spec_check_from(
    a: Collider,
    b: Collider,
    off: Vec2,
    i: int,
    best: Option<Collision>,
) -> Option<Collision>
    decreases spec_axes(a, b).len() - i,
{
    let axes = spec_axes(a, b);
    if i < 0 || i >= axes.len() {
        best
    } else if axes[i] == (Vec2 { x: 0i64, y: 0i64 }) {
        spec_check_from(a, b, off, i + 1, best)
    } else {
        let axis = spec_normalize(axes[i]);
        let pa = spec_points(a);
        let pb = spec_points(b);
        let zero = Vec2 { x: 0i64, y: 0i64 };
        let sp = Projection {
            a: min_proj(pa, zero, axis, pa.len() as int) as i64,
            b: max_proj(pa, zero, axis, pa.len() as int) as i64,
        };
        let op = Projection {
            a: min_proj(pb, off, axis, pb.len() as int) as i64,
            b: max_proj(pb, off, axis, pb.len() as int) as i64,
        };
        match sp.spec_get_intersection(op) {
            Option::None => Option::None,
            Option::Some(pv) => {
                let col = if pv > 0 {
                    Collision { normal: spec_v_neg(axis), penetration: pv }
                } else {
                    Collision { normal: axis, penetration: sat_i64(-pv) }
                };
                let best2 = match best {
                    Option::None => col,
                    Option::Some(old_c) => if old_c.penetration <= col.penetration {
                        old_c
                    } else {
                        col
                    },
                };
                spec_check_from(a, b, off, i + 1, Option::Some(best2))
            },
        }
    }
}

/// The collision between two shapes, the second moved by `off`.
pub open spec fn spec_check_collision(a: Collider, b: Collider, off: Vec2) -> Option<Collision> {
    spec_check_from(a, b, off, 0, Option::None)
}

/// Negating the axis swaps and negates the projection interval.
proof fn lemma_proj_reflect(pts: Seq<Vec2>, offset: Vec2, axis: Vec2, n: int)
    requires
        bounded_vec2(axis, UNIT as int),
        1 <= n <= pts.len(),
    ensures
        min_proj(pts, offset, spec_v_neg(axis), n) == -max_proj(pts, offset, axis, n),
        max_proj(pts, offset, spec_v_neg(axis), n) == -min_proj(pts, offset, axis, n),
    decreases n,
{
    let nax = spec_v_neg(axis);
    assert(nax.x as int == -(axis.x as int) && nax.y as int == -(axis.y as int));
    assert forall|i: int| 0 <= i < pts.len() implies #[trigger] proj_of(pts[i], offset, nax)
        == -proj_of(pts[i], offset, axis) by {
        let p = pts[i];
        assert((p.x + offset.x) * (-(axis.x as int)) + (p.y + offset.y) * (-(axis.y as int))
            == -((p.x + offset.x) * (axis.x as int) + (p.y + offset.y) * (axis.y as int)))
            by (nonlinear_arith);
    }
    if n > 1 {
        lemma_proj_reflect(pts, offset, axis, n - 1);
    }
}

/// Moving the offset shifts the whole projection interval by the raw
/// dot product of the movement with the axis.
proof fn lemma_proj_shift(pts: Seq<Vec2>, o1: Vec2, o2: Vec2, axis: Vec2, n: int)
    requires
        1 <= n <= pts.len(),
    ensures
        min_proj(pts, o2, axis, n) == min_proj(pts, o1, axis, n) + (o2.x - o1.x) * (axis.x as int)
            + (o2.y - o1.y) * (axis.y as int),
        max_proj(pts, o2, axis, n) == max_proj(pts, o1, axis, n) + (o2.x - o1.x) * (axis.x as int)
            + (o2.y - o1.y) * (axis.y as int),
    decreases n,
{
    assert forall|i: int| 0 <= i < pts.len() implies #[trigger] proj_of(pts[i], o2, axis)
        == proj_of(pts[i], o1, axis) + (o2.x - o1.x) * (axis.x as int) + (o2.y - o1.y) * (axis.y
        as int) by {
        let p = pts[i];
        assert((p.x + o2.x) * (axis.x as int) + (p.y + o2.y) * (axis.y as int) == ((p.x + o1.x)
            * (axis.x as int) + (p.y + o1.y) * (axis.y as int)) + (o2.x - o1.x) * (axis.x as int)
            + (o2.y - o1.y) * (axis.y as int)) by (nonlinear_arith);
    }
    if n > 1 {
        lemma_proj_shift(pts, o1, o2, axis, n - 1);
    }
}

/// Builds the candidate axis list of a shape pair.
fn collect_axes(a: &Collider, b: &Collider) -> (r: Vec<Vec2>)
    requires
        collider_wf(*a),
        collider_wf(*b),
    ensures
        r@ == spec_axes(*a, *b),
{
    let mut axes = a.critical_axes();
    let mut cb = b.critical_axes();
    axes.append(&mut cb);
    let pa = a.points();
    let pb = b.points();
    let na = pa.len();
    let nb = pb.len();
    let ghost base = spec_critical_axes(*a).len() + spec_critical_axes(*b).len();
    let ghost deltas = spec_deltas(spec_points(*a), spec_points(*b));
    let mut i: usize = 0;
    while i < na
        invariant
            0 <= i <= na,
            na == pa@.len(),
            nb == pb@.len(),
            nb >= 1,
            pa@ == spec_points(*a),
            pb@ == spec_points(*b),
            deltas == spec_deltas(spec_points(*a), spec_points(*b)),
            axes@.len() == base + i * nb,
            axes@.subrange(0, base as int) == spec_critical_axes(*a) + spec_critical_axes(*b),
            forall|k: int| 0 <= k < i * nb ==> axes@[base + k] == #[trigger] deltas[k],
        decreases na - i,
    {
        let mut j: usize = 0;
        while j < nb
            invariant
                0 <= i < na,
                0 <= j <= nb,
                na == pa@.len(),
                nb == pb@.len(),
                nb >= 1,
                pa@ == spec_points(*a),
                pb@ == spec_points(*b),
                deltas == spec_deltas(spec_points(*a), spec_points(*b)),
                axes@.len() == base + i * nb + j,
                axes@.subrange(0, base as int) == spec_critical_axes(*a) + spec_critical_axes(*b),
                forall|k: int| 0 <= k < i * nb + j ==> axes@[base + k] == #[trigger] deltas[k],
            decreases nb - j,
        {
            let d = v_sub(pb[j], pa[i]);
            proof {
                assert(i * nb + j < na * nb) by (nonlinear_arith)
                    requires 0 <= i < na, 0 <= j < nb;
                vstd::arithmetic::div_mod::lemma_fundamental_div_mod_converse(
                    i * nb + j,
                    nb as int,
                    i as int,
                    j as int,
                );
                assert(deltas[i * nb + j] == spec_v_sub(pb@[j as int], pa@[i as int]));
            }
            axes.push(d);
            proof {
                assert((i * nb + j) + 1 == i * nb + (j + 1));
            }
            j = j + 1;
        }
        proof {
            assert(i * nb + nb == (i + 1) * nb) by (nonlinear_arith);
        }
        i = i + 1;
    }
    proof {
        assert(na * nb == deltas.len()) by (nonlinear_arith)
            requires deltas.len() == spec_points(*a).len() * spec_points(*b).len(),
                na == spec_points(*a).len(), nb == spec_points(*b).len();
        assert(axes@ =~= spec_axes(*a, *b));
    }
    axes
}

impl Collider {
    /// The collision between `self` and `other` (moved by
    /// `other_offset`), if they overlap: the candidate axis with the
    /// least positive overlap, its normal pointing from `other` toward
    /// `self`.
    pub fn check_collision(&self, other: &Collider, other_offset: Vec2) -> (r: Option<Collision>)
        requires
            collider_wf(*self),
            collider_wf(*other),
            bounded_vec2(other_offset, 4_000_000_000_000),
        ensures
            r == spec_check_collision(*self, *other, other_offset),
            (r matches Option::Some(col) ==> col_props(col, *self, *other, other_offset)),
    {
        let pa = self.points();
        let pb = other.points();
        let axes = collect_axes(self, other);
        let zero = Vec2 { x: 0, y: 0 };
        let mut best: Option<Collision> = Option::None;
        let mut i: usize = 0;
        let n = axes.len();
        while i < n
            invariant
                0 <= i <= n,
                n == spec_axes(*self, *other).len(),
                axes@ == spec_axes(*self, *other),
                pa@ == spec_points(*self),
                pb@ == spec_points(*other),
                pa@.len() >= 2,
                pb@.len() >= 2,
                forall|k: int| 0 <= k < pa@.len() ==> bounded_vec2(#[trigger] pa@[k],
                    COLLIDER_LIMIT as int),
                forall|k: int| 0 <= k < pb@.len() ==> bounded_vec2(#[trigger] pb@[k],
                    COLLIDER_LIMIT as int),
                collider_wf(*self),
                collider_wf(*other),
                bounded_vec2(other_offset, 4_000_000_000_000),
                zero == (Vec2 { x: 0i64, y: 0i64 }),
                spec_check_from(*self, *other, other_offset, i as int, best)
                    == spec_check_collision(*self, *other, other_offset),
                (best matches Option::Some(c) ==> col_props(c, *self, *other, other_offset)),
            decreases n - i,
        {
            let raw = axes[i];
            if !(raw.x == 0 && raw.y == 0) {
                let axis = normalize_or_zero(raw);
                let sp = match project_points(&pa, zero, axis) {
                    Option::Some(p) => p,
                    Option::None => {
                        proof {
                            assert(false);
                        }
                        Projection { a: 0, b: 0 }
                    },
                };
                let op = match project_points(&pb, other_offset, axis) {
                    Option::Some(p) => p,
                    Option::None => {
                        proof {
                            assert(false);
                        }
                        Projection { a: 0, b: 0 }
                    },
                };
                proof {
                    lemma_proj_bounded(pa@, zero, axis, pa@.len() as int, 4_000_000_000_000,
                        UNIT as int, 10_000_000_000_000_000);
                    lemma_proj_bounded(pb@, other_offset, axis, pb@.len() as int,
                        4_000_000_000_000, UNIT as int, 10_000_000_000_000_000);
                }
                let inter = sp.get_intersection(op);
                match inter {
                    Option::None => {
                        proof {
                            assert(spec_check_from(*self, *other, other_offset, i as int, best)
                                == Option::<Collision>::None);
                        }
                        return Option::None;
                    },
                    Option::Some(pv) => {
                        let col = if pv > 0 {
                            Collision { normal: v_neg(axis), penetration: pv }
                        } else {
                            Collision { normal: axis, penetration: fx_neg(pv) }
                        };
                        proof {
                            crate::vector::lemma_normalize_min_norm(raw);
                            let nrm = col.normal;
                            if pv > 0 {
                                assert(len2(nrm) == len2(axis)) by (nonlinear_arith)
                                    requires
                                        nrm.x as int == -(axis.x as int),
                                        nrm.y as int == -(axis.y as int),
                                        len2(nrm) == (nrm.x as int) * (nrm.x as int) + (nrm.y
                                            as int) * (nrm.y as int),
                                        len2(axis) == (axis.x as int) * (axis.x as int) + (axis.y
                                            as int) * (axis.y as int);
                                lemma_proj_reflect(pb@, other_offset, axis, pb@.len() as int);
                                lemma_proj_reflect(pa@, zero, axis, pa@.len() as int);
                            }
                        }
                        let new_best = match best {
                            Option::Some(old_c) => {
                                if old_c.penetration <= col.penetration {
                                    Option::Some(old_c)
                                } else {
                                    Option::Some(col)
                                }
                            },
                            Option::None => Option::Some(col),
                        };
                        best = new_best;
                    },
                }
            }
            i = i + 1;
        }
        best
    }

    /// The interval this shape covers on an axis, its points moved by
    /// `offset`.
    pub fn project(&self, axis: Vec2, offset: Vec2) -> (r: Projection)
        requires
            collider_wf(*self),
            bounded_vec2(offset, 1_000_000_000_000_000),
            bounded_vec2(axis, 2 * UNIT as int),
        ensures
            r == (Projection {
                a: min_proj(spec_points(*self), offset, axis, spec_points(*self).len() as int)
                    as i64,
                b: max_proj(spec_points(*self), offset, axis, spec_points(*self).len() as int)
                    as i64,
            }),
    {
        let pts = self.points();
        match project_points(&pts, offset, axis) {
            Option::Some(p) => p,
            Option::None => {
                proof {
                    assert(false);
                }
                Projection { a: 0, b: 0 }
            },
        }
    }

    /// Whether a world point lies inside this shape placed at
    /// `collider_pos`: the point is treated as a degenerate box.
    pub fn contains(&self, point: Vec2, collider_pos: Vec2) -> (r: bool)
        requires
            collider_wf(*self),
            bounded_vec2(point, COLLIDER_LIMIT as int),
            bounded_vec2(collider_pos, COLLIDER_LIMIT as int),
        ensures
            r == (spec_check_collision(
                *self,
                Collider::Aabb { half: Vec2 { x: 0i64, y: 0i64 } },
                spec_v_sub(point, collider_pos),
            ) matches Option::Some(_)),
    {
        let probe = Collider::Aabb { half: Vec2 { x: 0, y: 0 } };
        let r = self.check_collision(&probe, v_sub(point, collider_pos));
        match r {
            Option::Some(_) => true,
            Option::None => false,
        }
    }
}

/// The displacement that resolves a collision: the normal scaled by
/// the penetration depth, enlarged just enough to cover the rounding
/// of fixed-point scaling, so that its raw projection onto the normal
/// provably reaches the penetration.
pub open spec fn spec_resolution_displacement(col: Collision) -> Vec2 {
    let u = UNIT as int;
    let base = crate::vector::spec_v_scale(col.normal, tdiv(col.penetration as int, u));
    if rawdot(base, col.normal) >= col.penetration {
        base
    } else {
        let nn = rawdot(col.normal, col.normal);
        let pad = tdiv(col.penetration * u + 2 * (u * u), nn) + 1;
        crate::vector::spec_v_scale(col.normal, pad)
    }
}

/// Computes the resolution displacement of a collision.
pub fn resolution_displacement(col: Collision) -> (d: Vec2)
    requires
        0 < col.penetration <= 20_000_000_000_000_000,
        bounded_vec2(col.normal, UNIT as int),
        len2(col.normal) >= 250_000,
    ensures
        d == spec_resolution_displacement(col),
        rawdot(d, col.normal) >= col.penetration,
        bounded_vec2(d, 100_000_000_000_000),
{
    let u128c: i128 = UNIT as i128;
    let base_pen: i64 = ((col.penetration as u64) / (UNIT as u64)) as i64;
    proof {
        assert(base_pen as int == tdiv(col.penetration as int, UNIT as int));
        vstd::arithmetic::div_mod::lemma_div_pos_is_pos(col.penetration as int, UNIT as int);
        vstd::arithmetic::div_mod::lemma_div_is_ordered(col.penetration as int,
            20_000_000_000_000_000, UNIT as int);
    }
    let base = crate::vector::v_scale(col.normal, base_pen);
    proof {
        lemma_scale_comp_bounded(col.normal, base_pen);
    }
    let bd = v_rawdot(base, col.normal);
    proof {
        assert(-2_000_000_000_000_000_000 <= (base.x as int) * (col.normal.x as int) + (base.y
            as int) * (col.normal.y as int) <= 2_000_000_000_000_000_000) by (nonlinear_arith)
            requires
                -20_000_000_000_000 <= base.x as int <= 20_000_000_000_000,
                -20_000_000_000_000 <= base.y as int <= 20_000_000_000_000,
                -1000 <= col.normal.x as int <= 1000,
                -1000 <= col.normal.y as int <= 1000;
    }
    if bd >= col.penetration {
        base
    } else {
        let nn = v_rawdot(col.normal, col.normal);
        proof {
            assert(0 <= (col.normal.x as int) * (col.normal.x as int) + (col.normal.y as int)
                * (col.normal.y as int) <= 2_000_000) by (nonlinear_arith)
                requires
                    -1000 <= col.normal.x as int <= 1000,
                    -1000 <= col.normal.y as int <= 1000;
            assert(nn as int == len2(col.normal));
        }
        let num: i128 = (col.penetration as i128) * u128c + 2 * u128c * u128c;
        let pad128 = crate::fixed::tdiv_i128(num, nn as i128);
        proof {
            assert(num as int == col.penetration * UNIT + 2 * ((UNIT as int) * (UNIT as int)));
            assert(0 < num as int <= 20_000_000_002_000_000_000);
            vstd::arithmetic::div_mod::lemma_div_pos_is_pos(num as int, nn as int);
            vstd::arithmetic::div_mod::lemma_div_is_ordered(num as int,
                20_000_000_002_000_000_000, nn as int);
            vstd::arithmetic::div_mod::lemma_div_is_ordered_by_denominator(
                20_000_000_002_000_000_000, 250_000, nn as int);
            assert(pad128 as int <= 20_000_000_002_000_000_000int / 250_000int);
        }
        let pad: i64 = (pad128 as i64) + 1;
        proof {
            vstd::arithmetic::div_mod::lemma_fundamental_div_mod(num as int, nn as int);
            vstd::arithmetic::div_mod::lemma_mod_division_less_than_divisor(num as int, nn as int);
            assert((pad as int) * (nn as int) > num as int) by (nonlinear_arith)
                requires
                    num as int == (nn as int) * (pad128 as int) + (num as int) % (nn as int),
                    0 <= (num as int) % (nn as int) && (num as int) % (nn as int) < nn as int,
                    pad as int == pad128 + 1;
        }
        let d = crate::vector::v_scale(col.normal, pad);
        proof {
            lemma_scale_comp_bounded(col.normal, pad);
            lemma_pad_covers(col.normal, col.penetration as int, pad as int);
        }
        d
    }
}

/// Scaling a bounded unit-disc normal by a bounded factor keeps each
/// component within the factor's magnitude.
pub proof fn lemma_scale_comp_bounded(nrm: Vec2, s: i64)
    requires
        bounded_vec2(nrm, UNIT as int),
        0 <= s,
    ensures
        bounded_vec2(crate::vector::spec_v_scale(nrm, s as int), s as int),
{
    let u = UNIT as int;
    crate::fixed::lemma_tdiv_mag((nrm.x as int) * s, u);
    crate::fixed::lemma_tdiv_mag((nrm.y as int) * s, u);
    let tx = tdiv((nrm.x as int) * s, u);
    let ty = tdiv((nrm.y as int) * s, u);
    assert(spec_abs((nrm.x as int) * s) == spec_abs(nrm.x as int) * spec_abs(s as int))
        by (nonlinear_arith);
    assert(spec_abs((nrm.y as int) * s) == spec_abs(nrm.y as int) * spec_abs(s as int))
        by (nonlinear_arith);
    assert(spec_abs(tx) <= s && spec_abs(ty) <= s) by (nonlinear_arith)
        requires
            spec_abs(tx) * u <= spec_abs((nrm.x as int) * s),
            spec_abs(ty) * u <= spec_abs((nrm.y as int) * s),
            0 <= spec_abs(tx),
            0 <= spec_abs(ty),
            spec_abs((nrm.x as int) * s) == spec_abs(nrm.x as int) * spec_abs(s as int),
            spec_abs((nrm.y as int) * s) == spec_abs(nrm.y as int) * spec_abs(s as int),
            spec_abs(nrm.x as int) <= u,
            spec_abs(nrm.y as int) <= u,
            0 <= s,
            u == 1000;
}

/// The padded displacement covers the penetration: scaling the normal
/// by `pad` yields a raw projection onto the normal of at least the
/// penetration, whenever `pad * |n|^2` clears `pen * UNIT + 2 * UNIT^2`.
proof fn lemma_pad_covers(nrm: Vec2, pen: int, pad: int)
    requires
        bounded_vec2(nrm, UNIT as int),
        len2(nrm) >= 250_000,
        pen > 0,
        1 <= pad <= 100_000_000_000_000,
        pad * len2(nrm) > pen * UNIT + 2 * ((UNIT as int) * (UNIT as int)),
    ensures
        rawdot(crate::vector::spec_v_scale(nrm, pad), nrm) >= pen,
{
    let u = UNIT as int;
    let dx = tdiv((nrm.x as int) * pad, u);
    let dy = tdiv((nrm.y as int) * pad, u);
    crate::fixed::lemma_tdiv_mag((nrm.x as int) * pad, u);
    crate::fixed::lemma_tdiv_mag((nrm.y as int) * pad, u);
    assert(spec_abs((nrm.x as int) * pad) == spec_abs(nrm.x as int) * spec_abs(pad))
        by (nonlinear_arith);
    assert(spec_abs((nrm.y as int) * pad) == spec_abs(nrm.y as int) * spec_abs(pad))
        by (nonlinear_arith);
    assert(spec_abs(dx) <= pad && spec_abs(dy) <= pad) by (nonlinear_arith)
        requires
            spec_abs(dx) * u <= spec_abs((nrm.x as int) * pad),
            spec_abs(dy) * u <= spec_abs((nrm.y as int) * pad),
            0 <= spec_abs(dx),
            0 <= spec_abs(dy),
            spec_abs((nrm.x as int) * pad) == spec_abs(nrm.x as int) * spec_abs(pad),
            spec_abs((nrm.y as int) * pad) == spec_abs(nrm.y as int) * spec_abs(pad),
            spec_abs(nrm.x as int) <= u,
            spec_abs(nrm.y as int) <= u,
            1 <= pad,
            u == 1000;
    let w = crate::vector::spec_v_scale(nrm, pad);
    assert(w.x as int == dx && w.y as int == dy);
    lemma_tdiv_lower(nrm.x as int, pad, u);
    lemma_tdiv_lower(nrm.y as int, pad, u);
    assert(dx * (nrm.x as int) * u >= (nrm.x as int) * (nrm.x as int) * pad - spec_abs(nrm.x
        as int) * (u - 1)) by (nonlinear_arith)
        requires
            ((nrm.x as int) >= 0 && dx * u >= (nrm.x as int) * pad - (u - 1) && dx * u <= (nrm.x
                as int) * pad) || ((nrm.x as int) < 0 && dx * u <= (nrm.x as int) * pad + (u - 1)
                && dx * u >= (nrm.x as int) * pad),
            (nrm.x >= 0 ==> spec_abs(nrm.x as int) == nrm.x as int) && (nrm.x < 0 ==> spec_abs(
                nrm.x as int) == -(nrm.x as int)),
            u == 1000;
    assert(dy * (nrm.y as int) * u >= (nrm.y as int) * (nrm.y as int) * pad - spec_abs(nrm.y
        as int) * (u - 1)) by (nonlinear_arith)
        requires
            ((nrm.y as int) >= 0 && dy * u >= (nrm.y as int) * pad - (u - 1) && dy * u <= (nrm.y
                as int) * pad) || ((nrm.y as int) < 0 && dy * u <= (nrm.y as int) * pad + (u - 1)
                && dy * u >= (nrm.y as int) * pad),
            (nrm.y >= 0 ==> spec_abs(nrm.y as int) == nrm.y as int) && (nrm.y < 0 ==> spec_abs(
                nrm.y as int) == -(nrm.y as int)),
            u == 1000;
    assert(dx * (nrm.x as int) + dy * (nrm.y as int) >= pen) by (nonlinear_arith)
        requires
            dx * (nrm.x as int) * u >= (nrm.x as int) * (nrm.x as int) * pad - spec_abs(nrm.x
                as int) * (u - 1),
            dy * (nrm.y as int) * u >= (nrm.y as int) * (nrm.y as int) * pad - spec_abs(nrm.y
                as int) * (u - 1),
            len2(nrm) == (nrm.x as int) * (nrm.x as int) + (nrm.y as int) * (nrm.y as int),
            pad * len2(nrm) > pen * u + 2 * (u * u),
            spec_abs(nrm.x as int) <= u,
            spec_abs(nrm.y as int) <= u,
            pen > 0,
            u == 1000;
    assert(rawdot(w, nrm) == dx * (nrm.x as int) + dy * (nrm.y as int));
}

/// A truncated quotient scaled back up sits within one divisor of the
/// product: sign-aware bounds for `tdiv(a * pad, u) * u`.
proof fn lemma_tdiv_lower(a: int, pad: int, u: int)
    requires
        u > 0,
        pad >= 0,
    ensures
        a >= 0 ==> tdiv(a * pad, u) * u >= a * pad - (u - 1) && tdiv(a * pad, u) * u <= a * pad,
        a < 0 ==> tdiv(a * pad, u) * u <= a * pad + (u - 1) && tdiv(a * pad, u) * u >= a * pad,
{
    let p = a * pad;
    if a >= 0 {
        assert(p >= 0) by (nonlinear_arith)
            requires a >= 0, pad >= 0, p == a * pad;
        vstd::arithmetic::div_mod::lemma_fundamental_div_mod(p, u);
        vstd::arithmetic::div_mod::lemma_mod_division_less_than_divisor(p, u);
        assert((p / u) * u >= p - (u - 1) && (p / u) * u <= p) by (nonlinear_arith)
            requires p == u * (p / u) + p % u, 0 <= p % u < u;
    } else {
        assert(p <= 0) by (nonlinear_arith)
            requires a < 0, pad >= 0, p == a * pad;
        if p == 0 {
            vstd::arithmetic::div_mod::lemma_div_of0(u);
            assert(tdiv(p, u) == 0);
        } else {
            vstd::arithmetic::div_mod::lemma_fundamental_div_mod(-p, u);
            vstd::arithmetic::div_mod::lemma_mod_division_less_than_divisor(-p, u);
            let q = (-p) / u;
            assert(tdiv(p, u) == -q);
            assert((-q) * u <= p + (u - 1) && (-q) * u >= p) by (nonlinear_arith)
                requires -p == u * q + (-p) % u, 0 <= (-p) % u < u;
        }
    }
}

/// After the resolution displacement, re-testing the two shapes along
/// the resolution normal finds no remaining overlap: the projection
/// intervals no longer intersect.
pub proof fn lemma_resolution_separates(
    a: Collider,
    b: Collider,
    off: Vec2,
    col: Collision,
    d: Vec2,
    off2: Vec2,
)
    requires
        collider_wf(a),
        collider_wf(b),
        col_props(col, a, b, off),
        bounded_vec2(off, 4_000_000_000_000),
        bounded_vec2(d, 100_000_000_000_000),
        rawdot(d, col.normal) >= col.penetration,
        off2 == spec_v_sub(off, d),
    ensures
        (Projection {
            a: min_proj(spec_points(a), Vec2 { x: 0i64, y: 0i64 }, col.normal,
                spec_points(a).len() as int) as i64,
            b: max_proj(spec_points(a), Vec2 { x: 0i64, y: 0i64 }, col.normal,
                spec_points(a).len() as int) as i64,
        }).spec_get_intersection(
            Projection {
                a: min_proj(spec_points(b), off2, col.normal, spec_points(b).len() as int) as i64,
                b: max_proj(spec_points(b), off2, col.normal, spec_points(b).len() as int) as i64,
            },
        ) == Option::<i64>::None,
{
    let nrm = col.normal;
    let pa = spec_points(a);
    let pb = spec_points(b);
    let zero = Vec2 { x: 0i64, y: 0i64 };
    let na = pa.len() as int;
    let nb = pb.len() as int;
    lemma_points_bounded(a);
    lemma_points_bounded(b);
    assert(off2.x as int == off.x - d.x && off2.y as int == off.y - d.y);
    lemma_proj_shift(pb, off, off2, nrm, nb);
    assert((off2.x - off.x) * (nrm.x as int) + (off2.y - off.y) * (nrm.y as int) == -rawdot(d,
        nrm)) by (nonlinear_arith)
        requires
            off2.x as int == off.x - d.x,
            off2.y as int == off.y - d.y,
            rawdot(d, nrm) == (d.x as int) * (nrm.x as int) + (d.y as int) * (nrm.y as int);
    lemma_proj_bounded(pa, zero, nrm, na, 4_000_000_000_000, UNIT as int,
        10_000_000_000_000_000);
    lemma_proj_bounded(pb, off2, nrm, nb, 200_000_000_000_000, UNIT as int,
        500_000_000_000_000_000);
    lemma_proj_bounded(pb, off, nrm, nb, 4_000_000_000_000, UNIT as int, 10_000_000_000_000_000);
}

/// The defining points of a well-formed collider are bounded.
proof fn lemma_points_bounded(c: Collider)
    requires
        collider_wf(c),
    ensures
        forall|i: int| 0 <= i < spec_points(c).len() ==> bounded_vec2(#[trigger] spec_points(c)[i],
            COLLIDER_LIMIT as int),
        spec_points(c).len() >= 2,
{
    match c {
        Collider::Aabb { half } => {
            assert(spec_points(c)[0] == (Vec2 { x: sat_i64(-half.x), y: sat_i64(-half.y) }));
        },
        Collider::Surface { p1, p2 } => {
            assert(spec_points(c)[0] == p1);
        },
    }
}


/// The penetration-resolution law: for every collision the checker
/// reports between two shapes, moving the first shape by the
/// resolution displacement and re-testing the pair along the
/// resolution normal finds zero or negative overlap — the projection
/// intervals no longer intersect.
pub proof fn lemma_penetration_resolved(a: Collider, b: Collider, off: Vec2, col: Collision)
    requires
        collider_wf(a),
        collider_wf(b),
        bounded_vec2(off, 4_000_000_000_000),
        col_props(col, a, b, off),
    ensures
        ({
            let d = spec_resolution_displacement(col);
            let off2 = spec_v_sub(off, d);
            (Projection {
                a: min_proj(spec_points(a), Vec2 { x: 0i64, y: 0i64 }, col.normal,
                    spec_points(a).len() as int) as i64,
                b: max_proj(spec_points(a), Vec2 { x: 0i64, y: 0i64 }, col.normal,
                    spec_points(a).len() as int) as i64,
            }).spec_get_intersection(
                Projection {
                    a: min_proj(spec_points(b), off2, col.normal,
                        spec_points(b).len() as int) as i64,
                    b: max_proj(spec_points(b), off2, col.normal,
                        spec_points(b).len() as int) as i64,
                },
            ) == Option::<i64>::None
        }),
{
    let u = UNIT as int;
    let nrm = col.normal;
    let pen = col.penetration as int;
    let base_pen = tdiv(pen, u);
    vstd::arithmetic::div_mod::lemma_div_pos_is_pos(pen, u);
    vstd::arithmetic::div_mod::lemma_div_is_ordered(pen, 20_000_000_000_000_000, u);
    lemma_scale_comp_bounded(nrm, base_pen as i64);
    let base = crate::vector::spec_v_scale(nrm, base_pen);
    let d = spec_resolution_displacement(col);
    if rawdot(base, nrm) >= pen {
        assert(d == base);
        assert(bounded_vec2(d, 100_000_000_000_000));
    } else {
        let nn = rawdot(nrm, nrm);
        assert(nn == len2(nrm));
        let num = pen * u + 2 * (u * u);
        assert(0 < num <= 20_000_000_002_000_000_000);
        let pad = tdiv(num, nn) + 1;
        vstd::arithmetic::div_mod::lemma_div_pos_is_pos(num, nn);
        vstd::arithmetic::div_mod::lemma_div_is_ordered(num, 20_000_000_002_000_000_000, nn);
        vstd::arithmetic::div_mod::lemma_div_is_ordered_by_denominator(
            20_000_000_002_000_000_000, 250_000, nn);
        assert(1 <= pad <= 100_000_000_000_000);
        vstd::arithmetic::div_mod::lemma_fundamental_div_mod(num, nn);
        vstd::arithmetic::div_mod::lemma_mod_division_less_than_divisor(num, nn);
        assert(pad * nn > num) by (nonlinear_arith)
            requires
                num == nn * (pad - 1) + num % nn,
                0 <= num % nn && num % nn < nn;
        lemma_pad_covers(nrm, pen, pad);
        lemma_scale_comp_bounded(nrm, pad as i64);
        assert(d == crate::vector::spec_v_scale(nrm, pad));
    }
    let off2 = spec_v_sub(off, d);
    lemma_resolution_separates(a, b, off, col, d, off2);
}

} // verus!
