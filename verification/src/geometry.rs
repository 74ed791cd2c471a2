//! Plane/mesh cross-section geometry over exact integer arithmetic.
//!
//! Coordinates are integers in caller-chosen fixed-point units. A plane with
//! normal `n` and offset `k` is the point set `{ p : dot(n, p) == k * dot(n, n) }`;
//! for a unit normal, `k` is the signed distance of the plane from the origin.
//! Points produced by plane/segment intersection are rational, and are kept
//! in homogeneous form (`HPoint`), so no rounding happens before the final
//! 2-D projection, which is reported in fixed-point thousandths.

use vstd::prelude::*;

verus! {

/// Largest magnitude accepted for an input coordinate or plane offset.
/// This headroom guarantees that every intermediate product of the
/// cross-section pipeline fits in the 128-bit machine arithmetic used here.
pub const COORD_LIMIT: i64 = 2000;

/// Projected 2-D coordinates are reported in thousandths of an input unit.
pub const FP_SCALE: i64 = 1000;

/// Saturation bound of a projected fixed-point coordinate.
pub const FP_LIMIT: i64 = 1_000_000_000_000_000;

/// Magnitude bound of a scaled signed distance of an in-range point
/// to an in-range plane.
pub const DIST_BOUND: i64 = 30_000_000_000;

/// Magnitude bound of a homogeneous numerator coordinate.
pub const HNUM_BOUND: i64 = 200_000_000_000_000;

/// Bound of a homogeneous denominator.
pub const HDEN_BOUND: i64 = 100_000_000_000;

/// A 3-D point or vector with integer coordinates.
#[derive(Clone, Copy, PartialEq, Eq, Structural, Debug)]
pub struct Vec3 {
    pub x: i64,
    pub y: i64,
    pub z: i64,
}

/// A rational 3-D point in homogeneous form: the point
/// `(x / w, y / w, z / w)`, with `w > 0`.
#[derive(Clone, Copy, PartialEq, Eq, Structural, Debug)]
pub struct HPoint {
    pub x: i64,
    pub y: i64,
    pub z: i64,
    pub w: i64,
}

/// The mathematical value of an `HPoint`, free of machine bounds.
pub struct HPt {
    pub x: int,
    pub y: int,
    pub z: int,
    pub w: int,
}

impl View for HPoint {
    type V = HPt;

    open spec fn view(&self) -> HPt {
        HPt { x: self.x as int, y: self.y as int, z: self.z as int, w: self.w as int }
    }
}

/// A projected 2-D point, in fixed-point thousandths of an input unit.
#[derive(Clone, Copy, PartialEq, Eq, Structural, Debug)]
pub struct ProjPoint {
    pub x: i64,
    pub y: i64,
}

/// Exact dot product of integer vectors.
pub open spec fn dot(a: Vec3, b: Vec3) -> int {
    a.x * b.x + a.y * b.y + a.z * b.z
}

/// All three coordinates within the accepted range.
pub open spec fn vec3_in_range(v: Vec3) -> bool {
    &&& -COORD_LIMIT <= v.x <= COORD_LIMIT
    &&& -COORD_LIMIT <= v.y <= COORD_LIMIT
    &&& -COORD_LIMIT <= v.z <= COORD_LIMIT
}

/// Well-formed homogeneous point: positive denominator, bounded numerators.
pub open spec fn hpt_wf(h: HPt) -> bool {
    &&& 0 < h.w <= HDEN_BOUND
    &&& -HNUM_BOUND <= h.x <= HNUM_BOUND
    &&& -HNUM_BOUND <= h.y <= HNUM_BOUND
    &&& -HNUM_BOUND <= h.z <= HNUM_BOUND
}

/// Bounded product, for stepping magnitude bounds through the pipeline.
pub proof fn lemma_abs_mul(a: int, b: int, ba: int, bb: int)
    by (nonlinear_arith)
    requires
        -ba <= a <= ba,
        -bb <= b <= bb,
        0 <= ba,
        0 <= bb,
    ensures
        -(ba * bb) <= a * b <= ba * bb,
{
}

/// Exact product of two machine words; a product of two `i64` values always
/// fits in an `i128`.
pub fn wmul(a: i64, b: i64) -> (r: i128)
    ensures
        r == a as int * b as int,
{
    proof {
        lemma_abs_mul(a as int, b as int, 0x8000_0000_0000_0000, 0x8000_0000_0000_0000);
    }
    (a as i128) * (b as i128)
}

/// A cutting plane: `{ p : dot(normal, p) == offset * dot(normal, normal) }`.
/// The normal need not be normalized; for a unit normal, `offset` is the
/// signed distance of the plane from the origin along the normal.
#[derive(Clone, Copy, PartialEq, Eq, Structural, Debug)]
pub struct Plane {
    pub normal: Vec3,
    pub offset: i64,
}

/// The squared length of the plane's normal.
pub open spec fn norm_sq(p: Plane) -> int {
    dot(p.normal, p.normal)
}

/// Scaled signed distance of a point to the plane: the true signed distance
/// multiplied by the length of the normal. Zero exactly on the plane,
/// positive on the side the normal points toward.
pub open spec fn sdist(p: Plane, v: Vec3) -> int {
    dot(p.normal, v) - p.offset * norm_sq(p)
}

/// Scaled signed distance of a homogeneous point, multiplied by its
/// denominator: `h` lies on the plane if and only if this is zero.
pub open spec fn hsdist(p: Plane, h: HPt) -> int {
    p.normal.x * h.x + p.normal.y * h.y + p.normal.z * h.z - p.offset * norm_sq(p) * h.w
}

/// The plane and its offset are within the accepted coordinate range.
pub open spec fn plane_in_range(p: Plane) -> bool {
    &&& vec3_in_range(p.normal)
    &&& -COORD_LIMIT <= p.offset <= COORD_LIMIT
}

/// The segment from `p1` to `p2` crosses the plane: the two scaled distances
/// differ and have opposite signs (zero counting as either sign). This is
/// exactly the interpolation parameter `d1 / (d1 - d2)` lying in `[0, 1]`.
pub open spec fn seg_hits(p: Plane, p1: Vec3, p2: Vec3) -> bool {
    let d1 = sdist(p, p1);
    let d2 = sdist(p, p2);
    &&& d1 != d2
    &&& ((d1 >= 0 && d2 <= 0) || (d1 <= 0 && d2 >= 0))
}

/// The crossing point of a segment that hits the plane, in homogeneous form
/// with a positive denominator: `p1 + (d1 / (d1 - d2)) * (p2 - p1)`.
pub open spec fn seg_point(p: Plane, p1: Vec3, p2: Vec3) -> HPt {
    let d1 = sdist(p, p1);
    let d2 = sdist(p, p2);
    let s: int = if d1 > d2 { 1 } else { -1 };
    HPt {
        x: s * (d1 * p2.x - d2 * p1.x),
        y: s * (d1 * p2.y - d2 * p1.y),
        z: s * (d1 * p2.z - d2 * p1.z),
        w: s * (d1 - d2),
    }
}

/// A zero squared length forces a zero vector.
pub proof fn lemma_zero_norm(v: Vec3)
    by (nonlinear_arith)
    requires
        dot(v, v) == 0,
    ensures
        v.x == 0 && v.y == 0 && v.z == 0,
{
}

/// A squared length is never negative.
pub proof fn lemma_norm_sq_nonneg(v: Vec3)
    by (nonlinear_arith)
    ensures
        dot(v, v) >= 0,
{
}

/// A product with a negated factor is the negated product.
proof fn lemma_mul_neg(a: int, b: int)
    by (nonlinear_arith)
    ensures
        a * (-b) == -(a * b),
{
}

/// One coordinate's share of the projection identity.
proof fn lemma_proj_term(n: int, p: int, ns: int, d: int)
    by (nonlinear_arith)
    ensures
        n * (p * ns - n * d) == ns * (n * p) - d * (n * n),
{
}

/// Multiplication distributes over a three-term sum.
proof fn lemma_mul_dist3(a: int, t1: int, t2: int, t3: int)
    by (nonlinear_arith)
    ensures
        a * (t1 + t2 + t3) == a * t1 + a * t2 + a * t3,
{
}

/// Multiplication distributes over a three-term difference.
proof fn lemma_mul_dist_sub3(c: int, t1: int, t2: int, t3: int)
    by (nonlinear_arith)
    ensures
        (t1 - t2 - t3) * c == t1 * c - t2 * c - t3 * c,
{
}

/// Ring identity behind `Plane::project`: the projected point lies on the
/// plane.
proof fn lemma_proj_on_plane(nx: int, ny: int, nz: int, off: int, px: int, py: int, pz: int)
    ensures
        ({
            let ns = nx * nx + ny * ny + nz * nz;
            let d = nx * px + ny * py + nz * pz - off * ns;
            nx * (px * ns - nx * d) + ny * (py * ns - ny * d) + nz * (pz * ns - nz * d) - off * ns
                * ns == 0
        }),
{
    let ns = nx * nx + ny * ny + nz * nz;
    let dotv = nx * px + ny * py + nz * pz;
    let d = dotv - off * ns;
    lemma_proj_term(nx, px, ns, d);
    lemma_proj_term(ny, py, ns, d);
    lemma_proj_term(nz, pz, ns, d);
    lemma_mul_dist3(ns, nx * px, ny * py, nz * pz);
    lemma_mul_dist3(d, nx * nx, ny * ny, nz * nz);
    lemma_mul_dist_sub3(ns, dotv, d, off * ns);
    assert(dotv - d - off * ns == 0);
    assert(nx * (px * ns - nx * d) + ny * (py * ns - ny * d) + nz * (pz * ns - nz * d) - off * ns
        * ns == (dotv - d - off * ns) * ns);
}

/// One coordinate's share of the crossing identity.
proof fn lemma_seg_term(n: int, d1: int, b: int, d2: int, a: int)
    by (nonlinear_arith)
    ensures
        n * (d1 * b - d2 * a) == d1 * (n * b) - d2 * (n * a),
{
}

/// Multiplication distributes over a difference.
proof fn lemma_mul_dist_sub(a: int, b: int, c: int)
    by (nonlinear_arith)
    ensures
        a * (b - c) == b * a - c * a,
{
}

/// Multiplication distributes over a four-term combination.
proof fn lemma_mul_dist4(a: int, t1: int, t2: int, t3: int, t4: int)
    by (nonlinear_arith)
    ensures
        a * (t1 + t2 + t3 - t4) == a * t1 + a * t2 + a * t3 - a * t4,
{
}

/// Ring identity behind `Plane::intersect_segment`: the homogeneous crossing
/// point evaluates to `d1 * d2 - d2 * d1` against the plane.
proof fn lemma_seg_on_plane(
    nx: int,
    ny: int,
    nz: int,
    off: int,
    ax: int,
    ay: int,
    az: int,
    bx: int,
    by: int,
    bz: int,
    d1: int,
    d2: int,
)
    ensures
        ({
            let ns = nx * nx + ny * ny + nz * nz;
            nx * (d1 * bx - d2 * ax) + ny * (d1 * by - d2 * ay) + nz * (d1 * bz - d2 * az) - off
                * ns * (d1 - d2) == d1 * (nx * bx + ny * by + nz * bz - off * ns) - d2 * (nx * ax
                + ny * ay + nz * az - off * ns)
        }),
{
    let ns = nx * nx + ny * ny + nz * nz;
    lemma_seg_term(nx, d1, bx, d2, ax);
    lemma_seg_term(ny, d1, by, d2, ay);
    lemma_seg_term(nz, d1, bz, d2, az);
    lemma_mul_dist_sub(off * ns, d1, d2);
    lemma_mul_dist4(d1, nx * bx, ny * by, nz * bz, off * ns);
    lemma_mul_dist4(d2, nx * ax, ny * ay, nz * az, off * ns);
    assert(d1 * (off * ns) == off * ns * d1) by (nonlinear_arith);
    assert(d2 * (off * ns) == off * ns * d2) by (nonlinear_arith);
}

impl Plane {
    /// Scaled signed distance of `point` to the plane, exact in integers.
    /// It equals the true signed distance times the length of the normal.
    pub fn distance(&self, point: Vec3) -> (d: i64)
        requires
            plane_in_range(*self),
            vec3_in_range(point),
        ensures
            d == sdist(*self, point),
            -DIST_BOUND <= d <= DIST_BOUND,
    {
        let n = self.normal;
        proof {
            lemma_abs_mul(n.x as int, point.x as int, COORD_LIMIT as int, COORD_LIMIT as int);
            lemma_abs_mul(n.y as int, point.y as int, COORD_LIMIT as int, COORD_LIMIT as int);
            lemma_abs_mul(n.z as int, point.z as int, COORD_LIMIT as int, COORD_LIMIT as int);
            lemma_abs_mul(n.x as int, n.x as int, COORD_LIMIT as int, COORD_LIMIT as int);
            lemma_abs_mul(n.y as int, n.y as int, COORD_LIMIT as int, COORD_LIMIT as int);
            lemma_abs_mul(n.z as int, n.z as int, COORD_LIMIT as int, COORD_LIMIT as int);
        }
        let dp: i128 = wmul(n.x, point.x) + wmul(n.y, point.y) + wmul(n.z, point.z);
        let nn: i128 = wmul(n.x, n.x) + wmul(n.y, n.y) + wmul(n.z, n.z);
        proof {
            lemma_abs_mul(self.offset as int, nn as int, COORD_LIMIT as int, 12_000_000);
        }
        let d: i128 = dp - (self.offset as i128) * nn;
        d as i64
    }

    /// The orthogonal projection of `point` onto the plane, as a rational
    /// point: `point - normal * sdist / norm_sq`. The result lies exactly on
    /// the plane. A degenerate zero normal projects every point to itself.
    pub fn project(&self, point: Vec3) -> (r: HPoint)
        requires
            plane_in_range(*self),
            vec3_in_range(point),
        ensures
            hpt_wf(r@),
            hsdist(*self, r@) == 0,
            norm_sq(*self) != 0 ==> {
                let d = sdist(*self, point);
                &&& r.w == norm_sq(*self)
                &&& r.x == point.x * r.w - self.normal.x * d
                &&& r.y == point.y * r.w - self.normal.y * d
                &&& r.z == point.z * r.w - self.normal.z * d
            },
            norm_sq(*self) == 0 ==> r == (HPoint { x: point.x, y: point.y, z: point.z, w: 1i64 }),
    {
        let n = self.normal;
        proof {
            lemma_abs_mul(n.x as int, n.x as int, COORD_LIMIT as int, COORD_LIMIT as int);
            lemma_abs_mul(n.y as int, n.y as int, COORD_LIMIT as int, COORD_LIMIT as int);
            lemma_abs_mul(n.z as int, n.z as int, COORD_LIMIT as int, COORD_LIMIT as int);
        }
        let nn: i128 = wmul(n.x, n.x) + wmul(n.y, n.y) + wmul(n.z, n.z);
        if nn == 0 {
            let r = HPoint { x: point.x, y: point.y, z: point.z, w: 1 };
            proof {
                lemma_zero_norm(n);
            }
            return r;
        }
        let d: i64 = self.distance(point);
        proof {
            lemma_norm_sq_nonneg(n);
            lemma_abs_mul(point.x as int, nn as int, COORD_LIMIT as int, 12_000_000);
            lemma_abs_mul(point.y as int, nn as int, COORD_LIMIT as int, 12_000_000);
            lemma_abs_mul(point.z as int, nn as int, COORD_LIMIT as int, 12_000_000);
            lemma_abs_mul(n.x as int, d as int, COORD_LIMIT as int, DIST_BOUND as int);
            lemma_abs_mul(n.y as int, d as int, COORD_LIMIT as int, DIST_BOUND as int);
            lemma_abs_mul(n.z as int, d as int, COORD_LIMIT as int, DIST_BOUND as int);
        }
        let rx: i128 = wmul(point.x, nn as i64) - wmul(n.x, d);
        let ry: i128 = wmul(point.y, nn as i64) - wmul(n.y, d);
        let rz: i128 = wmul(point.z, nn as i64) - wmul(n.z, d);
        let r = HPoint { x: rx as i64, y: ry as i64, z: rz as i64, w: nn as i64 };
        proof {
            lemma_proj_on_plane(
                n.x as int,
                n.y as int,
                n.z as int,
                self.offset as int,
                point.x as int,
                point.y as int,
                point.z as int,
            );
        }
        r
    }

    /// The intersection of the segment from `p1` to `p2` with the plane:
    /// `Some` exactly when the endpoint distances differ and the crossing
    /// parameter lies in `[0, 1]`; the point is exact, in homogeneous form.
    /// Segments parallel to the plane (equal distances) report no crossing.
    pub fn intersect_segment(&self, p1: Vec3, p2: Vec3) -> (r: Option<HPoint>)
        requires
            plane_in_range(*self),
            vec3_in_range(p1),
            vec3_in_range(p2),
        ensures
            r is Some <==> seg_hits(*self, p1, p2),
            r is Some ==> {
                let q = r->Some_0;
                &&& q@ == seg_point(*self, p1, p2)
                &&& hpt_wf(q@)
                &&& hsdist(*self, q@) == 0
            },
    {
        let d1: i64 = self.distance(p1);
        let d2: i64 = self.distance(p2);
        if d1 == d2 {
            return None;
        }
        if !((d1 >= 0 && d2 <= 0) || (d1 <= 0 && d2 >= 0)) {
            return None;
        }
        proof {
            lemma_seg_on_plane(
                self.normal.x as int,
                self.normal.y as int,
                self.normal.z as int,
                self.offset as int,
                p1.x as int,
                p1.y as int,
                p1.z as int,
                p2.x as int,
                p2.y as int,
                p2.z as int,
                d1 as int,
                d2 as int,
            );
            lemma_abs_mul(d1 as int, p2.x as int, DIST_BOUND as int, COORD_LIMIT as int);
            lemma_abs_mul(d1 as int, p2.y as int, DIST_BOUND as int, COORD_LIMIT as int);
            lemma_abs_mul(d1 as int, p2.z as int, DIST_BOUND as int, COORD_LIMIT as int);
            lemma_abs_mul(d2 as int, p1.x as int, DIST_BOUND as int, COORD_LIMIT as int);
            lemma_abs_mul(d2 as int, p1.y as int, DIST_BOUND as int, COORD_LIMIT as int);
            lemma_abs_mul(d2 as int, p1.z as int, DIST_BOUND as int, COORD_LIMIT as int);
        }
        let qx: i128 = wmul(d1, p2.x) - wmul(d2, p1.x);
        let qy: i128 = wmul(d1, p2.y) - wmul(d2, p1.y);
        let qz: i128 = wmul(d1, p2.z) - wmul(d2, p1.z);
        let qw: i128 = (d1 as i128) - (d2 as i128);
        let q = if d1 > d2 {
            HPoint { x: qx as i64, y: qy as i64, z: qz as i64, w: qw as i64 }
        } else {
            HPoint { x: (-qx) as i64, y: (-qy) as i64, z: (-qz) as i64, w: (-qw) as i64 }
        };
        proof {
            let dd1 = sdist(*self, p1);
            let dd2 = sdist(*self, p2);
            let n = self.normal;
            let ns = norm_sq(*self);
            let ux = dd1 * p2.x - dd2 * p1.x;
            let uy = dd1 * p2.y - dd2 * p1.y;
            let uz = dd1 * p2.z - dd2 * p1.z;
            let uw = dd1 - dd2;
            assert(dd1 * dd2 - dd2 * dd1 == 0) by (nonlinear_arith);
            assert(n.x * ux + n.y * uy + n.z * uz - self.offset * ns * uw == 0);
            if d1 > d2 {
                assert(q@ == seg_point(*self, p1, p2));
                assert(hpt_wf(q@));
                assert(hsdist(*self, q@) == 0);
            } else {
                assert(q@ == (HPt { x: -ux, y: -uy, z: -uz, w: -uw }));
                lemma_mul_neg(n.x as int, ux);
                lemma_mul_neg(n.y as int, uy);
                lemma_mul_neg(n.z as int, uz);
                lemma_mul_neg(self.offset * ns, uw);
                assert(hsdist(*self, q@) == 0);
                let sp = seg_point(*self, p1, p2);
                assert(dd1 < dd2);
                assert(sp.w == -1 * uw);
                assert(sp.x == -1 * ux);
                assert(sp.y == -1 * uy);
                assert(sp.z == -1 * uz);
                assert((-1) * ux == -ux) by (nonlinear_arith);
                assert((-1) * uy == -uy) by (nonlinear_arith);
                assert((-1) * uz == -uz) by (nonlinear_arith);
                assert((-1) * uw == -uw) by (nonlinear_arith);
                assert(q@ == sp);
                assert(hpt_wf(q@));
            }
        }
        Some(q)
    }

    /// The pair of edge crossings of a triangle, in edge order
    /// (`ab`, `ac`, `bc`), exactly when precisely two edges cross the plane.
    /// With fewer or more crossing edges the triangle contributes nothing:
    /// a triangle lying in the plane has only parallel edges, and a triangle
    /// touching the plane in one vertex has zero or three crossing edges.
    pub fn intersect_triangle(&self, triangle: &Triangle) -> (r: Option<(HPoint, HPoint)>)
        requires
            plane_in_range(*self),
            tri_in_range(*triangle),
        ensures
            r is Some <==> tri_hits(*self, *triangle),
            r is Some ==> {
                let (q1, q2) = r->Some_0;
                &&& (q1@, q2@) == tri_pair(*self, *triangle)
                &&& hpt_wf(q1@) && hpt_wf(q2@)
                &&& hsdist(*self, q1@) == 0 && hsdist(*self, q2@) == 0
            },
    {
        let a = triangle.vertices[0];
        let b = triangle.vertices[1];
        let c = triangle.vertices[2];
        let s1 = self.intersect_segment(a, b);
        let s2 = self.intersect_segment(a, c);
        let s3 = self.intersect_segment(b, c);
        match (s1, s2, s3) {
            (Some(q1), Some(q2), None) => Some((q1, q2)),
            (Some(q1), None, Some(q2)) => Some((q1, q2)),
            (None, Some(q1), Some(q2)) => Some((q1, q2)),
            _ => None,
        }
    }
}

/// A vertex of a renderable mesh: a position and its face normal.
#[derive(Clone, Copy, PartialEq, Eq, Structural, Debug)]
pub struct Vertex {
    pub a_pos: Vec3,
    pub a_normal: Vec3,
}

/// A triangle: three vertices and a derived normal. The normal is the exact
/// cross product of two edges, so it is outward for counter-clockwise winding
/// but not unit length (a unit normal is irrational in general; a renderer
/// normalizes it in its own floating-point world). A degenerate triangle
/// gets the zero vector.
#[derive(Clone, Copy, Debug)]
pub struct Triangle {
    pub vertices: [Vec3; 3],
    pub normal: Vec3,
}

/// All three corners within the accepted coordinate range.
pub open spec fn tri_in_range(t: Triangle) -> bool {
    &&& vec3_in_range(t.vertices[0])
    &&& vec3_in_range(t.vertices[1])
    &&& vec3_in_range(t.vertices[2])
}

/// The exact cross product of the edge vectors `b - a` and `c - a`.
pub open spec fn edge_cross(a: Vec3, b: Vec3, c: Vec3) -> (int, int, int) {
    let abx = b.x - a.x;
    let aby = b.y - a.y;
    let abz = b.z - a.z;
    let acx = c.x - a.x;
    let acy = c.y - a.y;
    let acz = c.z - a.z;
    (aby * acz - abz * acy, abz * acx - abx * acz, abx * acy - aby * acx)
}

/// Exactly two of the triangle's edges cross the plane.
pub open spec fn tri_hits(p: Plane, t: Triangle) -> bool {
    let a = t.vertices[0];
    let b = t.vertices[1];
    let c = t.vertices[2];
    let h1 = seg_hits(p, a, b);
    let h2 = seg_hits(p, a, c);
    let h3 = seg_hits(p, b, c);
    (h1 && h2 && !h3) || (h1 && !h2 && h3) || (!h1 && h2 && h3)
}

/// The two crossing points of a triangle that hits the plane, in edge order.
pub open spec fn tri_pair(p: Plane, t: Triangle) -> (HPt, HPt) {
    let a = t.vertices[0];
    let b = t.vertices[1];
    let c = t.vertices[2];
    if seg_hits(p, a, b) {
        if seg_hits(p, a, c) {
            (seg_point(p, a, b), seg_point(p, a, c))
        } else {
            (seg_point(p, a, b), seg_point(p, b, c))
        }
    } else {
        (seg_point(p, a, c), seg_point(p, b, c))
    }
}

impl Triangle {
    /// Builds a triangle from three corners, deriving the scaled face normal
    /// as the exact cross product of the edges `b - a` and `c - a`; collinear
    /// corners give the zero vector rather than failing.
    pub fn new(a: Vec3, b: Vec3, c: Vec3) -> (t: Triangle)
        requires
            vec3_in_range(a),
            vec3_in_range(b),
            vec3_in_range(c),
        ensures
            t.vertices[0] == a,
            t.vertices[1] == b,
            t.vertices[2] == c,
            (t.normal.x as int, t.normal.y as int, t.normal.z as int) == edge_cross(a, b, c),
            tri_in_range(t),
    {
        let abx = b.x - a.x;
        let aby = b.y - a.y;
        let abz = b.z - a.z;
        let acx = c.x - a.x;
        let acy = c.y - a.y;
        let acz = c.z - a.z;
        proof {
            lemma_abs_mul(aby as int, acz as int, 4000, 4000);
            lemma_abs_mul(abz as int, acy as int, 4000, 4000);
            lemma_abs_mul(abz as int, acx as int, 4000, 4000);
            lemma_abs_mul(abx as int, acz as int, 4000, 4000);
            lemma_abs_mul(abx as int, acy as int, 4000, 4000);
            lemma_abs_mul(aby as int, acx as int, 4000, 4000);
        }
        let nx: i128 = wmul(aby, acz) - wmul(abz, acy);
        let ny: i128 = wmul(abz, acx) - wmul(abx, acz);
        let nz: i128 = wmul(abx, acy) - wmul(aby, acx);
        let normal = Vec3 { x: nx as i64, y: ny as i64, z: nz as i64 };
        Triangle { vertices: [a, b, c], normal }
    }

    /// The triangle as three renderable vertices, each carrying the face
    /// normal.
    pub fn into_vertices(self) -> (r: [Vertex; 3])
        ensures
            r[0] == (Vertex { a_pos: self.vertices[0], a_normal: self.normal }),
            r[1] == (Vertex { a_pos: self.vertices[1], a_normal: self.normal }),
            r[2] == (Vertex { a_pos: self.vertices[2], a_normal: self.normal }),
    {
        [
            Vertex { a_pos: self.vertices[0], a_normal: self.normal },
            Vertex { a_pos: self.vertices[1], a_normal: self.normal },
            Vertex { a_pos: self.vertices[2], a_normal: self.normal },
        ]
    }
}

} // verus!
