//! The cross-section engine: reduces a triangle soup to the ordered 2-D
//! polygon cut out by a plane.
//!
//! Stages, each exact: every triangle contributes its pair of edge crossings;
//! crossing points equal as rationals are merged; each survivor is projected
//! into the plane's own 2-D frame (reported in fixed-point thousandths); and
//! the points are ordered by falling polar angle around their centroid, which
//! closes a convex section into a consistent boundary walk.

use vstd::arithmetic::div_mod::lemma_fundamental_div_mod;
use vstd::arithmetic::div_mod::lemma_fundamental_div_mod_converse;
use vstd::multiset::Multiset;
use vstd::prelude::*;
use vstd::seq_lib::group_to_multiset_ensures;

use crate::geometry::COORD_LIMIT;
use crate::geometry::FP_LIMIT;
use crate::geometry::FP_SCALE;
use crate::geometry::HDEN_BOUND;
use crate::geometry::HNUM_BOUND;
use crate::geometry::HPoint;
use crate::geometry::HPt;
use crate::geometry::Plane;
use crate::geometry::ProjPoint;
use crate::geometry::Triangle;
use crate::geometry::Vec3;
use crate::geometry::hpt_wf;
use crate::geometry::hsdist;
use crate::geometry::lemma_abs_mul;
use crate::geometry::lemma_norm_sq_nonneg;
use crate::geometry::lemma_zero_norm;
use crate::geometry::norm_sq;
use crate::geometry::plane_in_range;
use crate::geometry::tri_in_range;
use crate::geometry::tri_hits;
use crate::geometry::tri_pair;
use crate::geometry::vec3_in_range;
use crate::geometry::wmul;

verus! {

broadcast use group_to_multiset_ensures, vstd::multiset::group_multiset_axioms;

/// A point of the cross-section polygon: an exact world-space point on the
/// cutting plane together with its 2-D projection into the plane's frame.
#[derive(Clone, Copy, PartialEq, Eq, Structural, Debug)]
pub struct CrossSectionVertex {
    pub world_pos: HPoint,
    pub projected: ProjPoint,
}

/// The mathematical value of a `CrossSectionVertex`.
pub struct CsVtx {
    pub world_pos: HPt,
    pub projected: (int, int),
}

impl View for CrossSectionVertex {
    type V = CsVtx;

    open spec fn view(&self) -> CsVtx {
        CsVtx {
            world_pos: self.world_pos@,
            projected: (self.projected.x as int, self.projected.y as int),
        }
    }
}

/// Saturation of a projected coordinate at the fixed-point bound.
pub open spec fn fp_clamp(v: int) -> int {
    if v > FP_LIMIT {
        FP_LIMIT as int
    } else if v < -FP_LIMIT {
        -FP_LIMIT as int
    } else {
        v
    }
}

/// The fixed-point value of the fraction `a / b`: floor of its thousandfold,
/// saturated at the fixed-point bound.
pub open spec fn fp_div(a: int, b: int) -> int {
    fp_clamp((a * FP_SCALE) / b)
}

/// `(-a) * b == -(a * b)`, for rewriting sign-normalized products.
proof fn lemma_neg_mul(a: int, b: int)
    by (nonlinear_arith)
    ensures
        (-a) * b == -(a * b),
        (-a - 1) * b == -(a * b) - b,
{
}

/// Floor of `a / b` saturated at the fixed-point bound, exact in integers.
fn div_clamp(a: i128, b: i128) -> (r: i64)
    requires
        0 < b,
        -0x4000_0000_0000_0000_0000_0000_0000_0000 < a < 0x4000_0000_0000_0000_0000_0000_0000_0000,
    ensures
        r as int == fp_clamp(a as int / b as int),
{
    if a >= 0 {
        let q: u128 = (a as u128) / (b as u128);
        if q > FP_LIMIT as u128 {
            FP_LIMIT
        } else {
            q as i64
        }
    } else {
        let ua: u128 = (-a) as u128;
        let ub: u128 = b as u128;
        let uq: u128 = ua / ub;
        let ur: u128 = ua % ub;
        proof {
            let ai = a as int;
            let bi = b as int;
            let uqi = uq as int;
            let uri = ur as int;
            lemma_fundamental_div_mod(ua as int, ub as int);
            assert(ai == -(bi * uqi + uri));
            lemma_neg_mul(uqi, bi);
            assert(bi * uqi == uqi * bi) by (nonlinear_arith);
            if ur == 0 {
                assert(ai == (-uqi) * bi + 0);
                lemma_fundamental_div_mod_converse(ai, bi, -uqi, 0);
            } else {
                assert(ai == (-uqi - 1) * bi + (bi - uri));
                lemma_fundamental_div_mod_converse(ai, bi, -uqi - 1, bi - uri);
            }
        }
        let q: u128 = if ur == 0 {
            uq
        } else {
            uq + 1
        };
        if q > FP_LIMIT as u128 {
            -FP_LIMIT
        } else {
            -(q as i64)
        }
    }
}

/// The 2-D projection of a homogeneous point into the plane's frame, in
/// fixed-point thousandths of an input unit.
///
/// The frame aligns the plane's normal with an axis by a rotation about the
/// vertical axis (by the normal's horizontal angle) followed by one about a
/// horizontal axis (by its elevation), after translating the plane to pass
/// through the origin. With integer data the two rotations are carried out
/// scaled: the first coordinate comes out multiplied by the length of the
/// normal's horizontal part, the second by that length times the length of
/// the normal. For an axis-aligned unit normal both scales are one and the
/// projection is exact. A vertical or zero normal takes the degenerate
/// branch the trigonometric convention `atan2(0, 0) == 0` would take.
pub open spec fn proj2_spec(p: Plane, h: HPt) -> (int, int) {
    let n = p.normal;
    if n.x == 0 && n.z == 0 {
        if n.y == 0 {
            (fp_div(h.z, h.w), fp_div(h.y, h.w))
        } else if n.y > 0 {
            (fp_div(h.z, h.w), fp_div(-h.x, h.w))
        } else {
            (fp_div(h.z, h.w), fp_div(h.x, h.w))
        }
    } else {
        let ns = norm_sq(p);
        let d = hsdist(p, h);
        let ww = h.w * ns;
        let xx = h.x * ns - n.x * d - n.x * p.offset * ww;
        let yy = h.y * ns - n.y * d - n.y * p.offset * ww;
        let zz = h.z * ns - n.z * d - n.z * p.offset * ww;
        let u = -n.z * xx + n.x * zz;
        let v = -(n.y * n.x) * xx + (n.x * n.x + n.z * n.z) * yy - (n.y * n.z) * zz;
        (fp_div(u, ww), fp_div(v, ww))
    }
}

/// Both coordinates within the saturation bound.
pub open spec fn pp_bounded(p: ProjPoint) -> bool {
    &&& -FP_LIMIT <= p.x <= FP_LIMIT
    &&& -FP_LIMIT <= p.y <= FP_LIMIT
}

impl Plane {
    /// The 2-D projection of a homogeneous point, exact per `proj2_spec`.
    pub fn project2d_h(&self, h: &HPoint) -> (r: ProjPoint)
        requires
            plane_in_range(*self),
            hpt_wf(h@),
        ensures
            (r.x as int, r.y as int) == proj2_spec(*self, h@),
            pp_bounded(r),
    {
        let n = self.normal;
        if n.x == 0 && n.z == 0 {
            proof {
                lemma_abs_mul(h.z as int, FP_SCALE as int, HNUM_BOUND as int, FP_SCALE as int);
                lemma_abs_mul(h.y as int, FP_SCALE as int, HNUM_BOUND as int, FP_SCALE as int);
                lemma_abs_mul(h.x as int, FP_SCALE as int, HNUM_BOUND as int, FP_SCALE as int);
                lemma_abs_mul(-h.x as int, FP_SCALE as int, HNUM_BOUND as int, FP_SCALE as int);
            }
            if n.y == 0 {
                let u = div_clamp(wmul(h.z, FP_SCALE), h.w as i128);
                let v = div_clamp(wmul(h.y, FP_SCALE), h.w as i128);
                return ProjPoint { x: u, y: v };
            } else if n.y > 0 {
                let u = div_clamp(wmul(h.z, FP_SCALE), h.w as i128);
                let v = div_clamp(wmul(-h.x, FP_SCALE), h.w as i128);
                return ProjPoint { x: u, y: v };
            } else {
                let u = div_clamp(wmul(h.z, FP_SCALE), h.w as i128);
                let v = div_clamp(wmul(h.x, FP_SCALE), h.w as i128);
                return ProjPoint { x: u, y: v };
            }
        }
        proof {
            lemma_abs_mul(n.x as int, n.x as int, COORD_LIMIT as int, COORD_LIMIT as int);
            lemma_abs_mul(n.y as int, n.y as int, COORD_LIMIT as int, COORD_LIMIT as int);
            lemma_abs_mul(n.z as int, n.z as int, COORD_LIMIT as int, COORD_LIMIT as int);
            lemma_abs_mul(n.x as int, h.x as int, COORD_LIMIT as int, HNUM_BOUND as int);
            lemma_abs_mul(n.y as int, h.y as int, COORD_LIMIT as int, HNUM_BOUND as int);
            lemma_abs_mul(n.z as int, h.z as int, COORD_LIMIT as int, HNUM_BOUND as int);
        }
        let nn: i128 = wmul(n.x, n.x) + wmul(n.y, n.y) + wmul(n.z, n.z);
        proof {
            lemma_norm_sq_nonneg(n);
            if norm_sq(*self) == 0 {
                lemma_zero_norm(n);
            }
            assert(0 < nn <= 12_000_000);
        }
        let ns64: i64 = nn as i64;
        let dotp: i128 = wmul(n.x, h.x) + wmul(n.y, h.y) + wmul(n.z, h.z);
        proof {
            lemma_abs_mul(self.offset as int, nn as int, COORD_LIMIT as int, 12_000_000);
        }
        let onw: i128 = (self.offset as i128) * nn;
        proof {
            lemma_abs_mul(onw as int, h.w as int, 24_000_000_000, HDEN_BOUND as int);
        }
        let onww: i128 = onw * (h.w as i128);
        let d: i128 = dotp - onww;
        proof {
            lemma_abs_mul(h.w as int, nn as int, HDEN_BOUND as int, 12_000_000);
        }
        let ww: i128 = (h.w as i128) * nn;
        proof {
            lemma_abs_mul(h.w as int, nn as int, HDEN_BOUND as int, 12_000_000);
            assert(ww > 0) by (nonlinear_arith)
                requires
                    ww == h.w as int * nn as int,
                    h.w > 0,
                    nn > 0,
            ;
            lemma_abs_mul(h.x as int, nn as int, HNUM_BOUND as int, 12_000_000);
            lemma_abs_mul(h.y as int, nn as int, HNUM_BOUND as int, 12_000_000);
            lemma_abs_mul(h.z as int, nn as int, HNUM_BOUND as int, 12_000_000);
            lemma_abs_mul(
                n.x as int,
                d as int,
                COORD_LIMIT as int,
                3_000_000_000_000_000_000_000,
            );
            lemma_abs_mul(
                n.y as int,
                d as int,
                COORD_LIMIT as int,
                3_000_000_000_000_000_000_000,
            );
            lemma_abs_mul(
                n.z as int,
                d as int,
                COORD_LIMIT as int,
                3_000_000_000_000_000_000_000,
            );
            lemma_abs_mul(n.x as int, self.offset as int, COORD_LIMIT as int, COORD_LIMIT as int);
            lemma_abs_mul(n.y as int, self.offset as int, COORD_LIMIT as int, COORD_LIMIT as int);
            lemma_abs_mul(n.z as int, self.offset as int, COORD_LIMIT as int, COORD_LIMIT as int);
        }
        let t3x: i128 = wmul(n.x, self.offset);
        let t3y: i128 = wmul(n.y, self.offset);
        let t3z: i128 = wmul(n.z, self.offset);
        proof {
            lemma_abs_mul(t3x as int, ww as int, 4_000_000, 1_200_000_000_000_000_000);
            lemma_abs_mul(t3y as int, ww as int, 4_000_000, 1_200_000_000_000_000_000);
            lemma_abs_mul(t3z as int, ww as int, 4_000_000, 1_200_000_000_000_000_000);
        }
        let xx: i128 = wmul(h.x, ns64) - (n.x as i128) * d - t3x * ww;
        let yy: i128 = wmul(h.y, ns64) - (n.y as i128) * d - t3y * ww;
        let zz: i128 = wmul(h.z, ns64) - (n.z as i128) * d - t3z * ww;
        let big: i128 = 100_000_000_000_000_000_000_000_000;
        proof {
            lemma_abs_mul(-(n.z as int), xx as int, COORD_LIMIT as int, big as int);
            lemma_abs_mul(n.x as int, zz as int, COORD_LIMIT as int, big as int);
        }
        let u: i128 = -(n.z as i128) * xx + (n.x as i128) * zz;
        proof {
            lemma_abs_mul(n.y as int, n.x as int, COORD_LIMIT as int, COORD_LIMIT as int);
            lemma_abs_mul(n.y as int, n.z as int, COORD_LIMIT as int, COORD_LIMIT as int);
        }
        let nyx: i128 = wmul(n.y, n.x);
        let nyz: i128 = wmul(n.y, n.z);
        let l2: i128 = wmul(n.x, n.x) + wmul(n.z, n.z);
        proof {
            lemma_abs_mul(-(nyx as int), xx as int, 4_000_000, big as int);
            lemma_abs_mul(l2 as int, yy as int, 8_000_000, big as int);
            lemma_abs_mul(nyz as int, zz as int, 4_000_000, big as int);
        }
        let v: i128 = -nyx * xx + l2 * yy - nyz * zz;
        proof {
            let big2: int = 10_000_000_000_000_000_000_000_000_000_000_000;
            lemma_abs_mul(u as int, FP_SCALE as int, big2, FP_SCALE as int);
            lemma_abs_mul(v as int, FP_SCALE as int, big2, FP_SCALE as int);
        }
        let pu = div_clamp(u * (FP_SCALE as i128), ww);
        let pv = div_clamp(v * (FP_SCALE as i128), ww);
        ProjPoint { x: pu, y: pv }
    }

    /// The 2-D projection of a world point into the plane's frame: the point
    /// is first projected orthogonally onto the plane, then read in the
    /// plane's own axes. Exact per `proj2_spec` of the point.
    pub fn project2d(&self, point: Vec3) -> (r: ProjPoint)
        requires
            plane_in_range(*self),
            vec3_in_range(point),
        ensures
            (r.x as int, r.y as int) == proj2_spec(
                *self,
                HPt { x: point.x as int, y: point.y as int, z: point.z as int, w: 1 },
            ),
            pp_bounded(r),
    {
        let h = HPoint { x: point.x, y: point.y, z: point.z, w: 1 };
        self.project2d_h(&h)
    }
}

/// Two homogeneous points denote the same rational point.
pub open spec fn hpt_same(a: HPt, b: HPt) -> bool {
    &&& a.x * b.w == b.x * a.w
    &&& a.y * b.w == b.y * a.w
    &&& a.z * b.w == b.z * a.w
}

/// Some point of `s` denotes the same rational point as `p`.
pub open spec fn contains_same(s: Seq<HPt>, p: HPt) -> bool {
    exists|i: int| 0 <= i < s.len() && hpt_same(s[i], p)
}

/// Appends a point unless an equal rational point is already present.
pub open spec fn add_pt(s: Seq<HPt>, p: HPt) -> Seq<HPt> {
    if contains_same(s, p) {
        s
    } else {
        s.push(p)
    }
}

/// The crossing points of the first `n` triangles, in discovery order, each
/// rational point kept once.
pub open spec fn collect_pts(p: Plane, ts: Seq<Triangle>, n: int) -> Seq<HPt>
    decreases n,
{
    if n <= 0 {
        Seq::empty()
    } else {
        let prev = collect_pts(p, ts, n - 1);
        if tri_hits(p, ts[n - 1]) {
            add_pt(add_pt(prev, tri_pair(p, ts[n - 1]).0), tri_pair(p, ts[n - 1]).1)
        } else {
            prev
        }
    }
}

/// All distinct crossing points of the soup with the plane, in discovery
/// order.
pub open spec fn section_points(p: Plane, ts: Seq<Triangle>) -> Seq<HPt> {
    collect_pts(p, ts, ts.len() as int)
}

/// A well-formed crossing point: bounded and exactly on the plane.
pub open spec fn pt_ok(p: Plane, h: HPt) -> bool {
    &&& hpt_wf(h)
    &&& hsdist(p, h) == 0
}

/// The views of a vector of homogeneous points.
pub open spec fn hviews(s: Seq<HPoint>) -> Seq<HPt> {
    s.map_values(|h: HPoint| h@)
}

/// The world points of a vector of cross-section vertices.
pub open spec fn worlds(s: Seq<CrossSectionVertex>) -> Seq<HPt> {
    s.map_values(|c: CrossSectionVertex| c@.world_pos)
}

/// Componentwise sum of the projections of a point sequence.
pub open spec fn sum_proj(p: Plane, s: Seq<HPt>) -> (int, int)
    decreases s.len(),
{
    if s.len() == 0 {
        (0, 0)
    } else {
        let prev = sum_proj(p, s.drop_last());
        let pr = proj2_spec(p, s.last());
        (prev.0 + pr.0, prev.1 + pr.1)
    }
}

/// The fixed-point centroid of the section's projected points.
pub open spec fn sec_centroid(p: Plane, ts: Seq<Triangle>) -> (int, int) {
    let pts = section_points(p, ts);
    let s = sum_proj(p, pts);
    (fp_clamp(s.0 / pts.len() as int), fp_clamp(s.1 / pts.len() as int))
}

/// The value of a projected point.
pub open spec fn pp(p: ProjPoint) -> (int, int) {
    (p.x as int, p.y as int)
}

/// Which half-turn a point lies in around the centre `c`: 0 for polar angles
/// in `(0, pi]`, 1 for angles in `(-pi, 0]` (the convention of the
/// two-argument arctangent, which maps the centre itself to angle 0).
pub open spec fn ang_group(c: (int, int), a: (int, int)) -> int {
    let dx = a.0 - c.0;
    let dy = a.1 - c.1;
    if dy > 0 || (dy == 0 && dx < 0) {
        0
    } else {
        1
    }
}

/// The cross product of the offsets of `a` and `b` from the centre `c`:
/// positive when `b` lies counter-clockwise of `a`.
pub open spec fn cross2(c: (int, int), a: (int, int), b: (int, int)) -> int {
    (a.0 - c.0) * (b.1 - c.1) - (a.1 - c.1) * (b.0 - c.0)
}

/// `a` comes no later than `b` when walking by falling polar angle around
/// `c`, angles taken in `(-pi, pi]`.
pub open spec fn angle_le(c: (int, int), a: (int, int), b: (int, int)) -> bool {
    ||| ang_group(c, a) < ang_group(c, b)
    ||| (ang_group(c, a) == ang_group(c, b) && cross2(c, a, b) <= 0)
}

/// The falling-angle order is total.
pub proof fn lemma_angle_total(c: (int, int), a: (int, int), b: (int, int))
    ensures
        angle_le(c, a, b) || angle_le(c, b, a),
{
    assert(cross2(c, a, b) == -cross2(c, b, a)) by (nonlinear_arith);
}

/// Decides whether the two points denote the same rational point.
fn hpoint_same(a: &HPoint, b: &HPoint) -> (r: bool)
    ensures
        r == hpt_same(a@, b@),
{
    wmul(a.x, b.w) == wmul(b.x, a.w) && wmul(a.y, b.w) == wmul(b.y, a.w) && wmul(a.z, b.w) == wmul(
        b.z,
        a.w,
    )
}

/// Decides the falling-angle order of `a` and `b` around `c`.
fn angle_le_exec(c: ProjPoint, a: ProjPoint, b: ProjPoint) -> (r: bool)
    requires
        pp_bounded(c),
        pp_bounded(a),
        pp_bounded(b),
    ensures
        r == angle_le(pp(c), pp(a), pp(b)),
{
    let adx = a.x - c.x;
    let ady = a.y - c.y;
    let bdx = b.x - c.x;
    let bdy = b.y - c.y;
    let ga_upper = ady > 0 || (ady == 0 && adx < 0);
    let gb_upper = bdy > 0 || (bdy == 0 && bdx < 0);
    if ga_upper != gb_upper {
        ga_upper
    } else {
        proof {
            lemma_abs_mul(adx as int, bdy as int, 2_000_000_000_000_000, 2_000_000_000_000_000);
            lemma_abs_mul(ady as int, bdx as int, 2_000_000_000_000_000, 2_000_000_000_000_000);
        }
        wmul(adx, bdy) - wmul(ady, bdx) <= 0
    }
}

/// `map_values` commutes with `remove`.
proof fn lemma_map_remove<A, B>(s: Seq<A>, f: spec_fn(A) -> B, i: int)
    requires
        0 <= i < s.len(),
    ensures
        s.remove(i).map_values(f) == s.map_values(f).remove(i),
{
    assert(s.remove(i).map_values(f) =~= s.map_values(f).remove(i));
}

/// `map_values` commutes with `insert`.
proof fn lemma_map_insert<A, B>(s: Seq<A>, f: spec_fn(A) -> B, i: int, a: A)
    requires
        0 <= i <= s.len(),
    ensures
        s.insert(i, a).map_values(f) == s.map_values(f).insert(i, f(a)),
{
    assert(s.insert(i, a).map_values(f) =~= s.map_values(f).insert(i, f(a)));
}

/// Removing an element of a multiset and putting it back changes nothing.
proof fn lemma_ms_reinsert<A>(m: Multiset<A>, x: A)
    requires
        m.count(x) > 0,
    ensures
        m.remove(x).insert(x) == m,
{
    assert(m.remove(x).insert(x) =~= m);
}

/// Sorts the vertices by falling polar angle of their projections around
/// `c`, keeping the collection unchanged as a multiset.
#[verifier::loop_isolation(false)]
#[verifier::rlimit(60)]
fn sort_ccw(v: &mut Vec<CrossSectionVertex>, c: ProjPoint)
    requires
        pp_bounded(c),
        forall|k: int| 0 <= k < old(v)@.len() ==> pp_bounded(#[trigger] old(v)@[k].projected),
    ensures
        final(v)@.len() == old(v)@.len(),
        forall|k: int| 0 <= k < final(v)@.len() ==> pp_bounded(#[trigger] final(v)@[k].projected),
        final(v)@.to_multiset() == old(v)@.to_multiset(),
        worlds(final(v)@).to_multiset() == worlds(old(v)@).to_multiset(),
        forall|k: int|
            0 <= k && k + 1 < final(v)@.len() ==> angle_le(
                pp(c),
                pp(#[trigger] final(v)@[k].projected),
                pp(final(v)@[k + 1].projected),
            ),
{
    let ghost orig = v@;
    let ghost wf = |cv: CrossSectionVertex| cv@.world_pos;
    if v.len() < 2 {
        return ;
    }
    let mut i: usize = 1;
    while i < v.len()
        invariant
            1 <= i <= v@.len(),
            v@.len() == orig.len(),
            forall|k: int| 0 <= k < v@.len() ==> pp_bounded(#[trigger] v@[k].projected),
            v@.to_multiset() == orig.to_multiset(),
            v@.map_values(wf).to_multiset() == orig.map_values(wf).to_multiset(),
            forall|k: int|
                0 <= k && k + 1 < i ==> angle_le(
                    pp(c),
                    pp(#[trigger] v@[k].projected),
                    pp(v@[k + 1].projected),
                ),
        decreases v@.len() - i,
    {
        let x = v[i];
        let mut p: usize = 0;
        let mut scanning: bool = true;
        while scanning && p < i
            invariant
                0 <= p <= i,
                forall|k: int|
                    0 <= k < p ==> angle_le(pp(c), pp(#[trigger] v@[k].projected), pp(x.projected)),
                !scanning ==> p < i && !angle_le(
                    pp(c),
                    pp(v@[p as int].projected),
                    pp(x.projected),
                ),
            decreases i - p, (if scanning { 1int } else { 0int }),
        {
            if !angle_le_exec(c, v[p].projected, x.projected) {
                scanning = false;
            } else {
                p += 1;
            }
        }
        proof {
            if p < i {
                lemma_angle_total(pp(c), pp(v@[p as int].projected), pp(x.projected));
            }
        }
        let ghost before = v@;
        let x2 = v.remove(i);
        v.insert(p, x2);
        proof {
            assert(v@ == before.remove(i as int).insert(p as int, x2));
            lemma_map_remove(before, wf, i as int);
            lemma_map_insert(before.remove(i as int), wf, p as int, x2);
            assert(before.to_multiset().count(x2) > 0);
            lemma_ms_reinsert(before.to_multiset(), x2);
            assert(v@.to_multiset() == before.to_multiset());
            assert(before.map_values(wf).to_multiset().count(wf(x2)) > 0) by {
                assert(before.map_values(wf)[i as int] == wf(x2));
                assert(before.map_values(wf).contains(wf(x2)));
            }
            lemma_ms_reinsert(before.map_values(wf).to_multiset(), wf(x2));
            assert(v@.map_values(wf).to_multiset() == before.map_values(wf).to_multiset());
            assert forall|k: int| 0 <= k && k + 1 < i + 1 implies angle_le(
                pp(c),
                pp(#[trigger] v@[k].projected),
                pp(v@[k + 1].projected),
            ) by {
                if k + 1 < p as int {
                    assert(v@[k] == before[k] && v@[k + 1] == before[k + 1]);
                } else if k + 1 == p as int {
                    assert(v@[k] == before[k] && v@[k + 1] == x2);
                } else if k == p as int {
                    assert(v@[k] == x2 && v@[k + 1] == before[k]);
                } else {
                    assert(v@[k] == before[k - 1] && v@[k + 1] == before[k]);
                }
            }
        }
        i += 1;
    }
}

/// Whether some stored point denotes the same rational point as `q`.
fn contains_pt(pts: &Vec<HPoint>, q: &HPoint) -> (r: bool)
    ensures
        r == contains_same(hviews(pts@), q@),
{
    let ghost hs = hviews(pts@);
    let mut j: usize = 0;
    let mut found: bool = false;
    while j < pts.len()
        invariant
            0 <= j <= pts@.len(),
            hs == hviews(pts@),
            found == exists|k: int| 0 <= k < j && hpt_same(hs[k], q@),
        decreases pts@.len() - j,
    {
        if hpoint_same(&pts[j], q) {
            proof {
                assert(hs[j as int] == pts@[j as int]@);
            }
            found = true;
        }
        j += 1;
    }
    found
}

/// A vertex of the finished section: on the plane, within bounds, and
/// carrying exactly the projection of its world point.
pub open spec fn csv_ok(p: Plane, c: CsVtx) -> bool {
    &&& pt_ok(p, c.world_pos)
    &&& c.projected == proj2_spec(p, c.world_pos)
    &&& -FP_LIMIT <= c.projected.0 <= FP_LIMIT
    &&& -FP_LIMIT <= c.projected.1 <= FP_LIMIT
}

/// `r` is a cross-section of the soup `ts` under the plane `p`: one vertex
/// for every distinct crossing point (as a multiset of world points), each
/// well-formed, on the plane and carrying its exact projection, ordered by
/// falling polar angle around the section's fixed-point centroid.
pub open spec fn section_of(p: Plane, ts: Seq<Triangle>, r: Seq<CrossSectionVertex>) -> bool {
    &&& r.len() == section_points(p, ts).len()
    &&& forall|i: int| 0 <= i < r.len() ==> csv_ok(p, (#[trigger] r[i])@)
    &&& worlds(r).to_multiset() == section_points(p, ts).to_multiset()
    &&& forall|i: int|
        0 <= i && i + 1 < r.len() ==> angle_le(
            sec_centroid(p, ts),
            pp((#[trigger] r[i]).projected),
            pp(r[i + 1].projected),
        )
}

impl Plane {
    /// The cross-section of a triangle soup with the plane: every distinct
    /// crossing point of a triangle's edges, as an exact world point on the
    /// plane with its fixed-point 2-D projection, ordered by falling polar
    /// angle around the points' fixed-point centroid. For a convex soup the
    /// order walks the boundary of the section polygon; the result is empty
    /// exactly when no triangle crosses the plane.
    #[verifier::loop_isolation(false)]
    #[verifier::rlimit(60)]
    pub fn cross_sect(&self, geometry: &Vec<Triangle>) -> (r: Vec<CrossSectionVertex>)
        requires
            plane_in_range(*self),
            forall|i: int| 0 <= i < geometry@.len() ==> tri_in_range(#[trigger] geometry@[i]),
        ensures
            section_of(*self, geometry@, r@),
    {
        let ghost ts = geometry@;
        let mut pts: Vec<HPoint> = Vec::new();
        let mut ti: usize = 0;
        while ti < geometry.len()
            invariant
                0 <= ti <= ts.len(),
                hviews(pts@) == collect_pts(*self, ts, ti as int),
                forall|k: int| 0 <= k < pts@.len() ==> pt_ok(*self, #[trigger] pts@[k]@),
            decreases ts.len() - ti,
        {
            let tri = geometry[ti];
            let hit = self.intersect_triangle(&tri);
            proof {
                assert(collect_pts(*self, ts, ti as int + 1) == if tri_hits(*self, ts[ti as int]) {
                    add_pt(
                        add_pt(collect_pts(*self, ts, ti as int), tri_pair(*self, ts[ti as int]).0),
                        tri_pair(*self, ts[ti as int]).1,
                    )
                } else {
                    collect_pts(*self, ts, ti as int)
                });
            }
            if let Some((q1, q2)) = hit {
                if !contains_pt(&pts, &q1) {
                    let ghost before = pts@;
                    pts.push(q1);
                    proof {
                        assert(hviews(pts@) =~= hviews(before).push(q1@));
                    }
                }
                if !contains_pt(&pts, &q2) {
                    let ghost before = pts@;
                    pts.push(q2);
                    proof {
                        assert(hviews(pts@) =~= hviews(before).push(q2@));
                    }
                }
            }
            ti += 1;
        }
        assert(hviews(pts@) == section_points(*self, ts));
        if pts.len() == 0 {
            let r: Vec<CrossSectionVertex> = Vec::new();
            proof {
                assert(section_points(*self, ts).len() == 0);
                assert(worlds(r@) =~= section_points(*self, ts));
                assert(section_of(*self, ts, r@));
            }
            return r;
        }
        let mut cs: Vec<CrossSectionVertex> = Vec::new();
        let mut k: usize = 0;
        while k < pts.len()
            invariant
                0 <= k <= pts@.len(),
                cs@.len() == k,
                forall|j: int| 0 <= j < k ==> csv_ok(*self, #[trigger] cs@[j]@),
                forall|j: int| 0 <= j < k ==> (#[trigger] cs@[j])@.world_pos == hviews(pts@)[j],
            decreases pts@.len() - k,
        {
            let h = pts[k];
            let pr = self.project2d_h(&h);
            cs.push(CrossSectionVertex { world_pos: h, projected: pr });
            k += 1;
        }
        proof {
            assert(worlds(cs@) =~= hviews(pts@));
        }
        // fixed-point centroid of the projected points
        let mut sx: i128 = 0;
        let mut sy: i128 = 0;
        let mut k2: usize = 0;
        while k2 < cs.len()
            invariant
                0 <= k2 <= cs@.len(),
                (sx as int, sy as int) == sum_proj(*self, worlds(cs@).take(k2 as int)),
                -(k2 as int) * FP_LIMIT <= sx <= (k2 as int) * FP_LIMIT,
                -(k2 as int) * FP_LIMIT <= sy <= (k2 as int) * FP_LIMIT,
            decreases cs@.len() - k2,
        {
            proof {
                assert(worlds(cs@).take(k2 as int + 1).drop_last() =~= worlds(cs@).take(
                    k2 as int,
                ));
                assert(worlds(cs@).take(k2 as int + 1).last() == cs@[k2 as int]@.world_pos);
                assert((k2 as int) * FP_LIMIT + FP_LIMIT == (k2 as int + 1) * FP_LIMIT)
                    by (nonlinear_arith);
            }
            sx = sx + (cs[k2].projected.x as i128);
            sy = sy + (cs[k2].projected.y as i128);
            k2 += 1;
        }
        proof {
            assert(worlds(cs@).take(cs@.len() as int) =~= worlds(cs@));
            lemma_abs_mul(cs@.len() as int, FP_LIMIT as int, 0x1_0000_0000_0000_0000, FP_LIMIT as int);
        }
        let n = cs.len();
        let cx = div_clamp(sx, n as i128);
        let cy = div_clamp(sy, n as i128);
        let c = ProjPoint { x: cx, y: cy };
        proof {
            assert(pp(c) == sec_centroid(*self, ts));
        }
        sort_ccw(&mut cs, c);
        proof {
            assert forall|i: int| 0 <= i < cs@.len() implies csv_ok(*self, #[trigger] cs@[i]@) by {
                assert(cs@.to_multiset().count(cs@[i]) > 0);
            }
            assert(section_of(*self, ts, cs@));
        }
        cs
    }
}

} // verus!
