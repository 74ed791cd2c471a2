//! Statements of the library's cross-cutting guarantees, proved once and for
//! all rather than sampled by tests.

use vstd::prelude::*;

use crate::geometry::Plane;
use crate::geometry::Triangle;
use crate::geometry::Vec3;
use crate::geometry::norm_sq;
use crate::geometry::sdist;
use crate::geometry::seg_hits;
use crate::geometry::seg_point;
use crate::geometry::tri_hits;
use crate::object::FULL_TURN;
use crate::object::Object;
use crate::section::collect_pts;
use crate::state::MAX_DT;
use crate::state::cull_seq;
use crate::state::integ_obj;
use crate::state::integ_seq;
use crate::state::keep_obj;
use crate::state::tick;

verus! {

/// Intersection correctness on an axis-aligned plane: for the plane with
/// normal along the first axis and offset `k`, a segment running along that
/// axis at height `y` and depth `z` crosses the plane exactly when `k` lies
/// between the segment's axis coordinates (and the segment is not parallel),
/// and the crossing point is then exactly `(k, y, z)`.
pub proof fn lemma_axis_intersection(k: i64, x1: i64, x2: i64, y: i64, z: i64)
    ensures
        ({
            let p = Plane { normal: Vec3 { x: 1i64, y: 0i64, z: 0i64 }, offset: k };
            let p1 = Vec3 { x: x1, y, z };
            let p2 = Vec3 { x: x2, y, z };
            &&& (seg_hits(p, p1, p2) <==> (x1 != x2 && ((x1 <= k <= x2) || (x2 <= k <= x1))))
            &&& (seg_hits(p, p1, p2) ==> ({
                let sp = seg_point(p, p1, p2);
                &&& sp.w > 0
                &&& sp.x == k * sp.w
                &&& sp.y == y * sp.w
                &&& sp.z == z * sp.w
            }))
        }),
{
    let p = Plane { normal: Vec3 { x: 1i64, y: 0i64, z: 0i64 }, offset: k };
    let p1 = Vec3 { x: x1, y, z };
    let p2 = Vec3 { x: x2, y, z };
    assert(norm_sq(p) == 1);
    assert(sdist(p, p1) == x1 - k);
    assert(sdist(p, p2) == x2 - k);
    if seg_hits(p, p1, p2) {
        let d1 = sdist(p, p1);
        let d2 = sdist(p, p2);
        assert(d1 * p2.x - d2 * p1.x == k * (d1 - d2)) by (nonlinear_arith)
            requires
                d1 == x1 - k,
                d2 == x2 - k,
                p1.x == x1,
                p2.x == x2,
        ;
        assert(d1 * p2.y - d2 * p1.y == y * (d1 - d2)) by (nonlinear_arith)
            requires
                p1.y == y,
                p2.y == y,
        ;
        assert(d1 * p2.z - d2 * p1.z == z * (d1 - d2)) by (nonlinear_arith)
            requires
                p1.z == z,
                p2.z == z,
        ;
        let s: int = if d1 > d2 {
            1
        } else {
            -1
        };
        assert(s * (k * (d1 - d2)) == k * (s * (d1 - d2))) by (nonlinear_arith);
        assert(s * (y * (d1 - d2)) == y * (s * (d1 - d2))) by (nonlinear_arith);
        assert(s * (z * (d1 - d2)) == z * (s * (d1 - d2))) by (nonlinear_arith);
        assert(s * (d1 * p2.x - d2 * p1.x) == s * (k * (d1 - d2)));
        assert(s * (d1 * p2.y - d2 * p1.y) == s * (y * (d1 - d2)));
        assert(s * (d1 * p2.z - d2 * p1.z) == s * (z * (d1 - d2)));
        assert(s * (d1 - d2) > 0) by (nonlinear_arith)
            requires
                d1 != d2,
                s == (if d1 > d2 {
                    1int
                } else {
                    -1int
                }),
        ;
    }
}

/// A soup strictly on one side of the plane has an empty cross-section: if
/// every corner of the first `n` triangles has a scaled distance of one
/// strict sign, no edge crosses and nothing is collected. In particular the
/// unit cube misses every axis plane whose offset lies outside the cube.
pub proof fn lemma_one_side_empty(p: Plane, ts: Seq<Triangle>, n: int, pos: bool)
    requires
        0 <= n <= ts.len(),
        forall|i: int, j: int|
            0 <= i < ts.len() && 0 <= j < 3 ==> (if pos {
                #[trigger] sdist(p, (#[trigger] ts[i]).vertices[j]) > 0
            } else {
                sdist(p, ts[i].vertices[j]) < 0
            }),
    ensures
        collect_pts(p, ts, n).len() == 0,
    decreases n,
{
    if n > 0 {
        lemma_one_side_empty(p, ts, n - 1, pos);
        assert(!tri_hits(p, ts[n - 1]));
    }
}

/// The documented boundary behaviour of a plane coinciding with a face: a
/// triangle lying in the plane has three parallel edges (equal endpoint
/// distances), so it contributes no crossing points at all.
pub proof fn lemma_coplanar_triangle_skipped(p: Plane, t: Triangle)
    requires
        sdist(p, t.vertices[0]) == sdist(p, t.vertices[1]),
        sdist(p, t.vertices[1]) == sdist(p, t.vertices[2]),
    ensures
        !tri_hits(p, t),
{
}

/// The other half of the face-plane boundary case: an edge whose far
/// endpoint lies exactly on the plane is accepted with crossing parameter
/// one, and its crossing point is exactly that endpoint — slicing a solid at
/// a face keeps only the face's own corners.
pub proof fn lemma_endpoint_crossing(p: Plane, p1: Vec3, p2: Vec3)
    requires
        sdist(p, p1) != 0,
        sdist(p, p2) == 0,
    ensures
        seg_hits(p, p1, p2),
        ({
            let sp = seg_point(p, p1, p2);
            &&& sp.w > 0
            &&& sp.x == p2.x * sp.w
            &&& sp.y == p2.y * sp.w
            &&& sp.z == p2.z * sp.w
        }),
{
    let d1 = sdist(p, p1);
    let sp = seg_point(p, p1, p2);
    let s: int = if d1 > 0 {
        1
    } else {
        -1
    };
    assert(s * (d1 * p2.x) == p2.x * (s * d1)) by (nonlinear_arith);
    assert(s * (d1 * p2.y) == p2.y * (s * d1)) by (nonlinear_arith);
    assert(s * (d1 * p2.z) == p2.z * (s * d1)) by (nonlinear_arith);
    assert(s * d1 > 0) by (nonlinear_arith)
        requires
            d1 != 0,
            s == (if d1 > 0 {
                1int
            } else {
                -1int
            }),
    ;
}

/// Time-scale invariance of the kinematics: integrating one object for
/// `2 * dt` once moves and turns it exactly as integrating it for `dt`
/// twice, for any object within its lanes. Drift and turn are linear in the
/// elapsed time, so behaviour cannot depend on the frame rate.
pub proof fn lemma_integrate_twice(o: Object, dt: int)
    requires
        0 <= dt <= MAX_DT,
        0 <= o.yaw < FULL_TURN,
        -2_000_000 <= o.position.z <= 2_000_000_000_000,
    ensures
        integ_obj(integ_obj(o, dt), dt) == integ_obj(o, 2 * dt),
{
    let m = FULL_TURN as int;
    vstd::arithmetic::div_mod::lemma_mod_bound(o.yaw + 45 * dt, m);
    vstd::arithmetic::div_mod::lemma_add_mod_noop(o.yaw + 45 * dt, 45 * dt, m);
    vstd::arithmetic::div_mod::lemma_mod_twice(o.yaw + 45 * dt, m);
    assert(((o.yaw + 45 * dt) % m + 45 * dt) % m == (o.yaw + 45 * dt + 45 * dt) % m);
}

/// Culling reads only the first `n` entries: sequences that agree there cull
/// alike.
proof fn lemma_cull_prefix(s1: Seq<Object>, s2: Seq<Object>, n: int)
    requires
        0 <= n <= s1.len(),
        n <= s2.len(),
        forall|i: int| 0 <= i < n ==> s1[i] == s2[i],
    ensures
        cull_seq(s1, n) == cull_seq(s2, n),
    decreases n,
{
    if n > 0 {
        lemma_cull_prefix(s1, s2, n - 1);
    }
}

/// One tick of a collection with one more object: the tick of the rest,
/// plus the integrated newcomer if it survives its own culling test.
proof fn lemma_tick_push(u: Seq<Object>, o: Object, dt: int)
    ensures
        tick(u.push(o), dt) == if keep_obj(integ_obj(o, dt)) {
            tick(u, dt).push(integ_obj(o, dt))
        } else {
            tick(u, dt)
        },
{
    let g = integ_obj(o, dt);
    let m = integ_seq(u, dt);
    let mp = integ_seq(u.push(o), dt);
    assert(mp =~= m.push(g));
    let n = u.len() as int;
    assert(cull_seq(mp, n + 1) == if keep_obj(mp[n]) {
        cull_seq(mp, n).push(mp[n])
    } else {
        cull_seq(mp, n)
    });
    lemma_cull_prefix(mp, m, n);
}

/// Time-scale invariance of a whole no-spawn tick: ticking a collection once
/// for `2 * dt` leaves exactly the objects, in the same order and the same
/// attitude, as ticking it twice for `dt`. Together with the contract of
/// `State::update` — which equals `tick` whenever the spawn countdown does
/// not run out — one frame of `2 * dt` and two frames of `dt` agree.
pub proof fn lemma_tick_twice(s: Seq<Object>, dt: int)
    requires
        0 <= dt <= MAX_DT,
        forall|i: int| 0 <= i < s.len() ==> 0 <= (#[trigger] s[i]).yaw < FULL_TURN,
        forall|i: int|
            0 <= i < s.len() ==> -2_000_000 <= (#[trigger] s[i]).position.z
                <= 2_000_000_000_000,
    ensures
        tick(tick(s, dt), dt) == tick(s, 2 * dt),
    decreases s.len(),
{
    if s.len() == 0 {
        assert(integ_seq(s, dt) =~= Seq::<Object>::empty());
        assert(integ_seq(s, 2 * dt) =~= Seq::<Object>::empty());
        assert(tick(s, dt) =~= Seq::<Object>::empty());
        assert(tick(tick(s, dt), dt) =~= Seq::<Object>::empty());
        assert(tick(s, 2 * dt) =~= Seq::<Object>::empty());
    } else {
        let u = s.drop_last();
        let o = s.last();
        assert(s =~= u.push(o));
        lemma_tick_twice(u, dt);
        lemma_tick_push(u, o, dt);
        lemma_tick_push(u, o, 2 * dt);
        lemma_integrate_twice(o, dt);
        let g = integ_obj(o, dt);
        let g2 = integ_obj(o, 2 * dt);
        if keep_obj(g) {
            lemma_tick_push(tick(u, dt), g, dt);
            assert(integ_obj(g, dt) == g2);
        } else {
            // past the threshold at mid-tick means past it at full tick
            assert(!keep_obj(g2));
        }
    }
}

} // verus!
