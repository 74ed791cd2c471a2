//! The frame-driven simulation: spawn scheduling with spatial rejection
//! sampling, kinematic integration, lifetime culling, and the per-frame
//! orchestration that hands cross-section polygons to a 2-D drawing sink.
//!
//! Units as in `object`: positions in millionths of a world unit, scales in
//! thousandths, angles in thousandths of a degree, time in milliseconds.

use vstd::prelude::*;

use crate::geometry::Plane;
use crate::geometry::Triangle;
use crate::geometry::Vec3;
use crate::geometry::Vertex;
use crate::geometry::ProjPoint;
use crate::geometry::tri_in_range;
use crate::geometry::wmul;
use crate::mesh::is_unit_cube_mesh;
use crate::mesh::mesh_wf;
use crate::mesh::unit_cube_triangulated;
use crate::object::Color;
use crate::object::FULL_TURN;
use crate::object::Object;
use crate::object::rem_euclid;
use crate::object::white;
use crate::rng::RandomSource;
use crate::rng::gen_range;
use crate::section::CrossSectionVertex;
use crate::section::section_of;
use crate::section::section_points;
use crate::geometry::FP_LIMIT;
use crate::section::pp;
use crate::section::pp_bounded;

verus! {

/// The spawn countdown is refilled by this much per attempt (a tenth of a
/// second).
pub const SPAWN_INTERVAL: i64 = 100;

/// Largest accepted frame delta: a million seconds.
pub const MAX_DT: i64 = 1_000_000_000;

/// Drift along the travel axis, in millionths of a unit per millisecond
/// (half a unit per second).
pub const TRAVEL_SPEED: i64 = 500;

/// Turn rate about the vertical axis, in thousandths of a degree per
/// millisecond (45 degrees per second).
pub const TURN_RATE: i64 = 45;

/// Smallest and largest spawned scale, in thousandths.
pub const SCALE_MIN: i64 = 300;

pub const SCALE_MAX: i64 = 1000;

/// Required separation per thousandth of combined scale, in millionths:
/// `1.74 * (scale + scale')` world units, a safety factor above the
/// half-diagonal of a rotating unit cube.
pub const SEP_PER_SCALE: i64 = 1740;

/// Placement attempts per spawn before the spawn is skipped.
pub const SPAWN_RETRIES: u32 = 5;

/// Horizontal half-extent of the visible region, in millionths (the
/// camera's horizontal field of view of 17 units, half on each side of the
/// centre, doubled by the symmetric extension of the spawn region).
pub const FOV_HALF: i64 = 17_000_000;

/// Magnitude bound of any live object's horizontal position coordinates.
pub const POS_LIMIT: i64 = 100_000_000_000_000_000;

/// An object is culled once its travel-axis coordinate reaches twice its
/// scale (in millionths: `2000 * scale`).
pub const CULL_PER_SCALE: i64 = 2000;

/// An axis-aligned 2-D box, in millionths of a world unit.
#[derive(Clone, Copy, PartialEq, Eq, Structural, Debug)]
pub struct Aabb2 {
    pub min_x: i64,
    pub min_y: i64,
    pub max_x: i64,
    pub max_y: i64,
}

/// A 2-D drawing collaborator: takes an ordered point chain (fixed-point
/// thousandths), a stroke width, a color and a smoothing segment count, and
/// rasterizes it however it pleases. The simulation core promises nothing of
/// it and needs nothing from it.
pub trait DrawSink {
    /// Strokes one open point chain.
    fn draw_chain(&mut self, points: &Vec<ProjPoint>, width: i64, color: Color, segments: u32);
}

/// The two objects' centres are at least `1.74 * (s1 + s2)` world units
/// apart (compared exactly on squares).
pub open spec fn separated(p1: Vec3, s1: i64, p2: Vec3, s2: i64) -> bool {
    let dx = p1.x - p2.x;
    let dy = p1.y - p2.y;
    let dz = p1.z - p2.z;
    let t = SEP_PER_SCALE * (s1 + s2);
    dx * dx + dy * dy + dz * dz >= t * t
}

/// Every pair of the collection is separated.
pub open spec fn pairwise_separated(s: Seq<Object>) -> bool {
    forall|i: int, j: int|
        0 <= i < j < s.len() ==> separated(
            (#[trigger] s[i]).position,
            s[i].scale,
            (#[trigger] s[j]).position,
            s[j].scale,
        )
}

/// A newly spawned entry `objs[j]`: within its lanes, placed at the spawn
/// depth of its scale inside the visible region of `pre`, coloured from
/// `pre`'s palette (white only when the palette is empty), and separated
/// from everything spawned or live before it.
pub open spec fn newcomer_ok(objs: Seq<Object>, j: int, pre: State) -> bool {
    let o = objs[j];
    let vy = (FOV_HALF as int) * (pre.framebuffer_size.1 as int) / (
    pre.framebuffer_size.0 as int);
    &&& obj_wf(o, pre.prefabs@.len() as int)
    &&& o.position.z == -2 * 1000 * o.scale
    &&& keep_obj(o)
    &&& -FOV_HALF <= o.position.x <= FOV_HALF
    &&& -vy <= o.position.y <= vy
    &&& (pre.palette@.len() > 0 ==> pre.palette@.contains(o.color))
    &&& (pre.palette@.len() == 0 ==> o.color == (Color {
        r: 255u8,
        g: 255u8,
        b: 255u8,
        a: 255u8,
    }))
    &&& forall|k: int|
        0 <= k < j ==> separated(
            o.position,
            o.scale,
            (#[trigger] objs[k]).position,
            objs[k].scale,
        )
}

/// `post` extends `pre`'s live objects: the old collection is an unchanged
/// prefix, and everything after it is a well-placed newcomer.
pub open spec fn spawn_extension(pre: State, post: Seq<Object>) -> bool {
    &&& post.len() >= pre.objects@.len()
    &&& forall|i: int| 0 <= i < pre.objects@.len() ==> #[trigger] post[i] == pre.objects@[i]
    &&& forall|j: int| pre.objects@.len() <= j < post.len() ==> newcomer_ok(post, j, pre)
}

/// A live object's fields are in their lanes.
pub open spec fn obj_wf(o: Object, nprefabs: int) -> bool {
    &&& o.prefab < nprefabs
    &&& SCALE_MIN <= o.scale <= SCALE_MAX
    &&& 0 <= o.yaw < FULL_TURN
    &&& 0 <= o.roll < FULL_TURN
    &&& -1000 <= o.orientation.x <= 1000
    &&& -1000 <= o.orientation.y <= 1000
    &&& -1000 <= o.orientation.z <= 1000
    &&& -POS_LIMIT <= o.position.x <= POS_LIMIT
    &&& -POS_LIMIT <= o.position.y <= POS_LIMIT
    &&& -2_000_000 <= o.position.z <= 2_000_000_000_000
}

/// The object has not yet drifted past its scale-dependent threshold.
pub open spec fn keep_obj(o: Object) -> bool {
    o.position.z < CULL_PER_SCALE * o.scale
}

/// The object after `dt` milliseconds of drift and turn: the position
/// advances along the travel axis, the yaw advances about the vertical axis,
/// both linearly in `dt`; nothing else moves.
pub open spec fn integ_obj(o: Object, dt: int) -> Object {
    Object {
        position: Vec3 {
            x: o.position.x,
            y: o.position.y,
            z: (o.position.z + TRAVEL_SPEED * dt) as i64,
        },
        yaw: ((o.yaw + TURN_RATE * dt) % (FULL_TURN as int)) as i64,
        ..o
    }
}

/// The whole collection after `dt` milliseconds.
pub open spec fn integ_seq(s: Seq<Object>, dt: int) -> Seq<Object> {
    s.map_values(|o: Object| integ_obj(o, dt))
}

/// One whole no-spawn tick of the collection: integrate, then cull.
pub open spec fn tick(s: Seq<Object>, dt: int) -> Seq<Object> {
    cull_seq(integ_seq(s, dt), s.len() as int)
}

/// The first `n` objects with the drifted-out ones removed, order kept.
pub open spec fn cull_seq(s: Seq<Object>, n: int) -> Seq<Object>
    decreases n,
{
    if n <= 0 {
        Seq::empty()
    } else {
        let prev = cull_seq(s, n - 1);
        if keep_obj(s[n - 1]) {
            prev.push(s[n - 1])
        } else {
            prev
        }
    }
}

/// Culling keeps only objects of the collection, all below their thresholds.
pub proof fn lemma_cull_props(s: Seq<Object>, n: int, np: int)
    requires
        0 <= n <= s.len(),
        forall|i: int| 0 <= i < s.len() ==> obj_wf(#[trigger] s[i], np),
    ensures
        forall|i: int|
            0 <= i < cull_seq(s, n).len() ==> obj_wf(#[trigger] cull_seq(s, n)[i], np) && keep_obj(
                cull_seq(s, n)[i],
            ),
        cull_seq(s, n).len() <= n,
    decreases n,
{
    if n > 0 {
        lemma_cull_props(s, n - 1, np);
    }
}

/// The whole simulation: the clock, the spawn countdown, the prefab arena,
/// the live objects, the configured palette, and the last seen framebuffer
/// size.
pub struct State {
    pub simulation_time: i64,
    pub next_spawn: i64,
    pub framebuffer_size: (u32, u32),
    pub prefabs: Vec<Vec<Vertex>>,
    pub objects: Vec<Object>,
    pub palette: Vec<Color>,
}

/// Everything of a state that holds even in the middle of an update.
pub open spec fn state_core_wf(s: State) -> bool {
    &&& s.framebuffer_size.0 >= 1
    &&& s.framebuffer_size.1 >= 1
    &&& s.prefabs@.len() <= 0x7fff_ffff_ffff_ffff
    &&& s.palette@.len() <= 0x7fff_ffff_ffff_ffff
    &&& forall|m: int| 0 <= m < s.prefabs@.len() ==> mesh_wf((#[trigger] s.prefabs@[m])@)
    &&& forall|i: int|
        0 <= i < s.objects@.len() ==> obj_wf(#[trigger] s.objects@[i], s.prefabs@.len() as int)
    &&& 0 <= s.simulation_time
}

/// A well-formed state between updates: additionally, the countdown has been
/// drained and every live object is below its culling threshold.
pub open spec fn state_wf(s: State) -> bool {
    &&& state_core_wf(s)
    &&& 0 <= s.next_spawn
    &&& forall|i: int| 0 <= i < s.objects@.len() ==> keep_obj(#[trigger] s.objects@[i])
}

/// A uniformly random point of the spawn region: within the view box
/// horizontally and vertically, at the given depth.
pub fn random_spawn<R: RandomSource>(z: i64, view: Aabb2, rng: &mut R) -> (p: Vec3)
    requires
        view.min_x <= view.max_x,
        view.min_y <= view.max_y,
    ensures
        view.min_x <= p.x <= view.max_x,
        view.min_y <= p.y <= view.max_y,
        p.z == z,
{
    Vec3 { x: gen_range(rng, view.min_x, view.max_x), y: gen_range(rng, view.min_y, view.max_y), z }
}

/// Decides the exact separation predicate.
fn is_separated(p1: Vec3, s1: i64, p2: Vec3, s2: i64) -> (r: bool)
    requires
        -POS_LIMIT <= p1.x <= POS_LIMIT,
        -POS_LIMIT <= p1.y <= POS_LIMIT,
        -2_000_000_000_000 <= p1.z <= 2_000_000_000_000,
        -POS_LIMIT <= p2.x <= POS_LIMIT,
        -POS_LIMIT <= p2.y <= POS_LIMIT,
        -2_000_000_000_000 <= p2.z <= 2_000_000_000_000,
        0 <= s1 <= 2000,
        0 <= s2 <= 2000,
    ensures
        r == separated(p1, s1, p2, s2),
{
    let dx = p1.x - p2.x;
    let dy = p1.y - p2.y;
    let dz = p1.z - p2.z;
    let t = SEP_PER_SCALE * (s1 + s2);
    proof {
        crate::geometry::lemma_abs_mul(
            dx as int,
            dx as int,
            200_000_000_000_000_000,
            200_000_000_000_000_000,
        );
        crate::geometry::lemma_abs_mul(
            dy as int,
            dy as int,
            200_000_000_000_000_000,
            200_000_000_000_000_000,
        );
        crate::geometry::lemma_abs_mul(
            dz as int,
            dz as int,
            4_000_000_000_000,
            4_000_000_000_000,
        );
    }
    wmul(dx, dx) + wmul(dy, dy) + wmul(dz, dz) >= wmul(t, t)
}

impl State {
    /// A fresh simulation: zero clock, a spawn due at once, a unit
    /// framebuffer, one prefab (the unit cube), no live objects, and the
    /// given palette of object colors.
    pub fn new(palette: Vec<Color>) -> (s: State)
        requires
            palette@.len() <= 0x7fff_ffff_ffff_ffff,
        ensures
            state_wf(s),
            s.simulation_time == 0,
            s.next_spawn == 0,
            s.framebuffer_size == (1u32, 1u32),
            s.prefabs@.len() == 1,
            mesh_wf(s.prefabs@[0]@),
            is_unit_cube_mesh(s.prefabs@[0]@),
            s.objects@.len() == 0,
            s.palette == palette,
    {
        let cube = unit_cube_triangulated();
        let mut prefabs: Vec<Vec<Vertex>> = Vec::new();
        prefabs.push(cube);
        State {
            simulation_time: 0,
            next_spawn: 0,
            framebuffer_size: (1, 1),
            prefabs,
            objects: Vec::new(),
            palette,
        }
    }

    /// The visible region: the camera's fixed horizontal field of view,
    /// extended symmetrically about the origin, the vertical extent scaled
    /// by the framebuffer's aspect ratio (floor division).
    pub fn view(&self) -> (r: Aabb2)
        requires
            state_core_wf(*self),
        ensures
            r.min_x == -FOV_HALF && r.max_x == FOV_HALF,
            r.max_y as int == (FOV_HALF as int) * (self.framebuffer_size.1 as int) / (
            self.framebuffer_size.0 as int),
            r.min_y == -r.max_y,
            0 <= r.max_y <= 80_000_000_000_000_000,
    {
        let w = self.framebuffer_size.0;
        let h = self.framebuffer_size.1;
        let num: u128 = (FOV_HALF as u128) * (h as u128);
        let vy128: u128 = num / (w as u128);
        proof {
            vstd::arithmetic::div_mod::lemma_fundamental_div_mod(num as int, w as int);
            assert(vy128 as int <= num as int) by (nonlinear_arith)
                requires
                    num as int == (w as int) * (vy128 as int) + (num as int % w as int),
                    0 <= num as int % w as int,
                    w >= 1,
                    vy128 as int >= 0,
            ;
        }
        let vy = vy128 as i64;
        Aabb2 { min_x: -FOV_HALF, min_y: -vy, max_x: FOV_HALF, max_y: vy }
    }

    /// Records the framebuffer size a host reports before drawing.
    pub fn set_framebuffer_size(&mut self, w: u32, h: u32)
        requires
            w >= 1,
            h >= 1,
        ensures
            final(self).framebuffer_size == (w, h),
            final(self).simulation_time == old(self).simulation_time,
            final(self).next_spawn == old(self).next_spawn,
            final(self).prefabs == old(self).prefabs,
            final(self).objects == old(self).objects,
            final(self).palette == old(self).palette,
    {
        self.framebuffer_size = (w, h);
    }

    /// Drains the spawn countdown: while it is negative, refills it by one
    /// interval and makes one best-effort spawn attempt — a random prefab, a
    /// random scale, and up to `SPAWN_RETRIES` random placements, each
    /// rejected if it comes closer than `1.74 * (scale + scale')` to any live
    /// object. A successful attempt appends one object; a failed one appends
    /// nothing, so the collection grows by at most one object per drained
    /// interval. A countdown that was due lands in `[0, SPAWN_INTERVAL)`,
    /// advanced by whole intervals only, so the spawn cadence is fixed.
    /// Every appended object is separated from everything live at its spawn
    /// (so spawning never creates an overlapping pair), placed at the spawn
    /// depth of its scale inside the visible region, and coloured from the
    /// palette, white only when the palette is empty.
    #[verifier::loop_isolation(false)]
    #[verifier::rlimit(60)]
    pub fn drain_spawns<R: RandomSource>(&mut self, rng: &mut R)
        requires
            state_core_wf(*old(self)),
            old(self).next_spawn >= -2_100_000_000,
        ensures
            state_core_wf(*final(self)),
            0 <= final(self).next_spawn,
            final(self).simulation_time == old(self).simulation_time,
            final(self).prefabs == old(self).prefabs,
            final(self).palette == old(self).palette,
            final(self).framebuffer_size == old(self).framebuffer_size,
            old(self).next_spawn >= 0 ==> final(self).next_spawn == old(self).next_spawn
                && final(self).objects@ == old(self).objects@,
            old(self).next_spawn < 0 ==> final(self).next_spawn < SPAWN_INTERVAL,
            final(self).next_spawn >= old(self).next_spawn,
            (final(self).next_spawn - old(self).next_spawn) % (SPAWN_INTERVAL as int) == 0,
            (final(self).objects@.len() - old(self).objects@.len()) * (SPAWN_INTERVAL as int)
                <= final(self).next_spawn - old(self).next_spawn,
            spawn_extension(*old(self), final(self).objects@),
            old(self).next_spawn < 0 && old(self).objects@.len() == 0 && old(
                self,
            ).prefabs@.len() > 0 ==> final(self).objects@.len() >= 1,
            pairwise_separated(old(self).objects@) ==> pairwise_separated(final(self).objects@),
    {
        let ghost orig = *self;
        let ghost n0 = old(self).objects@.len() as int;
        while self.next_spawn < 0
            invariant
                state_core_wf(*self),
                self.next_spawn >= -2_100_000_000,
                self.simulation_time == orig.simulation_time,
                self.prefabs == orig.prefabs,
                self.palette == orig.palette,
                self.framebuffer_size == orig.framebuffer_size,
                orig.next_spawn >= 0 ==> self.next_spawn == orig.next_spawn && self.objects@
                    == orig.objects@,
                orig.next_spawn < 0 ==> self.next_spawn < SPAWN_INTERVAL,
                self.next_spawn >= orig.next_spawn,
                (self.next_spawn - orig.next_spawn) % (SPAWN_INTERVAL as int) == 0,
                (self.objects@.len() - n0) * (SPAWN_INTERVAL as int) <= self.next_spawn
                    - orig.next_spawn,
                spawn_extension(orig, self.objects@),
                self.next_spawn > orig.next_spawn && n0 == 0 && orig.prefabs@.len() > 0
                    ==> self.objects@.len() >= 1,
            decreases (if self.next_spawn < 0 {
                -(self.next_spawn as int)
            } else {
                0
            }),
        {
            proof {
                vstd::arithmetic::div_mod::lemma_mod_add_multiples_vanish(
                    self.next_spawn - orig.next_spawn,
                    SPAWN_INTERVAL as int,
                );
            }
            self.next_spawn = self.next_spawn + SPAWN_INTERVAL;
            if self.prefabs.len() > 0 {
                let prefab_idx = gen_range(rng, 0, (self.prefabs.len() as i64) - 1) as usize;
                let scale = gen_range(rng, SCALE_MIN, SCALE_MAX);
                let pos_z = -2 * 1000 * scale;
                let view = self.view();
                let mut pos = random_spawn(pos_z, view, rng);
                let mut attempt: u32 = 0;
                let mut found: bool = false;
                while attempt < SPAWN_RETRIES && !found
                    invariant
                        SCALE_MIN <= scale <= SCALE_MAX,
                        view.min_x == -FOV_HALF && view.max_x == FOV_HALF,
                        -80_000_000_000_000_000 <= view.min_y <= view.max_y
                            <= 80_000_000_000_000_000,
                        view.min_x <= pos.x <= view.max_x,
                        view.min_y <= pos.y <= view.max_y,
                        pos.z == pos_z,
                        found ==> forall|k: int|
                            0 <= k < self.objects@.len() ==> separated(
                                pos,
                                scale,
                                (#[trigger] self.objects@[k]).position,
                                self.objects@[k].scale,
                            ),
                        self.objects@.len() == 0 ==> (found || attempt == 0),
                    decreases SPAWN_RETRIES - attempt,
                {
                    let mut good: bool = true;
                    let mut j: usize = 0;
                    while j < self.objects.len()
                        invariant
                            0 <= j <= self.objects@.len(),
                            view.min_x <= pos.x <= view.max_x,
                            view.min_y <= pos.y <= view.max_y,
                            pos.z == pos_z,
                            good ==> forall|k: int|
                                0 <= k < j ==> separated(
                                    pos,
                                    scale,
                                    (#[trigger] self.objects@[k]).position,
                                    self.objects@[k].scale,
                                ),
                            self.objects@.len() == 0 ==> good,
                        decreases self.objects@.len() - j,
                    {
                        let other = self.objects[j];
                        if !is_separated(pos, scale, other.position, other.scale) {
                            good = false;
                        }
                        j += 1;
                    }
                    if good {
                        found = true;
                    } else {
                        proof {
                            assert(self.objects@.len() > 0);
                        }
                        pos = random_spawn(pos_z, view, rng);
                    }
                    attempt += 1;
                }
                if found {
                    let mut obj = Object::new(pos, prefab_idx);
                    obj.orientation = Vec3 {
                        x: gen_range(rng, -1000, 1000),
                        y: gen_range(rng, -1000, 1000),
                        z: gen_range(rng, -1000, 1000),
                    };
                    obj.roll = gen_range(rng, 0, FULL_TURN - 1);
                    obj.scale = scale;
                    obj.color = if self.palette.len() > 0 {
                        let ci = gen_range(rng, 0, (self.palette.len() as i64) - 1) as usize;
                        self.palette[ci]
                    } else {
                        white()
                    };
                    proof {
                        if self.palette@.len() > 0 {
                            assert(self.palette@.contains(obj.color)) by {
                                assert(exists|ci: int|
                                    0 <= ci < self.palette@.len() && #[trigger] self.palette@[ci]
                                        == obj.color);
                            }
                        }
                    }
                    let ghost before = self.objects@;
                    self.objects.push(obj);
                    proof {
                        assert(obj_wf(obj, self.prefabs@.len() as int));
                        assert(keep_obj(obj)) by (nonlinear_arith)
                            requires
                                obj.position.z == -2 * 1000 * obj.scale,
                                obj.scale >= SCALE_MIN,
                        ;
                        let post = self.objects@;
                        assert forall|j: int| n0 <= j < post.len() implies newcomer_ok(
                            post,
                            j,
                            orig,
                        ) by {
                            if j < before.len() {
                                assert(newcomer_ok(before, j, orig));
                                assert(post[j] == before[j]);
                                assert(forall|k: int| 0 <= k < j ==> post[k] == before[k]);
                            } else {
                                assert(post[j] == obj);
                            }
                        }
                        assert(spawn_extension(orig, post));
                    }
                }
            }
        }
        proof {
            if pairwise_separated(orig.objects@) {
                assert forall|i: int, j: int|
                    0 <= i < j < self.objects@.len() implies separated(
                    (#[trigger] self.objects@[i]).position,
                    self.objects@[i].scale,
                    (#[trigger] self.objects@[j]).position,
                    self.objects@[j].scale,
                ) by {
                    if j < n0 {
                        assert(self.objects@[i] == orig.objects@[i]);
                        assert(self.objects@[j] == orig.objects@[j]);
                    } else {
                        assert(newcomer_ok(self.objects@, j, orig));
                        lemma_separated_sym(
                            self.objects@[j].position,
                            self.objects@[j].scale,
                            self.objects@[i].position,
                            self.objects@[i].scale,
                        );
                    }
                }
            }
        }
    }

    /// Advances every live object by `dt` milliseconds: drift along the
    /// travel axis and turn about the vertical axis, each linear in `dt`.
    pub fn integrate_all(&mut self, dt: i64)
        requires
            state_core_wf(*old(self)),
            0 <= dt <= MAX_DT,
        ensures
            final(self).objects@ == integ_seq(old(self).objects@, dt as int),
            final(self).simulation_time == old(self).simulation_time,
            final(self).next_spawn == old(self).next_spawn,
            final(self).prefabs == old(self).prefabs,
            final(self).palette == old(self).palette,
            final(self).framebuffer_size == old(self).framebuffer_size,
    {
        let ghost orig = self.objects@;
        let mut out: Vec<Object> = Vec::new();
        let mut i: usize = 0;
        while i < self.objects.len()
            invariant
                0 <= i <= self.objects@.len(),
                self.objects@ == orig,
                state_core_wf(*self),
                0 <= dt <= MAX_DT,
                out@ == integ_seq(orig, dt as int).take(i as int),
            decreases self.objects@.len() - i,
        {
            proof {
                assert(obj_wf(self.objects@[i as int], self.prefabs@.len() as int));
            }
            let o = self.objects[i];
            proof {
                assert(-2_000_000 <= o.position.z <= 2_000_000_000_000);
            }
            let nz128: i128 = (o.position.z as i128) + (TRAVEL_SPEED as i128) * (dt as i128);
            let nz: i64 = nz128 as i64;
            let yaw = rem_euclid((o.yaw as i128) + (TURN_RATE as i128) * (dt as i128), FULL_TURN);
            let no = Object {
                position: Vec3 { x: o.position.x, y: o.position.y, z: nz },
                yaw,
                ..o
            };
            proof {
                assert(no == integ_obj(orig[i as int], dt as int));
                assert(integ_seq(orig, dt as int).take(i as int + 1) =~= integ_seq(
                    orig,
                    dt as int,
                ).take(i as int).push(no));
            }
            out.push(no);
            i += 1;
        }
        proof {
            assert(integ_seq(orig, dt as int).take(orig.len() as int) =~= integ_seq(
                orig,
                dt as int,
            ));
        }
        self.objects = out;
    }

    /// Removes every object whose travel-axis coordinate has reached twice
    /// its scale, keeping the order of the survivors.
    pub fn cull(&mut self)
        requires
            forall|i: int|
                0 <= i < old(self).objects@.len() ==> SCALE_MIN <= (#[trigger] old(
                    self,
                ).objects@[i]).scale <= SCALE_MAX,
        ensures
            final(self).objects@ == cull_seq(old(self).objects@, old(self).objects@.len() as int),
            final(self).simulation_time == old(self).simulation_time,
            final(self).next_spawn == old(self).next_spawn,
            final(self).prefabs == old(self).prefabs,
            final(self).palette == old(self).palette,
            final(self).framebuffer_size == old(self).framebuffer_size,
    {
        let ghost orig = self.objects@;
        let mut out: Vec<Object> = Vec::new();
        let mut i: usize = 0;
        while i < self.objects.len()
            invariant
                0 <= i <= self.objects@.len(),
                self.objects@ == orig,
                forall|k: int|
                    0 <= k < orig.len() ==> SCALE_MIN <= (#[trigger] orig[k]).scale <= SCALE_MAX,
                out@ == cull_seq(orig, i as int),
            decreases self.objects@.len() - i,
        {
            let o = self.objects[i];
            if o.position.z < CULL_PER_SCALE * o.scale {
                out.push(o);
            }
            i += 1;
        }
        self.objects = out;
    }

    /// One simulation tick: the clock advances, the spawn countdown drops by
    /// the elapsed time and is drained by best-effort spawn attempts, every
    /// live object drifts and turns linearly in the elapsed time, and
    /// objects past their scale-dependent threshold are removed. The final
    /// objects are exactly the integrate-then-cull `tick` of some spawn
    /// extension of the old collection: the old objects as an unchanged
    /// prefix, then the well-placed newcomers. When the countdown does not
    /// run out, that extension is the old collection itself.
    pub fn update<R: RandomSource>(&mut self, delta_time: i64, rng: &mut R)
        requires
            state_wf(*old(self)),
            0 <= delta_time <= MAX_DT,
            old(self).simulation_time + delta_time <= i64::MAX,
        ensures
            state_wf(*final(self)),
            final(self).simulation_time == old(self).simulation_time + delta_time,
            final(self).prefabs == old(self).prefabs,
            final(self).palette == old(self).palette,
            final(self).framebuffer_size == old(self).framebuffer_size,
            old(self).next_spawn - delta_time >= 0 ==> {
                &&& final(self).next_spawn == old(self).next_spawn - delta_time
                &&& final(self).objects@ == tick(old(self).objects@, delta_time as int)
            },
            old(self).next_spawn - delta_time < 0 ==> final(self).next_spawn < SPAWN_INTERVAL,
            final(self).next_spawn >= old(self).next_spawn - delta_time,
            (final(self).next_spawn - (old(self).next_spawn - delta_time)) % (
            SPAWN_INTERVAL as int) == 0,
            exists|mid: Seq<Object>|
                {
                    &&& #[trigger] spawn_extension(*old(self), mid)
                    &&& (mid.len() - old(self).objects@.len()) * (SPAWN_INTERVAL as int)
                        <= final(self).next_spawn - (old(self).next_spawn - delta_time)
                    &&& (old(self).next_spawn - delta_time < 0 && old(self).objects@.len() == 0
                        && old(self).prefabs@.len() > 0) ==> mid.len() >= 1
                    &&& final(self).objects@ == tick(mid, delta_time as int)
                },
    {
        self.simulation_time = self.simulation_time + delta_time;
        self.next_spawn = self.next_spawn - delta_time;
        let ghost pre_drain = *self;
        self.drain_spawns(rng);
        let ghost spawned = *self;
        proof {
            assert forall|i: int| 0 <= i < spawned.objects@.len() implies keep_obj(
                #[trigger] spawned.objects@[i],
            ) && obj_wf(spawned.objects@[i], spawned.prefabs@.len() as int) by {
                if i < pre_drain.objects@.len() {
                    assert(spawned.objects@[i] == pre_drain.objects@[i]);
                } else {
                    assert(newcomer_ok(spawned.objects@, i, pre_drain));
                }
            }
        }
        self.integrate_all(delta_time);
        proof {
            assert forall|i: int| 0 <= i < self.objects@.len() implies obj_wf(
                #[trigger] self.objects@[i],
                self.prefabs@.len() as int,
            ) by {
                assert(self.objects@[i] == integ_obj(spawned.objects@[i], delta_time as int));
                assert(obj_wf(spawned.objects@[i], spawned.prefabs@.len() as int));
                assert(keep_obj(spawned.objects@[i]));
                vstd::arithmetic::div_mod::lemma_mod_bound(
                    spawned.objects@[i].yaw + TURN_RATE * delta_time,
                    FULL_TURN as int,
                );
            }
        }
        self.cull();
        proof {
            lemma_cull_props(
                integ_seq(spawned.objects@, delta_time as int),
                spawned.objects@.len() as int,
                spawned.prefabs@.len() as int,
            );
            let mid = spawned.objects@;
            assert(spawn_extension(*old(self), mid)) by {
                assert forall|j: int|
                    old(self).objects@.len() <= j < mid.len() implies newcomer_ok(
                    mid,
                    j,
                    *old(self),
                ) by {
                    assert(newcomer_ok(mid, j, pre_drain));
                }
            }
            assert(self.objects@ == tick(mid, delta_time as int));
        }
    }
}

/// The horizontal mirror applied before drawing: projection and display
/// coordinates differ in handedness.
pub open spec fn mirror_x(p: ProjPoint) -> (int, int) {
    (-(p.x as int), p.y as int)
}

/// The midpoint of two points, floor division.
pub open spec fn mid2(a: (int, int), b: (int, int)) -> (int, int) {
    ((a.0 + b.0) / 2, (a.1 + b.1) / 2)
}

/// Smallest and largest first coordinate among the first `n` projections.
pub open spec fn bbox_x(s: Seq<CrossSectionVertex>, n: int) -> (int, int)
    decreases n,
{
    if n <= 1 {
        (s[0].projected.x as int, s[0].projected.x as int)
    } else {
        let prev = bbox_x(s, n - 1);
        let v = s[n - 1].projected.x as int;
        (
            if v < prev.0 {
                v
            } else {
                prev.0
            },
            if v > prev.1 {
                v
            } else {
                prev.1
            },
        )
    }
}

/// Smallest and largest second coordinate among the first `n` projections.
pub open spec fn bbox_y(s: Seq<CrossSectionVertex>, n: int) -> (int, int)
    decreases n,
{
    if n <= 1 {
        (s[0].projected.y as int, s[0].projected.y as int)
    } else {
        let prev = bbox_y(s, n - 1);
        let v = s[n - 1].projected.y as int;
        (
            if v < prev.0 {
                v
            } else {
                prev.0
            },
            if v > prev.1 {
                v
            } else {
                prev.1
            },
        )
    }
}

/// Floor of the half of `a`, exact.
fn half_floor(a: i64) -> (r: i64)
    requires
        -4_000_000_000_000_000 <= a <= 4_000_000_000_000_000,
    ensures
        r as int == a as int / 2,
{
    if a >= 0 {
        (((a as u64)) / 2) as i64
    } else {
        let ua: u64 = (-a) as u64;
        let t: u64 = (ua + 1) / 2;
        proof {
            vstd::arithmetic::div_mod::lemma_fundamental_div_mod(ua as int + 1, 2);
            let ti = t as int;
            let r1 = (ua as int + 1) % 2;
            assert(a as int == 2 * (-ti) + (1 - r1));
            assert(2 * (-ti) == (-ti) * 2) by (nonlinear_arith);
            vstd::arithmetic::div_mod::lemma_fundamental_div_mod_converse(
                a as int,
                2,
                -ti,
                1 - r1,
            );
        }
        -(t as i64)
    }
}

/// The fixed cutting plane of the frame orchestration: normal along the
/// travel axis, through the origin.
pub open spec fn cut_plane() -> Plane {
    Plane { normal: Vec3 { x: 0i64, y: 0i64, z: 1i64 }, offset: 0i64 }
}

/// The fixed cutting plane, as a value.
pub fn cutting_plane() -> (p: Plane)
    ensures
        p == cut_plane(),
{
    Plane { normal: Vec3 { x: 0, y: 0, z: 1 }, offset: 0 }
}

/// `chain` with `width` is the stroked form of the section `points` under
/// the cap `width_cap`: the points mirrored horizontally, the loop closed by
/// replacing the first point with the midpoint of the first two and appending
/// the original first point and that midpoint, and the width the cap lowered
/// to the section's half-extents.
pub open spec fn chain_of(
    points: Seq<CrossSectionVertex>,
    width_cap: i64,
    chain: Seq<ProjPoint>,
    width: i64,
) -> bool {
    let n = points.len() as int;
    let m = mid2(mirror_x(points[0].projected), mirror_x(points[1].projected));
    &&& chain.len() == n + 2
    &&& pp(chain[0]) == m
    &&& forall|i: int| 1 <= i < n ==> pp(#[trigger] chain[i]) == mirror_x(points[i].projected)
    &&& pp(chain[n]) == mirror_x(points[0].projected)
    &&& pp(chain[n + 1]) == m
    &&& 0 <= width <= width_cap
    &&& ({
        let rx = (bbox_x(points, n).1 - bbox_x(points, n).0) / 2;
        let ry = (bbox_y(points, n).1 - bbox_y(points, n).0) / 2;
        width as int == if width_cap <= rx && width_cap <= ry {
            width_cap as int
        } else if rx <= ry {
            rx
        } else {
            ry
        }
    })
}

/// The open point chain a renderer strokes for one cross-section, with its
/// stroke width, or nothing for a section of fewer than three points.
///
/// The section's points are mirrored horizontally, and the loop is closed
/// for an open-chain renderer: the first point is replaced by the midpoint
/// of the first two, and the original first point followed by that midpoint
/// is appended, so the stroked chain meets itself. The width is the given
/// cap, lowered to the section's half-extents so small sections keep a
/// proportionate stroke.
#[verifier::loop_isolation(false)]
pub fn section_chain(points: &Vec<CrossSectionVertex>, width_cap: i64) -> (r: Option<
    (Vec<ProjPoint>, i64),
>)
    requires
        0 <= width_cap <= 2_000_000_000_000_000,
        forall|i: int| 0 <= i < points@.len() ==> pp_bounded((#[trigger] points@[i]).projected),
    ensures
        r is Some <==> points@.len() >= 3,
        r is Some ==> ({
            let (chain, width) = r->Some_0;
            chain_of(points@, width_cap, chain@, width)
        }),
{
    if points.len() < 3 {
        return None;
    }
    let n = points.len();
    // bounding box of the projections
    let mut min_x = points[0].projected.x;
    let mut max_x = points[0].projected.x;
    let mut min_y = points[0].projected.y;
    let mut max_y = points[0].projected.y;
    let mut i: usize = 1;
    while i < n
        invariant
            1 <= i <= n,
            (min_x as int, max_x as int) == bbox_x(points@, i as int),
            (min_y as int, max_y as int) == bbox_y(points@, i as int),
            -FP_LIMIT <= min_x <= max_x <= FP_LIMIT,
            -FP_LIMIT <= min_y <= max_y <= FP_LIMIT,
        decreases n - i,
    {
        let px = points[i].projected.x;
        let py = points[i].projected.y;
        if px < min_x {
            min_x = px;
        }
        if px > max_x {
            max_x = px;
        }
        if py < min_y {
            min_y = py;
        }
        if py > max_y {
            max_y = py;
        }
        i += 1;
    }
    let rx = half_floor(max_x - min_x);
    let ry = half_floor(max_y - min_y);
    proof {
        vstd::arithmetic::div_mod::lemma_fundamental_div_mod((max_x - min_x) as int, 2);
        vstd::arithmetic::div_mod::lemma_fundamental_div_mod((max_y - min_y) as int, 2);
    }
    let width = if width_cap <= rx && width_cap <= ry {
        width_cap
    } else if rx <= ry {
        rx
    } else {
        ry
    };
    // mirrored, closed chain
    let m0 = ProjPoint { x: -points[0].projected.x, y: points[0].projected.y };
    let m1 = ProjPoint { x: -points[1].projected.x, y: points[1].projected.y };
    let mid = ProjPoint { x: half_floor(m0.x + m1.x), y: half_floor(m0.y + m1.y) };
    let mut chain: Vec<ProjPoint> = Vec::new();
    chain.push(mid);
    let mut i2: usize = 1;
    while i2 < n
        invariant
            1 <= i2 <= n,
            chain@.len() == i2 as int,
            pp(chain@[0]) == mid2(mirror_x(points@[0].projected), mirror_x(points@[1].projected)),
            forall|k: int|
                1 <= k < i2 ==> pp(#[trigger] chain@[k]) == mirror_x(points@[k].projected),
        decreases n - i2,
    {
        chain.push(ProjPoint { x: -points[i2].projected.x, y: points[i2].projected.y });
        i2 += 1;
    }
    chain.push(m0);
    chain.push(mid);
    Some((chain, width))
}

impl State {
    /// One frame's drawing: for every live object, in order, the already
    /// world-space triangle soup a host transformed from the object's prefab
    /// is cut by the fixed plane; sections of at least three points are
    /// handed to the sink as a closed chain with the object's color and a
    /// five-segment smoothing hint, and sections with fewer points are
    /// discarded. The result records, aligned with the objects, exactly what
    /// was handed out: entry `i` is the chain and width drawn for object `i`
    /// with its color, or nothing where the section did not qualify. The
    /// geometric work is exact per `cross_sect` and `section_chain`; the
    /// sink is free to rasterize as it pleases.
    #[verifier::loop_isolation(false)]
    pub fn render<S: DrawSink>(&self, soups: &Vec<Vec<Triangle>>, width_cap: i64, sink: &mut S) -> (drawn: Vec<
        Option<(Vec<ProjPoint>, i64, Color)>,
    >)
        requires
            soups@.len() == self.objects@.len(),
            0 <= width_cap <= 2_000_000_000_000_000,
            forall|i: int, j: int|
                0 <= i < soups@.len() && 0 <= j < (#[trigger] soups@[i])@.len() ==> tri_in_range(
                    #[trigger] soups@[i]@[j],
                ),
        ensures
            drawn@.len() == soups@.len(),
            forall|i: int|
                0 <= i < drawn@.len() ==> ((#[trigger] drawn@[i]) is Some <==> section_points(
                    cut_plane(),
                    soups@[i]@,
                ).len() >= 3),
            forall|i: int|
                0 <= i < drawn@.len() ==> ((#[trigger] drawn@[i]) is Some ==> ({
                    let (chain, width, color) = drawn@[i]->Some_0;
                    &&& color == self.objects@[i].color
                    &&& chain@.len() == section_points(cut_plane(), soups@[i]@).len() + 2
                    &&& chain@.len() >= 5
                    &&& chain@[0] == chain@[chain@.len() - 1]
                    &&& 0 <= width <= width_cap
                    &&& exists|cs: Seq<CrossSectionVertex>|
                        #[trigger] section_of(cut_plane(), soups@[i]@, cs) && chain_of(
                            cs,
                            width_cap,
                            chain@,
                            width,
                        )
                })),
    {
        let plane = cutting_plane();
        let mut drawn: Vec<Option<(Vec<ProjPoint>, i64, Color)>> = Vec::new();
        let mut i: usize = 0;
        while i < soups.len()
            invariant
                0 <= i <= soups@.len(),
                drawn@.len() == i,
                forall|k: int|
                    0 <= k < i ==> ((#[trigger] drawn@[k]) is Some <==> section_points(
                        cut_plane(),
                        soups@[k]@,
                    ).len() >= 3),
                forall|k: int|
                    0 <= k < i ==> ((#[trigger] drawn@[k]) is Some ==> ({
                        let (chain, width, color) = drawn@[k]->Some_0;
                        &&& color == self.objects@[k].color
                        &&& chain@.len() == section_points(cut_plane(), soups@[k]@).len() + 2
                        &&& chain@.len() >= 5
                        &&& chain@[0] == chain@[chain@.len() - 1]
                        &&& 0 <= width <= width_cap
                        &&& exists|cs: Seq<CrossSectionVertex>|
                            #[trigger] section_of(cut_plane(), soups@[k]@, cs) && chain_of(
                                cs,
                                width_cap,
                                chain@,
                                width,
                            )
                    })),
            decreases soups@.len() - i,
        {
            let cs = plane.cross_sect(&soups[i]);
            proof {
                assert forall|k: int| 0 <= k < cs@.len() implies pp_bounded(
                    (#[trigger] cs@[k]).projected,
                ) by {
                    assert(crate::section::csv_ok(plane, cs@[k]@));
                }
            }
            let closed = section_chain(&cs, width_cap);
            if let Some((chain, width)) = closed {
                let color = self.objects[i].color;
                sink.draw_chain(&chain, width, color, 5);
                proof {
                    let n = cs@.len() as int;
                    assert(pp(chain@[0]) == pp(chain@[n + 1]));
                    assert(chain@[0].x == chain@[n + 1].x && chain@[0].y == chain@[n + 1].y);
                    assert(chain@[0] == chain@[n + 1]);
                    assert(section_of(cut_plane(), soups@[i as int]@, cs@) && chain_of(
                        cs@,
                        width_cap,
                        chain@,
                        width,
                    ));
                }
                drawn.push(Some((chain, width, color)));
            } else {
                drawn.push(None);
            }
            i += 1;
        }
        drawn
    }
}

/// Separation is symmetric.
pub proof fn lemma_separated_sym(p1: Vec3, s1: i64, p2: Vec3, s2: i64)
    by (nonlinear_arith)
    requires
        separated(p1, s1, p2, s2),
    ensures
        separated(p2, s2, p1, s1),
{
}

} // verus!
