//! Behavioural checks of the spawn scheduler, the integrator and the culling.

use background::geometry::{HPoint, ProjPoint, Triangle, Vec3};
use background::section::CrossSectionVertex;
use background::object::{Color, Object};
use background::rng::{gen_range, Lcg, RandomSource};
use background::state::{random_spawn, section_chain, DrawSink, State};

fn palette() -> Vec<Color> {
    vec![
        Color { r: 10, g: 20, b: 30, a: 255 },
        Color { r: 200, g: 100, b: 50, a: 255 },
    ]
}

fn sep_ok(a: &Object, b: &Object) -> bool {
    let dx = (a.position.x - b.position.x) as i128;
    let dy = (a.position.y - b.position.y) as i128;
    let dz = (a.position.z - b.position.z) as i128;
    let t = (1740 * (a.scale + b.scale)) as i128;
    dx * dx + dy * dy + dz * dz >= t * t
}

#[test]
fn spawns_are_separated() {
    // drain a long backlog of spawn attempts, then check every pair before
    // anything drifts
    let mut s = State::new(palette());
    let mut rng = Lcg::new(12345);
    s.next_spawn = -3000;
    s.drain_spawns(&mut rng);
    assert!(s.next_spawn >= 0);
    assert!(s.objects.len() > 1, "a long drain should place something");
    for i in 0..s.objects.len() {
        for j in 0..i {
            assert!(sep_ok(&s.objects[i], &s.objects[j]));
        }
    }
    for o in &s.objects {
        assert_eq!(o.position.z, -2000 * o.scale);
        assert!(o.scale >= 300 && o.scale <= 1000);
        assert!(o.roll >= 0 && o.roll < 360_000);
    }
}

#[test]
fn update_is_deterministic_for_a_fixed_source() {
    let mut a = State::new(palette());
    let mut b = State::new(palette());
    let mut ra = Lcg::new(99);
    let mut rb = Lcg::new(99);
    for _ in 0..50 {
        a.update(40, &mut ra);
        b.update(40, &mut rb);
    }
    assert_eq!(a.simulation_time, b.simulation_time);
    assert_eq!(a.next_spawn, b.next_spawn);
    assert_eq!(a.objects.len(), b.objects.len());
    for (x, y) in a.objects.iter().zip(b.objects.iter()) {
        assert_eq!(x, y);
    }
    assert!(a.simulation_time == 2000);
}

#[test]
fn update_scales_linearly_with_time() {
    // with no spawn due, one tick of 2*dt equals two ticks of dt
    let mut a = State::new(palette());
    let mut rng = Lcg::new(7);
    a.next_spawn = -500;
    a.drain_spawns(&mut rng);
    assert!(!a.objects.is_empty());
    a.next_spawn = 1_000_000;
    let mut b = State::new(palette());
    let mut rng_b = Lcg::new(7);
    b.next_spawn = -500;
    b.drain_spawns(&mut rng_b);
    b.next_spawn = 1_000_000;
    let mut r1 = Lcg::new(1);
    let mut r2 = Lcg::new(1);
    a.update(2 * 16, &mut r1);
    b.update(16, &mut r2);
    b.update(16, &mut r2);
    assert_eq!(a.objects.len(), b.objects.len());
    for (x, y) in a.objects.iter().zip(b.objects.iter()) {
        assert_eq!(x, y);
    }
}

#[test]
fn culling_threshold_is_sharp() {
    let mut s = State::new(palette());
    let mut rng = Lcg::new(3);
    s.next_spawn = 1_000_000;  // no spawn interferes
    // threshold for scale 500 is a travel coordinate of 2000 * 500
    let mut near = Object::new(Vec3 { x: 0, y: 0, z: 0 }, 0);
    near.scale = 500;
    near.position.z = 989_999;  // stays just below after one tick of 10
    s.objects.push(near);
    let mut edge = Object::new(Vec3 { x: 900_000_000, y: 0, z: 0 }, 0);
    edge.scale = 500;
    edge.position.z = 995_000;  // lands exactly on the threshold: gone
    s.objects.push(edge);
    s.update(10, &mut rng);
    assert_eq!(s.objects.len(), 1);
    assert_eq!(s.objects[0].position.z, 994_999);
    // the survivor drifts past the threshold and is culled next tick
    s.update(20, &mut rng);
    assert_eq!(s.objects.len(), 0);
}

#[test]
fn spawning_update_keeps_existing_objects() {
    // a frame in which spawns occur still integrates every pre-existing
    // object and keeps its other attributes
    let mut s = State::new(palette());
    let mut rng = Lcg::new(21);
    let mut old = Object::new(Vec3 { x: 80_000_000, y: 80_000_000, z: -1_500_000 }, 0);
    old.scale = 800;
    old.roll = 123_456;
    old.color = Color { r: 9, g: 8, b: 7, a: 255 };
    s.objects.push(old);
    s.next_spawn = 0;
    s.update(100, &mut rng);  // the countdown runs out: a spawn attempt happens
    assert!(s.next_spawn >= 0 && s.next_spawn < 100);
    let kept = &s.objects[0];
    assert_eq!(kept.position.x, 80_000_000);
    assert_eq!(kept.position.y, 80_000_000);
    assert_eq!(kept.position.z, -1_500_000 + 500 * 100);
    assert_eq!(kept.yaw, 45 * 100);
    assert_eq!(kept.scale, 800);
    assert_eq!(kept.roll, 123_456);
    assert_eq!(kept.color, Color { r: 9, g: 8, b: 7, a: 255 });
}

#[test]
fn newcomers_are_placed_in_view_with_palette_colors() {
    let mut s = State::new(palette());
    s.set_framebuffer_size(1600, 900);
    let view = s.view();
    let mut rng = Lcg::new(77);
    s.next_spawn = -2000;
    s.drain_spawns(&mut rng);
    assert!(!s.objects.is_empty());
    for o in &s.objects {
        assert!(o.position.x >= view.min_x && o.position.x <= view.max_x);
        assert!(o.position.y >= view.min_y && o.position.y <= view.max_y);
        assert!(palette().contains(&o.color));
    }
}

#[test]
fn rotate_y_wraps() {
    let mut o = Object::new(Vec3 { x: 0, y: 0, z: 0 }, 0);
    o.rotate_y(350_000);
    assert_eq!(o.yaw, 350_000);
    o.rotate_y(20_000);
    assert_eq!(o.yaw, 10_000);
    o.rotate_y(-30_000);
    assert_eq!(o.yaw, 340_000);
}

#[test]
fn gen_range_stays_in_range() {
    let mut rng = Lcg::new(2024);
    for _ in 0..200 {
        let v = gen_range(&mut rng, -17, 42);
        assert!((-17..=42).contains(&v));
    }
    let v = gen_range(&mut rng, 5, 5);
    assert_eq!(v, 5);
}

#[test]
fn random_spawn_stays_in_view() {
    let mut s = State::new(palette());
    s.set_framebuffer_size(1600, 900);
    let view = s.view();
    assert_eq!(view.max_x, 17_000_000);
    assert_eq!(view.max_y, 9_562_500);
    let mut rng = Lcg::new(5);
    for _ in 0..50 {
        let p = random_spawn(-1234, view, &mut rng);
        assert!(p.x >= view.min_x && p.x <= view.max_x);
        assert!(p.y >= view.min_y && p.y <= view.max_y);
        assert_eq!(p.z, -1234);
    }
}

struct Collector {
    chains: Vec<(Vec<ProjPoint>, i64, Color, u32)>,
}

impl DrawSink for Collector {
    fn draw_chain(&mut self, points: &Vec<ProjPoint>, width: i64, color: Color, segments: u32) {
        self.chains.push((points.clone(), width, color, segments));
    }
}

#[test]
fn small_cube_sections() {
    let verts = background::mesh::unit_cube_triangulated();
    let mut soup: Vec<Triangle> = Vec::new();
    let mut i = 0;
    while i < verts.len() {
        let f = |v: Vec3| Vec3 { x: v.x * 10, y: v.y * 10, z: v.z * 10 };
        soup.push(Triangle::new(f(verts[i].a_pos), f(verts[i + 1].a_pos), f(verts[i + 2].a_pos)));
        i += 3;
    }
    let plane = background::geometry::Plane {
        normal: Vec3 { x: 0, y: 0, z: 1 },
        offset: 0,
    };
    let cs = plane.cross_sect(&soup);
    assert_eq!(cs.len(), 8);
    let chain = section_chain(&cs, 100_000);
    assert!(chain.is_some());
}

#[test]
fn render_hands_closed_chains_to_the_sink() {
    let mut s = State::new(palette());
    let mut obj = Object::new(Vec3 { x: 0, y: 0, z: 0 }, 0);
    obj.color = Color { r: 1, g: 2, b: 3, a: 255 };
    s.objects.push(obj);
    // a world-space cube of half-extent 10 straddling the cutting plane
    let verts = background::mesh::unit_cube_triangulated();
    let mut soup: Vec<Triangle> = Vec::new();
    let mut i = 0;
    while i < verts.len() {
        let f = |v: Vec3| Vec3 { x: v.x * 10, y: v.y * 10, z: v.z * 10 };
        soup.push(Triangle::new(f(verts[i].a_pos), f(verts[i + 1].a_pos), f(verts[i + 2].a_pos)));
        i += 3;
    }
    let soups = vec![soup];
    let mut sink = Collector { chains: Vec::new() };
    let drawn = s.render(&soups, 100_000, &mut sink);
    assert_eq!(sink.chains.len(), 1);
    let (chain, width, color, segments) = &sink.chains[0];
    assert_eq!(*segments, 5);
    assert_eq!(color.r, 1);
    assert!(chain.len() >= 5);
    // the chain is closed: it starts and ends on the same point
    assert_eq!(chain.first(), chain.last());
    assert!(*width > 0 && *width <= 100_000);
    // the returned record mirrors the sink calls, aligned with the objects
    assert_eq!(drawn.len(), 1);
    let (rchain, rwidth, rcolor) = drawn[0].as_ref().expect("object qualified");
    assert_eq!(rchain, chain);
    assert_eq!(rwidth, width);
    assert_eq!(rcolor.r, 1);
}

#[test]
fn empty_palette_falls_back_to_white() {
    let mut s = State::new(Vec::new());
    let mut rng = Lcg::new(11);
    s.next_spawn = -2000;
    s.drain_spawns(&mut rng);
    assert!(!s.objects.is_empty());
    for o in &s.objects {
        assert_eq!(o.color, Color { r: 255, g: 255, b: 255, a: 255 });
    }
}

#[test]
fn lcg_is_reproducible() {
    let mut a = Lcg::new(1);
    let mut b = Lcg::new(1);
    let mut c = Lcg::new(2);
    let xs: Vec<u32> = (0..8).map(|_| a.next_u32()).collect();
    let ys: Vec<u32> = (0..8).map(|_| b.next_u32()).collect();
    let zs: Vec<u32> = (0..8).map(|_| c.next_u32()).collect();
    assert_eq!(xs, ys);
    assert_ne!(xs, zs);
}

#[test]
fn section_chain_width_respects_cap() {
    let mk = |x: i64, y: i64| CrossSectionVertex {
        world_pos: HPoint { x: 0, y: 0, z: 0, w: 1 },
        projected: ProjPoint { x, y },
    };
    // a large triangle: the cap wins
    let pts = vec![mk(0, 0), mk(4_000_000, 0), mk(0, 4_000_000)];
    let (_, width) = section_chain(&pts, 100_000).unwrap();
    assert_eq!(width, 100_000);
}
