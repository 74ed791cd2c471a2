//! Exactness checks of the plane math and the cross-section engine.

use background::geometry::{HPoint, Plane, Triangle, Vec3};
use background::mesh::{unit_cube, unit_cube_triangulated, unit_line, unit_square};
use background::section::CrossSectionVertex;
use background::state::section_chain;

fn v3(x: i64, y: i64, z: i64) -> Vec3 {
    Vec3 { x, y, z }
}

/// The rational point `h` equals `(x, y, z)`.
fn hpoint_is(h: &HPoint, x: i64, y: i64, z: i64) -> bool {
    h.w > 0 && h.x == x * h.w && h.y == y * h.w && h.z == z * h.w
}

#[test]
fn test_plane_project() {
    let offsets = [0i64, 2, -3];

    for &offset in &offsets {
        println!("Testing offset {}", offset);

        // normal along the first axis
        let plane = Plane { normal: v3(1, 0, 0), offset };
        let p = plane.project(v3(10, 2, 1));
        assert!(hpoint_is(&p, offset, 2, 1));
        let q = plane.project2d(v3(10, 2, 1));
        assert_eq!((q.x, q.y), (1000, 2000));

        // normal along the travel axis
        let plane = Plane { normal: v3(0, 0, 1), offset };
        let p = plane.project(v3(1, 2, 10));
        assert!(hpoint_is(&p, 1, 2, offset));
        let q = plane.project2d(v3(1, 2, 10));
        assert_eq!((q.x, q.y), (-1000, 2000));

        // a diagonal normal; the offset counts in units of the normal's
        // squared length, so the projection lands at (offset, offset, 2)
        let plane = Plane { normal: v3(1, 1, 0), offset };
        let p = plane.project(v3(1, 1, 2));
        assert!(hpoint_is(&p, offset, offset, 2));
        let q = plane.project2d(v3(1, 1, 2));
        assert_eq!((q.x, q.y), (2000, 0));
    }
}

#[test]
fn intersect_segment_exact_point() {
    // a segment along the first axis crosses the plane x = k at (k, y, z)
    for k in [0i64, 3, 10] {
        let plane = Plane { normal: v3(1, 0, 0), offset: k };
        let hit = plane.intersect_segment(v3(0, 7, -4), v3(10, 7, -4));
        let h = hit.expect("crossing inside the segment");
        assert!(hpoint_is(&h, k, 7, -4));
    }
    for k in [-1i64, 11, 42] {
        let plane = Plane { normal: v3(1, 0, 0), offset: k };
        assert!(plane.intersect_segment(v3(0, 7, -4), v3(10, 7, -4)).is_none());
    }
}

#[test]
fn intersect_segment_parallel_is_none() {
    let plane = Plane { normal: v3(0, 0, 1), offset: 0 };
    // both endpoints at the same distance: parallel, skipped
    assert!(plane.intersect_segment(v3(0, 0, 5), v3(9, 3, 5)).is_none());
    assert!(plane.intersect_segment(v3(0, 0, 0), v3(9, 3, 0)).is_none());
}

/// The unit cube scaled by 1000, as world-space triangles.
fn cube_triangles(scale: i64) -> Vec<Triangle> {
    let verts = unit_cube_triangulated();
    let mut tris = Vec::new();
    let mut i = 0;
    while i < verts.len() {
        let a = verts[i].a_pos;
        let b = verts[i + 1].a_pos;
        let c = verts[i + 2].a_pos;
        tris.push(Triangle::new(
            v3(a.x * scale, a.y * scale, a.z * scale),
            v3(b.x * scale, b.y * scale, b.z * scale),
            v3(c.x * scale, c.y * scale, c.z * scale),
        ));
        i += 3;
    }
    tris
}

fn on_plane(plane: &Plane, v: &CrossSectionVertex) -> bool {
    let h = v.world_pos;
    let n = plane.normal;
    let ns = (n.x as i128) * (n.x as i128) + (n.y as i128) * (n.y as i128)
        + (n.z as i128) * (n.z as i128);
    (n.x as i128) * (h.x as i128) + (n.y as i128) * (h.y as i128) + (n.z as i128) * (h.z as i128)
        - (plane.offset as i128) * ns * (h.w as i128)
        == 0
}

#[test]
fn cube_cross_section_interior() {
    // an axis plane strictly inside the cube: the four side-face corners and
    // the four side-face diagonal crossings, all on the cube's boundary
    let tris = cube_triangles(1000);
    for k in [0i64, 500, -500, 999] {
        let plane = Plane { normal: v3(0, 0, 1), offset: k };
        let cs = plane.cross_sect(&tris);
        assert_eq!(cs.len(), 8, "offset {}", k);
        for v in &cs {
            assert!(on_plane(&plane, v));
            // every point lies on the boundary square of the slice
            let h = v.world_pos;
            let on_x = h.x == 1000 * h.w || h.x == -1000 * h.w;
            let on_y = h.y == 1000 * h.w || h.y == -1000 * h.w;
            assert!(on_x || on_y);
        }
    }
}

#[test]
fn cube_cross_section_outside_is_empty() {
    let tris = cube_triangles(1000);
    for k in [1500i64, -1500, 2000] {
        let plane = Plane { normal: v3(0, 0, 1), offset: k };
        assert!(plane.cross_sect(&tris).is_empty(), "offset {}", k);
    }
}

#[test]
fn cube_cross_section_face_plane() {
    // the boundary case: a plane exactly on a face keeps only that face's
    // four corners (face-internal edges are parallel and skipped)
    let tris = cube_triangles(1000);
    let plane = Plane { normal: v3(0, 0, 1), offset: 1000 };
    let cs = plane.cross_sect(&tris);
    assert_eq!(cs.len(), 4);
}

/// Exact proper-intersection test of two closed segments, excluding shared
/// endpoints.
fn segments_cross(a: (i128, i128), b: (i128, i128), c: (i128, i128), d: (i128, i128)) -> bool {
    let cross = |o: (i128, i128), p: (i128, i128), q: (i128, i128)| -> i128 {
        (p.0 - o.0) * (q.1 - o.1) - (p.1 - o.1) * (q.0 - o.0)
    };
    let d1 = cross(a, b, c);
    let d2 = cross(a, b, d);
    let d3 = cross(c, d, a);
    let d4 = cross(c, d, b);
    ((d1 > 0 && d2 < 0) || (d1 < 0 && d2 > 0)) && ((d3 > 0 && d4 < 0) || (d3 < 0 && d4 > 0))
}

#[test]
fn cube_cross_section_order_is_simple_polygon() {
    // the returned order walks the slice boundary: no two non-adjacent
    // edges of the polygon properly intersect
    let tris = cube_triangles(1000);
    for k in [0i64, 400, -700] {
        let plane = Plane { normal: v3(0, 0, 1), offset: k };
        let cs = plane.cross_sect(&tris);
        let n = cs.len();
        assert!(n >= 3);
        let pts: Vec<(i128, i128)> = cs
            .iter()
            .map(|v| (v.projected.x as i128, v.projected.y as i128))
            .collect();
        for i in 0..n {
            for j in 0..n {
                if i != j {
                    let e1 = (pts[i], pts[(i + 1) % n]);
                    let e2 = (pts[j], pts[(j + 1) % n]);
                    assert!(!segments_cross(e1.0, e1.1, e2.0, e2.1), "offset {}", k);
                }
            }
        }
    }
}

#[test]
fn mesh_builders() {
    assert_eq!(unit_line(), [-1, 1]);
    assert_eq!(unit_square(), [(-1, -1), (1, -1), (-1, 1), (1, 1)]);
    let cube = unit_cube();
    assert_eq!(cube.len(), 8);
    assert_eq!(cube[0], (-1, -1, -1));
    assert_eq!(cube[7], (1, 1, 1));
    let verts = unit_cube_triangulated();
    assert_eq!(verts.len(), 36);
    // the first triangle spans the near face, its normal facing out of it
    assert_eq!(verts[0].a_pos, v3(-1, -1, -1));
    assert_eq!(verts[1].a_pos, v3(1, 1, -1));
    assert_eq!(verts[2].a_pos, v3(1, -1, -1));
    assert_eq!(verts[0].a_normal, v3(0, 0, -4));
}

#[test]
fn triangle_normal_is_edge_cross_product() {
    let t = Triangle::new(v3(0, 0, 0), v3(2, 0, 0), v3(0, 3, 0));
    assert_eq!(t.normal, v3(0, 0, 6));
    // collinear corners degrade to the zero vector
    let d = Triangle::new(v3(0, 0, 0), v3(1, 1, 1), v3(2, 2, 2));
    assert_eq!(d.normal, v3(0, 0, 0));
    let vs = t.into_vertices();
    assert_eq!(vs[1].a_pos, v3(2, 0, 0));
    assert_eq!(vs[2].a_normal, v3(0, 0, 6));
}

#[test]
fn section_chain_closes_the_loop() {
    let mk = |x: i64, y: i64| CrossSectionVertex {
        world_pos: HPoint { x: 0, y: 0, z: 0, w: 1 },
        projected: background::geometry::ProjPoint { x, y },
    };
    // a small square, width capped by the half-extent
    let pts = vec![mk(1000, 1000), mk(-1000, 1000), mk(-1000, -1000), mk(1000, -1000)];
    let (chain, width) = section_chain(&pts, 100_000).expect("three or more points");
    assert_eq!(width, 1000);
    assert_eq!(chain.len(), 6);
    // mirrored horizontally; the loop starts and ends on the midpoint of the
    // first two mirrored points
    assert_eq!((chain[0].x, chain[0].y), (0, 1000));
    assert_eq!((chain[1].x, chain[1].y), (1000, 1000));
    assert_eq!((chain[2].x, chain[2].y), (1000, -1000));
    assert_eq!((chain[3].x, chain[3].y), (-1000, -1000));
    assert_eq!((chain[4].x, chain[4].y), (-1000, 1000));
    assert_eq!((chain[5].x, chain[5].y), (0, 1000));

    // fewer than three points: nothing to draw
    let two = vec![mk(0, 0), mk(5, 5)];
    assert!(section_chain(&two, 100_000).is_none());
}
