//! The mesh builder: the triangulated unit cube that every spawned object
//! instances, with a fixed winding so the derived normals face outward.

use vstd::prelude::*;

use crate::geometry::Triangle;
use crate::geometry::edge_cross;
use crate::geometry::Vec3;
use crate::geometry::Vertex;
use crate::geometry::vec3_in_range;

verus! {

/// The two corners of the unit segment.
pub fn unit_line() -> (r: [i32; 2])
    ensures
        r[0] == -1i32 && r[1] == 1i32,
{
    [-1, 1]
}

/// The four corners of the axis-aligned unit square, row by row.
pub fn unit_square() -> (r: [(i32, i32); 4])
    ensures
        r[0] == (-1i32, -1i32) && r[1] == (1i32, -1i32) && r[2] == (-1i32, 1i32) && r[3] == (
            1i32,
            1i32,
        ),
{
    [(-1, -1), (1, -1), (-1, 1), (1, 1)]
}

/// The eight corners of the axis-aligned unit cube: the unit square at
/// depth -1, then at depth 1.
pub fn unit_cube() -> (r: [(i32, i32, i32); 8])
    ensures
        forall|i: int| 0 <= i < 8 ==> #[trigger] r[i] == cube_corner(i),
{
    let r = [
        (-1, -1, -1),
        (1, -1, -1),
        (-1, 1, -1),
        (1, 1, -1),
        (-1, -1, 1),
        (1, -1, 1),
        (-1, 1, 1),
        (1, 1, 1),
    ];
    proof {
        assert(forall|i: int| 0 <= i < 8 ==> #[trigger] r[i] == cube_corner(i)) by {
            assert(r[0] == cube_corner(0));
            assert(r[1] == cube_corner(1));
            assert(r[2] == cube_corner(2));
            assert(r[3] == cube_corner(3));
            assert(r[4] == cube_corner(4));
            assert(r[5] == cube_corner(5));
            assert(r[6] == cube_corner(6));
            assert(r[7] == cube_corner(7));
        }
    }
    r
}

/// Corner `i` of the unit cube: the low bit picks the first coordinate's
/// sign, the next the second's, the third bit the depth's.
pub open spec fn cube_corner(i: int) -> (i32, i32, i32) {
    (
        if i % 2 == 1 {
            1i32
        } else {
            -1i32
        },
        if (i / 2) % 2 == 1 {
            1i32
        } else {
            -1i32
        },
        if i / 4 == 1 {
            1i32
        } else {
            -1i32
        },
    )
}

/// Corner `i` of the unit cube as a point.
pub open spec fn cube_corner_vec(i: int) -> Vec3 {
    let (x, y, z) = cube_corner(i);
    Vec3 { x: x as i64, y: y as i64, z: z as i64 }
}

/// The fixed corner triples of the cube's twelve faces' triangles, wound so
/// every derived normal faces outward.
pub open spec fn cube_triangle(t: int) -> (int, int, int) {
    [
        (0int, 3int, 1int),
        (0int, 2int, 3int),
        (0int, 5int, 4int),
        (0int, 1int, 5int),
        (1int, 7int, 5int),
        (1int, 3int, 7int),
        (2int, 4int, 6int),
        (2int, 0int, 4int),
        (3int, 6int, 7int),
        (3int, 2int, 6int),
        (4int, 7int, 6int),
        (4int, 5int, 7int),
    ]@[t]
}

/// A well-formed mesh: whole triangles only, every corner a small integer.
pub open spec fn mesh_wf(m: Seq<Vertex>) -> bool {
    &&& m.len() % 3 == 0
    &&& forall|i: int| 0 <= i < m.len() ==> vec3_in_range((#[trigger] m[i]).a_pos)
}

/// Corner index `j` of cube triangle `t`.
pub open spec fn cube_tri_idx(t: int, j: int) -> int {
    let (a, b, c) = cube_triangle(t);
    if j == 0 {
        a
    } else if j == 1 {
        b
    } else {
        c
    }
}

/// The face normal of cube triangle `t`: the exact cross product of its
/// wound edges.
pub open spec fn cube_tri_normal(t: int) -> (int, int, int) {
    edge_cross(
        cube_corner_vec(cube_tri_idx(t, 0)),
        cube_corner_vec(cube_tri_idx(t, 1)),
        cube_corner_vec(cube_tri_idx(t, 2)),
    )
}

/// The mesh is exactly the triangulated unit cube: twelve corner triples in
/// the fixed winding, each vertex carrying its triangle's edge-cross face
/// normal.
pub open spec fn is_unit_cube_mesh(m: Seq<Vertex>) -> bool {
    &&& m.len() == 36
    &&& forall|t: int, j: int|
        0 <= t < 12 && 0 <= j < 3 ==> (#[trigger] m[3 * t + j]).a_pos == cube_corner_vec(
            cube_tri_idx(t, j),
        )
    &&& forall|t: int, j: int|
        0 <= t < 12 && 0 <= j < 3 ==> ({
            let n = (#[trigger] m[3 * t + j]).a_normal;
            (n.x as int, n.y as int, n.z as int) == cube_tri_normal(t)
        })
}

/// Folds one triangle's pinned corner coordinates and evaluated cross
/// product through `edge_cross` and the outwardness dot product; the twelve
/// cases below supply the evaluation.
proof fn lemma_outward_case(t: int, a: Vec3, b: Vec3, c: Vec3, nx: int, ny: int, nz: int)
    requires
        0 <= t < 12,
        a == cube_corner_vec(cube_tri_idx(t, 0)),
        b == cube_corner_vec(cube_tri_idx(t, 1)),
        c == cube_corner_vec(cube_tri_idx(t, 2)),
        nx == (b.y - a.y) * (c.z - a.z) - (b.z - a.z) * (c.y - a.y),
        ny == (b.z - a.z) * (c.x - a.x) - (b.x - a.x) * (c.z - a.z),
        nz == (b.x - a.x) * (c.y - a.y) - (b.y - a.y) * (c.x - a.x),
        nx * (a.x + b.x + c.x) + ny * (a.y + b.y + c.y) + nz * (a.z + b.z + c.z) > 0,
    ensures
        ({
            let n = cube_tri_normal(t);
            let ca = cube_corner_vec(cube_tri_idx(t, 0));
            let cb = cube_corner_vec(cube_tri_idx(t, 1));
            let cc = cube_corner_vec(cube_tri_idx(t, 2));
            n.0 * (ca.x + cb.x + cc.x) + n.1 * (ca.y + cb.y + cc.y) + n.2 * (ca.z + cb.z + cc.z)
                > 0
        }),
{
    assert(cube_tri_normal(t) == (nx, ny, nz));
}

/// The fixed winding faces outward: each cube triangle's edge-cross normal
/// has a positive dot product with the sum of its corners (three times the
/// triangle's centre, which points out of the cube from the origin).
pub proof fn lemma_cube_normals_outward(t: int)
    requires
        0 <= t < 12,
    ensures
        ({
            let n = cube_tri_normal(t);
            let a = cube_corner_vec(cube_tri_idx(t, 0));
            let b = cube_corner_vec(cube_tri_idx(t, 1));
            let c = cube_corner_vec(cube_tri_idx(t, 2));
            n.0 * (a.x + b.x + c.x) + n.1 * (a.y + b.y + c.y) + n.2 * (a.z + b.z + c.z) > 0
        }),
{
    if t == 0 {
        assert(cube_triangle(0) == (0int, 3int, 1int));
        let av = cube_corner_vec(cube_tri_idx(0, 0));
        let bv = cube_corner_vec(cube_tri_idx(0, 1));
        let cv2 = cube_corner_vec(cube_tri_idx(0, 2));
        assert((bv.y - av.y) * (cv2.z - av.z) - (bv.z - av.z) * (cv2.y - av.y) == 0 && (bv.z
            - av.z) * (cv2.x - av.x) - (bv.x - av.x) * (cv2.z - av.z) == 0 && (bv.x - av.x) * (
        cv2.y - av.y) - (bv.y - av.y) * (cv2.x - av.x) == -4 && (0) * (av.x + bv.x + cv2.x)
            + (0) * (av.y + bv.y + cv2.y) + (-4) * (av.z + bv.z + cv2.z) > 0) by (nonlinear_arith)
            requires
                av.x == -1,
                av.y == -1,
                av.z == -1,
                bv.x == 1,
                bv.y == 1,
                bv.z == -1,
                cv2.x == 1,
                cv2.y == -1,
                cv2.z == -1,
        ;
        lemma_outward_case(0, av, bv, cv2, 0, 0, -4);
    } else if t == 1 {
        assert(cube_triangle(1) == (0int, 2int, 3int));
        let av = cube_corner_vec(cube_tri_idx(1, 0));
        let bv = cube_corner_vec(cube_tri_idx(1, 1));
        let cv2 = cube_corner_vec(cube_tri_idx(1, 2));
        assert((bv.y - av.y) * (cv2.z - av.z) - (bv.z - av.z) * (cv2.y - av.y) == 0 && (bv.z
            - av.z) * (cv2.x - av.x) - (bv.x - av.x) * (cv2.z - av.z) == 0 && (bv.x - av.x) * (
        cv2.y - av.y) - (bv.y - av.y) * (cv2.x - av.x) == -4 && (0) * (av.x + bv.x + cv2.x)
            + (0) * (av.y + bv.y + cv2.y) + (-4) * (av.z + bv.z + cv2.z) > 0) by (nonlinear_arith)
            requires
                av.x == -1,
                av.y == -1,
                av.z == -1,
                bv.x == -1,
                bv.y == 1,
                bv.z == -1,
                cv2.x == 1,
                cv2.y == 1,
                cv2.z == -1,
        ;
        lemma_outward_case(1, av, bv, cv2, 0, 0, -4);
    } else if t == 2 {
        assert(cube_triangle(2) == (0int, 5int, 4int));
        let av = cube_corner_vec(cube_tri_idx(2, 0));
        let bv = cube_corner_vec(cube_tri_idx(2, 1));
        let cv2 = cube_corner_vec(cube_tri_idx(2, 2));
        assert((bv.y - av.y) * (cv2.z - av.z) - (bv.z - av.z) * (cv2.y - av.y) == 0 && (bv.z
            - av.z) * (cv2.x - av.x) - (bv.x - av.x) * (cv2.z - av.z) == -4 && (bv.x - av.x) * (
        cv2.y - av.y) - (bv.y - av.y) * (cv2.x - av.x) == 0 && (0) * (av.x + bv.x + cv2.x)
            + (-4) * (av.y + bv.y + cv2.y) + (0) * (av.z + bv.z + cv2.z) > 0) by (nonlinear_arith)
            requires
                av.x == -1,
                av.y == -1,
                av.z == -1,
                bv.x == 1,
                bv.y == -1,
                bv.z == 1,
                cv2.x == -1,
                cv2.y == -1,
                cv2.z == 1,
        ;
        lemma_outward_case(2, av, bv, cv2, 0, -4, 0);
    } else if t == 3 {
        assert(cube_triangle(3) == (0int, 1int, 5int));
        let av = cube_corner_vec(cube_tri_idx(3, 0));
        let bv = cube_corner_vec(cube_tri_idx(3, 1));
        let cv2 = cube_corner_vec(cube_tri_idx(3, 2));
        assert((bv.y - av.y) * (cv2.z - av.z) - (bv.z - av.z) * (cv2.y - av.y) == 0 && (bv.z
            - av.z) * (cv2.x - av.x) - (bv.x - av.x) * (cv2.z - av.z) == -4 && (bv.x - av.x) * (
        cv2.y - av.y) - (bv.y - av.y) * (cv2.x - av.x) == 0 && (0) * (av.x + bv.x + cv2.x)
            + (-4) * (av.y + bv.y + cv2.y) + (0) * (av.z + bv.z + cv2.z) > 0) by (nonlinear_arith)
            requires
                av.x == -1,
                av.y == -1,
                av.z == -1,
                bv.x == 1,
                bv.y == -1,
                bv.z == -1,
                cv2.x == 1,
                cv2.y == -1,
                cv2.z == 1,
        ;
        lemma_outward_case(3, av, bv, cv2, 0, -4, 0);
    } else if t == 4 {
        assert(cube_triangle(4) == (1int, 7int, 5int));
        let av = cube_corner_vec(cube_tri_idx(4, 0));
        let bv = cube_corner_vec(cube_tri_idx(4, 1));
        let cv2 = cube_corner_vec(cube_tri_idx(4, 2));
        assert((bv.y - av.y) * (cv2.z - av.z) - (bv.z - av.z) * (cv2.y - av.y) == 4 && (bv.z
            - av.z) * (cv2.x - av.x) - (bv.x - av.x) * (cv2.z - av.z) == 0 && (bv.x - av.x) * (
        cv2.y - av.y) - (bv.y - av.y) * (cv2.x - av.x) == 0 && (4) * (av.x + bv.x + cv2.x)
            + (0) * (av.y + bv.y + cv2.y) + (0) * (av.z + bv.z + cv2.z) > 0) by (nonlinear_arith)
            requires
                av.x == 1,
                av.y == -1,
                av.z == -1,
                bv.x == 1,
                bv.y == 1,
                bv.z == 1,
                cv2.x == 1,
                cv2.y == -1,
                cv2.z == 1,
        ;
        lemma_outward_case(4, av, bv, cv2, 4, 0, 0);
    } else if t == 5 {
        assert(cube_triangle(5) == (1int, 3int, 7int));
        let av = cube_corner_vec(cube_tri_idx(5, 0));
        let bv = cube_corner_vec(cube_tri_idx(5, 1));
        let cv2 = cube_corner_vec(cube_tri_idx(5, 2));
        assert((bv.y - av.y) * (cv2.z - av.z) - (bv.z - av.z) * (cv2.y - av.y) == 4 && (bv.z
            - av.z) * (cv2.x - av.x) - (bv.x - av.x) * (cv2.z - av.z) == 0 && (bv.x - av.x) * (
        cv2.y - av.y) - (bv.y - av.y) * (cv2.x - av.x) == 0 && (4) * (av.x + bv.x + cv2.x)
            + (0) * (av.y + bv.y + cv2.y) + (0) * (av.z + bv.z + cv2.z) > 0) by (nonlinear_arith)
            requires
                av.x == 1,
                av.y == -1,
                av.z == -1,
                bv.x == 1,
                bv.y == 1,
                bv.z == -1,
                cv2.x == 1,
                cv2.y == 1,
                cv2.z == 1,
        ;
        lemma_outward_case(5, av, bv, cv2, 4, 0, 0);
    } else if t == 6 {
        assert(cube_triangle(6) == (2int, 4int, 6int));
        let av = cube_corner_vec(cube_tri_idx(6, 0));
        let bv = cube_corner_vec(cube_tri_idx(6, 1));
        let cv2 = cube_corner_vec(cube_tri_idx(6, 2));
        assert((bv.y - av.y) * (cv2.z - av.z) - (bv.z - av.z) * (cv2.y - av.y) == -4 && (bv.z
            - av.z) * (cv2.x - av.x) - (bv.x - av.x) * (cv2.z - av.z) == 0 && (bv.x - av.x) * (
        cv2.y - av.y) - (bv.y - av.y) * (cv2.x - av.x) == 0 && (-4) * (av.x + bv.x + cv2.x)
            + (0) * (av.y + bv.y + cv2.y) + (0) * (av.z + bv.z + cv2.z) > 0) by (nonlinear_arith)
            requires
                av.x == -1,
                av.y == 1,
                av.z == -1,
                bv.x == -1,
                bv.y == -1,
                bv.z == 1,
                cv2.x == -1,
                cv2.y == 1,
                cv2.z == 1,
        ;
        lemma_outward_case(6, av, bv, cv2, -4, 0, 0);
    } else if t == 7 {
        assert(cube_triangle(7) == (2int, 0int, 4int));
        let av = cube_corner_vec(cube_tri_idx(7, 0));
        let bv = cube_corner_vec(cube_tri_idx(7, 1));
        let cv2 = cube_corner_vec(cube_tri_idx(7, 2));
        assert((bv.y - av.y) * (cv2.z - av.z) - (bv.z - av.z) * (cv2.y - av.y) == -4 && (bv.z
            - av.z) * (cv2.x - av.x) - (bv.x - av.x) * (cv2.z - av.z) == 0 && (bv.x - av.x) * (
        cv2.y - av.y) - (bv.y - av.y) * (cv2.x - av.x) == 0 && (-4) * (av.x + bv.x + cv2.x)
            + (0) * (av.y + bv.y + cv2.y) + (0) * (av.z + bv.z + cv2.z) > 0) by (nonlinear_arith)
            requires
                av.x == -1,
                av.y == 1,
                av.z == -1,
                bv.x == -1,
                bv.y == -1,
                bv.z == -1,
                cv2.x == -1,
                cv2.y == -1,
                cv2.z == 1,
        ;
        lemma_outward_case(7, av, bv, cv2, -4, 0, 0);
    } else if t == 8 {
        assert(cube_triangle(8) == (3int, 6int, 7int));
        let av = cube_corner_vec(cube_tri_idx(8, 0));
        let bv = cube_corner_vec(cube_tri_idx(8, 1));
        let cv2 = cube_corner_vec(cube_tri_idx(8, 2));
        assert((bv.y - av.y) * (cv2.z - av.z) - (bv.z - av.z) * (cv2.y - av.y) == 0 && (bv.z
            - av.z) * (cv2.x - av.x) - (bv.x - av.x) * (cv2.z - av.z) == 4 && (bv.x - av.x) * (
        cv2.y - av.y) - (bv.y - av.y) * (cv2.x - av.x) == 0 && (0) * (av.x + bv.x + cv2.x)
            + (4) * (av.y + bv.y + cv2.y) + (0) * (av.z + bv.z + cv2.z) > 0) by (nonlinear_arith)
            requires
                av.x == 1,
                av.y == 1,
                av.z == -1,
                bv.x == -1,
                bv.y == 1,
                bv.z == 1,
                cv2.x == 1,
                cv2.y == 1,
                cv2.z == 1,
        ;
        lemma_outward_case(8, av, bv, cv2, 0, 4, 0);
    } else if t == 9 {
        assert(cube_triangle(9) == (3int, 2int, 6int));
        let av = cube_corner_vec(cube_tri_idx(9, 0));
        let bv = cube_corner_vec(cube_tri_idx(9, 1));
        let cv2 = cube_corner_vec(cube_tri_idx(9, 2));
        assert((bv.y - av.y) * (cv2.z - av.z) - (bv.z - av.z) * (cv2.y - av.y) == 0 && (bv.z
            - av.z) * (cv2.x - av.x) - (bv.x - av.x) * (cv2.z - av.z) == 4 && (bv.x - av.x) * (
        cv2.y - av.y) - (bv.y - av.y) * (cv2.x - av.x) == 0 && (0) * (av.x + bv.x + cv2.x)
            + (4) * (av.y + bv.y + cv2.y) + (0) * (av.z + bv.z + cv2.z) > 0) by (nonlinear_arith)
            requires
                av.x == 1,
                av.y == 1,
                av.z == -1,
                bv.x == -1,
                bv.y == 1,
                bv.z == -1,
                cv2.x == -1,
                cv2.y == 1,
                cv2.z == 1,
        ;
        lemma_outward_case(9, av, bv, cv2, 0, 4, 0);
    } else if t == 10 {
        assert(cube_triangle(10) == (4int, 7int, 6int));
        let av = cube_corner_vec(cube_tri_idx(10, 0));
        let bv = cube_corner_vec(cube_tri_idx(10, 1));
        let cv2 = cube_corner_vec(cube_tri_idx(10, 2));
        assert((bv.y - av.y) * (cv2.z - av.z) - (bv.z - av.z) * (cv2.y - av.y) == 0 && (bv.z
            - av.z) * (cv2.x - av.x) - (bv.x - av.x) * (cv2.z - av.z) == 0 && (bv.x - av.x) * (
        cv2.y - av.y) - (bv.y - av.y) * (cv2.x - av.x) == 4 && (0) * (av.x + bv.x + cv2.x)
            + (0) * (av.y + bv.y + cv2.y) + (4) * (av.z + bv.z + cv2.z) > 0) by (nonlinear_arith)
            requires
                av.x == -1,
                av.y == -1,
                av.z == 1,
                bv.x == 1,
                bv.y == 1,
                bv.z == 1,
                cv2.x == -1,
                cv2.y == 1,
                cv2.z == 1,
        ;
        lemma_outward_case(10, av, bv, cv2, 0, 0, 4);
    } else {
        assert(cube_triangle(11) == (4int, 5int, 7int));
        let av = cube_corner_vec(cube_tri_idx(11, 0));
        let bv = cube_corner_vec(cube_tri_idx(11, 1));
        let cv2 = cube_corner_vec(cube_tri_idx(11, 2));
        assert((bv.y - av.y) * (cv2.z - av.z) - (bv.z - av.z) * (cv2.y - av.y) == 0 && (bv.z
            - av.z) * (cv2.x - av.x) - (bv.x - av.x) * (cv2.z - av.z) == 0 && (bv.x - av.x) * (
        cv2.y - av.y) - (bv.y - av.y) * (cv2.x - av.x) == 4 && (0) * (av.x + bv.x + cv2.x)
            + (0) * (av.y + bv.y + cv2.y) + (4) * (av.z + bv.z + cv2.z) > 0) by (nonlinear_arith)
            requires
                av.x == -1,
                av.y == -1,
                av.z == 1,
                bv.x == 1,
                bv.y == -1,
                bv.z == 1,
                cv2.x == 1,
                cv2.y == 1,
                cv2.z == 1,
        ;
        lemma_outward_case(11, av, bv, cv2, 0, 0, 4);
    }
}

/// The triangulated unit cube: twelve triangles, three vertices each, in the
/// fixed winding of `cube_triangle`, every vertex carrying its face normal.
pub fn unit_cube_triangulated() -> (r: Vec<Vertex>)
    ensures
        r@.len() == 36,
        mesh_wf(r@),
        is_unit_cube_mesh(r@),
{
    let corners: [(i32, i32, i32); 8] = unit_cube();
    let triangles: [(usize, usize, usize); 12] = [
        (0, 3, 1),
        (0, 2, 3),
        (0, 5, 4),
        (0, 1, 5),
        (1, 7, 5),
        (1, 3, 7),
        (2, 4, 6),
        (2, 0, 4),
        (3, 6, 7),
        (3, 2, 6),
        (4, 7, 6),
        (4, 5, 7),
    ];
    let mut out: Vec<Vertex> = Vec::new();
    let mut t: usize = 0;
    while t < 12
        invariant
            0 <= t <= 12,
            out@.len() == 3 * t,
            forall|i: int| 0 <= i < out@.len() ==> vec3_in_range((#[trigger] out@[i]).a_pos),
            forall|u: int, j: int|
                0 <= u < t && 0 <= j < 3 ==> (#[trigger] out@[3 * u + j]).a_pos == cube_corner_vec(
                    cube_tri_idx(u, j),
                ),
            forall|u: int, j: int|
                0 <= u < t && 0 <= j < 3 ==> ({
                    let n = (#[trigger] out@[3 * u + j]).a_normal;
                    (n.x as int, n.y as int, n.z as int) == cube_tri_normal(u)
                }),
            forall|i: int|
                0 <= i < 12 ==> #[trigger] triangles@[i] == ({
                    let (a, b, c) = cube_triangle(i);
                    (a as usize, b as usize, c as usize)
                }),
            forall|i: int| 0 <= i < 8 ==> #[trigger] corners@[i] == cube_corner(i),
        decreases 12 - t,
    {
        let (ia, ib, ic) = triangles[t];
        proof {
            assert(triangles@[t as int] == ({
                let (a, b, c) = cube_triangle(t as int);
                (a as usize, b as usize, c as usize)
            }));
            assert(0 <= cube_triangle(t as int).0 < 8 && 0 <= cube_triangle(t as int).1 < 8 && 0
                <= cube_triangle(t as int).2 < 8) by {
                reveal_with_fuel(cube_triangle, 1);
            }
        }
        let pa = corners[ia];
        let pb = corners[ib];
        let pc = corners[ic];
        let va = Vec3 { x: pa.0 as i64, y: pa.1 as i64, z: pa.2 as i64 };
        let vb = Vec3 { x: pb.0 as i64, y: pb.1 as i64, z: pb.2 as i64 };
        let vc = Vec3 { x: pc.0 as i64, y: pc.1 as i64, z: pc.2 as i64 };
        let tri = Triangle::new(va, vb, vc);
        let verts = tri.into_vertices();
        out.push(verts[0]);
        out.push(verts[1]);
        out.push(verts[2]);
        t += 1;
    }
    out
}

} // verus!
