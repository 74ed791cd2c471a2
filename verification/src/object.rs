//! A live drifting object and its per-frame kinematics.
//!
//! Units are decimal fixed point: positions in millionths of a world unit,
//! scales in thousandths, angles in thousandths of a degree, time in
//! milliseconds. Every per-frame effect is linear in the elapsed time, so
//! behaviour is frame-rate independent: the rotation is kept as an
//! accumulated yaw angle rather than a repeatedly rotated vector, and a host
//! derives the actual facing from the spawn-time orientation vector and the
//! yaw when it builds the object's float transform.

use vstd::arithmetic::div_mod::lemma_fundamental_div_mod;
use vstd::arithmetic::div_mod::lemma_fundamental_div_mod_converse;
use vstd::prelude::*;

use crate::geometry::Vec3;

verus! {

/// A full turn, in thousandths of a degree.
pub const FULL_TURN: i64 = 360_000;

/// An object color with 8-bit channels; a host converts to its own color
/// type.
#[derive(Clone, Copy, PartialEq, Eq, Structural, Debug)]
pub struct Color {
    pub r: u8,
    pub g: u8,
    pub b: u8,
    pub a: u8,
}

/// Plain white, the fallback when no palette is configured.
pub fn white() -> (c: Color)
    ensures
        c == (Color { r: 255u8, g: 255u8, b: 255u8, a: 255u8 }),
{
    Color { r: 255, g: 255, b: 255, a: 255 }
}

/// A live object: a handle to its prefab mesh, a position in millionths,
/// the spawn-time orientation vector (thousandths, direction only), the yaw
/// accumulated around the vertical axis and the fixed roll around the travel
/// axis (both in thousandths of a degree), a uniform scale in thousandths,
/// and a color.
///
/// The world transform a renderer derives from this is: translate to the
/// position, roll about the travel axis, pitch by the orientation's
/// elevation, yaw by the orientation's horizontal angle plus the accumulated
/// yaw, then scale uniformly — in that order, since rotations do not
/// commute.
#[derive(Clone, Copy, PartialEq, Eq, Structural, Debug)]
pub struct Object {
    pub prefab: usize,
    pub position: Vec3,
    pub orientation: Vec3,
    pub yaw: i64,
    pub roll: i64,
    pub scale: i64,
    pub color: Color,
}

/// `(-a) * b == -(a * b)`, for the sign-split remainder.
proof fn lemma_neg_mul_obj(a: int, b: int)
    by (nonlinear_arith)
    ensures
        (-a) * b == -(a * b),
        (-a - 1) * b == -(a * b) - b,
{
}

/// The nonnegative remainder of `a` modulo `m`, exact per the mathematical
/// `%`.
pub fn rem_euclid(a: i128, m: i64) -> (r: i64)
    requires
        0 < m,
        -0x4000_0000_0000_0000_0000_0000_0000_0000 < a < 0x4000_0000_0000_0000_0000_0000_0000_0000,
    ensures
        r == a as int % m as int,
        0 <= r < m,
{
    let um: u128 = m as u128;
    if a >= 0 {
        let ur: u128 = (a as u128) % um;
        proof {
            lemma_fundamental_div_mod(a as int, m as int);
        }
        ur as i64
    } else {
        let ua: u128 = (-a) as u128;
        let uq: u128 = ua / um;
        let ur: u128 = ua % um;
        proof {
            let ai = a as int;
            let mi = m as int;
            let uqi = uq as int;
            let uri = ur as int;
            lemma_fundamental_div_mod(ua as int, um as int);
            assert(ai == -(mi * uqi + uri));
            lemma_neg_mul_obj(uqi, mi);
            assert(mi * uqi == uqi * mi) by (nonlinear_arith);
            if ur == 0 {
                assert(ai == (-uqi) * mi + 0);
                lemma_fundamental_div_mod_converse(ai, mi, -uqi, 0);
            } else {
                assert(ai == (-uqi - 1) * mi + (mi - uri));
                lemma_fundamental_div_mod_converse(ai, mi, -uqi - 1, mi - uri);
            }
        }
        if ur == 0 {
            0
        } else {
            (um - ur) as i64
        }
    }
}

impl Object {
    /// A fresh object at `position` instancing the prefab `prefab`: facing
    /// along the first axis, unrolled, unturned, unit scale, white.
    pub fn new(position: Vec3, prefab: usize) -> (o: Object)
        ensures
            o.position == position,
            o.prefab == prefab,
            o.orientation == (Vec3 { x: 1000i64, y: 0i64, z: 0i64 }),
            o.yaw == 0,
            o.roll == 0,
            o.scale == 1000,
            o.color == (Color { r: 255u8, g: 255u8, b: 255u8, a: 255u8 }),
    {
        Object {
            prefab,
            position,
            orientation: Vec3 { x: 1000, y: 0, z: 0 },
            yaw: 0,
            roll: 0,
            scale: 1000,
            color: white(),
        }
    }

    /// Turns the object's facing about the vertical axis by `angle`
    /// thousandths of a degree: the horizontal components of the effective
    /// orientation rotate, the vertical one is untouched. The turn
    /// accumulates in `yaw`, wrapped to one turn.
    pub fn rotate_y(&mut self, angle: i64)
        requires
            0 <= old(self).yaw < FULL_TURN,
        ensures
            final(self).yaw as int == (old(self).yaw + angle) as int % (FULL_TURN as int),
            0 <= final(self).yaw < FULL_TURN,
            final(self).prefab == old(self).prefab,
            final(self).position == old(self).position,
            final(self).orientation == old(self).orientation,
            final(self).roll == old(self).roll,
            final(self).scale == old(self).scale,
            final(self).color == old(self).color,
    {
        let total: i128 = (self.yaw as i128) + (angle as i128);
        self.yaw = rem_euclid(total, FULL_TURN);
    }
}

} // verus!
