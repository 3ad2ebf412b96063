//! Textures: solid colors and the checker pattern.
//!
//! Textures live in one shared table and refer to each other by index, so
//! one instance can back many materials. The checker pattern alternates its
//! two sub-textures over cubic cells about a tenth of a unit wide: the cell
//! of a point is the floor of each coordinate scaled by ten and divided by
//! pi, and the parity of the three cell numbers picks the sub-texture (where
//! the classical form reads the sign of a product of three sines, which
//! flips at exactly those cell boundaries).

use vstd::prelude::*;
use crate::fx::{SCALE, floor_div128};
use crate::vec3::{Vec3, Point3, Color};

verus! {

/// Fixed-point value of pi.
pub const PI_FX: i64 = 205887;

/// Colors are componentwise within the unit interval.
pub open spec fn color_ok(c: Color) -> bool {
    0 <= c.x <= SCALE && 0 <= c.y <= SCALE && 0 <= c.z <= SCALE
}

#[derive(Clone, Copy, PartialEq, Eq, Structural, Debug)]
pub struct SolidColor {
    pub color: Color,
}

impl SolidColor {
    pub fn new(red: i64, green: i64, blue: i64) -> (r: SolidColor)
        requires
            0 <= red <= SCALE,
            0 <= green <= SCALE,
            0 <= blue <= SCALE,
        ensures
            r.color == (Vec3 { x: red, y: green, z: blue }),
            color_ok(r.color),
    {
        SolidColor { color: Vec3 { x: red, y: green, z: blue } }
    }
}

/// The checker refers to its two sub-textures by index; an index must point
/// earlier in the table than the checker itself stands (the table is built
/// append-only), or evaluation falls back to black.
#[derive(Clone, Copy, PartialEq, Eq, Structural, Debug)]
pub struct Checker {
    pub odd: usize,
    pub even: usize,
}

impl Checker {
    pub fn new(odd: usize, even: usize) -> (r: Checker)
        ensures
            r == (Checker { odd, even }),
    {
        Checker { odd, even }
    }
}

#[derive(Clone, Copy, PartialEq, Eq, Structural, Debug)]
pub enum Texture {
    Solid(SolidColor),
    Checker(Checker),
}

/// Whether the point's checker cell is an odd one.
pub open spec fn checker_odd(p: Vec3) -> bool {
    let kx = (10 * p.x) / (PI_FX as int);
    let ky = (10 * p.y) / (PI_FX as int);
    let kz = (10 * p.z) / (PI_FX as int);
    (kx + ky + kz) % 2 == 1
}

/// The color a texture yields at surface parameters `(u, v)` and point `p`.
/// An index outside the table, or a checker whose sub-texture does not stand
/// earlier in the table, yields black.
pub open spec fn texture_value_spec(texs: Seq<Texture>, id: int, u: int, v: int, p: Vec3) -> Color
    decreases id,
{
    if id < 0 || id >= texs.len() {
        Vec3 { x: 0, y: 0, z: 0 }
    } else {
        match texs[id] {
            Texture::Solid(sc) => sc.color,
            Texture::Checker(ck) => {
                let pick = if checker_odd(p) {
                    ck.odd as int
                } else {
                    ck.even as int
                };
                if pick < id {
                    texture_value_spec(texs, pick, u, v, p)
                } else {
                    Vec3 { x: 0, y: 0, z: 0 }
                }
            },
        }
    }
}

/// Whether the point lands on an odd checker cell.
fn checker_odd_exec(p: &Point3) -> (r: bool)
    ensures
        r == checker_odd(*p),
{
    let kx = floor_div128(10 * (p.x as i128), PI_FX as i128);
    let ky = floor_div128(10 * (p.y as i128), PI_FX as i128);
    let kz = floor_div128(10 * (p.z as i128), PI_FX as i128);
    let sum = kx + ky + kz;
    let half = floor_div128(sum, 2);
    proof {
        vstd::arithmetic::div_mod::lemma_fundamental_div_mod(sum as int, 2);
        vstd::arithmetic::div_mod::lemma_mod_bound(sum as int, 2);
    }
    sum - 2 * half == 1
}

/// Evaluate the texture at index `id` of the table.
pub fn texture_value(textures: &Vec<Texture>, id: usize, u: i64, v: i64, p: &Point3) -> (c: Color)
    ensures
        c == texture_value_spec(textures@, id as int, u as int, v as int, *p),
    decreases id,
{
    if id >= textures.len() {
        return Vec3 { x: 0, y: 0, z: 0 };
    }
    match &textures[id] {
        Texture::Solid(sc) => sc.color,
        Texture::Checker(ck) => {
            let pick = if checker_odd_exec(p) {
                ck.odd
            } else {
                ck.even
            };
            if pick < id {
                texture_value(textures, pick, u, v, p)
            } else {
                Vec3 { x: 0, y: 0, z: 0 }
            }
        },
    }
}

/// A texture table whose entries only point backwards yields colors in the
/// unit interval (the fallback black included).
pub open spec fn textures_ok(texs: Seq<Texture>) -> bool {
    forall|i: int|
        0 <= i < texs.len() ==> match #[trigger] texs[i] {
            Texture::Solid(sc) => color_ok(sc.color),
            Texture::Checker(ck) => true,
        }
}

/// Every value a well-formed texture table yields is a unit-interval color.
pub proof fn lemma_texture_value_ok(texs: Seq<Texture>, id: int, u: int, v: int, p: Vec3)
    requires
        textures_ok(texs),
    ensures
        color_ok(texture_value_spec(texs, id, u, v, p)),
    decreases id,
{
    if id < 0 || id >= texs.len() {
    } else {
        match texs[id] {
            Texture::Solid(sc) => {},
            Texture::Checker(ck) => {
                let pick = if checker_odd(p) {
                    ck.odd as int
                } else {
                    ck.even as int
                };
                if pick < id {
                    lemma_texture_value_ok(texs, pick, u, v, p);
                }
            },
        }
    }
}

} // verus!
