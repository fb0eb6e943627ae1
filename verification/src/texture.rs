//! Textures: pure functions from a surface coordinate and a point to a
//! colour.  The enum below is the closed set the library evaluates; today
//! it holds only the solid colour, so a diffuse albedo lookup is constant.
//! Procedural textures (a checkerboard, a noise field) rest on floating
//! trigonometry and live with the caller; supporting one here means adding
//! its variant to this enum together with its evaluation and range proof.

use vstd::prelude::*;

verus! {

use crate::color::Color;
use crate::vec3::{V2, V3, Vec2, Vec3};

/// A texture with the same colour everywhere.
#[derive(Copy, Clone, Debug, PartialEq, Eq, Structural)]
pub struct SolidColor {
    color: Color,
}

impl SolidColor {
    pub closed spec fn color_s(self) -> V3 {
        self.color@
    }

    pub fn new(color: Color) -> (r: Self)
        ensures
            r.color_s() == color@,
    {
        Self { color }
    }

    pub fn value(&self, coord: Vec2, point: Vec3) -> (r: Color)
        ensures
            r@ == self.color_s(),
    {
        self.color
    }
}

/// The closed set of textures the library evaluates.
#[derive(Copy, Clone, Debug, PartialEq, Eq, Structural)]
pub enum Texture {
    Solid(SolidColor),
}

/// The colour a texture yields at a surface coordinate and point.
pub open spec fn texture_value_s(t: Texture, coord: V2, point: V3) -> V3 {
    match t {
        Texture::Solid(s) => s.color_s(),
    }
}

/// Whether every colour the texture can yield has channels in `[0, SCALE]`.
pub open spec fn texture_in_range(t: Texture) -> bool {
    match t {
        Texture::Solid(s) => color_in_range(s.color_s()),
    }
}

/// Channels between zero and full intensity.
pub open spec fn color_in_range(c: V3) -> bool {
    &&& 0 <= c.x <= crate::fixed::SCALE as int
    &&& 0 <= c.y <= crate::fixed::SCALE as int
    &&& 0 <= c.z <= crate::fixed::SCALE as int
}

impl Texture {
    pub fn value(&self, coord: Vec2, point: Vec3) -> (r: Color)
        ensures
            r@ == texture_value_s(*self, coord@, point@),
    {
        match self {
            Texture::Solid(s) => s.value(coord, point),
        }
    }
}

} // verus!
