//! Textures: the colour of a surface, point by point.
use vstd::prelude::*;
use std::sync::Arc;
use crate::vec3::Color;
use crate::vec3::Scalar;
use crate::vec3::Vec3;
use crate::vec3::ZERO;

verus! {

/// The capability of a texture: a colour for every point of a surface.
///
/// The colour is a function of the arguments; an implementation that does
/// not say what it is leaves it open.
pub trait Texture {
    /// The colour that [`Texture::value`] reports.
    closed spec fn value_spec(&self, u: Scalar, v: Scalar, p: Vec3) -> Color {
        arbitrary()
    }

    /// The colour at the surface parameters `(u, v)` and the point `p`.
    fn value(&self, u: Scalar, v: Scalar, p: &Vec3) -> (c: Color)
        ensures
            c == self.value_spec(u, v, *p),
    ;
}

/// One colour everywhere.
pub struct ConstTexture {
    pub color_value: Color,
}

impl Texture for ConstTexture {
    open spec fn value_spec(&self, u: Scalar, v: Scalar, p: Vec3) -> Color {
        self.color_value
    }

    fn value(&self, _u: Scalar, _v: Scalar, _p: &Vec3) -> (c: Color) {
        self.color_value
    }
}

/// A checkerboard in space that alternates between two textures.
pub struct CheckerTexture<O, E> {
    pub odd: Arc<O>,
    pub even: Arc<E>,
}

impl CheckerTexture<ConstTexture, ConstTexture> {
    /// The checkerboard of the plain colours `c1`, on the odd cells, and
    /// `c2`, on the even ones.
    pub fn new(c1: Color, c2: Color) -> (board: Self)
        ensures
            board.odd.color_value == c1,
            board.even.color_value == c2,
    {
        Self {
            odd: Arc::new(ConstTexture { color_value: c1 }),
            even: Arc::new(ConstTexture { color_value: c2 }),
        }
    }
}

impl<O: Texture, E: Texture> CheckerTexture<O, E> {
    /// The colour of the cell that a point lies in. `sines` is the product
    /// of the sines of ten times each coordinate of `p`: the cell is odd
    /// exactly when it is negative.
    pub fn value(&self, sines: Scalar, u: Scalar, v: Scalar, p: &Vec3) -> (c: Color)
        ensures
            c == if sines < ZERO {
                self.odd.value_spec(u, v, *p)
            } else {
                self.even.value_spec(u, v, *p)
            },
    {
        if sines < ZERO {
            return self.odd.value(u, v, p);
        }
        self.even.value(u, v, p)
    }
}

} // verus!
