//! Materials: what a surface does to the light that arrives at it.
use vstd::prelude::*;
use std::sync::Arc;
use crate::hittable::HitRecord;
use crate::ray::Ray;
use crate::texture::ConstTexture;
use crate::texture::Texture;
use crate::vec3::Color;
use crate::vec3::Point3;
use crate::vec3::Scalar;
use crate::vec3::Vec3;
use crate::vec3::ONE;
use crate::vec3::ZERO;

verus! {

/// The capability of a material: to send an arriving ray on, weakened, or
/// to swallow it; and to give off light of its own.
///
/// What a method may answer is named beside it, and an implementation that
/// does not say what that is leaves it open.
pub trait Material: Sized {
    /// Whether [`Material::scatter`] may answer `out` to this ray and this
    /// intersection. A material that scatters by chance may answer in more
    /// than one way.
    closed spec fn can_scatter(
        &self,
        r_in: Ray,
        rec: HitRecord<Self>,
        out: Option<(Color, Ray)>,
    ) -> bool {
        arbitrary()
    }

    /// The attenuation and the ray that leaves the surface, or `None` where
    /// the surface swallows the ray.
    fn scatter(&self, r_in: &Ray, rec: &HitRecord<Self>) -> (out: Option<(Color, Ray)>)
        ensures
            self.can_scatter(*r_in, *rec, out),
    ;

    /// The light that [`Material::emitted`] reports.
    closed spec fn emitted_spec(&self, u: Scalar, v: Scalar, p: Point3) -> Color {
        arbitrary()
    }

    /// The light that the surface gives off at the surface parameters
    /// `(u, v)` and the point `p`.
    fn emitted(&self, u: Scalar, v: Scalar, p: &Point3) -> (c: Color)
        ensures
            c == self.emitted_spec(u, v, *p),
    ;
}

/// A diffuse surface, coloured by a texture.
pub struct Lambertian<X> {
    pub albedo: Arc<X>,
}

impl Lambertian<ConstTexture> {
    /// A diffuse surface of one colour.
    pub fn new(a: Color) -> (m: Self)
        ensures
            m.albedo.color_value == a,
    {
        Self { albedo: Arc::new(ConstTexture { color_value: a }) }
    }
}

impl<X: Texture> Lambertian<X> {
    /// Scatters along `scatter_direction`, the normal plus a random unit
    /// vector: the ray leaves the point of intersection in that direction,
    /// weakened by the colour of the texture there. A diffuse surface
    /// always scatters, and where its texture stays in the unit range, so
    /// does the attenuation.
    pub fn scatter<M>(&self, rec: &HitRecord<M>, scatter_direction: &Vec3) -> (out: (Color, Ray))
        ensures
            out.0 == self.albedo.value_spec(rec.u, rec.v, rec.p),
            out.1 == (Ray { orig: rec.p, dir: *scatter_direction }),
            self.albedo.value_spec(rec.u, rec.v, rec.p).in_unit_range()
                ==> out.0.in_unit_range(),
    {
        let scattered = Ray { orig: rec.p, dir: *scatter_direction };
        let attenuation = self.albedo.value(rec.u, rec.v, &rec.p);
        (attenuation, scattered)
    }

    /// A diffuse surface gives off no light.
    pub fn emitted(&self, _u: Scalar, _v: Scalar, _p: &Point3) -> (c: Color)
        ensures
            c == Vec3::zero_spec(),
    {
        Color::zero()
    }
}

/// A mirror of a colour, more or less blurred.
pub struct Metal {
    pub albedo: Color,
    pub fuzz: Scalar,
}

impl Metal {
    /// A mirror of colour `a` with blur `f`, where a blur above one counts
    /// as one.
    pub fn new(a: &Color, f: Scalar) -> (m: Self)
        ensures
            m.albedo == *a,
            m.fuzz == if f < ONE {
                f
            } else {
                ONE
            },
    {
        if f < ONE {
            return Self { albedo: *a, fuzz: f };
        }
        Self { albedo: *a, fuzz: ONE }
    }

    /// Scatters along `direction`, the mirrored direction of the arriving
    /// ray plus the blur. `facing` is the dot product of `direction` with
    /// the normal: the surface swallows the ray unless it is positive, that
    /// is unless the ray leaves the surface. The attenuation is the colour
    /// of the mirror, which stays in the unit range where that colour does.
    pub fn scatter<M>(&self, rec: &HitRecord<M>, direction: &Vec3, facing: Scalar) -> (out: Option<
        (Color, Ray),
    >)
        ensures
            out == if facing > ZERO {
                Some((self.albedo, Ray { orig: rec.p, dir: *direction }))
            } else {
                None
            },
            self.albedo.in_unit_range() ==> (out matches Some(s) ==> s.0.in_unit_range()),
    {
        let scattered = Ray { orig: rec.p, dir: *direction };
        if facing > ZERO {
            Some((self.albedo, scattered))
        } else {
            None
        }
    }

    /// A mirror gives off no light.
    pub fn emitted(&self, _u: Scalar, _v: Scalar, _p: &Point3) -> (c: Color)
        ensures
            c == Vec3::zero_spec(),
    {
        Color::zero()
    }
}

/// A clear material that bends light, such as glass.
pub struct Dielectric {
    pub ref_idx: Scalar,
}

impl Dielectric {
    /// A clear material with refractive index `r`.
    pub fn new(r: Scalar) -> (m: Self)
        ensures
            m.ref_idx == r,
    {
        Self { ref_idx: r }
    }

    /// Whether the ray is mirrored rather than bent. `eta_sin` is the ratio
    /// of the refractive indices times the sine of the angle of incidence:
    /// above one no bent ray exists, and the ray is mirrored whatever the
    /// draw. Otherwise it is mirrored where `draw`, a uniform random number
    /// of the unit interval, falls below `reflect_prob`, the reflectance at
    /// that angle.
    pub open spec fn reflects(eta_sin: Scalar, reflect_prob: Scalar, draw: Scalar) -> bool {
        eta_sin > ONE || draw < reflect_prob
    }

    /// Scatters a ray at a clear surface: it leaves the point of
    /// intersection along `reflected` where [`Dielectric::reflects`] says
    /// so, and along `refracted` otherwise. Nothing is absorbed: the
    /// attenuation is white.
    pub fn scatter<M>(
        &self,
        rec: &HitRecord<M>,
        eta_sin: Scalar,
        reflect_prob: Scalar,
        draw: Scalar,
        reflected: &Vec3,
        refracted: &Vec3,
    ) -> (out: (Color, Ray))
        ensures
            out.0 == Vec3::ones_spec(),
            out.1.orig == rec.p,
            out.1.dir == if Dielectric::reflects(eta_sin, reflect_prob, draw) {
                *reflected
            } else {
                *refracted
            },
            eta_sin > ONE ==> out.1.dir == *reflected,
    {
        let attenuation = Color::ones();
        if eta_sin > ONE {
            return (attenuation, Ray { orig: rec.p, dir: *reflected });
        }
        if draw < reflect_prob {
            return (attenuation, Ray { orig: rec.p, dir: *reflected });
        }
        (attenuation, Ray { orig: rec.p, dir: *refracted })
    }

    /// A clear material gives off no light.
    pub fn emitted(&self, _u: Scalar, _v: Scalar, _p: &Point3) -> (c: Color)
        ensures
            c == Vec3::zero_spec(),
    {
        Color::zero()
    }
}

/// A light: it gives off the colour of its texture and scatters nothing.
pub struct DiffuseLight<X> {
    pub emit: Arc<X>,
}

impl DiffuseLight<ConstTexture> {
    /// A light of one colour.
    pub fn new(c: Color) -> (m: Self)
        ensures
            m.emit.color_value == c,
    {
        Self { emit: Arc::new(ConstTexture { color_value: c }) }
    }
}

impl<X: Texture> Material for DiffuseLight<X> {
    open spec fn can_scatter(
        &self,
        r_in: Ray,
        rec: HitRecord<Self>,
        out: Option<(Color, Ray)>,
    ) -> bool {
        out is None
    }

    fn scatter(&self, _r_in: &Ray, _rec: &HitRecord<Self>) -> (out: Option<(Color, Ray)>) {
        None
    }

    open spec fn emitted_spec(&self, u: Scalar, v: Scalar, p: Point3) -> Color {
        self.emit.value_spec(u, v, p)
    }

    fn emitted(&self, u: Scalar, v: Scalar, p: &Point3) -> (c: Color) {
        self.emit.value(u, v, p)
    }
}

} // verus!
