//! The path integrator, and the way a colour becomes a pixel.
use vstd::prelude::*;
use crate::hittable::HitTable;
use crate::material::Material;
use crate::ray::Ray;
use crate::render::raster_pixels;
use crate::render::raster_size;
use crate::render::Raster;
use crate::render::Rgb8;
use crate::rtweekend::clamp;
use crate::rtweekend::spec_clamp;
use crate::vec3::Color;
use crate::vec3::Scalar;
use crate::vec3::Vec3;
use crate::vec3::INFINITY;
use crate::vec3::ZERO;

verus! {

/// The key of one thousandth: intersections closer to the origin of a ray
/// than this are not counted, so that a ray does not hit the surface that
/// it has just left.
pub const T_MIN: Scalar = 0x3f50_624d_d2f1_a9fc;

/// One scatter event on a path: the light that the surface gives off, the
/// attenuation that it applies to what arrives from further on, and the ray
/// on which the path goes on.
pub struct Bounce {
    pub emitted: Color,
    pub attenuation: Color,
    pub scattered: Ray,
}

/// The path of one camera ray through the scene.
///
/// Its radiance is `last` where there are no bounces, and otherwise the
/// light emitted at the first bounce plus, channel by channel, the
/// attenuation of that bounce times the radiance of the rest of the path.
pub struct Path {
    pub bounces: Vec<Bounce>,
    pub last: Color,
}

/// Whether `bounces` and `last` are a path of the ray `r` through `world`
/// with `depth` bounces to spare.
///
/// With no bounce to spare the path ends in black. A ray that hits nothing
/// ends in the background. A ray that hits a surface which swallows it ends
/// in the light that the surface gives off. Otherwise the first bounce
/// holds that light, with an attenuation and a scattered ray that the
/// material may answer, and the rest is a path of the scattered ray with
/// one bounce less to spare.
pub open spec fn is_path<M: Material, W: HitTable<Mat = M>>(
    r: Ray,
    background: Color,
    world: W,
    depth: int,
    bounces: Seq<Bounce>,
    last: Color,
) -> bool
    decreases bounces.len(),
{
    if depth <= 0 {
        bounces.len() == 0 && last == Vec3::zero_spec()
    } else {
        match world.hit_spec(r, T_MIN, INFINITY) {
            None => bounces.len() == 0 && last == background,
            Some(rec) => {
                let emitted = rec.mat_ptr.emitted_spec(rec.u, rec.v, rec.p);
                if bounces.len() == 0 {
                    last == emitted && rec.mat_ptr.can_scatter(r, rec, None)
                } else {
                    &&& bounces[0].emitted == emitted
                    &&& rec.mat_ptr.can_scatter(
                        r,
                        rec,
                        Some((bounces[0].attenuation, bounces[0].scattered)),
                    )
                    &&& is_path(
                        bounces[0].scattered,
                        background,
                        world,
                        depth - 1,
                        bounces.drop_first(),
                        last,
                    )
                }
            },
        }
    }
}

/// A path has no more bounces than were to spare.
pub proof fn lemma_path_is_bounded<M: Material, W: HitTable<Mat = M>>(
    r: Ray,
    background: Color,
    world: W,
    depth: int,
    bounces: Seq<Bounce>,
    last: Color,
)
    requires
        is_path(r, background, world, depth, bounces, last),
    ensures
        bounces.len() == 0 || bounces.len() <= depth,
    decreases bounces.len(),
{
    if depth > 0 && bounces.len() > 0 {
        lemma_path_is_bounded(
            bounces[0].scattered,
            background,
            world,
            depth - 1,
            bounces.drop_first(),
            last,
        );
    }
}

/// Follows the ray `r` through `world` for at most `depth` bounces and
/// returns its path, as [`is_path`] describes it: at each intersection the
/// material is asked for the light that it gives off and for the scattered
/// ray, and the path goes on along that ray until the bounces are used up,
/// the ray leaves the scene or a surface swallows it.
pub fn ray_color<M: Material, W: HitTable<Mat = M>>(
    r: &Ray,
    background: &Color,
    world: &W,
    depth: i64,
) -> (path: Path)
    ensures
        is_path(*r, *background, *world, depth as int, path.bounces@, path.last),
{
    let mut bounces: Vec<Bounce> = Vec::new();
    let mut ray = *r;
    let mut left = depth;
    assert(bounces@ + Seq::<Bounce>::empty() == bounces@);
    while left > 0
        invariant
            forall|rest: Seq<Bounce>, last: Color| #[trigger]
                is_path(ray, *background, *world, left as int, rest, last) ==> is_path(
                    *r,
                    *background,
                    *world,
                    depth as int,
                    bounces@ + rest,
                    last,
                ),
        decreases left,
    {
        match world.hit(&ray, T_MIN, INFINITY) {
            None => {
                assert(is_path(
                    ray,
                    *background,
                    *world,
                    left as int,
                    Seq::<Bounce>::empty(),
                    *background,
                ));
                assert(bounces@ + Seq::<Bounce>::empty() == bounces@);
                return Path { bounces, last: *background };
            },
            Some(rec) => {
                let emitted = rec.mat_ptr.emitted(rec.u, rec.v, &rec.p);
                match rec.mat_ptr.scatter(&ray, &rec) {
                    None => {
                        assert(is_path(
                            ray,
                            *background,
                            *world,
                            left as int,
                            Seq::<Bounce>::empty(),
                            emitted,
                        ));
                        assert(bounces@ + Seq::<Bounce>::empty() == bounces@);
                        return Path { bounces, last: emitted };
                    },
                    Some((attenuation, scattered)) => {
                        let bounce = Bounce { emitted, attenuation, scattered };
                        let ghost before = bounces@;
                        assert forall|rest: Seq<Bounce>, last: Color| #[trigger]
                            is_path(
                                scattered,
                                *background,
                                *world,
                                left - 1,
                                rest,
                                last,
                            ) implies is_path(
                            *r,
                            *background,
                            *world,
                            depth as int,
                            before.push(bounce) + rest,
                            last,
                        ) by {
                            let longer = seq![bounce] + rest;
                            assert(longer.drop_first() == rest);
                            assert(longer[0] == bounce);
                            assert(is_path(ray, *background, *world, left as int, longer, last));
                            assert(before + longer == before.push(bounce) + rest);
                        }
                        bounces.push(bounce);
                        ray = scattered;
                        left = left - 1;
                    },
                }
            },
        }
    }
    assert(is_path(
        ray,
        *background,
        *world,
        left as int,
        Seq::<Bounce>::empty(),
        Vec3::zero_spec(),
    ));
    assert(bounces@ + Seq::<Bounce>::empty() == bounces@);
    Path { bounces, last: Color::zero() }
}

/// The key of 0.999, the brightest that a channel gets.
pub const NEARLY_ONE: Scalar = 0x3fef_f7ce_d916_872b;

/// The key of 1/256, the least number that reaches the level one.
pub const LEAST_LEVEL: Scalar = 0x3f70_0000_0000_0000;

/// The whole part of 256 times the number behind a key between 1/256 and
/// 0.999. The key holds the number as a binary fraction `1.m` times a power
/// of two between 1/256 and 1/2: the fraction, with its leading one put
/// back, is shifted right until 256 times the power of two is the unit.
pub open spec fn whole_of_256_times(c: u64) -> u64 {
    ((c & 0x000f_ffff_ffff_ffff) | 0x0010_0000_0000_0000) >> ((1067 - (c >> 52)) as u64)
}

/// The level, from 0 to 255, of a channel: the channel is clamped to
/// `[0, 0.999]`, and its level is the whole part of 256 times what is left,
/// which is zero below 1/256.
pub open spec fn spec_level(c: Scalar) -> u8 {
    let clamped = spec_clamp(c, ZERO, NEARLY_ONE);
    if clamped < LEAST_LEVEL {
        0
    } else {
        whole_of_256_times(clamped as u64) as u8
    }
}

/// The level of a channel, as [`spec_level`] says.
pub fn level(c: Scalar) -> (l: u8)
    ensures
        l == spec_level(c),
{
    let clamped = clamp(c, ZERO, NEARLY_ONE);
    if clamped < LEAST_LEVEL {
        return 0;
    }
    let bits = clamped as u64;
    let exponent = bits >> 52;
    let fraction = (bits & 0x000f_ffff_ffff_ffff) | 0x0010_0000_0000_0000;
    assert(1015 <= exponent <= 1022) by (bit_vector)
        requires
            0x3f70_0000_0000_0000 <= bits <= 0x3fef_f7ce_d916_872b,
            exponent == bits >> 52,
    ;
    let shift = 1067 - exponent;
    let whole = fraction >> shift;
    assert(whole <= 255) by (bit_vector)
        requires
            0x3f70_0000_0000_0000 <= bits <= 0x3fef_f7ce_d916_872b,
            fraction == (bits & 0x000f_ffff_ffff_ffff) | 0x0010_0000_0000_0000,
            shift == 1067 - (bits >> 52),
            whole == fraction >> shift,
    ;
    whole as u8
}

/// A brighter channel never gets a lower level; zero and all below it get
/// the level 0, 0.999 and all above it the level 255.
pub proof fn lemma_level_is_monotone(a: Scalar, b: Scalar)
    requires
        a <= b,
    ensures
        spec_level(a) <= spec_level(b),
        a <= ZERO ==> spec_level(a) == 0,
        b >= NEARLY_ONE ==> spec_level(b) == 255,
{
    let x = spec_clamp(a, ZERO, NEARLY_ONE) as u64;
    let y = spec_clamp(b, ZERO, NEARLY_ONE) as u64;
    assert(whole_of_256_times(0x3fef_f7ce_d916_872bu64) as u8 == 255) by (bit_vector);
    if x >= LEAST_LEVEL {
        assert(whole_of_256_times(x) as u8 <= whole_of_256_times(y) as u8) by (bit_vector)
            requires
                0x3f70_0000_0000_0000 <= x <= y <= 0x3fef_f7ce_d916_872b,
        ;
    }
}

/// The pixel of a colour whose channels are already averaged and
/// gamma-corrected: the level of each channel.
pub open spec fn spec_pixel_of(pixel_color: Color) -> Rgb8 {
    (spec_level(pixel_color.x), spec_level(pixel_color.y), spec_level(pixel_color.z))
}

/// Writes the colour `pixel_color`, averaged and gamma-corrected, to the
/// pixel in column `pixel_x` of row `pixel_y`. Outside the raster nothing
/// is written, and `false` comes back.
pub fn write_color(img: &mut Raster, pixel_x: u32, pixel_y: u32, pixel_color: &Color) -> (written:
    bool)
    ensures
        written == (pixel_x < old(img).width() && pixel_y < old(img).height()),
        raster_size(*final(img)) == raster_size(*old(img)),
        raster_pixels(*final(img)) == if written {
            raster_pixels(*old(img)).insert(
                (pixel_x as int, pixel_y as int),
                spec_pixel_of(*pixel_color),
            )
        } else {
            raster_pixels(*old(img))
        },
{
    let r = level(pixel_color.x);
    let g = level(pixel_color.y);
    let b = level(pixel_color.z);
    img.put_pixel(pixel_x, pixel_y, (r, g, b))
}

} // verus!
