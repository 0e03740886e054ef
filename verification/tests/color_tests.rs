use raytracer::aabb::AABB;
use raytracer::bvh::BVHNode;
use raytracer::color::{level, ray_color, write_color, Path, T_MIN};
use raytracer::hittable::{nearest_root, HitRecord, HitTable};
use raytracer::hittablelist::HitTableList;
use raytracer::material::{Lambertian, Material};
use raytracer::ray::Ray;
use raytracer::render::{assemble, render_rows, row_range, Raster};
use raytracer::texture::ConstTexture;
use raytracer::vec3::{Color, Point3, Vec3};
use std::sync::Arc;

fn key(x: f64) -> i64 {
    let x = if x == 0.0 { 0.0 } else { x };
    let bits = x.to_bits() as i64;
    if bits >= 0 {
        bits
    } else {
        bits ^ i64::MAX
    }
}

fn num(k: i64) -> f64 {
    let bits = if k >= 0 { k } else { k ^ i64::MAX };
    f64::from_bits(bits as u64)
}

fn cross(lo: i64, hi: i64, orig: i64, dir: i64) -> (i64, i64) {
    let inv_d = 1.0 / num(dir);
    let mut t0 = (num(lo) - num(orig)) * inv_d;
    let mut t1 = (num(hi) - num(orig)) * inv_d;
    if inv_d < 0.0 {
        std::mem::swap(&mut t0, &mut t1);
    }
    let t0 = if t0.is_nan() { f64::NEG_INFINITY } else { t0 };
    let t1 = if t1.is_nan() { f64::INFINITY } else { t1 };
    (key(t0), key(t1))
}

fn v(x: f64, y: f64, z: f64) -> Vec3 {
    Vec3::new(key(x), key(y), key(z))
}

/// The materials of the test scenes.
enum Surface {
    /// Scatters straight along the normal.
    Diffuse(Lambertian<ConstTexture>),
    /// Gives off light and swallows the ray.
    Lamp(Color),
}

impl Material for Surface {
    fn scatter(&self, _r_in: &Ray, rec: &HitRecord<Self>) -> Option<(Color, Ray)> {
        match self {
            Surface::Diffuse(m) => Some(m.scatter(rec, &rec.normal)),
            Surface::Lamp(_) => None,
        }
    }

    fn emitted(&self, u: i64, v: i64, p: &Point3) -> Color {
        match self {
            Surface::Diffuse(m) => m.emitted(u, v, p),
            Surface::Lamp(c) => *c,
        }
    }
}

struct Ball {
    center: [f64; 3],
    radius: f64,
    mat: Arc<Surface>,
}

impl HitTable for Ball {
    type Mat = Surface;

    fn hit(&self, r: &Ray, t_min: i64, t_max: i64) -> Option<HitRecord<Surface>> {
        let o = [num(r.orig.x), num(r.orig.y), num(r.orig.z)];
        let d = [num(r.dir.x), num(r.dir.y), num(r.dir.z)];
        let oc = [o[0] - self.center[0], o[1] - self.center[1], o[2] - self.center[2]];
        let a = d[0] * d[0] + d[1] * d[1] + d[2] * d[2];
        let b = oc[0] * d[0] + oc[1] * d[1] + oc[2] * d[2];
        let c = oc[0] * oc[0] + oc[1] * oc[1] + oc[2] * oc[2] - self.radius * self.radius;
        let discriminant = b * b - a * c;
        let (near, far) = if discriminant > 0.0 {
            let root = discriminant.sqrt();
            ((-b - root) / a, (-b + root) / a)
        } else {
            (0.0, 0.0)
        };
        let t = nearest_root(key(discriminant), key(near), key(far), t_min, t_max)?;
        let at = num(t);
        let p = [o[0] + at * d[0], o[1] + at * d[1], o[2] + at * d[2]];
        let n = [
            (p[0] - self.center[0]) / self.radius,
            (p[1] - self.center[1]) / self.radius,
            (p[2] - self.center[2]) / self.radius,
        ];
        let facing = d[0] * n[0] + d[1] * n[1] + d[2] * n[2];
        let mut rec = HitRecord::new(self.mat.clone());
        rec.t = t;
        rec.p = v(p[0], p[1], p[2]);
        rec.set_face_normal(key(facing), &v(n[0], n[1], n[2]), &v(-n[0], -n[1], -n[2]));
        Some(rec)
    }

    fn bounding_box(&self, _t0: i64, _t1: i64) -> Option<AABB> {
        let r = self.radius.abs();
        Some(AABB::new(
            v(self.center[0] - r, self.center[1] - r, self.center[2] - r),
            v(self.center[0] + r, self.center[1] + r, self.center[2] + r),
        ))
    }

    fn distance(&self, c: &Point3) -> i64 {
        let dx = num(c.x) - self.center[0];
        let dy = num(c.y) - self.center[1];
        let dz = num(c.z) - self.center[2];
        key((dx * dx + dy * dy + dz * dz).sqrt() - self.radius)
    }
}

/// A hierarchy with the arithmetic of its slab test.
struct Scene {
    root: BVHNode<Ball>,
}

impl HitTable for Scene {
    type Mat = Surface;

    fn hit(&self, r: &Ray, t_min: i64, t_max: i64) -> Option<HitRecord<Surface>> {
        self.root.hit(r, t_min, t_max, &cross)
    }

    fn bounding_box(&self, t0: i64, t1: i64) -> Option<AABB> {
        self.root.bounding_box(t0, t1)
    }

    fn distance(&self, _c: &Point3) -> i64 {
        key(0.0)
    }
}

fn ball(x: f64, y: f64, z: f64, radius: f64, mat: Surface) -> Arc<Ball> {
    Arc::new(Ball { center: [x, y, z], radius, mat: Arc::new(mat) })
}

fn two_spheres() -> Vec<Arc<Ball>> {
    vec![
        ball(0.0, 0.0, -1.0, 0.5, Surface::Diffuse(Lambertian::new(v(0.7, 0.3, 0.3)))),
        ball(0.0, -100.5, -1.0, 100.0, Surface::Diffuse(Lambertian::new(v(0.8, 0.8, 0.0)))),
    ]
}

/// A list that is a world of its own.
struct World {
    list: HitTableList<Ball>,
}

impl HitTable for World {
    type Mat = Surface;

    fn hit(&self, r: &Ray, t_min: i64, t_max: i64) -> Option<HitRecord<Surface>> {
        self.list.hit(r, t_min, t_max)
    }

    fn bounding_box(&self, _t0: i64, _t1: i64) -> Option<AABB> {
        None
    }

    fn distance(&self, _c: &Point3) -> i64 {
        key(0.0)
    }
}

fn world_of(balls: Vec<Arc<Ball>>) -> World {
    let mut list = HitTableList::new();
    for b in balls {
        list.add(b);
    }
    World { list }
}

#[test]
fn t_min_is_one_thousandth() {
    assert_eq!(T_MIN, key(0.001));
}

#[test]
fn no_depth_left_is_black() {
    let world = world_of(two_spheres());
    let r = Ray::new(v(0.0, 0.0, 0.0), v(0.0, 0.0, -1.0));
    let background = v(0.5, 0.7, 1.0);
    for depth in [0, -1, -50] {
        let path = ray_color(&r, &background, &world, depth);
        assert!(path.bounces.is_empty());
        assert_eq!(path.last, v(0.0, 0.0, 0.0));
    }
}

#[test]
fn a_ray_that_misses_returns_the_background() {
    let world = world_of(two_spheres());
    let r = Ray::new(v(0.0, 0.0, 0.0), v(0.0, 1.0, 0.0));
    let background = v(0.5, 0.7, 1.0);
    let path = ray_color(&r, &background, &world, 50);
    assert!(path.bounces.is_empty());
    assert_eq!(path.last, background);
}

#[test]
fn a_lamp_ends_the_path_with_its_light() {
    let world = world_of(vec![ball(0.0, 0.0, -3.0, 1.0, Surface::Lamp(v(4.0, 0.0, 4.0)))]);
    let r = Ray::new(v(0.0, 0.0, 0.0), v(0.0, 0.0, -1.0));
    let path = ray_color(&r, &v(0.0, 0.0, 0.0), &world, 50);
    assert!(path.bounces.is_empty());
    assert_eq!(path.last, v(4.0, 0.0, 4.0));
}

#[test]
fn centre_ray_hits_the_small_sphere_not_the_ground() {
    let balls = two_spheres();
    let world = world_of(balls.clone());
    let mut objects = balls;
    let scene = Scene { root: BVHNode::new(&mut objects, 0, 2, 0, 0) };
    // The camera sits at the origin and looks down -z.
    let r = Ray::new(v(0.0, 0.0, 0.0), v(0.0, 0.0, -1.0));
    let background = v(0.5, 0.7, 1.0);
    for rec in [
        world.hit(&r, T_MIN, key(f64::INFINITY)).unwrap(),
        scene.hit(&r, T_MIN, key(f64::INFINITY)).unwrap(),
    ] {
        assert_eq!(rec.t, key(0.5));
        assert_eq!(rec.p, v(0.0, 0.0, -0.5));
        assert_eq!(rec.normal, v(0.0, 0.0, 1.0));
        assert!(rec.front_face);
    }
    // One sample with one bounce to spare: the sphere scatters, and the
    // path ends there in black, which is not the background.
    let path = ray_color(&r, &background, &scene, 1);
    assert_eq!(path.bounces.len(), 1);
    assert_eq!(path.bounces[0].attenuation, v(0.7, 0.3, 0.3));
    assert_eq!(path.bounces[0].emitted, v(0.0, 0.0, 0.0));
    assert_eq!(path.bounces[0].scattered.orig, v(0.0, 0.0, -0.5));
    assert_eq!(path.last, v(0.0, 0.0, 0.0));
    assert!(path.last != background);
}

#[test]
fn a_path_goes_on_until_the_ray_escapes() {
    let scene = world_of(two_spheres());
    // Down onto the ground, which scatters along its normal, straight up
    // and out of the scene.
    let r = Ray::new(v(3.0, 0.0, -1.0), v(0.0, -1.0, 0.0));
    let background = v(0.5, 0.7, 1.0);
    let path = ray_color(&r, &background, &scene, 50);
    assert_eq!(path.bounces.len(), 1);
    assert_eq!(path.bounces[0].attenuation, v(0.8, 0.8, 0.0));
    assert_eq!(path.last, background);
}

#[test]
fn a_path_has_no_more_bounces_than_depth() {
    // Two large spheres face each other: the ray goes back and forth along
    // the normals for ever.
    let scene = world_of(vec![
        ball(0.0, 0.0, -102.0, 100.0, Surface::Diffuse(Lambertian::new(v(0.5, 0.5, 0.5)))),
        ball(0.0, 0.0, 102.0, 100.0, Surface::Diffuse(Lambertian::new(v(0.9, 0.9, 0.9)))),
    ]);
    let r = Ray::new(v(0.0, 0.0, 0.0), v(0.0, 0.0, -1.0));
    let background = v(0.5, 0.7, 1.0);
    for depth in [1i64, 2, 5, 50] {
        let path = ray_color(&r, &background, &scene, depth);
        assert_eq!(path.bounces.len() as i64, depth);
        assert_eq!(path.last, v(0.0, 0.0, 0.0));
        for (i, bounce) in path.bounces.iter().enumerate() {
            let expected = if i % 2 == 0 { v(0.5, 0.5, 0.5) } else { v(0.9, 0.9, 0.9) };
            assert_eq!(bounce.attenuation, expected);
        }
    }
}

#[test]
fn level_is_the_whole_part_of_256_times_the_channel() {
    assert_eq!(level(key(0.0)), 0);
    assert_eq!(level(key(0.5)), 128);
    assert_eq!(level(key(0.25)), 64);
    assert_eq!(level(key(0.999)), 255);
    assert_eq!(level(key(1.0 / 256.0)), 1);
    assert_eq!(level(key(0.7)), 179);
    let mut x = 0.0f64;
    while x < 1.0 {
        assert_eq!(level(key(x)), (256.0 * x.min(0.999)) as u8);
        x += 0.000_137;
    }
    for b in 1..256u32 {
        let edge = b as f64 / 256.0;
        let below = f64::from_bits(edge.to_bits() - 1);
        if edge <= 0.999 {
            assert_eq!(level(key(edge)), b as u8);
        }
        assert_eq!(level(key(below)), (b - 1) as u8);
    }
}

#[test]
fn level_clamps_what_lies_outside() {
    assert_eq!(level(key(-0.5)), 0);
    assert_eq!(level(key(f64::NEG_INFINITY)), 0);
    assert_eq!(level(key(1.0e-300)), 0);
    assert_eq!(level(key(1.0)), 255);
    assert_eq!(level(key(17.0)), 255);
    assert_eq!(level(key(f64::INFINITY)), 255);
}

#[test]
fn write_color_levels_each_channel() {
    let mut img = Raster::new(4, 3).unwrap();
    assert!(write_color(&mut img, 2, 1, &v(0.5, 1.5, -0.2)));
    assert_eq!(img.get_pixel(2, 1), Some((128, 255, 0)));
    assert_eq!(img.get_pixel(1, 2), Some((0, 0, 0)));
    // The colour of a pixel that got four samples of (0.8, 0.2, 0.05) in
    // all: averaged and gamma-corrected.
    let scale = 1.0 / 4.0;
    let c = v((0.8f64 * scale).sqrt(), (0.2f64 * scale).sqrt(), (0.05f64 * scale).sqrt());
    assert!(write_color(&mut img, 0, 0, &c));
    assert_eq!(img.get_pixel(0, 0), Some((114, 57, 28)));
    assert!(!write_color(&mut img, 4, 0, &c));
    assert!(!write_color(&mut img, 0, 3, &c));
    assert_eq!(img.dimensions(), (4, 3));
}

/// The radiance of a path: the light at its end, attenuated and added to
/// bounce by bounce on the way back to the camera.
fn radiance(path: &Path) -> [f64; 3] {
    let mut light = [num(path.last.x), num(path.last.y), num(path.last.z)];
    for bounce in path.bounces.iter().rev() {
        light = [
            num(bounce.emitted.x) + num(bounce.attenuation.x) * light[0],
            num(bounce.emitted.y) + num(bounce.attenuation.y) * light[1],
            num(bounce.emitted.z) + num(bounce.attenuation.z) * light[2],
        ];
    }
    light
}

#[test]
fn radiance_of_a_lit_path() {
    // A grey sphere under a lamp: the ray goes down to the sphere, is
    // scattered straight up along the normal and ends in the lamp.
    let scene = world_of(vec![
        ball(0.0, -2.0, 0.0, 1.0, Surface::Diffuse(Lambertian::new(v(0.5, 0.25, 0.125)))),
        ball(0.0, 5.0, 0.0, 1.0, Surface::Lamp(v(4.0, 2.0, 8.0))),
    ]);
    let r = Ray::new(v(0.0, 0.0, 0.0), v(0.0, -1.0, 0.0));
    let path = ray_color(&r, &v(0.0, 0.0, 0.0), &scene, 50);
    assert_eq!(path.bounces.len(), 1);
    assert_eq!(path.last, v(4.0, 2.0, 8.0));
    assert_eq!(radiance(&path), [2.0, 0.5, 1.0]);
}

#[test]
fn tiles_put_together_are_the_image_rendered_at_once() {
    let width = 24u32;
    let height = 14u32;
    let mut objects = two_spheres();
    objects.push(ball(1.0, 0.5, -1.5, 0.4, Surface::Lamp(v(0.9, 0.6, 0.3))));
    let n = objects.len();
    let scene = Scene { root: BVHNode::new(&mut objects, 0, n, 0, 0) };
    let background = v(0.5, 0.7, 1.0);
    let shade = |x: u32, y: u32| {
        let u = x as f64 / (width - 1) as f64;
        let w = (height - y) as f64 / (height - 1) as f64;
        let r = Ray::new(v(0.0, 0.0, 0.0), v(-2.0 + 4.0 * u, -1.2 + 2.4 * w, -1.0));
        let light = radiance(&ray_color(&r, &background, &scene, 8));
        v(light[0].sqrt(), light[1].sqrt(), light[2].sqrt())
    };
    let whole = render_rows(width, 0, height, &shade).unwrap();
    let n_jobs = 5;
    let mut tiles = Vec::new();
    for i in [3usize, 0, 4, 1, 2] {
        let (begin, end) = row_range(height, n_jobs, i);
        tiles.push(render_rows(width, begin, end, &shade).unwrap());
    }
    let img = assemble(width, height, &tiles).unwrap();
    let mut colours = std::collections::BTreeSet::new();
    for x in 0..width {
        for y in 0..height {
            assert_eq!(img.get_pixel(x, y), whole.data.get_pixel(x, y));
            colours.insert(img.get_pixel(x, y).unwrap());
        }
    }
    // Sky, the lamp and the shadowed spheres all show.
    assert!(colours.len() >= 3);
    assert_eq!(img.into_raw(), whole.data.into_raw());
}
