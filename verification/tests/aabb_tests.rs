use raytracer::aabb::AABB;
use raytracer::ray::Ray;
use raytracer::vec3::Vec3;

fn key(x: f64) -> i64 {
    let x = if x == 0.0 { 0.0 } else { x };
    let bits = x.to_bits() as i64;
    if bits >= 0 {
        bits
    } else {
        bits ^ i64::MAX
    }
}

fn num(k: i64) -> f64 {
    let bits = if k >= 0 { k } else { k ^ i64::MAX };
    f64::from_bits(bits as u64)
}

fn cross(lo: i64, hi: i64, orig: i64, dir: i64) -> (i64, i64) {
    let inv_d = 1.0 / num(dir);
    let mut t0 = (num(lo) - num(orig)) * inv_d;
    let mut t1 = (num(hi) - num(orig)) * inv_d;
    if inv_d < 0.0 {
        std::mem::swap(&mut t0, &mut t1);
    }
    let t0 = if t0.is_nan() { f64::NEG_INFINITY } else { t0 };
    let t1 = if t1.is_nan() { f64::INFINITY } else { t1 };
    (key(t0), key(t1))
}

fn v(x: f64, y: f64, z: f64) -> Vec3 {
    Vec3::new(key(x), key(y), key(z))
}

fn encloses(outer: &AABB, inner: &AABB) -> bool {
    outer._min.x <= inner._min.x
        && outer._min.y <= inner._min.y
        && outer._min.z <= inner._min.z
        && inner._max.x <= outer._max.x
        && inner._max.y <= outer._max.y
        && inner._max.z <= outer._max.z
}

#[test]
fn keys_keep_the_order_of_numbers() {
    let samples = [
        f64::NEG_INFINITY,
        -1.0e300,
        -2.5,
        -1.0,
        -1.0e-300,
        0.0,
        1.0e-300,
        0.001,
        0.5,
        1.0,
        2.0,
        1.0e300,
        f64::INFINITY,
    ];
    for i in 0..samples.len() {
        assert_eq!(num(key(samples[i])), samples[i]);
        for j in 0..samples.len() {
            assert_eq!(samples[i] < samples[j], key(samples[i]) < key(samples[j]));
        }
    }
    assert_eq!(key(0.0), raytracer::vec3::ZERO);
    assert_eq!(key(-0.0), raytracer::vec3::ZERO);
    assert_eq!(key(1.0), raytracer::vec3::ONE);
    assert_eq!(key(f64::INFINITY), raytracer::vec3::INFINITY);
}

#[test]
fn new_keeps_both_corners() {
    let b = AABB::new(v(1.0, 2.0, 3.0), v(4.0, 5.0, 6.0));
    assert_eq!(b._min, v(1.0, 2.0, 3.0));
    assert_eq!(b._max, v(4.0, 5.0, 6.0));
}

#[test]
fn vec3_components_by_axis() {
    let p = v(1.0, 2.0, 3.0);
    assert_eq!(p.get(0), key(1.0));
    assert_eq!(p.get(1), key(2.0));
    assert_eq!(p.get(2), key(3.0));
    assert_eq!(Vec3::zero(), v(0.0, 0.0, 0.0));
    assert_eq!(Vec3::ones(), v(1.0, 1.0, 1.0));
}

#[test]
fn surrounding_box_takes_min_of_mins_and_max_of_maxes() {
    let a = AABB::new(v(-1.0, 0.0, 2.0), v(1.0, 3.0, 4.0));
    let b = AABB::new(v(0.0, -2.0, 3.0), v(5.0, 1.0, 3.5));
    let u = AABB::surrounding_box(&a, &b);
    assert_eq!(u._min, v(-1.0, -2.0, 2.0));
    assert_eq!(u._max, v(5.0, 3.0, 4.0));
    assert!(encloses(&u, &a));
    assert!(encloses(&u, &b));
}

#[test]
fn surrounding_box_of_a_box_with_itself_is_that_box() {
    let a = AABB::new(v(-1.0, 0.0, 2.0), v(1.0, 3.0, 4.0));
    let u = AABB::surrounding_box(&a, &a);
    assert_eq!(u, a);
}

#[test]
fn slab_test_hits_box_in_front() {
    let b = AABB::new(v(-1.0, -1.0, -3.0), v(1.0, 1.0, -2.0));
    let r = Ray::new(v(0.0, 0.0, 0.0), v(0.0, 0.0, -1.0));
    assert!(b.hit(&r, key(0.001), key(f64::INFINITY), &cross));
}

#[test]
fn slab_test_misses_box_beyond_the_window() {
    let b = AABB::new(v(-1.0, -1.0, -3.0), v(1.0, 1.0, -2.0));
    let r = Ray::new(v(0.0, 0.0, 0.0), v(0.0, 0.0, -1.0));
    assert!(!b.hit(&r, key(0.001), key(1.5), &cross));
    assert!(!b.hit(&r, key(3.5), key(10.0), &cross));
    // The window ends exactly where the box begins: the overlap is empty.
    assert!(!b.hit(&r, key(0.001), key(2.0), &cross));
}

#[test]
fn slab_test_misses_box_behind_the_ray() {
    let b = AABB::new(v(-1.0, -1.0, 2.0), v(1.0, 1.0, 3.0));
    let r = Ray::new(v(0.0, 0.0, 0.0), v(0.0, 0.0, -1.0));
    assert!(!b.hit(&r, key(0.001), key(f64::INFINITY), &cross));
}

#[test]
fn slab_test_narrows_the_interval_across_axes() {
    // The ray is inside the x slab on (1, 2) and inside the y slab on
    // (3, 4): each overlaps the window, but they do not overlap each other.
    let b = AABB::new(v(1.0, 3.0, -1.0), v(2.0, 4.0, 1.0));
    let r = Ray::new(v(0.0, 0.0, 0.0), v(1.0, 1.0, 0.0));
    assert!(!b.hit(&r, key(0.0), key(10.0), &cross));
}

#[test]
fn slab_test_tolerates_a_zero_direction_component() {
    let b = AABB::new(v(-1.0, -1.0, -3.0), v(1.0, 1.0, -2.0));
    // Runs along z inside the x and y slabs.
    let inside = Ray::new(v(0.5, -0.5, 0.0), v(0.0, 0.0, -1.0));
    assert!(b.hit(&inside, key(0.001), key(f64::INFINITY), &cross));
    // Runs along z outside the x slab.
    let outside = Ray::new(v(1.5, 0.0, 0.0), v(0.0, 0.0, -1.0));
    assert!(!b.hit(&outside, key(0.001), key(f64::INFINITY), &cross));
    // Runs along z on the face x = 1.
    let on_face = Ray::new(v(1.0, 0.0, 0.0), v(0.0, 0.0, -1.0));
    assert!(b.hit(&on_face, key(0.001), key(f64::INFINITY), &cross));
}

#[test]
fn slab_test_with_negative_direction_swaps_entry_and_exit() {
    let b = AABB::new(v(-3.0, -1.0, -1.0), v(-2.0, 1.0, 1.0));
    let r = Ray::new(v(0.0, 0.0, 0.0), v(-1.0, 0.0, 0.0));
    assert!(b.hit(&r, key(0.0), key(10.0), &cross));
    assert!(b.hit(&r, key(2.5), key(10.0), &cross));
    assert!(!b.hit(&r, key(3.0), key(10.0), &cross));
}

#[test]
fn union_is_hit_whenever_a_part_is_hit() {
    let boxes = [
        AABB::new(v(-1.0, -1.0, -3.0), v(1.0, 1.0, -2.0)),
        AABB::new(v(2.0, 2.0, 2.0), v(3.0, 3.0, 3.0)),
        AABB::new(v(-5.0, 0.0, -1.0), v(-4.0, 0.5, 1.0)),
        AABB::new(v(0.0, -100.0, 0.0), v(0.5, 100.0, 0.5)),
    ];
    let dirs = [
        v(0.0, 0.0, -1.0),
        v(1.0, 1.0, 1.0),
        v(-1.0, 0.1, 0.0),
        v(0.3, -0.2, 0.9),
        v(0.0, 1.0, 0.0),
        v(-0.7, -0.7, 0.1),
    ];
    let origins = [v(0.0, 0.0, 0.0), v(0.25, -50.0, 0.25), v(1.0, 1.0, 1.0)];
    let mut hits = 0;
    for a in boxes.iter() {
        for b in boxes.iter() {
            let u = AABB::surrounding_box(a, b);
            for o in origins.iter() {
                for d in dirs.iter() {
                    let r = Ray::new(*o, *d);
                    let t0 = key(0.001);
                    let t1 = key(f64::INFINITY);
                    if a.hit(&r, t0, t1, &cross) || b.hit(&r, t0, t1, &cross) {
                        hits += 1;
                        assert!(u.hit(&r, t0, t1, &cross));
                    }
                }
            }
        }
    }
    assert!(hits > 0);
}

/// The slab test written out on numbers, axis by axis with a running
/// interval.
fn slab_test_on_numbers(b: &AABB, r: &Ray, tmin: f64, tmax: f64) -> bool {
    let lo = [num(b._min.x), num(b._min.y), num(b._min.z)];
    let hi = [num(b._max.x), num(b._max.y), num(b._max.z)];
    let o = [num(r.orig.x), num(r.orig.y), num(r.orig.z)];
    let d = [num(r.dir.x), num(r.dir.y), num(r.dir.z)];
    let mut tmin = tmin;
    let mut tmax = tmax;
    for a in 0..3 {
        let inv_d = 1.0 / d[a];
        let mut t0 = (lo[a] - o[a]) * inv_d;
        let mut t1 = (hi[a] - o[a]) * inv_d;
        if inv_d < 0.0 {
            std::mem::swap(&mut t0, &mut t1);
        }
        tmin = if t0 > tmin { t0 } else { tmin };
        tmax = if t1 < tmax { t1 } else { tmax };
        if tmax <= tmin {
            return false;
        }
    }
    true
}

struct Lcg(u64);

impl Lcg {
    fn next(&mut self) -> f64 {
        self.0 = self.0.wrapping_mul(6364136223846793005).wrapping_add(1442695040888963407);
        ((self.0 >> 11) as f64) / ((1u64 << 53) as f64)
    }
    /// A number of a short grid, so that rays lie on faces and run along
    /// axes often.
    fn grid(&mut self) -> f64 {
        (self.next() * 9.0).floor() - 4.0
    }
}

#[test]
fn slab_test_agrees_with_the_running_interval_on_numbers() {
    let mut rng = Lcg(11);
    let mut hits = 0;
    let mut misses = 0;
    for _ in 0..20000 {
        let (x0, x1) = (rng.grid(), rng.grid());
        let (y0, y1) = (rng.grid(), rng.grid());
        let (z0, z1) = (rng.grid(), rng.grid());
        let b = AABB::new(
            v(x0.min(x1), y0.min(y1), z0.min(z1)),
            v(x0.max(x1), y0.max(y1), z0.max(z1)),
        );
        let r = Ray::new(v(rng.grid(), rng.grid(), rng.grid()), v(rng.grid(), rng.grid(), rng.grid()));
        let tmin = 0.001;
        let tmax = if rng.next() < 0.5 { f64::INFINITY } else { rng.next() * 5.0 };
        let expected = slab_test_on_numbers(&b, &r, tmin, tmax);
        assert_eq!(b.hit(&r, key(tmin), key(tmax), &cross), expected);
        if expected {
            hits += 1;
        } else {
            misses += 1;
        }
    }
    assert!(hits > 1000);
    assert!(misses > 1000);
}
