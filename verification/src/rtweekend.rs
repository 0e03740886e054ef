//! Small helpers on scalars, and the source of random integers.
use vstd::prelude::*;
use rand::Rng;
use crate::vec3::Scalar;

verus! {

/// The smaller of two scalars.
pub open spec fn spec_fmin(x: Scalar, y: Scalar) -> Scalar {
    if x < y {
        x
    } else {
        y
    }
}

/// The larger of two scalars.
pub open spec fn spec_fmax(x: Scalar, y: Scalar) -> Scalar {
    if x < y {
        y
    } else {
        x
    }
}

/// `x` moved into `[min, max]`: what lies below `min` becomes `min`, what
/// lies above `max` becomes `max`.
pub open spec fn spec_clamp(x: Scalar, min: Scalar, max: Scalar) -> Scalar {
    if x < min {
        min
    } else if x > max {
        max
    } else {
        x
    }
}

pub fn fmin(x: Scalar, y: Scalar) -> (m: Scalar)
    ensures
        m == spec_fmin(x, y),
{
    if x < y {
        return x;
    }
    y
}

pub fn fmax(x: Scalar, y: Scalar) -> (m: Scalar)
    ensures
        m == spec_fmax(x, y),
{
    if x < y {
        return y;
    }
    x
}

pub fn clamp(x: Scalar, min: Scalar, max: Scalar) -> (c: Scalar)
    ensures
        c == spec_clamp(x, min, max),
{
    if x < min {
        return min;
    }
    if x > max {
        return max;
    }
    x
}

/// `rand::Rng::gen_range` on the thread's generator: some integer of
/// `[min, max)`. Which one is left to chance, so nothing more is claimed.
/// The generator panics on an empty range, which `requires` leaves out.
#[verifier::external_body]
pub fn random_int(min: i64, max: i64) -> (n: i64)
    requires
        min < max,
    ensures
        min <= n < max,
{
    let mut rng = rand::thread_rng();
    rng.gen_range(min, max)
}

} // verus!
