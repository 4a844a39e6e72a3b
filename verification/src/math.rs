//! 2D vector arithmetic over fixed-point coordinates: differences, lengths,
//! normalisation, scaling, and an exact comparison of planar angles. Lengths
//! are Euclidean, rounded down to the nearest fixed-point unit.

use vstd::prelude::*;

verus! {

/// Truncating division (the machine's signed division) for a positive
/// divisor: rounds the exact quotient towards zero.
pub open spec fn tdiv(a: int, b: int) -> int {
    if a >= 0 {
        a / b
    } else {
        -((-a) / b)
    }
}

/// `r` is the integer square root of `n`, rounded down.
pub open spec fn is_sqrt_floor(n: int, r: int) -> bool {
    0 <= r && r * r <= n && n < (r + 1) * (r + 1)
}

/// The integer square root of `n`, rounded down.
pub open spec fn sqrt_floor(n: int) -> int {
    choose|r: int| is_sqrt_floor(n, r)
}

/// Any two integer square roots of the same value are equal, so a witness
/// pins down `sqrt_floor`.
pub proof fn lemma_sqrt_floor_unique(n: int, r: int)
    requires
        is_sqrt_floor(n, r),
    ensures
        sqrt_floor(n) == r,
{
    let s = choose|s: int| is_sqrt_floor(n, s);
    assert(is_sqrt_floor(n, s));
    assert(s == r) by (nonlinear_arith)
        requires
            0 <= r,
            r * r <= n,
            n < (r + 1) * (r + 1),
            0 <= s,
            s * s <= n,
            n < (s + 1) * (s + 1),
    ;
}

/// Integer square root, rounded down.
pub fn isqrt(n: u64) -> (r: u64)
    ensures
        is_sqrt_floor(n as int, r as int),
        r == sqrt_floor(n as int),
{
    let mut lo: u64 = 0;
    let mut hi: u64 = 4294967296;
    proof {
        assert(n < 4294967296 * 4294967296) by (nonlinear_arith)
            requires
                n <= 0xffffffffffffffff,
        ;
    }
    while lo + 1 < hi
        invariant
            lo < hi <= 4294967296,
            lo * lo <= n,
            n < hi * hi,
        decreases hi - lo,
    {
        let mid = lo + (hi - lo) / 2;
        proof {
            assert(mid * mid <= 0xffffffffffffffff) by (nonlinear_arith)
                requires
                    mid < 4294967296,
            ;
        }
        if mid * mid <= n {
            lo = mid;
        } else {
            hi = mid;
        }
    }
    proof {
        lemma_sqrt_floor_unique(n as int, lo as int);
    }
    lo
}

/// Coordinates this module accepts: large enough for every refined corner of
/// a symbol in a bounded image, small enough that squared lengths stay well
/// inside `i64`.
pub const GEOMETRY_LIMIT: i64 = 536870912;

/// A vector (or point) whose components are within the module's bound.
pub open spec fn vec_in_range(v: (i64, i64)) -> bool {
    &&& -GEOMETRY_LIMIT <= v.0 <= GEOMETRY_LIMIT
    &&& -GEOMETRY_LIMIT <= v.1 <= GEOMETRY_LIMIT
}

/// Euclidean length of a vector, rounded down to a fixed-point unit.
pub open spec fn spec_vec_length(v: (i64, i64)) -> int {
    sqrt_floor(v.0 * v.0 + v.1 * v.1)
}

/// Euclidean length of a vector, rounded down.
pub fn vec_length(vec: (i64, i64)) -> (r: i64)
    requires
        vec_in_range(vec),
    ensures
        r == spec_vec_length(vec),
        is_sqrt_floor(vec.0 * vec.0 + vec.1 * vec.1, r as int),
        0 <= r <= 759250126,
{
    proof {
        assert(0 <= vec.0 * vec.0 <= 0x400000000000000 && 0 <= vec.1 * vec.1
            <= 0x400000000000000) by (nonlinear_arith)
            requires
                -0x20000000 <= vec.0 <= 0x20000000,
                -0x20000000 <= vec.1 <= 0x20000000,
        ;
    }
    let sq: u64 = (vec.0 as i128 * vec.0 as i128 + vec.1 as i128 * vec.1 as i128) as u64;
    let r = isqrt(sq);
    proof {
        assert(r <= 759250126) by (nonlinear_arith)
            requires
                r * r <= 0x800000000000000,
                r >= 0,
        ;
    }
    r as i64
}

/// The vector from `first` to `second`.
pub fn vec_between_points(first: (i64, i64), second: (i64, i64)) -> (r: (i64, i64))
    requires
        vec_in_range(first),
        vec_in_range(second),
    ensures
        r.0 == second.0 - first.0,
        r.1 == second.1 - first.1,
{
    (second.0 - first.0, second.1 - first.1)
}

/// A vector of length one pixel in the direction of `v`: each component is
/// scaled by `SCALE` and divided by the length, rounding towards zero.
pub open spec fn spec_vec_norm(v: (i64, i64)) -> (int, int) {
    let len = spec_vec_length(v);
    (tdiv(256 * v.0, len), tdiv(256 * v.1, len))
}

/// The magnitude of a truncated quotient of `256 * x` by a length at least
/// `|x|` is at most 256.
proof fn lemma_norm_component_bound(x: int, len: int)
    requires
        0 < len,
        -len <= x <= len,
    ensures
        -256 <= tdiv(256 * x, len) <= 256,
{
    if x >= 0 {
        vstd::arithmetic::div_mod::lemma_div_pos_is_pos(256 * x, len);
        vstd::arithmetic::div_mod::lemma_div_is_ordered(256 * x, 256 * len, len);
        vstd::arithmetic::div_mod::lemma_div_multiples_vanish(256, len);
    } else {
        vstd::arithmetic::div_mod::lemma_div_pos_is_pos(256 * (-x), len);
        vstd::arithmetic::div_mod::lemma_div_is_ordered(256 * (-x), 256 * len, len);
        vstd::arithmetic::div_mod::lemma_div_multiples_vanish(256, len);
        assert(-(256 * x) == 256 * (-x)) by (nonlinear_arith);
    }
}

/// Normalises a non-zero vector to unit pixel length (fixed-point).
pub fn vec_norm(vec: (i64, i64)) -> (r: (i64, i64))
    requires
        vec_in_range(vec),
        !(vec.0 == 0 && vec.1 == 0),
    ensures
        (r.0 as int, r.1 as int) == spec_vec_norm(vec),
        -256 <= r.0 <= 256,
        -256 <= r.1 <= 256,
{
    let length = vec_length(vec);
    proof {
        assert(length > 0 && -length <= vec.0 <= length && -length <= vec.1
            <= length) by (nonlinear_arith)
            requires
                is_sqrt_floor(vec.0 * vec.0 + vec.1 * vec.1, length as int),
                !(vec.0 == 0 && vec.1 == 0),
        ;
        lemma_norm_component_bound(vec.0 as int, length as int);
        lemma_norm_component_bound(vec.1 as int, length as int);
    }
    (256 * vec.0 / length, 256 * vec.1 / length)
}

/// Scales a vector by a fixed-point scalar: each component is multiplied by
/// the scalar and divided by `SCALE`, rounding towards zero.
pub fn vec_scalar_mul(vec: (i64, i64), scalar: i64) -> (r: (i64, i64))
    requires
        -1073741824 <= vec.0 <= 1073741824,
        -1073741824 <= vec.1 <= 1073741824,
        -1073741824 <= scalar <= 1073741824,
    ensures
        r.0 == tdiv(vec.0 * scalar, 256),
        r.1 == tdiv(vec.1 * scalar, 256),
        -4503599627370496 <= r.0 <= 4503599627370496,
        -4503599627370496 <= r.1 <= 4503599627370496,
{
    proof {
        lemma_scalar_component(vec.0 as int, scalar as int);
        lemma_scalar_component(vec.1 as int, scalar as int);
    }
    (vec.0 * scalar / 256, vec.1 * scalar / 256)
}

/// Bounds one component of a fixed-point scalar product.
proof fn lemma_scalar_component(x: int, s: int)
    requires
        -1073741824 <= x <= 1073741824,
        -1073741824 <= s <= 1073741824,
    ensures
        -1152921504606846976 <= x * s <= 1152921504606846976,
        -4503599627370496 <= tdiv(x * s, 256) <= 4503599627370496,
{
    assert(-1152921504606846976 <= x * s <= 1152921504606846976) by (nonlinear_arith)
        requires
            -1073741824 <= x <= 1073741824,
            -1073741824 <= s <= 1073741824,
    ;
    let p = x * s;
    if p >= 0 {
        vstd::arithmetic::div_mod::lemma_div_pos_is_pos(p, 256);
        vstd::arithmetic::div_mod::lemma_div_is_ordered(p, 1152921504606846976, 256);
    } else {
        vstd::arithmetic::div_mod::lemma_div_pos_is_pos(-p, 256);
        vstd::arithmetic::div_mod::lemma_div_is_ordered(-p, 1152921504606846976, 256);
    }
}

/// Componentwise sum of two vectors.
pub fn vec_add(first: (i64, i64), second: (i64, i64)) -> (r: (i64, i64))
    requires
        first.0 + second.0 <= i64::MAX,
        first.0 + second.0 >= i64::MIN,
        first.1 + second.1 <= i64::MAX,
        first.1 + second.1 >= i64::MIN,
    ensures
        r.0 == first.0 + second.0,
        r.1 == first.1 + second.1,
{
    (first.0 + second.0, first.1 + second.1)
}

/// Euclidean distance between two points, rounded down.
pub open spec fn spec_euclidean_distance(first: (i64, i64), second: (i64, i64)) -> int {
    spec_vec_length(((second.0 - first.0) as i64, (second.1 - first.1) as i64))
}

/// Euclidean distance between two points, rounded down.
pub fn euclidean_distance(first: (i64, i64), second: (i64, i64)) -> (r: i64)
    requires
        -268435456 <= first.0 <= 268435456,
        -268435456 <= first.1 <= 268435456,
        -268435456 <= second.0 <= 268435456,
        -268435456 <= second.1 <= 268435456,
    ensures
        r == spec_euclidean_distance(first, second),
        0 <= r <= 759250126,
{
    vec_length(vec_between_points(first, second))
}

/// Rank of a vector's planar angle in `(-pi, pi]`: below the axis, on the
/// positive axis (angle zero, the zero vector included), above the axis, and
/// on the negative axis (angle pi).
pub open spec fn spec_angle_rank(v: (i64, i64)) -> int {
    if v.1 < 0 {
        0
    } else if v.1 == 0 && v.0 >= 0 {
        1
    } else if v.1 > 0 {
        2
    } else {
        3
    }
}

/// The planar cross product of two vectors.
pub open spec fn spec_cross(a: (i64, i64), b: (i64, i64)) -> int {
    a.0 * b.1 - a.1 * b.0
}

/// Sign of the difference between the planar angles of `a` and `b`, each
/// taken in `(-pi, pi]` (y grows downward, as in image coordinates):
/// negative when `a`'s angle is smaller, zero when they are equal. Vectors
/// in the same open half-plane are ordered by the sign of their cross
/// product.
pub open spec fn spec_angle_cmp(a: (i64, i64), b: (i64, i64)) -> int {
    let ra = spec_angle_rank(a);
    let rb = spec_angle_rank(b);
    if ra < rb {
        -1
    } else if ra > rb {
        1
    } else if ra == 1 || ra == 3 {
        0
    } else if spec_cross(a, b) > 0 {
        -1
    } else if spec_cross(a, b) < 0 {
        1
    } else {
        0
    }
}

/// Compares the planar angles of two vectors, each taken in `(-pi, pi]`:
/// returns -1, 0 or 1 as the first angle is below, equal to, or above the
/// second. This is the sign of the angle difference that orients a marker
/// triple.
pub fn angle(first: (i64, i64), second: (i64, i64)) -> (r: i64)
    requires
        -1073741824 <= first.0 <= 1073741824,
        -1073741824 <= first.1 <= 1073741824,
        -1073741824 <= second.0 <= 1073741824,
        -1073741824 <= second.1 <= 1073741824,
    ensures
        r == spec_angle_cmp(first, second),
{
    let ra: i64 = if first.1 < 0 {
        0
    } else if first.1 == 0 && first.0 >= 0 {
        1
    } else if first.1 > 0 {
        2
    } else {
        3
    };
    let rb: i64 = if second.1 < 0 {
        0
    } else if second.1 == 0 && second.0 >= 0 {
        1
    } else if second.1 > 0 {
        2
    } else {
        3
    };
    if ra < rb {
        -1
    } else if ra > rb {
        1
    } else if ra == 1 || ra == 3 {
        0
    } else {
        proof {
            assert(-1152921504606846976 <= first.0 * second.1
                <= 1152921504606846976) by (nonlinear_arith)
                requires
                    -1073741824 <= first.0 <= 1073741824,
                    -1073741824 <= second.1 <= 1073741824,
            ;
            assert(-1152921504606846976 <= first.1 * second.0
                <= 1152921504606846976) by (nonlinear_arith)
                requires
                    -1073741824 <= first.1 <= 1073741824,
                    -1073741824 <= second.0 <= 1073741824,
            ;
        }
        let cross = first.0 * second.1 - first.1 * second.0;
        if cross > 0 {
            -1
        } else if cross < 0 {
            1
        } else {
            0
        }
    }
}

} // verus!
