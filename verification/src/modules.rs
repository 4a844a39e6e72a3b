//! Sampling the module grid of a located symbol: module centers are laid
//! out along the four estimated edges, and each module is read at the
//! intersection of its row and column rulings, clamped to the image.

use vstd::prelude::*;

use crate::math::tdiv;
use crate::position::{QRCodePositionEstimation, QRCodeVersion};
use crate::raster::GrayImage;

verus! {

/// The sampled module matrix of one symbol: `bits[x][y]` is true when the
/// module in column `x`, row `y` is dark.
pub struct QRCodeModules {
    pub version: QRCodeVersion,
    pub bits: Vec<Vec<bool>>,
}

impl QRCodeModules {
    /// The matrix is square with the side length of the version's grid.
    pub open spec fn wf(&self) -> bool {
        &&& self.bits.len() == 4 * self.version.spec_value() + 17
        &&& forall|x: int|
            0 <= x < self.bits.len() ==> (#[trigger] self.bits[x]).len() == 4
                * self.version.spec_value() + 17
    }
}

/// The center of module `i` of `n` along the edge from `a` to `b`: the point
/// at parametric position `(i + 0.5) / n`, componentwise
/// `a + (b - a) * (2*i + 1) / (2*n)` rounded towards zero.
pub open spec fn spec_border_point(a: (i64, i64), b: (i64, i64), n: int, i: int) -> (int, int) {
    (
        a.0 + tdiv((b.0 - a.0) * (2 * i + 1), 2 * n),
        a.1 + tdiv((b.1 - a.1) * (2 * i + 1), 2 * n),
    )
}

/// The intersection of the line through `a` and `b` with the line through
/// `c` and `d`, found by solving for the parameter `u` along `c -> d`
/// (scaled by 256). Parallel rulings have no intersection; the start of the
/// second line stands in for it.
pub open spec fn spec_intersection_point(
    a: (int, int),
    b: (int, int),
    c: (int, int),
    d: (int, int),
) -> (int, int) {
    let bx = b.0 - a.0;
    let by = b.1 - a.1;
    let dx = d.0 - c.0;
    let dy = d.1 - c.1;
    let num = bx * (c.1 - a.1) + by * (a.0 - c.0);
    let den = dx * by - dy * bx;
    let u = if den == 0 {
        0
    } else if den < 0 {
        tdiv((-num) * 256, -den)
    } else {
        tdiv(num * 256, den)
    };
    (c.0 + tdiv(u * dx, 256), c.1 + tdiv(u * dy, 256))
}

/// Rounds a fixed-point coordinate to its pixel, after clamping below at
/// zero and above at `limit` pixels.
pub open spec fn spec_clamp_round(v: int, limit: int) -> int {
    let nonneg = if v >= 0 {
        v
    } else {
        0
    };
    let rounded = (nonneg + 128) / 256;
    if rounded <= limit {
        rounded
    } else {
        limit
    }
}

/// The pixel at which module `(x, y)` of the estimated symbol is sampled:
/// the intersection of the ruling through row `y`'s left and right edge
/// centers with the ruling through column `x`'s top and bottom edge centers,
/// rounded and clamped to the image.
pub open spec fn spec_sample_pixel(
    image: &GrayImage,
    position: &QRCodePositionEstimation,
    x: int,
    y: int,
) -> (int, int) {
    let n = 4 * position.version.spec_value() + 17;
    let left = spec_border_point(position.top_left, position.bottom_left, n, y);
    let right = spec_border_point(position.top_right, position.bottom_right, n, y);
    let top = spec_border_point(position.top_left, position.top_right, n, x);
    let bottom = spec_border_point(position.bottom_left, position.bottom_right, n, x);
    let p = spec_intersection_point(left, right, top, bottom);
    (spec_clamp_round(p.0, image.width - 1), spec_clamp_round(p.1, image.height - 1))
}

/// Module `(x, y)` is dark: the sampled pixel is black.
pub open spec fn spec_module_bit(
    image: &GrayImage,
    position: &QRCodePositionEstimation,
    x: int,
    y: int,
) -> bool {
    let p = spec_sample_pixel(image, position, x, y);
    image.spec_pixel(p.0, p.1) == 0
}

/// The magnitude of a truncated quotient is bounded by any `m` with
/// `|p| <= m * q`.
proof fn lemma_tdiv_magnitude(p: int, q: int, m: int)
    requires
        q > 0,
        0 <= m,
        -(m * q) <= p <= m * q,
    ensures
        -m <= tdiv(p, q) <= m,
{
    vstd::arithmetic::div_mod::lemma_div_multiples_vanish(m, q);
    if p >= 0 {
        vstd::arithmetic::div_mod::lemma_div_pos_is_pos(p, q);
        vstd::arithmetic::div_mod::lemma_div_is_ordered(p, m * q, q);
    } else {
        vstd::arithmetic::div_mod::lemma_div_pos_is_pos(-p, q);
        vstd::arithmetic::div_mod::lemma_div_is_ordered(-p, m * q, q);
    }
}

/// The `n` module centers along the edge from `first_point` to
/// `second_point`, in order.
#[verifier::loop_isolation(false)]
fn find_marker_centers_along_border(
    n: usize,
    first_point: (i64, i64),
    second_point: (i64, i64),
) -> (points: Vec<(i64, i64)>)
    requires
        1 <= n <= 177,
        -1073741824 <= first_point.0 <= 1073741824,
        -1073741824 <= first_point.1 <= 1073741824,
        -1073741824 <= second_point.0 <= 1073741824,
        -1073741824 <= second_point.1 <= 1073741824,
    ensures
        points@.len() == n,
        forall|i: int|
            0 <= i < n ==> {
                let p = spec_border_point(first_point, second_point, n as int, i);
                (#[trigger] points@[i]).0 == p.0 && points@[i].1 == p.1
                    && -3221225472 <= points@[i].0 <= 3221225472 && -3221225472 <= points@[i].1
                    <= 3221225472
            },
{
    let mut points: Vec<(i64, i64)> = Vec::new();
    let vx = second_point.0 - first_point.0;
    let vy = second_point.1 - first_point.1;
    let mut index: usize = 0;
    while index < n
        invariant
            index <= n,
            points@.len() == index,
            vx == second_point.0 - first_point.0,
            vy == second_point.1 - first_point.1,
            forall|i: int|
                0 <= i < index ==> {
                    let p = spec_border_point(first_point, second_point, n as int, i);
                    (#[trigger] points@[i]).0 == p.0 && points@[i].1 == p.1
                        && -3221225472 <= points@[i].0 <= 3221225472 && -3221225472
                        <= points@[i].1 <= 3221225472
                },
        decreases n - index,
    {
        let step = 2 * (index as i64) + 1;
        proof {
            assert(-(2147483648 * (2 * n as int)) <= vx * step <= 2147483648 * (2 * n as int)
                && -(2147483648 * (2 * n as int)) <= vy * step <= 2147483648 * (2
                * n as int)) by (nonlinear_arith)
                requires
                    -2147483648 <= vx <= 2147483648,
                    -2147483648 <= vy <= 2147483648,
                    0 <= step <= 2 * n as int,
                    1 <= n,
            ;
            lemma_tdiv_magnitude(vx * step, 2 * n as int, 2147483648);
            lemma_tdiv_magnitude(vy * step, 2 * n as int, 2147483648);
        }
        let px = first_point.0 + (vx * step) / (2 * (n as i64));
        let py = first_point.1 + (vy * step) / (2 * (n as i64));
        points.push((px, py));
        index += 1;
    }
    points
}

/// The intersection of the ruling through `section1_start` and
/// `section1_end` with the ruling through `section2_start` and
/// `section2_end`, as an unclamped fixed-point point.
fn find_intersection_point(
    section1_start: (i64, i64),
    section1_end: (i64, i64),
    section2_start: (i64, i64),
    section2_end: (i64, i64),
) -> (r: (i128, i128))
    requires
        -3221225472 <= section1_start.0 <= 3221225472,
        -3221225472 <= section1_start.1 <= 3221225472,
        -3221225472 <= section1_end.0 <= 3221225472,
        -3221225472 <= section1_end.1 <= 3221225472,
        -3221225472 <= section2_start.0 <= 3221225472,
        -3221225472 <= section2_start.1 <= 3221225472,
        -3221225472 <= section2_end.0 <= 3221225472,
        -3221225472 <= section2_end.1 <= 3221225472,
    ensures
        -0x8000000000000000000000000000 <= r.0 <= 0x8000000000000000000000000000,
        -0x8000000000000000000000000000 <= r.1 <= 0x8000000000000000000000000000,
        (r.0 as int, r.1 as int) == spec_intersection_point(
            (section1_start.0 as int, section1_start.1 as int),
            (section1_end.0 as int, section1_end.1 as int),
            (section2_start.0 as int, section2_start.1 as int),
            (section2_end.0 as int, section2_end.1 as int),
        ),
{
    let ax = section1_start.0 as i128;
    let ay = section1_start.1 as i128;
    let bx = section1_end.0 as i128 - ax;
    let by = section1_end.1 as i128 - ay;
    let cx = section2_start.0 as i128;
    let cy = section2_start.1 as i128;
    let dx = section2_end.0 as i128 - cx;
    let dy = section2_end.1 as i128 - cy;
    proof {
        assert(-0x4000000000000000000 <= bx * (cy - ay) <= 0x4000000000000000000
            && -0x4000000000000000000 <= by * (ax - cx) <= 0x4000000000000000000
            && -0x4000000000000000000 <= dx * by <= 0x4000000000000000000
            && -0x4000000000000000000 <= dy * bx
            <= 0x4000000000000000000) by (nonlinear_arith)
            requires
                -0x200000000 <= bx <= 0x200000000,
                -0x200000000 <= by <= 0x200000000,
                -0x200000000 <= dx <= 0x200000000,
                -0x200000000 <= dy <= 0x200000000,
                -0x200000000 <= cy - ay <= 0x200000000,
                -0x200000000 <= ax - cx <= 0x200000000,
        ;
    }
    let num = bx * (cy - ay) + by * (ax - cx);
    let den = dx * by - dy * bx;
    let u: i128 = if den == 0 {
        0
    } else {
        let nn: i128 = if den < 0 {
            -num
        } else {
            num
        };
        let dd: i128 = if den < 0 {
            -den
        } else {
            den
        };
        proof {
            assert(0x1000000000000000000000 * dd >= 0x1000000000000000000000) by (nonlinear_arith)
                requires
                    dd >= 1,
            ;
            lemma_tdiv_magnitude(nn as int * 256, dd as int, 0x1000000000000000000000);
        }
        (nn * 256) / dd
    };
    proof {
        assert(-0x400000000000000000000000000000 <= u * dx <= 0x400000000000000000000000000000
            && -0x400000000000000000000000000000 <= u * dy
            <= 0x400000000000000000000000000000) by (nonlinear_arith)
            requires
                -0x1000000000000000000000 <= u <= 0x1000000000000000000000,
                -0x200000000 <= dx <= 0x200000000,
                -0x200000000 <= dy <= 0x200000000,
        ;
        lemma_tdiv_magnitude(u as int * dx, 256, 0x4000000000000000000000000000);
        lemma_tdiv_magnitude(u as int * dy, 256, 0x4000000000000000000000000000);
    }
    (cx + (u * dx) / 256, cy + (u * dy) / 256)
}

/// Samples the full module matrix of one estimated symbol position: for each
/// module, the rulings through its row's and column's edge centers are
/// intersected, and the image is read at the clamped intersection.
#[verifier::loop_isolation(false)]
#[verifier::rlimit(60)]
pub(crate) fn read_modules(image: &GrayImage, position: &QRCodePositionEstimation) -> (modules: QRCodeModules)
    requires
        image.wf(),
        image.width >= 1,
        image.height >= 1,
        position.wf(),
        1 <= position.version.spec_value() <= 40,
    ensures
        modules.wf(),
        modules.version == position.version,
        forall|x: int, y: int|
            #![trigger modules.bits[x][y]]
            0 <= x < modules.bits.len() && 0 <= y < modules.bits[x].len()
                ==> modules.bits[x][y] == spec_module_bit(image, position, x, y),
{
    let number_of_modules = position.version.number_of_modules() as usize;
    let points_y_left = find_marker_centers_along_border(
        number_of_modules,
        position.top_left,
        position.bottom_left,
    );
    let points_y_right = find_marker_centers_along_border(
        number_of_modules,
        position.top_right,
        position.bottom_right,
    );
    let points_x_top = find_marker_centers_along_border(
        number_of_modules,
        position.top_left,
        position.top_right,
    );
    let points_x_bottom = find_marker_centers_along_border(
        number_of_modules,
        position.bottom_left,
        position.bottom_right,
    );
    let mut bits: Vec<Vec<bool>> = Vec::new();
    let mut x: usize = 0;
    while x < number_of_modules
        invariant
            x <= number_of_modules,
            bits@.len() == x,
            forall|i: int|
                0 <= i < x ==> (#[trigger] bits@[i]).len() == number_of_modules,
            forall|i: int, y: int|
                #![trigger bits@[i][y]]
                0 <= i < x && 0 <= y < number_of_modules ==> bits@[i][y] == spec_module_bit(
                    image,
                    position,
                    i,
                    y,
                ),
        decreases number_of_modules - x,
    {
        let mut bits_x: Vec<bool> = Vec::new();
        let mut y: usize = 0;
        while y < number_of_modules
            invariant
                x < number_of_modules,
                y <= number_of_modules,
                bits_x@.len() == y,
                forall|j: int|
                    0 <= j < y ==> #[trigger] bits_x@[j] == spec_module_bit(
                        image,
                        position,
                        x as int,
                        j,
                    ),
            decreases number_of_modules - y,
        {
            let intersection = find_intersection_point(
                points_y_left[y],
                points_y_right[y],
                points_x_top[x],
                points_x_bottom[x],
            );
            let clamped_x_low: i128 = if intersection.0 >= 0 {
                intersection.0
            } else {
                0
            };
            let rounded_x: i128 = (clamped_x_low + 128) / 256;
            let pixel_x: usize = if rounded_x <= (image.width - 1) as i128 {
                proof {
                    vstd::arithmetic::div_mod::lemma_div_pos_is_pos(
                        clamped_x_low as int + 128,
                        256,
                    );
                }
                rounded_x as usize
            } else {
                image.width - 1
            };
            let clamped_y_low: i128 = if intersection.1 >= 0 {
                intersection.1
            } else {
                0
            };
            let rounded_y: i128 = (clamped_y_low + 128) / 256;
            let pixel_y: usize = if rounded_y <= (image.height - 1) as i128 {
                proof {
                    vstd::arithmetic::div_mod::lemma_div_pos_is_pos(
                        clamped_y_low as int + 128,
                        256,
                    );
                }
                rounded_y as usize
            } else {
                image.height - 1
            };
            let pixel_at_intersection = image.pixel(pixel_x, pixel_y);
            bits_x.push(pixel_at_intersection == 0);
            y += 1;
        }
        bits.push(bits_x);
        x += 1;
    }
    QRCodeModules { version: position.version, bits }
}

/// Samples the module matrix of every estimated symbol position.
#[verifier::loop_isolation(false)]
pub fn read_modules_for_all_codes(
    image: &GrayImage,
    positions: &Vec<QRCodePositionEstimation>,
) -> (codes: Vec<QRCodeModules>)
    requires
        image.wf(),
        image.width >= 1,
        image.height >= 1,
        forall|i: int|
            0 <= i < positions.len() ==> (#[trigger] positions@[i]).wf() && 1 <= positions@[i]
                .version.spec_value() <= 40,
    ensures
        codes@.len() == positions@.len(),
        forall|i: int|
            0 <= i < codes.len() ==> (#[trigger] codes@[i]).wf() && codes@[i].version
                == positions@[i].version,
        forall|i: int, x: int, y: int|
            #![trigger codes@[i].bits[x][y]]
            0 <= i < codes.len() && 0 <= x < codes@[i].bits.len() && 0 <= y
                < codes@[i].bits[x].len() ==> codes@[i].bits[x][y] == spec_module_bit(
                image,
                &positions@[i],
                x,
                y,
            ),
{
    let mut codes: Vec<QRCodeModules> = Vec::new();
    let mut i: usize = 0;
    while i < positions.len()
        invariant
            i <= positions.len(),
            codes@.len() == i,
            forall|k: int|
                0 <= k < i ==> (#[trigger] codes@[k]).wf() && codes@[k].version == positions@[k]
                    .version,
            forall|k: int, x: int, y: int|
                #![trigger codes@[k].bits[x][y]]
                0 <= k < i && 0 <= x < codes@[k].bits.len() && 0 <= y < codes@[k].bits[x].len()
                    ==> codes@[k].bits[x][y] == spec_module_bit(image, &positions@[k], x, y),
        decreases positions.len() - i,
    {
        let code = read_modules(image, &positions[i]);
        codes.push(code);
        i += 1;
    }
    codes
}

} // verus!
