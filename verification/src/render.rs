//! Frame assembly: which intersection a view ray stops at, which gray level
//! a light level gives, and how the gray levels of a frame become packed
//! pixels in a row-major buffer.

use crate::binary64::{
    decode, fields, in_reach, lemma_in_reach_is_between, lemma_magnitude_grows,
    lemma_scale_by_powers, less, Number, LARGEST, ZERO,
};
use crate::scene::any_in_reach;
use vstd::arithmetic::power2::{
    lemma2_to64_rest, lemma_pow2_pos, lemma_pow2_strictly_increases, pow2,
};
use vstd::prelude::*;

verus! {

/// The packed color of a pixel whose view ray meets no object.
pub const BACKGROUND: u32 = 0x050505;

/// No view ray stops at or beyond this parameter.
pub const FARTHEST: u64 = LARGEST;

/// Where a view ray stops: the object, by its position in the scene, and the
/// ray parameter of the intersection.
#[derive(Clone, Copy, Debug, PartialEq, Eq)]
pub struct Hit {
    pub object: usize,
    pub param: u64,
}

/// Whether `hit` is where a view ray stops, given the intersections that each
/// object of the scene reports, in scene order: its parameter is the smallest
/// one in reach, and its object is the first one that reports that parameter.
pub open spec fn is_nearest(world: Seq<Seq<u64>>, hit: Hit) -> bool {
    &&& hit.object < world.len()
    &&& world[hit.object as int].contains(hit.param)
    &&& in_reach(hit.param, FARTHEST)
    &&& forall|i: int, j: int|
        0 <= i < world.len() && 0 <= j < world[i].len() && in_reach(
            #[trigger] world[i][j],
            FARTHEST,
        ) ==> hit.param <= world[i][j]
    &&& forall|i: int, j: int|
        0 <= i < hit.object && 0 <= j < world[i].len() ==> #[trigger] world[i][j] != hit.param
}

/// A view ray stops at one place at most.
pub proof fn lemma_nearest_is_unique(world: Seq<Seq<u64>>, one: Hit, other: Hit)
    requires
        is_nearest(world, one),
        is_nearest(world, other),
    ensures
        one == other,
{
    let first = world[one.object as int];
    let second = world[other.object as int];
    let a = choose|j: int| 0 <= j < first.len() && first[j] == one.param;
    let b = choose|j: int| 0 <= j < second.len() && second[j] == other.param;
    assert(one.param <= world[other.object as int][b]);
    assert(other.param <= world[one.object as int][a]);
}

/// Where a view ray stops, the parameter is a number above zero and below
/// the largest finite one, and no intersection with such a parameter is
/// nearer.
pub proof fn lemma_nearest_is_least_number(world: Seq<Seq<u64>>, hit: Hit, i: int, j: int)
    requires
        is_nearest(world, hit),
        0 <= i < world.len(),
        0 <= j < world[i].len(),
    ensures
        less(decode(ZERO), decode(hit.param)) && less(decode(hit.param), decode(FARTHEST)),
        less(decode(ZERO), decode(world[i][j])) && less(decode(world[i][j]), decode(FARTHEST))
            ==> !less(decode(world[i][j]), decode(hit.param)),
{
    lemma_in_reach_is_between(hit.param, FARTHEST);
    lemma_in_reach_is_between(world[i][j], FARTHEST);
    if in_reach(world[i][j], FARTHEST) {
        if hit.param < world[i][j] {
            lemma_magnitude_grows(hit.param, world[i][j]);
        } else if hit.param > 1 {
            lemma_magnitude_grows(1, hit.param);
        }
    }
}

/// Finds where a view ray stops.
///
/// `intersections[k]` holds the ray parameters at which the ray meets object
/// `k` of the scene, as binary64 patterns.  The scan keeps the smallest
/// parameter in reach; of two objects that report it, the earlier one is
/// kept.
pub fn nearest_hit(intersections: &Vec<Vec<u64>>) -> (hit: Option<Hit>)
    ensures
        hit is Some <==> any_in_reach(intersections.deep_view(), FARTHEST),
        hit matches Some(h) ==> is_nearest(intersections.deep_view(), h),
{
    let ghost world = intersections.deep_view();
    let mut current_distance: u64 = FARTHEST;
    let mut current_object: Option<usize> = None;
    let mut i: usize = 0;
    while i < intersections.len()
        invariant
            i <= intersections.len(),
            world == intersections.deep_view(),
            current_distance <= FARTHEST,
            current_object is None ==> current_distance == FARTHEST,
            current_object matches Some(k) ==> k < i && world[k as int].contains(current_distance)
                && in_reach(current_distance, FARTHEST),
            forall|a: int, b: int|
                0 <= a < i && 0 <= b < world[a].len() && in_reach(#[trigger] world[a][b], FARTHEST)
                    ==> current_object is Some && current_distance <= world[a][b],
            forall|a: int, b: int|
                current_object matches Some(k) && 0 <= a < k && 0 <= b < world[a].len()
                    ==> #[trigger] world[a][b] != current_distance,
        decreases intersections.len() - i,
    {
        let t_s = &intersections[i];
        assert(world[i as int] == t_s@);
        let mut j: usize = 0;
        while j < t_s.len()
            invariant
                i < intersections.len(),
                j <= t_s.len(),
                world == intersections.deep_view(),
                world[i as int] == t_s@,
                current_distance <= FARTHEST,
                current_object is None ==> current_distance == FARTHEST,
                current_object matches Some(k) ==> k <= i && world[k as int].contains(
                    current_distance,
                ) && in_reach(current_distance, FARTHEST),
                forall|a: int, b: int|
                    0 <= a < i && 0 <= b < world[a].len() && in_reach(
                        #[trigger] world[a][b],
                        FARTHEST,
                    ) ==> current_object is Some && current_distance <= world[a][b],
                forall|b: int|
                    0 <= b < j && in_reach(#[trigger] t_s@[b], FARTHEST) ==> current_object is Some
                        && current_distance <= t_s@[b],
                forall|a: int, b: int|
                    current_object matches Some(k) && 0 <= a < k && 0 <= b < world[a].len()
                        ==> #[trigger] world[a][b] != current_distance,
            decreases t_s.len() - j,
        {
            let t: u64 = t_s[j];
            if 0 < t && t < current_distance {
                current_distance = t;
                current_object = Some(i);
            }
            j += 1;
        }
        i += 1;
    }
    match current_object {
        None => None,
        Some(k) => Some(Hit { object: k, param: current_distance }),
    }
}

/// The gray level of a light level that the caller has scaled by 255: the
/// whole part of the number, kept within 0 and 255.  So a light level of
/// one or more gives 255, and one that is negative or no number gives 0.
pub open spec fn gray_level_spec(scaled: u64) -> int {
    match decode(scaled) {
        Number::Nan => 0,
        Number::Infinite { negative } => if negative {
            0
        } else {
            255
        },
        Number::Finite { negative, magnitude } => {
            let whole = magnitude as int / pow2(1074) as int;
            if negative {
                0
            } else if whole > 255 {
                255
            } else {
                whole
            }
        },
    }
}

/// Turns a light level, scaled by 255 and given as its binary64 pattern,
/// into a gray level.
pub fn gray_level(scaled: u64) -> (level: u8)
    ensures
        level == gray_level_spec(scaled),
{
    let (negative, exponent, fraction) = fields(scaled);
    proof {
        lemma_pow2_pos(1074);
        lemma2_to64_rest();
    }
    if negative {
        0
    } else if exponent == 0x7FF {
        if fraction == 0 {
            255
        } else {
            0
        }
    } else if exponent == 0 {
        proof {
            lemma_pow2_strictly_increases(52, 1074);
            vstd::arithmetic::div_mod::lemma_basic_div(fraction as int, pow2(1074) as int);
        }
        0
    } else {
        let mantissa: u64 = 0x10_0000_0000_0000 + fraction;
        proof {
            lemma_scale_by_powers(mantissa as nat, (exponent - 1) as nat, 1074);
        }
        if exponent >= 1075 {
            proof {
                lemma_pow2_pos((exponent - 1075) as nat);
                vstd::arithmetic::mul::lemma_mul_inequality(
                    1,
                    pow2((exponent - 1075) as nat) as int,
                    mantissa as int,
                );
                assert(pow2((exponent - 1075) as nat) * mantissa == mantissa * pow2(
                    (exponent - 1075) as nat,
                )) by (nonlinear_arith);
            }
            255
        } else {
            let shift: u64 = 1075 - exponent;
            if shift >= 53 {
                proof {
                    if shift > 53 {
                        lemma_pow2_strictly_increases(53, shift as nat);
                    }
                    vstd::arithmetic::div_mod::lemma_basic_div(
                        mantissa as int,
                        pow2(shift as nat) as int,
                    );
                }
                0
            } else {
                proof {
                    vstd::bits::lemma_u64_shr_is_div(mantissa, shift);
                }
                let whole: u64 = mantissa >> shift;
                if whole > 255 {
                    255
                } else {
                    whole as u8
                }
            }
        }
    }
}

/// The packed color of gray level `c`: the same byte in the blue, green and
/// red positions, and a zero top byte.
pub open spec fn gray_spec(c: u8) -> u32 {
    (c + 0x100 * c + 0x10000 * c) as u32
}

/// Packs gray level `c` into a 32-bit pixel.
#[verifier::when_used_as_spec(gray_spec)]
pub fn gray(c: u8) -> (pixel: u32)
    ensures
        pixel == gray_spec(c),
        pixel == c + 0x100 * c + 0x10000 * c,
{
    let c: u32 = c as u32;
    c + 0x100 * c + 0x10000 * c
}

/// The three color bytes of a gray pixel hold the level, and its top byte is
/// clear.
pub proof fn lemma_gray_channels(c: u8)
    ensures
        gray_spec(c) & 0xFF == c,
        (gray_spec(c) >> 8) & 0xFF == c,
        (gray_spec(c) >> 16) & 0xFF == c,
        gray_spec(c) >> 24 == 0,
{
    let pixel = gray_spec(c);
    let level = c as u32;
    assert(pixel == level + 0x100 * level + 0x10000 * level);
    assert(pixel & 0xFF == level && (pixel >> 8) & 0xFF == level && (pixel >> 16) & 0xFF == level
        && pixel >> 24 == 0) by (bit_vector)
        requires
            level < 0x100,
            pixel == level + 0x100 * level + 0x10000 * level,
    ;
}

/// The packed color of a shaded pixel: the background where the view ray
/// met nothing, else the gray of the level that the lights gave.
pub open spec fn pixel_color_spec(shade: Option<u8>) -> u32 {
    match shade {
        None => BACKGROUND,
        Some(c) => gray_spec(c),
    }
}

/// Turns the outcome of shading one pixel into its packed color.
#[verifier::when_used_as_spec(pixel_color_spec)]
pub fn pixel_color(shade: Option<u8>) -> (pixel: u32)
    ensures
        pixel == pixel_color_spec(shade),
{
    match shade {
        None => BACKGROUND,
        Some(c) => gray(c),
    }
}

/// The place of pixel `(x, y)` in a row-major buffer of rows `width` long.
pub open spec fn buffer_index(width: int, x: int, y: int) -> int {
    y * width + x
}

/// The place of pixel `(x, y)` in scan order: column after column, each from
/// the top row down, on a screen `height` rows high.
pub open spec fn scan_index(height: int, x: int, y: int) -> int {
    x * height + y
}

/// Two pixels of one screen that share a place in the buffer are the same
/// pixel.
pub proof fn lemma_buffer_index_injective(width: int, x1: int, y1: int, x2: int, y2: int)
    requires
        0 <= x1 < width,
        0 <= x2 < width,
        buffer_index(width, x1, y1) == buffer_index(width, x2, y2),
    ensures
        x1 == x2,
        y1 == y2,
{
    assert(y1 == y2) by (nonlinear_arith)
        requires
            0 <= x1 < width,
            0 <= x2 < width,
            y1 * width + x1 == y2 * width + x2,
    {
        if y1 < y2 {
            assert((y2 - y1) * width >= width);
        } else if y2 < y1 {
            assert((y1 - y2) * width >= width);
        }
    }
}

/// Every pixel of a screen has its place among the first `width * height`
/// entries of the buffer.
pub proof fn lemma_buffer_index_in_frame(width: int, height: int, x: int, y: int)
    requires
        0 <= x < width,
        0 <= y < height,
    ensures
        0 <= buffer_index(width, x, y) < width * height,
        0 <= scan_index(height, x, y) < width * height,
{
    assert(0 <= y * width + x < width * height && 0 <= x * height + y < width * height)
        by (nonlinear_arith)
        requires
            0 <= x < width,
            0 <= y < height,
    {
        assert((y + 1) * width <= height * width);
        assert((x + 1) * height <= width * height);
    }
}

/// Every place among the first `width * height` of the buffer is that of the
/// pixel in column `i % width` and row `i / width`.
pub proof fn lemma_place_is_a_pixel(width: int, height: int, i: int)
    requires
        0 < width,
        0 <= i < width * height,
    ensures
        0 <= i % width < width,
        0 <= i / width < height,
        buffer_index(width, i % width, i / width) == i,
{
    vstd::arithmetic::div_mod::lemma_fundamental_div_mod(i, width);
    vstd::arithmetic::div_mod::lemma_mod_bound(i, width);
    let q = i / width;
    assert(0 <= q < height) by (nonlinear_arith)
        requires
            0 < width,
            0 <= i < width * height,
            i == width * q + i % width,
            0 <= i % width < width,
    {
        if q >= height {
            assert(width * q >= width * height);
        }
        if q < 0 {
            assert(width * q <= -width);
        }
    }
    assert(q * width == width * q) by (nonlinear_arith);
}

/// Writes the color of pixel `(x, y)` to its place in the frame buffer.
pub fn put_pixel(buffer: &mut Vec<u32>, screen_width: u16, x: u16, y: u16, shade: Option<u8>)
    requires
        buffer_index(screen_width as int, x as int, y as int) < old(buffer).len(),
    ensures
        final(buffer)@ == old(buffer)@.update(
            buffer_index(screen_width as int, x as int, y as int),
            pixel_color_spec(shade),
        ),
{
    assert(y * screen_width + x <= 0xFFFF * 0xFFFF + 0xFFFF) by (nonlinear_arith)
        requires
            y <= 0xFFFF,
            screen_width <= 0xFFFF,
            x <= 0xFFFF,
    ;
    let index: usize = (y as usize) * (screen_width as usize) + (x as usize);
    buffer.set(index, pixel_color(shade));
}

/// Assembles one frame.
///
/// `shades` holds the outcome of shading each pixel, in scan order: `None`
/// where the view ray met no object, else the gray level.  Every pixel of the
/// screen gets its packed color at its row-major place in `buffer`; what the
/// buffer holds beyond the frame stays.
pub fn render(
    shades: &Vec<Option<u8>>,
    buffer: &mut Vec<u32>,
    screen_width: u16,
    screen_height: u16,
)
    requires
        shades.len() == screen_width * screen_height,
        old(buffer).len() >= screen_width * screen_height,
    ensures
        final(buffer).len() == old(buffer).len(),
        forall|x: int, y: int|
            0 <= x < screen_width && 0 <= y < screen_height ==> final(buffer)@[
                #[trigger] buffer_index(screen_width as int, x, y)
            ] == pixel_color_spec(shades@[scan_index(screen_height as int, x, y)]),
        forall|i: int|
            0 <= i < screen_width * screen_height ==> #[trigger] final(buffer)@[i]
                == pixel_color_spec(
                shades@[
                    scan_index(
                        screen_height as int,
                        i % (screen_width as int),
                        i / (screen_width as int),
                    )
                ],
            ),
        forall|i: int|
            screen_width * screen_height <= i < old(buffer).len() ==> final(buffer)@[i] == old(
                buffer,
            )@[i],
{
    let ghost width = screen_width as int;
    let ghost height = screen_height as int;
    let mut x: u16 = 0;
    while x < screen_width
        invariant
            x <= screen_width,
            width == screen_width,
            height == screen_height,
            shades.len() == width * height,
            buffer.len() == old(buffer).len(),
            buffer.len() >= width * height,
            forall|a: int, b: int|
                0 <= a < x && 0 <= b < height ==> buffer@[#[trigger] buffer_index(width, a, b)]
                    == pixel_color_spec(shades@[scan_index(height, a, b)]),
            forall|i: int| width * height <= i < buffer.len() ==> buffer@[i] == old(buffer)@[i],
        decreases screen_width - x,
    {
        let mut y: u16 = 0;
        while y < screen_height
            invariant
                x < screen_width,
                y <= screen_height,
                width == screen_width,
                height == screen_height,
                shades.len() == width * height,
                buffer.len() == old(buffer).len(),
                buffer.len() >= width * height,
                forall|a: int, b: int|
                    0 <= a < x && 0 <= b < height ==> buffer@[#[trigger] buffer_index(width, a, b)]
                        == pixel_color_spec(shades@[scan_index(height, a, b)]),
                forall|b: int|
                    0 <= b < y ==> buffer@[#[trigger] buffer_index(width, x as int, b)]
                        == pixel_color_spec(shades@[scan_index(height, x as int, b)]),
                forall|i: int| width * height <= i < buffer.len() ==> buffer@[i] == old(buffer)@[i],
            decreases screen_height - y,
        {
            proof {
                lemma_buffer_index_in_frame(width, height, x as int, y as int);
            }
            let place: usize = (x as usize) * (screen_height as usize) + (y as usize);
            put_pixel(buffer, screen_width, x, y, shades[place]);
            proof {
                assert forall|a: int, b: int| 0 <= a < x && 0 <= b < height implies buffer@[
                    #[trigger] buffer_index(width, a, b)
                ] == pixel_color_spec(shades@[scan_index(height, a, b)]) by {
                    lemma_buffer_index_in_frame(width, height, a, b);
                    if buffer_index(width, a, b) == buffer_index(width, x as int, y as int) {
                        lemma_buffer_index_injective(width, a, b, x as int, y as int);
                    }
                }
                assert forall|b: int| 0 <= b < y + 1 implies buffer@[
                    #[trigger] buffer_index(width, x as int, b)
                ] == pixel_color_spec(shades@[scan_index(height, x as int, b)]) by {
                    lemma_buffer_index_in_frame(width, height, x as int, b);
                    if b != y && buffer_index(width, x as int, b) == buffer_index(
                        width,
                        x as int,
                        y as int,
                    ) {
                        lemma_buffer_index_injective(width, x as int, b, x as int, y as int);
                    }
                }
            }
            y += 1;
        }
        x += 1;
    }
    proof {
        assert forall|i: int| 0 <= i < width * height implies #[trigger] buffer@[i]
            == pixel_color_spec(shades@[scan_index(height, i % width, i / width)]) by {
            assert(0 < width) by (nonlinear_arith)
                requires
                    0 <= width,
                    0 <= i < width * height,
            ;
            lemma_place_is_a_pixel(width, height, i);
            assert(buffer@[buffer_index(width, i % width, i / width)] == pixel_color_spec(
                shades@[scan_index(height, i % width, i / width)],
            ));
        }
    }
}

} // verus!
