//! Pixels of the round title-bar buttons.

use vstd::prelude::*;

use crate::geometry::{Rect, Size};
use crate::ieee::arith::{difference, product, quotient, sum};
use crate::ieee::bits::F32;
use crate::ieee::convert::{from_integer, truncated_u8};
use crate::ieee::format::{Float, Format};
use crate::ieee::order::at_most;
use crate::ieee::root::square_root;

verus! {

/// Colors of the traffic-light buttons, as red, green, blue and alpha.
pub const RED_BUTTON_COLOR: [u8; 4] = [255, 95, 87, 255];

pub const YELLOW_BUTTON_COLOR: [u8; 4] = [255, 189, 46, 255];

pub const GREEN_BUTTON_COLOR: [u8; 4] = [40, 200, 64, 255];

/// Measures of the buttons on a title bar, in pixels.
pub const BUTTON_SIZE: i32 = 12;

pub const BUTTON_SPACING: i32 = 8;

pub const MARGIN: i32 = 10;

/// The binary32 number nearest to an integer.
pub open spec fn single(n: int) -> Float {
    from_integer(Format::Binary32, n)
}

pub open spec fn one_half() -> Float {
    quotient(Format::Binary32, single(1), single(2))
}

/// Half the side of the image: the middle of the circle on both axes.
pub open spec fn circle_center(size: u32) -> Float {
    quotient(Format::Binary32, single(size as int), single(2))
}

/// The circle reaches half a pixel less than to the edge of the image.
pub open spec fn circle_radius(size: u32) -> Float {
    difference(Format::Binary32, circle_center(size), one_half())
}

/// Distance on one axis from the middle of the pixel to the middle of the circle.
pub open spec fn circle_offset(size: u32, position: int) -> Float {
    sum(
        Format::Binary32,
        difference(Format::Binary32, single(position), circle_center(size)),
        one_half(),
    )
}

/// Distance from the middle of the pixel to the middle of the circle.
pub open spec fn circle_distance(size: u32, x: int, y: int) -> Float {
    let dx = circle_offset(size, x);
    let dy = circle_offset(size, y);
    square_root(
        Format::Binary32,
        sum(
            Format::Binary32,
            product(Format::Binary32, dx, dx),
            product(Format::Binary32, dy, dy),
        ),
    )
}

/// Outer end of the anti-aliased edge.
pub open spec fn circle_rim(size: u32) -> Float {
    sum(Format::Binary32, circle_radius(size), single(1))
}

/// Alpha on the edge: what is left to its outer end, as a share of full alpha.
pub open spec fn edge_alpha(size: u32, distance: Float, alpha: u8) -> u8 {
    truncated_u8(
        Format::Binary32,
        product(
            Format::Binary32,
            difference(Format::Binary32, circle_rim(size), distance),
            single(alpha as int),
        ),
    )
}

/// One pixel: the color inside the circle, the color with a reduced alpha on
/// its edge, nothing outside.
pub open spec fn circle_pixel(size: u32, color: [u8; 4], x: int, y: int) -> Seq<u8> {
    let distance = circle_distance(size, x, y);
    if at_most(distance, circle_radius(size)) {
        color@
    } else if at_most(distance, circle_rim(size)) {
        color@.update(3, edge_alpha(size, distance, color[3]))
    } else {
        seq![0u8, 0, 0, 0]
    }
}

/// Place of a channel of a pixel in the image.
pub open spec fn pixel_index(size: u32, x: int, y: int, channel: int) -> int {
    (y * size + x) * 4 + channel
}

/// An image of a circle, four bytes to the pixel, row by row.
pub fn generate_circle_rgba(size: u32, color: [u8; 4]) -> (data: Vec<u8>)
    requires
        size * size * 4 <= u32::MAX,
    ensures
        data@.len() == size * size * 4,
        forall|x: int, y: int, channel: int|
            0 <= x < size && 0 <= y < size && 0 <= channel < 4 ==> data@[#[trigger] pixel_index(
                size,
                x,
                y,
                channel,
            )] == circle_pixel(size, color, x, y)[channel],
{
    let one: F32 = F32::from_i64(1);
    let two: F32 = F32::from_i64(2);
    let half: F32 = one.over(two);
    let center: F32 = F32::from_i64(size as i64).over(two);
    let radius: F32 = center.minus(half);
    let rim: F32 = radius.plus(one);
    let full: F32 = F32::from_i64(color[3] as i64);
    let mut data: Vec<u8> = Vec::new();
    let total: u32 = size * size;
    let mut pixel: u32 = 0;
    while pixel < total
        invariant
            total == size * size,
            size * size * 4 <= u32::MAX,
            pixel <= total,
            half@ == one_half(),
            center@ == circle_center(size),
            radius@ == circle_radius(size),
            rim@ == circle_rim(size),
            full@ == single(color[3] as int),
            data@.len() == pixel * 4,
            forall|i: int|
                0 <= i < data@.len() ==> #[trigger] data@[i] == circle_pixel(
                    size,
                    color,
                    (i / 4) % (size as int),
                    (i / 4) / (size as int),
                )[i % 4],
        decreases total - pixel,
    {
        proof {
            assert(size > 0) by (nonlinear_arith)
                requires
                    size * size > 0,
            ;
        }
        let x: u32 = pixel % size;
        let y: u32 = pixel / size;
        let dx: F32 = F32::from_i64(x as i64).minus(center).plus(half);
        let dy: F32 = F32::from_i64(y as i64).minus(center).plus(half);
        let distance: F32 = dx.times(dx).plus(dy.times(dy)).sqrt();
        let ghost before = data@;
        if distance.is_at_most(radius) {
            data.push(color[0]);
            data.push(color[1]);
            data.push(color[2]);
            data.push(color[3]);
        } else if distance.is_at_most(rim) {
            let alpha: u8 = rim.minus(distance).times(full).truncate_u8();
            data.push(color[0]);
            data.push(color[1]);
            data.push(color[2]);
            data.push(alpha);
        } else {
            data.push(0);
            data.push(0);
            data.push(0);
            data.push(0);
        }
        proof {
            let shown = circle_pixel(size, color, x as int, y as int);
            assert(data@ =~= before + seq![shown[0], shown[1], shown[2], shown[3]]);
            assert forall|i: int| 0 <= i < data@.len() implies #[trigger] data@[i] == circle_pixel(
                size,
                color,
                (i / 4) % (size as int),
                (i / 4) / (size as int),
            )[i % 4] by {
                if i >= before.len() {
                    assert(i / 4 == pixel);
                } else {
                    assert(data@[i] == before[i]);
                }
            }
        }
        pixel = pixel + 1;
    }
    proof {
        assert forall|x: int, y: int, channel: int|
            0 <= x < size && 0 <= y < size && 0 <= channel < 4 implies data@[#[trigger] pixel_index(
            size,
            x,
            y,
            channel,
        )] == circle_pixel(size, color, x, y)[channel] by {
            lemma_pixel_index(size, x, y, channel);
        }
    }
    data
}

proof fn lemma_pixel_index(size: u32, x: int, y: int, channel: int)
    requires
        0 <= x < size,
        0 <= y < size,
        0 <= channel < 4,
    ensures
        0 <= pixel_index(size, x, y, channel) < size * size * 4,
        pixel_index(size, x, y, channel) % 4 == channel,
        (pixel_index(size, x, y, channel) / 4) % (size as int) == x,
        (pixel_index(size, x, y, channel) / 4) / (size as int) == y,
{
    let pixel = y * size + x;
    assert(0 <= pixel < size * size) by (nonlinear_arith)
        requires
            0 <= x < size,
            0 <= y < size,
            pixel == y * size + x,
    ;
    assert(pixel_index(size, x, y, channel) / 4 == pixel);
    vstd::arithmetic::div_mod::lemma_fundamental_div_mod_converse(pixel, size as int, y, x);
}

/// A pixel format, named from the highest to the lowest byte of a little-endian
/// pixel.
#[derive(Debug, Clone, Copy, PartialEq, Eq, Structural)]
pub enum PixelFormat {
    /// Red, green, blue and alpha in memory.
    Abgr8888,
    /// Blue, green, red and alpha in memory.
    Argb8888,
    /// Blue, green and red in memory, and a byte that is not used.
    Xrgb8888,
}

/// How an image is turned, counterclockwise, and flipped before that.
#[derive(Debug, Clone, Copy, PartialEq, Eq, Structural)]
pub enum ImageTransform {
    Normal,
    Turned90,
    Turned180,
    Turned270,
    Flipped,
    FlippedTurned90,
    FlippedTurned180,
    FlippedTurned270,
}

/// An image in memory, with what the renderer has to know of it. Where nothing
/// is known to be opaque, there are no opaque regions.
#[derive(Debug)]
pub struct CircleBuffer {
    pub pixels: Vec<u8>,
    pub format: PixelFormat,
    pub size: Size,
    pub scale: i32,
    pub transform: ImageTransform,
    pub opaque_regions: Option<Vec<Rect>>,
}

/// Makes the image of a button: red, green, blue and alpha in memory, square, at
/// scale one, as it is, opaque nowhere.
pub fn create_circle_buffer(size: i32, color: [u8; 4]) -> (r: CircleBuffer)
    requires
        0 <= size,
        size * size * 4 <= u32::MAX,
    ensures
        r.size == (Size { w: size, h: size }),
        r.format == PixelFormat::Abgr8888,
        r.scale == 1,
        r.transform == ImageTransform::Normal,
        r.opaque_regions is None,
        r.pixels@.len() == size * size * 4,
        forall|x: int, y: int, channel: int|
            0 <= x < size && 0 <= y < size && 0 <= channel < 4
                ==> r.pixels@[#[trigger] pixel_index(size as u32, x, y, channel)] == circle_pixel(
                size as u32,
                color,
                x,
                y,
            )[channel],
{
    let pixels: Vec<u8> = generate_circle_rgba(size as u32, color);
    CircleBuffer {
        pixels,
        format: PixelFormat::Abgr8888,
        size: Size { w: size, h: size },
        scale: 1,
        transform: ImageTransform::Normal,
        opaque_regions: None,
    }
}

} // verus!
