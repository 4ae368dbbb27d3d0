//! Colour: RGB pixels to luminance and chrominance and back, and the
//! subsampling of the chrominance.
//!
//! All of it is exact integer arithmetic. A value that lies halfway between
//! two integers is rounded up. Two neighbouring chrominance samples of a row
//! are averaged into one; decoding puts that one in the place of both.

use crate::blocks::padded;
use crate::blocks::MyYuvImage;
use crate::error::DecodeError;
use crate::error::EncodeError;
use crate::planes::YuvComponent;
use crate::planes::DecodedYuvImage;
use crate::rounding::clamp;
use vstd::prelude::*;

verus! {

/// An image of 8-bit RGB pixels: `width * height * 3` bytes, row by row, the
/// three bytes of a pixel together.
#[derive(Debug)]
pub struct Raster {
    pub width: usize,
    pub height: usize,
    pub data: Vec<u8>,
}

/// The luminance of a pixel: `0.299 R + 0.587 G + 0.114 B`, rounded.
pub open spec fn luma(r: u8, g: u8, b: u8) -> int {
    (299 * r + 587 * g + 114 * b + 500) / 1000
}

/// The blue chrominance of a pixel: `-0.1687 R - 0.3313 G + 0.5 B + 128`,
/// rounded and kept within a byte.
pub open spec fn chroma_blue(r: u8, g: u8, b: u8) -> int {
    clamp((-1687 * r - 3313 * g + 5000 * b + 1280000 + 5000) / 10000, 0, 255)
}

/// The red chrominance of a pixel: `0.5 R - 0.4187 G - 0.0813 B + 128`,
/// rounded and kept within a byte.
pub open spec fn chroma_red(r: u8, g: u8, b: u8) -> int {
    clamp((5000 * r - 4187 * g - 813 * b + 1280000 + 5000) / 10000, 0, 255)
}

/// The luminance of a pixel.
pub fn rgb_to_luma(r: u8, g: u8, b: u8) -> (y: u8)
    ensures
        y == luma(r, g, b),
{
    ((299 * r as u32 + 587 * g as u32 + 114 * b as u32 + 500) / 1000) as u8
}

/// The blue chrominance of a pixel.
pub fn rgb_to_chroma_blue(r: u8, g: u8, b: u8) -> (u: u8)
    ensures
        u == chroma_blue(r, g, b),
{
    let n = (1285000 + 5000 * b as i32 - 1687 * r as i32 - 3313 * g as i32) / 10000;
    if n > 255 {
        255
    } else {
        n as u8
    }
}

/// The red chrominance of a pixel.
pub fn rgb_to_chroma_red(r: u8, g: u8, b: u8) -> (v: u8)
    ensures
        v == chroma_red(r, g, b),
{
    let n = (1285000 + 5000 * r as i32 - 4187 * g as i32 - 813 * b as i32) / 10000;
    if n > 255 {
        255
    } else {
        n as u8
    }
}

/// A colour in parts of a million, rounded and kept within a byte.
pub open spec fn rounded_byte(millionths: int) -> int {
    clamp((millionths + 500000) / 1000000, 0, 255)
}

/// The red of a pixel: `Y + 1.402 (Cr - 128)`.
pub open spec fn red_of(y: u8, u: u8, v: u8) -> int {
    rounded_byte(1000000 * y + 1402000 * (v - 128))
}

/// The green of a pixel: `Y - 0.344136 (Cb - 128) - 0.714136 (Cr - 128)`.
pub open spec fn green_of(y: u8, u: u8, v: u8) -> int {
    rounded_byte(1000000 * y - 344136 * (u - 128) - 714136 * (v - 128))
}

/// The blue of a pixel: `Y + 1.772 (Cb - 128)`.
pub open spec fn blue_of(y: u8, u: u8, v: u8) -> int {
    rounded_byte(1000000 * y + 1772000 * (u - 128))
}

/// [`rounded_byte`], computed.
fn round_byte(millionths: i64) -> (r: u8)
    requires
        -1000000000 <= millionths <= 1000000000,
    ensures
        r == rounded_byte(millionths as int),
{
    let shifted = millionths + 500000 + 1000000000;
    let n = shifted / 1000000 - 1000;
    assert(n == (millionths + 500000) / 1000000) by {
        vstd::arithmetic::div_mod::lemma_div_plus_one(millionths + 500000, 1000000);
        assert((millionths + 500000 + 1000 * 1000000) / 1000000 == (millionths + 500000)
            / 1000000 + 1000) by {
            vstd::arithmetic::div_mod::lemma_fundamental_div_mod_converse(
                millionths + 500000 + 1000 * 1000000,
                1000000,
                (millionths + 500000) / 1000000 + 1000,
                (millionths + 500000) % 1000000,
            );
        }
    }
    if n < 0 {
        0
    } else if n > 255 {
        255
    } else {
        n as u8
    }
}

/// The RGB pixel of the given luminance and chrominances.
pub fn yuv_to_rgb(y: u8, u: u8, v: u8) -> (rgb: (u8, u8, u8))
    ensures
        rgb.0 == red_of(y, u, v),
        rgb.1 == green_of(y, u, v),
        rgb.2 == blue_of(y, u, v),
{
    let y = y as i64;
    let u = u as i64 - 128;
    let v = v as i64 - 128;
    (
        round_byte(1000000 * y + 1402000 * v),
        round_byte(1000000 * y - 344136 * u - 714136 * v),
        round_byte(1000000 * y + 1772000 * u),
    )
}

/// `i`, or the last place below `n` where `i` lies beyond it: the place
/// whose sample fills the padding.
pub open spec fn nearest(i: int, n: int) -> int {
    if i < n {
        i
    } else {
        n - 1
    }
}

/// Byte `channel` of the pixel in column `x` and row `y`.
pub open spec fn pixel_byte(image: Raster, x: int, y: int, channel: int) -> u8 {
    image.data@[(y * image.width + x) * 3 + channel]
}

/// The luminance (`kind` 0), blue chrominance (`kind` 1) or red chrominance
/// (any other `kind`) at column `px` and row `py` of the padded image.
pub open spec fn sample_of(image: Raster, px: int, py: int, kind: u8) -> int {
    let x = nearest(px, image.width as int);
    let y = nearest(py, image.height as int);
    let r = pixel_byte(image, x, y, 0);
    let g = pixel_byte(image, x, y, 1);
    let b = pixel_byte(image, x, y, 2);
    if kind == 0 {
        luma(r, g, b)
    } else if kind == 1 {
        chroma_blue(r, g, b)
    } else {
        chroma_red(r, g, b)
    }
}

/// Sample `cx` of row `py` of a chrominance plane: the average of the two
/// samples that it stands for.
pub open spec fn averaged_sample_of(image: Raster, cx: int, py: int, kind: u8) -> int {
    (sample_of(image, 2 * cx, py, kind) + sample_of(image, 2 * cx + 1, py, kind) + 1) / 2
}

impl Raster {
    /// The image has pixels, its size fits 16 bits, and it holds three bytes
    /// for each pixel.
    pub open spec fn wf(&self) -> bool {
        &&& 0 < self.width <= 65535
        &&& 0 < self.height <= 65535
        &&& self.data@.len() == self.width * self.height * 3
    }
}

/// `yuv` holds the planes of `image`.
pub open spec fn is_yuv_of(yuv: MyYuvImage, image: Raster) -> bool {
    &&& yuv.original_width == image.width
    &&& yuv.original_height == image.height
    &&& yuv.wf()
    &&& forall|px: int, py: int|
        0 <= px < yuv.spec_padded_width() && 0 <= py < yuv.spec_padded_height()
            ==> #[trigger] yuv.y@[py * yuv.spec_padded_width() + px] == sample_of(image, px, py, 0)
    &&& forall|cx: int, py: int|
        0 <= cx < yuv.spec_padded_width() / 2 && 0 <= py < yuv.spec_padded_height()
            ==> #[trigger] yuv.u@[py * (yuv.spec_padded_width() / 2) + cx] == averaged_sample_of(
            image,
            cx,
            py,
            1,
        )
    &&& forall|cx: int, py: int|
        0 <= cx < yuv.spec_padded_width() / 2 && 0 <= py < yuv.spec_padded_height()
            ==> #[trigger] yuv.v@[py * (yuv.spec_padded_width() / 2) + cx] == averaged_sample_of(
            image,
            cx,
            py,
            2,
        )
}

/// One sample of the padded image.
fn sample_at(image: &Raster, px: usize, py: usize, kind: u8) -> (r: u8)
    requires
        image.wf(),
    ensures
        r == sample_of(*image, px as int, py as int, kind),
{
    let x = if px < image.width {
        px
    } else {
        image.width - 1
    };
    let y = if py < image.height {
        py
    } else {
        image.height - 1
    };
    let total = image.data.len();
    assert(0 <= y * image.width + x && (y * image.width + x) * 3 + 3 <= image.width * image.height
        * 3) by (nonlinear_arith)
        requires
            0 <= x < image.width,
            0 <= y < image.height,
    ;
    let at = (y * image.width + x) * 3;
    let r = image.data[at];
    let g = image.data[at + 1];
    let b = image.data[at + 2];
    if kind == 0 {
        rgb_to_luma(r, g, b)
    } else if kind == 1 {
        rgb_to_chroma_blue(r, g, b)
    } else {
        rgb_to_chroma_red(r, g, b)
    }
}

/// One plane of the padded image: `width` by `height` samples of the given
/// kind, each the average of two neighbours where `halved` is set.
fn build_plane(image: &Raster, width: usize, height: usize, kind: u8, halved: bool) -> (values:
    Vec<u8>)
    requires
        image.wf(),
        width <= 65536,
        height <= 65536,
    ensures
        values@.len() == height * width,
        forall|x: int, y: int|
            0 <= x < width && 0 <= y < height ==> #[trigger] values@[y * width + x] == (if halved {
                averaged_sample_of(*image, x, y, kind)
            } else {
                sample_of(*image, x, y, kind)
            }),
{
    let mut values: Vec<u8> = Vec::new();
    let mut y: usize = 0;
    proof {
        assert(0 * width == 0);
    }
    while y < height
        invariant
            y <= height,
            image.wf(),
            width <= 65536,
            height <= 65536,
            values@.len() == y * width,
            forall|x2: int, y2: int|
                0 <= x2 < width && 0 <= y2 < y ==> #[trigger] values@[y2 * width + x2]
                    == (if halved {
                    averaged_sample_of(*image, x2, y2, kind)
                } else {
                    sample_of(*image, x2, y2, kind)
                }),
        decreases height - y,
    {
        let mut x: usize = 0;
        while x < width
            invariant
                x <= width,
                y < height,
                image.wf(),
                width <= 65536,
                height <= 65536,
                values@.len() == y * width + x,
                forall|x2: int, y2: int|
                    0 <= x2 < width && 0 <= y2 < y ==> #[trigger] values@[y2 * width + x2] == (
                    if halved {
                        averaged_sample_of(*image, x2, y2, kind)
                    } else {
                        sample_of(*image, x2, y2, kind)
                    }),
                forall|x2: int|
                    0 <= x2 < x ==> #[trigger] values@[y * width + x2] == (if halved {
                        averaged_sample_of(*image, x2, y as int, kind)
                    } else {
                        sample_of(*image, x2, y as int, kind)
                    }),
            decreases width - x,
        {
            let sample = if halved {
                let a = sample_at(image, 2 * x, y, kind);
                let b = sample_at(image, 2 * x + 1, y, kind);
                ((a as u16 + b as u16 + 1) / 2) as u8
            } else {
                sample_at(image, x, y, kind)
            };
            let ghost before = values@;
            values.push(sample);
            proof {
                assert forall|x2: int, y2: int| 0 <= x2 < width && 0
                    <= y2 < y implies #[trigger] values@[y2
                    * width + x2] == (if halved {
                    averaged_sample_of(*image, x2, y2, kind)
                } else {
                    sample_of(*image, x2, y2, kind)
                }) by {
                    assert(0 <= y2 * width + x2 < y * width) by (nonlinear_arith)
                        requires
                            0 <= x2 < width,
                            0 <= y2 < y,
                    ;
                    assert(values@[y2 * width + x2] == before[y2 * width + x2]);
                }
                assert forall|x2: int| 0 <= x2 < x + 1 implies #[trigger] values@[y * width + x2]
                    == (
                if halved {
                    averaged_sample_of(*image, x2, y as int, kind)
                } else {
                    sample_of(*image, x2, y as int, kind)
                }) by {
                    if x2 < x {
                        assert(values@[y * width + x2] == before[y * width + x2]);
                    }
                }
            }
            x += 1;
        }
        proof {
            assert((y + 1) * width == y * width + width) by (nonlinear_arith);
        }
        y += 1;
    }
    values
}

/// What stands in the way of encoding an image, if anything: it has no
/// pixels; or its size does not fit the 16 bits of a frame header, or its data
/// is not three bytes for each pixel.
pub open spec fn encode_obstacle(image: Raster) -> Option<EncodeError> {
    if image.width == 0 || image.height == 0 {
        Some(EncodeError::EmptyImage)
    } else if image.width > 65535 || image.height > 65535 || image.data@.len() != image.width
        * image.height * 3 {
        Some(EncodeError::InvalidDimensions)
    } else {
        None
    }
}

/// Turns an RGB image into planes of luminance and chrominance, the
/// chrominance at half the horizontal resolution, padded to whole MCUs of 16×8
/// pixels with the last sample of each row and the last row.
pub fn encode_step1(image: &Raster) -> (r: Result<MyYuvImage, EncodeError>)
    ensures
        match r {
            Ok(yuv) => encode_obstacle(*image) is None && is_yuv_of(yuv, *image),
            Err(e) => encode_obstacle(*image) == Some(e),
        },
{
    if image.width == 0 || image.height == 0 {
        return Err(EncodeError::EmptyImage);
    }
    if image.width > 65535 || image.height > 65535 {
        return Err(EncodeError::InvalidDimensions);
    }
    assert(image.width * image.height <= 65535 * 65535) by (nonlinear_arith)
        requires
            0 <= image.width <= 65535,
            0 <= image.height <= 65535,
    ;
    let expected = (image.width as u64) * (image.height as u64) * 3;
    if image.data.len() as u64 != expected {
        return Err(EncodeError::InvalidDimensions);
    }
    let mut yuv = MyYuvImage {
        original_width: image.width,
        original_height: image.height,
        y: Vec::new(),
        u: Vec::new(),
        v: Vec::new(),
    };
    let padded_width = yuv.padded_width();
    let padded_height = yuv.padded_height();
    yuv.y = build_plane(image, padded_width, padded_height, 0, false);
    yuv.u = build_plane(image, padded_width / 2, padded_height, 1, true);
    yuv.v = build_plane(image, padded_width / 2, padded_height, 2, true);
    proof {
        assert(padded_height * padded_width == padded_width * padded_height) by (nonlinear_arith);
        assert(padded_height * (padded_width / 2) == (padded_width / 2) * padded_height)
            by (nonlinear_arith);
    }
    Ok(yuv)
}

/// The sample of a plane that covers the pixel in column `x` and row `y`.
pub open spec fn plane_sample(plane: YuvComponent, padded_width: int, x: int, y: int) -> u8 {
    plane.values@[(y / (plane.absolute_vertical_sampling_factor as int))
        * plane.stride(padded_width)
        + x / (plane.absolute_horizontal_sampling_factor as int)]
}

/// The three bytes of the pixel in column `x` and row `y` stand in `data`:
/// they are made of the samples of the three planes that cover the pixel.
pub open spec fn pixel_done(data: Seq<u8>, image: DecodedYuvImage, x: int, y: int) -> bool {
    let luminance = plane_sample(image.y, image.padded_width as int, x, y);
    let blue = plane_sample(image.u, image.padded_width as int, x, y);
    let red = plane_sample(image.v, image.padded_width as int, x, y);
    &&& data[(y * image.width + x) * 3] == red_of(luminance, blue, red)
    &&& data[(y * image.width + x) * 3 + 1] == green_of(luminance, blue, red)
    &&& data[(y * image.width + x) * 3 + 2] == blue_of(luminance, blue, red)
}

/// `raster` holds the pixels of `image`, the padding left out.
pub open spec fn is_rgb_of(raster: Raster, image: DecodedYuvImage) -> bool {
    &&& raster.width == image.width
    &&& raster.height == image.height
    &&& raster.data@.len() == image.height * image.width * 3
    &&& forall|x: int, y: int|
        0 <= x < image.width && 0 <= y < image.height ==> #[trigger] pixel_done(
            raster.data@,
            image,
            x,
            y,
        )
}

/// The sample of a plane that covers a pixel.
fn sample_for(
    plane: &YuvComponent,
    padded_width: usize,
    padded_height: usize,
    x: usize,
    y: usize,
) -> (r: u8)
    requires
        plane.covers(padded_width as int, padded_height as int),
        x < padded_width <= 131072,
        y < padded_height <= 131072,
    ensures
        r == plane_sample(*plane, padded_width as int, x as int, y as int),
{
    let hs = plane.absolute_horizontal_sampling_factor;
    let vs = plane.absolute_vertical_sampling_factor;
    let stride = padded_width / hs;
    let yc = y / vs;
    let xc = x / hs;
    let total = plane.values.len();
    proof {
        let rows = padded_height as int / (vs as int);
        vstd::arithmetic::div_mod::lemma_fundamental_div_mod(padded_width as int, hs as int);
        vstd::arithmetic::div_mod::lemma_fundamental_div_mod(padded_height as int, vs as int);
        vstd::arithmetic::div_mod::lemma_fundamental_div_mod(x as int, hs as int);
        vstd::arithmetic::div_mod::lemma_fundamental_div_mod(y as int, vs as int);
        assert(xc < stride) by (nonlinear_arith)
            requires
                x == hs * xc + (x as int % (hs as int)),
                padded_width == hs * stride,
                x < padded_width,
                0 <= x as int % (hs as int),
                hs >= 1,
        ;
        assert(yc < rows) by (nonlinear_arith)
            requires
                y == vs * yc + (y as int % (vs as int)),
                padded_height == vs * rows,
                y < padded_height,
                0 <= y as int % (vs as int),
                vs >= 1,
        ;
        assert(0 <= yc * stride && yc * stride + stride <= rows * stride) by (nonlinear_arith)
            requires
                0 <= yc < rows,
                0 <= stride,
        ;
    }
    plane.values[yc * stride + xc]
}

/// Turns the three planes into RGB pixels. A sample of a plane at lower
/// resolution serves all the pixels that it covers. It never fails.
pub fn decode_step4(decoded_yuv_image: &DecodedYuvImage) -> (r: Result<Raster, DecodeError>)
    requires
        decoded_yuv_image.wf(),
    ensures
        r is Ok,
        is_rgb_of(r->Ok_0, *decoded_yuv_image),
{
    let width = decoded_yuv_image.width;
    let height = decoded_yuv_image.height;
    let padded_width = decoded_yuv_image.padded_width;
    let padded_height = decoded_yuv_image.padded_height;
    let mut data: Vec<u8> = Vec::new();
    let mut y: usize = 0;
    proof {
        assert(0 * width * 3 == 0);
    }
    while y < height
        invariant
            y <= height,
            decoded_yuv_image.wf(),
            width == decoded_yuv_image.width,
            height == decoded_yuv_image.height,
            padded_width == decoded_yuv_image.padded_width,
            padded_height == decoded_yuv_image.padded_height,
            data@.len() == y * width * 3,
            forall|x2: int, y2: int|
                0 <= x2 < width && 0 <= y2 < y ==> pixel_done(data@, *decoded_yuv_image, x2, y2),
        decreases height - y,
    {
        let mut x: usize = 0;
        while x < width
            invariant
                x <= width,
                y < height,
                decoded_yuv_image.wf(),
                width == decoded_yuv_image.width,
                height == decoded_yuv_image.height,
                padded_width == decoded_yuv_image.padded_width,
                padded_height == decoded_yuv_image.padded_height,
                data@.len() == (y * width + x) * 3,
                forall|x2: int, y2: int|
                    0 <= x2 < width && 0 <= y2 < y ==> pixel_done(
                        data@,
                        *decoded_yuv_image,
                        x2,
                        y2,
                    ),
                forall|x2: int| 0 <= x2 < x ==> pixel_done(data@, *decoded_yuv_image, x2, y as int),
            decreases width - x,
        {
            let luminance = sample_for(&decoded_yuv_image.y, padded_width, padded_height, x, y);
            let blue = sample_for(&decoded_yuv_image.u, padded_width, padded_height, x, y);
            let red = sample_for(&decoded_yuv_image.v, padded_width, padded_height, x, y);
            let (r, g, b) = yuv_to_rgb(luminance, blue, red);
            let ghost before = data@;
            data.push(r);
            data.push(g);
            data.push(b);
            proof {
                assert forall|x2: int, y2: int| 0 <= x2 < width && 0 <= y2 < y implies pixel_done(
                    data@,
                    *decoded_yuv_image,
                    x2,
                    y2,
                ) by {
                    assert(pixel_done(before, *decoded_yuv_image, x2, y2));
                    assert(0 <= y2 * width + x2 < y * width) by (nonlinear_arith)
                        requires
                            0 <= x2 < width,
                            0 <= y2 < y,
                    ;
                }
                assert forall|x2: int| 0 <= x2 < x + 1 implies pixel_done(
                    data@,
                    *decoded_yuv_image,
                    x2,
                    y as int,
                ) by {
                    if x2 < x {
                        assert(pixel_done(before, *decoded_yuv_image, x2, y as int));
                    }
                }
            }
            x += 1;
        }
        proof {
            assert((y + 1) * width * 3 == (y * width + width) * 3) by (nonlinear_arith);
        }
        y += 1;
    }
    let raster = Raster { width, height, data };
    Ok(raster)
}

} // verus!
