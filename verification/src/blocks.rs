//! Planar images and the 8×8 blocks that they are cut into.

use crate::error::EncodeError;
use vstd::prelude::*;

verus! {

/// A block of samples: 8×8 signed values, row by row. A sample is the image's
/// byte less 128.
#[derive(Debug)]
pub struct Du(pub [[i8; 8]; 8]);

/// The blocks of one MCU of a 4:2:2 image, which covers 16×8 pixels: two
/// luminance blocks, the left one first, and one block of each chrominance.
#[derive(Debug)]
pub struct Mcu {
    pub y0: Du,
    pub y1: Du,
    pub cb: Du,
    pub cr: Du,
}

/// The MCUs of an image, row by row, with the image's own size.
#[derive(Debug)]
pub struct McuCollection {
    pub original_width: usize,
    pub original_height: usize,
    pub mcus: Vec<Mcu>,
}

/// An image as three planes: luminance at full resolution and the two
/// chrominances at half the horizontal resolution, padded to whole MCUs.
#[derive(Debug)]
pub struct MyYuvImage {
    pub original_width: usize,
    pub original_height: usize,
    /// `padded_width * padded_height` samples, row by row.
    pub y: Vec<u8>,
    /// `padded_width / 2 * padded_height` samples, row by row.
    pub u: Vec<u8>,
    /// `padded_width / 2 * padded_height` samples, row by row.
    pub v: Vec<u8>,
}

/// `length` rounded up to a multiple of `step`.
pub open spec fn padded(length: int, step: int) -> int {
    (length + step - 1) / step * step
}

impl MyYuvImage {
    /// The width of the luminance plane: the image's width rounded up to a
    /// multiple of 16.
    pub open spec fn spec_padded_width(&self) -> int {
        padded(self.original_width as int, 16)
    }

    /// The height of the planes: the image's height rounded up to a multiple
    /// of 8.
    pub open spec fn spec_padded_height(&self) -> int {
        padded(self.original_height as int, 8)
    }

    /// The image's size fits 16 bits and the planes have the sizes that go
    /// with it.
    pub open spec fn wf(&self) -> bool {
        &&& self.original_width <= 65535
        &&& self.original_height <= 65535
        &&& self.y@.len() == self.spec_padded_width() * self.spec_padded_height()
        &&& self.u@.len() == self.spec_padded_width() / 2 * self.spec_padded_height()
        &&& self.v@.len() == self.spec_padded_width() / 2 * self.spec_padded_height()
    }

    /// The width of the luminance plane.
    pub fn padded_width(&self) -> (r: usize)
        requires
            self.original_width <= 65535,
        ensures
            r == self.spec_padded_width(),
            r % 16 == 0,
            self.original_width <= r <= 65536,
    {
        (self.original_width + 15) / 16 * 16
    }

    /// The height of the planes.
    pub fn padded_height(&self) -> (r: usize)
        requires
            self.original_height <= 65535,
        ensures
            r == self.spec_padded_height(),
            r % 8 == 0,
            self.original_height <= r <= 65536,
    {
        (self.original_height + 7) / 8 * 8
    }
}

/// The signed sample that a byte of the image stands for: the byte less 128.
pub open spec fn level_shift(sample: u8) -> i8 {
    (sample - 128) as i8
}

/// The byte less 128, as a signed sample.
pub fn shift_level(sample: u8) -> (r: i8)
    ensures
        r == level_shift(sample),
{
    (sample as i16 - 128) as i8
}

/// The block of a plane of width `stride` whose upper left sample is at
/// column `x` and row `y`.
pub open spec fn is_block_of(du: Du, plane: Seq<u8>, stride: int, x: int, y: int) -> bool {
    forall|row: int, col: int|
        0 <= row < 8 && 0 <= col < 8 ==> du.0@[row]@[col] == level_shift(
            plane[(y + row) * stride + (x + col)],
        )
}

/// The MCU at column `mx` and row `my` of the grid of MCUs.
pub open spec fn is_mcu_of(mcu: Mcu, image: MyYuvImage, mx: int, my: int) -> bool {
    &&& is_block_of(mcu.y0, image.y@, image.spec_padded_width(), 16 * mx, 8 * my)
    &&& is_block_of(mcu.y1, image.y@, image.spec_padded_width(), 16 * mx + 8, 8 * my)
    &&& is_block_of(mcu.cb, image.u@, image.spec_padded_width() / 2, 8 * mx, 8 * my)
    &&& is_block_of(mcu.cr, image.v@, image.spec_padded_width() / 2, 8 * mx, 8 * my)
}

/// Cuts the block at column `x` and row `y` out of a plane.
pub fn cut_block(plane: &Vec<u8>, stride: usize, x: usize, y: usize) -> (du: Du)
    requires
        x + 8 <= stride <= 65536,
        y + 8 <= 65536,
        (y + 8) * stride <= plane@.len(),
    ensures
        is_block_of(du, plane@, stride as int, x as int, y as int),
{
    let mut cells = [[0i8;8];8];
    let mut row: usize = 0;
    let len = plane.len();
    while row < 8
        invariant
            row <= 8,
            len == plane@.len(),
            x + 8 <= stride <= 65536,
            y + 8 <= 65536,
            (y + 8) * stride <= plane@.len(),
            forall|r: int, c: int|
                0 <= r < row && 0 <= c < 8 ==> cells@[r]@[c] == level_shift(
                    plane@[(y + r) * stride + (x + c)],
                ),
        decreases 8 - row,
    {
        let mut line = [0i8;8];
        let mut col: usize = 0;
        assert(0 <= (y + row) * stride && (y + row) * stride + stride <= (y + 8) * stride)
            by (nonlinear_arith)
            requires
                0 <= row < 8,
                0 <= y,
                0 <= stride,
        ;
        let base = (y + row) * stride + x;
        while col < 8
            invariant
                col <= 8,
                base == (y + row) * stride + x,
                base + 8 <= plane@.len(),
                len == plane@.len(),
                forall|c: int| 0 <= c < col ==> line@[c] == level_shift(plane@[base + c]),
            decreases 8 - col,
        {
            line[col] = shift_level(plane[base + col]);
            col += 1;
        }
        let ghost before = cells;
        cells[row] = line;
        assert forall|r: int, c: int| 0 <= r < row + 1 && 0 <= c < 8 implies cells@[r]@[c]
            == level_shift(plane@[(y + r) * stride + (x + c)]) by {
            if r < row {
                assert(cells@[r] == before@[r]);
            }
        }
        row += 1;
    }
    Du(cells)
}

/// Cuts the planes into MCUs, row by row: the MCU at column `mx` and row `my`
/// of the grid is number `my * (padded_width / 16) + mx`. It never fails.
pub fn encode_step2(yuv_image: &MyYuvImage) -> (r: Result<McuCollection, EncodeError>)
    requires
        yuv_image.wf(),
    ensures
        r is Ok,
        r->Ok_0.original_width == yuv_image.original_width,
        r->Ok_0.original_height == yuv_image.original_height,
        r->Ok_0.mcus@.len() == (yuv_image.spec_padded_height() / 8) * (
        yuv_image.spec_padded_width() / 16),
        forall|mx: int, my: int|
            0 <= mx < yuv_image.spec_padded_width() / 16 && 0 <= my
                < yuv_image.spec_padded_height() / 8 ==> is_mcu_of(
                #[trigger] r->Ok_0.mcus@[my * (yuv_image.spec_padded_width() / 16) + mx],
                *yuv_image,
                mx,
                my,
            ),
{
    let padded_width = yuv_image.padded_width();
    let padded_height = yuv_image.padded_height();
    let columns = padded_width / 16;
    let rows = padded_height / 8;
    let half = padded_width / 2;
    let mut mcus: Vec<Mcu> = Vec::new();
    let mut my: usize = 0;
    proof {
        assert(padded_width == columns * 16);
        assert(padded_height == rows * 8);
        assert(0 * columns == 0);
    }
    while my < rows
        invariant
            my <= rows,
            yuv_image.wf(),
            padded_width == yuv_image.spec_padded_width(),
            padded_height == yuv_image.spec_padded_height(),
            padded_width % 16 == 0,
            padded_height % 8 == 0,
            padded_width <= 65536,
            padded_height <= 65536,
            columns == padded_width / 16,
            rows == padded_height / 8,
            half == padded_width / 2,
            mcus@.len() == my * columns,
            forall|x: int, y: int|
                0 <= x < columns && 0 <= y < my ==> is_mcu_of(
                    #[trigger] mcus@[y * columns + x],
                    *yuv_image,
                    x,
                    y,
                ),
        decreases rows - my,
    {
        let mut mx: usize = 0;
        let y = 8 * my;
        proof {
            assert((y + 8) * padded_width <= padded_width * padded_height) by (nonlinear_arith)
                requires
                    0 <= y,
                    y + 8 <= padded_height,
                    0 <= padded_width,
            ;
            assert((y + 8) * half <= half * padded_height) by (nonlinear_arith)
                requires
                    0 <= y,
                    y + 8 <= padded_height,
                    0 <= half,
            ;
            assert(my * columns + columns == (my + 1) * columns) by (nonlinear_arith);
        }
        while mx < columns
            invariant
                mx <= columns,
                my < rows,
                y == 8 * my,
                yuv_image.wf(),
                padded_width == yuv_image.spec_padded_width(),
                padded_height == yuv_image.spec_padded_height(),
                padded_width % 16 == 0,
                padded_width <= 65536,
                padded_height <= 65536,
                columns == padded_width / 16,
                rows == padded_height / 8,
                half == padded_width / 2,
                (y + 8) * padded_width <= yuv_image.y@.len(),
                (y + 8) * half <= yuv_image.u@.len(),
                (y + 8) * half <= yuv_image.v@.len(),
                mcus@.len() == my * columns + mx,
                forall|x: int, y: int|
                    0 <= x < columns && 0 <= y < my ==> is_mcu_of(
                        #[trigger] mcus@[y * columns + x],
                        *yuv_image,
                        x,
                        y,
                    ),
                forall|x: int|
                    0 <= x < mx ==> is_mcu_of(
                        #[trigger] mcus@[my * columns + x],
                        *yuv_image,
                        x,
                        my as int,
                    ),
            decreases columns - mx,
        {
            let x = 16 * mx;
            let y0 = cut_block(&yuv_image.y, padded_width, x, y);
            let y1 = cut_block(&yuv_image.y, padded_width, x + 8, y);
            let cb = cut_block(&yuv_image.u, half, x / 2, y);
            let cr = cut_block(&yuv_image.v, half, x / 2, y);
            let ghost before = mcus@;
            mcus.push(Mcu { y0, y1, cb, cr });
            proof {
                assert forall|x2: int, y2: int| 0 <= x2 < columns && 0 <= y2 < my implies is_mcu_of(
                    #[trigger] mcus@[y2 * columns + x2],
                    *yuv_image,
                    x2,
                    y2,
                ) by {
                    assert(0 <= y2 * columns + x2 < my * columns) by (nonlinear_arith)
                        requires
                            0 <= x2 < columns,
                            0 <= y2 < my,
                    ;
                    assert(mcus@[y2 * columns + x2] == before[y2 * columns + x2]);
                }
                assert forall|x2: int| 0 <= x2 < mx + 1 implies is_mcu_of(
                    #[trigger] mcus@[my * columns + x2],
                    *yuv_image,
                    x2,
                    my as int,
                ) by {
                    if x2 < mx {
                        assert(mcus@[my * columns + x2] == before[my * columns + x2]);
                    }
                }
            }
            mx += 1;
        }
        my += 1;
    }
    Ok(
        McuCollection {
            original_width: yuv_image.original_width,
            original_height: yuv_image.original_height,
            mcus,
        },
    )
}

} // verus!
