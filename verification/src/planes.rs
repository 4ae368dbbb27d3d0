//! From the blocks of a scan back to the planes of an image.

use crate::blocks::Du;
use crate::dct::is_idct_of;
use crate::dct::DctDu;
use crate::entropy_decode::max_horizontal;
use crate::entropy_decode::max_sampling;
use crate::entropy_decode::max_vertical;
use crate::entropy_decode::pieces;
use crate::entropy_decode::DecodeZigzagMcuCollection;
use crate::error::DecodeError;
use crate::parser::Component;
use crate::quant::is_dequantized_of;
use crate::quant::QuantizationTable;
use crate::quant::QuantizedDu;
use crate::zigzag::is_zigzag_of;
use vstd::prelude::*;

verus! {

/// One plane of a decoded image.
#[derive(Debug)]
pub struct YuvComponent {
    /// The number of pixels of the image that one sample covers in a row.
    pub absolute_horizontal_sampling_factor: usize,
    /// The number of pixels of the image that one sample covers in a column.
    pub absolute_vertical_sampling_factor: usize,
    /// The samples, row by row. A row holds the image's padded width divided
    /// by the horizontal factor.
    pub values: Vec<u8>,
}

/// A decoded image as three planes, padded to whole MCUs.
#[derive(Debug)]
pub struct DecodedYuvImage {
    pub width: usize,
    pub height: usize,
    /// The width of the image, padded to whole MCUs.
    pub padded_width: usize,
    /// The height of the image, padded to whole MCUs.
    pub padded_height: usize,
    pub y: YuvComponent,
    pub u: YuvComponent,
    pub v: YuvComponent,
}

impl YuvComponent {
    /// The number of samples in a row of the plane of an image of the given
    /// padded width.
    pub open spec fn stride(&self, padded_width: int) -> int {
        padded_width / (self.absolute_horizontal_sampling_factor as int)
    }

    /// The plane covers an image of the given padded size: its factors divide
    /// the size, and it holds a sample for each place.
    pub open spec fn covers(&self, padded_width: int, padded_height: int) -> bool {
        &&& self.absolute_horizontal_sampling_factor >= 1
        &&& self.absolute_vertical_sampling_factor >= 1
        &&& padded_width % (self.absolute_horizontal_sampling_factor as int) == 0
        &&& padded_height % (self.absolute_vertical_sampling_factor as int) == 0
        &&& self.values@.len() == (padded_height / (self.absolute_vertical_sampling_factor as int))
            * self.stride(padded_width)
    }
}

impl DecodedYuvImage {
    /// The padded size holds the image, and each plane covers the padded
    /// size.
    pub open spec fn wf(&self) -> bool {
        &&& self.width <= self.padded_width <= 131072
        &&& self.height <= self.padded_height <= 131072
        &&& self.y.covers(self.padded_width as int, self.padded_height as int)
        &&& self.u.covers(self.padded_width as int, self.padded_height as int)
        &&& self.v.covers(self.padded_width as int, self.padded_height as int)
    }
}

/// `du` is the block of samples that the zigzag block `unit` decodes to
/// under `table`: the coefficients are put in their places, multiplied by the
/// entries of the table and transformed back.
pub open spec fn decodes_to(unit: Seq<i16>, table: QuantizationTable, du: Du) -> bool {
    exists|q: QuantizedDu, d: DctDu|
        is_zigzag_of(unit, q.0@) && #[trigger] is_dequantized_of(d, q, table) && is_idct_of(du, d)
}

/// The number of blocks of a component in an MCU.
pub open spec fn blocks_per_mcu(c: Component) -> int {
    c.horizontal_sampling_factor * c.vertical_sampling_factor
}

/// The number of blocks of the first `n` components in an MCU.
pub open spec fn blocks_before(components: Seq<Component>, n: int) -> int
    decreases n,
{
    if n <= 0 {
        0
    } else {
        blocks_before(components, n - 1) + blocks_per_mcu(components[n - 1])
    }
}

/// The component that block `j` of an MCU belongs to.
pub open spec fn component_of_block(components: Seq<Component>, j: int) -> int {
    if j < blocks_before(components, 1) {
        0
    } else if j < blocks_before(components, 2) {
        1
    } else {
        2
    }
}

/// The components are three, each sampled once or twice in each direction.
pub open spec fn components_supported(components: Seq<Component>) -> bool {
    components.len() == 3 && forall|i: int|
        0 <= i < 3 ==> 1 <= (#[trigger] components[i]).horizontal_sampling_factor <= 2 && 1
            <= components[i].vertical_sampling_factor <= 2
}

/// `dus` holds the blocks of samples that the blocks of the scan decode to,
/// each under the quantization table of its component.
pub open spec fn are_decoded_blocks(collection: DecodeZigzagMcuCollection, dus: Seq<Du>) -> bool {
    &&& dus.len() == collection.zigzag_dus@.len()
    &&& forall|k: int|
        0 <= k < dus.len() ==> decodes_to(
            collection.zigzag_dus@[k].0@,
            *collection.components@[component_of_block(
                collection.components@,
                k % blocks_before(collection.components@, 3),
            )].quatization_table,
            #[trigger] dus[k],
        )
}

/// Whether the components are supported.
pub fn check_components(components: &Vec<Component>) -> (r: bool)
    ensures
        r == components_supported(components@),
{
    if components.len() != 3 {
        return false;
    }
    let mut i: usize = 0;
    while i < 3
        invariant
            i <= 3,
            components@.len() == 3,
            forall|k: int|
                0 <= k < i ==> 1 <= (#[trigger] components@[k]).horizontal_sampling_factor <= 2
                    && 1 <= components@[k].vertical_sampling_factor <= 2,
        decreases 3 - i,
    {
        let c = &components[i];
        if c.horizontal_sampling_factor < 1 || c.horizontal_sampling_factor > 2
            || c.vertical_sampling_factor < 1 || c.vertical_sampling_factor > 2 {
            return false;
        }
        i += 1;
    }
    true
}

/// The number of blocks of a component in an MCU.
pub fn block_count(c: &Component) -> (r: usize)
    requires
        1 <= c.horizontal_sampling_factor <= 2,
        1 <= c.vertical_sampling_factor <= 2,
    ensures
        r == blocks_per_mcu(*c),
        1 <= r <= 4,
{
    let h = c.horizontal_sampling_factor as usize;
    let v = c.vertical_sampling_factor as usize;
    assert(1 <= h * v <= 4) by (nonlinear_arith)
        requires
            1 <= h <= 2,
            1 <= v <= 2,
    ;
    h * v
}

/// Decodes the blocks of the scan to blocks of samples.
pub fn quantized_du_to_dus(
    decode_zigzag_mcu_collection: &DecodeZigzagMcuCollection,
    quantized_dus: &Vec<QuantizedDu>,
) -> (r: Vec<Du>)
    requires
        components_supported(decode_zigzag_mcu_collection.components@),
        quantized_dus@.len() == decode_zigzag_mcu_collection.zigzag_dus@.len(),
        forall|k: int|
            0 <= k < quantized_dus@.len() ==> is_zigzag_of(
                decode_zigzag_mcu_collection.zigzag_dus@[k].0@,
                (#[trigger] quantized_dus@[k]).0@,
            ),
    ensures
        are_decoded_blocks(*decode_zigzag_mcu_collection, r@),
{
    let components = &decode_zigzag_mcu_collection.components;
    let ghost units = decode_zigzag_mcu_collection.zigzag_dus@;
    let n0 = block_count(&components[0]);
    let n1 = block_count(&components[1]);
    let n2 = block_count(&components[2]);
    let per_mcu = n0 + n1 + n2;
    proof {
        reveal_with_fuel(blocks_before, 4);
        assert(blocks_before(components@, 1) == n0);
        assert(blocks_before(components@, 2) == n0 + n1);
        assert(blocks_before(components@, 3) == per_mcu);
    }
    let mut ret: Vec<Du> = Vec::new();
    let total = quantized_dus.len();
    let mut idx: usize = 0;
    while idx < total
        invariant
            idx <= total,
            total == quantized_dus@.len(),
            total == units.len(),
            units == decode_zigzag_mcu_collection.zigzag_dus@,
            components == &decode_zigzag_mcu_collection.components,
            components_supported(components@),
            1 <= n0 <= 4,
            1 <= n1 <= 4,
            1 <= n2 <= 4,
            per_mcu == n0 + n1 + n2,
            blocks_before(components@, 1) == n0,
            blocks_before(components@, 2) == n0 + n1,
            blocks_before(components@, 3) == per_mcu,
            forall|k: int|
                0 <= k < total ==> is_zigzag_of(units[k].0@, (#[trigger] quantized_dus@[k]).0@),
            ret@.len() == idx,
            forall|k: int|
                0 <= k < idx ==> decodes_to(
                    units[k].0@,
                    *components@[component_of_block(components@,
                        k % (per_mcu as int))].quatization_table,
                    #[trigger] ret@[k],
                ),
        decreases total - idx,
    {
        let j = idx % per_mcu;
        let c: usize = if j < n0 {
            0
        } else if j < n0 + n1 {
            1
        } else {
            2
        };
        let component = &components[c];
        let quantized_du = &quantized_dus[idx];
        let dct_du = quantized_du.to_dct_du(&component.quatization_table);
        let du = dct_du.idct();
        proof {
            assert(is_zigzag_of(units[idx as int].0@, quantized_du.0@));
            assert(is_idct_of(du, dct_du));
            assert(decodes_to(units[idx as int].0@, *component.quatization_table, du));
        }
        ret.push(du);
        idx += 1;
    }
    ret
}

/// The place among the blocks of the scan of the block that holds the sample
/// in column `px` and row `py` of a component's plane: the MCUs follow each
/// other row by row, `mcus_x` to a row; an MCU holds `per_mcu` blocks, those of
/// the component from `offset` on, row by row, `h` to a row.
pub open spec fn plane_unit(h: int, v: int, mcus_x: int, per_mcu: int, offset: int, px: int,
    py: int) -> int {
    ((py / (8 * v)) * mcus_x + px / (8 * h)) * per_mcu + offset + ((py / 8) % v) * h + (px / 8) % h
}

/// The byte of the image that a signed sample stands for: the sample plus
/// 128.
pub open spec fn level_unshift(sample: i8) -> u8 {
    (sample + 128) as u8
}

/// `values` is the plane of a component, put together from the blocks `dus`
/// of the scan: `mcus_x` by `mcus_y` MCUs, each with `h` by `v` blocks of the
/// component.
pub open spec fn is_plane_of(
    values: Seq<u8>,
    dus: Seq<Du>,
    h: int,
    v: int,
    mcus_x: int,
    mcus_y: int,
    per_mcu: int,
    offset: int,
) -> bool {
    &&& values.len() == (mcus_y * 8 * v) * (mcus_x * 8 * h)
    &&& forall|px: int, py: int|
        0 <= px < mcus_x * 8 * h && 0 <= py < mcus_y * 8 * v ==> #[trigger] values[py * (mcus_x * 8
            * h) + px] == level_unshift(
            dus[plane_unit(h, v, mcus_x, per_mcu, offset, px, py)].0@[py % 8]@[px % 8],
        )
}

/// Puts the plane of a component together from the blocks of the scan.
pub fn assemble_plane(
    dus: &Vec<Du>,
    h: usize,
    v: usize,
    mcus_x: usize,
    mcus_y: usize,
    per_mcu: usize,
    offset: usize,
) -> (values: Vec<u8>)
    requires
        1 <= h <= 2,
        1 <= v <= 2,
        mcus_x <= 8192,
        mcus_y <= 8192,
        offset + h * v <= per_mcu <= 12,
        dus@.len() == mcus_y * mcus_x * per_mcu,
    ensures
        is_plane_of(
            values@,
            dus@,
            h as int,
            v as int,
            mcus_x as int,
            mcus_y as int,
            per_mcu as int,
            offset as int,
        ),
{
    assert(mcus_x * 8 * h <= 131072 && mcus_y * 8 * v <= 131072) by (nonlinear_arith)
        requires
            0 <= mcus_x <= 8192,
            0 <= mcus_y <= 8192,
            1 <= h <= 2,
            1 <= v <= 2,
    ;
    let width = mcus_x * 8 * h;
    let height = mcus_y * 8 * v;
    let total = dus.len();
    let mut values: Vec<u8> = Vec::new();
    let mut py: usize = 0;
    proof {
        assert(0 * width == 0);
    }
    while py < height
        invariant
            py <= height,
            1 <= h <= 2,
            1 <= v <= 2,
            mcus_x <= 8192,
            mcus_y <= 8192,
            offset + h * v <= per_mcu <= 12,
            dus@.len() == mcus_y * mcus_x * per_mcu,
            total == dus@.len(),
            width == mcus_x * 8 * h,
            height == mcus_y * 8 * v,
            values@.len() == py * width,
            forall|x: int, y: int|
                0 <= x < width && 0 <= y < py ==> #[trigger] values@[y * width + x]
                    == level_unshift(
                    dus@[plane_unit(
                        h as int,
                        v as int,
                        mcus_x as int,
                        per_mcu as int,
                        offset as int,
                        x,
                        y,
                    )].0@[y % 8]@[x % 8],
                ),
        decreases height - py,
    {
        let my = py / (8 * v);
        let by = (py / 8) % v;
        let mut px: usize = 0;
        assert(my < mcus_y) by (nonlinear_arith)
            requires
                my == py as int / (8 * v),
                py < mcus_y * 8 * v,
                1 <= v,
        ;
        while px < width
            invariant
                px <= width,
                py < height,
                1 <= h <= 2,
                1 <= v <= 2,
                mcus_x <= 8192,
                mcus_y <= 8192,
                offset + h * v <= per_mcu <= 12,
                dus@.len() == mcus_y * mcus_x * per_mcu,
                total == dus@.len(),
                width == mcus_x * 8 * h,
                height == mcus_y * 8 * v,
                my == py as int / (8 * v),
                by == (py as int / 8) % (v as int),
                my < mcus_y,
                values@.len() == py * width + px,
                forall|x: int, y: int|
                    0 <= x < width && 0 <= y < py ==> #[trigger] values@[y * width + x]
                        == level_unshift(
                        dus@[plane_unit(
                            h as int,
                            v as int,
                            mcus_x as int,
                            per_mcu as int,
                            offset as int,
                            x,
                            y,
                        )].0@[y % 8]@[x % 8],
                    ),
                forall|x: int|
                    0 <= x < px ==> #[trigger] values@[py * width + x] == level_unshift(
                        dus@[plane_unit(
                            h as int,
                            v as int,
                            mcus_x as int,
                            per_mcu as int,
                            offset as int,
                            x,
                            py as int,
                        )].0@[py as int % 8]@[x % 8],
                    ),
            decreases width - px,
        {
            let mx = px / (8 * h);
            let bx = (px / 8) % h;
            proof {
                assert(mx < mcus_x) by (nonlinear_arith)
                    requires
                        mx == px as int / (8 * h),
                        px < mcus_x * 8 * h,
                        1 <= h,
                ;
                assert(my * mcus_x + mx < mcus_y * mcus_x) by (nonlinear_arith)
                    requires
                        0 <= my < mcus_y,
                        0 <= mx < mcus_x,
                ;
                assert(by * h + bx < h * v) by (nonlinear_arith)
                    requires
                        0 <= by < v,
                        0 <= bx < h,
                ;
                assert((my * mcus_x + mx) * per_mcu + per_mcu <= mcus_y * mcus_x * per_mcu)
                    by (nonlinear_arith)
                    requires
                        0 <= my * mcus_x + mx < mcus_y * mcus_x,
                        0 <= per_mcu,
                ;
                assert(mcus_y * mcus_x <= 8192 * 8192) by (nonlinear_arith)
                    requires
                        0 <= mcus_y <= 8192,
                        0 <= mcus_x <= 8192,
                ;
                assert(0 <= (my * mcus_x + mx) * per_mcu) by (nonlinear_arith)
                    requires
                        0 <= my * mcus_x + mx,
                        0 <= per_mcu,
                ;
                assert(0 <= my * mcus_x <= mcus_y * mcus_x) by (nonlinear_arith)
                    requires
                        0 <= my < mcus_y,
                        0 <= mcus_x,
                ;
                assert(0 <= by * h <= 2) by (nonlinear_arith)
                    requires
                        0 <= by < v,
                        1 <= v <= 2,
                        1 <= h <= 2,
                ;
            }
            let k = (my * mcus_x + mx) * per_mcu + offset + by * h + bx;
            let sample = dus[k].0[py % 8][px % 8];
            let ghost before = values@;
            values.push((sample as i16 + 128) as u8);
            proof {
                assert forall|x: int, y: int| 0 <= x < width && 0
                    <= y < py implies #[trigger] values@[y
                    * width + x] == level_unshift(
                    dus@[plane_unit(
                        h as int,
                        v as int,
                        mcus_x as int,
                        per_mcu as int,
                        offset as int,
                        x,
                        y,
                    )].0@[y % 8]@[x % 8],
                ) by {
                    assert(0 <= y * width + x < py * width) by (nonlinear_arith)
                        requires
                            0 <= x < width,
                            0 <= y < py,
                    ;
                    assert(values@[y * width + x] == before[y * width + x]);
                }
                assert forall|x: int| 0 <= x < px + 1 implies #[trigger] values@[py * width + x]
                    == level_unshift(
                    dus@[plane_unit(
                        h as int,
                        v as int,
                        mcus_x as int,
                        per_mcu as int,
                        offset as int,
                        x,
                        py as int,
                    )].0@[py as int % 8]@[x % 8],
                ) by {
                    if x < px {
                        assert(values@[py * width + x] == before[py * width + x]);
                    }
                }
            }
            px += 1;
        }
        proof {
            assert((py + 1) * width == py * width + width) by (nonlinear_arith);
        }
        py += 1;
    }
    values
}

/// A plane of `count * 8 * factor` samples in a direction covers
/// `count * 8 * max` pixels where a sample covers `max / factor` pixels.
pub proof fn lemma_plane_covers(count: int, factor: int, max: int)
    requires
        0 <= count,
        1 <= factor <= max <= 2,
    ensures
        max / factor >= 1,
        (count * 8 * max) % (max / factor) == 0,
        (count * 8 * max) / (max / factor) == count * 8 * factor,
{
    if factor == max {
        assert(max / factor == 1);
    } else {
        assert(factor == 1 && max == 2);
        assert(max / factor == 2);
        assert(count * 8 * max == (count * 8) * 2) by (nonlinear_arith)
            requires
                max == 2,
        ;
    }
}

impl DecodeZigzagMcuCollection {
    /// The number of MCUs in a row of the image.
    pub open spec fn mcus_x(&self) -> int {
        pieces(self.width as int, 8 * max_horizontal(self.components@, 3))
    }

    /// The number of rows of MCUs of the image.
    pub open spec fn mcus_y(&self) -> int {
        pieces(self.height as int, 8 * max_vertical(self.components@, 3))
    }

    /// What stands in the way of putting planes together, if anything: other
    /// components than three, each sampled once or twice in each direction; a
    /// size beyond 16 bits; or another number of blocks than the size calls for.
    pub open spec fn obstacle(&self) -> Option<DecodeError> {
        if !components_supported(self.components@) || self.width > 65535 || self.height > 65535 {
            Some(DecodeError::UnsupportedFeature)
        } else if self.zigzag_dus@.len() != self.mcus_y() * self.mcus_x() * blocks_before(
            self.components@,
            3,
        ) {
            Some(DecodeError::TruncatedInput)
        } else {
            None
        }
    }
}

/// `plane` is the plane of component `c` of the collection, put together
/// from the blocks `dus`.
pub open spec fn is_component_plane(
    plane: YuvComponent,
    collection: DecodeZigzagMcuCollection,
    dus: Seq<Du>,
    c: int,
) -> bool {
    &&& plane.absolute_horizontal_sampling_factor == max_horizontal(collection.components@, 3)
        / (collection.components@[c].horizontal_sampling_factor as int)
    &&& plane.absolute_vertical_sampling_factor == max_vertical(collection.components@, 3) / (
    collection.components@[c].vertical_sampling_factor as int)
    &&& is_plane_of(
        plane.values@,
        dus,
        collection.components@[c].horizontal_sampling_factor as int,
        collection.components@[c].vertical_sampling_factor as int,
        collection.mcus_x(),
        collection.mcus_y(),
        blocks_before(collection.components@, 3),
        blocks_before(collection.components@, c),
    )
}

/// `image` is made of the blocks that the blocks of the scan decode to.
pub open spec fn is_decoded_image(image: DecodedYuvImage,
    collection: DecodeZigzagMcuCollection) -> bool {
    &&& image.width == collection.width
    &&& image.height == collection.height
    &&& image.padded_width == collection.mcus_x() * 8 * max_horizontal(collection.components@, 3)
    &&& image.padded_height == collection.mcus_y() * 8 * max_vertical(collection.components@, 3)
    &&& image.wf()
    &&& exists|dus: Seq<Du>| #[trigger]
        are_decoded_blocks(collection, dus) && is_component_plane(image.y, collection, dus, 0)
            && is_component_plane(image.u, collection, dus, 1) && is_component_plane(
            image.v,
            collection,
            dus,
            2,
        )
}

/// Decodes the blocks of the scan to samples and puts the three planes of
/// the image together, each padded to whole MCUs.
pub fn decode_step3(decode_zigzag_mcu_collection: &DecodeZigzagMcuCollection) -> (r: Result<
    DecodedYuvImage,
    DecodeError,
>)
    ensures
        match r {
            Ok(image) => decode_zigzag_mcu_collection.obstacle() is None && is_decoded_image(
                image,
                *decode_zigzag_mcu_collection,
            ),
            Err(e) => decode_zigzag_mcu_collection.obstacle() == Some(e),
        },
{
    let components = &decode_zigzag_mcu_collection.components;
    if !check_components(components) || decode_zigzag_mcu_collection.width > 65535
        || decode_zigzag_mcu_collection.height > 65535 {
        return Err(DecodeError::UnsupportedFeature);
    }
    let (h_max, v_max) = match max_sampling(components) {
        Some(factors) => factors,
        None => { return Err(DecodeError::UnsupportedFeature); },
    };
    let h_max = h_max as usize;
    let v_max = v_max as usize;
    proof {
        reveal_with_fuel(max_horizontal, 4);
        reveal_with_fuel(max_vertical, 4);
        reveal_with_fuel(blocks_before, 4);
        assert(1 <= components@[0].horizontal_sampling_factor <= 2);
        assert(1 <= components@[1].horizontal_sampling_factor <= 2);
        assert(1 <= components@[2].horizontal_sampling_factor <= 2);
    }
    let mcu_width = 8 * h_max;
    let mcu_height = 8 * v_max;
    let mcus_x = (decode_zigzag_mcu_collection.width + mcu_width - 1) / mcu_width;
    let mcus_y = (decode_zigzag_mcu_collection.height + mcu_height - 1) / mcu_height;
    assert(mcus_x <= 8192) by (nonlinear_arith)
        requires
            mcus_x == (decode_zigzag_mcu_collection.width + mcu_width - 1) / (mcu_width as int),
            decode_zigzag_mcu_collection.width <= 65535,
            mcu_width >= 8,
    ;
    assert(mcus_y <= 8192) by (nonlinear_arith)
        requires
            mcus_y == (decode_zigzag_mcu_collection.height + mcu_height - 1) / (mcu_height as int),
            decode_zigzag_mcu_collection.height <= 65535,
            mcu_height >= 8,
    ;
    let n0 = block_count(&components[0]);
    let n1 = block_count(&components[1]);
    let n2 = block_count(&components[2]);
    let per_mcu = n0 + n1 + n2;
    assert(mcus_y * mcus_x <= 8192 * 8192) by (nonlinear_arith)
        requires
            0 <= mcus_y <= 8192,
            0 <= mcus_x <= 8192,
    ;
    assert(mcus_y * mcus_x * per_mcu <= 8192 * 8192 * 12) by (nonlinear_arith)
        requires
            0 <= mcus_y * mcus_x <= 8192 * 8192,
            0 <= per_mcu <= 12,
    ;
    if decode_zigzag_mcu_collection.zigzag_dus.len() != mcus_y * mcus_x * per_mcu {
        return Err(DecodeError::TruncatedInput);
    }
    let mut quantized_dus: Vec<QuantizedDu> = Vec::new();
    let total = decode_zigzag_mcu_collection.zigzag_dus.len();
    let mut k: usize = 0;
    while k < total
        invariant
            k <= total,
            total == decode_zigzag_mcu_collection.zigzag_dus@.len(),
            quantized_dus@.len() == k,
            forall|j: int|
                0 <= j < k ==> is_zigzag_of(
                    decode_zigzag_mcu_collection.zigzag_dus@[j].0@,
                    (#[trigger] quantized_dus@[j]).0@,
                ),
        decreases total - k,
    {
        quantized_dus.push(decode_zigzag_mcu_collection.zigzag_dus[k].to_quantized_du());
        k += 1;
    }
    let dus = quantized_du_to_dus(decode_zigzag_mcu_collection, &quantized_dus);
    let y = YuvComponent {
        absolute_horizontal_sampling_factor: h_max / components[0].horizontal_sampling_factor as usize,
        absolute_vertical_sampling_factor: v_max / components[0].vertical_sampling_factor as usize,
        values: assemble_plane(
            &dus,
            components[0].horizontal_sampling_factor as usize,
            components[0].vertical_sampling_factor as usize,
            mcus_x,
            mcus_y,
            per_mcu,
            0,
        ),
    };
    let u = YuvComponent {
        absolute_horizontal_sampling_factor: h_max / components[1].horizontal_sampling_factor as usize,
        absolute_vertical_sampling_factor: v_max / components[1].vertical_sampling_factor as usize,
        values: assemble_plane(
            &dus,
            components[1].horizontal_sampling_factor as usize,
            components[1].vertical_sampling_factor as usize,
            mcus_x,
            mcus_y,
            per_mcu,
            n0,
        ),
    };
    let v = YuvComponent {
        absolute_horizontal_sampling_factor: h_max / components[2].horizontal_sampling_factor as usize,
        absolute_vertical_sampling_factor: v_max / components[2].vertical_sampling_factor as usize,
        values: assemble_plane(
            &dus,
            components[2].horizontal_sampling_factor as usize,
            components[2].vertical_sampling_factor as usize,
            mcus_x,
            mcus_y,
            per_mcu,
            n0 + n1,
        ),
    };
    assert(mcus_x * 8 * h_max <= 131072 && mcus_y * 8 * v_max <= 131072
        && decode_zigzag_mcu_collection.width <= mcus_x * 8 * h_max
        && decode_zigzag_mcu_collection.height <= mcus_y * 8 * v_max) by (nonlinear_arith)
        requires
            mcus_x == (decode_zigzag_mcu_collection.width + 8 * h_max - 1) / (8 * h_max as int),
            mcus_y == (decode_zigzag_mcu_collection.height + 8 * v_max - 1) / (8 * v_max as int),
            0 <= mcus_x <= 8192,
            0 <= mcus_y <= 8192,
            1 <= h_max <= 2,
            1 <= v_max <= 2,
            0 <= decode_zigzag_mcu_collection.width,
            0 <= decode_zigzag_mcu_collection.height,
    ;
    let image = DecodedYuvImage {
        width: decode_zigzag_mcu_collection.width,
        height: decode_zigzag_mcu_collection.height,
        padded_width: mcus_x * 8 * h_max,
        padded_height: mcus_y * 8 * v_max,
        y,
        u,
        v,
    };
    proof {
        assert(components@[0].horizontal_sampling_factor <= h_max);
        assert(components@[1].horizontal_sampling_factor <= h_max);
        assert(components@[2].horizontal_sampling_factor <= h_max);
        assert(components@[0].vertical_sampling_factor <= v_max);
        assert(components@[1].vertical_sampling_factor <= v_max);
        assert(components@[2].vertical_sampling_factor <= v_max);
        lemma_plane_covers(mcus_x as int, components@[0].horizontal_sampling_factor as int,
            h_max as int);
        lemma_plane_covers(mcus_x as int, components@[1].horizontal_sampling_factor as int,
            h_max as int);
        lemma_plane_covers(mcus_x as int, components@[2].horizontal_sampling_factor as int,
            h_max as int);
        lemma_plane_covers(mcus_y as int, components@[0].vertical_sampling_factor as int,
            v_max as int);
        lemma_plane_covers(mcus_y as int, components@[1].vertical_sampling_factor as int,
            v_max as int);
        lemma_plane_covers(mcus_y as int, components@[2].vertical_sampling_factor as int,
            v_max as int);
        assert(image.y.covers(image.padded_width as int, image.padded_height as int));
        assert(image.u.covers(image.padded_width as int, image.padded_height as int));
        assert(image.v.covers(image.padded_width as int, image.padded_height as int));
        assert(image.wf());
        assert(are_decoded_blocks(*decode_zigzag_mcu_collection, dus@));
        assert(is_component_plane(image.y, *decode_zigzag_mcu_collection, dus@, 0));
        assert(is_component_plane(image.u, *decode_zigzag_mcu_collection, dus@, 1));
        assert(is_component_plane(image.v, *decode_zigzag_mcu_collection, dus@, 2));
    }
    Ok(image)
}

} // verus!
