//! The zigzag order of an 8×8 block.

use crate::quant::QuantizedDu;
use crate::quant::QuantizedMcuCollection;
use vstd::prelude::*;

verus! {

/// The number of cells on the diagonals before diagonal `d` in the upper left
/// half of the block.
pub open spec fn triangle(d: int) -> int {
    d * (d + 1) / 2
}

/// The place of the cell in row `r` and column `c` in the zigzag order.
///
/// The cells of one anti-diagonal `r + c` follow each other; an even diagonal is
/// walked up and to the right, an odd one down and to the left. The lower right
/// half mirrors the upper left half.
pub open spec fn zigzag_index(r: int, c: int) -> int {
    let d = r + c;
    if d <= 7 {
        triangle(d) + if d % 2 == 0 { c } else { r }
    } else {
        63 - (triangle(14 - d) + if d % 2 == 0 { 7 - c } else { 7 - r })
    }
}

/// `in_block(r, c)` says that row `r` and column `c` name a cell of the block.
pub open spec fn in_block(r: int, c: int) -> bool {
    0 <= r < 8 && 0 <= c < 8
}

proof fn lemma_triangle_values()
    ensures
        triangle(0) == 0,
        triangle(1) == 1,
        triangle(2) == 3,
        triangle(3) == 6,
        triangle(4) == 10,
        triangle(5) == 15,
        triangle(6) == 21,
        triangle(7) == 28,
        triangle(8) == 36,
{
}

/// The zigzag order numbers the 64 cells from 0 to 63.
pub proof fn lemma_zigzag_index_range(r: int, c: int)
    requires
        in_block(r, c),
    ensures
        0 <= zigzag_index(r, c) < 64,
{
    lemma_triangle_values();
    let d = r + c;
    assert(d == 0 || d == 1 || d == 2 || d == 3 || d == 4 || d == 5 || d == 6 || d == 7 || d == 8
        || d == 9 || d == 10 || d == 11 || d == 12 || d == 13 || d == 14);
}

/// The range of the zigzag order, for all cells at once.
pub proof fn lemma_zigzag_index_ranges()
    ensures
        forall|r: int, c: int| in_block(r, c) ==> 0 <= #[trigger] zigzag_index(r, c) < 64,
{
    assert forall|r: int, c: int| in_block(r, c) implies 0 <= #[trigger] zigzag_index(r, c)
        < 64 by {
        lemma_zigzag_index_range(r, c);
    }
}

/// No two cells share a place in the zigzag order.
pub proof fn lemma_zigzag_index_injective(r1: int, c1: int, r2: int, c2: int)
    requires
        in_block(r1, c1),
        in_block(r2, c2),
        zigzag_index(r1, c1) == zigzag_index(r2, c2),
    ensures
        r1 == r2,
        c1 == c2,
{
    lemma_triangle_values();
    let d1 = r1 + c1;
    let d2 = r2 + c2;
    assert(d1 == 0 || d1 == 1 || d1 == 2 || d1 == 3 || d1 == 4 || d1 == 5 || d1 == 6 || d1 == 7
        || d1 == 8 || d1 == 9 || d1 == 10 || d1 == 11 || d1 == 12 || d1 == 13 || d1 == 14);
    assert(d2 == 0 || d2 == 1 || d2 == 2 || d2 == 3 || d2 == 4 || d2 == 5 || d2 == 6 || d2 == 7
        || d2 == 8 || d2 == 9 || d2 == 10 || d2 == 11 || d2 == 12 || d2 == 13 || d2 == 14);
}

/// The cell that follows the cell `(r, c)` in the zigzag order.
pub fn zigzag_successor(r: usize, c: usize) -> (next: (usize, usize))
    requires
        in_block(r as int, c as int),
        zigzag_index(r as int, c as int) < 63,
    ensures
        in_block(next.0 as int, next.1 as int),
        zigzag_index(next.0 as int, next.1 as int) == zigzag_index(r as int, c as int) + 1,
{
    proof {
        lemma_triangle_values();
        let d = r + c;
        assert(d == 0 || d == 1 || d == 2 || d == 3 || d == 4 || d == 5 || d == 6 || d == 7 || d
            == 8 || d == 9 || d == 10 || d == 11 || d == 12 || d == 13 || d == 14);
    }
    if (r + c) % 2 == 0 {
        if c == 7 {
            (r + 1, c)
        } else if r == 0 {
            (r, c + 1)
        } else {
            (r - 1, c + 1)
        }
    } else {
        if r == 7 {
            (r, c + 1)
        } else if c == 0 {
            (r + 1, c)
        } else {
            (r + 1, c - 1)
        }
    }
}

/// Every place of the zigzag order belongs to a cell.
pub proof fn lemma_zigzag_index_onto(k: int) -> (cell: (int, int))
    requires
        0 <= k < 64,
    ensures
        in_block(cell.0, cell.1),
        zigzag_index(cell.0, cell.1) == k,
    decreases k,
{
    lemma_triangle_values();
    if k == 0 {
        (0, 0)
    } else {
        let (r, c) = lemma_zigzag_index_onto(k - 1);
        let d = r + c;
        assert(d == 0 || d == 1 || d == 2 || d == 3 || d == 4 || d == 5 || d == 6 || d == 7 || d
            == 8 || d == 9 || d == 10 || d == 11 || d == 12 || d == 13 || d == 14);
        if d % 2 == 0 {
            if c == 7 {
                (r + 1, c)
            } else if r == 0 {
                (r, c + 1)
            } else {
                (r - 1, c + 1)
            }
        } else {
            if r == 7 {
                (r, c + 1)
            } else if c == 0 {
                (r + 1, c)
            } else {
                (r + 1, c - 1)
            }
        }
    }
}

/// A block in zigzag order: 64 signed 16-bit coefficients.
#[derive(Debug)]
pub struct ZigzagDu(pub [i16; 64]);

/// The zigzag blocks of one MCU of a 4:2:2 image.
#[derive(Debug)]
pub struct ZigzagMcu {
    pub y0: ZigzagDu,
    pub y1: ZigzagDu,
    pub cb: ZigzagDu,
    pub cr: ZigzagDu,
}

/// The zigzag MCUs of an image, row by row, with the image's own size.
#[derive(Debug)]
pub struct ZigzagMcuCollection {
    pub original_width: usize,
    pub original_height: usize,
    pub zigzag_mcus: Vec<ZigzagMcu>,
}

/// `flat` holds the cells of `block` in zigzag order.
pub open spec fn is_zigzag_of<T>(flat: Seq<T>, block: Seq<[T; 8]>) -> bool {
    &&& flat.len() == 64
    &&& block.len() == 8
    &&& forall|r: int, c: int| in_block(r, c) ==> flat[zigzag_index(r, c)] == block[r]@[c]
}

/// Copies an 8×8 block into its zigzag order. `fill` is any value of the cell
/// type; it does not show in the result.
pub fn zigzag_scan<T: Copy>(block: &[[T; 8]; 8], fill: T) -> (out: [T; 64])
    ensures
        is_zigzag_of(out@, block@),
{
    let mut out = [fill;64];
    let mut r: usize = 0;
    let mut c: usize = 0;
    let mut idx: usize = 0;
    proof {
        lemma_zigzag_index_ranges();
    }
    while idx < 64
        invariant
            idx <= 64,
            idx < 64 ==> in_block(r as int, c as int) && zigzag_index(r as int, c as int) == idx,
            forall|r2: int, c2: int|
                in_block(r2, c2) && zigzag_index(r2, c2) < idx ==> out@[zigzag_index(r2, c2)]
                    == block@[r2]@[c2],
        decreases 64 - idx,
    {
        out[idx] = block[r][c];
        proof {
            lemma_zigzag_index_ranges();
            assert forall|r2: int, c2: int|
                in_block(r2, c2) && zigzag_index(r2, c2) < idx
                    + 1 implies out@[zigzag_index(r2, c2)] == block@[r2]@[c2] by {
                if zigzag_index(r2, c2) == idx {
                    lemma_zigzag_index_injective(r2, c2, r as int, c as int);
                }
            }
        }
        if idx < 63 {
            let next = zigzag_successor(r, c);
            r = next.0;
            c = next.1;
        }
        idx += 1;
    }
    proof {
        lemma_zigzag_index_ranges();
    }
    out
}

/// Builds the 8×8 block whose zigzag order is `flat`. `fill` is any value of
/// the cell type; it does not show in the result.
pub fn zigzag_unscan<T: Copy>(flat: &[T; 64], fill: T) -> (out: [[T; 8]; 8])
    ensures
        is_zigzag_of(flat@, out@),
{
    let mut out = [[fill;8];8];
    let mut r: usize = 0;
    let mut c: usize = 0;
    let mut idx: usize = 0;
    proof {
        lemma_zigzag_index_ranges();
    }
    while idx < 64
        invariant
            idx <= 64,
            idx < 64 ==> in_block(r as int, c as int) && zigzag_index(r as int, c as int) == idx,
            forall|r2: int, c2: int|
                in_block(r2, c2) && zigzag_index(r2, c2) < idx ==> flat@[zigzag_index(r2, c2)]
                    == out@[r2]@[c2],
        decreases 64 - idx,
    {
        let ghost before = out;
        let mut row = out[r];
        row[c] = flat[idx];
        out[r] = row;
        proof {
            lemma_zigzag_index_ranges();
            assert forall|r2: int, c2: int|
                in_block(r2, c2) && zigzag_index(r2, c2) < idx
                    + 1 implies flat@[zigzag_index(r2, c2)] == out@[r2]@[c2] by {
                if r2 == r && c2 == c {
                } else {
                    if zigzag_index(r2, c2) == idx {
                        lemma_zigzag_index_injective(r2, c2, r as int, c as int);
                    }
                    assert(out@[r2]@[c2] == before@[r2]@[c2]);
                }
            }
        }
        if idx < 63 {
            let next = zigzag_successor(r, c);
            r = next.0;
            c = next.1;
        }
        idx += 1;
    }
    proof {
        lemma_zigzag_index_ranges();
    }
    out
}

impl QuantizedDu {
    /// The block in zigzag order.
    pub fn zigzag(&self) -> (out: ZigzagDu)
        ensures
            is_zigzag_of(out.0@, self.0@),
    {
        ZigzagDu(zigzag_scan(&self.0, 0i16))
    }
}

impl ZigzagDu {
    /// The block whose zigzag order this is.
    pub fn to_quantized_du(&self) -> (out: QuantizedDu)
        ensures
            is_zigzag_of(self.0@, out.0@),
    {
        QuantizedDu(zigzag_unscan(&self.0, 0i16))
    }
}

/// `z` holds the four blocks of `q`, each in zigzag order.
pub open spec fn is_zigzag_mcu_of(z: ZigzagMcu, q: crate::quant::QuantizedMcu) -> bool {
    &&& is_zigzag_of(z.y0.0@, q.y0.0@)
    &&& is_zigzag_of(z.y1.0@, q.y1.0@)
    &&& is_zigzag_of(z.cb.0@, q.cb.0@)
    &&& is_zigzag_of(z.cr.0@, q.cr.0@)
}

/// Puts every block of every MCU into zigzag order. It never fails.
pub fn encode_step5(quantized_mcu_collection: &QuantizedMcuCollection) -> (r: Result<
    ZigzagMcuCollection,
    crate::error::EncodeError,
>)
    ensures
        r is Ok,
        r->Ok_0.original_width == quantized_mcu_collection.original_width,
        r->Ok_0.original_height == quantized_mcu_collection.original_height,
        r->Ok_0.zigzag_mcus@.len() == quantized_mcu_collection.quantized_mcus@.len(),
        forall|i: int|
            0 <= i < quantized_mcu_collection.quantized_mcus@.len() ==> is_zigzag_mcu_of(
                #[trigger] r->Ok_0.zigzag_mcus@[i],
                quantized_mcu_collection.quantized_mcus@[i],
            ),
{
    let mut zigzag_mcus: Vec<ZigzagMcu> = Vec::new();
    let n = quantized_mcu_collection.quantized_mcus.len();
    let mut i: usize = 0;
    while i < n
        invariant
            i <= n,
            n == quantized_mcu_collection.quantized_mcus@.len(),
            zigzag_mcus@.len() == i,
            forall|j: int|
                0 <= j < i ==> is_zigzag_mcu_of(
                    #[trigger] zigzag_mcus@[j],
                    quantized_mcu_collection.quantized_mcus@[j],
                ),
        decreases n - i,
    {
        let mcu = &quantized_mcu_collection.quantized_mcus[i];
        zigzag_mcus.push(
            ZigzagMcu {
                y0: mcu.y0.zigzag(),
                y1: mcu.y1.zigzag(),
                cb: mcu.cb.zigzag(),
                cr: mcu.cr.zigzag(),
            },
        );
        i += 1;
    }
    Ok(
        ZigzagMcuCollection {
            original_width: quantized_mcu_collection.original_width,
            original_height: quantized_mcu_collection.original_height,
            zigzag_mcus,
        },
    )
}

/// The cell at place `k` of the zigzag order.
pub open spec fn zigzag_cell(k: int) -> (int, int) {
    choose|cell: (int, int)| in_block(cell.0, cell.1) && zigzag_index(cell.0, cell.1) == k
}

/// [`zigzag_cell`] is the inverse of [`zigzag_index`].
pub proof fn lemma_zigzag_cell(k: int)
    requires
        0 <= k < 64,
    ensures
        in_block(zigzag_cell(k).0, zigzag_cell(k).1),
        zigzag_index(zigzag_cell(k).0, zigzag_cell(k).1) == k,
{
    let cell = lemma_zigzag_index_onto(k);
    assert(in_block(cell.0, cell.1) && zigzag_index(cell.0, cell.1) == k);
}

/// The cells of `block` in zigzag order.
pub open spec fn zigzag_sequence<T>(block: Seq<[T; 8]>) -> Seq<T> {
    Seq::new(64, |k: int| block[zigzag_cell(k).0]@[zigzag_cell(k).1])
}

/// What [`is_zigzag_of`] says of a sequence, only [`zigzag_sequence`] meets.
pub proof fn lemma_zigzag_sequence<T>(flat: Seq<T>, block: Seq<[T; 8]>)
    requires
        is_zigzag_of(flat, block),
    ensures
        flat == zigzag_sequence(block),
{
    assert forall|k: int| 0 <= k < 64 implies flat[k] == zigzag_sequence(block)[k] by {
        lemma_zigzag_cell(k);
    }
    assert(flat =~= zigzag_sequence(block));
}

/// A block that is scanned into zigzag order and built again is the block that
/// was scanned: the zigzag order is a permutation of the 64 cells.
pub proof fn lemma_zigzag_round_trip<T>(block: Seq<[T; 8]>, flat: Seq<T>, back: Seq<[T; 8]>)
    requires
        is_zigzag_of(flat, block),
        is_zigzag_of(flat, back),
    ensures
        forall|r: int, c: int| in_block(r, c) ==> back[r]@[c] == block[r]@[c],
{
}

/// A zigzag sequence that is built into a block and scanned again is the
/// sequence that was built from.
pub proof fn lemma_unzigzag_round_trip<T>(flat: Seq<T>, block: Seq<[T; 8]>, again: Seq<T>)
    requires
        is_zigzag_of(flat, block),
        is_zigzag_of(again, block),
    ensures
        again == flat,
{
    assert forall|k: int| 0 <= k < 64 implies again[k] == flat[k] by {
        let cell = lemma_zigzag_index_onto(k);
        assert(again[zigzag_index(cell.0, cell.1)] == block[cell.0]@[cell.1]);
    }
    assert(again =~= flat);
}

} // verus!
