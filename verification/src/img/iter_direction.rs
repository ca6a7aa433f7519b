//! The two directions in which an image can be walked over.

use vstd::prelude::*;
use crate::img::bits::{byte_bit, lemma_pack_byte_bits, pack_byte, to_bw_data_byte};
use crate::img::raster::{lemma_pixel_index, pixel_at};
use crate::img::{
    lemma_padded_len_bound, padded_len, row_bytes, BWImageSize, BWIterState, IterDirection,
    IterOutput,
};

verus! {

/// Row by row, each row from left to right, eight pixels at a time.
pub struct Horizontal;

/// Column by column, each column from top to bottom, eight pixels at a time.
pub struct Vertical;

/// The step of a walk along the rows: past the last row the walk is over; at
/// the end of a row it yields the row's end and moves to the start of the
/// next row; else it yields the byte that holds the pixel at the position,
/// with the number of pixels left in the row, at most eight, and moves eight
/// columns on (to the largest column number, where eight more cannot be
/// counted).
pub open spec fn horizontal_step(size: BWImageSize, current: (u32, u32), pixels: Seq<u8>) -> Option<
    ((u32, u32), IterOutput),
> {
    let (x, y) = current;
    if y >= size.height {
        None
    } else if x >= size.width {
        Some(((0u32, (y + 1) as u32), IterOutput::NewLine))
    } else {
        Some(
            (
                (
                    if x + 8 <= u32::MAX {
                        (x + 8) as u32
                    } else {
                        u32::MAX
                    },
                    y,
                ),
                IterOutput::Byte {
                    byte: pixels[y * row_bytes(size.width) + x / 8],
                    len: if size.width - x < 8 {
                        (size.width - x) as usize
                    } else {
                        8
                    },
                },
            ),
        )
    }
}

/// The pixels of column `x` in the `len` rows from row `y` on, top first.
pub open spec fn column_bits(pixels: Seq<u8>, width: u32, x: int, y: int, len: int) -> Seq<bool> {
    Seq::new(len as nat, |i: int| pixel_at(pixels, width, x, y + i))
}

/// The step of a walk along the columns: past the last column the walk is
/// over; at the end of a column it yields the column's end and moves to the
/// top of the next column; else it yields the pixels of the next rows of the
/// column, eight or as many as are left, packed top first, and moves that
/// many rows down.
pub open spec fn vertical_step(size: BWImageSize, current: (u32, u32), pixels: Seq<u8>) -> Option<
    ((u32, u32), IterOutput),
> {
    let (x, y) = current;
    if x >= size.width {
        None
    } else if y >= size.height {
        Some((((x + 1) as u32, 0u32), IterOutput::NewLine))
    } else {
        let len = if size.height - y < 8 {
            size.height - y
        } else {
            8
        };
        Some(
            (
                (x, (y + len) as u32),
                IterOutput::Byte {
                    byte: pack_byte(column_bits(pixels, size.width, x as int, y as int, len)) as u8,
                    len: len as usize,
                },
            ),
        )
    }
}

/// The byte of the buffer that holds the pixel in column `x` of row `y`.
fn byte_of_pixel(state: &BWIterState, x: u32, y: u32) -> (byte: u8)
    requires
        state.wf(),
        x < state.size.width,
        y < state.size.height,
    ensures
        byte == state.pixels@[y * row_bytes(state.size.width) + x / 8],
{
    proof {
        lemma_pixel_index(state.size, x as int, y as int);
        lemma_padded_len_bound(state.size);
    }
    let per_row: u64 = (state.size.width as u64 + 7) / 8;
    let at: u64 = y as u64 * per_row + (x / 8) as u64;
    state.pixels[at as usize]
}

/// What a chunk of a walk along the rows holds: a chunk that starts at a
/// column divisible by eight holds the pixels of its row from that column
/// on, one to eight of them, and fewer than eight only at the end of the row.
pub proof fn lemma_horizontal_chunk(size: BWImageSize, x: u32, y: u32, pixels: Seq<u8>)
    requires
        pixels.len() == padded_len(size),
        x < size.width,
        y < size.height,
        x % 8 == 0,
    ensures
        horizontal_step(size, (x, y), pixels) matches Some((_, IterOutput::Byte { byte, len }))
            && 1 <= len <= 8 && (len < 8 ==> x + len == size.width) && forall|i: int|
            0 <= i < len ==> byte_bit(byte, i) == #[trigger] pixel_at(
                pixels,
                size.width,
                x + i,
                y as int,
            ),
{
}

/// What a chunk of a walk along the columns holds: the pixels of its column
/// from its row on, top first, one to eight of them, and fewer than eight
/// only at the end of the column.
pub proof fn lemma_vertical_chunk(size: BWImageSize, x: u32, y: u32, pixels: Seq<u8>)
    requires
        pixels.len() == padded_len(size),
        x < size.width,
        y < size.height,
    ensures
        vertical_step(size, (x, y), pixels) matches Some((_, IterOutput::Byte { byte, len }))
            && 1 <= len <= 8 && (len < 8 ==> y + len == size.height) && forall|i: int|
            0 <= i < len ==> byte_bit(byte, i) == #[trigger] pixel_at(
                pixels,
                size.width,
                x as int,
                y + i,
            ),
{
    let len = if size.height - y < 8 {
        size.height - y
    } else {
        8
    };
    let column = column_bits(pixels, size.width, x as int, y as int, len);
    lemma_pack_byte_bits(column);
    assert forall|i: int| 0 <= i < len implies byte_bit(pack_byte(column) as u8, i)
        == #[trigger] pixel_at(pixels, size.width, x as int, y + i) by {
        assert(column[i] == pixel_at(pixels, size.width, x as int, y + i));
    }
}

/// How far a walk along the rows is from its end, at most: every step
/// brings it closer, so that every walk ends.
pub open spec fn horizontal_steps_left(size: BWImageSize, current: (u32, u32)) -> int {
    let (x, y) = current;
    if y >= size.height {
        0
    } else {
        (size.height - y) * (size.width + 1) - if x < size.width {
            x as int
        } else {
            size.width as int
        }
    }
}

/// A walk along the rows is over exactly past the last row, and every step
/// before that brings it closer to its end.
pub proof fn lemma_horizontal_walk_ends(size: BWImageSize, current: (u32, u32), pixels: Seq<u8>)
    ensures
        horizontal_step(size, current, pixels).is_none() <==> current.1 >= size.height,
        horizontal_steps_left(size, current) >= 0,
        horizontal_step(size, current, pixels) matches Some((then, _)) ==> horizontal_steps_left(
            size,
            then,
        ) < horizontal_steps_left(size, current),
{
    let (x, y) = current;
    let w = size.width as int;
    let h = size.height as int;
    if y < size.height {
        assert((h - y) * (w + 1) == (h - y - 1) * (w + 1) + w + 1) by (nonlinear_arith);
        assert((h - y - 1) * (w + 1) >= 0) by (nonlinear_arith)
            requires
                h - y - 1 >= 0,
                w >= 0,
        ;
    }
}

/// How far a walk along the columns is from its end, at most.
pub open spec fn vertical_steps_left(size: BWImageSize, current: (u32, u32)) -> int {
    let (x, y) = current;
    if x >= size.width {
        0
    } else {
        (size.width - x) * (size.height + 1) - if y < size.height {
            y as int
        } else {
            size.height as int
        }
    }
}

/// A walk along the columns is over exactly past the last column, and every
/// step before that brings it closer to its end.
pub proof fn lemma_vertical_walk_ends(size: BWImageSize, current: (u32, u32), pixels: Seq<u8>)
    ensures
        vertical_step(size, current, pixels).is_none() <==> current.0 >= size.width,
        vertical_steps_left(size, current) >= 0,
        vertical_step(size, current, pixels) matches Some((then, _)) ==> vertical_steps_left(
            size,
            then,
        ) < vertical_steps_left(size, current),
{
    let (x, y) = current;
    let w = size.width as int;
    let h = size.height as int;
    if x < size.width {
        assert((w - x) * (h + 1) == (w - x - 1) * (h + 1) + h + 1) by (nonlinear_arith);
        assert((w - x - 1) * (h + 1) >= 0) by (nonlinear_arith)
            requires
                w - x - 1 >= 0,
                h >= 0,
        ;
    }
}

/// Whether the `i`-th pixel of a packed byte is on.
fn bit_is_set(byte: u8, i: u32) -> (on: bool)
    requires
        i < 8,
    ensures
        on == byte_bit(byte, i as int),
{
    let weight: u8 = if i == 0 {
        128
    } else if i == 1 {
        64
    } else if i == 2 {
        32
    } else if i == 3 {
        16
    } else if i == 4 {
        8
    } else if i == 5 {
        4
    } else if i == 6 {
        2
    } else {
        1
    };
    (byte / weight) % 2 == 1
}

impl IterDirection for Horizontal {
    open spec fn step(&self, size: BWImageSize, current: (u32, u32), pixels: Seq<u8>) -> Option<
        ((u32, u32), IterOutput),
    > {
        horizontal_step(size, current, pixels)
    }

    fn next(&mut self, state: BWIterState) -> (r: Option<((u32, u32), IterOutput)>) {
        let (x, y) = state.current;
        let width = state.size.width;
        let height = state.size.height;
        if y >= height {
            None
        } else if x >= width {
            Some(((0, y + 1), IterOutput::NewLine))
        } else {
            let byte = byte_of_pixel(&state, x, y);
            let len: usize = if width - x < 8 {
                (width - x) as usize
            } else {
                8
            };
            let then: u32 = if x <= u32::MAX - 8 {
                x + 8
            } else {
                u32::MAX
            };
            Some(((then, y), IterOutput::Byte { byte, len }))
        }
    }
}

impl IterDirection for Vertical {
    open spec fn step(&self, size: BWImageSize, current: (u32, u32), pixels: Seq<u8>) -> Option<
        ((u32, u32), IterOutput),
    > {
        vertical_step(size, current, pixels)
    }

    fn next(&mut self, state: BWIterState) -> (r: Option<((u32, u32), IterOutput)>) {
        let (x, y) = state.current;
        let width = state.size.width;
        let height = state.size.height;
        if x >= width {
            None
        } else if y >= height {
            Some(((x + 1, 0), IterOutput::NewLine))
        } else {
            let len: u32 = if height - y < 8 {
                height - y
            } else {
                8
            };
            let mut column: Vec<bool> = Vec::new();
            let mut i: u32 = 0;
            while i < len
                invariant
                    state.wf(),
                    x < state.size.width,
                    width == state.size.width,
                    i <= len <= 8,
                    y + len <= state.size.height,
                    column@ =~= column_bits(state.pixels@, width, x as int, y as int, i as int),
                decreases len - i,
            {
                let byte = byte_of_pixel(&state, x, y + i);
                column.push(bit_is_set(byte, x % 8));
                i = i + 1;
            }
            let byte = to_bw_data_byte(column.as_slice());
            Some(((x, y + len), IterOutput::Byte { byte, len: len as usize }))
        }
    }
}

} // verus!
