//! Rasters of colour pixels and how they are packed: row by row, each row
//! on bytes of its own.

use vstd::prelude::*;
use vstd::arithmetic::div_mod::{lemma_fundamental_div_mod, lemma_fundamental_div_mod_converse};
use crate::img::bits::{byte_bit, lemma_pack_byte_bits, pack_byte, to_bw_data_byte};
use crate::img::luma::{is_white, white};
use crate::img::{padded_len, row_bytes, BWImageSize};
use crate::BWDataErr;

verus! {

/// What a raster pixel source holds: interleaved channel bytes, row by row,
/// its declared geometry and its brightness threshold.
pub struct RasterView {
    pub data: Seq<u8>,
    pub width: u32,
    pub height: u32,
    pub threshold: u8,
}

/// The pixels of a raster as on/off values, row by row: pixel `p` takes its
/// red, green and blue from the first three of its `stride` bytes.
pub open spec fn raster_bits(data: Seq<u8>, stride: int, threshold: u8, count: int) -> Seq<bool> {
    Seq::new(
        count as nat,
        |p: int| white(data[stride * p], data[stride * p + 1], data[stride * p + 2], threshold),
    )
}

/// The pixels that the `k`-th byte of a packed image holds: up to eight
/// neighbours of one row. A row's last byte holds fewer when the width is no
/// multiple of eight.
pub open spec fn row_group(bits: Seq<bool>, width: u32, k: int) -> Seq<bool> {
    let per_row = row_bytes(width) as int;
    let y = k / per_row;
    let first = 8 * (k % per_row);
    let end = if first + 8 <= width {
        first + 8
    } else {
        width as int
    };
    bits.subrange(y * width + first, y * width + end)
}

/// The packed buffer of an image whose pixels are `bits`, row by row.
pub open spec fn pack_rows(bits: Seq<bool>, size: BWImageSize) -> Seq<u8> {
    Seq::new(padded_len(size), |k: int| pack_byte(row_group(bits, size.width, k)) as u8)
}

/// Whether the pixel in column `x` of row `y` is on in a packed buffer.
pub open spec fn pixel_at(pixels: Seq<u8>, width: u32, x: int, y: int) -> bool {
    byte_bit(pixels[y * row_bytes(width) + x / 8], x % 8)
}

/// What converting a raster with `stride` bytes per pixel yields: the packed
/// rows if the buffer holds exactly width times height pixels, else the
/// geometry and the number of whole pixels found.
pub open spec fn raster_packed(raster: RasterView, stride: int) -> Result<Seq<u8>, BWDataErr> {
    let count = raster.width * raster.height;
    if raster.data.len() == stride * count {
        Ok(
            pack_rows(
                raster_bits(raster.data, stride, raster.threshold, count),
                BWImageSize { width: raster.width, height: raster.height },
            ),
        )
    } else {
        Err(
            BWDataErr::WrongSize(
                raster.width,
                raster.height,
                (raster.data.len() / stride as nat) as usize,
            ),
        )
    }
}

/// Where the `k`-th byte of a packed image lies: in a row of the image, and
/// with its first pixel inside that row.
pub proof fn lemma_group_position(width: u32, height: u32, k: int)
    requires
        0 <= k < row_bytes(width) * height,
    ensures
        row_bytes(width) > 0,
        0 <= k / (row_bytes(width) as int) < height,
        0 <= k % (row_bytes(width) as int) < row_bytes(width),
        8 * (k % (row_bytes(width) as int)) < width,
        0 <= (k / (row_bytes(width) as int)) * width,
        (k / (row_bytes(width) as int)) * width + width <= width * height,
{
    let per_row = row_bytes(width) as int;
    assert(per_row > 0) by (nonlinear_arith)
        requires
            0 <= k < per_row * height,
            per_row >= 0,
    ;
    lemma_fundamental_div_mod(k, per_row);
    let y = k / per_row;
    let j = k % per_row;
    assert(0 <= y < height) by (nonlinear_arith)
        requires
            k == per_row * y + j,
            0 <= j < per_row,
            0 <= k < per_row * height,
    ;
    assert(0 <= y * width && y * width + width <= width * height) by (nonlinear_arith)
        requires
            0 <= y < height,
    ;
}

/// Every byte of a packed buffer is the packing of its group of pixels.
pub proof fn lemma_pack_rows_bytes(bits: Seq<bool>, size: BWImageSize)
    requires
        bits.len() == size.width * size.height,
    ensures
        pack_rows(bits, size).len() == padded_len(size),
        forall|k: int|
            0 <= k < padded_len(size) ==> pack_rows(bits, size)[k] == pack_byte(
                #[trigger] row_group(bits, size.width, k),
            ),
{
    assert forall|k: int| 0 <= k < padded_len(size) implies pack_rows(bits, size)[k] == pack_byte(
        #[trigger] row_group(bits, size.width, k),
    ) by {
        lemma_pack_byte_bits(row_group(bits, size.width, k));
    }
}

/// The byte that holds the pixel in column `x` of row `y` lies in the buffer.
pub proof fn lemma_pixel_index(size: BWImageSize, x: int, y: int)
    requires
        0 <= x < size.width,
        0 <= y < size.height,
    ensures
        0 <= y * row_bytes(size.width) + x / 8 < padded_len(size),
{
    let per_row = row_bytes(size.width) as int;
    assert(0 <= y * per_row && y * per_row + per_row <= per_row * size.height) by (nonlinear_arith)
        requires
            0 <= y < size.height,
            0 <= per_row,
    ;
}

/// A packed buffer holds every pixel where `pixel_at` looks for it: the
/// pixel in column `x` of row `y` is bit `x % 8`, counted from the highest,
/// of byte `x / 8` of that row's bytes.
pub proof fn lemma_packed_pixel(bits: Seq<bool>, size: BWImageSize, x: int, y: int)
    requires
        bits.len() == size.width * size.height,
        0 <= x < size.width,
        0 <= y < size.height,
    ensures
        pixel_at(pack_rows(bits, size), size.width, x, y) == bits[y * size.width + x],
{
    let per_row = row_bytes(size.width) as int;
    let k = y * per_row + x / 8;
    lemma_pixel_index(size, x, y);
    lemma_fundamental_div_mod_converse(k, per_row, y, x / 8);
    lemma_group_position(size.width, size.height, k);
    lemma_pack_rows_bytes(bits, size);
    let group = row_group(bits, size.width, k);
    lemma_pack_byte_bits(group);
    assert(group[x % 8] == bits[y * size.width + x]);
}

/// The bits of a row's last byte that hold no pixel are off.
pub proof fn lemma_padding_is_off(bits: Seq<bool>, size: BWImageSize, k: int, i: int)
    requires
        bits.len() == size.width * size.height,
        0 <= k < padded_len(size),
        0 <= i < 8,
        8 * (k % (row_bytes(size.width) as int)) + i >= size.width,
    ensures
        !byte_bit(pack_rows(bits, size)[k], i),
{
    lemma_group_position(size.width, size.height, k);
    lemma_pack_rows_bytes(bits, size);
    lemma_pack_byte_bits(row_group(bits, size.width, k));
}

/// Conversion by threshold: a raster whose buffer fits its geometry converts,
/// and a pixel of the image is on exactly when the brightness of its red,
/// green and blue is strictly above the threshold.
pub proof fn lemma_raster_pixel(raster: RasterView, stride: int, x: int, y: int)
    requires
        3 <= stride,
        raster.data.len() == stride * (raster.width * raster.height),
        0 <= x < raster.width,
        0 <= y < raster.height,
    ensures
        raster_packed(raster, stride) is Ok,
        pixel_at(raster_packed(raster, stride).unwrap(), raster.width, x, y) == white(
            raster.data[stride * (y * raster.width + x)],
            raster.data[stride * (y * raster.width + x) + 1],
            raster.data[stride * (y * raster.width + x) + 2],
            raster.threshold,
        ),
{
    let count = raster.width * raster.height;
    let size = BWImageSize { width: raster.width, height: raster.height };
    let bits = raster_bits(raster.data, stride, raster.threshold, count);
    assert(0 <= y * raster.width + x < count) by (nonlinear_arith)
        requires
            0 <= x < raster.width,
            0 <= y < raster.height,
            count == raster.width * raster.height,
    ;
    lemma_packed_pixel(bits, size, x, y);
}

/// Packs the pixels of a raster row by row, every row on its own bytes.
fn pack_raster(data: &[u8], stride: usize, width: u32, height: u32, threshold: u8) -> (packed: Vec<
    u8,
>)
    requires
        3 <= stride <= 4,
        data@.len() == stride * (width * height),
    ensures
        packed@ == pack_rows(
            raster_bits(data@, stride as int, threshold, width * height),
            BWImageSize { width, height },
        ),
{
    let ghost size = BWImageSize { width, height };
    let ghost bits = raster_bits(data@, stride as int, threshold, width * height);
    let per_row: u32 = ((width as u64 + 7) / 8) as u32;
    let total: usize = data.len();
    proof {
        assert(0 <= width * height <= usize::MAX) by (nonlinear_arith)
            requires
                3 <= stride,
                stride * (width * height) == total,
                total <= usize::MAX,
                0 <= width,
                0 <= height,
        ;
    }
    let mut packed: Vec<u8> = Vec::new();
    let mut y: u32 = 0;
    while y < height
        invariant
            y <= height,
            3 <= stride <= 4,
            per_row == row_bytes(width),
            data@.len() == stride * (width * height),
            0 <= width * height <= usize::MAX,
            stride * (width * height) <= usize::MAX,
            bits == raster_bits(data@, stride as int, threshold, width * height),
            packed@.len() == y * per_row,
            forall|k: int|
                0 <= k < packed@.len() ==> packed@[k] == pack_byte(
                    #[trigger] row_group(bits, width, k),
                ),
        decreases height - y,
    {
        let mut j: u32 = 0;
        while j < per_row
            invariant
                y < height,
                j <= per_row,
                3 <= stride <= 4,
                per_row == row_bytes(width),
                data@.len() == stride * (width * height),
                0 <= width * height <= usize::MAX,
                stride * (width * height) <= usize::MAX,
                bits == raster_bits(data@, stride as int, threshold, width * height),
                packed@.len() == y * per_row + j,
                forall|k: int|
                    0 <= k < packed@.len() ==> packed@[k] == pack_byte(
                        #[trigger] row_group(bits, width, k),
                    ),
            decreases per_row - j,
        {
            let ghost k = y * per_row + j;
            proof {
                lemma_fundamental_div_mod_converse(k, per_row as int, y as int, j as int);
                assert(k < per_row * height) by (nonlinear_arith)
                    requires
                        k == y * per_row + j,
                        j < per_row,
                        y < height,
                ;
                lemma_group_position(width, height, k);
            }
            let first: u32 = 8 * j;
            let end: u32 = if width - first >= 8 {
                first + 8
            } else {
                width
            };
            let mut group: Vec<bool> = Vec::new();
            let mut x: u32 = first;
            while x < end
                invariant
                    first <= x <= end <= width,
                    end - first <= 8,
                    0 <= y * width,
                    y * width + width <= width * height,
                    0 <= width * height <= usize::MAX,
                    stride * (width * height) <= usize::MAX,
                    3 <= stride <= 4,
                    data@.len() == stride * (width * height),
                    bits == raster_bits(data@, stride as int, threshold, width * height),
                    group@ =~= bits.subrange(y * width + first, y * width + x),
                decreases end - x,
            {
                let row_start: usize = y as usize * width as usize;
                let pixel: usize = row_start + x as usize;
                proof {
                    assert(0 <= stride * pixel && stride * pixel + stride <= stride * (width
                        * height)) by (nonlinear_arith)
                        requires
                            0 <= pixel < width * height,
                            stride >= 0,
                    ;
                }
                let at: usize = stride * pixel;
                let on = is_white(data[at], data[at + 1], data[at + 2], threshold);
                group.push(on);
                x = x + 1;
            }
            let byte = to_bw_data_byte(group.as_slice());
            packed.push(byte);
            proof {
                assert(group@ =~= row_group(bits, width, k));
            }
            j = j + 1;
        }
        proof {
            assert(y * per_row + per_row == (y + 1) * per_row) by (nonlinear_arith);
        }
        y = y + 1;
    }
    proof {
        lemma_pack_rows_bytes(bits, size);
        assert(y * per_row == padded_len(size)) by (nonlinear_arith)
            requires
                y == height,
                per_row == row_bytes(width),
                padded_len(size) == row_bytes(width) * (height as nat),
        ;
        assert(packed@ =~= pack_rows(bits, size));
    }
    packed
}

/// Whether a buffer of `len` bytes holds exactly width times height pixels
/// of `stride` bytes each.
fn holds_all_pixels(len: usize, stride: usize, width: u32, height: u32) -> (ok: bool)
    requires
        3 <= stride <= 4,
    ensures
        ok == (len == stride * (width * height)),
{
    proof {
        assert(0 <= width * height <= 0xffff_ffff * 0xffff_ffff) by (nonlinear_arith)
            requires
                0 <= width <= 0xffff_ffff,
                0 <= height <= 0xffff_ffff,
        ;
        lemma_fundamental_div_mod(len as int, stride as int);
        assert(len == stride * (width * height) ==> len % stride == 0 && len / stride == width
            * height) by {
            if len == stride * (width * height) {
                lemma_fundamental_div_mod_converse(
                    len as int,
                    stride as int,
                    width * height,
                    0,
                );
            }
        }
    }
    let count: u64 = width as u64 * height as u64;
    len % stride == 0 && (len / stride) as u64 == count
}

/// Converts a raster with `stride` bytes per pixel.
pub(crate) fn convert_raster(
    data: &[u8],
    stride: usize,
    width: u32,
    height: u32,
    threshold: u8,
) -> (r: Result<Vec<u8>, BWDataErr>)
    requires
        3 <= stride <= 4,
    ensures
        match r {
            Ok(bytes) => raster_packed(
                RasterView { data: data@, width, height, threshold },
                stride as int,
            ) == Ok::<Seq<u8>, BWDataErr>(bytes@) && bytes@.len() == padded_len(
                BWImageSize { width, height },
            ),
            Err(e) => raster_packed(
                RasterView { data: data@, width, height, threshold },
                stride as int,
            ) == Err::<Seq<u8>, BWDataErr>(e),
        },
{
    if holds_all_pixels(data.len(), stride, width, height) {
        Ok(pack_raster(data, stride, width, height, threshold))
    } else {
        Err(BWDataErr::WrongSize(width, height, data.len() / stride))
    }
}

} // verus!
