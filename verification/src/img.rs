//! The packed bitmap, its geometry and the sources it is built from.

use vstd::prelude::*;
use crate::file::{after_frame, encode_outcome, frame_bytes, frame_outcome, ByteSource};
use crate::{BWDataErr, BWError};
use raster::{convert_raster, raster_packed, RasterView};

pub mod bits;
pub mod iter_direction;
pub mod luma;
pub mod raster;

pub use bits::{to_bw_data_byte, BWByteData};
pub use luma::is_white;

verus! {

/// Width and height of an image, in pixels.
#[derive(Clone, Copy, Debug, PartialEq, Eq, Structural)]
pub struct BWImageSize {
    pub width: u32,
    pub height: u32,
}

/// Bytes that one packed row of `width` pixels occupies: every row starts on
/// a byte boundary, so a row takes `ceil(width / 8)` bytes.
pub open spec fn row_bytes(width: u32) -> nat {
    ((width + 7) / 8) as nat
}

/// Bytes that a packed image of the given size occupies.
pub open spec fn padded_len(size: BWImageSize) -> nat {
    row_bytes(size.width) * (size.height as nat)
}

impl BWImageSize {
    /// Length in bytes of the packed pixel buffer of an image of this size.
    pub fn get_padded_bytes_len(&self) -> (len: u64)
        ensures
            len == padded_len(*self),
    {
        proof {
            lemma_padded_len_bound(*self);
        }
        let per_row: u64 = (self.width as u64 + 7) / 8;
        per_row * (self.height as u64)
    }
}

/// The largest padded length there is: that of the largest width and height.
pub open spec fn max_padded_len() -> nat {
    0x2000_0000 * 0xffff_ffff
}

/// No padded length exceeds the largest one, which fits in 64 bits with
/// room for a header.
pub proof fn lemma_padded_len_bound(size: BWImageSize)
    ensures
        padded_len(size) <= max_padded_len(),
        max_padded_len() + 16 <= u64::MAX,
{
    assert(row_bytes(size.width) * (size.height as nat) <= 0x2000_0000 * 0xffff_ffff)
        by (nonlinear_arith)
        requires
            row_bytes(size.width) <= 0x2000_0000,
            size.height <= 0xffff_ffff,
    ;
}

/// Something that has a geometry and can be turned into packed bits.
pub trait ImageData {
    /// The geometry that the source declares. A verified source says what
    /// it is.
    open spec fn geometry(&self) -> BWImageSize {
        arbitrary()
    }

    /// What converting the source yields: the packed buffer, or the reason
    /// why there is none. A verified source says what it is.
    open spec fn packed(&self) -> Result<Seq<u8>, BWDataErr> {
        arbitrary()
    }

    /// The packed buffer of the source's pixels, row by row; its length is
    /// the padded length of the declared geometry.
    fn to_bw_data(&self) -> (r: Result<Vec<u8>, BWDataErr>)
        ensures
            match r {
                Ok(bytes) => self.packed() == Ok::<Seq<u8>, BWDataErr>(bytes@) && bytes@.len()
                    == padded_len(self.geometry()),
                Err(e) => self.packed() == Err::<Seq<u8>, BWDataErr>(e),
            },
    ;

    /// The geometry that the source declares.
    fn image_config(&self) -> (size: BWImageSize)
        ensures
            size == self.geometry(),
    ;

    /// The image that the source converts to.
    fn parse_bw_image(&self) -> (r: Result<BWImage, BWDataErr>) where Self: Sized
        ensures
            match r {
                Ok(img) => self.packed() == Ok::<Seq<u8>, BWDataErr>(img.pixels@) && img.size
                    == self.geometry() && img.wf(),
                Err(e) => self.packed() == Err::<Seq<u8>, BWDataErr>(e),
            },
    {
        let size = self.image_config();
        match self.to_bw_data() {
            Ok(pixels) => Ok(BWImage { size, pixels }),
            Err(e) => Err(e),
        }
    }
}

/// Interleaved red, green and blue bytes, three per pixel, row by row.
#[derive(Clone)]
pub struct RgbData<'a> {
    data: &'a [u8],
    height: u32,
    width: u32,
    bw_threshold: u8,
}

impl<'a> View for RgbData<'a> {
    type V = RasterView;

    closed spec fn view(&self) -> RasterView {
        RasterView {
            data: self.data@,
            width: self.width,
            height: self.height,
            threshold: self.bw_threshold,
        }
    }
}

impl<'a> RgbData<'a> {
    /// A source over `data` with the given geometry and the threshold 128.
    pub fn new(data: &'a [u8], width: u32, height: u32) -> (source: Self)
        ensures
            source@ == (RasterView { data: data@, width, height, threshold: 128 }),
    {
        Self { data, height, width, bw_threshold: 128 }
    }

    /// Replaces the brightness threshold.
    pub fn set_bw_threshold(&mut self, threshold: u8)
        ensures
            final(self)@ == (RasterView { threshold, ..old(self)@ }),
    {
        self.bw_threshold = threshold;
    }
}

impl<'a> ImageData for RgbData<'a> {
    open spec fn geometry(&self) -> BWImageSize {
        BWImageSize { width: self@.width, height: self@.height }
    }

    open spec fn packed(&self) -> Result<Seq<u8>, BWDataErr> {
        raster_packed(self@, 3)
    }

    fn to_bw_data(&self) -> (r: Result<Vec<u8>, BWDataErr>) {
        convert_raster(self.data, 3, self.width, self.height, self.bw_threshold)
    }

    fn image_config(&self) -> (size: BWImageSize) {
        BWImageSize { width: self.width, height: self.height }
    }
}

/// A decoded picture: red, green, blue and alpha bytes, four per pixel, row
/// by row. Alpha plays no part in the conversion.
pub struct NormalImage<'a> {
    pixels: &'a [u8],
    width: u32,
    height: u32,
    threshold: u8,
}

impl<'a> View for NormalImage<'a> {
    type V = RasterView;

    closed spec fn view(&self) -> RasterView {
        RasterView {
            data: self.pixels@,
            width: self.width,
            height: self.height,
            threshold: self.threshold,
        }
    }
}

impl<'a> NormalImage<'a> {
    /// A source over the pixels of a decoded picture, with the threshold 128.
    pub fn new(pixels: &'a [u8], width: u32, height: u32) -> (source: Self)
        ensures
            source@ == (RasterView { data: pixels@, width, height, threshold: 128 }),
    {
        Self { pixels, width, height, threshold: 128 }
    }

    /// Replaces the brightness threshold.
    pub fn set_bw_threshold(&mut self, threshold: u8)
        ensures
            final(self)@ == (RasterView { threshold, ..old(self)@ }),
    {
        self.threshold = threshold
    }
}

impl<'a> ImageData for NormalImage<'a> {
    open spec fn geometry(&self) -> BWImageSize {
        BWImageSize { width: self@.width, height: self@.height }
    }

    open spec fn packed(&self) -> Result<Seq<u8>, BWDataErr> {
        raster_packed(self@, 4)
    }

    fn to_bw_data(&self) -> (r: Result<Vec<u8>, BWDataErr>) {
        convert_raster(self.pixels, 4, self.width, self.height, self.threshold)
    }

    fn image_config(&self) -> (size: BWImageSize) {
        BWImageSize { width: self.width, height: self.height }
    }
}

/// What an image is: its geometry and its packed bytes.
pub struct BWImageView {
    pub size: BWImageSize,
    pub pixels: Seq<u8>,
}

/// A black and white image, one bit per pixel.
///
/// Rows are packed one after the other, each on `ceil(width / 8)` bytes of
/// its own, and within a byte the first pixel sits in the highest bit. Where
/// the width is no multiple of eight, the last byte of a row has bits that
/// hold no pixel; conversion from a pixel source leaves them zero.
///
/// The fields are open, so a value may hold a buffer that does not fit its
/// size. `wf` says that it fits; `new`, `parse` and `parse_file` give only
/// images that do.
#[derive(Clone, Debug)]
pub struct BWImage {
    pub size: BWImageSize,
    pub pixels: Vec<u8>,
}

impl View for BWImage {
    type V = BWImageView;

    open spec fn view(&self) -> BWImageView {
        BWImageView { size: self.size, pixels: self.pixels@ }
    }
}

impl BWImage {
    /// The buffer has the padded length of the geometry.
    pub open spec fn wf(&self) -> bool {
        self.pixels@.len() == padded_len(self.size)
    }

    /// Whether the buffer has the padded length of the geometry.
    pub fn is_well_formed(&self) -> (ok: bool)
        ensures
            ok == self.wf(),
    {
        self.pixels.len() as u64 == self.size.get_padded_bytes_len()
    }

    /// An image of the given size over the given buffer, if the buffer has
    /// the padded length of the size; else the size and the buffer's length.
    pub fn new(size: BWImageSize, pixels: Vec<u8>) -> (r: Result<Self, BWDataErr>)
        ensures
            match r {
                Ok(img) => img.wf() && img.size == size && img.pixels == pixels,
                Err(e) => pixels@.len() != padded_len(size) && e == BWDataErr::WrongSize(
                    size.width,
                    size.height,
                    pixels@.len() as usize,
                ),
            },
    {
        if pixels.len() as u64 == size.get_padded_bytes_len() {
            Ok(Self { size, pixels })
        } else {
            Err(BWDataErr::WrongSize(size.width, size.height, pixels.len()))
        }
    }

    /// The image that a pixel source converts to.
    pub fn parse<T: ImageData>(data: &T) -> (r: Result<Self, BWDataErr>)
        ensures
            match r {
                Ok(img) => data.packed() == Ok::<Seq<u8>, BWDataErr>(img.pixels@) && img.size
                    == data.geometry() && img.wf(),
                Err(e) => data.packed() == Err::<Seq<u8>, BWDataErr>(e),
            },
    {
        let size = data.image_config();
        match data.to_bw_data() {
            Ok(pixels) => Ok(Self { size, pixels }),
            Err(e) => Err(e),
        }
    }
}

/// One element of a directional walk over an image.
#[derive(Clone, Copy, Debug, PartialEq, Eq)]
pub enum IterOutput {
    /// Up to eight pixels, the first in the highest bit of `byte`; only the
    /// first `len` bits hold pixels.
    Byte { byte: u8, len: usize },
    /// The end of a row, or of a column in a vertical walk.
    NewLine,
}

/// What a direction gets to see of a walk: the image and the walk's position
/// as column and row.
#[derive(Clone, Copy)]
pub struct BWIterState<'a> {
    pub size: BWImageSize,
    pub current: (u32, u32),
    pub pixels: &'a [u8],
}

impl<'a> BWIterState<'a> {
    /// The buffer has the padded length of the geometry.
    pub open spec fn wf(&self) -> bool {
        self.pixels@.len() == padded_len(self.size)
    }
}

/// An order in which to walk over the pixels of an image.
pub trait IterDirection: Sized {
    /// The position after the next element of the walk and that element, or
    /// `None` where the walk is over. A verified direction says what it is.
    open spec fn step(&self, size: BWImageSize, current: (u32, u32), pixels: Seq<u8>) -> Option<
        ((u32, u32), IterOutput),
    > {
        arbitrary()
    }

    /// The position after this step and the element it yields, or `None`
    /// where the walk is over. A direction keeps no state of its own.
    fn next(&mut self, state: BWIterState) -> (r: Option<((u32, u32), IterOutput)>)
        requires
            state.wf(),
        ensures
            r == old(self).step(state.size, state.current, state.pixels@),
            *final(self) == *old(self),
    ;
}

/// A walk over an image in a given direction.
pub struct BWByteIter<'a, D: IterDirection> {
    size: BWImageSize,
    current: (u32, u32),
    pixels: &'a [u8],
    direction: D,
}

impl<'a, T: IterDirection> BWByteIter<'a, T> {
    /// The geometry of the image walked over.
    pub closed spec fn size(&self) -> BWImageSize {
        self.size
    }

    /// Column and row at which the next step starts.
    pub closed spec fn position(&self) -> (u32, u32) {
        self.current
    }

    /// The packed bytes of the image walked over.
    pub closed spec fn pixels(&self) -> Seq<u8> {
        self.pixels@
    }

    /// The direction of the walk.
    pub closed spec fn direction(&self) -> T {
        self.direction
    }

    /// The buffer has the padded length of the geometry.
    pub open spec fn wf(&self) -> bool {
        self.pixels().len() == padded_len(self.size())
    }

    /// A walk that starts in the top left corner.
    pub fn new(size: &BWImageSize, pixels: &'a [u8], direction: T) -> (it: Self)
        requires
            pixels@.len() == padded_len(*size),
        ensures
            it.wf(),
            it.size() == *size,
            it.position() == (0u32, 0u32),
            it.pixels() == pixels@,
            it.direction() == direction,
    {
        Self {
            direction,
            size: BWImageSize { width: size.width, height: size.height },
            current: (0, 0),
            pixels,
        }
    }

    /// The next element of the walk, or `None` where it is over; the walk
    /// moves on to the position that the direction gives.
    pub fn next(&mut self) -> (r: Option<IterOutput>)
        requires
            old(self).wf(),
        ensures
            final(self).wf(),
            final(self).size() == old(self).size(),
            final(self).pixels() == old(self).pixels(),
            final(self).direction() == old(self).direction(),
            match old(self).direction().step(
                old(self).size(),
                old(self).position(),
                old(self).pixels(),
            ) {
                Some((position, out)) => r == Some(out) && final(self).position() == position,
                None => r.is_none() && final(self).position() == old(self).position(),
            },
    {
        let state = BWIterState { size: self.size, current: self.current, pixels: self.pixels };
        match self.direction.next(state) {
            Some((current, out)) => {
                self.current = current;
                Some(out)
            },
            None => None,
        }
    }
}

impl BWImage {
    /// Reads one frame: the image and the number of bytes that its frame
    /// takes, or `None` where the source ends cleanly before the frame's
    /// first byte.
    pub fn parse_file(input: &mut ByteSource) -> (r: Result<Option<(Self, u64)>, BWError>)
        ensures
            final(input)@ == after_frame(old(input)@),
            match r {
                Ok(Some((img, len))) => frame_outcome(old(input)@) == Ok::<
                    Option<(BWImageView, u64)>,
                    BWError,
                >(Some((img@, len))) && img.wf(),
                Ok(None) => frame_outcome(old(input)@) == Ok::<
                    Option<(BWImageView, u64)>,
                    BWError,
                >(None),
                Err(e) => frame_outcome(old(input)@) == Err::<
                    Option<(BWImageView, u64)>,
                    BWError,
                >(e),
            },
    {
        crate::file::parse_file(input)
    }

    /// Appends the frame of the image: its header, then its packed pixels.
    /// An image whose buffer has not the padded length of its size is
    /// rejected, and nothing is appended.
    pub fn encode_as_file(&self, out: &mut Vec<u8>) -> (r: Result<(), BWError>)
        ensures
            match r {
                Ok(_) => encode_outcome(self@) == Ok::<Seq<u8>, BWError>(frame_bytes(self@))
                    && final(out)@ == old(out)@ + frame_bytes(self@),
                Err(e) => encode_outcome(self@) == Err::<Seq<u8>, BWError>(e) && final(out)@
                    == old(out)@,
            },
    {
        crate::file::encode_file(out, self)
    }

    /// A walk over the image in the given direction, from the top left corner.
    pub fn iterator<D: IterDirection>(&self, direction: D) -> (it: BWByteIter<'_, D>)
        requires
            self.wf(),
        ensures
            it.wf(),
            it.size() == self.size,
            it.position() == (0u32, 0u32),
            it.pixels() == self.pixels@,
            it.direction() == direction,
    {
        BWByteIter::new(&self.size, self.pixels.as_slice(), direction)
    }
}

} // verus!
