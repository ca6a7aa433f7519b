//! Black and white images at one bit per pixel.
//!
//! - [`img`]: the packed image, the pixel sources it is converted from by a
//!   brightness threshold, and walks over its pixels along the rows or along
//!   the columns.
//! - [`file`]: the file format of one image, a header of sixteen bytes and
//!   the packed pixels, and streams of such frames, plain or behind zlib
//!   compression.
//!
//! One convention holds throughout: the rows of an image are packed one by
//! one, each on `ceil(width / 8)` bytes of its own. The length of a buffer,
//! the conversion from pixels, the file format and both walks go by it.
//!
//! Everything works on bytes in memory; reading them from files and writing
//! them out is left to the caller.

use vstd::prelude::*;

pub mod file;
pub mod img;

pub use img::{
    is_white, iter_direction, to_bw_data_byte, BWByteData, BWByteIter, BWImage, BWImageSize,
    BWIterState, ImageData, IterDirection, IterOutput, NormalImage, RgbData,
};

verus! {

/// Why reading from a byte source failed.
#[derive(Clone, Copy, Debug, PartialEq, Eq, Structural)]
pub enum IoFault {
    /// The source ended before the bytes asked for were read.
    UnexpectedEof,
    /// The source holds data that cannot be what it claims to be.
    InvalidInput,
    /// The source delivered malformed data.
    InvalidData,
    /// Any other failure of the underlying source.
    Other,
}

/// Why the sixteen bytes at the start of a frame are not a header.
#[derive(Clone, Copy, Debug, PartialEq, Eq)]
pub enum HeaderError {
    /// The first four bytes are not the magic bytes; they are given.
    BadMagic(u8, u8, u8, u8),
    /// The version field holds something else than 1; its value is given.
    BadVersion(u32),
    /// The source ended cleanly after this many bytes of the header, at
    /// least 1 and at most 15.
    Truncated(usize),
}

/// Why a pixel source could not be turned into packed bits.
#[derive(Debug, PartialEq, Eq)]
pub enum BWDataErr {
    /// A failure of a pixel source of the caller's own, in its words.
    Custom(String),
    /// A buffer does not fit the geometry it comes with. Width, height and
    /// what was found: for a pixel source the number of whole pixels in its
    /// buffer, for a packed image the length of its buffer in bytes.
    WrongSize(u32, u32, usize),
}

/// Why converting a video failed.
#[derive(Debug, PartialEq, Eq)]
pub enum VideoError {
    /// The decoder reported this error code.
    FFMPEG(i32),
    /// Anything else, in words.
    Other(String),
}

/// Anything that can go wrong in this library.
#[derive(Debug, PartialEq, Eq)]
pub enum BWError {
    /// Decoding an image of a stream failed: the index of the image counted
    /// from zero, the cause, and the offset in the stream at which the image's
    /// header starts.
    Compression(usize, Box<BWError>, u64),
    /// A frame does not start with a valid header.
    FileHeader(HeaderError),
    /// The byte source failed.
    Io(IoFault),
    /// A pixel source could not be converted.
    BWDataErr(BWDataErr),
    /// A video could not be converted.
    VideoErr(VideoError),
}

} // verus!
