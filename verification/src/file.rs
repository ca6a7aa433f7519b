//! The file format: a header of sixteen bytes and the packed pixels, and
//! streams of such frames one after the other.
//!
//! ```text
//! bytes 0-3    the magic bytes "BWIM"
//! bytes 4-7    the version, 1
//! bytes 8-11   the width
//! bytes 12-15  the height
//! bytes 16..   the packed pixels
//! ```
//!
//! Numbers are stored with their lowest byte first.

use vstd::prelude::*;
use crate::img::{lemma_padded_len_bound, padded_len, BWImage, BWImageSize, BWImageView};
use crate::{BWDataErr, BWError, HeaderError, IoFault};

pub mod compress;
pub mod inflate;
pub mod video;

verus! {

/// Length of a header in bytes.
pub const HEADER_LEN: usize = 16;

/// The only version of the format.
pub const VERSION: u32 = 1;

/// The four bytes that every header starts with: the letters `BWIM`.
pub open spec fn magic() -> Seq<u8> {
    seq![0x42u8, 0x57u8, 0x49u8, 0x4Du8]
}

/// The four bytes of a number, lowest first.
pub open spec fn le_bytes(v: u32) -> Seq<u8> {
    seq![
        (v % 256) as u8,
        (v / 0x100 % 256) as u8,
        (v / 0x1_0000 % 256) as u8,
        (v / 0x100_0000) as u8,
    ]
}

/// The number whose four bytes, lowest first, stand at `at` in `bytes`.
pub open spec fn le_value(bytes: Seq<u8>, at: int) -> u32 {
    (bytes[at] + 0x100 * bytes[at + 1] + 0x1_0000 * bytes[at + 2] + 0x100_0000 * bytes[at
        + 3]) as u32
}

/// The header of an image of the given size.
pub open spec fn header_bytes(size: BWImageSize) -> Seq<u8> {
    magic() + le_bytes(VERSION) + le_bytes(size.width) + le_bytes(size.height)
}

/// The frame of an image: its header, then its packed pixels.
pub open spec fn frame_bytes(img: BWImageView) -> Seq<u8> {
    header_bytes(img.size) + img.pixels
}

/// What a byte source still has to give: the bytes not yet read, and how the
/// source ends after them: with a failure, or cleanly.
pub struct SourceView {
    pub pending: Seq<u8>,
    pub fault: Option<IoFault>,
}

/// What reading past the end of a source reports: the source's own failure,
/// or, where it ended cleanly, that it ended too early.
pub open spec fn end_fault(source: SourceView) -> IoFault {
    match source.fault {
        Some(fault) => fault,
        None => IoFault::UnexpectedEof,
    }
}

/// The source after `n` bytes were asked of it: `n` bytes further on, or
/// drained where it does not hold that many.
pub open spec fn after_read(source: SourceView, n: nat) -> SourceView {
    if source.pending.len() >= n {
        SourceView { pending: source.pending.skip(n as int), fault: source.fault }
    } else {
        SourceView { pending: Seq::empty(), fault: source.fault }
    }
}

/// What reading exactly `n` bytes yields: the next `n` bytes, or the failure
/// at the end of a source that does not hold that many.
pub open spec fn read_outcome(source: SourceView, n: nat) -> Result<Seq<u8>, IoFault> {
    if source.pending.len() >= n {
        Ok(source.pending.take(n as int))
    } else {
        Err(end_fault(source))
    }
}

/// What sixteen bytes say as a header: the size they declare, or why they are
/// no header.
pub open spec fn header_meaning(bytes: Seq<u8>) -> Result<BWImageSize, HeaderError> {
    if bytes.take(4) != magic() {
        Err(HeaderError::BadMagic(bytes[0], bytes[1], bytes[2], bytes[3]))
    } else if le_value(bytes, 4) != VERSION {
        Err(HeaderError::BadVersion(le_value(bytes, 4)))
    } else {
        Ok(BWImageSize { width: le_value(bytes, 8), height: le_value(bytes, 12) })
    }
}

/// What reading a header from a source yields.
///
/// A source with sixteen bytes or more gives what those bytes mean. A source
/// that ends cleanly without a single byte gives `None`: this is how a stream
/// of frames ends. A source that ends cleanly after one to fifteen bytes
/// holds a truncated header, and a source that fails before the sixteenth
/// byte gives its failure.
pub open spec fn header_outcome(source: SourceView) -> Result<Option<BWImageSize>, BWError> {
    if source.pending.len() >= HEADER_LEN {
        match header_meaning(source.pending.take(HEADER_LEN as int)) {
            Ok(size) => Ok(Some(size)),
            Err(e) => Err(BWError::FileHeader(e)),
        }
    } else {
        match source.fault {
            Some(fault) => Err(BWError::Io(fault)),
            None => if source.pending.len() == 0 {
                Ok(None)
            } else {
                Err(BWError::FileHeader(HeaderError::Truncated(source.pending.len() as usize)))
            },
        }
    }
}

/// What reading the pixels of an image of the given size yields: the image,
/// or the failure at the end of a source that is too short.
pub open spec fn body_outcome(source: SourceView, size: BWImageSize) -> Result<
    BWImageView,
    BWError,
> {
    match read_outcome(source, padded_len(size)) {
        Ok(pixels) => Ok(BWImageView { size, pixels }),
        Err(fault) => Err(BWError::Io(fault)),
    }
}

/// What reading one frame yields: the image and the length of its frame,
/// `None` at the clean end of the source, or the first failure.
pub open spec fn frame_outcome(source: SourceView) -> Result<Option<(BWImageView, u64)>, BWError> {
    match header_outcome(source) {
        Ok(Some(size)) => match body_outcome(after_read(source, HEADER_LEN as nat), size) {
            Ok(img) => Ok(Some((img, (HEADER_LEN + padded_len(size)) as u64))),
            Err(e) => Err(e),
        },
        Ok(None) => Ok(None),
        Err(e) => Err(e),
    }
}

/// The source after one frame was read from it.
pub open spec fn after_frame(source: SourceView) -> SourceView {
    match header_outcome(source) {
        Ok(Some(size)) => after_read(after_read(source, HEADER_LEN as nat), padded_len(size)),
        _ => after_read(source, HEADER_LEN as nat),
    }
}

/// Bytes held in memory that are read from front to back, followed by a clean
/// end or by a failure.
pub struct ByteSource {
    data: Vec<u8>,
    pos: usize,
    fault: Option<IoFault>,
}

impl View for ByteSource {
    type V = SourceView;

    closed spec fn view(&self) -> SourceView {
        SourceView { pending: self.data@.skip(self.pos as int), fault: self.fault }
    }
}

impl ByteSource {
    #[verifier::type_invariant]
    spec fn in_bounds(&self) -> bool {
        self.pos <= self.data@.len()
    }

    /// A source that gives `data` and then ends cleanly.
    pub fn new(data: Vec<u8>) -> (source: Self)
        ensures
            source@ == (SourceView { pending: data@, fault: None }),
    {
        assert(data@.skip(0) =~= data@);
        Self { data, pos: 0, fault: None }
    }

    /// A source that gives `data` and then fails with `fault`.
    pub fn failing(data: Vec<u8>, fault: IoFault) -> (source: Self)
        ensures
            source@ == (SourceView { pending: data@, fault: Some(fault) }),
    {
        assert(data@.skip(0) =~= data@);
        Self { data, pos: 0, fault: Some(fault) }
    }

    /// How many bytes are left to read.
    pub fn remaining(&self) -> (n: usize)
        ensures
            n == self@.pending.len(),
    {
        proof {
            use_type_invariant(self);
        }
        self.data.len() - self.pos
    }

    /// The failure that follows the last byte, if the source does not end cleanly.
    pub fn fault(&self) -> (fault: Option<IoFault>)
        ensures
            fault == self@.fault,
    {
        self.fault
    }

    /// Reads exactly `n` bytes, or fails and leaves the source drained.
    pub fn read_exact(&mut self, n: u64) -> (r: Result<Vec<u8>, IoFault>)
        ensures
            final(self)@ == after_read(old(self)@, n as nat),
            match r {
                Ok(bytes) => read_outcome(old(self)@, n as nat) == Ok::<Seq<u8>, IoFault>(bytes@),
                Err(fault) => read_outcome(old(self)@, n as nat) == Err::<Seq<u8>, IoFault>(
                    fault,
                ),
            },
    {
        proof {
            use_type_invariant(&*self);
        }
        let left: usize = self.data.len() - self.pos;
        if left as u64 >= n {
            let start: usize = self.pos;
            let end: usize = start + n as usize;
            let mut bytes: Vec<u8> = Vec::new();
            let mut i: usize = start;
            while i < end
                invariant
                    start <= i <= end <= self.data@.len(),
                    bytes@ =~= self.data@.subrange(start as int, i as int),
                decreases end - i,
            {
                bytes.push(self.data[i]);
                i = i + 1;
            }
            self.pos = end;
            proof {
                assert(bytes@ =~= old(self)@.pending.take(n as int));
                assert(self@.pending =~= old(self)@.pending.skip(n as int));
            }
            Ok(bytes)
        } else {
            let fault = match self.fault {
                Some(fault) => fault,
                None => IoFault::UnexpectedEof,
            };
            self.pos = self.data.len();
            proof {
                assert(self@.pending =~= Seq::<u8>::empty());
            }
            Err(fault)
        }
    }
}

/// The number whose four bytes, lowest first, stand at `at` in `bytes`.
fn read_le(bytes: &[u8], at: usize) -> (v: u32)
    requires
        bytes@.len() == HEADER_LEN,
        at <= 12,
    ensures
        v == le_value(bytes@, at as int),
{
    bytes[at] as u32 + 0x100 * (bytes[at + 1] as u32) + 0x1_0000 * (bytes[at + 2] as u32)
        + 0x100_0000 * (bytes[at + 3] as u32)
}

/// Appends the four bytes of a number, lowest first.
fn write_le(out: &mut Vec<u8>, v: u32)
    ensures
        final(out)@ == old(out)@ + le_bytes(v),
{
    out.push((v % 256) as u8);
    out.push((v / 0x100 % 256) as u8);
    out.push((v / 0x1_0000 % 256) as u8);
    out.push((v / 0x100_0000) as u8);
    proof {
        assert(out@ =~= old(out)@ + le_bytes(v));
    }
}

/// Reading back the four bytes of a number gives the number.
pub proof fn lemma_le_roundtrip(before: Seq<u8>, v: u32, after: Seq<u8>)
    ensures
        le_value(before + le_bytes(v) + after, before.len() as int) == v,
{
    let all = before + le_bytes(v) + after;
    let at = before.len() as int;
    assert(all[at] == le_bytes(v)[0]);
    assert(all[at + 1] == le_bytes(v)[1]);
    assert(all[at + 2] == le_bytes(v)[2]);
    assert(all[at + 3] == le_bytes(v)[3]);
}

/// What sixteen bytes say as a header.
pub fn decode_header(bytes: &[u8]) -> (r: Result<BWImageSize, HeaderError>)
    requires
        bytes@.len() == HEADER_LEN,
    ensures
        r == header_meaning(bytes@),
{
    proof {
        assert(bytes@.take(4) == magic() <==> bytes@[0] == 0x42 && bytes@[1] == 0x57 && bytes@[2]
            == 0x49 && bytes@[3] == 0x4D) by {
            if bytes@[0] == 0x42 && bytes@[1] == 0x57 && bytes@[2] == 0x49 && bytes@[3] == 0x4D {
                assert(bytes@.take(4) =~= magic());
            } else {
                assert(bytes@.take(4)[0] == bytes@[0]);
                assert(bytes@.take(4)[1] == bytes@[1]);
                assert(bytes@.take(4)[2] == bytes@[2]);
                assert(bytes@.take(4)[3] == bytes@[3]);
            }
        }
    }
    if bytes[0] != 0x42 || bytes[1] != 0x57 || bytes[2] != 0x49 || bytes[3] != 0x4D {
        return Err(HeaderError::BadMagic(bytes[0], bytes[1], bytes[2], bytes[3]));
    }
    let version = read_le(bytes, 4);
    if version != VERSION {
        return Err(HeaderError::BadVersion(version));
    }
    Ok(BWImageSize { width: read_le(bytes, 8), height: read_le(bytes, 12) })
}

/// Reads the header of a frame.
///
/// Gives the size that the header declares, or `None` where the source ends
/// cleanly before the first byte. A header whose first four bytes are not the
/// magic bytes, one whose version is not 1, and one that the clean end of the
/// source cuts short are rejected, each with its own error; a failure of the
/// source is passed on. Sixteen bytes are consumed, or all that is left.
pub fn parse_header(read: &mut ByteSource) -> (r: Result<Option<BWImageSize>, BWError>)
    ensures
        r == header_outcome(old(read)@),
        final(read)@ == after_read(old(read)@, HEADER_LEN as nat),
{
    let available = read.remaining();
    let fault = read.fault();
    match read.read_exact(HEADER_LEN as u64) {
        Ok(bytes) => match decode_header(bytes.as_slice()) {
            Ok(size) => Ok(Some(size)),
            Err(e) => Err(BWError::FileHeader(e)),
        },
        Err(_) => match fault {
            Some(fault) => Err(BWError::Io(fault)),
            None => if available == 0 {
                Ok(None)
            } else {
                Err(BWError::FileHeader(HeaderError::Truncated(available)))
            },
        },
    }
}

/// Appends the header of an image of the given size.
pub fn write_header(write: &mut Vec<u8>, config: &BWImageSize)
    ensures
        final(write)@ == old(write)@ + header_bytes(*config),
{
    write.push(0x42);
    write.push(0x57);
    write.push(0x49);
    write.push(0x4D);
    proof {
        assert(write@ =~= old(write)@ + magic());
    }
    write_le(write, VERSION);
    write_le(write, config.width);
    write_le(write, config.height);
    proof {
        assert(write@ =~= old(write)@ + header_bytes(*config));
    }
}

/// Reads the packed pixels of an image of the given size: exactly as many
/// bytes as the size asks for. A source that holds fewer is drained and the
/// failure at its end returned.
pub fn parse_body(read: &mut ByteSource, size: BWImageSize) -> (r: Result<BWImage, BWError>)
    ensures
        final(read)@ == after_read(old(read)@, padded_len(size)),
        match r {
            Ok(img) => body_outcome(old(read)@, size) == Ok::<BWImageView, BWError>(img@)
                && img.wf(),
            Err(e) => body_outcome(old(read)@, size) == Err::<BWImageView, BWError>(e),
        },
{
    let len = size.get_padded_bytes_len();
    match read.read_exact(len) {
        Ok(pixels) => Ok(BWImage { size, pixels }),
        Err(fault) => Err(BWError::Io(fault)),
    }
}

/// Reads one frame: the image and the number of bytes that its frame takes,
/// or `None` where the source ends cleanly before the frame's first byte.
pub fn parse_file(input: &mut ByteSource) -> (r: Result<Option<(BWImage, u64)>, BWError>)
    ensures
        final(input)@ == after_frame(old(input)@),
        match r {
            Ok(Some((img, len))) => frame_outcome(old(input)@) == Ok::<
                Option<(BWImageView, u64)>,
                BWError,
            >(Some((img@, len))) && img.wf(),
            Ok(None) => frame_outcome(old(input)@) == Ok::<Option<(BWImageView, u64)>, BWError>(
                None,
            ),
            Err(e) => frame_outcome(old(input)@) == Err::<Option<(BWImageView, u64)>, BWError>(e),
        },
{
    match parse_header(input) {
        Ok(Some(size)) => {
            let len = size.get_padded_bytes_len();
            proof {
                lemma_padded_len_bound(size);
            }
            match parse_body(input, size) {
                Ok(img) => Ok(Some((img, len + HEADER_LEN as u64))),
                Err(e) => Err(e),
            }
        },
        Ok(None) => Ok(None),
        Err(e) => Err(e),
    }
}

/// What encoding an image yields: its frame, or, for an image whose buffer
/// has not the padded length of its size, the size and the buffer's length.
pub open spec fn encode_outcome(img: BWImageView) -> Result<Seq<u8>, BWError> {
    if img.pixels.len() == padded_len(img.size) {
        Ok(frame_bytes(img))
    } else {
        Err(
            BWError::BWDataErr(
                BWDataErr::WrongSize(img.size.width, img.size.height, img.pixels.len() as usize),
            ),
        )
    }
}

/// Appends the frame of an image: its header, then its packed pixels. An
/// image whose buffer has not the padded length of its size is rejected, and
/// nothing is appended.
pub fn encode_file(output: &mut Vec<u8>, img: &BWImage) -> (r: Result<(), BWError>)
    ensures
        match r {
            Ok(_) => encode_outcome(img@) == Ok::<Seq<u8>, BWError>(frame_bytes(img@))
                && final(output)@ == old(output)@ + frame_bytes(img@),
            Err(e) => encode_outcome(img@) == Err::<Seq<u8>, BWError>(e) && final(output)@
                == old(output)@,
        },
{
    if !img.is_well_formed() {
        return Err(
            BWError::BWDataErr(
                BWDataErr::WrongSize(img.size.width, img.size.height, img.pixels.len()),
            ),
        );
    }
    write_header(output, &img.size);
    let ghost with_header = output@;
    let mut i: usize = 0;
    while i < img.pixels.len()
        invariant
            i <= img.pixels@.len(),
            output@ =~= with_header + img.pixels@.take(i as int),
        decreases img.pixels@.len() - i,
    {
        output.push(img.pixels[i]);
        i = i + 1;
    }
    proof {
        assert(img.pixels@.take(i as int) =~= img.pixels@);
        assert(output@ =~= old(output)@ + frame_bytes(img@));
    }
    Ok(())
}

/// The header of a size, read as a header, declares that size.
pub proof fn lemma_header_roundtrip(size: BWImageSize)
    ensures
        header_bytes(size).len() == HEADER_LEN,
        header_meaning(header_bytes(size)) == Ok::<BWImageSize, HeaderError>(size),
{
    let bytes = header_bytes(size);
    assert(bytes.take(4) =~= magic());
    lemma_le_roundtrip(magic(), VERSION, le_bytes(size.width) + le_bytes(size.height));
    assert(bytes =~= magic() + le_bytes(VERSION) + (le_bytes(size.width) + le_bytes(size.height)));
    lemma_le_roundtrip(magic() + le_bytes(VERSION), size.width, le_bytes(size.height));
    lemma_le_roundtrip(
        magic() + le_bytes(VERSION) + le_bytes(size.width),
        size.height,
        Seq::empty(),
    );
    assert(bytes =~= magic() + le_bytes(VERSION) + le_bytes(size.width) + le_bytes(size.height)
        + Seq::<u8>::empty());
}

/// Round trip: a source that starts with the frame of an image, whatever
/// follows it, gives back that image and the length of its frame, and is then
/// left at what follows. It holds for every image whose buffer has the padded
/// length of its size, empty images included.
pub proof fn lemma_frame_roundtrip(img: BWImageView, rest: SourceView)
    requires
        img.pixels.len() == padded_len(img.size),
    ensures
        frame_outcome(SourceView { pending: frame_bytes(img) + rest.pending, fault: rest.fault })
            == Ok::<Option<(BWImageView, u64)>, BWError>(
            Some((img, (HEADER_LEN + padded_len(img.size)) as u64)),
        ),
        after_frame(SourceView { pending: frame_bytes(img) + rest.pending, fault: rest.fault })
            == rest,
{
    let source = SourceView { pending: frame_bytes(img) + rest.pending, fault: rest.fault };
    lemma_header_roundtrip(img.size);
    assert(source.pending.take(HEADER_LEN as int) =~= header_bytes(img.size));
    let body = after_read(source, HEADER_LEN as nat);
    assert(body.pending =~= img.pixels + rest.pending);
    assert(body.pending.take(padded_len(img.size) as int) =~= img.pixels);
    assert(after_read(body, padded_len(img.size)).pending =~= rest.pending);
}

/// Sixteen bytes or more that do not start with the magic bytes are rejected
/// as such, and the four bytes found are reported.
pub proof fn lemma_bad_magic_rejected(source: SourceView)
    requires
        source.pending.len() >= HEADER_LEN,
        source.pending.take(4) != magic(),
    ensures
        header_outcome(source) == Err::<Option<BWImageSize>, BWError>(
            BWError::FileHeader(
                HeaderError::BadMagic(
                    source.pending[0],
                    source.pending[1],
                    source.pending[2],
                    source.pending[3],
                ),
            ),
        ),
        frame_outcome(source) == Err::<Option<(BWImageView, u64)>, BWError>(
            BWError::FileHeader(
                HeaderError::BadMagic(
                    source.pending[0],
                    source.pending[1],
                    source.pending[2],
                    source.pending[3],
                ),
            ),
        ),
{
    assert(source.pending.take(HEADER_LEN as int).take(4) =~= source.pending.take(4));
}

/// Sixteen bytes or more that start with the magic bytes and hold another
/// version than 1 are rejected as such, and the version found is reported.
pub proof fn lemma_bad_version_rejected(source: SourceView)
    requires
        source.pending.len() >= HEADER_LEN,
        source.pending.take(4) == magic(),
        le_value(source.pending, 4) != VERSION,
    ensures
        header_outcome(source) == Err::<Option<BWImageSize>, BWError>(
            BWError::FileHeader(HeaderError::BadVersion(le_value(source.pending, 4))),
        ),
        frame_outcome(source) == Err::<Option<(BWImageView, u64)>, BWError>(
            BWError::FileHeader(HeaderError::BadVersion(le_value(source.pending, 4))),
        ),
{
    assert(source.pending.take(HEADER_LEN as int).take(4) =~= source.pending.take(4));
}

/// A source that ends cleanly gives `None` exactly when it is empty; with
/// one to fifteen bytes it gives an error, never `None`.
pub proof fn lemma_clean_end_or_truncation(source: SourceView)
    requires
        source.fault.is_none(),
    ensures
        source.pending.len() == 0 ==> header_outcome(source) == Ok::<
            Option<BWImageSize>,
            BWError,
        >(None),
        1 <= source.pending.len() < HEADER_LEN ==> header_outcome(source) == Err::<
            Option<BWImageSize>,
            BWError,
        >(BWError::FileHeader(HeaderError::Truncated(source.pending.len() as usize))),
        header_outcome(source) == Ok::<Option<BWImageSize>, BWError>(None)
            ==> source.pending.len() == 0,
{
}

} // verus!
