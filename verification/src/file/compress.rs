//! Streams of frames behind zlib compression.
//!
//! `compress_imgs` writes a stream. `DecompressIter` decodes one image per
//! pull and inflates only what the pull asks for; `decompress_all` inflates a
//! stream in one go and decodes all its images.

use vstd::prelude::*;
use crate::file::inflate::{
    asked, fed, gather, gathered, in_bounds, inflate, inflater_new, still_to_come, zlib_inflated,
    Inflater,
};
use crate::file::{
    after_frame, after_read, body_outcome, encode_file, encode_outcome, frame_bytes,
    frame_outcome, header_outcome, lemma_frame_roundtrip, parse_file, parse_header, ByteSource,
    SourceView, HEADER_LEN,
};
use crate::img::{lemma_padded_len_bound, padded_len, BWImage, BWImageSize, BWImageView};
use crate::{BWError, IoFault};

verus! {

/// The compression level that all streams are written at: the highest.
pub const BEST_LEVEL: u32 = 9;

/// A zlib compressor that gathers its output in memory: a
/// `flate2::write::ZlibEncoder` over a `Vec`.
#[verifier::external_body]
pub struct Deflater {
    inner: flate2::write::ZlibEncoder<Vec<u8>>,
}

/// The compression level that an encoder was made with.
pub uninterp spec fn level_of(encoder: Deflater) -> u32;

/// The calls that an encoder has answered with success, in their order:
/// `Some` of the bytes for a write, `None` for a flush.
pub uninterp spec fn given(encoder: Deflater) -> Seq<Option<Seq<u8>>>;

/// How an encoder of the given level that has answered the given calls
/// answers a write of `data`.
pub uninterp spec fn write_outcome(level: u32, calls: Seq<Option<Seq<u8>>>, data: Seq<u8>) -> Result<(), IoFault>;

/// How an encoder of the given level that has answered the given calls
/// answers a flush.
pub uninterp spec fn flush_outcome(level: u32, calls: Seq<Option<Seq<u8>>>) -> Result<(), IoFault>;

/// What an encoder of the given level that has answered the given calls
/// hands out when it is finished: the zlib stream, or its failure.
pub uninterp spec fn finish_outcome(level: u32, calls: Seq<Option<Seq<u8>>>) -> Result<Seq<u8>, IoFault>;

/// The bytes of the writes among the calls, one after the other.
pub open spec fn written(calls: Seq<Option<Seq<u8>>>) -> Seq<u8>
    decreases calls.len(),
{
    if calls.len() == 0 {
        Seq::empty()
    } else {
        written(calls.drop_last()) + match calls.last() {
            Some(data) => data,
            None => Seq::empty(),
        }
    }
}

/// `flate2::write::ZlibEncoder::new` over an empty `Vec`, with
/// `flate2::Compression::new` of the level: the new encoder has that level
/// and has answered no call.
#[verifier::external_body]
fn encoder_new(level: u32) -> (encoder: Deflater)
    requires
        level <= 9,
    ensures
        level_of(encoder) == level,
        given(encoder) == Seq::<Option<Seq<u8>>>::empty(),
{
    Deflater {
        inner: flate2::write::ZlibEncoder::new(Vec::new(), flate2::Compression::new(level)),
    }
}

/// `std::io::Write::write_all` of `flate2::write::ZlibEncoder`: the answer
/// depends on the level, the calls answered before and the bytes alone, and
/// where it is success the write has joined the calls answered. A failure is
/// given by the kind of its `std::io::Error`.
#[verifier::external_body]
fn encoder_write_all(encoder: &mut Deflater, data: &[u8]) -> (r: Result<(), IoFault>)
    ensures
        r == write_outcome(level_of(*old(encoder)), given(*old(encoder)), data@),
        level_of(*final(encoder)) == level_of(*old(encoder)),
        r is Ok ==> given(*final(encoder)) == given(*old(encoder)).push(Some(data@)),
{
    match std::io::Write::write_all(&mut encoder.inner, data) {
        Ok(_) => Ok(()),
        Err(error) => Err(match error.kind() {
            std::io::ErrorKind::UnexpectedEof => IoFault::UnexpectedEof,
            std::io::ErrorKind::InvalidInput => IoFault::InvalidInput,
            std::io::ErrorKind::InvalidData => IoFault::InvalidData,
            _ => IoFault::Other,
        }),
    }
}

/// `std::io::Write::flush` of `flate2::write::ZlibEncoder`: the answer
/// depends on the level and the calls answered before alone, and where it is
/// success the flush has joined the calls answered. A failure is given by
/// the kind of its `std::io::Error`.
#[verifier::external_body]
fn encoder_flush(encoder: &mut Deflater) -> (r: Result<(), IoFault>)
    ensures
        r == flush_outcome(level_of(*old(encoder)), given(*old(encoder))),
        level_of(*final(encoder)) == level_of(*old(encoder)),
        r is Ok ==> given(*final(encoder)) == given(*old(encoder)).push(None),
{
    match std::io::Write::flush(&mut encoder.inner) {
        Ok(_) => Ok(()),
        Err(error) => Err(match error.kind() {
            std::io::ErrorKind::UnexpectedEof => IoFault::UnexpectedEof,
            std::io::ErrorKind::InvalidInput => IoFault::InvalidInput,
            std::io::ErrorKind::InvalidData => IoFault::InvalidData,
            _ => IoFault::Other,
        }),
    }
}

/// `flate2::write::ZlibEncoder::finish`: the answer depends on the level and
/// the calls answered before alone. Where it is success, it is a complete
/// zlib stream, and inflating that stream gives back the bytes of the writes
/// in their order, without failure. A failure is given by the kind of its
/// `std::io::Error`.
#[verifier::external_body]
fn encoder_finish(encoder: Deflater) -> (r: Result<Vec<u8>, IoFault>)
    ensures
        match r {
            Ok(out) => finish_outcome(level_of(encoder), given(encoder)) == Ok::<
                Seq<u8>,
                IoFault,
            >(out@) && zlib_inflated(out@) == (written(given(encoder)), None::<IoFault>),
            Err(fault) => finish_outcome(level_of(encoder), given(encoder)) == Err::<
                Seq<u8>,
                IoFault,
            >(fault),
        },
{
    match encoder.inner.finish() {
        Ok(out) => Ok(out),
        Err(error) => Err(match error.kind() {
            std::io::ErrorKind::UnexpectedEof => IoFault::UnexpectedEof,
            std::io::ErrorKind::InvalidInput => IoFault::InvalidInput,
            std::io::ErrorKind::InvalidData => IoFault::InvalidData,
            _ => IoFault::Other,
        }),
    }
}

/// The images of a sequence as what they are.
pub open spec fn views(imgs: Seq<BWImage>) -> Seq<BWImageView> {
    Seq::new(imgs.len(), |i: int| imgs[i]@)
}

/// The frames of a sequence of images, one after the other without separator.
pub open spec fn stream_bytes(imgs: Seq<BWImageView>) -> Seq<u8>
    decreases imgs.len(),
{
    if imgs.len() == 0 {
        Seq::empty()
    } else {
        stream_bytes(imgs.drop_last()) + frame_bytes(imgs.last())
    }
}

/// Every image of the sequence has a buffer of the padded length of its size.
pub open spec fn all_well_formed(imgs: Seq<BWImageView>) -> bool {
    forall|i: int|
        0 <= i < imgs.len() ==> (#[trigger] imgs[i]).pixels.len() == padded_len(imgs[i].size)
}

/// The calls that compressing a sequence of well-formed images makes and
/// the encoder answers: for every image a write of its frame, then a flush.
pub open spec fn calls_for(imgs: Seq<BWImageView>) -> Seq<Option<Seq<u8>>>
    decreases imgs.len(),
{
    if imgs.len() == 0 {
        Seq::empty()
    } else {
        calls_for(imgs.drop_last()).push(Some(frame_bytes(imgs.last()))).push(None)
    }
}

/// What stops the compression at image `i`, if anything, once the images
/// before it are in: the rejection of an image whose buffer has not the
/// padded length of its size, or the failure with which the encoder answers
/// the write of the frame or the flush after it.
pub open spec fn stopped_at(imgs: Seq<BWImageView>, i: int) -> Option<BWError> {
    match encode_outcome(imgs[i]) {
        Err(e) => Some(e),
        Ok(frame) => match write_outcome(BEST_LEVEL, calls_for(imgs.take(i)), frame) {
            Err(fault) => Some(BWError::Io(fault)),
            Ok(_) => match flush_outcome(
                BEST_LEVEL,
                calls_for(imgs.take(i)).push(Some(frame)),
            ) {
                Err(fault) => Some(BWError::Io(fault)),
                Ok(_) => None,
            },
        },
    }
}

/// What stops the compression within the first `n` images, if anything: what
/// stops it at the first image at which something does.
pub open spec fn first_stop(imgs: Seq<BWImageView>, n: nat) -> Option<BWError>
    decreases n,
{
    if n == 0 {
        None
    } else {
        match first_stop(imgs, (n - 1) as nat) {
            Some(e) => Some(e),
            None => stopped_at(imgs, n - 1),
        }
    }
}

/// What compressing a sequence of images yields: the zlib stream that the
/// encoder hands out after the frames of all images, or what stopped the
/// compression first.
pub open spec fn compress_outcome(imgs: Seq<BWImageView>) -> Result<Seq<u8>, BWError> {
    match first_stop(imgs, imgs.len()) {
        Some(e) => Err(e),
        None => match finish_outcome(BEST_LEVEL, calls_for(imgs)) {
            Ok(stream) => Ok(stream),
            Err(fault) => Err(BWError::Io(fault)),
        },
    }
}

/// The bytes written by the calls for a sequence of images are the frames of
/// the images, one after the other.
pub proof fn lemma_written_frames(imgs: Seq<BWImageView>)
    ensures
        written(calls_for(imgs)) == stream_bytes(imgs),
    decreases imgs.len(),
{
    if imgs.len() > 0 {
        lemma_written_frames(imgs.drop_last());
        let before = calls_for(imgs.drop_last());
        let with_write = before.push(Some(frame_bytes(imgs.last())));
        let all = with_write.push(None);
        assert(all.drop_last() =~= with_write);
        assert(with_write.drop_last() =~= before);
        assert(written(all) =~= written(with_write));
        assert(written(with_write) =~= written(before) + frame_bytes(imgs.last()));
    }
}

/// Compresses the frames of `imgs`, in their order, into one zlib stream at
/// the best compression level, and appends that stream to `output`.
///
/// The encoder is opened once, takes the frame of every image followed by a
/// flush, and is finished after the last image. The result is what these
/// calls give: where none fails and every image is well formed, the stream
/// is appended, and inflating it gives the frames of the images one after
/// the other. Else nothing is appended, and what stopped the compression
/// first is returned: the rejection of an image whose buffer has not the
/// padded length of its size, or the failure of the encoder.
pub fn compress_imgs(imgs: &[BWImage], output: &mut Vec<u8>) -> (r: Result<(), BWError>)
    ensures
        match r {
            Ok(_) => {
                &&& compress_outcome(views(imgs@)) is Ok
                &&& final(output)@ == old(output)@ + compress_outcome(views(imgs@)).unwrap()
                &&& all_well_formed(views(imgs@))
                &&& zlib_inflated(compress_outcome(views(imgs@)).unwrap()) == (
                    stream_bytes(views(imgs@)),
                    None::<IoFault>,
                )
            },
            Err(e) => compress_outcome(views(imgs@)) == Err::<Seq<u8>, BWError>(e)
                && final(output)@ == old(output)@,
        },
{
    let ghost all = views(imgs@);
    let mut encoder = encoder_new(BEST_LEVEL);
    let mut i: usize = 0;
    while i < imgs.len()
        invariant
            i <= imgs@.len(),
            all == views(imgs@),
            first_stop(all, i as nat) is None,
            all_well_formed(all.take(i as int)),
            level_of(encoder) == BEST_LEVEL,
            given(encoder) == calls_for(all.take(i as int)),
            output@ == old(output)@,
        decreases imgs@.len() - i,
    {
        proof {
            lemma_stop_carries(all, (i + 1) as nat);
            assert(all[i as int] == imgs@[i as int]@);
        }
        let mut frame: Vec<u8> = Vec::new();
        match encode_file(&mut frame, &imgs[i]) {
            Ok(_) => {},
            Err(e) => {
                return Err(e);
            },
        }
        proof {
            assert(frame@ =~= frame_bytes(all[i as int]));
        }
        match encoder_write_all(&mut encoder, frame.as_slice()) {
            Ok(_) => {},
            Err(fault) => {
                return Err(BWError::Io(fault));
            },
        }
        match encoder_flush(&mut encoder) {
            Ok(_) => {},
            Err(fault) => {
                return Err(BWError::Io(fault));
            },
        }
        proof {
            let before = all.take(i as int);
            let now = all.take(i + 1);
            assert(now.drop_last() =~= before);
            assert(now.last() == all[i as int]);
            assert forall|k: int| 0 <= k < now.len() implies (#[trigger] now[k]).pixels.len()
                == padded_len(now[k].size) by {
                if k < i {
                    assert(now[k] == before[k]);
                }
            }
        }
        i = i + 1;
    }
    proof {
        assert(all.take(i as int) =~= all);
        lemma_written_frames(all);
    }
    match encoder_finish(encoder) {
        Ok(mut compressed) => {
            output.append(&mut compressed);
            Ok(())
        },
        Err(fault) => Err(BWError::Io(fault)),
    }
}

/// Once something has stopped the compression within the first images, the
/// same thing stops it within all of them.
pub proof fn lemma_stop_carries(imgs: Seq<BWImageView>, n: nat)
    requires
        n <= imgs.len(),
    ensures
        first_stop(imgs, n) is Some ==> first_stop(imgs, imgs.len()) == first_stop(imgs, n),
    decreases imgs.len() - n,
{
    if n < imgs.len() {
        lemma_stop_carries(imgs, n + 1);
    }
}

/// Where a decoder of a stream of frames stands: what its source still has
/// to give, how many images it has decoded, and the length of their frames
/// taken together, which is the offset of the next header in the stream.
pub struct DecodeView {
    pub source: SourceView,
    pub count: nat,
    pub position: nat,
}

/// What one pull of a decoder yields, and where the decoder stands after it.
///
/// A frame that decodes yields its image, and count and offset move on. The
/// clean end of the source before the first byte of a header ends the
/// sequence. Any failure is reported together with the index of the image
/// that was being decoded and the offset of its header; count and offset
/// stay as they are.
pub open spec fn pull(state: DecodeView) -> (Option<Result<BWImageView, BWError>>, DecodeView) {
    match frame_outcome(state.source) {
        Ok(Some((img, len))) => (
            Some(Ok(img)),
            DecodeView {
                source: after_frame(state.source),
                count: state.count + 1,
                position: state.position + len as nat,
            },
        ),
        Ok(None) => (None, DecodeView { source: after_frame(state.source), ..state }),
        Err(e) => (
            Some(
                Err(
                    BWError::Compression(
                        state.count as usize,
                        Box::new(e),
                        state.position as u64,
                    ),
                ),
            ),
            DecodeView { source: after_frame(state.source), ..state },
        ),
    }
}

/// Where a decoder stands after `n` pulls.
pub open spec fn after_pulls(state: DecodeView, n: nat) -> DecodeView
    decreases n,
{
    if n == 0 {
        state
    } else {
        pull(after_pulls(state, (n - 1) as nat)).1
    }
}

/// Where a decoder of a zlib stream stands: the compressed bytes it is over,
/// the reads its decompressor has answered, the failure of the reader that
/// the compressed bytes came from, if it failed, how many images it has
/// decoded, and the length of their frames taken together.
pub struct LazyState {
    pub data: Seq<u8>,
    pub asked: Seq<nat>,
    pub reader_fault: Option<IoFault>,
    pub count: usize,
    pub position: u64,
}

/// A count of images as a `usize`: the count itself, or the largest `usize`
/// where the count is larger.
pub open spec fn capped_count(count: nat) -> usize {
    if count <= usize::MAX {
        count as usize
    } else {
        usize::MAX
    }
}

/// An offset as a `u64`: the offset itself, or the largest `u64` where the
/// offset is larger.
pub open spec fn capped_offset(offset: nat) -> u64 {
    if offset <= u64::MAX {
        offset as u64
    } else {
        u64::MAX
    }
}

/// The failure that ends what was gathered: that of the decompressor, but
/// where the decompressor ran out of compressed bytes and the reader of
/// these bytes had failed, the reader's failure.
pub open spec fn end_of(failure: Option<IoFault>, reader_fault: Option<IoFault>) -> Option<
    IoFault,
> {
    match (failure, reader_fault) {
        (Some(IoFault::UnexpectedEof), Some(fault)) => Some(fault),
        _ => failure,
    }
}

/// What one pull yields and where the decoder stands after it, as the
/// answers of the decompressor give it.
///
/// Sixteen bytes are gathered and read as a header. Where they declare a
/// size, the padded length of that size is gathered and is the image. What
/// is gathered ends as a source does: cleanly, or with the failure that
/// stopped the gathering. The results are those of one frame read from such
/// a source; a failure is reported with the index of the image and the
/// offset of its header. Count and offset stop at the largest number that
/// their types hold.
pub open spec fn lazy_pull(state: LazyState) -> (
    Option<Result<BWImageView, BWError>>,
    LazyState,
) {
    let head = gathered(state.data, state.asked, HEADER_LEN as nat);
    let head_source = SourceView { pending: head.0, fault: end_of(head.1, state.reader_fault) };
    match header_outcome(head_source) {
        Ok(None) => (None, LazyState { asked: head.2, ..state }),
        Err(e) => (
            Some(Err(BWError::Compression(state.count, Box::new(e), state.position))),
            LazyState { asked: head.2, ..state },
        ),
        Ok(Some(size)) => {
            let body = gathered(state.data, head.2, padded_len(size));
            let body_source = SourceView {
                pending: body.0,
                fault: end_of(body.1, state.reader_fault),
            };
            match body_outcome(body_source, size) {
                Ok(img) => (
                    Some(Ok(img)),
                    LazyState {
                        asked: body.2,
                        count: capped_count((state.count + 1) as nat),
                        position: capped_offset(
                            (state.position + HEADER_LEN + padded_len(size)) as nat,
                        ),
                        ..state
                    },
                ),
                Err(e) => (
                    Some(Err(BWError::Compression(state.count, Box::new(e), state.position))),
                    LazyState { asked: body.2, ..state },
                ),
            }
        },
    }
}

/// Where a decoder stands as a decoder of frames, where its compressed bytes
/// inflate without failure in one go: in front of what is left to come out.
pub open spec fn frames_view(state: LazyState) -> DecodeView {
    DecodeView {
        source: SourceView { pending: still_to_come(state.data, state.asked), fault: None },
        count: state.count as nat,
        position: state.position as nat,
    }
}

/// A header is read from the first sixteen bytes of a source that ends
/// cleanly, so these bytes alone give the same.
proof fn lemma_header_from_prefix(left: Seq<u8>, head: Seq<u8>)
    requires
        head == if left.len() >= HEADER_LEN {
            left.take(HEADER_LEN as int)
        } else {
            left
        },
    ensures
        header_outcome(SourceView { pending: head, fault: None }) == header_outcome(
            SourceView { pending: left, fault: None },
        ),
{
    if left.len() >= HEADER_LEN {
        assert(head.take(HEADER_LEN as int) =~= left.take(HEADER_LEN as int));
    }
}

/// The pixels of an image are read from the first bytes of a source that
/// ends cleanly, so these bytes alone give the same.
proof fn lemma_body_from_prefix(left: Seq<u8>, body: Seq<u8>, size: BWImageSize)
    requires
        body == if left.len() >= padded_len(size) {
            left.take(padded_len(size) as int)
        } else {
            left
        },
    ensures
        body_outcome(SourceView { pending: body, fault: None }, size) == body_outcome(
            SourceView { pending: left, fault: None },
            size,
        ),
{
    if left.len() >= padded_len(size) {
        assert(body.take(padded_len(size) as int) =~= left.take(padded_len(size) as int));
    }
}

/// The failure that ends what was gathered.
fn end_of_gathered(failure: Option<IoFault>, reader_fault: Option<IoFault>) -> (end: Option<
    IoFault,
>)
    ensures
        end == end_of(failure, reader_fault),
{
    match (failure, reader_fault) {
        (Some(IoFault::UnexpectedEof), Some(fault)) => Some(fault),
        _ => failure,
    }
}

/// What was gathered as a source.
fn source_of_gathered(bytes: Vec<u8>, end: Option<IoFault>) -> (source: ByteSource)
    ensures
        source@ == (SourceView { pending: bytes@, fault: end }),
{
    match end {
        Some(fault) => ByteSource::failing(bytes, fault),
        None => ByteSource::new(bytes),
    }
}

/// A decoder of the frames in a zlib stream, one image per pull. The stream
/// is inflated as the pulls ask for it: a pull holds the bytes of its image,
/// never those of the whole stream.
pub struct DecompressIter {
    decoder: Inflater,
    reader_fault: Option<IoFault>,
    count: usize,
    position: u64,
}

impl DecompressIter {
    /// Where the decoder stands.
    pub closed spec fn state(&self) -> LazyState {
        LazyState {
            data: fed(self.decoder),
            asked: asked(self.decoder),
            reader_fault: self.reader_fault,
            count: self.count,
            position: self.position,
        }
    }

    /// Over compressed bytes that inflate without failure in one go, the
    /// decoder has not given out more than there is.
    pub closed spec fn wf(&self) -> bool {
        in_bounds(self.decoder)
    }

    /// A decoder at the start of the zlib stream `read`.
    pub fn new(read: &[u8]) -> (it: Self)
        ensures
            it.wf(),
            it.state() == (LazyState {
                data: read@,
                asked: Seq::empty(),
                reader_fault: None,
                count: 0,
                position: 0,
            }),
    {
        Self { decoder: inflater_new(read), reader_fault: None, count: 0, position: 0 }
    }

    /// A decoder at the start of a zlib stream of which a reader gave `read`
    /// and then failed with `fault`. Where the decompressor runs out of
    /// compressed bytes, the pull reports the reader's failure.
    pub fn failing(read: &[u8], fault: IoFault) -> (it: Self)
        ensures
            it.wf(),
            it.state() == (LazyState {
                data: read@,
                asked: Seq::empty(),
                reader_fault: Some(fault),
                count: 0,
                position: 0,
            }),
    {
        Self { decoder: inflater_new(read), reader_fault: Some(fault), count: 0, position: 0 }
    }

    /// Decodes the next image of the stream, or gives `None` at its clean end.
    ///
    /// The result is what the answers of the decompressor give. Over
    /// compressed bytes that inflate without failure in one go, it is what
    /// one pull of a decoder of frames in front of the inflated bytes
    /// yields.
    pub fn next(&mut self) -> (r: Option<Result<BWImage, BWError>>)
        requires
            old(self).wf(),
        ensures
            final(self).wf(),
            final(self).state() == lazy_pull(old(self).state()).1,
            match r {
                Some(Ok(img)) => lazy_pull(old(self).state()).0 == Some(
                    Ok::<BWImageView, BWError>(img@),
                ) && img.wf(),
                Some(Err(e)) => lazy_pull(old(self).state()).0 == Some(
                    Err::<BWImageView, BWError>(e),
                ),
                None => lazy_pull(old(self).state()).0.is_none(),
            },
            zlib_inflated(old(self).state().data).1 is None ==> {
                let before = frames_view(old(self).state());
                let after = frames_view(final(self).state());
                &&& lazy_pull(old(self).state()).0 == pull(before).0
                &&& after.source == pull(before).1.source
                &&& after.count == capped_count(pull(before).1.count)
                &&& after.position == capped_offset(pull(before).1.position)
            },
    {
        let ghost data = fed(self.decoder);
        let ghost clean = zlib_inflated(data).1 is None;
        let ghost left = still_to_come(data, asked(self.decoder));
        let (head, failure) = gather(&mut self.decoder, HEADER_LEN as u64);
        let ghost head_bytes = head@;
        let ghost after_head = still_to_come(data, asked(self.decoder));
        let end = end_of_gathered(failure, self.reader_fault);
        let mut source = source_of_gathered(head, end);
        proof {
            if clean {
                lemma_header_from_prefix(left, head_bytes);
                assert(after_read(
                    SourceView { pending: left, fault: None },
                    HEADER_LEN as nat,
                ).pending =~= after_head);
            }
        }
        match parse_header(&mut source) {
            Ok(None) => None,
            Err(e) => Some(Err(BWError::Compression(self.count, Box::new(e), self.position))),
            Ok(Some(size)) => {
                let len = size.get_padded_bytes_len();
                let (body, failure) = gather(&mut self.decoder, len);
                let end = end_of_gathered(failure, self.reader_fault);
                proof {
                    lemma_padded_len_bound(size);
                    if clean {
                        lemma_body_from_prefix(after_head, body@, size);
                        assert(after_read(
                            SourceView { pending: after_head, fault: None },
                            padded_len(size),
                        ).pending =~= still_to_come(data, asked(self.decoder)));
                    }
                    assert(body@.len() == len ==> body@.take(len as int) =~= body@);
                }
                if body.len() as u64 == len {
                    self.count = if self.count < usize::MAX {
                        self.count + 1
                    } else {
                        self.count
                    };
                    self.position = if len + HEADER_LEN as u64 <= u64::MAX - self.position {
                        self.position + len + HEADER_LEN as u64
                    } else {
                        u64::MAX
                    };
                    Some(Ok(BWImage { size, pixels: body }))
                } else {
                    let fault = match end {
                        Some(fault) => fault,
                        None => IoFault::UnexpectedEof,
                    };
                    Some(
                        Err(
                            BWError::Compression(
                                self.count,
                                Box::new(BWError::Io(fault)),
                                self.position,
                            ),
                        ),
                    )
                }
            },
        }
    }
}

/// A decoder of the images in the zlib stream `input`.
pub fn decompress_imgs(input: &[u8]) -> (it: DecompressIter)
    ensures
        it.wf(),
        it.state() == (LazyState {
            data: input@,
            asked: Seq::empty(),
            reader_fault: None,
            count: 0,
            position: 0,
        }),
{
    DecompressIter::new(input)
}

/// A decoder that has decoded nothing yet, in front of `source`.
pub open spec fn decoder_at_start(source: SourceView) -> DecodeView {
    DecodeView { source, count: 0, position: 0 }
}

/// All that a decoder of frames yields from where it stands to the end of
/// its source: the images in their order, or the first failure. (The test on
/// what is left is always met: a pull that yields an image leaves less than
/// it found.)
pub open spec fn collected(state: DecodeView) -> Result<Seq<BWImageView>, BWError>
    decreases state.source.pending.len(),
{
    match pull(state) {
        (None, _) => Ok(Seq::empty()),
        (Some(Err(e)), _) => Err(e),
        (Some(Ok(img)), then) => if then.source.pending.len() < state.source.pending.len() {
            match collected(then) {
                Ok(rest) => Ok(seq![img] + rest),
                Err(e) => Err(e),
            }
        } else {
            Ok(seq![img])
        },
    }
}

/// Decodes all images of the zlib stream `input` at once: the images in
/// their order, or the first failure, reported with the index of the image
/// at which it occurred and the offset of that image's header.
///
/// The stream is inflated in one go, and the result is all that a decoder of
/// frames yields in front of the inflated bytes.
pub fn decompress_all(input: &[u8]) -> (r: Result<Vec<BWImage>, BWError>)
    ensures
        match r {
            Ok(imgs) => collected(
                decoder_at_start(
                    SourceView {
                        pending: zlib_inflated(input@).0,
                        fault: zlib_inflated(input@).1,
                    },
                ),
            ) == Ok::<Seq<BWImageView>, BWError>(views(imgs@)) && all_well_formed(views(imgs@)),
            Err(e) => collected(
                decoder_at_start(
                    SourceView {
                        pending: zlib_inflated(input@).0,
                        fault: zlib_inflated(input@).1,
                    },
                ),
            ) == Err::<Seq<BWImageView>, BWError>(e),
        },
{
    let (bytes, fault) = inflate(input);
    let mut source = source_of_gathered(bytes, fault);
    let ghost start = decoder_at_start(source@);
    let mut imgs: Vec<BWImage> = Vec::new();
    let mut count: usize = 0;
    let mut position: u64 = 0;
    let mut left = source.remaining();
    proof {
        assert(views(imgs@) =~= Seq::<BWImageView>::empty());
        match collected(start) {
            Ok(rest) => {
                assert(views(imgs@) + rest =~= rest);
            },
            Err(_) => {},
        }
    }
    loop
        invariant
            start == decoder_at_start(
                SourceView { pending: zlib_inflated(input@).0, fault: zlib_inflated(input@).1 },
            ),
            left == source@.pending.len(),
            HEADER_LEN * count <= position,
            position + left <= usize::MAX,
            all_well_formed(views(imgs@)),
            collected(start) == match collected(
                DecodeView { source: source@, count: count as nat, position: position as nat },
            ) {
                Ok(rest) => Ok::<Seq<BWImageView>, BWError>(views(imgs@) + rest),
                Err(e) => Err::<Seq<BWImageView>, BWError>(e),
            },
        decreases left,
    {
        let ghost state = DecodeView {
            source: source@,
            count: count as nat,
            position: position as nat,
        };
        let ghost done = views(imgs@);
        match parse_file(&mut source) {
            Ok(Some((img, len))) => {
                proof {
                    assert(state.source.pending.len() >= HEADER_LEN + padded_len(img.size));
                    assert(source@.pending.len() + len == state.source.pending.len());
                    let then = pull(state).1;
                    match collected(then) {
                        Ok(rest) => {
                            assert(views(imgs@.push(img)) + rest =~= done + (seq![img@] + rest));
                        },
                        Err(_) => {},
                    }
                    assert(views(imgs@.push(img)) =~= done.push(img@));
                }
                count = count + 1;
                position = position + len;
                left = source.remaining();
                imgs.push(img);
            },
            Ok(None) => {
                proof {
                    assert(done + Seq::<BWImageView>::empty() =~= done);
                }
                return Ok(imgs);
            },
            Err(e) => {
                return Err(BWError::Compression(count, Box::new(e), position));
            },
        }
    }
}

/// The frames of a sequence are the frame of its first image followed by the
/// frames of the others.
pub proof fn lemma_stream_bytes_first(imgs: Seq<BWImageView>)
    requires
        imgs.len() > 0,
    ensures
        stream_bytes(imgs) == frame_bytes(imgs[0]) + stream_bytes(imgs.skip(1)),
    decreases imgs.len(),
{
    if imgs.len() == 1 {
        assert(imgs.drop_last() =~= Seq::<BWImageView>::empty());
        assert(imgs.skip(1) =~= Seq::<BWImageView>::empty());
        assert(stream_bytes(imgs.drop_last()) =~= Seq::<u8>::empty());
        assert(stream_bytes(imgs) =~= frame_bytes(imgs[0]) + stream_bytes(imgs.skip(1)));
    } else {
        lemma_stream_bytes_first(imgs.drop_last());
        assert(imgs.drop_last().skip(1) =~= imgs.skip(1).drop_last());
        assert(imgs.skip(1).last() == imgs.last());
        assert(imgs.drop_last()[0] == imgs[0]);
        assert(stream_bytes(imgs) =~= frame_bytes(imgs[0]) + stream_bytes(imgs.skip(1)));
    }
}

/// One pull in front of the frame of a well-formed image yields that image
/// and leaves the decoder behind the frame.
pub proof fn lemma_pull_frame(img: BWImageView, behind: SourceView, state: DecodeView)
    requires
        img.pixels.len() == padded_len(img.size),
        state.source == (SourceView {
            pending: frame_bytes(img) + behind.pending,
            fault: behind.fault,
        }),
    ensures
        pull(state) == (
            Some(Ok::<BWImageView, BWError>(img)),
            DecodeView {
                source: behind,
                count: state.count + 1,
                position: state.position + frame_bytes(img).len(),
            },
        ),
{
    lemma_frame_roundtrip(img, behind);
    lemma_frame_len(img);
}

/// Where a decoder stands after it has pulled the first `n` images of a
/// stream of well-formed images: in front of the frames of the others, with
/// `n` more images counted and the offset moved on by the frames it has read.
pub proof fn lemma_after_pulls(imgs: Seq<BWImageView>, rest: SourceView, start: DecodeView, n: nat)
    requires
        all_well_formed(imgs),
        n <= imgs.len(),
        start.source == (SourceView {
            pending: stream_bytes(imgs) + rest.pending,
            fault: rest.fault,
        }),
    ensures
        after_pulls(start, n) == (DecodeView {
            source: SourceView {
                pending: stream_bytes(imgs.skip(n as int)) + rest.pending,
                fault: rest.fault,
            },
            count: start.count + n,
            position: start.position + stream_bytes(imgs.take(n as int)).len(),
        }),
    decreases n,
{
    if n == 0 {
        assert(imgs.skip(0) =~= imgs);
        assert(imgs.take(0) =~= Seq::<BWImageView>::empty());
    } else {
        let m = (n - 1) as nat;
        lemma_after_pulls(imgs, rest, start, m);
        let state = after_pulls(start, m);
        let img = imgs[m as int];
        let tail = imgs.skip(m as int);
        let behind = SourceView {
            pending: stream_bytes(imgs.skip(n as int)) + rest.pending,
            fault: rest.fault,
        };
        assert(state.source.pending == frame_bytes(img) + behind.pending) by {
            lemma_stream_bytes_first(tail);
            assert(tail[0] == img);
            assert(tail.skip(1) =~= imgs.skip(n as int));
            assert(state.source.pending =~= frame_bytes(img) + behind.pending);
        }
        lemma_pull_frame(img, behind, state);
        assert(stream_bytes(imgs.take(n as int)).len() == stream_bytes(imgs.take(m as int)).len()
            + frame_bytes(img).len()) by {
            assert(imgs.take(n as int).drop_last() =~= imgs.take(m as int));
            assert(imgs.take(n as int).last() == img);
        }
    }
}

/// The pull after the first `n` images of a stream of well-formed images
/// yields the next image.
pub proof fn lemma_next_pull(imgs: Seq<BWImageView>, rest: SourceView, start: DecodeView, n: nat)
    requires
        all_well_formed(imgs),
        n < imgs.len(),
        start.source == (SourceView {
            pending: stream_bytes(imgs) + rest.pending,
            fault: rest.fault,
        }),
    ensures
        pull(after_pulls(start, n)).0 == Some(Ok::<BWImageView, BWError>(imgs[n as int])),
{
    lemma_after_pulls(imgs, rest, start, n);
    let state = after_pulls(start, n);
    let img = imgs[n as int];
    let tail = imgs.skip(n as int);
    let behind = SourceView {
        pending: stream_bytes(tail.skip(1)) + rest.pending,
        fault: rest.fault,
    };
    assert(state.source.pending == frame_bytes(img) + behind.pending) by {
        lemma_stream_bytes_first(tail);
        assert(tail[0] == img);
        assert(state.source.pending =~= frame_bytes(img) + behind.pending);
    }
    lemma_pull_frame(img, behind, state);
}

/// The frame of a well-formed image is sixteen bytes longer than its padded
/// length, and that length fits in 64 bits.
pub proof fn lemma_frame_len(img: BWImageView)
    requires
        img.pixels.len() == padded_len(img.size),
    ensures
        frame_bytes(img).len() == HEADER_LEN + padded_len(img.size),
        HEADER_LEN + padded_len(img.size) <= u64::MAX,
{
    lemma_padded_len_bound(img.size);
}

/// Decoding a stream gives back the images that were encoded into it, in
/// their order, and then ends: the `i`-th pull of a decoder in front of the
/// frames of well-formed images yields the `i`-th image, and the pull after
/// the last image yields `None`.
pub proof fn lemma_stream_roundtrip(imgs: Seq<BWImageView>, i: nat)
    requires
        all_well_formed(imgs),
        i <= imgs.len(),
    ensures
        i < imgs.len() ==> pull(
            after_pulls(
                decoder_at_start(SourceView { pending: stream_bytes(imgs), fault: None }),
                i,
            ),
        ).0 == Some(Ok::<BWImageView, BWError>(imgs[i as int])),
        i == imgs.len() ==> pull(
            after_pulls(
                decoder_at_start(SourceView { pending: stream_bytes(imgs), fault: None }),
                i,
            ),
        ).0.is_none(),
{
    let rest = SourceView { pending: Seq::empty(), fault: None };
    let start = decoder_at_start(SourceView { pending: stream_bytes(imgs), fault: None });
    assert(stream_bytes(imgs) + rest.pending =~= stream_bytes(imgs));
    lemma_after_pulls(imgs, rest, start, i);
    if i < imgs.len() {
        lemma_next_pull(imgs, rest, start, i);
    }
    if i == imgs.len() {
        assert(imgs.skip(i as int) =~= Seq::<BWImageView>::empty());
        assert(after_pulls(start, i).source.pending =~= Seq::<u8>::empty());
    }
}

/// A failure in a stream is reported with the place where it happened: when
/// well-formed images are followed by something that does not decode, the
/// pull after the last of them yields the failure, the number of images
/// before it as its index, and the length of their frames taken together as
/// its offset.
pub proof fn lemma_stream_failure_is_tagged(imgs: Seq<BWImageView>, bad: SourceView, e: BWError)
    requires
        all_well_formed(imgs),
        frame_outcome(bad) == Err::<Option<(BWImageView, u64)>, BWError>(e),
    ensures
        pull(
            after_pulls(
                decoder_at_start(
                    SourceView { pending: stream_bytes(imgs) + bad.pending, fault: bad.fault },
                ),
                imgs.len(),
            ),
        ).0 == Some(
            Err::<BWImageView, BWError>(
                BWError::Compression(
                    imgs.len() as usize,
                    Box::new(e),
                    stream_bytes(imgs).len() as u64,
                ),
            ),
        ),
{
    let start = decoder_at_start(
        SourceView { pending: stream_bytes(imgs) + bad.pending, fault: bad.fault },
    );
    lemma_after_pulls(imgs, bad, start, imgs.len());
    assert(imgs.skip(imgs.len() as int) =~= Seq::<BWImageView>::empty());
    assert(imgs.take(imgs.len() as int) =~= imgs);
    assert(after_pulls(start, imgs.len()).source.pending =~= bad.pending);
    assert(after_pulls(start, imgs.len()).source == bad);
}

/// Decoding what was compressed gives back the images: where inflating a
/// buffer in one go gives the frames of well-formed images and no failure,
/// which is what `compress_imgs` leaves behind, a new decoder over that
/// buffer stands in front of these frames as a decoder of frames; its `i`-th
/// pull yields the `i`-th image, and the pull after the last image yields
/// `None`.
pub proof fn lemma_compressed_stream_roundtrip(
    compressed: Seq<u8>,
    imgs: Seq<BWImageView>,
    i: nat,
)
    ensures
        all_well_formed(imgs) && i <= imgs.len() && zlib_inflated(compressed) == (
            stream_bytes(imgs),
            None::<IoFault>,
        ) ==> {
            let start = frames_view(
                LazyState {
                    data: compressed,
                    asked: Seq::empty(),
                    reader_fault: None,
                    count: 0,
                    position: 0,
                },
            );
            let pulled = pull(after_pulls(start, i)).0;
            &&& start == decoder_at_start(SourceView { pending: stream_bytes(imgs), fault: None })
            &&& i < imgs.len() ==> pulled == Some(Ok::<BWImageView, BWError>(imgs[i as int]))
            &&& i == imgs.len() ==> pulled.is_none()
        },
{
    if all_well_formed(imgs) && i <= imgs.len() && zlib_inflated(compressed) == (
        stream_bytes(imgs),
        None::<IoFault>,
    ) {
        lemma_stream_roundtrip(imgs, i);
        assert(still_to_come(compressed, Seq::empty()) =~= stream_bytes(imgs));
    }
}

/// A pull that yields an image leaves less than it found: what is left is
/// shorter by the frame of the image, sixteen bytes at least.
pub proof fn lemma_pull_leaves_less(state: DecodeView)
    ensures
        pull(state).0 matches Some(Ok(img)) ==> pull(state).1.source.pending.len() + HEADER_LEN
            + padded_len(img.size) == state.source.pending.len(),
{
    match frame_outcome(state.source) {
        Ok(Some((img, len))) => {
            let size = img.size;
            assert(state.source.pending.len() >= HEADER_LEN);
            let body = after_read(state.source, HEADER_LEN as nat);
            assert(body.pending.len() >= padded_len(size));
        },
        _ => {},
    }
}

/// Decoding a stream at once gives back all images that were encoded into
/// it, in their order: a decoder of frames in front of the frames of
/// well-formed images and a clean end yields exactly these images.
pub proof fn lemma_collected_roundtrip(imgs: Seq<BWImageView>, state: DecodeView)
    requires
        all_well_formed(imgs),
        state.source == (SourceView { pending: stream_bytes(imgs), fault: None }),
    ensures
        collected(state) == Ok::<Seq<BWImageView>, BWError>(imgs),
    decreases imgs.len(),
{
    if imgs.len() == 0 {
        assert(imgs =~= Seq::<BWImageView>::empty());
    } else {
        let img = imgs[0];
        let behind = SourceView { pending: stream_bytes(imgs.skip(1)), fault: None };
        lemma_stream_bytes_first(imgs);
        lemma_pull_frame(img, behind, state);
        lemma_pull_leaves_less(state);
        lemma_collected_roundtrip(imgs.skip(1), pull(state).1);
        assert(seq![img] + imgs.skip(1) =~= imgs);
    }
}

} // verus!
