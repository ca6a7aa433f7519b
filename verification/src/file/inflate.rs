//! Inflating a zlib stream: in one go, or piece by piece as its bytes are
//! asked for.

use vstd::prelude::*;
use crate::IoFault;

verus! {

/// The most that is asked of a decoder in one read.
pub const CHUNK: usize = 0x8000;

/// A zlib decompressor over bytes held in memory: a
/// `flate2::read::ZlibDecoder` over a `std::io::Cursor` over a `Vec`.
#[verifier::external_body]
pub struct Inflater {
    inner: flate2::read::ZlibDecoder<std::io::Cursor<Vec<u8>>>,
}

/// The compressed bytes that a decoder was made over.
pub uninterp spec fn fed(decoder: Inflater) -> Seq<u8>;

/// The reads that a decoder has answered, in their order: of each the number
/// of bytes that was asked for.
pub uninterp spec fn asked(decoder: Inflater) -> Seq<nat>;

/// How a decoder over `data` that has answered the reads `asked` answers a
/// read of up to `want` bytes: with the bytes it gives, none at the end of
/// the stream, or with its failure.
pub uninterp spec fn inflate_outcome(data: Seq<u8>, asked: Seq<nat>, want: nat) -> Result<Seq<u8>, IoFault>;

/// What inflating a buffer to its end in one go gives: the bytes that came
/// out, and the failure that stopped it if it did not reach the end of a
/// zlib stream.
pub uninterp spec fn zlib_inflated(data: Seq<u8>) -> (Seq<u8>, Option<IoFault>);

/// How many bytes a decoder over `data` has given out in answer to the reads
/// `asked`.
pub open spec fn given_out(data: Seq<u8>, asked: Seq<nat>) -> nat
    decreases asked.len(),
{
    if asked.len() == 0 {
        0
    } else {
        given_out(data, asked.drop_last()) + match inflate_outcome(
            data,
            asked.drop_last(),
            asked.last(),
        ) {
            Ok(bytes) => bytes.len(),
            Err(_) => 0,
        }
    }
}

/// `flate2::read::ZlibDecoder::new` over a `std::io::Cursor` over a copy of
/// `data`: the new decoder is over these bytes and has answered no read.
#[verifier::external_body]
pub(crate) fn inflater_new(data: &[u8]) -> (decoder: Inflater)
    ensures
        fed(decoder) == data@,
        asked(decoder) == Seq::<nat>::empty(),
{
    Inflater { inner: flate2::read::ZlibDecoder::new(std::io::Cursor::new(data.to_vec())) }
}

/// `std::io::Read::read` of `flate2::read::ZlibDecoder` into a buffer of
/// `want` bytes; the bytes read are handed out.
///
/// The answer depends on the compressed bytes, the reads answered before and
/// `want` alone, it holds at most `want` bytes, and the read joins the reads
/// answered. A failure is given by the kind of its `std::io::Error`.
///
/// Over compressed bytes that `std::io::Read::read_to_end` inflates without
/// failure, every read succeeds and gives the bytes that follow those given
/// out before, and it gives none only when all are given out.
#[verifier::external_body]
pub(crate) fn inflater_read(decoder: &mut Inflater, want: usize) -> (r: Result<Vec<u8>, IoFault>)
    requires
        0 < want <= CHUNK,
    ensures
        fed(*final(decoder)) == fed(*old(decoder)),
        asked(*final(decoder)) == asked(*old(decoder)).push(want as nat),
        match r {
            Ok(bytes) => inflate_outcome(fed(*old(decoder)), asked(*old(decoder)), want as nat)
                == Ok::<Seq<u8>, IoFault>(bytes@) && bytes@.len() <= want,
            Err(fault) => inflate_outcome(fed(*old(decoder)), asked(*old(decoder)), want as nat)
                == Err::<Seq<u8>, IoFault>(fault),
        },
        zlib_inflated(fed(*old(decoder))).1 is None ==> r is Ok && ({
            let all = zlib_inflated(fed(*old(decoder))).0;
            let before = given_out(fed(*old(decoder)), asked(*old(decoder)));
            let bytes = r.unwrap()@;
            &&& before + bytes.len() <= all.len()
            &&& bytes == all.subrange(before as int, (before + bytes.len()) as int)
            &&& bytes.len() == 0 ==> before == all.len()
        }),
{
    let mut buffer = vec![0u8; want];
    match std::io::Read::read(&mut decoder.inner, &mut buffer) {
        Ok(n) => {
            buffer.truncate(n);
            Ok(buffer)
        },
        Err(error) => Err(match error.kind() {
            std::io::ErrorKind::UnexpectedEof => IoFault::UnexpectedEof,
            std::io::ErrorKind::InvalidInput => IoFault::InvalidInput,
            std::io::ErrorKind::InvalidData => IoFault::InvalidData,
            _ => IoFault::Other,
        }),
    }
}

/// `std::io::Read::read_to_end` of a new `flate2::read::ZlibDecoder` over
/// `data`: the bytes that came out, and the kind of the failure if there
/// was one.
#[verifier::external_body]
pub(crate) fn inflate(data: &[u8]) -> (r: (Vec<u8>, Option<IoFault>))
    ensures
        (r.0@, r.1) == zlib_inflated(data@),
{
    let mut out = Vec::new();
    match std::io::Read::read_to_end(&mut flate2::read::ZlibDecoder::new(data), &mut out) {
        Ok(_) => (out, None),
        Err(error) => (out, Some(match error.kind() {
            std::io::ErrorKind::UnexpectedEof => IoFault::UnexpectedEof,
            std::io::ErrorKind::InvalidInput => IoFault::InvalidInput,
            std::io::ErrorKind::InvalidData => IoFault::InvalidData,
            _ => IoFault::Other,
        })),
    }
}

/// What gathering `need` bytes from a decoder over `data` that has answered
/// the reads `asked` gives: the bytes gathered, the failure that stopped the
/// gathering if one did, and the reads answered afterwards.
///
/// Reads of at most `CHUNK` bytes are made until `need` bytes are gathered,
/// a read gives no byte, which is the end of the stream, or a read fails.
pub open spec fn gathered(data: Seq<u8>, asked: Seq<nat>, need: nat) -> (
    Seq<u8>,
    Option<IoFault>,
    Seq<nat>,
)
    decreases need,
{
    if need == 0 {
        (Seq::empty(), None, asked)
    } else {
        let want = if need < CHUNK {
            need
        } else {
            CHUNK as nat
        };
        match inflate_outcome(data, asked, want) {
            Err(fault) => (Seq::empty(), Some(fault), asked.push(want)),
            Ok(bytes) => if bytes.len() == 0 || bytes.len() > want {
                (Seq::empty(), None, asked.push(want))
            } else {
                let rest = gathered(data, asked.push(want), (need - bytes.len()) as nat);
                (bytes + rest.0, rest.1, rest.2)
            },
        }
    }
}

/// What is left to come out of a decoder over `data` that has answered the
/// reads `asked`, where inflating `data` in one go meets no failure.
pub open spec fn still_to_come(data: Seq<u8>, asked: Seq<nat>) -> Seq<u8> {
    zlib_inflated(data).0.skip(given_out(data, asked) as int)
}

/// A decoder over bytes that inflate without failure in one go has not
/// given out more than there is. It holds of a new decoder, and gathering
/// keeps it.
pub open spec fn in_bounds(decoder: Inflater) -> bool {
    zlib_inflated(fed(decoder)).1 is None ==> given_out(fed(decoder), asked(decoder))
        <= zlib_inflated(fed(decoder)).0.len()
}

/// Gathers `need` bytes from a decoder: fewer where the stream ends or fails
/// before.
///
/// Over compressed bytes that inflate without failure in one go, gathering
/// meets no failure either, and gives the next `need` bytes of what is left
/// to come, or all that is left where that is less.
pub(crate) fn gather(decoder: &mut Inflater, need: u64) -> (r: (Vec<u8>, Option<IoFault>))
    requires
        in_bounds(*old(decoder)),
    ensures
        in_bounds(*final(decoder)),
        fed(*final(decoder)) == fed(*old(decoder)),
        (r.0@, r.1, asked(*final(decoder))) == gathered(
            fed(*old(decoder)),
            asked(*old(decoder)),
            need as nat,
        ),
        r.0@.len() <= need,
        zlib_inflated(fed(*old(decoder))).1 is None ==> {
            let left = still_to_come(fed(*old(decoder)), asked(*old(decoder)));
            &&& r.1 is None
            &&& r.0@ == if left.len() >= need {
                left.take(need as int)
            } else {
                left
            }
            &&& still_to_come(fed(*old(decoder)), asked(*final(decoder))) == left.skip(
                r.0@.len() as int,
            )
        },
{
    let ghost data = fed(*decoder);
    let ghost start = asked(*decoder);
    let ghost all = zlib_inflated(data).0;
    let ghost first = given_out(data, start);
    let ghost clean = zlib_inflated(data).1 is None;
    let mut got: Vec<u8> = Vec::new();
    let mut failure: Option<IoFault> = None;
    let mut open = true;
    while open && (got.len() as u64) < need
        invariant
            fed(*decoder) == data,
            got@.len() <= need,
            open ==> failure is None,
            open ==> gathered(data, start, need as nat) == ({
                let rest = gathered(data, asked(*decoder), (need - got@.len()) as nat);
                (got@ + rest.0, rest.1, rest.2)
            }),
            !open ==> gathered(data, start, need as nat) == (got@, failure, asked(*decoder)),
            all == zlib_inflated(data).0,
            first == given_out(data, start),
            clean == (zlib_inflated(data).1 is None),
            clean ==> failure is None,
            clean ==> given_out(data, asked(*decoder)) == first + got@.len() <= all.len(),
            clean ==> got@ =~= all.subrange(first as int, (first + got@.len()) as int),
            clean && !open ==> first + got@.len() == all.len(),
        decreases need - got@.len() + if open { 1nat } else { 0nat },
    {
        let missing: u64 = need - got.len() as u64;
        let want: usize = if missing < CHUNK as u64 {
            missing as usize
        } else {
            CHUNK
        };
        let ghost before = asked(*decoder);
        let ghost old_got = got@;
        proof {
            assert(before.push(want as nat).drop_last() =~= before);
        }
        match inflater_read(decoder, want) {
            Ok(mut bytes) => {
                if bytes.len() == 0 {
                    open = false;
                    proof {
                        assert(got@ + Seq::<u8>::empty() =~= got@);
                    }
                } else {
                    let ghost piece = bytes@;
                    got.append(&mut bytes);
                    proof {
                        let rest = gathered(
                            data,
                            before.push(want as nat),
                            (need - got@.len()) as nat,
                        );
                        assert(old_got + (piece + rest.0) =~= got@ + rest.0);
                    }
                }
            },
            Err(fault) => {
                failure = Some(fault);
                open = false;
                proof {
                    assert(got@ + Seq::<u8>::empty() =~= got@);
                }
            },
        }
    }
    proof {
        if open {
            assert(got@ + Seq::<u8>::empty() =~= got@);
        }
        if clean {
            let left = still_to_come(data, start);
            assert(left =~= all.skip(first as int));
            if left.len() >= need {
                assert(got@ =~= left.take(need as int));
            } else {
                assert(got@ =~= left);
            }
            assert(still_to_come(data, asked(*decoder)) =~= left.skip(got@.len() as int));
        }
    }
    (got, failure)
}

} // verus!
