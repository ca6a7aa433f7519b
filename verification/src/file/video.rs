//! Turning the decoded frames of a video into images.
//!
//! Demuxing, decoding and scaling a video happen elsewhere. What is decided
//! here is what becomes of each frame that arrives, and how the results of
//! the packets of a video are put together.

use vstd::prelude::*;
use crate::img::{BWImage, ImageData};
use crate::{BWDataErr, BWError};

verus! {

/// A tally of skipped frames as a `u64`: the tally itself, or the largest
/// `u64` where the tally is larger.
pub open spec fn capped(tally: nat) -> u64 {
    if tally <= u64::MAX {
        tally as u64
    } else {
        u64::MAX
    }
}

/// Converts one frame and adds it to the frames of its packet.
///
/// A frame that converts is appended to `frames`. A frame whose buffer does
/// not fit its geometry is skipped and counted in `skipped` (which stops at
/// the largest number a `u64` holds); that is no failure. Any other failure
/// of the source is returned, and nothing changes.
pub fn convert_frame<T: ImageData>(source: &T, frames: &mut Vec<BWImage>, skipped: &mut u64) -> (r:
    Result<(), BWError>)
    ensures
        match source.packed() {
            Ok(pixels) => r is Ok && *final(skipped) == *old(skipped) && final(frames)@.len()
                == old(frames)@.len() + 1 && final(frames)@.drop_last() == old(frames)@
                && final(frames)@.last().size == source.geometry() && final(frames)@.last().pixels@
                == pixels && final(frames)@.last().wf(),
            Err(BWDataErr::WrongSize(_, _, _)) => r is Ok && *final(skipped) == capped(
                (*old(skipped) + 1) as nat,
            ) && final(frames)@ == old(frames)@,
            Err(e) => r == Err::<(), BWError>(BWError::BWDataErr(e)) && *final(skipped) == *old(
                skipped,
            ) && final(frames)@ == old(frames)@,
        },
{
    match BWImage::parse(source) {
        Ok(img) => {
            frames.push(img);
            proof {
                assert(frames@.drop_last() =~= old(frames)@);
            }
            Ok(())
        },
        Err(BWDataErr::WrongSize(_, _, _)) => {
            if *skipped < u64::MAX {
                *skipped = *skipped + 1;
            }
            Ok(())
        },
        Err(e) => Err(BWError::BWDataErr(e)),
    }
}

/// The frames of the first `n` packets, in order.
pub open spec fn frames_of(batches: Seq<Result<(Vec<BWImage>, u64), BWError>>, n: int) -> Seq<
    BWImage,
>
    decreases n,
{
    if n <= 0 {
        Seq::empty()
    } else {
        frames_of(batches, n - 1) + match batches[n - 1] {
            Ok((frames, _)) => frames@,
            Err(_) => Seq::empty(),
        }
    }
}

/// How many frames were skipped in the first `n` packets.
pub open spec fn skipped_in(batches: Seq<Result<(Vec<BWImage>, u64), BWError>>, n: int) -> nat
    decreases n,
{
    if n <= 0 {
        0
    } else {
        skipped_in(batches, n - 1) + match batches[n - 1] {
            Ok((_, skipped)) => skipped as nat,
            Err(_) => 0,
        }
    }
}

/// Puts the results of the packets of a video together.
///
/// Where every packet was converted, the frames of all packets follow each
/// other in the order of the packets, and the skipped frames are added up
/// (the sum stops at the largest number a `u64` holds). Where a packet
/// failed, the failure of the first such packet is returned.
pub fn convert_video_to_bw_imgs(batches: Vec<Result<(Vec<BWImage>, u64), BWError>>) -> (r: Result<
    (Vec<BWImage>, u64),
    BWError,
>)
    ensures
        match r {
            Ok((frames, skipped)) => {
                &&& forall|i: int| 0 <= i < batches@.len() ==> batches@[i] is Ok
                &&& frames@ == frames_of(batches@, batches@.len() as int)
                &&& skipped == capped(skipped_in(batches@, batches@.len() as int))
            },
            Err(e) => exists|i: int|
                0 <= i < batches@.len() && #[trigger] batches@[i] == Err::<
                    (Vec<BWImage>, u64),
                    BWError,
                >(e) && forall|j: int| 0 <= j < i ==> batches@[j] is Ok,
        },
{
    let mut all: Vec<BWImage> = Vec::new();
    let mut total: u64 = 0;
    let ghost given = batches@;
    for batch in iter: batches
        invariant
            iter.seq() == given,
            forall|j: int| 0 <= j < iter.index() ==> given[j] is Ok,
            all@ == frames_of(given, iter.index() as int),
            total == capped(skipped_in(given, iter.index() as int)),
    {
        match batch {
            Ok((mut frames, skipped)) => {
                all.append(&mut frames);
                total = if skipped <= u64::MAX - total {
                    total + skipped
                } else {
                    u64::MAX
                };
            },
            Err(e) => {
                return Err(e);
            },
        }
    }
    Ok((all, total))
}

} // verus!
