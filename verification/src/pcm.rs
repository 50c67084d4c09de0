//! 16-bit samples as bytes, the low byte first.

use vstd::prelude::*;

use crate::arith::{high_byte, low_byte, read_i16, word_bytes, word_bytes_round_trip, word_le};
use crate::error::Error;

verus! {

/// The bytes of samples.
pub open spec fn pcm_bytes(pcm: Seq<i16>) -> Seq<u8> {
    Seq::new(
        2 * pcm.len(),
        |k: int|
            if k % 2 == 0 {
                low_byte(pcm[k / 2] as int)
            } else {
                high_byte(pcm[k / 2] as int)
            },
    )
}

/// The samples of bytes; an odd one at the end counts for nothing.
pub open spec fn bytes_pcm(bytes: Seq<u8>) -> Seq<i16> {
    Seq::new(bytes.len() / 2, |k: int| word_le(bytes[2 * k], bytes[2 * k + 1]) as i16)
}

/// Samples go into bytes and come out again unchanged.
pub proof fn pcm_round_trip(pcm: Seq<i16>)
    ensures
        bytes_pcm(pcm_bytes(pcm)) == pcm,
{
    let back = bytes_pcm(pcm_bytes(pcm));
    assert forall|k: int| 0 <= k < pcm.len() implies back[k] == pcm[k] by {
        assert((2 * k) / 2 == k && (2 * k) % 2 == 0);
        assert((2 * k + 1) / 2 == k && (2 * k + 1) % 2 == 1);
        word_bytes_round_trip(pcm[k] as int);
    }
    assert(back =~= pcm);
}

/// The bytes of samples.
pub fn samples_to_bytes(pcm: &[i16]) -> (out: Vec<u8>)
    ensures
        out@ == pcm_bytes(pcm@),
{
    let mut out: Vec<u8> = Vec::new();
    let n: usize = pcm.len();
    let mut i: usize = 0;
    assert(pcm_bytes(pcm@.take(0)) =~= Seq::<u8>::empty());
    while i < n
        invariant
            i <= n == pcm@.len(),
            out@ == pcm_bytes(pcm@.take(i as int)),
        decreases n - i,
    {
        let pair: (u8, u8) = word_bytes(pcm[i] as i32);
        out.push(pair.0);
        out.push(pair.1);
        assert(out@ =~= pcm_bytes(pcm@.take(i + 1)));
        i = i + 1;
    }
    assert(pcm@.take(n as int) =~= pcm@);
    out
}

/// Why bytes are not the samples of so many channels.
pub open spec fn pcm_error(len: int, channels: int) -> Option<Error> {
    if len % 2 != 0 {
        Some(Error::PcmByteCount { len: len as usize })
    } else if (len / 2) % channels != 0 {
        Some(
            Error::PcmSampleCount { samples: (len / 2) as usize, channels: channels as usize },
        )
    } else {
        None
    }
}

/// Appends the samples of bytes.
pub fn push_pcm(pcm: &mut Vec<i16>, bytes: &[u8], channels: usize) -> (r: Result<(), Error>)
    requires
        channels > 0,
    ensures
        match r {
            Ok(_) => {
                &&& pcm_error(bytes@.len() as int, channels as int) is None
                &&& final(pcm)@ == old(pcm)@ + bytes_pcm(bytes@)
            },
            Err(e) => {
                &&& pcm_error(bytes@.len() as int, channels as int) == Some(e)
                &&& final(pcm)@ == old(pcm)@
            },
        },
{
    let len: usize = bytes.len();
    if len % 2 != 0 {
        return Err(Error::PcmByteCount { len });
    }
    let n: usize = len / 2;
    if n % channels != 0 {
        return Err(Error::PcmSampleCount { samples: n, channels });
    }
    let ghost before = pcm@;
    let ghost all = bytes_pcm(bytes@);
    let mut i: usize = 0;
    assert(before + all.take(0) =~= pcm@);
    while i < n
        invariant
            i <= n,
            2 * n == len == bytes@.len(),
            all == bytes_pcm(bytes@),
            pcm@ == before + all.take(i as int),
        decreases n - i,
    {
        pcm.push(read_i16(bytes[2 * i], bytes[2 * i + 1]));
        assert(pcm@ =~= before + all.take(i + 1));
        i = i + 1;
    }
    assert(all.take(n as int) =~= all);
    Ok(())
}

} // verus!
