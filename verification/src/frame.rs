//! Length-prefixed framing.
//!
//! Every frame on every socket is a 4-byte big-endian unsigned length
//! `L`, then `L` bytes of payload.  The transport reads the 4 bytes,
//! computes `L` here, reads exactly `L` bytes, and hands the payload to
//! the codec; a frame above the cap is refused before it is read.  A
//! length of 0 is a legal frame whose empty payload no protocol value
//! decodes from, so the codec then reports a protocol error.

use vstd::prelude::*;

verus! {

/// The largest payload a frame may carry: 64 MiB, capping file-bearing
/// frames.
pub const MAX_FRAME_LEN: u32 = 0x400_0000;

/// The four big-endian bytes of a length.
pub open spec fn spec_be_bytes(n: u32) -> Seq<u8> {
    seq![
        (n / 0x100_0000) as u8,
        ((n / 0x1_0000) % 0x100) as u8,
        ((n / 0x100) % 0x100) as u8,
        (n % 0x100) as u8,
    ]
}

/// The length named by four big-endian bytes.
pub open spec fn spec_be_val(b0: u8, b1: u8, b2: u8, b3: u8) -> u32 {
    (b0 * 0x100_0000 + b1 * 0x1_0000 + b2 * 0x100 + b3) as u32
}

/// Reading the four bytes of a length yields the length.
pub proof fn lemma_be_round_trip(n: u32)
    ensures
        spec_be_val(
            spec_be_bytes(n)[0],
            spec_be_bytes(n)[1],
            spec_be_bytes(n)[2],
            spec_be_bytes(n)[3],
        ) == n,
{
    let b0 = (n / 0x100_0000) as u8;
    let b1 = ((n / 0x1_0000) % 0x100) as u8;
    let b2 = ((n / 0x100) % 0x100) as u8;
    let b3 = (n % 0x100) as u8;
    assert(b0 * 0x100_0000 + b1 * 0x1_0000 + b2 * 0x100 + b3 == n) by (nonlinear_arith)
        requires
            b0 == n / 0x100_0000,
            b1 == (n / 0x1_0000) % 0x100,
            b2 == (n / 0x100) % 0x100,
            b3 == n % 0x100,
            n <= 0xFFFF_FFFF,
    ;
}

/// Wraps a payload in a frame: the payload's length in four big-endian
/// bytes, then the payload.  A payload above [`MAX_FRAME_LEN`] is
/// refused, exactly.
pub fn encode_frame(payload: &Vec<u8>) -> (r: Option<Vec<u8>>)
    ensures
        match r {
            Some(f) => payload@.len() <= MAX_FRAME_LEN && f@ == spec_be_bytes(
                payload@.len() as u32,
            ) + payload@,
            None => payload@.len() > MAX_FRAME_LEN,
        },
{
    if payload.len() > MAX_FRAME_LEN as usize {
        return None;
    }
    let n = payload.len() as u32;
    let mut f: Vec<u8> = Vec::new();
    f.push((n / 0x100_0000) as u8);
    f.push(((n / 0x1_0000) % 0x100) as u8);
    f.push(((n / 0x100) % 0x100) as u8);
    f.push((n % 0x100) as u8);
    let mut k: usize = 0;
    while k < payload.len()
        invariant
            k <= payload@.len(),
            payload@.len() <= MAX_FRAME_LEN,
            f@ == spec_be_bytes(payload@.len() as u32) + payload@.take(k as int),
        decreases payload@.len() - k,
    {
        f.push(payload[k]);
        proof {
            assert(f@ =~= spec_be_bytes(payload@.len() as u32) + payload@.take(k as int + 1));
        }
        k += 1;
    }
    proof {
        assert(payload@.take(payload@.len() as int) =~= payload@);
    }
    Some(f)
}

/// The length carried by a frame header, or `None` exactly when it
/// passes the cap.
pub fn decode_frame_len(b0: u8, b1: u8, b2: u8, b3: u8) -> (r: Option<u32>)
    ensures
        match r {
            Some(n) => n == spec_be_val(b0, b1, b2, b3) && n <= MAX_FRAME_LEN,
            None => spec_be_val(b0, b1, b2, b3) > MAX_FRAME_LEN,
        },
{
    let n: u32 = (b0 as u32) * 0x100_0000 + (b1 as u32) * 0x1_0000 + (b2 as u32) * 0x100 + (
    b3 as u32);
    if n > MAX_FRAME_LEN {
        None
    } else {
        Some(n)
    }
}

} // verus!
