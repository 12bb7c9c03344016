//! Length-prefixed framing of wire messages.
//!
//! Each direction of the socket protocol carries frames: a 32-bit
//! little-endian byte length followed by exactly that many bytes of
//! message body.  Frames longer than [`MAX_FRAME_LEN`] are refused.

use vstd::prelude::*;

verus! {

/// Largest body a frame may carry, in bytes.
pub const MAX_FRAME_LEN: u32 = 1048576;

/// The four little-endian bytes of a 32-bit length.
pub open spec fn u32_le_bytes(n: u32) -> Seq<u8> {
    seq![
        (n & 0xff) as u8,
        ((n >> 8) & 0xff) as u8,
        ((n >> 16) & 0xff) as u8,
        ((n >> 24) & 0xff) as u8,
    ]
}

/// The value read back from four little-endian bytes.
pub open spec fn u32_from_le_bytes(s: Seq<u8>) -> u32
    recommends
        s.len() == 4,
{
    (s[0] + s[1] * 0x100 + s[2] * 0x10000 + s[3] * 0x1000000) as u32
}

/// A frame is the length prefix followed by the body.
pub open spec fn spec_frame(body: Seq<u8>) -> Seq<u8>
    recommends
        body.len() <= MAX_FRAME_LEN,
{
    u32_le_bytes(body.len() as u32) + body
}

/// Reading the four bytes of a length yields the length again.
pub proof fn lemma_u32_le_round_trip(n: u32)
    ensures
        u32_from_le_bytes(u32_le_bytes(n)) == n,
{
    assert((((n & 0xff) as u8) + (((n >> 8) & 0xff) as u8) * 0x100 + (((n >> 16) & 0xff) as u8)
        * 0x10000 + (((n >> 24) & 0xff) as u8) * 0x1000000) as u32 == n) by (bit_vector);
}

/// Frame a message body: the body's length as four little-endian bytes,
/// then the body.  Bodies over [`MAX_FRAME_LEN`] bytes are refused.
pub fn encode_frame(body: &Vec<u8>) -> (r: Option<Vec<u8>>)
    ensures
        body@.len() <= MAX_FRAME_LEN ==> (r matches Some(f) && f@ == spec_frame(body@)),
        body@.len() > MAX_FRAME_LEN ==> r is None,
{
    if body.len() > MAX_FRAME_LEN as usize {
        return None;
    }
    let n = body.len() as u32;
    let mut out: Vec<u8> = Vec::new();
    out.push((n & 0xff) as u8);
    out.push(((n >> 8) & 0xff) as u8);
    out.push(((n >> 16) & 0xff) as u8);
    out.push(((n >> 24) & 0xff) as u8);
    let mut i: usize = 0;
    while i < body.len()
        invariant
            i <= body@.len(),
            out@ == u32_le_bytes(n) + body@.take(i as int),
        decreases body@.len() - i,
    {
        out.push(body[i]);
        i += 1;
        assert(body@.take(i as int) == body@.take(i - 1) + seq![body@[i - 1]]);
    }
    assert(body@.take(body@.len() as int) == body@);
    Some(out)
}

/// Read the body length announced by a frame header.  Returns the length
/// only when at least the four header bytes are present.
pub fn frame_body_len(header: &Vec<u8>) -> (r: Option<u32>)
    ensures
        header@.len() >= 4 ==> r == Some(u32_from_le_bytes(header@.take(4))),
        header@.len() < 4 ==> r is None,
{
    if header.len() < 4 {
        return None;
    }
    let b0 = header[0] as u32;
    let b1 = header[1] as u32;
    let b2 = header[2] as u32;
    let b3 = header[3] as u32;
    assert(b0 + b1 * 0x100 + b2 * 0x10000 + b3 * 0x1000000 <= 0xffffffff) by (bit_vector)
        requires
            b0 <= 0xff && b1 <= 0xff && b2 <= 0xff && b3 <= 0xff,
    ;
    Some(b0 + b1 * 0x100 + b2 * 0x10000 + b3 * 0x1000000)
}

/// Split one whole frame back into its body.  Succeeds exactly when the
/// buffer is a header plus the announced number of body bytes.
pub fn decode_frame(buf: &Vec<u8>) -> (r: Option<Vec<u8>>)
    ensures
        match r {
            Some(body) => buf@.len() >= 4 && buf@.len() - 4 == u32_from_le_bytes(buf@.take(4))
                && body@ == buf@.skip(4),
            None => buf@.len() < 4 || buf@.len() - 4 != u32_from_le_bytes(buf@.take(4)),
        },
{
    let n = match frame_body_len(buf) {
        Some(n) => n,
        None => {
            return None;
        },
    };
    if buf.len() - 4 != n as usize {
        return None;
    }
    let mut body: Vec<u8> = Vec::new();
    let mut i: usize = 4;
    while i < buf.len()
        invariant
            4 <= i <= buf@.len(),
            body@ == buf@.subrange(4, i as int),
        decreases buf@.len() - i,
    {
        body.push(buf[i]);
        i += 1;
        assert(buf@.subrange(4, i as int) == buf@.subrange(4, i - 1) + seq![buf@[i - 1]]);
    }
    assert(body@ == buf@.skip(4));
    Some(body)
}

/// Framing round trip: decoding an encoded frame yields the body again.
pub proof fn lemma_frame_round_trip(body: Seq<u8>)
    requires
        body.len() <= MAX_FRAME_LEN,
    ensures
        spec_frame(body).len() >= 4,
        spec_frame(body).len() - 4 == u32_from_le_bytes(spec_frame(body).take(4)),
        spec_frame(body).skip(4) == body,
{
    lemma_u32_le_round_trip(body.len() as u32);
    assert(spec_frame(body).take(4) == u32_le_bytes(body.len() as u32));
    assert(spec_frame(body).skip(4) == body);
}

} // verus!
