//! Frames on a byte stream: a length of four bytes, most significant
//! first, and then that many bytes of message.

use vstd::prelude::*;

verus! {

/// The four bytes of `n`, most significant first.
pub open spec fn be32(n: u32) -> Seq<u8> {
    seq![
        (n / 0x100_0000) as u8,
        (n / 0x1_0000 % 0x100) as u8,
        (n / 0x100 % 0x100) as u8,
        (n % 0x100) as u8,
    ]
}

/// The number whose four bytes, most significant first, are the first four
/// of `bytes`.
pub open spec fn from_be32(bytes: Seq<u8>) -> u32
    recommends
        bytes.len() >= 4,
{
    (bytes[0] as u32 * 0x100_0000 + bytes[1] as u32 * 0x1_0000 + bytes[2] as u32 * 0x100
        + bytes[3] as u32) as u32
}

/// A message as it travels: its length, then its bytes.
pub open spec fn framed(payload: Seq<u8>) -> Seq<u8>
    recommends
        payload.len() <= u32::MAX,
{
    be32(payload.len() as u32) + payload
}

/// The first message on `bytes`: its payload and the number of bytes it
/// takes up. None where `bytes` end before the message does.
pub open spec fn unframed(bytes: Seq<u8>) -> Option<(Seq<u8>, int)> {
    if bytes.len() < 4 {
        None
    } else {
        let n = from_be32(bytes) as int;
        if bytes.len() < 4 + n {
            None
        } else {
            Some((bytes.subrange(4, 4 + n), 4 + n))
        }
    }
}

/// Reading back the four bytes of a number gives the number.
pub proof fn law_length_round_trip(n: u32)
    ensures
        be32(n).len() == 4,
        from_be32(be32(n)) == n,
{
}

/// Writing the number that four bytes stand for gives the four bytes.
pub proof fn law_length_bytes_round_trip(bytes: Seq<u8>)
    requires
        bytes.len() == 4,
    ensures
        be32(from_be32(bytes)) == bytes,
{
    assert(be32(from_be32(bytes)) =~= bytes);
}

/// A framed message reads back as itself, whatever follows it on the
/// stream.
pub proof fn law_frame_round_trip(payload: Seq<u8>, rest: Seq<u8>)
    requires
        payload.len() <= u32::MAX,
    ensures
        unframed(framed(payload) + rest) == Some((payload, 4 + payload.len() as int)),
{
    let n = payload.len() as u32;
    let bytes = framed(payload) + rest;
    law_length_round_trip(n);
    assert(from_be32(bytes) == from_be32(be32(n)));
    assert(bytes.subrange(4, 4 + n) =~= payload);
}

/// Why a frame could not be written or read.
#[derive(Clone, Copy, Debug, PartialEq, Eq, Structural)]
pub enum FrameError {
    /// The message is longer than a length of four bytes can say.
    TooLong,
    /// The bytes end before the message does.
    Short,
}

/// The four bytes that announce a message of `len` bytes.
pub fn length_prefix(len: u32) -> (prefix: [u8; 4])
    ensures
        prefix@ == be32(len),
{
    let prefix = [
        (len / 0x100_0000) as u8,
        (len / 0x1_0000 % 0x100) as u8,
        (len / 0x100 % 0x100) as u8,
        (len % 0x100) as u8,
    ];
    assert(prefix@ =~= be32(len));
    prefix
}

/// The length that the four bytes of a prefix announce.
pub fn announced_length(prefix: &[u8; 4]) -> (len: u32)
    ensures
        len == from_be32(prefix@),
{
    prefix[0] as u32 * 0x100_0000 + prefix[1] as u32 * 0x1_0000 + prefix[2] as u32 * 0x100
        + prefix[3] as u32
}

/// Frames `payload`. Fails only on a message too long for its length to
/// be written.
pub fn encode_frame(payload: &[u8]) -> (out: Result<Vec<u8>, FrameError>)
    ensures
        match out {
            Ok(bytes) => payload@.len() <= u32::MAX && bytes@ == framed(payload@),
            Err(e) => payload@.len() > u32::MAX && e == FrameError::TooLong,
        },
{
    if payload.len() > u32::MAX as usize {
        return Err(FrameError::TooLong);
    }
    let prefix = length_prefix(payload.len() as u32);
    let mut bytes: Vec<u8> = Vec::new();
    bytes.push(prefix[0]);
    bytes.push(prefix[1]);
    bytes.push(prefix[2]);
    bytes.push(prefix[3]);
    assert(bytes@ =~= be32(payload@.len() as u32));
    bytes.extend_from_slice(payload);
    Ok(bytes)
}

/// Reads the first message on `bytes`: its payload and the number of bytes
/// read. Fails only where `bytes` end before the message does.
pub fn decode_frame(bytes: &[u8]) -> (out: Result<(Vec<u8>, usize), FrameError>)
    ensures
        match out {
            Ok((payload, used)) => unframed(bytes@) == Some((payload@, used as int)),
            Err(e) => unframed(bytes@) is None && e == FrameError::Short,
        },
{
    if bytes.len() < 4 {
        return Err(FrameError::Short);
    }
    let prefix = [bytes[0], bytes[1], bytes[2], bytes[3]];
    let n = announced_length(&prefix) as usize;
    if bytes.len() - 4 < n {
        return Err(FrameError::Short);
    }
    let mut payload: Vec<u8> = Vec::new();
    let mut i: usize = 0;
    while i < n
        invariant
            i <= n,
            4 + n <= bytes.len(),
            payload@ == bytes@.subrange(4, 4 + i),
        decreases n - i,
    {
        payload.push(bytes[4 + i]);
        proof {
            assert(bytes@.subrange(4, 4 + i + 1) =~= bytes@.subrange(4, 4 + i).push(
                bytes@[4 + i],
            ));
        }
        i += 1;
    }
    Ok((payload, 4 + n))
}

} // verus!
