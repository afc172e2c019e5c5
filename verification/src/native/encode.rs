use vstd::prelude::*;

verus! {

/// Largest frame body exchanged with the guest.
pub const MAX_FRAME_BYTES: u32 = 16777216;

/// The big-endian bytes of `n`.
pub open spec fn be_bytes(n: u32) -> Seq<u8> {
    seq![(n >> 24) as u8, ((n >> 16) & 0xff) as u8, ((n >> 8) & 0xff) as u8, (n & 0xff) as u8]
}

/// The number whose big-endian bytes are `b[0..4]`.
pub open spec fn be_value(b: Seq<u8>) -> int {
    b[0] * 16777216 + b[1] * 65536 + b[2] * 256 + b[3]
}

/// A length-prefixed frame: the body's length as four big-endian bytes,
/// then the body.
pub open spec fn frame_of(body: Seq<u8>) -> Seq<u8> {
    be_bytes(body.len() as u32) + body
}

/// Why a frame cannot be made or read.
#[derive(Debug, Clone, Copy, PartialEq, Eq)]
pub enum FrameError {
    /// The body exceeds `MAX_FRAME_BYTES`.
    TooLarge,
    /// The header announces more than `MAX_FRAME_BYTES`.
    LengthTooLarge(u32),
    /// The input ends inside the header.
    Closed,
    /// The input ends inside the body.
    Truncated,
}

proof fn lemma_be_round_trip(n: u32)
    ensures
        be_value(be_bytes(n)) == n,
{
    let b0 = (n >> 24) as u8;
    let b1 = ((n >> 16) & 0xff) as u8;
    let b2 = ((n >> 8) & 0xff) as u8;
    let b3 = (n & 0xff) as u8;
    assert(b0 as u32 * 16777216 + b1 as u32 * 65536 + b2 as u32 * 256 + b3 as u32 == n)
        by (bit_vector)
        requires
            b0 == (n >> 24) as u8,
            b1 == ((n >> 16) & 0xff) as u8,
            b2 == ((n >> 8) & 0xff) as u8,
            b3 == (n & 0xff) as u8,
    ;
}

/// Frames `body` for the guest socket.
pub fn encode_frame(body: &[u8]) -> (r: Result<Vec<u8>, FrameError>)
    ensures
        body.len() <= MAX_FRAME_BYTES ==> (r matches Ok(v) && v@ == frame_of(body@)),
        body.len() > MAX_FRAME_BYTES ==> r == Err::<Vec<u8>, FrameError>(FrameError::TooLarge),
{
    if body.len() > MAX_FRAME_BYTES as usize {
        return Err(FrameError::TooLarge);
    }
    let n = body.len() as u32;
    let mut out: Vec<u8> = Vec::new();
    out.push((n >> 24) as u8);
    out.push(((n >> 16) & 0xff) as u8);
    out.push(((n >> 8) & 0xff) as u8);
    out.push((n & 0xff) as u8);
    let mut i: usize = 0;
    while i < body.len()
        invariant
            i <= body.len(),
            n == body.len() as u32,
            out@ == be_bytes(n) + body@.take(i as int),
        decreases body.len() - i,
    {
        out.push(body[i]);
        i += 1;
        assert(out@ =~= be_bytes(n) + body@.take(i as int));
    }
    assert(body@.take(body.len() as int) =~= body@);
    Ok(out)
}

/// The body length a frame header announces.
pub fn frame_length(header: [u8; 4]) -> (r: Result<u32, FrameError>)
    ensures
        be_value(header@) <= MAX_FRAME_BYTES ==> r == Ok::<u32, FrameError>(
            be_value(header@) as u32,
        ),
        be_value(header@) > MAX_FRAME_BYTES ==> r == Err::<u32, FrameError>(
            FrameError::LengthTooLarge(be_value(header@) as u32),
        ),
{
    let size: u32 = (header[0] as u32) * 16777216 + (header[1] as u32) * 65536 + (header[2] as u32)
        * 256 + (header[3] as u32);
    if size > MAX_FRAME_BYTES {
        Err(FrameError::LengthTooLarge(size))
    } else {
        Ok(size)
    }
}

/// Reads the first frame of `input`: the header, then as many body bytes as
/// it announces.
pub fn read_frame(input: &[u8]) -> (r: Result<Vec<u8>, FrameError>)
    ensures
        input.len() < 4 ==> r == Err::<Vec<u8>, FrameError>(FrameError::Closed),
        input.len() >= 4 && be_value(input@) > MAX_FRAME_BYTES ==> r == Err::<
            Vec<u8>,
            FrameError,
        >(FrameError::LengthTooLarge(be_value(input@) as u32)),
        input.len() >= 4 && be_value(input@) <= MAX_FRAME_BYTES && input.len() < 4 + be_value(
            input@,
        ) ==> r == Err::<Vec<u8>, FrameError>(FrameError::Truncated),
        input.len() >= 4 && be_value(input@) <= MAX_FRAME_BYTES && input.len() >= 4 + be_value(
            input@,
        ) ==> (r matches Ok(v) && v@ == input@.subrange(4, 4 + be_value(input@))),
{
    if input.len() < 4 {
        return Err(FrameError::Closed);
    }
    let header = [input[0], input[1], input[2], input[3]];
    assert(header@ =~= input@.take(4));
    let size = frame_length(header)?;
    let end = size as usize;
    if input.len() - 4 < end {
        return Err(FrameError::Truncated);
    }
    let mut out: Vec<u8> = Vec::new();
    let mut i: usize = 0;
    while i < end
        invariant
            i <= end,
            4 + end <= input.len(),
            out@ == input@.subrange(4, 4 + i),
        decreases end - i,
    {
        out.push(input[4 + i]);
        i += 1;
        assert(out@ =~= input@.subrange(4, 4 + i));
    }
    Ok(out)
}

/// Reading a frame gives back the body it was made from.
pub proof fn lemma_frame_round_trip(body: Seq<u8>, rest: Seq<u8>)
    requires
        body.len() <= MAX_FRAME_BYTES,
    ensures
        ({
            let input = frame_of(body) + rest;
            &&& input.len() >= 4
            &&& be_value(input) == body.len()
            &&& input.subrange(4, 4 + be_value(input)) == body
        }),
{
    let input = frame_of(body) + rest;
    lemma_be_round_trip(body.len() as u32);
    assert(input[0] == be_bytes(body.len() as u32)[0]);
    assert(input[1] == be_bytes(body.len() as u32)[1]);
    assert(input[2] == be_bytes(body.len() as u32)[2]);
    assert(input[3] == be_bytes(body.len() as u32)[3]);
    assert(input.subrange(4, 4 + body.len() as int) =~= body);
}

} // verus!
