//! Frames of the link: a length of four bytes, least significant first, then
//! a payload of that many bytes, which is a packed batch. A length of zero
//! ends the stream.

use crate::error::RecError;
use vstd::prelude::*;

verus! {

/// The largest payload that a frame may carry, in bytes.
pub const MAX_PAYLOAD: usize = 0x80_0000;

/// The number of bytes of a length prefix.
pub const PREFIX_LEN: usize = 4;

/// Declares `lz4_compression::decompress::Error`, the error that
/// `lz4_compression::decompress::decompress` reports, so that it can be
/// handed on. Nothing is claimed of its values.
#[verifier::external_type_specification]
#[verifier::external_body]
pub struct ExLz4Error(lz4_compression::decompress::Error);

/// A name for what `lz4_compression::decompress::decompress` returns on
/// `packed`: the bytes that it expands to; nothing where it reports an error.
/// What it returns depends on the bytes alone.
pub uninterp spec fn lz4_expanded(packed: Seq<u8>) -> Option<Seq<u8>>;

/// Calls `lz4_compression::decompress::decompress`. Nothing is proved of it.
/// The contract gives its result the name `lz4_expanded`: the expanded bytes,
/// or an error where there are none. Inputs above the largest payload are
/// left out: on them the sums of lengths that it forms are not known to stay
/// in range on every machine.
#[verifier::external_body]
fn lz4_decompress(packed: &Vec<u8>) -> (r: Result<Vec<u8>, lz4_compression::decompress::Error>)
    requires
        packed.len() <= MAX_PAYLOAD,
    ensures
        match r {
            Ok(plain) => lz4_expanded(packed@) == Some(plain@),
            Err(_) => lz4_expanded(packed@) is None,
        },
{
    lz4_compression::decompress::decompress(packed)
}

/// Calls `lz4_compression::compress::compress`. Nothing is proved of it.
/// The contract claims of its result what the crate states of the pair: it
/// holds at least the token of one block, and decompressing it gives back the
/// input. Which bytes it holds is not claimed: the crate reads four bytes at a
/// time in the byte order of the machine, so they may differ between
/// machines.
#[verifier::external_body]
pub(crate) fn lz4_compress(plain: &Vec<u8>) -> (r: Vec<u8>)
    ensures
        r.len() > 0,
        lz4_expanded(r@) == Some(plain@),
{
    lz4_compression::compress::compress(plain)
}

/// The four bytes of a length, least significant first.
pub open spec fn le_bytes(n: nat) -> Seq<u8> {
    seq![
        (n % 256) as u8,
        (n / 256 % 256) as u8,
        (n / 65536 % 256) as u8,
        (n / 16777216 % 256) as u8,
    ]
}

/// The length that four bytes denote, least significant first.
pub open spec fn le_value(b: Seq<u8>) -> nat {
    (b[0] + 256 * b[1] + 65536 * b[2] + 16777216 * b[3]) as nat
}

/// The frame that carries `payload`.
pub open spec fn frame_of(payload: Seq<u8>) -> Seq<u8> {
    le_bytes(payload.len()) + payload
}

/// The frame that ends the stream: a length of zero and no payload.
pub open spec fn end_frame() -> Seq<u8> {
    seq![0u8, 0u8, 0u8, 0u8]
}

/// What a length prefix announces.
#[derive(Debug, Clone, Copy, PartialEq, Eq)]
pub enum Header {
    /// The stream ends here; no payload follows.
    End,
    /// A payload of this many bytes follows.
    Payload(usize),
}

/// What the bytes of a length prefix announce. Anything but four bytes is a
/// prefix cut short, and a length above the largest payload is refused.
pub open spec fn header_of(prefix: Seq<u8>) -> Result<Header, RecError> {
    if prefix.len() != PREFIX_LEN {
        Err(RecError::ProtocolViolation)
    } else if le_value(prefix) == 0 {
        Ok(Header::End)
    } else if le_value(prefix) > MAX_PAYLOAD {
        Err(RecError::ProtocolViolation)
    } else {
        Ok(Header::Payload(le_value(prefix) as usize))
    }
}

/// The batch that a payload of the announced length carries. A payload of
/// another length was cut short; one that does not expand is refused.
pub open spec fn batch_of(announced: usize, payload: Seq<u8>) -> Result<Seq<u8>, RecError> {
    if payload.len() != announced || payload.len() > MAX_PAYLOAD {
        Err(RecError::ProtocolViolation)
    } else {
        match lz4_expanded(payload) {
            Some(plain) => Ok(plain),
            None => Err(RecError::CompressionError),
        }
    }
}

/// Whether `packed` is a packed form of `batch`: it is not empty, and it
/// expands to the batch.
pub open spec fn packs(packed: Seq<u8>, batch: Seq<u8>) -> bool {
    packed.len() > 0 && lz4_expanded(packed) == Some(batch)
}

/// What becomes of a payload: the frame that carries it, where it is not
/// empty and not above the largest payload; else the refusal.
pub open spec fn framed(payload: Seq<u8>) -> Result<Seq<u8>, RecError> {
    if 0 < payload.len() <= MAX_PAYLOAD {
        Ok(frame_of(payload))
    } else {
        Err(RecError::ProtocolViolation)
    }
}

/// The bytes of a result, where it holds any.
pub open spec fn bytes_of(r: Result<Vec<u8>, RecError>) -> Result<Seq<u8>, RecError> {
    match r {
        Ok(bytes) => Ok(bytes@),
        Err(e) => Err(e),
    }
}

/// Whether `frame` carries a payload that may be sent and that expands to `batch`.
pub open spec fn carries(frame: Seq<u8>, batch: Seq<u8>) -> bool {
    &&& frame.len() > PREFIX_LEN
    &&& frame.len() - PREFIX_LEN <= MAX_PAYLOAD
    &&& frame == frame_of(frame.skip(PREFIX_LEN as int))
    &&& lz4_expanded(frame.skip(PREFIX_LEN as int)) == Some(batch)
}

/// The four bytes of a length read back as that length.
pub proof fn lemma_le_round_trip(n: nat)
    requires
        n <= u32::MAX,
    ensures
        le_bytes(n).len() == PREFIX_LEN,
        le_value(le_bytes(n)) == n,
{
}

/// A frame that carries a batch announces its payload, and the payload gives
/// back the batch: what one side seals, the other side opens.
pub proof fn lemma_frame_round_trip(frame: Seq<u8>, batch: Seq<u8>)
    requires
        carries(frame, batch),
    ensures
        header_of(frame.take(PREFIX_LEN as int)) == Ok::<Header, RecError>(
            Header::Payload((frame.len() - PREFIX_LEN) as usize),
        ),
        batch_of((frame.len() - PREFIX_LEN) as usize, frame.skip(PREFIX_LEN as int)) == Ok::<
            Seq<u8>,
            RecError,
        >(batch),
{
    let payload = frame.skip(PREFIX_LEN as int);
    lemma_le_round_trip(payload.len());
    assert(frame.take(PREFIX_LEN as int) =~= le_bytes(payload.len()));
}

/// The frame of a packed form of a batch carries the batch.
pub proof fn lemma_framed_carries(packed: Seq<u8>, batch: Seq<u8>)
    requires
        packs(packed, batch),
    ensures
        framed(packed) matches Ok(frame) ==> carries(frame, batch),
{
    if 0 < packed.len() <= MAX_PAYLOAD {
        let frame = frame_of(packed);
        assert(frame.skip(PREFIX_LEN as int) =~= packed);
    }
}

/// The frame that ends the stream announces the end.
pub proof fn lemma_end_frame()
    ensures
        header_of(end_frame()) == Ok::<Header, RecError>(Header::End),
        end_frame() == le_bytes(0),
{
    assert(end_frame() =~= le_bytes(0));
}

/// The four bytes of the length `n`.
pub fn length_prefix(n: u32) -> (b: Vec<u8>)
    ensures
        b@ == le_bytes(n as nat),
{
    let mut b: Vec<u8> = Vec::new();
    b.push((n % 256) as u8);
    b.push((n / 256 % 256) as u8);
    b.push((n / 65536 % 256) as u8);
    b.push((n / 16777216 % 256) as u8);
    assert(b@ =~= le_bytes(n as nat));
    b
}

/// The frame that ends the stream.
pub fn closing_frame() -> (b: Vec<u8>)
    ensures
        b@ == end_frame(),
{
    let mut b: Vec<u8> = Vec::new();
    b.push(0);
    b.push(0);
    b.push(0);
    b.push(0);
    assert(b@ =~= end_frame());
    b
}

/// What the length prefix `prefix` announces.
pub fn read_header(prefix: &Vec<u8>) -> (r: Result<Header, RecError>)
    ensures
        r == header_of(prefix@),
{
    if prefix.len() != PREFIX_LEN {
        return Err(RecError::ProtocolViolation);
    }
    let n: u64 = prefix[0] as u64 + 256 * (prefix[1] as u64) + 65536 * (prefix[2] as u64) + 16777216
        * (prefix[3] as u64);
    if n == 0 {
        Ok(Header::End)
    } else if n > MAX_PAYLOAD as u64 {
        Err(RecError::ProtocolViolation)
    } else {
        Ok(Header::Payload(n as usize))
    }
}

/// The frame that carries `payload`. A payload that is empty or above the
/// largest one is refused: the first would end the stream, the second would
/// be refused by the reader.
pub fn frame_payload(payload: Vec<u8>) -> (r: Result<Vec<u8>, RecError>)
    ensures
        bytes_of(r) == framed(payload@),
{
    if payload.len() == 0 || payload.len() > MAX_PAYLOAD {
        return Err(RecError::ProtocolViolation);
    }
    let mut frame = length_prefix(payload.len() as u32);
    let mut payload = payload;
    let ghost bytes = payload@;
    frame.append(&mut payload);
    assert(frame@ =~= frame_of(bytes));
    Ok(frame)
}

/// Packs a batch and puts it into a frame. There is a packed form of the
/// batch of which the result is the frame, or the refusal where that form may
/// not be sent. A frame that comes back carries the batch.
pub fn seal(batch: &Vec<u8>) -> (r: Result<Vec<u8>, RecError>)
    ensures
        exists|packed: Seq<u8>| #[trigger] packs(packed, batch@) && bytes_of(r) == framed(packed),
        r matches Ok(frame) ==> carries(frame@, batch@),
{
    let payload = lz4_compress(batch);
    let ghost packed = payload@;
    let r = frame_payload(payload);
    proof {
        assert(packs(packed, batch@) && bytes_of(r) == framed(packed));
        lemma_framed_carries(packed, batch@);
    }
    r
}

/// The batch that the payload carries, where the payload has the announced
/// length and expands.
pub fn open_payload(announced: usize, payload: &Vec<u8>) -> (r: Result<Vec<u8>, RecError>)
    ensures
        match r {
            Ok(plain) => batch_of(announced, payload@) == Ok::<Seq<u8>, RecError>(plain@),
            Err(e) => batch_of(announced, payload@) == Err::<Seq<u8>, RecError>(e),
        },
{
    if payload.len() != announced || payload.len() > MAX_PAYLOAD {
        return Err(RecError::ProtocolViolation);
    }
    match lz4_decompress(payload) {
        Ok(plain) => Ok(plain),
        Err(_) => Err(RecError::CompressionError),
    }
}

} // verus!
