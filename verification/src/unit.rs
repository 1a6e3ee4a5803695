//! The unit layer: one opaque payload per frame, behind a four-byte
//! big-endian length.

use vstd::prelude::*;

verus! {

/// Why bytes from the wire were refused, or a payload could not be framed.
#[derive(Clone, Copy, Debug, PartialEq, Eq, Structural)]
pub enum WireError {
    /// A bad frame: an unknown tag, a wrong length, or a length beyond the
    /// configured bound.
    ProtocolViolation,
}

/// The recommended bound on the size of a frame: 16 MiB.
pub const MAX_FRAME_BYTES: u32 = 16_777_216;

/// The byte of `n` that stands `shift` bits from its low end.
pub open spec fn byte_at(n: u32, shift: u32) -> u8 {
    ((n >> shift) & 0xff) as u8
}

/// The four bytes of `n`, the most significant first.
pub open spec fn be_bytes(n: u32) -> Seq<u8> {
    seq![byte_at(n, 24), byte_at(n, 16), byte_at(n, 8), byte_at(n, 0)]
}

/// The number that four bytes stand for, the most significant first.
pub open spec fn be_value(b0: u8, b1: u8, b2: u8, b3: u8) -> u32 {
    ((b0 as u32) << 24) | ((b1 as u32) << 16) | ((b2 as u32) << 8) | (b3 as u32)
}

/// The number that the first four bytes of a sequence stand for.
pub open spec fn be_read(bytes: Seq<u8>) -> u32
    recommends
        bytes.len() >= 4,
{
    be_value(bytes[0], bytes[1], bytes[2], bytes[3])
}

/// Reading the four bytes of a number gives the number back.
pub proof fn lemma_be_roundtrip(n: u32)
    ensures
        be_read(be_bytes(n)) == n,
        be_bytes(n).len() == 4,
{
    assert(be_value(
        ((n >> 24) & 0xff) as u8,
        ((n >> 16) & 0xff) as u8,
        ((n >> 8) & 0xff) as u8,
        ((n >> 0) & 0xff) as u8,
    ) == n) by (bit_vector);
}

/// Appends the four bytes of `n`, the most significant first.
pub fn put_u32(buffer: &mut Vec<u8>, n: u32)
    ensures
        final(buffer)@ == old(buffer)@ + be_bytes(n),
{
    assert(((n >> 24) & 0xff) < 256 && ((n >> 16) & 0xff) < 256 && ((n >> 8) & 0xff) < 256 && ((n
        >> 0) & 0xff) < 256) by (bit_vector);
    buffer.push(((n >> 24) & 0xff) as u8);
    buffer.push(((n >> 16) & 0xff) as u8);
    buffer.push(((n >> 8) & 0xff) as u8);
    buffer.push(((n >> 0) & 0xff) as u8);
    assert(buffer@ =~= old(buffer)@ + be_bytes(n));
}

/// Reads the number that stands in four bytes from `at` on.
pub fn get_u32(bytes: &[u8], at: usize) -> (n: u32)
    requires
        at + 4 <= bytes@.len(),
    ensures
        n == be_read(bytes@.skip(at as int)),
{
    let b0: u8 = bytes[at];
    let b1: u8 = bytes[at + 1];
    let b2: u8 = bytes[at + 2];
    let b3: u8 = bytes[at + 3];
    ((b0 as u32) << 24) | ((b1 as u32) << 16) | ((b2 as u32) << 8) | (b3 as u32)
}

/// Appends all of `bytes`.
pub fn put_bytes(buffer: &mut Vec<u8>, bytes: &[u8])
    ensures
        final(buffer)@ == old(buffer)@ + bytes@,
{
    let mut i: usize = 0;
    while i < bytes.len()
        invariant
            i <= bytes@.len(),
            buffer@ == old(buffer)@ + bytes@.take(i as int),
        decreases bytes@.len() - i,
    {
        buffer.push(bytes[i]);
        assert(buffer@ =~= old(buffer)@ + bytes@.take(i as int + 1));
        i += 1;
    }
    assert(bytes@.take(bytes@.len() as int) =~= bytes@);
}

/// The bytes from `from` up to `to`.
pub fn copy_range(bytes: &[u8], from: usize, to: usize) -> (copy: Vec<u8>)
    requires
        from <= to <= bytes@.len(),
    ensures
        copy@ == bytes@.subrange(from as int, to as int),
{
    let mut copy: Vec<u8> = Vec::new();
    let mut i: usize = from;
    while i < to
        invariant
            from <= i <= to <= bytes@.len(),
            copy@ == bytes@.subrange(from as int, i as int),
        decreases to - i,
    {
        copy.push(bytes[i]);
        assert(copy@ =~= bytes@.subrange(from as int, i as int + 1));
        i += 1;
    }
    copy
}

/// A payload on the wire: its length in four bytes, then the payload.
pub open spec fn unit_frame(payload: Seq<u8>) -> Seq<u8>
    recommends
        payload.len() <= u32::MAX,
{
    be_bytes(payload.len() as u32) + payload
}

/// What the front of a byte stream holds: a whole frame, with its payload
/// and the number of bytes that it takes; not yet a whole frame (`None`); or
/// a header that announces more than the bound allows.
pub open spec fn unit_parse(bytes: Seq<u8>, max_frame_bytes: u32) -> Result<Option<(Seq<u8>, int)>, WireError> {
    if bytes.len() < 4 {
        Ok(None)
    } else if be_read(bytes) > max_frame_bytes {
        Err(WireError::ProtocolViolation)
    } else if bytes.len() < 4 + be_read(bytes) {
        Ok(None)
    } else {
        Ok(Some((bytes.subrange(4, 4 + be_read(bytes)), 4 + be_read(bytes))))
    }
}

/// The sending half of the unit layer: bytes gather in a buffer, and `flush`
/// turns the buffer into one frame.
#[derive(Debug)]
pub struct UnitSender {
    buffer: Vec<u8>,
}

impl UnitSender {
    /// The bytes gathered since the last flush.
    pub closed spec fn view(&self) -> Seq<u8> {
        self.buffer@
    }

    pub fn new() -> (sender: UnitSender)
        ensures
            sender@ == Seq::<u8>::empty(),
    {
        UnitSender { buffer: Vec::new() }
    }

    /// Adds bytes to the buffer.
    pub fn write(&mut self, bytes: &[u8])
        ensures
            final(self)@ == old(self)@ + bytes@,
    {
        put_bytes(&mut self.buffer, bytes);
    }

    /// The frame of what the buffer holds, to be written to the socket in
    /// one pass; the buffer is empty afterwards. A buffer beyond the bound
    /// is refused and emptied as well.
    pub fn flush(&mut self, max_frame_bytes: u32) -> (frame: Result<Vec<u8>, WireError>)
        ensures
            final(self)@ == Seq::<u8>::empty(),
            frame.is_ok() <==> old(self)@.len() <= max_frame_bytes,
            frame.is_ok() ==> frame.unwrap()@ == unit_frame(old(self)@),
    {
        let mut payload: Vec<u8> = Vec::new();
        std::mem::swap(&mut self.buffer, &mut payload);
        if payload.len() > max_frame_bytes as usize {
            return Err(WireError::ProtocolViolation);
        }
        let mut frame: Vec<u8> = Vec::new();
        put_u32(&mut frame, payload.len() as u32);
        put_bytes(&mut frame, payload.as_slice());
        assert(frame@ =~= unit_frame(payload@));
        Ok(frame)
    }
}

/// One payload as a frame.
pub fn unit_send(payload: &[u8], max_frame_bytes: u32) -> (frame: Result<Vec<u8>, WireError>)
    ensures
        frame.is_ok() <==> payload@.len() <= max_frame_bytes,
        frame.is_ok() ==> frame.unwrap()@ == unit_frame(payload@),
{
    let mut sender = UnitSender::new();
    sender.write(payload);
    assert(Seq::<u8>::empty() + payload@ =~= payload@);
    sender.flush(max_frame_bytes)
}

/// Takes one frame from the front of the bytes received so far.
pub fn unit_receive(bytes: &[u8], max_frame_bytes: u32) -> (parsed: Result<Option<(Vec<u8>, usize)>, WireError>)
    ensures
        match unit_parse(bytes@, max_frame_bytes) {
            Ok(Some((payload, taken))) => parsed.is_ok() && parsed.unwrap().is_some()
                && parsed.unwrap().unwrap().0@ == payload && parsed.unwrap().unwrap().1 == taken,
            Ok(None) => parsed == Ok::<Option<(Vec<u8>, usize)>, WireError>(None),
            Err(error) => parsed == Err::<Option<(Vec<u8>, usize)>, WireError>(error),
        },
{
    if bytes.len() < 4 {
        return Ok(None);
    }
    let length: u32 = get_u32(bytes, 0);
    assert(bytes@.skip(0) =~= bytes@);
    if length > max_frame_bytes {
        return Err(WireError::ProtocolViolation);
    }
    if bytes.len() - 4 < length as usize {
        return Ok(None);
    }
    let end: usize = 4 + length as usize;
    Ok(Some((copy_range(bytes, 4, end), end)))
}

/// A payload within the bound comes back from its frame as it went in,
/// whatever follows the frame on the wire.
pub proof fn lemma_unit_roundtrip(payload: Seq<u8>, max_frame_bytes: u32, rest: Seq<u8>)
    requires
        payload.len() <= max_frame_bytes,
    ensures
        unit_parse(unit_frame(payload) + rest, max_frame_bytes) == Ok::<Option<(Seq<u8>, int)>, WireError>(
            Some((payload, 4 + payload.len() as int)),
        ),
{
    let n = payload.len() as u32;
    let wire = unit_frame(payload) + rest;
    lemma_be_roundtrip(n);
    assert(wire[0] == be_bytes(n)[0] && wire[1] == be_bytes(n)[1] && wire[2] == be_bytes(n)[2] && wire[3]
        == be_bytes(n)[3]);
    assert(be_read(wire) == n);
    assert(wire.subrange(4, 4 + n) =~= payload);
}

} // verus!
