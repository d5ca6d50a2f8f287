//! Length prefixed framing of messages.
//!
//! Every message exchanged between the control layer, compute nodes and the
//! interface is a 4 byte big endian length followed by that many bytes of
//! payload.

use vstd::prelude::*;

verus! {

/// 2^32, the number of values a length prefix can take.
pub open spec fn prefix_modulus() -> nat {
    4294967296
}

/// The four big endian bytes of `n`, for `n < 2^32`.
pub open spec fn be_u32_bytes(n: nat) -> Seq<u8> {
    seq![
        (n / 16777216 % 256) as u8,
        (n / 65536 % 256) as u8,
        (n / 256 % 256) as u8,
        (n % 256) as u8,
    ]
}

/// The number whose big endian encoding is the first four bytes of `b`.
pub open spec fn be_u32_value(b: Seq<u8>) -> nat {
    (b[0] as nat) * 16777216 + (b[1] as nat) * 65536 + (b[2] as nat) * 256 + (b[3] as nat)
}

/// The framed form of `payload`: its length modulo 2^32 in big endian, then
/// the payload itself.
pub open spec fn framed(payload: Seq<u8>) -> Seq<u8> {
    be_u32_bytes(payload.len() % prefix_modulus()) + payload
}

/// Decodes the four bytes of a length prefix.
pub fn decode_length_prefix(prefix: [u8; 4]) -> (size: u32)
    ensures
        size as nat == be_u32_value(prefix@),
{
    let b0 = prefix[0] as u32;
    let b1 = prefix[1] as u32;
    let b2 = prefix[2] as u32;
    let b3 = prefix[3] as u32;
    b0 * 16777216 + b1 * 65536 + b2 * 256 + b3
}

/// Encodes a length as the four bytes of a prefix.
pub fn encode_length_prefix(size: u32) -> (prefix: [u8; 4])
    ensures
        prefix@ == be_u32_bytes(size as nat),
{
    let b0 = (size / 16777216 % 256) as u8;
    let b1 = (size / 65536 % 256) as u8;
    let b2 = (size / 256 % 256) as u8;
    let b3 = (size % 256) as u8;
    let prefix = [b0, b1, b2, b3];
    assert(prefix@ =~= be_u32_bytes(size as nat));
    prefix
}


/// The payload of the frame at the start of `bytes`, if `bytes` holds a
/// whole frame.
pub open spec fn parse_frame(bytes: Seq<u8>) -> Option<Seq<u8>> {
    if bytes.len() < 4 {
        None
    } else {
        let n = be_u32_value(bytes);
        if bytes.len() < 4 + n {
            None
        } else {
            Some(bytes.subrange(4, 4 + n as int))
        }
    }
}

/// Decoding the encoding of a length gives back the length.
pub proof fn lemma_prefix_value_roundtrip(n: nat)
    requires
        n < prefix_modulus(),
    ensures
        be_u32_value(be_u32_bytes(n)) == n,
{
    let b = be_u32_bytes(n);
    assert(b[0] as nat == n / 16777216 % 256);
    assert(b[1] as nat == n / 65536 % 256);
    assert(b[2] as nat == n / 256 % 256);
    assert(b[3] as nat == n % 256);
    assert((n / 16777216 % 256) * 16777216 + (n / 65536 % 256) * 65536 + (n / 256 % 256) * 256
        + n % 256 == n) by (nonlinear_arith)
        requires
            n < 4294967296,
    ;
}

/// Encoding the value of four bytes gives back those bytes.
pub proof fn lemma_prefix_bytes_roundtrip(b: Seq<u8>)
    requires
        b.len() == 4,
    ensures
        be_u32_bytes(be_u32_value(b)) == b,
        be_u32_value(b) < prefix_modulus(),
{
    let n = be_u32_value(b);
    let (b0, b1, b2, b3) = (b[0] as nat, b[1] as nat, b[2] as nat, b[3] as nat);
    assert(n / 16777216 % 256 == b0 && n / 65536 % 256 == b1 && n / 256 % 256 == b2 && n % 256
        == b3 && n < 4294967296) by (nonlinear_arith)
        requires
            n == b0 * 16777216 + b1 * 65536 + b2 * 256 + b3,
            b0 < 256,
            b1 < 256,
            b2 < 256,
            b3 < 256,
    ;
    assert(be_u32_bytes(n) =~= b);
}

/// Framing is undone by parsing: whatever follows a frame in a stream, the
/// frame at its start gives back the payload that was framed, provided the
/// payload's length fits in the prefix.
pub proof fn lemma_parse_framed(payload: Seq<u8>, rest: Seq<u8>)
    requires
        payload.len() < prefix_modulus(),
    ensures
        parse_frame(framed(payload) + rest) == Some(payload),
{
    let n = payload.len();
    let s = framed(payload) + rest;
    lemma_prefix_value_roundtrip(n);
    assert(s.take(4) =~= be_u32_bytes(n));
    assert(be_u32_value(s) == be_u32_value(be_u32_bytes(n)));
    assert(s.subrange(4, 4 + n as int) =~= payload);
}

/// Frames a payload: prepends its length, as four big endian bytes, to it.
///
/// A payload of `2^32` bytes or more is given the length modulo `2^32`, as
/// the conversion of the length to `u32` truncates.
pub fn write_length_prefix(payload: &[u8]) -> (message: Vec<u8>)
    ensures
        message@ == framed(payload@),
{
    let len: u64 = payload.len() as u64;
    let size: u32 = (len % 4294967296) as u32;
    let prefix = encode_length_prefix(size);
    let mut message: Vec<u8> = Vec::new();
    message.push(prefix[0]);
    message.push(prefix[1]);
    message.push(prefix[2]);
    message.push(prefix[3]);
    assert(message@ =~= be_u32_bytes(size as nat));
    let mut i: usize = 0;
    while i < payload.len()
        invariant
            i <= payload@.len(),
            size as nat == payload@.len() % prefix_modulus(),
            message@ =~= be_u32_bytes(size as nat) + payload@.take(i as int),
        decreases payload@.len() - i,
    {
        message.push(payload[i]);
        i += 1;
        assert(payload@.take(i as int) =~= payload@.take(i - 1).push(payload@[i - 1]));
    }
    assert(payload@.take(i as int) =~= payload@);
    message
}

/// Parses the frame at the start of `bytes`, giving its payload, or `None`
/// when `bytes` is shorter than the prefix or than the length it announces.
pub fn parse_length_prefixed(bytes: &[u8]) -> (payload: Option<Vec<u8>>)
    ensures
        payload is None <==> parse_frame(bytes@) is None,
        payload matches Some(p) ==> parse_frame(bytes@) == Some(p@),
{
    if bytes.len() < 4 {
        return None;
    }
    let size = decode_length_prefix([bytes[0], bytes[1], bytes[2], bytes[3]]);
    assert(be_u32_value(seq![bytes@[0], bytes@[1], bytes@[2], bytes@[3]]) == be_u32_value(bytes@));
    let total: u64 = size as u64 + 4;
    if (bytes.len() as u64) < total {
        return None;
    }
    let end: usize = total as usize;
    let mut out: Vec<u8> = Vec::new();
    let mut i: usize = 4;
    while i < end
        invariant
            4 <= i <= end,
            end == 4 + be_u32_value(bytes@),
            end <= bytes@.len(),
            out@ =~= bytes@.subrange(4, i as int),
        decreases end - i,
    {
        out.push(bytes[i]);
        i += 1;
    }
    Some(out)
}


/// Reassembles the payload of one frame from the chunks that a stream yields
/// after the prefix, however the stream splits them.
pub struct FrameReader {
    expected: u32,
    received: Vec<u8>,
}

impl FrameReader {
    /// The payload length announced by the prefix.
    pub closed spec fn expected_len(&self) -> nat {
        self.expected as nat
    }

    /// The payload bytes received so far.
    pub closed spec fn received(&self) -> Seq<u8> {
        self.received@
    }

    /// No more bytes have been received than the prefix announced.
    pub closed spec fn wf(&self) -> bool {
        self.received@.len() <= self.expected
    }

    /// The number of payload bytes still to come.
    pub open spec fn spec_remaining(&self) -> nat {
        (self.expected_len() - self.received().len()) as nat
    }

    /// Starts reading the frame whose prefix is `prefix`.
    pub fn new(prefix: [u8; 4]) -> (reader: Self)
        ensures
            reader.wf(),
            reader.expected_len() == be_u32_value(prefix@),
            reader.received() == Seq::<u8>::empty(),
    {
        FrameReader { expected: decode_length_prefix(prefix), received: Vec::new() }
    }

    /// The number of payload bytes still to come.
    pub fn remaining(&self) -> (n: u32)
        requires
            self.wf(),
        ensures
            n == self.spec_remaining(),
    {
        self.expected - self.received.len() as u32
    }

    /// Whether the whole payload has been received.
    pub fn is_complete(&self) -> (done: bool)
        requires
            self.wf(),
        ensures
            done == (self.received().len() == self.expected_len()),
    {
        self.received.len() as u32 == self.expected
    }

    /// The most bytes the next read from the stream may take: the buffer's
    /// length, but never more than what remains of this frame.
    pub fn read_limit(&self, buffer_len: usize) -> (n: usize)
        requires
            self.wf(),
        ensures
            n == (if buffer_len < self.spec_remaining() {
                buffer_len as nat
            } else {
                self.spec_remaining()
            }),
    {
        let remaining = self.remaining();
        if (buffer_len as u64) < (remaining as u64) {
            buffer_len
        } else {
            remaining as usize
        }
    }

    /// Appends the bytes of one read to the payload.
    pub fn accept(&mut self, chunk: &[u8])
        requires
            old(self).wf(),
            chunk@.len() <= old(self).spec_remaining(),
        ensures
            final(self).wf(),
            final(self).expected_len() == old(self).expected_len(),
            final(self).received() == old(self).received() + chunk@,
    {
        let mut i: usize = 0;
        while i < chunk.len()
            invariant
                i <= chunk@.len(),
                self.expected == old(self).expected,
                self.received@ =~= old(self).received@ + chunk@.take(i as int),
                old(self).received@.len() + chunk@.len() <= old(self).expected,
            decreases chunk@.len() - i,
        {
            self.received.push(chunk[i]);
            i += 1;
            assert(chunk@.take(i as int) =~= chunk@.take(i - 1).push(chunk@[i - 1]));
        }
        assert(chunk@.take(i as int) =~= chunk@);
    }

    /// The payload of a completely read frame.
    pub fn into_payload(self) -> (payload: Vec<u8>)
        requires
            self.wf(),
            self.received().len() == self.expected_len(),
        ensures
            payload@ == self.received(),
    {
        self.received
    }
}

/// Reads one frame from the start of an in-memory stream the way a socket is
/// read: the prefix first, then reads of at most `buffer_len` bytes each, never
/// past the end of the frame.
///
/// The payload does not depend on the buffer's size. A stream that ends before
/// its frame does gives `None`.
pub fn read_length_prefixed(stream: &[u8], buffer_len: usize) -> (payload: Option<Vec<u8>>)
    requires
        buffer_len > 0,
    ensures
        payload is None <==> parse_frame(stream@) is None,
        payload matches Some(p) ==> parse_frame(stream@) == Some(p@),
{
    if stream.len() < 4 {
        return None;
    }
    let mut reader = FrameReader::new([stream[0], stream[1], stream[2], stream[3]]);
    assert(be_u32_value(seq![stream@[0], stream@[1], stream@[2], stream@[3]]) == be_u32_value(
        stream@,
    ));
    let mut pos: usize = 4;
    while !reader.is_complete()
        invariant
            reader.wf(),
            buffer_len > 0,
            4 <= pos <= stream@.len(),
            reader.expected_len() == be_u32_value(stream@),
            reader.received() =~= stream@.subrange(4, pos as int),
        decreases reader.spec_remaining(),
    {
        let want = reader.read_limit(buffer_len);
        let available = stream.len() - pos;
        let n = if want < available {
            want
        } else {
            available
        };
        if n == 0 {
            return None;
        }
        let chunk = vstd::slice::slice_subrange(stream, pos, pos + n);
        reader.accept(chunk);
        pos += n;
    }
    Some(reader.into_payload())
}

} // verus!
