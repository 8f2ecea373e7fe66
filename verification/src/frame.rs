//! Wire framing: one message on the wire is a 4-byte little-endian unsigned
//! length followed by exactly that many payload bytes. There is no version
//! byte, handshake or acknowledgement; a connection carries a bare stream of
//! independently framed payloads.

use vstd::prelude::*;

verus! {

/// The four little-endian bytes of a frame's length field.
pub open spec fn len_bytes(n: u32) -> Seq<u8> {
    seq![
        (n & 0xff) as u8,
        ((n >> 8) & 0xff) as u8,
        ((n >> 16) & 0xff) as u8,
        ((n >> 24) & 0xff) as u8,
    ]
}

/// The length value carried by four little-endian header bytes.
pub open spec fn word_of(b0: u8, b1: u8, b2: u8, b3: u8) -> u32 {
    (b0 as u32) | ((b1 as u32) << 8) | ((b2 as u32) << 16) | ((b3 as u32) << 24)
}

/// The frame that carries `payload`: its length field always equals the
/// exact byte length of the payload that follows.
pub open spec fn frame_of(payload: Seq<u8>) -> Seq<u8>
    recommends
        payload.len() <= u32::MAX,
{
    len_bytes(payload.len() as u32) + payload
}

/// Reads `data` as one complete frame: the payload, when `data` begins with
/// a header whose length field matches the bytes that remain; nothing
/// otherwise.
pub open spec fn parse_of(data: Seq<u8>) -> Option<Seq<u8>> {
    if data.len() >= 4 && word_of(data[0], data[1], data[2], data[3]) == data.len() - 4 {
        Some(data.skip(4))
    } else {
        None
    }
}

/// The little-endian header bytes of `n` decode back to `n`.
pub proof fn lemma_word_of_len_bytes(n: u32)
    ensures
        word_of(
            (n & 0xff) as u8,
            ((n >> 8) & 0xff) as u8,
            ((n >> 16) & 0xff) as u8,
            ((n >> 24) & 0xff) as u8,
        ) == n,
{
    assert(((n & 0xff) as u8 as u32) | (((n >> 8) & 0xff) as u8 as u32) << 8 | (((n >> 16)
        & 0xff) as u8 as u32) << 16 | (((n >> 24) & 0xff) as u8 as u32) << 24 == n)
        by (bit_vector);
}

/// Round trip of the framing layer: a frame built from any payload the
/// length field can describe parses back to exactly that payload.
pub proof fn lemma_frame_round_trip(payload: Seq<u8>)
    requires
        payload.len() <= u32::MAX,
    ensures
        parse_of(frame_of(payload)) == Some(payload),
{
    let n = payload.len() as u32;
    let data = frame_of(payload);
    lemma_word_of_len_bytes(n);
    assert(data[0] == (n & 0xff) as u8);
    assert(data[1] == ((n >> 8) & 0xff) as u8);
    assert(data[2] == ((n >> 16) & 0xff) as u8);
    assert(data[3] == ((n >> 24) & 0xff) as u8);
    assert(data.skip(4) =~= payload);
}

/// A connection's outbound byte stream: the frames of `payloads`, in send
/// order, with nothing in between.
pub open spec fn stream_of(payloads: Seq<Seq<u8>>) -> Seq<u8>
    decreases payloads.len(),
{
    if payloads.len() == 0 {
        Seq::empty()
    } else {
        frame_of(payloads[0]) + stream_of(payloads.skip(1))
    }
}

/// The payloads a reader takes off a byte stream, frame by frame: while a
/// complete header and body lie ahead, one payload each; a truncated tail
/// delivers nothing further.
pub open spec fn deliveries(bytes: Seq<u8>) -> Seq<Seq<u8>>
    decreases bytes.len(),
{
    if bytes.len() >= 4 {
        let n = word_of(bytes[0], bytes[1], bytes[2], bytes[3]) as int;
        if bytes.len() - 4 >= n {
            seq![bytes.subrange(4, 4 + n)] + deliveries(bytes.skip(4 + n))
        } else {
            seq![]
        }
    } else {
        seq![]
    }
}

/// Delivery over one connection: the stream that carries any sequence of
/// payloads yields exactly those payloads, in order, each exactly once.
pub proof fn lemma_stream_delivery(payloads: Seq<Seq<u8>>)
    requires
        forall|i: int| 0 <= i < payloads.len() ==> #[trigger] payloads[i].len() <= u32::MAX,
    ensures
        deliveries(stream_of(payloads)) == payloads,
    decreases payloads.len(),
{
    if payloads.len() == 0 {
        assert(deliveries(stream_of(payloads)) =~= payloads);
    } else {
        let p = payloads[0];
        let n = p.len() as u32;
        let rest = stream_of(payloads.skip(1));
        let bytes = stream_of(payloads);
        lemma_word_of_len_bytes(n);
        assert(bytes[0] == (n & 0xff) as u8);
        assert(bytes[1] == ((n >> 8) & 0xff) as u8);
        assert(bytes[2] == ((n >> 16) & 0xff) as u8);
        assert(bytes[3] == ((n >> 24) & 0xff) as u8);
        assert(bytes.len() == 4 + p.len() + rest.len());
        assert(bytes.subrange(4, 4 + p.len() as int) =~= p);
        assert(bytes.skip(4 + p.len() as int) =~= rest);
        lemma_stream_delivery(payloads.skip(1));
        assert(deliveries(bytes) == seq![p] + payloads.skip(1));
        assert(seq![p] + payloads.skip(1) =~= payloads);
    }
}

/// The four little-endian bytes of a frame length.
pub fn encode_len(n: u32) -> (r: Vec<u8>)
    ensures
        r@ == len_bytes(n),
{
    let mut v: Vec<u8> = Vec::new();
    proof {
        assert(n & 0xff < 256 && (n >> 8) & 0xff < 256 && (n >> 16) & 0xff < 256 && (n >> 24)
            & 0xff < 256) by (bit_vector);
    }
    v.push((n & 0xff) as u8);
    v.push(((n >> 8) & 0xff) as u8);
    v.push(((n >> 16) & 0xff) as u8);
    v.push(((n >> 24) & 0xff) as u8);
    proof {
        assert(v@ =~= len_bytes(n));
    }
    v
}

/// The length value carried by a 4-byte header.
pub fn decode_len(header: &Vec<u8>) -> (r: u32)
    requires
        header@.len() == 4,
    ensures
        r == word_of(header@[0], header@[1], header@[2], header@[3]),
{
    (header[0] as u32) | ((header[1] as u32) << 8) | ((header[2] as u32) << 16) | ((
    header[3] as u32) << 24)
}

/// Builds the frame that carries `payload`: the little-endian length field,
/// then the payload bytes unchanged.
pub fn encode_frame(payload: &Vec<u8>) -> (r: Vec<u8>)
    requires
        payload@.len() <= u32::MAX,
    ensures
        r@ == frame_of(payload@),
        r@.len() == payload@.len() + 4,
{
    let n = payload.len() as u32;
    let mut v = encode_len(n);
    let mut i: usize = 0;
    while i < payload.len()
        invariant
            i <= payload@.len(),
            payload@.len() <= u32::MAX,
            n == payload@.len() as u32,
            v@ == len_bytes(n) + payload@.take(i as int),
        decreases payload@.len() - i,
    {
        v.push(payload[i]);
        proof {
            assert(v@ =~= len_bytes(n) + payload@.take(i + 1));
        }
        i = i + 1;
    }
    proof {
        assert(payload@.take(payload@.len() as int) =~= payload@);
    }
    v
}

/// Reads `data` as one complete frame, exactly as `parse_of` says: the
/// payload when the length field matches the bytes after the header, and
/// nothing on a short or mismatched frame.
pub fn parse_frame(data: &Vec<u8>) -> (r: Option<Vec<u8>>)
    ensures
        match r {
            Some(p) => parse_of(data@) == Some(p@),
            None => parse_of(data@) is None,
        },
{
    if data.len() < 4 {
        return None;
    }
    let n = (data[0] as u32) | ((data[1] as u32) << 8) | ((data[2] as u32) << 16) | ((
    data[3] as u32) << 24);
    if n as usize != data.len() - 4 {
        return None;
    }
    let mut p: Vec<u8> = Vec::new();
    let mut i: usize = 4;
    while i < data.len()
        invariant
            4 <= i <= data@.len(),
            p@ == data@.subrange(4, i as int),
        decreases data@.len() - i,
    {
        p.push(data[i]);
        proof {
            assert(p@ =~= data@.subrange(4, i + 1));
        }
        i = i + 1;
    }
    proof {
        assert(p@ =~= data@.skip(4));
    }
    Some(p)
}

} // verus!
