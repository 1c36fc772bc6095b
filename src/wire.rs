use vstd::prelude::*;

verus! {

/// Number of bytes in the length header that precedes every frame on the wire.
pub const HEADER_LEN: usize = 4;

/// The value of a little-endian 32-bit header held in four bytes.
pub open spec fn le_u32(b: Seq<u8>) -> nat
    recommends
        b.len() == 4,
{
    b[0] as nat + 256 * (b[1] as nat) + 65536 * (b[2] as nat) + 16777216 * (b[3] as nat)
}

/// The four little-endian bytes of a 32-bit value.
pub open spec fn le_bytes(n: u32) -> Seq<u8> {
    seq![
        (n % 256) as u8,
        ((n / 256) % 256) as u8,
        ((n / 65536) % 256) as u8,
        ((n / 16777216) % 256) as u8,
    ]
}

/// A frame on the wire: its length as a little-endian header, then its bytes.
pub open spec fn frame_bytes(f: Seq<u8>) -> Seq<u8>
    recommends
        f.len() <= u32::MAX,
{
    le_bytes(f.len() as u32) + f
}

/// The end-of-session marker: a header of value zero.
pub open spec fn end_bytes() -> Seq<u8> {
    le_bytes(0)
}

/// What a receiver reads at the start of a stream.
pub enum Record {
    /// A frame of this many bytes, with its bytes.
    Frame(Seq<u8>),
    /// The end of the session.
    End,
}

/// What a receiver makes of the bytes `b`: the record they start with and how many
/// bytes it takes, or `None` while they do not yet hold a whole record.
pub open spec fn parse(b: Seq<u8>) -> Option<(Record, nat)> {
    if b.len() < 4 {
        None
    } else {
        let n = le_u32(b.take(4));
        if n == 0 {
            Some((Record::End, 4))
        } else if b.len() < 4 + n {
            None
        } else {
            Some((Record::Frame(b.subrange(4, 4 + n as int)), 4 + n))
        }
    }
}

/// A record as the receiver gets it.
pub enum Message {
    /// One frame's bytes.
    Frame(Vec<u8>),
    /// The sender ended the session.
    End,
}

impl View for Message {
    type V = Record;

    open spec fn view(&self) -> Record {
        match self {
            Message::Frame(f) => Record::Frame(f@),
            Message::End => Record::End,
        }
    }
}

proof fn lemma_le_round_trip(n: u32)
    ensures
        le_bytes(n).len() == 4,
        le_u32(le_bytes(n)) == n,
{
    assert(le_u32(le_bytes(n)) == n) by (nonlinear_arith);
}

/// Writes `n` as a little-endian 32-bit header.
pub fn encode_header(n: u32) -> (r: [u8; 4])
    ensures
        r@ == le_bytes(n),
        le_u32(r@) == n,
{
    let r = [(n % 256) as u8, ((n / 256) % 256) as u8, ((n / 65536) % 256) as u8, (n / 16777216) as u8];
    assert(r@ =~= le_bytes(n));
    proof {
        lemma_le_round_trip(n);
    }
    r
}

/// Reads a little-endian 32-bit header from the first four bytes of `b`.
pub fn decode_header(b: &[u8]) -> (r: u32)
    requires
        b@.len() >= 4,
    ensures
        r == le_u32(b@.take(4)),
{
    let r = b[0] as u32 + 256 * (b[1] as u32) + 65536 * (b[2] as u32) + 16777216 * (b[3] as u32);
    r
}

/// The bytes that carry one frame: a 4-byte little-endian length, then the frame.
pub fn encode_frame(frame: &[u8]) -> (r: Vec<u8>)
    requires
        0 < frame@.len() <= u32::MAX,
    ensures
        r@ == frame_bytes(frame@),
        r@.len() == 4 + frame@.len(),
{
    let header = encode_header(frame.len() as u32);
    let mut r: Vec<u8> = Vec::new();
    r.extend_from_slice(&header);
    r.extend_from_slice(frame);
    assert(r@ =~= frame_bytes(frame@));
    r
}

/// The bytes that end a session: a 4-byte header of value zero.
pub fn encode_end() -> (r: Vec<u8>)
    ensures
        r@ == end_bytes(),
{
    let header = encode_header(0);
    let mut r: Vec<u8> = Vec::new();
    r.extend_from_slice(&header);
    assert(r@ =~= end_bytes());
    r
}

/// Reads the record at the start of `b`, with the number of bytes it takes; `None`
/// while `b` does not yet hold a whole record.
pub fn decode(b: &[u8]) -> (r: Option<(Message, usize)>)
    ensures
        match r {
            None => parse(b@) is None,
            Some((m, used)) => parse(b@) == Some((m@, used as nat)),
        },
{
    if b.len() < HEADER_LEN {
        return None;
    }
    let n = decode_header(b);
    if n == 0 {
        return Some((Message::End, HEADER_LEN));
    }
    if b.len() - HEADER_LEN < n as usize {
        return None;
    }
    let end = HEADER_LEN + n as usize;
    let mut body: Vec<u8> = Vec::new();
    body.extend_from_slice(&b[HEADER_LEN..end]);
    assert(body@ =~= b@.subrange(4, 4 + n as int));
    Some((Message::Frame(body), end))
}

/// Reading back the bytes that carry a frame gives that frame, with its length, and
/// takes exactly four bytes more than the frame, whatever follows it.
pub proof fn lemma_frame_round_trip(f: Seq<u8>, rest: Seq<u8>)
    requires
        0 < f.len() <= u32::MAX,
    ensures
        frame_bytes(f).len() == 4 + f.len(),
        parse(frame_bytes(f) + rest) == Some((Record::Frame(f), 4 + f.len())),
{
    let b = frame_bytes(f) + rest;
    lemma_le_round_trip(f.len() as u32);
    assert(b.take(4) =~= le_bytes(f.len() as u32));
    assert(b.subrange(4, 4 + f.len() as int) =~= f);
}

/// The end-of-session marker reads as the end, whatever follows it, and the header of
/// a real frame, which is never empty, never reads as the end marker.
pub proof fn lemma_end_marker_distinct(f: Seq<u8>, rest: Seq<u8>)
    requires
        0 < f.len() <= u32::MAX,
    ensures
        parse(end_bytes() + rest) == Some((Record::End, 4nat)),
        frame_bytes(f).take(4) != end_bytes(),
        !(parse(frame_bytes(f) + rest) matches Some((Record::End, _))),
{
    lemma_le_round_trip(0);
    lemma_le_round_trip(f.len() as u32);
    assert((end_bytes() + rest).take(4) =~= end_bytes());
    assert(frame_bytes(f).take(4) =~= le_bytes(f.len() as u32));
    lemma_frame_round_trip(f, rest);
}

} // verus!
