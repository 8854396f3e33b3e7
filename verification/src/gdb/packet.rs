//! Packet framing: `$<body>#<checksum>`, where the checksum is the sum of
//! the body's bytes modulo 256 written as two hexadecimal digits, and `+`
//! acknowledges a packet.
use vstd::prelude::*;
use vstd::utf8::{length_of_first_scalar, pop_first_scalar, valid_first_scalar, valid_utf8};
use crate::gdb::hex::{byte_hex, hex_u8, lemma_byte_hex_roundtrip, parse_hex_u8, push_byte_hex};

verus! {

/// The byte `$` that opens a packet.
pub const PACKET_START: u8 = 36;

/// The byte `#` that ends a packet's body.
pub const PACKET_END: u8 = 35;

/// The acknowledgement byte `+`.
pub const ACK: u8 = 43;

/// The sum of the bytes of `s` modulo 256.
pub open spec fn checksum(s: Seq<u8>) -> u8
    decreases s.len(),
{
    if s.len() == 0 {
        0
    } else {
        ((checksum(s.drop_last()) as nat + s.last() as nat) % 256) as u8
    }
}

/// The index of the first occurrence of `c` in `s`.
pub open spec fn first_index_of(s: Seq<u8>, c: u8) -> Option<int> {
    if exists|i: int| 0 <= i < s.len() && s[i] == c {
        Some(choose|i: int| 0 <= i < s.len() && s[i] == c && forall|j: int| 0 <= j < i ==> s[j] != c)
    } else {
        None
    }
}

/// `$body#cs`: what the server writes to send `body`.
pub open spec fn framed(body: Seq<u8>) -> Seq<u8> {
    seq![PACKET_START] + body + seq![PACKET_END] + byte_hex(checksum(body))
}

/// The sum of the bytes of `body` modulo 256.
pub fn compute_checksum(body: &[u8]) -> (c: u8)
    ensures
        c == checksum(body@),
{
    let mut sum: u8 = 0;
    let mut i: usize = 0;
    while i < body.len()
        invariant
            i <= body@.len(),
            sum == checksum(body@.subrange(0, i as int)),
        decreases body@.len() - i,
    {
        proof {
            let t = body@.subrange(0, i as int + 1);
            assert(t.drop_last() =~= body@.subrange(0, i as int));
        }
        sum = sum.wrapping_add(body[i]);
        i = i + 1;
    }
    assert(body@.subrange(0, body@.len() as int) =~= body@);
    sum
}

/// The bytes that send `body` as one packet: `$`, the body, `#` and the
/// checksum in two lower-case hexadecimal digits.
pub fn frame_packet(body: &[u8]) -> (out: Vec<u8>)
    ensures
        out@ == framed(body@),
{
    let mut out: Vec<u8> = Vec::new();
    out.push(PACKET_START);
    let mut i: usize = 0;
    while i < body.len()
        invariant
            i <= body@.len(),
            out@ == seq![PACKET_START] + body@.subrange(0, i as int),
        decreases body@.len() - i,
    {
        out.push(body[i]);
        i = i + 1;
        assert(out@ =~= seq![PACKET_START] + body@.subrange(0, i as int));
    }
    assert(body@.subrange(0, body@.len() as int) =~= body@);
    out.push(PACKET_END);
    push_byte_hex(&mut out, compute_checksum(body));
    assert(out@ =~= framed(body@));
    out
}

/// What the start of the receive buffer holds.
#[derive(Debug, Clone, Copy, PartialEq, Eq)]
pub enum PacketScan {
    /// Nothing has been received.
    NoData,
    /// An acknowledgement: one byte to consume, no packet.
    Ack,
    /// The start of a packet whose end has not arrived yet.
    Incomplete,
    /// A whole packet whose body is `buffer[1..body_end]`; it takes
    /// `body_end + 3` bytes.
    Packet { body_end: usize },
}

/// Ways in which the received bytes break the protocol; the server gives
/// up on the connection when it meets one.
#[derive(Debug, Clone, Copy, PartialEq, Eq)]
pub enum ProtocolError {
    /// The buffer starts with neither `+` nor `$`.
    UnexpectedByte,
    /// The buffer is full and holds no `#`.
    BufferFull,
    /// The two checksum characters are not a hexadecimal number.
    MalformedChecksum,
    /// The checksum does not match the body.
    ChecksumMismatch,
    /// The body is not UTF-8.
    InvalidUtf8,
}

impl PacketScan {
    /// How many bytes of the buffer the scanned item takes.
    pub open spec fn spec_consumed(self) -> nat {
        match self {
            PacketScan::Ack => 1,
            PacketScan::Packet { body_end } => body_end as nat + 3,
            _ => 0,
        }
    }

    /// How many bytes of the buffer the scanned item takes.
    pub fn consumed(&self) -> (n: usize)
        requires
            self matches PacketScan::Packet { body_end } ==> body_end + 3 <= usize::MAX,
        ensures
            n == self.spec_consumed(),
    {
        match self {
            PacketScan::Ack => 1,
            PacketScan::Packet { body_end } => *body_end + 3,
            _ => 0,
        }
    }
}

/// How the server reads the start of a receive buffer of the given
/// capacity.
pub open spec fn scan(buf: Seq<u8>, capacity: nat) -> Result<PacketScan, ProtocolError> {
    if buf.len() == 0 {
        Ok(PacketScan::NoData)
    } else if buf[0] == ACK {
        Ok(PacketScan::Ack)
    } else if buf[0] != PACKET_START {
        Err(ProtocolError::UnexpectedByte)
    } else {
        match first_index_of(buf, PACKET_END) {
            None => if buf.len() == capacity {
                Err(ProtocolError::BufferFull)
            } else {
                Ok(PacketScan::Incomplete)
            },
            Some(e) => if buf.len() < e + 3 {
                Ok(PacketScan::Incomplete)
            } else {
                match hex_u8(buf.subrange(e + 1, e + 3)) {
                    None => Err(ProtocolError::MalformedChecksum),
                    Some(sum) => if sum != checksum(buf.subrange(1, e)) {
                        Err(ProtocolError::ChecksumMismatch)
                    } else if !valid_utf8(buf.subrange(1, e)) {
                        Err(ProtocolError::InvalidUtf8)
                    } else {
                        Ok(PacketScan::Packet { body_end: e as usize })
                    },
                }
            },
        }
    }
}

/// The length of the UTF-8 encoding of one scalar at the start of
/// `s[i..]`, if it starts with a well-formed one.
fn first_scalar_len(s: &[u8], i: usize) -> (r: Option<usize>)
    requires
        i < s@.len(),
    ensures
        match r {
            Some(n) => valid_first_scalar(s@.subrange(i as int, s@.len() as int)) && n
                == length_of_first_scalar(s@.subrange(i as int, s@.len() as int)),
            None => !valid_first_scalar(s@.subrange(i as int, s@.len() as int)),
        },
{
    let ghost t = s@.subrange(i as int, s@.len() as int);
    let rem = s.len() - i;
    let b0 = s[i];
    assert(t[0] == b0);
    if b0 <= 0x7f {
        assert((b0 & 0x7f) as u32 <= 0x7f) by (bit_vector);
        return Some(1);
    }
    if 0xc0 <= b0 && b0 <= 0xdf {
        if rem < 2 {
            return None;
        }
        let b1 = s[i + 1];
        assert(t[1] == b1);
        if !(0x80 <= b1 && b1 <= 0xbf) {
            return None;
        }
        let cp: u32 = (((b0 & 0x1f) as u32) << 6) | ((b1 & 0x3f) as u32);
        assert(cp <= 0x7ff) by (bit_vector)
            requires
                cp == (((b0 & 0x1f) as u32) << 6) | ((b1 & 0x3f) as u32),
        ;
        if cp < 0x80 {
            return None;
        }
        return Some(2);
    }
    if 0xe0 <= b0 && b0 <= 0xef {
        if rem < 3 {
            return None;
        }
        let b1 = s[i + 1];
        let b2 = s[i + 2];
        assert(t[1] == b1 && t[2] == b2);
        if !(0x80 <= b1 && b1 <= 0xbf) || !(0x80 <= b2 && b2 <= 0xbf) {
            return None;
        }
        let cp: u32 = (((b0 & 0x0f) as u32) << 12) | (((b1 & 0x3f) as u32) << 6) | ((b2 & 0x3f) as u32);
        if cp < 0x800 || (0xd800 <= cp && cp <= 0xdfff) {
            return None;
        }
        return Some(3);
    }
    if 0xf0 <= b0 && b0 <= 0xf7 {
        if rem < 4 {
            return None;
        }
        let b1 = s[i + 1];
        let b2 = s[i + 2];
        let b3 = s[i + 3];
        assert(t[1] == b1 && t[2] == b2 && t[3] == b3);
        if !(0x80 <= b1 && b1 <= 0xbf) || !(0x80 <= b2 && b2 <= 0xbf) || !(0x80 <= b3 && b3 <= 0xbf) {
            return None;
        }
        let cp: u32 = (((b0 & 0x07) as u32) << 18) | (((b1 & 0x3f) as u32) << 12) | (((b2 & 0x3f) as u32)
            << 6) | ((b3 & 0x3f) as u32);
        if cp < 0x10000 || cp > 0x10ffff {
            return None;
        }
        return Some(4);
    }
    None
}

/// Whether `bytes` is well-formed UTF-8.
pub fn is_utf8(bytes: &[u8]) -> (b: bool)
    ensures
        b == valid_utf8(bytes@),
{
    let n = bytes.len();
    let mut i: usize = 0;
    assert(bytes@.subrange(0, n as int) =~= bytes@);
    while i < n
        invariant
            i <= n,
            n == bytes@.len(),
            valid_utf8(bytes@) == valid_utf8(bytes@.subrange(i as int, n as int)),
        decreases n - i,
    {
        let ghost t = bytes@.subrange(i as int, n as int);
        match first_scalar_len(bytes, i) {
            None => {
                return false;
            },
            Some(k) => {
                assert(pop_first_scalar(t) =~= bytes@.subrange(i + k, n as int));
                i = i + k;
            },
        }
    }
    true
}

/// Finds the first `c` in `s`.
pub fn find_byte(s: &[u8], c: u8) -> (r: Option<usize>)
    ensures
        r is None <==> first_index_of(s@, c) is None,
        r matches Some(i) ==> first_index_of(s@, c) == Some(i as int) && i < s@.len() && s@[i as int] == c,
{
    let mut i: usize = 0;
    while i < s.len()
        invariant
            i <= s@.len(),
            forall|j: int| 0 <= j < i ==> s@[j] != c,
        decreases s@.len() - i,
    {
        if s[i] == c {
            proof {
                let w = choose|k: int|
                    0 <= k < s@.len() && s@[k] == c && forall|j: int| 0 <= j < k ==> s@[j] != c;
                assert(0 <= i < s@.len() && s@[i as int] == c && forall|j: int|
                    0 <= j < i ==> s@[j] != c);
                if w < i {
                } else if w > i {
                }
            }
            return Some(i);
        }
        i = i + 1;
    }
    None
}

/// Reads the start of the receive buffer (of capacity `capacity`): an
/// acknowledgement, a whole packet with a correct checksum, not enough
/// bytes yet, or a breach of the protocol.
pub fn scan_packet(buf: &[u8], capacity: usize) -> (r: Result<PacketScan, ProtocolError>)
    ensures
        r == scan(buf@, capacity as nat),
{
    if buf.len() == 0 {
        return Ok(PacketScan::NoData);
    }
    if buf[0] == ACK {
        return Ok(PacketScan::Ack);
    }
    if buf[0] != PACKET_START {
        return Err(ProtocolError::UnexpectedByte);
    }
    let e = match find_byte(buf, PACKET_END) {
        None => {
            if buf.len() == capacity {
                return Err(ProtocolError::BufferFull);
            } else {
                return Ok(PacketScan::Incomplete);
            }
        },
        Some(e) => e,
    };
    if buf.len() - e < 3 {
        return Ok(PacketScan::Incomplete);
    }
    let sum_text = vstd::slice::slice_subrange(buf, e + 1, e + 3);
    let sum = match parse_hex_u8(sum_text) {
        None => {
            return Err(ProtocolError::MalformedChecksum);
        },
        Some(v) => v,
    };
    let body = vstd::slice::slice_subrange(buf, 1, e);
    if sum != compute_checksum(body) {
        return Err(ProtocolError::ChecksumMismatch);
    }
    if !is_utf8(body) {
        return Err(ProtocolError::InvalidUtf8);
    }
    Ok(PacketScan::Packet { body_end: e })
}

/// A packet framed for sending is read back, whole, as the same body:
/// for a UTF-8 body without `#`, scanning a receive buffer (of any
/// capacity) that begins with `$body#cs`, whatever bytes follow (packets
/// queued behind it), finds a packet whose body is `body` and that takes
/// exactly the bytes of the frame.
pub proof fn lemma_frame_then_scan(body: Seq<u8>, rest: Seq<u8>, capacity: nat)
    requires
        forall|i: int| 0 <= i < body.len() ==> body[i] != PACKET_END,
        valid_utf8(body),
        body.len() + 4 <= usize::MAX,
    ensures
        scan(framed(body) + rest, capacity) == Ok::<PacketScan, ProtocolError>(
            (PacketScan::Packet { body_end: (body.len() + 1) as usize }),
        ),
        (framed(body) + rest).subrange(1, body.len() as int + 1) == body,
        (PacketScan::Packet { body_end: (body.len() + 1) as usize }).spec_consumed() == framed(
            body,
        ).len(),
        framed(body).len() == body.len() + 4,
{
    let fr = framed(body);
    let f = fr + rest;
    let e: int = body.len() as int + 1;
    assert(fr.len() == body.len() + 4);
    assert(f[0] == PACKET_START);
    assert(f[e] == PACKET_END);
    assert forall|j: int| 0 <= j < e implies f[j] != PACKET_END by {
        if j > 0 {
            assert(f[j] == body[j - 1]);
        }
    }
    assert(exists|i: int| 0 <= i < f.len() && f[i] == PACKET_END);
    let w = choose|i: int| 0 <= i < f.len() && f[i] == PACKET_END && forall|j: int| 0 <= j < i ==> f[j] != PACKET_END;
    assert(w == e) by {
        assert(forall|j: int| 0 <= j < w ==> f[j] != PACKET_END);
        if w > e {
            assert(f[e] != PACKET_END);
        }
    }
    assert(first_index_of(f, PACKET_END) == Some(e));
    assert(f.subrange(1, e) =~= body);
    assert(f.subrange(e + 1, e + 3) =~= byte_hex(checksum(body)));
    lemma_byte_hex_roundtrip(checksum(body));
}


/// How the receive buffer's first bytes decide: nothing yet; an
/// acknowledgement for `+`; a breach for anything but `+` or `$`; and for a
/// whole packet whose two checksum digits name another byte than the sum of
/// its body, a checksum mismatch, whatever follows.
pub proof fn lemma_scan_refusals(
    buf: Seq<u8>,
    body: Seq<u8>,
    sum_text: Seq<u8>,
    rest: Seq<u8>,
    capacity: nat,
)
    ensures
        scan(Seq::empty(), capacity) == Ok::<PacketScan, ProtocolError>(PacketScan::NoData),
        buf.len() > 0 && buf[0] == ACK ==> scan(buf, capacity) == Ok::<PacketScan, ProtocolError>(
            PacketScan::Ack,
        ),
        buf.len() > 0 && buf[0] != ACK && buf[0] != PACKET_START ==> scan(buf, capacity) == Err::<
            PacketScan,
            ProtocolError,
        >(ProtocolError::UnexpectedByte),
        (forall|i: int| 0 <= i < body.len() ==> body[i] != PACKET_END) && sum_text.len() == 2 && hex_u8(
            sum_text,
        ) is Some && hex_u8(sum_text).unwrap() != checksum(body) ==> scan(
            seq![PACKET_START] + body + seq![PACKET_END] + sum_text + rest,
            capacity,
        ) == Err::<PacketScan, ProtocolError>(ProtocolError::ChecksumMismatch),
{
    if (forall|i: int| 0 <= i < body.len() ==> body[i] != PACKET_END) && sum_text.len() == 2 {
        let f = seq![PACKET_START] + body + seq![PACKET_END] + sum_text + rest;
        let e: int = body.len() as int + 1;
        assert(f[0] == PACKET_START);
        assert(f[e] == PACKET_END);
        assert forall|j: int| 0 <= j < e implies f[j] != PACKET_END by {
            if j > 0 {
                assert(f[j] == body[j - 1]);
            }
        }
        assert(exists|i: int| 0 <= i < f.len() && f[i] == PACKET_END);
        let w = choose|i: int|
            0 <= i < f.len() && f[i] == PACKET_END && forall|j: int| 0 <= j < i ==> f[j] != PACKET_END;
        assert(w == e) by {
            if w > e {
                assert(f[e] != PACKET_END);
            }
        }
        assert(f.subrange(1, e) =~= body);
        assert(f.subrange(e + 1, e + 3) =~= sum_text);
    }
}

} // verus!
