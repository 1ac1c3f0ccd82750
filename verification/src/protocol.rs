//! The wire protocol reproduced exactly for interoperability: var-int
//! numbers, length-prefixed frames, the handshake frame, status and ping
//! requests, and the ping response token wait.

use vstd::prelude::*;
use vstd::string::StrSliceExecFns;
use vstd::string::StringSliceAdditionalSpecFns;

verus! {

/// Default protocol version name hint.
pub const PROTO_DEFAULT_VERSION: &'static str = "1.20.3";

/// Default protocol version number hint.
pub const PROTO_DEFAULT_PROTOCOL: u32 = 765;

/// Client-bound status response frame id.
pub const CLIENT_STATUS: u32 = 0;

/// Client-bound ping response frame id.
pub const CLIENT_PING: u32 = 1;

/// Server-bound handshake frame id.
pub const SERVER_HANDSHAKE: u32 = 0;

/// Server-bound status request frame id.
pub const SERVER_STATUS_REQUEST: u32 = 0;

/// Server-bound ping request frame id.
pub const SERVER_PING_REQUEST: u32 = 1;

/// Next-state value of a handshake that asks for status.
pub const NEXT_STATE_STATUS: u32 = 1;

/// Var-int decoding from `pos + idx` onward with `acc` already accumulated:
/// each byte contributes its low seven bits, its high bit flags
/// continuation, and at most five bytes are read.
pub open spec fn spec_var_int_step(data: Seq<u8>, pos: int, idx: nat, acc: u32) -> Option<(nat, u32)>
    decreases 5 - idx,
{
    if idx >= 5 {
        None
    } else if pos + idx >= data.len() {
        None
    } else {
        let b = data[pos + idx];
        let acc2 = acc | (((b & 0x7f) as u32) << ((7 * idx) as u32));
        if b & 0x80 == 0 {
            Some(((idx + 1) as nat, acc2))
        } else {
            spec_var_int_step(data, pos, (idx + 1) as nat, acc2)
        }
    }
}

/// Var-int decoding at `pos`: the byte count consumed and the value.
pub open spec fn spec_var_int(data: Seq<u8>, pos: int) -> Option<(nat, u32)> {
    spec_var_int_step(data, pos, 0, 0)
}

/// Result of reading a var-int from a buffer.
pub enum VarInt {
    /// The number, and how many bytes it took.
    Done { len: usize, value: u32 },

    /// The buffer ended inside the number; more bytes may complete it.
    Incomplete,

    /// Five bytes without a terminator: not a var-int.
    Invalid,
}

/// Read a var-int at `pos`.
pub fn read_var_int(data: &Vec<u8>, pos: usize) -> (r: VarInt)
    requires
        pos <= data@.len(),
    ensures
        (match r {
            VarInt::Done { len, value } => {
                &&& spec_var_int(data@, pos as int) == Some((len as nat, value))
                &&& 1 <= len <= 5
                &&& pos + len <= data@.len()
            },
            VarInt::Incomplete => spec_var_int(data@, pos as int) is None
                && data@.len() - pos < 5,
            VarInt::Invalid => spec_var_int(data@, pos as int) is None
                && data@.len() - pos >= 5,
        }),
{
    let mut acc: u32 = 0;
    let mut i: usize = 0;
    while i < 5
        invariant
            0 <= i <= 5,
            pos <= data@.len(),
            pos + i <= data@.len(),
            spec_var_int(data@, pos as int) == spec_var_int_step(data@, pos as int, i as nat, acc),
        decreases 5 - i,
    {
        if data.len() - pos <= i {
            return VarInt::Incomplete;
        }
        let b = data[pos + i];
        let shift: u32 = (7 * i) as u32;
        let acc2: u32 = acc | (((b & 0x7f) as u32) << shift);
        if b & 0x80 == 0 {
            return VarInt::Done { len: i + 1, value: acc2 };
        }
        acc = acc2;
        i = i + 1;
    }
    VarInt::Invalid
}

/// Var-int encoding: low seven bits first, high bit set on every byte but
/// the last.
pub open spec fn spec_var_int_enc(v: u32) -> Seq<u8>
    decreases v via spec_var_int_enc_decreases
{
    if v < 0x80 {
        seq![v as u8]
    } else {
        seq![((v & 0x7f) | 0x80) as u8] + spec_var_int_enc(v >> 7)
    }
}

#[via_fn]
proof fn spec_var_int_enc_decreases(v: u32) {
    assert(v >= 0x80 ==> (v >> 7) < v) by (bit_vector);
}

/// Append the var-int encoding of `v`.
pub fn write_var_int(out: &mut Vec<u8>, v: u32)
    ensures
        final(out)@ == old(out)@ + spec_var_int_enc(v),
{
    let mut val: u32 = v;
    while val >= 0x80
        invariant
            old(out)@ + spec_var_int_enc(v) =~= out@ + spec_var_int_enc(val),
        decreases val,
    {
        let byte: u8 = ((val & 0x7f) | 0x80) as u8;
        assert(spec_var_int_enc(val) == seq![byte] + spec_var_int_enc(val >> 7));
        out.push(byte);
        proof {
            assert(val >= 0x80 ==> (val >> 7) < val) by (bit_vector);
            assert(old(out)@ + spec_var_int_enc(v) =~= out@ + spec_var_int_enc(val >> 7));
        }
        val = val >> 7;
    }
    out.push(val as u8);
    assert(spec_var_int_enc(val) =~= seq![val as u8]);
    assert(final(out)@ =~= old(out)@ + spec_var_int_enc(v));
}

/// One frame on the wire: a var-int body length, then a var-int frame id and
/// the payload.
pub open spec fn spec_frame_enc(id: u32, payload: Seq<u8>) -> Seq<u8> {
    let body = spec_var_int_enc(id) + payload;
    spec_var_int_enc(body.len() as u32) + body
}

/// A decoded frame.
pub struct Frame {
    /// Frame id.
    pub id: u32,

    /// Frame payload.
    pub data: Vec<u8>,
}

/// Result of taking one frame off the front of a buffer.
pub enum FrameParse {
    /// A whole frame, and how many buffer bytes it consumed.
    Done(Frame, usize),

    /// The buffer holds only part of a frame; read more bytes.
    Incomplete,

    /// The buffer cannot start a frame, however it is extended.
    Invalid,
}

/// What parsing the front of a buffer yields: the frame id, its payload, and
/// the bytes consumed.
pub open spec fn spec_frame(buf: Seq<u8>) -> Option<(u32, Seq<u8>, int)> {
    match spec_var_int(buf, 0) {
        None => None,
        Some((n, len)) => if buf.len() - n < len {
            None
        } else {
            match spec_var_int(buf, n as int) {
                None => None,
                Some((m, id)) => if m <= len {
                    Some((id, buf.subrange(n as int + m as int, n as int + len as int), n as int + len as int))
                } else {
                    None
                },
            }
        },
    }
}

/// Take one frame off the front of the buffer, if a whole one is there.
pub fn parse_frame(buf: &Vec<u8>) -> (r: FrameParse)
    ensures
        (match r {
            FrameParse::Done(f, c) => spec_frame(buf@) == Some((f.id, f.data@, c as int)),
            FrameParse::Incomplete => spec_frame(buf@) is None,
            FrameParse::Invalid => spec_frame(buf@) is None,
        }),
        (r matches FrameParse::Incomplete ==> (spec_var_int(buf@, 0) is None && buf@.len() < 5)
            || (spec_var_int(buf@, 0) matches Some((n, len)) && buf@.len() - n < len)),
{
    let len_read = read_var_int(buf, 0);
    let (n, len) = match len_read {
        VarInt::Done { len, value } => (len, value),
        VarInt::Incomplete => {
            return FrameParse::Incomplete;
        }
        VarInt::Invalid => {
            return FrameParse::Invalid;
        }
    };
    let len_usize = len as usize;
    if buf.len() - n < len_usize {
        return FrameParse::Incomplete;
    }
    let id_read = read_var_int(buf, n);
    let (m, id) = match id_read {
        VarInt::Done { len, value } => (len, value),
        VarInt::Incomplete => {
            return FrameParse::Invalid;
        }
        VarInt::Invalid => {
            return FrameParse::Invalid;
        }
    };
    if m > len_usize {
        return FrameParse::Invalid;
    }
    let end: usize = n + len_usize;
    let mut data: Vec<u8> = Vec::new();
    let mut j: usize = n + m;
    while j < end
        invariant
            n + m <= j <= end,
            end == n + len_usize,
            end <= buf@.len(),
            data@ =~= buf@.subrange(n + m, j as int),
        decreases end - j,
    {
        data.push(buf[j]);
        j = j + 1;
    }
    assert(data@ =~= buf@.subrange(n as int + m, n as int + len as int));
    FrameParse::Done(Frame { id, data }, n + len_usize)
}

/// Big-endian bytes of a 64-bit token.
pub open spec fn spec_u64_be(v: u64) -> Seq<u8> {
    seq![
        ((v >> 56) & 0xff) as u8,
        ((v >> 48) & 0xff) as u8,
        ((v >> 40) & 0xff) as u8,
        ((v >> 32) & 0xff) as u8,
        ((v >> 24) & 0xff) as u8,
        ((v >> 16) & 0xff) as u8,
        ((v >> 8) & 0xff) as u8,
        (v & 0xff) as u8,
    ]
}

/// The token carried by the first eight payload bytes, big-endian.
pub open spec fn spec_be_fold(data: Seq<u8>, i: nat, acc: u64) -> u64
    decreases 8 - i,
{
    if i >= 8 {
        acc
    } else if i >= data.len() {
        acc
    } else {
        spec_be_fold(data, (i + 1) as nat, (acc << 8) | (data[i as int] as u64))
    }
}

/// The encoding of the handshake frame payload: protocol version, the
/// address as a length-prefixed string, the port big-endian, and the
/// next-state number.
pub open spec fn spec_handshake_payload(protocol: u32, addr: Seq<u8>, port: u16, next: u32) -> Seq<u8> {
    spec_var_int_enc(protocol) + spec_var_int_enc(addr.len() as u32) + addr
        + seq![((port >> 8) & 0xff) as u8, (port & 0xff) as u8] + spec_var_int_enc(next)
}

/// Frame a payload under a frame id.
pub fn encode_frame(id: u32, payload: Vec<u8>) -> (r: Vec<u8>)
    requires
        payload@.len() + 5 <= u32::MAX,
    ensures
        r@ == spec_frame_enc(id, payload@),
{
    let mut body: Vec<u8> = Vec::new();
    write_var_int(&mut body, id);
    let mut k: usize = 0;
    let id_len = body.len();
    while k < payload.len()
        invariant
            0 <= k <= payload@.len(),
            body@ =~= spec_var_int_enc(id) + payload@.subrange(0, k as int),
        decreases payload@.len() - k,
    {
        body.push(payload[k]);
        k = k + 1;
    }
    assert(body@ =~= spec_var_int_enc(id) + payload@);
    proof {
        lemma_var_int_enc_len(id);
    }
    let mut out: Vec<u8> = Vec::new();
    write_var_int(&mut out, body.len() as u32);
    let mut k2: usize = 0;
    while k2 < body.len()
        invariant
            0 <= k2 <= body@.len(),
            out@ =~= spec_var_int_enc(body@.len() as u32) + body@.subrange(0, k2 as int),
        decreases body@.len() - k2,
    {
        out.push(body[k2]);
        k2 = k2 + 1;
    }
    assert(out@ =~= spec_var_int_enc(body@.len() as u32) + body@);
    out
}

/// A var-int takes at least one and at most five bytes.
pub proof fn lemma_var_int_enc_len(v: u32)
    ensures
        1 <= spec_var_int_enc(v).len() <= 5,
{
    reveal_with_fuel(spec_var_int_enc, 6);
    assert((((v >> 7) >> 7) >> 7) >> 7 < 0x80) by (bit_vector);
}

/// Encode the handshake frame asking for status: protocol version hint, the
/// target address and port, next-state = status.
pub fn encode_status_handshake(protocol: u32, addr: &str, port: u16) -> (r: Vec<u8>)
    requires
        addr.spec_bytes().len() <= 1024,
    ensures
        r@ == spec_frame_enc(
            SERVER_HANDSHAKE,
            spec_handshake_payload(protocol, addr.spec_bytes(), port, NEXT_STATE_STATUS),
        ),
{
    let mut payload: Vec<u8> = Vec::new();
    write_var_int(&mut payload, protocol);
    let addr_bytes = addr.as_bytes_vec();
    write_var_int(&mut payload, addr_bytes.len() as u32);
    let mut k: usize = 0;
    let ghost mid = payload@;
    while k < addr_bytes.len()
        invariant
            0 <= k <= addr_bytes@.len(),
            payload@ =~= mid + addr_bytes@.subrange(0, k as int),
        decreases addr_bytes@.len() - k,
    {
        payload.push(addr_bytes[k]);
        k = k + 1;
    }
    assert(payload@ =~= mid + addr_bytes@);
    payload.push(((port >> 8) & 0xff) as u8);
    payload.push((port & 0xff) as u8);
    write_var_int(&mut payload, NEXT_STATE_STATUS);
    assert(payload@ =~= spec_handshake_payload(protocol, addr.spec_bytes(), port, NEXT_STATE_STATUS));
    proof {
        lemma_var_int_enc_len(protocol);
        lemma_var_int_enc_len(addr.spec_bytes().len() as u32);
        lemma_var_int_enc_len(NEXT_STATE_STATUS);
    }
    encode_frame(SERVER_HANDSHAKE, payload)
}

/// Encode the status request frame: an empty body under the request id.
pub fn encode_status_request() -> (r: Vec<u8>)
    ensures
        r@ == spec_frame_enc(SERVER_STATUS_REQUEST, Seq::empty()),
{
    let payload: Vec<u8> = Vec::new();
    assert(payload@ =~= Seq::<u8>::empty());
    encode_frame(SERVER_STATUS_REQUEST, payload)
}

/// Encode a ping request frame carrying the token big-endian.
pub fn encode_ping_request(token: u64) -> (r: Vec<u8>)
    ensures
        r@ == spec_frame_enc(SERVER_PING_REQUEST, spec_u64_be(token)),
{
    let mut payload: Vec<u8> = Vec::new();
    payload.push(((token >> 56) & 0xff) as u8);
    payload.push(((token >> 48) & 0xff) as u8);
    payload.push(((token >> 40) & 0xff) as u8);
    payload.push(((token >> 32) & 0xff) as u8);
    payload.push(((token >> 24) & 0xff) as u8);
    payload.push(((token >> 16) & 0xff) as u8);
    payload.push(((token >> 8) & 0xff) as u8);
    payload.push((token & 0xff) as u8);
    assert(payload@ =~= spec_u64_be(token));
    encode_frame(SERVER_PING_REQUEST, payload)
}

/// Relies on rand::random: draws a fresh token from the thread-local
/// generator. The value is random, so nothing is promised of it.
#[verifier::external_body]
fn random_u64() -> (r: u64) {
    rand::random::<u64>()
}

/// Draw a random ping token and encode the ping request that carries it.
pub fn make_ping_request() -> (r: (u64, Vec<u8>))
    ensures
        r.1@ == spec_frame_enc(SERVER_PING_REQUEST, spec_u64_be(r.0)),
{
    let token = random_u64();
    let frame = encode_ping_request(token);
    (token, frame)
}

/// Decode the token of a ping response payload: the first eight bytes,
/// big-endian.
pub fn read_ping_token(data: &Vec<u8>) -> (r: Option<u64>)
    ensures
        (r matches Some(v) ==> data@.len() >= 8 && v == spec_be_fold(data@, 0, 0)),
        r is None ==> data@.len() < 8,
{
    if data.len() < 8 {
        return None;
    }
    let mut acc: u64 = 0;
    let mut i: usize = 0;
    while i < 8
        invariant
            0 <= i <= 8,
            data@.len() >= 8,
            spec_be_fold(data@, 0, 0) == spec_be_fold(data@, i as nat, acc),
        decreases 8 - i,
    {
        acc = (acc << 8) | (data[i] as u64);
        i = i + 1;
    }
    Some(acc)
}

/// One step of the ping wait.
#[derive(Copy, Clone, Debug, PartialEq, Eq, Structural)]
pub enum PingStep {
    /// Not a ping response; keep waiting.
    Skip,

    /// A ping response with the matching token: the wait is complete.
    Matched,

    /// A ping response with a non-matching token: ignored, keep waiting.
    Mismatch,

    /// A ping response too short to carry a token: the wait fails.
    Malformed,
}

/// Judge one inbound frame during the ping wait: only a ping response with
/// the matching token completes the wait; a non-matching token is ignored
/// and the wait continues.
pub fn handle_ping_frame(id: u32, data: &Vec<u8>, token: u64) -> (r: PingStep)
    ensures
        r == PingStep::Skip <==> id != CLIENT_PING,
        r == PingStep::Malformed <==> id == CLIENT_PING && data@.len() < 8,
        r == PingStep::Matched <==> id == CLIENT_PING && data@.len() >= 8
            && spec_be_fold(data@, 0, 0) == token,
        r == PingStep::Mismatch <==> id == CLIENT_PING && data@.len() >= 8
            && spec_be_fold(data@, 0, 0) != token,
{
    if id != CLIENT_PING {
        return PingStep::Skip;
    }
    match read_ping_token(data) {
        None => PingStep::Malformed,
        Some(t) => if t == token {
            PingStep::Matched
        } else {
            PingStep::Mismatch
        },
    }
}


/// The proxy-protocol-v2 local header: the twelve signature bytes, version
/// two with the local command, unspecified address family, and an empty
/// address payload.
pub open spec fn spec_local_proxy_header() -> Seq<u8> {
    seq![
        0x0du8, 0x0au8, 0x0du8, 0x0au8, 0x00u8, 0x0du8, 0x0au8, 0x51u8,
        0x55u8, 0x49u8, 0x54u8, 0x0au8, 0x20u8, 0x00u8, 0x00u8, 0x00u8,
    ]
}

/// Encode the proxy-protocol-v2 local header that precedes the handshake on
/// a forwarded connection.
pub fn local_proxy_header() -> (r: Vec<u8>)
    ensures
        r@ == spec_local_proxy_header(),
{
    let bytes: Vec<u8> = vec![
        0x0d, 0x0a, 0x0d, 0x0a, 0x00, 0x0d, 0x0a, 0x51,
        0x55, 0x49, 0x54, 0x0a, 0x20, 0x00, 0x00, 0x00,
    ];
    assert(bytes@ =~= spec_local_proxy_header());
    bytes
}

} // verus!
