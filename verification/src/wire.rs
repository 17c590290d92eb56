//! The client–server wire protocol: the 8-byte handshake, the 4-byte
//! little-endian length header framing every message, the message size
//! limit, and the request and response payloads.

use vstd::prelude::*;

use crate::id::AssetId;

verus! {

/// Handshake magic: the ASCII bytes of `TRES` read little-endian, so the
/// first four bytes on the wire read `TRES`.
pub const MAGIC: u32 = 0x53455254;

/// Protocol version sent and expected in the handshake: the major version
/// of this protocol.
pub const VERSION_MAJOR: u32 = 0;

/// The protocol version of this build.
pub fn version() -> (r: u32)
    ensures
        r == VERSION_MAJOR,
{
    VERSION_MAJOR
}

/// Largest accepted message payload: 256 MiB.
pub const MESSAGE_LIMIT: u64 = 0x10000000;

/// The little-endian bytes of a 32-bit value.
pub open spec fn spec_le4(v: u32) -> Seq<u8> {
    seq![v as u8, (v >> 8) as u8, (v >> 16) as u8, (v >> 24) as u8]
}

/// The 32-bit value read from four little-endian bytes.
pub open spec fn spec_u32_of_le(s: Seq<u8>) -> u32 {
    (s[0] + s[1] * 0x100 + s[2] * 0x10000 + s[3] * 0x1000000) as u32
}

/// Reading back the rendering of any value gives the value.
pub proof fn lemma_le4_round_trip(v: u32)
    ensures
        spec_u32_of_le(spec_le4(v)) == v,
{
    assert((v as u8) + ((v >> 8) as u8) * 0x100 + ((v >> 16) as u8) * 0x10000 + ((
    v >> 24) as u8) * 0x1000000 == v) by (bit_vector);
}

/// Appends the little-endian bytes of a value.
pub fn push_le4(out: &mut Vec<u8>, v: u32)
    ensures
        final(out)@ == old(out)@ + spec_le4(v),
{
    let b0 = (v & 0xFF) as u8;
    let b1 = ((v >> 8) & 0xFF) as u8;
    let b2 = ((v >> 16) & 0xFF) as u8;
    let b3 = ((v >> 24) & 0xFF) as u8;
    proof {
        assert((v & 0xFF) as u8 == v as u8 && ((v >> 8) & 0xFF) as u8 == (v >> 8) as u8 && ((v
            >> 16) & 0xFF) as u8 == (v >> 16) as u8 && ((v >> 24) & 0xFF) as u8 == (
        v >> 24) as u8) by (bit_vector);
    }
    out.push(b0);
    out.push(b1);
    out.push(b2);
    out.push(b3);
    proof {
        assert(out@ =~= old(out)@ + spec_le4(v));
    }
}

/// Reads a 32-bit value from four little-endian bytes at an offset.
pub fn read_le4(bytes: &Vec<u8>, at: usize) -> (r: u32)
    requires
        at + 4 <= bytes@.len(),
    ensures
        r == spec_u32_of_le(bytes@.subrange(at as int, at + 4)),
{
    let n = bytes.len();
    let b0 = bytes[at] as u32;
    let b1 = bytes[at + 1] as u32;
    let b2 = bytes[at + 2] as u32;
    let b3 = bytes[at + 3] as u32;
    let r = b0 | (b1 << 8) | (b2 << 16) | (b3 << 24);
    proof {
        let s = bytes@.subrange(at as int, at + 4);
        assert(s[0] == bytes@[at as int] && s[1] == bytes@[at + 1] && s[2] == bytes@[at + 2] && s[3]
            == bytes@[at + 3]);
        let x0 = bytes@[at as int];
        let x1 = bytes@[at + 1];
        let x2 = bytes@[at + 2];
        let x3 = bytes@[at + 3];
        assert((x0 as u32) | ((x1 as u32) << 8) | ((x2 as u32) << 16) | ((x3 as u32) << 24) == (
        x0 + x1 * 0x100 + x2 * 0x10000 + x3 * 0x1000000) as u32) by (bit_vector);
    }
    r
}

/// The first message on a connection: the magic value and the protocol
/// version, both 32-bit little-endian.
pub struct Handshake {
    /// Must equal `MAGIC`, or the server drops the connection.
    pub magic: u32,
    /// Must equal the host's version, or the server drops the connection.
    pub version: u32,
}

/// The 8 handshake bytes this build sends.
pub fn encode_handshake() -> (r: Vec<u8>)
    ensures
        r@ == spec_le4(MAGIC) + spec_le4(VERSION_MAJOR),
{
    let mut out: Vec<u8> = Vec::new();
    push_le4(&mut out, MAGIC);
    push_le4(&mut out, VERSION_MAJOR);
    proof {
        assert(out@ =~= spec_le4(MAGIC) + spec_le4(VERSION_MAJOR));
    }
    out
}

/// Reads a handshake from its 8 bytes.
pub fn parse_handshake(bytes: &Vec<u8>) -> (r: Handshake)
    requires
        bytes@.len() == 8,
    ensures
        r.magic == spec_u32_of_le(bytes@.subrange(0, 4)),
        r.version == spec_u32_of_le(bytes@.subrange(4, 8)),
{
    Handshake { magic: read_le4(bytes, 0), version: read_le4(bytes, 4) }
}

/// Why a handshake was rejected.
#[derive(Clone, Copy, Debug, PartialEq, Eq, Structural)]
pub enum HandshakeError {
    /// The magic value differs: not a treasury client.
    WrongMagic,
    /// The protocol versions differ.
    VersionMismatch,
}

/// Accepts a handshake exactly when both the magic and the version match
/// this build's.
pub fn check_handshake(h: &Handshake) -> (r: Result<(), HandshakeError>)
    ensures
        r is Ok <==> h.magic == MAGIC && h.version == VERSION_MAJOR,
        r == Err::<(), HandshakeError>(HandshakeError::WrongMagic) <==> h.magic != MAGIC,
        r == Err::<(), HandshakeError>(HandshakeError::VersionMismatch) <==> (h.magic == MAGIC
            && h.version != VERSION_MAJOR),
{
    if h.magic != MAGIC {
        Err(HandshakeError::WrongMagic)
    } else if h.version != VERSION_MAJOR {
        Err(HandshakeError::VersionMismatch)
    } else {
        Ok(())
    }
}

/// A message header: the payload size in bytes, sent as 32-bit
/// little-endian.
pub struct MessageHeader {
    /// Size of the payload that follows.
    pub size: u32,
}

/// Frames a serialized payload: the 4-byte little-endian length header
/// followed by the payload. Fails exactly when the payload is over the
/// message limit.
pub fn encode_frame(payload: &Vec<u8>) -> (r: Option<Vec<u8>>)
    ensures
        match r {
            Some(framed) => payload@.len() <= MESSAGE_LIMIT && framed@ == spec_le4(
                payload@.len() as u32,
            ) + payload@,
            None => payload@.len() > MESSAGE_LIMIT,
        },
{
    if payload.len() as u64 > MESSAGE_LIMIT {
        return None;
    }
    let mut out: Vec<u8> = Vec::new();
    push_le4(&mut out, payload.len() as u32);
    let mut i: usize = 0;
    while i < payload.len()
        invariant
            i <= payload@.len(),
            payload@.len() <= MESSAGE_LIMIT,
            out@ == spec_le4(payload@.len() as u32) + payload@.take(i as int),
        decreases payload@.len() - i,
    {
        out.push(payload[i]);
        proof {
            assert(out@ =~= spec_le4(payload@.len() as u32) + payload@.take(i + 1int));
        }
        i = i + 1;
    }
    proof {
        assert(payload@.take(payload@.len() as int) =~= payload@);
    }
    Some(out)
}

/// Reads a message header from its 4 bytes.
pub fn parse_header(bytes: &Vec<u8>) -> (r: MessageHeader)
    requires
        bytes@.len() == 4,
    ensures
        r.size == spec_u32_of_le(bytes@.subrange(0, 4)),
{
    MessageHeader { size: read_le4(bytes, 0) }
}

/// Whether a payload of this size may cross the wire.
pub fn check_message_size(size: u64) -> (r: bool)
    ensures
        r == (size <= MESSAGE_LIMIT),
{
    size <= MESSAGE_LIMIT
}

/// The first request after the handshake: open a treasury.
pub struct OpenRequest {
    /// Directory that holds the treasury, or one of its descendants.
    pub path: String,
    /// Initialize a new treasury instead of finding an existing one.
    pub init: bool,
}

/// Response to `OpenRequest`.
pub enum OpenResponse {
    /// The treasury is open.
    Success,
    /// It is not; the description says why.
    Failure {
        /// Human-readable reason.
        description: String,
    },
}

/// Requests on an open treasury.
pub enum Request {
    /// Import an asset.
    Store {
        /// URL of the source file.
        source: String,
        /// Source format, if the client names one.
        format: Option<String>,
        /// Target format.
        target: String,
    },
    /// Look an artifact's URL up by asset id.
    FetchUrl {
        /// The asset asked for.
        id: AssetId,
    },
    /// Find an asset by source and target.
    FindAsset {
        /// URL of the source file.
        source: String,
        /// Target format.
        target: String,
    },
}

/// Response to `Request::Store`.
pub enum StoreResponse {
    /// The asset is stored.
    Success {
        /// Its id.
        id: AssetId,
    },
    /// The host cannot read a URL the import needs.
    NeedData {
        /// The URL it cannot read.
        url: String,
    },
    /// The import failed; the description says why.
    Failure {
        /// Human-readable reason.
        description: String,
    },
}

/// Response to `Request::FetchUrl`.
pub enum FetchUrlResponse {
    /// The artifact exists.
    Success {
        /// URL of the artifact file.
        artifact: String,
    },
    /// No asset with that id.
    NotFound,
    /// The lookup failed; the description says why.
    Failure {
        /// Human-readable reason.
        description: String,
    },
}

/// Response to `Request::FindAsset`.
pub enum FindResponse {
    /// The asset exists.
    Success {
        /// Its id.
        id: AssetId,
    },
    /// No asset for that source and target.
    NotFound,
    /// The lookup failed; the description says why.
    Failure {
        /// Human-readable reason.
        description: String,
    },
}

/// Default listening port.
pub const DEFAULT_PORT: u16 = 12345;

/// The numeric value of a decimal character sequence, or `None` when some
/// character is not a decimal digit or the sequence is empty.
pub open spec fn spec_dec_value_of(s: Seq<char>) -> Option<int>
    decreases s.len(),
{
    if s.len() == 0 {
        None
    } else if s.len() == 1 {
        spec_dec_digit(s[0])
    } else {
        match (spec_dec_value_of(s.drop_last()), spec_dec_digit(s.last())) {
            (Some(v), Some(d)) => Some(v * 10 + d),
            _ => None,
        }
    }
}

/// The value of one decimal digit character.
pub open spec fn spec_dec_digit(c: char) -> Option<int> {
    match crate::hex::hex_val_of(c) {
        Some(v) => if v < 10 {
            Some(v)
        } else {
            None
        },
        None => None,
    }
}

/// Reads the listening port from the service port variable's value:
/// the decimal number it holds, when it holds one that fits a port;
/// otherwise, and when the variable is absent, the default port.
pub fn parse_port(env_value: Option<&str>) -> (r: u16)
    ensures
        match env_value {
            None => r == DEFAULT_PORT,
            Some(s) => match spec_dec_value_of(s@) {
                Some(v) => if v <= u16::MAX {
                    r == v
                } else {
                    r == DEFAULT_PORT
                },
                None => r == DEFAULT_PORT,
            },
        },
{
    match env_value {
        None => DEFAULT_PORT,
        Some(s) => parse_port_digits(s),
    }
}

/// Reads a port from decimal text; the default on any malformed or
/// oversized value.
fn parse_port_digits(s: &str) -> (r: u16)
    ensures
        match spec_dec_value_of(s@) {
            Some(v) => if v <= u16::MAX {
                r == v
            } else {
                r == DEFAULT_PORT
            },
            None => r == DEFAULT_PORT,
        },
{
    let len = s.unicode_len();
    if len == 0 {
        return DEFAULT_PORT;
    }
    let mut acc: u32 = 0;
    let mut i: usize = 0;
    while i < len
        invariant
            len == s@.len(),
            0 < len,
            i <= len,
            i > 0 ==> spec_dec_value_of(s@.subrange(0, i as int)) == Some(acc as int),
            i == 0 ==> acc == 0,
            acc <= u16::MAX,
        decreases len - i,
    {
        let c = s.get_char(i);
        let d = match crate::hex::hex_digit_val(c) {
            Some(d) if d < 10 => d,
            _ => {
                proof {
                    assert(spec_dec_digit(s@[i as int]) is None);
                    lemma_dec_bad_digit(s@, i as int);
                    assert(spec_dec_value_of(s@) is None);
                }
                return DEFAULT_PORT;
            },
        };
        let next: u32 = acc * 10 + (d as u32);
        proof {
            let sub = s@.subrange(0, i + 1int);
            assert(sub.drop_last() =~= s@.subrange(0, i as int));
            assert(sub.last() == s@[i as int]);
            if i > 0 {
                assert(spec_dec_value_of(sub) == Some(acc as int * 10 + d));
            } else {
                assert(sub.len() == 1);
                assert(sub[0] == s@[0]);
                assert(spec_dec_digit(s@[0]) == Some(d as int));
                assert(spec_dec_value_of(sub) == Some(d as int));
            }
        }
        if next > u16::MAX as u32 {
            proof {
                assert(spec_dec_value_of(s@.subrange(0, i + 1int)) == Some(next as int));
                lemma_dec_monotone(s@, i + 1);
                assert(spec_dec_value_of(s@) is Some ==> spec_dec_value_of(s@).unwrap()
                    > u16::MAX);
            }
            return DEFAULT_PORT;
        }
        acc = next;
        i = i + 1;
    }
    proof {
        assert(s@.subrange(0, s@.len() as int) =~= s@);
    }
    acc as u16
}

/// A sequence with a non-digit somewhere has no decimal value.
proof fn lemma_dec_bad_digit(s: Seq<char>, i: int)
    requires
        0 <= i < s.len(),
        spec_dec_digit(s[i]) is None,
    ensures
        spec_dec_value_of(s) is None,
    decreases s.len(),
{
    if s.len() > 1 && i < s.len() - 1 {
        lemma_dec_bad_digit(s.drop_last(), i);
    }
}

/// A parseable sequence's value never falls below a prefix's value.
proof fn lemma_dec_monotone(s: Seq<char>, i: int)
    requires
        0 < i <= s.len(),
        spec_dec_value_of(s.subrange(0, i)) is Some,
    ensures
        spec_dec_value_of(s) is Some ==> spec_dec_value_of(s).unwrap() >= spec_dec_value_of(
            s.subrange(0, i),
        ).unwrap() >= 0,
    decreases s.len(),
{
    lemma_dec_nonneg(s.subrange(0, i));
    if spec_dec_value_of(s) is Some {
        if i == s.len() {
            assert(s.subrange(0, i) =~= s);
        } else {
            assert(s.drop_last().subrange(0, i) =~= s.subrange(0, i));
            lemma_dec_monotone(s.drop_last(), i);
            lemma_dec_nonneg(s);
            let v = spec_dec_value_of(s.drop_last()).unwrap();
            let d = spec_dec_digit(s.last()).unwrap();
            assert(v * 10 + d >= v) by (nonlinear_arith)
                requires
                    v >= 0,
                    d >= 0,
            ;
        }
    }
}

/// A decimal value is never negative.
proof fn lemma_dec_nonneg(s: Seq<char>)
    requires
        spec_dec_value_of(s) is Some,
    ensures
        spec_dec_value_of(s).unwrap() >= 0,
    decreases s.len(),
{
    if s.len() > 1 {
        lemma_dec_nonneg(s.drop_last());
        let v = spec_dec_value_of(s.drop_last()).unwrap();
        let d = spec_dec_digit(s.last()).unwrap();
        assert(v * 10 + d >= 0) by (nonlinear_arith)
            requires
                v >= 0,
                d >= 0,
        ;
    }
}

} // verus!
