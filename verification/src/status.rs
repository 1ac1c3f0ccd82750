//! Status snapshots and the status-response decode pipeline: a strict
//! structured decode first and, when the payload does not conform, a lenient
//! re-parse of the same JSON that tolerates a `description` given as a
//! chat-component object (serialized back to text) and fills missing
//! version and player sub-fields with defaults.

use vstd::prelude::*;

use crate::protocol::{spec_var_int, read_var_int, VarInt, CLIENT_STATUS};

verus! {

/// Decoded player, version and description data from a status response.
/// Never partially filled: either fully populated from a well-formed decode
/// or absent.
#[derive(Clone, Debug, PartialEq, Eq)]
pub struct StatusSnapshot {
    /// Version name.
    pub version_name: String,

    /// Protocol version number.
    pub protocol: u32,

    /// Players currently online.
    pub players_online: u32,

    /// Player capacity.
    pub players_max: u32,

    /// Description text.
    pub description: String,

    /// Favicon data, if the response carried one.
    pub favicon: Option<String>,
}

/// Why a probe failed.
#[derive(Copy, Clone, Debug, PartialEq, Eq, Structural)]
pub enum ProbeError {
    /// The TCP connection could not be established.
    Connect,

    /// A malformed or unexpected frame arrived.
    Protocol,

    /// No matching response arrived within the bound.
    Timeout,

    /// Both the strict and the lenient decode failed.
    Decode,

    /// Signal delivery failed on all attempted targets.
    Signal,
}

/// Which decode path produced a snapshot; surfaced for diagnostics only.
#[derive(Copy, Clone, Debug, PartialEq, Eq, Structural)]
pub enum DecodePath {
    /// The strict structured decode accepted the payload.
    Strict,

    /// The lenient fallback parse accepted the payload.
    Lenient,
}

#[verifier::external_type_specification]
#[verifier::external_body]
pub struct ExJsonValue(serde_json::Value);

/// The JSON document a text parses to, if it is well-formed.
pub uninterp spec fn json_of(s: Seq<char>) -> Option<serde_json::Value>;

/// The member a JSON document holds under a key, if the document is an
/// object with that key.
pub uninterp spec fn json_member(v: serde_json::Value, key: Seq<char>) -> Option<serde_json::Value>;

/// The text of a JSON value, if the value is a string.
pub uninterp spec fn json_text(v: serde_json::Value) -> Option<Seq<char>>;

/// The number a JSON value holds, if it is an unsigned integer in range.
pub uninterp spec fn json_uint(v: serde_json::Value) -> Option<u64>;

/// The canonical serialization of a JSON value.
pub uninterp spec fn json_rendered(v: serde_json::Value) -> Seq<char>;

/// The characters a byte sequence decodes to, if it is well-formed UTF-8.
pub uninterp spec fn utf8_of(b: Seq<u8>) -> Option<Seq<char>>;

/// Relies on serde_json::from_str: parses the text as a JSON document, a
/// function of the text alone.
#[verifier::external_body]
fn json_parse(s: &str) -> (r: Option<serde_json::Value>)
    ensures
        r == json_of(s@),
{
    serde_json::from_str::<serde_json::Value>(s).ok()
}

/// Relies on serde_json::Value::get: looks a key up in an object, `None` on
/// any other value or a missing key; a function of document and key alone.
#[verifier::external_body]
fn json_get(v: &serde_json::Value, key: &str) -> (r: Option<serde_json::Value>)
    ensures
        r == json_member(*v, key@),
{
    v.get(key).cloned()
}

/// Relies on serde_json::Value::as_str: the text when the value is a JSON
/// string, `None` otherwise.
#[verifier::external_body]
fn json_as_str(v: &serde_json::Value) -> (r: Option<String>)
    ensures
        (match r {
            Some(t) => json_text(*v) == Some(t@),
            None => json_text(*v) is None,
        }),
{
    v.as_str().map(|s| s.to_string())
}

/// Relies on serde_json::Value::as_u64: the number when the value is an
/// unsigned integer representable in 64 bits, `None` otherwise.
#[verifier::external_body]
fn json_as_u64(v: &serde_json::Value) -> (r: Option<u64>)
    ensures
        r == json_uint(*v),
{
    v.as_u64()
}

/// Relies on serde_json::to_string: serializes the value back to JSON text.
/// Every JSON value serializes to at least one character (`null`, a digit, a
/// quote or a bracket comes out even for the smallest values).
#[verifier::external_body]
fn json_render(v: &serde_json::Value) -> (r: String)
    ensures
        r@ == json_rendered(*v),
        r@.len() >= 1,
{
    serde_json::to_string(v).unwrap_or_else(|_| "null".to_string())
}

/// Relies on String::from_utf8: decodes the bytes as UTF-8 text, `None` when
/// they are not well-formed; a function of the bytes alone.
#[verifier::external_body]
fn utf8_to_string(b: &Vec<u8>) -> (r: Option<String>)
    ensures
        (match r {
            Some(s) => utf8_of(b@) == Some(s@),
            None => utf8_of(b@) is None,
        }),
{
    String::from_utf8(b.clone()).ok()
}

/// The member two keys deep, if the path exists.
pub open spec fn spec_member2(root: serde_json::Value, k1: Seq<char>, k2: Seq<char>) -> Option<serde_json::Value> {
    match json_member(root, k1) {
        Some(v) => json_member(v, k2),
        None => None,
    }
}

/// The text two keys deep, if the path exists and holds a string.
pub open spec fn spec_text_at(root: serde_json::Value, k1: Seq<char>, k2: Seq<char>) -> Option<Seq<char>> {
    match spec_member2(root, k1, k2) {
        Some(v) => json_text(v),
        None => None,
    }
}

/// The number two keys deep, if the path exists and holds one.
pub open spec fn spec_uint_at(root: serde_json::Value, k1: Seq<char>, k2: Seq<char>) -> Option<u64> {
    match spec_member2(root, k1, k2) {
        Some(v) => json_uint(v),
        None => None,
    }
}

/// Truncation of a 64-bit count to the 32 bits the snapshot holds.
pub open spec fn spec_to_u32(x: u64) -> u32 {
    (x % 0x1_0000_0000) as u32
}

/// Whether a parsed payload conforms to the strict status schema: version
/// name and protocol, player counts in range, a plain-string description,
/// and a favicon that is a string when present at all.
pub open spec fn spec_strict_ok(root: serde_json::Value) -> bool {
    &&& spec_text_at(root, "version"@, "name"@) is Some
    &&& (spec_uint_at(root, "version"@, "protocol"@) matches Some(p) && p <= u32::MAX)
    &&& (spec_uint_at(root, "players"@, "online"@) matches Some(o) && o <= u32::MAX)
    &&& (spec_uint_at(root, "players"@, "max"@) matches Some(m) && m <= u32::MAX)
    &&& (json_member(root, "description"@) matches Some(d) && json_text(d) is Some)
    &&& (json_member(root, "favicon"@) matches Some(f) ==> json_text(f) is Some)
}

/// How a snapshot relates to a parsed payload: missing version and player
/// fields default to `"Unknown"` and zero, a string description is taken as
/// is, any other description value is serialized back to text, an absent one
/// is empty, and a favicon is kept only when it is a string. On a payload
/// that conforms to the strict schema this coincides with the strict decode.
pub open spec fn snapshot_matches(snap: StatusSnapshot, root: serde_json::Value) -> bool {
    &&& snap.version_name@ == (match spec_text_at(root, "version"@, "name"@) {
        Some(s) => s,
        None => "Unknown"@,
    })
    &&& snap.protocol == (match spec_uint_at(root, "version"@, "protocol"@) {
        Some(p) => spec_to_u32(p),
        None => 0u32,
    })
    &&& snap.players_online == (match spec_uint_at(root, "players"@, "online"@) {
        Some(o) => spec_to_u32(o),
        None => 0u32,
    })
    &&& snap.players_max == (match spec_uint_at(root, "players"@, "max"@) {
        Some(m) => spec_to_u32(m),
        None => 0u32,
    })
    &&& snap.description@ == (match json_member(root, "description"@) {
        Some(d) => match json_text(d) {
            Some(s) => s,
            None => json_rendered(d),
        },
        None => Seq::<char>::empty(),
    })
    &&& (match json_member(root, "favicon"@) {
        Some(f) => (match json_text(f) {
            Some(s) => snap.favicon matches Some(x) && x@ == s,
            None => snap.favicon is None,
        }),
        None => snap.favicon is None,
    })
}

/// The JSON document of a status-response payload: a var-int length prefix,
/// then that many bytes of UTF-8 JSON.
pub open spec fn spec_payload_root(data: Seq<u8>) -> Option<serde_json::Value> {
    match spec_var_int(data, 0) {
        None => None,
        Some((n, len)) => if data.len() - n < len {
            None
        } else {
            match utf8_of(data.subrange(n as int, n as int + len as int)) {
                None => None,
                Some(s) => json_of(s),
            }
        },
    }
}

/// The text two keys deep of a document held by reference.
fn text_at(root: &serde_json::Value, k1: &str, k2: &str) -> (r: Option<String>)
    ensures
        (match r {
            Some(t) => spec_text_at(*root, k1@, k2@) == Some(t@),
            None => spec_text_at(*root, k1@, k2@) is None,
        }),
{
    match json_get(root, k1) {
        Some(v) => match json_get(&v, k2) {
            Some(w) => json_as_str(&w),
            None => None,
        },
        None => None,
    }
}

/// The number two keys deep of a document held by reference.
fn uint_at(root: &serde_json::Value, k1: &str, k2: &str) -> (r: Option<u64>)
    ensures
        r == spec_uint_at(*root, k1@, k2@),
{
    match json_get(root, k1) {
        Some(v) => match json_get(&v, k2) {
            Some(w) => json_as_u64(&w),
            None => None,
        },
        None => None,
    }
}

/// Decode a status-response payload: the var-int length prefix is read, the
/// JSON it delimits is parsed, and the snapshot is built — strictly when the
/// payload conforms to the strict schema, leniently (with defaults, and the
/// description serialized back to text when it is not a plain string)
/// otherwise. Fails exactly when the prefix, the UTF-8 or the JSON is
/// malformed.
pub fn decode_status_payload(data: &Vec<u8>) -> (r: Result<(StatusSnapshot, DecodePath), ProbeError>)
    ensures
        (match r {
            Ok((snap, path)) => {
                &&& (spec_payload_root(data@) matches Some(root)
                    && snapshot_matches(snap, root)
                    && (path == DecodePath::Strict <==> spec_strict_ok(root))
                    && (json_member(root, "description"@) matches Some(d)
                        && json_text(d) is None ==> snap.description@.len() >= 1))
            },
            Err(e) => e == ProbeError::Decode && spec_payload_root(data@) is None,
        }),
{
    let (n, len) = match read_var_int(data, 0) {
        VarInt::Done { len, value } => (len, value),
        VarInt::Incomplete => {
            return Err(ProbeError::Decode);
        }
        VarInt::Invalid => {
            return Err(ProbeError::Decode);
        }
    };
    let len_usize = len as usize;
    if data.len() - n < len_usize {
        return Err(ProbeError::Decode);
    }
    let end: usize = n + len_usize;
    let mut json_bytes: Vec<u8> = Vec::new();
    let mut j: usize = n;
    while j < end
        invariant
            n <= j <= end,
            end <= data@.len(),
            json_bytes@ =~= data@.subrange(n as int, j as int),
        decreases end - j,
    {
        json_bytes.push(data[j]);
        j = j + 1;
    }
    assert(json_bytes@ =~= data@.subrange(n as int, n as int + len as int));
    let json_str = match utf8_to_string(&json_bytes) {
        Some(s) => s,
        None => {
            return Err(ProbeError::Decode);
        }
    };
    let root = match json_parse(json_str.as_str()) {
        Some(v) => v,
        None => {
            return Err(ProbeError::Decode);
        }
    };

    let version_name_raw = text_at(&root, "version", "name");
    let protocol_raw = uint_at(&root, "version", "protocol");
    let online_raw = uint_at(&root, "players", "online");
    let max_raw = uint_at(&root, "players", "max");
    let description_raw = json_get(&root, "description");
    let favicon_raw = json_get(&root, "favicon");

    let favicon_text = match &favicon_raw {
        Some(f) => json_as_str(f),
        None => None,
    };
    let description_text = match &description_raw {
        Some(d) => json_as_str(d),
        None => None,
    };

    let strict = version_name_raw.is_some()
        && (matches!(protocol_raw, Some(p) if p <= 0xffff_ffff))
        && (matches!(online_raw, Some(o) if o <= 0xffff_ffff))
        && (matches!(max_raw, Some(m) if m <= 0xffff_ffff))
        && description_raw.is_some() && description_text.is_some()
        && (favicon_raw.is_none() || favicon_text.is_some());

    let version_name = match version_name_raw {
        Some(s) => s,
        None => "Unknown".to_owned(),
    };
    let protocol = match protocol_raw {
        Some(p) => (p % 0x1_0000_0000) as u32,
        None => 0,
    };
    let players_online = match online_raw {
        Some(o) => (o % 0x1_0000_0000) as u32,
        None => 0,
    };
    let players_max = match max_raw {
        Some(m) => (m % 0x1_0000_0000) as u32,
        None => 0,
    };
    let description = match (&description_raw, description_text) {
        (Some(_), Some(s)) => s,
        (Some(d), None) => json_render(d),
        (None, _) => String::new(),
    };
    let path = if strict {
        DecodePath::Strict
    } else {
        DecodePath::Lenient
    };
    let snap = StatusSnapshot {
        version_name,
        protocol,
        players_online,
        players_max,
        description,
        favicon: favicon_text,
    };
    Ok((snap, path))
}

/// One step of the status wait.
pub enum StatusStep {
    /// Not a status response; keep waiting.
    Skip,

    /// A status response that decoded, and through which path.
    Done(StatusSnapshot, DecodePath),

    /// A status response that neither decode accepted: the wait fails.
    Fail,
}

/// Judge one inbound frame during the status wait: anything but a status
/// response is skipped; a status response either decodes (strictly or
/// leniently) or ends the wait in failure.
pub fn handle_status_frame(id: u32, data: &Vec<u8>) -> (r: StatusStep)
    ensures
        (match r {
            StatusStep::Skip => id != CLIENT_STATUS,
            StatusStep::Done(snap, path) => {
                &&& id == CLIENT_STATUS
                &&& (spec_payload_root(data@) matches Some(root)
                    && snapshot_matches(snap, root)
                    && (path == DecodePath::Strict <==> spec_strict_ok(root)))
            },
            StatusStep::Fail => id == CLIENT_STATUS && spec_payload_root(data@) is None,
        }),
{
    if id != CLIENT_STATUS {
        return StatusStep::Skip;
    }
    match decode_status_payload(data) {
        Ok((snap, path)) => StatusStep::Done(snap, path),
        Err(_) => StatusStep::Fail,
    }
}

} // verus!
