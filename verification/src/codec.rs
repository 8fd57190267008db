//! Binary descriptor codec.
//!
//! A descriptor crosses the privilege boundary as a single command-line
//! token: a tagged, length-prefixed binary payload (this module) wrapped in
//! the base64 transport encoding (`crate::base64`). Every variant carries a
//! tag byte and every string field a length prefix, so the decoder accepts
//! exactly the images of descriptors; `decode` inverts `encode`.

use vstd::bytes::lemma_auto_spec_u16_to_from_le_bytes;
use vstd::bytes::lemma_auto_spec_u32_to_from_le_bytes;
use vstd::bytes::lemma_auto_spec_u64_to_from_le_bytes;
use vstd::bytes::spec_u16_to_le_bytes;
use vstd::bytes::spec_u32_to_le_bytes;
use vstd::bytes::spec_u64_to_le_bytes;
use vstd::bytes::u16_from_le_bytes;
use vstd::bytes::u16_to_le_bytes;
use vstd::bytes::u32_from_le_bytes;
use vstd::bytes::u32_to_le_bytes;
use vstd::bytes::u64_from_le_bytes;
use vstd::bytes::u64_to_le_bytes;
use vstd::bytes::spec_u16_from_le_bytes;
use vstd::bytes::spec_u32_from_le_bytes;
use vstd::bytes::spec_u64_from_le_bytes;
use vstd::prelude::*;
use vstd::slice::slice_index_get;
use vstd::slice::slice_subrange;
use vstd::slice::slice_to_vec;
use vstd::utf8::decode_utf8_encode_utf8;
use vstd::utf8::encode_utf8;
use vstd::utf8::encode_utf8_decode_utf8;
use vstd::utf8::encode_utf8_valid_utf8;

use crate::base64::all_transport_chars;
use crate::base64::base64_encode;
use crate::base64::decode_transport;
use crate::base64::decoded_bytes;
use crate::base64::encoded_chars;
use crate::base64::is_transport_char;
use crate::base64::lemma_base64_round_trip;
use crate::base64::TransportError;
use crate::config::ConfigView;
use crate::config::DialogConfig;
use crate::config::DialogKind;
use crate::config::KindView;
use crate::text::string_from_utf8;

verus! {

/// Why a token was rejected.
#[derive(Debug, Clone, Copy, PartialEq, Eq, Structural)]
pub enum DecodeError {
    /// Token length is not a multiple of 4.
    TransportLength,
    /// Token holds a character outside the transport alphabet.
    TransportCharacter,
    /// The transport-decoded bytes are not the image of any descriptor.
    MalformedPayload,
}

/// A string field's UTF-8 encoding fits the 64-bit length prefix.
pub open spec fn str_ok(s: Seq<char>) -> bool {
    encode_utf8(s).len() <= u64::MAX
}

/// Every string field of the kind fits its length prefix.
pub open spec fn kind_ok(k: KindView) -> bool {
    match k {
        KindView::PrivilegeEscalation { command } => str_ok(command),
        KindView::NetworkConnection { process, process_path, destination, protocol, .. } => {
            str_ok(process) && str_ok(process_path) && str_ok(destination) && str_ok(protocol)
        },
        KindView::Generic { title, message, detail } => str_ok(title) && str_ok(message)
            && str_ok(detail),
    }
}

/// The descriptor is representable in the wire format.
pub open spec fn encodable(v: ConfigView) -> bool {
    kind_ok(v.kind)
}

/// A length-prefixed UTF-8 string field.
pub open spec fn str_bytes(s: Seq<char>) -> Seq<u8> {
    spec_u64_to_le_bytes(encode_utf8(s).len() as u64) + encode_utf8(s)
}

/// The payload bytes of a dialog kind: a tag byte, then its fields.
pub open spec fn kind_bytes(k: KindView) -> Seq<u8> {
    match k {
        KindView::PrivilegeEscalation { command } => seq![1u8] + str_bytes(command),
        KindView::NetworkConnection { process, process_path, destination, port, protocol } => {
            seq![2u8] + str_bytes(process) + str_bytes(process_path) + str_bytes(destination)
                + spec_u16_to_le_bytes(port) + str_bytes(protocol)
        },
        KindView::Generic { title, message, detail } => seq![3u8] + str_bytes(title) + str_bytes(
            message,
        ) + str_bytes(detail),
    }
}

/// The payload bytes of the timeout field.
pub open spec fn timeout_bytes(t: Option<u32>) -> Seq<u8> {
    match t {
        Option::None => seq![0u8],
        Option::Some(n) => seq![1u8] + spec_u32_to_le_bytes(n),
    }
}

/// The complete payload: a format version byte, the kind, the timeout.
pub open spec fn config_bytes(v: ConfigView) -> Seq<u8> {
    seq![1u8] + kind_bytes(v.kind) + timeout_bytes(v.timeout_secs)
}

/// `seg` occurs in `bytes` at offset `pos`.
pub open spec fn segment_at(bytes: Seq<u8>, pos: int, seg: Seq<u8>) -> bool {
    &&& 0 <= pos
    &&& pos + seg.len() <= bytes.len()
    &&& bytes.subrange(pos, pos + seg.len() as int) == seg
}

proof fn lemma_segment_split(bytes: Seq<u8>, pos: int, a: Seq<u8>, b: Seq<u8>)
    ensures
        segment_at(bytes, pos, a + b) <==> (segment_at(bytes, pos, a) && segment_at(
            bytes,
            pos + a.len(),
            b,
        )),
{
    if segment_at(bytes, pos, a + b) {
        let c = a + b;
        assert forall|i: int| 0 <= i < a.len() implies bytes.subrange(pos, pos + a.len() as int)[i]
            == a[i] by {
            assert(bytes.subrange(pos, pos + c.len() as int)[i] == c[i]);
        }
        assert(bytes.subrange(pos, pos + a.len() as int) =~= a);
        assert forall|i: int|
            0 <= i < b.len() implies bytes.subrange(pos + a.len(), pos + c.len() as int)[i] == b[
        i] by {
            assert(bytes.subrange(pos, pos + c.len() as int)[a.len() + i] == c[a.len() + i]);
            assert(c[a.len() + i] == b[i]);
        }
        assert(bytes.subrange(pos + a.len(), pos + c.len() as int) =~= b);
    }
    if segment_at(bytes, pos, a) && segment_at(bytes, pos + a.len(), b) {
        assert(bytes.subrange(pos, pos + (a + b).len() as int) =~= a + b);
    }
}

proof fn lemma_segment_byte(bytes: Seq<u8>, pos: int, t: u8)
    ensures
        segment_at(bytes, pos, seq![t]) <==> (0 <= pos < bytes.len() && bytes[pos] == t),
{
    if 0 <= pos < bytes.len() && bytes[pos] == t {
        assert(bytes.subrange(pos, pos + 1) =~= seq![t]);
    }
    if segment_at(bytes, pos, seq![t]) {
        assert(seq![t][0] == t);
        assert(bytes.subrange(pos, pos + 1)[0] == bytes[pos]);
    }
}

/// Layout of a privilege-escalation kind at an offset.
proof fn lemma_priv_layout(bytes: Seq<u8>, pos: int, command: Seq<char>)
    ensures
        segment_at(bytes, pos, kind_bytes(KindView::PrivilegeEscalation { command })) <==> {
            &&& 0 <= pos < bytes.len() && bytes[pos] == 1u8
            &&& segment_at(bytes, pos + 1, str_bytes(command))
        },
{
    lemma_segment_split(bytes, pos, seq![1u8], str_bytes(command));
    lemma_segment_byte(bytes, pos, 1u8);
}

/// Layout of a network-connection kind at an offset.
proof fn lemma_net_layout(
    bytes: Seq<u8>,
    pos: int,
    process: Seq<char>,
    process_path: Seq<char>,
    destination: Seq<char>,
    port: u16,
    protocol: Seq<char>,
)
    ensures
        segment_at(
            bytes,
            pos,
            kind_bytes(
                KindView::NetworkConnection {
                    process,
                    process_path,
                    destination,
                    port,
                    protocol,
                },
            ),
        ) <==> {
            let p1 = pos + 1;
            let p2 = p1 + str_bytes(process).len();
            let p3 = p2 + str_bytes(process_path).len();
            let p4 = p3 + str_bytes(destination).len();
            let p5 = p4 + 2;
            &&& 0 <= pos < bytes.len() && bytes[pos] == 2u8
            &&& segment_at(bytes, p1, str_bytes(process))
            &&& segment_at(bytes, p2, str_bytes(process_path))
            &&& segment_at(bytes, p3, str_bytes(destination))
            &&& segment_at(bytes, p4, spec_u16_to_le_bytes(port))
            &&& segment_at(bytes, p5, str_bytes(protocol))
        },
{
    lemma_auto_spec_u16_to_from_le_bytes();
    let s1 = str_bytes(process);
    let s2 = str_bytes(process_path);
    let s3 = str_bytes(destination);
    let pb = spec_u16_to_le_bytes(port);
    let s4 = str_bytes(protocol);
    lemma_segment_split(bytes, pos, seq![2u8] + s1 + s2 + s3 + pb, s4);
    lemma_segment_split(bytes, pos, seq![2u8] + s1 + s2 + s3, pb);
    lemma_segment_split(bytes, pos, seq![2u8] + s1 + s2, s3);
    lemma_segment_split(bytes, pos, seq![2u8] + s1, s2);
    lemma_segment_split(bytes, pos, seq![2u8], s1);
    lemma_segment_byte(bytes, pos, 2u8);
}

/// Layout of a generic kind at an offset.
proof fn lemma_generic_layout(
    bytes: Seq<u8>,
    pos: int,
    title: Seq<char>,
    message: Seq<char>,
    detail: Seq<char>,
)
    ensures
        segment_at(bytes, pos, kind_bytes(KindView::Generic { title, message, detail })) <==> {
            let p1 = pos + 1;
            let p2 = p1 + str_bytes(title).len();
            let p3 = p2 + str_bytes(message).len();
            &&& 0 <= pos < bytes.len() && bytes[pos] == 3u8
            &&& segment_at(bytes, p1, str_bytes(title))
            &&& segment_at(bytes, p2, str_bytes(message))
            &&& segment_at(bytes, p3, str_bytes(detail))
        },
{
    let s1 = str_bytes(title);
    let s2 = str_bytes(message);
    lemma_segment_split(bytes, pos, seq![3u8] + s1 + s2, str_bytes(detail));
    lemma_segment_split(bytes, pos, seq![3u8] + s1, s2);
    lemma_segment_split(bytes, pos, seq![3u8], s1);
    lemma_segment_byte(bytes, pos, 3u8);
}

/// Layout of the timeout field at an offset.
proof fn lemma_timeout_layout(bytes: Seq<u8>, pos: int, t: Option<u32>)
    ensures
        segment_at(bytes, pos, timeout_bytes(t)) <==> match t {
            Option::None => 0 <= pos < bytes.len() && bytes[pos] == 0u8,
            Option::Some(n) => {
                &&& 0 <= pos < bytes.len() && bytes[pos] == 1u8
                &&& segment_at(bytes, pos + 1, spec_u32_to_le_bytes(n))
            },
        },
{
    lemma_auto_spec_u32_to_from_le_bytes();
    match t {
        Option::None => {
            lemma_segment_byte(bytes, pos, 0u8);
        },
        Option::Some(n) => {
            lemma_segment_split(bytes, pos, seq![1u8], spec_u32_to_le_bytes(n));
            lemma_segment_byte(bytes, pos, 1u8);
        },
    }
}

/// Layout of a whole payload.
proof fn lemma_config_layout(bytes: Seq<u8>, v: ConfigView)
    ensures
        (bytes == config_bytes(v)) <==> {
            &&& bytes.len() == 1 + kind_bytes(v.kind).len() + timeout_bytes(v.timeout_secs).len()
            &&& bytes.len() >= 1 && bytes[0] == 1u8
            &&& segment_at(bytes, 1, kind_bytes(v.kind))
            &&& segment_at(bytes, 1 + kind_bytes(v.kind).len() as int, timeout_bytes(v.timeout_secs))
        },
{
    let kb = kind_bytes(v.kind);
    let tb = timeout_bytes(v.timeout_secs);
    lemma_segment_split(bytes, 0, seq![1u8] + kb, tb);
    lemma_segment_split(bytes, 0, seq![1u8], kb);
    lemma_segment_byte(bytes, 0, 1u8);
    if bytes == config_bytes(v) {
        assert(bytes.subrange(0, bytes.len() as int) =~= bytes);
        assert(segment_at(bytes, 0, config_bytes(v)));
    }
    if {
        &&& bytes.len() == 1 + kb.len() + tb.len()
        &&& bytes.len() >= 1 && bytes[0] == 1u8
        &&& segment_at(bytes, 1, kb)
        &&& segment_at(bytes, 1 + kb.len() as int, tb)
    } {
        assert(segment_at(bytes, 0, config_bytes(v)));
        assert(bytes.subrange(0, bytes.len() as int) =~= bytes);
    }
}

/// Appends a length-prefixed UTF-8 string field.
fn push_str_field(out: &mut Vec<u8>, s: &String)
    ensures
        final(out)@ == old(out)@ + str_bytes(s@),
        str_ok(s@),
{
    let bytes = s.as_str().as_bytes_vec();
    let len64: u64 = bytes.len() as u64;
    let mut lb = u64_to_le_bytes(len64);
    out.append(&mut lb);
    let mut payload = bytes;
    out.append(&mut payload);
    proof {
        assert(out@ =~= old(out)@ + str_bytes(s@));
    }
}

/// Reads one byte, advancing the cursor.
fn read_u8(bytes: &[u8], pos: &mut usize) -> (r: Option<u8>)
    requires
        *old(pos) <= bytes@.len(),
    ensures
        *old(pos) <= *final(pos) <= bytes@.len(),
        *old(pos) < bytes@.len() ==> r == Some(bytes@[*old(pos) as int]) && *final(pos) == *old(
            pos,
        ) + 1,
        *old(pos) >= bytes@.len() ==> r is None && *final(pos) == *old(pos),
{
    if *pos < bytes.len() {
        let b = *slice_index_get(bytes, *pos);
        *pos = *pos + 1;
        Some(b)
    } else {
        None
    }
}

/// Reads a little-endian `u16`, advancing the cursor.
fn read_u16(bytes: &[u8], pos: &mut usize) -> (r: Option<u16>)
    requires
        *old(pos) <= bytes@.len(),
    ensures
        *old(pos) <= *final(pos) <= bytes@.len(),
        *old(pos) + 2 <= bytes@.len() ==> (r matches Some(x) && x == spec_u16_from_le_bytes(
            bytes@.subrange(*old(pos) as int, *old(pos) + 2),
        ) && *final(pos) == *old(pos) + 2),
        *old(pos) + 2 > bytes@.len() ==> r is None && *final(pos) == *old(pos),
{
    if 2 <= bytes.len() - *pos {
        let sub = slice_subrange(bytes, *pos, *pos + 2);
        let x = u16_from_le_bytes(sub);
        *pos = *pos + 2;
        Some(x)
    } else {
        None
    }
}

/// Reads a little-endian `u32`, advancing the cursor.
fn read_u32(bytes: &[u8], pos: &mut usize) -> (r: Option<u32>)
    requires
        *old(pos) <= bytes@.len(),
    ensures
        *old(pos) <= *final(pos) <= bytes@.len(),
        *old(pos) + 4 <= bytes@.len() ==> (r matches Some(x) && x == spec_u32_from_le_bytes(
            bytes@.subrange(*old(pos) as int, *old(pos) + 4),
        ) && *final(pos) == *old(pos) + 4),
        *old(pos) + 4 > bytes@.len() ==> r is None && *final(pos) == *old(pos),
{
    if 4 <= bytes.len() - *pos {
        let sub = slice_subrange(bytes, *pos, *pos + 4);
        let x = u32_from_le_bytes(sub);
        *pos = *pos + 4;
        Some(x)
    } else {
        None
    }
}

/// Reads a little-endian `u64`, advancing the cursor.
fn read_u64(bytes: &[u8], pos: &mut usize) -> (r: Option<u64>)
    requires
        *old(pos) <= bytes@.len(),
    ensures
        *old(pos) <= *final(pos) <= bytes@.len(),
        *old(pos) + 8 <= bytes@.len() ==> (r matches Some(x) && x == spec_u64_from_le_bytes(
            bytes@.subrange(*old(pos) as int, *old(pos) + 8),
        ) && *final(pos) == *old(pos) + 8),
        *old(pos) + 8 > bytes@.len() ==> r is None && *final(pos) == *old(pos),
{
    if 8 <= bytes.len() - *pos {
        let sub = slice_subrange(bytes, *pos, *pos + 8);
        let x = u64_from_le_bytes(sub);
        *pos = *pos + 8;
        Some(x)
    } else {
        None
    }
}

/// Reads a length-prefixed UTF-8 string field, advancing the cursor.
///
/// Succeeds exactly when a well-formed field sits at the cursor; the result
/// is then the unique string whose field image sits there.
fn read_string(bytes: &[u8], pos: &mut usize) -> (r: Option<String>)
    requires
        *old(pos) <= bytes@.len(),
    ensures
        *old(pos) <= *final(pos) <= bytes@.len(),
        r matches Some(s) ==> str_ok(s@) && *final(pos) == *old(pos) + str_bytes(s@).len()
            && segment_at(bytes@, *old(pos) as int, str_bytes(s@)),
        forall|sv: Seq<char>|
            #![trigger str_bytes(sv)]
            str_ok(sv) && segment_at(bytes@, *old(pos) as int, str_bytes(sv)) ==> (r matches Some(
                s,
            ) && s@ == sv),
{
    let ghost p0 = *pos as int;
    proof {
        lemma_auto_spec_u64_to_from_le_bytes();
    }
    let len = match read_u64(bytes, pos) {
        Some(l) => l,
        None => {
            proof {
                assert forall|sv: Seq<char>|
                    #![trigger str_bytes(sv)]
                    !(str_ok(sv) && segment_at(bytes@, p0, str_bytes(sv))) by {
                    if str_ok(sv) && segment_at(bytes@, p0, str_bytes(sv)) {
                        assert(str_bytes(sv).len() >= 8);
                    }
                }
            }
            return None;
        },
    };
    let rem = bytes.len() - *pos;
    if len > rem as u64 {
        proof {
            assert forall|sv: Seq<char>|
                #![trigger str_bytes(sv)]
                !(str_ok(sv) && segment_at(bytes@, p0, str_bytes(sv))) by {
                if str_ok(sv) && segment_at(bytes@, p0, str_bytes(sv)) {
                    lemma_segment_split(
                        bytes@,
                        p0,
                        spec_u64_to_le_bytes(encode_utf8(sv).len() as u64),
                        encode_utf8(sv),
                    );
                    assert(bytes@.subrange(p0, p0 + 8) == spec_u64_to_le_bytes(
                        encode_utf8(sv).len() as u64,
                    ));
                    assert(len == encode_utf8(sv).len() as u64);
                }
            }
        }
        return None;
    }
    let n = len as usize;
    let chunk = read_chunk(bytes, pos, n).unwrap();
    let ghost cb = chunk@;
    match string_from_utf8(chunk) {
        Some(s) => {
            proof {
                decode_utf8_encode_utf8(cb);
                assert(encode_utf8(s@) == cb);
                assert(bytes@.subrange(p0, p0 + 8) == spec_u64_to_le_bytes(len));
                assert(cb.len() as u64 == len);
                lemma_segment_split(bytes@, p0, spec_u64_to_le_bytes(len), cb);
                assert(segment_at(bytes@, p0, str_bytes(s@)));
                assert forall|sv: Seq<char>|
                    #![trigger str_bytes(sv)]
                    str_ok(sv) && segment_at(bytes@, p0, str_bytes(sv)) implies s@ == sv by {
                    lemma_segment_split(
                        bytes@,
                        p0,
                        spec_u64_to_le_bytes(encode_utf8(sv).len() as u64),
                        encode_utf8(sv),
                    );
                    assert(bytes@.subrange(p0, p0 + 8) == spec_u64_to_le_bytes(
                        encode_utf8(sv).len() as u64,
                    ));
                    assert(len == encode_utf8(sv).len() as u64);
                    assert(cb =~= encode_utf8(sv));
                    encode_utf8_decode_utf8(sv);
                }
            }
            Some(s)
        },
        None => {
            proof {
                assert forall|sv: Seq<char>|
                    #![trigger str_bytes(sv)]
                    !(str_ok(sv) && segment_at(bytes@, p0, str_bytes(sv))) by {
                    if str_ok(sv) && segment_at(bytes@, p0, str_bytes(sv)) {
                        lemma_segment_split(
                            bytes@,
                            p0,
                            spec_u64_to_le_bytes(encode_utf8(sv).len() as u64),
                            encode_utf8(sv),
                        );
                        assert(bytes@.subrange(p0, p0 + 8) == spec_u64_to_le_bytes(
                            encode_utf8(sv).len() as u64,
                        ));
                        assert(len == encode_utf8(sv).len() as u64);
                        assert(cb =~= encode_utf8(sv));
                        encode_utf8_valid_utf8(sv);
                    }
                }
            }
            None
        },
    }
}

/// Copies `n` bytes at the cursor, advancing it.
fn read_chunk(bytes: &[u8], pos: &mut usize, n: usize) -> (r: Option<Vec<u8>>)
    requires
        *old(pos) <= bytes@.len(),
    ensures
        *old(pos) <= *final(pos) <= bytes@.len(),
        *old(pos) + n <= bytes@.len() ==> (r matches Some(v) && v@ == bytes@.subrange(
            *old(pos) as int,
            *old(pos) + n,
        ) && *final(pos) == *old(pos) + n),
        *old(pos) + n > bytes@.len() ==> r is None && *final(pos) == *old(pos),
{
    if n <= bytes.len() - *pos {
        let sub = slice_subrange(bytes, *pos, *pos + n);
        let v = slice_to_vec(sub);
        *pos = *pos + n;
        Some(v)
    } else {
        None
    }
}


/// Parses a dialog kind at the cursor.
///
/// Succeeds exactly when a well-formed kind image sits at the cursor; the
/// result is then the unique kind whose image sits there.
fn parse_kind(bytes: &[u8], pos: &mut usize) -> (r: Option<DialogKind>)
    requires
        *old(pos) <= bytes@.len(),
    ensures
        *old(pos) <= *final(pos) <= bytes@.len(),
        r matches Some(k) ==> kind_ok(k@) && *final(pos) == *old(pos) + kind_bytes(k@).len()
            && segment_at(bytes@, *old(pos) as int, kind_bytes(k@)),
        forall|kv: KindView|
            #![trigger kind_bytes(kv)]
            kind_ok(kv) && segment_at(bytes@, *old(pos) as int, kind_bytes(kv)) ==> (r matches Some(
                k,
            ) && k@ == kv),
{
    let ghost p0 = *pos as int;
    proof {
        lemma_auto_spec_u64_to_from_le_bytes();
        lemma_auto_spec_u16_to_from_le_bytes();
    }
    let tag_opt = read_u8(bytes, pos);
    let r: Option<DialogKind> = match tag_opt {
        None => None,
        Some(tag) => {
            if tag == 1 {
                match read_string(bytes, pos) {
                    Some(command) => Some(DialogKind::PrivilegeEscalation { command }),
                    None => None,
                }
            } else if tag == 2 {
                let f1 = read_string(bytes, pos);
                let f2 = read_string(bytes, pos);
                let f3 = read_string(bytes, pos);
                let pr = read_u16(bytes, pos);
                let f4 = read_string(bytes, pos);
                match (f1, f2, f3, pr, f4) {
                    (
                        Some(process),
                        Some(process_path),
                        Some(destination),
                        Some(port),
                        Some(protocol),
                    ) => Some(
                        DialogKind::NetworkConnection {
                            process,
                            process_path,
                            destination,
                            port,
                            protocol,
                        },
                    ),
                    _ => None,
                }
            } else if tag == 3 {
                let f1 = read_string(bytes, pos);
                let f2 = read_string(bytes, pos);
                let f3 = read_string(bytes, pos);
                match (f1, f2, f3) {
                    (Some(title), Some(message), Some(detail)) => Some(
                        DialogKind::Generic { title, message, detail },
                    ),
                    _ => None,
                }
            } else {
                None
            }
        },
    };
    proof {
        match &r {
            Option::Some(k) => {
                match k@ {
                    KindView::PrivilegeEscalation { command } => {
                        lemma_priv_layout(bytes@, p0, command);
                    },
                    KindView::NetworkConnection {
                        process,
                        process_path,
                        destination,
                        port,
                        protocol,
                    } => {
                        lemma_net_layout(
                            bytes@,
                            p0,
                            process,
                            process_path,
                            destination,
                            port,
                            protocol,
                        );
                    },
                    KindView::Generic { title, message, detail } => {
                        lemma_generic_layout(bytes@, p0, title, message, detail);
                    },
                }
            },
            Option::None => {},
        }
        assert forall|kv: KindView|
            kind_ok(kv) && segment_at(bytes@, p0, kind_bytes(kv)) implies (r matches Some(k) && k@
            == kv) by {
            match kv {
                KindView::PrivilegeEscalation { command } => {
                    lemma_priv_layout(bytes@, p0, command);
                },
                KindView::NetworkConnection {
                    process,
                    process_path,
                    destination,
                    port,
                    protocol,
                } => {
                    lemma_net_layout(bytes@, p0, process, process_path, destination, port, protocol);
                },
                KindView::Generic { title, message, detail } => {
                    lemma_generic_layout(bytes@, p0, title, message, detail);
                },
            }
        }
    }
    r
}

/// Parses the timeout field at the cursor.
fn parse_timeout(bytes: &[u8], pos: &mut usize) -> (r: Option<Option<u32>>)
    requires
        *old(pos) <= bytes@.len(),
    ensures
        *old(pos) <= *final(pos) <= bytes@.len(),
        r matches Some(t) ==> *final(pos) == *old(pos) + timeout_bytes(t).len() && segment_at(
            bytes@,
            *old(pos) as int,
            timeout_bytes(t),
        ),
        forall|t: Option<u32>|
            #![trigger timeout_bytes(t)]
            segment_at(bytes@, *old(pos) as int, timeout_bytes(t)) ==> (r matches Some(t2) && t2
                == t),
{
    let ghost p0 = *pos as int;
    proof {
        lemma_auto_spec_u32_to_from_le_bytes();
    }
    let flag_opt = read_u8(bytes, pos);
    let r: Option<Option<u32>> = match flag_opt {
        None => None,
        Some(flag) => {
            if flag == 0 {
                Some(None)
            } else if flag == 1 {
                match read_u32(bytes, pos) {
                    Some(n) => Some(Some(n)),
                    None => None,
                }
            } else {
                None
            }
        },
    };
    proof {
        match r {
            Option::Some(t) => {
                lemma_timeout_layout(bytes@, p0, t);
            },
            Option::None => {},
        }
        assert forall|t: Option<u32>|
            segment_at(bytes@, p0, timeout_bytes(t)) implies (r matches Some(t2) && t2 == t) by {
            lemma_timeout_layout(bytes@, p0, t);
        }
    }
    r
}

impl DialogConfig {
    /// Serialize the descriptor to its binary payload.
    pub fn to_bytes(&self) -> (r: Vec<u8>)
        ensures
            r@ == config_bytes(self@),
            encodable(self@),
    {
        let mut out: Vec<u8> = Vec::new();
        out.push(1u8);
        match &self.kind {
            DialogKind::PrivilegeEscalation { command } => {
                out.push(1u8);
                push_str_field(&mut out, command);
            },
            DialogKind::NetworkConnection {
                process,
                process_path,
                destination,
                port,
                protocol,
            } => {
                out.push(2u8);
                push_str_field(&mut out, process);
                push_str_field(&mut out, process_path);
                push_str_field(&mut out, destination);
                let mut pb = u16_to_le_bytes(*port);
                out.append(&mut pb);
                push_str_field(&mut out, protocol);
            },
            DialogKind::Generic { title, message, detail } => {
                out.push(3u8);
                push_str_field(&mut out, title);
                push_str_field(&mut out, message);
                push_str_field(&mut out, detail);
            },
        }
        match &self.timeout_secs {
            Option::None => {
                out.push(0u8);
            },
            Option::Some(n) => {
                out.push(1u8);
                let mut tb = u32_to_le_bytes(*n);
                out.append(&mut tb);
            },
        }
        proof {
            assert(out@ =~= config_bytes(self@));
        }
        out
    }

    /// Deserialize a descriptor from its binary payload.
    ///
    /// Succeeds exactly on the image of a descriptor, returning the unique
    /// descriptor with that image.
    pub fn from_bytes(bytes: &[u8]) -> (r: Result<DialogConfig, DecodeError>)
        ensures
            r matches Ok(c) ==> bytes@ == config_bytes(c@) && encodable(c@),
            forall|v: ConfigView|
                #![trigger config_bytes(v)]
                encodable(v) && bytes@ == config_bytes(v) ==> (r matches Ok(c) && c@ == v),
            r matches Err(e) ==> e == DecodeError::MalformedPayload,
    {
        let mut pos: usize = 0;
        let ver_opt = read_u8(bytes, &mut pos);
        let r: Result<DialogConfig, DecodeError> = match ver_opt {
            None => Err(DecodeError::MalformedPayload),
            Some(ver) => {
                if ver != 1 {
                    Err(DecodeError::MalformedPayload)
                } else {
                    match parse_kind(bytes, &mut pos) {
                        None => Err(DecodeError::MalformedPayload),
                        Some(kind) => {
                            match parse_timeout(bytes, &mut pos) {
                                None => Err(DecodeError::MalformedPayload),
                                Some(timeout_secs) => {
                                    if pos == bytes.len() {
                                        Ok(DialogConfig { kind, timeout_secs })
                                    } else {
                                        Err(DecodeError::MalformedPayload)
                                    }
                                },
                            }
                        },
                    }
                }
            },
        };
        proof {
            match &r {
                Result::Ok(c) => {
                    lemma_config_layout(bytes@, c@);
                },
                Result::Err(_) => {},
            }
            assert forall|v: ConfigView|
                encodable(v) && bytes@ == config_bytes(v) implies (r matches Ok(c) && c@ == v) by {
                lemma_config_layout(bytes@, v);
            }
        }
        r
    }

    /// Encode the descriptor as a single argument-safe command-line token.
    pub fn encode(&self) -> (r: String)
        ensures
            r@ == encoded_chars(config_bytes(self@)),
            encodable(self@),
    {
        let bytes = self.to_bytes();
        base64_encode(bytes.as_slice())
    }

    /// Decode a command-line token back into the descriptor it encodes.
    ///
    /// Rejects a token whose length is not a multiple of 4, one holding a
    /// character outside the transport alphabet, and one whose payload is
    /// not the image of any descriptor — each with its own error.
    pub fn decode(token: &str) -> (r: Result<DialogConfig, DecodeError>)
        ensures
            r matches Ok(c) ==> token@.len() % 4 == 0 && all_transport_chars(token@)
                && decoded_bytes(token@) == config_bytes(c@) && encodable(c@),
            forall|v: ConfigView|
                #![trigger config_bytes(v)]
                encodable(v) && token@ == encoded_chars(config_bytes(v)) ==> (r matches Ok(c) && c@
                    == v),
            (exists|i: int|
                0 <= i < 4 * (token@.len() as int / 4) && !is_transport_char(token@[i])) ==> r
                == Err::<DialogConfig, DecodeError>(DecodeError::TransportCharacter),
            (token@.len() % 4 != 0 && (forall|i: int|
                0 <= i < 4 * (token@.len() as int / 4) ==> is_transport_char(#[trigger] token@[i])))
                ==> r == Err::<DialogConfig, DecodeError>(DecodeError::TransportLength),
            (token@.len() % 4 == 0 && all_transport_chars(token@) && r is Err) ==> r == Err::<
                DialogConfig,
                DecodeError,
            >(DecodeError::MalformedPayload) && !(exists|v: ConfigView|
                encodable(v) && decoded_bytes(token@) == config_bytes(v)),
    {
        let bytes = match decode_transport(token) {
            Ok(b) => b,
            Err(TransportError::Length) => {
                proof {
                    assert forall|v: ConfigView|
                        #![trigger config_bytes(v)]
                        !(encodable(v) && token@ == encoded_chars(config_bytes(v))) by {
                        if encodable(v) && token@ == encoded_chars(config_bytes(v)) {
                            lemma_base64_round_trip(config_bytes(v));
                        }
                    }
                }
                return Err(DecodeError::TransportLength);
            },
            Err(TransportError::Character) => {
                proof {
                    assert forall|v: ConfigView|
                        #![trigger config_bytes(v)]
                        !(encodable(v) && token@ == encoded_chars(config_bytes(v))) by {
                        if encodable(v) && token@ == encoded_chars(config_bytes(v)) {
                            lemma_base64_round_trip(config_bytes(v));
                        }
                    }
                }
                return Err(DecodeError::TransportCharacter);
            },
        };
        let r = Self::from_bytes(bytes.as_slice());
        proof {
            assert forall|v: ConfigView|
                encodable(v) && token@ == encoded_chars(config_bytes(v)) implies (r matches Ok(c)
                && c@ == v) by {
                lemma_base64_round_trip(config_bytes(v));
            }
        }
        r
    }
}


/// Two string fields occupying the same offset are the same string.
proof fn lemma_str_at_unique(bytes: Seq<u8>, pos: int, s1: Seq<char>, s2: Seq<char>)
    requires
        str_ok(s1),
        str_ok(s2),
        segment_at(bytes, pos, str_bytes(s1)),
        segment_at(bytes, pos, str_bytes(s2)),
    ensures
        s1 == s2,
{
    lemma_auto_spec_u64_to_from_le_bytes();
    lemma_segment_split(bytes, pos, spec_u64_to_le_bytes(encode_utf8(s1).len() as u64), encode_utf8(s1));
    lemma_segment_split(bytes, pos, spec_u64_to_le_bytes(encode_utf8(s2).len() as u64), encode_utf8(s2));
    assert(spec_u64_to_le_bytes(encode_utf8(s1).len() as u64) == bytes.subrange(pos, pos + 8));
    assert(spec_u64_from_le_bytes(spec_u64_to_le_bytes(encode_utf8(s1).len() as u64))
        == spec_u64_from_le_bytes(spec_u64_to_le_bytes(encode_utf8(s2).len() as u64)));
    assert(encode_utf8(s1).len() == encode_utf8(s2).len());
    assert(encode_utf8(s1) == encode_utf8(s2));
    encode_utf8_decode_utf8(s1);
    encode_utf8_decode_utf8(s2);
}

/// Two kinds occupying the same offset are the same kind.
proof fn lemma_kind_at_unique(bytes: Seq<u8>, pos: int, k1: KindView, k2: KindView)
    requires
        kind_ok(k1),
        kind_ok(k2),
        segment_at(bytes, pos, kind_bytes(k1)),
        segment_at(bytes, pos, kind_bytes(k2)),
    ensures
        k1 == k2,
{
    lemma_auto_spec_u16_to_from_le_bytes();
    match k1 {
        KindView::PrivilegeEscalation { command } => {
            lemma_priv_layout(bytes, pos, command);
        },
        KindView::NetworkConnection { process, process_path, destination, port, protocol } => {
            lemma_net_layout(bytes, pos, process, process_path, destination, port, protocol);
        },
        KindView::Generic { title, message, detail } => {
            lemma_generic_layout(bytes, pos, title, message, detail);
        },
    }
    match k2 {
        KindView::PrivilegeEscalation { command } => {
            lemma_priv_layout(bytes, pos, command);
        },
        KindView::NetworkConnection { process, process_path, destination, port, protocol } => {
            lemma_net_layout(bytes, pos, process, process_path, destination, port, protocol);
        },
        KindView::Generic { title, message, detail } => {
            lemma_generic_layout(bytes, pos, title, message, detail);
        },
    }
    match (k1, k2) {
        (
            KindView::PrivilegeEscalation { command: c1 },
            KindView::PrivilegeEscalation { command: c2 },
        ) => {
            lemma_str_at_unique(bytes, pos + 1, c1, c2);
        },
        (
            KindView::NetworkConnection {
                process: a1,
                process_path: b1,
                destination: d1,
                port: p1,
                protocol: q1,
            },
            KindView::NetworkConnection {
                process: a2,
                process_path: b2,
                destination: d2,
                port: p2,
                protocol: q2,
            },
        ) => {
            lemma_str_at_unique(bytes, pos + 1, a1, a2);
            lemma_str_at_unique(bytes, pos + 1 + str_bytes(a1).len(), b1, b2);
            lemma_str_at_unique(
                bytes,
                pos + 1 + str_bytes(a1).len() + str_bytes(b1).len(),
                d1,
                d2,
            );
            let pp = pos + 1 + str_bytes(a1).len() + str_bytes(b1).len() + str_bytes(d1).len();
            assert(spec_u16_to_le_bytes(p1) == bytes.subrange(pp, pp + 2));
            assert(spec_u16_from_le_bytes(spec_u16_to_le_bytes(p1)) == spec_u16_from_le_bytes(
                spec_u16_to_le_bytes(p2),
            ));
            lemma_str_at_unique(bytes, pp + 2, q1, q2);
        },
        (
            KindView::Generic { title: t1, message: m1, detail: d1 },
            KindView::Generic { title: t2, message: m2, detail: d2 },
        ) => {
            lemma_str_at_unique(bytes, pos + 1, t1, t2);
            lemma_str_at_unique(bytes, pos + 1 + str_bytes(t1).len(), m1, m2);
            lemma_str_at_unique(
                bytes,
                pos + 1 + str_bytes(t1).len() + str_bytes(m1).len(),
                d1,
                d2,
            );
        },
        _ => {},
    }
}

/// Round trip: the token built from any representable descriptor view is a
/// well-formed transport encoding of exactly that descriptor's payload,
/// and no two distinct descriptor views share a payload. Together with the
/// contracts of `encode` and `decode`, decoding the encoding of any
/// representable descriptor yields that descriptor back.
pub proof fn lemma_round_trip(v: ConfigView, w: ConfigView)
    requires
        encodable(v),
        encodable(w),
    ensures
        decoded_bytes(encoded_chars(config_bytes(v))) == config_bytes(v),
        config_bytes(v) == config_bytes(w) ==> v == w,
{
    lemma_base64_round_trip(config_bytes(v));
    if config_bytes(v) == config_bytes(w) {
        let bytes = config_bytes(v);
        lemma_config_layout(bytes, v);
        lemma_config_layout(bytes, w);
        lemma_kind_at_unique(bytes, 1, v.kind, w.kind);
        let tp = 1 + kind_bytes(v.kind).len() as int;
        lemma_timeout_layout(bytes, tp, v.timeout_secs);
        lemma_timeout_layout(bytes, tp, w.timeout_secs);
        match (v.timeout_secs, w.timeout_secs) {
            (Option::Some(n1), Option::Some(n2)) => {
                lemma_auto_spec_u32_to_from_le_bytes();
                assert(spec_u32_to_le_bytes(n1) == bytes.subrange(tp + 1, tp + 5));
                assert(spec_u32_from_le_bytes(spec_u32_to_le_bytes(n1)) == spec_u32_from_le_bytes(
                    spec_u32_to_le_bytes(n2),
                ));
            },
            _ => {},
        }
        assert(v =~= w);
    }
}

} // verus!
