//! Base64 transport encoding.
//!
//! The binary form of a descriptor is wrapped in this restricted-alphabet
//! encoding (standard base64: `A`-`Z`, `a`-`z`, `0`-`9`, `+`, `/`, with `=`
//! padding) so that it survives as a single command-line argument with no
//! shell-metacharacter risk.

use vstd::prelude::*;

verus! {

/// True of characters in the base64 alphabet proper (no padding).
pub open spec fn is_alphabet_char(c: char) -> bool {
    (65 <= c as u32 && c as u32 <= 90)  // 'A'..='Z'
    || (97 <= c as u32 && c as u32 <= 122)  // 'a'..='z'
    || (48 <= c as u32 && c as u32 <= 57)  // '0'..='9'
    || c == '+' || c == '/'
}

/// True of the characters decoding accepts: the alphabet or `=` padding.
pub open spec fn is_transport_char(c: char) -> bool {
    is_alphabet_char(c) || c == '='
}

/// The 6-bit value of one transport character (`=` counts as 0).
pub open spec fn char_value(c: char) -> u8 {
    let u = c as u32;
    if 65 <= u && u <= 90 {
        (u - 65) as u8
    } else if 97 <= u && u <= 122 {
        (u - 71) as u8
    } else if 48 <= u && u <= 57 {
        (u + 4) as u8
    } else if c == '+' {
        62
    } else if c == '/' {
        63
    } else {
        0
    }
}

/// The alphabet character for a 6-bit value.
pub open spec fn value_char(v: u8) -> char
    recommends
        v < 64,
{
    if v < 26 {
        ((65 + v) as u8) as char
    } else if v < 52 {
        ((71 + v) as u8) as char
    } else if v < 62 {
        ((v - 4) as u8) as char
    } else if v == 62 {
        '+'
    } else {
        '/'
    }
}

/// True when every character of `s` is a transport character.
pub open spec fn all_transport_chars(s: Seq<char>) -> bool {
    forall|i: int| 0 <= i < s.len() ==> is_transport_char(#[trigger] s[i])
}

/// Bytes produced by one 4-character group. A `=` in the third or fourth
/// position suppresses the corresponding output byte.
pub open spec fn group_bytes(c0: char, c1: char, c2: char, c3: char) -> Seq<u8> {
    let a = char_value(c0);
    let b = char_value(c1);
    let c = char_value(c2);
    let d = char_value(c3);
    let first = seq![(a << 2) | (b >> 4)];
    let second = if c2 != '=' {
        seq![(b << 4) | (c >> 2)]
    } else {
        Seq::<u8>::empty()
    };
    let third = if c3 != '=' {
        seq![(c << 6) | d]
    } else {
        Seq::<u8>::empty()
    };
    first + second + third
}

/// The bytes a token decodes to, reading 4-character groups from the front.
pub open spec fn decoded_bytes(s: Seq<char>) -> Seq<u8>
    decreases s.len(),
{
    if s.len() < 4 {
        Seq::empty()
    } else {
        group_bytes(s[0], s[1], s[2], s[3]) + decoded_bytes(s.skip(4))
    }
}

/// The base64 encoding of a byte sequence: 3-byte groups become 4 alphabet
/// characters; a 1-byte tail becomes 2 characters and `==`; a 2-byte tail
/// becomes 3 characters and `=`.
pub open spec fn encoded_chars(data: Seq<u8>) -> Seq<char>
    decreases data.len(),
{
    if data.len() == 0 {
        Seq::empty()
    } else if data.len() == 1 {
        let x = data[0];
        seq![value_char(x >> 2), value_char((x << 4) & 0x3f), '=', '=']
    } else if data.len() == 2 {
        let x = data[0];
        let y = data[1];
        seq![
            value_char(x >> 2),
            value_char(((x << 4) & 0x3f) | (y >> 4)),
            value_char((y << 2) & 0x3f),
            '=',
        ]
    } else {
        let x = data[0];
        let y = data[1];
        let z = data[2];
        seq![
            value_char(x >> 2),
            value_char(((x << 4) & 0x3f) | (y >> 4)),
            value_char(((y << 2) & 0x3f) | (z >> 6)),
            value_char(z & 0x3f),
        ] + encoded_chars(data.skip(3))
    }
}

/// An alphabet character carries its own 6-bit value and is never `=`.
proof fn lemma_value_char(v: u8)
    requires
        v < 64,
    ensures
        is_alphabet_char(value_char(v)),
        value_char(v) != '=',
        char_value(value_char(v)) == v,
{
}

/// Decode one transport character to its 6-bit value.
fn decode_unit(c: char) -> (r: Option<u8>)
    ensures
        r is Some <==> is_transport_char(c),
        r matches Some(v) ==> v == char_value(c),
{
    let u = c as u32;
    if 65 <= u && u <= 90 {
        Some((u - 65) as u8)
    } else if 97 <= u && u <= 122 {
        Some((u - 71) as u8)
    } else if 48 <= u && u <= 57 {
        Some((u + 4) as u8)
    } else if u == 43 {
        Some(62)
    } else if u == 47 {
        Some(63)
    } else if u == 61 {
        Some(0)
    } else {
        None
    }
}

/// Alphabet character for a 6-bit value.
fn alphabet_char(v: u8) -> (c: char)
    requires
        v < 64,
    ensures
        c == value_char(v),
{
    if v < 26 {
        (65 + v) as char
    } else if v < 52 {
        (71 + v) as char
    } else if v < 62 {
        (v - 4) as char
    } else if v == 62 {
        '+'
    } else {
        '/'
    }
}

/// Encode bytes as a base64 token.
pub fn base64_encode(data: &[u8]) -> (r: String)
    ensures
        r@ == encoded_chars(data@),
{
    let mut out = String::new();
    let mut i: usize = 0;
    proof {
        assert(data@.skip(0) =~= data@);
    }
    while data.len() - i >= 3
        invariant
            i <= data.len(),
            out@ + encoded_chars(data@.skip(i as int)) == encoded_chars(data@),
        decreases data.len() - i,
    {
        let x = *vstd::slice::slice_index_get(data, i);
        let y = *vstd::slice::slice_index_get(data, i + 1);
        let z = *vstd::slice::slice_index_get(data, i + 2);
        proof {
            assert((x >> 2) < 64 && (((x << 4) & 0x3f) | (y >> 4)) < 64 && (((y << 2) & 0x3f) | (
            z >> 6)) < 64 && (z & 0x3f) < 64) by (bit_vector);
        }
        crate::text::push_char(&mut out, alphabet_char(x >> 2));
        crate::text::push_char(&mut out, alphabet_char(((x << 4) & 0x3f) | (y >> 4)));
        crate::text::push_char(&mut out, alphabet_char(((y << 2) & 0x3f) | (z >> 6)));
        crate::text::push_char(&mut out, alphabet_char(z & 0x3f));
        proof {
            assert(data@.skip(i as int).skip(3) =~= data@.skip(i as int + 3));
            assert(data@.skip(i as int)[0] == x && data@.skip(i as int)[1] == y && data@.skip(
                i as int,
            )[2] == z);
            assert(out@ + encoded_chars(data@.skip(i as int + 3)) == encoded_chars(data@));
        }
        i = i + 3;
    }
    let remaining = data.len() - i;
    if remaining == 1 {
        let x = *vstd::slice::slice_index_get(data, i);
        proof {
            assert((x >> 2) < 64 && ((x << 4) & 0x3f) < 64) by (bit_vector);
        }
        crate::text::push_char(&mut out, alphabet_char(x >> 2));
        crate::text::push_char(&mut out, alphabet_char((x << 4) & 0x3f));
        crate::text::push_char(&mut out, '=');
        crate::text::push_char(&mut out, '=');
        proof {
            assert(data@.skip(i as int)[0] == x);
            assert(out@ =~= encoded_chars(data@));
        }
    } else if remaining == 2 {
        let x = *vstd::slice::slice_index_get(data, i);
        let y = *vstd::slice::slice_index_get(data, i + 1);
        proof {
            assert((x >> 2) < 64 && (((x << 4) & 0x3f) | (y >> 4)) < 64 && ((y << 2) & 0x3f)
                < 64) by (bit_vector);
        }
        crate::text::push_char(&mut out, alphabet_char(x >> 2));
        crate::text::push_char(&mut out, alphabet_char(((x << 4) & 0x3f) | (y >> 4)));
        crate::text::push_char(&mut out, alphabet_char((y << 2) & 0x3f));
        crate::text::push_char(&mut out, '=');
        proof {
            assert(data@.skip(i as int)[0] == x && data@.skip(i as int)[1] == y);
            assert(out@ =~= encoded_chars(data@));
        }
    } else {
        proof {
            assert(data@.skip(i as int) =~= Seq::<u8>::empty());
            assert(out@ =~= encoded_chars(data@));
        }
    }
    out
}

/// Transport-level rejection: a token length that is not a multiple of 4,
/// or a character outside the transport alphabet.
#[derive(Debug, Clone, Copy, PartialEq, Eq, Structural)]
pub enum TransportError {
    /// Token length is not a multiple of 4.
    Length,
    /// A character outside the transport alphabet.
    Character,
}

/// Decode a base64 token to bytes.
///
/// Succeeds exactly when the token's length is a multiple of 4 and every
/// character is in the transport alphabet. Groups are checked from the
/// front, so a bad character in a complete group is reported before the
/// trailing short group is seen.
pub fn decode_transport(s: &str) -> (r: Result<Vec<u8>, TransportError>)
    ensures
        r is Ok <==> (s@.len() % 4 == 0 && all_transport_chars(s@)),
        r matches Ok(v) ==> v@ == decoded_bytes(s@),
        (exists|i: int|
            0 <= i < 4 * (s@.len() as int / 4) && !is_transport_char(s@[i])) ==> r == Err::<
            Vec<u8>,
            TransportError,
        >(TransportError::Character),
        (s@.len() % 4 != 0 && (forall|i: int|
            0 <= i < 4 * (s@.len() as int / 4) ==> is_transport_char(#[trigger] s@[i]))) ==> r
            == Err::<Vec<u8>, TransportError>(TransportError::Length),
{
    let n = s.unicode_len();
    let mut out: Vec<u8> = Vec::new();
    let mut i: usize = 0;
    proof {
        assert(s@.skip(0) =~= s@);
    }
    while n - i >= 4
        invariant
            n == s@.len(),
            i % 4 == 0,
            i <= n,
            forall|j: int| 0 <= j < i ==> is_transport_char(#[trigger] s@[j]),
            out@ + decoded_bytes(s@.skip(i as int)) == decoded_bytes(s@),
        decreases n - i,
    {
        let c0 = s.get_char(i);
        let c1 = s.get_char(i + 1);
        let c2 = s.get_char(i + 2);
        let c3 = s.get_char(i + 3);
        let a = match decode_unit(c0) {
            Some(v) => v,
            None => {
                return Err(TransportError::Character);
            },
        };
        let b = match decode_unit(c1) {
            Some(v) => v,
            None => {
                return Err(TransportError::Character);
            },
        };
        let c = match decode_unit(c2) {
            Some(v) => v,
            None => {
                return Err(TransportError::Character);
            },
        };
        let d = match decode_unit(c3) {
            Some(v) => v,
            None => {
                return Err(TransportError::Character);
            },
        };
        out.push((a << 2) | (b >> 4));
        if c2 != '=' {
            out.push((b << 4) | (c >> 2));
        }
        if c3 != '=' {
            out.push((c << 6) | d);
        }
        proof {
            assert(s@.skip(i as int).skip(4) =~= s@.skip(i as int + 4));
            assert(s@.skip(i as int)[0] == c0 && s@.skip(i as int)[1] == c1 && s@.skip(
                i as int,
            )[2] == c2 && s@.skip(i as int)[3] == c3);
            assert(out@ + decoded_bytes(s@.skip(i as int + 4)) =~= decoded_bytes(s@));
        }
        i = i + 4;
    }
    if i < n {
        return Err(TransportError::Length);
    }
    proof {
        assert(s@.skip(i as int) =~= Seq::<char>::empty());
        assert(out@ =~= decoded_bytes(s@));
    }
    Ok(out)
}

/// Decode a base64 token to bytes, reporting failures as messages.
pub fn base64_decode(s: &str) -> (r: Result<Vec<u8>, &'static str>)
    ensures
        r is Ok <==> (s@.len() % 4 == 0 && all_transport_chars(s@)),
        r matches Ok(v) ==> v@ == decoded_bytes(s@),
        (exists|i: int|
            0 <= i < 4 * (s@.len() as int / 4) && !is_transport_char(s@[i])) ==> (r matches Err(e)
            && e@ == "invalid base64 character"@),
        (s@.len() % 4 != 0 && (forall|i: int|
            0 <= i < 4 * (s@.len() as int / 4) ==> is_transport_char(#[trigger] s@[i]))) ==> (
        r matches Err(e) && e@ == "invalid base64 length"@),
{
    match decode_transport(s) {
        Ok(v) => Ok(v),
        Err(TransportError::Character) => Err("invalid base64 character"),
        Err(TransportError::Length) => Err("invalid base64 length"),
    }
}

/// Transport round trip: the encoding of any byte sequence — whether its
/// length leaves a tail of 0, 1 or 2 bytes, the empty sequence included —
/// is a well-formed token (length a multiple of 4, transport characters
/// only) that decodes back to the original bytes.
pub proof fn lemma_base64_round_trip(data: Seq<u8>)
    ensures
        encoded_chars(data).len() % 4 == 0,
        all_transport_chars(encoded_chars(data)),
        decoded_bytes(encoded_chars(data)) == data,
    decreases data.len(),
{
    let s = encoded_chars(data);
    if data.len() == 0 {
        assert(decoded_bytes(s) =~= data);
    } else if data.len() == 1 {
        let x = data[0];
        assert((x >> 2) < 64 && ((x << 4) & 0x3f) < 64) by (bit_vector);
        lemma_value_char(x >> 2);
        lemma_value_char((x << 4) & 0x3f);
        assert((((x >> 2) << 2) | (((x << 4) & 0x3f) >> 4)) == x) by (bit_vector);
        assert(s == seq![value_char(x >> 2), value_char((x << 4) & 0x3f), '=', '=']);
        assert(group_bytes(s[0], s[1], s[2], s[3]) =~= seq![x]);
        assert(s.skip(4) =~= Seq::<char>::empty());
        assert(decoded_bytes(Seq::<char>::empty()) == Seq::<u8>::empty());
        assert(decoded_bytes(s) =~= data);
    } else if data.len() == 2 {
        let x = data[0];
        let y = data[1];
        let i0 = x >> 2;
        let i1 = ((x << 4) & 0x3f) | (y >> 4);
        let i2 = (y << 2) & 0x3f;
        assert((x >> 2) < 64 && (((x << 4) & 0x3f) | (y >> 4)) < 64 && ((y << 2) & 0x3f)
            < 64) by (bit_vector);
        lemma_value_char(i0);
        lemma_value_char(i1);
        lemma_value_char(i2);
        assert((((x >> 2) << 2) | ((((x << 4) & 0x3f) | (y >> 4)) >> 4)) == x) by (bit_vector);
        assert((((((x << 4) & 0x3f) | (y >> 4)) << 4) | (((y << 2) & 0x3f) >> 2)) == y)
            by (bit_vector);
        assert(s == seq![value_char(i0), value_char(i1), value_char(i2), '=']);
        assert(group_bytes(s[0], s[1], s[2], s[3]) =~= seq![x, y]);
        assert(s.skip(4) =~= Seq::<char>::empty());
        assert(decoded_bytes(Seq::<char>::empty()) == Seq::<u8>::empty());
        assert(decoded_bytes(s) =~= data);
    } else {
        let x = data[0];
        let y = data[1];
        let z = data[2];
        let i0 = x >> 2;
        let i1 = ((x << 4) & 0x3f) | (y >> 4);
        let i2 = ((y << 2) & 0x3f) | (z >> 6);
        let i3 = z & 0x3f;
        assert((x >> 2) < 64 && (((x << 4) & 0x3f) | (y >> 4)) < 64 && (((y << 2) & 0x3f) | (z
            >> 6)) < 64 && (z & 0x3f) < 64) by (bit_vector);
        lemma_value_char(i0);
        lemma_value_char(i1);
        lemma_value_char(i2);
        lemma_value_char(i3);
        assert((((x >> 2) << 2) | ((((x << 4) & 0x3f) | (y >> 4)) >> 4)) == x) by (bit_vector);
        assert((((((x << 4) & 0x3f) | (y >> 4)) << 4) | (((((y << 2) & 0x3f) | (z >> 6))) >> 2))
            == y) by (bit_vector);
        assert(((((((y << 2) & 0x3f) | (z >> 6))) << 6) | (z & 0x3f)) == z) by (bit_vector);
        lemma_base64_round_trip(data.skip(3));
        assert(s.skip(4) =~= encoded_chars(data.skip(3)));
        assert(group_bytes(s[0], s[1], s[2], s[3]) =~= seq![x, y, z]);
        assert(decoded_bytes(s) =~= data);
        assert forall|i: int| 0 <= i < s.len() implies is_transport_char(#[trigger] s[i]) by {
            if i >= 4 {
                assert(s[i] == encoded_chars(data.skip(3))[i - 4]);
            }
        }
    }
}

} // verus!
