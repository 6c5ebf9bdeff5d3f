use vstd::prelude::*;
use vstd::utf8::{decode_utf8, valid_utf8};
use crate::error::{ClassLoadingError, ErrorKind};

verus! {

/// The first three bytes encode a high surrogate (U+D800..U+DBFF).
pub open spec fn is_high_surrogate(b0: u8, b1: u8, b2: u8) -> bool {
    b0 == 0xED && (b1 & 0xF0) == 0xA0 && (b2 & 0xC0) == 0x80
}

/// The three bytes encode a low surrogate (U+DC00..U+DFFF).
pub open spec fn is_low_surrogate(b3: u8, b4: u8, b5: u8) -> bool {
    b3 == 0xED && (b4 & 0xF0) == 0xB0 && (b5 & 0xC0) == 0x80
}

/// The supplementary code point of a surrogate pair, from the payload bits
/// of its two three-byte halves.
pub open spec fn pair_code_point(b1: u8, b2: u8, b4: u8, b5: u8) -> u32 {
    (0x10000u32 + pair_payload(b1, b2, b4, b5)) as u32
}

/// The twenty payload bits of a surrogate pair.
pub open spec fn pair_payload(b1: u8, b2: u8, b4: u8, b5: u8) -> u32 {
    (((b1 & 0x0F) as u32) << 16u32) | (((b2 & 0x3F) as u32) << 10u32)
        | (((b4 & 0x0F) as u32) << 6u32) | ((b5 & 0x3F) as u32)
}

/// The standard four-byte UTF-8 encoding of a supplementary code point.
pub open spec fn utf8_of_supplementary(cp: u32) -> Seq<u8> {
    seq![
        (0xF0u32 | (cp >> 18u32)) as u8,
        (0x80u32 | ((cp >> 12u32) & 0x3F)) as u8,
        (0x80u32 | ((cp >> 6u32) & 0x3F)) as u8,
        (0x80u32 | (cp & 0x3F)) as u8,
    ]
}

/// Rewrites modified UTF-8 into standard UTF-8: the two-byte null `C0 80`
/// becomes `00`, and a surrogate pair written as two three-byte halves becomes
/// the four-byte encoding of its code point. Every other byte is kept, so text
/// that is already standard UTF-8 comes out unchanged.
pub open spec fn mutf8_to_utf8(b: Seq<u8>) -> Seq<u8>
    decreases b.len(),
{
    if b.len() == 0 {
        Seq::empty()
    } else if b.len() >= 2 && b[0] == 0xC0 && b[1] == 0x80 {
        seq![0u8] + mutf8_to_utf8(b.subrange(2, b.len() as int))
    } else if b.len() >= 6 && is_high_surrogate(b[0], b[1], b[2]) && is_low_surrogate(b[3], b[4], b[5]) {
        utf8_of_supplementary(pair_code_point(b[1], b[2], b[4], b[5]))
            + mutf8_to_utf8(b.subrange(6, b.len() as int))
    } else {
        seq![b[0]] + mutf8_to_utf8(b.subrange(1, b.len() as int))
    }
}

/// The characters of a Utf8 constant's bytes, or `None` where they are
/// neither modified nor standard UTF-8.
pub open spec fn decode_mutf8(b: Seq<u8>) -> Option<Seq<char>> {
    if valid_utf8(mutf8_to_utf8(b)) {
        Some(decode_utf8(mutf8_to_utf8(b)))
    } else {
        None
    }
}

/// Relies on `String::from_utf8`: it accepts exactly the valid UTF-8 byte
/// strings, and the string then holds the characters they encode.
#[verifier::external_body]
fn string_from_utf8(b: Vec<u8>) -> (r: Option<String>)
    ensures
        r is Some <==> valid_utf8(b@),
        r matches Some(st) ==> st@ == decode_utf8(b@),
{
    String::from_utf8(b).ok()
}

/// The standard UTF-8 form of modified UTF-8 bytes.
pub fn transcode_mutf8(b: &[u8]) -> (r: Vec<u8>)
    ensures
        r@ == mutf8_to_utf8(b@),
{
    let mut out: Vec<u8> = Vec::new();
    let mut i: usize = 0;
    let n = b.len();
    assert(b@.subrange(0, n as int) =~= b@);
    while i < n
        invariant
            n == b@.len(),
            i <= n,
            out@ + mutf8_to_utf8(b@.subrange(i as int, n as int)) == mutf8_to_utf8(b@),
        decreases n - i,
    {
        let ghost rest = b@.subrange(i as int, n as int);
        let ghost old_out = out@;
        if n - i >= 2 && b[i] == 0xC0 && b[i + 1] == 0x80 {
            out.push(0u8);
            assert(rest.subrange(2, rest.len() as int) =~= b@.subrange(i + 2, n as int));
            i = i + 2;
            assert(old_out + mutf8_to_utf8(rest) =~= out@ + mutf8_to_utf8(b@.subrange(i as int, n as int)));
        } else if n - i >= 6 && b[i] == 0xED && (b[i + 1] & 0xF0) == 0xA0 && (b[i + 2] & 0xC0) == 0x80
            && b[i + 3] == 0xED && (b[i + 4] & 0xF0) == 0xB0 && (b[i + 5] & 0xC0) == 0x80 {
            let b1 = b[i + 1];
            let b2 = b[i + 2];
            let b4 = b[i + 4];
            let b5 = b[i + 5];
            let payload: u32 = (((b1 & 0x0F) as u32) << 16u32) | (((b2 & 0x3F) as u32) << 10u32)
                | (((b4 & 0x0F) as u32) << 6u32) | ((b5 & 0x3F) as u32);
            assert(payload <= 0xFFFFF) by (bit_vector)
                requires
                    payload == (((b1 & 0x0F) as u32) << 16u32) | (((b2 & 0x3F) as u32) << 10u32)
                        | (((b4 & 0x0F) as u32) << 6u32) | ((b5 & 0x3F) as u32),
            ;
            let cp: u32 = 0x10000u32 + payload;
            assert(cp == pair_code_point(b@[i + 1], b@[i + 2], b@[i + 4], b@[i + 5]));
            out.push((0xF0u32 | (cp >> 18u32)) as u8);
            out.push((0x80u32 | ((cp >> 12u32) & 0x3F)) as u8);
            out.push((0x80u32 | ((cp >> 6u32) & 0x3F)) as u8);
            out.push((0x80u32 | (cp & 0x3F)) as u8);
            assert(out@ =~= old_out + utf8_of_supplementary(cp));
            assert(rest.subrange(6, rest.len() as int) =~= b@.subrange(i + 6, n as int));
            i = i + 6;
            assert(old_out + mutf8_to_utf8(rest) =~= out@ + mutf8_to_utf8(b@.subrange(i as int, n as int)));
        } else {
            out.push(b[i]);
            assert(rest.subrange(1, rest.len() as int) =~= b@.subrange(i + 1, n as int));
            i = i + 1;
            assert(old_out + mutf8_to_utf8(rest) =~= out@ + mutf8_to_utf8(b@.subrange(i as int, n as int)));
        }
    }
    assert(b@.subrange(n as int, n as int) =~= Seq::<u8>::empty());
    assert(out@ + Seq::<u8>::empty() =~= out@);
    out
}

/// Decodes the bytes of a Utf8 constant, in modified or standard UTF-8.
pub fn decode_modified_utf8(b: &[u8]) -> (r: Result<String, ClassLoadingError>)
    ensures
        match r {
            Ok(st) => decode_mutf8(b@) == Some(st@),
            Err(e) => decode_mutf8(b@) is None && e.kind == ErrorKind::MalformedUtf8,
        },
{
    let standard = transcode_mutf8(b);
    match string_from_utf8(standard) {
        Some(st) => Ok(st),
        None => Err(ClassLoadingError::new(ErrorKind::MalformedUtf8)),
    }
}

/// The number of bytes that a lead byte claims for its character: a byte from
/// `0xED` up opens a six-byte surrogate pair, one from `0xE0` a three-byte
/// character, one from `0x80` a two-byte character, any other stands alone.
pub open spec fn lead_width(byte: u8) -> int {
    if byte >= 0xED {
        6
    } else if byte >= 0xE0 {
        3
    } else if byte >= 0x80 {
        2
    } else {
        1
    }
}

/// The number of characters in `b` counted by lead bytes, or `None` where the
/// last character claims more bytes than are left.
pub open spec fn lead_count(b: Seq<u8>) -> Option<nat>
    decreases b.len(),
{
    if b.len() == 0 {
        Some(0)
    } else if lead_width(b[0]) > b.len() {
        None
    } else {
        match lead_count(b.subrange(lead_width(b[0]), b.len() as int)) {
            Some(n) => Some(n + 1),
            None => None,
        }
    }
}

} // verus!
