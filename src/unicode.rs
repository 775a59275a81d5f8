use vstd::prelude::*;
use vstd::utf8::*;

verus! {

/// The value of one hexadecimal digit (`0-9`, `a-f`, `A-F`), if it is one.
pub open spec fn hex_digit_value(b: u8) -> Option<u32> {
    if 0x30 <= b <= 0x39 {
        Some((b - 0x30) as u32)
    } else if 0x41 <= b <= 0x46 {
        Some((b - 0x41 + 10) as u32)
    } else if 0x61 <= b <= 0x66 {
        Some((b - 0x61 + 10) as u32)
    } else {
        None
    }
}

/// The 16-bit unit spelled by the four hex digits at `s[at..at + 4]`, if they
/// are all hex digits.
pub open spec fn hex_unit(s: Seq<u8>, at: int) -> Option<u32> {
    match (
        hex_digit_value(s[at]),
        hex_digit_value(s[at + 1]),
        hex_digit_value(s[at + 2]),
        hex_digit_value(s[at + 3]),
    ) {
        (Some(a), Some(b), Some(c), Some(d)) => Some((a * 0x1000 + b * 0x100 + c * 0x10 + d) as u32),
        _ => None,
    }
}

pub open spec fn is_high_surrogate(u: u32) -> bool {
    0xD800 <= u < 0xDC00
}

pub open spec fn is_low_surrogate(u: u32) -> bool {
    0xDC00 <= u < 0xE000
}

/// The scalar that a high and a low surrogate jointly encode.
pub open spec fn surrogate_pair_scalar(high: u32, low: u32) -> u32 {
    ((high - 0xD800) * 0x400 + (low - 0xDC00) + 0x10000) as u32
}

/// The bytes that the encoder writes for a codepoint: UTF-8 for every scalar,
/// the same three-byte layout for a lone surrogate, and nothing above 0x10FFFF.
pub open spec fn utf8_bytes(cp: u32) -> Seq<u8> {
    if cp <= 0x7F {
        seq![leading_byte_width_1(cp)]
    } else if cp <= 0x7FF {
        seq![leading_byte_width_2(cp), last_continuation_byte(cp)]
    } else if cp <= 0xFFFF {
        seq![
            leading_byte_width_3(cp),
            second_last_continuation_byte(cp),
            last_continuation_byte(cp),
        ]
    } else if cp <= 0x10FFFF {
        seq![
            leading_byte_width_4(cp),
            third_last_continuation_byte(cp),
            second_last_continuation_byte(cp),
            last_continuation_byte(cp),
        ]
    } else {
        seq![]
    }
}

/// Whether the escape window `src`, which starts at a backslash, goes on with a
/// second `\u` right after the first six bytes.
pub open spec fn second_escape_follows(src: Seq<u8>) -> bool {
    src[6] == 0x5c && src[7] == 0x75
}

/// The bytes that the caller guarantees to be readable: six, eight after a high
/// surrogate, and twelve where a second `\u` follows it.
pub open spec fn escape_window_ok(src: Seq<u8>) -> bool {
    &&& src.len() >= 6
    &&& match hex_unit(src, 2) {
        Some(high) => is_high_surrogate(high) ==> src.len() >= 8 && (second_escape_follows(src)
            ==> src.len() >= 12),
        None => true,
    }
}

/// What decoding the `\u` escape at the start of `src` produces: the bytes
/// written and the number of source bytes consumed. A failure writes nothing
/// and still consumes six bytes.
pub open spec fn decode_escape(src: Seq<u8>) -> (Seq<u8>, nat) {
    match hex_unit(src, 2) {
        None => (seq![], 6),
        Some(high) => if !is_high_surrogate(high) {
            (utf8_bytes(high), 6)
        } else if !second_escape_follows(src) {
            (seq![], 6)
        } else {
            match hex_unit(src, 8) {
                Some(low) => if is_low_surrogate(low) {
                    (utf8_bytes(surrogate_pair_scalar(high, low)), 12)
                } else {
                    (seq![], 6)
                },
                None => (seq![], 6),
            }
        },
    }
}

/// The sentinel that marks an invalid hex digit; any unit built from it has
/// all of its upper 16 bits set.
const INVALID_DIGIT: u32 = 0xFFFF_FFFF;

fn hex_digit(b: u8) -> (r: u32)
    ensures
        match hex_digit_value(b) {
            Some(v) => r == v,
            None => r == INVALID_DIGIT,
        },
{
    if 0x30u8 <= b && b <= 0x39u8 {
        (b - 0x30u8) as u32
    } else if 0x41u8 <= b && b <= 0x46u8 {
        (b - 0x41u8 + 10) as u32
    } else if 0x61u8 <= b && b <= 0x66u8 {
        (b - 0x61u8 + 10) as u32
    } else {
        INVALID_DIGIT
    }
}

/// Decodes the four hex digits at `src[at..at + 4]`. An invalid digit does
/// not stop the work: it leaves all of the upper 16 bits of the result set.
pub fn hex_to_u32_nocheck(src: &[u8], at: usize) -> (r: u32)
    requires
        at + 4 <= src@.len(),
    ensures
        match hex_unit(src@, at as int) {
            Some(v) => r == v,
            None => r >= 0xFFFF_0000,
        },
{
    let a = hex_digit(src[at]);
    let b = hex_digit(src[at + 1]);
    let c = hex_digit(src[at + 2]);
    let d = hex_digit(src[at + 3]);
    let r = (a << 12u32) | (b << 8u32) | (c << 4u32) | d;
    if a < 16 && b < 16 && c < 16 && d < 16 {
        assert(r == a * 0x1000 + b * 0x100 + c * 0x10 + d) by (bit_vector)
            requires
                r == (a << 12u32) | (b << 8u32) | (c << 4u32) | d,
                a < 16 && b < 16 && c < 16 && d < 16,
        ;
    } else {
        assert(r >= 0xFFFF_0000) by (bit_vector)
            requires
                r == (a << 12u32) | (b << 8u32) | (c << 4u32) | d,
                a < 16 || a == 0xFFFF_FFFF,
                b < 16 || b == 0xFFFF_FFFF,
                c < 16 || c == 0xFFFF_FFFF,
                d < 16 || d == 0xFFFF_FFFF,
                !(a < 16 && b < 16 && c < 16 && d < 16),
        ;
    }
    r
}

/// Writes the encoding of `cp` to the front of `dst` and returns its length;
/// a value above 0x10FFFF writes nothing and returns 0.
pub fn codepoint_to_utf8(cp: u32, dst: &mut [u8]) -> (n: usize)
    requires
        old(dst)@.len() >= 4,
    ensures
        n == utf8_bytes(cp).len(),
        final(dst)@.len() == old(dst)@.len(),
        final(dst)@.subrange(0, n as int) == utf8_bytes(cp),
        final(dst)@.subrange(n as int, old(dst)@.len() as int) == old(dst)@.subrange(
            n as int,
            old(dst)@.len() as int,
        ),
{
    if cp <= 0x7F {
        dst[0] = (cp & 0x7F) as u8;
        assert(dst@.subrange(0, 1) =~= utf8_bytes(cp));
        assert(dst@.subrange(1, dst@.len() as int) =~= old(dst)@.subrange(1, dst@.len() as int));
        1
    } else if cp <= 0x7FF {
        dst[0] = 0xC0 | ((cp >> 6) & 0x1F) as u8;
        dst[1] = 0x80 | (cp & 0x3F) as u8;
        assert(dst@.subrange(0, 2) =~= utf8_bytes(cp));
        assert(dst@.subrange(2, dst@.len() as int) =~= old(dst)@.subrange(2, dst@.len() as int));
        2
    } else if cp <= 0xFFFF {
        dst[0] = 0xE0 | ((cp >> 12) & 0x0F) as u8;
        dst[1] = 0x80 | ((cp >> 6) & 0x3F) as u8;
        dst[2] = 0x80 | (cp & 0x3F) as u8;
        assert(dst@.subrange(0, 3) =~= utf8_bytes(cp));
        assert(dst@.subrange(3, dst@.len() as int) =~= old(dst)@.subrange(3, dst@.len() as int));
        3
    } else if cp <= 0x10FFFF {
        dst[0] = 0xF0 | ((cp >> 18) & 0x7) as u8;
        dst[1] = 0x80 | ((cp >> 12) & 0x3F) as u8;
        dst[2] = 0x80 | ((cp >> 6) & 0x3F) as u8;
        dst[3] = 0x80 | (cp & 0x3F) as u8;
        assert(dst@.subrange(0, 4) =~= utf8_bytes(cp));
        assert(dst@.subrange(4, dst@.len() as int) =~= old(dst)@.subrange(4, dst@.len() as int));
        4
    } else {
        assert(dst@.subrange(0, 0) =~= utf8_bytes(cp));
        assert(dst@.subrange(0, dst@.len() as int) =~= old(dst)@);
        0
    }
}

/// Decodes the `\u` escape at the start of `src` (and the low half that must
/// follow a high surrogate) into `dst`, returning (bytes written, bytes
/// consumed). Bad hex digits or a missing or invalid low surrogate give
/// (0, 6). A lone low surrogate is encoded as it stands.
pub fn handle_unicode_codepoint(src: &[u8], dst: &mut [u8]) -> (r: (usize, usize))
    requires
        escape_window_ok(src@),
        old(dst)@.len() >= 4,
    ensures
        r.0 == decode_escape(src@).0.len(),
        r.1 == decode_escape(src@).1,
        final(dst)@.len() == old(dst)@.len(),
        final(dst)@.subrange(0, r.0 as int) == decode_escape(src@).0,
        final(dst)@.subrange(r.0 as int, old(dst)@.len() as int) == old(dst)@.subrange(
            r.0 as int,
            old(dst)@.len() as int,
        ),
{
    let mut code_point = hex_to_u32_nocheck(src, 2);
    let mut src_offset: usize = 6;
    if code_point >= 0xd800 && code_point < 0xdc00 {
        if src[6] != 0x5cu8 || src[7] != 0x75u8 {
            assert(dst@.subrange(0, dst@.len() as int) =~= old(dst)@);
            return (0, src_offset);
        }
        let code_point_2 = hex_to_u32_nocheck(src, 8);
        // An invalid digit leaves the upper bits set, which is outside the
        // low-surrogate range as well.
        if code_point_2 < 0xdc00 || code_point_2 >= 0xe000 {
            assert(dst@.subrange(0, dst@.len() as int) =~= old(dst)@);
            return (0, src_offset);
        }
        let high_bits = code_point - 0xd800;
        let low_bits = code_point_2 - 0xdc00;
        let combined = (high_bits << 10u32) | low_bits;
        assert(combined == high_bits * 0x400 + low_bits) by (bit_vector)
            requires
                combined == (high_bits << 10u32) | low_bits,
                high_bits < 0x400,
                low_bits < 0x400,
        ;
        code_point = combined + 0x10000;
        src_offset += 6;
    }
    let offset = codepoint_to_utf8(code_point, dst);
    (offset, src_offset)
}

/// On every Unicode scalar the encoder's bytes are exactly its UTF-8 encoding.
pub proof fn lemma_utf8_bytes_of_scalar(cp: u32)
    requires
        is_scalar(cp),
    ensures
        utf8_bytes(cp) == encode_scalar(cp),
{
}

/// A `\u` escape of a unit outside the surrogate range decodes to the UTF-8
/// encoding of that unit and consumes six bytes.
pub proof fn lemma_decode_single_unit(src: Seq<u8>, unit: u32)
    requires
        src.len() >= 6,
        hex_unit(src, 2) == Some(unit),
        unit <= 0xD7FF || (0xE000 <= unit && unit <= 0xFFFF),
    ensures
        is_scalar(unit),
        decode_escape(src) == (encode_scalar(unit), 6nat),
{
    lemma_utf8_bytes_of_scalar(unit);
}

/// A high surrogate escape followed by a low surrogate escape decodes to the
/// UTF-8 encoding of the scalar the pair stands for and consumes twelve bytes.
pub proof fn lemma_decode_surrogate_pair(src: Seq<u8>, high: u32, low: u32)
    requires
        src.len() >= 12,
        hex_unit(src, 2) == Some(high),
        second_escape_follows(src),
        hex_unit(src, 8) == Some(low),
        0xD800 <= high <= 0xDBFF,
        0xDC00 <= low <= 0xDFFF,
    ensures
        surrogate_pair_scalar(high, low) == (high - 0xD800) * 0x400 + (low - 0xDC00) + 0x10000,
        is_scalar(surrogate_pair_scalar(high, low)),
        decode_escape(src) == (encode_scalar(surrogate_pair_scalar(high, low)), 12nat),
{
    lemma_utf8_bytes_of_scalar(surrogate_pair_scalar(high, low));
}

/// A high surrogate escape that is not followed at once by a second `\u`
/// writes nothing and consumes six bytes.
pub proof fn lemma_decode_unpaired_high(src: Seq<u8>, high: u32)
    requires
        src.len() >= 8,
        hex_unit(src, 2) == Some(high),
        is_high_surrogate(high),
        !second_escape_follows(src),
    ensures
        decode_escape(src) == (Seq::<u8>::empty(), 6nat),
{
    assert(decode_escape(src).0 =~= Seq::<u8>::empty());
}

/// A high surrogate escape followed by a `\u` whose digits do not spell a low
/// surrogate writes nothing and consumes six bytes.
pub proof fn lemma_decode_bad_low(src: Seq<u8>, high: u32)
    requires
        src.len() >= 12,
        hex_unit(src, 2) == Some(high),
        is_high_surrogate(high),
        second_escape_follows(src),
        match hex_unit(src, 8) {
            Some(low) => !is_low_surrogate(low),
            None => true,
        },
    ensures
        decode_escape(src) == (Seq::<u8>::empty(), 6nat),
{
    assert(decode_escape(src).0 =~= Seq::<u8>::empty());
}

} // verus!
