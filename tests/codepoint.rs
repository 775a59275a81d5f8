use json_core::unicode::{codepoint_to_utf8, handle_unicode_codepoint, hex_to_u32_nocheck};

fn decode(src: &[u8]) -> (Vec<u8>, usize, usize) {
    let mut dst = [0xAAu8; 8];
    let (written, consumed) = handle_unicode_codepoint(src, &mut dst);
    for b in &dst[written..] {
        assert_eq!(*b, 0xAA, "decoder wrote past the bytes it reported");
    }
    (dst[..written].to_vec(), written, consumed)
}

#[test]
fn ascii_escape() {
    assert_eq!(decode(b"\\u0041"), (vec![0x41], 1, 6));
}

#[test]
fn two_byte_escape() {
    assert_eq!(decode(b"\\u00e9"), (vec![0xC3, 0xA9], 2, 6));
    assert_eq!(decode(b"\\u00E9"), (vec![0xC3, 0xA9], 2, 6));
}

#[test]
fn three_byte_escape() {
    assert_eq!(decode(b"\\u20AC"), (vec![0xE2, 0x82, 0xAC], 3, 6));
    assert_eq!(decode(b"\\uffff"), (vec![0xEF, 0xBF, 0xBF], 3, 6));
    assert_eq!(decode(b"\\uE000"), (vec![0xEE, 0x80, 0x80], 3, 6));
}

#[test]
fn bmp_escapes_match_std_encoding() {
    let mut units: Vec<u32> = (0u32..0xD800).step_by(97).collect();
    units.extend((0xE000u32..=0xFFFF).step_by(89));
    units.push(0xD7FF);
    units.push(0xFFFF);
    for unit in units {
        let src = format!("\\u{:04x}", unit);
        let expected = char::from_u32(unit).unwrap().to_string().into_bytes();
        let (bytes, written, consumed) = decode(src.as_bytes());
        assert_eq!(bytes, expected, "unit {:#x}", unit);
        assert_eq!(written, expected.len());
        assert_eq!(consumed, 6);
    }
}

#[test]
fn surrogate_pair_escape() {
    assert_eq!(decode(b"\\uD83D\\uDE00"), (vec![0xF0, 0x9F, 0x98, 0x80], 4, 12));
}

#[test]
fn surrogate_pairs_match_std_encoding() {
    for high in (0xD800u32..=0xDBFF).step_by(61).chain([0xDBFF]) {
        for low in (0xDC00u32..=0xDFFF).step_by(67).chain([0xDFFF]) {
            let src = format!("\\u{:04X}\\u{:04x}", high, low);
            let scalar = (high - 0xD800) * 0x400 + (low - 0xDC00) + 0x10000;
            let expected = char::from_u32(scalar).unwrap().to_string().into_bytes();
            let (bytes, written, consumed) = decode(src.as_bytes());
            assert_eq!(bytes, expected);
            assert_eq!(written, 4);
            assert_eq!(consumed, 12);
        }
    }
}

#[test]
fn high_surrogate_without_second_escape_fails() {
    assert_eq!(decode(b"\\uD83Dabcdef"), (vec![], 0, 6));
    assert_eq!(decode(b"\\uD800\\x0041"), (vec![], 0, 6));
    assert_eq!(decode(b"\\uDBFF/u0041"), (vec![], 0, 6));
}

#[test]
fn high_surrogate_with_invalid_low_fails() {
    assert_eq!(decode(b"\\uD83D\\u0041"), (vec![], 0, 6));
    assert_eq!(decode(b"\\uD83D\\uD83D"), (vec![], 0, 6));
    assert_eq!(decode(b"\\uD83D\\uE000"), (vec![], 0, 6));
    assert_eq!(decode(b"\\uD83D\\uZZZZ"), (vec![], 0, 6));
    assert_eq!(decode(b"\\uD83D\\uDE0G"), (vec![], 0, 6));
}

#[test]
fn invalid_hex_fails() {
    assert_eq!(decode(b"\\uZZZZ"), (vec![], 0, 6));
    assert_eq!(decode(b"\\u00g0"), (vec![], 0, 6));
}

#[test]
fn lone_low_surrogate_is_encoded_as_is() {
    assert_eq!(decode(b"\\uDC00"), (vec![0xED, 0xB0, 0x80], 3, 6));
}

#[test]
fn hex_primitive_decodes_and_flags_bad_digits() {
    assert_eq!(hex_to_u32_nocheck(b"xx00e9", 2), 0x00e9);
    assert_eq!(hex_to_u32_nocheck(b"AbCd", 0), 0xABCD);
    assert!(hex_to_u32_nocheck(b"z000", 0) >= 0xFFFF_0000);
    assert!(hex_to_u32_nocheck(b"000z", 0) >= 0xFFFF_0000);
}

#[test]
fn encoder_writes_nothing_above_the_unicode_range() {
    let mut dst = [7u8; 4];
    assert_eq!(codepoint_to_utf8(0x110000, &mut dst), 0);
    assert_eq!(dst, [7u8; 4]);
    assert_eq!(codepoint_to_utf8(0x10FFFF, &mut dst), 4);
    assert_eq!(dst, [0xF4, 0x8F, 0xBF, 0xBF]);
}
