use vstd::prelude::*;

verus! {

/// The byte that a simple escape designator stands for, or 0 when the byte
/// after the backslash is not a directly substitutable escape (including `u`).
pub open spec fn escaped_byte(designator: u8) -> u8 {
    if designator == 0x22 {
        0x22
    } else if designator == 0x5c {
        0x5c
    } else if designator == 0x2f {
        0x2f
    } else if designator == 0x62 {
        0x08
    } else if designator == 0x66 {
        0x0c
    } else if designator == 0x6e {
        0x0a
    } else if designator == 0x72 {
        0x0d
    } else if designator == 0x74 {
        0x09
    } else {
        0
    }
}

/// Looks up the byte that follows a backslash in the escape table: the literal
/// byte for `\"`, `\\`, `\/`, `\b`, `\f`, `\n`, `\r` and `\t`, and 0 for every
/// other byte. `u` is not handled here: callers must test for it before the
/// lookup.
pub fn unescape_byte(designator: u8) -> (r: u8)
    ensures
        r == escaped_byte(designator),
{
    match designator {
        0x22 => 0x22,
        0x5c => 0x5c,
        0x2f => 0x2f,
        0x62 => 0x08,
        0x66 => 0x0c,
        0x6e => 0x0a,
        0x72 => 0x0d,
        0x74 => 0x09,
        _ => 0,
    }
}

} // verus!
