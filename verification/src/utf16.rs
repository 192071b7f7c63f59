//! A model of UTF-16 with both byte orders: which byte sequences are
//! well-formed, what characters they stand for, and the encoding back, so
//! that decoding can be stated exactly and shown to round-trip.
//!
//! A byte sequence is well-formed UTF-16 when its length is even and, in its
//! sequence of 16-bit code units, every high surrogate is immediately
//! followed by a low surrogate and no low surrogate stands alone. Units
//! outside the surrogate ranges stand for themselves; a surrogate pair
//! stands for one supplementary-plane character.

use vstd::prelude::*;

verus! {

/// The code unit at index `i` of a little-endian byte sequence.
pub open spec fn unit_le_at(b: Seq<u8>, i: int) -> u16
    recommends
        0 <= i,
        2 * i + 1 < b.len(),
{
    (b[2 * i] as u16) | ((b[2 * i + 1] as u16) << 8)
}

/// The code unit at index `i` of a big-endian byte sequence.
pub open spec fn unit_be_at(b: Seq<u8>, i: int) -> u16
    recommends
        0 <= i,
        2 * i + 1 < b.len(),
{
    (b[2 * i + 1] as u16) | ((b[2 * i] as u16) << 8)
}

/// The code units of a little-endian byte sequence, a dangling last byte
/// left aside.
pub open spec fn units_le(b: Seq<u8>) -> Seq<u16> {
    Seq::new((b.len() / 2) as nat, |i: int| unit_le_at(b, i))
}

/// The code units of a big-endian byte sequence.
pub open spec fn units_be(b: Seq<u8>) -> Seq<u16> {
    Seq::new((b.len() / 2) as nat, |i: int| unit_be_at(b, i))
}

/// True for a unit in the high (leading) surrogate range.
pub open spec fn is_high_surrogate(u: u16) -> bool {
    0xD800 <= u <= 0xDBFF
}

/// True for a unit in the low (trailing) surrogate range.
pub open spec fn is_low_surrogate(u: u16) -> bool {
    0xDC00 <= u <= 0xDFFF
}

/// Well-formed UTF-16 at the unit level.
pub open spec fn valid_units(us: Seq<u16>) -> bool
    decreases us.len(),
{
    if us.len() == 0 {
        true
    } else if is_high_surrogate(us[0]) {
        us.len() >= 2 && is_low_surrogate(us[1]) && valid_units(us.skip(2))
    } else if is_low_surrogate(us[0]) {
        false
    } else {
        valid_units(us.skip(1))
    }
}

/// The scalar a surrogate pair stands for.
pub open spec fn combined_scalar(hi: u16, lo: u16) -> u32
    recommends
        is_high_surrogate(hi),
        is_low_surrogate(lo),
{
    (0x10000 + (hi - 0xD800) * 0x400 + (lo - 0xDC00)) as u32
}

/// The characters a well-formed unit sequence stands for.
pub open spec fn chars_of_units(us: Seq<u16>) -> Seq<char>
    recommends
        valid_units(us),
    decreases us.len(),
{
    if us.len() == 0 {
        Seq::empty()
    } else if is_high_surrogate(us[0]) {
        if us.len() >= 2 {
            seq![combined_scalar(us[0], us[1]) as char] + chars_of_units(us.skip(2))
        } else {
            Seq::empty()
        }
    } else {
        seq![(us[0] as u32) as char] + chars_of_units(us.skip(1))
    }
}

/// True when the bytes decode as UTF-16LE without any error.
pub open spec fn utf16le_ok(b: Seq<u8>) -> bool {
    b.len() % 2 == 0 && valid_units(units_le(b))
}

/// The characters a well-formed UTF-16LE byte sequence stands for.
pub open spec fn utf16le_chars(b: Seq<u8>) -> Seq<char> {
    chars_of_units(units_le(b))
}

/// True when the bytes decode as UTF-16BE without any error.
pub open spec fn utf16be_ok(b: Seq<u8>) -> bool {
    b.len() % 2 == 0 && valid_units(units_be(b))
}

/// The characters a well-formed UTF-16BE byte sequence stands for.
pub open spec fn utf16be_chars(b: Seq<u8>) -> Seq<char> {
    chars_of_units(units_be(b))
}

/// The high surrogate of a supplementary-plane character's encoding.
pub open spec fn high_surrogate_of(c: char) -> u16
    recommends
        c as u32 >= 0x10000,
{
    (0xD800 + ((c as u32) - 0x10000) / 0x400) as u16
}

/// The low surrogate of a supplementary-plane character's encoding.
pub open spec fn low_surrogate_of(c: char) -> u16
    recommends
        c as u32 >= 0x10000,
{
    (0xDC00 + ((c as u32) - 0x10000) % 0x400) as u16
}

/// The unit or surrogate pair a character encodes to.
pub open spec fn unit_encoding(c: char) -> Seq<u16> {
    if (c as u32) < 0x10000 {
        seq![(c as u32) as u16]
    } else {
        seq![high_surrogate_of(c), low_surrogate_of(c)]
    }
}

/// The UTF-16 encoding of a character sequence, at the unit level.
pub open spec fn encode_units(s: Seq<char>) -> Seq<u16>
    decreases s.len(),
{
    if s.len() == 0 {
        Seq::empty()
    } else {
        unit_encoding(s[0]) + encode_units(s.drop_first())
    }
}

/// A unit sequence written out as little-endian bytes.
pub open spec fn le_bytes_of(us: Seq<u16>) -> Seq<u8>
    decreases us.len(),
{
    if us.len() == 0 {
        Seq::empty()
    } else {
        seq![(us[0] & 0xFF) as u8, (us[0] >> 8) as u8] + le_bytes_of(us.drop_first())
    }
}

proof fn lemma_le_byte_recovery(lo: u8, hi: u8)
    by (bit_vector)
    ensures
        (((lo as u16) | ((hi as u16) << 8)) & 0xFF) as u8 == lo,
        (((lo as u16) | ((hi as u16) << 8)) >> 8) as u8 == hi,
{
}

proof fn lemma_pair_recovery(hi: u16, lo: u16)
    requires
        is_high_surrogate(hi),
        is_low_surrogate(lo),
    ensures
        0x10000 <= combined_scalar(hi, lo) <= 0x10FFFF,
        high_surrogate_of(combined_scalar(hi, lo) as char) == hi,
        low_surrogate_of(combined_scalar(hi, lo) as char) == lo,
{
    let v = 0x10000 + (hi - 0xD800) * 0x400 + (lo - 0xDC00);
    assert(0x10000 <= v <= 0x10FFFF);
    let c = combined_scalar(hi, lo) as char;
    assert(c as u32 == v);
    vstd::arithmetic::div_mod::lemma_fundamental_div_mod_converse(
        v - 0x10000,
        0x400,
        hi - 0xD800,
        lo - 0xDC00,
    );
}

proof fn lemma_encode_chars_of_units(us: Seq<u16>)
    requires
        valid_units(us),
    ensures
        encode_units(chars_of_units(us)) == us,
    decreases us.len(),
{
    if us.len() == 0 {
        assert(encode_units(chars_of_units(us)) =~= us);
    } else if is_high_surrogate(us[0]) {
        let rest = us.skip(2);
        lemma_encode_chars_of_units(rest);
        lemma_pair_recovery(us[0], us[1]);
        let c = combined_scalar(us[0], us[1]) as char;
        let chars = chars_of_units(us);
        assert(chars[0] == c);
        assert(chars.drop_first() =~= chars_of_units(rest));
        assert(unit_encoding(c) =~= seq![us[0], us[1]]);
        assert(encode_units(chars) =~= us);
    } else {
        let rest = us.skip(1);
        lemma_encode_chars_of_units(rest);
        let c = (us[0] as u32) as char;
        assert(c as u32 == us[0] as u32);
        let chars = chars_of_units(us);
        assert(chars[0] == c);
        assert(chars.drop_first() =~= chars_of_units(rest));
        assert(unit_encoding(c) =~= seq![us[0]]);
        assert(encode_units(chars) =~= us);
    }
}

proof fn lemma_le_bytes_of_units(b: Seq<u8>)
    requires
        b.len() % 2 == 0,
    ensures
        le_bytes_of(units_le(b)) == b,
    decreases b.len(),
{
    if b.len() == 0 {
        assert(le_bytes_of(units_le(b)) =~= b);
    } else {
        let tail = b.skip(2);
        lemma_le_bytes_of_units(tail);
        lemma_le_byte_recovery(b[0], b[1]);
        assert(units_le(b).drop_first() =~= units_le(tail));
        assert(units_le(b)[0] == unit_le_at(b, 0));
        assert(le_bytes_of(units_le(b)) =~= b);
    }
}

/// Decoding well-formed UTF-16LE bytes and encoding the characters back as
/// UTF-16LE reproduces the bytes exactly.
pub proof fn lemma_utf16le_round_trip(b: Seq<u8>)
    requires
        utf16le_ok(b),
    ensures
        le_bytes_of(encode_units(utf16le_chars(b))) == b,
{
    lemma_encode_chars_of_units(units_le(b));
    lemma_le_bytes_of_units(b);
}

} // verus!
