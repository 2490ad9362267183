//! The single-byte Western code page that older office formats write text in.

use vstd::prelude::*;

verus! {

/// What the bytes 0x80 to 0x9F stand for. The five that name no character stand for the
/// control character of the same number.
pub const HIGH: [char; 32] = [
    '\u{20AC}', '\u{81}', '\u{201A}', '\u{192}', '\u{201E}', '\u{2026}', '\u{2020}', '\u{2021}',
    '\u{2C6}', '\u{2030}', '\u{160}', '\u{2039}', '\u{152}', '\u{8D}', '\u{17D}', '\u{8F}',
    '\u{90}', '\u{2018}', '\u{2019}', '\u{201C}', '\u{201D}', '\u{2022}', '\u{2013}', '\u{2014}',
    '\u{2DC}', '\u{2122}', '\u{161}', '\u{203A}', '\u{153}', '\u{9D}', '\u{17E}', '\u{178}',
];

/// The character of a byte.
pub open spec fn cp1252_char(b: u8) -> char {
    if 0x80 <= b < 0xA0 {
        HIGH@[b - 0x80]
    } else {
        b as char
    }
}

/// The characters of a byte string.
pub open spec fn cp1252(b: Seq<u8>) -> Seq<char> {
    Seq::new(b.len(), |i: int| cp1252_char(b[i]))
}

/// Reads a byte string in the Western code page.
pub fn decode_cp1252(b: &[u8]) -> (r: String)
    ensures
        r@ == cp1252(b@),
{
    let mut out: String = String::new();
    let mut i: usize = 0;
    while i < b.len()
        invariant
            i <= b@.len(),
            out@ == cp1252(b@.take(i as int)),
        decreases b@.len() - i,
    {
        let one: u8 = b[i];
        if 0x80 <= one && one < 0xA0 {
            out.push(HIGH[(one - 0x80) as usize]);
        } else {
            out.push(one as char);
        }
        i += 1;
        assert(out@ =~= cp1252(b@.take(i as int)));
    }
    assert(b@.take(i as int) =~= b@);
    out
}

/// A byte below 0x80 or from 0xA0 on is the character of its number; the others are the typographic
/// marks and letters of the page, and the five that name none keep their number.
pub proof fn law_western_bytes(b: Seq<u8>, i: int)
    requires
        0 <= i < b.len(),
    ensures
        cp1252(b).len() == b.len(),
        b[i] < 0x80 || b[i] >= 0xA0 ==> cp1252(b)[i] as int == b[i],
        b[i] == 0x81 || b[i] == 0x8D || b[i] == 0x8F || b[i] == 0x90 || b[i] == 0x9D ==> cp1252(
            b,
        )[i] as int == b[i],
        b[i] == 0x80 ==> cp1252(b)[i] as int == 0x20AC,
        b[i] == 0x82 ==> cp1252(b)[i] as int == 0x201A,
        b[i] == 0x83 ==> cp1252(b)[i] as int == 0x192,
        b[i] == 0x84 ==> cp1252(b)[i] as int == 0x201E,
        b[i] == 0x85 ==> cp1252(b)[i] as int == 0x2026,
        b[i] == 0x86 ==> cp1252(b)[i] as int == 0x2020,
        b[i] == 0x87 ==> cp1252(b)[i] as int == 0x2021,
        b[i] == 0x88 ==> cp1252(b)[i] as int == 0x2C6,
        b[i] == 0x89 ==> cp1252(b)[i] as int == 0x2030,
        b[i] == 0x8A ==> cp1252(b)[i] as int == 0x160,
        b[i] == 0x8B ==> cp1252(b)[i] as int == 0x2039,
        b[i] == 0x8C ==> cp1252(b)[i] as int == 0x152,
        b[i] == 0x8E ==> cp1252(b)[i] as int == 0x17D,
        b[i] == 0x91 ==> cp1252(b)[i] as int == 0x2018,
        b[i] == 0x92 ==> cp1252(b)[i] as int == 0x2019,
        b[i] == 0x93 ==> cp1252(b)[i] as int == 0x201C,
        b[i] == 0x94 ==> cp1252(b)[i] as int == 0x201D,
        b[i] == 0x95 ==> cp1252(b)[i] as int == 0x2022,
        b[i] == 0x96 ==> cp1252(b)[i] as int == 0x2013,
        b[i] == 0x97 ==> cp1252(b)[i] as int == 0x2014,
        b[i] == 0x98 ==> cp1252(b)[i] as int == 0x2DC,
        b[i] == 0x99 ==> cp1252(b)[i] as int == 0x2122,
        b[i] == 0x9A ==> cp1252(b)[i] as int == 0x161,
        b[i] == 0x9B ==> cp1252(b)[i] as int == 0x203A,
        b[i] == 0x9C ==> cp1252(b)[i] as int == 0x153,
        b[i] == 0x9E ==> cp1252(b)[i] as int == 0x17E,
        b[i] == 0x9F ==> cp1252(b)[i] as int == 0x178,
{
    let h = HIGH@;
    assert(h[0] == '\u{20AC}' && h[1] == '\u{81}' && h[2] == '\u{201A}' && h[3] == '\u{192}' && h[4]
        == '\u{201E}' && h[5] == '\u{2026}' && h[6] == '\u{2020}' && h[7] == '\u{2021}');
    assert(h[8] == '\u{2C6}' && h[9] == '\u{2030}' && h[10] == '\u{160}' && h[11] == '\u{2039}'
        && h[12] == '\u{152}' && h[13] == '\u{8D}' && h[14] == '\u{17D}' && h[15] == '\u{8F}');
    assert(h[16] == '\u{90}' && h[17] == '\u{2018}' && h[18] == '\u{2019}' && h[19] == '\u{201C}'
        && h[20] == '\u{201D}' && h[21] == '\u{2022}' && h[22] == '\u{2013}' && h[23]
        == '\u{2014}');
    assert(h[24] == '\u{2DC}' && h[25] == '\u{2122}' && h[26] == '\u{161}' && h[27] == '\u{203A}'
        && h[28] == '\u{153}' && h[29] == '\u{9D}' && h[30] == '\u{17E}' && h[31] == '\u{178}');
}

} // verus!
