//! Building and comparing text.

use vstd::prelude::*;

verus! {

/// The texts of a list of strings.
pub open spec fn texts(s: Seq<String>) -> Seq<Seq<char>> {
    Seq::new(s.len(), |i: int| s[i]@)
}

pub broadcast proof fn lemma_texts_push(v: Seq<String>, s: String)
    ensures
        #[trigger] texts(v.push(s)) == texts(v).push(s@),
{
    assert(texts(v.push(s)) =~= texts(v).push(s@));
}

/// The texts of a map of strings.
pub open spec fn text_map(m: Map<u64, String>) -> Map<u64, Seq<char>> {
    m.map_values(|s: String| s@)
}

/// The texts of a list of pairs.
pub open spec fn pair_texts(v: Seq<(String, String)>) -> Seq<(Seq<char>, Seq<char>)> {
    Seq::new(v.len(), |i: int| (v[i].0@, v[i].1@))
}

pub broadcast proof fn lemma_pair_texts_push(v: Seq<(String, String)>, s: (String, String))
    ensures
        #[trigger] pair_texts(v.push(s)) == pair_texts(v).push((s.0@, s.1@)),
{
    assert(pair_texts(v.push(s)) =~= pair_texts(v).push((s.0@, s.1@)));
}

/// `String::push`: appends one character.
pub assume_specification[ String::push ](s: &mut String, c: char)
    ensures
        final(s)@ == old(s)@.push(c),
;

/// `char::from_u32`: the character with this code point, if there is one. The code points
/// that have none are the surrogates and everything above U+10FFFF.
pub assume_specification[ char::from_u32 ](i: u32) -> (r: Option<char>)
    ensures
        r is None <==> (0xD800 <= i < 0xE000 || i > 0x10FFFF),
        r matches Some(c) ==> c == i as char,
;

/// Whether two texts are the same.
pub fn same(a: &str, b: &str) -> (r: bool)
    ensures
        r == (a@ == b@),
{
    broadcast use vstd::utf8::encode_utf8_decode_utf8;

    let x: &[u8] = a.as_bytes();
    let y: &[u8] = b.as_bytes();
    if x.len() != y.len() {
        return false;
    }
    let mut i: usize = 0;
    while i < x.len()
        invariant
            i <= x@.len(),
            x@.len() == y@.len(),
            x@ == vstd::utf8::encode_utf8(a@),
            y@ == vstd::utf8::encode_utf8(b@),
            forall|k: int| 0 <= k < i ==> x@[k] == y@[k],
        decreases x@.len() - i,
    {
        if x[i] != y[i] {
            return false;
        }
        i += 1;
    }
    assert(x@ =~= y@);
    assert(vstd::utf8::decode_utf8(vstd::utf8::encode_utf8(a@)) == a@);
    assert(vstd::utf8::decode_utf8(vstd::utf8::encode_utf8(b@)) == b@);
    true
}

/// The characters of a text.
pub fn chars_of(s: &str) -> (r: Vec<char>)
    ensures
        r@ == s@,
{
    let mut out: Vec<char> = Vec::new();
    for c in it: s.chars()
        invariant
            out@.len() == it.index(),
            it.seq() == s@,
            forall|k: int| 0 <= k < it.index() ==> out@[k] == s@[k],
    {
        out.push(c);
    }
    out
}

/// A text made of these characters.
pub fn text_of(c: &[char]) -> (r: String)
    ensures
        r@ == c@,
{
    let mut out: String = String::new();
    let mut i: usize = 0;
    while i < c.len()
        invariant
            i <= c@.len(),
            out@ == c@.take(i as int),
        decreases c@.len() - i,
    {
        out.push(c[i]);
        assert(c@.take(i + 1) =~= c@.take(i as int).push(c@[i as int]));
        i += 1;
    }
    assert(c@.take(i as int) =~= c@);
    out
}

/// The decimal digit for `d`.
pub open spec fn digit(d: int) -> char {
    (48 + d) as char
}

/// A number in decimal, without leading zeros.
pub open spec fn dec(n: nat) -> Seq<char>
    decreases n,
{
    if n < 10 {
        seq![digit(n as int)]
    } else {
        dec(n / 10).push(digit((n % 10) as int))
    }
}

/// A number is written in decimal digits, and different numbers differently.
pub proof fn law_dec_tells_numbers_apart(a: nat, b: nat)
    ensures
        dec(a).len() > 0,
        forall|i: int| 0 <= i < dec(a).len() ==> '0' <= #[trigger] dec(a)[i] <= '9',
        dec(a) == dec(b) ==> a == b,
    decreases a + b,
{
    if a >= 10 {
        law_dec_tells_numbers_apart(a / 10, if b >= 10 { b / 10 } else { 0 });
        let front = dec(a / 10);
        assert forall|i: int| 0 <= i < dec(a).len() implies '0' <= #[trigger] dec(a)[i] <= '9' by {
            if i < front.len() {
                assert(dec(a)[i] == front[i]);
            }
        }
    }
    if dec(a) == dec(b) {
        if b >= 10 {
            law_dec_tells_numbers_apart(b / 10, if a >= 10 { a / 10 } else { 0 });
        }
        assert(dec(a).last() == dec(b).last());
        if a >= 10 && b >= 10 {
            assert(dec(a).drop_last() =~= dec(a / 10));
            assert(dec(b).drop_last() =~= dec(b / 10));
            assert(a % 10 == b % 10);
        }
    }
}

/// Appends a number in decimal.
pub fn push_dec(out: &mut String, n: u64)
    ensures
        final(out)@ == old(out)@ + dec(n as nat),
    decreases n,
{
    if n >= 10 {
        push_dec(out, n / 10);
    }
    out.push((48u8 + (n % 10) as u8) as char);
    assert(out@ =~= old(out)@ + dec(n as nat));
}

/// Appends a large number in decimal.
pub fn push_large(out: &mut String, n: u128)
    ensures
        final(out)@ == old(out)@ + dec(n as nat),
    decreases n,
{
    if n >= 10 {
        push_large(out, n / 10);
    }
    out.push((48u8 + (n % 10) as u8) as char);
    assert(out@ =~= old(out)@ + dec(n as nat));
}

/// The lower-case hexadecimal digit for `d`.
pub open spec fn hex_digit(d: int) -> char {
    if d < 10 {
        (48 + d) as char
    } else {
        (87 + d) as char
    }
}

/// A number in lower-case hexadecimal, without leading zeros.
pub open spec fn hex_text(n: nat) -> Seq<char>
    decreases n,
{
    if n < 16 {
        seq![hex_digit(n as int)]
    } else {
        hex_text(n / 16).push(hex_digit((n % 16) as int))
    }
}

/// The lower-case hexadecimal digit for `d`.
pub fn hex_char(d: u8) -> (c: char)
    requires
        d < 16,
    ensures
        c == hex_digit(d as int),
{
    if d < 10 {
        (48u8 + d) as char
    } else {
        (87u8 + d) as char
    }
}

/// Appends a number in lower-case hexadecimal.
pub fn push_hex(out: &mut String, n: u64)
    ensures
        final(out)@ == old(out)@ + hex_text(n as nat),
    decreases n,
{
    if n >= 16 {
        push_hex(out, n / 16);
    }
    out.push(hex_char((n % 16) as u8));
    assert(out@ =~= old(out)@ + hex_text(n as nat));
}

/// Two hexadecimal digits for each byte.
pub open spec fn hex_of(b: Seq<u8>) -> Seq<char> {
    Seq::new(
        2 * b.len(),
        |i: int| hex_digit(if i % 2 == 0 { b[i / 2] / 16 } else { b[i / 2] % 16 } as int),
    )
}

/// Two hexadecimal digits for each byte.
pub fn hex(b: &[u8]) -> (r: String)
    ensures
        r@ == hex_of(b@),
{
    let mut out: String = String::new();
    let mut i: usize = 0;
    while i < b.len()
        invariant
            i <= b@.len(),
            out@ == hex_of(b@.take(i as int)),
        decreases b@.len() - i,
    {
        out.push(hex_char(b[i] / 16));
        out.push(hex_char(b[i] % 16));
        assert(out@ =~= hex_of(b@.take(i + 1)));
        i += 1;
    }
    assert(b@.take(i as int) =~= b@);
    out
}

/// What a string of UTF-16 units says: a pair of surrogates is one character, and a surrogate
/// without its other half reads as U+FFFD.
pub open spec fn utf16(u: Seq<u16>) -> Seq<char>
    decreases u.len(),
{
    if u.len() == 0 {
        Seq::empty()
    } else if u[0] < 0xD800 || u[0] > 0xDFFF {
        seq![u[0] as char] + utf16(u.skip(1))
    } else if u[0] < 0xDC00 && u.len() >= 2 && 0xDC00 <= u[1] <= 0xDFFF {
        seq![(0x10000 + (u[0] - 0xD800) * 0x400 + (u[1] - 0xDC00)) as char] + utf16(u.skip(2))
    } else {
        seq!['\u{FFFD}'] + utf16(u.skip(1))
    }
}

/// Reads a string of UTF-16 units.
pub fn utf16_text(u: &[u16]) -> (r: String)
    ensures
        r@ == utf16(u@),
{
    let mut out: String = String::new();
    let mut i: usize = 0;
    assert(u@.skip(0) =~= u@);
    assert(out@ + utf16(u@) =~= utf16(u@));
    while i < u.len()
        invariant
            i <= u@.len(),
            utf16(u@) == out@ + utf16(u@.skip(i as int)),
        decreases u@.len() - i,
    {
        let ghost rest = u@.skip(i as int);
        let ghost before = out@;
        let one: u32 = u[i] as u32;
        let mut code: u32 = 0xFFFD;
        let mut used: usize = 1;
        if one < 0xD800 || one > 0xDFFF {
            code = one;
        } else if one < 0xDC00 && i + 1 < u.len() {
            let two: u32 = u[i + 1] as u32;
            if 0xDC00 <= two && two <= 0xDFFF {
                code = 0x10000 + (one - 0xD800) * 0x400 + (two - 0xDC00);
                used = 2;
            }
        }
        if let Some(c) = char::from_u32(code) {
            out.push(c);
        }
        proof {
            assert(rest.skip(used as int) =~= u@.skip(i + used));
            assert(out@ == before.push(code as char));
            assert(out@ + utf16(u@.skip(i + used)) =~= before + (seq![code as char] + utf16(
                rest.skip(used as int),
            )));
        }
        i += used;
    }
    assert(u@.skip(i as int) =~= Seq::empty());
    assert(out@ + Seq::<char>::empty() =~= out@);
    out
}

/// `before`, a number in decimal, `after`.
pub open spec fn said(before: Seq<char>, n: int, after: Seq<char>) -> Seq<char> {
    before + dec(n as nat) + after
}

/// `before`, a number in decimal, `after`.
pub fn say(before: &str, n: u64, after: &str) -> (r: String)
    ensures
        r@ == said(before@, n as int, after@),
{
    let mut out: String = before.to_owned();
    push_dec(&mut out, n);
    out.append(after);
    out
}

/// The texts one after another, with `sep` between each two.
pub open spec fn strung(s: Seq<Seq<char>>, sep: Seq<char>) -> Seq<char>
    decreases s.len(),
{
    if s.len() == 0 {
        Seq::empty()
    } else if s.len() == 1 {
        s[0]
    } else {
        strung(s.drop_last(), sep) + sep + s.last()
    }
}

/// The texts one after another, with `sep` between each two.
pub fn string_together(v: &Vec<String>, sep: &str) -> (r: String)
    ensures
        r@ == strung(texts(v@), sep@),
{
    let ghost s = texts(v@);
    let mut out: String = String::new();
    let mut i: usize = 0;
    assert(out@ =~= strung(s.take(0), sep@));
    while i < v.len()
        invariant
            i <= v@.len(),
            s == texts(v@),
            out@ == strung(s.take(i as int), sep@),
        decreases v@.len() - i,
    {
        assert(s.take(i + 1).drop_last() =~= s.take(i as int));
        assert(s.take(i + 1).last() == v@[i as int]@);
        if i > 0 {
            out.append(sep);
        }
        out.append(v[i].as_str());
        assert(i == 0 ==> out@ =~= v@[0]@);
        i += 1;
    }
    assert(s.take(i as int) =~= s);
    out
}

/// A number of one digit is that digit, and each further digit stands behind those before it.
pub proof fn law_digits_stand_highest_first(n: nat, d: nat)
    requires
        d < 10,
    ensures
        dec(d) == seq![(48 + d) as char],
        n > 0 ==> dec(10 * n + d) == dec(n).push((48 + d) as char),
{
    if n > 0 {
        assert((10 * n + d) / 10 == n && (10 * n + d) % 10 == d);
    }
}

/// Each byte is two digits, the higher one first: nought to nine and then `a` to `f`.
pub proof fn law_bytes_are_two_digits(b: Seq<u8>, i: int)
    requires
        0 <= i < b.len(),
    ensures
        hex_of(b).len() == 2 * b.len(),
        b[i] / 16 < 10 ==> hex_of(b)[2 * i] as int == '0' as int + b[i] / 16,
        b[i] / 16 >= 10 ==> hex_of(b)[2 * i] as int == 'a' as int + b[i] / 16 - 10,
        b[i] % 16 < 10 ==> hex_of(b)[2 * i + 1] as int == '0' as int + b[i] % 16,
        b[i] % 16 >= 10 ==> hex_of(b)[2 * i + 1] as int == 'a' as int + b[i] % 16 - 10,
{
    assert((2 * i) / 2 == i && (2 * i + 1) / 2 == i);
}

/// A unit that is no surrogate is the character of its number, a pair of surrogates is one
/// character beyond the first plane, and a surrogate alone reads as the mark for what cannot be
/// read. What follows is read in the same way.
pub proof fn law_units_read_one_by_one(u: Seq<u16>)
    requires
        u.len() > 0,
    ensures
        u[0] < 0xD800 || u[0] > 0xDFFF ==> utf16(u) == seq![u[0] as char] + utf16(u.skip(1)),
        u.len() >= 2 && 0xD800 <= u[0] < 0xDC00 && 0xDC00 <= u[1] <= 0xDFFF ==> utf16(u).len() > 0
            && utf16(u)[0] as int == 0x10000 + 0x400 * (u[0] - 0xD800) + (u[1] - 0xDC00)
            && utf16(u).skip(1) == utf16(u.skip(2)),
        0xDC00 <= u[0] <= 0xDFFF ==> utf16(u) == seq!['\u{FFFD}'] + utf16(u.skip(1)),
        0xD800 <= u[0] < 0xDC00 && (u.len() == 1 || u[1] < 0xDC00 || u[1] > 0xDFFF) ==> utf16(u)
            == seq!['\u{FFFD}'] + utf16(u.skip(1)),
        utf16(Seq::empty()).len() == 0,
{
    if u.len() >= 2 && 0xD800 <= u[0] < 0xDC00 && 0xDC00 <= u[1] <= 0xDFFF {
        assert(utf16(u).skip(1) =~= utf16(u.skip(2)));
    }
}

/// Texts are strung with the separator between each two of them, and none before the first or
/// behind the last.
pub proof fn law_separators_stand_between(s: Seq<Seq<char>>, one: Seq<char>, sep: Seq<char>)
    ensures
        strung(Seq::empty(), sep).len() == 0,
        s.len() == 0 ==> strung(s.push(one), sep) == one,
        s.len() > 0 ==> strung(s.push(one), sep) == strung(s, sep) + sep + one,
{
    assert(s.push(one).drop_last() =~= s);
}

} // verus!
