//! Cell references and the links on cells.

use crate::bytes::{le16, le32, word16, word32};
use crate::lists::piece_of;
use crate::text::{chars_of, dec, hex, hex_of, law_dec_tells_numbers_apart, push_dec, same};
use vstd::prelude::*;

use super::sst::{spell, spelling};

verus! {

/// The letter for a remainder.
pub open spec fn letter(d: int) -> char {
    (65 + d) as char
}

/// A column in letters: `A` to `Z`, then `AA`, with no letter for nothing.
pub open spec fn letters(col: nat) -> Seq<char>
    decreases col,
{
    if col < 26 {
        seq![letter(col as int)]
    } else {
        letters((col / 26 - 1) as nat).push(letter((col % 26) as int))
    }
}

/// A cell reference: rows and columns count from zero, references from one.
pub open spec fn cell_name(row: int, col: int) -> Seq<char> {
    letters(col as nat) + dec((row + 1) as nat)
}

/// Appends a column in letters.
pub fn push_letters(out: &mut String, col: u128)
    ensures
        final(out)@ == old(out)@ + letters(col as nat),
    decreases col,
{
    if col >= 26 {
        push_letters(out, col / 26 - 1);
    }
    out.push((65u8 + (col % 26) as u8) as char);
    assert(out@ =~= old(out)@ + letters(col as nat));
}

/// The reference of a cell.
pub fn a1(row: u32, col: u32) -> (r: String)
    requires
        row < u32::MAX,
    ensures
        r@ == cell_name(row as int, col as int),
{
    let mut out: String = String::new();
    push_letters(&mut out, col as u128);
    push_dec(&mut out, row as u64 + 1);
    assert(out@ =~= cell_name(row as int, col as int));
    out
}

/// A text without the zeros at its end.
pub open spec fn unterminated(s: Seq<char>) -> Seq<char>
    decreases s.len(),
{
    if s.len() > 0 && s.last() == '\u{0}' {
        unterminated(s.drop_last())
    } else {
        s
    }
}

/// Text in UTF-16 units without the zeros at its end.
fn wide_text(raw: &[u8]) -> (r: String)
    ensures
        r@ == unterminated(spelling(raw@, true)),
{
    let whole: String = spell(raw, true);
    let chars: Vec<char> = chars_of(whole.as_str());
    let mut n: usize = chars.len();
    assert(chars@.take(n as int) =~= chars@);
    while n > 0 && chars[n - 1] == '\u{0}'
        invariant
            n <= chars@.len(),
            unterminated(chars@) == unterminated(chars@.take(n as int)),
        decreases n,
    {
        assert(chars@.take(n as int).drop_last() =~= chars@.take(n - 1));
        n -= 1;
    }
    whole.as_str().substring_char(0, n).to_owned()
}

/// The bytes that set a link to an address apart from a link to a place in the book.
pub const GUID_SECOND: [u8; 16] = [
    0xe0, 0xc9, 0xea, 0x79, 0xf9, 0xba, 0xce, 0x11, 0x8c, 0x82, 0x00, 0xaa, 0x00, 0x4b, 0xa9, 0x0b,
];

/// One link record.
#[derive(Debug, Clone)]
pub struct Link {
    pub first_row: u64,
    pub last_row: u64,
    pub first_col: u64,
    pub last_col: u64,
    /// The number at byte 24, as written.
    pub at24: u64,
    /// The number at byte 28, as written.
    pub at28: u64,
    pub guid_first: String,
    pub guid_second: bool,
    pub friendly: String,
    pub target: Option<String>,
    pub location: Option<String>,
    /// Whether the fields add up to the length of the record.
    pub whole: bool,
}

/// Where the text shown for a link ends.
pub open spec fn friendly_end(b: Seq<u8>) -> int {
    36 + 2 * word32(b, 32)
}

/// Whether a link leads to an address: the second mark follows the text.
pub open spec fn leads_out(b: Seq<u8>) -> bool {
    friendly_end(b) + 16 <= b.len() && b.subrange(friendly_end(b), friendly_end(b) + 16)
        == GUID_SECOND@
}

/// Where the address or the place begins.
pub open spec fn place_start(b: Seq<u8>) -> int {
    friendly_end(b) + if leads_out(b) { 20int } else { 4int }
}

/// How many bytes the address or the place takes. An address says so in bytes, a place in
/// UTF-16 units.
pub open spec fn place_bytes(b: Seq<u8>) -> int {
    if leads_out(b) {
        word32(b, friendly_end(b) + 16)
    } else {
        2 * word32(b, friendly_end(b))
    }
}

/// A link record can be cut into its fields.
pub open spec fn link_fits(b: Seq<u8>) -> bool {
    b.len() >= 36 && place_start(b) <= b.len() && place_start(b) + place_bytes(b) <= b.len()
}

/// The address or the place of a link.
pub open spec fn place_text(b: Seq<u8>) -> Seq<char> {
    unterminated(spelling(b.subrange(place_start(b), place_start(b) + place_bytes(b)), true))
}

impl Link {
    /// The link is what the record says.
    pub open spec fn describes(self, b: Seq<u8>) -> bool {
        &&& self.first_row == word16(b, 0)
        &&& self.last_row == word16(b, 2)
        &&& self.first_col == word16(b, 4)
        &&& self.last_col == word16(b, 6)
        &&& self.at24 == word32(b, 24)
        &&& self.at28 == word32(b, 28)
        &&& self.guid_first@ == hex_of(b.subrange(8, 24))
        &&& self.guid_second == leads_out(b)
        &&& self.friendly@ == unterminated(spelling(b.subrange(36, friendly_end(b)), true))
        &&& match self.target {
            Some(t) => leads_out(b) && t@ == place_text(b),
            None => !leads_out(b),
        }
        &&& match self.location {
            Some(t) => !leads_out(b) && t@ == place_text(b),
            None => leads_out(b),
        }
        &&& self.whole == (place_start(b) + place_bytes(b) == b.len())
    }

    /// The cells that the link lies on: one reference, or two with a colon where the record
    /// covers more than one cell.
    pub fn reference(&self) -> (r: String)
        requires
            (self.first_row as u32) < u32::MAX,
            (self.last_row as u32) < u32::MAX,
        ensures
            ({
                let from = cell_name(
                    (self.first_row as u32) as int,
                    (self.first_col as u32) as int,
                );
                let to = cell_name((self.last_row as u32) as int, (self.last_col as u32) as int);
                r@ == if from == to {
                    from
                } else {
                    from + ":"@ + to
                }
            }),
    {
        let from: String = a1(self.first_row as u32, self.first_col as u32);
        let to: String = a1(self.last_row as u32, self.last_col as u32);
        if same(from.as_str(), to.as_str()) {
            from
        } else {
            let mut out: String = from;
            out.append(":");
            out.append(to.as_str());
            out
        }
    }
}

/// Cuts a link record into its fields, or gives `None` where it is too short for them.
pub fn hlink(body: &[u8]) -> (r: Option<Link>)
    ensures
        match r {
            Some(one) => link_fits(body@) && one.describes(body@),
            None => !link_fits(body@),
        },
{
    let size: usize = body.len();
    if size < 36 {
        return None;
    }
    let count: u64 = le32(body, 32).unwrap();
    if 36 + 2 * count > size as u64 {
        return None;
    }
    let friendly_at: usize = (36 + 2 * count) as usize;
    let friendly: String = wide_text(
        {
            let raw: Vec<u8> = piece_of(body, 36, friendly_at - 36);
            assert(raw@ =~= body@.subrange(36, friendly_end(body@)));
            raw
        }.as_slice(),
    );
    let mark: Vec<u8> = piece_of(body, friendly_at, 16);
    let mut out: bool = mark.len() == 16;
    let mut i: usize = 0;
    while i < 16 && out
        invariant
            i <= 16,
            out ==> mark@.len() == 16,
            out ==> forall|k: int| 0 <= k < i ==> mark@[k] == GUID_SECOND@[k],
            !out ==> mark@ != GUID_SECOND@,
        decreases 16 - i + if out { 1int } else { 0int },
    {
        if mark[i] != GUID_SECOND[i] {
            assert(mark@[i as int] != GUID_SECOND@[i as int]);
            out = false;
        } else {
            i += 1;
        }
    }
    proof {
        if out {
            assert(mark@ =~= GUID_SECOND@);
        }
        assert(out == leads_out(body@));
    }
    let skip: usize = if out {
        20
    } else {
        4
    };
    if skip > size - friendly_at {
        return None;
    }
    let from: usize = friendly_at + skip;
    let stated: u64 = le32(body, from - 4).unwrap();
    let wanted: u64 = if out {
        stated
    } else {
        2 * stated
    };
    if wanted > (size - from) as u64 {
        return None;
    }
    let raw: Vec<u8> = piece_of(body, from, wanted as usize);
    assert(raw@ =~= body@.subrange(place_start(body@), place_start(body@) + place_bytes(body@)));
    let place: String = wide_text(raw.as_slice());
    let class: Vec<u8> = piece_of(body, 8, 16);
    assert(class@ =~= body@.subrange(8, 24));
    let (target, location): (Option<String>, Option<String>) = if out {
        (Some(place), None)
    } else {
        (None, Some(place))
    };
    Some(
        Link {
            first_row: le16(body, 0).unwrap(),
            last_row: le16(body, 2).unwrap(),
            first_col: le16(body, 4).unwrap(),
            last_col: le16(body, 6).unwrap(),
            at24: le32(body, 24).unwrap(),
            at28: le32(body, 28).unwrap(),
            guid_first: hex(class.as_slice()),
            guid_second: out,
            friendly,
            target,
            location,
            whole: from + wanted as usize == size,
        },
    )
}

/// A column is written in capital letters, and different columns differently.
proof fn lemma_letters(a: nat, b: nat)
    ensures
        letters(a).len() > 0,
        forall|i: int| 0 <= i < letters(a).len() ==> 'A' <= #[trigger] letters(a)[i] <= 'Z',
        letters(a) == letters(b) ==> a == b,
    decreases a + b,
{
    if a >= 26 {
        lemma_letters((a / 26 - 1) as nat, if b >= 26 { (b / 26 - 1) as nat } else { 0 });
        let front = letters((a / 26 - 1) as nat);
        assert forall|i: int| 0 <= i < letters(a).len() implies 'A' <= #[trigger] letters(a)[i]
            <= 'Z' by {
            if i < front.len() {
                assert(letters(a)[i] == front[i]);
            }
        }
    }
    if letters(a) == letters(b) {
        if b >= 26 {
            lemma_letters((b / 26 - 1) as nat, if a >= 26 { (a / 26 - 1) as nat } else { 0 });
        }
        assert(letters(a).last() == letters(b).last());
        if a >= 26 && b >= 26 {
            assert(letters(a).drop_last() =~= letters((a / 26 - 1) as nat));
            assert(letters(b).drop_last() =~= letters((b / 26 - 1) as nat));
            assert(a % 26 == b % 26);
        }
    }
}

/// Different cells have different references.
pub proof fn law_references_tell_cells_apart(r1: nat, c1: nat, r2: nat, c2: nat)
    requires
        cell_name(r1 as int, c1 as int) == cell_name(r2 as int, c2 as int),
    ensures
        r1 == r2,
        c1 == c2,
{
    let x = letters(c1);
    let y = letters(c2);
    let p = dec(r1 + 1);
    let q = dec(r2 + 1);
    lemma_letters(c1, c2);
    lemma_letters(c2, c1);
    law_dec_tells_numbers_apart(r1 + 1, r2 + 1);
    law_dec_tells_numbers_apart(r2 + 1, r1 + 1);
    let s = cell_name(r1 as int, c1 as int);
    if x.len() < y.len() {
        assert(s[x.len() as int] == p[0]);
        assert(s[x.len() as int] == y[x.len() as int]);
    } else if y.len() < x.len() {
        assert(s[y.len() as int] == q[0]);
        assert(s[y.len() as int] == x[y.len() as int]);
    }
    assert(x =~= s.take(x.len() as int));
    assert(y =~= s.take(y.len() as int));
    assert(p =~= s.skip(x.len() as int));
    assert(q =~= s.skip(y.len() as int));
}

/// The number that capital letters stand for, where `A` is one and `AA` follows `Z`.
pub open spec fn letters_value(s: Seq<char>) -> int
    decreases s.len(),
{
    if s.len() == 0 {
        0
    } else {
        26 * letters_value(s.drop_last()) + (s.last() as int - 'A' as int + 1)
    }
}

/// A column reads back from its letters, counted from one: the twenty-seventh is `AA`.
pub proof fn law_letters_read_back(col: nat)
    ensures
        letters_value(letters(col)) == col + 1,
    decreases col,
{
    reveal_with_fuel(letters_value, 2);
    if col >= 26 {
        law_letters_read_back((col / 26 - 1) as nat);
        assert(letters(col).drop_last() =~= letters((col / 26 - 1) as nat));
    } else {
        assert(letters(col).drop_last() =~= Seq::empty());
    }
}

/// A reference is the letters of the column and, behind them, the number of the row counted from
/// one.
pub proof fn law_a_reference_names_column_and_row(row: nat, col: nat)
    ensures
        exists|k: int|
            0 < k < cell_name(row as int, col as int).len() && letters_value(
                #[trigger] cell_name(row as int, col as int).take(k),
            ) == col + 1 && cell_name(row as int, col as int).skip(k) == dec(row + 1),
{
    law_letters_read_back(col);
    lemma_letters(col, col);
    law_dec_tells_numbers_apart(row + 1, row + 1);
    let k = letters(col).len() as int;
    assert(cell_name(row as int, col as int).take(k) =~= letters(col));
    assert(cell_name(row as int, col as int).skip(k) =~= dec(row + 1));
}

/// A link record says which cells it lies on in its first eight bytes: the first and the last row
/// and then the first and the last column. It leads to an address exactly where the sixteen bytes
/// behind its text are the mark of one, and to a place in the book otherwise; an address is
/// counted in bytes and a place in units of two bytes.
pub proof fn law_a_link_is_its_bytes(l: Link, b: Seq<u8>)
    requires
        link_fits(b),
        l.describes(b),
    ensures
        l.first_row == b[0] + 256 * b[1],
        l.last_row == b[2] + 256 * b[3],
        l.first_col == b[4] + 256 * b[5],
        l.last_col == b[6] + 256 * b[7],
        l.at24 == b[24] + 0x100 * b[25] + 0x1_0000 * b[26] + 0x100_0000 * b[27],
        l.at28 == b[28] + 0x100 * b[29] + 0x1_0000 * b[30] + 0x100_0000 * b[31],
        l.target is Some <==> l.guid_second,
        l.location is Some <==> !l.guid_second,
        ({
            let end = 36 + 2 * (b[32] + 0x100 * b[33] + 0x1_0000 * b[34] + 0x100_0000 * b[35]);
            let mark = seq![
                0xe0u8,
                0xc9,
                0xea,
                0x79,
                0xf9,
                0xba,
                0xce,
                0x11,
                0x8c,
                0x82,
                0x00,
                0xaa,
                0x00,
                0x4b,
                0xa9,
                0x0b,
            ];
            &&& l.friendly@ == unterminated(spelling(b.subrange(36, end), true))
            &&& l.guid_second <==> end + 16 <= b.len() && b.subrange(end, end + 16) == mark
            &&& l.guid_second ==> {
                let n = b[end + 16] + 0x100 * b[end + 17] + 0x1_0000 * b[end + 18] + 0x100_0000
                    * b[end + 19];
                &&& l.target->0@ == unterminated(
                    spelling(b.subrange(end + 20, end + 20 + n), true),
                )
                &&& l.whole == (end + 20 + n == b.len())
            }
            &&& !l.guid_second ==> {
                let n = 2 * (b[end] + 0x100 * b[end + 1] + 0x1_0000 * b[end + 2] + 0x100_0000
                    * b[end + 3]);
                &&& l.location->0@ == unterminated(
                    spelling(b.subrange(end + 4, end + 4 + n), true),
                )
                &&& l.whole == (end + 4 + n == b.len())
            }
        }),
{
    assert(GUID_SECOND@ =~= seq![
        0xe0u8,
        0xc9,
        0xea,
        0x79,
        0xf9,
        0xba,
        0xce,
        0x11,
        0x8c,
        0x82,
        0x00,
        0xaa,
        0x00,
        0x4b,
        0xa9,
        0x0b,
    ]);
}

/// A text without the zeros at its end does not end with one, and nothing but zeros is taken off.
pub proof fn law_only_closing_zeros_come_off(s: Seq<char>)
    ensures
        unterminated(s).len() > 0 ==> unterminated(s).last() != '\u{0}',
        unterminated(s).len() <= s.len(),
        unterminated(s) == s.take(unterminated(s).len() as int),
        forall|i: int| unterminated(s).len() <= i < s.len() ==> #[trigger] s[i] == '\u{0}',
    decreases s.len(),
{
    if s.len() > 0 && s.last() == '\u{0}' {
        law_only_closing_zeros_come_off(s.drop_last());
        let k = unterminated(s).len() as int;
        assert(s.drop_last().take(k) =~= s.take(k));
        assert forall|i: int| k <= i < s.len() implies #[trigger] s[i] == '\u{0}' by {
            if i < s.len() - 1 {
                assert(s.drop_last()[i] == s[i]);
            }
        }
    } else {
        assert(s.take(s.len() as int) =~= s);
    }
}

/// A link that lies on one cell names it once. One that lies on more names the first and the last
/// with a colon between them.
pub proof fn law_which_cells_a_link_lies_on(l: &Link, r: String)
    requires
        l.first_row < u32::MAX,
        l.last_row < u32::MAX,
        l.first_col <= u32::MAX,
        l.last_col <= u32::MAX,
        call_ensures(Link::reference, (l,), r),
    ensures
        l.first_row == l.last_row && l.first_col == l.last_col ==> r@ == cell_name(
            l.first_row as int,
            l.first_col as int,
        ),
        l.first_row != l.last_row || l.first_col != l.last_col ==> r@ == cell_name(
            l.first_row as int,
            l.first_col as int,
        ) + seq![':'] + cell_name(l.last_row as int, l.last_col as int),
{
    if cell_name(l.first_row as int, l.first_col as int) == cell_name(
        l.last_row as int,
        l.last_col as int,
    ) {
        law_references_tell_cells_apart(
            l.first_row as nat,
            l.first_col as nat,
            l.last_row as nat,
            l.last_col as nat,
        );
    }
    reveal_strlit(":");
    assert(":"@ =~= seq![':']);
}

/// A link has the class that the sixteen bytes behind its cells say, digit by digit.
pub proof fn law_which_class_a_link_has(l: Link, b: Seq<u8>)
    requires
        l.describes(b),
    ensures
        l.guid_first@ == hex_of(b.subrange(8, 24)),
{
}

} // verus!
