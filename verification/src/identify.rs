//! The first bytes of a file as they are shown.

use crate::text::{hex_char, hex_digit};
use vstd::prelude::*;

verus! {

/// How many of the first bytes are shown.
pub const SHOWN: usize = 16;

/// Two hexadecimal digits for each byte, with a space between two bytes.
pub open spec fn spaced_hex(b: Seq<u8>) -> Seq<char>
    decreases b.len(),
{
    if b.len() == 0 {
        Seq::empty()
    } else {
        let before = spaced_hex(b.drop_last());
        let gap = if before.len() == 0 {
            before
        } else {
            before.push(' ')
        };
        gap.push(hex_digit((b.last() / 16) as int)).push(hex_digit((b.last() % 16) as int))
    }
}

/// Writes bytes as hexadecimal digits, with a space between two bytes.
pub fn hex(b: &[u8]) -> (r: String)
    ensures
        r@ == spaced_hex(b@),
{
    let mut out: String = String::new();
    let mut i: usize = 0;
    assert(b@.take(0) =~= Seq::empty());
    assert(out@ =~= spaced_hex(b@.take(0)));
    while i < b.len()
        invariant
            i <= b@.len(),
            out@ == spaced_hex(b@.take(i as int)),
            (i == 0) == (out@.len() == 0),
        decreases b@.len() - i,
    {
        assert(b@.take(i + 1).drop_last() =~= b@.take(i as int));
        if i > 0 {
            out.push(' ');
        }
        out.push(hex_char(b[i] / 16));
        out.push(hex_char(b[i] % 16));
        i += 1;
        assert(out@ =~= spaced_hex(b@.take(i as int)));
    }
    assert(b@.take(i as int) =~= b@);
    out
}

/// The first bytes of a file as they are shown.
pub fn magic_hex(b: &[u8]) -> (r: String)
    ensures
        r@ == spaced_hex(
            if b@.len() < SHOWN {
                b@
            } else {
                b@.take(SHOWN as int)
            },
        ),
{
    let n: usize = if b.len() < SHOWN {
        b.len()
    } else {
        SHOWN
    };
    let head: Vec<u8> = crate::lists::piece_of(b, 0, n);
    assert(head@ =~= if b@.len() < SHOWN {
        b@
    } else {
        b@.take(SHOWN as int)
    });
    hex(head.as_slice())
}

/// Different bytes are shown differently.
pub proof fn law_shown_bytes_tell_files_apart(a: Seq<u8>, b: Seq<u8>)
    requires
        spaced_hex(a) == spaced_hex(b),
    ensures
        a == b,
    decreases a.len(),
{
    lemma_shown_size(a);
    lemma_shown_size(b);
    if a.len() > 0 && b.len() > 0 {
        let x = spaced_hex(a);
        let y = spaced_hex(b);
        let m = x.len() as int;
        assert(x[m - 1] == hex_digit((a.last() % 16) as int));
        assert(y[m - 1] == hex_digit((b.last() % 16) as int));
        assert(x[m - 2] == hex_digit((a.last() / 16) as int));
        assert(y[m - 2] == hex_digit((b.last() / 16) as int));
        assert(a.last() == b.last());
        let p = spaced_hex(a.drop_last());
        let q = spaced_hex(b.drop_last());
        lemma_shown_size(a.drop_last());
        lemma_shown_size(b.drop_last());
        assert(p =~= q) by {
            assert(p.len() == q.len());
            assert forall|i: int| 0 <= i < p.len() implies p[i] == q[i] by {
                assert(x[i] == p[i]);
                assert(y[i] == q[i]);
            }
        }
        law_shown_bytes_tell_files_apart(a.drop_last(), b.drop_last());
        assert(a =~= a.drop_last().push(a.last()));
        assert(b =~= b.drop_last().push(b.last()));
    } else {
        assert(a =~= b);
    }
}

proof fn lemma_shown_size(b: Seq<u8>)
    ensures
        spaced_hex(b).len() == if b.len() == 0 {
            0
        } else {
            3 * b.len() - 1
        },
    decreases b.len(),
{
    if b.len() > 0 {
        lemma_shown_size(b.drop_last());
    }
}

/// A byte is shown as its two digits, the higher half first, and a blank stands behind every one
/// but the last.
pub proof fn law_where_the_digits_of_a_byte_stand(b: Seq<u8>, i: int)
    requires
        0 <= i < b.len(),
    ensures
        spaced_hex(b).len() == 3 * b.len() - 1,
        spaced_hex(b)[3 * i] == hex_digit((b[i] / 16) as int),
        spaced_hex(b)[3 * i + 1] == hex_digit((b[i] % 16) as int),
        i + 1 < b.len() ==> spaced_hex(b)[3 * i + 2] == ' ',
    decreases b.len(),
{
    lemma_shown_size(b);
    lemma_shown_size(b.drop_last());
    if i + 1 < b.len() {
        law_where_the_digits_of_a_byte_stand(b.drop_last(), i);
    }
}

/// The first sixteen bytes of a file are shown, or all where there are fewer.
pub proof fn law_how_much_is_shown(b: &[u8], r: String)
    requires
        call_ensures(magic_hex, (b,), r),
    ensures
        b@.len() <= 16 ==> r@ == spaced_hex(b@),
        b@.len() > 16 ==> r@ == spaced_hex(b@.take(16)) && r@.len() == 47,
{
    if b@.len() > 16 {
        lemma_shown_size(b@.take(16));
    } else if b@.len() == 16 {
        assert(b@.take(16) =~= b@);
    }
}

} // verus!
