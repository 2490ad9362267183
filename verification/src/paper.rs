//! Lengths in hundredths of a millimetre, in whole numbers and rounded half up.

use crate::text::{chars_of, same};
use crate::words::{
    all_digits, parse_signed, read_digits, signed_value, trim, trimmed, value_of,
};
use vstd::prelude::*;

verus! {

/// `n * num / den`, rounded half up.
pub open spec fn rounded(n: int, num: int, den: int) -> int {
    (2 * n * num + den) / (2 * den)
}

/// A number of units of `num / den` hundredths each, where it fits 64 bits.
pub open spec fn scaled(n: Option<int>, num: int, den: int) -> Option<int> {
    match n {
        Some(v) => if i64::MIN <= rounded(v, num, den) <= i64::MAX {
            Some(rounded(v, num, den))
        } else {
            None
        },
        None => None,
    }
}

/// How many hundredths of a millimetre a number of English metric units is. A hundredth is 360
/// of them.
pub open spec fn emu_of(raw: Seq<char>) -> Option<int> {
    scaled(signed_value(trimmed(raw)), 1, 360)
}

/// How many hundredths of a millimetre a number of twips is. An inch is 1440 twips and 2540
/// hundredths.
pub open spec fn twips_of(raw: Seq<char>) -> Option<int> {
    scaled(signed_value(trimmed(raw)), 127, 72)
}

pub open spec fn is_value(r: Option<i64>, want: Option<int>) -> bool {
    match r {
        Some(v) => want == Some(v as int),
        None => want is None,
    }
}

/// Division that rounds down.
fn floor_div(top: i128, by: i128) -> (q: i128)
    requires
        by > 0,
        top > i128::MIN,
    ensures
        q == top as int / by as int,
{
    if top >= 0 {
        top / by
    } else {
        let size: i128 = -top;
        let k: i128 = size / by;
        let s: i128 = size % by;
        proof {
            vstd::arithmetic::div_mod::lemma_fundamental_div_mod(size as int, by as int);
            vstd::arithmetic::div_mod::lemma_mod_bound(size as int, by as int);
            vstd::arithmetic::div_mod::lemma_div_pos_is_pos(size as int, by as int);
            assert(k <= size) by (nonlinear_arith)
                requires
                    size == by * k + s,
                    by >= 1,
                    s >= 0,
                    k >= 0,
            ;
            if s == 0 {
                assert(top == (-k) * by + 0) by (nonlinear_arith)
                    requires
                        -top == by * k + s,
                        s == 0,
                ;
                vstd::arithmetic::div_mod::lemma_fundamental_div_mod_converse(
                    top as int,
                    by as int,
                    -k as int,
                    0,
                );
            } else {
                assert(top == (-k - 1) * by + (by - s)) by (nonlinear_arith)
                    requires
                        -top == by * k + s,
                ;
                vstd::arithmetic::div_mod::lemma_fundamental_div_mod_converse(
                    top as int,
                    by as int,
                    -k - 1,
                    by - s,
                );
            }
        }
        if s == 0 {
            -k
        } else {
            -k - 1
        }
    }
}

fn scale(n: i64, num: i64, den: i64) -> (r: Option<i64>)
    requires
        0 < num < 1000,
        0 < den < 1000,
    ensures
        is_value(r, scaled(Some(n as int), num as int, den as int)),
{
    assert(-0x8000_0000_0000_0000 * 2000 <= 2 * n * num <= 0x8000_0000_0000_0000 * 2000)
        by (nonlinear_arith)
        requires
            0 < num < 1000,
            -0x8000_0000_0000_0000 <= n < 0x8000_0000_0000_0000,
    ;
    let double: i128 = 2 * (n as i128);
    assert(double * num == 2 * n * num) by (nonlinear_arith)
        requires
            double == 2 * n,
    ;
    let top: i128 = double * (num as i128) + den as i128;
    let by: i128 = 2 * (den as i128);
    let q: i128 = floor_div(top, by);
    if q < i64::MIN as i128 || q > i64::MAX as i128 {
        None
    } else {
        Some(q as i64)
    }
}

/// Reads a number of English metric units.
pub fn emu(raw: &str) -> (r: Option<i64>)
    ensures
        is_value(r, emu_of(raw@)),
{
    match parse_signed(trim(raw)) {
        Some(n) => scale(n, 1, 360),
        None => None,
    }
}

/// Reads a number of twips.
pub fn twips(raw: &str) -> (r: Option<i64>)
    ensures
        is_value(r, twips_of(raw@)),
{
    match parse_signed(trim(raw)) {
        Some(n) => scale(n, 127, 72),
        None => None,
    }
}

/// The most digits that a length is read with.
pub const MOST_DIGITS: usize = 15;

/// Where the decimal point stands; the end where there is none.
pub open spec fn point_in(s: Seq<char>, i: int) -> int
    decreases s.len() - i,
{
    if i < 0 || i >= s.len() {
        s.len() as int
    } else if s[i] == '.' {
        i
    } else {
        point_in(s, i + 1)
    }
}

/// The digits of a decimal number without its point.
pub open spec fn digits_in(s: Seq<char>) -> Seq<char> {
    let at = point_in(s, 0);
    if at < s.len() {
        s.take(at) + s.skip(at + 1)
    } else {
        s
    }
}

/// How many digits stand behind the point.
pub open spec fn places_in(s: Seq<char>) -> int {
    let at = point_in(s, 0);
    if at < s.len() {
        s.len() - at - 1
    } else {
        0
    }
}

/// Ten to the power of `k`.
pub open spec fn ten_to(k: int) -> int
    decreases k,
{
    if k <= 0 {
        1
    } else {
        10 * ten_to(k - 1)
    }
}

/// A decimal number of units of `num / den` hundredths each.
pub open spec fn decimal(s: Seq<char>, num: int, den: int) -> Option<int> {
    let d = digits_in(s);
    if 0 < d.len() <= MOST_DIGITS && all_digits(d) {
        Some(rounded(value_of(d), num, den * ten_to(places_in(s))))
    } else {
        None
    }
}

/// A length with its unit: centimetres, millimetres, inches, points or picas.
pub open spec fn length_of(raw: Seq<char>) -> Option<int> {
    let t = trimmed(raw);
    let n = t.take(t.len() - 2);
    if t.len() < 2 {
        None
    } else if t.skip(t.len() - 2) == "cm"@ {
        decimal(n, 1000, 1)
    } else if t.skip(t.len() - 2) == "mm"@ {
        decimal(n, 100, 1)
    } else if t.skip(t.len() - 2) == "in"@ {
        decimal(n, 2540, 1)
    } else if t.skip(t.len() - 2) == "pt"@ {
        decimal(n, 635, 18)
    } else if t.skip(t.len() - 2) == "pc"@ {
        decimal(n, 1270, 3)
    } else {
        None
    }
}

proof fn lemma_ten_to(k: int)
    requires
        0 <= k <= 15,
    ensures
        1 <= ten_to(k) <= 1_000_000_000_000_000,
{
    reveal_with_fuel(ten_to, 17);
}

proof fn lemma_digits_bound(s: Seq<char>)
    requires
        all_digits(s),
    ensures
        0 <= value_of(s) < ten_to(s.len() as int),
    decreases s.len(),
{
    if s.len() > 0 {
        lemma_digits_bound(s.drop_last());
    }
}

fn power_of_ten(k: usize) -> (r: i128)
    requires
        k <= 15,
    ensures
        r == ten_to(k as int),
        1 <= r <= 1_000_000_000_000_000,
{
    let mut r: i128 = 1;
    let mut i: usize = 0;
    while i < k
        invariant
            i <= k <= 15,
            r == ten_to(i as int),
        decreases k - i,
    {
        proof {
            lemma_ten_to(i as int);
            lemma_ten_to(i + 1);
        }
        r = r * 10;
        i += 1;
    }
    proof {
        lemma_ten_to(k as int);
    }
    r
}

fn read_decimal(c: &Vec<char>, num: i128, den: i128) -> (r: Option<i64>)
    requires
        0 < num <= 2540,
        0 < den <= 18,
    ensures
        is_value(r, decimal(c@, num as int, den as int)),
{
    let size: usize = c.len();
    let mut at: usize = 0;
    while at < size && c[at] != '.'
        invariant
            at <= size,
            size == c@.len(),
            point_in(c@, 0) == point_in(c@, at as int),
        decreases size - at,
    {
        at += 1;
    }
    let mut digits: Vec<char> = Vec::new();
    let mut i: usize = 0;
    while i < size
        invariant
            i <= size,
            at <= size,
            size == c@.len(),
            digits@ == if i <= at {
                c@.take(i as int)
            } else {
                c@.take(at as int) + c@.subrange(at + 1, i as int)
            },
        decreases size - i,
    {
        if i != at {
            digits.push(c[i]);
        }
        i += 1;
        assert(digits@ =~= if i <= at {
            c@.take(i as int)
        } else {
            c@.take(at as int) + c@.subrange(at + 1, i as int)
        });
    }
    assert(digits@ =~= digits_in(c@));
    if digits.len() > MOST_DIGITS {
        return None;
    }
    let n: u64 = match read_digits(&digits, 0, 1_000_000_000_000_000) {
        Some(n) => {
            assert(digits@.skip(0) =~= digits@);
            n
        },
        None => {
            proof {
                assert(digits@.skip(0) =~= digits@);
                if all_digits(digits@) {
                    lemma_digits_bound(digits@);
                    lemma_ten_to(digits@.len() as int);
                }
            }
            return None;
        },
    };
    let places: usize = if at < size {
        size - at - 1
    } else {
        0
    };
    let ten: i128 = power_of_ten(places);
    let ghost g = 2 * (n as int) * (num as int);
    assert(0 <= g <= 2 * 1_000_000_000_000_000 * 2540) by (nonlinear_arith)
        requires
            g == 2 * n * num,
            0 <= n <= 1_000_000_000_000_000,
            0 < num <= 2540,
    ;
    assert(0 < den * ten <= 18 * 1_000_000_000_000_000) by (nonlinear_arith)
        requires
            0 < den <= 18,
            1 <= ten <= 1_000_000_000_000_000,
    ;
    let double: i128 = 2 * (n as i128);
    assert(double * num == g) by (nonlinear_arith)
        requires
            double == 2 * n,
            g == 2 * n * num,
    ;
    let by: i128 = den * ten;
    let top: i128 = double * num + by;
    let q: i128 = floor_div(top, 2 * by);
    assert(0 <= q <= top) by (nonlinear_arith)
        requires
            q == top as int / (2 * by) as int,
            top >= 0,
            by >= 1,
    ;
    Some(q as i64)
}

/// Reads a length with its unit.
pub fn length(raw: &str) -> (r: Option<i64>)
    ensures
        is_value(r, length_of(raw@)),
{
    let t: &str = trim(raw);
    let size: usize = t.unicode_len();
    if size < 2 {
        return None;
    }
    let unit: &str = t.substring_char(size - 2, size);
    let c: Vec<char> = chars_of(t.substring_char(0, size - 2));
    proof {
        assert(unit@ =~= t@.skip(t@.len() - 2));
        assert(c@ =~= t@.take(t@.len() - 2));
    }
    if same(unit, "cm") {
        read_decimal(&c, 1000, 1)
    } else if same(unit, "mm") {
        read_decimal(&c, 100, 1)
    } else if same(unit, "in") {
        read_decimal(&c, 2540, 1)
    } else if same(unit, "pt") {
        read_decimal(&c, 635, 18)
    } else if same(unit, "pc") {
        read_decimal(&c, 1270, 3)
    } else {
        None
    }
}

proof fn lemma_quotient(x: int, d: int)
    by (nonlinear_arith)
    requires
        d > 0,
    ensures
        d * (x / d) <= x,
        x < d * (x / d + 1),
{
}

/// Three hundred and sixty English metric units are a hundredth of a millimetre, and seventy-two
/// twips are a hundred and twenty-seven. What is between two hundredths goes to the nearer one,
/// and half-way to the one above. What is no number has no length.
pub proof fn law_units_become_hundredths(raw: Seq<char>, n: int)
    requires
        signed_value(trimmed(raw)) == Some(n),
    ensures
        emu_of(raw) matches Some(v) ==> 720 * v <= 2 * n + 360 < 720 * (v + 1),
        twips_of(raw) matches Some(v) ==> 144 * v <= 254 * n + 72 < 144 * (v + 1),
        -1_000_000_000_000_000_000 <= n <= 1_000_000_000_000_000_000 ==> emu_of(raw) is Some
            && twips_of(raw) is Some,
{
    lemma_quotient(2 * n + 360, 720);
    lemma_quotient(254 * n + 72, 144);
    assert(2 * n * 1 + 360 == 2 * n + 360);
    assert(2 * n * 127 + 72 == 254 * n + 72);
}

/// What is no number has no length.
pub proof fn law_what_is_no_number_has_no_length(raw: Seq<char>)
    requires
        signed_value(trimmed(raw)) is None,
    ensures
        emu_of(raw) is None,
        twips_of(raw) is None,
{
}

proof fn lemma_no_point(s: Seq<char>, i: int)
    requires
        0 <= i <= s.len(),
        forall|k: int| i <= k < s.len() ==> #[trigger] s[k] != '.',
    ensures
        point_in(s, i) == s.len(),
    decreases s.len() - i,
{
    if i < s.len() {
        lemma_no_point(s, i + 1);
    }
}

proof fn lemma_point_at(s: Seq<char>, i: int, at: int)
    requires
        0 <= i <= at < s.len(),
        s[at] == '.',
        forall|k: int| i <= k < at ==> #[trigger] s[k] != '.',
    ensures
        point_in(s, i) == at,
    decreases at - i,
{
    if i < at {
        lemma_point_at(s, i + 1, at);
    }
}

/// A length of whole units: a centimetre is a thousand hundredths of a millimetre, a millimetre a
/// hundred and an inch two thousand five hundred and forty; a point is a seventy-second of an inch
/// and a pica a sixth of one.
pub proof fn law_what_a_length_is(d: Seq<char>)
    requires
        0 < d.len() <= 15,
        all_digits(d),
    ensures
        length_of(d + "cm"@) == Some(1000 * value_of(d)),
        length_of(d + "mm"@) == Some(100 * value_of(d)),
        length_of(d + "in"@) == Some(2540 * value_of(d)),
        length_of(d + "pt"@) matches Some(v) && 36 * v <= 1270 * value_of(d) + 18 < 36 * (v
            + 1),
        length_of(d + "pc"@) matches Some(v) && 6 * v <= 2540 * value_of(d) + 3 < 6 * (v + 1),
{
    reveal_strlit("cm");
    reveal_strlit("mm");
    reveal_strlit("in");
    reveal_strlit("pt");
    reveal_strlit("pc");
    assert("cm"@[0] == 'c' && "cm"@[1] == 'm' && "mm"@[0] == 'm' && "mm"@[1] == 'm');
    assert("in"@[0] == 'i' && "in"@[1] == 'n');
    assert("pt"@[0] == 'p' && "pt"@[1] == 't' && "pc"@[0] == 'p' && "pc"@[1] == 'c');
    lemma_kept_whole(d, "cm"@);
    lemma_kept_whole(d, "mm"@);
    lemma_kept_whole(d, "in"@);
    lemma_kept_whole(d, "pt"@);
    lemma_kept_whole(d, "pc"@);
    lemma_no_point(d, 0);
    let n = value_of(d);
    lemma_quotient(2 * n * 635 + 18, 36);
    lemma_quotient(2 * n * 1270 + 3, 6);
    assert(ten_to(0) == 1);
    assert(rounded(n, 1000, 1) == 1000 * n);
    assert(rounded(n, 100, 1) == 100 * n);
    assert(rounded(n, 2540, 1) == 2540 * n);
    assert(places_in(d) == 0);
    let pt = (2 * n * 635 + 18) / 36;
    let pc = (2 * n * 1270 + 3) / 6;
    assert(rounded(n, 635, 18) == pt);
    assert(rounded(n, 1270, 3) == pc);
    assert(18 * ten_to(0) == 18 && 3 * ten_to(0) == 3);
    assert(36 * pt <= 1270 * n + 18 < 36 * (pt + 1));
    assert(6 * pc <= 2540 * n + 3 < 6 * (pc + 1));
    assert(length_of(d + "pt"@) == Some(pt));
    assert(length_of(d + "pc"@) == Some(pc));
}

proof fn lemma_kept_whole(d: Seq<char>, unit: Seq<char>)
    requires
        0 < d.len(),
        d[0] == '.' || '0' <= d[0] <= '9',
        unit.len() == 2,
        'a' <= unit[1] <= 'z',
    ensures
        trimmed(d + unit) == d + unit,
        (d + unit).take((d + unit).len() - 2) == d,
        (d + unit).skip((d + unit).len() - 2) == unit,
{
    let t = d + unit;
    assert(t[0] == d[0]);
    assert(t.last() == unit[1]);
    crate::words::law_trimmed_text_has_no_blanks_around_it(t);
    assert(t.take(t.len() - 2) =~= d);
    assert(t.skip(t.len() - 2) =~= unit);
}

/// A length with digits behind the point: the digits count as a number without the point, in
/// units that are as many times smaller.
pub proof fn law_digits_behind_the_point(a: Seq<char>, b: Seq<char>)
    requires
        a.len() > 0,
        b.len() > 0,
        a.len() + b.len() <= 15,
        all_digits(a),
        all_digits(b),
    ensures
        length_of(a.push('.') + b + "cm"@) matches Some(v) && ({
            let p = ten_to(b.len() as int);
            2 * p * v <= 2000 * value_of(a + b) + p < 2 * p * (v + 1)
        }),
        length_of(a.push('.') + b + "in"@) matches Some(v) && ({
            let p = ten_to(b.len() as int);
            2 * p * v <= 5080 * value_of(a + b) + p < 2 * p * (v + 1)
        }),
{
    reveal_strlit("cm");
    reveal_strlit("mm");
    reveal_strlit("in");
    assert("cm"@[0] == 'c' && "cm"@[1] == 'm' && "mm"@[0] == 'm' && "mm"@[1] == 'm');
    assert("in"@[0] == 'i' && "in"@[1] == 'n');
    let s = a.push('.') + b;
    assert(s[a.len() as int] == '.');
    assert(s[0] == a[0]);
    lemma_kept_whole(s, "cm"@);
    lemma_kept_whole(s, "in"@);
    lemma_point_at(s, 0, a.len() as int);
    assert(s.take(a.len() as int) =~= a);
    assert(s.skip(a.len() + 1int) =~= b);
    assert(digits_in(s) =~= a + b);
    let n = value_of(a + b);
    lemma_ten_to(b.len() as int);
    let p = ten_to(b.len() as int);
    assert(1 * p == p);
    lemma_quotient(2 * n * 1000 + p, 2 * p);
    lemma_quotient(2 * n * 2540 + p, 2 * p);
}

/// A text without a unit, or with one that is none of the five, is no length.
pub proof fn law_a_length_has_a_unit(raw: Seq<char>)
    ensures
        trimmed(raw).len() < 3 ==> length_of(raw) is None,
        trimmed(raw).len() >= 2 && ({
            let unit = trimmed(raw).skip(trimmed(raw).len() - 2);
            unit != "cm"@ && unit != "mm"@ && unit != "in"@ && unit != "pt"@ && unit != "pc"@
        }) ==> length_of(raw) is None,
{
    let t = trimmed(raw);
    if t.len() == 2 {
        let n = t.take(0);
        lemma_no_point(n, 0);
        assert(digits_in(n).len() == 0);
    }
}

} // verus!
