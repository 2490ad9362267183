//! Blanks, words and numbers in text.

use crate::numfmt::{lower, small};
use crate::text::{chars_of, dec, law_dec_tells_numbers_apart};
use vstd::prelude::*;

verus! {

/// White space as Unicode has it.
pub open spec fn blank(c: char) -> bool {
    let n = c as u32;
    9 <= n <= 13 || n == 0x20 || n == 0x85 || n == 0xA0 || n == 0x1680 || 0x2000 <= n <= 0x200A
        || n == 0x2028 || n == 0x2029 || n == 0x202F || n == 0x205F || n == 0x3000
}

pub fn is_blank(c: char) -> (r: bool)
    ensures
        r == blank(c),
{
    let n: u32 = c as u32;
    (9 <= n && n <= 13) || n == 0x20 || n == 0x85 || n == 0xA0 || n == 0x1680 || (0x2000 <= n && n
        <= 0x200A) || n == 0x2028 || n == 0x2029 || n == 0x202F || n == 0x205F || n == 0x3000
}

/// Where the first character from `i` on stands that is no blank.
pub open spec fn past_blanks(s: Seq<char>, i: int) -> int
    decreases s.len() - i,
{
    if 0 <= i < s.len() && blank(s[i]) {
        past_blanks(s, i + 1)
    } else {
        i
    }
}

/// Where the blanks at the end of the first `n` characters begin, but not before `from`.
pub open spec fn before_blanks(s: Seq<char>, from: int, n: int) -> int
    decreases n,
{
    if from < n <= s.len() && 0 < n && blank(s[n - 1]) {
        before_blanks(s, from, n - 1)
    } else {
        n
    }
}

/// A text without the blanks around it.
pub open spec fn trimmed(s: Seq<char>) -> Seq<char> {
    let from = past_blanks(s, 0);
    s.subrange(from, before_blanks(s, from, s.len() as int))
}

/// A text without the blanks around it.
pub fn trim(s: &str) -> (r: &str)
    ensures
        r@ == trimmed(s@),
{
    let c: Vec<char> = chars_of(s);
    let size: usize = c.len();
    let mut from: usize = 0;
    while from < size && is_blank(c[from])
        invariant
            from <= size,
            size == c@.len(),
            past_blanks(c@, 0) == past_blanks(c@, from as int),
        decreases size - from,
    {
        from += 1;
    }
    let mut to: usize = size;
    while from < to && is_blank(c[to - 1])
        invariant
            from <= to <= size,
            size == c@.len(),
            before_blanks(c@, from as int, size as int) == before_blanks(
                c@,
                from as int,
                to as int,
            ),
        decreases to,
    {
        to -= 1;
    }
    s.substring_char(from, to)
}

/// How many of the first `n` characters are no blanks.
pub open spec fn solid_count(s: Seq<char>, n: int) -> nat
    decreases n,
{
    if n <= 0 {
        0
    } else {
        solid_count(s, n - 1) + if blank(s[n - 1]) { 0nat } else { 1nat }
    }
}

/// A word begins at `i`.
pub open spec fn word_begins(s: Seq<char>, i: int) -> bool {
    !blank(s[i]) && (i == 0 || blank(s[i - 1]))
}

/// How many words begin in the first `n` characters.
pub open spec fn word_count(s: Seq<char>, n: int) -> nat
    decreases n,
{
    if n <= 0 {
        0
    } else {
        word_count(s, n - 1) + if word_begins(s, n - 1) { 1nat } else { 0nat }
    }
}

/// How long a text is: in characters, without blanks, and in words between blanks.
#[derive(Debug, Clone, Copy)]
pub struct Tally {
    pub characters: u128,
    pub no_space: u128,
    pub words_by_space: u128,
}

impl Tally {
    pub fn new() -> (r: Self)
        ensures
            r.characters == 0,
            r.no_space == 0,
            r.words_by_space == 0,
    {
        Tally { characters: 0, no_space: 0, words_by_space: 0 }
    }

    /// Counts one more text.
    pub fn add(&mut self, text: &str)
        requires
            old(self).characters + text@.len() <= u128::MAX,
            old(self).no_space <= old(self).characters,
            old(self).words_by_space <= old(self).no_space,
        ensures
            final(self).characters == old(self).characters + text@.len(),
            final(self).no_space == old(self).no_space + solid_count(text@, text@.len() as int),
            final(self).words_by_space == old(self).words_by_space + word_count(
                text@,
                text@.len() as int,
            ),
            final(self).no_space <= final(self).characters,
            final(self).words_by_space <= final(self).no_space,
    {
        let c: Vec<char> = chars_of(text);
        let mut solid: usize = 0;
        let mut words: usize = 0;
        let mut i: usize = 0;
        while i < c.len()
            invariant
                words <= solid <= i <= c@.len(),
                solid == solid_count(c@, i as int),
                words == word_count(c@, i as int),
            decreases c@.len() - i,
        {
            if !is_blank(c[i]) {
                solid += 1;
                if i == 0 || is_blank(c[i - 1]) {
                    words += 1;
                }
            }
            i += 1;
        }
        self.characters = self.characters + c.len() as u128;
        self.no_space = self.no_space + solid as u128;
        self.words_by_space = self.words_by_space + words as u128;
    }
}

/// Every character is a decimal digit.
pub open spec fn all_digits(s: Seq<char>) -> bool {
    forall|i: int| 0 <= i < s.len() ==> '0' <= #[trigger] s[i] <= '9'
}

/// The value of a string of digits.
pub open spec fn value_of(s: Seq<char>) -> int
    decreases s.len(),
{
    if s.len() == 0 {
        0
    } else {
        10 * value_of(s.drop_last()) + (s.last() as int - 48)
    }
}

/// The digits of a number, which can have a plus sign before them.
pub open spec fn unsigned_digits(s: Seq<char>) -> Seq<char> {
    if s.len() > 0 && s[0] == '+' {
        s.skip(1)
    } else {
        s
    }
}

/// A whole number as it is written: digits, with a plus sign or none, and no more than `most`.
pub open spec fn unsigned_value(s: Seq<char>, most: int) -> Option<int> {
    let d = unsigned_digits(s);
    if d.len() > 0 && all_digits(d) && value_of(d) <= most {
        Some(value_of(d))
    } else {
        None
    }
}

proof fn lemma_value_grows(s: Seq<char>, n: int)
    requires
        all_digits(s),
        0 <= n <= s.len(),
    ensures
        0 <= value_of(s.take(n)) <= value_of(s),
    decreases s.len(),
{
    if n == s.len() {
        assert(s.take(n) =~= s);
        lemma_value_nonnegative(s);
    } else {
        let front = s.drop_last();
        assert(front.take(n) =~= s.take(n));
        lemma_value_grows(front, n);
    }
}

proof fn lemma_value_nonnegative(s: Seq<char>)
    requires
        all_digits(s),
    ensures
        0 <= value_of(s),
    decreases s.len(),
{
    if s.len() > 0 {
        lemma_value_nonnegative(s.drop_last());
    }
}

/// Reads the digits from `from` on as a number no greater than `most`.
pub fn read_digits(c: &Vec<char>, from: usize, most: u64) -> (r: Option<u64>)
    requires
        from <= c@.len(),
    ensures
        ({
            let d = c@.skip(from as int);
            match r {
                Some(v) => d.len() > 0 && all_digits(d) && v == value_of(d) && v <= most,
                None => !(d.len() > 0 && all_digits(d) && value_of(d) <= most),
            }
        }),
{
    let ghost d = c@.skip(from as int);
    if from == c.len() {
        return None;
    }
    let mut i: usize = from;
    let mut total: u64 = 0;
    while i < c.len()
        invariant
            from <= i <= c@.len(),
            d == c@.skip(from as int),
            total == value_of(d.take(i - from)),
            total <= most,
            forall|k: int| 0 <= k < i - from ==> '0' <= #[trigger] d[k] <= '9',
        decreases c@.len() - i,
    {
        let one: char = c[i];
        assert(d[i - from] == one);
        if one < '0' || one > '9' {
            return None;
        }
        let step: u64 = one as u64 - 48;
        let ghost next = d.take(i + 1 - from);
        assert(next.drop_last() =~= d.take(i - from));
        assert(value_of(next) == 10 * total + step);
        if total > most / 10 || step > most || 10 * total > most - step {
            proof {
                if all_digits(d) {
                    lemma_value_grows(d, i + 1 - from);
                }
            }
            return None;
        }
        total = 10 * total + step;
        i += 1;
    }
    assert(d.take(i - from) =~= d);
    Some(total)
}

/// Reads a whole number no greater than `most`.
pub fn parse_unsigned(s: &str, most: u64) -> (r: Option<u64>)
    ensures
        match r {
            Some(v) => unsigned_value(s@, most as int) == Some(v as int) && v <= most,
            None => unsigned_value(s@, most as int) is None,
        },
{
    let c: Vec<char> = chars_of(s);
    let from: usize = if c.len() > 0 && c[0] == '+' {
        1
    } else {
        0
    };
    assert(c@.skip(0) =~= c@);
    read_digits(&c, from, most)
}

/// A whole number with a sign or none, in the range of 64 bits.
pub open spec fn signed_value(s: Seq<char>) -> Option<int> {
    if s.len() > 0 && s[0] == '-' {
        let d = s.skip(1);
        if d.len() > 0 && all_digits(d) && value_of(d) <= 0x8000_0000_0000_0000 {
            Some(-value_of(d))
        } else {
            None
        }
    } else {
        unsigned_value(s, i64::MAX as int)
    }
}

/// Reads a whole number with a sign or none.
pub fn parse_signed(s: &str) -> (r: Option<i64>)
    ensures
        match r {
            Some(v) => signed_value(s@) == Some(v as int),
            None => signed_value(s@) is None,
        },
{
    let c: Vec<char> = chars_of(s);
    if c.len() > 0 && c[0] == '-' {
        match read_digits(&c, 1, 0x8000_0000_0000_0000) {
            Some(v) => {
                if v == 0x8000_0000_0000_0000 {
                    Some(i64::MIN)
                } else {
                    Some(-(v as i64))
                }
            },
            None => None,
        }
    } else {
        match parse_unsigned(s, i64::MAX as u64) {
            Some(v) => Some(v as i64),
            None => None,
        }
    }
}

/// Whether `s` begins with `w`.
pub open spec fn begins(s: Seq<char>, w: Seq<char>) -> bool {
    w.len() <= s.len() && s.take(w.len() as int) == w
}

pub fn starts_with(s: &str, w: &str) -> (r: bool)
    ensures
        r == begins(s@, w@),
{
    let a: Vec<char> = chars_of(s);
    let b: Vec<char> = chars_of(w);
    if b.len() > a.len() {
        return false;
    }
    let mut i: usize = 0;
    while i < b.len()
        invariant
            i <= b@.len() <= a@.len(),
            a@ == s@,
            b@ == w@,
            forall|k: int| 0 <= k < i ==> a@[k] == b@[k],
        decreases b@.len() - i,
    {
        if a[i] != b[i] {
            assert(a@.take(b@.len() as int)[i as int] != b@[i as int]);
            return false;
        }
        i += 1;
    }
    assert(a@.take(b@.len() as int) =~= b@);
    true
}

/// Whether `s` ends with `w`.
pub open spec fn finishes(s: Seq<char>, w: Seq<char>) -> bool {
    w.len() <= s.len() && s.skip(s.len() - w.len()) == w
}

pub fn ends_with(s: &str, w: &str) -> (r: bool)
    ensures
        r == finishes(s@, w@),
{
    let a: Vec<char> = chars_of(s);
    let b: Vec<char> = chars_of(w);
    let size: usize = a.len();
    if b.len() > size {
        return false;
    }
    let shift: usize = size - b.len();
    let mut i: usize = 0;
    while i < b.len()
        invariant
            i <= b@.len(),
            a@ == s@,
            b@ == w@,
            size == a@.len(),
            shift + b@.len() == size,
            forall|k: int| 0 <= k < i ==> a@[shift + k] == b@[k],
        decreases b@.len() - i,
    {
        if a[shift + i] != b[i] {
            assert(a@.skip(shift as int)[i as int] != b@[i as int]);
            return false;
        }
        i += 1;
    }
    assert(a@.skip(shift as int) =~= b@);
    true
}

/// The word `w` stands at `at` between blanks, whatever the case of its ASCII letters.
pub open spec fn word_at(s: Seq<char>, w: Seq<char>, at: int) -> bool {
    &&& 0 <= at
    &&& at + w.len() <= s.len()
    &&& at == 0 || blank(s[at - 1])
    &&& at + w.len() == s.len() || blank(s[at + w.len()])
    &&& forall|k: int| 0 <= k < w.len() ==> small(#[trigger] s[at + k]) == small(w[k])
}

/// One of the words of a text is `w`, whatever the case of its ASCII letters.
pub open spec fn has_word(s: Seq<char>, w: Seq<char>) -> bool {
    exists|at: int| word_at(s, w, at)
}

fn is_word_at(c: &Vec<char>, w: &Vec<char>, at: usize) -> (r: bool)
    requires
        at <= c@.len(),
    ensures
        r == word_at(c@, w@, at as int),
{
    let size: usize = c.len();
    let long: usize = w.len();
    if long > size - at || (at > 0 && !is_blank(c[at - 1])) || (at + long < size && !is_blank(
        c[at + long],
    )) {
        return false;
    }
    let mut k: usize = 0;
    while k < long
        invariant
            k <= long,
            long == w@.len(),
            size == c@.len(),
            at + long <= size,
            forall|j: int| 0 <= j < k ==> small(#[trigger] c@[at + j]) == small(w@[j]),
        decreases long - k,
    {
        if lower(c[at + k]) != lower(w[k]) {
            assert(small(c@[at + k]) != small(w@[k as int]));
            return false;
        }
        k += 1;
    }
    true
}

/// Whether one of the words of a text is `w`, whatever the case of its ASCII letters.
pub fn holds_word(s: &str, w: &str) -> (r: bool)
    ensures
        r == has_word(s@, w@),
{
    let c: Vec<char> = chars_of(s);
    let want: Vec<char> = chars_of(w);
    let size: usize = c.len();
    let mut at: usize = 0;
    while at < size
        invariant
            at <= size,
            size == c@.len(),
            c@ == s@,
            want@ == w@,
            forall|k: int| 0 <= k < at ==> !word_at(s@, w@, k),
        decreases size - at,
    {
        if is_word_at(&c, &want, at) {
            return true;
        }
        at += 1;
    }
    is_word_at(&c, &want, size)
}

/// A number that is written in decimal reads back as that number, with a plus sign before it and
/// without, unless it is too large.
pub proof fn law_a_written_number_reads_back(n: nat, most: int)
    ensures
        n <= most ==> unsigned_value(dec(n), most) == Some(n as int),
        n <= most ==> unsigned_value(seq!['+'] + dec(n), most) == Some(n as int),
        n > most ==> unsigned_value(dec(n), most) is None,
        n <= 0x7fff_ffff_ffff_ffff ==> signed_value(dec(n)) == Some(n as int),
        n <= 0x8000_0000_0000_0000 ==> signed_value(seq!['-'] + dec(n)) == Some(-(n as int)),
{
    lemma_dec_value(n);
    law_dec_tells_numbers_apart(n, n);
    let d = dec(n);
    assert(d[0] != '+' && d[0] != '-');
    assert((seq!['+'] + d).skip(1) =~= d);
    assert((seq!['-'] + d).skip(1) =~= d);
}

proof fn lemma_dec_value(n: nat)
    ensures
        all_digits(dec(n)),
        dec(n).len() > 0,
        value_of(dec(n)) == n,
    decreases n,
{
    law_dec_tells_numbers_apart(n, n);
    reveal_with_fuel(value_of, 2);
    if n >= 10 {
        lemma_dec_value(n / 10);
        assert(dec(n).drop_last() =~= dec(n / 10));
    } else {
        assert(dec(n).drop_last() =~= Seq::empty());
    }
}

/// A text that holds anything but digits behind its sign is no number, and neither is one without
/// digits.
pub proof fn law_only_digits_are_a_number(s: Seq<char>, most: int, i: int)
    requires
        s.len() == 0 || (0 <= i < s.len() && !('0' <= s[i] <= '9') && !(i == 0 && s[0] == '+')),
    ensures
        unsigned_value(s, most) is None,
{
    if s.len() > 0 && s[0] == '+' {
        assert(s.skip(1)[i - 1] == s[i]);
    }
}

/// What is left between the blanks begins and ends with none, and a text without blanks at its
/// ends is left as it is.
pub proof fn law_trimmed_text_has_no_blanks_around_it(s: Seq<char>)
    ensures
        trimmed(s).len() > 0 ==> !blank(trimmed(s)[0]) && !blank(trimmed(s).last()),
        s.len() > 0 && !blank(s[0]) && !blank(s.last()) ==> trimmed(s) == s,
        trimmed(s).len() == 0 <==> forall|i: int| 0 <= i < s.len() ==> blank(#[trigger] s[i]),
{
    lemma_past_blanks(s, 0);
    let from = past_blanks(s, 0);
    lemma_before_blanks(s, from, s.len() as int);
    if s.len() > 0 && !blank(s[0]) && !blank(s.last()) {
        assert(from == 0);
        assert(trimmed(s) =~= s);
    }
}

proof fn lemma_past_blanks(s: Seq<char>, i: int)
    requires
        0 <= i <= s.len(),
    ensures
        i <= past_blanks(s, i) <= s.len(),
        forall|k: int| i <= k < past_blanks(s, i) ==> blank(#[trigger] s[k]),
        past_blanks(s, i) < s.len() ==> !blank(s[past_blanks(s, i)]),
    decreases s.len() - i,
{
    if i < s.len() && blank(s[i]) {
        lemma_past_blanks(s, i + 1);
    }
}

proof fn lemma_before_blanks(s: Seq<char>, from: int, n: int)
    requires
        0 <= from <= n <= s.len(),
    ensures
        from <= before_blanks(s, from, n) <= n,
        from < before_blanks(s, from, n) ==> !blank(s[before_blanks(s, from, n) - 1]),
        forall|k: int| before_blanks(s, from, n) <= k < n ==> blank(#[trigger] s[k]),
    decreases n,
{
    if from < n && blank(s[n - 1]) {
        lemma_before_blanks(s, from, n - 1);
    }
}

/// A tab, a line feed, a carriage return, a space, a no-break space and an ideographic space are
/// blanks. Letters and digits are none.
pub proof fn law_what_blanks_are(c: char)
    ensures
        c == '\t' || c == '\n' || c == '\r' || c == ' ' || c == '\u{A0}' || c == '\u{3000}' ==> blank(
            c,
        ),
        '!' <= c <= '~' ==> !blank(c),
        blank(c) ==> (c <= ' ' || c == '\u{85}' || c == '\u{A0}' || c == '\u{1680}' || '\u{2000}'
            <= c <= '\u{200A}' || c == '\u{2028}' || c == '\u{2029}' || c == '\u{202F}' || c
            == '\u{205F}' || c == '\u{3000}'),
{
}

/// How long two texts with a blank between them are: as long as both and one more character, with
/// as many words as both and as many characters that are no blanks.
pub proof fn law_a_blank_parts_words(a: Seq<char>, b: Seq<char>)
    ensures
        ({
            let both = a + seq![' '] + b;
            let n = both.len() as int;
            &&& word_count(both, n) == word_count(a, a.len() as int) + word_count(
                b,
                b.len() as int,
            )
            &&& solid_count(both, n) == solid_count(a, a.len() as int) + solid_count(
                b,
                b.len() as int,
            )
        }),
{
    let both = a + seq![' '] + b;
    lemma_counts_front(a, seq![' '] + b, a.len() as int);
    assert(a + (seq![' '] + b) =~= both);
    lemma_counts_behind(a, b, b.len() as int);
}

proof fn lemma_counts_front(a: Seq<char>, t: Seq<char>, n: int)
    requires
        0 <= n <= a.len(),
    ensures
        word_count(a + t, n) == word_count(a, n),
        solid_count(a + t, n) == solid_count(a, n),
    decreases n,
{
    if n > 0 {
        lemma_counts_front(a, t, n - 1);
    }
}

proof fn lemma_counts_behind(a: Seq<char>, b: Seq<char>, n: int)
    requires
        0 <= n <= b.len(),
    ensures
        ({
            let both = a + seq![' '] + b;
            let m = a.len() as int;
            &&& word_count(both, m + 1 + n) == word_count(both, m) + word_count(b, n)
            &&& solid_count(both, m + 1 + n) == solid_count(both, m) + solid_count(b, n)
        }),
    decreases n,
{
    let both = a + seq![' '] + b;
    let m = a.len() as int;
    assert(both[m] == ' ');
    if n > 0 {
        lemma_counts_behind(a, b, n - 1);
        assert(both[m + n] == b[n - 1]);
        if n > 1 {
            assert(both[m + n - 1] == b[n - 2]);
        }
    }
}

/// A number that is read is nought or more and no greater than what is asked for.
pub proof fn law_numbers_keep_their_range(s: Seq<char>, most: int)
    ensures
        unsigned_value(s, most) matches Some(v) ==> 0 <= v <= most,
{
    if unsigned_value(s, most) is Some {
        lemma_value_nonnegative(unsigned_digits(s));
    }
}

/// The blanks before and behind a text come off, and nothing else does.
pub proof fn law_blanks_around_a_text_come_off(a: Seq<char>, m: Seq<char>, b: Seq<char>)
    requires
        forall|i: int| 0 <= i < a.len() ==> blank(#[trigger] a[i]),
        forall|i: int| 0 <= i < b.len() ==> blank(#[trigger] b[i]),
        m.len() > 0,
        !blank(m[0]),
        !blank(m.last()),
    ensures
        trimmed(a + m + b) == m,
{
    let s = a + m + b;
    let from = past_blanks(s, 0);
    lemma_past_blanks(s, 0);
    lemma_before_blanks(s, from, s.len() as int);
    let to = before_blanks(s, from, s.len() as int);
    assert(s[a.len() as int] == m[0]);
    assert(from == a.len()) by {
        if from < a.len() {
            assert(s[from] == a[from]);
        }
    }
    assert(s[a.len() + m.len() - 1] == m.last());
    assert(to == a.len() + m.len()) by {
        if to > a.len() + m.len() {
            assert(s[to - 1] == b[to - 1 - a.len() - m.len()]);
        }
    }
    assert(trimmed(s) =~= m);
}

} // verus!
