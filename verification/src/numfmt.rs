//! Number formats: whether a cell shows a date, a time, an amount or a plain number.
//!
//! A format code says so in its letters, but not in text that it merely quotes: quoted text,
//! escaped characters and bracketed conditions come off first. The letter `m` means minutes
//! beside hours or seconds, and months otherwise.

use crate::dates::{civil_from_days, day_number, valid_date};
use crate::text::{chars_of, dec, digit, push_dec, same, text_of};
use vstd::prelude::*;

mod styles;

pub use styles::{
    read_styles, Appearance, CellFormat, Ledger, Part, Row, Styles, TableCount,
};

verus! {

/// What a format code is for.
#[derive(Debug, Clone, Copy, PartialEq, Eq, Structural)]
pub enum Kind {
    General,
    Number,
    Percent,
    Currency,
    Date,
    Datetime,
    Time,
    /// The format number is built in, but its code goes by region and is not listed here.
    Unknown,
}

impl Kind {
    pub open spec fn name(self) -> Seq<char> {
        match self {
            Kind::General => "general"@,
            Kind::Number => "number"@,
            Kind::Percent => "percent"@,
            Kind::Currency => "currency"@,
            Kind::Date => "date"@,
            Kind::Datetime => "datetime"@,
            Kind::Time => "time"@,
            Kind::Unknown => "unknown"@,
        }
    }

    /// The kind as a word.
    pub fn as_str(self) -> (r: &'static str)
        ensures
            r@ == self.name(),
    {
        match self {
            Kind::General => "general",
            Kind::Number => "number",
            Kind::Percent => "percent",
            Kind::Currency => "currency",
            Kind::Date => "date",
            Kind::Datetime => "datetime",
            Kind::Time => "time",
            Kind::Unknown => "unknown",
        }
    }

    /// Whether the kind shows a day or a time of day.
    pub open spec fn temporal(self) -> bool {
        self == Kind::Date || self == Kind::Datetime || self == Kind::Time
    }

    /// Whether the kind shows a day or a time of day.
    pub fn is_temporal(self) -> (r: bool)
        ensures
            r == self.temporal(),
    {
        self == Kind::Date || self == Kind::Datetime || self == Kind::Time
    }
}

/// The codes of the built-in format numbers whose code does not go by region.
pub open spec fn builtin(id: u64) -> Option<Seq<char>> {
    match id {
        0 => Some("General"@),
        1 => Some("0"@),
        2 => Some("0.00"@),
        3 => Some("#,##0"@),
        4 => Some("#,##0.00"@),
        5 => Some("$#,##0_);($#,##0)"@),
        6 => Some("$#,##0_);[Red]($#,##0)"@),
        7 => Some("$#,##0.00_);($#,##0.00)"@),
        8 => Some("$#,##0.00_);[Red]($#,##0.00)"@),
        9 => Some("0%"@),
        10 => Some("0.00%"@),
        11 => Some("0.00E+00"@),
        12 => Some("# ?/?"@),
        13 => Some("# ??/??"@),
        14 => Some("mm-dd-yy"@),
        15 => Some("d-mmm-yy"@),
        16 => Some("d-mmm"@),
        17 => Some("mmm-yy"@),
        18 => Some("h:mm AM/PM"@),
        19 => Some("h:mm:ss AM/PM"@),
        20 => Some("h:mm"@),
        21 => Some("h:mm:ss"@),
        22 => Some("m/d/yy h:mm"@),
        45 => Some("mm:ss"@),
        46 => Some("[h]:mm:ss"@),
        47 => Some("mmss.##"@),
        _ => None,
    }
}

/// The code of a built-in format number, where it does not go by region.
pub fn builtin_code(id: u64) -> (r: Option<&'static str>)
    ensures
        match r {
            Some(code) => builtin(id) == Some(code@),
            None => builtin(id) is None,
        },
{
    match id {
        0 => Some("General"),
        1 => Some("0"),
        2 => Some("0.00"),
        3 => Some("#,##0"),
        4 => Some("#,##0.00"),
        5 => Some("$#,##0_);($#,##0)"),
        6 => Some("$#,##0_);[Red]($#,##0)"),
        7 => Some("$#,##0.00_);($#,##0.00)"),
        8 => Some("$#,##0.00_);[Red]($#,##0.00)"),
        9 => Some("0%"),
        10 => Some("0.00%"),
        11 => Some("0.00E+00"),
        12 => Some("# ?/?"),
        13 => Some("# ??/??"),
        14 => Some("mm-dd-yy"),
        15 => Some("d-mmm-yy"),
        16 => Some("d-mmm"),
        17 => Some("mmm-yy"),
        18 => Some("h:mm AM/PM"),
        19 => Some("h:mm:ss AM/PM"),
        20 => Some("h:mm"),
        21 => Some("h:mm:ss"),
        22 => Some("m/d/yy h:mm"),
        45 => Some("mm:ss"),
        46 => Some("[h]:mm:ss"),
        47 => Some("mmss.##"),
        _ => None,
    }
}

/// Where `c` first stands in `s` from `from` on; the end of `s` where it does not.
pub open spec fn seek(s: Seq<char>, c: char, from: int) -> int
    decreases s.len() - from,
{
    if from < 0 || from >= s.len() {
        s.len() as int
    } else if s[from] == c {
        from
    } else {
        seek(s, c, from + 1)
    }
}

/// A letter without its ASCII capital.
pub open spec fn small(c: char) -> char {
    if 'A' <= c <= 'Z' {
        (c as u8 + 32) as char
    } else {
        c
    }
}

/// What is left of a code from `i` on without what it quotes, escapes or puts in brackets.
pub open spec fn stripped_from(s: Seq<char>, i: int) -> Seq<char>
    decreases s.len() + 2 - i,
{
    if i < 0 || i >= s.len() {
        Seq::empty()
    } else if s[i] == '"' || s[i] == '\'' {
        proof {
            lemma_seek(s, s[i], i + 1);
        }
        stripped_from(s, seek(s, s[i], i + 1) + 1)
    } else if s[i] == '\\' {
        stripped_from(s, i + 2)
    } else if s[i] == '[' {
        proof {
            lemma_seek(s, ']', i + 1);
        }
        stripped_from(s, seek(s, ']', i + 1) + 1)
    } else {
        seq![small(s[i])] + stripped_from(s, i + 1)
    }
}

/// A code without what it quotes, escapes or puts in brackets, in small letters.
pub open spec fn stripped(s: Seq<char>) -> Seq<char> {
    stripped_from(s, 0)
}

/// The place found is the first one, if there is one.
pub proof fn lemma_seek(s: Seq<char>, c: char, from: int)
    requires
        0 <= from,
    ensures
        from <= seek(s, c, from) || from > s.len(),
        seek(s, c, from) <= s.len(),
        forall|k: int| from <= k < seek(s, c, from) ==> s[k] != c,
        seek(s, c, from) < s.len() ==> s[seek(s, c, from)] == c,
    decreases s.len() - from,
{
    if from < s.len() && s[from] != c {
        lemma_seek(s, c, from + 1);
    }
}

/// Where `c` first stands from `from` on; the end where it does not.
pub fn find_char(s: &Vec<char>, c: char, from: usize) -> (r: usize)
    requires
        from <= s@.len(),
    ensures
        r == seek(s@, c, from as int),
        from <= r <= s@.len(),
{
    let mut i: usize = from;
    while i < s.len()
        invariant
            from <= i <= s@.len(),
            seek(s@, c, from as int) == seek(s@, c, i as int),
        decreases s@.len() - i,
    {
        if s[i] == c {
            return i;
        }
        i += 1;
    }
    i
}

/// A letter without its ASCII capital.
pub fn lower(c: char) -> (r: char)
    ensures
        r == small(c),
{
    if 'A' <= c && c <= 'Z' {
        (c as u8 + 32) as char
    } else {
        c
    }
}

/// The characters of a code without what it quotes, escapes or puts in brackets.
fn strip_chars(raw: &Vec<char>) -> (r: Vec<char>)
    ensures
        r@ == stripped(raw@),
{
    let mut out: Vec<char> = Vec::new();
    let size: usize = raw.len();
    let mut i: usize = 0;
    assert(out@ + stripped(raw@) =~= stripped(raw@));
    while i < size
        invariant
            i <= size,
            size == raw@.len(),
            out@ + stripped_from(raw@, i as int) == stripped(raw@),
        decreases size - i,
    {
        let ch: char = raw[i];
        if ch == '"' || ch == '\'' || ch == '[' {
            let close: char = if ch == '[' {
                ']'
            } else {
                ch
            };
            let stop: usize = find_char(raw, close, i + 1);
            assert(stripped_from(raw@, i as int) == stripped_from(raw@, stop + 1));
            i = if stop < size {
                stop + 1
            } else {
                size
            };
            assert(stripped_from(raw@, i as int) == stripped_from(raw@, stop + 1));
        } else if ch == '\\' {
            let ghost next = i + 2;
            i = if i + 1 < size {
                i + 2
            } else {
                size
            };
            assert(stripped_from(raw@, i as int) == stripped_from(raw@, next));
        } else {
            let ghost before = out@;
            out.push(lower(ch));
            i += 1;
            assert(before + (seq![small(ch)] + stripped_from(raw@, i as int)) =~= out@
                + stripped_from(raw@, i as int));
        }
    }
    assert(out@ + Seq::<char>::empty() =~= out@);
    out
}

/// The part of a code that says how to show a number, in small letters.
pub fn strip_tokens(code: &str) -> (r: String)
    ensures
        r@ == stripped(code@),
{
    let raw: Vec<char> = chars_of(code);
    let out: Vec<char> = strip_chars(&raw);
    text_of(out.as_slice())
}

/// Whether `w` stands in `s` at `at`.
pub open spec fn stands_at(s: Seq<char>, w: Seq<char>, at: int) -> bool {
    0 <= at && at + w.len() <= s.len() && s.subrange(at, at + w.len()) == w
}

/// Whether `w` stands somewhere in `s`.
pub open spec fn occurs(s: Seq<char>, w: Seq<char>) -> bool {
    exists|at: int| stands_at(s, w, at)
}

/// Whether `w` stands in `s` at `at`.
pub fn stands(s: &Vec<char>, w: &Vec<char>, at: usize) -> (r: bool)
    requires
        at <= s@.len(),
    ensures
        r == stands_at(s@, w@, at as int),
{
    let size: usize = s.len();
    if w.len() > size - at {
        return false;
    }
    let mut i: usize = 0;
    while i < w.len()
        invariant
            i <= w@.len(),
            size == s@.len(),
            at + w@.len() <= size,
            forall|k: int| 0 <= k < i ==> s@[at + k] == w@[k],
        decreases w@.len() - i,
    {
        if s[at + i] != w[i] {
            assert(s@.subrange(at as int, at + w@.len())[i as int] != w@[i as int]);
            return false;
        }
        i += 1;
    }
    assert(s@.subrange(at as int, at + w@.len()) =~= w@);
    true
}

/// Whether a word stands somewhere in `s`.
pub fn occurs_in(s: &Vec<char>, word: &str) -> (r: bool)
    ensures
        r == occurs(s@, word@),
{
    let w: Vec<char> = chars_of(word);
    let mut at: usize = 0;
    while at < s.len()
        invariant
            at <= s@.len(),
            w@ == word@,
            forall|k: int| 0 <= k < at ==> !stands_at(s@, w@, k),
        decreases s@.len() - at,
    {
        if stands(s, &w, at) {
            return true;
        }
        at += 1;
    }
    stands(s, &w, at)
}

/// A code speaks of hours or seconds or of the two halves of a day.
pub open spec fn tells_time(t: Seq<char>) -> bool {
    t.contains('h') || t.contains('s') || occurs(t, "am/pm"@) || occurs(t, "a/p"@)
}

/// A code speaks of years or days, or of months, which it does only where it tells no time.
pub open spec fn tells_date(t: Seq<char>) -> bool {
    t.contains('y') || t.contains('d') || (t.contains('m') && !tells_time(t))
}

/// What a stripped code is for.
pub open spec fn judged(t: Seq<char>) -> Kind {
    if t.contains('%') {
        Kind::Percent
    } else if tells_date(t) && tells_time(t) {
        Kind::Datetime
    } else if tells_date(t) {
        Kind::Date
    } else if tells_time(t) {
        Kind::Time
    } else if t.contains('$') || t.contains('\u{A5}') || t.contains('\u{FFE5}') || t.contains(
        '\u{20AC}',
    ) {
        Kind::Currency
    } else if t.len() == 0 || t == "general"@ {
        Kind::General
    } else {
        Kind::Number
    }
}

/// What a format code is for; of a missing one nothing is known.
pub open spec fn judged_code(code: Option<Seq<char>>) -> Kind {
    match code {
        Some(c) => judged(stripped(c)),
        None => Kind::Unknown,
    }
}

fn has(t: &Vec<char>, c: char) -> (r: bool)
    ensures
        r == t@.contains(c),
{
    let mut i: usize = 0;
    while i < t.len()
        invariant
            i <= t@.len(),
            forall|k: int| 0 <= k < i ==> t@[k] != c,
        decreases t@.len() - i,
    {
        if t[i] == c {
            assert(t@[i as int] == c);
            return true;
        }
        i += 1;
    }
    false
}

/// What a format code is for.
pub fn kind_of(code: &str) -> (r: Kind)
    ensures
        r == judged(stripped(code@)),
{
    let raw: Vec<char> = chars_of(code);
    let t: Vec<char> = strip_chars(&raw);
    let time: bool = has(&t, 'h') || has(&t, 's') || occurs_in(&t, "am/pm") || occurs_in(
        &t,
        "a/p",
    );
    let date: bool = has(&t, 'y') || has(&t, 'd') || (has(&t, 'm') && !time);
    if has(&t, '%') {
        return Kind::Percent;
    }
    if date && time {
        return Kind::Datetime;
    }
    if date {
        return Kind::Date;
    }
    if time {
        return Kind::Time;
    }
    if has(&t, '$') || has(&t, '\u{A5}') || has(&t, '\u{FFE5}') || has(&t, '\u{20AC}') {
        return Kind::Currency;
    }
    let words: String = text_of(t.as_slice());
    if t.len() == 0 || same(words.as_str(), "general") {
        return Kind::General;
    }
    Kind::Number
}

/// A number in at least `width` digits.
pub open spec fn padded(n: nat, width: int) -> Seq<char>
    decreases width,
{
    if width <= 1 {
        dec(n)
    } else {
        padded(n / 10, width - 1).push(digit((n % 10) as int))
    }
}

fn push_padded(out: &mut String, n: u64, width: u64)
    ensures
        final(out)@ == old(out)@ + padded(n as nat, width as int),
    decreases width,
{
    if width <= 1 {
        push_dec(out, n);
    } else {
        push_padded(out, n / 10, width - 1);
        out.push((48u8 + (n % 10) as u8) as char);
        assert(out@ =~= old(out)@ + padded(n as nat, width as int));
    }
}

/// A year in at least four places. A sign takes one of them.
pub open spec fn year_text(y: int) -> Seq<char> {
    if y < 0 {
        seq!['-'] + padded((-y) as nat, 3)
    } else {
        padded(y as nat, 4)
    }
}

/// A day as year, month and day.
pub open spec fn iso_day(y: int, m: int, d: int) -> Seq<char> {
    year_text(y) + "-"@ + padded(m as nat, 2) + "-"@ + padded(d as nat, 2)
}

/// A time of day as hours, minutes and seconds.
pub open spec fn iso_time(seconds: int) -> Seq<char> {
    padded((seconds / 3600) as nat, 2) + ":"@ + padded((seconds % 3600 / 60) as nat, 2) + ":"@
        + padded((seconds % 60) as nat, 2)
}

/// The day number of a serial day. The older basis counts a twenty-ninth of February 1900 that
/// never was, so its days before that one are a day further on.
pub open spec fn serial_day(days: int, year1904: bool) -> int {
    if year1904 {
        days - 24_107
    } else if days < 60 {
        days - 25_568
    } else {
        days - 25_569
    }
}

/// What a serial day and a number of seconds read as: the day, and the time after it where
/// there is one.
pub open spec fn iso_of(y: int, m: int, d: int, seconds: int) -> Seq<char> {
    if seconds <= 0 {
        iso_day(y, m, d)
    } else {
        iso_day(y, m, d) + "T"@ + iso_time(seconds)
    }
}

/// Writes a serial day and the seconds into it as a date. `year1904` says which basis the book
/// counts from. The day that never was is given as the file has it.
pub fn serial_to_iso(days: i64, seconds: i64, year1904: bool) -> (r: String)
    requires
        i64::MIN + 25_569 <= days <= i64::MAX - 719_162,
        seconds < 86_400,
    ensures
        !year1904 && days == 60 ==> r@ == "1900-02-29"@,
        year1904 || days != 60 ==> exists|y: int, m: int, d: int|
            valid_date(y, m, d) && #[trigger] day_number(y, m, d) == serial_day(
                days as int,
                year1904,
            ) && r@ == iso_of(y, m, d, seconds as int),
{
    if !year1904 && days == 60 {
        return "1900-02-29".to_owned();
    }
    let number: i64 = if year1904 {
        days - 24_107
    } else if days < 60 {
        days - 25_568
    } else {
        days - 25_569
    };
    let (year, month, day) = civil_from_days(number);
    let mut out: String = String::new();
    if year < 0 {
        out.push('-');
        push_padded(&mut out, magnitude(year), 3);
        assert(out@ =~= year_text(year as int));
    } else {
        push_padded(&mut out, year as u64, 4);
        assert(out@ =~= year_text(year as int));
    }
    out.append("-");
    push_padded(&mut out, month as u64, 2);
    out.append("-");
    push_padded(&mut out, day as u64, 2);
    assert(out@ == iso_day(year as int, month as int, day as int));
    if seconds > 0 {
        let of_day: u64 = seconds as u64;
        let ghost head = out@ + "T"@;
        out.append("T");
        push_padded(&mut out, of_day / 3600, 2);
        out.append(":");
        push_padded(&mut out, of_day % 3600 / 60, 2);
        out.append(":");
        push_padded(&mut out, of_day % 60, 2);
        assert(out@ =~= head + iso_time(seconds as int));
    }
    assert(day_number(year as int, month as int, day as int) == serial_day(
        days as int,
        year1904,
    ));
    assert(out@ == iso_of(year as int, month as int, day as int, seconds as int));
    out
}

/// A negative number without its sign.
fn magnitude(n: i64) -> (r: u64)
    requires
        n < 0,
    ensures
        r == -n,
{
    let less: i64 = -(n + 1);
    less as u64 + 1
}

/// A character that a stripped code can hold.
pub open spec fn plain(c: char) -> bool {
    c != '"' && c != '\'' && c != '\\' && c != '[' && !('A' <= c <= 'Z')
}

/// What is stripped off is gone: no quote, no backslash, no opening bracket and no capital
/// letter is left in the part of a code that is judged.
pub proof fn law_stripped_codes_are_plain(s: Seq<char>, i: int)
    requires
        0 <= i,
    ensures
        forall|k: int|
            0 <= k < stripped_from(s, i).len() ==> plain(#[trigger] stripped_from(s, i)[k]),
    decreases s.len() + 2 - i,
{
    if i < s.len() {
        if s[i] == '"' || s[i] == '\'' {
            lemma_seek(s, s[i], i + 1);
            let next = seek(s, s[i], i + 1) + 1;
            law_stripped_codes_are_plain(s, next);
            assert(stripped_from(s, i) == stripped_from(s, next));
        } else if s[i] == '\\' {
            law_stripped_codes_are_plain(s, i + 2);
            assert(stripped_from(s, i) == stripped_from(s, i + 2));
        } else if s[i] == '[' {
            lemma_seek(s, ']', i + 1);
            let next = seek(s, ']', i + 1) + 1;
            law_stripped_codes_are_plain(s, next);
            assert(stripped_from(s, i) == stripped_from(s, next));
        } else {
            law_stripped_codes_are_plain(s, i + 1);
            let rest = stripped_from(s, i + 1);
            assert(stripped_from(s, i) == seq![small(s[i])] + rest);
            assert forall|k: int| 0 <= k < stripped_from(s, i).len() implies plain(
                #[trigger] stripped_from(s, i)[k],
            ) by {
                if k > 0 {
                    assert(stripped_from(s, i)[k] == rest[k - 1]);
                }
            }
        }
    }
}

/// A code that only quotes text is a general one, whatever the text says.
pub proof fn law_quoted_text_is_no_date(text: Seq<char>)
    requires
        !text.contains('"'),
    ensures
        judged(stripped(seq!['"'] + text + seq!['"'])) == Kind::General,
{
    let s = seq!['"'] + text + seq!['"'];
    lemma_seek(s, '"', 1);
    let stop = seek(s, '"', 1);
    if stop < s.len() - 1 {
        assert(s[stop] == text[stop - 1]);
        assert(text.contains(text[stop - 1]));
    }
    assert(s[s.len() - 1] == '"');
    assert(stop == s.len() - 1);
    reveal_with_fuel(stripped_from, 2);
    assert(stripped(s) =~= Seq::empty());
    reveal_strlit("am/pm");
    reveal_strlit("a/p");
    assert(!occurs(stripped(s), "am/pm"@));
    assert(!occurs(stripped(s), "a/p"@));
}

/// A code with a percent sign outside its quotes is a percentage, whatever else it holds.
pub proof fn law_percent_comes_first(s: Seq<char>)
    requires
        stripped(s).contains('%'),
    ensures
        judged(stripped(s)) == Kind::Percent,
{
}

/// Beside hours or seconds the letter `m` alone makes no date.
pub proof fn law_minutes_are_no_months(t: Seq<char>)
    requires
        tells_time(t),
        !t.contains('%'),
        !t.contains('y'),
        !t.contains('d'),
    ensures
        judged(t) == Kind::Time,
{
}

/// The two bases are 1462 days apart, after the day that never was.
pub proof fn law_bases_are_1462_days_apart(days: int)
    requires
        days + 1462 >= 60,
    ensures
        serial_day(days + 1462, false) == serial_day(days, true),
{
}

/// What the built-in numbers stand for: whole and broken numbers, amounts, percentages, fractions,
/// dates and times. All other numbers have no code of their own here.
pub proof fn law_built_in_codes(id: u64)
    ensures
        id == 0 ==> builtin(id) == Some("General"@),
        id == 1 ==> builtin(id) == Some("0"@),
        id == 2 ==> builtin(id) == Some("0.00"@),
        id == 3 ==> builtin(id) == Some("#,##0"@),
        id == 4 ==> builtin(id) == Some("#,##0.00"@),
        id == 5 ==> builtin(id) == Some("$#,##0_);($#,##0)"@),
        id == 6 ==> builtin(id) == Some("$#,##0_);[Red]($#,##0)"@),
        id == 7 ==> builtin(id) == Some("$#,##0.00_);($#,##0.00)"@),
        id == 8 ==> builtin(id) == Some("$#,##0.00_);[Red]($#,##0.00)"@),
        id == 9 ==> builtin(id) == Some("0%"@),
        id == 10 ==> builtin(id) == Some("0.00%"@),
        id == 11 ==> builtin(id) == Some("0.00E+00"@),
        id == 12 ==> builtin(id) == Some("# ?/?"@),
        id == 13 ==> builtin(id) == Some("# ??/??"@),
        id == 14 ==> builtin(id) == Some("mm-dd-yy"@),
        id == 15 ==> builtin(id) == Some("d-mmm-yy"@),
        id == 16 ==> builtin(id) == Some("d-mmm"@),
        id == 17 ==> builtin(id) == Some("mmm-yy"@),
        id == 18 ==> builtin(id) == Some("h:mm AM/PM"@),
        id == 19 ==> builtin(id) == Some("h:mm:ss AM/PM"@),
        id == 20 ==> builtin(id) == Some("h:mm"@),
        id == 21 ==> builtin(id) == Some("h:mm:ss"@),
        id == 22 ==> builtin(id) == Some("m/d/yy h:mm"@),
        id == 45 ==> builtin(id) == Some("mm:ss"@),
        id == 46 ==> builtin(id) == Some("[h]:mm:ss"@),
        id == 47 ==> builtin(id) == Some("mmss.##"@),
        22 < id < 45 || id > 47 ==> builtin(id) is None,
{
}

/// Text in quotes of either kind, a character behind a backslash and what stands in square brackets
/// come off; everything else stays, in small letters.
pub proof fn law_what_comes_off_a_code(a: Seq<char>, text: Seq<char>, c: char)
    ensures
        !text.contains('"') ==> stripped_from(a + (seq!['"'] + text + seq!['"']), a.len() as int)
            == Seq::<char>::empty(),
        !text.contains('\'') ==> stripped_from(
            a + (seq!['\''] + text + seq!['\'']),
            a.len() as int,
        ) == Seq::<char>::empty(),
        !text.contains(']') ==> stripped_from(a + (seq!['['] + text + seq![']']), a.len() as int)
            == Seq::<char>::empty(),
        stripped_from(a + seq!['\\', c], a.len() as int) == Seq::<char>::empty(),
        c != '"' && c != '\'' && c != '\\' && c != '[' && !('A' <= c <= 'Z') ==> stripped_from(
            a + seq![c],
            a.len() as int,
        ) == seq![c],
        'A' <= c <= 'Z' ==> stripped_from(a + seq![c], a.len() as int).len() == 1
            && stripped_from(a + seq![c], a.len() as int)[0] as int == c as int + 32,
{
    reveal_with_fuel(stripped_from, 2);
    lemma_enclosed(a, text, '"', '"');
    lemma_enclosed(a, text, '\'', '\'');
    lemma_enclosed(a, text, '[', ']');
    let s = a + seq![c];
    assert(s[a.len() as int] == c);
    assert(seq![small(c)] + Seq::<char>::empty() =~= seq![small(c)]);
    let e = a + seq!['\\', c];
    assert(e[a.len() as int] == '\\');
}

proof fn lemma_enclosed(a: Seq<char>, text: Seq<char>, open: char, close: char)
    ensures
        ({
            let s = a + (seq![open] + text + seq![close]);
            &&& s[a.len() as int] == open
            &&& !text.contains(close) ==> seek(s, close, a.len() + 1int) == s.len() - 1
        }),
{
    let s = a + (seq![open] + text + seq![close]);
    let k = a.len() + 1int;
    lemma_seek(s, close, k);
    assert(s[s.len() - 1] == close);
    if !text.contains(close) {
        assert forall|i: int| k <= i < s.len() - 1 implies s[i] != close by {
            assert(s[i] == text[i - k]);
        }
    }
}

/// A code with a year or a day and with an hour or a second shows both day and time, one with the
/// first alone a day, and one with the second alone a time. A month alone is a day.
pub proof fn law_letters_make_dates_and_times(t: Seq<char>)
    requires
        !t.contains('%'),
    ensures
        (t.contains('y') || t.contains('d')) && (t.contains('h') || t.contains('s')) ==> judged(t)
            == Kind::Datetime,
        (t.contains('y') || t.contains('d')) && !tells_time(t) ==> judged(t) == Kind::Date,
        !t.contains('y') && !t.contains('d') && (t.contains('h') || t.contains('s')) ==> judged(t)
            == Kind::Time,
        t.contains('m') && !tells_time(t) ==> judged(t) == Kind::Date,
        !t.contains('y') && !t.contains('d') && !t.contains('m') && !tells_time(t) ==> !judged(
            t,
        ).temporal(),
        !t.contains('y') && !t.contains('d') && !t.contains('m') && !tells_time(t) && (t.contains(
            '$',
        ) || t.contains('\u{A5}') || t.contains('\u{FFE5}') || t.contains('\u{20AC}')) ==> judged(t)
            == Kind::Currency,
        t.len() == 0 ==> judged(t) == Kind::General,
{
    if t.len() == 0 {
        reveal_strlit("am/pm");
        reveal_strlit("a/p");
        assert("am/pm"@.len() == 5 && "a/p"@.len() == 3);
        assert(!tells_time(t));
    }
}

/// The code that is called general is of the general kind, and a code of plain places for digits is a
/// number.
pub proof fn law_the_general_code(s: Seq<char>)
    requires
        s == seq!['g', 'e', 'n', 'e', 'r', 'a', 'l'] || s == seq!['0', '.', '0', '0'],
    ensures
        s == seq!['g', 'e', 'n', 'e', 'r', 'a', 'l'] ==> judged(s) == Kind::General,
        s == seq!['0', '.', '0', '0'] ==> judged(s) == Kind::Number,
{
    reveal_strlit("am/pm");
    reveal_strlit("a/p");
    reveal_strlit("general");
    assert("am/pm"@.len() == 5 && "a/p"@.len() == 3);
    assert("general"@ =~= seq!['g', 'e', 'n', 'e', 'r', 'a', 'l']);
    if s == seq!['g', 'e', 'n', 'e', 'r', 'a', 'l'] {
        assert forall|at: int| !stands_at(s, "am/pm"@, at) by {
            if stands_at(s, "am/pm"@, at) {
                assert(s.subrange(at, at + 5)[2] == s[at + 2]);
                assert("am/pm"@[2] == '/');
            }
        }
        assert forall|at: int| !stands_at(s, "a/p"@, at) by {
            if stands_at(s, "a/p"@, at) {
                assert(s.subrange(at, at + 3)[1] == s[at + 1]);
                assert("a/p"@[1] == '/');
            }
        }
    } else {
        assert forall|at: int| !stands_at(s, "a/p"@, at) by {
            if stands_at(s, "a/p"@, at) {
                assert(s.subrange(at, at + 3)[1] == s[at + 1]);
                assert("a/p"@[1] == '/');
            }
        }
        assert(seq!['0', '.', '0', '0'].len() == 4);
    }
}

/// The words for the kinds.
pub proof fn law_kinds_have_their_words(k: Kind)
    ensures
        k == Kind::General ==> k.name() == "general"@ && !k.temporal(),
        k == Kind::Number ==> k.name() == "number"@ && !k.temporal(),
        k == Kind::Percent ==> k.name() == "percent"@ && !k.temporal(),
        k == Kind::Currency ==> k.name() == "currency"@ && !k.temporal(),
        k == Kind::Date ==> k.name() == "date"@ && k.temporal(),
        k == Kind::Datetime ==> k.name() == "datetime"@ && k.temporal(),
        k == Kind::Time ==> k.name() == "time"@ && k.temporal(),
        k == Kind::Unknown ==> k.name() == "unknown"@ && !k.temporal(),
{
}

/// Serial day 1 is the first of January 1900 on the older basis, day 61 the first of March 1900 and
/// day 25569 the first of January 1970; day 0 is the first of January 1904 on the newer one. One
/// serial day more is one day more, on either basis, but for the day that never was.
pub proof fn law_serial_days_are_counted_from_their_basis(days: int, year1904: bool)
    ensures
        serial_day(1, false) == day_number(1900, 1, 1),
        serial_day(59, false) == day_number(1900, 2, 28),
        serial_day(61, false) == day_number(1900, 3, 1),
        serial_day(25_569, false) == day_number(1970, 1, 1),
        serial_day(0, true) == day_number(1904, 1, 1),
        year1904 || (days != 59 && days != 60) ==> serial_day(days + 1, year1904) == serial_day(
            days,
            year1904,
        ) + 1,
{
    reveal_with_fuel(crate::dates::days_before_month, 4);
}

/// A serial day as text: ten characters for a year of four digits, the day alone where no second of
/// it has passed, and otherwise a `T` and eight characters more.
pub proof fn law_a_date_is_written_year_first(y: int, m: int, d: int, seconds: int)
    requires
        0 <= y <= 9999,
        1 <= m <= 12,
        1 <= d <= 31,
        seconds < 86_400,
    ensures
        ({
            let t = iso_of(y, m, d, seconds);
            &&& t.len() == if seconds <= 0 {
                10int
            } else {
                19
            }
            &&& t[0] as int == '0' as int + y / 1000
            &&& t[1] as int == '0' as int + y / 100 % 10
            &&& t[2] as int == '0' as int + y / 10 % 10
            &&& t[3] as int == '0' as int + y % 10
            &&& t[4] == '-'
            &&& t[5] as int == '0' as int + m / 10
            &&& t[6] as int == '0' as int + m % 10
            &&& t[7] == '-'
            &&& t[8] as int == '0' as int + d / 10
            &&& t[9] as int == '0' as int + d % 10
            &&& seconds > 0 ==> {
                &&& t[10] == 'T'
                &&& t[11] as int == '0' as int + seconds / 36_000
                &&& t[12] as int == '0' as int + seconds / 3_600 % 10
                &&& t[13] == ':'
                &&& t[14] as int == '0' as int + seconds % 3_600 / 600
                &&& t[15] as int == '0' as int + seconds % 3_600 / 60 % 10
                &&& t[16] == ':'
                &&& t[17] as int == '0' as int + seconds % 60 / 10
                &&& t[18] as int == '0' as int + seconds % 60 % 10
            }
        }),
{
    reveal_strlit("-");
    reveal_strlit("T");
    reveal_strlit(":");
    assert("-"@ =~= seq!['-'] && "T"@ =~= seq!['T'] && ":"@ =~= seq![':']);
    lemma_two_digits(m);
    lemma_two_digits(d);
    lemma_four_digits(y);
    let day = iso_day(y, m, d);
    assert(day.len() == 10);
    if seconds > 0 {
        lemma_two_digits(seconds / 3600);
        lemma_two_digits(seconds % 3600 / 60);
        lemma_two_digits(seconds % 60);
        let time = iso_time(seconds);
        assert(time.len() == 8);
        assert(seconds / 3600 / 10 == seconds / 36_000);
        assert(seconds % 3_600 / 60 / 10 == seconds % 3_600 / 600);
        let t = iso_of(y, m, d, seconds);
        assert(t =~= day + seq!['T'] + time);
    }
}

proof fn lemma_two_digits(n: int)
    requires
        0 <= n < 100,
    ensures
        padded(n as nat, 2) == seq![(48 + n / 10) as char, (48 + n % 10) as char],
{
    reveal_with_fuel(padded, 3);
    assert(padded(n as nat, 2) =~= seq![(48 + n / 10) as char, (48 + n % 10) as char]);
}

proof fn lemma_four_digits(n: int)
    requires
        0 <= n < 10_000,
    ensures
        padded(n as nat, 4) == seq![
            (48 + n / 1000) as char,
            (48 + n / 100 % 10) as char,
            (48 + n / 10 % 10) as char,
            (48 + n % 10) as char,
        ],
{
    reveal_with_fuel(padded, 5);
    assert(n / 10 / 10 == n / 100 && n / 100 / 10 == n / 1000);
    assert(padded(n as nat, 4) =~= seq![
        (48 + n / 1000) as char,
        (48 + n / 100 % 10) as char,
        (48 + n / 10 % 10) as char,
        (48 + n % 10) as char,
    ]);
}

/// A serial day is written as the day that it is counted to. Day 60 of the older basis, the day that
/// never was, is written as the 29th of February 1900.
pub proof fn law_what_a_serial_day_is_written_as(
    days: i64,
    seconds: i64,
    year1904: bool,
    r: String,
)
    requires
        i64::MIN + 25_569 <= days <= i64::MAX - 719_162,
        seconds < 86_400,
        call_ensures(serial_to_iso, (days, seconds, year1904), r),
    ensures
        !year1904 && days == 60 ==> r@ == seq!['1', '9', '0', '0', '-', '0', '2', '-', '2', '9'],
        year1904 || days != 60 ==> exists|y: int, m: int, d: int|
            valid_date(y, m, d) && #[trigger] day_number(y, m, d) == serial_day(
                days as int,
                year1904,
            ) && r@ == iso_of(y, m, d, seconds as int),
{
    reveal_strlit("1900-02-29");
    assert("1900-02-29"@ =~= seq!['1', '9', '0', '0', '-', '0', '2', '-', '2', '9']);
}

} // verus!
