//! The structure of a text document as Markdown: headings, lists, tables, links and pictures.
//!
//! A line is made from pieces that carry their shape. Pieces of one shape that stand side by side
//! are joined first, since programs break text into pieces as they like, and the marks that have a
//! meaning in Markdown are escaped.

use crate::text::{chars_of, same, string_together, strung, texts};
use crate::words::{trim, trimmed};
use crate::written::{copied, text_in};
use vstd::prelude::*;

pub mod docx;
pub mod odf;

verus! {

broadcast use crate::text::lemma_texts_push;

/// Stands for a line break inside a paragraph until the line is made.
pub const HARD: char = '\u{0}';

/// A piece of a line: text with its shape, or a picture with its description and its place.
#[derive(Debug, Clone)]
pub struct Seg {
    pub text: String,
    pub bold: bool,
    pub italic: bool,
    pub link: Option<String>,
    pub image: Option<(String, String)>,
}

/// A piece of a line.
pub struct Piece {
    pub text: Seq<char>,
    pub bold: bool,
    pub italic: bool,
    pub link: Option<Seq<char>>,
    pub image: Option<(Seq<char>, Seq<char>)>,
}

/// The texts of a pair that may not be there.
pub open spec fn pair_in(p: Option<(String, String)>) -> Option<(Seq<char>, Seq<char>)> {
    match p {
        Some(x) => Some((x.0@, x.1@)),
        None => None,
    }
}

/// A piece of text.
pub open spec fn words(text: Seq<char>, bold: bool, italic: bool, link: Option<Seq<char>>) -> Piece {
    Piece { text, bold, italic, link, image: None }
}

/// A picture.
pub open spec fn pictured(alt: Seq<char>, target: Seq<char>) -> Piece {
    Piece {
        text: Seq::empty(),
        bold: false,
        italic: false,
        link: None,
        image: Some((alt, target)),
    }
}

impl Seg {
    pub open spec fn piece(self) -> Piece {
        Piece {
            text: self.text@,
            bold: self.bold,
            italic: self.italic,
            link: text_in(self.link),
            image: pair_in(self.image),
        }
    }

    /// A piece of text.
    pub fn said(text: &str, bold: bool, italic: bool, link: &Option<String>) -> (r: Seg)
        ensures
            r.piece() == words(text@, bold, italic, text_in(*link)),
    {
        Seg { text: text.to_owned(), bold, italic, link: copied(link), image: None }
    }

    /// A picture.
    pub fn picture(alt: &str, target: &str) -> (r: Seg)
        ensures
            r.piece() == pictured(alt@, target@),
    {
        let none: String = String::new();
        assert(none@ =~= Seq::empty());
        Seg {
            text: none,
            bold: false,
            italic: false,
            link: None,
            image: Some((alt.to_owned(), target.to_owned())),
        }
    }
}

/// The pieces of a list.
pub open spec fn pieces(v: Seq<Seg>) -> Seq<Piece> {
    Seq::new(v.len(), |i: int| v[i].piece())
}

pub broadcast proof fn lemma_pieces_push(v: Seq<Seg>, s: Seg)
    ensures
        #[trigger] pieces(v.push(s)) == pieces(v).push(s.piece()),
{
    assert(pieces(v.push(s)) =~= pieces(v).push(s.piece()));
}

/// Two pieces of text have one shape.
pub open spec fn alike(a: Piece, b: Piece) -> bool {
    a.image is None && b.image is None && a.bold == b.bold && a.italic == b.italic && a.link
        == b.link
}

/// The pieces with those of one shape that stand side by side made one.
pub open spec fn merged(s: Seq<Piece>) -> Seq<Piece>
    decreases s.len(),
{
    if s.len() == 0 {
        Seq::empty()
    } else {
        let before = merged(s.drop_last());
        let one = s.last();
        match one.image {
            Some(i) => before.push(pictured(i.0, i.1)),
            None => if before.len() > 0 && alike(before.last(), one) {
                before.drop_last().push(
                    words(before.last().text + one.text, one.bold, one.italic, one.link),
                )
            } else {
                before.push(one)
            },
        }
    }
}

fn same_option(a: &Option<String>, b: &Option<String>) -> (r: bool)
    ensures
        r == (text_in(*a) == text_in(*b)),
{
    match (a, b) {
        (Some(x), Some(y)) => same(x.as_str(), y.as_str()),
        (None, None) => true,
        _ => false,
    }
}

fn copy_seg(one: &Seg) -> (r: Seg)
    ensures
        r.piece() == one.piece(),
{
    Seg {
        text: one.text.as_str().to_owned(),
        bold: one.bold,
        italic: one.italic,
        link: copied(&one.link),
        image: match &one.image {
            Some(i) => Some((i.0.as_str().to_owned(), i.1.as_str().to_owned())),
            None => None,
        },
    }
}

fn merge(segs: &Vec<Seg>) -> (r: Vec<Seg>)
    ensures
        pieces(r@) == merged(pieces(segs@)),
{
    broadcast use lemma_pieces_push;

    let ghost s = pieces(segs@);
    let mut out: Vec<Seg> = Vec::new();
    let mut i: usize = 0;
    assert(pieces(out@) =~= merged(s.take(0)));
    while i < segs.len()
        invariant
            i <= segs@.len(),
            s == pieces(segs@),
            pieces(out@) == merged(s.take(i as int)),
        decreases segs@.len() - i,
    {
        let one: &Seg = &segs[i];
        let ghost done = s.take(i + 1);
        assert(done.drop_last() =~= s.take(i as int));
        assert(done.last() == one.piece());
        let ghost before = merged(s.take(i as int));
        assert(pieces(out@).len() == out@.len());
        match &one.image {
            Some(image) => {
                out.push(Seg::picture(image.0.as_str(), image.1.as_str()));
            },
            None => {
                let n: usize = out.len();
                let joins: bool = n > 0 && out[n - 1].image.is_none() && out[n - 1].bold == one.bold
                    && out[n - 1].italic == one.italic && same_option(&out[n - 1].link, &one.link);
                if n > 0 {
                    assert(before.last() == out@[n - 1].piece());
                }
                assert(joins == (before.len() > 0 && alike(before.last(), done.last())));
                if joins {
                    match out.pop() {
                        Some(last) => {
                            let ghost kept = last.piece();
                            assert(pieces(out@) =~= before.drop_last());
                            let mut text: String = last.text;
                            text.append(one.text.as_str());
                            out.push(Seg::said(text.as_str(), one.bold, one.italic, &one.link));
                        },
                        None => {},
                    }
                } else {
                    out.push(copy_seg(one));
                }
            },
        }
        i += 1;
    }
    assert(s.take(i as int) =~= s);
    out
}

/// A character that means something in Markdown. A bar does so only inside a table.
pub open spec fn special(c: char, pipe: bool) -> bool {
    c == '\\' || c == '*' || c == '_' || c == '`' || c == '[' || c == ']' || c == '<' || c == '>'
        || (pipe && c == '|')
}

/// The first `n` characters with a backslash before each that means something.
pub open spec fn escaped_upto(s: Seq<char>, pipe: bool, n: int) -> Seq<char>
    decreases n,
{
    if n <= 0 {
        Seq::empty()
    } else {
        let before = escaped_upto(s, pipe, n - 1);
        if special(s[n - 1], pipe) {
            before.push('\\').push(s[n - 1])
        } else {
            before.push(s[n - 1])
        }
    }
}

/// A text with a backslash before each character that means something.
pub open spec fn escaped(s: Seq<char>, pipe: bool) -> Seq<char> {
    escaped_upto(s, pipe, s.len() as int)
}

/// Puts a backslash before each character that means something.
pub fn esc(text: &str, pipe: bool) -> (r: String)
    ensures
        r@ == escaped(text@, pipe),
{
    let size: usize = text.unicode_len();
    let mut out: String = String::new();
    let mut i: usize = 0;
    assert(out@ =~= escaped_upto(text@, pipe, 0));
    while i < size
        invariant
            i <= size,
            size == text@.len(),
            out@ == escaped_upto(text@, pipe, i as int),
        decreases size - i,
    {
        let c: char = text.get_char(i);
        if c == '\\' || c == '*' || c == '_' || c == '`' || c == '[' || c == ']' || c == '<' || c
            == '>' || (pipe && c == '|') {
            out.push('\\');
        }
        out.push(c);
        i += 1;
    }
    out
}

/// What is left when each backslash is taken with the character behind it.
pub open spec fn unescaped(t: Seq<char>) -> Seq<char>
    decreases t.len(),
{
    if t.len() == 0 {
        Seq::empty()
    } else if t[0] == '\\' && t.len() > 1 {
        seq![t[1]] + unescaped(t.skip(2))
    } else {
        seq![t[0]] + unescaped(t.skip(1))
    }
}

proof fn lemma_unescaped_ends(t: Seq<char>, pipe: bool, s: Seq<char>, n: int)
    requires
        0 <= n <= s.len(),
    ensures
        unescaped(escaped_upto(s, pipe, n) + t) == s.take(n) + unescaped(t),
    decreases n,
{
    if n == 0 {
        assert(escaped_upto(s, pipe, 0) + t =~= t);
        assert(s.take(0) + unescaped(t) =~= unescaped(t));
    } else {
        let c = s[n - 1];
        let tail = if special(c, pipe) {
            seq!['\\', c] + t
        } else {
            seq![c] + t
        };
        lemma_unescaped_ends(tail, pipe, s, n - 1);
        assert(escaped_upto(s, pipe, n) + t =~= escaped_upto(s, pipe, n - 1) + tail);
        if special(c, pipe) {
            assert(tail.skip(2) =~= t);
        } else {
            assert(tail.skip(1) =~= t);
        }
        assert(unescaped(tail) =~= seq![c] + unescaped(t));
        assert(s.take(n) =~= s.take(n - 1).push(c));
        assert(s.take(n - 1) + (seq![c] + unescaped(t)) =~= s.take(n) + unescaped(t));
    }
}

/// Escaped text reads back as the text it was.
pub proof fn law_escaped_text_reads_back(s: Seq<char>, pipe: bool)
    ensures
        unescaped(escaped(s, pipe)) == s,
{
    lemma_unescaped_ends(Seq::empty(), pipe, s, s.len() as int);
    assert(escaped(s, pipe) + Seq::<char>::empty() =~= escaped(s, pipe));
    assert(s.take(s.len() as int) + unescaped(Seq::empty()) =~= s);
}

/// Where the digits from `i` on end.
pub open spec fn past_digits(s: Seq<char>, i: int) -> int
    decreases s.len() - i,
{
    if 0 <= i < s.len() && '0' <= s[i] && s[i] <= '9' {
        past_digits(s, i + 1)
    } else {
        i
    }
}

/// A line that begins like a heading, a quotation or an item of a list.
pub open spec fn like_marker(s: Seq<char>) -> bool {
    if s.len() == 0 {
        false
    } else if s[0] == '#' || s[0] == '>' {
        true
    } else if s[0] == '-' || s[0] == '+' {
        s.len() > 1 && s[1] == ' '
    } else if '0' <= s[0] && s[0] <= '9' {
        let k = past_digits(s, 0);
        k < s.len() && (s[k] == '.' || s[k] == ')')
    } else {
        false
    }
}

/// Whether a line begins like a heading, a quotation or an item of a list.
pub fn starts_like_marker(text: &str) -> (r: bool)
    ensures
        r == like_marker(text@),
{
    let c: Vec<char> = chars_of(text);
    let size: usize = c.len();
    if size == 0 {
        return false;
    }
    if c[0] == '#' || c[0] == '>' {
        return true;
    }
    if c[0] == '-' || c[0] == '+' {
        return size > 1 && c[1] == ' ';
    }
    if !('0' <= c[0] && c[0] <= '9') {
        return false;
    }
    let mut i: usize = 0;
    while i < size && '0' <= c[i] && c[i] <= '9'
        invariant
            i <= size,
            size == c@.len(),
            past_digits(c@, 0) == past_digits(c@, i as int),
        decreases size - i,
    {
        i += 1;
    }
    i < size && (c[i] == '.' || c[i] == ')')
}

/// The first `n` characters with `by` in the place of each `what`.
pub open spec fn replaced_upto(s: Seq<char>, what: char, by: Seq<char>, n: int) -> Seq<char>
    decreases n,
{
    if n <= 0 {
        Seq::empty()
    } else if s[n - 1] == what {
        replaced_upto(s, what, by, n - 1) + by
    } else {
        replaced_upto(s, what, by, n - 1).push(s[n - 1])
    }
}

/// A text with `by` in the place of each `what`.
pub open spec fn replaced(s: Seq<char>, what: char, by: Seq<char>) -> Seq<char> {
    replaced_upto(s, what, by, s.len() as int)
}

/// Puts `by` in the place of each `what`.
pub fn replace(text: &str, what: char, by: &str) -> (r: String)
    ensures
        r@ == replaced(text@, what, by@),
{
    let size: usize = text.unicode_len();
    let mut out: String = String::new();
    let mut i: usize = 0;
    assert(out@ =~= replaced_upto(text@, what, by@, 0));
    while i < size
        invariant
            i <= size,
            size == text@.len(),
            out@ == replaced_upto(text@, what, by@, i as int),
        decreases size - i,
    {
        let c: char = text.get_char(i);
        if c == what {
            out.append(by);
        } else {
            out.push(c);
        }
        i += 1;
    }
    out
}

/// A text between the marks of its shape.
pub open spec fn shaped(body: Seq<char>, bold: bool, italic: bool) -> Seq<char> {
    let mark = if bold && italic {
        "***"@
    } else if bold {
        "**"@
    } else if italic {
        "*"@
    } else {
        Seq::empty()
    };
    mark + body + mark
}

/// What a piece is written as. A piece of blanks is left out.
pub open spec fn shown(p: Piece, pipe: bool) -> Seq<char> {
    match p.image {
        Some(i) => "!["@ + i.0 + "]("@ + i.1 + ")"@,
        None => if trimmed(p.text).len() == 0 {
            Seq::empty()
        } else {
            let body = shaped(escaped(p.text, pipe), p.bold, p.italic);
            let whole = match p.link {
                Some(link) => "["@ + body + "]("@ + link + ")"@,
                None => body,
            };
            replaced(whole, HARD, "\\\n"@)
        },
    }
}

fn show(one: &Seg, pipe: bool) -> (r: String)
    ensures
        r@ == shown(one.piece(), pipe),
{
    match &one.image {
        Some(image) => {
            let mut out: String = "![".to_owned();
            out.append(image.0.as_str());
            out.append("](");
            out.append(image.1.as_str());
            out.append(")");
            return out;
        },
        None => {},
    }
    if trim(one.text.as_str()).unicode_len() == 0 {
        let none: String = String::new();
        assert(none@ =~= Seq::empty());
        return none;
    }
    let mark: &str = if one.bold && one.italic {
        "***"
    } else if one.bold {
        "**"
    } else if one.italic {
        "*"
    } else {
        ""
    };
    proof {
        reveal_strlit("");
        assert(""@ =~= Seq::empty());
    }
    let mut body: String = mark.to_owned();
    body.append(esc(one.text.as_str(), pipe).as_str());
    body.append(mark);
    let whole: String = match &one.link {
        Some(link) => {
            let mut t: String = "[".to_owned();
            t.append(body.as_str());
            t.append("](");
            t.append(link.as_str());
            t.append(")");
            t
        },
        None => body,
    };
    replace(whole.as_str(), HARD, "\\\n")
}

/// What pieces are written as.
pub open spec fn shown_all(s: Seq<Piece>, pipe: bool, n: int) -> Seq<char>
    decreases n,
{
    if n <= 0 {
        Seq::empty()
    } else {
        shown_all(s, pipe, n - 1) + shown(s[n - 1], pipe)
    }
}

/// The line that pieces make.
pub open spec fn rendered(s: Seq<Piece>, pipe: bool) -> Seq<char> {
    let m = merged(s);
    shown_all(m, pipe, m.len() as int)
}

/// Makes a line from pieces.
pub fn render(segs: &Vec<Seg>, pipe: bool) -> (r: String)
    ensures
        r@ == rendered(pieces(segs@), pipe),
{
    let all: Vec<Seg> = merge(segs);
    let ghost m = pieces(all@);
    let mut out: String = String::new();
    let mut i: usize = 0;
    assert(out@ =~= shown_all(m, pipe, 0));
    while i < all.len()
        invariant
            i <= all@.len(),
            m == pieces(all@),
            out@ == shown_all(m, pipe, i as int),
        decreases all@.len() - i,
    {
        assert(m[i as int] == all@[i as int].piece());
        out.append(show(&all[i], pipe).as_str());
        i += 1;
    }
    assert(m.len() == all@.len());
    out
}

/// How a program breaks a text of one shape into two pieces does not show.
pub proof fn law_breaks_do_not_show(
    s: Seq<Piece>,
    a: Seq<char>,
    b: Seq<char>,
    bold: bool,
    italic: bool,
    link: Option<Seq<char>>,
    pipe: bool,
)
    ensures
        rendered(
            s.push(words(a, bold, italic, link)).push(words(b, bold, italic, link)),
            pipe,
        ) == rendered(s.push(words(a + b, bold, italic, link)), pipe),
{
    let one = s.push(words(a, bold, italic, link));
    let two = one.push(words(b, bold, italic, link));
    let whole = s.push(words(a + b, bold, italic, link));
    assert(one.drop_last() =~= s);
    assert(two.drop_last() =~= one);
    assert(whole.drop_last() =~= s);
    let before = merged(s);
    let x = merged(one);
    assert(x.len() > 0 && alike(x.last(), words(b, bold, italic, link)));
    if before.len() > 0 && alike(before.last(), words(a, bold, italic, link)) {
        let t = before.last().text;
        assert(x.drop_last() =~= before.drop_last());
        assert((t + a) + b =~= t + (a + b));
    } else {
        assert(x.drop_last() =~= before);
    }
    assert(merged(two) =~= merged(whole));
}

/// The lengths of rows.
pub open spec fn widest(rows: Seq<Seq<Seq<char>>>, n: int) -> nat
    decreases n,
{
    if n <= 0 {
        0
    } else if rows[n - 1].len() > widest(rows, n - 1) {
        rows[n - 1].len()
    } else {
        widest(rows, n - 1)
    }
}

/// A row with empty cells at its end up to a width.
pub open spec fn filled(row: Seq<Seq<char>>, width: nat) -> Seq<Seq<char>> {
    Seq::new(
        width,
        |i: int|
            if i < row.len() {
                row[i]
            } else {
                Seq::empty()
            },
    )
}

/// A row of a table.
pub open spec fn row_line(cells: Seq<Seq<char>>) -> Seq<char> {
    "| "@ + strung(cells, " | "@) + " |"@
}

/// The rows behind the first, each on a line of its own.
pub open spec fn more_rows(rows: Seq<Seq<Seq<char>>>, width: nat, n: int) -> Seq<char>
    decreases n,
{
    if n <= 1 {
        Seq::empty()
    } else {
        more_rows(rows, width, n - 1) + "\n"@ + row_line(filled(rows[n - 1], width))
    }
}

/// A table: its first row, a line under it, and the other rows. All rows are as wide as the
/// widest.
pub open spec fn table_text(rows: Seq<Seq<Seq<char>>>) -> Seq<char> {
    if rows.len() == 0 {
        Seq::empty()
    } else {
        let width = widest(rows, rows.len() as int);
        row_line(filled(rows[0], width)) + "\n"@ + row_line(Seq::new(width, |i: int| "---"@))
            + more_rows(rows, width, rows.len() as int)
    }
}

/// The texts of the cells of rows.
pub open spec fn row_texts(v: Seq<Vec<String>>) -> Seq<Seq<Seq<char>>> {
    Seq::new(v.len(), |i: int| texts(v[i]@))
}

fn push_row(out: &mut String, cells: &Vec<String>)
    ensures
        final(out)@ == old(out)@ + row_line(texts(cells@)),
{
    let ghost start = out@;
    out.append("| ");
    out.append(string_together(cells, " | ").as_str());
    out.append(" |");
    assert(out@ =~= start + row_line(texts(cells@)));
}

fn fill_row(row: &Vec<String>, width: usize) -> (r: Vec<String>)
    requires
        row@.len() <= width,
    ensures
        texts(r@) == filled(texts(row@), width as nat),
{
    let mut out: Vec<String> = Vec::new();
    let mut i: usize = 0;
    let ghost all = filled(texts(row@), width as nat);
    while i < width
        invariant
            i <= width,
            all == filled(texts(row@), width as nat),
            texts(out@) == all.take(i as int),
        decreases width - i,
    {
        if i < row.len() {
            assert(texts(row@)[i as int] == row@[i as int]@);
            out.push(row[i].as_str().to_owned());
        } else {
            let none: String = String::new();
            assert(none@ =~= Seq::empty());
            out.push(none);
        }
        i += 1;
        assert(texts(out@) =~= all.take(i as int));
    }
    assert(all.take(i as int) =~= all);
    out
}

proof fn lemma_widest(rows: Seq<Seq<Seq<char>>>, n: int, i: int)
    requires
        0 <= i < n <= rows.len(),
    ensures
        rows[i].len() <= widest(rows, n),
    decreases n,
{
    if i < n - 1 {
        lemma_widest(rows, n - 1, i);
    }
}

fn find_widest(rows: &Vec<Vec<String>>) -> (r: usize)
    ensures
        r == widest(row_texts(rows@), rows@.len() as int),
{
    let mut most: usize = 0;
    let mut i: usize = 0;
    while i < rows.len()
        invariant
            i <= rows@.len(),
            most == widest(row_texts(rows@), i as int),
        decreases rows@.len() - i,
    {
        assert(row_texts(rows@)[i as int].len() == rows@[i as int]@.len());
        if rows[i].len() > most {
            most = rows[i].len();
        }
        i += 1;
    }
    most
}

/// Writes a table.
pub fn write_table(rows: &Vec<Vec<String>>) -> (r: String)
    ensures
        r@ == table_text(row_texts(rows@)),
{
    let ghost t = row_texts(rows@);
    let mut out: String = String::new();
    assert(out@ =~= Seq::empty());
    let count: usize = rows.len();
    if count == 0 {
        return out;
    }
    let width: usize = find_widest(rows);
    proof {
        lemma_widest(t, count as int, 0);
        assert(t[0] == texts(rows@[0]@));
    }
    push_row(&mut out, &fill_row(&rows[0], width));
    out.append("\n");
    let mut rule: Vec<String> = Vec::new();
    let mut i: usize = 0;
    let ghost dashes = Seq::new(width as nat, |i: int| "---"@);
    while i < width
        invariant
            i <= width,
            dashes == Seq::new(width as nat, |i: int| "---"@),
            texts(rule@) == dashes.take(i as int),
        decreases width - i,
    {
        rule.push("---".to_owned());
        i += 1;
        assert(texts(rule@) =~= dashes.take(i as int));
    }
    assert(dashes.take(i as int) =~= dashes);
    push_row(&mut out, &rule);
    let ghost head = out@;
    let mut k: usize = 1;
    assert(out@ =~= head + more_rows(t, width as nat, 1));
    while k < count
        invariant
            1 <= k <= count,
            count == rows@.len(),
            t == row_texts(rows@),
            width == widest(t, count as int),
            out@ == head + more_rows(t, width as nat, k as int),
        decreases count - k,
    {
        proof {
            lemma_widest(t, count as int, k as int);
            assert(t[k as int] == texts(rows@[k as int]@));
        }
        out.append("\n");
        push_row(&mut out, &fill_row(&rows[k], width));
        k += 1;
        assert(out@ =~= head + more_rows(t, width as nat, k as int));
    }
    assert(out@ =~= table_text(t));
    out
}

/// Every line of a table has as many cells as the widest row.
pub proof fn law_rows_of_a_table_are_equally_wide(rows: Seq<Seq<Seq<char>>>, i: int)
    requires
        0 <= i < rows.len(),
    ensures
        filled(rows[i], widest(rows, rows.len() as int)).len() == widest(rows, rows.len() as int),
        filled(rows[i], widest(rows, rows.len() as int)).take(rows[i].len() as int) == rows[i],
{
    lemma_widest(rows, rows.len() as int, i);
    let w = widest(rows, rows.len() as int);
    assert(filled(rows[i], w).take(rows[i].len() as int) =~= rows[i]);
}

/// A line in a cell: without the blanks around it and with a mark for each line break.
pub open spec fn flat(line: Seq<char>) -> Seq<char> {
    replaced(trimmed(line), '\n', "<br>"@)
}

/// A block of text: an item of a list or something else.
#[derive(Debug, Clone)]
pub struct Block {
    pub item: bool,
    pub text: String,
}

/// A block of text.
pub struct Chunk {
    pub item: bool,
    pub text: Seq<char>,
}

impl Block {
    pub open spec fn chunk(self) -> Chunk {
        Chunk { item: self.item, text: self.text@ }
    }
}

pub open spec fn chunks(v: Seq<Block>) -> Seq<Chunk> {
    Seq::new(v.len(), |i: int| v[i].chunk())
}

pub broadcast proof fn lemma_chunks_push(v: Seq<Block>, b: Block)
    ensures
        #[trigger] chunks(v.push(b)) == chunks(v).push(b.chunk()),
{
    assert(chunks(v.push(b)) =~= chunks(v).push(b.chunk()));
}

/// The first `n` blocks one after another: items of a list on lines of their own, everything else
/// with an empty line between.
pub open spec fn set_upto(s: Seq<Chunk>, n: int) -> Seq<char>
    decreases n,
{
    if n <= 0 {
        Seq::empty()
    } else if n == 1 {
        s[0].text
    } else {
        set_upto(s, n - 1) + if s[n - 1].item && s[n - 2].item {
            "\n"@
        } else {
            "\n\n"@
        } + s[n - 1].text
    }
}

/// The text that blocks make. It ends with a line break unless there is none.
pub open spec fn whole_text(s: Seq<Chunk>) -> Seq<char> {
    if s.len() == 0 {
        Seq::empty()
    } else {
        set_upto(s, s.len() as int) + "\n"@
    }
}

/// Sets blocks one after another.
pub fn join_blocks(blocks: &Vec<Block>) -> (r: String)
    ensures
        r@ == whole_text(chunks(blocks@)),
{
    let ghost s = chunks(blocks@);
    let mut out: String = String::new();
    let mut i: usize = 0;
    assert(out@ =~= set_upto(s, 0));
    while i < blocks.len()
        invariant
            i <= blocks@.len(),
            s == chunks(blocks@),
            out@ == set_upto(s, i as int),
        decreases blocks@.len() - i,
    {
        assert(s[i as int] == blocks@[i as int].chunk());
        if i > 0 {
            assert(s[i - 1] == blocks@[i - 1].chunk());
            if blocks[i].item && blocks[i - 1].item {
                out.append("\n");
            } else {
                out.append("\n\n");
            }
        }
        out.append(blocks[i].text.as_str());
        i += 1;
        assert(out@ =~= set_upto(s, i as int));
    }
    assert(s.len() == blocks@.len());
    if blocks.len() > 0 {
        out.append("\n");
    }
    out
}

/// A text, cut to as many characters as there is room for, and how long it was.
#[derive(Debug, Clone)]
pub struct Shown {
    pub text: String,
    pub chars: usize,
    pub cut: bool,
}

impl Shown {
    pub open spec fn describes(self, whole: Seq<char>, budget: usize) -> bool {
        &&& self.text@ == if whole.len() > budget {
            whole.take(budget as int)
        } else {
            whole
        }
        &&& self.chars == whole.len()
        &&& self.cut == (whole.len() > budget)
    }
}

/// Cuts a text to as many characters as there is room for.
pub fn cut_text(whole: &str, budget: usize) -> (r: Shown)
    ensures
        r.describes(whole@, budget),
{
    let chars: usize = whole.unicode_len();
    if chars > budget {
        let head: &str = whole.substring_char(0, budget);
        assert(head@ =~= whole@.take(budget as int));
        Shown { text: head.to_owned(), chars, cut: true }
    } else {
        Shown { text: whole.to_owned(), chars, cut: false }
    }
}

/// A text cut to more characters begins with the same text cut to fewer, and both cuts say how
/// long it was. A cut holds as many characters as there is room for, or the whole text.
pub proof fn law_a_longer_cut_holds_a_shorter(
    whole: Seq<char>,
    a: Shown,
    small: usize,
    b: Shown,
    large: usize,
)
    requires
        a.describes(whole, small),
        b.describes(whole, large),
        small <= large,
    ensures
        a.chars == b.chars,
        a.text@.is_prefix_of(b.text@),
        a.text@.len() == if a.chars < small {
            a.chars
        } else {
            small
        },
        a.cut <==> a.chars > small,
{
    assert(a.text@ =~= b.text@.subrange(0, a.text@.len() as int));
}

/// `n` times the same text.
pub open spec fn repeated(t: Seq<char>, n: int) -> Seq<char>
    decreases n,
{
    if n <= 0 {
        Seq::empty()
    } else {
        repeated(t, n - 1) + t
    }
}

/// Appends `n` times the same text.
pub fn push_times(out: &mut String, t: &str, n: u64)
    ensures
        final(out)@ == old(out)@ + repeated(t@, n as int),
{
    let ghost start = out@;
    let mut i: u64 = 0;
    assert(out@ =~= start + repeated(t@, 0));
    while i < n
        invariant
            i <= n,
            out@ == start + repeated(t@, i as int),
        decreases n - i,
    {
        out.append(t);
        i += 1;
        assert(out@ =~= start + repeated(t@, i as int));
    }
}

/// A heading of a level.
pub open spec fn heading(level: int, text: Seq<char>) -> Seq<char> {
    repeated("#"@, level) + " "@ + text
}

/// Makes a heading of a level.
pub fn write_heading(level: u64, text: &str) -> (r: String)
    ensures
        r@ == heading(level as int, text@),
{
    let mut out: String = String::new();
    push_times(&mut out, "#", level);
    assert(out@ =~= repeated("#"@, level as int));
    out.append(" ");
    out.append(text);
    out
}

/// An item of a list that stands so deep.
pub open spec fn list_item(depth: int, ordered: bool, text: Seq<char>) -> Seq<char> {
    repeated("  "@, depth) + if ordered {
        "1. "@
    } else {
        "- "@
    } + text
}

/// Makes an item of a list.
pub fn write_item(depth: u64, ordered: bool, text: &str) -> (r: String)
    ensures
        r@ == list_item(depth as int, ordered, text@),
{
    let mut out: String = String::new();
    push_times(&mut out, "  ", depth);
    assert(out@ =~= repeated("  "@, depth as int));
    if ordered {
        out.append("1. ");
    } else {
        out.append("- ");
    }
    out.append(text);
    out
}

/// A plain paragraph. One that begins like something else gets a backslash before it.
pub open spec fn paragraph(text: Seq<char>) -> Seq<char> {
    if like_marker(text) {
        "\\"@ + text
    } else {
        text
    }
}

/// Makes a plain paragraph.
pub fn write_paragraph(text: &str) -> (r: String)
    ensures
        r@ == paragraph(text@),
{
    if starts_like_marker(text) {
        let mut out: String = "\\".to_owned();
        out.append(text);
        out
    } else {
        text.to_owned()
    }
}

/// No plain paragraph begins like a heading, a quotation or an item of a list.
pub proof fn law_paragraphs_are_no_markers(text: Seq<char>)
    ensures
        !like_marker(paragraph(text)),
{
    reveal_strlit("\\");
    assert("\\"@.len() == 1);
    if like_marker(text) {
        assert(paragraph(text)[0] == '\\');
    }
}

/// Each character is escaped by itself: a backslash stands before a backslash, a star, a line
/// below, a backtick and the two kinds of brackets, and inside a table before a bar.
pub proof fn law_what_is_escaped(s: Seq<char>, c: char, pipe: bool)
    ensures
        escaped(Seq::empty(), pipe).len() == 0,
        escaped(s.push(c), pipe) == escaped(s, pipe) + if "\\*_`[]<>"@.contains(c) || (pipe && c
            == '|') {
            seq!['\\', c]
        } else {
            seq![c]
        },
{
    let n = s.len() as int;
    lemma_escaped_part(s, s.push(c), pipe, n);
    reveal_strlit("\\*_`[]<>");
    let all = "\\*_`[]<>"@;
    assert(all[0] == '\\' && all[1] == '*' && all[2] == '_' && all[3] == '`' && all[4] == '['
        && all[5] == ']' && all[6] == '<' && all[7] == '>');
    assert(special(c, false) == all.contains(c));
    assert(escaped(s, pipe) + seq!['\\', c] =~= escaped(s, pipe).push('\\').push(c));
    assert(escaped(s, pipe) + seq![c] =~= escaped(s, pipe).push(c));
}

proof fn lemma_escaped_part(s: Seq<char>, t: Seq<char>, pipe: bool, n: int)
    requires
        n <= s.len(),
        n <= t.len(),
        forall|i: int| 0 <= i < n ==> s[i] == t[i],
    ensures
        escaped_upto(s, pipe, n) == escaped_upto(t, pipe, n),
    decreases n,
{
    if n > 0 {
        lemma_escaped_part(s, t, pipe, n - 1);
    }
}

/// A text without a character that means something is left as it is.
proof fn lemma_plain_is_kept(s: Seq<char>, pipe: bool, n: int)
    requires
        0 <= n <= s.len(),
        forall|i: int| 0 <= i < n ==> !special(#[trigger] s[i], pipe),
    ensures
        escaped_upto(s, pipe, n) == s.take(n),
    decreases n,
{
    if n > 0 {
        lemma_plain_is_kept(s, pipe, n - 1);
        assert(s.take(n) =~= s.take(n - 1).push(s[n - 1]));
    }
}

/// Each character is replaced by itself: only the one that is looked for is another text.
pub proof fn law_what_is_replaced(s: Seq<char>, c: char, what: char, by: Seq<char>)
    ensures
        replaced(Seq::empty(), what, by).len() == 0,
        c == what ==> replaced(s.push(c), what, by) == replaced(s, what, by) + by,
        c != what ==> replaced(s.push(c), what, by) == replaced(s, what, by).push(c),
{
    lemma_replaced_part(s, s.push(c), what, by, s.len() as int);
}

proof fn lemma_replaced_part(s: Seq<char>, t: Seq<char>, what: char, by: Seq<char>, n: int)
    requires
        n <= s.len(),
        n <= t.len(),
        forall|i: int| 0 <= i < n ==> s[i] == t[i],
    ensures
        replaced_upto(s, what, by, n) == replaced_upto(t, what, by, n),
    decreases n,
{
    if n > 0 {
        lemma_replaced_part(s, t, what, by, n - 1);
    }
}

proof fn lemma_nothing_to_replace(s: Seq<char>, what: char, by: Seq<char>, n: int)
    requires
        0 <= n <= s.len(),
        forall|i: int| 0 <= i < n ==> #[trigger] s[i] != what,
    ensures
        replaced_upto(s, what, by, n) == s.take(n),
    decreases n,
{
    if n > 0 {
        lemma_nothing_to_replace(s, what, by, n - 1);
        assert(s.take(n) =~= s.take(n - 1).push(s[n - 1]));
    }
}

/// A line begins like something else where it begins with a hash or an angle, with a dash or a
/// plus and a blank, or with digits and a dot or a bracket, and nowhere else.
pub proof fn law_what_begins_like_a_marker(s: Seq<char>, k: int)
    ensures
        s.len() == 0 ==> !like_marker(s),
        s.len() > 0 && (s[0] == '#' || s[0] == '>') ==> like_marker(s),
        s.len() > 0 && (s[0] == '-' || s[0] == '+') ==> (like_marker(s) <==> s.len() > 1 && s[1]
            == ' '),
        0 < k < s.len() && (forall|i: int| 0 <= i < k ==> '0' <= #[trigger] s[i] <= '9') && !('0'
            <= s[k] <= '9') ==> (like_marker(s) <==> s[k] == '.' || s[k] == ')'),
        (forall|i: int| 0 <= i < s.len() ==> '0' <= #[trigger] s[i] <= '9') ==> !like_marker(s),
        s.len() > 0 && !"#>-+0123456789"@.contains(s[0]) ==> !like_marker(s),
{
    reveal_strlit("#>-+0123456789");
    let all = "#>-+0123456789"@;
    assert(all[0] == '#' && all[1] == '>' && all[2] == '-' && all[3] == '+' && all[4] == '0'
        && all[5] == '1' && all[6] == '2' && all[7] == '3' && all[8] == '4' && all[9] == '5'
        && all[10] == '6' && all[11] == '7' && all[12] == '8' && all[13] == '9');
    lemma_past_digits(s, 0);
}

proof fn lemma_past_digits(s: Seq<char>, i: int)
    requires
        0 <= i <= s.len(),
    ensures
        i <= past_digits(s, i) <= s.len(),
        forall|j: int| i <= j < past_digits(s, i) ==> '0' <= #[trigger] s[j] <= '9',
        past_digits(s, i) < s.len() ==> !('0' <= s[past_digits(s, i)] <= '9'),
    decreases s.len() - i,
{
    if i < s.len() && '0' <= s[i] && s[i] <= '9' {
        lemma_past_digits(s, i + 1);
    }
}

/// A piece of words stands between the marks of its shape, three stars where it is bold and
/// slanted, two where it is bold and one where it is slanted, and a link is set round it. Blanks
/// alone are left out whatever their shape.
pub proof fn law_shapes_have_their_marks(text: Seq<char>, link: Option<Seq<char>>)
    requires
        forall|i: int| 0 <= i < text.len() ==> !special(#[trigger] text[i], false),
        forall|i: int| 0 <= i < text.len() ==> #[trigger] text[i] != '\u{0}',
        link matches Some(to) ==> forall|i: int| 0 <= i < to.len() ==> #[trigger] to[i] != '\u{0}',
    ensures
        trimmed(text).len() > 0 ==> {
            &&& shown(words(text, false, false, None), false) == text
            &&& shown(words(text, true, false, None), false) == "**"@ + text + "**"@
            &&& shown(words(text, false, true, None), false) == "*"@ + text + "*"@
            &&& shown(words(text, true, true, None), false) == "***"@ + text + "***"@
            &&& link matches Some(to) ==> shown(words(text, false, false, link), false) == "["@
                + text + "]("@ + to + ")"@
            &&& link matches Some(to) ==> shown(words(text, true, false, link), false) == "["@
                + ("**"@ + text + "**"@) + "]("@ + to + ")"@
        },
        trimmed(text).len() == 0 ==> forall|b: bool, i: bool| #[trigger]
            shown(words(text, b, i, link), false).len() == 0,
{
    lemma_plain_is_kept(text, false, text.len() as int);
    assert(text.take(text.len() as int) =~= text);
    reveal_strlit("*");
    reveal_strlit("**");
    reveal_strlit("***");
    reveal_strlit("[");
    reveal_strlit("](");
    reveal_strlit(")");
    assert forall|t: Seq<char>| (forall|i: int| 0 <= i < t.len() ==> #[trigger] t[i] != '\u{0}')
        implies #[trigger] replaced(t, HARD, "\\\n"@) == t by {
        lemma_nothing_to_replace(t, HARD, "\\\n"@, t.len() as int);
        assert(t.take(t.len() as int) =~= t);
    }
    assert(Seq::<char>::empty() + text + Seq::<char>::empty() =~= text);
}

/// A line break inside a paragraph is a backslash at the end of a line.
pub proof fn law_breaks_inside_a_paragraph(a: Seq<char>, b: Seq<char>)
    requires
        forall|i: int| 0 <= i < a.len() ==> !special(#[trigger] a[i], false) && a[i] != '\u{0}',
        forall|i: int| 0 <= i < b.len() ==> !special(#[trigger] b[i], false) && b[i] != '\u{0}',
    ensures
        shown(words(a.push('\u{0}') + b, false, false, None), false) == a + seq!['\\', '\n'] + b,
{
    let t = a.push('\u{0}') + b;
    lemma_plain_is_kept(t, false, t.len() as int);
    assert(t.take(t.len() as int) =~= t);
    assert(Seq::<char>::empty() + t + Seq::<char>::empty() =~= t);
    crate::words::law_trimmed_text_has_no_blanks_around_it(t);
    assert(t[a.len() as int] == '\u{0}');
    assert(trimmed(t).len() > 0);
    reveal_strlit("\\\n");
    assert("\\\n"@ =~= seq!['\\', '\n']);
    lemma_nothing_to_replace(a, HARD, "\\\n"@, a.len() as int);
    lemma_replaced_part(a, t, HARD, "\\\n"@, a.len() as int);
    assert(a.take(a.len() as int) =~= a);
    lemma_rest_is_kept(t, HARD, "\\\n"@, a.len() + 1int, t.len() as int);
    assert(t.subrange(a.len() + 1int, t.len() as int) =~= b);
}

proof fn lemma_rest_is_kept(s: Seq<char>, what: char, by: Seq<char>, from: int, n: int)
    requires
        0 <= from <= n <= s.len(),
        forall|i: int| from <= i < n ==> #[trigger] s[i] != what,
    ensures
        replaced_upto(s, what, by, n) == replaced_upto(s, what, by, from) + s.subrange(from, n),
    decreases n - from,
{
    if from < n {
        lemma_rest_is_kept(s, what, by, from, n - 1);
        assert(s.subrange(from, n) =~= s.subrange(from, n - 1).push(s[n - 1]));
    } else {
        assert(s.subrange(from, n).len() == 0);
    }
}

/// A picture is written with its description and its place, as they are.
pub proof fn law_a_picture_has_its_place(alt: Seq<char>, target: Seq<char>, pipe: bool)
    ensures
        shown(pictured(alt, target), pipe) == "!["@ + alt + "]("@ + target + ")"@,
        rendered(seq![pictured(alt, target)], pipe) == "!["@ + alt + "]("@ + target + ")"@,
{
    let s = seq![pictured(alt, target)];
    assert(s.drop_last() =~= Seq::empty());
    assert(merged(s.drop_last()) =~= Seq::empty());
    assert(merged(s) =~= seq![pictured(alt, target)]);
    assert(shown_all(merged(s), pipe, 0) =~= Seq::empty());
    assert(shown_all(merged(s), pipe, 1) =~= shown(pictured(alt, target), pipe));
}

proof fn lemma_last_shape(s: Seq<Piece>)
    requires
        s.len() > 0,
    ensures
        merged(s).len() > 0,
        (merged(s).last().image is Some) == (s.last().image is Some),
        s.last().image is None ==> merged(s).last().bold == s.last().bold && merged(
            s,
        ).last().italic == s.last().italic && merged(s).last().link == s.last().link,
{
}

proof fn lemma_shown_part(s: Seq<Piece>, t: Seq<Piece>, pipe: bool, n: int)
    requires
        n <= s.len(),
        n <= t.len(),
        forall|i: int| 0 <= i < n ==> s[i] == t[i],
    ensures
        shown_all(s, pipe, n) == shown_all(t, pipe, n),
    decreases n,
{
    if n > 0 {
        lemma_shown_part(s, t, pipe, n - 1);
    }
}

/// A piece of another shape than the one before it is written behind what stood there, and so is
/// every picture.
pub proof fn law_other_shapes_stand_apart(s: Seq<Piece>, p: Piece, pipe: bool)
    requires
        s.len() > 0 ==> {
            ||| p.image is Some
            ||| s.last().image is Some
            ||| p.bold != s.last().bold
            ||| p.italic != s.last().italic
            ||| p.link != s.last().link
        },
    ensures
        rendered(s.push(p), pipe) == rendered(s, pipe) + shown(p, pipe),
{
    assert(s.push(p).drop_last() =~= s);
    let m = merged(s);
    if s.len() > 0 {
        lemma_last_shape(s);
    }
    let all = merged(s.push(p));
    assert(all.len() == m.len() + 1);
    lemma_shown_part(m, all, pipe, m.len() as int);
}

/// A table is one line for each row and a line of dashes behind the first. Each line holds the
/// cells of its row and then empty ones, all lines as many as the widest row has.
pub proof fn law_a_table_is_its_lines(rows: Seq<Seq<Seq<char>>>, cells: Seq<Seq<Seq<char>>>, w: nat)
    requires
        rows.len() > 0,
        forall|i: int| 0 <= i < rows.len() ==> (#[trigger] rows[i]).len() <= w,
        exists|i: int| 0 <= i < rows.len() && (#[trigger] rows[i]).len() == w,
        cells.len() == rows.len() + 1,
        forall|i: int| 0 <= i < cells.len() ==> (#[trigger] cells[i]).len() == w,
        forall|j: int| 0 <= j < w ==> #[trigger] cells[1][j] == "---"@,
        forall|j: int|
            0 <= j < w ==> cells[0][j] == if j < rows[0].len() {
                #[trigger] rows[0][j]
            } else {
                Seq::empty()
            },
        forall|i: int, j: int|
            0 < i < rows.len() && 0 <= j < w ==> cells[i + 1][j] == if j < rows[i].len() {
                #[trigger] rows[i][j]
            } else {
                Seq::empty()
            },
    ensures
        table_text(rows) == strung(
            Seq::new(cells.len(), |k: int| "| "@ + strung(cells[k], " | "@) + " |"@),
            "\n"@,
        ),
        table_text(Seq::empty()).len() == 0,
{
    let n = rows.len() as int;
    let lines = Seq::new(cells.len(), |k: int| "| "@ + strung(cells[k], " | "@) + " |"@);
    lemma_widest_is(rows, n, w);
    assert(widest(rows, n) == w);
    assert forall|i: int| 0 < i < n implies #[trigger] filled(rows[i], w) == cells[i + 1] by {
        assert forall|j: int| 0 <= j < w implies #[trigger] filled(rows[i], w)[j] == cells[i
            + 1][j] by {
            let c = rows[i][j];
        }
        assert(filled(rows[i], w) =~= cells[i + 1]);
    }
    assert(filled(rows[0], w) =~= cells[0]) by {
        assert forall|j: int| 0 <= j < w implies #[trigger] filled(rows[0], w)[j]
            == cells[0][j] by {
            let c = rows[0][j];
        }
    }
    assert(Seq::new(w, |i: int| "---"@) =~= cells[1]);
    lemma_lines(rows, w, lines, n);
    assert(lines.take(n + 1) =~= lines);
}

proof fn lemma_widest_is(rows: Seq<Seq<Seq<char>>>, n: int, w: nat)
    requires
        0 < n <= rows.len(),
        forall|i: int| 0 <= i < n ==> (#[trigger] rows[i]).len() <= w,
    ensures
        widest(rows, n) <= w,
        (exists|i: int| 0 <= i < n && (#[trigger] rows[i]).len() == w) ==> widest(rows, n) == w,
    decreases n,
{
    if n > 1 {
        lemma_widest_is(rows, n - 1, w);
    } else {
        assert(widest(rows, 0) == 0);
    }
}

proof fn lemma_lines(rows: Seq<Seq<Seq<char>>>, w: nat, lines: Seq<Seq<char>>, n: int)
    requires
        1 <= n <= rows.len(),
        lines.len() == rows.len() + 1,
        lines[0] == row_line(filled(rows[0], w)),
        lines[1] == row_line(Seq::new(w, |i: int| "---"@)),
        forall|i: int| 0 < i < rows.len() ==> lines[i + 1] == row_line(#[trigger] filled(rows[i], w)),
    ensures
        strung(lines.take(n + 1), "\n"@) == row_line(filled(rows[0], w)) + "\n"@ + row_line(
            Seq::new(w, |i: int| "---"@),
        ) + more_rows(rows, w, n),
    decreases n,
{
    let t = lines.take(n + 1);
    assert(t.drop_last() =~= lines.take(n));
    if n > 1 {
        lemma_lines(rows, w, lines, n - 1);
        assert(filled(rows[n - 1], w) == filled(rows[n - 1], w));
        let head = row_line(filled(rows[0], w)) + "\n"@ + row_line(Seq::new(w, |i: int| "---"@));
        assert(t.last() == row_line(filled(rows[n - 1], w)));
        assert(head + more_rows(rows, w, n - 1) + "\n"@ + t.last() =~= head + more_rows(rows, w, n));
    } else {
        assert(lines.take(1).len() == 1);
        assert(strung(lines.take(1), "\n"@) == lines[0]);
        assert(more_rows(rows, w, 1) =~= Seq::empty());
        let head = row_line(filled(rows[0], w)) + "\n"@ + row_line(Seq::new(w, |i: int| "---"@));
        assert(head + Seq::<char>::empty() =~= head);
    }
}

/// The next block stands on the next line where both it and the one before it are items of a
/// list, and behind an empty line otherwise; the text ends with the end of a line.
pub proof fn law_how_blocks_are_set_apart(s: Seq<Chunk>, c: Chunk)
    ensures
        whole_text(Seq::empty()).len() == 0,
        s.len() == 0 ==> whole_text(s.push(c)) == c.text.push('\n'),
        s.len() > 0 && s.last().item && c.item ==> whole_text(s.push(c)) == whole_text(s) + c.text
            + seq!['\n'],
        s.len() > 0 && !(s.last().item && c.item) ==> whole_text(s.push(c)) == whole_text(s)
            + seq!['\n'] + c.text + seq!['\n'],
{
    reveal_strlit("\n");
    reveal_strlit("\n\n");
    assert("\n"@ =~= seq!['\n']);
    assert("\n\n"@ =~= seq!['\n', '\n']);
    let n = s.len() as int;
    lemma_set_part(s, s.push(c), n);
    assert(c.text + "\n"@ =~= c.text.push('\n'));
    let all = set_upto(s, n);
    assert(all + "\n"@ + c.text + "\n"@ =~= (all + "\n"@) + c.text + seq!['\n']);
    assert(all + "\n\n"@ + c.text + "\n"@ =~= (all + "\n"@) + seq!['\n'] + c.text + seq!['\n']);
}

proof fn lemma_set_part(s: Seq<Chunk>, t: Seq<Chunk>, n: int)
    requires
        n <= s.len(),
        n <= t.len(),
        forall|i: int| 0 <= i < n ==> s[i] == t[i],
    ensures
        set_upto(s, n) == set_upto(t, n),
    decreases n,
{
    if n > 0 {
        lemma_set_part(s, t, n - 1);
    }
}

/// A heading is as many hashes as its level, a blank and its text; an item is two blanks for each
/// list around its own, its mark and its text.
pub proof fn law_headings_and_items(level: nat, ordered: bool, text: Seq<char>)
    ensures
        heading(level as int, text) == Seq::new(level, |i: int| '#') + seq![' '] + text,
        list_item(level as int, ordered, text) == Seq::new(2 * level, |i: int| ' ') + (if ordered {
            seq!['1', '.', ' ']
        } else {
            seq!['-', ' ']
        }) + text,
{
    reveal_strlit("#");
    reveal_strlit(" ");
    reveal_strlit("  ");
    reveal_strlit("1. ");
    reveal_strlit("- ");
    lemma_repeated(level);
    assert(" "@ =~= seq![' ']);
    assert("1. "@ =~= seq!['1', '.', ' ']);
    assert("- "@ =~= seq!['-', ' ']);
}

proof fn lemma_repeated(n: nat)
    ensures
        repeated("#"@, n as int) == Seq::new(n, |i: int| '#'),
        repeated("  "@, n as int) == Seq::new(2 * n, |i: int| ' '),
    decreases n,
{
    reveal_strlit("#");
    reveal_strlit("  ");
    if n > 0 {
        lemma_repeated((n - 1) as nat);
        assert(repeated("#"@, n as int) =~= Seq::new(n, |i: int| '#'));
        assert(repeated("  "@, n as int) =~= Seq::new(2 * n, |i: int| ' '));
    } else {
        assert(repeated("#"@, 0) =~= Seq::new(0, |i: int| '#'));
        assert(repeated("  "@, 0) =~= Seq::new(0, |i: int| ' '));
    }
}

/// A line in a cell has no blanks around it and a mark for each end of a line in it.
pub proof fn law_a_line_in_a_cell(a: Seq<char>, b: Seq<char>)
    requires
        a.len() > 0,
        b.len() > 0,
        forall|i: int| 0 <= i < a.len() ==> #[trigger] a[i] != '\n',
        forall|i: int| 0 <= i < b.len() ==> #[trigger] b[i] != '\n',
        trimmed(a) == a,
        trimmed(b) == b,
    ensures
        flat(a) == a,
        flat(a.push('\n') + b) == a + "<br>"@ + b,
        flat(seq![' '] + a) == a,
{
    lemma_nothing_to_replace(a, '\n', "<br>"@, a.len() as int);
    assert(a.take(a.len() as int) =~= a);
    let t = a.push('\n') + b;
    crate::words::law_trimmed_text_has_no_blanks_around_it(a);
    crate::words::law_trimmed_text_has_no_blanks_around_it(b);
    crate::words::law_trimmed_text_has_no_blanks_around_it(t);
    assert(t[0] == a[0]);
    assert(t.last() == b.last());
    assert(trimmed(t) == t);
    lemma_replaced_part(a, t, '\n', "<br>"@, a.len() as int);
    lemma_rest_is_kept(t, '\n', "<br>"@, a.len() + 1int, t.len() as int);
    assert(t.subrange(a.len() + 1int, t.len() as int) =~= b);
    crate::words::law_blanks_around_a_text_come_off(seq![' '], a, Seq::empty());
    assert(seq![' '] + a + Seq::<char>::empty() =~= seq![' '] + a);
}

} // verus!
