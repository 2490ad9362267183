//! Tables of contents, and what the program that wrote a file counted itself.
//!
//! A document has a table of contents where a gallery part says so or where a field does. How
//! many levels it gathers stands in the text of the field.

use crate::lists::{first, first_from, lemma_filter_take};
use crate::numfmt::{find_char, lower, seek, small, stands, stands_at};
use crate::text::{chars_of, text_of, texts};
use crate::words::{parse_signed, signed_value, trim, trimmed};
use crate::written::{
    ask_some, each_text, find_below, first_below, lists, read_each, some_say, text_in,
};
use crate::xml::{nodes, Node};
use vstd::prelude::*;

verus! {

broadcast use {crate::text::lemma_texts_push, crate::xml::lemma_nodes_push};

/// Where `w` first stands in `s` from `from` on.
pub open spec fn found_at(s: Seq<char>, w: Seq<char>, from: int) -> Option<int>
    decreases s.len() + 1 - from,
{
    if from < 0 || from + w.len() > s.len() {
        None
    } else if stands_at(s, w, from) {
        Some(from)
    } else {
        found_at(s, w, from + 1)
    }
}

/// What stands between the next two quotation marks behind the first `switch` in `s`.
pub open spec fn quoted_behind(s: Seq<char>, switch: Seq<char>) -> Option<Seq<char>> {
    match found_at(s, switch, 0) {
        Some(at) => {
            let open = seek(s, '"', at + switch.len());
            let close = seek(s, '"', open + 1);
            if open < s.len() && close < s.len() {
                Some(s.subrange(open + 1, close))
            } else {
                None
            }
        },
        None => None,
    }
}

/// What stands between the next two quotation marks behind the first `switch` of a field.
pub fn switch_value(instruct: &str, switch: &str) -> (r: Option<String>)
    ensures
        text_in(r) == quoted_behind(instruct@, switch@),
{
    let s: Vec<char> = chars_of(instruct);
    let w: Vec<char> = chars_of(switch);
    let size: usize = s.len();
    let long: usize = w.len();
    let mut at: usize = 0;
    while long <= size && at <= size - long
        invariant
            size == s@.len(),
            long == w@.len(),
            s@ == instruct@,
            w@ == switch@,
            at <= size,
            found_at(s@, w@, 0) == found_at(s@, w@, at as int),
        decreases size + 1 - at,
    {
        if stands(&s, &w, at) {
            let open: usize = find_char(&s, '"', at + long);
            if open >= size {
                return None;
            }
            let close: usize = find_char(&s, '"', open + 1);
            if close >= size {
                return None;
            }
            let inner: String = text_of(vstd::slice::slice_subrange(s.as_slice(), open + 1, close));
            assert(inner@ =~= s@.subrange(open + 1, close as int));
            return Some(inner);
        }
        assert(long > 0) by {
            if long == 0 {
                assert(s@.subrange(at as int, at as int) =~= w@);
            }
        }
        at += 1;
    }
    None
}

/// A field that builds a table of contents.
pub open spec fn is_toc(s: Seq<char>) -> bool {
    s.len() >= 3 && small(s[0]) == 't' && small(s[1]) == 'o' && small(s[2]) == 'c'
}

fn builds_toc(s: &str) -> (r: bool)
    ensures
        r == is_toc(s@),
{
    let c: Vec<char> = chars_of(s);
    c.len() >= 3 && lower(c[0]) == 't' && lower(c[1]) == 'o' && lower(c[2]) == 'c'
}

/// Texts without the blanks round them.
pub open spec fn each_trimmed(s: Seq<Seq<char>>) -> Seq<Seq<char>> {
    Seq::new(s.len(), |i: int| trimmed(s[i]))
}

/// The fields of a document: those that run over several runs, then the simple ones.
pub open spec fn fields_in(root: Node) -> Seq<Seq<char>> {
    let simple = root.below("fldSimple"@);
    each_trimmed(each_text(root.below("instrText"@))) + each_trimmed(
        some_say(simple, "instr"@, simple.len() as int),
    )
}

/// The fields that build tables of contents.
pub open spec fn tocs(s: Seq<Seq<char>>) -> Seq<Seq<char>> {
    s.filter(|t: Seq<char>| is_toc(t))
}

/// The levels that the first field with such a switch tells.
pub open spec fn levels_in(s: Seq<Seq<char>>) -> Option<Seq<char>> {
    match first(s, |t: Seq<char>| quoted_behind(t, "\\o "@) is Some) {
        Some(i) => quoted_behind(s[i], "\\o "@),
        None => None,
    }
}

fn trim_each(v: &Vec<String>, out: &mut Vec<String>)
    ensures
        texts(final(out)@) == texts(old(out)@) + each_trimmed(texts(v@)),
{
    let ghost start = texts(out@);
    let mut i: usize = 0;
    assert(start + each_trimmed(texts(v@)).take(0) =~= start);
    while i < v.len()
        invariant
            i <= v@.len(),
            texts(out@) == start + each_trimmed(texts(v@)).take(i as int),
        decreases v@.len() - i,
    {
        out.push(trim(v[i].as_str()).to_owned());
        i += 1;
        assert(texts(out@) =~= start + each_trimmed(texts(v@)).take(i as int));
    }
    assert(each_trimmed(texts(v@)).take(i as int) =~= each_trimmed(texts(v@)));
}

fn pick_tocs(v: &Vec<String>) -> (r: Vec<String>)
    ensures
        texts(r@) == tocs(texts(v@)),
{
    let ghost s = texts(v@);
    let ghost p = |t: Seq<char>| is_toc(t);
    let mut out: Vec<String> = Vec::new();
    let mut i: usize = 0;
    assert(texts(out@) =~= s.take(0).filter(p)) by {
        reveal(Seq::filter);
    }
    while i < v.len()
        invariant
            i <= v@.len(),
            s == texts(v@),
            p == (|t: Seq<char>| is_toc(t)),
            texts(out@) == s.take(i as int).filter(p),
        decreases v@.len() - i,
    {
        proof {
            lemma_filter_take(s, p, i as int);
        }
        if builds_toc(v[i].as_str()) {
            out.push(v[i].clone());
        }
        i += 1;
    }
    assert(s.take(i as int) =~= s);
    out
}

fn find_levels(v: &Vec<String>) -> (r: Option<String>)
    ensures
        text_in(r) == levels_in(texts(v@)),
{
    let ghost s = texts(v@);
    let ghost p = |t: Seq<char>| quoted_behind(t, "\\o "@) is Some;
    let mut i: usize = 0;
    while i < v.len()
        invariant
            i <= v@.len(),
            s == texts(v@),
            p == (|t: Seq<char>| quoted_behind(t, "\\o "@) is Some),
            first(s, p) == first_from(s, p, i as int),
        decreases v@.len() - i,
    {
        let got: Option<String> = switch_value(v[i].as_str(), "\\o ");
        if got.is_some() {
            return got;
        }
        i += 1;
    }
    None
}

/// How a document comes by its table of contents.
#[derive(Debug, Clone, Copy, PartialEq, Eq, Structural)]
pub enum Via {
    Gallery,
    Field,
}

impl Via {
    pub open spec fn name(self) -> Seq<char> {
        match self {
            Via::Gallery => "doc-part-gallery"@,
            Via::Field => "field"@,
        }
    }

    /// The word for it.
    pub fn as_str(self) -> (r: &'static str)
        ensures
            r@ == self.name(),
    {
        match self {
            Via::Gallery => "doc-part-gallery",
            Via::Field => "field",
        }
    }
}

/// The table of contents of a document. Where `via` is nothing there is none.
#[derive(Debug, Clone)]
pub struct Contents {
    pub via: Option<Via>,
    pub galleries: Vec<String>,
    pub fields: Vec<String>,
    pub levels: Option<String>,
    pub sdt: usize,
}

/// The gallery parts of a document.
pub open spec fn galleries_in(root: Node) -> Seq<Seq<char>> {
    let all = root.below("docPartGallery"@);
    some_say(all, "val"@, all.len() as int)
}

impl Contents {
    pub open spec fn describes(self, root: Node) -> bool {
        let g = galleries_in(root);
        let f = tocs(fields_in(root));
        &&& texts(self.galleries@) == g
        &&& texts(self.fields@) == f
        &&& self.via == if g.contains("Table of Contents"@) {
            Some(Via::Gallery)
        } else if f.len() > 0 {
            Some(Via::Field)
        } else {
            None
        }
        &&& text_in(self.levels) == levels_in(f)
        &&& self.sdt == root.below("sdt"@).len()
    }
}

/// The table of contents of a document.
pub fn docx_contents(root: &Node) -> (r: Contents)
    ensures
        r.describes(*root),
{
    let parts: Vec<&Node> = root.descendants("docPartGallery");
    assert(nodes(parts@).len() == parts@.len());
    let galleries: Vec<String> = ask_some(&parts, "val");
    let long: Vec<&Node> = root.descendants("instrText");
    let simple: Vec<&Node> = root.descendants("fldSimple");
    assert(nodes(simple@).len() == simple@.len());
    let mut all: Vec<String> = Vec::new();
    trim_each(&read_each(&long), &mut all);
    trim_each(&ask_some(&simple, "instr"), &mut all);
    assert(texts(all@) =~= fields_in(*root));
    let fields: Vec<String> = pick_tocs(&all);
    assert(texts(fields@).len() == fields@.len());
    let via: Option<Via> = if lists(&galleries, "Table of Contents") {
        Some(Via::Gallery)
    } else if fields.len() > 0 {
        Some(Via::Field)
    } else {
        None
    };
    let levels: Option<String> = find_levels(&fields);
    let sdt: Vec<&Node> = root.descendants("sdt");
    assert(nodes(sdt@).len() == sdt@.len());
    Contents { via, galleries, fields, levels, sdt: sdt.len() }
}

/// The table of contents of a stream that knows fields only.
#[derive(Debug, Clone)]
pub struct FieldContents {
    pub fields: Vec<String>,
    pub levels: Option<String>,
}

/// The table of contents among the fields of a stream. There is one where a field builds it.
pub fn rtf_contents(instructions: &Vec<String>) -> (r: FieldContents)
    ensures
        texts(r.fields@) == tocs(texts(instructions@)),
        text_in(r.levels) == levels_in(tocs(texts(instructions@))),
{
    let fields: Vec<String> = pick_tocs(instructions);
    let levels: Option<String> = find_levels(&fields);
    FieldContents { fields, levels }
}

/// A value that a program wrote: a number where it reads as one.
#[derive(Debug, Clone)]
pub enum Told {
    Number(i64),
    Text(String),
}

impl Told {
    pub open spec fn describes(self, raw: Seq<char>) -> bool {
        match self {
            Told::Number(n) => signed_value(raw) == Some(n as int),
            Told::Text(t) => signed_value(raw) is None && t@ == raw,
        }
    }
}

/// What the first element called `want` says, without the blanks round it.
pub open spec fn told_by(root: Node, want: Seq<char>) -> Option<Seq<char>> {
    match first_below(root, want) {
        Some(n) => Some(trimmed(n.full_text())),
        None => None,
    }
}

pub open spec fn is_told(t: Option<Told>, raw: Option<Seq<char>>) -> bool {
    match raw {
        Some(r) => t matches Some(v) && v.describes(r),
        None => t is None,
    }
}

/// What the program that wrote a file counted. It is not what the file holds: many programs
/// write noughts.
#[derive(Debug, Clone)]
pub struct OwnCounts {
    pub words: Option<Told>,
    pub characters: Option<Told>,
    pub paragraphs: Option<Told>,
    pub lines: Option<Told>,
    pub pages: Option<Told>,
}

impl OwnCounts {
    pub open spec fn describes(self, root: Node) -> bool {
        &&& is_told(self.words, told_by(root, "Words"@))
        &&& is_told(self.characters, told_by(root, "Characters"@))
        &&& is_told(self.paragraphs, told_by(root, "Paragraphs"@))
        &&& is_told(self.lines, told_by(root, "Lines"@))
        &&& is_told(self.pages, told_by(root, "Pages"@))
    }
}

fn tell(root: &Node, want: &str) -> (r: Option<Told>)
    ensures
        is_told(r, told_by(*root, want@)),
{
    match find_below(root, want) {
        Some(n) => {
            let text: String = n.text();
            let raw: &str = trim(text.as_str());
            match parse_signed(raw) {
                Some(v) => Some(Told::Number(v)),
                None => Some(Told::Text(raw.to_owned())),
            }
        },
        None => None,
    }
}

/// What the program that wrote a file counted; nothing where it counted nothing.
pub fn producer_counts(root: &Node) -> (r: Option<OwnCounts>)
    ensures
        match r {
            Some(c) => c.describes(*root),
            None => told_by(*root, "Words"@) is None && told_by(*root, "Characters"@) is None
                && told_by(*root, "Paragraphs"@) is None && told_by(*root, "Lines"@) is None
                && told_by(*root, "Pages"@) is None,
        },
        r matches Some(c) ==> c.words is Some || c.characters is Some || c.paragraphs is Some
            || c.lines is Some || c.pages is Some,
{
    let c: OwnCounts = OwnCounts {
        words: tell(root, "Words"),
        characters: tell(root, "Characters"),
        paragraphs: tell(root, "Paragraphs"),
        lines: tell(root, "Lines"),
        pages: tell(root, "Pages"),
    };
    if c.words.is_some() || c.characters.is_some() || c.paragraphs.is_some() || c.lines.is_some()
        || c.pages.is_some() {
        Some(c)
    } else {
        None
    }
}

/// What stands behind a switch is what stands between the next two quotation marks, of the first
/// such switch.
pub proof fn law_what_stands_behind_a_switch(a: Seq<char>, gap: Seq<char>, v: Seq<char>, z: Seq<char>)
    requires
        forall|i: int| 0 <= i < a.len() ==> #[trigger] a[i] != '\\',
        forall|i: int| 0 <= i < gap.len() ==> #[trigger] gap[i] != '"',
        forall|i: int| 0 <= i < v.len() ==> #[trigger] v[i] != '"',
    ensures
        quoted_behind(
            a + "\\o "@ + gap + seq!['"'] + v + seq!['"'] + z,
            "\\o "@,
        ) == Some(v),
{
    reveal_strlit("\\o ");
    let w = "\\o "@;
    let s = a + w + gap + seq!['"'] + v + seq!['"'] + z;
    let at = a.len() as int;
    assert forall|j: int| 0 <= j < at implies !#[trigger] stands_at(s, w, j) by {
        assert(s[j] == a[j]);
        if stands_at(s, w, j) {
            assert(s.subrange(j, j + 3)[0] == s[j]);
            assert(w[0] == '\\');
        }
    }
    assert(s.subrange(at, at + 3) =~= w);
    assert(stands_at(s, w, at));
    lemma_found(s, w, 0, at);
    let open = at + 3 + gap.len();
    assert forall|i: int| at + 3 <= i < open implies #[trigger] s[i] != '"' by {
        assert(s[i] == gap[i - at - 3]);
    }
    assert(s[open] == '"');
    lemma_sought(s, '"', at + 3, open);
    let close = open + 1 + v.len();
    assert forall|i: int| open + 1 <= i < close implies #[trigger] s[i] != '"' by {
        assert(s[i] == v[i - open - 1]);
    }
    assert(s[close] == '"');
    lemma_sought(s, '"', open + 1, close);
    assert(s.subrange(open + 1, close) =~= v);
}

proof fn lemma_found(s: Seq<char>, w: Seq<char>, from: int, at: int)
    requires
        0 <= from <= at,
        at + w.len() <= s.len(),
        stands_at(s, w, at),
        forall|j: int| from <= j < at ==> !#[trigger] stands_at(s, w, j),
    ensures
        found_at(s, w, from) == Some(at),
    decreases at - from,
{
    if from < at {
        lemma_found(s, w, from + 1, at);
    }
}

proof fn lemma_sought(s: Seq<char>, c: char, from: int, at: int)
    requires
        0 <= from <= at < s.len(),
        s[at] == c,
        forall|j: int| from <= j < at ==> #[trigger] s[j] != c,
    ensures
        seek(s, c, from) == at,
    decreases at - from,
{
    if from < at {
        lemma_sought(s, c, from + 1, at);
    }
}

/// A field builds a table of contents where it begins with the three letters for one, large or
/// small.
pub proof fn law_which_fields_build_contents(s: Seq<char>)
    ensures
        is_toc(s) <==> s.len() >= 3 && (s[0] == 'T' || s[0] == 't') && (s[1] == 'O' || s[1] == 'o')
            && (s[2] == 'C' || s[2] == 'c'),
{
}

/// Where the table of contents of a document comes from: a gallery part of that name before a
/// field. The levels are those that the first field with such a switch tells.
pub proof fn law_where_contents_come_from(r: Contents, root: Node, f: Seq<Seq<char>>, i: int)
    requires
        r.describes(root),
        f == tocs(fields_in(root)),
    ensures
        galleries_in(root).contains("Table of Contents"@) ==> r.via == Some(Via::Gallery),
        !galleries_in(root).contains("Table of Contents"@) && f.len() > 0 ==> r.via == Some(
            Via::Field,
        ),
        !galleries_in(root).contains("Table of Contents"@) && f.len() == 0 ==> r.via is None,
        texts(r.galleries@) == some_say(
            root.below("docPartGallery"@),
            "val"@,
            root.below("docPartGallery"@).len() as int,
        ),
        texts(r.fields@) == f,
        0 <= i < f.len() && quoted_behind(f[i], "\\o "@) is Some && (forall|k: int|
            0 <= k < i ==> quoted_behind(#[trigger] f[k], "\\o "@) is None) ==> text_in(r.levels)
            == quoted_behind(f[i], "\\o "@),
        (forall|k: int| 0 <= k < f.len() ==> quoted_behind(#[trigger] f[k], "\\o "@) is None)
            ==> r.levels is None,
        r.sdt == root.below("sdt"@).len(),
        Via::Gallery.name() == "doc-part-gallery"@,
        Via::Field.name() == "field"@,
{
    let p = |t: Seq<char>| quoted_behind(t, "\\o "@) is Some;
    crate::lists::lemma_first_from(f, p, 0);
    match first(f, p) {
        Some(j) => {
            assert(p(f[j]));
            if 0 <= i < f.len() && j > i {
                assert(!p(f[i]));
            }
        },
        None => {
            if 0 <= i < f.len() {
                assert(!p(f[i]));
            }
        },
    }
}

/// The fields of a document are the texts of its field instructions and then what its simple
/// fields say, without the blanks round them; those of contents are those among them that build
/// one.
pub proof fn law_which_fields_there_are(root: Node, t: Seq<char>, i: int)
    ensures
        0 <= i < root.below("instrText"@).len() ==> fields_in(root)[i] == trimmed(
            root.below("instrText"@)[i].full_text(),
        ),
        fields_in(root).len() == root.below("instrText"@).len() + some_say(
            root.below("fldSimple"@),
            "instr"@,
            root.below("fldSimple"@).len() as int,
        ).len(),
        0 <= i < some_say(
            root.below("fldSimple"@),
            "instr"@,
            root.below("fldSimple"@).len() as int,
        ).len() ==> fields_in(root)[root.below("instrText"@).len() + i] == trimmed(
            some_say(
                root.below("fldSimple"@),
                "instr"@,
                root.below("fldSimple"@).len() as int,
            )[i],
        ),
        tocs(fields_in(root)).contains(t) <==> fields_in(root).contains(t) && is_toc(t),
{
    let f = fields_in(root);
    let p = |t: Seq<char>| is_toc(t);
    if tocs(f).contains(t) {
        let k = choose|k: int| 0 <= k < tocs(f).len() && tocs(f)[k] == t;
        f.lemma_filter_pred(p, k);
        f.lemma_filter_contains_rev(p, t);
    }
    if f.contains(t) && is_toc(t) {
        let k = choose|k: int| 0 <= k < f.len() && f[k] == t;
        assert(p(f[k]));
        f.lemma_filter_contains(p, k);
    }
}

/// What a program counted is what its own elements say: a number where it reads as one, and the
/// text as it is otherwise.
pub proof fn law_what_a_program_counted(c: OwnCounts, root: Node)
    requires
        c.describes(root),
    ensures
        is_told(c.words, told_by(root, "Words"@)),
        is_told(c.characters, told_by(root, "Characters"@)),
        is_told(c.paragraphs, told_by(root, "Paragraphs"@)),
        is_told(c.lines, told_by(root, "Lines"@)),
        is_told(c.pages, told_by(root, "Pages"@)),
        root.below("Words"@).len() == 0 ==> c.words is None,
        root.below("Words"@).len() > 0 ==> match signed_value(
            trimmed(root.below("Words"@)[0].full_text()),
        ) {
            Some(n) => c.words matches Some(Told::Number(v)) && v == n,
            None => c.words matches Some(Told::Text(t)) && t@ == trimmed(
                root.below("Words"@)[0].full_text(),
            ),
        },
{
}

} // verus!
