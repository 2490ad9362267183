//! What is asked of every word processor document, whichever program wrote it.

use crate::lists::{at_most, count_those, cut, each, ints, one_if, pick_those, tally, those};
use crate::text::{same, texts};
use crate::words::{solid_count, word_count, Tally};
use crate::written::{copied, lists, option_texts, says, text_in};
use crate::xml::{nodes, within, Node};
use vstd::prelude::*;

verus! {

broadcast use crate::text::lemma_texts_push;

/// How a file is packed.
#[derive(Debug, Clone, Copy, PartialEq, Eq, Structural)]
pub enum Family {
    Ooxml,
    Odf,
    Rtf,
    Compound,
    Zip,
    Other,
}

/// How a word processor document is read.
#[derive(Debug, Clone, Copy, PartialEq, Eq, Structural)]
pub enum Branch {
    Docx,
    Odt,
    Rtf,
    Doc,
}

impl Branch {
    pub open spec fn kind_text(self) -> Seq<char> {
        match self {
            Branch::Docx => "wordprocessingml"@,
            Branch::Odt => "opendocument-text"@,
            Branch::Rtf => "rtf"@,
            Branch::Doc => "word-binary"@,
        }
    }

    /// The word for it.
    pub fn kind(self) -> (r: &'static str)
        ensures
            r@ == self.kind_text(),
    {
        match self {
            Branch::Docx => "wordprocessingml",
            Branch::Odt => "opendocument-text",
            Branch::Rtf => "rtf",
            Branch::Doc => "word-binary",
        }
    }
}

/// How a file of that family and that application is read; nothing for one that is no word
/// processor document.
pub open spec fn branch_for(family: Family, app: Seq<char>) -> Option<Branch> {
    match family {
        Family::Rtf => Some(Branch::Rtf),
        Family::Ooxml => if app == "word"@ {
            Some(Branch::Docx)
        } else {
            None
        },
        Family::Odf => if app == "word"@ {
            Some(Branch::Odt)
        } else {
            None
        },
        Family::Compound => if app == "word"@ {
            Some(Branch::Doc)
        } else {
            None
        },
        Family::Zip | Family::Other => None,
    }
}

/// How a file of that family and that application is read.
pub fn branch(family: Family, app: &str) -> (r: Option<Branch>)
    ensures
        r == branch_for(family, app@),
{
    let word: bool = same(app, "word");
    match family {
        Family::Rtf => Some(Branch::Rtf),
        Family::Ooxml => if word {
            Some(Branch::Docx)
        } else {
            None
        },
        Family::Odf => if word {
            Some(Branch::Odt)
        } else {
            None
        },
        Family::Compound => if word {
            Some(Branch::Doc)
        } else {
            None
        },
        Family::Zip | Family::Other => None,
    }
}

/// Why a file that is no word processor document is turned down.
pub fn refusal(path: &str, app: &str, format: &str) -> (r: String)
    ensures
        r@ == path@ + " 不是 Word 文档（识别为 "@ + app@ + " / "@ + format@
            + "）；表格用 office-sheet，演示文稿用 office-slide"@,
{
    let mut out: String = path.to_owned();
    out.append(" 不是 Word 文档（识别为 ");
    out.append(app);
    out.append(" / ");
    out.append(format);
    out.append("）；表格用 office-sheet，演示文稿用 office-slide");
    out
}

/// A list of remarks and one more.
pub fn concat_notes(mine: &Vec<String>, extra: &str) -> (r: Vec<String>)
    ensures
        texts(r@) == texts(mine@).push(extra@),
{
    let mut out: Vec<String> = Vec::new();
    let mut i: usize = 0;
    while i < mine.len()
        invariant
            i <= mine@.len(),
            texts(out@) == texts(mine@).take(i as int),
        decreases mine@.len() - i,
    {
        out.push(mine[i].clone());
        i += 1;
        assert(texts(out@) =~= texts(mine@).take(i as int));
    }
    assert(texts(out@) =~= texts(mine@));
    out.push(extra.to_owned());
    out
}

/// What is said of every binary document: what is told of it, what is not, and why.
pub const DOC_REMARK: &'static str = "遗留 .doc 的段落样式、表格与图形在表流的其它记录里，\
    本版本只数正文里的结构标记；修订那份账（谁、什么时候）也住在表流里，这里读不出，\
    宁可给 null";

/// What is said of a binary document: what its reader said, and what is said of every one.
pub fn doc_notes(own: &Vec<String>) -> (r: Vec<String>)
    ensures
        texts(r@) == texts(own@).push(DOC_REMARK@),
{
    concat_notes(own, DOC_REMARK)
}

/// A remark as a list: none or one.
pub open spec fn remark(t: Option<Seq<char>>) -> Seq<Seq<char>> {
    match t {
        Some(s) => seq![s],
        None => Seq::empty(),
    }
}

/// A paragraph as the reader of texts gives it.
#[derive(Debug, Clone)]
pub struct Para {
    pub text: String,
    pub style: Option<String>,
    /// The level of a heading.
    pub level: Option<u64>,
}

pub open spec fn para_texts(v: Seq<Para>) -> Seq<Seq<char>> {
    Seq::new(v.len(), |i: int| v[i].text@)
}

/// The texts of paragraphs.
pub fn texts_of(v: &Vec<Para>) -> (r: Vec<String>)
    ensures
        texts(r@) == para_texts(v@),
{
    let out: Vec<String> = each(
        v,
        v.len(),
        |i: usize, p: &Para| -> (r: String)
            ensures
                r@ == p.text@
            { p.text.clone() },
    );
    assert(texts(out@) =~= para_texts(v@));
    out
}

pub open spec fn para_styles(v: Seq<Para>) -> Seq<Option<Seq<char>>> {
    Seq::new(v.len(), |i: int| text_in(v[i].style))
}

/// How many characters there are in a list of texts.
pub open spec fn characters_in(s: Seq<Seq<char>>) -> nat
    decreases s.len(),
{
    if s.len() == 0 {
        0
    } else {
        characters_in(s.drop_last()) + s.last().len()
    }
}

/// How many characters there are that are no blanks.
pub open spec fn solid_in(s: Seq<Seq<char>>) -> nat
    decreases s.len(),
{
    if s.len() == 0 {
        0
    } else {
        solid_in(s.drop_last()) + solid_count(s.last(), s.last().len() as int)
    }
}

/// How many words there are between blanks.
pub open spec fn words_in(s: Seq<Seq<char>>) -> nat
    decreases s.len(),
{
    if s.len() == 0 {
        0
    } else {
        words_in(s.drop_last()) + word_count(s.last(), s.last().len() as int)
    }
}

/// The tally tells how long a list of texts is.
pub open spec fn tallies(t: Tally, s: Seq<Seq<char>>) -> bool {
    &&& t.characters == characters_in(s)
    &&& t.no_space == solid_in(s)
    &&& t.words_by_space == words_in(s)
}

/// A text has no more words than characters that are no blanks, and no more of those than
/// characters.
pub proof fn law_words_are_fewer_than_characters(s: Seq<Seq<char>>)
    ensures
        words_in(s) <= solid_in(s) <= characters_in(s),
    decreases s.len(),
{
    if s.len() > 0 {
        law_words_are_fewer_than_characters(s.drop_last());
        lemma_words_bound(s.last(), s.last().len() as int);
    }
}

proof fn lemma_words_bound(s: Seq<char>, n: int)
    requires
        0 <= n,
    ensures
        word_count(s, n) <= solid_count(s, n) <= n,
    decreases n,
{
    if n > 0 {
        lemma_words_bound(s, n - 1);
    }
}

/// How long a list of texts is.
pub fn count_texts(v: &Vec<String>) -> (r: Tally)
    ensures
        tallies(r, texts(v@)),
{
    let ghost s = texts(v@);
    let size: usize = v.len();
    let mut t: Tally = Tally::new();
    let mut i: usize = 0;
    assert(s.take(0) =~= Seq::empty());
    while i < size
        invariant
            i <= size,
            size == v@.len(),
            s == texts(v@),
            tallies(t, s.take(i as int)),
            t.words_by_space <= t.no_space <= t.characters,
            t.characters <= 0xffff_ffff_ffff_ffff * i,
        decreases size - i,
    {
        let long: usize = v[i].as_str().unicode_len();
        assert(s.take(i + 1).drop_last() =~= s.take(i as int));
        assert(s.take(i + 1).last() == v@[i as int]@);
        t.add(v[i].as_str());
        i += 1;
    }
    assert(s.take(i as int) =~= s);
    t
}

/// The names among the first `n`, each once, in the order in which they first stand.
pub open spec fn names_used(s: Seq<Option<Seq<char>>>, n: int) -> Seq<Seq<char>>
    decreases n,
{
    if n <= 0 {
        Seq::empty()
    } else {
        let before = names_used(s, n - 1);
        match s[n - 1] {
            Some(name) => if before.contains(name) {
                before
            } else {
                before.push(name)
            },
            None => before,
        }
    }
}

/// How often a name stands.
pub open spec fn times_used(s: Seq<Option<Seq<char>>>, name: Seq<char>) -> nat {
    tally(|i: int| s[i] == Some(name), s.len() as int)
}

/// The list gives each name with how often it stands.
pub open spec fn counts_names(v: Seq<(String, usize)>, s: Seq<Option<Seq<char>>>) -> bool {
    let names = names_used(s, s.len() as int);
    &&& v.len() == names.len()
    &&& forall|i: int|
        0 <= i < v.len() ==> (#[trigger] v[i]).0@ == names[i] && v[i].1 == times_used(
            s,
            names[i],
        )
}

/// Counts how often each name stands.
pub fn count_names(v: &Vec<Option<String>>) -> (r: Vec<(String, usize)>)
    ensures
        counts_names(r@, option_texts(v@)),
{
    let ghost s = option_texts(v@);
    let n: usize = v.len();
    let mut names: Vec<String> = Vec::new();
    let mut i: usize = 0;
    assert(texts(names@) =~= names_used(s, 0));
    while i < n
        invariant
            i <= n,
            n == v@.len(),
            s == option_texts(v@),
            texts(names@) == names_used(s, i as int),
        decreases n - i,
    {
        assert(s[i as int] == text_in(v@[i as int]));
        if let Some(name) = &v[i] {
            if !lists(&names, name.as_str()) {
                names.push(name.clone());
            }
        }
        i += 1;
    }
    assert(texts(names@).len() == names@.len());
    let out: Vec<(String, usize)> = each(
        &names,
        names.len(),
        |k: usize, name: &String| -> (r: (String, usize))
            ensures
                r.0@ == name@,
                r.1 == times_used(s, name@)
            {
                let many: usize = count_those(
                    n,
                    |i: usize| -> (b: bool)
                        requires
                            i < n
                        ensures
                            b == (s[i as int] == Some(name@))
                        { says(&v[i], name.as_str()) },
                    Ghost(|i: int| s[i] == Some(name@)),
                );
                (name.clone(), many)
            },
    );
    assert forall|k: int| 0 <= k < out@.len() implies (#[trigger] out@[k]).0@ == names_used(
        s,
        n as int,
    )[k] && out@[k].1 == times_used(s, names_used(s, n as int)[k]) by {
        assert(texts(names@)[k] == names@[k]@);
    }
    out
}

/// A heading.
#[derive(Debug, Clone)]
pub struct Heading {
    pub level: u64,
    pub text: String,
}

/// What the paragraphs of a document are.
#[derive(Debug, Clone)]
pub struct Overview {
    pub empty: usize,
    pub tally: Tally,
    /// How many headings there are, listed or not.
    pub heading_total: usize,
    pub headings: Vec<Heading>,
    pub styles: Vec<(String, usize)>,
}

/// The paragraphs that are headings.
pub open spec fn headings_in(v: Seq<Para>) -> Seq<int> {
    those(|i: int| v[i].level is Some, v.len() as int)
}

impl Overview {
    pub open spec fn describes(self, v: Seq<Para>, limit: usize) -> bool {
        let which = headings_in(v);
        &&& self.empty == tally(|i: int| v[i].text@.len() == 0, v.len() as int)
        &&& tallies(self.tally, para_texts(v))
        &&& self.heading_total == which.len()
        &&& self.headings@.len() == at_most(which.len(), limit)
        &&& forall|i: int|
            0 <= i < self.headings@.len() ==> Some((#[trigger] self.headings@[i]).level)
                == v[which[i]].level && self.headings@[i].text@ == v[which[i]].text@
        &&& counts_names(self.styles@, para_styles(v))
    }
}

/// What the paragraphs of a document are: how many are empty, how long they are together, which
/// of them are headings, at most `limit`, and which styles they name how often.
pub fn look_over(v: &Vec<Para>, limit: usize) -> (r: Overview)
    ensures
        r.describes(v@, limit),
{
    let n: usize = v.len();
    let empty: usize = count_those(
        n,
        |i: usize| -> (b: bool)
            requires
                i < v@.len()
            ensures
                b == (v@[i as int].text@.len() == 0)
            { v[i].text.as_str().unicode_len() == 0 },
        Ghost(|i: int| v@[i].text@.len() == 0),
    );
    let all: Vec<String> = texts_of(v);
    let named: Vec<Option<String>> = each(
        v,
        n,
        |i: usize, p: &Para| -> (r: Option<String>)
            ensures
                text_in(r) == text_in(p.style)
            { copied(&p.style) },
    );
    assert(option_texts(named@) =~= para_styles(v@));
    let which: Vec<usize> = pick_those(
        n,
        |i: usize| -> (b: bool)
            requires
                i < v@.len()
            ensures
                b == (v@[i as int].level is Some)
            { v[i].level.is_some() },
        Ghost(|i: int| v@[i].level is Some),
    );
    assert(ints(which@).len() == which@.len());
    proof {
        crate::lists::lemma_those(|i: int| v@[i].level is Some, n as int);
    }
    assert forall|k: int| 0 <= k < which@.len() implies v@[#[trigger] which@[k] as int].level
        is Some by {
        assert(ints(which@)[k] == which@[k] as int);
    }
    let headings: Vec<Heading> = each(
        &which,
        cut(which.len(), limit),
        |at: usize, i: &usize| -> (r: Heading)
            requires
                *i < v@.len(),
                v@[*i as int].level is Some
            ensures
                Some(r.level) == v@[*i as int].level,
                r.text@ == v@[*i as int].text@
            {
                match v[*i].level {
                    Some(level) => Heading { level, text: v[*i].text.clone() },
                    None => Heading { level: 0, text: v[*i].text.clone() },
                }
            },
    );
    assert forall|k: int| 0 <= k < headings@.len() implies Some(
        (#[trigger] headings@[k]).level,
    ) == v@[headings_in(v@)[k]].level && headings@[k].text@ == v@[headings_in(v@)[k]].text@ by {
        assert(ints(which@)[k] == which@[k] as int);
    }
    Overview {
        empty,
        tally: count_texts(&all),
        heading_total: which.len(),
        headings,
        styles: count_names(&named),
    }
}

/// How many nodes called `want` stand below a node.
pub fn count_below(n: &Node, want: &str) -> (r: usize)
    ensures
        r == n.below(want@).len(),
{
    let all: Vec<&Node> = n.descendants(want);
    assert(nodes(all@).len() == all@.len());
    all.len()
}

/// How many nodes called `a` or `b` stand below a node.
pub fn count_either(n: &Node, a: &str, b: &str) -> (r: usize)
    ensures
        r == n.below(a@).len() + n.below(b@).len(),
{
    let mut all: Vec<&Node> = n.descendants(a);
    let mut more: Vec<&Node> = n.descendants(b);
    assert(nodes(all@).len() == all@.len());
    assert(nodes(more@).len() == more@.len());
    all.append(&mut more);
    all.len()
}

/// Where the nodes called `inner` below each node called `outer` stand among all nodes called
/// `inner`, in document order: from the first number up to the second. `before` of them stand
/// before the list.
pub open spec fn spans(c: Seq<Node>, outer: Seq<char>, inner: Seq<char>, before: int) -> Seq<
    (int, int),
>
    decreases c,
{
    if c.len() == 0 {
        Seq::empty()
    } else {
        let one = c.last();
        let from = before + within(c.drop_last(), inner).len() + one_if(
            one.local_name() == inner,
        );
        let own = if one.local_name() == outer {
            seq![(from, from + one.below(inner).len())]
        } else {
            Seq::empty()
        };
        spans(c.drop_last(), outer, inner, before) + own + spans(
            one.children@,
            outer,
            inner,
            from,
        )
    }
}

/// Each node called `outer` has its span, and in the span stand the nodes called `inner` that are
/// below it and no others.
pub proof fn law_a_span_holds_what_is_below(
    c: Seq<Node>,
    outer: Seq<char>,
    inner: Seq<char>,
    before: int,
)
    ensures
        spans(c, outer, inner, before).len() == within(c, outer).len(),
        forall|i: int|
            #![trigger spans(c, outer, inner, before)[i]]
            0 <= i < within(c, outer).len() ==> {
                let (from, to) = spans(c, outer, inner, before)[i];
                &&& before <= from <= to <= before + within(c, inner).len()
                &&& within(c, inner).subrange(from - before, to - before) == within(
                    c,
                    outer,
                )[i].below(inner)
            },
    decreases c,
{
    if c.len() > 0 {
        let one = c.last();
        let a = within(c.drop_last(), inner);
        let b = if one.local_name() == inner {
            seq![one]
        } else {
            Seq::empty()
        };
        let d = within(one.children@, inner);
        let from = before + a.len() + b.len();
        law_a_span_holds_what_is_below(c.drop_last(), outer, inner, before);
        law_a_span_holds_what_is_below(one.children@, outer, inner, from);
        assert(within(c, inner) == a + b + d);
        let s = spans(c.drop_last(), outer, inner, before);
        let t = spans(one.children@, outer, inner, from);
        let own: Seq<(int, int)> = if one.local_name() == outer {
            seq![(from, from + one.below(inner).len())]
        } else {
            Seq::empty()
        };
        assert(b.len() == one_if(one.local_name() == inner)) by {
            reveal(one_if);
        }
        assert(spans(c, outer, inner, before) == s + own + t);
        assert forall|i: int|
            #![trigger spans(c, outer, inner, before)[i]]
            0 <= i < within(c, outer).len() implies {
            let (x, y) = spans(c, outer, inner, before)[i];
            &&& before <= x <= y <= before + within(c, inner).len()
            &&& within(c, inner).subrange(x - before, y - before) == within(
                c,
                outer,
            )[i].below(inner)
        } by {
            let (x, y) = spans(c, outer, inner, before)[i];
            if i < s.len() {
                assert(s[i] == (x, y));
                assert((a + b + d).subrange(x - before, y - before) =~= a.subrange(
                    x - before,
                    y - before,
                ));
            } else if i < s.len() + own.len() {
                assert((a + b + d).subrange(x - before, y - before) =~= d);
            } else {
                assert(t[i - s.len() - own.len()] == (x, y));
                assert((a + b + d).subrange(x - before, y - before) =~= d.subrange(
                    x - from,
                    y - from,
                ));
            }
        }
    }
}

/// A span of numbers, from the first up to the second.
pub open spec fn span_ints(v: Seq<(usize, usize)>) -> Seq<(int, int)> {
    Seq::new(v.len(), |i: int| (v[i].0 as int, v[i].1 as int))
}

proof fn lemma_within_grows(c: Seq<Node>, want: Seq<char>, i: int)
    requires
        0 <= i <= c.len(),
    ensures
        within(c.take(i), want).len() <= within(c, want).len(),
    decreases c.len() - i,
{
    if i < c.len() {
        lemma_within_grows(c, want, i + 1);
        assert(c.take(i + 1).drop_last() =~= c.take(i));
    } else {
        assert(c.take(i) =~= c);
    }
}

/// Appends the spans of the nodes below a node. `before` nodes called `inner` stand before it.
fn push_spans(node: &Node, outer: &str, inner: &str, before: usize, out: &mut Vec<(usize, usize)>)
    requires
        before + node.below(inner@).len() <= usize::MAX,
    ensures
        span_ints(final(out)@) == span_ints(old(out)@) + spans(
            node.children@,
            outer@,
            inner@,
            before as int,
        ),
    decreases node,
{
    let ghost c = node.children@;
    let ghost start = span_ints(out@);
    let mut at: usize = before;
    let mut i: usize = 0;
    assert(c.take(0) =~= Seq::empty());
    assert(start + spans(c.take(0), outer@, inner@, before as int) =~= start);
    while i < node.children.len()
        invariant
            i <= node.children@.len(),
            c == node.children@,
            before + within(c, inner@).len() <= usize::MAX,
            at == before + within(c.take(i as int), inner@).len(),
            span_ints(out@) == start + spans(c.take(i as int), outer@, inner@, before as int),
        decreases node.children@.len() - i,
    {
        let one: &Node = &node.children[i];
        let ghost done = c.take(i + 1);
        let ghost had = span_ints(out@);
        proof {
            reveal(one_if);
            lemma_within_grows(c, inner@, i + 1);
        }
        assert(done.drop_last() =~= c.take(i as int));
        assert(done.last() == *one);
        let many: usize = count_below(one, inner);
        if one.is(inner) {
            at += 1;
        }
        if one.is(outer) {
            out.push((at, at + many));
            assert(span_ints(out@) =~= had.push((at as int, at + many)));
        }
        let ghost own = if one.local_name() == outer@ {
            seq![(at as int, at + many)]
        } else {
            Seq::empty()
        };
        push_spans(one, outer, inner, at, out);
        assert(spans(done, outer@, inner@, before as int) == spans(
            c.take(i as int),
            outer@,
            inner@,
            before as int,
        ) + own + spans(one.children@, outer@, inner@, at as int));
        assert(span_ints(out@) =~= start + spans(done, outer@, inner@, before as int));
        at += many;
        i += 1;
    }
    assert(c.take(i as int) =~= c);
}

/// Where the nodes called `inner` below each node called `outer` stand among all nodes called
/// `inner` below a node.
pub fn find_spans(node: &Node, outer: &str, inner: &str) -> (r: Vec<(usize, usize)>)
    ensures
        span_ints(r@) == spans(node.children@, outer@, inner@, 0),
        r@.len() == node.below(outer@).len(),
{
    let mut out: Vec<(usize, usize)> = Vec::new();
    let all: usize = count_below(node, inner);
    push_spans(node, outer, inner, 0, &mut out);
    assert(span_ints(out@) =~= spans(node.children@, outer@, inner@, 0));
    proof {
        law_a_span_holds_what_is_below(node.children@, outer@, inner@, 0);
    }
    assert(span_ints(out@).len() == out@.len());
    out
}

/// How many of the texts of a span are not empty.
pub open spec fn filled(s: Seq<Seq<char>>, span: (int, int)) -> nat {
    tally(|k: int| span.0 <= k < span.1 && s[k].len() > 0, s.len() as int)
}

/// How many of the texts of a span are not empty.
pub fn count_filled(v: &Vec<String>, span: (usize, usize)) -> (r: usize)
    ensures
        r == filled(texts(v@), (span.0 as int, span.1 as int)),
{
    let ghost s = texts(v@);
    let (from, to) = span;
    count_those(
        v.len(),
        |k: usize| -> (b: bool)
            requires
                k < v@.len()
            ensures
                b == (from <= k < to && s[k as int].len() > 0)
            { from <= k && k < to && v[k].as_str().unicode_len() > 0 },
        Ghost(|k: int| from <= k < to && s[k].len() > 0),
    )
}

/// How often a character stands among the first `n`.
pub open spec fn marks_upto(s: Seq<char>, a: char, b: char, n: int) -> nat
    decreases n,
{
    if n <= 0 {
        0
    } else {
        marks_upto(s, a, b, n - 1) + if s[n - 1] == a || s[n - 1] == b {
            1nat
        } else {
            0nat
        }
    }
}

/// How often either of two marks stands in a text.
pub open spec fn marks(s: Seq<char>, a: char, b: char) -> nat {
    marks_upto(s, a, b, s.len() as int)
}

fn count_marks(c: &Vec<char>, a: char, b: char) -> (r: usize)
    ensures
        r == marks(c@, a, b),
{
    let mut n: usize = 0;
    let mut i: usize = 0;
    while i < c.len()
        invariant
            n <= i <= c@.len(),
            n == marks_upto(c@, a, b, i as int),
        decreases c@.len() - i,
    {
        if c[i] == a || c[i] == b {
            n += 1;
        }
        i += 1;
    }
    n
}

/// The marks of structure that stand in the text of a binary document.
#[derive(Debug, Clone, Copy)]
pub struct DocMarks {
    pub paragraphs: usize,
    pub table_cell_marks: usize,
    pub field_marks: usize,
    pub object_marks: usize,
    pub annotation_marks: usize,
    pub page_break_marks: usize,
    pub soft_breaks: usize,
}

impl DocMarks {
    pub open spec fn describes(self, s: Seq<char>) -> bool {
        &&& self.paragraphs == marks(s, '\r', '\r')
        &&& self.table_cell_marks == marks(s, '\u{7}', '\u{7}')
        &&& self.field_marks == marks(s, '\u{13}', '\u{13}')
        &&& self.object_marks == marks(s, '\u{1}', '\u{2}')
        &&& self.annotation_marks == marks(s, '\u{5}', '\u{5}')
        &&& self.page_break_marks == marks(s, '\u{C}', '\u{C}')
        &&& self.soft_breaks == marks(s, '\u{B}', '\u{B}')
    }
}

/// Counts the marks of structure in the text of a binary document.
pub fn doc_marks(text: &str) -> (r: DocMarks)
    ensures
        r.describes(text@),
{
    let c: Vec<char> = crate::text::chars_of(text);
    DocMarks {
        paragraphs: count_marks(&c, '\r', '\r'),
        table_cell_marks: count_marks(&c, '\u{7}', '\u{7}'),
        field_marks: count_marks(&c, '\u{13}', '\u{13}'),
        object_marks: count_marks(&c, '\u{1}', '\u{2}'),
        annotation_marks: count_marks(&c, '\u{5}', '\u{5}'),
        page_break_marks: count_marks(&c, '\u{C}', '\u{C}'),
        soft_breaks: count_marks(&c, '\u{B}', '\u{B}'),
    }
}

/// A word processor document is read by what it is packed as: the three packages of the family
/// where their application is the word processor, and a stream of rich text always.
pub proof fn law_how_a_file_is_read(family: Family, app: Seq<char>)
    ensures
        branch_for(Family::Rtf, app) == Some(Branch::Rtf),
        branch_for(Family::Ooxml, "word"@) == Some(Branch::Docx),
        branch_for(Family::Odf, "word"@) == Some(Branch::Odt),
        branch_for(Family::Compound, "word"@) == Some(Branch::Doc),
        app != "word"@ && family != Family::Rtf ==> branch_for(family, app) is None,
        family == Family::Zip || family == Family::Other ==> branch_for(family, app) is None,
        Branch::Docx.kind_text() == "wordprocessingml"@,
        Branch::Odt.kind_text() == "opendocument-text"@,
        Branch::Rtf.kind_text() == "rtf"@,
        Branch::Doc.kind_text() == "word-binary"@,
{
}

/// One more text adds its characters, those of them that are no blanks, and its words.
pub proof fn law_texts_are_counted_one_by_one(s: Seq<Seq<char>>, one: Seq<char>)
    ensures
        characters_in(Seq::empty()) == 0 && solid_in(Seq::empty()) == 0 && words_in(Seq::empty())
            == 0,
        characters_in(s.push(one)) == characters_in(s) + one.len(),
        solid_in(s.push(one)) == solid_in(s) + solid_count(one, one.len() as int),
        words_in(s.push(one)) == words_in(s) + word_count(one, one.len() as int),
{
    assert(s.push(one).drop_last() =~= s);
}

proof fn lemma_names_known(s: Seq<Option<Seq<char>>>, n: int, name: Seq<char>)
    requires
        0 <= n <= s.len(),
    ensures
        names_used(s, n).contains(name) == (exists|k: int|
            0 <= k < n && #[trigger] s[k] == Some(name)),
    decreases n,
{
    if n > 0 {
        lemma_names_known(s, n - 1, name);
        let before = names_used(s, n - 1);
        let all = names_used(s, n);
        match s[n - 1] {
            Some(one) => {
                if !before.contains(one) {
                    assert(all == before.push(one));
                    assert(all[before.len() as int] == one);
                    if before.contains(name) {
                        let j = choose|j: int| 0 <= j < before.len() && before[j] == name;
                        assert(all[j] == name);
                    }
                    if all.contains(name) {
                        let j = choose|j: int| 0 <= j < all.len() && all[j] == name;
                        if j < before.len() {
                            assert(before[j] == name);
                        }
                    }
                }
                if one == name {
                    assert(s[n - 1] == Some(name));
                }
            },
            None => {},
        }
    }
}

/// Each name is told once, where it first stands, with how many name it.
pub proof fn law_names_are_counted(v: Seq<(String, usize)>, s: Seq<Option<Seq<char>>>, i: int)
    requires
        counts_names(v, s),
        0 <= i < v.len(),
    ensures
        v[i].1 == s.filter(|x: Option<Seq<char>>| x == Some(v[i].0@)).len(),
        exists|k: int| 0 <= k < s.len() && #[trigger] s[k] == Some(v[i].0@),
        forall|j: int| 0 <= j < i ==> (#[trigger] v[j]).0@ != v[i].0@,
{
    let name = v[i].0@;
    let n = s.len() as int;
    lemma_names_known(s, n, name);
    assert(names_used(s, n)[i] == name);
    crate::lists::law_a_tally_is_how_many_pass(
        s,
        |k: int| s[k] == Some(name),
        |x: Option<Seq<char>>| x == Some(name),
    );
    lemma_names_differ(s, n);
    assert forall|j: int| 0 <= j < i implies (#[trigger] v[j]).0@ != name by {
        assert(names_used(s, n)[j] == v[j].0@);
    }
}

proof fn lemma_names_differ(s: Seq<Option<Seq<char>>>, n: int)
    requires
        0 <= n <= s.len(),
    ensures
        forall|i: int, j: int|
            0 <= i < j < names_used(s, n).len() ==> #[trigger] names_used(s, n)[i]
                != #[trigger] names_used(s, n)[j],
    decreases n,
{
    if n > 0 {
        lemma_names_differ(s, n - 1);
        let before = names_used(s, n - 1);
        match s[n - 1] {
            Some(one) => {
                if !before.contains(one) {
                    let all = names_used(s, n);
                    assert(all == before.push(one));
                    assert forall|i: int, j: int| 0 <= i < j < all.len() implies #[trigger] all[i]
                        != #[trigger] all[j] by {
                        assert(before[i] == all[i]);
                        if j < before.len() {
                            assert(before[j] == all[j]);
                        }
                    }
                }
            },
            None => {},
        }
    }
}

/// What is told of paragraphs: how many hold nothing, and those with a level as headings, in
/// their order and with their texts.
pub proof fn law_what_is_told_of_paragraphs(r: Overview, v: Seq<Para>, limit: usize, i: int)
    requires
        r.describes(v, limit),
    ensures
        r.empty == v.filter(|p: Para| p.text@.len() == 0).len(),
        r.heading_total == v.filter(|p: Para| p.level is Some).len(),
        r.headings@.len() <= limit,
        r.headings@.len() < r.heading_total ==> r.headings@.len() == limit,
        0 <= i < r.headings@.len() ==> exists|k: int|
            0 <= k < v.len() && (#[trigger] v[k]).level == Some(r.headings@[i].level) && v[k].text@
                == r.headings@[i].text@,
{
    crate::lists::law_a_tally_is_how_many_pass(
        v,
        |i: int| v[i].text@.len() == 0,
        |p: Para| p.text@.len() == 0,
    );
    let q = |i: int| v[i].level is Some;
    crate::lists::law_those_are_all_that_satisfy(q, v.len() as int);
    crate::lists::law_a_tally_is_how_many_pass(v, q, |p: Para| p.level is Some);
    if 0 <= i < r.headings@.len() {
        let k = headings_in(v)[i];
        assert(those(q, v.len() as int)[i] == k);
        assert(Some(r.headings@[i].level) == v[k].level);
    }
}

/// One more character is counted where it is one of the two that are looked for.
proof fn lemma_marks_push(s: Seq<char>, c: char, a: char, b: char)
    ensures
        marks(s.push(c), a, b) == marks(s, a, b) + if c == a || c == b {
            1nat
        } else {
            0nat
        },
{
    lemma_marks_part(s, s.push(c), a, b, s.len() as int);
}

proof fn lemma_marks_part(s: Seq<char>, t: Seq<char>, a: char, b: char, n: int)
    requires
        n <= s.len(),
        n <= t.len(),
        forall|i: int| 0 <= i < n ==> s[i] == t[i],
    ensures
        marks_upto(s, a, b, n) == marks_upto(t, a, b, n),
    decreases n,
{
    if n > 0 {
        lemma_marks_part(s, t, a, b, n - 1);
    }
}

/// Each mark of structure is a character of its own, and one more of it is one more and changes
/// no other count.
pub proof fn law_marks_have_their_characters(s: Seq<char>, c: char, a: DocMarks, b: DocMarks)
    requires
        a.describes(s),
        b.describes(s.push(c)),
    ensures
        b.paragraphs - a.paragraphs == if c as u32 == 13 { 1int } else { 0 },
        b.table_cell_marks - a.table_cell_marks == if c as u32 == 7 { 1int } else { 0 },
        b.field_marks - a.field_marks == if c as u32 == 0x13 { 1int } else { 0 },
        b.object_marks - a.object_marks == if c as u32 == 1 || c as u32 == 2 { 1int } else { 0 },
        b.annotation_marks - a.annotation_marks == if c as u32 == 5 { 1int } else { 0 },
        b.page_break_marks - a.page_break_marks == if c as u32 == 12 { 1int } else { 0 },
        b.soft_breaks - a.soft_breaks == if c as u32 == 11 { 1int } else { 0 },
{
    lemma_marks_push(s, c, '\r', '\r');
    lemma_marks_push(s, c, '\u{7}', '\u{7}');
    lemma_marks_push(s, c, '\u{13}', '\u{13}');
    lemma_marks_push(s, c, '\u{1}', '\u{2}');
    lemma_marks_push(s, c, '\u{5}', '\u{5}');
    lemma_marks_push(s, c, '\u{C}', '\u{C}');
    lemma_marks_push(s, c, '\u{B}', '\u{B}');
}

/// A text counts for a span where it stands in it and holds something.
pub proof fn law_what_fills_a_span(s: Seq<Seq<char>>, from: int, to: int)
    requires
        0 <= from <= to <= s.len(),
    ensures
        filled(s, (from, to)) == s.subrange(from, to).filter(|t: Seq<char>| t.len() > 0).len(),
{
    lemma_filled_part(s, from, to, s.len() as int);
    assert(s.len() as int >= to);
}

proof fn lemma_filled_part(s: Seq<Seq<char>>, from: int, to: int, n: int)
    requires
        0 <= from <= to <= s.len(),
        0 <= n <= s.len(),
    ensures
        tally(|k: int| from <= k < to && s[k].len() > 0, n) == s.subrange(
            from,
            if n < from {
                from
            } else if n < to {
                n
            } else {
                to
            },
        ).filter(|t: Seq<char>| t.len() > 0).len(),
    decreases n,
{
    reveal(Seq::filter);
    if n > 0 {
        lemma_filled_part(s, from, to, n - 1);
        if from < n <= to {
            assert(s.subrange(from, n).drop_last() =~= s.subrange(from, n - 1));
            assert(s.subrange(from, n).last() == s[n - 1]);
        }
    }
}

/// A file that is turned down is named first, and then what it was taken for: the application and
/// the format, with a slash between them.
pub proof fn law_a_refusal_names_what_was_found(path: &str, app: &str, format: &str, r: String)
    requires
        call_ensures(refusal, (path, app, format), r),
    ensures
        r@.len() > path@.len() + app@.len() + format@.len(),
        r@.take(path@.len() as int) == path@,
        exists|i: int|
            path@.len() < i && i + app@.len() + 3 + format@.len() < r@.len() && #[trigger] r@.skip(
                i,
            ).take(app@.len() + 3int + format@.len()) == app@ + seq![' ', '/', ' '] + format@,
{
    reveal_strlit(" / ");
    reveal_strlit(" 不是 Word 文档（识别为 ");
    reveal_strlit("）；表格用 office-sheet，演示文稿用 office-slide");
    assert(" / "@ =~= seq![' ', '/', ' ']);
    let a = path@ + " 不是 Word 文档（识别为 "@;
    let m = app@ + " / "@ + format@;
    let z = "）；表格用 office-sheet，演示文稿用 office-slide"@;
    assert(" 不是 Word 文档（识别为 "@.len() > 0);
    assert(z.len() > 0);
    assert(r@ =~= a + m + z);
    assert(r@.skip(a.len() as int).take(m.len() as int) =~= m);
    assert(r@.take(path@.len() as int) =~= path@);
}

/// One more remark stands behind the others.
pub proof fn law_a_remark_is_added_last(mine: &Vec<String>, extra: &str, r: Vec<String>)
    requires
        call_ensures(concat_notes, (mine, extra), r),
    ensures
        r@.len() == mine@.len() + 1,
        r@[mine@.len() as int]@ == extra@,
        forall|i: int| 0 <= i < mine@.len() ==> (#[trigger] r@[i])@ == mine@[i]@,
{
    let all = texts(mine@).push(extra@);
    assert(texts(r@).len() == all.len());
    assert(texts(r@)[mine@.len() as int] == all[mine@.len() as int]);
    assert forall|i: int| 0 <= i < mine@.len() implies (#[trigger] r@[i])@ == mine@[i]@ by {
        assert(texts(r@)[i] == all[i]);
    }
}

} // verus!
