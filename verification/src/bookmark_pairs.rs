//! How the marks of bookmarks pair up.
//!
//! In a WordprocessingML document the end of a bookmark gives only a number, so that marks pair by
//! number. In an OpenDocument text both ends give the name, and a bookmark within one paragraph is
//! a single point.

use crate::document::{
    count_below, count_names, counts_names, names_used, times_used,
};
use crate::lists::{at_most, count_those, cut, each, joined, tally};
use crate::text::{same, texts};
use crate::words::{begins, starts_with};
use crate::written::{option_texts, owned, text_in};
use crate::xml::{nodes, Node};
use vstd::prelude::*;

verus! {

broadcast use {crate::text::lemma_texts_push, crate::xml::lemma_nodes_push};

/// A mark and the paragraph in which it stands.
pub struct Mark {
    pub node: Node,
    pub paragraph: int,
}

/// The marks of a kind in each paragraph.
pub open spec fn marks_fn(ps: Seq<Node>, kind: Seq<char>) -> spec_fn(int) -> Seq<Mark> {
    |i: int|
        Seq::new(
            ps[i].below(kind).len(),
            |k: int| Mark { node: ps[i].below(kind)[k], paragraph: i },
        )
}

/// The marks of a kind.
pub open spec fn marks(ps: Seq<Node>, kind: Seq<char>) -> Seq<Mark> {
    joined(marks_fn(ps, kind), ps.len() as int)
}

/// What an attribute of each mark says.
pub open spec fn words_of(m: Seq<Mark>, want: Seq<char>) -> Seq<Option<Seq<char>>> {
    Seq::new(m.len(), |i: int| m[i].node.attr_text(want))
}

/// A mark has its other half. A missing word and an empty one pair with nothing.
pub open spec fn pairs(word: Option<Seq<char>>, pool: Seq<Option<Seq<char>>>) -> bool {
    word is Some && word.unwrap().len() > 0 && pool.contains(word)
}

/// Whether a mark has its other half.
fn pairs_with(word: &Option<String>, pool: &Vec<Option<String>>) -> (r: bool)
    ensures
        r == pairs(text_in(*word), option_texts(pool@)),
{
    let want: &String = match word {
        Some(t) => t,
        None => {
            return false;
        },
    };
    if want.as_str().unicode_len() == 0 {
        return false;
    }
    let ghost s = option_texts(pool@);
    let mut i: usize = 0;
    while i < pool.len()
        invariant
            i <= pool@.len(),
            s == option_texts(pool@),
            text_in(*word) == Some(want@),
            want@.len() > 0,
            forall|k: int| 0 <= k < i ==> s[k] != Some(want@),
        decreases pool@.len() - i,
    {
        assert(s[i as int] == text_in(pool@[i as int]));
        if let Some(had) = &pool[i] {
            if same(had.as_str(), want.as_str()) {
                return true;
            }
        }
        i += 1;
    }
    false
}

/// A mark and the paragraph in which it stands.
struct Spot<'a> {
    node: &'a Node,
    paragraph: usize,
}

impl Spot<'_> {
    spec fn mark(self) -> Mark {
        Mark { node: *self.node, paragraph: self.paragraph as int }
    }
}

spec fn spots(v: Seq<Spot>) -> Seq<Mark> {
    Seq::new(v.len(), |i: int| v[i].mark())
}

fn find_marks<'a>(ps: &Vec<&'a Node>, kind: &str) -> (r: Vec<Spot<'a>>)
    ensures
        spots(r@) == marks(nodes(ps@), kind@),
        r@.len() == marks(nodes(ps@), kind@).len(),
{
    let ghost s = nodes(ps@);
    let mut out: Vec<Spot<'a>> = Vec::new();
    let mut i: usize = 0;
    assert(spots(out@) =~= joined(marks_fn(s, kind@), 0));
    while i < ps.len()
        invariant
            i <= ps@.len(),
            s == nodes(ps@),
            spots(out@) == joined(marks_fn(s, kind@), i as int),
        decreases ps@.len() - i,
    {
        assert(s[i as int] == *ps@[i as int]);
        let found: Vec<&'a Node> = ps[i].descendants(kind);
        assert(nodes(found@).len() == found@.len());
        let ghost before = spots(out@);
        let mut own: Vec<Spot<'a>> = each(
            &found,
            found.len(),
            |k: usize, x: &&'a Node| -> (r: Spot<'a>)
                ensures
                    *r.node == **x,
                    r.paragraph == i
                { Spot { node: *x, paragraph: i } },
        );
        assert(spots(own@) =~= marks_fn(s, kind@)(i as int)) by {
            assert forall|k: int| 0 <= k < own@.len() implies (#[trigger] own@[k]).mark()
                == marks_fn(s, kind@)(i as int)[k] by {
                assert(nodes(found@)[k] == *found@[k]);
            }
        }
        let ghost more = spots(own@);
        out.append(&mut own);
        assert(spots(out@) =~= before + more);
        i += 1;
    }
    assert(spots(out@).len() == out@.len());
    out
}

fn read_words(v: &Vec<Spot>, want: &str) -> (r: Vec<Option<String>>)
    ensures
        option_texts(r@) == words_of(spots(v@), want@),
        r@.len() == v@.len(),
{
    let out: Vec<Option<String>> = each(
        v,
        v.len(),
        |i: usize, x: &Spot| -> (r: Option<String>)
            ensures
                text_in(r) == x.mark().node.attr_text(want@)
            { owned(x.node.attr_local(want)) },
    );
    assert(option_texts(out@) =~= words_of(spots(v@), want@));
    out
}

/// How many of the words have their other half.
pub open spec fn paired(words: Seq<Option<Seq<char>>>, pool: Seq<Option<Seq<char>>>) -> nat {
    tally(|i: int| pairs(words[i], pool), words.len() as int)
}

fn count_paired(words: &Vec<Option<String>>, pool: &Vec<Option<String>>) -> (r: usize)
    ensures
        r == paired(option_texts(words@), option_texts(pool@)),
        r <= words@.len(),
{
    let ghost s = option_texts(words@);
    let ghost p = option_texts(pool@);
    count_those(
        words.len(),
        |i: usize| -> (b: bool)
            requires
                i < words@.len()
            ensures
                b == pairs(s[i as int], p)
            { pairs_with(&words[i], pool) },
        Ghost(|i: int| pairs(s[i], p)),
    )
}

/// A mark has its other half or it has not.
pub proof fn law_marks_pair_or_stand_alone(
    words: Seq<Option<Seq<char>>>,
    pool: Seq<Option<Seq<char>>>,
    n: int,
)
    requires
        0 <= n,
    ensures
        tally(|i: int| pairs(words[i], pool), n) + tally(|i: int| !pairs(words[i], pool), n) == n,
    decreases n,
{
    if n > 0 {
        law_marks_pair_or_stand_alone(words, pool, n - 1);
    }
}

/// The names that stand more than once.
pub open spec fn repeated(s: Seq<Option<Seq<char>>>, n: int) -> Seq<Seq<char>>
    decreases n,
{
    if n <= 0 {
        Seq::empty()
    } else {
        let name = names_used(s, s.len() as int)[n - 1];
        if times_used(s, name) > 1 {
            repeated(s, n - 1).push(name)
        } else {
            repeated(s, n - 1)
        }
    }
}

/// The names of marks.
#[derive(Debug, Clone)]
pub struct Names {
    /// How many marks have a name.
    pub total: usize,
    pub distinct: Vec<String>,
    pub duplicate: Vec<String>,
}

impl Names {
    pub open spec fn describes(self, s: Seq<Option<Seq<char>>>) -> bool {
        let names = names_used(s, s.len() as int);
        &&& self.total == tally(|i: int| s[i] is Some, s.len() as int)
        &&& texts(self.distinct@) == names
        &&& texts(self.duplicate@) == repeated(s, names.len() as int)
    }
}

fn read_names(words: &Vec<Option<String>>) -> (r: Names)
    ensures
        r.describes(option_texts(words@)),
{
    let ghost s = option_texts(words@);
    let ghost names = names_used(s, s.len() as int);
    let counted: Vec<(String, usize)> = count_names(words);
    let total: usize = count_those(
        words.len(),
        |i: usize| -> (b: bool)
            requires
                i < words@.len()
            ensures
                b == (s[i as int] is Some)
            { words[i].is_some() },
        Ghost(|i: int| s[i] is Some),
    );
    let mut distinct: Vec<String> = Vec::new();
    let mut duplicate: Vec<String> = Vec::new();
    let mut i: usize = 0;
    assert(texts(duplicate@) =~= repeated(s, 0));
    while i < counted.len()
        invariant
            i <= counted@.len(),
            names == names_used(s, s.len() as int),
            counts_names(counted@, s),
            texts(distinct@) == names.take(i as int),
            texts(duplicate@) == repeated(s, i as int),
        decreases counted@.len() - i,
    {
        assert(counted@[i as int].0@ == names[i as int]);
        distinct.push(counted[i].0.clone());
        assert(texts(distinct@) =~= names.take(i + 1));
        if counted[i].1 > 1 {
            duplicate.push(counted[i].0.clone());
        }
        i += 1;
    }
    assert(names.take(i as int) =~= names);
    Names { total, distinct, duplicate }
}

/// One mark.
#[derive(Debug, Clone)]
pub struct MarkRow {
    pub paragraph: usize,
    pub id_written: Option<String>,
    pub name_written: Option<String>,
    /// Made by the program, not by a person.
    pub hidden: bool,
    /// The other half is there.
    pub paired: bool,
}

/// A name that the program gave.
pub open spec fn is_hidden(m: Mark) -> bool {
    match m.node.attr_text("name"@) {
        Some(t) => begins(t, "_"@),
        None => false,
    }
}

impl MarkRow {
    pub open spec fn describes(self, m: Mark, key: Seq<char>, pool: Seq<Option<Seq<char>>>) -> bool {
        &&& self.paragraph == m.paragraph
        &&& text_in(self.id_written) == m.node.attr_text("id"@)
        &&& text_in(self.name_written) == m.node.attr_text("name"@)
        &&& self.hidden == is_hidden(m)
        &&& self.paired == pairs(m.node.attr_text(key), pool)
    }
}

fn hides(x: &Spot) -> (r: bool)
    ensures
        r == is_hidden(x.mark()),
{
    match x.node.attr_local("name") {
        Some(t) => starts_with(t, "_"),
        None => false,
    }
}

fn read_mark(x: &Spot, key: &str, pool: &Vec<Option<String>>) -> (r: MarkRow)
    ensures
        r.describes(x.mark(), key@, option_texts(pool@)),
{
    MarkRow {
        paragraph: x.paragraph,
        id_written: owned(x.node.attr_local("id")),
        name_written: owned(x.node.attr_local("name")),
        hidden: hides(x),
        paired: pairs_with(&owned(x.node.attr_local(key)), pool),
    }
}

/// The rows tell of the first marks.
pub open spec fn rows_describe(
    v: Seq<MarkRow>,
    m: Seq<Mark>,
    key: Seq<char>,
    pool: Seq<Option<Seq<char>>>,
    limit: usize,
) -> bool {
    &&& v.len() == at_most(m.len(), limit)
    &&& forall|i: int| 0 <= i < v.len() ==> (#[trigger] v[i]).describes(m[i], key, pool)
}

fn read_marks(v: &Vec<Spot>, key: &str, pool: &Vec<Option<String>>, limit: usize) -> (r: Vec<
    MarkRow,
>)
    ensures
        rows_describe(r@, spots(v@), key@, option_texts(pool@), limit),
{
    let ghost m = spots(v@);
    assert(m.len() == v@.len());
    let out: Vec<MarkRow> = each(
        v,
        cut(v.len(), limit),
        |i: usize, x: &Spot| -> (r: MarkRow)
            ensures
                r.describes(x.mark(), key@, option_texts(pool@))
            { read_mark(x, key, pool) },
    );
    assert forall|i: int| 0 <= i < out@.len() implies (#[trigger] out@[i]).describes(
        m[i],
        key@,
        option_texts(pool@),
    ) by {
        assert(m[i] == v@[i].mark());
    }
    out
}

/// What is left of a number.
pub open spec fn left(all: nat, some: nat) -> nat {
    if all >= some {
        (all - some) as nat
    } else {
        0
    }
}

/// The bookmarks of a document.
#[derive(Debug, Clone)]
pub struct PairReport {
    pub starts_total: usize,
    pub ends_total: usize,
    pub pairs_closed: usize,
    pub starts_without_end: usize,
    pub ends_without_start: usize,
    pub names: Names,
    pub hidden_starts: usize,
    pub marks_outside_paragraphs: u128,
    pub starts: Vec<MarkRow>,
    pub ends: Vec<MarkRow>,
}

impl PairReport {
    pub open spec fn describes(self, body: Node, limit: usize) -> bool {
        let ps = body.below("p"@);
        let starts = marks(ps, "bookmarkStart"@);
        let ends = marks(ps, "bookmarkEnd"@);
        let a = words_of(starts, "id"@);
        let b = words_of(ends, "id"@);
        &&& self.starts_total == starts.len()
        &&& self.ends_total == ends.len()
        &&& self.pairs_closed == paired(a, b)
        &&& self.pairs_closed + self.starts_without_end == starts.len()
        &&& paired(b, a) + self.ends_without_start == ends.len()
        &&& self.names.describes(words_of(starts, "name"@))
        &&& self.hidden_starts == tally(|i: int| is_hidden(starts[i]), starts.len() as int)
        &&& self.marks_outside_paragraphs == left(
            body.below("bookmarkStart"@).len() + body.below("bookmarkEnd"@).len(),
            starts.len() + ends.len(),
        )
        &&& rows_describe(self.starts@, starts, "id"@, b, limit)
        &&& rows_describe(self.ends@, ends, "id"@, a, limit)
    }
}

fn what_is_left(all: u128, some: u128) -> (r: u128)
    ensures
        r == left(all as nat, some as nat),
{
    if all >= some {
        all - some
    } else {
        0
    }
}

/// The bookmarks of a document, paired by number. Lists are cut to `limit`.
pub fn docx(body: &Node, limit: usize) -> (r: PairReport)
    ensures
        r.describes(*body, limit),
{
    let ps: Vec<&Node> = body.descendants("p");
    let starts: Vec<Spot> = find_marks(&ps, "bookmarkStart");
    let ends: Vec<Spot> = find_marks(&ps, "bookmarkEnd");
    let a: Vec<Option<String>> = read_words(&starts, "id");
    let b: Vec<Option<String>> = read_words(&ends, "id");
    let ghost m = spots(starts@);
    let pairs_closed: usize = count_paired(&a, &b);
    let closed_ends: usize = count_paired(&b, &a);
    let hidden_starts: usize = count_those(
        starts.len(),
        |i: usize| -> (b: bool)
            requires
                i < starts@.len()
            ensures
                b == is_hidden(m[i as int])
            { hides(&starts[i]) },
        Ghost(|i: int| is_hidden(m[i])),
    );
    let all: u128 = count_below(body, "bookmarkStart") as u128 + count_below(
        body,
        "bookmarkEnd",
    ) as u128;
    let some: u128 = starts.len() as u128 + ends.len() as u128;
    PairReport {
        starts_total: starts.len(),
        ends_total: ends.len(),
        pairs_closed,
        starts_without_end: starts.len() - pairs_closed,
        ends_without_start: ends.len() - closed_ends,
        names: read_names(&read_words(&starts, "name")),
        hidden_starts,
        marks_outside_paragraphs: what_is_left(all, some),
        starts: read_marks(&starts, "id", &b, limit),
        ends: read_marks(&ends, "id", &a, limit),
    }
}

/// The bookmarks of a text.
#[derive(Debug, Clone)]
pub struct SpanReport {
    pub points_total: usize,
    pub spans_start: usize,
    pub spans_end: usize,
    pub spans_closed: usize,
    pub starts_without_end: usize,
    pub ends_without_start: usize,
    pub names: Names,
    pub marks_outside_paragraphs: u128,
    /// A point has no other half.
    pub points: Vec<MarkRow>,
    pub span_starts: Vec<MarkRow>,
    pub span_ends: Vec<MarkRow>,
}

impl SpanReport {
    pub open spec fn describes(self, content: Node, limit: usize) -> bool {
        let ps = content.below("p"@);
        let points = marks(ps, "bookmark"@);
        let starts = marks(ps, "bookmark-start"@);
        let ends = marks(ps, "bookmark-end"@);
        let a = words_of(starts, "name"@);
        let b = words_of(ends, "name"@);
        &&& self.points_total == points.len()
        &&& self.spans_start == starts.len()
        &&& self.spans_end == ends.len()
        &&& self.spans_closed == paired(a, b)
        &&& self.spans_closed + self.starts_without_end == starts.len()
        &&& paired(b, a) + self.ends_without_start == ends.len()
        &&& self.names.describes(words_of(points, "name"@) + a)
        &&& self.marks_outside_paragraphs == left(
            content.below("bookmark"@).len() + content.below("bookmark-start"@).len()
                + content.below("bookmark-end"@).len(),
            points.len() + starts.len() + ends.len(),
        )
        &&& rows_describe(self.points@, points, "name"@, Seq::empty(), limit)
        &&& rows_describe(self.span_starts@, starts, "name"@, b, limit)
        &&& rows_describe(self.span_ends@, ends, "name"@, a, limit)
    }
}

/// The bookmarks of a text, paired by name. Lists are cut to `limit`.
pub fn odf(content: &Node, limit: usize) -> (r: SpanReport)
    ensures
        r.describes(*content, limit),
{
    let ps: Vec<&Node> = content.descendants("p");
    let points: Vec<Spot> = find_marks(&ps, "bookmark");
    let starts: Vec<Spot> = find_marks(&ps, "bookmark-start");
    let ends: Vec<Spot> = find_marks(&ps, "bookmark-end");
    let a: Vec<Option<String>> = read_words(&starts, "name");
    let b: Vec<Option<String>> = read_words(&ends, "name");
    let spans_closed: usize = count_paired(&a, &b);
    let closed_ends: usize = count_paired(&b, &a);
    let mut names: Vec<Option<String>> = read_words(&points, "name");
    let mut more: Vec<Option<String>> = read_words(&starts, "name");
    let ghost x = option_texts(names@);
    let ghost y = option_texts(more@);
    names.append(&mut more);
    assert(option_texts(names@) =~= x + y);
    let all: u128 = count_below(content, "bookmark") as u128 + count_below(
        content,
        "bookmark-start",
    ) as u128 + count_below(content, "bookmark-end") as u128;
    let some: u128 = points.len() as u128 + starts.len() as u128 + ends.len() as u128;
    let none: Vec<Option<String>> = Vec::new();
    assert(option_texts(none@) =~= Seq::empty());
    SpanReport {
        points_total: points.len(),
        spans_start: starts.len(),
        spans_end: ends.len(),
        spans_closed,
        starts_without_end: starts.len() - spans_closed,
        ends_without_start: ends.len() - closed_ends,
        names: read_names(&names),
        marks_outside_paragraphs: what_is_left(all, some),
        points: read_marks(&points, "name", &none, limit),
        span_starts: read_marks(&starts, "name", &b, limit),
        span_ends: read_marks(&ends, "name", &a, limit),
    }
}

/// A mark pairs where the pool has its word; a missing word and an empty one pair with nothing.
pub proof fn law_what_pairs(word: Seq<char>, pool: Seq<Option<Seq<char>>>)
    ensures
        !pairs(None, pool),
        word.len() == 0 ==> !pairs(Some(word), pool),
        word.len() > 0 ==> (pairs(Some(word), pool) <==> exists|i: int|
            0 <= i < pool.len() && #[trigger] pool[i] == Some(word)),
{
    if pool.contains(Some(word)) {
        let i = choose|i: int| 0 <= i < pool.len() && pool[i] == Some(word);
        assert(pool[i] == Some(word));
    }
}

/// The marks of a kind are those below each paragraph, each with the number of its paragraph.
pub proof fn law_which_marks_there_are(ps: Seq<Node>, kind: Seq<char>, n: int, k: int)
    requires
        0 <= n,
        0 <= k < ps[n].below(kind).len(),
    ensures
        joined(marks_fn(ps, kind), 0).len() == 0,
        joined(marks_fn(ps, kind), n + 1).len() == joined(marks_fn(ps, kind), n).len()
            + ps[n].below(kind).len(),
        joined(marks_fn(ps, kind), n + 1)[joined(marks_fn(ps, kind), n).len() + k] == (Mark {
            node: ps[n].below(kind)[k],
            paragraph: n,
        }),
{
    crate::lists::law_lists_are_joined_in_order(marks_fn(ps, kind), n);
}

/// What is told of a mark: its paragraph, its number and its name, whether the program made it,
/// and whether its other half is there.
pub proof fn law_what_a_mark_says(
    r: MarkRow,
    m: Mark,
    key: Seq<char>,
    pool: Seq<Option<Seq<char>>>,
)
    requires
        r.describes(m, key, pool),
    ensures
        r.paragraph == m.paragraph,
        text_in(r.id_written) == m.node.attr_text("id"@),
        text_in(r.name_written) == m.node.attr_text("name"@),
        m.node.attr_text("name"@) is None ==> !r.hidden,
        m.node.attr_text("name"@) matches Some(t) ==> (r.hidden <==> t.len() > 0 && t[0] == '_'),
        r.paired <==> pairs(m.node.attr_text(key), pool),
{
    reveal_strlit("_");
    assert("_"@ =~= seq!['_']);
    if let Some(t) = m.node.attr_text("name"@) {
        if t.len() > 0 && t[0] == '_' {
            assert(t.take(1) =~= seq!['_']);
        }
        if begins(t, "_"@) {
            assert(t.take(1)[0] == t[0]);
        }
    }
}

/// The bookmarks of a document pair by number: starts and ends stand in two elements, and each is
/// closed or stands alone.
pub proof fn law_how_bookmarks_of_a_document_pair(
    r: PairReport,
    body: Node,
    limit: usize,
    starts: Seq<Mark>,
    ends: Seq<Mark>,
    i: int,
)
    requires
        r.describes(body, limit),
        starts == marks(body.below("p"@), "bookmarkStart"@),
        ends == marks(body.below("p"@), "bookmarkEnd"@),
    ensures
        r.starts_total == starts.len(),
        r.ends_total == ends.len(),
        r.pairs_closed == starts.filter(
            |m: Mark| pairs(m.node.attr_text("id"@), words_of(ends, "id"@)),
        ).len(),
        r.starts_without_end == starts.len() - r.pairs_closed,
        r.ends_without_start == ends.len() - ends.filter(
            |m: Mark| pairs(m.node.attr_text("id"@), words_of(starts, "id"@)),
        ).len(),
        r.hidden_starts == starts.filter(|m: Mark| is_hidden(m)).len(),
        0 <= i < r.starts@.len() ==> r.starts@[i].describes(starts[i], "id"@, words_of(ends, "id"@)),
        0 <= i < r.ends@.len() ==> r.ends@[i].describes(ends[i], "id"@, words_of(starts, "id"@)),
        r.names.describes(words_of(starts, "name"@)),
{
    let a = words_of(starts, "id"@);
    let b = words_of(ends, "id"@);
    crate::lists::law_a_tally_is_how_many_pass(
        starts,
        |i: int| pairs(a[i], b),
        |m: Mark| pairs(m.node.attr_text("id"@), b),
    );
    crate::lists::law_a_tally_is_how_many_pass(
        ends,
        |i: int| pairs(b[i], a),
        |m: Mark| pairs(m.node.attr_text("id"@), a),
    );
    crate::lists::law_a_tally_is_how_many_pass(
        starts,
        |i: int| is_hidden(starts[i]),
        |m: Mark| is_hidden(m),
    );
}

/// The bookmarks of a text pair by name: points stand alone, and starts and ends in two elements.
pub proof fn law_how_bookmarks_of_a_text_pair(
    r: SpanReport,
    content: Node,
    limit: usize,
    starts: Seq<Mark>,
    ends: Seq<Mark>,
    points: Seq<Mark>,
    i: int,
)
    requires
        r.describes(content, limit),
        starts == marks(content.below("p"@), "bookmark-start"@),
        ends == marks(content.below("p"@), "bookmark-end"@),
        points == marks(content.below("p"@), "bookmark"@),
    ensures
        r.points_total == points.len(),
        r.spans_start == starts.len(),
        r.spans_end == ends.len(),
        r.spans_closed == starts.filter(
            |m: Mark| pairs(m.node.attr_text("name"@), words_of(ends, "name"@)),
        ).len(),
        r.starts_without_end == starts.len() - r.spans_closed,
        r.ends_without_start == ends.len() - ends.filter(
            |m: Mark| pairs(m.node.attr_text("name"@), words_of(starts, "name"@)),
        ).len(),
        0 <= i < r.points@.len() ==> !r.points@[i].paired && r.points@[i].paragraph
            == points[i].paragraph,
        0 <= i < r.span_starts@.len() ==> r.span_starts@[i].describes(
            starts[i],
            "name"@,
            words_of(ends, "name"@),
        ),
        0 <= i < r.span_ends@.len() ==> r.span_ends@[i].describes(
            ends[i],
            "name"@,
            words_of(starts, "name"@),
        ),
        r.names.describes(words_of(points, "name"@) + words_of(starts, "name"@)),
{
    let a = words_of(starts, "name"@);
    let b = words_of(ends, "name"@);
    crate::lists::law_a_tally_is_how_many_pass(
        starts,
        |i: int| pairs(a[i], b),
        |m: Mark| pairs(m.node.attr_text("name"@), b),
    );
    crate::lists::law_a_tally_is_how_many_pass(
        ends,
        |i: int| pairs(b[i], a),
        |m: Mark| pairs(m.node.attr_text("name"@), a),
    );
    if 0 <= i < r.points@.len() {
        assert(r.points@[i].describes(points[i], "name"@, Seq::empty()));
    }
}

/// A name is a duplicate where it stands more than once; the marks with a name are counted.
pub proof fn law_which_names_are_duplicates(r: Names, s: Seq<Option<Seq<char>>>, n: int)
    requires
        r.describes(s),
        0 <= n < names_used(s, s.len() as int).len(),
    ensures
        r.total == s.filter(|x: Option<Seq<char>>| x is Some).len(),
        texts(r.distinct@) == names_used(s, s.len() as int),
        ({
            let name = names_used(s, s.len() as int)[n];
            let often = s.filter(|x: Option<Seq<char>>| x == Some(name)).len();
            &&& often >= 2 ==> repeated(s, n + 1) == repeated(s, n).push(name)
            &&& often < 2 ==> repeated(s, n + 1) == repeated(s, n)
        }),
        texts(r.duplicate@) == repeated(s, names_used(s, s.len() as int).len() as int),
{
    crate::lists::law_a_tally_is_how_many_pass(
        s,
        |i: int| s[i] is Some,
        |x: Option<Seq<char>>| x is Some,
    );
    let name = names_used(s, s.len() as int)[n];
    crate::lists::law_a_tally_is_how_many_pass(
        s,
        |i: int| s[i] == Some(name),
        |x: Option<Seq<char>>| x == Some(name),
    );
}

/// Marks that stand in no paragraph are those of the body that are not among the marks of its
/// paragraphs.
pub proof fn law_which_marks_stand_outside(r: PairReport, body: Node, limit: usize)
    requires
        r.describes(body, limit),
    ensures
        ({
            let all = body.below("bookmarkStart"@).len() + body.below("bookmarkEnd"@).len();
            let told = r.starts_total + r.ends_total;
            &&& all >= told ==> r.marks_outside_paragraphs == all - told
            &&& all < told ==> r.marks_outside_paragraphs == 0
        }),
{
}

} // verus!
