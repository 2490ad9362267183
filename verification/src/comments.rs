//! The remarks of a document: who made them, when, what they say, and where they are anchored.
//!
//! A WordprocessingML document keeps the remarks in a part of their own and only numbers in the
//! text. The order of the part need not be that of the text. An OpenDocument text keeps each
//! remark in the paragraph that it speaks of, and the paragraphs of remarks are paragraphs too.

use crate::lists::{at_most, count_those, cut, each, ints, joined, pick_those, tally, those};
use crate::text::{string_together, strung, texts};
use crate::words::{trim, trimmed};
use crate::written::{
    ask_some, below_in, find_in, lists, node_in, once_each, owned, pick_once, some_say, text_in,
};
use crate::xml::{nodes, Node};
use vstd::prelude::*;

verus! {

broadcast use {crate::text::lemma_texts_push, crate::xml::lemma_nodes_push};

/// The lines one after another, with a line feed between each two.
pub open spec fn lined(s: Seq<Seq<char>>) -> Seq<char> {
    strung(s, "\n"@)
}

/// The lines one after another, with a line feed between each two.
pub fn join_lines(v: &Vec<String>) -> (r: String)
    ensures
        r@ == lined(texts(v@)),
{
    string_together(v, "\n")
}

/// The lines of the remark with that index.
pub open spec fn lines_at(v: Seq<Vec<String>>, i: int) -> Seq<Seq<char>> {
    if 0 <= i < v.len() {
        texts(v[i]@)
    } else {
        Seq::empty()
    }
}

fn text_at(v: &Vec<Vec<String>>, i: usize) -> (r: String)
    ensures
        r@ == lined(lines_at(v@, i as int)),
{
    if i < v.len() {
        join_lines(&v[i])
    } else {
        let none: String = String::new();
        assert(none@ =~= Seq::empty());
        none
    }
}

/// One remark.
#[derive(Debug, Clone)]
pub struct CommentRow {
    pub part_index: usize,
    pub id: Option<String>,
    pub author: Option<String>,
    pub initials: Option<String>,
    pub date: Option<String>,
    pub paragraphs: usize,
    pub text: String,
}

impl CommentRow {
    pub open spec fn describes(self, c: Node, i: int, lines: Seq<Vec<String>>) -> bool {
        &&& self.part_index == i
        &&& text_in(self.id) == c.attr_text("id"@)
        &&& text_in(self.author) == c.attr_text("author"@)
        &&& text_in(self.initials) == c.attr_text("initials"@)
        &&& text_in(self.date) == c.attr_text("date"@)
        &&& self.paragraphs == c.below("p"@).len()
        &&& self.text@ == lined(lines_at(lines, i))
    }
}

fn read_comment(c: &Node, i: usize, lines: &Vec<Vec<String>>) -> (r: CommentRow)
    ensures
        r.describes(*c, i as int, lines@),
{
    let paras: Vec<&Node> = c.descendants("p");
    assert(nodes(paras@).len() == paras@.len());
    CommentRow {
        part_index: i,
        id: owned(c.attr_local("id")),
        author: owned(c.attr_local("author")),
        initials: owned(c.attr_local("initials")),
        date: owned(c.attr_local("date")),
        paragraphs: paras.len(),
        text: text_at(lines, i),
    }
}

/// The numbers that anchors of a kind give in a paragraph.
pub open spec fn anchors_in(p: Node, kind: Seq<char>) -> Seq<Seq<char>> {
    let all = p.below(kind);
    some_say(all, "id"@, all.len() as int)
}

/// The numbers that anchors of a kind give in each paragraph.
pub open spec fn anchors_fn(ps: Seq<Node>, kind: Seq<char>) -> spec_fn(int) -> Seq<Seq<char>> {
    |i: int| anchors_in(ps[i], kind)
}

/// The numbers that anchors of a kind give.
pub open spec fn anchors(ps: Seq<Node>, kind: Seq<char>) -> Seq<Seq<char>> {
    joined(anchors_fn(ps, kind), ps.len() as int)
}

fn read_anchors(p: &Node, kind: &str) -> (r: Vec<String>)
    ensures
        texts(r@) == anchors_in(*p, kind@),
        r@.len() == anchors_in(*p, kind@).len(),
{
    let all: Vec<&Node> = p.descendants(kind);
    assert(nodes(all@).len() == all@.len());
    let r: Vec<String> = ask_some(&all, "id");
    assert(texts(r@).len() == r@.len());
    r
}

fn all_anchors(ps: &Vec<&Node>, kind: &str) -> (r: Vec<String>)
    ensures
        texts(r@) == anchors(nodes(ps@), kind@),
        r@.len() == anchors(nodes(ps@), kind@).len(),
{
    let ghost s = nodes(ps@);
    let mut out: Vec<String> = Vec::new();
    let mut i: usize = 0;
    assert(texts(out@) =~= joined(anchors_fn(s, kind@), 0));
    while i < ps.len()
        invariant
            i <= ps@.len(),
            s == nodes(ps@),
            texts(out@) == joined(anchors_fn(s, kind@), i as int),
        decreases ps@.len() - i,
    {
        assert(s[i as int] == *ps@[i as int]);
        let mut own: Vec<String> = read_anchors(ps[i], kind);
        let ghost had = texts(out@);
        let ghost more = texts(own@);
        out.append(&mut own);
        assert(texts(out@) =~= had + more);
        i += 1;
    }
    assert(texts(out@).len() == out@.len());
    out
}

/// A paragraph that holds anchors.
#[derive(Debug, Clone)]
pub struct HostRow {
    pub paragraph: usize,
    pub ids: Vec<String>,
}

/// The paragraphs that hold anchors.
pub open spec fn hosts(ps: Seq<Node>) -> Seq<int> {
    those(|i: int| anchors_in(ps[i], "commentReference"@).len() > 0, ps.len() as int)
}

/// No anchor gives the number of the remark.
pub open spec fn is_orphan(c: Node, refs: Seq<Seq<char>>) -> bool {
    match c.attr_text("id"@) {
        Some(id) => !refs.contains(id),
        None => true,
    }
}

/// The ids of remarks.
pub open spec fn ids_of(c: Seq<Node>) -> Seq<Seq<char>> {
    some_say(c, "id"@, c.len() as int)
}

/// The numbers that no remark has.
pub open spec fn dangling(refs: Seq<Seq<char>>, ids: Seq<Seq<char>>, n: int) -> Seq<Seq<char>>
    decreases n,
{
    if n <= 0 {
        Seq::empty()
    } else {
        let before = dangling(refs, ids, n - 1);
        if !ids.contains(refs[n - 1]) && !before.contains(refs[n - 1]) {
            before.push(refs[n - 1])
        } else {
            before
        }
    }
}

fn pick_dangling(refs: &Vec<String>, ids: &Vec<String>) -> (r: Vec<String>)
    ensures
        texts(r@) == dangling(texts(refs@), texts(ids@), refs@.len() as int),
{
    let mut out: Vec<String> = Vec::new();
    let mut i: usize = 0;
    assert(texts(out@) =~= dangling(texts(refs@), texts(ids@), 0));
    while i < refs.len()
        invariant
            i <= refs@.len(),
            texts(out@) == dangling(texts(refs@), texts(ids@), i as int),
        decreases refs@.len() - i,
    {
        assert(texts(refs@)[i as int] == refs@[i as int]@);
        if !lists(ids, refs[i].as_str()) && !lists(&out, refs[i].as_str()) {
            out.push(refs[i].clone());
        }
        i += 1;
    }
    out
}

/// The remarks of a document.
#[derive(Debug, Clone)]
pub struct CommentReport {
    pub part_written: bool,
    pub comments_total: usize,
    pub anchor_starts: usize,
    pub anchor_ends: usize,
    pub anchor_references: usize,
    pub range_asymmetric: bool,
    pub orphans_without_anchor: usize,
    pub anchors_without_comment: usize,
    pub distinct_authors: Vec<String>,
    pub comments: Vec<CommentRow>,
    pub hosts: Vec<HostRow>,
}

impl CommentReport {
    /// What is counted.
    pub open spec fn counts(self, part: Option<Node>, ps: Seq<Node>) -> bool {
        let c = below_in(part, "comment"@);
        let refs = anchors(ps, "commentReference"@);
        let authors = some_say(c, "author"@, c.len() as int);
        &&& self.part_written == (part is Some)
        &&& self.comments_total == c.len()
        &&& self.anchor_starts == anchors(ps, "commentRangeStart"@).len()
        &&& self.anchor_ends == anchors(ps, "commentRangeEnd"@).len()
        &&& self.anchor_references == refs.len()
        &&& self.range_asymmetric == (self.anchor_starts != self.anchor_ends)
        &&& self.orphans_without_anchor == tally(|i: int| is_orphan(c[i], refs), c.len() as int)
        &&& self.anchors_without_comment == dangling(refs, ids_of(c), refs.len() as int).len()
        &&& texts(self.distinct_authors@) == once_each(authors, authors.len() as int)
    }

    pub open spec fn describes(
        self,
        body: Node,
        part: Option<Node>,
        lines: Seq<Vec<String>>,
        limit: usize,
    ) -> bool {
        let c = below_in(part, "comment"@);
        let ps = body.below("p"@);
        let h = hosts(ps);
        &&& self.counts(part, ps)
        &&& self.comments@.len() == at_most(c.len(), limit)
        &&& forall|i: int|
            0 <= i < self.comments@.len() ==> (#[trigger] self.comments@[i]).describes(
                c[i],
                i,
                lines,
            )
        &&& self.hosts@.len() == at_most(h.len(), limit)
        &&& forall|i: int|
            0 <= i < self.hosts@.len() ==> (#[trigger] self.hosts@[i]).paragraph == h[i] && texts(
                self.hosts@[i].ids@,
            ) == anchors_in(ps[h[i]], "commentReference"@)
    }
}

fn read_hosts(ps: &Vec<&Node>, limit: usize) -> (r: Vec<HostRow>)
    ensures
        r@.len() == at_most(hosts(nodes(ps@)).len(), limit),
        forall|i: int|
            0 <= i < r@.len() ==> (#[trigger] r@[i]).paragraph == hosts(nodes(ps@))[i] && texts(
                r@[i].ids@,
            ) == anchors_in(nodes(ps@)[hosts(nodes(ps@))[i]], "commentReference"@),
{
    let ghost s = nodes(ps@);
    let n: usize = ps.len();
    assert(s.len() == n);
    let which: Vec<usize> = pick_those(
        n,
        |i: usize| -> (b: bool)
            requires
                i < n
            ensures
                b == (anchors_in(s[i as int], "commentReference"@).len() > 0)
            { read_anchors(ps[i], "commentReference").len() > 0 },
        Ghost(|i: int| anchors_in(s[i], "commentReference"@).len() > 0),
    );
    assert(ints(which@).len() == which@.len());
    let out: Vec<HostRow> = each(
        &which,
        cut(which.len(), limit),
        |at: usize, i: &usize| -> (r: HostRow)
            requires
                *i < n
            ensures
                r.paragraph == *i,
                texts(r.ids@) == anchors_in(s[*i as int], "commentReference"@)
            { HostRow { paragraph: *i, ids: read_anchors(ps[*i], "commentReference") } },
    );
    assert forall|k: int| 0 <= k < out@.len() implies (#[trigger] out@[k]).paragraph == hosts(
        s,
    )[k] && texts(out@[k].ids@) == anchors_in(s[hosts(s)[k]], "commentReference"@) by {
        assert(ints(which@)[k] == which@[k] as int);
    }
    out
}

/// The remarks of a document, from its body and the part with the remarks. `lines` holds the
/// texts of the paragraphs of each remark. Lists are cut to `limit`.
pub fn docx(body: &Node, part: Option<&Node>, lines: &Vec<Vec<String>>, limit: usize) -> (r:
    CommentReport)
    ensures
        r.describes(*body, node_in(part), lines@, limit),
{
    let found: Vec<&Node> = find_in(part, "comment");
    let ghost c = nodes(found@);
    let ps: Vec<&Node> = body.descendants("p");
    let refs: Vec<String> = all_anchors(&ps, "commentReference");
    let starts: Vec<String> = all_anchors(&ps, "commentRangeStart");
    let ends: Vec<String> = all_anchors(&ps, "commentRangeEnd");
    let n: usize = found.len();
    let ghost want = texts(refs@);
    let orphans_without_anchor: usize = count_those(
        n,
        |i: usize| -> (b: bool)
            requires
                i < found@.len()
            ensures
                b == is_orphan(c[i as int], want)
            {
                match found[i].attr_local("id") {
                    Some(id) => !lists(&refs, id),
                    None => true,
                }
            },
        Ghost(|i: int| is_orphan(c[i], want)),
    );
    let ids: Vec<String> = ask_some(&found, "id");
    let loose: Vec<String> = pick_dangling(&refs, &ids);
    assert(texts(loose@).len() == loose@.len());
    let authors: Vec<String> = ask_some(&found, "author");
    assert(texts(authors@).len() == authors@.len());
    let comments: Vec<CommentRow> = each(
        &found,
        cut(n, limit),
        |i: usize, x: &&Node| -> (r: CommentRow)
            ensures
                r.describes(**x, i as int, lines@)
            { read_comment(x, i, lines) },
    );
    assert forall|i: int| 0 <= i < comments@.len() implies (#[trigger] comments@[i]).describes(
        c[i],
        i,
        lines@,
    ) by {
        assert(c[i] == *found@[i]);
    }
    CommentReport {
        part_written: part.is_some(),
        comments_total: n,
        anchor_starts: starts.len(),
        anchor_ends: ends.len(),
        anchor_references: refs.len(),
        range_asymmetric: starts.len() != ends.len(),
        orphans_without_anchor,
        anchors_without_comment: loose.len(),
        distinct_authors: pick_once(&authors),
        comments,
        hosts: read_hosts(&ps, limit),
    }
}

/// A remark and the paragraph that holds it.
pub struct Hosted {
    pub node: Node,
    pub host: int,
}

/// The remarks of each paragraph.
pub open spec fn hosted_fn(ps: Seq<Node>) -> spec_fn(int) -> Seq<Hosted> {
    |i: int|
        Seq::new(
            ps[i].below("annotation"@).len(),
            |k: int| Hosted { node: ps[i].below("annotation"@)[k], host: i },
        )
}

/// The remarks of a list of paragraphs.
pub open spec fn hosted(ps: Seq<Node>) -> Seq<Hosted> {
    joined(hosted_fn(ps), ps.len() as int)
}

/// A remark and the paragraph that holds it.
struct Seen<'a> {
    node: &'a Node,
    host: usize,
}

impl Seen<'_> {
    spec fn hosted(self) -> Hosted {
        Hosted { node: *self.node, host: self.host as int }
    }
}

spec fn seen(v: Seq<Seen>) -> Seq<Hosted> {
    Seq::new(v.len(), |i: int| v[i].hosted())
}

/// What a child says, without the blanks round it.
pub open spec fn told(n: Node, want: Seq<char>) -> Option<Seq<char>> {
    match n.child_of(want) {
        Some(k) => Some(trimmed(k.full_text())),
        None => None,
    }
}

fn tell(n: &Node, want: &str) -> (r: Option<String>)
    ensures
        text_in(r) == told(*n, want@),
{
    match n.child(want) {
        Some(k) => {
            let all: String = k.text();
            Some(trim(all.as_str()).to_owned())
        },
        None => None,
    }
}

/// One remark of a text.
#[derive(Debug, Clone)]
pub struct RemarkRow {
    pub order: usize,
    pub host_paragraph: usize,
    pub creator: Option<String>,
    pub date: Option<String>,
    pub paragraphs: usize,
    pub text: String,
}

impl RemarkRow {
    pub open spec fn describes(self, h: Hosted, i: int, lines: Seq<Vec<String>>) -> bool {
        &&& self.order == i
        &&& self.host_paragraph == h.host
        &&& text_in(self.creator) == told(h.node, "creator"@)
        &&& text_in(self.date) == told(h.node, "date"@)
        &&& self.paragraphs == h.node.below("p"@).len()
        &&& self.text@ == lined(lines_at(lines, i))
    }
}

fn read_remark(x: &Seen, i: usize, lines: &Vec<Vec<String>>) -> (r: RemarkRow)
    ensures
        r.describes(x.hosted(), i as int, lines@),
{
    let paras: Vec<&Node> = x.node.descendants("p");
    assert(nodes(paras@).len() == paras@.len());
    RemarkRow {
        order: i,
        host_paragraph: x.host,
        creator: tell(x.node, "creator"),
        date: tell(x.node, "date"),
        paragraphs: paras.len(),
        text: text_at(lines, i),
    }
}

/// The paragraphs of each remark.
pub open spec fn within_fn(h: Seq<Hosted>) -> spec_fn(int) -> Seq<Node> {
    |i: int| h[i].node.below("p"@)
}

/// Who made remarks.
pub open spec fn creators(h: Seq<Hosted>, n: int) -> Seq<Seq<char>>
    decreases n,
{
    if n <= 0 {
        Seq::empty()
    } else {
        match told(h[n - 1].node, "creator"@) {
            Some(t) => creators(h, n - 1).push(t),
            None => creators(h, n - 1),
        }
    }
}

/// The remarks of a text.
#[derive(Debug, Clone)]
pub struct RemarkReport {
    pub annotations_total: usize,
    pub paragraphs_total: usize,
    pub paragraphs_in_annotations: usize,
    /// Nothing where remarks within remarks are told more than once.
    pub paragraphs_body_only: Option<usize>,
    pub distinct_creators: Vec<String>,
    pub annotations: Vec<RemarkRow>,
}

impl RemarkReport {
    pub open spec fn describes(self, root: Node, lines: Seq<Vec<String>>, limit: usize) -> bool {
        let ps = root.below("p"@);
        let h = hosted(ps);
        let within = joined(within_fn(h), h.len() as int).len();
        let made = creators(h, h.len() as int);
        &&& self.annotations_total == h.len()
        &&& self.paragraphs_total == ps.len()
        &&& self.paragraphs_in_annotations == within
        &&& match self.paragraphs_body_only {
            Some(n) => n == ps.len() - within,
            None => within > ps.len(),
        }
        &&& texts(self.distinct_creators@) == once_each(made, made.len() as int)
        &&& self.annotations@.len() == at_most(h.len(), limit)
        &&& forall|i: int|
            0 <= i < self.annotations@.len() ==> (#[trigger] self.annotations@[i]).describes(
                h[i],
                i,
                lines,
            )
    }
}

fn all_hosted<'a>(ps: &Vec<&'a Node>) -> (r: Vec<Seen<'a>>)
    ensures
        seen(r@) == hosted(nodes(ps@)),
{
    let ghost s = nodes(ps@);
    let mut out: Vec<Seen<'a>> = Vec::new();
    let mut i: usize = 0;
    assert(seen(out@) =~= joined(hosted_fn(s), 0));
    while i < ps.len()
        invariant
            i <= ps@.len(),
            s == nodes(ps@),
            seen(out@) == joined(hosted_fn(s), i as int),
        decreases ps@.len() - i,
    {
        assert(s[i as int] == *ps@[i as int]);
        let found: Vec<&'a Node> = ps[i].descendants("annotation");
        assert(nodes(found@).len() == found@.len());
        let ghost before = seen(out@);
        let mut own: Vec<Seen<'a>> = each(
            &found,
            found.len(),
            |k: usize, x: &&'a Node| -> (r: Seen<'a>)
                ensures
                    *r.node == **x,
                    r.host == i
                { Seen { node: *x, host: i } },
        );
        assert(seen(own@) =~= hosted_fn(s)(i as int)) by {
            assert forall|k: int| 0 <= k < own@.len() implies (#[trigger] own@[k]).hosted()
                == hosted_fn(s)(i as int)[k] by {
                assert(nodes(found@)[k] == *found@[k]);
            }
        }
        let ghost more = seen(own@);
        out.append(&mut own);
        assert(seen(out@) =~= before + more);
        i += 1;
    }
    out
}

/// The remarks of a text. `lines` holds the texts of the paragraphs of each remark. The list is
/// cut to `limit`.
pub fn odf(root: &Node, lines: &Vec<Vec<String>>, limit: usize) -> (r: RemarkReport)
    ensures
        r.describes(*root, lines@, limit),
{
    let ps: Vec<&Node> = root.descendants("p");
    assert(nodes(ps@).len() == ps@.len());
    let all: Vec<Seen> = all_hosted(&ps);
    let ghost h = hosted(nodes(ps@));
    assert(seen(all@) == h);
    assert(seen(all@).len() == all@.len());
    let mut within: Vec<&Node> = Vec::new();
    let mut made: Vec<String> = Vec::new();
    let mut i: usize = 0;
    assert(nodes(within@) =~= joined(within_fn(h), 0));
    assert(texts(made@) =~= creators(h, 0));
    while i < all.len()
        invariant
            i <= all@.len(),
            h == seen(all@),
            nodes(within@) == joined(within_fn(h), i as int),
            texts(made@) == creators(h, i as int),
        decreases all@.len() - i,
    {
        assert(h[i as int] == all@[i as int].hosted());
        let mut own: Vec<&Node> = all[i].node.descendants("p");
        let ghost had = nodes(within@);
        let ghost more = nodes(own@);
        within.append(&mut own);
        assert(nodes(within@) =~= had + more);
        if let Some(t) = tell(all[i].node, "creator") {
            made.push(t);
        }
        i += 1;
    }
    assert(nodes(within@).len() == within@.len());
    assert(texts(made@).len() == made@.len());
    let paragraphs_body_only: Option<usize> = if within.len() <= ps.len() {
        Some(ps.len() - within.len())
    } else {
        None
    };
    let annotations: Vec<RemarkRow> = each(
        &all,
        cut(all.len(), limit),
        |i: usize, x: &Seen| -> (r: RemarkRow)
            ensures
                r.describes(x.hosted(), i as int, lines@)
            { read_remark(x, i, lines) },
    );
    assert forall|i: int| 0 <= i < annotations@.len() implies (
    #[trigger] annotations@[i]).describes(h[i], i, lines@) by {
        assert(h[i] == all@[i].hosted());
    }
    RemarkReport {
        annotations_total: all.len(),
        paragraphs_total: ps.len(),
        paragraphs_in_annotations: within.len(),
        paragraphs_body_only,
        distinct_creators: pick_once(&made),
        annotations,
    }
}

/// What is told of a remark: what it writes, how many paragraphs it has, and the lines of its text
/// with a line feed between two.
pub proof fn law_what_a_remark_says(r: CommentRow, c: Node, i: int, lines: Seq<Vec<String>>)
    requires
        r.describes(c, i, lines),
    ensures
        r.part_index == i,
        text_in(r.id) == c.attr_text("id"@),
        text_in(r.author) == c.attr_text("author"@),
        text_in(r.initials) == c.attr_text("initials"@),
        text_in(r.date) == c.attr_text("date"@),
        r.paragraphs == c.below("p"@).len(),
        0 <= i < lines.len() ==> r.text@ == strung(texts(lines[i]@), seq!['\n']),
        i >= lines.len() ==> r.text@.len() == 0,
{
    reveal_strlit("\n");
    assert("\n"@ =~= seq!['\n']);
}

/// A remark has no anchor where none gives its number, or where it has none itself.
pub proof fn law_which_remarks_have_no_anchor(c: Node, refs: Seq<Seq<char>>)
    ensures
        c.attr_text("id"@) is None ==> is_orphan(c, refs),
        c.attr_text("id"@) matches Some(id) ==> (is_orphan(c, refs) <==> !refs.contains(id)),
{
}

/// A number that no remark has is told once, where it first stands.
pub proof fn law_which_anchors_dangle(refs: Seq<Seq<char>>, ids: Seq<Seq<char>>, n: int)
    requires
        0 <= n < refs.len(),
    ensures
        dangling(refs, ids, 0).len() == 0,
        ids.contains(refs[n]) ==> dangling(refs, ids, n + 1) == dangling(refs, ids, n),
        !ids.contains(refs[n]) && (forall|k: int| 0 <= k < n ==> #[trigger] refs[k] != refs[n])
            ==> dangling(refs, ids, n + 1) == dangling(refs, ids, n).push(refs[n]),
        !ids.contains(refs[n]) && (exists|k: int| 0 <= k < n && #[trigger] refs[k] == refs[n])
            ==> dangling(refs, ids, n + 1) == dangling(refs, ids, n),
{
    if !ids.contains(refs[n]) {
        lemma_dangling(refs, ids, n, refs[n]);
    }
}

proof fn lemma_dangling(refs: Seq<Seq<char>>, ids: Seq<Seq<char>>, n: int, one: Seq<char>)
    requires
        0 <= n <= refs.len(),
        !ids.contains(one),
    ensures
        dangling(refs, ids, n).contains(one) == (exists|k: int|
            0 <= k < n && #[trigger] refs[k] == one),
    decreases n,
{
    if n > 0 {
        lemma_dangling(refs, ids, n - 1, one);
        let before = dangling(refs, ids, n - 1);
        let all = dangling(refs, ids, n);
        if !ids.contains(refs[n - 1]) && !before.contains(refs[n - 1]) {
            assert(all == before.push(refs[n - 1]));
            assert(all[before.len() as int] == refs[n - 1]);
            if before.contains(one) {
                let j = choose|j: int| 0 <= j < before.len() && before[j] == one;
                assert(all[j] == one);
            }
            if all.contains(one) {
                let j = choose|j: int| 0 <= j < all.len() && all[j] == one;
                if j < before.len() {
                    assert(before[j] == one);
                }
            }
        }
        if refs[n - 1] == one {
            assert(refs[n - 1] == one);
        }
    }
}

/// Each number of the report: the remarks of the part, the anchors of each of three kinds in the
/// paragraphs of the body, and those of both that stand alone.
pub proof fn law_what_remarks_are_counted_for(
    r: CommentReport,
    part: Option<Node>,
    ps: Seq<Node>,
    c: Seq<Node>,
    refs: Seq<Seq<char>>,
)
    requires
        r.counts(part, ps),
        c == below_in(part, "comment"@),
        refs == anchors(ps, "commentReference"@),
    ensures
        r.part_written <==> part is Some,
        r.comments_total == c.len(),
        r.anchor_starts == anchors(ps, "commentRangeStart"@).len(),
        r.anchor_ends == anchors(ps, "commentRangeEnd"@).len(),
        r.anchor_references == refs.len(),
        r.range_asymmetric <==> r.anchor_starts != r.anchor_ends,
        r.orphans_without_anchor == c.filter(|n: Node| is_orphan(n, refs)).len(),
        r.anchors_without_comment == dangling(
            refs,
            some_say(c, "id"@, c.len() as int),
            refs.len() as int,
        ).len(),
        texts(r.distinct_authors@) == once_each(
            some_say(c, "author"@, c.len() as int),
            some_say(c, "author"@, c.len() as int).len() as int,
        ),
{
    crate::lists::law_a_tally_is_how_many_pass(
        c,
        |i: int| is_orphan(c[i], refs),
        |n: Node| is_orphan(n, refs),
    );
}

/// The anchors of a kind give their numbers paragraph by paragraph, and the paragraphs that hold
/// references are told with theirs.
pub proof fn law_where_anchors_stand(
    r: CommentReport,
    body: Node,
    part: Option<Node>,
    lines: Seq<Vec<String>>,
    limit: usize,
    i: int,
    kind: Seq<char>,
    n: int,
)
    requires
        r.describes(body, part, lines, limit),
        0 <= n,
    ensures
        0 <= i < r.hosts@.len() ==> {
            let k = r.hosts@[i].paragraph as int;
            let all = body.below("p"@)[k].below("commentReference"@);
            &&& k < body.below("p"@).len()
            &&& texts(r.hosts@[i].ids@) == some_say(all, "id"@, all.len() as int)
            &&& r.hosts@[i].ids@.len() > 0
        },
        joined(anchors_fn(body.below("p"@), kind), n + 1) == joined(
            anchors_fn(body.below("p"@), kind),
            n,
        ) + some_say(
            body.below("p"@)[n].below(kind),
            "id"@,
            body.below("p"@)[n].below(kind).len() as int,
        ),
        0 <= i < r.comments@.len() ==> r.comments@[i].describes(
            below_in(part, "comment"@)[i],
            i,
            lines,
        ),
{
    let ps = body.below("p"@);
    crate::lists::law_lists_are_joined_in_order(anchors_fn(ps, kind), n);
    let q = |i: int| anchors_in(ps[i], "commentReference"@).len() > 0;
    crate::lists::law_those_are_all_that_satisfy(q, ps.len() as int);
    if 0 <= i < r.hosts@.len() {
        assert(r.hosts@[i].paragraph == hosts(ps)[i]);
        assert(q(those(q, ps.len() as int)[i]));
        assert(texts(r.hosts@[i].ids@).len() == r.hosts@[i].ids@.len());
    }
}

/// What is told of a remark of a text: the paragraph that holds it, who made it and when, without
/// blanks round what it says, and its text.
pub proof fn law_what_a_remark_of_a_text_says(r: RemarkRow, h: Hosted, i: int, lines: Seq<Vec<String>>)
    requires
        r.describes(h, i, lines),
    ensures
        r.order == i,
        r.host_paragraph == h.host,
        h.node.child_of("creator"@) is None ==> r.creator is None,
        h.node.child_of("creator"@) matches Some(k) ==> text_in(r.creator) == Some(
            trimmed(k.full_text()),
        ),
        h.node.child_of("date"@) is None ==> r.date is None,
        h.node.child_of("date"@) matches Some(k) ==> text_in(r.date) == Some(trimmed(k.full_text())),
        r.paragraphs == h.node.below("p"@).len(),
        0 <= i < lines.len() ==> r.text@ == strung(texts(lines[i]@), seq!['\n']),
{
    reveal_strlit("\n");
    assert("\n"@ =~= seq!['\n']);
}

/// The remarks of a text are those below each paragraph, and what is left of all paragraphs
/// without those in remarks is told where it is not less than nothing.
pub proof fn law_what_remarks_of_a_text_are_counted_for(
    r: RemarkReport,
    root: Node,
    lines: Seq<Vec<String>>,
    limit: usize,
    h: Seq<Hosted>,
    n: int,
    k: int,
)
    requires
        r.describes(root, lines, limit),
        h == hosted(root.below("p"@)),
        0 <= n < root.below("p"@).len(),
        0 <= k < root.below("p"@)[n].below("annotation"@).len(),
    ensures
        r.annotations_total == h.len(),
        r.paragraphs_total == root.below("p"@).len(),
        r.paragraphs_in_annotations <= r.paragraphs_total ==> r.paragraphs_body_only == Some(
            (r.paragraphs_total - r.paragraphs_in_annotations) as usize,
        ),
        r.paragraphs_in_annotations > r.paragraphs_total ==> r.paragraphs_body_only is None,
        joined(hosted_fn(root.below("p"@)), n + 1)[joined(hosted_fn(root.below("p"@)), n).len() + k]
            == (Hosted { node: root.below("p"@)[n].below("annotation"@)[k], host: n }),
        r.annotations@.len() == limit || r.annotations@.len() == h.len(),
{
    crate::lists::law_lists_are_joined_in_order(hosted_fn(root.below("p"@)), n);
}

/// The makers that are told are those of the remarks, each once; the remarks are told in order, no
/// more than asked for.
pub proof fn law_which_makers_are_told(
    r: RemarkReport,
    root: Node,
    lines: Seq<Vec<String>>,
    limit: usize,
)
    requires
        r.describes(root, lines, limit),
    ensures
        ({
            let h = hosted(root.below("p"@));
            let made = creators(h, h.len() as int);
            &&& texts(r.distinct_creators@) == once_each(made, made.len() as int)
            &&& r.annotations_total == h.len()
            &&& r.annotations@.len() == limit || r.annotations@.len() == h.len()
            &&& r.annotations@.len() <= limit
        }),
{
}

} // verus!
