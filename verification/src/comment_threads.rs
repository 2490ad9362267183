//! Which remarks are settled, and which answer which.
//!
//! A WordprocessingML document tells it in two further parts that point at a paragraph inside the
//! remark. Either step can lead nowhere. In an OpenDocument text the remark itself says whether it
//! is settled, and there is no place for an answer.

use crate::lists::{at_most, count_those, each, first, first_from, tally};
use crate::odf::{all_held, everywhere, look_everywhere, Found, Held, Part};
use crate::text::{same, texts};
use crate::written::{
    ask, below_in, each_says, find_below, find_by, find_in, find_node, first_below, lists, node_in,
    owned, said_by, says, text_in,
};
use crate::xml::{nodes, Node};
use vstd::prelude::*;

verus! {

broadcast use {crate::text::lemma_texts_push, crate::xml::lemma_nodes_push};

/// The three parts that speak of remarks.
pub struct Threads {
    pub comments: Seq<Node>,
    pub ext: Seq<Node>,
    pub ids: Seq<Node>,
}

/// The number of the paragraph in a remark by which the other parts name it.
pub open spec fn para_id(c: Node) -> Option<Seq<char>> {
    said_by(first_below(c, "p"@), "paraId"@)
}

fn read_para_id(c: &Node) -> (r: Option<String>)
    ensures
        text_in(r) == para_id(*c),
{
    ask(find_below(c, "p"), "paraId")
}

/// The element that speaks of a paragraph.
pub open spec fn speaking(c: Seq<Node>, id: Option<Seq<char>>) -> Option<Node> {
    match id {
        Some(t) => find_by(c, "paraId"@, t),
        None => None,
    }
}

fn find_speaking<'a>(c: &Vec<&'a Node>, id: &Option<String>) -> (r: Option<&'a Node>)
    ensures
        node_in(r) == speaking(nodes(c@), text_in(*id)),
{
    match id {
        Some(t) => find_node(c, "paraId", t.as_str()),
        None => None,
    }
}

/// What is said further of a remark.
pub open spec fn further(t: Threads, i: int) -> Option<Node> {
    speaking(t.ext, para_id(t.comments[i]))
}

/// Whether a remark is settled, as written.
pub open spec fn done_in(t: Threads, i: int) -> Option<Seq<char>> {
    said_by(further(t, i), "done"@)
}

/// The paragraph that a remark answers.
pub open spec fn parent_in(t: Threads, i: int) -> Option<Seq<char>> {
    said_by(further(t, i), "paraIdParent"@)
}

/// The first remark with that paragraph.
pub open spec fn owner_of(c: Seq<Node>, id: Option<Seq<char>>) -> Option<int> {
    match id {
        Some(t) => first(c, |n: Node| para_id(n) == Some(t)),
        None => None,
    }
}

fn find_owner(c: &Vec<&Node>, id: &Option<String>) -> (r: Option<usize>)
    ensures
        match r {
            Some(i) => owner_of(nodes(c@), text_in(*id)) == Some(i as int),
            None => owner_of(nodes(c@), text_in(*id)) is None,
        },
{
    let want: &String = match id {
        Some(t) => t,
        None => {
            return None;
        },
    };
    let ghost s = nodes(c@);
    let ghost w = want@;
    let ghost p = |n: Node| para_id(n) == Some(w);
    let mut i: usize = 0;
    while i < c.len()
        invariant
            i <= c@.len(),
            s == nodes(c@),
            w == want@,
            text_in(*id) == Some(w),
            p == (|n: Node| para_id(n) == Some(w)),
            first(s, p) == first_from(s, p, i as int),
        decreases c@.len() - i,
    {
        assert(s[i as int] == *c@[i as int]);
        if says(&read_para_id(c[i]), want.as_str()) {
            return Some(i);
        }
        i += 1;
    }
    None
}

/// One remark.
#[derive(Debug, Clone)]
pub struct ThreadRow {
    pub index: usize,
    pub id: Option<String>,
    pub author: Option<String>,
    pub para_id: Option<String>,
    pub ex_found: bool,
    pub done_written: Option<String>,
    pub parent_para_id: Option<String>,
    /// Which remark of the list it answers.
    pub replies_to: Option<usize>,
    pub durable_id: Option<String>,
}

impl ThreadRow {
    pub open spec fn describes(self, t: Threads, i: int) -> bool {
        let c = t.comments[i];
        &&& self.index == i
        &&& text_in(self.id) == c.attr_text("id"@)
        &&& text_in(self.author) == c.attr_text("author"@)
        &&& text_in(self.para_id) == para_id(c)
        &&& self.ex_found == (further(t, i) is Some)
        &&& text_in(self.done_written) == done_in(t, i)
        &&& text_in(self.parent_para_id) == parent_in(t, i)
        &&& match self.replies_to {
            Some(k) => owner_of(t.comments, parent_in(t, i)) == Some(k as int),
            None => owner_of(t.comments, parent_in(t, i)) is None,
        }
        &&& text_in(self.durable_id) == said_by(speaking(t.ids, para_id(c)), "durableId"@)
    }

    /// Whether the remark is settled, where it says so.
    pub fn done(&self) -> (r: Option<bool>)
        ensures
            r == match text_in(self.done_written) {
                Some(t) => Some(t == "1"@),
                None => None,
            },
    {
        match &self.done_written {
            Some(t) => Some(same(t.as_str(), "1")),
            None => None,
        }
    }
}

/// The parts that speak of remarks.
struct Shelf<'a> {
    comments: Vec<&'a Node>,
    ext: Vec<&'a Node>,
    ids: Vec<&'a Node>,
}

impl Shelf<'_> {
    spec fn model(self) -> Threads {
        Threads {
            comments: nodes(self.comments@),
            ext: nodes(self.ext@),
            ids: nodes(self.ids@),
        }
    }

    fn row(&self, i: usize) -> (r: ThreadRow)
        requires
            i < self.comments@.len(),
        ensures
            r.describes(self.model(), i as int),
    {
        let c: &Node = self.comments[i];
        let pid: Option<String> = read_para_id(c);
        let holder: Option<&Node> = find_speaking(&self.ext, &pid);
        let parent: Option<String> = ask(holder, "paraIdParent");
        let replies_to: Option<usize> = find_owner(&self.comments, &parent);
        let durable_id: Option<String> = ask(find_speaking(&self.ids, &pid), "durableId");
        ThreadRow {
            index: i,
            id: owned(c.attr_local("id")),
            author: owned(c.attr_local("author")),
            para_id: pid,
            ex_found: holder.is_some(),
            done_written: ask(holder, "done"),
            parent_para_id: parent,
            replies_to,
            durable_id,
        }
    }
}

/// The paragraph numbers of the first `n` remarks of which a part speaks, each once.
pub open spec fn matched(c: Seq<Node>, part: Seq<Node>, n: int) -> Seq<Seq<char>>
    decreases n,
{
    if n <= 0 {
        Seq::empty()
    } else {
        let before = matched(c, part, n - 1);
        match para_id(c[n - 1]) {
            Some(id) => if find_by(part, "paraId"@, id) is Some && !before.contains(id) {
                before.push(id)
            } else {
                before
            },
            None => before,
        }
    }
}

proof fn lemma_matched(c: Seq<Node>, part: Seq<Node>, n: int)
    ensures
        matched(c, part, n).no_duplicates(),
        forall|k: int|
            0 <= k < matched(c, part, n).len() ==> each_says(part, "paraId"@).contains(
                Some(#[trigger] matched(c, part, n)[k]),
            ),
    decreases n,
{
    if n > 0 {
        lemma_matched(c, part, n - 1);
        if let Some(id) = para_id(c[n - 1]) {
            if find_by(part, "paraId"@, id) is Some {
                let p = |x: Node| x.attr_text("paraId"@) == Some(id);
                crate::lists::lemma_first_from(part, p, 0);
                let at = first(part, p).unwrap();
                assert(each_says(part, "paraId"@)[at] == Some(id));
            }
        }
    }
}

/// A part speaks of no more remarks than it has elements.
pub proof fn law_matched_are_elements(c: Seq<Node>, part: Seq<Node>, n: int)
    ensures
        matched(c, part, n).len() <= part.len(),
{
    lemma_matched(c, part, n);
    let m = matched(c, part, n);
    let all = each_says(part, "paraId"@);
    let some = Seq::new(m.len(), |i: int| Some(m[i]));
    assert(some.no_duplicates()) by {
        assert forall|i: int, j: int| 0 <= i < some.len() && 0 <= j < some.len() && i != j implies
            some[i] != some[j] by {
            assert(m[i] != m[j]);
        }
    }
    assert(some.to_set().subset_of(all.to_set())) by {
        assert forall|x: Option<Seq<char>>| some.to_set().contains(x) implies all.to_set().contains(
            x,
        ) by {
            let k = choose|k: int| 0 <= k < some.len() && some[k] == x;
            assert(all.contains(Some(m[k])));
        }
    }
    some.unique_seq_to_set();
    all.lemma_cardinality_of_set();
    vstd::set_lib::lemma_len_subset(some.to_set(), all.to_set());
}

fn count_matched(c: &Vec<&Node>, part: &Vec<&Node>) -> (r: usize)
    ensures
        r == matched(nodes(c@), nodes(part@), c@.len() as int).len(),
        r <= part@.len(),
{
    let ghost s = nodes(c@);
    let mut out: Vec<String> = Vec::new();
    let mut i: usize = 0;
    assert(texts(out@) =~= matched(s, nodes(part@), 0));
    while i < c.len()
        invariant
            i <= c@.len(),
            s == nodes(c@),
            texts(out@) == matched(s, nodes(part@), i as int),
        decreases c@.len() - i,
    {
        assert(s[i as int] == *c@[i as int]);
        if let Some(id) = read_para_id(c[i]) {
            if find_node(part, "paraId", id.as_str()).is_some() && !lists(&out, id.as_str()) {
                out.push(id);
            }
        }
        i += 1;
    }
    proof {
        law_matched_are_elements(s, nodes(part@), c@.len() as int);
    }
    assert(texts(out@).len() == out@.len());
    out.len()
}

/// The remarks of a document and how they hang together.
#[derive(Debug, Clone)]
pub struct ThreadReport {
    pub comments_total: usize,
    pub paras_with_para_id: usize,
    pub ext_part_written: bool,
    pub ext_total: usize,
    pub ext_matched: usize,
    pub ext_orphans: usize,
    pub done_written_total: usize,
    pub done_true: usize,
    pub done_false: usize,
    pub ex_without_done: usize,
    pub replies_total: usize,
    pub replies_dangling: usize,
    pub ids_part_written: bool,
    pub ids_total: usize,
    pub ids_matched: usize,
    pub ids_orphans: usize,
    pub threads: Vec<ThreadRow>,
}

impl ThreadReport {
    /// What is counted over the parts.
    pub open spec fn counts_parts(
        self,
        t: Threads,
        ext: Option<Node>,
        ids: Option<Node>,
    ) -> bool {
        let n = t.comments.len() as int;
        &&& self.comments_total == n
        &&& self.ext_part_written == (ext is Some)
        &&& self.ext_total == t.ext.len()
        &&& self.ext_matched == matched(t.comments, t.ext, n).len()
        &&& self.ext_matched + self.ext_orphans == self.ext_total
        &&& self.ids_part_written == (ids is Some)
        &&& self.ids_total == t.ids.len()
        &&& self.ids_matched == matched(t.comments, t.ids, n).len()
        &&& self.ids_matched + self.ids_orphans == self.ids_total
    }

    /// What is counted over the remarks.
    pub open spec fn counts_rows(self, t: Threads) -> bool {
        let n = t.comments.len() as int;
        &&& self.paras_with_para_id == tally(|i: int| para_id(t.comments[i]) is Some, n)
        &&& self.done_written_total == tally(|i: int| done_in(t, i) is Some, n)
        &&& self.done_true == tally(|i: int| done_in(t, i) == Some("1"@), n)
        &&& self.done_false == tally(
            |i: int| done_in(t, i) is Some && done_in(t, i) != Some("1"@),
            n,
        )
        &&& self.ex_without_done == tally(
            |i: int| further(t, i) is Some && done_in(t, i) is None,
            n,
        )
        &&& self.replies_total == tally(|i: int| parent_in(t, i) is Some, n)
        &&& self.replies_dangling == tally(
            |i: int| parent_in(t, i) is Some && owner_of(t.comments, parent_in(t, i)) is None,
            n,
        )
    }

    pub open spec fn describes(
        self,
        comments: Option<Node>,
        ext: Option<Node>,
        ids: Option<Node>,
        limit: usize,
    ) -> bool {
        let t = Threads {
            comments: below_in(comments, "comment"@),
            ext: below_in(ext, "commentEx"@),
            ids: below_in(ids, "commentId"@),
        };
        &&& self.counts_parts(t, ext, ids)
        &&& self.counts_rows(t)
        &&& self.threads@.len() == at_most(t.comments.len(), limit)
        &&& forall|i: int|
            0 <= i < self.threads@.len() ==> (#[trigger] self.threads@[i]).describes(t, i)
    }
}

/// The remarks of a document and how they hang together, from the part with the remarks and the
/// two that speak of them. The list is cut to `limit`.
pub fn docx(
    comments: Option<&Node>,
    extended: Option<&Node>,
    ids: Option<&Node>,
    limit: usize,
) -> (r: ThreadReport)
    ensures
        r.describes(node_in(comments), node_in(extended), node_in(ids), limit),
{
    let s: Shelf = Shelf {
        comments: find_in(comments, "comment"),
        ext: find_in(extended, "commentEx"),
        ids: find_in(ids, "commentId"),
    };
    let ghost t = s.model();
    let n: usize = s.comments.len();
    assert(t.comments.len() == n);
    let rows: Vec<ThreadRow> = each(
        &s.comments,
        n,
        |i: usize, c: &&Node| -> (r: ThreadRow)
            requires
                i < s.comments@.len()
            ensures
                r.describes(t, i as int)
            { s.row(i) },
    );
    let paras_with_para_id: usize = count_those(
        n,
        |i: usize| -> (b: bool)
            requires
                i < rows@.len()
            ensures
                b == (para_id(t.comments[i as int]) is Some)
            { rows[i].para_id.is_some() },
        Ghost(|i: int| para_id(t.comments[i]) is Some),
    );
    let done_written_total: usize = count_those(
        n,
        |i: usize| -> (b: bool)
            requires
                i < rows@.len()
            ensures
                b == (done_in(t, i as int) is Some)
            { rows[i].done_written.is_some() },
        Ghost(|i: int| done_in(t, i) is Some),
    );
    let done_true: usize = count_those(
        n,
        |i: usize| -> (b: bool)
            requires
                i < rows@.len()
            ensures
                b == (done_in(t, i as int) == Some("1"@))
            { rows[i].done() == Some(true) },
        Ghost(|i: int| done_in(t, i) == Some("1"@)),
    );
    let done_false: usize = count_those(
        n,
        |i: usize| -> (b: bool)
            requires
                i < rows@.len()
            ensures
                b == (done_in(t, i as int) is Some && done_in(t, i as int) != Some("1"@))
            { rows[i].done() == Some(false) },
        Ghost(|i: int| done_in(t, i) is Some && done_in(t, i) != Some("1"@)),
    );
    let ex_without_done: usize = count_those(
        n,
        |i: usize| -> (b: bool)
            requires
                i < rows@.len()
            ensures
                b == (further(t, i as int) is Some && done_in(t, i as int) is None)
            { rows[i].ex_found && rows[i].done_written.is_none() },
        Ghost(|i: int| further(t, i) is Some && done_in(t, i) is None),
    );
    let replies_total: usize = count_those(
        n,
        |i: usize| -> (b: bool)
            requires
                i < rows@.len()
            ensures
                b == (parent_in(t, i as int) is Some)
            { rows[i].parent_para_id.is_some() },
        Ghost(|i: int| parent_in(t, i) is Some),
    );
    let replies_dangling: usize = count_those(
        n,
        |i: usize| -> (b: bool)
            requires
                i < rows@.len()
            ensures
                b == (parent_in(t, i as int) is Some && owner_of(
                    t.comments,
                    parent_in(t, i as int),
                ) is None)
            { rows[i].parent_para_id.is_some() && rows[i].replies_to.is_none() },
        Ghost(|i: int| parent_in(t, i) is Some && owner_of(t.comments, parent_in(t, i)) is None),
    );
    let ext_matched: usize = count_matched(&s.comments, &s.ext);
    let ids_matched: usize = count_matched(&s.comments, &s.ids);
    let mut threads: Vec<ThreadRow> = rows;
    if limit < threads.len() {
        threads.truncate(limit);
    }
    ThreadReport {
        comments_total: n,
        paras_with_para_id,
        ext_part_written: extended.is_some(),
        ext_total: s.ext.len(),
        ext_matched,
        ext_orphans: s.ext.len() - ext_matched,
        done_written_total,
        done_true,
        done_false,
        ex_without_done,
        replies_total,
        replies_dangling,
        ids_part_written: ids.is_some(),
        ids_total: s.ids.len(),
        ids_matched,
        ids_orphans: s.ids.len() - ids_matched,
        threads,
    }
}

/// One remark of a text.
#[derive(Debug, Clone)]
pub struct RemarkRow {
    pub index: usize,
    pub part: Part,
    pub name_written: Option<String>,
    pub resolved_written: Option<String>,
    pub resolved: Option<bool>,
}

/// Whether a remark says that it is settled.
pub open spec fn settled(n: Node) -> Option<bool> {
    match n.attr_text("resolved"@) {
        Some(t) => Some(t == "true"@),
        None => None,
    }
}

impl RemarkRow {
    pub open spec fn describes(self, h: Held, i: int) -> bool {
        &&& self.index == i
        &&& self.part == h.part
        &&& text_in(self.name_written) == h.node.attr_text("name"@)
        &&& text_in(self.resolved_written) == h.node.attr_text("resolved"@)
        &&& self.resolved == settled(h.node)
    }
}

fn read_remark(f: &Found, i: usize) -> (r: RemarkRow)
    ensures
        r.describes(f.held(), i as int),
{
    let written: Option<String> = owned(f.node.attr_local("resolved"));
    let resolved: Option<bool> = match &written {
        Some(t) => Some(same(t.as_str(), "true")),
        None => None,
    };
    RemarkRow {
        index: i,
        part: f.part,
        name_written: owned(f.node.attr_local("name")),
        resolved_written: written,
        resolved,
    }
}

/// The remarks of a text.
#[derive(Debug, Clone)]
pub struct RemarkReport {
    pub annotations_total: usize,
    pub in_content: bool,
    pub in_styles: bool,
    pub with_resolved_written: usize,
    pub resolved_true: usize,
    pub resolved_false: usize,
    pub without_resolved: usize,
    pub annotations: Vec<RemarkRow>,
}

impl RemarkReport {
    pub open spec fn describes(self, content: Node, styles: Option<Node>, limit: usize) -> bool {
        let all = everywhere(content, styles, "annotation"@);
        let n = all.len() as int;
        &&& self.annotations_total == n
        &&& self.in_content == (content.below("annotation"@).len() > 0)
        &&& self.in_styles == (below_in(styles, "annotation"@).len() > 0)
        &&& self.with_resolved_written == tally(|i: int| settled(all[i].node) is Some, n)
        &&& self.resolved_true == tally(|i: int| settled(all[i].node) == Some(true), n)
        &&& self.resolved_false == tally(|i: int| settled(all[i].node) == Some(false), n)
        &&& self.without_resolved == tally(|i: int| settled(all[i].node) is None, n)
        &&& self.annotations@.len() == at_most(all.len(), limit)
        &&& forall|i: int|
            0 <= i < self.annotations@.len() ==> (#[trigger] self.annotations@[i]).describes(
                all[i],
                i,
            )
    }
}

/// A remark says that it is settled, that it is not, or nothing, and never two of these.
pub proof fn law_remarks_are_told_once(all: Seq<Held>, n: int)
    requires
        0 <= n,
    ensures
        tally(|i: int| settled(all[i].node) == Some(true), n) + tally(
            |i: int| settled(all[i].node) == Some(false),
            n,
        ) == tally(|i: int| settled(all[i].node) is Some, n),
        tally(|i: int| settled(all[i].node) is Some, n) + tally(
            |i: int| settled(all[i].node) is None,
            n,
        ) == n,
    decreases n,
{
    if n > 0 {
        law_remarks_are_told_once(all, n - 1);
    }
}

/// The remarks of a text and whether they are settled, those of the content first. The list is
/// cut to `limit`.
pub fn odf(content: &Node, styles: Option<&Node>, limit: usize) -> (r: RemarkReport)
    ensures
        r.describes(*content, node_in(styles), limit),
{
    let found: Vec<Found> = look_everywhere(content, styles, "annotation");
    let ghost all = everywhere(*content, node_in(styles), "annotation"@);
    let n: usize = found.len();
    assert(all_held(found@).len() == found@.len());
    let rows: Vec<RemarkRow> = each(
        &found,
        n,
        |i: usize, f: &Found| -> (r: RemarkRow)
            ensures
                r.describes(f.held(), i as int)
            { read_remark(f, i) },
    );
    assert forall|i: int| 0 <= i < n implies (#[trigger] rows@[i]).describes(all[i], i) by {
        assert(all_held(found@)[i] == found@[i].held());
    }
    let resolved_true: usize = count_those(
        n,
        |i: usize| -> (b: bool)
            requires
                i < rows@.len()
            ensures
                b == (settled(all[i as int].node) == Some(true))
            { rows[i].resolved == Some(true) },
        Ghost(|i: int| settled(all[i].node) == Some(true)),
    );
    let resolved_false: usize = count_those(
        n,
        |i: usize| -> (b: bool)
            requires
                i < rows@.len()
            ensures
                b == (settled(all[i as int].node) == Some(false))
            { rows[i].resolved == Some(false) },
        Ghost(|i: int| settled(all[i].node) == Some(false)),
    );
    let with_resolved_written: usize = count_those(
        n,
        |i: usize| -> (b: bool)
            requires
                i < rows@.len()
            ensures
                b == (settled(all[i as int].node) is Some)
            { rows[i].resolved.is_some() },
        Ghost(|i: int| settled(all[i].node) is Some),
    );
    proof {
        law_remarks_are_told_once(all, n as int);
    }
    let in_content: bool = content.descendants("annotation").len() > 0;
    let in_styles: bool = find_in(styles, "annotation").len() > 0;
    let mut annotations: Vec<RemarkRow> = rows;
    if limit < annotations.len() {
        annotations.truncate(limit);
    }
    RemarkReport {
        annotations_total: n,
        in_content,
        in_styles,
        with_resolved_written,
        resolved_true,
        resolved_false,
        without_resolved: n - with_resolved_written,
        annotations,
    }
}

/// A remark is named by the number of the first paragraph in it.
pub proof fn law_by_what_a_remark_is_named(c: Node)
    ensures
        c.below("p"@).len() == 0 ==> para_id(c) is None,
        c.below("p"@).len() > 0 ==> para_id(c) == c.below("p"@)[0].attr_text("paraId"@),
{
}

/// What is told of a remark: what it writes itself, and what the first elements that speak of its
/// paragraph write; it answers the first remark with the paragraph that is named.
pub proof fn law_what_a_remark_says(r: ThreadRow, t: Threads, i: int, ex: Node, k: int)
    requires
        r.describes(t, i),
    ensures
        r.index == i,
        text_in(r.id) == t.comments[i].attr_text("id"@),
        text_in(r.author) == t.comments[i].attr_text("author"@),
        text_in(r.para_id) == para_id(t.comments[i]),
        r.ex_found <==> further(t, i) is Some,
        further(t, i) == Some(ex) ==> text_in(r.done_written) == ex.attr_text("done"@) && text_in(
            r.parent_para_id,
        ) == ex.attr_text("paraIdParent"@),
        further(t, i) is None ==> r.done_written is None && r.parent_para_id is None && r.replies_to
            is None,
        r.parent_para_id matches Some(want) ==> (0 <= k < t.comments.len() && para_id(t.comments[k])
            == Some(want@) && (forall|j: int|
            0 <= j < k ==> para_id(#[trigger] t.comments[j]) != Some(want@)) ==> r.replies_to
            == Some(k as usize) || k > usize::MAX),
        r.parent_para_id matches Some(want) ==> ((forall|j: int|
            0 <= j < t.comments.len() ==> para_id(#[trigger] t.comments[j]) != Some(want@))
            ==> r.replies_to is None),
{
    if let Some(want) = r.parent_para_id {
        let w = want@;
        assert(parent_in(t, i) == Some(w));
        let p = |n: Node| para_id(n) == Some(w);
        crate::lists::lemma_first_from(t.comments, p, 0);
        match first(t.comments, p) {
            Some(j) => {
                assert(p(t.comments[j]));
                if 0 <= k < t.comments.len() && j > k {
                    assert(!p(t.comments[k]));
                }
            },
            None => {
                if 0 <= k < t.comments.len() {
                    assert(!p(t.comments[k]));
                }
            },
        }
    }
}

/// What is said further of a remark is said by the first element that names its paragraph.
pub proof fn law_what_speaks_of_a_remark(t: Threads, i: int, id: Seq<char>, k: int)
    requires
        para_id(t.comments[i]) == Some(id),
    ensures
        0 <= k < t.ext.len() && t.ext[k].attr_text("paraId"@) == Some(id) && (forall|j: int|
            0 <= j < k ==> (#[trigger] t.ext[j]).attr_text("paraId"@) != Some(id)) ==> further(t, i)
            == Some(t.ext[k]),
        (forall|j: int|
            0 <= j < t.ext.len() ==> (#[trigger] t.ext[j]).attr_text("paraId"@) != Some(id))
            ==> further(t, i) is None,
        0 <= k < t.ids.len() && t.ids[k].attr_text("paraId"@) == Some(id) && (forall|j: int|
            0 <= j < k ==> (#[trigger] t.ids[j]).attr_text("paraId"@) != Some(id)) ==> said_by(
            speaking(t.ids, Some(id)),
            "durableId"@,
        ) == t.ids[k].attr_text("durableId"@),
{
    crate::written::law_the_first_of_an_id_is_found(t.ext, "paraId"@, id, k);
    crate::written::law_the_first_of_an_id_is_found(t.ids, "paraId"@, id, k);
}

/// A remark is settled where it says `1`, and is not where it says anything else.
pub proof fn law_when_a_remark_is_settled(row: &ThreadRow, r: Option<bool>)
    requires
        call_ensures(ThreadRow::done, (row,), r),
    ensures
        row.done_written is None ==> r is None,
        row.done_written matches Some(t) ==> (t@ == "1"@ ==> r == Some(true)) && (t@ != "1"@ ==> r
            == Some(false)),
{
}

/// Each number of the report is how many remarks are so, from three elements in three parts.
pub proof fn law_what_remarks_are_counted_for(
    r: ThreadReport,
    comments: Option<Node>,
    ext: Option<Node>,
    ids: Option<Node>,
    limit: usize,
    t: Threads,
)
    requires
        r.describes(comments, ext, ids, limit),
        t.comments == below_in(comments, "comment"@),
        t.ext == below_in(ext, "commentEx"@),
        t.ids == below_in(ids, "commentId"@),
    ensures
        r.comments_total == t.comments.len(),
        r.ext_total == t.ext.len(),
        r.ids_total == t.ids.len(),
        r.ext_part_written <==> ext is Some,
        r.ids_part_written <==> ids is Some,
        r.ext_matched + r.ext_orphans == r.ext_total,
        r.ids_matched + r.ids_orphans == r.ids_total,
        r.paras_with_para_id == t.comments.filter(|c: Node| para_id(c) is Some).len(),
        r.done_written_total == t.comments.filter(
            |c: Node| said_by(speaking(t.ext, para_id(c)), "done"@) is Some,
        ).len(),
        r.done_true == t.comments.filter(
            |c: Node| said_by(speaking(t.ext, para_id(c)), "done"@) == Some("1"@),
        ).len(),
        r.done_false == t.comments.filter(
            |c: Node|
                said_by(speaking(t.ext, para_id(c)), "done"@) is Some && said_by(
                    speaking(t.ext, para_id(c)),
                    "done"@,
                ) != Some("1"@),
        ).len(),
        r.ex_without_done == t.comments.filter(
            |c: Node|
                speaking(t.ext, para_id(c)) is Some && said_by(
                    speaking(t.ext, para_id(c)),
                    "done"@,
                ) is None,
        ).len(),
        r.replies_total == t.comments.filter(
            |c: Node| said_by(speaking(t.ext, para_id(c)), "paraIdParent"@) is Some,
        ).len(),
        r.replies_dangling == t.comments.filter(
            |c: Node|
                said_by(speaking(t.ext, para_id(c)), "paraIdParent"@) is Some && owner_of(
                    t.comments,
                    said_by(speaking(t.ext, para_id(c)), "paraIdParent"@),
                ) is None,
        ).len(),
        r.threads@.len() == limit || r.threads@.len() == t.comments.len(),
{
    let c = t.comments;
    crate::lists::law_a_tally_is_how_many_pass(
        c,
        |i: int| para_id(t.comments[i]) is Some,
        |c: Node| para_id(c) is Some,
    );
    crate::lists::law_a_tally_is_how_many_pass(
        c,
        |i: int| done_in(t, i) is Some,
        |c: Node| said_by(speaking(t.ext, para_id(c)), "done"@) is Some,
    );
    crate::lists::law_a_tally_is_how_many_pass(
        c,
        |i: int| done_in(t, i) == Some("1"@),
        |c: Node| said_by(speaking(t.ext, para_id(c)), "done"@) == Some("1"@),
    );
    crate::lists::law_a_tally_is_how_many_pass(
        c,
        |i: int| done_in(t, i) is Some && done_in(t, i) != Some("1"@),
        |c: Node|
            said_by(speaking(t.ext, para_id(c)), "done"@) is Some && said_by(
                speaking(t.ext, para_id(c)),
                "done"@,
            ) != Some("1"@),
    );
    crate::lists::law_a_tally_is_how_many_pass(
        c,
        |i: int| further(t, i) is Some && done_in(t, i) is None,
        |c: Node|
            speaking(t.ext, para_id(c)) is Some && said_by(speaking(t.ext, para_id(c)), "done"@)
                is None,
    );
    crate::lists::law_a_tally_is_how_many_pass(
        c,
        |i: int| parent_in(t, i) is Some,
        |c: Node| said_by(speaking(t.ext, para_id(c)), "paraIdParent"@) is Some,
    );
    crate::lists::law_a_tally_is_how_many_pass(
        c,
        |i: int| parent_in(t, i) is Some && owner_of(t.comments, parent_in(t, i)) is None,
        |c: Node|
            said_by(speaking(t.ext, para_id(c)), "paraIdParent"@) is Some && owner_of(
                t.comments,
                said_by(speaking(t.ext, para_id(c)), "paraIdParent"@),
            ) is None,
    );
}

/// A remark of a text is settled where it says `true`, and each number of the report is how many
/// are so.
pub proof fn law_what_remarks_of_a_text_say(
    r: RemarkReport,
    content: Node,
    styles: Option<Node>,
    limit: usize,
    all: Seq<Held>,
    i: int,
)
    requires
        r.describes(content, styles, limit),
        all == everywhere(content, styles, "annotation"@),
    ensures
        r.annotations_total == all.len(),
        r.with_resolved_written == all.filter(
            |h: Held| h.node.attr_text("resolved"@) is Some,
        ).len(),
        r.resolved_true == all.filter(
            |h: Held| h.node.attr_text("resolved"@) == Some("true"@),
        ).len(),
        r.resolved_false == all.filter(
            |h: Held|
                h.node.attr_text("resolved"@) is Some && h.node.attr_text("resolved"@) != Some(
                    "true"@,
                ),
        ).len(),
        r.without_resolved == all.filter(|h: Held| h.node.attr_text("resolved"@) is None).len(),
        r.in_content <==> content.below("annotation"@).len() > 0,
        0 <= i < r.annotations@.len() ==> {
            let row = r.annotations@[i];
            let n = all[i].node;
            &&& row.index == i
            &&& row.part == all[i].part
            &&& text_in(row.name_written) == n.attr_text("name"@)
            &&& text_in(row.resolved_written) == n.attr_text("resolved"@)
            &&& n.attr_text("resolved"@) is None ==> row.resolved is None
            &&& n.attr_text("resolved"@) matches Some(t) ==> row.resolved == Some(t == "true"@)
        },
{
    crate::lists::law_a_tally_is_how_many_pass(
        all,
        |i: int| settled(all[i].node) is Some,
        |h: Held| h.node.attr_text("resolved"@) is Some,
    );
    crate::lists::law_a_tally_is_how_many_pass(
        all,
        |i: int| settled(all[i].node) == Some(true),
        |h: Held| h.node.attr_text("resolved"@) == Some("true"@),
    );
    crate::lists::law_a_tally_is_how_many_pass(
        all,
        |i: int| settled(all[i].node) == Some(false),
        |h: Held|
            h.node.attr_text("resolved"@) is Some && h.node.attr_text("resolved"@) != Some(
                "true"@,
            ),
    );
    crate::lists::law_a_tally_is_how_many_pass(
        all,
        |i: int| settled(all[i].node) is None,
        |h: Held| h.node.attr_text("resolved"@) is None,
    );
    if 0 <= i < r.annotations@.len() {
        assert(r.annotations@[i].describes(all[i], i));
    }
}

/// A remark has the lasting number that the entry for its paragraph gives it.
pub proof fn law_which_lasting_number_a_remark_has(
    r: ThreadRow,
    t: Threads,
    i: int,
    p: Node,
    id: Seq<char>,
    k: int,
)
    requires
        r.describes(t, i),
        t.comments[i].below("p"@).len() > 0,
        t.comments[i].below("p"@)[0] == p,
        p.attr_text("paraId"@) == Some(id),
        0 <= k < t.ids.len(),
        t.ids[k].attr_text("paraId"@) == Some(id),
        forall|j: int| 0 <= j < k ==> (#[trigger] t.ids[j]).attr_text("paraId"@) != Some(id),
    ensures
        text_in(r.durable_id) == t.ids[k].attr_text("durableId"@),
{
    assert forall|q: spec_fn(Node) -> bool|
        (forall|n: Node| #[trigger] q(n) == (n.attr_text("paraId"@) == Some(id)))
            implies #[trigger] crate::lists::first(t.ids, q) == Some(k) by {
        crate::lists::lemma_first_from(t.ids, q, 0);
        assert(q(t.ids[k]));
        if let Some(j) = crate::lists::first(t.ids, q) {
            assert(q(t.ids[j]));
        }
    }
}

} // verus!
