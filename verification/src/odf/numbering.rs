//! Which paragraphs stand in lists, how deep, and what the list styles say.
//!
//! The level of a paragraph is no attribute here but the nesting of list elements. A style may
//! name a list style, and the definition of that one often stands in the other part.

use crate::lists::{
    at_most, count_those, cut, each, first, first_from, ints, pick_those, tally, those,
};
use crate::odf::{
    all_held, attr_of, attr_said, count_part, distinct, everywhere, held_in, in_part,
    look_everywhere, meant, part_in, pick_distinct, resolve, Found, Held, Part,
};
use crate::text::pair_texts;
use crate::words::{parse_unsigned, unsigned_value};
use crate::written::{
    copied, kept_attrs, kept_table, node_in, option_texts, owned, slice_in, text_in,
};
use crate::xml::{nodes, Node};
use vstd::prelude::*;

verus! {

broadcast use {crate::text::lemma_pair_texts_push, crate::xml::lemma_nodes_push};

/// The names that the lists round a paragraph give themselves, outermost first. There are as
/// many as the paragraph is deep.
pub type Chain = Seq<Option<Seq<char>>>;

/// The chains of the paragraphs in a list of nodes and below them. What stands in remarks and in
/// the record of changes does not count, and a paragraph is not looked into.
pub open spec fn chains(c: Seq<Node>, round: Chain) -> Seq<Chain>
    decreases c,
{
    if c.len() == 0 {
        Seq::empty()
    } else {
        let one = c.last();
        let own = if one.local_name() == "annotation"@ || one.local_name()
            == "tracked-changes"@ {
            Seq::empty()
        } else if one.local_name() == "p"@ {
            seq![round]
        } else if one.local_name() == "list"@ {
            chains(one.children@, round.push(attr_said(one, "style-name"@)))
        } else {
            chains(one.children@, round)
        };
        chains(c.drop_last(), round) + own
    }
}

pub open spec fn chain_views(v: Seq<Vec<Option<String>>>) -> Seq<Chain> {
    Seq::new(v.len(), |i: int| option_texts(v[i]@))
}

fn copy_chain(c: &Vec<Option<String>>) -> (r: Vec<Option<String>>)
    ensures
        option_texts(r@) == option_texts(c@),
{
    let out: Vec<Option<String>> = each(
        c,
        c.len(),
        |i: usize, s: &Option<String>| -> (r: Option<String>)
            ensures
                text_in(r) == text_in(*s)
            { copied(s) },
    );
    assert(option_texts(out@) =~= option_texts(c@));
    out
}

/// Notes the chain of each paragraph below a node.
fn odf_list_depths(node: &Node, chain: &mut Vec<Option<String>>, into: &mut Vec<Vec<Option<String>>>)
    ensures
        option_texts(final(chain)@) == option_texts(old(chain)@),
        chain_views(final(into)@) == chain_views(old(into)@) + chains(
            node.children@,
            option_texts(old(chain)@),
        ),
    decreases node,
{
    let ghost c = node.children@;
    let ghost round = option_texts(chain@);
    let ghost start = chain_views(into@);
    let mut i: usize = 0;
    assert(c.take(0) =~= Seq::empty());
    assert(start + chains(c.take(0), round) =~= start);
    while i < node.children.len()
        invariant
            i <= node.children@.len(),
            c == node.children@,
            option_texts(chain@) == round,
            chain_views(into@) == start + chains(c.take(i as int), round),
        decreases node.children@.len() - i,
    {
        let one: &Node = &node.children[i];
        let ghost done = c.take(i + 1);
        let ghost had = chain_views(into@);
        assert(done.drop_last() =~= c.take(i as int));
        assert(done.last() == *one);
        if one.is("annotation") || one.is("tracked-changes") {
        } else if one.is("p") {
            let own: Vec<Option<String>> = copy_chain(chain);
            into.push(own);
            assert(chain_views(into@) =~= had.push(round));
        } else if one.is("list") {
            let name: Option<String> = owned(attr_of(one, "style-name"));
            let ghost before = chain@;
            chain.push(name);
            assert(option_texts(chain@) =~= round.push(attr_said(*one, "style-name"@)));
            odf_list_depths(one, chain, into);
            let ghost long = option_texts(chain@);
            chain.pop();
            assert(option_texts(chain@) =~= long.drop_last());
            assert(option_texts(chain@) =~= round);
        } else {
            odf_list_depths(one, chain, into);
        }
        assert(chain_views(into@) =~= start + chains(done, round));
        i += 1;
    }
    assert(c.take(i as int) =~= c);
}

/// The chain of a paragraph; the empty one where it was not met.
pub open spec fn chain_at(spots: Seq<Chain>, i: int) -> Chain {
    if 0 <= i < spots.len() {
        spots[i]
    } else {
        Seq::empty()
    }
}

/// One level of a list style.
#[derive(Debug, Clone)]
pub struct LevelRow {
    pub kind: String,
    pub level: Option<String>,
    pub written: Vec<(String, String)>,
}

impl LevelRow {
    pub open spec fn describes(self, kid: Node) -> bool {
        &&& self.kind@ == kid.local_name()
        &&& text_in(self.level) == attr_said(kid, "level"@)
        &&& pair_texts(self.written@) == kept_table(kid)
    }
}

fn read_level(kid: &Node) -> (r: LevelRow)
    ensures
        r.describes(*kid),
{
    LevelRow {
        kind: kid.local().to_owned(),
        level: owned(attr_of(kid, "level")),
        written: kept_attrs(kid),
    }
}

/// The level says that it is the one for that depth. Depths count from one.
pub open spec fn is_level(kid: Node, depth: int) -> bool {
    match attr_said(kid, "level"@) {
        Some(raw) => unsigned_value(raw, usize::MAX as int) == Some(depth),
        None => false,
    }
}

/// The level of a list style for a depth.
pub open spec fn level_for(h: Option<Held>, depth: int) -> Option<Node> {
    match h {
        Some(x) => match first(x.node.children@, |k: Node| is_level(k, depth)) {
            Some(i) => Some(x.node.children@[i]),
            None => None,
        },
        None => None,
    }
}

fn find_level(h: Option<Found>, depth: usize) -> (r: Option<LevelRow>)
    ensures
        match level_for(held_in(h), depth as int) {
            Some(k) => r matches Some(row) && row.describes(k),
            None => r is None,
        },
{
    let node: &Node = match h {
        Some(f) => f.node,
        None => {
            return None;
        },
    };
    let ghost p = |k: Node| is_level(k, depth as int);
    let mut i: usize = 0;
    while i < node.children.len()
        invariant
            i <= node.children@.len(),
            held_in(h) matches Some(x) && x.node == *node,
            p == (|k: Node| is_level(k, depth as int)),
            first(node.children@, p) == first_from(node.children@, p, i as int),
        decreases node.children@.len() - i,
    {
        let kid: &Node = &node.children[i];
        if let Some(raw) = attr_of(kid, "level") {
            if let Some(at) = parse_unsigned(raw, usize::MAX as u64) {
                if at == depth as u64 {
                    return Some(read_level(kid));
                }
            }
        }
        i += 1;
    }
    None
}

/// What there is to know of the lists of a text.
pub struct Lists {
    pub spots: Seq<Chain>,
    pub styles: Seq<Held>,
    pub lists: Seq<Held>,
}

pub open spec fn lists_in(body: Node, content: Node, styles: Option<Node>) -> Lists {
    let all = everywhere(content, styles, "list-style"@);
    Lists {
        spots: chains(body.children@, Seq::empty()),
        styles: everywhere(content, styles, "style"@),
        lists: distinct(all, all.len() as int),
    }
}

/// The style that a paragraph names.
pub open spec fn style_of(p: Node, t: Lists) -> Option<Held> {
    meant(t.styles, attr_said(p, "style-name"@))
}

/// The name of the list style that the style of a paragraph names.
pub open spec fn list_name(p: Node, t: Lists) -> Option<Seq<char>> {
    match style_of(p, t) {
        Some(h) => attr_said(h.node, "list-style-name"@),
        None => None,
    }
}

/// The list style that the style of a paragraph names.
pub open spec fn list_of(p: Node, t: Lists) -> Option<Held> {
    meant(t.lists, list_name(p, t))
}

/// A paragraph has to do with a list: it stands in one, or its style names a list style.
pub open spec fn is_listed(ps: Seq<Node>, t: Lists, i: int) -> bool {
    chain_at(t.spots, i).len() > 0 || list_name(ps[i], t) is Some
}

/// One paragraph.
#[derive(Debug, Clone)]
pub struct ListRow {
    pub index: usize,
    pub style: Option<String>,
    pub style_part: Option<Part>,
    pub list_style: Option<String>,
    pub list_part: Option<Part>,
    pub depth: usize,
    pub chain: Vec<Option<String>>,
    pub resolved: bool,
    pub level: Option<LevelRow>,
}

impl ListRow {
    pub open spec fn describes(self, ps: Seq<Node>, t: Lists, i: int) -> bool {
        let p = ps[i];
        let chain = chain_at(t.spots, i);
        &&& self.index == i
        &&& text_in(self.style) == attr_said(p, "style-name"@)
        &&& self.style_part == part_in(style_of(p, t))
        &&& text_in(self.list_style) == list_name(p, t)
        &&& self.list_part == part_in(list_of(p, t))
        &&& self.depth == chain.len()
        &&& option_texts(self.chain@) == chain
        &&& self.resolved == (list_of(p, t) is Some)
        &&& match level_for(list_of(p, t), chain.len() as int) {
            Some(k) => self.level matches Some(row) && row.describes(k),
            None => self.level is None,
        }
    }
}

/// One list style.
#[derive(Debug, Clone)]
pub struct ListStyleRow {
    pub name: Option<String>,
    pub found: usize,
    pub part: Part,
    pub levels: Vec<LevelRow>,
}

impl ListStyleRow {
    pub open spec fn describes(self, h: Held, limit: usize) -> bool {
        let kids = h.node.children@;
        &&& text_in(self.name) == attr_said(h.node, "name"@)
        &&& self.found == kids.len()
        &&& self.part == h.part
        &&& self.levels@.len() == at_most(kids.len(), limit)
        &&& forall|i: int|
            0 <= i < self.levels@.len() ==> (#[trigger] self.levels@[i]).describes(kids[i])
    }
}

fn read_list_style(f: &Found, limit: usize) -> (r: ListStyleRow)
    ensures
        r.describes(f.held(), limit),
{
    let kids: &Vec<Node> = &f.node.children;
    let levels: Vec<LevelRow> = each(
        kids,
        cut(kids.len(), limit),
        |i: usize, k: &Node| -> (r: LevelRow)
            ensures
                r.describes(*k)
            { read_level(k) },
    );
    ListStyleRow {
        name: owned(attr_of(f.node, "name")),
        found: kids.len(),
        part: f.part,
        levels,
    }
}

/// The depth of the deepest of the first `n` paragraphs.
pub open spec fn deepest(spots: Seq<Chain>, n: int) -> nat
    decreases n,
{
    if n <= 0 {
        0
    } else if chain_at(spots, n - 1).len() > deepest(spots, n - 1) {
        chain_at(spots, n - 1).len()
    } else {
        deepest(spots, n - 1)
    }
}

/// The paragraphs that are told of.
pub open spec fn listed(ps: Seq<Node>, t: Lists) -> Seq<int> {
    those(|i: int| is_listed(ps, t, i), ps.len() as int)
}

/// What the lists of a text are.
#[derive(Debug, Clone)]
pub struct ListReport {
    pub lists: usize,
    pub items: usize,
    pub checked: usize,
    pub listed: usize,
    pub in_list: usize,
    pub max_depth: usize,
    pub resolved: usize,
    pub styles: usize,
    pub in_content: usize,
    pub in_styles: usize,
    pub list: Vec<ListRow>,
    pub definitions: Vec<ListStyleRow>,
}

impl ListReport {
    /// What is counted.
    pub open spec fn counts(self, ps: Seq<Node>, body: Node, t: Lists) -> bool {
        let n = ps.len() as int;
        &&& self.lists == body.below("list"@).len()
        &&& self.items == body.below("list-item"@).len()
        &&& self.checked == n
        &&& self.listed == listed(ps, t).len()
        &&& self.in_list == tally(|i: int| chain_at(t.spots, i).len() > 0, n)
        &&& self.max_depth == deepest(t.spots, n)
        &&& self.resolved == tally(|i: int| list_of(ps[i], t) is Some, n)
        &&& self.styles == t.lists.len()
        &&& self.in_content == t.lists.filter(|h: Held| h.part == Part::Content).len()
        &&& self.in_styles == t.lists.filter(|h: Held| h.part == Part::Styles).len()
    }

    pub open spec fn describes(
        self,
        ps: Seq<Node>,
        body: Node,
        content: Node,
        styles: Option<Node>,
        limit: usize,
    ) -> bool {
        let t = lists_in(body, content, styles);
        let which = listed(ps, t);
        &&& self.counts(ps, body, t)
        &&& self.list@.len() == at_most(which.len(), limit)
        &&& forall|i: int|
            0 <= i < self.list@.len() ==> (#[trigger] self.list@[i]).describes(
                ps,
                t,
                which[i],
            )
        &&& self.definitions@.len() == at_most(t.lists.len(), limit)
        &&& forall|i: int|
            0 <= i < self.definitions@.len() ==> (#[trigger] self.definitions@[i]).describes(
                t.lists[i],
                limit,
            )
    }
}

/// What there is to know of the lists of a text.
struct Shelf<'a> {
    spots: Vec<Vec<Option<String>>>,
    styles: Vec<Found<'a>>,
    lists: Vec<Found<'a>>,
}

impl<'a> Shelf<'a> {
    spec fn model(self) -> Lists {
        Lists {
            spots: chain_views(self.spots@),
            styles: all_held(self.styles@),
            lists: all_held(self.lists@),
        }
    }

    fn depth(&self, i: usize) -> (r: usize)
        ensures
            r == chain_at(self.model().spots, i as int).len(),
    {
        if i < self.spots.len() {
            assert(self.model().spots[i as int].len() == self.spots@[i as int]@.len());
            self.spots[i].len()
        } else {
            0
        }
    }

    fn style(&self, p: &Node) -> (r: Option<Found<'a>>)
        ensures
            held_in(r) == style_of(*p, self.model()),
    {
        resolve(&self.styles, attr_of(p, "style-name"))
    }

    fn list_name(&self, p: &Node) -> (r: Option<&'a str>)
        ensures
            slice_in(r) == list_name(*p, self.model()),
    {
        match self.style(p) {
            Some(f) => attr_of(f.node, "list-style-name"),
            None => None,
        }
    }

    fn list(&self, p: &Node) -> (r: Option<Found<'a>>)
        ensures
            held_in(r) == list_of(*p, self.model()),
    {
        resolve(&self.lists, self.list_name(p))
    }

    fn row(&self, ps: &Vec<&Node>, i: usize) -> (r: ListRow)
        requires
            i < ps@.len(),
        ensures
            r.describes(nodes(ps@), self.model(), i as int),
    {
        let p: &Node = ps[i];
        let style: Option<Found> = self.style(p);
        let list: Option<Found> = self.list(p);
        let depth: usize = self.depth(i);
        let chain: Vec<Option<String>> = if i < self.spots.len() {
            copy_chain(&self.spots[i])
        } else {
            let none: Vec<Option<String>> = Vec::new();
            assert(option_texts(none@) =~= Seq::empty());
            none
        };
        ListRow {
            index: i,
            style: owned(attr_of(p, "style-name")),
            style_part: match style {
                Some(f) => Some(f.part),
                None => None,
            },
            list_style: owned(self.list_name(p)),
            list_part: match list {
                Some(f) => Some(f.part),
                None => None,
            },
            depth,
            chain,
            resolved: list.is_some(),
            level: find_level(list, depth),
        }
    }

    fn deepest(&self, n: usize) -> (r: usize)
        ensures
            r == deepest(self.model().spots, n as int),
    {
        let mut most: usize = 0;
        let mut i: usize = 0;
        while i < n
            invariant
                i <= n,
                most == deepest(self.model().spots, i as int),
            decreases n - i,
        {
            let d: usize = self.depth(i);
            if d > most {
                most = d;
            }
            i += 1;
        }
        most
    }
}

/// Which paragraphs have to do with lists, and what the list styles say. At most `limit`
/// paragraphs, list styles and levels of each are told of. The level of a paragraph is looked up
/// among all that its list style writes.
pub fn odf_numbering(
    paragraphs: &Vec<&Node>,
    text_body: &Node,
    content_root: &Node,
    style_root: Option<&Node>,
    limit: usize,
) -> (r: ListReport)
    ensures
        r.describes(
            nodes(paragraphs@),
            *text_body,
            *content_root,
            node_in(style_root),
            limit,
        ),
{
    let mut spots: Vec<Vec<Option<String>>> = Vec::new();
    let mut chain: Vec<Option<String>> = Vec::new();
    assert(option_texts(chain@) =~= Seq::empty());
    odf_list_depths(text_body, &mut chain, &mut spots);
    assert(chain_views(spots@) =~= chains(text_body.children@, Seq::empty()));
    let all: Vec<Found> = look_everywhere(content_root, style_root, "list-style");
    assert(all_held(all@).len() == all@.len());
    let s: Shelf = Shelf {
        spots,
        styles: look_everywhere(content_root, style_root, "style"),
        lists: pick_distinct(&all),
    };
    let ghost t = lists_in(*text_body, *content_root, node_in(style_root));
    let ghost ps = nodes(paragraphs@);
    assert(s.model() == t);
    let n: usize = paragraphs.len();
    assert(ps.len() == n);
    let which: Vec<usize> = pick_those(
        n,
        |i: usize| -> (b: bool)
            requires
                i < n
            ensures
                b == is_listed(ps, t, i as int)
            { s.depth(i) > 0 || s.list_name(paragraphs[i]).is_some() },
        Ghost(|i: int| is_listed(ps, t, i)),
    );
    assert(ints(which@).len() == which@.len());
    let in_list: usize = count_those(
        n,
        |i: usize| -> (b: bool)
            ensures
                b == (chain_at(t.spots, i as int).len() > 0)
            { s.depth(i) > 0 },
        Ghost(|i: int| chain_at(t.spots, i).len() > 0),
    );
    let resolved: usize = count_those(
        n,
        |i: usize| -> (b: bool)
            requires
                i < n
            ensures
                b == (list_of(ps[i as int], t) is Some)
            { s.list(paragraphs[i]).is_some() },
        Ghost(|i: int| list_of(ps[i], t) is Some),
    );
    let list: Vec<ListRow> = each(
        &which,
        cut(which.len(), limit),
        |at: usize, i: &usize| -> (r: ListRow)
            requires
                *i < n
            ensures
                r.describes(ps, t, *i as int)
            { s.row(paragraphs, *i) },
    );
    assert forall|i: int| 0 <= i < list@.len() implies (#[trigger] list@[i]).describes(
        ps,
        t,
        listed(ps, t)[i],
    ) by {
        assert(ints(which@)[i] == which@[i] as int);
    }
    let definitions: Vec<ListStyleRow> = each(
        &s.lists,
        cut(s.lists.len(), limit),
        |at: usize, f: &Found| -> (r: ListStyleRow)
            ensures
                r.describes(f.held(), limit)
            { read_list_style(f, limit) },
    );
    let lists: Vec<&Node> = text_body.descendants("list");
    let items: Vec<&Node> = text_body.descendants("list-item");
    assert(nodes(lists@).len() == lists@.len());
    assert(nodes(items@).len() == items@.len());
    ListReport {
        lists: lists.len(),
        items: items.len(),
        checked: n,
        listed: which.len(),
        in_list,
        max_depth: s.deepest(n),
        resolved,
        styles: s.lists.len(),
        in_content: count_part(&s.lists, Part::Content),
        in_styles: count_part(&s.lists, Part::Styles),
        list,
        definitions,
    }
}

/// How deep a paragraph stands is how many lists are round it, each with the name it gives itself.
/// What stands in remarks and in the record of changes does not count.
pub proof fn law_how_deep_paragraphs_stand(c: Seq<Node>, one: Node, round: Chain)
    ensures
        chains(Seq::empty(), round).len() == 0,
        one.local_name() == "annotation"@ || one.local_name() == "tracked-changes"@ ==> chains(
            c.push(one),
            round,
        ) == chains(c, round),
        one.local_name() == "p"@ ==> chains(c.push(one), round) == chains(c, round).push(round),
        one.local_name() == "list"@ ==> chains(c.push(one), round) == chains(c, round) + chains(
            one.children@,
            round.push(attr_said(one, "style-name"@)),
        ),
        one.local_name() != "annotation"@ && one.local_name() != "tracked-changes"@
            && one.local_name() != "p"@ && one.local_name() != "list"@ ==> chains(
            c.push(one),
            round,
        ) == chains(c, round) + chains(one.children@, round),
{
    reveal_strlit("annotation");
    reveal_strlit("tracked-changes");
    reveal_strlit("p");
    reveal_strlit("list");
    assert("annotation"@.len() == 10 && "tracked-changes"@.len() == 15 && "p"@.len() == 1
        && "list"@.len() == 4);
    assert(c.push(one).drop_last() =~= c);
    assert(chains(c, round) + seq![round] =~= chains(c, round).push(round));
    assert(chains(c, round) + Seq::<Chain>::empty() =~= chains(c, round));
}

/// The level of a list style for a depth is the first that says its number, counted from one.
pub proof fn law_which_level_is_for_a_depth(h: Held, depth: int, i: int)
    ensures
        0 <= i < h.node.children@.len() && (attr_said(h.node.children@[i], "level"@) matches Some(
            raw,
        ) && unsigned_value(raw, usize::MAX as int) == Some(depth)) && (forall|k: int|
            0 <= k < i ==> !(attr_said(#[trigger] h.node.children@[k], "level"@) matches Some(raw)
                && unsigned_value(raw, usize::MAX as int) == Some(depth))) ==> level_for(
            Some(h),
            depth,
        ) == Some(h.node.children@[i]),
        (forall|k: int|
            0 <= k < h.node.children@.len() ==> attr_said(
                #[trigger] h.node.children@[k],
                "level"@,
            ) is None) ==> level_for(Some(h), depth) is None,
        level_for(None, depth) is None,
{
    let c = h.node.children@;
    let p = |k: Node| is_level(k, depth);
    crate::lists::lemma_first_from(c, p, 0);
    match first(c, p) {
        Some(j) => {
            assert(p(c[j]));
            if 0 <= i < c.len() && j > i {
                assert(!p(c[i]));
            }
        },
        None => {
            if 0 <= i < c.len() {
                assert(!p(c[i]));
            }
        },
    }
}

/// What is told of a paragraph in lists: its style, the list style that its style names, how deep
/// it stands, and the level of that depth.
pub proof fn law_what_a_listed_paragraph_says(
    r: ListRow,
    ps: Seq<Node>,
    t: Lists,
    i: int,
    h: Held,
    l: Held,
)
    requires
        r.describes(ps, t, i),
        meant(t.styles, attr_said(ps[i], "style-name"@)) == Some(h),
        meant(t.lists, attr_said(h.node, "list-style-name"@)) == Some(l),
        0 <= i < t.spots.len(),
    ensures
        r.index == i,
        text_in(r.style) == attr_said(ps[i], "style-name"@),
        r.style_part == Some(h.part),
        text_in(r.list_style) == attr_said(h.node, "list-style-name"@),
        r.list_part == Some(l.part),
        r.depth == t.spots[i].len(),
        option_texts(r.chain@) == t.spots[i],
        r.resolved,
        level_for(Some(l), r.depth as int) is None ==> r.level is None,
        level_for(Some(l), r.depth as int) matches Some(k) ==> (r.level matches Some(row)
            && row.kind@ == k.local_name() && text_in(row.level) == attr_said(k, "level"@)
            && pair_texts(row.written@) == kept_table(k)),
{
}

/// A paragraph is told of where it stands in a list or its style names a list style.
pub proof fn law_which_paragraphs_are_told_of(ps: Seq<Node>, t: Lists, i: int)
    ensures
        0 <= i < t.spots.len() && t.spots[i].len() > 0 ==> is_listed(ps, t, i),
        meant(t.styles, attr_said(ps[i], "style-name"@)) matches Some(h) && attr_said(
            h.node,
            "list-style-name"@,
        ) is Some ==> is_listed(ps, t, i),
        !(0 <= i < t.spots.len() && t.spots[i].len() > 0) && meant(
            t.styles,
            attr_said(ps[i], "style-name"@),
        ) is None ==> !is_listed(ps, t, i),
{
}

/// Each number of the report: the lists and the items of the text, the paragraphs in lists, the
/// deepest of them, and the list styles in each part.
pub proof fn law_what_lists_are_counted_for(
    r: ListReport,
    ps: Seq<Node>,
    body: Node,
    content: Node,
    styles: Option<Node>,
    limit: usize,
    t: Lists,
    i: int,
)
    requires
        r.describes(ps, body, content, styles, limit),
        t == lists_in(body, content, styles),
    ensures
        t.spots == chains(body.children@, Seq::empty()),
        t.styles == everywhere(content, styles, "style"@),
        r.lists == body.below("list"@).len(),
        r.items == body.below("list-item"@).len(),
        r.checked == ps.len(),
        0 <= i < ps.len() ==> chain_at(t.spots, i).len() <= r.max_depth,
        r.max_depth > 0 ==> exists|k: int|
            0 <= k < ps.len() && #[trigger] chain_at(t.spots, k).len() == r.max_depth,
        r.resolved == ps.filter(|p: Node| list_of(p, t) is Some).len(),
        r.styles == t.lists.len(),
        r.in_content == t.lists.filter(|h: Held| h.part == Part::Content).len(),
        r.in_styles == t.lists.filter(|h: Held| h.part == Part::Styles).len(),
        r.list@.len() <= limit,
        0 <= i < r.list@.len() ==> is_listed(ps, t, r.list@[i].index as int),
{
    crate::lists::law_a_tally_is_how_many_pass(
        ps,
        |i: int| list_of(ps[i], t) is Some,
        |p: Node| list_of(p, t) is Some,
    );
    lemma_deepest(t.spots, ps.len() as int, i);
    let q = |i: int| is_listed(ps, t, i);
    crate::lists::law_those_are_all_that_satisfy(q, ps.len() as int);
    if 0 <= i < r.list@.len() {
        assert(q(those(q, ps.len() as int)[i]));
        assert(r.list@[i].describes(ps, t, listed(ps, t)[i]));
    }
}

proof fn lemma_deepest(spots: Seq<Chain>, n: int, i: int)
    requires
        0 <= n,
    ensures
        0 <= i < n ==> chain_at(spots, i).len() <= deepest(spots, n),
        deepest(spots, n) > 0 ==> exists|k: int|
            0 <= k < n && #[trigger] chain_at(spots, k).len() == deepest(spots, n),
    decreases n,
{
    if n > 0 {
        lemma_deepest(spots, n - 1, i);
        let own = chain_at(spots, n - 1);
    }
}

/// What is told of a list style: its name, its part, and all the levels that it writes.
pub proof fn law_what_a_list_style_says(r: ListStyleRow, h: Held, limit: usize, i: int)
    requires
        r.describes(h, limit),
    ensures
        text_in(r.name) == attr_said(h.node, "name"@),
        r.found == h.node.children@.len(),
        r.part == h.part,
        r.levels@.len() <= limit,
        r.levels@.len() == limit || r.levels@.len() == h.node.children@.len(),
        0 <= i < r.levels@.len() ==> r.levels@[i].kind@ == h.node.children@[i].local_name()
            && text_in(r.levels@[i].level) == attr_said(h.node.children@[i], "level"@),
{
    if 0 <= i < r.levels@.len() {
        assert(r.levels@[i].describes(h.node.children@[i]));
    }
}

/// The list styles of a text are the elements `list-style` of the content and of the styles, each
/// name once.
pub proof fn law_where_list_styles_stand(body: Node, content: Node, styles: Node)
    ensures
        ({
            let own = content.below("list-style"@);
            let shared = styles.below("list-style"@);
            let all = in_part(own, Part::Content) + in_part(shared, Part::Styles);
            &&& lists_in(body, content, Some(styles)).lists == distinct(all, all.len() as int)
            &&& lists_in(body, content, None).lists == distinct(
                in_part(own, Part::Content),
                own.len() as int,
            )
        }),
{
    let own = in_part(content.below("list-style"@), Part::Content);
    assert(own + Seq::<Held>::empty() =~= own);
}

/// How many paragraphs have to do with a list, how many stand in one, and which list styles are told.
pub proof fn law_how_many_paragraphs_stand_in_lists(
    r: ListReport,
    ps: Seq<Node>,
    body: Node,
    content: Node,
    styles: Option<Node>,
    limit: usize,
    t: Lists,
    i: int,
)
    requires
        r.describes(ps, body, content, styles, limit),
        t == lists_in(body, content, styles),
    ensures
        r.listed == tally(|k: int| is_listed(ps, t, k), ps.len() as int),
        r.in_list == tally(|k: int| chain_at(t.spots, k).len() > 0, ps.len() as int),
        r.definitions@.len() <= limit,
        r.definitions@.len() == limit || r.definitions@.len() == t.lists.len(),
        0 <= i < r.definitions@.len() ==> r.definitions@[i].describes(t.lists[i], limit),
{
    let q = |k: int| is_listed(ps, t, k);
    crate::lists::law_those_are_all_that_satisfy(q, ps.len() as int);
    assert(listed(ps, t) == those(q, ps.len() as int));
}

} // verus!
