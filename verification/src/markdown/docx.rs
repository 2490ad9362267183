//! The body of a WordprocessingML document as Markdown.

use super::{
    chunks, cut_text, flat, heading, join_blocks, law_a_longer_cut_holds_a_shorter, list_item,
    paragraph, pictured, pieces, render, rendered, replace, row_texts, table_text, whole_text,
    words, write_heading, write_item, write_paragraph, write_table, Block, Chunk, Piece, Seg, Shown,
    HARD,
};
use crate::cfb::lowercase;
use crate::docx::pictures::Rel;
use crate::lists::{each, first, first_from, tally};
use crate::text::{chars_of, dec, push_dec, same, string_together, strung, text_of, texts};
use crate::words::{begins, parse_unsigned, starts_with, trim, trimmed, unsigned_value};
use crate::written::{
    below_in, elements_in, find_below, find_by, find_in, find_node, first_below, go, node_in,
    or_empty, owned, said_by, slice_in, step, subtree, text_in,
};
use crate::xml::{nodes, Node};
use vstd::prelude::*;

verus! {

broadcast use {
    crate::text::lemma_texts_push,
    crate::xml::lemma_nodes_push,
    super::lemma_pieces_push,
    super::lemma_chunks_push,
};

/// The lists in which a document looks things up: relations, styles and numberings.
pub struct Tables {
    pub rels: Seq<Rel>,
    pub styles: Seq<Node>,
    pub nums: Seq<Node>,
    pub abstracts: Seq<Node>,
}

/// The lists in which a document looks things up.
struct Book<'a> {
    rels: &'a Vec<Rel>,
    styles: Vec<&'a Node>,
    nums: Vec<&'a Node>,
    abstracts: Vec<&'a Node>,
}

/// The lists of a document.
pub open spec fn tables_of(styles: Option<Node>, numbering: Option<Node>, rels: Seq<Rel>) -> Tables {
    Tables {
        rels,
        styles: below_in(styles, "style"@),
        nums: below_in(numbering, "num"@),
        abstracts: below_in(numbering, "abstractNum"@),
    }
}

fn build<'a>(styles: Option<&'a Node>, numbering: Option<&'a Node>, rels: &'a Vec<Rel>) -> (r: Book<
    'a,
>)
    ensures
        r.tables() == tables_of(node_in(styles), node_in(numbering), rels@),
{
    Book {
        rels,
        styles: find_in(styles, "style"),
        nums: find_in(numbering, "num"),
        abstracts: find_in(numbering, "abstractNum"),
    }
}

/// The first node whose attribute `key` says `id`, where one without the attribute says nothing.
pub open spec fn find_said(c: Seq<Node>, key: Seq<char>, id: Seq<char>) -> Option<Node> {
    match first(c, |n: Node| or_empty(n.attr_text(key)) == id) {
        Some(i) => Some(c[i]),
        None => None,
    }
}

fn look_said<'a>(c: &Vec<&'a Node>, key: &str, id: &str) -> (r: Option<&'a Node>)
    ensures
        node_in(r) == find_said(nodes(c@), key@, id@),
{
    let ghost list = nodes(c@);
    let ghost p = |n: Node| or_empty(n.attr_text(key@)) == id@;
    let mut i: usize = 0;
    while i < c.len()
        invariant
            i <= c@.len(),
            list == nodes(c@),
            p == (|n: Node| or_empty(n.attr_text(key@)) == id@),
            first(list, p) == first_from(list, p, i as int),
        decreases c@.len() - i,
    {
        assert(list[i as int] == *c@[i as int]);
        let hit: bool = match c[i].attr_local(key) {
            Some(had) => same(had, id),
            None => id.unicode_len() == 0,
        };
        assert(id@.len() == 0 ==> id@ =~= Seq::empty());
        if hit {
            return Some(c[i]);
        }
        i += 1;
    }
    None
}

/// The numbering that a style gives to its paragraphs.
pub open spec fn style_numbering(s: Node) -> Option<Node> {
    step(step(Some(s), "pPr"@), "numPr"@)
}

/// A style with that id whose numbering names a list.
pub open spec fn numbers(s: Node, id: Seq<char>) -> bool {
    s.attr_text("styleId"@) == Some(id) && said_by(step(style_numbering(s), "numId"@), "val"@)
        is Some
}

/// How deep a numbering stands.
pub open spec fn depth_of(numbering: Option<Node>) -> int {
    match said_by(step(numbering, "ilvl"@), "val"@) {
        Some(raw) => match unsigned_value(raw, usize::MAX as int) {
            Some(n) => n,
            None => 0,
        },
        None => 0,
    }
}

impl Tables {
    /// The target of a relation of the document.
    pub open spec fn target(self, id: Seq<char>) -> Seq<char> {
        match first(self.rels, |r: Rel| r.source@ == "word/document.xml"@ && r.id@ == id) {
            Some(i) => self.rels[i].target@,
            None => Seq::empty(),
        }
    }

    /// The name of a style.
    pub open spec fn style_name(self, id: Seq<char>) -> Option<Seq<char>> {
        said_by(step(find_by(self.styles, "styleId"@, id), "name"@), "val"@)
    }

    /// The numbering of the first style with that id that names a list.
    pub open spec fn style_list(self, id: Seq<char>) -> Option<Node> {
        match first(self.styles, |s: Node| numbers(s, id)) {
            Some(i) => style_numbering(self.styles[i]),
            None => None,
        }
    }

    /// The format of a level of a list. The list leads to a definition, and the definition has
    /// the level.
    pub open spec fn level_format(self, num_id: Seq<char>, depth: int) -> Option<Seq<char>> {
        match said_by(step(find_said(self.nums, "numId"@, num_id), "abstractNumId"@), "val"@) {
            Some(id) => match find_said(self.abstracts, "abstractNumId"@, id) {
                Some(had) => said_by(
                    step(
                        find_said(had.all_of("lvl"@), "ilvl"@, dec(depth as nat)),
                        "numFmt"@,
                    ),
                    "val"@,
                ),
                None => None,
            },
            None => None,
        }
    }

    /// The format of the level of a numbering.
    pub open spec fn format_of(self, numbering: Option<Node>) -> Option<Seq<char>> {
        match said_by(step(numbering, "numId"@), "val"@) {
            Some(id) => self.level_format(id, depth_of(numbering)),
            None => None,
        }
    }
}

fn ask_val<'a>(n: Option<&'a Node>, want: &str) -> (r: Option<&'a str>)
    ensures
        slice_in(r) == said_by(step(node_in(n), want@), "val"@),
{
    match go(n, want) {
        Some(x) => x.attr_local("val"),
        None => None,
    }
}

fn find_depth(numbering: Option<&Node>) -> (r: u64)
    ensures
        r == depth_of(node_in(numbering)),
        r <= usize::MAX,
{
    match ask_val(numbering, "ilvl") {
        Some(raw) => match parse_unsigned(raw, usize::MAX as u64) {
            Some(n) => n,
            None => 0,
        },
        None => 0,
    }
}

impl<'a> Book<'a> {
    spec fn tables(self) -> Tables {
        Tables {
            rels: self.rels@,
            styles: nodes(self.styles@),
            nums: nodes(self.nums@),
            abstracts: nodes(self.abstracts@),
        }
    }

    fn target(&self, id: &str) -> (r: String)
        ensures
            r@ == self.tables().target(id@),
    {
        let rels: &Vec<Rel> = self.rels;
        let ghost p = |r: Rel| r.source@ == "word/document.xml"@ && r.id@ == id@;
        let mut i: usize = 0;
        while i < rels.len()
            invariant
                i <= rels@.len(),
                p == (|r: Rel| r.source@ == "word/document.xml"@ && r.id@ == id@),
                rels@ == self.tables().rels,
                first(rels@, p) == first_from(rels@, p, i as int),
            decreases rels@.len() - i,
        {
            if same(rels[i].source.as_str(), "word/document.xml") && same(rels[i].id.as_str(), id) {
                return rels[i].target.as_str().to_owned();
            }
            i += 1;
        }
        let none: String = String::new();
        assert(none@ =~= Seq::empty());
        none
    }

    fn style_name(&self, id: &str) -> (r: Option<&'a str>)
        ensures
            slice_in(r) == self.tables().style_name(id@),
    {
        ask_val(find_node(&self.styles, "styleId", id), "name")
    }

    fn style_list(&self, id: &str) -> (r: Option<&'a Node>)
        ensures
            node_in(r) == self.tables().style_list(id@),
    {
        let styles: &Vec<&'a Node> = &self.styles;
        let ghost list = nodes(styles@);
        let ghost p = |s: Node| numbers(s, id@);
        let mut i: usize = 0;
        while i < styles.len()
            invariant
                i <= styles@.len(),
                list == nodes(styles@),
                list == self.tables().styles,
                p == (|s: Node| numbers(s, id@)),
                first(list, p) == first_from(list, p, i as int),
            decreases styles@.len() - i,
        {
            let one: &'a Node = styles[i];
            assert(list[i as int] == *one);
            let hit: bool = match one.attr_local("styleId") {
                Some(had) => same(had, id),
                None => false,
            };
            if hit {
                let numbering: Option<&'a Node> = go(go(Some(one), "pPr"), "numPr");
                if ask_val(numbering, "numId").is_some() {
                    return numbering;
                }
            }
            i += 1;
        }
        None
    }

    fn level_format(&self, num_id: &str, depth: u64) -> (r: Option<&'a str>)
        ensures
            slice_in(r) == self.tables().level_format(num_id@, depth as int),
    {
        let num: Option<&'a Node> = look_said(&self.nums, "numId", num_id);
        match ask_val(num, "abstractNumId") {
            Some(id) => match look_said(&self.abstracts, "abstractNumId", id) {
                Some(had) => {
                    let mut level: String = String::new();
                    push_dec(&mut level, depth);
                    assert(level@ =~= dec(depth as nat));
                    let levels: Vec<&'a Node> = had.all("lvl");
                    ask_val(look_said(&levels, "ilvl", level.as_str()), "numFmt")
                },
                None => None,
            },
            None => None,
        }
    }

    fn format_of(&self, numbering: Option<&Node>) -> (r: Option<&'a str>)
        ensures
            slice_in(r) == self.tables().format_of(node_in(numbering)),
    {
        match ask_val(numbering, "numId") {
            Some(id) => self.level_format(id, find_depth(numbering)),
            None => None,
        }
    }
}

/// The digits of a text.
pub open spec fn digits_in(s: Seq<char>) -> Seq<char> {
    s.filter(|c: char| '0' <= c && c <= '9')
}

/// The level of the heading that a style of that name makes: the number in the name, or one. No
/// heading unless the name, which in small letters is `low`, begins like one.
pub open spec fn level_in(low: Seq<char>, name: Seq<char>) -> Option<int> {
    if begins(low, "heading"@) || begins(low, "标题"@) {
        match unsigned_value(digits_in(name), u32::MAX as int) {
            Some(n) => if n > 0 {
                Some(n)
            } else {
                Some(1)
            },
            None => Some(1),
        }
    } else {
        None
    }
}

fn pick_digits(s: &str) -> (r: String)
    ensures
        r@ == digits_in(s@),
{
    let c: Vec<char> = chars_of(s);
    let ghost p = |c: char| '0' <= c && c <= '9';
    let mut out: Vec<char> = Vec::new();
    let mut i: usize = 0;
    assert(out@ =~= c@.take(0).filter(p)) by {
        reveal(Seq::filter);
    }
    while i < c.len()
        invariant
            i <= c@.len(),
            p == (|c: char| '0' <= c && c <= '9'),
            out@ == c@.take(i as int).filter(p),
        decreases c@.len() - i,
    {
        proof {
            crate::lists::lemma_filter_take(c@, p, i as int);
        }
        if '0' <= c[i] && c[i] <= '9' {
            out.push(c[i]);
        }
        i += 1;
    }
    assert(c@.take(i as int) =~= c@);
    text_of(out.as_slice())
}

/// The level of the heading that a style of that name makes; `low` is the name in small letters.
pub fn level_of(low: &str, name: &str) -> (r: Option<u64>)
    ensures
        match r {
            Some(n) => level_in(low@, name@) == Some(n as int),
            None => level_in(low@, name@) is None,
        },
{
    if starts_with(low, "heading") || starts_with(low, "标题") {
        match parse_unsigned(pick_digits(name).as_str(), u32::MAX as u64) {
            Some(n) => if n > 0 {
                Some(n)
            } else {
                Some(1)
            },
            None => Some(1),
        }
    } else {
        None
    }
}

/// The level that the style of a paragraph gives, by the name of the style or else by its id.
pub open spec fn styled_level(para: Node, t: Tables) -> Option<int> {
    match said_by(first_below(para, "pStyle"@), "val"@) {
        Some(id) => {
            let by_name = match t.style_name(id) {
                Some(name) => level_in(lowercase(name), name),
                None => None,
            };
            match by_name {
                Some(n) => Some(n),
                None => level_in(lowercase(id), id),
            }
        },
        None => None,
    }
}

/// The level of the heading that a paragraph is: that of its style, or else the one that it
/// states itself.
pub open spec fn heading_level(para: Node, t: Tables) -> Option<int> {
    match styled_level(para, t) {
        Some(n) => Some(n),
        None => match said_by(first_below(para, "outlineLvl"@), "val"@) {
            Some(raw) => match unsigned_value(raw, u32::MAX as int) {
                Some(n) => Some(n + 1),
                None => None,
            },
            None => None,
        },
    }
}

fn find_level(para: &Node, book: &Book) -> (r: Option<u64>)
    ensures
        match r {
            Some(n) => heading_level(*para, book.tables()) == Some(n as int),
            None => heading_level(*para, book.tables()) is None,
        },
{
    if let Some(found) = find_below(para, "pStyle") {
        if let Some(id) = found.attr_local("val") {
            if let Some(name) = book.style_name(id) {
                let low: String = name.to_lowercase();
                if let Some(n) = level_of(low.as_str(), name) {
                    return Some(n);
                }
            }
            let low: String = id.to_lowercase();
            if let Some(n) = level_of(low.as_str(), id) {
                return Some(n);
            }
        }
    }
    match find_below(para, "outlineLvl") {
        Some(hit) => match hit.attr_local("val") {
            Some(raw) => match parse_unsigned(raw, u32::MAX as u64) {
                Some(n) => Some(n + 1),
                None => None,
            },
            None => None,
        },
        None => None,
    }
}

/// An item of a list: how deep it stands, the format of its level, and whether its style made it
/// an item.
pub struct Item {
    pub depth: int,
    pub format: Option<Seq<char>>,
    pub from_style: bool,
}

struct ItemRow {
    depth: u64,
    format: Option<String>,
    from_style: bool,
}

impl ItemRow {
    spec fn item(self) -> Item {
        Item { depth: self.depth as int, format: text_in(self.format), from_style: self.from_style }
    }
}

/// The style that a paragraph names.
pub open spec fn own_style(para: Node) -> Option<Node> {
    match step(step(Some(para), "pPr"@), "pStyle"@) {
        Some(n) => Some(n),
        None => first_below(para, "pStyle"@),
    }
}

/// The item of a list that a paragraph is. The paragraph itself says so, or else its style.
pub open spec fn list_of(para: Node, t: Tables) -> Option<Item> {
    match step(step(Some(para), "pPr"@), "numPr"@) {
        Some(own) => Some(
            Item {
                depth: depth_of(Some(own)),
                format: t.format_of(Some(own)),
                from_style: false,
            },
        ),
        None => match said_by(own_style(para), "val"@) {
            Some(id) => match t.style_list(id) {
                Some(numbering) => Some(
                    Item {
                        depth: depth_of(Some(numbering)),
                        format: t.format_of(Some(numbering)),
                        from_style: true,
                    },
                ),
                None => None,
            },
            None => None,
        },
    }
}

fn find_list(para: &Node, book: &Book) -> (r: Option<ItemRow>)
    ensures
        match r {
            Some(i) => list_of(*para, book.tables()) == Some(i.item()),
            None => list_of(*para, book.tables()) is None,
        },
{
    let props: Option<&Node> = go(Some(para), "pPr");
    if let Some(own) = go(props, "numPr") {
        return Some(
            ItemRow {
                depth: find_depth(Some(own)),
                format: owned(book.format_of(Some(own))),
                from_style: false,
            },
        );
    }
    let style: Option<&Node> = match go(props, "pStyle") {
        Some(n) => Some(n),
        None => find_below(para, "pStyle"),
    };
    let id: &str = match style {
        Some(n) => match n.attr_local("val") {
            Some(v) => v,
            None => {
                return None;
            },
        },
        None => {
            return None;
        },
    };
    match book.style_list(id) {
        Some(numbering) => Some(
            ItemRow {
                depth: find_depth(Some(numbering)),
                format: owned(book.format_of(Some(numbering))),
                from_style: true,
            },
        ),
        None => None,
    }
}

/// What an element of a run adds to its text.
pub open spec fn run_text(c: Seq<Node>) -> Seq<char>
    decreases c,
{
    if c.len() == 0 {
        Seq::empty()
    } else {
        let n = c.last();
        let local = n.local_name();
        let own = if n.name@ == "#text"@ || local == "rPr"@ || local == "drawing"@ || local
            == "pict"@ || local == "object"@ {
            Seq::empty()
        } else if local == "tab"@ {
            seq![' ']
        } else if local == "br"@ {
            if n.attr_text("type"@) is None || n.attr_text("type"@) == Some("textWrapping"@) {
                seq![HARD]
            } else {
                Seq::empty()
            }
        } else if local == "t"@ || local == "delText"@ {
            n.full_text()
        } else {
            run_text(n.children@)
        };
        run_text(c.drop_last()) + own
    }
}

fn seg_text(node: &Node, out: &mut String)
    ensures
        final(out)@ == old(out)@ + run_text(node.children@),
    decreases node,
{
    let ghost c = node.children@;
    let ghost start = out@;
    let mut i: usize = 0;
    assert(c.take(0) =~= Seq::empty());
    assert(out@ =~= start + run_text(c.take(0)));
    while i < node.children.len()
        invariant
            i <= node.children@.len(),
            c == node.children@,
            out@ == start + run_text(c.take(i as int)),
        decreases node.children@.len() - i,
    {
        let n: &Node = &node.children[i];
        let ghost done = c.take(i + 1);
        assert(done.drop_last() =~= c.take(i as int));
        assert(done.last() == *n);
        if same(n.name.as_str(), "#text") || n.is("rPr") || n.is("drawing") || n.is("pict") || n.is(
            "object",
        ) {
        } else if n.is("tab") {
            out.push(' ');
        } else if n.is("br") {
            let wraps: bool = match n.attr_local("type") {
                Some(kind) => same(kind, "textWrapping"),
                None => true,
            };
            if wraps {
                out.push(HARD);
            }
        } else if n.is("t") || n.is("delText") {
            out.append(n.text().as_str());
        } else {
            seg_text(n, out);
        }
        i += 1;
        assert(out@ =~= start + run_text(done));
    }
    assert(c.take(i as int) =~= c);
}

/// An element that describes a picture.
pub open spec fn describes_picture(n: Node) -> bool {
    &&& n.local_name() == "docPr"@ || n.local_name() == "cNvPr"@
    &&& match n.attr_exact("descr"@) {
        Some(t) => t.len() > 0,
        None => false,
    }
}

/// The description of a picture: the first that one of its elements gives.
pub open spec fn alt_of(n: Node) -> Seq<char> {
    let hits = elements_in(n.children@);
    match first(hits, |h: Node| describes_picture(h)) {
        Some(i) => or_empty(hits[i].attr_exact("descr"@)),
        None => Seq::empty(),
    }
}

/// The place of a picture: the target of the first relation that one of its elements names.
pub open spec fn place_of(n: Node, t: Tables) -> Seq<char> {
    let hits = elements_in(n.children@);
    match first(
        hits,
        |h: Node| h.local_name() == "blip"@ && h.attr_text("embed"@) is Some,
    ) {
        Some(i) => t.target(or_empty(hits[i].attr_text("embed"@))),
        None => Seq::empty(),
    }
}

/// A picture as a piece of a line.
pub open spec fn picture_of(n: Node, t: Tables) -> Piece {
    pictured(alt_of(n), place_of(n, t))
}

fn find_alt<'a>(hits: &Vec<&'a Node>) -> (r: &'a str)
    ensures
        r@ == match first(nodes(hits@), |h: Node| describes_picture(h)) {
            Some(i) => or_empty(nodes(hits@)[i].attr_exact("descr"@)),
            None => Seq::empty(),
        },
{
    let ghost list = nodes(hits@);
    let ghost p = |h: Node| describes_picture(h);
    let mut i: usize = 0;
    while i < hits.len()
        invariant
            i <= hits@.len(),
            list == nodes(hits@),
            p == (|h: Node| describes_picture(h)),
            first(list, p) == first_from(list, p, i as int),
        decreases hits@.len() - i,
    {
        let one: &'a Node = hits[i];
        assert(list[i as int] == *one);
        if one.is("docPr") || one.is("cNvPr") {
            if let Some(t) = one.attr("descr") {
                if t.unicode_len() > 0 {
                    return t;
                }
            }
        }
        i += 1;
    }
    proof {
        reveal_strlit("");
        assert(""@ =~= Seq::empty());
    }
    ""
}

fn find_embed<'a>(hits: &Vec<&'a Node>) -> (r: Option<&'a str>)
    ensures
        slice_in(r) == match first(
            nodes(hits@),
            |h: Node| h.local_name() == "blip"@ && h.attr_text("embed"@) is Some,
        ) {
            Some(i) => nodes(hits@)[i].attr_text("embed"@),
            None => None,
        },
{
    let ghost list = nodes(hits@);
    let ghost p = |h: Node| h.local_name() == "blip"@ && h.attr_text("embed"@) is Some;
    let mut i: usize = 0;
    while i < hits.len()
        invariant
            i <= hits@.len(),
            list == nodes(hits@),
            p == (|h: Node| h.local_name() == "blip"@ && h.attr_text("embed"@) is Some),
            first(list, p) == first_from(list, p, i as int),
        decreases hits@.len() - i,
    {
        let one: &'a Node = hits[i];
        assert(list[i as int] == *one);
        if one.is("blip") {
            if let Some(id) = one.attr_local("embed") {
                return Some(id);
            }
        }
        i += 1;
    }
    None
}

proof fn lemma_first_holds(s: Seq<Node>, p: spec_fn(Node) -> bool)
    ensures
        match first(s, p) {
            Some(i) => 0 <= i < s.len() && p(s[i]),
            None => true,
        },
{
    crate::lists::lemma_first_from(s, p, 0);
}

fn picture(node: &Node, book: &Book) -> (r: Seg)
    ensures
        r.piece() == picture_of(*node, book.tables()),
{
    let mut hits: Vec<&Node> = Vec::new();
    subtree(node, &mut hits);
    assert(nodes(hits@) =~= elements_in(node.children@));
    let alt: &str = find_alt(&hits);
    let target: String = match find_embed(&hits) {
        Some(id) => book.target(id),
        None => {
            proof {
                lemma_first_holds(
                    nodes(hits@),
                    |h: Node| h.local_name() == "blip"@ && h.attr_text("embed"@) is Some,
                );
            }
            let none: String = String::new();
            assert(none@ =~= Seq::empty());
            none
        },
    };
    Seg::picture(alt, target.as_str())
}

/// A value that switches a property off.
pub open spec fn off(raw: Seq<char>) -> bool {
    raw == "0"@ || raw == "false"@ || raw == "none"@
}

/// An element of the properties of a run that switches `a` or `b` on.
pub open spec fn turns_on(n: Node, a: Seq<char>, b: Seq<char>) -> bool {
    &&& n.name@ != "#text"@
    &&& n.local_name() == a || n.local_name() == b
    &&& match n.attr_text("val"@) {
        Some(raw) => !off(raw),
        None => true,
    }
}

/// The properties of a run switch `a` or `b` on.
pub open spec fn turned_on(run: Node, a: Seq<char>, b: Seq<char>) -> bool {
    match run.child_of("rPr"@) {
        Some(props) => exists|i: int|
            0 <= i < props.children@.len() && turns_on(#[trigger] props.children@[i], a, b),
        None => false,
    }
}

fn is_on(run: &Node, a: &str, b: &str) -> (r: bool)
    ensures
        r == turned_on(*run, a@, b@),
{
    let props: &Node = match run.child("rPr") {
        Some(p) => p,
        None => {
            return false;
        },
    };
    let mut i: usize = 0;
    while i < props.children.len()
        invariant
            i <= props.children@.len(),
            run.child_of("rPr"@) == Some(*props),
            forall|k: int| 0 <= k < i ==> !turns_on(#[trigger] props.children@[k], a@, b@),
        decreases props.children@.len() - i,
    {
        let n: &Node = &props.children[i];
        if !same(n.name.as_str(), "#text") && (n.is(a) || n.is(b)) {
            let on: bool = match n.attr_local("val") {
                Some(raw) => !(same(raw, "0") || same(raw, "false") || same(raw, "none")),
                None => true,
            };
            if on {
                let ghost c = run.child_of("rPr"@).unwrap().children@;
                assert(0 <= i < c.len() && turns_on(c[i as int], a@, b@));
                return true;
            }
        }
        i += 1;
    }
    false
}

/// The pictures of a list of nodes.
pub open spec fn pictures_of(c: Seq<Node>, t: Tables) -> Seq<Piece> {
    Seq::new(c.len(), |i: int| picture_of(c[i], t))
}

/// The pieces of a run: its text with its shape, and its pictures.
pub open spec fn run_pieces(run: Node, t: Tables, link: Option<Seq<char>>) -> Seq<Piece> {
    let text = run_text(run.children@);
    let said = if text.len() == 0 {
        Seq::empty()
    } else {
        seq![
            words(text, turned_on(run, "b"@, "bCs"@), turned_on(run, "i"@, "iCs"@), link),
        ]
    };
    said + pictures_of(run.all_of("drawing"@), t) + pictures_of(run.all_of("pict"@), t)
}

fn add_pictures(c: &Vec<&Node>, book: &Book, out: &mut Vec<Seg>)
    ensures
        pieces(final(out)@) == pieces(old(out)@) + pictures_of(nodes(c@), book.tables()),
{
    let ghost start = pieces(out@);
    let ghost all = pictures_of(nodes(c@), book.tables());
    let mut i: usize = 0;
    assert(pieces(out@) =~= start + all.take(0));
    while i < c.len()
        invariant
            i <= c@.len(),
            all == pictures_of(nodes(c@), book.tables()),
            pieces(out@) == start + all.take(i as int),
        decreases c@.len() - i,
    {
        assert(nodes(c@)[i as int] == *c@[i as int]);
        out.push(picture(c[i], book));
        i += 1;
        assert(pieces(out@) =~= start + all.take(i as int));
    }
    assert(all.take(i as int) =~= all);
}

fn run_seg(run: &Node, book: &Book, out: &mut Vec<Seg>, link: &Option<String>)
    ensures
        pieces(final(out)@) == pieces(old(out)@) + run_pieces(
            *run,
            book.tables(),
            text_in(*link),
        ),
{
    let ghost start = pieces(out@);
    let mut text: String = String::new();
    seg_text(run, &mut text);
    assert(text@ =~= run_text(run.children@));
    if text.as_str().unicode_len() > 0 {
        out.push(
            Seg::said(text.as_str(), is_on(run, "b", "bCs"), is_on(run, "i", "iCs"), link),
        );
    }
    add_pictures(&run.all("drawing"), book, out);
    add_pictures(&run.all("pict"), book, out);
    assert(pieces(out@) =~= start + run_pieces(*run, book.tables(), text_in(*link)));
}

/// Where a link leads: the target of its relation, or a place in the document.
pub open spec fn link_target(n: Node, t: Tables) -> Seq<char> {
    match n.attr_text("id"@) {
        Some(id) => t.target(id),
        None => match n.attr_text("anchor"@) {
            Some(anchor) => "#"@ + anchor,
            None => Seq::empty(),
        },
    }
}

fn find_target(n: &Node, book: &Book) -> (r: String)
    ensures
        r@ == link_target(*n, book.tables()),
{
    match n.attr_local("id") {
        Some(id) => book.target(id),
        None => match n.attr_local("anchor") {
            Some(anchor) => {
                let mut t: String = "#".to_owned();
                t.append(anchor);
                t
            },
            None => {
                let none: String = String::new();
                assert(none@ =~= Seq::empty());
                none
            },
        },
    }
}

/// The pieces of the first `n` runs in a link.
pub open spec fn linked_upto(runs: Seq<Node>, t: Tables, target: Seq<char>, n: int) -> Seq<Piece>
    decreases n,
{
    if n <= 0 {
        Seq::empty()
    } else {
        linked_upto(runs, t, target, n - 1) + run_pieces(runs[n - 1], t, Some(target))
    }
}

/// The pieces of a link.
pub open spec fn link_pieces(n: Node, t: Tables) -> Seq<Piece> {
    linked_upto(n.all_of("r"@), t, link_target(n, t), n.all_of("r"@).len() as int)
}

fn add_link(n: &Node, book: &Book, out: &mut Vec<Seg>)
    ensures
        pieces(final(out)@) == pieces(old(out)@) + link_pieces(*n, book.tables()),
{
    let ghost start = pieces(out@);
    let target: String = find_target(n, book);
    let ghost to = target@;
    let link: Option<String> = Some(target);
    let runs: Vec<&Node> = n.all("r");
    let ghost rs = nodes(runs@);
    let mut i: usize = 0;
    assert(pieces(out@) =~= start + linked_upto(rs, book.tables(), to, 0));
    while i < runs.len()
        invariant
            i <= runs@.len(),
            rs == nodes(runs@),
            text_in(link) == Some(to),
            pieces(out@) == start + linked_upto(rs, book.tables(), to, i as int),
        decreases runs@.len() - i,
    {
        assert(rs[i as int] == *runs@[i as int]);
        run_seg(runs[i], book, out, &link);
        i += 1;
        assert(pieces(out@) =~= start + linked_upto(rs, book.tables(), to, i as int));
    }
    assert(rs.len() == runs@.len());
}

/// The pieces of a paragraph. Deleted text is left out, inserted text is not.
pub open spec fn segments(c: Seq<Node>, t: Tables) -> Seq<Piece>
    decreases c,
{
    if c.len() == 0 {
        Seq::empty()
    } else {
        let n = c.last();
        let local = n.local_name();
        let own = if n.name@ == "#text"@ || local == "pPr"@ || local == "del"@ {
            Seq::empty()
        } else if local == "r"@ {
            run_pieces(n, t, None)
        } else if local == "hyperlink"@ {
            link_pieces(n, t)
        } else if local == "drawing"@ || local == "pict"@ || local == "object"@ {
            seq![picture_of(n, t)]
        } else {
            segments(n.children@, t)
        };
        segments(c.drop_last(), t) + own
    }
}

fn add_segments(para: &Node, book: &Book, out: &mut Vec<Seg>)
    ensures
        pieces(final(out)@) == pieces(old(out)@) + segments(para.children@, book.tables()),
    decreases para,
{
    let ghost c = para.children@;
    let ghost t = book.tables();
    let ghost start = pieces(out@);
    let mut i: usize = 0;
    assert(c.take(0) =~= Seq::empty());
    assert(pieces(out@) =~= start + segments(c.take(0), t));
    while i < para.children.len()
        invariant
            i <= para.children@.len(),
            c == para.children@,
            t == book.tables(),
            pieces(out@) == start + segments(c.take(i as int), t),
        decreases para.children@.len() - i,
    {
        let n: &Node = &para.children[i];
        let ghost done = c.take(i + 1);
        assert(done.drop_last() =~= c.take(i as int));
        assert(done.last() == *n);
        if same(n.name.as_str(), "#text") || n.is("pPr") || n.is("del") {
        } else if n.is("r") {
            run_seg(n, book, out, &None);
        } else if n.is("hyperlink") {
            add_link(n, book, out);
        } else if n.is("drawing") || n.is("pict") || n.is("object") {
            out.push(picture(n, book));
        } else {
            add_segments(n, book, out);
        }
        i += 1;
        assert(pieces(out@) =~= start + segments(done, t));
    }
    assert(c.take(i as int) =~= c);
}

/// The line of a paragraph.
pub open spec fn line_of(para: Node, t: Tables, pipe: bool) -> Seq<char> {
    rendered(segments(para.children@, t), pipe)
}

fn read_line(para: &Node, book: &Book, pipe: bool) -> (r: String)
    ensures
        r@ == line_of(*para, book.tables(), pipe),
{
    let mut segs: Vec<Seg> = Vec::new();
    add_segments(para, book, &mut segs);
    assert(pieces(segs@) =~= segments(para.children@, book.tables()));
    render(&segs, pipe)
}

/// The lines of the first `n` paragraphs of a cell that hold something.
pub open spec fn cell_lines(paras: Seq<Node>, t: Tables, n: int) -> Seq<Seq<char>>
    decreases n,
{
    if n <= 0 {
        Seq::empty()
    } else {
        let one = flat(line_of(paras[n - 1], t, true));
        if one.len() == 0 {
            cell_lines(paras, t, n - 1)
        } else {
            cell_lines(paras, t, n - 1).push(one)
        }
    }
}

/// The text of a cell.
pub open spec fn cell_of(tc: Node, t: Tables) -> Seq<char> {
    let paras = tc.all_of("p"@);
    strung(cell_lines(paras, t, paras.len() as int), "<br>"@)
}

fn cell_text(tc: &Node, book: &Book) -> (r: String)
    ensures
        r@ == cell_of(*tc, book.tables()),
{
    let paras: Vec<&Node> = tc.all("p");
    let ghost ps = nodes(paras@);
    let mut bits: Vec<String> = Vec::new();
    let mut i: usize = 0;
    assert(texts(bits@) =~= cell_lines(ps, book.tables(), 0));
    while i < paras.len()
        invariant
            i <= paras@.len(),
            ps == nodes(paras@),
            texts(bits@) == cell_lines(ps, book.tables(), i as int),
        decreases paras@.len() - i,
    {
        assert(ps[i as int] == *paras@[i as int]);
        let line: String = read_line(paras[i], book, true);
        let one: String = replace(trim(line.as_str()), '\n', "<br>");
        if one.as_str().unicode_len() > 0 {
            bits.push(one);
        }
        i += 1;
    }
    assert(ps.len() == paras@.len());
    string_together(&bits, "<br>")
}

/// The cells of a row.
pub open spec fn row_of(tr: Node, t: Tables) -> Seq<Seq<char>> {
    let cells = tr.all_of("tc"@);
    Seq::new(cells.len(), |i: int| cell_of(cells[i], t))
}

/// The rows of a table.
pub open spec fn rows_of(tbl: Node, t: Tables) -> Seq<Seq<Seq<char>>> {
    let rows = tbl.all_of("tr"@);
    Seq::new(rows.len(), |i: int| row_of(rows[i], t))
}

fn read_row(tr: &Node, book: &Book) -> (r: Vec<String>)
    ensures
        texts(r@) == row_of(*tr, book.tables()),
{
    let cells: Vec<&Node> = tr.all("tc");
    let r: Vec<String> = each(
        &cells,
        cells.len(),
        |i: usize, n: &&Node| -> (r: String)
            ensures
                r@ == cell_of(**n, book.tables())
            { cell_text(n, book) },
    );
    assert(nodes(cells@).len() == cells@.len());
    assert forall|i: int| 0 <= i < r@.len() implies texts(r@)[i] == #[trigger] row_of(
        *tr,
        book.tables(),
    )[i] by {
        assert(nodes(cells@)[i] == *cells@[i]);
        assert(r@[i]@ == cell_of(*cells@[i], book.tables()));
    }
    assert(texts(r@) =~= row_of(*tr, book.tables()));
    r
}

fn table_md(tbl: &Node, book: &Book) -> (r: String)
    ensures
        r@ == table_text(rows_of(*tbl, book.tables())),
{
    let trs: Vec<&Node> = tbl.all("tr");
    let rows: Vec<Vec<String>> = each(
        &trs,
        trs.len(),
        |i: usize, n: &&Node| -> (r: Vec<String>)
            ensures
                texts(r@) == row_of(**n, book.tables())
            { read_row(n, book) },
    );
    assert(nodes(trs@).len() == trs@.len());
    assert forall|i: int| 0 <= i < rows@.len() implies row_texts(rows@)[i] == #[trigger] rows_of(
        *tbl,
        book.tables(),
    )[i] by {
        assert(nodes(trs@)[i] == *trs@[i]);
        assert(texts(rows@[i]@) == row_of(*trs@[i], book.tables()));
    }
    assert(row_texts(rows@) =~= rows_of(*tbl, book.tables()));
    write_table(&rows)
}

/// What an element of the body comes to.
pub enum Unit {
    /// Something that Markdown has nothing for.
    Other,
    /// A paragraph without a word.
    Dropped,
    Heading { level: int, text: Seq<char> },
    Item { item: Item, text: Seq<char> },
    Paragraph { text: Seq<char> },
    Table { rows: nat, text: Seq<char> },
}

/// What an element of the body comes to.
pub open spec fn unit_of(n: Node, t: Tables) -> Unit {
    if n.local_name() == "p"@ {
        let text = trimmed(line_of(n, t, false));
        if text.len() == 0 {
            Unit::Dropped
        } else {
            match heading_level(n, t) {
                Some(level) => Unit::Heading { level, text },
                None => match list_of(n, t) {
                    Some(item) => Unit::Item { item, text },
                    None => Unit::Paragraph { text },
                },
            }
        }
    } else if n.local_name() == "tbl"@ {
        let text = table_text(rows_of(n, t));
        if text.len() == 0 {
            Unit::Other
        } else {
            Unit::Table { rows: n.all_of("tr"@).len(), text }
        }
    } else {
        Unit::Other
    }
}

/// An item of a list whose level has a format other than a bullet.
pub open spec fn is_ordered(item: Item) -> bool {
    item.format is Some && item.format != Some("bullet"@)
}

/// The block that a unit makes.
pub open spec fn block_of(u: Unit) -> Option<Chunk> {
    match u {
        Unit::Other => None,
        Unit::Dropped => None,
        Unit::Heading { level, text } => Some(Chunk { item: false, text: heading(level, text) }),
        Unit::Item { item, text } => Some(
            Chunk { item: true, text: list_item(item.depth, is_ordered(item), text) },
        ),
        Unit::Paragraph { text } => Some(Chunk { item: false, text: paragraph(text) }),
        Unit::Table { rows, text } => Some(Chunk { item: false, text }),
    }
}

/// The blocks that the first `n` units make.
pub open spec fn blocks_upto(s: Seq<Unit>, n: int) -> Seq<Chunk>
    decreases n,
{
    if n <= 0 {
        Seq::empty()
    } else {
        match block_of(s[n - 1]) {
            Some(b) => blocks_upto(s, n - 1).push(b),
            None => blocks_upto(s, n - 1),
        }
    }
}

/// How many rows the tables among the first `n` units have.
pub open spec fn rows_upto(s: Seq<Unit>, n: int) -> nat
    decreases n,
{
    if n <= 0 {
        0
    } else {
        rows_upto(s, n - 1) + match s[n - 1] {
            Unit::Table { rows, text } => rows,
            _ => 0,
        }
    }
}

enum UnitRow {
    Other,
    Dropped,
    Heading { level: u64, text: String },
    Item { item: ItemRow, text: String },
    Paragraph { text: String },
    Table { rows: usize, text: String },
}

impl UnitRow {
    spec fn unit(self) -> Unit {
        match self {
            UnitRow::Other => Unit::Other,
            UnitRow::Dropped => Unit::Dropped,
            UnitRow::Heading { level, text } => Unit::Heading { level: level as int, text: text@ },
            UnitRow::Item { item, text } => Unit::Item { item: item.item(), text: text@ },
            UnitRow::Paragraph { text } => Unit::Paragraph { text: text@ },
            UnitRow::Table { rows, text } => Unit::Table { rows: rows as nat, text: text@ },
        }
    }
}

fn read_unit(n: &Node, book: &Book) -> (r: UnitRow)
    ensures
        r.unit() == unit_of(*n, book.tables()),
{
    if n.is("p") {
        let line: String = read_line(n, book, false);
        let text: &str = trim(line.as_str());
        if text.unicode_len() == 0 {
            return UnitRow::Dropped;
        }
        if let Some(level) = find_level(n, book) {
            return UnitRow::Heading { level, text: text.to_owned() };
        }
        match find_list(n, book) {
            Some(item) => UnitRow::Item { item, text: text.to_owned() },
            None => UnitRow::Paragraph { text: text.to_owned() },
        }
    } else if n.is("tbl") {
        let text: String = table_md(n, book);
        if text.as_str().unicode_len() == 0 {
            UnitRow::Other
        } else {
            let trs: Vec<&Node> = n.all("tr");
            assert(nodes(trs@).len() == trs@.len());
            UnitRow::Table { rows: trs.len(), text }
        }
    } else {
        UnitRow::Other
    }
}

fn read_order(item: &ItemRow) -> (r: bool)
    ensures
        r == is_ordered(item.item()),
{
    match &item.format {
        Some(f) => !same(f.as_str(), "bullet"),
        None => false,
    }
}

fn read_block(u: &UnitRow) -> (r: Option<Block>)
    ensures
        match r {
            Some(b) => block_of(u.unit()) == Some(b.chunk()),
            None => block_of(u.unit()) is None,
        },
{
    match u {
        UnitRow::Other => None,
        UnitRow::Dropped => None,
        UnitRow::Heading { level, text } => Some(
            Block { item: false, text: write_heading(*level, text.as_str()) },
        ),
        UnitRow::Item { item, text } => Some(
            Block {
                item: true,
                text: write_item(item.depth, read_order(item), text.as_str()),
            },
        ),
        UnitRow::Paragraph { text } => Some(
            Block { item: false, text: write_paragraph(text.as_str()) },
        ),
        UnitRow::Table { rows, text } => Some(
            Block { item: false, text: text.as_str().to_owned() },
        ),
    }
}

/// The units of a list of elements.
pub open spec fn units_of(c: Seq<Node>, t: Tables) -> Seq<Unit> {
    Seq::new(c.len(), |i: int| unit_of(c[i], t))
}

spec fn units(v: Seq<UnitRow>) -> Seq<Unit> {
    Seq::new(v.len(), |i: int| v[i].unit())
}

/// The body of a document.
pub open spec fn body_of(root: Node) -> Node {
    match first_below(root, "body"@) {
        Some(b) => b,
        None => root,
    }
}

/// A document as Markdown, and why it is so long.
#[derive(Debug, Clone)]
pub struct Report {
    pub shown: Shown,
    pub blocks: usize,
    pub paragraphs: usize,
    pub headings: usize,
    pub list_items: usize,
    pub bullet_items: usize,
    pub ordered_items: usize,
    pub list_from_style: usize,
    pub unresolved_fmt: usize,
    pub tables: usize,
    pub table_rows: u128,
    pub empty_dropped: usize,
}

/// A unit is an item of that kind.
pub open spec fn is_item(u: Unit) -> bool {
    u is Item
}

pub open spec fn is_bullet(u: Unit) -> bool {
    u is Item && !is_ordered(u->Item_item)
}

pub open spec fn is_number(u: Unit) -> bool {
    u is Item && is_ordered(u->Item_item)
}

pub open spec fn is_from_style(u: Unit) -> bool {
    u is Item && u->Item_item.from_style
}

pub open spec fn is_unresolved(u: Unit) -> bool {
    u is Item && u->Item_item.format is None
}

impl Report {
    pub open spec fn describes(self, root: Node, t: Tables, budget: usize) -> bool {
        let u = units_of(body_of(root).children@, t);
        let n = u.len() as int;
        let b = blocks_upto(u, n);
        &&& self.shown.describes(whole_text(b), budget)
        &&& self.blocks == b.len()
        &&& self.paragraphs == tally(|i: int| u[i] is Paragraph, n)
        &&& self.headings == tally(|i: int| u[i] is Heading, n)
        &&& self.list_items == tally(|i: int| is_item(u[i]), n)
        &&& self.bullet_items == tally(|i: int| is_bullet(u[i]), n)
        &&& self.ordered_items == tally(|i: int| is_number(u[i]), n)
        &&& self.list_from_style == tally(|i: int| is_from_style(u[i]), n)
        &&& self.unresolved_fmt == tally(|i: int| is_unresolved(u[i]), n)
        &&& self.tables == tally(|i: int| u[i] is Table, n)
        &&& self.table_rows == rows_upto(u, n)
        &&& self.empty_dropped == tally(|i: int| u[i] is Dropped, n)
    }
}

fn count_rows(v: &Vec<UnitRow>) -> (r: u128)
    ensures
        r == rows_upto(units(v@), v@.len() as int),
{
    let mut sum: u128 = 0;
    let mut i: usize = 0;
    while i < v.len()
        invariant
            i <= v@.len(),
            sum == rows_upto(units(v@), i as int),
            sum <= 0xffff_ffff_ffff_ffff * i,
        decreases v@.len() - i,
    {
        assert(units(v@)[i as int] == v@[i as int].unit());
        match &v[i] {
            UnitRow::Table { rows, text } => {
                sum = sum + *rows as u128;
            },
            _ => {},
        }
        i += 1;
    }
    sum
}

fn make_blocks(v: &Vec<UnitRow>) -> (r: Vec<Block>)
    ensures
        chunks(r@) == blocks_upto(units(v@), v@.len() as int),
{
    let mut out: Vec<Block> = Vec::new();
    let mut i: usize = 0;
    assert(chunks(out@) =~= blocks_upto(units(v@), 0));
    while i < v.len()
        invariant
            i <= v@.len(),
            chunks(out@) == blocks_upto(units(v@), i as int),
        decreases v@.len() - i,
    {
        assert(units(v@)[i as int] == v@[i as int].unit());
        if let Some(b) = read_block(&v[i]) {
            out.push(b);
        }
        i += 1;
    }
    out
}

fn count_units<F: Fn(&UnitRow) -> bool>(
    v: &Vec<UnitRow>,
    f: F,
    Ghost(q): Ghost<spec_fn(Unit) -> bool>,
    Ghost(p): Ghost<spec_fn(int) -> bool>,
) -> (r: usize)
    requires
        forall|u: &UnitRow| call_requires(f, (u,)),
        forall|u: &UnitRow, b: bool| call_ensures(f, (u,), b) ==> b == q(u.unit()),
        forall|i: int| 0 <= i < v@.len() ==> #[trigger] p(i) == q(units(v@)[i]),
    ensures
        r == tally(p, v@.len() as int),
{
    let mut n: usize = 0;
    let mut i: usize = 0;
    while i < v.len()
        invariant
            i <= v@.len(),
            n <= i,
            n == tally(p, i as int),
            forall|u: &UnitRow| call_requires(f, (u,)),
            forall|u: &UnitRow, b: bool| call_ensures(f, (u,), b) ==> b == q(u.unit()),
            forall|i: int| 0 <= i < v@.len() ==> #[trigger] p(i) == q(units(v@)[i]),
        decreases v@.len() - i,
    {
        assert(p(i as int) == q(units(v@)[i as int]));
        if f(&v[i]) {
            n += 1;
        }
        i += 1;
    }
    n
}

/// Writes the body of a document as Markdown. Nothing where the document could not be read.
pub fn docx(
    document: Option<&Node>,
    styles: Option<&Node>,
    numbering: Option<&Node>,
    rels: &Vec<Rel>,
    budget: usize,
) -> (r: Option<Report>)
    ensures
        match (document, r) {
            (Some(root), Some(m)) => m.describes(
                *root,
                tables_of(node_in(styles), node_in(numbering), rels@),
                budget,
            ),
            (None, None) => true,
            _ => false,
        },
{
    let root: &Node = match document {
        Some(d) => d,
        None => {
            return None;
        },
    };
    let book: Book = build(styles, numbering, rels);
    let ghost t = book.tables();
    let body: &Node = match find_below(root, "body") {
        Some(b) => b,
        None => root,
    };
    let rows: Vec<UnitRow> = each(
        &body.children,
        body.children.len(),
        |i: usize, n: &Node| -> (r: UnitRow)
            ensures
                r.unit() == unit_of(*n, t)
            { read_unit(n, &book) },
    );
    let ghost u = units_of(body.children@, t);
    assert(units(rows@) =~= u);
    let blocks: Vec<Block> = make_blocks(&rows);
    assert(chunks(blocks@).len() == blocks@.len());
    let text: String = join_blocks(&blocks);
    let paragraphs: usize = count_units(
        &rows,
        |x: &UnitRow| -> (b: bool)
            ensures
                b == (x.unit() is Paragraph)
            {
                match x {
                    UnitRow::Paragraph { text } => true,
                    _ => false,
                }
            },
        Ghost(|x: Unit| x is Paragraph),
        Ghost(|i: int| u[i] is Paragraph),
    );
    let headings: usize = count_units(
        &rows,
        |x: &UnitRow| -> (b: bool)
            ensures
                b == (x.unit() is Heading)
            {
                match x {
                    UnitRow::Heading { level, text } => true,
                    _ => false,
                }
            },
        Ghost(|x: Unit| x is Heading),
        Ghost(|i: int| u[i] is Heading),
    );
    let list_items: usize = count_units(
        &rows,
        |x: &UnitRow| -> (b: bool)
            ensures
                b == is_item(x.unit())
            {
                match x {
                    UnitRow::Item { item, text } => true,
                    _ => false,
                }
            },
        Ghost(|x: Unit| is_item(x)),
        Ghost(|i: int| is_item(u[i])),
    );
    let bullet_items: usize = count_units(
        &rows,
        |x: &UnitRow| -> (b: bool)
            ensures
                b == is_bullet(x.unit())
            {
                match x {
                    UnitRow::Item { item, text } => !read_order(item),
                    _ => false,
                }
            },
        Ghost(|x: Unit| is_bullet(x)),
        Ghost(|i: int| is_bullet(u[i])),
    );
    let ordered_items: usize = count_units(
        &rows,
        |x: &UnitRow| -> (b: bool)
            ensures
                b == is_number(x.unit())
            {
                match x {
                    UnitRow::Item { item, text } => read_order(item),
                    _ => false,
                }
            },
        Ghost(|x: Unit| is_number(x)),
        Ghost(|i: int| is_number(u[i])),
    );
    let list_from_style: usize = count_units(
        &rows,
        |x: &UnitRow| -> (b: bool)
            ensures
                b == is_from_style(x.unit())
            {
                match x {
                    UnitRow::Item { item, text } => item.from_style,
                    _ => false,
                }
            },
        Ghost(|x: Unit| is_from_style(x)),
        Ghost(|i: int| is_from_style(u[i])),
    );
    let unresolved_fmt: usize = count_units(
        &rows,
        |x: &UnitRow| -> (b: bool)
            ensures
                b == is_unresolved(x.unit())
            {
                match x {
                    UnitRow::Item { item, text } => item.format.is_none(),
                    _ => false,
                }
            },
        Ghost(|x: Unit| is_unresolved(x)),
        Ghost(|i: int| is_unresolved(u[i])),
    );
    let tables: usize = count_units(
        &rows,
        |x: &UnitRow| -> (b: bool)
            ensures
                b == (x.unit() is Table)
            {
                match x {
                    UnitRow::Table { rows, text } => true,
                    _ => false,
                }
            },
        Ghost(|x: Unit| x is Table),
        Ghost(|i: int| u[i] is Table),
    );
    let empty_dropped: usize = count_units(
        &rows,
        |x: &UnitRow| -> (b: bool)
            ensures
                b == (x.unit() is Dropped)
            {
                match x {
                    UnitRow::Dropped => true,
                    _ => false,
                }
            },
        Ghost(|x: Unit| x is Dropped),
        Ghost(|i: int| u[i] is Dropped),
    );
    Some(
        Report {
            shown: cut_text(text.as_str(), budget),
            blocks: blocks.len(),
            paragraphs,
            headings,
            list_items,
            bullet_items,
            ordered_items,
            list_from_style,
            unresolved_fmt,
            tables,
            table_rows: count_rows(&rows),
            empty_dropped,
        },
    )
}

proof fn lemma_units_counted(u: Seq<Unit>, n: int)
    requires
        0 <= n <= u.len(),
    ensures
        blocks_upto(u, n).len() == tally(|i: int| u[i] is Paragraph, n) + tally(
            |i: int| u[i] is Heading,
            n,
        ) + tally(|i: int| is_item(u[i]), n) + tally(|i: int| u[i] is Table, n),
        tally(|i: int| is_item(u[i]), n) == tally(|i: int| is_bullet(u[i]), n) + tally(
            |i: int| is_number(u[i]),
            n,
        ),
    decreases n,
{
    if n > 0 {
        lemma_units_counted(u, n - 1);
    }
}

/// Every block of a document is counted as a paragraph, a heading, an item or a table, once.
pub proof fn law_each_block_is_counted_once(r: Report, root: Node, t: Tables, budget: usize)
    requires
        r.describes(root, t, budget),
    ensures
        r.paragraphs + r.headings + r.list_items + r.tables == r.blocks,
{
    let u = units_of(body_of(root).children@, t);
    lemma_units_counted(u, u.len() as int);
}

/// Every item of a list is set with a bullet or with a number, never with both.
pub proof fn law_items_are_bullets_or_numbers(r: Report, root: Node, t: Tables, budget: usize)
    requires
        r.describes(root, t, budget),
    ensures
        r.bullet_items + r.ordered_items == r.list_items,
{
    let u = units_of(body_of(root).children@, t);
    lemma_units_counted(u, u.len() as int);
}

/// A report under a larger budget shows at least what one under a smaller budget shows, and both
/// say how long the whole text is. A text is cut exactly where it is longer than its budget.
pub proof fn law_a_larger_budget_shows_more(
    root: Node,
    t: Tables,
    a: Report,
    small: usize,
    b: Report,
    large: usize,
)
    requires
        a.describes(root, t, small),
        b.describes(root, t, large),
        small <= large,
    ensures
        a.shown.chars == b.shown.chars,
        a.shown.text@.is_prefix_of(b.shown.text@),
        a.shown.text@.len() == if a.shown.chars < small {
            a.shown.chars
        } else {
            small
        },
        a.shown.cut <==> a.shown.chars > small,
{
    let u = units_of(body_of(root).children@, t);
    let whole = whole_text(blocks_upto(u, u.len() as int));
    law_a_longer_cut_holds_a_shorter(whole, a.shown, small, b.shown, large);
}

/// The properties of a run hold an element of one of two names that is not switched off: one
/// without a value, or with a value other than `0`, `false` and `none`.
pub open spec fn says_on(run: Node, a: Seq<char>, b: Seq<char>) -> bool {
    run.child_of("rPr"@) matches Some(props) && exists|i: int|
        0 <= i < props.children@.len() && (#[trigger] props.children@[i]).name@ != "#text"@ && (
        props.children@[i].local_name() == a || props.children@[i].local_name() == b)
            && props.children@[i].attr_text("val"@) != Some("0"@)
            && props.children@[i].attr_text("val"@) != Some("false"@)
            && props.children@[i].attr_text("val"@) != Some("none"@)
}

proof fn lemma_says_on(run: Node, a: Seq<char>, b: Seq<char>)
    ensures
        turned_on(run, a, b) == says_on(run, a, b),
{
    if let Some(props) = run.child_of("rPr"@) {
        if turned_on(run, a, b) {
            let i = choose|i: int|
                0 <= i < props.children@.len() && turns_on(#[trigger] props.children@[i], a, b);
            assert(props.children@[i].name@ != "#text"@);
        }
        if says_on(run, a, b) {
            let i = choose|i: int|
                0 <= i < props.children@.len() && (#[trigger] props.children@[i]).name@ != "#text"@
                    && (props.children@[i].local_name() == a || props.children@[i].local_name()
                    == b) && props.children@[i].attr_text("val"@) != Some("0"@)
                    && props.children@[i].attr_text("val"@) != Some("false"@)
                    && props.children@[i].attr_text("val"@) != Some("none"@);
            assert(turns_on(props.children@[i], a, b));
        }
    }
}

/// The text of a run is bold exactly where its properties switch `b` or `bCs` on, and italic
/// exactly where they switch `i` or `iCs` on. No other element makes it so.
pub proof fn law_a_run_has_the_shape_that_it_writes(
    run: Node,
    t: Tables,
    link: Option<Seq<char>>,
)
    requires
        run_text(run.children@).len() > 0,
    ensures
        ({
            let one = run_pieces(run, t, link)[0];
            &&& run_pieces(run, t, link).len() == 1 + run.all_of("drawing"@).len() + run.all_of(
                "pict"@,
            ).len()
            &&& one.text == run_text(run.children@)
            &&& one.bold <==> says_on(run, "b"@, "bCs"@)
            &&& one.italic <==> says_on(run, "i"@, "iCs"@)
            &&& one.link == link
            &&& one.image is None
        }),
{
    lemma_says_on(run, "b"@, "bCs"@);
    lemma_says_on(run, "i"@, "iCs"@);
}

/// A run without properties is neither bold nor italic, and a run without text is no text.
pub proof fn law_a_plain_run_is_plain(run: Node, t: Tables, link: Option<Seq<char>>)
    ensures
        run.child_of("rPr"@) is None && run_text(run.children@).len() > 0 ==> !run_pieces(
            run,
            t,
            link,
        )[0].bold && !run_pieces(run, t, link)[0].italic,
        run_text(run.children@).len() == 0 ==> run_pieces(run, t, link).len() == run.all_of(
            "drawing"@,
        ).len() + run.all_of("pict"@).len(),
{
}

/// What each element of a run adds to its text: `t` and `delText` their own text, a tab a blank, a
/// break of lines a break, and a break of pages or columns, the properties and pictures nothing.
pub proof fn law_what_elements_of_a_run_say(c: Seq<Node>, n: Node)
    requires
        n.name@ != "#text"@,
    ensures
        run_text(Seq::empty()).len() == 0,
        n.local_name() == "t"@ || n.local_name() == "delText"@ ==> run_text(c.push(n)) == run_text(
            c,
        ) + n.full_text(),
        n.local_name() == "tab"@ ==> run_text(c.push(n)) == run_text(c).push(' '),
        n.local_name() == "br"@ && (n.attr_text("type"@) is None || n.attr_text("type"@) == Some(
            "textWrapping"@,
        )) ==> run_text(c.push(n)) == run_text(c).push('\u{0}'),
        n.local_name() == "br"@ && (n.attr_text("type"@) == Some("page"@) || n.attr_text("type"@)
            == Some("column"@)) ==> run_text(c.push(n)) == run_text(c),
        n.local_name() == "rPr"@ || n.local_name() == "drawing"@ || n.local_name() == "pict"@
            || n.local_name() == "object"@ ==> run_text(c.push(n)) == run_text(c),
{
    assert(c.push(n).drop_last() =~= c);
    assert(run_text(c) + Seq::empty() =~= run_text(c));
    assert(run_text(c) + seq![' '] =~= run_text(c).push(' '));
    assert(run_text(c) + seq!['\u{0}'] =~= run_text(c).push('\u{0}'));
    lemma_run_words();
}

proof fn lemma_run_words()
    ensures
        "t"@.len() == 1,
        "br"@.len() == 2,
        "tab"@.len() == 3,
        "rPr"@.len() == 3,
        "tab"@ != "rPr"@,
        "pict"@.len() == 4,
        "object"@.len() == 6,
        "drawing"@.len() == 7,
        "delText"@.len() == 7,
        "drawing"@ != "delText"@,
        "page"@.len() == 4,
        "column"@.len() == 6,
        "textWrapping"@.len() == 12,
{
    reveal_strlit("t");
    reveal_strlit("br");
    reveal_strlit("tab");
    reveal_strlit("rPr");
    reveal_strlit("pict");
    reveal_strlit("object");
    reveal_strlit("drawing");
    reveal_strlit("delText");
    reveal_strlit("page");
    reveal_strlit("column");
    reveal_strlit("textWrapping");
    assert("tab"@[0] == 't' && "rPr"@[0] == 'r');
    assert("drawing"@[1] == 'r' && "delText"@[1] == 'e');
}

/// What each child of a paragraph adds to its line: a run its pieces, a link those of its runs with
/// where it leads, a picture itself. Deleted text and the properties add nothing, and anything
/// else, inserted text too, adds what is in it.
pub proof fn law_what_children_of_a_paragraph_add(c: Seq<Node>, n: Node, t: Tables)
    requires
        n.name@ != "#text"@,
    ensures
        segments(Seq::empty(), t).len() == 0,
        n.local_name() == "r"@ ==> segments(c.push(n), t) == segments(c, t) + run_pieces(
            n,
            t,
            None,
        ),
        n.local_name() == "hyperlink"@ ==> segments(c.push(n), t) == segments(c, t) + link_pieces(
            n,
            t,
        ),
        n.local_name() == "drawing"@ || n.local_name() == "pict"@ || n.local_name() == "object"@
            ==> segments(c.push(n), t) == segments(c, t).push(picture_of(n, t)),
        n.local_name() == "del"@ || n.local_name() == "pPr"@ ==> segments(c.push(n), t)
            == segments(c, t),
        n.local_name() == "ins"@ || n.local_name() == "smartTag"@ || n.local_name() == "sdt"@
            || n.local_name() == "sdtContent"@ ==> segments(c.push(n), t) == segments(c, t)
            + segments(n.children@, t),
{
    assert(c.push(n).drop_last() =~= c);
    assert(segments(c, t) + Seq::empty() =~= segments(c, t));
    assert(segments(c, t) + seq![picture_of(n, t)] =~= segments(c, t).push(picture_of(n, t)));
    lemma_run_words();
    reveal_strlit("r");
    reveal_strlit("hyperlink");
    reveal_strlit("del");
    reveal_strlit("pPr");
    reveal_strlit("ins");
    reveal_strlit("smartTag");
    reveal_strlit("sdt");
    reveal_strlit("sdtContent");
    assert("r"@.len() == 1 && "hyperlink"@.len() == 9 && "del"@.len() == 3 && "pPr"@.len() == 3
        && "ins"@.len() == 3 && "smartTag"@.len() == 8 && "sdt"@.len() == 3
        && "sdtContent"@.len() == 10);
    assert("del"@[0] == 'd' && "pPr"@[0] == 'p' && "ins"@[0] == 'i' && "sdt"@[0] == 's');
}

/// A link leads to the target of the relation that it names, or else to the place in the document
/// that it names, and each of its runs carries where it leads.
pub proof fn law_where_a_link_leads(n: Node, t: Tables, k: int)
    ensures
        n.attr_text("id"@) is Some ==> link_target(n, t) == t.target(n.attr_text("id"@)->0),
        n.attr_text("id"@) is None && n.attr_text("anchor"@) is Some ==> link_target(n, t)
            == seq!['#'] + n.attr_text("anchor"@)->0,
        n.attr_text("id"@) is None && n.attr_text("anchor"@) is None ==> link_target(n, t).len()
            == 0,
        forall|i: int|
            0 <= i < link_pieces(n, t).len() ==> (#[trigger] link_pieces(n, t)[i]).link == Some(
                link_target(n, t),
            ) || link_pieces(n, t)[i].image is Some,
{
    reveal_strlit("#");
    assert("#"@ =~= seq!['#']);
    lemma_links_carried(n.all_of("r"@), t, link_target(n, t), n.all_of("r"@).len() as int);
}

proof fn lemma_links_carried(runs: Seq<Node>, t: Tables, target: Seq<char>, k: int)
    ensures
        forall|i: int|
            0 <= i < linked_upto(runs, t, target, k).len() ==> (#[trigger] linked_upto(
                runs,
                t,
                target,
                k,
            )[i]).link == Some(target) || linked_upto(runs, t, target, k)[i].image is Some,
    decreases k,
{
    if k > 0 {
        lemma_links_carried(runs, t, target, k - 1);
    }
}

/// The target of a relation is that of the first relation of the main part with that id.
pub proof fn law_a_relation_is_found_by_its_id(t: Tables, id: Seq<char>, i: int)
    requires
        0 <= i < t.rels.len(),
        t.rels[i].source@ == "word/document.xml"@,
        t.rels[i].id@ == id,
        forall|j: int|
            0 <= j < i ==> (#[trigger] t.rels[j]).source@ != "word/document.xml"@ || t.rels[j].id@
                != id,
    ensures
        t.target(id) == t.rels[i].target@,
{
    assert forall|q: spec_fn(Rel) -> bool|
        (forall|r: Rel| #[trigger] q(r) == (r.source@ == "word/document.xml"@ && r.id@ == id))
            implies #[trigger] first(t.rels, q) == Some(i) by {
        crate::lists::lemma_first_from(t.rels, q, 0);
        assert(q(t.rels[i]));
        if let Some(j) = first(t.rels, q) {
            assert(q(t.rels[j]));
        }
    }
}

/// A style whose name begins like a heading makes one of the level that its name says, or of the
/// first. A number in the name below one counts as one.
pub proof fn law_headings_go_by_the_name_of_their_style(low: Seq<char>, name: Seq<char>, n: nat)
    requires
        digits_in(name) == dec(n),
        0 < n <= u32::MAX,
    ensures
        begins(low, "heading"@) ==> level_in(low, name) == Some(n as int),
        begins(low, "标题"@) ==> level_in(low, name) == Some(n as int),
        level_in(low, name) is Some ==> begins(low, "heading"@) || begins(low, "标题"@),
{
    crate::words::law_a_written_number_reads_back(n, u32::MAX as int);
}

/// A name without digits that begins like a heading makes one of the first level.
pub proof fn law_a_heading_without_a_number_is_of_the_first_level(low: Seq<char>, name: Seq<char>)
    requires
        digits_in(name).len() == 0,
        begins(low, "heading"@) || begins(low, "标题"@),
    ensures
        level_in(low, name) == Some(1int),
{
}

/// A paragraph that names no style is a heading exactly where it states a level itself, one deeper
/// than the number that it writes; one whose style makes a heading is of the level of its style.
pub proof fn law_which_paragraphs_are_headings(para: Node, t: Tables, n: nat)
    ensures
        styled_level(para, t) is Some ==> heading_level(para, t) == styled_level(para, t),
        styled_level(para, t) is None && said_by(first_below(para, "outlineLvl"@), "val"@) == Some(
            dec(n),
        ) && n <= u32::MAX ==> heading_level(para, t) == Some(n + 1int),
        styled_level(para, t) is None && first_below(para, "outlineLvl"@) is None
            ==> heading_level(para, t) is None,
        first_below(para, "pStyle"@) is None ==> styled_level(para, t) is None,
{
    crate::words::law_a_written_number_reads_back(n, u32::MAX as int);
}

/// A paragraph is an item of a list where it says so itself or where its style does, and as deep as
/// the number there says.
pub proof fn law_which_paragraphs_are_items(para: Node, t: Tables, n: nat)
    requires
        n <= usize::MAX,
    ensures
        ({
            let own = step(step(Some(para), "pPr"@), "numPr"@);
            &&& own is Some ==> {
                &&& list_of(para, t) is Some
                &&& !list_of(para, t)->0.from_style
                &&& said_by(step(own, "ilvl"@), "val"@) == Some(dec(n)) ==> list_of(para, t)->0.depth
                    == n
                &&& step(own, "ilvl"@) is None ==> list_of(para, t)->0.depth == 0
                &&& said_by(step(own, "numId"@), "val"@) is None ==> list_of(para, t)->0.format
                    is None
            }
            &&& own is None && list_of(para, t) is Some ==> list_of(para, t)->0.from_style
            &&& own is None && first_below(para, "pStyle"@) is None && step(
                step(Some(para), "pPr"@),
                "pStyle"@,
            ) is None ==> list_of(para, t) is None
        }),
{
    crate::words::law_a_written_number_reads_back(n, usize::MAX as int);
}

/// An item is numbered where its level has a format and that format is not the bullet, and set with
/// a bullet otherwise.
pub proof fn law_bullets_are_no_numbers(item: Item)
    ensures
        item.format is None ==> !is_ordered(item),
        item.format == Some("bullet"@) ==> !is_ordered(item),
        item.format == Some("decimal"@) ==> is_ordered(item),
        item.format == Some("lowerRoman"@) ==> is_ordered(item),
{
    reveal_strlit("bullet");
    reveal_strlit("decimal");
    reveal_strlit("lowerRoman");
    assert("bullet"@.len() == 6 && "decimal"@.len() == 7 && "lowerRoman"@.len() == 10);
}

/// What an element of the body comes to: a paragraph with words a heading, an item or a plain
/// paragraph, in that order; one without words nothing; a table a table.
pub proof fn law_what_elements_of_the_body_come_to(n: Node, t: Tables)
    ensures
        ({
            let text = trimmed(line_of(n, t, false));
            &&& n.local_name() == "p"@ && text.len() == 0 ==> unit_of(n, t) is Dropped
            &&& n.local_name() == "p"@ && text.len() > 0 && heading_level(n, t) is Some ==> block_of(
                unit_of(n, t),
            ) == Some(
                Chunk { item: false, text: heading(heading_level(n, t)->0, text) },
            )
            &&& n.local_name() == "p"@ && text.len() > 0 && heading_level(n, t) is None && list_of(
                n,
                t,
            ) is Some ==> block_of(unit_of(n, t)) == Some(
                Chunk {
                    item: true,
                    text: list_item(
                        list_of(n, t)->0.depth,
                        is_ordered(list_of(n, t)->0),
                        text,
                    ),
                },
            )
            &&& n.local_name() == "p"@ && text.len() > 0 && heading_level(n, t) is None && list_of(
                n,
                t,
            ) is None ==> block_of(unit_of(n, t)) == Some(
                Chunk { item: false, text: paragraph(text) },
            )
            &&& n.local_name() == "tbl"@ && n.all_of("tr"@).len() > 0 ==> block_of(unit_of(n, t))
                == Some(Chunk { item: false, text: table_text(rows_of(n, t)) })
            &&& n.local_name() != "p"@ && n.local_name() != "tbl"@ ==> block_of(unit_of(n, t))
                is None && unit_of(n, t) is Other
        }),
{
    reveal_strlit("p");
    reveal_strlit("tbl");
    reveal_strlit("| ");
    assert("p"@.len() == 1 && "tbl"@.len() == 3 && "| "@.len() == 2);
}

/// A document of one plain paragraph is its line and a line break; one of a paragraph and something
/// behind it is that line, an empty line and the rest.
pub proof fn law_a_document_is_its_blocks(
    r: Report,
    root: Node,
    t: Tables,
    budget: usize,
    one: Chunk,
)
    requires
        r.describes(root, t, budget),
        body_of(root).children@.len() == 1,
        block_of(unit_of(body_of(root).children@[0], t)) == Some(one),
        one.text.len() < budget,
    ensures
        r.shown.text@ == one.text.push('\n'),
        r.shown.chars == one.text.len() + 1,
        !r.shown.cut,
        r.blocks == 1,
{
    let u = units_of(body_of(root).children@, t);
    reveal_with_fuel(blocks_upto, 2);
    let b = blocks_upto(u, 1);
    assert(b =~= seq![one]);
    reveal_strlit("\n");
    assert("\n"@ =~= seq!['\n']);
    assert(whole_text(b) =~= one.text.push('\n'));
}

/// A document looks things up in the elements `style` of its styles and in the elements `num` and
/// `abstractNum` of its numberings.
pub proof fn law_where_things_are_looked_up(styles: Node, numbering: Node, rels: Seq<Rel>)
    ensures
        ({
            let t = tables_of(Some(styles), Some(numbering), rels);
            &&& t.styles == styles.below("style"@)
            &&& t.nums == numbering.below("num"@)
            &&& t.abstracts == numbering.below("abstractNum"@)
            &&& t.rels == rels
        }),
        tables_of(None, None, rels).styles.len() == 0,
        tables_of(None, None, rels).nums.len() == 0,
        tables_of(None, None, rels).abstracts.len() == 0,
{
}

/// The name of a style is what the `name` in the first style with that `styleId` says.
pub proof fn law_which_name_a_style_has(t: Tables, id: Seq<char>, i: int, name: Node)
    requires
        0 <= i < t.styles.len(),
        t.styles[i].attr_text("styleId"@) == Some(id),
        forall|j: int|
            0 <= j < i ==> (#[trigger] t.styles[j]).attr_text("styleId"@) != Some(id),
        t.styles[i].child_of("name"@) == Some(name),
    ensures
        t.style_name(id) == name.attr_text("val"@),
{
    assert forall|q: spec_fn(Node) -> bool|
        (forall|n: Node| #[trigger] q(n) == (n.attr_text("styleId"@) == Some(id)))
            implies #[trigger] first(t.styles, q) == Some(i) by {
        crate::lists::lemma_first_from(t.styles, q, 0);
        assert(q(t.styles[i]));
        if let Some(j) = first(t.styles, q) {
            assert(q(t.styles[j]));
        }
    }
}

proof fn lemma_found_by_what_it_says(c: Seq<Node>, key: Seq<char>, id: Seq<char>, i: int)
    requires
        0 <= i < c.len(),
        c[i].attr_text(key) == Some(id),
        forall|j: int| 0 <= j < i ==> or_empty((#[trigger] c[j]).attr_text(key)) != id,
    ensures
        find_said(c, key, id) == Some(c[i]),
{
    assert forall|q: spec_fn(Node) -> bool|
        (forall|n: Node| #[trigger] q(n) == (or_empty(n.attr_text(key)) == id))
            implies #[trigger] first(c, q) == Some(i) by {
        crate::lists::lemma_first_from(c, q, 0);
        assert(q(c[i]));
        if let Some(j) = first(c, q) {
            assert(q(c[j]));
        }
    }
}

/// The format of a level is found in three steps: the first `num` with that `numId`, the first
/// `abstractNum` with the `abstractNumId` that it names, and in it the first `lvl` with that `ilvl`.
pub proof fn law_how_the_format_of_a_level_is_found(
    t: Tables,
    num: Seq<char>,
    i: int,
    link: Node,
    id: Seq<char>,
    j: int,
    depth: nat,
    k: int,
    format: Node,
)
    requires
        0 <= i < t.nums.len(),
        t.nums[i].attr_text("numId"@) == Some(num),
        forall|x: int| 0 <= x < i ==> or_empty((#[trigger] t.nums[x]).attr_text("numId"@)) != num,
        t.nums[i].child_of("abstractNumId"@) == Some(link),
        link.attr_text("val"@) == Some(id),
        0 <= j < t.abstracts.len(),
        t.abstracts[j].attr_text("abstractNumId"@) == Some(id),
        forall|x: int|
            0 <= x < j ==> or_empty((#[trigger] t.abstracts[x]).attr_text("abstractNumId"@)) != id,
        0 <= k < t.abstracts[j].all_of("lvl"@).len(),
        t.abstracts[j].all_of("lvl"@)[k].attr_text("ilvl"@) == Some(dec(depth)),
        forall|x: int|
            0 <= x < k ==> or_empty(
                (#[trigger] t.abstracts[j].all_of("lvl"@)[x]).attr_text("ilvl"@),
            ) != dec(depth),
        t.abstracts[j].all_of("lvl"@)[k].child_of("numFmt"@) == Some(format),
    ensures
        t.level_format(num, depth as int) == format.attr_text("val"@),
{
    lemma_found_by_what_it_says(t.nums, "numId"@, num, i);
    lemma_found_by_what_it_says(t.abstracts, "abstractNumId"@, id, j);
    lemma_found_by_what_it_says(t.abstracts[j].all_of("lvl"@), "ilvl"@, dec(depth), k);
}

/// A picture is described by the first `docPr` or `cNvPr` in it whose `descr` is not empty, and has
/// none where there is no such element.
pub proof fn law_how_a_picture_is_described(n: Node, i: int, text: Seq<char>)
    requires
        0 <= i <= elements_in(n.children@).len(),
        forall|j: int|
            0 <= j < i ==> {
                let h = #[trigger] elements_in(n.children@)[j];
                ||| h.local_name() != "docPr"@ && h.local_name() != "cNvPr"@
                ||| h.attr_exact("descr"@) is None
                ||| h.attr_exact("descr"@)->0.len() == 0
            },
        i < elements_in(n.children@).len() ==> {
            let h = elements_in(n.children@)[i];
            &&& h.local_name() == "docPr"@ || h.local_name() == "cNvPr"@
            &&& h.attr_exact("descr"@) == Some(text)
            &&& text.len() > 0
        },
    ensures
        i < elements_in(n.children@).len() ==> alt_of(n) == text,
        i == elements_in(n.children@).len() ==> alt_of(n).len() == 0,
{
    let hits = elements_in(n.children@);
    assert forall|q: spec_fn(Node) -> bool|
        (forall|h: Node| #[trigger] q(h) == describes_picture(h)) implies #[trigger] first(hits, q)
        == (if i < hits.len() {
        Some(i)
    } else {
        None
    }) by {
        crate::lists::lemma_first_from(hits, q, 0);
        if i < hits.len() {
            assert(q(hits[i]));
        }
        if let Some(j) = first(hits, q) {
            assert(q(hits[j]));
        }
    }
}

/// A picture has the place that the relation names which the first `blip` in it with an `embed`
/// names, and none where there is no such `blip`.
pub proof fn law_which_place_a_picture_has(n: Node, t: Tables, i: int, id: Seq<char>)
    requires
        0 <= i <= elements_in(n.children@).len(),
        forall|j: int|
            0 <= j < i ==> (#[trigger] elements_in(n.children@)[j]).local_name() != "blip"@
                || elements_in(n.children@)[j].attr_text("embed"@) is None,
        i < elements_in(n.children@).len() ==> {
            &&& elements_in(n.children@)[i].local_name() == "blip"@
            &&& elements_in(n.children@)[i].attr_text("embed"@) == Some(id)
        },
    ensures
        i < elements_in(n.children@).len() ==> place_of(n, t) == t.target(id),
        i == elements_in(n.children@).len() ==> place_of(n, t).len() == 0,
{
    let hits = elements_in(n.children@);
    assert forall|q: spec_fn(Node) -> bool|
        (forall|h: Node|
            #[trigger] q(h) == (h.local_name() == "blip"@ && h.attr_text("embed"@) is Some))
            implies #[trigger] first(hits, q) == (if i < hits.len() {
        Some(i)
    } else {
        None
    }) by {
        crate::lists::lemma_first_from(hits, q, 0);
        if i < hits.len() {
            assert(q(hits[i]));
        }
        if let Some(j) = first(hits, q) {
            assert(q(hits[j]));
        }
    }
}

proof fn lemma_cell_lines_hold_something(paras: Seq<Node>, t: Tables, n: int)
    requires
        n <= paras.len(),
    ensures
        forall|i: int|
            0 <= i < cell_lines(paras, t, n).len() ==> (#[trigger] cell_lines(paras, t, n)[i]).len()
                > 0,
    decreases n,
{
    if n > 0 {
        lemma_cell_lines_hold_something(paras, t, n - 1);
        let had = cell_lines(paras, t, n - 1);
        let one = flat(line_of(paras[n - 1], t, true));
        assert(cell_lines(paras, t, n) == had || cell_lines(paras, t, n) == had.push(one));
    }
}

proof fn lemma_cell_lines_of_a_beginning(a: Seq<Node>, x: Node, t: Tables, n: int)
    requires
        n <= a.len(),
    ensures
        cell_lines(a.push(x), t, n) == cell_lines(a, t, n),
    decreases n,
{
    if n > 0 {
        lemma_cell_lines_of_a_beginning(a, x, t, n - 1);
    }
}

/// A cell that has one paragraph more than another has its line more. A paragraph without a word
/// adds nothing, and `<br>` stands between two lines.
pub proof fn law_a_cell_is_its_lines(tc: Node, more: Node, x: Node, t: Tables)
    requires
        more.all_of("p"@) == tc.all_of("p"@).push(x),
    ensures
        ({
            let one = flat(line_of(x, t, true));
            &&& one.len() == 0 ==> cell_of(more, t) == cell_of(tc, t)
            &&& one.len() > 0 && cell_of(tc, t).len() == 0 ==> cell_of(more, t) == one
            &&& one.len() > 0 && cell_of(tc, t).len() > 0 ==> cell_of(more, t) == cell_of(tc, t)
                + "<br>"@ + one
        }),
{
    let a = tc.all_of("p"@);
    let had = cell_lines(a, t, a.len() as int);
    let one = flat(line_of(x, t, true));
    lemma_cell_lines_hold_something(a, t, a.len() as int);
    lemma_cell_lines_of_a_beginning(a, x, t, a.len() as int);
    assert(a.push(x)[a.len() as int] == x);
    if one.len() > 0 {
        assert(had.push(one).drop_last() =~= had);
    }
    if had.len() > 1 {
        assert(strung(had, "<br>"@).len() >= had.last().len());
    }
}

/// A cell without a paragraph is empty.
pub proof fn law_a_cell_without_a_paragraph_is_empty(tc: Node, t: Tables)
    requires
        tc.all_of("p"@).len() == 0,
    ensures
        cell_of(tc, t).len() == 0,
{
}

/// A table has a row for each `tr`, and a row a cell for each `tc`.
pub proof fn law_rows_and_cells_of_a_table(tbl: Node, t: Tables, i: int, j: int)
    requires
        0 <= i < tbl.all_of("tr"@).len(),
        0 <= j < tbl.all_of("tr"@)[i].all_of("tc"@).len(),
    ensures
        rows_of(tbl, t).len() == tbl.all_of("tr"@).len(),
        rows_of(tbl, t)[i].len() == tbl.all_of("tr"@)[i].all_of("tc"@).len(),
        rows_of(tbl, t)[i][j] == cell_of(tbl.all_of("tr"@)[i].all_of("tc"@)[j], t),
{
}

/// What is read is the first `body` in the document, or the document where it has none.
pub proof fn law_the_body_is_what_is_read(root: Node)
    ensures
        root.below("body"@).len() > 0 ==> body_of(root) == root.below("body"@)[0],
        root.below("body"@).len() == 0 ==> body_of(root) == root,
{
}

/// What a report counts: the items that their style makes items, those whose level has no format,
/// the paragraphs without a word, and the rows of all tables together.
pub proof fn law_what_a_report_counts(r: Report, root: Node, t: Tables, budget: usize, n: int)
    requires
        r.describes(root, t, budget),
        0 <= n,
    ensures
        ({
            let u = units_of(body_of(root).children@, t);
            &&& r.list_from_style == u.filter(
                |x: Unit| x matches Unit::Item { item, text } && item.from_style,
            ).len()
            &&& r.unresolved_fmt == u.filter(
                |x: Unit| x matches Unit::Item { item, text } && item.format is None,
            ).len()
            &&& r.empty_dropped == u.filter(|x: Unit| x is Dropped).len()
            &&& r.paragraphs == u.filter(|x: Unit| x is Paragraph).len()
            &&& r.headings == u.filter(|x: Unit| x is Heading).len()
            &&& r.tables == u.filter(|x: Unit| x is Table).len()
            &&& r.table_rows == rows_upto(u, u.len() as int)
            &&& rows_upto(u, 0) == 0
            &&& rows_upto(u, n + 1) == rows_upto(u, n) + match u[n] {
                Unit::Table { rows, text } => rows,
                _ => 0,
            }
        }),
{
    let u = units_of(body_of(root).children@, t);
    crate::lists::law_a_tally_is_how_many_pass(
        u,
        |i: int| is_from_style(u[i]),
        |x: Unit| x matches Unit::Item { item, text } && item.from_style,
    );
    crate::lists::law_a_tally_is_how_many_pass(
        u,
        |i: int| is_unresolved(u[i]),
        |x: Unit| x matches Unit::Item { item, text } && item.format is None,
    );
    crate::lists::law_a_tally_is_how_many_pass(u, |i: int| u[i] is Dropped, |x: Unit| x is Dropped);
    crate::lists::law_a_tally_is_how_many_pass(
        u,
        |i: int| u[i] is Paragraph,
        |x: Unit| x is Paragraph,
    );
    crate::lists::law_a_tally_is_how_many_pass(u, |i: int| u[i] is Heading, |x: Unit| x is Heading);
    crate::lists::law_a_tally_is_how_many_pass(u, |i: int| u[i] is Table, |x: Unit| x is Table);
}

} // verus!
