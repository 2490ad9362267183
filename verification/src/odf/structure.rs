//! A whole text: what it is made of, counted part by part.

use crate::document::{
    count_below, count_either, count_filled, count_names, count_texts, counts_names, filled,
    find_spans, law_a_span_holds_what_is_below, remark, span_ints, spans, tallies,
};
use crate::lists::{
    at_most, count_those, cut, each, ints, lemma_those, pick_those, tally, those,
};
use crate::odf::layout::{
    all_pictures, breaking, find_pictures, names_one, odf_columns, odf_contents, odf_page_breaks,
    odf_paragraph_formats, odt_pictures, pictures_of, Contents, ParagraphReport, Picture,
    SectionReport,
};
use crate::odf::numbering::{chains, odf_numbering, Chain, ListReport};
use crate::odf::runs::{odt_run_formats, RunReport};
use crate::odf::tables::{odf_table_layouts, tables_of, TableReport};
use crate::odf::{attr_of, attr_said, find_text_element, text_element};
use crate::text::{pair_texts, said, same, say, texts};
use crate::words::{parse_unsigned, trim, trimmed, unsigned_value, Tally};
use crate::written::{
    count_nodes, find_below, first_below, merge, merged, node_in, option_texts, owned, text_in,
};
use crate::xml::{local_of, local_part, nodes, Node};
use vstd::prelude::*;

verus! {

broadcast use {
    crate::text::lemma_texts_push,
    crate::text::lemma_pair_texts_push,
    crate::xml::lemma_nodes_push,
};

/// The paragraphs in a list of nodes and below them. What stands in remarks and in the record of
/// changes does not count, and a paragraph is not looked into.
pub open spec fn paragraphs_in(c: Seq<Node>) -> Seq<Node>
    decreases c,
{
    if c.len() == 0 {
        Seq::empty()
    } else {
        let one = c.last();
        let own = if one.local_name() == "annotation"@ || one.local_name()
            == "tracked-changes"@ {
            Seq::empty()
        } else if one.local_name() == "p"@ {
            seq![one]
        } else {
            paragraphs_in(one.children@)
        };
        paragraphs_in(c.drop_last()) + own
    }
}

/// Each paragraph has its chain of lists, and no chain is without its paragraph.
pub proof fn law_each_paragraph_has_its_chain(c: Seq<Node>, round: Chain)
    ensures
        chains(c, round).len() == paragraphs_in(c).len(),
    decreases c,
{
    if c.len() > 0 {
        let one = c.last();
        law_each_paragraph_has_its_chain(c.drop_last(), round);
        law_each_paragraph_has_its_chain(one.children@, round);
        law_each_paragraph_has_its_chain(
            one.children@,
            round.push(attr_said(one, "style-name"@)),
        );
    }
}

/// Appends the paragraphs below a node.
pub fn odf_paragraphs<'a>(node: &'a Node, out: &mut Vec<&'a Node>)
    ensures
        nodes(final(out)@) == nodes(old(out)@) + paragraphs_in(node.children@),
    decreases node,
{
    let ghost c = node.children@;
    let ghost start = nodes(out@);
    let mut i: usize = 0;
    assert(c.take(0) =~= Seq::empty());
    assert(start + paragraphs_in(c.take(0)) =~= start);
    while i < node.children.len()
        invariant
            i <= node.children@.len(),
            c == node.children@,
            nodes(out@) == start + paragraphs_in(c.take(i as int)),
        decreases node.children@.len() - i,
    {
        let one: &'a Node = &node.children[i];
        let ghost done = c.take(i + 1);
        let ghost had = nodes(out@);
        assert(done.drop_last() =~= c.take(i as int));
        assert(done.last() == *one);
        if one.is("annotation") || one.is("tracked-changes") {
        } else if one.is("p") {
            out.push(one);
        } else {
            odf_paragraphs(one, out);
        }
        assert(nodes(out@) =~= start + paragraphs_in(done));
        i += 1;
    }
    assert(c.take(i as int) =~= c);
}

/// The element that holds the text, or the root where there is none.
pub open spec fn text_of_root(root: Node) -> Node {
    match text_element(root) {
        Some(t) => t,
        None => root,
    }
}

/// The parts of a text that are read. A part that is not in the package is not there.
pub struct OdtParts<'a> {
    pub root: &'a Node,
    /// The part with the styles, or why it could not be read.
    pub styles: Result<&'a Node, String>,
    pub meta: Option<&'a Node>,
    /// The names of all parts.
    pub entries: &'a Vec<String>,
    /// The texts of the paragraphs.
    pub texts: &'a Vec<String>,
    /// The texts of the headings.
    pub heads: &'a Vec<String>,
    /// The texts of all paragraphs, those in remarks and in the record of changes included.
    pub all_texts: &'a Vec<String>,
}

/// The part behind a result; nothing for one that could not be read.
pub open spec fn part_in(p: Result<&Node, String>) -> Option<Node> {
    match p {
        Ok(n) => Some(*n),
        Err(_) => None,
    }
}

/// A heading.
#[derive(Debug, Clone)]
pub struct HeadRow {
    pub level: Option<u64>,
    pub text: String,
}

/// A text of a list; the empty one behind its end.
pub open spec fn text_at(v: Seq<String>, i: int) -> Seq<char> {
    if 0 <= i < v.len() {
        v[i]@
    } else {
        Seq::empty()
    }
}

impl HeadRow {
    pub open spec fn describes(self, h: Node, i: int, heads: Seq<String>) -> bool {
        &&& match attr_said(h, "outline-level"@) {
            Some(raw) => match self.level {
                Some(n) => unsigned_value(trimmed(raw), u64::MAX as int) == Some(n as int),
                None => unsigned_value(trimmed(raw), u64::MAX as int) is None,
            },
            None => self.level is None,
        }
        &&& self.text@ == text_at(heads, i)
    }
}

fn read_head(h: &Node, i: usize, heads: &Vec<String>) -> (r: HeadRow)
    ensures
        r.describes(*h, i as int, heads@),
{
    let level: Option<u64> = match attr_of(h, "outline-level") {
        Some(raw) => parse_unsigned(trim(raw), u64::MAX),
        None => None,
    };
    let text: String = if i < heads.len() {
        heads[i].clone()
    } else {
        let none: String = String::new();
        assert(none@ =~= Seq::empty());
        none
    };
    HeadRow { level, text }
}

/// How many rows and cells a table has.
#[derive(Debug, Clone)]
pub struct TableCount {
    pub name: Option<String>,
    pub rows: usize,
    pub cells: usize,
    pub covered: usize,
    /// How many of its paragraphs hold text.
    pub text: usize,
}

impl TableCount {
    /// The paragraphs of the table are those of the text in `span`.
    pub open spec fn describes(self, tbl: Node, given: Seq<String>, span: (int, int)) -> bool {
        &&& text_in(self.name) == attr_said(tbl, "name"@)
        &&& self.rows == tbl.all_of("table-row"@).len()
        &&& self.cells == tbl.below("table-cell"@).len()
        &&& self.covered == tbl.below("covered-table-cell"@).len()
        &&& self.text == filled(texts(given), span)
    }
}

/// Where the paragraphs of each table stand among those of the text.
pub open spec fn table_spans(body: Node) -> Seq<(int, int)> {
    spans(body.children@, "table"@, "p"@, 0)
}

/// The paragraphs in the span of a table are those that stand in it, tables within it included.
pub proof fn law_a_table_counts_its_own_paragraphs(body: Node, i: int)
    requires
        0 <= i < body.below("table"@).len(),
    ensures
        table_spans(body).len() == body.below("table"@).len(),
        0 <= table_spans(body)[i].0 <= table_spans(body)[i].1 <= body.below("p"@).len(),
        body.below("p"@).subrange(table_spans(body)[i].0, table_spans(body)[i].1)
            == body.below("table"@)[i].below("p"@),
{
    law_a_span_holds_what_is_below(body.children@, "table"@, "p"@, 0);
}

fn read_table(tbl: &Node, given: &Vec<String>, span: (usize, usize)) -> (r: TableCount)
    ensures
        r.describes(*tbl, given@, (span.0 as int, span.1 as int)),
{
    let rows: Vec<&Node> = tbl.all("table-row");
    assert(nodes(rows@).len() == rows@.len());
    TableCount {
        name: owned(attr_of(tbl, "name")),
        rows: rows.len(),
        cells: count_below(tbl, "table-cell"),
        covered: count_below(tbl, "covered-table-cell"),
        text: count_filled(given, span),
    }
}

/// A link.
#[derive(Debug, Clone)]
pub struct LinkRow {
    pub target: Option<String>,
    pub text: String,
}

impl LinkRow {
    pub open spec fn describes(self, a: Node) -> bool {
        text_in(self.target) == attr_said(a, "href"@) && self.text@ == trimmed(a.full_text())
    }
}

fn read_link(a: &Node) -> (r: LinkRow)
    ensures
        r.describes(*a),
{
    let all: String = a.text();
    LinkRow { target: owned(attr_of(a, "href")), text: trim(all.as_str()).to_owned() }
}

/// A note says that it is of that class.
pub open spec fn of_class(n: Node, class: Seq<char>) -> bool {
    attr_said(n, "note-class"@) == Some(class)
}

/// A note that says neither of the two classes.
pub open spec fn unclassed(n: Node) -> bool {
    !of_class(n, "footnote"@) && !of_class(n, "endnote"@)
}

fn is_class(n: &Node, class: &str) -> (r: bool)
    ensures
        r == of_class(*n, class@),
{
    match attr_of(n, "note-class") {
        Some(t) => same(t, class),
        None => false,
    }
}

/// The images that say where their bytes stand.
pub open spec fn images_in(body: Node) -> Seq<int> {
    let all = body.below("image"@);
    those(|i: int| attr_said(all[i], "href"@) is Some, all.len() as int)
}

fn read_images(body: &Node, limit: usize) -> (r: Vec<String>)
    ensures
        r@.len() == at_most(images_in(*body).len(), limit),
        forall|i: int|
            0 <= i < r@.len() ==> Some((#[trigger] r@[i])@) == attr_said(
                body.below("image"@)[images_in(*body)[i]],
                "href"@,
            ),
{
    let all: Vec<&Node> = body.descendants("image");
    let ghost s = nodes(all@);
    let ghost q = |i: int| attr_said(s[i], "href"@) is Some;
    let n: usize = all.len();
    assert(s.len() == n);
    let which: Vec<usize> = pick_those(
        n,
        |i: usize| -> (b: bool)
            requires
                i < n
            ensures
                b == (attr_said(s[i as int], "href"@) is Some)
            { attr_of(all[i], "href").is_some() },
        Ghost(q),
    );
    assert(ints(which@).len() == which@.len());
    proof {
        lemma_those(q, n as int);
    }
    assert forall|k: int| 0 <= k < which@.len() implies attr_said(
        s[#[trigger] which@[k] as int],
        "href"@,
    ) is Some by {
        assert(ints(which@)[k] == which@[k] as int);
    }
    let out: Vec<String> = each(
        &which,
        cut(which.len(), limit),
        |at: usize, i: &usize| -> (r: String)
            requires
                *i < n,
                attr_said(s[*i as int], "href"@) is Some
            ensures
                Some(r@) == attr_said(s[*i as int], "href"@)
            {
                match attr_of(all[*i], "href") {
                    Some(t) => t.to_owned(),
                    None => String::new(),
                }
            },
    );
    assert forall|k: int| 0 <= k < out@.len() implies Some((#[trigger] out@[k])@) == attr_said(
        body.below("image"@)[images_in(*body)[k]],
        "href"@,
    ) by {
        assert(ints(which@)[k] == which@[k] as int);
    }
    out
}

/// What the program that wrote the file counted, by local name.
pub open spec fn statistic(meta: Option<Node>) -> Seq<(Seq<char>, Seq<char>)> {
    match meta {
        Some(m) => match first_below(m, "document-statistic"@) {
            Some(n) => merged(
                Seq::new(
                    n.attrs@.len(),
                    |i: int| (local_part(n.attrs@[i].0@), n.attrs@[i].1@),
                ),
            ),
            None => Seq::empty(),
        },
        None => Seq::empty(),
    }
}

fn read_statistic(meta: Option<&Node>) -> (r: Vec<(String, String)>)
    ensures
        pair_texts(r@) == statistic(node_in(meta)),
{
    let found: Option<&Node> = match meta {
        Some(m) => find_below(m, "document-statistic"),
        None => None,
    };
    match found {
        Some(n) => {
            let all: Vec<(String, String)> = each(
                &n.attrs,
                n.attrs.len(),
                |i: usize, a: &(String, String)| -> (r: (String, String))
                    ensures
                        r.0@ == local_part(a.0@),
                        r.1@ == a.1@
                    { (local_of(a.0.as_str()).to_owned(), a.1.clone()) },
            );
            assert(pair_texts(all@) =~= Seq::new(
                n.attrs@.len(),
                |i: int| (local_part(n.attrs@[i].0@), n.attrs@[i].1@),
            ));
            merge(&all)
        },
        None => {
            let none: Vec<(String, String)> = Vec::new();
            assert(pair_texts(none@) =~= Seq::empty());
            none
        },
    }
}

/// How many elements of each kind the text holds.
#[derive(Debug, Clone, Copy)]
pub struct OdtCounts {
    pub headings: usize,
    pub tables: usize,
    pub hyperlinks: usize,
    pub images: usize,
    pub table_rows: usize,
    pub table_cells: usize,
    pub covered_cells: usize,
    pub sections: usize,
    pub breaks: usize,
    pub page_breaks: usize,
    pub soft_page_breaks: usize,
    pub drawings: usize,
    pub annotations: usize,
    pub lists: usize,
    pub list_styles: usize,
    pub bookmarks: usize,
    pub sequences: usize,
    pub tracked_changes: usize,
}

impl OdtCounts {
    pub open spec fn describes(self, root: Node, body: Node) -> bool {
        &&& self.headings == body.below("h"@).len()
        &&& self.tables == body.below("table"@).len()
        &&& self.hyperlinks == body.below("a"@).len()
        &&& self.images == images_in(body).len()
        &&& self.table_rows == body.below("table-row"@).len()
        &&& self.table_cells == body.below("table-cell"@).len()
        &&& self.covered_cells == body.below("covered-table-cell"@).len()
        &&& self.sections == body.below("section"@).len()
        &&& self.breaks == body.below("line-break"@).len()
        &&& self.page_breaks == (body.below("p"@) + body.below("h"@)).filter(
            |n: Node| names_one(n, breaking(root)),
        ).len()
        &&& self.soft_page_breaks == body.below("soft-page-break"@).len()
        &&& self.drawings == body.below("frame"@).len()
        &&& self.annotations == body.below("annotation"@).len()
        &&& self.lists == body.below("list"@).len()
        &&& self.list_styles == body.below("list-style"@).len()
        &&& self.bookmarks == body.below("bookmark-start"@).len() + body.below("bookmark"@).len()
        &&& self.sequences == body.below("sequence-decl"@).len()
        &&& self.tracked_changes == body.below("tracked-changes"@).len()
    }
}

fn count_body(root: &Node, body: &Node) -> (r: OdtCounts)
    ensures
        r.describes(*root, *body),
{
    let all: Vec<&Node> = body.descendants("image");
    let ghost s = nodes(all@);
    assert(s.len() == all@.len());
    let ghost q = |i: int| attr_said(s[i], "href"@) is Some;
    let images: Vec<usize> = pick_those(
        all.len(),
        |i: usize| -> (b: bool)
            requires
                i < all@.len()
            ensures
                b == (attr_said(s[i as int], "href"@) is Some)
            { attr_of(all[i], "href").is_some() },
        Ghost(q),
    );
    assert(ints(images@).len() == images@.len());
    OdtCounts {
        headings: count_below(body, "h"),
        tables: count_below(body, "table"),
        hyperlinks: count_below(body, "a"),
        images: images.len(),
        table_rows: count_below(body, "table-row"),
        table_cells: count_below(body, "table-cell"),
        covered_cells: count_below(body, "covered-table-cell"),
        sections: count_below(body, "section"),
        breaks: count_below(body, "line-break"),
        page_breaks: odf_page_breaks(root, body),
        soft_page_breaks: count_below(body, "soft-page-break"),
        drawings: count_below(body, "frame"),
        annotations: count_below(body, "annotation"),
        lists: count_below(body, "list"),
        list_styles: count_below(body, "list-style"),
        bookmarks: count_either(body, "bookmark-start", "bookmark"),
        sequences: count_below(body, "sequence-decl"),
        tracked_changes: count_below(body, "tracked-changes"),
    }
}

/// A picture with a text for those who do not see it.
pub open spec fn has_alt(frame: Node) -> bool {
    match frame.child_of("desc"@) {
        Some(d) => d.full_text().len() > 0,
        None => false,
    }
}

/// The pictures of a text, and how many of them have a text for those who do not see them. The
/// counts are over all pictures.
#[derive(Debug, Clone)]
pub struct Pictures {
    pub total: usize,
    pub with_alt: usize,
    pub without_alt: usize,
    pub list: Vec<Picture>,
}

impl Pictures {
    pub open spec fn describes(self, body: Node, limit: usize) -> bool {
        let all = all_pictures(body);
        let f = pictures_of(body, limit);
        &&& self.total == all.len()
        &&& self.with_alt == all.filter(|n: Node| has_alt(n)).len()
        &&& self.with_alt + self.without_alt == self.total
        &&& self.list@.len() == f.len()
        &&& forall|i: int| 0 <= i < f.len() ==> (#[trigger] self.list@[i]).describes(f[i])
    }
}

fn read_pictures(body: &Node, limit: usize) -> (r: Pictures)
    ensures
        r.describes(*body, limit),
{
    let all: Vec<&Node> = find_pictures(body);
    assert(nodes(all@).len() == all@.len());
    let with_alt: usize = count_nodes(
        &all,
        |f: &Node| -> (b: bool)
            ensures
                b == has_alt(*f)
            {
                match f.child("desc") {
                    Some(d) => d.text().as_str().unicode_len() > 0,
                    None => false,
                }
            },
        Ghost(|f: Node| has_alt(f)),
    );
    proof {
        nodes(all@).lemma_filter_len(|f: Node| has_alt(f));
    }
    Pictures {
        total: all.len(),
        with_alt,
        without_alt: all.len() - with_alt,
        list: odt_pictures(body, limit),
    }
}

/// What is said of notes that are of neither class.
pub open spec fn note_on(unclassed: nat) -> Option<Seq<char>> {
    if unclassed > 0 {
        Some(said(""@, unclassed as int, " 个 text:note 没写 note:class，分不清脚注还是尾注"@))
    } else {
        None
    }
}

/// What is said of every text.
pub const TEXT_REMARK: &'static str = "ODF 的段落口径与 OOXML 一致：表格里也算段；\
    `structure.sections` 是 text:section（内容分块），不是 Word 那种分页设置";

/// What is said of a text: of notes that are of neither class, what is said of every text, and
/// why the styles could not be read.
pub open spec fn text_notes(odd: nat, styles: Result<&Node, String>) -> Seq<Seq<char>> {
    remark(note_on(odd)).push(TEXT_REMARK@) + remark(
        match styles {
            Ok(_) => None,
            Err(why) => Some("styles.xml 读不出，那份纸看不了："@ + why@),
        },
    )
}

fn read_notes(odd: usize, styles: &Result<&Node, String>) -> (r: Vec<String>)
    ensures
        texts(r@) == text_notes(odd as nat, *styles),
{
    let mut out: Vec<String> = Vec::new();
    assert(texts(out@) =~= Seq::empty());
    if odd > 0 {
        out.push(say("", odd as u64, " 个 text:note 没写 note:class，分不清脚注还是尾注"));
    }
    assert(texts(out@) =~= remark(note_on(odd as nat)));
    out.push(TEXT_REMARK.to_owned());
    if let Err(why) = styles {
        let mut one: String = "styles.xml 读不出，那份纸看不了：".to_owned();
        one.append(why.as_str());
        out.push(one);
    }
    assert(texts(out@) =~= text_notes(odd as nat, *styles));
    out
}

/// A whole text.
#[derive(Debug)]
pub struct OdtReport {
    pub notes: Vec<String>,
    pub paragraphs: usize,
    pub empty_paragraphs: usize,
    pub counts: OdtCounts,
    pub tally: Tally,
    pub styles: Vec<(String, usize)>,
    pub pictures: Pictures,
    pub paragraph_formats: ParagraphReport,
    pub run_formats: RunReport,
    pub columns: SectionReport,
    pub numbering: ListReport,
    pub table_layouts: TableReport,
    pub headings: Vec<HeadRow>,
    pub tables: Vec<TableCount>,
    pub images: Vec<String>,
    pub hyperlinks: Vec<LinkRow>,
    pub footnotes: usize,
    pub endnotes: usize,
    pub contents: Contents,
    pub statistic: Vec<(String, String)>,
    pub parts: Vec<String>,
}

/// The names of the styles that paragraphs name.
pub open spec fn styles_named(ps: Seq<Node>) -> Seq<Option<Seq<char>>> {
    Seq::new(ps.len(), |i: int| attr_said(ps[i], "style-name"@))
}

/// The headings that are told of.
pub open spec fn heads_of(body: Node, limit: usize) -> Seq<Node> {
    let all = body.below("h"@);
    all.take(at_most(all.len(), limit) as int)
}

/// The links that are told of.
pub open spec fn links_of(body: Node, limit: usize) -> Seq<Node> {
    let all = body.below("a"@);
    all.take(at_most(all.len(), limit) as int)
}

impl OdtReport {
    /// What is counted and read from the text.
    pub open spec fn describes_text(self, p: OdtParts, limit: usize) -> bool {
        let body = text_of_root(*p.root);
        let ps = paragraphs_in(body.children@);
        let notes = body.below("note"@);
        &&& texts(self.notes@) == text_notes(
            notes.filter(|n: Node| unclassed(n)).len(),
            p.styles,
        )
        &&& self.paragraphs == ps.len()
        &&& self.empty_paragraphs == tally(
            |i: int| p.texts@[i]@.len() == 0,
            p.texts@.len() as int,
        )
        &&& self.counts.describes(*p.root, body)
        &&& tallies(self.tally, texts(p.texts@) + texts(p.heads@))
        &&& counts_names(self.styles@, styles_named(ps))
        &&& self.pictures.describes(body, limit)
        &&& self.footnotes == notes.filter(|n: Node| of_class(n, "footnote"@)).len()
        &&& self.endnotes == notes.filter(|n: Node| of_class(n, "endnote"@)).len()
    }

    /// What paragraphs, runs, lists and tables look like.
    pub open spec fn describes_looks(self, p: OdtParts, limit: usize) -> bool {
        let body = text_of_root(*p.root);
        let ps = paragraphs_in(body.children@);
        &&& self.paragraph_formats.describes(ps, *p.root, limit)
        &&& self.run_formats.describes(ps, *p.root, part_in(p.styles), limit)
        &&& self.columns.describes(*p.root, limit)
        &&& self.numbering.describes(ps, body, *p.root, part_in(p.styles), limit)
        &&& self.table_layouts.describes(body, *p.root, part_in(p.styles), limit)
        &&& self.contents.describes(*p.root)
    }

    /// What is listed.
    pub open spec fn describes_lists(self, p: OdtParts, limit: usize) -> bool {
        let body = text_of_root(*p.root);
        &&& self.headings@.len() == heads_of(body, limit).len()
        &&& forall|i: int|
            0 <= i < self.headings@.len() ==> (#[trigger] self.headings@[i]).describes(
                heads_of(body, limit)[i],
                i,
                p.heads@,
            )
        &&& self.tables@.len() == tables_of(body, limit).len()
        &&& forall|i: int|
            0 <= i < self.tables@.len() ==> (#[trigger] self.tables@[i]).describes(
                tables_of(body, limit)[i],
                p.all_texts@,
                table_spans(body)[i],
            )
        &&& self.images@.len() == at_most(images_in(body).len(), limit)
        &&& forall|i: int|
            0 <= i < self.images@.len() ==> Some((#[trigger] self.images@[i])@) == attr_said(
                body.below("image"@)[images_in(body)[i]],
                "href"@,
            )
        &&& self.hyperlinks@.len() == links_of(body, limit).len()
        &&& forall|i: int|
            0 <= i < self.hyperlinks@.len() ==> (#[trigger] self.hyperlinks@[i]).describes(
                links_of(body, limit)[i],
            )
        &&& pair_texts(self.statistic@) == statistic(node_in(p.meta))
        &&& texts(self.parts@) == texts(p.entries@).take(
            at_most(p.entries@.len(), limit) as int,
        )
    }
}

fn cut_nodes<'a>(body: &'a Node, want: &str, limit: usize) -> (r: Vec<&'a Node>)
    ensures
        nodes(r@) == body.below(want@).take(at_most(body.below(want@).len(), limit) as int),
{
    let mut all: Vec<&'a Node> = body.descendants(want);
    assert(nodes(all@).len() == all@.len());
    if limit < all.len() {
        all.truncate(limit);
    }
    assert(nodes(all@) =~= body.below(want@).take(
        at_most(body.below(want@).len(), limit) as int,
    ));
    all
}

fn joined_list(a: &Vec<String>, b: &Vec<String>) -> (r: Vec<String>)
    ensures
        texts(r@) == texts(a@) + texts(b@),
{
    let mut out: Vec<String> = each(
        a,
        a.len(),
        |i: usize, s: &String| -> (r: String)
            ensures
                r@ == s@
            { s.clone() },
    );
    let mut more: Vec<String> = each(
        b,
        b.len(),
        |i: usize, s: &String| -> (r: String)
            ensures
                r@ == s@
            { s.clone() },
    );
    out.append(&mut more);
    assert(texts(out@) =~= texts(a@) + texts(b@));
    out
}

fn read_headings(body: &Node, heads: &Vec<String>, limit: usize) -> (r: Vec<HeadRow>)
    ensures
        r@.len() == heads_of(*body, limit).len(),
        forall|i: int|
            0 <= i < r@.len() ==> (#[trigger] r@[i]).describes(
                heads_of(*body, limit)[i],
                i,
                heads@,
            ),
{
    let hs: Vec<&Node> = cut_nodes(body, "h", limit);
    assert(nodes(hs@).len() == hs@.len());
    let out: Vec<HeadRow> = each(
        &hs,
        hs.len(),
        |i: usize, h: &&Node| -> (r: HeadRow)
            ensures
                r.describes(**h, i as int, heads@)
            { read_head(h, i, heads) },
    );
    assert forall|i: int| 0 <= i < out@.len() implies (#[trigger] out@[i]).describes(
        heads_of(*body, limit)[i],
        i,
        heads@,
    ) by {
        assert(nodes(hs@)[i] == *hs@[i]);
    }
    out
}

fn read_tables(body: &Node, given: &Vec<String>, limit: usize) -> (r: Vec<TableCount>)
    ensures
        r@.len() == tables_of(*body, limit).len(),
        forall|i: int|
            0 <= i < r@.len() ==> (#[trigger] r@[i]).describes(
                tables_of(*body, limit)[i],
                given@,
                table_spans(*body)[i],
            ),
{
    let ts: Vec<&Node> = cut_nodes(body, "table", limit);
    assert(nodes(ts@).len() == ts@.len());
    let places: Vec<(usize, usize)> = find_spans(body, "table", "p");
    let out: Vec<TableCount> = each(
        &ts,
        ts.len(),
        |i: usize, t: &&Node| -> (r: TableCount)
            requires
                i < places@.len()
            ensures
                r.describes(
                    **t,
                    given@,
                    (places@[i as int].0 as int, places@[i as int].1 as int),
                )
            { read_table(t, given, places[i]) },
    );
    assert forall|i: int| 0 <= i < out@.len() implies (#[trigger] out@[i]).describes(
        tables_of(*body, limit)[i],
        given@,
        table_spans(*body)[i],
    ) by {
        assert(nodes(ts@)[i] == *ts@[i]);
        assert(span_ints(places@)[i] == (places@[i].0 as int, places@[i].1 as int));
    }
    out
}

fn read_links(body: &Node, limit: usize) -> (r: Vec<LinkRow>)
    ensures
        r@.len() == links_of(*body, limit).len(),
        forall|i: int|
            0 <= i < r@.len() ==> (#[trigger] r@[i]).describes(links_of(*body, limit)[i]),
{
    let ls: Vec<&Node> = cut_nodes(body, "a", limit);
    assert(nodes(ls@).len() == ls@.len());
    let out: Vec<LinkRow> = each(
        &ls,
        ls.len(),
        |i: usize, a: &&Node| -> (r: LinkRow)
            ensures
                r.describes(**a)
            { read_link(a) },
    );
    assert forall|i: int| 0 <= i < out@.len() implies (#[trigger] out@[i]).describes(
        links_of(*body, limit)[i],
    ) by {
        assert(nodes(ls@)[i] == *ls@[i]);
    }
    out
}

fn count_class(notes: &Vec<&Node>, class: &str) -> (r: usize)
    ensures
        r == nodes(notes@).filter(|n: Node| of_class(n, class@)).len(),
{
    count_nodes(
        notes,
        |n: &Node| -> (b: bool)
            ensures
                b == of_class(*n, class@)
            { is_class(n, class) },
        Ghost(|n: Node| of_class(n, class@)),
    )
}

/// Reads a whole text. Lists are cut to `limit`, counts are over everything.
pub fn read_odt(p: &OdtParts, limit: usize) -> (r: OdtReport)
    ensures
        r.describes_text(*p, limit),
        r.describes_looks(*p, limit),
        r.describes_lists(*p, limit),
{
    let body: &Node = match find_text_element(p.root) {
        Some(t) => t,
        None => p.root,
    };
    let mut paragraphs: Vec<&Node> = Vec::new();
    odf_paragraphs(body, &mut paragraphs);
    let ghost ps = paragraphs_in(body.children@);
    assert(nodes(paragraphs@) =~= ps);
    assert(nodes(paragraphs@).len() == paragraphs@.len());
    let named: Vec<Option<String>> = each(
        &paragraphs,
        paragraphs.len(),
        |i: usize, n: &&Node| -> (r: Option<String>)
            ensures
                text_in(r) == attr_said(**n, "style-name"@)
            { owned(attr_of(n, "style-name")) },
    );
    assert(option_texts(named@) =~= styles_named(ps)) by {
        assert forall|i: int| 0 <= i < named@.len() implies text_in(#[trigger] named@[i])
            == attr_said(ps[i], "style-name"@) by {
            assert(nodes(paragraphs@)[i] == *paragraphs@[i]);
        }
    }
    let empty_paragraphs: usize = count_those(
        p.texts.len(),
        |i: usize| -> (b: bool)
            requires
                i < p.texts@.len()
            ensures
                b == (p.texts@[i as int]@.len() == 0)
            { p.texts[i].as_str().unicode_len() == 0 },
        Ghost(|i: int| p.texts@[i]@.len() == 0),
    );
    let notes: Vec<&Node> = body.descendants("note");
    let odd: usize = count_nodes(
        &notes,
        |n: &Node| -> (b: bool)
            ensures
                b == unclassed(*n)
            { !is_class(n, "footnote") && !is_class(n, "endnote") },
        Ghost(|n: Node| unclassed(n)),
    );
    let styles: Option<&Node> = match &p.styles {
        Ok(n) => Some(*n),
        Err(_) => None,
    };
    let n: usize = cut(p.entries.len(), limit);
    let parts: Vec<String> = each(
        p.entries,
        n,
        |i: usize, s: &String| -> (r: String)
            ensures
                r@ == s@
            { s.clone() },
    );
    assert(texts(parts@) =~= texts(p.entries@).take(n as int));
    OdtReport {
        notes: read_notes(odd, &p.styles),
        paragraphs: paragraphs.len(),
        empty_paragraphs,
        counts: count_body(p.root, body),
        tally: count_texts(&joined_list(p.texts, p.heads)),
        styles: count_names(&named),
        pictures: read_pictures(body, limit),
        paragraph_formats: odf_paragraph_formats(&paragraphs, p.root, limit),
        run_formats: odt_run_formats(&paragraphs, p.root, styles, limit),
        columns: odf_columns(p.root, limit),
        numbering: odf_numbering(&paragraphs, body, p.root, styles, limit),
        table_layouts: odf_table_layouts(body, p.root, styles, limit),
        headings: read_headings(body, p.heads, limit),
        tables: read_tables(body, p.all_texts, limit),
        images: read_images(body, limit),
        hyperlinks: read_links(body, limit),
        footnotes: count_class(&notes, "footnote"),
        endnotes: count_class(&notes, "endnote"),
        contents: odf_contents(p.root),
        statistic: read_statistic(p.meta),
        parts,
    }
}

/// The paragraphs of a text are taken in order; those in remarks and in the record of changes are
/// left out, and none is looked for inside another.
pub proof fn law_which_paragraphs_there_are(c: Seq<Node>, one: Node)
    ensures
        paragraphs_in(Seq::empty()).len() == 0,
        one.local_name() == "annotation"@ || one.local_name() == "tracked-changes"@
            ==> paragraphs_in(c.push(one)) == paragraphs_in(c),
        one.local_name() == "p"@ ==> paragraphs_in(c.push(one)) == paragraphs_in(c).push(one),
        one.local_name() != "annotation"@ && one.local_name() != "tracked-changes"@
            && one.local_name() != "p"@ ==> paragraphs_in(c.push(one)) == paragraphs_in(c)
            + paragraphs_in(one.children@),
{
    reveal_strlit("annotation");
    reveal_strlit("tracked-changes");
    reveal_strlit("p");
    assert("annotation"@.len() == 10 && "tracked-changes"@.len() == 15 && "p"@.len() == 1);
    assert(c.push(one).drop_last() =~= c);
    assert(paragraphs_in(c) + seq![one] =~= paragraphs_in(c).push(one));
    assert(paragraphs_in(c) + Seq::<Node>::empty() =~= paragraphs_in(c));
}

/// Each number of a text is how many elements of one name stand in it.
pub proof fn law_what_a_text_counts(r: OdtCounts, root: Node, body: Node)
    requires
        r.describes(root, body),
    ensures
        r.headings == body.below("h"@).len(),
        r.tables == body.below("table"@).len(),
        r.hyperlinks == body.below("a"@).len(),
        r.images == body.below("image"@).filter(|n: Node| attr_said(n, "href"@) is Some).len(),
        r.table_rows == body.below("table-row"@).len(),
        r.table_cells == body.below("table-cell"@).len(),
        r.covered_cells == body.below("covered-table-cell"@).len(),
        r.sections == body.below("section"@).len(),
        r.breaks == body.below("line-break"@).len(),
        r.soft_page_breaks == body.below("soft-page-break"@).len(),
        r.drawings == body.below("frame"@).len(),
        r.annotations == body.below("annotation"@).len(),
        r.lists == body.below("list"@).len(),
        r.list_styles == body.below("list-style"@).len(),
        r.bookmarks == body.below("bookmark-start"@).len() + body.below("bookmark"@).len(),
        r.sequences == body.below("sequence-decl"@).len(),
        r.tracked_changes == body.below("tracked-changes"@).len(),
        r.page_breaks == (body.below("p"@) + body.below("h"@)).filter(
            |n: Node|
                n.attr_text("style-name"@) matches Some(name) && breaking(root).contains(name),
        ).len(),
{
    let all = body.below("image"@);
    let q = |i: int| attr_said(all[i], "href"@) is Some;
    crate::lists::law_those_are_all_that_satisfy(q, all.len() as int);
    crate::lists::law_a_tally_is_how_many_pass(all, q, |n: Node| attr_said(n, "href"@) is Some);
    let a = |n: Node| names_one(n, breaking(root));
    let b = |n: Node|
        n.attr_text("style-name"@) matches Some(name) && breaking(root).contains(name);
    assert(a =~= b);
}

/// A heading has the level that it states, where that reads as a number, and its own text.
pub proof fn law_what_a_heading_says(r: HeadRow, h: Node, i: int, heads: Seq<String>)
    requires
        r.describes(h, i, heads),
    ensures
        attr_said(h, "outline-level"@) is None ==> r.level is None,
        attr_said(h, "outline-level"@) matches Some(raw) ==> match unsigned_value(
            trimmed(raw),
            u64::MAX as int,
        ) {
            Some(n) => r.level matches Some(v) && v == n,
            None => r.level is None,
        },
        0 <= i < heads.len() ==> r.text@ == heads[i]@,
        i >= heads.len() ==> r.text@.len() == 0,
{
}

/// A table is told with its name, its own rows, its cells and covered places, and those of its
/// paragraphs that hold something.
pub proof fn law_what_a_table_counts(r: TableCount, tbl: Node, given: Seq<String>, from: int, to: int)
    requires
        r.describes(tbl, given, (from, to)),
        0 <= from <= to <= given.len(),
    ensures
        text_in(r.name) == attr_said(tbl, "name"@),
        r.rows == tbl.all_of("table-row"@).len(),
        r.cells == tbl.below("table-cell"@).len(),
        r.covered == tbl.below("covered-table-cell"@).len(),
        r.text == texts(given).subrange(from, to).filter(|t: Seq<char>| t.len() > 0).len(),
{
    crate::document::law_what_fills_a_span(texts(given), from, to);
}

/// Links are told with their places and their texts, and notes are of the class that they say.
pub proof fn law_what_links_and_notes_say(r: LinkRow, a: Node, n: Node)
    requires
        r.describes(a),
    ensures
        text_in(r.target) == attr_said(a, "href"@),
        r.text@ == trimmed(a.full_text()),
        of_class(n, "footnote"@) <==> attr_said(n, "note-class"@) == Some("footnote"@),
        of_class(n, "endnote"@) <==> attr_said(n, "note-class"@) == Some("endnote"@),
        unclassed(n) <==> attr_said(n, "note-class"@) != Some("footnote"@) && attr_said(
            n,
            "note-class"@,
        ) != Some("endnote"@),
{
}

/// What the report counts of the text: its paragraphs, those of the given texts that hold nothing,
/// its notes by their classes, and its pictures with and without a text.
pub proof fn law_what_is_counted_of_a_text(r: OdtReport, p: OdtParts, limit: usize, body: Node)
    requires
        r.describes_text(p, limit),
        body == text_of_root(*p.root),
    ensures
        r.paragraphs == paragraphs_in(body.children@).len(),
        r.empty_paragraphs == p.texts@.filter(|t: String| t@.len() == 0).len(),
        r.footnotes == body.below("note"@).filter(
            |n: Node| attr_said(n, "note-class"@) == Some("footnote"@),
        ).len(),
        r.endnotes == body.below("note"@).filter(
            |n: Node| attr_said(n, "note-class"@) == Some("endnote"@),
        ).len(),
        r.pictures.with_alt == all_pictures(body).filter(
            |n: Node| n.child_of("desc"@) matches Some(d) && d.full_text().len() > 0,
        ).len(),
        r.pictures.total == all_pictures(body).len(),
        r.pictures.with_alt + r.pictures.without_alt == r.pictures.total,
        r.counts.describes(*p.root, body),
        tallies(r.tally, texts(p.texts@) + texts(p.heads@)),
{
    crate::lists::law_a_tally_is_how_many_pass(
        p.texts@,
        |i: int| p.texts@[i]@.len() == 0,
        |t: String| t@.len() == 0,
    );
    let a = |n: Node| of_class(n, "footnote"@);
    let b = |n: Node| attr_said(n, "note-class"@) == Some("footnote"@);
    assert(a =~= b);
    let a = |n: Node| of_class(n, "endnote"@);
    let b = |n: Node| attr_said(n, "note-class"@) == Some("endnote"@);
    assert(a =~= b);
    let a = |n: Node| has_alt(n);
    let b = |n: Node| n.child_of("desc"@) matches Some(d) && d.full_text().len() > 0;
    assert(a =~= b);
}

/// What is said of a text: one remark on every text, one before it where notes are of neither
/// class, and one behind it where the styles could not be read.
pub proof fn law_what_is_said_of_a_text(odd: nat, n: &Node, why: String)
    ensures
        text_notes(0, Ok(n)).len() == 1,
        odd > 0 ==> text_notes(odd, Ok(n)).len() == 2,
        text_notes(0, Err(why)).len() == 2,
        odd > 0 ==> text_notes(odd, Err(why)).len() == 3,
        text_notes(0, Ok(n))[0] == TEXT_REMARK@,
        odd > 0 ==> text_notes(odd, Ok(n))[1] == TEXT_REMARK@,
{
}

/// What the report lists is the first of what there is, each told as it is written.
pub proof fn law_what_is_listed_of_a_text(r: OdtReport, p: OdtParts, limit: usize, body: Node, i: int)
    requires
        r.describes_lists(p, limit),
        body == text_of_root(*p.root),
    ensures
        r.headings@.len() <= limit && r.tables@.len() <= limit && r.hyperlinks@.len() <= limit
            && r.images@.len() <= limit && r.parts@.len() <= limit,
        r.headings@.len() == limit || r.headings@.len() == body.below("h"@).len(),
        r.tables@.len() == limit || r.tables@.len() == body.below("table"@).len(),
        r.hyperlinks@.len() == limit || r.hyperlinks@.len() == body.below("a"@).len(),
        0 <= i < r.headings@.len() ==> r.headings@[i].describes(body.below("h"@)[i], i, p.heads@),
        0 <= i < r.tables@.len() ==> r.tables@[i].describes(
            body.below("table"@)[i],
            p.all_texts@,
            table_spans(body)[i],
        ),
        0 <= i < r.hyperlinks@.len() ==> r.hyperlinks@[i].describes(body.below("a"@)[i]),
        0 <= i < r.images@.len() ==> exists|k: int|
            0 <= k < body.below("image"@).len() && attr_said(
                #[trigger] body.below("image"@)[k],
                "href"@,
            ) == Some(r.images@[i]@),
        0 <= i < r.parts@.len() ==> r.parts@[i]@ == p.entries@[i]@,
{
    assert(texts(r.parts@).len() == r.parts@.len());
    assert(texts(p.entries@).len() == p.entries@.len());
    if 0 <= i < r.headings@.len() {
        assert(r.headings@[i].describes(heads_of(body, limit)[i], i, p.heads@));
    }
    if 0 <= i < r.tables@.len() {
        assert(r.tables@[i].describes(
            tables_of(body, limit)[i],
            p.all_texts@,
            table_spans(body)[i],
        ));
    }
    if 0 <= i < r.hyperlinks@.len() {
        assert(r.hyperlinks@[i].describes(links_of(body, limit)[i]));
    }
    if 0 <= i < r.images@.len() {
        let all = body.below("image"@);
        let q = |i: int| attr_said(all[i], "href"@) is Some;
        crate::lists::law_those_are_all_that_satisfy(q, all.len() as int);
        let k = images_in(body)[i];
        assert(q(those(q, all.len() as int)[i]));
        assert(Some(r.images@[i]@) == attr_said(all[k], "href"@));
    }
    if 0 <= i < r.parts@.len() {
        assert(texts(r.parts@)[i] == r.parts@[i]@);
        assert(texts(p.entries@)[i] == p.entries@[i]@);
    }
}

/// What a program counted is what its one element for that writes, by local name.
pub proof fn law_what_a_program_counted(meta: Node, n: Node, i: int)
    requires
        meta.below("document-statistic"@).len() > 0,
        n == meta.below("document-statistic"@)[0],
        0 <= i < n.attrs@.len(),
        forall|k: int|
            i < k < n.attrs@.len() ==> local_part((#[trigger] n.attrs@[k]).0@) != local_part(
                n.attrs@[i].0@,
            ),
    ensures
        crate::written::entry_of(statistic(Some(meta)), local_part(n.attrs@[i].0@)) == Some(
            n.attrs@[i].1@,
        ),
        statistic(None).len() == 0,
{
    let t = Seq::new(n.attrs@.len(), |i: int| (local_part(n.attrs@[i].0@), n.attrs@[i].1@));
    crate::written::law_the_last_value_counts(t, local_part(n.attrs@[i].0@));
    lemma_last_entry(t, i);
}

proof fn lemma_last_entry(t: Seq<(Seq<char>, Seq<char>)>, i: int)
    requires
        0 <= i < t.len(),
        forall|k: int| i < k < t.len() ==> (#[trigger] t[k]).0 != t[i].0,
    ensures
        crate::written::entry_of(t, t[i].0) == Some(t[i].1),
    decreases t.len(),
{
    if i < t.len() - 1 {
        assert(t[t.len() - 1].0 != t[i].0);
        lemma_last_entry(t.drop_last(), i);
    }
}

} // verus!
