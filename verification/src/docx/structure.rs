//! A whole document: what it is made of, counted part by part.

use crate::document::{
    count_below, count_either, count_filled, filled, find_spans,
    law_a_span_holds_what_is_below, look_over, para_texts, remark, span_ints, spans, texts_of,
    Overview, Para,
};
use crate::docx::contents::{
    docx_contents, producer_counts, told_by, Contents, OwnCounts,
};
use crate::docx::numbering::{defined, docx_numbering, Numbering};
use crate::docx::paragraphs::{
    docx_columns, docx_paragraph_formats, ParagraphReport, SectionReport,
};
use crate::docx::pictures::{
    all_pictures, docx_pictures, find_pictures, pictures_of, Picture, Rel,
};
use crate::docx::runs::{all_keys, docx_run_formats, RunReport};
use crate::docx::tables::{docx_table_layouts, tables_of, TableReport};
use crate::lists::{at_most, cut, each, ints, lemma_those, pick_those, those};
use crate::text::{same, texts};
use crate::words::{begins, starts_with};
use crate::written::{
    ask, copied, count_nodes, find_below, first_below, node_in, said_by, text_in,
};
use crate::xml::{nodes, Node};
use vstd::prelude::*;

verus! {

broadcast use {crate::text::lemma_texts_push, crate::xml::lemma_nodes_push};

/// The parts of a document that are read. A part that is not in the package is not there.
pub struct DocxParts<'a> {
    /// What holds the root element of the main part.
    pub root: &'a Node,
    pub styles: Option<&'a Node>,
    pub numbering: Option<&'a Node>,
    pub footnotes: Option<&'a Node>,
    pub endnotes: Option<&'a Node>,
    pub comments: Option<&'a Node>,
    /// What the program that wrote the file says about it.
    pub app: Option<&'a Node>,
    pub rels: &'a Vec<Rel>,
    /// The names of all parts.
    pub entries: &'a Vec<String>,
    /// The paragraphs with their texts.
    pub paras: &'a Vec<Para>,
    /// Why the bytes of the main part are not those that the package states.
    pub unverified: Option<&'a str>,
    /// What the reader of the relationships said.
    pub rel_notes: &'a Vec<String>,
}

/// The document element, or what holds it where there is none.
pub open spec fn document_of(root: Node) -> Node {
    match root.child_of("document"@) {
        Some(d) => d,
        None => root,
    }
}

/// The body of a document, or what would hold it where there is none.
pub open spec fn body_of(root: Node) -> Node {
    match document_of(root).child_of("body"@) {
        Some(b) => b,
        None => document_of(root),
    }
}

/// What is said where the body is missing.
pub open spec fn missing_body(root: Node) -> Option<Seq<char>> {
    if document_of(root).child_of("body"@) is None {
        Some("document.xml 里没有 w:body 元素"@)
    } else {
        None
    }
}

/// What is said of the main part: that its bytes are not those that the package states, that the
/// body is missing, and what was said of the relationships.
pub open spec fn document_notes(p: DocxParts) -> Seq<Seq<char>> {
    remark(
        match p.unverified {
            Some(why) => Some("word/document.xml："@ + why@),
            None => None,
        },
    ) + remark(missing_body(*p.root)) + texts(p.rel_notes@)
}

fn read_notes(p: &DocxParts, missing: bool) -> (r: Vec<String>)
    requires
        missing == (missing_body(*p.root) is Some),
    ensures
        texts(r@) == document_notes(*p),
{
    let mut out: Vec<String> = Vec::new();
    assert(texts(out@) =~= Seq::empty());
    if let Some(why) = p.unverified {
        let mut one: String = "word/document.xml：".to_owned();
        one.append(why);
        out.push(one);
    }
    if missing {
        out.push("document.xml 里没有 w:body 元素".to_owned());
    }
    let mut more: Vec<String> = each(
        p.rel_notes,
        p.rel_notes.len(),
        |i: usize, s: &String| -> (r: String)
            ensures
                r@ == s@
            { s.clone() },
    );
    out.append(&mut more);
    assert(texts(out@) =~= document_notes(*p));
    out
}

/// A break that begins a new page.
pub open spec fn is_page_break(n: Node) -> bool {
    n.attr_text("type"@) == Some("page"@)
}

/// A picture with a text for those who do not see it.
pub open spec fn has_alt(frame: Node) -> bool {
    match said_by(first_below(frame, "docPr"@), "descr"@) {
        Some(t) => t.len() > 0,
        None => false,
    }
}

/// A note that is one of the two rules above notes.
pub open spec fn is_rule(n: Node) -> bool {
    n.attr_text("type"@) == Some("separator"@) || n.attr_text("type"@) == Some(
        "continuationSeparator"@,
    )
}

/// How many notes a part holds. The rules above notes stand there too and do not count.
pub open spec fn notes_in(part: Option<Node>, name: Seq<char>) -> nat {
    match part {
        Some(p) => p.below(name).filter(|n: Node| !is_rule(n)).len(),
        None => 0,
    }
}

fn count_notes(part: Option<&Node>, name: &str) -> (r: usize)
    ensures
        r == notes_in(node_in(part), name@),
{
    match part {
        Some(p) => {
            let all: Vec<&Node> = p.descendants(name);
            count_nodes(
                &all,
                |n: &Node| -> (b: bool)
                    ensures
                        b == !is_rule(*n)
                    {
                        match n.attr_local("type") {
                            Some(t) => !same(t, "separator") && !same(t, "continuationSeparator"),
                            None => true,
                        }
                    },
                Ghost(|n: Node| !is_rule(n)),
            )
        },
        None => 0,
    }
}

/// How many row and cell elements stand in a table, tables within it included.
#[derive(Debug, Clone, Copy)]
pub struct TableCount {
    pub rows: usize,
    pub cells: usize,
    /// How many of its paragraphs hold text.
    pub text: usize,
}

impl TableCount {
    /// The paragraphs of the table are those of the document in `span`.
    pub open spec fn describes(self, tbl: Node, paras: Seq<Para>, span: (int, int)) -> bool {
        &&& self.rows == tbl.below("tr"@).len()
        &&& self.cells == tbl.below("tc"@).len()
        &&& self.text == filled(para_texts(paras), span)
    }
}

/// Where the paragraphs of each table stand among those of the document.
pub open spec fn table_spans(body: Node) -> Seq<(int, int)> {
    spans(body.children@, "tbl"@, "p"@, 0)
}

/// The paragraphs in the span of a table are those that stand in it, tables within it included.
pub proof fn law_a_table_counts_its_own_paragraphs(body: Node, i: int)
    requires
        0 <= i < body.below("tbl"@).len(),
    ensures
        table_spans(body).len() == body.below("tbl"@).len(),
        0 <= table_spans(body)[i].0 <= table_spans(body)[i].1 <= body.below("p"@).len(),
        body.below("p"@).subrange(table_spans(body)[i].0, table_spans(body)[i].1)
            == body.below("tbl"@)[i].below("p"@),
{
    law_a_span_holds_what_is_below(body.children@, "tbl"@, "p"@, 0);
}

fn read_tables(body: &Node, paras: &Vec<Para>, limit: usize) -> (r: Vec<TableCount>)
    ensures
        r@.len() == tables_of(*body, limit).len(),
        forall|i: int|
            0 <= i < r@.len() ==> (#[trigger] r@[i]).describes(
                tables_of(*body, limit)[i],
                paras@,
                table_spans(*body)[i],
            ),
{
    let mut all: Vec<&Node> = body.descendants("tbl");
    assert(nodes(all@).len() == all@.len());
    let places: Vec<(usize, usize)> = find_spans(body, "tbl", "p");
    let given: Vec<String> = texts_of(paras);
    if limit < all.len() {
        all.truncate(limit);
    }
    assert(nodes(all@) =~= tables_of(*body, limit));
    assert(nodes(all@).len() == all@.len());
    let out: Vec<TableCount> = each(
        &all,
        all.len(),
        |i: usize, t: &&Node| -> (r: TableCount)
            requires
                i < places@.len()
            ensures
                r.describes(
                    **t,
                    paras@,
                    (places@[i as int].0 as int, places@[i as int].1 as int),
                )
            {
                TableCount {
                    rows: count_below(t, "tr"),
                    cells: count_below(t, "tc"),
                    text: count_filled(&given, places[i]),
                }
            },
    );
    assert forall|i: int| 0 <= i < out@.len() implies (#[trigger] out@[i]).describes(
        tables_of(*body, limit)[i],
        paras@,
        table_spans(*body)[i],
    ) by {
        assert(nodes(all@)[i] == *all@[i]);
        assert(span_ints(places@)[i] == (places@[i].0 as int, places@[i].1 as int));
    }
    out
}

/// A link out of the document.
#[derive(Debug)]
pub struct Link {
    pub target: String,
    pub external: bool,
    pub resolves: Option<String>,
}

impl Link {
    pub open spec fn describes(self, r: Rel) -> bool {
        &&& self.target@ == r.target@
        &&& self.external == r.external
        &&& text_in(self.resolves) == text_in(r.resolved)
    }
}

/// The relationships of a kind.
pub open spec fn rels_of(rels: Seq<Rel>, kind: Seq<char>) -> Seq<int> {
    those(|i: int| rels[i].kind@ == kind, rels.len() as int)
}

/// The relationships of a kind that lead to a part.
pub open spec fn leading(rels: Seq<Rel>, kind: Seq<char>) -> Seq<int> {
    those(|i: int| rels[i].kind@ == kind && rels[i].resolved is Some, rels.len() as int)
}

/// The links, at most `limit` of them, and how many there are.
fn read_links(rels: &Vec<Rel>, limit: usize) -> (r: (Vec<Link>, usize))
    ensures
        r.1 == rels_of(rels@, "hyperlink"@).len(),
        r.0@.len() == at_most(rels_of(rels@, "hyperlink"@).len(), limit),
        forall|i: int|
            0 <= i < r.0@.len() ==> (#[trigger] r.0@[i]).describes(
                rels@[rels_of(rels@, "hyperlink"@)[i]],
            ),
{
    let which: Vec<usize> = pick_those(
        rels.len(),
        |i: usize| -> (b: bool)
            requires
                i < rels@.len()
            ensures
                b == (rels@[i as int].kind@ == "hyperlink"@)
            { same(rels[i].kind.as_str(), "hyperlink") },
        Ghost(|i: int| rels@[i].kind@ == "hyperlink"@),
    );
    assert(ints(which@).len() == which@.len());
    let out: Vec<Link> = each(
        &which,
        cut(which.len(), limit),
        |at: usize, i: &usize| -> (r: Link)
            requires
                *i < rels@.len()
            ensures
                r.describes(rels@[*i as int])
            {
                Link {
                    target: rels[*i].target.clone(),
                    external: rels[*i].external,
                    resolves: copied(&rels[*i].resolved),
                }
            },
    );
    assert forall|k: int| 0 <= k < out@.len() implies (#[trigger] out@[k]).describes(
        rels@[rels_of(rels@, "hyperlink"@)[k]],
    ) by {
        assert(ints(which@)[k] == which@[k] as int);
    }
    (out, which.len())
}

/// The images, at most `limit` of them, and how many there are.
fn read_images(rels: &Vec<Rel>, limit: usize) -> (r: (Vec<String>, usize))
    ensures
        r.1 == leading(rels@, "image"@).len(),
        r.0@.len() == at_most(leading(rels@, "image"@).len(), limit),
        forall|i: int|
            0 <= i < r.0@.len() ==> Some((#[trigger] r.0@[i])@) == text_in(
                rels@[leading(rels@, "image"@)[i]].resolved,
            ),
{
    let ghost q = |i: int| rels@[i].kind@ == "image"@ && rels@[i].resolved is Some;
    let which: Vec<usize> = pick_those(
        rels.len(),
        |i: usize| -> (b: bool)
            requires
                i < rels@.len()
            ensures
                b == (rels@[i as int].kind@ == "image"@ && rels@[i as int].resolved is Some)
            { same(rels[i].kind.as_str(), "image") && rels[i].resolved.is_some() },
        Ghost(q),
    );
    assert(ints(which@).len() == which@.len());
    proof {
        lemma_those(q, rels@.len() as int);
    }
    assert forall|k: int| 0 <= k < which@.len() implies rels@[#[trigger] which@[k] as int].resolved
        is Some by {
        assert(ints(which@)[k] == which@[k] as int);
    }
    let out: Vec<String> = each(
        &which,
        cut(which.len(), limit),
        |at: usize, i: &usize| -> (r: String)
            requires
                *i < rels@.len(),
                rels@[*i as int].resolved is Some
            ensures
                Some(r@) == text_in(rels@[*i as int].resolved)
            {
                match &rels[*i].resolved {
                    Some(t) => t.clone(),
                    None => String::new(),
                }
            },
    );
    assert forall|k: int| 0 <= k < out@.len() implies Some((#[trigger] out@[k])@) == text_in(
        rels@[leading(rels@, "image"@)[k]].resolved,
    ) by {
        assert(ints(which@)[k] == which@[k] as int);
    }
    (out, which.len())
}

/// The parts of the main folder.
pub open spec fn own_parts(entries: Seq<String>) -> Seq<int> {
    those(|i: int| begins(entries[i]@, "word/"@), entries.len() as int)
}

fn read_parts(entries: &Vec<String>, limit: usize) -> (r: Vec<String>)
    ensures
        r@.len() == at_most(own_parts(entries@).len(), limit),
        forall|i: int|
            0 <= i < r@.len() ==> (#[trigger] r@[i])@ == entries@[own_parts(entries@)[i]]@,
{
    let which: Vec<usize> = pick_those(
        entries.len(),
        |i: usize| -> (b: bool)
            requires
                i < entries@.len()
            ensures
                b == begins(entries@[i as int]@, "word/"@)
            { starts_with(entries[i].as_str(), "word/") },
        Ghost(|i: int| begins(entries@[i]@, "word/"@)),
    );
    assert(ints(which@).len() == which@.len());
    let out: Vec<String> = each(
        &which,
        cut(which.len(), limit),
        |at: usize, i: &usize| -> (r: String)
            requires
                *i < entries@.len()
            ensures
                r@ == entries@[*i as int]@
            { entries[*i].clone() },
    );
    assert forall|k: int| 0 <= k < out@.len() implies (#[trigger] out@[k])@ == entries@[own_parts(
        entries@,
    )[k]]@ by {
        assert(ints(which@)[k] == which@[k] as int);
    }
    out
}

/// How many elements of each kind the body holds.
#[derive(Debug, Clone, Copy)]
pub struct DocxCounts {
    pub paragraphs: usize,
    pub tables: usize,
    pub table_rows: usize,
    pub table_cells: usize,
    pub sections: usize,
    pub breaks: usize,
    pub page_breaks: usize,
    pub drawings: usize,
    pub text_boxes: usize,
    pub insertions: usize,
    pub deletions: usize,
    pub bookmarks: usize,
    pub fields: usize,
    /// A paragraph is numbered; that a part for numbering is there says nothing.
    pub has_numbering: bool,
}

impl DocxCounts {
    pub open spec fn describes(self, body: Node) -> bool {
        &&& self.paragraphs == body.below("p"@).len()
        &&& self.tables == body.below("tbl"@).len()
        &&& self.table_rows == body.below("tr"@).len()
        &&& self.table_cells == body.below("tc"@).len()
        &&& self.sections == body.below("sectPr"@).len()
        &&& self.breaks == body.below("br"@).len()
        &&& self.page_breaks == body.below("br"@).filter(|n: Node| is_page_break(n)).len()
        &&& self.drawings == body.below("drawing"@).len()
        &&& self.text_boxes == body.below("txbxContent"@).len()
        &&& self.insertions == body.below("ins"@).len()
        &&& self.deletions == body.below("del"@).len()
        &&& self.bookmarks == body.below("bookmarkStart"@).len()
        &&& self.fields == body.below("fldSimple"@).len() + body.below("fldChar"@).len()
        &&& self.has_numbering == (body.below("numPr"@).len() > 0)
    }
}

fn count_body(body: &Node) -> (r: DocxCounts)
    ensures
        r.describes(*body),
{
    let breaks: Vec<&Node> = body.descendants("br");
    let page_breaks: usize = count_nodes(
        &breaks,
        |n: &Node| -> (b: bool)
            ensures
                b == is_page_break(*n)
            {
                match n.attr_local("type") {
                    Some(t) => same(t, "page"),
                    None => false,
                }
            },
        Ghost(|n: Node| is_page_break(n)),
    );
    DocxCounts {
        paragraphs: count_below(body, "p"),
        tables: count_below(body, "tbl"),
        table_rows: count_below(body, "tr"),
        table_cells: count_below(body, "tc"),
        sections: count_below(body, "sectPr"),
        breaks: count_below(body, "br"),
        page_breaks,
        drawings: count_below(body, "drawing"),
        text_boxes: count_below(body, "txbxContent"),
        insertions: count_below(body, "ins"),
        deletions: count_below(body, "del"),
        bookmarks: count_below(body, "bookmarkStart"),
        fields: count_either(body, "fldSimple", "fldChar"),
        has_numbering: count_below(body, "numPr") > 0,
    }
}

/// The pictures of a document, and how many of them have a text for those who do not see them.
/// The counts are over all pictures.
#[derive(Debug)]
pub struct Pictures {
    pub total: usize,
    pub with_alt: usize,
    pub without_alt: usize,
    pub list: Vec<Picture>,
}

impl Pictures {
    pub open spec fn describes(self, body: Node, rels: Seq<Rel>, limit: usize) -> bool {
        let all = all_pictures(body);
        let f = pictures_of(body, limit);
        &&& self.total == all.len()
        &&& self.with_alt == all.filter(|n: Node| has_alt(n)).len()
        &&& self.with_alt + self.without_alt == self.total
        &&& self.list@.len() == f.len()
        &&& forall|i: int|
            0 <= i < f.len() ==> (#[trigger] self.list@[i]).describes(f[i], rels)
    }
}

fn read_pictures(body: &Node, rels: &Vec<Rel>, limit: usize) -> (r: Pictures)
    ensures
        r.describes(*body, rels@, limit),
{
    let all: Vec<&Node> = find_pictures(body);
    assert(nodes(all@).len() == all@.len());
    let with_alt: usize = count_nodes(
        &all,
        |f: &Node| -> (b: bool)
            ensures
                b == has_alt(*f)
            {
                match ask(find_below(f, "docPr"), "descr") {
                    Some(t) => t.as_str().unicode_len() > 0,
                    None => false,
                }
            },
        Ghost(|f: Node| has_alt(f)),
    );
    proof {
        nodes(all@).lemma_filter_len(|f: Node| has_alt(f));
    }
    Pictures {
        total: all.len(),
        with_alt,
        without_alt: all.len() - with_alt,
        list: docx_pictures(body, rels, limit),
    }
}

/// A whole document.
#[derive(Debug)]
pub struct DocxReport {
    pub notes: Vec<String>,
    pub counts: DocxCounts,
    pub overview: Overview,
    pub pictures: Pictures,
    pub paragraph_formats: ParagraphReport,
    pub run_formats: RunReport,
    pub columns: SectionReport,
    pub numbering: Numbering,
    pub table_layouts: TableReport,
    pub numbering_part: bool,
    pub tables: Vec<TableCount>,
    /// How many images and links there are, listed or not.
    pub image_total: usize,
    pub hyperlink_total: usize,
    pub images: Vec<String>,
    pub hyperlinks: Vec<Link>,
    pub footnotes: usize,
    pub endnotes: usize,
    pub comments: usize,
    pub contents: Contents,
    pub producer: Option<OwnCounts>,
    pub parts: Vec<String>,
}

impl DocxReport {
    /// What is read from the body.
    pub open spec fn describes_body(self, p: DocxParts, limit: usize) -> bool {
        let body = body_of(*p.root);
        let ps = body.below("p"@);
        &&& texts(self.notes@) == document_notes(p)
        &&& self.counts.describes(body)
        &&& self.overview.describes(p.paras@, limit)
        &&& self.pictures.describes(body, p.rels@, limit)
        &&& self.paragraph_formats.describes(ps, limit)
        &&& self.run_formats.describes(
            ps,
            node_in(p.styles),
            all_keys(node_in(p.footnotes), node_in(p.endnotes)),
            limit,
        )
        &&& self.columns.describes(body, limit)
        &&& self.numbering.describes(
            ps,
            defined(node_in(p.numbering), node_in(p.styles)),
            texts(p.entries@).contains("word/numbering.xml"@),
            limit,
        )
        &&& self.table_layouts.describes(body, limit)
        &&& self.tables@.len() == tables_of(body, limit).len()
        &&& forall|i: int|
            0 <= i < self.tables@.len() ==> (#[trigger] self.tables@[i]).describes(
                tables_of(body, limit)[i],
                p.paras@,
                table_spans(body)[i],
            )
        &&& self.contents.describes(*p.root)
    }

    /// What is read from the other parts.
    pub open spec fn describes_parts(self, p: DocxParts, limit: usize) -> bool {
        &&& self.numbering_part == texts(p.entries@).contains("word/numbering.xml"@)
        &&& self.image_total == leading(p.rels@, "image"@).len()
        &&& self.images@.len() == at_most(leading(p.rels@, "image"@).len(), limit)
        &&& forall|i: int|
            0 <= i < self.images@.len() ==> Some((#[trigger] self.images@[i])@) == text_in(
                p.rels@[leading(p.rels@, "image"@)[i]].resolved,
            )
        &&& self.hyperlink_total == rels_of(p.rels@, "hyperlink"@).len()
        &&& self.hyperlinks@.len() == at_most(rels_of(p.rels@, "hyperlink"@).len(), limit)
        &&& forall|i: int|
            0 <= i < self.hyperlinks@.len() ==> (#[trigger] self.hyperlinks@[i]).describes(
                p.rels@[rels_of(p.rels@, "hyperlink"@)[i]],
            )
        &&& self.footnotes == notes_in(node_in(p.footnotes), "footnote"@)
        &&& self.endnotes == notes_in(node_in(p.endnotes), "endnote"@)
        &&& self.comments == notes_in(node_in(p.comments), "comment"@)
        &&& match node_in(p.app) {
            Some(a) => match self.producer {
                Some(c) => c.describes(a),
                None => told_by(a, "Words"@) is None && told_by(a, "Characters"@) is None
                    && told_by(a, "Paragraphs"@) is None && told_by(a, "Lines"@) is None
                    && told_by(a, "Pages"@) is None,
            },
            None => self.producer is None,
        }
        &&& self.parts@.len() == at_most(own_parts(p.entries@).len(), limit)
        &&& forall|i: int|
            0 <= i < self.parts@.len() ==> (#[trigger] self.parts@[i])@ == p.entries@[own_parts(
                p.entries@,
            )[i]]@
    }
}

/// Reads a whole document. Lists are cut to `limit`, counts are over everything.
pub fn read_docx(p: &DocxParts, limit: usize) -> (r: DocxReport)
    ensures
        r.describes_body(*p, limit),
        r.describes_parts(*p, limit),
{
    let document: &Node = match p.root.child("document") {
        Some(d) => d,
        None => p.root,
    };
    let (body, missing): (&Node, bool) = match document.child("body") {
        Some(b) => (b, false),
        None => (document, true),
    };
    let paragraphs: Vec<&Node> = body.descendants("p");
    let numbering_part: bool = crate::written::lists(p.entries, "word/numbering.xml");
    let producer: Option<OwnCounts> = match p.app {
        Some(a) => producer_counts(a),
        None => None,
    };
    let (images, image_total) = read_images(p.rels, limit);
    let (hyperlinks, hyperlink_total) = read_links(p.rels, limit);
    DocxReport {
        notes: read_notes(p, missing),
        counts: count_body(body),
        overview: look_over(p.paras, limit),
        pictures: read_pictures(body, p.rels, limit),
        paragraph_formats: docx_paragraph_formats(&paragraphs, limit),
        run_formats: docx_run_formats(&paragraphs, p.styles, p.footnotes, p.endnotes, limit),
        columns: docx_columns(body, limit),
        numbering: docx_numbering(&paragraphs, p.numbering, p.styles, numbering_part, limit),
        table_layouts: docx_table_layouts(body, limit),
        numbering_part,
        tables: read_tables(body, p.paras, limit),
        image_total,
        hyperlink_total,
        images,
        hyperlinks,
        footnotes: count_notes(p.footnotes, "footnote"),
        endnotes: count_notes(p.endnotes, "endnote"),
        comments: count_notes(p.comments, "comment"),
        contents: docx_contents(p.root),
        producer,
        parts: read_parts(p.entries, limit),
    }
}

/// The body of a document is the body in its document element; what holds them stands in where
/// one is missing, and that is said.
pub proof fn law_where_the_body_is(root: Node, doc: Node, body: Node)
    ensures
        root.child_of("document"@) == Some(doc) && doc.child_of("body"@) == Some(body) ==> body_of(
            root,
        ) == body && missing_body(root) is None,
        root.child_of("document"@) == Some(doc) && doc.child_of("body"@) is None ==> body_of(root)
            == doc && missing_body(root) is Some,
        root.child_of("document"@) is None && root.child_of("body"@) == Some(body) ==> body_of(
            root,
        ) == body && missing_body(root) is None,
        root.child_of("document"@) is None && root.child_of("body"@) is None ==> body_of(root)
            == root && missing_body(root) is Some,
{
}

/// Each number of a body is how many elements of one name stand in it.
pub proof fn law_what_a_body_counts(r: DocxCounts, body: Node)
    requires
        r.describes(body),
    ensures
        r.paragraphs == body.below("p"@).len(),
        r.tables == body.below("tbl"@).len(),
        r.table_rows == body.below("tr"@).len(),
        r.table_cells == body.below("tc"@).len(),
        r.sections == body.below("sectPr"@).len(),
        r.breaks == body.below("br"@).len(),
        r.page_breaks == body.below("br"@).filter(
            |n: Node| n.attr_text("type"@) == Some("page"@),
        ).len(),
        r.page_breaks <= r.breaks,
        r.drawings == body.below("drawing"@).len(),
        r.text_boxes == body.below("txbxContent"@).len(),
        r.insertions == body.below("ins"@).len(),
        r.deletions == body.below("del"@).len(),
        r.bookmarks == body.below("bookmarkStart"@).len(),
        r.fields == body.below("fldSimple"@).len() + body.below("fldChar"@).len(),
        r.has_numbering <==> body.below("numPr"@).len() > 0,
{
    let a = |n: Node| is_page_break(n);
    let b = |n: Node| n.attr_text("type"@) == Some("page"@);
    assert(a =~= b);
    body.below("br"@).lemma_filter_len(a);
}

/// A picture has a text where the properties of its drawing describe it with at least one
/// character.
pub proof fn law_which_pictures_have_a_text(frame: Node, props: Node)
    requires
        frame.below("docPr"@).len() > 0,
        props == frame.below("docPr"@)[0],
    ensures
        props.attr_text("descr"@) is None ==> !has_alt(frame),
        props.attr_text("descr"@) matches Some(t) ==> (has_alt(frame) <==> t.len() > 0),
{
}

/// The notes of a part are those of a name in it without the two rules that stand above notes.
pub proof fn law_which_notes_count(part: Node, name: Seq<char>)
    ensures
        notes_in(None, name) == 0,
        notes_in(Some(part), name) == part.below(name).filter(
            |n: Node|
                n.attr_text("type"@) != Some("separator"@) && n.attr_text("type"@) != Some(
                    "continuationSeparator"@,
                ),
        ).len(),
{
    let a = |n: Node| !is_rule(n);
    let b = |n: Node|
        n.attr_text("type"@) != Some("separator"@) && n.attr_text("type"@) != Some(
            "continuationSeparator"@,
        );
    assert(a =~= b);
}

/// A table is told with its rows, its cells and those of its paragraphs that hold something.
pub proof fn law_what_a_table_counts(r: TableCount, tbl: Node, paras: Seq<Para>, from: int, to: int)
    requires
        r.describes(tbl, paras, (from, to)),
        0 <= from <= to <= paras.len(),
    ensures
        r.rows == tbl.below("tr"@).len(),
        r.cells == tbl.below("tc"@).len(),
        r.text == para_texts(paras).subrange(from, to).filter(|t: Seq<char>| t.len() > 0).len(),
{
    crate::document::law_what_fills_a_span(para_texts(paras), from, to);
}

/// Links are the relationships of that kind, and images those that lead to a part; both are told
/// in their order with what the relationship says.
pub proof fn law_what_links_and_images_are(r: DocxReport, p: DocxParts, limit: usize, i: int)
    requires
        r.describes_parts(p, limit),
    ensures
        r.hyperlink_total == p.rels@.filter(|x: Rel| x.kind@ == "hyperlink"@).len(),
        r.image_total == p.rels@.filter(
            |x: Rel| x.kind@ == "image"@ && x.resolved is Some,
        ).len(),
        0 <= i < r.hyperlinks@.len() ==> exists|k: int|
            0 <= k < p.rels@.len() && (#[trigger] p.rels@[k]).kind@ == "hyperlink"@
                && r.hyperlinks@[i].target@ == p.rels@[k].target@ && r.hyperlinks@[i].external
                == p.rels@[k].external && text_in(r.hyperlinks@[i].resolves) == text_in(
                p.rels@[k].resolved,
            ),
        0 <= i < r.images@.len() ==> exists|k: int|
            0 <= k < p.rels@.len() && (#[trigger] p.rels@[k]).kind@ == "image"@ && text_in(
                p.rels@[k].resolved,
            ) == Some(r.images@[i]@),
        0 <= i < r.parts@.len() ==> begins(r.parts@[i]@, "word/"@),
{
    let n = p.rels@.len() as int;
    let a = |i: int| p.rels@[i].kind@ == "hyperlink"@;
    let b = |i: int| p.rels@[i].kind@ == "image"@ && p.rels@[i].resolved is Some;
    let c = |i: int| begins(p.entries@[i]@, "word/"@);
    crate::lists::law_those_are_all_that_satisfy(a, n);
    crate::lists::law_those_are_all_that_satisfy(b, n);
    crate::lists::law_those_are_all_that_satisfy(c, p.entries@.len() as int);
    crate::lists::law_a_tally_is_how_many_pass(p.rels@, a, |x: Rel| x.kind@ == "hyperlink"@);
    crate::lists::law_a_tally_is_how_many_pass(
        p.rels@,
        b,
        |x: Rel| x.kind@ == "image"@ && x.resolved is Some,
    );
    if 0 <= i < r.hyperlinks@.len() {
        let k = rels_of(p.rels@, "hyperlink"@)[i];
        assert(a(those(a, n)[i]));
        assert(r.hyperlinks@[i].describes(p.rels@[k]));
    }
    if 0 <= i < r.images@.len() {
        let k = leading(p.rels@, "image"@)[i];
        assert(b(those(b, n)[i]));
        assert(Some(r.images@[i]@) == text_in(p.rels@[k].resolved));
    }
    if 0 <= i < r.parts@.len() {
        let k = own_parts(p.entries@)[i];
        assert(c(those(c, p.entries@.len() as int)[i]));
        assert(r.parts@[i]@ == p.entries@[k]@);
    }
}

/// What is told of the other parts: the notes of each by their names, and whether there is a part
/// for numbering.
pub proof fn law_what_the_other_parts_say(r: DocxReport, p: DocxParts, limit: usize)
    requires
        r.describes_parts(p, limit),
    ensures
        r.footnotes == notes_in(node_in(p.footnotes), "footnote"@),
        r.endnotes == notes_in(node_in(p.endnotes), "endnote"@),
        r.comments == notes_in(node_in(p.comments), "comment"@),
        r.numbering_part <==> texts(p.entries@).contains("word/numbering.xml"@),
        p.app is None ==> r.producer is None,
{
}

/// What is read of the body is read of the body of the root, its paragraphs among all below it.
pub proof fn law_what_is_read_of_the_body(r: DocxReport, p: DocxParts, limit: usize, body: Node)
    requires
        r.describes_body(p, limit),
        body == body_of(*p.root),
    ensures
        r.counts.describes(body),
        r.pictures.describes(body, p.rels@, limit),
        r.pictures.with_alt + r.pictures.without_alt == r.pictures.total,
        r.paragraph_formats.describes(body.below("p"@), limit),
        r.columns.describes(body, limit),
        r.table_layouts.describes(body, limit),
        r.contents.describes(*p.root),
        r.overview.describes(p.paras@, limit),
        r.run_formats.checked == crate::docx::runs::places(body.below("p"@)).len(),
        r.numbering.part <==> texts(p.entries@).contains("word/numbering.xml"@),
        p.unverified is None && missing_body(*p.root) is None ==> texts(r.notes@) == texts(
            p.rel_notes@,
        ),
        p.unverified is None && missing_body(*p.root) is Some ==> r.notes@.len()
            == p.rel_notes@.len() + 1,
{
    let e = Seq::<Seq<char>>::empty();
    assert(e + e + texts(p.rel_notes@) =~= texts(p.rel_notes@));
    assert(texts(r.notes@).len() == document_notes(p).len());
}

/// What the program counted is told where it counted words, characters, paragraphs, lines or pages,
/// and not told where it counted none of them.
pub proof fn law_when_a_program_has_counted(r: DocxReport, p: DocxParts, limit: usize, a: Node)
    requires
        r.describes_parts(p, limit),
        node_in(p.app) == Some(a),
    ensures
        told_by(a, "Words"@) is Some ==> r.producer is Some,
        told_by(a, "Characters"@) is Some ==> r.producer is Some,
        told_by(a, "Paragraphs"@) is Some ==> r.producer is Some,
        told_by(a, "Lines"@) is Some ==> r.producer is Some,
        told_by(a, "Pages"@) is Some ==> r.producer is Some,
        r.producer matches Some(c) ==> c.describes(a),
{
}

/// What is said of the main part comes first: that its bytes are not what the package states, and
/// that it has no body.
pub proof fn law_what_is_said_of_the_main_part(p: DocxParts)
    ensures
        document_of(*p.root).child_of("body"@) is None ==> missing_body(*p.root) == Some(
            "document.xml 里没有 w:body 元素"@,
        ),
        document_of(*p.root).child_of("body"@) is Some ==> missing_body(*p.root) is None,
        p.unverified matches Some(why) ==> document_notes(p).len() > 0 && document_notes(p)[0]
            == "word/document.xml："@ + why@,
        document_notes(p).len() >= p.rel_notes@.len(),
        p.rel_notes@.len() > 0 ==> document_notes(p).last() == p.rel_notes@.last()@,
{
}

} // verus!
