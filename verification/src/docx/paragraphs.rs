//! What paragraphs say about their own shape, and sections about their columns.

use crate::lists::{at_most, count_those, cut, each, ints, pick_those, tally, those};
use crate::text::{pair_texts, texts};
use crate::words::{ends_with, finishes, parse_unsigned, unsigned_value};
use crate::written::{
    ask, attr_map, child_names, children_of, count_nodes, go, local_names, map_if, node_in, said_by,
    step, table_if, table_in, table_of, text_in,
};
use crate::xml::{local_of, local_part, nodes, Node};
use vstd::prelude::*;

verus! {

broadcast use {crate::text::lemma_pair_texts_push, crate::xml::lemma_nodes_push};

/// The properties that a paragraph has of its own.
pub open spec fn props_of(p: Node) -> Option<Node> {
    p.child_of("pPr"@)
}

/// One of the attributes counts in characters.
pub open spec fn in_chars(ind: Option<Node>) -> bool {
    match ind {
        Some(n) => exists|i: int|
            0 <= i < n.attrs@.len() && finishes(
                local_part((#[trigger] n.attrs@[i]).0@),
                "Chars"@,
            ),
        None => false,
    }
}

fn is_in_chars(ind: Option<&Node>) -> (r: bool)
    ensures
        r == in_chars(node_in(ind)),
{
    let n: &Node = match ind {
        Some(n) => n,
        None => {
            return false;
        },
    };
    let mut i: usize = 0;
    while i < n.attrs.len()
        invariant
            i <= n.attrs@.len(),
            node_in(ind) == Some(*n),
            forall|k: int|
                0 <= k < i ==> !finishes(local_part((#[trigger] n.attrs@[k]).0@), "Chars"@),
        decreases n.attrs@.len() - i,
    {
        if ends_with(local_of(n.attrs[i].0.as_str()), "Chars") {
            let ghost m = node_in(ind).unwrap();
            assert(0 <= i < m.attrs@.len() && finishes(
                local_part(m.attrs@[i as int].0@),
                "Chars"@,
            ));
            return true;
        }
        i += 1;
    }
    false
}

/// One paragraph.
#[derive(Debug, Clone)]
pub struct ParagraphRow {
    pub index: usize,
    pub style: Option<String>,
    pub elements: Vec<String>,
    pub alignment: Option<String>,
    pub indent: Option<Vec<(String, String)>>,
    pub spacing: Option<Vec<(String, String)>>,
    pub chars_written: bool,
}

impl ParagraphRow {
    pub open spec fn describes(self, ps: Seq<Node>, i: int) -> bool {
        let props = props_of(ps[i]);
        &&& self.index == i
        &&& text_in(self.style) == said_by(step(props, "pStyle"@), "val"@)
        &&& texts(self.elements@) == local_names(children_of(props))
        &&& text_in(self.alignment) == said_by(step(props, "jc"@), "val"@)
        &&& table_in(self.indent) == table_if(step(props, "ind"@))
        &&& table_in(self.spacing) == table_if(step(props, "spacing"@))
        &&& self.chars_written == in_chars(step(props, "ind"@))
    }
}

fn read_paragraph(ps: &Vec<&Node>, i: usize) -> (r: ParagraphRow)
    requires
        i < ps@.len(),
    ensures
        r.describes(nodes(ps@), i as int),
{
    let props: Option<&Node> = ps[i].child("pPr");
    let elements: Vec<String> = match props {
        Some(h) => child_names(h),
        None => {
            let none: Vec<String> = Vec::new();
            assert(texts(none@) =~= local_names(Seq::empty()));
            none
        },
    };
    let ind: Option<&Node> = go(props, "ind");
    ParagraphRow {
        index: i,
        style: ask(go(props, "pStyle"), "val"),
        elements,
        alignment: ask(go(props, "jc"), "val"),
        indent: map_if(ind),
        spacing: map_if(go(props, "spacing")),
        chars_written: is_in_chars(ind),
    }
}

/// The paragraphs with properties of their own.
pub open spec fn listed(ps: Seq<Node>) -> Seq<int> {
    those(|i: int| props_of(ps[i]) is Some, ps.len() as int)
}

/// How many paragraphs have a property.
pub open spec fn having(ps: Seq<Node>, name: Seq<char>) -> nat {
    tally(|i: int| step(props_of(ps[i]), name) is Some, ps.len() as int)
}

/// What paragraphs say about their own shape.
#[derive(Debug, Clone)]
pub struct ParagraphReport {
    pub checked: usize,
    pub listed: usize,
    pub with_alignment: usize,
    pub with_indent: usize,
    pub with_spacing: usize,
    pub list: Vec<ParagraphRow>,
}

impl ParagraphReport {
    pub open spec fn describes(self, ps: Seq<Node>, limit: usize) -> bool {
        &&& self.checked == ps.len()
        &&& self.listed == listed(ps).len()
        &&& self.with_alignment == having(ps, "jc"@)
        &&& self.with_indent == having(ps, "ind"@)
        &&& self.with_spacing == having(ps, "spacing"@)
        &&& self.list@.len() == at_most(listed(ps).len(), limit)
        &&& forall|i: int|
            0 <= i < self.list@.len() ==> (#[trigger] self.list@[i]).describes(ps, listed(ps)[i])
    }
}

fn count_having(ps: &Vec<&Node>, name: &str) -> (r: usize)
    ensures
        r == having(nodes(ps@), name@),
{
    let ghost s = nodes(ps@);
    count_those(
        ps.len(),
        |i: usize| -> (b: bool)
            requires
                i < ps@.len()
            ensures
                b == (step(props_of(s[i as int]), name@) is Some)
            { go(ps[i].child("pPr"), name).is_some() },
        Ghost(|i: int| step(props_of(s[i]), name@) is Some),
    )
}

/// What paragraphs say about their own shape, at most `limit` of them. What their styles say is
/// not asked.
pub fn docx_paragraph_formats(paragraphs: &Vec<&Node>, limit: usize) -> (r: ParagraphReport)
    ensures
        r.describes(nodes(paragraphs@), limit),
{
    let ghost ps = nodes(paragraphs@);
    let n: usize = paragraphs.len();
    assert(ps.len() == n);
    let which: Vec<usize> = pick_those(
        n,
        |i: usize| -> (b: bool)
            requires
                i < n
            ensures
                b == (props_of(ps[i as int]) is Some)
            { paragraphs[i].child("pPr").is_some() },
        Ghost(|i: int| props_of(ps[i]) is Some),
    );
    assert(ints(which@).len() == which@.len());
    let list: Vec<ParagraphRow> = each(
        &which,
        cut(which.len(), limit),
        |at: usize, i: &usize| -> (r: ParagraphRow)
            requires
                *i < n
            ensures
                r.describes(ps, *i as int)
            { read_paragraph(paragraphs, *i) },
    );
    assert forall|i: int| 0 <= i < list@.len() implies (#[trigger] list@[i]).describes(
        ps,
        listed(ps)[i],
    ) by {
        assert(ints(which@)[i] == which@[i] as int);
    }
    ParagraphReport {
        checked: n,
        listed: which.len(),
        with_alignment: count_having(paragraphs, "jc"),
        with_indent: count_having(paragraphs, "ind"),
        with_spacing: count_having(paragraphs, "spacing"),
        list,
    }
}

/// One section.
#[derive(Debug, Clone)]
pub struct SectionRow {
    pub at: usize,
    pub written: Option<Vec<(String, String)>>,
    pub count: Option<String>,
    pub space: Option<String>,
    pub parts: Vec<Vec<(String, String)>>,
}

/// The columns that are written one by one.
pub open spec fn columns_in(cols: Option<Node>) -> Seq<Node> {
    match cols {
        Some(n) => n.all_of("column"@),
        None => Seq::empty(),
    }
}

impl SectionRow {
    pub open spec fn describes(self, sect: Node, at: int) -> bool {
        let cols = sect.child_of("cols"@);
        &&& self.at == at
        &&& table_in(self.written) == table_if(cols)
        &&& text_in(self.count) == said_by(cols, "num"@)
        &&& text_in(self.space) == said_by(cols, "space"@)
        &&& self.parts@.len() == columns_in(cols).len()
        &&& forall|i: int|
            0 <= i < self.parts@.len() ==> pair_texts((#[trigger] self.parts@[i])@) == table_of(
                columns_in(cols)[i],
            )
    }
}

fn read_section(sect: &Node, at: usize) -> (r: SectionRow)
    ensures
        r.describes(*sect, at as int),
{
    let cols: Option<&Node> = sect.child("cols");
    let kids: Vec<&Node> = match cols {
        Some(n) => n.all("column"),
        None => Vec::new(),
    };
    assert(nodes(kids@) =~= columns_in(node_in(cols)));
    let parts: Vec<Vec<(String, String)>> = each(
        &kids,
        kids.len(),
        |i: usize, n: &&Node| -> (r: Vec<(String, String)>)
            ensures
                pair_texts(r@) == table_of(**n)
            { attr_map(n) },
    );
    assert forall|i: int| 0 <= i < parts@.len() implies pair_texts((#[trigger] parts@[i])@)
        == table_of(columns_in(node_in(cols))[i]) by {
        assert(nodes(kids@)[i] == *kids@[i]);
    }
    assert(nodes(kids@).len() == kids@.len());
    SectionRow {
        at,
        written: map_if(cols),
        count: ask(cols, "num"),
        space: ask(cols, "space"),
        parts,
    }
}

/// More than one column is asked for.
pub open spec fn is_multi(sect: Node) -> bool {
    match said_by(sect.child_of("cols"@), "num"@) {
        Some(raw) => match unsigned_value(raw, usize::MAX as int) {
            Some(n) => n > 1,
            None => false,
        },
        None => false,
    }
}

/// What sections say about their columns. The counts are over all sections.
#[derive(Debug, Clone)]
pub struct SectionReport {
    pub sections: usize,
    pub written: usize,
    pub multi: usize,
    pub list: Vec<SectionRow>,
}

impl SectionReport {
    pub open spec fn describes(self, body: Node, limit: usize) -> bool {
        let s = body.below("sectPr"@);
        &&& self.sections == s.len()
        &&& self.written == s.filter(|n: Node| n.child_of("cols"@) is Some).len()
        &&& self.multi == s.filter(|n: Node| is_multi(n)).len()
        &&& self.list@.len() == at_most(s.len(), limit)
        &&& forall|i: int|
            0 <= i < self.list@.len() ==> (#[trigger] self.list@[i]).describes(s[i], i)
    }
}

/// What sections say about their columns. At most `limit` of them are listed.
pub fn docx_columns(body: &Node, limit: usize) -> (r: SectionReport)
    ensures
        r.describes(*body, limit),
{
    let all: Vec<&Node> = body.descendants("sectPr");
    let ghost s = nodes(all@);
    assert(s.len() == all@.len());
    let written: usize = count_nodes(
        &all,
        |t: &Node| -> (b: bool)
            ensures
                b == (t.child_of("cols"@) is Some)
            { t.child("cols").is_some() },
        Ghost(|n: Node| n.child_of("cols"@) is Some),
    );
    let multi: usize = count_nodes(
        &all,
        |t: &Node| -> (b: bool)
            ensures
                b == is_multi(*t)
            {
                match ask(t.child("cols"), "num") {
                    Some(raw) => match parse_unsigned(raw.as_str(), usize::MAX as u64) {
                        Some(n) => n > 1,
                        None => false,
                    },
                    None => false,
                }
            },
        Ghost(|n: Node| is_multi(n)),
    );
    let list: Vec<SectionRow> = each(
        &all,
        cut(all.len(), limit),
        |at: usize, t: &&Node| -> (r: SectionRow)
            ensures
                r.describes(**t, at as int)
            { read_section(t, at) },
    );
    assert forall|i: int| 0 <= i < list@.len() implies (#[trigger] list@[i]).describes(s[i], i) by {
        assert(s[i] == *all@[i]);
    }
    SectionReport { sections: all.len(), written, multi, list }
}

/// What is told of a paragraph stands in its own properties: its style, its alignment, its indent
/// and its spacing, and the names of all that it writes there.
pub proof fn law_what_a_paragraph_says(r: ParagraphRow, ps: Seq<Node>, i: int, props: Node)
    requires
        r.describes(ps, i),
        ps[i].child_of("pPr"@) == Some(props),
    ensures
        r.index == i,
        props.child_of("pStyle"@) is None ==> r.style is None,
        props.child_of("pStyle"@) matches Some(n) ==> text_in(r.style) == n.attr_text("val"@),
        props.child_of("jc"@) is None ==> r.alignment is None,
        props.child_of("jc"@) matches Some(n) ==> text_in(r.alignment) == n.attr_text("val"@),
        props.child_of("ind"@) is None ==> r.indent is None && !r.chars_written,
        props.child_of("ind"@) matches Some(n) ==> table_in(r.indent) == Some(table_of(n)),
        props.child_of("spacing"@) is None ==> r.spacing is None,
        props.child_of("spacing"@) matches Some(n) ==> table_in(r.spacing) == Some(table_of(n)),
        texts(r.elements@) == local_names(props.children@),
        props.child_of("ind"@) matches Some(n) ==> (r.chars_written <==> exists|k: int|
            0 <= k < n.attrs@.len() && finishes(local_part((#[trigger] n.attrs@[k]).0@), "Chars"@)),
{
}

/// The paragraphs with properties of their own are listed in their order, and those with an
/// alignment, an indent and a spacing are counted over all.
pub proof fn law_which_paragraphs_are_listed(r: ParagraphReport, ps: Seq<Node>, limit: usize, i: int)
    requires
        r.describes(ps, limit),
    ensures
        r.checked == ps.len(),
        r.listed == ps.filter(|p: Node| p.child_of("pPr"@) is Some).len(),
        r.with_alignment == ps.filter(
            |p: Node| p.child_of("pPr"@) matches Some(x) && x.child_of("jc"@) is Some,
        ).len(),
        r.with_indent == ps.filter(
            |p: Node| p.child_of("pPr"@) matches Some(x) && x.child_of("ind"@) is Some,
        ).len(),
        r.with_spacing == ps.filter(
            |p: Node| p.child_of("pPr"@) matches Some(x) && x.child_of("spacing"@) is Some,
        ).len(),
        r.list@.len() <= limit,
        r.list@.len() < r.listed ==> r.list@.len() == limit,
        0 <= i < r.list@.len() ==> r.list@[i].index < ps.len() && ps[r.list@[i].index as int].child_of(
            "pPr"@,
        ) is Some,
        0 < i < r.list@.len() ==> r.list@[i - 1].index < r.list@[i].index,
{
    let q = |i: int| props_of(ps[i]) is Some;
    crate::lists::law_those_are_all_that_satisfy(q, ps.len() as int);
    crate::lists::law_a_tally_is_how_many_pass(ps, q, |p: Node| p.child_of("pPr"@) is Some);
    crate::lists::law_a_tally_is_how_many_pass(
        ps,
        |i: int| step(props_of(ps[i]), "jc"@) is Some,
        |p: Node| p.child_of("pPr"@) matches Some(x) && x.child_of("jc"@) is Some,
    );
    crate::lists::law_a_tally_is_how_many_pass(
        ps,
        |i: int| step(props_of(ps[i]), "ind"@) is Some,
        |p: Node| p.child_of("pPr"@) matches Some(x) && x.child_of("ind"@) is Some,
    );
    crate::lists::law_a_tally_is_how_many_pass(
        ps,
        |i: int| step(props_of(ps[i]), "spacing"@) is Some,
        |p: Node| p.child_of("pPr"@) matches Some(x) && x.child_of("spacing"@) is Some,
    );
    if 0 <= i < r.list@.len() {
        assert(r.list@[i].describes(ps, listed(ps)[i]));
        assert(q(those(q, ps.len() as int)[i]));
        if i > 0 {
            assert(r.list@[i - 1].describes(ps, listed(ps)[i - 1]));
        }
    }
}

/// What is told of a section stands in its columns element: how many, how far apart, and each one
/// that is written by itself.
pub proof fn law_what_a_section_says(r: SectionRow, sect: Node, at: int, cols: Node)
    requires
        r.describes(sect, at),
        sect.child_of("cols"@) == Some(cols),
    ensures
        r.at == at,
        table_in(r.written) == Some(table_of(cols)),
        text_in(r.count) == cols.attr_text("num"@),
        text_in(r.space) == cols.attr_text("space"@),
        r.parts@.len() == cols.all_of("column"@).len(),
        forall|i: int|
            0 <= i < r.parts@.len() ==> pair_texts((#[trigger] r.parts@[i])@) == table_of(
                cols.all_of("column"@)[i],
            ),
{
}

/// A section has several columns where it says a number greater than one.
pub proof fn law_which_sections_have_columns(r: SectionReport, body: Node, limit: usize)
    requires
        r.describes(body, limit),
    ensures
        r.sections == body.below("sectPr"@).len(),
        r.written == body.below("sectPr"@).filter(|n: Node| n.child_of("cols"@) is Some).len(),
        r.multi == body.below("sectPr"@).filter(
            |n: Node|
                n.child_of("cols"@) matches Some(c) && c.attr_text("num"@) matches Some(raw)
                    && unsigned_value(raw, usize::MAX as int) matches Some(k) && k >= 2,
        ).len(),
{
    let a = |n: Node| is_multi(n);
    let b = |n: Node|
        n.child_of("cols"@) matches Some(c) && c.attr_text("num"@) matches Some(raw)
            && unsigned_value(raw, usize::MAX as int) matches Some(k) && k >= 2;
    assert(a =~= b);
}

} // verus!
