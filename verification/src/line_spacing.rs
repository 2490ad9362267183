//! How far apart the lines of paragraphs stand.
//!
//! A WordprocessingML document writes a number whose unit another attribute decides, so both are
//! handed on. An OpenDocument text writes the unit behind the number, on the style.

use crate::document::{count_names, counts_names};
use crate::keep_switches::{
    ask_style, count_styles, is_paragraph_style, read_words, style_says, words_of,
};
use crate::lists::{at_most, count_those, cut, each, tally};
use crate::odf::{all_held, everywhere, look_everywhere, Found, Held};
use crate::text::chars_of;
use crate::written::{ask, go, node_in, option_texts, owned, said_by, step, text_in};
use crate::xml::{nodes, Node};
use vstd::prelude::*;

verus! {

broadcast use crate::xml::lemma_nodes_push;

/// What a paragraph says about its spacing.
pub open spec fn spacing_of(p: Node) -> Option<Node> {
    step(p.child_of("pPr"@), "spacing"@)
}

fn find_spacing<'a>(p: &'a Node) -> (r: Option<&'a Node>)
    ensures
        node_in(r) == spacing_of(*p),
{
    go(p.child("pPr"), "spacing")
}

/// What a paragraph says under a name of its spacing.
pub open spec fn spacing_says(p: Node, name: Seq<char>) -> Option<Seq<char>> {
    said_by(spacing_of(p), name)
}

/// One paragraph.
#[derive(Debug, Clone)]
pub struct LineRow {
    pub index: usize,
    pub has_props: bool,
    pub has_spacing: bool,
    pub line_written: Option<String>,
    pub rule_written: Option<String>,
}

impl LineRow {
    pub open spec fn describes(self, p: Node, i: int) -> bool {
        &&& self.index == i
        &&& self.has_props == (p.child_of("pPr"@) is Some)
        &&& self.has_spacing == (spacing_of(p) is Some)
        &&& text_in(self.line_written) == spacing_says(p, "line"@)
        &&& text_in(self.rule_written) == spacing_says(p, "lineRule"@)
    }
}

fn read_row(p: &Node, i: usize) -> (r: LineRow)
    ensures
        r.describes(*p, i as int),
{
    let spacing: Option<&Node> = find_spacing(p);
    LineRow {
        index: i,
        has_props: p.child("pPr").is_some(),
        has_spacing: spacing.is_some(),
        line_written: ask(spacing, "line"),
        rule_written: ask(spacing, "lineRule"),
    }
}

/// What each paragraph says about the unit.
pub open spec fn rules_of(ps: Seq<Node>) -> Seq<Option<Seq<char>>> {
    Seq::new(ps.len(), |i: int| spacing_says(ps[i], "lineRule"@))
}

/// The spacings of a document.
#[derive(Debug, Clone)]
pub struct LineReport {
    pub paragraphs_total: usize,
    pub with_line_written: usize,
    pub with_rule_written: usize,
    pub with_both: usize,
    pub rules_written: Vec<(String, usize)>,
    pub paragraphs: Vec<LineRow>,
}

impl LineReport {
    pub open spec fn describes(self, body: Node, limit: usize) -> bool {
        let ps = body.below("p"@);
        let n = ps.len() as int;
        &&& self.paragraphs_total == n
        &&& self.with_line_written == tally(|i: int| spacing_says(ps[i], "line"@) is Some, n)
        &&& self.with_rule_written == tally(|i: int| spacing_says(ps[i], "lineRule"@) is Some, n)
        &&& self.with_both == tally(
            |i: int|
                spacing_says(ps[i], "line"@) is Some && spacing_says(ps[i], "lineRule"@) is Some,
            n,
        )
        &&& counts_names(self.rules_written@, rules_of(ps))
        &&& self.paragraphs@.len() == at_most(ps.len(), limit)
        &&& forall|i: int|
            0 <= i < self.paragraphs@.len() ==> (#[trigger] self.paragraphs@[i]).describes(
                ps[i],
                i,
            )
    }
}

/// The spacings of a document. The list is cut to `limit`.
pub fn docx(body: &Node, limit: usize) -> (r: LineReport)
    ensures
        r.describes(*body, limit),
{
    let found: Vec<&Node> = body.descendants("p");
    let ghost ps = nodes(found@);
    let n: usize = found.len();
    assert(ps.len() == n);
    let with_line_written: usize = count_those(
        n,
        |i: usize| -> (b: bool)
            requires
                i < found@.len()
            ensures
                b == (spacing_says(ps[i as int], "line"@) is Some)
            { ask(find_spacing(found[i]), "line").is_some() },
        Ghost(|i: int| spacing_says(ps[i], "line"@) is Some),
    );
    let with_rule_written: usize = count_those(
        n,
        |i: usize| -> (b: bool)
            requires
                i < found@.len()
            ensures
                b == (spacing_says(ps[i as int], "lineRule"@) is Some)
            { ask(find_spacing(found[i]), "lineRule").is_some() },
        Ghost(|i: int| spacing_says(ps[i], "lineRule"@) is Some),
    );
    let with_both: usize = count_those(
        n,
        |i: usize| -> (b: bool)
            requires
                i < found@.len()
            ensures
                b == (spacing_says(ps[i as int], "line"@) is Some && spacing_says(
                    ps[i as int],
                    "lineRule"@,
                ) is Some)
            {
                let s: Option<&Node> = find_spacing(found[i]);
                ask(s, "line").is_some() && ask(s, "lineRule").is_some()
            },
        Ghost(
            |i: int|
                spacing_says(ps[i], "line"@) is Some && spacing_says(ps[i], "lineRule"@) is Some,
        ),
    );
    let rules: Vec<Option<String>> = each(
        &found,
        n,
        |i: usize, p: &&Node| -> (r: Option<String>)
            ensures
                text_in(r) == spacing_says(**p, "lineRule"@)
            { ask(find_spacing(p), "lineRule") },
    );
    assert(option_texts(rules@) =~= rules_of(ps));
    let paragraphs: Vec<LineRow> = each(
        &found,
        cut(n, limit),
        |i: usize, p: &&Node| -> (r: LineRow)
            ensures
                r.describes(**p, i as int)
            { read_row(p, i) },
    );
    assert forall|i: int| 0 <= i < paragraphs@.len() implies (#[trigger] paragraphs@[i]).describes(
        ps[i],
        i,
    ) by {
        assert(ps[i] == *found@[i]);
    }
    LineReport {
        paragraphs_total: n,
        with_line_written,
        with_rule_written,
        with_both,
        rules_written: count_names(&rules),
        paragraphs,
    }
}

/// A character of a number.
pub open spec fn of_number(c: char) -> bool {
    '0' <= c <= '9' || c == '.' || c == '-'
}

/// What stands behind the number at the start of a text.
pub open spec fn unit_from(s: Seq<char>, i: int) -> Seq<char>
    decreases s.len() - i,
{
    if 0 <= i < s.len() && of_number(s[i]) {
        unit_from(s, i + 1)
    } else {
        s.skip(i)
    }
}

/// The unit of a height: what stands behind the number, or a word for nothing.
pub open spec fn unit_of(s: Seq<char>) -> Seq<char> {
    if unit_from(s, 0).len() == 0 {
        "无单位"@
    } else {
        unit_from(s, 0)
    }
}

fn read_unit(raw: &str) -> (r: String)
    ensures
        r@ == unit_of(raw@),
{
    let c: Vec<char> = chars_of(raw);
    let size: usize = c.len();
    let mut i: usize = 0;
    while i < size && (('0' <= c[i] && c[i] <= '9') || c[i] == '.' || c[i] == '-')
        invariant
            i <= size,
            size == c@.len(),
            c@ == raw@,
            unit_from(c@, 0) == unit_from(c@, i as int),
        decreases size - i,
    {
        i += 1;
    }
    if i == size {
        assert(c@.skip(i as int).len() == 0);
        "无单位".to_owned()
    } else {
        let tail: &str = raw.substring_char(i, size);
        assert(tail@ =~= c@.skip(i as int));
        tail.to_owned()
    }
}

/// A unit for each text.
pub open spec fn units_of(s: Seq<Option<Seq<char>>>) -> Seq<Option<Seq<char>>> {
    Seq::new(
        s.len(),
        |i: int|
            match s[i] {
                Some(t) => Some(unit_of(t)),
                None => None,
            },
    )
}

/// One paragraph of a text.
#[derive(Debug, Clone)]
pub struct HeightRow {
    pub index: usize,
    pub style_written: Option<String>,
    pub line_height_written: Option<String>,
    pub line_height_style: Option<String>,
    pub line_height_inherit: Option<String>,
    pub line_break: Option<String>,
}

impl HeightRow {
    pub open spec fn describes(self, p: Node, i: int, s: Seq<Held>) -> bool {
        &&& self.index == i
        &&& text_in(self.style_written) == p.attr_text("style-name"@)
        &&& text_in(self.line_height_written) == style_says(p, s, "line-height"@)
        &&& text_in(self.line_height_style) == style_says(p, s, "line-height-style"@)
        &&& text_in(self.line_height_inherit) == style_says(p, s, "line-height-inherit"@)
        &&& text_in(self.line_break) == style_says(p, s, "line-break"@)
    }
}

fn read_height(p: &Node, i: usize, s: &Vec<Found>) -> (r: HeightRow)
    ensures
        r.describes(*p, i as int, all_held(s@)),
{
    HeightRow {
        index: i,
        style_written: owned(p.attr_local("style-name")),
        line_height_written: ask_style(p, s, "line-height"),
        line_height_style: ask_style(p, s, "line-height-style"),
        line_height_inherit: ask_style(p, s, "line-height-inherit"),
        line_break: ask_style(p, s, "line-break"),
    }
}

/// The line heights of a text.
#[derive(Debug, Clone)]
pub struct HeightReport {
    pub paragraphs_total: usize,
    pub with_line_height: usize,
    pub styles_total: usize,
    pub unit_forms: Vec<(String, usize)>,
    pub paragraphs: Vec<HeightRow>,
}

impl HeightReport {
    pub open spec fn describes(self, content: Node, styles: Option<Node>, limit: usize) -> bool {
        let ps = content.below("p"@);
        let s = everywhere(content, styles, "style"@);
        let n = ps.len() as int;
        &&& self.paragraphs_total == n
        &&& self.with_line_height == tally(
            |i: int| style_says(ps[i], s, "line-height"@) is Some,
            n,
        )
        &&& self.styles_total == tally(|i: int| is_paragraph_style(s[i].node), s.len() as int)
        &&& counts_names(self.unit_forms@, units_of(words_of(ps, s, "line-height"@)))
        &&& self.paragraphs@.len() == at_most(ps.len(), limit)
        &&& forall|i: int|
            0 <= i < self.paragraphs@.len() ==> (#[trigger] self.paragraphs@[i]).describes(
                ps[i],
                i,
                s,
            )
    }
}

/// The line heights of a text. The list is cut to `limit`.
pub fn odf(content: &Node, styles: Option<&Node>, limit: usize) -> (r: HeightReport)
    ensures
        r.describes(*content, node_in(styles), limit),
{
    let all: Vec<Found> = look_everywhere(content, styles, "style");
    let ghost s = all_held(all@);
    assert(s.len() == all@.len());
    let found: Vec<&Node> = content.descendants("p");
    let ghost ps = nodes(found@);
    let n: usize = found.len();
    assert(ps.len() == n);
    let with_line_height: usize = count_those(
        n,
        |i: usize| -> (b: bool)
            requires
                i < found@.len()
            ensures
                b == (style_says(ps[i as int], s, "line-height"@) is Some)
            { ask_style(found[i], &all, "line-height").is_some() },
        Ghost(|i: int| style_says(ps[i], s, "line-height"@) is Some),
    );
    let heights: Vec<Option<String>> = read_words(&found, &all, "line-height");
    let units: Vec<Option<String>> = each(
        &heights,
        heights.len(),
        |i: usize, h: &Option<String>| -> (r: Option<String>)
            ensures
                text_in(r) == match text_in(*h) {
                    Some(t) => Some(unit_of(t)),
                    None => None,
                }
            {
                match h {
                    Some(t) => Some(read_unit(t.as_str())),
                    None => None,
                }
            },
    );
    assert(option_texts(units@) =~= units_of(option_texts(heights@)));
    let paragraphs: Vec<HeightRow> = each(
        &found,
        cut(n, limit),
        |i: usize, p: &&Node| -> (r: HeightRow)
            ensures
                r.describes(**p, i as int, s)
            { read_height(p, i, &all) },
    );
    assert forall|i: int| 0 <= i < paragraphs@.len() implies (#[trigger] paragraphs@[i]).describes(
        ps[i],
        i,
        s,
    ) by {
        assert(ps[i] == *found@[i]);
    }
    HeightReport {
        paragraphs_total: n,
        with_line_height,
        styles_total: count_styles(&all),
        unit_forms: count_names(&units),
        paragraphs,
    }
}

/// What a paragraph says of its lines stands in the spacing of its own properties: the number and
/// the rule by which it is read.
pub proof fn law_what_a_paragraph_says_of_its_lines(r: LineRow, p: Node, i: int, props: Node)
    requires
        r.describes(p, i),
        p.child_of("pPr"@) == Some(props),
    ensures
        r.index == i,
        r.has_props,
        r.has_spacing <==> props.child_of("spacing"@) is Some,
        props.child_of("spacing"@) is None ==> r.line_written is None && r.rule_written is None,
        props.child_of("spacing"@) matches Some(s) ==> text_in(r.line_written) == s.attr_text(
            "line"@,
        ) && text_in(r.rule_written) == s.attr_text("lineRule"@),
{
}

/// A paragraph without properties says nothing of its lines.
pub proof fn law_a_paragraph_without_properties(r: LineRow, p: Node, i: int)
    requires
        r.describes(p, i),
        p.child_of("pPr"@) is None,
    ensures
        !r.has_props && !r.has_spacing,
        r.line_written is None && r.rule_written is None,
{
}

/// Each number of the report is how many paragraphs say so.
pub proof fn law_what_lines_are_counted_for(r: LineReport, body: Node, limit: usize, ps: Seq<Node>)
    requires
        r.describes(body, limit),
        ps == body.below("p"@),
    ensures
        r.paragraphs_total == ps.len(),
        r.with_line_written == ps.filter(|p: Node| spacing_says(p, "line"@) is Some).len(),
        r.with_rule_written == ps.filter(|p: Node| spacing_says(p, "lineRule"@) is Some).len(),
        r.with_both == ps.filter(
            |p: Node|
                spacing_says(p, "line"@) is Some && spacing_says(p, "lineRule"@) is Some,
        ).len(),
        counts_names(
            r.rules_written@,
            Seq::new(ps.len(), |i: int| spacing_says(ps[i], "lineRule"@)),
        ),
        r.paragraphs@.len() == limit || r.paragraphs@.len() == ps.len(),
{
    crate::lists::law_a_tally_is_how_many_pass(
        ps,
        |i: int| spacing_says(ps[i], "line"@) is Some,
        |p: Node| spacing_says(p, "line"@) is Some,
    );
    crate::lists::law_a_tally_is_how_many_pass(
        ps,
        |i: int| spacing_says(ps[i], "lineRule"@) is Some,
        |p: Node| spacing_says(p, "lineRule"@) is Some,
    );
    crate::lists::law_a_tally_is_how_many_pass(
        ps,
        |i: int| spacing_says(ps[i], "line"@) is Some && spacing_says(ps[i], "lineRule"@) is Some,
        |p: Node| spacing_says(p, "line"@) is Some && spacing_says(p, "lineRule"@) is Some,
    );
}

/// The unit of a height is what stands behind its digits, points and signs.
pub proof fn law_what_unit_a_height_has(number: Seq<char>, unit: Seq<char>)
    requires
        forall|i: int|
            0 <= i < number.len() ==> '0' <= #[trigger] number[i] <= '9' || number[i] == '.'
                || number[i] == '-',
        unit.len() > 0,
        !('0' <= unit[0] <= '9') && unit[0] != '.' && unit[0] != '-',
    ensures
        unit_of(number + unit) == unit,
        unit_of(number) == "无单位"@,
{
    let s = number + unit;
    assert forall|i: int| 0 <= i < number.len() implies of_number(#[trigger] s[i]) by {
        assert(s[i] == number[i]);
    }
    assert(s[number.len() as int] == unit[0]);
    lemma_unit_at(s, 0, number.len() as int);
    assert(s.skip(number.len() as int) =~= unit);
    assert forall|i: int| 0 <= i < number.len() implies of_number(#[trigger] number[i]) by {}
    lemma_unit_at(number, 0, number.len() as int);
}

proof fn lemma_unit_at(s: Seq<char>, i: int, at: int)
    requires
        0 <= i <= at <= s.len(),
        forall|k: int| i <= k < at ==> of_number(#[trigger] s[k]),
        at < s.len() ==> !of_number(s[at]),
    ensures
        unit_from(s, i) == s.skip(at),
    decreases at - i,
{
    if i < at {
        lemma_unit_at(s, i + 1, at);
    }
}

/// What is told of a paragraph of a text: the style it names, and what that style says of lines
/// under four names.
pub proof fn law_what_a_style_says_of_lines(r: HeightRow, p: Node, i: int, s: Seq<Held>)
    requires
        r.describes(p, i, s),
    ensures
        r.index == i,
        text_in(r.style_written) == p.attr_text("style-name"@),
        text_in(r.line_height_written) == style_says(p, s, "line-height"@),
        text_in(r.line_height_style) == style_says(p, s, "line-height-style"@),
        text_in(r.line_height_inherit) == style_says(p, s, "line-height-inherit"@),
        text_in(r.line_break) == style_says(p, s, "line-break"@),
{
}

/// Each number of the report on a text is how many paragraphs or styles are so.
pub proof fn law_what_heights_are_counted_for(
    r: HeightReport,
    content: Node,
    styles: Option<Node>,
    limit: usize,
    ps: Seq<Node>,
    s: Seq<Held>,
)
    requires
        r.describes(content, styles, limit),
        ps == content.below("p"@),
        s == everywhere(content, styles, "style"@),
    ensures
        r.paragraphs_total == ps.len(),
        r.with_line_height == ps.filter(|p: Node| style_says(p, s, "line-height"@) is Some).len(),
        r.styles_total == s.filter(
            |h: Held|
                h.node.attr_text("family"@) == Some("paragraph"@) && h.node.attr_text("name"@)
                    is Some,
        ).len(),
        counts_names(r.unit_forms@, units_of(words_of(ps, s, "line-height"@))),
{
    crate::lists::law_a_tally_is_how_many_pass(
        ps,
        |i: int| style_says(ps[i], s, "line-height"@) is Some,
        |p: Node| style_says(p, s, "line-height"@) is Some,
    );
    crate::lists::law_a_tally_is_how_many_pass(
        s,
        |i: int| is_paragraph_style(s[i].node),
        |h: Held|
            h.node.attr_text("family"@) == Some("paragraph"@) && h.node.attr_text("name"@) is Some,
    );
}

} // verus!
