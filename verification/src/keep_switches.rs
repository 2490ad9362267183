//! How paragraphs hold together over the end of a page.
//!
//! A WordprocessingML document writes four switches on the paragraph: an element that is there
//! without a value is on. An OpenDocument text writes five words on the style of the paragraph,
//! and two of them are numbers.

use crate::document::{count_names, counts_names};
use crate::lists::{at_most, count_those, cut, each, ints, pick_those, tally, those};
use crate::odf::{
    all_held, called, everywhere, find_called, held_in, look_everywhere, under, Found, Held,
};
use crate::text::same;
use crate::written::{
    ask, go, node_in, option_texts, owned, said_by, step, text_in,
};
use crate::xml::{nodes, Node};
use vstd::prelude::*;

verus! {

broadcast use crate::xml::lemma_nodes_push;

/// The switches of a paragraph.
#[derive(Debug, Clone, Copy, PartialEq, Eq, Structural)]
pub enum Keep {
    Next,
    Lines,
    PageBreak,
    Widow,
}

impl Keep {
    pub open spec fn element(self) -> Seq<char> {
        match self {
            Keep::Next => "keepNext"@,
            Keep::Lines => "keepLines"@,
            Keep::PageBreak => "pageBreakBefore"@,
            Keep::Widow => "widowControl"@,
        }
    }

    fn name(self) -> (r: &'static str)
        ensures
            r@ == self.element(),
    {
        match self {
            Keep::Next => "keepNext",
            Keep::Lines => "keepLines",
            Keep::PageBreak => "pageBreakBefore",
            Keep::Widow => "widowControl",
        }
    }
}

/// The element of a switch on a paragraph.
pub open spec fn switch_on(p: Node, k: Keep) -> Option<Node> {
    step(p.child_of("pPr"@), k.element())
}

fn find_switch<'a>(p: &'a Node, k: Keep) -> (r: Option<&'a Node>)
    ensures
        node_in(r) == switch_on(*p, k),
{
    go(p.child("pPr"), k.name())
}

/// A word that turns a switch off.
pub open spec fn turns_off(val: Option<Seq<char>>) -> bool {
    val == Some("0"@) || val == Some("false"@) || val == Some("off"@) || val == Some("none"@)
}

/// A switch: whether its element is there, and what it says.
#[derive(Debug, Clone)]
pub struct SwitchState {
    pub present: bool,
    pub val: Option<String>,
    pub on_written: bool,
    pub off_written: bool,
}

impl SwitchState {
    pub open spec fn describes(self, n: Option<Node>) -> bool {
        let val = said_by(n, "val"@);
        &&& self.present == (n is Some)
        &&& text_in(self.val) == val
        &&& self.on_written == (n is Some && !turns_off(val))
        &&& self.off_written == (n is Some && turns_off(val))
    }
}

/// A switch that is there is on or off, and one that is not there is neither.
pub proof fn law_a_switch_stands_one_way(s: SwitchState, n: Option<Node>)
    requires
        s.describes(n),
    ensures
        s.present == (s.on_written || s.off_written),
        !(s.on_written && s.off_written),
{
}

fn read_switch(n: Option<&Node>) -> (r: SwitchState)
    ensures
        r.describes(node_in(n)),
{
    let val: Option<String> = ask(n, "val");
    let off: bool = match &val {
        Some(t) => same(t.as_str(), "0") || same(t.as_str(), "false") || same(t.as_str(), "off")
            || same(t.as_str(), "none"),
        None => false,
    };
    SwitchState {
        present: n.is_some(),
        val,
        on_written: n.is_some() && !off,
        off_written: n.is_some() && off,
    }
}

/// One paragraph.
#[derive(Debug, Clone)]
pub struct KeepRow {
    pub index: usize,
    pub has_props: bool,
    pub keep_next: SwitchState,
    pub keep_lines: SwitchState,
    pub page_break_before: SwitchState,
    pub widow_control: SwitchState,
}

impl KeepRow {
    pub open spec fn describes(self, p: Node, i: int) -> bool {
        &&& self.index == i
        &&& self.has_props == (p.child_of("pPr"@) is Some)
        &&& self.keep_next.describes(switch_on(p, Keep::Next))
        &&& self.keep_lines.describes(switch_on(p, Keep::Lines))
        &&& self.page_break_before.describes(switch_on(p, Keep::PageBreak))
        &&& self.widow_control.describes(switch_on(p, Keep::Widow))
    }
}

fn read_row(p: &Node, i: usize) -> (r: KeepRow)
    ensures
        r.describes(*p, i as int),
{
    KeepRow {
        index: i,
        has_props: p.child("pPr").is_some(),
        keep_next: read_switch(find_switch(p, Keep::Next)),
        keep_lines: read_switch(find_switch(p, Keep::Lines)),
        page_break_before: read_switch(find_switch(p, Keep::PageBreak)),
        widow_control: read_switch(find_switch(p, Keep::Widow)),
    }
}

/// A switch is written on the paragraph.
pub open spec fn has_any(p: Node) -> bool {
    switch_on(p, Keep::Next) is Some || switch_on(p, Keep::Lines) is Some || switch_on(
        p,
        Keep::PageBreak,
    ) is Some || switch_on(p, Keep::Widow) is Some
}

fn finds_any(p: &Node) -> (r: bool)
    ensures
        r == has_any(*p),
{
    find_switch(p, Keep::Next).is_some() || find_switch(p, Keep::Lines).is_some() || find_switch(
        p,
        Keep::PageBreak,
    ).is_some() || find_switch(p, Keep::Widow).is_some()
}

/// How many paragraphs write a switch with a value, or without one.
pub open spec fn written(ps: Seq<Node>, k: Keep, valued: bool) -> nat {
    tally(
        |i: int|
            switch_on(ps[i], k) is Some && (said_by(switch_on(ps[i], k), "val"@) is Some) == valued,
        ps.len() as int,
    )
}

fn count_written(ps: &Vec<&Node>, k: Keep, valued: bool) -> (r: usize)
    ensures
        r == written(nodes(ps@), k, valued),
{
    let ghost s = nodes(ps@);
    count_those(
        ps.len(),
        |i: usize| -> (b: bool)
            requires
                i < ps@.len()
            ensures
                b == (switch_on(s[i as int], k) is Some && (said_by(
                    switch_on(s[i as int], k),
                    "val"@,
                ) is Some) == valued)
            {
                let n: Option<&Node> = find_switch(ps[i], k);
                n.is_some() && ask(n, "val").is_some() == valued
            },
        Ghost(
            |i: int|
                switch_on(s[i], k) is Some && (said_by(switch_on(s[i], k), "val"@) is Some)
                    == valued,
        ),
    )
}

/// How often a switch is written without a value and with one.
#[derive(Debug, Clone, Copy)]
pub struct States {
    pub bare: usize,
    pub with_value: usize,
}

impl States {
    pub open spec fn describes(self, ps: Seq<Node>, k: Keep) -> bool {
        self.bare == written(ps, k, false) && self.with_value == written(ps, k, true)
    }
}

fn read_states(ps: &Vec<&Node>, k: Keep) -> (r: States)
    ensures
        r.describes(nodes(ps@), k),
{
    States { bare: count_written(ps, k, false), with_value: count_written(ps, k, true) }
}

/// The switches of a document.
#[derive(Debug, Clone)]
pub struct KeepReport {
    pub paragraphs_total: usize,
    pub props_elements: usize,
    /// The paragraphs that write a switch.
    pub paragraphs_indexed: Vec<usize>,
    pub keep_next: States,
    pub keep_lines: States,
    pub page_break_before: States,
    pub widow_control: States,
    pub paragraphs: Vec<KeepRow>,
}

impl KeepReport {
    pub open spec fn describes(self, body: Node, limit: usize) -> bool {
        let ps = body.below("p"@);
        let n = ps.len() as int;
        &&& self.paragraphs_total == n
        &&& self.props_elements == tally(|i: int| ps[i].child_of("pPr"@) is Some, n)
        &&& ints(self.paragraphs_indexed@) == those(|i: int| has_any(ps[i]), n)
        &&& self.keep_next.describes(ps, Keep::Next)
        &&& self.keep_lines.describes(ps, Keep::Lines)
        &&& self.page_break_before.describes(ps, Keep::PageBreak)
        &&& self.widow_control.describes(ps, Keep::Widow)
        &&& self.paragraphs@.len() == at_most(ps.len(), limit)
        &&& forall|i: int|
            0 <= i < self.paragraphs@.len() ==> (#[trigger] self.paragraphs@[i]).describes(
                ps[i],
                i,
            )
    }
}

/// The switches of a document. The list is cut to `limit`.
pub fn docx(body: &Node, limit: usize) -> (r: KeepReport)
    ensures
        r.describes(*body, limit),
{
    let found: Vec<&Node> = body.descendants("p");
    let ghost ps = nodes(found@);
    let n: usize = found.len();
    assert(ps.len() == n);
    let props_elements: usize = count_those(
        n,
        |i: usize| -> (b: bool)
            requires
                i < found@.len()
            ensures
                b == (ps[i as int].child_of("pPr"@) is Some)
            { found[i].child("pPr").is_some() },
        Ghost(|i: int| ps[i].child_of("pPr"@) is Some),
    );
    let paragraphs_indexed: Vec<usize> = pick_those(
        n,
        |i: usize| -> (b: bool)
            requires
                i < found@.len()
            ensures
                b == has_any(ps[i as int])
            { finds_any(found[i]) },
        Ghost(|i: int| has_any(ps[i])),
    );
    let paragraphs: Vec<KeepRow> = each(
        &found,
        cut(n, limit),
        |i: usize, p: &&Node| -> (r: KeepRow)
            ensures
                r.describes(**p, i as int)
            { read_row(p, i) },
    );
    assert forall|i: int| 0 <= i < paragraphs@.len() implies (#[trigger] paragraphs@[i]).describes(
        ps[i],
        i,
    ) by {
        assert(ps[i] == *found@[i]);
    }
    KeepReport {
        paragraphs_total: n,
        props_elements,
        paragraphs_indexed,
        keep_next: read_states(&found, Keep::Next),
        keep_lines: read_states(&found, Keep::Lines),
        page_break_before: read_states(&found, Keep::PageBreak),
        widow_control: read_states(&found, Keep::Widow),
        paragraphs,
    }
}

/// The paragraph style that a paragraph names, in the content or else in the style part.
pub open spec fn style_of(p: Node, styles: Seq<Held>) -> Option<Held> {
    called(styles, "paragraph"@, "paragraph"@, p.attr_text("style-name"@))
}

/// What that style says under a name.
pub open spec fn style_says(p: Node, styles: Seq<Held>, name: Seq<char>) -> Option<Seq<char>> {
    said_by(under(style_of(p, styles), "paragraph-properties"@), name)
}

/// The paragraph style that a paragraph names.
pub fn find_style<'a>(p: &Node, styles: &Vec<Found<'a>>) -> (r: Option<Found<'a>>)
    ensures
        held_in(r) == style_of(*p, all_held(styles@)),
{
    find_called(styles, "paragraph", "paragraph", p.attr_local("style-name"))
}

/// What the style of a paragraph says under a name.
pub fn ask_style(p: &Node, styles: &Vec<Found>, name: &str) -> (r: Option<String>)
    ensures
        text_in(r) == style_says(*p, all_held(styles@), name@),
{
    match find_style(p, styles) {
        Some(f) => ask(f.node.child("paragraph-properties"), name),
        None => None,
    }
}

/// A paragraph style with a name.
pub open spec fn is_paragraph_style(n: Node) -> bool {
    n.attr_text("family"@) == Some("paragraph"@) && n.attr_text("name"@) is Some
}

/// How many paragraph styles there are.
pub fn count_styles(styles: &Vec<Found>) -> (r: usize)
    ensures
        r == tally(
            |i: int| is_paragraph_style(all_held(styles@)[i].node),
            styles@.len() as int,
        ),
{
    let ghost s = all_held(styles@);
    count_those(
        styles.len(),
        |i: usize| -> (b: bool)
            requires
                i < styles@.len()
            ensures
                b == is_paragraph_style(s[i as int].node)
            {
                match styles[i].node.attr_local("family") {
                    Some(t) => same(t, "paragraph") && styles[i].node.attr_local("name").is_some(),
                    None => false,
                }
            },
        Ghost(|i: int| is_paragraph_style(s[i].node)),
    )
}

/// What the style of each paragraph says under a name.
pub open spec fn words_of(ps: Seq<Node>, styles: Seq<Held>, name: Seq<char>) -> Seq<
    Option<Seq<char>>,
> {
    Seq::new(ps.len(), |i: int| style_says(ps[i], styles, name))
}

/// What the style of each paragraph says under a name.
pub fn read_words(ps: &Vec<&Node>, styles: &Vec<Found>, name: &str) -> (r: Vec<Option<String>>)
    ensures
        option_texts(r@) == words_of(nodes(ps@), all_held(styles@), name@),
{
    let out: Vec<Option<String>> = each(
        ps,
        ps.len(),
        |i: usize, p: &&Node| -> (r: Option<String>)
            ensures
                text_in(r) == style_says(**p, all_held(styles@), name@)
            { ask_style(p, styles, name) },
    );
    assert(option_texts(out@) =~= words_of(nodes(ps@), all_held(styles@), name@));
    out
}

/// One paragraph of a text.
#[derive(Debug, Clone)]
pub struct StyleRow {
    pub index: usize,
    pub style_written: Option<String>,
    pub style_found: bool,
    pub keep_with_next: Option<String>,
    pub keep_together: Option<String>,
    pub break_before: Option<String>,
    pub widows: Option<String>,
    pub orphans: Option<String>,
}

impl StyleRow {
    pub open spec fn describes(self, p: Node, i: int, s: Seq<Held>) -> bool {
        &&& self.index == i
        &&& text_in(self.style_written) == p.attr_text("style-name"@)
        &&& self.style_found == (style_of(p, s) is Some)
        &&& text_in(self.keep_with_next) == style_says(p, s, "keep-with-next"@)
        &&& text_in(self.keep_together) == style_says(p, s, "keep-together"@)
        &&& text_in(self.break_before) == style_says(p, s, "break-before"@)
        &&& text_in(self.widows) == style_says(p, s, "widows"@)
        &&& text_in(self.orphans) == style_says(p, s, "orphans"@)
    }
}

fn read_style_row(p: &Node, i: usize, s: &Vec<Found>) -> (r: StyleRow)
    ensures
        r.describes(*p, i as int, all_held(s@)),
{
    StyleRow {
        index: i,
        style_written: owned(p.attr_local("style-name")),
        style_found: find_style(p, s).is_some(),
        keep_with_next: ask_style(p, s, "keep-with-next"),
        keep_together: ask_style(p, s, "keep-together"),
        break_before: ask_style(p, s, "break-before"),
        widows: ask_style(p, s, "widows"),
        orphans: ask_style(p, s, "orphans"),
    }
}

/// The style of the paragraph says something about pages.
pub open spec fn says_any(p: Node, s: Seq<Held>) -> bool {
    style_says(p, s, "keep-with-next"@) is Some || style_says(p, s, "keep-together"@) is Some
        || style_says(p, s, "break-before"@) is Some || style_says(p, s, "widows"@) is Some
        || style_says(p, s, "orphans"@) is Some
}

/// What the styles of a text say about pages.
#[derive(Debug, Clone)]
pub struct StyleReport {
    pub paragraphs_total: usize,
    pub resolved: usize,
    pub paragraphs_with_any: usize,
    pub styles_total: usize,
    /// How often each value is written, word by word.
    pub keep_with_next: Vec<(String, usize)>,
    pub keep_together: Vec<(String, usize)>,
    pub break_before: Vec<(String, usize)>,
    pub widows: Vec<(String, usize)>,
    pub orphans: Vec<(String, usize)>,
    pub paragraphs: Vec<StyleRow>,
}

impl StyleReport {
    pub open spec fn describes(self, content: Node, styles: Option<Node>, limit: usize) -> bool {
        let ps = content.below("p"@);
        let s = everywhere(content, styles, "style"@);
        let n = ps.len() as int;
        &&& self.paragraphs_total == n
        &&& self.resolved == tally(|i: int| style_of(ps[i], s) is Some, n)
        &&& self.paragraphs_with_any == tally(|i: int| says_any(ps[i], s), n)
        &&& self.styles_total == tally(|i: int| is_paragraph_style(s[i].node), s.len() as int)
        &&& counts_names(self.keep_with_next@, words_of(ps, s, "keep-with-next"@))
        &&& counts_names(self.keep_together@, words_of(ps, s, "keep-together"@))
        &&& counts_names(self.break_before@, words_of(ps, s, "break-before"@))
        &&& counts_names(self.widows@, words_of(ps, s, "widows"@))
        &&& counts_names(self.orphans@, words_of(ps, s, "orphans"@))
        &&& self.paragraphs@.len() == at_most(ps.len(), limit)
        &&& forall|i: int|
            0 <= i < self.paragraphs@.len() ==> (#[trigger] self.paragraphs@[i]).describes(
                ps[i],
                i,
                s,
            )
    }
}

/// What the styles of a text say about pages, paragraph by paragraph. The list is cut to `limit`.
pub fn odf(content: &Node, styles: Option<&Node>, limit: usize) -> (r: StyleReport)
    ensures
        r.describes(*content, node_in(styles), limit),
{
    let all: Vec<Found> = look_everywhere(content, styles, "style");
    let ghost s = all_held(all@);
    assert(s.len() == all@.len());
    let found: Vec<&Node> = content.descendants("p");
    let ghost ps = nodes(found@);
    let n: usize = found.len();
    assert(ps.len() == n);
    let resolved: usize = count_those(
        n,
        |i: usize| -> (b: bool)
            requires
                i < found@.len()
            ensures
                b == (style_of(ps[i as int], s) is Some)
            { find_style(found[i], &all).is_some() },
        Ghost(|i: int| style_of(ps[i], s) is Some),
    );
    let paragraphs_with_any: usize = count_those(
        n,
        |i: usize| -> (b: bool)
            requires
                i < found@.len()
            ensures
                b == says_any(ps[i as int], s)
            {
                ask_style(found[i], &all, "keep-with-next").is_some() || ask_style(
                    found[i],
                    &all,
                    "keep-together",
                ).is_some() || ask_style(found[i], &all, "break-before").is_some() || ask_style(
                    found[i],
                    &all,
                    "widows",
                ).is_some() || ask_style(found[i], &all, "orphans").is_some()
            },
        Ghost(|i: int| says_any(ps[i], s)),
    );
    let paragraphs: Vec<StyleRow> = each(
        &found,
        cut(n, limit),
        |i: usize, p: &&Node| -> (r: StyleRow)
            ensures
                r.describes(**p, i as int, s)
            { read_style_row(p, i, &all) },
    );
    assert forall|i: int| 0 <= i < paragraphs@.len() implies (#[trigger] paragraphs@[i]).describes(
        ps[i],
        i,
        s,
    ) by {
        assert(ps[i] == *found@[i]);
    }
    StyleReport {
        paragraphs_total: n,
        resolved,
        paragraphs_with_any,
        styles_total: count_styles(&all),
        keep_with_next: count_names(&read_words(&found, &all, "keep-with-next")),
        keep_together: count_names(&read_words(&found, &all, "keep-together")),
        break_before: count_names(&read_words(&found, &all, "break-before")),
        widows: count_names(&read_words(&found, &all, "widows")),
        orphans: count_names(&read_words(&found, &all, "orphans")),
        paragraphs,
    }
}

/// A switch is on where its element stands in the properties of the paragraph, unless its value is
/// one of the four words that turn it off.
pub proof fn law_how_a_switch_stands(s: SwitchState, n: Node)
    requires
        s.describes(Some(n)),
    ensures
        s.present,
        text_in(s.val) == n.attr_text("val"@),
        n.attr_text("val"@) is None ==> s.on_written,
        n.attr_text("val"@) == Some("0"@) || n.attr_text("val"@) == Some("false"@) || n.attr_text(
            "val"@,
        ) == Some("off"@) || n.attr_text("val"@) == Some("none"@) ==> s.off_written
            && !s.on_written,
        n.attr_text("val"@) matches Some(v) && v != "0"@ && v != "false"@ && v != "off"@ && v
            != "none"@ ==> s.on_written && !s.off_written,
{
}

/// The four switches of a paragraph each have an element of their own in its properties.
pub proof fn law_switches_have_their_elements(r: KeepRow, p: Node, i: int, props: Node)
    requires
        r.describes(p, i),
        p.child_of("pPr"@) == Some(props),
    ensures
        r.index == i,
        r.has_props,
        r.keep_next.describes(props.child_of("keepNext"@)),
        r.keep_lines.describes(props.child_of("keepLines"@)),
        r.page_break_before.describes(props.child_of("pageBreakBefore"@)),
        r.widow_control.describes(props.child_of("widowControl"@)),
{
}

/// A paragraph without properties has none of the switches.
pub proof fn law_a_paragraph_without_properties(r: KeepRow, p: Node, i: int)
    requires
        r.describes(p, i),
        p.child_of("pPr"@) is None,
    ensures
        !r.has_props,
        !r.keep_next.present && !r.keep_lines.present && !r.page_break_before.present
            && !r.widow_control.present,
        !has_any(p),
{
}

/// The element of a switch in the properties of a paragraph.
pub open spec fn written_in(p: Node, name: Seq<char>) -> Option<Node> {
    match p.child_of("pPr"@) {
        Some(props) => props.child_of(name),
        None => None,
    }
}

proof fn lemma_written(ps: Seq<Node>, k: Keep, name: Seq<char>)
    requires
        k.element() == name,
    ensures
        written(ps, k, false) == ps.filter(
            |p: Node| written_in(p, name) matches Some(n) && n.attr_text("val"@) is None,
        ).len(),
        written(ps, k, true) == ps.filter(
            |p: Node| written_in(p, name) matches Some(n) && n.attr_text("val"@) is Some,
        ).len(),
{
    crate::lists::law_a_tally_is_how_many_pass(
        ps,
        |i: int|
            switch_on(ps[i], k) is Some && (said_by(switch_on(ps[i], k), "val"@) is Some) == false,
        |p: Node| written_in(p, name) matches Some(n) && n.attr_text("val"@) is None,
    );
    crate::lists::law_a_tally_is_how_many_pass(
        ps,
        |i: int|
            switch_on(ps[i], k) is Some && (said_by(switch_on(ps[i], k), "val"@) is Some) == true,
        |p: Node| written_in(p, name) matches Some(n) && n.attr_text("val"@) is Some,
    );
}

/// How often each switch is written, without a value and with one, over all paragraphs.
pub proof fn law_what_switches_are_counted_for(r: KeepReport, body: Node, limit: usize, ps: Seq<Node>)
    requires
        r.describes(body, limit),
        ps == body.below("p"@),
    ensures
        r.paragraphs_total == ps.len(),
        r.props_elements == ps.filter(|p: Node| p.child_of("pPr"@) is Some).len(),
        r.keep_next.bare == ps.filter(
            |p: Node| written_in(p, "keepNext"@) matches Some(n) && n.attr_text("val"@) is None,
        ).len(),
        r.keep_next.with_value == ps.filter(
            |p: Node| written_in(p, "keepNext"@) matches Some(n) && n.attr_text("val"@) is Some,
        ).len(),
        r.keep_lines.bare == ps.filter(
            |p: Node| written_in(p, "keepLines"@) matches Some(n) && n.attr_text("val"@) is None,
        ).len(),
        r.keep_lines.with_value == ps.filter(
            |p: Node| written_in(p, "keepLines"@) matches Some(n) && n.attr_text("val"@) is Some,
        ).len(),
        r.page_break_before.bare == ps.filter(
            |p: Node|
                written_in(p, "pageBreakBefore"@) matches Some(n) && n.attr_text("val"@) is None,
        ).len(),
        r.page_break_before.with_value == ps.filter(
            |p: Node|
                written_in(p, "pageBreakBefore"@) matches Some(n) && n.attr_text("val"@) is Some,
        ).len(),
        r.widow_control.bare == ps.filter(
            |p: Node| written_in(p, "widowControl"@) matches Some(n) && n.attr_text("val"@) is None,
        ).len(),
        r.widow_control.with_value == ps.filter(
            |p: Node| written_in(p, "widowControl"@) matches Some(n) && n.attr_text("val"@) is Some,
        ).len(),
        r.paragraphs_indexed@.len() == ps.filter(
            |p: Node|
                written_in(p, "keepNext"@) is Some || written_in(p, "keepLines"@) is Some
                    || written_in(p, "pageBreakBefore"@) is Some || written_in(p, "widowControl"@)
                    is Some,
        ).len(),
        r.paragraphs@.len() == limit || r.paragraphs@.len() == ps.len(),
{
    crate::lists::law_a_tally_is_how_many_pass(
        ps,
        |i: int| ps[i].child_of("pPr"@) is Some,
        |p: Node| p.child_of("pPr"@) is Some,
    );
    lemma_written(ps, Keep::Next, "keepNext"@);
    lemma_written(ps, Keep::Lines, "keepLines"@);
    lemma_written(ps, Keep::PageBreak, "pageBreakBefore"@);
    lemma_written(ps, Keep::Widow, "widowControl"@);
    let q = |i: int| has_any(ps[i]);
    crate::lists::law_those_are_all_that_satisfy(q, ps.len() as int);
    crate::lists::law_a_tally_is_how_many_pass(
        ps,
        q,
        |p: Node|
            written_in(p, "keepNext"@) is Some || written_in(p, "keepLines"@) is Some || written_in(
                p,
                "pageBreakBefore"@,
            ) is Some || written_in(p, "widowControl"@) is Some,
    );
    assert(ints(r.paragraphs_indexed@).len() == r.paragraphs_indexed@.len());
}

/// What the style of a paragraph says stands in its paragraph properties; a paragraph whose style
/// is not there says nothing.
pub proof fn law_what_the_style_of_a_paragraph_says(
    p: Node,
    styles: Seq<Held>,
    name: Seq<char>,
    h: Held,
    props: Node,
)
    ensures
        called(styles, "paragraph"@, "paragraph"@, p.attr_text("style-name"@)) is None
            ==> style_says(p, styles, name) is None,
        called(styles, "paragraph"@, "paragraph"@, p.attr_text("style-name"@)) == Some(h)
            && h.node.child_of("paragraph-properties"@) == Some(props) ==> style_says(
            p,
            styles,
            name,
        ) == props.attr_text(name),
        called(styles, "paragraph"@, "paragraph"@, p.attr_text("style-name"@)) == Some(h)
            && h.node.child_of("paragraph-properties"@) is None ==> style_says(p, styles, name)
            is None,
{
}

/// What is told of a paragraph of a text: the style it names, and what that style says of pages
/// under five names.
pub proof fn law_what_a_style_says_of_pages(r: StyleRow, p: Node, i: int, s: Seq<Held>)
    requires
        r.describes(p, i, s),
    ensures
        r.index == i,
        text_in(r.style_written) == p.attr_text("style-name"@),
        r.style_found <==> called(s, "paragraph"@, "paragraph"@, p.attr_text("style-name"@))
            is Some,
        text_in(r.keep_with_next) == style_says(p, s, "keep-with-next"@),
        text_in(r.keep_together) == style_says(p, s, "keep-together"@),
        text_in(r.break_before) == style_says(p, s, "break-before"@),
        text_in(r.widows) == style_says(p, s, "widows"@),
        text_in(r.orphans) == style_says(p, s, "orphans"@),
{
}

/// Each number of the report on a text is how many paragraphs or styles are so, and each word is
/// counted under its own name.
pub proof fn law_what_styles_are_counted_for(
    r: StyleReport,
    content: Node,
    styles: Option<Node>,
    limit: usize,
    ps: Seq<Node>,
    s: Seq<Held>,
)
    requires
        r.describes(content, styles, limit),
        ps == content.below("p"@),
        s == everywhere(content, styles, "style"@),
    ensures
        r.paragraphs_total == ps.len(),
        r.resolved == ps.filter(|p: Node| style_of(p, s) is Some).len(),
        r.paragraphs_with_any == ps.filter(
            |p: Node|
                style_says(p, s, "keep-with-next"@) is Some || style_says(p, s, "keep-together"@)
                    is Some || style_says(p, s, "break-before"@) is Some || style_says(
                    p,
                    s,
                    "widows"@,
                ) is Some || style_says(p, s, "orphans"@) is Some,
        ).len(),
        r.styles_total == s.filter(
            |h: Held|
                h.node.attr_text("family"@) == Some("paragraph"@) && h.node.attr_text("name"@)
                    is Some,
        ).len(),
        counts_names(r.keep_with_next@, words_of(ps, s, "keep-with-next"@)),
        counts_names(r.keep_together@, words_of(ps, s, "keep-together"@)),
        counts_names(r.break_before@, words_of(ps, s, "break-before"@)),
        counts_names(r.widows@, words_of(ps, s, "widows"@)),
        counts_names(r.orphans@, words_of(ps, s, "orphans"@)),
{
    crate::lists::law_a_tally_is_how_many_pass(
        ps,
        |i: int| style_of(ps[i], s) is Some,
        |p: Node| style_of(p, s) is Some,
    );
    crate::lists::law_a_tally_is_how_many_pass(
        ps,
        |i: int| says_any(ps[i], s),
        |p: Node|
            style_says(p, s, "keep-with-next"@) is Some || style_says(p, s, "keep-together"@)
                is Some || style_says(p, s, "break-before"@) is Some || style_says(p, s, "widows"@)
                is Some || style_says(p, s, "orphans"@) is Some,
    );
    crate::lists::law_a_tally_is_how_many_pass(
        s,
        |i: int| is_paragraph_style(s[i].node),
        |h: Held|
            h.node.attr_text("family"@) == Some("paragraph"@) && h.node.attr_text("name"@) is Some,
    );
}

} // verus!
