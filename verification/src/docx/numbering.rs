//! Numbered paragraphs: where a paragraph says that it is a list item, and what the level it
//! points at writes.
//!
//! A paragraph can say so itself or leave it to the style it names. The number it names leads
//! to a number definition, that one to an abstract definition, and that one to its levels.

use crate::lists::{at_most, flag, one_if};
use crate::text::{pair_texts, same, texts};
use crate::written::{
    ask, copied, find_by, find_node, first_of_each, firsts, go, lists, map_if, node_in, owned,
    said_by, step, table_if, table_in, text_in,
};
use crate::xml::{nodes, Node};
use vstd::prelude::*;

verus! {

broadcast use {
    crate::text::lemma_texts_push,
    crate::text::lemma_pair_texts_push,
    crate::xml::lemma_nodes_push,
};

/// What the children of a node write as their values, the first of each name that writes one.
/// The two property holders are no values.
pub open spec fn values_upto(c: Seq<Node>, n: int) -> Seq<(Seq<char>, Seq<char>)>
    decreases n,
{
    if n <= 0 {
        Seq::empty()
    } else {
        let before = values_upto(c, n - 1);
        let one = c[n - 1];
        let name = one.local_name();
        if name == "pPr"@ || name == "rPr"@ || named_in(before, name) {
            before
        } else {
            match one.attr_text("val"@) {
                Some(v) => before.push((name, v)),
                None => before,
            }
        }
    }
}

/// Whether a table has an entry of that name.
pub open spec fn named_in(t: Seq<(Seq<char>, Seq<char>)>, name: Seq<char>) -> bool {
    exists|i: int| 0 <= i < t.len() && (#[trigger] t[i]).0 == name
}

/// The values that the children of a node write.
pub open spec fn values_of(n: Node) -> Seq<(Seq<char>, Seq<char>)> {
    values_upto(n.children@, n.children@.len() as int)
}

fn has_name(t: &Vec<(String, String)>, name: &str) -> (r: bool)
    ensures
        r == named_in(pair_texts(t@), name@),
{
    let mut i: usize = 0;
    while i < t.len()
        invariant
            i <= t@.len(),
            forall|k: int| 0 <= k < i ==> (#[trigger] pair_texts(t@)[k]).0 != name@,
        decreases t@.len() - i,
    {
        assert(pair_texts(t@)[i as int].0 == t@[i as int].0@);
        if same(t[i].0.as_str(), name) {
            return true;
        }
        i += 1;
    }
    false
}

/// The values that the children of a node write. Of two of one name the first counts.
pub fn docx_val_children(node: &Node) -> (r: Vec<(String, String)>)
    ensures
        pair_texts(r@) == values_of(*node),
{
    let mut out: Vec<(String, String)> = Vec::new();
    let mut i: usize = 0;
    assert(pair_texts(out@) =~= values_upto(node.children@, 0));
    while i < node.children.len()
        invariant
            i <= node.children@.len(),
            pair_texts(out@) == values_upto(node.children@, i as int),
        decreases node.children@.len() - i,
    {
        let kid: &Node = &node.children[i];
        if !kid.is("pPr") && !kid.is("rPr") && !has_name(&out, kid.local()) {
            if let Some(v) = kid.attr_local("val") {
                out.push((kid.local().to_owned(), v.to_owned()));
            }
        }
        i += 1;
    }
    out
}

/// What a level writes: its values, its indent and its fonts.
#[derive(Debug, Clone)]
pub struct Level {
    pub ilvl: Option<String>,
    pub written: Vec<(String, String)>,
    pub indent: Option<Vec<(String, String)>>,
    pub fonts: Option<Vec<(String, String)>>,
}

impl Level {
    pub open spec fn describes(self, n: Node) -> bool {
        &&& text_in(self.ilvl) == n.attr_text("ilvl"@)
        &&& pair_texts(self.written@) == values_of(n)
        &&& table_in(self.indent) == table_if(step(n.child_of("pPr"@), "ind"@))
        &&& table_in(self.fonts) == table_if(step(n.child_of("rPr"@), "rFonts"@))
    }
}

/// Reads what a level writes.
pub fn docx_level_written(node: &Node) -> (r: Level)
    ensures
        r.describes(*node),
{
    Level {
        ilvl: owned(node.attr_local("ilvl")),
        written: docx_val_children(node),
        indent: map_if(go(node.child("pPr"), "ind")),
        fonts: map_if(go(node.child("rPr"), "rFonts")),
    }
}

/// The level and the number that a holder of paragraph properties names.
pub open spec fn named_level(holder: Option<Node>) -> Option<Seq<char>> {
    said_by(step(step(holder, "numPr"@), "ilvl"@), "val"@)
}

pub open spec fn named_number(holder: Option<Node>) -> Option<Seq<char>> {
    said_by(step(step(holder, "numPr"@), "numId"@), "val"@)
}

/// The level and the number that a holder of paragraph properties names.
pub fn docx_num_pr(holder: Option<&Node>) -> (r: (Option<String>, Option<String>))
    ensures
        text_in(r.0) == named_level(node_in(holder)),
        text_in(r.1) == named_number(node_in(holder)),
{
    let inner: Option<&Node> = go(holder, "numPr");
    (ask(go(inner, "ilvl"), "val"), ask(go(inner, "numId"), "val"))
}

/// The child of that name, or the node itself where there is none. A parsed part has a root
/// above its first element.
pub open spec fn inner_root(root: Node, want: Seq<char>) -> Node {
    match root.child_of(want) {
        Some(n) => n,
        None => root,
    }
}

/// The children of that name of the part's first element.
pub open spec fn part_list(part: Option<Node>, root: Seq<char>, want: Seq<char>) -> Seq<Node> {
    match part {
        Some(n) => inner_root(n, root).all_of(want),
        None => Seq::empty(),
    }
}

pub fn read_part_list<'a>(part: Option<&'a Node>, root: &str, want: &str) -> (r: Vec<&'a Node>)
    ensures
        nodes(r@) == part_list(node_in(part), root@, want@),
{
    match part {
        Some(n) => {
            let inner: &'a Node = match n.child(root) {
                Some(inner) => inner,
                None => n,
            };
            inner.all(want)
        },
        None => {
            let none: Vec<&'a Node> = Vec::new();
            assert(nodes(none@) =~= Seq::empty());
            none
        },
    }
}

/// What a document defines for numbering: its numbers, its abstract definitions and its styles.
pub struct Definitions {
    pub nums: Seq<Node>,
    pub abstracts: Seq<Node>,
    pub styles: Seq<Node>,
}

/// What the two parts define.
pub open spec fn defined(numbering: Option<Node>, styles: Option<Node>) -> Definitions {
    Definitions {
        nums: part_list(numbering, "numbering"@, "num"@),
        abstracts: part_list(numbering, "numbering"@, "abstractNum"@),
        styles: part_list(styles, "styles"@, "style"@),
    }
}

/// The style that a paragraph names.
pub open spec fn style_id(p: Node) -> Option<Seq<char>> {
    said_by(step(p.child_of("pPr"@), "pStyle"@), "val"@)
}

/// The paragraph properties of the style that a paragraph names.
pub open spec fn style_holder(p: Node, d: Definitions) -> Option<Node> {
    match style_id(p) {
        Some(id) => step(find_by(d.styles, "styleId"@, id), "pPr"@),
        None => None,
    }
}

/// A paragraph speaks of numbering itself.
pub open spec fn speaks(p: Node) -> bool {
    step(p.child_of("pPr"@), "numPr"@) is Some
}

/// The style of a paragraph names a number.
pub open spec fn style_speaks(p: Node, d: Definitions) -> bool {
    named_number(style_holder(p, d)) is Some
}

/// A paragraph is numbered, by itself or by its style.
pub open spec fn numbered(p: Node, d: Definitions) -> bool {
    p.child_of("pPr"@) is Some && (speaks(p) || style_speaks(p, d))
}

/// The number that a paragraph goes by: its own, or else its style's.
pub open spec fn chosen_number(p: Node, d: Definitions) -> Option<Seq<char>> {
    match named_number(p.child_of("pPr"@)) {
        Some(id) => Some(id),
        None => named_number(style_holder(p, d)),
    }
}

/// The level that a paragraph goes by: its own, or else its style's.
pub open spec fn chosen_level(p: Node, d: Definitions) -> Option<Seq<char>> {
    match named_level(p.child_of("pPr"@)) {
        Some(id) => Some(id),
        None => named_level(style_holder(p, d)),
    }
}

/// The node that a text leads to, where there is a text.
pub open spec fn led_to(c: Seq<Node>, key: Seq<char>, id: Option<Seq<char>>) -> Option<Node> {
    match id {
        Some(t) => find_by(c, key, t),
        None => None,
    }
}

fn lead<'a>(c: &Vec<&'a Node>, key: &str, id: &Option<String>) -> (r: Option<&'a Node>)
    ensures
        node_in(r) == led_to(nodes(c@), key@, text_in(*id)),
{
    match id {
        Some(t) => find_node(c, key, t.as_str()),
        None => None,
    }
}

/// The abstract definition that a number names.
pub open spec fn abstract_id(num: Option<Node>) -> Option<Seq<char>> {
    said_by(step(num, "abstractNumId"@), "val"@)
}

/// The levels that an abstract definition writes.
pub open spec fn levels_of(abstraction: Option<Node>) -> Seq<Node> {
    match abstraction {
        Some(n) => n.all_of("lvl"@),
        None => Seq::empty(),
    }
}

fn read_levels<'a>(abstraction: Option<&'a Node>) -> (r: Vec<&'a Node>)
    ensures
        nodes(r@) == levels_of(node_in(abstraction)),
{
    match abstraction {
        Some(n) => n.all("lvl"),
        None => {
            let none: Vec<&'a Node> = Vec::new();
            assert(nodes(none@) =~= Seq::empty());
            none
        },
    }
}

/// One numbered paragraph.
#[derive(Debug, Clone)]
pub struct NumberedRow {
    pub index: usize,
    pub style: Option<String>,
    /// `paragraph`, `style` or `both`: who says that the paragraph is numbered.
    pub from: &'static str,
    pub num_id: Option<String>,
    pub ilvl: Option<String>,
    pub para_num_id: Option<String>,
    pub style_num_id: Option<String>,
    pub abstract_id: Option<String>,
    pub resolved: bool,
    pub abstract_found: bool,
    pub level: Option<Level>,
}

/// Who says that a paragraph is numbered.
pub open spec fn source_of(p: Node, d: Definitions) -> Seq<char> {
    if speaks(p) && style_speaks(p, d) {
        "both"@
    } else if speaks(p) {
        "paragraph"@
    } else {
        "style"@
    }
}

/// The number definition that a paragraph leads to.
pub open spec fn number_of(p: Node, d: Definitions) -> Option<Node> {
    led_to(d.nums, "numId"@, chosen_number(p, d))
}

/// The abstract definition that a paragraph leads to.
pub open spec fn abstract_of(p: Node, d: Definitions) -> Option<Node> {
    led_to(d.abstracts, "abstractNumId"@, abstract_id(number_of(p, d)))
}

/// The level that a paragraph leads to. Where no level of that number is written there is
/// none, and no other stands in for it.
pub open spec fn level_of(p: Node, d: Definitions) -> Option<Node> {
    led_to(levels_of(abstract_of(p, d)), "ilvl"@, chosen_level(p, d))
}

impl NumberedRow {
    pub open spec fn describes(self, p: Node, index: int, d: Definitions) -> bool {
        &&& self.index == index
        &&& text_in(self.style) == style_id(p)
        &&& self.from@ == source_of(p, d)
        &&& text_in(self.num_id) == chosen_number(p, d)
        &&& text_in(self.ilvl) == chosen_level(p, d)
        &&& text_in(self.para_num_id) == named_number(p.child_of("pPr"@))
        &&& text_in(self.style_num_id) == named_number(style_holder(p, d))
        &&& text_in(self.abstract_id) == abstract_id(number_of(p, d))
        &&& self.resolved == (number_of(p, d) is Some)
        &&& self.abstract_found == (abstract_of(p, d) is Some)
        &&& match (self.level, level_of(p, d)) {
            (Some(l), Some(n)) => l.describes(n),
            (None, None) => true,
            _ => false,
        }
    }
}

/// The lists of definitions of a document.
pub struct Parts<'a> {
    pub nums: Vec<&'a Node>,
    pub abstracts: Vec<&'a Node>,
    pub styles: Vec<&'a Node>,
}

impl<'a> Parts<'a> {
    pub open spec fn defs(self) -> Definitions {
        Definitions {
            nums: nodes(self.nums@),
            abstracts: nodes(self.abstracts@),
            styles: nodes(self.styles@),
        }
    }
}

/// Reads one paragraph, if it is numbered.
fn read_numbered(p: &Node, index: usize, parts: &Parts) -> (r: Option<NumberedRow>)
    ensures
        match r {
            Some(row) => numbered(*p, parts.defs()) && row.describes(
                *p,
                index as int,
                parts.defs(),
            ),
            None => !numbered(*p, parts.defs()),
        },
{
    let holder: Option<&Node> = p.child("pPr");
    if holder.is_none() {
        return None;
    }
    let (ilvl, num_id) = docx_num_pr(holder);
    let own: bool = go(holder, "numPr").is_some();
    let style: Option<String> = ask(go(holder, "pStyle"), "val");
    let (style_ilvl, style_num_id) = docx_num_pr(go(lead(&parts.styles, "styleId", &style), "pPr"));
    let styled: bool = style_num_id.is_some();
    if !own && !styled {
        return None;
    }
    let from: &'static str = if own && styled {
        "both"
    } else if own {
        "paragraph"
    } else {
        "style"
    };
    let chosen: Option<String> = match &num_id {
        Some(id) => Some(id.clone()),
        None => copied(&style_num_id),
    };
    let level_id: Option<String> = match ilvl {
        Some(id) => Some(id),
        None => style_ilvl,
    };
    let held: Option<&Node> = lead(&parts.nums, "numId", &chosen);
    let abstract_id: Option<String> = ask(go(held, "abstractNumId"), "val");
    let definition: Option<&Node> = lead(&parts.abstracts, "abstractNumId", &abstract_id);
    let levels: Vec<&Node> = read_levels(definition);
    let level: Option<Level> = match lead(&levels, "ilvl", &level_id) {
        Some(n) => Some(docx_level_written(n)),
        None => None,
    };
    Some(
        NumberedRow {
            index,
            style,
            from,
            num_id: chosen,
            ilvl: level_id,
            para_num_id: num_id,
            style_num_id,
            abstract_id,
            resolved: held.is_some(),
            abstract_found: definition.is_some(),
            level,
        },
    )
}

/// The places of the numbered paragraphs among the first `n`.
pub open spec fn numbered_upto(ps: Seq<Node>, d: Definitions, n: int) -> Seq<int>
    decreases n,
{
    if n <= 0 {
        Seq::empty()
    } else if numbered(ps[n - 1], d) {
        numbered_upto(ps, d, n - 1).push(n - 1)
    } else {
        numbered_upto(ps, d, n - 1)
    }
}

/// The rows are those of the paragraphs at these places.
pub open spec fn rows_describe(
    rows: Seq<NumberedRow>,
    at: Seq<int>,
    ps: Seq<Node>,
    d: Definitions,
) -> bool {
    rows.len() == at.len() && forall|i: int|
        0 <= i < rows.len() ==> (#[trigger] rows[i]).describes(ps[at[i]], at[i], d)
}

/// Something that a numbered paragraph can be counted for.
#[derive(Debug, Clone, Copy, PartialEq, Eq, Structural)]
pub enum Count {
    OnParagraph,
    ViaStyle,
    Both,
    /// The paragraph names a number that is not defined.
    Unresolved,
}

pub open spec fn counts_for(p: Node, d: Definitions, q: Count) -> bool {
    match q {
        Count::OnParagraph => speaks(p) && !style_speaks(p, d),
        Count::ViaStyle => !speaks(p) && style_speaks(p, d),
        Count::Both => speaks(p) && style_speaks(p, d),
        Count::Unresolved => chosen_number(p, d) is Some && number_of(p, d) is None,
    }
}

/// How many of the first `n` numbered paragraphs are counted for something.
pub open spec fn count_upto(ps: Seq<Node>, at: Seq<int>, d: Definitions, q: Count, n: int) -> nat
    decreases n,
{
    if n <= 0 {
        0
    } else {
        count_upto(ps, at, d, q, n - 1) + one_if(counts_for(ps[at[n - 1]], d, q))
    }
}

fn row_counts(row: &NumberedRow, q: Count, Ghost(g): Ghost<(Node, int, Definitions)>) -> (r: bool)
    requires
        row.describes(g.0, g.1, g.2),
        numbered(g.0, g.2),
    ensures
        r == counts_for(g.0, g.2, q),
{
    proof {
        reveal_strlit("both");
        reveal_strlit("paragraph");
        reveal_strlit("style");
        assert("both"@.len() == 4 && "paragraph"@.len() == 9 && "style"@.len() == 5);
    }
    match q {
        Count::OnParagraph => same(row.from, "paragraph"),
        Count::ViaStyle => same(row.from, "style"),
        Count::Both => same(row.from, "both"),
        Count::Unresolved => row.num_id.is_some() && !row.resolved,
    }
}

fn count_rows(
    rows: &Vec<NumberedRow>,
    q: Count,
    Ghost(g): Ghost<(Seq<int>, Seq<Node>, Definitions)>,
) -> (r: usize)
    requires
        rows_describe(rows@, g.0, g.1, g.2),
        forall|i: int| 0 <= i < g.0.len() ==> numbered(g.1[#[trigger] g.0[i]], g.2),
    ensures
        r == count_upto(g.1, g.0, g.2, q, g.0.len() as int),
{
    let mut count: usize = 0;
    let mut i: usize = 0;
    while i < rows.len()
        invariant
            count <= i <= rows@.len(),
            rows_describe(rows@, g.0, g.1, g.2),
            forall|k: int| 0 <= k < g.0.len() ==> numbered(g.1[#[trigger] g.0[k]], g.2),
            count == count_upto(g.1, g.0, g.2, q, i as int),
        decreases rows@.len() - i,
    {
        count = count + flag(
            row_counts(&rows[i], q, Ghost((g.1[g.0[i as int]], g.0[i as int], g.2))),
        );
        i += 1;
    }
    count
}

/// The different numbers that the first `n` numbered paragraphs go by, in order.
pub open spec fn used_upto(ps: Seq<Node>, at: Seq<int>, d: Definitions, n: int) -> Seq<Seq<char>>
    decreases n,
{
    if n <= 0 {
        Seq::empty()
    } else {
        let before = used_upto(ps, at, d, n - 1);
        match chosen_number(ps[at[n - 1]], d) {
            Some(id) => if before.contains(id) {
                before
            } else {
                before.push(id)
            },
            None => before,
        }
    }
}

fn collect_used(
    rows: &Vec<NumberedRow>,
    Ghost(g): Ghost<(Seq<int>, Seq<Node>, Definitions)>,
) -> (r: Vec<String>)
    requires
        rows_describe(rows@, g.0, g.1, g.2),
    ensures
        texts(r@) == used_upto(g.1, g.0, g.2, g.0.len() as int),
{
    let mut out: Vec<String> = Vec::new();
    let mut i: usize = 0;
    assert(texts(out@) =~= used_upto(g.1, g.0, g.2, 0));
    while i < rows.len()
        invariant
            i <= rows@.len(),
            rows_describe(rows@, g.0, g.1, g.2),
            texts(out@) == used_upto(g.1, g.0, g.2, i as int),
        decreases rows@.len() - i,
    {
        assert(rows@[i as int].describes(g.1[g.0[i as int]], g.0[i as int], g.2));
        if let Some(id) = &rows[i].num_id {
            if !lists(&out, id.as_str()) {
                out.push(id.clone());
            }
        }
        i += 1;
    }
    out
}

/// One number definition.
#[derive(Debug, Clone)]
pub struct NumDefinition {
    pub num_id: Option<String>,
    pub abstract_id: Option<String>,
    /// What the abstract definition writes, where it is there.
    pub written: Option<Vec<(String, String)>>,
    pub referenced: bool,
    pub levels: Vec<Level>,
}

/// The values that a node writes, where there is one.
pub open spec fn values_if(n: Option<Node>) -> Option<Seq<(Seq<char>, Seq<char>)>> {
    match n {
        Some(x) => Some(values_of(x)),
        None => None,
    }
}

impl NumDefinition {
    pub open spec fn describes(
        self,
        num: Node,
        d: Definitions,
        used: Seq<Seq<char>>,
        limit: usize,
    ) -> bool {
        let held = led_to(d.abstracts, "abstractNumId"@, abstract_id(Some(num)));
        &&& text_in(self.num_id) == num.attr_text("numId"@)
        &&& text_in(self.abstract_id) == abstract_id(Some(num))
        &&& table_in(self.written) == values_if(held)
        &&& self.referenced == (num.attr_text("numId"@) matches Some(id) && used.contains(id))
        &&& self.levels@.len() == at_most(levels_of(held).len(), limit)
        &&& forall|i: int|
            0 <= i < self.levels@.len() ==> (#[trigger] self.levels@[i]).describes(
                levels_of(held)[i],
            )
    }
}

fn read_definition(num: &Node, parts: &Parts, used: &Vec<String>, limit: usize) -> (r:
    NumDefinition)
    ensures
        r.describes(*num, parts.defs(), texts(used@), limit),
{
    let abstract_id: Option<String> = ask(num.child("abstractNumId"), "val");
    let held: Option<&Node> = lead(&parts.abstracts, "abstractNumId", &abstract_id);
    let found: Vec<&Node> = read_levels(held);
    let mut levels: Vec<Level> = Vec::new();
    let mut i: usize = 0;
    while i < found.len() && i < limit
        invariant
            i <= found@.len(),
            i <= limit,
            levels@.len() == i,
            forall|k: int| 0 <= k < i ==> (#[trigger] levels@[k]).describes(nodes(found@)[k]),
        decreases found@.len() - i,
    {
        levels.push(docx_level_written(found[i]));
        i += 1;
    }
    let num_id: Option<String> = owned(num.attr_local("numId"));
    let referenced: bool = match &num_id {
        Some(id) => lists(used, id.as_str()),
        None => false,
    };
    let written: Option<Vec<(String, String)>> = match held {
        Some(n) => Some(docx_val_children(n)),
        None => None,
    };
    assert(found@.len() == nodes(found@).len());
    NumDefinition { num_id, abstract_id, written, referenced, levels }
}

/// What a document says about numbering.
#[derive(Debug)]
pub struct Numbering {
    pub part: bool,
    pub nums: usize,
    pub abstracts: usize,
    pub checked: usize,
    pub listed: usize,
    pub on_paragraph: usize,
    pub via_style: usize,
    pub both: usize,
    pub unresolved: usize,
    pub used: Vec<String>,
    pub list: Vec<NumberedRow>,
    pub definitions: Vec<NumDefinition>,
}

impl Numbering {
    pub open spec fn describes(
        self,
        ps: Seq<Node>,
        d: Definitions,
        has_part: bool,
        limit: usize,
    ) -> bool {
        let at = numbered_upto(ps, d, ps.len() as int);
        let n = at.len() as int;
        let nums = firsts(d.nums, "numId"@, d.nums.len() as int);
        let abstracts = firsts(d.abstracts, "abstractNumId"@, d.abstracts.len() as int);
        let used = used_upto(ps, at, d, n);
        &&& self.part == has_part
        &&& self.nums == nums.len()
        &&& self.abstracts == abstracts.len()
        &&& self.checked == ps.len()
        &&& self.listed == n
        &&& self.on_paragraph == count_upto(ps, at, d, Count::OnParagraph, n)
        &&& self.via_style == count_upto(ps, at, d, Count::ViaStyle, n)
        &&& self.both == count_upto(ps, at, d, Count::Both, n)
        &&& self.unresolved == count_upto(ps, at, d, Count::Unresolved, n)
        &&& texts(self.used@) == used
        &&& rows_describe(self.list@, at.take(at_most(at.len(), limit) as int), ps, d)
        &&& self.definitions@.len() == at_most(nums.len(), limit)
        &&& forall|i: int|
            0 <= i < self.definitions@.len() ==> (#[trigger] self.definitions@[i]).describes(
                nums[i],
                d,
                used,
                limit,
            )
    }
}

/// Reads the numbering of a document. The counts are over all paragraphs, the lists are cut to
/// `limit`.
pub fn docx_numbering(
    paragraphs: &Vec<&Node>,
    numbering: Option<&Node>,
    style_root: Option<&Node>,
    has_part: bool,
    limit: usize,
) -> (r: Numbering)
    ensures
        r.describes(
            nodes(paragraphs@),
            defined(node_in(numbering), node_in(style_root)),
            has_part,
            limit,
        ),
{
    let parts: Parts = Parts {
        nums: read_part_list(numbering, "numbering", "num"),
        abstracts: read_part_list(numbering, "numbering", "abstractNum"),
        styles: read_part_list(style_root, "styles", "style"),
    };
    let ghost d = parts.defs();
    let ghost ps = nodes(paragraphs@);
    let mut rows: Vec<NumberedRow> = Vec::new();
    let mut i: usize = 0;
    while i < paragraphs.len()
        invariant
            i <= paragraphs@.len(),
            d == parts.defs(),
            ps == nodes(paragraphs@),
            rows_describe(rows@, numbered_upto(ps, d, i as int), ps, d),
            forall|k: int|
                0 <= k < numbered_upto(ps, d, i as int).len() ==> numbered(
                    ps[#[trigger] numbered_upto(ps, d, i as int)[k]],
                    d,
                ),
        decreases paragraphs@.len() - i,
    {
        assert(ps[i as int] == *paragraphs@[i as int]);
        if let Some(row) = read_numbered(paragraphs[i], i, &parts) {
            rows.push(row);
        }
        i += 1;
    }
    let ghost at = numbered_upto(ps, d, ps.len() as int);
    let used: Vec<String> = collect_used(&rows, Ghost((at, ps, d)));
    let nums: Vec<&Node> = first_of_each(&parts.nums, "numId");
    let abstracts: Vec<&Node> = first_of_each(&parts.abstracts, "abstractNumId");
    let ghost first_nums = nodes(nums@);
    let mut definitions: Vec<NumDefinition> = Vec::new();
    let mut k: usize = 0;
    while k < nums.len() && k < limit
        invariant
            k <= nums@.len(),
            k <= limit,
            d == parts.defs(),
            first_nums == nodes(nums@),
            definitions@.len() == k,
            forall|j: int|
                0 <= j < k ==> (#[trigger] definitions@[j]).describes(
                    first_nums[j],
                    d,
                    texts(used@),
                    limit,
                ),
        decreases nums@.len() - k,
    {
        assert(first_nums[k as int] == *nums@[k as int]);
        definitions.push(read_definition(nums[k], &parts, &used, limit));
        k += 1;
    }
    let listed: usize = rows.len();
    let on_paragraph: usize = count_rows(&rows, Count::OnParagraph, Ghost((at, ps, d)));
    let via_style: usize = count_rows(&rows, Count::ViaStyle, Ghost((at, ps, d)));
    let both: usize = count_rows(&rows, Count::Both, Ghost((at, ps, d)));
    let unresolved: usize = count_rows(&rows, Count::Unresolved, Ghost((at, ps, d)));
    let mut list: Vec<NumberedRow> = rows;
    if limit < list.len() {
        list.truncate(limit);
    }
    Numbering {
        part: has_part,
        nums: nums.len(),
        abstracts: abstracts.len(),
        checked: paragraphs.len(),
        listed,
        on_paragraph,
        via_style,
        both,
        unresolved,
        used,
        list,
        definitions,
    }
}

/// The level and the number that properties name stand in their numbering, each in an element of
/// its own.
pub proof fn law_what_numbering_names(holder: Node, np: Node)
    ensures
        holder.child_of("numPr"@) is None ==> named_level(Some(holder)) is None && named_number(
            Some(holder),
        ) is None,
        named_level(None) is None && named_number(None) is None,
        holder.child_of("numPr"@) == Some(np) ==> named_level(Some(holder)) == said_by(
            np.child_of("ilvl"@),
            "val"@,
        ) && named_number(Some(holder)) == said_by(np.child_of("numId"@), "val"@),
{
}

/// A paragraph is numbered where it has properties and either it or its style says so; its own
/// number and its own level go before those of its style.
pub proof fn law_which_paragraphs_are_numbered(p: Node, d: Definitions, props: Node)
    ensures
        p.child_of("pPr"@) is None ==> !numbered(p, d),
        p.child_of("pPr"@) == Some(props) ==> (numbered(p, d) <==> props.child_of("numPr"@) is Some
            || named_number(style_holder(p, d)) is Some),
        p.child_of("pPr"@) == Some(props) && named_number(Some(props)) is Some ==> chosen_number(
            p,
            d,
        ) == named_number(Some(props)),
        p.child_of("pPr"@) == Some(props) && named_number(Some(props)) is None ==> chosen_number(
            p,
            d,
        ) == named_number(style_holder(p, d)),
        p.child_of("pPr"@) == Some(props) && named_level(Some(props)) is Some ==> chosen_level(p, d)
            == named_level(Some(props)),
        p.child_of("pPr"@) == Some(props) && named_level(Some(props)) is None ==> chosen_level(p, d)
            == named_level(style_holder(p, d)),
{
}

/// The style of a paragraph is the first with the id that it names, and what the style says stands
/// in its own paragraph properties.
pub proof fn law_what_the_style_of_a_paragraph_is(p: Node, d: Definitions, props: Node, i: int)
    requires
        p.child_of("pPr"@) == Some(props),
    ensures
        style_id(p) == said_by(props.child_of("pStyle"@), "val"@),
        style_id(p) is None ==> style_holder(p, d) is None,
        style_id(p) is Some && 0 <= i < d.styles.len() && d.styles[i].attr_text("styleId"@)
            == style_id(p) && (forall|k: int|
            0 <= k < i ==> (#[trigger] d.styles[k]).attr_text("styleId"@) != style_id(p))
            ==> style_holder(p, d) == d.styles[i].child_of("pPr"@),
{
    if let Some(id) = style_id(p) {
        crate::written::law_the_first_of_an_id_is_found(d.styles, "styleId"@, id, i);
    }
}

/// A number leads to the first definition of that number, that one to the abstract definition it
/// names, and that one to its level of the level that is gone by.
pub proof fn law_where_a_number_leads(
    p: Node,
    d: Definitions,
    i: int,
    j: int,
    k: int,
    number: Seq<char>,
    about: Seq<char>,
    level: Seq<char>,
)
    requires
        chosen_number(p, d) == Some(number),
        chosen_level(p, d) == Some(level),
        0 <= i < d.nums.len(),
        d.nums[i].attr_text("numId"@) == Some(number),
        forall|m: int| 0 <= m < i ==> (#[trigger] d.nums[m]).attr_text("numId"@) != Some(number),
        said_by(d.nums[i].child_of("abstractNumId"@), "val"@) == Some(about),
        0 <= j < d.abstracts.len(),
        d.abstracts[j].attr_text("abstractNumId"@) == Some(about),
        forall|m: int|
            0 <= m < j ==> (#[trigger] d.abstracts[m]).attr_text("abstractNumId"@) != Some(about),
        0 <= k < d.abstracts[j].all_of("lvl"@).len(),
        d.abstracts[j].all_of("lvl"@)[k].attr_text("ilvl"@) == Some(level),
        forall|m: int|
            0 <= m < k ==> (#[trigger] d.abstracts[j].all_of("lvl"@)[m]).attr_text("ilvl"@) != Some(
                level,
            ),
    ensures
        number_of(p, d) == Some(d.nums[i]),
        abstract_of(p, d) == Some(d.abstracts[j]),
        level_of(p, d) == Some(d.abstracts[j].all_of("lvl"@)[k]),
{
    crate::written::law_the_first_of_an_id_is_found(d.nums, "numId"@, number, i);
    crate::written::law_the_first_of_an_id_is_found(d.abstracts, "abstractNumId"@, about, j);
    crate::written::law_the_first_of_an_id_is_found(
        d.abstracts[j].all_of("lvl"@),
        "ilvl"@,
        level,
        k,
    );
}

/// A number that no definition has leads nowhere.
pub proof fn law_a_number_without_a_definition(p: Node, d: Definitions, number: Seq<char>)
    requires
        chosen_number(p, d) == Some(number),
        forall|m: int|
            0 <= m < d.nums.len() ==> (#[trigger] d.nums[m]).attr_text("numId"@) != Some(number),
    ensures
        number_of(p, d) is None,
        abstract_of(p, d) is None,
        level_of(p, d) is None,
        counts_for(p, d, Count::Unresolved),
{
    crate::written::law_the_first_of_an_id_is_found(d.nums, "numId"@, number, 0);
}

/// What is told of a numbered paragraph: who says so, the numbers that it and its style name, and
/// where its number leads.
pub proof fn law_what_a_numbered_paragraph_says(
    r: NumberedRow,
    p: Node,
    index: int,
    d: Definitions,
    props: Node,
)
    requires
        r.describes(p, index, d),
        p.child_of("pPr"@) == Some(props),
    ensures
        r.index == index,
        props.child_of("numPr"@) is Some && named_number(style_holder(p, d)) is Some ==> r.from@
            == "both"@,
        props.child_of("numPr"@) is Some && named_number(style_holder(p, d)) is None ==> r.from@
            == "paragraph"@,
        props.child_of("numPr"@) is None ==> r.from@ == "style"@,
        text_in(r.para_num_id) == named_number(Some(props)),
        text_in(r.style_num_id) == named_number(style_holder(p, d)),
        r.para_num_id is Some ==> text_in(r.num_id) == text_in(r.para_num_id),
        r.para_num_id is None ==> text_in(r.num_id) == text_in(r.style_num_id),
        text_in(r.style) == said_by(props.child_of("pStyle"@), "val"@),
        r.resolved <==> number_of(p, d) is Some,
        r.abstract_found <==> abstract_of(p, d) is Some,
        number_of(p, d) matches Some(n) ==> text_in(r.abstract_id) == said_by(
            n.child_of("abstractNumId"@),
            "val"@,
        ),
        level_of(p, d) is None ==> r.level is None,
        level_of(p, d) matches Some(n) ==> (r.level matches Some(l) && l.describes(n)),
{
}

/// What a level writes: its number, the values of its children, its indent and its fonts.
pub proof fn law_what_a_level_says(l: Level, n: Node)
    requires
        l.describes(n),
    ensures
        text_in(l.ilvl) == n.attr_text("ilvl"@),
        pair_texts(l.written@) == values_of(n),
        n.child_of("pPr"@) is None ==> l.indent is None,
        n.child_of("pPr"@) matches Some(x) ==> table_in(l.indent) == table_if(x.child_of("ind"@)),
        n.child_of("rPr"@) is None ==> l.fonts is None,
        n.child_of("rPr"@) matches Some(x) ==> table_in(l.fonts) == table_if(x.child_of("rFonts"@)),
{
}

/// The values of children: the first of each name that writes one, without the holders of
/// properties.
pub proof fn law_which_values_are_written(c: Seq<Node>, n: int)
    requires
        0 <= n < c.len(),
    ensures
        values_upto(c, 0).len() == 0,
        c[n].local_name() == "pPr"@ || c[n].local_name() == "rPr"@ ==> values_upto(c, n + 1)
            == values_upto(c, n),
        c[n].attr_text("val"@) is None ==> values_upto(c, n + 1) == values_upto(c, n),
        named_in(values_upto(c, n), c[n].local_name()) ==> values_upto(c, n + 1) == values_upto(
            c,
            n,
        ),
        c[n].local_name() != "pPr"@ && c[n].local_name() != "rPr"@ && !named_in(
            values_upto(c, n),
            c[n].local_name(),
        ) && c[n].attr_text("val"@) is Some ==> values_upto(c, n + 1) == values_upto(c, n).push(
            (c[n].local_name(), c[n].attr_text("val"@)->0),
        ),
{
}

/// The definitions are the children of those names of the first element of the two parts, or of
/// the parts themselves where they have no such element.
pub proof fn law_where_definitions_stand(numbering: Node, styles: Node, n: Node, s: Node)
    requires
        numbering.child_of("numbering"@) == Some(n),
        styles.child_of("styles"@) == Some(s),
    ensures
        defined(Some(numbering), Some(styles)).nums == n.all_of("num"@),
        defined(Some(numbering), Some(styles)).abstracts == n.all_of("abstractNum"@),
        defined(Some(numbering), Some(styles)).styles == s.all_of("style"@),
        defined(None, None).nums.len() == 0,
        numbering.child_of("styles"@) is None ==> defined(None, Some(numbering)).styles
            == numbering.all_of("style"@),
{
}

/// The numbers of the report: over all numbered paragraphs, those that say so themselves alone,
/// those whose style alone does, those where both do, and those whose number leads nowhere.
pub proof fn law_what_numbering_is_counted_for(ps: Seq<Node>, at: Seq<int>, d: Definitions, n: int)
    requires
        0 <= n < at.len(),
        p_has_props(ps[at[n]]),
    ensures
        ({
            let p = ps[at[n]];
            let own = p.child_of("pPr"@)->0.child_of("numPr"@) is Some;
            let styled = named_number(style_holder(p, d)) is Some;
            &&& count_upto(ps, at, d, Count::OnParagraph, n + 1) == count_upto(
                ps,
                at,
                d,
                Count::OnParagraph,
                n,
            ) + if own && !styled {
                1nat
            } else {
                0nat
            }
            &&& count_upto(ps, at, d, Count::ViaStyle, n + 1) == count_upto(
                ps,
                at,
                d,
                Count::ViaStyle,
                n,
            ) + if !own && styled {
                1nat
            } else {
                0nat
            }
            &&& count_upto(ps, at, d, Count::Both, n + 1) == count_upto(ps, at, d, Count::Both, n)
                + if own && styled {
                1nat
            } else {
                0nat
            }
            &&& count_upto(ps, at, d, Count::Unresolved, n + 1) == count_upto(
                ps,
                at,
                d,
                Count::Unresolved,
                n,
            ) + if chosen_number(p, d) is Some && number_of(p, d) is None {
                1nat
            } else {
                0nat
            }
        }),
{
    reveal(one_if);
}

/// A paragraph has properties of its own.
pub open spec fn p_has_props(p: Node) -> bool {
    p.child_of("pPr"@) is Some
}

/// The report is over all paragraphs: those that are numbered are listed in their order.
pub proof fn law_what_a_numbering_report_says(
    r: Numbering,
    ps: Seq<Node>,
    d: Definitions,
    has_part: bool,
    limit: usize,
    n: int,
)
    requires
        r.describes(ps, d, has_part, limit),
        0 <= n < ps.len(),
    ensures
        r.part == has_part,
        r.checked == ps.len(),
        r.listed == numbered_upto(ps, d, ps.len() as int).len(),
        numbered(ps[n], d) ==> numbered_upto(ps, d, n + 1) == numbered_upto(ps, d, n).push(n),
        !numbered(ps[n], d) ==> numbered_upto(ps, d, n + 1) == numbered_upto(ps, d, n),
        r.on_paragraph == count_upto(
            ps,
            numbered_upto(ps, d, ps.len() as int),
            d,
            Count::OnParagraph,
            r.listed as int,
        ),
        r.via_style == count_upto(
            ps,
            numbered_upto(ps, d, ps.len() as int),
            d,
            Count::ViaStyle,
            r.listed as int,
        ),
        r.both == count_upto(
            ps,
            numbered_upto(ps, d, ps.len() as int),
            d,
            Count::Both,
            r.listed as int,
        ),
        r.unresolved == count_upto(
            ps,
            numbered_upto(ps, d, ps.len() as int),
            d,
            Count::Unresolved,
            r.listed as int,
        ),
        r.nums == firsts(d.nums, "numId"@, d.nums.len() as int).len(),
        r.abstracts == firsts(d.abstracts, "abstractNumId"@, d.abstracts.len() as int).len(),
{
}

/// What is told of a definition: its number, what its abstract definition writes, whether any
/// paragraph goes by it, and its levels.
pub proof fn law_what_a_definition_says(
    r: NumDefinition,
    num: Node,
    d: Definitions,
    used: Seq<Seq<char>>,
    limit: usize,
    j: int,
    about: Seq<char>,
)
    requires
        r.describes(num, d, used, limit),
        said_by(num.child_of("abstractNumId"@), "val"@) == Some(about),
        0 <= j < d.abstracts.len(),
        d.abstracts[j].attr_text("abstractNumId"@) == Some(about),
        forall|m: int|
            0 <= m < j ==> (#[trigger] d.abstracts[m]).attr_text("abstractNumId"@) != Some(about),
    ensures
        text_in(r.num_id) == num.attr_text("numId"@),
        text_in(r.abstract_id) == Some(about),
        table_in(r.written) == Some(values_of(d.abstracts[j])),
        num.attr_text("numId"@) matches Some(id) ==> (r.referenced <==> used.contains(id)),
        num.attr_text("numId"@) is None ==> !r.referenced,
        r.levels@.len() <= d.abstracts[j].all_of("lvl"@).len(),
        forall|i: int|
            0 <= i < r.levels@.len() ==> (#[trigger] r.levels@[i]).describes(
                d.abstracts[j].all_of("lvl"@)[i],
            ),
{
    crate::written::law_the_first_of_an_id_is_found(d.abstracts, "abstractNumId"@, about, j);
}

} // verus!
