//! The cells of OpenDocument tables.
//!
//! A cell has no name: its place is counted. One element can stand for many columns and one row
//! for many rows, and the empty end of a row is written as one element for some sixteen thousand
//! columns. Whether a table, a row or a column is hidden can stand on its style. The places that
//! a merged cell covers hold nothing and are counted apart.

use crate::biff::link::{cell_name, push_letters};
use crate::comments::{join_lines, lined};
use crate::lists::{count_those, each, first, first_from, lemma_filter_take, tally};
use crate::odf::{attr_of, attr_said};
use crate::text::{dec, push_large, same, texts};
use crate::words::{parse_unsigned, trim, trimmed, unsigned_value};
use crate::written::{find_below, first_below, node_in, owned, pick_nodes, slice_in, text_in};
use crate::xml::{nodes, Node};
use vstd::prelude::*;

verus! {

broadcast use {crate::text::lemma_texts_push, crate::xml::lemma_nodes_push};

/// How many cell elements of one row are read.
pub const MOST_CELLS: usize = 20_000;

/// A cell with something in it.
#[derive(Debug, Clone)]
pub struct Cell {
    pub reference: String,
    pub value_type: String,
    pub value: Option<String>,
    pub date_value: Option<String>,
    pub boolean_value: Option<String>,
    pub formula: Option<String>,
    pub text: String,
    /// The name of the cell style; the format stands one step behind it.
    pub style_name: Option<String>,
    pub columns_spanned: usize,
    pub rows_spanned: usize,
}

/// A remark in a cell.
#[derive(Debug, Clone)]
pub struct Comment {
    pub reference: String,
    pub author: Option<String>,
    pub date: Option<String>,
    pub text: String,
}

/// A table.
#[derive(Debug, Clone)]
pub struct Sheet {
    pub name: String,
    pub visible: bool,
    pub rows: u128,
    pub columns: u128,
    pub cells: Vec<Cell>,
    pub covered: u128,
    pub merged: usize,
    pub hidden_rows: u128,
    pub hidden_cols: u128,
    pub comments: Vec<Comment>,
}

/// The tables of a document.
#[derive(Debug, Clone)]
pub struct Book {
    pub sheets: Vec<Sheet>,
    pub notes: Vec<String>,
}

/// How many an element stands for: what it writes, or one.
pub open spec fn times(n: Node, want: Seq<char>) -> int {
    match attr_said(n, want) {
        Some(raw) => match unsigned_value(trimmed(raw), usize::MAX as int) {
            Some(v) => if v > 0 {
                v
            } else {
                1
            },
            None => 1,
        },
        None => 1,
    }
}

fn repeated(n: &Node, want: &str) -> (r: usize)
    ensures
        r == times(*n, want@),
        r >= 1,
{
    match attr_of(n, want) {
        Some(raw) => match parse_unsigned(trim(raw), usize::MAX as u64) {
            Some(v) => if v > 0 {
                v as usize
            } else {
                1
            },
            None => 1,
        },
        None => 1,
    }
}

/// The texts of the paragraphs in a list of nodes and below them. Remarks do not count.
pub open spec fn lines_in(c: Seq<Node>) -> Seq<Seq<char>>
    decreases c,
{
    if c.len() == 0 {
        Seq::empty()
    } else {
        let one = c.last();
        let own = if one.local_name() == "annotation"@ {
            Seq::empty()
        } else if one.local_name() == "p"@ {
            seq![trimmed(one.full_text())]
        } else {
            lines_in(one.children@)
        };
        lines_in(c.drop_last()) + own
    }
}

fn plain_paragraphs(node: &Node, out: &mut Vec<String>)
    ensures
        texts(final(out)@) == texts(old(out)@) + lines_in(node.children@),
    decreases node,
{
    let ghost c = node.children@;
    let ghost start = texts(out@);
    let mut i: usize = 0;
    assert(c.take(0) =~= Seq::empty());
    assert(start + lines_in(c.take(0)) =~= start);
    while i < node.children.len()
        invariant
            i <= node.children@.len(),
            c == node.children@,
            texts(out@) == start + lines_in(c.take(i as int)),
        decreases node.children@.len() - i,
    {
        let one: &Node = &node.children[i];
        let ghost done = c.take(i + 1);
        assert(done.drop_last() =~= c.take(i as int));
        assert(done.last() == *one);
        if one.is("annotation") {
        } else if one.is("p") {
            let all: String = one.text();
            out.push(trim(all.as_str()).to_owned());
        } else {
            plain_paragraphs(one, out);
        }
        assert(texts(out@) =~= start + lines_in(done));
        i += 1;
    }
    assert(c.take(i as int) =~= c);
}

/// The text of a node: its paragraphs, one to a line.
pub open spec fn text_of_node(n: Node) -> Seq<char> {
    lined(lines_in(n.children@))
}

fn read_text(n: &Node) -> (r: String)
    ensures
        r@ == text_of_node(*n),
{
    let mut lines: Vec<String> = Vec::new();
    plain_paragraphs(n, &mut lines);
    assert(texts(lines@) =~= lines_in(n.children@));
    join_lines(&lines)
}

/// The remarks in a list of nodes and below them. A remark is not looked into.
pub open spec fn remarks_in(c: Seq<Node>) -> Seq<Node>
    decreases c,
{
    if c.len() == 0 {
        Seq::empty()
    } else {
        let one = c.last();
        let own = if one.local_name() == "annotation"@ {
            seq![one]
        } else {
            remarks_in(one.children@)
        };
        remarks_in(c.drop_last()) + own
    }
}

fn annotation_nodes<'a>(node: &'a Node, out: &mut Vec<&'a Node>)
    ensures
        nodes(final(out)@) == nodes(old(out)@) + remarks_in(node.children@),
    decreases node,
{
    let ghost c = node.children@;
    let ghost start = nodes(out@);
    let mut i: usize = 0;
    assert(c.take(0) =~= Seq::empty());
    assert(start + remarks_in(c.take(0)) =~= start);
    while i < node.children.len()
        invariant
            i <= node.children@.len(),
            c == node.children@,
            nodes(out@) == start + remarks_in(c.take(i as int)),
        decreases node.children@.len() - i,
    {
        let one: &'a Node = &node.children[i];
        let ghost done = c.take(i + 1);
        assert(done.drop_last() =~= c.take(i as int));
        assert(done.last() == *one);
        if one.is("annotation") {
            out.push(one);
        } else {
            annotation_nodes(one, out);
        }
        assert(nodes(out@) =~= start + remarks_in(done));
        i += 1;
    }
    assert(c.take(i as int) =~= c);
}

/// What the first element called `want` says; a blank text says nothing.
pub open spec fn field_of(n: Node, want: Seq<char>) -> Option<Seq<char>> {
    match first_below(n, want) {
        Some(x) => if trimmed(x.full_text()).len() > 0 {
            Some(trimmed(x.full_text()))
        } else {
            None
        },
        None => None,
    }
}

fn note_field(n: &Node, want: &str) -> (r: Option<String>)
    ensures
        text_in(r) == field_of(*n, want@),
{
    match find_below(n, want) {
        Some(x) => {
            let all: String = x.text();
            let t: &str = trim(all.as_str());
            if t.unicode_len() > 0 {
                Some(t.to_owned())
            } else {
                None
            }
        },
        None => None,
    }
}

/// When a remark was made.
pub open spec fn date_of(n: Node) -> Option<Seq<char>> {
    match field_of(n, "date-string"@) {
        Some(t) => Some(t),
        None => field_of(n, "date"@),
    }
}

/// The kind of value of a cell. One that says none is told by its text.
pub open spec fn kind_of(cell: Node) -> Seq<char> {
    match attr_said(cell, "value-type"@) {
        Some(t) => t,
        None => if trimmed(cell.full_text()).len() == 0 {
            "empty"@
        } else {
            "string"@
        },
    }
}

fn value_type(cell: &Node) -> (r: String)
    ensures
        r@ == kind_of(*cell),
{
    match attr_of(cell, "value-type") {
        Some(t) => t.to_owned(),
        None => {
            let all: String = cell.text();
            if trim(all.as_str()).unicode_len() == 0 {
                "empty".to_owned()
            } else {
                "string".to_owned()
            }
        },
    }
}

/// A place that another cell covers.
pub open spec fn is_covered(n: Node) -> bool {
    n.local_name() == "covered-table-cell"@
}

/// The cell elements of a row.
pub open spec fn cells_of(row: Node) -> Seq<Node> {
    row.children@.filter(|n: Node| n.local_name() == "table-cell"@ || is_covered(n))
}

fn pick_cells<'a>(row: &'a Node) -> (r: Vec<&'a Node>)
    ensures
        nodes(r@) == cells_of(*row),
        r@.len() == cells_of(*row).len(),
{
    let kids: Vec<&'a Node> = crate::written::kids_of(row);
    let r: Vec<&'a Node> = pick_nodes(
        &kids,
        |n: &Node| -> (b: bool)
            ensures
                b == (n.local_name() == "table-cell"@ || is_covered(*n))
            { n.is("table-cell") || n.is("covered-table-cell") },
        Ghost(|n: Node| n.local_name() == "table-cell"@ || is_covered(n)),
    );
    assert(nodes(r@).len() == r@.len());
    r
}

/// In which column a cell of a row stands.
pub open spec fn column_at(c: Seq<Node>, k: int) -> int
    decreases k,
{
    if k <= 0 {
        0
    } else {
        column_at(c, k - 1) + times(c[k - 1], "number-columns-repeated"@)
    }
}

/// In which row the first of what a row element stands for is.
pub open spec fn row_at(rows: Seq<Node>, n: int) -> int
    decreases n,
{
    if n <= 0 {
        0
    } else {
        row_at(rows, n - 1) + times(rows[n - 1], "number-rows-repeated"@)
    }
}

/// How many cell elements of a row are read.
pub open spec fn kept_in(rows: Seq<Node>, i: int) -> int {
    let n = cells_of(rows[i]).len() as int;
    if n <= MOST_CELLS {
        n
    } else {
        MOST_CELLS as int
    }
}

/// A cell and its place.
pub struct Spot {
    pub row: int,
    pub col: int,
    pub node: Node,
}

/// The cells among the first `k` elements of a row. Covered places are left out.
pub open spec fn spots_in(c: Seq<Node>, row: int, k: int) -> Seq<Spot>
    decreases k,
{
    if k <= 0 {
        Seq::empty()
    } else if is_covered(c[k - 1]) {
        spots_in(c, row, k - 1)
    } else {
        spots_in(c, row, k - 1).push(Spot { row, col: column_at(c, k - 1), node: c[k - 1] })
    }
}

/// The cells of the first `n` rows.
pub open spec fn spots(rows: Seq<Node>, n: int) -> Seq<Spot>
    decreases n,
{
    if n <= 0 {
        Seq::empty()
    } else {
        spots(rows, n - 1) + spots_in(
            cells_of(rows[n - 1]),
            row_at(rows, n - 1),
            kept_in(rows, n - 1),
        )
    }
}

/// How many covered places there are among the first `k` elements of a row.
pub open spec fn covered_in(c: Seq<Node>, k: int) -> nat
    decreases k,
{
    if k <= 0 {
        0
    } else {
        covered_in(c, k - 1) + if is_covered(c[k - 1]) {
            1nat
        } else {
            0nat
        }
    }
}

/// How many covered places there are in the first `n` rows.
pub open spec fn covered(rows: Seq<Node>, n: int) -> nat
    decreases n,
{
    if n <= 0 {
        0
    } else {
        covered(rows, n - 1) + covered_in(cells_of(rows[n - 1]), kept_in(rows, n - 1))
    }
}

/// There is something in the cell.
pub open spec fn is_filled(n: Node) -> bool {
    text_of_node(n).len() > 0 || attr_said(n, "value"@) is Some || attr_said(n, "date-value"@)
        is Some || attr_said(n, "boolean-value"@) is Some || attr_said(n, "formula"@) is Some
}

fn filled(n: &Node) -> (r: bool)
    ensures
        r == is_filled(*n),
{
    read_text(n).as_str().unicode_len() > 0 || attr_of(n, "value").is_some() || attr_of(
        n,
        "date-value",
    ).is_some() || attr_of(n, "boolean-value").is_some() || attr_of(n, "formula").is_some()
}

/// The cells with something in them.
pub open spec fn filled_of(s: Seq<Spot>) -> Seq<Spot> {
    s.filter(|p: Spot| is_filled(p.node))
}

impl Cell {
    pub open spec fn describes(self, p: Spot) -> bool {
        &&& self.reference@ == cell_name(p.row, p.col)
        &&& self.value_type@ == kind_of(p.node)
        &&& text_in(self.value) == attr_said(p.node, "value"@)
        &&& text_in(self.date_value) == attr_said(p.node, "date-value"@)
        &&& text_in(self.boolean_value) == attr_said(p.node, "boolean-value"@)
        &&& text_in(self.formula) == attr_said(p.node, "formula"@)
        &&& self.text@ == text_of_node(p.node)
        &&& text_in(self.style_name) == attr_said(p.node, "style-name"@)
        &&& self.columns_spanned == times(p.node, "number-columns-spanned"@)
        &&& self.rows_spanned == times(p.node, "number-rows-spanned"@)
    }
}

/// A remark and the place of its cell.
pub struct Remark {
    pub row: int,
    pub col: int,
    pub node: Node,
}

/// The remarks of the first `n` cells.
pub open spec fn remarks(s: Seq<Spot>, n: int) -> Seq<Remark>
    decreases n,
{
    if n <= 0 {
        Seq::empty()
    } else {
        let own = remarks_in(s[n - 1].node.children@);
        remarks(s, n - 1) + Seq::new(
            own.len(),
            |k: int| Remark { row: s[n - 1].row, col: s[n - 1].col, node: own[k] },
        )
    }
}

impl Comment {
    pub open spec fn describes(self, r: Remark) -> bool {
        &&& self.reference@ == cell_name(r.row, r.col)
        &&& text_in(self.author) == field_of(r.node, "creator"@)
        &&& text_in(self.date) == date_of(r.node)
        &&& self.text@ == text_of_node(r.node)
    }
}

fn read_reference(row: u128, col: u128) -> (r: String)
    requires
        row < u128::MAX,
    ensures
        r@ == cell_name(row as int, col as int),
{
    let mut out: String = String::new();
    push_letters(&mut out, col);
    push_large(&mut out, row + 1);
    assert(out@ =~= cell_name(row as int, col as int));
    out
}

/// A cell and its place.
struct Held<'a> {
    row: u128,
    col: u128,
    node: &'a Node,
}

impl Held<'_> {
    spec fn spot(self) -> Spot {
        Spot { row: self.row as int, col: self.col as int, node: *self.node }
    }
}

spec fn held(v: Seq<Held>) -> Seq<Spot> {
    Seq::new(v.len(), |i: int| v[i].spot())
}

spec fn in_range(v: Seq<Held>) -> bool {
    forall|i: int| 0 <= i < v.len() ==> (#[trigger] v[i]).row < u128::MAX && v[i].col < u128::MAX
}

fn read_cell(h: &Held) -> (r: Cell)
    requires
        h.row < u128::MAX,
    ensures
        r.describes(h.spot()),
{
    let n: &Node = h.node;
    Cell {
        reference: read_reference(h.row, h.col),
        value_type: value_type(n),
        value: owned(attr_of(n, "value")),
        date_value: owned(attr_of(n, "date-value")),
        boolean_value: owned(attr_of(n, "boolean-value")),
        formula: owned(attr_of(n, "formula")),
        text: read_text(n),
        style_name: owned(attr_of(n, "style-name")),
        columns_spanned: repeated(n, "number-columns-spanned"),
        rows_spanned: repeated(n, "number-rows-spanned"),
    }
}

fn read_comment(row: u128, col: u128, n: &Node) -> (r: Comment)
    requires
        row < u128::MAX,
    ensures
        r.describes(Remark { row: row as int, col: col as int, node: *n }),
{
    let date: Option<String> = match note_field(n, "date-string") {
        Some(t) => Some(t),
        None => note_field(n, "date"),
    };
    Comment {
        reference: read_reference(row, col),
        author: note_field(n, "creator"),
        date,
        text: read_text(n),
    }
}

/// Appends the cells of a row and tells how many places are covered.
fn add_row<'a>(cells: &Vec<&'a Node>, row: u128, keep: usize, out: &mut Vec<Held<'a>>) -> (r: usize)
    requires
        keep <= cells@.len(),
        row < u128::MAX,
        in_range(old(out)@),
    ensures
        held(final(out)@) == held(old(out)@) + spots_in(nodes(cells@), row as int, keep as int),
        in_range(final(out)@),
        r == covered_in(nodes(cells@), keep as int),
        r <= keep,
{
    let ghost c = nodes(cells@);
    let ghost start = held(out@);
    let mut col: u128 = 0;
    let mut hidden: usize = 0;
    let mut k: usize = 0;
    assert(start + spots_in(c, row as int, 0) =~= start);
    while k < keep
        invariant
            k <= keep <= cells@.len(),
            row < u128::MAX,
            c == nodes(cells@),
            col == column_at(c, k as int),
            col <= 0xffff_ffff_ffff_ffff * k,
            hidden == covered_in(c, k as int),
            hidden <= k,
            in_range(out@),
            held(out@) == start + spots_in(c, row as int, k as int),
        decreases keep - k,
    {
        let one: &'a Node = cells[k];
        assert(c[k as int] == *one);
        let ghost had = held(out@);
        if one.is("covered-table-cell") {
            hidden += 1;
        } else {
            out.push(Held { row, col, node: one });
            assert(held(out@) =~= had.push(
                Spot { row: row as int, col: col as int, node: *one },
            ));
        }
        assert(held(out@) =~= start + spots_in(c, row as int, k + 1));
        let span: usize = repeated(one, "number-columns-repeated");
        col = col + span as u128;
        k += 1;
    }
    hidden
}

/// One of the cells of the row that are read has something in it.
pub open spec fn is_used(rows: Seq<Node>, i: int) -> bool {
    filled_of(spots_in(cells_of(rows[i]), row_at(rows, i), kept_in(rows, i))).len() > 0
}

/// How many rows the row elements with something in them stand for.
pub open spec fn used_rows(rows: Seq<Node>, n: int) -> int
    decreases n,
{
    if n <= 0 {
        0
    } else {
        used_rows(rows, n - 1) + if is_used(rows, n - 1) {
            times(rows[n - 1], "number-rows-repeated"@)
        } else {
            0
        }
    }
}

/// The furthest column with something in it, counted from one.
pub open spec fn widest(s: Seq<Spot>, n: int) -> int
    decreases n,
{
    if n <= 0 {
        0
    } else if s[n - 1].col + 1 > widest(s, n - 1) {
        s[n - 1].col + 1
    } else {
        widest(s, n - 1)
    }
}

/// The cell spans more than its own place.
pub open spec fn is_merged(n: Node) -> bool {
    times(n, "number-columns-spanned"@) > 1 || times(n, "number-rows-spanned"@) > 1
}

fn any_filled(v: &Vec<Held>, from: usize, Ghost(s): Ghost<Seq<Spot>>) -> (r: bool)
    requires
        from <= v@.len(),
        held(v@).skip(from as int) == s,
    ensures
        r == (filled_of(s).len() > 0),
{
    let ghost p = |x: Spot| is_filled(x.node);
    let mut i: usize = from;
    assert(s.take(0).filter(p).len() == 0) by {
        reveal(Seq::filter);
    }
    while i < v.len()
        invariant
            from <= i <= v@.len(),
            held(v@).skip(from as int) == s,
            p == (|x: Spot| is_filled(x.node)),
            s.take(i - from).filter(p).len() == 0,
        decreases v@.len() - i,
    {
        assert(s[i - from] == v@[i as int].spot());
        proof {
            lemma_filter_take(s, p, i - from);
        }
        if filled(v[i].node) {
            proof {
                assert(p(s[i - from]));
                s.filter_lemma(p);
                assert(s.filter(p).contains(s[i - from]));
            }
            return true;
        }
        i += 1;
    }
    assert(s.take(i - from) =~= s);
    false
}

/// A row holds more cell elements than are read of one.
pub open spec fn is_overfull(rows: Seq<Node>, i: int) -> bool {
    cells_of(rows[i]).len() > MOST_CELLS
}

/// What is said of the overfull rows among the first `n`.
pub open spec fn cut_notes(name: Seq<char>, rows: Seq<Node>, n: int) -> Seq<Seq<char>>
    decreases n,
{
    if n <= 0 {
        Seq::empty()
    } else {
        let before = cut_notes(name, rows, n - 1);
        if is_overfull(rows, n - 1) {
            before.push(
                "表 "@ + name + " 的格子元素多到 "@ + dec(MOST_CELLS as nat + 1)
                    + " 个，后面不走了"@,
            )
        } else {
            before
        }
    }
}

fn cut_note(name: &str, number: u128) -> (r: String)
    ensures
        r@ == "表 "@ + name@ + " 的格子元素多到 "@ + dec(number as nat) + " 个，后面不走了"@,
{
    let mut out: String = "表 ".to_owned();
    out.append(name);
    out.append(" 的格子元素多到 ");
    push_large(&mut out, number);
    out.append(" 个，后面不走了");
    out
}

/// A row or column style that hides what names it.
pub open spec fn hides(style: Node, name: Seq<char>) -> bool {
    let props = if attr_said(style, "family"@) == Some("table-row"@) {
        style.child_of("table-row-properties"@)
    } else if attr_said(style, "family"@) == Some("table-column"@) {
        style.child_of("table-column-properties"@)
    } else {
        None
    };
    name_of(style) == name && match props {
        Some(p) => attr_said(p, "visibility"@) == Some("collapse"@),
        None => false,
    }
}

/// The name of a style; the empty one where it has none.
pub open spec fn name_of(style: Node) -> Seq<char> {
    match attr_said(style, "name"@) {
        Some(t) => t,
        None => Seq::empty(),
    }
}

/// A style of that name hides what names it.
pub open spec fn is_folded(styles: Seq<Node>, name: Option<Seq<char>>) -> bool {
    match name {
        Some(want) => exists|i: int| 0 <= i < styles.len() && hides(#[trigger] styles[i], want),
        None => false,
    }
}

/// The row or column is hidden, by itself or by its style.
pub open spec fn is_hidden(n: Node, styles: Seq<Node>) -> bool {
    attr_said(n, "visibility"@) == Some("collapse"@) || is_folded(
        styles,
        attr_said(n, "style-name"@),
    )
}

fn has_name(style: &Node, name: &str) -> (r: bool)
    ensures
        r == (name_of(*style) == name@),
{
    match attr_of(style, "name") {
        Some(t) => same(t, name),
        None => {
            let none: &str = "";
            proof {
                reveal_strlit("");
                assert(none@ =~= Seq::empty());
            }
            same(none, name)
        },
    }
}

fn says_word(n: Option<&Node>, key: &str, word: &str) -> (r: bool)
    ensures
        r == match node_in(n) {
            Some(x) => attr_said(x, key@) == Some(word@),
            None => false,
        },
{
    match n {
        Some(x) => match attr_of(x, key) {
            Some(t) => same(t, word),
            None => false,
        },
        None => false,
    }
}

fn style_hides(style: &Node, name: &str) -> (r: bool)
    ensures
        r == hides(*style, name@),
{
    let props: Option<&Node> = if says_word(Some(style), "family", "table-row") {
        style.child("table-row-properties")
    } else if says_word(Some(style), "family", "table-column") {
        style.child("table-column-properties")
    } else {
        None
    };
    has_name(style, name) && says_word(props, "visibility", "collapse")
}

fn folded(styles: &Vec<&Node>, name: Option<&str>) -> (r: bool)
    ensures
        r == is_folded(nodes(styles@), slice_in(name)),
{
    let want: &str = match name {
        Some(w) => w,
        None => {
            return false;
        },
    };
    let ghost w = slice_in(name).unwrap();
    let ghost s = nodes(styles@);
    let mut i: usize = 0;
    while i < styles.len()
        invariant
            i <= styles@.len(),
            s == nodes(styles@),
            slice_in(name) == Some(w),
            w == want@,
            forall|k: int| 0 <= k < i ==> !hides(#[trigger] s[k], w),
        decreases styles@.len() - i,
    {
        assert(s[i as int] == *styles@[i as int]);
        if style_hides(styles[i], want) {
            return true;
        }
        i += 1;
    }
    false
}

fn hidden(n: &Node, styles: &Vec<&Node>) -> (r: bool)
    ensures
        r == is_hidden(*n, nodes(styles@)),
{
    says_word(Some(n), "visibility", "collapse") || folded(styles, attr_of(n, "style-name"))
}

/// How many rows or columns the hidden ones among the first `n` stand for.
pub open spec fn hidden_upto(c: Seq<Node>, styles: Seq<Node>, key: Seq<char>, n: int) -> int
    decreases n,
{
    if n <= 0 {
        0
    } else {
        hidden_upto(c, styles, key, n - 1) + if is_hidden(c[n - 1], styles) {
            times(c[n - 1], key)
        } else {
            0
        }
    }
}

fn count_hidden(v: &Vec<&Node>, styles: &Vec<&Node>, key: &str) -> (r: u128)
    ensures
        r == hidden_upto(nodes(v@), nodes(styles@), key@, v@.len() as int),
{
    let ghost c = nodes(v@);
    let size: usize = v.len();
    let mut sum: u128 = 0;
    let mut i: usize = 0;
    while i < size
        invariant
            i <= size,
            size == v@.len(),
            c == nodes(v@),
            sum == hidden_upto(c, nodes(styles@), key@, i as int),
            sum <= 0xffff_ffff_ffff_ffff * i,
        decreases size - i,
    {
        assert(c[i as int] == *v@[i as int]);
        if hidden(v[i], styles) {
            let many: usize = repeated(v[i], key);
            sum = sum + many as u128;
        }
        i += 1;
    }
    sum
}

/// The table is shown: the style that it names does not say otherwise.
pub open spec fn is_shown(table: Node, styles: Seq<Node>) -> bool {
    match attr_said(table, "style-name"@) {
        Some(want) => match first(
            styles,
            |s: Node| attr_said(s, "family"@) == Some("table"@) && name_of(s) == want,
        ) {
            Some(i) => match styles[i].child_of("table-properties"@) {
                Some(p) => attr_said(p, "display"@) != Some("false"@),
                None => true,
            },
            None => true,
        },
        None => true,
    }
}

fn shown(table: &Node, styles: &Vec<&Node>) -> (r: bool)
    ensures
        r == is_shown(*table, nodes(styles@)),
{
    let want: &str = match attr_of(table, "style-name") {
        Some(w) => w,
        None => {
            return true;
        },
    };
    let ghost w = want@;
    let ghost s = nodes(styles@);
    let ghost p = |x: Node| attr_said(x, "family"@) == Some("table"@) && name_of(x) == w;
    let mut i: usize = 0;
    while i < styles.len()
        invariant
            i <= styles@.len(),
            s == nodes(styles@),
            w == want@,
            attr_said(*table, "style-name"@) == Some(w),
            p == (|x: Node| attr_said(x, "family"@) == Some("table"@) && name_of(x) == w),
            first(s, p) == first_from(s, p, i as int),
        decreases styles@.len() - i,
    {
        assert(s[i as int] == *styles@[i as int]);
        if says_word(Some(styles[i]), "family", "table") && has_name(styles[i], want) {
            return !says_word(styles[i].child("table-properties"), "display", "false");
        }
        i += 1;
    }
    true
}

/// The rows of a table.
pub open spec fn rows_of(table: Node) -> Seq<Node> {
    table.all_of("table-row"@)
}

/// The cells of a table.
pub open spec fn spots_of(table: Node) -> Seq<Spot> {
    spots(rows_of(table), rows_of(table).len() as int)
}

impl Sheet {
    pub open spec fn describes(self, table: Node, styles: Seq<Node>) -> bool {
        let rows = rows_of(table);
        let n = rows.len() as int;
        let full = filled_of(spots_of(table));
        let cols = table.all_of("table-column"@);
        let notes = remarks(spots_of(table), spots_of(table).len() as int);
        &&& self.name@ == name_of(table)
        &&& self.visible == is_shown(table, styles)
        &&& self.rows == used_rows(rows, n)
        &&& self.columns == widest(full, full.len() as int)
        &&& self.cells@.len() == full.len()
        &&& forall|i: int| 0 <= i < full.len() ==> (#[trigger] self.cells@[i]).describes(full[i])
        &&& self.covered == covered(rows, n)
        &&& self.merged == tally(|i: int| is_merged(full[i].node), full.len() as int)
        &&& self.hidden_rows == hidden_upto(rows, styles, "number-rows-repeated"@, n)
        &&& self.hidden_cols == hidden_upto(
            cols,
            styles,
            "number-columns-repeated"@,
            cols.len() as int,
        )
        &&& self.comments@.len() == notes.len()
        &&& forall|i: int|
            0 <= i < notes.len() ==> (#[trigger] self.comments@[i]).describes(notes[i])
    }
}

/// What was read of the rows of a table.
struct Read<'a> {
    cells: Vec<Held<'a>>,
    covered: u128,
    used: u128,
    notes: Vec<String>,
}

impl Read<'_> {
    spec fn describes(self, name: Seq<char>, rows: Seq<Node>, n: int) -> bool {
        &&& held(self.cells@) == spots(rows, n)
        &&& in_range(self.cells@)
        &&& self.covered == covered(rows, n)
        &&& self.used == used_rows(rows, n)
        &&& texts(self.notes@) == cut_notes(name, rows, n)
    }
}

fn read_rows<'a>(name: &str, rows: &Vec<&'a Node>) -> (r: Read<'a>)
    ensures
        r.describes(name@, nodes(rows@), rows@.len() as int),
{
    let ghost rs = nodes(rows@);
    let size: usize = rows.len();
    let mut cells: Vec<Held<'a>> = Vec::new();
    let mut hidden: u128 = 0;
    let mut used: u128 = 0;
    let mut notes: Vec<String> = Vec::new();
    let mut at: u128 = 0;
    let mut i: usize = 0;
    assert(held(cells@) =~= spots(rs, 0));
    assert(texts(notes@) =~= cut_notes(name@, rs, 0));
    while i < size
        invariant
            i <= size,
            size == rows@.len(),
            rs == nodes(rows@),
            held(cells@) == spots(rs, i as int),
            in_range(cells@),
            hidden == covered(rs, i as int),
            hidden <= MOST_CELLS * i,
            used == used_rows(rs, i as int),
            used <= 0xffff_ffff_ffff_ffff * i,
            at == row_at(rs, i as int),
            at <= 0xffff_ffff_ffff_ffff * i,
            texts(notes@) == cut_notes(name@, rs, i as int),
        decreases size - i,
    {
        let row: &'a Node = rows[i];
        assert(rs[i as int] == *row);
        let own: Vec<&'a Node> = pick_cells(row);
        let keep: usize = if own.len() <= MOST_CELLS {
            own.len()
        } else {
            MOST_CELLS
        };
        assert(keep == kept_in(rs, i as int));
        let ghost had = held(cells@);
        let ghost more = spots_in(cells_of(*row), at as int, keep as int);
        let from: usize = cells.len();
        let more_hidden: usize = add_row(&own, at, keep, &mut cells);
        assert(held(cells@) == had + more);
        assert(held(cells@).skip(from as int) =~= more) by {
            assert(had.len() == from);
        }
        hidden = hidden + more_hidden as u128;
        let many: usize = repeated(row, "number-rows-repeated");
        if any_filled(&cells, from, Ghost(more)) {
            used = used + many as u128;
        }
        if own.len() > MOST_CELLS {
            notes.push(cut_note(name, MOST_CELLS as u128 + 1));
        }
        at = at + many as u128;
        i += 1;
    }
    Read { cells, covered: hidden, used, notes }
}

fn pick_filled<'a>(v: &Vec<Held<'a>>) -> (r: Vec<Held<'a>>)
    requires
        in_range(v@),
    ensures
        held(r@) == filled_of(held(v@)),
        r@.len() == filled_of(held(v@)).len(),
        in_range(r@),
{
    let ghost s = held(v@);
    let ghost p = |x: Spot| is_filled(x.node);
    let mut out: Vec<Held<'a>> = Vec::new();
    let mut i: usize = 0;
    assert(held(out@) =~= s.take(0).filter(p)) by {
        reveal(Seq::filter);
    }
    while i < v.len()
        invariant
            i <= v@.len(),
            s == held(v@),
            in_range(v@),
            p == (|x: Spot| is_filled(x.node)),
            held(out@) == s.take(i as int).filter(p),
            in_range(out@),
        decreases v@.len() - i,
    {
        assert(s[i as int] == v@[i as int].spot());
        proof {
            lemma_filter_take(s, p, i as int);
        }
        if filled(v[i].node) {
            let ghost had = held(out@);
            assert(v@[i as int].row < u128::MAX && v@[i as int].col < u128::MAX);
            out.push(Held { row: v[i].row, col: v[i].col, node: v[i].node });
            assert(held(out@) =~= had.push(s[i as int]));
        }
        i += 1;
    }
    assert(s.take(i as int) =~= s);
    assert(held(out@).len() == out@.len());
    out
}

fn find_widest(v: &Vec<Held>) -> (r: u128)
    requires
        in_range(v@),
    ensures
        r == widest(held(v@), v@.len() as int),
{
    let ghost s = held(v@);
    let mut most: u128 = 0;
    let mut i: usize = 0;
    while i < v.len()
        invariant
            i <= v@.len(),
            s == held(v@),
            in_range(v@),
            most == widest(s, i as int),
        decreases v@.len() - i,
    {
        assert(s[i as int] == v@[i as int].spot());
        assert(v@[i as int].col < u128::MAX);
        if v[i].col + 1 > most {
            most = v[i].col + 1;
        }
        i += 1;
    }
    most
}

fn read_comments(v: &Vec<Held>) -> (r: Vec<Comment>)
    requires
        in_range(v@),
    ensures
        r@.len() == remarks(held(v@), v@.len() as int).len(),
        forall|i: int|
            0 <= i < r@.len() ==> (#[trigger] r@[i]).describes(
                remarks(held(v@), v@.len() as int)[i],
            ),
{
    let ghost s = held(v@);
    let mut out: Vec<Comment> = Vec::new();
    let mut i: usize = 0;
    while i < v.len()
        invariant
            i <= v@.len(),
            s == held(v@),
            in_range(v@),
            out@.len() == remarks(s, i as int).len(),
            forall|k: int|
                0 <= k < out@.len() ==> (#[trigger] out@[k]).describes(remarks(s, i as int)[k]),
        decreases v@.len() - i,
    {
        assert(s[i as int] == v@[i as int].spot());
        assert(v@[i as int].row < u128::MAX);
        let row: u128 = v[i].row;
        let col: u128 = v[i].col;
        let mut found: Vec<&Node> = Vec::new();
        annotation_nodes(v[i].node, &mut found);
        let ghost own = remarks_in(s[i as int].node.children@);
        assert(nodes(found@) =~= own);
        assert(nodes(found@).len() == found@.len());
        let ghost before = remarks(s, i as int);
        let ghost more = Seq::new(
            own.len(),
            |k: int| Remark { row: s[i as int].row, col: s[i as int].col, node: own[k] },
        );
        let mut rows: Vec<Comment> = each(
            &found,
            found.len(),
            |k: usize, n: &&Node| -> (r: Comment)
                requires
                    row < u128::MAX
                ensures
                    r.describes(Remark { row: row as int, col: col as int, node: **n })
                { read_comment(row, col, n) },
        );
        assert forall|k: int| 0 <= k < rows@.len() implies (#[trigger] rows@[k]).describes(
            more[k],
        ) by {
            assert(nodes(found@)[k] == *found@[k]);
        }
        assert(remarks(s, i + 1) =~= before + more);
        out.append(&mut rows);
        i += 1;
    }
    out
}

/// Reads a table and what is said of it.
fn read_sheet(table: &Node, styles: &Vec<&Node>) -> (r: (Sheet, Vec<String>))
    ensures
        r.0.describes(*table, nodes(styles@)),
        texts(r.1@) == cut_notes(
            name_of(*table),
            rows_of(*table),
            rows_of(*table).len() as int,
        ),
{
    let name: String = match attr_of(table, "name") {
        Some(t) => t.to_owned(),
        None => {
            let none: String = String::new();
            assert(none@ =~= Seq::empty());
            none
        },
    };
    let rows: Vec<&Node> = table.all("table-row");
    assert(nodes(rows@).len() == rows@.len());
    let got: Read = read_rows(name.as_str(), &rows);
    let full: Vec<Held> = pick_filled(&got.cells);
    let ghost f = filled_of(spots_of(*table));
    assert(held(full@) == f);
    assert(held(got.cells@).len() == got.cells@.len());
    let merged: usize = count_those(
        full.len(),
        |i: usize| -> (b: bool)
            requires
                i < full@.len()
            ensures
                b == is_merged(f[i as int].node)
            {
                assert(f[i as int] == full@[i as int].spot());
                repeated(full[i].node, "number-columns-spanned") > 1 || repeated(
                    full[i].node,
                    "number-rows-spanned",
                ) > 1
            },
        Ghost(|i: int| is_merged(f[i].node)),
    );
    let cells: Vec<Cell> = each(
        &full,
        full.len(),
        |i: usize, h: &Held| -> (r: Cell)
            requires
                h.row < u128::MAX
            ensures
                r.describes(h.spot())
            { read_cell(h) },
    );
    assert forall|i: int| 0 <= i < cells@.len() implies (#[trigger] cells@[i]).describes(f[i]) by {
        assert(f[i] == full@[i].spot());
    }
    let columns: Vec<&Node> = table.all("table-column");
    assert(nodes(columns@).len() == columns@.len());
    let sheet: Sheet = Sheet {
        name,
        visible: shown(table, styles),
        rows: got.used,
        columns: find_widest(&full),
        cells,
        covered: got.covered,
        merged,
        hidden_rows: count_hidden(&rows, styles, "number-rows-repeated"),
        hidden_cols: count_hidden(&columns, styles, "number-columns-repeated"),
        comments: read_comments(&got.cells),
    };
    (sheet, got.notes)
}

/// What is said of the first `n` tables.
pub open spec fn notes_upto(tables: Seq<Node>, n: int) -> Seq<Seq<char>>
    decreases n,
{
    if n <= 0 {
        Seq::empty()
    } else {
        let t = tables[n - 1];
        notes_upto(tables, n - 1) + cut_notes(name_of(t), rows_of(t), rows_of(t).len() as int)
    }
}

impl Book {
    pub open spec fn describes(self, root: Node) -> bool {
        let tables = root.below("table"@);
        &&& self.sheets@.len() == tables.len()
        &&& forall|i: int|
            0 <= i < tables.len() ==> (#[trigger] self.sheets@[i]).describes(
                tables[i],
                root.below("style"@),
            )
        &&& texts(self.notes@) == notes_upto(tables, tables.len() as int)
    }

    /// How many cells with something in them the first `n` tables hold.
    pub open spec fn cells_upto(self, n: int) -> nat
        decreases n,
    {
        if n <= 0 {
            0
        } else {
            self.cells_upto(n - 1) + self.sheets@[n - 1].cells@.len()
        }
    }

    /// How many cells with something in them there are.
    pub fn cell_total(&self) -> (r: u128)
        ensures
            r == self.cells_upto(self.sheets@.len() as int),
    {
        let size: usize = self.sheets.len();
        let mut sum: u128 = 0;
        let mut i: usize = 0;
        while i < size
            invariant
                i <= size,
                size == self.sheets@.len(),
                sum == self.cells_upto(i as int),
                sum <= 0xffff_ffff_ffff_ffff * i,
            decreases size - i,
        {
            let many: usize = self.sheets[i].cells.len();
            sum = sum + many as u128;
            i += 1;
        }
        sum
    }
}

/// Reads the tables of a document from the root of its content.
pub fn read(root: &Node) -> (r: Book)
    ensures
        r.describes(*root),
{
    let tables: Vec<&Node> = root.descendants("table");
    let styles: Vec<&Node> = root.descendants("style");
    let ghost ts = nodes(tables@);
    let mut sheets: Vec<Sheet> = Vec::new();
    let mut notes: Vec<String> = Vec::new();
    let mut i: usize = 0;
    assert(texts(notes@) =~= notes_upto(ts, 0));
    while i < tables.len()
        invariant
            i <= tables@.len(),
            ts == nodes(tables@),
            ts == root.below("table"@),
            nodes(styles@) == root.below("style"@),
            sheets@.len() == i,
            forall|k: int|
                0 <= k < i ==> (#[trigger] sheets@[k]).describes(ts[k], root.below("style"@)),
            texts(notes@) == notes_upto(ts, i as int),
        decreases tables@.len() - i,
    {
        assert(ts[i as int] == *tables@[i as int]);
        let (sheet, more): (Sheet, Vec<String>) = read_sheet(tables[i], &styles);
        let ghost had = texts(notes@);
        let ghost said = texts(more@);
        let mut more: Vec<String> = more;
        notes.append(&mut more);
        assert(texts(notes@) =~= had + said);
        sheets.push(sheet);
        i += 1;
    }
    Book { sheets, notes }
}

impl Sheet {
    /// How many cells hold that kind of value.
    pub fn count_of(&self, want: &str) -> (r: usize)
        ensures
            r == tally(|i: int| self.cells@[i].value_type@ == want@, self.cells@.len() as int),
    {
        let cells: &Vec<Cell> = &self.cells;
        count_those(
            cells.len(),
            |i: usize| -> (b: bool)
                requires
                    i < cells@.len()
                ensures
                    b == (cells@[i as int].value_type@ == want@)
                { same(cells[i].value_type.as_str(), want) },
            Ghost(|i: int| cells@[i].value_type@ == want@),
        )
    }

    /// How many cells hold a date or a time.
    pub fn date_cells(&self) -> (r: usize)
        ensures
            r == tally(
                |i: int|
                    self.cells@[i].value_type@ == "date"@ || self.cells@[i].value_type@
                        == "time"@,
                self.cells@.len() as int,
            ),
    {
        let cells: &Vec<Cell> = &self.cells;
        count_those(
            cells.len(),
            |i: usize| -> (b: bool)
                requires
                    i < cells@.len()
                ensures
                    b == (cells@[i as int].value_type@ == "date"@ || cells@[i as int].value_type@
                        == "time"@)
                {
                    same(cells[i].value_type.as_str(), "date") || same(
                        cells[i].value_type.as_str(),
                        "time",
                    )
                },
            Ghost(
                |i: int|
                    cells@[i].value_type@ == "date"@ || cells@[i].value_type@ == "time"@,
            ),
        )
    }

    /// How many cells hold a formula.
    pub fn formulas(&self) -> (r: usize)
        ensures
            r == tally(|i: int| self.cells@[i].formula is Some, self.cells@.len() as int),
    {
        let cells: &Vec<Cell> = &self.cells;
        count_those(
            cells.len(),
            |i: usize| -> (b: bool)
                requires
                    i < cells@.len()
                ensures
                    b == (cells@[i as int].formula is Some)
                { cells[i].formula.is_some() },
            Ghost(|i: int| cells@[i].formula is Some),
        )
    }
}

/// One cell stands before another: in an earlier row, or in the same row further to the left.
pub open spec fn precedes(a: Spot, b: Spot) -> bool {
    a.row < b.row || (a.row == b.row && a.col < b.col)
}

proof fn lemma_row_in_order(c: Seq<Node>, row: int, k: int)
    ensures
        forall|i: int|
            0 <= i < spots_in(c, row, k).len() ==> (#[trigger] spots_in(c, row, k)[i]).row == row
                && spots_in(c, row, k)[i].col < column_at(c, k),
        forall|i: int, j: int|
            0 <= i < j < spots_in(c, row, k).len() ==> #[trigger] precedes(
                spots_in(c, row, k)[i],
                spots_in(c, row, k)[j],
            ),
    decreases k,
{
    if k > 0 {
        lemma_row_in_order(c, row, k - 1);
        let before = spots_in(c, row, k - 1);
        let now = spots_in(c, row, k);
        assert forall|i: int, j: int| 0 <= i < j < now.len() implies #[trigger] precedes(
            now[i],
            now[j],
        ) by {
            assert(now[i] == before[i]);
            if j < before.len() {
                assert(precedes(before[i], before[j]));
            }
        }
    }
}

/// The cells of a table stand in reading order, and no two of them have one place, however many
/// places the elements between them stand for.
pub proof fn law_cells_stand_in_reading_order(rows: Seq<Node>, n: int)
    ensures
        forall|i: int|
            0 <= i < spots(rows, n).len() ==> (#[trigger] spots(rows, n)[i]).row < row_at(rows, n),
        forall|i: int, j: int|
            0 <= i < j < spots(rows, n).len() ==> #[trigger] precedes(
                spots(rows, n)[i],
                spots(rows, n)[j],
            ),
    decreases n,
{
    if n > 0 {
        law_cells_stand_in_reading_order(rows, n - 1);
        let c = cells_of(rows[n - 1]);
        let row = row_at(rows, n - 1);
        let k = kept_in(rows, n - 1);
        lemma_row_in_order(c, row, k);
        let before = spots(rows, n - 1);
        let own = spots_in(c, row, k);
        let now = spots(rows, n);
        assert(now == before + own);
        assert forall|i: int| 0 <= i < now.len() implies (#[trigger] now[i]).row < row_at(
            rows,
            n,
        ) by {
            if i < before.len() {
                assert(now[i] == before[i]);
            } else {
                assert(now[i] == own[i - before.len()]);
            }
        }
        assert forall|i: int, j: int| 0 <= i < j < now.len() implies #[trigger] precedes(
            now[i],
            now[j],
        ) by {
            let m = before.len();
            if j < m {
                assert(precedes(before[i], before[j]));
            } else if i >= m {
                assert(precedes(own[i - m], own[j - m]));
            } else {
                assert(now[i] == before[i]);
                assert(now[j] == own[j - m]);
            }
        }
    }
}

/// A row hands out as many cells and covered places as it holds elements, and never more than the
/// limit. What other rows hold makes no difference.
pub proof fn law_cells_keep_to_the_limit(rows: Seq<Node>, i: int)
    requires
        0 <= i < rows.len(),
    ensures
        ({
            let c = cells_of(rows[i]);
            let out = spots_in(c, row_at(rows, i), kept_in(rows, i)).len() + covered_in(
                c,
                kept_in(rows, i),
            );
            &&& out <= MOST_CELLS
            &&& c.len() <= MOST_CELLS ==> out == c.len()
        }),
{
    lemma_kept(cells_of(rows[i]), row_at(rows, i), kept_in(rows, i));
}

proof fn lemma_kept(c: Seq<Node>, row: int, k: int)
    requires
        0 <= k <= c.len(),
    ensures
        spots_in(c, row, k).len() + covered_in(c, k) == k,
    decreases k,
{
    if k > 0 {
        lemma_kept(c, row, k - 1);
    }
}

/// What the first `k` elements stand for together, as an attribute says it.
pub open spec fn said_before(c: Seq<Node>, key: Seq<char>, k: int) -> int
    decreases k,
{
    if k <= 0 {
        0
    } else {
        said_before(c, key, k - 1) + times(c[k - 1], key)
    }
}

/// An element stands for as many as its attribute says, and for one where the attribute is not
/// there, says nothing or is no number.
pub proof fn law_an_element_stands_for_what_it_writes(n: Node, key: Seq<char>, m: nat)
    ensures
        attr_said(n, key) is None ==> times(n, key) == 1,
        attr_said(n, key) == Some(dec(m)) && 0 < m <= usize::MAX ==> times(n, key) == m,
        attr_said(n, key) == Some(dec(0)) ==> times(n, key) == 1,
        times(n, key) >= 1,
{
    crate::words::law_a_written_number_reads_back(m, usize::MAX as int);
    crate::words::law_a_written_number_reads_back(0, usize::MAX as int);
    lemma_dec_is_trimmed(m);
    lemma_dec_is_trimmed(0);
    lemma_times_positive(n, key);
}

proof fn lemma_times_positive(n: Node, key: Seq<char>)
    ensures
        times(n, key) >= 1,
{
}

proof fn lemma_dec_is_trimmed(m: nat)
    ensures
        trimmed(dec(m)) == dec(m),
{
    crate::text::law_dec_tells_numbers_apart(m, m);
    crate::words::law_trimmed_text_has_no_blanks_around_it(dec(m));
    let d = dec(m);
    assert('0' <= d[0] <= '9' && '0' <= d[d.len() - 1] <= '9');
}

proof fn lemma_columns_said(c: Seq<Node>, k: int)
    ensures
        column_at(c, k) == said_before(c, "number-columns-repeated"@, k),
    decreases k,
{
    if k > 0 {
        lemma_columns_said(c, k - 1);
    }
}

proof fn lemma_rows_said(rows: Seq<Node>, n: int)
    ensures
        row_at(rows, n) == said_before(rows, "number-rows-repeated"@, n),
    decreases n,
{
    if n > 0 {
        lemma_rows_said(rows, n - 1);
    }
}

/// The elements of a row that take places are its cells and the places that other cells cover, in
/// the order in which they stand, and nothing else.
pub proof fn law_cells_and_covered_places_take_room(row: Node)
    ensures
        cells_of(row) == row.children@.filter(
            |n: Node|
                n.local_name() == "table-cell"@ || n.local_name() == "covered-table-cell"@,
        ),
{
    crate::lists::lemma_filter_same(
        row.children@,
        |n: Node| n.local_name() == "table-cell"@ || is_covered(n),
        |n: Node| n.local_name() == "table-cell"@ || n.local_name() == "covered-table-cell"@,
    );
}

/// Something stands in the element: a text, a value of one of the three kinds, or a formula.
pub open spec fn holds_something(n: Node) -> bool {
    ||| text_of_node(n).len() > 0
    ||| attr_said(n, "value"@) is Some
    ||| attr_said(n, "date-value"@) is Some
    ||| attr_said(n, "boolean-value"@) is Some
    ||| attr_said(n, "formula"@) is Some
}

/// The cell is told of as the element says, at that place.
pub open spec fn tells_of(c: Cell, n: Node, row: int, col: int) -> bool {
    &&& c.reference@ == cell_name(row, col)
    &&& c.text@ == text_of_node(n)
    &&& text_in(c.value) == attr_said(n, "value"@)
    &&& text_in(c.date_value) == attr_said(n, "date-value"@)
    &&& text_in(c.boolean_value) == attr_said(n, "boolean-value"@)
    &&& text_in(c.formula) == attr_said(n, "formula"@)
    &&& text_in(c.style_name) == attr_said(n, "style-name"@)
    &&& c.columns_spanned == times(n, "number-columns-spanned"@)
    &&& c.rows_spanned == times(n, "number-rows-spanned"@)
    &&& attr_said(n, "value-type"@) is Some ==> Some(c.value_type@) == attr_said(n, "value-type"@)
    &&& attr_said(n, "value-type"@) is None ==> c.value_type@ == if trimmed(
        n.full_text(),
    ).len() == 0 {
        "empty"@
    } else {
        "string"@
    }
}

/// A cell stands in the column that is the sum of what all elements before it in its row stand
/// for, covered places too, and in the row that is the sum of what all rows before its own stand
/// for. Each cell with something in it is told of there.
pub proof fn law_a_cell_stands_where_it_is_counted(
    s: Sheet,
    table: Node,
    styles: Seq<Node>,
    r: int,
    k: int,
)
    requires
        s.describes(table, styles),
        0 <= r < table.all_of("table-row"@).len(),
        0 <= k < cells_of(table.all_of("table-row"@)[r]).len(),
        k < 20_000,
        cells_of(table.all_of("table-row"@)[r])[k].local_name() == "table-cell"@,
        holds_something(cells_of(table.all_of("table-row"@)[r])[k]),
    ensures
        exists|i: int|
            0 <= i < s.cells@.len() && tells_of(
                #[trigger] s.cells@[i],
                cells_of(table.all_of("table-row"@)[r])[k],
                said_before(table.all_of("table-row"@), "number-rows-repeated"@, r),
                said_before(
                    cells_of(table.all_of("table-row"@)[r]),
                    "number-columns-repeated"@,
                    k,
                ),
            ),
{
    let rows = rows_of(table);
    let c = cells_of(rows[r]);
    let spot = Spot { row: row_at(rows, r), col: column_at(c, k), node: c[k] };
    lemma_rows_said(rows, r);
    lemma_columns_said(c, k);
    reveal_strlit("table-cell");
    reveal_strlit("covered-table-cell");
    assert("table-cell"@.len() == 10 && "covered-table-cell"@.len() == 18);
    lemma_spot_in_row(c, row_at(rows, r), kept_in(rows, r), k);
    lemma_spot_in_table(rows, rows.len() as int, r, spot);
    let all = spots_of(table);
    let p = |p: Spot| is_filled(p.node);
    let j = choose|j: int| 0 <= j < all.len() && all[j] == spot;
    all.lemma_filter_contains(p, j);
    let full = filled_of(all);
    let i = choose|i: int| 0 <= i < full.len() && full[i] == spot;
    assert(s.cells@[i].describes(full[i]));
    assert(tells_of(
        s.cells@[i],
        c[k],
        said_before(rows, "number-rows-repeated"@, r),
        said_before(c, "number-columns-repeated"@, k),
    ));
}

proof fn lemma_spot_in_row(c: Seq<Node>, row: int, n: int, k: int)
    requires
        0 <= k < n <= c.len(),
        !is_covered(c[k]),
    ensures
        spots_in(c, row, n).contains(Spot { row, col: column_at(c, k), node: c[k] }),
    decreases n,
{
    let spot = Spot { row, col: column_at(c, k), node: c[k] };
    let before = spots_in(c, row, n - 1);
    if k < n - 1 {
        lemma_spot_in_row(c, row, n - 1, k);
        let i = choose|i: int| 0 <= i < before.len() && before[i] == spot;
        assert(spots_in(c, row, n)[i] == spot);
    } else {
        assert(spots_in(c, row, n).last() == spot);
    }
}

proof fn lemma_spot_in_table(rows: Seq<Node>, n: int, r: int, spot: Spot)
    requires
        0 <= r < n,
        spots_in(cells_of(rows[r]), row_at(rows, r), kept_in(rows, r)).contains(spot),
    ensures
        spots(rows, n).contains(spot),
    decreases n,
{
    let before = spots(rows, n - 1);
    let own = spots_in(cells_of(rows[n - 1]), row_at(rows, n - 1), kept_in(rows, n - 1));
    if r < n - 1 {
        lemma_spot_in_table(rows, n - 1, r, spot);
        let i = choose|i: int| 0 <= i < before.len() && before[i] == spot;
        assert((before + own)[i] == spot);
    } else {
        let i = choose|i: int| 0 <= i < own.len() && own[i] == spot;
        assert((before + own)[before.len() + i] == spot);
    }
}

/// Each cell that is told of is a cell element of a row with something in it, at its place: no
/// covered place and no empty cell is told of.
pub proof fn law_each_told_cell_is_an_element(s: Sheet, table: Node, styles: Seq<Node>, i: int)
    requires
        s.describes(table, styles),
        0 <= i < s.cells@.len(),
    ensures
        exists|r: int, k: int|
            #![trigger cells_of(table.all_of("table-row"@)[r])[k]]
            0 <= r < table.all_of("table-row"@).len() && 0 <= k < cells_of(
                table.all_of("table-row"@)[r],
            ).len() && k < 20_000 && cells_of(table.all_of("table-row"@)[r])[k].local_name()
                != "covered-table-cell"@ && holds_something(
                cells_of(table.all_of("table-row"@)[r])[k],
            ) && tells_of(
                s.cells@[i],
                cells_of(table.all_of("table-row"@)[r])[k],
                said_before(table.all_of("table-row"@), "number-rows-repeated"@, r),
                said_before(
                    cells_of(table.all_of("table-row"@)[r]),
                    "number-columns-repeated"@,
                    k,
                ),
            ),
{
    let rows = rows_of(table);
    let all = spots_of(table);
    let p = |p: Spot| is_filled(p.node);
    let full = filled_of(all);
    all.lemma_filter_pred(p, i);
    assert(full.contains(full[i]));
    all.lemma_filter_contains_rev(p, full[i]);
    assert(s.cells@[i].describes(full[i]));
    let (r, k) = lemma_spot_came_from(rows, rows.len() as int, full[i]);
    lemma_rows_said(rows, r);
    lemma_columns_said(cells_of(rows[r]), k);
    assert(cells_of(table.all_of("table-row"@)[r])[k] == full[i].node);
}

proof fn lemma_spot_came_from(rows: Seq<Node>, n: int, spot: Spot) -> (found: (int, int))
    requires
        0 <= n <= rows.len(),
        spots(rows, n).contains(spot),
    ensures
        0 <= found.0 < n,
        0 <= found.1 < kept_in(rows, found.0) <= cells_of(rows[found.0]).len(),
        found.1 < 20_000,
        cells_of(rows[found.0])[found.1] == spot.node,
        !is_covered(spot.node),
        spot.row == row_at(rows, found.0),
        spot.col == column_at(cells_of(rows[found.0]), found.1),
    decreases n,
{
    let before = spots(rows, n - 1);
    let c = cells_of(rows[n - 1]);
    let own = spots_in(c, row_at(rows, n - 1), kept_in(rows, n - 1));
    let i = choose|i: int| 0 <= i < spots(rows, n).len() && spots(rows, n)[i] == spot;
    if i < before.len() {
        assert(before[i] == spot);
        lemma_spot_came_from(rows, n - 1, spot)
    } else {
        assert(own[i - before.len()] == spot);
        let k = lemma_spot_came_from_row(c, row_at(rows, n - 1), kept_in(rows, n - 1), spot);
        (n - 1, k)
    }
}

proof fn lemma_spot_came_from_row(c: Seq<Node>, row: int, n: int, spot: Spot) -> (k: int)
    requires
        0 <= n <= c.len(),
        spots_in(c, row, n).contains(spot),
    ensures
        0 <= k < n,
        c[k] == spot.node,
        !is_covered(c[k]),
        spot.row == row,
        spot.col == column_at(c, k),
    decreases n,
{
    let before = spots_in(c, row, n - 1);
    let i = choose|i: int| 0 <= i < spots_in(c, row, n).len() && spots_in(c, row, n)[i] == spot;
    if i < before.len() {
        assert(before[i] == spot);
        lemma_spot_came_from_row(c, row, n - 1, spot)
    } else {
        n - 1
    }
}

/// Covered places that are written as one element with a number give the same cells at the same
/// places as covered places that are written one by one.
pub proof fn law_covered_places_can_be_written_out(
    front: Seq<Node>,
    many: Node,
    one: Node,
    back: Seq<Node>,
    row: int,
)
    requires
        many.local_name() == "covered-table-cell"@,
        one.local_name() == "covered-table-cell"@,
        times(one, "number-columns-repeated"@) == 1,
    ensures
        ({
            let n = times(many, "number-columns-repeated"@) as nat;
            let short = front.push(many) + back;
            let long = front + Seq::new(n, |i: int| one) + back;
            spots_in(short, row, short.len() as int) == spots_in(long, row, long.len() as int)
        }),
{
    let n = times(many, "number-columns-repeated"@) as nat;
    lemma_times_positive(many, "number-columns-repeated"@);
    let a = front.push(many);
    let ones = Seq::new(n, |i: int| one);
    let b = front + ones;
    lemma_row_parts(front, seq![many], row, 1);
    lemma_row_parts(front, ones, row, n as int);
    lemma_ones(ones, one, row, n as int);
    assert(front + seq![many] =~= a);
    assert(spots_in(seq![many], row, 1) =~= Seq::empty()) by {
        reveal_with_fuel(spots_in, 2);
    }
    assert(column_at(seq![many], 1) == n) by {
        reveal_with_fuel(column_at, 2);
    }
    lemma_row_parts(a, back, row, back.len() as int);
    lemma_row_parts(b, back, row, back.len() as int);
    assert(moved(spots_in(seq![many], row, 1), column_at(front, front.len() as int))
        =~= moved(spots_in(ones, row, n as int), column_at(front, front.len() as int)));
    assert(spots_in(a, row, a.len() as int) == spots_in(b, row, b.len() as int));
    assert(column_at(a, a.len() as int) == column_at(b, b.len() as int));
}

proof fn lemma_ones(ones: Seq<Node>, one: Node, row: int, k: int)
    requires
        0 <= k <= ones.len(),
        forall|i: int| 0 <= i < ones.len() ==> #[trigger] ones[i] == one,
        is_covered(one),
        times(one, "number-columns-repeated"@) == 1,
    ensures
        spots_in(ones, row, k) == Seq::<Spot>::empty(),
        column_at(ones, k) == k,
    decreases k,
{
    if k > 0 {
        lemma_ones(ones, one, row, k - 1);
        assert(ones[k - 1] == one);
    }
}

/// Cells moved to the right.
spec fn moved(s: Seq<Spot>, by: int) -> Seq<Spot> {
    Seq::new(s.len(), |i: int| Spot { row: s[i].row, col: s[i].col + by, node: s[i].node })
}

proof fn lemma_row_parts(a: Seq<Node>, b: Seq<Node>, row: int, k: int)
    requires
        0 <= k <= b.len(),
    ensures
        column_at(a + b, a.len() + k) == column_at(a, a.len() as int) + column_at(b, k),
        spots_in(a + b, row, a.len() + k) == spots_in(a, row, a.len() as int) + moved(
            spots_in(b, row, k),
            column_at(a, a.len() as int),
        ),
    decreases k,
{
    let m = column_at(a, a.len() as int);
    let front = spots_in(a, row, a.len() as int);
    if k > 0 {
        lemma_row_parts(a, b, row, k - 1);
        assert((a + b)[a.len() + k - 1] == b[k - 1]);
        assert(spots_in(a + b, row, a.len() + k) =~= front + moved(spots_in(b, row, k), m));
    } else {
        lemma_row_front(a, b, row, a.len() as int);
        assert(spots_in(b, row, 0) =~= Seq::empty());
        assert(front + moved(spots_in(b, row, 0), m) =~= front);
    }
}

proof fn lemma_row_front(a: Seq<Node>, b: Seq<Node>, row: int, k: int)
    requires
        0 <= k <= a.len(),
    ensures
        column_at(a + b, k) == column_at(a, k),
        spots_in(a + b, row, k) == spots_in(a, row, k),
    decreases k,
{
    if k > 0 {
        lemma_row_front(a, b, row, k - 1);
        assert((a + b)[k - 1] == a[k - 1]);
    }
}

/// A table has as many columns as the cell furthest to the right needs: each cell that is told of
/// stands in one of them, and one stands in the last.
pub proof fn law_columns_reach_the_last_cell(s: Sheet, table: Node, styles: Seq<Node>)
    requires
        s.describes(table, styles),
    ensures
        ({
            let full = filled_of(spots_of(table));
            &&& s.cells@.len() == full.len()
            &&& s.cells@.len() == 0 ==> s.columns == 0
            &&& forall|i: int|
                0 <= i < full.len() ==> (#[trigger] full[i]).col < s.columns
                    && s.cells@[i].reference@ == cell_name(full[i].row, full[i].col)
            &&& s.cells@.len() > 0 ==> exists|i: int|
                0 <= i < full.len() && (#[trigger] full[i]).col + 1 == s.columns
        }),
{
    let full = filled_of(spots_of(table));
    lemma_widest_reached(full, full.len() as int, spots_of(table));
    assert forall|i: int| 0 <= i < full.len() implies (#[trigger] full[i]).col < s.columns
        && s.cells@[i].reference@ == cell_name(full[i].row, full[i].col) by {
        assert(s.cells@[i].describes(full[i]));
    }
    if full.len() > 0 {
        let p = |p: Spot| is_filled(p.node);
        assert(full.contains(full[0]));
        spots_of(table).lemma_filter_contains_rev(p, full[0]);
        let (r, k) = lemma_spot_came_from(
            rows_of(table),
            rows_of(table).len() as int,
            full[0],
        );
        lemma_column_positive(cells_of(rows_of(table)[r]), k);
        assert(full[0].col < widest(full, full.len() as int));
    }
}

proof fn lemma_column_positive(c: Seq<Node>, k: int)
    ensures
        0 <= column_at(c, k),
    decreases k,
{
    if k > 0 {
        lemma_column_positive(c, k - 1);
    }
}

proof fn lemma_widest_reached(s: Seq<Spot>, n: int, all: Seq<Spot>)
    requires
        0 <= n <= s.len(),
        s == filled_of(all),
    ensures
        forall|i: int| 0 <= i < n ==> (#[trigger] s[i]).col < widest(s, n),
        n > 0 && widest(s, n) > 0 ==> exists|i: int|
            0 <= i < n && (#[trigger] s[i]).col + 1 == widest(s, n),
        0 <= widest(s, n),
    decreases n,
{
    if n > 0 {
        lemma_widest_reached(s, n - 1, all);
        if s[n - 1].col + 1 > widest(s, n - 1) {
            assert(s[n - 1].col + 1 == widest(s, n));
        } else if widest(s, n - 1) > 0 {
            let i = choose|i: int| 0 <= i < n - 1 && (#[trigger] s[i]).col + 1 == widest(s, n - 1);
            assert(s[i].col + 1 == widest(s, n));
        }
    }
}

/// A row or column is hidden where it says `collapse` itself, or names a row or column style whose
/// properties say so. As many are hidden as such elements stand for.
pub proof fn law_what_hides_rows_and_columns(
    s: Sheet,
    table: Node,
    styles: Seq<Node>,
    n: Node,
    style: Node,
    name: Seq<char>,
)
    requires
        s.describes(table, styles),
    ensures
        s.hidden_rows == hidden_upto(
            table.all_of("table-row"@),
            styles,
            "number-rows-repeated"@,
            table.all_of("table-row"@).len() as int,
        ),
        s.hidden_cols == hidden_upto(
            table.all_of("table-column"@),
            styles,
            "number-columns-repeated"@,
            table.all_of("table-column"@).len() as int,
        ),
        attr_said(n, "visibility"@) == Some("collapse"@) ==> is_hidden(n, styles),
        styles.contains(style) && attr_said(n, "style-name"@) == Some(name) && attr_said(
            style,
            "name"@,
        ) == Some(name) && ((attr_said(style, "family"@) == Some("table-row"@)
            && style.child_of("table-row-properties"@) is Some && attr_said(
            style.child_of("table-row-properties"@)->0,
            "visibility"@,
        ) == Some("collapse"@)) || (attr_said(style, "family"@) == Some("table-column"@)
            && style.child_of("table-column-properties"@) is Some && attr_said(
            style.child_of("table-column-properties"@)->0,
            "visibility"@,
        ) == Some("collapse"@))) ==> is_hidden(n, styles),
        attr_said(n, "visibility"@) is None && attr_said(n, "style-name"@) is None ==> !is_hidden(
            n,
            styles,
        ),
{
    reveal_strlit("table-row");
    reveal_strlit("table-column");
    assert("table-row"@.len() == 9 && "table-column"@.len() == 12);
    if styles.contains(style) && hides(style, name) {
        let i = choose|i: int| 0 <= i < styles.len() && styles[i] == style;
        assert(hides(styles[i], name));
    }
}

/// A hidden element adds what it stands for, and one that is shown adds nothing.
pub proof fn law_hidden_elements_add_what_they_stand_for(
    c: Seq<Node>,
    styles: Seq<Node>,
    key: Seq<char>,
    n: int,
)
    requires
        0 <= n < c.len(),
    ensures
        hidden_upto(c, styles, key, 0) == 0,
        hidden_upto(c, styles, key, n + 1) - hidden_upto(c, styles, key, n) == if is_hidden(
            c[n],
            styles,
        ) {
            times(c[n], key)
        } else {
            0
        },
{
}

/// A table is hidden exactly where the first table style of the name that it names says that it is
/// not displayed.
pub proof fn law_a_table_is_hidden_by_its_style(s: Sheet, table: Node, styles: Seq<Node>)
    requires
        s.describes(table, styles),
    ensures
        Some(s.name@) == attr_said(table, "name"@) || (attr_said(table, "name"@) is None
            && s.name@.len() == 0),
        attr_said(table, "style-name"@) is None ==> s.visible,
        !s.visible ==> exists|i: int|
            0 <= i < styles.len() && attr_said(#[trigger] styles[i], "family"@) == Some("table"@)
                && name_of(styles[i]) == attr_said(table, "style-name"@)->0
                && styles[i].child_of("table-properties"@) is Some && attr_said(
                styles[i].child_of("table-properties"@)->0,
                "display"@,
            ) == Some("false"@),
        s.visible && attr_said(table, "style-name"@) is Some ==> forall|i: int|
            0 <= i < styles.len() && attr_said(#[trigger] styles[i], "family"@) == Some("table"@)
                && name_of(styles[i]) == attr_said(table, "style-name"@)->0
                && styles[i].child_of("table-properties"@) is Some && attr_said(
                styles[i].child_of("table-properties"@)->0,
                "display"@,
            ) == Some("false"@) ==> exists|j: int|
                0 <= j < i && attr_said(#[trigger] styles[j], "family"@) == Some("table"@)
                    && name_of(styles[j]) == attr_said(table, "style-name"@)->0,
{
    if let Some(want) = attr_said(table, "style-name"@) {
        let p = |s: Node| attr_said(s, "family"@) == Some("table"@) && name_of(s) == want;
        crate::lists::lemma_first_from(styles, p, 0);
        if let Some(k) = first(styles, p) {
            assert(p(styles[k]));
        }
    }
}

/// A merged cell is one that spans more than one column or more than one row, and a row with a
/// covered place counts it once however many columns it stands for.
pub proof fn law_merged_cells_and_covered_places(n: Node, c: Seq<Node>, k: int)
    requires
        0 <= k < c.len(),
    ensures
        is_merged(n) <==> times(n, "number-columns-spanned"@) > 1 || times(
            n,
            "number-rows-spanned"@,
        ) > 1,
        covered_in(c, 0) == 0,
        covered_in(c, k + 1) == covered_in(c, k) + if c[k].local_name() == "covered-table-cell"@ {
            1nat
        } else {
            0nat
        },
{
}

/// A remark says who made it, when, and what it says, and stands at the cell that holds it. Its
/// date is the one in words, or else the one in numbers.
pub proof fn law_a_remark_is_what_it_says(s: Sheet, table: Node, styles: Seq<Node>, i: int)
    requires
        s.describes(table, styles),
        0 <= i < s.comments@.len(),
    ensures
        ({
            let all = spots_of(table);
            let r = remarks(all, all.len() as int)[i];
            let c = s.comments@[i];
            &&& c.reference@ == cell_name(r.row, r.col)
            &&& text_in(c.author) == field_of(r.node, "creator"@)
            &&& field_of(r.node, "date-string"@) is Some ==> text_in(c.date) == field_of(
                r.node,
                "date-string"@,
            )
            &&& field_of(r.node, "date-string"@) is None ==> text_in(c.date) == field_of(
                r.node,
                "date"@,
            )
            &&& c.text@ == text_of_node(r.node)
        }),
{
    let all = spots_of(table);
    assert(s.comments@[i].describes(remarks(all, all.len() as int)[i]));
}

/// The text of a node is made of its paragraphs, in order. A `p` is one of them, with the blanks
/// around it gone; an `annotation` adds nothing; any other element adds those below it.
pub proof fn law_which_paragraphs_make_a_text(c: Seq<Node>, n: Node)
    ensures
        lines_in(Seq::empty()).len() == 0,
        n.local_name() == "p"@ ==> lines_in(c.push(n)) == lines_in(c).push(trimmed(n.full_text())),
        n.local_name() == "annotation"@ ==> lines_in(c.push(n)) == lines_in(c),
        n.local_name() != "p"@ && n.local_name() != "annotation"@ ==> lines_in(c.push(n))
            == lines_in(c) + lines_in(n.children@),
{
    reveal_strlit("p");
    reveal_strlit("annotation");
    assert("p"@.len() == 1);
    assert("annotation"@.len() == 10);
    assert(c.push(n).drop_last() =~= c);
}

/// The remarks of a cell are the elements called `annotation`, in order; those inside one do not
/// count, and those inside any other element do.
pub proof fn law_which_elements_are_remarks(c: Seq<Node>, n: Node)
    ensures
        remarks_in(Seq::empty()).len() == 0,
        n.local_name() == "annotation"@ ==> remarks_in(c.push(n)) == remarks_in(c).push(n),
        n.local_name() != "annotation"@ ==> remarks_in(c.push(n)) == remarks_in(c) + remarks_in(
            n.children@,
        ),
{
    assert(c.push(n).drop_last() =~= c);
}

/// A book has a sheet for each `table`, in order, told with the elements `style` of the same
/// document, and holds as many cells as its sheets do.
pub proof fn law_a_book_has_a_sheet_for_each_table(b: Book, root: Node, i: int, n: int)
    requires
        b.describes(root),
        0 <= i < root.below("table"@).len(),
        0 <= n,
    ensures
        b.sheets@.len() == root.below("table"@).len(),
        b.sheets@[i].describes(root.below("table"@)[i], root.below("style"@)),
        b.cells_upto(0) == 0,
        b.cells_upto(n + 1) == b.cells_upto(n) + b.sheets@[n].cells@.len(),
{
}

/// The cells that are counted: those whose value is of that type; those whose value is a date or a
/// time; and those with a formula.
pub proof fn law_which_cells_are_counted(
    s: &Sheet,
    want: &str,
    of: usize,
    dates: usize,
    formulas: usize,
    p: spec_fn(Cell) -> bool,
    q: spec_fn(Cell) -> bool,
    f: spec_fn(Cell) -> bool,
)
    requires
        call_ensures(Sheet::count_of, (s, want), of),
        call_ensures(Sheet::date_cells, (s,), dates),
        call_ensures(Sheet::formulas, (s,), formulas),
        forall|c: Cell| #[trigger] p(c) == (c.value_type@ == want@),
        forall|c: Cell| #[trigger]
            q(c) == (c.value_type@ == seq!['d', 'a', 't', 'e'] || c.value_type@ == seq![
                't',
                'i',
                'm',
                'e',
            ]),
        forall|c: Cell| #[trigger] f(c) == c.formula is Some,
    ensures
        of == s.cells@.filter(p).len(),
        dates == s.cells@.filter(q).len(),
        formulas == s.cells@.filter(f).len(),
{
    reveal_strlit("date");
    reveal_strlit("time");
    assert("date"@ =~= seq!['d', 'a', 't', 'e']);
    assert("time"@ =~= seq!['t', 'i', 'm', 'e']);
    crate::lists::law_a_tally_is_how_many_pass(
        s.cells@,
        |i: int| s.cells@[i].value_type@ == want@,
        p,
    );
    crate::lists::law_a_tally_is_how_many_pass(
        s.cells@,
        |i: int| s.cells@[i].value_type@ == "date"@ || s.cells@[i].value_type@ == "time"@,
        q,
    );
    crate::lists::law_a_tally_is_how_many_pass(s.cells@, |i: int| s.cells@[i].formula is Some, f);
}

/// A row with more cell elements than are read of one is remarked on, with the name of its table;
/// no other row is.
pub proof fn law_which_rows_are_remarked_on(name: Seq<char>, rows: Seq<Node>, n: int)
    requires
        0 <= n,
    ensures
        cut_notes(name, rows, 0).len() == 0,
        cells_of(rows[n]).len() <= 20_000 ==> cut_notes(name, rows, n + 1) == cut_notes(
            name,
            rows,
            n,
        ),
        cells_of(rows[n]).len() > 20_000 ==> cut_notes(name, rows, n + 1) == cut_notes(
            name,
            rows,
            n,
        ).push(
            "表 "@ + name + " 的格子元素多到 "@ + dec(20_001) + " 个，后面不走了"@,
        ),
{
}

/// What is counted of a sheet: how many of its told cells are merged, how many places are covered,
/// and how many rows are used, each row element for as many as it stands for.
pub proof fn law_what_a_sheet_counts(
    s: Sheet,
    table: Node,
    styles: Seq<Node>,
    q: spec_fn(Spot) -> bool,
    n: int,
)
    requires
        s.describes(table, styles),
        forall|p: Spot| #[trigger]
            q(p) == (times(p.node, "number-columns-spanned"@) > 1 || times(
                p.node,
                "number-rows-spanned"@,
            ) > 1),
        0 <= n,
    ensures
        ({
            let rows = table.all_of("table-row"@);
            &&& s.merged == filled_of(spots_of(table)).filter(q).len()
            &&& s.covered == covered(rows, rows.len() as int)
            &&& covered(rows, 0) == 0
            &&& covered(rows, n + 1) == covered(rows, n) + covered_in(
                cells_of(rows[n]),
                kept_in(rows, n),
            )
            &&& s.rows == used_rows(rows, rows.len() as int)
            &&& used_rows(rows, 0) == 0
            &&& is_used(rows, n) ==> used_rows(rows, n + 1) == used_rows(rows, n) + times(
                rows[n],
                "number-rows-repeated"@,
            )
            &&& !is_used(rows, n) ==> used_rows(rows, n + 1) == used_rows(rows, n)
        }),
{
    let full = filled_of(spots_of(table));
    crate::lists::law_a_tally_is_how_many_pass(full, |i: int| is_merged(full[i].node), q);
}

} // verus!
