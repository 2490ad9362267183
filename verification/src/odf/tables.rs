//! How wide tables are, and what their cells look like.
//!
//! A column element names a column style and may stand for several columns. The looks of a cell
//! stand on a cell style; there is no place on the cell itself for them.

use crate::lists::{at_most, cut, each, joined, lemma_filter_take};
use crate::odf::{
    all_held, attr_of, attr_said, count_part, distinct, entry_in, everywhere, held_in, length_if,
    look_everywhere, look_in, meant, measure, of_family, part_in, part_of, pick_distinct,
    pick_family, props_of, read_props, resolve, Found, Held, Part,
};
use crate::paper::is_value;
use crate::text::pair_texts;
use crate::words::{
    begins, has_word, holds_word, parse_unsigned, starts_with, trim, trimmed, unsigned_value,
};
use crate::written::{count_nodes, kept_attrs, kept_table, node_in, owned, table_in, text_in};
use crate::xml::{nodes, Node};
use vstd::prelude::*;

verus! {

broadcast use {crate::text::lemma_pair_texts_push, crate::xml::lemma_nodes_push};

/// A line is drawn for that value of an edge: none of its words says that there is none.
pub open spec fn has_line(raw: Seq<char>) -> bool {
    !has_word(raw, "none"@) && !has_word(raw, "hidden"@)
}

/// Whether a line is drawn for that value of an edge.
pub fn edge_lined(raw: &str) -> (r: bool)
    ensures
        r == has_line(raw@),
{
    !holds_word(raw, "none") && !holds_word(raw, "hidden")
}

/// The properties that tell the edges of a cell, and the names under which they are handed on.
pub const EDGES: usize = 9;

/// The property that tells an edge.
pub open spec fn edge_key(i: int) -> Seq<char> {
    if i == 0 {
        "fo:border"@
    } else if i == 1 {
        "fo:border-left"@
    } else if i == 2 {
        "fo:border-right"@
    } else if i == 3 {
        "fo:border-top"@
    } else if i == 4 {
        "fo:border-bottom"@
    } else if i == 5 {
        "fo:border-before"@
    } else if i == 6 {
        "fo:border-after"@
    } else if i == 7 {
        "fo:border-start"@
    } else {
        "fo:border-end"@
    }
}

/// The name under which an edge is handed on.
pub open spec fn edge_name(i: int) -> Seq<char> {
    if i == 0 {
        "border"@
    } else if i == 1 {
        "border-left"@
    } else if i == 2 {
        "border-right"@
    } else if i == 3 {
        "border-top"@
    } else if i == 4 {
        "border-bottom"@
    } else if i == 5 {
        "border-before"@
    } else if i == 6 {
        "border-after"@
    } else if i == 7 {
        "border-start"@
    } else {
        "border-end"@
    }
}

fn key_of_edge(i: usize) -> (r: &'static str)
    ensures
        r@ == edge_key(i as int),
{
    match i {
        0 => "fo:border",
        1 => "fo:border-left",
        2 => "fo:border-right",
        3 => "fo:border-top",
        4 => "fo:border-bottom",
        5 => "fo:border-before",
        6 => "fo:border-after",
        7 => "fo:border-start",
        _ => "fo:border-end",
    }
}

fn name_of_edge(i: usize) -> (r: &'static str)
    ensures
        r@ == edge_name(i as int),
{
    match i {
        0 => "border",
        1 => "border-left",
        2 => "border-right",
        3 => "border-top",
        4 => "border-bottom",
        5 => "border-before",
        6 => "border-after",
        7 => "border-start",
        _ => "border-end",
    }
}

/// The edges that a cell style writes, among the first `n`.
pub open spec fn edges_in(t: Option<Seq<(Seq<char>, Seq<char>)>>, n: int) -> Seq<
    (Seq<char>, Seq<char>),
>
    decreases n,
{
    if n <= 0 {
        Seq::empty()
    } else {
        match entry_in(t, edge_key(n - 1)) {
            Some(v) => edges_in(t, n - 1).push((edge_name(n - 1), v)),
            None => edges_in(t, n - 1),
        }
    }
}

/// One of the edges has a line.
pub open spec fn lined(t: Option<Seq<(Seq<char>, Seq<char>)>>) -> bool {
    let e = edges_in(t, EDGES as int);
    exists|i: int| 0 <= i < e.len() && has_line((#[trigger] e[i]).1)
}

/// A padding is written.
pub open spec fn padded(t: Option<Seq<(Seq<char>, Seq<char>)>>) -> bool {
    match t {
        Some(m) => exists|i: int| 0 <= i < m.len() && begins((#[trigger] m[i]).0, "fo:padding"@),
        None => false,
    }
}

fn read_edges(t: &Option<Vec<(String, String)>>) -> (r: Vec<(String, String)>)
    ensures
        pair_texts(r@) == edges_in(table_in(*t), EDGES as int),
{
    let mut out: Vec<(String, String)> = Vec::new();
    let mut i: usize = 0;
    assert(pair_texts(out@) =~= edges_in(table_in(*t), 0));
    while i < EDGES
        invariant
            i <= EDGES,
            pair_texts(out@) == edges_in(table_in(*t), i as int),
        decreases EDGES - i,
    {
        if let Some(v) = look_in(t, key_of_edge(i)) {
            out.push((name_of_edge(i).to_owned(), v));
        }
        i += 1;
    }
    out
}

fn any_lined(e: &Vec<(String, String)>) -> (r: bool)
    ensures
        r == exists|i: int|
            0 <= i < e@.len() && has_line((#[trigger] pair_texts(e@)[i]).1),
{
    let mut i: usize = 0;
    while i < e.len()
        invariant
            i <= e@.len(),
            forall|k: int| 0 <= k < i ==> !has_line((#[trigger] pair_texts(e@)[k]).1),
        decreases e@.len() - i,
    {
        assert(pair_texts(e@)[i as int].1 == e@[i as int].1@);
        if edge_lined(e[i].1.as_str()) {
            return true;
        }
        i += 1;
    }
    false
}

fn is_padded(t: &Option<Vec<(String, String)>>) -> (r: bool)
    ensures
        r == padded(table_in(*t)),
{
    let m: &Vec<(String, String)> = match t {
        Some(m) => m,
        None => {
            return false;
        },
    };
    let mut i: usize = 0;
    while i < m.len()
        invariant
            i <= m@.len(),
            table_in(*t) == Some(pair_texts(m@)),
            forall|k: int|
                0 <= k < i ==> !begins((#[trigger] pair_texts(m@)[k]).0, "fo:padding"@),
        decreases m@.len() - i,
    {
        assert(pair_texts(m@)[i as int].0 == m@[i as int].0@);
        if starts_with(m[i].0.as_str(), "fo:padding") {
            let ghost pm = table_in(*t).unwrap();
            assert(0 <= i < pm.len() && begins(pm[i as int].0, "fo:padding"@));
            return true;
        }
        i += 1;
    }
    false
}

/// How many columns an element stands for: what it writes, or one.
pub open spec fn times(kid: Node) -> int {
    match attr_said(kid, "number-columns-repeated"@) {
        Some(raw) => match unsigned_value(trimmed(raw), usize::MAX as int) {
            Some(n) => n,
            None => 1,
        },
        None => 1,
    }
}

fn read_times(kid: &Node) -> (r: usize)
    ensures
        r == times(*kid),
{
    match attr_of(kid, "number-columns-repeated") {
        Some(raw) => match parse_unsigned(trim(raw), usize::MAX as u64) {
            Some(n) => n as usize,
            None => 1,
        },
        None => 1,
    }
}

/// The style that an element names.
pub open spec fn style_of(n: Node, styles: Seq<Held>) -> Option<Held> {
    meant(styles, attr_said(n, "style-name"@))
}

fn find_style<'a>(n: &Node, styles: &Vec<Found<'a>>) -> (r: Option<Found<'a>>)
    ensures
        held_in(r) == style_of(*n, all_held(styles@)),
{
    resolve(styles, attr_of(n, "style-name"))
}

/// One column element.
#[derive(Debug, Clone)]
pub struct ColumnRow {
    pub written: Vec<(String, String)>,
    pub style: Option<String>,
    pub style_part: Option<Part>,
    pub repeated: usize,
    pub width: Option<Vec<(String, String)>>,
    /// The width in hundredths of a millimetre.
    pub mm: Option<i64>,
}

impl ColumnRow {
    pub open spec fn describes(self, kid: Node, columns: Seq<Held>) -> bool {
        let width = props_of(style_of(kid, columns), "table-column-properties"@);
        &&& pair_texts(self.written@) == kept_table(kid)
        &&& text_in(self.style) == attr_said(kid, "style-name"@)
        &&& self.style_part == part_in(style_of(kid, columns))
        &&& self.repeated == times(kid)
        &&& table_in(self.width) == width
        &&& is_value(self.mm, length_if(entry_in(width, "style:column-width"@)))
    }
}

fn read_column(kid: &Node, columns: &Vec<Found>) -> (r: ColumnRow)
    ensures
        r.describes(*kid, all_held(columns@)),
{
    let got: Option<Found> = find_style(kid, columns);
    let width: Option<Vec<(String, String)>> = read_props(got, "table-column-properties");
    let mm: Option<i64> = measure(&look_in(&width, "style:column-width"));
    ColumnRow {
        written: kept_attrs(kid),
        style: owned(attr_of(kid, "style-name")),
        style_part: part_of(got),
        repeated: read_times(kid),
        width,
        mm,
    }
}

/// A cell and where it stands.
pub struct CellPlace {
    pub row: int,
    pub col: int,
    pub tc: Node,
}

/// A place that another cell covers.
pub open spec fn is_covered(tc: Node) -> bool {
    tc.local_name() == "covered-table-cell"@
}

/// The cells of a row, covered places among them.
pub open spec fn row_cells(tr: Node) -> Seq<Node> {
    tr.children@.filter(|n: Node| n.local_name() == "table-cell"@ || is_covered(n))
}

/// The cells of the first `n` rows.
pub open spec fn cells_upto(rows: Seq<Node>, n: int) -> Seq<CellPlace>
    decreases n,
{
    if n <= 0 {
        Seq::empty()
    } else {
        let c = row_cells(rows[n - 1]);
        cells_upto(rows, n - 1) + Seq::new(
            c.len(),
            |j: int| CellPlace { row: n - 1, col: j, tc: c[j] },
        )
    }
}

/// The cells of a table.
pub open spec fn cells_of(tbl: Node) -> Seq<CellPlace> {
    let rows = tbl.all_of("table-row"@);
    cells_upto(rows, rows.len() as int)
}

/// The cells without their places.
pub open spec fn bare(c: Seq<CellPlace>) -> Seq<Node> {
    Seq::new(c.len(), |i: int| c[i].tc)
}

/// What the style of a cell writes about it.
pub open spec fn looks(tc: Node, styles: Seq<Held>) -> Option<Seq<(Seq<char>, Seq<char>)>> {
    props_of(style_of(tc, styles), "table-cell-properties"@)
}

fn read_looks(tc: &Node, styles: &Vec<Found>) -> (r: Option<Vec<(String, String)>>)
    ensures
        table_in(r) == looks(*tc, all_held(styles@)),
{
    read_props(find_style(tc, styles), "table-cell-properties")
}

/// One cell.
#[derive(Debug, Clone)]
pub struct CellRow {
    pub row: usize,
    pub col: usize,
    pub covered: bool,
    pub attrs: Vec<(String, String)>,
    pub style: Option<String>,
    pub style_part: Option<Part>,
    pub written: Option<Vec<(String, String)>>,
    pub shading: Option<String>,
    pub valign: Option<String>,
    pub borders: Vec<(String, String)>,
    pub lined: bool,
    pub padded: bool,
}

impl CellRow {
    pub open spec fn describes(self, p: CellPlace, styles: Seq<Held>) -> bool {
        let t = looks(p.tc, styles);
        &&& self.row == p.row
        &&& self.col == p.col
        &&& self.covered == is_covered(p.tc)
        &&& pair_texts(self.attrs@) == kept_table(p.tc)
        &&& text_in(self.style) == attr_said(p.tc, "style-name"@)
        &&& self.style_part == part_in(style_of(p.tc, styles))
        &&& table_in(self.written) == t
        &&& text_in(self.shading) == entry_in(t, "fo:background-color"@)
        &&& text_in(self.valign) == entry_in(t, "style:vertical-align"@)
        &&& pair_texts(self.borders@) == edges_in(t, EDGES as int)
        &&& self.lined == lined(t)
        &&& self.padded == padded(t)
    }
}

fn read_cell(tc: &Node, row: usize, col: usize, styles: &Vec<Found>) -> (r: CellRow)
    ensures
        r.describes(CellPlace { row: row as int, col: col as int, tc: *tc }, all_held(styles@)),
{
    let got: Option<Found> = find_style(tc, styles);
    let written: Option<Vec<(String, String)>> = read_props(got, "table-cell-properties");
    let borders: Vec<(String, String)> = read_edges(&written);
    let lined: bool = any_lined(&borders);
    let padded: bool = is_padded(&written);
    let shading: Option<String> = look_in(&written, "fo:background-color");
    let valign: Option<String> = look_in(&written, "style:vertical-align");
    CellRow {
        row,
        col,
        covered: tc.is("covered-table-cell"),
        attrs: kept_attrs(tc),
        style: owned(attr_of(tc, "style-name")),
        style_part: part_of(got),
        written,
        shading,
        valign,
        borders,
        lined,
        padded,
    }
}

/// A cell where it stands.
struct Placed<'a> {
    row: usize,
    col: usize,
    tc: &'a Node,
}

impl Placed<'_> {
    spec fn place(self) -> CellPlace {
        CellPlace { row: self.row as int, col: self.col as int, tc: *self.tc }
    }
}

spec fn places(v: Seq<Placed>) -> Seq<CellPlace> {
    Seq::new(v.len(), |i: int| v[i].place())
}

/// The cells of a row.
fn pick_cells<'a>(tr: &'a Node) -> (r: Vec<&'a Node>)
    ensures
        nodes(r@) == row_cells(*tr),
{
    let ghost p = |n: Node| n.local_name() == "table-cell"@ || is_covered(n);
    let mut out: Vec<&'a Node> = Vec::new();
    let mut i: usize = 0;
    assert(nodes(out@) =~= tr.children@.take(0).filter(p)) by {
        reveal(Seq::filter);
    }
    while i < tr.children.len()
        invariant
            i <= tr.children@.len(),
            p == (|n: Node| n.local_name() == "table-cell"@ || is_covered(n)),
            nodes(out@) == tr.children@.take(i as int).filter(p),
        decreases tr.children@.len() - i,
    {
        proof {
            lemma_filter_take(tr.children@, p, i as int);
        }
        if tr.children[i].is("table-cell") || tr.children[i].is("covered-table-cell") {
            out.push(&tr.children[i]);
        }
        i += 1;
    }
    assert(tr.children@.take(i as int) =~= tr.children@);
    out
}

/// Appends the cells of a table.
fn add_cells<'a>(tbl: &'a Node, out: &mut Vec<Placed<'a>>)
    ensures
        places(final(out)@) == places(old(out)@) + cells_of(*tbl),
{
    let rows: Vec<&'a Node> = tbl.all("table-row");
    let ghost rs = nodes(rows@);
    let ghost start = places(out@);
    let mut i: usize = 0;
    assert(start + cells_upto(rs, 0) =~= start);
    while i < rows.len()
        invariant
            i <= rows@.len(),
            rs == nodes(rows@),
            places(out@) == start + cells_upto(rs, i as int),
        decreases rows@.len() - i,
    {
        let cells: Vec<&'a Node> = pick_cells(rows[i]);
        let ghost c = row_cells(rs[i as int]);
        let ghost before = places(out@);
        let ghost more = Seq::new(
            c.len(),
            |j: int| CellPlace { row: i as int, col: j, tc: c[j] },
        );
        assert(c == nodes(cells@));
        let mut j: usize = 0;
        assert(before + more.take(0) =~= before);
        while j < cells.len()
            invariant
                j <= cells@.len(),
                c == nodes(cells@),
                more == Seq::new(
                    c.len(),
                    |j: int| CellPlace { row: i as int, col: j, tc: c[j] },
                ),
                places(out@) == before + more.take(j as int),
            decreases cells@.len() - j,
        {
            let ghost had = places(out@);
            let tc: &'a Node = cells[j];
            assert(c[j as int] == *tc);
            out.push(Placed { row: i, col: j, tc });
            assert(places(out@) =~= had.push(more[j as int]));
            j += 1;
            assert(places(out@) =~= before + more.take(j as int));
        }
        assert(more.take(j as int) =~= more);
        assert(cells_upto(rs, i + 1) =~= cells_upto(rs, i as int) + more);
        assert(places(out@) =~= start + cells_upto(rs, i + 1));
        i += 1;
    }
}

/// The cells without their places.
fn strip<'a>(c: &Vec<Placed<'a>>) -> (r: Vec<&'a Node>)
    ensures
        nodes(r@) == bare(places(c@)),
{
    let tcs: Vec<&'a Node> = each(
        c,
        c.len(),
        |i: usize, p: &Placed<'a>| -> (r: &'a Node)
            ensures
                *r == p.place().tc
            { p.tc },
    );
    assert(nodes(tcs@) =~= bare(places(c@)));
    tcs
}

fn count_covered(tcs: &Vec<&Node>) -> (r: usize)
    ensures
        r == nodes(tcs@).filter(|t: Node| is_covered(t)).len(),
{
    count_nodes(
        tcs,
        |t: &Node| -> (b: bool)
            ensures
                b == is_covered(*t)
            { t.is("covered-table-cell") },
        Ghost(|t: Node| is_covered(t)),
    )
}

/// The styles that tables, their columns and their cells name.
pub struct Styles {
    pub columns: Seq<Held>,
    pub tables: Seq<Held>,
    pub cells: Seq<Held>,
}

/// The first style of each name in a family.
pub open spec fn styles_of(all: Seq<Held>, family: Seq<char>) -> Seq<Held> {
    let s = of_family(all, family);
    distinct(s, s.len() as int)
}

/// The styles that tables, their columns and their cells name.
pub open spec fn table_styles(content: Node, styles: Option<Node>) -> Styles {
    let all = everywhere(content, styles, "style"@);
    Styles {
        columns: styles_of(all, "table-column"@),
        tables: styles_of(all, "table"@),
        cells: styles_of(all, "table-cell"@),
    }
}

/// One table.
#[derive(Debug, Clone)]
pub struct TableRow {
    pub at: usize,
    pub cell_elements: usize,
    pub covered_cells: usize,
    pub cells: Vec<CellRow>,
    pub name: Option<String>,
    pub style: Option<String>,
    pub style_part: Option<Part>,
    pub written: Option<Vec<(String, String)>>,
    /// The width in hundredths of a millimetre.
    pub mm: Option<i64>,
    pub columns: Vec<ColumnRow>,
}

impl TableRow {
    pub open spec fn describes(self, tbl: Node, at: int, s: Styles, limit: usize) -> bool {
        let cells = cells_of(tbl);
        let columns = tbl.all_of("table-column"@);
        let written = props_of(style_of(tbl, s.tables), "table-properties"@);
        &&& self.at == at
        &&& self.cell_elements == cells.len()
        &&& self.covered_cells == bare(cells).filter(|t: Node| is_covered(t)).len()
        &&& self.cells@.len() == at_most(cells.len(), limit)
        &&& forall|i: int|
            0 <= i < self.cells@.len() ==> (#[trigger] self.cells@[i]).describes(cells[i], s.cells)
        &&& text_in(self.name) == attr_said(tbl, "name"@)
        &&& text_in(self.style) == attr_said(tbl, "style-name"@)
        &&& self.style_part == part_in(style_of(tbl, s.tables))
        &&& table_in(self.written) == written
        &&& is_value(self.mm, length_if(entry_in(written, "style:width"@)))
        &&& self.columns@.len() == at_most(columns.len(), limit)
        &&& forall|i: int|
            0 <= i < self.columns@.len() ==> (#[trigger] self.columns@[i]).describes(
                columns[i],
                s.columns,
            )
    }
}

/// The styles that tables, their columns and their cells name.
struct Shelf<'a> {
    columns: Vec<Found<'a>>,
    tables: Vec<Found<'a>>,
    cells: Vec<Found<'a>>,
}

impl Shelf<'_> {
    spec fn model(self) -> Styles {
        Styles {
            columns: all_held(self.columns@),
            tables: all_held(self.tables@),
            cells: all_held(self.cells@),
        }
    }
}

fn read_table(tbl: &Node, at: usize, s: &Shelf, limit: usize) -> (r: TableRow)
    ensures
        r.describes(*tbl, at as int, s.model(), limit),
{
    let mut all: Vec<Placed> = Vec::new();
    add_cells(tbl, &mut all);
    assert(places(all@) =~= cells_of(*tbl));
    let cell_styles: &Vec<Found> = &s.cells;
    let cells: Vec<CellRow> = each(
        &all,
        cut(all.len(), limit),
        |i: usize, p: &Placed| -> (r: CellRow)
            ensures
                r.describes(p.place(), all_held(cell_styles@))
            { read_cell(p.tc, p.row, p.col, cell_styles) },
    );
    let kids: Vec<&Node> = tbl.all("table-column");
    assert(nodes(kids@).len() == kids@.len());
    let column_styles: &Vec<Found> = &s.columns;
    let columns: Vec<ColumnRow> = each(
        &kids,
        cut(kids.len(), limit),
        |i: usize, n: &&Node| -> (r: ColumnRow)
            ensures
                r.describes(**n, all_held(column_styles@))
            { read_column(n, column_styles) },
    );
    assert forall|i: int| 0 <= i < columns@.len() implies (#[trigger] columns@[i]).describes(
        tbl.all_of("table-column"@)[i],
        s.model().columns,
    ) by {
        assert(nodes(kids@)[i] == *kids@[i]);
    }
    let covered_cells: usize = count_covered(&strip(&all));
    let held: Option<Found> = find_style(tbl, &s.tables);
    let written: Option<Vec<(String, String)>> = read_props(held, "table-properties");
    let mm: Option<i64> = measure(&look_in(&written, "style:width"));
    TableRow {
        at,
        cell_elements: all.len(),
        covered_cells,
        cells,
        name: owned(attr_of(tbl, "name")),
        style: owned(attr_of(tbl, "style-name")),
        style_part: part_of(held),
        written,
        mm,
        columns,
    }
}

/// The tables that are listed.
pub open spec fn tables_of(body: Node, limit: usize) -> Seq<Node> {
    let all = body.below("table"@);
    all.take(at_most(all.len(), limit) as int)
}

/// The cells of each table.
pub open spec fn cells_fn(tables: Seq<Node>) -> spec_fn(int) -> Seq<CellPlace> {
    |i: int| cells_of(tables[i])
}

/// The column elements of each table.
pub open spec fn columns_fn(tables: Seq<Node>) -> spec_fn(int) -> Seq<Node> {
    |i: int| tables[i].all_of("table-column"@)
}

/// How many columns a list of column elements stands for.
pub open spec fn columns_meant(c: Seq<Node>) -> int
    decreases c.len(),
{
    if c.len() == 0 {
        0
    } else {
        columns_meant(c.drop_last()) + times(c.last())
    }
}

/// What the tables of a text say about their widths and their cells. The counts are over all
/// tables.
#[derive(Debug, Clone)]
pub struct TableReport {
    pub tables: usize,
    pub column_elements: usize,
    pub covered: u128,
    pub resolved: usize,
    pub column_styles: usize,
    pub table_styles: usize,
    pub cell_styles: usize,
    pub cell_styles_in_content: usize,
    pub cell_styles_in_styles: usize,
    pub cell_elements: usize,
    pub covered_cells: usize,
    pub cells_unresolved: usize,
    pub shade_cells: usize,
    pub align_cells: usize,
    pub lined_cells: usize,
    pub padded_cells: usize,
    pub list: Vec<TableRow>,
}

impl TableReport {
    /// What is said of the columns and of the styles.
    pub open spec fn counts_columns(self, columns: Seq<Node>, s: Styles) -> bool {
        &&& self.column_elements == columns.len()
        &&& self.covered == columns_meant(columns)
        &&& self.resolved == columns.filter(|n: Node| style_of(n, s.columns) is Some).len()
        &&& self.column_styles == s.columns.len()
        &&& self.table_styles == s.tables.len()
        &&& self.cell_styles == s.cells.len()
        &&& self.cell_styles_in_content == s.cells.filter(
            |h: Held| h.part == Part::Content,
        ).len()
        &&& self.cell_styles_in_styles == s.cells.filter(|h: Held| h.part == Part::Styles).len()
    }

    /// What is said of the cells, covered places among them.
    pub open spec fn counts_cells(self, cells: Seq<Node>, s: Seq<Held>) -> bool {
        &&& self.cell_elements == cells.len()
        &&& self.covered_cells == cells.filter(|t: Node| is_covered(t)).len()
        &&& self.cells_unresolved == cells.filter(
            |t: Node| attr_said(t, "style-name"@) is Some && style_of(t, s) is None,
        ).len()
        &&& self.shade_cells == cells.filter(
            |t: Node| entry_in(looks(t, s), "fo:background-color"@) is Some,
        ).len()
        &&& self.align_cells == cells.filter(
            |t: Node| entry_in(looks(t, s), "style:vertical-align"@) is Some,
        ).len()
        &&& self.lined_cells == cells.filter(|t: Node| lined(looks(t, s))).len()
        &&& self.padded_cells == cells.filter(|t: Node| padded(looks(t, s))).len()
    }

    pub open spec fn describes(
        self,
        body: Node,
        content: Node,
        styles: Option<Node>,
        limit: usize,
    ) -> bool {
        let s = table_styles(content, styles);
        let tables = body.below("table"@);
        let n = tables.len() as int;
        &&& self.tables == n
        &&& self.counts_columns(joined(columns_fn(tables), n), s)
        &&& self.counts_cells(bare(joined(cells_fn(tables), n)), s.cells)
        &&& self.list@.len() == at_most(tables.len(), limit)
        &&& forall|i: int|
            0 <= i < self.list@.len() ==> (#[trigger] self.list@[i]).describes(
                tables[i],
                i,
                s,
                limit,
            )
    }
}

fn add_times(kids: &Vec<&Node>) -> (r: u128)
    ensures
        r == columns_meant(nodes(kids@)),
{
    let ghost c = nodes(kids@);
    let size: usize = kids.len();
    let mut sum: u128 = 0;
    let mut i: usize = 0;
    assert(c.take(0) =~= Seq::empty());
    while i < size
        invariant
            i <= size,
            size == kids@.len(),
            c == nodes(kids@),
            sum == columns_meant(c.take(i as int)),
            sum <= 0xffff_ffff_ffff_ffff * i,
        decreases size - i,
    {
        assert(c.take(i + 1).drop_last() =~= c.take(i as int));
        assert(c.take(i + 1).last() == *kids@[i as int]);
        sum = sum + read_times(kids[i]) as u128;
        i += 1;
    }
    assert(c.take(i as int) =~= c);
    sum
}

/// The styles that tables, their columns and their cells name.
fn read_styles<'a>(content: &'a Node, styles: Option<&'a Node>) -> (r: Shelf<'a>)
    ensures
        r.model() == table_styles(*content, node_in(styles)),
{
    let all: Vec<Found<'a>> = look_everywhere(content, styles, "style");
    let columns: Vec<Found<'a>> = pick_family(&all, "table-column");
    let tables: Vec<Found<'a>> = pick_family(&all, "table");
    let cells: Vec<Found<'a>> = pick_family(&all, "table-cell");
    assert(all_held(columns@).len() == columns@.len());
    assert(all_held(tables@).len() == tables@.len());
    assert(all_held(cells@).len() == cells@.len());
    Shelf {
        columns: pick_distinct(&columns),
        tables: pick_distinct(&tables),
        cells: pick_distinct(&cells),
    }
}

/// What the tables of a text say about their widths and their cells. All tables are counted, and
/// at most `limit` of them are listed with at most `limit` columns and cells each. Styles of the
/// content go before those of the style part.
pub fn odf_table_layouts(
    text_body: &Node,
    content_root: &Node,
    style_root: Option<&Node>,
    limit: usize,
) -> (r: TableReport)
    ensures
        r.describes(*text_body, *content_root, node_in(style_root), limit),
{
    let shelf: Shelf = read_styles(content_root, style_root);
    let ghost s = table_styles(*content_root, node_in(style_root));
    let all: Vec<&Node> = text_body.descendants("table");
    let n: usize = all.len();
    let ghost tables = nodes(all@);
    let mut cells: Vec<Placed> = Vec::new();
    let mut columns: Vec<&Node> = Vec::new();
    let mut i: usize = 0;
    while i < n
        invariant
            i <= n,
            n == all@.len(),
            tables == nodes(all@),
            places(cells@) == joined(cells_fn(tables), i as int),
            nodes(columns@) == joined(columns_fn(tables), i as int),
        decreases n - i,
    {
        let tbl: &Node = all[i];
        assert(tables[i as int] == *tbl);
        add_cells(tbl, &mut cells);
        let mut own: Vec<&Node> = tbl.all("table-column");
        let ghost had = nodes(columns@);
        let ghost more = nodes(own@);
        columns.append(&mut own);
        assert(nodes(columns@) =~= had + more);
        i += 1;
    }
    let tcs: Vec<&Node> = strip(&cells);
    let ghost cs = s.cells;
    let ghost bc = bare(joined(cells_fn(tables), n as int));
    assert(nodes(tcs@) == bc);
    assert(tcs@.len() == bc.len());
    let cell_styles: &Vec<Found> = &shelf.cells;
    let column_styles: &Vec<Found> = &shelf.columns;
    let resolved: usize = count_nodes(
        &columns,
        |t: &Node| -> (b: bool)
            ensures
                b == (style_of(*t, all_held(column_styles@)) is Some)
            { find_style(t, column_styles).is_some() },
        Ghost(|t: Node| style_of(t, s.columns) is Some),
    );
    let cells_unresolved: usize = count_nodes(
        &tcs,
        |t: &Node| -> (b: bool)
            ensures
                b == (attr_said(*t, "style-name"@) is Some && style_of(
                    *t,
                    all_held(cell_styles@),
                ) is None)
            { attr_of(t, "style-name").is_some() && find_style(t, cell_styles).is_none() },
        Ghost(|t: Node| attr_said(t, "style-name"@) is Some && style_of(t, cs) is None),
    );
    let shade_cells: usize = count_nodes(
        &tcs,
        |t: &Node| -> (b: bool)
            ensures
                b == (entry_in(
                    looks(*t, all_held(cell_styles@)),
                    "fo:background-color"@,
                ) is Some)
            { look_in(&read_looks(t, cell_styles), "fo:background-color").is_some() },
        Ghost(|t: Node| entry_in(looks(t, cs), "fo:background-color"@) is Some),
    );
    let align_cells: usize = count_nodes(
        &tcs,
        |t: &Node| -> (b: bool)
            ensures
                b == (entry_in(
                    looks(*t, all_held(cell_styles@)),
                    "style:vertical-align"@,
                ) is Some)
            { look_in(&read_looks(t, cell_styles), "style:vertical-align").is_some() },
        Ghost(|t: Node| entry_in(looks(t, cs), "style:vertical-align"@) is Some),
    );
    let lined_cells: usize = count_nodes(
        &tcs,
        |t: &Node| -> (b: bool)
            ensures
                b == lined(looks(*t, all_held(cell_styles@)))
            { any_lined(&read_edges(&read_looks(t, cell_styles))) },
        Ghost(|t: Node| lined(looks(t, cs))),
    );
    let padded_cells: usize = count_nodes(
        &tcs,
        |t: &Node| -> (b: bool)
            ensures
                b == padded(looks(*t, all_held(cell_styles@)))
            { is_padded(&read_looks(t, cell_styles)) },
        Ghost(|t: Node| padded(looks(t, cs))),
    );
    let list: Vec<TableRow> = each(
        &all,
        cut(n, limit),
        |at: usize, t: &&Node| -> (r: TableRow)
            ensures
                r.describes(**t, at as int, shelf.model(), limit)
            { read_table(t, at, &shelf, limit) },
    );
    assert forall|i: int| 0 <= i < list@.len() implies (#[trigger] list@[i]).describes(
        tables[i],
        i,
        s,
        limit,
    ) by {
        assert(tables[i] == *all@[i]);
    }
    assert(nodes(columns@).len() == columns@.len());
    TableReport {
        tables: n,
        column_elements: columns.len(),
        covered: add_times(&columns),
        resolved,
        column_styles: shelf.columns.len(),
        table_styles: shelf.tables.len(),
        cell_styles: shelf.cells.len(),
        cell_styles_in_content: count_part(&shelf.cells, Part::Content),
        cell_styles_in_styles: count_part(&shelf.cells, Part::Styles),
        cell_elements: tcs.len(),
        covered_cells: count_covered(&tcs),
        cells_unresolved,
        shade_cells,
        align_cells,
        lined_cells,
        padded_cells,
        list,
    }
}

/// An edge has a line unless one of the words of its value says that there is none.
pub proof fn law_which_edges_have_a_line(raw: Seq<char>)
    ensures
        has_line(raw) <==> !has_word(raw, "none"@) && !has_word(raw, "hidden"@),
{
}

/// A cell style tells its edges under nine names, and each is handed on without its prefix.
pub proof fn law_which_edges_are_told(t: Seq<(Seq<char>, Seq<char>)>, n: int)
    requires
        0 <= n < 9,
    ensures
        edges_in(Some(t), 0).len() == 0,
        edges_in(None, 9).len() == 0,
        ({
            let keys = seq![
                "fo:border"@,
                "fo:border-left"@,
                "fo:border-right"@,
                "fo:border-top"@,
                "fo:border-bottom"@,
                "fo:border-before"@,
                "fo:border-after"@,
                "fo:border-start"@,
                "fo:border-end"@,
            ];
            let names = seq![
                "border"@,
                "border-left"@,
                "border-right"@,
                "border-top"@,
                "border-bottom"@,
                "border-before"@,
                "border-after"@,
                "border-start"@,
                "border-end"@,
            ];
            match crate::written::entry_of(t, keys[n]) {
                Some(v) => edges_in(Some(t), n + 1) == edges_in(Some(t), n).push((names[n], v)),
                None => edges_in(Some(t), n + 1) == edges_in(Some(t), n),
            }
        }),
        lined(Some(t)) <==> exists|i: int|
            0 <= i < edges_in(Some(t), 9).len() && has_line(
                (#[trigger] edges_in(Some(t), 9)[i]).1,
            ),
        !lined(None),
        padded(Some(t)) <==> exists|i: int|
            0 <= i < t.len() && begins((#[trigger] t[i]).0, "fo:padding"@),
        !padded(None),
{
    lemma_no_edges(9);
}

proof fn lemma_no_edges(n: int)
    ensures
        edges_in(None, n).len() == 0,
    decreases n,
{
    if n > 0 {
        lemma_no_edges(n - 1);
    }
}

/// A column element stands for as many columns as it says, and for one where it does not or where
/// what it says is no number.
pub proof fn law_how_many_columns_an_element_is(kid: Node, c: Seq<Node>)
    ensures
        attr_said(kid, "number-columns-repeated"@) is None ==> times(kid) == 1,
        attr_said(kid, "number-columns-repeated"@) matches Some(raw) ==> match unsigned_value(
            trimmed(raw),
            usize::MAX as int,
        ) {
            Some(n) => times(kid) == n,
            None => times(kid) == 1,
        },
        columns_meant(Seq::empty()) == 0,
        columns_meant(c.push(kid)) == columns_meant(c) + times(kid),
{
    assert(c.push(kid).drop_last() =~= c);
}

/// What is told of a column: what it writes, the style it names, and the width that the style
/// writes.
pub proof fn law_what_a_column_says(r: ColumnRow, kid: Node, columns: Seq<Held>, h: Held, props: Node)
    requires
        r.describes(kid, columns),
        meant(columns, attr_said(kid, "style-name"@)) == Some(h),
        h.node.child_of("table-column-properties"@) == Some(props),
    ensures
        pair_texts(r.written@) == kept_table(kid),
        text_in(r.style) == attr_said(kid, "style-name"@),
        r.style_part == Some(h.part),
        r.repeated == times(kid),
        table_in(r.width) == Some(kept_table(props)),
        crate::written::entry_of(kept_table(props), "style:column-width"@) is None ==> r.mm is None,
        crate::written::entry_of(kept_table(props), "style:column-width"@) matches Some(raw)
            ==> is_value(r.mm, crate::paper::length_of(raw)),
{
}

/// The cells of a row are its cells and its covered places, each counted as one, row by row.
pub proof fn law_where_cells_stand(rows: Seq<Node>, n: int, j: int, q: spec_fn(Node) -> bool)
    requires
        0 <= n,
        forall|x: Node| #[trigger]
            q(x) == (x.local_name() == "table-cell"@ || x.local_name() == "covered-table-cell"@),
        0 <= j < rows[n].children@.filter(q).len(),
    ensures
        cells_upto(rows, 0).len() == 0,
        cells_upto(rows, n + 1).len() == cells_upto(rows, n).len() + rows[n].children@.filter(
            q,
        ).len(),
        cells_upto(rows, n + 1)[cells_upto(rows, n).len() + j] == (CellPlace {
            row: n,
            col: j,
            tc: rows[n].children@.filter(q)[j],
        }),
{
    let p = |x: Node| x.local_name() == "table-cell"@ || is_covered(x);
    assert(p =~= q);
}

/// What is told of a cell: whether it is covered, the style it names, and what the style writes
/// about shading, alignment and edges.
pub proof fn law_what_a_cell_says(r: CellRow, p: CellPlace, styles: Seq<Held>, h: Held, props: Node)
    requires
        r.describes(p, styles),
        meant(styles, attr_said(p.tc, "style-name"@)) == Some(h),
        h.node.child_of("table-cell-properties"@) == Some(props),
    ensures
        r.row == p.row && r.col == p.col,
        r.covered <==> p.tc.local_name() == "covered-table-cell"@,
        pair_texts(r.attrs@) == kept_table(p.tc),
        text_in(r.style) == attr_said(p.tc, "style-name"@),
        r.style_part == Some(h.part),
        table_in(r.written) == Some(kept_table(props)),
        text_in(r.shading) == crate::written::entry_of(kept_table(props), "fo:background-color"@),
        text_in(r.valign) == crate::written::entry_of(kept_table(props), "style:vertical-align"@),
        pair_texts(r.borders@) == edges_in(Some(kept_table(props)), 9),
        r.lined <==> lined(Some(kept_table(props))),
        r.padded <==> padded(Some(kept_table(props))),
{
}

/// A cell whose style is not there says nothing of its looks.
pub proof fn law_a_cell_without_its_style(r: CellRow, p: CellPlace, styles: Seq<Held>)
    requires
        r.describes(p, styles),
        meant(styles, attr_said(p.tc, "style-name"@)) is None,
    ensures
        r.style_part is None && r.written is None && r.shading is None && r.valign is None,
        r.borders@.len() == 0 && !r.lined && !r.padded,
{
    lemma_no_edges(9);
    assert(pair_texts(r.borders@).len() == r.borders@.len());
}

/// Columns, tables and cells each go by the styles of their own family, the first of each name.
pub proof fn law_which_styles_count(content: Node, styles: Option<Node>, all: Seq<Held>)
    requires
        all == everywhere(content, styles, "style"@),
    ensures
        table_styles(content, styles).columns == distinct(
            of_family(all, "table-column"@),
            of_family(all, "table-column"@).len() as int,
        ),
        table_styles(content, styles).tables == distinct(
            of_family(all, "table"@),
            of_family(all, "table"@).len() as int,
        ),
        table_styles(content, styles).cells == distinct(
            of_family(all, "table-cell"@),
            of_family(all, "table-cell"@).len() as int,
        ),
{
}

/// What is told of a table: its name, the style it names and the width that the style writes, its
/// column elements and its cells.
pub proof fn law_what_a_table_says(
    r: TableRow,
    tbl: Node,
    at: int,
    s: Styles,
    limit: usize,
    i: int,
)
    requires
        r.describes(tbl, at, s, limit),
    ensures
        r.at == at,
        text_in(r.name) == attr_said(tbl, "name"@),
        text_in(r.style) == attr_said(tbl, "style-name"@),
        r.cell_elements == cells_of(tbl).len(),
        r.covered_cells == bare(cells_of(tbl)).filter(
            |t: Node| t.local_name() == "covered-table-cell"@,
        ).len(),
        meant(s.tables, attr_said(tbl, "style-name"@)) matches Some(h) ==> {
            &&& r.style_part == Some(h.part)
            &&& table_in(r.written) == props_of(Some(h), "table-properties"@)
            &&& is_value(
                r.mm,
                length_if(entry_in(props_of(Some(h), "table-properties"@), "style:width"@)),
            )
        },
        meant(s.tables, attr_said(tbl, "style-name"@)) is None ==> r.style_part is None && r.written
            is None && r.mm is None,
        r.columns@.len() <= limit,
        r.columns@.len() == limit || r.columns@.len() == tbl.all_of("table-column"@).len(),
        0 <= i < r.columns@.len() ==> r.columns@[i].describes(
            tbl.all_of("table-column"@)[i],
            s.columns,
        ),
        0 <= i < r.cells@.len() ==> r.cells@[i].describes(cells_of(tbl)[i], s.cells),
        cells_of(tbl) == cells_upto(
            tbl.all_of("table-row"@),
            tbl.all_of("table-row"@).len() as int,
        ),
{
    let a = |t: Node| is_covered(t);
    let b = |t: Node| t.local_name() == "covered-table-cell"@;
    assert(a =~= b);
}

/// Each number of the report is how many columns, styles or cells are so, over all tables.
pub proof fn law_what_tables_are_counted_for(
    r: TableReport,
    body: Node,
    content: Node,
    styles: Option<Node>,
    limit: usize,
    s: Styles,
    cells: Seq<Node>,
    columns: Seq<Node>,
)
    requires
        r.describes(body, content, styles, limit),
        s == table_styles(content, styles),
        cells == bare(
            joined(cells_fn(body.below("table"@)), body.below("table"@).len() as int),
        ),
        columns == joined(columns_fn(body.below("table"@)), body.below("table"@).len() as int),
    ensures
        r.tables == body.below("table"@).len(),
        r.column_elements == columns.len(),
        r.covered == columns_meant(columns),
        r.resolved == columns.filter(
            |n: Node| meant(s.columns, attr_said(n, "style-name"@)) is Some,
        ).len(),
        r.column_styles == s.columns.len(),
        r.table_styles == s.tables.len(),
        r.cell_styles == s.cells.len(),
        r.cell_styles_in_content == s.cells.filter(|h: Held| h.part == Part::Content).len(),
        r.cell_styles_in_styles == s.cells.filter(|h: Held| h.part == Part::Styles).len(),
        r.cell_elements == cells.len(),
        r.covered_cells == cells.filter(
            |t: Node| t.local_name() == "covered-table-cell"@,
        ).len(),
        r.cells_unresolved == cells.filter(
            |t: Node|
                attr_said(t, "style-name"@) is Some && meant(s.cells, attr_said(t, "style-name"@))
                    is None,
        ).len(),
        r.shade_cells == cells.filter(
            |t: Node| entry_in(looks(t, s.cells), "fo:background-color"@) is Some,
        ).len(),
        r.align_cells == cells.filter(
            |t: Node| entry_in(looks(t, s.cells), "style:vertical-align"@) is Some,
        ).len(),
        r.lined_cells == cells.filter(|t: Node| lined(looks(t, s.cells))).len(),
        r.padded_cells == cells.filter(|t: Node| padded(looks(t, s.cells))).len(),
{
    let a = |n: Node| style_of(n, s.columns) is Some;
    let b = |n: Node| meant(s.columns, attr_said(n, "style-name"@)) is Some;
    assert(a =~= b);
    let a = |t: Node| is_covered(t);
    let b = |t: Node| t.local_name() == "covered-table-cell"@;
    assert(a =~= b);
    let a = |t: Node| attr_said(t, "style-name"@) is Some && style_of(t, s.cells) is None;
    let b = |t: Node|
        attr_said(t, "style-name"@) is Some && meant(s.cells, attr_said(t, "style-name"@)) is None;
    assert(a =~= b);
}

} // verus!
