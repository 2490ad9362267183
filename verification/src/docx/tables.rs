//! How wide tables say they are, and what their cells say about themselves.
//!
//! A table's own width, its grid and the widths of its cells are three statements, and nothing
//! makes them agree. Rows and cells are those of the table itself; a table inside a cell is
//! another one.

use crate::lists::{at_most, cut, each, joined};
use crate::paper::{is_value, twips, twips_of};
use crate::text::pair_texts;
use crate::written::{
    Written, ask, attr_map, children_of, count_nodes, entry_of, go, latest, lists_elements, look_up,
    map_if, pick_latest, said_by, says, step, table_if, table_in, table_of, text_in, write_out,
};
use crate::xml::{nodes, Node};
use vstd::prelude::*;

verus! {

broadcast use {crate::text::lemma_pair_texts_push, crate::xml::lemma_nodes_push};

/// The properties of a cell.
pub open spec fn cell_props(tc: Node) -> Option<Node> {
    tc.child_of("tcPr"@)
}

/// The borders of a cell.
pub open spec fn cell_edges(tc: Node) -> Option<Node> {
    step(cell_props(tc), "tcBorders"@)
}

/// An edge that writes something.
pub open spec fn is_edge(n: Node) -> bool {
    n.attr_text("val"@) is Some || n.attr_text("color"@) is Some
}

/// The edges of the first `n` that write something.
pub open spec fn edges_upto(c: Seq<Node>, n: int) -> Seq<Node>
    decreases n,
{
    if n <= 0 {
        Seq::empty()
    } else if is_edge(c[n - 1]) {
        edges_upto(c, n - 1).push(c[n - 1])
    } else {
        edges_upto(c, n - 1)
    }
}

/// The edges of a cell that write something. Of two for one side the later counts.
pub open spec fn edges_of(tc: Node) -> Seq<Node> {
    let c = children_of(cell_edges(tc));
    latest(edges_upto(c, c.len() as int))
}

/// A cell says something about itself: a width, a span, a shading, an alignment or an edge.
pub open spec fn cell_speaks(tc: Node) -> bool {
    step(cell_props(tc), "tcW"@) is Some || said_by(
        step(cell_props(tc), "gridSpan"@),
        "val"@,
    ) is Some || step(cell_props(tc), "shd"@) is Some || said_by(
        step(cell_props(tc), "vAlign"@),
        "val"@,
    ) is Some || children_of(cell_edges(tc)).len() > 0
}

/// A cell and where it stands.
pub struct CellPlace {
    pub row: int,
    pub col: int,
    pub tc: Node,
}

/// The speaking cells among the first `n` of a row.
pub open spec fn cells_in_row(c: Seq<Node>, row: int, n: int) -> Seq<CellPlace>
    decreases n,
{
    if n <= 0 {
        Seq::empty()
    } else if cell_speaks(c[n - 1]) {
        cells_in_row(c, row, n - 1).push(CellPlace { row, col: n - 1, tc: c[n - 1] })
    } else {
        cells_in_row(c, row, n - 1)
    }
}

/// The speaking cells of the first `n` rows.
pub open spec fn cells_upto(rows: Seq<Node>, n: int) -> Seq<CellPlace>
    decreases n,
{
    if n <= 0 {
        Seq::empty()
    } else {
        let c = rows[n - 1].all_of("tc"@);
        cells_upto(rows, n - 1) + cells_in_row(c, n - 1, c.len() as int)
    }
}

/// The speaking cells of a table.
pub open spec fn cells_of(tbl: Node) -> Seq<CellPlace> {
    let rows = tbl.all_of("tr"@);
    cells_upto(rows, rows.len() as int)
}

/// One cell.
#[derive(Debug, Clone)]
pub struct CellRow {
    pub row: usize,
    pub col: usize,
    pub written: Option<Vec<(String, String)>>,
    pub span: Option<String>,
    pub shading: Option<Vec<(String, String)>>,
    /// The edges that write something; `None` where the cell has no borders element.
    pub borders: Option<Vec<Written>>,
    pub valign: Option<String>,
}

impl CellRow {
    pub open spec fn describes(self, p: CellPlace) -> bool {
        &&& self.row == p.row
        &&& self.col == p.col
        &&& table_in(self.written) == table_if(step(cell_props(p.tc), "tcW"@))
        &&& text_in(self.span) == said_by(step(cell_props(p.tc), "gridSpan"@), "val"@)
        &&& table_in(self.shading) == table_if(step(cell_props(p.tc), "shd"@))
        &&& match self.borders {
            Some(v) => cell_edges(p.tc) is Some && lists_elements(v@, edges_of(p.tc)),
            None => cell_edges(p.tc) is None,
        }
        &&& text_in(self.valign) == said_by(step(cell_props(p.tc), "vAlign"@), "val"@)
    }
}

pub open spec fn cell_rows_describe(v: Seq<CellRow>, c: Seq<CellPlace>) -> bool {
    v.len() == c.len() && forall|i: int| 0 <= i < v.len() ==> (#[trigger] v[i]).describes(c[i])
}

fn read_edges(holder: &Node) -> (r: Vec<Written>)
    ensures
        lists_elements(
            r@,
            latest(edges_upto(holder.children@, holder.children@.len() as int)),
        ),
{
    let ghost c = holder.children@;
    let mut kept: Vec<&Node> = Vec::new();
    let mut i: usize = 0;
    assert(nodes(kept@) =~= edges_upto(c, 0));
    while i < holder.children.len()
        invariant
            i <= holder.children@.len(),
            c == holder.children@,
            nodes(kept@) == edges_upto(c, i as int),
        decreases holder.children@.len() - i,
    {
        let one: &Node = &holder.children[i];
        if one.attr_local("val").is_some() || one.attr_local("color").is_some() {
            kept.push(one);
        }
        i += 1;
    }
    write_out(&pick_latest(&kept))
}

/// Whether a cell says something about itself.
fn speaks(tc: &Node) -> (r: bool)
    ensures
        r == cell_speaks(*tc),
{
    let props: Option<&Node> = tc.child("tcPr");
    let has_edge: bool = match go(props, "tcBorders") {
        Some(holder) => holder.children.len() > 0,
        None => false,
    };
    go(props, "tcW").is_some() || ask(go(props, "gridSpan"), "val").is_some() || go(
        props,
        "shd",
    ).is_some() || ask(go(props, "vAlign"), "val").is_some() || has_edge
}

fn read_cell(tc: &Node, row: usize, col: usize) -> (r: CellRow)
    ensures
        r.describes(CellPlace { row: row as int, col: col as int, tc: *tc }),
{
    let props: Option<&Node> = tc.child("tcPr");
    CellRow {
        row,
        col,
        written: map_if(go(props, "tcW")),
        span: ask(go(props, "gridSpan"), "val"),
        shading: map_if(go(props, "shd")),
        borders: match go(props, "tcBorders") {
            Some(holder) => Some(read_edges(holder)),
            None => None,
        },
        valign: ask(go(props, "vAlign"), "val"),
    }
}

/// A cell where it stands.
struct Placed<'a> {
    row: usize,
    col: usize,
    tc: &'a Node,
}

impl Placed<'_> {
    spec fn place(self) -> CellPlace {
        CellPlace { row: self.row as int, col: self.col as int, tc: *self.tc }
    }
}

spec fn places(v: Seq<Placed>) -> Seq<CellPlace> {
    Seq::new(v.len(), |i: int| v[i].place())
}

/// Appends the cells of a table that say something about themselves.
fn speaking<'a>(tbl: &'a Node, out: &mut Vec<Placed<'a>>)
    ensures
        places(final(out)@) == places(old(out)@) + cells_of(*tbl),
{
    let rows: Vec<&'a Node> = tbl.all("tr");
    let ghost rs = nodes(rows@);
    let ghost start = places(out@);
    let mut i: usize = 0;
    assert(start + cells_upto(rs, 0) =~= start);
    while i < rows.len()
        invariant
            i <= rows@.len(),
            rs == nodes(rows@),
            places(out@) == start + cells_upto(rs, i as int),
        decreases rows@.len() - i,
    {
        let cells: Vec<&'a Node> = rows[i].all("tc");
        let ghost c = nodes(cells@);
        let ghost before = places(out@);
        assert(c == rs[i as int].all_of("tc"@));
        let mut j: usize = 0;
        assert(before + cells_in_row(c, i as int, 0) =~= before);
        while j < cells.len()
            invariant
                j <= cells@.len(),
                c == nodes(cells@),
                places(out@) == before + cells_in_row(c, i as int, j as int),
            decreases cells@.len() - j,
        {
            let ghost had = places(out@);
            let tc: &'a Node = cells[j];
            assert(c[j as int] == *tc);
            if speaks(tc) {
                out.push(Placed { row: i, col: j, tc });
                assert(places(out@) =~= had.push(
                    CellPlace { row: i as int, col: j as int, tc: *tc },
                ));
            }
            assert(places(out@) =~= before + cells_in_row(c, i as int, j + 1));
            j += 1;
        }
        assert(places(out@) =~= start + cells_upto(rs, i + 1));
        i += 1;
    }
}

/// Reads the cells of a table that say something about themselves, at most `limit` of them.
fn read_cells(tbl: &Node, limit: usize) -> (r: Vec<CellRow>)
    ensures
        cell_rows_describe(
            r@,
            cells_of(*tbl).take(at_most(cells_of(*tbl).len(), limit) as int),
        ),
{
    let mut all: Vec<Placed> = Vec::new();
    speaking(tbl, &mut all);
    assert(places(all@) =~= cells_of(*tbl));
    let n: usize = cut(all.len(), limit);
    each(
        &all,
        n,
        |i: usize, p: &Placed| -> (r: CellRow)
            ensures
                r.describes(p.place())
            { read_cell(p.tc, p.row, p.col) },
    )
}

/// One table.
#[derive(Debug, Clone)]
pub struct TableRow {
    pub at: usize,
    /// What the width element writes, where there is one.
    pub written: Option<Vec<(String, String)>>,
    pub w: Option<String>,
    pub kind: Option<String>,
    /// The width in hundredths of a millimetre.
    pub mm: Option<i64>,
    pub align: Option<String>,
    pub indent: Option<Vec<(String, String)>>,
    pub layout: Option<String>,
    pub cell_mar: bool,
    pub rows: usize,
    pub grid: Vec<Vec<(String, String)>>,
    pub cells: Vec<CellRow>,
}

/// The width element of a table.
pub open spec fn width_of(tbl: Node) -> Option<Node> {
    step(tbl.child_of("tblPr"@), "tblW"@)
}

/// The grid columns of a table.
pub open spec fn grid_of(tbl: Node) -> Seq<Node> {
    match tbl.child_of("tblGrid"@) {
        Some(g) => g.all_of("gridCol"@),
        None => Seq::empty(),
    }
}

/// A text in twips as hundredths of a millimetre, where there is one.
pub open spec fn twips_if(t: Option<Seq<char>>) -> Option<int> {
    match t {
        Some(raw) => twips_of(raw),
        None => None,
    }
}

/// The tables give the attributes of the nodes one by one.
pub open spec fn tables_are(v: Seq<Vec<(String, String)>>, c: Seq<Node>) -> bool {
    v.len() == c.len() && forall|i: int|
        0 <= i < v.len() ==> pair_texts((#[trigger] v[i])@) == table_of(c[i])
}

impl TableRow {
    pub open spec fn describes(self, tbl: Node, at: int, limit: usize) -> bool {
        let props = tbl.child_of("tblPr"@);
        let cells = cells_of(tbl);
        &&& self.at == at
        &&& table_in(self.written) == table_if(width_of(tbl))
        &&& text_in(self.w) == said_by(width_of(tbl), "w"@)
        &&& text_in(self.kind) == said_by(width_of(tbl), "type"@)
        &&& is_value(self.mm, twips_if(said_by(width_of(tbl), "w"@)))
        &&& text_in(self.align) == said_by(step(props, "jc"@), "val"@)
        &&& table_in(self.indent) == table_if(step(props, "tblInd"@))
        &&& text_in(self.layout) == said_by(step(props, "tblLayout"@), "type"@)
        &&& self.cell_mar == (step(props, "tblCellMar"@) is Some)
        &&& self.rows == tbl.all_of("tr"@).len()
        &&& tables_are(self.grid@, grid_of(tbl))
        &&& cell_rows_describe(
            self.cells@,
            cells.take(at_most(cells.len(), limit) as int),
        )
    }
}

/// The grid columns of a table.
fn grid<'a>(tbl: &'a Node) -> (r: Vec<&'a Node>)
    ensures
        nodes(r@) == grid_of(*tbl),
{
    match tbl.child("tblGrid") {
        Some(g) => g.all("gridCol"),
        None => {
            let none: Vec<&'a Node> = Vec::new();
            assert(nodes(none@) =~= grid_of(*tbl));
            none
        },
    }
}

fn read_grid(tbl: &Node) -> (r: Vec<Vec<(String, String)>>)
    ensures
        tables_are(r@, grid_of(*tbl)),
{
    let cols: Vec<&Node> = grid(tbl);
    each(
        &cols,
        cols.len(),
        |i: usize, n: &&Node| -> (r: Vec<(String, String)>)
            ensures
                pair_texts(r@) == table_of(**n)
            { attr_map(n) },
    )
}

fn read_table(tbl: &Node, at: usize, limit: usize) -> (r: TableRow)
    ensures
        r.describes(*tbl, at as int, limit),
{
    let props: Option<&Node> = tbl.child("tblPr");
    let width: Option<&Node> = go(props, "tblW");
    let w: Option<String> = ask(width, "w");
    let mm: Option<i64> = match &w {
        Some(raw) => twips(raw.as_str()),
        None => None,
    };
    let cells: Vec<CellRow> = read_cells(tbl, limit);
    let rows: Vec<&Node> = tbl.all("tr");
    assert(rows@.len() == nodes(rows@).len());
    TableRow {
        at,
        written: map_if(width),
        w,
        kind: ask(width, "type"),
        mm,
        align: ask(go(props, "jc"), "val"),
        indent: map_if(go(props, "tblInd")),
        layout: ask(go(props, "tblLayout"), "type"),
        cell_mar: go(props, "tblCellMar").is_some(),
        rows: rows.len(),
        grid: read_grid(tbl),
        cells,
    }
}

/// The tables that are listed.
pub open spec fn tables_of(body: Node, limit: usize) -> Seq<Node> {
    let all = body.below("tbl"@);
    all.take(at_most(all.len(), limit) as int)
}

/// The speaking cells of each table.
pub open spec fn cells_fn(tables: Seq<Node>) -> spec_fn(int) -> Seq<CellPlace> {
    |i: int| cells_of(tables[i])
}

/// The grid columns of each table.
pub open spec fn grid_fn(tables: Seq<Node>) -> spec_fn(int) -> Seq<Node> {
    |i: int| grid_of(tables[i])
}

/// The widths of grid columns together. A column without a width that can be read adds nothing.
pub open spec fn widths(c: Seq<Node>) -> int
    decreases c.len(),
{
    if c.len() == 0 {
        0
    } else {
        widths(c.drop_last()) + match twips_if(entry_of(table_of(c.last()), "w"@)) {
            Some(w) => w,
            None => 0,
        }
    }
}

/// The cells without their places.
pub open spec fn bare(c: Seq<CellPlace>) -> Seq<Node> {
    Seq::new(c.len(), |i: int| c[i].tc)
}

/// What the tables of a document say about their widths. The counts are over all tables.
#[derive(Debug, Clone)]
pub struct TableReport {
    pub listed: usize,
    pub with_width: usize,
    pub auto: usize,
    pub grid_sum: i128,
    pub shade_cells: usize,
    pub border_cells: usize,
    pub empty_border_cells: usize,
    pub align_cells: usize,
    pub list: Vec<TableRow>,
}

impl TableReport {
    pub open spec fn describes(self, body: Node, limit: usize) -> bool {
        let tables = body.below("tbl"@);
        let n = tables.len() as int;
        let cells = bare(joined(cells_fn(tables), n));
        &&& self.listed == n
        &&& self.with_width == tables.filter(|t: Node| width_of(t) is Some).len()
        &&& self.auto == tables.filter(
            |t: Node| said_by(width_of(t), "type"@) == Some("auto"@),
        ).len()
        &&& self.grid_sum == widths(joined(grid_fn(tables), n))
        &&& self.shade_cells == cells.filter(
            |t: Node| step(cell_props(t), "shd"@) is Some,
        ).len()
        &&& self.border_cells == cells.filter(|t: Node| edges_of(t).len() > 0).len()
        &&& self.empty_border_cells == cells.filter(
            |t: Node|
                cell_edges(t) is Some && children_of(cell_edges(t)).len() == 0,
        ).len()
        &&& self.align_cells == cells.filter(
            |t: Node| said_by(step(cell_props(t), "vAlign"@), "val"@) is Some,
        ).len()
        &&& self.list@.len() == at_most(tables.len(), limit)
        &&& forall|i: int|
            0 <= i < self.list@.len() ==> (#[trigger] self.list@[i]).describes(
                tables[i],
                i,
                limit,
            )
    }
}

/// The widths of grid columns together.
fn add_widths(cols: &Vec<&Node>) -> (r: i128)
    ensures
        r == widths(nodes(cols@)),
{
    let ghost c = nodes(cols@);
    let size: usize = cols.len();
    let mut sum: i128 = 0;
    let mut i: usize = 0;
    assert(c.take(0) =~= Seq::empty());
    while i < size
        invariant
            i <= size,
            size == cols@.len(),
            c == nodes(cols@),
            sum == widths(c.take(i as int)),
            -0x8000_0000_0000_0000 * i <= sum <= 0x7fff_ffff_ffff_ffff * i,
        decreases size - i,
    {
        let map: Vec<(String, String)> = attr_map(cols[i]);
        assert(c.take(i + 1).drop_last() =~= c.take(i as int));
        assert(c.take(i + 1).last() == *cols@[i as int]);
        let one: Option<i64> = match look_up(&map, "w") {
            Some(raw) => twips(raw),
            None => None,
        };
        if let Some(w) = one {
            sum = sum + w as i128;
        }
        i += 1;
    }
    assert(c.take(i as int) =~= c);
    sum
}

/// What the tables of a document say about their widths. All tables are counted, and at most
/// `limit` of them are listed with at most `limit` cells each.
pub fn docx_table_layouts(body: &Node, limit: usize) -> (r: TableReport)
    ensures
        r.describes(*body, limit),
{
    let all: Vec<&Node> = body.descendants("tbl");
    let n: usize = all.len();
    let ghost tables = nodes(all@);
    let mut cells: Vec<Placed> = Vec::new();
    let mut cols: Vec<&Node> = Vec::new();
    let mut i: usize = 0;
    while i < n
        invariant
            i <= n,
            n == all@.len(),
            tables == nodes(all@),
            places(cells@) == joined(cells_fn(tables), i as int),
            nodes(cols@) == joined(grid_fn(tables), i as int),
        decreases n - i,
    {
        let tbl: &Node = all[i];
        assert(tables[i as int] == *tbl);
        speaking(tbl, &mut cells);
        let mut own: Vec<&Node> = grid(tbl);
        let ghost had = nodes(cols@);
        let ghost more = nodes(own@);
        cols.append(&mut own);
        assert(nodes(cols@) =~= had + more);
        i += 1;
    }
    assert(nodes(cols@) == joined(grid_fn(tables), n as int));
    let tcs: Vec<&Node> = each(
        &cells,
        cells.len(),
        |i: usize, p: &Placed| -> (r: &Node)
            ensures
                *r == p.place().tc
            { p.tc },
    );
    assert(nodes(tcs@) =~= bare(places(cells@)));
    let with_width: usize = count_nodes(
        &all,
        |t: &Node| -> (b: bool)
            ensures
                b == (width_of(*t) is Some)
            { go(t.child("tblPr"), "tblW").is_some() },
        Ghost(|t: Node| width_of(t) is Some),
    );
    let auto: usize = count_nodes(
        &all,
        |t: &Node| -> (b: bool)
            ensures
                b == (said_by(width_of(*t), "type"@) == Some("auto"@))
            { says(&ask(go(t.child("tblPr"), "tblW"), "type"), "auto") },
        Ghost(|t: Node| said_by(width_of(t), "type"@) == Some("auto"@)),
    );
    let shade_cells: usize = count_nodes(
        &tcs,
        |t: &Node| -> (b: bool)
            ensures
                b == (step(cell_props(*t), "shd"@) is Some)
            { go(t.child("tcPr"), "shd").is_some() },
        Ghost(|t: Node| step(cell_props(t), "shd"@) is Some),
    );
    let border_cells: usize = count_nodes(
        &tcs,
        |t: &Node| -> (b: bool)
            ensures
                b == (edges_of(*t).len() > 0)
            {
                match go(t.child("tcPr"), "tcBorders") {
                    Some(holder) => read_edges(holder).len() > 0,
                    None => false,
                }
            },
        Ghost(|t: Node| edges_of(t).len() > 0),
    );
    let empty_border_cells: usize = count_nodes(
        &tcs,
        |t: &Node| -> (b: bool)
            ensures
                b == (cell_edges(*t) is Some && children_of(cell_edges(*t)).len() == 0)
            {
                match go(t.child("tcPr"), "tcBorders") {
                    Some(holder) => holder.children.len() == 0,
                    None => false,
                }
            },
        Ghost(
            |t: Node|
                cell_edges(t) is Some && children_of(cell_edges(t)).len() == 0,
        ),
    );
    let align_cells: usize = count_nodes(
        &tcs,
        |t: &Node| -> (b: bool)
            ensures
                b == (said_by(step(cell_props(*t), "vAlign"@), "val"@) is Some)
            { ask(go(t.child("tcPr"), "vAlign"), "val").is_some() },
        Ghost(|t: Node| said_by(step(cell_props(t), "vAlign"@), "val"@) is Some),
    );
    let list: Vec<TableRow> = each(
        &all,
        cut(n, limit),
        |at: usize, t: &&Node| -> (r: TableRow)
            ensures
                r.describes(**t, at as int, limit)
            { read_table(t, at, limit) },
    );
    assert forall|i: int| 0 <= i < list@.len() implies (#[trigger] list@[i]).describes(
        tables[i],
        i,
        limit,
    ) by {
        assert(tables[i] == *all@[i]);
    }
    TableReport {
        listed: n,
        with_width,
        auto,
        grid_sum: add_widths(&cols),
        shade_cells,
        border_cells,
        empty_border_cells,
        align_cells,
        list,
    }
}

/// What is told of a cell stands in its own properties: its width, the columns it spans, its
/// shading and its alignment, and its edges where it has borders.
pub proof fn law_what_a_cell_says(r: CellRow, p: CellPlace, props: Node)
    requires
        r.describes(p),
        p.tc.child_of("tcPr"@) == Some(props),
    ensures
        r.row == p.row,
        r.col == p.col,
        table_in(r.written) == table_if(props.child_of("tcW"@)),
        text_in(r.span) == said_by(props.child_of("gridSpan"@), "val"@),
        table_in(r.shading) == table_if(props.child_of("shd"@)),
        text_in(r.valign) == said_by(props.child_of("vAlign"@), "val"@),
        r.borders is None <==> props.child_of("tcBorders"@) is None,
{
}

/// A cell is told where it says anything: a width, a span, a shading, an alignment or an edge. One
/// without properties is not.
pub proof fn law_which_cells_are_told(tc: Node, props: Node)
    ensures
        tc.child_of("tcPr"@) is None ==> !cell_speaks(tc),
        tc.child_of("tcPr"@) == Some(props) ==> (cell_speaks(tc) <==> {
            ||| props.child_of("tcW"@) is Some
            ||| props.child_of("gridSpan"@) matches Some(n) && n.attr_text("val"@) is Some
            ||| props.child_of("shd"@) is Some
            ||| props.child_of("vAlign"@) matches Some(n) && n.attr_text("val"@) is Some
            ||| props.child_of("tcBorders"@) matches Some(n) && n.children@.len() > 0
        }),
{
}

/// The cells that are told stand row by row and column by column, counted over all cells of the
/// row.
pub proof fn law_where_cells_stand(c: Seq<Node>, row: int, n: int, rows: Seq<Node>, m: int)
    requires
        0 <= n,
        0 <= m,
    ensures
        cells_in_row(c, row, 0).len() == 0,
        cell_speaks(c[n]) ==> cells_in_row(c, row, n + 1) == cells_in_row(c, row, n).push(
            CellPlace { row, col: n, tc: c[n] },
        ),
        !cell_speaks(c[n]) ==> cells_in_row(c, row, n + 1) == cells_in_row(c, row, n),
        cells_upto(rows, 0).len() == 0,
        cells_upto(rows, m + 1) == cells_upto(rows, m) + cells_in_row(
            rows[m].all_of("tc"@),
            m,
            rows[m].all_of("tc"@).len() as int,
        ),
{
}

/// An edge counts where it writes a kind of line or a colour; of two for one side the later does.
pub proof fn law_which_edges_count(c: Seq<Node>, n: int, tc: Node, borders: Node)
    requires
        0 <= n < c.len(),
    ensures
        edges_upto(c, 0).len() == 0,
        c[n].attr_text("val"@) is Some || c[n].attr_text("color"@) is Some ==> edges_upto(c, n + 1)
            == edges_upto(c, n).push(c[n]),
        c[n].attr_text("val"@) is None && c[n].attr_text("color"@) is None ==> edges_upto(c, n + 1)
            == edges_upto(c, n),
        cell_edges(tc) == Some(borders) ==> edges_of(tc) == latest(
            edges_upto(borders.children@, borders.children@.len() as int),
        ),
{
}

/// What is told of a table stands in its own properties: its width and the kind of it, its
/// alignment, its indent and its layout; the rows are its own, and the columns those of its grid.
pub proof fn law_what_a_table_says(r: TableRow, tbl: Node, at: int, limit: usize, props: Node)
    requires
        r.describes(tbl, at, limit),
        tbl.child_of("tblPr"@) == Some(props),
    ensures
        r.at == at,
        table_in(r.written) == table_if(props.child_of("tblW"@)),
        text_in(r.w) == said_by(props.child_of("tblW"@), "w"@),
        text_in(r.kind) == said_by(props.child_of("tblW"@), "type"@),
        r.w is None ==> r.mm is None,
        r.w matches Some(raw) ==> is_value(r.mm, twips_of(raw@)),
        text_in(r.align) == said_by(props.child_of("jc"@), "val"@),
        table_in(r.indent) == table_if(props.child_of("tblInd"@)),
        text_in(r.layout) == said_by(props.child_of("tblLayout"@), "type"@),
        r.cell_mar <==> props.child_of("tblCellMar"@) is Some,
        r.rows == tbl.all_of("tr"@).len(),
        tbl.child_of("tblGrid"@) is None ==> r.grid@.len() == 0,
        tbl.child_of("tblGrid"@) matches Some(g) ==> r.grid@.len() == g.all_of("gridCol"@).len(),
{
}

/// The widths of columns add up, and a column whose width cannot be read adds nothing.
pub proof fn law_widths_add_up(c: Seq<Node>, n: Node)
    ensures
        widths(Seq::empty()) == 0,
        widths(c.push(n)) == widths(c) + match entry_of(table_of(n), "w"@) {
            Some(raw) => match twips_of(raw) {
                Some(w) => w,
                None => 0,
            },
            None => 0,
        },
{
    assert(c.push(n).drop_last() =~= c);
}

/// Each number of the report is how many tables or told cells are so.
pub proof fn law_what_tables_are_counted_for(
    r: TableReport,
    body: Node,
    limit: usize,
    tables: Seq<Node>,
    cells: Seq<Node>,
)
    requires
        r.describes(body, limit),
        tables == body.below("tbl"@),
        cells == bare(joined(cells_fn(tables), tables.len() as int)),
    ensures
        r.listed == tables.len(),
        r.with_width == tables.filter(
            |t: Node| t.child_of("tblPr"@) matches Some(x) && x.child_of("tblW"@) is Some,
        ).len(),
        r.auto == tables.filter(
            |t: Node|
                t.child_of("tblPr"@) matches Some(x) && x.child_of("tblW"@) matches Some(w)
                    && w.attr_text("type"@) == Some("auto"@),
        ).len(),
        r.shade_cells == cells.filter(
            |t: Node| t.child_of("tcPr"@) matches Some(x) && x.child_of("shd"@) is Some,
        ).len(),
        r.border_cells == cells.filter(|t: Node| edges_of(t).len() > 0).len(),
        r.empty_border_cells == cells.filter(
            |t: Node|
                t.child_of("tcPr"@) matches Some(x) && x.child_of("tcBorders"@) matches Some(b)
                    && b.children@.len() == 0,
        ).len(),
        r.align_cells == cells.filter(
            |t: Node|
                t.child_of("tcPr"@) matches Some(x) && x.child_of("vAlign"@) matches Some(v)
                    && v.attr_text("val"@) is Some,
        ).len(),
        r.grid_sum == widths(joined(grid_fn(tables), tables.len() as int)),
        r.list@.len() <= limit,
        r.list@.len() == limit || r.list@.len() == tables.len(),
{
    let a = |t: Node| width_of(t) is Some;
    let b = |t: Node| t.child_of("tblPr"@) matches Some(x) && x.child_of("tblW"@) is Some;
    assert(a =~= b);
    let a = |t: Node| said_by(width_of(t), "type"@) == Some("auto"@);
    let b = |t: Node|
        t.child_of("tblPr"@) matches Some(x) && x.child_of("tblW"@) matches Some(w)
            && w.attr_text("type"@) == Some("auto"@);
    assert(a =~= b);
    let a = |t: Node| step(cell_props(t), "shd"@) is Some;
    let b = |t: Node| t.child_of("tcPr"@) matches Some(x) && x.child_of("shd"@) is Some;
    assert(a =~= b);
    let a = |t: Node| cell_edges(t) is Some && children_of(cell_edges(t)).len() == 0;
    let b = |t: Node|
        t.child_of("tcPr"@) matches Some(x) && x.child_of("tcBorders"@) matches Some(b)
            && b.children@.len() == 0;
    assert(a =~= b);
    let a = |t: Node| said_by(step(cell_props(t), "vAlign"@), "val"@) is Some;
    let b = |t: Node|
        t.child_of("tcPr"@) matches Some(x) && x.child_of("vAlign"@) matches Some(v)
            && v.attr_text("val"@) is Some;
    assert(a =~= b);
}

} // verus!
