//! What formula elements write themselves.
//!
//! In a SpreadsheetML workbook formulas that look alike are stored once: the other cells of the
//! group hold an empty formula element, and what is seen comes from the cached value. How many
//! cells have a formula, how many write one and how many have a cached value are three numbers.
//! In an OpenDocument spreadsheet the formula is an attribute of the cell, and there are no groups.

use crate::document::{count_below, count_names, counts_names};
use crate::equations::{find_tree, tree_of, PartTree};
use crate::lists::{at_most, count_those, each, joined, lemma_filter_take, tally};
use crate::note_settings::says_of;
use crate::numfmt::{find_char, seek};
use crate::order::{arranged, sort_texts};
use crate::text::{chars_of, pair_texts, same, texts};
use crate::words::{begins, ends_with, finishes, starts_with, trim, trimmed};
use crate::written::{
    attr_map, look_up, once_each, option_texts, owned, pick_nodes, pick_once, table_of, text_in,
};
use crate::xml::{nodes, Node};
use vstd::prelude::*;

verus! {

broadcast use {
    crate::text::lemma_texts_push,
    crate::text::lemma_pair_texts_push,
    crate::xml::lemma_nodes_push,
};

fn ask_table(n: &Node, name: &str) -> (r: Option<String>)
    ensures
        text_in(r) == says_of(*n, name@),
{
    let t: Vec<(String, String)> = attr_map(n);
    owned(look_up(&t, name))
}

/// What each element says under a name.
pub open spec fn column(c: Seq<Node>, name: Seq<char>) -> Seq<Option<Seq<char>>> {
    Seq::new(c.len(), |i: int| says_of(c[i], name))
}

fn read_column(v: &Vec<&Node>, name: &str) -> (r: Vec<Option<String>>)
    ensures
        option_texts(r@) == column(nodes(v@), name@),
{
    let out: Vec<Option<String>> = each(
        v,
        v.len(),
        |i: usize, n: &&Node| -> (r: Option<String>)
            ensures
                text_in(r) == says_of(**n, name@)
            { ask_table(n, name) },
    );
    assert(option_texts(out@) =~= column(nodes(v@), name@));
    out
}

/// The names in a table.
pub open spec fn keys_of(t: Seq<(Seq<char>, Seq<char>)>) -> Seq<Seq<char>> {
    Seq::new(t.len(), |i: int| t[i].0)
}

/// The names that each element writes.
pub open spec fn keys_fn(c: Seq<Node>) -> spec_fn(int) -> Seq<Seq<char>> {
    |i: int| keys_of(table_of(c[i]))
}

/// The names that elements write, each once.
pub open spec fn names_seen(c: Seq<Node>) -> Seq<Seq<char>> {
    let all = joined(keys_fn(c), c.len() as int);
    once_each(all, all.len() as int)
}

fn read_names(v: &Vec<&Node>) -> (r: Vec<String>)
    ensures
        texts(r@) == names_seen(nodes(v@)),
{
    let ghost c = nodes(v@);
    let mut out: Vec<String> = Vec::new();
    let mut i: usize = 0;
    assert(texts(out@) =~= joined(keys_fn(c), 0));
    while i < v.len()
        invariant
            i <= v@.len(),
            c == nodes(v@),
            texts(out@) == joined(keys_fn(c), i as int),
        decreases v@.len() - i,
    {
        assert(c[i as int] == *v@[i as int]);
        let t: Vec<(String, String)> = attr_map(v[i]);
        let ghost had = texts(out@);
        let mut keys: Vec<String> = each(
            &t,
            t.len(),
            |k: usize, p: &(String, String)| -> (r: String)
                ensures
                    r@ == p.0@
                { p.0.clone() },
        );
        let ghost more = texts(keys@);
        assert(more =~= keys_of(pair_texts(t@)));
        out.append(&mut keys);
        assert(texts(out@) =~= had + more);
        i += 1;
    }
    assert(texts(out@).len() == out@.len());
    pick_once(&out)
}

/// How often each value of an attribute is written.
#[derive(Debug, Clone)]
pub struct AttrValues {
    pub name: String,
    pub values: Vec<(String, usize)>,
}

/// The list gives the values of each attribute.
pub open spec fn lists_values(v: Seq<AttrValues>, c: Seq<Node>) -> bool {
    let names = names_seen(c);
    &&& v.len() == names.len()
    &&& forall|i: int|
        0 <= i < v.len() ==> (#[trigger] v[i]).name@ == names[i] && counts_names(
            v[i].values@,
            column(c, names[i]),
        )
}

fn read_values(v: &Vec<&Node>) -> (r: Vec<AttrValues>)
    ensures
        lists_values(r@, nodes(v@)),
{
    let ghost c = nodes(v@);
    let names: Vec<String> = read_names(v);
    assert(texts(names@).len() == names@.len());
    let out: Vec<AttrValues> = each(
        &names,
        names.len(),
        |i: usize, name: &String| -> (r: AttrValues)
            ensures
                r.name@ == name@,
                counts_names(r.values@, column(c, name@))
            {
                AttrValues {
                    name: name.clone(),
                    values: count_names(&read_column(v, name.as_str())),
                }
            },
    );
    assert forall|i: int| 0 <= i < out@.len() implies (#[trigger] out@[i]).name@ == names_seen(
        c,
    )[i] && counts_names(out@[i].values@, column(c, names_seen(c)[i])) by {
        assert(texts(names@)[i] == names@[i]@);
    }
    out
}

/// A cell with a formula.
pub struct FormulaCell {
    pub sheet: Seq<char>,
    pub cell: Node,
}

/// The formula element of a cell.
pub open spec fn formula_in(cell: Node) -> Option<Node> {
    cell.child_of("f"@)
}

/// A name of a worksheet part.
pub open spec fn is_sheet(name: Seq<char>) -> bool {
    begins(name, "xl/worksheets/sheet"@) && finishes(name, ".xml"@)
}

/// The names of the worksheet parts in order.
pub open spec fn sheet_names(entries: Seq<String>) -> Seq<Seq<char>> {
    arranged(texts(entries).filter(|t: Seq<char>| is_sheet(t)))
}

/// The cells with a formula in a worksheet.
pub open spec fn cells_in(root: Option<Node>) -> Seq<Node> {
    match root {
        Some(r) => r.below("c"@).filter(|n: Node| formula_in(n) is Some),
        None => Seq::empty(),
    }
}

/// The cells with a formula in each worksheet. One that cannot be read has none.
pub open spec fn formulas_fn(names: Seq<Seq<char>>, parts: Seq<PartTree>) -> spec_fn(int) -> Seq<
    FormulaCell,
> {
    |i: int|
        Seq::new(
            cells_in(tree_of(parts, names[i])).len(),
            |k: int|
                FormulaCell { sheet: names[i], cell: cells_in(tree_of(parts, names[i]))[k] },
        )
}

/// The cells with a formula.
pub open spec fn formulas(entries: Seq<String>, parts: Seq<PartTree>) -> Seq<FormulaCell> {
    let names = sheet_names(entries);
    joined(formulas_fn(names, parts), names.len() as int)
}

/// The formula elements of cells.
pub open spec fn elems(c: Seq<FormulaCell>) -> Seq<Node> {
    Seq::new(c.len(), |i: int| formula_in(c[i].cell).unwrap())
}

/// The text of a formula, without the blanks round it.
pub open spec fn body_of(f: Node) -> Seq<char> {
    trimmed(f.full_text())
}

/// The cached value of a cell.
pub open spec fn cached_in(cell: Node) -> Option<Seq<char>> {
    match cell.child_of("v"@) {
        Some(v) => Some(trimmed(v.full_text())),
        None => None,
    }
}

/// The formula belongs to a group.
pub open spec fn is_shared(f: Node) -> bool {
    says_of(f, "t"@) == Some("shared"@)
}

fn trim_text(n: &Node) -> (r: String)
    ensures
        r@ == trimmed(n.full_text()),
{
    let all: String = n.text();
    trim(all.as_str()).to_owned()
}

/// One cell.
#[derive(Debug, Clone)]
pub struct FormulaRow {
    pub sheet: String,
    pub cell: Option<String>,
    pub attrs: Vec<(String, String)>,
    pub text: String,
    pub shared: bool,
    pub si: Option<String>,
    pub ref_written: Option<String>,
    pub cached: Option<String>,
}

impl FormulaRow {
    pub open spec fn describes(self, c: FormulaCell) -> bool {
        let f = formula_in(c.cell).unwrap();
        &&& self.sheet@ == c.sheet
        &&& text_in(self.cell) == c.cell.attr_text("r"@)
        &&& pair_texts(self.attrs@) == table_of(f)
        &&& self.text@ == body_of(f)
        &&& self.shared == is_shared(f)
        &&& text_in(self.si) == says_of(f, "si"@)
        &&& text_in(self.ref_written) == says_of(f, "ref"@)
        &&& text_in(self.cached) == cached_in(c.cell)
    }
}

struct Found<'a> {
    sheet: String,
    cell: &'a Node,
    formula: &'a Node,
}

impl Found<'_> {
    spec fn is(self, c: FormulaCell) -> bool {
        &&& self.sheet@ == c.sheet
        &&& *self.cell == c.cell
        &&& formula_in(c.cell) == Some(*self.formula)
    }
}

spec fn founds(v: Seq<Found>, c: Seq<FormulaCell>) -> bool {
    v.len() == c.len() && forall|i: int| 0 <= i < v.len() ==> (#[trigger] v[i]).is(c[i])
}

fn read_row(x: &Found, Ghost(c): Ghost<FormulaCell>) -> (r: FormulaRow)
    requires
        x.is(c),
    ensures
        r.describes(c),
{
    let t: Vec<(String, String)> = attr_map(x.formula);
    let shared: bool = match look_up(&t, "t") {
        Some(w) => same(w, "shared"),
        None => false,
    };
    let si: Option<String> = owned(look_up(&t, "si"));
    let ref_written: Option<String> = owned(look_up(&t, "ref"));
    FormulaRow {
        sheet: x.sheet.clone(),
        cell: owned(x.cell.attr_local("r")),
        attrs: t,
        text: trim_text(x.formula),
        shared,
        si,
        ref_written,
        cached: match x.cell.child("v") {
            Some(v) => Some(trim_text(v)),
            None => None,
        },
    }
}

fn add_sheet<'a>(
    name: &String,
    parts: &'a Vec<PartTree>,
    out: &mut Vec<Found<'a>>,
    Ghost(had): Ghost<Seq<FormulaCell>>,
)
    requires
        founds(old(out)@, had),
    ensures
        founds(
            final(out)@,
            had + Seq::new(
                cells_in(tree_of(parts@, name@)).len(),
                |k: int|
                    FormulaCell { sheet: name@, cell: cells_in(tree_of(parts@, name@))[k] },
            ),
        ),
{
    let ghost all = cells_in(tree_of(parts@, name@));
    let ghost more = Seq::new(all.len(), |k: int| FormulaCell { sheet: name@, cell: all[k] });
    let root: &'a Node = match find_tree(parts, name.as_str()) {
        Some(r) => r,
        None => {
            assert(had + more =~= had);
            return;
        },
    };
    let cells: Vec<&'a Node> = root.descendants("c");
    let with: Vec<&'a Node> = pick_nodes(
        &cells,
        |n: &Node| -> (b: bool)
            ensures
                b == (formula_in(*n) is Some)
            { n.child("f").is_some() },
        Ghost(|n: Node| formula_in(n) is Some),
    );
    assert(nodes(with@) == all);
    assert(nodes(with@).len() == with@.len());
    proof {
        let p = |n: Node| formula_in(n) is Some;
        nodes(cells@).filter_lemma(p);
    }
    let mut i: usize = 0;
    assert(had + more.take(0) =~= had);
    while i < with.len()
        invariant
            i <= with@.len(),
            nodes(with@) == all,
            all.len() == with@.len(),
            more == Seq::new(all.len(), |k: int| FormulaCell { sheet: name@, cell: all[k] }),
            forall|k: int| 0 <= k < all.len() ==> formula_in(#[trigger] all[k]) is Some,
            founds(out@, had + more.take(i as int)),
        decreases with@.len() - i,
    {
        let cell: &'a Node = with[i];
        assert(all[i as int] == *cell);
        if let Some(f) = cell.child("f") {
            out.push(Found { sheet: name.clone(), cell, formula: f });
            assert(had + more.take(i + 1) =~= (had + more.take(i as int)).push(more[i as int]));
        }
        i += 1;
    }
    assert(more.take(i as int) =~= more);
}

fn read_sheet_names(entries: &Vec<String>) -> (r: Vec<String>)
    ensures
        texts(r@) == sheet_names(entries@),
        r@.len() == sheet_names(entries@).len(),
{
    let ghost s = texts(entries@);
    let ghost p = |t: Seq<char>| is_sheet(t);
    let mut out: Vec<String> = Vec::new();
    let mut i: usize = 0;
    assert(texts(out@) =~= s.take(0).filter(p)) by {
        reveal(Seq::filter);
    }
    while i < entries.len()
        invariant
            i <= entries@.len(),
            s == texts(entries@),
            p == (|t: Seq<char>| is_sheet(t)),
            texts(out@) == s.take(i as int).filter(p),
        decreases entries@.len() - i,
    {
        proof {
            lemma_filter_take(s, p, i as int);
        }
        if starts_with(entries[i].as_str(), "xl/worksheets/sheet") && ends_with(
            entries[i].as_str(),
            ".xml",
        ) {
            out.push(entries[i].clone());
        }
        i += 1;
    }
    assert(s.take(i as int) =~= s);
    let r: Vec<String> = sort_texts(&out);
    assert(texts(r@).len() == r@.len());
    r
}

/// The formulas of a workbook.
#[derive(Debug, Clone)]
pub struct FormulaReport {
    pub sheets_seen: usize,
    pub formula_elems: usize,
    pub with_attrs: usize,
    pub attr_values: Vec<AttrValues>,
    pub text_written: usize,
    pub empty_text: usize,
    pub empty_text_with_cached: usize,
    pub shared_elems: usize,
    pub shared_masters: usize,
    pub shared_followers: usize,
    pub si_written: usize,
    pub ref_written_elems: usize,
    pub cached_elems: usize,
    pub cells: Vec<FormulaRow>,
}

impl FormulaReport {
    /// What is counted over the cells.
    pub open spec fn counts(self, c: Seq<FormulaCell>) -> bool {
        let f = elems(c);
        let n = c.len() as int;
        &&& self.formula_elems == n
        &&& self.with_attrs == tally(|i: int| table_of(f[i]).len() > 0, n)
        &&& self.text_written == tally(|i: int| body_of(f[i]).len() > 0, n)
        &&& self.text_written + self.empty_text == n
        &&& self.empty_text_with_cached == tally(
            |i: int| body_of(f[i]).len() == 0 && cached_in(c[i].cell) is Some,
            n,
        )
        &&& self.cached_elems == tally(|i: int| cached_in(c[i].cell) is Some, n)
    }

    /// What is counted over the groups.
    pub open spec fn counts_groups(self, c: Seq<FormulaCell>) -> bool {
        let f = elems(c);
        let n = c.len() as int;
        &&& self.shared_elems == tally(|i: int| is_shared(f[i]), n)
        &&& self.shared_masters == tally(
            |i: int| is_shared(f[i]) && body_of(f[i]).len() > 0,
            n,
        )
        &&& self.shared_followers == tally(
            |i: int| is_shared(f[i]) && body_of(f[i]).len() == 0,
            n,
        )
        &&& self.si_written == tally(|i: int| says_of(f[i], "si"@) is Some, n)
        &&& self.ref_written_elems == tally(|i: int| says_of(f[i], "ref"@) is Some, n)
    }

    pub open spec fn describes(
        self,
        entries: Seq<String>,
        parts: Seq<PartTree>,
        limit: usize,
    ) -> bool {
        let c = formulas(entries, parts);
        &&& self.sheets_seen == sheet_names(entries).len()
        &&& self.counts(c)
        &&& self.counts_groups(c)
        &&& lists_values(self.attr_values@, elems(c))
        &&& self.cells@.len() == at_most(c.len(), limit)
        &&& forall|i: int|
            0 <= i < self.cells@.len() ==> (#[trigger] self.cells@[i]).describes(c[i])
    }
}

/// A cell of a group writes its formula or it does not.
pub proof fn law_shared_cells_lead_or_follow(f: Seq<Node>, n: int)
    ensures
        tally(|i: int| is_shared(f[i]), n) == tally(
            |i: int| is_shared(f[i]) && body_of(f[i]).len() > 0,
            n,
        ) + tally(|i: int| is_shared(f[i]) && body_of(f[i]).len() == 0, n),
    decreases n,
{
    if n > 0 {
        law_shared_cells_lead_or_follow(f, n - 1);
    }
}

/// The formulas of a workbook, from the names of its parts and those parts that could be read.
/// The list of cells is cut to `limit`.
pub fn xlsx(entries: &Vec<String>, parts: &Vec<PartTree>, limit: usize) -> (r: FormulaReport)
    ensures
        r.describes(entries@, parts@, limit),
{
    let names: Vec<String> = read_sheet_names(entries);
    let ghost sn = texts(names@);
    let mut v: Vec<Found> = Vec::new();
    let mut i: usize = 0;
    while i < names.len()
        invariant
            i <= names@.len(),
            sn == texts(names@),
            founds(v@, joined(formulas_fn(sn, parts@), i as int)),
        decreases names@.len() - i,
    {
        assert(sn[i as int] == names@[i as int]@);
        let ghost had = joined(formulas_fn(sn, parts@), i as int);
        add_sheet(&names[i], parts, &mut v, Ghost(had));
        assert(joined(formulas_fn(sn, parts@), i + 1) =~= had + formulas_fn(sn, parts@)(
            i as int,
        ));
        i += 1;
    }
    let ghost c = formulas(entries@, parts@);
    assert(founds(v@, c));
    let n: usize = v.len();
    let fs: Vec<&Node> = each(
        &v,
        n,
        |i: usize, x: &Found| -> (r: &Node)
            ensures
                *r == *x.formula
            { x.formula },
    );
    let ghost f = elems(c);
    assert(nodes(fs@) =~= f) by {
        assert forall|i: int| 0 <= i < fs@.len() implies *(#[trigger] fs@[i]) == f[i] by {
            assert(v@[i].is(c[i]));
        }
    }
    let rows: Vec<FormulaRow> = each(
        &v,
        n,
        |i: usize, x: &Found| -> (r: FormulaRow)
            requires
                i < v@.len(),
                *x == v@[i as int]
            ensures
                r.describes(c[i as int])
            { read_row(x, Ghost(c[i as int])) },
    );
    let with_attrs: usize = count_those(
        n,
        |i: usize| -> (b: bool)
            requires
                i < rows@.len()
            ensures
                b == (table_of(f[i as int]).len() > 0)
            {
                assert(pair_texts(rows@[i as int].attrs@).len() == rows@[i as int].attrs@.len());
                rows[i].attrs.len() > 0
            },
        Ghost(|i: int| table_of(f[i]).len() > 0),
    );
    let text_written: usize = count_those(
        n,
        |i: usize| -> (b: bool)
            requires
                i < rows@.len()
            ensures
                b == (body_of(f[i as int]).len() > 0)
            { rows[i].text.as_str().unicode_len() > 0 },
        Ghost(|i: int| body_of(f[i]).len() > 0),
    );
    let empty_text_with_cached: usize = count_those(
        n,
        |i: usize| -> (b: bool)
            requires
                i < rows@.len()
            ensures
                b == (body_of(f[i as int]).len() == 0 && cached_in(c[i as int].cell) is Some)
            { rows[i].text.as_str().unicode_len() == 0 && rows[i].cached.is_some() },
        Ghost(|i: int| body_of(f[i]).len() == 0 && cached_in(c[i].cell) is Some),
    );
    let cached_elems: usize = count_those(
        n,
        |i: usize| -> (b: bool)
            requires
                i < rows@.len()
            ensures
                b == (cached_in(c[i as int].cell) is Some)
            { rows[i].cached.is_some() },
        Ghost(|i: int| cached_in(c[i].cell) is Some),
    );
    let shared_elems: usize = count_those(
        n,
        |i: usize| -> (b: bool)
            requires
                i < rows@.len()
            ensures
                b == is_shared(f[i as int])
            { rows[i].shared },
        Ghost(|i: int| is_shared(f[i])),
    );
    let shared_masters: usize = count_those(
        n,
        |i: usize| -> (b: bool)
            requires
                i < rows@.len()
            ensures
                b == (is_shared(f[i as int]) && body_of(f[i as int]).len() > 0)
            { rows[i].shared && rows[i].text.as_str().unicode_len() > 0 },
        Ghost(|i: int| is_shared(f[i]) && body_of(f[i]).len() > 0),
    );
    let shared_followers: usize = count_those(
        n,
        |i: usize| -> (b: bool)
            requires
                i < rows@.len()
            ensures
                b == (is_shared(f[i as int]) && body_of(f[i as int]).len() == 0)
            { rows[i].shared && rows[i].text.as_str().unicode_len() == 0 },
        Ghost(|i: int| is_shared(f[i]) && body_of(f[i]).len() == 0),
    );
    let si_written: usize = count_those(
        n,
        |i: usize| -> (b: bool)
            requires
                i < rows@.len()
            ensures
                b == (says_of(f[i as int], "si"@) is Some)
            { rows[i].si.is_some() },
        Ghost(|i: int| says_of(f[i], "si"@) is Some),
    );
    let ref_written_elems: usize = count_those(
        n,
        |i: usize| -> (b: bool)
            requires
                i < rows@.len()
            ensures
                b == (says_of(f[i as int], "ref"@) is Some)
            { rows[i].ref_written.is_some() },
        Ghost(|i: int| says_of(f[i], "ref"@) is Some),
    );
    let mut cells: Vec<FormulaRow> = rows;
    if limit < cells.len() {
        cells.truncate(limit);
    }
    FormulaReport {
        sheets_seen: names.len(),
        formula_elems: n,
        with_attrs,
        attr_values: read_values(&fs),
        text_written,
        empty_text: n - text_written,
        empty_text_with_cached,
        shared_elems,
        shared_masters,
        shared_followers,
        si_written,
        ref_written_elems,
        cached_elems,
        cells,
    }
}

/// A cell and the name of the table round it.
pub struct TableCell {
    pub cell: Node,
    pub sheet: Option<Seq<char>>,
}

/// A cell element.
pub open spec fn is_cell(n: Node) -> bool {
    n.local_name() == "table-cell"@ || n.local_name() == "covered-table-cell"@
}

/// The cells in a list of nodes and below them, with the table round them.
pub open spec fn table_cells(c: Seq<Node>, sheet: Option<Seq<char>>) -> Seq<TableCell>
    decreases c,
{
    if c.len() == 0 {
        Seq::empty()
    } else {
        let one = c.last();
        let here = if one.local_name() == "table"@ {
            one.attr_text("name"@)
        } else {
            sheet
        };
        let own = if is_cell(one) {
            seq![TableCell { cell: one, sheet: here }]
        } else {
            Seq::empty()
        };
        table_cells(c.drop_last(), sheet) + own + table_cells(one.children@, here)
    }
}

struct Held<'a> {
    cell: &'a Node,
    sheet: Option<&'a str>,
}

impl Held<'_> {
    spec fn cell(self) -> TableCell {
        TableCell { cell: *self.cell, sheet: crate::written::slice_in(self.sheet) }
    }
}

spec fn held(v: Seq<Held>) -> Seq<TableCell> {
    Seq::new(v.len(), |i: int| v[i].cell())
}

fn collect_cells<'a>(node: &'a Node, sheet: Option<&'a str>, out: &mut Vec<Held<'a>>)
    ensures
        held(final(out)@) == held(old(out)@) + table_cells(
            node.children@,
            crate::written::slice_in(sheet),
        ),
    decreases node,
{
    let ghost c = node.children@;
    let ghost s = crate::written::slice_in(sheet);
    let ghost start = held(out@);
    let mut i: usize = 0;
    assert(c.take(0) =~= Seq::empty());
    assert(start + table_cells(c.take(0), s) =~= start);
    while i < node.children.len()
        invariant
            i <= node.children@.len(),
            c == node.children@,
            s == crate::written::slice_in(sheet),
            held(out@) == start + table_cells(c.take(i as int), s),
        decreases node.children@.len() - i,
    {
        let one: &'a Node = &node.children[i];
        let ghost done = c.take(i + 1);
        assert(done.drop_last() =~= c.take(i as int));
        assert(done.last() == *one);
        let here: Option<&'a str> = if one.is("table") {
            one.attr_local("name")
        } else {
            sheet
        };
        if one.is("table-cell") || one.is("covered-table-cell") {
            let ghost had = held(out@);
            out.push(Held { cell: one, sheet: here });
            assert(held(out@) =~= had.push(
                TableCell { cell: *one, sheet: crate::written::slice_in(here) },
            ));
        }
        collect_cells(one, here, out);
        assert(held(out@) =~= start + table_cells(done, s));
        i += 1;
    }
    assert(c.take(i as int) =~= c);
}

/// The cells with a formula.
pub open spec fn with_formula(c: Seq<TableCell>) -> Seq<TableCell> {
    c.filter(|t: TableCell| says_of(t.cell, "formula"@) is Some)
}

/// What stands before the first colon of a formula; nothing where there is none.
pub open spec fn prefix_of(s: Seq<char>) -> Seq<char> {
    if seek(s, ':', 0) < s.len() {
        s.take(seek(s, ':', 0))
    } else {
        Seq::empty()
    }
}

fn read_prefix(s: &str) -> (r: String)
    ensures
        r@ == prefix_of(s@),
{
    let c: Vec<char> = chars_of(s);
    let at: usize = find_char(&c, ':', 0);
    if at < c.len() {
        let head: &str = s.substring_char(0, at);
        assert(head@ =~= s@.take(at as int));
        head.to_owned()
    } else {
        let none: String = String::new();
        assert(none@ =~= Seq::empty());
        none
    }
}

/// One cell of a table.
#[derive(Debug, Clone)]
pub struct CellRow {
    pub sheet: Option<String>,
    pub style: Option<String>,
    pub attrs: Vec<(String, String)>,
    pub text: String,
    pub cached: Option<String>,
    pub paragraphs: usize,
}

impl CellRow {
    pub open spec fn describes(self, t: TableCell) -> bool {
        &&& text_in(self.sheet) == t.sheet
        &&& text_in(self.style) == says_of(t.cell, "style-name"@)
        &&& pair_texts(self.attrs@) == table_of(t.cell)
        &&& Some(self.text@) == says_of(t.cell, "formula"@)
        &&& text_in(self.cached) == t.cell.attr_text("value"@)
        &&& self.paragraphs == t.cell.all_of("p"@).len()
    }
}

/// The formulas of a spreadsheet.
#[derive(Debug, Clone)]
pub struct CellReport {
    pub tables_seen: usize,
    pub formula_elems: usize,
    pub attr_values: Vec<AttrValues>,
    pub formula_prefixes: Vec<(String, usize)>,
    pub text_written: usize,
    pub empty_text: usize,
    pub empty_text_with_cached: usize,
    pub cached_elems: usize,
    pub cells: Vec<CellRow>,
}

/// The cells without their tables.
pub open spec fn bare(c: Seq<TableCell>) -> Seq<Node> {
    Seq::new(c.len(), |i: int| c[i].cell)
}

/// The text of a formula attribute.
pub open spec fn formula_text(t: TableCell) -> Seq<char> {
    says_of(t.cell, "formula"@).unwrap()
}

/// The prefixes of formulas.
pub open spec fn prefixes(c: Seq<TableCell>) -> Seq<Option<Seq<char>>> {
    Seq::new(c.len(), |i: int| Some(prefix_of(formula_text(c[i]))))
}

impl CellReport {
    pub open spec fn describes(self, root: Node, limit: usize) -> bool {
        let c = with_formula(table_cells(root.children@, None));
        let n = c.len() as int;
        &&& self.tables_seen == root.below("table"@).len()
        &&& self.formula_elems == n
        &&& lists_values(self.attr_values@, bare(c))
        &&& counts_names(self.formula_prefixes@, prefixes(c))
        &&& self.text_written == tally(|i: int| formula_text(c[i]).len() > 0, n)
        &&& self.text_written + self.empty_text == n
        &&& self.empty_text_with_cached == tally(
            |i: int| formula_text(c[i]).len() == 0 && c[i].cell.attr_text("value"@) is Some,
            n,
        )
        &&& self.cached_elems == tally(|i: int| c[i].cell.attr_text("value"@) is Some, n)
        &&& self.cells@.len() == at_most(c.len(), limit)
        &&& forall|i: int|
            0 <= i < self.cells@.len() ==> (#[trigger] self.cells@[i]).describes(c[i])
    }
}

fn read_cells(root: &Node) -> (r: Vec<CellRow>)
    ensures
        r@.len() == with_formula(table_cells(root.children@, None)).len(),
        forall|i: int|
            0 <= i < r@.len() ==> (#[trigger] r@[i]).describes(
                with_formula(table_cells(root.children@, None))[i],
            ),
{
    let mut all: Vec<Held> = Vec::new();
    collect_cells(root, None, &mut all);
    let ghost s = table_cells(root.children@, None);
    assert(held(all@) =~= s);
    let ghost p = |t: TableCell| says_of(t.cell, "formula"@) is Some;
    let mut out: Vec<CellRow> = Vec::new();
    let mut i: usize = 0;
    assert(s.take(0).filter(p).len() == 0) by {
        reveal(Seq::filter);
    }
    while i < all.len()
        invariant
            i <= all@.len(),
            s == held(all@),
            p == (|t: TableCell| says_of(t.cell, "formula"@) is Some),
            out@.len() == s.take(i as int).filter(p).len(),
            forall|k: int|
                0 <= k < out@.len() ==> (#[trigger] out@[k]).describes(
                    s.take(i as int).filter(p)[k],
                ),
        decreases all@.len() - i,
    {
        let one: &Node = all[i].cell;
        assert(s[i as int] == all@[i as int].cell());
        proof {
            lemma_filter_take(s, p, i as int);
        }
        if let Some(text) = ask_table(one, "formula") {
            let kids: Vec<&Node> = one.all("p");
            assert(nodes(kids@).len() == kids@.len());
            out.push(
                CellRow {
                    sheet: owned(all[i].sheet),
                    style: ask_table(one, "style-name"),
                    attrs: attr_map(one),
                    text,
                    cached: owned(one.attr_local("value")),
                    paragraphs: kids.len(),
                },
            );
        }
        i += 1;
    }
    assert(s.take(i as int) =~= s);
    out
}

fn formula_nodes<'a>(root: &'a Node) -> (r: Vec<&'a Node>)
    ensures
        nodes(r@) == bare(with_formula(table_cells(root.children@, None))),
{
    let mut all: Vec<Held<'a>> = Vec::new();
    collect_cells(root, None, &mut all);
    let ghost s = table_cells(root.children@, None);
    assert(held(all@) =~= s);
    let ghost p = |t: TableCell| says_of(t.cell, "formula"@) is Some;
    let mut out: Vec<&'a Node> = Vec::new();
    let mut i: usize = 0;
    assert(nodes(out@) =~= bare(s.take(0).filter(p))) by {
        reveal(Seq::filter);
    }
    while i < all.len()
        invariant
            i <= all@.len(),
            s == held(all@),
            p == (|t: TableCell| says_of(t.cell, "formula"@) is Some),
            nodes(out@) == bare(s.take(i as int).filter(p)),
        decreases all@.len() - i,
    {
        assert(s[i as int] == all@[i as int].cell());
        proof {
            lemma_filter_take(s, p, i as int);
        }
        let ghost had = s.take(i as int).filter(p);
        if ask_table(all[i].cell, "formula").is_some() {
            out.push(all[i].cell);
            assert(bare(had.push(s[i as int])) =~= bare(had).push(s[i as int].cell));
        }
        i += 1;
    }
    assert(s.take(i as int) =~= s);
    out
}

/// The formulas of a spreadsheet, from the root of its content. The list of cells is cut to
/// `limit`.
pub fn ods(root: &Node, limit: usize) -> (r: CellReport)
    ensures
        r.describes(*root, limit),
{
    let rows: Vec<CellRow> = read_cells(root);
    let ghost c = with_formula(table_cells(root.children@, None));
    let n: usize = rows.len();
    let heads: Vec<Option<String>> = each(
        &rows,
        n,
        |i: usize, x: &CellRow| -> (r: Option<String>)
            ensures
                text_in(r) == Some(prefix_of(x.text@))
            { Some(read_prefix(x.text.as_str())) },
    );
    assert(option_texts(heads@) =~= prefixes(c)) by {
        assert forall|i: int| 0 <= i < heads@.len() implies text_in(#[trigger] heads@[i]) == Some(
            prefix_of(formula_text(c[i])),
        ) by {
            assert(rows@[i].describes(c[i]));
        }
    }
    let text_written: usize = count_those(
        n,
        |i: usize| -> (b: bool)
            requires
                i < rows@.len()
            ensures
                b == (formula_text(c[i as int]).len() > 0)
            { rows[i].text.as_str().unicode_len() > 0 },
        Ghost(|i: int| formula_text(c[i]).len() > 0),
    );
    let empty_text_with_cached: usize = count_those(
        n,
        |i: usize| -> (b: bool)
            requires
                i < rows@.len()
            ensures
                b == (formula_text(c[i as int]).len() == 0 && c[i as int].cell.attr_text(
                    "value"@,
                ) is Some)
            { rows[i].text.as_str().unicode_len() == 0 && rows[i].cached.is_some() },
        Ghost(|i: int| formula_text(c[i]).len() == 0 && c[i].cell.attr_text("value"@) is Some),
    );
    let cached_elems: usize = count_those(
        n,
        |i: usize| -> (b: bool)
            requires
                i < rows@.len()
            ensures
                b == (c[i as int].cell.attr_text("value"@) is Some)
            { rows[i].cached.is_some() },
        Ghost(|i: int| c[i].cell.attr_text("value"@) is Some),
    );
    let mut cells: Vec<CellRow> = rows;
    if limit < cells.len() {
        cells.truncate(limit);
    }
    CellReport {
        tables_seen: count_below(root, "table"),
        formula_elems: n,
        attr_values: read_values(&formula_nodes(root)),
        formula_prefixes: count_names(&heads),
        text_written,
        empty_text: n - text_written,
        empty_text_with_cached,
        cached_elems,
        cells,
    }
}

/// A part is a worksheet by its name, and worksheets are taken in the order of their names.
pub proof fn law_which_parts_are_worksheets(
    entries: Seq<String>,
    q: spec_fn(Seq<char>) -> bool,
)
    requires
        forall|t: Seq<char>| #[trigger]
            q(t) == (begins(t, "xl/worksheets/sheet"@) && finishes(t, ".xml"@)),
    ensures
        sheet_names(entries) == arranged(texts(entries).filter(q)),
{
    let p = |t: Seq<char>| is_sheet(t);
    assert(p =~= q);
}

/// The cells that count are those with a formula element, and each is told with its place, its
/// formula without blanks round it, its group and its cached value.
pub proof fn law_what_a_formula_says(r: FormulaRow, c: FormulaCell, f: Node)
    requires
        r.describes(c),
        c.cell.child_of("f"@) == Some(f),
    ensures
        r.sheet@ == c.sheet,
        text_in(r.cell) == c.cell.attr_text("r"@),
        pair_texts(r.attrs@) == table_of(f),
        r.text@ == trimmed(f.full_text()),
        r.shared <==> says_of(f, "t"@) == Some("shared"@),
        text_in(r.si) == says_of(f, "si"@),
        text_in(r.ref_written) == says_of(f, "ref"@),
        c.cell.child_of("v"@) is None ==> r.cached is None,
        c.cell.child_of("v"@) matches Some(v) ==> text_in(r.cached) == Some(trimmed(v.full_text())),
{
}

/// The cells of a worksheet with a formula, and none of one that could not be read.
pub proof fn law_which_cells_have_a_formula(root: Node, q: spec_fn(Node) -> bool)
    requires
        forall|n: Node| #[trigger] q(n) == (n.child_of("f"@) is Some),
    ensures
        cells_in(Some(root)) == root.below("c"@).filter(q),
        cells_in(None).len() == 0,
{
    let p = |n: Node| formula_in(n) is Some;
    assert(p =~= q);
}

/// Each number of the report is how many of the cells with a formula are so.
pub proof fn law_what_formulas_are_counted_for(
    r: FormulaReport,
    entries: Seq<String>,
    parts: Seq<PartTree>,
    limit: usize,
    c: Seq<FormulaCell>,
)
    requires
        r.describes(entries, parts, limit),
        c == formulas(entries, parts),
    ensures
        r.sheets_seen == sheet_names(entries).len(),
        r.formula_elems == c.len(),
        r.text_written == c.filter(
            |x: FormulaCell| trimmed(x.cell.child_of("f"@).unwrap().full_text()).len() > 0,
        ).len(),
        r.text_written + r.empty_text == c.len(),
        r.with_attrs == c.filter(
            |x: FormulaCell| table_of(x.cell.child_of("f"@).unwrap()).len() > 0,
        ).len(),
        r.cached_elems == c.filter(|x: FormulaCell| x.cell.child_of("v"@) is Some).len(),
        r.empty_text_with_cached == c.filter(
            |x: FormulaCell|
                trimmed(x.cell.child_of("f"@).unwrap().full_text()).len() == 0 && x.cell.child_of(
                    "v"@,
                ) is Some,
        ).len(),
        r.shared_elems == c.filter(
            |x: FormulaCell| says_of(x.cell.child_of("f"@).unwrap(), "t"@) == Some("shared"@),
        ).len(),
        r.shared_masters == c.filter(
            |x: FormulaCell|
                says_of(x.cell.child_of("f"@).unwrap(), "t"@) == Some("shared"@) && trimmed(
                    x.cell.child_of("f"@).unwrap().full_text(),
                ).len() > 0,
        ).len(),
        r.shared_followers == c.filter(
            |x: FormulaCell|
                says_of(x.cell.child_of("f"@).unwrap(), "t"@) == Some("shared"@) && trimmed(
                    x.cell.child_of("f"@).unwrap().full_text(),
                ).len() == 0,
        ).len(),
        r.si_written == c.filter(
            |x: FormulaCell| says_of(x.cell.child_of("f"@).unwrap(), "si"@) is Some,
        ).len(),
        r.ref_written_elems == c.filter(
            |x: FormulaCell| says_of(x.cell.child_of("f"@).unwrap(), "ref"@) is Some,
        ).len(),
        r.cells@.len() == limit || r.cells@.len() == c.len(),
{
    let f = elems(c);
    crate::lists::law_a_tally_is_how_many_pass(
        c,
        |i: int| body_of(f[i]).len() > 0,
        |x: FormulaCell| trimmed(x.cell.child_of("f"@).unwrap().full_text()).len() > 0,
    );
    crate::lists::law_a_tally_is_how_many_pass(
        c,
        |i: int| table_of(f[i]).len() > 0,
        |x: FormulaCell| table_of(x.cell.child_of("f"@).unwrap()).len() > 0,
    );
    crate::lists::law_a_tally_is_how_many_pass(
        c,
        |i: int| cached_in(c[i].cell) is Some,
        |x: FormulaCell| x.cell.child_of("v"@) is Some,
    );
    crate::lists::law_a_tally_is_how_many_pass(
        c,
        |i: int| body_of(f[i]).len() == 0 && cached_in(c[i].cell) is Some,
        |x: FormulaCell|
            trimmed(x.cell.child_of("f"@).unwrap().full_text()).len() == 0 && x.cell.child_of("v"@)
                is Some,
    );
    crate::lists::law_a_tally_is_how_many_pass(
        c,
        |i: int| is_shared(f[i]),
        |x: FormulaCell| says_of(x.cell.child_of("f"@).unwrap(), "t"@) == Some("shared"@),
    );
    crate::lists::law_a_tally_is_how_many_pass(
        c,
        |i: int| is_shared(f[i]) && body_of(f[i]).len() > 0,
        |x: FormulaCell|
            says_of(x.cell.child_of("f"@).unwrap(), "t"@) == Some("shared"@) && trimmed(
                x.cell.child_of("f"@).unwrap().full_text(),
            ).len() > 0,
    );
    crate::lists::law_a_tally_is_how_many_pass(
        c,
        |i: int| is_shared(f[i]) && body_of(f[i]).len() == 0,
        |x: FormulaCell|
            says_of(x.cell.child_of("f"@).unwrap(), "t"@) == Some("shared"@) && trimmed(
                x.cell.child_of("f"@).unwrap().full_text(),
            ).len() == 0,
    );
    crate::lists::law_a_tally_is_how_many_pass(
        c,
        |i: int| says_of(f[i], "si"@) is Some,
        |x: FormulaCell| says_of(x.cell.child_of("f"@).unwrap(), "si"@) is Some,
    );
    crate::lists::law_a_tally_is_how_many_pass(
        c,
        |i: int| says_of(f[i], "ref"@) is Some,
        |x: FormulaCell| says_of(x.cell.child_of("f"@).unwrap(), "ref"@) is Some,
    );
}

/// The cells of tables are taken in the order of the document, each with the name of the innermost
/// table round it.
pub proof fn law_which_table_a_cell_stands_in(c: Seq<Node>, one: Node, sheet: Option<Seq<char>>)
    ensures
        table_cells(Seq::empty(), sheet).len() == 0,
        one.local_name() == "table"@ ==> table_cells(c.push(one), sheet) == table_cells(c, sheet)
            + table_cells(one.children@, one.attr_text("name"@)),
        one.local_name() == "table-cell"@ || one.local_name() == "covered-table-cell"@
            ==> table_cells(c.push(one), sheet) == table_cells(c, sheet) + seq![
            TableCell { cell: one, sheet },
        ] + table_cells(one.children@, sheet),
        one.local_name() != "table"@ && one.local_name() != "table-cell"@ && one.local_name()
            != "covered-table-cell"@ ==> table_cells(c.push(one), sheet) == table_cells(c, sheet)
            + table_cells(one.children@, sheet),
{
    reveal_strlit("table");
    reveal_strlit("table-cell");
    reveal_strlit("covered-table-cell");
    assert("table"@.len() == 5 && "table-cell"@.len() == 10 && "covered-table-cell"@.len() == 18);
    assert(c.push(one).drop_last() =~= c);
    let t = table_cells(c, sheet);
    assert(t + Seq::<TableCell>::empty() =~= t);
}

/// The prefix of a formula is what stands before its first colon.
pub proof fn law_what_the_prefix_of_a_formula_is(a: Seq<char>, rest: Seq<char>)
    requires
        forall|i: int| 0 <= i < a.len() ==> #[trigger] a[i] != ':',
    ensures
        prefix_of(a.push(':') + rest) == a,
        prefix_of(a).len() == 0,
{
    let s = a.push(':') + rest;
    assert(s[a.len() as int] == ':');
    lemma_sought(s, 0, a.len() as int);
    assert(s.take(a.len() as int) =~= a);
    lemma_sought(a, 0, a.len() as int);
}

proof fn lemma_sought(s: Seq<char>, from: int, at: int)
    requires
        0 <= from <= at <= s.len(),
        at < s.len() ==> s[at] == ':',
        forall|j: int| from <= j < at ==> #[trigger] s[j] != ':',
    ensures
        seek(s, ':', from) == at,
    decreases at - from,
{
    if from < at {
        lemma_sought(s, from + 1, at);
    }
}

/// A cell of a spreadsheet with a formula is told with its table, its style, its formula and its
/// cached value, and each number of the report is how many of them are so.
pub proof fn law_what_formulas_of_tables_say(r: CellReport, root: Node, limit: usize, i: int, c: Seq<
    TableCell,
>)
    requires
        r.describes(root, limit),
        c == with_formula(table_cells(root.children@, None)),
    ensures
        c == table_cells(root.children@, None).filter(
            |t: TableCell| says_of(t.cell, "formula"@) is Some,
        ),
        r.tables_seen == root.below("table"@).len(),
        r.formula_elems == c.len(),
        r.text_written == c.filter(
            |t: TableCell| says_of(t.cell, "formula"@).unwrap().len() > 0,
        ).len(),
        r.text_written + r.empty_text == c.len(),
        r.cached_elems == c.filter(|t: TableCell| t.cell.attr_text("value"@) is Some).len(),
        r.empty_text_with_cached == c.filter(
            |t: TableCell|
                says_of(t.cell, "formula"@).unwrap().len() == 0 && t.cell.attr_text("value"@)
                    is Some,
        ).len(),
        0 <= i < r.cells@.len() ==> {
            &&& text_in(r.cells@[i].sheet) == c[i].sheet
            &&& text_in(r.cells@[i].style) == says_of(c[i].cell, "style-name"@)
            &&& Some(r.cells@[i].text@) == says_of(c[i].cell, "formula"@)
            &&& text_in(r.cells@[i].cached) == c[i].cell.attr_text("value"@)
            &&& r.cells@[i].paragraphs == c[i].cell.all_of("p"@).len()
        },
        r.cells@.len() == limit || r.cells@.len() == c.len(),
{
    crate::lists::law_a_tally_is_how_many_pass(
        c,
        |i: int| formula_text(c[i]).len() > 0,
        |t: TableCell| says_of(t.cell, "formula"@).unwrap().len() > 0,
    );
    crate::lists::law_a_tally_is_how_many_pass(
        c,
        |i: int| c[i].cell.attr_text("value"@) is Some,
        |t: TableCell| t.cell.attr_text("value"@) is Some,
    );
    crate::lists::law_a_tally_is_how_many_pass(
        c,
        |i: int| formula_text(c[i]).len() == 0 && c[i].cell.attr_text("value"@) is Some,
        |t: TableCell|
            says_of(t.cell, "formula"@).unwrap().len() == 0 && t.cell.attr_text("value"@) is Some,
    );
    if 0 <= i < r.cells@.len() {
        assert(r.cells@[i].describes(c[i]));
    }
}

/// The values that attributes have are counted name by name, each name that any element writes
/// once.
pub proof fn law_values_are_counted_by_name(v: Seq<AttrValues>, c: Seq<Node>, i: int, k: int)
    requires
        lists_values(v, c),
        0 <= i < v.len(),
        0 <= k < v[i].values@.len(),
    ensures
        v.len() == names_seen(c).len(),
        v[i].name@ == names_seen(c)[i],
        v[i].values@[k].1 == column(c, v[i].name@).filter(
            |x: Option<Seq<char>>| x == Some(v[i].values@[k].0@),
        ).len(),
{
    assert(v[i].name@ == names_seen(c)[i]);
    crate::document::law_names_are_counted(v[i].values@, column(c, v[i].name@), k);
}

} // verus!
