//! Charts that are embedded in an OpenDocument file.
//!
//! A frame holds an object, the object names a folder, and the content in that folder holds the
//! chart. The kind stands on every series, not on the chart, and a data point says how many
//! points it stands for.

use crate::equations::{find_tree, tree_of, unslashed, PartTree};
use crate::lists::{each, first, first_from, joined};
use crate::text::{pair_texts, same};
use crate::words::{
    begins, blank, is_blank, parse_unsigned, starts_with, trim, trimmed, unsigned_value,
    word_begins,
};
use crate::written::{find_below, first_below, merge, merged, owned, pick_nodes, slice_in, text_in};
use crate::xml::{local_of, local_part, nodes, Node};
use vstd::prelude::*;

verus! {

broadcast use {crate::text::lemma_pair_texts_push, crate::xml::lemma_nodes_push};

/// A series of a chart.
#[derive(Debug, Clone)]
pub struct SeriesRow {
    pub class: Option<String>,
    pub values: Option<String>,
    pub label: Option<String>,
    pub point_elements: usize,
    pub points_written: Option<u128>,
    pub written: Vec<(String, String)>,
}

/// What a chart says of its categories.
#[derive(Debug, Clone)]
pub struct CategoriesRow {
    pub address: Option<String>,
    pub point_elements: usize,
    pub written: Vec<(String, String)>,
}

/// A cell of the table that a chart carries with it.
#[derive(Debug, Clone)]
pub struct CachedCell {
    pub repeated: usize,
    pub text: Option<String>,
    pub value: Option<String>,
    pub written: Vec<(String, String)>,
}

/// A chart.
#[derive(Debug, Clone)]
pub struct Chart {
    pub class: Option<String>,
    pub title: Option<String>,
    pub series: Vec<SeriesRow>,
    pub categories: Option<CategoriesRow>,
    pub local_table: Vec<Vec<CachedCell>>,
}

/// An embedded object, with its chart where the part could be read.
#[derive(Debug, Clone)]
pub struct ChartRow {
    pub object: String,
    pub chart: Option<Chart>,
    pub frame: Option<String>,
    pub preview: bool,
}

/// A name whose attribute does not count: one of the experimental name space.
pub open spec fn skipped(name: Seq<char>) -> bool {
    begins(name, "calcext"@) && name.contains(':')
}

/// The attributes among the first `n` that count, by local name, in the order of the file.
pub open spec fn counting_upto(a: Seq<(String, String)>, n: int) -> Seq<(Seq<char>, Seq<char>)>
    decreases n,
{
    if n <= 0 {
        Seq::empty()
    } else if skipped(a[n - 1].0@) {
        counting_upto(a, n - 1)
    } else {
        counting_upto(a, n - 1).push((local_part(a[n - 1].0@), a[n - 1].1@))
    }
}

/// The attributes of an element that count, by local name.
pub open spec fn counting(n: Node) -> Seq<(Seq<char>, Seq<char>)> {
    merged(counting_upto(n.attrs@, n.attrs@.len() as int))
}

fn has_colon(s: &str) -> (r: bool)
    ensures
        r == s@.contains(':'),
{
    let size: usize = s.unicode_len();
    let mut i: usize = 0;
    while i < size
        invariant
            i <= size,
            size == s@.len(),
            forall|k: int| 0 <= k < i ==> s@[k] != ':',
        decreases size - i,
    {
        if s.get_char(i) == ':' {
            assert(s@[i as int] == ':');
            return true;
        }
        i += 1;
    }
    false
}

/// The attributes of an element by local name. Of two with one local name the later counts.
pub fn attrs_of(node: &Node) -> (r: Vec<(String, String)>)
    ensures
        pair_texts(r@) == counting(*node),
{
    let mut out: Vec<(String, String)> = Vec::new();
    let mut i: usize = 0;
    assert(pair_texts(out@) =~= counting_upto(node.attrs@, 0));
    while i < node.attrs.len()
        invariant
            i <= node.attrs@.len(),
            pair_texts(out@) == counting_upto(node.attrs@, i as int),
        decreases node.attrs@.len() - i,
    {
        let name: &str = node.attrs[i].0.as_str();
        if !(starts_with(name, "calcext") && has_colon(name)) {
            let key: String = local_of(name).to_owned();
            let value: String = node.attrs[i].1.as_str().to_owned();
            out.push((key, value));
        }
        i += 1;
    }
    merge(&out)
}

/// The attribute with the local name `want`. Names that begin like those of the experimental
/// name space do not count.
pub open spec fn chart_attr(n: Node, want: Seq<char>) -> Option<Seq<char>> {
    match first(
        n.attrs@,
        |a: (String, String)| local_part(a.0@) == want && !begins(a.0@, "calcext"@),
    ) {
        Some(i) => Some(n.attrs@[i].1@),
        None => None,
    }
}

/// The attribute with the local name `want`.
pub fn attr_of<'a>(node: &'a Node, want: &str) -> (r: Option<&'a str>)
    ensures
        slice_in(r) == chart_attr(*node, want@),
{
    let ghost p = |a: (String, String)|
        local_part(a.0@) == want@ && !begins(a.0@, "calcext"@);
    let mut i: usize = 0;
    while i < node.attrs.len()
        invariant
            i <= node.attrs@.len(),
            p == (|a: (String, String)|
                local_part(a.0@) == want@ && !begins(a.0@, "calcext"@)),
            first(node.attrs@, p) == first_from(node.attrs@, p, i as int),
        decreases node.attrs@.len() - i,
    {
        let name: &str = node.attrs[i].0.as_str();
        if same(local_of(name), want) && !starts_with(name, "calcext") {
            return Some(node.attrs[i].1.as_str());
        }
        i += 1;
    }
    None
}

/// The words among the first `n` characters with one space between two of them.
pub open spec fn spaced(s: Seq<char>, n: int) -> Seq<char>
    decreases n,
{
    if n <= 0 {
        Seq::empty()
    } else {
        let before = spaced(s, n - 1);
        if blank(s[n - 1]) {
            before
        } else if word_begins(s, n - 1) && before.len() > 0 {
            before.push(' ').push(s[n - 1])
        } else {
            before.push(s[n - 1])
        }
    }
}

/// Appends the words of a text with one space between two of them.
fn push_spaced(out: &mut String, s: &str)
    ensures
        final(out)@ == old(out)@ + spaced(s@, s@.len() as int),
{
    let ghost start = out@;
    let size: usize = s.unicode_len();
    let mut some: bool = false;
    let mut i: usize = 0;
    assert(out@ =~= start + spaced(s@, 0));
    while i < size
        invariant
            i <= size,
            size == s@.len(),
            out@ == start + spaced(s@, i as int),
            some == (spaced(s@, i as int).len() > 0),
        decreases size - i,
    {
        let c: char = s.get_char(i);
        if !is_blank(c) {
            if some && (i == 0 || is_blank(s.get_char(i - 1))) {
                out.push(' ');
            }
            out.push(c);
            some = true;
        }
        i += 1;
        assert(out@ =~= start + spaced(s@, i as int));
    }
}

/// The texts of the first `n` paragraphs that hold a word, with one space between two of them.
pub open spec fn plain_upto(paras: Seq<Node>, n: int) -> Seq<char>
    decreases n,
{
    if n <= 0 {
        Seq::empty()
    } else {
        let before = plain_upto(paras, n - 1);
        let t = paras[n - 1].full_text();
        let own = spaced(t, t.len() as int);
        if own.len() == 0 {
            before
        } else if before.len() == 0 {
            own
        } else {
            before.push(' ') + own
        }
    }
}

/// The text of an element: that of its paragraphs, with one space between two words. None where
/// there is no word.
pub open spec fn plain_text(n: Node) -> Option<Seq<char>> {
    let paras = n.below("p"@);
    let t = plain_upto(paras, paras.len() as int);
    if t.len() == 0 {
        None
    } else {
        Some(t)
    }
}

fn text_of(node: &Node) -> (r: Option<String>)
    ensures
        text_in(r) == plain_text(*node),
{
    let paras: Vec<&Node> = node.descendants("p");
    let ghost ps = nodes(paras@);
    let mut out: String = String::new();
    let mut i: usize = 0;
    assert(out@ =~= plain_upto(ps, 0));
    while i < paras.len()
        invariant
            i <= paras@.len(),
            ps == nodes(paras@),
            out@ == plain_upto(ps, i as int),
        decreases paras@.len() - i,
    {
        assert(ps[i as int] == *paras@[i as int]);
        let mut own: String = String::new();
        push_spaced(&mut own, paras[i].text().as_str());
        let ghost t = ps[i as int].full_text();
        assert(own@ =~= spaced(t, t.len() as int));
        if own.as_str().unicode_len() > 0 {
            if out.as_str().unicode_len() > 0 {
                out.push(' ');
            } else {
                assert(out@ + own@ =~= own@);
            }
            out.append(own.as_str());
        }
        i += 1;
    }
    assert(ps.len() == paras@.len());
    if out.as_str().unicode_len() == 0 {
        None
    } else {
        Some(out)
    }
}

/// How many an element stands for: what it writes, or one.
pub open spec fn stands_for(n: Node, want: Seq<char>) -> int {
    match chart_attr(n, want) {
        Some(raw) => match unsigned_value(trimmed(raw), usize::MAX as int) {
            Some(v) => if v > 0 {
                v
            } else {
                1
            },
            None => 1,
        },
        None => 1,
    }
}

fn repeated(n: &Node, want: &str) -> (r: usize)
    ensures
        r == stands_for(*n, want@),
        r >= 1,
{
    match attr_of(n, want) {
        Some(raw) => match parse_unsigned(trim(raw), usize::MAX as u64) {
            Some(v) => if v > 0 {
                v as usize
            } else {
                1
            },
            None => 1,
        },
        None => 1,
    }
}

/// How many points the first `n` elements stand for.
pub open spec fn points(c: Seq<Node>, n: int) -> int
    decreases n,
{
    if n <= 0 {
        0
    } else {
        points(c, n - 1) + stands_for(c[n - 1], "repeated"@)
    }
}

fn count_points(c: &Vec<&Node>) -> (r: u128)
    ensures
        r == points(nodes(c@), c@.len() as int),
{
    let mut sum: u128 = 0;
    let mut i: usize = 0;
    while i < c.len()
        invariant
            i <= c@.len(),
            sum == points(nodes(c@), i as int),
            sum <= 0xffff_ffff_ffff_ffff * i,
        decreases c@.len() - i,
    {
        assert(nodes(c@)[i as int] == *c@[i as int]);
        sum = sum + repeated(c[i], "repeated") as u128;
        i += 1;
    }
    sum
}

impl SeriesRow {
    pub open spec fn describes(self, n: Node) -> bool {
        let p = n.all_of("data-point"@);
        &&& text_in(self.class) == chart_attr(n, "class"@)
        &&& text_in(self.values) == chart_attr(n, "values-cell-range-address"@)
        &&& text_in(self.label) == chart_attr(n, "label-cell-address"@)
        &&& self.point_elements == p.len()
        &&& match self.points_written {
            Some(v) => p.len() > 0 && v == points(p, p.len() as int),
            None => p.len() == 0,
        }
        &&& pair_texts(self.written@) == counting(n)
    }
}

fn read_series(n: &Node) -> (r: SeriesRow)
    ensures
        r.describes(*n),
{
    let p: Vec<&Node> = n.all("data-point");
    assert(nodes(p@).len() == p@.len());
    SeriesRow {
        class: owned(attr_of(n, "class")),
        values: owned(attr_of(n, "values-cell-range-address")),
        label: owned(attr_of(n, "label-cell-address")),
        point_elements: p.len(),
        points_written: if p.len() == 0 {
            None
        } else {
            Some(count_points(&p))
        },
        written: attrs_of(n),
    }
}

impl CategoriesRow {
    pub open spec fn describes(self, n: Node) -> bool {
        &&& text_in(self.address) == chart_attr(n, "cell-range-address"@)
        &&& self.point_elements == n.all_of("data-point"@).len()
        &&& pair_texts(self.written@) == counting(n)
    }
}

fn read_categories(n: &Node) -> (r: CategoriesRow)
    ensures
        r.describes(*n),
{
    let p: Vec<&Node> = n.all("data-point");
    assert(nodes(p@).len() == p@.len());
    CategoriesRow {
        address: owned(attr_of(n, "cell-range-address")),
        point_elements: p.len(),
        written: attrs_of(n),
    }
}

impl CachedCell {
    pub open spec fn describes(self, n: Node) -> bool {
        &&& self.repeated == stands_for(n, "number-columns-repeated"@)
        &&& text_in(self.text) == plain_text(n)
        &&& text_in(self.value) == chart_attr(n, "value"@)
        &&& pair_texts(self.written@) == counting(n)
    }
}

fn read_cached(n: &Node) -> (r: CachedCell)
    ensures
        r.describes(*n),
{
    CachedCell {
        repeated: repeated(n, "number-columns-repeated"),
        text: text_of(n),
        value: owned(attr_of(n, "value")),
        written: attrs_of(n),
    }
}

/// The cells of a row.
pub open spec fn cells_in(row: Node) -> Seq<Node> {
    row.children@.filter(
        |c: Node| c.local_name() == "table-cell"@ || c.local_name() == "header-cell"@,
    )
}

/// The cells that are kept are those of the row.
pub open spec fn lists_cells(v: Seq<CachedCell>, row: Node) -> bool {
    &&& v.len() == cells_in(row).len()
    &&& forall|i: int| 0 <= i < v.len() ==> (#[trigger] v[i]).describes(cells_in(row)[i])
}

fn read_row(row: &Node) -> (r: Vec<CachedCell>)
    ensures
        lists_cells(r@, *row),
{
    let kids: Vec<&Node> = crate::written::kids_of(row);
    let cells: Vec<&Node> = pick_nodes(
        &kids,
        |c: &Node| -> (b: bool)
            ensures
                b == (c.local_name() == "table-cell"@ || c.local_name() == "header-cell"@)
            { c.is("table-cell") || c.is("header-cell") },
        Ghost(|c: Node| c.local_name() == "table-cell"@ || c.local_name() == "header-cell"@),
    );
    assert(nodes(cells@).len() == cells@.len());
    let out: Vec<CachedCell> = each(
        &cells,
        cells.len(),
        |i: usize, n: &&Node| -> (r: CachedCell)
            ensures
                r.describes(**n)
            { read_cached(n) },
    );
    assert forall|i: int| 0 <= i < out@.len() implies (#[trigger] out@[i]).describes(
        cells_in(*row)[i],
    ) by {
        assert(nodes(cells@)[i] == *cells@[i]);
    }
    out
}

/// The tables that a chart carries with it.
pub open spec fn own_tables(root: Node) -> Seq<Node> {
    root.below("table"@).filter(|n: Node| chart_attr(n, "name"@) == Some("local-table"@))
}

/// The rows of the tables.
pub open spec fn rows_at(tables: Seq<Node>) -> spec_fn(int) -> Seq<Node> {
    |i: int| tables[i].below("table-row"@)
}

/// The rows of the tables that a chart carries with it.
pub open spec fn own_rows(root: Node) -> Seq<Node> {
    joined(rows_at(own_tables(root)), own_tables(root).len() as int)
}

fn find_rows<'a>(root: &'a Node) -> (r: Vec<&'a Node>)
    ensures
        nodes(r@) == own_rows(*root),
{
    let all: Vec<&'a Node> = root.descendants("table");
    let tables: Vec<&'a Node> = pick_nodes(
        &all,
        |n: &Node| -> (b: bool)
            ensures
                b == (chart_attr(*n, "name"@) == Some("local-table"@))
            {
                match attr_of(n, "name") {
                    Some(t) => same(t, "local-table"),
                    None => false,
                }
            },
        Ghost(|n: Node| chart_attr(n, "name"@) == Some("local-table"@)),
    );
    let ghost ts = nodes(tables@);
    let mut out: Vec<&'a Node> = Vec::new();
    let mut i: usize = 0;
    assert(nodes(out@) =~= joined(rows_at(ts), 0));
    while i < tables.len()
        invariant
            i <= tables@.len(),
            ts == nodes(tables@),
            nodes(out@) == joined(rows_at(ts), i as int),
        decreases tables@.len() - i,
    {
        assert(ts[i as int] == *tables@[i as int]);
        let ghost had = nodes(out@);
        let mut more: Vec<&'a Node> = tables[i].descendants("table-row");
        let ghost m = nodes(more@);
        out.append(&mut more);
        assert(nodes(out@) =~= had + m);
        assert(rows_at(ts)(i as int) == m);
        i += 1;
    }
    out
}

impl Chart {
    pub open spec fn describes(self, root: Node) -> bool {
        let series = root.below("series"@);
        let rows = own_rows(root);
        &&& text_in(self.class) == match first_below(root, "chart"@) {
            Some(n) => chart_attr(n, "class"@),
            None => None,
        }
        &&& text_in(self.title) == match first_below(root, "title"@) {
            Some(n) => plain_text(n),
            None => None,
        }
        &&& self.series@.len() == series.len()
        &&& forall|i: int|
            0 <= i < series.len() ==> (#[trigger] self.series@[i]).describes(series[i])
        &&& match (self.categories, first_below(root, "categories"@)) {
            (Some(c), Some(n)) => c.describes(n),
            (None, None) => true,
            _ => false,
        }
        &&& self.local_table@.len() == rows.len()
        &&& forall|i: int|
            0 <= i < rows.len() ==> lists_cells((#[trigger] self.local_table@[i])@, rows[i])
    }
}

/// Reads a chart from the root of its content.
pub fn read_chart(root: &Node) -> (r: Chart)
    ensures
        r.describes(*root),
{
    let class: Option<String> = match find_below(root, "chart") {
        Some(n) => owned(attr_of(n, "class")),
        None => None,
    };
    let title: Option<String> = match find_below(root, "title") {
        Some(n) => text_of(n),
        None => None,
    };
    let found: Vec<&Node> = root.descendants("series");
    assert(nodes(found@).len() == found@.len());
    let series: Vec<SeriesRow> = each(
        &found,
        found.len(),
        |i: usize, n: &&Node| -> (r: SeriesRow)
            ensures
                r.describes(**n)
            { read_series(n) },
    );
    assert forall|i: int| 0 <= i < series@.len() implies (#[trigger] series@[i]).describes(
        root.below("series"@)[i],
    ) by {
        assert(nodes(found@)[i] == *found@[i]);
    }
    let categories: Option<CategoriesRow> = match find_below(root, "categories") {
        Some(n) => Some(read_categories(n)),
        None => None,
    };
    let rows: Vec<&Node> = find_rows(root);
    assert(nodes(rows@).len() == rows@.len());
    let local_table: Vec<Vec<CachedCell>> = each(
        &rows,
        rows.len(),
        |i: usize, n: &&Node| -> (r: Vec<CachedCell>)
            ensures
                lists_cells(r@, **n)
            { read_row(n) },
    );
    assert forall|i: int| 0 <= i < local_table@.len() implies lists_cells(
        (#[trigger] local_table@[i])@,
        own_rows(*root)[i],
    ) by {
        assert(nodes(rows@)[i] == *rows@[i]);
    }
    Chart { class, title, series, categories, local_table }
}

/// A text without the marks for the own folder at its start.
pub open spec fn undotted(s: Seq<char>) -> Seq<char>
    decreases s.len(),
{
    if s.len() >= 2 && s[0] == '.' && s[1] == '/' {
        undotted(s.skip(2))
    } else {
        s
    }
}

/// The folder that an address names.
pub open spec fn folder(href: Seq<char>) -> Seq<char> {
    unslashed(undotted(href))
}

fn folder_of(href: &str) -> (r: &str)
    ensures
        r@ == folder(href@),
{
    let size: usize = href.unicode_len();
    let mut from: usize = 0;
    assert(href@.skip(0) =~= href@);
    while size - from >= 2 && href.get_char(from) == '.' && href.get_char(from + 1) == '/'
        invariant
            from <= size,
            size == href@.len(),
            undotted(href@) == undotted(href@.skip(from as int)),
        decreases size - from,
    {
        assert(href@.skip(from as int).skip(2) =~= href@.skip(from + 2));
        from += 2;
    }
    let ghost rest = href@.skip(from as int);
    let mut to: usize = size;
    assert(rest.take(to - from) =~= rest);
    while to > from && href.get_char(to - 1) == '/'
        invariant
            from <= to <= size,
            size == href@.len(),
            rest == href@.skip(from as int),
            unslashed(rest) == unslashed(rest.take(to - from)),
        decreases to,
    {
        assert(rest.take(to - from).drop_last() =~= rest.take(to - from - 1));
        to -= 1;
    }
    let r: &str = href.substring_char(from, to);
    assert(r@ =~= rest.take(to - from));
    r
}

/// An object and the frame in which it stands.
pub struct Framed {
    pub frame: Node,
    pub object: Node,
}

/// The objects in a frame that name a folder.
pub open spec fn objects_of(frame: Node) -> Seq<Framed> {
    let s = frame.children@.filter(
        |n: Node| n.local_name() == "object"@ && chart_attr(n, "href"@) is Some,
    );
    Seq::new(s.len(), |i: int| Framed { frame, object: s[i] })
}

pub open spec fn objects_at(frames: Seq<Node>) -> spec_fn(int) -> Seq<Framed> {
    |i: int| objects_of(frames[i])
}

/// The embedded objects below a table or a page, frame by frame.
pub open spec fn objects_in(host: Node) -> Seq<Framed> {
    let frames = host.below("frame"@);
    joined(objects_at(frames), frames.len() as int)
}

/// A frame holds a picture that stands in for the object.
pub open spec fn has_preview(frame: Node) -> bool {
    exists|i: int|
        0 <= i < frame.children@.len() && is_preview(#[trigger] frame.children@[i])
}

pub open spec fn is_preview(n: Node) -> bool {
    &&& n.local_name() == "image"@
    &&& match chart_attr(n, "href"@) {
        Some(href) => begins(href, "./ObjectReplacements/"@),
        None => false,
    }
}

fn find_preview(frame: &Node) -> (r: bool)
    ensures
        r == has_preview(*frame),
{
    let mut i: usize = 0;
    while i < frame.children.len()
        invariant
            i <= frame.children@.len(),
            forall|k: int| 0 <= k < i ==> !is_preview(#[trigger] frame.children@[k]),
        decreases frame.children@.len() - i,
    {
        let n: &Node = &frame.children[i];
        if n.is("image") {
            if let Some(href) = attr_of(n, "href") {
                if starts_with(href, "./ObjectReplacements/") {
                    assert(is_preview(frame.children@[i as int]));
                    return true;
                }
            }
        }
        i += 1;
    }
    false
}

impl ChartRow {
    pub open spec fn describes(self, f: Framed, parts: Seq<PartTree>) -> bool {
        &&& chart_attr(f.object, "href"@) is Some
        &&& self.object@ == folder(chart_attr(f.object, "href"@)->0)
        &&& match (self.chart, tree_of(parts, self.object@ + "/content.xml"@)) {
            (Some(c), Some(root)) => c.describes(root),
            (None, None) => true,
            _ => false,
        }
        &&& text_in(self.frame) == chart_attr(f.frame, "name"@)
        &&& self.preview == has_preview(f.frame)
    }
}

fn chart_object(frame: &Node, object: &Node, href: &str, parts: &Vec<PartTree>) -> (r: ChartRow)
    requires
        chart_attr(*object, "href"@) == Some(href@),
    ensures
        r.describes(Framed { frame: *frame, object: *object }, parts@),
{
    let name: &str = folder_of(href);
    let mut part: String = name.to_owned();
    part.append("/content.xml");
    let chart: Option<Chart> = match find_tree(parts, part.as_str()) {
        Some(root) => Some(read_chart(root)),
        None => None,
    };
    ChartRow {
        object: name.to_owned(),
        chart,
        frame: owned(attr_of(frame, "name")),
        preview: find_preview(frame),
    }
}

/// The rows are those of the objects.
pub open spec fn lists_charts(v: Seq<ChartRow>, s: Seq<Framed>, parts: Seq<PartTree>) -> bool {
    &&& v.len() == s.len()
    &&& forall|i: int| 0 <= i < v.len() ==> (#[trigger] v[i]).describes(s[i], parts)
}

fn add_charts(
    frame: &Node,
    parts: &Vec<PartTree>,
    out: &mut Vec<ChartRow>,
    Ghost(s): Ghost<Seq<Framed>>,
)
    requires
        lists_charts(old(out)@, s, parts@),
    ensures
        lists_charts(final(out)@, s + objects_of(*frame), parts@),
{
    let kids: Vec<&Node> = crate::written::kids_of(frame);
    let ghost p = |n: Node| n.local_name() == "object"@ && chart_attr(n, "href"@) is Some;
    let own: Vec<&Node> = pick_nodes(
        &kids,
        |n: &Node| -> (b: bool)
            ensures
                b == (n.local_name() == "object"@ && chart_attr(*n, "href"@) is Some)
            { n.is("object") && attr_of(n, "href").is_some() },
        Ghost(p),
    );
    let ghost more = objects_of(*frame);
    let ghost kept = frame.children@.filter(p);
    assert(nodes(own@).len() == own@.len());
    assert(s + more.take(0) =~= s);
    let mut i: usize = 0;
    while i < own.len()
        invariant
            i <= own@.len(),
            p == (|n: Node| n.local_name() == "object"@ && chart_attr(n, "href"@) is Some),
            kept == frame.children@.filter(p),
            nodes(own@) == kept,
            more == objects_of(*frame),
            more.len() == own@.len(),
            lists_charts(out@, s + more.take(i as int), parts@),
        decreases own@.len() - i,
    {
        let n: &Node = own[i];
        assert(kept[i as int] == *n);
        proof {
            frame.children@.filter_lemma(p);
        }
        assert(p(*n));
        assert(more[i as int] == (Framed { frame: *frame, object: *n }));
        if let Some(href) = attr_of(n, "href") {
            out.push(chart_object(frame, n, href, parts));
        }
        assert(s + more.take(i + 1) =~= (s + more.take(i as int)).push(more[i as int]));
        i += 1;
    }
    assert(more.take(i as int) =~= more);
}

/// The charts below a table or a page.
pub fn charts_in(host: &Node, parts: &Vec<PartTree>) -> (r: Vec<ChartRow>)
    ensures
        lists_charts(r@, objects_in(*host), parts@),
{
    let frames: Vec<&Node> = host.descendants("frame");
    let ghost fs = nodes(frames@);
    let mut out: Vec<ChartRow> = Vec::new();
    let mut i: usize = 0;
    while i < frames.len()
        invariant
            i <= frames@.len(),
            fs == nodes(frames@),
            lists_charts(out@, joined(objects_at(fs), i as int), parts@),
        decreases frames@.len() - i,
    {
        assert(fs[i as int] == *frames@[i as int]);
        add_charts(frames[i], parts, &mut out, Ghost(joined(objects_at(fs), i as int)));
        i += 1;
    }
    assert(fs.len() == frames@.len());
    out
}

/// Every data point stands for one point at least, so a series has no more elements than points.
pub proof fn law_points_are_no_fewer_than_elements(c: Seq<Node>, n: int)
    requires
        0 <= n <= c.len(),
    ensures
        points(c, n) >= n,
    decreases n,
{
    if n > 0 {
        law_points_are_no_fewer_than_elements(c, n - 1);
    }
}

/// An attribute of a chart is the first of its local name that does not begin like those of the
/// experimental name space.
pub proof fn law_which_attribute_of_a_chart_counts(n: Node, i: int, want: Seq<char>)
    ensures
        0 <= i < n.attrs@.len() && local_part(n.attrs@[i].0@) == want && !begins(
            n.attrs@[i].0@,
            "calcext"@,
        ) && (forall|k: int|
            0 <= k < i ==> local_part((#[trigger] n.attrs@[k]).0@) != want || begins(
                n.attrs@[k].0@,
                "calcext"@,
            )) ==> chart_attr(n, want) == Some(n.attrs@[i].1@),
        (forall|k: int|
            0 <= k < n.attrs@.len() ==> local_part((#[trigger] n.attrs@[k]).0@) != want || begins(
                n.attrs@[k].0@,
                "calcext"@,
            )) ==> chart_attr(n, want) is None,
{
    assert forall|q: spec_fn((String, String)) -> bool|
        (forall|a: (String, String)| #[trigger]
            q(a) == (local_part(a.0@) == want && !begins(a.0@, "calcext"@))) implies {
        &&& 0 <= i < n.attrs@.len() && q(n.attrs@[i]) && (forall|k: int|
            0 <= k < i ==> !q(#[trigger] n.attrs@[k])) ==> #[trigger] first(n.attrs@, q) == Some(i)
        &&& (forall|k: int| 0 <= k < n.attrs@.len() ==> !q(#[trigger] n.attrs@[k])) ==> first(
            n.attrs@,
            q,
        ) is None
    } by {
        crate::lists::lemma_first_from(n.attrs@, q, 0);
    }
}

/// The attributes that a chart writes are told by local name, those of the experimental name space
/// left out.
pub proof fn law_what_a_chart_writes(a: Seq<(String, String)>, n: int)
    requires
        0 <= n < a.len(),
    ensures
        counting_upto(a, 0).len() == 0,
        begins(a[n].0@, "calcext"@) && a[n].0@.contains(':') ==> counting_upto(a, n + 1)
            == counting_upto(a, n),
        !begins(a[n].0@, "calcext"@) || !a[n].0@.contains(':') ==> counting_upto(a, n + 1)
            == counting_upto(a, n).push((local_part(a[n].0@), a[n].1@)),
{
}

/// The words of a text with one blank between two: blanks add nothing, a word that begins behind
/// others adds a blank and its first character, and every other character is added as it is.
pub proof fn law_words_stand_one_blank_apart(s: Seq<char>, n: int)
    requires
        0 <= n < s.len(),
    ensures
        spaced(s, 0).len() == 0,
        blank(s[n]) ==> spaced(s, n + 1) == spaced(s, n),
        !blank(s[n]) && n > 0 && !blank(s[n - 1]) ==> spaced(s, n + 1) == spaced(s, n).push(s[n]),
        !blank(s[n]) && (n == 0 || blank(s[n - 1])) && spaced(s, n).len() == 0 ==> spaced(s, n + 1)
            == seq![s[n]],
        !blank(s[n]) && n > 0 && blank(s[n - 1]) && spaced(s, n).len() > 0 ==> spaced(s, n + 1)
            == spaced(s, n).push(' ').push(s[n]),
{
    if spaced(s, n).len() == 0 {
        assert(spaced(s, n) =~= Seq::empty());
        assert(Seq::<char>::empty().push(s[n]) =~= seq![s[n]]);
    }
}

/// The text of an element is that of its paragraphs that hold a word, one blank between two.
pub proof fn law_what_the_text_of_an_element_is(paras: Seq<Node>, n: int, e: Node)
    requires
        0 <= n < paras.len(),
    ensures
        plain_upto(paras, 0).len() == 0,
        ({
            let t = paras[n].full_text();
            let own = spaced(t, t.len() as int);
            let before = plain_upto(paras, n);
            &&& own.len() == 0 ==> plain_upto(paras, n + 1) == before
            &&& own.len() > 0 && before.len() == 0 ==> plain_upto(paras, n + 1) == own
            &&& own.len() > 0 && before.len() > 0 ==> plain_upto(paras, n + 1) == before + seq![' ']
                + own
        }),
        ({
            let t = plain_upto(e.below("p"@), e.below("p"@).len() as int);
            if t.len() > 0 {
                plain_text(e) == Some(t)
            } else {
                plain_text(e) is None
            }
        }),
{
    let t = paras[n].full_text();
    let own = spaced(t, t.len() as int);
    let before = plain_upto(paras, n);
    assert(before.push(' ') + own =~= before + seq![' '] + own);
}

/// An element stands for as many as it writes, and for one where it writes nothing, nought or
/// something that is no number.
pub proof fn law_how_many_an_element_stands_for(n: Node, want: Seq<char>, c: Seq<Node>, k: int)
    requires
        0 <= k < c.len(),
    ensures
        chart_attr(n, want) is None ==> stands_for(n, want) == 1,
        chart_attr(n, want) matches Some(raw) ==> match unsigned_value(
            trimmed(raw),
            usize::MAX as int,
        ) {
            Some(v) => stands_for(n, want) == if v >= 1 {
                v
            } else {
                1
            },
            None => stands_for(n, want) == 1,
        },
        points(c, 0) == 0,
        points(c, k + 1) == points(c, k) + stands_for(c[k], "repeated"@),
{
    match chart_attr(n, want) {
        Some(raw) => crate::words::law_numbers_keep_their_range(trimmed(raw), usize::MAX as int),
        None => {},
    }
}

/// A series is told with its kind, where its values and its label stand, and how many points its
/// elements stand for; one without elements states none.
pub proof fn law_what_a_series_says(r: SeriesRow, n: Node)
    requires
        r.describes(n),
    ensures
        text_in(r.class) == chart_attr(n, "class"@),
        text_in(r.values) == chart_attr(n, "values-cell-range-address"@),
        text_in(r.label) == chart_attr(n, "label-cell-address"@),
        r.point_elements == n.all_of("data-point"@).len(),
        r.point_elements == 0 ==> r.points_written is None,
        r.point_elements > 0 ==> (r.points_written matches Some(v) && v == points(
            n.all_of("data-point"@),
            r.point_elements as int,
        )),
        pair_texts(r.written@) == counting(n),
{
}

/// The categories of a chart and the cells of the table that it carries are told as they are
/// written.
pub proof fn law_what_categories_and_cells_say(r: CategoriesRow, n: Node, c: CachedCell, m: Node)
    requires
        r.describes(n),
        c.describes(m),
    ensures
        text_in(r.address) == chart_attr(n, "cell-range-address"@),
        r.point_elements == n.all_of("data-point"@).len(),
        pair_texts(r.written@) == counting(n),
        c.repeated == stands_for(m, "number-columns-repeated"@),
        text_in(c.text) == plain_text(m),
        text_in(c.value) == chart_attr(m, "value"@),
        pair_texts(c.written@) == counting(m),
{
}

/// A chart is told with the kind of its first chart element, its first title, all its series, and
/// the rows of the tables that it carries with it.
pub proof fn law_what_a_chart_says(r: Chart, root: Node, i: int)
    requires
        r.describes(root),
    ensures
        root.below("chart"@).len() == 0 ==> r.class is None,
        root.below("chart"@).len() > 0 ==> text_in(r.class) == chart_attr(
            root.below("chart"@)[0],
            "class"@,
        ),
        root.below("title"@).len() == 0 ==> r.title is None,
        root.below("title"@).len() > 0 ==> text_in(r.title) == plain_text(root.below("title"@)[0]),
        r.series@.len() == root.below("series"@).len(),
        0 <= i < r.series@.len() ==> r.series@[i].describes(root.below("series"@)[i]),
        root.below("categories"@).len() == 0 ==> r.categories is None,
        root.below("categories"@).len() > 0 ==> (r.categories matches Some(c) && c.describes(
            root.below("categories"@)[0],
        )),
        r.local_table@.len() == own_rows(root).len(),
        0 <= i < r.local_table@.len() ==> lists_cells(r.local_table@[i]@, own_rows(root)[i]),
{
}

/// The tables that a chart carries are those of that name, and the cells of their rows are the
/// cells and the header cells.
pub proof fn law_which_tables_a_chart_carries(
    root: Node,
    q: spec_fn(Node) -> bool,
    row: Node,
    p: spec_fn(Node) -> bool,
)
    requires
        forall|n: Node| #[trigger] q(n) == (chart_attr(n, "name"@) == Some("local-table"@)),
        forall|n: Node| #[trigger]
            p(n) == (n.local_name() == "table-cell"@ || n.local_name() == "header-cell"@),
    ensures
        own_tables(root) == root.below("table"@).filter(q),
        cells_in(row) == row.children@.filter(p),
{
    let a = |n: Node| chart_attr(n, "name"@) == Some("local-table"@);
    assert(a =~= q);
    let b = |n: Node| n.local_name() == "table-cell"@ || n.local_name() == "header-cell"@;
    assert(b =~= p);
}

/// The folder of an object is its address without the marks for the own folder before it.
pub proof fn law_what_folder_an_address_names(rest: Seq<char>)
    ensures
        undotted(seq!['.', '/'] + rest) == undotted(rest),
        rest.len() < 2 || rest[0] != '.' || rest[1] != '/' ==> undotted(rest) == rest,
        folder(seq!['.', '/'] + rest) == folder(rest),
{
    let s = seq!['.', '/'] + rest;
    assert(s.skip(2) =~= rest);
}

/// The objects of a frame are those of its children that name a folder, in their order.
pub proof fn law_which_objects_a_frame_has(frame: Node, q: spec_fn(Node) -> bool, i: int)
    requires
        forall|n: Node| #[trigger]
            q(n) == (n.local_name() == "object"@ && chart_attr(n, "href"@) is Some),
    ensures
        objects_of(frame).len() == frame.children@.filter(q).len(),
        0 <= i < objects_of(frame).len() ==> objects_of(frame)[i].object
            == frame.children@.filter(q)[i] && objects_of(frame)[i].frame == frame,
{
    let a = |n: Node| n.local_name() == "object"@ && chart_attr(n, "href"@) is Some;
    assert(a =~= q);
}

/// An object is told with its folder, the chart in the content of that folder where it could be
/// read, the name of its frame, and whether a picture stands in for it.
pub proof fn law_what_an_object_says(r: ChartRow, f: Framed, parts: Seq<PartTree>, href: Seq<char>)
    requires
        r.describes(f, parts),
        chart_attr(f.object, "href"@) == Some(href),
    ensures
        r.object@ == folder(href),
        text_in(r.frame) == chart_attr(f.frame, "name"@),
        tree_of(parts, folder(href) + "/content.xml"@) is None ==> r.chart is None,
        tree_of(parts, folder(href) + "/content.xml"@) matches Some(root) ==> (r.chart matches Some(
            c,
        ) && c.describes(root)),
        r.preview <==> exists|i: int|
            0 <= i < f.frame.children@.len() && ({
                let n = #[trigger] f.frame.children@[i];
                n.local_name() == "image"@ && chart_attr(n, "href"@) is Some && begins(
                    chart_attr(n, "href"@)->0,
                    "./ObjectReplacements/"@,
                )
            }),
{
    if r.preview {
        let i = choose|i: int|
            0 <= i < f.frame.children@.len() && is_preview(#[trigger] f.frame.children@[i]);
        assert(is_preview(f.frame.children@[i]));
    }
    if exists|i: int|
        0 <= i < f.frame.children@.len() && ({
            let n = #[trigger] f.frame.children@[i];
            n.local_name() == "image"@ && chart_attr(n, "href"@) is Some && begins(
                chart_attr(n, "href"@)->0,
                "./ObjectReplacements/"@,
            )
        }) {
        let i = choose|i: int|
            0 <= i < f.frame.children@.len() && ({
                let n = #[trigger] f.frame.children@[i];
                n.local_name() == "image"@ && chart_attr(n, "href"@) is Some && begins(
                    chart_attr(n, "href"@)->0,
                    "./ObjectReplacements/"@,
                )
            });
        assert(is_preview(f.frame.children@[i]));
    }
}

/// The rows that a chart carries are the elements `table-row` of its tables, table by table.
pub proof fn law_which_rows_a_chart_carries(root: Node, tables: Seq<Node>, i: int, n: int)
    requires
        0 <= i < tables.len(),
        0 <= n,
    ensures
        rows_at(tables)(i) == tables[i].below("table-row"@),
        joined(rows_at(tables), 0).len() == 0,
        joined(rows_at(tables), n + 1) == joined(rows_at(tables), n) + tables[n].below(
            "table-row"@,
        ),
        own_rows(root) == joined(rows_at(own_tables(root)), own_tables(root).len() as int),
{
}

/// The objects of a table or a page are those of its elements `frame`, frame by frame.
pub proof fn law_which_frames_hold_objects(host: Node, frames: Seq<Node>, n: int)
    requires
        0 <= n,
    ensures
        objects_in(host) == joined(
            objects_at(host.below("frame"@)),
            host.below("frame"@).len() as int,
        ),
        joined(objects_at(frames), 0).len() == 0,
        joined(objects_at(frames), n + 1) == joined(objects_at(frames), n) + objects_of(frames[n]),
{
}

} // verus!
