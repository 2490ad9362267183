//! The format by which a cell of an OpenDocument table is shown.
//!
//! A cell names a style, that style or one of its parents names a data style, and the data style
//! is a tree of elements. The tree is handed on element by element: what it means in another
//! notation is not for this module to say.

use crate::lists::{each, first, first_from, last_upto, lemma_last_upto};
use crate::odf::{attr_of, attr_said};
use crate::text::{same, texts};
use crate::words::{parse_unsigned, trim, trimmed, unsigned_value};
use crate::written::{copied, owned, pick_nodes, slice_in, text_in};
use crate::xml::{nodes, Node};
use vstd::prelude::*;

verus! {

broadcast use {crate::text::lemma_texts_push, crate::xml::lemma_nodes_push};

/// How many styles are asked on the way up from a cell's own.
pub const MAX_PARENT_HOPS: usize = 8;

/// A data style.
#[derive(Debug, Clone)]
pub struct DataStyle {
    pub name: String,
    pub kind: String,
    pub decimals: Option<usize>,
    pub currency_symbol: Option<String>,
    pub tokens: Vec<String>,
}

/// What the style of a cell says of its data style.
#[derive(Debug, Clone)]
pub struct CellStyle {
    pub name: String,
    pub data_style: Option<String>,
    pub parent: Option<String>,
}

/// The styles of cells and the data styles of a document.
#[derive(Debug, Clone)]
pub struct Styles {
    pub cells: Vec<CellStyle>,
    pub data: Vec<DataStyle>,
    pub notes: Vec<String>,
}

/// The format of a cell that names a style.
#[derive(Debug, Clone)]
pub struct CellFormat {
    pub cell_style: String,
    pub data_style: Option<String>,
    pub format_kind: Option<String>,
    pub decimals: Option<usize>,
    pub currency_symbol: Option<String>,
    pub format_tokens: Vec<String>,
}

/// The kind of a data style with that local name.
pub open spec fn kind_name(local: Seq<char>) -> Option<Seq<char>> {
    if local == "date-style"@ {
        Some("date"@)
    } else if local == "time-style"@ {
        Some("time"@)
    } else if local == "number-style"@ {
        Some("number"@)
    } else if local == "currency-style"@ {
        Some("currency"@)
    } else if local == "percentage-style"@ {
        Some("percent"@)
    } else if local == "text-style"@ {
        Some("text"@)
    } else if local == "boolean-style"@ {
        Some("bool"@)
    } else {
        None
    }
}

/// The kind of a data style with that local name.
fn kind_of(local: &str) -> (r: Option<&'static str>)
    ensures
        slice_in(r) == kind_name(local@),
{
    if same(local, "date-style") {
        Some("date")
    } else if same(local, "time-style") {
        Some("time")
    } else if same(local, "number-style") {
        Some("number")
    } else if same(local, "currency-style") {
        Some("currency")
    } else if same(local, "percentage-style") {
        Some("percent")
    } else if same(local, "text-style") {
        Some("text")
    } else if same(local, "boolean-style") {
        Some("bool")
    } else {
        None
    }
}

/// What an element of a data style is written as: the name, and for text the text as well.
pub open spec fn token(n: Node) -> Seq<char> {
    if n.local_name() == "text"@ {
        "text:"@ + n.full_text()
    } else {
        n.local_name()
    }
}

fn tokens_of(style: &Node) -> (r: Vec<String>)
    ensures
        texts(r@) == Seq::new(style.children@.len(), |i: int| token(style.children@[i])),
{
    let r: Vec<String> = each(
        &style.children,
        style.children.len(),
        |i: usize, n: &Node| -> (r: String)
            ensures
                r@ == token(*n)
            {
                if n.is("text") {
                    let mut t: String = String::new();
                    t.append("text:");
                    t.append(n.text().as_str());
                    assert(t@ =~= token(*n));
                    t
                } else {
                    n.local().to_owned()
                }
            },
    );
    assert(texts(r@) =~= Seq::new(style.children@.len(), |i: int| token(style.children@[i])));
    r
}

/// The number of decimal places that an element states.
pub open spec fn places(n: Node) -> Option<int> {
    match attr_said(n, "decimal-places"@) {
        Some(t) => unsigned_value(trimmed(t), usize::MAX as int),
        None => None,
    }
}

fn read_places(n: &Node) -> (r: Option<usize>)
    ensures
        match r {
            Some(v) => places(*n) == Some(v as int),
            None => places(*n) is None,
        },
{
    match attr_of(n, "decimal-places") {
        Some(t) => match parse_unsigned(trim(t), usize::MAX as u64) {
            Some(v) => Some(v as usize),
            None => None,
        },
        None => None,
    }
}

/// The number of decimal places of a style: the first that one of its elements states.
pub open spec fn decimals(n: Node) -> Option<int> {
    match first(n.children@, |c: Node| places(c) is Some) {
        Some(i) => places(n.children@[i]),
        None => None,
    }
}

fn decimals_of(style: &Node) -> (r: Option<usize>)
    ensures
        match r {
            Some(v) => decimals(*style) == Some(v as int),
            None => decimals(*style) is None,
        },
{
    let c: &Vec<Node> = &style.children;
    let ghost p = |c: Node| places(c) is Some;
    let mut i: usize = 0;
    while i < c.len()
        invariant
            i <= c@.len(),
            *c == style.children,
            p == (|c: Node| places(c) is Some),
            first(c@, p) == first_from(c@, p, i as int),
        decreases c@.len() - i,
    {
        if let Some(v) = read_places(&c[i]) {
            return Some(v);
        }
        i += 1;
    }
    None
}

impl DataStyle {
    pub open spec fn describes(self, n: Node, kind: Seq<char>) -> bool {
        &&& attr_said(n, "name"@) == Some(self.name@)
        &&& self.kind@ == kind
        &&& match self.decimals {
            Some(v) => decimals(n) == Some(v as int),
            None => decimals(n) is None,
        }
        &&& text_in(self.currency_symbol) == attr_said(n, "currency-symbol"@)
        &&& texts(self.tokens@) == Seq::new(n.children@.len(), |i: int| token(n.children@[i]))
    }
}

impl CellStyle {
    pub open spec fn describes(self, n: Node) -> bool {
        &&& attr_said(n, "name"@) == Some(self.name@)
        &&& text_in(self.data_style) == attr_said(n, "data-style-name"@)
        &&& text_in(self.parent) == attr_said(n, "parent-style-name"@)
    }
}

/// The styles of cells in a part: those of that family with a name.
pub open spec fn cell_styles(root: Node) -> Seq<Node> {
    root.below("style"@).filter(
        |n: Node|
            attr_said(n, "name"@) is Some && attr_said(n, "family"@) == Some("table-cell"@),
    )
}

/// A data style and its kind.
pub struct Kinded {
    pub kind: Seq<char>,
    pub node: Node,
}

/// The data styles with that local name in a part: those with a name.
pub open spec fn data_called(root: Node, local: Seq<char>) -> Seq<Kinded> {
    let s = root.below(local).filter(|n: Node| attr_said(n, "name"@) is Some);
    match kind_name(local) {
        Some(kind) => Seq::new(s.len(), |i: int| Kinded { kind, node: s[i] }),
        None => Seq::empty(),
    }
}

/// The data styles of a part, kind by kind.
pub open spec fn data_styles(root: Node) -> Seq<Kinded> {
    data_called(root, "date-style"@) + data_called(root, "time-style"@) + data_called(
        root,
        "number-style"@,
    ) + data_called(root, "currency-style"@) + data_called(root, "percentage-style"@)
        + data_called(root, "text-style"@) + data_called(root, "boolean-style"@)
}

/// The styles of cells of a document, those of the named styles before those of the content.
pub open spec fn all_cells(styles: Option<Node>, content: Option<Node>) -> Seq<Node> {
    let a = match styles {
        Some(root) => cell_styles(root),
        None => Seq::empty(),
    };
    let b = match content {
        Some(root) => cell_styles(root),
        None => Seq::empty(),
    };
    a + b
}

/// The data styles of a document, those of the named styles before those of the content.
pub open spec fn all_data(styles: Option<Node>, content: Option<Node>) -> Seq<Kinded> {
    let a = match styles {
        Some(root) => data_styles(root),
        None => Seq::empty(),
    };
    let b = match content {
        Some(root) => data_styles(root),
        None => Seq::empty(),
    };
    a + b
}

/// The data styles that are kept are those.
pub open spec fn lists_data(v: Seq<DataStyle>, s: Seq<Kinded>) -> bool {
    &&& v.len() == s.len()
    &&& forall|i: int| 0 <= i < v.len() ==> (#[trigger] v[i]).describes(s[i].node, s[i].kind)
}

/// The styles of cells that are kept are those.
pub open spec fn lists_cells(v: Seq<CellStyle>, s: Seq<Node>) -> bool {
    &&& v.len() == s.len()
    &&& forall|i: int| 0 <= i < v.len() ==> (#[trigger] v[i]).describes(s[i])
}

fn add_data(root: &Node, local: &str, data: &mut Vec<DataStyle>, Ghost(s): Ghost<Seq<Kinded>>)
    requires
        lists_data(old(data)@, s),
    ensures
        lists_data(final(data)@, s + data_called(*root, local@)),
{
    let kind: &str = match kind_of(local) {
        Some(k) => k,
        None => {
            assert(s + data_called(*root, local@) =~= s);
            return ;
        },
    };
    let all: Vec<&Node> = root.descendants(local);
    let named: Vec<&Node> = pick_nodes(
        &all,
        |n: &Node| -> (b: bool)
            ensures
                b == (attr_said(*n, "name"@) is Some)
            { attr_of(n, "name").is_some() },
        Ghost(|n: Node| attr_said(n, "name"@) is Some),
    );
    let ghost more = data_called(*root, local@);
    assert(nodes(named@).len() == named@.len());
    let mut i: usize = 0;
    assert(s + more.take(0) =~= s);
    while i < named.len()
        invariant
            i <= named@.len(),
            more.len() == named@.len(),
            more == data_called(*root, local@),
            nodes(named@) == root.below(local@).filter(|n: Node| attr_said(n, "name"@) is Some),
            kind_name(local@) == Some(kind@),
            lists_data(data@, s + more.take(i as int)),
        decreases named@.len() - i,
    {
        let n: &Node = named[i];
        assert(nodes(named@)[i as int] == *n);
        assert(more[i as int] == (Kinded { kind: kind@, node: *n }));
        proof {
            lemma_kept(root.below(local@), |n: Node| attr_said(n, "name"@) is Some, i as int);
        }
        if let Some(name) = attr_of(n, "name") {
            let one: DataStyle = DataStyle {
                name: name.to_owned(),
                kind: kind.to_owned(),
                decimals: decimals_of(n),
                currency_symbol: owned(attr_of(n, "currency-symbol")),
                tokens: tokens_of(n),
            };
            data.push(one);
        }
        assert(s + more.take(i + 1) =~= (s + more.take(i as int)).push(more[i as int]));
        i += 1;
    }
    assert(more.take(i as int) =~= more);
}

/// What a filter keeps satisfies it.
proof fn lemma_kept(s: Seq<Node>, p: spec_fn(Node) -> bool, i: int)
    requires
        0 <= i < s.filter(p).len(),
    ensures
        p(s.filter(p)[i]),
{
    s.filter_lemma(p);
}

fn add_cells(root: &Node, cells: &mut Vec<CellStyle>, Ghost(s): Ghost<Seq<Node>>)
    requires
        lists_cells(old(cells)@, s),
    ensures
        lists_cells(final(cells)@, s + cell_styles(*root)),
{
    let all: Vec<&Node> = root.descendants("style");
    let ghost p = |n: Node|
        attr_said(n, "name"@) is Some && attr_said(n, "family"@) == Some("table-cell"@);
    let own: Vec<&Node> = pick_nodes(
        &all,
        |n: &Node| -> (b: bool)
            ensures
                b == (attr_said(*n, "name"@) is Some && attr_said(*n, "family"@) == Some(
                    "table-cell"@,
                ))
            {
                attr_of(n, "name").is_some() && match attr_of(n, "family") {
                    Some(f) => same(f, "table-cell"),
                    None => false,
                }
            },
        Ghost(p),
    );
    let ghost more = cell_styles(*root);
    assert(nodes(own@).len() == own@.len());
    let mut i: usize = 0;
    assert(s + more.take(0) =~= s);
    while i < own.len()
        invariant
            i <= own@.len(),
            more.len() == own@.len(),
            nodes(own@) == more,
            more == root.below("style"@).filter(p),
            p == (|n: Node|
                attr_said(n, "name"@) is Some && attr_said(n, "family"@) == Some("table-cell"@)),
            lists_cells(cells@, s + more.take(i as int)),
        decreases own@.len() - i,
    {
        let n: &Node = own[i];
        assert(nodes(own@)[i as int] == *n);
        proof {
            lemma_kept(root.below("style"@), p, i as int);
        }
        if let Some(name) = attr_of(n, "name") {
            let one: CellStyle = CellStyle {
                name: name.to_owned(),
                data_style: owned(attr_of(n, "data-style-name")),
                parent: owned(attr_of(n, "parent-style-name")),
            };
            cells.push(one);
        }
        assert(s + more.take(i + 1) =~= (s + more.take(i as int)).push(more[i as int]));
        i += 1;
    }
    assert(more.take(i as int) =~= more);
}

fn gather(
    root: &Node,
    cells: &mut Vec<CellStyle>,
    data: &mut Vec<DataStyle>,
    Ghost(s): Ghost<Seq<Node>>,
    Ghost(d): Ghost<Seq<Kinded>>,
)
    requires
        lists_cells(old(cells)@, s),
        lists_data(old(data)@, d),
    ensures
        lists_cells(final(cells)@, s + cell_styles(*root)),
        lists_data(final(data)@, d + data_styles(*root)),
{
    add_cells(root, cells, Ghost(s));
    let ghost a = d + data_called(*root, "date-style"@);
    add_data(root, "date-style", data, Ghost(d));
    let ghost b = a + data_called(*root, "time-style"@);
    add_data(root, "time-style", data, Ghost(a));
    let ghost c = b + data_called(*root, "number-style"@);
    add_data(root, "number-style", data, Ghost(b));
    let ghost e = c + data_called(*root, "currency-style"@);
    add_data(root, "currency-style", data, Ghost(c));
    let ghost f = e + data_called(*root, "percentage-style"@);
    add_data(root, "percentage-style", data, Ghost(e));
    let ghost g = f + data_called(*root, "text-style"@);
    add_data(root, "text-style", data, Ghost(f));
    add_data(root, "boolean-style", data, Ghost(g));
    assert(g + data_called(*root, "boolean-style"@) =~= d + data_styles(*root));
}

/// The styles of cells with that name.
pub open spec fn cell_called(name: Seq<char>) -> spec_fn(CellStyle) -> bool {
    |c: CellStyle| c.name@ == name
}

/// The data styles with that name.
pub open spec fn data_named(name: Seq<char>) -> spec_fn(DataStyle) -> bool {
    |d: DataStyle| d.name@ == name
}

impl Styles {
    pub open spec fn describes(self, styles: Option<Node>, content: Option<Node>) -> bool {
        &&& lists_cells(self.cells@, all_cells(styles, content))
        &&& lists_data(self.data@, all_data(styles, content))
        &&& texts(self.notes@) == if self.data@.len() == 0 {
            seq![
                "两份样式部件里都没找到 number:*-style：这一版对 ODF 的格式只能说「不知道」"@,
            ]
        } else {
            Seq::empty()
        }
    }

    /// The place of the style of a cell with that name. Of several the one read last counts.
    pub open spec fn cell_at(self, name: Seq<char>) -> Option<int> {
        last_upto(self.cells@, cell_called(name), self.cells@.len() as int)
    }

    /// The place of the data style with that name. Of several the one read last counts.
    pub open spec fn data_at(self, name: Seq<char>) -> Option<int> {
        last_upto(self.data@, data_named(name), self.data@.len() as int)
    }

    /// The place of the data style of a cell: the style of that name or the nearest parent that
    /// names a data style decides, and at most `hops` styles are asked.
    pub open spec fn data_for(self, name: Seq<char>, hops: nat) -> Option<int>
        decreases hops,
    {
        if hops == 0 {
            None
        } else {
            match self.cell_at(name) {
                Some(i) => match text_in(self.cells@[i].data_style) {
                    Some(want) => self.data_at(want),
                    None => match text_in(self.cells@[i].parent) {
                        Some(parent) => self.data_for(parent, (hops - 1) as nat),
                        None => None,
                    },
                },
                None => None,
            }
        }
    }

    /// Reads the styles from the roots of the part with the named styles and of the content, as
    /// far as the parts are there.
    pub fn read(styles: Option<&Node>, content: Option<&Node>) -> (r: Styles)
        ensures
            r.describes(
                crate::written::node_in(styles),
                crate::written::node_in(content),
            ),
    {
        let mut cells: Vec<CellStyle> = Vec::new();
        let mut data: Vec<DataStyle> = Vec::new();
        let ghost s: Seq<Node> = match styles {
            Some(root) => cell_styles(*root),
            None => Seq::empty(),
        };
        let ghost d: Seq<Kinded> = match styles {
            Some(root) => data_styles(*root),
            None => Seq::empty(),
        };
        if let Some(root) = styles {
            gather(root, &mut cells, &mut data, Ghost(Seq::empty()), Ghost(Seq::empty()));
            assert(Seq::empty() + s =~= s);
            assert(Seq::empty() + d =~= d);
        }
        assert(lists_cells(cells@, s));
        assert(lists_data(data@, d));
        if let Some(root) = content {
            gather(root, &mut cells, &mut data, Ghost(s), Ghost(d));
        } else {
            assert(s + Seq::<Node>::empty() =~= s);
            assert(d + Seq::<Kinded>::empty() =~= d);
        }
        let mut notes: Vec<String> = Vec::new();
        if data.len() == 0 {
            notes.push(
                "两份样式部件里都没找到 number:*-style：这一版对 ODF 的格式只能说「不知道」".to_owned(),
            );
            assert(texts(notes@) =~= seq![
                "两份样式部件里都没找到 number:*-style：这一版对 ODF 的格式只能说「不知道」"@,
            ]);
        } else {
            assert(texts(notes@) =~= Seq::empty());
        }
        Styles { cells, data, notes }
    }

    fn cell_style(&self, name: &str) -> (r: Option<usize>)
        ensures
            match r {
                Some(i) => self.cell_at(name@) == Some(i as int) && i < self.cells@.len(),
                None => self.cell_at(name@) is None,
            },
    {
        let mut n: usize = self.cells.len();
        while n > 0
            invariant
                n <= self.cells@.len(),
                self.cell_at(name@) == last_upto(
                    self.cells@,
                    cell_called(name@),
                    n as int,
                ),
            decreases n,
        {
            if same(self.cells[n - 1].name.as_str(), name) {
                return Some(n - 1);
            }
            n -= 1;
        }
        None
    }

    fn data_style(&self, name: &str) -> (r: Option<usize>)
        ensures
            match r {
                Some(i) => self.data_at(name@) == Some(i as int) && i < self.data@.len(),
                None => self.data_at(name@) is None,
            },
    {
        let mut n: usize = self.data.len();
        while n > 0
            invariant
                n <= self.data@.len(),
                self.data_at(name@) == last_upto(
                    self.data@,
                    data_named(name@),
                    n as int,
                ),
            decreases n,
        {
            if same(self.data[n - 1].name.as_str(), name) {
                return Some(n - 1);
            }
            n -= 1;
        }
        None
    }

    /// How many styles of cells and how many data styles there are.
    pub fn counts(&self) -> (r: (usize, usize))
        ensures
            r.0 == self.cells@.len(),
            r.1 == self.data@.len(),
    {
        (self.cells.len(), self.data.len())
    }

    /// The place of the data style of a cell.
    fn data_of(&self, cell_style: &str) -> (r: Option<usize>)
        ensures
            match r {
                Some(i) => self.data_for(cell_style@, MAX_PARENT_HOPS as nat) == Some(i as int) && i
                    < self.data@.len(),
                None => self.data_for(cell_style@, MAX_PARENT_HOPS as nat) is None,
            },
    {
        let mut here: String = cell_style.to_owned();
        let mut hops: usize = MAX_PARENT_HOPS;
        while hops > 0
            invariant
                hops <= MAX_PARENT_HOPS,
                self.data_for(cell_style@, MAX_PARENT_HOPS as nat) == self.data_for(
                    here@,
                    hops as nat,
                ),
            decreases hops,
        {
            let at: usize = match self.cell_style(here.as_str()) {
                Some(i) => i,
                None => return None,
            };
            match &self.cells[at].data_style {
                Some(want) => return self.data_style(want.as_str()),
                None => {},
            }
            match &self.cells[at].parent {
                Some(parent) => {
                    here = parent.as_str().to_owned();
                },
                None => return None,
            }
            hops -= 1;
        }
        None
    }

    /// The format of a cell: none where the cell names no style. Where the style leads to no data
    /// style, the rest is empty.
    pub fn for_cell(&self, cell_style: Option<&str>) -> (r: Option<CellFormat>)
        ensures
            match cell_style {
                Some(name) => match r {
                    Some(f) => f.describes(*self, name@),
                    None => false,
                },
                None => r is None,
            },
    {
        let name: &str = match cell_style {
            Some(n) => n,
            None => return None,
        };
        match self.data_of(name) {
            Some(i) => {
                let one: &DataStyle = &self.data[i];
                let tokens: Vec<String> = copy_texts(&one.tokens);
                Some(
                    CellFormat {
                        cell_style: name.to_owned(),
                        data_style: Some(one.name.as_str().to_owned()),
                        format_kind: Some(one.kind.as_str().to_owned()),
                        decimals: one.decimals,
                        currency_symbol: copied(&one.currency_symbol),
                        format_tokens: tokens,
                    },
                )
            },
            None => {
                let none: Vec<String> = Vec::new();
                assert(texts(none@) =~= Seq::empty());
                Some(
                    CellFormat {
                        cell_style: name.to_owned(),
                        data_style: None,
                        format_kind: None,
                        decimals: None,
                        currency_symbol: None,
                        format_tokens: none,
                    },
                )
            },
        }
    }
}

fn copy_texts(v: &Vec<String>) -> (r: Vec<String>)
    ensures
        texts(r@) == texts(v@),
{
    let r: Vec<String> = each(
        v,
        v.len(),
        |i: usize, t: &String| -> (r: String)
            ensures
                r@ == t@
            { t.as_str().to_owned() },
    );
    assert(texts(r@) =~= texts(v@));
    r
}

impl CellFormat {
    pub open spec fn describes(self, styles: Styles, name: Seq<char>) -> bool {
        &&& self.cell_style@ == name
        &&& match styles.data_for(name, MAX_PARENT_HOPS as nat) {
            Some(i) => {
                let d = styles.data@[i];
                &&& text_in(self.data_style) == Some(d.name@)
                &&& text_in(self.format_kind) == Some(d.kind@)
                &&& self.decimals == d.decimals
                &&& text_in(self.currency_symbol) == text_in(d.currency_symbol)
                &&& texts(self.format_tokens@) == texts(d.tokens@)
            },
            None => {
                &&& self.data_style is None
                &&& self.format_kind is None
                &&& self.decimals is None
                &&& self.currency_symbol is None
                &&& self.format_tokens@.len() == 0
            },
        }
    }
}

/// Where the content holds a style of a cell with some name, the style that the name stands for
/// is one of the content's, whatever the part with the named styles holds.
pub proof fn law_content_wins(
    styles: Option<Node>,
    content: Node,
    s: Styles,
    name: Seq<char>,
    k: int,
)
    requires
        s.describes(styles, Some(content)),
        0 <= k < cell_styles(content).len(),
        attr_said(cell_styles(content)[k], "name"@) == Some(name),
    ensures
        match s.cell_at(name) {
            Some(i) => exists|j: int|
                0 <= j < cell_styles(content).len() && s.cells@[i].describes(
                    #[trigger] cell_styles(content)[j],
                ),
            None => false,
        },
{
    let all = all_cells(styles, Some(content));
    let own = cell_styles(content);
    let from = all.len() - own.len();
    let p = cell_called(name);
    lemma_last_upto(s.cells@, p, s.cells@.len() as int);
    assert(all[from + k] == own[k]);
    assert(s.cells@[from + k].describes(all[from + k]));
    assert(p(s.cells@[from + k]));
    let i = s.cell_at(name)->0;
    assert(i >= from + k);
    assert(all[i] == own[i - from]);
    assert(s.cells@[i].describes(all[i]));
}

/// Where the data style of a cell is found, it is the one of that name that was read last.
pub proof fn law_last_data_style_counts(s: Styles, name: Seq<char>)
    ensures
        match s.data_at(name) {
            Some(i) => 0 <= i < s.data@.len() && s.data@[i].name@ == name && forall|k: int|
                i < k < s.data@.len() ==> (#[trigger] s.data@[k]).name@ != name,
            None => forall|k: int| 0 <= k < s.data@.len() ==> (#[trigger] s.data@[k]).name@ != name,
        },
{
    lemma_last_upto(s.data@, data_named(name), s.data@.len() as int);
}

/// Seven elements are data styles, each of one kind, and no other element is one.
pub proof fn law_which_elements_are_data_styles(local: Seq<char>)
    ensures
        kind_name("date-style"@) == Some("date"@),
        kind_name("time-style"@) == Some("time"@),
        kind_name("number-style"@) == Some("number"@),
        kind_name("currency-style"@) == Some("currency"@),
        kind_name("percentage-style"@) == Some("percent"@),
        kind_name("text-style"@) == Some("text"@),
        kind_name("boolean-style"@) == Some("bool"@),
        local != "date-style"@ && local != "time-style"@ && local != "number-style"@ && local
            != "currency-style"@ && local != "percentage-style"@ && local != "text-style"@ && local
            != "boolean-style"@ ==> kind_name(local) is None,
{
    lemma_style_words();
}

proof fn lemma_style_words()
    ensures
        "date-style"@ != "time-style"@ && "date-style"@ != "text-style"@ && "time-style"@
            != "text-style"@,
        "date-style"@.len() == 10 && "time-style"@.len() == 10 && "text-style"@.len() == 10,
        "number-style"@.len() == 12 && "boolean-style"@.len() == 13 && "currency-style"@.len()
            == 14 && "percentage-style"@.len() == 16,
{
    reveal_strlit("date-style");
    reveal_strlit("time-style");
    reveal_strlit("text-style");
    reveal_strlit("number-style");
    reveal_strlit("boolean-style");
    reveal_strlit("currency-style");
    reveal_strlit("percentage-style");
    assert("date-style"@[0] == 'd' && "time-style"@[0] == 't' && "text-style"@[0] == 't');
    assert("time-style"@[1] == 'i' && "text-style"@[1] == 'e');
}

/// A data style is told with its name, its kind, the decimal places that the first of its elements
/// states, its currency, and its elements one by one, text with its text.
pub proof fn law_what_a_data_style_says(d: DataStyle, n: Node, kind: Seq<char>, i: int)
    requires
        d.describes(n, kind),
        0 <= i < n.children@.len(),
    ensures
        attr_said(n, "name"@) == Some(d.name@),
        d.kind@ == kind,
        text_in(d.currency_symbol) == attr_said(n, "currency-symbol"@),
        d.tokens@.len() == n.children@.len(),
        n.children@[i].local_name() == "text"@ ==> d.tokens@[i]@ == "text:"@
            + n.children@[i].full_text(),
        n.children@[i].local_name() != "text"@ ==> d.tokens@[i]@ == n.children@[i].local_name(),
        places(n.children@[i]) is Some && (forall|k: int|
            0 <= k < i ==> places(#[trigger] n.children@[k]) is None) ==> (d.decimals matches Some(v)
            && places(n.children@[i]) == Some(v as int)),
        (forall|k: int| 0 <= k < n.children@.len() ==> places(#[trigger] n.children@[k]) is None)
            ==> d.decimals is None,
        attr_said(n.children@[i], "decimal-places"@) is None ==> places(n.children@[i]) is None,
        attr_said(n.children@[i], "decimal-places"@) matches Some(t) ==> places(n.children@[i])
            == unsigned_value(trimmed(t), usize::MAX as int),
{
    let c = n.children@;
    assert(texts(d.tokens@).len() == d.tokens@.len());
    assert(texts(d.tokens@)[i] == d.tokens@[i]@);
    let p = |c: Node| places(c) is Some;
    crate::lists::lemma_first_from(c, p, 0);
    match first(c, p) {
        Some(j) => {
            assert(p(c[j]));
            if j > i {
                assert(!p(c[i]));
            }
        },
        None => {
            assert(!p(c[i]));
        },
    }
}

/// The styles of cells are the named ones of that family, and the data styles of a kind the named
/// elements of it, those of the named styles before those of the content.
pub proof fn law_which_styles_are_read(
    styles: Node,
    content: Node,
    local: Seq<char>,
    kind: Seq<char>,
    q: spec_fn(Node) -> bool,
    p: spec_fn(Node) -> bool,
    i: int,
)
    requires
        kind_name(local) == Some(kind),
        forall|n: Node| #[trigger] q(n) == (attr_said(n, "name"@) is Some),
        forall|n: Node| #[trigger]
            p(n) == (attr_said(n, "name"@) is Some && attr_said(n, "family"@) == Some(
                "table-cell"@,
            )),
    ensures
        data_called(styles, local).len() == styles.below(local).filter(q).len(),
        0 <= i < styles.below(local).filter(q).len() ==> data_called(styles, local)[i].node
            == styles.below(local).filter(q)[i] && data_called(styles, local)[i].kind == kind,
        all_cells(Some(styles), Some(content)) == styles.below("style"@).filter(p) + content.below(
            "style"@,
        ).filter(p),
        all_data(Some(styles), Some(content)) == data_styles(styles) + data_styles(content),
        data_styles(styles) == data_called(styles, "date-style"@) + data_called(
            styles,
            "time-style"@,
        ) + data_called(styles, "number-style"@) + data_called(styles, "currency-style"@)
            + data_called(styles, "percentage-style"@) + data_called(styles, "text-style"@)
            + data_called(styles, "boolean-style"@),
{
    let a = |n: Node| attr_said(n, "name"@) is Some;
    assert(a =~= q);
    let b = |n: Node|
        attr_said(n, "name"@) is Some && attr_said(n, "family"@) == Some("table-cell"@);
    assert(b =~= p);
}

/// The data style of a cell is the one that its style names; where that names none its parent is
/// asked, and no more than eight styles are.
pub proof fn law_where_the_data_style_comes_from(s: Styles, name: Seq<char>, hops: nat, i: int)
    requires
        s.cell_at(name) == Some(i),
        hops > 0,
    ensures
        s.cells@[i].data_style matches Some(want) ==> s.data_for(name, hops) == s.data_at(want@),
        s.cells@[i].data_style is None ==> (s.cells@[i].parent matches Some(parent) ==> s.data_for(
            name,
            hops,
        ) == s.data_for(parent@, (hops - 1) as nat)),
        s.cells@[i].data_style is None && s.cells@[i].parent is None ==> s.data_for(name, hops)
            is None,
        s.data_for(name, 0) is None,
{
}

/// A name that no style of a cell has leads to no data style.
pub proof fn law_a_name_without_a_style(s: Styles, name: Seq<char>)
    requires
        forall|k: int| 0 <= k < s.cells@.len() ==> (#[trigger] s.cells@[k]).name@ != name,
    ensures
        s.cell_at(name) is None,
        s.data_for(name, 8) is None,
{
    lemma_last_upto(s.cells@, cell_called(name), s.cells@.len() as int);
    match s.cell_at(name) {
        Some(i) => {
            assert(cell_called(name)(s.cells@[i]));
        },
        None => {},
    }
}

/// The format of a cell is what its data style says, after at most eight styles, and empty where
/// none is found.
pub proof fn law_what_the_format_of_a_cell_is(f: CellFormat, s: Styles, name: Seq<char>, i: int)
    requires
        f.describes(s, name),
    ensures
        f.cell_style@ == name,
        s.data_for(name, 8) == Some(i) ==> {
            &&& text_in(f.data_style) == Some(s.data@[i].name@)
            &&& text_in(f.format_kind) == Some(s.data@[i].kind@)
            &&& f.decimals == s.data@[i].decimals
            &&& text_in(f.currency_symbol) == text_in(s.data@[i].currency_symbol)
            &&& texts(f.format_tokens@) == texts(s.data@[i].tokens@)
        },
        s.data_for(name, 8) is None ==> f.data_style is None && f.format_kind is None && f.decimals
            is None && f.currency_symbol is None && f.format_tokens@.len() == 0,
{
}

/// A style of a cell is told with its name, the data style it names and its parent, and that there
/// are no data styles is said.
pub proof fn law_what_styles_say(s: Styles, styles: Option<Node>, content: Option<Node>, i: int)
    requires
        s.describes(styles, content),
    ensures
        s.cells@.len() == all_cells(styles, content).len(),
        0 <= i < s.cells@.len() ==> {
            let n = all_cells(styles, content)[i];
            &&& attr_said(n, "name"@) == Some(s.cells@[i].name@)
            &&& text_in(s.cells@[i].data_style) == attr_said(n, "data-style-name"@)
            &&& text_in(s.cells@[i].parent) == attr_said(n, "parent-style-name"@)
        },
        s.data@.len() == all_data(styles, content).len(),
        0 <= i < s.data@.len() ==> s.data@[i].describes(
            all_data(styles, content)[i].node,
            all_data(styles, content)[i].kind,
        ),
        s.notes@.len() == 0 <==> s.data@.len() > 0,
{
    if 0 <= i < s.cells@.len() {
        assert(s.cells@[i].describes(all_cells(styles, content)[i]));
    }
    assert(texts(s.notes@).len() == s.notes@.len());
}

} // verus!
