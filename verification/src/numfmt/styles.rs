//! How the cells of a workbook are formatted.
//!
//! A cell writes the place of an entry in a list. The entry gives the number of a format, and the
//! numbers of a font, a fill and a border; each number leads into a list of its own. The lists are
//! handed on as the file writes them.

use super::{builtin, builtin_code, judged_code, kind_of, lower, serial_to_iso, small, Kind};
use super::{iso_of, serial_day};
use crate::dates::{day_number, valid_date};
use crate::lists::{each, first, first_from};
use crate::text::{chars_of, dec, pair_texts, same, text_map, texts};
use crate::words::{parse_unsigned, trim, trimmed, unsigned_value};
use crate::written::{
    entry_of, find_below, first_below, look_up, merge, merged, node_in, owned,
    pick_nodes, slice_in, text_in,
};
use crate::xml::{nodes, Node};
use std::collections::BTreeMap;
use vstd::prelude::*;

verus! {

broadcast use {
    crate::text::lemma_texts_push,
    crate::xml::lemma_nodes_push,
    vstd::std_specs::btree::group_btree_axioms,
};

/// An element of an entry, as it is written.
#[derive(Debug)]
pub struct Part {
    pub element: String,
    pub attrs: Vec<(String, String)>,
}

/// An entry of a list, as it is written.
#[derive(Debug)]
pub struct Row {
    pub attrs: Vec<(String, String)>,
    pub parts: Vec<Part>,
}

/// How many entries a list says it has and how many it has.
#[derive(Debug)]
pub struct TableCount {
    pub written: Option<String>,
    pub found: usize,
    pub whole: bool,
}

/// The counts of the lists.
#[derive(Debug)]
pub struct Ledger {
    pub fonts: TableCount,
    pub fills: TableCount,
    pub borders: TableCount,
    pub cell_xfs: TableCount,
    pub cell_style_xfs: TableCount,
}

/// The formats of a workbook.
#[derive(Debug, Default)]
pub struct Styles {
    pub xfs: Vec<u64>,
    pub custom: BTreeMap<u64, String>,
    pub year1904: bool,
    pub notes: Vec<String>,
    pub xf_rows: Vec<Row>,
    pub font_rows: Vec<Row>,
    pub fill_rows: Vec<Row>,
    pub border_rows: Vec<Row>,
    pub ledger: Option<Ledger>,
}

/// What a cell looks like. Without an entry at its place everything is empty.
#[derive(Debug)]
pub struct Appearance<'a> {
    pub found: bool,
    pub attrs: Option<&'a Vec<(String, String)>>,
    pub font_id: Option<&'a str>,
    pub font: Option<&'a Row>,
    pub fill_id: Option<&'a str>,
    pub fill: Option<&'a Row>,
    pub border_id: Option<&'a str>,
    pub border: Option<&'a Row>,
    pub alignment: Option<&'a Vec<(String, String)>>,
    pub bold: Option<bool>,
    pub filled: Option<bool>,
    pub wrapped: Option<bool>,
}

/// The format of a cell. Only a format that shows a date has the last field.
#[derive(Debug)]
pub struct CellFormat {
    pub num_fmt: u64,
    pub format: Option<String>,
    pub format_kind: &'static str,
    pub style: usize,
    pub as_date: Option<Option<String>>,
}

/// A table of pairs behind a reference that may not be there.
pub open spec fn pairs_in(t: Option<&Vec<(String, String)>>) -> Option<
    Seq<(Seq<char>, Seq<char>)>,
> {
    match t {
        Some(v) => Some(pair_texts(v@)),
        None => None,
    }
}

/// The entry behind a reference that may not be there.
pub open spec fn row_in(r: Option<&Row>) -> Option<Row> {
    match r {
        Some(x) => Some(*x),
        None => None,
    }
}

impl Part {
    pub open spec fn describes(self, n: Node) -> bool {
        self.element@ == n.name@ && pair_texts(self.attrs@) == merged(pair_texts(n.attrs@))
    }
}

impl Row {
    pub open spec fn describes(self, n: Node) -> bool {
        let kids = n.children@.filter(|c: Node| c.local_name() != "#text"@);
        &&& pair_texts(self.attrs@) == merged(pair_texts(n.attrs@))
        &&& self.parts@.len() == kids.len()
        &&& forall|i: int| 0 <= i < kids.len() ==> (#[trigger] self.parts@[i]).describes(kids[i])
    }

    /// What the first element of that name writes.
    pub open spec fn part_of(self, name: Seq<char>) -> Option<Seq<(Seq<char>, Seq<char>)>> {
        match first(self.parts@, |p: Part| p.element@ == name) {
            Some(i) => Some(pair_texts(self.parts@[i].attrs@)),
            None => None,
        }
    }

    fn child_attrs(&self, name: &str) -> (r: Option<&Vec<(String, String)>>)
        ensures
            pairs_in(r) == self.part_of(name@),
    {
        let ghost p = |p: Part| p.element@ == name@;
        let mut i: usize = 0;
        while i < self.parts.len()
            invariant
                i <= self.parts@.len(),
                p == (|p: Part| p.element@ == name@),
                first(self.parts@, p) == first_from(self.parts@, p, i as int),
            decreases self.parts@.len() - i,
        {
            if same(self.parts[i].element.as_str(), name) {
                return Some(&self.parts[i].attrs);
            }
            i += 1;
        }
        None
    }
}

fn read_part(n: &Node) -> (r: Part)
    ensures
        r.describes(*n),
{
    Part { element: n.name.as_str().to_owned(), attrs: merge(&n.attrs) }
}

fn read_row(n: &Node) -> (r: Row)
    ensures
        r.describes(*n),
{
    let all: Vec<&Node> = crate::written::kids_of(n);
    let ghost p = |c: Node| c.local_name() != "#text"@;
    let kids: Vec<&Node> = pick_nodes(
        &all,
        |c: &Node| -> (b: bool)
            ensures
                b == (c.local_name() != "#text"@)
            { !c.is("#text") },
        Ghost(p),
    );
    assert(nodes(kids@).len() == kids@.len());
    let parts: Vec<Part> = each(
        &kids,
        kids.len(),
        |i: usize, c: &&Node| -> (r: Part)
            ensures
                r.describes(**c)
            { read_part(c) },
    );
    assert forall|i: int| 0 <= i < parts@.len() implies (#[trigger] parts@[i]).describes(
        n.children@.filter(p)[i],
    ) by {
        assert(nodes(kids@)[i] == *kids@[i]);
    }
    Row { attrs: merge(&n.attrs), parts }
}

/// The entries called `keep` of the first list called `want`.
pub open spec fn entries(root: Node, want: Seq<char>, keep: Seq<char>) -> Seq<Node> {
    match first_below(root, want) {
        Some(holder) => holder.all_of(keep),
        None => Seq::empty(),
    }
}

/// The rows that are kept are those of the entries.
pub open spec fn lists_rows(v: Seq<Row>, s: Seq<Node>) -> bool {
    &&& v.len() == s.len()
    &&& forall|i: int| 0 <= i < v.len() ==> (#[trigger] v[i]).describes(s[i])
}

fn table_rows(root: &Node, want: &str, keep: &str) -> (r: Vec<Row>)
    ensures
        lists_rows(r@, entries(*root, want@, keep@)),
{
    let holder: &Node = match find_below(root, want) {
        Some(h) => h,
        None => {
            return Vec::new();
        },
    };
    let kept: Vec<&Node> = holder.all(keep);
    assert(nodes(kept@).len() == kept@.len());
    let out: Vec<Row> = each(
        &kept,
        kept.len(),
        |i: usize, n: &&Node| -> (r: Row)
            ensures
                r.describes(**n)
            { read_row(n) },
    );
    assert forall|i: int| 0 <= i < out@.len() implies (#[trigger] out@[i]).describes(
        entries(*root, want@, keep@)[i],
    ) by {
        assert(nodes(kept@)[i] == *kept@[i]);
    }
    out
}

/// How many entries the first list of that name says it has.
pub open spec fn count_written(root: Node, want: Seq<char>) -> Option<Seq<char>> {
    match first_below(root, want) {
        Some(n) => n.attr_text("count"@),
        None => None,
    }
}

impl TableCount {
    pub open spec fn describes(self, root: Node, want: Seq<char>, found: int) -> bool {
        &&& text_in(self.written) == count_written(root, want)
        &&& self.found == found
        &&& self.whole == match count_written(root, want) {
            None => true,
            Some(raw) => unsigned_value(trimmed(raw), usize::MAX as int) == Some(found),
        }
    }
}

fn table_ledger(root: &Node, want: &str, found: usize) -> (r: TableCount)
    ensures
        r.describes(*root, want@, found as int),
{
    let written: Option<&str> = match find_below(root, want) {
        Some(n) => n.attr_local("count"),
        None => None,
    };
    let whole: bool = match written {
        None => true,
        Some(raw) => match parse_unsigned(trim(raw), usize::MAX as u64) {
            Some(v) => v == found as u64,
            None => false,
        },
    };
    TableCount { written: owned(written), found, whole }
}

impl Ledger {
    pub open spec fn describes(self, root: Node) -> bool {
        &&& self.fonts.describes(
            root,
            "fonts"@,
            entries(root, "fonts"@, "font"@).len() as int,
        )
        &&& self.fills.describes(
            root,
            "fills"@,
            entries(root, "fills"@, "fill"@).len() as int,
        )
        &&& self.borders.describes(
            root,
            "borders"@,
            entries(root, "borders"@, "border"@).len() as int,
        )
        &&& self.cell_xfs.describes(
            root,
            "cellXfs"@,
            entries(root, "cellXfs"@, "xf"@).len() as int,
        )
        &&& self.cell_style_xfs.describes(
            root,
            "cellStyleXfs"@,
            entries(root, "cellStyleXfs"@, "xf"@).len() as int,
        )
    }
}

/// A text in small letters, as far as the letters are those of ASCII.
pub open spec fn lowered(s: Seq<char>) -> Seq<char> {
    Seq::new(s.len(), |i: int| small(s[i]))
}

/// Whether a text reads as `word` in small letters.
fn reads(s: &str, word: &str) -> (r: bool)
    ensures
        r == (lowered(s@) == word@),
{
    let a: Vec<char> = chars_of(s);
    let b: Vec<char> = chars_of(word);
    if a.len() != b.len() {
        assert(lowered(s@).len() != word@.len());
        return false;
    }
    let mut i: usize = 0;
    while i < a.len()
        invariant
            i <= a@.len(),
            a@.len() == b@.len(),
            a@ == s@,
            b@ == word@,
            forall|k: int| 0 <= k < i ==> lowered(s@)[k] == word@[k],
        decreases a@.len() - i,
    {
        if lower(a[i]) != b[i] {
            assert(lowered(s@)[i as int] != word@[i as int]);
            return false;
        }
        i += 1;
    }
    assert(lowered(s@) =~= word@);
    true
}

/// A switch that is written so is off.
pub open spec fn off(raw: Seq<char>) -> bool {
    let t = lowered(trimmed(raw));
    t == "0"@ || t == "false"@ || t == "none"@
}

fn is_off(raw: &str) -> (r: bool)
    ensures
        r == off(raw@),
{
    let t: &str = trim(raw);
    reads(t, "0") || reads(t, "false") || reads(t, "none")
}

/// Whether the element of that name switches something on. An element without a value does.
pub open spec fn flag(row: Option<Row>, name: Seq<char>) -> Option<bool> {
    match row {
        Some(r) => match r.part_of(name) {
            Some(t) => Some(
                match entry_of(t, "val"@) {
                    None => true,
                    Some(raw) => !off(raw),
                },
            ),
            None => None,
        },
        None => None,
    }
}

fn said_on(had: Option<&str>) -> (r: bool)
    ensures
        r == match slice_in(had) {
            None => true,
            Some(raw) => !off(raw),
        },
{
    match had {
        None => true,
        Some(raw) => !is_off(raw),
    }
}

fn flag_in(row: Option<&Row>, name: &str) -> (r: Option<bool>)
    ensures
        r == flag(row_in(row), name@),
{
    match row {
        Some(x) => match x.child_attrs(name) {
            Some(t) => Some(said_on(look_up(t, "val"))),
            None => None,
        },
        None => None,
    }
}

/// Whether an attribute switches something on. An attribute that is not there says nothing.
pub open spec fn switched(had: Option<Seq<char>>) -> Option<bool> {
    match had {
        Some(raw) => Some(!(trimmed(raw).len() == 0 || off(raw))),
        None => None,
    }
}

fn attr_flag(had: Option<&str>) -> (r: Option<bool>)
    ensures
        r == switched(slice_in(had)),
{
    match had {
        Some(raw) => Some(!(trim(raw).unicode_len() == 0 || is_off(raw))),
        None => None,
    }
}

/// A number that an attribute gives.
pub open spec fn number_said(n: Node, want: Seq<char>) -> Option<int> {
    match n.attr_text(want) {
        Some(raw) => unsigned_value(trimmed(raw), u64::MAX as int),
        None => None,
    }
}

fn attr_u64(n: &Node, want: &str) -> (r: Option<u64>)
    ensures
        match r {
            Some(v) => number_said(*n, want@) == Some(v as int),
            None => number_said(*n, want@) is None,
        },
{
    match n.attr_local(want) {
        Some(raw) => parse_unsigned(trim(raw), u64::MAX),
        None => None,
    }
}

/// The place of the entry of a list that an entry gives the number of.
pub open spec fn pointed(row: Row, key: Seq<char>, table: Seq<Row>) -> Option<Row> {
    match entry_of(pair_texts(row.attrs@), key) {
        Some(raw) => match unsigned_value(trimmed(raw), usize::MAX as int) {
            Some(i) => if i < table.len() {
                Some(table[i])
            } else {
                None
            },
            None => None,
        },
        None => None,
    }
}

fn picked<'a>(row: &Row, key: &str, table: &'a Vec<Row>) -> (r: Option<&'a Row>)
    ensures
        row_in(r) == pointed(*row, key@, table@),
{
    match look_up(&row.attrs, key) {
        Some(raw) => match parse_unsigned(trim(raw), usize::MAX as u64) {
            Some(i) => if i < table.len() as u64 {
                Some(&table[i as usize])
            } else {
                None
            },
            None => None,
        },
        None => None,
    }
}

/// Whether a fill has a pattern: one of another kind than none.
pub open spec fn filled(row: Option<Row>) -> Option<bool> {
    match row {
        Some(r) => match r.part_of("patternFill"@) {
            Some(t) => Some(
                match entry_of(t, "patternType"@) {
                    None => false,
                    Some(raw) => raw != "none"@,
                },
            ),
            None => None,
        },
        None => None,
    }
}

fn is_filled(row: Option<&Row>) -> (r: Option<bool>)
    ensures
        r == filled(row_in(row)),
{
    match row {
        Some(x) => match x.child_attrs("patternFill") {
            Some(t) => Some(
                match look_up(t, "patternType") {
                    None => false,
                    Some(raw) => !same(raw, "none"),
                },
            ),
            None => None,
        },
        None => None,
    }
}

impl Appearance<'_> {
    /// Everything but the mark is empty.
    pub open spec fn is_empty(self) -> bool {
        &&& !self.found
        &&& self.attrs is None
        &&& self.font_id is None
        &&& self.font is None
        &&& self.fill_id is None
        &&& self.fill is None
        &&& self.border_id is None
        &&& self.border is None
        &&& self.alignment is None
        &&& self.bold is None
        &&& self.filled is None
        &&& self.wrapped is None
    }

    pub open spec fn describes(self, row: Row, styles: Styles) -> bool {
        let t = pair_texts(row.attrs@);
        let font = pointed(row, "fontId"@, styles.font_rows@);
        let fill = pointed(row, "fillId"@, styles.fill_rows@);
        let alignment = row.part_of("alignment"@);
        &&& self.found
        &&& pairs_in(self.attrs) == Some(t)
        &&& slice_in(self.font_id) == entry_of(t, "fontId"@)
        &&& row_in(self.font) == font
        &&& slice_in(self.fill_id) == entry_of(t, "fillId"@)
        &&& row_in(self.fill) == fill
        &&& slice_in(self.border_id) == entry_of(t, "borderId"@)
        &&& row_in(self.border) == pointed(row, "borderId"@, styles.border_rows@)
        &&& pairs_in(self.alignment) == alignment
        &&& self.bold == flag(font, "b"@)
        &&& self.filled == filled(fill)
        &&& self.wrapped == match alignment {
            Some(a) => switched(entry_of(a, "wrapText"@)),
            None => None,
        }
    }
}

/// What goes into the date field of a cell: the serial day and seconds as a date.
pub open spec fn dated(text: Seq<char>, days: int, seconds: int, year1904: bool) -> bool {
    if !year1904 && days == 60 {
        text == "1900-02-29"@
    } else {
        exists|y: int, m: int, d: int|
            valid_date(y, m, d) && #[trigger] day_number(y, m, d) == serial_day(days, year1904)
                && text == iso_of(y, m, d, seconds)
    }
}

/// What the type of a cell makes of its kind. Text and truth values go by the type alone.
pub open spec fn typed(cell_type: Seq<char>, kind: Kind) -> Seq<char> {
    if cell_type == "s"@ || cell_type == "str"@ || cell_type == "inlineStr"@ {
        "text"@
    } else if cell_type == "b"@ {
        "bool"@
    } else {
        kind.name()
    }
}

impl Styles {
    /// The format number at a place in the list, or that of the general format.
    pub open spec fn number_at(self, style: int) -> u64 {
        if 0 <= style < self.xfs@.len() {
            self.xfs@[style]
        } else {
            0
        }
    }

    /// The code of the format at a place: the file's own for its number, or else the built-in one.
    pub open spec fn code_at(self, style: int) -> Option<Seq<char>> {
        let id = self.number_at(style);
        if self.custom@.contains_key(id) {
            Some(self.custom@[id]@)
        } else {
            builtin(id)
        }
    }

    /// The format number at a place and its code. There is no code for a number whose code goes
    /// by region.
    pub fn format_of(&self, style: usize) -> (r: (u64, Option<String>))
        ensures
            r.0 == self.number_at(style as int),
            text_in(r.1) == self.code_at(style as int),
    {
        let id: u64 = if style < self.xfs.len() {
            self.xfs[style]
        } else {
            0
        };
        match self.custom.get(&id) {
            Some(code) => (id, Some(code.as_str().to_owned())),
            None => (id, owned(builtin_code(id))),
        }
    }

    /// What the format at a place is for.
    pub fn kind_of(&self, style: usize) -> (r: Kind)
        ensures
            r == judged_code(self.code_at(style as int)),
    {
        match self.format_of(style).1 {
            Some(code) => kind_of(code.as_str()),
            None => Kind::Unknown,
        }
    }

    /// What a cell with that place looks like.
    pub fn appearance(&self, style: usize) -> (r: Appearance<'_>)
        ensures
            if style < self.xf_rows@.len() {
                r.describes(self.xf_rows@[style as int], *self)
            } else {
                r.is_empty()
            },
    {
        if style >= self.xf_rows.len() {
            return Appearance {
                found: false,
                attrs: None,
                font_id: None,
                font: None,
                fill_id: None,
                fill: None,
                border_id: None,
                border: None,
                alignment: None,
                bold: None,
                filled: None,
                wrapped: None,
            };
        }
        let row: &Row = &self.xf_rows[style];
        let font: Option<&Row> = picked(row, "fontId", &self.font_rows);
        let fill: Option<&Row> = picked(row, "fillId", &self.fill_rows);
        let alignment: Option<&Vec<(String, String)>> = row.child_attrs("alignment");
        let wrapped: Option<bool> = match alignment {
            Some(a) => attr_flag(look_up(a, "wrapText")),
            None => None,
        };
        Appearance {
            found: true,
            attrs: Some(&row.attrs),
            font_id: look_up(&row.attrs, "fontId"),
            font,
            fill_id: look_up(&row.attrs, "fillId"),
            fill,
            border_id: look_up(&row.attrs, "borderId"),
            border: picked(row, "borderId", &self.border_rows),
            alignment,
            bold: flag_in(font, "b"),
            filled: is_filled(fill),
            wrapped,
        }
    }

    /// The format of a cell with that place. `serial` is the number of the cell, where it has
    /// one, as whole days and the seconds beyond them; `cell_type` is the type that the cell
    /// writes.
    pub fn cell_format(&self, style: usize, serial: Option<(i64, i64)>, cell_type: &str) -> (r:
        CellFormat)
        requires
            match serial {
                Some((days, seconds)) => i64::MIN + 25_569 <= days <= i64::MAX - 719_162 && seconds
                    < 86_400,
                None => true,
            },
        ensures
            r.num_fmt == self.number_at(style as int),
            text_in(r.format) == self.code_at(style as int),
            r.format_kind@ == typed(cell_type@, judged_code(self.code_at(style as int))),
            r.style == style,
            r.as_date is Some <==> judged_code(self.code_at(style as int)).temporal(),
            match (r.as_date, serial) {
                (Some(Some(t)), Some((days, seconds))) => dated(
                    t@,
                    days as int,
                    seconds as int,
                    self.year1904,
                ),
                (Some(Some(_)), None) => false,
                (Some(None), Some(_)) => false,
                _ => true,
            },
    {
        let (num_fmt, format): (u64, Option<String>) = self.format_of(style);
        let judged: Kind = match &format {
            Some(code) => kind_of(code.as_str()),
            None => Kind::Unknown,
        };
        let format_kind: &'static str = if same(cell_type, "s") || same(cell_type, "str") || same(
            cell_type,
            "inlineStr",
        ) {
            "text"
        } else if same(cell_type, "b") {
            "bool"
        } else {
            judged.as_str()
        };
        let as_date: Option<Option<String>> = if judged.is_temporal() {
            match serial {
                Some((days, seconds)) => Some(
                    Some(serial_to_iso(days, seconds, self.year1904)),
                ),
                None => Some(None),
            }
        } else {
            None
        };
        CellFormat { num_fmt, format, format_kind, style, as_date }
    }
}

/// The codes that the first `n` entries give to numbers. Of two for one number the later counts.
pub open spec fn codes_upto(s: Seq<Node>, n: int) -> Map<u64, Seq<char>>
    decreases n,
{
    if n <= 0 {
        Map::empty()
    } else {
        let before = codes_upto(s, n - 1);
        match number_said(s[n - 1], "numFmtId"@) {
            Some(id) => before.insert(
                id as u64,
                match s[n - 1].attr_text("formatCode"@) {
                    Some(code) => code,
                    None => Seq::empty(),
                },
            ),
            None => before,
        }
    }
}

/// What is said of those among the first `n` entries that have no number.
pub open spec fn unnumbered(s: Seq<Node>, n: int) -> Seq<Seq<char>>
    decreases n,
{
    if n <= 0 {
        Seq::empty()
    } else if number_said(s[n - 1], "numFmtId"@) is None {
        unnumbered(s, n - 1).push("有一个 numFmt 没写 numFmtId"@)
    } else {
        unnumbered(s, n - 1)
    }
}

fn read_codes(root: &Node) -> (r: (BTreeMap<u64, String>, Vec<String>))
    ensures
        text_map(r.0@) == codes_upto(root.below("numFmt"@), root.below("numFmt"@).len() as int),
        texts(r.1@) == unnumbered(root.below("numFmt"@), root.below("numFmt"@).len() as int),
{
    let found: Vec<&Node> = root.descendants("numFmt");
    let ghost s = nodes(found@);
    let mut custom: BTreeMap<u64, String> = BTreeMap::new();
    let mut notes: Vec<String> = Vec::new();
    let mut i: usize = 0;
    assert(text_map(custom@) =~= codes_upto(s, 0));
    assert(texts(notes@) =~= unnumbered(s, 0));
    while i < found.len()
        invariant
            i <= found@.len(),
            s == nodes(found@),
            text_map(custom@) == codes_upto(s, i as int),
            texts(notes@) == unnumbered(s, i as int),
        decreases found@.len() - i,
    {
        let one: &Node = found[i];
        assert(s[i as int] == *one);
        match attr_u64(one, "numFmtId") {
            Some(id) => {
                let code: String = match one.attr_local("formatCode") {
                    Some(t) => t.to_owned(),
                    None => {
                        let none: String = String::new();
                        assert(none@ =~= Seq::empty());
                        none
                    },
                };
                let ghost had = custom@;
                custom.insert(id, code);
                assert(text_map(custom@) =~= text_map(had).insert(id, code@));
            },
            None => {
                notes.push("有一个 numFmt 没写 numFmtId".to_owned());
            },
        }
        i += 1;
    }
    assert(s.len() == found@.len());
    (custom, notes)
}

/// The workbook says that it counts days from 1904 on.
pub open spec fn from_1904(book: Node) -> bool {
    match first_below(book, "workbookPr"@) {
        Some(n) => match n.attr_text("date1904"@) {
            Some(raw) => {
                let t = lowered(trimmed(raw));
                t == "1"@ || t == "true"@ || t == "on"@
            },
            None => false,
        },
        None => false,
    }
}

fn is_1904(book: &Node) -> (r: bool)
    ensures
        r == from_1904(*book),
{
    match find_below(book, "workbookPr") {
        Some(n) => match n.attr_local("date1904") {
            Some(raw) => {
                let t: &str = trim(raw);
                reads(t, "1") || reads(t, "true") || reads(t, "on")
            },
            None => false,
        },
        None => false,
    }
}

/// The format numbers of entries; an entry without one has that of the general format.
pub open spec fn numbers(s: Seq<Node>) -> Seq<u64> {
    Seq::new(
        s.len(),
        |i: int|
            match number_said(s[i], "numFmtId"@) {
                Some(id) => id as u64,
                None => 0,
            },
    )
}

fn read_numbers(root: &Node) -> (r: Vec<u64>)
    ensures
        r@ == numbers(entries(*root, "cellXfs"@, "xf"@)),
{
    let holder: &Node = match find_below(root, "cellXfs") {
        Some(h) => h,
        None => {
            let none: Vec<u64> = Vec::new();
            assert(none@ =~= numbers(Seq::empty()));
            return none;
        },
    };
    let xfs: Vec<&Node> = holder.all("xf");
    let out: Vec<u64> = each(
        &xfs,
        xfs.len(),
        |i: usize, n: &&Node| -> (r: u64)
            ensures
                r == match number_said(**n, "numFmtId"@) {
                    Some(id) => id as u64,
                    None => 0,
                }
            {
                match attr_u64(n, "numFmtId") {
                    Some(v) => v,
                    None => 0,
                }
            },
    );
    assert(nodes(xfs@).len() == xfs@.len());
    assert forall|i: int| 0 <= i < out@.len() implies #[trigger] out@[i] == numbers(
        entries(*root, "cellXfs"@, "xf"@),
    )[i] by {
        assert(nodes(xfs@)[i] == *xfs@[i]);
    }
    assert(out@ =~= numbers(entries(*root, "cellXfs"@, "xf"@)));
    out
}

impl Styles {
    /// Nothing was read of the lists.
    pub open spec fn has_no_lists(self) -> bool {
        &&& self.xfs@.len() == 0
        &&& self.custom@ == Map::<u64, String>::empty()
        &&& self.xf_rows@.len() == 0
        &&& self.font_rows@.len() == 0
        &&& self.fill_rows@.len() == 0
        &&& self.border_rows@.len() == 0
        &&& self.ledger is None
    }

    /// The lists are those of the part with the styles.
    pub open spec fn has_lists_of(self, root: Node) -> bool {
        let codes = root.below("numFmt"@);
        &&& text_map(self.custom@) == codes_upto(codes, codes.len() as int)
        &&& self.xfs@ == numbers(entries(root, "cellXfs"@, "xf"@))
        &&& lists_rows(self.xf_rows@, entries(root, "cellXfs"@, "xf"@))
        &&& lists_rows(self.font_rows@, entries(root, "fonts"@, "font"@))
        &&& lists_rows(self.fill_rows@, entries(root, "fills"@, "fill"@))
        &&& lists_rows(self.border_rows@, entries(root, "borders"@, "border"@))
        &&& match self.ledger {
            Some(l) => l.describes(root),
            None => false,
        }
        &&& texts(self.notes@) == unnumbered(codes, codes.len() as int) + if first_below(
            root,
            "cellXfs"@,
        ) is None {
            seq!["styles.xml 里没有 cellXfs"@]
        } else {
            Seq::empty()
        }
    }

    pub open spec fn describes(self, book: Option<Node>, styles: Option<Node>) -> bool {
        match (book, styles) {
            (Some(b), Some(root)) => self.year1904 == from_1904(b) && self.has_lists_of(root),
            (Some(b), None) => {
                &&& self.year1904 == from_1904(b)
                &&& self.has_no_lists()
                &&& texts(self.notes@) == seq![
                    "包里读不到 xl/styles.xml（所有格子按 General 算）"@,
                ]
            },
            (None, _) => {
                &&& !self.year1904
                &&& self.has_no_lists()
                &&& texts(self.notes@) == seq!["包里读不到 xl/workbook.xml"@]
            },
        }
    }
}

fn without_lists(year1904: bool, note: &str) -> (r: Styles)
    ensures
        r.year1904 == year1904,
        r.has_no_lists(),
        texts(r.notes@) == seq![note@],
{
    let mut notes: Vec<String> = Vec::new();
    notes.push(note.to_owned());
    assert(texts(notes@) =~= seq![note@]);
    Styles {
        xfs: Vec::new(),
        custom: BTreeMap::new(),
        year1904,
        notes,
        xf_rows: Vec::new(),
        font_rows: Vec::new(),
        fill_rows: Vec::new(),
        border_rows: Vec::new(),
        ledger: None,
    }
}

/// Reads the formats of a workbook from the roots of its two parts, as far as the parts are there.
pub fn read_styles(book: Option<&Node>, styles: Option<&Node>) -> (r: Styles)
    ensures
        r.describes(node_in(book), node_in(styles)),
{
    let year1904: bool = match book {
        Some(b) => is_1904(b),
        None => {
            return without_lists(false, "包里读不到 xl/workbook.xml");
        },
    };
    let root: &Node = match styles {
        Some(s) => s,
        None => {
            return without_lists(
                year1904,
                "包里读不到 xl/styles.xml（所有格子按 General 算）",
            );
        },
    };
    let (custom, mut notes): (BTreeMap<u64, String>, Vec<String>) = read_codes(root);
    let font_rows: Vec<Row> = table_rows(root, "fonts", "font");
    let fill_rows: Vec<Row> = table_rows(root, "fills", "fill");
    let border_rows: Vec<Row> = table_rows(root, "borders", "border");
    let xf_rows: Vec<Row> = table_rows(root, "cellXfs", "xf");
    let base_rows: Vec<Row> = table_rows(root, "cellStyleXfs", "xf");
    let ledger: Ledger = Ledger {
        fonts: table_ledger(root, "fonts", font_rows.len()),
        fills: table_ledger(root, "fills", fill_rows.len()),
        borders: table_ledger(root, "borders", border_rows.len()),
        cell_xfs: table_ledger(root, "cellXfs", xf_rows.len()),
        cell_style_xfs: table_ledger(root, "cellStyleXfs", base_rows.len()),
    };
    let ghost said = texts(notes@);
    if find_below(root, "cellXfs").is_none() {
        notes.push("styles.xml 里没有 cellXfs".to_owned());
        assert(texts(notes@) =~= said + seq!["styles.xml 里没有 cellXfs"@]);
    } else {
        assert(said + Seq::<Seq<char>>::empty() =~= said);
    }
    Styles {
        xfs: read_numbers(root),
        custom,
        year1904,
        notes,
        xf_rows,
        font_rows,
        fill_rows,
        border_rows,
        ledger: Some(ledger),
    }
}

/// Every place that has a format number has an entry, and every entry a format number.
pub proof fn law_each_entry_has_a_number(s: Styles, book: Option<Node>, styles: Option<Node>)
    requires
        s.describes(book, styles),
    ensures
        s.xfs@.len() == s.xf_rows@.len(),
{
}

/// A place without an entry has the general format, unless the file gives that number a code of
/// its own.
pub proof fn law_a_place_without_an_entry_is_general(s: Styles, style: int)
    requires
        style >= s.xfs@.len(),
        !s.custom@.contains_key(0),
    ensures
        s.number_at(style) == 0,
        s.code_at(style) == Some("General"@),
{
}

/// A number without a code is of an unknown kind, never of the general one, and shows no date.
pub proof fn law_unlisted_numbers_are_unknown(s: Styles, style: int)
    requires
        s.code_at(style) is None,
    ensures
        judged_code(s.code_at(style)) == Kind::Unknown,
        !judged_code(s.code_at(style)).temporal(),
{
}

/// A cell that writes that it holds text, in any of the three ways a cell can, is of the kind
/// text, and one that writes that it holds a truth value is of the kind bool, whatever its format
/// is. Every other cell is of the kind of its format, so only what a cell writes makes it text.
pub proof fn law_text_cells_are_text(
    s: &Styles,
    style: usize,
    serial: Option<(i64, i64)>,
    cell_type: &str,
    r: CellFormat,
)
    requires
        call_ensures(Styles::cell_format, (s, style, serial, cell_type), r),
    ensures
        cell_type@ == seq!['s'] ==> r.format_kind@ == "text"@,
        cell_type@ == seq!['s', 't', 'r'] ==> r.format_kind@ == "text"@,
        cell_type@ == seq!['i', 'n', 'l', 'i', 'n', 'e', 'S', 't', 'r'] ==> r.format_kind@
            == "text"@,
        cell_type@ == seq!['b'] ==> r.format_kind@ == "bool"@,
        r.format_kind@ == "text"@ ==> cell_type@ == seq!['s'] || cell_type@ == seq!['s', 't', 'r']
            || cell_type@ == seq!['i', 'n', 'l', 'i', 'n', 'e', 'S', 't', 'r'],
{
    reveal_strlit("s");
    reveal_strlit("str");
    reveal_strlit("inlineStr");
    reveal_strlit("b");
    assert("s"@ =~= seq!['s']);
    assert("str"@ =~= seq!['s', 't', 'r']);
    assert("inlineStr"@ =~= seq!['i', 'n', 'l', 'i', 'n', 'e', 'S', 't', 'r']);
    assert("b"@ =~= seq!['b']);
    assert(seq!['b'][0] != seq!['s'][0] && seq!['s', 't', 'r'].len() == 3);
    assert(seq!['i', 'n', 'l', 'i', 'n', 'e', 'S', 't', 'r'].len() == 9);
    lemma_kind_words(judged_code(s.code_at(style as int)));
}

/// No kind of format is called text or bool.
proof fn lemma_kind_words(k: Kind)
    ensures
        k.name() != "text"@,
        k.name() != "bool"@,
        "text"@ != "bool"@,
{
    reveal_strlit("text");
    reveal_strlit("bool");
    reveal_strlit("general");
    reveal_strlit("number");
    reveal_strlit("percent");
    reveal_strlit("currency");
    reveal_strlit("date");
    reveal_strlit("datetime");
    reveal_strlit("time");
    reveal_strlit("unknown");
    assert("text"@.len() == 4 && "bool"@.len() == 4 && "date"@.len() == 4 && "time"@.len() == 4);
    assert("text"@[1] == 'e' && "bool"@[1] == 'o' && "date"@[1] == 'a' && "time"@[1] == 'i');
    assert("general"@.len() == 7 && "number"@.len() == 6 && "percent"@.len() == 7
        && "currency"@.len() == 8 && "datetime"@.len() == 8 && "unknown"@.len() == 7);
}

/// The format number of a place is the one that its entry writes, nought where the entry writes none
/// or there is no entry. The file's own code for a number comes before the built-in one.
pub proof fn law_a_place_leads_to_its_number(s: Styles, style: int, id: u64)
    ensures
        0 <= style < s.xfs@.len() ==> s.number_at(style) == s.xfs@[style],
        style >= s.xfs@.len() ==> s.number_at(style) == 0,
        s.custom@.contains_key(s.number_at(style)) ==> s.code_at(style) == Some(
            s.custom@[s.number_at(style)]@,
        ),
        !s.custom@.contains_key(s.number_at(style)) ==> s.code_at(style) == builtin(
            s.number_at(style),
        ),
{
}

/// A cell has a date exactly where its format shows a day or a time, and a text for it exactly where
/// it has a number besides. The text is that of the day and the seconds on the basis of the workbook.
pub proof fn law_which_cells_have_a_date(
    s: &Styles,
    style: usize,
    serial: Option<(i64, i64)>,
    cell_type: &str,
    r: CellFormat,
)
    requires
        call_ensures(Styles::cell_format, (s, style, serial, cell_type), r),
    ensures
        r.style == style,
        r.num_fmt == s.number_at(style as int),
        text_in(r.format) == s.code_at(style as int),
        ({
            let kind = judged_code(s.code_at(style as int));
            &&& !(kind == Kind::Date || kind == Kind::Datetime || kind == Kind::Time)
                ==> r.as_date is None
            &&& kind == Kind::Date || kind == Kind::Datetime || kind == Kind::Time
                ==> r.as_date is Some
            &&& r.as_date is Some && serial is None ==> r.as_date->0 is None
            &&& r.as_date is Some ==> match serial {
                Some((days, seconds)) => r.as_date->0 is Some && dated(
                    r.as_date->0->0@,
                    days as int,
                    seconds as int,
                    s.year1904,
                ),
                None => true,
            }
            &&& cell_type@.len() == 0 || cell_type@ == seq!['n'] || cell_type@ == seq!['d']
                ==> r.format_kind@ == kind.name()
        }),
{
    reveal_strlit("s");
    reveal_strlit("str");
    reveal_strlit("inlineStr");
    reveal_strlit("b");
    assert("s"@.len() == 1 && "s"@[0] == 's');
    assert("b"@.len() == 1 && "b"@[0] == 'b');
    assert("str"@.len() == 3 && "inlineStr"@.len() == 9);
    assert(seq!['n'][0] == 'n' && seq!['d'][0] == 'd');
}

/// The day that never was is given as the file has it; every other serial day is the day that lies as
/// many days behind the basis.
pub proof fn law_what_date_a_serial_day_is(text: Seq<char>, days: int, seconds: int, year1904: bool)
    requires
        dated(text, days, seconds, year1904),
    ensures
        !year1904 && days == 60 ==> text == "1900-02-29"@,
        year1904 || days != 60 ==> exists|y: int, m: int, d: int|
            valid_date(y, m, d) && #[trigger] day_number(y, m, d) == (if year1904 {
                days + day_number(1904, 1, 1)
            } else if days < 60 {
                days - 1 + day_number(1900, 1, 1)
            } else {
                days - 61 + day_number(1900, 3, 1)
            }) && text == iso_of(y, m, d, seconds),
{
    super::law_serial_days_are_counted_from_their_basis(days, year1904);
    if year1904 || days != 60 {
        let (y, m, d) = choose|y: int, m: int, d: int|
            valid_date(y, m, d) && #[trigger] day_number(y, m, d) == serial_day(days, year1904)
                && text == iso_of(y, m, d, seconds);
        assert(day_number(y, m, d) == serial_day(days, year1904));
    }
}

/// Days count from 1904 exactly where the first element with the properties of the workbook says so
/// with one, `true` or `on`, in letters of either size.
pub proof fn law_the_workbook_says_from_when_days_count(book: Node, n: Node)
    requires
        first_below(book, "workbookPr"@) == Some(n),
    ensures
        n.attr_text("date1904"@) is None ==> !from_1904(book),
        n.attr_text("date1904"@) == Some("1"@) ==> from_1904(book),
        n.attr_text("date1904"@) == Some("true"@) ==> from_1904(book),
        n.attr_text("date1904"@) == Some("on"@) ==> from_1904(book),
        n.attr_text("date1904"@) == Some("0"@) ==> !from_1904(book),
        n.attr_text("date1904"@) == Some("false"@) ==> !from_1904(book),
{
    lemma_small_words();
}

proof fn lemma_small_words()
    ensures
        lowered(trimmed("1"@)) == "1"@,
        lowered(trimmed("0"@)) == "0"@,
        lowered(trimmed("true"@)) == "true"@,
        lowered(trimmed("false"@)) == "false"@,
        lowered(trimmed("on"@)) == "on"@,
        lowered(trimmed("none"@)) == "none"@,
        "1"@ != "0"@,
        "true"@.len() == 4,
        "none"@.len() == 4,
        "true"@ != "none"@,
        "false"@.len() == 5,
        "on"@.len() == 2,
        "1"@.len() == 1,
        "0"@.len() == 1,
{
    reveal_strlit("1");
    reveal_strlit("0");
    reveal_strlit("true");
    reveal_strlit("false");
    reveal_strlit("on");
    reveal_strlit("none");
    crate::words::law_trimmed_text_has_no_blanks_around_it("1"@);
    crate::words::law_trimmed_text_has_no_blanks_around_it("0"@);
    crate::words::law_trimmed_text_has_no_blanks_around_it("true"@);
    crate::words::law_trimmed_text_has_no_blanks_around_it("false"@);
    crate::words::law_trimmed_text_has_no_blanks_around_it("on"@);
    crate::words::law_trimmed_text_has_no_blanks_around_it("none"@);
    assert("1"@[0] == '1' && "0"@[0] == '0');
    assert("true"@[0] == 't' && "true"@[3] == 'e');
    assert("false"@[0] == 'f' && "false"@[4] == 'e');
    assert("on"@[0] == 'o' && "on"@[1] == 'n');
    assert("none"@[0] == 'n' && "none"@[3] == 'e');
    assert(lowered("1"@) =~= "1"@);
    assert(lowered("0"@) =~= "0"@);
    assert(lowered("true"@) =~= "true"@);
    assert(lowered("false"@) =~= "false"@);
    assert(lowered("on"@) =~= "on"@);
    assert(lowered("none"@) =~= "none"@);
}

/// A switch is off where it says nought, `false` or `none`, and on where it says anything else or
/// nothing. An attribute that says nothing switches nothing on.
pub proof fn law_what_switches_say(row: Row, name: Seq<char>)
    ensures
        off("0"@),
        off("false"@),
        off("none"@),
        !off("1"@),
        !off("true"@),
        flag(None, name) is None,
        row.part_of(name) is None ==> flag(Some(row), name) is None,
        row.part_of(name) is Some && entry_of(row.part_of(name)->0, "val"@) is None ==> flag(
            Some(row),
            name,
        ) == Some(true),
        row.part_of(name) is Some && entry_of(row.part_of(name)->0, "val"@) == Some("0"@) ==> flag(
            Some(row),
            name,
        ) == Some(false),
        row.part_of(name) is Some && entry_of(row.part_of(name)->0, "val"@) == Some("1"@) ==> flag(
            Some(row),
            name,
        ) == Some(true),
        switched(None) is None,
        switched(Some("1"@)) == Some(true),
        switched(Some("true"@)) == Some(true),
        switched(Some("0"@)) == Some(false),
        switched(Some(Seq::empty())) == Some(false),
{
    lemma_small_words();
    crate::words::law_trimmed_text_has_no_blanks_around_it("1"@);
    crate::words::law_trimmed_text_has_no_blanks_around_it("true"@);
    reveal_strlit("1");
    reveal_strlit("true");
    assert("1"@[0] == '1' && "true"@[0] == 't' && "true"@[3] == 'e');
    crate::words::law_trimmed_text_has_no_blanks_around_it(Seq::<char>::empty());
}

/// What a cell looks like: its font, its fill and its border are those at the places that its entry
/// names, counted from nought; it is bold where its font switches `b` on, filled where its fill has a
/// pattern other than none, and wrapped where its alignment says so.
pub proof fn law_what_a_cell_looks_like(
    s: &Styles,
    style: usize,
    r: Appearance<'_>,
    row: Row,
    n: nat,
)
    requires
        call_ensures(Styles::appearance, (s, style), r),
        style < s.xf_rows@.len(),
        row == s.xf_rows@[style as int],
        n <= usize::MAX,
    ensures
        r.found,
        pairs_in(r.attrs) == Some(pair_texts(row.attrs@)),
        slice_in(r.font_id) == entry_of(pair_texts(row.attrs@), "fontId"@),
        slice_in(r.fill_id) == entry_of(pair_texts(row.attrs@), "fillId"@),
        slice_in(r.border_id) == entry_of(pair_texts(row.attrs@), "borderId"@),
        entry_of(pair_texts(row.attrs@), "fontId"@) == Some(dec(n)) && n < s.font_rows@.len()
            ==> row_in(r.font) == Some(s.font_rows@[n as int]),
        entry_of(pair_texts(row.attrs@), "fillId"@) == Some(dec(n)) && n < s.fill_rows@.len()
            ==> row_in(r.fill) == Some(s.fill_rows@[n as int]),
        entry_of(pair_texts(row.attrs@), "borderId"@) == Some(dec(n)) && n < s.border_rows@.len()
            ==> row_in(r.border) == Some(s.border_rows@[n as int]),
        pairs_in(r.alignment) == row.part_of("alignment"@),
        r.bold == flag(row_in(r.font), "b"@),
        r.filled == filled(row_in(r.fill)),
        row.part_of("alignment"@) is None ==> r.wrapped is None,
        row.part_of("alignment"@) is Some ==> r.wrapped == switched(
            entry_of(row.part_of("alignment"@)->0, "wrapText"@),
        ),
{
    crate::words::law_a_written_number_reads_back(n, usize::MAX as int);
    crate::text::law_dec_tells_numbers_apart(n, n);
    crate::words::law_trimmed_text_has_no_blanks_around_it(dec(n));
    let d = dec(n);
    assert('0' <= d[0] <= '9' && '0' <= d[d.len() - 1] <= '9');
}

/// A place without an entry looks like nothing.
pub proof fn law_a_place_without_an_entry_looks_like_nothing(
    s: &Styles,
    style: usize,
    r: Appearance<'_>,
)
    requires
        call_ensures(Styles::appearance, (s, style), r),
        style >= s.xf_rows@.len(),
    ensures
        !r.found && r.bold is None && r.filled is None && r.wrapped is None && r.font is None
            && r.fill is None && r.border is None && r.alignment is None && r.attrs is None,
{
}

/// A fill is filled where its pattern is of another kind than none, and not where it states none.
pub proof fn law_which_fills_are_filled(row: Row)
    ensures
        filled(None) is None,
        row.part_of("patternFill"@) is None ==> filled(Some(row)) is None,
        row.part_of("patternFill"@) is Some ==> {
            let t = entry_of(row.part_of("patternFill"@)->0, "patternType"@);
            &&& t is None ==> filled(Some(row)) == Some(false)
            &&& t == Some("none"@) ==> filled(Some(row)) == Some(false)
            &&& t == Some("solid"@) ==> filled(Some(row)) == Some(true)
            &&& t == Some("gray125"@) ==> filled(Some(row)) == Some(true)
        },
{
    reveal_strlit("none");
    reveal_strlit("solid");
    reveal_strlit("gray125");
    assert("none"@.len() == 4 && "solid"@.len() == 5 && "gray125"@.len() == 7);
}

/// Which lists the formats of a workbook are read from: the codes from all elements `numFmt`, and the
/// entries from the first list of each kind.
pub proof fn law_where_the_formats_stand(s: Styles, book: Node, root: Node, i: int, id: nat)
    requires
        s.describes(Some(book), Some(root)),
    ensures
        first_below(root, "cellXfs"@) matches Some(l) ==> {
            &&& s.xfs@.len() == l.all_of("xf"@).len()
            &&& s.xf_rows@.len() == l.all_of("xf"@).len()
            &&& 0 <= i < s.xfs@.len() && l.all_of("xf"@)[i].attr_text("numFmtId"@) == Some(dec(id))
                && id <= u64::MAX ==> s.xfs@[i] == id
            &&& 0 <= i < s.xfs@.len() && l.all_of("xf"@)[i].attr_text("numFmtId"@) is None
                ==> s.xfs@[i] == 0
        },
        first_below(root, "cellXfs"@) is None ==> s.xfs@.len() == 0,
        first_below(root, "fonts"@) matches Some(l) ==> s.font_rows@.len() == l.all_of(
            "font"@,
        ).len(),
        first_below(root, "fills"@) matches Some(l) ==> s.fill_rows@.len() == l.all_of(
            "fill"@,
        ).len(),
        first_below(root, "borders"@) matches Some(l) ==> s.border_rows@.len() == l.all_of(
            "border"@,
        ).len(),
        s.year1904 == from_1904(book),
{
    crate::words::law_a_written_number_reads_back(id, u64::MAX as int);
    crate::text::law_dec_tells_numbers_apart(id, id);
    crate::words::law_trimmed_text_has_no_blanks_around_it(dec(id));
    let d = dec(id);
    assert('0' <= d[0] <= '9' && '0' <= d[d.len() - 1] <= '9');
}

/// The code of a number is what the last element with that number writes.
pub proof fn law_the_last_code_counts(s: Seq<Node>, i: int, n: int, id: nat)
    requires
        0 <= i < n <= s.len(),
        id <= u64::MAX,
        s[i].attr_text("numFmtId"@) == Some(dec(id)),
        forall|j: int|
            i < j < n ==> number_said(#[trigger] s[j], "numFmtId"@) != Some(id as int),
    ensures
        codes_upto(s, n).contains_key(id as u64),
        s[i].attr_text("formatCode"@) is Some ==> codes_upto(s, n)[id as u64] == s[i].attr_text(
            "formatCode"@,
        )->0,
        s[i].attr_text("formatCode"@) is None ==> codes_upto(s, n)[id as u64].len() == 0,
    decreases n,
{
    crate::words::law_a_written_number_reads_back(id, u64::MAX as int);
    crate::text::law_dec_tells_numbers_apart(id, id);
    crate::words::law_trimmed_text_has_no_blanks_around_it(dec(id));
    let d = dec(id);
    assert('0' <= d[0] <= '9' && '0' <= d[d.len() - 1] <= '9');
    if i < n - 1 {
        law_the_last_code_counts(s, i, n - 1, id);
        if let Some(raw) = s[n - 1].attr_text("numFmtId"@) {
            crate::words::law_numbers_keep_their_range(trimmed(raw), u64::MAX as int);
        }
        assert(number_said(s[n - 1], "numFmtId"@) != Some(id as int));
    }
}

/// What a list says of its length in `count` is held against how many entries it has. It is whole
/// where it says nothing or says as many.
pub proof fn law_how_a_list_is_counted(
    l: Ledger,
    root: Node,
    fonts: Node,
    base: Node,
    cells: Node,
    n: nat,
)
    requires
        l.describes(root),
        first_below(root, "fonts"@) == Some(fonts),
        first_below(root, "cellStyleXfs"@) == Some(base),
        first_below(root, "cellXfs"@) == Some(cells),
        n <= usize::MAX,
    ensures
        l.fonts.found == fonts.all_of("font"@).len(),
        text_in(l.fonts.written) == fonts.attr_text("count"@),
        fonts.attr_text("count"@) is None ==> l.fonts.whole,
        fonts.attr_text("count"@) == Some(dec(n)) ==> (l.fonts.whole <==> n == fonts.all_of(
            "font"@,
        ).len()),
        l.cell_style_xfs.found == base.all_of("xf"@).len(),
        text_in(l.cell_style_xfs.written) == base.attr_text("count"@),
        base.attr_text("count"@) is None ==> l.cell_style_xfs.whole,
        base.attr_text("count"@) == Some(dec(n)) ==> (l.cell_style_xfs.whole <==> n == base.all_of(
            "xf"@,
        ).len()),
        l.cell_xfs.found == cells.all_of("xf"@).len(),
        text_in(l.cell_xfs.written) == cells.attr_text("count"@),
{
    crate::words::law_a_written_number_reads_back(n, usize::MAX as int);
    crate::text::law_dec_tells_numbers_apart(n, n);
    crate::words::law_trimmed_text_has_no_blanks_around_it(dec(n));
    let d = dec(n);
    assert('0' <= d[0] <= '9' && '0' <= d[d.len() - 1] <= '9');
}

/// An entry is told with its attributes and with its elements, in order; the stretches of text
/// between them, which are called `#text`, are left out.
pub proof fn law_what_an_entry_is_told_with(r: Row, n: Node, q: spec_fn(Node) -> bool, i: int)
    requires
        r.describes(n),
        forall|c: Node| #[trigger] q(c) == (c.local_name() != "#text"@),
    ensures
        pair_texts(r.attrs@) == merged(pair_texts(n.attrs@)),
        r.parts@.len() == n.children@.filter(q).len(),
        0 <= i < r.parts@.len() ==> {
            &&& r.parts@[i].element@ == n.children@.filter(q)[i].name@
            &&& pair_texts(r.parts@[i].attrs@) == merged(
                pair_texts(n.children@.filter(q)[i].attrs@),
            )
        },
{
    let a = |c: Node| c.local_name() != "#text"@;
    assert(a =~= q);
    if 0 <= i < r.parts@.len() {
        assert(r.parts@[i].describes(n.children@.filter(q)[i]));
    }
}

/// The code of a number is looked for in all elements `numFmt` of the styles, and one of them
/// without a number is remarked on.
pub proof fn law_where_codes_are_looked_for(s: Styles, book: Node, root: Node)
    requires
        s.describes(Some(book), Some(root)),
    ensures
        ({
            let all = root.below("numFmt"@);
            &&& text_map(s.custom@) == codes_upto(all, all.len() as int)
            &&& first_below(root, "cellXfs"@) is Some ==> texts(s.notes@) == unnumbered(
                all,
                all.len() as int,
            )
            &&& first_below(root, "cellXfs"@) is None ==> texts(s.notes@) == unnumbered(
                all,
                all.len() as int,
            ).push("styles.xml 里没有 cellXfs"@)
        }),
{
    let had = unnumbered(root.below("numFmt"@), root.below("numFmt"@).len() as int);
    assert(had + Seq::<Seq<char>>::empty() =~= had);
    assert(had + seq!["styles.xml 里没有 cellXfs"@] =~= had.push("styles.xml 里没有 cellXfs"@));
}

/// Without the workbook or without the styles there are no formats, days count from 1900 unless the
/// workbook says otherwise, and the part that is missing is named.
pub proof fn law_what_is_left_without_a_part(a: Styles, b: Styles, book: Node, root: Option<Node>)
    requires
        a.describes(None, root),
        b.describes(Some(book), None),
    ensures
        !a.year1904,
        a.xfs@.len() == 0,
        a.custom@.len() == 0,
        texts(a.notes@) == seq!["包里读不到 xl/workbook.xml"@],
        b.year1904 == from_1904(book),
        b.xfs@.len() == 0,
        b.custom@.len() == 0,
        texts(b.notes@) == seq!["包里读不到 xl/styles.xml（所有格子按 General 算）"@],
{
}

/// The lists of fills and borders are counted as that of the fonts is.
pub proof fn law_how_fills_and_borders_are_counted(
    l: Ledger,
    root: Node,
    fills: Node,
    borders: Node,
    n: nat,
)
    requires
        l.describes(root),
        first_below(root, "fills"@) == Some(fills),
        first_below(root, "borders"@) == Some(borders),
        n <= usize::MAX,
    ensures
        l.fills.found == fills.all_of("fill"@).len(),
        text_in(l.fills.written) == fills.attr_text("count"@),
        fills.attr_text("count"@) == Some(dec(n)) ==> (l.fills.whole <==> n == fills.all_of(
            "fill"@,
        ).len()),
        l.borders.found == borders.all_of("border"@).len(),
        text_in(l.borders.written) == borders.attr_text("count"@),
        borders.attr_text("count"@) == Some(dec(n)) ==> (l.borders.whole <==> n == borders.all_of(
            "border"@,
        ).len()),
{
    crate::words::law_a_written_number_reads_back(n, usize::MAX as int);
    crate::text::law_dec_tells_numbers_apart(n, n);
    crate::words::law_trimmed_text_has_no_blanks_around_it(dec(n));
    let d = dec(n);
    assert('0' <= d[0] <= '9' && '0' <= d[d.len() - 1] <= '9');
}

} // verus!
