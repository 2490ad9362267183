//! Which languages a document says it is written in.
//!
//! A WordprocessingML document gives up to three languages at once, one for each kind of script,
//! on four levels. An OpenDocument text gives one language and one country. Neither is turned
//! into the other, and a default of a template is no language of the text.

use crate::lists::{at_most, cut, each, ints, lemma_those, pick_those, those};
use crate::note_settings::{says_of, sorts};
use crate::odf::Part;
use crate::order::sort_texts;
use crate::text::{same, texts};
use crate::written::{
    attr_map, below_in, count_nodes, find_below, find_in, first_below, go, look_up, map_if,
    node_in, once_each, owned, pick_nodes, pick_once, step, table_in, table_if, text_in,
};
use crate::xml::{local_of, local_part, nodes, Node};
use vstd::prelude::*;

verus! {

broadcast use {
    crate::text::lemma_texts_push,
    crate::text::lemma_pair_texts_push,
    crate::xml::lemma_nodes_push,
};

/// The first language element below a node that may not be there.
pub open spec fn lang_in(n: Option<Node>) -> Option<Node> {
    match n {
        Some(x) => first_below(x, "lang"@),
        None => None,
    }
}

fn first_lang<'a>(n: Option<&'a Node>) -> (r: Option<&'a Node>)
    ensures
        node_in(r) == lang_in(node_in(n)),
{
    match n {
        Some(x) => find_below(x, "lang"),
        None => None,
    }
}

/// The last attribute with that local name among the first `n`.
pub open spec fn last_said(a: Seq<(String, String)>, want: Seq<char>, n: int) -> Option<Seq<char>>
    decreases n,
{
    if n <= 0 {
        None
    } else if local_part(a[n - 1].0@) == want {
        Some(a[n - 1].1@)
    } else {
        last_said(a, want, n - 1)
    }
}

fn ask_last(node: &Node, want: &str) -> (r: Option<String>)
    ensures
        text_in(r) == last_said(node.attrs@, want@, node.attrs@.len() as int),
{
    let mut n: usize = node.attrs.len();
    while n > 0
        invariant
            n <= node.attrs@.len(),
            last_said(node.attrs@, want@, node.attrs@.len() as int) == last_said(
                node.attrs@,
                want@,
                n as int,
            ),
        decreases n,
    {
        if same(local_of(node.attrs[n - 1].0.as_str()), want) {
            return Some(node.attrs[n - 1].1.clone());
        }
        n -= 1;
    }
    None
}

/// The root of the styles, whatever holds it.
pub open spec fn sheet_of(part: Option<Node>) -> Option<Node> {
    match part {
        Some(p) => match p.child_of("styles"@) {
            Some(s) => Some(s),
            None => Some(p),
        },
        None => None,
    }
}

fn find_sheet<'a>(part: Option<&'a Node>) -> (r: Option<&'a Node>)
    ensures
        node_in(r) == sheet_of(node_in(part)),
{
    match part {
        Some(p) => match p.child("styles") {
            Some(s) => Some(s),
            None => Some(p),
        },
        None => None,
    }
}

/// The levels on which a language can be given, below the defaults.
#[derive(Debug, Clone, Copy, PartialEq, Eq, Structural)]
pub enum Level {
    Style,
    Paragraph,
    Run,
}

/// The language of a style, a paragraph or a run. That of a paragraph or a run stands right in
/// its own properties: what a recorded change of them says is no language of the text.
pub open spec fn lang_at(n: Node, level: Level) -> Option<Node> {
    match level {
        Level::Style => lang_in(n.child_of("rPr"@)),
        Level::Paragraph => step(step(n.child_of("pPr"@), "rPr"@), "lang"@),
        Level::Run => step(n.child_of("rPr"@), "lang"@),
    }
}

fn find_lang<'a>(n: &'a Node, level: Level) -> (r: Option<&'a Node>)
    ensures
        node_in(r) == lang_at(*n, level),
{
    match level {
        Level::Style => first_lang(n.child("rPr")),
        Level::Paragraph => go(go(n.child("pPr"), "rPr"), "lang"),
        Level::Run => go(n.child("rPr"), "lang"),
    }
}

/// Which of the nodes give a language.
pub open spec fn speaking(c: Seq<Node>, level: Level) -> Seq<int> {
    those(|i: int| lang_at(c[i], level) is Some, c.len() as int)
}

/// A style, a paragraph or a run that gives a language.
#[derive(Debug, Clone)]
pub struct LangRow {
    /// Which paragraph or run; for a style, which of the styles.
    pub index: usize,
    pub style_id: Option<String>,
    pub style_type: Option<String>,
    pub attrs: Option<Vec<(String, String)>>,
}

impl LangRow {
    pub open spec fn describes(self, c: Seq<Node>, i: int, level: Level) -> bool {
        &&& self.index == i
        &&& text_in(self.style_id) == last_said(c[i].attrs@, "styleId"@, c[i].attrs@.len() as int)
        &&& text_in(self.style_type) == last_said(c[i].attrs@, "type"@, c[i].attrs@.len() as int)
        &&& table_in(self.attrs) == table_if(lang_at(c[i], level))
        &&& self.attrs is Some
    }
}

/// The rows of a level.
#[derive(Debug, Clone)]
pub struct LangRows {
    pub with_lang: usize,
    pub list: Vec<LangRow>,
}

impl LangRows {
    pub open spec fn describes(self, c: Seq<Node>, level: Level, limit: usize) -> bool {
        let which = speaking(c, level);
        &&& self.with_lang == which.len()
        &&& self.list@.len() == at_most(which.len(), limit)
        &&& forall|i: int|
            0 <= i < self.list@.len() ==> (#[trigger] self.list@[i]).describes(c, which[i], level)
    }
}

fn read_rows(v: &Vec<&Node>, level: Level, limit: usize) -> (r: LangRows)
    ensures
        r.describes(nodes(v@), level, limit),
{
    let ghost c = nodes(v@);
    let ghost q = |i: int| lang_at(c[i], level) is Some;
    let n: usize = v.len();
    assert(c.len() == n);
    let which: Vec<usize> = pick_those(
        n,
        |i: usize| -> (b: bool)
            requires
                i < v@.len()
            ensures
                b == (lang_at(c[i as int], level) is Some)
            { find_lang(v[i], level).is_some() },
        Ghost(q),
    );
    assert(ints(which@).len() == which@.len());
    proof {
        lemma_those(q, n as int);
    }
    assert forall|k: int| 0 <= k < which@.len() implies lang_at(
        c[#[trigger] which@[k] as int],
        level,
    ) is Some by {
        assert(ints(which@)[k] == which@[k] as int);
    }
    let list: Vec<LangRow> = each(
        &which,
        cut(which.len(), limit),
        |at: usize, i: &usize| -> (r: LangRow)
            requires
                *i < v@.len(),
                lang_at(c[*i as int], level) is Some
            ensures
                r.describes(c, *i as int, level)
            {
                LangRow {
                    index: *i,
                    style_id: ask_last(v[*i], "styleId"),
                    style_type: ask_last(v[*i], "type"),
                    attrs: map_if(find_lang(v[*i], level)),
                }
            },
    );
    assert forall|k: int| 0 <= k < list@.len() implies (#[trigger] list@[k]).describes(
        c,
        speaking(c, level)[k],
        level,
    ) by {
        assert(ints(which@)[k] == which@[k] as int);
    }
    LangRows { with_lang: which.len(), list }
}

/// What nodes say under a name, of those that say it.
pub open spec fn said_by_all(c: Seq<Node>, name: Seq<char>, n: int) -> Seq<Seq<char>>
    decreases n,
{
    if n <= 0 {
        Seq::empty()
    } else {
        match says_of(c[n - 1], name) {
            Some(t) => said_by_all(c, name, n - 1).push(t),
            None => said_by_all(c, name, n - 1),
        }
    }
}

/// What nodes say under a name, each once.
pub open spec fn distinct(c: Seq<Node>, name: Seq<char>) -> Seq<Seq<char>> {
    let all = said_by_all(c, name, c.len() as int);
    once_each(all, all.len() as int)
}

fn read_distinct(v: &Vec<&Node>, name: &str) -> (r: Vec<String>)
    ensures
        texts(r@) == distinct(nodes(v@), name@),
{
    let ghost c = nodes(v@);
    let mut out: Vec<String> = Vec::new();
    let mut i: usize = 0;
    assert(texts(out@) =~= said_by_all(c, name@, 0));
    while i < v.len()
        invariant
            i <= v@.len(),
            c == nodes(v@),
            texts(out@) == said_by_all(c, name@, i as int),
        decreases v@.len() - i,
    {
        assert(c[i as int] == *v@[i as int]);
        let t: Vec<(String, String)> = attr_map(v[i]);
        if let Some(raw) = look_up(&t, name) {
            out.push(raw.to_owned());
        }
        i += 1;
    }
    assert(texts(out@).len() == out@.len());
    pick_once(&out)
}

/// The languages of a document.
#[derive(Debug, Clone)]
pub struct LangReport {
    pub in_document: usize,
    pub in_styles: usize,
    pub doc_defaults: Option<Vec<(String, String)>>,
    pub styles: LangRows,
    pub paragraphs: LangRows,
    pub runs: LangRows,
    pub distinct_vals: Vec<String>,
    pub distinct_east_asia: Vec<String>,
    pub distinct_bidi: Vec<String>,
}

/// The paragraphs that stand directly in the body.
pub open spec fn body_paragraphs(document: Node) -> Seq<Node> {
    match document.child_of("body"@) {
        Some(b) => b.all_of("p"@),
        None => Seq::empty(),
    }
}

/// The default of the document.
pub open spec fn default_lang(sheet: Option<Node>) -> Option<Node> {
    match sheet {
        Some(s) => lang_in(first_below(s, "docDefaults"@)),
        None => None,
    }
}

impl LangReport {
    pub open spec fn describes(self, document: Node, part: Option<Node>, limit: usize) -> bool {
        let sheet = sheet_of(part);
        let here = document.below("lang"@);
        let there = below_in(sheet, "lang"@);
        &&& self.in_document == here.len()
        &&& self.in_styles == there.len()
        &&& table_in(self.doc_defaults) == table_if(default_lang(sheet))
        &&& self.styles.describes(below_in(sheet, "style"@), Level::Style, limit)
        &&& self.paragraphs.describes(body_paragraphs(document), Level::Paragraph, limit)
        &&& self.runs.describes(below_in(document.child_of("body"@), "r"@), Level::Run, limit)
        &&& texts(self.distinct_vals@) == distinct(here + there, "val"@)
        &&& texts(self.distinct_east_asia@) == distinct(here + there, "eastAsia"@)
        &&& texts(self.distinct_bidi@) == distinct(here + there, "bidi"@)
    }
}

/// The languages of a document, from its document element and the part with the styles. Lists are
/// cut to `limit`.
pub fn docx(document: &Node, styles: Option<&Node>, limit: usize) -> (r: LangReport)
    ensures
        r.describes(*document, node_in(styles), limit),
{
    let sheet: Option<&Node> = find_sheet(styles);
    let mut langs: Vec<&Node> = document.descendants("lang");
    let mut more: Vec<&Node> = find_in(sheet, "lang");
    let in_document: usize = langs.len();
    let in_styles: usize = more.len();
    let ghost here = nodes(langs@);
    let ghost there = nodes(more@);
    assert(here.len() == in_document);
    langs.append(&mut more);
    assert(nodes(langs@) =~= here + there);
    let defaults: Option<&Node> = match sheet {
        Some(s) => first_lang(find_below(s, "docDefaults")),
        None => None,
    };
    let body: Option<&Node> = document.child("body");
    let ps: Vec<&Node> = match body {
        Some(b) => b.all("p"),
        None => Vec::new(),
    };
    assert(nodes(ps@) =~= body_paragraphs(*document));
    LangReport {
        in_document,
        in_styles,
        doc_defaults: map_if(defaults),
        styles: read_rows(&find_in(sheet, "style"), Level::Style, limit),
        paragraphs: read_rows(&ps, Level::Paragraph, limit),
        runs: read_rows(&find_in(body, "r"), Level::Run, limit),
        distinct_vals: read_distinct(&langs, "val"),
        distinct_east_asia: read_distinct(&langs, "eastAsia"),
        distinct_bidi: read_distinct(&langs, "bidi"),
    }
}

/// The element gives a language, a country or a script.
pub open spec fn gives(n: Node) -> bool {
    says_of(n, "language"@) is Some || says_of(n, "country"@) is Some || says_of(
        n,
        "script"@,
    ) is Some
}

fn pick_lang(n: &Node) -> (r: bool)
    ensures
        r == gives(*n),
{
    let t: Vec<(String, String)> = attr_map(n);
    look_up(&t, "language").is_some() || look_up(&t, "country").is_some() || look_up(
        &t,
        "script",
    ).is_some()
}

/// Text properties and the style that holds them.
pub struct Entry {
    pub props: Node,
    pub holder: Node,
    pub part: Part,
}

/// The text properties of a style that give a language.
pub open spec fn giving(holder: Node) -> Seq<Node> {
    holder.all_of("text-properties"@).filter(|n: Node| gives(n))
}

/// The entries of the first `n` holders.
pub open spec fn entries_upto(h: Seq<Node>, part: Part, n: int) -> Seq<Entry>
    decreases n,
{
    if n <= 0 {
        Seq::empty()
    } else {
        let own = giving(h[n - 1]);
        entries_upto(h, part, n - 1) + Seq::new(
            own.len(),
            |k: int| Entry { props: own[k], holder: h[n - 1], part },
        )
    }
}

/// The entries of a part: styles, then defaults.
pub open spec fn entries_of(root: Node, part: Part) -> Seq<Entry> {
    let a = root.below("style"@);
    let b = root.below("default-style"@);
    entries_upto(a, part, a.len() as int) + entries_upto(b, part, b.len() as int)
}

/// The entries of both parts.
pub open spec fn entries_in(content: Node, styles: Option<Node>) -> Seq<Entry> {
    entries_of(content, Part::Content) + match styles {
        Some(s) => entries_of(s, Part::Styles),
        None => Seq::empty(),
    }
}

struct Found<'a> {
    props: &'a Node,
    holder: &'a Node,
    part: Part,
}

impl Found<'_> {
    spec fn entry(self) -> Entry {
        Entry { props: *self.props, holder: *self.holder, part: self.part }
    }
}

spec fn found(v: Seq<Found>) -> Seq<Entry> {
    Seq::new(v.len(), |i: int| v[i].entry())
}

fn add_entries<'a>(holders: &Vec<&'a Node>, part: Part, out: &mut Vec<Found<'a>>)
    ensures
        found(final(out)@) == found(old(out)@) + entries_upto(
            nodes(holders@),
            part,
            holders@.len() as int,
        ),
{
    let ghost h = nodes(holders@);
    let ghost start = found(out@);
    let mut i: usize = 0;
    assert(start + entries_upto(h, part, 0) =~= start);
    while i < holders.len()
        invariant
            i <= holders@.len(),
            h == nodes(holders@),
            found(out@) == start + entries_upto(h, part, i as int),
        decreases holders@.len() - i,
    {
        let holder: &'a Node = holders[i];
        assert(h[i as int] == *holder);
        let kids: Vec<&'a Node> = holder.all("text-properties");
        let own: Vec<&'a Node> = pick_nodes(
            &kids,
            |n: &Node| -> (b: bool)
                ensures
                    b == gives(*n)
                { pick_lang(n) },
            Ghost(|n: Node| gives(n)),
        );
        assert(nodes(own@).len() == own@.len());
        let ghost more = Seq::new(
            giving(*holder).len(),
            |k: int| Entry { props: giving(*holder)[k], holder: *holder, part },
        );
        let mut rows: Vec<Found<'a>> = each(
            &own,
            own.len(),
            |k: usize, n: &&'a Node| -> (r: Found<'a>)
                ensures
                    *r.props == **n,
                    *r.holder == *holder,
                    r.part == part
                { Found { props: *n, holder, part } },
        );
        assert(found(rows@) =~= more) by {
            assert forall|k: int| 0 <= k < rows@.len() implies (#[trigger] rows@[k]).entry()
                == more[k] by {
                assert(nodes(own@)[k] == *own@[k]);
            }
        }
        let ghost had = found(out@);
        let ghost now = found(rows@);
        out.append(&mut rows);
        assert(found(out@) =~= had + now);
        i += 1;
        assert(found(out@) =~= start + entries_upto(h, part, i as int));
    }
}

fn add_root<'a>(root: &'a Node, part: Part, out: &mut Vec<Found<'a>>)
    ensures
        found(final(out)@) == found(old(out)@) + entries_of(*root, part),
{
    let ghost start = found(out@);
    let a: Vec<&'a Node> = root.descendants("style");
    let b: Vec<&'a Node> = root.descendants("default-style");
    assert(nodes(a@).len() == a@.len());
    assert(nodes(b@).len() == b@.len());
    add_entries(&a, part, out);
    add_entries(&b, part, out);
    assert(found(out@) =~= start + entries_of(*root, part));
}

/// One entry.
#[derive(Debug, Clone)]
pub struct EntryRow {
    pub part: Part,
    pub holder: String,
    /// A default has no name.
    pub style_name: Option<String>,
    pub family: Option<String>,
    pub language: Option<String>,
    pub country: Option<String>,
    pub script: Option<String>,
}

impl EntryRow {
    pub open spec fn describes(self, e: Entry) -> bool {
        &&& self.part == e.part
        &&& self.holder@ == e.holder.local_name()
        &&& text_in(self.style_name) == if e.holder.local_name() == "style"@ {
            e.holder.attr_text("name"@)
        } else {
            None
        }
        &&& text_in(self.family) == e.holder.attr_text("family"@)
        &&& text_in(self.language) == says_of(e.props, "language"@)
        &&& text_in(self.country) == says_of(e.props, "country"@)
        &&& text_in(self.script) == says_of(e.props, "script"@)
    }
}

fn read_entry(f: &Found) -> (r: EntryRow)
    ensures
        r.describes(f.entry()),
{
    let t: Vec<(String, String)> = attr_map(f.props);
    let style_name: Option<String> = if f.holder.is("style") {
        owned(f.holder.attr_local("name"))
    } else {
        None
    };
    EntryRow {
        part: f.part,
        holder: f.holder.local().to_owned(),
        style_name,
        family: owned(f.holder.attr_local("family")),
        language: owned(look_up(&t, "language")),
        country: owned(look_up(&t, "country")),
        script: owned(look_up(&t, "script")),
    }
}

/// The properties of the entries.
pub open spec fn props_of(e: Seq<Entry>) -> Seq<Node> {
    Seq::new(e.len(), |i: int| e[i].props)
}

/// All text properties that give a language, wherever they stand.
pub open spec fn anywhere(content: Node, styles: Option<Node>) -> Seq<Node> {
    (content.below("text-properties"@) + below_in(styles, "text-properties"@)).filter(
        |n: Node| gives(n),
    )
}

/// The languages of a text.
#[derive(Debug, Clone)]
pub struct EntryReport {
    pub elements_total: usize,
    pub under_style: usize,
    pub not_under_style: usize,
    pub none_written: usize,
    pub distinct_languages: Vec<String>,
    pub distinct_countries: Vec<String>,
    pub distinct_scripts: Vec<String>,
    pub in_content: bool,
    pub in_styles: bool,
    pub entries: Vec<EntryRow>,
}

impl EntryReport {
    /// What is counted.
    pub open spec fn counts(self, content: Node, styles: Option<Node>) -> bool {
        let e = entries_in(content, styles);
        let all = anywhere(content, styles).len();
        &&& self.elements_total == all
        &&& self.under_style == e.len()
        &&& self.not_under_style == if all >= e.len() {
            (all - e.len()) as nat
        } else {
            0
        }
        &&& self.none_written == props_of(e).filter(
            |n: Node| says_of(n, "language"@) == Some("none"@),
        ).len()
        &&& self.in_content == (entries_of(content, Part::Content).len() > 0)
        &&& self.in_styles == match styles {
            Some(s) => entries_of(s, Part::Styles).len() > 0,
            None => false,
        }
    }

    pub open spec fn describes(self, content: Node, styles: Option<Node>, limit: usize) -> bool {
        let e = entries_in(content, styles);
        &&& self.counts(content, styles)
        &&& sorts(self.distinct_languages@, distinct(props_of(e), "language"@))
        &&& sorts(self.distinct_countries@, distinct(props_of(e), "country"@))
        &&& sorts(self.distinct_scripts@, distinct(props_of(e), "script"@))
        &&& self.entries@.len() == at_most(e.len(), limit)
        &&& forall|i: int|
            0 <= i < self.entries@.len() ==> (#[trigger] self.entries@[i]).describes(e[i])
    }
}

/// The languages of a text, from its content and its styles. The list is cut to `limit`.
pub fn odf(content: &Node, styles: Option<&Node>, limit: usize) -> (r: EntryReport)
    ensures
        r.describes(*content, node_in(styles), limit),
{
    let mut v: Vec<Found> = Vec::new();
    assert(found(v@) =~= Seq::empty());
    add_root(content, Part::Content, &mut v);
    assert(found(v@) =~= entries_of(*content, Part::Content));
    assert(found(v@).len() == v@.len());
    let first_part: usize = v.len();
    if let Some(s) = styles {
        add_root(s, Part::Styles, &mut v);
    }
    let ghost e = entries_in(*content, node_in(styles));
    assert(found(v@) =~= e);
    assert(found(v@).len() == v@.len());
    let props: Vec<&Node> = each(
        &v,
        v.len(),
        |i: usize, f: &Found| -> (r: &Node)
            ensures
                *r == f.entry().props
            { f.props },
    );
    assert(nodes(props@) =~= props_of(e)) by {
        assert forall|i: int| 0 <= i < props@.len() implies *(#[trigger] props@[i]) == e[i].props by {
            assert(e[i] == v@[i].entry());
        }
    }
    let none_written: usize = count_nodes(
        &props,
        |n: &Node| -> (b: bool)
            ensures
                b == (says_of(*n, "language"@) == Some("none"@))
            {
                let t: Vec<(String, String)> = attr_map(n);
                match look_up(&t, "language") {
                    Some(raw) => same(raw, "none"),
                    None => false,
                }
            },
        Ghost(|n: Node| says_of(n, "language"@) == Some("none"@)),
    );
    let mut all: Vec<&Node> = content.descendants("text-properties");
    let mut more: Vec<&Node> = find_in(styles, "text-properties");
    let ghost here = nodes(all@);
    let ghost there = nodes(more@);
    all.append(&mut more);
    assert(nodes(all@) =~= here + there);
    let elements_total: usize = count_nodes(
        &all,
        |n: &Node| -> (b: bool)
            ensures
                b == gives(*n)
            { pick_lang(n) },
        Ghost(|n: Node| gives(n)),
    );
    let under_style: usize = v.len();
    let not_under_style: usize = if elements_total >= under_style {
        elements_total - under_style
    } else {
        0
    };
    let entries: Vec<EntryRow> = each(
        &v,
        cut(v.len(), limit),
        |i: usize, f: &Found| -> (r: EntryRow)
            ensures
                r.describes(f.entry())
            { read_entry(f) },
    );
    assert forall|i: int| 0 <= i < entries@.len() implies (#[trigger] entries@[i]).describes(
        e[i],
    ) by {
        assert(e[i] == v@[i].entry());
    }
    EntryReport {
        elements_total,
        under_style,
        not_under_style,
        none_written,
        distinct_languages: sort_texts(&read_distinct(&props, "language")),
        distinct_countries: sort_texts(&read_distinct(&props, "country")),
        distinct_scripts: sort_texts(&read_distinct(&props, "script")),
        in_content: first_part > 0,
        in_styles: under_style > first_part,
        entries,
    }
}

/// The language of a style stands anywhere in its run properties; that of a paragraph in the run
/// properties of its own, and that of a run right in its own.
pub proof fn law_where_a_language_is_given(n: Node, props: Node, inner: Node)
    ensures
        n.child_of("rPr"@) == Some(props) && props.below("lang"@).len() > 0 ==> lang_at(
            n,
            Level::Style,
        ) == Some(props.below("lang"@)[0]),
        n.child_of("rPr"@) == Some(props) ==> lang_at(n, Level::Run) == props.child_of("lang"@),
        n.child_of("rPr"@) is None ==> lang_at(n, Level::Style) is None && lang_at(n, Level::Run)
            is None,
        n.child_of("pPr"@) == Some(props) && props.child_of("rPr"@) == Some(inner) ==> lang_at(
            n,
            Level::Paragraph,
        ) == inner.child_of("lang"@),
        n.child_of("pPr"@) is None ==> lang_at(n, Level::Paragraph) is None,
        n.child_of("pPr"@) == Some(props) && props.child_of("rPr"@) is None ==> lang_at(
            n,
            Level::Paragraph,
        ) is None,
{
}

/// The last attribute of a local name counts for the id and the kind of a style.
pub proof fn law_the_last_attribute_counts(a: Seq<(String, String)>, want: Seq<char>, i: int)
    requires
        0 <= i < a.len(),
        local_part(a[i].0@) == want,
        forall|k: int| i < k < a.len() ==> local_part((#[trigger] a[k]).0@) != want,
    ensures
        last_said(a, want, a.len() as int) == Some(a[i].1@),
{
    lemma_last_said(a, want, i, a.len() as int);
}

proof fn lemma_last_said(a: Seq<(String, String)>, want: Seq<char>, i: int, n: int)
    requires
        0 <= i < n <= a.len(),
        local_part(a[i].0@) == want,
        forall|k: int| i < k < n ==> local_part((#[trigger] a[k]).0@) != want,
    ensures
        last_said(a, want, n) == Some(a[i].1@),
    decreases n,
{
    if i < n - 1 {
        lemma_last_said(a, want, i, n - 1);
    }
}

/// What is told of a level: those that give a language, in their order and with what they give.
pub proof fn law_which_give_a_language(r: LangRows, c: Seq<Node>, level: Level, limit: usize, i: int)
    requires
        r.describes(c, level, limit),
    ensures
        r.with_lang == c.filter(|n: Node| lang_at(n, level) is Some).len(),
        r.list@.len() <= limit,
        r.list@.len() < r.with_lang ==> r.list@.len() == limit,
        0 <= i < r.list@.len() ==> {
            let row = r.list@[i];
            let k = row.index as int;
            &&& k < c.len()
            &&& lang_at(c[k], level) is Some
            &&& table_in(row.attrs) == Some(crate::written::table_of(lang_at(c[k], level)->0))
            &&& text_in(row.style_id) == last_said(c[k].attrs@, "styleId"@, c[k].attrs@.len() as int)
            &&& text_in(row.style_type) == last_said(c[k].attrs@, "type"@, c[k].attrs@.len() as int)
        },
{
    let q = |i: int| lang_at(c[i], level) is Some;
    crate::lists::law_those_are_all_that_satisfy(q, c.len() as int);
    crate::lists::law_a_tally_is_how_many_pass(c, q, |n: Node| lang_at(n, level) is Some);
    if 0 <= i < r.list@.len() {
        assert(q(those(q, c.len() as int)[i]));
        assert(r.list@[i].describes(c, speaking(c, level)[i], level));
    }
}

/// Where the languages of a document are looked for: its styles, the paragraphs of its body and
/// all runs in it, and its defaults.
pub proof fn law_where_languages_are_looked_for(
    r: LangReport,
    document: Node,
    part: Node,
    sheet: Node,
    body: Node,
    limit: usize,
)
    requires
        r.describes(document, Some(part), limit),
        part.child_of("styles"@) == Some(sheet),
        document.child_of("body"@) == Some(body),
    ensures
        r.in_document == document.below("lang"@).len(),
        r.in_styles == sheet.below("lang"@).len(),
        r.styles.describes(sheet.below("style"@), Level::Style, limit),
        r.paragraphs.describes(body.all_of("p"@), Level::Paragraph, limit),
        r.runs.describes(body.below("r"@), Level::Run, limit),
        sheet.below("docDefaults"@).len() == 0 ==> r.doc_defaults is None,
        sheet.below("docDefaults"@).len() > 0 && sheet.below("docDefaults"@)[0].below("lang"@).len()
            > 0 ==> table_in(r.doc_defaults) == Some(
            crate::written::table_of(sheet.below("docDefaults"@)[0].below("lang"@)[0]),
        ),
        texts(r.distinct_vals@) == distinct(
            document.below("lang"@) + sheet.below("lang"@),
            "val"@,
        ),
        texts(r.distinct_east_asia@) == distinct(
            document.below("lang"@) + sheet.below("lang"@),
            "eastAsia"@,
        ),
        texts(r.distinct_bidi@) == distinct(
            document.below("lang"@) + sheet.below("lang"@),
            "bidi"@,
        ),
{
}

/// What nodes say under a name is gathered in their order, from those that say it.
pub proof fn law_what_nodes_say(c: Seq<Node>, name: Seq<char>, n: int)
    requires
        0 <= n,
    ensures
        said_by_all(c, name, 0).len() == 0,
        says_of(c[n], name) is None ==> said_by_all(c, name, n + 1) == said_by_all(c, name, n),
        says_of(c[n], name) is Some ==> said_by_all(c, name, n + 1) == said_by_all(c, name, n).push(
            says_of(c[n], name)->0,
        ),
{
}

/// Text properties count where they give a language, a country or a script.
pub proof fn law_which_properties_give_a_language(holder: Node, q: spec_fn(Node) -> bool)
    requires
        forall|n: Node| #[trigger]
            q(n) == (says_of(n, "language"@) is Some || says_of(n, "country"@) is Some || says_of(
                n,
                "script"@,
            ) is Some),
    ensures
        giving(holder) == holder.all_of("text-properties"@).filter(q),
{
    let p = |n: Node| gives(n);
    assert(p =~= q);
}

/// The entries of a part are those of its styles and then those of its defaults, and the entries
/// of a text those of the content and then those of the styles.
pub proof fn law_which_entries_there_are(
    h: Seq<Node>,
    part: Part,
    n: int,
    k: int,
    content: Node,
    styles: Node,
)
    requires
        0 <= n,
        0 <= k < giving(h[n]).len(),
    ensures
        entries_upto(h, part, 0).len() == 0,
        entries_upto(h, part, n + 1).len() == entries_upto(h, part, n).len() + giving(h[n]).len(),
        entries_upto(h, part, n + 1)[entries_upto(h, part, n).len() + k] == (Entry {
            props: giving(h[n])[k],
            holder: h[n],
            part,
        }),
        entries_of(content, part) == entries_upto(
            content.below("style"@),
            part,
            content.below("style"@).len() as int,
        ) + entries_upto(
            content.below("default-style"@),
            part,
            content.below("default-style"@).len() as int,
        ),
        entries_in(content, Some(styles)) == entries_of(content, Part::Content) + entries_of(
            styles,
            Part::Styles,
        ),
{
}

/// What is told of an entry: the style that holds it, by name where it is no default, and what it
/// gives.
pub proof fn law_what_an_entry_says(r: EntryRow, e: Entry)
    requires
        r.describes(e),
    ensures
        r.part == e.part,
        r.holder@ == e.holder.local_name(),
        e.holder.local_name() == "style"@ ==> text_in(r.style_name) == e.holder.attr_text("name"@),
        e.holder.local_name() != "style"@ ==> r.style_name is None,
        text_in(r.family) == e.holder.attr_text("family"@),
        text_in(r.language) == says_of(e.props, "language"@),
        text_in(r.country) == says_of(e.props, "country"@),
        text_in(r.script) == says_of(e.props, "script"@),
{
}

/// Each number of the report on a text: all properties that give a language, those that stand
/// under a style, and those that say there is none.
pub proof fn law_what_languages_are_counted_for(
    r: EntryReport,
    content: Node,
    styles: Option<Node>,
    limit: usize,
    e: Seq<Entry>,
)
    requires
        r.describes(content, styles, limit),
        e == entries_in(content, styles),
    ensures
        r.elements_total == anywhere(content, styles).len(),
        r.under_style == e.len(),
        r.elements_total >= r.under_style ==> r.not_under_style == r.elements_total - r.under_style,
        r.none_written == props_of(e).filter(
            |n: Node| says_of(n, "language"@) == Some("none"@),
        ).len(),
        r.in_content <==> entries_of(content, Part::Content).len() > 0,
        styles matches Some(s) ==> (r.in_styles <==> entries_of(s, Part::Styles).len() > 0),
        styles is None ==> !r.in_styles,
        sorts(r.distinct_languages@, distinct(props_of(e), "language"@)),
        sorts(r.distinct_countries@, distinct(props_of(e), "country"@)),
        sorts(r.distinct_scripts@, distinct(props_of(e), "script"@)),
        r.entries@.len() == limit || r.entries@.len() == e.len(),
{
}

} // verus!
