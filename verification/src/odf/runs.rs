//! How the characters of a text are formatted.
//!
//! A paragraph holds spans, each of which names a style, and text in between that nothing wraps.
//! Spans nest. What a style says stands in the content or in the style part.

use crate::lists::{at_most, capped, count_those, cut, each, tally};
use crate::odf::{
    all_held, ask_found, called, entry_in, everywhere, find_called, held_in, look_everywhere,
    look_in, part_in, part_of, props_of, read_props, word_of, Found, Held, Part,
};
use crate::text::same;
use crate::written::{ask, join_text, joined_text, node_in, said_by, table_in, text_in};
use crate::xml::{nodes, Node};
use vstd::prelude::*;

verus! {

broadcast use {crate::text::lemma_pair_texts_push, crate::xml::lemma_nodes_push};

/// The text that stands directly in a node.
pub open spec fn direct_text(n: Node) -> Seq<char> {
    joined_text(n.all_of("#text"@))
}

/// The text that stands directly in a node. What stands in a span within belongs to that span.
pub fn own_text(holder: &Node) -> (r: String)
    ensures
        r@ == direct_text(*holder),
{
    join_text(&holder.all("#text"))
}

/// A piece of a paragraph: a span with the text directly in it, or text that nothing wraps.
pub struct Piece {
    pub depth: nat,
    pub span: Option<Node>,
    pub text: Seq<char>,
}

/// The pieces among a list of nodes and below them, in the order of the file. Text counts as a
/// piece of its own only where `bare` says so: within a span it belongs to the span.
pub open spec fn pieces(c: Seq<Node>, depth: nat, bare: bool) -> Seq<Piece>
    decreases c,
{
    if c.len() == 0 {
        Seq::empty()
    } else {
        let one = c.last();
        let own = if one.local_name() == "span"@ {
            seq![Piece { depth, span: Some(one), text: direct_text(one) }] + pieces(
                one.children@,
                depth + 1,
                false,
            )
        } else if bare && one.is_text() {
            seq![Piece { depth, span: None, text: one.full_text() }]
        } else {
            Seq::empty()
        };
        pieces(c.drop_last(), depth, bare) + own
    }
}

/// A piece of a paragraph.
struct Bit<'a> {
    depth: usize,
    span: Option<&'a Node>,
    text: String,
}

impl Bit<'_> {
    spec fn is(self, p: Piece) -> bool {
        &&& self.depth == capped(p.depth)
        &&& node_in(self.span) == p.span
        &&& self.text@ == p.text
    }
}

spec fn bits_are(v: Seq<Bit>, s: Seq<Piece>) -> bool {
    v.len() == s.len() && forall|i: int| 0 <= i < v.len() ==> (#[trigger] v[i]).is(s[i])
}

fn collect_pieces<'a>(
    holder: &'a Node,
    depth: usize,
    bare: bool,
    out: &mut Vec<Bit<'a>>,
    Ghost(deep): Ghost<nat>,
    Ghost(had): Ghost<Seq<Piece>>,
)
    requires
        depth == capped(deep),
        bits_are(old(out)@, had),
    ensures
        bits_are(final(out)@, had + pieces(holder.children@, deep, bare)),
    decreases holder,
{
    let ghost c = holder.children@;
    let mut i: usize = 0;
    assert(c.take(0) =~= Seq::empty());
    assert(had + pieces(c.take(0), deep, bare) =~= had);
    while i < holder.children.len()
        invariant
            i <= holder.children@.len(),
            c == holder.children@,
            depth == capped(deep),
            bits_are(out@, had + pieces(c.take(i as int), deep, bare)),
        decreases holder.children@.len() - i,
    {
        let one: &'a Node = &holder.children[i];
        let ghost done = c.take(i + 1);
        let ghost before = had + pieces(c.take(i as int), deep, bare);
        assert(done.drop_last() =~= c.take(i as int));
        assert(done.last() == *one);
        if one.is("span") {
            let ghost p = Piece { depth: deep, span: Some(*one), text: direct_text(*one) };
            out.push(Bit { depth, span: Some(one), text: own_text(one) });
            assert(bits_are(out@, before.push(p)));
            let next: usize = depth.saturating_add(1);
            collect_pieces(one, next, false, out, Ghost(deep + 1), Ghost(before.push(p)));
            assert(before.push(p) + pieces(one.children@, deep + 1, false) =~= had + pieces(
                done,
                deep,
                bare,
            ));
        } else if bare && one.is("#text") {
            let ghost p = Piece { depth: deep, span: None, text: one.full_text() };
            out.push(Bit { depth, span: None, text: one.text() });
            assert(before.push(p) =~= had + pieces(done, deep, bare));
        } else {
            assert(before =~= had + pieces(done, deep, bare));
        }
        i += 1;
    }
    assert(c.take(i as int) =~= c);
}

/// A piece and where it stands.
pub struct Spot {
    pub para: int,
    pub at: int,
    pub piece: Piece,
}

/// The pieces of a paragraph.
pub open spec fn pieces_of(p: Node) -> Seq<Piece> {
    pieces(p.children@, 1, true)
}

/// The pieces of the first `n` paragraphs.
pub open spec fn spots(ps: Seq<Node>, n: int) -> Seq<Spot>
    decreases n,
{
    if n <= 0 {
        Seq::empty()
    } else {
        let own = pieces_of(ps[n - 1]);
        spots(ps, n - 1) + Seq::new(
            own.len(),
            |k: int| Spot { para: n - 1, at: k, piece: own[k] },
        )
    }
}

/// How a style says a switch stands. `normal` and `none` say no, everything else says yes.
pub open spec fn switch_in(
    t: Option<Seq<(Seq<char>, Seq<char>)>>,
    name: Seq<char>,
) -> Option<bool> {
    match entry_in(t, name) {
        Some(raw) => Some(!(raw == "normal"@ || raw == "none"@)),
        None => None,
    }
}

/// How a style says a switch stands.
pub fn odf_run_switch(written: &Option<Vec<(String, String)>>, name: &str) -> (r: Option<bool>)
    ensures
        r == switch_in(table_in(*written), name@),
{
    match look_in(written, name) {
        Some(raw) => Some(!(same(raw.as_str(), "normal") || same(raw.as_str(), "none"))),
        None => None,
    }
}

/// The style that a span names. Text that nothing wraps names none.
pub open spec fn style_of(p: Piece, styles: Seq<Held>) -> Option<Held> {
    called(styles, "text"@, "text"@, said_by(p.span, "style-name"@))
}

/// What that style writes.
pub open spec fn format_of(p: Piece, styles: Seq<Held>) -> Option<Seq<(Seq<char>, Seq<char>)>> {
    props_of(style_of(p, styles), "text-properties"@)
}

/// One piece.
#[derive(Debug, Clone)]
pub struct RunRow {
    pub para: usize,
    pub at: usize,
    /// A span; or else text that nothing wraps.
    pub span: bool,
    pub depth: usize,
    pub text: String,
    pub style: Option<String>,
    /// Whether the style was found; nothing where there is no span to name one.
    pub resolved: Option<bool>,
    pub found_in: Option<Part>,
    pub parent: Option<String>,
    pub display: Option<String>,
    pub written: Option<Vec<(String, String)>>,
    pub bold: Option<bool>,
    pub italic: Option<bool>,
    pub strike: Option<bool>,
    pub underline: Option<bool>,
}

impl RunRow {
    pub open spec fn describes(self, s: Spot, styles: Seq<Held>) -> bool {
        let hit = style_of(s.piece, styles);
        let t = format_of(s.piece, styles);
        &&& self.para == s.para
        &&& self.at == s.at
        &&& self.span == (s.piece.span is Some)
        &&& self.depth == capped(s.piece.depth)
        &&& self.text@ == s.piece.text
        &&& text_in(self.style) == said_by(s.piece.span, "style-name"@)
        &&& self.resolved == if s.piece.span is Some {
            Some(hit is Some)
        } else {
            None
        }
        &&& self.found_in == part_in(hit)
        &&& text_in(self.parent) == word_of(hit, "parent-style-name"@)
        &&& text_in(self.display) == word_of(hit, "display-name"@)
        &&& table_in(self.written) == t
        &&& self.bold == switch_in(t, "fo:font-weight"@)
        &&& self.italic == switch_in(t, "fo:font-style"@)
        &&& self.strike == switch_in(t, "style:text-line-through-style"@)
        &&& self.underline == switch_in(t, "style:text-underline-style"@)
    }
}

/// A piece where it stands.
struct Run<'a> {
    para: usize,
    at: usize,
    bit: Bit<'a>,
}

impl<'a> Run<'a> {
    spec fn is(self, s: Spot) -> bool {
        self.para == s.para && self.at == s.at && self.bit.is(s.piece)
    }
}

spec fn runs_are(v: Seq<Run>, s: Seq<Spot>) -> bool {
    v.len() == s.len() && forall|i: int| 0 <= i < v.len() ==> (#[trigger] v[i]).is(s[i])
}

fn find_style<'a>(b: &Bit, styles: &Vec<Found<'a>>, Ghost(p): Ghost<Piece>) -> (r: Option<
    Found<'a>,
>)
    requires
        b.is(p),
    ensures
        held_in(r) == style_of(p, all_held(styles@)),
{
    let want: Option<&str> = match b.span {
        Some(n) => n.attr_local("style-name"),
        None => None,
    };
    find_called(styles, "text", "text", want)
}

fn read_format(b: &Bit, styles: &Vec<Found>, Ghost(p): Ghost<Piece>) -> (r: Option<
    Vec<(String, String)>,
>)
    requires
        b.is(p),
    ensures
        table_in(r) == format_of(p, all_held(styles@)),
{
    read_props(find_style(b, styles, Ghost(p)), "text-properties")
}

fn read_run(x: &Run, styles: &Vec<Found>, Ghost(s): Ghost<Spot>) -> (r: RunRow)
    requires
        x.is(s),
    ensures
        r.describes(s, all_held(styles@)),
{
    let hit: Option<Found> = find_style(&x.bit, styles, Ghost(s.piece));
    let written: Option<Vec<(String, String)>> = read_props(hit, "text-properties");
    let bold: Option<bool> = odf_run_switch(&written, "fo:font-weight");
    let italic: Option<bool> = odf_run_switch(&written, "fo:font-style");
    let strike: Option<bool> = odf_run_switch(&written, "style:text-line-through-style");
    let underline: Option<bool> = odf_run_switch(&written, "style:text-underline-style");
    RunRow {
        para: x.para,
        at: x.at,
        span: x.bit.span.is_some(),
        depth: x.bit.depth,
        text: x.bit.text.clone(),
        style: ask(x.bit.span, "style-name"),
        resolved: if x.bit.span.is_some() {
            Some(hit.is_some())
        } else {
            None
        },
        found_in: part_of(hit),
        parent: ask_found(hit, "parent-style-name"),
        display: ask_found(hit, "display-name"),
        written,
        bold,
        italic,
        strike,
        underline,
    }
}

fn all_runs<'a>(paragraphs: &Vec<&'a Node>) -> (r: Vec<Run<'a>>)
    ensures
        runs_are(r@, spots(nodes(paragraphs@), paragraphs@.len() as int)),
{
    let ghost ps = nodes(paragraphs@);
    let mut out: Vec<Run<'a>> = Vec::new();
    let mut i: usize = 0;
    while i < paragraphs.len()
        invariant
            i <= paragraphs@.len(),
            ps == nodes(paragraphs@),
            runs_are(out@, spots(ps, i as int)),
        decreases paragraphs@.len() - i,
    {
        let ghost own = pieces_of(ps[i as int]);
        let ghost before = spots(ps, i as int);
        let ghost more = Seq::new(
            own.len(),
            |k: int| Spot { para: i as int, at: k, piece: own[k] },
        );
        let mut bits: Vec<Bit<'a>> = Vec::new();
        collect_pieces(paragraphs[i], 1, true, &mut bits, Ghost(1), Ghost(Seq::empty()));
        assert(Seq::<Piece>::empty() + own =~= own);
        let mut own_runs: Vec<Run<'a>> = each(
            &bits,
            bits.len(),
            |k: usize, b: &Bit<'a>| -> (r: Run<'a>)
                ensures
                    r.para == i,
                    r.at == k,
                    r.bit.depth == b.depth,
                    r.bit.span == b.span,
                    r.bit.text@ == b.text@
                {
                    Run {
                        para: i,
                        at: k,
                        bit: Bit { depth: b.depth, span: b.span, text: b.text.clone() },
                    }
                },
        );
        assert(runs_are(own_runs@, more));
        out.append(&mut own_runs);
        assert(runs_are(out@, before + more));
        i += 1;
    }
    out
}

/// Whether a switch stands that way.
pub open spec fn switch_is(
    p: Piece,
    styles: Seq<Held>,
    name: Seq<char>,
    on: bool,
) -> bool {
    switch_in(format_of(p, styles), name) == Some(on)
}

fn count_switch(
    runs: &Vec<Run>,
    styles: &Vec<Found>,
    name: &str,
    on: bool,
    Ghost(s): Ghost<Seq<Spot>>,
) -> (r: usize)
    requires
        runs_are(runs@, s),
    ensures
        r == tally(
            |i: int| switch_is(s[i].piece, all_held(styles@), name@, on),
            s.len() as int,
        ),
{
    count_those(
        runs.len(),
        |i: usize| -> (b: bool)
            requires
                i < runs@.len()
            ensures
                b == switch_is(s[i as int].piece, all_held(styles@), name@, on)
            {
                match odf_run_switch(
                    &read_format(&runs[i].bit, styles, Ghost(s[i as int].piece)),
                    name,
                ) {
                    Some(b) => b == on,
                    None => false,
                }
            },
        Ghost(|i: int| switch_is(s[i].piece, all_held(styles@), name@, on)),
    )
}

/// How the characters of a text are formatted.
#[derive(Debug, Clone)]
pub struct RunReport {
    pub listed: usize,
    pub spans: usize,
    pub nested_spans: usize,
    pub bare_text: usize,
    pub resolved: usize,
    pub with_format: usize,
    pub bold_on: usize,
    pub bold_off: usize,
    pub italic_on: usize,
    pub italic_off: usize,
    pub strike_on: usize,
    pub strike_off: usize,
    pub underline_on: usize,
    pub underline_off: usize,
    pub list: Vec<RunRow>,
}

/// The style of a piece says something about its characters.
pub open spec fn is_formatted(p: Piece, styles: Seq<Held>) -> bool {
    match format_of(p, styles) {
        Some(t) => t.len() > 0,
        None => false,
    }
}

/// How many pieces have a switch that stands that way.
pub open spec fn switched(s: Seq<Spot>, t: Seq<Held>, name: Seq<char>, on: bool) -> nat {
    tally(|i: int| switch_is(s[i].piece, t, name, on), s.len() as int)
}

impl RunReport {
    /// What is counted over all pieces.
    pub open spec fn counts(self, s: Seq<Spot>, t: Seq<Held>) -> bool {
        let n = s.len() as int;
        &&& self.listed == n
        &&& self.spans == tally(|i: int| s[i].piece.span is Some, n)
        &&& self.nested_spans == tally(
            |i: int| s[i].piece.span is Some && s[i].piece.depth > 1,
            n,
        )
        &&& self.bare_text == tally(|i: int| s[i].piece.span is None, n)
        &&& self.resolved == tally(|i: int| style_of(s[i].piece, t) is Some, n)
        &&& self.with_format == tally(|i: int| is_formatted(s[i].piece, t), n)
    }

    /// What is counted of the switches.
    pub open spec fn counts_switches(self, s: Seq<Spot>, t: Seq<Held>) -> bool {
        &&& self.bold_on == switched(s, t, "fo:font-weight"@, true)
        &&& self.bold_off == switched(s, t, "fo:font-weight"@, false)
        &&& self.italic_on == switched(s, t, "fo:font-style"@, true)
        &&& self.italic_off == switched(s, t, "fo:font-style"@, false)
        &&& self.strike_on == switched(s, t, "style:text-line-through-style"@, true)
        &&& self.strike_off == switched(s, t, "style:text-line-through-style"@, false)
        &&& self.underline_on == switched(s, t, "style:text-underline-style"@, true)
        &&& self.underline_off == switched(s, t, "style:text-underline-style"@, false)
    }

    pub open spec fn describes(
        self,
        ps: Seq<Node>,
        content: Node,
        styles: Option<Node>,
        limit: usize,
    ) -> bool {
        let s = spots(ps, ps.len() as int);
        let t = everywhere(content, styles, "style"@);
        &&& self.counts(s, t)
        &&& self.counts_switches(s, t)
        &&& self.list@.len() == at_most(s.len(), limit)
        &&& forall|i: int|
            0 <= i < self.list@.len() ==> (#[trigger] self.list@[i]).describes(s[i], t)
    }
}

/// Each piece is a span or text that nothing wraps, and none is both.
pub proof fn law_spans_and_bare_text_are_all(s: Seq<Spot>, n: int)
    requires
        0 <= n,
    ensures
        tally(|i: int| s[i].piece.span is Some, n) + tally(
            |i: int| s[i].piece.span is None,
            n,
        ) == n,
    decreases n,
{
    if n > 0 {
        law_spans_and_bare_text_are_all(s, n - 1);
    }
}

/// How the characters of a text are formatted, piece by piece, at most `limit` of them.
pub fn odt_run_formats(
    paragraphs: &Vec<&Node>,
    root: &Node,
    styles: Option<&Node>,
    limit: usize,
) -> (r: RunReport)
    ensures
        r.describes(nodes(paragraphs@), *root, node_in(styles), limit),
{
    let runs: Vec<Run> = all_runs(paragraphs);
    let found: Vec<Found> = look_everywhere(root, styles, "style");
    let ghost ps = nodes(paragraphs@);
    let ghost s = spots(ps, ps.len() as int);
    let ghost t = everywhere(*root, node_in(styles), "style"@);
    let n: usize = runs.len();
    let spans: usize = count_those(
        n,
        |i: usize| -> (b: bool)
            requires
                i < runs@.len()
            ensures
                b == (s[i as int].piece.span is Some)
            { runs[i].bit.span.is_some() },
        Ghost(|i: int| s[i].piece.span is Some),
    );
    let nested_spans: usize = count_those(
        n,
        |i: usize| -> (b: bool)
            requires
                i < runs@.len()
            ensures
                b == (s[i as int].piece.span is Some && s[i as int].piece.depth > 1)
            { runs[i].bit.span.is_some() && runs[i].bit.depth > 1 },
        Ghost(|i: int| s[i].piece.span is Some && s[i].piece.depth > 1),
    );
    let bare_text: usize = count_those(
        n,
        |i: usize| -> (b: bool)
            requires
                i < runs@.len()
            ensures
                b == (s[i as int].piece.span is None)
            { runs[i].bit.span.is_none() },
        Ghost(|i: int| s[i].piece.span is None),
    );
    let resolved: usize = count_those(
        n,
        |i: usize| -> (b: bool)
            requires
                i < runs@.len()
            ensures
                b == (style_of(s[i as int].piece, t) is Some)
            { find_style(&runs[i].bit, &found, Ghost(s[i as int].piece)).is_some() },
        Ghost(|i: int| style_of(s[i].piece, t) is Some),
    );
    let with_format: usize = count_those(
        n,
        |i: usize| -> (b: bool)
            requires
                i < runs@.len()
            ensures
                b == is_formatted(s[i as int].piece, t)
            {
                match read_format(&runs[i].bit, &found, Ghost(s[i as int].piece)) {
                    Some(m) => m.len() > 0,
                    None => false,
                }
            },
        Ghost(|i: int| is_formatted(s[i].piece, t)),
    );
    let list: Vec<RunRow> = each(
        &runs,
        cut(n, limit),
        |i: usize, x: &Run| -> (r: RunRow)
            requires
                i < runs@.len(),
                *x == runs@[i as int]
            ensures
                r.describes(s[i as int], t)
            { read_run(x, &found, Ghost(s[i as int])) },
    );
    RunReport {
        listed: n,
        spans,
        nested_spans,
        bare_text,
        resolved,
        with_format,
        bold_on: count_switch(&runs, &found, "fo:font-weight", true, Ghost(s)),
        bold_off: count_switch(&runs, &found, "fo:font-weight", false, Ghost(s)),
        italic_on: count_switch(&runs, &found, "fo:font-style", true, Ghost(s)),
        italic_off: count_switch(&runs, &found, "fo:font-style", false, Ghost(s)),
        strike_on: count_switch(&runs, &found, "style:text-line-through-style", true, Ghost(s)),
        strike_off: count_switch(&runs, &found, "style:text-line-through-style", false, Ghost(s)),
        underline_on: count_switch(&runs, &found, "style:text-underline-style", true, Ghost(s)),
        underline_off: count_switch(&runs, &found, "style:text-underline-style", false, Ghost(s)),
        list,
    }
}

/// The pieces of a paragraph: a span with the text that stands directly in it and then the spans
/// within, one deeper, and text that nothing wraps where it stands in the paragraph itself.
pub proof fn law_what_pieces_there_are(c: Seq<Node>, one: Node, depth: nat, bare: bool)
    ensures
        pieces(Seq::empty(), depth, bare).len() == 0,
        one.local_name() == "span"@ ==> pieces(c.push(one), depth, bare) == pieces(c, depth, bare)
            + seq![
            Piece {
                depth,
                span: Some(one),
                text: joined_text(one.children@.filter(|n: Node| n.local_name() == "#text"@)),
            },
        ] + pieces(one.children@, depth + 1, false),
        one.local_name() == "#text"@ && bare ==> pieces(c.push(one), depth, bare) == pieces(
            c,
            depth,
            bare,
        ).push(Piece { depth, span: None, text: one.direct@ }),
        one.local_name() == "#text"@ && !bare ==> pieces(c.push(one), depth, bare) == pieces(
            c,
            depth,
            bare,
        ),
        one.local_name() != "span"@ && one.local_name() != "#text"@ ==> pieces(
            c.push(one),
            depth,
            bare,
        ) == pieces(c, depth, bare),
{
    reveal_strlit("span");
    reveal_strlit("#text");
    assert("span"@.len() == 4 && "#text"@.len() == 5);
    assert(c.push(one).drop_last() =~= c);
    let p = pieces(c, depth, bare);
    assert(p + Seq::<Piece>::empty() =~= p);
    let s = seq![Piece { depth, span: Some(one), text: direct_text(one) }];
    let inner = pieces(one.children@, depth + 1, false);
    assert(p + (s + inner) =~= p + s + inner);
    let b = Piece { depth, span: None, text: one.full_text() };
    assert(p + seq![b] =~= p.push(b));
}

/// The pieces of all paragraphs stand one paragraph after another, the first depth being one.
pub proof fn law_where_pieces_stand(ps: Seq<Node>, n: int, k: int)
    requires
        0 <= n,
        0 <= k < pieces(ps[n].children@, 1, true).len(),
    ensures
        spots(ps, 0).len() == 0,
        spots(ps, n + 1).len() == spots(ps, n).len() + pieces(ps[n].children@, 1, true).len(),
        spots(ps, n + 1)[spots(ps, n).len() + k] == (Spot {
            para: n,
            at: k,
            piece: pieces(ps[n].children@, 1, true)[k],
        }),
{
}

/// A switch is off where a style says `normal` or `none`, on where it says anything else, and not
/// said where it does not.
pub proof fn law_how_a_switch_stands(t: Seq<(Seq<char>, Seq<char>)>, name: Seq<char>)
    ensures
        crate::written::entry_of(t, name) is None ==> switch_in(Some(t), name) is None,
        crate::written::entry_of(t, name) == Some("normal"@) || crate::written::entry_of(t, name)
            == Some("none"@) ==> switch_in(Some(t), name) == Some(false),
        crate::written::entry_of(t, name) matches Some(raw) && raw != "normal"@ && raw != "none"@
            ==> switch_in(Some(t), name) == Some(true),
        switch_in(None, name) is None,
{
}

/// What is told of a piece: the style that its span names, where that one stands, and how its
/// switches stand there, each under its own name.
pub proof fn law_what_a_piece_says(r: RunRow, s: Spot, styles: Seq<Held>, span: Node)
    requires
        r.describes(s, styles),
        s.piece.span == Some(span),
    ensures
        r.para == s.para && r.at == s.at && r.span && r.text@ == s.piece.text,
        text_in(r.style) == span.attr_text("style-name"@),
        ({
            let hit = called(styles, "text"@, "text"@, span.attr_text("style-name"@));
            let t = props_of(hit, "text-properties"@);
            &&& r.resolved == Some(hit is Some)
            &&& hit matches Some(h) ==> r.found_in == Some(h.part) && text_in(r.parent)
                == h.node.attr_text("parent-style-name"@) && text_in(r.display) == h.node.attr_text(
                "display-name"@,
            )
            &&& hit is None ==> r.found_in is None && r.parent is None && r.display is None
            &&& table_in(r.written) == t
            &&& r.bold == switch_in(t, "fo:font-weight"@)
            &&& r.italic == switch_in(t, "fo:font-style"@)
            &&& r.strike == switch_in(t, "style:text-line-through-style"@)
            &&& r.underline == switch_in(t, "style:text-underline-style"@)
        }),
{
}

/// Text that nothing wraps names no style and says nothing.
pub proof fn law_bare_text_says_nothing(r: RunRow, s: Spot, styles: Seq<Held>)
    requires
        r.describes(s, styles),
        s.piece.span is None,
    ensures
        !r.span,
        r.text@ == s.piece.text,
        r.style is None && r.resolved is None && r.found_in is None && r.written is None,
        r.bold is None && r.italic is None && r.strike is None && r.underline is None,
{
    crate::odf::law_which_style_is_called_so(styles, "text"@, "text"@, Seq::empty(), 0);
}

/// Each number of the report is how many pieces are so.
pub proof fn law_what_pieces_are_counted_for(
    r: RunReport,
    ps: Seq<Node>,
    content: Node,
    styles: Option<Node>,
    limit: usize,
    s: Seq<Spot>,
    t: Seq<Held>,
)
    requires
        r.describes(ps, content, styles, limit),
        s == spots(ps, ps.len() as int),
        t == everywhere(content, styles, "style"@),
    ensures
        r.listed == s.len(),
        r.spans == s.filter(|x: Spot| x.piece.span is Some).len(),
        r.bare_text == s.filter(|x: Spot| x.piece.span is None).len(),
        r.nested_spans == s.filter(|x: Spot| x.piece.span is Some && x.piece.depth >= 2).len(),
        r.resolved == s.filter(|x: Spot| style_of(x.piece, t) is Some).len(),
        r.with_format == s.filter(
            |x: Spot| format_of(x.piece, t) matches Some(m) && m.len() > 0,
        ).len(),
        r.bold_on == s.filter(
            |x: Spot| switch_in(format_of(x.piece, t), "fo:font-weight"@) == Some(true),
        ).len(),
        r.bold_off == s.filter(
            |x: Spot| switch_in(format_of(x.piece, t), "fo:font-weight"@) == Some(false),
        ).len(),
        r.italic_on == s.filter(
            |x: Spot| switch_in(format_of(x.piece, t), "fo:font-style"@) == Some(true),
        ).len(),
        r.italic_off == s.filter(
            |x: Spot| switch_in(format_of(x.piece, t), "fo:font-style"@) == Some(false),
        ).len(),
        r.strike_on == s.filter(
            |x: Spot|
                switch_in(format_of(x.piece, t), "style:text-line-through-style"@) == Some(true),
        ).len(),
        r.strike_off == s.filter(
            |x: Spot|
                switch_in(format_of(x.piece, t), "style:text-line-through-style"@) == Some(false),
        ).len(),
        r.underline_on == s.filter(
            |x: Spot|
                switch_in(format_of(x.piece, t), "style:text-underline-style"@) == Some(true),
        ).len(),
        r.underline_off == s.filter(
            |x: Spot|
                switch_in(format_of(x.piece, t), "style:text-underline-style"@) == Some(false),
        ).len(),
{
    crate::lists::law_a_tally_is_how_many_pass(
        s,
        |i: int| s[i].piece.span is Some,
        |x: Spot| x.piece.span is Some,
    );
    crate::lists::law_a_tally_is_how_many_pass(
        s,
        |i: int| s[i].piece.span is None,
        |x: Spot| x.piece.span is None,
    );
    crate::lists::law_a_tally_is_how_many_pass(
        s,
        |i: int| s[i].piece.span is Some && s[i].piece.depth > 1,
        |x: Spot| x.piece.span is Some && x.piece.depth >= 2,
    );
    crate::lists::law_a_tally_is_how_many_pass(
        s,
        |i: int| style_of(s[i].piece, t) is Some,
        |x: Spot| style_of(x.piece, t) is Some,
    );
    crate::lists::law_a_tally_is_how_many_pass(
        s,
        |i: int| is_formatted(s[i].piece, t),
        |x: Spot| format_of(x.piece, t) matches Some(m) && m.len() > 0,
    );
    lemma_switched(
        s,
        t,
        "fo:font-weight"@,
        true,
        |x: Spot| switch_in(format_of(x.piece, t), "fo:font-weight"@) == Some(true),
    );
    lemma_switched(
        s,
        t,
        "fo:font-weight"@,
        false,
        |x: Spot| switch_in(format_of(x.piece, t), "fo:font-weight"@) == Some(false),
    );
    lemma_switched(
        s,
        t,
        "fo:font-style"@,
        true,
        |x: Spot| switch_in(format_of(x.piece, t), "fo:font-style"@) == Some(true),
    );
    lemma_switched(
        s,
        t,
        "fo:font-style"@,
        false,
        |x: Spot| switch_in(format_of(x.piece, t), "fo:font-style"@) == Some(false),
    );
    lemma_switched(
        s,
        t,
        "style:text-line-through-style"@,
        true,
        |x: Spot|
            switch_in(format_of(x.piece, t), "style:text-line-through-style"@) == Some(true),
    );
    lemma_switched(
        s,
        t,
        "style:text-line-through-style"@,
        false,
        |x: Spot|
            switch_in(format_of(x.piece, t), "style:text-line-through-style"@) == Some(false),
    );
    lemma_switched(
        s,
        t,
        "style:text-underline-style"@,
        true,
        |x: Spot| switch_in(format_of(x.piece, t), "style:text-underline-style"@) == Some(true),
    );
    lemma_switched(
        s,
        t,
        "style:text-underline-style"@,
        false,
        |x: Spot| switch_in(format_of(x.piece, t), "style:text-underline-style"@) == Some(false),
    );
}

proof fn lemma_switched(
    s: Seq<Spot>,
    t: Seq<Held>,
    name: Seq<char>,
    on: bool,
    q: spec_fn(Spot) -> bool,
)
    requires
        forall|x: Spot| #[trigger] q(x) == (switch_in(format_of(x.piece, t), name) == Some(on)),
    ensures
        switched(s, t, name, on) == s.filter(q).len(),
{
    crate::lists::law_a_tally_is_how_many_pass(
        s,
        |i: int| switch_is(s[i].piece, t, name, on),
        q,
    );
}

} // verus!
