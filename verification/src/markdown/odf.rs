//! The body of an OpenDocument text as Markdown.
//!
//! Lists are nested elements here, a blank can be an element, and remarks and notes stand inside
//! the paragraphs. Each thing that is met leaves an event, and the counts are those of the events.

use super::{
    chunks, cut_text, flat, heading, join_blocks, law_a_longer_cut_holds_a_shorter, list_item,
    paragraph, pictured, pieces, push_times, render, rendered, repeated, replace, row_texts,
    table_text, whole_text, words, write_heading, write_item, write_paragraph, write_table, Block,
    Chunk, Piece, Seg, Shown, HARD,
};
use crate::lists::{count_those, first, first_from, tally};
use crate::text::{dec, push_dec, same, string_together, strung, texts};
use crate::words::{parse_unsigned, trim, trimmed, unsigned_value};
use crate::written::{
    below_in, copied, find_below, find_by, find_in, find_node, first_below, node_in, option_texts,
    or_empty, pick_nodes, text_in,
};
use crate::xml::{nodes, Node};
use vstd::prelude::*;

verus! {

broadcast use {
    crate::text::lemma_texts_push,
    crate::xml::lemma_nodes_push,
    super::lemma_pieces_push,
    super::lemma_chunks_push,
};

/// The most spaces that one mark stands for, and the most columns that one cell does.
pub const MOST_TIMES: u64 = 64;

/// Something that is met on the way through a document.
#[derive(Debug, Clone, Copy, PartialEq, Eq, Structural)]
pub enum Event {
    Paragraph,
    Heading,
    ListItem,
    BulletItem,
    OrderedItem,
    UnresolvedFormat,
    /// A table with so many rows.
    Table(usize),
    EmptyDropped,
    ListNamed,
    ListUnnamed,
    SpanUnresolved,
    AnnotationDropped,
    NoteDropped,
    SpaceMarker,
    Link,
    Image,
    CoveredCell,
    /// A cell that stands for so many columns more.
    RepeatedSpan(usize),
}

/// The styles of characters and of lists, those of the content first.
pub struct Shelf {
    pub chars: Seq<Node>,
    pub lists: Seq<Node>,
}

struct Styles<'a> {
    chars: Vec<&'a Node>,
    lists: Vec<&'a Node>,
}

/// The styles of characters in a part.
pub open spec fn text_styles(part: Option<Node>) -> Seq<Node> {
    below_in(part, "style"@).filter(|n: Node| n.attr_text("family"@) == Some("text"@))
}

/// The styles of a document.
pub open spec fn shelf_of(content: Node, styles: Option<Node>) -> Shelf {
    Shelf {
        chars: text_styles(Some(content)) + text_styles(styles),
        lists: content.below("list-style"@) + below_in(styles, "list-style"@),
    }
}

fn find_text_styles<'a>(part: Option<&'a Node>) -> (r: Vec<&'a Node>)
    ensures
        nodes(r@) == text_styles(node_in(part)),
{
    let all: Vec<&'a Node> = find_in(part, "style");
    pick_nodes(
        &all,
        |n: &Node| -> (b: bool)
            ensures
                b == (n.attr_text("family"@) == Some("text"@))
            {
                match n.attr_local("family") {
                    Some(f) => same(f, "text"),
                    None => false,
                }
            },
        Ghost(|n: Node| n.attr_text("family"@) == Some("text"@)),
    )
}

fn collect_odf_styles<'a>(content: &'a Node, styles: Option<&'a Node>) -> (r: Styles<'a>)
    ensures
        r.shelf() == shelf_of(*content, node_in(styles)),
{
    let mut chars: Vec<&'a Node> = find_text_styles(Some(content));
    let ghost a = nodes(chars@);
    let mut more: Vec<&'a Node> = find_text_styles(styles);
    let ghost b = nodes(more@);
    chars.append(&mut more);
    assert(nodes(chars@) =~= a + b);
    let mut lists: Vec<&'a Node> = content.descendants("list-style");
    let ghost c = nodes(lists@);
    let mut other: Vec<&'a Node> = find_in(styles, "list-style");
    let ghost d = nodes(other@);
    lists.append(&mut other);
    assert(nodes(lists@) =~= c + d);
    Styles { chars, lists }
}

/// What a style of characters says of boldness and slant.
pub open spec fn flags_of(style: Node) -> (bool, bool) {
    let props = match style.child_of("text-properties"@) {
        Some(p) => p,
        None => style,
    };
    (
        match props.attr_text("font-weight"@) {
            Some(raw) => raw != "normal"@ && raw != "0"@,
            None => false,
        },
        match props.attr_text("font-style"@) {
            Some(raw) => raw != "normal"@ && raw != "none"@ && raw != "0"@,
            None => false,
        },
    )
}

fn read_flags(style: &Node) -> (r: (bool, bool))
    ensures
        r == flags_of(*style),
{
    let props: &Node = match style.child("text-properties") {
        Some(p) => p,
        None => style,
    };
    let bold: bool = match props.attr_local("font-weight") {
        Some(raw) => !same(raw, "normal") && !same(raw, "0"),
        None => false,
    };
    let italic: bool = match props.attr_local("font-style") {
        Some(raw) => !same(raw, "normal") && !same(raw, "none") && !same(raw, "0"),
        None => false,
    };
    (bold, italic)
}

/// An element that defines the level with that number.
pub open spec fn is_level(n: Node, level: Seq<char>) -> bool {
    &&& n.local_name() == "list-level-style-bullet"@ || n.local_name()
        == "list-level-style-number"@
    &&& n.attr_text("level"@) == Some(level)
}

impl Shelf {
    /// What the style of characters with that name says.
    pub open spec fn char_flags(self, name: Seq<char>) -> Option<(bool, bool)> {
        match find_by(self.chars, "name"@, name) {
            Some(style) => Some(flags_of(style)),
            None => None,
        }
    }

    /// Whether the list style with that name numbers the items that stand so deep; nothing where
    /// it does not say.
    pub open spec fn numbers(self, name: Seq<char>, depth: int) -> Option<bool> {
        match find_by(self.lists, "name"@, name) {
            Some(style) => match first(
                style.children@,
                |n: Node| is_level(n, dec(depth as nat)),
            ) {
                Some(i) => Some(
                    style.children@[i].local_name() != "list-level-style-bullet"@,
                ),
                None => None,
            },
            None => None,
        }
    }
}

impl<'a> Styles<'a> {
    spec fn shelf(self) -> Shelf {
        Shelf { chars: nodes(self.chars@), lists: nodes(self.lists@) }
    }

    fn char_flags(&self, name: &str) -> (r: Option<(bool, bool)>)
        ensures
            r == self.shelf().char_flags(name@),
    {
        match find_node(&self.chars, "name", name) {
            Some(style) => Some(read_flags(style)),
            None => None,
        }
    }

    fn list_format(&self, name: &str, depth: u64) -> (r: Option<bool>)
        ensures
            r == self.shelf().numbers(name@, depth as int),
    {
        let style: &Node = match find_node(&self.lists, "name", name) {
            Some(s) => s,
            None => {
                return None;
            },
        };
        let mut level: String = String::new();
        push_dec(&mut level, depth);
        assert(level@ =~= dec(depth as nat));
        let ghost p = |n: Node| is_level(n, dec(depth as nat));
        let c: &Vec<Node> = &style.children;
        let mut i: usize = 0;
        while i < c.len()
            invariant
                i <= c@.len(),
                *c == style.children,
                level@ == dec(depth as nat),
                find_by(self.shelf().lists, "name"@, name@) == Some(*style),
                p == (|n: Node| is_level(n, dec(depth as nat))),
                first(c@, p) == first_from(c@, p, i as int),
            decreases c@.len() - i,
        {
            let n: &Node = &c[i];
            if n.is("list-level-style-bullet") || n.is("list-level-style-number") {
                if let Some(had) = n.attr_local("level") {
                    if same(had, level.as_str()) {
                        return Some(!n.is("list-level-style-bullet"));
                    }
                }
            }
            i += 1;
        }
        None
    }
}

/// What a stretch of a paragraph comes to: its pieces, and what was met in it.
pub struct Line {
    pub pieces: Seq<Piece>,
    pub events: Seq<Event>,
}

/// Two stretches one after the other.
pub open spec fn follow(a: Line, b: Line) -> Line {
    Line { pieces: a.pieces + b.pieces, events: a.events + b.events }
}

/// How many spaces a mark stands for.
pub open spec fn spaces(n: Node) -> int {
    let many = match n.attr_text("c"@) {
        Some(raw) => match unsigned_value(raw, usize::MAX as int) {
            Some(v) => v,
            None => 1,
        },
        None => 1,
    };
    if many < MOST_TIMES {
        many
    } else {
        MOST_TIMES as int
    }
}

fn read_spaces(n: &Node) -> (r: u64)
    ensures
        r == spaces(*n),
{
    let many: u64 = match n.attr_local("c") {
        Some(raw) => match parse_unsigned(raw, usize::MAX as u64) {
            Some(v) => v,
            None => 1,
        },
        None => 1,
    };
    if many < MOST_TIMES {
        many
    } else {
        MOST_TIMES
    }
}

fn ask_or_empty<'a>(n: &'a Node, want: &str) -> (r: &'a str)
    ensures
        r@ == or_empty(n.attr_text(want@)),
{
    match n.attr_local(want) {
        Some(t) => t,
        None => {
            proof {
                reveal_strlit("");
                assert(""@ =~= Seq::empty());
            }
            ""
        },
    }
}

/// The place of the first picture in a frame.
pub open spec fn image_of(frame: Node) -> Seq<char> {
    match first_below(frame, "image"@) {
        Some(n) => or_empty(n.attr_text("href"@)),
        None => Seq::empty(),
    }
}

fn find_image(frame: &Node) -> (r: &str)
    ensures
        r@ == image_of(*frame),
{
    match find_below(frame, "image") {
        Some(n) => ask_or_empty(n, "href"),
        None => {
            proof {
                reveal_strlit("");
                assert(""@ =~= Seq::empty());
            }
            ""
        },
    }
}

/// A stretch with nothing in it.
pub open spec fn nothing() -> Line {
    Line { pieces: Seq::empty(), events: Seq::empty() }
}

/// The stretch of a node of a paragraph. Remarks, notes and lists of changes are left out.
pub open spec fn own_line(
    n: Node,
    sh: Shelf,
    link: Option<Seq<char>>,
    bold: bool,
    italic: bool,
) -> Line
    decreases n,
{
    let local = n.local_name();
    if n.name@ == "#text"@ {
        if n.direct@.len() == 0 {
            nothing()
        } else {
            Line { pieces: seq![words(n.direct@, bold, italic, link)], events: Seq::empty() }
        }
    } else if set_aside(local) is Some {
        Line { pieces: Seq::empty(), events: seq![set_aside(local)->0] }
    } else if local == "soft-page-break"@ {
        nothing()
    } else if local == "s"@ {
        Line {
            pieces: seq![words(repeated(" "@, spaces(n)), bold, italic, link)],
            events: seq![Event::SpaceMarker],
        }
    } else if local == "tab"@ {
        Line { pieces: seq![words("\t"@, bold, italic, link)], events: Seq::empty() }
    } else if local == "line-break"@ {
        Line { pieces: seq![words(seq![HARD], bold, italic, link)], events: Seq::empty() }
    } else if local == "span"@ {
        match sh.char_flags(or_empty(n.attr_text("style-name"@))) {
            Some(f) => inline(n.children@, sh, link, bold || f.0, italic || f.1),
            None => follow(
                Line { pieces: Seq::empty(), events: seq![Event::SpanUnresolved] },
                inline(n.children@, sh, link, bold, italic),
            ),
        }
    } else if local == "a"@ {
        follow(
            Line { pieces: Seq::empty(), events: seq![Event::Link] },
            inline(n.children@, sh, Some(or_empty(n.attr_text("href"@))), bold, italic),
        )
    } else if local == "frame"@ || local == "object"@ {
        Line {
            pieces: seq![pictured(Seq::empty(), image_of(n))],
            events: seq![Event::Image],
        }
    } else {
        inline(n.children@, sh, link, bold, italic)
    }
}

/// The stretches of the nodes of a paragraph. The text behind a child is the parent's and has the
/// parent's shape.
pub open spec fn inline(
    c: Seq<Node>,
    sh: Shelf,
    link: Option<Seq<char>>,
    bold: bool,
    italic: bool,
) -> Line
    decreases c,
{
    if c.len() == 0 {
        nothing()
    } else {
        follow(
            inline(c.drop_last(), sh, link, bold, italic),
            own_line(c.last(), sh, link, bold, italic),
        )
    }
}

/// Appends a piece.
fn say(out: &mut Vec<Seg>, text: &str, bold: bool, italic: bool, link: &Option<String>)
    ensures
        pieces(final(out)@) == pieces(old(out)@) + seq![
            words(text@, bold, italic, text_in(*link)),
        ],
{
    let ghost had = pieces(out@);
    out.push(Seg::said(text, bold, italic, link));
    assert(pieces(out@) =~= had + seq![words(text@, bold, italic, text_in(*link))]);
}

fn odf_node(
    n: &Node,
    styles: &Styles,
    out: &mut Vec<Seg>,
    events: &mut Vec<Event>,
    link: &Option<String>,
    bold: bool,
    italic: bool,
)
    ensures
        ({
            let l = own_line(*n, styles.shelf(), text_in(*link), bold, italic);
            &&& pieces(final(out)@) == pieces(old(out)@) + l.pieces
            &&& final(events)@ == old(events)@ + l.events
        }),
    decreases n, 1int,
{
    let ghost sh = styles.shelf();
    let ghost to = text_in(*link);
    let ghost p0 = pieces(out@);
    let ghost e0 = events@;
    let ghost l = own_line(*n, sh, to, bold, italic);
    assert(p0 + Seq::<Piece>::empty() =~= p0);
    assert(e0 + Seq::<Event>::empty() =~= e0);
    if same(n.name.as_str(), "#text") {
        if n.direct.as_str().unicode_len() > 0 {
            say(out, n.direct.as_str(), bold, italic, link);
        }
    } else if n.is("annotation") {
        events.push(Event::AnnotationDropped);
        assert(events@ =~= e0 + l.events);
    } else if n.is("note") || n.is("tracked-changes") {
        events.push(Event::NoteDropped);
        assert(events@ =~= e0 + l.events);
    } else if n.is("soft-page-break") {
    } else if n.is("s") {
        let mut wide: String = String::new();
        push_times(&mut wide, " ", read_spaces(n));
        assert(wide@ =~= repeated(" "@, spaces(*n)));
        events.push(Event::SpaceMarker);
        say(out, wide.as_str(), bold, italic, link);
        assert(events@ =~= e0 + l.events);
    } else if n.is("tab") {
        say(out, "\t", bold, italic, link);
    } else if n.is("line-break") {
        let mut hard: String = String::new();
        hard.push(HARD);
        assert(hard@ =~= seq![HARD]);
        say(out, hard.as_str(), bold, italic, link);
    } else if n.is("span") {
        match styles.char_flags(ask_or_empty(n, "style-name")) {
            Some(f) => {
                odf_inline(n, styles, out, events, link, bold || f.0, italic || f.1);
            },
            None => {
                events.push(Event::SpanUnresolved);
                odf_inline(n, styles, out, events, link, bold, italic);
                assert(events@ =~= e0 + l.events);
                assert(pieces(out@) =~= p0 + l.pieces);
            },
        }
    } else if n.is("a") {
        events.push(Event::Link);
        let href: Option<String> = Some(ask_or_empty(n, "href").to_owned());
        odf_inline(n, styles, out, events, &href, bold, italic);
        assert(events@ =~= e0 + l.events);
        assert(pieces(out@) =~= p0 + l.pieces);
    } else if n.is("frame") || n.is("object") {
        events.push(Event::Image);
        proof {
            reveal_strlit("");
            assert(""@ =~= Seq::empty());
        }
        out.push(Seg::picture("", find_image(n)));
        assert(events@ =~= e0 + l.events);
        assert(pieces(out@) =~= p0 + l.pieces);
    } else {
        odf_inline(n, styles, out, events, link, bold, italic);
    }
}

fn odf_inline(
    node: &Node,
    styles: &Styles,
    out: &mut Vec<Seg>,
    events: &mut Vec<Event>,
    link: &Option<String>,
    bold: bool,
    italic: bool,
)
    ensures
        ({
            let l = inline(node.children@, styles.shelf(), text_in(*link), bold, italic);
            &&& pieces(final(out)@) == pieces(old(out)@) + l.pieces
            &&& final(events)@ == old(events)@ + l.events
        }),
    decreases node, 0int,
{
    let ghost c = node.children@;
    let ghost sh = styles.shelf();
    let ghost to = text_in(*link);
    let ghost p0 = pieces(out@);
    let ghost e0 = events@;
    let mut i: usize = 0;
    assert(c.take(0) =~= Seq::empty());
    assert(pieces(out@) =~= p0 + inline(c.take(0), sh, to, bold, italic).pieces);
    assert(events@ =~= e0 + inline(c.take(0), sh, to, bold, italic).events);
    while i < node.children.len()
        invariant
            i <= node.children@.len(),
            c == node.children@,
            sh == styles.shelf(),
            to == text_in(*link),
            pieces(out@) == p0 + inline(c.take(i as int), sh, to, bold, italic).pieces,
            events@ == e0 + inline(c.take(i as int), sh, to, bold, italic).events,
        decreases node.children@.len() - i,
    {
        let n: &Node = &node.children[i];
        let ghost done = c.take(i + 1);
        assert(done.drop_last() =~= c.take(i as int));
        assert(done.last() == *n);
        odf_node(n, styles, out, events, link, bold, italic);
        i += 1;
        assert(pieces(out@) =~= p0 + inline(done, sh, to, bold, italic).pieces);
        assert(events@ =~= e0 + inline(done, sh, to, bold, italic).events);
    }
    assert(c.take(i as int) =~= c);
}

/// The stretch that a paragraph is.
pub open spec fn line_of(par: Node, sh: Shelf) -> Line {
    inline(par.children@, sh, None, false, false)
}

fn odf_line(par: &Node, styles: &Styles, events: &mut Vec<Event>, pipe: bool) -> (r: String)
    ensures
        r@ == rendered(line_of(*par, styles.shelf()).pieces, pipe),
        final(events)@ == old(events)@ + line_of(*par, styles.shelf()).events,
{
    let mut segs: Vec<Seg> = Vec::new();
    odf_inline(par, styles, &mut segs, events, &None, false, false);
    assert(pieces(segs@) =~= line_of(*par, styles.shelf()).pieces);
    render(&segs, pipe)
}

/// The lines of a cell and what was met in it.
pub struct Cell {
    pub lines: Seq<Seq<char>>,
    pub events: Seq<Event>,
}

/// The lines of the first `n` paragraphs of a cell that hold something.
pub open spec fn cell_upto(paras: Seq<Node>, sh: Shelf, n: int) -> Cell
    decreases n,
{
    if n <= 0 {
        Cell { lines: Seq::empty(), events: Seq::empty() }
    } else {
        let before = cell_upto(paras, sh, n - 1);
        let l = line_of(paras[n - 1], sh);
        let one = flat(rendered(l.pieces, true));
        Cell {
            lines: if one.len() == 0 {
                before.lines
            } else {
                before.lines.push(one)
            },
            events: before.events + l.events,
        }
    }
}

/// The paragraphs of a cell.
pub open spec fn paras_of(tc: Node) -> Seq<Node> {
    tc.children@.filter(|n: Node| n.local_name() == "p"@ || n.local_name() == "h"@)
}

/// What a cell comes to.
pub open spec fn cell_of(tc: Node, sh: Shelf) -> Cell {
    cell_upto(paras_of(tc), sh, paras_of(tc).len() as int)
}

fn odf_cell_text(tc: &Node, styles: &Styles, events: &mut Vec<Event>) -> (r: String)
    ensures
        r@ == strung(cell_of(*tc, styles.shelf()).lines, "<br>"@),
        final(events)@ == old(events)@ + cell_of(*tc, styles.shelf()).events,
{
    let ghost e0 = events@;
    let ghost sh = styles.shelf();
    let kids: Vec<&Node> = crate::written::kids_of(tc);
    let paras: Vec<&Node> = pick_nodes(
        &kids,
        |n: &Node| -> (b: bool)
            ensures
                b == (n.local_name() == "p"@ || n.local_name() == "h"@)
            { n.is("p") || n.is("h") },
        Ghost(|n: Node| n.local_name() == "p"@ || n.local_name() == "h"@),
    );
    let ghost ps = nodes(paras@);
    let mut bits: Vec<String> = Vec::new();
    let mut i: usize = 0;
    assert(texts(bits@) =~= cell_upto(ps, sh, 0).lines);
    assert(events@ =~= e0 + cell_upto(ps, sh, 0).events);
    while i < paras.len()
        invariant
            i <= paras@.len(),
            ps == nodes(paras@),
            sh == styles.shelf(),
            texts(bits@) == cell_upto(ps, sh, i as int).lines,
            events@ == e0 + cell_upto(ps, sh, i as int).events,
        decreases paras@.len() - i,
    {
        assert(ps[i as int] == *paras@[i as int]);
        let line: String = odf_line(paras[i], styles, events, true);
        let one: String = replace(trim(line.as_str()), '\n', "<br>");
        if one.as_str().unicode_len() > 0 {
            bits.push(one);
        }
        i += 1;
        assert(events@ =~= e0 + cell_upto(ps, sh, i as int).events);
    }
    assert(ps.len() == paras@.len());
    string_together(&bits, "<br>")
}

/// How many columns a cell says it stands for.
pub open spec fn columns(tc: Node) -> int {
    match tc.attr_text("number-columns-repeated"@) {
        Some(raw) => match unsigned_value(raw, usize::MAX as int) {
            Some(n) => n,
            None => 1,
        },
        None => 1,
    }
}

fn read_columns(tc: &Node) -> (r: usize)
    ensures
        r == columns(*tc),
{
    match tc.attr_local("number-columns-repeated") {
        Some(raw) => match parse_unsigned(raw, usize::MAX as u64) {
            Some(n) => n as usize,
            None => 1,
        },
        None => 1,
    }
}

/// The cells of a row and what was met in it.
pub struct Row {
    pub cells: Seq<Seq<char>>,
    pub events: Seq<Event>,
}

/// One event where something holds.
pub open spec fn event_if(b: bool, e: Event) -> Seq<Event> {
    if b {
        seq![e]
    } else {
        Seq::empty()
    }
}

fn note_if(events: &mut Vec<Event>, b: bool, e: Event)
    ensures
        final(events)@ == old(events)@ + event_if(b, e),
{
    let ghost had = events@;
    if b {
        events.push(e);
        assert(events@ =~= had + event_if(b, e));
    } else {
        assert(had + event_if(b, e) =~= had);
    }
}

/// The columns of the first `n` cells. A cell that stands for several columns is set in each, up
/// to a limit.
pub open spec fn row_upto(cells: Seq<Node>, sh: Shelf, n: int) -> Row
    decreases n,
{
    if n <= 0 {
        Row { cells: Seq::empty(), events: Seq::empty() }
    } else {
        let before = row_upto(cells, sh, n - 1);
        let tc = cells[n - 1];
        let one = cell_of(tc, sh);
        let times = columns(tc);
        let shown = if times < MOST_TIMES {
            times as nat
        } else {
            MOST_TIMES as nat
        };
        Row {
            cells: before.cells + Seq::new(shown, |i: int| strung(one.lines, "<br>"@)),
            events: before.events + event_if(
                tc.local_name() == "covered-table-cell"@,
                Event::CoveredCell,
            ) + one.events + event_if(times > 1, Event::RepeatedSpan((times - 1) as usize)),
        }
    }
}

/// The cells of a row.
pub open spec fn cells_of(tr: Node) -> Seq<Node> {
    tr.children@.filter(
        |n: Node|
            n.local_name() == "table-cell"@ || n.local_name() == "covered-table-cell"@,
    )
}

/// What a row comes to.
pub open spec fn row_of(tr: Node, sh: Shelf) -> Row {
    row_upto(cells_of(tr), sh, cells_of(tr).len() as int)
}

fn push_copies(out: &mut Vec<String>, t: &str, n: u64)
    ensures
        texts(final(out)@) == texts(old(out)@) + Seq::new(n as nat, |i: int| t@),
{
    let ghost start = texts(out@);
    let ghost all = Seq::new(n as nat, |i: int| t@);
    let mut i: u64 = 0;
    assert(texts(out@) =~= start + all.take(0));
    while i < n
        invariant
            i <= n,
            all == Seq::new(n as nat, |i: int| t@),
            texts(out@) == start + all.take(i as int),
        decreases n - i,
    {
        out.push(t.to_owned());
        i += 1;
        assert(texts(out@) =~= start + all.take(i as int));
    }
    assert(all.take(i as int) =~= all);
}

fn read_row(tr: &Node, styles: &Styles, events: &mut Vec<Event>) -> (r: Vec<String>)
    ensures
        texts(r@) == row_of(*tr, styles.shelf()).cells,
        final(events)@ == old(events)@ + row_of(*tr, styles.shelf()).events,
{
    let ghost e0 = events@;
    let ghost sh = styles.shelf();
    let kids: Vec<&Node> = crate::written::kids_of(tr);
    let cells: Vec<&Node> = pick_nodes(
        &kids,
        |n: &Node| -> (b: bool)
            ensures
                b == (n.local_name() == "table-cell"@ || n.local_name() == "covered-table-cell"@)
            { n.is("table-cell") || n.is("covered-table-cell") },
        Ghost(
            |n: Node|
                n.local_name() == "table-cell"@ || n.local_name() == "covered-table-cell"@,
        ),
    );
    let ghost cs = nodes(cells@);
    let mut out: Vec<String> = Vec::new();
    let mut i: usize = 0;
    assert(texts(out@) =~= row_upto(cs, sh, 0).cells);
    assert(events@ =~= e0 + row_upto(cs, sh, 0).events);
    while i < cells.len()
        invariant
            i <= cells@.len(),
            cs == nodes(cells@),
            sh == styles.shelf(),
            texts(out@) == row_upto(cs, sh, i as int).cells,
            events@ == e0 + row_upto(cs, sh, i as int).events,
        decreases cells@.len() - i,
    {
        let tc: &Node = cells[i];
        assert(cs[i as int] == *tc);
        note_if(events, tc.is("covered-table-cell"), Event::CoveredCell);
        let made: String = odf_cell_text(tc, styles, events);
        let times: usize = read_columns(tc);
        let more: usize = if times > 1 {
            times - 1
        } else {
            0
        };
        note_if(events, times > 1, Event::RepeatedSpan(more));
        let shown: u64 = if (times as u64) < MOST_TIMES {
            times as u64
        } else {
            MOST_TIMES
        };
        push_copies(&mut out, made.as_str(), shown);
        i += 1;
        assert(texts(out@) =~= row_upto(cs, sh, i as int).cells);
        assert(events@ =~= e0 + row_upto(cs, sh, i as int).events);
    }
    assert(cs.len() == cells@.len());
    out
}

/// The rows of a table and what was met in it.
pub struct Rows {
    pub rows: Seq<Seq<Seq<char>>>,
    pub events: Seq<Event>,
}

/// The first `n` rows of a table.
pub open spec fn rows_upto(trs: Seq<Node>, sh: Shelf, n: int) -> Rows
    decreases n,
{
    if n <= 0 {
        Rows { rows: Seq::empty(), events: Seq::empty() }
    } else {
        let before = rows_upto(trs, sh, n - 1);
        let one = row_of(trs[n - 1], sh);
        Rows { rows: before.rows.push(one.cells), events: before.events + one.events }
    }
}

/// What a table comes to.
pub open spec fn rows_of(tbl: Node, sh: Shelf) -> Rows {
    rows_upto(tbl.all_of("table-row"@), sh, tbl.all_of("table-row"@).len() as int)
}

fn odf_table_md(tbl: &Node, styles: &Styles, events: &mut Vec<Event>) -> (r: String)
    ensures
        r@ == table_text(rows_of(*tbl, styles.shelf()).rows),
        final(events)@ == old(events)@ + rows_of(*tbl, styles.shelf()).events,
{
    let ghost e0 = events@;
    let ghost sh = styles.shelf();
    let trs: Vec<&Node> = tbl.all("table-row");
    let ghost ts = nodes(trs@);
    let mut rows: Vec<Vec<String>> = Vec::new();
    let mut i: usize = 0;
    assert(row_texts(rows@) =~= rows_upto(ts, sh, 0).rows);
    assert(events@ =~= e0 + rows_upto(ts, sh, 0).events);
    while i < trs.len()
        invariant
            i <= trs@.len(),
            ts == nodes(trs@),
            sh == styles.shelf(),
            row_texts(rows@) == rows_upto(ts, sh, i as int).rows,
            events@ == e0 + rows_upto(ts, sh, i as int).events,
        decreases trs@.len() - i,
    {
        assert(ts[i as int] == *trs@[i as int]);
        let ghost had = row_texts(rows@);
        let row: Vec<String> = read_row(trs[i], styles, events);
        rows.push(row);
        assert(row_texts(rows@) =~= had.push(texts(row@)));
        i += 1;
        assert(events@ =~= e0 + rows_upto(ts, sh, i as int).events);
    }
    assert(ts.len() == trs@.len());
    write_table(&rows)
}

/// What a part of the body comes to: its blocks, and what was met in it.
pub struct Outcome {
    pub blocks: Seq<Chunk>,
    pub events: Seq<Event>,
}

/// Two parts one after the other.
pub open spec fn after(a: Outcome, b: Outcome) -> Outcome {
    Outcome { blocks: a.blocks + b.blocks, events: a.events + b.events }
}

/// The level that a heading states.
pub open spec fn stated_level(par: Node) -> Option<int> {
    match par.attr_text("outline-level"@) {
        Some(raw) => match unsigned_value(raw, u32::MAX as int) {
            Some(n) => if n > 0 {
                Some(n)
            } else {
                Some(1)
            },
            None => None,
        },
        None => None,
    }
}

fn read_level(par: &Node) -> (r: Option<u64>)
    ensures
        match r {
            Some(n) => stated_level(*par) == Some(n as int),
            None => stated_level(*par) is None,
        },
{
    match par.attr_local("outline-level") {
        Some(raw) => match parse_unsigned(raw, u32::MAX as u64) {
            Some(n) => if n > 0 {
                Some(n)
            } else {
                Some(1)
            },
            None => None,
        },
        None => None,
    }
}

/// Whether an item in lists of those names, the innermost last, is numbered; nothing where no
/// style says.
pub open spec fn numbered(names: Seq<Option<Seq<char>>>, sh: Shelf) -> Option<bool> {
    match names.last() {
        Some(name) => sh.numbers(name, names.len() as int),
        None => None,
    }
}

/// What a paragraph or a heading in lists of those names comes to.
pub open spec fn emitted(par: Node, sh: Shelf, names: Seq<Option<Seq<char>>>) -> Outcome {
    let l = line_of(par, sh);
    let text = trimmed(rendered(l.pieces, false));
    if text.len() == 0 {
        Outcome { blocks: Seq::empty(), events: l.events + seq![Event::EmptyDropped] }
    } else if par.local_name() == "h"@ && stated_level(par) is Some {
        Outcome {
            blocks: seq![Chunk { item: false, text: heading(stated_level(par)->0, text) }],
            events: l.events + seq![Event::Heading],
        }
    } else if names.len() > 0 {
        let ordered = numbered(names, sh);
        Outcome {
            blocks: seq![
                Chunk {
                    item: true,
                    text: list_item(names.len() - 1, ordered == Some(true), text),
                },
            ],
            events: l.events + seq![Event::ListItem] + if ordered == Some(true) {
                seq![Event::OrderedItem]
            } else {
                event_if(ordered is None, Event::UnresolvedFormat) + seq![Event::BulletItem]
            },
        }
    } else {
        Outcome {
            blocks: seq![Chunk { item: false, text: paragraph(text) }],
            events: l.events + seq![Event::Paragraph],
        }
    }
}

fn add_block(blocks: &mut Vec<Block>, item: bool, text: String)
    ensures
        chunks(final(blocks)@) == chunks(old(blocks)@) + seq![Chunk { item, text: text@ }],
{
    let ghost had = chunks(blocks@);
    let ghost t = text@;
    blocks.push(Block { item, text });
    assert(chunks(blocks@) =~= had + seq![Chunk { item, text: t }]);
}

fn add_event(events: &mut Vec<Event>, e: Event)
    ensures
        final(events)@ == old(events)@ + seq![e],
{
    let ghost had = events@;
    events.push(e);
    assert(events@ =~= had + seq![e]);
}

fn odf_emit(
    par: &Node,
    styles: &Styles,
    names: &Vec<Option<String>>,
    blocks: &mut Vec<Block>,
    events: &mut Vec<Event>,
)
    ensures
        ({
            let o = emitted(*par, styles.shelf(), option_texts(names@));
            &&& chunks(final(blocks)@) == chunks(old(blocks)@) + o.blocks
            &&& final(events)@ == old(events)@ + o.events
        }),
{
    let ghost o = emitted(*par, styles.shelf(), option_texts(names@));
    let ghost b0 = chunks(blocks@);
    let ghost e0 = events@;
    let line: String = odf_line(par, styles, events, false);
    let text: &str = trim(line.as_str());
    if text.unicode_len() == 0 {
        add_event(events, Event::EmptyDropped);
        assert(events@ =~= e0 + o.events);
        assert(b0 + o.blocks =~= b0);
        return ;
    }
    if par.is("h") {
        if let Some(level) = read_level(par) {
            add_event(events, Event::Heading);
            assert(events@ =~= e0 + o.events);
            add_block(blocks, false, write_heading(level, text));
            return ;
        }
    }
    let depth: usize = names.len();
    assert(option_texts(names@).len() == depth);
    if depth > 0 {
        assert(option_texts(names@).last() == text_in(names@[depth - 1]));
        let ordered: Option<bool> = match &names[depth - 1] {
            Some(name) => styles.list_format(name.as_str(), depth as u64),
            None => None,
        };
        add_event(events, Event::ListItem);
        let number: bool = match ordered {
            Some(b) => b,
            None => false,
        };
        if number {
            add_event(events, Event::OrderedItem);
        } else {
            note_if(events, ordered.is_none(), Event::UnresolvedFormat);
            add_event(events, Event::BulletItem);
        }
        assert(events@ =~= e0 + o.events);
        add_block(blocks, true, write_item((depth - 1) as u64, number, text));
        return ;
    }
    add_event(events, Event::Paragraph);
    assert(events@ =~= e0 + o.events);
    add_block(blocks, false, write_paragraph(text));
}

/// What a table comes to. A table without rows is left out.
pub open spec fn tabled(tbl: Node, sh: Shelf) -> Outcome {
    let rows = rows_of(tbl, sh);
    let text = table_text(rows.rows);
    if text.len() == 0 {
        Outcome { blocks: Seq::empty(), events: rows.events }
    } else {
        Outcome {
            blocks: seq![Chunk { item: false, text }],
            events: rows.events + seq![Event::Table(tbl.all_of("table-row"@).len() as usize)],
        }
    }
}

fn add_table(tbl: &Node, styles: &Styles, blocks: &mut Vec<Block>, events: &mut Vec<Event>)
    ensures
        ({
            let o = tabled(*tbl, styles.shelf());
            &&& chunks(final(blocks)@) == chunks(old(blocks)@) + o.blocks
            &&& final(events)@ == old(events)@ + o.events
        }),
{
    let ghost o = tabled(*tbl, styles.shelf());
    let ghost b0 = chunks(blocks@);
    let ghost e0 = events@;
    let made: String = odf_table_md(tbl, styles, events);
    if made.as_str().unicode_len() == 0 {
        assert(b0 + o.blocks =~= b0);
    } else {
        let trs: Vec<&Node> = tbl.all("table-row");
        assert(nodes(trs@).len() == trs@.len());
        add_event(events, Event::Table(trs.len()));
        assert(events@ =~= e0 + o.events);
        add_block(blocks, false, made);
    }
}

/// The name of the style of a list: its own, or that of the list around it.
pub open spec fn list_name(list: Node, names: Seq<Option<Seq<char>>>) -> Option<Seq<char>> {
    match list.attr_text("style-name"@) {
        Some(name) => Some(name),
        None => if names.len() > 0 {
            names.last()
        } else {
            None
        },
    }
}

/// What a remark, a note or a list of changes leaves: its words are no words of the text, and that
/// it was met is all that is told.
pub open spec fn set_aside(local: Seq<char>) -> Option<Event> {
    if local == "annotation"@ {
        Some(Event::AnnotationDropped)
    } else if local == "note"@ || local == "tracked-changes"@ {
        Some(Event::NoteDropped)
    } else {
        None
    }
}

/// What a node of the body in lists of those names comes to. Lists of changes hold paragraphs that
/// are no longer in the text.
pub open spec fn walked(n: Node, sh: Shelf, names: Seq<Option<Seq<char>>>) -> Outcome
    decreases n,
{
    let local = n.local_name();
    if n.name@ == "#text"@ {
        Outcome { blocks: Seq::empty(), events: Seq::empty() }
    } else if set_aside(local) is Some {
        Outcome { blocks: Seq::empty(), events: seq![set_aside(local)->0] }
    } else if local == "h"@ || local == "p"@ {
        emitted(n, sh, names)
    } else if local == "list"@ {
        after(
            Outcome {
                blocks: Seq::empty(),
                events: seq![
                    if n.attr_text("style-name"@) is Some {
                        Event::ListNamed
                    } else {
                        Event::ListUnnamed
                    },
                ],
            },
            walked_all(n.children@, sh, names.push(list_name(n, names))),
        )
    } else if local == "table"@ {
        tabled(n, sh)
    } else {
        walked_all(n.children@, sh, names)
    }
}

/// What nodes of the body in lists of those names come to.
pub open spec fn walked_all(c: Seq<Node>, sh: Shelf, names: Seq<Option<Seq<char>>>) -> Outcome
    decreases c,
{
    if c.len() == 0 {
        Outcome { blocks: Seq::empty(), events: Seq::empty() }
    } else {
        after(walked_all(c.drop_last(), sh, names), walked(c.last(), sh, names))
    }
}

fn walk_node(
    n: &Node,
    styles: &Styles,
    names: &mut Vec<Option<String>>,
    blocks: &mut Vec<Block>,
    events: &mut Vec<Event>,
)
    ensures
        final(names)@ == old(names)@,
        ({
            let o = walked(*n, styles.shelf(), option_texts(old(names)@));
            &&& chunks(final(blocks)@) == chunks(old(blocks)@) + o.blocks
            &&& final(events)@ == old(events)@ + o.events
        }),
    decreases n, 1int,
{
    let ghost o = walked(*n, styles.shelf(), option_texts(names@));
    let ghost b0 = chunks(blocks@);
    let ghost e0 = events@;
    if same(n.name.as_str(), "#text") {
        assert(b0 + o.blocks =~= b0);
        assert(e0 + o.events =~= e0);
    } else if n.is("annotation") {
        add_event(events, Event::AnnotationDropped);
        assert(b0 + o.blocks =~= b0);
    } else if n.is("note") || n.is("tracked-changes") {
        add_event(events, Event::NoteDropped);
        assert(b0 + o.blocks =~= b0);
    } else if n.is("h") || n.is("p") {
        odf_emit(n, styles, names, blocks, events);
    } else if n.is("list") {
        let ghost around = names@;
        let depth: usize = names.len();
        assert(option_texts(names@).len() == depth);
        let name: Option<String> = match n.attr_local("style-name") {
            Some(own) => {
                add_event(events, Event::ListNamed);
                Some(own.to_owned())
            },
            None => {
                add_event(events, Event::ListUnnamed);
                if depth > 0 {
                    assert(option_texts(names@).last() == text_in(names@[depth - 1]));
                    copied(&names[depth - 1])
                } else {
                    None
                }
            },
        };
        let ghost inner = option_texts(around).push(text_in(name));
        names.push(name);
        assert(option_texts(names@) =~= inner);
        walk(n, styles, names, blocks, events);
        names.pop();
        assert(names@ =~= around);
        assert(chunks(blocks@) =~= b0 + o.blocks);
        assert(events@ =~= e0 + o.events);
    } else if n.is("table") {
        add_table(n, styles, blocks, events);
    } else {
        walk(n, styles, names, blocks, events);
    }
}

fn walk(
    node: &Node,
    styles: &Styles,
    names: &mut Vec<Option<String>>,
    blocks: &mut Vec<Block>,
    events: &mut Vec<Event>,
)
    ensures
        final(names)@ == old(names)@,
        ({
            let o = walked_all(node.children@, styles.shelf(), option_texts(old(names)@));
            &&& chunks(final(blocks)@) == chunks(old(blocks)@) + o.blocks
            &&& final(events)@ == old(events)@ + o.events
        }),
    decreases node, 0int,
{
    let ghost c = node.children@;
    let ghost sh = styles.shelf();
    let ghost around = names@;
    let ghost ns = option_texts(names@);
    let ghost b0 = chunks(blocks@);
    let ghost e0 = events@;
    let mut i: usize = 0;
    assert(c.take(0) =~= Seq::empty());
    assert(chunks(blocks@) =~= b0 + walked_all(c.take(0), sh, ns).blocks);
    assert(events@ =~= e0 + walked_all(c.take(0), sh, ns).events);
    while i < node.children.len()
        invariant
            i <= node.children@.len(),
            c == node.children@,
            sh == styles.shelf(),
            names@ == around,
            ns == option_texts(around),
            chunks(blocks@) == b0 + walked_all(c.take(i as int), sh, ns).blocks,
            events@ == e0 + walked_all(c.take(i as int), sh, ns).events,
        decreases node.children@.len() - i,
    {
        let n: &Node = &node.children[i];
        let ghost done = c.take(i + 1);
        assert(done.drop_last() =~= c.take(i as int));
        assert(done.last() == *n);
        walk_node(n, styles, names, blocks, events);
        i += 1;
        assert(chunks(blocks@) =~= b0 + walked_all(done, sh, ns).blocks);
        assert(events@ =~= e0 + walked_all(done, sh, ns).events);
    }
    assert(c.take(i as int) =~= c);
}

/// What a document comes to.
pub open spec fn outcome(content: Node, styles: Option<Node>) -> Outcome {
    match first_below(content, "body"@) {
        Some(body) => match body.child_of("text"@) {
            Some(text) => walked_all(
                text.children@,
                shelf_of(content, styles),
                Seq::empty(),
            ),
            None => Outcome { blocks: Seq::empty(), events: Seq::empty() },
        },
        None => Outcome { blocks: Seq::empty(), events: Seq::empty() },
    }
}

/// How many rows the tables among the first `n` events have.
pub open spec fn table_rows(e: Seq<Event>, n: int) -> nat
    decreases n,
{
    if n <= 0 {
        0
    } else {
        table_rows(e, n - 1) + match e[n - 1] {
            Event::Table(rows) => rows as nat,
            _ => 0,
        }
    }
}

/// How many columns more the cells among the first `n` events stand for.
pub open spec fn more_columns(e: Seq<Event>, n: int) -> nat
    decreases n,
{
    if n <= 0 {
        0
    } else {
        more_columns(e, n - 1) + match e[n - 1] {
            Event::RepeatedSpan(more) => more as nat,
            _ => 0,
        }
    }
}

/// The event at a place is of that kind.
pub open spec fn is_kind(e: Seq<Event>, kind: Event) -> spec_fn(int) -> bool {
    |i: int| e[i] == kind
}

/// How many of the events are of one kind.
pub open spec fn met(e: Seq<Event>, kind: Event) -> nat {
    tally(is_kind(e, kind), e.len() as int)
}

fn count(events: &Vec<Event>, kind: Event) -> (r: usize)
    ensures
        r == met(events@, kind),
{
    count_those(
        events.len(),
        |i: usize| -> (b: bool)
            requires
                i < events@.len()
            ensures
                b == (events@[i as int] == kind)
            { events[i] == kind },
        Ghost(is_kind(events@, kind)),
    )
}

/// A document as Markdown, and what was met on the way.
#[derive(Debug, Clone)]
pub struct Report {
    pub shown: Shown,
    pub blocks: usize,
    pub paragraphs: usize,
    pub headings: usize,
    pub list_items: usize,
    pub bullet_items: usize,
    pub ordered_items: usize,
    pub unresolved_fmt: usize,
    pub tables: usize,
    pub table_rows: u128,
    pub empty_dropped: usize,
    pub lists_named: usize,
    pub lists_unnamed: usize,
    pub spans_unresolved: usize,
    pub annotations_dropped: usize,
    pub notes_dropped: usize,
    pub space_markers: usize,
    pub links: usize,
    pub images: usize,
    pub covered_cells: usize,
    pub repeated_spans: u128,
}

impl Report {
    pub open spec fn describes(self, o: Outcome, budget: usize) -> bool {
        let e = o.events;
        &&& self.shown.describes(whole_text(o.blocks), budget)
        &&& self.blocks == o.blocks.len()
        &&& self.paragraphs == met(e, Event::Paragraph)
        &&& self.headings == met(e, Event::Heading)
        &&& self.list_items == met(e, Event::ListItem)
        &&& self.bullet_items == met(e, Event::BulletItem)
        &&& self.ordered_items == met(e, Event::OrderedItem)
        &&& self.unresolved_fmt == met(e, Event::UnresolvedFormat)
        &&& self.tables == tally(|i: int| e[i] is Table, e.len() as int)
        &&& self.table_rows == table_rows(e, e.len() as int)
        &&& self.empty_dropped == met(e, Event::EmptyDropped)
        &&& self.lists_named == met(e, Event::ListNamed)
        &&& self.lists_unnamed == met(e, Event::ListUnnamed)
        &&& self.spans_unresolved == met(e, Event::SpanUnresolved)
        &&& self.annotations_dropped == met(e, Event::AnnotationDropped)
        &&& self.notes_dropped == met(e, Event::NoteDropped)
        &&& self.space_markers == met(e, Event::SpaceMarker)
        &&& self.links == met(e, Event::Link)
        &&& self.images == met(e, Event::Image)
        &&& self.covered_cells == met(e, Event::CoveredCell)
        &&& self.repeated_spans == more_columns(e, e.len() as int)
    }
}

fn count_rows(events: &Vec<Event>) -> (r: u128)
    ensures
        r == table_rows(events@, events@.len() as int),
{
    let mut sum: u128 = 0;
    let mut i: usize = 0;
    while i < events.len()
        invariant
            i <= events@.len(),
            sum == table_rows(events@, i as int),
            sum <= 0xffff_ffff_ffff_ffff * i,
        decreases events@.len() - i,
    {
        match events[i] {
            Event::Table(rows) => {
                sum = sum + rows as u128;
            },
            _ => {},
        }
        i += 1;
    }
    sum
}

fn count_columns(events: &Vec<Event>) -> (r: u128)
    ensures
        r == more_columns(events@, events@.len() as int),
{
    let mut sum: u128 = 0;
    let mut i: usize = 0;
    while i < events.len()
        invariant
            i <= events@.len(),
            sum == more_columns(events@, i as int),
            sum <= 0xffff_ffff_ffff_ffff * i,
        decreases events@.len() - i,
    {
        match events[i] {
            Event::RepeatedSpan(more) => {
                sum = sum + more as u128;
            },
            _ => {},
        }
        i += 1;
    }
    sum
}

fn count_tables(events: &Vec<Event>) -> (r: usize)
    ensures
        r == tally(|i: int| events@[i] is Table, events@.len() as int),
{
    count_those(
        events.len(),
        |i: usize| -> (b: bool)
            requires
                i < events@.len()
            ensures
                b == (events@[i as int] is Table)
            {
                match events[i] {
                    Event::Table(_) => true,
                    _ => false,
                }
            },
        Ghost(|i: int| events@[i] is Table),
    )
}

/// Writes the body of a document as Markdown. Nothing where the content could not be read.
pub fn odf(content: Option<&Node>, styles: Option<&Node>, budget: usize) -> (r: Option<Report>)
    ensures
        match (content, r) {
            (Some(root), Some(m)) => m.describes(outcome(*root, node_in(styles)), budget),
            (None, None) => true,
            _ => false,
        },
{
    let root: &Node = match content {
        Some(c) => c,
        None => {
            return None;
        },
    };
    let shelf: Styles = collect_odf_styles(root, styles);
    let mut names: Vec<Option<String>> = Vec::new();
    let mut blocks: Vec<Block> = Vec::new();
    let mut events: Vec<Event> = Vec::new();
    let ghost o = outcome(*root, node_in(styles));
    assert(option_texts(names@) =~= Seq::empty());
    assert(chunks(blocks@) =~= Seq::empty());
    if let Some(body) = find_below(root, "body") {
        if let Some(text) = body.child("text") {
            walk(text, &shelf, &mut names, &mut blocks, &mut events);
        }
    }
    assert(chunks(blocks@) =~= o.blocks);
    assert(events@ =~= o.events);
    assert(chunks(blocks@).len() == blocks@.len());
    let whole: String = join_blocks(&blocks);
    Some(
        Report {
            shown: cut_text(whole.as_str(), budget),
            blocks: blocks.len(),
            paragraphs: count(&events, Event::Paragraph),
            headings: count(&events, Event::Heading),
            list_items: count(&events, Event::ListItem),
            bullet_items: count(&events, Event::BulletItem),
            ordered_items: count(&events, Event::OrderedItem),
            unresolved_fmt: count(&events, Event::UnresolvedFormat),
            tables: count_tables(&events),
            table_rows: count_rows(&events),
            empty_dropped: count(&events, Event::EmptyDropped),
            lists_named: count(&events, Event::ListNamed),
            lists_unnamed: count(&events, Event::ListUnnamed),
            spans_unresolved: count(&events, Event::SpanUnresolved),
            annotations_dropped: count(&events, Event::AnnotationDropped),
            notes_dropped: count(&events, Event::NoteDropped),
            space_markers: count(&events, Event::SpaceMarker),
            links: count(&events, Event::Link),
            images: count(&events, Event::Image),
            covered_cells: count(&events, Event::CoveredCell),
            repeated_spans: count_columns(&events),
        },
    )
}

/// An event that stands for a block.
pub open spec fn makes_block(e: Event) -> bool {
    e is Paragraph || e is Heading || e is ListItem || e is Table
}

/// What an event adds: one for each block, or one for each item less one for each bullet and each
/// number.
pub open spec fn adds(e: Event, items: bool) -> int {
    if items {
        match e {
            Event::ListItem => 1,
            Event::BulletItem => -1,
            Event::OrderedItem => -1,
            _ => 0,
        }
    } else if makes_block(e) {
        1
    } else {
        0
    }
}

/// What events add together.
pub open spec fn made(e: Seq<Event>, items: bool) -> int
    decreases e.len(),
{
    if e.len() == 0 {
        0
    } else {
        made(e.drop_last(), items) + adds(e.last(), items)
    }
}

proof fn lemma_made_joins(a: Seq<Event>, b: Seq<Event>, items: bool)
    ensures
        made(a + b, items) == made(a, items) + made(b, items),
    decreases b.len(),
{
    if b.len() == 0 {
        assert(a + b =~= a);
    } else {
        lemma_made_joins(a, b.drop_last(), items);
        assert((a + b).drop_last() =~= a + b.drop_last());
    }
}

proof fn lemma_made_one(e: Event, items: bool)
    ensures
        made(seq![e], items) == adds(e, items),
        made(Seq::empty(), items) == 0,
{
    assert(seq![e].drop_last() =~= Seq::empty());
    assert(made(seq![e].drop_last(), items) == 0);
}

proof fn lemma_line_makes_none(
    n: Node,
    sh: Shelf,
    link: Option<Seq<char>>,
    bold: bool,
    italic: bool,
    items: bool,
)
    ensures
        made(own_line(n, sh, link, bold, italic).events, items) == 0,
    decreases n,
{
    lemma_made_one(Event::AnnotationDropped, items);
    lemma_made_one(Event::NoteDropped, items);
    lemma_made_one(Event::SpaceMarker, items);
    lemma_made_one(Event::SpanUnresolved, items);
    lemma_made_one(Event::Link, items);
    lemma_made_one(Event::Image, items);
    let href = Some(or_empty(n.attr_text("href"@)));
    let flags = sh.char_flags(or_empty(n.attr_text("style-name"@)));
    lemma_lines_make_none(n.children@, sh, link, bold, italic, items);
    lemma_lines_make_none(n.children@, sh, href, bold, italic, items);
    lemma_made_joins(
        seq![Event::SpanUnresolved],
        inline(n.children@, sh, link, bold, italic).events,
        items,
    );
    lemma_made_joins(seq![Event::Link], inline(n.children@, sh, href, bold, italic).events, items);
    if let Some(f) = flags {
        lemma_lines_make_none(n.children@, sh, link, bold || f.0, italic || f.1, items);
    }
}

proof fn lemma_lines_make_none(
    c: Seq<Node>,
    sh: Shelf,
    link: Option<Seq<char>>,
    bold: bool,
    italic: bool,
    items: bool,
)
    ensures
        made(inline(c, sh, link, bold, italic).events, items) == 0,
    decreases c,
{
    lemma_made_one(Event::Link, items);
    if c.len() > 0 {
        lemma_lines_make_none(c.drop_last(), sh, link, bold, italic, items);
        lemma_line_makes_none(c.last(), sh, link, bold, italic, items);
        lemma_made_joins(
            inline(c.drop_last(), sh, link, bold, italic).events,
            own_line(c.last(), sh, link, bold, italic).events,
            items,
        );
    }
}

proof fn lemma_cell_makes_none(paras: Seq<Node>, sh: Shelf, n: int, items: bool)
    ensures
        made(cell_upto(paras, sh, n).events, items) == 0,
    decreases n,
{
    lemma_made_one(Event::Link, items);
    if n > 0 {
        lemma_cell_makes_none(paras, sh, n - 1, items);
        lemma_lines_make_none(paras[n - 1].children@, sh, None, false, false, items);
        lemma_made_joins(
            cell_upto(paras, sh, n - 1).events,
            line_of(paras[n - 1], sh).events,
            items,
        );
    }
}

proof fn lemma_row_makes_none(cells: Seq<Node>, sh: Shelf, n: int, items: bool)
    ensures
        made(row_upto(cells, sh, n).events, items) == 0,
    decreases n,
{
    lemma_made_one(Event::CoveredCell, items);
    if n > 0 {
        let tc = cells[n - 1];
        let before = row_upto(cells, sh, n - 1).events;
        let a = event_if(tc.local_name() == "covered-table-cell"@, Event::CoveredCell);
        let b = cell_of(tc, sh).events;
        let span = Event::RepeatedSpan((columns(tc) - 1) as usize);
        let c = event_if(columns(tc) > 1, span);
        lemma_made_one(span, items);
        lemma_row_makes_none(cells, sh, n - 1, items);
        lemma_cell_makes_none(paras_of(tc), sh, paras_of(tc).len() as int, items);
        lemma_made_joins(before, a, items);
        lemma_made_joins(before + a, b, items);
        lemma_made_joins(before + a + b, c, items);
    }
}

proof fn lemma_rows_make_none(trs: Seq<Node>, sh: Shelf, n: int, items: bool)
    ensures
        made(rows_upto(trs, sh, n).events, items) == 0,
    decreases n,
{
    lemma_made_one(Event::Link, items);
    if n > 0 {
        let cells = cells_of(trs[n - 1]);
        lemma_rows_make_none(trs, sh, n - 1, items);
        lemma_row_makes_none(cells, sh, cells.len() as int, items);
        lemma_made_joins(rows_upto(trs, sh, n - 1).events, row_of(trs[n - 1], sh).events, items);
    }
}

proof fn lemma_emitted_counts(par: Node, sh: Shelf, names: Seq<Option<Seq<char>>>, items: bool)
    ensures
        made(emitted(par, sh, names).events, items) == if items {
            0
        } else {
            emitted(par, sh, names).blocks.len() as int
        },
{
    let l = line_of(par, sh).events;
    lemma_lines_make_none(par.children@, sh, None, false, false, items);
    lemma_made_one(Event::EmptyDropped, items);
    lemma_made_one(Event::Heading, items);
    lemma_made_one(Event::ListItem, items);
    lemma_made_one(Event::OrderedItem, items);
    lemma_made_one(Event::UnresolvedFormat, items);
    lemma_made_one(Event::BulletItem, items);
    lemma_made_one(Event::Paragraph, items);
    lemma_made_joins(l, seq![Event::EmptyDropped], items);
    lemma_made_joins(l, seq![Event::Heading], items);
    lemma_made_joins(l, seq![Event::Paragraph], items);
    lemma_made_joins(l, seq![Event::ListItem], items);
    let item = l + seq![Event::ListItem];
    let open = event_if(numbered(names, sh) is None, Event::UnresolvedFormat);
    lemma_made_joins(item, seq![Event::OrderedItem], items);
    lemma_made_joins(open, seq![Event::BulletItem], items);
    lemma_made_joins(item, open + seq![Event::BulletItem], items);
}

proof fn lemma_counted_once(
    n: Node,
    sh: Shelf,
    names: Seq<Option<Seq<char>>>,
    items: bool,
)
    ensures
        made(walked(n, sh, names).events, items) == if items {
            0
        } else {
            walked(n, sh, names).blocks.len() as int
        },
    decreases n,
{
    lemma_made_one(Event::ListNamed, items);
    lemma_made_one(Event::ListUnnamed, items);
    lemma_made_one(Event::AnnotationDropped, items);
    lemma_made_one(Event::NoteDropped, items);
    let local = n.local_name();
    if n.name@ == "#text"@ || set_aside(local) is Some {
    } else if local == "h"@ || local == "p"@ {
        lemma_emitted_counts(n, sh, names, items);
    } else if local == "list"@ {
        let inner = names.push(list_name(n, names));
        lemma_all_counted_once(n.children@, sh, inner, items);
        let below = walked_all(n.children@, sh, inner).events;
        lemma_made_joins(seq![Event::ListNamed], below, items);
        lemma_made_joins(seq![Event::ListUnnamed], below, items);
    } else if local == "table"@ {
        let trs = n.all_of("table-row"@);
        let table = Event::Table(trs.len() as usize);
        lemma_rows_make_none(trs, sh, trs.len() as int, items);
        lemma_made_one(table, items);
        lemma_made_joins(rows_of(n, sh).events, seq![table], items);
    } else {
        lemma_all_counted_once(n.children@, sh, names, items);
    }
}

proof fn lemma_all_counted_once(c: Seq<Node>, sh: Shelf, names: Seq<Option<Seq<char>>>, items: bool)
    ensures
        made(walked_all(c, sh, names).events, items) == if items {
            0
        } else {
            walked_all(c, sh, names).blocks.len() as int
        },
    decreases c,
{
    lemma_made_one(Event::ListNamed, items);
    if c.len() > 0 {
        lemma_all_counted_once(c.drop_last(), sh, names, items);
        lemma_counted_once(c.last(), sh, names, items);
        lemma_made_joins(
            walked_all(c.drop_last(), sh, names).events,
            walked(c.last(), sh, names).events,
            items,
        );
    }
}

proof fn lemma_outcome_counted(content: Node, styles: Option<Node>, items: bool)
    ensures
        made(outcome(content, styles).events, items) == if items {
            0
        } else {
            outcome(content, styles).blocks.len() as int
        },
{
    if let Some(body) = first_below(content, "body"@) {
        if let Some(text) = body.child_of("text"@) {
            lemma_all_counted_once(
                text.children@,
                shelf_of(content, styles),
                Seq::empty(),
                items,
            );
        }
    }
}

/// The first `n` events add what is counted of their kinds.
proof fn lemma_made_is_met(e: Seq<Event>, n: int)
    requires
        0 <= n <= e.len(),
    ensures
        made(e.take(n), false) == tally(is_kind(e, Event::Paragraph), n) + tally(
            is_kind(e, Event::Heading),
            n,
        ) + tally(is_kind(e, Event::ListItem), n) + tally(|i: int| e[i] is Table, n),
        made(e.take(n), true) == tally(is_kind(e, Event::ListItem), n) - tally(
            is_kind(e, Event::BulletItem),
            n,
        ) - tally(is_kind(e, Event::OrderedItem), n),
    decreases n,
{
    if n > 0 {
        lemma_made_is_met(e, n - 1);
        assert(e.take(n).drop_last() =~= e.take(n - 1));
        assert(e.take(n).last() == e[n - 1]);
    }
}

/// Every block of a document is counted as a paragraph, a heading, an item or a table, once.
pub proof fn law_each_block_is_counted_once(
    content: Node,
    styles: Option<Node>,
    r: Report,
    budget: usize,
)
    requires
        r.describes(outcome(content, styles), budget),
    ensures
        r.paragraphs + r.headings + r.list_items + r.tables == r.blocks,
{
    let e = outcome(content, styles).events;
    lemma_outcome_counted(content, styles, false);
    lemma_made_is_met(e, e.len() as int);
    assert(e.take(e.len() as int) =~= e);
}

/// Every item of a list is set with a bullet or with a number, never with both.
pub proof fn law_items_are_bullets_or_numbers(
    content: Node,
    styles: Option<Node>,
    r: Report,
    budget: usize,
)
    requires
        r.describes(outcome(content, styles), budget),
    ensures
        r.bullet_items + r.ordered_items == r.list_items,
{
    let e = outcome(content, styles).events;
    lemma_outcome_counted(content, styles, true);
    lemma_made_is_met(e, e.len() as int);
    assert(e.take(e.len() as int) =~= e);
}

/// A report under a larger budget shows at least what one under a smaller budget shows, and both
/// say how long the whole text is. A text is cut exactly where it is longer than its budget.
pub proof fn law_a_larger_budget_shows_more(
    content: Node,
    styles: Option<Node>,
    a: Report,
    small: usize,
    b: Report,
    large: usize,
)
    requires
        a.describes(outcome(content, styles), small),
        b.describes(outcome(content, styles), large),
        small <= large,
    ensures
        a.shown.chars == b.shown.chars,
        a.shown.text@.is_prefix_of(b.shown.text@),
        a.shown.text@.len() == if a.shown.chars < small {
            a.shown.chars
        } else {
            small
        },
        a.shown.cut <==> a.shown.chars > small,
{
    let whole = whole_text(outcome(content, styles).blocks);
    law_a_longer_cut_holds_a_shorter(whole, a.shown, small, b.shown, large);
}

/// Blanks that an element stands for.
proof fn lemma_blanks(n: int)
    requires
        0 <= n,
    ensures
        repeated(" "@, n) == Seq::new(n as nat, |i: int| ' '),
    decreases n,
{
    reveal_strlit(" ");
    if n > 0 {
        lemma_blanks(n - 1);
    }
    assert(repeated(" "@, n) =~= Seq::new(n as nat, |i: int| ' '));
}

/// The marks inside a paragraph: a run of text has the shape that holds where it stands, a mark
/// for blanks is as many as it says, a tab and a line break are one character each, and a picture
/// is its place.
#[verifier::rlimit(40)]
pub proof fn law_marks_of_a_line(
    n: Node,
    sh: Shelf,
    link: Option<Seq<char>>,
    bold: bool,
    italic: bool,
)
    ensures
        n.name@ == "#text"@ && n.direct@.len() > 0 ==> {
            let l = own_line(n, sh, link, bold, italic);
            &&& l.pieces == seq![Piece { text: n.direct@, bold, italic, link, image: None }]
            &&& l.events.len() == 0
        },
        n.name@ == "#text"@ && n.direct@.len() == 0 || n.name@ != "#text"@ && n.local_name()
            == "soft-page-break"@ ==> {
            let l = own_line(n, sh, link, bold, italic);
            l.pieces.len() == 0 && l.events.len() == 0
        },
        n.name@ != "#text"@ && n.local_name() == "s"@ ==> {
            let l = own_line(n, sh, link, bold, italic);
            &&& l.pieces == seq![
                Piece {
                    text: Seq::new(spaces(n) as nat, |i: int| ' '),
                    bold,
                    italic,
                    link,
                    image: None,
                },
            ]
            &&& l.events == seq![Event::SpaceMarker]
        },
        n.name@ != "#text"@ && n.local_name() == "tab"@ ==> {
            let l = own_line(n, sh, link, bold, italic);
            &&& l.pieces == seq![Piece { text: seq!['\t'], bold, italic, link, image: None }]
            &&& l.events.len() == 0
        },
        n.name@ != "#text"@ && n.local_name() == "line-break"@ ==> {
            let l = own_line(n, sh, link, bold, italic);
            &&& l.pieces == seq![Piece { text: seq!['\u{0}'], bold, italic, link, image: None }]
            &&& l.events.len() == 0
        },
        n.name@ != "#text"@ && (n.local_name() == "frame"@ || n.local_name() == "object"@) ==> {
            let l = own_line(n, sh, link, bold, italic);
            &&& l.pieces.len() == 1
            &&& l.pieces[0].text.len() == 0
            &&& l.pieces[0].image == Some((Seq::<char>::empty(), image_of(n)))
            &&& l.events == seq![Event::Image]
        },
        n.name@ != "#text"@ && n.local_name() == "annotation"@ ==> {
            let l = own_line(n, sh, link, bold, italic);
            l.pieces.len() == 0 && l.events == seq![Event::AnnotationDropped]
        },
        n.name@ != "#text"@ && (n.local_name() == "note"@ || n.local_name() == "tracked-changes"@)
            ==> {
            let l = own_line(n, sh, link, bold, italic);
            l.pieces.len() == 0 && l.events == seq![Event::NoteDropped]
        },
{
    lemma_line_words();
    if n.local_name() == "s"@ {
        lemma_spaces(n);
        lemma_blanks(spaces(n));
    }
    reveal_strlit("\t");
    assert("\t"@ =~= seq!['\t']);
}

proof fn lemma_spaces(n: Node)
    ensures
        0 <= spaces(n) <= 64,
{
    match n.attr_text("c"@) {
        Some(raw) => crate::words::law_numbers_keep_their_range(raw, usize::MAX as int),
        None => {},
    }
}

proof fn lemma_line_words()
    ensures
        "s"@.len() == 1,
        "a"@.len() == 1,
        "s"@ != "a"@,
        "p"@.len() == 1,
        "h"@.len() == 1,
        "p"@ != "h"@,
        "tab"@.len() == 3,
        "span"@.len() == 4,
        "note"@.len() == 4,
        "list"@.len() == 4,
        "span"@ != "note"@,
        "list"@ != "note"@,
        "frame"@.len() == 5,
        "table"@.len() == 5,
        "object"@.len() == 6,
        "line-break"@.len() == 10,
        "annotation"@.len() == 10,
        "line-break"@ != "annotation"@,
        "soft-page-break"@.len() == 15,
        "tracked-changes"@.len() == 15,
        "soft-page-break"@ != "tracked-changes"@,
{
    reveal_strlit("s");
    reveal_strlit("a");
    reveal_strlit("p");
    reveal_strlit("h");
    reveal_strlit("tab");
    reveal_strlit("span");
    reveal_strlit("note");
    reveal_strlit("list");
    reveal_strlit("frame");
    reveal_strlit("table");
    reveal_strlit("object");
    reveal_strlit("line-break");
    reveal_strlit("annotation");
    reveal_strlit("soft-page-break");
    reveal_strlit("tracked-changes");
    assert("s"@[0] == 's' && "a"@[0] == 'a' && "p"@[0] == 'p' && "h"@[0] == 'h');
    assert("span"@[0] == 's' && "note"@[0] == 'n' && "list"@[0] == 'l');
    assert("line-break"@[0] == 'l' && "annotation"@[0] == 'a');
    assert("soft-page-break"@[0] == 's' && "tracked-changes"@[0] == 't');
}

/// What holds other marks hands them its shape: a stretch with a style of its own adds what the
/// style says, a link adds its place, and everything else adds nothing.
#[verifier::rlimit(40)]
pub proof fn law_what_holds_marks(
    n: Node,
    sh: Shelf,
    link: Option<Seq<char>>,
    bold: bool,
    italic: bool,
)
    requires
        n.name@ != "#text"@,
    ensures
        n.local_name() == "a"@ ==> {
            let l = own_line(n, sh, link, bold, italic);
            let to = match n.attr_text("href"@) {
                Some(t) => t,
                None => Seq::empty(),
            };
            let inner = inline(n.children@, sh, Some(to), bold, italic);
            l.pieces == inner.pieces && l.events == seq![Event::Link] + inner.events
        },
        n.local_name() == "span"@ && n.attr_text("style-name"@) is Some && sh.char_flags(
            n.attr_text("style-name"@)->0,
        ) is Some ==> {
            let says = sh.char_flags(n.attr_text("style-name"@)->0)->0;
            own_line(n, sh, link, bold, italic) == inline(
                n.children@,
                sh,
                link,
                bold || says.0,
                italic || says.1,
            )
        },
        n.local_name() == "span"@ && n.attr_text("style-name"@) is Some && sh.char_flags(
            n.attr_text("style-name"@)->0,
        ) is None ==> {
            let l = own_line(n, sh, link, bold, italic);
            let inner = inline(n.children@, sh, link, bold, italic);
            l.pieces == inner.pieces && l.events == seq![Event::SpanUnresolved] + inner.events
        },
        !(n.local_name() == "a"@ || n.local_name() == "span"@ || n.local_name() == "s"@
            || n.local_name() == "tab"@ || n.local_name() == "line-break"@ || n.local_name()
            == "frame"@ || n.local_name() == "object"@ || n.local_name() == "annotation"@
            || n.local_name() == "note"@ || n.local_name() == "tracked-changes"@ || n.local_name()
            == "soft-page-break"@) ==> own_line(n, sh, link, bold, italic) == inline(
            n.children@,
            sh,
            link,
            bold,
            italic,
        ),
{
    lemma_line_words();
    let to = or_empty(n.attr_text("href"@));
    let e = Seq::<Piece>::empty();
    assert(e + inline(n.children@, sh, Some(to), bold, italic).pieces =~= inline(
        n.children@,
        sh,
        Some(to),
        bold,
        italic,
    ).pieces);
    assert(e + inline(n.children@, sh, link, bold, italic).pieces =~= inline(
        n.children@,
        sh,
        link,
        bold,
        italic,
    ).pieces);
}

/// The marks of a paragraph are read one after another.
pub proof fn law_marks_are_read_in_order(
    c: Seq<Node>,
    n: Node,
    sh: Shelf,
    link: Option<Seq<char>>,
    bold: bool,
    italic: bool,
)
    ensures
        inline(Seq::empty(), sh, link, bold, italic).pieces.len() == 0,
        inline(Seq::empty(), sh, link, bold, italic).events.len() == 0,
        inline(c.push(n), sh, link, bold, italic).pieces == inline(
            c,
            sh,
            link,
            bold,
            italic,
        ).pieces + own_line(n, sh, link, bold, italic).pieces,
        inline(c.push(n), sh, link, bold, italic).events == inline(
            c,
            sh,
            link,
            bold,
            italic,
        ).events + own_line(n, sh, link, bold, italic).events,
{
    assert(c.push(n).drop_last() =~= c);
}

/// A mark for blanks is one blank unless it says how many, and never more than 64.
pub proof fn law_how_many_blanks_a_mark_is(n: Node)
    ensures
        n.attr_text("c"@) is None ==> spaces(n) == 1,
        n.attr_text("c"@) matches Some(raw) ==> match unsigned_value(raw, usize::MAX as int) {
            Some(v) => spaces(n) == if v < 64 {
                v
            } else {
                64
            },
            None => spaces(n) == 1,
        },
{
}

/// A style of characters is bold where its weight is given and neither `normal` nor `0`, and
/// slanted where its slant is given and none of `normal`, `none` and `0`. The first style of a
/// name counts, and what it says stands in its `text-properties`.
pub proof fn law_what_a_style_of_characters_says(sh: Shelf, k: int, name: Seq<char>, props: Node)
    requires
        0 <= k < sh.chars.len(),
        sh.chars[k].attr_text("name"@) == Some(name),
        forall|j: int| 0 <= j < k ==> (#[trigger] sh.chars[j]).attr_text("name"@) != Some(name),
        sh.chars[k].child_of("text-properties"@) == Some(props),
    ensures
        sh.char_flags(name) matches Some(f) && f.0 == match props.attr_text("font-weight"@) {
            Some(raw) => raw != "normal"@ && raw != "0"@,
            None => false,
        } && f.1 == match props.attr_text("font-style"@) {
            Some(raw) => raw != "normal"@ && raw != "none"@ && raw != "0"@,
            None => false,
        },
{
    lemma_found_first(sh.chars, "name"@, name, k);
}

proof fn lemma_found_first(c: Seq<Node>, key: Seq<char>, id: Seq<char>, k: int)
    requires
        0 <= k < c.len(),
        c[k].attr_text(key) == Some(id),
        forall|j: int| 0 <= j < k ==> (#[trigger] c[j]).attr_text(key) != Some(id),
    ensures
        find_by(c, key, id) == Some(c[k]),
{
    let q = |n: Node| n.attr_text(key) == Some(id);
    crate::lists::lemma_first_from(c, q, 0);
    match first(c, q) {
        Some(i) => {
            assert(q(c[i]));
            assert(q(c[k]));
            if i < k {
                assert(c[i].attr_text(key) == Some(id));
            }
        },
        None => {
            assert(q(c[k]));
        },
    }
}

/// A name that no style has says nothing.
pub proof fn law_a_name_without_a_style(sh: Shelf, name: Seq<char>)
    requires
        forall|j: int|
            0 <= j < sh.chars.len() ==> (#[trigger] sh.chars[j]).attr_text("name"@) != Some(name),
    ensures
        sh.char_flags(name) is None,
{
    let q = |n: Node| n.attr_text("name"@) == Some(name);
    crate::lists::lemma_first_from(sh.chars, q, 0);
    match first(sh.chars, q) {
        Some(i) => {
            assert(q(sh.chars[i]));
        },
        None => {},
    }
}

/// The styles of characters are those of the family `text`, those of the content before those of
/// the part for styles; the styles of lists stand in the same order.
pub proof fn law_which_styles_are_on_the_shelf(content: Node, styles: Node, q: spec_fn(Node) -> bool)
    requires
        forall|n: Node| #[trigger] q(n) == (n.attr_text("family"@) == Some("text"@)),
    ensures
        shelf_of(content, Some(styles)).chars == content.below("style"@).filter(q)
            + styles.below("style"@).filter(q),
        shelf_of(content, Some(styles)).lists == content.below("list-style"@) + styles.below(
            "list-style"@,
        ),
        shelf_of(content, None).chars == content.below("style"@).filter(q),
        shelf_of(content, None).lists == content.below("list-style"@),
{
    let p = |n: Node| n.attr_text("family"@) == Some("text"@);
    assert(p =~= q);
    assert(below_in(None, "style"@).filter(p) =~= Seq::empty()) by {
        reveal(Seq::filter);
    }
    let own = content.below("style"@).filter(q);
    assert(own + Seq::<Node>::empty() =~= own);
    assert(content.below("list-style"@) + Seq::<Node>::empty() =~= content.below("list-style"@));
}

/// Whether an item is numbered says the first definition of its level in the first style of that
/// name: a definition of numbers says that it is, and one of bullets that it is not.
pub proof fn law_which_items_are_numbered(sh: Shelf, name: Seq<char>, depth: nat, k: int, i: int)
    requires
        0 <= k < sh.lists.len(),
        sh.lists[k].attr_text("name"@) == Some(name),
        forall|j: int| 0 <= j < k ==> (#[trigger] sh.lists[j]).attr_text("name"@) != Some(name),
        0 <= i < sh.lists[k].children@.len(),
        sh.lists[k].children@[i].attr_text("level"@) == Some(dec(depth)),
        forall|j: int|
            0 <= j < i ==> (#[trigger] sh.lists[k].children@[j]).attr_text("level"@) != Some(
                dec(depth),
            ),
    ensures
        sh.lists[k].children@[i].local_name() == "list-level-style-number"@ ==> sh.numbers(
            name,
            depth as int,
        ) == Some(true),
        sh.lists[k].children@[i].local_name() == "list-level-style-bullet"@ ==> sh.numbers(
            name,
            depth as int,
        ) == Some(false),
{
    lemma_found_first(sh.lists, "name"@, name, k);
    let c = sh.lists[k].children@;
    reveal_strlit("list-level-style-number");
    reveal_strlit("list-level-style-bullet");
    assert("list-level-style-number"@[17] == 'n');
    assert("list-level-style-bullet"@[17] == 'b');
    let q = |n: Node| is_level(n, dec(depth));
    assert(depth as int as nat == depth);
    crate::lists::lemma_first_from(c, q, 0);
    if is_level(c[i], dec(depth)) {
        assert(q(c[i]));
        match first(c, q) {
            Some(m) => {
                assert(q(c[m]));
                if m < i {
                    assert(c[m].attr_text("level"@) == Some(dec(depth)));
                }
            },
            None => {},
        }
    }
}

/// An item is numbered by the style of the innermost list that it stands in, at as deep a level
/// as there are lists around it; a list without a name goes by the one around it.
pub proof fn law_lists_go_by_their_names(
    list: Node,
    names: Seq<Option<Seq<char>>>,
    sh: Shelf,
    name: Seq<char>,
)
    ensures
        numbered(names.push(Some(name)), sh) == sh.numbers(name, names.len() + 1int),
        numbered(names.push(None), sh) is None,
        list.attr_text("style-name"@) == Some(name) ==> list_name(list, names) == Some(name),
        list.attr_text("style-name"@) is None && names.len() == 0 ==> list_name(list, names)
            is None,
        list.attr_text("style-name"@) is None ==> list_name(list, names.push(Some(name))) == Some(
            name,
        ),
{
}

/// A paragraph comes to one block or to none: none where it holds only blanks, a heading where it
/// is one and states a level, an item where it stands in a list, and plain text otherwise.
pub proof fn law_what_a_paragraph_comes_to(par: Node, sh: Shelf, names: Seq<Option<Seq<char>>>)
    ensures
        ({
            let o = emitted(par, sh, names);
            let l = line_of(par, sh);
            let text = trimmed(rendered(l.pieces, false));
            let level = stated_level(par);
            if text.len() == 0 {
                &&& o.blocks.len() == 0
                &&& o.events == l.events.push(Event::EmptyDropped)
            } else if par.local_name() == "h"@ && level is Some {
                &&& o.blocks.len() == 1
                &&& !o.blocks[0].item
                &&& o.blocks[0].text == heading(level->0, text)
                &&& o.events == l.events.push(Event::Heading)
            } else if names.len() == 0 {
                &&& o.blocks.len() == 1
                &&& !o.blocks[0].item
                &&& o.blocks[0].text == paragraph(text)
                &&& o.events == l.events.push(Event::Paragraph)
            } else if numbered(names, sh) == Some(true) {
                &&& o.blocks.len() == 1
                &&& o.blocks[0].item
                &&& o.blocks[0].text == list_item(names.len() - 1, true, text)
                &&& o.events == l.events.push(Event::ListItem).push(Event::OrderedItem)
            } else {
                &&& o.blocks.len() == 1
                &&& o.blocks[0].item
                &&& o.blocks[0].text == list_item(names.len() - 1, false, text)
                &&& numbered(names, sh) == Some(false) ==> o.events == l.events.push(
                    Event::ListItem,
                ).push(Event::BulletItem)
                &&& numbered(names, sh) is None ==> o.events == l.events.push(
                    Event::ListItem,
                ).push(Event::UnresolvedFormat).push(Event::BulletItem)
            }
        }),
{
    let o = emitted(par, sh, names);
    let l = line_of(par, sh);
    assert(l.events + seq![Event::EmptyDropped] =~= l.events.push(Event::EmptyDropped));
    assert(l.events + seq![Event::Heading] =~= l.events.push(Event::Heading));
    assert(l.events + seq![Event::Paragraph] =~= l.events.push(Event::Paragraph));
    let i = l.events + seq![Event::ListItem];
    assert(i =~= l.events.push(Event::ListItem));
    assert(i + seq![Event::OrderedItem] =~= i.push(Event::OrderedItem));
    assert(i + (Seq::<Event>::empty() + seq![Event::BulletItem]) =~= i.push(Event::BulletItem));
    assert(i + (seq![Event::UnresolvedFormat] + seq![Event::BulletItem]) =~= i.push(
        Event::UnresolvedFormat,
    ).push(Event::BulletItem));
}

/// A heading has the level that it states, at least the first; one that states none is none.
pub proof fn law_what_level_a_heading_has(par: Node)
    ensures
        par.attr_text("outline-level"@) is None ==> stated_level(par) is None,
        par.attr_text("outline-level"@) matches Some(raw) ==> match unsigned_value(
            raw,
            u32::MAX as int,
        ) {
            Some(n) => stated_level(par) == Some(
                if n >= 1 {
                    n
                } else {
                    1
                },
            ),
            None => stated_level(par) is None,
        },
{
    match par.attr_text("outline-level"@) {
        Some(raw) => crate::words::law_numbers_keep_their_range(raw, u32::MAX as int),
        None => {},
    }
}

/// What stands in the body: paragraphs and headings come to their blocks, a list to those in it,
/// a table to a table, and whatever else holds them to what it holds. Remarks, notes and lists of
/// changes come to nothing.
#[verifier::rlimit(40)]
pub proof fn law_what_the_body_comes_to(n: Node, sh: Shelf, names: Seq<Option<Seq<char>>>)
    requires
        n.name@ != "#text"@,
    ensures
        n.local_name() == "h"@ || n.local_name() == "p"@ ==> walked(n, sh, names) == emitted(
            n,
            sh,
            names,
        ),
        n.local_name() == "list"@ ==> {
            let o = walked(n, sh, names);
            let inner = walked_all(n.children@, sh, names.push(list_name(n, names)));
            &&& o.blocks == inner.blocks
            &&& n.attr_text("style-name"@) is Some ==> o.events == seq![Event::ListNamed]
                + inner.events
            &&& n.attr_text("style-name"@) is None ==> o.events == seq![Event::ListUnnamed]
                + inner.events
        },
        n.local_name() == "table"@ ==> {
            let o = walked(n, sh, names);
            let rows = rows_of(n, sh);
            if table_text(rows.rows).len() == 0 {
                o.blocks.len() == 0 && o.events == rows.events
            } else {
                &&& o.blocks.len() == 1
                &&& !o.blocks[0].item
                &&& o.blocks[0].text == table_text(rows.rows)
                &&& o.events == rows.events.push(
                    Event::Table(n.all_of("table-row"@).len() as usize),
                )
            }
        },
        n.local_name() == "annotation"@ ==> walked(n, sh, names).blocks.len() == 0 && walked(
            n,
            sh,
            names,
        ).events == seq![Event::AnnotationDropped],
        n.local_name() == "note"@ || n.local_name() == "tracked-changes"@ ==> walked(
            n,
            sh,
            names,
        ).blocks.len() == 0 && walked(n, sh, names).events == seq![Event::NoteDropped],
        !(n.local_name() == "h"@ || n.local_name() == "p"@ || n.local_name() == "list"@
            || n.local_name() == "table"@ || n.local_name() == "annotation"@ || n.local_name()
            == "note"@ || n.local_name() == "tracked-changes"@) ==> walked(n, sh, names)
            == walked_all(n.children@, sh, names),
{
    lemma_line_words();
    let inner = walked_all(n.children@, sh, names.push(list_name(n, names)));
    assert(Seq::<Chunk>::empty() + inner.blocks =~= inner.blocks);
    let rows = rows_of(n, sh);
    let e = Event::Table(n.all_of("table-row"@).len() as usize);
    assert(rows.events + seq![e] =~= rows.events.push(e));
}

/// What stands in the body is taken one after another, from the text in the body of the content.
pub proof fn law_the_body_is_walked_in_order(
    c: Seq<Node>,
    n: Node,
    sh: Shelf,
    names: Seq<Option<Seq<char>>>,
    content: Node,
    styles: Option<Node>,
)
    ensures
        walked_all(Seq::empty(), sh, names).blocks.len() == 0,
        walked_all(Seq::empty(), sh, names).events.len() == 0,
        walked_all(c.push(n), sh, names).blocks == walked_all(c, sh, names).blocks + walked(
            n,
            sh,
            names,
        ).blocks,
        walked_all(c.push(n), sh, names).events == walked_all(c, sh, names).events + walked(
            n,
            sh,
            names,
        ).events,
        content.below("body"@).len() == 0 ==> outcome(content, styles).blocks.len() == 0,
        content.below("body"@).len() > 0 && content.below("body"@)[0].child_of("text"@) is Some
            ==> outcome(content, styles) == walked_all(
            content.below("body"@)[0].child_of("text"@)->0.children@,
            shelf_of(content, styles),
            Seq::empty(),
        ),
{
    assert(c.push(n).drop_last() =~= c);
}

/// A cell is set in as many columns as it says, in one where it does not say, and in no more than
/// 64; a covered cell is set as any other. Its lines are those of its paragraphs that hold
/// something, with a mark between two.
pub proof fn law_a_cell_fills_its_columns(cells: Seq<Node>, sh: Shelf, n: int)
    requires
        0 <= n < cells.len(),
    ensures
        ({
            let tc = cells[n];
            let before = row_upto(cells, sh, n);
            let r = row_upto(cells, sh, n + 1);
            let said = match tc.attr_text("number-columns-repeated"@) {
                Some(raw) => match unsigned_value(raw, usize::MAX as int) {
                    Some(v) => v,
                    None => 1,
                },
                None => 1,
            };
            let times = if said < 64 {
                said
            } else {
                64
            };
            &&& r.cells.len() == before.cells.len() + times
            &&& forall|i: int|
                0 <= i < before.cells.len() ==> #[trigger] r.cells[i] == before.cells[i]
            &&& forall|i: int|
                before.cells.len() <= i < r.cells.len() ==> #[trigger] r.cells[i] == strung(
                    cell_of(tc, sh).lines,
                    "<br>"@,
                )
            &&& tc.local_name() == "covered-table-cell"@ && said > 1 ==> r.events == before.events
                + seq![Event::CoveredCell] + cell_of(tc, sh).events + seq![
                Event::RepeatedSpan((said - 1) as usize),
            ]
            &&& tc.local_name() != "covered-table-cell"@ && said <= 1 ==> r.events == before.events
                + cell_of(tc, sh).events
        }),
{
    let tc = cells[n];
    let before = row_upto(cells, sh, n);
    let r = row_upto(cells, sh, n + 1);
    match tc.attr_text("number-columns-repeated"@) {
        Some(raw) => crate::words::law_numbers_keep_their_range(raw, usize::MAX as int),
        None => {},
    }
    let one = cell_of(tc, sh);
    let e = Seq::<Event>::empty();
    assert(before.events + e + one.events + e =~= before.events + one.events);
}

/// The lines of a cell: those of its paragraphs and headings, without those that hold nothing.
pub proof fn law_the_lines_of_a_cell(paras: Seq<Node>, sh: Shelf, n: int)
    requires
        0 <= n < paras.len(),
    ensures
        ({
            let before = cell_upto(paras, sh, n);
            let c = cell_upto(paras, sh, n + 1);
            let l = line_of(paras[n], sh);
            let one = flat(rendered(l.pieces, true));
            &&& one.len() == 0 ==> c.lines == before.lines
            &&& one.len() > 0 ==> c.lines == before.lines.push(one)
            &&& c.events == before.events + l.events
        }),
{
}

/// The paragraphs of a cell are its children that are paragraphs or headings, the cells of a row
/// its cells and covered cells, and the rows of a table all those in it.
pub proof fn law_parts_of_a_table(
    tc: Node,
    p: spec_fn(Node) -> bool,
    tr: Node,
    q: spec_fn(Node) -> bool,
    tbl: Node,
    sh: Shelf,
    i: int,
)
    requires
        forall|n: Node| #[trigger] p(n) == (n.local_name() == "p"@ || n.local_name() == "h"@),
        forall|n: Node| #[trigger]
            q(n) == (n.local_name() == "table-cell"@ || n.local_name() == "covered-table-cell"@),
        0 <= i < tbl.all_of("table-row"@).len(),
    ensures
        paras_of(tc) == tc.children@.filter(p),
        cells_of(tr) == tr.children@.filter(q),
        rows_of(tbl, sh).rows.len() == tbl.all_of("table-row"@).len(),
        rows_of(tbl, sh).rows[i] == row_of(tbl.all_of("table-row"@)[i], sh).cells,
{
    let a = |n: Node| n.local_name() == "p"@ || n.local_name() == "h"@;
    assert(a =~= p);
    let b = |n: Node|
        n.local_name() == "table-cell"@ || n.local_name() == "covered-table-cell"@;
    assert(b =~= q);
    let trs = tbl.all_of("table-row"@);
    lemma_rows(trs, sh, trs.len() as int, i);
}

proof fn lemma_rows(trs: Seq<Node>, sh: Shelf, n: int, i: int)
    requires
        0 <= i < n <= trs.len(),
    ensures
        rows_upto(trs, sh, n).rows.len() == n,
        rows_upto(trs, sh, n).rows[i] == row_of(trs[i], sh).cells,
    decreases n,
{
    if i < n - 1 {
        lemma_rows(trs, sh, n - 1, i);
    } else {
        lemma_rows_size(trs, sh, n);
        lemma_rows_size(trs, sh, n - 1);
    }
}

proof fn lemma_rows_size(trs: Seq<Node>, sh: Shelf, n: int)
    requires
        0 <= n,
    ensures
        rows_upto(trs, sh, n).rows.len() == n,
    decreases n,
{
    if n > 0 {
        lemma_rows_size(trs, sh, n - 1);
    }
}

/// Each number of a report is how often its kind of thing was met.
pub proof fn law_what_a_report_counts(o: Outcome, r: Report, budget: usize)
    requires
        r.describes(o, budget),
    ensures
        r.blocks == o.blocks.len(),
        r.paragraphs == o.events.filter(|e: Event| e == Event::Paragraph).len(),
        r.headings == o.events.filter(|e: Event| e == Event::Heading).len(),
        r.list_items == o.events.filter(|e: Event| e == Event::ListItem).len(),
        r.bullet_items == o.events.filter(|e: Event| e == Event::BulletItem).len(),
        r.ordered_items == o.events.filter(|e: Event| e == Event::OrderedItem).len(),
        r.unresolved_fmt == o.events.filter(|e: Event| e == Event::UnresolvedFormat).len(),
        r.empty_dropped == o.events.filter(|e: Event| e == Event::EmptyDropped).len(),
        r.lists_named == o.events.filter(|e: Event| e == Event::ListNamed).len(),
        r.lists_unnamed == o.events.filter(|e: Event| e == Event::ListUnnamed).len(),
        r.spans_unresolved == o.events.filter(|e: Event| e == Event::SpanUnresolved).len(),
        r.annotations_dropped == o.events.filter(|e: Event| e == Event::AnnotationDropped).len(),
        r.notes_dropped == o.events.filter(|e: Event| e == Event::NoteDropped).len(),
        r.space_markers == o.events.filter(|e: Event| e == Event::SpaceMarker).len(),
        r.links == o.events.filter(|e: Event| e == Event::Link).len(),
        r.images == o.events.filter(|e: Event| e == Event::Image).len(),
        r.covered_cells == o.events.filter(|e: Event| e == Event::CoveredCell).len(),
        r.tables == o.events.filter(|e: Event| e is Table).len(),
{
    let e = o.events;
    lemma_met(e, Event::Paragraph, |e: Event| e == Event::Paragraph);
    lemma_met(e, Event::Heading, |e: Event| e == Event::Heading);
    lemma_met(e, Event::ListItem, |e: Event| e == Event::ListItem);
    lemma_met(e, Event::BulletItem, |e: Event| e == Event::BulletItem);
    lemma_met(e, Event::OrderedItem, |e: Event| e == Event::OrderedItem);
    lemma_met(e, Event::UnresolvedFormat, |e: Event| e == Event::UnresolvedFormat);
    lemma_met(e, Event::EmptyDropped, |e: Event| e == Event::EmptyDropped);
    lemma_met(e, Event::ListNamed, |e: Event| e == Event::ListNamed);
    lemma_met(e, Event::ListUnnamed, |e: Event| e == Event::ListUnnamed);
    lemma_met(e, Event::SpanUnresolved, |e: Event| e == Event::SpanUnresolved);
    lemma_met(e, Event::AnnotationDropped, |e: Event| e == Event::AnnotationDropped);
    lemma_met(e, Event::NoteDropped, |e: Event| e == Event::NoteDropped);
    lemma_met(e, Event::SpaceMarker, |e: Event| e == Event::SpaceMarker);
    lemma_met(e, Event::Link, |e: Event| e == Event::Link);
    lemma_met(e, Event::Image, |e: Event| e == Event::Image);
    lemma_met(e, Event::CoveredCell, |e: Event| e == Event::CoveredCell);
    let p = |i: int| e[i] is Table;
    let q = |e: Event| e is Table;
    lemma_counted_by_filter(e, p, q, e.len() as int);
    assert(e.take(e.len() as int) =~= e);
}

proof fn lemma_met(e: Seq<Event>, kind: Event, q: spec_fn(Event) -> bool)
    requires
        forall|x: Event| #[trigger] q(x) == (x == kind),
    ensures
        met(e, kind) == e.filter(q).len(),
{
    lemma_counted_by_filter(e, is_kind(e, kind), q, e.len() as int);
    assert(e.take(e.len() as int) =~= e);
}

proof fn lemma_counted_by_filter(
    e: Seq<Event>,
    p: spec_fn(int) -> bool,
    q: spec_fn(Event) -> bool,
    n: int,
)
    requires
        0 <= n <= e.len(),
        forall|i: int| 0 <= i < e.len() ==> #[trigger] p(i) == q(e[i]),
    ensures
        tally(p, n) == e.take(n).filter(q).len(),
    decreases n,
{
    reveal(Seq::filter);
    if n > 0 {
        lemma_counted_by_filter(e, p, q, n - 1);
        assert(e.take(n).drop_last() =~= e.take(n - 1));
        assert(e.take(n).last() == e[n - 1]);
        assert(p(n - 1) == q(e[n - 1]));
    }
}

/// The rows and the further columns of a report are those of the events, one by one.
pub proof fn law_rows_and_columns_add_up(e: Seq<Event>, one: Event)
    ensures
        table_rows(Seq::empty(), 0) == 0,
        more_columns(Seq::empty(), 0) == 0,
        table_rows(e.push(one), e.len() + 1int) == table_rows(e, e.len() as int) + match one {
            Event::Table(rows) => rows as nat,
            _ => 0,
        },
        more_columns(e.push(one), e.len() + 1int) == more_columns(e, e.len() as int) + match one {
            Event::RepeatedSpan(more) => more as nat,
            _ => 0,
        },
{
    lemma_sums_part(e, e.push(one), e.len() as int);
}

proof fn lemma_sums_part(s: Seq<Event>, t: Seq<Event>, n: int)
    requires
        n <= s.len(),
        n <= t.len(),
        forall|i: int| 0 <= i < n ==> s[i] == t[i],
    ensures
        table_rows(s, n) == table_rows(t, n),
        more_columns(s, n) == more_columns(t, n),
    decreases n,
{
    if n > 0 {
        lemma_sums_part(s, t, n - 1);
    }
}

/// The place of a picture is what the first `image` in its frame says in `href`.
pub proof fn law_which_place_a_frame_has(frame: Node, n: Node)
    ensures
        frame.below("image"@).len() == 0 ==> image_of(frame).len() == 0,
        frame.below("image"@).len() > 0 && frame.below("image"@)[0] == n ==> {
            &&& n.attr_text("href"@) is None ==> image_of(frame).len() == 0
            &&& n.attr_text("href"@) matches Some(place) ==> image_of(frame) == place
        },
{
}

/// The rows of the tables and the further columns of the cells are added up over all events.
pub proof fn law_a_report_adds_up_its_events(o: Outcome, r: Report, budget: usize)
    requires
        r.describes(o, budget),
    ensures
        r.table_rows == table_rows(o.events, o.events.len() as int),
        r.repeated_spans == more_columns(o.events, o.events.len() as int),
        r.blocks == o.blocks.len(),
{
}

} // verus!
