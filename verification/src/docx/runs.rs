//! Character formatting, run by run: what each run writes about itself, what the character
//! style it names says, and what it holds besides text.

use crate::lists::{
    at_most, capped, first, first_from, flag, lemma_filter_take, lemma_first_from, one_if,
};
use crate::text::{same, texts};
use crate::written::{
    ask, ask_each, ask_some, attr_map, children_of, each_says, each_text, entry_of, except, go,
    joined_text, lists_elements, local_names, look_up, map_if, names_of, node_in, option_texts,
    owned, pick_except, read_each, said_by, says, some_say, step, table_if, table_in, table_of,
    text_in, write_out, Written,
};
use crate::xml::{nodes, Node};
use vstd::prelude::*;

verus! {

broadcast use {
    crate::text::lemma_texts_push,
    crate::text::lemma_pair_texts_push,
    crate::xml::lemma_nodes_push,
};

/// The text of a run: what its `t` elements hold. Field instructions are not on the page.
pub fn run_text(run: &Node) -> (r: String)
    ensures
        r@ == joined_text(run.all_of("t"@)),
{
    let parts: Vec<&Node> = run.all("t");
    let ghost c = nodes(parts@);
    let mut out: String = String::new();
    let mut i: usize = 0;
    while i < parts.len()
        invariant
            i <= parts@.len(),
            c == nodes(parts@),
            out@ == joined_text(c.take(i as int)),
        decreases parts@.len() - i,
    {
        assert(c.take(i + 1).drop_last() =~= c.take(i as int));
        let more: String = parts[i].text();
        out.append(more.as_str());
        i += 1;
    }
    assert(c.take(i as int) =~= c);
    out
}

/// A value that switches something off.
pub open spec fn off_word(raw: Seq<char>) -> bool {
    raw == "0"@ || raw == "false"@ || raw == "off"@ || raw == "none"@
}

pub fn is_off(raw: &str) -> (r: bool)
    ensures
        r == off_word(raw@),
{
    same(raw, "0") || same(raw, "false") || same(raw, "off") || same(raw, "none")
}

/// What a value makes of a switch that is there: on, unless it switches it off.
pub open spec fn on_unless(value: Option<Seq<char>>) -> bool {
    match value {
        Some(raw) => !off_word(raw),
        None => true,
    }
}

/// A switch in a run's properties: not said, on, or off.
pub open spec fn switch_in(props: Option<Node>, name: Seq<char>) -> Option<bool> {
    match step(props, name) {
        Some(n) => Some(on_unless(n.attr_text("val"@))),
        None => None,
    }
}

/// Reads a switch in a run's properties.
pub fn run_switch(props: Option<&Node>, name: &str) -> (r: Option<bool>)
    ensures
        r == switch_in(node_in(props), name@),
{
    match go(props, name) {
        Some(n) => match n.attr_local("val") {
            Some(raw) => Some(!is_off(raw)),
            None => Some(true),
        },
        None => None,
    }
}

/// The four switches of a run.
#[derive(Debug, Clone, Copy, PartialEq, Eq, Structural)]
pub struct Switches {
    pub bold: Option<bool>,
    pub italic: Option<bool>,
    pub strike: Option<bool>,
    pub underline: Option<bool>,
}

/// The switches that a run writes itself.
pub open spec fn own_switches(props: Option<Node>) -> Switches {
    Switches {
        bold: switch_in(props, "b"@),
        italic: switch_in(props, "i"@),
        strike: switch_in(props, "strike"@),
        underline: switch_in(props, "u"@),
    }
}

/// The properties that a character style writes, without its link to another style.
pub open spec fn style_parts(style: Node) -> Seq<Node> {
    except(children_of(style.child_of("rPr"@)), "#text"@, "rStyle"@)
}

/// A switch that a character style sets.
pub open spec fn style_switch(style: Option<Node>, name: Seq<char>) -> Option<bool> {
    match style {
        Some(s) => match first(style_parts(s), |n: Node| n.local_name() == name) {
            Some(i) => Some(on_unless(entry_of(table_of(style_parts(s)[i]), "val"@))),
            None => None,
        },
        None => None,
    }
}

/// The switches that a character style sets.
pub open spec fn style_switches(style: Option<Node>) -> Switches {
    Switches {
        bold: style_switch(style, "b"@),
        italic: style_switch(style, "i"@),
        strike: style_switch(style, "strike"@),
        underline: style_switch(style, "u"@),
    }
}

/// A definition of a character style that can be named.
pub open spec fn is_character_style(n: Node) -> bool {
    n.attr_text("type"@) == Some("character"@) && n.attr_text("styleId"@) is Some
}

/// The character styles of a style sheet.
pub open spec fn character_styles(sheet: Option<Node>) -> Seq<Node> {
    match sheet {
        Some(n) => n.below("style"@).filter(|s: Node| is_character_style(s)),
        None => Seq::empty(),
    }
}

/// The character style with that id.
pub open spec fn style_called(sheet: Option<Node>, id: Seq<char>) -> Option<Node> {
    match first(character_styles(sheet), |s: Node| s.attr_text("styleId"@) == Some(id)) {
        Some(i) => Some(character_styles(sheet)[i]),
        None => None,
    }
}

/// The character styles of a style sheet, in its order.
pub fn docx_character_styles<'a>(sheet: Option<&'a Node>) -> (r: Vec<&'a Node>)
    ensures
        nodes(r@) == character_styles(node_in(sheet)),
{
    let ghost p = |s: Node| is_character_style(s);
    let mut out: Vec<&'a Node> = Vec::new();
    let tree: &'a Node = match sheet {
        Some(tree) => tree,
        None => {
            assert(nodes(out@) =~= Seq::empty());
            return out;
        },
    };
    let all: Vec<&'a Node> = tree.descendants("style");
    let ghost c = nodes(all@);
    let mut i: usize = 0;
    assert(nodes(out@) =~= c.take(0).filter(p)) by {
        reveal(Seq::filter);
    }
    while i < all.len()
        invariant
            i <= all@.len(),
            c == nodes(all@),
            p == (|s: Node| is_character_style(s)),
            nodes(out@) == c.take(i as int).filter(p),
        decreases all@.len() - i,
    {
        proof {
            lemma_filter_take(c, p, i as int);
        }
        let one: &'a Node = all[i];
        let kind: Option<String> = owned(one.attr_local("type"));
        if says(&kind, "character") && one.attr_local("styleId").is_some() {
            out.push(one);
        }
        i += 1;
    }
    assert(c.take(i as int) =~= c);
    out
}

/// Finds the character style with that id.
fn find_style<'a>(styles: &Vec<&'a Node>, id: &str, Ghost(sheet): Ghost<Option<Node>>) -> (r:
    Option<&'a Node>)
    requires
        nodes(styles@) == character_styles(sheet),
    ensures
        node_in(r) == style_called(sheet, id@),
{
    let ghost c = nodes(styles@);
    let ghost p = |s: Node| s.attr_text("styleId"@) == Some(id@);
    let mut i: usize = 0;
    while i < styles.len()
        invariant
            i <= styles@.len(),
            c == nodes(styles@),
            p == (|s: Node| s.attr_text("styleId"@) == Some(id@)),
            first(c, p) == first_from(c, p, i as int),
            c == character_styles(sheet),
        decreases styles@.len() - i,
    {
        assert(c[i as int] == *styles@[i as int]);
        let had: Option<String> = owned(styles[i].attr_local("styleId"));
        if says(&had, id) {
            return Some(styles[i]);
        }
        i += 1;
    }
    None
}

/// Reads a switch that a character style sets.
fn read_style_switch(style: Option<&Node>, name: &str) -> (r: Option<bool>)
    ensures
        r == style_switch(node_in(style), name@),
{
    let holder: &Node = match style {
        Some(s) => match s.child("rPr") {
            Some(holder) => holder,
            None => {
                assert(style_parts(*s) =~= Seq::empty()) by {
                    reveal(Seq::filter);
                }
                return None;
            },
        },
        None => {
            return None;
        },
    };
    let parts: Vec<&Node> = pick_except(&holder.children, "#text", "rStyle");
    let ghost c = nodes(parts@);
    let ghost p = |n: Node| n.local_name() == name@;
    let mut i: usize = 0;
    while i < parts.len()
        invariant
            i <= parts@.len(),
            c == nodes(parts@),
            style is Some,
            c == style_parts(*style->0),
            p == (|n: Node| n.local_name() == name@),
            first(c, p) == first_from(c, p, i as int),
        decreases parts@.len() - i,
    {
        assert(c[i as int] == *parts@[i as int]);
        if parts[i].is(name) {
            let table: Vec<(String, String)> = attr_map(parts[i]);
            return match look_up(&table, "val") {
                Some(raw) => Some(!is_off(raw)),
                None => Some(true),
            };
        }
        i += 1;
    }
    None
}

fn read_own(props: Option<&Node>) -> (r: Switches)
    ensures
        r == own_switches(node_in(props)),
{
    Switches {
        bold: run_switch(props, "b"),
        italic: run_switch(props, "i"),
        strike: run_switch(props, "strike"),
        underline: run_switch(props, "u"),
    }
}

fn read_styled(style: Option<&Node>) -> (r: Switches)
    ensures
        r == style_switches(node_in(style)),
{
    Switches {
        bold: read_style_switch(style, "b"),
        italic: read_style_switch(style, "i"),
        strike: read_style_switch(style, "strike"),
        underline: read_style_switch(style, "u"),
    }
}

/// A shell that a paragraph puts round runs: a link, an insertion or a deletion.
pub open spec fn is_shell(n: Node) -> bool {
    n.local_name() == "hyperlink"@ || n.local_name() == "ins"@ || n.local_name() == "del"@
}

/// The runs in a list of nodes, each with the shell it sits in.
pub open spec fn in_shell(c: Seq<Node>, shell: Option<Node>) -> Seq<(Node, Option<Node>)> {
    Seq::new(c.len(), |i: int| (c[i], shell))
}

/// The runs of the first `n` children of a paragraph: those that are children themselves and
/// those in a shell.
pub open spec fn runs_upto(c: Seq<Node>, n: int) -> Seq<(Node, Option<Node>)>
    decreases n,
{
    if n <= 0 {
        Seq::empty()
    } else {
        let before = runs_upto(c, n - 1);
        let one = c[n - 1];
        if one.local_name() == "r"@ {
            before.push((one, None))
        } else if is_shell(one) {
            before + in_shell(one.all_of("r"@), Some(one))
        } else {
            before
        }
    }
}

/// The runs of a paragraph.
pub open spec fn runs_of(paragraph: Node) -> Seq<(Node, Option<Node>)> {
    runs_upto(paragraph.children@, paragraph.children@.len() as int)
}

/// The nodes behind pairs of references.
pub open spec fn run_pairs(v: Seq<(&Node, Option<&Node>)>) -> Seq<(Node, Option<Node>)> {
    Seq::new(v.len(), |i: int| (*v[i].0, node_in(v[i].1)))
}

/// The runs of a paragraph, each with the shell it sits in. Text boxes inside a run are other
/// paragraphs and have runs of their own.
pub fn docx_runs<'a>(holder: &'a Node) -> (r: Vec<(&'a Node, Option<&'a Node>)>)
    ensures
        run_pairs(r@) == runs_of(*holder),
{
    let mut out: Vec<(&'a Node, Option<&'a Node>)> = Vec::new();
    let mut i: usize = 0;
    assert(run_pairs(out@) =~= runs_upto(holder.children@, 0));
    while i < holder.children.len()
        invariant
            i <= holder.children@.len(),
            run_pairs(out@) == runs_upto(holder.children@, i as int),
        decreases holder.children@.len() - i,
    {
        let one: &'a Node = &holder.children[i];
        let ghost before = run_pairs(out@);
        if one.is("r") {
            out.push((one, None));
            assert(run_pairs(out@) =~= before.push((*one, None)));
        } else if one.is("hyperlink") || one.is("ins") || one.is("del") {
            let inner: Vec<&'a Node> = one.all("r");
            let ghost c = nodes(inner@);
            let mut j: usize = 0;
            assert(run_pairs(out@) =~= before + in_shell(c, Some(*one)).take(0));
            while j < inner.len()
                invariant
                    j <= inner@.len(),
                    c == nodes(inner@),
                    run_pairs(out@) == before + in_shell(c, Some(*one)).take(j as int),
                decreases inner@.len() - j,
            {
                let ghost had = run_pairs(out@);
                out.push((inner[j], Some(one)));
                assert(run_pairs(out@) =~= had.push((*inner@[j as int], Some(*one))));
                j += 1;
                assert(run_pairs(out@) =~= before + in_shell(c, Some(*one)).take(j as int));
            }
            assert(in_shell(c, Some(*one)).take(j as int) =~= in_shell(c, Some(*one)));
        }
        i += 1;
    }
    out
}

/// A run and where it stands.
pub struct Place {
    pub para: int,
    pub at: int,
    pub run: Node,
    pub shell: Option<Node>,
}

/// The runs of paragraph `k` and where they stand.
pub open spec fn places_in(paragraphs: Seq<Node>, k: int) -> Seq<Place> {
    let r = runs_of(paragraphs[k]);
    Seq::new(r.len(), |j: int| Place { para: k, at: j, run: r[j].0, shell: r[j].1 })
}

/// The runs of the first `n` paragraphs.
pub open spec fn places_upto(paragraphs: Seq<Node>, n: int) -> Seq<Place>
    decreases n,
{
    if n <= 0 {
        Seq::empty()
    } else {
        places_upto(paragraphs, n - 1) + places_in(paragraphs, n - 1)
    }
}

/// The runs of all paragraphs.
pub open spec fn places(paragraphs: Seq<Node>) -> Seq<Place> {
    places_upto(paragraphs, paragraphs.len() as int)
}

/// A run and where it stands.
pub struct PlacedRun<'a> {
    pub para: usize,
    pub at: usize,
    pub run: &'a Node,
    pub shell: Option<&'a Node>,
}

impl<'a> PlacedRun<'a> {
    pub open spec fn place(self) -> Place {
        Place {
            para: self.para as int,
            at: self.at as int,
            run: *self.run,
            shell: node_in(self.shell),
        }
    }
}

pub open spec fn place_list(v: Seq<PlacedRun>) -> Seq<Place> {
    Seq::new(v.len(), |i: int| v[i].place())
}

/// Finds all runs of all paragraphs.
pub fn place_runs<'a>(paragraphs: &Vec<&'a Node>) -> (r: Vec<PlacedRun<'a>>)
    ensures
        place_list(r@) == places(nodes(paragraphs@)),
{
    let ghost ps = nodes(paragraphs@);
    let mut out: Vec<PlacedRun<'a>> = Vec::new();
    let mut k: usize = 0;
    assert(place_list(out@) =~= places_upto(ps, 0));
    while k < paragraphs.len()
        invariant
            k <= paragraphs@.len(),
            ps == nodes(paragraphs@),
            place_list(out@) == places_upto(ps, k as int),
        decreases paragraphs@.len() - k,
    {
        let holder: &'a Node = paragraphs[k];
        let found: Vec<(&'a Node, Option<&'a Node>)> = docx_runs(holder);
        let ghost here = places_in(ps, k as int);
        let ghost before = place_list(out@);
        let mut j: usize = 0;
        assert(place_list(out@) =~= before + here.take(0));
        while j < found.len()
            invariant
                j <= found@.len(),
                k < ps.len(),
                run_pairs(found@) == runs_of(ps[k as int]),
                here == places_in(ps, k as int),
                place_list(out@) == before + here.take(j as int),
            decreases found@.len() - j,
        {
            let ghost had = place_list(out@);
            let one: PlacedRun<'a> = PlacedRun {
                para: k,
                at: j,
                run: found[j].0,
                shell: found[j].1,
            };
            out.push(one);
            assert(place_list(out@) =~= had.push(one.place()));
            assert(run_pairs(found@)[j as int] == (*found@[j as int].0, node_in(
                found@[j as int].1,
            )));
            assert(here[j as int] == one.place());
            j += 1;
            assert(place_list(out@) =~= before + here.take(j as int));
        }
        assert(here.take(j as int) =~= here);
        k += 1;
    }
    out
}

/// A note that a part holds: its id, and whether it is a footnote or an endnote. The same id
/// can stand for one note of each kind.
pub struct NoteKey {
    pub id: String,
    pub kind: &'static str,
}

pub open spec fn note_keys(v: Seq<NoteKey>) -> Seq<(Seq<char>, Seq<char>)> {
    Seq::new(v.len(), |i: int| (v[i].id@, v[i].kind@))
}

/// A note proper: not one of the two separators, and with an id.
pub open spec fn is_note(n: Node) -> bool {
    let kind = n.attr_text("type"@);
    kind != Some("separator"@) && kind != Some("continuationSeparator"@) && n.attr_text("id"@)
        is Some
}

/// The notes of one part.
pub open spec fn notes_of(part: Option<Node>, kind: Seq<char>) -> Seq<Node> {
    match part {
        Some(n) => n.below(kind).filter(|x: Node| is_note(x)),
        None => Seq::empty(),
    }
}

/// The ids of the notes of one part.
pub open spec fn keys_of(part: Option<Node>, kind: Seq<char>) -> Seq<(Seq<char>, Seq<char>)> {
    let c = notes_of(part, kind);
    Seq::new(c.len(), |i: int| (c[i].attr_text("id"@)->0, kind))
}

/// The ids of all notes: footnotes first.
pub open spec fn all_keys(footnotes: Option<Node>, endnotes: Option<Node>) -> Seq<
    (Seq<char>, Seq<char>),
> {
    keys_of(footnotes, "footnote"@) + keys_of(endnotes, "endnote"@)
}

fn push_keys(out: &mut Vec<NoteKey>, part: Option<&Node>, kind: &'static str)
    ensures
        note_keys(final(out)@) == note_keys(old(out)@) + keys_of(node_in(part), kind@),
{
    let tree: &Node = match part {
        Some(tree) => tree,
        None => {
            assert(note_keys(out@) =~= note_keys(old(out)@) + keys_of(None, kind@));
            return;
        },
    };
    let ghost p = |x: Node| is_note(x);
    let all: Vec<&Node> = tree.descendants(kind);
    let ghost c = nodes(all@);
    let ghost before = note_keys(out@);
    let mut i: usize = 0;
    let ghost mut kept = Seq::<Node>::empty();
    assert(kept =~= c.take(0).filter(p)) by {
        reveal(Seq::filter);
    }
    assert(note_keys(out@) =~= before + Seq::new(
        kept.len(),
        |k: int| (kept[k].attr_text("id"@)->0, kind@),
    ));
    while i < all.len()
        invariant
            i <= all@.len(),
            c == nodes(all@),
            p == (|x: Node| is_note(x)),
            kept == c.take(i as int).filter(p),
            note_keys(out@) == before + Seq::new(
                kept.len(),
                |k: int| (kept[k].attr_text("id"@)->0, kind@),
            ),
        decreases all@.len() - i,
    {
        proof {
            lemma_filter_take(c, p, i as int);
        }
        let one: &Node = all[i];
        let had: Option<String> = owned(one.attr_local("type"));
        let ghost so_far = note_keys(out@);
        let ghost old_kept = kept;
        proof {
            kept = c.take(i + 1).filter(p);
        }
        if !says(&had, "separator") && !says(&had, "continuationSeparator") {
            if let Some(id) = one.attr_local("id") {
                let key: NoteKey = NoteKey { id: id.to_owned(), kind };
                out.push(key);
                assert(note_keys(out@) =~= so_far.push((key.id@, key.kind@)));
                assert(kept == old_kept.push(*one));
            }
        }
        assert(note_keys(out@) =~= before + Seq::new(
            kept.len(),
            |k: int| (kept[k].attr_text("id"@)->0, kind@),
        ));
        i += 1;
    }
    assert(c.take(i as int) =~= c);
    assert(note_keys(out@) =~= before + keys_of(node_in(part), kind@));
}

/// The notes that the two note parts hold. The separators there are no notes.
pub fn docx_note_index(footnotes: Option<&Node>, endnotes: Option<&Node>) -> (r: Vec<NoteKey>)
    ensures
        note_keys(r@) == all_keys(node_in(footnotes), node_in(endnotes)),
{
    let mut out: Vec<NoteKey> = Vec::new();
    push_keys(&mut out, footnotes, "footnote");
    push_keys(&mut out, endnotes, "endnote");
    assert(note_keys(out@) =~= all_keys(node_in(footnotes), node_in(endnotes)));
    out
}

/// The id that a reference element in a run names.
pub open spec fn ref_id(run: Node, element: Seq<char>) -> Option<Seq<char>> {
    said_by(run.child_of(element), "id"@)
}

/// Where a note stands among the notes.
pub open spec fn note_place(
    keys: Seq<(Seq<char>, Seq<char>)>,
    id: Seq<char>,
    kind: Seq<char>,
) -> Option<int> {
    first(keys, |k: (Seq<char>, Seq<char>)| k == (id, kind))
}

fn find_note(notes: &Vec<NoteKey>, id: &str, kind: &str) -> (r: Option<usize>)
    ensures
        match r {
            Some(i) => note_place(note_keys(notes@), id@, kind@) == Some(i as int),
            None => note_place(note_keys(notes@), id@, kind@) is None,
        },
{
    let ghost keys = note_keys(notes@);
    let ghost p = |k: (Seq<char>, Seq<char>)| k == (id@, kind@);
    let mut i: usize = 0;
    while i < notes.len()
        invariant
            i <= notes@.len(),
            keys == note_keys(notes@),
            p == (|k: (Seq<char>, Seq<char>)| k == (id@, kind@)),
            first(keys, p) == first_from(keys, p, i as int),
        decreases notes@.len() - i,
    {
        assert(keys[i as int] == (notes@[i as int].id@, notes@[i as int].kind@));
        if same(notes[i].id.as_str(), id) && same(notes[i].kind, kind) {
            return Some(i);
        }
        i += 1;
    }
    None
}

/// The note that a run refers to.
#[derive(Debug, Clone)]
pub struct NoteRef {
    pub kind: &'static str,
    pub id: String,
    pub at: Option<usize>,
}

/// The kind and id of the note that a run refers to. Where it names one of each kind, the
/// endnote counts.
pub open spec fn note_named(run: Node) -> Option<(Seq<char>, Seq<char>)> {
    match (ref_id(run, "endnoteReference"@), ref_id(run, "footnoteReference"@)) {
        (Some(id), _) => Some((id, "endnote"@)),
        (None, Some(id)) => Some((id, "footnote"@)),
        (None, None) => None,
    }
}

/// The note reference is what the run says.
pub open spec fn note_is(
    found: Option<NoteRef>,
    run: Node,
    keys: Seq<(Seq<char>, Seq<char>)>,
) -> bool {
    match found {
        Some(n) => {
            &&& note_named(run) == Some((n.id@, n.kind@))
            &&& match n.at {
                Some(i) => note_place(keys, n.id@, n.kind@) == Some(i as int),
                None => note_place(keys, n.id@, n.kind@) is None,
            }
        },
        None => note_named(run) is None,
    }
}

fn read_note(run: &Node, notes: &Vec<NoteKey>) -> (r: Option<NoteRef>)
    ensures
        note_is(r, *run, note_keys(notes@)),
{
    let (id, kind): (String, &'static str) = match ask(run.child("endnoteReference"), "id") {
        Some(id) => (id, "endnote"),
        None => match ask(run.child("footnoteReference"), "id") {
            Some(id) => (id, "footnote"),
            None => {
                return None;
            },
        },
    };
    let at: Option<usize> = find_note(notes, id.as_str(), kind);
    Some(NoteRef { kind, id, at })
}

/// One run: what it says, what its style says, and what it holds.
#[derive(Debug, Clone)]
pub struct RunRow {
    pub para: usize,
    pub at: usize,
    pub text: String,
    /// What the properties element itself writes, where there is one.
    pub props_attrs: Option<Vec<(String, String)>>,
    pub elements: Vec<String>,
    pub switches: Switches,
    pub color: Option<String>,
    pub highlight: Option<String>,
    pub size: Option<String>,
    pub position: Option<String>,
    /// The fonts take several attributes, so the whole table is given.
    pub fonts: Option<Vec<(String, String)>>,
    pub format: Vec<Written>,
    /// The character style that the run names.
    pub style: Option<String>,
    /// Whether there is such a style; `None` where the run names none.
    pub style_found: Option<bool>,
    pub style_name: Option<String>,
    pub style_parent: Option<String>,
    pub style_format: Option<Vec<Written>>,
    pub style_switches: Switches,
    pub contents: Vec<Written>,
    pub footnote: Option<String>,
    pub endnote: Option<String>,
    pub comment: Option<String>,
    pub note: Option<NoteRef>,
    /// The shell that the run sits in.
    pub wrapped: Option<String>,
    pub wrapped_written: Option<Vec<(String, String)>>,
    pub breaks: Vec<Option<String>>,
    pub instructions: Vec<String>,
    pub field_chars: Vec<String>,
}

/// The id of the character style that a run names.
pub open spec fn named_style(run: Node) -> Option<Seq<char>> {
    said_by(step(run.child_of("rPr"@), "rStyle"@), "val"@)
}

/// The character style that a run names.
pub open spec fn style_for(run: Node, sheet: Option<Node>) -> Option<Node> {
    match named_style(run) {
        Some(id) => style_called(sheet, id),
        None => None,
    }
}

impl RunRow {
    /// The row is what the run at `p` says.
    pub open spec fn describes(
        self,
        p: Place,
        sheet: Option<Node>,
        keys: Seq<(Seq<char>, Seq<char>)>,
    ) -> bool {
        let props = p.run.child_of("rPr"@);
        let kids = except(children_of(props), "#text"@, "#text"@);
        let style = style_for(p.run, sheet);
        let body = except(p.run.children@, "#text"@, "rPr"@);
        let fields = p.run.all_of("fldChar"@);
        &&& self.para == p.para
        &&& self.at == p.at
        &&& self.text@ == joined_text(p.run.all_of("t"@))
        &&& table_in(self.props_attrs) == table_if(props)
        &&& texts(self.elements@) == local_names(kids)
        &&& self.switches == own_switches(props)
        &&& text_in(self.color) == said_by(step(props, "color"@), "val"@)
        &&& text_in(self.highlight) == said_by(step(props, "highlight"@), "val"@)
        &&& text_in(self.size) == said_by(step(props, "sz"@), "val"@)
        &&& text_in(self.position) == said_by(step(props, "vertAlign"@), "val"@)
        &&& table_in(self.fonts) == table_if(step(props, "rFonts"@))
        &&& lists_elements(
            self.format@,
            except(children_of(props), "#text"@, "rStyle"@),
        )
        &&& text_in(self.style) == named_style(p.run)
        &&& self.style_found == match named_style(p.run) {
            Some(_) => Some(style is Some),
            None => None,
        }
        &&& text_in(self.style_name) == said_by(step(style, "name"@), "val"@)
        &&& text_in(self.style_parent) == said_by(step(style, "basedOn"@), "val"@)
        &&& match (self.style_format, style) {
            (Some(v), Some(s)) => lists_elements(v@, style_parts(s)),
            (None, None) => true,
            _ => false,
        }
        &&& self.style_switches == style_switches(style)
        &&& lists_elements(self.contents@, body)
        &&& text_in(self.footnote) == ref_id(p.run, "footnoteReference"@)
        &&& text_in(self.endnote) == ref_id(p.run, "endnoteReference"@)
        &&& text_in(self.comment) == ref_id(p.run, "commentReference"@)
        &&& note_is(self.note, p.run, keys)
        &&& text_in(self.wrapped) == match p.shell {
            Some(shell) => Some(shell.local_name()),
            None => None,
        }
        &&& table_in(self.wrapped_written) == table_if(p.shell)
        &&& option_texts(self.breaks@) == each_says(p.run.all_of("br"@), "type"@)
        &&& texts(self.instructions@) == each_text(p.run.all_of("instrText"@))
        &&& texts(self.field_chars@) == some_say(fields, "fldCharType"@, fields.len() as int)
    }
}

/// Reads one run.
fn read_run(
    p: &PlacedRun,
    styles: &Vec<&Node>,
    notes: &Vec<NoteKey>,
    Ghost(sheet): Ghost<Option<Node>>,
) -> (r: RunRow)
    requires
        nodes(styles@) == character_styles(sheet),
    ensures
        r.describes(p.place(), sheet, note_keys(notes@)),
{
    let run: &Node = p.run;
    let props: Option<&Node> = run.child("rPr");
    let none: Vec<Node> = Vec::new();
    let kids_in: &Vec<Node> = match props {
        Some(x) => &x.children,
        None => &none,
    };
    assert(kids_in@ =~= children_of(node_in(props)));
    let style: Option<String> = ask(go(props, "rStyle"), "val");
    let hit: Option<&Node> = match &style {
        Some(id) => find_style(styles, id.as_str(), Ghost(sheet)),
        None => None,
    };
    let style_format: Option<Vec<Written>> = match hit {
        Some(x) => {
            let inner: &Vec<Node> = match x.child("rPr") {
                Some(holder) => &holder.children,
                None => &none,
            };
            assert(inner@ =~= children_of(x.child_of("rPr"@)));
            Some(write_out(&pick_except(inner, "#text", "rStyle")))
        },
        None => None,
    };
    let wrapped: Option<String> = match p.shell {
        Some(x) => Some(x.local().to_owned()),
        None => None,
    };
    RunRow {
        para: p.para,
        at: p.at,
        text: run_text(run),
        props_attrs: map_if(props),
        elements: names_of(&pick_except(kids_in, "#text", "#text")),
        switches: read_own(props),
        color: ask(go(props, "color"), "val"),
        highlight: ask(go(props, "highlight"), "val"),
        size: ask(go(props, "sz"), "val"),
        position: ask(go(props, "vertAlign"), "val"),
        fonts: map_if(go(props, "rFonts")),
        format: write_out(&pick_except(kids_in, "#text", "rStyle")),
        style_found: match &style {
            Some(_) => Some(hit.is_some()),
            None => None,
        },
        style,
        style_name: ask(go(hit, "name"), "val"),
        style_parent: ask(go(hit, "basedOn"), "val"),
        style_format,
        style_switches: read_styled(hit),
        contents: write_out(&pick_except(&run.children, "#text", "rPr")),
        footnote: ask(run.child("footnoteReference"), "id"),
        endnote: ask(run.child("endnoteReference"), "id"),
        comment: ask(run.child("commentReference"), "id"),
        note: read_note(run, notes),
        wrapped,
        wrapped_written: map_if(p.shell),
        breaks: ask_each(&run.all("br"), "type"),
        instructions: read_each(&run.all("instrText")),
        field_chars: ask_some(&run.all("fldChar"), "fldCharType"),
    }
}

/// The properties of a run that are elements.
pub open spec fn kids_of(p: Place) -> Seq<Node> {
    except(children_of(p.run.child_of("rPr"@)), "#text"@, "#text"@)
}

/// The run refers to a note or a comment.
pub open spec fn refers(p: Place) -> bool {
    ref_id(p.run, "footnoteReference"@) is Some || ref_id(p.run, "endnoteReference"@) is Some
        || ref_id(p.run, "commentReference"@) is Some
}

/// The run holds a field instruction or a field mark that says which it is.
pub open spec fn in_field(p: Place) -> bool {
    let fields = p.run.all_of("fldChar"@);
    p.run.all_of("instrText"@).len() > 0 || some_say(
        fields,
        "fldCharType"@,
        fields.len() as int,
    ).len() > 0
}

/// The run sits in a shell of that name.
pub open spec fn shelled(p: Place, name: Seq<char>) -> bool {
    p.shell is Some && p.shell->0.local_name() == name
}

pub open spec fn own_of(p: Place) -> Switches {
    own_switches(p.run.child_of("rPr"@))
}

pub open spec fn styled_of(p: Place, sheet: Option<Node>) -> Switches {
    style_switches(style_for(p.run, sheet))
}

/// How many switches both the run and its style speak of.
#[verifier::opaque]
pub open spec fn spoken_twice(p: Place, sheet: Option<Node>) -> nat {
    let own = own_of(p);
    let styled = styled_of(p, sheet);
    one_if(own.bold is Some && styled.bold is Some) + one_if(
        own.italic is Some && styled.italic is Some,
    ) + one_if(own.strike is Some && styled.strike is Some) + one_if(
        own.underline is Some && styled.underline is Some,
    )
}

/// The run names a note of that kind, and it is there.
pub open spec fn note_hit(
    p: Place,
    keys: Seq<(Seq<char>, Seq<char>)>,
    element: Seq<char>,
    kind: Seq<char>,
) -> bool {
    ref_id(p.run, element) is Some && note_place(keys, ref_id(p.run, element)->0, kind) is Some
}

/// How many of the notes that a run names are there.
#[verifier::opaque]
pub open spec fn notes_hit(p: Place, keys: Seq<(Seq<char>, Seq<char>)>) -> nat {
    one_if(note_hit(p, keys, "footnoteReference"@, "footnote"@)) + one_if(
        note_hit(p, keys, "endnoteReference"@, "endnote"@),
    )
}

/// Something that a run can be counted for.
#[derive(Debug, Clone, Copy, PartialEq, Eq, Structural)]
pub enum Feature {
    /// Runs with a properties element.
    WithProps,
    /// Properties elements that hold nothing.
    PropsEmpty,
    /// Runs whose properties hold something.
    WithFormat,
    /// Runs that name a character style.
    WithStyle,
    /// Runs whose character style is there.
    StyleFound,
    /// Runs with text.
    WithText,
    /// Runs that refer to a note or a comment.
    WithRef,
    /// Runs that are part of a field.
    FieldRuns,
    /// Runs in a shell.
    Wrapped,
    /// Runs in a link.
    WrappedLink,
    /// Runs in an insertion.
    WrappedIns,
    /// Runs in a deletion.
    WrappedDel,
    /// Runs that switch bold on.
    BoldOn,
    /// Runs that switch bold off.
    BoldOff,
    /// Runs whose style alone speaks of bold.
    BoldFromStyle,
    /// Runs that switch italic on.
    ItalicOn,
    /// Runs that switch italic off.
    ItalicOff,
    /// Runs whose style alone speaks of italic.
    ItalicFromStyle,
    /// Runs that switch strike on.
    StrikeOn,
    /// Runs that switch strike off.
    StrikeOff,
    /// Runs whose style alone speaks of strike.
    StrikeFromStyle,
    /// Runs that switch underline on.
    UnderlineOn,
    /// Runs that switch underline off.
    UnderlineOff,
    /// Runs whose style alone speaks of underline.
    UnderlineFromStyle,
}

/// Whether a run is counted for something.
pub open spec fn counts_for(p: Place, sheet: Option<Node>, q: Feature) -> bool {
    match q {
        Feature::WithProps => p.run.child_of("rPr"@) is Some,
        Feature::PropsEmpty => p.run.child_of("rPr"@) is Some && kids_of(p).len() == 0,
        Feature::WithFormat => kids_of(p).len() > 0,
        Feature::WithStyle => named_style(p.run) is Some,
        Feature::StyleFound => style_for(p.run, sheet) is Some,
        Feature::WithText => joined_text(p.run.all_of("t"@)).len() > 0,
        Feature::WithRef => refers(p),
        Feature::FieldRuns => in_field(p),
        Feature::Wrapped => p.shell is Some,
        Feature::WrappedLink => shelled(p, "hyperlink"@),
        Feature::WrappedIns => shelled(p, "ins"@),
        Feature::WrappedDel => shelled(p, "del"@),
        Feature::BoldOn => own_of(p).bold == Some(true),
        Feature::BoldOff => own_of(p).bold == Some(false),
        Feature::BoldFromStyle => own_of(p).bold is None && styled_of(p, sheet).bold is Some,
        Feature::ItalicOn => own_of(p).italic == Some(true),
        Feature::ItalicOff => own_of(p).italic == Some(false),
        Feature::ItalicFromStyle => own_of(p).italic is None && styled_of(p, sheet).italic is Some,
        Feature::StrikeOn => own_of(p).strike == Some(true),
        Feature::StrikeOff => own_of(p).strike == Some(false),
        Feature::StrikeFromStyle => own_of(p).strike is None && styled_of(p, sheet).strike is Some,
        Feature::UnderlineOn => own_of(p).underline == Some(true),
        Feature::UnderlineOff => own_of(p).underline == Some(false),
        Feature::UnderlineFromStyle => own_of(p).underline is None
            && styled_of(p, sheet).underline is Some,
    }
}

/// How many of the first `n` runs are counted for something.
pub open spec fn count_upto(ps: Seq<Place>, sheet: Option<Node>, q: Feature, n: int) -> nat
    decreases n,
{
    if n <= 0 {
        0
    } else {
        count_upto(ps, sheet, q, n - 1) + one_if(counts_for(ps[n - 1], sheet, q))
    }
}

fn row_counts(
    row: &RunRow,
    q: Feature,
    Ghost(at): Ghost<(Place, Option<Node>, Seq<(Seq<char>, Seq<char>)>)>,
) -> (r: bool)
    requires
        row.describes(at.0, at.1, at.2),
    ensures
        r == counts_for(at.0, at.1, q),
{
    proof {
        assert(row.elements@.len() == texts(row.elements@).len());
        assert(local_names(kids_of(at.0)).len() == kids_of(at.0).len());
        assert(row.instructions@.len() == texts(row.instructions@).len());
        assert(row.field_chars@.len() == texts(row.field_chars@).len());
    }
    match q {
        Feature::WithProps => row.props_attrs.is_some(),
        Feature::PropsEmpty => row.props_attrs.is_some() && row.elements.len() == 0,
        Feature::WithFormat => row.elements.len() > 0,
        Feature::WithStyle => row.style.is_some(),
        Feature::StyleFound => row.style_format.is_some(),
        Feature::WithText => row.text.as_str().unicode_len() > 0,
        Feature::WithRef => row.footnote.is_some()
            || row.endnote.is_some()
            || row.comment.is_some(),
        Feature::FieldRuns => row.instructions.len() > 0 || row.field_chars.len() > 0,
        Feature::Wrapped => row.wrapped.is_some(),
        Feature::WrappedLink => says(&row.wrapped, "hyperlink"),
        Feature::WrappedIns => says(&row.wrapped, "ins"),
        Feature::WrappedDel => says(&row.wrapped, "del"),
        Feature::BoldOn => row.switches.bold == Some(true),
        Feature::BoldOff => row.switches.bold == Some(false),
        Feature::BoldFromStyle => row.switches.bold.is_none() && row.style_switches.bold.is_some(),
        Feature::ItalicOn => row.switches.italic == Some(true),
        Feature::ItalicOff => row.switches.italic == Some(false),
        Feature::ItalicFromStyle => row.switches.italic.is_none()
            && row.style_switches.italic.is_some(),
        Feature::StrikeOn => row.switches.strike == Some(true),
        Feature::StrikeOff => row.switches.strike == Some(false),
        Feature::StrikeFromStyle => row.switches.strike.is_none()
            && row.style_switches.strike.is_some(),
        Feature::UnderlineOn => row.switches.underline == Some(true),
        Feature::UnderlineOff => row.switches.underline == Some(false),
        Feature::UnderlineFromStyle => row.switches.underline.is_none()
            && row.style_switches.underline.is_some(),
    }
}

/// The rows are those of the runs.
pub open spec fn rows_describe(
    rows: Seq<RunRow>,
    ps: Seq<Place>,
    sheet: Option<Node>,
    keys: Seq<(Seq<char>, Seq<char>)>,
) -> bool {
    rows.len() == ps.len() && forall|i: int|
        0 <= i < rows.len() ==> (#[trigger] rows[i]).describes(ps[i], sheet, keys)
}

/// Counts the runs for something.
fn count_rows(
    rows: &Vec<RunRow>,
    q: Feature,
    Ghost(at): Ghost<(Seq<Place>, Option<Node>, Seq<(Seq<char>, Seq<char>)>)>,
) -> (r: usize)
    requires
        rows_describe(rows@, at.0, at.1, at.2),
    ensures
        r == count_upto(at.0, at.1, q, at.0.len() as int),
{
    let mut count: usize = 0;
    let mut i: usize = 0;
    while i < rows.len()
        invariant
            count <= i <= rows@.len(),
            rows_describe(rows@, at.0, at.1, at.2),
            count == count_upto(at.0, at.1, q, i as int),
        decreases rows@.len() - i,
    {
        count = count + flag(row_counts(&rows[i], q, Ghost((at.0[i as int], at.1, at.2))));
        i += 1;
    }
    count
}

/// How many switches both the run and its style speak of.
fn count_both(
    row: &RunRow,
    Ghost(at): Ghost<(Place, Option<Node>, Seq<(Seq<char>, Seq<char>)>)>,
) -> (r: usize)
    requires
        row.describes(at.0, at.1, at.2),
    ensures
        r == spoken_twice(at.0, at.1),
{
    reveal(spoken_twice);
    let own: Switches = row.switches;
    let styled: Switches = row.style_switches;
    flag(own.bold.is_some() && styled.bold.is_some()) + flag(
        own.italic.is_some() && styled.italic.is_some(),
    ) + flag(own.strike.is_some() && styled.strike.is_some()) + flag(
        own.underline.is_some() && styled.underline.is_some(),
    )
}

/// How many of the notes that a run names are there.
fn count_hits(
    row: &RunRow,
    notes: &Vec<NoteKey>,
    Ghost(at): Ghost<(Place, Option<Node>)>,
) -> (r: usize)
    requires
        row.describes(at.0, at.1, note_keys(notes@)),
    ensures
        r == notes_hit(at.0, note_keys(notes@)),
{
    reveal(notes_hit);
    let foot: bool = match &row.footnote {
        Some(id) => find_note(notes, id.as_str(), "footnote").is_some(),
        None => false,
    };
    let end: bool = match &row.endnote {
        Some(id) => find_note(notes, id.as_str(), "endnote").is_some(),
        None => false,
    };
    flag(foot) + flag(end)
}

/// How many switches the first `n` runs and their styles both speak of.
pub open spec fn spoken_upto(ps: Seq<Place>, sheet: Option<Node>, n: int) -> nat
    decreases n,
{
    if n <= 0 {
        0
    } else {
        spoken_upto(ps, sheet, n - 1) + spoken_twice(ps[n - 1], sheet)
    }
}

/// How many note references of the first `n` runs lead to a note.
pub open spec fn hits_upto(ps: Seq<Place>, keys: Seq<(Seq<char>, Seq<char>)>, n: int) -> nat
    decreases n,
{
    if n <= 0 {
        0
    } else {
        hits_upto(ps, keys, n - 1) + notes_hit(ps[n - 1], keys)
    }
}

/// Counts what one run can be counted for more than once.
fn count_more(
    rows: &Vec<RunRow>,
    notes: &Vec<NoteKey>,
    Ghost(at): Ghost<(Seq<Place>, Option<Node>)>,
) -> (r: (usize, usize))
    requires
        rows_describe(rows@, at.0, at.1, note_keys(notes@)),
    ensures
        r.0 == capped(spoken_upto(at.0, at.1, at.0.len() as int)),
        r.1 == capped(hits_upto(at.0, note_keys(notes@), at.0.len() as int)),
{
    let mut both: usize = 0;
    let mut hits: usize = 0;
    let mut i: usize = 0;
    while i < rows.len()
        invariant
            i <= rows@.len(),
            rows_describe(rows@, at.0, at.1, note_keys(notes@)),
            both == capped(spoken_upto(at.0, at.1, i as int)),
            hits == capped(hits_upto(at.0, note_keys(notes@), i as int)),
        decreases rows@.len() - i,
    {
        both = both.saturating_add(
            count_both(&rows[i], Ghost((at.0[i as int], at.1, note_keys(notes@)))),
        );
        hits = hits.saturating_add(count_hits(&rows[i], notes, Ghost((at.0[i as int], at.1))));
        i += 1;
    }
    (both, hits)
}

/// The notes that a run names, with their kind.
pub open spec fn refs_of(p: Place) -> Seq<(Seq<char>, Seq<char>)> {
    let foot = match ref_id(p.run, "footnoteReference"@) {
        Some(id) => seq![(id, "footnote"@)],
        None => Seq::empty(),
    };
    match ref_id(p.run, "endnoteReference"@) {
        Some(id) => foot.push((id, "endnote"@)),
        None => foot,
    }
}

/// The notes that the first `n` runs name.
pub open spec fn refs_upto(ps: Seq<Place>, n: int) -> Seq<(Seq<char>, Seq<char>)>
    decreases n,
{
    if n <= 0 {
        Seq::empty()
    } else {
        refs_upto(ps, n - 1) + refs_of(ps[n - 1])
    }
}

/// The notes that a text names.
pub open spec fn named_notes(ps: Seq<Place>) -> Set<(Seq<char>, Seq<char>)> {
    refs_upto(ps, ps.len() as int).to_set()
}

/// How many of the first `n` notes no run names.
pub open spec fn unnamed_upto(
    keys: Seq<(Seq<char>, Seq<char>)>,
    named: Set<(Seq<char>, Seq<char>)>,
    n: int,
) -> nat
    decreases n,
{
    if n <= 0 {
        0
    } else {
        unnamed_upto(keys, named, n - 1) + one_if(!named.contains(keys[n - 1]))
    }
}

/// Adds a note to a list of different notes.
fn add_key(out: &mut Vec<NoteKey>, id: &String, kind: &'static str)
    requires
        note_keys(old(out)@).no_duplicates(),
    ensures
        note_keys(final(out)@).no_duplicates(),
        note_keys(final(out)@).to_set() == note_keys(old(out)@).to_set().insert((id@, kind@)),
{
    let ghost before = note_keys(out@);
    let ghost key = (id@, kind@);
    let ghost p = |k: (Seq<char>, Seq<char>)| k == key;
    proof {
        lemma_first_from(before, p, 0);
    }
    match find_note(out, id.as_str(), kind) {
        Some(i) => {
            assert(before[i as int] == key);
            assert(before.to_set() =~= before.to_set().insert(key));
        },
        None => {
            let one: NoteKey = NoteKey { id: id.clone(), kind };
            out.push(one);
            assert(note_keys(out@) =~= before.push(key));
            assert(before.push(key).to_set() =~= before.to_set().insert(key)) by {
                let more = before.push(key);
                assert forall|x: (Seq<char>, Seq<char>)|
                    more.to_set().contains(x) <==> before.to_set().insert(key).contains(x) by {
                    if more.contains(x) && x != key {
                        let j = choose|j: int| 0 <= j < more.len() && more[j] == x;
                        assert(before[j] == x);
                    }
                    if before.contains(x) {
                        let j = choose|j: int| 0 <= j < before.len() && before[j] == x;
                        assert(before.push(key)[j] == x);
                    }
                    assert(before.push(key)[before.len() as int] == key);
                }
            }
        },
    }
}

/// The different notes that runs name.
fn collect_refs(
    rows: &Vec<RunRow>,
    Ghost(at): Ghost<(Seq<Place>, Option<Node>, Seq<(Seq<char>, Seq<char>)>)>,
) -> (r: Vec<NoteKey>)
    requires
        rows_describe(rows@, at.0, at.1, at.2),
    ensures
        note_keys(r@).no_duplicates(),
        note_keys(r@).to_set() == named_notes(at.0),
{
    let mut out: Vec<NoteKey> = Vec::new();
    let mut i: usize = 0;
    assert(note_keys(out@).to_set() =~= refs_upto(at.0, 0).to_set());
    while i < rows.len()
        invariant
            i <= rows@.len(),
            rows_describe(rows@, at.0, at.1, at.2),
            note_keys(out@).no_duplicates(),
            note_keys(out@).to_set() == refs_upto(at.0, i as int).to_set(),
        decreases rows@.len() - i,
    {
        let ghost before = note_keys(out@).to_set();
        let ghost p = at.0[i as int];
        assert(rows@[i as int].describes(p, at.1, at.2));
        if let Some(id) = &rows[i].footnote {
            add_key(&mut out, id, "footnote");
        }
        if let Some(id) = &rows[i].endnote {
            add_key(&mut out, id, "endnote");
        }
        proof {
            let had = refs_upto(at.0, i as int);
            let more = refs_of(p);
            assert forall|x: (Seq<char>, Seq<char>)|
                (had + more).to_set().contains(x) <==> note_keys(out@).to_set().contains(x) by {
                lemma_in_sum(had, more, x);
                if let Some(id) = ref_id(p.run, "footnoteReference"@) {
                    assert(more[0] == (id, "footnote"@));
                }
                if let Some(id) = ref_id(p.run, "endnoteReference"@) {
                    assert(more[more.len() - 1] == (id, "endnote"@));
                }
            }
            assert((had + more).to_set() =~= note_keys(out@).to_set());
        }
        i += 1;
    }
    out
}

proof fn lemma_in_sum<T>(a: Seq<T>, b: Seq<T>, x: T)
    ensures
        (a + b).contains(x) <==> a.contains(x) || b.contains(x),
{
    if a.contains(x) {
        let j = choose|j: int| 0 <= j < a.len() && a[j] == x;
        assert((a + b)[j] == x);
    }
    if b.contains(x) {
        let j = choose|j: int| 0 <= j < b.len() && b[j] == x;
        assert((a + b)[a.len() + j] == x);
    }
    if (a + b).contains(x) {
        let j = choose|j: int| 0 <= j < (a + b).len() && (a + b)[j] == x;
        if j < a.len() {
            assert(a[j] == x);
        } else {
            assert(b[j - a.len()] == x);
        }
    }
}

/// Counts the notes that no run names.
fn count_unnamed(notes: &Vec<NoteKey>, named: &Vec<NoteKey>) -> (r: usize)
    ensures
        r == unnamed_upto(
            note_keys(notes@),
            note_keys(named@).to_set(),
            notes@.len() as int,
        ),
{
    let ghost keys = note_keys(notes@);
    let ghost set = note_keys(named@);
    let mut count: usize = 0;
    let mut i: usize = 0;
    while i < notes.len()
        invariant
            count <= i <= notes@.len(),
            keys == note_keys(notes@),
            set == note_keys(named@),
            count == unnamed_upto(keys, set.to_set(), i as int),
        decreases notes@.len() - i,
    {
        let found: Option<usize> = find_note(named, notes[i].id.as_str(), notes[i].kind);
        proof {
            let key = keys[i as int];
            assert(key == (notes@[i as int].id@, notes@[i as int].kind@));
            lemma_first_from(set, |k: (Seq<char>, Seq<char>)| k == key, 0);
            if let Some(k) = found {
                assert(set[k as int] == key);
            }
            assert(found is Some <==> set.to_set().contains(key));
        }
        count = count + flag(found.is_none());
        i += 1;
    }
    count
}

/// What the runs of a document say.
#[derive(Debug)]
pub struct RunReport {
    pub checked: usize,
    pub with_props: usize,
    pub props_empty: usize,
    pub with_format: usize,
    pub with_style: usize,
    pub style_found: usize,
    pub with_text: usize,
    pub with_ref: usize,
    pub field_runs: usize,
    pub wrapped: usize,
    pub wrapped_link: usize,
    pub wrapped_ins: usize,
    pub wrapped_del: usize,
    pub bold_on: usize,
    pub bold_off: usize,
    pub bold_from_style: usize,
    pub italic_on: usize,
    pub italic_off: usize,
    pub italic_from_style: usize,
    pub strike_on: usize,
    pub strike_off: usize,
    pub strike_from_style: usize,
    pub underline_on: usize,
    pub underline_off: usize,
    pub underline_from_style: usize,
    pub where_both_spoke: usize,
    pub ref_found: usize,
    pub notes_in_parts: usize,
    pub notes_referenced: usize,
    pub notes_unreferenced: usize,
    /// The first rows, as many as were asked for.
    pub list: Vec<RunRow>,
}

impl RunReport {
    /// The report is that of the paragraphs.
    pub open spec fn describes(
        self,
        paragraphs: Seq<Node>,
        sheet: Option<Node>,
        keys: Seq<(Seq<char>, Seq<char>)>,
        limit: usize,
    ) -> bool {
        let ps = places(paragraphs);
        let n = ps.len() as int;
        &&& self.checked == n
        &&& self.with_props == count_upto(ps, sheet, Feature::WithProps, n)
        &&& self.props_empty == count_upto(ps, sheet, Feature::PropsEmpty, n)
        &&& self.with_format == count_upto(ps, sheet, Feature::WithFormat, n)
        &&& self.with_style == count_upto(ps, sheet, Feature::WithStyle, n)
        &&& self.style_found == count_upto(ps, sheet, Feature::StyleFound, n)
        &&& self.with_text == count_upto(ps, sheet, Feature::WithText, n)
        &&& self.with_ref == count_upto(ps, sheet, Feature::WithRef, n)
        &&& self.field_runs == count_upto(ps, sheet, Feature::FieldRuns, n)
        &&& self.wrapped == count_upto(ps, sheet, Feature::Wrapped, n)
        &&& self.wrapped_link == count_upto(ps, sheet, Feature::WrappedLink, n)
        &&& self.wrapped_ins == count_upto(ps, sheet, Feature::WrappedIns, n)
        &&& self.wrapped_del == count_upto(ps, sheet, Feature::WrappedDel, n)
        &&& self.bold_on == count_upto(ps, sheet, Feature::BoldOn, n)
        &&& self.bold_off == count_upto(ps, sheet, Feature::BoldOff, n)
        &&& self.bold_from_style == count_upto(ps, sheet, Feature::BoldFromStyle, n)
        &&& self.italic_on == count_upto(ps, sheet, Feature::ItalicOn, n)
        &&& self.italic_off == count_upto(ps, sheet, Feature::ItalicOff, n)
        &&& self.italic_from_style == count_upto(ps, sheet, Feature::ItalicFromStyle, n)
        &&& self.strike_on == count_upto(ps, sheet, Feature::StrikeOn, n)
        &&& self.strike_off == count_upto(ps, sheet, Feature::StrikeOff, n)
        &&& self.strike_from_style == count_upto(ps, sheet, Feature::StrikeFromStyle, n)
        &&& self.underline_on == count_upto(ps, sheet, Feature::UnderlineOn, n)
        &&& self.underline_off == count_upto(ps, sheet, Feature::UnderlineOff, n)
        &&& self.underline_from_style == count_upto(ps, sheet, Feature::UnderlineFromStyle, n)
        &&& self.where_both_spoke == capped(spoken_upto(ps, sheet, n))
        &&& self.ref_found == capped(hits_upto(ps, keys, n))
        &&& self.notes_in_parts == keys.len()
        &&& self.notes_referenced == named_notes(ps).len()
        &&& self.notes_unreferenced == unnamed_upto(keys, named_notes(ps), keys.len() as int)
        &&& rows_describe(self.list@, ps.take(at_most(ps.len(), limit) as int), sheet, keys)
    }
}

/// Reads the character formatting of a document: every run with what it writes, what the
/// character style it names says, and what it holds. The counts are over all runs, the list
/// is cut to `limit`.
pub fn docx_run_formats(
    paragraphs: &Vec<&Node>,
    styles: Option<&Node>,
    footnotes: Option<&Node>,
    endnotes: Option<&Node>,
    limit: usize,
) -> (r: RunReport)
    ensures
        r.describes(
            nodes(paragraphs@),
            node_in(styles),
            all_keys(node_in(footnotes), node_in(endnotes)),
            limit,
        ),
{
    let ghost sheet = node_in(styles);
    let ghost keys = all_keys(node_in(footnotes), node_in(endnotes));
    let ghost ps = places(nodes(paragraphs@));
    let styled: Vec<&Node> = docx_character_styles(styles);
    let notes: Vec<NoteKey> = docx_note_index(footnotes, endnotes);
    let placed: Vec<PlacedRun> = place_runs(paragraphs);
    let mut rows: Vec<RunRow> = Vec::new();
    let mut i: usize = 0;
    while i < placed.len()
        invariant
            i <= placed@.len(),
            nodes(styled@) == character_styles(sheet),
            note_keys(notes@) == keys,
            place_list(placed@) == ps,
            rows@.len() == i,
            forall|k: int| 0 <= k < i ==> (#[trigger] rows@[k]).describes(ps[k], sheet, keys),
        decreases placed@.len() - i,
    {
        assert(ps[i as int] == placed@[i as int].place());
        rows.push(read_run(&placed[i], &styled, &notes, Ghost(sheet)));
        i += 1;
    }
    assert(ps.len() == placed@.len());
    let named: Vec<NoteKey> = collect_refs(&rows, Ghost((ps, sheet, keys)));
    proof {
        note_keys(named@).unique_seq_to_set();
    }
    let (both, hits) = count_more(&rows, &notes, Ghost((ps, sheet)));
    let notes_unreferenced: usize = count_unnamed(&notes, &named);
    let checked: usize = rows.len();
    let with_props: usize = count_rows(&rows, Feature::WithProps, Ghost((ps, sheet, keys)));
    let props_empty: usize = count_rows(&rows, Feature::PropsEmpty, Ghost((ps, sheet, keys)));
    let with_format: usize = count_rows(&rows, Feature::WithFormat, Ghost((ps, sheet, keys)));
    let with_style: usize = count_rows(&rows, Feature::WithStyle, Ghost((ps, sheet, keys)));
    let style_found: usize = count_rows(&rows, Feature::StyleFound, Ghost((ps, sheet, keys)));
    let with_text: usize = count_rows(&rows, Feature::WithText, Ghost((ps, sheet, keys)));
    let with_ref: usize = count_rows(&rows, Feature::WithRef, Ghost((ps, sheet, keys)));
    let field_runs: usize = count_rows(&rows, Feature::FieldRuns, Ghost((ps, sheet, keys)));
    let wrapped: usize = count_rows(&rows, Feature::Wrapped, Ghost((ps, sheet, keys)));
    let wrapped_link: usize = count_rows(&rows, Feature::WrappedLink, Ghost((ps, sheet, keys)));
    let wrapped_ins: usize = count_rows(&rows, Feature::WrappedIns, Ghost((ps, sheet, keys)));
    let wrapped_del: usize = count_rows(&rows, Feature::WrappedDel, Ghost((ps, sheet, keys)));
    let bold_on: usize = count_rows(&rows, Feature::BoldOn, Ghost((ps, sheet, keys)));
    let bold_off: usize = count_rows(&rows, Feature::BoldOff, Ghost((ps, sheet, keys)));
    let bold_from_style: usize = count_rows(
        &rows,
        Feature::BoldFromStyle,
        Ghost((ps, sheet, keys)),
    );
    let italic_on: usize = count_rows(&rows, Feature::ItalicOn, Ghost((ps, sheet, keys)));
    let italic_off: usize = count_rows(&rows, Feature::ItalicOff, Ghost((ps, sheet, keys)));
    let italic_from_style: usize = count_rows(
        &rows,
        Feature::ItalicFromStyle,
        Ghost((ps, sheet, keys)),
    );
    let strike_on: usize = count_rows(&rows, Feature::StrikeOn, Ghost((ps, sheet, keys)));
    let strike_off: usize = count_rows(&rows, Feature::StrikeOff, Ghost((ps, sheet, keys)));
    let strike_from_style: usize = count_rows(
        &rows,
        Feature::StrikeFromStyle,
        Ghost((ps, sheet, keys)),
    );
    let underline_on: usize = count_rows(&rows, Feature::UnderlineOn, Ghost((ps, sheet, keys)));
    let underline_off: usize = count_rows(&rows, Feature::UnderlineOff, Ghost((ps, sheet, keys)));
    let underline_from_style: usize = count_rows(
        &rows,
        Feature::UnderlineFromStyle,
        Ghost((ps, sheet, keys)),
    );
    let mut list: Vec<RunRow> = rows;
    if limit < list.len() {
        list.truncate(limit);
    }
    RunReport {
        checked,
        with_props,
        props_empty,
        with_format,
        with_style,
        style_found,
        with_text,
        with_ref,
        field_runs,
        wrapped,
        wrapped_link,
        wrapped_ins,
        wrapped_del,
        bold_on,
        bold_off,
        bold_from_style,
        italic_on,
        italic_off,
        italic_from_style,
        strike_on,
        strike_off,
        strike_from_style,
        underline_on,
        underline_off,
        underline_from_style,
        where_both_spoke: both,
        ref_found: hits,
        notes_in_parts: notes.len(),
        notes_referenced: named.len(),
        notes_unreferenced,
        list,
    }
}

/// A switch in the properties of a run is on where its element stands there without a value or
/// with one that does not switch it off, off where the value is one of the four words for that,
/// and not said where there is no such element.
pub proof fn law_how_a_switch_stands(props: Node, name: Seq<char>, n: Node)
    ensures
        props.child_of(name) is None ==> switch_in(Some(props), name) is None,
        switch_in(None, name) is None,
        props.child_of(name) == Some(n) && n.attr_text("val"@) is None ==> switch_in(
            Some(props),
            name,
        ) == Some(true),
        props.child_of(name) == Some(n) && (n.attr_text("val"@) == Some("0"@) || n.attr_text(
            "val"@,
        ) == Some("false"@) || n.attr_text("val"@) == Some("off"@) || n.attr_text("val"@) == Some(
            "none"@,
        )) ==> switch_in(Some(props), name) == Some(false),
        props.child_of(name) == Some(n) && (n.attr_text("val"@) matches Some(v) && v != "0"@ && v
            != "false"@ && v != "off"@ && v != "none"@) ==> switch_in(Some(props), name) == Some(
            true,
        ),
{
}

/// Bold, slanted, struck and underlined each have an element of their own.
pub proof fn law_switches_have_their_elements(props: Option<Node>, style: Option<Node>)
    ensures
        own_switches(props).bold == switch_in(props, "b"@),
        own_switches(props).italic == switch_in(props, "i"@),
        own_switches(props).strike == switch_in(props, "strike"@),
        own_switches(props).underline == switch_in(props, "u"@),
        style_switches(style).bold == style_switch(style, "b"@),
        style_switches(style).italic == style_switch(style, "i"@),
        style_switches(style).strike == style_switch(style, "strike"@),
        style_switches(style).underline == style_switch(style, "u"@),
        style_switch(None, "b"@) is None,
{
}

/// What is told of a run stands in its own properties: its colour, its highlight, its size and its
/// position each in an element of that name, and its fonts in one whole.
pub proof fn law_what_a_run_says(
    r: RunRow,
    p: Place,
    sheet: Option<Node>,
    keys: Seq<(Seq<char>, Seq<char>)>,
    props: Node,
)
    requires
        r.describes(p, sheet, keys),
        p.run.child_of("rPr"@) == Some(props),
    ensures
        r.para == p.para,
        r.at == p.at,
        r.switches.bold == switch_in(Some(props), "b"@),
        r.switches.italic == switch_in(Some(props), "i"@),
        r.switches.strike == switch_in(Some(props), "strike"@),
        r.switches.underline == switch_in(Some(props), "u"@),
        text_in(r.color) == said_by(props.child_of("color"@), "val"@),
        text_in(r.highlight) == said_by(props.child_of("highlight"@), "val"@),
        text_in(r.size) == said_by(props.child_of("sz"@), "val"@),
        text_in(r.position) == said_by(props.child_of("vertAlign"@), "val"@),
        table_in(r.fonts) == table_if(props.child_of("rFonts"@)),
        text_in(r.style) == said_by(props.child_of("rStyle"@), "val"@),
        table_in(r.props_attrs) == Some(table_of(props)),
        r.elements@.len() == props.children@.filter(|n: Node| n.local_name() != "#text"@).len(),
        r.format@.len() == props.children@.filter(
            |n: Node| n.local_name() != "#text"@ && n.local_name() != "rStyle"@,
        ).len(),
{
    let a = |n: Node| n.local_name() != "#text"@ && n.local_name() != "#text"@;
    let b = |n: Node| n.local_name() != "#text"@;
    assert(a =~= b);
    assert(texts(r.elements@).len() == r.elements@.len());
    assert(local_names(except(props.children@, "#text"@, "#text"@)).len() == r.elements@.len());
}

/// A run without properties says nothing of its shape.
pub proof fn law_a_run_without_properties_says_nothing(
    r: RunRow,
    p: Place,
    sheet: Option<Node>,
    keys: Seq<(Seq<char>, Seq<char>)>,
)
    requires
        r.describes(p, sheet, keys),
        p.run.child_of("rPr"@) is None,
    ensures
        r.switches.bold is None && r.switches.italic is None && r.switches.strike is None
            && r.switches.underline is None,
        r.color is None && r.highlight is None && r.size is None && r.position is None && r.fonts
            is None,
        r.style is None && r.style_found is None && r.style_name is None && r.style_parent is None
            && r.style_format is None,
        r.props_attrs is None,
{
}

/// What a run holds: its texts one after another, what it refers to, the kinds of its breaks, its
/// field instructions and the kinds of its field marks, and the shell that it sits in.
pub proof fn law_what_a_run_holds(
    r: RunRow,
    p: Place,
    sheet: Option<Node>,
    keys: Seq<(Seq<char>, Seq<char>)>,
)
    requires
        r.describes(p, sheet, keys),
    ensures
        r.text@ == joined_text(p.run.children@.filter(|n: Node| n.local_name() == "t"@)),
        text_in(r.footnote) == said_by(p.run.child_of("footnoteReference"@), "id"@),
        text_in(r.endnote) == said_by(p.run.child_of("endnoteReference"@), "id"@),
        text_in(r.comment) == said_by(p.run.child_of("commentReference"@), "id"@),
        option_texts(r.breaks@) == each_says(p.run.all_of("br"@), "type"@),
        texts(r.instructions@) == each_text(p.run.all_of("instrText"@)),
        texts(r.field_chars@) == some_say(
            p.run.all_of("fldChar"@),
            "fldCharType"@,
            p.run.all_of("fldChar"@).len() as int,
        ),
        p.shell is None ==> r.wrapped is None && r.wrapped_written is None,
        p.shell matches Some(s) ==> text_in(r.wrapped) == Some(s.local_name()) && table_in(
            r.wrapped_written,
        ) == Some(table_of(s)),
        r.contents@.len() == p.run.children@.filter(
            |n: Node| n.local_name() != "#text"@ && n.local_name() != "rPr"@,
        ).len(),
{
}

/// The note that a run refers to: an endnote where it names one, and a footnote otherwise; where
/// the note stands among all is told, or that it is not there.
pub proof fn law_which_note_a_run_means(
    r: RunRow,
    p: Place,
    sheet: Option<Node>,
    keys: Seq<(Seq<char>, Seq<char>)>,
    id: Seq<char>,
    i: int,
)
    requires
        r.describes(p, sheet, keys),
    ensures
        r.endnote matches Some(e) ==> (r.note matches Some(n) && n.kind@ == "endnote"@ && n.id@
            == e@),
        r.endnote is None ==> (r.footnote matches Some(f) ==> (r.note matches Some(n) && n.kind@
            == "footnote"@ && n.id@ == f@)),
        r.endnote is None && r.footnote is None ==> r.note is None,
        r.note matches Some(n) ==> (0 <= i < keys.len() && keys[i] == (n.id@, n.kind@) && (forall|
            k: int,
        |
            0 <= k < i ==> #[trigger] keys[k] != (n.id@, n.kind@)) ==> n.at == Some(i as usize)
            || i > usize::MAX),
        r.note matches Some(n) ==> ((forall|k: int|
            0 <= k < keys.len() ==> #[trigger] keys[k] != (n.id@, n.kind@)) ==> n.at is None),
{
    if let Some(n) = r.note {
        let q = |k: (Seq<char>, Seq<char>)| k == (n.id@, n.kind@);
        lemma_first_from(keys, q, 0);
        match first(keys, q) {
            Some(j) => {
                assert(q(keys[j]));
                if 0 <= i < keys.len() && j > i {
                    assert(!q(keys[i]));
                }
            },
            None => {
                if 0 <= i < keys.len() {
                    assert(!q(keys[i]));
                }
            },
        }
    }
}

/// The character style that a run names is the first of that id among the character styles of the
/// sheet, and what it says is told with its name and the style it is based on.
pub proof fn law_which_style_a_run_has(
    r: RunRow,
    p: Place,
    sheet: Node,
    keys: Seq<(Seq<char>, Seq<char>)>,
    all: Seq<Node>,
    k: int,
)
    requires
        r.describes(p, Some(sheet), keys),
        r.style is Some,
        all == sheet.below("style"@).filter(
            |s: Node|
                s.attr_text("type"@) == Some("character"@) && s.attr_text("styleId"@) is Some,
        ),
    ensures
        0 <= k < all.len() && all[k].attr_text("styleId"@) == text_in(r.style) && (forall|j: int|
            0 <= j < k ==> (#[trigger] all[j]).attr_text("styleId"@) != text_in(r.style)) ==> {
            &&& r.style_found == Some(true)
            &&& text_in(r.style_name) == said_by(all[k].child_of("name"@), "val"@)
            &&& text_in(r.style_parent) == said_by(all[k].child_of("basedOn"@), "val"@)
            &&& r.style_switches.bold == style_switch(Some(all[k]), "b"@)
            &&& r.style_switches.italic == style_switch(Some(all[k]), "i"@)
            &&& r.style_format is Some
        },
        (forall|j: int|
            0 <= j < all.len() ==> (#[trigger] all[j]).attr_text("styleId"@) != text_in(r.style))
            ==> r.style_found == Some(false) && r.style_name is None && r.style_parent is None
            && r.style_format is None,
{
    let a = |s: Node| is_character_style(s);
    let b = |s: Node|
        s.attr_text("type"@) == Some("character"@) && s.attr_text("styleId"@) is Some;
    assert(a =~= b);
    assert(character_styles(Some(sheet)) == all);
    let id = text_in(r.style)->0;
    let q = |s: Node| s.attr_text("styleId"@) == Some(id);
    lemma_first_from(all, q, 0);
    match first(all, q) {
        Some(j) => {
            assert(q(all[j]));
            if 0 <= k < all.len() && j > k {
                assert(!q(all[k]));
            }
        },
        None => {
            if 0 <= k < all.len() {
                assert(!q(all[k]));
            }
        },
    }
}

/// A character style says of a switch what the first of its properties of that name says; its link
/// to another style is no property.
pub proof fn law_what_a_style_switches(style: Node, parts: Seq<Node>, k: int, name: Seq<char>)
    requires
        style.child_of("rPr"@) is Some,
        parts == style.child_of("rPr"@)->0.children@.filter(
            |n: Node| n.local_name() != "#text"@ && n.local_name() != "rStyle"@,
        ),
    ensures
        0 <= k < parts.len() && parts[k].local_name() == name && (forall|j: int|
            0 <= j < k ==> (#[trigger] parts[j]).local_name() != name) ==> style_switch(
            Some(style),
            name,
        ) == Some(
            match entry_of(table_of(parts[k]), "val"@) {
                Some(v) => v != "0"@ && v != "false"@ && v != "off"@ && v != "none"@,
                None => true,
            },
        ),
        (forall|j: int| 0 <= j < parts.len() ==> (#[trigger] parts[j]).local_name() != name)
            ==> style_switch(Some(style), name) is None,
{
    assert(style_parts(style) == parts);
    let q = |n: Node| n.local_name() == name;
    lemma_first_from(parts, q, 0);
    match first(parts, q) {
        Some(j) => {
            assert(q(parts[j]));
            if 0 <= k < parts.len() && j > k {
                assert(!q(parts[k]));
            }
        },
        None => {
            if 0 <= k < parts.len() {
                assert(!q(parts[k]));
            }
        },
    }
}

/// The runs of a paragraph are its children that are runs and those inside a link, an insertion or
/// a deletion, in their order; nothing else holds runs of the paragraph.
pub proof fn law_which_runs_a_paragraph_has(c: Seq<Node>, one: Node)
    ensures
        runs_upto(Seq::empty(), 0).len() == 0,
        one.local_name() == "r"@ ==> runs_upto(c.push(one), c.len() + 1int) == runs_upto(
            c,
            c.len() as int,
        ).push((one, None)),
        one.local_name() == "hyperlink"@ || one.local_name() == "ins"@ || one.local_name()
            == "del"@ ==> runs_upto(c.push(one), c.len() + 1int) == runs_upto(c, c.len() as int)
            + Seq::new(
            one.all_of("r"@).len(),
            |i: int| (one.all_of("r"@)[i], Some(one)),
        ),
        one.local_name() != "r"@ && one.local_name() != "hyperlink"@ && one.local_name() != "ins"@
            && one.local_name() != "del"@ ==> runs_upto(c.push(one), c.len() + 1int) == runs_upto(
            c,
            c.len() as int,
        ),
{
    reveal_strlit("r");
    reveal_strlit("hyperlink");
    reveal_strlit("ins");
    reveal_strlit("del");
    assert("r"@.len() == 1 && "hyperlink"@.len() == 9 && "ins"@.len() == 3 && "del"@.len() == 3);
    lemma_runs_part(c, c.push(one), c.len() as int);
    assert(in_shell(one.all_of("r"@), Some(one)) =~= Seq::new(
        one.all_of("r"@).len(),
        |i: int| (one.all_of("r"@)[i], Some(one)),
    ));
}

proof fn lemma_runs_part(c: Seq<Node>, d: Seq<Node>, n: int)
    requires
        n <= c.len(),
        n <= d.len(),
        forall|i: int| 0 <= i < n ==> c[i] == d[i],
    ensures
        runs_upto(c, n) == runs_upto(d, n),
    decreases n,
{
    if n > 0 {
        lemma_runs_part(c, d, n - 1);
    }
}

/// The runs of all paragraphs stand one paragraph after another, each with the number of its
/// paragraph and its place among the runs of it.
pub proof fn law_where_runs_stand(paragraphs: Seq<Node>, n: int, j: int)
    requires
        0 <= n,
        0 <= j < runs_of(paragraphs[n]).len(),
    ensures
        places_upto(paragraphs, 0).len() == 0,
        places_upto(paragraphs, n + 1).len() == places_upto(paragraphs, n).len() + runs_of(
            paragraphs[n],
        ).len(),
        places_upto(paragraphs, n + 1)[places_upto(paragraphs, n).len() + j] == (Place {
            para: n,
            at: j,
            run: runs_of(paragraphs[n])[j].0,
            shell: runs_of(paragraphs[n])[j].1,
        }),
{
}

proof fn lemma_count_filter(
    ps: Seq<Place>,
    sheet: Option<Node>,
    f: Feature,
    q: spec_fn(Place) -> bool,
    n: int,
)
    requires
        0 <= n <= ps.len(),
        forall|p: Place| #[trigger] q(p) == counts_for(p, sheet, f),
    ensures
        count_upto(ps, sheet, f, n) == ps.take(n).filter(q).len(),
    decreases n,
{
    reveal(Seq::filter);
    reveal(one_if);
    if n > 0 {
        lemma_count_filter(ps, sheet, f, q, n - 1);
        assert(ps.take(n).drop_last() =~= ps.take(n - 1));
        assert(ps.take(n).last() == ps[n - 1]);
        assert(q(ps[n - 1]) == counts_for(ps[n - 1], sheet, f));
    }
}

/// Each number of the report is how many runs are so, over all runs of all paragraphs.
pub proof fn law_what_runs_are_counted_for(
    r: RunReport,
    paragraphs: Seq<Node>,
    sheet: Option<Node>,
    keys: Seq<(Seq<char>, Seq<char>)>,
    limit: usize,
    ps: Seq<Place>,
)
    requires
        r.describes(paragraphs, sheet, keys, limit),
        ps == places(paragraphs),
    ensures
        r.checked == ps.len(),
        r.with_props == ps.filter(|p: Place| p.run.child_of("rPr"@) is Some).len(),
        r.with_text == ps.filter(|p: Place| joined_text(p.run.all_of("t"@)).len() > 0).len(),
        r.with_style == ps.filter(|p: Place| named_style(p.run) is Some).len(),
        r.wrapped == ps.filter(|p: Place| p.shell is Some).len(),
        r.wrapped_link == ps.filter(
            |p: Place| p.shell matches Some(s) && s.local_name() == "hyperlink"@,
        ).len(),
        r.wrapped_ins == ps.filter(
            |p: Place| p.shell matches Some(s) && s.local_name() == "ins"@,
        ).len(),
        r.wrapped_del == ps.filter(
            |p: Place| p.shell matches Some(s) && s.local_name() == "del"@,
        ).len(),
        r.bold_on == ps.filter(
            |p: Place| switch_in(p.run.child_of("rPr"@), "b"@) == Some(true),
        ).len(),
        r.bold_off == ps.filter(
            |p: Place| switch_in(p.run.child_of("rPr"@), "b"@) == Some(false),
        ).len(),
        r.italic_on == ps.filter(
            |p: Place| switch_in(p.run.child_of("rPr"@), "i"@) == Some(true),
        ).len(),
        r.italic_off == ps.filter(
            |p: Place| switch_in(p.run.child_of("rPr"@), "i"@) == Some(false),
        ).len(),
        r.strike_on == ps.filter(
            |p: Place| switch_in(p.run.child_of("rPr"@), "strike"@) == Some(true),
        ).len(),
        r.strike_off == ps.filter(
            |p: Place| switch_in(p.run.child_of("rPr"@), "strike"@) == Some(false),
        ).len(),
        r.underline_on == ps.filter(
            |p: Place| switch_in(p.run.child_of("rPr"@), "u"@) == Some(true),
        ).len(),
        r.underline_off == ps.filter(
            |p: Place| switch_in(p.run.child_of("rPr"@), "u"@) == Some(false),
        ).len(),
        r.notes_in_parts == keys.len(),
        r.list@.len() <= limit,
        r.list@.len() <= ps.len(),
        r.list@.len() == limit || r.list@.len() == ps.len(),
{
    let n = ps.len() as int;
    assert(ps.take(n) =~= ps);
    lemma_count_filter(
        ps,
        sheet,
        Feature::WithProps,
        |p: Place| p.run.child_of("rPr"@) is Some,
        n,
    );
    lemma_count_filter(
        ps,
        sheet,
        Feature::WithText,
        |p: Place| joined_text(p.run.all_of("t"@)).len() > 0,
        n,
    );
    lemma_count_filter(ps, sheet, Feature::WithStyle, |p: Place| named_style(p.run) is Some, n);
    lemma_count_filter(ps, sheet, Feature::Wrapped, |p: Place| p.shell is Some, n);
    lemma_count_filter(
        ps,
        sheet,
        Feature::WrappedLink,
        |p: Place| p.shell matches Some(s) && s.local_name() == "hyperlink"@,
        n,
    );
    lemma_count_filter(
        ps,
        sheet,
        Feature::WrappedIns,
        |p: Place| p.shell matches Some(s) && s.local_name() == "ins"@,
        n,
    );
    lemma_count_filter(
        ps,
        sheet,
        Feature::WrappedDel,
        |p: Place| p.shell matches Some(s) && s.local_name() == "del"@,
        n,
    );
    lemma_count_filter(
        ps,
        sheet,
        Feature::BoldOn,
        |p: Place| switch_in(p.run.child_of("rPr"@), "b"@) == Some(true),
        n,
    );
    lemma_count_filter(
        ps,
        sheet,
        Feature::BoldOff,
        |p: Place| switch_in(p.run.child_of("rPr"@), "b"@) == Some(false),
        n,
    );
    lemma_count_filter(
        ps,
        sheet,
        Feature::ItalicOn,
        |p: Place| switch_in(p.run.child_of("rPr"@), "i"@) == Some(true),
        n,
    );
    lemma_count_filter(
        ps,
        sheet,
        Feature::ItalicOff,
        |p: Place| switch_in(p.run.child_of("rPr"@), "i"@) == Some(false),
        n,
    );
    lemma_count_filter(
        ps,
        sheet,
        Feature::StrikeOn,
        |p: Place| switch_in(p.run.child_of("rPr"@), "strike"@) == Some(true),
        n,
    );
    lemma_count_filter(
        ps,
        sheet,
        Feature::StrikeOff,
        |p: Place| switch_in(p.run.child_of("rPr"@), "strike"@) == Some(false),
        n,
    );
    lemma_count_filter(
        ps,
        sheet,
        Feature::UnderlineOn,
        |p: Place| switch_in(p.run.child_of("rPr"@), "u"@) == Some(true),
        n,
    );
    lemma_count_filter(
        ps,
        sheet,
        Feature::UnderlineOff,
        |p: Place| switch_in(p.run.child_of("rPr"@), "u"@) == Some(false),
        n,
    );
}

/// What comes from a style alone is counted where the run itself says nothing and its style does;
/// a style is found where the sheet has one of that id, and a run refers where it names a footnote,
/// an endnote or a comment.
pub proof fn law_what_styles_and_references_are_counted_for(
    r: RunReport,
    paragraphs: Seq<Node>,
    sheet: Option<Node>,
    keys: Seq<(Seq<char>, Seq<char>)>,
    limit: usize,
    ps: Seq<Place>,
)
    requires
        r.describes(paragraphs, sheet, keys, limit),
        ps == places(paragraphs),
    ensures
        r.style_found == ps.filter(|p: Place| style_for(p.run, sheet) is Some).len(),
        r.bold_from_style == ps.filter(
            |p: Place|
                switch_in(p.run.child_of("rPr"@), "b"@) is None && style_switch(
                    style_for(p.run, sheet),
                    "b"@,
                ) is Some,
        ).len(),
        r.italic_from_style == ps.filter(
            |p: Place|
                switch_in(p.run.child_of("rPr"@), "i"@) is None && style_switch(
                    style_for(p.run, sheet),
                    "i"@,
                ) is Some,
        ).len(),
        r.strike_from_style == ps.filter(
            |p: Place|
                switch_in(p.run.child_of("rPr"@), "strike"@) is None && style_switch(
                    style_for(p.run, sheet),
                    "strike"@,
                ) is Some,
        ).len(),
        r.underline_from_style == ps.filter(
            |p: Place|
                switch_in(p.run.child_of("rPr"@), "u"@) is None && style_switch(
                    style_for(p.run, sheet),
                    "u"@,
                ) is Some,
        ).len(),
        r.with_ref == ps.filter(
            |p: Place|
                ref_id(p.run, "footnoteReference"@) is Some || ref_id(p.run, "endnoteReference"@)
                    is Some || ref_id(p.run, "commentReference"@) is Some,
        ).len(),
{
    let n = ps.len() as int;
    assert(ps.take(n) =~= ps);
    lemma_count_filter(
        ps,
        sheet,
        Feature::StyleFound,
        |p: Place| style_for(p.run, sheet) is Some,
        n,
    );
    lemma_count_filter(
        ps,
        sheet,
        Feature::BoldFromStyle,
        |p: Place|
            switch_in(p.run.child_of("rPr"@), "b"@) is None && style_switch(
                style_for(p.run, sheet),
                "b"@,
            ) is Some,
        n,
    );
    lemma_count_filter(
        ps,
        sheet,
        Feature::ItalicFromStyle,
        |p: Place|
            switch_in(p.run.child_of("rPr"@), "i"@) is None && style_switch(
                style_for(p.run, sheet),
                "i"@,
            ) is Some,
        n,
    );
    lemma_count_filter(
        ps,
        sheet,
        Feature::StrikeFromStyle,
        |p: Place|
            switch_in(p.run.child_of("rPr"@), "strike"@) is None && style_switch(
                style_for(p.run, sheet),
                "strike"@,
            ) is Some,
        n,
    );
    lemma_count_filter(
        ps,
        sheet,
        Feature::UnderlineFromStyle,
        |p: Place|
            switch_in(p.run.child_of("rPr"@), "u"@) is None && style_switch(
                style_for(p.run, sheet),
                "u"@,
            ) is Some,
        n,
    );
    lemma_count_filter(
        ps,
        sheet,
        Feature::WithRef,
        |p: Place|
            ref_id(p.run, "footnoteReference"@) is Some || ref_id(p.run, "endnoteReference"@)
                is Some || ref_id(p.run, "commentReference"@) is Some,
        n,
    );
}

/// The notes of the two parts: those with an id that are none of the two rules, footnotes before
/// endnotes, each with its kind.
pub proof fn law_which_notes_there_are(foot: Node, end: Node, q: spec_fn(Node) -> bool, i: int)
    requires
        forall|n: Node| #[trigger]
            q(n) == (n.attr_text("id"@) is Some && n.attr_text("type"@) != Some("separator"@)
                && n.attr_text("type"@) != Some("continuationSeparator"@)),
    ensures
        all_keys(Some(foot), Some(end)).len() == foot.below("footnote"@).filter(q).len()
            + end.below("endnote"@).filter(q).len(),
        0 <= i < foot.below("footnote"@).filter(q).len() ==> all_keys(Some(foot), Some(end))[i]
            == (foot.below("footnote"@).filter(q)[i].attr_text("id"@)->0, "footnote"@),
        0 <= i < end.below("endnote"@).filter(q).len() ==> all_keys(
            Some(foot),
            Some(end),
        )[foot.below("footnote"@).filter(q).len() + i] == (
            end.below("endnote"@).filter(q)[i].attr_text("id"@)->0,
            "endnote"@,
        ),
{
    let p = |n: Node| is_note(n);
    assert(p =~= q);
}

/// How often a run and its style both speak: once for each of the four switches.
pub proof fn law_where_both_speak(p: Place, sheet: Option<Node>)
    ensures
        spoken_twice(p, sheet) <= 4,
        spoken_twice(p, sheet) == 0 <==> forall|name: Seq<char>|
            (name == "b"@ || name == "i"@ || name == "strike"@ || name == "u"@) ==> switch_in(
                p.run.child_of("rPr"@),
                name,
            ) is None || #[trigger] style_switch(style_for(p.run, sheet), name) is None,
        spoken_twice(p, sheet) == 4 <==> forall|name: Seq<char>|
            (name == "b"@ || name == "i"@ || name == "strike"@ || name == "u"@) ==> switch_in(
                p.run.child_of("rPr"@),
                name,
            ) is Some && #[trigger] style_switch(style_for(p.run, sheet), name) is Some,
{
    reveal(spoken_twice);
    reveal(one_if);
    let s = style_for(p.run, sheet);
    let b = style_switch(s, "b"@);
    let i = style_switch(s, "i"@);
    let k = style_switch(s, "strike"@);
    let u = style_switch(s, "u"@);
}

proof fn lemma_some_speak(c: Seq<Node>, want: Seq<char>, n: int)
    requires
        0 <= n <= c.len(),
    ensures
        some_say(c, want, n).len() > 0 <==> exists|i: int|
            0 <= i < n && (#[trigger] c[i]).attr_text(want) is Some,
    decreases n,
{
    if n > 0 {
        lemma_some_speak(c, want, n - 1);
        if c[n - 1].attr_text(want) is Some {
            assert(exists|i: int| 0 <= i < n && (#[trigger] c[i]).attr_text(want) is Some);
        }
    }
}

/// The run has a field instruction, or a field mark that says which it is.
pub open spec fn has_field(p: Place) -> bool {
    ||| p.run.all_of("instrText"@).len() > 0
    ||| exists|i: int|
        0 <= i < p.run.all_of("fldChar"@).len() && (#[trigger] p.run.all_of(
            "fldChar"@,
        )[i]).attr_text("fldCharType"@) is Some
}

/// The run has properties and an element among them.
pub open spec fn has_format(p: Place) -> bool {
    &&& p.run.child_of("rPr"@) is Some
    &&& exists|i: int|
        0 <= i < p.run.child_of("rPr"@)->0.children@.len() && (#[trigger] p.run.child_of(
            "rPr"@,
        )->0.children@[i]).local_name() != "#text"@
}

proof fn lemma_fields_and_formats(p: Place)
    ensures
        in_field(p) <==> has_field(p),
        kids_of(p).len() > 0 <==> has_format(p),
{
    let fields = p.run.all_of("fldChar"@);
    lemma_some_speak(fields, "fldCharType"@, fields.len() as int);
    let c = children_of(p.run.child_of("rPr"@));
    let q = |n: Node| n.local_name() != "#text"@ && n.local_name() != "#text"@;
    if has_format(p) {
        let i = choose|i: int| 0 <= i < c.len() && (#[trigger] c[i]).local_name() != "#text"@;
        assert(q(c[i]));
        c.lemma_filter_contains(q, i);
    }
    if kids_of(p).len() > 0 {
        let one = kids_of(p)[0];
        c.lemma_filter_pred(q, 0);
        assert(kids_of(p).contains(one));
        c.lemma_filter_contains_rev(q, one);
        let i = choose|i: int| 0 <= i < c.len() && c[i] == one;
        assert(c[i].local_name() != "#text"@);
        assert(p.run.child_of("rPr"@) is Some);
        assert(p.run.child_of("rPr"@)->0.children@[i].local_name() != "#text"@);
    }
}

/// Which runs count as part of a field, as formatted, and as having properties that hold nothing.
pub proof fn law_which_runs_are_fields_or_formatted(
    r: RunReport,
    paragraphs: Seq<Node>,
    sheet: Option<Node>,
    keys: Seq<(Seq<char>, Seq<char>)>,
    limit: usize,
    ps: Seq<Place>,
)
    requires
        r.describes(paragraphs, sheet, keys, limit),
        ps == places(paragraphs),
    ensures
        r.field_runs == ps.filter(|p: Place| has_field(p)).len(),
        r.with_format == ps.filter(|p: Place| has_format(p)).len(),
        r.props_empty == ps.filter(
            |p: Place| p.run.child_of("rPr"@) is Some && !has_format(p),
        ).len(),
{
    let n = ps.len() as int;
    assert(ps.take(n) =~= ps);
    assert forall|p: Place| (#[trigger] in_field(p)) == has_field(p) by {
        lemma_fields_and_formats(p);
    }
    assert forall|p: Place| ((#[trigger] kids_of(p)).len() > 0) == has_format(p) by {
        lemma_fields_and_formats(p);
    }
    lemma_count_filter(ps, sheet, Feature::FieldRuns, |p: Place| has_field(p), n);
    lemma_count_filter(ps, sheet, Feature::WithFormat, |p: Place| has_format(p), n);
    lemma_count_filter(
        ps,
        sheet,
        Feature::PropsEmpty,
        |p: Place| p.run.child_of("rPr"@) is Some && !has_format(p),
        n,
    );
}

/// What runs are counted for more than once is added up run by run: the switches that a run and its
/// style both speak of, and the notes that a run names and that are there. A note that no run names
/// counts as one without a reference.
pub proof fn law_what_is_added_up_over_runs(
    r: RunReport,
    paragraphs: Seq<Node>,
    sheet: Option<Node>,
    keys: Seq<(Seq<char>, Seq<char>)>,
    limit: usize,
    ps: Seq<Place>,
    n: int,
)
    requires
        r.describes(paragraphs, sheet, keys, limit),
        ps == places(paragraphs),
        0 <= n,
    ensures
        spoken_upto(ps, sheet, 0) == 0,
        spoken_upto(ps, sheet, n + 1) == spoken_upto(ps, sheet, n) + spoken_twice(ps[n], sheet),
        spoken_upto(ps, sheet, ps.len() as int) <= usize::MAX ==> r.where_both_spoke == spoken_upto(
            ps,
            sheet,
            ps.len() as int,
        ),
        hits_upto(ps, keys, 0) == 0,
        hits_upto(ps, keys, n + 1) == hits_upto(ps, keys, n) + notes_hit(ps[n], keys),
        hits_upto(ps, keys, ps.len() as int) <= usize::MAX ==> r.ref_found == hits_upto(
            ps,
            keys,
            ps.len() as int,
        ),
        ({
            let named = refs_upto(ps, ps.len() as int).to_set();
            &&& r.notes_referenced == named.len()
            &&& r.notes_unreferenced == keys.filter(
                |k: (Seq<char>, Seq<char>)| !named.contains(k),
            ).len()
        }),
{
    let named = named_notes(ps);
    lemma_unnamed(keys, named, keys.len() as int);
    assert(keys.take(keys.len() as int) =~= keys);
}

proof fn lemma_unnamed(
    keys: Seq<(Seq<char>, Seq<char>)>,
    named: Set<(Seq<char>, Seq<char>)>,
    n: int,
)
    requires
        0 <= n <= keys.len(),
    ensures
        unnamed_upto(keys, named, n) == keys.take(n).filter(
            |k: (Seq<char>, Seq<char>)| !named.contains(k),
        ).len(),
    decreases n,
{
    reveal(Seq::filter);
    reveal(one_if);
    if n > 0 {
        lemma_unnamed(keys, named, n - 1);
        assert(keys.take(n).drop_last() =~= keys.take(n - 1));
        assert(keys.take(n).last() == keys[n - 1]);
    }
}

} // verus!
