//! How footnotes and endnotes are numbered.
//!
//! A WordprocessingML document says it in its settings and again in each section, and the two may
//! differ. The values stand on children. An OpenDocument text has one configuration for each
//! class of notes.

use crate::lists::{at_most, count_those, cut, each, joined, lemma_filter_take, tally};
use crate::odf::{all_held, everywhere, look_everywhere, Found, Held, Part};
use crate::order::{in_order, sort_texts};
use crate::text::{pair_texts, texts};
use crate::written::{
    attr_map, entry_of, find_below, first_below, kids_of, latest, lists, look_up, node_in,
    once_each, owned, pick_latest, pick_nodes, pick_once, table_of, text_in,
};
use crate::xml::{nodes, Node};
use vstd::prelude::*;

verus! {

broadcast use {
    crate::text::lemma_texts_push,
    crate::text::lemma_pair_texts_push,
    crate::xml::lemma_nodes_push,
};

/// A setting: its value, or everything that it writes where it has none.
#[derive(Debug, Clone)]
pub enum Setting {
    Value(String),
    Table(Vec<(String, String)>),
}

impl Setting {
    pub open spec fn describes(self, kid: Node) -> bool {
        match self {
            Setting::Value(t) => entry_of(table_of(kid), "val"@) == Some(t@),
            Setting::Table(t) => entry_of(table_of(kid), "val"@) is None && pair_texts(t@)
                == table_of(kid),
        }
    }
}

/// A child that points at one of the rules above notes and is no setting.
pub open spec fn is_reference(kid: Node) -> bool {
    kid.local_name() == "footnote"@ || kid.local_name() == "endnote"@
}

/// The settings for one class of notes.
#[derive(Debug, Clone)]
pub struct NoteProps {
    pub written: Vec<(String, Setting)>,
    pub note_refs: Vec<Option<String>>,
    pub holder_attrs: Vec<(String, String)>,
}

/// The children that are settings. Of two of one name the later counts.
pub open spec fn settings_in(holder: Node) -> Seq<Node> {
    latest(holder.children@.filter(|k: Node| !is_reference(k)))
}

/// The children that are references.
pub open spec fn references_in(holder: Node) -> Seq<Node> {
    holder.children@.filter(|k: Node| is_reference(k))
}

impl NoteProps {
    pub open spec fn describes(self, holder: Node) -> bool {
        let s = settings_in(holder);
        let r = references_in(holder);
        &&& self.written@.len() == s.len()
        &&& forall|i: int|
            0 <= i < s.len() ==> (#[trigger] self.written@[i]).0@ == s[i].local_name()
                && self.written@[i].1.describes(s[i])
        &&& self.note_refs@.len() == r.len()
        &&& forall|i: int|
            0 <= i < r.len() ==> text_in(#[trigger] self.note_refs@[i]) == entry_of(
                table_of(r[i]),
                "id"@,
            )
        &&& pair_texts(self.holder_attrs@) == table_of(holder)
    }
}

fn read_setting(kid: &Node) -> (r: Setting)
    ensures
        r.describes(*kid),
{
    let t: Vec<(String, String)> = attr_map(kid);
    match look_up(&t, "val") {
        Some(v) => Setting::Value(v.to_owned()),
        None => Setting::Table(t),
    }
}

/// The settings for one class of notes.
fn read_pr(holder: &Node) -> (r: NoteProps)
    ensures
        r.describes(*holder),
{
    let kids: Vec<&Node> = kids_of(holder);
    let all: Vec<&Node> = pick_nodes(
        &kids,
        |k: &Node| -> (b: bool)
            ensures
                b == !is_reference(*k)
            { !(k.is("footnote") || k.is("endnote")) },
        Ghost(|k: Node| !is_reference(k)),
    );
    let settings: Vec<&Node> = pick_latest(&all);
    let references: Vec<&Node> = pick_nodes(
        &kids,
        |k: &Node| -> (b: bool)
            ensures
                b == is_reference(*k)
            { k.is("footnote") || k.is("endnote") },
        Ghost(|k: Node| is_reference(k)),
    );
    let written: Vec<(String, Setting)> = each(
        &settings,
        settings.len(),
        |i: usize, k: &&Node| -> (r: (String, Setting))
            ensures
                r.0@ == k.local_name(),
                r.1.describes(**k)
            { (k.local().to_owned(), read_setting(k)) },
    );
    let note_refs: Vec<Option<String>> = each(
        &references,
        references.len(),
        |i: usize, k: &&Node| -> (r: Option<String>)
            ensures
                text_in(r) == entry_of(table_of(**k), "id"@)
            { owned(look_up(&attr_map(k), "id")) },
    );
    assert(nodes(settings@).len() == settings@.len());
    assert(nodes(references@).len() == references@.len());
    assert forall|i: int| 0 <= i < written@.len() implies (#[trigger] written@[i]).0@
        == settings_in(*holder)[i].local_name() && written@[i].1.describes(
        settings_in(*holder)[i],
    ) by {
        assert(nodes(settings@)[i] == *settings@[i]);
    }
    assert forall|i: int| 0 <= i < note_refs@.len() implies text_in(#[trigger] note_refs@[i])
        == entry_of(table_of(references_in(*holder)[i]), "id"@) by {
        assert(nodes(references@)[i] == *references@[i]);
    }
    NoteProps { written, note_refs, holder_attrs: attr_map(holder) }
}

/// Settings that may not be there.
pub open spec fn is_props(p: Option<NoteProps>, n: Option<Node>) -> bool {
    match n {
        Some(x) => p matches Some(v) && v.describes(x),
        None => p is None,
    }
}

fn read_if(n: Option<&Node>) -> (r: Option<NoteProps>)
    ensures
        is_props(r, node_in(n)),
{
    match n {
        Some(x) => Some(read_pr(x)),
        None => None,
    }
}

/// The names of the settings of an element that may not be there.
pub open spec fn names_in(n: Option<Node>) -> Seq<Seq<char>> {
    match n {
        Some(x) => crate::written::local_names(settings_in(x)),
        None => Seq::empty(),
    }
}

fn add_names(p: &Option<NoteProps>, out: &mut Vec<String>, Ghost(n): Ghost<Option<Node>>)
    requires
        is_props(*p, n),
    ensures
        texts(final(out)@) == texts(old(out)@) + names_in(n),
{
    let ghost start = texts(out@);
    assert(start + Seq::<Seq<char>>::empty() =~= start);
    if let Some(v) = p {
        let ghost names = names_in(n);
        let mut i: usize = 0;
        assert(start + names.take(0) =~= start);
        while i < v.written.len()
            invariant
                i <= v.written@.len(),
                n matches Some(x) && v.describes(x) && names == crate::written::local_names(
                    settings_in(x),
                ),
                texts(out@) == start + names.take(i as int),
            decreases v.written@.len() - i,
        {
            assert(v.written@[i as int].0@ == names[i as int]);
            out.push(v.written[i].0.clone());
            i += 1;
            assert(texts(out@) =~= start + names.take(i as int));
        }
        assert(names.take(i as int) =~= names);
    }
}

/// The texts of `a` that are in `b`, or those that are not.
pub open spec fn shared(a: Seq<Seq<char>>, b: Seq<Seq<char>>, both: bool) -> Seq<Seq<char>> {
    a.filter(|t: Seq<char>| b.contains(t) == both)
}

/// Of the names of the settings each stands in one place only or in both.
pub proof fn law_names_stand_in_one_list(a: Seq<Seq<char>>, b: Seq<Seq<char>>, t: Seq<char>)
    requires
        a.contains(t),
    ensures
        shared(a, b, false).contains(t) != shared(a, b, true).contains(t),
{
    broadcast use vstd::seq_lib::group_filter_ensures;

    let p = |x: Seq<char>| b.contains(x) == false;
    let q = |x: Seq<char>| b.contains(x) == true;
    a.filter_lemma(p);
    a.filter_lemma(q);
    let i = choose|i: int| 0 <= i < a.len() && a[i] == t;
    assert(a[i] == t);
}

fn pick_shared(a: &Vec<String>, b: &Vec<String>, both: bool) -> (r: Vec<String>)
    ensures
        texts(r@) == shared(texts(a@), texts(b@), both),
{
    let ghost s = texts(a@);
    let ghost p = |t: Seq<char>| texts(b@).contains(t) == both;
    let mut out: Vec<String> = Vec::new();
    let mut i: usize = 0;
    assert(texts(out@) =~= s.take(0).filter(p)) by {
        reveal(Seq::filter);
    }
    while i < a.len()
        invariant
            i <= a@.len(),
            s == texts(a@),
            p == (|t: Seq<char>| texts(b@).contains(t) == both),
            texts(out@) == s.take(i as int).filter(p),
        decreases a@.len() - i,
    {
        proof {
            lemma_filter_take(s, p, i as int);
        }
        if lists(b, a[i].as_str()) == both {
            out.push(a[i].clone());
        }
        i += 1;
    }
    assert(s.take(i as int) =~= s);
    out
}

/// The texts of a list in order.
pub open spec fn sorts(v: Seq<String>, s: Seq<Seq<char>>) -> bool {
    in_order(texts(v)) && texts(v).to_multiset() == s.to_multiset()
}

/// The texts of `a` that are not in `b`, in order.
fn only_in(a: &Vec<String>, b: &Vec<String>) -> (r: Vec<String>)
    ensures
        sorts(r@, shared(texts(a@), texts(b@), false)),
{
    sort_texts(&pick_shared(a, b, false))
}

/// The texts of `a` that are in `b`, in order.
fn both(a: &Vec<String>, b: &Vec<String>) -> (r: Vec<String>)
    ensures
        sorts(r@, shared(texts(a@), texts(b@), true)),
{
    sort_texts(&pick_shared(a, b, true))
}

/// The settings of one section.
#[derive(Debug, Clone)]
pub struct SectionRow {
    pub section: usize,
    pub footnote: Option<NoteProps>,
    pub endnote: Option<NoteProps>,
}

impl SectionRow {
    pub open spec fn describes(self, sect: Node, i: int) -> bool {
        &&& self.section == i
        &&& is_props(self.footnote, sect.child_of("footnotePr"@))
        &&& is_props(self.endnote, sect.child_of("endnotePr"@))
    }
}

/// The sections of a document.
pub open spec fn sections_of(document: Node) -> Seq<Node> {
    match document.child_of("body"@) {
        Some(b) => b.below("sectPr"@),
        None => Seq::empty(),
    }
}

/// The first element called `want` below a node that may not be there.
pub open spec fn first_in(root: Option<Node>, want: Seq<char>) -> Option<Node> {
    match root {
        Some(r) => first_below(r, want),
        None => None,
    }
}

fn first_of<'a>(root: Option<&'a Node>, want: &str) -> (r: Option<&'a Node>)
    ensures
        node_in(r) == first_in(node_in(root), want@),
{
    match root {
        Some(had) => find_below(had, want),
        None => None,
    }
}

/// The names that each section sets.
pub open spec fn names_fn(s: Seq<Node>) -> spec_fn(int) -> Seq<Seq<char>> {
    |i: int| names_in(s[i].child_of("footnotePr"@)) + names_in(s[i].child_of("endnotePr"@))
}

/// How notes are numbered in a document.
#[derive(Debug, Clone)]
pub struct SettingsReport {
    pub settings_part: bool,
    pub footnote: Option<NoteProps>,
    pub endnote: Option<NoteProps>,
    pub sections_total: usize,
    pub sections_with_footnote: usize,
    pub sections_with_endnote: usize,
    pub sections: Vec<SectionRow>,
    pub only_in_settings: Vec<String>,
    pub only_in_sections: Vec<String>,
    pub in_both: Vec<String>,
}

impl SettingsReport {
    /// What the two places say, and where they differ.
    pub open spec fn compares(self, settings: Option<Node>, sections: Seq<Node>) -> bool {
        let here = names_in(first_in(settings, "footnotePr"@)) + names_in(
            first_in(settings, "endnotePr"@),
        );
        let there = joined(names_fn(sections), sections.len() as int);
        let a = once_each(here, here.len() as int);
        let b = once_each(there, there.len() as int);
        &&& sorts(self.only_in_settings@, shared(a, b, false))
        &&& sorts(self.only_in_sections@, shared(b, a, false))
        &&& sorts(self.in_both@, shared(a, b, true))
    }

    pub open spec fn describes(
        self,
        document: Node,
        settings: Option<Node>,
        limit: usize,
    ) -> bool {
        let s = sections_of(document);
        &&& self.settings_part == (settings is Some)
        &&& is_props(self.footnote, first_in(settings, "footnotePr"@))
        &&& is_props(self.endnote, first_in(settings, "endnotePr"@))
        &&& self.sections_total == s.len()
        &&& self.sections_with_footnote == tally(
            |i: int| s[i].child_of("footnotePr"@) is Some,
            s.len() as int,
        )
        &&& self.sections_with_endnote == tally(
            |i: int| s[i].child_of("endnotePr"@) is Some,
            s.len() as int,
        )
        &&& self.sections@.len() == at_most(s.len(), limit)
        &&& forall|i: int|
            0 <= i < self.sections@.len() ==> (#[trigger] self.sections@[i]).describes(s[i], i)
        &&& self.compares(settings, s)
    }
}

fn read_sections<'a>(document: &'a Node) -> (r: Vec<&'a Node>)
    ensures
        nodes(r@) == sections_of(*document),
        r@.len() == sections_of(*document).len(),
{
    let r: Vec<&'a Node> = match document.child("body") {
        Some(b) => b.descendants("sectPr"),
        None => Vec::new(),
    };
    assert(nodes(r@) =~= sections_of(*document));
    assert(nodes(r@).len() == r@.len());
    r
}

fn section_names(all: &Vec<&Node>) -> (r: Vec<String>)
    ensures
        texts(r@) == joined(names_fn(nodes(all@)), all@.len() as int),
{
    let ghost s = nodes(all@);
    let mut out: Vec<String> = Vec::new();
    let mut i: usize = 0;
    assert(texts(out@) =~= joined(names_fn(s), 0));
    while i < all.len()
        invariant
            i <= all@.len(),
            s == nodes(all@),
            texts(out@) == joined(names_fn(s), i as int),
        decreases all@.len() - i,
    {
        assert(s[i as int] == *all@[i as int]);
        let ghost had = texts(out@);
        let ghost f = s[i as int].child_of("footnotePr"@);
        let ghost e = s[i as int].child_of("endnotePr"@);
        add_names(&read_if(all[i].child("footnotePr")), &mut out, Ghost(f));
        add_names(&read_if(all[i].child("endnotePr")), &mut out, Ghost(e));
        assert(texts(out@) =~= had + (names_in(f) + names_in(e)));
        i += 1;
    }
    out
}

fn count_children(all: &Vec<&Node>, want: &str) -> (r: usize)
    ensures
        r == tally(|i: int| nodes(all@)[i].child_of(want@) is Some, all@.len() as int),
{
    let ghost s = nodes(all@);
    count_those(
        all.len(),
        |i: usize| -> (b: bool)
            requires
                i < all@.len()
            ensures
                b == (s[i as int].child_of(want@) is Some)
            { all[i].child(want).is_some() },
        Ghost(|i: int| s[i].child_of(want@) is Some),
    )
}

/// How notes are numbered in a document, from its document element and the root of its settings.
/// The list of sections is cut to `limit`.
pub fn docx(document: &Node, settings: Option<&Node>, limit: usize) -> (r: SettingsReport)
    ensures
        r.describes(*document, node_in(settings), limit),
{
    let footnote: Option<NoteProps> = read_if(first_of(settings, "footnotePr"));
    let endnote: Option<NoteProps> = read_if(first_of(settings, "endnotePr"));
    let ghost f = first_in(node_in(settings), "footnotePr"@);
    let ghost e = first_in(node_in(settings), "endnotePr"@);
    let mut here: Vec<String> = Vec::new();
    add_names(&footnote, &mut here, Ghost(f));
    add_names(&endnote, &mut here, Ghost(e));
    assert(texts(here@) =~= names_in(f) + names_in(e));
    assert(texts(here@).len() == here@.len());
    let a: Vec<String> = pick_once(&here);
    let all: Vec<&Node> = read_sections(document);
    let ghost s = nodes(all@);
    let there: Vec<String> = section_names(&all);
    assert(texts(there@).len() == there@.len());
    let b: Vec<String> = pick_once(&there);
    let sections: Vec<SectionRow> = each(
        &all,
        cut(all.len(), limit),
        |i: usize, n: &&Node| -> (r: SectionRow)
            ensures
                r.describes(**n, i as int)
            {
                SectionRow {
                    section: i,
                    footnote: read_if(n.child("footnotePr")),
                    endnote: read_if(n.child("endnotePr")),
                }
            },
    );
    assert forall|i: int| 0 <= i < sections@.len() implies (#[trigger] sections@[i]).describes(
        s[i],
        i,
    ) by {
        assert(s[i] == *all@[i]);
    }
    SettingsReport {
        settings_part: settings.is_some(),
        footnote,
        endnote,
        sections_total: all.len(),
        sections_with_footnote: count_children(&all, "footnotePr"),
        sections_with_endnote: count_children(&all, "endnotePr"),
        sections,
        only_in_settings: only_in(&a, &b),
        only_in_sections: only_in(&b, &a),
        in_both: both(&a, &b),
    }
}

/// The configuration of one class of notes.
#[derive(Debug, Clone)]
pub struct ConfigRow {
    pub part: Part,
    pub note_class: Option<String>,
    pub written: Vec<(String, String)>,
    pub num_format: Option<String>,
    pub start_value: Option<String>,
    pub position_written: bool,
    pub start_numbering_written: bool,
}

/// What an element says under a name, of two attributes with one local name the later.
pub open spec fn says_of(n: Node, name: Seq<char>) -> Option<Seq<char>> {
    entry_of(table_of(n), name)
}

impl ConfigRow {
    pub open spec fn describes(self, h: Held) -> bool {
        &&& self.part == h.part
        &&& text_in(self.note_class) == says_of(h.node, "note-class"@)
        &&& pair_texts(self.written@) == table_of(h.node)
        &&& text_in(self.num_format) == says_of(h.node, "num-format"@)
        &&& text_in(self.start_value) == says_of(h.node, "start-value"@)
        &&& self.position_written == (says_of(h.node, "footnotes-position"@) is Some)
        &&& self.start_numbering_written == (says_of(h.node, "start-numbering-at"@) is Some)
    }
}

fn read_config(f: &Found) -> (r: ConfigRow)
    ensures
        r.describes(f.held()),
{
    let t: Vec<(String, String)> = attr_map(f.node);
    let note_class: Option<String> = owned(look_up(&t, "note-class"));
    let num_format: Option<String> = owned(look_up(&t, "num-format"));
    let start_value: Option<String> = owned(look_up(&t, "start-value"));
    let position_written: bool = look_up(&t, "footnotes-position").is_some();
    let start_numbering_written: bool = look_up(&t, "start-numbering-at").is_some();
    ConfigRow {
        part: f.part,
        note_class,
        written: t,
        num_format,
        start_value,
        position_written,
        start_numbering_written,
    }
}

/// What the elements say under a name, of those that say it.
pub open spec fn said_in(s: Seq<Held>, name: Seq<char>, n: int) -> Seq<Seq<char>>
    decreases n,
{
    if n <= 0 {
        Seq::empty()
    } else {
        match says_of(s[n - 1].node, name) {
            Some(t) => said_in(s, name, n - 1).push(t),
            None => said_in(s, name, n - 1),
        }
    }
}

fn read_said(v: &Vec<Found>, name: &str) -> (r: Vec<String>)
    ensures
        texts(r@) == said_in(all_held(v@), name@, v@.len() as int),
        r@.len() == said_in(all_held(v@), name@, v@.len() as int).len(),
{
    let ghost s = all_held(v@);
    let mut out: Vec<String> = Vec::new();
    let mut i: usize = 0;
    assert(texts(out@) =~= said_in(s, name@, 0));
    while i < v.len()
        invariant
            i <= v@.len(),
            s == all_held(v@),
            texts(out@) == said_in(s, name@, i as int),
        decreases v@.len() - i,
    {
        assert(s[i as int] == v@[i as int].held());
        let t: Vec<(String, String)> = attr_map(v[i].node);
        if let Some(raw) = look_up(&t, name) {
            out.push(raw.to_owned());
        }
        i += 1;
    }
    assert(texts(out@).len() == out@.len());
    out
}

/// How notes are numbered in a text.
#[derive(Debug, Clone)]
pub struct ConfigReport {
    pub configs_total: usize,
    pub classes_written: Vec<String>,
    pub distinct_num_formats: Vec<String>,
    pub with_position: usize,
    pub with_start_numbering: usize,
    pub in_content: bool,
    pub in_styles: bool,
    pub configs: Vec<ConfigRow>,
}

impl ConfigReport {
    pub open spec fn describes(self, content: Node, styles: Option<Node>, limit: usize) -> bool {
        let s = everywhere(content, styles, "notes-configuration"@);
        let n = s.len() as int;
        let classes = said_in(s, "note-class"@, n);
        let formats = said_in(s, "num-format"@, n);
        &&& self.configs_total == n
        &&& texts(self.classes_written@) == once_each(classes, classes.len() as int)
        &&& texts(self.distinct_num_formats@) == once_each(formats, formats.len() as int)
        &&& self.with_position == said_in(s, "footnotes-position"@, n).len()
        &&& self.with_start_numbering == said_in(s, "start-numbering-at"@, n).len()
        &&& self.in_content == (content.below("notes-configuration"@).len() > 0)
        &&& self.in_styles == match styles {
            Some(x) => x.below("notes-configuration"@).len() > 0,
            None => false,
        }
        &&& self.configs@.len() == at_most(s.len(), limit)
        &&& forall|i: int|
            0 <= i < self.configs@.len() ==> (#[trigger] self.configs@[i]).describes(s[i])
    }
}

/// How notes are numbered in a text, configurations of the content first. The list is cut to
/// `limit`.
pub fn odf(content: &Node, styles: Option<&Node>, limit: usize) -> (r: ConfigReport)
    ensures
        r.describes(*content, node_in(styles), limit),
{
    let v: Vec<Found> = look_everywhere(content, styles, "notes-configuration");
    let ghost s = all_held(v@);
    assert(s.len() == v@.len());
    let configs: Vec<ConfigRow> = each(
        &v,
        cut(v.len(), limit),
        |i: usize, f: &Found| -> (r: ConfigRow)
            ensures
                r.describes(f.held())
            { read_config(f) },
    );
    assert forall|i: int| 0 <= i < configs@.len() implies (#[trigger] configs@[i]).describes(
        s[i],
    ) by {
        assert(s[i] == v@[i].held());
    }
    let here: Vec<&Node> = content.descendants("notes-configuration");
    assert(nodes(here@).len() == here@.len());
    let in_styles: bool = match styles {
        Some(x) => {
            let there: Vec<&Node> = x.descendants("notes-configuration");
            assert(nodes(there@).len() == there@.len());
            there.len() > 0
        },
        None => false,
    };
    ConfigReport {
        configs_total: v.len(),
        classes_written: pick_once(&read_said(&v, "note-class")),
        distinct_num_formats: pick_once(&read_said(&v, "num-format")),
        with_position: read_said(&v, "footnotes-position").len(),
        with_start_numbering: read_said(&v, "start-numbering-at").len(),
        in_content: here.len() > 0,
        in_styles,
        configs,
    }
}

/// A setting is its value where it writes one, and everything that it writes otherwise.
pub proof fn law_what_a_setting_says(s: Setting, kid: Node)
    requires
        s.describes(kid),
    ensures
        entry_of(table_of(kid), "val"@) matches Some(v) ==> (s matches Setting::Value(t) && t@ == v),
        entry_of(table_of(kid), "val"@) is None ==> (s matches Setting::Table(t) && pair_texts(t@)
            == table_of(kid)),
{
}

/// What holds the settings of a class of notes: its children, but for those that point at notes.
pub proof fn law_what_settings_there_are(r: NoteProps, holder: Node, q: spec_fn(Node) -> bool, i: int)
    requires
        r.describes(holder),
        forall|k: Node| #[trigger]
            q(k) == (k.local_name() == "footnote"@ || k.local_name() == "endnote"@),
    ensures
        r.note_refs@.len() == holder.children@.filter(q).len(),
        0 <= i < r.note_refs@.len() ==> text_in(r.note_refs@[i]) == entry_of(
            table_of(holder.children@.filter(q)[i]),
            "id"@,
        ),
        r.written@.len() == latest(
            holder.children@.filter(
                |k: Node| k.local_name() != "footnote"@ && k.local_name() != "endnote"@,
            ),
        ).len(),
        0 <= i < r.written@.len() ==> r.written@[i].0@ == settings_in(holder)[i].local_name()
            && r.written@[i].1.describes(settings_in(holder)[i]),
        pair_texts(r.holder_attrs@) == table_of(holder),
{
    let p = |k: Node| is_reference(k);
    assert(p =~= q);
    let a = |k: Node| !is_reference(k);
    let b = |k: Node| k.local_name() != "footnote"@ && k.local_name() != "endnote"@;
    assert(a =~= b);
}

/// The settings of footnotes and of endnotes each stand in an element of their own, in the
/// settings part and in each section.
pub proof fn law_where_settings_stand(
    r: SettingsReport,
    document: Node,
    settings: Node,
    body: Node,
    limit: usize,
    i: int,
)
    requires
        r.describes(document, Some(settings), limit),
        document.child_of("body"@) == Some(body),
    ensures
        r.settings_part,
        settings.below("footnotePr"@).len() == 0 ==> r.footnote is None,
        settings.below("footnotePr"@).len() > 0 ==> (r.footnote matches Some(p) && p.describes(
            settings.below("footnotePr"@)[0],
        )),
        settings.below("endnotePr"@).len() == 0 ==> r.endnote is None,
        settings.below("endnotePr"@).len() > 0 ==> (r.endnote matches Some(p) && p.describes(
            settings.below("endnotePr"@)[0],
        )),
        r.sections_total == body.below("sectPr"@).len(),
        r.sections_with_footnote == body.below("sectPr"@).filter(
            |n: Node| n.child_of("footnotePr"@) is Some,
        ).len(),
        r.sections_with_endnote == body.below("sectPr"@).filter(
            |n: Node| n.child_of("endnotePr"@) is Some,
        ).len(),
        0 <= i < r.sections@.len() ==> {
            &&& r.sections@[i].section == i
            &&& is_props(r.sections@[i].footnote, body.below("sectPr"@)[i].child_of("footnotePr"@))
            &&& is_props(r.sections@[i].endnote, body.below("sectPr"@)[i].child_of("endnotePr"@))
        },
{
    let s = body.below("sectPr"@);
    crate::lists::law_a_tally_is_how_many_pass(
        s,
        |i: int| s[i].child_of("footnotePr"@) is Some,
        |n: Node| n.child_of("footnotePr"@) is Some,
    );
    crate::lists::law_a_tally_is_how_many_pass(
        s,
        |i: int| s[i].child_of("endnotePr"@) is Some,
        |n: Node| n.child_of("endnotePr"@) is Some,
    );
    if 0 <= i < r.sections@.len() {
        assert(r.sections@[i].describes(s[i], i));
    }
}

/// A name is told where it stands: in the settings alone, in the sections alone, or in both.
pub proof fn law_where_names_stand(
    r: SettingsReport,
    settings: Option<Node>,
    sections: Seq<Node>,
    here: Seq<Seq<char>>,
    there: Seq<Seq<char>>,
)
    requires
        r.compares(settings, sections),
        here == names_in(first_in(settings, "footnotePr"@)) + names_in(
            first_in(settings, "endnotePr"@),
        ),
        there == joined(names_fn(sections), sections.len() as int),
    ensures
        ({
            let a = once_each(here, here.len() as int);
            let b = once_each(there, there.len() as int);
            &&& sorts(r.only_in_settings@, a.filter(|t: Seq<char>| !b.contains(t)))
            &&& sorts(r.only_in_sections@, b.filter(|t: Seq<char>| !a.contains(t)))
            &&& sorts(r.in_both@, a.filter(|t: Seq<char>| b.contains(t)))
        }),
{
    let a = once_each(here, here.len() as int);
    let b = once_each(there, there.len() as int);
    let p = |t: Seq<char>| b.contains(t) == false;
    let q = |t: Seq<char>| !b.contains(t);
    assert(p =~= q);
    let p = |t: Seq<char>| a.contains(t) == false;
    let q = |t: Seq<char>| !a.contains(t);
    assert(p =~= q);
    let p = |t: Seq<char>| b.contains(t) == true;
    let q = |t: Seq<char>| b.contains(t);
    assert(p =~= q);
}

/// What is told of a configuration of notes: its class, its format and its first number, and
/// whether it says where notes stand and where numbering begins.
pub proof fn law_what_a_configuration_says(r: ConfigRow, h: Held)
    requires
        r.describes(h),
    ensures
        r.part == h.part,
        text_in(r.note_class) == says_of(h.node, "note-class"@),
        text_in(r.num_format) == says_of(h.node, "num-format"@),
        text_in(r.start_value) == says_of(h.node, "start-value"@),
        r.position_written <==> says_of(h.node, "footnotes-position"@) is Some,
        r.start_numbering_written <==> says_of(h.node, "start-numbering-at"@) is Some,
        pair_texts(r.written@) == table_of(h.node),
{
}

/// The configurations of a text are counted over both parts, the content first.
pub proof fn law_what_configurations_are_counted_for(
    r: ConfigReport,
    content: Node,
    styles: Option<Node>,
    limit: usize,
    s: Seq<Held>,
)
    requires
        r.describes(content, styles, limit),
        s == everywhere(content, styles, "notes-configuration"@),
    ensures
        r.configs_total == s.len(),
        r.with_position == s.filter(
            |h: Held| says_of(h.node, "footnotes-position"@) is Some,
        ).len(),
        r.with_start_numbering == s.filter(
            |h: Held| says_of(h.node, "start-numbering-at"@) is Some,
        ).len(),
        texts(r.classes_written@) == once_each(
            said_in(s, "note-class"@, s.len() as int),
            said_in(s, "note-class"@, s.len() as int).len() as int,
        ),
        texts(r.distinct_num_formats@) == once_each(
            said_in(s, "num-format"@, s.len() as int),
            said_in(s, "num-format"@, s.len() as int).len() as int,
        ),
        r.in_content <==> content.below("notes-configuration"@).len() > 0,
        styles matches Some(x) ==> (r.in_styles <==> x.below("notes-configuration"@).len() > 0),
        styles is None ==> !r.in_styles,
{
    lemma_said_count(
        s,
        "footnotes-position"@,
        |h: Held| says_of(h.node, "footnotes-position"@) is Some,
        s.len() as int,
    );
    lemma_said_count(
        s,
        "start-numbering-at"@,
        |h: Held| says_of(h.node, "start-numbering-at"@) is Some,
        s.len() as int,
    );
    assert(s.take(s.len() as int) =~= s);
}

proof fn lemma_said_count(s: Seq<Held>, name: Seq<char>, q: spec_fn(Held) -> bool, n: int)
    requires
        0 <= n <= s.len(),
        forall|h: Held| #[trigger] q(h) == (says_of(h.node, name) is Some),
    ensures
        said_in(s, name, n).len() == s.take(n).filter(q).len(),
    decreases n,
{
    reveal(Seq::filter);
    if n > 0 {
        lemma_said_count(s, name, q, n - 1);
        assert(s.take(n).drop_last() =~= s.take(n - 1));
        assert(s.take(n).last() == s[n - 1]);
        assert(q(s[n - 1]) == (says_of(s[n - 1].node, name) is Some));
    }
}

/// The configurations are told in order, those of the content first, no more than asked for.
pub proof fn law_which_configurations_are_told(
    r: ConfigReport,
    content: Node,
    styles: Option<Node>,
    limit: usize,
    i: int,
)
    requires
        r.describes(content, styles, limit),
    ensures
        ({
            let s = everywhere(content, styles, "notes-configuration"@);
            &&& r.configs_total == s.len()
            &&& r.configs@.len() <= limit
            &&& r.configs@.len() == limit || r.configs@.len() == s.len()
            &&& 0 <= i < r.configs@.len() ==> r.configs@[i].describes(s[i])
        }),
{
}

} // verus!
