//! The pictures of a document: how they are placed, how large they say they are, and where their
//! bytes stand.
//!
//! Size, alternative text and locks can each stand in two places. Both are handed on.

use crate::lists::{at_most, cut, each, first, first_from};
use crate::paper::{emu, emu_of, is_value};
use crate::text::{pair_texts, same, texts};
use crate::words::{begins, starts_with};
use crate::written::{
    ask, attr_map, child_names, children_of, copied, find_below, first_below, local_names, map_if,
    node_in, said_by, table_if, table_in, table_of, text_in,
};
use crate::xml::{nodes, Node};
use vstd::prelude::*;

verus! {

broadcast use {
    crate::text::lemma_texts_push,
    crate::text::lemma_pair_texts_push,
    crate::xml::lemma_nodes_push,
};

/// A relationship of a package: what an id in a part stands for.
#[derive(Debug, Clone)]
pub struct Rel {
    pub id: String,
    /// The part whose ids these are.
    pub source: String,
    /// The last word of the kind of relationship.
    pub kind: String,
    /// The target as written.
    pub target: String,
    /// The target stands outside the package.
    pub external: bool,
    /// The part that is meant, where it is one of the package.
    pub resolved: Option<String>,
}

/// A number of English metric units, where there is one.
pub open spec fn emu_if(t: Option<Seq<char>>) -> Option<int> {
    match t {
        Some(raw) => emu_of(raw),
        None => None,
    }
}

fn read_emu(t: &Option<String>) -> (r: Option<i64>)
    ensures
        is_value(r, emu_if(text_in(*t))),
{
    match t {
        Some(raw) => emu(raw.as_str()),
        None => None,
    }
}

/// A size as written, and in hundredths of a millimetre.
#[derive(Debug, Clone)]
pub struct Size {
    pub cx: Option<String>,
    pub cy: Option<String>,
    pub mm_w: Option<i64>,
    pub mm_h: Option<i64>,
}

impl Size {
    pub open spec fn describes(self, n: Node) -> bool {
        &&& text_in(self.cx) == n.attr_text("cx"@)
        &&& text_in(self.cy) == n.attr_text("cy"@)
        &&& is_value(self.mm_w, emu_if(n.attr_text("cx"@)))
        &&& is_value(self.mm_h, emu_if(n.attr_text("cy"@)))
    }
}

/// A size that may not be there.
pub open spec fn is_size(s: Option<Size>, n: Option<Node>) -> bool {
    match n {
        Some(x) => s matches Some(z) && z.describes(x),
        None => s is None,
    }
}

/// The size that a node tells.
pub fn size_row(node: Option<&Node>) -> (r: Option<Size>)
    ensures
        is_size(r, node_in(node)),
{
    match node {
        Some(_) => {
            let cx: Option<String> = ask(node, "cx");
            let cy: Option<String> = ask(node, "cy");
            let mm_w: Option<i64> = read_emu(&cx);
            let mm_h: Option<i64> = read_emu(&cy);
            Some(Size { cx, cy, mm_w, mm_h })
        },
        None => None,
    }
}

/// An alternative text. An empty one is not a missing one.
#[derive(Debug, Clone)]
pub struct Alt {
    pub id: Option<String>,
    pub name: Option<String>,
    pub descr: Option<String>,
}

impl Alt {
    pub open spec fn describes(self, n: Node) -> bool {
        &&& text_in(self.id) == n.attr_text("id"@)
        &&& text_in(self.name) == n.attr_text("name"@)
        &&& text_in(self.descr) == n.attr_text("descr"@)
    }
}

/// An alternative text that may not be there.
pub open spec fn is_alt(s: Option<Alt>, n: Option<Node>) -> bool {
    match n {
        Some(x) => s matches Some(z) && z.describes(x),
        None => s is None,
    }
}

/// The alternative text that a node tells.
pub fn alt_row(node: Option<&Node>) -> (r: Option<Alt>)
    ensures
        is_alt(r, node_in(node)),
{
    match node {
        Some(_) => Some(
            Alt { id: ask(node, "id"), name: ask(node, "name"), descr: ask(node, "descr") },
        ),
        None => None,
    }
}

/// Where a floating picture is put. What it is measured from stands in attributes, and where it
/// is put stands in the name and the text of a child.
#[derive(Debug, Clone)]
pub struct Position {
    pub written: Vec<(String, String)>,
    pub element: Option<String>,
    pub value: Option<String>,
}

/// The first child that is no run of text.
pub open spec fn first_element(n: Node) -> Option<Node> {
    match first(n.children@, |k: Node| !k.is_text()) {
        Some(i) => Some(n.children@[i]),
        None => None,
    }
}

fn find_element<'a>(n: &'a Node) -> (r: Option<&'a Node>)
    ensures
        node_in(r) == first_element(*n),
{
    let ghost p = |k: Node| !k.is_text();
    let mut i: usize = 0;
    while i < n.children.len()
        invariant
            i <= n.children@.len(),
            p == (|k: Node| !k.is_text()),
            first(n.children@, p) == first_from(n.children@, p, i as int),
        decreases n.children@.len() - i,
    {
        if !n.children[i].is("#text") {
            return Some(&n.children[i]);
        }
        i += 1;
    }
    None
}

impl Position {
    pub open spec fn describes(self, n: Node) -> bool {
        &&& pair_texts(self.written@) == table_of(n)
        &&& match first_element(n) {
            Some(k) => text_in(self.element) == Some(k.local_name()) && text_in(self.value)
                == Some(k.full_text()),
            None => self.element is None && self.value is None,
        }
    }
}

/// A position that may not be there.
pub open spec fn is_position(s: Option<Position>, n: Option<Node>) -> bool {
    match n {
        Some(x) => s matches Some(z) && z.describes(x),
        None => s is None,
    }
}

/// The position that a node tells.
pub fn position_row(node: Option<&Node>) -> (r: Option<Position>)
    ensures
        is_position(r, node_in(node)),
{
    match node {
        Some(one) => {
            let written: Vec<(String, String)> = attr_map(one);
            match find_element(one) {
                Some(kid) => Some(
                    Position {
                        written,
                        element: Some(kid.local().to_owned()),
                        value: Some(kid.text()),
                    },
                ),
                None => Some(Position { written, element: None, value: None }),
            }
        },
        None => None,
    }
}

/// The frame of a drawing: one in the line of text goes before one that floats.
pub open spec fn frame_of(drawing: Node) -> Option<Node> {
    match first_below(drawing, "inline"@) {
        Some(f) => Some(f),
        None => first_below(drawing, "anchor"@),
    }
}

fn find_frame<'a>(drawing: &'a Node) -> (r: Option<&'a Node>)
    ensures
        node_in(r) == frame_of(*drawing),
{
    match find_below(drawing, "inline") {
        Some(f) => Some(f),
        None => find_below(drawing, "anchor"),
    }
}

/// The frames of the first `n` drawings. A drawing without a frame is left out.
pub open spec fn frames(d: Seq<Node>, n: int) -> Seq<Node>
    decreases n,
{
    if n <= 0 {
        Seq::empty()
    } else {
        match frame_of(d[n - 1]) {
            Some(f) => frames(d, n - 1).push(f),
            None => frames(d, n - 1),
        }
    }
}

/// The child that tells how text flows round a frame.
pub open spec fn wrap_of(frame: Node) -> Option<Node> {
    match first(frame.children@, |k: Node| begins(k.local_name(), "wrap"@)) {
        Some(i) => Some(frame.children@[i]),
        None => None,
    }
}

fn find_wrap<'a>(n: &'a Node) -> (r: Option<&'a Node>)
    ensures
        node_in(r) == wrap_of(*n),
{
    let ghost p = |k: Node| begins(k.local_name(), "wrap"@);
    let mut i: usize = 0;
    while i < n.children.len()
        invariant
            i <= n.children@.len(),
            p == (|k: Node| begins(k.local_name(), "wrap"@)),
            first(n.children@, p) == first_from(n.children@, p, i as int),
        decreases n.children@.len() - i,
    {
        if starts_with(n.children[i].local(), "wrap") {
            return Some(&n.children[i]);
        }
        i += 1;
    }
    None
}

/// Where a frame writes its size: a child of its own goes before one further down.
pub open spec fn extent_of(frame: Node) -> Option<Node> {
    match frame.child_of("extent"@) {
        Some(e) => Some(e),
        None => first_below(frame, "extent"@),
    }
}

/// The id under which the bytes of a picture stand.
pub open spec fn embed_of(frame: Node) -> Option<Seq<char>> {
    said_by(first_below(frame, "blip"@), "embed"@)
}

/// What an id stands for in the main part. The same id may stand for something else in another
/// part.
pub open spec fn target_of(rels: Seq<Rel>, id: Option<Seq<char>>) -> Option<Seq<char>> {
    match id {
        Some(want) => match first(
            rels,
            |r: Rel| r.id@ == want && r.source@ == "word/document.xml"@,
        ) {
            Some(i) => text_in(rels[i].resolved),
            None => None,
        },
        None => None,
    }
}

fn find_target(rels: &Vec<Rel>, id: &Option<String>) -> (r: Option<String>)
    ensures
        text_in(r) == target_of(rels@, text_in(*id)),
{
    let want: &str = match id {
        Some(t) => t.as_str(),
        None => {
            return None;
        },
    };
    let ghost w = want@;
    let ghost p = |r: Rel| r.id@ == w && r.source@ == "word/document.xml"@;
    let mut i: usize = 0;
    while i < rels.len()
        invariant
            i <= rels@.len(),
            w == want@,
            text_in(*id) == Some(w),
            p == (|r: Rel| r.id@ == w && r.source@ == "word/document.xml"@),
            first(rels@, p) == first_from(rels@, p, i as int),
        decreases rels@.len() - i,
    {
        if same(rels[i].id.as_str(), want) && same(rels[i].source.as_str(), "word/document.xml") {
            return copied(&rels[i].resolved);
        }
        i += 1;
    }
    None
}

/// The name of a node that may not be there.
pub open spec fn name_if(n: Option<Node>) -> Option<Seq<char>> {
    match n {
        Some(x) => Some(x.local_name()),
        None => None,
    }
}

fn read_name(n: Option<&Node>) -> (r: Option<String>)
    ensures
        text_in(r) == name_if(node_in(n)),
{
    match n {
        Some(x) => Some(x.local().to_owned()),
        None => None,
    }
}

/// One picture.
#[derive(Debug, Clone)]
pub struct Picture {
    pub placed: String,
    pub written: Vec<(String, String)>,
    pub effect_extent: Option<Vec<(String, String)>>,
    pub extent: Option<Size>,
    pub pic_extent: Option<Size>,
    pub simple_pos: Option<Vec<(String, String)>>,
    pub position_h: Option<Position>,
    pub position_v: Option<Position>,
    pub alt: Option<Alt>,
    pub alt_in_picture: Option<Alt>,
    pub blip_id: Option<String>,
    pub target: Option<String>,
    pub locks: Option<Vec<(String, String)>>,
    pub pic_locks: Option<Vec<(String, String)>>,
    pub wrap: Option<String>,
    pub wrap_written: Option<Vec<(String, String)>>,
    pub graphic_children: Vec<String>,
}

impl Picture {
    pub open spec fn describes(self, frame: Node, rels: Seq<Rel>) -> bool {
        &&& self.placed@ == frame.local_name()
        &&& pair_texts(self.written@) == table_of(frame)
        &&& table_in(self.effect_extent) == table_if(frame.child_of("effectExtent"@))
        &&& is_size(self.extent, extent_of(frame))
        &&& is_size(self.pic_extent, first_below(frame, "ext"@))
        &&& table_in(self.simple_pos) == table_if(frame.child_of("simplePos"@))
        &&& is_position(self.position_h, frame.child_of("positionH"@))
        &&& is_position(self.position_v, frame.child_of("positionV"@))
        &&& is_alt(self.alt, first_below(frame, "docPr"@))
        &&& is_alt(self.alt_in_picture, first_below(frame, "cNvPr"@))
        &&& text_in(self.blip_id) == embed_of(frame)
        &&& text_in(self.target) == target_of(rels, embed_of(frame))
        &&& table_in(self.locks) == table_if(first_below(frame, "graphicFrameLocks"@))
        &&& table_in(self.pic_locks) == table_if(first_below(frame, "picLocks"@))
        &&& text_in(self.wrap) == name_if(wrap_of(frame))
        &&& table_in(self.wrap_written) == table_if(wrap_of(frame))
        &&& texts(self.graphic_children@) == local_names(
            children_of(first_below(frame, "graphicData"@)),
        )
    }
}

fn read_picture(frame: &Node, rels: &Vec<Rel>) -> (r: Picture)
    ensures
        r.describes(*frame, rels@),
{
    let extent: Option<&Node> = match frame.child("extent") {
        Some(e) => Some(e),
        None => find_below(frame, "extent"),
    };
    let blip_id: Option<String> = ask(find_below(frame, "blip"), "embed");
    let target: Option<String> = find_target(rels, &blip_id);
    let wrap: Option<&Node> = find_wrap(frame);
    let graphic_children: Vec<String> = match find_below(frame, "graphicData") {
        Some(g) => child_names(g),
        None => {
            let none: Vec<String> = Vec::new();
            assert(texts(none@) =~= local_names(Seq::empty()));
            none
        },
    };
    Picture {
        placed: frame.local().to_owned(),
        written: attr_map(frame),
        effect_extent: map_if(frame.child("effectExtent")),
        extent: size_row(extent),
        pic_extent: size_row(find_below(frame, "ext")),
        simple_pos: map_if(frame.child("simplePos")),
        position_h: position_row(frame.child("positionH")),
        position_v: position_row(frame.child("positionV")),
        alt: alt_row(find_below(frame, "docPr")),
        alt_in_picture: alt_row(find_below(frame, "cNvPr")),
        blip_id,
        target,
        locks: map_if(find_below(frame, "graphicFrameLocks")),
        pic_locks: map_if(find_below(frame, "picLocks")),
        wrap: read_name(wrap),
        wrap_written: map_if(wrap),
        graphic_children,
    }
}

/// The frames of all drawings.
pub open spec fn all_pictures(body: Node) -> Seq<Node> {
    let d = body.below("drawing"@);
    frames(d, d.len() as int)
}

/// The frames that are listed: those of the first `limit` drawings.
pub open spec fn pictures_of(body: Node, limit: usize) -> Seq<Node> {
    let d = body.below("drawing"@);
    frames(d, at_most(d.len(), limit) as int)
}

/// The frames of the first `n` drawings of a list.
fn find_frames<'a>(all: &Vec<&'a Node>, n: usize) -> (r: Vec<&'a Node>)
    requires
        n <= all@.len(),
    ensures
        nodes(r@) == frames(nodes(all@), n as int),
{
    let ghost d = nodes(all@);
    let mut kept: Vec<&'a Node> = Vec::new();
    let mut i: usize = 0;
    assert(nodes(kept@) =~= frames(d, 0));
    while i < n
        invariant
            i <= n <= all@.len(),
            d == nodes(all@),
            nodes(kept@) == frames(d, i as int),
        decreases n - i,
    {
        assert(d[i as int] == *all@[i as int]);
        if let Some(f) = find_frame(all[i]) {
            kept.push(f);
        }
        i += 1;
    }
    kept
}

/// The frames of all drawings.
pub fn find_pictures<'a>(body: &'a Node) -> (r: Vec<&'a Node>)
    ensures
        nodes(r@) == all_pictures(*body),
{
    let all: Vec<&'a Node> = body.descendants("drawing");
    assert(nodes(all@).len() == all@.len());
    find_frames(&all, all.len())
}

/// The pictures among the first `limit` drawings of a document.
pub fn docx_pictures(body: &Node, rels: &Vec<Rel>, limit: usize) -> (r: Vec<Picture>)
    ensures
        r@.len() == pictures_of(*body, limit).len(),
        forall|i: int|
            0 <= i < r@.len() ==> (#[trigger] r@[i]).describes(
                pictures_of(*body, limit)[i],
                rels@,
            ),
{
    let all: Vec<&Node> = body.descendants("drawing");
    assert(nodes(all@).len() == all@.len());
    let kept: Vec<&Node> = find_frames(&all, cut(all.len(), limit));
    let out: Vec<Picture> = each(
        &kept,
        kept.len(),
        |i: usize, f: &&Node| -> (r: Picture)
            ensures
                r.describes(**f, rels@)
            { read_picture(f, rels) },
    );
    assert forall|i: int| 0 <= i < out@.len() implies (#[trigger] out@[i]).describes(
        pictures_of(*body, limit)[i],
        rels@,
    ) by {
        assert(nodes(kept@)[i] == *kept@[i]);
    }
    assert(nodes(kept@).len() == kept@.len());
    out
}

/// A size is its two attributes, each as written and in hundredths of a millimetre.
pub proof fn law_what_a_size_says(s: Size, n: Node)
    requires
        s.describes(n),
    ensures
        text_in(s.cx) == n.attr_text("cx"@),
        text_in(s.cy) == n.attr_text("cy"@),
        n.attr_text("cx"@) is None ==> s.mm_w is None,
        n.attr_text("cy"@) is None ==> s.mm_h is None,
        n.attr_text("cx"@) matches Some(raw) ==> is_value(s.mm_w, emu_of(raw)),
        n.attr_text("cy"@) matches Some(raw) ==> is_value(s.mm_h, emu_of(raw)),
{
}

/// A picture is told as its frame writes it.
pub proof fn law_what_a_frame_says(r: Picture, frame: Node, rels: Seq<Rel>)
    requires
        r.describes(frame, rels),
    ensures
        r.placed@ == frame.local_name(),
        frame.child_of("extent"@) matches Some(e) ==> (r.extent matches Some(z) && z.describes(e)),
        frame.child_of("extent"@) is None && frame.below("extent"@).len() == 0 ==> r.extent is None,
        frame.below("ext"@).len() > 0 ==> (r.pic_extent matches Some(z) && z.describes(
            frame.below("ext"@)[0],
        )),
        frame.below("ext"@).len() == 0 ==> r.pic_extent is None,
        table_in(r.effect_extent) == table_if(frame.child_of("effectExtent"@)),
        table_in(r.simple_pos) == table_if(frame.child_of("simplePos"@)),
        is_position(r.position_h, frame.child_of("positionH"@)),
        is_position(r.position_v, frame.child_of("positionV"@)),
        is_alt(r.alt, first_below(frame, "docPr"@)),
        is_alt(r.alt_in_picture, first_below(frame, "cNvPr"@)),
        table_in(r.locks) == table_if(first_below(frame, "graphicFrameLocks"@)),
        table_in(r.pic_locks) == table_if(first_below(frame, "picLocks"@)),
        texts(r.graphic_children@) == local_names(
            children_of(first_below(frame, "graphicData"@)),
        ),
{
}

/// A text for those who do not see a picture is its three attributes, and a place is the name and
/// the text of the first element in it.
pub proof fn law_what_alternatives_and_places_say(a: Alt, p: Position, n: Node, i: int)
    requires
        a.describes(n),
        p.describes(n),
    ensures
        text_in(a.id) == n.attr_text("id"@),
        text_in(a.name) == n.attr_text("name"@),
        text_in(a.descr) == n.attr_text("descr"@),
        0 <= i < n.children@.len() && n.children@[i].local_name() != "#text"@ && (forall|k: int|
            0 <= k < i ==> (#[trigger] n.children@[k]).local_name() == "#text"@) ==> text_in(
            p.element,
        ) == Some(n.children@[i].local_name()) && text_in(p.value) == Some(
            n.children@[i].full_text(),
        ),
        (forall|k: int|
            0 <= k < n.children@.len() ==> (#[trigger] n.children@[k]).local_name() == "#text"@)
            ==> p.element is None && p.value is None,
{
    let q = |k: Node| !k.is_text();
    crate::lists::lemma_first_from(n.children@, q, 0);
    match first(n.children@, q) {
        Some(j) => {
            assert(q(n.children@[j]));
            if 0 <= i < n.children@.len() && j > i {
                assert(!q(n.children@[i]));
            }
        },
        None => {
            if 0 <= i < n.children@.len() {
                assert(!q(n.children@[i]));
            }
        },
    }
}

/// How text flows round a frame is told by its first child whose name begins so.
pub proof fn law_how_text_flows_round(r: Picture, frame: Node, rels: Seq<Rel>, i: int)
    requires
        r.describes(frame, rels),
    ensures
        0 <= i < frame.children@.len() && begins(frame.children@[i].local_name(), "wrap"@)
            && (forall|k: int|
            0 <= k < i ==> !begins((#[trigger] frame.children@[k]).local_name(), "wrap"@))
            ==> text_in(r.wrap) == Some(frame.children@[i].local_name()) && table_in(
            r.wrap_written,
        ) == Some(table_of(frame.children@[i])),
        (forall|k: int|
            0 <= k < frame.children@.len() ==> !begins(
                (#[trigger] frame.children@[k]).local_name(),
                "wrap"@,
            )) ==> r.wrap is None && r.wrap_written is None,
{
    let q = |k: Node| begins(k.local_name(), "wrap"@);
    crate::lists::lemma_first_from(frame.children@, q, 0);
    match first(frame.children@, q) {
        Some(j) => {
            assert(q(frame.children@[j]));
            if 0 <= i < frame.children@.len() && j > i {
                assert(!q(frame.children@[i]));
            }
        },
        None => {
            if 0 <= i < frame.children@.len() {
                assert(!q(frame.children@[i]));
            }
        },
    }
}

/// The bytes of a picture stand where its id leads among the relationships of the main part; the
/// same id of another part leads nowhere.
pub proof fn law_where_the_bytes_stand(r: Picture, frame: Node, rels: Seq<Rel>, i: int)
    requires
        r.describes(frame, rels),
    ensures
        frame.below("blip"@).len() == 0 ==> r.blip_id is None && r.target is None,
        frame.below("blip"@).len() > 0 ==> text_in(r.blip_id) == frame.below("blip"@)[0].attr_text(
            "embed"@,
        ),
        r.blip_id matches Some(id) ==> (0 <= i < rels.len() && rels[i].id@ == id@
            && rels[i].source@ == "word/document.xml"@ && (forall|k: int|
            0 <= k < i ==> !((#[trigger] rels[k]).id@ == id@ && rels[k].source@
                == "word/document.xml"@)) ==> text_in(r.target) == text_in(rels[i].resolved)),
        r.blip_id matches Some(id) ==> ((forall|k: int|
            0 <= k < rels.len() ==> !((#[trigger] rels[k]).id@ == id@ && rels[k].source@
                == "word/document.xml"@)) ==> r.target is None),
{
    if let Some(id) = r.blip_id {
        let want = id@;
        assert forall|q: spec_fn(Rel) -> bool|
            (forall|x: Rel| #[trigger]
                q(x) == (x.id@ == want && x.source@ == "word/document.xml"@)) implies {
            &&& 0 <= i < rels.len() && q(rels[i]) && (forall|k: int|
                0 <= k < i ==> !q(#[trigger] rels[k])) ==> #[trigger] first(rels, q) == Some(i)
            &&& (forall|k: int| 0 <= k < rels.len() ==> !q(#[trigger] rels[k])) ==> first(rels, q)
                is None
        } by {
            crate::lists::lemma_first_from(rels, q, 0);
        }
    }
}

/// A drawing is one in the line of text where it holds one, one that floats otherwise, and none
/// where it holds neither; all drawings of a body are told in their order.
pub proof fn law_which_frame_a_drawing_has(d: Seq<Node>, n: int)
    requires
        0 <= n,
    ensures
        d[n].below("inline"@).len() > 0 ==> frame_of(d[n]) == Some(d[n].below("inline"@)[0]),
        d[n].below("inline"@).len() == 0 && d[n].below("anchor"@).len() > 0 ==> frame_of(d[n])
            == Some(d[n].below("anchor"@)[0]),
        d[n].below("inline"@).len() == 0 && d[n].below("anchor"@).len() == 0 ==> frame_of(d[n])
            is None,
        frames(d, 0).len() == 0,
        frame_of(d[n]) is None ==> frames(d, n + 1) == frames(d, n),
        frame_of(d[n]) is Some ==> frames(d, n + 1) == frames(d, n).push(frame_of(d[n])->0),
{
}

/// The pictures of a body are the frames of its elements `drawing`, and those that are listed are
/// the frames of the first of them.
pub proof fn law_drawings_are_pictures(body: Node, limit: usize)
    ensures
        all_pictures(body) == frames(body.below("drawing"@), body.below("drawing"@).len() as int),
        limit < body.below("drawing"@).len() ==> pictures_of(body, limit) == frames(
            body.below("drawing"@),
            limit as int,
        ),
        limit >= body.below("drawing"@).len() ==> pictures_of(body, limit) == all_pictures(body),
{
}

} // verus!
