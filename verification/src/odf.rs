//! What an OpenDocument text says about its own structure.
//!
//! Values mostly live one step away, on a style that the text names. Styles stand in two parts,
//! and each one found is handed on with the part in which it was found.

use crate::lists::{first, first_from, lemma_filter_take};
use crate::paper::{is_value, length, length_of};
use crate::text::same;
use crate::words::{begins, starts_with};
use crate::written::{
    entry_of, keep_if, kept_if, look_up, node_in, owned, says, slice_in, table_in, text_in,
};
use crate::xml::{local_of, local_part, nodes, Node};
use vstd::prelude::*;

pub mod layout;
pub mod numbering;
pub mod runs;
pub mod structure;
pub mod tables;

verus! {

/// The attribute with the local name `want`. The copies under the prefix `calcext` do not count.
pub open spec fn attr_said(n: Node, want: Seq<char>) -> Option<Seq<char>> {
    match first(
        n.attrs@,
        |a: (String, String)| local_part(a.0@) == want && !begins(a.0@, "calcext:"@),
    ) {
        Some(i) => Some(n.attrs@[i].1@),
        None => None,
    }
}

/// The attribute with the local name `want`. Which prefix a file declares is its own affair, but
/// the experimental name space `calcext` copies attributes of others, and a copy does not count.
pub fn attr_of<'a>(node: &'a Node, want: &str) -> (r: Option<&'a str>)
    ensures
        match r {
            Some(t) => attr_said(*node, want@) == Some(t@),
            None => attr_said(*node, want@) is None,
        },
{
    let ghost p = |a: (String, String)|
        local_part(a.0@) == want@ && !begins(a.0@, "calcext:"@);
    let mut i: usize = 0;
    while i < node.attrs.len()
        invariant
            i <= node.attrs@.len(),
            p == (|a: (String, String)|
                local_part(a.0@) == want@ && !begins(a.0@, "calcext:"@)),
            first(node.attrs@, p) == first_from(node.attrs@, p, i as int),
        decreases node.attrs@.len() - i,
    {
        let name: &str = node.attrs[i].0.as_str();
        if same(local_of(name), want) && !starts_with(name, "calcext:") {
            return Some(node.attrs[i].1.as_str());
        }
        i += 1;
    }
    None
}

/// The parts of a package in which styles stand.
#[derive(Debug, Clone, Copy, PartialEq, Eq, Structural)]
pub enum Part {
    Content,
    Styles,
}

impl Part {
    /// The name of the part in the package.
    pub open spec fn name(self) -> Seq<char> {
        match self {
            Part::Content => "content.xml"@,
            Part::Styles => "styles.xml"@,
        }
    }

    /// The name of the part in the package.
    pub fn as_str(self) -> (r: &'static str)
        ensures
            r@ == self.name(),
    {
        match self {
            Part::Content => "content.xml",
            Part::Styles => "styles.xml",
        }
    }
}

/// An element and the part in which it stands.
pub struct Held {
    pub node: Node,
    pub part: Part,
}

/// An element and the part in which it stands.
#[derive(Clone, Copy)]
pub struct Found<'a> {
    pub node: &'a Node,
    pub part: Part,
}

impl Found<'_> {
    pub open spec fn held(self) -> Held {
        Held { node: *self.node, part: self.part }
    }
}

pub open spec fn all_held(v: Seq<Found>) -> Seq<Held> {
    Seq::new(v.len(), |i: int| v[i].held())
}

/// Elements of one part.
pub open spec fn in_part(c: Seq<Node>, part: Part) -> Seq<Held> {
    Seq::new(c.len(), |i: int| Held { node: c[i], part })
}

/// The elements called `want` in both parts, those of the content first.
pub open spec fn everywhere(content: Node, styles: Option<Node>, want: Seq<char>) -> Seq<Held> {
    in_part(content.below(want), Part::Content) + match styles {
        Some(s) => in_part(s.below(want), Part::Styles),
        None => Seq::empty(),
    }
}

fn add_part<'a>(out: &mut Vec<Found<'a>>, c: &Vec<&'a Node>, part: Part)
    ensures
        all_held(final(out)@) == all_held(old(out)@) + in_part(nodes(c@), part),
{
    let ghost start = all_held(out@);
    let mut i: usize = 0;
    while i < c.len()
        invariant
            i <= c@.len(),
            all_held(out@) == start + in_part(nodes(c@), part).take(i as int),
        decreases c@.len() - i,
    {
        let ghost had = all_held(out@);
        out.push(Found { node: c[i], part });
        assert(all_held(out@) =~= had.push(Held { node: *c@[i as int], part }));
        i += 1;
        assert(all_held(out@) =~= start + in_part(nodes(c@), part).take(i as int));
    }
    assert(in_part(nodes(c@), part).take(i as int) =~= in_part(nodes(c@), part));
    assert(all_held(out@) =~= start + in_part(nodes(c@), part));
}

/// The elements called `want` in both parts, those of the content first.
pub fn look_everywhere<'a>(
    content: &'a Node,
    styles: Option<&'a Node>,
    want: &str,
) -> (r: Vec<Found<'a>>)
    ensures
        all_held(r@) == everywhere(
            *content,
            match styles {
                Some(s) => Some(*s),
                None => None,
            },
            want@,
        ),
{
    let mut out: Vec<Found<'a>> = Vec::new();
    add_part(&mut out, &content.descendants(want), Part::Content);
    assert(all_held(out@) =~= in_part(content.below(want@), Part::Content));
    match styles {
        Some(s) => add_part(&mut out, &s.descendants(want), Part::Styles),
        None => {},
    }
    assert(all_held(out@) =~= everywhere(
        *content,
        match styles {
            Some(s) => Some(*s),
            None => None,
        },
        want@,
    ));
    out
}

/// The styles of a family.
pub open spec fn of_family(s: Seq<Held>, family: Seq<char>) -> Seq<Held> {
    s.filter(|h: Held| attr_said(h.node, "family"@) == Some(family))
}

/// The styles of a family.
pub fn pick_family<'a>(v: &Vec<Found<'a>>, family: &str) -> (r: Vec<Found<'a>>)
    ensures
        all_held(r@) == of_family(all_held(v@), family@),
{
    let ghost s = all_held(v@);
    let ghost p = |h: Held| attr_said(h.node, "family"@) == Some(family@);
    let mut out: Vec<Found<'a>> = Vec::new();
    let mut i: usize = 0;
    assert(all_held(out@) =~= s.take(0).filter(p)) by {
        reveal(Seq::filter);
    }
    while i < v.len()
        invariant
            i <= v@.len(),
            s == all_held(v@),
            p == (|h: Held| attr_said(h.node, "family"@) == Some(family@)),
            all_held(out@) == s.take(i as int).filter(p),
        decreases v@.len() - i,
    {
        proof {
            lemma_filter_take(s, p, i as int);
        }
        let one: Found<'a> = v[i];
        if let Some(had) = attr_of(one.node, "family") {
            if same(had, family) {
                let ghost before = all_held(out@);
                out.push(one);
                assert(all_held(out@) =~= before.push(one.held()));
            }
        }
        i += 1;
    }
    assert(s.take(i as int) =~= s);
    out
}

/// The first element with that name.
pub open spec fn named(s: Seq<Held>, name: Seq<char>) -> Option<Held> {
    match first(s, |h: Held| attr_said(h.node, "name"@) == Some(name)) {
        Some(i) => Some(s[i]),
        None => None,
    }
}

/// The element behind an optional find.
pub open spec fn held_in(f: Option<Found>) -> Option<Held> {
    match f {
        Some(x) => Some(x.held()),
        None => None,
    }
}

/// The first element with that name.
pub fn find_named<'a>(v: &Vec<Found<'a>>, name: &str) -> (r: Option<Found<'a>>)
    ensures
        held_in(r) == named(all_held(v@), name@),
{
    let ghost s = all_held(v@);
    let ghost p = |h: Held| attr_said(h.node, "name"@) == Some(name@);
    let mut i: usize = 0;
    while i < v.len()
        invariant
            i <= v@.len(),
            s == all_held(v@),
            p == (|h: Held| attr_said(h.node, "name"@) == Some(name@)),
            first(s, p) == first_from(s, p, i as int),
        decreases v@.len() - i,
    {
        let one: Found<'a> = v[i];
        if let Some(had) = attr_of(one.node, "name") {
            if same(had, name) {
                return Some(one);
            }
        }
        i += 1;
    }
    None
}

/// The first element of each name among the first `n`. Those without a name are left out.
pub open spec fn distinct(s: Seq<Held>, n: int) -> Seq<Held>
    decreases n,
{
    if n <= 0 {
        Seq::empty()
    } else {
        let before = distinct(s, n - 1);
        match attr_said(s[n - 1].node, "name"@) {
            Some(name) => if named(before, name) is Some {
                before
            } else {
                before.push(s[n - 1])
            },
            None => before,
        }
    }
}

/// The first element of each name.
pub fn pick_distinct<'a>(v: &Vec<Found<'a>>) -> (r: Vec<Found<'a>>)
    ensures
        all_held(r@) == distinct(all_held(v@), v@.len() as int),
{
    let mut out: Vec<Found<'a>> = Vec::new();
    let mut i: usize = 0;
    assert(all_held(out@) =~= distinct(all_held(v@), 0));
    while i < v.len()
        invariant
            i <= v@.len(),
            all_held(out@) == distinct(all_held(v@), i as int),
        decreases v@.len() - i,
    {
        let one: Found<'a> = v[i];
        if let Some(name) = attr_of(one.node, "name") {
            if find_named(&out, name).is_none() {
                let ghost before = all_held(out@);
                out.push(one);
                assert(all_held(out@) =~= before.push(one.held()));
            }
        }
        i += 1;
    }
    out
}

/// The style that a name stands for, where there is a name.
pub open spec fn meant(s: Seq<Held>, name: Option<Seq<char>>) -> Option<Held> {
    match name {
        Some(n) => named(s, n),
        None => None,
    }
}

/// The style that a name stands for, where there is a name.
pub fn resolve<'a>(v: &Vec<Found<'a>>, name: Option<&str>) -> (r: Option<Found<'a>>)
    ensures
        held_in(r) == meant(
            all_held(v@),
            match name {
                Some(n) => Some(n@),
                None => None,
            },
        ),
{
    match name {
        Some(n) => find_named(v, n),
        None => None,
    }
}

/// The first child called `want` of an element that may not be there.
pub open spec fn under(h: Option<Held>, want: Seq<char>) -> Option<Node> {
    match h {
        Some(x) => x.node.child_of(want),
        None => None,
    }
}

/// The part of an element that may not be there.
pub open spec fn part_in(h: Option<Held>) -> Option<Part> {
    match h {
        Some(x) => Some(x.part),
        None => None,
    }
}

/// How many of the elements stand in a part.
pub fn count_part(v: &Vec<Found>, part: Part) -> (r: usize)
    ensures
        r == all_held(v@).filter(|h: Held| h.part == part).len(),
{
    let ghost s = all_held(v@);
    let ghost p = |h: Held| h.part == part;
    let mut n: usize = 0;
    let mut i: usize = 0;
    assert(s.take(0).filter(p).len() == 0) by {
        reveal(Seq::filter);
    }
    while i < v.len()
        invariant
            i <= v@.len(),
            n <= i,
            s == all_held(v@),
            p == (|h: Held| h.part == part),
            n == s.take(i as int).filter(p).len(),
        decreases v@.len() - i,
    {
        proof {
            lemma_filter_take(s, p, i as int);
        }
        if v[i].part == part {
            n += 1;
        }
        i += 1;
    }
    assert(s.take(i as int) =~= s);
    n
}

/// The first style of either family with that name.
pub open spec fn called(s: Seq<Held>, a: Seq<char>, b: Seq<char>, name: Option<Seq<char>>) -> Option<
    Held,
> {
    match first(
        s,
        |h: Held|
            (h.node.attr_text("family"@) == Some(a) || h.node.attr_text("family"@) == Some(b))
                && name is Some && h.node.attr_text("name"@) == name,
    ) {
        Some(i) => Some(s[i]),
        None => None,
    }
}

/// The first style of either family with that name.
pub fn find_called<'a>(v: &Vec<Found<'a>>, a: &str, b: &str, name: Option<&str>) -> (r: Option<
    Found<'a>,
>)
    ensures
        held_in(r) == called(all_held(v@), a@, b@, slice_in(name)),
{
    let ghost s = all_held(v@);
    let ghost p = |h: Held|
        (h.node.attr_text("family"@) == Some(a@) || h.node.attr_text("family"@) == Some(b@))
            && slice_in(name) is Some && h.node.attr_text("name"@) == slice_in(name);
    let mut i: usize = 0;
    while i < v.len()
        invariant
            i <= v@.len(),
            s == all_held(v@),
            p == (|h: Held|
                (h.node.attr_text("family"@) == Some(a@) || h.node.attr_text("family"@) == Some(
                    b@,
                )) && slice_in(name) is Some && h.node.attr_text("name"@) == slice_in(name)),
            first(s, p) == first_from(s, p, i as int),
        decreases v@.len() - i,
    {
        let one: Found<'a> = v[i];
        let family: Option<String> = owned(one.node.attr_local("family"));
        if says(&family, a) || says(&family, b) {
            if let Some(want) = name {
                if let Some(had) = one.node.attr_local("name") {
                    if same(had, want) {
                        return Some(one);
                    }
                }
            }
        }
        i += 1;
    }
    None
}

/// What a table that may not be there says under a name.
pub open spec fn entry_in(
    t: Option<Seq<(Seq<char>, Seq<char>)>>,
    name: Seq<char>,
) -> Option<Seq<char>> {
    match t {
        Some(m) => entry_of(m, name),
        None => None,
    }
}

/// What a table that may not be there says under a name.
pub fn look_in(t: &Option<Vec<(String, String)>>, name: &str) -> (r: Option<String>)
    ensures
        text_in(r) == entry_in(table_in(*t), name@),
{
    match t {
        Some(m) => owned(look_up(m, name)),
        None => None,
    }
}

/// A text as a length, where there is one.
pub open spec fn length_if(t: Option<Seq<char>>) -> Option<int> {
    match t {
        Some(raw) => length_of(raw),
        None => None,
    }
}

/// A text as a length, where there is one.
pub fn measure(t: &Option<String>) -> (r: Option<i64>)
    ensures
        is_value(r, length_if(text_in(*t))),
{
    match t {
        Some(raw) => length(raw.as_str()),
        None => None,
    }
}

/// What a child of a style writes, where there are both.
pub open spec fn props_of(h: Option<Held>, want: Seq<char>) -> Option<
    Seq<(Seq<char>, Seq<char>)>,
> {
    kept_if(under(h, want))
}

/// What a child of a style writes, where there are both.
pub fn read_props(h: Option<Found>, want: &str) -> (r: Option<Vec<(String, String)>>)
    ensures
        table_in(r) == props_of(held_in(h), want@),
{
    match h {
        Some(f) => keep_if(f.node.child(want)),
        None => None,
    }
}

/// The part of an element that may not be there.
pub fn part_of(h: Option<Found>) -> (r: Option<Part>)
    ensures
        r == part_in(held_in(h)),
{
    match h {
        Some(f) => Some(f.part),
        None => None,
    }
}

/// What an attribute of an element that may not be there says.
pub open spec fn word_of(h: Option<Held>, want: Seq<char>) -> Option<Seq<char>> {
    match h {
        Some(x) => x.node.attr_text(want),
        None => None,
    }
}

/// What an attribute of an element that may not be there says.
pub fn ask_found(h: Option<Found>, want: &str) -> (r: Option<String>)
    ensures
        text_in(r) == word_of(held_in(h), want@),
{
    match h {
        Some(f) => owned(f.node.attr_local(want)),
        None => None,
    }
}

/// The element that holds the text of a document.
pub open spec fn text_element(root: Node) -> Option<Node> {
    let all = root.below("body"@);
    match first(all, |n: Node| n.child_of("text"@) is Some) {
        Some(i) => all[i].child_of("text"@),
        None => None,
    }
}

/// The element that holds the text of a document.
pub fn find_text_element<'a>(root: &'a Node) -> (r: Option<&'a Node>)
    ensures
        node_in(r) == text_element(*root),
{
    let all: Vec<&'a Node> = root.descendants("body");
    let ghost s = nodes(all@);
    let ghost p = |n: Node| n.child_of("text"@) is Some;
    let mut i: usize = 0;
    while i < all.len()
        invariant
            i <= all@.len(),
            s == nodes(all@),
            s == root.below("body"@),
            p == (|n: Node| n.child_of("text"@) is Some),
            first(s, p) == first_from(s, p, i as int),
        decreases all@.len() - i,
    {
        assert(s[i as int] == *all@[i as int]);
        let text: Option<&'a Node> = all[i].child("text");
        if text.is_some() {
            return text;
        }
        i += 1;
    }
    None
}

/// An attribute is found by its local name, the first of that name that is no copy under
/// `calcext`.
pub proof fn law_copies_do_not_count(n: Node, i: int, want: Seq<char>)
    ensures
        0 <= i < n.attrs@.len() && local_part(n.attrs@[i].0@) == want && !begins(
            n.attrs@[i].0@,
            "calcext:"@,
        ) && (forall|k: int|
            0 <= k < i ==> local_part((#[trigger] n.attrs@[k]).0@) != want || begins(
                n.attrs@[k].0@,
                "calcext:"@,
            )) ==> attr_said(n, want) == Some(n.attrs@[i].1@),
        (forall|k: int|
            0 <= k < n.attrs@.len() ==> local_part((#[trigger] n.attrs@[k]).0@) != want || begins(
                n.attrs@[k].0@,
                "calcext:"@,
            )) ==> attr_said(n, want) is None,
{
    assert forall|q: spec_fn((String, String)) -> bool|
        (forall|a: (String, String)| #[trigger]
            q(a) == (local_part(a.0@) == want && !begins(a.0@, "calcext:"@))) implies {
        &&& 0 <= i < n.attrs@.len() && q(n.attrs@[i]) && (forall|k: int|
            0 <= k < i ==> !q(#[trigger] n.attrs@[k])) ==> #[trigger] first(n.attrs@, q) == Some(i)
        &&& (forall|k: int| 0 <= k < n.attrs@.len() ==> !q(#[trigger] n.attrs@[k])) ==> first(
            n.attrs@,
            q,
        ) is None
    } by {
        crate::lists::lemma_first_from(n.attrs@, q, 0);
    }
}

/// What is looked for stands in the content first and then in the part for styles, and each find
/// says in which.
pub proof fn law_the_content_goes_first(content: Node, styles: Node, want: Seq<char>, i: int)
    ensures
        everywhere(content, Some(styles), want).len() == content.below(want).len() + styles.below(
            want,
        ).len(),
        everywhere(content, None, want).len() == content.below(want).len(),
        0 <= i < content.below(want).len() ==> everywhere(content, Some(styles), want)[i] == (Held {
            node: content.below(want)[i],
            part: Part::Content,
        }) && everywhere(content, None, want)[i] == (Held {
            node: content.below(want)[i],
            part: Part::Content,
        }),
        0 <= i < styles.below(want).len() ==> everywhere(
            content,
            Some(styles),
            want,
        )[content.below(want).len() + i] == (Held {
            node: styles.below(want)[i],
            part: Part::Styles,
        }),
        Part::Content.name() == "content.xml"@,
        Part::Styles.name() == "styles.xml"@,
{
}

/// A style of a family says so itself.
pub proof fn law_which_styles_are_of_a_family(s: Seq<Held>, family: Seq<char>, h: Held)
    ensures
        of_family(s, family).contains(h) <==> s.contains(h) && attr_said(h.node, "family"@) == Some(
            family,
        ),
{
    let p = |h: Held| attr_said(h.node, "family"@) == Some(family);
    let f = of_family(s, family);
    if f.contains(h) {
        let k = choose|k: int| 0 <= k < f.len() && f[k] == h;
        s.lemma_filter_pred(p, k);
        s.lemma_filter_contains_rev(p, h);
    }
    if s.contains(h) && attr_said(h.node, "family"@) == Some(family) {
        let k = choose|k: int| 0 <= k < s.len() && s[k] == h;
        assert(p(s[k]));
        s.lemma_filter_contains(p, k);
    }
}

/// A name stands for the first element of that name, and for none where none has it or none is
/// given.
pub proof fn law_what_a_name_stands_for(s: Seq<Held>, name: Seq<char>, i: int)
    ensures
        0 <= i < s.len() && attr_said(s[i].node, "name"@) == Some(name) && (forall|k: int|
            0 <= k < i ==> attr_said((#[trigger] s[k]).node, "name"@) != Some(name)) ==> meant(
            s,
            Some(name),
        ) == Some(s[i]),
        (forall|k: int| 0 <= k < s.len() ==> attr_said((#[trigger] s[k]).node, "name"@) != Some(name))
            ==> meant(s, Some(name)) is None,
        meant(s, None) is None,
{
    let p = |h: Held| attr_said(h.node, "name"@) == Some(name);
    crate::lists::lemma_first_from(s, p, 0);
    match first(s, p) {
        Some(j) => {
            assert(p(s[j]));
            if 0 <= i < s.len() && j > i {
                assert(!p(s[i]));
            }
        },
        None => {
            if 0 <= i < s.len() {
                assert(!p(s[i]));
            }
        },
    }
}

/// A style of either of two families is found by its name, the first of it.
pub proof fn law_which_style_is_called_so(
    s: Seq<Held>,
    a: Seq<char>,
    b: Seq<char>,
    name: Seq<char>,
    i: int,
)
    ensures
        0 <= i < s.len() && s[i].node.attr_text("name"@) == Some(name) && (s[i].node.attr_text(
            "family"@,
        ) == Some(a) || s[i].node.attr_text("family"@) == Some(b)) && (forall|k: int|
            0 <= k < i ==> (#[trigger] s[k]).node.attr_text("name"@) != Some(name)
                || !(s[k].node.attr_text("family"@) == Some(a) || s[k].node.attr_text("family"@)
                == Some(b))) ==> called(s, a, b, Some(name)) == Some(s[i]),
        (forall|k: int|
            0 <= k < s.len() ==> (#[trigger] s[k]).node.attr_text("name"@) != Some(name)
                || !(s[k].node.attr_text("family"@) == Some(a) || s[k].node.attr_text("family"@)
                == Some(b))) ==> called(s, a, b, Some(name)) is None,
        called(s, a, b, None) is None,
{
    assert forall|q: spec_fn(Held) -> bool|
        (forall|h: Held| #[trigger]
            q(h) == ((h.node.attr_text("family"@) == Some(a) || h.node.attr_text("family"@) == Some(
                b,
            )) && h.node.attr_text("name"@) == Some(name))) implies {
        &&& 0 <= i < s.len() && q(s[i]) && (forall|k: int| 0 <= k < i ==> !q(#[trigger] s[k]))
            ==> #[trigger] first(s, q) == Some(i)
        &&& (forall|k: int| 0 <= k < s.len() ==> !q(#[trigger] s[k])) ==> first(s, q) is None
    } by {
        crate::lists::lemma_first_from(s, q, 0);
    }
    assert forall|q: spec_fn(Held) -> bool|
        (forall|h: Held| !#[trigger] q(h)) implies #[trigger] first(s, q) is None by {
        crate::lists::lemma_first_from(s, q, 0);
    }
}

/// Of the elements of one name the first is kept, and those without a name are left out.
pub proof fn law_the_first_of_each_name_is_kept(s: Seq<Held>, n: int)
    requires
        0 <= n < s.len(),
    ensures
        attr_said(s[n].node, "name"@) is None ==> distinct(s, n + 1) == distinct(s, n),
        attr_said(s[n].node, "name"@) is Some && (exists|k: int|
            0 <= k < n && attr_said((#[trigger] s[k]).node, "name"@) == attr_said(
                s[n].node,
                "name"@,
            )) ==> distinct(s, n + 1) == distinct(s, n),
        attr_said(s[n].node, "name"@) is Some && (forall|k: int|
            0 <= k < n ==> attr_said((#[trigger] s[k]).node, "name"@) != attr_said(
                s[n].node,
                "name"@,
            )) ==> distinct(s, n + 1) == distinct(s, n).push(s[n]),
{
    if let Some(name) = attr_said(s[n].node, "name"@) {
        lemma_kept_names(s, n, name);
    }
}

proof fn lemma_kept_names(s: Seq<Held>, n: int, name: Seq<char>)
    requires
        0 <= n <= s.len(),
    ensures
        (named(distinct(s, n), name) is Some) == (exists|k: int|
            0 <= k < n && attr_said((#[trigger] s[k]).node, "name"@) == Some(name)),
    decreases n,
{
    let p = |h: Held| attr_said(h.node, "name"@) == Some(name);
    let all = distinct(s, n);
    crate::lists::lemma_first_from(all, p, 0);
    if n > 0 {
        lemma_kept_names(s, n - 1, name);
        let before = distinct(s, n - 1);
        crate::lists::lemma_first_from(before, p, 0);
        match attr_said(s[n - 1].node, "name"@) {
            Some(own) => {
                if named(before, own) is None {
                    assert(all == before.push(s[n - 1]));
                    assert(all[before.len() as int] == s[n - 1]);
                    if own == name {
                        assert(p(all[before.len() as int]));
                        assert(attr_said(s[n - 1].node, "name"@) == Some(name));
                    } else {
                        match first(before, p) {
                            Some(j) => {
                                assert(all[j] == before[j]);
                                assert(p(all[j]));
                            },
                            None => {
                                match first(all, p) {
                                    Some(j) => {
                                        assert(p(all[j]));
                                        if j < before.len() {
                                            assert(p(before[j]));
                                        }
                                    },
                                    None => {},
                                }
                            },
                        }
                    }
                } else if own == name {
                    assert(attr_said(s[n - 1].node, "name"@) == Some(name));
                }
            },
            None => {},
        }
    }
}

/// The text of a document stands in the first body that holds one.
pub proof fn law_where_the_text_stands(root: Node, i: int)
    ensures
        0 <= i < root.below("body"@).len() && root.below("body"@)[i].child_of("text"@) is Some
            && (forall|k: int|
            0 <= k < i ==> (#[trigger] root.below("body"@)[k]).child_of("text"@) is None)
            ==> text_element(root) == root.below("body"@)[i].child_of("text"@),
        (forall|k: int|
            0 <= k < root.below("body"@).len() ==> (#[trigger] root.below("body"@)[k]).child_of(
                "text"@,
            ) is None) ==> text_element(root) is None,
{
    let all = root.below("body"@);
    let p = |n: Node| n.child_of("text"@) is Some;
    crate::lists::lemma_first_from(all, p, 0);
    match first(all, p) {
        Some(j) => {
            assert(p(all[j]));
            if 0 <= i < all.len() && j > i {
                assert(!p(all[i]));
            }
        },
        None => {
            if 0 <= i < all.len() {
                assert(!p(all[i]));
            }
        },
    }
}

/// What a style writes under a name of its own kind of properties is what that child of it writes.
pub proof fn law_what_properties_say(h: Held, want: Seq<char>, n: Node, name: Seq<char>)
    ensures
        h.node.child_of(want) == Some(n) ==> props_of(Some(h), want) == Some(
            crate::written::kept_table(n),
        ),
        h.node.child_of(want) is None ==> props_of(Some(h), want) is None,
        props_of(None, want) is None,
        entry_in(None, name) is None,
        length_if(None) is None,
        word_of(Some(h), name) == h.node.attr_text(name),
        word_of(None, name) is None,
        part_in(Some(h)) == Some(h.part),
        part_in(None) is None,
{
}

} // verus!
