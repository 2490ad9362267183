//! What elements write about themselves, handed on as written.

use crate::lists::{first, first_from, lemma_filter_take, lemma_first_from};
use crate::text::{pair_texts, same, texts};
use crate::words::{begins, starts_with};
use crate::xml::{local_of, local_part, nodes, Node};
use vstd::prelude::*;

verus! {

broadcast use {
    crate::text::lemma_texts_push,
    crate::text::lemma_pair_texts_push,
    crate::xml::lemma_nodes_push,
};

/// The text of an optional string.
pub open spec fn text_in(s: Option<String>) -> Option<Seq<char>> {
    match s {
        Some(t) => Some(t@),
        None => None,
    }
}

/// The text of an optional string slice.
pub open spec fn slice_in(s: Option<&str>) -> Option<Seq<char>> {
    match s {
        Some(t) => Some(t@),
        None => None,
    }
}

/// A text that may not be there, or an empty one.
pub open spec fn or_empty(t: Option<Seq<char>>) -> Seq<char> {
    match t {
        Some(s) => s,
        None => Seq::empty(),
    }
}

/// A copy of an optional text.
pub fn owned(s: Option<&str>) -> (r: Option<String>)
    ensures
        text_in(r) == slice_in(s),
{
    match s {
        Some(t) => Some(t.to_owned()),
        None => None,
    }
}

/// A copy of an optional string.
pub fn copied(s: &Option<String>) -> (r: Option<String>)
    ensures
        text_in(r) == text_in(*s),
{
    match s {
        Some(t) => Some(t.clone()),
        None => None,
    }
}

/// The node behind an optional reference.
pub open spec fn node_in(n: Option<&Node>) -> Option<Node> {
    match n {
        Some(x) => Some(*x),
        None => None,
    }
}

/// The first child called `want` of a node that may not be there.
pub open spec fn step(n: Option<Node>, want: Seq<char>) -> Option<Node> {
    match n {
        Some(x) => x.child_of(want),
        None => None,
    }
}

/// The first child called `want` of a node that may not be there.
pub fn go<'a>(n: Option<&'a Node>, want: &str) -> (r: Option<&'a Node>)
    ensures
        node_in(r) == step(node_in(n), want@),
{
    match n {
        Some(x) => x.child(want),
        None => None,
    }
}

/// What the attribute `want` of a node that may not be there says.
pub open spec fn said_by(n: Option<Node>, want: Seq<char>) -> Option<Seq<char>> {
    match n {
        Some(x) => x.attr_text(want),
        None => None,
    }
}

/// What the attribute `want` of a node that may not be there says.
pub fn ask(n: Option<&Node>, want: &str) -> (r: Option<String>)
    ensures
        text_in(r) == said_by(node_in(n), want@),
{
    match n {
        Some(x) => owned(x.attr_local(want)),
        None => None,
    }
}

/// Whether an optional text is `want`.
pub fn says(s: &Option<String>, want: &str) -> (r: bool)
    ensures
        r == (text_in(*s) == Some(want@)),
{
    match s {
        Some(t) => same(t.as_str(), want),
        None => false,
    }
}

/// Whether an attribute declares a name space. Such a one says how to read names and nothing
/// about the element.
pub open spec fn declares(name: Seq<char>) -> bool {
    name == "xmlns"@ || begins(name, "xmlns:"@)
}

/// An entry has that name.
pub open spec fn has_key(name: Seq<char>) -> spec_fn((Seq<char>, Seq<char>)) -> bool {
    |e: (Seq<char>, Seq<char>)| e.0 == name
}

/// A table with one more entry. Where there is an entry of that name already, the new value
/// takes its place.
pub open spec fn with_entry(
    t: Seq<(Seq<char>, Seq<char>)>,
    one: (Seq<char>, Seq<char>),
) -> Seq<(Seq<char>, Seq<char>)> {
    match first(t, has_key(one.0)) {
        Some(i) => t.update(i, one),
        None => t.push(one),
    }
}

/// A list of entries as a table: each name stands once, where it stands first in the list, and
/// has the last of its values.
pub open spec fn merged(t: Seq<(Seq<char>, Seq<char>)>) -> Seq<(Seq<char>, Seq<char>)>
    decreases t.len(),
{
    if t.len() == 0 {
        Seq::empty()
    } else {
        with_entry(merged(t.drop_last()), t.last())
    }
}

/// Adds an entry to a table.
fn put(t: &mut Vec<(String, String)>, key: String, value: String)
    ensures
        pair_texts(final(t)@) == with_entry(pair_texts(old(t)@), (key@, value@)),
{
    let ghost had = pair_texts(t@);
    let ghost p = has_key(key@);
    let mut i: usize = 0;
    while i < t.len()
        invariant
            i <= t@.len(),
            *t == *old(t),
            had == pair_texts(t@),
            p == has_key(key@),
            first(had, p) == first_from(had, p, i as int),
        decreases t@.len() - i,
    {
        assert(had[i as int].0 == t@[i as int].0@);
        if same(t[i].0.as_str(), key.as_str()) {
            t.set(i, (key, value));
            assert(pair_texts(t@) =~= had.update(i as int, (key@, value@)));
            return;
        }
        i += 1;
    }
    t.push((key, value));
}

/// A list of entries as a table.
pub fn merge(t: &Vec<(String, String)>) -> (r: Vec<(String, String)>)
    ensures
        pair_texts(r@) == merged(pair_texts(t@)),
{
    let ghost all = pair_texts(t@);
    let mut out: Vec<(String, String)> = Vec::new();
    let mut i: usize = 0;
    assert(pair_texts(out@) =~= merged(all.take(0)));
    while i < t.len()
        invariant
            i <= t@.len(),
            all == pair_texts(t@),
            pair_texts(out@) == merged(all.take(i as int)),
        decreases t@.len() - i,
    {
        assert(all.take(i + 1).drop_last() =~= all.take(i as int));
        assert(all.take(i + 1).last() == (t@[i as int].0@, t@[i as int].1@));
        put(&mut out, t[i].0.clone(), t[i].1.clone());
        i += 1;
    }
    assert(all.take(i as int) =~= all);
    out
}

/// No two entries have one name.
pub open spec fn names_differ(t: Seq<(Seq<char>, Seq<char>)>) -> bool {
    forall|i: int, j: int| 0 <= i < j < t.len() ==> (#[trigger] t[i]).0 != (#[trigger] t[j]).0
}

proof fn lemma_entry_of(t: Seq<(Seq<char>, Seq<char>)>, name: Seq<char>)
    requires
        names_differ(t),
    ensures
        forall|i: int|
            0 <= i < t.len() && (#[trigger] t[i]).0 == name ==> entry_of(t, name) == Some(t[i].1),
        (forall|i: int| 0 <= i < t.len() ==> (#[trigger] t[i]).0 != name) ==> entry_of(t, name)
            is None,
    decreases t.len(),
{
    if t.len() > 0 {
        let rest = t.drop_last();
        assert(names_differ(rest)) by {
            assert forall|i: int, j: int| 0 <= i < j < rest.len() implies (#[trigger] rest[i]).0 != (
            #[trigger] rest[j]).0 by {
                assert(t[i].0 != t[j].0);
            }
        }
        lemma_entry_of(rest, name);
        assert forall|i: int| 0 <= i < t.len() && (#[trigger] t[i]).0 == name implies entry_of(
            t,
            name,
        ) == Some(t[i].1) by {
            if i < t.len() - 1 {
                assert(rest[i].0 == name);
                assert(t[i].0 != t[t.len() - 1].0);
            }
        }
        if forall|i: int| 0 <= i < t.len() ==> (#[trigger] t[i]).0 != name {
            assert forall|i: int| 0 <= i < rest.len() implies (#[trigger] rest[i]).0 != name by {
                assert(t[i].0 != name);
            }
            assert(t[t.len() - 1].0 != name);
        }
    }
}

/// In a table each name stands once, and what it says under a name is what the last entry of
/// that name in the list says.
pub proof fn law_the_last_value_counts(t: Seq<(Seq<char>, Seq<char>)>, name: Seq<char>)
    ensures
        names_differ(merged(t)),
        entry_of(merged(t), name) == entry_of(t, name),
    decreases t.len(),
{
    if t.len() > 0 {
        law_the_last_value_counts(t.drop_last(), name);
        let had = merged(t.drop_last());
        let one = t.last();
        let now = merged(t);
        lemma_first_from(had, has_key(one.0), 0);
        lemma_entry_of(had, name);
        assert(names_differ(now)) by {
            assert forall|i: int, j: int| 0 <= i < j < now.len() implies (#[trigger] now[i]).0 != (
            #[trigger] now[j]).0 by {
                if first(had, has_key(one.0)) is None {
                    assert(!has_key(one.0)(had[i]));
                    if j < had.len() {
                        assert(had[i].0 != had[j].0);
                    }
                } else {
                    assert(had[i].0 != had[j].0);
                }
            }
        }
        lemma_entry_of(now, name);
        match first(had, has_key(one.0)) {
            Some(k) => {
                assert(now[k] == one);
                assert forall|i: int| 0 <= i < had.len() && i != k implies now[i] == had[i] by {}
                if name != one.0 {
                    if exists|i: int| 0 <= i < had.len() && (#[trigger] had[i]).0 == name {
                        let i = choose|i: int| 0 <= i < had.len() && (#[trigger] had[i]).0 == name;
                        assert(now[i] == had[i]);
                    } else {
                        assert forall|i: int| 0 <= i < now.len() implies (#[trigger] now[i]).0
                            != name by {
                            assert(had[i].0 != name);
                        }
                    }
                }
            },
            None => {
                assert(now.last() == one);
                assert(now[now.len() - 1] == one);
                if name != one.0 {
                    if exists|i: int| 0 <= i < had.len() && (#[trigger] had[i]).0 == name {
                        let i = choose|i: int| 0 <= i < had.len() && (#[trigger] had[i]).0 == name;
                        assert(now[i] == had[i]);
                    } else {
                        assert forall|i: int| 0 <= i < now.len() implies (#[trigger] now[i]).0
                            != name by {
                            if i < had.len() {
                                assert(had[i].0 != name);
                            }
                        }
                    }
                }
            },
        }
    }
}

/// The attributes among the first `n` that are no declarations, by local name or by the name
/// as written.
pub open spec fn table_upto(a: Seq<(String, String)>, n: int, kept: bool) -> Seq<
    (Seq<char>, Seq<char>),
>
    decreases n,
{
    if n <= 0 {
        Seq::empty()
    } else {
        let before = table_upto(a, n - 1, kept);
        let one = a[n - 1];
        if declares(one.0@) {
            before
        } else {
            before.push(
                (
                    if kept {
                        one.0@
                    } else {
                        local_part(one.0@)
                    },
                    one.1@,
                ),
            )
        }
    }
}

/// The attributes of an element by local name.
pub open spec fn table_of(n: Node) -> Seq<(Seq<char>, Seq<char>)> {
    merged(table_upto(n.attrs@, n.attrs@.len() as int, false))
}

/// The attributes of an element by the name as written.
pub open spec fn kept_table(n: Node) -> Seq<(Seq<char>, Seq<char>)> {
    merged(table_upto(n.attrs@, n.attrs@.len() as int, true))
}

fn collect(node: &Node, kept: bool) -> (r: Vec<(String, String)>)
    ensures
        pair_texts(r@) == merged(table_upto(node.attrs@, node.attrs@.len() as int, kept)),
{
    let mut out: Vec<(String, String)> = Vec::new();
    let mut i: usize = 0;
    assert(pair_texts(out@) =~= table_upto(node.attrs@, 0, kept));
    while i < node.attrs.len()
        invariant
            i <= node.attrs@.len(),
            pair_texts(out@) == table_upto(node.attrs@, i as int, kept),
        decreases node.attrs@.len() - i,
    {
        let name: &str = node.attrs[i].0.as_str();
        if !(same(name, "xmlns") || starts_with(name, "xmlns:")) {
            let ghost before = pair_texts(out@);
            let key: String = if kept {
                name.to_owned()
            } else {
                local_of(name).to_owned()
            };
            let value: String = node.attrs[i].1.clone();
            out.push((key, value));
            assert(pair_texts(out@) =~= before.push((key@, value@)));
        }
        i += 1;
    }
    merge(&out)
}

/// The attributes of an element by local name. Of two with one local name the later counts.
pub fn attr_map(node: &Node) -> (r: Vec<(String, String)>)
    ensures
        pair_texts(r@) == table_of(*node),
{
    collect(node, false)
}

/// The attributes of an element by the name as written. Two properties can share a local name
/// and differ in their prefix, so the prefix stays.
pub fn kept_attrs(node: &Node) -> (r: Vec<(String, String)>)
    ensures
        pair_texts(r@) == kept_table(*node),
{
    collect(node, true)
}

/// A table that may not be there.
pub open spec fn table_in(t: Option<Vec<(String, String)>>) -> Option<
    Seq<(Seq<char>, Seq<char>)>,
> {
    match t {
        Some(v) => Some(pair_texts(v@)),
        None => None,
    }
}

/// The table of a node that may not be there, by local name.
pub open spec fn table_if(n: Option<Node>) -> Option<Seq<(Seq<char>, Seq<char>)>> {
    match n {
        Some(x) => Some(table_of(x)),
        None => None,
    }
}

/// The table of a node that may not be there, by the name as written.
pub open spec fn kept_if(n: Option<Node>) -> Option<Seq<(Seq<char>, Seq<char>)>> {
    match n {
        Some(x) => Some(kept_table(x)),
        None => None,
    }
}

pub fn map_if(n: Option<&Node>) -> (r: Option<Vec<(String, String)>>)
    ensures
        table_in(r) == table_if(node_in(n)),
{
    match n {
        Some(x) => Some(attr_map(x)),
        None => None,
    }
}

pub fn keep_if(n: Option<&Node>) -> (r: Option<Vec<(String, String)>>)
    ensures
        table_in(r) == kept_if(node_in(n)),
{
    match n {
        Some(x) => Some(kept_attrs(x)),
        None => None,
    }
}

/// What a table says under a name: the last entry of that name counts.
pub open spec fn entry_of(t: Seq<(Seq<char>, Seq<char>)>, name: Seq<char>) -> Option<Seq<char>>
    decreases t.len(),
{
    if t.len() == 0 {
        None
    } else if t.last().0 == name {
        Some(t.last().1)
    } else {
        entry_of(t.drop_last(), name)
    }
}

/// What a table says under a name.
pub fn look_up<'a>(t: &'a Vec<(String, String)>, name: &str) -> (r: Option<&'a str>)
    ensures
        slice_in(r) == entry_of(pair_texts(t@), name@),
{
    let mut n: usize = t.len();
    assert(pair_texts(t@).take(n as int) =~= pair_texts(t@));
    while n > 0
        invariant
            n <= t@.len(),
            entry_of(pair_texts(t@), name@) == entry_of(pair_texts(t@).take(n as int), name@),
        decreases n,
    {
        assert(pair_texts(t@).take(n as int).drop_last() =~= pair_texts(t@).take(n - 1));
        if same(t[n - 1].0.as_str(), name) {
            return Some(t[n - 1].1.as_str());
        }
        n -= 1;
    }
    None
}

/// The local names of nodes.
pub open spec fn local_names(c: Seq<Node>) -> Seq<Seq<char>> {
    Seq::new(c.len(), |i: int| c[i].local_name())
}

/// The local names of the children of a node.
pub fn child_names(node: &Node) -> (r: Vec<String>)
    ensures
        texts(r@) == local_names(node.children@),
{
    let mut out: Vec<String> = Vec::new();
    let mut i: usize = 0;
    while i < node.children.len()
        invariant
            i <= node.children@.len(),
            texts(out@) == local_names(node.children@).take(i as int),
        decreases node.children@.len() - i,
    {
        out.push(node.children[i].local().to_owned());
        i += 1;
        assert(texts(out@) =~= local_names(node.children@).take(i as int));
    }
    assert(texts(out@) =~= local_names(node.children@));
    out
}

/// An element and what it writes.
#[derive(Debug, Clone)]
pub struct Written {
    pub element: String,
    pub written: Vec<(String, String)>,
}

impl Written {
    pub open spec fn describes(self, n: Node) -> bool {
        self.element@ == n.local_name() && pair_texts(self.written@) == table_of(n)
    }
}

/// A node has that local name.
pub open spec fn has_local(name: Seq<char>) -> spec_fn(Node) -> bool {
    |n: Node| n.local_name() == name
}

/// A list of nodes with one more. Where there is a node of that local name already, the new one
/// takes its place.
pub open spec fn with_node(c: Seq<Node>, one: Node) -> Seq<Node> {
    match first(c, has_local(one.local_name())) {
        Some(i) => c.update(i, one),
        None => c.push(one),
    }
}

/// The last node of each local name, where the first one of that name stands.
pub open spec fn latest(c: Seq<Node>) -> Seq<Node>
    decreases c.len(),
{
    if c.len() == 0 {
        Seq::empty()
    } else {
        with_node(latest(c.drop_last()), c.last())
    }
}

/// The last node of each local name.
pub fn pick_latest<'a>(c: &Vec<&'a Node>) -> (r: Vec<&'a Node>)
    ensures
        nodes(r@) == latest(nodes(c@)),
{
    let ghost all = nodes(c@);
    let mut out: Vec<&'a Node> = Vec::new();
    let mut i: usize = 0;
    assert(nodes(out@) =~= latest(all.take(0)));
    while i < c.len()
        invariant
            i <= c@.len(),
            all == nodes(c@),
            nodes(out@) == latest(all.take(i as int)),
        decreases c@.len() - i,
    {
        let one: &'a Node = c[i];
        assert(all.take(i + 1).drop_last() =~= all.take(i as int));
        assert(all.take(i + 1).last() == *one);
        let ghost had = nodes(out@);
        let ghost p = has_local(one.local_name());
        let mut k: usize = 0;
        while k < out.len() && !same(out[k].local(), one.local())
            invariant
                k <= out@.len(),
                had == nodes(out@),
                p == has_local(one.local_name()),
                first(had, p) == first_from(had, p, k as int),
            decreases out@.len() - k,
        {
            assert(had[k as int] == *out@[k as int]);
            k += 1;
        }
        if k < out.len() {
            assert(had[k as int] == *out@[k as int]);
            out.set(k, one);
            assert(nodes(out@) =~= had.update(k as int, *one));
        } else {
            out.push(one);
        }
        i += 1;
    }
    assert(all.take(i as int) =~= all);
    out
}

/// The list gives the elements one by one.
pub open spec fn lists_elements(v: Seq<Written>, c: Seq<Node>) -> bool {
    v.len() == c.len() && forall|i: int| 0 <= i < v.len() ==> (#[trigger] v[i]).describes(c[i])
}

/// The nodes that are called neither `a` nor `b`.
pub open spec fn except(c: Seq<Node>, a: Seq<char>, b: Seq<char>) -> Seq<Node> {
    c.filter(|n: Node| n.local_name() != a && n.local_name() != b)
}

/// The children of a node that may not be there.
pub open spec fn children_of(n: Option<Node>) -> Seq<Node> {
    match n {
        Some(x) => x.children@,
        None => Seq::empty(),
    }
}

/// The nodes that are called neither `a` nor `b`.
pub fn pick_except<'a>(c: &'a Vec<Node>, a: &str, b: &str) -> (r: Vec<&'a Node>)
    ensures
        nodes(r@) == except(c@, a@, b@),
{
    let ghost p = |n: Node| n.local_name() != a@ && n.local_name() != b@;
    let mut out: Vec<&'a Node> = Vec::new();
    let mut i: usize = 0;
    assert(nodes(out@) =~= c@.take(0).filter(p)) by {
        reveal(Seq::filter);
    }
    while i < c.len()
        invariant
            i <= c@.len(),
            p == (|n: Node| n.local_name() != a@ && n.local_name() != b@),
            nodes(out@) == c@.take(i as int).filter(p),
        decreases c@.len() - i,
    {
        proof {
            lemma_filter_take(c@, p, i as int);
        }
        if !c[i].is(a) && !c[i].is(b) {
            out.push(&c[i]);
        }
        i += 1;
    }
    assert(c@.take(i as int) =~= c@);
    out
}

/// The elements of a list and what they write.
pub fn write_out(c: &Vec<&Node>) -> (r: Vec<Written>)
    ensures
        lists_elements(r@, nodes(c@)),
{
    let mut out: Vec<Written> = Vec::new();
    let mut i: usize = 0;
    while i < c.len()
        invariant
            i <= c@.len(),
            out@.len() == i,
            forall|k: int| 0 <= k < i ==> (#[trigger] out@[k]).describes(nodes(c@)[k]),
        decreases c@.len() - i,
    {
        let one: &Node = c[i];
        out.push(Written { element: one.local().to_owned(), written: attr_map(one) });
        i += 1;
    }
    out
}

/// The local names of a list of nodes.
pub fn names_of(c: &Vec<&Node>) -> (r: Vec<String>)
    ensures
        texts(r@) == local_names(nodes(c@)),
{
    let mut out: Vec<String> = Vec::new();
    let mut i: usize = 0;
    while i < c.len()
        invariant
            i <= c@.len(),
            texts(out@) == local_names(nodes(c@)).take(i as int),
        decreases c@.len() - i,
    {
        out.push(c[i].local().to_owned());
        i += 1;
        assert(texts(out@) =~= local_names(nodes(c@)).take(i as int));
    }
    assert(texts(out@) =~= local_names(nodes(c@)));
    out
}

/// The texts of a list of nodes one after another.
pub open spec fn joined_text(c: Seq<Node>) -> Seq<char>
    decreases c.len(),
{
    if c.len() == 0 {
        Seq::empty()
    } else {
        joined_text(c.drop_last()) + c.last().full_text()
    }
}

/// What one attribute of each node says.
pub open spec fn each_says(c: Seq<Node>, want: Seq<char>) -> Seq<Option<Seq<char>>> {
    Seq::new(c.len(), |i: int| c[i].attr_text(want))
}

pub open spec fn option_texts(v: Seq<Option<String>>) -> Seq<Option<Seq<char>>> {
    Seq::new(v.len(), |i: int| text_in(v[i]))
}

/// The texts of each node.
pub open spec fn each_text(c: Seq<Node>) -> Seq<Seq<char>> {
    Seq::new(c.len(), |i: int| c[i].full_text())
}

/// What one attribute says, of the nodes that have it.
pub open spec fn some_say(c: Seq<Node>, want: Seq<char>, n: int) -> Seq<Seq<char>>
    decreases n,
{
    if n <= 0 {
        Seq::empty()
    } else {
        match c[n - 1].attr_text(want) {
            Some(t) => some_say(c, want, n - 1).push(t),
            None => some_say(c, want, n - 1),
        }
    }
}

/// What one attribute of each node says.
pub fn ask_each(c: &Vec<&Node>, want: &str) -> (r: Vec<Option<String>>)
    ensures
        option_texts(r@) == each_says(nodes(c@), want@),
{
    let mut out: Vec<Option<String>> = Vec::new();
    let mut i: usize = 0;
    while i < c.len()
        invariant
            i <= c@.len(),
            out@.len() == i,
            forall|k: int|
                0 <= k < i ==> text_in(#[trigger] out@[k]) == nodes(c@)[k].attr_text(want@),
        decreases c@.len() - i,
    {
        out.push(owned(c[i].attr_local(want)));
        i += 1;
    }
    assert(option_texts(out@) =~= each_says(nodes(c@), want@));
    out
}

/// The texts of each node.
pub fn read_each(c: &Vec<&Node>) -> (r: Vec<String>)
    ensures
        texts(r@) == each_text(nodes(c@)),
{
    let mut out: Vec<String> = Vec::new();
    let mut i: usize = 0;
    while i < c.len()
        invariant
            i <= c@.len(),
            out@.len() == i,
            forall|k: int| 0 <= k < i ==> (#[trigger] out@[k])@ == nodes(c@)[k].full_text(),
        decreases c@.len() - i,
    {
        out.push(c[i].text());
        i += 1;
    }
    assert(texts(out@) =~= each_text(nodes(c@)));
    out
}

/// What one attribute says, of the nodes that have it.
pub fn ask_some(c: &Vec<&Node>, want: &str) -> (r: Vec<String>)
    ensures
        texts(r@) == some_say(nodes(c@), want@, c@.len() as int),
{
    let mut out: Vec<String> = Vec::new();
    let mut i: usize = 0;
    assert(texts(out@) =~= some_say(nodes(c@), want@, 0));
    while i < c.len()
        invariant
            i <= c@.len(),
            texts(out@) == some_say(nodes(c@), want@, i as int),
        decreases c@.len() - i,
    {
        if let Some(t) = c[i].attr_local(want) {
            out.push(t.to_owned());
        }
        i += 1;
    }
    out
}

/// The first node whose attribute `key` says `id`.
pub open spec fn find_by(c: Seq<Node>, key: Seq<char>, id: Seq<char>) -> Option<Node> {
    match first(c, |n: Node| n.attr_text(key) == Some(id)) {
        Some(i) => Some(c[i]),
        None => None,
    }
}

/// The first node whose attribute `key` says `id`.
pub fn find_node<'a>(c: &Vec<&'a Node>, key: &str, id: &str) -> (r: Option<&'a Node>)
    ensures
        node_in(r) == find_by(nodes(c@), key@, id@),
{
    let ghost list = nodes(c@);
    let ghost p = |n: Node| n.attr_text(key@) == Some(id@);
    let mut i: usize = 0;
    while i < c.len()
        invariant
            i <= c@.len(),
            list == nodes(c@),
            p == (|n: Node| n.attr_text(key@) == Some(id@)),
            first(list, p) == first_from(list, p, i as int),
        decreases c@.len() - i,
    {
        assert(list[i as int] == *c@[i as int]);
        if let Some(had) = c[i].attr_local(key) {
            if same(had, id) {
                return Some(c[i]);
            }
        }
        i += 1;
    }
    None
}

/// The first node of each id among the first `n`: those without the attribute `key` are left
/// out, and so are those whose id has been there before.
pub open spec fn firsts(c: Seq<Node>, key: Seq<char>, n: int) -> Seq<Node>
    decreases n,
{
    if n <= 0 {
        Seq::empty()
    } else {
        let before = firsts(c, key, n - 1);
        match c[n - 1].attr_text(key) {
            Some(id) => if find_by(before, key, id) is Some {
                before
            } else {
                before.push(c[n - 1])
            },
            None => before,
        }
    }
}

/// The first node of each id.
pub fn first_of_each<'a>(c: &Vec<&'a Node>, key: &str) -> (r: Vec<&'a Node>)
    ensures
        nodes(r@) == firsts(nodes(c@), key@, c@.len() as int),
{
    let mut out: Vec<&'a Node> = Vec::new();
    let mut i: usize = 0;
    assert(nodes(out@) =~= firsts(nodes(c@), key@, 0));
    while i < c.len()
        invariant
            i <= c@.len(),
            nodes(out@) == firsts(nodes(c@), key@, i as int),
        decreases c@.len() - i,
    {
        if let Some(id) = c[i].attr_local(key) {
            if find_node(&out, key, id).is_none() {
                out.push(c[i]);
            }
        }
        i += 1;
    }
    out
}

/// How many of the nodes satisfy `q`, where `f` tells it of each.
pub fn count_nodes<F: Fn(&Node) -> bool>(
    v: &Vec<&Node>,
    f: F,
    Ghost(q): Ghost<spec_fn(Node) -> bool>,
) -> (r: usize)
    requires
        forall|n: &Node| call_requires(f, (n,)),
        forall|n: &Node, b: bool| call_ensures(f, (n,), b) ==> b == q(*n),
    ensures
        r == nodes(v@).filter(q).len(),
{
    let ghost s = nodes(v@);
    let mut n: usize = 0;
    let mut i: usize = 0;
    assert(s.take(0).filter(q).len() == 0) by {
        reveal(Seq::filter);
    }
    while i < v.len()
        invariant
            i <= v@.len(),
            n <= i,
            s == nodes(v@),
            forall|n: &Node| call_requires(f, (n,)),
            forall|n: &Node, b: bool| call_ensures(f, (n,), b) ==> b == q(*n),
            n == s.take(i as int).filter(q).len(),
        decreases v@.len() - i,
    {
        proof {
            lemma_filter_take(s, q, i as int);
        }
        if f(v[i]) {
            n += 1;
        }
        i += 1;
    }
    assert(s.take(i as int) =~= s);
    n
}

/// The first node called `want` below a node.
pub open spec fn first_below(n: Node, want: Seq<char>) -> Option<Node> {
    let all = n.below(want);
    if all.len() > 0 {
        Some(all[0])
    } else {
        None
    }
}

/// The first node called `want` below a node.
pub fn find_below<'a>(n: &'a Node, want: &str) -> (r: Option<&'a Node>)
    ensures
        node_in(r) == first_below(*n, want@),
{
    let all: Vec<&'a Node> = n.descendants(want);
    assert(nodes(all@).len() == all@.len());
    if all.len() > 0 {
        assert(nodes(all@)[0] == *all@[0]);
        Some(all[0])
    } else {
        None
    }
}

/// Whether a list of texts holds one.
pub fn lists(v: &Vec<String>, want: &str) -> (r: bool)
    ensures
        r == texts(v@).contains(want@),
{
    let mut i: usize = 0;
    while i < v.len()
        invariant
            i <= v@.len(),
            forall|k: int| 0 <= k < i ==> texts(v@)[k] != want@,
        decreases v@.len() - i,
    {
        assert(texts(v@)[i as int] == v@[i as int]@);
        if same(v[i].as_str(), want) {
            return true;
        }
        i += 1;
    }
    false
}

/// The nodes that satisfy `q`, where `f` tells it of each.
pub fn pick_nodes<'a, F: Fn(&Node) -> bool>(
    v: &Vec<&'a Node>,
    f: F,
    Ghost(q): Ghost<spec_fn(Node) -> bool>,
) -> (r: Vec<&'a Node>)
    requires
        forall|n: &Node| call_requires(f, (n,)),
        forall|n: &Node, b: bool| call_ensures(f, (n,), b) ==> b == q(*n),
    ensures
        nodes(r@) == nodes(v@).filter(q),
{
    let ghost s = nodes(v@);
    let mut out: Vec<&'a Node> = Vec::new();
    let mut i: usize = 0;
    assert(nodes(out@) =~= s.take(0).filter(q)) by {
        reveal(Seq::filter);
    }
    while i < v.len()
        invariant
            i <= v@.len(),
            s == nodes(v@),
            forall|n: &Node| call_requires(f, (n,)),
            forall|n: &Node, b: bool| call_ensures(f, (n,), b) ==> b == q(*n),
            nodes(out@) == s.take(i as int).filter(q),
        decreases v@.len() - i,
    {
        proof {
            lemma_filter_take(s, q, i as int);
        }
        let one: &'a Node = v[i];
        if f(one) {
            out.push(one);
        }
        i += 1;
    }
    assert(s.take(i as int) =~= s);
    out
}

/// The texts of a list of nodes one after another.
pub fn join_text(v: &Vec<&Node>) -> (r: String)
    ensures
        r@ == joined_text(nodes(v@)),
{
    let ghost c = nodes(v@);
    let mut out: String = String::new();
    let mut i: usize = 0;
    assert(out@ =~= joined_text(c.take(0)));
    while i < v.len()
        invariant
            i <= v@.len(),
            c == nodes(v@),
            out@ == joined_text(c.take(i as int)),
        decreases v@.len() - i,
    {
        assert(c.take(i + 1).drop_last() =~= c.take(i as int));
        let part: String = v[i].text();
        out.append(part.as_str());
        i += 1;
    }
    assert(c.take(i as int) =~= c);
    out
}

/// The children of a node as a list of references.
pub fn kids_of<'a>(n: &'a Node) -> (r: Vec<&'a Node>)
    ensures
        nodes(r@) == n.children@,
{
    let mut out: Vec<&'a Node> = Vec::new();
    let mut i: usize = 0;
    while i < n.children.len()
        invariant
            i <= n.children@.len(),
            nodes(out@) == n.children@.take(i as int),
        decreases n.children@.len() - i,
    {
        out.push(&n.children[i]);
        i += 1;
        assert(nodes(out@) =~= n.children@.take(i as int));
    }
    assert(nodes(out@) =~= n.children@);
    out
}

/// The elements in a list of nodes and below them, in document order. A run of text is none.
pub open spec fn elements_in(c: Seq<Node>) -> Seq<Node>
    decreases c,
{
    if c.len() == 0 {
        Seq::empty()
    } else {
        let own = if c.last().name@ == "#text"@ {
            Seq::empty()
        } else {
            seq![c.last()] + elements_in(c.last().children@)
        };
        elements_in(c.drop_last()) + own
    }
}

/// Appends the elements below a node, in document order.
pub fn subtree<'a>(node: &'a Node, out: &mut Vec<&'a Node>)
    ensures
        nodes(final(out)@) == nodes(old(out)@) + elements_in(node.children@),
    decreases node,
{
    let ghost c = node.children@;
    let ghost start = nodes(out@);
    let mut i: usize = 0;
    assert(c.take(0) =~= Seq::empty());
    assert(start + elements_in(c.take(0)) =~= start);
    while i < node.children.len()
        invariant
            i <= node.children@.len(),
            c == node.children@,
            nodes(out@) == start + elements_in(c.take(i as int)),
        decreases node.children@.len() - i,
    {
        let one: &'a Node = &node.children[i];
        let ghost done = c.take(i + 1);
        assert(done.drop_last() =~= c.take(i as int));
        assert(done.last() == *one);
        if !same(one.name.as_str(), "#text") {
            let ghost had = nodes(out@);
            out.push(one);
            assert(nodes(out@) =~= had + seq![*one]);
            subtree(one, out);
        }
        assert(nodes(out@) =~= start + elements_in(done));
        i += 1;
    }
    assert(c.take(i as int) =~= c);
}

/// The texts among the first `n`, each once, in the order in which they first stand.
pub open spec fn once_each(s: Seq<Seq<char>>, n: int) -> Seq<Seq<char>>
    decreases n,
{
    if n <= 0 {
        Seq::empty()
    } else if once_each(s, n - 1).contains(s[n - 1]) {
        once_each(s, n - 1)
    } else {
        once_each(s, n - 1).push(s[n - 1])
    }
}

/// The texts of a list, each once.
pub fn pick_once(v: &Vec<String>) -> (r: Vec<String>)
    ensures
        texts(r@) == once_each(texts(v@), v@.len() as int),
{
    let mut out: Vec<String> = Vec::new();
    let mut i: usize = 0;
    assert(texts(out@) =~= once_each(texts(v@), 0));
    while i < v.len()
        invariant
            i <= v@.len(),
            texts(out@) == once_each(texts(v@), i as int),
        decreases v@.len() - i,
    {
        assert(texts(v@)[i as int] == v@[i as int]@);
        if !lists(&out, v[i].as_str()) {
            out.push(v[i].clone());
        }
        i += 1;
    }
    out
}

/// The elements called `want` of a part that may not be there.
pub open spec fn below_in(part: Option<Node>, want: Seq<char>) -> Seq<Node> {
    match part {
        Some(p) => p.below(want),
        None => Seq::empty(),
    }
}

/// The elements called `want` of a part that may not be there.
pub fn find_in<'a>(part: Option<&'a Node>, want: &str) -> (r: Vec<&'a Node>)
    ensures
        nodes(r@) == below_in(node_in(part), want@),
        r@.len() == below_in(node_in(part), want@).len(),
{
    let r: Vec<&'a Node> = match part {
        Some(p) => p.descendants(want),
        None => Vec::new(),
    };
    assert(nodes(r@) =~= below_in(node_in(part), want@));
    assert(nodes(r@).len() == r@.len());
    r
}

/// An attribute that declares a name space is called `xmlns` or has that prefix, and no other
/// does.
pub proof fn law_what_declares_a_name_space(rest: Seq<char>, name: Seq<char>)
    ensures
        declares("xmlns"@),
        declares("xmlns:"@ + rest),
        name.len() < 5 ==> !declares(name),
        name.len() > 5 && name[5] != ':' ==> !declares(name),
        name.len() >= 5 && name.take(5) != "xmlns"@ ==> !declares(name),
{
    reveal_strlit("xmlns");
    reveal_strlit("xmlns:");
    let all = "xmlns:"@ + rest;
    assert(all.take(6) =~= "xmlns:"@);
    assert("xmlns:"@.take(5) =~= "xmlns"@);
    assert("xmlns:"@[5] == ':');
    if begins(name, "xmlns:"@) {
        assert(name.take(6)[5] == name[5]);
        assert(name.take(6).take(5) =~= name.take(5));
    }
    if name == "xmlns"@ {
        assert(name.take(5) =~= name);
    }
}

proof fn lemma_entry_push(t: Seq<(Seq<char>, Seq<char>)>, one: (Seq<char>, Seq<char>))
    ensures
        entry_of(t.push(one), one.0) == Some(one.1),
        forall|name: Seq<char>|
            name != one.0 ==> #[trigger] entry_of(t.push(one), name) == entry_of(t, name),
{
    assert(t.push(one).drop_last() =~= t);
}

proof fn lemma_table_entry(a: Seq<(String, String)>, n: int, kept: bool, i: int, name: Seq<char>)
    requires
        0 <= i < n <= a.len(),
        !declares(a[i].0@),
        name == if kept {
            a[i].0@
        } else {
            local_part(a[i].0@)
        },
        forall|k: int|
            i < k < n ==> declares((#[trigger] a[k]).0@) || name != if kept {
                a[k].0@
            } else {
                local_part(a[k].0@)
            },
    ensures
        entry_of(table_upto(a, n, kept), name) == Some(a[i].1@),
    decreases n,
{
    let before = table_upto(a, n - 1, kept);
    let one = a[n - 1];
    let key = if kept {
        one.0@
    } else {
        local_part(one.0@)
    };
    lemma_entry_push(before, (key, one.1@));
    if i < n - 1 {
        lemma_table_entry(a, n - 1, kept, i, name);
    }
}

/// What an element writes is in its table: under a local name stands what the last attribute of
/// that name says, and under a name with its prefix what that attribute says. Declarations of
/// name spaces are left out.
pub proof fn law_a_table_has_what_is_written(n: Node, i: int)
    requires
        0 <= i < n.attrs@.len(),
        !declares(n.attrs@[i].0@),
    ensures
        (forall|k: int|
            i < k < n.attrs@.len() ==> declares((#[trigger] n.attrs@[k]).0@) || local_part(
                n.attrs@[k].0@,
            ) != local_part(n.attrs@[i].0@)) ==> entry_of(
            table_of(n),
            local_part(n.attrs@[i].0@),
        ) == Some(n.attrs@[i].1@),
        (forall|k: int|
            i < k < n.attrs@.len() ==> (#[trigger] n.attrs@[k]).0@ != n.attrs@[i].0@) ==> entry_of(
            kept_table(n),
            n.attrs@[i].0@,
        ) == Some(n.attrs@[i].1@),
{
    let a = n.attrs@;
    let size = a.len() as int;
    law_the_last_value_counts(table_upto(a, size, false), local_part(a[i].0@));
    law_the_last_value_counts(table_upto(a, size, true), a[i].0@);
    if forall|k: int|
        i < k < size ==> declares((#[trigger] a[k]).0@) || local_part(a[k].0@) != local_part(
            a[i].0@,
        ) {
        lemma_table_entry(a, size, false, i, local_part(a[i].0@));
    }
    if forall|k: int| i < k < size ==> (#[trigger] a[k]).0@ != a[i].0@ {
        lemma_table_entry(a, size, true, i, a[i].0@);
    }
}

proof fn lemma_no_entry(a: Seq<(String, String)>, n: int, kept: bool, name: Seq<char>)
    requires
        0 <= n <= a.len(),
        forall|k: int|
            0 <= k < n ==> declares((#[trigger] a[k]).0@) || name != if kept {
                a[k].0@
            } else {
                local_part(a[k].0@)
            },
    ensures
        entry_of(table_upto(a, n, kept), name) is None,
    decreases n,
{
    if n > 0 {
        let before = table_upto(a, n - 1, kept);
        let one = a[n - 1];
        let key = if kept {
            one.0@
        } else {
            local_part(one.0@)
        };
        lemma_entry_push(before, (key, one.1@));
        lemma_no_entry(a, n - 1, kept, name);
    }
}

/// What an element does not write is not in its table.
pub proof fn law_a_table_has_nothing_else(n: Node, name: Seq<char>)
    ensures
        (forall|k: int|
            0 <= k < n.attrs@.len() ==> declares((#[trigger] n.attrs@[k]).0@) || local_part(
                n.attrs@[k].0@,
            ) != name) ==> entry_of(table_of(n), name) is None,
        (forall|k: int|
            0 <= k < n.attrs@.len() ==> declares((#[trigger] n.attrs@[k]).0@) || n.attrs@[k].0@
                != name) ==> entry_of(kept_table(n), name) is None,
{
    let a = n.attrs@;
    let size = a.len() as int;
    law_the_last_value_counts(table_upto(a, size, false), name);
    law_the_last_value_counts(table_upto(a, size, true), name);
    if forall|k: int|
        0 <= k < size ==> declares((#[trigger] a[k]).0@) || local_part(a[k].0@) != name {
        lemma_no_entry(a, size, false, name);
    }
    if forall|k: int| 0 <= k < size ==> declares((#[trigger] a[k]).0@) || a[k].0@ != name {
        lemma_no_entry(a, size, true, name);
    }
}

/// What is asked of a node that may not be there is asked of the node, and nothing is said where
/// there is none.
pub proof fn law_steps_lead_from_node_to_node(n: Node, want: Seq<char>)
    ensures
        step(Some(n), want) == n.child_of(want),
        step(None, want) is None,
        said_by(Some(n), want) == n.attr_text(want),
        said_by(None, want) is None,
        below_in(Some(n), want) == n.below(want),
        below_in(None, want).len() == 0,
        n.below(want).len() > 0 ==> first_below(n, want) == Some(n.below(want)[0]),
        n.below(want).len() == 0 ==> first_below(n, want) is None,
        children_of(Some(n)) == n.children@,
        children_of(None).len() == 0,
{
}

/// The first node of an id is the one that is found, and none is where none has it.
pub proof fn law_the_first_of_an_id_is_found(c: Seq<Node>, key: Seq<char>, id: Seq<char>, i: int)
    ensures
        0 <= i < c.len() && c[i].attr_text(key) == Some(id) && (forall|k: int|
            0 <= k < i ==> (#[trigger] c[k]).attr_text(key) != Some(id)) ==> find_by(c, key, id)
            == Some(c[i]),
        (forall|k: int| 0 <= k < c.len() ==> (#[trigger] c[k]).attr_text(key) != Some(id))
            ==> find_by(c, key, id) is None,
{
    let p = |n: Node| n.attr_text(key) == Some(id);
    lemma_first_from(c, p, 0);
    match first(c, p) {
        Some(j) => {
            assert(p(c[j]));
            if 0 <= i < c.len() && j > i {
                assert(!p(c[i]));
            }
        },
        None => {
            if 0 <= i < c.len() {
                assert(!p(c[i]));
            }
        },
    }
}

/// Of the nodes of one id the first is kept and no other, and those without an id are left out.
pub proof fn law_the_first_of_each_id_is_kept(c: Seq<Node>, key: Seq<char>, n: int)
    requires
        0 <= n < c.len(),
    ensures
        c[n].attr_text(key) is None ==> firsts(c, key, n + 1) == firsts(c, key, n),
        c[n].attr_text(key) is Some && (exists|k: int|
            0 <= k < n && (#[trigger] c[k]).attr_text(key) == c[n].attr_text(key)) ==> firsts(
            c,
            key,
            n + 1,
        ) == firsts(c, key, n),
        c[n].attr_text(key) is Some && (forall|k: int|
            0 <= k < n ==> (#[trigger] c[k]).attr_text(key) != c[n].attr_text(key)) ==> firsts(
            c,
            key,
            n + 1,
        ) == firsts(c, key, n).push(c[n]),
{
    if let Some(id) = c[n].attr_text(key) {
        lemma_ids_kept(c, key, n, id);
    }
}

proof fn lemma_ids_kept(c: Seq<Node>, key: Seq<char>, n: int, id: Seq<char>)
    requires
        0 <= n <= c.len(),
    ensures
        (find_by(firsts(c, key, n), key, id) is Some) == (exists|k: int|
            0 <= k < n && (#[trigger] c[k]).attr_text(key) == Some(id)),
    decreases n,
{
    let p = |x: Node| x.attr_text(key) == Some(id);
    let all = firsts(c, key, n);
    lemma_first_from(all, p, 0);
    if n > 0 {
        lemma_ids_kept(c, key, n - 1, id);
        let before = firsts(c, key, n - 1);
        lemma_first_from(before, p, 0);
        match c[n - 1].attr_text(key) {
            Some(own) => {
                if own == id {
                    if find_by(before, key, own) is None {
                        assert(all.last() == c[n - 1]);
                        assert(p(all[all.len() - 1]));
                    }
                    assert(c[n - 1].attr_text(key) == Some(id));
                } else {
                    if find_by(before, key, own) is None {
                        assert(all == before.push(c[n - 1]));
                        match first(before, p) {
                            Some(j) => {
                                assert(all[j] == before[j]);
                                assert(p(all[j]));
                            },
                            None => {
                                match first(all, p) {
                                    Some(j) => {
                                        assert(p(all[j]));
                                        if j < before.len() {
                                            assert(p(before[j]));
                                        }
                                    },
                                    None => {},
                                }
                            },
                        }
                    }
                }
            },
            None => {},
        }
    }
}

/// Each text is kept once, where it first stands.
pub proof fn law_each_text_is_kept_once(s: Seq<Seq<char>>, n: int)
    requires
        0 <= n < s.len(),
    ensures
        (exists|k: int| 0 <= k < n && #[trigger] s[k] == s[n]) ==> once_each(s, n + 1) == once_each(
            s,
            n,
        ),
        (forall|k: int| 0 <= k < n ==> #[trigger] s[k] != s[n]) ==> once_each(s, n + 1)
            == once_each(s, n).push(s[n]),
{
    lemma_texts_kept(s, n, s[n]);
}

proof fn lemma_texts_kept(s: Seq<Seq<char>>, n: int, one: Seq<char>)
    requires
        0 <= n <= s.len(),
    ensures
        once_each(s, n).contains(one) == (exists|k: int| 0 <= k < n && #[trigger] s[k] == one),
    decreases n,
{
    if n > 0 {
        lemma_texts_kept(s, n - 1, one);
        let before = once_each(s, n - 1);
        let all = once_each(s, n);
        if !before.contains(s[n - 1]) {
            assert(all == before.push(s[n - 1]));
            assert(all[before.len() as int] == s[n - 1]);
            if before.contains(one) {
                let j = choose|j: int| 0 <= j < before.len() && before[j] == one;
                assert(all[j] == one);
            }
            if all.contains(one) {
                let j = choose|j: int| 0 <= j < all.len() && all[j] == one;
                if j < before.len() {
                    assert(before[j] == one);
                }
            }
        } else if s[n - 1] == one {
            assert(s[n - 1] == one);
        }
    }
}

/// The elements below a node are taken in the order of the document, without runs of text and
/// what may hang below those.
pub proof fn law_elements_are_taken_in_order(c: Seq<Node>, n: Node)
    ensures
        elements_in(Seq::empty()).len() == 0,
        n.name@ == "#text"@ ==> elements_in(c.push(n)) == elements_in(c),
        n.name@ != "#text"@ ==> elements_in(c.push(n)) == elements_in(c) + seq![n] + elements_in(
            n.children@,
        ),
{
    assert(c.push(n).drop_last() =~= c);
    assert(elements_in(c) + Seq::<Node>::empty() =~= elements_in(c));
    assert(elements_in(c) + (seq![n] + elements_in(n.children@)) =~= elements_in(c) + seq![n]
        + elements_in(n.children@));
}

/// What is asked of each node is asked one by one: the texts one after another, and of those that
/// have an attribute what it says.
pub proof fn law_nodes_are_asked_one_by_one(c: Seq<Node>, n: Node, want: Seq<char>)
    ensures
        joined_text(Seq::empty()).len() == 0,
        joined_text(c.push(n)) == joined_text(c) + n.full_text(),
        n.attr_text(want) is None ==> some_say(c.push(n), want, c.len() + 1int) == some_say(
            c,
            want,
            c.len() as int,
        ),
        n.attr_text(want) is Some ==> some_say(c.push(n), want, c.len() + 1int) == some_say(
            c,
            want,
            c.len() as int,
        ).push(n.attr_text(want)->0),
        each_says(c.push(n), want) == each_says(c, want).push(n.attr_text(want)),
        each_text(c.push(n)) == each_text(c).push(n.full_text()),
        local_names(c.push(n)) == local_names(c).push(n.local_name()),
{
    assert(c.push(n).drop_last() =~= c);
    lemma_some_part(c, c.push(n), want, c.len() as int);
    assert(each_says(c.push(n), want) =~= each_says(c, want).push(n.attr_text(want)));
    assert(each_text(c.push(n)) =~= each_text(c).push(n.full_text()));
    assert(local_names(c.push(n)) =~= local_names(c).push(n.local_name()));
}

proof fn lemma_some_part(c: Seq<Node>, d: Seq<Node>, want: Seq<char>, n: int)
    requires
        n <= c.len(),
        n <= d.len(),
        forall|i: int| 0 <= i < n ==> c[i] == d[i],
    ensures
        some_say(c, want, n) == some_say(d, want, n),
    decreases n,
{
    if n > 0 {
        lemma_some_part(c, d, want, n - 1);
    }
}

/// Of the nodes of one name the last counts: one more node takes the place of the one of its
/// name, or stands behind the others where there is none.
pub proof fn law_the_last_of_each_name_counts(c: Seq<Node>, n: Node)
    ensures
        latest(Seq::empty()).len() == 0,
        latest(c.push(n)).contains(n),
        (forall|k: int| 0 <= k < c.len() ==> (#[trigger] c[k]).local_name() != n.local_name())
            ==> latest(c.push(n)) == latest(c).push(n),
        (exists|k: int| 0 <= k < c.len() && (#[trigger] c[k]).local_name() == n.local_name())
            ==> latest(c.push(n)).len() == latest(c).len(),
        forall|k: int|
            0 <= k < latest(c).len() && (#[trigger] latest(c)[k]).local_name() != n.local_name()
                ==> latest(c.push(n))[k] == latest(c)[k],
{
    assert(c.push(n).drop_last() =~= c);
    lemma_latest_names(c, n.local_name());
    let l = latest(c);
    let p = has_local(n.local_name());
    lemma_first_from(l, p, 0);
    match first(l, p) {
        Some(i) => {
            assert(p(l[i]));
            assert(latest(c.push(n))[i] == n);
        },
        None => {
            assert(latest(c.push(n))[l.len() as int] == n);
        },
    }
}

proof fn lemma_latest_names(c: Seq<Node>, name: Seq<char>)
    ensures
        (first(latest(c), has_local(name)) is Some) == (exists|k: int|
            0 <= k < c.len() && (#[trigger] c[k]).local_name() == name),
    decreases c.len(),
{
    let p = has_local(name);
    let all = latest(c);
    lemma_first_from(all, p, 0);
    if c.len() > 0 {
        let d = c.drop_last();
        let one = c.last();
        lemma_latest_names(d, name);
        let before = latest(d);
        lemma_first_from(before, p, 0);
        lemma_first_from(before, has_local(one.local_name()), 0);
        assert forall|k: int| 0 <= k < d.len() implies #[trigger] c[k] == d[k] by {}
        match first(before, has_local(one.local_name())) {
            Some(i) => {
                assert(has_local(one.local_name())(before[i]));
                assert(all == before.update(i, one));
                assert(all[i].local_name() == before[i].local_name());
                assert forall|k: int| 0 <= k < all.len() implies #[trigger] p(all[k]) == p(
                    before[k],
                ) by {}
            },
            None => {
                assert(all == before.push(one));
                assert(all[before.len() as int] == one);
                assert forall|k: int| 0 <= k < before.len() implies #[trigger] all[k]
                    == before[k] by {}
            },
        }
        if exists|k: int| 0 <= k < c.len() && (#[trigger] c[k]).local_name() == name {
            let k = choose|k: int| 0 <= k < c.len() && (#[trigger] c[k]).local_name() == name;
            if k < d.len() {
                assert(d[k].local_name() == name);
            }
        }
        if exists|k: int| 0 <= k < d.len() && (#[trigger] d[k]).local_name() == name {
            let k = choose|k: int| 0 <= k < d.len() && (#[trigger] d[k]).local_name() == name;
            assert(c[k].local_name() == name);
        }
        assert(c[c.len() - 1] == one);
        if first(all, p) is Some {
            let j = first(all, p)->0;
            assert(p(all[j]));
            if j < before.len() {
                if all[j] == before[j] {
                    assert(p(before[j]));
                } else {
                    assert(all[j] == one);
                }
            }
        } else {
            if first(before, p) is Some {
                let j = first(before, p)->0;
                assert(p(before[j]));
                assert(!p(all[j]));
            }
            if one.local_name() == name {
                match first(before, has_local(one.local_name())) {
                    Some(i) => {
                        assert(!p(all[i]));
                    },
                    None => {
                        assert(!p(all[before.len() as int]));
                    },
                }
            }
        }
    }
}

} // verus!
