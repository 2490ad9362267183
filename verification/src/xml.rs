//! Parsed XML as a tree of elements and texts.
//!
//! Names are compared by their local part, without the prefix that a file happens to declare.
//! A run of text is a node called `#text`.

use crate::lists::{first, first_from, lemma_filter_take};
use crate::text::same;
use vstd::prelude::*;

verus! {

/// An element, or a run of text.
pub struct Node {
    /// The name as written, prefix and all; `#text` for a run of text.
    pub name: String,
    /// The attributes in the order of the file, names as written.
    pub attrs: Vec<(String, String)>,
    pub children: Vec<Node>,
    /// The text of a run of text.
    pub direct: String,
}

/// Where the local part of a name begins: behind the last colon.
pub open spec fn local_start(name: Seq<char>, n: int) -> int
    decreases n,
{
    if n <= 0 {
        0
    } else if name[n - 1] == ':' {
        n
    } else {
        local_start(name, n - 1)
    }
}

/// The local part of a name.
pub open spec fn local_part(name: Seq<char>) -> Seq<char> {
    name.skip(local_start(name, name.len() as int))
}

/// The local part of a name.
pub fn local_of(name: &str) -> (r: &str)
    ensures
        r@ == local_part(name@),
{
    let size: usize = name.unicode_len();
    let mut n: usize = size;
    while n > 0 && name.get_char(n - 1) != ':'
        invariant
            n <= size,
            size == name@.len(),
            local_start(name@, size as int) == local_start(name@, n as int),
        decreases n,
    {
        n -= 1;
    }
    let r: &str = name.substring_char(n, size);
    assert(r@ =~= local_part(name@));
    r
}

/// The nodes behind a list of references.
pub open spec fn nodes(v: Seq<&Node>) -> Seq<Node> {
    Seq::new(v.len(), |i: int| *v[i])
}

pub broadcast proof fn lemma_nodes_push<'a>(v: Seq<&'a Node>, n: &'a Node)
    ensures
        #[trigger] nodes(v.push(n)) == nodes(v).push(*n),
{
    assert(nodes(v.push(n)) =~= nodes(v).push(*n));
}

/// The nodes called `want` in a list of nodes and below them, in document order.
pub open spec fn within(c: Seq<Node>, want: Seq<char>) -> Seq<Node>
    decreases c,
{
    if c.len() == 0 {
        Seq::empty()
    } else {
        let own = if c.last().local_name() == want {
            seq![c.last()]
        } else {
            Seq::empty()
        };
        within(c.drop_last(), want) + own + within(c.last().children@, want)
    }
}

/// All text in a list of nodes and below them, in document order.
pub open spec fn text_within(c: Seq<Node>) -> Seq<char>
    decreases c,
{
    if c.len() == 0 {
        Seq::empty()
    } else {
        let own = if c.last().is_text() {
            c.last().direct@
        } else {
            text_within(c.last().children@)
        };
        text_within(c.drop_last()) + own
    }
}

impl Node {
    pub open spec fn local_name(self) -> Seq<char> {
        local_part(self.name@)
    }

    /// The name without its prefix.
    pub fn local(&self) -> (r: &str)
        ensures
            r@ == self.local_name(),
    {
        local_of(self.name.as_str())
    }

    /// Whether the name without its prefix is `want`.
    pub fn is(&self, want: &str) -> (r: bool)
        ensures
            r == (self.local_name() == want@),
    {
        same(self.local(), want)
    }

    /// The node is a run of text.
    pub open spec fn is_text(self) -> bool {
        self.local_name() == "#text"@
    }

    /// Where the attribute with the local name `want` stands.
    pub open spec fn attr_place(self, want: Seq<char>) -> Option<int> {
        first(self.attrs@, |a: (String, String)| local_part(a.0@) == want)
    }

    /// What the attribute with the local name `want` says.
    pub open spec fn attr_text(self, want: Seq<char>) -> Option<Seq<char>> {
        match self.attr_place(want) {
            Some(i) => Some(self.attrs@[i].1@),
            None => None,
        }
    }

    /// The first attribute with that local name.
    pub fn attr_local(&self, want: &str) -> (r: Option<&str>)
        ensures
            match r {
                Some(t) => self.attr_text(want@) == Some(t@),
                None => self.attr_text(want@) is None,
            },
    {
        let ghost p = |a: (String, String)| local_part(a.0@) == want@;
        let mut i: usize = 0;
        while i < self.attrs.len()
            invariant
                i <= self.attrs@.len(),
                p == (|a: (String, String)| local_part(a.0@) == want@),
                self.attr_place(want@) == first_from(self.attrs@, p, i as int),
            decreases self.attrs@.len() - i,
        {
            if same(local_of(self.attrs[i].0.as_str()), want) {
                return Some(self.attrs[i].1.as_str());
            }
            i += 1;
        }
        None
    }

    /// What the attribute written `want`, prefix and all, says.
    pub open spec fn attr_exact(self, want: Seq<char>) -> Option<Seq<char>> {
        match first(self.attrs@, |a: (String, String)| a.0@ == want) {
            Some(i) => Some(self.attrs@[i].1@),
            None => None,
        }
    }

    /// The first attribute written with that name, prefix and all.
    pub fn attr(&self, want: &str) -> (r: Option<&str>)
        ensures
            match r {
                Some(t) => self.attr_exact(want@) == Some(t@),
                None => self.attr_exact(want@) is None,
            },
    {
        let ghost p = |a: (String, String)| a.0@ == want@;
        let mut i: usize = 0;
        while i < self.attrs.len()
            invariant
                i <= self.attrs@.len(),
                p == (|a: (String, String)| a.0@ == want@),
                first(self.attrs@, p) == first_from(self.attrs@, p, i as int),
            decreases self.attrs@.len() - i,
        {
            if same(self.attrs[i].0.as_str(), want) {
                return Some(self.attrs[i].1.as_str());
            }
            i += 1;
        }
        None
    }

    /// The first child called `want`.
    pub open spec fn child_of(self, want: Seq<char>) -> Option<Node> {
        match first(self.children@, |n: Node| n.local_name() == want) {
            Some(i) => Some(self.children@[i]),
            None => None,
        }
    }

    /// The first child of that name.
    pub fn child(&self, want: &str) -> (r: Option<&Node>)
        ensures
            match r {
                Some(n) => self.child_of(want@) == Some(*n),
                None => self.child_of(want@) is None,
            },
    {
        let ghost p = |n: Node| n.local_name() == want@;
        let mut i: usize = 0;
        while i < self.children.len()
            invariant
                i <= self.children@.len(),
                p == (|n: Node| n.local_name() == want@),
                first(self.children@, p) == first_from(self.children@, p, i as int),
            decreases self.children@.len() - i,
        {
            if self.children[i].is(want) {
                return Some(&self.children[i]);
            }
            i += 1;
        }
        None
    }

    /// The children called `want`.
    pub open spec fn all_of(self, want: Seq<char>) -> Seq<Node> {
        self.children@.filter(|n: Node| n.local_name() == want)
    }

    /// The children of that name.
    pub fn all(&self, want: &str) -> (r: Vec<&Node>)
        ensures
            nodes(r@) == self.all_of(want@),
    {
        let ghost p = |n: Node| n.local_name() == want@;
        let mut out: Vec<&Node> = Vec::new();
        let mut i: usize = 0;
        assert(nodes(out@) =~= self.children@.take(0).filter(p)) by {
            reveal(Seq::filter);
        }
        while i < self.children.len()
            invariant
                i <= self.children@.len(),
                p == (|n: Node| n.local_name() == want@),
                nodes(out@) == self.children@.take(i as int).filter(p),
            decreases self.children@.len() - i,
        {
            let ghost before = nodes(out@);
            proof {
                lemma_filter_take(self.children@, p, i as int);
            }
            if self.children[i].is(want) {
                out.push(&self.children[i]);
                assert(nodes(out@) =~= before.push(self.children@[i as int]));
            }
            i += 1;
        }
        assert(self.children@.take(i as int) =~= self.children@);
        out
    }

    /// The nodes called `want` below this one, in document order.
    pub open spec fn below(self, want: Seq<char>) -> Seq<Node> {
        within(self.children@, want)
    }

    /// All nodes of that name below this one, in document order.
    pub fn descendants<'a>(&'a self, want: &str) -> (r: Vec<&'a Node>)
        ensures
            nodes(r@) == self.below(want@),
    {
        let mut out: Vec<&'a Node> = Vec::new();
        self.push_below(want, &mut out);
        assert(nodes(out@) =~= self.below(want@));
        out
    }

    fn push_below<'a>(&'a self, want: &str, out: &mut Vec<&'a Node>)
        ensures
            nodes(final(out)@) == nodes(old(out)@) + self.below(want@),
        decreases self,
    {
        let mut i: usize = 0;
        assert(nodes(out@) =~= nodes(old(out)@) + within(self.children@.take(0), want@));
        while i < self.children.len()
            invariant
                i <= self.children@.len(),
                nodes(out@) == nodes(old(out)@) + within(self.children@.take(i as int), want@),
            decreases self.children@.len() - i,
        {
            let ghost before = nodes(out@);
            let ghost done = self.children@.take(i + 1);
            assert(done.drop_last() =~= self.children@.take(i as int));
            let one: &'a Node = &self.children[i];
            if one.is(want) {
                out.push(one);
                assert(nodes(out@) =~= before.push(*one));
            }
            one.push_below(want, out);
            assert(nodes(out@) =~= nodes(old(out)@) + within(done, want@));
            i += 1;
        }
        assert(self.children@.take(i as int) =~= self.children@);
    }

    /// All text in the node: its own where it is a run of text, or else that of its children.
    pub open spec fn full_text(self) -> Seq<char> {
        if self.is_text() {
            self.direct@
        } else {
            text_within(self.children@)
        }
    }

    /// All text in the node, in document order.
    pub fn text(&self) -> (r: String)
        ensures
            r@ == self.full_text(),
        decreases self,
    {
        if self.is("#text") {
            return self.direct.clone();
        }
        let mut out: String = String::new();
        let mut i: usize = 0;
        assert(out@ =~= text_within(self.children@.take(0)));
        while i < self.children.len()
            invariant
                i <= self.children@.len(),
                out@ == text_within(self.children@.take(i as int)),
            decreases self.children@.len() - i,
        {
            let ghost done = self.children@.take(i + 1);
            assert(done.drop_last() =~= self.children@.take(i as int));
            let part: String = self.children[i].text();
            out.append(part.as_str());
            i += 1;
        }
        assert(self.children@.take(i as int) =~= self.children@);
        out
    }
}

/// The prefix of a name ends at the last colon, and a name without one is its own local part.
pub proof fn law_the_prefix_comes_off(prefix: Seq<char>, local: Seq<char>)
    requires
        forall|i: int| 0 <= i < local.len() ==> #[trigger] local[i] != ':',
    ensures
        local_part(local) == local,
        local_part(prefix.push(':') + local) == local,
{
    let n = local.len() as int;
    lemma_local_start(local, 0, n);
    assert(local.skip(0) =~= local);
    let whole = prefix.push(':') + local;
    let at = prefix.len() + 1int;
    assert forall|i: int| at <= i < whole.len() implies #[trigger] whole[i] != ':' by {
        assert(whole[i] == local[i - at]);
    }
    lemma_local_start(whole, at, whole.len() as int);
    assert(whole[at - 1] == ':');
    assert(whole.skip(at) =~= local);
}

proof fn lemma_local_start(name: Seq<char>, at: int, n: int)
    requires
        0 <= at <= n <= name.len(),
        forall|i: int| at <= i < n ==> #[trigger] name[i] != ':',
        at == 0 || name[at - 1] == ':',
    ensures
        local_start(name, n) == at,
    decreases n,
{
    if n > at {
        lemma_local_start(name, at, n - 1);
    }
}

/// Of two attributes with one local name the first counts; where none has it, nothing is said.
/// The same holds of names with their prefixes.
pub proof fn law_the_first_attribute_counts(n: Node, i: int, want: Seq<char>)
    requires
        0 <= i < n.attrs@.len(),
    ensures
        local_part(n.attrs@[i].0@) == want && (forall|k: int|
            0 <= k < i ==> local_part((#[trigger] n.attrs@[k]).0@) != want) ==> n.attr_text(want)
            == Some(n.attrs@[i].1@),
        n.attrs@[i].0@ == want && (forall|k: int|
            0 <= k < i ==> (#[trigger] n.attrs@[k]).0@ != want) ==> n.attr_exact(want) == Some(
            n.attrs@[i].1@,
        ),
        (forall|k: int|
            0 <= k < n.attrs@.len() ==> local_part((#[trigger] n.attrs@[k]).0@) != want)
            ==> n.attr_text(want) is None,
        (forall|k: int| 0 <= k < n.attrs@.len() ==> (#[trigger] n.attrs@[k]).0@ != want)
            ==> n.attr_exact(want) is None,
{
    let p = |a: (String, String)| local_part(a.0@) == want;
    crate::lists::lemma_first_from(n.attrs@, p, 0);
    match first(n.attrs@, p) {
        Some(j) => {
            assert(p(n.attrs@[j]));
            if j > i {
                assert(!p(n.attrs@[i]));
            }
        },
        None => {
            assert(!p(n.attrs@[i]));
        },
    }
    assert forall|q: spec_fn((String, String)) -> bool|
        (forall|a: (String, String)| #[trigger] q(a) == (a.0@ == want)) implies {
        &&& n.attrs@[i].0@ == want && (forall|k: int|
            0 <= k < i ==> (#[trigger] n.attrs@[k]).0@ != want) ==> #[trigger] first(n.attrs@, q)
            == Some(i)
        &&& (forall|k: int| 0 <= k < n.attrs@.len() ==> (#[trigger] n.attrs@[k]).0@ != want)
            ==> first(n.attrs@, q) is None
    } by {
        crate::lists::lemma_first_from(n.attrs@, q, 0);
        match first(n.attrs@, q) {
            Some(j) => {
                assert(q(n.attrs@[j]));
                if j > i {
                    assert(!q(n.attrs@[i]));
                }
            },
            None => {
                assert(!q(n.attrs@[i]));
            },
        }
    }
}

/// Of two children with one name the first is the child of that name, and all of them together
/// are its children of that name in their order.
pub proof fn law_the_first_child_counts(n: Node, i: int, want: Seq<char>)
    requires
        0 <= i < n.children@.len(),
    ensures
        n.children@[i].local_name() == want && (forall|k: int|
            0 <= k < i ==> (#[trigger] n.children@[k]).local_name() != want) ==> n.child_of(want)
            == Some(n.children@[i]),
        (forall|k: int|
            0 <= k < n.children@.len() ==> (#[trigger] n.children@[k]).local_name() != want)
            ==> n.child_of(want) is None,
        n.all_of(want) == n.children@.filter(|x: Node| x.local_name() == want),
        n.children@[i].local_name() == want ==> n.all_of(want).contains(n.children@[i]),
{
    let p = |x: Node| x.local_name() == want;
    crate::lists::lemma_first_from(n.children@, p, 0);
    match first(n.children@, p) {
        Some(j) => {
            assert(p(n.children@[j]));
            if j > i {
                assert(!p(n.children@[i]));
            }
        },
        None => {
            assert(!p(n.children@[i]));
        },
    }
    if n.children@[i].local_name() == want {
        assert(p(n.children@[i]));
        n.children@.lemma_filter_contains(p, i);
    }
}

/// What stands below a node is found in the order of the document: a node before what is below
/// it, and what is below it before the next one.
pub proof fn law_what_stands_below(c: Seq<Node>, n: Node, want: Seq<char>)
    ensures
        within(Seq::empty(), want).len() == 0,
        n.local_name() == want ==> within(c.push(n), want) == within(c, want) + seq![n] + n.below(
            want,
        ),
        n.local_name() != want ==> within(c.push(n), want) == within(c, want) + n.below(want),
        n.below(want) == within(n.children@, want),
{
    assert(c.push(n).drop_last() =~= c);
    assert(within(c, want) + Seq::<Node>::empty() =~= within(c, want));
}

/// The text of a node is that of its runs of text, one after another.
pub proof fn law_text_is_read_in_order(c: Seq<Node>, n: Node)
    ensures
        n.local_name() == "#text"@ ==> n.full_text() == n.direct@,
        n.local_name() != "#text"@ ==> n.full_text() == text_within(n.children@),
        text_within(Seq::empty()).len() == 0,
        text_within(c.push(n)) == text_within(c) + n.full_text(),
{
    assert(c.push(n).drop_last() =~= c);
}

} // verus!
