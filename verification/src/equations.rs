//! The equations of a document.
//!
//! A WordprocessingML document writes them into its paragraphs. An OpenDocument text puts each
//! into an embedded object, and the equation stands in another part. Only paragraphs of the body
//! itself are asked, not those in tables or notes.

use crate::document::{characters_in, count_texts};
use crate::lists::{
    at_most, count_those, cut, each, first, first_from, joined, lemma_tally_same, tally,
};
use crate::odf::{attr_of, attr_said, find_text_element, text_element};
use crate::text::{same, texts};
use crate::words::{begins, starts_with};
use crate::written::{
    ask, copied, count_nodes, elements_in, find_below, first_below, join_text, joined_text,
    kids_of, local_names, names_of, node_in, once_each, owned, pick_nodes, pick_once, said_by,
    subtree, text_in,
};
use crate::xml::{nodes, Node};
use vstd::prelude::*;

verus! {

broadcast use {crate::text::lemma_texts_push, crate::xml::lemma_nodes_push};

/// The name space of equations.
pub open spec fn math_space() -> Seq<char> {
    "http://schemas.openxmlformats.org/officeDocument/2006/math"@
}

/// The prefix that an element declares for equations.
pub open spec fn prefix_at(n: Node) -> Option<Seq<char>> {
    match first(
        n.attrs@,
        |a: (String, String)| a.1@ == math_space() && begins(a.0@, "xmlns:"@),
    ) {
        Some(i) => Some(n.attrs@[i].0@.skip(6)),
        None => None,
    }
}

/// The prefix that the document declares for equations; `m` where it declares none.
pub open spec fn prefix_of(root: Node) -> Seq<char> {
    let all = root.below("document"@);
    match first(all, |n: Node| prefix_at(n) is Some) {
        Some(i) => prefix_at(all[i]).unwrap(),
        None => "m"@,
    }
}

fn find_prefix(n: &Node) -> (r: Option<String>)
    ensures
        text_in(r) == prefix_at(*n),
{
    let ghost p = |a: (String, String)| a.1@ == math_space() && begins(a.0@, "xmlns:"@);
    let mut i: usize = 0;
    while i < n.attrs.len()
        invariant
            i <= n.attrs@.len(),
            p == (|a: (String, String)| a.1@ == math_space() && begins(a.0@, "xmlns:"@)),
            first(n.attrs@, p) == first_from(n.attrs@, p, i as int),
        decreases n.attrs@.len() - i,
    {
        let key: &str = n.attrs[i].0.as_str();
        if same(
            n.attrs[i].1.as_str(),
            "http://schemas.openxmlformats.org/officeDocument/2006/math",
        ) && starts_with(key, "xmlns:") {
            proof {
                reveal_strlit("xmlns:");
                assert("xmlns:"@.len() == 6);
            }
            let size: usize = key.unicode_len();
            let tail: &str = key.substring_char(6, size);
            assert(tail@ =~= key@.skip(6));
            return Some(tail.to_owned());
        }
        i += 1;
    }
    None
}

/// The prefix that the document declares for equations.
fn math_prefix(root: &Node) -> (r: String)
    ensures
        r@ == prefix_of(*root),
{
    let all: Vec<&Node> = root.descendants("document");
    let ghost s = nodes(all@);
    let ghost p = |n: Node| prefix_at(n) is Some;
    let mut i: usize = 0;
    while i < all.len()
        invariant
            i <= all@.len(),
            s == nodes(all@),
            s == root.below("document"@),
            p == (|n: Node| prefix_at(n) is Some),
            first(s, p) == first_from(s, p, i as int),
        decreases all@.len() - i,
    {
        assert(s[i as int] == *all@[i as int]);
        if let Some(t) = find_prefix(all[i]) {
            return t;
        }
        i += 1;
    }
    "m".to_owned()
}

/// An equation and where it stands: in the line of text, or on a line of its own.
pub struct Formula {
    pub node: Node,
    pub paragraph: int,
    pub display: bool,
    pub align: Option<Seq<char>>,
}

/// How a group of equations says it is aligned.
pub open spec fn align_of(holder: Node) -> Option<Seq<char>> {
    match first(
        holder.children@,
        |k: Node| k.local_name() == "oMathParaPr"@ && k.child_of("jc"@) is Some,
    ) {
        Some(i) => said_by(holder.children@[i].child_of("jc"@), "val"@),
        None => None,
    }
}

fn jc_of(holder: &Node) -> (r: Option<String>)
    ensures
        text_in(r) == align_of(*holder),
{
    let ghost p = |k: Node| k.local_name() == "oMathParaPr"@ && k.child_of("jc"@) is Some;
    let mut i: usize = 0;
    while i < holder.children.len()
        invariant
            i <= holder.children@.len(),
            p == (|k: Node| k.local_name() == "oMathParaPr"@ && k.child_of("jc"@) is Some),
            first(holder.children@, p) == first_from(holder.children@, p, i as int),
        decreases holder.children@.len() - i,
    {
        if holder.children[i].is("oMathParaPr") {
            let jc: Option<&Node> = holder.children[i].child("jc");
            if jc.is_some() {
                return ask(jc, "val");
            }
        }
        i += 1;
    }
    None
}

/// The equations of one group.
pub open spec fn grouped(holder: Node, paragraph: int) -> Seq<Formula> {
    let inner = holder.all_of("oMath"@);
    Seq::new(
        inner.len(),
        |k: int| Formula { node: inner[k], paragraph, display: true, align: align_of(holder) },
    )
}

/// The equations among the first `n` children of a paragraph.
pub open spec fn formulas_upto(c: Seq<Node>, paragraph: int, n: int) -> Seq<Formula>
    decreases n,
{
    if n <= 0 {
        Seq::empty()
    } else {
        let own = if c[n - 1].local_name() == "oMath"@ {
            seq![Formula { node: c[n - 1], paragraph, display: false, align: None }]
        } else if c[n - 1].local_name() == "oMathPara"@ {
            grouped(c[n - 1], paragraph)
        } else {
            Seq::empty()
        };
        formulas_upto(c, paragraph, n - 1) + own
    }
}

/// The equations of each paragraph.
pub open spec fn formulas_fn(ps: Seq<Node>) -> spec_fn(int) -> Seq<Formula> {
    |i: int| formulas_upto(ps[i].children@, i, ps[i].children@.len() as int)
}

/// The equations of a list of paragraphs.
pub open spec fn formulas(ps: Seq<Node>) -> Seq<Formula> {
    joined(formulas_fn(ps), ps.len() as int)
}

/// An equation and where it stands.
struct Found<'a> {
    node: &'a Node,
    paragraph: usize,
    display: bool,
    align: Option<String>,
}

impl Found<'_> {
    spec fn formula(self) -> Formula {
        Formula {
            node: *self.node,
            paragraph: self.paragraph as int,
            display: self.display,
            align: text_in(self.align),
        }
    }
}

spec fn found(v: Seq<Found>) -> Seq<Formula> {
    Seq::new(v.len(), |i: int| v[i].formula())
}

fn add_group<'a>(holder: &'a Node, paragraph: usize, out: &mut Vec<Found<'a>>)
    ensures
        found(final(out)@) == found(old(out)@) + grouped(*holder, paragraph as int),
{
    let inner: Vec<&'a Node> = holder.all("oMath");
    let align: Option<String> = jc_of(holder);
    let ghost all = grouped(*holder, paragraph as int);
    let ghost start = found(out@);
    let mut i: usize = 0;
    assert(nodes(inner@).len() == inner@.len());
    assert(start + all.take(0) =~= start);
    while i < inner.len()
        invariant
            i <= inner@.len(),
            nodes(inner@) == holder.all_of("oMath"@),
            inner@.len() == all.len(),
            all == grouped(*holder, paragraph as int),
            text_in(align) == align_of(*holder),
            found(out@) == start + all.take(i as int),
        decreases inner@.len() - i,
    {
        let ghost had = found(out@);
        assert(nodes(inner@)[i as int] == *inner@[i as int]);
        out.push(Found { node: inner[i], paragraph, display: true, align: copied(&align) });
        assert(found(out@) =~= had.push(all[i as int]));
        i += 1;
        assert(found(out@) =~= start + all.take(i as int));
    }
    assert(all.take(i as int) =~= all);
}

fn add_formulas<'a>(par: &'a Node, paragraph: usize, out: &mut Vec<Found<'a>>)
    ensures
        found(final(out)@) == found(old(out)@) + formulas_upto(
            par.children@,
            paragraph as int,
            par.children@.len() as int,
        ),
{
    let ghost c = par.children@;
    let ghost start = found(out@);
    let mut i: usize = 0;
    assert(start + formulas_upto(c, paragraph as int, 0) =~= start);
    while i < par.children.len()
        invariant
            i <= par.children@.len(),
            c == par.children@,
            found(out@) == start + formulas_upto(c, paragraph as int, i as int),
        decreases par.children@.len() - i,
    {
        let one: &'a Node = &par.children[i];
        let ghost had = found(out@);
        if one.is("oMath") {
            out.push(Found { node: one, paragraph, display: false, align: None });
            assert(found(out@) =~= had + seq![
                Formula { node: *one, paragraph: paragraph as int, display: false, align: None },
            ]);
        } else if one.is("oMathPara") {
            add_group(one, paragraph, out);
        }
        i += 1;
        assert(found(out@) =~= start + formulas_upto(c, paragraph as int, i as int));
    }
}

/// The elements of an equation, with the prefix for equations.
pub open spec fn pieces(n: Node, head: Seq<char>) -> Seq<Node> {
    elements_in(n.children@).filter(|k: Node| begins(k.name@, head))
}

/// Runs and texts are shells and characters, and an equation within is told with its pieces.
pub open spec fn is_structure(k: Node) -> bool {
    k.local_name() != "r"@ && k.local_name() != "t"@ && k.local_name() != "oMath"@
}

/// The text of an equation.
pub open spec fn text_of_pieces(c: Seq<Node>) -> Seq<char> {
    joined_text(c.filter(|k: Node| k.local_name() == "t"@))
}

/// How many of the nodes have that name.
pub open spec fn called(c: Seq<Node>, name: Seq<char>) -> nat {
    c.filter(|k: Node| k.local_name() == name).len()
}

fn pick_called<'a>(v: &Vec<&'a Node>, name: &str) -> (r: Vec<&'a Node>)
    ensures
        nodes(r@) == nodes(v@).filter(|k: Node| k.local_name() == name@),
        r@.len() == called(nodes(v@), name@),
{
    let r: Vec<&'a Node> = pick_nodes(
        v,
        |k: &Node| -> (b: bool)
            ensures
                b == (k.local_name() == name@)
            { k.is(name) },
        Ghost(|k: Node| k.local_name() == name@),
    );
    assert(nodes(r@).len() == r@.len());
    r
}

fn pick_pieces<'a>(n: &'a Node, head: &str) -> (r: Vec<&'a Node>)
    ensures
        nodes(r@) == pieces(*n, head@),
{
    let mut kids: Vec<&'a Node> = Vec::new();
    subtree(n, &mut kids);
    assert(nodes(kids@) =~= elements_in(n.children@));
    pick_nodes(
        &kids,
        |k: &Node| -> (b: bool)
            ensures
                b == begins(k.name@, head@)
            { starts_with(k.name.as_str(), head) },
        Ghost(|k: Node| begins(k.name@, head@)),
    )
}

fn pick_structures<'a>(v: &Vec<&'a Node>) -> (r: Vec<&'a Node>)
    ensures
        nodes(r@) == nodes(v@).filter(|k: Node| is_structure(k)),
{
    pick_nodes(
        v,
        |k: &Node| -> (b: bool)
            ensures
                b == is_structure(*k)
            { !k.is("r") && !k.is("t") && !k.is("oMath") },
        Ghost(|k: Node| is_structure(k)),
    )
}

/// One equation.
#[derive(Debug, Clone)]
pub struct FormulaRow {
    pub index: usize,
    pub paragraph: usize,
    pub display: bool,
    pub align_written: Option<String>,
    pub structures: Vec<String>,
    pub runs: usize,
    pub nor_runs: usize,
    pub lit_runs: usize,
    pub text: String,
}

impl FormulaRow {
    pub open spec fn describes(self, f: Formula, i: int, head: Seq<char>) -> bool {
        let p = pieces(f.node, head);
        &&& self.index == i
        &&& self.paragraph == f.paragraph
        &&& self.display == f.display
        &&& text_in(self.align_written) == f.align
        &&& texts(self.structures@) == local_names(p.filter(|k: Node| is_structure(k)))
        &&& self.runs == called(p, "r"@)
        &&& self.nor_runs == called(p, "nor"@)
        &&& self.lit_runs == called(p, "lit"@)
        &&& self.text@ == text_of_pieces(p)
    }
}

fn read_formula(f: &Found, i: usize, head: &str) -> (r: FormulaRow)
    ensures
        r.describes(f.formula(), i as int, head@),
{
    let p: Vec<&Node> = pick_pieces(f.node, head);
    let structures: Vec<String> = names_of(&pick_structures(&p));
    FormulaRow {
        index: i,
        paragraph: f.paragraph,
        display: f.display,
        align_written: copied(&f.align),
        structures,
        runs: pick_called(&p, "r").len(),
        nor_runs: pick_called(&p, "nor").len(),
        lit_runs: pick_called(&p, "lit").len(),
        text: join_text(&pick_called(&p, "t")),
    }
}

/// The paragraph holds an equation or a group of them.
pub open spec fn has_formula(p: Node) -> bool {
    p.all_of("oMath"@).len() > 0 || p.all_of("oMathPara"@).len() > 0
}

/// The pieces of each equation.
pub open spec fn pieces_fn(f: Seq<Formula>, head: Seq<char>) -> spec_fn(int) -> Seq<Node> {
    |i: int| pieces(f[i].node, head)
}

/// The groups of each paragraph.
pub open spec fn groups_fn(ps: Seq<Node>) -> spec_fn(int) -> Seq<Node> {
    |i: int| ps[i].all_of("oMathPara"@)
}

/// The texts of the equations.
pub open spec fn formula_texts(f: Seq<Formula>, head: Seq<char>) -> Seq<Seq<char>> {
    Seq::new(f.len(), |i: int| text_of_pieces(pieces(f[i].node, head)))
}

/// The equations of a document.
#[derive(Debug, Clone)]
pub struct FormulaReport {
    pub equations_total: usize,
    pub paragraphs_total: usize,
    pub paragraphs_with: usize,
    pub inline_total: usize,
    pub display_total: usize,
    pub align_written_total: usize,
    pub nor_runs: usize,
    pub lit_runs: usize,
    pub math_runs: usize,
    pub text_chars: u128,
    pub groups_total: usize,
    pub structures_seen: Vec<String>,
    pub items: Vec<FormulaRow>,
}

impl FormulaReport {
    /// What is counted over equations and paragraphs.
    pub open spec fn counts(self, ps: Seq<Node>, head: Seq<char>) -> bool {
        let f = formulas(ps);
        let n = f.len() as int;
        &&& self.equations_total == n
        &&& self.paragraphs_total == ps.len()
        &&& self.paragraphs_with == ps.filter(|p: Node| has_formula(p)).len()
        &&& self.inline_total == tally(|i: int| !f[i].display, n)
        &&& self.display_total == tally(|i: int| f[i].display, n)
        &&& self.align_written_total == tally(|i: int| f[i].align is Some, n)
        &&& self.groups_total == joined(groups_fn(ps), ps.len() as int).len()
    }

    /// What is counted over the pieces of all equations.
    pub open spec fn counts_pieces(self, f: Seq<Formula>, head: Seq<char>) -> bool {
        let all = joined(pieces_fn(f, head), f.len() as int);
        let names = local_names(all.filter(|k: Node| is_structure(k)));
        &&& self.nor_runs == called(all, "nor"@)
        &&& self.lit_runs == called(all, "lit"@)
        &&& self.math_runs == called(all, "r"@)
        &&& self.text_chars == characters_in(formula_texts(f, head))
        &&& texts(self.structures_seen@) == once_each(names, names.len() as int)
    }

    pub open spec fn describes(self, document: Node, body: Node, limit: usize) -> bool {
        let ps = body.all_of("p"@);
        let head = prefix_of(document) + ":"@;
        let f = formulas(ps);
        &&& self.counts(ps, head)
        &&& self.counts_pieces(f, head)
        &&& self.items@.len() == at_most(f.len(), limit)
        &&& forall|i: int|
            0 <= i < self.items@.len() ==> (#[trigger] self.items@[i]).describes(f[i], i, head)
    }
}

fn all_pieces<'a>(f: &Vec<Found<'a>>, head: &str) -> (r: Vec<&'a Node>)
    ensures
        nodes(r@) == joined(pieces_fn(found(f@), head@), f@.len() as int),
{
    let ghost fs = found(f@);
    let mut out: Vec<&'a Node> = Vec::new();
    let mut i: usize = 0;
    assert(nodes(out@) =~= joined(pieces_fn(fs, head@), 0));
    while i < f.len()
        invariant
            i <= f@.len(),
            fs == found(f@),
            nodes(out@) == joined(pieces_fn(fs, head@), i as int),
        decreases f@.len() - i,
    {
        let mut own: Vec<&'a Node> = pick_pieces(f[i].node, head);
        let ghost had = nodes(out@);
        let ghost more = nodes(own@);
        assert(fs[i as int].node == *f@[i as int].node);
        out.append(&mut own);
        assert(nodes(out@) =~= had + more);
        i += 1;
    }
    out
}

fn count_formulas(f: &Vec<Found>, display: bool) -> (r: usize)
    ensures
        r == tally(|i: int| found(f@)[i].display == display, f@.len() as int),
{
    count_those(
        f.len(),
        |i: usize| -> (b: bool)
            requires
                i < f@.len()
            ensures
                b == (found(f@)[i as int].display == display)
            { f[i].display == display },
        Ghost(|i: int| found(f@)[i].display == display),
    )
}

/// The equations of a document; nothing where it has no body. The list is cut to `limit`.
pub fn docx(document: &Node, limit: usize) -> (r: Option<FormulaReport>)
    ensures
        match first_below(*document, "body"@) {
            Some(body) => r matches Some(report) && report.describes(*document, body, limit),
            None => r is None,
        },
{
    let body: &Node = match find_below(document, "body") {
        Some(b) => b,
        None => {
            return None;
        },
    };
    let mut head: String = math_prefix(document);
    head.append(":");
    let paragraphs: Vec<&Node> = body.all("p");
    let ghost ps = nodes(paragraphs@);
    let n: usize = paragraphs.len();
    let mut f: Vec<Found> = Vec::new();
    let mut groups: Vec<&Node> = Vec::new();
    let mut i: usize = 0;
    assert(ps.len() == n);
    assert(found(f@) =~= joined(formulas_fn(ps), 0));
    assert(nodes(groups@) =~= joined(groups_fn(ps), 0));
    while i < n
        invariant
            i <= n,
            n == paragraphs@.len(),
            ps == nodes(paragraphs@),
            found(f@) == joined(formulas_fn(ps), i as int),
            nodes(groups@) == joined(groups_fn(ps), i as int),
        decreases n - i,
    {
        assert(ps[i as int] == *paragraphs@[i as int]);
        add_formulas(paragraphs[i], i, &mut f);
        let mut own: Vec<&Node> = paragraphs[i].all("oMathPara");
        let ghost had = nodes(groups@);
        let ghost more = nodes(own@);
        groups.append(&mut own);
        assert(nodes(groups@) =~= had + more);
        i += 1;
    }
    let ghost fs = formulas(ps);
    assert(found(f@) == fs);
    assert(f@.len() == fs.len());
    assert(nodes(groups@).len() == groups@.len());
    let paragraphs_with: usize = count_nodes(
        &paragraphs,
        |p: &Node| -> (b: bool)
            ensures
                b == has_formula(*p)
            {
                let a: Vec<&Node> = p.all("oMath");
                let b: Vec<&Node> = p.all("oMathPara");
                assert(nodes(a@).len() == a@.len());
                assert(nodes(b@).len() == b@.len());
                a.len() > 0 || b.len() > 0
            },
        Ghost(|p: Node| has_formula(p)),
    );
    let align_written_total: usize = count_those(
        f.len(),
        |i: usize| -> (b: bool)
            requires
                i < f@.len()
            ensures
                b == (fs[i as int].align is Some)
            { f[i].align.is_some() },
        Ghost(|i: int| fs[i].align is Some),
    );
    let inline_total: usize = count_formulas(&f, false);
    let display_total: usize = count_formulas(&f, true);
    proof {
        lemma_tally_same(
            |i: int| found(f@)[i].display == false,
            |i: int| !fs[i].display,
            fs.len() as int,
        );
        lemma_tally_same(
            |i: int| found(f@)[i].display == true,
            |i: int| fs[i].display,
            fs.len() as int,
        );
    }
    let all: Vec<&Node> = all_pieces(&f, head.as_str());
    let names: Vec<String> = names_of(&pick_structures(&all));
    assert(texts(names@).len() == names@.len());
    let lines: Vec<String> = each(
        &f,
        f.len(),
        |i: usize, x: &Found| -> (r: String)
            ensures
                r@ == text_of_pieces(pieces(x.formula().node, head@))
            { join_text(&pick_called(&pick_pieces(x.node, head.as_str()), "t")) },
    );
    assert(texts(lines@) =~= formula_texts(fs, head@)) by {
        assert forall|i: int| 0 <= i < lines@.len() implies (#[trigger] lines@[i])@
            == text_of_pieces(pieces(fs[i].node, head@)) by {
            assert(fs[i] == f@[i].formula());
        }
    }
    let items: Vec<FormulaRow> = each(
        &f,
        cut(f.len(), limit),
        |i: usize, x: &Found| -> (r: FormulaRow)
            ensures
                r.describes(x.formula(), i as int, head@)
            { read_formula(x, i, head.as_str()) },
    );
    assert forall|i: int| 0 <= i < items@.len() implies (#[trigger] items@[i]).describes(
        fs[i],
        i,
        head@,
    ) by {
        assert(fs[i] == f@[i].formula());
    }
    Some(
        FormulaReport {
            equations_total: f.len(),
            paragraphs_total: n,
            paragraphs_with,
            inline_total,
            display_total,
            align_written_total,
            nor_runs: pick_called(&all, "nor").len(),
            lit_runs: pick_called(&all, "lit").len(),
            math_runs: pick_called(&all, "r").len(),
            text_chars: count_texts(&lines).characters,
            groups_total: groups.len(),
            structures_seen: pick_once(&names),
            items,
        },
    )
}

/// A part of a package that could be read.
pub struct PartTree {
    pub name: String,
    pub root: Node,
}

/// A text without the slashes at its end.
pub open spec fn unslashed(s: Seq<char>) -> Seq<char>
    decreases s.len(),
{
    if s.len() > 0 && s.last() == '/' {
        unslashed(s.drop_last())
    } else {
        s
    }
}

/// An address without the mark for the own folder and without a slash at its start.
pub open spec fn bare_address(href: Seq<char>) -> Seq<char> {
    let tail = if begins(href, "./"@) {
        href.skip(2)
    } else {
        href
    };
    unslashed(
        if begins(tail, "/"@) {
            tail.skip(1)
        } else {
            tail
        },
    )
}

/// The part in which an embedded object stands; nothing for an address that names none.
pub open spec fn part_for(href: Seq<char>) -> Seq<char> {
    if bare_address(href).len() == 0 {
        Seq::empty()
    } else {
        bare_address(href) + "/content.xml"@
    }
}

/// The part in which an embedded object stands.
pub fn member_of(href: &str) -> (r: String)
    ensures
        r@ == part_for(href@),
{
    proof {
        reveal_strlit("./");
        reveal_strlit("/");
        assert("./"@.len() == 2);
        assert("/"@.len() == 1);
    }
    let a: usize = if starts_with(href, "./") {
        2
    } else {
        0
    };
    let size: usize = href.unicode_len();
    let tail: &str = href.substring_char(a, size);
    assert(tail@ =~= if begins(href@, "./"@) {
        href@.skip(2)
    } else {
        href@
    });
    let b: usize = if starts_with(tail, "/") {
        1
    } else {
        0
    };
    let long: usize = tail.unicode_len();
    let rest: &str = tail.substring_char(b, long);
    let ghost want = rest@;
    assert(rest@ =~= if begins(tail@, "/"@) {
        tail@.skip(1)
    } else {
        tail@
    });
    let mut n: usize = rest.unicode_len();
    assert(want.take(n as int) =~= want);
    while n > 0 && rest.get_char(n - 1) == '/'
        invariant
            want == rest@,
            n <= rest@.len(),
            unslashed(want) == unslashed(want.take(n as int)),
        decreases n,
    {
        assert(want.take(n as int).drop_last() =~= want.take(n - 1));
        n -= 1;
    }
    assert(unslashed(want) == want.take(n as int));
    if n == 0 {
        let none: String = String::new();
        assert(none@ =~= Seq::empty());
        return none;
    }
    let mut out: String = rest.substring_char(0, n).to_owned();
    assert(out@ =~= want.take(n as int));
    out.append("/content.xml");
    out
}

/// The part of that name.
pub open spec fn tree_of(parts: Seq<PartTree>, name: Seq<char>) -> Option<Node> {
    match first(parts, |p: PartTree| p.name@ == name) {
        Some(i) => Some(parts[i].root),
        None => None,
    }
}

pub fn find_tree<'a>(parts: &'a Vec<PartTree>, name: &str) -> (r: Option<&'a Node>)
    ensures
        node_in(r) == tree_of(parts@, name@),
{
    let ghost p = |t: PartTree| t.name@ == name@;
    let mut i: usize = 0;
    while i < parts.len()
        invariant
            i <= parts@.len(),
            p == (|t: PartTree| t.name@ == name@),
            first(parts@, p) == first_from(parts@, p, i as int),
        decreases parts@.len() - i,
    {
        if same(parts[i].name.as_str(), name) {
            return Some(&parts[i].root);
        }
        i += 1;
    }
    None
}

/// An embedded object: its frame and the paragraph in which that stands.
pub struct Embedded {
    pub frame: Node,
    pub paragraph: int,
}

/// The object in a frame.
pub open spec fn object_in(frame: Node) -> Option<Node> {
    first_below(frame, "object"@)
}

/// The address of the object in a frame; the empty one where none is written.
pub open spec fn href_of(frame: Node) -> Seq<char> {
    match object_in(frame) {
        Some(o) => match attr_said(o, "href"@) {
            Some(t) => t,
            None => Seq::empty(),
        },
        None => Seq::empty(),
    }
}

/// The part in which the object of a frame stands, where it can be read.
pub open spec fn part_of(frame: Node, parts: Seq<PartTree>) -> Option<Node> {
    let member = part_for(href_of(frame));
    if member.len() > 0 {
        tree_of(parts, member)
    } else {
        None
    }
}

/// The equation in a frame. An embedded object is one where its part holds an equation; a chart
/// is an embedded object too.
pub open spec fn math_in(frame: Node, parts: Seq<PartTree>) -> Option<Node> {
    match part_of(frame, parts) {
        Some(root) => first_below(root, "math"@),
        None => None,
    }
}

/// The elements of an equation, itself first.
pub open spec fn math_elements(math: Option<Node>) -> Seq<Node> {
    match math {
        Some(m) => seq![m] + elements_in(m.children@),
        None => Seq::empty(),
    }
}

/// An element whose text belongs to the equation.
pub open spec fn is_token(n: Node) -> bool {
    n.local_name() == "mi"@ || n.local_name() == "mn"@ || n.local_name() == "mo"@ || n.local_name()
        == "mtext"@
}

/// The text of an equation.
pub open spec fn math_text(math: Option<Node>) -> Seq<char> {
    joined_text(math_elements(math).filter(|n: Node| is_token(n)))
}

/// The equation in another notation, where one is written.
pub open spec fn source_of(math: Option<Node>) -> Option<Node> {
    match math {
        Some(m) => first_below(m, "annotation"@),
        None => None,
    }
}

/// What an attribute written that way says, of a node that may not be there.
pub open spec fn exactly(n: Option<Node>, name: Seq<char>) -> Option<Seq<char>> {
    match n {
        Some(x) => x.attr_exact(name),
        None => None,
    }
}

fn ask_exactly(n: Option<&Node>, name: &str) -> (r: Option<String>)
    ensures
        text_in(r) == exactly(node_in(n), name@),
{
    match n {
        Some(x) => owned(x.attr(name)),
        None => None,
    }
}

/// The text of a node that may not be there.
pub open spec fn text_if(n: Option<Node>) -> Option<Seq<char>> {
    match n {
        Some(x) => Some(x.full_text()),
        None => None,
    }
}

fn read_href(frame: &Node) -> (r: String)
    ensures
        r@ == href_of(*frame),
{
    match find_below(frame, "object") {
        Some(o) => match attr_of(o, "href") {
            Some(t) => t.to_owned(),
            None => {
                let none: String = String::new();
                assert(none@ =~= Seq::empty());
                none
            },
        },
        None => {
            let none: String = String::new();
            assert(none@ =~= Seq::empty());
            none
        },
    }
}

fn find_part<'a>(frame: &Node, parts: &'a Vec<PartTree>) -> (r: Option<&'a Node>)
    ensures
        node_in(r) == part_of(*frame, parts@),
{
    let member: String = member_of(read_href(frame).as_str());
    if member.as_str().unicode_len() > 0 {
        find_tree(parts, member.as_str())
    } else {
        None
    }
}

fn find_math<'a>(frame: &Node, parts: &'a Vec<PartTree>) -> (r: Option<&'a Node>)
    ensures
        node_in(r) == math_in(*frame, parts@),
{
    match find_part(frame, parts) {
        Some(root) => find_below(root, "math"),
        None => None,
    }
}

fn read_elements<'a>(math: Option<&'a Node>) -> (r: Vec<&'a Node>)
    ensures
        nodes(r@) == math_elements(node_in(math)),
{
    let mut out: Vec<&'a Node> = Vec::new();
    if let Some(m) = math {
        out.push(m);
        subtree(m, &mut out);
        assert(nodes(out@) =~= math_elements(node_in(math)));
    } else {
        assert(nodes(out@) =~= math_elements(node_in(math)));
    }
    out
}

fn read_math_text(math: Option<&Node>) -> (r: String)
    ensures
        r@ == math_text(node_in(math)),
{
    join_text(
        &pick_nodes(
            &read_elements(math),
            |n: &Node| -> (b: bool)
                ensures
                    b == is_token(*n)
                { n.is("mi") || n.is("mn") || n.is("mo") || n.is("mtext") },
            Ghost(|n: Node| is_token(n)),
        ),
    )
}

/// The address of the picture that stands in for the object of a frame.
pub open spec fn stand_in(frame: Node) -> Option<Seq<char>> {
    match first_below(frame, "image"@) {
        Some(i) => attr_said(i, "href"@),
        None => None,
    }
}

fn read_stand_in(frame: &Node) -> (r: Option<String>)
    ensures
        text_in(r) == stand_in(*frame),
{
    match find_below(frame, "image") {
        Some(i) => owned(attr_of(i, "href")),
        None => None,
    }
}

/// One embedded object.
#[derive(Debug, Clone)]
pub struct ObjectRow {
    pub index: usize,
    pub paragraph: usize,
    pub frame_name: Option<String>,
    pub style_written: Option<String>,
    pub anchor_written: Option<String>,
    pub width_written: Option<String>,
    pub height_written: Option<String>,
    pub z_written: Option<String>,
    pub object_target: String,
    /// The part in which the object stands, where it can be read.
    pub object_part: Option<String>,
    pub math_found: bool,
    pub replacement_target: Option<String>,
    pub display_written: Option<String>,
    pub elements: Vec<String>,
    pub text: String,
    pub annotation_encoding: Option<String>,
    pub annotation_source: Option<String>,
}

impl ObjectRow {
    pub open spec fn describes(self, e: Embedded, i: int, parts: Seq<PartTree>) -> bool {
        let math = math_in(e.frame, parts);
        &&& self.index == i
        &&& self.paragraph == e.paragraph
        &&& text_in(self.frame_name) == attr_said(e.frame, "name"@)
        &&& text_in(self.style_written) == attr_said(e.frame, "style-name"@)
        &&& text_in(self.anchor_written) == attr_said(e.frame, "anchor-type"@)
        &&& text_in(self.width_written) == attr_said(e.frame, "width"@)
        &&& text_in(self.height_written) == attr_said(e.frame, "height"@)
        &&& text_in(self.z_written) == attr_said(e.frame, "z-index"@)
        &&& self.object_target@ == href_of(e.frame)
        &&& text_in(self.object_part) == if part_of(e.frame, parts) is Some {
            Some(part_for(href_of(e.frame)))
        } else {
            None
        }
        &&& self.math_found == (math is Some)
        &&& text_in(self.replacement_target) == stand_in(e.frame)
        &&& text_in(self.display_written) == exactly(math, "display"@)
        &&& texts(self.elements@) == local_names(math_elements(math))
        &&& self.text@ == math_text(math)
        &&& text_in(self.annotation_encoding) == exactly(source_of(math), "encoding"@)
        &&& text_in(self.annotation_source) == text_if(source_of(math))
    }
}

fn read_object(frame: &Node, paragraph: usize, index: usize, parts: &Vec<PartTree>) -> (r:
    ObjectRow)
    ensures
        r.describes(
            Embedded { frame: *frame, paragraph: paragraph as int },
            index as int,
            parts@,
        ),
{
    let href: String = read_href(frame);
    let object_part: Option<String> = match find_part(frame, parts) {
        Some(_) => Some(member_of(href.as_str())),
        None => None,
    };
    let math: Option<&Node> = find_math(frame, parts);
    let source: Option<&Node> = match math {
        Some(m) => find_below(m, "annotation"),
        None => None,
    };
    ObjectRow {
        index,
        paragraph,
        frame_name: owned(attr_of(frame, "name")),
        style_written: owned(attr_of(frame, "style-name")),
        anchor_written: owned(attr_of(frame, "anchor-type")),
        width_written: owned(attr_of(frame, "width")),
        height_written: owned(attr_of(frame, "height")),
        z_written: owned(attr_of(frame, "z-index")),
        object_target: href,
        object_part,
        math_found: math.is_some(),
        replacement_target: read_stand_in(frame),
        display_written: ask_exactly(math, "display"),
        elements: names_of(&read_elements(math)),
        text: read_math_text(math),
        annotation_encoding: ask_exactly(source, "encoding"),
        annotation_source: match source {
            Some(s) => Some(s.text()),
            None => None,
        },
    }
}

/// The paragraphs and headings of a text.
pub open spec fn blocks(text: Node) -> Seq<Node> {
    text.children@.filter(|k: Node| k.local_name() == "p"@ || k.local_name() == "h"@)
}

/// The frames of a paragraph that hold an object.
pub open spec fn holding(p: Node) -> Seq<Node> {
    p.all_of("frame"@).filter(|f: Node| object_in(f) is Some)
}

/// The frames of each paragraph.
pub open spec fn frames_fn(ps: Seq<Node>) -> spec_fn(int) -> Seq<Node> {
    |i: int| ps[i].all_of("frame"@)
}

/// The embedded objects of each paragraph.
pub open spec fn embedded_fn(ps: Seq<Node>) -> spec_fn(int) -> Seq<Embedded> {
    |i: int|
        Seq::new(holding(ps[i]).len(), |k: int| Embedded { frame: holding(ps[i])[k], paragraph: i })
}

/// The embedded objects of a list of paragraphs.
pub open spec fn embedded(ps: Seq<Node>) -> Seq<Embedded> {
    joined(embedded_fn(ps), ps.len() as int)
}

/// An embedded object.
struct Held<'a> {
    frame: &'a Node,
    paragraph: usize,
}

impl Held<'_> {
    spec fn embedded(self) -> Embedded {
        Embedded { frame: *self.frame, paragraph: self.paragraph as int }
    }
}

spec fn held(v: Seq<Held>) -> Seq<Embedded> {
    Seq::new(v.len(), |i: int| v[i].embedded())
}

fn add_objects<'a>(par: &'a Node, paragraph: usize, out: &mut Vec<Held<'a>>)
    ensures
        held(final(out)@) == held(old(out)@) + Seq::new(
            holding(*par).len(),
            |k: int| Embedded { frame: holding(*par)[k], paragraph: paragraph as int },
        ),
{
    let frames: Vec<&'a Node> = par.all("frame");
    let with: Vec<&'a Node> = pick_nodes(
        &frames,
        |f: &Node| -> (b: bool)
            ensures
                b == (object_in(*f) is Some)
            { find_below(f, "object").is_some() },
        Ghost(|f: Node| object_in(f) is Some),
    );
    assert(nodes(with@).len() == with@.len());
    let ghost start = held(out@);
    let mut own: Vec<Held<'a>> = each(
        &with,
        with.len(),
        |i: usize, f: &&'a Node| -> (r: Held<'a>)
            ensures
                *r.frame == **f,
                r.paragraph == paragraph
            { Held { frame: *f, paragraph } },
    );
    let ghost more = Seq::new(
        holding(*par).len(),
        |k: int| Embedded { frame: holding(*par)[k], paragraph: paragraph as int },
    );
    assert(held(own@) =~= more) by {
        assert forall|k: int| 0 <= k < own@.len() implies (#[trigger] own@[k]).embedded()
            == more[k] by {
            assert(nodes(with@)[k] == *with@[k]);
        }
    }
    let ghost mine = held(own@);
    out.append(&mut own);
    assert(held(out@) =~= start + mine);
}

/// How an equation says it is shown.
pub open spec fn shown_as(frame: Node, parts: Seq<PartTree>, word: Seq<char>) -> bool {
    math_in(frame, parts) is Some && exactly(math_in(frame, parts), "display"@) == Some(word)
}

/// An equation that does not say whether it stands on a line of its own.
pub open spec fn shown_somehow(frame: Node, parts: Seq<PartTree>) -> bool {
    math_in(frame, parts) is Some && !shown_as(frame, parts, "block"@) && !shown_as(
        frame,
        parts,
        "inline"@,
    )
}

/// The embedded objects of a text.
#[derive(Debug, Clone)]
pub struct ObjectReport {
    pub paragraphs_total: usize,
    pub frames_seen: usize,
    pub objects_total: usize,
    pub math_found: usize,
    pub objects_without_math: usize,
    pub parts_found: usize,
    pub parts_missing: usize,
    pub block_written: usize,
    pub inline_written: usize,
    pub display_missing: usize,
    pub annotations_found: usize,
    pub replacements_written: usize,
    pub text_chars: u128,
    pub elements_seen: Vec<String>,
    pub items: Vec<ObjectRow>,
}

/// The elements of each equation.
pub open spec fn elements_fn(e: Seq<Embedded>, parts: Seq<PartTree>) -> spec_fn(int) -> Seq<Node> {
    |i: int| math_elements(math_in(e[i].frame, parts))
}

/// The texts of the equations.
pub open spec fn math_texts(e: Seq<Embedded>, parts: Seq<PartTree>) -> Seq<Seq<char>> {
    Seq::new(e.len(), |i: int| math_text(math_in(e[i].frame, parts)))
}

impl ObjectReport {
    /// What is counted over the objects.
    pub open spec fn counts(self, e: Seq<Embedded>, parts: Seq<PartTree>) -> bool {
        let n = e.len() as int;
        &&& self.objects_total == n
        &&& self.math_found == tally(|i: int| math_in(e[i].frame, parts) is Some, n)
        &&& self.objects_without_math == tally(|i: int| math_in(e[i].frame, parts) is None, n)
        &&& self.parts_found == tally(|i: int| part_of(e[i].frame, parts) is Some, n)
        &&& self.parts_missing == tally(|i: int| part_of(e[i].frame, parts) is None, n)
        &&& self.block_written == tally(|i: int| shown_as(e[i].frame, parts, "block"@), n)
        &&& self.inline_written == tally(|i: int| shown_as(e[i].frame, parts, "inline"@), n)
        &&& self.display_missing == tally(|i: int| shown_somehow(e[i].frame, parts), n)
        &&& self.annotations_found == tally(
            |i: int| source_of(math_in(e[i].frame, parts)) is Some,
            n,
        )
        &&& self.replacements_written == tally(|i: int| stand_in(e[i].frame) is Some, n)
    }

    /// What is gathered from the equations.
    pub open spec fn gathers(self, e: Seq<Embedded>, parts: Seq<PartTree>) -> bool {
        let names = local_names(joined(elements_fn(e, parts), e.len() as int));
        &&& self.text_chars == characters_in(math_texts(e, parts))
        &&& texts(self.elements_seen@) == once_each(names, names.len() as int)
    }

    pub open spec fn describes(self, text: Node, parts: Seq<PartTree>, limit: usize) -> bool {
        let ps = blocks(text);
        let e = embedded(ps);
        &&& self.paragraphs_total == ps.len()
        &&& self.frames_seen == joined(frames_fn(ps), ps.len() as int).len()
        &&& self.counts(e, parts)
        &&& self.gathers(e, parts)
        &&& self.items@.len() == at_most(e.len(), limit)
        &&& forall|i: int|
            0 <= i < self.items@.len() ==> (#[trigger] self.items@[i]).describes(e[i], i, parts)
    }
}

/// Each object is an equation or it is none, and its part is there or it is not.
pub proof fn law_objects_are_told_once(e: Seq<Embedded>, parts: Seq<PartTree>, n: int)
    requires
        0 <= n,
    ensures
        tally(|i: int| math_in(e[i].frame, parts) is Some, n) + tally(
            |i: int| math_in(e[i].frame, parts) is None,
            n,
        ) == n,
        tally(|i: int| part_of(e[i].frame, parts) is Some, n) + tally(
            |i: int| part_of(e[i].frame, parts) is None,
            n,
        ) == n,
        tally(|i: int| math_in(e[i].frame, parts) is Some, n) == tally(
            |i: int| shown_as(e[i].frame, parts, "block"@),
            n,
        ) + tally(|i: int| shown_as(e[i].frame, parts, "inline"@), n) + tally(
            |i: int| shown_somehow(e[i].frame, parts),
            n,
        ),
    decreases n,
{
    if n > 0 {
        law_objects_are_told_once(e, parts, n - 1);
        lemma_words_differ();
    }
}

proof fn lemma_words_differ()
    ensures
        "block"@ != "inline"@,
{
    reveal_strlit("block");
    reveal_strlit("inline");
    assert("block"@.len() == 5);
    assert("inline"@.len() == 6);
}

fn count_shown(v: &Vec<Held>, parts: &Vec<PartTree>, word: &str) -> (r: usize)
    ensures
        r == tally(|i: int| shown_as(held(v@)[i].frame, parts@, word@), v@.len() as int),
{
    let ghost e = held(v@);
    count_those(
        v.len(),
        |i: usize| -> (b: bool)
            requires
                i < v@.len()
            ensures
                b == shown_as(e[i as int].frame, parts@, word@)
            {
                match ask_exactly(find_math(v[i].frame, parts), "display") {
                    Some(t) => same(t.as_str(), word),
                    None => false,
                }
            },
        Ghost(|i: int| shown_as(e[i].frame, parts@, word@)),
    )
}

fn all_elements<'a>(v: &Vec<Held>, parts: &'a Vec<PartTree>) -> (r: Vec<&'a Node>)
    ensures
        nodes(r@) == joined(elements_fn(held(v@), parts@), v@.len() as int),
{
    let ghost e = held(v@);
    let mut out: Vec<&'a Node> = Vec::new();
    let mut i: usize = 0;
    assert(nodes(out@) =~= joined(elements_fn(e, parts@), 0));
    while i < v.len()
        invariant
            i <= v@.len(),
            e == held(v@),
            nodes(out@) == joined(elements_fn(e, parts@), i as int),
        decreases v@.len() - i,
    {
        let mut own: Vec<&'a Node> = read_elements(find_math(v[i].frame, parts));
        let ghost had = nodes(out@);
        let ghost more = nodes(own@);
        assert(e[i as int].frame == *v@[i as int].frame);
        out.append(&mut own);
        assert(nodes(out@) =~= had + more);
        i += 1;
    }
    out
}

/// The embedded objects of a text and which of them are equations; nothing where there is no
/// text. `parts` holds the parts of the package that could be read. The list is cut to `limit`.
pub fn odf(root: &Node, parts: &Vec<PartTree>, limit: usize) -> (r: Option<ObjectReport>)
    ensures
        match text_element(*root) {
            Some(text) => r matches Some(report) && report.describes(text, parts@, limit),
            None => r is None,
        },
{
    let text: &Node = match find_text_element(root) {
        Some(t) => t,
        None => {
            return None;
        },
    };
    let kids: Vec<&Node> = kids_of(text);
    let paragraphs: Vec<&Node> = pick_nodes(
        &kids,
        |k: &Node| -> (b: bool)
            ensures
                b == (k.local_name() == "p"@ || k.local_name() == "h"@)
            { k.is("p") || k.is("h") },
        Ghost(|k: Node| k.local_name() == "p"@ || k.local_name() == "h"@),
    );
    let ghost ps = nodes(paragraphs@);
    let n: usize = paragraphs.len();
    let mut v: Vec<Held> = Vec::new();
    let mut frames: Vec<&Node> = Vec::new();
    let mut i: usize = 0;
    assert(ps.len() == n);
    assert(held(v@) =~= joined(embedded_fn(ps), 0));
    assert(nodes(frames@) =~= joined(frames_fn(ps), 0));
    while i < n
        invariant
            i <= n,
            n == paragraphs@.len(),
            ps == nodes(paragraphs@),
            held(v@) == joined(embedded_fn(ps), i as int),
            nodes(frames@) == joined(frames_fn(ps), i as int),
        decreases n - i,
    {
        assert(ps[i as int] == *paragraphs@[i as int]);
        let ghost before = held(v@);
        add_objects(paragraphs[i], i, &mut v);
        assert(held(v@) =~= before + embedded_fn(ps)(i as int));
        let mut own: Vec<&Node> = paragraphs[i].all("frame");
        let ghost had = nodes(frames@);
        let ghost more = nodes(own@);
        frames.append(&mut own);
        assert(nodes(frames@) =~= had + more);
        i += 1;
    }
    let ghost e = embedded(ps);
    assert(held(v@) == e);
    assert(v@.len() == e.len());
    assert(nodes(frames@).len() == frames@.len());
    let many: usize = v.len();
    let math_found: usize = count_those(
        many,
        |i: usize| -> (b: bool)
            requires
                i < v@.len()
            ensures
                b == (math_in(e[i as int].frame, parts@) is Some)
            { find_math(v[i].frame, parts).is_some() },
        Ghost(|i: int| math_in(e[i].frame, parts@) is Some),
    );
    let parts_found: usize = count_those(
        many,
        |i: usize| -> (b: bool)
            requires
                i < v@.len()
            ensures
                b == (part_of(e[i as int].frame, parts@) is Some)
            { find_part(v[i].frame, parts).is_some() },
        Ghost(|i: int| part_of(e[i].frame, parts@) is Some),
    );
    let display_missing: usize = count_those(
        many,
        |i: usize| -> (b: bool)
            requires
                i < v@.len()
            ensures
                b == shown_somehow(e[i as int].frame, parts@)
            {
                let math: Option<&Node> = find_math(v[i].frame, parts);
                math.is_some() && match ask_exactly(math, "display") {
                    Some(t) => !same(t.as_str(), "block") && !same(t.as_str(), "inline"),
                    None => true,
                }
            },
        Ghost(|i: int| shown_somehow(e[i].frame, parts@)),
    );
    let annotations_found: usize = count_those(
        many,
        |i: usize| -> (b: bool)
            requires
                i < v@.len()
            ensures
                b == (source_of(math_in(e[i as int].frame, parts@)) is Some)
            {
                match find_math(v[i].frame, parts) {
                    Some(m) => find_below(m, "annotation").is_some(),
                    None => false,
                }
            },
        Ghost(|i: int| source_of(math_in(e[i].frame, parts@)) is Some),
    );
    let replacements_written: usize = count_those(
        many,
        |i: usize| -> (b: bool)
            requires
                i < v@.len()
            ensures
                b == (stand_in(e[i as int].frame) is Some)
            { read_stand_in(v[i].frame).is_some() },
        Ghost(|i: int| stand_in(e[i].frame) is Some),
    );
    let block_written: usize = count_shown(&v, parts, "block");
    let inline_written: usize = count_shown(&v, parts, "inline");
    let lines: Vec<String> = each(
        &v,
        many,
        |i: usize, x: &Held| -> (r: String)
            ensures
                r@ == math_text(math_in(x.embedded().frame, parts@))
            { read_math_text(find_math(x.frame, parts)) },
    );
    assert(texts(lines@) =~= math_texts(e, parts@)) by {
        assert forall|i: int| 0 <= i < lines@.len() implies (#[trigger] lines@[i])@ == math_text(
            math_in(e[i].frame, parts@),
        ) by {
            assert(e[i] == v@[i].embedded());
        }
    }
    let names: Vec<String> = names_of(&all_elements(&v, parts));
    assert(texts(names@).len() == names@.len());
    let items: Vec<ObjectRow> = each(
        &v,
        cut(many, limit),
        |i: usize, x: &Held| -> (r: ObjectRow)
            ensures
                r.describes(x.embedded(), i as int, parts@)
            { read_object(x.frame, x.paragraph, i, parts) },
    );
    assert forall|i: int| 0 <= i < items@.len() implies (#[trigger] items@[i]).describes(
        e[i],
        i,
        parts@,
    ) by {
        assert(e[i] == v@[i].embedded());
    }
    proof {
        law_objects_are_told_once(e, parts@, many as int);
    }
    Some(
        ObjectReport {
            paragraphs_total: n,
            frames_seen: frames.len(),
            objects_total: many,
            math_found,
            objects_without_math: many - math_found,
            parts_found,
            parts_missing: many - parts_found,
            block_written,
            inline_written,
            display_missing,
            annotations_found,
            replacements_written,
            text_chars: count_texts(&lines).characters,
            elements_seen: pick_once(&names),
            items,
        },
    )
}

/// The prefix for equations is the one that the document declares for their name space, and `m`
/// where it declares none.
pub proof fn law_which_prefix_equations_have(root: Node, d: Node, i: int, prefix: Seq<char>)
    requires
        root.below("document"@).len() == 1,
        d == root.below("document"@)[0],
    ensures
        0 <= i < d.attrs@.len() && d.attrs@[i].0@ == "xmlns:"@ + prefix && d.attrs@[i].1@
            == "http://schemas.openxmlformats.org/officeDocument/2006/math"@ && (forall|k: int|
            0 <= k < i ==> (#[trigger] d.attrs@[k]).1@
                != "http://schemas.openxmlformats.org/officeDocument/2006/math"@) ==> prefix_of(
            root,
        ) == prefix,
        (forall|k: int|
            0 <= k < d.attrs@.len() ==> (#[trigger] d.attrs@[k]).1@
                != "http://schemas.openxmlformats.org/officeDocument/2006/math"@) ==> prefix_of(
            root,
        ) == "m"@,
{
    let all = root.below("document"@);
    let space = "http://schemas.openxmlformats.org/officeDocument/2006/math"@;
    reveal_strlit("xmlns:");
    let head = "xmlns:"@;
    assert(head.len() == 6);
    let has = 0 <= i < d.attrs@.len() && d.attrs@[i].0@ == head + prefix && d.attrs@[i].1@ == space
        && (forall|k: int| 0 <= k < i ==> (#[trigger] d.attrs@[k]).1@ != space);
    let none = forall|k: int| 0 <= k < d.attrs@.len() ==> (#[trigger] d.attrs@[k]).1@ != space;
    assert forall|q: spec_fn((String, String)) -> bool|
        (forall|a: (String, String)| #[trigger] q(a) == (a.1@ == space && begins(a.0@, head)))
            implies {
        &&& has ==> #[trigger] first(d.attrs@, q) == Some(i)
        &&& none ==> first(d.attrs@, q) is None
    } by {
        crate::lists::lemma_first_from(d.attrs@, q, 0);
        if has {
            assert((head + prefix).take(6) =~= head);
            assert(q(d.attrs@[i]));
            match first(d.attrs@, q) {
                Some(j) => {
                    assert(q(d.attrs@[j]));
                },
                None => {},
            }
        }
        if none {
            match first(d.attrs@, q) {
                Some(j) => {
                    assert(q(d.attrs@[j]));
                },
                None => {},
            }
        }
    }
    if has {
        assert(d.attrs@[i].0@.skip(6) =~= prefix);
        assert(prefix_at(d) == Some(prefix));
    }
    if none {
        assert(prefix_at(d) is None);
    }
    let p = |n: Node| prefix_at(n) is Some;
    crate::lists::lemma_first_from(all, p, 0);
    match first(all, p) {
        Some(j) => {
            assert(p(all[j]));
        },
        None => {
            assert(!p(all[0]));
        },
    }
}

/// The equations of a paragraph are its children of that name, in the line of text, and those in
/// its groups, on lines of their own and aligned as the group says.
pub proof fn law_which_equations_a_paragraph_has(c: Seq<Node>, paragraph: int, n: int)
    requires
        0 <= n < c.len(),
    ensures
        formulas_upto(c, paragraph, 0).len() == 0,
        c[n].local_name() == "oMath"@ ==> formulas_upto(c, paragraph, n + 1) == formulas_upto(
            c,
            paragraph,
            n,
        ).push(Formula { node: c[n], paragraph, display: false, align: None }),
        c[n].local_name() == "oMathPara"@ ==> formulas_upto(c, paragraph, n + 1) == formulas_upto(
            c,
            paragraph,
            n,
        ) + Seq::new(
            c[n].all_of("oMath"@).len(),
            |k: int|
                Formula {
                    node: c[n].all_of("oMath"@)[k],
                    paragraph,
                    display: true,
                    align: align_of(c[n]),
                },
        ),
        c[n].local_name() != "oMath"@ && c[n].local_name() != "oMathPara"@ ==> formulas_upto(
            c,
            paragraph,
            n + 1,
        ) == formulas_upto(c, paragraph, n),
{
    reveal_strlit("oMath");
    reveal_strlit("oMathPara");
    assert("oMath"@.len() == 5 && "oMathPara"@.len() == 9);
    let f = formulas_upto(c, paragraph, n);
    let one = Formula { node: c[n], paragraph, display: false, align: None };
    assert(f + seq![one] =~= f.push(one));
    assert(f + Seq::<Formula>::empty() =~= f);
    assert(grouped(c[n], paragraph) =~= Seq::new(
        c[n].all_of("oMath"@).len(),
        |k: int|
            Formula {
                node: c[n].all_of("oMath"@)[k],
                paragraph,
                display: true,
                align: align_of(c[n]),
            },
    ));
}

/// How a group is aligned is said by the first of its properties that holds an alignment.
pub proof fn law_how_a_group_is_aligned(holder: Node, i: int)
    ensures
        0 <= i < holder.children@.len() && holder.children@[i].local_name() == "oMathParaPr"@
            && holder.children@[i].child_of("jc"@) is Some && (forall|k: int|
            0 <= k < i ==> (#[trigger] holder.children@[k]).local_name() != "oMathParaPr"@)
            ==> align_of(holder) == holder.children@[i].child_of("jc"@)->0.attr_text("val"@),
        (forall|k: int|
            0 <= k < holder.children@.len() ==> (#[trigger] holder.children@[k]).local_name()
                != "oMathParaPr"@) ==> align_of(holder) is None,
{
    let c = holder.children@;
    let p = |k: Node| k.local_name() == "oMathParaPr"@ && k.child_of("jc"@) is Some;
    crate::lists::lemma_first_from(c, p, 0);
    match first(c, p) {
        Some(j) => {
            assert(p(c[j]));
            if 0 <= i < c.len() && j > i {
                assert(!p(c[i]));
            }
        },
        None => {
            if 0 <= i < c.len() {
                assert(!p(c[i]));
            }
        },
    }
}

/// What is told of an equation: its place, how it stands, the names of its structures, its runs,
/// and the texts in it.
pub proof fn law_what_an_equation_says(
    r: FormulaRow,
    f: Formula,
    i: int,
    head: Seq<char>,
    p: Seq<Node>,
)
    requires
        r.describes(f, i, head),
        p == elements_in(f.node.children@).filter(|k: Node| begins(k.name@, head)),
    ensures
        r.index == i,
        r.paragraph == f.paragraph,
        r.display == f.display,
        text_in(r.align_written) == f.align,
        texts(r.structures@) == local_names(
            p.filter(
                |k: Node|
                    k.local_name() != "r"@ && k.local_name() != "t"@ && k.local_name()
                        != "oMath"@,
            ),
        ),
        r.runs == p.filter(|k: Node| k.local_name() == "r"@).len(),
        r.nor_runs == p.filter(|k: Node| k.local_name() == "nor"@).len(),
        r.lit_runs == p.filter(|k: Node| k.local_name() == "lit"@).len(),
        r.text@ == joined_text(p.filter(|k: Node| k.local_name() == "t"@)),
{
    let a = |k: Node| is_structure(k);
    let b = |k: Node|
        k.local_name() != "r"@ && k.local_name() != "t"@ && k.local_name() != "oMath"@;
    assert(a =~= b);
}

/// Each number of the report is over the paragraphs of the body itself and their equations.
pub proof fn law_what_equations_are_counted_for(
    r: FormulaReport,
    document: Node,
    body: Node,
    limit: usize,
    ps: Seq<Node>,
    f: Seq<Formula>,
)
    requires
        r.describes(document, body, limit),
        ps == body.all_of("p"@),
        f == formulas(ps),
    ensures
        r.paragraphs_total == ps.len(),
        r.equations_total == f.len(),
        r.paragraphs_with == ps.filter(
            |p: Node| p.all_of("oMath"@).len() > 0 || p.all_of("oMathPara"@).len() > 0,
        ).len(),
        r.inline_total == f.filter(|x: Formula| !x.display).len(),
        r.display_total == f.filter(|x: Formula| x.display).len(),
        r.align_written_total == f.filter(|x: Formula| x.align is Some).len(),
        r.items@.len() == limit || r.items@.len() == f.len(),
        ({
            let all = joined(pieces_fn(f, prefix_of(document) + ":"@), f.len() as int);
            &&& r.nor_runs == all.filter(|k: Node| k.local_name() == "nor"@).len()
            &&& r.lit_runs == all.filter(|k: Node| k.local_name() == "lit"@).len()
            &&& r.math_runs == all.filter(|k: Node| k.local_name() == "r"@).len()
        }),
{
    let a = |p: Node| has_formula(p);
    let b = |p: Node| p.all_of("oMath"@).len() > 0 || p.all_of("oMathPara"@).len() > 0;
    assert(a =~= b);
    crate::lists::law_a_tally_is_how_many_pass(
        f,
        |i: int| !f[i].display,
        |x: Formula| !x.display,
    );
    crate::lists::law_a_tally_is_how_many_pass(f, |i: int| f[i].display, |x: Formula| x.display);
    crate::lists::law_a_tally_is_how_many_pass(
        f,
        |i: int| f[i].align is Some,
        |x: Formula| x.align is Some,
    );
}

/// The part of an object is the content in the folder that its address names; the mark for the own
/// folder, a slash before it and slashes behind it come off.
pub proof fn law_which_part_an_address_names(folder: Seq<char>)
    requires
        folder.len() > 0,
        folder[0] != '.' && folder[0] != '/',
        folder.last() != '/',
    ensures
        part_for(folder) == folder + "/content.xml"@,
        part_for(seq!['.', '/'] + folder) == folder + "/content.xml"@,
        part_for(folder.push('/')) == folder + "/content.xml"@,
        part_for(Seq::empty()).len() == 0,
{
    reveal_strlit("./");
    reveal_strlit("/");
    lemma_no_mark(folder);
    let a = seq!['.', '/'] + folder;
    assert(a.take(2) =~= "./"@);
    assert(a.skip(2) =~= folder);
    let b = folder.push('/');
    assert(b[0] == folder[0]);
    lemma_no_mark(b);
    assert(b.drop_last() =~= folder);
    assert(unslashed(b) == unslashed(folder));
    let e = Seq::<char>::empty();
    assert(!begins(e, "./"@));
    assert(!begins(e, "/"@));
}

proof fn lemma_no_mark(s: Seq<char>)
    requires
        s.len() > 0,
        s[0] != '.' && s[0] != '/',
    ensures
        !begins(s, "./"@),
        !begins(s, "/"@),
{
    reveal_strlit("./");
    reveal_strlit("/");
    assert("./"@[0] == '.');
    assert("/"@[0] == '/');
    if begins(s, "./"@) {
        assert(s.take(2)[0] == s[0]);
    }
    if begins(s, "/"@) {
        assert(s.take(1)[0] == s[0]);
    }
}

/// A part is found by its name, the first of it.
pub proof fn law_which_part_is_read(parts: Seq<PartTree>, name: Seq<char>, i: int)
    ensures
        0 <= i < parts.len() && parts[i].name@ == name && (forall|k: int|
            0 <= k < i ==> (#[trigger] parts[k]).name@ != name) ==> tree_of(parts, name) == Some(
            parts[i].root,
        ),
        (forall|k: int| 0 <= k < parts.len() ==> (#[trigger] parts[k]).name@ != name) ==> tree_of(
            parts,
            name,
        ) is None,
{
    assert forall|q: spec_fn(PartTree) -> bool|
        (forall|x: PartTree| #[trigger] q(x) == (x.name@ == name)) implies {
        &&& 0 <= i < parts.len() && q(parts[i]) && (forall|k: int|
            0 <= k < i ==> !q(#[trigger] parts[k])) ==> #[trigger] first(parts, q) == Some(i)
        &&& (forall|k: int| 0 <= k < parts.len() ==> !q(#[trigger] parts[k])) ==> first(parts, q)
            is None
    } by {
        crate::lists::lemma_first_from(parts, q, 0);
    }
}

/// What is told of an embedded object: what its frame writes, where it stands, and of its equation
/// how it is shown, its elements and its texts.
pub proof fn law_what_an_object_says(
    r: ObjectRow,
    e: Embedded,
    i: int,
    parts: Seq<PartTree>,
)
    requires
        r.describes(e, i, parts),
    ensures
        r.index == i && r.paragraph == e.paragraph,
        text_in(r.frame_name) == attr_said(e.frame, "name"@),
        text_in(r.style_written) == attr_said(e.frame, "style-name"@),
        text_in(r.anchor_written) == attr_said(e.frame, "anchor-type"@),
        text_in(r.width_written) == attr_said(e.frame, "width"@),
        text_in(r.height_written) == attr_said(e.frame, "height"@),
        text_in(r.z_written) == attr_said(e.frame, "z-index"@),
        e.frame.below("object"@).len() > 0 ==> (attr_said(
            e.frame.below("object"@)[0],
            "href"@,
        ) matches Some(t) ==> r.object_target@ == t),
        e.frame.below("image"@).len() > 0 ==> text_in(r.replacement_target) == attr_said(
            e.frame.below("image"@)[0],
            "href"@,
        ),
        e.frame.below("image"@).len() == 0 ==> r.replacement_target is None,
        math_in(e.frame, parts) matches Some(m) ==> {
            &&& r.math_found
            &&& text_in(r.display_written) == m.attr_exact("display"@)
            &&& texts(r.elements@) == local_names(seq![m] + elements_in(m.children@))
            &&& r.text@ == joined_text(
                (seq![m] + elements_in(m.children@)).filter(
                    |n: Node|
                        n.local_name() == "mi"@ || n.local_name() == "mn"@ || n.local_name()
                            == "mo"@ || n.local_name() == "mtext"@,
                ),
            )
            &&& m.below("annotation"@).len() == 0 ==> r.annotation_encoding is None
                && r.annotation_source is None
            &&& m.below("annotation"@).len() > 0 ==> text_in(r.annotation_encoding)
                == m.below("annotation"@)[0].attr_exact("encoding"@) && text_in(
                r.annotation_source,
            ) == Some(m.below("annotation"@)[0].full_text())
        },
        math_in(e.frame, parts) is None ==> !r.math_found && r.display_written is None,
{
    let a = |n: Node| is_token(n);
    let b = |n: Node|
        n.local_name() == "mi"@ || n.local_name() == "mn"@ || n.local_name() == "mo"@
            || n.local_name() == "mtext"@;
    assert(a =~= b);
}

/// The equation of a frame is the first in the part of its object.
pub proof fn law_where_the_equation_stands(frame: Node, parts: Seq<PartTree>, href: Seq<char>)
    requires
        frame.below("object"@).len() > 0,
        attr_said(frame.below("object"@)[0], "href"@) == Some(href),
        part_for(href).len() > 0,
    ensures
        tree_of(parts, part_for(href)) is None ==> part_of(frame, parts) is None && math_in(
            frame,
            parts,
        ) is None,
        tree_of(parts, part_for(href)) matches Some(root) ==> part_of(frame, parts) == Some(root)
            && math_in(frame, parts) == (if root.below("math"@).len() > 0 {
            Some(root.below("math"@)[0])
        } else {
            None
        }),
{
}

/// The paragraphs of a text are its children that are paragraphs or headings, and the frames of
/// one that hold an object are looked at.
pub proof fn law_which_frames_are_looked_at(
    text: Node,
    p: spec_fn(Node) -> bool,
    par: Node,
    q: spec_fn(Node) -> bool,
)
    requires
        forall|n: Node| #[trigger] p(n) == (n.local_name() == "p"@ || n.local_name() == "h"@),
        forall|n: Node| #[trigger] q(n) == (n.below("object"@).len() > 0),
    ensures
        blocks(text) == text.children@.filter(p),
        holding(par) == par.all_of("frame"@).filter(q),
{
    let a = |n: Node| n.local_name() == "p"@ || n.local_name() == "h"@;
    assert(a =~= p);
    let b = |f: Node| object_in(f) is Some;
    assert(b =~= q);
}

/// Each number of the report on a text is how many of its objects are so.
pub proof fn law_what_objects_are_counted_for(
    r: ObjectReport,
    text: Node,
    parts: Seq<PartTree>,
    limit: usize,
    e: Seq<Embedded>,
)
    requires
        r.describes(text, parts, limit),
        e == embedded(blocks(text)),
    ensures
        r.paragraphs_total == blocks(text).len(),
        r.objects_total == e.len(),
        r.math_found == e.filter(|x: Embedded| math_in(x.frame, parts) is Some).len(),
        r.objects_without_math == e.filter(|x: Embedded| math_in(x.frame, parts) is None).len(),
        r.parts_found == e.filter(|x: Embedded| part_of(x.frame, parts) is Some).len(),
        r.parts_missing == e.filter(|x: Embedded| part_of(x.frame, parts) is None).len(),
        r.block_written == e.filter(
            |x: Embedded|
                math_in(x.frame, parts) matches Some(m) && m.attr_exact("display"@) == Some(
                    "block"@,
                ),
        ).len(),
        r.inline_written == e.filter(
            |x: Embedded|
                math_in(x.frame, parts) matches Some(m) && m.attr_exact("display"@) == Some(
                    "inline"@,
                ),
        ).len(),
        r.annotations_found == e.filter(
            |x: Embedded|
                math_in(x.frame, parts) matches Some(m) && m.below("annotation"@).len() > 0,
        ).len(),
        r.replacements_written == e.filter(|x: Embedded| stand_in(x.frame) is Some).len(),
        r.items@.len() == limit || r.items@.len() == e.len(),
{
    crate::lists::law_a_tally_is_how_many_pass(
        e,
        |i: int| math_in(e[i].frame, parts) is Some,
        |x: Embedded| math_in(x.frame, parts) is Some,
    );
    crate::lists::law_a_tally_is_how_many_pass(
        e,
        |i: int| math_in(e[i].frame, parts) is None,
        |x: Embedded| math_in(x.frame, parts) is None,
    );
    crate::lists::law_a_tally_is_how_many_pass(
        e,
        |i: int| part_of(e[i].frame, parts) is Some,
        |x: Embedded| part_of(x.frame, parts) is Some,
    );
    crate::lists::law_a_tally_is_how_many_pass(
        e,
        |i: int| part_of(e[i].frame, parts) is None,
        |x: Embedded| part_of(x.frame, parts) is None,
    );
    crate::lists::law_a_tally_is_how_many_pass(
        e,
        |i: int| shown_as(e[i].frame, parts, "block"@),
        |x: Embedded|
            math_in(x.frame, parts) matches Some(m) && m.attr_exact("display"@) == Some("block"@),
    );
    crate::lists::law_a_tally_is_how_many_pass(
        e,
        |i: int| shown_as(e[i].frame, parts, "inline"@),
        |x: Embedded|
            math_in(x.frame, parts) matches Some(m) && m.attr_exact("display"@) == Some("inline"@),
    );
    crate::lists::law_a_tally_is_how_many_pass(
        e,
        |i: int| source_of(math_in(e[i].frame, parts)) is Some,
        |x: Embedded|
            math_in(x.frame, parts) matches Some(m) && m.below("annotation"@).len() > 0,
    );
    crate::lists::law_a_tally_is_how_many_pass(
        e,
        |i: int| stand_in(e[i].frame) is Some,
        |x: Embedded| stand_in(x.frame) is Some,
    );
}

/// The equations of a document are those of its first `body`. One without a body tells nothing.
pub proof fn law_the_body_holds_the_equations(
    document: &Node,
    limit: usize,
    r: Option<FormulaReport>,
)
    requires
        call_ensures(docx, (document, limit), r),
    ensures
        document.below("body"@).len() == 0 ==> r is None,
        document.below("body"@).len() > 0 ==> (r matches Some(report) && report.describes(
            *document,
            document.below("body"@)[0],
            limit,
        )),
{
}

/// What is counted over all equations of a document: the groups of its paragraphs, and the
/// characters of the texts of the equations.
pub proof fn law_groups_and_characters_are_counted(
    r: FormulaReport,
    document: Node,
    body: Node,
    limit: usize,
    ps: Seq<Node>,
    n: int,
)
    requires
        r.describes(document, body, limit),
        ps == body.all_of("p"@),
        0 <= n,
    ensures
        r.groups_total == joined(groups_fn(ps), ps.len() as int).len(),
        joined(groups_fn(ps), 0).len() == 0,
        joined(groups_fn(ps), n + 1).len() == joined(groups_fn(ps), n).len() + ps[n].all_of(
            "oMathPara"@,
        ).len(),
        r.text_chars == characters_in(formula_texts(formulas(ps), prefix_of(document) + ":"@)),
        ({
            let f = formulas(ps);
            let all = joined(pieces_fn(f, prefix_of(document) + ":"@), f.len() as int);
            let names = local_names(all.filter(|k: Node| is_structure(k)));
            texts(r.structures_seen@) == once_each(names, names.len() as int)
        }),
{
}

/// What is counted over all objects of a text: the frames of its paragraphs, the equations that do
/// not say how they are shown, the characters of their texts and the names of their elements.
pub proof fn law_frames_and_elements_are_counted(
    r: ObjectReport,
    text: Node,
    parts: Seq<PartTree>,
    limit: usize,
    ps: Seq<Node>,
    e: Seq<Embedded>,
    n: int,
)
    requires
        r.describes(text, parts, limit),
        ps == blocks(text),
        e == embedded(ps),
        0 <= n,
    ensures
        r.frames_seen == joined(frames_fn(ps), ps.len() as int).len(),
        joined(frames_fn(ps), 0).len() == 0,
        joined(frames_fn(ps), n + 1).len() == joined(frames_fn(ps), n).len() + ps[n].all_of(
            "frame"@,
        ).len(),
        r.display_missing == e.filter(
            |x: Embedded|
                math_in(x.frame, parts) matches Some(m) && m.attr_exact("display"@) != Some(
                    "block"@,
                ) && m.attr_exact("display"@) != Some("inline"@),
        ).len(),
        r.text_chars == characters_in(math_texts(e, parts)),
        ({
            let names = local_names(joined(elements_fn(e, parts), e.len() as int));
            texts(r.elements_seen@) == once_each(names, names.len() as int)
        }),
{
    crate::lists::law_a_tally_is_how_many_pass(
        e,
        |i: int| shown_somehow(e[i].frame, parts),
        |x: Embedded|
            math_in(x.frame, parts) matches Some(m) && m.attr_exact("display"@) != Some("block"@)
                && m.attr_exact("display"@) != Some("inline"@),
    );
}

} // verus!
