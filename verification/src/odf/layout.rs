//! Pictures, paragraphs, columns, page breaks and the table of contents of a text.

use crate::lists::{at_most, cut, each, lemma_filter_take};
use crate::odf::{
    all_held, ask_found, attr_of, attr_said, called, entry_in, everywhere, find_called, length_if,
    look_everywhere, look_in, measure, props_of, read_props, word_of, Found, Held,
};
use crate::paper::is_value;
use crate::text::{pair_texts, same, texts};
use crate::words::{trim, trimmed};
use crate::written::{
    ask, ask_some, count_nodes, find_below, first_below, go, keep_if, kept_attrs, kept_if,
    kept_table, lists, node_in, owned, pick_nodes, said_by, some_say, step, table_in, text_in,
};
use crate::xml::{local_of, local_part, nodes, Node};
use vstd::prelude::*;

verus! {

broadcast use {
    crate::text::lemma_texts_push,
    crate::text::lemma_pair_texts_push,
    crate::xml::lemma_nodes_push,
};

/// One picture. Its sizes are in hundredths of a millimetre.
#[derive(Debug, Clone)]
pub struct Picture {
    pub written: Vec<(String, String)>,
    pub placed: Option<String>,
    pub style: Option<String>,
    pub mm_w: Option<i64>,
    pub mm_h: Option<i64>,
    pub href: Option<String>,
    pub mime: Option<String>,
    pub image_written: Option<Vec<(String, String)>>,
    /// The alternative text; an empty one is not a missing one.
    pub alt: Option<String>,
}

/// What an attribute of a node that may not be there says, copies under `calcext` left out.
pub open spec fn said_of(n: Option<Node>, want: Seq<char>) -> Option<Seq<char>> {
    match n {
        Some(x) => attr_said(x, want),
        None => None,
    }
}

fn ask_of(n: Option<&Node>, want: &str) -> (r: Option<String>)
    ensures
        text_in(r) == said_of(node_in(n), want@),
{
    match n {
        Some(x) => owned(attr_of(x, want)),
        None => None,
    }
}

impl Picture {
    pub open spec fn describes(self, frame: Node) -> bool {
        let image = frame.child_of("image"@);
        &&& pair_texts(self.written@) == kept_table(frame)
        &&& text_in(self.placed) == frame.attr_text("anchor-type"@)
        &&& text_in(self.style) == frame.attr_text("style-name"@)
        &&& is_value(self.mm_w, length_if(frame.attr_text("width"@)))
        &&& is_value(self.mm_h, length_if(frame.attr_text("height"@)))
        &&& text_in(self.href) == said_of(image, "href"@)
        &&& text_in(self.mime) == said_of(image, "mime-type"@)
        &&& table_in(self.image_written) == kept_if(image)
        &&& text_in(self.alt) == match frame.child_of("desc"@) {
            Some(d) => Some(d.full_text()),
            None => None,
        }
    }
}

fn read_picture(frame: &Node) -> (r: Picture)
    ensures
        r.describes(*frame),
{
    let image: Option<&Node> = frame.child("image");
    Picture {
        written: kept_attrs(frame),
        placed: owned(frame.attr_local("anchor-type")),
        style: owned(frame.attr_local("style-name")),
        mm_w: measure(&owned(frame.attr_local("width"))),
        mm_h: measure(&owned(frame.attr_local("height"))),
        href: ask_of(image, "href"),
        mime: ask_of(image, "mime-type"),
        image_written: keep_if(image),
        alt: match frame.child("desc") {
            Some(d) => Some(d.text()),
            None => None,
        },
    }
}

/// The frames that hold an image.
pub open spec fn all_pictures(body: Node) -> Seq<Node> {
    body.below("frame"@).filter(|n: Node| n.child_of("image"@) is Some)
}

/// The frames that hold an image, at most `limit` of them.
pub open spec fn pictures_of(body: Node, limit: usize) -> Seq<Node> {
    let all = all_pictures(body);
    all.take(at_most(all.len(), limit) as int)
}

/// The frames that hold an image.
pub fn find_pictures<'a>(body: &'a Node) -> (r: Vec<&'a Node>)
    ensures
        nodes(r@) == all_pictures(*body),
{
    let all: Vec<&'a Node> = body.descendants("frame");
    pick_nodes(
        &all,
        |n: &Node| -> (b: bool)
            ensures
                b == (n.child_of("image"@) is Some)
            { n.child("image").is_some() },
        Ghost(|n: Node| n.child_of("image"@) is Some),
    )
}

/// The pictures of a text, at most `limit` of them. A frame that holds something else than an
/// image is none.
pub fn odt_pictures(body: &Node, limit: usize) -> (r: Vec<Picture>)
    ensures
        r@.len() == pictures_of(*body, limit).len(),
        forall|i: int|
            0 <= i < r@.len() ==> (#[trigger] r@[i]).describes(pictures_of(*body, limit)[i]),
{
    let kept: Vec<&Node> = find_pictures(body);
    assert(nodes(kept@).len() == kept@.len());
    let out: Vec<Picture> = each(
        &kept,
        cut(kept.len(), limit),
        |i: usize, f: &&Node| -> (r: Picture)
            ensures
                r.describes(**f)
            { read_picture(f) },
    );
    assert forall|i: int| 0 <= i < out@.len() implies (#[trigger] out@[i]).describes(
        pictures_of(*body, limit)[i],
    ) by {
        assert(nodes(kept@)[i] == *kept@[i]);
    }
    out
}

/// The table of contents of a text. Without one nothing else is told.
#[derive(Debug, Clone)]
pub struct Contents {
    pub present: bool,
    pub names: Vec<String>,
    pub outline_level: Option<String>,
    pub entry_templates: usize,
    pub title: Option<String>,
}

/// The title that a table of contents gives itself, if it is not blank.
pub open spec fn title_in(root: Node) -> Option<Seq<char>> {
    match first_below(root, "index-title-template"@) {
        Some(n) => if trimmed(n.full_text()).len() > 0 {
            Some(trimmed(n.full_text()))
        } else {
            None
        },
        None => None,
    }
}

impl Contents {
    pub open spec fn describes(self, root: Node) -> bool {
        let blocks = root.below("table-of-content"@);
        &&& self.present == (blocks.len() > 0)
        &&& texts(self.names@) == some_say(blocks, "name"@, blocks.len() as int)
        &&& text_in(self.outline_level) == if blocks.len() > 0 {
            said_by(first_below(root, "table-of-content-source"@), "outline-level"@)
        } else {
            None
        }
        &&& self.entry_templates == if blocks.len() > 0 {
            root.below("table-of-content-entry-template"@).len()
        } else {
            0
        }
        &&& text_in(self.title) == if blocks.len() > 0 {
            title_in(root)
        } else {
            None
        }
    }
}

/// The table of contents of a text.
pub fn odf_contents(root: &Node) -> (r: Contents)
    ensures
        r.describes(*root),
{
    let blocks: Vec<&Node> = root.descendants("table-of-content");
    assert(nodes(blocks@).len() == blocks@.len());
    let names: Vec<String> = ask_some(&blocks, "name");
    if blocks.len() == 0 {
        return Contents {
            present: false,
            names,
            outline_level: None,
            entry_templates: 0,
            title: None,
        };
    }
    let templates: Vec<&Node> = root.descendants("table-of-content-entry-template");
    assert(nodes(templates@).len() == templates@.len());
    let title: Option<String> = match find_below(root, "index-title-template") {
        Some(n) => {
            let text: String = n.text();
            let raw: &str = trim(text.as_str());
            if raw.unicode_len() > 0 {
                Some(raw.to_owned())
            } else {
                None
            }
        },
        None => None,
    };
    Contents {
        present: true,
        names,
        outline_level: ask(find_below(root, "table-of-content-source"), "outline-level"),
        entry_templates: templates.len(),
        title,
    }
}

/// A paragraph style that begins a new page.
pub open spec fn breaks_page(style: Node) -> bool {
    style.attr_text("family"@) == Some("paragraph"@) && said_by(
        style.child_of("paragraph-properties"@),
        "break-before"@,
    ) == Some("page"@)
}

/// The names of the styles that begin a new page.
pub open spec fn breaking(root: Node) -> Seq<Seq<char>> {
    let all = root.below("style"@).filter(|n: Node| breaks_page(n));
    some_say(all, "name"@, all.len() as int)
}

/// The paragraph names one of those styles.
pub open spec fn names_one(p: Node, names: Seq<Seq<char>>) -> bool {
    match p.attr_text("style-name"@) {
        Some(had) => names.contains(had),
        None => false,
    }
}

/// How many paragraphs and headings name a style that begins a new page. What a style inherits
/// is not asked.
pub fn odf_page_breaks(root: &Node, text_body: &Node) -> (r: usize)
    ensures
        r == (text_body.below("p"@) + text_body.below("h"@)).filter(
            |n: Node| names_one(n, breaking(*root)),
        ).len(),
{
    let all: Vec<&Node> = root.descendants("style");
    let ghost s = nodes(all@);
    let ghost p = |n: Node| breaks_page(n);
    let mut kept: Vec<&Node> = Vec::new();
    let mut i: usize = 0;
    assert(nodes(kept@) =~= s.take(0).filter(p)) by {
        reveal(Seq::filter);
    }
    while i < all.len()
        invariant
            i <= all@.len(),
            s == nodes(all@),
            p == (|n: Node| breaks_page(n)),
            nodes(kept@) == s.take(i as int).filter(p),
        decreases all@.len() - i,
    {
        proof {
            lemma_filter_take(s, p, i as int);
        }
        let family: Option<&str> = all[i].attr_local("family");
        let breaks: Option<String> = ask(all[i].child("paragraph-properties"), "break-before");
        if let (Some(f), Some(b)) = (family, breaks) {
            if same(f, "paragraph") && same(b.as_str(), "page") {
                kept.push(all[i]);
            }
        }
        i += 1;
    }
    assert(s.take(i as int) =~= s);
    assert(nodes(kept@).len() == kept@.len());
    let names: Vec<String> = ask_some(&kept, "name");
    let ghost want = breaking(*root);
    assert(texts(names@) == want);
    let mut both: Vec<&Node> = text_body.descendants("p");
    let mut heads: Vec<&Node> = text_body.descendants("h");
    let ghost a = nodes(both@);
    let ghost b = nodes(heads@);
    both.append(&mut heads);
    assert(nodes(both@) =~= a + b);
    count_naming(&both, &names)
}

fn count_naming(ps: &Vec<&Node>, names: &Vec<String>) -> (r: usize)
    ensures
        r == nodes(ps@).filter(|n: Node| names_one(n, texts(names@))).len(),
{
    count_nodes(
        ps,
        |n: &Node| -> (b: bool)
            ensures
                b == names_one(*n, texts(names@))
            {
                match n.attr_local("style-name") {
                    Some(had) => lists(names, had),
                    None => false,
                }
            },
        Ghost(|n: Node| names_one(n, texts(names@))),
    )
}

/// The entries of a table whose local names are among `want`.
pub open spec fn picked(
    t: Seq<(Seq<char>, Seq<char>)>,
    want: spec_fn(Seq<char>) -> bool,
    n: int,
) -> Seq<(Seq<char>, Seq<char>)>
    decreases n,
{
    if n <= 0 {
        Seq::empty()
    } else if want(local_part(t[n - 1].0)) {
        picked(t, want, n - 1).push(t[n - 1])
    } else {
        picked(t, want, n - 1)
    }
}

/// The property is one of the indents.
pub open spec fn is_indent(name: Seq<char>) -> bool {
    name == "margin-left"@ || name == "margin-right"@ || name == "text-indent"@ || name
        == "auto-text-indent"@
}

/// The property is one of the spacings.
pub open spec fn is_spacing(name: Seq<char>) -> bool {
    name == "margin-top"@ || name == "margin-bottom"@ || name == "line-height"@ || name
        == "contextual-spacing"@
}

fn pick_attrs(t: &Vec<(String, String)>, want: [&str; 4]) -> (r: Vec<(String, String)>)
    ensures
        pair_texts(r@) == picked(
            pair_texts(t@),
            |name: Seq<char>|
                name == want@[0]@ || name == want@[1]@ || name == want@[2]@ || name
                    == want@[3]@,
            t@.len() as int,
        ),
{
    let ghost q = |name: Seq<char>|
        name == want@[0]@ || name == want@[1]@ || name == want@[2]@ || name == want@[3]@;
    let mut out: Vec<(String, String)> = Vec::new();
    let mut i: usize = 0;
    assert(pair_texts(out@) =~= picked(pair_texts(t@), q, 0));
    while i < t.len()
        invariant
            i <= t@.len(),
            q == (|name: Seq<char>|
                name == want@[0]@ || name == want@[1]@ || name == want@[2]@ || name
                    == want@[3]@),
            pair_texts(out@) == picked(pair_texts(t@), q, i as int),
        decreases t@.len() - i,
    {
        let name: &str = local_of(t[i].0.as_str());
        assert(pair_texts(t@)[i as int] == (t@[i as int].0@, t@[i as int].1@));
        if same(name, want[0]) || same(name, want[1]) || same(name, want[2]) || same(
            name,
            want[3],
        ) {
            out.push((t[i].0.clone(), t[i].1.clone()));
        }
        i += 1;
    }
    out
}

fn pick_indents(t: &Vec<(String, String)>) -> (r: Vec<(String, String)>)
    ensures
        pair_texts(r@) == picked(
            pair_texts(t@),
            |name: Seq<char>| is_indent(name),
            t@.len() as int,
        ),
{
    let want: [&str; 4] = ["margin-left", "margin-right", "text-indent", "auto-text-indent"];
    let r: Vec<(String, String)> = pick_attrs(t, want);
    assert((|name: Seq<char>| is_indent(name)) =~= (|name: Seq<char>|
        name == want@[0]@ || name == want@[1]@ || name == want@[2]@ || name == want@[3]@));
    r
}

fn pick_spacings(t: &Vec<(String, String)>) -> (r: Vec<(String, String)>)
    ensures
        pair_texts(r@) == picked(
            pair_texts(t@),
            |name: Seq<char>| is_spacing(name),
            t@.len() as int,
        ),
{
    let want: [&str; 4] = ["margin-top", "margin-bottom", "line-height", "contextual-spacing"];
    let r: Vec<(String, String)> = pick_attrs(t, want);
    assert((|name: Seq<char>| is_spacing(name)) =~= (|name: Seq<char>|
        name == want@[0]@ || name == want@[1]@ || name == want@[2]@ || name == want@[3]@));
    r
}

/// What the style of a paragraph writes, sorted out.
#[derive(Debug, Clone)]
pub struct Shape {
    pub alignment: Option<String>,
    pub indent: Vec<(String, String)>,
    pub spacing: Vec<(String, String)>,
}

impl Shape {
    pub open spec fn describes(self, t: Seq<(Seq<char>, Seq<char>)>) -> bool {
        &&& text_in(self.alignment) == entry_in(Some(t), "fo:text-align"@)
        &&& pair_texts(self.indent@) == picked(
            t,
            |name: Seq<char>| is_indent(name),
            t.len() as int,
        )
        &&& pair_texts(self.spacing@) == picked(
            t,
            |name: Seq<char>| is_spacing(name),
            t.len() as int,
        )
    }
}

/// The style of the content that a paragraph names. One that stands elsewhere is a default of
/// the document and nothing that the paragraph says.
pub open spec fn style_of(p: Node, styles: Seq<Held>) -> Option<Held> {
    called(styles, "paragraph"@, "text"@, p.attr_text("style-name"@))
}

/// What that style writes about paragraphs.
pub open spec fn format_of(p: Node, styles: Seq<Held>) -> Option<Seq<(Seq<char>, Seq<char>)>> {
    props_of(style_of(p, styles), "paragraph-properties"@)
}

/// One paragraph.
#[derive(Debug, Clone)]
pub struct ParagraphRow {
    pub index: usize,
    pub style: Option<String>,
    pub resolved: bool,
    pub family: Option<String>,
    pub parent: Option<String>,
    pub written: Option<Vec<(String, String)>>,
    /// What is written, sorted out, where something is.
    pub shape: Option<Shape>,
}

impl ParagraphRow {
    pub open spec fn describes(self, p: Node, i: int, styles: Seq<Held>) -> bool {
        let found = style_of(p, styles);
        let t = format_of(p, styles);
        &&& self.index == i
        &&& text_in(self.style) == p.attr_text("style-name"@)
        &&& self.resolved == (found is Some)
        &&& text_in(self.family) == word_of(found, "family"@)
        &&& text_in(self.parent) == word_of(found, "parent-style-name"@)
        &&& table_in(self.written) == t
        &&& match t {
            Some(m) => self.shape matches Some(s) && s.describes(m),
            None => self.shape is None,
        }
    }
}

fn read_paragraph(p: &Node, i: usize, styles: &Vec<Found>) -> (r: ParagraphRow)
    ensures
        r.describes(*p, i as int, all_held(styles@)),
{
    let found: Option<Found> = find_called(styles, "paragraph", "text", p.attr_local("style-name"));
    let written: Option<Vec<(String, String)>> = read_props(found, "paragraph-properties");
    let alignment: Option<String> = look_in(&written, "fo:text-align");
    let shape: Option<Shape> = match &written {
        Some(t) => {
            assert(pair_texts(t@).len() == t@.len());
            Some(Shape { alignment, indent: pick_indents(t), spacing: pick_spacings(t) })
        },
        None => None,
    };
    ParagraphRow {
        index: i,
        style: owned(p.attr_local("style-name")),
        resolved: found.is_some(),
        family: ask_found(found, "family"),
        parent: ask_found(found, "parent-style-name"),
        written,
        shape,
    }
}

/// What paragraphs look like.
#[derive(Debug, Clone)]
pub struct ParagraphReport {
    pub checked: usize,
    pub resolved: usize,
    pub list: Vec<ParagraphRow>,
}

impl ParagraphReport {
    pub open spec fn describes(self, ps: Seq<Node>, root: Node, limit: usize) -> bool {
        let styles = everywhere(root, None, "style"@);
        &&& self.checked == ps.len()
        &&& self.resolved == ps.filter(|p: Node| format_of(p, styles) is Some).len()
        &&& self.list@.len() == at_most(ps.len(), limit)
        &&& forall|i: int|
            0 <= i < self.list@.len() ==> (#[trigger] self.list@[i]).describes(ps[i], i, styles)
    }
}

/// What the styles of the content say about the paragraphs that name them, at most `limit`
/// paragraphs.
pub fn odf_paragraph_formats(paragraphs: &Vec<&Node>, root: &Node, limit: usize) -> (r:
    ParagraphReport)
    ensures
        r.describes(nodes(paragraphs@), *root, limit),
{
    let ghost ps = nodes(paragraphs@);
    assert(ps.len() == paragraphs@.len());
    let styles: Vec<Found> = look_everywhere(root, None, "style");
    let ghost s = all_held(styles@);
    let resolved: usize = count_nodes(
        paragraphs,
        |p: &Node| -> (b: bool)
            ensures
                b == (format_of(*p, s) is Some)
            {
                read_props(
                    find_called(&styles, "paragraph", "text", p.attr_local("style-name")),
                    "paragraph-properties",
                ).is_some()
            },
        Ghost(|p: Node| format_of(p, s) is Some),
    );
    let list: Vec<ParagraphRow> = each(
        paragraphs,
        cut(paragraphs.len(), limit),
        |i: usize, p: &&Node| -> (r: ParagraphRow)
            ensures
                r.describes(**p, i as int, s)
            { read_paragraph(p, i, &styles) },
    );
    assert forall|i: int| 0 <= i < list@.len() implies (#[trigger] list@[i]).describes(
        ps[i],
        i,
        s,
    ) by {
        assert(ps[i] == *paragraphs@[i]);
    }
    ParagraphReport { checked: paragraphs.len(), resolved, list }
}

/// One section.
#[derive(Debug, Clone)]
pub struct SectionRow {
    pub name: Option<String>,
    pub style: Option<String>,
    pub resolved: bool,
    pub has_properties: bool,
    pub written: Option<Vec<(String, String)>>,
    pub parts: Vec<Vec<(String, String)>>,
    pub dont_balance: Option<String>,
}

/// The properties of the style that a section names.
pub open spec fn section_props(n: Node, styles: Seq<Held>) -> Option<Node> {
    match called(styles, "section"@, "section"@, n.attr_text("style-name"@)) {
        Some(h) => h.node.child_of("section-properties"@),
        None => None,
    }
}

/// The columns that are written one by one.
pub open spec fn columns_in(cols: Option<Node>) -> Seq<Node> {
    match cols {
        Some(n) => n.all_of("column"@),
        None => Seq::empty(),
    }
}

impl SectionRow {
    pub open spec fn describes(self, n: Node, styles: Seq<Held>) -> bool {
        let props = section_props(n, styles);
        let cols = step(props, "columns"@);
        &&& text_in(self.name) == n.attr_text("name"@)
        &&& text_in(self.style) == n.attr_text("style-name"@)
        &&& self.resolved == (called(
            styles,
            "section"@,
            "section"@,
            n.attr_text("style-name"@),
        ) is Some)
        &&& self.has_properties == (props is Some)
        &&& table_in(self.written) == kept_if(cols)
        &&& self.parts@.len() == columns_in(cols).len()
        &&& forall|i: int|
            0 <= i < self.parts@.len() ==> pair_texts((#[trigger] self.parts@[i])@) == kept_table(
                columns_in(cols)[i],
            )
        &&& text_in(self.dont_balance) == said_by(props, "dont-balance-text-columns"@)
    }
}

fn find_props<'a>(n: &Node, styles: &Vec<Found<'a>>) -> (r: Option<&'a Node>)
    ensures
        node_in(r) == section_props(*n, all_held(styles@)),
{
    match find_called(styles, "section", "section", n.attr_local("style-name")) {
        Some(f) => f.node.child("section-properties"),
        None => None,
    }
}

fn read_section(n: &Node, styles: &Vec<Found>) -> (r: SectionRow)
    ensures
        r.describes(*n, all_held(styles@)),
{
    let found: Option<Found> = find_called(
        styles,
        "section",
        "section",
        n.attr_local("style-name"),
    );
    let props: Option<&Node> = find_props(n, styles);
    let cols: Option<&Node> = go(props, "columns");
    let kids: Vec<&Node> = match cols {
        Some(n) => n.all("column"),
        None => Vec::new(),
    };
    assert(nodes(kids@) =~= columns_in(node_in(cols)));
    assert(nodes(kids@).len() == kids@.len());
    let parts: Vec<Vec<(String, String)>> = each(
        &kids,
        kids.len(),
        |i: usize, n: &&Node| -> (r: Vec<(String, String)>)
            ensures
                pair_texts(r@) == kept_table(**n)
            { kept_attrs(n) },
    );
    assert forall|i: int| 0 <= i < parts@.len() implies pair_texts((#[trigger] parts@[i])@)
        == kept_table(columns_in(node_in(cols))[i]) by {
        assert(nodes(kids@)[i] == *kids@[i]);
    }
    SectionRow {
        name: owned(n.attr_local("name")),
        style: owned(n.attr_local("style-name")),
        resolved: found.is_some(),
        has_properties: props.is_some(),
        written: keep_if(cols),
        parts,
        dont_balance: ask(props, "dont-balance-text-columns"),
    }
}

/// What sections say about their columns. The counts are over all sections.
#[derive(Debug, Clone)]
pub struct SectionReport {
    pub sections: usize,
    pub written: usize,
    pub list: Vec<SectionRow>,
}

impl SectionReport {
    pub open spec fn describes(self, root: Node, limit: usize) -> bool {
        let s = root.below("section"@);
        let styles = everywhere(root, None, "style"@);
        &&& self.sections == s.len()
        &&& self.written == s.filter(
            |n: Node| step(section_props(n, styles), "columns"@) is Some,
        ).len()
        &&& self.list@.len() == at_most(s.len(), limit)
        &&& forall|i: int|
            0 <= i < self.list@.len() ==> (#[trigger] self.list@[i]).describes(s[i], styles)
    }
}

/// What the styles of sections say about columns. At most `limit` sections are listed.
pub fn odf_columns(root: &Node, limit: usize) -> (r: SectionReport)
    ensures
        r.describes(*root, limit),
{
    let all: Vec<&Node> = root.descendants("section");
    let ghost s = nodes(all@);
    assert(s.len() == all@.len());
    let styles: Vec<Found> = look_everywhere(root, None, "style");
    let ghost t = all_held(styles@);
    let written: usize = count_nodes(
        &all,
        |n: &Node| -> (b: bool)
            ensures
                b == (step(section_props(*n, t), "columns"@) is Some)
            { go(find_props(n, &styles), "columns").is_some() },
        Ghost(|n: Node| step(section_props(n, t), "columns"@) is Some),
    );
    let list: Vec<SectionRow> = each(
        &all,
        cut(all.len(), limit),
        |i: usize, n: &&Node| -> (r: SectionRow)
            ensures
                r.describes(**n, t)
            { read_section(n, &styles) },
    );
    assert forall|i: int| 0 <= i < list@.len() implies (#[trigger] list@[i]).describes(s[i], t) by {
        assert(s[i] == *all@[i]);
    }
    SectionReport { sections: all.len(), written, list }
}

/// A picture is told as its frame and the image in it write it.
pub proof fn law_what_a_picture_says(r: Picture, frame: Node, image: Node)
    requires
        r.describes(frame),
        frame.child_of("image"@) == Some(image),
    ensures
        text_in(r.placed) == frame.attr_text("anchor-type"@),
        text_in(r.style) == frame.attr_text("style-name"@),
        frame.attr_text("width"@) is None ==> r.mm_w is None,
        frame.attr_text("width"@) matches Some(raw) ==> is_value(
            r.mm_w,
            crate::paper::length_of(raw),
        ),
        frame.attr_text("height"@) is None ==> r.mm_h is None,
        frame.attr_text("height"@) matches Some(raw) ==> is_value(
            r.mm_h,
            crate::paper::length_of(raw),
        ),
        text_in(r.href) == attr_said(image, "href"@),
        text_in(r.mime) == attr_said(image, "mime-type"@),
        frame.child_of("desc"@) is None ==> r.alt is None,
        frame.child_of("desc"@) matches Some(d) ==> text_in(r.alt) == Some(d.full_text()),
        pair_texts(r.written@) == kept_table(frame),
        table_in(r.image_written) == Some(kept_table(image)),
{
}

/// The pictures of a text are its frames that hold an image.
pub proof fn law_which_frames_are_pictures(body: Node, n: Node)
    ensures
        all_pictures(body).contains(n) <==> body.below("frame"@).contains(n) && n.child_of("image"@)
            is Some,
{
    let f = body.below("frame"@);
    let p = |n: Node| n.child_of("image"@) is Some;
    let all = all_pictures(body);
    if all.contains(n) {
        let k = choose|k: int| 0 <= k < all.len() && all[k] == n;
        f.lemma_filter_pred(p, k);
        f.lemma_filter_contains_rev(p, n);
    }
    if f.contains(n) && n.child_of("image"@) is Some {
        let k = choose|k: int| 0 <= k < f.len() && f[k] == n;
        assert(p(f[k]));
        f.lemma_filter_contains(p, k);
    }
}

/// The table of contents of a text: there is one where an element says so, and only then its
/// levels, its templates and its title are told; a title of blanks is none.
pub proof fn law_what_a_table_of_contents_says(r: Contents, root: Node)
    requires
        r.describes(root),
    ensures
        r.present <==> root.below("table-of-content"@).len() > 0,
        !r.present ==> r.outline_level is None && r.entry_templates == 0 && r.title is None,
        texts(r.names@) == some_say(
            root.below("table-of-content"@),
            "name"@,
            root.below("table-of-content"@).len() as int,
        ),
        r.present ==> r.entry_templates == root.below("table-of-content-entry-template"@).len(),
        r.present && root.below("table-of-content-source"@).len() > 0 ==> text_in(r.outline_level)
            == root.below("table-of-content-source"@)[0].attr_text("outline-level"@),
        r.present && root.below("index-title-template"@).len() > 0 ==> {
            let t = trimmed(root.below("index-title-template"@)[0].full_text());
            if t.len() > 0 {
                text_in(r.title) == Some(t)
            } else {
                r.title is None
            }
        },
        root.below("index-title-template"@).len() == 0 ==> r.title is None,
{
}

/// A style begins a new page where it is one of paragraphs and its properties say so; a paragraph
/// does where it names one.
pub proof fn law_what_begins_a_page(style: Node, props: Node, p: Node, names: Seq<Seq<char>>)
    ensures
        style.attr_text("family"@) != Some("paragraph"@) ==> !breaks_page(style),
        style.child_of("paragraph-properties"@) is None ==> !breaks_page(style),
        style.attr_text("family"@) == Some("paragraph"@) && style.child_of("paragraph-properties"@)
            == Some(props) ==> (breaks_page(style) <==> props.attr_text("break-before"@) == Some(
            "page"@,
        )),
        p.attr_text("style-name"@) is None ==> !names_one(p, names),
        p.attr_text("style-name"@) matches Some(name) ==> (names_one(p, names) <==> names.contains(
            name,
        )),
{
}

/// The names of the styles that begin a page are those that such styles give themselves.
pub proof fn law_which_names_begin_a_page(root: Node, q: spec_fn(Node) -> bool)
    requires
        forall|n: Node| #[trigger] q(n) == breaks_page(n),
    ensures
        breaking(root) == some_say(
            root.below("style"@).filter(q),
            "name"@,
            root.below("style"@).filter(q).len() as int,
        ),
{
    let p = |n: Node| breaks_page(n);
    assert(p =~= q);
}

/// The entries that are picked out are those of the names, in their order.
pub proof fn law_what_is_picked_out(
    t: Seq<(Seq<char>, Seq<char>)>,
    want: spec_fn(Seq<char>) -> bool,
    n: int,
)
    requires
        0 <= n,
    ensures
        picked(t, want, 0).len() == 0,
        want(local_part(t[n].0)) ==> picked(t, want, n + 1) == picked(t, want, n).push(t[n]),
        !want(local_part(t[n].0)) ==> picked(t, want, n + 1) == picked(t, want, n),
{
}

/// Four properties are indents and four are spacings, and none is both.
pub proof fn law_which_properties_are_indents_and_spacings(name: Seq<char>)
    ensures
        is_indent("margin-left"@) && is_indent("margin-right"@) && is_indent("text-indent"@)
            && is_indent("auto-text-indent"@),
        is_spacing("margin-top"@) && is_spacing("margin-bottom"@) && is_spacing("line-height"@)
            && is_spacing("contextual-spacing"@),
        is_indent(name) ==> name == "margin-left"@ || name == "margin-right"@ || name
            == "text-indent"@ || name == "auto-text-indent"@,
        is_spacing(name) ==> name == "margin-top"@ || name == "margin-bottom"@ || name
            == "line-height"@ || name == "contextual-spacing"@,
{
}

/// What is told of a paragraph: the style it names, and what that style of the content writes
/// about paragraphs.
pub proof fn law_what_a_paragraph_says(
    r: ParagraphRow,
    p: Node,
    i: int,
    styles: Seq<Held>,
    h: Held,
    props: Node,
)
    requires
        r.describes(p, i, styles),
        called(styles, "paragraph"@, "text"@, p.attr_text("style-name"@)) == Some(h),
        h.node.child_of("paragraph-properties"@) == Some(props),
    ensures
        r.index == i,
        text_in(r.style) == p.attr_text("style-name"@),
        r.resolved,
        text_in(r.family) == h.node.attr_text("family"@),
        text_in(r.parent) == h.node.attr_text("parent-style-name"@),
        table_in(r.written) == Some(kept_table(props)),
        r.shape matches Some(s) && text_in(s.alignment) == crate::written::entry_of(
            kept_table(props),
            "fo:text-align"@,
        ),
        r.shape matches Some(s) && pair_texts(s.indent@) == picked(
            kept_table(props),
            |name: Seq<char>| is_indent(name),
            kept_table(props).len() as int,
        ),
        r.shape matches Some(s) && pair_texts(s.spacing@) == picked(
            kept_table(props),
            |name: Seq<char>| is_spacing(name),
            kept_table(props).len() as int,
        ),
{
}

/// A paragraph whose style is not there says nothing of its shape.
pub proof fn law_a_paragraph_without_its_style(r: ParagraphRow, p: Node, i: int, styles: Seq<Held>)
    requires
        r.describes(p, i, styles),
        called(styles, "paragraph"@, "text"@, p.attr_text("style-name"@)) is None,
    ensures
        !r.resolved,
        r.family is None && r.parent is None && r.written is None && r.shape is None,
{
}

/// The report on paragraphs goes by the styles of the content alone.
pub proof fn law_which_styles_count_for_paragraphs(
    r: ParagraphReport,
    ps: Seq<Node>,
    root: Node,
    limit: usize,
    i: int,
)
    requires
        r.describes(ps, root, limit),
    ensures
        r.checked == ps.len(),
        r.list@.len() <= limit,
        r.list@.len() == limit || r.list@.len() == ps.len(),
        0 <= i < r.list@.len() ==> r.list@[i].describes(ps[i], i, everywhere(root, None, "style"@)),
        r.resolved == ps.filter(
            |p: Node| format_of(p, everywhere(root, None, "style"@)) is Some,
        ).len(),
{
}

/// What is told of a section: its name, the style it names, and the columns that the style writes.
pub proof fn law_what_a_section_says(
    r: SectionRow,
    n: Node,
    styles: Seq<Held>,
    h: Held,
    props: Node,
)
    requires
        r.describes(n, styles),
        called(styles, "section"@, "section"@, n.attr_text("style-name"@)) == Some(h),
        h.node.child_of("section-properties"@) == Some(props),
    ensures
        text_in(r.name) == n.attr_text("name"@),
        text_in(r.style) == n.attr_text("style-name"@),
        r.resolved,
        r.has_properties,
        text_in(r.dont_balance) == props.attr_text("dont-balance-text-columns"@),
        props.child_of("columns"@) is None ==> r.written is None && r.parts@.len() == 0,
        props.child_of("columns"@) matches Some(c) ==> table_in(r.written) == Some(kept_table(c))
            && r.parts@.len() == c.all_of("column"@).len(),
{
}

/// The sections of a document are counted, and those whose style writes columns.
pub proof fn law_which_sections_have_columns(r: SectionReport, root: Node, limit: usize)
    requires
        r.describes(root, limit),
    ensures
        r.sections == root.below("section"@).len(),
        r.written == root.below("section"@).filter(
            |n: Node|
                called(
                    everywhere(root, None, "style"@),
                    "section"@,
                    "section"@,
                    n.attr_text("style-name"@),
                ) matches Some(h) && h.node.child_of("section-properties"@) matches Some(x)
                    && x.child_of("columns"@) is Some,
        ).len(),
{
    let styles = everywhere(root, None, "style"@);
    let a = |n: Node| step(section_props(n, styles), "columns"@) is Some;
    let b = |n: Node|
        called(styles, "section"@, "section"@, n.attr_text("style-name"@)) matches Some(h)
            && h.node.child_of("section-properties"@) matches Some(x) && x.child_of("columns"@)
            is Some;
    assert(a =~= b);
}

/// How many new pages a text asks for: how many of its paragraphs `p` and of its headings `h` name
/// a style that begins one.
pub proof fn law_how_many_pages_are_begun(
    root: &Node,
    body: &Node,
    r: usize,
    q: spec_fn(Node) -> bool,
)
    requires
        call_ensures(odf_page_breaks, (root, body), r),
        forall|n: Node| #[trigger] q(n) == names_one(n, breaking(*root)),
    ensures
        r == body.below("p"@).filter(q).len() + body.below("h"@).filter(q).len(),
{
    let a = |n: Node| names_one(n, breaking(*root));
    assert(a =~= q);
    Seq::filter_distributes_over_add(body.below("p"@), body.below("h"@), q);
}

} // verus!
