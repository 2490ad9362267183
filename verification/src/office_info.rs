//! What an office file is, who wrote it, and whether what its package says of itself holds.

use crate::cfb::{Cfb, Entry};
use crate::document::Family;
use crate::entries::Check;
use crate::equations::{find_tree, tree_of, PartTree};
use crate::lists::{count_those, ints, pick_those, tally, those};
use crate::text::{dec, pair_texts, push_dec, same, string_together, strung, texts};
use crate::words::{begins, ends_with, finishes, starts_with};
use crate::written::{count_nodes, find_below, first_below, node_in, text_in};
use crate::xml::{nodes, Node};
use vstd::prelude::*;

verus! {

broadcast use {
    crate::text::lemma_texts_push,
    crate::text::lemma_pair_texts_push,
    crate::xml::lemma_nodes_push,
};

impl Family {
    pub open spec fn container_text(self) -> Seq<char> {
        match self {
            Family::Compound => "MS-CFB compound file"@,
            Family::Rtf => "RTF text"@,
            Family::Ooxml => "ZIP (OPC package)"@,
            Family::Odf => "ZIP (OpenDocument package)"@,
            Family::Zip => "ZIP"@,
            Family::Other => "unknown"@,
        }
    }

    /// What a file of the family is packed in.
    pub fn container(self) -> (r: &'static str)
        ensures
            r@ == self.container_text(),
    {
        match self {
            Family::Compound => "MS-CFB compound file",
            Family::Rtf => "RTF text",
            Family::Ooxml => "ZIP (OPC package)",
            Family::Odf => "ZIP (OpenDocument package)",
            Family::Zip => "ZIP",
            Family::Other => "unknown",
        }
    }

    /// A family whose files are ZIP packages.
    pub open spec fn zipped(self) -> bool {
        self == Family::Ooxml || self == Family::Odf || self == Family::Zip
    }

    /// Whether the files of the family are ZIP packages.
    pub fn is_zip(self) -> (r: bool)
        ensures
            r == self.zipped(),
    {
        match self {
            Family::Ooxml | Family::Odf | Family::Zip => true,
            _ => false,
        }
    }
}

/// A member that holds a picture or a recording.
pub open spec fn is_media(name: Seq<char>) -> bool {
    begins(name, "word/media/"@) || begins(name, "xl/media/"@) || begins(name, "ppt/media/"@)
        || begins(name, "Pictures/"@)
}

/// How many of the members hold a picture or a recording.
pub fn count_media(names: &Vec<String>) -> (r: usize)
    ensures
        r == tally(|i: int| is_media(texts(names@)[i]), names@.len() as int),
{
    let ghost t = texts(names@);
    count_those(
        names.len(),
        |i: usize| -> (b: bool)
            requires
                i < names@.len()
            ensures
                b == is_media(t[i as int])
            {
                assert(t[i as int] == names@[i as int]@);
                let name: &str = names[i].as_str();
                starts_with(name, "word/media/") || starts_with(name, "xl/media/") || starts_with(
                    name,
                    "ppt/media/",
                ) || starts_with(name, "Pictures/")
            },
        Ghost(|i: int| is_media(texts(names@)[i])),
    )
}

/// The relations of a part that lead out of the package.
pub open spec fn outward(root: Node) -> nat {
    root.below("Relationship"@).filter(
        |n: Node| n.attr_exact("TargetMode"@) == Some("External"@),
    ).len()
}

fn count_outward(root: &Node) -> (r: usize)
    ensures
        r == outward(*root),
{
    let all: Vec<&Node> = root.descendants("Relationship");
    count_nodes(
        &all,
        |n: &Node| -> (b: bool)
            ensures
                b == (n.attr_exact("TargetMode"@) == Some("External"@))
            {
                match n.attr("TargetMode") {
                    Some(mode) => same(mode, "External"),
                    None => false,
                }
            },
        Ghost(|n: Node| n.attr_exact("TargetMode"@) == Some("External"@)),
    )
}

/// How many relations in the lists among the first `n` parts lead out of the package.
pub open spec fn outward_upto(parts: Seq<PartTree>, n: int) -> nat
    decreases n,
{
    if n <= 0 {
        0
    } else if finishes(parts[n - 1].name@, ".rels"@) {
        outward_upto(parts, n - 1) + outward(parts[n - 1].root)
    } else {
        outward_upto(parts, n - 1)
    }
}

/// How many relations of a package lead out of it.
pub fn count_external(parts: &Vec<PartTree>) -> (r: u128)
    ensures
        r == outward_upto(parts@, parts@.len() as int),
{
    let mut sum: u128 = 0;
    let mut i: usize = 0;
    while i < parts.len()
        invariant
            i <= parts@.len(),
            sum == outward_upto(parts@, i as int),
            sum <= 0xffff_ffff_ffff_ffff * i,
        decreases parts@.len() - i,
    {
        if ends_with(parts[i].name.as_str(), ".rels") {
            sum = sum + count_outward(&parts[i].root) as u128;
        }
        i += 1;
    }
    sum
}

/// Whether the claims of a ZIP package hold.
pub open spec fn zip_checked(v: Seq<Check>, notes: Seq<Seq<char>>, untyped: Seq<Seq<char>>) -> bool {
    &&& v.len() == 2
    &&& v[0].is(
        "成员表能自证（走到 EOCD 自报的位置与条数）"@,
        notes.len() == 0,
        strung(notes, "；"@),
    )
    &&& v[1].is(
        "每个部件都有声明过的内容类型"@,
        untyped.len() == 0,
        strung(untyped, "；"@),
    )
}

/// The checks of a ZIP package: `notes` says where its member table contradicts itself, `untyped`
/// names the parts without a declared type.
pub fn check_zip(notes: &Vec<String>, untyped: &Vec<String>) -> (r: Vec<Check>)
    ensures
        zip_checked(r@, texts(notes@), texts(untyped@)),
{
    assert(texts(notes@).len() == notes@.len());
    assert(texts(untyped@).len() == untyped@.len());
    let mut checks: Vec<Check> = Vec::new();
    checks.push(
        Check {
            claim: "成员表能自证（走到 EOCD 自报的位置与条数）".to_owned(),
            ok: notes.len() == 0,
            note: string_together(notes, "；"),
        },
    );
    checks.push(
        Check {
            claim: "每个部件都有声明过的内容类型".to_owned(),
            ok: untyped.len() == 0,
            note: string_together(untyped, "；"),
        },
    );
    checks
}

/// Entry `i` is a stream whose bytes cannot be read. Several streams can have one name, and each
/// is read by its own entry.
pub open spec fn unreadable(cfb: Cfb, b: Seq<u8>, i: int) -> bool {
    cfb.entries@[i].streams() && cfb.stream_of(b, cfb.entries@[i]) is None
}

/// How many streams cannot be read.
pub open spec fn unread(cfb: Cfb, b: Seq<u8>) -> nat {
    tally(|i: int| unreadable(cfb, b, i), cfb.entries@.len() as int)
}

/// What is said of streams that cannot be read.
pub open spec fn unread_note(n: nat) -> Seq<char> {
    if n == 0 {
        Seq::empty()
    } else {
        dec(n) + " 条流的字节读不齐"@
    }
}

/// Whether the claims of a compound file hold.
pub open spec fn compound_checked(v: Seq<Check>, cfb: Cfb, b: Seq<u8>) -> bool {
    &&& v.len() == 1 + cfb.notes@.len()
    &&& v[0].is(
        "每条流都能按目录项自报的大小读出来"@,
        unread(cfb, b) == 0,
        unread_note(unread(cfb, b)),
    )
    &&& forall|i: int|
        1 <= i < v.len() ==> (#[trigger] v[i]).is("容器自述"@, false, cfb.notes@[i - 1]@)
}

/// The checks of a compound file.
pub fn check_compound(cfb: &Cfb, b: &[u8]) -> (r: Vec<Check>)
    ensures
        compound_checked(r@, *cfb, b@),
{
    let short: usize = count_those(
        cfb.entries.len(),
        |i: usize| -> (r: bool)
            requires
                i < cfb.entries@.len()
            ensures
                r == unreadable(*cfb, b@, i as int)
            {
                cfb.entries[i].is_stream() && cfb.read_entry(b, &cfb.entries[i]).is_none()
            },
        Ghost(|i: int| unreadable(*cfb, b@, i)),
    );
    assert(short == unread(*cfb, b@));
    let mut note: String = String::new();
    assert(note@ =~= Seq::empty());
    if short > 0 {
        push_dec(&mut note, short as u64);
        note.append(" 条流的字节读不齐");
        assert(note@ =~= unread_note(short as nat));
    }
    let mut checks: Vec<Check> = Vec::new();
    checks.push(
        Check {
            claim: "每条流都能按目录项自报的大小读出来".to_owned(),
            ok: short == 0,
            note,
        },
    );
    let mut i: usize = 0;
    while i < cfb.notes.len()
        invariant
            i <= cfb.notes@.len(),
            checks@.len() == 1 + i,
            checks@[0].is(
                "每条流都能按目录项自报的大小读出来"@,
                unread(*cfb, b@) == 0,
                unread_note(unread(*cfb, b@)),
            ),
            forall|k: int|
                1 <= k <= i ==> (#[trigger] checks@[k]).is(
                    "容器自述"@,
                    false,
                    cfb.notes@[k - 1]@,
                ),
        decreases cfb.notes@.len() - i,
    {
        checks.push(
            Check {
                claim: "容器自述".to_owned(),
                ok: false,
                note: cfb.notes[i].as_str().to_owned(),
            },
        );
        i += 1;
    }
    checks
}

/// The text of the last element of that name in a part.
pub open spec fn last_text(part: Option<Node>, tag: Seq<char>) -> Option<Seq<char>> {
    match part {
        Some(root) => {
            let all = root.below(tag);
            if all.len() > 0 {
                Some(all.last().full_text())
            } else {
                None
            }
        },
        None => None,
    }
}

fn read_last(part: Option<&Node>, tag: &str) -> (r: Option<String>)
    ensures
        text_in(r) == last_text(node_in(part), tag@),
{
    match part {
        Some(root) => {
            let all: Vec<&Node> = root.descendants(tag);
            let n: usize = all.len();
            assert(nodes(all@).len() == n);
            if n > 0 {
                assert(nodes(all@)[n - 1] == *all@[n - 1]);
                Some(all[n - 1].text())
            } else {
                None
            }
        },
        None => None,
    }
}

/// The text of the first element of that name in a part.
pub open spec fn first_text(part: Option<Node>, tag: Seq<char>) -> Option<Seq<char>> {
    match part {
        Some(root) => match first_below(root, tag) {
            Some(n) => Some(n.full_text()),
            None => None,
        },
        None => None,
    }
}

fn read_first(part: Option<&Node>, tag: &str) -> (r: Option<String>)
    ensures
        text_in(r) == first_text(node_in(part), tag@),
{
    match part {
        Some(root) => match find_below(root, tag) {
            Some(n) => Some(n.text()),
            None => None,
        },
        None => None,
    }
}

/// A text that may not be there, and nothing for an empty one.
pub open spec fn unless_empty(t: Option<Seq<char>>) -> Option<Seq<char>> {
    match t {
        Some(s) => if s.len() == 0 {
            None
        } else {
            Some(s)
        },
        None => None,
    }
}

fn drop_empty(t: Option<String>) -> (r: Option<String>)
    ensures
        text_in(r) == unless_empty(text_in(t)),
{
    match t {
        Some(s) => if s.as_str().unicode_len() == 0 {
            None
        } else {
            Some(s)
        },
        None => None,
    }
}

/// One entry of a table where there is a value for it.
pub open spec fn entry(key: Seq<char>, value: Option<Seq<char>>) -> Seq<(Seq<char>, Seq<char>)> {
    match value {
        Some(v) => seq![(key, v)],
        None => Seq::empty(),
    }
}

fn put(out: &mut Vec<(String, String)>, key: &str, value: Option<String>)
    ensures
        pair_texts(final(out)@) == pair_texts(old(out)@) + entry(key@, text_in(value)),
{
    let ghost had = pair_texts(out@);
    match value {
        Some(v) => {
            out.push((key.to_owned(), v));
            assert(pair_texts(out@) =~= had + entry(key@, text_in(value)));
        },
        None => {
            assert(had + entry(key@, text_in(value)) =~= had);
        },
    }
}

/// What the properties of a ZIP package say of the program that wrote it. Of two entries with
/// one key the later counts.
pub open spec fn producer(app: Option<Node>, meta: Option<Node>) -> Seq<(Seq<char>, Seq<char>)> {
    entry("application"@, last_text(app, "Application"@)) + entry(
        "app-version"@,
        last_text(app, "AppVersion"@),
    ) + entry("template"@, last_text(app, "Template"@)) + entry(
        "generator"@,
        unless_empty(first_text(meta, "generator"@)),
    )
}

/// What the properties of a ZIP package say of who wrote it and when. Of two entries with one
/// key the later counts.
pub open spec fn authoring(core: Option<Node>, meta: Option<Node>) -> Seq<(Seq<char>, Seq<char>)> {
    entry("creator"@, first_text(core, "creator"@)) + entry(
        "last-modified-by"@,
        first_text(core, "lastModifiedBy"@),
    ) + entry("created"@, first_text(core, "created"@)) + entry(
        "modified"@,
        first_text(core, "modified"@),
    ) + entry("revision"@, first_text(core, "revision"@)) + entry(
        "generator"@,
        unless_empty(first_text(meta, "generator"@)),
    ) + entry("creator"@, unless_empty(first_text(meta, "creator"@))) + entry(
        "initial-creator"@,
        unless_empty(first_text(meta, "initial-creator"@)),
    ) + entry("created"@, unless_empty(first_text(meta, "creation-date"@))) + entry(
        "modified"@,
        unless_empty(first_text(meta, "date"@)),
    ) + entry("revision"@, unless_empty(first_text(meta, "editing-cycles"@)))
}

/// What is said of the program and of the people that wrote a file.
#[derive(Debug, Clone)]
pub struct Origin {
    pub producer: Vec<(String, String)>,
    pub authoring: Vec<(String, String)>,
}

/// Reads the properties of a ZIP package.
pub fn producer_of(parts: &Vec<PartTree>) -> (r: Origin)
    ensures
        pair_texts(r.producer@) == producer(
            tree_of(parts@, "docProps/app.xml"@),
            tree_of(parts@, "meta.xml"@),
        ),
        pair_texts(r.authoring@) == authoring(
            tree_of(parts@, "docProps/core.xml"@),
            tree_of(parts@, "meta.xml"@),
        ),
{
    let app: Option<&Node> = find_tree(parts, "docProps/app.xml");
    let core: Option<&Node> = find_tree(parts, "docProps/core.xml");
    let meta: Option<&Node> = find_tree(parts, "meta.xml");
    let mut producer: Vec<(String, String)> = Vec::new();
    assert(pair_texts(producer@) =~= Seq::empty());
    put(&mut producer, "application", read_last(app, "Application"));
    put(&mut producer, "app-version", read_last(app, "AppVersion"));
    put(&mut producer, "template", read_last(app, "Template"));
    put(&mut producer, "generator", drop_empty(read_first(meta, "generator")));
    assert(pair_texts(producer@) =~= self::producer(node_in(app), node_in(meta)));
    let mut authoring: Vec<(String, String)> = Vec::new();
    assert(pair_texts(authoring@) =~= Seq::empty());
    put(&mut authoring, "creator", read_first(core, "creator"));
    put(&mut authoring, "last-modified-by", read_first(core, "lastModifiedBy"));
    put(&mut authoring, "created", read_first(core, "created"));
    put(&mut authoring, "modified", read_first(core, "modified"));
    put(&mut authoring, "revision", read_first(core, "revision"));
    put(&mut authoring, "generator", drop_empty(read_first(meta, "generator")));
    put(&mut authoring, "creator", drop_empty(read_first(meta, "creator")));
    put(&mut authoring, "initial-creator", drop_empty(read_first(meta, "initial-creator")));
    put(&mut authoring, "created", drop_empty(read_first(meta, "creation-date")));
    put(&mut authoring, "modified", drop_empty(read_first(meta, "date")));
    put(&mut authoring, "revision", drop_empty(read_first(meta, "editing-cycles")));
    assert(pair_texts(authoring@) =~= self::authoring(node_in(core), node_in(meta)));
    Origin { producer, authoring }
}

/// A property that tells of the program.
pub open spec fn of_program(name: Option<Seq<char>>) -> bool {
    name == Some("application"@) || name == Some("template"@)
}

/// A property that tells of the people.
pub open spec fn of_people(name: Option<Seq<char>>) -> bool {
    name == Some("creator"@) || name == Some("author"@) || name == Some("last-author"@) || name
        == Some("created"@) || name == Some("last-saved"@) || name == Some("revision"@)
}

fn is_of_program(name: &str) -> (r: bool)
    ensures
        r == of_program(Some(name@)),
{
    same(name, "application") || same(name, "template")
}

fn is_of_people(name: &str) -> (r: bool)
    ensures
        r == of_people(Some(name@)),
{
    same(name, "creator") || same(name, "author") || same(name, "last-author") || same(
        name,
        "created",
    ) || same(name, "last-saved") || same(name, "revision")
}

/// Which properties of a compound file tell of the program and which of the people.
#[derive(Debug, Clone)]
pub struct Sorted {
    pub producer: Vec<usize>,
    pub authoring: Vec<usize>,
}

/// Sorts the properties of a compound file by their names. A property without a known name is in
/// neither list, and of two with one name the later counts.
pub fn sort_props(names: &Vec<Option<String>>) -> (r: Sorted)
    ensures
        ints(r.producer@) == those(
            |i: int| of_program(text_in(names@[i])),
            names@.len() as int,
        ),
        ints(r.authoring@) == those(
            |i: int| of_people(text_in(names@[i])),
            names@.len() as int,
        ),
{
    let producer: Vec<usize> = pick_those(
        names.len(),
        |i: usize| -> (b: bool)
            requires
                i < names@.len()
            ensures
                b == of_program(text_in(names@[i as int]))
            {
                match &names[i] {
                    Some(name) => is_of_program(name.as_str()),
                    None => false,
                }
            },
        Ghost(|i: int| of_program(text_in(names@[i]))),
    );
    let authoring: Vec<usize> = pick_those(
        names.len(),
        |i: usize| -> (b: bool)
            requires
                i < names@.len()
            ensures
                b == of_people(text_in(names@[i as int]))
            {
                match &names[i] {
                    Some(name) => is_of_people(name.as_str()),
                    None => false,
                }
            },
        Ghost(|i: int| of_people(text_in(names@[i]))),
    );
    Sorted { producer, authoring }
}

/// What a package says of itself.
#[derive(Debug, Clone)]
pub struct Info {
    pub container: &'static str,
    pub origin: Origin,
    pub parts: usize,
    pub media: usize,
    pub external_targets: u128,
    pub streams: Option<Vec<String>>,
    pub checks: Vec<Check>,
}

impl Info {
    /// What is said of the file as a ZIP package; nothing where it is none.
    pub open spec fn package_described(
        self,
        family: Family,
        names: Seq<Seq<char>>,
        parts: Seq<PartTree>,
    ) -> bool {
        if family.zipped() {
            &&& self.media == tally(|i: int| is_media(names[i]), names.len() as int)
            &&& self.external_targets == outward_upto(parts, parts.len() as int)
            &&& pair_texts(self.origin.producer@) == producer(
                tree_of(parts, "docProps/app.xml"@),
                tree_of(parts, "meta.xml"@),
            )
            &&& pair_texts(self.origin.authoring@) == authoring(
                tree_of(parts, "docProps/core.xml"@),
                tree_of(parts, "meta.xml"@),
            )
        } else {
            &&& self.media == 0
            &&& self.external_targets == 0
            &&& self.origin.producer@.len() == 0
            &&& self.origin.authoring@.len() == 0
        }
    }

    /// The checks of the package and of the compound file, as far as the file is one.
    pub open spec fn checks_described(
        self,
        family: Family,
        notes: Seq<Seq<char>>,
        untyped: Seq<Seq<char>>,
        cfb: Option<Cfb>,
        b: Seq<u8>,
    ) -> bool {
        let n = if family.zipped() {
            2int
        } else {
            0
        };
        &&& n <= self.checks@.len()
        &&& family.zipped() ==> zip_checked(self.checks@.take(2), notes, untyped)
        &&& match cfb {
            Some(c) => compound_checked(self.checks@.skip(n), c, b),
            None => self.checks@.len() == n,
        }
    }
}

/// The compound file behind a reference that may not be there.
pub open spec fn compound_in(c: Option<&Cfb>) -> Option<Cfb> {
    match c {
        Some(x) => Some(*x),
        None => None,
    }
}

/// Tells what a file is. `names` are the members of its package, `parts` those that could be
/// read, `notes` says where the member table contradicts itself, `untyped` names the parts without
/// a declared type, and `compound` is the file read as a compound file.
pub fn describe(
    family: Family,
    names: &Vec<String>,
    parts: &Vec<PartTree>,
    notes: &Vec<String>,
    untyped: &Vec<String>,
    compound: Option<&Cfb>,
    b: &[u8],
) -> (r: Info)
    ensures
        r.container@ == family.container_text(),
        r.parts == names@.len(),
        r.package_described(family, texts(names@), parts@),
        r.checks_described(family, texts(notes@), texts(untyped@), compound_in(compound), b@),
        match (compound, r.streams) {
            (Some(c), Some(v)) => texts(v@) == Seq::new(
                c.stream_entries().len(),
                |i: int| c.stream_entries()[i].name@,
            ),
            (None, None) => true,
            _ => false,
        },
{
    assert(texts(names@).len() == names@.len());
    let mut media: usize = 0;
    let mut external_targets: u128 = 0;
    let mut checks: Vec<Check> = Vec::new();
    let mut origin: Origin = Origin { producer: Vec::new(), authoring: Vec::new() };
    if family.is_zip() {
        media = count_media(names);
        external_targets = count_external(parts);
        checks = check_zip(notes, untyped);
        origin = producer_of(parts);
    }
    let ghost first = checks@;
    let mut streams: Option<Vec<String>> = None;
    if let Some(c) = compound {
        let mut more: Vec<Check> = check_compound(c, b);
        let ghost m = more@;
        checks.append(&mut more);
        assert(checks@.skip(first.len() as int) =~= m);
        streams = Some(c.stream_names());
    }
    assert(checks@.take(first.len() as int) =~= first);
    Info {
        container: family.container(),
        origin,
        parts: names.len(),
        media,
        external_targets,
        streams,
        checks,
    }
}

/// No property tells of the program and of the people at once.
pub proof fn law_a_property_goes_to_one_list(name: Option<Seq<char>>)
    ensures
        !(of_program(name) && of_people(name)),
{
    reveal_strlit("application");
    reveal_strlit("template");
    reveal_strlit("creator");
    reveal_strlit("author");
    reveal_strlit("last-author");
    reveal_strlit("created");
    reveal_strlit("last-saved");
    reveal_strlit("revision");
    assert("application"@.len() == 11);
    assert("template"@.len() == 8);
    assert("creator"@.len() == 7);
    assert("author"@.len() == 6);
    assert("last-author"@[0] == 'l');
    assert("application"@[0] == 'a');
    assert("created"@.len() == 7);
    assert("last-saved"@.len() == 10);
    assert("template"@[0] == 't');
    assert("revision"@[0] == 'r');
}

/// A file passes all checks of its package exactly where its member table and its types do.
pub proof fn law_a_sound_package_passes(v: Seq<Check>, notes: Seq<Seq<char>>, untyped: Seq<
    Seq<char>,
>)
    requires
        zip_checked(v, notes, untyped),
    ensures
        (forall|i: int| 0 <= i < v.len() ==> (#[trigger] v[i]).ok) <==> notes.len() == 0
            && untyped.len() == 0,
{
    assert(v[0].ok == (notes.len() == 0));
    assert(v[1].ok == (untyped.len() == 0));
}

/// What each family is packed in, and which are ZIP packages.
pub proof fn law_what_families_are_packed_in()
    ensures
        Family::Compound.container_text() == "MS-CFB compound file"@,
        Family::Rtf.container_text() == "RTF text"@,
        Family::Ooxml.container_text() == "ZIP (OPC package)"@,
        Family::Odf.container_text() == "ZIP (OpenDocument package)"@,
        Family::Zip.container_text() == "ZIP"@,
        Family::Other.container_text() == "unknown"@,
        Family::Ooxml.zipped() && Family::Odf.zipped() && Family::Zip.zipped(),
        !Family::Compound.zipped() && !Family::Rtf.zipped() && !Family::Other.zipped(),
{
}

/// Pictures and recordings stand in four folders.
pub proof fn law_which_members_are_media(name: Seq<char>, rest: Seq<char>)
    ensures
        is_media("word/media/"@ + rest),
        is_media("xl/media/"@ + rest),
        is_media("ppt/media/"@ + rest),
        is_media("Pictures/"@ + rest),
        is_media(name) ==> begins(name, "word/media/"@) || begins(name, "xl/media/"@) || begins(
            name,
            "ppt/media/"@,
        ) || begins(name, "Pictures/"@),
{
    lemma_begins("word/media/"@, rest);
    lemma_begins("xl/media/"@, rest);
    lemma_begins("ppt/media/"@, rest);
    lemma_begins("Pictures/"@, rest);
}

proof fn lemma_begins(head: Seq<char>, rest: Seq<char>)
    ensures
        begins(head + rest, head),
{
    assert((head + rest).take(head.len() as int) =~= head);
}

/// A relation leads out of the package where it says that its target does, and those of all parts
/// that are lists of relations count.
pub proof fn law_which_relations_lead_out(parts: Seq<PartTree>, n: int, q: spec_fn(Node) -> bool)
    requires
        0 <= n < parts.len(),
        forall|x: Node| #[trigger] q(x) == (x.attr_exact("TargetMode"@) == Some("External"@)),
    ensures
        outward_upto(parts, 0) == 0,
        finishes(parts[n].name@, ".rels"@) ==> outward_upto(parts, n + 1) == outward_upto(parts, n)
            + parts[n].root.below("Relationship"@).filter(q).len(),
        !finishes(parts[n].name@, ".rels"@) ==> outward_upto(parts, n + 1) == outward_upto(parts, n),
{
    let p = |x: Node| x.attr_exact("TargetMode"@) == Some("External"@);
    assert(p =~= q);
}

/// The checks of a compound file: whether every stream can be read by its own entry, and one that
/// fails for each remark of its reader.
pub proof fn law_what_a_compound_file_is_checked_for(v: Seq<Check>, cfb: Cfb, b: Seq<u8>, i: int)
    requires
        compound_checked(v, cfb, b),
    ensures
        v.len() == 1 + cfb.notes@.len(),
        v[0].ok <==> forall|k: int|
            0 <= k < cfb.entries@.len() && (#[trigger] cfb.entries@[k]).streams() ==> cfb.stream_of(
                b,
                cfb.entries@[k],
            ) is Some,
        v[0].ok ==> v[0].note@.len() == 0,
        0 <= i < cfb.notes@.len() ==> !v[i + 1].ok && v[i + 1].note@ == cfb.notes@[i]@,
{
    let q = |i: int| unreadable(cfb, b, i);
    let n = cfb.entries@.len() as int;
    crate::lists::law_those_are_all_that_satisfy(q, n);
    if v[0].ok {
        assert forall|k: int|
            0 <= k < n && (#[trigger] cfb.entries@[k]).streams() implies cfb.stream_of(
            b,
            cfb.entries@[k],
        ) is Some by {
            if q(k) {
                assert(those(q, n).contains(k));
            }
        }
    } else {
        let k = those(q, n)[0];
        assert(q(k));
        assert(cfb.entries@[k].streams());
    }
}

/// What is said of the program that wrote a package stands in its properties: three elements of
/// one part, the last of each name, and the generator of another, the first.
pub proof fn law_what_is_said_of_the_program(app: Node, meta: Node)
    ensures
        producer(Some(app), None) == entry("application"@, last_text(Some(app), "Application"@))
            + entry("app-version"@, last_text(Some(app), "AppVersion"@)) + entry(
            "template"@,
            last_text(Some(app), "Template"@),
        ),
        producer(None, Some(meta)) == entry(
            "generator"@,
            unless_empty(first_text(Some(meta), "generator"@)),
        ),
        app.below("Application"@).len() > 0 ==> producer(Some(app), None).len() > 0 && producer(
            Some(app),
            None,
        )[0] == ("application"@, app.below("Application"@).last().full_text()),
        meta.below("generator"@).len() > 0 && meta.below("generator"@)[0].full_text().len() > 0
            ==> producer(None, Some(meta)) == seq![
            ("generator"@, meta.below("generator"@)[0].full_text()),
        ],
        producer(None, None).len() == 0,
{
    let e = Seq::<(Seq<char>, Seq<char>)>::empty();
    let a = entry("application"@, last_text(Some(app), "Application"@));
    let b = entry("app-version"@, last_text(Some(app), "AppVersion"@));
    let c = entry("template"@, last_text(Some(app), "Template"@));
    assert(a + b + c + e =~= a + b + c);
    let g = entry("generator"@, unless_empty(first_text(Some(meta), "generator"@)));
    assert(e + e + e + g =~= g);
}

/// What is said of the people who wrote a package, in the one part and in the other; of two with
/// one key the other part's, which stands later, counts.
pub proof fn law_what_is_said_of_the_people(core: Node, meta: Node)
    ensures
        authoring(Some(core), None) == entry("creator"@, first_text(Some(core), "creator"@))
            + entry("last-modified-by"@, first_text(Some(core), "lastModifiedBy"@)) + entry(
            "created"@,
            first_text(Some(core), "created"@),
        ) + entry("modified"@, first_text(Some(core), "modified"@)) + entry(
            "revision"@,
            first_text(Some(core), "revision"@),
        ),
        authoring(None, Some(meta)) == entry(
            "generator"@,
            unless_empty(first_text(Some(meta), "generator"@)),
        ) + entry("creator"@, unless_empty(first_text(Some(meta), "creator"@))) + entry(
            "initial-creator"@,
            unless_empty(first_text(Some(meta), "initial-creator"@)),
        ) + entry("created"@, unless_empty(first_text(Some(meta), "creation-date"@))) + entry(
            "modified"@,
            unless_empty(first_text(Some(meta), "date"@)),
        ) + entry("revision"@, unless_empty(first_text(Some(meta), "editing-cycles"@))),
        authoring(None, None).len() == 0,
{
    let e = Seq::<(Seq<char>, Seq<char>)>::empty();
    let a = entry("creator"@, first_text(Some(core), "creator"@)) + entry(
        "last-modified-by"@,
        first_text(Some(core), "lastModifiedBy"@),
    ) + entry("created"@, first_text(Some(core), "created"@)) + entry(
        "modified"@,
        first_text(Some(core), "modified"@),
    ) + entry("revision"@, first_text(Some(core), "revision"@));
    assert(a + e + e + e + e + e + e =~= a);
    let g = entry("generator"@, unless_empty(first_text(Some(meta), "generator"@)));
    assert(e + e + e + e + e + g =~= g);
}

/// Which properties of a compound file tell of the program and which of the people.
pub proof fn law_which_properties_tell_of_whom(name: Seq<char>)
    ensures
        of_program(Some(name)) <==> name == "application"@ || name == "template"@,
        of_people(Some(name)) <==> name == "creator"@ || name == "author"@ || name
            == "last-author"@ || name == "created"@ || name == "last-saved"@ || name
            == "revision"@,
        !of_program(None) && !of_people(None),
{
}

/// A file that is no package has no media, no relations out of it and no properties of a package.
pub proof fn law_what_is_told_of_a_package(
    r: Info,
    family: Family,
    names: Seq<Seq<char>>,
    parts: Seq<PartTree>,
)
    requires
        r.package_described(family, names, parts),
    ensures
        family == Family::Rtf || family == Family::Compound || family == Family::Other ==> r.media
            == 0 && r.external_targets == 0 && r.origin.producer@.len() == 0
            && r.origin.authoring@.len() == 0,
        family == Family::Ooxml || family == Family::Odf || family == Family::Zip ==> {
            &&& r.media == names.filter(|t: Seq<char>| is_media(t)).len()
            &&& r.external_targets == outward_upto(parts, parts.len() as int)
            &&& pair_texts(r.origin.producer@) == producer(
                tree_of(parts, "docProps/app.xml"@),
                tree_of(parts, "meta.xml"@),
            )
            &&& pair_texts(r.origin.authoring@) == authoring(
                tree_of(parts, "docProps/core.xml"@),
                tree_of(parts, "meta.xml"@),
            )
        },
{
    crate::lists::law_a_tally_is_how_many_pass(
        names,
        |i: int| is_media(names[i]),
        |t: Seq<char>| is_media(t),
    );
}

/// A package is checked where the file is one, and a compound file where it is one, in this order.
pub proof fn law_which_checks_are_made(
    r: Info,
    family: Family,
    notes: Seq<Seq<char>>,
    untyped: Seq<Seq<char>>,
    cfb: Option<Cfb>,
    b: Seq<u8>,
)
    requires
        r.checks_described(family, notes, untyped, cfb, b),
    ensures
        family.zipped() ==> r.checks@.len() >= 2 && (r.checks@[0].ok <==> notes.len() == 0) && (
        r.checks@[1].ok <==> untyped.len() == 0),
        family.zipped() && cfb is None ==> r.checks@.len() == 2,
        !family.zipped() && cfb is None ==> r.checks@.len() == 0,
        cfb matches Some(c) ==> r.checks@.len() == 1 + c.notes@.len() + if family.zipped() {
            2int
        } else {
            0
        },
{
    if family.zipped() {
        assert(r.checks@.take(2)[0] == r.checks@[0]);
        assert(r.checks@.take(2)[1] == r.checks@[1]);
    }
}

/// What a package and a compound file are checked for is said in words, and behind it what does not
/// hold: the contradictions of the member table, the parts without a type, how many streams cannot
/// be read, and what the container does not keep of what it says.
pub proof fn law_what_checks_say(
    v: Seq<Check>,
    notes: Seq<Seq<char>>,
    untyped: Seq<Seq<char>>,
    w: Seq<Check>,
    cfb: Cfb,
    b: Seq<u8>,
    q: spec_fn(Entry) -> bool,
    i: int,
)
    requires
        zip_checked(v, notes, untyped),
        compound_checked(w, cfb, b),
        forall|e: Entry| #[trigger] q(e) == (e.streams() && cfb.stream_of(b, e) is None),
    ensures
        v[0].claim@ == "成员表能自证（走到 EOCD 自报的位置与条数）"@,
        v[0].note@ == strung(notes, "；"@),
        v[1].claim@ == "每个部件都有声明过的内容类型"@,
        v[1].note@ == strung(untyped, "；"@),
        w[0].claim@ == "每条流都能按目录项自报的大小读出来"@,
        !w[0].ok ==> w[0].note@ == dec(cfb.entries@.filter(q).len()) + " 条流的字节读不齐"@,
        0 < i < w.len() ==> w[i].claim@ == "容器自述"@,
{
    crate::lists::law_a_tally_is_how_many_pass(
        cfb.entries@,
        |i: int| unreadable(cfb, b, i),
        q,
    );
}

} // verus!
