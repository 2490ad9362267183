//! What is counted over the ledgers that the reader of an RTF stream keeps.

use crate::document::{concat_notes, count_texts, tallies, Heading};
use crate::docx::contents::{levels_in, rtf_contents, tocs, FieldContents};
use crate::lists::{at_most, count_those, cut, each, tally};
use crate::numfmt::{occurs, occurs_in};
use crate::text::{chars_of, same, texts};
use crate::words::Tally;
use crate::written::{lists, text_in};
use vstd::prelude::*;

verus! {

broadcast use crate::text::lemma_texts_push;

/// How the switches of a group stand, as far as it says.
#[derive(Debug, Clone, Copy)]
pub struct Switches {
    pub bold: Option<bool>,
    pub italic: Option<bool>,
    pub strike: Option<bool>,
    pub underline: Option<bool>,
}

/// Which of the switches.
#[derive(Debug, Clone, Copy, PartialEq, Eq, Structural)]
pub enum Switch {
    Bold,
    Italic,
    Strike,
    Underline,
}

impl Switches {
    pub open spec fn of(self, which: Switch) -> Option<bool> {
        match which {
            Switch::Bold => self.bold,
            Switch::Italic => self.italic,
            Switch::Strike => self.strike,
            Switch::Underline => self.underline,
        }
    }

    fn get(&self, which: Switch) -> (r: Option<bool>)
        ensures
            r == self.of(which),
    {
        match which {
            Switch::Bold => self.bold,
            Switch::Italic => self.italic,
            Switch::Strike => self.strike,
            Switch::Underline => self.underline,
        }
    }
}

/// How many groups say that a switch stands that way.
pub open spec fn switched(v: Seq<Switches>, which: Switch, on: bool) -> nat {
    tally(|i: int| v[i].of(which) == Some(on), v.len() as int)
}

fn count_switch(v: &Vec<Switches>, which: Switch, on: bool) -> (r: usize)
    ensures
        r == switched(v@, which, on),
{
    count_those(
        v.len(),
        |i: usize| -> (b: bool)
            requires
                i < v@.len()
            ensures
                b == (v@[i as int].of(which) == Some(on))
            {
                match v[i].get(which) {
                    Some(b) => b == on,
                    None => false,
                }
            },
        Ghost(|i: int| v@[i].of(which) == Some(on)),
    )
}

/// How many groups say what about their characters. A group that says nothing is no row. The
/// counts are over all rows.
#[derive(Debug, Clone)]
pub struct RunCounts {
    pub checked: usize,
    pub bold_on: usize,
    pub bold_off: usize,
    pub italic_on: usize,
    pub italic_off: usize,
    pub strike_on: usize,
    pub strike_off: usize,
    pub underline_on: usize,
    pub underline_off: usize,
    pub listed: usize,
    pub list: Vec<Switches>,
}

impl RunCounts {
    pub open spec fn describes(self, v: Seq<Switches>, limit: usize) -> bool {
        &&& self.checked == v.len()
        &&& self.bold_on == switched(v, Switch::Bold, true)
        &&& self.bold_off == switched(v, Switch::Bold, false)
        &&& self.italic_on == switched(v, Switch::Italic, true)
        &&& self.italic_off == switched(v, Switch::Italic, false)
        &&& self.strike_on == switched(v, Switch::Strike, true)
        &&& self.strike_off == switched(v, Switch::Strike, false)
        &&& self.underline_on == switched(v, Switch::Underline, true)
        &&& self.underline_off == switched(v, Switch::Underline, false)
        &&& self.listed == at_most(v.len(), limit)
        &&& self.list@ == v.take(at_most(v.len(), limit) as int)
    }
}

/// Counts what the groups of a stream say about their characters. At most `limit` are listed.
pub fn rtf_run_formats(rows: &Vec<Switches>, limit: usize) -> (r: RunCounts)
    ensures
        r.describes(rows@, limit),
{
    let listed: usize = cut(rows.len(), limit);
    let list: Vec<Switches> = each(
        rows,
        listed,
        |i: usize, one: &Switches| -> (r: Switches)
            ensures
                r == *one
            { *one },
    );
    assert(list@ =~= rows@.take(listed as int));
    RunCounts {
        checked: rows.len(),
        bold_on: count_switch(rows, Switch::Bold, true),
        bold_off: count_switch(rows, Switch::Bold, false),
        italic_on: count_switch(rows, Switch::Italic, true),
        italic_off: count_switch(rows, Switch::Italic, false),
        strike_on: count_switch(rows, Switch::Strike, true),
        strike_off: count_switch(rows, Switch::Strike, false),
        underline_on: count_switch(rows, Switch::Underline, true),
        underline_off: count_switch(rows, Switch::Underline, false),
        listed,
        list,
    }
}

/// The three ledgers of numbering in a stream: the paragraphs that are items, the lists that are
/// defined, and the overrides by which a paragraph names a list.
#[derive(Debug, Clone)]
pub struct NumberingLedgers<P, D, O> {
    pub list: Vec<P>,
    pub definitions: Vec<D>,
    pub override_list: Vec<O>,
}

fn cut_rows<T>(rows: &mut Vec<T>, limit: usize)
    ensures
        final(rows)@ == old(rows)@.take(at_most(old(rows)@.len(), limit) as int),
{
    if limit < rows.len() {
        rows.truncate(limit);
    }
    assert(rows@ =~= old(rows)@.take(at_most(old(rows)@.len(), limit) as int));
}

/// Cuts each of the three ledgers to its first `limit` rows, one apart from the other.
pub fn rtf_numbering<P, D, O>(
    had: NumberingLedgers<P, D, O>,
    limit: usize,
) -> (r: NumberingLedgers<P, D, O>)
    ensures
        r.list@ == had.list@.take(at_most(had.list@.len(), limit) as int),
        r.definitions@ == had.definitions@.take(at_most(had.definitions@.len(), limit) as int),
        r.override_list@ == had.override_list@.take(
            at_most(had.override_list@.len(), limit) as int,
        ),
{
    let mut list: Vec<P> = had.list;
    let mut definitions: Vec<D> = had.definitions;
    let mut override_list: Vec<O> = had.override_list;
    cut_rows(&mut list, limit);
    cut_rows(&mut definitions, limit);
    cut_rows(&mut override_list, limit);
    NumberingLedgers { list, definitions, override_list }
}

/// A style that is used, and how often.
#[derive(Debug, Clone)]
pub struct StyleUse {
    pub name: String,
    pub count: usize,
}

/// A link of the stream.
#[derive(Debug, Clone)]
pub struct FieldLink {
    pub target: String,
    pub text: String,
}

/// How often each word that breaks lines stands in the stream.
#[derive(Debug, Clone, Copy)]
pub struct BreakWords {
    pub par: usize,
    pub line: usize,
    pub page: usize,
    pub pagebb: usize,
    pub pbb: usize,
    pub sect: usize,
}

/// What is said of every stream: what is told of it, what is not, and why.
pub const STREAM_REMARK: &'static str = "RTF 这一支只报流里数得清的东西：段落按 par 控制字切，注按目标群分\
    （尾注靠群里的 ftnalt 判），表给行数与格子数 —— 那两个数就是 row 与 cell \
    这两个控制字的条数（嵌套表的 nestrow / nestcell 另给，不混进去）。\
    「几张表」要判行与行之间的段落边界，这条规则拿一张表与两张表的对照件试过：\
    单表对、两张数成一张，所以 tables 留 null。链接是从 field 群里前瞻读出来的\
    （指令里的 HYPERLINK 地址与 fldrslt 的显示文字，显示文字照旧留在正文里），\
    域的总条数另给 fields。字体名与样式名从 fonttbl / stylesheet 那两群里读 \
    —— 那两群照旧整群跳过（一个字不进正文），所以 skipped_destinations 不因为这个\
    改动而变，只是读之前里面的名字从来没被交出来过。样式表写了多少条、字体表列了\
    几个字体也各交一个数；非 ANSI 字符集又含非 ASCII 字节的字体名交回 null\
    （条目自己那个 fcharset 号说明为什么），\
    不交一个我们按 cp1252 解出来的乱码。标题看样式名：段属性里的 \\sN 到样式表里\
    查到名字，名字写成 heading N 的那一段才算标题，层级就是 N —— 四份 RTF 件的\
    这本账与同一批字的 docx 那份逐条实测一字不差。名字不合这个形状\
    （比如「摘要」这种自定义样式名）就一条也不报，不替文件认一个层级。\
    那张纸（多大、边距多少）交的是文档级写的那一串 paperw / paperh / marg*，\
    与 docx 的 twips、odt 的「21.59cm」换成同一个 0.01mm 整数；\
    某一节的覆写住在 sectx 群里，这一族不判分节归属，所以只交这一条。\
    目录看域指令：TOC 那条域的指令原文在文件里把开关写成两个反斜杠\
    （单个反斜杠会开出一个控制字），解掉多出来的那一个之后与 docx 的 instrText \
    逐字同一个形状，所以「收几级」两家共用一把读取器；OOXML 那两键\
    （docPartGallery 与 sdt 个数）这一族没有，不造假。\
    批注按 annotation 群数出来（作者与字在 office-text 那一条命令里逐条交），\
    那一群写的 atndate 两个样本都对不上同一批字的 docx 里的 w:date，\
    解不动就只交原样那一串、日期给 null。\
    修订与保护还是不判，那两项同样是 null \
    —— null 是「没看」或「判不住」，不是「这份文件没有」";

/// What is said of a stream: what its reader said, and what is said of every stream.
pub open spec fn stream_notes(own: Seq<Seq<char>>) -> Seq<Seq<char>> {
    own.push(STREAM_REMARK@)
}

/// The ledgers of a stream.
#[derive(Debug)]
pub struct Ledgers {
    pub lines: Vec<String>,
    pub note_kinds: Vec<String>,
    pub picture_alts: Vec<Option<String>>,
    pub style_uses: Vec<StyleUse>,
    pub links: Vec<FieldLink>,
    pub breaks: BreakWords,
    pub runs: Vec<Switches>,
    pub instructions: Vec<String>,
    pub headings: Vec<Heading>,
    /// What the reader of the stream said.
    pub notes: Vec<String>,
}

/// A link, and whether it leads out of the document.
#[derive(Debug, Clone)]
pub struct LinkRow {
    pub target: String,
    pub external: bool,
    pub text: String,
}

impl LinkRow {
    /// There is no table to look a target up in: the address itself says where it leads.
    pub open spec fn describes(self, l: FieldLink) -> bool {
        &&& self.target@ == l.target@
        &&& self.external == occurs(l.target@, "://"@)
        &&& self.text@ == l.text@
    }
}

/// The names of the first `n` uses, each once, in the order in which they first stand.
pub open spec fn names_of(v: Seq<StyleUse>, n: int) -> Seq<Seq<char>>
    decreases n,
{
    if n <= 0 {
        Seq::empty()
    } else if names_of(v, n - 1).contains(v[n - 1].name@) {
        names_of(v, n - 1)
    } else {
        names_of(v, n - 1).push(v[n - 1].name@)
    }
}

/// How often a name is used among the first `n` uses.
pub open spec fn used(v: Seq<StyleUse>, name: Seq<char>, n: int) -> nat
    decreases n,
{
    if n <= 0 {
        0
    } else {
        used(v, name, n - 1) + if v[n - 1].name@ == name {
            v[n - 1].count as nat
        } else {
            0
        }
    }
}

fn add_uses(v: &Vec<StyleUse>, name: &str) -> (r: u128)
    ensures
        r == used(v@, name@, v@.len() as int),
{
    let size: usize = v.len();
    let mut sum: u128 = 0;
    let mut i: usize = 0;
    while i < size
        invariant
            i <= size,
            size == v@.len(),
            sum == used(v@, name@, i as int),
            sum <= 0xffff_ffff_ffff_ffff * i,
        decreases size - i,
    {
        if same(v[i].name.as_str(), name) {
            sum = sum + v[i].count as u128;
        }
        i += 1;
    }
    sum
}

/// Adds up how often each style is used.
fn add_styles(v: &Vec<StyleUse>) -> (r: Vec<(String, u128)>)
    ensures
        r@.len() == names_of(v@, v@.len() as int).len(),
        forall|i: int|
            0 <= i < r@.len() ==> (#[trigger] r@[i]).0@ == names_of(v@, v@.len() as int)[i]
                && r@[i].1 == used(v@, names_of(v@, v@.len() as int)[i], v@.len() as int),
{
    let n: usize = v.len();
    let mut names: Vec<String> = Vec::new();
    let mut i: usize = 0;
    assert(texts(names@) =~= names_of(v@, 0));
    while i < n
        invariant
            i <= n,
            n == v@.len(),
            texts(names@) == names_of(v@, i as int),
        decreases n - i,
    {
        if !lists(&names, v[i].name.as_str()) {
            names.push(v[i].name.clone());
        }
        i += 1;
    }
    assert(texts(names@).len() == names@.len());
    let out: Vec<(String, u128)> = each(
        &names,
        names.len(),
        |k: usize, name: &String| -> (r: (String, u128))
            ensures
                r.0@ == name@,
                r.1 == used(v@, name@, v@.len() as int)
            { (name.clone(), add_uses(v, name.as_str())) },
    );
    assert forall|k: int| 0 <= k < out@.len() implies (#[trigger] out@[k]).0@ == names_of(
        v@,
        n as int,
    )[k] && out@[k].1 == used(v@, names_of(v@, n as int)[k], n as int) by {
        assert(texts(names@)[k] == names@[k]@);
    }
    out
}

/// A picture with a text for those who do not see it.
pub open spec fn has_alt(a: Option<String>) -> bool {
    match a {
        Some(t) => t@.len() > 0,
        None => false,
    }
}

/// A whole stream.
#[derive(Debug)]
pub struct RtfReport {
    /// The lines that the word for a paragraph cuts.
    pub paragraphs: usize,
    pub tally: Tally,
    pub footnotes: usize,
    pub endnotes: usize,
    pub with_alt: usize,
    pub without_alt: usize,
    pub styles: Vec<(String, u128)>,
    /// How many links there are, listed or not.
    pub hyperlink_total: usize,
    pub hyperlinks: Vec<LinkRow>,
    /// How many headings there are, listed or not.
    pub heading_total: usize,
    pub headings: Vec<Heading>,
    /// Three words begin a new page.
    pub page_breaks: u128,
    /// The word that ends a section. The last section has none, so these are no sections.
    pub section_breaks: usize,
    pub runs: RunCounts,
    pub contents: FieldContents,
    pub notes: Vec<String>,
}

impl RtfReport {
    pub open spec fn describes(self, l: Ledgers, limit: usize) -> bool {
        let n = l.style_uses@.len() as int;
        let names = names_of(l.style_uses@, n);
        &&& self.paragraphs == l.lines@.len()
        &&& tallies(self.tally, texts(l.lines@))
        &&& self.footnotes == tally(
            |i: int| l.note_kinds@[i]@ == "footnote"@,
            l.note_kinds@.len() as int,
        )
        &&& self.endnotes == tally(
            |i: int| l.note_kinds@[i]@ == "endnote"@,
            l.note_kinds@.len() as int,
        )
        &&& self.with_alt == tally(
            |i: int| has_alt(l.picture_alts@[i]),
            l.picture_alts@.len() as int,
        )
        &&& self.with_alt + self.without_alt == l.picture_alts@.len()
        &&& self.styles@.len() == names.len()
        &&& forall|i: int|
            0 <= i < names.len() ==> (#[trigger] self.styles@[i]).0@ == names[i]
                && self.styles@[i].1 == used(l.style_uses@, names[i], n)
        &&& self.hyperlink_total == l.links@.len()
        &&& self.hyperlinks@.len() == at_most(l.links@.len(), limit)
        &&& forall|i: int|
            0 <= i < self.hyperlinks@.len() ==> (#[trigger] self.hyperlinks@[i]).describes(
                l.links@[i],
            )
        &&& self.heading_total == l.headings@.len()
        &&& self.headings@.len() == at_most(l.headings@.len(), limit)
        &&& forall|i: int|
            0 <= i < self.headings@.len() ==> (#[trigger] self.headings@[i]).level
                == l.headings@[i].level && self.headings@[i].text@ == l.headings@[i].text@
        &&& self.page_breaks == l.breaks.page + l.breaks.pagebb + l.breaks.pbb
        &&& self.section_breaks == l.breaks.sect
        &&& self.runs.describes(l.runs@, limit)
        &&& texts(self.contents.fields@) == tocs(texts(l.instructions@))
        &&& text_in(self.contents.levels) == levels_in(tocs(texts(l.instructions@)))
        &&& texts(self.notes@) == stream_notes(texts(l.notes@))
    }
}

fn count_kind(v: &Vec<String>, kind: &str) -> (r: usize)
    ensures
        r == tally(|i: int| v@[i]@ == kind@, v@.len() as int),
{
    count_those(
        v.len(),
        |i: usize| -> (b: bool)
            requires
                i < v@.len()
            ensures
                b == (v@[i as int]@ == kind@)
            { same(v[i].as_str(), kind) },
        Ghost(|i: int| v@[i]@ == kind@),
    )
}

/// Counts over the ledgers of a stream. Lists are cut to `limit`, counts are over everything.
pub fn read_rtf(l: &Ledgers, limit: usize) -> (r: RtfReport)
    ensures
        r.describes(*l, limit),
{
    let alts: &Vec<Option<String>> = &l.picture_alts;
    let with_alt: usize = count_those(
        alts.len(),
        |i: usize| -> (b: bool)
            requires
                i < alts@.len()
            ensures
                b == has_alt(alts@[i as int])
            {
                match &alts[i] {
                    Some(t) => t.as_str().unicode_len() > 0,
                    None => false,
                }
            },
        Ghost(|i: int| has_alt(alts@[i])),
    );
    let hyperlinks: Vec<LinkRow> = each(
        &l.links,
        cut(l.links.len(), limit),
        |i: usize, one: &FieldLink| -> (r: LinkRow)
            ensures
                r.describes(*one)
            {
                LinkRow {
                    target: one.target.clone(),
                    external: occurs_in(&chars_of(one.target.as_str()), "://"),
                    text: one.text.clone(),
                }
            },
    );
    let headings: Vec<Heading> = each(
        &l.headings,
        cut(l.headings.len(), limit),
        |i: usize, one: &Heading| -> (r: Heading)
            ensures
                r.level == one.level,
                r.text@ == one.text@
            { Heading { level: one.level, text: one.text.clone() } },
    );
    RtfReport {
        paragraphs: l.lines.len(),
        tally: count_texts(&l.lines),
        footnotes: count_kind(&l.note_kinds, "footnote"),
        endnotes: count_kind(&l.note_kinds, "endnote"),
        with_alt,
        without_alt: alts.len() - with_alt,
        styles: add_styles(&l.style_uses),
        hyperlink_total: l.links.len(),
        hyperlinks,
        heading_total: l.headings.len(),
        headings,
        page_breaks: l.breaks.page as u128 + l.breaks.pagebb as u128 + l.breaks.pbb as u128,
        section_breaks: l.breaks.sect,
        runs: rtf_run_formats(&l.runs, limit),
        contents: rtf_contents(&l.instructions),
        notes: concat_notes(&l.notes, STREAM_REMARK),
    }
}

/// What groups say about their characters is counted switch by switch, on and off apart.
pub proof fn law_switches_are_counted_apart(r: RunCounts, v: Seq<Switches>, limit: usize)
    requires
        r.describes(v, limit),
    ensures
        r.checked == v.len(),
        r.bold_on == v.filter(|s: Switches| s.bold == Some(true)).len(),
        r.bold_off == v.filter(|s: Switches| s.bold == Some(false)).len(),
        r.italic_on == v.filter(|s: Switches| s.italic == Some(true)).len(),
        r.italic_off == v.filter(|s: Switches| s.italic == Some(false)).len(),
        r.strike_on == v.filter(|s: Switches| s.strike == Some(true)).len(),
        r.strike_off == v.filter(|s: Switches| s.strike == Some(false)).len(),
        r.underline_on == v.filter(|s: Switches| s.underline == Some(true)).len(),
        r.underline_off == v.filter(|s: Switches| s.underline == Some(false)).len(),
        r.listed == r.list@.len(),
        r.list@.is_prefix_of(v),
        r.listed == v.len() || r.listed == limit,
{
    lemma_switched(v, Switch::Bold, true, |s: Switches| s.bold == Some(true));
    lemma_switched(v, Switch::Bold, false, |s: Switches| s.bold == Some(false));
    lemma_switched(v, Switch::Italic, true, |s: Switches| s.italic == Some(true));
    lemma_switched(v, Switch::Italic, false, |s: Switches| s.italic == Some(false));
    lemma_switched(v, Switch::Strike, true, |s: Switches| s.strike == Some(true));
    lemma_switched(v, Switch::Strike, false, |s: Switches| s.strike == Some(false));
    lemma_switched(v, Switch::Underline, true, |s: Switches| s.underline == Some(true));
    lemma_switched(v, Switch::Underline, false, |s: Switches| s.underline == Some(false));
}

proof fn lemma_switched(v: Seq<Switches>, which: Switch, on: bool, q: spec_fn(Switches) -> bool)
    requires
        forall|s: Switches| #[trigger] q(s) == (s.of(which) == Some(on)),
    ensures
        switched(v, which, on) == v.filter(q).len(),
{
    crate::lists::law_a_tally_is_how_many_pass(v, |i: int| v[i].of(which) == Some(on), q);
}

proof fn lemma_uses_known(v: Seq<StyleUse>, n: int, name: Seq<char>)
    requires
        0 <= n <= v.len(),
    ensures
        names_of(v, n).contains(name) == (exists|k: int|
            0 <= k < n && (#[trigger] v[k]).name@ == name),
    decreases n,
{
    if n > 0 {
        lemma_uses_known(v, n - 1, name);
        let before = names_of(v, n - 1);
        let all = names_of(v, n);
        if !before.contains(v[n - 1].name@) {
            assert(all == before.push(v[n - 1].name@));
            assert(all[before.len() as int] == v[n - 1].name@);
            if before.contains(name) {
                let j = choose|j: int| 0 <= j < before.len() && before[j] == name;
                assert(all[j] == name);
            }
            if all.contains(name) {
                let j = choose|j: int| 0 <= j < all.len() && all[j] == name;
                if j < before.len() {
                    assert(before[j] == name);
                }
            }
        }
    }
}

/// A style is told once, however often it is written, and its uses add up.
pub proof fn law_uses_of_a_style_add_up(r: RtfReport, l: Ledgers, limit: usize, i: int, k: int)
    requires
        r.describes(l, limit),
        0 <= i < r.styles@.len(),
        0 <= k < l.style_uses@.len(),
    ensures
        exists|j: int| 0 <= j < r.styles@.len() && (#[trigger] r.styles@[j]).0@
            == l.style_uses@[k].name@,
        r.styles@[i].1 == used(l.style_uses@, r.styles@[i].0@, l.style_uses@.len() as int),
        used(l.style_uses@, r.styles@[i].0@, 0) == 0,
        l.style_uses@[k].name@ == r.styles@[i].0@ ==> used(
            l.style_uses@,
            r.styles@[i].0@,
            k + 1,
        ) == used(l.style_uses@, r.styles@[i].0@, k) + l.style_uses@[k].count,
        l.style_uses@[k].name@ != r.styles@[i].0@ ==> used(
            l.style_uses@,
            r.styles@[i].0@,
            k + 1,
        ) == used(l.style_uses@, r.styles@[i].0@, k),
{
    let n = l.style_uses@.len() as int;
    lemma_uses_known(l.style_uses@, n, l.style_uses@[k].name@);
    let names = names_of(l.style_uses@, n);
    assert(names.contains(l.style_uses@[k].name@));
    let j = choose|j: int| 0 <= j < names.len() && names[j] == l.style_uses@[k].name@;
    assert(r.styles@[j].0@ == names[j]);
}

/// What is told of a stream: its lines, its notes by their kinds, the pictures that have a text
/// and those that have none, three words for a new page and one for a section. A link leads out
/// of the document where its address names how to get there.
pub proof fn law_what_is_told_of_a_stream(r: RtfReport, l: Ledgers, limit: usize, i: int)
    requires
        r.describes(l, limit),
    ensures
        r.paragraphs == l.lines@.len(),
        r.footnotes == l.note_kinds@.filter(|t: String| t@ == "footnote"@).len(),
        r.endnotes == l.note_kinds@.filter(|t: String| t@ == "endnote"@).len(),
        r.with_alt == l.picture_alts@.filter(
            |a: Option<String>| a matches Some(t) && t@.len() > 0,
        ).len(),
        r.with_alt + r.without_alt == l.picture_alts@.len(),
        r.page_breaks == l.breaks.page + l.breaks.pagebb + l.breaks.pbb,
        r.section_breaks == l.breaks.sect,
        r.hyperlink_total == l.links@.len(),
        r.heading_total == l.headings@.len(),
        0 <= i < r.hyperlinks@.len() ==> r.hyperlinks@[i].target@ == l.links@[i].target@
            && r.hyperlinks@[i].text@ == l.links@[i].text@ && (r.hyperlinks@[i].external
            <==> occurs(l.links@[i].target@, "://"@)),
        0 <= i < r.headings@.len() ==> r.headings@[i].level == l.headings@[i].level
            && r.headings@[i].text@ == l.headings@[i].text@,
        r.notes@.len() == l.notes@.len() + 1,
{
    crate::lists::law_a_tally_is_how_many_pass(
        l.note_kinds@,
        |i: int| l.note_kinds@[i]@ == "footnote"@,
        |t: String| t@ == "footnote"@,
    );
    crate::lists::law_a_tally_is_how_many_pass(
        l.note_kinds@,
        |i: int| l.note_kinds@[i]@ == "endnote"@,
        |t: String| t@ == "endnote"@,
    );
    crate::lists::law_a_tally_is_how_many_pass(
        l.picture_alts@,
        |i: int| has_alt(l.picture_alts@[i]),
        |a: Option<String>| a matches Some(t) && t@.len() > 0,
    );
    if 0 <= i < r.hyperlinks@.len() {
        assert(r.hyperlinks@[i].describes(l.links@[i]));
    }
    if 0 <= i < r.headings@.len() {
        assert(r.headings@[i].level == l.headings@[i].level);
    }
    assert(texts(r.notes@).len() == stream_notes(texts(l.notes@)).len());
}

} // verus!
