//! Documents as Markdown.

use lilyco_binfmt::docx::pictures::Rel;
use lilyco_binfmt::markdown::docx::{docx, level_of};
use lilyco_binfmt::markdown::odf::odf;
use lilyco_binfmt::markdown::{
    esc, join_blocks, render, starts_like_marker, write_paragraph, write_table, Block, Seg,
};
use lilyco_binfmt::xml::Node;

fn element(name: &str, attrs: Vec<(String, String)>) -> Node {
    Node {
        name: name.to_string(),
        attrs,
        children: Vec::new(),
        direct: String::new(),
    }
}

/// Reads a small piece of XML into a nameless root.
fn xml(source: &str) -> Node {
    let mut stack: Vec<Node> = vec![element("", Vec::new())];
    let mut rest = source;
    while let Some(at) = rest.find('<') {
        if at > 0 {
            let mut run = element("#text", Vec::new());
            run.direct = rest[..at].to_string();
            stack.last_mut().expect("open").children.push(run);
        }
        let end = at + rest[at..].find('>').expect("closed");
        let tag = &rest[at + 1..end];
        rest = &rest[end + 1..];
        if tag.starts_with('/') {
            let done = stack.pop().expect("open");
            stack.last_mut().expect("root").children.push(done);
            continue;
        }
        let alone = tag.ends_with('/');
        let tag = tag.trim_end_matches('/');
        let (name, mut said) = match tag.find(' ') {
            Some(k) => (&tag[..k], &tag[k..]),
            None => (tag, ""),
        };
        let mut attrs: Vec<(String, String)> = Vec::new();
        while let Some(k) = said.find('=') {
            let key = said[..k].trim().to_string();
            let tail = &said[k + 2..];
            let stop = tail.find('"').expect("quoted");
            attrs.push((key, tail[..stop].to_string()));
            said = &tail[stop + 1..];
        }
        let node = element(name, attrs);
        if alone {
            stack.last_mut().expect("open").children.push(node);
        } else {
            stack.push(node);
        }
    }
    if !rest.is_empty() {
        let mut run = element("#text", Vec::new());
        run.direct = rest.to_string();
        stack.last_mut().expect("open").children.push(run);
    }
    stack.pop().expect("root")
}

fn rel(id: &str, target: &str) -> Rel {
    Rel {
        id: id.to_string(),
        source: "word/document.xml".to_string(),
        kind: "x".to_string(),
        target: target.to_string(),
        external: false,
        resolved: None,
    }
}

fn plain(text: &str) -> Seg {
    Seg::said(text, false, false, &None)
}

fn bold(text: &str) -> Seg {
    Seg::said(text, true, false, &None)
}

#[test]
fn marks_are_escaped_and_bars_only_in_tables() {
    assert_eq!(esc("a*b_c`d[e]f<g>h\\i|j", false), "a\\*b\\_c\\`d\\[e\\]f\\<g\\>h\\\\i|j");
    assert_eq!(esc("a|b", true), "a\\|b");
    assert_eq!(esc("", true), "");
}

#[test]
fn a_line_that_looks_like_a_mark_gets_a_backslash() {
    for text in ["# a", "#a", "> a", "- a", "+ a", "1. a", "12) a", "3."] {
        assert!(starts_like_marker(text), "{text}");
        assert_eq!(write_paragraph(text), format!("\\{text}"));
        assert!(!starts_like_marker(&write_paragraph(text)));
    }
    for text in ["", "a", "-a", "-", "* a", "12", "12 a", "1a."] {
        assert!(!starts_like_marker(text), "{text}");
        assert_eq!(write_paragraph(text), text);
    }
}

#[test]
fn pieces_of_one_shape_become_one() {
    assert_eq!(render(&vec![bold("a"), bold("b")], false), "**ab**");
    assert_eq!(render(&vec![bold("ab")], false), "**ab**");
    assert_eq!(render(&vec![plain("a"), bold("b"), plain("c")], false), "a**b**c");
    let both = Seg::said("x", true, true, &None);
    let slanted = Seg::said("y", false, true, &None);
    assert_eq!(render(&vec![both, slanted], false), "***x****y*");
    let link = Seg::said("z", false, false, &Some("u".to_string()));
    assert_eq!(render(&vec![link], false), "[z](u)");
    assert_eq!(render(&vec![Seg::picture("alt", "media/a.png")], false), "![alt](media/a.png)");
    assert_eq!(render(&vec![bold("  ")], false), "");
    assert_eq!(render(&vec![plain("a\u{0}b")], false), "a\\\nb");
}

#[test]
fn rows_of_a_table_are_filled_up() {
    let rows = vec![
        vec!["a".to_string(), "b".to_string()],
        vec!["c".to_string()],
    ];
    assert_eq!(write_table(&rows), "| a | b |\n| --- | --- |\n| c |  |");
    assert_eq!(write_table(&Vec::new()), "");
    assert_eq!(write_table(&vec![Vec::new()]), "|  |\n|  |");
}

#[test]
fn items_of_a_list_stand_close_together() {
    let block = |item: bool, text: &str| Block {
        item,
        text: text.to_string(),
    };
    let blocks = vec![
        block(false, "a"),
        block(true, "- b"),
        block(true, "- c"),
        block(false, "d"),
    ];
    assert_eq!(join_blocks(&blocks), "a\n\n- b\n- c\n\nd\n");
    assert_eq!(join_blocks(&Vec::new()), "");
}

#[test]
fn a_heading_goes_by_the_name_of_its_style() {
    assert_eq!(level_of("heading 2", "Heading 2"), Some(2));
    assert_eq!(level_of("heading", "Heading"), Some(1));
    assert_eq!(level_of("heading 0", "Heading 0"), Some(1));
    assert_eq!(level_of("标题 3", "标题 3"), Some(3));
    assert_eq!(level_of("title", "Title"), None);
    assert_eq!(level_of("heading 99999999999", "Heading 99999999999"), Some(1));
}

#[test]
fn a_wordprocessing_document_keeps_its_structure() {
    let styles = xml(
        "<w:styles><w:style w:styleId=\"H1\"><w:name w:val=\"HEADING 1\"/></w:style>\
         <w:style w:styleId=\"LB\"><w:name w:val=\"List Bullet\"/><w:pPr><w:numPr>\
         <w:numId w:val=\"5\"/></w:numPr></w:pPr></w:style>\
         <w:style w:styleId=\"Sub\"><w:name w:val=\"Subtitle\"/><w:pPr><w:numPr/></w:pPr>\
         </w:style></w:styles>",
    );
    let numbering = xml(
        "<w:numbering><w:abstractNum w:abstractNumId=\"0\"><w:lvl w:ilvl=\"0\">\
         <w:numFmt w:val=\"bullet\"/></w:lvl><w:lvl w:ilvl=\"1\"><w:numFmt w:val=\"decimal\"/>\
         </w:lvl></w:abstractNum><w:num w:numId=\"5\"><w:abstractNumId w:val=\"0\"/></w:num>\
         </w:numbering>",
    );
    let document = xml(
        "<w:document><w:body>\
         <w:p><w:pPr><w:pStyle w:val=\"H1\"/></w:pPr><w:r><w:t>Top</w:t></w:r></w:p>\
         <w:p><w:pPr><w:pStyle w:val=\"LB\"/></w:pPr><w:r><w:t>one</w:t></w:r></w:p>\
         <w:p><w:pPr><w:numPr><w:ilvl w:val=\"1\"/><w:numId w:val=\"5\"/></w:numPr></w:pPr>\
         <w:r><w:t>two</w:t></w:r></w:p>\
         <w:p><w:pPr><w:numPr><w:numId w:val=\"77\"/></w:numPr></w:pPr><w:r><w:t>three</w:t>\
         </w:r></w:p>\
         <w:p><w:pPr><w:pStyle w:val=\"Sub\"/></w:pPr><w:r><w:t># no heading</w:t></w:r></w:p>\
         <w:p/>\
         <w:p><w:r><w:rPr><w:b/></w:rPr><w:t>bo</w:t></w:r><w:r><w:rPr><w:b w:val=\"1\"/></w:rPr>\
         <w:t>ld</w:t></w:r><w:r><w:rPr><w:b w:val=\"0\"/></w:rPr><w:t> end</w:t></w:r>\
         <w:hyperlink r:id=\"rId1\"><w:r><w:t>link</w:t></w:r></w:hyperlink>\
         <w:del><w:r><w:delText>gone</w:delText></w:r></w:del>\
         <w:ins><w:r><w:t>new</w:t><w:br/><w:t>line</w:t></w:r></w:ins></w:p>\
         <w:p><w:r><w:drawing><wp:docPr descr=\"pic\"/><a:blip r:embed=\"rId2\"/></w:drawing>\
         </w:r></w:p>\
         <w:tbl><w:tr><w:tc><w:p><w:r><w:t>a|b</w:t></w:r></w:p><w:p><w:r><w:t>c</w:t></w:r>\
         </w:p></w:tc></w:tr><w:tr><w:tc><w:p/></w:tc><w:tc><w:p><w:r><w:t>d</w:t></w:r></w:p>\
         </w:tc></w:tr></w:tbl>\
         <w:sectPr/></w:body></w:document>",
    );
    let rels = vec![
        rel("rId1", "https://example.org"),
        rel("rId2", "media/image1.png"),
    ];
    let made = docx(Some(&document), Some(&styles), Some(&numbering), &rels, 1000).expect("read");
    assert_eq!(
        made.shown.text,
        "# Top\n\n- one\n  1. two\n- three\n\n\\# no heading\n\n\
         **bold** end[link](https://example.org)new\\\nline\n\n![pic](media/image1.png)\n\n\
         | a\\|b<br>c |  |\n| --- | --- |\n|  | d |\n"
    );
    assert_eq!(made.shown.chars, made.shown.text.chars().count());
    assert!(!made.shown.cut);
    assert_eq!(made.blocks, 8);
    assert_eq!((made.paragraphs, made.headings), (3, 1));
    assert_eq!((made.list_items, made.bullet_items, made.ordered_items), (3, 2, 1));
    assert_eq!((made.list_from_style, made.unresolved_fmt), (1, 1));
    assert_eq!((made.tables, made.table_rows, made.empty_dropped), (1, 2, 1));
    let short = docx(Some(&document), None, None, &rels, 5).expect("read");
    assert_eq!(short.shown.text, "Top\n\n");
    assert!(short.shown.cut);
    assert!(docx(None, None, None, &rels, 5).is_none());
}

#[test]
fn an_outline_level_makes_a_heading_too() {
    let document = xml(
        "<body><p><pPr><pStyle w:val=\"Odd\"/><outlineLvl w:val=\"2\"/></pPr><r><t>x</t></r></p>\
         </body>",
    );
    let made = docx(Some(&document), None, None, &Vec::new(), 100).expect("read");
    assert_eq!(made.shown.text, "### x\n");
}

#[test]
fn an_opendocument_text_keeps_its_structure() {
    let styles = xml(
        "<style:style style:name=\"Strong\" style:family=\"text\"><style:text-properties \
         fo:font-weight=\"bold\"/></style:style><text:list-style style:name=\"L1\">\
         <text:list-level-style-bullet text:level=\"1\"/><text:list-level-style-number \
         text:level=\"2\"/></text:list-style>",
    );
    let content = xml(
        "<office:document><style:style style:name=\"T1\" style:family=\"text\">\
         <style:text-properties fo:font-style=\"italic\"/></style:style><office:body><office:text>\
         <text:h text:outline-level=\"2\">Head</text:h>\
         <text:p>两处空格 <text:s/>之间是一个记号<text:s text:c=\"2\"/>x</text:p>\
         <text:list text:style-name=\"L1\"><text:list-item><text:p>a</text:p><text:list>\
         <text:list-item><text:p>b</text:p></text:list-item></text:list></text:list-item>\
         </text:list>\
         <text:list><text:list-item><text:p>c</text:p></text:list-item></text:list>\
         <text:p><text:span text:style-name=\"Strong\">s<text:span text:style-name=\"T1\">t\
         </text:span></text:span><text:span text:style-name=\"None\">u</text:span>\
         <text:a xlink:href=\"h\">l</text:a><text:note><text:p>no</text:p></text:note>\
         <office:annotation><text:p>no</text:p></office:annotation><text:line-break/>z</text:p>\
         <text:p/>\
         <table:table><table:table-row><table:table-cell table:number-columns-repeated=\"2\">\
         <text:p>k</text:p></table:table-cell><table:covered-table-cell/></table:table-row>\
         </table:table>\
         <text:p><draw:frame><draw:image xlink:href=\"Pictures/a.png\"/></draw:frame></text:p>\
         </office:text></office:body></office:document>",
    );
    let made = odf(Some(&content), Some(&styles), 1000).expect("read");
    assert_eq!(
        made.shown.text,
        "## Head\n\n两处空格  之间是一个记号  x\n\n- a\n  1. b\n- c\n\n\
         **s*****t***u[l](h)\\\nz\n\n| k | k |  |\n| --- | --- | --- |\n\n![](Pictures/a.png)\n"
    );
    assert_eq!(made.blocks, 8);
    assert_eq!((made.paragraphs, made.headings, made.list_items), (3, 1, 3));
    assert_eq!((made.bullet_items, made.ordered_items, made.unresolved_fmt), (2, 1, 1));
    assert_eq!((made.tables, made.table_rows, made.empty_dropped), (1, 1, 1));
    assert_eq!((made.lists_named, made.lists_unnamed), (1, 2));
    assert_eq!((made.spans_unresolved, made.space_markers), (1, 2));
    assert_eq!((made.annotations_dropped, made.notes_dropped), (1, 1));
    assert_eq!((made.links, made.images), (1, 1));
    assert_eq!((made.covered_cells, made.repeated_spans), (1, 1));
    assert_eq!(made.bullet_items + made.ordered_items, made.list_items);
    assert_eq!(made.paragraphs + made.headings + made.list_items + made.tables, made.blocks);
    let short = odf(Some(&content), Some(&styles), 4).expect("read");
    let longer = odf(Some(&content), Some(&styles), 9).expect("read");
    assert_eq!((short.shown.text.as_str(), short.shown.cut), ("## H", true));
    assert!(longer.shown.text.starts_with(&short.shown.text));
    assert_eq!((short.shown.chars, longer.shown.chars), (made.shown.chars, made.shown.chars));
    assert!(!made.shown.cut);
    assert!(odf(None, None, 10).is_none());
}

#[test]
fn what_was_deleted_is_no_text() {
    let content = xml(
        "<office:body><office:text><text:tracked-changes><text:changed-region><text:deletion>\
         <text:p>gone</text:p></text:deletion></text:changed-region></text:tracked-changes>\
         <text:p>kept</text:p></office:text></office:body>",
    );
    let made = odf(Some(&content), None, 100).expect("read");
    assert_eq!(made.shown.text, "kept\n");
    assert_eq!((made.blocks, made.paragraphs, made.notes_dropped), (1, 1, 1));
}
