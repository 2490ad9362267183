//! What text documents say about their own structure.

use lilyco_binfmt::bookmark_pairs;
use lilyco_binfmt::comment_threads;
use lilyco_binfmt::comments;
use lilyco_binfmt::document::{
    branch, concat_notes, count_names, count_texts, doc_marks, doc_notes, find_spans, look_over,
    refusal, Branch, Family, Heading, Para,
};
use lilyco_binfmt::docx::contents::{
    docx_contents, producer_counts, rtf_contents, switch_value, Told,
};
use lilyco_binfmt::docx::numbering::docx_numbering;
use lilyco_binfmt::docx::paragraphs::{docx_columns, docx_paragraph_formats};
use lilyco_binfmt::docx::pictures::{docx_pictures, Rel};
use lilyco_binfmt::docx::runs::{docx_run_formats, is_off};
use lilyco_binfmt::docx::structure::{read_docx, DocxParts};
use lilyco_binfmt::docx::tables::docx_table_layouts;
use lilyco_binfmt::equations;
use lilyco_binfmt::equations::{member_of, PartTree};
use lilyco_binfmt::keep_switches;
use lilyco_binfmt::languages;
use lilyco_binfmt::line_spacing;
use lilyco_binfmt::note_settings;
use lilyco_binfmt::odf::layout::{odf_columns, odf_contents, odf_paragraph_formats, odt_pictures};
use lilyco_binfmt::odf::numbering::odf_numbering;
use lilyco_binfmt::odf::runs::odt_run_formats;
use lilyco_binfmt::odf::structure::{read_odt, OdtParts};
use lilyco_binfmt::odf::tables::{edge_lined, odf_table_layouts};
use lilyco_binfmt::odf::Part;
use lilyco_binfmt::order::sort_texts;
use lilyco_binfmt::paper::{emu, length, twips};
use lilyco_binfmt::rtf::{
    read_rtf, rtf_numbering, rtf_run_formats, BreakWords, FieldLink, Ledgers, NumberingLedgers,
    StyleUse, Switches,
};
use lilyco_binfmt::odfchart::attrs_of;
use lilyco_binfmt::words::{parse_signed, parse_unsigned, trim};
use lilyco_binfmt::written::{attr_map, kept_attrs};
use lilyco_binfmt::xml::Node;

fn element(name: &str, attrs: Vec<(String, String)>) -> Node {
    Node {
        name: name.to_string(),
        attrs,
        children: Vec::new(),
        direct: String::new(),
    }
}

/// Reads a small piece of XML into a nameless root.
fn xml(source: &str) -> Node {
    let mut stack: Vec<Node> = vec![element("", Vec::new())];
    let mut rest = source;
    while let Some(at) = rest.find('<') {
        if at > 0 {
            let mut run = element("#text", Vec::new());
            run.direct = rest[..at].to_string();
            stack.last_mut().expect("open").children.push(run);
        }
        let end = at + rest[at..].find('>').expect("closed");
        let tag = &rest[at + 1..end];
        rest = &rest[end + 1..];
        if tag.starts_with('/') {
            let done = stack.pop().expect("open");
            stack.last_mut().expect("root").children.push(done);
            continue;
        }
        let alone = tag.ends_with('/');
        let tag = tag.trim_end_matches('/');
        let (name, mut said) = match tag.find(' ') {
            Some(k) => (&tag[..k], &tag[k..]),
            None => (tag, ""),
        };
        let mut attrs: Vec<(String, String)> = Vec::new();
        while let Some(k) = said.find('=') {
            let key = said[..k].trim().to_string();
            let tail = &said[k + 2..];
            let stop = tail.find('"').expect("quoted");
            attrs.push((key, tail[..stop].to_string()));
            said = &tail[stop + 1..];
        }
        let node = element(name, attrs);
        if alone {
            stack.last_mut().expect("open").children.push(node);
        } else {
            stack.push(node);
        }
    }
    if !rest.is_empty() {
        let mut run = element("#text", Vec::new());
        run.direct = rest.to_string();
        stack.last_mut().expect("open").children.push(run);
    }
    stack.pop().expect("root")
}

fn texts(v: &[&str]) -> Vec<String> {
    v.iter().map(|one| one.to_string()).collect()
}

fn pair(a: &str, b: &str) -> (String, String) {
    (a.to_string(), b.to_string())
}

#[test]
fn files_are_told_apart_by_family_and_application() {
    assert_eq!(branch(Family::Ooxml, "word"), Some(Branch::Docx));
    assert_eq!(branch(Family::Odf, "word"), Some(Branch::Odt));
    assert_eq!(branch(Family::Rtf, ""), Some(Branch::Rtf));
    assert_eq!(branch(Family::Compound, "word"), Some(Branch::Doc));
    assert_eq!(branch(Family::Ooxml, "excel"), None);
    assert_eq!(branch(Family::Zip, "word"), None);
    assert_eq!(Branch::Doc.kind(), "word-binary");
    let why = refusal("a.xlsx", "excel", "xlsx");
    assert!(why.starts_with("a.xlsx 不是 Word 文档（识别为 excel / xlsx）"), "{why}");
    assert_eq!(concat_notes(&texts(&["a"]), "b"), vec!["a", "b"]);
    assert_eq!(
        doc_notes(&texts(&["a"])),
        vec![
            "a",
            "遗留 .doc 的段落样式、表格与图形在表流的其它记录里，本版本只数正文里的结构标记；修订那份账\
             （谁、什么时候）也住在表流里，这里读不出，宁可给 null",
        ]
    );
}

#[test]
fn words_and_characters_are_counted() {
    let tally = count_texts(&texts(&["ab c", " 中 文 "]));
    assert_eq!((tally.characters, tally.no_space, tally.words_by_space), (9, 5, 4));
    let used = count_names(&vec![
        Some("b".to_string()),
        None,
        Some("a".to_string()),
        Some("b".to_string()),
    ]);
    assert_eq!(used.iter().find(|one| one.0 == "b").map(|one| one.1), Some(2));
    assert_eq!(sort_texts(&texts(&["b", "a", "ab", ""])), vec!["", "a", "ab", "b"]);
    assert_eq!(trim(" \u{3000}x y\t"), "x y");
    assert_eq!(parse_unsigned("+12", 100), Some(12));
    assert_eq!(parse_unsigned("101", 100), None);
    assert_eq!(parse_unsigned("", 100), None);
    assert_eq!(parse_signed("-9223372036854775808"), Some(i64::MIN));
    assert_eq!(parse_signed("9223372036854775808"), None);
}

#[test]
fn marks_of_a_binary_document_are_counted() {
    let marks = doc_marks("a\rb\r\u{7}\u{13}\u{1}\u{2}\u{5}\u{c}\u{b}");
    assert_eq!((marks.paragraphs, marks.table_cell_marks, marks.field_marks), (2, 1, 1));
    assert_eq!((marks.object_marks, marks.annotation_marks), (2, 1));
    assert_eq!((marks.page_break_marks, marks.soft_breaks), (1, 1));
}

#[test]
fn an_overview_lists_headings_and_styles() {
    let para = |text: &str, style: Option<&str>, level: Option<u64>| Para {
        text: text.to_string(),
        style: style.map(|one| one.to_string()),
        level,
    };
    let seen = look_over(
        &vec![
            para("Top", Some("Heading 1"), Some(1)),
            para("", None, None),
            para("two words", Some("Normal"), None),
        ],
        10,
    );
    assert_eq!((seen.empty, seen.tally.words_by_space), (1, 3));
    assert_eq!(seen.headings.len(), 1);
    assert_eq!((seen.headings[0].level, seen.headings[0].text.as_str()), (1, "Top"));
    assert_eq!(seen.styles.len(), 2);
}

#[test]
fn lengths_come_to_hundredths_of_a_millimetre() {
    assert_eq!(emu("360000"), Some(1000));
    assert_eq!(twips("1440"), Some(2540));
    assert_eq!(length("2.54cm"), Some(2540));
    assert_eq!(length("1in"), Some(2540));
    assert_eq!(length("10mm"), Some(1000));
    assert_eq!(length("72pt"), Some(2540));
    assert_eq!(length("wide"), None);
    assert_eq!(emu("x"), None);
}

#[test]
fn paragraph_formats_stand_on_the_paragraph() {
    let body = xml(
        "<w:p><w:pPr><w:spacing w:line=\"360\"/><w:ind w:left=\"1701\" w:firstLine=\"480\"/>\
         <w:jc w:val=\"both\"/></w:pPr></w:p><w:p/><w:p><w:pPr><w:pStyle w:val=\"S\"/></w:pPr></w:p>",
    );
    let paras = body.descendants("p");
    let report = docx_paragraph_formats(&paras, 10);
    assert_eq!((report.checked, report.listed), (3, 2));
    assert_eq!((report.with_alignment, report.with_indent, report.with_spacing), (1, 1, 1));
    let first = &report.list[0];
    assert_eq!(first.index, 0);
    assert_eq!(first.elements, vec!["spacing", "ind", "jc"]);
    assert_eq!(first.alignment.as_deref(), Some("both"));
    assert_eq!(
        first.indent,
        Some(vec![pair("left", "1701"), pair("firstLine", "480")])
    );
    assert_eq!(report.list[1].style.as_deref(), Some("S"));
    assert_eq!(docx_paragraph_formats(&paras, 1).list.len(), 1);
}

#[test]
fn columns_stand_in_the_section() {
    let body = xml(
        "<w:p><w:pPr><w:sectPr><w:cols w:num=\"2\" w:space=\"425\"><w:column w:w=\"1\"/><w:column/>\
         </w:cols></w:sectPr></w:pPr></w:p><w:sectPr><w:cols w:space=\"1\"/></w:sectPr>",
    );
    let report = docx_columns(&body, 10);
    assert_eq!(report.written, 2);
    assert_eq!(report.multi, 1);
    assert_eq!(report.list[0].count.as_deref(), Some("2"));
    assert_eq!(report.list[0].parts.len(), 2);
}

#[test]
fn runs_say_what_they_switch() {
    let body = xml(
        "<w:p><w:r><w:rPr><w:b/><w:i w:val=\"0\"/></w:rPr><w:t>a</w:t></w:r><w:r><w:rPr/>\
         <w:t>b</w:t></w:r><w:r><w:rPr><w:rStyle w:val=\"Strong\"/></w:rPr><w:t>c</w:t></w:r>\
         <w:hyperlink><w:r><w:t>d</w:t></w:r></w:hyperlink></w:p>",
    );
    let styles = xml(
        "<w:style w:type=\"character\" w:styleId=\"Strong\"><w:name w:val=\"Strong\"/><w:rPr><w:b/>\
         </w:rPr></w:style>",
    );
    let paras = body.descendants("p");
    let report = docx_run_formats(&paras, Some(&styles), None, None, 10);
    assert_eq!((report.checked, report.with_props, report.props_empty), (4, 3, 1));
    assert_eq!((report.bold_on, report.bold_off, report.italic_off), (1, 0, 1));
    assert_eq!((report.with_style, report.style_found, report.bold_from_style), (1, 1, 1));
    assert_eq!((report.wrapped, report.wrapped_link), (1, 1));
    assert_eq!(report.list[0].text, "a");
    assert_eq!(report.list[0].switches.bold, Some(true));
    assert!(is_off("0") && is_off("false") && !is_off("1"));
}

#[test]
fn notes_are_found_from_the_runs_that_refer_to_them() {
    let body = xml("<w:p><w:r><w:footnoteReference w:id=\"2\"/></w:r></w:p>");
    let notes = xml(
        "<w:footnotes><w:footnote w:id=\"-1\" w:type=\"separator\"/><w:footnote w:id=\"2\"/>\
         <w:footnote w:id=\"3\"/></w:footnotes>",
    );
    let paras = body.descendants("p");
    let report = docx_run_formats(&paras, None, Some(&notes), None, 10);
    assert_eq!((report.with_ref, report.ref_found), (1, 1));
    assert_eq!(report.list[0].footnote.as_deref(), Some("2"));
    assert_eq!(report.notes_referenced + report.notes_unreferenced, report.notes_in_parts);
}

#[test]
fn numbers_come_from_the_paragraph_or_its_style() {
    let numbering = xml(
        "<w:numbering><w:abstractNum w:abstractNumId=\"0\"><w:lvl w:ilvl=\"0\"><w:numFmt \
         w:val=\"decimal\"/></w:lvl></w:abstractNum><w:num w:numId=\"1\"><w:abstractNumId \
         w:val=\"0\"/></w:num></w:numbering>",
    );
    let styles = xml(
        "<w:styles><w:style w:styleId=\"L\"><w:pPr><w:numPr><w:numId w:val=\"1\"/></w:numPr></w:pPr>\
         </w:style></w:styles>",
    );
    let body = xml(
        "<w:p><w:pPr><w:numPr><w:ilvl w:val=\"0\"/><w:numId w:val=\"1\"/></w:numPr></w:pPr></w:p>\
         <w:p><w:pPr><w:pStyle w:val=\"L\"/></w:pPr></w:p>\
         <w:p><w:pPr><w:numPr><w:numId w:val=\"99\"/></w:numPr></w:pPr></w:p><w:p/>",
    );
    let paras = body.descendants("p");
    let report = docx_numbering(&paras, Some(&numbering), Some(&styles), true, 10);
    assert_eq!((report.checked, report.listed), (4, 3));
    assert_eq!((report.on_paragraph, report.via_style, report.unresolved), (2, 1, 1));
    assert_eq!((report.nums, report.abstracts), (1, 1));
    assert!(report.list[0].resolved && !report.list[2].resolved);
    assert_eq!(report.definitions.len(), 1);
    assert!(report.definitions[0].referenced);
}

#[test]
fn a_table_states_widths_three_times() {
    let body = xml(
        "<w:tbl><w:tblPr><w:tblW w:w=\"1440\" w:type=\"dxa\"/><w:jc w:val=\"center\"/></w:tblPr>\
         <w:tblGrid><w:gridCol w:w=\"700\"/><w:gridCol w:w=\"740\"/></w:tblGrid><w:tr><w:tc><w:tcPr>\
         <w:tcW w:w=\"700\"/><w:gridSpan w:val=\"2\"/><w:shd w:fill=\"FF0000\"/></w:tcPr></w:tc>\
         </w:tr></w:tbl>",
    );
    let report = docx_table_layouts(&body, 10);
    assert_eq!((report.with_width, report.auto, report.grid_sum), (1, 0, 2540));
    assert_eq!(report.shade_cells, 1);
    let table = &report.list[0];
    assert_eq!((table.w.as_deref(), table.mm), (Some("1440"), Some(2540)));
    assert_eq!(table.align.as_deref(), Some("center"));
    assert_eq!(table.grid.len(), 2);
    assert_eq!(table.cells[0].span.as_deref(), Some("2"));
}

#[test]
fn a_picture_has_two_sizes() {
    let body = xml(
        "<w:drawing><wp:inline><wp:extent cx=\"360000\" cy=\"720000\"/><wp:docPr id=\"1\" name=\"n\" \
         descr=\"d\"/><a:graphic><a:graphicData><pic:pic><pic:blipFill><a:blip r:embed=\"rId1\"/>\
         </pic:blipFill><pic:spPr><a:xfrm><a:ext cx=\"1\" cy=\"2\"/></a:xfrm></pic:spPr></pic:pic>\
         </a:graphicData></a:graphic></wp:inline></w:drawing>",
    );
    let rels = vec![Rel {
        id: "rId1".to_string(),
        source: "word/document.xml".to_string(),
        kind: "image".to_string(),
        target: "media/image1.png".to_string(),
        external: false,
        resolved: Some("word/media/image1.png".to_string()),
    }];
    let list = docx_pictures(&body, &rels, 10);
    assert_eq!(list.len(), 1);
    let extent = list[0].extent.as_ref().expect("written");
    assert_eq!((extent.mm_w, extent.mm_h), (Some(1000), Some(2000)));
    assert_eq!(list[0].blip_id.as_deref(), Some("rId1"));
    assert_eq!(list[0].alt.as_ref().expect("written").descr.as_deref(), Some("d"));
}

#[test]
fn a_table_of_contents_is_found_either_way() {
    let field = xml("<w:p><w:r><w:instrText> TOC \\o \"1-3\" \\h </w:instrText></w:r></w:p>");
    let report = docx_contents(&field);
    assert_eq!(report.levels.as_deref(), Some("1-3"));
    assert_eq!(report.fields.len(), 1);
    let none = docx_contents(&xml("<w:p/>"));
    assert!(none.via.is_none() && none.fields.is_empty());
    assert_eq!(switch_value("TOC \\o \"1-3\"", "\\o").as_deref(), Some("1-3"));
    assert_eq!(switch_value("TOC", "\\o"), None);
    let rtf = rtf_contents(&texts(&["toc \\o \"2-4\"", "PAGE"]));
    assert_eq!((rtf.fields.len(), rtf.levels.as_deref()), (1, Some("2-4")));
}

#[test]
fn the_program_has_counts_of_its_own() {
    let counts = producer_counts(&xml(
        "<Properties><Words>12</Words><Characters>many</Characters></Properties>",
    ))
    .expect("written");
    match counts.words {
        Some(Told::Number(n)) => assert_eq!(n, 12),
        other => panic!("{other:?}"),
    }
    match counts.characters {
        Some(Told::Text(t)) => assert_eq!(t, "many"),
        other => panic!("{other:?}"),
    }
}

#[test]
fn a_whole_wordprocessing_document_is_accounted_for() {
    let root = xml(
        "<w:document><w:body><w:p><w:r><w:t>Top</w:t><w:br w:type=\"page\"/></w:r></w:p><w:tbl><w:tr>\
         <w:tc><w:p/></w:tc><w:tc/></w:tr></w:tbl><w:sectPr/></w:body></w:document>",
    );
    let paras = vec![Para {
        text: "Top".to_string(),
        style: None,
        level: Some(1),
    }];
    let entries = texts(&["word/document.xml", "word/media/a.png"]);
    let rels = vec![Rel {
        id: "rId1".to_string(),
        source: "word/document.xml".to_string(),
        kind: "image".to_string(),
        target: "media/a.png".to_string(),
        external: false,
        resolved: Some("word/media/a.png".to_string()),
    }];
    let parts = DocxParts {
        root: &root,
        styles: None,
        numbering: None,
        footnotes: None,
        endnotes: None,
        comments: None,
        app: None,
        rels: &rels,
        entries: &entries,
        paras: &paras,
        unverified: None,
        rel_notes: &Vec::new(),
    };
    let report = read_docx(&parts, 10);
    assert_eq!((report.counts.tables, report.counts.table_rows), (1, 1));
    assert_eq!((report.counts.table_cells, report.counts.sections), (2, 1));
    assert_eq!(report.counts.page_breaks, 1);
    assert_eq!(report.overview.headings.len(), 1);
    assert_eq!(report.tables[0].cells, 2);
    assert_eq!(report.images, vec!["word/media/a.png"]);
}

const ODT: &str = "<office:document><office:automatic-styles><style:style style:name=\"P1\" \
    style:family=\"paragraph\" style:list-style-name=\"L1\"><style:paragraph-properties \
    fo:text-align=\"center\" fo:margin-left=\"1cm\" fo:line-height=\"150%\" \
    fo:keep-with-next=\"always\"/></style:style>\
    <style:style style:name=\"T1\" style:family=\"text\"><style:text-properties \
    fo:font-weight=\"bold\" fo:language=\"zh\" fo:country=\"CN\"/></style:style>\
    <style:style style:name=\"Sect\" style:family=\"section\"><style:section-properties>\
    <style:columns fo:column-count=\"2\"><style:column/><style:column/></style:columns>\
    </style:section-properties></style:style><text:list-style style:name=\"L1\">\
    <text:list-level-style-number text:level=\"1\"/></text:list-style>\
    <style:style style:name=\"ce\" style:family=\"table-cell\"><style:table-cell-properties \
    fo:border=\"0.5pt solid #000000\" fo:background-color=\"#ff0000\"/></style:style>\
    </office:automatic-styles><office:body><office:text><text:h text:outline-level=\"1\">Top</text:h>\
    <text:list text:style-name=\"L1\"><text:list-item><text:p text:style-name=\"P1\">a<text:span \
    text:style-name=\"T1\">b</text:span></text:p></text:list-item></text:list>\
    <text:section text:name=\"S\" text:style-name=\"Sect\"><text:p/></text:section><table:table \
    table:name=\"t\"><table:table-column/><table:table-row><table:table-cell \
    table:style-name=\"ce\"><text:p>x</text:p></table:table-cell></table:table-row></table:table>\
    <draw:frame svg:width=\"2.54cm\" text:anchor-type=\"as-char\"><draw:image \
    xlink:href=\"Pictures/a.png\"/></draw:frame></office:text></office:body></office:document>";

#[test]
fn an_opendocument_text_keeps_its_values_on_styles() {
    let root = xml(ODT);
    let paras = root.descendants("p");
    let formats = odf_paragraph_formats(&paras, &root, 10);
    assert_eq!((formats.checked, formats.resolved), (3, 1));
    let runs = odt_run_formats(&paras, &root, None, 10);
    assert_eq!((runs.spans, runs.bold_on, runs.resolved), (1, 1, 1));
    assert_eq!(runs.spans + runs.bare_text, runs.listed);
    let body = root.descendants("text")[0];
    let lists = odf_numbering(&paras, body, &root, None, 10);
    assert_eq!((lists.lists, lists.items, lists.in_list), (1, 1, 1));
    assert_eq!((lists.styles, lists.in_content, lists.in_styles), (1, 1, 0));
    let columns = odf_columns(&root, 10);
    assert_eq!(columns.list.len(), 1);
    assert_eq!(columns.list[0].parts.len(), 2);
    let tables = odf_table_layouts(body, &root, None, 10);
    assert_eq!((tables.cell_elements, tables.shade_cells, tables.lined_cells), (1, 1, 1));
    assert!(edge_lined("0.5pt solid #000000") && !edge_lined("none"));
    let pictures = odt_pictures(body, 10);
    assert_eq!(pictures[0].mm_w, Some(2540));
    assert_eq!(pictures[0].href.as_deref(), Some("Pictures/a.png"));
    assert!(!odf_contents(&root).present);
}

#[test]
fn a_whole_opendocument_text_is_accounted_for() {
    let root = xml(ODT);
    let entries = texts(&["content.xml", "Pictures/a.png"]);
    let lines = texts(&["ab", "", "x"]);
    let heads = texts(&["Top"]);
    let report = read_odt(
        &OdtParts {
            root: &root,
            styles: Err("gone".to_string()),
            meta: None,
            entries: &entries,
            texts: &lines,
            heads: &heads,
            all_texts: &lines,
        },
        10,
    );
    assert_eq!((report.counts.table_rows, report.counts.table_cells), (1, 1));
    assert_eq!((report.counts.lists, report.counts.sections), (1, 1));
    assert_eq!(report.headings.len(), 1);
    assert_eq!((report.headings[0].level, report.headings[0].text.as_str()), (Some(1), "Top"));
    assert_eq!(report.images, vec!["Pictures/a.png"]);
}

#[test]
fn rich_text_answers_with_what_the_stream_shows() {
    let row = |bold: Option<bool>| Switches {
        bold,
        italic: None,
        strike: None,
        underline: Some(true),
    };
    let runs = rtf_run_formats(&vec![row(Some(true)), row(Some(false)), row(None)], 2);
    assert_eq!((runs.checked, runs.bold_on, runs.bold_off), (3, 1, 1));
    assert_eq!((runs.underline_on, runs.italic_on), (3, 0));
    assert_eq!((runs.listed, runs.list.len(), runs.list[1].bold), (2, 2, Some(false)));
    let report = read_rtf(
        &Ledgers {
            lines: texts(&["one two"]),
            note_kinds: texts(&["footnote", "endnote", "footnote"]),
            picture_alts: vec![Some("a".to_string()), None],
            style_uses: vec![StyleUse {
                name: "Normal".to_string(),
                count: 2,
            }],
            links: vec![FieldLink {
                target: "https://example.org".to_string(),
                text: "x".to_string(),
            }],
            breaks: BreakWords {
                par: 3,
                line: 1,
                page: 2,
                pagebb: 0,
                pbb: 0,
                sect: 1,
            },
            runs: Vec::new(),
            instructions: Vec::new(),
            headings: vec![
                Heading { level: 1, text: "Top".to_string() },
                Heading { level: 2, text: "Next".to_string() },
            ],
            notes: texts(&["read"]),
        },
        1,
    );
    assert_eq!((report.footnotes, report.endnotes), (2, 1));
    assert_eq!((report.with_alt, report.without_alt), (1, 1));
    assert_eq!(report.tally.words_by_space, 2);
    assert_eq!(report.hyperlinks.len(), 1);
    assert_eq!((report.paragraphs, report.section_breaks), (1, 1));
    assert_eq!((report.headings.len(), report.heading_total), (1, 2));
    assert_eq!((report.headings[0].level, report.headings[0].text.as_str()), (1, "Top"));
    assert_eq!(report.notes.len(), 2);
    assert_eq!(report.notes[0], "read");
    assert!(report.notes[1].starts_with("RTF 这一支只报流里数得清的东西：段落按 par 控制字切"));
    assert!(report.notes[1].contains("注按目标群分（尾注靠群里的 ftnalt 判）"));
    assert!(report.notes[1].ends_with("null 是「没看」或「判不住」，不是「这份文件没有」"));
}

#[test]
fn equations_stand_inline_or_on_their_own() {
    let body = xml(
        "<w:body><w:p><m:oMathPara><m:oMathParaPr><m:jc m:val=\"center\"/></m:oMathParaPr><m:oMath><m:f><m:num>\
         <m:r><m:t>1</m:t></m:r></m:num><m:den><m:r><m:t>2</m:t></m:r></m:den></m:f></m:oMath>\
         </m:oMathPara></w:p><w:p><m:oMath><m:r><m:t>x</m:t></m:r></m:oMath></w:p><w:p/></w:body>",
    );
    let report = equations::docx(&body, 10).expect("there");
    assert_eq!((report.equations_total, report.paragraphs_total), (2, 3));
    assert_eq!((report.inline_total, report.display_total), (1, 1));
    assert_eq!(report.items[0].text, "12");
    assert_eq!(report.items[0].align_written.as_deref(), Some("center"));
    assert_eq!(member_of("./Object 1"), "Object 1/content.xml");
    assert_eq!(member_of("./"), "");
}

#[test]
fn embedded_equations_stand_in_parts_of_their_own() {
    let root = xml(
        "<office:body><office:text><text:p><draw:frame draw:name=\"F\"><draw:object xlink:href=\"./Object 1\"/></draw:frame>\
         </text:p><text:p><draw:frame><draw:object xlink:href=\"./Object 2\"/></draw:frame></text:p>\
         </office:text></office:body>",
    );
    let parts = vec![PartTree {
        name: "Object 1/content.xml".to_string(),
        root: xml("<math display=\"block\"><mi>x</mi><mo>=</mo></math>"),
    }];
    let report = equations::odf(&root, &parts, 10).expect("there");
    assert_eq!((report.parts_found, report.parts_missing), (1, 1));
    assert_eq!((report.math_found, report.block_written), (1, 1));
    assert_eq!(report.items[0].text, "x=");
}

#[test]
fn comment_threads_are_two_steps_long() {
    let part = xml(
        "<w:comments><w:comment w:id=\"0\" w:author=\"A\"><w:p w14:paraId=\"P0\"/></w:comment>\
         <w:comment w:id=\"1\"><w:p w14:paraId=\"P1\"/></w:comment></w:comments>",
    );
    let extended = xml(
        "<w15:commentsEx><w15:commentEx w15:paraId=\"P0\" w15:done=\"1\"/><w15:commentEx \
         w15:paraId=\"P1\" w15:paraIdParent=\"P0\" w15:done=\"0\"/><w15:commentEx \
         w15:paraId=\"P9\"/></w15:commentsEx>",
    );
    let report = comment_threads::docx(Some(&part), Some(&extended), None, 10);
    assert_eq!((report.comments_total, report.ext_total), (2, 3));
    assert_eq!((report.ext_matched, report.ext_orphans), (2, 1));
    assert_eq!((report.done_true, report.done_false), (1, 1));
    assert_eq!(report.threads[1].replies_to, Some(0));
    let remarks = comment_threads::odf(
        &xml("<office:annotation loext:resolved=\"true\"/><office:annotation/>"),
        None,
        10,
    );
    assert_eq!((remarks.annotations_total, remarks.resolved_true), (2, 1));
    assert_eq!(remarks.without_resolved, 1);
    assert_eq!(remarks.annotations[0].part, Part::Content);
}

#[test]
fn comments_are_anchored_in_the_body() {
    let part = xml(
        "<w:comments><w:comment w:id=\"0\" w:author=\"A\" w:initials=\"a\"><w:p/><w:p/></w:comment>\
         <w:comment w:id=\"7\" w:author=\"A\"/></w:comments>",
    );
    let body = xml(
        "<w:p><w:commentRangeStart w:id=\"0\"/><w:commentRangeEnd w:id=\"0\"/><w:r>\
         <w:commentReference w:id=\"0\"/></w:r></w:p>",
    );
    let lines = vec![texts(&["one", "two"]), Vec::new()];
    let report = comments::docx(&body, Some(&part), &lines, 10);
    assert_eq!((report.comments_total, report.anchor_starts, report.anchor_ends), (2, 1, 1));
    assert_eq!(report.orphans_without_anchor, 1);
    assert_eq!(report.distinct_authors, vec!["A"]);
    assert_eq!(report.comments[0].text, "one\ntwo");
    let none = comments::docx(&body, None, &Vec::new(), 10);
    assert!(!none.part_written);
}

#[test]
fn bookmarks_pair_or_stand_alone() {
    let body = xml(
        "<w:p><w:bookmarkStart w:id=\"0\" w:name=\"a\"/><w:bookmarkEnd w:id=\"0\"/>\
         <w:bookmarkStart w:id=\"1\" w:name=\"_b\"/></w:p><w:bookmarkEnd w:id=\"9\"/>",
    );
    let report = bookmark_pairs::docx(&body, 10);
    assert_eq!((report.starts_total, report.pairs_closed), (2, 1));
    assert_eq!(report.starts_without_end, 1);
    assert_eq!(report.hidden_starts, 1);
    assert_eq!(report.names.total, 2);
    let spans = bookmark_pairs::odf(
        &xml(
            "<text:p><text:bookmark text:name=\"p\"/><text:bookmark-start text:name=\"s\"/>\
             <text:bookmark-end text:name=\"s\"/></text:p>",
        ),
        10,
    );
    assert_eq!((spans.points_total, spans.spans_closed), (1, 1));
}

#[test]
fn keep_switches_stand_bare_or_with_a_value() {
    let body = xml(
        "<w:p><w:pPr><w:keepNext/><w:widowControl w:val=\"0\"/></w:pPr></w:p><w:p/>",
    );
    let report = keep_switches::docx(&body, 10);
    assert_eq!((report.paragraphs_total, report.props_elements), (2, 1));
    assert_eq!((report.keep_next.bare, report.widow_control.with_value), (1, 1));
    assert!(report.paragraphs[0].keep_next.on_written);
    assert!(report.paragraphs[0].widow_control.off_written);
    let styled = keep_switches::odf(&xml(ODT), None, 10);
    assert_eq!(styled.keep_with_next, vec![("always".to_string(), 1)]);
}

#[test]
fn line_spacing_is_written_in_two_ways() {
    let body = xml(
        "<w:p><w:pPr><w:spacing w:line=\"360\" w:lineRule=\"auto\"/></w:pPr></w:p><w:p/>",
    );
    let report = line_spacing::docx(&body, 10);
    assert_eq!((report.with_line_written, report.with_both), (1, 1));
    assert_eq!(report.rules_written, vec![("auto".to_string(), 1)]);
    let heights = line_spacing::odf(&xml(ODT), None, 10);
    assert_eq!(heights.with_line_height, 1);
}

#[test]
fn note_settings_stand_in_the_settings_or_the_section() {
    let document = xml(
        "<w:body><w:sectPr><w:footnotePr><w:numFmt w:val=\"decimal\"/><w:pos w:val=\"pageBottom\"/>\
         </w:footnotePr></w:sectPr></w:body>",
    );
    let settings = xml(
        "<w:settings><w:footnotePr><w:numFmt w:val=\"roman\"/><w:numStart w:val=\"1\"/>\
         </w:footnotePr></w:settings>",
    );
    let report = note_settings::docx(&document, Some(&settings), 10);
    assert!(report.settings_part);
    assert_eq!((report.sections_total, report.sections_with_footnote), (1, 1));
    assert_eq!(report.in_both.len(), 1, "{:?}", report.in_both);
    assert_eq!(report.only_in_settings.len(), 1);
    assert_eq!(report.only_in_sections.len(), 1);
    let configs = note_settings::odf(
        &xml("<text:notes-configuration text:note-class=\"footnote\" style:num-format=\"1\"/>"),
        None,
        10,
    );
    assert_eq!(configs.configs_total, 1);
    assert_eq!(configs.classes_written, vec!["footnote"]);
}

#[test]
fn languages_stand_on_three_levels() {
    let document = xml(
        "<w:body><w:p><w:pPr><w:rPr><w:lang w:val=\"en-US\"/></w:rPr></w:pPr><w:r><w:rPr><w:lang \
         w:eastAsia=\"zh-CN\"/></w:rPr></w:r></w:p></w:body>",
    );
    let report = languages::docx(&document, None, 10);
    assert_eq!(report.in_document, 2);
    assert_eq!((report.paragraphs.with_lang, report.runs.with_lang), (1, 1));
    assert_eq!(report.distinct_vals, vec!["en-US"]);
    assert_eq!(report.distinct_east_asia, vec!["zh-CN"]);
    let entries = languages::odf(&xml(ODT), None, 10);
    assert_eq!(entries.distinct_languages, vec!["zh"]);
    assert_eq!(entries.distinct_countries, vec!["CN"]);
}

#[test]
fn a_limit_hides_no_level() {
    let numbering = xml(
        "<w:numbering><w:abstractNum w:abstractNumId=\"8\"><w:lvl w:ilvl=\"0\"/><w:lvl \
         w:ilvl=\"1\"><w:start w:val=\"3\"/></w:lvl></w:abstractNum><w:num w:numId=\"1\">\
         <w:abstractNumId w:val=\"8\"/></w:num></w:numbering>",
    );
    let body = xml(
        "<w:p><w:pPr><w:numPr><w:ilvl w:val=\"1\"/><w:numId w:val=\"1\"/></w:numPr></w:pPr></w:p>",
    );
    let report = docx_numbering(&body.descendants("p"), Some(&numbering), None, true, 1);
    let level = report.list[0].level.as_ref().expect("written");
    assert_eq!(level.ilvl.as_deref(), Some("1"));
    assert_eq!(level.written, vec![pair("start", "3")]);
    assert_eq!(report.definitions[0].levels.len(), 1);
    let root = xml(
        "<text:list-style style:name=\"L\"><text:list-level-style-bullet text:level=\"1\"/>\
         <text:list-level-style-number text:level=\"2\"/></text:list-style><style:style \
         style:name=\"P\" style:family=\"paragraph\" style:list-style-name=\"L\"/><office:text>\
         <text:list><text:list-item><text:list><text:list-item><text:p text:style-name=\"P\">x\
         </text:p></text:list-item></text:list></text:list-item></text:list></office:text>",
    );
    let text = root.descendants("text")[0];
    let report = odf_numbering(&text.descendants("p"), text, &root, None, 1);
    assert_eq!(report.list[0].depth, 2);
    let level = report.list[0].level.as_ref().expect("written");
    assert_eq!((level.kind.as_str(), level.level.as_deref()), ("list-level-style-number", Some("2")));
    assert_eq!((report.definitions[0].found, report.definitions[0].levels.len()), (2, 1));
}

#[test]
fn a_limit_cuts_lists_and_no_counts() {
    let root = xml(
        "<office:text><text:h>a</text:h><text:h>b</text:h><text:p><text:a xlink:href=\"1\"/><text:a \
         xlink:href=\"2\"/><text:a xlink:href=\"3\"/></text:p><table:table><table:table-column/>\
         <table:table-row><table:table-cell/></table:table-row></table:table><table:table>\
         <table:table-column/><table:table-row><table:table-cell/><table:covered-table-cell/>\
         </table:table-row></table:table><draw:frame><draw:image xlink:href=\"a\"/><svg:desc>d\
         </svg:desc></draw:frame><draw:frame><draw:image xlink:href=\"b\"/></draw:frame>\
         <text:section text:name=\"s\"/><text:section text:name=\"t\"/></office:text>",
    );
    let lines = texts(&[""]);
    let heads = texts(&["a", "b"]);
    let entries = texts(&["content.xml"]);
    let parts = OdtParts {
        root: &root,
        styles: Err("gone".to_string()),
        meta: None,
        entries: &entries,
        texts: &lines,
        heads: &heads,
        all_texts: &Vec::new(),
    };
    let report = read_odt(&parts, 1);
    assert_eq!((report.hyperlinks.len(), report.counts.hyperlinks), (1, 3));
    assert_eq!((report.headings.len(), report.counts.headings), (1, 2));
    assert_eq!((report.tables.len(), report.counts.tables), (1, 2));
    assert_eq!((report.images.len(), report.counts.images), (1, 2));
    let pictures = &report.pictures;
    assert_eq!((pictures.list.len(), pictures.total), (1, 2));
    assert_eq!((pictures.with_alt, pictures.without_alt), (1, 1));
    let layouts = &report.table_layouts;
    assert_eq!((layouts.list.len(), layouts.tables, layouts.column_elements), (1, 2, 2));
    assert_eq!((layouts.cell_elements, layouts.covered_cells), (3, 1));
    assert_eq!((report.columns.list.len(), report.columns.sections), (1, 2));
    let body = xml(
        "<w:tbl><w:tblPr><w:tblW w:type=\"auto\"/></w:tblPr></w:tbl><w:tbl><w:tblPr><w:tblW \
         w:type=\"auto\"/></w:tblPr><w:tblGrid><w:gridCol w:w=\"1440\"/></w:tblGrid></w:tbl>\
         <w:sectPr/><w:sectPr><w:cols w:num=\"2\"/></w:sectPr><w:drawing><wp:inline/></w:drawing>\
         <w:drawing><wp:inline><wp:docPr descr=\"d\"/></wp:inline></w:drawing>",
    );
    let layouts = docx_table_layouts(&body, 1);
    assert_eq!((layouts.list.len(), layouts.listed, layouts.auto), (1, 2, 2));
    assert_eq!(layouts.grid_sum, 2540);
    let columns = docx_columns(&body, 1);
    assert_eq!((columns.list.len(), columns.sections), (1, 2));
    assert_eq!((columns.written, columns.multi), (1, 1));
    let paras: Vec<Para> = Vec::new();
    let rels: Vec<Rel> = ["hyperlink", "image", "hyperlink"]
        .iter()
        .map(|kind| Rel {
            id: "r".to_string(),
            source: "word/document.xml".to_string(),
            kind: kind.to_string(),
            target: "t".to_string(),
            external: true,
            resolved: Some("t".to_string()),
        })
        .collect();
    let parts = DocxParts {
        root: &body,
        styles: None,
        numbering: None,
        footnotes: None,
        endnotes: None,
        comments: None,
        app: None,
        rels: &rels,
        entries: &entries,
        paras: &paras,
        unverified: None,
        rel_notes: &Vec::new(),
    };
    let report = read_docx(&parts, 1);
    let pictures = &report.pictures;
    assert_eq!((pictures.list.len(), pictures.total), (1, 2));
    assert_eq!((pictures.with_alt, pictures.without_alt), (1, 1));
    assert_eq!((report.hyperlinks.len(), report.hyperlink_total, report.image_total), (1, 2, 1));
}

#[test]
fn each_name_stands_once_with_its_last_value() {
    let node = xml("<w:ind w:left=\"1\" w:right=\"2\" x:left=\"3\" xmlns:x=\"n\"/>");
    let one = &node.children[0];
    assert_eq!(attr_map(one), vec![pair("left", "3"), pair("right", "2")]);
    assert_eq!(
        kept_attrs(one),
        vec![pair("w:left", "1"), pair("w:right", "2"), pair("x:left", "3")]
    );
    assert_eq!(
        attrs_of(&xml("<c:a c:x=\"1\" d:x=\"2\" calcext:x=\"3\"/>").children[0]),
        vec![pair("x", "2")]
    );
    let settings = xml(
        "<w:settings><w:footnotePr><w:numFmt w:val=\"a\"/><w:footnote w:id=\"1\"/><w:pos/>\
         <w:numFmt w:val=\"b\"/></w:footnotePr></w:settings>",
    );
    let report = note_settings::docx(&xml("<w:body/>"), Some(&settings), 10);
    let notes = report.footnote.expect("written");
    assert_eq!(notes.written.len(), 2);
    assert_eq!(notes.written[0].0, "numFmt");
    assert!(matches!(&notes.written[0].1, note_settings::Setting::Value(t) if t == "b"));
    assert_eq!(notes.note_refs, vec![Some("1".to_string())]);
    let cell = xml(
        "<w:tbl><w:tr><w:tc><w:tcPr><w:tcBorders><w:top w:val=\"a\"/><w:top w:val=\"b\"/>\
         </w:tcBorders></w:tcPr></w:tc></w:tr></w:tbl>",
    );
    let report = docx_table_layouts(&cell, 10);
    let borders = report.list[0].cells[0].borders.as_ref().expect("written");
    assert_eq!(borders.len(), 1);
    assert_eq!(borders[0].written, vec![pair("val", "b")]);
    let meta = xml("<meta:document-statistic meta:word-count=\"1\" x:word-count=\"2\"/>");
    let report = read_odt(
        &OdtParts {
            root: &xml(""),
            styles: Err("gone".to_string()),
            meta: Some(&meta),
            entries: &Vec::new(),
            texts: &Vec::new(),
            heads: &Vec::new(),
            all_texts: &Vec::new(),
        },
        1,
    );
    assert_eq!(report.statistic, vec![pair("word-count", "2")]);
}

#[test]
fn a_recorded_change_gives_no_language() {
    let document = xml(
        "<w:body><w:p><w:pPr><w:rPr><w:rPrChange><w:rPr><w:lang w:val=\"fr-FR\"/></w:rPr>\
         </w:rPrChange></w:rPr></w:pPr><w:r><w:rPr><w:rPrChange><w:rPr><w:lang w:val=\"fr-FR\"/>\
         </w:rPr></w:rPrChange></w:rPr></w:r><w:r><w:rPr><w:lang w:val=\"de-DE\"/></w:rPr></w:r>\
         </w:p></w:body>",
    );
    let report = languages::docx(&document, None, 10);
    assert_eq!(report.in_document, 3);
    assert_eq!((report.paragraphs.with_lang, report.runs.with_lang), (0, 1));
    assert_eq!(report.runs.list[0].index, 1);
    assert_eq!(report.runs.list[0].attrs, Some(vec![pair("val", "de-DE")]));
}

#[test]
fn each_ledger_of_numbering_is_cut_by_itself() {
    let had = NumberingLedgers {
        list: vec![1u8, 2, 3],
        definitions: vec!["a".to_string()],
        override_list: vec![7u32, 8],
    };
    let all = rtf_numbering(had.clone(), 3);
    assert_eq!(all.list, vec![1, 2, 3]);
    let cut = rtf_numbering(had.clone(), 2);
    assert_eq!(cut.list, vec![1, 2]);
    assert_eq!(cut.definitions, vec!["a".to_string()]);
    assert_eq!(cut.override_list, vec![7, 8]);
    let none = rtf_numbering(had, 0);
    assert!(none.list.is_empty() && none.definitions.is_empty() && none.override_list.is_empty());
}

const REMARK: &str = "ODF 的段落口径与 OOXML 一致：表格里也算段；`structure.sections` 是 text:section\
    （内容分块），不是 Word 那种分页设置";

#[test]
fn what_is_said_of_a_document_follows_from_what_was_read() {
    let empty: Vec<String> = Vec::new();
    let odd = xml("<text:p><text:note/><text:note text:note-class=\"endnote\"/></text:p>");
    let sheet = xml("<office:styles/>");
    let odt = |root: &Node, styles: Result<&Node, String>| {
        let parts = OdtParts {
            root,
            styles,
            meta: None,
            entries: &empty,
            texts: &empty,
            heads: &empty,
            all_texts: &empty,
        };
        read_odt(&parts, 10).notes
    };
    assert_eq!(odt(&sheet, Ok(&sheet)), vec![REMARK]);
    assert_eq!(
        odt(&odd, Err("gone".to_string())),
        vec![
            "1 个 text:note 没写 note:class，分不清脚注还是尾注",
            REMARK,
            "styles.xml 读不出，那份纸看不了：gone",
        ]
    );
    let said = texts(&["a link leads nowhere"]);
    let docx = |root: &Node, unverified: Option<&str>, rel_notes: &Vec<String>| {
        let parts = DocxParts {
            root,
            styles: None,
            numbering: None,
            footnotes: None,
            endnotes: None,
            comments: None,
            app: None,
            rels: &Vec::new(),
            entries: &empty,
            paras: &Vec::new(),
            unverified,
            rel_notes,
        };
        read_docx(&parts, 10).notes
    };
    let whole = xml("<w:document><w:body/></w:document>");
    assert!(docx(&whole, None, &empty).is_empty());
    assert_eq!(
        docx(&xml("<w:document/>"), Some("CRC"), &said),
        vec![
            "word/document.xml：CRC",
            "document.xml 里没有 w:body 元素",
            "a link leads nowhere",
        ]
    );
}

#[test]
fn a_table_tells_how_many_of_its_paragraphs_hold_text() {
    let root = xml(
        "<w:document><w:body><w:p/><w:tbl><w:tr><w:tc><w:p/><w:tbl><w:tr><w:tc><w:p/></w:tc></w:tr>\
         </w:tbl><w:p/></w:tc></w:tr></w:tbl><w:p/><w:tbl/></w:body></w:document>",
    );
    let given = ["before", "one", "", "two", "behind"];
    let paras: Vec<Para> = given
        .iter()
        .map(|text| Para {
            text: text.to_string(),
            style: None,
            level: None,
        })
        .collect();
    let entries: Vec<String> = Vec::new();
    let rels: Vec<Rel> = Vec::new();
    let parts = DocxParts {
        root: &root,
        styles: None,
        numbering: None,
        footnotes: None,
        endnotes: None,
        comments: None,
        app: None,
        rels: &rels,
        entries: &entries,
        paras: &paras,
        unverified: None,
        rel_notes: &entries,
    };
    let all: Vec<usize> = read_docx(&parts, 10).tables.iter().map(|one| one.text).collect();
    assert_eq!(all, vec![2, 0, 0]);
    let some: Vec<usize> = read_docx(&parts, 1).tables.iter().map(|one| one.text).collect();
    assert_eq!(some, vec![2]);
    let body = root.children[0].children.iter().find(|one| one.is("body")).expect("there");
    assert_eq!(find_spans(body, "tbl", "p"), vec![(1, 4), (2, 3), (5, 5)]);
    let root = xml(
        "<office:text><text:p><office:annotation><text:p/></office:annotation></text:p><table:table>\
         <table:table-row><table:table-cell><text:p/></table:table-cell><table:table-cell><text:p/>\
         </table:table-cell></table:table-row></table:table></office:text>",
    );
    let report = read_odt(
        &OdtParts {
            root: &root,
            styles: Err("gone".to_string()),
            meta: None,
            entries: &entries,
            texts: &texts(&["", "", "x"]),
            heads: &entries,
            all_texts: &texts(&["a", "b", "", "x"]),
        },
        10,
    );
    assert_eq!((report.tables[0].rows, report.tables[0].cells, report.tables[0].text), (1, 2, 1));
}
