//! OpenDocument tables, their styles and charts, and formulas.

use lilyco_binfmt::equations::PartTree;
use lilyco_binfmt::formula_elems::{ods, xlsx};
use lilyco_binfmt::odfchart::charts_in;
use lilyco_binfmt::odsheet::read;
use lilyco_binfmt::odstyle::Styles;
use lilyco_binfmt::xml::Node;

fn element(name: &str, attrs: Vec<(String, String)>) -> Node {
    Node {
        name: name.to_string(),
        attrs,
        children: Vec::new(),
        direct: String::new(),
    }
}

/// Reads a small piece of XML into a nameless root.
fn xml(source: &str) -> Node {
    let mut stack: Vec<Node> = vec![element("", Vec::new())];
    let mut rest = source;
    while let Some(at) = rest.find('<') {
        if at > 0 {
            let mut run = element("#text", Vec::new());
            run.direct = rest[..at].to_string();
            stack.last_mut().expect("open").children.push(run);
        }
        let end = at + rest[at..].find('>').expect("closed");
        let tag = &rest[at + 1..end];
        rest = &rest[end + 1..];
        if tag.starts_with('/') {
            let done = stack.pop().expect("open");
            stack.last_mut().expect("root").children.push(done);
            continue;
        }
        let alone = tag.ends_with('/');
        let tag = tag.trim_end_matches('/');
        let (name, mut said) = match tag.find(' ') {
            Some(k) => (&tag[..k], &tag[k..]),
            None => (tag, ""),
        };
        let mut attrs: Vec<(String, String)> = Vec::new();
        while let Some(k) = said.find('=') {
            let key = said[..k].trim().to_string();
            let tail = &said[k + 2..];
            let stop = tail.find('"').expect("quoted");
            attrs.push((key, tail[..stop].to_string()));
            said = &tail[stop + 1..];
        }
        let node = element(name, attrs);
        if alone {
            stack.last_mut().expect("open").children.push(node);
        } else {
            stack.push(node);
        }
    }
    if !rest.is_empty() {
        let mut run = element("#text", Vec::new());
        run.direct = rest.to_string();
        stack.last_mut().expect("open").children.push(run);
    }
    stack.pop().expect("root")
}

fn part(name: &str, source: &str) -> PartTree {
    PartTree {
        name: name.to_string(),
        root: xml(source),
    }
}

const TABLE: &str = "<office:document><style:style style:name=\"ta1\"><style:table-properties \
    table:display=\"false\"/></style:style>\
    <table:table table:name=\"预算\"><table:table-row><table:table-cell \
    office:value-type=\"string\"><text:p>科目</text:p></table:table-cell><table:table-cell \
    table:number-columns-repeated=\"3\"/><table:table-cell office:value-type=\"float\" \
    calcext:value-type=\"odd\" office:value=\"12.5\" table:formula=\"of:=1\" \
    table:style-name=\"ce1\" table:number-columns-spanned=\"2\"><office:annotation><dc:creator>甲\
    </dc:creator><dc:date>2020</dc:date><text:p>note</text:p></office:annotation><text:p>12.5</text:p>\
    </table:table-cell><table:covered-table-cell/></table:table-row><table:table-row \
    table:number-rows-repeated=\"10\"><table:table-cell/></table:table-row><table:table-row>\
    <table:table-cell office:value-type=\"date\" office:date-value=\"2013-12-23\"><text:p>x</text:p>\
    <text:p>y</text:p></table:table-cell></table:table-row></table:table>\
    <table:table table:name=\"B\" table:style-name=\"ta1\"/></office:document>";

#[test]
fn cells_land_where_repetition_puts_them() {
    let root = xml(TABLE);
    let book = read(&root);
    assert_eq!(book.sheets.len(), 2, "{book:?}");
    let one = &book.sheets[0];
    assert_eq!(one.name, "预算");
    assert!(one.visible);
    let cells: Vec<(&str, &str, &str)> = one
        .cells
        .iter()
        .map(|c| (c.reference.as_str(), c.value_type.as_str(), c.text.as_str()))
        .collect();
    assert_eq!(
        cells,
        vec![
            ("A1", "string", "科目"),
            ("E1", "float", "12.5"),
            ("A12", "date", "x\ny")
        ]
    );
    let sum = &one.cells[1];
    assert_eq!(sum.value.as_deref(), Some("12.5"));
    assert_eq!(sum.formula.as_deref(), Some("of:=1"));
    assert_eq!(sum.style_name.as_deref(), Some("ce1"));
    assert_eq!((sum.columns_spanned, sum.rows_spanned), (2, 1));
    assert_eq!(one.cells[2].date_value.as_deref(), Some("2013-12-23"));
    assert_eq!((one.rows, one.columns), (2, 5));
    assert_eq!((one.covered, one.merged), (1, 1));
    assert_eq!(one.count_of("float"), 1);
    assert_eq!((one.date_cells(), one.formulas()), (1, 1));
    assert_eq!(one.comments.len(), 1);
    let note = &one.comments[0];
    assert_eq!((note.reference.as_str(), note.text.as_str()), ("E1", "note"));
    assert_eq!(note.author.as_deref(), Some("甲"));
    assert_eq!(book.sheets[1].name, "B");
    assert_eq!(book.cell_total(), 3);
    assert!(book.notes.is_empty(), "{:?}", book.notes);
}

#[test]
fn a_run_of_empty_cells_is_one_element() {
    let root = xml(
        "<table:table table:name=\"t\"><table:table-row><table:table-cell \
         table:number-columns-repeated=\"16384\"/><table:table-cell><text:p>a</text:p>\
         </table:table-cell></table:table-row></table:table>",
    );
    let book = read(&root);
    assert_eq!(book.sheets[0].cells.len(), 1);
    assert_eq!(book.sheets[0].cells[0].reference, "XFE1");
}

fn row_of(cells: usize) -> String {
    format!(
        "<table:table-row>{}</table:table-row>",
        "<table:table-cell><text:p>1</text:p></table:table-cell>".repeat(cells)
    )
}

#[test]
fn many_rows_are_no_reason_to_stop() {
    let root = xml(&format!(
        "<table:table table:name=\"tall\">{}</table:table>",
        row_of(100).repeat(201)
    ));
    let book = read(&root);
    assert_eq!(book.sheets[0].cells.len(), 20_100);
    assert_eq!(book.sheets[0].rows, 201);
    assert!(book.notes.is_empty(), "{:?}", book.notes);
}

#[test]
fn a_row_past_the_limit_is_cut_with_a_note() {
    let root = xml(&format!(
        "<table:table table:name=\"wide\">{}{}</table:table>",
        row_of(20_001),
        row_of(1)
    ));
    let book = read(&root);
    assert_eq!(book.sheets[0].cells.len(), 20_001);
    assert_eq!(book.sheets[0].cells[20_000].reference, "A2");
    assert_eq!(book.notes, vec!["表 wide 的格子元素多到 20001 个，后面不走了"]);
}

const NAMED: &str = "<office:document-styles><number:date-style style:name=\"N150\"><number:year/>\
    <number:text>年</number:text><number:hours/></number:date-style>\
    <style:style style:name=\"ce5\" style:family=\"table-cell\" style:data-style-name=\"N150\"/>\
    <style:style style:name=\"base\" style:family=\"table-cell\" style:data-style-name=\"N150\"/>\
    <number:number-style style:name=\"N1\"/></office:document-styles>";

const OWN: &str = "<office:document-content><number:percentage-style style:name=\"N11\">\
    <number:number number:decimal-places=\"1\"/><number:text>%</number:text>\
    </number:percentage-style><number:currency-style style:name=\"N1\" \
    number:currency-symbol=\"¥\"/>\
    <style:style style:name=\"ce5\" style:family=\"table-cell\" style:data-style-name=\"N11\"/>\
    <style:style style:name=\"ce6\" style:family=\"table-cell\" style:parent-style-name=\"base\"/>\
    <style:style style:name=\"ce7\" style:family=\"table-cell\" style:parent-style-name=\"ce7\"/>\
    <style:style style:name=\"ce8\" style:family=\"table-cell\" style:data-style-name=\"N1\"/>\
    <style:style style:name=\"ce9\" style:family=\"paragraph\" style:data-style-name=\"N1\"/>\
    </office:document-content>";

#[test]
fn a_cell_format_is_two_steps_away() {
    let named = xml(NAMED);
    let own = xml(OWN);
    let styles = Styles::read(Some(&named), Some(&own));
    assert_eq!(styles.counts(), (6, 4));
    assert!(styles.notes.is_empty());
    let percent = styles.for_cell(Some("ce5")).expect("named");
    assert_eq!(percent.data_style.as_deref(), Some("N11"));
    assert_eq!(percent.format_kind.as_deref(), Some("percent"));
    assert_eq!(percent.decimals, Some(1));
    assert_eq!(percent.format_tokens, vec!["number", "text:%"]);
    let date = styles.for_cell(Some("ce6")).expect("named");
    assert_eq!(date.data_style.as_deref(), Some("N150"));
    assert_eq!(date.format_kind.as_deref(), Some("date"));
    assert_eq!(date.format_tokens, vec!["year", "text:年", "hours"]);
    let money = styles.for_cell(Some("ce8")).expect("named");
    assert_eq!(money.format_kind.as_deref(), Some("currency"));
    assert_eq!(money.currency_symbol.as_deref(), Some("¥"));
}

#[test]
fn a_style_that_leads_nowhere_says_so() {
    let own = xml(OWN);
    let styles = Styles::read(None, Some(&own));
    assert!(styles.for_cell(None).is_none());
    for name in ["ce7", "ce9", "missing", "ce6"] {
        let plain = styles.for_cell(Some(name)).expect("named");
        assert_eq!(plain.cell_style, name);
        assert!(plain.data_style.is_none() && plain.format_tokens.is_empty());
    }
    let none = Styles::read(None, None);
    assert_eq!(none.notes.len(), 1);
}

#[test]
fn charts_are_reached_through_the_embedded_object() {
    let host = xml(
        "<draw:frame draw:name=\"Chart 1\"><draw:object xlink:href=\"./Object 1/\"/><draw:image \
         xlink:href=\"./ObjectReplacements/Object 1\"/></draw:frame><draw:frame><draw:object \
         xlink:href=\"Object 2\"/><draw:object/></draw:frame>",
    );
    let parts = vec![part(
        "Object 1/content.xml",
        "<chart:chart><chart:title><text:p>逐月  收支</text:p><text:p> </text:p></chart:title>\
         <chart:series chart:class=\"chart:bar\" chart:values-cell-range-address=\"B2:B3\">\
         <chart:data-point chart:repeated=\"2\"/><chart:data-point/></chart:series><chart:series/>\
         <chart:categories table:cell-range-address=\"A2:A3\"/><table:table \
         table:name=\"local-table\"><table:table-row><table:table-cell office:value=\"25\" \
         table:number-columns-repeated=\"4\" calcext:value-type=\"x\"><text:p>25</text:p>\
         </table:table-cell></table:table-row></table:table></chart:chart>",
    )];
    let charts = charts_in(&host, &parts);
    assert_eq!(charts.len(), 2);
    let bar = &charts[0];
    assert_eq!((bar.object.as_str(), bar.preview), ("Object 1", true));
    assert_eq!(bar.frame.as_deref(), Some("Chart 1"));
    let chart = bar.chart.as_ref().expect("there");
    assert_eq!(chart.class, None);
    assert_eq!(chart.title.as_deref(), Some("逐月 收支"));
    assert_eq!(chart.series.len(), 2);
    assert_eq!(chart.series[0].class.as_deref(), Some("chart:bar"));
    assert_eq!(chart.series[0].values.as_deref(), Some("B2:B3"));
    assert_eq!((chart.series[0].point_elements, chart.series[0].points_written), (2, Some(3)));
    assert_eq!(chart.series[1].points_written, None);
    let categories = chart.categories.as_ref().expect("there");
    assert_eq!(categories.address.as_deref(), Some("A2:A3"));
    let cell = &chart.local_table[0][0];
    assert_eq!((cell.repeated, cell.text.as_deref()), (4, Some("25")));
    assert_eq!(cell.value.as_deref(), Some("25"));
    assert_eq!(cell.written.len(), 2);
    assert!(charts[1].chart.is_none() && !charts[1].preview);
}

#[test]
fn formulas_of_a_workbook_lead_or_follow() {
    let parts = vec![part(
        "xl/worksheets/sheet1.xml",
        "<worksheet><sheetData><row><c r=\"A1\"><f t=\"shared\" ref=\"A1:A2\" si=\"0\">B1+1</f>\
         <v>2</v></c><c r=\"A2\"><f t=\"shared\" si=\"0\"/><v>3</v></c><c r=\"A3\"><f>SUM(A1)</f>\
         </c><c r=\"A4\"><v>1</v></c></row></sheetData></worksheet>",
    )];
    let entries = vec!["xl/worksheets/sheet1.xml".to_string(), "xl/styles.xml".to_string()];
    let report = xlsx(&entries, &parts, 10);
    assert_eq!((report.sheets_seen, report.formula_elems), (1, 3));
    assert_eq!((report.shared_elems, report.shared_masters, report.shared_followers), (2, 1, 1));
    assert_eq!((report.text_written, report.empty_text), (2, 1));
    assert_eq!((report.empty_text_with_cached, report.cached_elems), (1, 2));
    assert_eq!(report.cells.len(), 3);
    assert_eq!(report.cells[0].text, "B1+1");
    assert_eq!(report.cells[2].cell.as_deref(), Some("A3"));
    assert_eq!(xlsx(&entries, &parts, 1).cells.len(), 1);
}

#[test]
fn formulas_of_a_table_stand_on_its_cells() {
    let root = xml(
        "<table:table table:name=\"t\"><table:table-row><table:table-cell table:formula=\"of:=[.A1]\" \
         office:value=\"2\"><text:p>2</text:p></table:table-cell><table:table-cell/>\
         </table:table-row></table:table>",
    );
    let report = ods(&root, 10);
    assert_eq!((report.tables_seen, report.formula_elems), (1, 1));
    assert_eq!(report.cells[0].sheet.as_deref(), Some("t"));
    assert_eq!(report.formula_prefixes.len(), 1);
    assert_eq!(report.formula_prefixes[0].1, 1);
}
