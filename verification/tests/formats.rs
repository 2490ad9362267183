//! Number formats and what they show.

use lilyco_binfmt::numfmt::{
    builtin_code, kind_of, read_styles, serial_to_iso, strip_tokens, Kind, Styles,
};
use lilyco_binfmt::xml::Node;
use std::collections::BTreeMap;

fn element(name: &str, attrs: Vec<(String, String)>) -> Node {
    Node {
        name: name.to_string(),
        attrs,
        children: Vec::new(),
        direct: String::new(),
    }
}

/// Reads a small piece of XML into a nameless root.
fn xml(source: &str) -> Node {
    let mut stack: Vec<Node> = vec![element("", Vec::new())];
    let mut rest = source;
    while let Some(at) = rest.find('<') {
        if at > 0 {
            let mut run = element("#text", Vec::new());
            run.direct = rest[..at].to_string();
            stack.last_mut().expect("open").children.push(run);
        }
        let end = at + rest[at..].find('>').expect("closed");
        let tag = &rest[at + 1..end];
        rest = &rest[end + 1..];
        if tag.starts_with('/') {
            let done = stack.pop().expect("open");
            stack.last_mut().expect("root").children.push(done);
            continue;
        }
        let alone = tag.ends_with('/');
        let tag = tag.trim_end_matches('/');
        let (name, mut said) = match tag.find(' ') {
            Some(k) => (&tag[..k], &tag[k..]),
            None => (tag, ""),
        };
        let mut attrs: Vec<(String, String)> = Vec::new();
        while let Some(k) = said.find('=') {
            let key = said[..k].trim().to_string();
            let tail = &said[k + 2..];
            let stop = tail.find('"').expect("quoted");
            attrs.push((key, tail[..stop].to_string()));
            said = &tail[stop + 1..];
        }
        let node = element(name, attrs);
        if alone {
            stack.last_mut().expect("open").children.push(node);
        } else {
            stack.push(node);
        }
    }
    if !rest.is_empty() {
        let mut run = element("#text", Vec::new());
        run.direct = rest.to_string();
        stack.last_mut().expect("open").children.push(run);
    }
    stack.pop().expect("root")
}

#[test]
fn literals_and_conditions_are_stripped_before_judging() {
    assert_eq!(strip_tokens("yyyy\"年\"m\"月\"d\"日\""), "yyyymd");
    assert_eq!(strip_tokens("[Red]0.00"), "0.00");
    assert_eq!(kind_of("\"yyyy\""), Kind::General);
    assert_eq!(kind_of("\"G/通用格式\""), Kind::General);
}

#[test]
fn the_letter_m_only_means_month_when_there_is_no_time_mark() {
    assert_eq!(kind_of("h:mm"), Kind::Time);
    assert_eq!(kind_of("mm:ss"), Kind::Time);
    assert_eq!(kind_of("yyyy-mm"), Kind::Date);
    assert_eq!(kind_of("m/d/yy h:mm"), Kind::Datetime);
    assert_eq!(kind_of("0.00%"), Kind::Percent);
    assert_eq!(kind_of("$#,##0.00"), Kind::Currency);
    assert_eq!(kind_of("#,##0.00"), Kind::Number);
    assert_eq!(kind_of("General"), Kind::General);
    assert_eq!(kind_of("0"), Kind::Number);
}

/// The whole days of a serial number and the seconds beyond them.
fn split(value: f64) -> (i64, i64) {
    let days = value.trunc() as i64;
    let rest = value - days as f64;
    (days, (rest * 86_400.0).round() as i64 % 86_400)
}

fn iso(value: f64, year1904: bool) -> String {
    let (days, seconds) = split(value);
    serial_to_iso(days, seconds, year1904)
}

#[test]
fn serial_numbers_become_dates_on_the_basis_the_file_states() {
    assert_eq!(iso(41_631.0, false), "2013-12-23");
    assert_eq!(iso(41_631.635_416_666_66, false), "2013-12-23T15:15:00");
    assert_eq!(iso(1.0, false), "1900-01-01");
    assert_eq!(iso(59.0, false), "1900-02-28");
    assert_eq!(iso(60.0, false), "1900-02-29");
    assert_eq!(iso(61.0, false), "1900-03-01");
    assert_eq!(iso(0.0, true), "1904-01-01");
    assert_eq!(iso(46_288.0, true), "2030-09-24");
}

#[test]
fn an_untranscribed_builtin_says_unknown_not_general() {
    let styles = Styles {
        xfs: vec![0, 14, 47, 31],
        custom: BTreeMap::new(),
        year1904: false,
        notes: Vec::new(),
        xf_rows: Vec::new(),
        font_rows: Vec::new(),
        fill_rows: Vec::new(),
        border_rows: Vec::new(),
        ledger: None,
    };
    assert_eq!(styles.kind_of(0), Kind::General);
    assert_eq!(styles.kind_of(1), Kind::Date);
    assert_eq!(styles.kind_of(2), Kind::Time);
    let unknown = styles.cell_format(3, Some(split(41_631.0)), "n");
    assert_eq!(unknown.format_kind, "unknown", "{unknown:?}");
    assert_eq!(unknown.format, None, "{unknown:?}");
    assert_eq!(unknown.num_fmt, 31, "{unknown:?}");
    assert!(unknown.as_date.is_none(), "{unknown:?}");
}

fn styles_part() -> Node {
    xml(
        "<styleSheet><numFmts><numFmt numFmtId=\"164\" formatCode=\"yyyy-mm-dd\"/>\
         <numFmt formatCode=\"x\"/><numFmt numFmtId=\"165\"/></numFmts>\
         <fonts count=\"2\"><font><sz val=\"11\"/></font><font><b/></font></fonts>\
         <fills count=\"3\"><fill><patternFill/></fill><fill><patternFill \
         patternType=\"solid\"/></fill></fills>\
         <borders><border/></borders>\
         <cellStyleXfs><xf/></cellStyleXfs>\
         <cellXfs count=\"3\"><xf numFmtId=\"0\" fontId=\"0\" fillId=\"0\" borderId=\"0\"/>\
         <xf numFmtId=\"164\" fontId=\"1\" fillId=\"1\" borderId=\"9\"><alignment \
         wrapText=\"1\"/></xf><xf/></cellXfs></styleSheet>",
    )
}

#[test]
fn formats_are_reached_through_a_list() {
    let book = xml("<workbook><workbookPr date1904=\" On \"/></workbook>");
    let part = styles_part();
    let styles = read_styles(Some(&book), Some(&part));
    assert!(styles.year1904);
    assert_eq!(styles.xfs, vec![0, 164, 0]);
    assert_eq!(styles.notes, vec!["有一个 numFmt 没写 numFmtId"]);
    assert_eq!(styles.format_of(1), (164, Some("yyyy-mm-dd".to_string())));
    assert_eq!(styles.format_of(2), (0, Some("General".to_string())));
    assert_eq!(styles.format_of(77), (0, Some("General".to_string())));
    assert_eq!(styles.kind_of(1), Kind::Date);
    assert_eq!(styles.custom.get(&165).map(|one| one.as_str()), Some(""));
    let one = styles.cell_format(1, Some((41_631, 0)), "n");
    assert_eq!((one.num_fmt, one.format_kind, one.style), (164, "date", 1));
    assert_eq!(one.as_date, Some(Some("2017-12-24".to_string())));
    let text = styles.cell_format(1, None, "inlineStr");
    assert_eq!((text.format_kind, text.as_date), ("text", Some(None)));
    assert_eq!(styles.cell_format(0, None, "b").format_kind, "bool");
    assert_eq!(styles.cell_format(0, Some((1, 0)), "n").as_date, None);
}

#[test]
fn the_lists_say_how_many_entries_they_have() {
    let part = styles_part();
    let styles = read_styles(Some(&xml("<workbook/>")), Some(&part));
    assert!(!styles.year1904);
    let ledger = styles.ledger.as_ref().expect("read");
    assert_eq!((ledger.fonts.found, ledger.fonts.whole), (2, true));
    assert_eq!((ledger.fills.found, ledger.fills.whole), (2, false));
    assert_eq!(ledger.fills.written.as_deref(), Some("3"));
    assert_eq!((ledger.borders.found, ledger.borders.whole), (1, true));
    assert_eq!(ledger.borders.written, None);
    assert_eq!((ledger.cell_xfs.found, ledger.cell_style_xfs.found), (3, 1));
    assert_eq!(styles.xfs.len(), styles.xf_rows.len());
}

#[test]
fn what_a_cell_looks_like_is_three_numbers_away() {
    let part = styles_part();
    let styles = read_styles(Some(&xml("<workbook/>")), Some(&part));
    let plain = styles.appearance(0);
    assert!(plain.found);
    assert_eq!((plain.bold, plain.filled, plain.wrapped), (None, Some(false), None));
    let loud = styles.appearance(1);
    assert_eq!((loud.bold, loud.filled, loud.wrapped), (Some(true), Some(true), Some(true)));
    assert_eq!(loud.font_id, Some("1"));
    assert_eq!(loud.font.expect("there").parts[0].element, "b");
    assert_eq!(loud.border_id, Some("9"));
    assert!(loud.border.is_none());
    assert_eq!(loud.alignment.expect("there").len(), 1);
    let missing = styles.appearance(9);
    assert!(!missing.found && missing.attrs.is_none() && missing.font.is_none());
}

#[test]
fn switches_are_spelled_in_several_ways() {
    for (raw, want) in [
        ("1", true),
        ("true", true),
        ("0", false),
        (" False ", false),
        ("none", false),
        ("", true),
    ] {
        let source = format!(
            "<s><fonts><font><b val=\"{raw}\"/></font></fonts><cellXfs><xf fontId=\"0\"/></cellXfs></s>"
        );
        let part = xml(&source);
        let styles = read_styles(Some(&xml("<w/>")), Some(&part));
        assert_eq!(styles.appearance(0).bold, Some(want), "{raw:?}");
    }
    for (raw, want) in [("", false), ("1", true), ("0", false)] {
        let source =
            format!("<s><cellXfs><xf><alignment wrapText=\"{raw}\"/></xf></cellXfs></s>");
        let part = xml(&source);
        let styles = read_styles(Some(&xml("<w/>")), Some(&part));
        assert_eq!(styles.appearance(0).wrapped, Some(want), "{raw:?}");
    }
}

#[test]
fn a_workbook_without_its_parts_says_so() {
    let none = read_styles(None, None);
    assert_eq!(none.notes, vec!["包里读不到 xl/workbook.xml"]);
    assert_eq!(none.format_of(3).0, 0);
    let half = read_styles(Some(&xml("<w/>")), None);
    assert_eq!(half.notes, vec!["包里读不到 xl/styles.xml（所有格子按 General 算）"]);
    assert!(half.ledger.is_none());
    let bare = read_styles(Some(&xml("<w/>")), Some(&xml("<s/>")));
    assert_eq!(bare.notes, vec!["styles.xml 里没有 cellXfs"]);
}

#[test]
fn the_two_bases_are_four_years_and_a_day_apart() {
    for days in [100i64, 1_000, 41_631] {
        assert_eq!(
            serial_to_iso(days + 1462, 0, false),
            serial_to_iso(days, 0, true)
        );
    }
}

#[test]
fn built_in_codes_and_kinds_have_their_names() {
    assert_eq!(builtin_code(14), Some("mm-dd-yy"));
    assert_eq!(builtin_code(47), Some("mmss.##"));
    assert_eq!(builtin_code(31), None);
    assert_eq!(Kind::Datetime.as_str(), "datetime");
    assert!(Kind::Time.is_temporal() && !Kind::Percent.is_temporal());
    assert_eq!(kind_of("yyyy%"), Kind::Percent);
    assert_eq!(kind_of("¥0"), Kind::Currency);
    assert_eq!(strip_tokens("\\y\"open"), "");
}

#[test]
fn a_day_before_the_calendar_has_a_sign() {
    assert_eq!(serial_to_iso(-693_960, 0, false), "0000-01-01");
    assert_eq!(serial_to_iso(-694_000, 0, false), "-001-11-22");
    assert_eq!(serial_to_iso(2, 86_399, false), "1900-01-02T23:59:59");
    assert_eq!(serial_to_iso(2, -5, false), "1900-01-02");
}
