//! Member tables of packages, and what a package says of itself.

use lilyco_binfmt::document::Family;
use lilyco_binfmt::entries::{
    ar_entries, cut_listing, list_members, octal, tar_entries, text, u64_from_octal, zip_entries,
    Dir, Entry, Listing,
};
use lilyco_binfmt::equations::PartTree;
use lilyco_binfmt::identify::{hex, magic_hex};
use lilyco_binfmt::office_info::{
    check_zip, count_external, count_media, describe, producer_of, sort_props,
};
use lilyco_binfmt::xml::Node;

/// A block of a tar that states the sum of its own bytes.
fn tar_block(name: &str, size: u64) -> Vec<u8> {
    let mut block = vec![0u8; 512];
    block[0..name.len()].copy_from_slice(name.as_bytes());
    block[100..108].copy_from_slice(b"0000644\0");
    block[108..116].copy_from_slice(b"0000000\0");
    block[116..124].copy_from_slice(b"0000000\0");
    block[124..136].copy_from_slice(format!("{size:011o}\0").as_bytes());
    block[136..148].copy_from_slice(b"00000000000\0");
    block[156] = b'0';
    block[257..263].copy_from_slice(b"ustar\0");
    block[263..265].copy_from_slice(b"00");
    let sum: u64 = block
        .iter()
        .enumerate()
        .map(|(index, byte)| {
            if (148..156).contains(&index) {
                32
            } else {
                *byte as u64
            }
        })
        .sum();
    block[148..156].copy_from_slice(format!("{sum:07o}\0").as_bytes());
    block
}

fn tar_row(l: &Listing, i: usize) -> (&str, &str, Option<u64>, u64, usize) {
    match &l.entries[i] {
        Entry::Tar(row) => (row.name.as_str(), row.kind, row.mode, row.size, row.at),
        _ => panic!("no tar row"),
    }
}

#[test]
fn each_tar_block_is_checked_against_its_own_checksum() {
    let block = tar_block("lab.txt", 6);
    let mut raw = block.clone();
    raw.extend_from_slice(&[0u8; 1024]);
    let out = tar_entries(&raw);
    assert_eq!(out.container.as_deref(), Some("tar"));
    assert_eq!(tar_row(&out, 0), ("lab.txt", "file", Some(420), 6, 0));
    assert!(out.checks[0].ok, "{out:?}");

    let mut broken = block;
    broken[148..156].copy_from_slice(b"0000000\0");
    let mut raw = broken;
    raw.extend_from_slice(&[0u8; 1024]);
    let out = tar_entries(&raw);
    assert!(!out.checks[0].ok, "{out:?}");
    assert_eq!(out.checks[0].note, "第 1 块校验和不对");
}

#[test]
fn a_changed_byte_shows_in_the_checksum() {
    for at in [0usize, 99, 147, 156, 511] {
        let mut raw = tar_block("a", 0);
        raw[at] = raw[at].wrapping_add(1);
        raw.extend_from_slice(&[0u8; 512]);
        assert!(!tar_entries(&raw).checks[0].ok, "byte {at}");
    }
}

#[test]
fn names_of_members_are_read_as_utf8() {
    let raw = tar_block("目录/文件.txt", 0);
    assert_eq!(tar_row(&tar_entries(&raw), 0).0, "目录/文件.txt");
    let mut raw = b"!<arch>\n".to_vec();
    let head = format!("{:<12}{:<6}{:<6}{:<8}{:<10}`\n", 0, 0, 0, 644, 0);
    raw.extend_from_slice("名.o/          ".as_bytes());
    raw.extend_from_slice(head.as_bytes());
    let out = ar_entries(&raw);
    match &out.entries[0] {
        Entry::Ar(row) => assert_eq!((row.name.as_str(), row.size), ("名.o", 0)),
        _ => panic!("no ar row"),
    }
}

#[test]
fn tar_members_are_walked_block_by_block() {
    let mut raw = tar_block("one", 513);
    raw.extend_from_slice(&[7u8; 1024]);
    let mut dir = tar_block("sub/", 0);
    dir[156] = b'5';
    dir[345..350].copy_from_slice(b"outer");
    raw.extend_from_slice(&dir);
    raw.extend_from_slice(&[0u8; 512]);
    raw.extend_from_slice(&tar_block("behind the end", 0));
    let out = tar_entries(&raw);
    assert_eq!(out.entries.len(), 2, "{out:?}");
    assert_eq!(tar_row(&out, 0), ("one", "file", Some(420), 513, 0));
    assert_eq!(tar_row(&out, 1), ("outer/sub/", "dir", Some(420), 0, 1536));
    assert_eq!(out.total_size, 513);
    assert_eq!(out.checks[1].claim, "blocks are 512-byte aligned");
    assert_eq!(out.checks[1].note, "2 blocks walked");
    assert!(out.checks[1].ok);
}

#[test]
fn a_tar_with_more_members_than_are_listed_is_counted_whole() {
    let mut raw: Vec<u8> = Vec::new();
    for i in 0..30 {
        raw.extend_from_slice(&tar_block(&format!("m{i}"), 0));
    }
    let report = cut_listing(tar_entries(&raw), 3);
    assert_eq!((report.count, report.listed, report.cut), (30, 3, 27));
    assert_eq!(report.entries.len(), 3);
}

fn ar_header(name: &str, size: &str, end: &[u8]) -> Vec<u8> {
    let mut head = format!("{name:<16}{:<12}{:<6}{:<6}{:<8}{size:<10}", "17", "1", "2", "644")
        .into_bytes();
    head.extend_from_slice(end);
    head
}

#[test]
fn ar_members_stand_at_even_places() {
    let mut raw = b"!<arch>\n".to_vec();
    raw.extend_from_slice(&ar_header("one.o/", "3", b"`\n"));
    raw.extend_from_slice(b"abc\n");
    raw.extend_from_slice(&ar_header("two.o/", "10", b"`\n"));
    raw.extend_from_slice(b"12345678");
    let out = ar_entries(&raw);
    assert_eq!(out.entries.len(), 2, "{out:?}");
    match (&out.entries[0], &out.entries[1]) {
        (Entry::Ar(a), Entry::Ar(b)) => {
            assert_eq!(a.name, "one.o");
            assert_eq!((a.size, a.data_at), (3, 68));
            assert_eq!((a.mtime, a.uid, a.gid), (Some(15), Some(1), Some(2)));
            assert_eq!(a.mode.as_deref(), Some("644"));
            assert_eq!((b.name.as_str(), b.size, b.data_at), ("two.o", 8, 132));
        }
        _ => panic!("no ar rows"),
    }
    assert_eq!(out.total_size, 11);
    assert!(out.checks[0].ok, "{out:?}");
}

#[test]
fn an_ar_says_where_its_walk_stopped() {
    let mut raw = b"!<arch>\n".to_vec();
    raw.extend_from_slice(&ar_header("one.o/", "3", b"!!"));
    let out = ar_entries(&raw);
    assert!(out.entries.is_empty());
    assert_eq!(out.checks[0].note, "成员头在 8 处不以反引号换行结尾");

    let mut raw = b"!<arch>\n".to_vec();
    raw.extend_from_slice(&ar_header("one.o/", "9", b"`\n"));
    let out = ar_entries(&raw);
    assert!(!out.checks[0].ok);
    assert_eq!(out.checks[0].note, "成员 one.o/ 的长度不是八进制");
}

#[test]
fn octal_fields_may_be_filled_up() {
    assert_eq!(octal(&b" 0644 \0\0".to_vec()), Some(420));
    assert_eq!(octal(&b"0000644\0".to_vec()), Some(420));
    assert_eq!(octal(&b"        ".to_vec()), None);
    assert_eq!(octal(&b"\x007777".to_vec()), None);
    assert_eq!(octal(&b"0648".to_vec()), None);
    assert_eq!(octal(&b"6 4".to_vec()), None);
    assert_eq!(u64_from_octal(b""), Some(0));
    assert_eq!(u64_from_octal(b"1777777777777777777777"), Some(u64::MAX));
    assert_eq!(u64_from_octal(b"2000000000000000000000"), None);
}

#[test]
fn octal_digits_read_back() {
    for n in [0u64, 7, 8, 420, 511, 512, u64::MAX] {
        assert_eq!(u64_from_octal(format!("{n:o}").as_bytes()), Some(n));
    }
}

#[test]
fn text_fields_end_at_the_first_zero_byte() {
    assert_eq!(text(&b"abc\0def".to_vec()), "abc");
    assert_eq!(text(&"标题".as_bytes().to_vec()), "标题");
    assert_eq!(text(&vec![b'a', 0xff, b'b']), "a\u{fffd}b");
}

fn dir(name: &str, method: u16, crc: u32, size: u64) -> Dir {
    Dir {
        name: name.to_string(),
        method,
        crc,
        size,
        compressed: 2,
        offset: 9,
    }
}

#[test]
fn a_zip_hands_on_what_its_directory_states() {
    let dirs = vec![dir("a.txt", 8, 0x3610_a686, 5), dir("b", 0, 1, 7)];
    let out = zip_entries(&dirs, &Vec::new());
    match &out.entries[0] {
        Entry::Zip(row) => {
            assert_eq!(row.name, "a.txt");
            assert_eq!(row.crc32, "0x3610a686");
            assert_eq!((row.size, row.compressed, row.local_header_at), (5, 2, 9));
        }
        _ => panic!("no zip row"),
    }
    match &out.entries[1] {
        Entry::Zip(row) => assert_eq!(row.crc32, "0x00000001"),
        _ => panic!("no zip row"),
    }
    assert_eq!(out.total_size, 12);
    assert!(out.checks.iter().all(|one| one.ok), "{out:?}");
    assert_eq!(out.checks[1].note, "method 8");

    let odd = zip_entries(
        &vec![dir("a", 12, 0, 0)],
        &vec!["one".to_string(), "two".to_string()],
    );
    assert!(!odd.checks[0].ok);
    assert_eq!(odd.checks[0].note, "one; two");
    assert!(!odd.checks[1].ok);
    assert_eq!(zip_entries(&Vec::new(), &Vec::new()).checks.len(), 1);
}

#[test]
fn an_object_file_answers_without_a_member_table() {
    let out = list_members(Some("elf"), b"\x7fELF", &Vec::new(), &Vec::new());
    let report = cut_listing(out, 64);
    assert_eq!(report.container.as_deref(), Some("elf"));
    assert_eq!(report.count, 0);
    assert!(!report.checks[0].ok, "{report:?}");
    assert_eq!(report.checks[0].note, "族 elf 没有成员表");
    let none = list_members(None, b"??", &Vec::new(), &Vec::new());
    assert_eq!(none.container, None);
    assert_eq!(none.checks[0].claim, "signature");
}

#[test]
fn a_zero_limit_lists_what_the_default_lists() {
    for (given, want) in [(0u64, 3usize), (2, 2)] {
        let dirs = vec![
            dir("a.txt", 0, 0, 5),
            dir("b.txt", 0, 0, 5),
            dir("c.txt", 0, 0, 5),
        ];
        let listing = list_members(Some("zip"), b"", &dirs, &Vec::new());
        let report = cut_listing(listing, given);
        assert_eq!(report.count, 3, "{report:?}");
        assert_eq!(report.listed, want, "{report:?}");
        assert_eq!(report.entries.len(), want, "{report:?}");
        assert_eq!(report.cut, 3 - want);
    }
}

#[test]
fn the_first_bytes_are_shown_two_digits_each() {
    assert_eq!(hex(&[0x7f, 0x45, 0x00]), "7f 45 00");
    assert_eq!(hex(&[]), "");
    assert_eq!(magic_hex(&[0xab; 40]), vec!["ab"; 16].join(" "));
    assert_eq!(magic_hex(&[1]), "01");
}

fn element(name: &str, attrs: &[(&str, &str)], children: Vec<Node>) -> Node {
    Node {
        name: name.to_string(),
        attrs: attrs
            .iter()
            .map(|(a, b)| (a.to_string(), b.to_string()))
            .collect(),
        children,
        direct: String::new(),
    }
}

fn leaf(name: &str, said: &str) -> Node {
    let mut run = element("#text", &[], Vec::new());
    run.direct = said.to_string();
    element(name, &[], vec![run])
}

fn part(name: &str, children: Vec<Node>) -> PartTree {
    PartTree {
        name: name.to_string(),
        root: element("", &[], children),
    }
}

fn names(v: &[&str]) -> Vec<String> {
    v.iter().map(|one| one.to_string()).collect()
}

fn value<'a>(table: &'a [(String, String)], key: &str) -> Option<&'a str> {
    table
        .iter()
        .rev()
        .find(|one| one.0 == key)
        .map(|one| one.1.as_str())
}

#[test]
fn pictures_and_outward_relations_are_counted() {
    let members = names(&[
        "word/media/a.png",
        "xl/media/b.png",
        "ppt/media/c.png",
        "Pictures/d.png",
        "word/document.xml",
        "media/e.png",
    ]);
    assert_eq!(count_media(&members), 4);
    let parts = vec![
        part(
            "word/_rels/document.xml.rels",
            vec![
                element("Relationship", &[("TargetMode", "External")], Vec::new()),
                element("Relationship", &[("TargetMode", "Internal")], Vec::new()),
                element("Relationship", &[], Vec::new()),
            ],
        ),
        part(
            "word/other.xml",
            vec![element(
                "Relationship",
                &[("TargetMode", "External")],
                Vec::new(),
            )],
        ),
    ];
    assert_eq!(count_external(&parts), 1);
}

#[test]
fn who_wrote_a_package_stands_in_its_properties() {
    let parts = vec![
        part(
            "docProps/app.xml",
            vec![
                leaf("Application", "first"),
                leaf("Application", "Microsoft Macintosh Word"),
                leaf("AppVersion", "14.0000"),
            ],
        ),
        part(
            "docProps/core.xml",
            vec![
                leaf("dc:creator", "liuqi"),
                leaf("dc:creator", "second"),
                leaf("dcterms:created", "2013-12-23T23:15:00Z"),
            ],
        ),
        part(
            "meta.xml",
            vec![
                leaf("meta:generator", "LibreOffice/7"),
                leaf("dc:creator", ""),
                leaf("meta:initial-creator", "liuqi"),
            ],
        ),
    ];
    let origin = producer_of(&parts);
    assert_eq!(
        value(&origin.producer, "application"),
        Some("Microsoft Macintosh Word")
    );
    assert_eq!(value(&origin.producer, "app-version"), Some("14.0000"));
    assert_eq!(value(&origin.producer, "template"), None);
    assert_eq!(value(&origin.producer, "generator"), Some("LibreOffice/7"));
    assert_eq!(value(&origin.authoring, "creator"), Some("liuqi"));
    assert_eq!(
        value(&origin.authoring, "created"),
        Some("2013-12-23T23:15:00Z")
    );
    assert_eq!(value(&origin.authoring, "initial-creator"), Some("liuqi"));
    assert_eq!(value(&origin.authoring, "generator"), Some("LibreOffice/7"));
}

#[test]
fn properties_of_a_compound_file_are_sorted_by_name() {
    let found = sort_props(&vec![
        Some("application".to_string()),
        None,
        Some("author".to_string()),
        Some("title".to_string()),
        Some("template".to_string()),
        Some("revision".to_string()),
    ]);
    assert_eq!(found.producer, vec![0, 4]);
    assert_eq!(found.authoring, vec![2, 5]);
}

#[test]
fn a_package_passes_where_nothing_is_said_against_it() {
    let sound = check_zip(&Vec::new(), &Vec::new());
    assert!(sound.iter().all(|one| one.ok && one.note.is_empty()));
    let odd = check_zip(&names(&["a", "b"]), &names(&["c"]));
    assert_eq!(odd[0].note, "a；b");
    assert_eq!(odd[1].note, "c");
    assert!(!odd[0].ok && !odd[1].ok);
}

#[test]
fn a_file_is_described_by_its_family() {
    let members = names(&["word/media/a.png", "meta.xml"]);
    let parts = vec![part("meta.xml", vec![leaf("generator", "x")])];
    let zip = describe(
        Family::Odf,
        &members,
        &parts,
        &Vec::new(),
        &Vec::new(),
        None,
        b"",
    );
    assert_eq!(zip.container, "ZIP (OpenDocument package)");
    assert_eq!((zip.parts, zip.media, zip.external_targets), (2, 1, 0));
    assert_eq!(zip.checks.len(), 2);
    assert!(zip.streams.is_none());
    let other = describe(
        Family::Other,
        &Vec::new(),
        &parts,
        &Vec::new(),
        &Vec::new(),
        None,
        b"",
    );
    assert_eq!(other.container, "unknown");
    assert!(other.checks.is_empty() && other.origin.producer.is_empty());
    assert_eq!(Family::Ooxml.container(), "ZIP (OPC package)");
    assert_eq!(Family::Zip.container(), "ZIP");
    assert_eq!(Family::Rtf.container(), "RTF text");
    assert_eq!(Family::Compound.container(), "MS-CFB compound file");
    assert!(Family::Zip.is_zip() && !Family::Rtf.is_zip());
}
