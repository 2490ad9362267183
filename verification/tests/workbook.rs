//! Reading binary workbooks.

use lilyco_binfmt::biff::{
    decode_rk, officeart_blips, read, shared_strings, AsDate, Blip, Book, Cell, Number, Shown,
};
use lilyco_binfmt::bytes::{le16, le32};
use lilyco_binfmt::cfb::open;

const END: u32 = 0xFFFF_FFFE;

fn put32(b: &mut [u8], at: usize, v: u32) {
    b[at..at + 4].copy_from_slice(&v.to_le_bytes());
}

fn put16(b: &mut [u8], at: usize, v: u16) {
    b[at..at + 2].copy_from_slice(&v.to_le_bytes());
}

fn directory_entry(name: &str, kind: u8, start: u32, size: usize) -> Vec<u8> {
    let mut one = vec![0u8; 128];
    let units: Vec<u16> = name.encode_utf16().collect();
    for (i, unit) in units.iter().enumerate() {
        put16(&mut one, i * 2, *unit);
    }
    put16(&mut one, 64, (units.len() * 2 + 2) as u16);
    one[66] = kind;
    put32(&mut one, 68, 0xFFFF_FFFF);
    put32(&mut one, 72, 0xFFFF_FFFF);
    put32(&mut one, 76, 0xFFFF_FFFF);
    put32(&mut one, 116, start);
    put32(&mut one, 120, size as u32);
    one
}

fn padded(bytes: &[u8], to: usize) -> Vec<u8> {
    let mut out = bytes.to_vec();
    while out.len() % to != 0 {
        out.push(0);
    }
    out
}

/// A compound file with these streams: table, directory and small streams first, then the large
/// ones.
fn compound(streams: &[(&str, Vec<u8>)]) -> Vec<u8> {
    let mut mini: Vec<u8> = Vec::new();
    let mut mini_fat: Vec<u32> = Vec::new();
    let mut large: Vec<u8> = Vec::new();
    let mut chains: Vec<(u32, usize)> = Vec::new();
    let mut rows: Vec<(String, u32, usize)> = Vec::new();
    for (name, bytes) in streams {
        if bytes.len() < 4096 {
            let start = mini_fat.len() as u32;
            let part = padded(bytes, 64);
            for i in 0..part.len() / 64 {
                mini_fat.push(start + i as u32 + 1);
            }
            if let Some(last) = mini_fat.last_mut() {
                *last = END;
            }
            mini.extend_from_slice(&part);
            rows.push((name.to_string(), start, bytes.len()));
        } else {
            let part = padded(bytes, 512);
            let at = (large.len() / 512) as u32;
            chains.push((at, part.len() / 512));
            large.extend_from_slice(&part);
            rows.push((name.to_string(), at, bytes.len()));
        }
    }
    let size = mini.len();
    let mini = padded(&mini, 512);
    let base = 3 + (mini.len() / 512) as u32;
    let mut directory = directory_entry("Root Entry", 5, if size == 0 { END } else { 3 }, size);
    for (name, at, long) in &rows {
        let start = if *long < 4096 { *at } else { base + *at };
        directory.extend_from_slice(&directory_entry(name, 2, start, *long));
    }
    assert!(directory.len() <= 512);
    let mut fat = vec![0xFFFF_FFFFu32; 128];
    fat[0] = 0xFFFF_FFFD;
    fat[1] = END;
    fat[2] = END;
    for i in 3..base {
        fat[i as usize] = if i + 1 == base { END } else { i + 1 };
    }
    for (at, count) in chains {
        for i in 0..count as u32 {
            let last = i + 1 == count as u32;
            fat[(base + at + i) as usize] = if last { END } else { base + at + i + 1 };
        }
    }
    let mut out = vec![0u8; 512];
    out[..8].copy_from_slice(&[0xD0, 0xCF, 0x11, 0xE0, 0xA1, 0xB1, 0x1A, 0xE1]);
    put16(&mut out, 24, 0x3E);
    put16(&mut out, 26, 3);
    put16(&mut out, 28, 0xFFFE);
    put16(&mut out, 30, 9);
    put16(&mut out, 32, 6);
    put32(&mut out, 44, 1);
    put32(&mut out, 48, 1);
    put32(&mut out, 56, 4096);
    put32(&mut out, 60, 2);
    put32(&mut out, 64, 1);
    put32(&mut out, 68, END);
    for i in 0..109 {
        put32(&mut out, 76 + i * 4, if i == 0 { 0 } else { 0xFFFF_FFFF });
    }
    let mut sector = Vec::new();
    for one in &fat {
        sector.extend_from_slice(&one.to_le_bytes());
    }
    out.extend_from_slice(&sector);
    out.extend_from_slice(&padded(&directory, 512));
    let mut sector = Vec::new();
    for i in 0..128 {
        let one = mini_fat.get(i).copied().unwrap_or(0xFFFF_FFFF);
        sector.extend_from_slice(&one.to_le_bytes());
    }
    out.extend_from_slice(&sector);
    out.extend_from_slice(&mini);
    out.extend_from_slice(&large);
    out
}

fn value_of(n: Number) -> f64 {
    let (raw, hundredth) = match n {
        Number::Real { bits, hundredth } => (f64::from_bits(bits), hundredth),
        Number::Whole { value, hundredth } => (f64::from(value), hundredth),
    };
    if hundredth {
        raw / 100.0
    } else {
        raw
    }
}

#[test]
fn cell_references_use_the_spreadsheet_notation() {
    let at = |row: u32, col: u32| Cell {
        row,
        col,
        kind: "sst",
        text: None,
        number: None,
        sheet: None,
        ixfe: None,
    };
    assert_eq!(at(0, 0).reference(), "A1");
    assert_eq!(at(3, 1).reference(), "B4");
    assert_eq!(at(9, 25).reference(), "Z10");
    assert_eq!(at(0, 26).reference(), "AA1");
    assert_eq!(at(0, 27).reference(), "AB1");
    assert_eq!(at(0, 51).reference(), "AZ1");
}

#[test]
fn rk_flags_are_bit_zero_for_hundredth_and_bit_one_for_integer() {
    assert_eq!(value_of(decode_rk((124000u32 << 2) | 0x02)), 124000.0);
    assert_eq!(value_of(decode_rk((123456u32 << 2) | 0x03)), 1234.56);
    assert_eq!(value_of(decode_rk((1_234_567u32 << 2) | 0x02)), 1234567.0);
    let negative = (((-1234i32) << 2) as u32) | 0x02;
    assert_eq!(value_of(decode_rk(negative)), -1234.0, "{negative:#x}");
    assert_eq!(value_of(decode_rk(0x3FF8_0000)), 1.5);
}

#[test]
fn strings_can_straddle_a_continue_boundary_and_switch_width() {
    let first = [b'\x05', b'\x00', b'\x00', b'a', b'b', b'c', b'd'];
    let second = [0x00u8, b'e', b'f'];
    let mut notes: Vec<String> = Vec::new();
    let got = shared_strings(&[first.to_vec(), second.to_vec()], 1, &mut notes);
    assert_eq!(got, vec!["abcde".to_string()], "{got:?} {notes:?}");
    let mut wide_head: Vec<u8> = vec![0x02, 0x00, 0x01];
    wide_head.extend_from_slice(&0x4E2Du16.to_le_bytes());
    let mut tail: Vec<u8> = vec![0x00];
    tail.push(b'!');
    let got = shared_strings(&[wide_head, tail], 1, &mut notes);
    assert_eq!(got, vec!["中!".to_string()], "{got:?}");
}

#[test]
fn a_sst_that_promises_more_than_it_has_says_so() {
    let mut notes: Vec<String> = Vec::new();
    let got = shared_strings(&[Vec::new()], 3, &mut notes);
    assert!(got.is_empty(), "{got:?}");
    assert!(!notes.is_empty());
}

fn a_real_run_record() -> Vec<u8> {
    vec![
        0x04, 0x00, 0x00, 0x00, 0x0f, 0x00, 0x1e, 0x00, 0x00, 0x00, 0x0f, 0x00, 0x3a, 0x00, 0x00,
        0x00, 0x0f, 0x00, 0x56, 0x00, 0x00, 0x00, 0x02, 0x00,
    ]
}

#[test]
fn a_run_record_names_each_cell_format_before_its_value() {
    let body = a_real_run_record();
    assert_eq!(le16(&body, 0), Some(4));
    assert_eq!(le16(&body, 2), Some(0));
    assert_eq!(le16(&body, 4), Some(15));
    assert_eq!(le32(&body, 6), Some(0x1e));
    assert_eq!(le32(&body, 12), Some(0x3a));
    assert_eq!(le32(&body, 18), Some(0x56));
    assert_eq!(le16(&body, 22), Some(2));
    assert_eq!(value_of(decode_rk(0x1e)), 7.0);
    assert_eq!(value_of(decode_rk(0x3a)), 14.0);
    assert_eq!(value_of(decode_rk(0x56)), 21.0);
}

fn art(instance: u64, rectype: u64, body: &[u8]) -> Vec<u8> {
    let mut one = Vec::new();
    let head = (((rectype << 16) | (instance << 4)) as u32).to_le_bytes();
    one.extend_from_slice(&head);
    one.extend_from_slice(&(body.len() as u32).to_le_bytes());
    one.extend_from_slice(body);
    one
}

#[test]
fn a_blip_that_overruns_or_hides_too_deep_is_not_walked_out() {
    let png = [0x89u8, b'P', b'N', b'G', 0x0d, 0x0a, 0x1a, 0x0a];
    let mut cut = art(6, 0xF007, &png);
    cut[4..8].copy_from_slice(&4000u32.to_le_bytes());
    cut.extend_from_slice(b"12345678");
    let mut out: Vec<Blip> = Vec::new();
    officeart_blips(&cut, 0, 0, &mut out);
    assert_eq!(out.len(), 1);
    assert_eq!(out[0].cb, 4000);
    assert_eq!(out[0].instance, 6);
    assert!(
        out[0].magic_at.is_none() && out[0].kind.is_none() && out[0].inline_bytes.is_none(),
        "{:?}",
        out[0]
    );
    let mut deep = art(6, 0xF007, &png);
    for _ in 0..9 {
        deep = art(0, 0xF000, &deep);
    }
    let mut nested: Vec<Blip> = Vec::new();
    officeart_blips(&deep, 0, 0, &mut nested);
    assert!(nested.is_empty(), "{nested:?}");
    let mut eight = art(6, 0xF007, &png);
    for _ in 0..8 {
        eight = art(0, 0xF000, &eight);
    }
    let mut ok: Vec<Blip> = Vec::new();
    officeart_blips(&eight, 0, 0, &mut ok);
    assert_eq!(ok.len(), 1, "{ok:?}");
    assert_eq!(ok[0].kind, Some("png"));
}

fn record(op: u16, body: &[u8]) -> Vec<u8> {
    let mut out = op.to_le_bytes().to_vec();
    out.extend_from_slice(&(body.len() as u16).to_le_bytes());
    out.extend_from_slice(body);
    out
}

fn words16(v: &[u16]) -> Vec<u8> {
    v.iter().flat_map(|one| one.to_le_bytes()).collect()
}

fn boundsheet(start: u32, state: u16, name: &str) -> Vec<u8> {
    let mut body = start.to_le_bytes().to_vec();
    body.extend_from_slice(&state.to_le_bytes());
    body.push(name.chars().count() as u8);
    body.push(1);
    for unit in name.encode_utf16() {
        body.extend_from_slice(&unit.to_le_bytes());
    }
    record(0x0085, &body)
}

/// A workbook with two sheets: shared text and numbers on the first, nothing on the second.
fn workbook(date1904: u16) -> Book {
    let mut sst = 2u32.to_le_bytes().to_vec();
    sst.extend_from_slice(&2u32.to_le_bytes());
    sst.extend_from_slice(&[2, 0, 0, b'h', b'i']);
    sst.extend_from_slice(&[1, 0, 1, 0x2D, 0x4E]);
    let globals = |first: u32, second: u32| -> Vec<u8> {
        let mut out = record(0x0809, &words16(&[0x0600, 5, 0, 0]));
        out.extend(record(0x0022, &words16(&[date1904])));
        out.extend(record(0x00E0, &words16(&[0, 0])));
        out.extend(record(0x00E0, &words16(&[0, 14])));
        out.extend(boundsheet(first, 0, "表"));
        out.extend(boundsheet(second, 1, "B"));
        out.extend(record(0x00FC, &sst));
        out.extend(record(0x000A, &[]));
        out
    };
    let mut sheet = record(0x0809, &words16(&[0x0600, 0x10, 0, 0]));
    sheet.extend(record(0x00FD, &words16(&[0, 0, 0, 1, 0])));
    let mut rk = words16(&[1, 1, 1]);
    rk.extend_from_slice(&((41_631u32 << 2) | 2).to_le_bytes());
    sheet.extend(record(0x027E, &rk));
    sheet.extend(record(0x00BD, &a_real_run_record()));
    sheet.extend(record(0x0208, &words16(&[7, 0, 0, 0, 0, 0, 0x20, 0])));
    sheet.extend(record(0x0208, &words16(&[3, 0, 0, 0, 0, 0, 0x20, 0])));
    sheet.extend(record(0x007D, &words16(&[2, 4, 0, 0, 1, 0])));
    sheet.extend(record(0x000A, &[]));
    let head = globals(0, 0).len() as u32;
    let mut stream = globals(head, head + sheet.len() as u32);
    stream.extend_from_slice(&sheet);
    stream.extend(record(0x0809, &words16(&[0x0600, 0x10, 0, 0])));
    stream.extend(record(0x000A, &[]));
    let b = compound(&[("Workbook", stream)]);
    read(&open(&b).expect("opens"), &b).expect("a workbook")
}

#[test]
fn a_workbook_is_read_record_by_record() {
    let book = workbook(0);
    assert_eq!(book.bofs, vec![(1536, 5), (1536, 16), (1536, 16)]);
    let sheets: Vec<(&str, &str)> = book
        .sheets
        .iter()
        .map(|one| (one.name.as_str(), one.state))
        .collect();
    assert_eq!(sheets, vec![("表", "visible"), ("B", "hidden")]);
    assert_eq!(book.strings, vec!["hi", "中"]);
    assert_eq!(book.cells.len(), 5, "{:?}", book.cells);
    assert!(book.cells.iter().all(|one| one.sheet.as_deref() == Some("表")));
    assert_eq!(book.cells[0].text.as_deref(), Some("中"));
    let run: Vec<(String, f64)> = book
        .cells
        .iter()
        .filter(|one| one.kind == "mulrk")
        .map(|one| (one.reference(), value_of(one.number.expect("a number"))))
        .collect();
    assert_eq!(
        run,
        vec![
            ("A5".to_string(), 7.0),
            ("B5".to_string(), 14.0),
            ("C5".to_string(), 21.0)
        ]
    );
    assert_eq!(book.sheets[0].hidden_rows, vec![3, 7]);
    assert_eq!(book.sheets[0].hidden_cols, vec![2, 3, 4]);
    assert!(book.sheets[1].hidden_rows.is_empty());
    assert_eq!(book.date1904, Some(false));
    assert!(book.notes.is_empty(), "{:?}", book.notes);
}

#[test]
fn a_cell_shows_a_date_where_its_format_does() {
    for (flag, year1904) in [(0u16, false), (1, true)] {
        let book = workbook(flag);
        let format = book.cell_format(&book.cells[1]).expect("a format");
        assert_eq!((format.num_fmt, format.format_kind), (14, "date"));
        assert_eq!(format.format.as_deref(), Some("mm-dd-yy"));
        let number = Number::Whole {
            value: 41_631,
            hundredth: false,
        };
        assert_eq!(format.as_date, AsDate::Serial { number, year1904 });
        match book.shown(&book.cells[1]) {
            Shown::Date {
                number: n,
                year1904: y,
            } => assert_eq!((n, y), (number, year1904)),
            other => panic!("{other:?}"),
        }
        match book.shown(&book.cells[0]) {
            Shown::Text(t) => assert_eq!(t, "中"),
            other => panic!("{other:?}"),
        }
        let plain = book.cell_format(&book.cells[0]).expect("a format");
        assert_eq!((plain.format_kind, plain.as_date), ("text", AsDate::Absent));
    }
}

#[test]
fn a_container_without_a_workbook_says_so() {
    let b = compound(&[("WordDocument", vec![0u8; 10])]);
    let why = read(&open(&b).expect("opens"), &b).unwrap_err();
    assert!(why.contains("Workbook"), "{why}");
}
