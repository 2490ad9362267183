//! Opening compound files.

use lilyco_binfmt::cfb::{can_open, is_cfb, open, sector_offset, utf16_name};
use lilyco_binfmt::lists::put_in_order;
use lilyco_binfmt::office_info::check_compound;
use lilyco_binfmt::text::utf16_text;

const END: u32 = 0xFFFF_FFFE;

fn put32(b: &mut [u8], at: usize, v: u32) {
    b[at..at + 4].copy_from_slice(&v.to_le_bytes());
}

fn put16(b: &mut [u8], at: usize, v: u16) {
    b[at..at + 2].copy_from_slice(&v.to_le_bytes());
}

fn directory_entry(name: &str, kind: u8, start: u32, size: usize) -> Vec<u8> {
    let mut one = vec![0u8; 128];
    let units: Vec<u16> = name.encode_utf16().collect();
    for (i, unit) in units.iter().enumerate() {
        put16(&mut one, i * 2, *unit);
    }
    put16(&mut one, 64, (units.len() * 2 + 2) as u16);
    one[66] = kind;
    put32(&mut one, 68, 0xFFFF_FFFF);
    put32(&mut one, 72, 0xFFFF_FFFF);
    put32(&mut one, 76, 0xFFFF_FFFF);
    put32(&mut one, 116, start);
    put32(&mut one, 120, size as u32);
    one
}

fn padded(bytes: &[u8], to: usize) -> Vec<u8> {
    let mut out = bytes.to_vec();
    while out.len() % to != 0 {
        out.push(0);
    }
    out
}

/// A compound file with these streams: table, directory and small streams first, then the large
/// ones.
fn compound(streams: &[(&str, Vec<u8>)]) -> Vec<u8> {
    let mut mini: Vec<u8> = Vec::new();
    let mut mini_fat: Vec<u32> = Vec::new();
    let mut large: Vec<u8> = Vec::new();
    let mut chains: Vec<(u32, usize)> = Vec::new();
    let mut rows: Vec<(String, u32, usize)> = Vec::new();
    for (name, bytes) in streams {
        if bytes.len() < 4096 {
            let start = mini_fat.len() as u32;
            let part = padded(bytes, 64);
            for i in 0..part.len() / 64 {
                mini_fat.push(start + i as u32 + 1);
            }
            if let Some(last) = mini_fat.last_mut() {
                *last = END;
            }
            mini.extend_from_slice(&part);
            rows.push((name.to_string(), start, bytes.len()));
        } else {
            let part = padded(bytes, 512);
            let at = (large.len() / 512) as u32;
            chains.push((at, part.len() / 512));
            large.extend_from_slice(&part);
            rows.push((name.to_string(), at, bytes.len()));
        }
    }
    let size = mini.len();
    let mini = padded(&mini, 512);
    let base = 3 + (mini.len() / 512) as u32;
    let mut directory = directory_entry("Root Entry", 5, if size == 0 { END } else { 3 }, size);
    for (name, at, long) in &rows {
        let start = if *long < 4096 { *at } else { base + *at };
        directory.extend_from_slice(&directory_entry(name, 2, start, *long));
    }
    assert!(directory.len() <= 512);
    let mut fat = vec![0xFFFF_FFFFu32; 128];
    fat[0] = 0xFFFF_FFFD;
    fat[1] = END;
    fat[2] = END;
    for i in 3..base {
        fat[i as usize] = if i + 1 == base { END } else { i + 1 };
    }
    for (at, count) in chains {
        for i in 0..count as u32 {
            let last = i + 1 == count as u32;
            fat[(base + at + i) as usize] = if last { END } else { base + at + i + 1 };
        }
    }
    let mut out = vec![0u8; 512];
    out[..8].copy_from_slice(&[0xD0, 0xCF, 0x11, 0xE0, 0xA1, 0xB1, 0x1A, 0xE1]);
    put16(&mut out, 24, 0x3E);
    put16(&mut out, 26, 3);
    put16(&mut out, 28, 0xFFFE);
    put16(&mut out, 30, 9);
    put16(&mut out, 32, 6);
    put32(&mut out, 44, 1);
    put32(&mut out, 48, 1);
    put32(&mut out, 56, 4096);
    put32(&mut out, 60, 2);
    put32(&mut out, 64, 1);
    put32(&mut out, 68, END);
    for i in 0..109 {
        put32(&mut out, 76 + i * 4, if i == 0 { 0 } else { 0xFFFF_FFFF });
    }
    let mut sector = Vec::new();
    for one in &fat {
        sector.extend_from_slice(&one.to_le_bytes());
    }
    out.extend_from_slice(&sector);
    out.extend_from_slice(&padded(&directory, 512));
    let mut sector = Vec::new();
    for i in 0..128 {
        let one = mini_fat.get(i).copied().unwrap_or(0xFFFF_FFFF);
        sector.extend_from_slice(&one.to_le_bytes());
    }
    out.extend_from_slice(&sector);
    out.extend_from_slice(&mini);
    out.extend_from_slice(&large);
    out
}

#[test]
fn refuses_anything_without_the_signature() {
    let why = open(b"PK\x03\x04 not a compound file at all").unwrap_err();
    assert!(why.contains("512") || why.contains("签名"), "{why}");
    let mut fake = vec![0u8; 512];
    fake[..8].copy_from_slice(&[1, 2, 3, 4, 5, 6, 7, 8]);
    let why = open(&fake).unwrap_err();
    assert!(why.contains("签名"), "{why}");
}

#[test]
fn streams_go_by_their_own_size() {
    let small: Vec<u8> = (0..200u8).collect();
    let big: Vec<u8> = (0..5000u32).map(|i| (i % 251) as u8).collect();
    let b = compound(&[("Small", small.clone()), ("WordDocument", big.clone())]);
    assert!(is_cfb(&b) && can_open(&b));
    let cfb = open(&b).expect("opens");
    assert_eq!((cfb.major, cfb.minor), (3, 62));
    assert_eq!((cfb.sector_size, cfb.mini_sector_size, cfb.mini_cutoff), (512, 64, 4096));
    assert_eq!(cfb.fat_sectors, 1);
    assert!(!cfb.difat_chained);
    assert_eq!(cfb.directory_entry_count(), 4);
    assert_eq!(cfb.stream_count(), 2);
    assert_eq!(cfb.stream_names(), vec!["Small", "WordDocument"]);
    let one = cfb.find("Small").expect("there");
    assert_eq!((cfb.via(one), one.size), ("mini", 200));
    let two = cfb.find("WordDocument").expect("there");
    assert_eq!((cfb.via(two), two.size), ("fat", 5000));
    assert_eq!(cfb.read(&b, "Small"), Some(small));
    assert_eq!(cfb.read(&b, "WordDocument"), Some(big));
    assert_eq!(cfb.read(&b, "Missing"), None);
    assert!(cfb.notes.is_empty(), "{:?}", cfb.notes);
}

#[test]
fn the_names_of_streams_match_in_any_case() {
    let b = compound(&[("WordDocument", vec![1u8; 10]), ("ÉTÉ", vec![2u8; 20])]);
    let cfb = open(&b).expect("opens");
    assert_eq!(cfb.find("worddocument").expect("there").size, 10);
    assert_eq!(cfb.find("WORDDOCUMENT").expect("there").size, 10);
    assert_eq!(cfb.find("été").expect("there").size, 20);
    assert!(cfb.find("word").is_none());
}

#[test]
fn each_fault_of_a_header_is_named() {
    let good = compound(&[("A", vec![0u8; 10])]);
    let fault = |at: usize, v: u16| {
        let mut b = good.clone();
        put16(&mut b, at, v);
        open(&b).unwrap_err()
    };
    assert_eq!(fault(26, 9), "主版本号 9 不认识（只有 3 与 4）");
    assert_eq!(fault(28, 0xFEFF), "字节序标记是 0xfeff，CFB 只允许小端（0xFFFE）");
    assert_eq!(fault(30, 10), "扇区大小 1024 不对（只有 512 与 4096）");
    assert_eq!(fault(30, 200), "扇区大小算不出来");
    assert_eq!(fault(32, 200), "迷你扇区大小算不出来");
    assert_eq!(
        open(&good[..100]).unwrap_err(),
        "文件只有 100 字节，放不下 512 字节的 CFB 头"
    );
}

#[test]
fn a_short_container_says_what_it_lost() {
    let big: Vec<u8> = vec![3u8; 6000];
    let b = compound(&[("WordDocument", big)]);
    let cut = &b[..b.len() - 3000];
    let cfb = open(cut).expect("the head is there");
    assert!(cfb.read(cut, "WordDocument").is_none());
    let mut looped = b.clone();
    put32(&mut looped, 512 + 4, 1);
    let cfb = open(&looped).expect("the head is there");
    assert!(!cfb.notes.is_empty());
}

#[test]
fn a_name_that_overruns_its_entry_cannot_be_opened() {
    let mut b = compound(&[("A", vec![0u8; 10])]);
    put16(&mut b, 512 + 512 + 64, 400);
    assert!(!can_open(&b));
}

#[test]
fn sectors_begin_behind_the_header() {
    assert_eq!(sector_offset(0, 512), Some(512));
    assert_eq!(sector_offset(3, 512), Some(2048));
}

#[test]
fn names_are_read_as_utf16() {
    assert_eq!(utf16_name(&[0x2D, 0x4E, b'a', 0, 0, 0], 0, 4), "中a");
    assert_eq!(utf16_text(&[0xD83D, 0xDE00, 0x41]), "\u{1F600}A");
    assert_eq!(utf16_text(&[0xD83D, 0x41]), "\u{FFFD}A");
}

#[test]
fn numbers_are_put_in_order_each_once() {
    assert_eq!(put_in_order(&vec![5, 1, 5, 3, 1]), vec![1, 3, 5]);
    assert_eq!(put_in_order(&Vec::new()), Vec::<u32>::new());
}

#[test]
fn only_version_four_has_long_streams() {
    let small: Vec<u8> = (0..200u8).collect();
    let mut b = compound(&[("Small", small.clone())]);
    // The directory is the second sector behind the header; its entries are 128 bytes long.
    b[1024 + 124] = 7;
    b[1024 + 128 + 124] = 1;
    let cfb = open(&b).expect("opens");
    assert_eq!(cfb.major, 3);
    assert_eq!(cfb.entries[0].size, 256);
    assert_eq!(cfb.entries[1].size, 200);
    assert!(cfb.notes.is_empty(), "{:?}", cfb.notes);
    assert_eq!(cfb.read(&b, "Small"), Some(small));
    put16(&mut b, 26, 4);
    let cfb = open(&b).expect("opens");
    assert_eq!(cfb.entries[1].size, 0x1_0000_00c8);
    assert_eq!(cfb.entries[0].size, 0x7_0000_0100);
    assert_eq!(cfb.notes.len(), 1, "{:?}", cfb.notes);
    assert_eq!(cfb.read(&b, "Small"), None);
}

#[test]
fn each_stream_of_a_name_is_tried() {
    let mut b = compound(&[
        ("Equation Native", vec![1; 100]),
        ("Equation Native", vec![2; 100]),
    ]);
    let cfb = open(&b).expect("opens");
    let checks = check_compound(&cfb, &b);
    assert_eq!((checks.len(), checks[0].ok, checks[0].note.as_str()), (1, true, ""));
    assert_eq!(cfb.read(&b, "Equation Native"), Some(vec![1; 100]));
    assert_eq!(cfb.read_entry(&b, &cfb.entries[2]), Some(vec![2; 100]));
    // The second one says that it is longer than its chain.
    put32(&mut b, 1024 + 256 + 120, 1000);
    let cfb = open(&b).expect("opens");
    assert_eq!(cfb.read(&b, "Equation Native"), Some(vec![1; 100]));
    assert_eq!(cfb.read_entry(&b, &cfb.entries[2]), None);
    let checks = check_compound(&cfb, &b);
    assert!(!checks[0].ok);
    assert_eq!(checks[0].note, "1 条流的字节读不齐");
}
