//! Compound File Binary containers: the sectors, tables and directory under `.doc`, `.xls`
//! and `.ppt`.
//!
//! Sector `n` lies at `(n + 1) * sector_size`. A chain of sectors ends at `0xFFFFFFFE` or
//! `0xFFFFFFFF`. Whatever in the container does not add up is put down as a note and the part
//! that can be read is read.

use crate::bytes::{le16, le32, le64, word16, word32, word64};
use crate::lists::{
    append_range, ascending, first, first_from, holds, lemma_ascending, lemma_filter_take,
    lemma_increasing_unique, put_in_order, same_members,
};
use crate::text::{
    dec, hex, hex_of, hex_text, push_dec, push_hex, said, same, say, texts, utf16, utf16_text,
};
use vstd::arithmetic::power2::pow2;
use vstd::prelude::*;

verus! {

/// The eight bytes that every compound file begins with.
pub const SIGNATURE: [u8; 8] = [0xD0, 0xCF, 0x11, 0xE0, 0xA1, 0xB1, 0x1A, 0xE1];

pub const END_OF_CHAIN: u32 = 0xFFFF_FFFE;

pub const NO_SECT: u32 = 0xFFFF_FFFF;

/// No chain is followed further than this many sectors.
pub const CHAIN_LIMIT: usize = 0x10_0000;

/// No more than this many sectors of the sector list are followed.
pub const DIFAT_LIMIT: usize = 4096;

/// Where sector `which` lies.
pub open spec fn offset_of(which: u32, sector: int) -> int {
    (which + 1) * sector
}

/// Where sector `which` lies, if a machine address can say it.
pub fn sector_offset(which: u32, sector: usize) -> (r: Option<usize>)
    ensures
        r matches Some(at) ==> at == offset_of(which, sector as int),
        r is None <==> offset_of(which, sector as int) > usize::MAX,
{
    let ordinal: usize = which as usize;
    if ordinal == usize::MAX {
        assert((which + 1) * sector > usize::MAX || sector == 0) by (nonlinear_arith)
            requires
                which == usize::MAX,
                sector >= 0,
        ;
        if sector == 0 {
            assert((which + 1) * 0 == 0) by (nonlinear_arith);
            return Some(0);
        }
        return None;
    }
    (ordinal + 1).checked_mul(sector)
}

/// What following a chain gives: the bytes of its sectors, and why it stopped early if it did.
pub struct Walk {
    pub bytes: Seq<u8>,
    pub note: Option<Seq<char>>,
}

/// Follows the chain at `cur`, where `seen` lists the sectors it has been through.
pub open spec fn walk(
    b: Seq<u8>,
    cur: u32,
    seen: Seq<u32>,
    fat: Seq<u32>,
    sector: int,
) -> Walk
    decreases CHAIN_LIMIT - seen.len(),
{
    let at = offset_of(cur, sector);
    let none = Seq::<u8>::empty();
    if cur == END_OF_CHAIN || cur == NO_SECT {
        Walk { bytes: none, note: None }
    } else if seen.contains(cur) {
        Walk { bytes: none, note: Some(said("链在 "@, cur as int, " 处成环，已就地截断"@)) }
    } else if seen.len() >= CHAIN_LIMIT {
        Walk {
            bytes: none,
            note: Some(said("链超过 "@, CHAIN_LIMIT as int, " 个扇区，已就地截断"@)),
        }
    } else if at > usize::MAX {
        Walk { bytes: none, note: Some(said("扇区 "@, cur as int, " 的偏移算不出来"@)) }
    } else if at + sector > b.len() {
        Walk {
            bytes: none,
            note: Some(said("扇区 "@, cur as int, " 指向文件之外（截断的包？）"@)),
        }
    } else if cur >= fat.len() {
        Walk {
            bytes: b.subrange(at, at + sector),
            note: Some(said("FAT 里没有 "@, cur as int, " 这一格"@)),
        }
    } else {
        let rest = walk(b, fat[cur as int], seen.push(cur), fat, sector);
        Walk { bytes: b.subrange(at, at + sector) + rest.bytes, note: rest.note }
    }
}

/// The list of notes with one more where there is one.
pub open spec fn noted(notes: Seq<Seq<char>>, note: Option<Seq<char>>) -> Seq<Seq<char>> {
    match note {
        Some(one) => notes.push(one),
        None => notes,
    }
}

/// Collects the bytes along a chain. A loop, a sector outside the file, a missing table slot
/// and too long a chain each end it and leave a note.
pub fn read_chain(
    b: &[u8],
    start: u32,
    fat: &Vec<u32>,
    sector: usize,
    notes: &mut Vec<String>,
) -> (r: Vec<u8>)
    ensures
        ({
            let w = walk(b@, start, Seq::empty(), fat@, sector as int);
            &&& r@ == w.bytes
            &&& texts(final(notes)@) == noted(texts(old(notes)@), w.note)
        }),
{
    let mut out: Vec<u8> = Vec::new();
    let mut cur: u32 = start;
    let mut seen: Vec<u32> = Vec::new();
    let ghost all = walk(b@, start, Seq::empty(), fat@, sector as int);
    let mut fault: Option<String> = None;
    assert(all.bytes =~= out@ + all.bytes);
    while cur != END_OF_CHAIN && cur != NO_SECT
        invariant_except_break
            fault is None,
            seen@.len() <= CHAIN_LIMIT,
            all.note == walk(b@, cur, seen@, fat@, sector as int).note,
            all.bytes == out@ + walk(b@, cur, seen@, fat@, sector as int).bytes,
        invariant
            notes@ == old(notes)@,
        ensures
            all.bytes == out@,
            match fault {
                Some(f) => all.note == Some(f@),
                None => all.note is None,
            },
        decreases CHAIN_LIMIT - seen@.len(),
    {
        assert(out@ + Seq::<u8>::empty() =~= out@);
        if holds(&seen, cur) {
            fault = Some(say("链在 ", cur as u64, " 处成环，已就地截断"));
            break;
        }
        if seen.len() >= CHAIN_LIMIT {
            fault = Some(say("链超过 ", CHAIN_LIMIT as u64, " 个扇区，已就地截断"));
            break;
        }
        let base: usize = match sector_offset(cur, sector) {
            Some(base) => base,
            None => {
                fault = Some(say("扇区 ", cur as u64, " 的偏移算不出来"));
                break;
            },
        };
        if b.len() < sector || base > b.len() - sector {
            fault = Some(say("扇区 ", cur as u64, " 指向文件之外（截断的包？）"));
            break;
        }
        let ghost before = out@;
        append_range(&mut out, b, base, base + sector);
        if cur as usize >= fat.len() {
            fault = Some(say("FAT 里没有 ", cur as u64, " 这一格"));
            break;
        }
        let ghost rest = walk(b@, fat@[cur as int], seen@.push(cur), fat@, sector as int);
        assert(before + (b@.subrange(base as int, base + sector) + rest.bytes) =~= out@
            + rest.bytes);
        seen.push(cur);
        cur = fat[cur as usize];
    }
    match fault {
        Some(one) => {
            notes.push(one);
            assert(texts(notes@) =~= texts(old(notes)@).push(one@));
        },
        None => {},
    }
    out
}

/// `n` table slots from `at` on.
pub open spec fn slots(b: Seq<u8>, at: int, n: int) -> Seq<u32> {
    Seq::new(n as nat, |i: int| word32(b, at + 4 * i) as u32)
}

/// The sectors that `n` table slots from `at` on name.
pub open spec fn named(b: Seq<u8>, at: int, n: int) -> Seq<u32> {
    slots(b, at, n).filter(|one: u32| one != NO_SECT)
}

/// Appends the sectors that `n` table slots from `at` on name.
fn push_named(out: &mut Vec<u32>, b: &[u8], at: usize, n: usize)
    requires
        at + 4 * n <= b@.len(),
    ensures
        final(out)@ == old(out)@ + named(b@, at as int, n as int),
{
    let ghost p = |one: u32| one != NO_SECT;
    let size: usize = b.len();
    let mut i: usize = 0;
    assert(slots(b@, at as int, 0) =~= Seq::empty());
    assert(named(b@, at as int, 0) =~= Seq::empty()) by {
        reveal(Seq::filter);
    }
    assert(out@ =~= old(out)@ + named(b@, at as int, 0));
    while i < n
        invariant
            i <= n,
            at + 4 * n <= b@.len(),
            b@.len() == size,
            p == (|one: u32| one != NO_SECT),
            out@ == old(out)@ + named(b@, at as int, i as int),
        decreases n - i,
    {
        let ghost before = slots(b@, at as int, i as int);
        if let Some(one) = le32(b, at + i * 4) {
            let one: u32 = one as u32;
            proof {
                assert(slots(b@, at as int, i + 1) =~= before.push(one));
                before.lemma_filter_push(one, p);
                assert(out@.push(one) =~= old(out)@ + before.filter(p).push(one));
            }
            if one != NO_SECT {
                out.push(one);
            }
        }
        i += 1;
    }
}

/// Appends `n` table slots from `at` on.
fn push_slots(out: &mut Vec<u32>, b: &[u8], at: usize, n: usize)
    requires
        at + 4 * n <= b@.len(),
    ensures
        final(out)@ == old(out)@ + slots(b@, at as int, n as int),
{
    let size: usize = b.len();
    let mut i: usize = 0;
    while i < n
        invariant
            i <= n,
            at + 4 * n <= b@.len(),
            b@.len() == size,
            out@ == old(out)@ + slots(b@, at as int, i as int),
        decreases n - i,
    {
        if let Some(one) = le32(b, at + i * 4) {
            out.push(one as u32);
        }
        i += 1;
        assert(out@ =~= old(out)@ + slots(b@, at as int, i as int));
    }
}

/// What the chained part of the sector list gives: table sectors, and why it broke off.
pub struct Listed {
    pub sectors: Seq<u32>,
    pub note: Option<Seq<char>>,
}

/// Follows the chained part of the sector list through at most `left` sectors. The last slot
/// of each sector names the next one.
pub open spec fn chained(b: Seq<u8>, next: u32, sector: int, left: nat) -> Listed
    decreases left,
{
    let at = offset_of(next, sector);
    let none = Seq::<u32>::empty();
    if next == END_OF_CHAIN || next == NO_SECT || left == 0 {
        Listed { sectors: none, note: None }
    } else if at > usize::MAX {
        Listed { sectors: none, note: Some("DIFAT 链指向了放不下扇区的位置"@) }
    } else if at + sector > b.len() {
        Listed { sectors: none, note: Some("DIFAT 链越界，后面的 FAT 扇区读不到"@) }
    } else {
        let rest = chained(b, word32(b, at + sector - 4) as u32, sector, (left - 1) as nat);
        Listed { sectors: named(b, at, sector / 4 - 1) + rest.sectors, note: rest.note }
    }
}

/// Appends the table sectors that the chained part of the sector list names.
fn push_chained(
    out: &mut Vec<u32>,
    b: &[u8],
    start: u32,
    sector: usize,
    notes: &mut Vec<String>,
)
    requires
        sector == 512 || sector == 4096,
    ensures
        ({
            let c = chained(b@, start, sector as int, DIFAT_LIMIT as nat);
            &&& final(out)@ == old(out)@ + c.sectors
            &&& texts(final(notes)@) == noted(texts(old(notes)@), c.note)
        }),
{
    let ghost all = chained(b@, start, sector as int, DIFAT_LIMIT as nat);
    let mut next: u32 = start;
    let mut guard: usize = 0;
    let mut fault: Option<String> = None;
    assert(old(out)@ + all.sectors =~= out@ + all.sectors);
    while next != END_OF_CHAIN && next != NO_SECT && guard < DIFAT_LIMIT
        invariant_except_break
            fault is None,
            guard <= DIFAT_LIMIT,
            all.note == chained(b@, next, sector as int, (DIFAT_LIMIT - guard) as nat).note,
            old(out)@ + all.sectors == out@ + chained(
                b@,
                next,
                sector as int,
                (DIFAT_LIMIT - guard) as nat,
            ).sectors,
        invariant
            sector == 512 || sector == 4096,
            notes@ == old(notes)@,
        ensures
            out@ == old(out)@ + all.sectors,
            match fault {
                Some(f) => all.note == Some(f@),
                None => all.note is None,
            },
        decreases DIFAT_LIMIT - guard,
    {
        assert(out@ + Seq::<u32>::empty() =~= out@);
        let base: usize = match sector_offset(next, sector) {
            Some(base) => base,
            None => {
                fault = Some("DIFAT 链指向了放不下扇区的位置".to_owned());
                break;
            },
        };
        if b.len() < sector || base > b.len() - sector {
            fault = Some("DIFAT 链越界，后面的 FAT 扇区读不到".to_owned());
            break;
        }
        let ghost before = out@;
        let room: usize = sector / 4 - 1;
        push_named(out, b, base, room);
        let follow: u32 = match le32(b, base + room * 4) {
            Some(one) => one as u32,
            None => END_OF_CHAIN,
        };
        let ghost rest = chained(
            b@,
            follow,
            sector as int,
            (DIFAT_LIMIT - guard - 1) as nat,
        );
        assert(before + (named(b@, base as int, room as int) + rest.sectors) =~= out@
            + rest.sectors);
        next = follow;
        guard += 1;
    }
    match fault {
        Some(one) => {
            notes.push(one);
            assert(texts(notes@) =~= texts(old(notes)@).push(one@));
        },
        None => {},
    }
}

/// The sector table: the slots of its sectors one after another, and a note for each sector
/// that cannot be read.
pub struct Table {
    pub slots: Seq<u32>,
    pub notes: Seq<Seq<char>>,
}

/// The table that the sectors `which` hold.
pub open spec fn table(b: Seq<u8>, which: Seq<u32>, sector: int) -> Table
    decreases which.len(),
{
    if which.len() == 0 {
        Table { slots: Seq::empty(), notes: Seq::empty() }
    } else {
        let before = table(b, which.drop_last(), sector);
        let one = which.last();
        let at = offset_of(one, sector);
        if at > usize::MAX {
            Table {
                slots: before.slots,
                notes: before.notes.push(said("FAT 扇区 "@, one as int, " 的偏移算不出来"@)),
            }
        } else if at + sector > b.len() {
            Table {
                slots: before.slots,
                notes: before.notes.push(said("FAT 扇区 "@, one as int, " 越界"@)),
            }
        } else {
            Table { slots: before.slots + slots(b, at, sector / 4), notes: before.notes }
        }
    }
}

/// Reads the table that the sectors `which` hold.
fn read_table(b: &[u8], which: &Vec<u32>, sector: usize, notes: &mut Vec<String>) -> (r: Vec<u32>)
    ensures
        r@ == table(b@, which@, sector as int).slots,
        texts(final(notes)@) == texts(old(notes)@) + table(b@, which@, sector as int).notes,
{
    let mut fat: Vec<u32> = Vec::new();
    let mut i: usize = 0;
    assert(texts(notes@) =~= texts(old(notes)@) + table(b@, which@.take(0), sector as int).notes);
    while i < which.len()
        invariant
            i <= which@.len(),
            fat@ == table(b@, which@.take(i as int), sector as int).slots,
            texts(notes@) == texts(old(notes)@) + table(
                b@,
                which@.take(i as int),
                sector as int,
            ).notes,
        decreases which@.len() - i,
    {
        let ghost done = which@.take(i + 1);
        let ghost so_far = texts(notes@);
        assert(done.drop_last() =~= which@.take(i as int));
        let one: u32 = which[i];
        i += 1;
        match sector_offset(one, sector) {
            None => {
                notes.push(say("FAT 扇区 ", one as u64, " 的偏移算不出来"));
            },
            Some(base) => {
                if b.len() < sector || base > b.len() - sector {
                    notes.push(say("FAT 扇区 ", one as u64, " 越界"));
                } else {
                    push_slots(&mut fat, b, base, sector / 4);
                }
            },
        }
        assert(notes@.len() > so_far.len() ==> texts(notes@) =~= so_far.push(notes@.last()@));
        assert(texts(notes@) =~= texts(old(notes)@) + table(b@, done, sector as int).notes);
    }
    assert(which@.take(i as int) =~= which@);
    fat
}

/// Whether a byte string begins with the signature.
pub open spec fn signed(b: Seq<u8>) -> bool {
    b.len() >= 8 && forall|i: int| 0 <= i < 8 ==> #[trigger] b[i] == SIGNATURE@[i]
}

fn is_signed(b: &[u8]) -> (r: bool)
    requires
        b@.len() >= 8,
    ensures
        r == signed(b@),
{
    let mut i: usize = 0;
    while i < 8
        invariant
            i <= 8,
            b@.len() >= 8,
            forall|k: int| 0 <= k < i ==> b@[k] == SIGNATURE@[k],
        decreases 8 - i,
    {
        if b[i] != SIGNATURE[i] {
            return false;
        }
        i += 1;
    }
    true
}

/// Whether a byte string can be a compound file: room for the header, and the signature.
pub fn is_cfb(b: &[u8]) -> (r: bool)
    ensures
        r == (b@.len() >= 512 && signed(b@)),
{
    b.len() >= 512 && is_signed(b)
}

/// The size of a sector.
pub open spec fn sector_of(b: Seq<u8>) -> int {
    pow2(word16(b, 30) as nat) as int
}

/// The size of a mini sector.
pub open spec fn mini_sector_of(b: Seq<u8>) -> int {
    pow2(word16(b, 32) as nat) as int
}

/// Why a header is refused, if it is.
pub open spec fn header_fault(b: Seq<u8>) -> Option<Seq<char>> {
    if b.len() < 512 {
        Some(said("文件只有 "@, b.len() as int, " 字节，放不下 512 字节的 CFB 头"@))
    } else if !signed(b) {
        Some("开头八个字节不是 CFB 签名"@)
    } else if word16(b, 28) != 0xFFFE {
        Some(
            "字节序标记是 0x"@ + hex_text(word16(b, 28) as nat)
                + "，CFB 只允许小端（0xFFFE）"@,
        )
    } else if word16(b, 30) >= usize::BITS {
        Some("扇区大小算不出来"@)
    } else if word16(b, 32) >= usize::BITS {
        Some("迷你扇区大小算不出来"@)
    } else if word16(b, 26) != 3 && word16(b, 26) != 4 {
        Some(said("主版本号 "@, word16(b, 26), " 不认识（只有 3 与 4）"@))
    } else if sector_of(b) != 512 && sector_of(b) != 4096 {
        Some(said("扇区大小 "@, sector_of(b), " 不对（只有 512 与 4096）"@))
    } else {
        None
    }
}

/// Two to the power of `shift`.
fn two_to(shift: u64) -> (r: usize)
    requires
        shift < usize::BITS,
    ensures
        r == pow2(shift as nat),
{
    let by: usize = shift as usize;
    proof {
        vstd::bits::lemma_usize_pow2_no_overflow(by as nat);
        vstd::bits::lemma_usize_shl_is_mul(1, by);
    }
    1usize << by
}

/// Checks a header and gives the two sector sizes.
fn check_header(b: &[u8]) -> (r: Result<(usize, usize), String>)
    ensures
        match r {
            Ok(sizes) => header_fault(b@) is None && sizes.0 == sector_of(b@) && sizes.1
                == mini_sector_of(b@),
            Err(why) => header_fault(b@) == Some(why@),
        },
{
    if b.len() < 512 {
        return Err(say("文件只有 ", b.len() as u64, " 字节，放不下 512 字节的 CFB 头"));
    }
    if !is_signed(b) {
        return Err("开头八个字节不是 CFB 签名".to_owned());
    }
    let major: u64 = le16(b, 26).unwrap();
    let byte_order: u64 = le16(b, 28).unwrap();
    let shift: u64 = le16(b, 30).unwrap();
    let mini_shift: u64 = le16(b, 32).unwrap();
    if byte_order != 0xFFFE {
        let mut why: String = "字节序标记是 0x".to_owned();
        push_hex(&mut why, byte_order);
        why.append("，CFB 只允许小端（0xFFFE）");
        return Err(why);
    }
    if shift >= usize::BITS as u64 {
        return Err("扇区大小算不出来".to_owned());
    }
    if mini_shift >= usize::BITS as u64 {
        return Err("迷你扇区大小算不出来".to_owned());
    }
    let sector: usize = two_to(shift);
    let mini_sector: usize = two_to(mini_shift);
    if major != 3 && major != 4 {
        return Err(say("主版本号 ", major, " 不认识（只有 3 与 4）"));
    }
    if sector != 512 && sector != 4096 {
        return Err(say("扇区大小 ", sector as u64, " 不对（只有 512 与 4096）"));
    }
    Ok((sector, mini_sector))
}

/// A directory entry.
#[derive(Clone, Debug)]
pub struct Entry {
    pub name: String,
    /// `unknown`, `storage`, `stream`, `root` or `other`.
    pub kind: &'static str,
    pub start: u32,
    pub size: u64,
    pub clsid: String,
    pub created: u64,
    pub modified: u64,
    pub left: u32,
    pub right: u32,
    pub child: u32,
}

/// The kind that a type byte stands for.
pub open spec fn kind_of(raw: u8) -> Seq<char> {
    if raw == 0 {
        "unknown"@
    } else if raw == 1 {
        "storage"@
    } else if raw == 2 {
        "stream"@
    } else if raw == 5 {
        "root"@
    } else {
        "other"@
    }
}

fn kind_name(raw: u8) -> (r: &'static str)
    ensures
        r@ == kind_of(raw),
{
    match raw {
        0 => "unknown",
        1 => "storage",
        2 => "stream",
        5 => "root",
        _ => "other",
    }
}

/// `n` UTF-16 units from `at` on.
pub open spec fn units(b: Seq<u8>, at: int, n: int) -> Seq<u16> {
    Seq::new(n as nat, |i: int| word16(b, at + 2 * i) as u16)
}

/// The text that the UTF-16 units in `byte_len` bytes from `at` on spell.
pub fn utf16_name(b: &[u8], at: usize, byte_len: usize) -> (r: String)
    requires
        at + byte_len <= b@.len(),
    ensures
        r@ == utf16(units(b@, at as int, byte_len as int / 2)),
{
    let size: usize = b.len();
    let mut found: Vec<u16> = Vec::new();
    let mut i: usize = 0;
    while i < byte_len / 2
        invariant
            i <= byte_len / 2,
            at + byte_len <= b@.len(),
            b@.len() == size,
            found@ == units(b@, at as int, i as int),
        decreases byte_len / 2 - i,
    {
        found.push(b[at + 2 * i] as u16 + 256 * (b[at + 2 * i + 1] as u16));
        i += 1;
        assert(found@ =~= units(b@, at as int, i as int));
    }
    utf16_text(found.as_slice())
}

/// How many units long the name in an entry is. The stored length counts the closing zero.
pub open spec fn name_units(one: Seq<u8>) -> int {
    if word16(one, 64) < 2 {
        0
    } else {
        (word16(one, 64) - 2) / 2
    }
}

/// How long the stream of an entry is. Only version 4 has lengths of 64 bits; before that the
/// upper half means nothing.
pub open spec fn length_in(one: Seq<u8>, major: int) -> int {
    if major == 4 {
        word64(one, 120)
    } else {
        word32(one, 120)
    }
}

impl Entry {
    /// The entry is what these 128 bytes say in a container of that version.
    pub open spec fn describes(self, one: Seq<u8>, major: int) -> bool {
        &&& self.name@ == utf16(units(one, 0, name_units(one)))
        &&& self.kind@ == kind_of(one[66])
        &&& self.start == word32(one, 116)
        &&& self.size == length_in(one, major)
        &&& self.clsid@ == hex_of(one.subrange(80, 96))
        &&& self.created == word64(one, 100)
        &&& self.modified == word64(one, 108)
        &&& self.left == word32(one, 68)
        &&& self.right == word32(one, 72)
        &&& self.child == word32(one, 76)
    }

    pub open spec fn streams(self) -> bool {
        self.kind@ == "stream"@
    }

    /// Whether the entry is a stream.
    pub fn is_stream(&self) -> (r: bool)
        ensures
            r == self.streams(),
    {
        same(self.kind, "stream")
    }
}

/// The bytes of directory entry `i`.
pub open spec fn entry_bytes(dir: Seq<u8>, i: int) -> Seq<u8> {
    dir.subrange(128 * i, 128 * i + 128)
}

/// Every name in the directory lies inside its entry.
pub open spec fn names_inside(dir: Seq<u8>) -> bool {
    forall|i: int|
        0 <= i < dir.len() as int / 128 ==> #[trigger] name_units(entry_bytes(dir, i)) <= 64
}

fn read_entry_bytes(one: &[u8], major: u64) -> (r: Entry)
    requires
        one@.len() == 128,
        name_units(one@) <= 64,
    ensures
        r.describes(one@, major as int),
{
    let name_bytes: u64 = le16(one, 64).unwrap();
    let chars: usize = if name_bytes < 2 {
        0
    } else {
        ((name_bytes - 2) / 2) as usize
    };
    let mut class: Vec<u8> = Vec::new();
    append_range(&mut class, one, 80, 96);
    assert(class@ =~= one@.subrange(80, 96));
    Entry {
        name: utf16_name(one, 0, chars * 2),
        kind: kind_name(one[66]),
        start: le32(one, 116).unwrap() as u32,
        size: if major == 4 {
            le64(one, 120).unwrap()
        } else {
            le32(one, 120).unwrap()
        },
        clsid: hex(class.as_slice()),
        created: le64(one, 100).unwrap(),
        modified: le64(one, 108).unwrap(),
        left: le32(one, 68).unwrap() as u32,
        right: le32(one, 72).unwrap() as u32,
        child: le32(one, 76).unwrap() as u32,
    }
}

/// The type bytes of the directory entries.
pub open spec fn type_bytes(dir: Seq<u8>) -> Seq<u8> {
    Seq::new(dir.len() / 128, |i: int| dir[128 * i + 66])
}

/// Which entry is the root: the first one of that type.
pub open spec fn root_index(dir: Seq<u8>) -> Option<int> {
    first(type_bytes(dir), |raw: u8| raw == 5)
}

/// The entries are those of the directory.
pub open spec fn entries_describe(entries: Seq<Entry>, dir: Seq<u8>, major: int) -> bool {
    &&& entries.len() == dir.len() / 128
    &&& forall|i: int|
        0 <= i < entries.len() ==> (#[trigger] entries[i]).describes(entry_bytes(dir, i), major)
}

/// Reads the directory and finds its root.
fn read_directory(dir: &Vec<u8>, major: u64) -> (r: (Vec<Entry>, Option<usize>))
    requires
        names_inside(dir@),
    ensures
        entries_describe(r.0@, dir@, major as int),
        match r.1 {
            Some(i) => root_index(dir@) == Some(i as int) && i < r.0@.len(),
            None => root_index(dir@) is None,
        },
{
    let mut entries: Vec<Entry> = Vec::new();
    let mut root: Option<usize> = None;
    let ghost p = |raw: u8| raw == 5;
    let size: usize = dir.len();
    let n: usize = size / 128;
    let mut i: usize = 0;
    while i < n
        invariant
            i <= n,
            n == size / 128,
            size == dir@.len(),
            names_inside(dir@),
            entries@.len() == i,
            p == (|raw: u8| raw == 5),
            forall|k: int|
                0 <= k < i ==> (#[trigger] entries@[k]).describes(
                    entry_bytes(dir@, k),
                    major as int,
                ),
            match root {
                Some(k) => root_index(dir@) == Some(k as int) && k < i,
                None => root_index(dir@) == first_from(type_bytes(dir@), p, i as int),
            },
        decreases n - i,
    {
        let mut one: Vec<u8> = Vec::new();
        append_range(&mut one, dir.as_slice(), i * 128, i * 128 + 128);
        assert(one@ =~= entry_bytes(dir@, i as int));
        assert(name_units(entry_bytes(dir@, i as int)) <= 64);
        assert(type_bytes(dir@)[i as int] == one@[66]);
        if root.is_none() && one[66] == 5 {
            root = Some(i);
        }
        entries.push(read_entry_bytes(one.as_slice(), major));
        i += 1;
    }
    (entries, root)
}

/// The sectors that hold the sector table, in the order in which the container lists them.
pub open spec fn fat_list(b: Seq<u8>) -> Seq<u32> {
    named(b, 76, 109) + chained(
        b,
        word32(b, 68) as u32,
        sector_of(b),
        DIFAT_LIMIT as nat,
    ).sectors
}

/// The sector table of a container.
pub open spec fn fat_of(b: Seq<u8>) -> Seq<u32> {
    table(b, ascending(fat_list(b)), sector_of(b)).slots
}

/// What the chain that starts at `start` gives in a container.
pub open spec fn chain_of(b: Seq<u8>, start: u32) -> Walk {
    walk(b, start, Seq::empty(), fat_of(b), sector_of(b))
}

/// The bytes of the directory of a container.
pub open spec fn directory_of(b: Seq<u8>) -> Seq<u8> {
    chain_of(b, word32(b, 48) as u32).bytes
}

/// The bytes of the root entry of a container.
pub open spec fn root_of(b: Seq<u8>) -> Option<Seq<u8>> {
    match root_index(directory_of(b)) {
        Some(i) => Some(entry_bytes(directory_of(b), i)),
        None => None,
    }
}

/// The stream that the mini sectors lie in: the root's chain cut to the root's size.
pub open spec fn mini_stream_of(b: Seq<u8>) -> Seq<u8> {
    match root_of(b) {
        None => Seq::empty(),
        Some(root) => {
            let all = chain_of(b, word32(root, 116) as u32).bytes;
            let want = length_in(root, word16(b, 26));
            if want < all.len() {
                all.take(want)
            } else {
                all
            }
        },
    }
}

/// The mini sector table of a container.
pub open spec fn mini_fat_of(b: Seq<u8>) -> Seq<u32> {
    let raw = chain_of(b, word32(b, 60) as u32).bytes;
    slots(raw, 0, raw.len() as int / 4)
}

/// The notes on the sector tables of a container.
pub open spec fn table_notes(b: Seq<u8>) -> Seq<Seq<char>> {
    let chain = chained(b, word32(b, 68) as u32, sector_of(b), DIFAT_LIMIT as nat);
    let header = if word16(b, 26) == 3 && word32(b, 40) != 0 {
        seq!["v3 规定目录扇区数字段必须为 0，这个文件写了非 0"@]
    } else {
        seq![]
    };
    let listed = noted(header, chain.note);
    let counted = if fat_list(b).len() != word32(b, 44) {
        listed.push(
            said("头部说 FAT 扇区有 "@, word32(b, 44), " 个，DIFAT 链实际给出 "@) + dec(
                fat_list(b).len(),
            ) + " 个"@,
        )
    } else {
        listed
    };
    counted + table(b, ascending(fat_list(b)), sector_of(b)).notes
}

/// The note on the root entry of a container.
pub open spec fn root_note(b: Seq<u8>) -> Option<Seq<char>> {
    match root_of(b) {
        None => Some("没有 root 存储项，小流的迷你扇区无处可取"@),
        Some(root) => {
            let all = chain_of(b, word32(root, 116) as u32).bytes;
            let want = length_in(root, word16(b, 26));
            if all.len() < want < usize::MAX {
                Some(
                    said("root 流自报 "@, want, " 字节，只能读到 "@) + dec(all.len())
                        + " 字节（后面的扇区不在文件里）"@,
                )
            } else {
                None
            }
        },
    }
}

/// All that does not add up in a container, in the order in which reading it comes upon it.
pub open spec fn notes_of(b: Seq<u8>) -> Seq<Seq<char>> {
    let directory = noted(table_notes(b), chain_of(b, word32(b, 48) as u32).note);
    let root = noted(directory, root_note(b));
    let mini = match root_of(b) {
        Some(one) => noted(root, chain_of(b, word32(one, 116) as u32).note),
        None => root,
    };
    noted(mini, chain_of(b, word32(b, 60) as u32).note)
}

/// A compound file whose directory and tables have been read.
#[derive(Debug)]
pub struct Cfb {
    pub minor: u64,
    pub major: u64,
    pub sector_size: usize,
    pub mini_sector_size: usize,
    pub mini_cutoff: u64,
    pub fat_sectors: usize,
    pub difat_chained: bool,
    pub entries: Vec<Entry>,
    /// What the container says of itself and does not keep.
    pub notes: Vec<String>,
    /// The sector table.
    pub fat: Vec<u32>,
    /// The mini sector table.
    pub mini_fat: Vec<u32>,
    /// The stream that the mini sectors lie in.
    pub mini_stream: Vec<u8>,
}

impl Cfb {
    /// The value is what the container `b` says.
    pub open spec fn describes(self, b: Seq<u8>) -> bool {
        &&& self.minor == word16(b, 24)
        &&& self.major == word16(b, 26)
        &&& self.sector_size == sector_of(b)
        &&& self.mini_sector_size == mini_sector_of(b)
        &&& self.mini_cutoff == word32(b, 56)
        &&& self.fat_sectors == fat_list(b).len()
        &&& self.difat_chained == (word32(b, 72) > 0)
        &&& entries_describe(self.entries@, directory_of(b), word16(b, 26))
        &&& texts(self.notes@) == notes_of(b)
        &&& self.fat@ == fat_of(b)
        &&& self.mini_fat@ == mini_fat_of(b)
        &&& self.mini_stream@ == mini_stream_of(b)
    }
}

/// Lists the sectors of the sector table and reads it.
fn read_fat(b: &[u8], sector: usize, notes: &mut Vec<String>) -> (r: (usize, Vec<u32>))
    requires
        header_fault(b@) is None,
        sector == sector_of(b@),
        old(notes)@.len() == 0,
    ensures
        r.0 == fat_list(b@).len(),
        r.1@ == fat_of(b@),
        texts(final(notes)@) == table_notes(b@),
{
    let major: u64 = le16(b, 26).unwrap();
    let dir_sector_count: u64 = le32(b, 40).unwrap();
    if major == 3 && dir_sector_count != 0 {
        notes.push("v3 规定目录扇区数字段必须为 0，这个文件写了非 0".to_owned());
        assert(texts(notes@) =~= seq!["v3 规定目录扇区数字段必须为 0，这个文件写了非 0"@]);
    } else {
        assert(texts(notes@) =~= seq![]);
    }
    let fat_count: u64 = le32(b, 44).unwrap();
    let difat_start: u32 = le32(b, 68).unwrap() as u32;
    let mut listed: Vec<u32> = Vec::new();
    push_named(&mut listed, b, 76, 109);
    push_chained(&mut listed, b, difat_start, sector, notes);
    assert(listed@ =~= fat_list(b@));
    if listed.len() as u64 != fat_count {
        let ghost before = texts(notes@);
        let mut why: String = say("头部说 FAT 扇区有 ", fat_count, " 个，DIFAT 链实际给出 ");
        push_dec(&mut why, listed.len() as u64);
        why.append(" 个");
        notes.push(why);
        assert(texts(notes@) =~= before.push(why@));
    }
    let order: Vec<u32> = put_in_order(&listed);
    let fat: Vec<u32> = read_table(b, &order, sector, notes);
    (listed.len(), fat)
}

/// Whether every name in the directory of a container lies inside its entry. Of bytes that
/// are refused there is nothing to ask.
pub open spec fn names_fit(b: Seq<u8>) -> bool {
    header_fault(b) is None ==> names_inside(directory_of(b))
}

/// Tells whether `open` can be asked to read these bytes.
pub fn can_open(b: &[u8]) -> (r: bool)
    ensures
        r == names_fit(b@),
{
    match check_header(b) {
        Err(_) => true,
        Ok((sector, _)) => {
            let mut notes: Vec<String> = Vec::new();
            let (_, fat) = read_fat(b, sector, &mut notes);
            let start: u32 = le32(b, 48).unwrap() as u32;
            let dir: Vec<u8> = read_chain(b, start, &fat, sector, &mut notes);
            let mut i: usize = 0;
            while i < dir.len() / 128
                invariant
                    i <= dir@.len() / 128,
                    dir@ == directory_of(b@),
                    header_fault(b@) is None,
                    forall|k: int| 0 <= k < i ==> #[trigger] name_units(entry_bytes(dir@, k)) <= 64,
                decreases dir@.len() / 128 - i,
            {
                let mut one: Vec<u8> = Vec::new();
                append_range(&mut one, dir.as_slice(), i * 128, i * 128 + 128);
                assert(one@ =~= entry_bytes(dir@, i as int));
                if le16(one.as_slice(), 64).unwrap() >= 132 {
                    assert(name_units(entry_bytes(dir@, i as int)) > 64);
                    return false;
                }
                i += 1;
            }
            true
        },
    }
}

/// Opens a compound file: its directory and its two sector tables. The bytes of its streams
/// are read when they are asked for.
pub fn open(b: &[u8]) -> (r: Result<Cfb, String>)
    requires
        names_fit(b@),
    ensures
        match r {
            Ok(c) => header_fault(b@) is None && c.describes(b@),
            Err(why) => header_fault(b@) == Some(why@),
        },
{
    let (sector, mini_sector) = match check_header(b) {
        Ok(sizes) => sizes,
        Err(why) => {
            return Err(why);
        },
    };
    let mut notes: Vec<String> = Vec::new();
    let (fat_sectors, fat) = read_fat(b, sector, &mut notes);
    let dir_start: u32 = le32(b, 48).unwrap() as u32;
    let dir: Vec<u8> = read_chain(b, dir_start, &fat, sector, &mut notes);
    let major: u64 = le16(b, 26).unwrap();
    let (entries, root) = read_directory(&dir, major);
    let mut mini_notes: Vec<String> = Vec::new();
    let mut mini_stream: Vec<u8> = Vec::new();
    match root {
        Some(i) => {
            let start: u32 = entries[i].start;
            let size: u64 = entries[i].size;
            assert(entries@[i as int].describes(entry_bytes(dir@, i as int), major as int));
            mini_stream = read_chain(b, start, &fat, sector, &mut mini_notes);
            let have: u64 = mini_stream.len() as u64;
            if have < size && size < usize::MAX as u64 {
                let ghost before = texts(notes@);
                let mut why: String = say("root 流自报 ", size, " 字节，只能读到 ");
                push_dec(&mut why, have);
                why.append(" 字节（后面的扇区不在文件里）");
                notes.push(why);
                assert(texts(notes@) =~= before.push(why@));
            }
            if size < have {
                mini_stream.truncate(size as usize);
            }
        },
        None => {
            let ghost before = texts(notes@);
            notes.push("没有 root 存储项，小流的迷你扇区无处可取".to_owned());
            assert(texts(notes@) =~= before.push(
                "没有 root 存储项，小流的迷你扇区无处可取"@,
            ));
        },
    }
    assert(mini_stream@ =~= mini_stream_of(b@));
    let ghost before = texts(notes@);
    let ghost extra = texts(mini_notes@);
    notes.append(&mut mini_notes);
    assert(texts(notes@) =~= before + extra);
    let mini_fat_start: u32 = le32(b, 60).unwrap() as u32;
    let raw: Vec<u8> = read_chain(b, mini_fat_start, &fat, sector, &mut notes);
    let mut mini_fat: Vec<u32> = Vec::new();
    push_slots(&mut mini_fat, raw.as_slice(), 0, raw.len() / 4);
    assert(mini_fat@ =~= mini_fat_of(b@));
    assert(texts(notes@) =~= notes_of(b@));
    Ok(
        Cfb {
            minor: le16(b, 24).unwrap(),
            major,
            sector_size: sector,
            mini_sector_size: mini_sector,
            mini_cutoff: le32(b, 56).unwrap(),
            fat_sectors,
            difat_chained: le32(b, 72).unwrap() > 0,
            entries,
            notes,
            fat,
            mini_fat,
            mini_stream,
        },
    )
}

/// The text in lower case, as `str::to_lowercase` gives it.
pub uninterp spec fn lowercase(s: Seq<char>) -> Seq<char>;

/// `str::to_lowercase`: the text in lower case. The result depends on the text alone.
pub assume_specification[ str::to_lowercase ](s: &str) -> (r: String)
    ensures
        r@ == lowercase(s@),
;

/// An entry is the stream called `want`. Case does not count.
pub open spec fn answers(one: Entry, want: Seq<char>) -> bool {
    one.streams() && lowercase(one.name@) == lowercase(want)
}

/// What the mini sectors from `cur` on hold, or `None` where one of them is missing.
pub open spec fn mini_walk(
    stream: Seq<u8>,
    fat: Seq<u32>,
    sector: int,
    cur: u32,
    seen: Seq<u32>,
) -> Option<Seq<u8>>
    decreases CHAIN_LIMIT - seen.len(),
{
    if cur == END_OF_CHAIN || cur == NO_SECT || seen.contains(cur) || seen.len() >= CHAIN_LIMIT {
        Some(Seq::empty())
    } else if cur * sector + sector > stream.len() || cur >= fat.len() {
        None
    } else {
        match mini_walk(stream, fat, sector, fat[cur as int], seen.push(cur)) {
            Some(rest) => Some(stream.subrange(cur * sector, cur * sector + sector) + rest),
            None => None,
        }
    }
}

/// The first `size` of the bytes found, where there are as many.
pub open spec fn cut(found: Option<Seq<u8>>, size: int) -> Option<Seq<u8>> {
    match found {
        Some(all) => if all.len() < size {
            None
        } else {
            Some(all.take(size))
        },
        None => None,
    }
}

impl Cfb {
    /// How many directory entries there are: storages and the root count too.
    pub fn directory_entry_count(&self) -> (r: usize)
        ensures
            r == self.entries@.len(),
    {
        self.entries.len()
    }

    /// The entries that are streams.
    pub open spec fn stream_entries(self) -> Seq<Entry> {
        self.entries@.filter(|one: Entry| one.streams())
    }

    /// The names of the streams, in directory order.
    pub fn stream_names(&self) -> (r: Vec<String>)
        ensures
            r@.len() == self.stream_entries().len(),
            forall|i: int|
                0 <= i < r@.len() ==> (#[trigger] r@[i])@ == self.stream_entries()[i].name@,
    {
        let ghost p = |one: Entry| one.streams();
        let mut out: Vec<String> = Vec::new();
        let mut i: usize = 0;
        assert(self.entries@.take(0).filter(p) =~= Seq::empty()) by {
            reveal(Seq::filter);
        }
        while i < self.entries.len()
            invariant
                i <= self.entries@.len(),
                p == (|one: Entry| one.streams()),
                out@.len() == self.entries@.take(i as int).filter(p).len(),
                forall|k: int|
                    0 <= k < out@.len() ==> (#[trigger] out@[k])@ == self.entries@.take(
                        i as int,
                    ).filter(p)[k].name@,
            decreases self.entries@.len() - i,
        {
            proof {
                lemma_filter_take(self.entries@, p, i as int);
            }
            if self.entries[i].is_stream() {
                out.push(self.entries[i].name.clone());
            }
            i += 1;
        }
        assert(self.entries@.take(i as int) =~= self.entries@);
        out
    }

    /// How many streams there are.
    pub fn stream_count(&self) -> (r: usize)
        ensures
            r == self.stream_entries().len(),
    {
        let ghost p = |one: Entry| one.streams();
        let mut count: usize = 0;
        let mut i: usize = 0;
        assert(self.entries@.take(0).filter(p) =~= Seq::empty()) by {
            reveal(Seq::filter);
        }
        while i < self.entries.len()
            invariant
                count <= i <= self.entries@.len(),
                p == (|one: Entry| one.streams()),
                count == self.entries@.take(i as int).filter(p).len(),
            decreases self.entries@.len() - i,
        {
            proof {
                lemma_filter_take(self.entries@, p, i as int);
            }
            if self.entries[i].is_stream() {
                count += 1;
            }
            i += 1;
        }
        assert(self.entries@.take(i as int) =~= self.entries@);
        count
    }

    /// Which entry is the stream called `want`.
    pub open spec fn found(self, want: Seq<char>) -> Option<int> {
        first(self.entries@, |one: Entry| answers(one, want))
    }

    /// The first stream of that name. Names are compared without regard to case.
    pub fn find(&self, want: &str) -> (r: Option<&Entry>)
        ensures
            match r {
                Some(one) => self.found(want@) is Some && *one == self.entries@[self.found(
                    want@,
                )->0],
                None => self.found(want@) is None,
            },
            r matches Some(one) ==> answers(*one, want@),
    {
        let lower: String = want.to_lowercase();
        let ghost p = |one: Entry| answers(one, want@);
        let mut i: usize = 0;
        while i < self.entries.len()
            invariant
                i <= self.entries@.len(),
                lower@ == lowercase(want@),
                p == (|one: Entry| answers(one, want@)),
                self.found(want@) == first_from(self.entries@, p, i as int),
            decreases self.entries@.len() - i,
        {
            if self.entries[i].is_stream() && self.entries[i].name.as_str().to_lowercase()
                == lower {
                return Some(&self.entries[i]);
            }
            i += 1;
        }
        None
    }

    /// The bytes of the stream of an entry. Streams shorter than the container's cutoff lie in
    /// mini sectors, the others in sectors.
    pub open spec fn stream_of(self, b: Seq<u8>, one: Entry) -> Option<Seq<u8>> {
        if one.size > usize::MAX {
            None
        } else if one.size == 0 {
            Some(Seq::empty())
        } else if one.size < self.mini_cutoff {
            cut(
                mini_walk(
                    self.mini_stream@,
                    self.mini_fat@,
                    self.mini_sector_size as int,
                    one.start,
                    Seq::empty(),
                ),
                one.size as int,
            )
        } else {
            cut(
                Some(
                    walk(
                        b,
                        one.start,
                        Seq::empty(),
                        self.fat@,
                        self.sector_size as int,
                    ).bytes,
                ),
                one.size as int,
            )
        }
    }

    /// Reads the stream called `want`.
    pub fn read(&self, b: &[u8], want: &str) -> (r: Option<Vec<u8>>)
        ensures
            match self.found(want@) {
                Some(i) => match r {
                    Some(v) => self.stream_of(b@, self.entries@[i]) == Some(v@),
                    None => self.stream_of(b@, self.entries@[i]) is None,
                },
                None => r is None,
            },
    {
        match self.find(want) {
            Some(one) => self.read_entry(b, one),
            None => None,
        }
    }

    fn read_mini(&self, start: u32) -> (r: Option<Vec<u8>>)
        ensures
            ({
                let all = mini_walk(
                    self.mini_stream@,
                    self.mini_fat@,
                    self.mini_sector_size as int,
                    start,
                    Seq::empty(),
                );
                match r {
                    Some(v) => all == Some(v@),
                    None => all is None,
                }
            }),
    {
        let sector: usize = self.mini_sector_size;
        let ghost all = mini_walk(
            self.mini_stream@,
            self.mini_fat@,
            sector as int,
            start,
            Seq::empty(),
        );
        let mut out: Vec<u8> = Vec::new();
        let mut cur: u32 = start;
        let mut seen: Vec<u32> = Vec::new();
        assert(all matches Some(t) ==> out@ + t =~= t);
        while cur != END_OF_CHAIN && cur != NO_SECT
            invariant_except_break
                seen@.len() <= CHAIN_LIMIT,
                match mini_walk(
                    self.mini_stream@,
                    self.mini_fat@,
                    sector as int,
                    cur,
                    seen@,
                ) {
                    Some(rest) => all == Some(out@ + rest),
                    None => all is None,
                },
            invariant
                sector == self.mini_sector_size,
                all == mini_walk(
                    self.mini_stream@,
                    self.mini_fat@,
                    sector as int,
                    start,
                    Seq::empty(),
                ),
            ensures
                all == Some(out@),
            decreases CHAIN_LIMIT - seen@.len(),
        {
            assert(out@ + Seq::<u8>::empty() =~= out@);
            if holds(&seen, cur) || seen.len() >= CHAIN_LIMIT {
                break;
            }
            let index: usize = cur as usize;
            let room: usize = self.mini_stream.len();
            let from: usize = match index.checked_mul(sector) {
                Some(from) => from,
                None => {
                    return None;
                },
            };
            if room < sector || from > room - sector {
                return None;
            }
            if index >= self.mini_fat.len() {
                return None;
            }
            let ghost before = out@;
            append_range(&mut out, self.mini_stream.as_slice(), from, from + sector);
            let ghost rest = mini_walk(
                self.mini_stream@,
                self.mini_fat@,
                sector as int,
                self.mini_fat@[index as int],
                seen@.push(cur),
            );
            assert(rest matches Some(t) ==> before + (self.mini_stream@.subrange(
                from as int,
                from + sector,
            ) + t) =~= out@ + t);
            seen.push(cur);
            cur = self.mini_fat[index];
        }
        Some(out)
    }

    /// Reads the stream of one entry. Several entries can have one name, and then a name
    /// reaches only the first.
    pub fn read_entry(&self, b: &[u8], one: &Entry) -> (r: Option<Vec<u8>>)
        ensures
            match r {
                Some(v) => self.stream_of(b@, *one) == Some(v@) && v@.len() == one.size,
                None => self.stream_of(b@, *one) is None,
            },
    {
        if one.size > usize::MAX as u64 {
            return None;
        }
        let size: usize = one.size as usize;
        if size == 0 {
            return Some(Vec::new());
        }
        let mut out: Vec<u8> = if one.size < self.mini_cutoff {
            match self.read_mini(one.start) {
                Some(all) => all,
                None => {
                    return None;
                },
            }
        } else {
            let mut notes: Vec<String> = Vec::new();
            read_chain(b, one.start, &self.fat, self.sector_size, &mut notes)
        };
        if out.len() < size {
            return None;
        }
        let ghost all = out@;
        out.truncate(size);
        assert(out@ =~= all.take(size as int));
        Some(out)
    }

    /// Which kind of sectors the stream of an entry lies in.
    pub fn via(&self, one: &Entry) -> (r: &'static str)
        ensures
            r@ == (if one.size < self.mini_cutoff {
                "mini"@
            } else {
                "fat"@
            }),
    {
        if one.size < self.mini_cutoff {
            "mini"
        } else {
            "fat"
        }
    }
}

/// The sectors whose bytes a chain gives, in order.
pub open spec fn path(
    b: Seq<u8>,
    cur: u32,
    seen: Seq<u32>,
    fat: Seq<u32>,
    sector: int,
) -> Seq<u32>
    decreases CHAIN_LIMIT - seen.len(),
{
    let at = offset_of(cur, sector);
    if cur == END_OF_CHAIN || cur == NO_SECT || seen.contains(cur) || seen.len() >= CHAIN_LIMIT
        || at > usize::MAX || at + sector > b.len() {
        Seq::empty()
    } else if cur >= fat.len() {
        seq![cur]
    } else {
        seq![cur] + path(b, fat[cur as int], seen.push(cur), fat, sector)
    }
}

/// Following a chain reads no sector twice and none that it has been through before, and gives
/// one sector's worth of bytes for each, each sector's bytes in its place.
pub proof fn law_chain_reads_each_sector_once(
    b: Seq<u8>,
    cur: u32,
    seen: Seq<u32>,
    fat: Seq<u32>,
    sector: int,
)
    requires
        sector > 0,
        seen.len() <= CHAIN_LIMIT,
    ensures
        path(b, cur, seen, fat, sector).no_duplicates(),
        forall|v: u32| path(b, cur, seen, fat, sector).contains(v) ==> !seen.contains(v),
        walk(b, cur, seen, fat, sector).bytes.len() == path(b, cur, seen, fat, sector).len()
            * sector,
        forall|i: int|
            0 <= i < path(b, cur, seen, fat, sector).len() ==> walk(
                b,
                cur,
                seen,
                fat,
                sector,
            ).bytes.subrange(i * sector, i * sector + sector) == b.subrange(
                offset_of(#[trigger] path(b, cur, seen, fat, sector)[i], sector),
                offset_of(path(b, cur, seen, fat, sector)[i], sector) + sector,
            ),
    decreases CHAIN_LIMIT - seen.len(),
{
    let p = path(b, cur, seen, fat, sector);
    let w = walk(b, cur, seen, fat, sector).bytes;
    let at = offset_of(cur, sector);
    if p.len() > 0 {
        assert(at >= 0) by (nonlinear_arith)
            requires
                at == (cur + 1) * sector,
                sector > 0,
                cur >= 0,
        ;
        let head = b.subrange(at, at + sector);
        if cur >= fat.len() {
            assert(p =~= seq![cur]);
            assert(w == head);
            assert(1 * sector == sector) by (nonlinear_arith);
            assert(0 * sector == 0) by (nonlinear_arith);
            assert(w.subrange(0, sector) =~= head);
        } else {
            let next = fat[cur as int];
            let more = seen.push(cur);
            law_chain_reads_each_sector_once(b, next, more, fat, sector);
            let q = path(b, next, more, fat, sector);
            let t = walk(b, next, more, fat, sector).bytes;
            assert(more.contains(cur)) by {
                assert(more[more.len() - 1] == cur);
            }
            assert forall|v: u32| q.contains(v) implies !seen.contains(v) by {
                if seen.contains(v) {
                    let k = choose|k: int| 0 <= k < seen.len() && seen[k] == v;
                    assert(more[k] == v);
                    assert(more.contains(v));
                }
            }
            assert forall|i: int, j: int| 0 <= i < p.len() && 0 <= j < p.len() && i != j implies p[i]
                != p[j] by {
                if i > 0 {
                    assert(p[i] == q[i - 1]);
                    assert(q.contains(q[i - 1]));
                }
                if j > 0 {
                    assert(p[j] == q[j - 1]);
                    assert(q.contains(q[j - 1]));
                }
            }
            assert forall|v: u32| p.contains(v) implies !seen.contains(v) by {
                let k = choose|k: int| 0 <= k < p.len() && p[k] == v;
                if k > 0 {
                    assert(q.contains(q[k - 1]));
                }
            }
            assert(p.len() * sector == q.len() * sector + sector) by (nonlinear_arith)
                requires
                    p.len() == q.len() + 1,
            ;
            assert forall|i: int| 0 <= i < p.len() implies w.subrange(
                i * sector,
                i * sector + sector,
            ) == b.subrange(
                offset_of(#[trigger] p[i], sector),
                offset_of(p[i], sector) + sector,
            ) by {
                if i == 0 {
                    assert(0 * sector == 0) by (nonlinear_arith);
                    assert(w.subrange(0, sector) =~= head);
                } else {
                    assert(p[i] == q[i - 1]);
                    assert((i - 1) * sector == i * sector - sector) by (nonlinear_arith);
                    assert((i - 1) * sector >= 0) by (nonlinear_arith)
                        requires
                            i >= 1,
                            sector > 0,
                    ;
                    assert((i - 1) * sector + sector <= t.len()) by (nonlinear_arith)
                        requires
                            i - 1 < q.len(),
                            t.len() == q.len() * sector,
                            sector > 0,
                    ;
                    assert(w.subrange(i * sector, i * sector + sector) =~= t.subrange(
                        (i - 1) * sector,
                        (i - 1) * sector + sector,
                    ));
                }
            }
        }
    } else {
        assert(0 * sector == 0) by (nonlinear_arith);
    }
}

/// A chain about which nothing is noted was followed to an end mark: what cut it short would
/// have left a note.
pub proof fn law_silent_chain_reached_its_end(
    b: Seq<u8>,
    start: u32,
    fat: Seq<u32>,
    sector: int,
)
    requires
        walk(b, start, Seq::empty(), fat, sector).note is None,
    ensures
        ({
            let p = path(b, start, Seq::empty(), fat, sector);
            if p.len() == 0 {
                start == END_OF_CHAIN || start == NO_SECT
            } else {
                &&& p[0] == start
                &&& forall|i: int| 0 <= i < p.len() ==> #[trigger] p[i] < fat.len()
                &&& forall|i: int| 0 <= i < p.len() - 1 ==> fat[p[i] as int] == #[trigger] p[i + 1]
                &&& (fat[p.last() as int] == END_OF_CHAIN || fat[p.last() as int] == NO_SECT)
            }
        }),
{
    lemma_silent_chain(b, start, Seq::empty(), fat, sector);
}

proof fn lemma_silent_chain(
    b: Seq<u8>,
    cur: u32,
    seen: Seq<u32>,
    fat: Seq<u32>,
    sector: int,
)
    requires
        walk(b, cur, seen, fat, sector).note is None,
    ensures
        ({
            let p = path(b, cur, seen, fat, sector);
            if p.len() == 0 {
                cur == END_OF_CHAIN || cur == NO_SECT
            } else {
                &&& p[0] == cur
                &&& forall|i: int| 0 <= i < p.len() ==> #[trigger] p[i] < fat.len()
                &&& forall|i: int| 0 <= i < p.len() - 1 ==> fat[p[i] as int] == #[trigger] p[i + 1]
                &&& (fat[p.last() as int] == END_OF_CHAIN || fat[p.last() as int] == NO_SECT)
            }
        }),
    decreases CHAIN_LIMIT - seen.len(),
{
    if cur != END_OF_CHAIN && cur != NO_SECT {
        let next = fat[cur as int];
        lemma_silent_chain(b, next, seen.push(cur), fat, sector);
        let p = path(b, cur, seen, fat, sector);
        let q = path(b, next, seen.push(cur), fat, sector);
        assert(p =~= seq![cur] + q);
        assert forall|i: int| 0 <= i < p.len() implies #[trigger] p[i] < fat.len() by {
            if i > 0 {
                assert(p[i] == q[i - 1]);
            }
        }
        assert forall|i: int| 0 <= i < p.len() - 1 implies fat[p[i] as int] == #[trigger] p[i
            + 1] by {
            assert(p[i + 1] == q[i]);
            if i > 0 {
                assert(p[i] == q[i - 1]);
                assert(q[i - 1 + 1] == q[i]);
            }
        }
        if q.len() > 0 {
            assert(p.last() == q.last());
        } else {
            assert(p.last() == cur);
        }
    }
}

/// Two spellings of a name that differ only in case find the same stream.
pub proof fn law_names_ignore_case(c: Cfb, a: Seq<char>, b: Seq<char>)
    requires
        lowercase(a) == lowercase(b),
    ensures
        c.found(a) == c.found(b),
{
    assert((|one: Entry| answers(one, a)) =~= (|one: Entry| answers(one, b)));
}

/// What opens has room for a header, carries the signature and is of a known version.
pub proof fn law_only_signed_files_open(b: Seq<u8>)
    requires
        header_fault(b) is None,
    ensures
        b.len() >= 512,
        signed(b),
        word16(b, 26) == 3 || word16(b, 26) == 4,
        sector_of(b) == 512 || sector_of(b) == 4096,
{
}

/// The sectors of the table are read in increasing order and none twice, however the container
/// lists them.
pub proof fn law_table_order_is_fixed(a: Seq<u32>, b: Seq<u32>)
    requires
        same_members(a, b),
    ensures
        ascending(a) == ascending(b),
{
    lemma_ascending(a);
    lemma_ascending(b);
    lemma_increasing_unique(ascending(a), ascending(b));
}

/// The successor of sector `s` stands in table sector number `s / (sector / 4)`, counted through
/// the sectors of the table in increasing order, at four bytes a slot: slot `k * (sector / 4) + i`
/// of the table is the number in the four bytes at `4 * i` of the `k`-th of them.
pub proof fn law_a_slot_stands_in_its_own_sector(b: Seq<u8>, w: Seq<u32>, k: int, i: int)
    requires
        header_fault(b) is None,
        forall|x: int, y: int| 0 <= x < y < w.len() ==> w[x] < w[y],
        forall|v: u32| w.contains(v) <==> fat_list(b).contains(v),
        forall|x: int|
            0 <= x < w.len() ==> (#[trigger] w[x] + 2) * sector_of(b) <= b.len() <= usize::MAX,
        0 <= k < w.len(),
        0 <= i < sector_of(b) / 4,
    ensures
        fat_of(b).len() == w.len() * (sector_of(b) / 4),
        0 <= k * (sector_of(b) / 4) + i < fat_of(b).len(),
        ({
            let at = (w[k] + 1) * sector_of(b) + 4 * i;
            fat_of(b)[k * (sector_of(b) / 4) + i] == b[at] + 0x100 * b[at + 1] + 0x1_0000 * b[at
                + 2] + 0x100_0000 * b[at + 3]
        }),
{
    lemma_ascending(fat_list(b));
    lemma_increasing_unique(w, ascending(fat_list(b)));
    law_only_signed_files_open(b);
    lemma_table_slots(b, w, sector_of(b));
    let q = sector_of(b) / 4;
    assert(0 <= k * q + i < w.len() * q) by (nonlinear_arith)
        requires
            0 <= k < w.len(),
            0 <= i < q,
    ;
    lemma_table_slot(b, w, sector_of(b), k, i);
}

proof fn lemma_table_slots(b: Seq<u8>, w: Seq<u32>, sector: int)
    requires
        sector == 512 || sector == 4096,
        forall|x: int|
            0 <= x < w.len() ==> (#[trigger] w[x] + 2) * sector <= b.len() <= usize::MAX,
    ensures
        table(b, w, sector).slots.len() == w.len() * (sector / 4),
    decreases w.len(),
{
    if w.len() > 0 {
        let front = w.drop_last();
        assert forall|x: int| 0 <= x < front.len() implies (#[trigger] front[x] + 2) * sector
            <= b.len() <= usize::MAX by {
            assert(front[x] == w[x]);
        }
        lemma_table_slots(b, front, sector);
        let one = w[w.len() - 1];
        assert((one + 2) * sector <= b.len());
        assert((one + 2) * sector == (one + 1) * sector + sector) by (nonlinear_arith);
        let q = sector / 4;
        assert((w.len() - 1) * q + q == w.len() * q) by (nonlinear_arith);
    }
}

proof fn lemma_table_slot(b: Seq<u8>, w: Seq<u32>, sector: int, k: int, i: int)
    requires
        sector == 512 || sector == 4096,
        forall|x: int|
            0 <= x < w.len() ==> (#[trigger] w[x] + 2) * sector <= b.len() <= usize::MAX,
        0 <= k < w.len(),
        0 <= i < sector / 4,
    ensures
        0 <= k * (sector / 4) + i < table(b, w, sector).slots.len(),
        table(b, w, sector).slots[k * (sector / 4) + i] == word32(
            b,
            (w[k] + 1) * sector + 4 * i,
        ),
    decreases w.len(),
{
    let front = w.drop_last();
    let q = sector / 4;
    assert forall|x: int| 0 <= x < front.len() implies (#[trigger] front[x] + 2) * sector
        <= b.len() <= usize::MAX by {
        assert(front[x] == w[x]);
    }
    lemma_table_slots(b, front, sector);
    lemma_table_slots(b, w, sector);
    let one = w[w.len() - 1];
    assert((one + 2) * sector <= b.len());
    assert((one + 2) * sector == (one + 1) * sector + sector) by (nonlinear_arith);
    assert(0 <= k * q + i < w.len() * q) by (nonlinear_arith)
        requires
            0 <= k < w.len(),
            0 <= i < q,
    ;
    if k < front.len() {
        lemma_table_slot(b, front, sector, k, i);
        assert(k * q + i < front.len() * q) by (nonlinear_arith)
            requires
                0 <= k < front.len(),
                0 <= i < q,
        ;
    } else {
        assert(k * q + i == front.len() * q + i);
    }
}

/// The sectors of the table that the header names are those in its 109 slots from byte 76 on; a
/// slot of all ones names none.
pub proof fn law_the_header_names_table_sectors(b: Seq<u8>, v: u32)
    requires
        header_fault(b) is None,
    ensures
        (exists|j: int| 0 <= j < 109 && v != 0xFFFF_FFFF && #[trigger] word32(b, 76 + 4 * j) == v)
            ==> fat_list(b).contains(v),
        fat_list(b).contains(v) && (word32(b, 68) == 0xFFFF_FFFE || word32(b, 68)
            == 0xFFFF_FFFF) ==> v != 0xFFFF_FFFF && exists|j: int|
            0 <= j < 109 && #[trigger] word32(b, 76 + 4 * j) == v,
{
    let p = |one: u32| one != NO_SECT;
    let s = slots(b, 76, 109);
    let head = named(b, 76, 109);
    let more = chained(b, word32(b, 68) as u32, sector_of(b), DIFAT_LIMIT as nat).sectors;
    if exists|j: int| 0 <= j < 109 && v != 0xFFFF_FFFF && #[trigger] word32(b, 76 + 4 * j) == v {
        let j = choose|j: int|
            0 <= j < 109 && v != 0xFFFF_FFFF && #[trigger] word32(b, 76 + 4 * j) == v;
        assert(s[j] == v);
        s.lemma_filter_contains(p, j);
        let k = choose|k: int| 0 <= k < head.len() && head[k] == v;
        assert((head + more)[k] == v);
    }
    if fat_list(b).contains(v) && (word32(b, 68) == 0xFFFF_FFFE || word32(b, 68) == 0xFFFF_FFFF) {
        let k = choose|k: int| 0 <= k < fat_list(b).len() && fat_list(b)[k] == v;
        assert(more.len() == 0);
        assert(head[k] == v);
        s.lemma_filter_pred(p, k);
        s.lemma_filter_contains_rev(p, v);
        let j = choose|j: int| 0 <= j < s.len() && s[j] == v;
        assert(word32(b, 76 + 4 * j) == v);
    }
}

/// The sectors `s` of a file follow one another as the table says, from `start` to an end mark,
/// and lie inside the file.
pub open spec fn is_chain(b: Seq<u8>, fat: Seq<u32>, sector: int, start: u32, s: Seq<u32>) -> bool {
    &&& s.no_duplicates()
    &&& s.len() < 0x10_0000
    &&& s.len() == 0 ==> start == 0xFFFF_FFFE || start == 0xFFFF_FFFF
    &&& s.len() > 0 ==> s[0] == start
    &&& forall|i: int|
        0 <= i < s.len() ==> {
            &&& #[trigger] s[i] < 0xFFFF_FFFE
            &&& s[i] < fat.len()
            &&& (s[i] + 2) * sector <= b.len() <= usize::MAX
            &&& i + 1 < s.len() ==> fat[s[i] as int] == s[i + 1]
            &&& i + 1 == s.len() ==> fat[s[i] as int] == 0xFFFF_FFFE || fat[s[i] as int]
                == 0xFFFF_FFFF
        }
}

/// A chain is its sectors one after another, each read from one sector's length behind its number
/// of sectors, since the header takes the place of one.
pub proof fn law_a_chain_is_its_sectors(
    b: Seq<u8>,
    fat: Seq<u32>,
    sector: int,
    start: u32,
    s: Seq<u32>,
)
    requires
        sector > 0,
        is_chain(b, fat, sector, start, s),
    ensures
        ({
            let w = walk(b, start, Seq::empty(), fat, sector);
            &&& w.note is None
            &&& w.bytes.len() == s.len() * sector
            &&& forall|i: int|
                0 <= i < s.len() ==> w.bytes.subrange(i * sector, (i + 1) * sector) == b.subrange(
                    (#[trigger] s[i] + 1) * sector,
                    (s[i] + 2) * sector,
                )
        }),
{
    lemma_chain_from(b, fat, sector, start, s, 0);
    assert(s.take(0) =~= Seq::empty());
}

/// Part `i` of a first part and `n` more is the first one, or one of the others.
proof fn lemma_parts_joined(a: Seq<u8>, rest: Seq<u8>, z: int, n: int, i: int)
    requires
        z > 0,
        a.len() == z,
        rest.len() == n * z,
        0 <= i <= n,
    ensures
        i == 0 ==> (a + rest).subrange(i * z, (i + 1) * z) == a,
        i > 0 ==> (a + rest).subrange(i * z, (i + 1) * z) == rest.subrange(
            (i - 1) * z,
            (i - 1 + 1) * z,
        ),
{
    assert((i + 1) * z == i * z + z) by (nonlinear_arith);
    if i == 0 {
        assert(0 * z == 0) by (nonlinear_arith);
        assert((a + rest).subrange(0, z) =~= a);
    } else {
        assert(i * z == z + (i - 1) * z && 0 <= (i - 1) * z && i * z <= n * z) by (nonlinear_arith)
            requires
                0 < i <= n,
                z > 0,
        ;
        assert((a + rest).subrange(i * z, (i + 1) * z) =~= rest.subrange((i - 1) * z, i * z));
    }
}

#[verifier::spinoff_prover]
#[verifier::rlimit(60)]
proof fn lemma_chain_from(
    b: Seq<u8>,
    fat: Seq<u32>,
    sector: int,
    start: u32,
    s: Seq<u32>,
    k: int,
)
    requires
        sector > 0,
        is_chain(b, fat, sector, start, s),
        0 <= k <= s.len(),
    ensures
        ({
            let cur = if k < s.len() {
                s[k]
            } else if k == 0 {
                start
            } else {
                fat[s[k - 1] as int]
            };
            let w = walk(b, cur, s.take(k), fat, sector);
            &&& w.note is None
            &&& w.bytes.len() == (s.len() - k) * sector
            &&& forall|i: int|
                k <= i < s.len() ==> w.bytes.subrange((i - k) * sector, (i - k + 1) * sector)
                    == b.subrange((#[trigger] s[i] + 1) * sector, (s[i] + 2) * sector)
        }),
    decreases s.len() - k,
{
    let cur = if k < s.len() {
        s[k]
    } else if k == 0 {
        start
    } else {
        fat[s[k - 1] as int]
    };
    let w = walk(b, cur, s.take(k), fat, sector);
    if k < s.len() {
        lemma_chain_from(b, fat, sector, start, s, k + 1);
        assert(s.take(k).push(s[k]) =~= s.take(k + 1));
        assert(!s.take(k).contains(s[k])) by {
            if s.take(k).contains(s[k]) {
                let j = choose|j: int| 0 <= j < k && s.take(k)[j] == s[k];
                assert(s[j] == s[k]);
            }
        }
        let at = (s[k] + 1) * sector;
        assert((s[k] + 2) * sector == at + sector) by (nonlinear_arith)
            requires
                at == (s[k] + 1) * sector,
        ;
        let next = if k + 1 < s.len() {
            s[k + 1]
        } else {
            fat[s[k] as int]
        };
        assert(fat[s[k] as int] == next);
        let rest = walk(b, next, s.take(k + 1), fat, sector);
        assert(w.bytes == b.subrange(at, at + sector) + rest.bytes);
        assert((s.len() - k) * sector == sector + (s.len() - k - 1) * sector) by (nonlinear_arith);
        assert forall|i: int| k <= i < s.len() implies w.bytes.subrange(
            (i - k) * sector,
            (i - k + 1) * sector,
        ) == b.subrange((#[trigger] s[i] + 1) * sector, (s[i] + 2) * sector) by {
            lemma_parts_joined(
                b.subrange(at, at + sector),
                rest.bytes,
                sector,
                s.len() - k - 1,
                i - k,
            );
            if i > k {
                assert(rest.bytes.subrange((i - (k + 1)) * sector, (i - (k + 1) + 1) * sector)
                    == b.subrange((s[i] + 1) * sector, (s[i] + 2) * sector));
            }
        }
    } else {
        assert((s.len() - k) * sector == 0) by (nonlinear_arith)
            requires
                k == s.len(),
        ;
    }
}

/// A byte of a part that two texts share.
proof fn lemma_part_byte(a: Seq<u8>, i: int, b: Seq<u8>, k: int, z: int, j: int)
    requires
        0 <= i,
        0 <= k,
        0 <= j < z,
        (i + 1) * z <= a.len(),
        (k + 1) * z <= b.len(),
        a.subrange(i * z, (i + 1) * z) == b.subrange(k * z, (k + 1) * z),
    ensures
        a[i * z + j] == b[k * z + j],
{
    assert((i + 1) * z == i * z + z && (k + 1) * z == k * z + z && 0 <= i * z && 0 <= k * z)
        by (nonlinear_arith)
        requires
            0 <= i,
            0 <= k,
            z > 0,
    ;
    assert(a.subrange(i * z, (i + 1) * z)[j] == a[i * z + j]);
    assert(b.subrange(k * z, (k + 1) * z)[j] == b[k * z + j]);
}

/// A stream that is at least as long as the cutoff is the first bytes of its sectors, as many as
/// its entry says: byte `j` of its part `i` is byte `j` of its sector `i`.
pub proof fn law_a_long_stream_lies_in_sectors(
    c: Cfb,
    b: Seq<u8>,
    one: Entry,
    s: Seq<u32>,
    i: int,
    j: int,
)
    requires
        c.sector_size > 0,
        one.size > 0,
        one.size >= c.mini_cutoff,
        is_chain(b, c.fat@, c.sector_size as int, one.start, s),
        0 <= i < s.len(),
        0 <= j < c.sector_size,
        i * c.sector_size + j < one.size,
    ensures
        one.size > s.len() * c.sector_size ==> c.stream_of(b, one) is None,
        one.size <= s.len() * c.sector_size && one.size <= usize::MAX ==> {
            &&& c.stream_of(b, one) is Some
            &&& c.stream_of(b, one)->0.len() == one.size
            &&& c.stream_of(b, one)->0[i * c.sector_size + j] == b[(s[i] + 1) * c.sector_size + j]
        },
{
    let z = c.sector_size as int;
    law_a_chain_is_its_sectors(b, c.fat@, z, one.start, s);
    let w = walk(b, one.start, Seq::empty(), c.fat@, z);
    assert(w.bytes.subrange(i * z, (i + 1) * z) == b.subrange((s[i] + 1) * z, (s[i] + 2) * z));
    assert((i + 1) * z <= s.len() * z) by (nonlinear_arith)
        requires
            i < s.len(),
            z > 0,
    ;
    assert(0 <= i * z) by (nonlinear_arith)
        requires
            0 <= i,
            z > 0,
    ;
    lemma_part_byte(w.bytes, i, b, s[i] + 1, z, j);
}

/// A stream that is shorter than the cutoff is the first bytes of its mini sectors, as many as
/// its entry says. Mini sectors have no header before them: byte `j` of part `i` of the stream is
/// byte `j` of its mini sector `i`.
pub proof fn law_a_short_stream_lies_in_mini_sectors(
    c: Cfb,
    b: Seq<u8>,
    one: Entry,
    s: Seq<u32>,
    i: int,
    j: int,
)
    requires
        c.mini_sector_size > 0,
        0 < one.size < c.mini_cutoff,
        one.size <= usize::MAX,
        is_mini_chain(c.mini_stream@, c.mini_fat@, c.mini_sector_size as int, s),
        s[0] == one.start,
        0 <= i < s.len(),
        0 <= j < c.mini_sector_size,
        i * c.mini_sector_size + j < one.size,
    ensures
        one.size > s.len() * c.mini_sector_size ==> c.stream_of(b, one) is None,
        one.size <= s.len() * c.mini_sector_size ==> {
            &&& c.stream_of(b, one) is Some
            &&& c.stream_of(b, one)->0.len() == one.size
            &&& c.stream_of(b, one)->0[i * c.mini_sector_size + j] == c.mini_stream@[s[i]
                * c.mini_sector_size + j]
        },
{
    let z = c.mini_sector_size as int;
    lemma_mini_from(c.mini_stream@, c.mini_fat@, z, s, 0);
    assert(s.take(0) =~= Seq::empty());
    let all = mini_walk(c.mini_stream@, c.mini_fat@, z, one.start, Seq::empty())->0;
    assert((i - 0) * z == i * z && (i - 0 + 1) * z == (i + 1) * z);
    assert(all.subrange(i * z, (i + 1) * z) == c.mini_stream@.subrange(s[i] * z, (s[i] + 1) * z));
    assert((i + 1) * z <= s.len() * z) by (nonlinear_arith)
        requires
            i < s.len(),
            z > 0,
    ;
    assert(0 <= i * z) by (nonlinear_arith)
        requires
            0 <= i,
            z > 0,
    ;
    lemma_part_byte(all, i, c.mini_stream@, s[i] as int, z, j);
}

/// The mini sectors `s` follow one another as their table says, up to an end mark, and lie inside
/// the stream of mini sectors.
pub open spec fn is_mini_chain(stream: Seq<u8>, fat: Seq<u32>, z: int, s: Seq<u32>) -> bool {
    &&& s.no_duplicates()
    &&& 0 < s.len() < 0x10_0000
    &&& forall|i: int|
        0 <= i < s.len() ==> {
            &&& #[trigger] s[i] < 0xFFFF_FFFE
            &&& s[i] < fat.len()
            &&& (s[i] + 1) * z <= stream.len()
            &&& i + 1 < s.len() ==> fat[s[i] as int] == s[i + 1]
            &&& i + 1 == s.len() ==> fat[s[i] as int] == 0xFFFF_FFFE || fat[s[i] as int]
                == 0xFFFF_FFFF
        }
}

#[verifier::spinoff_prover]
#[verifier::rlimit(60)]
proof fn lemma_mini_from(stream: Seq<u8>, fat: Seq<u32>, z: int, s: Seq<u32>, k: int)
    requires
        z > 0,
        is_mini_chain(stream, fat, z, s),
        0 <= k <= s.len(),
    ensures
        ({
            let cur = if k < s.len() {
                s[k]
            } else {
                fat[s[k - 1] as int]
            };
            let w = mini_walk(stream, fat, z, cur, s.take(k));
            &&& w is Some
            &&& w->0.len() == (s.len() - k) * z
            &&& forall|i: int|
                k <= i < s.len() ==> w->0.subrange((i - k) * z, (i - k + 1) * z)
                    == stream.subrange(#[trigger] s[i] * z, (s[i] + 1) * z)
        }),
    decreases s.len() - k,
{
    let cur = if k < s.len() {
        s[k]
    } else {
        fat[s[k - 1] as int]
    };
    let w = mini_walk(stream, fat, z, cur, s.take(k));
    if k < s.len() {
        lemma_mini_from(stream, fat, z, s, k + 1);
        assert(s.take(k).push(s[k]) =~= s.take(k + 1));
        assert(!s.take(k).contains(s[k])) by {
            if s.take(k).contains(s[k]) {
                let j = choose|j: int| 0 <= j < k && s.take(k)[j] == s[k];
                assert(s[j] == s[k]);
            }
        }
        let at = s[k] * z;
        assert((s[k] + 1) * z == at + z) by (nonlinear_arith)
            requires
                at == s[k] * z,
        ;
        assert(0 <= at) by (nonlinear_arith)
            requires
                at == s[k] * z,
                z > 0,
        ;
        let next = if k + 1 < s.len() {
            s[k + 1]
        } else {
            fat[s[k] as int]
        };
        assert(fat[s[k] as int] == next);
        let rest = mini_walk(stream, fat, z, next, s.take(k + 1))->0;
        assert(w->0 == stream.subrange(at, at + z) + rest);
        assert((s.len() - k) * z == z + (s.len() - k - 1) * z) by (nonlinear_arith);
        assert forall|i: int| k <= i < s.len() implies w->0.subrange(
            (i - k) * z,
            (i - k + 1) * z,
        ) == stream.subrange(#[trigger] s[i] * z, (s[i] + 1) * z) by {
            lemma_parts_joined(stream.subrange(at, at + z), rest, z, s.len() - k - 1, i - k);
            if i > k {
                assert(rest.subrange((i - (k + 1)) * z, (i - (k + 1) + 1) * z) == stream.subrange(
                    s[i] * z,
                    (s[i] + 1) * z,
                ));
            }
        }
    } else {
        assert((s.len() - k) * z == 0) by (nonlinear_arith)
            requires
                k == s.len(),
        ;
    }
}

/// What a directory entry says stands in its 128 bytes: the name in UTF-16 units from the first on,
/// with its length and the closing zero counted in byte 64, the type in byte 66, the links, the
/// class, the times, the first sector and the length behind them.
pub proof fn law_an_entry_is_its_bytes(c: Cfb, b: Seq<u8>, i: int)
    requires
        c.describes(b),
        0 <= i < c.entries@.len(),
    ensures
        ({
            let e = c.entries@[i];
            let one = directory_of(b).subrange(128 * i, 128 * i + 128);
            let size = one[64] + 256 * one[65];
            &&& 128 * i + 128 <= directory_of(b).len()
            &&& size < 2 ==> e.name@.len() == 0
            &&& size >= 2 ==> e.name@ == utf16(units(one, 0, (size - 2) / 2))
            &&& one[66] == 0 ==> e.kind@ == "unknown"@
            &&& one[66] == 1 ==> e.kind@ == "storage"@
            &&& one[66] == 2 ==> e.kind@ == "stream"@ && e.streams()
            &&& one[66] == 5 ==> e.kind@ == "root"@
            &&& one[66] == 3 || one[66] == 4 || one[66] > 5 ==> e.kind@ == "other"@
            &&& one[66] != 2 ==> !e.streams()
            &&& e.left == one[68] + 0x100 * one[69] + 0x1_0000 * one[70] + 0x100_0000 * one[71]
            &&& e.right == one[72] + 0x100 * one[73] + 0x1_0000 * one[74] + 0x100_0000 * one[75]
            &&& e.child == one[76] + 0x100 * one[77] + 0x1_0000 * one[78] + 0x100_0000 * one[79]
            &&& e.clsid@ == hex_of(one.subrange(80, 96))
            &&& e.created == word64(one, 100)
            &&& e.modified == word64(one, 108)
            &&& e.start == one[116] + 0x100 * one[117] + 0x1_0000 * one[118] + 0x100_0000
                * one[119]
            &&& word16(b, 26) == 3 ==> e.size == one[120] + 0x100 * one[121] + 0x1_0000 * one[122]
                + 0x100_0000 * one[123]
            &&& word16(b, 26) == 4 ==> e.size == one[120] + 0x100 * one[121] + 0x1_0000 * one[122]
                + 0x100_0000 * one[123] + 0x1_0000_0000 * one[124] + 0x100_0000_0000 * one[125]
                + 0x1_0000_0000_0000 * one[126] + 0x100_0000_0000_0000 * one[127]
        }),
{
    let one = entry_bytes(directory_of(b), i);
    assert(c.entries@[i].describes(one, word16(b, 26)));
    assert(units(one, 0, 0) =~= Seq::empty());
    reveal_strlit("unknown");
    reveal_strlit("storage");
    reveal_strlit("stream");
    reveal_strlit("root");
    reveal_strlit("other");
    assert("unknown"@[0] == 'u' && "stream"@[0] == 's' && "root"@[0] == 'r' && "other"@[0] == 'o');
    assert("storage"@.len() == 7 && "stream"@.len() == 6);
}

/// What the header says stands in its bytes: the version, the two sector sizes as powers of two,
/// and the length below which a stream lies in mini sectors.
pub proof fn law_the_header_is_its_bytes(c: Cfb, b: Seq<u8>)
    requires
        header_fault(b) is None,
        c.describes(b),
    ensures
        c.minor == b[24] + 256 * b[25],
        c.major == b[26] + 256 * b[27],
        c.sector_size == 512 || c.sector_size == 4096,
        c.sector_size == 512 <==> b[30] == 9,
        c.sector_size == 4096 <==> b[30] == 12,
        b[31] == 0,
        b[32] == 6 && b[33] == 0 ==> c.mini_sector_size == 64,
        c.mini_cutoff == b[56] + 0x100 * b[57] + 0x1_0000 * b[58] + 0x100_0000 * b[59],
        c.difat_chained <==> b[72] != 0 || b[73] != 0 || b[74] != 0 || b[75] != 0,
{
    law_only_signed_files_open(b);
    lemma_sector_shift(word16(b, 30));
    vstd::arithmetic::power2::lemma2_to64();
}

proof fn lemma_sector_shift(n: int)
    requires
        0 <= n,
        pow2(n as nat) == 512 || pow2(n as nat) == 4096,
    ensures
        pow2(n as nat) == 512 <==> n == 9,
        pow2(n as nat) == 4096 <==> n == 12,
        n == 9 || n == 12,
{
    vstd::arithmetic::power2::lemma2_to64();
    if n < 9 {
        vstd::arithmetic::power2::lemma_pow2_strictly_increases(n as nat, 9);
    } else if 9 < n < 12 {
        vstd::arithmetic::power2::lemma_pow2_strictly_increases(9, n as nat);
        vstd::arithmetic::power2::lemma_pow2_strictly_increases(n as nat, 12);
    } else if n > 12 {
        vstd::arithmetic::power2::lemma_pow2_strictly_increases(12, n as nat);
    }
}

/// A container opens exactly where it has room for the header, begins with the eight bytes of the
/// signature, says that its numbers begin with the low byte, is of version 3 or 4, has sectors of
/// 512 or 4096 bytes and states a size of mini sectors that a machine can hold.
pub proof fn law_what_opens_is_a_sound_header(b: Seq<u8>)
    ensures
        header_fault(b) is None <==> {
            &&& b.len() >= 512
            &&& b[0] == 0xD0 && b[1] == 0xCF && b[2] == 0x11 && b[3] == 0xE0
            &&& b[4] == 0xA1 && b[5] == 0xB1 && b[6] == 0x1A && b[7] == 0xE1
            &&& b[28] == 0xFE && b[29] == 0xFF
            &&& (b[26] == 3 || b[26] == 4) && b[27] == 0
            &&& (b[30] == 9 || b[30] == 12) && b[31] == 0
            &&& b[32] + 256 * b[33] < usize::BITS
        },
{
    vstd::arithmetic::power2::lemma2_to64();
    let sig = SIGNATURE@;
    assert(sig[0] == 0xD0 && sig[1] == 0xCF && sig[2] == 0x11 && sig[3] == 0xE0 && sig[4] == 0xA1
        && sig[5] == 0xB1 && sig[6] == 0x1A && sig[7] == 0xE1);
    if b.len() >= 512 {
        if pow2(word16(b, 30) as nat) == 512 || pow2(word16(b, 30) as nat) == 4096 {
            lemma_sector_shift(word16(b, 30));
        }
        if signed(b) {
            assert(b[0] == sig[0] && b[1] == sig[1] && b[2] == sig[2] && b[3] == sig[3] && b[4]
                == sig[4] && b[5] == sig[5] && b[6] == sig[6] && b[7] == sig[7]);
        }
    }
}

/// A name finds the first stream that is called so, case left aside, and nothing where there is
/// none. Storages are no streams.
pub proof fn law_a_name_finds_the_first_stream(c: Cfb, want: Seq<char>)
    ensures
        match c.found(want) {
            Some(i) => {
                &&& 0 <= i < c.entries@.len()
                &&& c.entries@[i].kind@ == "stream"@
                &&& lowercase(c.entries@[i].name@) == lowercase(want)
                &&& forall|j: int|
                    0 <= j < i ==> (#[trigger] c.entries@[j]).kind@ != "stream"@ || lowercase(
                        c.entries@[j].name@,
                    ) != lowercase(want)
            },
            None => forall|j: int|
                0 <= j < c.entries@.len() ==> (#[trigger] c.entries@[j]).kind@ != "stream"@
                    || lowercase(c.entries@[j].name@) != lowercase(want),
        },
{
    let p = |one: Entry| answers(one, want);
    crate::lists::lemma_first_from(c.entries@, p, 0);
}

/// An empty stream needs no sectors, and a stream is never given longer or shorter than its entry
/// says.
pub proof fn law_a_stream_is_as_long_as_its_entry_says(c: Cfb, b: Seq<u8>, one: Entry)
    ensures
        one.size == 0 ==> c.stream_of(b, one) == Some(Seq::<u8>::empty()),
        c.stream_of(b, one) matches Some(v) ==> v.len() == one.size,
{
}

/// The directory is the chain that begins at the sector in bytes 48 to 51 of the header, and the
/// table of mini sectors is as long as the chain that begins at the one in bytes 60 to 63.
pub proof fn law_the_header_says_where_things_begin(c: Cfb, b: Seq<u8>, s: Seq<u32>, i: int)
    requires
        header_fault(b) is None,
        c.describes(b),
        0 <= i < s.len(),
    ensures
        is_chain(b, c.fat@, c.sector_size as int, word32(b, 48) as u32, s) ==> {
            &&& c.entries@.len() == s.len() * c.sector_size / 128
            &&& directory_of(b).subrange(i * c.sector_size, (i + 1) * c.sector_size)
                == b.subrange((s[i] + 1) * c.sector_size, (s[i] + 2) * c.sector_size)
        },
        is_chain(b, c.fat@, c.sector_size as int, word32(b, 60) as u32, s) ==> c.mini_fat@.len()
            == s.len() * c.sector_size / 4,
{
    law_only_signed_files_open(b);
    let z = c.sector_size as int;
    if is_chain(b, c.fat@, z, word32(b, 48) as u32, s) {
        law_a_chain_is_its_sectors(b, c.fat@, z, word32(b, 48) as u32, s);
    }
    if is_chain(b, c.fat@, z, word32(b, 60) as u32, s) {
        law_a_chain_is_its_sectors(b, c.fat@, z, word32(b, 60) as u32, s);
    }
}

proof fn lemma_first_root(c: Cfb, b: Seq<u8>, n: int)
    requires
        c.describes(b),
        0 <= n <= c.entries@.len(),
        forall|k: int| 0 <= k < n ==> (#[trigger] c.entries@[k]).kind@ != "root"@,
        n < c.entries@.len() ==> c.entries@[n].kind@ == "root"@,
    ensures
        n < c.entries@.len() ==> root_index(directory_of(b)) == Some(n),
        n == c.entries@.len() ==> root_index(directory_of(b)) is None,
{
    let dir = directory_of(b);
    let t = type_bytes(dir);
    reveal_strlit("unknown");
    reveal_strlit("storage");
    reveal_strlit("stream");
    reveal_strlit("root");
    reveal_strlit("other");
    assert("unknown"@[0] == 'u' && "storage"@[0] == 's' && "stream"@[0] == 's' && "root"@[0] == 'r'
        && "other"@[0] == 'o');
    assert forall|k: int| 0 <= k < t.len() implies (#[trigger] t[k] == 5 <==> c.entries@[k].kind@
        == "root"@) by {
        assert(c.entries@[k].describes(entry_bytes(dir, k), word16(b, 26)));
        assert(entry_bytes(dir, k)[66] == t[k]);
    }
    assert forall|q: spec_fn(u8) -> bool| (forall|raw: u8| #[trigger] q(raw) == (raw == 5)) implies {
        &&& n < t.len() ==> #[trigger] first(t, q) == Some(n)
        &&& n == t.len() ==> first(t, q) is None
    } by {
        crate::lists::lemma_first_from(t, q, 0);
        if let Some(j) = first(t, q) {
            assert(q(t[j]));
        }
        if n < t.len() {
            assert(q(t[n]));
        }
    }
}

proof fn lemma_mini_stream(c: Cfb, b: Seq<u8>, n: int)
    requires
        c.describes(b),
        0 <= n <= c.entries@.len(),
        forall|k: int| 0 <= k < n ==> (#[trigger] c.entries@[k]).kind@ != "root"@,
        n < c.entries@.len() ==> c.entries@[n].kind@ == "root"@,
    ensures
        n == c.entries@.len() ==> c.mini_stream@.len() == 0,
        n < c.entries@.len() ==> ({
            let all = walk(
                b,
                c.entries@[n].start,
                Seq::empty(),
                c.fat@,
                c.sector_size as int,
            ).bytes;
            &&& c.entries@[n].size < all.len() ==> c.mini_stream@ == all.take(
                c.entries@[n].size as int,
            )
            &&& c.entries@[n].size >= all.len() ==> c.mini_stream@ == all
        }),
{
    lemma_first_root(c, b, n);
    if n < c.entries@.len() {
        assert(c.entries@[n].describes(entry_bytes(directory_of(b), n), word16(b, 26)));
    }
}

proof fn lemma_byte_of_a_chain(b: Seq<u8>, all: Seq<u8>, s: Seq<u32>, z: int, i: int, j: int)
    requires
        z > 0,
        0 <= i < s.len(),
        0 <= j < z,
        all.len() == s.len() * z,
        all.subrange(i * z, (i + 1) * z) == b.subrange((s[i] + 1) * z, (s[i] + 2) * z),
        (s[i] + 2) * z <= b.len(),
    ensures
        0 <= i * z + j < all.len(),
        all[i * z + j] == b[(s[i] + 1) * z + j],
{
    assert(0 <= i * z && (i + 1) * z <= s.len() * z && i * z + z == (i + 1) * z)
        by (nonlinear_arith)
        requires
            0 <= i < s.len(),
            z > 0,
    ;
    lemma_part_byte(all, i, b, s[i] + 1, z, j);
}

/// The mini sectors lie in the chain of the first root entry, cut to the length that the entry says:
/// byte `j` of part `i` is byte `j` of sector `i` of that chain. Without a root entry there are none.
pub proof fn law_where_the_mini_sectors_lie(
    c: Cfb,
    b: Seq<u8>,
    n: int,
    s: Seq<u32>,
    i: int,
    j: int,
)
    requires
        header_fault(b) is None,
        c.describes(b),
        0 <= n <= c.entries@.len(),
        forall|k: int| 0 <= k < n ==> (#[trigger] c.entries@[k]).kind@ != "root"@,
        n < c.entries@.len() ==> c.entries@[n].kind@ == "root"@ && is_chain(
            b,
            c.fat@,
            c.sector_size as int,
            c.entries@[n].start,
            s,
        ),
        0 <= i < s.len(),
        0 <= j < c.sector_size,
    ensures
        n == c.entries@.len() ==> c.mini_stream@.len() == 0,
        n < c.entries@.len() ==> {
            &&& c.entries@[n].size >= s.len() * c.sector_size ==> c.mini_stream@.len() == s.len()
                * c.sector_size
            &&& c.entries@[n].size < s.len() * c.sector_size ==> c.mini_stream@.len()
                == c.entries@[n].size
            &&& i * c.sector_size + j < c.mini_stream@.len() ==> c.mini_stream@[i * c.sector_size
                + j] == b[(s[i] + 1) * c.sector_size + j]
        },
{
    law_only_signed_files_open(b);
    lemma_mini_stream(c, b, n);
    let z = c.sector_size as int;
    if n < c.entries@.len() {
        law_a_chain_is_its_sectors(b, c.fat@, z, c.entries@[n].start, s);
        let all = walk(b, c.entries@[n].start, Seq::empty(), c.fat@, z).bytes;
        assert(all.subrange(i * z, (i + 1) * z) == b.subrange((s[i] + 1) * z, (s[i] + 2) * z));
        lemma_byte_of_a_chain(b, all, s, z, i, j);
    }
}

proof fn lemma_slot_of_a_chain(b: Seq<u8>, all: Seq<u8>, s: Seq<u32>, z: int, k: int, i: int)
    requires
        z == 512 || z == 4096,
        0 <= k < s.len(),
        0 <= i < z / 4,
        all.len() == s.len() * z,
        all.subrange(k * z, (k + 1) * z) == b.subrange((s[k] + 1) * z, (s[k] + 2) * z),
        (s[k] + 2) * z <= b.len(),
    ensures
        slots(all, 0, all.len() as int / 4).len() == s.len() * (z / 4),
        0 <= k * (z / 4) + i < s.len() * (z / 4),
        ({
            let at = (s[k] + 1) * z + 4 * i;
            slots(all, 0, all.len() as int / 4)[k * (z / 4) + i] == b[at] + 0x100 * b[at + 1]
                + 0x1_0000 * b[at + 2] + 0x100_0000 * b[at + 3]
        }),
{
    let q = z / 4;
    lemma_byte_of_a_chain(b, all, s, z, k, 4 * i);
    lemma_byte_of_a_chain(b, all, s, z, k, 4 * i + 1);
    lemma_byte_of_a_chain(b, all, s, z, k, 4 * i + 2);
    lemma_byte_of_a_chain(b, all, s, z, k, 4 * i + 3);
    assert(0 <= k * q + i < s.len() * q) by (nonlinear_arith)
        requires
            0 <= k < s.len(),
            0 <= i < q,
    ;
    assert(4 * (k * q + i) == k * z + 4 * i) by (nonlinear_arith)
        requires
            z == 4 * q,
    ;
    assert(s.len() * z == 4 * (s.len() * q)) by (nonlinear_arith)
        requires
            z == 4 * q,
    ;
    let at = k * z + 4 * i;
    let word = word32(all, at);
    assert(word == all[at] + 0x100 * all[at + 1] + 0x1_0000 * all[at + 2] + 0x100_0000 * all[at
        + 3]);
    assert(slots(all, 0, all.len() as int / 4)[k * q + i] == word as u32);
}

/// The successor of a mini sector stands in the chain that the header names at bytes 60 to 63, four
/// bytes a slot: slot `k * (sector / 4) + i` is the number in the four bytes at `4 * i` of its
/// `k`-th sector.
pub proof fn law_a_mini_slot_stands_in_its_sector(c: Cfb, b: Seq<u8>, s: Seq<u32>, k: int, i: int)
    requires
        header_fault(b) is None,
        c.describes(b),
        is_chain(b, c.fat@, c.sector_size as int, word32(b, 60) as u32, s),
        0 <= k < s.len(),
        0 <= i < c.sector_size as int / 4,
    ensures
        ({
            let q = c.sector_size as int / 4;
            let at = (s[k] + 1) * c.sector_size + 4 * i;
            &&& c.mini_fat@.len() == s.len() * q
            &&& 0 <= k * q + i < c.mini_fat@.len()
            &&& c.mini_fat@[k * q + i] == b[at] + 0x100 * b[at + 1] + 0x1_0000 * b[at + 2]
                + 0x100_0000 * b[at + 3]
        }),
{
    law_only_signed_files_open(b);
    let z = c.sector_size as int;
    law_a_chain_is_its_sectors(b, c.fat@, z, word32(b, 60) as u32, s);
    let all = walk(b, word32(b, 60) as u32, Seq::empty(), c.fat@, z).bytes;
    assert(all.subrange(k * z, (k + 1) * z) == b.subrange((s[k] + 1) * z, (s[k] + 2) * z));
    lemma_slot_of_a_chain(b, all, s, z, k, i);
    assert(c.mini_fat@ == slots(all, 0, all.len() as int / 4));
}

/// Where the header has no room for all sectors of the table, the others are listed in a chain: each
/// of its sectors names sectors of the table in all slots but the last, and the next of the chain in
/// the last.
pub proof fn law_more_table_sectors_are_listed_in_a_chain(
    b: Seq<u8>,
    next: u32,
    sector: int,
    left: nat,
    j: int,
    v: u32,
)
    requires
        sector == 512 || sector == 4096,
        left > 0,
        next < 0xFFFF_FFFE,
        (next + 2) * sector <= b.len() <= usize::MAX,
        0 <= j < sector / 4 - 1,
    ensures
        ({
            let at = (next + 1) * sector;
            let rest = chained(b, word32(b, at + sector - 4) as u32, sector, (left - 1) as nat);
            let all = chained(b, next, sector, left);
            &&& word32(b, at + 4 * j) == v && v != 0xFFFF_FFFF ==> all.sectors.contains(v)
            &&& rest.sectors.contains(v) ==> all.sectors.contains(v)
            &&& all.sectors.contains(v) && !rest.sectors.contains(v) ==> v != 0xFFFF_FFFF && exists|
                k: int,
            |
                0 <= k < sector / 4 - 1 && #[trigger] word32(b, at + 4 * k) == v
            &&& all.note == rest.note
        }),
        chained(b, 0xFFFF_FFFE, sector, left).sectors.len() == 0,
        chained(b, 0xFFFF_FFFF, sector, left).sectors.len() == 0,
        header_fault(b) is None && chained(
            b,
            word32(b, 68) as u32,
            sector_of(b),
            4096,
        ).sectors.contains(v) ==> fat_list(b).contains(v),
{
    let at = (next + 1) * sector;
    let p = |one: u32| one != NO_SECT;
    let s = slots(b, at, sector / 4 - 1);
    let own = named(b, at, sector / 4 - 1);
    let rest = chained(b, word32(b, at + sector - 4) as u32, sector, (left - 1) as nat).sectors;
    assert((next + 2) * sector == at + sector) by (nonlinear_arith)
        requires
            at == (next + 1) * sector,
    ;
    let all = chained(b, next, sector, left).sectors;
    assert(all == own + rest);
    if word32(b, at + 4 * j) == v && v != 0xFFFF_FFFF {
        assert(s[j] == v);
        s.lemma_filter_contains(p, j);
        let k = choose|k: int| 0 <= k < own.len() && own[k] == v;
        assert(all[k] == v);
    }
    if rest.contains(v) {
        let k = choose|k: int| 0 <= k < rest.len() && rest[k] == v;
        assert(all[own.len() + k] == v);
    }
    if all.contains(v) && !rest.contains(v) {
        let k = choose|k: int| 0 <= k < all.len() && all[k] == v;
        if k >= own.len() {
            assert(rest[k - own.len()] == v);
        }
        assert(own[k] == v);
        s.lemma_filter_pred(p, k);
        s.lemma_filter_contains_rev(p, v);
        let x = choose|x: int| 0 <= x < s.len() && s[x] == v;
        assert(word32(b, at + 4 * x) == v);
    }
    let head = named(b, 76, 109);
    let more = chained(b, word32(b, 68) as u32, sector_of(b), 4096).sectors;
    if more.contains(v) {
        let k = choose|k: int| 0 <= k < more.len() && more[k] == v;
        assert((head + more)[head.len() + k] == v);
    }
}

/// What stops a chain short: a sector that it has been through, one outside the file, and one that
/// the table has no slot for. In the last case the bytes of that sector are still given.
pub proof fn law_what_stops_a_chain(
    b: Seq<u8>,
    cur: u32,
    seen: Seq<u32>,
    fat: Seq<u32>,
    sector: int,
)
    requires
        cur < 0xFFFF_FFFE,
        seen.len() < 0x10_0000,
        sector > 0,
    ensures
        ({
            let w = walk(b, cur, seen, fat, sector);
            let at = (cur + 1) * sector;
            &&& seen.contains(cur) ==> {
                &&& w.bytes.len() == 0
                &&& w.note == Some("链在 "@ + dec(cur as nat) + " 处成环，已就地截断"@)
            }
            &&& !seen.contains(cur) && at <= usize::MAX && at + sector > b.len() ==> {
                &&& w.bytes.len() == 0
                &&& w.note == Some("扇区 "@ + dec(cur as nat) + " 指向文件之外（截断的包？）"@)
            }
            &&& !seen.contains(cur) && at <= usize::MAX && at + sector <= b.len() && cur
                >= fat.len() ==> {
                &&& w.bytes == b.subrange(at, at + sector)
                &&& w.note == Some("FAT 里没有 "@ + dec(cur as nat) + " 这一格"@)
            }
        }),
{
}

/// Why a container is refused: the first of these that holds is said.
pub proof fn law_why_a_container_is_refused(b: Seq<u8>)
    ensures
        b.len() < 512 ==> header_fault(b) == Some(
            "文件只有 "@ + dec(b.len()) + " 字节，放不下 512 字节的 CFB 头"@,
        ),
        b.len() >= 512 && b[0] != 0xD0 ==> header_fault(b) == Some("开头八个字节不是 CFB 签名"@),
        b.len() >= 512 && signed(b) && word16(b, 28) != 0xFFFE ==> header_fault(b) == Some(
            "字节序标记是 0x"@ + hex_text(word16(b, 28) as nat) + "，CFB 只允许小端（0xFFFE）"@,
        ),
        b.len() >= 512 && signed(b) && word16(b, 28) == 0xFFFE && word16(b, 30) < usize::BITS
            && word16(b, 32) < usize::BITS && word16(b, 26) != 3 && word16(b, 26) != 4
            ==> header_fault(b) == Some(
            "主版本号 "@ + dec(word16(b, 26) as nat) + " 不认识（只有 3 与 4）"@,
        ),
{
    assert(SIGNATURE@[0] == 0xD0);
}

/// What is remarked on: a version 3 container that states a number of directory sectors, a table
/// with more or fewer sectors than the header says, and a root entry that is missing.
pub proof fn law_what_is_remarked_on_in_a_container(b: Seq<u8>)
    ensures
        word16(b, 26) == 3 && word32(b, 40) != 0 ==> table_notes(b).contains(
            "v3 规定目录扇区数字段必须为 0，这个文件写了非 0"@,
        ),
        word16(b, 26) == 4 && fat_list(b).len() == word32(b, 44) && (word32(b, 68) == 0xFFFF_FFFE
            || word32(b, 68) == 0xFFFF_FFFF) ==> table_notes(b) == table(
            b,
            ascending(fat_list(b)),
            sector_of(b),
        ).notes,
        fat_list(b).len() != word32(b, 44) ==> table_notes(b).contains(
            "头部说 FAT 扇区有 "@ + dec(word32(b, 44) as nat) + " 个，DIFAT 链实际给出 "@ + dec(
                fat_list(b).len(),
            ) + " 个"@,
        ),
        root_index(directory_of(b)) is None ==> root_note(b) == Some(
            "没有 root 存储项，小流的迷你扇区无处可取"@,
        ),
{
    let chain = chained(b, word32(b, 68) as u32, sector_of(b), DIFAT_LIMIT as nat);
    let t = table(b, ascending(fat_list(b)), sector_of(b)).notes;
    let all = table_notes(b);
    if word16(b, 26) == 3 && word32(b, 40) != 0 {
        assert(all[0] == "v3 规定目录扇区数字段必须为 0，这个文件写了非 0"@);
    }
    if fat_list(b).len() != word32(b, 44) {
        let text = said("头部说 FAT 扇区有 "@, word32(b, 44), " 个，DIFAT 链实际给出 "@) + dec(
            fat_list(b).len(),
        ) + " 个"@;
        assert(all[all.len() - t.len() - 1] == text);
    }
    if word16(b, 26) == 4 {
        assert(Seq::<Seq<char>>::empty() + t =~= t);
    }
}

/// A stream that is shorter than the cutoff lies in mini sectors, any other in sectors, and so it is
/// said.
pub proof fn law_which_sectors_a_stream_lies_in(c: &Cfb, one: &Entry, r: &'static str)
    requires
        call_ensures(Cfb::via, (c, one), r),
    ensures
        one.size < c.mini_cutoff ==> r@ == seq!['m', 'i', 'n', 'i'],
        one.size >= c.mini_cutoff ==> r@ == seq!['f', 'a', 't'],
{
    reveal_strlit("mini");
    reveal_strlit("fat");
    assert("mini"@ =~= seq!['m', 'i', 'n', 'i']);
    assert("fat"@ =~= seq!['f', 'a', 't']);
}

/// The sectors of the table are counted as they are listed: those that the header names and those
/// that the chain behind it names.
pub proof fn law_how_many_table_sectors_there_are(c: Cfb, b: Seq<u8>)
    requires
        c.describes(b),
    ensures
        c.fat_sectors == named(b, 76, 109).len() + chained(
            b,
            word32(b, 68) as u32,
            sector_of(b),
            4096,
        ).sectors.len(),
        texts(c.notes@) == notes_of(b),
{
}

} // verus!
