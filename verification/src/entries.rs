//! The member tables of packages: ZIP, tar and ar.
//!
//! Each kind of package carries a proof of its own, and the proof is tried: the directory of a ZIP
//! has to end where it says, every block of a tar has to match its checksum, and every header of
//! an ar has to end with the two bytes that end one. What does not hold is said in the checks.

use crate::equations::unslashed;
use crate::lists::piece_of;
use crate::text::{dec, hex_char, hex_digit, push_dec, same, string_together, strung, texts};
use crate::words::{blank, is_blank};
use crate::written::{slice_in, text_in};
use vstd::prelude::*;
use vstd::utf8::{decode_utf8, valid_utf8};

verus! {

broadcast use crate::text::lemma_texts_push;

/// What bytes read as in UTF-8, with a replacement character for what is not valid.
pub uninterp spec fn lossy(b: Seq<u8>) -> Seq<char>;

/// `String::from_utf8_lossy`: the text that bytes read as in UTF-8. Valid bytes are taken as they
/// are; how many replacement characters stand for the others is left to the name.
#[verifier::external_body]
fn read_lossy(b: &[u8]) -> (r: String)
    ensures
        r@ == lossy(b@),
        valid_utf8(b@) ==> r@ == decode_utf8(b@),
{
    String::from_utf8_lossy(b).into_owned()
}

/// What bytes read as: what they spell in UTF-8 where they are valid, and what the lossy reading
/// makes of them where they are not.
pub open spec fn reading(b: Seq<u8>) -> Seq<char> {
    if valid_utf8(b) {
        decode_utf8(b)
    } else {
        lossy(b)
    }
}

/// Where the first zero byte from `i` on stands, or the end.
pub open spec fn nul_from(f: Seq<u8>, i: int) -> int
    decreases f.len() - i,
{
    if 0 <= i < f.len() && f[i] != 0 {
        nul_from(f, i + 1)
    } else {
        i
    }
}

/// The bytes before the first zero byte.
pub open spec fn before_nul(f: Seq<u8>) -> Seq<u8> {
    f.take(nul_from(f, 0))
}

fn find_nul(f: &Vec<u8>) -> (r: usize)
    ensures
        r == nul_from(f@, 0),
        r <= f@.len(),
{
    let mut i: usize = 0;
    while i < f.len() && f[i] != 0
        invariant
            i <= f@.len(),
            nul_from(f@, 0) == nul_from(f@, i as int),
        decreases f@.len() - i,
    {
        i += 1;
    }
    i
}

/// The text of a field: what its bytes read as up to the first zero byte.
pub fn text(field: &Vec<u8>) -> (r: String)
    ensures
        r@ == reading(before_nul(field@)),
{
    let end: usize = find_nul(field);
    let head: Vec<u8> = piece_of(field.as_slice(), 0, end);
    assert(head@ =~= before_nul(field@));
    read_lossy(head.as_slice())
}

/// Octal digits.
pub open spec fn all_octal(t: Seq<u8>) -> bool {
    forall|i: int| 0 <= i < t.len() ==> 48 <= #[trigger] t[i] <= 55
}

/// The number that octal digits stand for.
pub open spec fn octal_value(t: Seq<u8>) -> nat
    decreases t.len(),
{
    if t.len() == 0 {
        0
    } else {
        octal_value(t.drop_last()) * 8 + (t.last() - 48) as nat
    }
}

/// The number that digits stand for: none where one is not octal or the number needs more than 64
/// bits.
pub open spec fn octal_number(t: Seq<u8>) -> Option<nat> {
    if all_octal(t) && octal_value(t) <= u64::MAX {
        Some(octal_value(t))
    } else {
        None
    }
}

/// More digits make no smaller number.
proof fn lemma_octal_grows(t: Seq<u8>, n: int)
    requires
        all_octal(t),
        0 <= n <= t.len(),
    ensures
        0 <= octal_value(t.take(n)) <= octal_value(t),
    decreases t.len(),
{
    if n == t.len() {
        assert(t.take(n) =~= t);
        if n > 0 {
            lemma_octal_grows(t.drop_last(), n - 1);
        }
    } else {
        lemma_octal_grows(t.drop_last(), n);
        assert(t.drop_last().take(n) =~= t.take(n));
    }
}

/// Reads octal digits.
pub fn u64_from_octal(t: &[u8]) -> (r: Option<u64>)
    ensures
        match r {
            Some(v) => octal_number(t@) == Some(v as nat),
            None => octal_number(t@) is None,
        },
{
    let mut value: u64 = 0;
    let mut i: usize = 0;
    assert(t@.take(0) =~= Seq::empty());
    while i < t.len()
        invariant
            i <= t@.len(),
            all_octal(t@.take(i as int)),
            value == octal_value(t@.take(i as int)),
        decreases t@.len() - i,
    {
        assert(t@.take(i + 1).drop_last() =~= t@.take(i as int));
        if t[i] < 48 || t[i] > 55 {
            return None;
        }
        let next: u128 = value as u128 * 8 + (t[i] - 48) as u128;
        assert(next == octal_value(t@.take(i + 1)));
        if next > u64::MAX as u128 {
            proof {
                if all_octal(t@) {
                    lemma_octal_grows(t@, i + 1);
                }
            }
            return None;
        }
        value = next as u64;
        i += 1;
    }
    assert(t@.take(i as int) =~= t@);
    Some(value)
}

/// Where the first byte from `i` on stands that is no space.
pub open spec fn past_spaces(t: Seq<u8>, i: int) -> int
    decreases t.len() - i,
{
    if 0 <= i < t.len() && t[i] == 32 {
        past_spaces(t, i + 1)
    } else {
        i
    }
}

/// Where the spaces at the end of the first `n` bytes begin, but not before `from`.
pub open spec fn before_spaces(t: Seq<u8>, from: int, n: int) -> int
    decreases n,
{
    if from < n <= t.len() && 0 < n && t[n - 1] == 32 {
        before_spaces(t, from, n - 1)
    } else {
        n
    }
}

/// Bytes without the spaces around them.
pub open spec fn unpadded(t: Seq<u8>) -> Seq<u8> {
    let from = past_spaces(t, 0);
    t.subrange(from, before_spaces(t, from, t.len() as int))
}

/// The number in an octal field, which spaces and zero bytes may fill up.
pub open spec fn octal_of(f: Seq<u8>) -> Option<nat> {
    let t = unpadded(before_nul(f));
    if t.len() == 0 {
        None
    } else {
        octal_number(t)
    }
}

/// A number that may not be there.
pub open spec fn number_in(n: Option<u64>) -> Option<nat> {
    match n {
        Some(v) => Some(v as nat),
        None => None,
    }
}

/// Reads an octal field.
pub fn octal(field: &Vec<u8>) -> (r: Option<u64>)
    ensures
        number_in(r) == octal_of(field@),
{
    let end: usize = find_nul(field);
    let t: Vec<u8> = piece_of(field.as_slice(), 0, end);
    assert(t@ =~= before_nul(field@));
    let size: usize = t.len();
    let mut from: usize = 0;
    while from < size && t[from] == 32
        invariant
            from <= size,
            size == t@.len(),
            past_spaces(t@, 0) == past_spaces(t@, from as int),
        decreases size - from,
    {
        from += 1;
    }
    let mut to: usize = size;
    while from < to && t[to - 1] == 32
        invariant
            from <= to <= size,
            size == t@.len(),
            before_spaces(t@, from as int, size as int) == before_spaces(
                t@,
                from as int,
                to as int,
            ),
        decreases to,
    {
        to -= 1;
    }
    let kept: Vec<u8> = piece_of(t.as_slice(), from, to - from);
    assert(kept@ =~= unpadded(t@));
    if kept.len() == 0 {
        None
    } else {
        u64_from_octal(kept.as_slice())
    }
}

/// A claim of a package, whether it holds, and what is to be said of it.
#[derive(Debug, Clone)]
pub struct Check {
    pub claim: String,
    pub ok: bool,
    pub note: String,
}

impl Check {
    pub open spec fn is(self, claim: Seq<char>, ok: bool, note: Seq<char>) -> bool {
        self.claim@ == claim && self.ok == ok && self.note@ == note
    }
}

/// A member of a ZIP, as its directory states it.
#[derive(Debug, Clone)]
pub struct Dir {
    pub name: String,
    pub method: u16,
    pub crc: u32,
    pub size: u64,
    pub compressed: u64,
    pub offset: u64,
}

/// A member of a ZIP.
#[derive(Debug, Clone)]
pub struct ZipRow {
    pub name: String,
    pub method: u16,
    pub crc32: String,
    pub size: u64,
    pub compressed: u64,
    pub local_header_at: u64,
}

/// A member of a tar.
#[derive(Debug, Clone)]
pub struct TarRow {
    pub name: String,
    pub typeflag: char,
    pub kind: &'static str,
    pub mode: Option<u64>,
    pub uid: Option<u64>,
    pub gid: Option<u64>,
    pub mtime: Option<u64>,
    pub size: u64,
    pub at: usize,
}

/// A member of an ar.
#[derive(Debug, Clone)]
pub struct ArRow {
    pub name: String,
    pub mtime: Option<u64>,
    pub uid: Option<u64>,
    pub gid: Option<u64>,
    pub mode: Option<String>,
    pub size: u64,
    pub data_at: usize,
}

/// A member of a package.
#[derive(Debug, Clone)]
pub enum Entry {
    Zip(ZipRow),
    Tar(TarRow),
    Ar(ArRow),
}

/// The member table of a package.
#[derive(Debug, Clone)]
pub struct Listing {
    pub container: Option<String>,
    pub entries: Vec<Entry>,
    pub checks: Vec<Check>,
    pub total_size: u128,
}

/// The bytes `from` to `to` of the header at `at`.
pub open spec fn field(b: Seq<u8>, at: int, from: int, to: int) -> Seq<u8> {
    b.subrange(at + from, at + to)
}

fn take_field(b: &[u8], at: usize, from: usize, to: usize) -> (r: Vec<u8>)
    requires
        from <= to,
        at + to <= b@.len(),
    ensures
        r@ == field(b@, at as int, from as int, to as int),
{
    let size: usize = b.len();
    assert(at + to <= size);
    piece_of(b, at + from, to - from)
}

/// The number in a field of the header at `at`.
pub open spec fn number(b: Seq<u8>, at: int, from: int, to: int) -> Option<nat> {
    octal_of(field(b, at, from, to))
}

fn read_number(b: &[u8], at: usize, from: usize, to: usize) -> (r: Option<u64>)
    requires
        from <= to,
        at + to <= b@.len(),
    ensures
        number_in(r) == number(b@, at as int, from as int, to as int),
{
    octal(&take_field(b, at, from, to))
}

/// The bytes of a block are all zero.
pub open spec fn zero_block(b: Seq<u8>, at: int) -> bool {
    forall|i: int| at <= i < at + 512 ==> #[trigger] b[i] == 0
}

fn is_zero_block(b: &[u8], at: usize) -> (r: bool)
    requires
        at + 512 <= b@.len(),
    ensures
        r == zero_block(b@, at as int),
{
    let size: usize = b.len();
    let mut i: usize = at;
    while i < at + 512
        invariant
            at <= i <= at + 512,
            at + 512 <= size,
            size == b@.len(),
            forall|k: int| at <= k < i ==> #[trigger] b@[k] == 0,
        decreases at + 512 - i,
    {
        if b[i] != 0 {
            return false;
        }
        i += 1;
    }
    true
}

/// The sum of the first `n` bytes of a block. The checksum itself counts as spaces.
pub open spec fn sum_upto(b: Seq<u8>, at: int, n: int) -> nat
    decreases n,
{
    if n <= 0 {
        0
    } else {
        sum_upto(b, at, n - 1) + if 148 <= n - 1 < 156 {
            32nat
        } else {
            b[at + n - 1] as nat
        }
    }
}

/// A block matches its own checksum.
pub open spec fn sums_up(b: Seq<u8>, at: int) -> bool {
    number(b, at, 148, 156) == Some(sum_upto(b, at, 512))
}

fn check_sum(b: &[u8], at: usize) -> (r: bool)
    requires
        at + 512 <= b@.len(),
    ensures
        r == sums_up(b@, at as int),
{
    let size: usize = b.len();
    let mut sum: u64 = 0;
    let mut i: usize = 0;
    while i < 512
        invariant
            i <= 512,
            at + 512 <= size,
            size == b@.len(),
            sum == sum_upto(b@, at as int, i as int),
            sum <= 255 * i,
        decreases 512 - i,
    {
        if 148 <= i && i < 156 {
            sum = sum + 32;
        } else {
            sum = sum + b[at + i] as u64;
        }
        i += 1;
    }
    match read_number(b, at, 148, 156) {
        Some(stated) => stated == sum,
        None => false,
    }
}

/// The name of the member of a block, behind its prefix where it has one.
pub open spec fn tar_name(b: Seq<u8>, at: int) -> Seq<char> {
    let name = reading(before_nul(field(b, at, 0, 100)));
    let prefix = reading(before_nul(field(b, at, 345, 500)));
    if prefix.len() == 0 {
        name
    } else {
        prefix + "/"@ + name
    }
}

/// What a type flag stands for.
pub open spec fn flag_kind(flag: u8) -> Seq<char> {
    if flag == 0x30 || flag == 0 {
        "file"@
    } else if flag == 0x35 {
        "dir"@
    } else if flag == 0x6c {
        "symlink-name"@
    } else if flag == 0x4b {
        "longname"@
    } else if flag == 0x78 {
        "pax-header"@
    } else if flag == 0x67 {
        "pax-global"@
    } else {
        "other"@
    }
}

fn kind_of_flag(flag: u8) -> (r: &'static str)
    ensures
        r@ == flag_kind(flag),
{
    if flag == 0x30 || flag == 0 {
        "file"
    } else if flag == 0x35 {
        "dir"
    } else if flag == 0x6c {
        "symlink-name"
    } else if flag == 0x4b {
        "longname"
    } else if flag == 0x78 {
        "pax-header"
    } else if flag == 0x67 {
        "pax-global"
    } else {
        "other"
    }
}

/// How long the member of a block is. A field that is no number counts as zero.
pub open spec fn tar_size(b: Seq<u8>, at: int) -> nat {
    match number(b, at, 124, 136) {
        Some(n) => n,
        None => 0,
    }
}

/// Where the block behind a member would stand: behind as many whole blocks as the member fills.
pub open spec fn tar_next(b: Seq<u8>, at: int) -> int {
    at + 512 + (tar_size(b, at) + 511) / 512 * 512
}

impl TarRow {
    pub open spec fn describes(self, b: Seq<u8>, at: int) -> bool {
        &&& self.name@ == tar_name(b, at)
        &&& self.typeflag == b[at + 156] as char
        &&& self.kind@ == flag_kind(b[at + 156])
        &&& number_in(self.mode) == number(b, at, 100, 108)
        &&& number_in(self.uid) == number(b, at, 108, 116)
        &&& number_in(self.gid) == number(b, at, 116, 124)
        &&& number_in(self.mtime) == number(b, at, 136, 148)
        &&& self.size == tar_size(b, at)
        &&& self.at == at
    }
}

fn read_block(b: &[u8], at: usize) -> (r: TarRow)
    requires
        at + 512 <= b@.len(),
    ensures
        r.describes(b@, at as int),
{
    let size: usize = b.len();
    assert(at + 512 <= size);
    let name: String = text(&take_field(b, at, 0, 100));
    let prefix: String = text(&take_field(b, at, 345, 500));
    let full: String = if prefix.as_str().unicode_len() == 0 {
        name
    } else {
        let mut t: String = prefix;
        t.append("/");
        t.append(name.as_str());
        t
    };
    let flag: u8 = b[at + 156];
    let long: u64 = match read_number(b, at, 124, 136) {
        Some(n) => n,
        None => 0,
    };
    TarRow {
        name: full,
        typeflag: flag as char,
        kind: kind_of_flag(flag),
        mode: read_number(b, at, 100, 108),
        uid: read_number(b, at, 108, 116),
        gid: read_number(b, at, 116, 124),
        mtime: read_number(b, at, 136, 148),
        size: long,
        at,
    }
}

/// How many bytes stand from `at` on, and one more where `at` is not past the end.
pub open spec fn left(b: Seq<u8>, at: int) -> int {
    if at <= b.len() {
        b.len() - at + 1
    } else {
        0
    }
}

/// Where the headers of a tar stand from `at` on: one behind another up to a block of zeros, the
/// end, or a length that no place in memory can have.
pub open spec fn tar_places(b: Seq<u8>, at: int) -> Seq<int>
    decreases left(b, at),
    when 0 <= at
{
    if at + 512 <= b.len() && !zero_block(b, at) {
        seq![at] + if tar_next(b, at) <= usize::MAX {
            tar_places(b, tar_next(b, at))
        } else {
            Seq::empty()
        }
    } else {
        Seq::empty()
    }
}

/// What is said of those among the first `n` blocks that do not match their checksums.
pub open spec fn unsummed(b: Seq<u8>, places: Seq<int>, n: int) -> Seq<Seq<char>>
    decreases n,
{
    if n <= 0 {
        Seq::empty()
    } else if sums_up(b, places[n - 1]) {
        unsummed(b, places, n - 1)
    } else {
        unsummed(b, places, n - 1).push("第 "@ + dec(n as nat) + " 块校验和不对"@)
    }
}

/// What is said of the blocks of a tar.
pub open spec fn tar_faults(b: Seq<u8>) -> Seq<Seq<char>> {
    let places = tar_places(b, 0);
    let sums = unsummed(b, places, places.len() as int);
    if places.len() > 0 && tar_next(b, places.last()) > usize::MAX {
        sums.push("某块的长度让下一块跑到文件外"@)
    } else {
        sums
    }
}

/// How long the members at the first `n` places are.
pub open spec fn tar_total(b: Seq<u8>, places: Seq<int>, n: int) -> int
    decreases n,
{
    if n <= 0 {
        0
    } else {
        tar_total(b, places, n - 1) + tar_size(b, places[n - 1])
    }
}

/// The entries are the blocks at those places.
pub open spec fn lists_blocks(v: Seq<Entry>, b: Seq<u8>, places: Seq<int>) -> bool {
    &&& v.len() == places.len()
    &&& forall|i: int|
        0 <= i < v.len() ==> (#[trigger] v[i] matches Entry::Tar(row) && row.describes(
            b,
            places[i],
        ))
}

impl Listing {
    pub open spec fn is_tar(self, b: Seq<u8>) -> bool {
        let places = tar_places(b, 0);
        let faults = tar_faults(b);
        &&& self.container matches Some(c) && c@ == "tar"@
        &&& lists_blocks(self.entries@, b, places)
        &&& self.checks@.len() == 2
        &&& self.checks@[0].is(
            "every block passes its own octal checksum"@,
            faults.len() == 0,
            strung(faults, "; "@),
        )
        &&& self.checks@[1].is(
            "blocks are 512-byte aligned"@,
            true,
            dec(places.len()) + " blocks walked"@,
        )
        &&& self.total_size == tar_total(b, places, places.len() as int)
    }
}

/// The places of the first `n` are no matter of those behind them.
proof fn lemma_parts(b: Seq<u8>, places: Seq<int>, n: int)
    requires
        0 <= n <= places.len(),
    ensures
        tar_total(b, places.take(n), n) == tar_total(b, places, n),
        unsummed(b, places.take(n), n) == unsummed(b, places, n),
    decreases n,
{
    if n > 0 {
        lemma_parts(b, places, n - 1);
        lemma_parts(b, places.take(n), n - 1);
        assert(places.take(n).take(n - 1) =~= places.take(n - 1));
    }
}

/// Lists the members of a tar.
pub fn tar_entries(raw: &[u8]) -> (r: Listing)
    ensures
        r.is_tar(raw@),
{
    let size: usize = raw.len();
    let ghost all = tar_places(raw@, 0);
    let ghost mut seen: Seq<int> = Seq::empty();
    let mut entries: Vec<Entry> = Vec::new();
    let mut bad: Vec<String> = Vec::new();
    let mut total: u128 = 0;
    let mut blocks: u64 = 0;
    let mut at: usize = 0;
    let mut open: bool = true;
    assert(seen + tar_places(raw@, 0) =~= all);
    assert(texts(bad@) =~= unsummed(raw@, seen, 0));
    while open && size >= 512 && at <= size - 512
        invariant
            size == raw@.len(),
            all == tar_places(raw@, 0),
            open ==> seen + tar_places(raw@, at as int) == all,
            !open ==> seen == all,
            open ==> blocks * 512 <= at,
            blocks == seen.len(),
            lists_blocks(entries@, raw@, seen),
            total == tar_total(raw@, seen, seen.len() as int),
            total <= 0xffff_ffff_ffff_ffff * seen.len(),
            open ==> texts(bad@) == unsummed(raw@, seen, seen.len() as int),
            open ==> (seen.len() > 0 ==> tar_next(raw@, seen.last()) <= usize::MAX),
            !open ==> texts(bad@) == tar_faults(raw@),
        decreases if open && at <= size { size - at + 1 } else { 0 },
    {
        if is_zero_block(raw, at) {
            assert(seen + tar_places(raw@, at as int) =~= seen);
            open = false;
        } else {
            let row: TarRow = read_block(raw, at);
            let long: u64 = row.size;
            blocks += 1;
            let ghost had = seen;
            proof {
                seen = seen.push(at as int);
                lemma_parts(raw@, seen, had.len() as int);
                assert(seen.take(had.len() as int) =~= had);
            }
            total = total + long as u128;
            if !check_sum(raw, at) {
                let mut note: String = "第 ".to_owned();
                push_dec(&mut note, blocks);
                note.append(" 块校验和不对");
                bad.push(note);
            }
            assert(texts(bad@) == unsummed(raw@, seen, seen.len() as int));
            entries.push(Entry::Tar(row));
            let filled: u128 = (long as u128 + 511) / 512;
            let next: u128 = at as u128 + 512 + filled * 512;
            assert(next == tar_next(raw@, at as int));
            assert(had + tar_places(raw@, at as int) =~= seen + if tar_next(raw@, at as int)
                <= usize::MAX {
                tar_places(raw@, next as int)
            } else {
                Seq::empty()
            });
            if next > usize::MAX as u128 {
                assert(seen + Seq::<int>::empty() =~= seen);
                bad.push("某块的长度让下一块跑到文件外".to_owned());
                open = false;
            } else {
                at = next as usize;
            }
        }
    }
    if open {
        assert(seen + Seq::<int>::empty() =~= seen);
        assert(seen == all);
    }
    let note: String = string_together(&bad, "; ");
    let mut walked: String = String::new();
    push_dec(&mut walked, blocks);
    walked.append(" blocks walked");
    assert(walked@ =~= dec(all.len()) + " blocks walked"@);
    let ok: bool = bad.len() == 0;
    assert(texts(bad@).len() == bad@.len());
    let mut checks: Vec<Check> = Vec::new();
    checks.push(
        Check { claim: "every block passes its own octal checksum".to_owned(), ok, note },
    );
    checks.push(
        Check { claim: "blocks are 512-byte aligned".to_owned(), ok: true, note: walked },
    );
    Listing { container: Some("tar".to_owned()), entries, checks, total_size: total }
}

/// A byte outside the checksum moves the sum of its block by as much as it changes.
proof fn lemma_sum_moves(b: Seq<u8>, at: int, i: int, x: u8, n: int)
    requires
        0 <= at,
        at + 512 <= b.len(),
        0 <= i < 512,
        !(148 <= i < 156),
        0 <= n <= 512,
    ensures
        sum_upto(b.update(at + i, x), at, n) == sum_upto(b, at, n) + if n > i {
            x - b[at + i]
        } else {
            0
        },
    decreases n,
{
    if n > 0 {
        lemma_sum_moves(b, at, i, x, n - 1);
    }
}

/// A block that matches its checksum matches it no more once one byte outside the checksum is
/// another.
pub proof fn law_a_changed_byte_shows(b: Seq<u8>, at: int, i: int, x: u8)
    requires
        0 <= at,
        at + 512 <= b.len(),
        0 <= i < 512,
        !(148 <= i < 156),
        x != b[at + i],
        sums_up(b, at),
    ensures
        !sums_up(b.update(at + i, x), at),
{
    lemma_sum_moves(b, at, i, x, 512);
    assert(field(b.update(at + i, x), at, 148, 156) =~= field(b, at, 148, 156));
}

/// Every header of a tar stands at a multiple of the size of a block.
pub proof fn law_blocks_are_aligned(b: Seq<u8>, at: int)
    requires
        at >= 0,
        at % 512 == 0,
    ensures
        forall|i: int|
            0 <= i < tar_places(b, at).len() ==> #[trigger] tar_places(b, at)[i] % 512 == 0,
    decreases left(b, at),
{
    if at + 512 <= b.len() && !zero_block(b, at) {
        let next = tar_next(b, at);
        if next <= usize::MAX {
            law_blocks_are_aligned(b, next);
        }
        let rest = if next <= usize::MAX {
            tar_places(b, next)
        } else {
            Seq::empty()
        };
        assert(tar_places(b, at) == seq![at] + rest);
        assert forall|i: int| 0 <= i < tar_places(b, at).len() implies #[trigger] tar_places(
            b,
            at,
        )[i] % 512 == 0 by {
            if i > 0 {
                assert(tar_places(b, at)[i] == rest[i - 1]);
            }
        }
    }
}

/// A text without the blanks at its end.
pub open spec fn untailed(s: Seq<char>) -> Seq<char>
    decreases s.len(),
{
    if s.len() > 0 && blank(s.last()) {
        untailed(s.drop_last())
    } else {
        s
    }
}

fn trim_tail(s: &str) -> (r: &str)
    ensures
        r@ == untailed(s@),
{
    let mut n: usize = s.unicode_len();
    assert(s@.take(n as int) =~= s@);
    while n > 0 && is_blank(s.get_char(n - 1))
        invariant
            n <= s@.len(),
            untailed(s@) == untailed(s@.take(n as int)),
        decreases n,
    {
        assert(s@.take(n as int).drop_last() =~= s@.take(n - 1));
        n -= 1;
    }
    let r: &str = s.substring_char(0, n);
    assert(r@ =~= s@.take(n as int));
    r
}

fn trim_slashes(s: &str) -> (r: &str)
    ensures
        r@ == unslashed(s@),
{
    let mut n: usize = s.unicode_len();
    assert(s@.take(n as int) =~= s@);
    while n > 0 && s.get_char(n - 1) == '/'
        invariant
            n <= s@.len(),
            unslashed(s@) == unslashed(s@.take(n as int)),
        decreases n,
    {
        assert(s@.take(n as int).drop_last() =~= s@.take(n - 1));
        n -= 1;
    }
    let r: &str = s.substring_char(0, n);
    assert(r@ =~= s@.take(n as int));
    r
}

/// A number in octal digits.
pub open spec fn octal_text(n: nat) -> Seq<char>
    decreases n,
{
    if n < 8 {
        seq![(48 + n) as char]
    } else {
        octal_text(n / 8).push((48 + n % 8) as char)
    }
}

fn push_octal(out: &mut String, n: u64)
    ensures
        final(out)@ == old(out)@ + octal_text(n as nat),
    decreases n,
{
    if n >= 8 {
        push_octal(out, n / 8);
    }
    out.push((48u8 + (n % 8) as u8) as char);
    assert(out@ =~= old(out)@ + octal_text(n as nat));
}

/// The octal digits of a number as bytes.
pub open spec fn octal_digits(n: nat) -> Seq<u8>
    decreases n,
{
    if n < 8 {
        seq![(48 + n) as u8]
    } else {
        octal_digits(n / 8).push((48 + n % 8) as u8)
    }
}

/// What is written in octal digits reads back as the number it was.
pub proof fn law_octal_digits_read_back(n: nat)
    requires
        n <= u64::MAX,
    ensures
        octal_number(octal_digits(n)) == Some(n),
    decreases n,
{
    let d = octal_digits(n);
    if n < 8 {
        assert(d.drop_last() =~= Seq::empty());
        assert(octal_value(d.drop_last()) == 0);
        assert(d.last() == 48 + n);
    } else {
        law_octal_digits_read_back(n / 8);
        assert(d.drop_last() =~= octal_digits(n / 8));
        assert(octal_value(d) == octal_value(octal_digits(n / 8)) * 8 + n % 8);
        assert forall|i: int| 0 <= i < d.len() implies 48 <= #[trigger] d[i] <= 55 by {
            if i < d.len() - 1 {
                assert(d[i] == octal_digits(n / 8)[i]);
            }
        }
    }
}

/// The name in a header, without the blanks at its end.
pub open spec fn ar_name(b: Seq<u8>, at: int) -> Seq<char> {
    untailed(reading(before_nul(field(b, at, 0, 16))))
}

/// The header at `at` ends as a header has to.
pub open spec fn ends_well(b: Seq<u8>, at: int) -> bool {
    b[at + 58] == 0x60 && b[at + 59] == 0x0a
}

/// Where the member behind one that ends at `end` begins: at the next even place.
pub open spec fn even_from(end: int) -> int {
    end + end % 2
}

/// Where the headers of an ar stand from `at` on.
pub open spec fn ar_places(b: Seq<u8>, at: int) -> Seq<int>
    decreases left(b, at),
    when 0 <= at
{
    if at + 60 <= b.len() && ends_well(b, at) {
        match number(b, at, 48, 58) {
            Some(size) => seq![at] + if at + 60 + size <= usize::MAX {
                ar_places(b, even_from(at + 60 + size))
            } else {
                Seq::empty()
            },
            None => Seq::empty(),
        }
    } else {
        Seq::empty()
    }
}

/// What is said of the header at which the walk from `at` on stops before the end.
pub open spec fn ar_faults(b: Seq<u8>, at: int) -> Seq<Seq<char>>
    decreases left(b, at),
    when 0 <= at
{
    if at + 60 <= b.len() {
        if ends_well(b, at) {
            match number(b, at, 48, 58) {
                Some(size) => if at + 60 + size <= usize::MAX {
                    ar_faults(b, even_from(at + 60 + size))
                } else {
                    seq!["长度让下一位跑到文件外"@]
                },
                None => seq!["成员 "@ + ar_name(b, at) + " 的长度不是八进制"@],
            }
        } else {
            seq!["成员头在 "@ + dec(at as nat) + " 处不以反引号换行结尾"@]
        }
    } else {
        Seq::empty()
    }
}

/// How long the members at the first `n` places are.
pub open spec fn ar_total(b: Seq<u8>, places: Seq<int>, n: int) -> nat
    decreases n,
{
    if n <= 0 {
        0
    } else {
        ar_total(b, places, n - 1) + match number(b, places[n - 1], 48, 58) {
            Some(size) => size,
            None => 0,
        }
    }
}

impl ArRow {
    pub open spec fn describes(self, b: Seq<u8>, at: int) -> bool {
        &&& self.name@ == unslashed(ar_name(b, at))
        &&& number_in(self.mtime) == number(b, at, 16, 28)
        &&& number_in(self.uid) == number(b, at, 28, 34)
        &&& number_in(self.gid) == number(b, at, 34, 40)
        &&& text_in(self.mode) == match number(b, at, 40, 48) {
            Some(n) => Some(octal_text(n)),
            None => None,
        }
        &&& number(b, at, 48, 58) == Some(self.size as nat)
        &&& self.data_at == at + 60
    }
}

fn read_header(b: &[u8], at: usize, size: u64, name: &str) -> (r: ArRow)
    requires
        at + 60 <= b@.len(),
        name@ == ar_name(b@, at as int),
        number(b@, at as int, 48, 58) == Some(size as nat),
    ensures
        r.describes(b@, at as int),
{
    let long: usize = b.len();
    assert(at + 60 <= long);
    let mode: Option<String> = match read_number(b, at, 40, 48) {
        Some(n) => {
            let mut t: String = String::new();
            push_octal(&mut t, n);
            assert(t@ =~= octal_text(n as nat));
            Some(t)
        },
        None => None,
    };
    ArRow {
        name: trim_slashes(name).to_owned(),
        mtime: read_number(b, at, 16, 28),
        uid: read_number(b, at, 28, 34),
        gid: read_number(b, at, 34, 40),
        mode,
        size,
        data_at: at + 60,
    }
}

/// The entries are the headers at those places.
pub open spec fn lists_headers(v: Seq<Entry>, b: Seq<u8>, places: Seq<int>) -> bool {
    &&& v.len() == places.len()
    &&& forall|i: int|
        0 <= i < v.len() ==> (#[trigger] v[i] matches Entry::Ar(row) && row.describes(
            b,
            places[i],
        ))
}

impl Listing {
    pub open spec fn is_ar(self, b: Seq<u8>) -> bool {
        let places = ar_places(b, 8);
        let faults = ar_faults(b, 8);
        &&& self.container matches Some(c) && c@ == "ar"@
        &&& lists_headers(self.entries@, b, places)
        &&& self.checks@.len() == 1
        &&& self.checks@[0].is(
            "every member header ends with the byte it must"@,
            faults.len() == 0,
            strung(faults, "; "@),
        )
        &&& self.total_size == ar_total(b, places, places.len() as int)
    }
}

proof fn lemma_ar_total(b: Seq<u8>, places: Seq<int>, n: int)
    requires
        0 <= n <= places.len(),
    ensures
        ar_total(b, places.take(n), n) == ar_total(b, places, n),
    decreases n,
{
    if n > 0 {
        lemma_ar_total(b, places, n - 1);
        lemma_ar_total(b, places.take(n), n - 1);
        assert(places.take(n).take(n - 1) =~= places.take(n - 1));
    }
}

/// Lists the members of an ar.
pub fn ar_entries(raw: &[u8]) -> (r: Listing)
    ensures
        r.is_ar(raw@),
{
    let long: usize = raw.len();
    let ghost all = ar_places(raw@, 8);
    let ghost mut seen: Seq<int> = Seq::empty();
    let mut entries: Vec<Entry> = Vec::new();
    let mut bad: Vec<String> = Vec::new();
    let mut total: u128 = 0;
    let mut next: u128 = 8;
    let mut open: bool = true;
    assert(seen + ar_places(raw@, 8) =~= all);
    assert(texts(bad@) =~= Seq::empty());
    while open && next + 60 <= long as u128
        invariant
            long == raw@.len(),
            next <= 0x3_0000_0000_0000_0000,
            all == ar_places(raw@, 8),
            open ==> seen + ar_places(raw@, next as int) == all,
            !open ==> seen == all,
            lists_headers(entries@, raw@, seen),
            seen.len() <= next,
            total == ar_total(raw@, seen, seen.len() as int),
            total <= 0xffff_ffff_ffff_ffff * seen.len(),
            open ==> texts(bad@) == Seq::<Seq<char>>::empty(),
            open ==> ar_faults(raw@, next as int) == ar_faults(raw@, 8),
            !open ==> texts(bad@) == ar_faults(raw@, 8),
        decreases if open && next <= long as u128 { long - next + 1 } else { 0 },
    {
        let at: usize = next as usize;
        let name: String = text(&take_field(raw, at, 0, 16));
        let name: &str = trim_tail(name.as_str());
        if !(raw[at + 58] == 0x60 && raw[at + 59] == 0x0a) {
            let mut note: String = "成员头在 ".to_owned();
            push_dec(&mut note, at as u64);
            note.append(" 处不以反引号换行结尾");
            bad.push(note);
            assert(texts(bad@) =~= ar_faults(raw@, at as int));
            assert(seen + Seq::<int>::empty() =~= seen);
            open = false;
        } else {
            match read_number(raw, at, 48, 58) {
                None => {
                    let mut note: String = "成员 ".to_owned();
                    note.append(name);
                    note.append(" 的长度不是八进制");
                    bad.push(note);
                    assert(texts(bad@) =~= ar_faults(raw@, at as int));
                    assert(seen + Seq::<int>::empty() =~= seen);
                    open = false;
                },
                Some(size) => {
                    let ghost had = seen;
                    proof {
                        seen = seen.push(at as int);
                        lemma_ar_total(raw@, seen, had.len() as int);
                        assert(seen.take(had.len() as int) =~= had);
                    }
                    total = total + size as u128;
                    entries.push(Entry::Ar(read_header(raw, at, size, name)));
                    let end: u128 = at as u128 + 60 + size as u128;
                    assert(had + ar_places(raw@, at as int) =~= seen + if end <= usize::MAX {
                        ar_places(raw@, even_from(end as int))
                    } else {
                        Seq::empty()
                    });
                    if end > usize::MAX as u128 {
                        bad.push("长度让下一位跑到文件外".to_owned());
                        assert(texts(bad@) =~= ar_faults(raw@, at as int));
                        assert(seen + Seq::<int>::empty() =~= seen);
                        open = false;
                    }
                    next = end + end % 2;
                },
            }
        }
    }
    if open {
        assert(seen + Seq::<int>::empty() =~= seen);
    }
    let note: String = string_together(&bad, "; ");
    let ok: bool = bad.len() == 0;
    assert(texts(bad@).len() == bad@.len());
    let mut checks: Vec<Check> = Vec::new();
    checks.push(
        Check { claim: "every member header ends with the byte it must".to_owned(), ok, note },
    );
    Listing { container: Some("ar".to_owned()), entries, checks, total_size: total }
}

/// Every header of an ar stands at an even place.
pub proof fn law_headers_stand_at_even_places(b: Seq<u8>, at: int)
    requires
        at >= 0,
        at % 2 == 0,
    ensures
        forall|i: int| 0 <= i < ar_places(b, at).len() ==> #[trigger] ar_places(b, at)[i] % 2 == 0,
    decreases left(b, at),
{
    if at + 60 <= b.len() && ends_well(b, at) && number(b, at, 48, 58) is Some {
        let end = at + 60 + number(b, at, 48, 58)->0;
        if end <= usize::MAX {
            law_headers_stand_at_even_places(b, even_from(end));
        }
        let rest = if end <= usize::MAX {
            ar_places(b, even_from(end))
        } else {
            Seq::empty()
        };
        assert(ar_places(b, at) == seq![at] + rest);
        assert forall|i: int| 0 <= i < ar_places(b, at).len() implies #[trigger] ar_places(b, at)[i]
            % 2 == 0 by {
            if i > 0 {
                assert(ar_places(b, at)[i] == rest[i - 1]);
            }
        }
    }
}

/// The last `w` hexadecimal digits of a number.
pub open spec fn hex_wide(n: nat, w: nat) -> Seq<char>
    decreases w,
{
    if w == 0 {
        Seq::empty()
    } else {
        hex_wide(n / 16, (w - 1) as nat).push(hex_digit((n % 16) as int))
    }
}

fn push_wide(out: &mut String, n: u32, w: u8)
    ensures
        final(out)@ == old(out)@ + hex_wide(n as nat, w as nat),
    decreases w,
{
    if w > 0 {
        push_wide(out, n / 16, w - 1);
        out.push(hex_char((n % 16) as u8));
        assert(out@ =~= old(out)@ + hex_wide(n as nat, w as nat));
    } else {
        assert(out@ =~= old(out)@ + hex_wide(n as nat, 0));
    }
}

impl ZipRow {
    pub open spec fn describes(self, d: Dir) -> bool {
        &&& self.name@ == d.name@
        &&& self.method == d.method
        &&& self.crc32@ == "0x"@ + hex_wide(d.crc as nat, 8)
        &&& self.size == d.size
        &&& self.compressed == d.compressed
        &&& self.local_header_at == d.offset
    }
}

/// How long the first `n` members are.
pub open spec fn zip_total(dirs: Seq<Dir>, n: int) -> int
    decreases n,
{
    if n <= 0 {
        0
    } else {
        zip_total(dirs, n - 1) + dirs[n - 1].size
    }
}

impl Listing {
    pub open spec fn is_zip(self, dirs: Seq<Dir>, broken: Seq<Seq<char>>) -> bool {
        &&& self.container matches Some(c) && c@ == "zip"@
        &&& self.entries@.len() == dirs.len()
        &&& forall|i: int|
            0 <= i < dirs.len() ==> (#[trigger] self.entries@[i] matches Entry::Zip(row)
                && row.describes(dirs[i]))
        &&& self.checks@.len() == if dirs.len() > 0 {
            2nat
        } else {
            1
        }
        &&& self.checks@[0].is(
            "central directory tiles the size it states"@,
            broken.len() == 0,
            strung(broken, "; "@),
        )
        &&& dirs.len() > 0 ==> self.checks@[1].is(
            "first entry is stored or deflated"@,
            dirs[0].method == 0 || dirs[0].method == 8,
            "method "@ + dec(dirs[0].method as nat),
        )
        &&& self.total_size == zip_total(dirs, dirs.len() as int)
    }
}

/// Lists the members of a ZIP from its directory; `broken` says where the directory contradicts
/// itself.
pub fn zip_entries(dirs: &Vec<Dir>, broken: &Vec<String>) -> (r: Listing)
    ensures
        r.is_zip(dirs@, texts(broken@)),
{
    let mut entries: Vec<Entry> = Vec::new();
    let mut total: u128 = 0;
    let mut i: usize = 0;
    while i < dirs.len()
        invariant
            i <= dirs@.len(),
            entries@.len() == i,
            forall|k: int|
                0 <= k < i ==> (#[trigger] entries@[k] matches Entry::Zip(row) && row.describes(
                    dirs@[k],
                )),
            total == zip_total(dirs@, i as int),
            total <= 0xffff_ffff_ffff_ffff * i,
        decreases dirs@.len() - i,
    {
        let one: &Dir = &dirs[i];
        let mut crc32: String = "0x".to_owned();
        push_wide(&mut crc32, one.crc, 8);
        total = total + one.size as u128;
        entries.push(
            Entry::Zip(
                ZipRow {
                    name: one.name.as_str().to_owned(),
                    method: one.method,
                    crc32,
                    size: one.size,
                    compressed: one.compressed,
                    local_header_at: one.offset,
                },
            ),
        );
        i += 1;
    }
    let mut checks: Vec<Check> = Vec::new();
    let note: String = string_together(broken, "; ");
    assert(texts(broken@).len() == broken@.len());
    checks.push(
        Check {
            claim: "central directory tiles the size it states".to_owned(),
            ok: broken.len() == 0,
            note,
        },
    );
    if dirs.len() > 0 {
        let method: u16 = dirs[0].method;
        let mut note: String = "method ".to_owned();
        push_dec(&mut note, method as u64);
        checks.push(
            Check {
                claim: "first entry is stored or deflated".to_owned(),
                ok: method == 0 || method == 8,
                note,
            },
        );
    }
    Listing { container: Some("zip".to_owned()), entries, checks, total_size: total }
}

impl Listing {
    /// A package without a member table, with one check that says why.
    pub open spec fn is_none(self, container: Option<Seq<char>>, claim: Seq<char>, note: Seq<
        char,
    >) -> bool {
        &&& text_in(self.container) == container
        &&& self.entries@.len() == 0
        &&& self.checks@.len() == 1
        &&& self.checks@[0].is(claim, false, note)
        &&& self.total_size == 0
    }

    /// The member table of a package of that family.
    pub open spec fn describes(
        self,
        family: Option<Seq<char>>,
        raw: Seq<u8>,
        dirs: Seq<Dir>,
        broken: Seq<Seq<char>>,
    ) -> bool {
        match family {
            Some(f) => if f == "zip"@ {
                self.is_zip(dirs, broken)
            } else if f == "tar"@ {
                self.is_tar(raw)
            } else if f == "ar"@ {
                self.is_ar(raw)
            } else {
                self.is_none(Some(f), "member table"@, "族 "@ + f + " 没有成员表"@)
            },
            None => self.is_none(None, "signature"@, "认不出是哪种容器"@),
        }
    }
}

fn no_entries(container: Option<String>, claim: &str, note: String) -> (r: Listing)
    ensures
        r.is_none(text_in(container), claim@, note@),
{
    let mut checks: Vec<Check> = Vec::new();
    checks.push(Check { claim: claim.to_owned(), ok: false, note });
    Listing { container, entries: Vec::new(), checks, total_size: 0 }
}

/// Lists the members of a package of that family. The directory of a ZIP is given.
pub fn list_members(
    family: Option<&str>,
    raw: &[u8],
    dirs: &Vec<Dir>,
    broken: &Vec<String>,
) -> (r: Listing)
    ensures
        r.describes(slice_in(family), raw@, dirs@, texts(broken@)),
{
    match family {
        Some(f) => if same(f, "zip") {
            zip_entries(dirs, broken)
        } else if same(f, "tar") {
            tar_entries(raw)
        } else if same(f, "ar") {
            ar_entries(raw)
        } else {
            let mut note: String = "族 ".to_owned();
            note.append(f);
            note.append(" 没有成员表");
            no_entries(Some(f.to_owned()), "member table", note)
        },
        None => no_entries(None, "signature", "认不出是哪种容器".to_owned()),
    }
}

/// How many members are listed where none other is asked for.
pub const DEFAULT_LIMIT: u64 = 200;

/// A member table, cut to as many members as were asked for. All are counted.
#[derive(Debug, Clone)]
pub struct Report {
    pub container: Option<String>,
    pub count: usize,
    pub listed: usize,
    pub cut: usize,
    pub total_size: u128,
    pub checks: Vec<Check>,
    pub entries: Vec<Entry>,
}

/// How many members are listed where `limit` were asked for. Zero stands for no wish.
pub open spec fn wanted(limit: u64) -> u64 {
    if limit == 0 {
        DEFAULT_LIMIT
    } else {
        limit
    }
}

impl Report {
    pub open spec fn describes(self, l: Listing, limit: u64) -> bool {
        &&& self.container == l.container
        &&& self.count == l.entries@.len()
        &&& self.listed == if l.entries@.len() < wanted(limit) {
            l.entries@.len() as int
        } else {
            wanted(limit) as int
        }
        &&& self.cut == self.count - self.listed
        &&& self.total_size == l.total_size
        &&& self.checks == l.checks
        &&& self.entries@ == l.entries@.take(self.listed as int)
    }
}

/// Cuts a member table to as many members as were asked for.
pub fn cut_listing(l: Listing, limit: u64) -> (r: Report)
    ensures
        r.describes(l, limit),
{
    let most: u64 = if limit == 0 {
        DEFAULT_LIMIT
    } else {
        limit
    };
    let count: usize = l.entries.len();
    let listed: usize = if (count as u64) < most {
        count
    } else {
        most as usize
    };
    let mut entries: Vec<Entry> = l.entries;
    entries.truncate(listed);
    Report {
        container: l.container,
        count,
        listed,
        cut: count - listed,
        total_size: l.total_size,
        checks: l.checks,
        entries,
    }
}

/// The text of a field ends at its first zero byte, or where the field ends.
pub proof fn law_a_field_ends_at_its_first_zero(t: Seq<u8>, rest: Seq<u8>)
    requires
        forall|i: int| 0 <= i < t.len() ==> #[trigger] t[i] != 0,
    ensures
        before_nul(t) == t,
        before_nul(t.push(0) + rest) == t,
{
    lemma_nul_at(t, 0, t.len() as int);
    assert(t.take(t.len() as int) =~= t);
    let f = t.push(0) + rest;
    assert(f[t.len() as int] == 0);
    lemma_nul_at(f, 0, t.len() as int);
    assert(f.take(t.len() as int) =~= t);
}

proof fn lemma_nul_at(f: Seq<u8>, i: int, at: int)
    requires
        0 <= i <= at <= f.len(),
        forall|k: int| i <= k < at ==> #[trigger] f[k] != 0,
        at < f.len() ==> f[at] == 0,
    ensures
        nul_from(f, i) == at,
    decreases at - i,
{
    if i < at {
        lemma_nul_at(f, i + 1, at);
    }
}

proof fn lemma_past_spaces(t: Seq<u8>, i: int, at: int)
    requires
        0 <= i <= at <= t.len(),
        forall|k: int| i <= k < at ==> #[trigger] t[k] == 32,
        at < t.len() ==> t[at] != 32,
    ensures
        past_spaces(t, i) == at,
    decreases at - i,
{
    if i < at {
        lemma_past_spaces(t, i + 1, at);
    }
}

proof fn lemma_before_spaces(t: Seq<u8>, from: int, at: int, n: int)
    requires
        0 <= from <= at <= n <= t.len(),
        forall|k: int| at <= k < n ==> #[trigger] t[k] == 32,
        at > from ==> t[at - 1] != 32,
    ensures
        before_spaces(t, from, n) == at,
    decreases n - at,
{
    if at < n {
        lemma_before_spaces(t, from, at, n - 1);
    }
}

/// A number in a field is its octal digits: blanks may stand round them, and a zero byte may end
/// them before the field does.
pub proof fn law_a_number_may_be_filled_up(
    a: Seq<u8>,
    digits: Seq<u8>,
    b: Seq<u8>,
    rest: Seq<u8>,
)
    requires
        forall|i: int| 0 <= i < a.len() ==> #[trigger] a[i] == 32,
        forall|i: int| 0 <= i < b.len() ==> #[trigger] b[i] == 32,
        digits.len() > 0,
        all_octal(digits),
    ensures
        octal_of(a + digits + b) == octal_number(digits),
        octal_of((a + digits + b).push(0) + rest) == octal_number(digits),
        octal_value(digits) <= u64::MAX ==> octal_number(digits) == Some(octal_value(digits)),
{
    let t = a + digits + b;
    let from = a.len() as int;
    let to = a.len() + digits.len() as int;
    assert forall|i: int| 0 <= i < t.len() implies #[trigger] t[i] != 0 by {
        if i < from {
            assert(t[i] == a[i]);
        } else if i < to {
            assert(t[i] == digits[i - from]);
        } else {
            assert(t[i] == b[i - to]);
        }
    }
    law_a_field_ends_at_its_first_zero(t, rest);
    assert(t[from] == digits[0]);
    assert(t[to - 1] == digits[digits.len() - 1]);
    assert forall|k: int| 0 <= k < from implies #[trigger] t[k] == 32 by {
        assert(t[k] == a[k]);
    }
    assert forall|k: int| to <= k < t.len() implies #[trigger] t[k] == 32 by {
        assert(t[k] == b[k - to]);
    }
    lemma_past_spaces(t, 0, from);
    lemma_before_spaces(t, from, to, t.len() as int);
    assert(unpadded(t) =~= digits);
}

/// One more octal digit makes a number eight times what it was and the digit; a byte that is none
/// of the eight makes it no number.
pub proof fn law_octal_digits_count_in_eights(t: Seq<u8>, d: u8)
    ensures
        octal_value(Seq::empty()) == 0,
        48 <= d <= 55 ==> octal_value(t.push(d)) == 8 * octal_value(t) + (d - 48),
        d < 48 || d > 55 ==> octal_number(t.push(d)) is None,
{
    assert(t.push(d).drop_last() =~= t);
    if d < 48 || d > 55 {
        assert(t.push(d)[t.len() as int] == d);
    }
}

/// Where the fields of a member stand in its block of a tar.
pub proof fn law_a_tar_row_is_its_bytes(r: TarRow, b: Seq<u8>, at: int)
    requires
        0 <= at,
        at + 512 <= b.len(),
        r.describes(b, at),
    ensures
        b[at + 345] == 0 && valid_utf8(Seq::empty()) && decode_utf8(Seq::empty()).len() == 0
            ==> r.name@ == reading(before_nul(b.subrange(at, at + 100))),
        ({
            let prefix = reading(before_nul(b.subrange(at + 345, at + 500)));
            prefix.len() > 0 ==> r.name@ == prefix + seq!['/'] + reading(
                before_nul(b.subrange(at, at + 100)),
            )
        }),
        r.typeflag == b[at + 156] as char,
        number_in(r.mode) == octal_of(b.subrange(at + 100, at + 108)),
        number_in(r.uid) == octal_of(b.subrange(at + 108, at + 116)),
        number_in(r.gid) == octal_of(b.subrange(at + 116, at + 124)),
        number_in(r.mtime) == octal_of(b.subrange(at + 136, at + 148)),
        octal_of(b.subrange(at + 124, at + 136)) is Some ==> octal_of(
            b.subrange(at + 124, at + 136),
        ) == Some(r.size as nat),
        octal_of(b.subrange(at + 124, at + 136)) is None ==> r.size == 0,
        r.at == at,
{
    reveal_strlit("/");
    assert("/"@ =~= seq!['/']);
    let f = b.subrange(at + 345, at + 500);
    if b[at + 345] == 0 {
        assert(f[0] == 0);
        assert(before_nul(f) =~= Seq::empty());
    }
}

/// What the letters and digits of a type flag stand for.
pub proof fn law_what_a_type_flag_is(r: TarRow, b: Seq<u8>, at: int)
    requires
        r.describes(b, at),
    ensures
        b[at + 156] == 0x30 || b[at + 156] == 0 ==> r.kind@ == "file"@,
        b[at + 156] == 0x35 ==> r.kind@ == "dir"@,
        b[at + 156] == 0x6c ==> r.kind@ == "symlink-name"@,
        b[at + 156] == 0x4b ==> r.kind@ == "longname"@,
        b[at + 156] == 0x78 ==> r.kind@ == "pax-header"@,
        b[at + 156] == 0x67 ==> r.kind@ == "pax-global"@,
        !(seq![0u8, 0x30, 0x35, 0x6c, 0x4b, 0x78, 0x67]).contains(b[at + 156]) ==> r.kind@
            == "other"@,
{
    let all = seq![0u8, 0x30, 0x35, 0x6c, 0x4b, 0x78, 0x67];
    assert(all[0] == 0 && all[1] == 0x30 && all[2] == 0x35 && all[3] == 0x6c && all[4] == 0x4b
        && all[5] == 0x78 && all[6] == 0x67);
}

/// A block matches its checksum where the number at 148 is the sum of its 512 bytes, with a blank
/// for each of the eight bytes of the checksum itself.
pub proof fn law_how_a_block_is_summed(b: Seq<u8>, at: int, n: int)
    requires
        0 <= n < 512,
    ensures
        sums_up(b, at) <==> octal_of(b.subrange(at + 148, at + 156)) == Some(
            sum_upto(b, at, 512),
        ),
        sum_upto(b, at, 0) == 0,
        148 <= n < 156 ==> sum_upto(b, at, n + 1) == sum_upto(b, at, n) + 32,
        n < 148 || n >= 156 ==> sum_upto(b, at, n + 1) == sum_upto(b, at, n) + b[at + n],
{
}

/// The blocks of a tar follow one another: the first stands at the beginning, and the next one
/// behind the block of its member and as many blocks as the member fills.
pub proof fn law_blocks_follow_one_another(b: Seq<u8>, at: int, i: int)
    requires
        at >= 0,
        0 <= i < tar_places(b, at).len(),
    ensures
        tar_places(b, at)[0] == at,
        tar_places(b, at)[i] + 512 <= b.len(),
        exists|k: int|
            tar_places(b, at)[i] <= k < tar_places(b, at)[i] + 512 && #[trigger] b[k] != 0,
        i + 1 < tar_places(b, at).len() ==> {
            let size = match octal_of(
                b.subrange(tar_places(b, at)[i] + 124, tar_places(b, at)[i] + 136),
            ) {
                Some(n) => n as int,
                None => 0,
            };
            let gap = tar_places(b, at)[i + 1] - tar_places(b, at)[i];
            gap % 512 == 0 && size + 512 <= gap < size + 1024
        },
    decreases left(b, at),
{
    if i > 0 {
        let next = tar_next(b, at);
        law_blocks_follow_one_another(b, next, i - 1);
        assert(tar_places(b, at)[i] == tar_places(b, next)[i - 1]);
        if i + 1 < tar_places(b, at).len() {
            assert(tar_places(b, at)[i + 1] == tar_places(b, next)[i]);
        }
    } else {
        assert(tar_places(b, at)[0] == at);
        if tar_places(b, at).len() > 1 {
            let next = tar_next(b, at);
            law_blocks_follow_one_another(b, next, 0);
            assert(tar_places(b, at)[1] == tar_places(b, next)[0]);
        }
    }
}

/// A walk over a tar ends where a block of zeros stands, where no whole block is left, or where
/// the next block would stand at no place that memory has.
pub proof fn law_where_a_tar_ends(b: Seq<u8>, at: int)
    requires
        at >= 0,
    ensures
        at + 512 > b.len() ==> tar_places(b, at).len() == 0,
        at + 512 <= b.len() && (forall|k: int| at <= k < at + 512 ==> #[trigger] b[k] == 0)
            ==> tar_places(b, at).len() == 0,
        at + 512 <= b.len() && (exists|k: int| at <= k < at + 512 && #[trigger] b[k] != 0)
            ==> tar_places(b, at).len() > 0,
{
}

/// Each member of a tar is told with its number where its block does not match its checksum.
pub proof fn law_bad_blocks_are_told(b: Seq<u8>, places: Seq<int>, n: int)
    requires
        0 <= n,
    ensures
        unsummed(b, places, 0).len() == 0,
        sums_up(b, places[n]) ==> unsummed(b, places, n + 1) == unsummed(b, places, n),
        !sums_up(b, places[n]) ==> unsummed(b, places, n + 1) == unsummed(b, places, n).push(
            "第 "@ + dec((n + 1) as nat) + " 块校验和不对"@,
        ),
{
}

/// A listing of a tar adds up the lengths of its members and says whether all blocks match.
pub proof fn law_what_a_tar_listing_says(l: Listing, b: Seq<u8>, i: int)
    requires
        l.is_tar(b),
    ensures
        l.container matches Some(c) && c@ == "tar"@,
        l.entries@.len() == tar_places(b, 0).len(),
        0 <= i < l.entries@.len() ==> (l.entries@[i] matches Entry::Tar(row) && row.at
            == tar_places(b, 0)[i]),
        tar_total(b, tar_places(b, 0), 0) == 0,
        0 <= i < l.entries@.len() ==> tar_total(b, tar_places(b, 0), i + 1) == tar_total(
            b,
            tar_places(b, 0),
            i,
        ) + tar_size(b, tar_places(b, 0)[i]),
        l.total_size == tar_total(b, tar_places(b, 0), l.entries@.len() as int),
        l.checks@[0].ok <==> tar_faults(b).len() == 0,
{
    if 0 <= i < l.entries@.len() {
        assert(l.entries@[i] matches Entry::Tar(row) && row.describes(b, tar_places(b, 0)[i]));
    }
}

/// Where the fields of a member stand in its header of an ar. Blanks behind a name and the slashes
/// behind it come off, and the mode is told in octal digits.
pub proof fn law_an_ar_row_is_its_bytes(r: ArRow, b: Seq<u8>, at: int)
    requires
        0 <= at,
        at + 60 <= b.len(),
        r.describes(b, at),
    ensures
        r.name@ == unslashed(untailed(reading(before_nul(b.subrange(at, at + 16))))),
        number_in(r.mtime) == octal_of(b.subrange(at + 16, at + 28)),
        number_in(r.uid) == octal_of(b.subrange(at + 28, at + 34)),
        number_in(r.gid) == octal_of(b.subrange(at + 34, at + 40)),
        octal_of(b.subrange(at + 40, at + 48)) is None ==> r.mode is None,
        octal_of(b.subrange(at + 40, at + 48)) matches Some(n) ==> text_in(r.mode) == Some(
            octal_text(n),
        ),
        octal_of(b.subrange(at + 48, at + 58)) == Some(r.size as nat),
        r.data_at == at + 60,
{
    assert(b.subrange(at + 0, at + 16) =~= b.subrange(at, at + 16));
}

/// The headers of an ar follow one another: each ends with a backtick and the end of a line, and
/// the next one stands behind its member, at the next even place.
pub proof fn law_headers_follow_one_another(b: Seq<u8>, at: int, i: int)
    requires
        at >= 0,
        0 <= i < ar_places(b, at).len(),
    ensures
        ar_places(b, at)[0] == at,
        ({
            let p = ar_places(b, at)[i];
            &&& p + 60 <= b.len()
            &&& b[p + 58] == 0x60
            &&& b[p + 59] == 0x0a
            &&& octal_of(b.subrange(p + 48, p + 58)) is Some
        }),
        i + 1 < ar_places(b, at).len() ==> {
            let p = ar_places(b, at)[i];
            let end = p + 60 + octal_of(b.subrange(p + 48, p + 58))->0;
            &&& end % 2 == 0 ==> ar_places(b, at)[i + 1] == end
            &&& end % 2 == 1 ==> ar_places(b, at)[i + 1] == end + 1
        },
    decreases left(b, at),
{
    let next = even_from(at + 60 + number(b, at, 48, 58)->0);
    if i > 0 {
        law_headers_follow_one_another(b, next, i - 1);
        assert(ar_places(b, at)[i] == ar_places(b, next)[i - 1]);
        if i + 1 < ar_places(b, at).len() {
            assert(ar_places(b, at)[i + 1] == ar_places(b, next)[i]);
        }
    } else {
        assert(ar_places(b, at)[0] == at);
        if ar_places(b, at).len() > 1 {
            law_headers_follow_one_another(b, next, 0);
            assert(ar_places(b, at)[1] == ar_places(b, next)[0]);
        }
    }
}

/// The walk over an ar begins behind its eight bytes of signature, and what its headers say adds
/// up.
pub proof fn law_what_an_ar_listing_says(l: Listing, b: Seq<u8>, i: int)
    requires
        l.is_ar(b),
    ensures
        l.container matches Some(c) && c@ == "ar"@,
        l.entries@.len() == ar_places(b, 8).len(),
        0 <= i < l.entries@.len() ==> (l.entries@[i] matches Entry::Ar(row) && row.data_at
            == ar_places(b, 8)[i] + 60),
        ar_total(b, ar_places(b, 8), 0) == 0,
        0 <= i < l.entries@.len() ==> ar_total(b, ar_places(b, 8), i + 1) == ar_total(
            b,
            ar_places(b, 8),
            i,
        ) + match octal_of(b.subrange(ar_places(b, 8)[i] + 48, ar_places(b, 8)[i] + 58)) {
            Some(size) => size,
            None => 0,
        },
        l.total_size == ar_total(b, ar_places(b, 8), l.entries@.len() as int),
        l.checks@[0].ok <==> ar_faults(b, 8).len() == 0,
{
    if 0 <= i < l.entries@.len() {
        assert(l.entries@[i] matches Entry::Ar(row) && row.describes(b, ar_places(b, 8)[i]));
    }
}

/// An ar is faulty where the walk stops at a header before the end of the file, and nowhere else.
pub proof fn law_when_an_ar_is_faulty(b: Seq<u8>, at: int)
    requires
        at >= 0,
    ensures
        at + 60 > b.len() ==> ar_faults(b, at).len() == 0,
        at + 60 <= b.len() && !(b[at + 58] == 0x60 && b[at + 59] == 0x0a) ==> ar_faults(
            b,
            at,
        ).len() == 1,
        at + 60 <= b.len() && b[at + 58] == 0x60 && b[at + 59] == 0x0a && octal_of(
            b.subrange(at + 48, at + 58),
        ) is None ==> ar_faults(b, at).len() == 1,
{
}

/// A number in octal digits: the last digit is what is left of eights, and the others are those of
/// how many eights there are.
pub proof fn law_how_a_mode_is_written(n: nat)
    ensures
        n < 8 ==> octal_text(n) == seq![(48 + n) as char],
        n >= 8 ==> octal_text(n) == octal_text(n / 8).push((48 + n % 8) as char),
{
}

/// A row of a ZIP is what its directory states, the check of its bytes as eight digits.
pub proof fn law_a_zip_row_is_what_the_directory_says(l: Listing, dirs: Seq<Dir>, broken: Seq<
    Seq<char>,
>, i: int)
    requires
        l.is_zip(dirs, broken),
        0 <= i < dirs.len(),
    ensures
        l.entries@.len() == dirs.len(),
        l.entries@[i] matches Entry::Zip(row) && ({
            &&& row.name@ == dirs[i].name@
            &&& row.method == dirs[i].method
            &&& row.size == dirs[i].size
            &&& row.compressed == dirs[i].compressed
            &&& row.local_header_at == dirs[i].offset
            &&& row.crc32@.len() == 10
            &&& row.crc32@[0] == '0'
            &&& row.crc32@[1] == 'x'
            &&& forall|k: int|
                0 <= k < 8 ==> #[trigger] row.crc32@[2 + k] == hex_wide(dirs[i].crc as nat, 8)[k]
        }),
        zip_total(dirs, 0) == 0,
        zip_total(dirs, i + 1) == zip_total(dirs, i) + dirs[i].size,
        l.total_size == zip_total(dirs, dirs.len() as int),
        l.checks@[0].ok <==> broken.len() == 0,
        l.checks@[1].ok <==> dirs[0].method == 0 || dirs[0].method == 8,
{
    assert(l.entries@[i] matches Entry::Zip(row) && row.describes(dirs[i]));
    reveal_strlit("0x");
    law_digits_of_a_check(dirs[i].crc as nat, 8);
}

/// A number in so many hexadecimal digits: the last is what is left of sixteens.
pub proof fn law_digits_of_a_check(n: nat, w: nat)
    ensures
        hex_wide(n, w).len() == w,
        w > 0 ==> hex_wide(n, w).last() == hex_digit((n % 16) as int),
        w > 0 ==> hex_wide(n, w).drop_last() == hex_wide(n / 16, (w - 1) as nat),
    decreases w,
{
    if w > 0 {
        law_digits_of_a_check(n / 16, (w - 1) as nat);
        assert(hex_wide(n, w).drop_last() =~= hex_wide(n / 16, (w - 1) as nat));
    }
}

/// Which members are listed goes by what the file is: a ZIP by its directory, a tar and an ar by
/// their bytes, and of everything else there is no table and that is said.
pub proof fn law_what_is_listed_of_a_package(
    l: Listing,
    raw: Seq<u8>,
    dirs: Seq<Dir>,
    broken: Seq<Seq<char>>,
    family: Seq<char>,
)
    ensures
        l.describes(Some("zip"@), raw, dirs, broken) <==> l.is_zip(dirs, broken),
        l.describes(Some("tar"@), raw, dirs, broken) <==> l.is_tar(raw),
        l.describes(Some("ar"@), raw, dirs, broken) <==> l.is_ar(raw),
        l.describes(None, raw, dirs, broken) ==> l.container is None && l.entries@.len() == 0
            && !l.checks@[0].ok && l.total_size == 0,
        family != "zip"@ && family != "tar"@ && family != "ar"@ && l.describes(
            Some(family),
            raw,
            dirs,
            broken,
        ) ==> text_in(l.container) == Some(family) && l.entries@.len() == 0 && !l.checks@[0].ok
            && l.total_size == 0,
{
    reveal_strlit("zip");
    reveal_strlit("tar");
    reveal_strlit("ar");
    assert("zip"@[0] == 'z');
    assert("tar"@[0] == 't');
}

/// A table is cut to as many members as are asked for, to two hundred where none are; what is cut
/// off is counted and the rest is left as it is.
pub proof fn law_how_a_table_is_cut(r: Report, l: Listing, limit: u64, i: int)
    requires
        r.describes(l, limit),
    ensures
        r.count == l.entries@.len(),
        r.listed + r.cut == r.count,
        r.entries@.len() == r.listed,
        limit > 0 ==> r.listed <= limit,
        limit == 0 ==> r.listed <= 200,
        r.cut > 0 ==> r.listed == if limit == 0 {
            200
        } else {
            limit as int
        },
        0 <= i < r.listed ==> r.entries@[i] == l.entries@[i],
        r.total_size == l.total_size,
        r.checks == l.checks,
{
}

/// What a package is checked for is said in words, and what does not hold is said behind it, with
/// `; ` between two faults.
pub proof fn law_what_a_package_is_checked_for(
    l: Listing,
    raw: Seq<u8>,
    dirs: Seq<Dir>,
    broken: Seq<Seq<char>>,
    family: Seq<char>,
)
    ensures
        l.is_tar(raw) ==> {
            &&& l.checks@.len() == 2
            &&& l.checks@[0].claim@ == "every block passes its own octal checksum"@
            &&& l.checks@[0].note@ == strung(tar_faults(raw), "; "@)
            &&& l.checks@[1].claim@ == "blocks are 512-byte aligned"@
            &&& l.checks@[1].ok
            &&& l.checks@[1].note@ == dec(l.entries@.len()) + " blocks walked"@
        },
        l.is_ar(raw) ==> {
            &&& l.checks@.len() == 1
            &&& l.checks@[0].claim@ == "every member header ends with the byte it must"@
            &&& l.checks@[0].note@ == strung(ar_faults(raw, 8), "; "@)
        },
        l.is_zip(dirs, broken) ==> {
            &&& l.checks@.len() == if dirs.len() == 0 {
                1int
            } else {
                2
            }
            &&& l.checks@[0].claim@ == "central directory tiles the size it states"@
            &&& l.checks@[0].ok <==> broken.len() == 0
            &&& l.checks@[0].note@ == strung(broken, "; "@)
            &&& dirs.len() > 0 ==> l.checks@[1].claim@ == "first entry is stored or deflated"@
            &&& dirs.len() > 0 ==> l.checks@[1].note@ == "method "@ + dec(dirs[0].method as nat)
        },
        l.describes(None, raw, dirs, broken) ==> {
            &&& l.checks@[0].claim@ == "signature"@
            &&& l.checks@[0].note@ == "认不出是哪种容器"@
        },
        family != "zip"@ && family != "tar"@ && family != "ar"@ && l.describes(
            Some(family),
            raw,
            dirs,
            broken,
        ) ==> {
            &&& l.checks@[0].claim@ == "member table"@
            &&& l.checks@[0].note@ == "族 "@ + family + " 没有成员表"@
        },
{
}

/// What is wrong with a tar: each block whose sum does not come out, and a last block that says that
/// it is longer than a file can be. What is wrong with an ar is the header at which it breaks off.
pub proof fn law_what_is_wrong_with_an_archive(b: Seq<u8>, at: int)
    requires
        at >= 0,
    ensures
        ({
            let places = tar_places(b, 0);
            let sums = unsummed(b, places, places.len() as int);
            &&& tar_faults(b) == sums || tar_faults(b) == sums.push("某块的长度让下一块跑到文件外"@)
            &&& tar_faults(b) != sums ==> places.len() > 0 && tar_next(b, places.last())
                > usize::MAX
            &&& places.len() > 0 && tar_next(b, places.last()) > usize::MAX
                ==> tar_faults(b).len() == sums.len() + 1
        }),
        at + 60 <= b.len() && !(b[at + 58] == 0x60 && b[at + 59] == 0x0a) ==> ar_faults(b, at)
            == seq!["成员头在 "@ + dec(at as nat) + " 处不以反引号换行结尾"@],
        at + 60 <= b.len() && b[at + 58] == 0x60 && b[at + 59] == 0x0a && octal_of(
            b.subrange(at + 48, at + 58),
        ) is None ==> ar_faults(b, at) == seq![
            "成员 "@ + ar_name(b, at) + " 的长度不是八进制"@,
        ],
        at + 60 <= b.len() && b[at + 58] == 0x60 && b[at + 59] == 0x0a && (octal_of(
            b.subrange(at + 48, at + 58),
        ) matches Some(size) && at + 60 + size > usize::MAX) ==> ar_faults(b, at) == seq![
            "长度让下一位跑到文件外"@,
        ],
{
}

} // verus!
