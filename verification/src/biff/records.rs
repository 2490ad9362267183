//! The records of a workbook stream, and which sheet each of them belongs to.

use crate::bytes::{field16, field32, field64, le16, le32, le64, word16};
use crate::lists::{piece, piece_of};
use crate::text::same;
use vstd::prelude::*;

use super::sst::{spell, spelling};

verus! {

pub const BOF: u64 = 0x0809;

pub const BOUNDSHEET: u64 = 0x0085;

pub const SST: u64 = 0x00FC;

pub const CONTINUE: u64 = 0x003C;

pub const LABELSST: u64 = 0x00FD;

pub const NUMBER: u64 = 0x0203;

pub const RK: u64 = 0x027E;

pub const MUL_RK: u64 = 0x00BD;

pub const LABEL: u64 = 0x0204;

pub const FORMULA: u64 = 0x0006;

pub const PROTECT: u64 = 0x0012;

pub const PASSWORD: u64 = 0x0013;

pub const SCENPROTECT: u64 = 0x00DD;

pub const XF: u64 = 0x00E0;

pub const FORMAT: u64 = 0x041E;

pub const DATEMODE: u64 = 0x0022;

pub const ROW: u64 = 0x0208;

/// Column properties. Some producers write the older number, with the same layout.
pub const COLINFO: u64 = 0x07D0;

pub const COLINFO_OLD: u64 = 0x007D;

/// The text of a comment, and the cell and author of one.
pub const NOTE_TEXT: u64 = 0x01B6;

pub const NOTE_CELL: u64 = 0x001C;

/// A link on cells, and a number that a book states about its links.
pub const HLINK: u64 = 0x01B8;

pub const HLINK_COUNT: u64 = 0x01B7;

/// A shape on a sheet, the drawing data of a sheet, and those that the whole book shares.
pub const SHAPE: u64 = 0x005D;

pub const DRAWING: u64 = 0x00EC;

pub const DRAWING_GROUP: u64 = 0x00EB;

/// The shape type of a picture.
pub const TOBJ_PICTURE: u64 = 8;

/// A field, or zero where the record is too short for it.
pub open spec fn or_zero(f: Option<u64>) -> u64 {
    match f {
        Some(v) => v,
        None => 0,
    }
}

pub open spec fn at16(b: Seq<u8>, at: int) -> u64 {
    or_zero(field16(b, at))
}

pub open spec fn at32(b: Seq<u8>, at: int) -> u64 {
    or_zero(field32(b, at))
}

pub open spec fn at64(b: Seq<u8>, at: int) -> u64 {
    or_zero(field64(b, at))
}

pub open spec fn at8(b: Seq<u8>, at: int) -> u8 {
    if 0 <= at < b.len() {
        b[at]
    } else {
        0
    }
}

pub fn get16(b: &[u8], at: usize) -> (r: u64)
    ensures
        r == at16(b@, at as int),
        r < 0x1_0000,
{
    match le16(b, at) {
        Some(v) => v,
        None => 0,
    }
}

pub fn get32(b: &[u8], at: usize) -> (r: u64)
    ensures
        r == at32(b@, at as int),
        r < 0x1_0000_0000,
{
    match le32(b, at) {
        Some(v) => v,
        None => 0,
    }
}

pub fn get64(b: &[u8], at: usize) -> (r: u64)
    ensures
        r == at64(b@, at as int),
{
    match le64(b, at) {
        Some(v) => v,
        None => 0,
    }
}

pub fn get8(b: &[u8], at: usize) -> (r: u8)
    ensures
        r == at8(b@, at as int),
{
    if at < b.len() {
        b[at]
    } else {
        0
    }
}

/// One record of a stream.
pub struct Record {
    pub offset: usize,
    pub op: u64,
    pub body: Vec<u8>,
}

/// What a record is.
#[verifier::ext_equal]
pub struct Rec {
    pub offset: int,
    pub op: u64,
    pub body: Seq<u8>,
}

impl View for Record {
    type V = Rec;

    open spec fn view(&self) -> Rec {
        Rec { offset: self.offset as int, op: self.op, body: self.body@ }
    }
}

pub open spec fn recs(r: Seq<Record>) -> Seq<Rec> {
    Seq::new(r.len(), |i: int| r[i]@)
}

/// The records of a stream from `at` on. One that claims more bytes than there are is the last
/// and has no body.
pub open spec fn split_from(raw: Seq<u8>, at: int) -> Seq<Rec>
    decreases raw.len() - at,
{
    if at < 0 || at + 4 > raw.len() {
        Seq::empty()
    } else {
        let len = word16(raw, at + 2);
        let one = Rec {
            offset: at,
            op: word16(raw, at) as u64,
            body: piece(raw, at + 4, len),
        };
        if at + 4 + len > raw.len() {
            seq![one]
        } else {
            seq![one] + split_from(raw, at + 4 + len)
        }
    }
}

/// Cuts a stream into its records.
pub fn split(raw: &Vec<u8>) -> (r: Vec<Record>)
    ensures
        recs(r@) == split_from(raw@, 0),
        forall|i: int| 0 <= i < r@.len() ==> (#[trigger] r@[i]).offset + 4 + r@[i].body@.len()
            <= raw@.len(),
{
    let size: usize = raw.len();
    let ghost all = split_from(raw@, 0);
    let mut out: Vec<Record> = Vec::new();
    let mut at: usize = 0;
    assert(recs(out@) + all =~= all);
    while size >= 4 && at <= size - 4
        invariant_except_break
            recs(out@) + split_from(raw@, at as int) == all,
        invariant
            at <= size,
            size == raw@.len(),
            forall|i: int|
                0 <= i < out@.len() ==> (#[trigger] out@[i]).offset + 4 + out@[i].body@.len()
                    <= raw@.len(),
        ensures
            recs(out@) == all,
        decreases size - at,
    {
        let op: u64 = get16(raw.as_slice(), at);
        let len: usize = get16(raw.as_slice(), at + 2) as usize;
        let body: Vec<u8> = piece_of(raw.as_slice(), at + 4, len);
        let ghost before = recs(out@);
        let one: Record = Record { offset: at, op, body };
        out.push(one);
        assert(recs(out@) =~= before.push(one@));
        if len > size - (at + 4) {
            assert(recs(out@) =~= before + seq![one@]);
            break;
        }
        at = at + 4 + len;
        proof {
            let rest = split_from(raw@, at as int);
            assert(before + (seq![one@] + rest) =~= recs(out@) + rest);
        }
    }
    assert(recs(out@) + Seq::<Rec>::empty() =~= recs(out@));
    out
}

/// What a sheet record says: its name, whether it can be seen, and where its records begin.
#[verifier::ext_equal]
pub struct Bound {
    pub name: Seq<char>,
    pub state: Seq<char>,
    pub start: u64,
}

/// How a sheet shows: the two low bits of the flags say so.
pub open spec fn state_of(flags: u64) -> Seq<char> {
    if flags % 4 == 0 {
        "visible"@
    } else if flags % 4 == 1 {
        "hidden"@
    } else if flags % 4 == 2 {
        "very-hidden"@
    } else {
        "unknown"@
    }
}

/// Text with a count of characters and a flag: two bytes each or one.
pub open spec fn counted(b: Seq<u8>, from: int, count: int, wide: bool) -> Seq<char> {
    spelling(
        piece(
            b,
            from,
            if wide {
                2 * count
            } else {
                count
            },
        ),
        wide,
    )
}

pub fn read_counted(b: &[u8], from: usize, count: usize, wide: bool) -> (r: String)
    requires
        count < 0x1_0000,
    ensures
        r@ == counted(b@, from as int, count as int, wide),
{
    let need: usize = if wide {
        2 * count
    } else {
        count
    };
    let raw: Vec<u8> = piece_of(b, from, need);
    spell(raw.as_slice(), wide)
}

/// What a sheet record says.
pub open spec fn bound_of(b: Seq<u8>) -> Bound {
    Bound {
        name: counted(b, 8, at8(b, 6) as int, at8(b, 7) % 2 == 1),
        state: state_of(at16(b, 4)),
        start: at32(b, 0),
    }
}

/// A sheet that the book announces.
pub struct SheetHead {
    pub name: String,
    pub state: &'static str,
    pub start: u64,
}

impl View for SheetHead {
    type V = Bound;

    open spec fn view(&self) -> Bound {
        Bound { name: self.name@, state: self.state@, start: self.start }
    }
}

pub open spec fn bounds(h: Seq<SheetHead>) -> Seq<Bound> {
    Seq::new(h.len(), |i: int| h[i]@)
}

fn read_bound(b: &[u8]) -> (r: SheetHead)
    ensures
        r@ == bound_of(b@),
{
    let flags: u64 = get16(b, 4) % 4;
    let state: &'static str = if flags == 0 {
        "visible"
    } else if flags == 1 {
        "hidden"
    } else if flags == 2 {
        "very-hidden"
    } else {
        "unknown"
    };
    let name: String = read_counted(b, 8, get8(b, 6) as usize, get8(b, 7) % 2 == 1);
    SheetHead { name, state, start: get32(b, 0) }
}

/// The sheets announced in the first `n` records.
pub open spec fn announced(rs: Seq<Rec>, n: int) -> Seq<Bound>
    decreases n,
{
    if n <= 0 {
        Seq::empty()
    } else if rs[n - 1].op == BOUNDSHEET {
        announced(rs, n - 1).push(bound_of(rs[n - 1].body))
    } else {
        announced(rs, n - 1)
    }
}

/// The last of the first `n` sheets whose records begin no later than `offset`.
pub open spec fn last_begun(h: Seq<Bound>, n: int, offset: int) -> Option<int>
    decreases n,
{
    if n <= 0 {
        None
    } else if h[n - 1].start <= offset {
        Some(n - 1)
    } else {
        last_begun(h, n - 1, offset)
    }
}

/// The last of the first `n` sheets of that name.
pub open spec fn last_called(h: Seq<Bound>, n: int, name: Seq<char>) -> Option<int>
    decreases n,
{
    if n <= 0 {
        None
    } else if h[n - 1].name == name {
        Some(n - 1)
    } else {
        last_called(h, n - 1, name)
    }
}

/// The sheet that record `i` lies in: the last one announced so far that begins no later.
pub open spec fn owner(rs: Seq<Rec>, i: int) -> Option<int> {
    let h = announced(rs, i);
    last_begun(h, h.len() as int, rs[i].offset)
}

/// The name of the sheet that record `i` lies in.
pub open spec fn owner_name(rs: Seq<Rec>, i: int) -> Option<Seq<char>> {
    match owner(rs, i) {
        Some(k) => Some(announced(rs, i)[k].name),
        None => None,
    }
}

/// The sheet that record `i` is put down to: the last one announced so far that has the name
/// of the sheet the record lies in.
pub open spec fn target(rs: Seq<Rec>, i: int) -> Option<int> {
    let h = announced(rs, i);
    match owner(rs, i) {
        Some(k) => last_called(h, h.len() as int, h[k].name),
        None => None,
    }
}

/// Where each record belongs.
pub struct Placement {
    pub sheets: Vec<SheetHead>,
    pub owners: Vec<Option<usize>>,
    pub targets: Vec<Option<usize>>,
}

pub open spec fn index_is(found: Option<usize>, want: Option<int>) -> bool {
    match found {
        Some(k) => want == Some(k as int),
        None => want is None,
    }
}

impl Placement {
    pub open spec fn describes(self, rs: Seq<Rec>) -> bool {
        &&& bounds(self.sheets@) == announced(rs, rs.len() as int)
        &&& self.owners@.len() == rs.len()
        &&& self.targets@.len() == rs.len()
        &&& forall|i: int| 0 <= i < rs.len() ==> index_is(#[trigger] self.owners@[i], owner(rs, i))
        &&& forall|i: int| 0 <= i < rs.len() ==> index_is(#[trigger] self.targets@[i], target(rs, i))
    }
}

fn find_begun(h: &Vec<SheetHead>, offset: usize) -> (r: Option<usize>)
    ensures
        index_is(r, last_begun(bounds(h@), h@.len() as int, offset as int)),
        r matches Some(k) ==> k < h@.len(),
{
    let mut n: usize = h.len();
    while n > 0
        invariant
            n <= h@.len(),
            last_begun(bounds(h@), h@.len() as int, offset as int) == last_begun(
                bounds(h@),
                n as int,
                offset as int,
            ),
        decreases n,
    {
        if h[n - 1].start <= offset as u64 {
            return Some(n - 1);
        }
        n -= 1;
    }
    None
}

fn find_called(h: &Vec<SheetHead>, name: &str) -> (r: Option<usize>)
    ensures
        index_is(r, last_called(bounds(h@), h@.len() as int, name@)),
{
    let mut n: usize = h.len();
    while n > 0
        invariant
            n <= h@.len(),
            last_called(bounds(h@), h@.len() as int, name@) == last_called(
                bounds(h@),
                n as int,
                name@,
            ),
        decreases n,
    {
        if same(h[n - 1].name.as_str(), name) {
            return Some(n - 1);
        }
        n -= 1;
    }
    None
}

/// Finds out which sheet each record belongs to.
pub fn place(records: &Vec<Record>) -> (r: Placement)
    ensures
        r.describes(recs(records@)),
{
    let ghost rs = recs(records@);
    let mut sheets: Vec<SheetHead> = Vec::new();
    let mut owners: Vec<Option<usize>> = Vec::new();
    let mut targets: Vec<Option<usize>> = Vec::new();
    let mut i: usize = 0;
    assert(bounds(sheets@) =~= announced(rs, 0));
    while i < records.len()
        invariant
            i <= records@.len(),
            rs == recs(records@),
            bounds(sheets@) == announced(rs, i as int),
            owners@.len() == i,
            targets@.len() == i,
            forall|k: int| 0 <= k < i ==> index_is(#[trigger] owners@[k], owner(rs, k)),
            forall|k: int| 0 <= k < i ==> index_is(#[trigger] targets@[k], target(rs, k)),
        decreases records@.len() - i,
    {
        let ghost before = bounds(sheets@);
        assert(rs[i as int] == records@[i as int]@);
        let own: Option<usize> = find_begun(&sheets, records[i].offset);
        let aim: Option<usize> = match own {
            Some(k) => {
                assert(before[k as int].name == sheets@[k as int].name@);
                find_called(&sheets, sheets[k].name.as_str())
            },
            None => None,
        };
        owners.push(own);
        targets.push(aim);
        if records[i].op == BOUNDSHEET {
            let one: SheetHead = read_bound(records[i].body.as_slice());
            sheets.push(one);
            assert(bounds(sheets@) =~= before.push(one@));
        }
        i += 1;
    }
    Placement { sheets, owners, targets }
}

/// Announcing more sheets changes none of those announced before.
pub proof fn lemma_announced(rs: Seq<Rec>, n: int, m: int)
    requires
        0 <= n <= m,
    ensures
        announced(rs, n).len() <= announced(rs, m).len(),
        announced(rs, n) == announced(rs, m).take(announced(rs, n).len() as int),
    decreases m,
{
    if n < m {
        lemma_announced(rs, n, m - 1);
        let k = announced(rs, n).len() as int;
        assert(announced(rs, m).take(k) =~= announced(rs, m - 1).take(k));
    } else {
        assert(announced(rs, n) =~= announced(rs, m).take(announced(rs, n).len() as int));
    }
}

proof fn lemma_last_begun(h: Seq<Bound>, n: int, offset: int)
    requires
        n <= h.len(),
    ensures
        last_begun(h, n, offset) matches Some(k) ==> 0 <= k < n && h[k].start <= offset
            && forall|j: int| k < j < n ==> h[j].start > offset,
        last_begun(h, n, offset) is None ==> forall|j: int| 0 <= j < n ==> h[j].start > offset,
    decreases n,
{
    if n > 0 && h[n - 1].start > offset {
        lemma_last_begun(h, n - 1, offset);
    }
}

proof fn lemma_last_called(h: Seq<Bound>, n: int, name: Seq<char>)
    requires
        n <= h.len(),
    ensures
        last_called(h, n, name) matches Some(k) ==> 0 <= k < n && h[k].name == name,
        last_called(h, n, name) is None ==> forall|j: int| 0 <= j < n ==> h[j].name != name,
    decreases n,
{
    if n > 0 && h[n - 1].name != name {
        lemma_last_called(h, n - 1, name);
    }
}

/// The sheet that a record lies in is one of the book's.
pub proof fn lemma_owner_known(rs: Seq<Rec>, i: int)
    requires
        0 <= i < rs.len(),
    ensures
        owner(rs, i) matches Some(k) ==> 0 <= k < announced(rs, i).len() <= announced(
            rs,
            rs.len() as int,
        ).len() && announced(rs, i)[k] == announced(rs, rs.len() as int)[k],
{
    let h = announced(rs, i);
    lemma_last_begun(h, h.len() as int, rs[i].offset);
    lemma_announced(rs, i, rs.len() as int);
    if let Some(k) = owner(rs, i) {
        assert(announced(rs, rs.len() as int).take(h.len() as int)[k] == h[k]);
    }
}

/// A record that lies in a sheet is put down to a sheet of that name, and one that lies in
/// none is put down to none.
pub proof fn law_target_has_the_owners_name(rs: Seq<Rec>, i: int)
    requires
        0 <= i < rs.len(),
    ensures
        target(rs, i) is Some <==> owner(rs, i) is Some,
        target(rs, i) matches Some(k) ==> 0 <= k < announced(rs, i).len() && Some(
            announced(rs, i)[k].name,
        ) == owner_name(rs, i),
{
    let h = announced(rs, i);
    lemma_last_begun(h, h.len() as int, rs[i].offset);
    if let Some(k) = owner(rs, i) {
        lemma_last_called(h, h.len() as int, h[k].name);
    }
}

/// A record lies in the last announced sheet that begins no later than the record.
pub proof fn law_owner_is_the_last_begun(rs: Seq<Rec>, i: int)
    requires
        0 <= i < rs.len(),
    ensures
        match owner(rs, i) {
            Some(k) => {
                &&& 0 <= k < announced(rs, i).len()
                &&& announced(rs, i)[k].start <= rs[i].offset
                &&& forall|j: int|
                    k < j < announced(rs, i).len() ==> (#[trigger] announced(rs, i)[j]).start
                        > rs[i].offset
            },
            None => forall|j: int|
                0 <= j < announced(rs, i).len() ==> (#[trigger] announced(rs, i)[j]).start
                    > rs[i].offset,
        },
{
    let h = announced(rs, i);
    lemma_last_begun(h, h.len() as int, rs[i].offset);
}

/// The first record of a stream is its number and its length in two bytes each and then that many
/// bytes, and the next record begins behind them. A record that claims more bytes than there are
/// is the last and has none.
pub proof fn law_records_follow_one_another(raw: Seq<u8>, at: int)
    requires
        0 <= at,
        at + 4 <= raw.len(),
    ensures
        ({
            let len = raw[at + 2] + 256 * raw[at + 3];
            let all = split_from(raw, at);
            &&& all.len() > 0
            &&& all[0].offset == at
            &&& all[0].op == raw[at] + 256 * raw[at + 1]
            &&& at + 4 + len <= raw.len() ==> all[0].body == raw.subrange(at + 4, at + 4 + len)
                && all.skip(1) == split_from(raw, at + 4 + len)
            &&& at + 4 + len > raw.len() ==> all[0].body.len() == 0 && all.len() == 1
        }),
        raw.len() < at + 8 && raw.len() >= at + 4 && raw[at + 2] == 0 && raw[at + 3] == 0
            ==> split_from(raw, at).len() == 1,
{
    let len = raw[at + 2] + 256 * raw[at + 3];
    let all = split_from(raw, at);
    if at + 4 + len <= raw.len() {
        assert(all.skip(1) =~= split_from(raw, at + 4 + len));
    }
}

/// A stream with no room for one more head has no further record.
pub proof fn law_a_head_needs_four_bytes(raw: Seq<u8>, at: int)
    requires
        at + 4 > raw.len(),
    ensures
        split_from(raw, at).len() == 0,
{
}

/// A sheet record says in its first four bytes where the records of the sheet begin, in the two low
/// bits of the fifth whether the sheet shows, in the seventh how many characters its name has and in
/// the lowest bit of the eighth how they are spelled.
pub proof fn law_a_sheet_record_is_its_bytes(b: Seq<u8>)
    requires
        b.len() >= 8,
    ensures
        ({
            let one = bound_of(b);
            let many = b[6] * (1 + b[7] % 2);
            &&& one.start == b[0] + 0x100 * b[1] + 0x1_0000 * b[2] + 0x100_0000 * b[3]
            &&& b[4] % 4 == 0 ==> one.state == "visible"@
            &&& b[4] % 4 == 1 ==> one.state == "hidden"@
            &&& b[4] % 4 == 2 ==> one.state == "very-hidden"@
            &&& b[4] % 4 == 3 ==> one.state == "unknown"@
            &&& 8 + many <= b.len() ==> one.name == spelling(
                b.subrange(8, 8 + many),
                b[7] % 2 == 1,
            )
        }),
{
    assert(b[6] * (1 + b[7] % 2) == if b[7] % 2 == 1 {
        2 * b[6]
    } else {
        b[6] as int
    }) by (nonlinear_arith);
}

/// Each record of number 0x0085 announces a sheet, in the order of the records, and no other record
/// does.
pub proof fn law_sheets_are_announced_in_order(rs: Seq<Rec>, n: int)
    requires
        0 <= n < rs.len(),
    ensures
        announced(rs, 0).len() == 0,
        rs[n].op == 0x0085 ==> announced(rs, n + 1) == announced(rs, n).push(bound_of(rs[n].body)),
        rs[n].op != 0x0085 ==> announced(rs, n + 1) == announced(rs, n),
{
}

/// A field that a record is too short for counts as nought.
pub proof fn law_missing_fields_are_nought(b: Seq<u8>, at: int)
    ensures
        at + 2 > b.len() ==> at16(b, at) == 0,
        at + 4 > b.len() ==> at32(b, at) == 0,
        at + 8 > b.len() ==> at64(b, at) == 0,
        at >= b.len() ==> at8(b, at) == 0,
        0 <= at < b.len() ==> at8(b, at) == b[at],
        0 <= at && at + 2 <= b.len() ==> at16(b, at) == b[at] + 0x100 * b[at + 1],
{
}

/// A record is put down to the last sheet announced before it that has the name of the sheet the
/// record lies in.
pub proof fn law_a_record_goes_to_the_last_sheet_of_its_name(rs: Seq<Rec>, i: int)
    requires
        0 <= i < rs.len(),
    ensures
        target(rs, i) matches Some(k) ==> {
            &&& owner(rs, i) is Some
            &&& owner(rs, i)->0 <= k
            &&& forall|j: int|
                k < j < announced(rs, i).len() ==> (#[trigger] announced(rs, i)[j]).name
                    != announced(rs, i)[k].name
        },
{
    let h = announced(rs, i);
    lemma_last_begun(h, h.len() as int, rs[i].offset);
    if let Some(k) = owner(rs, i) {
        lemma_last_called_last(h, h.len() as int, h[k].name);
    }
}

proof fn lemma_last_called_last(h: Seq<Bound>, n: int, name: Seq<char>)
    requires
        n <= h.len(),
    ensures
        last_called(h, n, name) matches Some(k) ==> 0 <= k < n && h[k].name == name && forall|j: int|
            k < j < n ==> (#[trigger] h[j]).name != name,
        last_called(h, n, name) is None ==> forall|j: int|
            0 <= j < n ==> (#[trigger] h[j]).name != name,
    decreases n,
{
    if n > 0 && h[n - 1].name != name {
        lemma_last_called_last(h, n - 1, name);
    }
}

/// The numbers of the records that a book is made of.
pub proof fn law_records_have_their_numbers()
    ensures
        BOF == 2057,
        BOUNDSHEET == 133,
        SST == 252,
        CONTINUE == 60,
        LABELSST == 253,
        NUMBER == 515,
        RK == 638,
        MUL_RK == 189,
        LABEL == 516,
        FORMULA == 6,
        PROTECT == 18,
        PASSWORD == 19,
        SCENPROTECT == 221,
        XF == 224,
        FORMAT == 1054,
        DATEMODE == 34,
        ROW == 520,
        COLINFO == 2000,
        COLINFO_OLD == 125,
        NOTE_TEXT == 438,
        NOTE_CELL == 28,
        HLINK == 440,
        HLINK_COUNT == 439,
        SHAPE == 93,
        DRAWING == 236,
        DRAWING_GROUP == 235,
        TOBJ_PICTURE == 8,
{
}

} // verus!
