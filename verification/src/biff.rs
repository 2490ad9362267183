//! Workbook streams of `.xls` files: the sheets, the shared strings, the cells and what each
//! sheet says about itself.
//!
//! The sheets of a book are no streams of their own. The book is one stream of records, and
//! each sheet states at which byte of it its own records begin.

use crate::cfb::Cfb;
use crate::lists::joined;
use crate::numfmt::{builtin, builtin_code, judged_code, kind_of, Kind};
use crate::text::{text_map, texts};
use crate::written::text_in;
use std::collections::BTreeMap;
use vstd::prelude::*;

pub mod art;
pub mod cells;
pub mod link;
pub mod records;
pub mod sheet;
pub mod sst;

pub use art::{officeart_blips, Blip};
pub use cells::{decode_rk, Cell, Number};
pub use link::Link;
pub use sheet::{Comment, Sheet};
pub use sst::shared_strings;

use art::{all_described, blips_in, BlipModel};
use cells::{cell_models, read_cells, Content};
use records::{
    announced, at16, at8, counted, get16, get8, place, read_counted, recs, split, split_from, Rec,
    Record, BOF, DATEMODE, DRAWING_GROUP, FORMAT, HLINK_COUNT, XF,
};
use sheet::read_sheet;

verus! {

/// What record `i` says as the beginning of a part: version and type.
pub open spec fn bofs_at(rs: Seq<Rec>, i: int) -> Seq<(u64, u64)> {
    if rs[i].op == BOF {
        seq![(at16(rs[i].body, 0), at16(rs[i].body, 2))]
    } else {
        Seq::empty()
    }
}

pub open spec fn bof_list(rs: Seq<Rec>) -> spec_fn(int) -> Seq<(u64, u64)> {
    |i: int| bofs_at(rs, i)
}

/// The format number that record `i` adds to the list that cells go by.
pub open spec fn xfs_at(rs: Seq<Rec>, i: int) -> Seq<u64> {
    if rs[i].op == XF && rs[i].body.len() >= 4 {
        seq![at16(rs[i].body, 2)]
    } else {
        Seq::empty()
    }
}

pub open spec fn xf_list(rs: Seq<Rec>) -> spec_fn(int) -> Seq<u64> {
    |i: int| xfs_at(rs, i)
}

/// The number that record `i` states about links.
pub open spec fn link_counts_at(rs: Seq<Rec>, i: int) -> Seq<u64> {
    if rs[i].op == HLINK_COUNT {
        seq![at16(rs[i].body, 0)]
    } else {
        Seq::empty()
    }
}

pub open spec fn link_count_list(rs: Seq<Rec>) -> spec_fn(int) -> Seq<u64> {
    |i: int| link_counts_at(rs, i)
}

/// Where record `i` lies and how long it is, if it is drawing data of the whole book.
pub open spec fn groups_at(rs: Seq<Rec>, i: int) -> Seq<(int, int)> {
    if rs[i].op == DRAWING_GROUP {
        seq![(rs[i].offset, rs[i].body.len() as int)]
    } else {
        Seq::empty()
    }
}

pub open spec fn group_list(rs: Seq<Rec>) -> spec_fn(int) -> Seq<(int, int)> {
    |i: int| groups_at(rs, i)
}

/// The pictures that record `i` holds.
pub open spec fn blips_at(rs: Seq<Rec>, i: int) -> Seq<BlipModel> {
    if rs[i].op == DRAWING_GROUP {
        blips_in(rs[i].body, rs[i].offset + 4, 0, 0)
    } else {
        Seq::empty()
    }
}

pub open spec fn blip_list(rs: Seq<Rec>) -> spec_fn(int) -> Seq<BlipModel> {
    |i: int| blips_at(rs, i)
}

/// The format codes that the first `n` records give. A later one of a number replaces an
/// earlier one.
pub open spec fn formats_of(rs: Seq<Rec>, n: int) -> Map<u64, Seq<char>>
    decreases n,
{
    if n <= 0 {
        Map::empty()
    } else {
        let before = formats_of(rs, n - 1);
        let b = rs[n - 1].body;
        if rs[n - 1].op == FORMAT && b.len() >= 2 {
            before.insert(
                at16(b, 0),
                counted(b, 5, at16(b, 2) as int, at8(b, 4) % 2 == 1),
            )
        } else {
            before
        }
    }
}

/// Which basis the first `n` records state for dates, if they do.
pub open spec fn date_basis(rs: Seq<Rec>, n: int) -> Option<bool>
    decreases n,
{
    if n <= 0 {
        None
    } else if rs[n - 1].op == DATEMODE {
        Some(at16(rs[n - 1].body, 0) == 1)
    } else {
        date_basis(rs, n - 1)
    }
}

/// The pairs are the same numbers.
pub open spec fn pairs_are(v: Seq<(usize, usize)>, m: Seq<(int, int)>) -> bool {
    v.len() == m.len() && forall|i: int|
        0 <= i < v.len() ==> (#[trigger] v[i]).0 == m[i].0 && v[i].1 == m[i].1
}

/// A workbook.
#[derive(Debug)]
pub struct Book {
    pub records: usize,
    pub bofs: Vec<(u64, u64)>,
    pub sheets: Vec<Sheet>,
    pub strings: Vec<String>,
    pub cells: Vec<Cell>,
    pub formula_cells: usize,
    /// The format numbers that cells go by, in record order.
    pub xfs: Vec<u64>,
    /// The format codes that the file writes. Built-in numbers have none here.
    pub formats: BTreeMap<u64, String>,
    /// Whether dates count from 1904, if the file says.
    pub date1904: Option<bool>,
    pub link_counts: Vec<u64>,
    pub notes: Vec<String>,
    pub drawing_groups: Vec<(usize, usize)>,
    pub blips: Vec<Blip>,
}

impl Book {
    /// The book is what the records say.
    pub open spec fn describes(self, rs: Seq<Rec>) -> bool {
        let n = rs.len() as int;
        &&& self.records == n
        &&& self.bofs@ == joined(bof_list(rs), n)
        &&& self.sheets@.len() == announced(rs, n).len()
        &&& forall|k: int|
            0 <= k < self.sheets@.len() ==> (#[trigger] self.sheets@[k]).describes(rs, k)
        &&& texts(self.strings@) == cells::known_strings(rs, n)
        &&& cell_models(self.cells@) == joined(cells::cell_list(rs), n)
        &&& self.formula_cells == cells::formulas(rs, n)
        &&& self.xfs@ == joined(xf_list(rs), n)
        &&& text_map(self.formats@) == formats_of(rs, n)
        &&& self.date1904 == date_basis(rs, n)
        &&& self.link_counts@ == joined(link_count_list(rs), n)
        &&& texts(self.notes@) == joined(cells::note_list(rs), n)
        &&& pairs_are(self.drawing_groups@, joined(group_list(rs), n))
        &&& all_described(self.blips@, joined(blip_list(rs), n))
    }
}

/// The stream of a workbook: the one called `Workbook`, or else the one called `Book`.
pub open spec fn book_stream(cfb: Cfb, b: Seq<u8>) -> Option<Seq<u8>> {
    let first = named_stream(cfb, b, "Workbook"@);
    if first is Some {
        first
    } else {
        named_stream(cfb, b, "Book"@)
    }
}

/// The bytes of the stream of that name.
pub open spec fn named_stream(cfb: Cfb, b: Seq<u8>, name: Seq<char>) -> Option<Seq<u8>> {
    match cfb.found(name) {
        Some(i) => cfb.stream_of(b, cfb.entries@[i]),
        None => None,
    }
}

/// Reads the lists of the book that do not go by sheet: parts, formats and link numbers.
fn read_lists(records: &Vec<Record>) -> (r: (Vec<(u64, u64)>, Vec<u64>, Vec<u64>))
    ensures
        r.0@ == joined(bof_list(recs(records@)), records@.len() as int),
        r.1@ == joined(xf_list(recs(records@)), records@.len() as int),
        r.2@ == joined(link_count_list(recs(records@)), records@.len() as int),
{
    let ghost rs = recs(records@);
    let mut bofs: Vec<(u64, u64)> = Vec::new();
    let mut xfs: Vec<u64> = Vec::new();
    let mut counts: Vec<u64> = Vec::new();
    let mut i: usize = 0;
    while i < records.len()
        invariant
            i <= records@.len(),
            rs == recs(records@),
            bofs@ == joined(bof_list(rs), i as int),
            xfs@ == joined(xf_list(rs), i as int),
            counts@ == joined(link_count_list(rs), i as int),
        decreases records@.len() - i,
    {
        assert(rs[i as int] == records@[i as int]@);
        let ghost had = (bofs@, xfs@, counts@);
        let op: u64 = records[i].op;
        let body: &[u8] = records[i].body.as_slice();
        if op == BOF {
            bofs.push((get16(body, 0), get16(body, 2)));
        } else if op == XF && body.len() >= 4 {
            xfs.push(get16(body, 2));
        } else if op == HLINK_COUNT {
            counts.push(get16(body, 0));
        }
        assert(bofs@ =~= had.0 + bofs_at(rs, i as int));
        assert(xfs@ =~= had.1 + xfs_at(rs, i as int));
        assert(counts@ =~= had.2 + link_counts_at(rs, i as int));
        i += 1;
    }
    (bofs, xfs, counts)
}

/// Reads the format codes and the basis of dates.
fn read_formats(records: &Vec<Record>) -> (r: (BTreeMap<u64, String>, Option<bool>))
    ensures
        text_map(r.0@) == formats_of(recs(records@), records@.len() as int),
        r.1 == date_basis(recs(records@), records@.len() as int),
{
    broadcast use vstd::std_specs::btree::group_btree_axioms;

    let ghost rs = recs(records@);
    let mut formats: BTreeMap<u64, String> = BTreeMap::new();
    let mut basis: Option<bool> = None;
    let mut i: usize = 0;
    assert(text_map(formats@) =~= formats_of(rs, 0));
    while i < records.len()
        invariant
            i <= records@.len(),
            rs == recs(records@),
            text_map(formats@) == formats_of(rs, i as int),
            basis == date_basis(rs, i as int),
        decreases records@.len() - i,
    {
        assert(rs[i as int] == records@[i as int]@);
        let ghost had = formats@;
        let op: u64 = records[i].op;
        let body: &[u8] = records[i].body.as_slice();
        if op == FORMAT && body.len() >= 2 {
            let id: u64 = get16(body, 0);
            let code: String = read_counted(
                body,
                5,
                get16(body, 2) as usize,
                get8(body, 4) % 2 == 1,
            );
            formats.insert(id, code);
            assert(text_map(formats@) =~= text_map(had).insert(id, code@));
        } else if op == DATEMODE {
            basis = Some(get16(body, 0) == 1);
        }
        i += 1;
    }
    (formats, basis)
}

/// Reads the drawing data of the whole book.
fn read_drawings(records: &Vec<Record>) -> (r: (Vec<(usize, usize)>, Vec<Blip>))
    requires
        forall|i: int|
            0 <= i < records@.len() ==> (#[trigger] records@[i]).offset + 4
                + records@[i].body@.len() <= usize::MAX,
    ensures
        pairs_are(r.0@, joined(group_list(recs(records@)), records@.len() as int)),
        all_described(r.1@, joined(blip_list(recs(records@)), records@.len() as int)),
{
    let ghost rs = recs(records@);
    let mut groups: Vec<(usize, usize)> = Vec::new();
    let mut blips: Vec<Blip> = Vec::new();
    let mut i: usize = 0;
    while i < records.len()
        invariant
            i <= records@.len(),
            rs == recs(records@),
            forall|k: int|
                0 <= k < records@.len() ==> (#[trigger] records@[k]).offset + 4
                    + records@[k].body@.len() <= usize::MAX,
            pairs_are(groups@, joined(group_list(rs), i as int)),
            all_described(blips@, joined(blip_list(rs), i as int)),
        decreases records@.len() - i,
    {
        assert(rs[i as int] == records@[i as int]@);
        let ghost had = blips@;
        let ghost known = joined(blip_list(rs), i as int);
        let ghost pairs = joined(group_list(rs), i as int);
        if records[i].op == DRAWING_GROUP {
            groups.push((records[i].offset, records[i].body.len()));
            officeart_blips(
                records[i].body.as_slice(),
                records[i].offset + 4,
                0,
                &mut blips,
            );
            proof {
                let more = blips_at(rs, i as int);
                assert forall|k: int| 0 <= k < blips@.len() implies (
                #[trigger] blips@[k]).describes((known + more)[k]) by {
                    if k < had.len() {
                        assert(blips@.take(had.len() as int)[k] == had[k]);
                    } else {
                        assert(blips@.skip(had.len() as int)[k - had.len()] == blips@[k]);
                    }
                }
            }
        }
        i += 1;
        assert(joined(blip_list(rs), i as int) == known + blips_at(rs, i - 1));
        assert(joined(group_list(rs), i as int) == pairs + groups_at(rs, i - 1));
    }
    (groups, blips)
}

/// Reads the workbook in a compound file.
pub fn read(cfb: &Cfb, bytes: &[u8]) -> (r: Result<Book, String>)
    ensures
        match r {
            Ok(book) => {
                &&& book_stream(*cfb, bytes@) is Some
                &&& book.describes(split_from(book_stream(*cfb, bytes@)->0, 0))
            },
            Err(why) => book_stream(*cfb, bytes@) is None && why@
                == "容器里既没有 Workbook 也没有 Book 流"@,
        },
{
    let raw: Vec<u8> = match cfb.read(bytes, "Workbook") {
        Some(raw) => raw,
        None => match cfb.read(bytes, "Book") {
            Some(raw) => raw,
            None => {
                return Err("容器里既没有 Workbook 也没有 Book 流".to_owned());
            },
        },
    };
    let size: usize = raw.len();
    let records: Vec<Record> = split(&raw);
    let ghost rs = recs(records@);
    let places: records::Placement = place(&records);
    let content: Content = read_cells(&records, &places);
    let mut sheets: Vec<Sheet> = Vec::new();
    let mut k: usize = 0;
    while k < places.sheets.len()
        invariant
            k <= places.sheets@.len(),
            rs == recs(records@),
            places.describes(rs),
            sheets@.len() == k,
            forall|j: int| 0 <= j < k ==> (#[trigger] sheets@[j]).describes(rs, j),
        decreases places.sheets@.len() - k,
    {
        sheets.push(read_sheet(&records, &places, k));
        k += 1;
    }
    assert(announced(rs, rs.len() as int).len() == places.sheets@.len());
    let (bofs, xfs, link_counts) = read_lists(&records);
    let (formats, date1904) = read_formats(&records);
    let (drawing_groups, blips) = read_drawings(&records);
    Ok(
        Book {
            records: records.len(),
            bofs,
            sheets,
            strings: content.strings,
            cells: content.cells,
            formula_cells: content.formula_cells,
            xfs,
            formats,
            date1904,
            link_counts,
            notes: content.notes,
            drawing_groups,
            blips,
        },
    )
}

/// What goes into the date field of a cell.
#[derive(Debug, Clone, Copy, PartialEq, Eq, Structural)]
pub enum AsDate {
    /// The format shows no date, so there is no such field.
    Absent,
    /// The format shows a date, but there is no number or no basis to reckon it from.
    Empty,
    Serial { number: Number, year1904: bool },
}

/// How a cell is formatted.
#[derive(Debug, Clone)]
pub struct CellFormat {
    pub num_fmt: u64,
    pub format: Option<String>,
    pub format_kind: &'static str,
    pub style: Option<u64>,
    pub as_date: AsDate,
}

/// What a cell shows.
#[derive(Debug, Clone)]
pub enum Shown {
    Text(String),
    Nothing,
    /// The number as a date.
    Date { number: Number, year1904: bool },
    /// The number as it is.
    Plain(Number),
}

impl Book {
    /// The format number of a cell: the one at its place in the list.
    pub open spec fn number_format(self, one: Cell) -> Option<u64> {
        match one.ixfe {
            Some(i) => if i < self.xfs@.len() {
                Some(self.xfs@[i as int])
            } else {
                None
            },
            None => None,
        }
    }

    /// The code of a format number: the file's own, or else the built-in one.
    pub open spec fn code_of(self, id: u64) -> Option<Seq<char>> {
        if self.formats@.contains_key(id) {
            Some(self.formats@[id]@)
        } else {
            builtin(id)
        }
    }

    /// The format of a cell shows a day or a time of day.
    pub open spec fn shows_date(self, one: Cell) -> bool {
        match self.number_format(one) {
            Some(id) => judged_code(self.code_of(id)).temporal(),
            None => false,
        }
    }

    /// What goes into the date field of a cell.
    pub open spec fn date_field(self, one: Cell) -> AsDate {
        if !self.shows_date(one) {
            AsDate::Absent
        } else {
            match (one.number, self.date1904) {
                (Some(number), Some(year1904)) => AsDate::Serial { number, year1904 },
                _ => AsDate::Empty,
            }
        }
    }

    /// The format number of a cell and the code that the file writes for it.
    pub fn format_of(&self, one: &Cell) -> (r: Option<(u64, Option<&String>)>)
        ensures
            match r {
                Some((id, code)) => {
                    &&& self.number_format(*one) == Some(id)
                    &&& code is Some <==> self.formats@.contains_key(id)
                    &&& code matches Some(c) ==> *c == self.formats@[id]
                },
                None => self.number_format(*one) is None,
            },
    {
        broadcast use vstd::std_specs::btree::group_btree_axioms;

        match one.ixfe {
            Some(i) => {
                if i >= self.xfs.len() as u64 {
                    return None;
                }
                let id: u64 = self.xfs[i as usize];
                Some((id, self.formats.get(&id)))
            },
            None => None,
        }
    }

    /// The format number of a cell and its code.
    fn code_for(&self, one: &Cell) -> (r: Option<(u64, Option<String>)>)
        ensures
            match r {
                Some((id, code)) => self.number_format(*one) == Some(id) && text_in(code)
                    == self.code_of(id),
                None => self.number_format(*one) is None,
            },
    {
        match self.format_of(one) {
            Some((id, Some(code))) => Some((id, Some(code.clone()))),
            Some((id, None)) => match builtin_code(id) {
                Some(code) => Some((id, Some(code.to_owned()))),
                None => Some((id, None)),
            },
            None => None,
        }
    }

    /// How a cell is formatted. Whether a cell is text is for its record to say, not for its
    /// format.
    pub fn cell_format(&self, one: &Cell) -> (r: Option<CellFormat>)
        ensures
            match r {
                Some(f) => {
                    let kind = judged_code(self.code_of(f.num_fmt));
                    &&& self.number_format(*one) == Some(f.num_fmt)
                    &&& text_in(f.format) == self.code_of(f.num_fmt)
                    &&& f.format_kind@ == if one.text is Some { "text"@ } else { kind.name() }
                    &&& f.style == one.ixfe
                    &&& f.as_date == self.date_field(*one)
                },
                None => self.number_format(*one) is None,
            },
    {
        let (num_fmt, format) = match self.code_for(one) {
            Some(found) => found,
            None => {
                return None;
            },
        };
        let kind: Kind = match &format {
            Some(code) => kind_of(code.as_str()),
            None => Kind::Unknown,
        };
        let format_kind: &'static str = match one.text {
            Some(_) => "text",
            None => kind.as_str(),
        };
        let as_date: AsDate = if kind.is_temporal() {
            match (one.number, self.date1904) {
                (Some(number), Some(year1904)) => AsDate::Serial { number, year1904 },
                _ => AsDate::Empty,
            }
        } else {
            AsDate::Absent
        };
        Some(CellFormat { num_fmt, format, format_kind, style: one.ixfe, as_date })
    }

    /// What a cell shows: its text, or its number, as a date where its format shows one and the
    /// file says from when dates count.
    pub fn shown(&self, one: &Cell) -> (r: Shown)
        ensures
            match r {
                Shown::Text(t) => text_in(one.text) == Some(t@),
                Shown::Nothing => one.text is None && one.number is None,
                Shown::Date { number, year1904 } => one.text is None && self.date_field(*one)
                    == (AsDate::Serial { number, year1904 }),
                Shown::Plain(number) => one.text is None && one.number == Some(number)
                    && !(self.date_field(*one) is Serial),
            },
    {
        match &one.text {
            Some(t) => {
                return Shown::Text(t.clone());
            },
            None => {},
        }
        let number: Number = match one.number {
            Some(number) => number,
            None => {
                return Shown::Nothing;
            },
        };
        if let Some((_, Some(code))) = self.code_for(one) {
            if kind_of(code.as_str()).is_temporal() {
                if let Some(year1904) = self.date1904 {
                    return Shown::Date { number, year1904 };
                }
            }
        }
        Shown::Plain(number)
    }
}

/// A number record is a cell whose value is the double in its bytes 6 to 13, as it is: never
/// divided by a hundred. The row, the column and the format stand in the bytes before it.
#[verifier::spinoff_prover]
#[verifier::rlimit(40)]
pub proof fn law_a_stored_double_is_not_scaled(book: Book, rs: Seq<Rec>, i: int)
    requires
        book.describes(rs),
        0 <= i < rs.len(),
        rs[i].op == 0x0203,
        rs[i].body.len() >= 14,
    ensures
        ({
            let b = rs[i].body;
            let k = cells::cells_before(rs, i);
            &&& 0 <= k < book.cells@.len()
            &&& book.cells@[k].kind@ == "number"@
            &&& book.cells@[k].text is None
            &&& book.cells@[k].row == b[0] + 256 * b[1]
            &&& book.cells@[k].col == b[2] + 256 * b[3]
            &&& book.cells@[k].ixfe is Some
            &&& book.cells@[k].ixfe->0 == b[4] + 256 * b[5]
            &&& book.cells@[k].number matches Some(Number::Real { bits, hundredth })
            &&& !hundredth
            &&& bits == b[6] + 0x100 * b[7] + 0x1_0000 * b[8] + 0x100_0000 * b[9] + 0x1_0000_0000
                * b[10] + 0x100_0000_0000 * b[11] + 0x1_0000_0000_0000 * b[12]
                + 0x100_0000_0000_0000 * b[13]
        }),
{
    lemma_cell_of(book, rs, i, 0);
}

/// A packed number: a record of one, or one of a record of several. Its lowest bit says that it
/// is to be divided by a hundred, and its next bit that it is a whole number: four times that
/// number and the two bits are the packed number, read with a sign. Without that bit it is the
/// upper half of a double whose lower half is zero.
pub open spec fn unpacks(number: Option<Number>, a: u8, b: u8, c: u8, d: u8) -> bool {
    let packed = a + 0x100 * b + 0x1_0000 * c + 0x100_0000 * d;
    match number {
        Some(Number::Real { bits, hundredth }) => {
            &&& a % 4 < 2
            &&& hundredth == (a % 2 == 1)
            &&& bits == packed * 0x1_0000_0000
        },
        Some(Number::Whole { value, hundredth }) => {
            &&& a % 4 >= 2
            &&& hundredth == (a % 2 == 1)
            &&& 4 * value + a % 4 == packed - if d >= 128 {
                0x1_0000_0000
            } else {
                0int
            }
        },
        None => false,
    }
}

/// A packed number is divided by a hundred exactly where its lowest bit says so, and is a whole
/// number exactly where its next bit does.
#[verifier::spinoff_prover]
#[verifier::rlimit(40)]
pub proof fn law_packed_numbers_keep_their_flags(book: Book, rs: Seq<Rec>, i: int)
    requires
        book.describes(rs),
        0 <= i < rs.len(),
        rs[i].op == 0x027E,
        rs[i].body.len() >= 10,
    ensures
        ({
            let b = rs[i].body;
            let k = cells::cells_before(rs, i);
            &&& 0 <= k < book.cells@.len()
            &&& book.cells@[k].kind@ == "rk"@
            &&& book.cells@[k].text is None
            &&& book.cells@[k].row == b[0] + 256 * b[1]
            &&& book.cells@[k].col == b[2] + 256 * b[3]
            &&& book.cells@[k].ixfe is Some
            &&& book.cells@[k].ixfe->0 == b[4] + 256 * b[5]
            &&& unpacks(book.cells@[k].number, b[6], b[7], b[8], b[9])
        }),
{
    lemma_cell_of(book, rs, i, 0);
    lemma_unpacks(rs[i].body, 6);
    let one = book.cells@[cells::cells_before(rs, i)];
    assert(one.number == one@.number);
}

/// A record of several numbers is one cell for each, side by side in one row: each has its format
/// in two bytes and its packed number in the four behind them.
#[verifier::spinoff_prover]
#[verifier::rlimit(40)]
pub proof fn law_a_run_fills_one_row(book: Book, rs: Seq<Rec>, i: int, j: int)
    requires
        book.describes(rs),
        0 <= i < rs.len(),
        rs[i].op == 0x00BD,
        0 <= j,
        6 + 6 * (j + 1) <= rs[i].body.len(),
    ensures
        ({
            let b = rs[i].body;
            let k = cells::cells_before(rs, i) + j;
            &&& 0 <= k < book.cells@.len()
            &&& book.cells@[k].kind@ == "mulrk"@
            &&& book.cells@[k].text is None
            &&& book.cells@[k].row == b[0] + 256 * b[1]
            &&& b[2] + 256 * b[3] + j < 0x1_0000_0000 ==> book.cells@[k].col == b[2] + 256 * b[3]
                + j
            &&& book.cells@[k].ixfe is Some
            &&& book.cells@[k].ixfe->0 == b[4 + 6 * j] + 256 * b[5 + 6 * j]
            &&& unpacks(
                book.cells@[k].number,
                b[6 + 6 * j],
                b[7 + 6 * j],
                b[8 + 6 * j],
                b[9 + 6 * j],
            )
        }),
{
    lemma_cell_of(book, rs, i, j);
    lemma_unpacks(rs[i].body, 6 + 6 * j);
    let one = book.cells@[cells::cells_before(rs, i) + j];
    assert(cells::cells_at(rs, i)[j] == cells::run_cell(rs, i, j));
    assert(one@.number == cells::run_cell(rs, i, j).number);
    assert(one.number == one@.number);
}

proof fn lemma_unpacks(b: Seq<u8>, at: int)
    requires
        0 <= at,
        at + 4 <= b.len(),
    ensures
        unpacks(
            Some(cells::rk_number(records::at32(b, at) as u32)),
            b[at],
            b[at + 1],
            b[at + 2],
            b[at + 3],
        ),
{
}

/// A record that points into the shared strings is the text of that number, counted from zero, of
/// the strings known so far, and no text where there is none of that number.
pub proof fn law_a_cell_has_the_string_it_points_at(book: Book, rs: Seq<Rec>, i: int)
    requires
        book.describes(rs),
        0 <= i < rs.len(),
        rs[i].op == 0x00FD,
        rs[i].body.len() >= 10,
    ensures
        ({
            let b = rs[i].body;
            let k = cells::cells_before(rs, i);
            let which = b[6] + 0x100 * b[7] + 0x1_0000 * b[8] + 0x100_0000 * b[9];
            let known = cells::known_strings(rs, i);
            &&& 0 <= k < book.cells@.len()
            &&& book.cells@[k].kind@ == "sst"@
            &&& book.cells@[k].number is None
            &&& book.cells@[k].row == b[0] + 256 * b[1]
            &&& book.cells@[k].col == b[2] + 256 * b[3]
            &&& book.cells@[k].ixfe is Some
            &&& book.cells@[k].ixfe->0 == b[4] + 256 * b[5]
            &&& book.cells@[k].text is Some <==> which < known.len()
            &&& which < known.len() ==> book.cells@[k].text->0@ == known[which]
        }),
{
    lemma_cell_of(book, rs, i, 0);
}

/// A text record is its own text: as many characters as the number in its bytes 6 and 7 says, in
/// two bytes each where the lowest bit of byte 8 is set and in one byte each otherwise. A formula
/// is a cell without text and number.
pub proof fn law_labels_and_formulas_are_cells(book: Book, rs: Seq<Rec>, i: int)
    requires
        book.describes(rs),
        0 <= i < rs.len(),
        rs[i].op == 0x0204 || rs[i].op == 0x0006,
        rs[i].body.len() >= 9,
    ensures
        ({
            let b = rs[i].body;
            let k = cells::cells_before(rs, i);
            let many = (b[6] + 256 * b[7]) * (1 + b[8] % 2);
            &&& 0 <= k < book.cells@.len()
            &&& book.cells@[k].number is None
            &&& book.cells@[k].row == b[0] + 256 * b[1]
            &&& book.cells@[k].col == b[2] + 256 * b[3]
            &&& book.cells@[k].ixfe is Some
            &&& book.cells@[k].ixfe->0 == b[4] + 256 * b[5]
            &&& rs[i].op == 0x0006 ==> book.cells@[k].kind@ == "formula"@
                && book.cells@[k].text is None
            &&& rs[i].op == 0x0204 ==> book.cells@[k].kind@ == "label"@
                && book.cells@[k].text is Some
            &&& rs[i].op == 0x0204 && 9 + many <= b.len() ==> book.cells@[k].text->0@
                == sst::spelling(b.subrange(9, 9 + many), b[8] % 2 == 1)
        }),
{
    lemma_cell_of(book, rs, i, 0);
    let b = rs[i].body;
    let n = b[6] + 256 * b[7];
    assert(n * (1 + b[8] % 2) == if b[8] % 2 == 1 { 2 * n } else { n }) by (nonlinear_arith);
}

/// The book has no other cells: as many as its records hold, each with the name of the sheet that
/// its record lies in.
pub proof fn law_every_cell_comes_from_a_record(book: Book, rs: Seq<Rec>)
    requires
        book.describes(rs),
    ensures
        book.cells@.len() == cells::cells_before(rs, rs.len() as int),
        forall|i: int, k: int|
            0 <= i < rs.len() && cells::cells_before(rs, i) <= k < cells::cells_before(rs, i + 1)
                ==> text_in((#[trigger] book.cells@[k]).sheet) == #[trigger] records::owner_name(
                rs,
                i,
            ),
{
    if rs.len() > 0 {
        cells::lemma_cells_in_order(rs, 0, rs.len() as int);
    }
    assert(cell_models(book.cells@).len() == book.cells@.len());
    assert forall|i: int, k: int|
        0 <= i < rs.len() && cells::cells_before(rs, i) <= k < cells::cells_before(
            rs,
            i + 1,
        ) implies text_in((#[trigger] book.cells@[k]).sheet) == #[trigger] records::owner_name(
        rs,
        i,
    ) by {
        lemma_cell_of(book, rs, i, k - cells::cells_before(rs, i));
    }
}

proof fn lemma_cell_of(book: Book, rs: Seq<Rec>, i: int, j: int)
    requires
        book.describes(rs),
        0 <= i < rs.len(),
        0 <= j < cells::cells_at(rs, i).len(),
    ensures
        0 <= cells::cells_before(rs, i) + j < book.cells@.len(),
        book.cells@[cells::cells_before(rs, i) + j]@ == cells::cells_at(rs, i)[j],
{
    let n = rs.len() as int;
    let k = cells::cells_before(rs, i);
    cells::lemma_cells_in_order(rs, i, n);
    assert(cell_models(book.cells@).len() == book.cells@.len());
    let part = joined(cells::cell_list(rs), n).subrange(k, cells::cells_before(rs, i + 1));
    assert(part[j] == cells::cells_at(rs, i)[j]);
    assert(cell_models(book.cells@)[k + j] == book.cells@[k + j]@);
}

/// What is listed of the whole book: each beginning of a part with its version and its type, each
/// format entry with the number in its bytes 2 and 3, each number stated about links, and where each
/// drawing of the whole book lies and how long it is.
pub proof fn law_what_records_add_to_the_lists(rs: Seq<Rec>, i: int)
    requires
        0 <= i < rs.len(),
        rs[i].body.len() >= 4,
    ensures
        ({
            let b = rs[i].body;
            &&& rs[i].op == 0x0809 ==> bofs_at(rs, i).len() == 1 && bofs_at(rs, i)[0].0 == b[0] + 256
                * b[1] && bofs_at(rs, i)[0].1 == b[2] + 256 * b[3]
            &&& rs[i].op == 0x00E0 ==> xfs_at(rs, i).len() == 1 && xfs_at(rs, i)[0] == b[2] + 256
                * b[3]
            &&& rs[i].op == 0x01B7 ==> link_counts_at(rs, i).len() == 1 && link_counts_at(rs, i)[0]
                == b[0] + 256 * b[1]
            &&& rs[i].op == 0x00EB ==> groups_at(rs, i) == seq![(rs[i].offset, b.len() as int)]
            &&& rs[i].op == 0x00EB ==> blips_at(rs, i) == blips_in(b, rs[i].offset + 4, 0, 0)
            &&& rs[i].op != 0x0809 ==> bofs_at(rs, i).len() == 0
            &&& rs[i].op != 0x00E0 ==> xfs_at(rs, i).len() == 0
            &&& rs[i].op != 0x01B7 ==> link_counts_at(rs, i).len() == 0
            &&& rs[i].op != 0x00EB ==> groups_at(rs, i).len() == 0 && blips_at(rs, i).len() == 0
        }),
{
}

/// The code of a format number is the one that the last record of that number gives: as many
/// characters as its bytes 2 and 3 say, spelled as the lowest bit of byte 4 says.
pub proof fn law_the_last_code_of_a_number_counts(book: Book, rs: Seq<Rec>, i: int)
    requires
        book.describes(rs),
        0 <= i < rs.len(),
        rs[i].op == 0x041E,
        rs[i].body.len() >= 5,
        forall|j: int|
            i < j < rs.len() ==> (#[trigger] rs[j]).op != 0x041E || rs[j].body.len() < 2 || at16(
                rs[j].body,
                0,
            ) != at16(rs[i].body, 0),
    ensures
        ({
            let b = rs[i].body;
            let id = (b[0] + 256 * b[1]) as u64;
            let many = (b[2] + 256 * b[3]) * (1 + b[4] % 2);
            &&& book.formats@.contains_key(id)
            &&& 5 + many <= b.len() ==> book.formats@[id]@ == sst::spelling(
                b.subrange(5, 5 + many),
                b[4] % 2 == 1,
            )
        }),
{
    let b = rs[i].body;
    let n = b[2] + 256 * b[3];
    lemma_code_kept(rs, i, rs.len() as int);
    let id = at16(b, 0);
    assert(text_map(book.formats@).contains_key(id));
    assert(text_map(book.formats@)[id] == book.formats@[id]@);
    assert(n * (1 + b[4] % 2) == if b[4] % 2 == 1 {
        2 * n
    } else {
        n
    }) by (nonlinear_arith);
}

proof fn lemma_code_kept(rs: Seq<Rec>, i: int, n: int)
    requires
        0 <= i < n <= rs.len(),
        rs[i].op == 0x041E,
        rs[i].body.len() >= 2,
        forall|j: int|
            i < j < rs.len() ==> (#[trigger] rs[j]).op != 0x041E || rs[j].body.len() < 2 || at16(
                rs[j].body,
                0,
            ) != at16(rs[i].body, 0),
    ensures
        formats_of(rs, n).contains_key(at16(rs[i].body, 0)),
        formats_of(rs, n)[at16(rs[i].body, 0)] == counted(
            rs[i].body,
            5,
            at16(rs[i].body, 2) as int,
            at8(rs[i].body, 4) % 2 == 1,
        ),
    decreases n,
{
    if i < n - 1 {
        lemma_code_kept(rs, i, n - 1);
        assert(rs[n - 1].op != 0x041E || rs[n - 1].body.len() < 2 || at16(rs[n - 1].body, 0)
            != at16(rs[i].body, 0));
    }
}

/// Dates count from 1904 exactly where the last record about it says one, and where no record speaks
/// of it nothing is known.
pub proof fn law_the_book_says_from_when_dates_count(book: Book, rs: Seq<Rec>, i: int)
    requires
        book.describes(rs),
        0 <= i < rs.len(),
    ensures
        rs[i].op == 0x0022 && rs[i].body.len() >= 2 && (forall|j: int|
            i < j < rs.len() ==> (#[trigger] rs[j]).op != 0x0022) ==> book.date1904 == Some(
            rs[i].body[0] == 1 && rs[i].body[1] == 0,
        ),
        (forall|j: int| 0 <= j < rs.len() ==> (#[trigger] rs[j]).op != 0x0022)
            ==> book.date1904 is None,
{
    lemma_basis(rs, i, rs.len() as int);
}

proof fn lemma_basis(rs: Seq<Rec>, i: int, n: int)
    requires
        0 <= i < rs.len(),
        0 <= n <= rs.len(),
    ensures
        i < n && rs[i].op == 0x0022 && (forall|j: int| i < j < n ==> (#[trigger] rs[j]).op != 0x0022)
            ==> date_basis(rs, n) == Some(at16(rs[i].body, 0) == 1),
        (forall|j: int| 0 <= j < n ==> (#[trigger] rs[j]).op != 0x0022) ==> date_basis(rs, n) is None,
    decreases n,
{
    if n > 0 {
        lemma_basis(rs, i, n - 1);
    }
}

/// A cell goes by the format entry whose place it states, counted from nought, and one that states
/// none, or a place without an entry, has no format. The file's own code for a number comes before
/// the built-in one.
pub proof fn law_a_cell_goes_by_its_format_entry(book: Book, one: Cell, i: u64, id: u64)
    ensures
        one.ixfe is None ==> book.number_format(one) is None,
        one.ixfe == Some(i) && i < book.xfs@.len() ==> book.number_format(one) == Some(
            book.xfs@[i as int],
        ),
        one.ixfe == Some(i) && i >= book.xfs@.len() ==> book.number_format(one) is None,
        book.formats@.contains_key(id) ==> book.code_of(id) == Some(book.formats@[id]@),
        !book.formats@.contains_key(id) ==> book.code_of(id) == builtin(id),
{
}

/// The format of a cell: text is text whatever its format is, and everything else is of the kind that
/// its code makes it. Only a cell whose code shows a day or a time has a date, and only where it has a
/// number and the book says from when dates count.
pub proof fn law_how_a_cell_is_formatted(book: &Book, one: &Cell, r: Option<CellFormat>)
    requires
        call_ensures(Book::cell_format, (book, one), r),
    ensures
        r is Some <==> book.number_format(*one) is Some,
        r matches Some(f) ==> {
            let kind = judged_code(book.code_of(f.num_fmt));
            &&& Some(f.num_fmt) == book.number_format(*one)
            &&& text_in(f.format) == book.code_of(f.num_fmt)
            &&& f.style == one.ixfe
            &&& one.text is Some ==> f.format_kind@ == seq!['t', 'e', 'x', 't']
            &&& one.text is None ==> f.format_kind@ == kind.name()
            &&& !kind.temporal() ==> f.as_date is Absent
            &&& kind.temporal() && (one.number is None || book.date1904 is None)
                ==> f.as_date is Empty
            &&& kind.temporal() && one.number is Some && book.date1904 is Some ==> f.as_date == (
            AsDate::Serial { number: one.number->0, year1904: book.date1904->0 })
        },
{
    reveal_strlit("text");
    assert("text"@ =~= seq!['t', 'e', 'x', 't']);
}

/// What a cell shows: its text where it has one, nothing where it has neither text nor number, the
/// number as a date where its format shows one and the book says from when dates count, and the
/// number as it is otherwise.
pub proof fn law_what_a_cell_shows(book: &Book, one: &Cell, r: Shown)
    requires
        call_ensures(Book::shown, (book, one), r),
    ensures
        one.text is Some ==> r is Text && r->Text_0@ == one.text->0@,
        one.text is None && one.number is None ==> r is Nothing,
        one.text is None && one.number is Some && book.shows_date(*one) && book.date1904 is Some
            ==> r == (Shown::Date { number: one.number->0, year1904: book.date1904->0 }),
        one.text is None && one.number is Some && (!book.shows_date(*one) || book.date1904 is None)
            ==> r == Shown::Plain(one.number->0),
        book.shows_date(*one) <==> book.number_format(*one) is Some && judged_code(
            book.code_of(book.number_format(*one)->0),
        ).temporal(),
{
}

/// The book is read from the stream called `Workbook`, and from the one called `Book` where there is
/// no such stream or it cannot be read; without either there is no book.
pub proof fn law_which_stream_is_the_book(cfb: &Cfb, bytes: &[u8], r: Result<Book, String>)
    requires
        call_ensures(read, (cfb, bytes), r),
    ensures
        ({
            let a = named_stream(*cfb, bytes@, "Workbook"@);
            let b = named_stream(*cfb, bytes@, "Book"@);
            &&& r is Ok <==> a is Some || b is Some
            &&& a is Some ==> r->Ok_0.describes(split_from(a->0, 0))
            &&& a is None && b is Some ==> r->Ok_0.describes(split_from(b->0, 0))
        }),
{
}

/// A book has one sheet for each record that announces one, in that order, and counts all records and
/// all formulas.
pub proof fn law_a_book_counts_what_it_holds(book: Book, rs: Seq<Rec>, n: int)
    requires
        book.describes(rs),
        0 <= n < rs.len(),
    ensures
        book.records == rs.len(),
        book.sheets@.len() == announced(rs, rs.len() as int).len(),
        book.formula_cells == cells::formulas(rs, rs.len() as int),
        cells::formulas(rs, 0) == 0,
        cells::formulas(rs, n + 1) == cells::formulas(rs, n) + if rs[n].op == 0x0006 {
            1nat
        } else {
            0nat
        },
        book.strings@.len() == cells::known_strings(rs, rs.len() as int).len(),
        forall|k: int|
            0 <= k < book.strings@.len() ==> (#[trigger] book.strings@[k])@ == cells::known_strings(
                rs,
                rs.len() as int,
            )[k],
        rs[n].op == 0x00FC ==> cells::known_strings(rs, n + 1) == cells::table_strings(rs, n).found,
        rs[n].op != 0x00FC ==> cells::known_strings(rs, n + 1) == cells::known_strings(rs, n),
{
    assert(texts(book.strings@).len() == book.strings@.len());
    assert forall|k: int| 0 <= k < book.strings@.len() implies (#[trigger] book.strings@[k])@
        == cells::known_strings(rs, rs.len() as int)[k] by {
        assert(texts(book.strings@)[k] == book.strings@[k]@);
    }
}

/// The strings of a table are those behind its first eight bytes and in the records of number 0x003C
/// that continue it, as many as the number in its bytes 4 to 7 says.
pub proof fn law_a_string_table_goes_on(rs: Seq<Rec>, j: int)
    requires
        0 <= j < rs.len(),
        rs[j].body.len() >= 8,
    ensures
        ({
            let b = rs[j].body;
            let c = cells::table_chunks(rs, j);
            let unique = b[4] + 0x100 * b[5] + 0x1_0000 * b[6] + 0x100_0000 * b[7];
            &&& c.len() > 0
            &&& c[0] == b.skip(8)
            &&& j + 1 == rs.len() || rs[j + 1].op != 0x003C ==> c.len() == 1
            &&& j + 1 < rs.len() && rs[j + 1].op == 0x003C ==> c.len() > 1 && c[1] == rs[j + 1].body
            &&& cells::table_strings(rs, j) == sst::strings_in(c, unique)
            &&& cells::table_strings(rs, j).found.len() <= unique
        }),
{
    sst::law_short_means_fewer(
        cells::table_chunks(rs, j),
        sst::Cursor { chunk: 0, pos: 0 },
        at32_nat(rs[j].body),
    );
}

/// The number in bytes 4 to 7.
spec fn at32_nat(b: Seq<u8>) -> nat {
    (b[4] + 0x100 * b[5] + 0x1_0000 * b[6] + 0x100_0000 * b[7]) as nat
}

/// The lists of a book are what its records add, one after another: the beginnings of its streams,
/// the counts of its links and its remarks.
pub proof fn law_lists_of_a_book_add_up(book: Book, rs: Seq<Rec>, n: int)
    requires
        book.describes(rs),
        0 <= n,
    ensures
        book.bofs@ == joined(bof_list(rs), rs.len() as int),
        joined(bof_list(rs), n + 1) == joined(bof_list(rs), n) + bofs_at(rs, n),
        book.link_counts@ == joined(link_count_list(rs), rs.len() as int),
        joined(link_count_list(rs), n + 1) == joined(link_count_list(rs), n) + link_counts_at(rs, n),
        texts(book.notes@) == joined(cells::note_list(rs), rs.len() as int),
        joined(cells::note_list(rs), n + 1) == joined(cells::note_list(rs), n) + cells::notes_at(
            rs,
            n,
        ),
{
}

} // verus!
