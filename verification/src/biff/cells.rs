//! The cells of a workbook and the strings they share.

use crate::bytes::{field16, le16};
use crate::lists::{append_range, joined};
use crate::text::{dec, push_dec, said, say, texts};
use crate::written::{copied, text_in};
use vstd::prelude::*;

use super::link::{a1, cell_name};
use super::records::{
    announced, at16, at32, at64, at8, counted, get16, get32, get64, get8, index_is,
    lemma_owner_known, owner, owner_name, read_counted, recs, Placement, Rec, Record, CONTINUE,
    FORMULA, LABEL, LABELSST, MUL_RK, NUMBER, RK, SST,
};
use super::sst::{chunk_bytes, shared_strings, strings_in, Strings};

verus! {

/// A number as a cell stores it: the bits of a double or a whole number, and whether it is to
/// be divided by a hundred.
#[derive(Debug, Clone, Copy, PartialEq, Eq, Structural)]
pub enum Number {
    Real { bits: u64, hundredth: bool },
    Whole { value: i32, hundredth: bool },
}

/// What a packed number stands for. Bit 0 says hundredths and bit 1 says a whole number in the
/// upper thirty bits; without bit 1 the packed number is the upper half of a double.
pub open spec fn rk_number(packed: u32) -> Number {
    let hundredth = packed % 2 == 1;
    if (packed / 2) % 2 == 1 {
        Number::Whole {
            value: (if packed >= 0x8000_0000 {
                packed as int / 4 - 0x4000_0000
            } else {
                packed as int / 4
            }) as i32,
            hundredth,
        }
    } else {
        Number::Real { bits: (packed * 0x1_0000_0000) as u64, hundredth }
    }
}

/// Unpacks a packed number.
pub fn decode_rk(packed: u32) -> (r: Number)
    ensures
        r == rk_number(packed),
{
    let hundredth: bool = packed % 2 == 1;
    if (packed / 2) % 2 == 1 {
        let quarter: i32 = (packed / 4) as i32;
        if packed >= 0x8000_0000 {
            Number::Whole { value: quarter - 0x4000_0000, hundredth }
        } else {
            Number::Whole { value: quarter, hundredth }
        }
    } else {
        Number::Real { bits: packed as u64 * 0x1_0000_0000, hundredth }
    }
}

/// One cell.
#[derive(Debug, Clone)]
pub struct Cell {
    pub row: u32,
    pub col: u32,
    /// Which kind of record the cell came from.
    pub kind: &'static str,
    pub text: Option<String>,
    pub number: Option<Number>,
    /// The sheet that the record lies in; `None` before the first sheet.
    pub sheet: Option<String>,
    /// Which format record the cell goes by.
    pub ixfe: Option<u64>,
}

/// What a cell says.
#[verifier::ext_equal]
pub struct CellModel {
    pub row: u32,
    pub col: u32,
    pub kind: Seq<char>,
    pub text: Option<Seq<char>>,
    pub number: Option<Number>,
    pub sheet: Option<Seq<char>>,
    pub ixfe: Option<u64>,
}

impl View for Cell {
    type V = CellModel;

    open spec fn view(&self) -> CellModel {
        CellModel {
            row: self.row,
            col: self.col,
            kind: self.kind@,
            text: text_in(self.text),
            number: self.number,
            sheet: text_in(self.sheet),
            ixfe: self.ixfe,
        }
    }
}

impl Cell {
    /// The reference of the cell.
    pub fn reference(&self) -> (r: String)
        requires
            self.row < u32::MAX,
        ensures
            r@ == cell_name(self.row as int, self.col as int),
    {
        a1(self.row, self.col)
    }
}

pub open spec fn cell_models(c: Seq<Cell>) -> Seq<CellModel> {
    Seq::new(c.len(), |i: int| c[i]@)
}

/// The bodies of the records from `k` on that continue the one before.
pub open spec fn continued(rs: Seq<Rec>, k: int) -> Seq<Seq<u8>>
    decreases rs.len() - k,
{
    if 0 <= k < rs.len() && rs[k].op == CONTINUE {
        seq![rs[k].body] + continued(rs, k + 1)
    } else {
        Seq::empty()
    }
}

/// The chunks of the string table in record `j`: what follows its two counts, and the records
/// that continue it.
pub open spec fn table_chunks(rs: Seq<Rec>, j: int) -> Seq<Seq<u8>> {
    let own = if rs[j].body.len() >= 8 {
        rs[j].body.skip(8)
    } else {
        Seq::empty()
    };
    seq![own] + continued(rs, j + 1)
}

/// The strings of the table in record `j`.
pub open spec fn table_strings(rs: Seq<Rec>, j: int) -> Strings {
    strings_in(table_chunks(rs, j), at32(rs[j].body, 4) as int)
}

/// The strings known after the first `n` records: those of the last table.
pub open spec fn known_strings(rs: Seq<Rec>, n: int) -> Seq<Seq<char>>
    decreases n,
{
    if n <= 0 {
        Seq::empty()
    } else if rs[n - 1].op == SST {
        table_strings(rs, n - 1).found
    } else {
        known_strings(rs, n - 1)
    }
}

/// A cell whose record begins with row, column and format.
pub open spec fn cell_from(
    rs: Seq<Rec>,
    i: int,
    kind: Seq<char>,
    text: Option<Seq<char>>,
    number: Option<Number>,
) -> CellModel {
    let b = rs[i].body;
    CellModel {
        row: at16(b, 0) as u32,
        col: at16(b, 2) as u32,
        kind,
        text,
        number,
        sheet: owner_name(rs, i),
        ixfe: field16(b, 4),
    }
}

/// The string that a cell of record `i` points at.
pub open spec fn pointed(rs: Seq<Rec>, i: int) -> Option<Seq<char>> {
    let which = at32(rs[i].body, 6);
    if which < known_strings(rs, i).len() {
        Some(known_strings(rs, i)[which as int])
    } else {
        None
    }
}

/// How many cells a record of several numbers holds.
pub open spec fn run_length(b: Seq<u8>) -> int {
    if b.len() < 6 {
        0
    } else {
        (b.len() as int - 6) / 6
    }
}

/// Cell `j` of a record of several numbers. Each cell has its format first and then its number.
pub open spec fn run_cell(rs: Seq<Rec>, i: int, j: int) -> CellModel {
    let b = rs[i].body;
    CellModel {
        row: at16(b, 0) as u32,
        col: (at16(b, 2) + j) as u32,
        kind: "mulrk"@,
        text: None,
        number: Some(rk_number(at32(b, 6 + 6 * j) as u32)),
        sheet: owner_name(rs, i),
        ixfe: field16(b, 4 + 6 * j),
    }
}

/// The cells of record `i`.
pub open spec fn cells_at(rs: Seq<Rec>, i: int) -> Seq<CellModel> {
    let b = rs[i].body;
    let op = rs[i].op;
    if op == LABELSST {
        seq![cell_from(rs, i, "sst"@, pointed(rs, i), None)]
    } else if op == NUMBER {
        seq![
            cell_from(
                rs,
                i,
                "number"@,
                None,
                Some(Number::Real { bits: at64(b, 6), hundredth: false }),
            ),
        ]
    } else if op == RK {
        seq![cell_from(rs, i, "rk"@, None, Some(rk_number(at32(b, 6) as u32)))]
    } else if op == MUL_RK {
        Seq::new(run_length(b) as nat, |j: int| run_cell(rs, i, j))
    } else if op == LABEL {
        seq![
            cell_from(
                rs,
                i,
                "label"@,
                Some(counted(b, 9, at16(b, 6) as int, at8(b, 8) % 2 == 1)),
                None,
            ),
        ]
    } else if op == FORMULA {
        seq![cell_from(rs, i, "formula"@, None, None)]
    } else {
        Seq::empty()
    }
}

pub open spec fn cell_list(rs: Seq<Rec>) -> spec_fn(int) -> Seq<CellModel> {
    |i: int| cells_at(rs, i)
}

/// The notes that record `i` gives rise to: a string table that is too short, and a cell that
/// points past the strings.
pub open spec fn notes_at(rs: Seq<Rec>, i: int) -> Seq<Seq<char>> {
    let which = at32(rs[i].body, 6);
    if rs[i].op == SST && table_strings(rs, i).short {
        seq!["SST 自报的条数比实际可读出的多，后面的读不出来"@]
    } else if rs[i].op == LABELSST && pointed(rs, i) is None {
        seq![
            said("LABELSST 指向 SST 第 "@, which as int, " 条，但那份表只有 "@) + dec(
                known_strings(rs, i).len(),
            ) + " 条"@,
        ]
    } else {
        Seq::empty()
    }
}

pub open spec fn note_list(rs: Seq<Rec>) -> spec_fn(int) -> Seq<Seq<char>> {
    |i: int| notes_at(rs, i)
}

/// How many of the first `n` records are formulas.
pub open spec fn formulas(rs: Seq<Rec>, n: int) -> nat
    decreases n,
{
    if n <= 0 {
        0
    } else {
        formulas(rs, n - 1) + if rs[n - 1].op == FORMULA { 1nat } else { 0nat }
    }
}

fn collect_chunks(records: &Vec<Record>, j: usize) -> (r: Vec<Vec<u8>>)
    requires
        j < records@.len(),
    ensures
        chunk_bytes(r@) == table_chunks(recs(records@), j as int),
{
    let ghost rs = recs(records@);
    let total: usize = records.len();
    let mut own: Vec<u8> = Vec::new();
    let size: usize = records[j].body.len();
    assert(rs[j as int] == records@[j as int]@);
    if size >= 8 {
        append_range(&mut own, records[j].body.as_slice(), 8, size);
        assert(own@ =~= rs[j as int].body.skip(8));
    }
    let ghost first = own@;
    let mut out: Vec<Vec<u8>> = Vec::new();
    out.push(own);
    let mut k: usize = j + 1;
    assert(chunk_bytes(out@) =~= seq![first]);
    while k < total && records[k].op == CONTINUE
        invariant
            j < k <= total,
            total == records@.len(),
            rs == recs(records@),
            chunk_bytes(out@) + continued(rs, k as int) == seq![first] + continued(rs, j + 1),
        decreases records@.len() - k,
    {
        assert(rs[k as int] == records@[k as int]@);
        let ghost before = chunk_bytes(out@);
        let mut one: Vec<u8> = Vec::new();
        append_range(&mut one, records[k].body.as_slice(), 0, records[k].body.len());
        assert(one@ =~= rs[k as int].body);
        out.push(one);
        assert(chunk_bytes(out@) =~= before.push(rs[k as int].body));
        k += 1;
        assert(before + (seq![rs[k - 1].body] + continued(rs, k as int)) =~= chunk_bytes(out@)
            + continued(rs, k as int));
    }
    proof {
        if k < records@.len() {
            assert(rs[k as int] == records@[k as int]@);
        }
        assert(chunk_bytes(out@) + Seq::<Seq<u8>>::empty() =~= chunk_bytes(out@));
    }
    out
}

fn one_cell(
    body: &Vec<u8>,
    kind: &'static str,
    text: Option<String>,
    number: Option<Number>,
    sheet: &Option<String>,
) -> (r: Cell)
    ensures
        r@ == (CellModel {
            row: at16(body@, 0) as u32,
            col: at16(body@, 2) as u32,
            kind: kind@,
            text: text_in(text),
            number,
            sheet: text_in(*sheet),
            ixfe: field16(body@, 4),
        }),
{
    Cell {
        row: get16(body.as_slice(), 0) as u32,
        col: get16(body.as_slice(), 2) as u32,
        kind,
        text,
        number,
        sheet: copied(sheet),
        ixfe: le16(body.as_slice(), 4),
    }
}

/// Appends the cells of a record of several numbers.
fn push_run(
    out: &mut Vec<Cell>,
    body: &Vec<u8>,
    sheet: &Option<String>,
    Ghost(at): Ghost<(Seq<Rec>, int)>,
)
    requires
        at.0[at.1].body == body@,
        text_in(*sheet) == owner_name(at.0, at.1),
    ensures
        cell_models(final(out)@) == cell_models(old(out)@) + Seq::new(
            run_length(body@) as nat,
            |j: int| run_cell(at.0, at.1, j),
        ),
{
    let size: usize = body.len();
    let n: usize = if size < 6 {
        0
    } else {
        (size - 6) / 6
    };
    let row: u64 = get16(body.as_slice(), 0);
    let first: u64 = get16(body.as_slice(), 2);
    let mut j: usize = 0;
    assert(cell_models(out@) =~= cell_models(old(out)@) + Seq::new(
        0,
        |k: int| run_cell(at.0, at.1, k),
    ));
    while j < n
        invariant
            j <= n,
            n == run_length(body@),
            size == body@.len(),
            at.0[at.1].body == body@,
            text_in(*sheet) == owner_name(at.0, at.1),
            row == at16(body@, 0),
            first == at16(body@, 2),
            first < 0x1_0000,
            cell_models(out@) == cell_models(old(out)@) + Seq::new(
                j as nat,
                |k: int| run_cell(at.0, at.1, k),
            ),
        decreases n - j,
    {
        let packed: u32 = get32(body.as_slice(), 6 + 6 * j) as u32;
        let ghost before = cell_models(out@);
        let one: Cell = Cell {
            row: row as u32,
            col: (first + j as u64) as u32,
            kind: "mulrk",
            text: None,
            number: Some(decode_rk(packed)),
            sheet: copied(sheet),
            ixfe: le16(body.as_slice(), 4 + 6 * j),
        };
        out.push(one);
        assert(one@ =~= run_cell(at.0, at.1, j as int));
        assert(cell_models(out@) =~= before.push(one@));
        j += 1;
        assert(cell_models(out@) =~= cell_models(old(out)@) + Seq::new(
            j as nat,
            |k: int| run_cell(at.0, at.1, k),
        ));
    }
}

/// The cells of a book, the strings they share and what is wrong with them.
pub struct Content {
    pub strings: Vec<String>,
    pub cells: Vec<Cell>,
    pub formula_cells: usize,
    pub notes: Vec<String>,
}

impl Content {
    pub open spec fn describes(self, rs: Seq<Rec>) -> bool {
        &&& texts(self.strings@) == known_strings(rs, rs.len() as int)
        &&& cell_models(self.cells@) == joined(cell_list(rs), rs.len() as int)
        &&& self.formula_cells == formulas(rs, rs.len() as int)
        &&& texts(self.notes@) == joined(note_list(rs), rs.len() as int)
    }
}

/// Reads the cells of all records, in order.
pub fn read_cells(records: &Vec<Record>, places: &Placement) -> (r: Content)
    requires
        places.describes(recs(records@)),
    ensures
        r.describes(recs(records@)),
{
    let ghost rs = recs(records@);
    let total: usize = records.len();
    let mut strings: Vec<String> = Vec::new();
    let mut cells: Vec<Cell> = Vec::new();
    let mut notes: Vec<String> = Vec::new();
    let mut count: usize = 0;
    let mut i: usize = 0;
    assert(texts(strings@) =~= known_strings(rs, 0));
    assert(cell_models(cells@) =~= joined(cell_list(rs), 0));
    assert(texts(notes@) =~= joined(note_list(rs), 0));
    while i < total
        invariant
            i <= total,
            total == records@.len(),
            count <= i,
            rs == recs(records@),
            places.describes(rs),
            texts(strings@) == known_strings(rs, i as int),
            cell_models(cells@) == joined(cell_list(rs), i as int),
            count == formulas(rs, i as int),
            texts(notes@) == joined(note_list(rs), i as int),
        decreases total - i,
    {
        assert(rs[i as int] == records@[i as int]@);
        let ghost had = cell_models(cells@);
        let ghost noted = texts(notes@);
        let op: u64 = records[i].op;
        let body: &Vec<u8> = &records[i].body;
        let sheet: Option<String> = owner_text(places, i, Ghost(rs));
        if op == SST {
            let unique: usize = get32(body.as_slice(), 4) as usize;
            let chunks: Vec<Vec<u8>> = collect_chunks(records, i);
            strings = shared_strings(chunks.as_slice(), unique, &mut notes);
            assert(texts(notes@) =~= noted + notes_at(rs, i as int));
        } else {
            if op == LABELSST {
                let which: usize = get32(body.as_slice(), 6) as usize;
                let text: Option<String> = if which < strings.len() {
                    assert(texts(strings@)[which as int] == strings@[which as int]@);
                    Some(strings[which].clone())
                } else {
                    let mut why: String = say(
                        "LABELSST 指向 SST 第 ",
                        which as u64,
                        " 条，但那份表只有 ",
                    );
                    push_dec(&mut why, strings.len() as u64);
                    why.append(" 条");
                    notes.push(why);
                    assert(texts(notes@) =~= noted.push(why@));
                    None
                };
                cells.push(one_cell(body, "sst", text, None, &sheet));
            } else if op == NUMBER {
                let bits: u64 = get64(body.as_slice(), 6);
                let number: Number = Number::Real { bits, hundredth: false };
                cells.push(one_cell(body, "number", None, Some(number), &sheet));
            } else if op == RK {
                let packed: u32 = get32(body.as_slice(), 6) as u32;
                cells.push(one_cell(body, "rk", None, Some(decode_rk(packed)), &sheet));
            } else if op == MUL_RK {
                push_run(&mut cells, body, &sheet, Ghost((rs, i as int)));
            } else if op == LABEL {
                let length: usize = get16(body.as_slice(), 6) as usize;
                let wide: bool = get8(body.as_slice(), 8) % 2 == 1;
                let text: String = read_counted(body.as_slice(), 9, length, wide);
                cells.push(one_cell(body, "label", Some(text), None, &sheet));
            } else if op == FORMULA {
                cells.push(one_cell(body, "formula", None, None, &sheet));
                count += 1;
            }
            assert(texts(notes@) =~= noted + notes_at(rs, i as int));
        }
        assert(cell_models(cells@) =~= had + cells_at(rs, i as int));
        i += 1;
    }
    Content { strings, cells, formula_cells: count, notes }
}

/// The name of the sheet that record `i` lies in.
pub(crate) fn owner_text(
    places: &Placement,
    i: usize,
    Ghost(rs): Ghost<Seq<Rec>>,
) -> (r: Option<String>)
    requires
        places.describes(rs),
        i < rs.len(),
    ensures
        text_in(r) == owner_name(rs, i as int),
{
    match places.owners[i] {
        Some(k) => {
            proof {
                lemma_owner_known(rs, i as int);
                assert(index_is(places.owners@[i as int], owner(rs, i as int)));
                assert(announced(rs, rs.len() as int)[k as int]
                    == places.sheets@[k as int]@);
            }
            Some(places.sheets[k].name.clone())
        },
        None => {
            assert(index_is(places.owners@[i as int], owner(rs, i as int)));
            None
        },
    }
}

/// How many cells the first `n` records hold, by their record numbers: one for each record of one
/// cell, and one for every six bytes between the first four and the last two of a record of
/// several numbers.
pub open spec fn cells_before(rs: Seq<Rec>, n: int) -> int
    decreases n,
{
    if n <= 0 {
        0
    } else {
        let op = rs[n - 1].op;
        let size = rs[n - 1].body.len() as int;
        cells_before(rs, n - 1) + if op == 0x00FD || op == 0x0203 || op == 0x027E || op == 0x0204
            || op == 0x0006 {
            1
        } else if op == 0x00BD && size >= 6 {
            (size - 6) / 6
        } else {
            0
        }
    }
}

/// The cells of the book are those of its records one after another.
pub proof fn lemma_cells_in_order(rs: Seq<Rec>, i: int, n: int)
    requires
        0 <= i < n,
    ensures
        joined(cell_list(rs), n).len() == cells_before(rs, n),
        0 <= cells_before(rs, i) <= cells_before(rs, i + 1) <= cells_before(rs, n),
        joined(cell_list(rs), n).subrange(cells_before(rs, i), cells_before(rs, i + 1))
            == cells_at(rs, i),
    decreases n,
{
    lemma_cells_counted(rs, n);
    lemma_cells_counted(rs, n - 1);
    let all = joined(cell_list(rs), n);
    let front = joined(cell_list(rs), n - 1);
    assert(all == front + cells_at(rs, n - 1));
    if i < n - 1 {
        lemma_cells_in_order(rs, i, n - 1);
        assert(all.subrange(cells_before(rs, i), cells_before(rs, i + 1)) =~= front.subrange(
            cells_before(rs, i),
            cells_before(rs, i + 1),
        ));
    } else {
        assert(all.subrange(cells_before(rs, i), cells_before(rs, i + 1)) =~= cells_at(rs, i));
    }
}

proof fn lemma_cells_counted(rs: Seq<Rec>, n: int)
    requires
        0 <= n,
    ensures
        joined(cell_list(rs), n).len() == cells_before(rs, n),
        0 <= cells_before(rs, n),
    decreases n,
{
    if n > 0 {
        lemma_cells_counted(rs, n - 1);
    }
}

/// What a record gives rise to a remark for: a string table that promises more than it holds, and a
/// cell that points past the strings read so far. No other record does.
pub proof fn law_which_records_are_remarked_on(rs: Seq<Rec>, i: int)
    ensures
        rs[i].op == 252 && table_strings(rs, i).short ==> notes_at(rs, i) == seq![
            "SST 自报的条数比实际可读出的多，后面的读不出来"@,
        ],
        rs[i].op == 252 && !table_strings(rs, i).short ==> notes_at(rs, i).len() == 0,
        rs[i].op == 253 && pointed(rs, i) is None ==> notes_at(rs, i) == seq![
            "LABELSST 指向 SST 第 "@ + dec(at32(rs[i].body, 6) as nat) + " 条，但那份表只有 "@ + dec(
                known_strings(rs, i).len(),
            ) + " 条"@,
        ],
        rs[i].op == 253 && pointed(rs, i) is Some ==> notes_at(rs, i).len() == 0,
        rs[i].op != 252 && rs[i].op != 253 ==> notes_at(rs, i).len() == 0,
{
}

} // verus!
