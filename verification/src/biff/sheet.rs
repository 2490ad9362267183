//! What the records of one sheet say about it.

use crate::bytes::{field16, le16};
use crate::lists::{ascending, joined, lemma_ascending, piece, piece_of, put_in_order};
use crate::text::same;
use std::collections::BTreeMap;
use vstd::prelude::*;

use super::link::{a1, cell_name, hlink, link_fits, Link};
use super::records::{
    announced, at16, at8, get16, get8, index_is, owner_name, recs, target, Bound, Placement, Rec,
    Record, COLINFO, COLINFO_OLD, CONTINUE, DRAWING, HLINK, NOTE_CELL, NOTE_TEXT, PASSWORD,
    PROTECT, ROW, SCENPROTECT, SHAPE, TOBJ_PICTURE,
};
use super::sst::{spell, spelling};

verus! {

/// One comment.
#[derive(Debug, Clone)]
pub struct Comment {
    pub reference: String,
    pub author: String,
    pub text: String,
    /// Whether the text and the author were there in full.
    pub whole: bool,
}

/// What a comment says.
#[verifier::ext_equal]
pub struct CommentModel {
    pub reference: Seq<char>,
    pub author: Seq<char>,
    pub text: Seq<char>,
    pub whole: bool,
}

impl View for Comment {
    type V = CommentModel;

    open spec fn view(&self) -> CommentModel {
        CommentModel {
            reference: self.reference@,
            author: self.author@,
            text: self.text@,
            whole: self.whole,
        }
    }
}

pub open spec fn comment_models(c: Seq<Comment>) -> Seq<CommentModel> {
    Seq::new(c.len(), |i: int| c[i]@)
}

/// Record `i` hides a row of sheet `k`. Producers put the flag in one of two places.
pub open spec fn rows_at(rs: Seq<Rec>, k: int, i: int) -> Seq<u32> {
    let b = rs[i].body;
    if rs[i].op == ROW && target(rs, i) == Some(k) && ((at16(b, 8) / 32) % 2 == 1 || (at16(b, 12)
        / 32) % 2 == 1) {
        seq![at16(b, 0) as u32]
    } else {
        Seq::empty()
    }
}

/// Record `i` hides these columns of sheet `k`: a range with both ends in it.
pub open spec fn cols_at(rs: Seq<Rec>, k: int, i: int) -> Seq<u32> {
    let b = rs[i].body;
    if (rs[i].op == COLINFO || rs[i].op == COLINFO_OLD) && target(rs, i) == Some(k) && at16(b, 8)
        % 2 == 1 && at16(b, 0) <= at16(b, 2) {
        Seq::new((at16(b, 2) - at16(b, 0) + 1) as nat, |j: int| (at16(b, 0) + j) as u32)
    } else {
        Seq::empty()
    }
}

pub open spec fn row_list(rs: Seq<Rec>, k: int) -> spec_fn(int) -> Seq<u32> {
    |i: int| rows_at(rs, k, i)
}

pub open spec fn col_list(rs: Seq<Rec>, k: int) -> spec_fn(int) -> Seq<u32> {
    |i: int| cols_at(rs, k, i)
}

/// Record `i` is one of kind `op` of sheet `k`.
pub open spec fn is_of(rs: Seq<Rec>, k: int, op: u64, i: int) -> bool {
    rs[i].op == op && target(rs, i) == Some(k)
}

/// How many of the first `n` records are of kind `op` and of sheet `k`.
pub open spec fn count_of(rs: Seq<Rec>, k: int, op: u64, n: int) -> nat
    decreases n,
{
    if n <= 0 {
        0
    } else {
        count_of(rs, k, op, n - 1) + if is_of(rs, k, op, n - 1) { 1nat } else { 0nat }
    }
}

/// How many of the first `n` records are picture shapes of sheet `k`.
pub open spec fn picture_count(rs: Seq<Rec>, k: int, n: int) -> nat
    decreases n,
{
    if n <= 0 {
        0
    } else {
        picture_count(rs, k, n - 1) + if is_of(rs, k, SHAPE, n - 1) && field16(rs[n - 1].body, 4)
            == Some(TOBJ_PICTURE) { 1nat } else { 0nat }
    }
}

/// A record that protects something.
pub open spec fn protects(op: u64) -> bool {
    op == PROTECT || op == PASSWORD || op == SCENPROTECT
}

/// What the first `n` records say about the protection of sheet `k`, by record number. A later
/// record of a number replaces an earlier one.
pub open spec fn protection_of(rs: Seq<Rec>, k: int, n: int) -> Map<u64, u64>
    decreases n,
{
    if n <= 0 {
        Map::empty()
    } else {
        let before = protection_of(rs, k, n - 1);
        let b = rs[n - 1].body;
        if protects(rs[n - 1].op) && target(rs, n - 1) == Some(k) && b.len() >= 2 {
            before.insert(rs[n - 1].op, at16(b, 0))
        } else {
            before
        }
    }
}

/// The link records of sheet `k` that can be cut into their fields.
pub open spec fn links_at(rs: Seq<Rec>, k: int, i: int) -> Seq<Seq<u8>> {
    if is_of(rs, k, HLINK, i) && link_fits(rs[i].body) {
        seq![rs[i].body]
    } else {
        Seq::empty()
    }
}

pub open spec fn link_list(rs: Seq<Rec>, k: int) -> spec_fn(int) -> Seq<Seq<u8>> {
    |i: int| links_at(rs, k, i)
}

/// The links are what the records say, one by one.
pub open spec fn links_describe(links: Seq<Link>, bodies: Seq<Seq<u8>>) -> bool {
    links.len() == bodies.len() && forall|i: int|
        0 <= i < links.len() ==> (#[trigger] links[i]).describes(bodies[i])
}

/// The first body that is not empty among the continuing records from `j` on.
pub open spec fn first_blob(rs: Seq<Rec>, j: int) -> Option<Seq<u8>>
    decreases rs.len() - j,
{
    if 0 <= j < rs.len() && rs[j].op == CONTINUE {
        if rs[j].body.len() > 0 {
            Some(rs[j].body)
        } else {
            first_blob(rs, j + 1)
        }
    } else {
        None
    }
}

/// How many bytes a comment text of record `i` takes in `blob`.
pub open spec fn text_need(rs: Seq<Rec>, i: int, blob: Seq<u8>) -> int {
    at16(rs[i].body, 10) * if blob[0] == 1 { 2int } else { 1int }
}

/// The comment text of record `i` and whether all of it was there. The text stands in the
/// first continuing record, behind a byte that says how it is spelled.
pub open spec fn note_text(rs: Seq<Rec>, i: int) -> (Seq<char>, bool) {
    match first_blob(rs, i + 1) {
        Some(blob) => {
            let need = text_need(rs, i, blob);
            let cut = piece(blob, 1, need);
            (spelling(cut, blob[0] == 1), cut.len() == need)
        },
        None => (Seq::empty(), false),
    }
}

pub open spec fn note_texts_at(rs: Seq<Rec>, name: Seq<char>, i: int) -> Seq<(Seq<char>, bool)> {
    if rs[i].op == NOTE_TEXT && owner_name(rs, i) == Some(name) {
        seq![note_text(rs, i)]
    } else {
        Seq::empty()
    }
}

pub open spec fn note_text_list(rs: Seq<Rec>, name: Seq<char>) -> spec_fn(int) -> Seq<
    (Seq<char>, bool),
> {
    |i: int| note_texts_at(rs, name, i)
}

/// The cell and author that record `i` gives for a comment.
pub open spec fn note_cell(b: Seq<u8>) -> CommentModel {
    let wide = at8(b, 10) % 2 == 1;
    let need = at16(b, 8) * if wide { 2int } else { 1int };
    CommentModel {
        reference: cell_name(at16(b, 0) as int, at16(b, 2) as int),
        author: spelling(piece(b, 11, need), wide),
        text: Seq::empty(),
        whole: piece(b, 11, need).len() == need,
    }
}

pub open spec fn note_cells_at(rs: Seq<Rec>, name: Seq<char>, i: int) -> Seq<CommentModel> {
    if rs[i].op == NOTE_CELL && owner_name(rs, i) == Some(name) && rs[i].body.len() >= 4 {
        seq![note_cell(rs[i].body)]
    } else {
        Seq::empty()
    }
}

pub open spec fn note_cell_list(rs: Seq<Rec>, name: Seq<char>) -> spec_fn(int) -> Seq<
    CommentModel,
> {
    |i: int| note_cells_at(rs, name, i)
}

/// No earlier sheet has the name of sheet `k`. Comments go by name, and the first sheet of a
/// name has them all.
pub open spec fn first_of_name(h: Seq<Bound>, k: int) -> bool {
    forall|j: int| 0 <= j < k ==> (#[trigger] h[j]).name != h[k].name
}

/// The comment texts of sheet `k`.
pub open spec fn sheet_texts(rs: Seq<Rec>, k: int) -> Seq<(Seq<char>, bool)> {
    let h = announced(rs, rs.len() as int);
    if first_of_name(h, k) {
        joined(note_text_list(rs, h[k].name), rs.len() as int)
    } else {
        Seq::empty()
    }
}

/// The cells and authors of the comments of sheet `k`.
pub open spec fn sheet_cells(rs: Seq<Rec>, k: int) -> Seq<CommentModel> {
    let h = announced(rs, rs.len() as int);
    if first_of_name(h, k) {
        joined(note_cell_list(rs, h[k].name), rs.len() as int)
    } else {
        Seq::empty()
    }
}

/// Texts and cells are paired in order, as far as there are both.
pub open spec fn paired(
    cells: Seq<CommentModel>,
    notes: Seq<(Seq<char>, bool)>,
) -> Seq<CommentModel> {
    Seq::new(
        if cells.len() < notes.len() {
            cells.len()
        } else {
            notes.len()
        },
        |j: int|
            CommentModel {
                reference: cells[j].reference,
                author: cells[j].author,
                text: notes[j].0,
                whole: cells[j].whole && notes[j].1,
            },
    )
}

/// One sheet of a book.
#[derive(Debug, Clone)]
pub struct Sheet {
    pub name: String,
    pub state: &'static str,
    pub record_start: u64,
    /// What the protection records of the sheet say, by record number.
    pub protection: BTreeMap<u64, u64>,
    /// The rows that are hidden, in order. Their cells are still cells of the sheet.
    pub hidden_rows: Vec<u64>,
    /// The columns that are hidden, in order.
    pub hidden_cols: Vec<u64>,
    pub comments: Vec<Comment>,
    pub note_text_records: usize,
    pub note_cell_records: usize,
    /// The links that could be read.
    pub links: Vec<Link>,
    /// How many link records there are, readable or not.
    pub link_records: usize,
    pub picture_shapes: usize,
    pub drawing_records: usize,
}

/// The numbers in order, each once, as 64-bit numbers.
pub open spec fn widened(v: Seq<u64>, s: Seq<u32>) -> bool {
    v.len() == s.len() && forall|i: int| 0 <= i < v.len() ==> #[trigger] v[i] == s[i]
}

impl Sheet {
    /// The sheet is what the records say of sheet `k`.
    pub open spec fn describes(self, rs: Seq<Rec>, k: int) -> bool {
        let n = rs.len() as int;
        &&& self.name@ == announced(rs, n)[k].name
        &&& self.state@ == announced(rs, n)[k].state
        &&& self.record_start == announced(rs, n)[k].start
        &&& self.protection@ == protection_of(rs, k, n)
        &&& widened(self.hidden_rows@, ascending(joined(row_list(rs, k), n)))
        &&& widened(self.hidden_cols@, ascending(joined(col_list(rs, k), n)))
        &&& comment_models(self.comments@) == paired(sheet_cells(rs, k), sheet_texts(rs, k))
        &&& self.note_text_records == sheet_texts(rs, k).len()
        &&& self.note_cell_records == sheet_cells(rs, k).len()
        &&& links_describe(self.links@, joined(link_list(rs, k), n))
        &&& self.link_records == count_of(rs, k, HLINK, n)
        &&& self.picture_shapes == picture_count(rs, k, n)
        &&& self.drawing_records == count_of(rs, k, DRAWING, n)
    }
}

/// Whether record `i` is put down to sheet `k`.
fn aims_at(places: &Placement, i: usize, k: usize, Ghost(rs): Ghost<Seq<Rec>>) -> (r: bool)
    requires
        places.describes(rs),
        i < rs.len(),
    ensures
        r == (target(rs, i as int) == Some(k as int)),
{
    assert(index_is(places.targets@[i as int], target(rs, i as int)));
    match places.targets[i] {
        Some(j) => j == k,
        None => false,
    }
}

/// Whether record `i` lies in a sheet called `name`.
fn lies_in(places: &Placement, i: usize, name: &str, Ghost(rs): Ghost<Seq<Rec>>) -> (r: bool)
    requires
        places.describes(rs),
        i < rs.len(),
    ensures
        r == (owner_name(rs, i as int) == Some(name@)),
{
    match super::cells::owner_text(places, i, Ghost(rs)) {
        Some(had) => same(had.as_str(), name),
        None => false,
    }
}

/// The hidden rows and columns of sheet `k`, in record order.
fn hidden_of(records: &Vec<Record>, places: &Placement, k: usize) -> (r: (Vec<u32>, Vec<u32>))
    requires
        places.describes(recs(records@)),
    ensures
        r.0@ == joined(row_list(recs(records@), k as int), records@.len() as int),
        r.1@ == joined(col_list(recs(records@), k as int), records@.len() as int),
{
    let ghost rs = recs(records@);
    let mut rows: Vec<u32> = Vec::new();
    let mut cols: Vec<u32> = Vec::new();
    let mut i: usize = 0;
    while i < records.len()
        invariant
            i <= records@.len(),
            rs == recs(records@),
            places.describes(rs),
            rows@ == joined(row_list(rs, k as int), i as int),
            cols@ == joined(col_list(rs, k as int), i as int),
        decreases records@.len() - i,
    {
        assert(rs[i as int] == records@[i as int]@);
        let body: &Vec<u8> = &records[i].body;
        let op: u64 = records[i].op;
        let ghost had_rows = rows@;
        let ghost had_cols = cols@;
        if (op == ROW || op == COLINFO || op == COLINFO_OLD) && aims_at(
            places,
            i,
            k,
            Ghost(rs),
        ) {
            if op == ROW {
                if (get16(body.as_slice(), 8) / 32) % 2 == 1 || (get16(body.as_slice(), 12) / 32)
                    % 2 == 1 {
                    rows.push(get16(body.as_slice(), 0) as u32);
                }
            } else if get16(body.as_slice(), 8) % 2 == 1 {
                let first: u64 = get16(body.as_slice(), 0);
                let last: u64 = get16(body.as_slice(), 2);
                let ghost range = |j: int| (first + j) as u32;
                let mut column: u64 = first;
                assert(cols@ =~= had_cols + Seq::new(0, range));
                while column <= last
                    invariant
                        first <= column,
                        first < 0x1_0000,
                        last < 0x1_0000,
                        column <= last + 1 || column == first,
                        range == (|j: int| (first + j) as u32),
                        cols@ == had_cols + Seq::new((column - first) as nat, range),
                    decreases last + 1 - column,
                {
                    cols.push(column as u32);
                    column += 1;
                    assert(cols@ =~= had_cols + Seq::new((column - first) as nat, range));
                }
            }
        }
        assert(rows@ =~= had_rows + rows_at(rs, k as int, i as int));
        assert(cols@ =~= had_cols + cols_at(rs, k as int, i as int));
        i += 1;
    }
    (rows, cols)
}

/// The counts of sheet `k`: link records, picture shapes and drawing records.
fn counts_of(records: &Vec<Record>, places: &Placement, k: usize) -> (r: (usize, usize, usize))
    requires
        places.describes(recs(records@)),
    ensures
        r.0 == count_of(recs(records@), k as int, HLINK, records@.len() as int),
        r.1 == picture_count(recs(records@), k as int, records@.len() as int),
        r.2 == count_of(recs(records@), k as int, DRAWING, records@.len() as int),
{
    let ghost rs = recs(records@);
    let mut links: usize = 0;
    let mut pictures: usize = 0;
    let mut drawings: usize = 0;
    let mut i: usize = 0;
    while i < records.len()
        invariant
            i <= records@.len(),
            links <= i,
            pictures <= i,
            drawings <= i,
            rs == recs(records@),
            places.describes(rs),
            links == count_of(rs, k as int, HLINK, i as int),
            pictures == picture_count(rs, k as int, i as int),
            drawings == count_of(rs, k as int, DRAWING, i as int),
        decreases records@.len() - i,
    {
        assert(rs[i as int] == records@[i as int]@);
        let op: u64 = records[i].op;
        if (op == HLINK || op == SHAPE || op == DRAWING) && aims_at(places, i, k, Ghost(rs)) {
            if op == HLINK {
                links += 1;
            } else if op == DRAWING {
                drawings += 1;
            } else if let Some(kind) = le16(records[i].body.as_slice(), 4) {
                if kind == TOBJ_PICTURE {
                    pictures += 1;
                }
            }
        }
        i += 1;
    }
    (links, pictures, drawings)
}

/// The protection of sheet `k`.
fn protection_in(records: &Vec<Record>, places: &Placement, k: usize) -> (r: BTreeMap<u64, u64>)
    requires
        places.describes(recs(records@)),
    ensures
        r@ == protection_of(recs(records@), k as int, records@.len() as int),
{
    broadcast use vstd::std_specs::btree::group_btree_axioms;

    let ghost rs = recs(records@);
    let mut out: BTreeMap<u64, u64> = BTreeMap::new();
    let mut i: usize = 0;
    while i < records.len()
        invariant
            i <= records@.len(),
            rs == recs(records@),
            places.describes(rs),
            out@ == protection_of(rs, k as int, i as int),
        decreases records@.len() - i,
    {
        assert(rs[i as int] == records@[i as int]@);
        let op: u64 = records[i].op;
        if (op == PROTECT || op == PASSWORD || op == SCENPROTECT) && aims_at(
            places,
            i,
            k,
            Ghost(rs),
        ) {
            if let Some(value) = le16(records[i].body.as_slice(), 0) {
                out.insert(op, value);
            }
        }
        i += 1;
    }
    out
}

/// The links of sheet `k`.
fn links_in(records: &Vec<Record>, places: &Placement, k: usize) -> (r: Vec<Link>)
    requires
        places.describes(recs(records@)),
    ensures
        links_describe(r@, joined(link_list(recs(records@), k as int), records@.len() as int)),
{
    let ghost rs = recs(records@);
    let mut out: Vec<Link> = Vec::new();
    let mut i: usize = 0;
    while i < records.len()
        invariant
            i <= records@.len(),
            rs == recs(records@),
            places.describes(rs),
            links_describe(out@, joined(link_list(rs, k as int), i as int)),
        decreases records@.len() - i,
    {
        assert(rs[i as int] == records@[i as int]@);
        let ghost had = joined(link_list(rs, k as int), i as int);
        if records[i].op == HLINK && aims_at(places, i, k, Ghost(rs)) {
            if let Some(one) = hlink(records[i].body.as_slice()) {
                out.push(one);
            }
        }
        i += 1;
        assert(joined(link_list(rs, k as int), i as int) == had + links_at(rs, k as int, i - 1));
    }
    out
}

/// The comment text that record `i` begins.
fn read_note_text(records: &Vec<Record>, i: usize) -> (r: (String, bool))
    requires
        i < records@.len(),
    ensures
        (r.0@, r.1) == note_text(recs(records@), i as int),
{
    let ghost rs = recs(records@);
    let total: usize = records.len();
    assert(rs[i as int] == records@[i as int]@);
    let count: usize = get16(records[i].body.as_slice(), 10) as usize;
    let mut j: usize = i + 1;
    while j < total && records[j].op == CONTINUE
        invariant
            i < j <= total,
            total == records@.len(),
            rs == recs(records@),
            count == at16(rs[i as int].body, 10),
            count < 0x1_0000,
            first_blob(rs, i + 1) == first_blob(rs, j as int),
        decreases total - j,
    {
        assert(rs[j as int] == records@[j as int]@);
        let blob: &Vec<u8> = &records[j].body;
        if blob.len() > 0 {
            let wide: bool = blob[0] == 1;
            let need: usize = if wide {
                2 * count
            } else {
                count
            };
            let cut: Vec<u8> = piece_of(blob.as_slice(), 1, need);
            return (spell(cut.as_slice(), wide), cut.len() == need);
        }
        j += 1;
    }
    proof {
        if j < total {
            assert(rs[j as int] == records@[j as int]@);
        }
    }
    (String::new(), false)
}

fn read_note_cell(b: &[u8]) -> (r: Comment)
    ensures
        r@ == note_cell(b@),
{
    let count: usize = get16(b, 8) as usize;
    let wide: bool = get8(b, 10) % 2 == 1;
    let need: usize = if wide {
        2 * count
    } else {
        count
    };
    let cut: Vec<u8> = piece_of(b, 11, need);
    Comment {
        reference: a1(get16(b, 0) as u32, get16(b, 2) as u32),
        author: spell(cut.as_slice(), wide),
        text: String::new(),
        whole: cut.len() == need,
    }
}

pub open spec fn note_pairs(v: Seq<(String, bool)>) -> Seq<(Seq<char>, bool)> {
    Seq::new(v.len(), |i: int| (v[i].0@, v[i].1))
}

/// The comment texts and the comment cells of the sheets called `name`.
fn notes_in(records: &Vec<Record>, places: &Placement, name: &str) -> (r: (
    Vec<(String, bool)>,
    Vec<Comment>,
))
    requires
        places.describes(recs(records@)),
    ensures
        note_pairs(r.0@) == joined(note_text_list(recs(records@), name@), records@.len() as int),
        comment_models(r.1@) == joined(
            note_cell_list(recs(records@), name@),
            records@.len() as int,
        ),
{
    let ghost rs = recs(records@);
    let mut texts: Vec<(String, bool)> = Vec::new();
    let mut cells: Vec<Comment> = Vec::new();
    let mut i: usize = 0;
    assert(note_pairs(texts@) =~= joined(note_text_list(rs, name@), 0));
    assert(comment_models(cells@) =~= joined(note_cell_list(rs, name@), 0));
    while i < records.len()
        invariant
            i <= records@.len(),
            rs == recs(records@),
            places.describes(rs),
            note_pairs(texts@) == joined(note_text_list(rs, name@), i as int),
            comment_models(cells@) == joined(note_cell_list(rs, name@), i as int),
        decreases records@.len() - i,
    {
        assert(rs[i as int] == records@[i as int]@);
        let ghost had_texts = note_pairs(texts@);
        let ghost had_cells = comment_models(cells@);
        let op: u64 = records[i].op;
        if (op == NOTE_TEXT || op == NOTE_CELL) && lies_in(places, i, name, Ghost(rs)) {
            if op == NOTE_TEXT {
                let one: (String, bool) = read_note_text(records, i);
                texts.push(one);
            } else if records[i].body.len() >= 4 {
                cells.push(read_note_cell(records[i].body.as_slice()));
            }
        }
        assert(note_pairs(texts@) =~= had_texts + note_texts_at(rs, name@, i as int));
        assert(comment_models(cells@) =~= had_cells + note_cells_at(rs, name@, i as int));
        i += 1;
    }
    (texts, cells)
}

/// Pairs comment cells with comment texts.
fn pair_up(cells: &Vec<Comment>, texts: &Vec<(String, bool)>) -> (r: Vec<Comment>)
    ensures
        comment_models(r@) == paired(comment_models(cells@), note_pairs(texts@)),
{
    let n: usize = if cells.len() < texts.len() {
        cells.len()
    } else {
        texts.len()
    };
    let mut out: Vec<Comment> = Vec::new();
    let mut i: usize = 0;
    while i < n
        invariant
            i <= n,
            n <= cells@.len(),
            n <= texts@.len(),
            n == paired(comment_models(cells@), note_pairs(texts@)).len(),
            comment_models(out@) == paired(comment_models(cells@), note_pairs(texts@)).take(
                i as int,
            ),
        decreases n - i,
    {
        let ghost had = comment_models(out@);
        let one: Comment = Comment {
            reference: cells[i].reference.clone(),
            author: cells[i].author.clone(),
            text: texts[i].0.clone(),
            whole: cells[i].whole && texts[i].1,
        };
        out.push(one);
        assert(comment_models(out@) =~= had.push(one@));
        assert(one@ =~= paired(comment_models(cells@), note_pairs(texts@))[i as int]);
        i += 1;
        assert(comment_models(out@) =~= paired(comment_models(cells@), note_pairs(texts@)).take(
            i as int,
        ));
    }
    assert(comment_models(out@) =~= paired(comment_models(cells@), note_pairs(texts@)));
    out
}

fn widen(v: &Vec<u32>) -> (r: Vec<u64>)
    ensures
        widened(r@, v@),
{
    let mut out: Vec<u64> = Vec::new();
    let mut i: usize = 0;
    while i < v.len()
        invariant
            i <= v@.len(),
            out@.len() == i,
            forall|k: int| 0 <= k < i ==> #[trigger] out@[k] == v@[k],
        decreases v@.len() - i,
    {
        out.push(v[i] as u64);
        i += 1;
    }
    out
}

/// Reads what the records say of sheet `k`.
pub fn read_sheet(records: &Vec<Record>, places: &Placement, k: usize) -> (r: Sheet)
    requires
        places.describes(recs(records@)),
        k < places.sheets@.len(),
    ensures
        r.describes(recs(records@), k as int),
{
    let ghost rs = recs(records@);
    let ghost h = announced(rs, rs.len() as int);
    assert(h[k as int] == places.sheets@[k as int]@);
    let (rows, cols) = hidden_of(records, places, k);
    let (link_records, picture_shapes, drawing_records) = counts_of(records, places, k);
    let mut first: bool = true;
    let mut j: usize = 0;
    while j < k && first
        invariant
            j <= k,
            k < places.sheets@.len(),
            h == announced(rs, rs.len() as int),
            places.describes(rs),
            h[k as int] == places.sheets@[k as int]@,
            first ==> forall|x: int| 0 <= x < j ==> (#[trigger] h[x]).name != h[k as int].name,
            !first ==> !first_of_name(h, k as int),
        decreases k - j + if first { 1int } else { 0int },
    {
        assert(h[j as int] == places.sheets@[j as int]@);
        if same(places.sheets[j].name.as_str(), places.sheets[k].name.as_str()) {
            first = false;
        } else {
            j += 1;
        }
    }
    let (texts, cells) = if first {
        notes_in(records, places, places.sheets[k].name.as_str())
    } else {
        (Vec::new(), Vec::new())
    };
    assert(note_pairs(texts@) =~= sheet_texts(rs, k as int));
    assert(comment_models(cells@) =~= sheet_cells(rs, k as int));
    Sheet {
        name: places.sheets[k].name.clone(),
        state: places.sheets[k].state,
        record_start: places.sheets[k].start,
        protection: protection_in(records, places, k),
        hidden_rows: widen(&put_in_order(&rows)),
        hidden_cols: widen(&put_in_order(&cols)),
        comments: pair_up(&cells, &texts),
        note_text_records: texts.len(),
        note_cell_records: cells.len(),
        links: links_in(records, places, k),
        link_records,
        picture_shapes,
        drawing_records,
    }
}

/// What stands in one of the joined lists stands in the whole, and what stands in the whole stands
/// in one of them.
proof fn lemma_joined_holds<T>(f: spec_fn(int) -> Seq<T>, n: int, v: T)
    ensures
        joined(f, n).contains(v) <==> exists|i: int| 0 <= i < n && #[trigger] f(i).contains(v),
    decreases n,
{
    if n > 0 {
        lemma_joined_holds(f, n - 1, v);
        let front = joined(f, n - 1);
        let own = f(n - 1);
        if joined(f, n).contains(v) {
            let k = choose|k: int| 0 <= k < joined(f, n).len() && joined(f, n)[k] == v;
            if k < front.len() {
                assert(front[k] == v);
                assert(front.contains(v));
                let i = choose|i: int| 0 <= i < n - 1 && #[trigger] f(i).contains(v);
                assert(f(i).contains(v));
            } else {
                assert(own[k - front.len()] == v);
                assert(f(n - 1).contains(v));
            }
        }
        if exists|i: int| 0 <= i < n && #[trigger] f(i).contains(v) {
            let i = choose|i: int| 0 <= i < n && #[trigger] f(i).contains(v);
            if i == n - 1 {
                let k = choose|k: int| 0 <= k < own.len() && own[k] == v;
                assert((front + own)[front.len() + k] == v);
            } else {
                assert(front.contains(v));
                let k = choose|k: int| 0 <= k < front.len() && front[k] == v;
                assert((front + own)[k] == v);
            }
        }
    }
}

/// A row is listed as hidden exactly where a row record of the sheet says so: in bit 5 of byte 8 or
/// of byte 12. The list is in increasing order.
pub proof fn law_hidden_rows_are_those_that_say_so(s: Sheet, rs: Seq<Rec>, k: int, row: u32)
    requires
        s.describes(rs, k),
    ensures
        s.hidden_rows@.contains(row as u64) <==> exists|i: int|
            0 <= i < rs.len() && (#[trigger] rs[i]).op == 0x0208 && target(rs, i) == Some(k) && ((
            at16(rs[i].body, 8) / 32) % 2 == 1 || (at16(rs[i].body, 12) / 32) % 2 == 1) && at16(
                rs[i].body,
                0,
            ) == row,
        forall|a: int, b: int|
            0 <= a < b < s.hidden_rows@.len() ==> s.hidden_rows@[a] < s.hidden_rows@[b],
{
    let n = rs.len() as int;
    let all = joined(row_list(rs, k), n);
    lemma_ascending(all);
    lemma_joined_holds(row_list(rs, k), n, row);
    lemma_widened_holds(s.hidden_rows@, ascending(all), row);
    if exists|i: int| 0 <= i < n && #[trigger] row_list(rs, k)(i).contains(row) {
        let i = choose|i: int| 0 <= i < n && #[trigger] row_list(rs, k)(i).contains(row);
        assert(rows_at(rs, k, i).contains(row));
        assert(rs[i].op == 0x0208);
    }
    if exists|i: int|
        0 <= i < rs.len() && (#[trigger] rs[i]).op == 0x0208 && target(rs, i) == Some(k) && ((at16(
            rs[i].body,
            8,
        ) / 32) % 2 == 1 || (at16(rs[i].body, 12) / 32) % 2 == 1) && at16(rs[i].body, 0) == row {
        let i = choose|i: int|
            0 <= i < rs.len() && (#[trigger] rs[i]).op == 0x0208 && target(rs, i) == Some(k) && ((
            at16(rs[i].body, 8) / 32) % 2 == 1 || (at16(rs[i].body, 12) / 32) % 2 == 1) && at16(
                rs[i].body,
                0,
            ) == row;
        assert(row_list(rs, k)(i) == seq![row]);
        assert(seq![row][0] == row);
        assert(row_list(rs, k)(i).contains(row));
    }
}

proof fn lemma_widened_holds(v: Seq<u64>, s: Seq<u32>, x: u32)
    requires
        widened(v, s),
    ensures
        v.contains(x as u64) <==> s.contains(x),
{
    if v.contains(x as u64) {
        let i = choose|i: int| 0 <= i < v.len() && v[i] == x as u64;
        assert(s[i] == x);
    }
    if s.contains(x) {
        let i = choose|i: int| 0 <= i < s.len() && s[i] == x;
        assert(v[i] == x as u64);
    }
}

/// A column is listed as hidden exactly where a column record of the sheet, of the newer number or
/// the older, has the lowest bit of byte 8 set and the column lies between its first and its last,
/// both counted. The list is in increasing order.
pub proof fn law_hidden_columns_are_those_that_say_so(s: Sheet, rs: Seq<Rec>, k: int, col: u32)
    requires
        s.describes(rs, k),
    ensures
        s.hidden_cols@.contains(col as u64) <==> exists|i: int|
            0 <= i < rs.len() && ((#[trigger] rs[i]).op == 0x07D0 || rs[i].op == 0x007D) && target(
                rs,
                i,
            ) == Some(k) && at16(rs[i].body, 8) % 2 == 1 && at16(rs[i].body, 0) <= col <= at16(
                rs[i].body,
                2,
            ),
        forall|a: int, b: int|
            0 <= a < b < s.hidden_cols@.len() ==> s.hidden_cols@[a] < s.hidden_cols@[b],
{
    let n = rs.len() as int;
    let all = joined(col_list(rs, k), n);
    lemma_ascending(all);
    lemma_joined_holds(col_list(rs, k), n, col);
    lemma_widened_holds(s.hidden_cols@, ascending(all), col);
    if exists|i: int| 0 <= i < n && #[trigger] col_list(rs, k)(i).contains(col) {
        let i = choose|i: int| 0 <= i < n && #[trigger] col_list(rs, k)(i).contains(col);
        assert(cols_at(rs, k, i).contains(col));
        assert(rs[i].op == 0x07D0 || rs[i].op == 0x007D);
    }
    if exists|i: int|
        0 <= i < rs.len() && ((#[trigger] rs[i]).op == 0x07D0 || rs[i].op == 0x007D) && target(rs, i)
            == Some(k) && at16(rs[i].body, 8) % 2 == 1 && at16(rs[i].body, 0) <= col <= at16(
            rs[i].body,
            2,
        ) {
        let i = choose|i: int|
            0 <= i < rs.len() && ((#[trigger] rs[i]).op == 0x07D0 || rs[i].op == 0x007D) && target(
                rs,
                i,
            ) == Some(k) && at16(rs[i].body, 8) % 2 == 1 && at16(rs[i].body, 0) <= col <= at16(
                rs[i].body,
                2,
            );
        let b = rs[i].body;
        assert(cols_at(rs, k, i)[col - at16(b, 0)] == col);
        assert(col_list(rs, k)(i).contains(col));
    }
}

/// What protects a sheet is what the last record of each of three numbers says of it: whether it is
/// locked, its password and whether its scenarios are locked.
pub proof fn law_the_last_protection_counts(s: Sheet, rs: Seq<Rec>, k: int, i: int)
    requires
        s.describes(rs, k),
        0 <= i < rs.len(),
        rs[i].op == 0x0012 || rs[i].op == 0x0013 || rs[i].op == 0x00DD,
        target(rs, i) == Some(k),
        rs[i].body.len() >= 2,
        forall|j: int|
            i < j < rs.len() ==> (#[trigger] rs[j]).op != rs[i].op || target(rs, j) != Some(k)
                || rs[j].body.len() < 2,
    ensures
        s.protection@.contains_key(rs[i].op),
        s.protection@[rs[i].op] == rs[i].body[0] + 256 * rs[i].body[1],
{
    lemma_protection_kept(rs, k, i, rs.len() as int);
}

proof fn lemma_protection_kept(rs: Seq<Rec>, k: int, i: int, n: int)
    requires
        0 <= i < n <= rs.len(),
        protects(rs[i].op),
        target(rs, i) == Some(k),
        rs[i].body.len() >= 2,
        forall|j: int|
            i < j < rs.len() ==> (#[trigger] rs[j]).op != rs[i].op || target(rs, j) != Some(k)
                || rs[j].body.len() < 2,
    ensures
        protection_of(rs, k, n).contains_key(rs[i].op),
        protection_of(rs, k, n)[rs[i].op] == at16(rs[i].body, 0),
    decreases n,
{
    if i < n - 1 {
        lemma_protection_kept(rs, k, i, n - 1);
        assert(rs[n - 1].op != rs[i].op || target(rs, n - 1) != Some(k) || rs[n - 1].body.len()
            < 2);
    }
}

/// Only the three records that protect something have a say in it.
pub proof fn law_nothing_else_protects(s: Sheet, rs: Seq<Rec>, k: int, op: u64)
    requires
        s.describes(rs, k),
        s.protection@.contains_key(op),
    ensures
        op == 0x0012 || op == 0x0013 || op == 0x00DD,
{
    lemma_protection_keys(rs, k, rs.len() as int, op);
}

proof fn lemma_protection_keys(rs: Seq<Rec>, k: int, n: int, op: u64)
    requires
        protection_of(rs, k, n).contains_key(op),
    ensures
        op == 0x0012 || op == 0x0013 || op == 0x00DD,
    decreases n,
{
    if n > 0 && protection_of(rs, k, n - 1).contains_key(op) {
        lemma_protection_keys(rs, k, n - 1, op);
    }
}

/// The counts of a sheet: each link record, each drawing record and each shape that is a picture
/// counts one, and no other record anything.
pub proof fn law_records_of_a_sheet_count_one_each(rs: Seq<Rec>, k: int, n: int, op: u64)
    requires
        0 <= n < rs.len(),
    ensures
        count_of(rs, k, op, 0) == 0,
        picture_count(rs, k, 0) == 0,
        count_of(rs, k, op, n + 1) == count_of(rs, k, op, n) + if rs[n].op == op && target(rs, n)
            == Some(k) {
            1nat
        } else {
            0nat
        },
        rs[n].op == 0x005D && target(rs, n) == Some(k) && rs[n].body.len() >= 6 && rs[n].body[4]
            == 8 && rs[n].body[5] == 0 ==> picture_count(rs, k, n + 1) == picture_count(rs, k, n)
            + 1,
        rs[n].op != 0x005D || rs[n].body.len() < 6 || rs[n].body[4] != 8 || rs[n].body[5] != 0
            ==> picture_count(rs, k, n + 1) == picture_count(rs, k, n),
{
}

/// Which records the counts of a sheet are over.
pub proof fn law_what_a_sheet_counts(s: Sheet, rs: Seq<Rec>, k: int)
    requires
        s.describes(rs, k),
    ensures
        s.link_records == count_of(rs, k, 0x01B8, rs.len() as int),
        s.drawing_records == count_of(rs, k, 0x00EC, rs.len() as int),
        s.picture_shapes == picture_count(rs, k, rs.len() as int),
        s.links@.len() <= s.link_records,
        s.comments@.len() <= s.note_text_records,
        s.comments@.len() <= s.note_cell_records,
        s.comments@.len() == s.note_text_records || s.comments@.len() == s.note_cell_records,
{
    lemma_links_fit(rs, k, rs.len() as int);
    assert(comment_models(s.comments@).len() == s.comments@.len());
}

proof fn lemma_links_fit(rs: Seq<Rec>, k: int, n: int)
    ensures
        joined(link_list(rs, k), n).len() <= count_of(rs, k, 0x01B8, n),
    decreases n,
{
    if n > 0 {
        lemma_links_fit(rs, k, n - 1);
    }
}

/// A comment record says its cell in its first four bytes, how long the author's name is in bytes 8
/// and 9 and how it is spelled in the lowest bit of byte 10.
pub proof fn law_a_comment_cell_is_its_bytes(b: Seq<u8>)
    requires
        b.len() >= 11,
    ensures
        ({
            let many = (b[8] + 256 * b[9]) * (1 + b[10] % 2);
            let c = note_cell(b);
            &&& c.reference == cell_name(b[0] + 256 * b[1], b[2] + 256 * b[3])
            &&& 11 + many <= b.len() ==> c.whole && c.author == spelling(
                b.subrange(11, 11 + many),
                b[10] % 2 == 1,
            )
            &&& 11 + many > b.len() ==> !c.whole
        }),
{
    let n = b[8] + 256 * b[9];
    assert(n * (1 + b[10] % 2) == if b[10] % 2 == 1 {
        2 * n
    } else {
        n
    }) by (nonlinear_arith);
}

/// The text of a comment stands in the first record that continues its own and is not empty, behind
/// a byte that is one where the text takes two bytes a character. How many characters there are
/// stands in bytes 10 and 11 of the comment's own record.
pub proof fn law_a_comment_text_stands_behind_its_flag(rs: Seq<Rec>, i: int)
    requires
        0 <= i,
        i + 1 < rs.len(),
        rs[i].body.len() >= 12,
        rs[i + 1].op == 0x003C,
        rs[i + 1].body.len() > 0,
    ensures
        ({
            let blob = rs[i + 1].body;
            let count = rs[i].body[10] + 256 * rs[i].body[11];
            let many = count * if blob[0] == 1 {
                2int
            } else {
                1
            };
            &&& 1 + many <= blob.len() ==> note_text(rs, i) == (
                spelling(blob.subrange(1, 1 + many), blob[0] == 1),
                true,
            )
            &&& 1 + many > blob.len() ==> !note_text(rs, i).1
        }),
{
    let blob = rs[i + 1].body;
    let count = rs[i].body[10] + 256 * rs[i].body[11];
    assert(at16(rs[i].body, 10) == count);
    assert(first_blob(rs, i + 1) == Some(blob));
    assert(count * 2 == 2 * count && count * 1 == count);
}

/// Which records are comments: the texts are those of one number and the cells those of another, and
/// both are paired in order.
pub proof fn law_comments_are_paired_in_order(s: Sheet, rs: Seq<Rec>, k: int, i: int, name: Seq<char>)
    requires
        s.describes(rs, k),
        0 <= i < rs.len(),
    ensures
        rs[i].op != 0x01B6 ==> note_texts_at(rs, name, i).len() == 0,
        rs[i].op != 0x001C ==> note_cells_at(rs, name, i).len() == 0,
        rs[i].op == 0x01B6 && owner_name(rs, i) == Some(name) ==> note_texts_at(rs, name, i)
            == seq![note_text(rs, i)],
        rs[i].op == 0x001C && owner_name(rs, i) == Some(name) && rs[i].body.len() >= 4
            ==> note_cells_at(rs, name, i) == seq![note_cell(rs[i].body)],
        forall|j: int|
            0 <= j < s.comments@.len() ==> (#[trigger] s.comments@[j]).reference@ == sheet_cells(
                rs,
                k,
            )[j].reference && s.comments@[j].author@ == sheet_cells(rs, k)[j].author
                && s.comments@[j].text@ == sheet_texts(rs, k)[j].0 && s.comments@[j].whole == (
            sheet_cells(rs, k)[j].whole && sheet_texts(rs, k)[j].1),
{
    let m = comment_models(s.comments@);
    assert(m.len() == s.comments@.len());
    assert forall|j: int| 0 <= j < s.comments@.len() implies (#[trigger]
    s.comments@[j]).reference@ == sheet_cells(rs, k)[j].reference && s.comments@[j].author@
        == sheet_cells(rs, k)[j].author && s.comments@[j].text@ == sheet_texts(rs, k)[j].0
        && s.comments@[j].whole == (sheet_cells(rs, k)[j].whole && sheet_texts(rs, k)[j].1) by {
        assert(m[j] == s.comments@[j]@);
        assert(m[j] == paired(sheet_cells(rs, k), sheet_texts(rs, k))[j]);
    }
}

/// A sheet has the name, the state and the start that its own record announces.
pub proof fn law_a_sheet_is_the_one_announced(s: Sheet, rs: Seq<Rec>, k: int)
    requires
        s.describes(rs, k),
    ensures
        s.name@ == announced(rs, rs.len() as int)[k].name,
        s.state@ == announced(rs, rs.len() as int)[k].state,
        s.record_start == announced(rs, rs.len() as int)[k].start,
{
}

} // verus!
