//! The shared string table: text that runs through a record and the records that continue it.
//!
//! Where a text goes on in a new chunk, the chunk begins with a flag byte of its own, so one
//! text can be half single bytes and half UTF-16 units.

use crate::bytes::{word16, word32};
use crate::cfb::{units, utf16_name};
use crate::codepage::{cp1252, decode_cp1252};
use crate::lists::append_range;
use crate::text::{texts, utf16};
use vstd::prelude::*;

verus! {

/// The bytes of each chunk.
pub open spec fn chunk_bytes(chunks: Seq<Vec<u8>>) -> Seq<Seq<u8>> {
    Seq::new(chunks.len(), |i: int| chunks[i]@)
}

/// A place in a list of chunks.
pub struct Cursor {
    pub chunk: int,
    pub pos: int,
}

/// The place lies in a chunk or at its end, or behind all chunks.
pub open spec fn inside(chunks: Seq<Seq<u8>>, c: Cursor) -> bool {
    0 <= c.chunk && 0 <= c.pos && (c.chunk < chunks.len() ==> c.pos <= chunks[c.chunk].len())
}

/// How much is left of the chunk at a place.
pub open spec fn room_at(chunks: Seq<Seq<u8>>, c: Cursor) -> int {
    if 0 <= c.chunk < chunks.len() && 0 <= c.pos < chunks[c.chunk].len() {
        chunks[c.chunk].len() - c.pos
    } else {
        0
    }
}

/// Bytes taken from a place on, or `None` where there are too few, and the place after them.
pub struct Taken {
    pub bytes: Option<Seq<u8>>,
    pub after: Cursor,
}

/// Takes `n` bytes from a place on, through as many chunks as it takes.
pub open spec fn taken(chunks: Seq<Seq<u8>>, c: Cursor, n: int) -> Taken
    decreases chunks.len() - c.chunk,
{
    let room = room_at(chunks, c);
    if n <= 0 {
        Taken { bytes: Some(Seq::empty()), after: c }
    } else if c.chunk >= chunks.len() {
        Taken { bytes: None, after: c }
    } else if room >= n {
        Taken {
            bytes: Some(chunks[c.chunk].subrange(c.pos, c.pos + n)),
            after: Cursor { chunk: c.chunk, pos: c.pos + n },
        }
    } else if c.chunk + 1 >= chunks.len() {
        Taken { bytes: None, after: Cursor { chunk: c.chunk, pos: c.pos + room } }
    } else {
        let rest = taken(chunks, Cursor { chunk: c.chunk + 1, pos: 0 }, n - room);
        Taken {
            bytes: match rest.bytes {
                Some(t) => Some(chunks[c.chunk].subrange(c.pos, c.pos + room) + t),
                None => None,
            },
            after: rest.after,
        }
    }
}

/// Taking bytes never goes back, and gives as many as asked for.
pub proof fn lemma_taken(chunks: Seq<Seq<u8>>, c: Cursor, n: int)
    requires
        0 <= n,
        inside(chunks, c),
    ensures
        taken(chunks, c, n).after.chunk >= c.chunk,
        inside(chunks, taken(chunks, c, n).after),
        c.chunk < chunks.len() ==> taken(chunks, c, n).after.chunk < chunks.len(),
        taken(chunks, c, n).bytes matches Some(t) ==> t.len() == n,
    decreases chunks.len() - c.chunk,
{
    let room = room_at(chunks, c);
    if n > 0 && c.chunk + 1 < chunks.len() && room < n {
        lemma_taken(chunks, Cursor { chunk: c.chunk + 1, pos: 0 }, n - room);
    }
}

/// What bytes spell: UTF-16 units, or single bytes of the Western code page.
pub open spec fn spelling(raw: Seq<u8>, wide: bool) -> Seq<char> {
    if wide {
        utf16(units(raw, 0, raw.len() as int / 2))
    } else {
        cp1252(raw)
    }
}

/// Reads text that is spelled in UTF-16 units or in single bytes.
pub fn spell(raw: &[u8], wide: bool) -> (r: String)
    ensures
        r@ == spelling(raw@, wide),
{
    if wide {
        utf16_name(raw, 0, raw.len())
    } else {
        decode_cp1252(raw)
    }
}

/// Text read from a place on, and the place after it.
pub struct Spelled {
    pub text: Seq<char>,
    pub after: Cursor,
}

/// Reads `left` characters from a place on. Where the chunk has no room for one more, the text
/// goes on in the next chunk behind a flag byte, and where there is none it ends.
pub open spec fn spelled(chunks: Seq<Seq<u8>>, c: Cursor, wide: bool, left: int) -> Spelled
    decreases chunks.len() - c.chunk, left,
    when inside(chunks, c)
{
    let per = if wide {
        2int
    } else {
        1int
    };
    let room = room_at(chunks, c) / per;
    let can = if left < room {
        left
    } else {
        room
    };
    if left <= 0 {
        Spelled { text: Seq::empty(), after: c }
    } else if can > 0 {
        let here = chunks[c.chunk].subrange(c.pos, c.pos + can * per);
        let rest = spelled(
            chunks,
            Cursor { chunk: c.chunk, pos: c.pos + can * per },
            wide,
            left - can,
        );
        Spelled { text: spelling(here, wide) + rest.text, after: rest.after }
    } else if c.chunk + 1 >= chunks.len() {
        Spelled { text: Seq::empty(), after: c }
    } else {
        let flag = taken(chunks, Cursor { chunk: c.chunk + 1, pos: 0 }, 1);
        proof {
            lemma_taken(chunks, Cursor { chunk: c.chunk + 1, pos: 0 }, 1);
        }
        match flag.bytes {
            Some(f) => spelled(chunks, flag.after, f[0] % 2 == 1, left),
            None => Spelled { text: Seq::empty(), after: flag.after },
        }
    }
}

/// Reading text never goes back.
pub proof fn lemma_spelled(chunks: Seq<Seq<u8>>, c: Cursor, wide: bool, left: int)
    requires
        inside(chunks, c),
    ensures
        spelled(chunks, c, wide, left).after.chunk >= c.chunk,
        inside(chunks, spelled(chunks, c, wide, left).after),
        c.chunk < chunks.len() ==> spelled(chunks, c, wide, left).after.chunk < chunks.len(),
    decreases chunks.len() - c.chunk, left,
{
    let per = if wide {
        2int
    } else {
        1int
    };
    let room = room_at(chunks, c) / per;
    let can = if left < room {
        left
    } else {
        room
    };
    if left > 0 {
        if can > 0 {
            lemma_spelled(
                chunks,
                Cursor { chunk: c.chunk, pos: c.pos + can * per },
                wide,
                left - can,
            );
        } else if c.chunk + 1 < chunks.len() {
            let flag = taken(chunks, Cursor { chunk: c.chunk + 1, pos: 0 }, 1);
            lemma_taken(chunks, Cursor { chunk: c.chunk + 1, pos: 0 }, 1);
            if flag.bytes is Some {
                lemma_spelled(chunks, flag.after, flag.bytes->0[0] % 2 == 1, left);
            }
        }
    }
}

/// The head of one string: how many characters it has, how it is spelled, and how much follows
/// it that is no text.
pub struct Head {
    pub count: int,
    pub wide: bool,
    pub runs: int,
    pub extra: int,
    pub after: Cursor,
}

/// Reads the head of a string. A head that breaks off after its first three bytes announces
/// nothing more.
pub open spec fn head_at(chunks: Seq<Seq<u8>>, c: Cursor) -> Option<Head> {
    let start = taken(chunks, c, 3);
    match start.bytes {
        None => None,
        Some(h) => {
            let rich = (h[2] / 8) % 2 == 1;
            let ext = (h[2] / 4) % 2 == 1;
            let runs = taken(chunks, start.after, if rich { 2 } else { 0 });
            let extra = taken(chunks, runs.after, if ext { 4 } else { 0 });
            Some(
                Head {
                    count: word16(h, 0),
                    wide: h[2] % 2 == 1,
                    runs: if rich && runs.bytes is Some { word16(runs.bytes->0, 0) } else { 0 },
                    extra: if ext && extra.bytes is Some { word32(extra.bytes->0, 0) } else { 0 },
                    after: extra.after,
                },
            )
        },
    }
}

/// The place after a string whose text ends at `c`.
pub open spec fn tail_after(chunks: Seq<Seq<u8>>, h: Head, c: Cursor) -> Cursor {
    taken(chunks, taken(chunks, c, 4 * h.runs).after, h.extra).after
}

/// The strings of a table, and whether there were fewer than it promised.
pub struct Strings {
    pub found: Seq<Seq<char>>,
    pub short: bool,
}

/// Reads `unique` strings from a place on.
pub open spec fn strings_from(chunks: Seq<Seq<u8>>, c: Cursor, unique: nat) -> Strings
    decreases unique,
{
    if unique == 0 {
        Strings { found: Seq::empty(), short: false }
    } else {
        match head_at(chunks, c) {
            None => Strings { found: Seq::empty(), short: true },
            Some(h) => {
                let text = spelled(chunks, h.after, h.wide, h.count);
                let rest = strings_from(
                    chunks,
                    tail_after(chunks, h, text.after),
                    (unique - 1) as nat,
                );
                Strings { found: seq![text.text] + rest.found, short: rest.short }
            },
        }
    }
}

/// Reads a string table that promises `unique` strings.
pub open spec fn strings_in(chunks: Seq<Seq<u8>>, unique: int) -> Strings {
    strings_from(chunks, Cursor { chunk: 0, pos: 0 }, unique as nat)
}

/// Takes bytes from a list of chunks in order.
pub struct ChunkReader<'a> {
    pub chunks: &'a [Vec<u8>],
    pub chunk: usize,
    pub pos: usize,
}

impl<'a> ChunkReader<'a> {
    pub open spec fn bytes(self) -> Seq<Seq<u8>> {
        chunk_bytes(self.chunks@)
    }

    pub open spec fn place(self) -> Cursor {
        Cursor { chunk: self.chunk as int, pos: self.pos as int }
    }

    pub open spec fn wf(self) -> bool {
        inside(self.bytes(), self.place())
    }

    pub fn new(chunks: &'a [Vec<u8>]) -> (r: Self)
        ensures
            r.wf(),
            r.chunks@ == chunks@,
            r.place() == (Cursor { chunk: 0, pos: 0 }),
    {
        ChunkReader { chunks, chunk: 0, pos: 0 }
    }

    /// How much is left of the chunk.
    pub fn room(&self) -> (r: usize)
        requires
            self.wf(),
        ensures
            r == room_at(self.bytes(), self.place()),
    {
        if self.chunk < self.chunks.len() {
            assert(self.bytes()[self.chunk as int] == self.chunks@[self.chunk as int]@);
            self.chunks[self.chunk].len() - self.pos
        } else {
            0
        }
    }

    /// Goes on to the next chunk, if there is one.
    pub fn next_chunk(&mut self) -> (r: bool)
        requires
            old(self).wf(),
        ensures
            final(self).wf(),
            final(self).chunks@ == old(self).chunks@,
            r == (old(self).chunk + 1 < old(self).chunks@.len()),
            final(self).place() == (if r {
                Cursor { chunk: old(self).chunk + 1, pos: 0 }
            } else {
                old(self).place()
            }),
    {
        if self.chunks.len() == 0 || self.chunk >= self.chunks.len() - 1 {
            return false;
        }
        self.chunk = self.chunk + 1;
        self.pos = 0;
        true
    }

    /// Takes `n` bytes, through as many chunks as it takes.
    pub fn take(&mut self, n: usize) -> (r: Option<Vec<u8>>)
        requires
            old(self).wf(),
        ensures
            final(self).wf(),
            final(self).chunks@ == old(self).chunks@,
            ({
                let t = taken(old(self).bytes(), old(self).place(), n as int);
                &&& final(self).place() == t.after
                &&& match r {
                    Some(v) => t.bytes == Some(v@) && v@.len() == n,
                    None => t.bytes is None,
                }
            }),
    {
        let ghost cs = self.bytes();
        let ghost all = taken(cs, self.place(), n as int);
        let mut out: Vec<u8> = Vec::new();
        assert(all.bytes matches Some(t) ==> out@ + t =~= t);
        while out.len() < n
            invariant
                self.wf(),
                self.chunks@ == old(self).chunks@,
                cs == self.bytes(),
                all == taken(cs, old(self).place(), n as int),
                out@.len() <= n,
                ({
                    let rest = taken(cs, self.place(), n - out@.len());
                    &&& rest.after == all.after
                    &&& match rest.bytes {
                        Some(t) => all.bytes == Some(out@ + t),
                        None => all.bytes is None,
                    }
                }),
            decreases self.chunks@.len() - self.chunk, n - out@.len(),
        {
            if self.chunk >= self.chunks.len() {
                return None;
            }
            let room: usize = self.room();
            let ghost want = n - out@.len();
            let ghost here = self.place();
            if room == 0 {
                if !self.next_chunk() {
                    return None;
                }
                proof {
                    let rest = taken(cs, self.place(), want);
                    assert(rest.bytes matches Some(t) ==> cs[here.chunk].subrange(
                        here.pos,
                        here.pos,
                    ) + t =~= t);
                }
                continue ;
            }
            let grab: usize = if room < n - out.len() {
                room
            } else {
                n - out.len()
            };
            let ghost before = out@;
            let held: usize = self.chunks[self.chunk].len();
            assert(cs[here.chunk] == self.chunks@[here.chunk]@);
            assert(self.pos + grab <= held);
            append_range(
                &mut out,
                self.chunks[self.chunk].as_slice(),
                self.pos,
                self.pos + grab,
            );
            self.pos = self.pos + grab;
            proof {
                let ghost new_place = self.place();
                if grab < want {
                    if here.chunk + 1 < cs.len() {
                        let next = Cursor { chunk: here.chunk + 1, pos: 0 };
                        let rest = taken(cs, next, want - grab);
                        assert(rest.bytes matches Some(t) ==> before + (cs[here.chunk].subrange(
                            here.pos,
                            here.pos + room,
                        ) + t) =~= out@ + (cs[here.chunk].subrange(
                            new_place.pos,
                            new_place.pos,
                        ) + t));
                    }
                } else {
                    assert(out@ + Seq::<u8>::empty() =~= out@);
                }
            }
        }
        assert(out@ + Seq::<u8>::empty() =~= out@);
        Some(out)
    }
}

/// Reads `left` characters.
fn read_text(cursor: &mut ChunkReader, wide: bool, left: usize) -> (r: String)
    requires
        old(cursor).wf(),
    ensures
        final(cursor).wf(),
        final(cursor).chunks@ == old(cursor).chunks@,
        ({
            let s = spelled(old(cursor).bytes(), old(cursor).place(), wide, left as int);
            &&& r@ == s.text
            &&& final(cursor).place() == s.after
        }),
{
    let ghost cs = cursor.bytes();
    let ghost all = spelled(cs, cursor.place(), wide, left as int);
    let mut out: String = String::new();
    let mut wide: bool = wide;
    let mut remaining: usize = left;
    assert(out@ + all.text =~= all.text);
    while remaining > 0
        invariant_except_break
            out@ + spelled(cs, cursor.place(), wide, remaining as int).text == all.text,
            spelled(cs, cursor.place(), wide, remaining as int).after == all.after,
        invariant
            cursor.wf(),
            cursor.chunks@ == old(cursor).chunks@,
            cs == cursor.bytes(),
        ensures
            out@ == all.text,
            cursor.place() == all.after,
        decreases cursor.chunks@.len() - cursor.chunk, remaining,
    {
        assert(out@ + Seq::<char>::empty() =~= out@);
        let ghost here = cursor.place();
        let ghost rest = spelled(cs, here, wide, remaining as int);
        let per: usize = if wide {
            2
        } else {
            1
        };
        let room: usize = cursor.room() / per;
        let can: usize = if remaining < room {
            remaining
        } else {
            room
        };
        if can == 0 {
            if !cursor.next_chunk() {
                break;
            }
            proof {
                lemma_taken(cs, Cursor { chunk: here.chunk + 1, pos: 0 }, 1);
            }
            match cursor.take(1) {
                Some(one) => {
                    wide = one[0] % 2 == 1;
                    assert(spelled(cs, cursor.place(), wide, remaining as int) == rest);
                },
                None => {
                    break;
                },
            }
            continue ;
        }
        assert(can * per <= room * per) by (nonlinear_arith)
            requires
                can <= room,
                per >= 0,
        ;
        let raw: Vec<u8> = match cursor.take(can * per) {
            Some(raw) => raw,
            None => {
                break;
            },
        };
        let ghost before = out@;
        let said: String = spell(raw.as_slice(), wide);
        out.append(said.as_str());
        remaining -= can;
        proof {
            let more = spelled(cs, cursor.place(), wide, remaining as int);
            assert(before + (said@ + more.text) =~= out@ + more.text);
        }
    }
    out
}

/// Reads the head of a string.
fn read_head(cursor: &mut ChunkReader) -> (r: Option<(usize, bool, usize, usize)>)
    requires
        old(cursor).wf(),
    ensures
        final(cursor).wf(),
        final(cursor).chunks@ == old(cursor).chunks@,
        match r {
            Some(h) => match head_at(old(cursor).bytes(), old(cursor).place()) {
                Some(want) => {
                    &&& h.0 == want.count
                    &&& h.1 == want.wide
                    &&& h.2 == want.runs
                    &&& h.3 == want.extra
                    &&& h.2 < 0x1_0000
                    &&& final(cursor).place() == want.after
                },
                None => false,
            },
            None => head_at(old(cursor).bytes(), old(cursor).place()) is None,
        },
{
    let head: Vec<u8> = match cursor.take(3) {
        Some(head) => head,
        None => {
            return None;
        },
    };
    let count: usize = head[0] as usize + 256 * (head[1] as usize);
    let flags: u8 = head[2];
    let rich: bool = (flags / 8) % 2 == 1;
    let ext: bool = (flags / 4) % 2 == 1;
    let mut runs: usize = 0;
    if rich {
        if let Some(one) = cursor.take(2) {
            runs = one[0] as usize + 256 * (one[1] as usize);
        }
    }
    let mut extra: usize = 0;
    if ext {
        if let Some(one) = cursor.take(4) {
            let low: usize = one[0] as usize + 256 * (one[1] as usize);
            let high: usize = one[2] as usize + 256 * (one[3] as usize);
            extra = low + 0x1_0000 * high;
        }
    }
    Some((count, flags % 2 == 1, runs, extra))
}

/// Reads the shared strings. A string can run through several chunks, and each new chunk
/// begins with a flag byte that says how the rest of it is spelled. Where there are fewer
/// strings than promised, that is noted and those that are there are given.
pub fn shared_strings(
    chunks: &[Vec<u8>],
    unique: usize,
    notes: &mut Vec<String>,
) -> (r: Vec<String>)
    ensures
        ({
            let s = strings_in(chunk_bytes(chunks@), unique as int);
            &&& texts(r@) == s.found
            &&& texts(final(notes)@) == if s.short {
                texts(old(notes)@).push(
                    "SST 自报的条数比实际可读出的多，后面的读不出来"@,
                )
            } else {
                texts(old(notes)@)
            }
        }),
{
    let ghost cs = chunk_bytes(chunks@);
    let ghost all = strings_in(cs, unique as int);
    let mut cursor: ChunkReader = ChunkReader::new(chunks);
    let mut out: Vec<String> = Vec::new();
    let mut i: usize = 0;
    let mut short: bool = false;
    assert(texts(out@) + all.found =~= all.found);
    while i < unique
        invariant_except_break
            texts(out@) + strings_from(cs, cursor.place(), (unique - i) as nat).found
                == all.found,
            strings_from(cs, cursor.place(), (unique - i) as nat).short == all.short,
            !short,
        invariant
            i <= unique,
            cursor.wf(),
            cursor.chunks@ == chunks@,
            cs == chunk_bytes(chunks@),
        ensures
            texts(out@) == all.found,
            short == all.short,
        decreases unique - i,
    {
        assert(texts(out@) + Seq::<Seq<char>>::empty() =~= texts(out@));
        let ghost start = cursor.place();
        let (count, wide, runs, extra) = match read_head(&mut cursor) {
            Some(head) => head,
            None => {
                short = true;
                break;
            },
        };
        let text: String = read_text(&mut cursor, wide, count);
        let _ = cursor.take(runs * 4);
        let _ = cursor.take(extra);
        let ghost before = texts(out@);
        out.push(text);
        i += 1;
        proof {
            let rest = strings_from(cs, cursor.place(), (unique - i) as nat);
            assert(texts(out@) =~= before.push(text@));
            assert(before + (seq![text@] + rest.found) =~= texts(out@) + rest.found);
        }
    }
    if short {
        notes.push("SST 自报的条数比实际可读出的多，后面的读不出来".to_owned());
        assert(texts(notes@) =~= texts(old(notes)@).push(
            "SST 自报的条数比实际可读出的多，后面的读不出来"@,
        ));
    }
    out
}

/// A table never yields more strings than it promises, and it is called short exactly where it
/// yields fewer.
pub proof fn law_short_means_fewer(chunks: Seq<Seq<u8>>, c: Cursor, unique: nat)
    ensures
        strings_from(chunks, c, unique).found.len() <= unique,
        strings_from(chunks, c, unique).short <==> strings_from(chunks, c, unique).found.len()
            < unique,
    decreases unique,
{
    if unique > 0 {
        if let Some(h) = head_at(chunks, c) {
            let text = spelled(chunks, h.after, h.wide, h.count);
            law_short_means_fewer(
                chunks,
                tail_after(chunks, h, text.after),
                (unique - 1) as nat,
            );
        }
    }
}

/// Text that fits into what is left of its chunk is that many bytes of the chunk, spelled as
/// the string's own flag says.
pub proof fn law_text_inside_one_chunk(chunks: Seq<Seq<u8>>, c: Cursor, wide: bool, left: int)
    requires
        inside(chunks, c),
        0 < left,
        left * (if wide { 2int } else { 1int }) <= room_at(chunks, c),
    ensures
        ({
            let end = c.pos + left * (if wide { 2int } else { 1int });
            &&& spelled(chunks, c, wide, left).text == spelling(
                chunks[c.chunk].subrange(c.pos, end),
                wide,
            )
            &&& spelled(chunks, c, wide, left).after == (Cursor { chunk: c.chunk, pos: end })
        }),
{
    reveal_with_fuel(spelled, 2);
    let end = c.pos + left * (if wide { 2int } else { 1int });
    let here = spelling(chunks[c.chunk].subrange(c.pos, end), wide);
    assert(here + Seq::<char>::empty() =~= here);
}

/// One string of a table that lies in a single chunk: its length in two bytes, a flag byte whose
/// lowest bit says that it is spelled in two bytes a character, whose bit 3 that a number of
/// formatting runs follows and whose bit 2 that a number of further bytes follows, then the text,
/// then four bytes for each run and the further bytes. The next string begins behind all that.
pub proof fn law_a_string_of_the_table_is_its_bytes(chunks: Seq<Seq<u8>>, pos: int, unique: nat)
    requires
        chunks.len() == 1,
        0 <= pos,
        unique > 0,
        pos + 3 <= chunks[0].len(),
        ({
            let b = chunks[0];
            let f = b[pos + 2];
            let count = b[pos] + 256 * b[pos + 1];
            let rich = (f / 8) % 2 == 1;
            let more = (f / 4) % 2 == 1;
            let at = pos + 3 + if rich {
                2int
            } else {
                0
            };
            let runs = if rich {
                b[pos + 3] + 256 * b[pos + 4]
            } else {
                0
            };
            let extra = if more {
                b[at] + 0x100 * b[at + 1] + 0x1_0000 * b[at + 2] + 0x100_0000 * b[at + 3]
            } else {
                0
            };
            let text = at + if more {
                4int
            } else {
                0
            };
            text + count * (1 + f % 2) + 4 * runs + extra <= b.len()
        }),
    ensures
        ({
            let b = chunks[0];
            let f = b[pos + 2];
            let count = b[pos] + 256 * b[pos + 1];
            let rich = (f / 8) % 2 == 1;
            let more = (f / 4) % 2 == 1;
            let at = pos + 3 + if rich {
                2int
            } else {
                0
            };
            let runs = if rich {
                b[pos + 3] + 256 * b[pos + 4]
            } else {
                0
            };
            let extra = if more {
                b[at] + 0x100 * b[at + 1] + 0x1_0000 * b[at + 2] + 0x100_0000 * b[at + 3]
            } else {
                0
            };
            let text = at + if more {
                4int
            } else {
                0
            };
            let end = text + count * (1 + f % 2);
            let s = strings_from(chunks, Cursor { chunk: 0, pos }, unique);
            let rest = strings_from(
                chunks,
                Cursor { chunk: 0, pos: end + 4 * runs + extra },
                (unique - 1) as nat,
            );
            &&& s.found.len() == 1 + rest.found.len()
            &&& s.found[0] == spelling(b.subrange(text, end), f % 2 == 1)
            &&& s.found.skip(1) == rest.found
            &&& s.short == rest.short
        }),
{
    let b = chunks[0];
    let f = b[pos + 2];
    let c = Cursor { chunk: 0, pos };
    let h = b.subrange(pos, pos + 3);
    assert(h[0] == b[pos] && h[1] == b[pos + 1] && h[2] == f);
    let count = b[pos] + 256 * b[pos + 1];
    let rich = (f / 8) % 2 == 1;
    let more = (f / 4) % 2 == 1;
    let at = pos + 3 + if rich {
        2int
    } else {
        0
    };
    let runs = if rich {
        b[pos + 3] + 256 * b[pos + 4]
    } else {
        0
    };
    let extra = if more {
        b[at] + 0x100 * b[at + 1] + 0x1_0000 * b[at + 2] + 0x100_0000 * b[at + 3]
    } else {
        0
    };
    let text = at + if more {
        4int
    } else {
        0
    };
    assert(count * (1 + f % 2) == if f % 2 == 1 {
        2 * count
    } else {
        count
    }) by (nonlinear_arith)
        requires
            f % 2 == 0 || f % 2 == 1,
    ;
    let end = text + count * (1 + f % 2);
    assert(end + 4 * runs + extra <= b.len());
    assert(0 <= runs && 0 <= extra && 0 <= count);
    assert(taken(chunks, c, 3).bytes == Some(h));
    let c1 = Cursor { chunk: 0, pos: pos + 3 };
    assert(taken(chunks, c, 3).after == c1);
    let r = taken(chunks, c1, if rich { 2 } else { 0 });
    assert(r.after == (Cursor { chunk: 0, pos: at }));
    if rich {
        let rb = b.subrange(pos + 3, pos + 5);
        assert(r.bytes == Some(rb));
        assert(rb[0] == b[pos + 3] && rb[1] == b[pos + 4]);
    }
    let e = taken(chunks, r.after, if more { 4 } else { 0 });
    assert(e.after == (Cursor { chunk: 0, pos: text }));
    if more {
        let eb = b.subrange(at, at + 4);
        assert(e.bytes == Some(eb));
        assert(eb[0] == b[at] && eb[1] == b[at + 1] && eb[2] == b[at + 2] && eb[3] == b[at + 3]);
    }
    let head = head_at(chunks, c)->0;
    assert(head.count == count && head.wide == (f % 2 == 1) && head.runs == runs && head.extra
        == extra && head.after == (Cursor { chunk: 0, pos: text }));
    let t = spelled(chunks, head.after, head.wide, head.count);
    if count > 0 {
        law_text_inside_one_chunk(chunks, head.after, head.wide, head.count);
    } else {
        assert(b.subrange(text, end) =~= Seq::empty());
        assert(spelling(Seq::<u8>::empty(), f % 2 == 1) =~= Seq::empty()) by {
            assert(units(Seq::<u8>::empty(), 0, 0) =~= Seq::empty());
        }
    }
    assert(t.after == (Cursor { chunk: 0, pos: end }));
    let s = strings_from(chunks, c, unique);
    let rest = strings_from(
        chunks,
        Cursor { chunk: 0, pos: end + 4 * runs + extra },
        (unique - 1) as nat,
    );
    assert(tail_after(chunks, head, t.after) == (Cursor {
        chunk: 0,
        pos: end + 4 * runs + extra,
    }));
    assert(s.found =~= seq![t.text] + rest.found);
    assert(s.found.skip(1) =~= rest.found);
}

/// A text that does not fit into its chunk goes on in the next one behind a flag byte, which says
/// how the rest of it is spelled.
pub proof fn law_text_goes_on_behind_a_flag(
    chunks: Seq<Seq<u8>>,
    c: Cursor,
    wide: bool,
    left: int,
)
    requires
        inside(chunks, c),
        c.chunk + 1 < chunks.len(),
        chunks[c.chunk + 1].len() > 0,
        room_at(chunks, c) / (if wide { 2int } else { 1int }) < left,
    ensures
        ({
            let per = if wide {
                2int
            } else {
                1int
            };
            let here = room_at(chunks, c) / per;
            let rest = spelled(
                chunks,
                Cursor { chunk: c.chunk + 1, pos: 1 },
                chunks[c.chunk + 1][0] % 2 == 1,
                left - here,
            );
            &&& spelled(chunks, c, wide, left).text == spelling(
                chunks[c.chunk].subrange(c.pos, c.pos + here * per),
                wide,
            ) + rest.text
            &&& spelled(chunks, c, wide, left).after == rest.after
        }),
{
    let per = if wide {
        2int
    } else {
        1int
    };
    let here = room_at(chunks, c) / per;
    let d = Cursor { chunk: c.chunk, pos: c.pos + here * per };
    let next = Cursor { chunk: c.chunk + 1, pos: 0 };
    let flag = taken(chunks, next, 1);
    assert(chunks[c.chunk + 1].subrange(0, 1)[0] == chunks[c.chunk + 1][0]);
    let rest = spelled(
        chunks,
        Cursor { chunk: c.chunk + 1, pos: 1 },
        chunks[c.chunk + 1][0] % 2 == 1,
        left - here,
    );
    assert(room_at(chunks, c) - here * per < per) by (nonlinear_arith)
        requires
            here == room_at(chunks, c) / per,
            per == 1 || per == 2,
    ;
    assert(0 <= here * per <= room_at(chunks, c)) by (nonlinear_arith)
        requires
            here == room_at(chunks, c) / per,
            per == 1 || per == 2,
            room_at(chunks, c) >= 0,
    ;
    assert(inside(chunks, d));
    assert(room_at(chunks, d) / per == 0);
    assert(spelled(chunks, d, wide, left - here).text == rest.text);
    if here == 0 {
        assert(chunks[c.chunk].subrange(c.pos, c.pos + here * per) =~= Seq::empty());
        assert(spelling(Seq::<u8>::empty(), wide) =~= Seq::empty()) by {
            assert(units(Seq::<u8>::empty(), 0, 0) =~= Seq::empty());
        }
        assert(Seq::<char>::empty() + rest.text =~= rest.text);
    }
}

/// Two bytes a character are UTF-16 units with the lower byte first, and one byte a character is
/// the Western code page.
pub proof fn law_how_text_is_spelled(raw: Seq<u8>, i: int)
    ensures
        spelling(raw, false).len() == raw.len(),
        0 <= i < raw.len() && raw[i] < 0x80 ==> spelling(raw, false)[i] as int == raw[i],
        spelling(raw, false) == cp1252(raw),
        spelling(raw, true) == utf16(
            Seq::new(raw.len() / 2, |k: int| (raw[2 * k] + 256 * raw[2 * k + 1]) as u16),
        ),
{
    assert(units(raw, 0, raw.len() as int / 2) =~= Seq::new(
        raw.len() / 2,
        |k: int| (raw[2 * k] + 256 * raw[2 * k + 1]) as u16,
    ));
}

} // verus!
