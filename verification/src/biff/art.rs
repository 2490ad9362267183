//! Pictures inside drawing records.
//!
//! A drawing record holds a stream of records of its own. Their head is version and instance,
//! type, length, and some of them hold such a stream again.

use crate::bytes::{le32, word32};
use crate::lists::{piece, piece_of};
use vstd::prelude::*;

verus! {

/// Containers are entered no deeper than this.
pub const DEPTH_LIMIT: usize = 8;

/// How far into a picture record the mark of its format is looked for.
pub const WINDOW: usize = 128;

/// One picture record.
#[derive(Debug, Clone)]
pub struct Blip {
    pub offset: usize,
    pub instance: u64,
    pub cb: usize,
    pub magic_at: Option<usize>,
    pub kind: Option<&'static str>,
    pub inline_bytes: Option<usize>,
}

/// What a picture record says.
pub struct BlipModel {
    pub offset: int,
    pub instance: int,
    pub cb: int,
    pub magic: Option<(int, Seq<char>)>,
}

impl Blip {
    /// The record is what the model says. The picture's own bytes run from the mark to the end.
    pub open spec fn describes(self, m: BlipModel) -> bool {
        &&& self.offset == m.offset
        &&& self.instance == m.instance
        &&& self.cb == m.cb
        &&& match m.magic {
            Some((at, kind)) => {
                &&& self.magic_at == Some(at as usize)
                &&& 0 <= at <= self.cb
                &&& self.kind is Some
                &&& self.kind->0@ == kind
                &&& self.inline_bytes == Some((self.cb - at) as usize)
            },
            None => self.magic_at is None && self.kind is None && self.inline_bytes is None,
        }
    }
}

/// Whether `mark` stands at `at` and ends before `window`.
pub open spec fn marked(b: Seq<u8>, at: int, window: int, mark: Seq<u8>) -> bool {
    at + mark.len() <= window && b.subrange(at, at + mark.len()) == mark
}

/// The picture format whose mark stands at `at`.
pub open spec fn mark_at(b: Seq<u8>, at: int, window: int) -> Option<Seq<char>> {
    if marked(b, at, window, seq![0x89u8, 0x50, 0x4E, 0x47, 0x0D, 0x0A, 0x1A, 0x0A]) {
        Some("png"@)
    } else if marked(b, at, window, seq![0xFFu8, 0xD8, 0xFF]) {
        Some("jpeg"@)
    } else if marked(b, at, window, seq![0x47u8, 0x49, 0x46, 0x38]) {
        Some("gif"@)
    } else if marked(b, at, window, seq![0x42u8, 0x4D]) {
        Some("bmp"@)
    } else {
        None
    }
}

/// The earliest mark from `at` on.
pub open spec fn signature_from(b: Seq<u8>, at: int, window: int) -> Option<(int, Seq<char>)>
    decreases window - at,
{
    if at >= window {
        None
    } else {
        match mark_at(b, at, window) {
            Some(kind) => Some((at, kind)),
            None => signature_from(b, at + 1, window),
        }
    }
}

/// How much of a record is searched for a mark.
pub open spec fn window_of(b: Seq<u8>) -> int {
    if b.len() < WINDOW {
        b.len() as int
    } else {
        WINDOW as int
    }
}

/// The earliest mark in the first bytes of a record.
pub open spec fn signature(b: Seq<u8>) -> Option<(int, Seq<char>)> {
    signature_from(b, 0, window_of(b))
}

fn marked_at(b: &[u8], at: usize, window: usize, mark: &Vec<u8>) -> (r: bool)
    requires
        at <= window <= b@.len(),
        mark@.len() <= WINDOW,
    ensures
        r == marked(b@, at as int, window as int, mark@),
{
    if mark.len() > window - at {
        return false;
    }
    let mut i: usize = 0;
    while i < mark.len()
        invariant
            i <= mark@.len(),
            at + mark@.len() <= window <= b@.len(),
            forall|k: int| 0 <= k < i ==> b@[at + k] == mark@[k],
        decreases mark@.len() - i,
    {
        if b[at + i] != mark[i] {
            assert(b@.subrange(at as int, at + mark@.len())[i as int] != mark@[i as int]);
            return false;
        }
        i += 1;
    }
    assert(b@.subrange(at as int, at + mark@.len()) =~= mark@);
    true
}

/// Which picture format a record holds, and where its mark stands. The earliest mark counts,
/// since two letters of a longer head can look like a mark too.
pub fn signature_of(b: &[u8]) -> (r: Option<(usize, &'static str)>)
    ensures
        match r {
            Some((at, kind)) => signature(b@) == Some((at as int, kind@)) && at < b@.len(),
            None => signature(b@) is None,
        },
{
    let window: usize = if b.len() < WINDOW {
        b.len()
    } else {
        WINDOW
    };
    let png: Vec<u8> = vec![0x89u8, 0x50, 0x4E, 0x47, 0x0D, 0x0A, 0x1A, 0x0A];
    let jpeg: Vec<u8> = vec![0xFFu8, 0xD8, 0xFF];
    let gif: Vec<u8> = vec![0x47u8, 0x49, 0x46, 0x38];
    let bmp: Vec<u8> = vec![0x42u8, 0x4D];
    assert(png@ =~= seq![0x89u8, 0x50, 0x4E, 0x47, 0x0D, 0x0A, 0x1A, 0x0A]);
    assert(jpeg@ =~= seq![0xFFu8, 0xD8, 0xFF]);
    assert(gif@ =~= seq![0x47u8, 0x49, 0x46, 0x38]);
    assert(bmp@ =~= seq![0x42u8, 0x4D]);
    let mut at: usize = 0;
    while at < window
        invariant
            at <= window,
            window == window_of(b@),
            png@ == seq![0x89u8, 0x50, 0x4E, 0x47, 0x0D, 0x0A, 0x1A, 0x0A],
            jpeg@ == seq![0xFFu8, 0xD8, 0xFF],
            gif@ == seq![0x47u8, 0x49, 0x46, 0x38],
            bmp@ == seq![0x42u8, 0x4D],
            signature(b@) == signature_from(b@, at as int, window as int),
        decreases window - at,
    {
        if marked_at(b, at, window, &png) {
            return Some((at, "png"));
        }
        if marked_at(b, at, window, &jpeg) {
            return Some((at, "jpeg"));
        }
        if marked_at(b, at, window, &gif) {
            return Some((at, "gif"));
        }
        if marked_at(b, at, window, &bmp) {
            return Some((at, "bmp"));
        }
        at += 1;
    }
    None
}

/// The pictures in a record stream from `at` on. `base` is where the stream itself begins.
pub open spec fn blips_in(buf: Seq<u8>, base: int, depth: int, at: int) -> Seq<BlipModel>
    decreases DEPTH_LIMIT + 1 - depth, buf.len() - at,
{
    if depth > DEPTH_LIMIT || at < 0 || at + 8 > buf.len() {
        Seq::empty()
    } else {
        let head = word32(buf, at);
        let cb = word32(buf, at + 4);
        let body = piece(buf, at + 8, cb);
        let kind = head / 0x1_0000;
        let here = if kind == 0xF007 {
            seq![
                BlipModel {
                    offset: base + at,
                    instance: (head / 16) % 4096,
                    cb,
                    magic: signature(body),
                },
            ]
        } else if kind == 0xF000 || kind == 0xF001 {
            blips_in(body, base + at + 8, depth + 1, 0)
        } else {
            Seq::empty()
        };
        if cb > buf.len() - (at + 8) {
            here
        } else {
            here + blips_in(buf, base, depth, at + 8 + cb)
        }
    }
}

/// The list describes the models one by one.
pub open spec fn all_described(out: Seq<Blip>, m: Seq<BlipModel>) -> bool {
    out.len() == m.len() && forall|i: int| 0 <= i < out.len() ==> (#[trigger] out[i]).describes(m[i])
}

/// Appends the pictures of a record stream. Containers are entered. A record that claims more
/// bytes than there are ends the stream.
pub fn officeart_blips(buf: &[u8], base: usize, depth: usize, out: &mut Vec<Blip>)
    requires
        base + buf@.len() <= usize::MAX,
    ensures
        final(out)@.len() == old(out)@.len() + blips_in(buf@, base as int, depth as int, 0).len(),
        final(out)@.take(old(out)@.len() as int) == old(out)@,
        all_described(
            final(out)@.skip(old(out)@.len() as int),
            blips_in(buf@, base as int, depth as int, 0),
        ),
    decreases DEPTH_LIMIT + 1 - depth,
{
    let ghost kept = out@;
    let ghost all = blips_in(buf@, base as int, depth as int, 0);
    let size: usize = buf.len();
    assert(out@.take(kept.len() as int) =~= kept);
    assert(out@.skip(kept.len() as int) =~= Seq::empty());
    if depth > DEPTH_LIMIT {
        return;
    }
    let mut at: usize = 0;
    let ghost mut done = Seq::<BlipModel>::empty();
    assert(done + all =~= all);
    while size >= 8 && at <= size - 8
        invariant_except_break
            done + blips_in(buf@, base as int, depth as int, at as int) == all,
        invariant
            at <= size,
            size == buf@.len(),
            base + size <= usize::MAX,
            depth <= DEPTH_LIMIT,
            kept.len() <= out@.len(),
            out@.take(kept.len() as int) == kept,
            all_described(out@.skip(kept.len() as int), done),
        ensures
            done == all,
        decreases size - at,
    {
        let ghost before = out@;
        let ghost was = done;
        let head: u64 = le32(buf, at).unwrap();
        let claimed: u64 = le32(buf, at + 4).unwrap();
        let cb: usize = claimed as usize;
        let body: Vec<u8> = piece_of(buf, at + 8, cb);
        let kind: u64 = head / 0x1_0000;
        let ghost model = BlipModel {
            offset: base + at,
            instance: (head as int / 16) % 4096,
            cb: cb as int,
            magic: signature(body@),
        };
        if kind == 0xF007 {
            let found: Option<(usize, &'static str)> = signature_of(body.as_slice());
            let one: Blip = match found {
                Some((mark, name)) => Blip {
                    offset: base + at,
                    instance: (head / 16) % 4096,
                    cb,
                    magic_at: Some(mark),
                    kind: Some(name),
                    inline_bytes: Some(cb - mark),
                },
                None => Blip {
                    offset: base + at,
                    instance: (head / 16) % 4096,
                    cb,
                    magic_at: None,
                    kind: None,
                    inline_bytes: None,
                },
            };
            out.push(one);
            proof {
                done = done.push(model);
                assert(one.describes(model));
                assert(done =~= was + seq![model]);
            }
        } else if kind == 0xF000 || kind == 0xF001 {
            officeart_blips(body.as_slice(), base + at + 8, depth + 1, out);
            proof {
                let more = blips_in(body@, base + at + 8, depth + 1, 0);
                let fresh = out@.skip(before.len() as int);
                done = done + more;
                assert forall|i: int| 0 <= i < out@.len() - kept.len() implies (
                #[trigger] out@.skip(kept.len() as int)[i]).describes(done[i]) by {
                    let k = i + kept.len();
                    if k < before.len() {
                        assert(out@.take(before.len() as int)[k] == before[k]);
                        assert(before.skip(kept.len() as int)[i].describes(was[i]));
                    } else {
                        assert(fresh[k - before.len()].describes(more[k - before.len()]));
                    }
                }
            }
        }
        proof {
            assert(out@.take(kept.len() as int) =~= kept) by {
                assert(out@.take(before.len() as int) =~= before);
                assert(out@.take(before.len() as int).take(kept.len() as int) =~= out@.take(
                    kept.len() as int,
                ));
            }
            assert forall|i: int| 0 <= i < out@.len() - kept.len() implies (#[trigger] out@.skip(
                kept.len() as int,
            )[i]).describes(done[i]) by {
                if kind == 0xF007 && i < before.len() - kept.len() {
                    assert(before.skip(kept.len() as int)[i].describes(was[i]));
                } else if kind != 0xF007 && kind != 0xF000 && kind != 0xF001 {
                    assert(before.skip(kept.len() as int)[i].describes(was[i]));
                }
            }
        }
        let ghost here = done.skip(was.len() as int);
        if cb > size - (at + 8) {
            assert(done =~= was + here);
            break;
        }
        proof {
            let rest = blips_in(buf@, base as int, depth as int, at + 8 + cb);
            assert(was + (here + rest) =~= done + rest);
            assert(blips_in(buf@, base as int, depth as int, at as int) =~= here + rest);
        }
        at = at + 8 + cb;
    }
}

/// The mark that is found is the earliest of the four: the eight bytes of a PNG, the three of a
/// JPEG, the four of a GIF or the two of a bitmap, all of it within the first 128 bytes.
pub proof fn law_the_earliest_mark_counts(b: Seq<u8>)
    ensures
        match signature(b) {
            Some((at, kind)) => {
                &&& 0 <= at < b.len()
                &&& at < 128
                &&& kind == "png"@ ==> at + 8 <= b.len() && b.subrange(at, at + 8) == seq![
                    0x89u8,
                    0x50,
                    0x4E,
                    0x47,
                    0x0D,
                    0x0A,
                    0x1A,
                    0x0A,
                ]
                &&& kind == "jpeg"@ ==> at + 3 <= b.len() && b[at] == 0xFF && b[at + 1] == 0xD8
                    && b[at + 2] == 0xFF
                &&& kind == "gif"@ ==> at + 4 <= b.len() && b[at] == 0x47 && b[at + 1] == 0x49
                    && b[at + 2] == 0x46 && b[at + 3] == 0x38
                &&& kind == "bmp"@ ==> at + 2 <= b.len() && b[at] == 0x42 && b[at + 1] == 0x4D
                &&& kind == "png"@ || kind == "jpeg"@ || kind == "gif"@ || kind == "bmp"@
                &&& forall|k: int| 0 <= k < at ==> #[trigger] mark_at(b, k, window_of(b)) is None
            },
            None => forall|k: int|
                0 <= k < b.len() && k < 128 ==> #[trigger] mark_at(b, k, window_of(b)) is None,
        },
{
    lemma_signature(b, 0, window_of(b));
    if let Some((at, kind)) = signature(b) {
        lemma_marks(b, at, window_of(b));
    }
}

proof fn lemma_signature(b: Seq<u8>, at: int, window: int)
    requires
        0 <= at,
    ensures
        match signature_from(b, at, window) {
            Some((k, kind)) => at <= k < window && mark_at(b, k, window) == Some(kind) && forall|j: int|
                at <= j < k ==> #[trigger] mark_at(b, j, window) is None,
            None => forall|j: int| at <= j < window ==> #[trigger] mark_at(b, j, window) is None,
        },
    decreases window - at,
{
    if at < window && mark_at(b, at, window) is None {
        lemma_signature(b, at + 1, window);
    }
}

proof fn lemma_marks(b: Seq<u8>, at: int, window: int)
    requires
        0 <= at,
        window <= b.len(),
    ensures
        mark_at(b, at, window) matches Some(kind) ==> {
            &&& kind == "png"@ || kind == "jpeg"@ || kind == "gif"@ || kind == "bmp"@
            &&& kind == "png"@ ==> at + 8 <= b.len() && b.subrange(at, at + 8) == seq![
                0x89u8,
                0x50,
                0x4E,
                0x47,
                0x0D,
                0x0A,
                0x1A,
                0x0A,
            ]
            &&& kind == "jpeg"@ ==> at + 3 <= b.len() && b[at] == 0xFF && b[at + 1] == 0xD8 && b[at
                + 2] == 0xFF
            &&& kind == "gif"@ ==> at + 4 <= b.len() && b[at] == 0x47 && b[at + 1] == 0x49 && b[at
                + 2] == 0x46 && b[at + 3] == 0x38
            &&& kind == "bmp"@ ==> at + 2 <= b.len() && b[at] == 0x42 && b[at + 1] == 0x4D
        },
{
    reveal_strlit("png");
    reveal_strlit("jpeg");
    reveal_strlit("gif");
    reveal_strlit("bmp");
    assert("png"@.len() == 3 && "jpeg"@.len() == 4 && "gif"@.len() == 3 && "bmp"@.len() == 3);
    assert("png"@[0] == 'p' && "gif"@[0] == 'g' && "bmp"@[0] == 'b');
    let j = seq![0xFFu8, 0xD8, 0xFF];
    let g = seq![0x47u8, 0x49, 0x46, 0x38];
    let m = seq![0x42u8, 0x4D];
    if marked(b, at, window, j) {
        let s = b.subrange(at, at + 3);
        assert(s[0] == b[at] && s[1] == b[at + 1] && s[2] == b[at + 2]);
        assert(s == j);
    }
    if marked(b, at, window, g) {
        let s = b.subrange(at, at + 4);
        assert(s[0] == b[at] && s[1] == b[at + 1] && s[2] == b[at + 2] && s[3] == b[at + 3]);
        assert(s == g);
    }
    if marked(b, at, window, m) {
        let s = b.subrange(at, at + 2);
        assert(s[0] == b[at] && s[1] == b[at + 1]);
        assert(s == m);
    }
}

/// A record of a drawing is four bytes of head, whose upper half is its type, and its length in four
/// bytes. A record of type 0xF007 is a picture whose instance stands in the upper twelve bits of the
/// lower half of its head, and its own bytes run from its mark to its end. Records of type 0xF000
/// and 0xF001 hold such records again, up to eight deep; others are passed over.
pub proof fn law_pictures_are_records_of_one_type(buf: Seq<u8>, base: int, depth: int, at: int)
    requires
        0 <= depth <= 8,
        0 <= at,
        at + 8 <= buf.len(),
    ensures
        ({
            let kind = buf[at + 2] + 256 * buf[at + 3];
            let cb = buf[at + 4] + 0x100 * buf[at + 5] + 0x1_0000 * buf[at + 6] + 0x100_0000
                * buf[at + 7];
            let all = blips_in(buf, base, depth, at);
            let whole = at + 8 + cb <= buf.len();
            let rest = if whole {
                blips_in(buf, base, depth, at + 8 + cb)
            } else {
                Seq::empty()
            };
            &&& kind == 0xF007 ==> {
                &&& all.len() == 1 + rest.len()
                &&& all[0].offset == base + at
                &&& all[0].instance == (buf[at] + 256 * buf[at + 1]) / 16
                &&& all[0].cb == cb
                &&& whole ==> all[0].magic == signature(buf.subrange(at + 8, at + 8 + cb))
                &&& all.skip(1) == rest
            }
            &&& (kind == 0xF000 || kind == 0xF001) && whole ==> all == blips_in(
                buf.subrange(at + 8, at + 8 + cb),
                base + at + 8,
                depth + 1,
                0,
            ) + rest
            &&& kind != 0xF007 && kind != 0xF000 && kind != 0xF001 ==> all == rest
        }),
        blips_in(buf, base, 9, at).len() == 0,
{
    let kind = buf[at + 2] + 256 * buf[at + 3];
    let cb = buf[at + 4] + 0x100 * buf[at + 5] + 0x1_0000 * buf[at + 6] + 0x100_0000 * buf[at + 7];
    let all = blips_in(buf, base, depth, at);
    let head = word32(buf, at);
    assert(head / 0x1_0000 == kind);
    assert((head / 16) % 4096 == (buf[at] + 256 * buf[at + 1]) / 16);
    let rest = if at + 8 + cb <= buf.len() {
        blips_in(buf, base, depth, at + 8 + cb)
    } else {
        Seq::empty()
    };
    if kind == 0xF007 {
        assert(all.skip(1) =~= rest);
    } else if kind != 0xF000 && kind != 0xF001 {
        assert(all =~= rest);
    }
}

/// Where a picture has a mark, its own bytes are those from the mark to its end.
pub proof fn law_a_picture_runs_from_its_mark(one: Blip, m: BlipModel)
    requires
        one.describes(m),
    ensures
        one.offset == m.offset,
        one.instance == m.instance,
        one.cb == m.cb,
        one.magic_at is Some <==> m.magic is Some,
        one.magic_at is Some ==> one.magic_at->0 + one.inline_bytes->0 == one.cb,
        one.kind is Some <==> one.magic_at is Some,
        one.inline_bytes is Some <==> one.magic_at is Some,
{
}

} // verus!
