//! The order of texts: by their characters, one after another.

use crate::text::{chars_of, texts};
use vstd::prelude::*;

verus! {

broadcast use crate::text::lemma_texts_push;

/// `a` stands before `b` or is the same, from the character at `i` on.
pub open spec fn ordered_from(a: Seq<char>, b: Seq<char>, i: int) -> bool
    decreases a.len() - i,
{
    if i < 0 || i >= a.len() {
        true
    } else if i >= b.len() {
        false
    } else if a[i] == b[i] {
        ordered_from(a, b, i + 1)
    } else {
        a[i] < b[i]
    }
}

/// `a` stands before `b` or is the same.
pub open spec fn ordered(a: Seq<char>, b: Seq<char>) -> bool {
    ordered_from(a, b, 0)
}

/// Each text stands before those behind it.
pub open spec fn in_order(s: Seq<Seq<char>>) -> bool {
    forall|i: int, j: int| 0 <= i < j < s.len() ==> ordered(s[i], s[j])
}

proof fn lemma_transitive(a: Seq<char>, b: Seq<char>, c: Seq<char>, i: int)
    requires
        0 <= i,
        ordered_from(a, b, i),
        ordered_from(b, c, i),
    ensures
        ordered_from(a, c, i),
    decreases a.len() - i,
{
    if i < a.len() && i < b.len() && i < c.len() && a[i] == b[i] && b[i] == c[i] {
        lemma_transitive(a, b, c, i + 1);
    }
}

proof fn lemma_total(a: Seq<char>, b: Seq<char>, i: int)
    requires
        0 <= i,
    ensures
        ordered_from(a, b, i) || ordered_from(b, a, i),
    decreases a.len() - i,
{
    if i < a.len() && i < b.len() && a[i] == b[i] {
        lemma_total(a, b, i + 1);
    }
}

proof fn lemma_antisymmetric(a: Seq<char>, b: Seq<char>, i: int)
    requires
        0 <= i <= a.len(),
        i <= b.len(),
        forall|k: int| 0 <= k < i ==> a[k] == b[k],
        ordered_from(a, b, i),
        ordered_from(b, a, i),
    ensures
        a == b,
    decreases a.len() - i,
{
    if i < a.len() && i < b.len() {
        assert(a[i] == b[i]);
        lemma_antisymmetric(a, b, i + 1);
    } else {
        assert(a =~= b);
    }
}

/// Two texts that each stand before the other are the same one.
pub proof fn law_order_tells_texts_apart(a: Seq<char>, b: Seq<char>)
    requires
        ordered(a, b),
        ordered(b, a),
    ensures
        a == b,
{
    lemma_antisymmetric(a, b, 0);
}

/// There is only one way to put texts in order.
pub proof fn law_one_order(a: Seq<Seq<char>>, b: Seq<Seq<char>>)
    requires
        in_order(a),
        in_order(b),
        a.to_multiset() == b.to_multiset(),
    ensures
        a == b,
    decreases a.len(),
{
    a.to_multiset_ensures();
    b.to_multiset_ensures();
    assert(a.len() == b.len());
    if a.len() > 0 {
        let x = a.last();
        let y = b.last();
        assert(a.contains(x));
        assert(a.to_multiset().count(x) > 0);
        assert(b.contains(x));
        assert(b.contains(y));
        assert(b.to_multiset().count(y) > 0);
        assert(a.contains(y));
        let i = choose|i: int| 0 <= i < b.len() && b[i] == x;
        let j = choose|j: int| 0 <= j < a.len() && a[j] == y;
        assert(x == y) by {
            if i < b.len() - 1 {
                assert(ordered(b[i], b[b.len() - 1]));
            }
            if j < a.len() - 1 {
                assert(ordered(a[j], a[a.len() - 1]));
            }
            if i < b.len() - 1 && j < a.len() - 1 {
                law_order_tells_texts_apart(x, y);
            }
        }
        let p = a.drop_last();
        let q = b.drop_last();
        assert(a =~= p.push(x));
        assert(b =~= q.push(x));
        p.to_multiset_ensures();
        q.to_multiset_ensures();
        assert(p.push(x).to_multiset() =~= p.to_multiset().insert(x));
        assert(q.push(x).to_multiset() =~= q.to_multiset().insert(x));
        assert(p.to_multiset() =~= q.to_multiset()) by {
            assert forall|v: Seq<char>| p.to_multiset().count(v) == q.to_multiset().count(v) by {
                assert(p.to_multiset().insert(x).count(v) == q.to_multiset().insert(x).count(v));
            }
        }
        law_one_order(p, q);
    } else {
        assert(a =~= b);
    }
}

/// The texts in order.
pub open spec fn arranged(s: Seq<Seq<char>>) -> Seq<Seq<char>> {
    choose|t: Seq<Seq<char>>| in_order(t) && t.to_multiset() == s.to_multiset()
}

fn stands_before(a: &str, b: &str) -> (r: bool)
    ensures
        r == ordered(a@, b@),
{
    let x: Vec<char> = chars_of(a);
    let y: Vec<char> = chars_of(b);
    let mut i: usize = 0;
    while i < x.len() && i < y.len() && x[i] == y[i]
        invariant
            i <= x@.len(),
            i <= y@.len(),
            x@ == a@,
            y@ == b@,
            ordered(a@, b@) == ordered_from(x@, y@, i as int),
        decreases x@.len() - i,
    {
        i += 1;
    }
    if i >= x.len() {
        true
    } else if i >= y.len() {
        false
    } else {
        x[i] < y[i]
    }
}

/// Puts texts in order.
pub fn sort_texts(v: &Vec<String>) -> (r: Vec<String>)
    ensures
        in_order(texts(r@)),
        texts(r@).to_multiset() == texts(v@).to_multiset(),
        texts(r@) == arranged(texts(v@)),
{
    let ghost s = texts(v@);
    let mut out: Vec<String> = Vec::new();
    let mut i: usize = 0;
    assert(s.take(0) =~= texts(out@));
    while i < v.len()
        invariant
            i <= v@.len(),
            s == texts(v@),
            in_order(texts(out@)),
            texts(out@).to_multiset() == s.take(i as int).to_multiset(),
        decreases v@.len() - i,
    {
        let ghost had = texts(out@);
        let one: String = v[i].clone();
        let mut k: usize = out.len();
        while k > 0 && !stands_before(out[k - 1].as_str(), one.as_str())
            invariant
                k <= out@.len(),
                had == texts(out@),
                forall|j: int| k <= j < out@.len() ==> !ordered(had[j], one@),
            decreases k,
        {
            k -= 1;
        }
        assert(k > 0 ==> ordered(had[k - 1], one@));
        let ghost x = one@;
        out.insert(k, one);
        assert(texts(out@) =~= had.insert(k as int, x));
        proof {
            let now = texts(out@);
            assert forall|a: int, b: int| 0 <= a < b < now.len() implies ordered(now[a], now[b]) by {
                let p = if a < k {
                    a
                } else {
                    a - 1
                };
                let q = if b < k {
                    b
                } else {
                    b - 1
                };
                if a == k {
                    lemma_total(had[q], x, 0);
                } else if b == k {
                    if p < k - 1 {
                        assert(ordered(had[p], had[k - 1]));
                        lemma_transitive(had[p], had[k - 1], x, 0);
                    }
                } else {
                    assert(ordered(had[p], had[q]));
                }
            }
            now.to_multiset_ensures();
            assert(now.remove(k as int) =~= had);
            assert(now[k as int] == x);
            assert(now.contains(x));
            assert(now.to_multiset() =~= had.to_multiset().insert(x));
            let done = s.take(i as int);
            done.to_multiset_ensures();
            assert(s.take(i + 1) =~= done.push(x));
            assert(done.push(x).to_multiset() =~= done.to_multiset().insert(x));
        }
        i += 1;
    }
    assert(s.take(i as int) =~= s);
    proof {
        let t = arranged(s);
        assert(in_order(t) && t.to_multiset() == s.to_multiset());
        law_one_order(texts(out@), t);
    }
    out
}

/// Where two texts first differ, the one with the lesser character stands before the other; a
/// text stands before one that it begins.
pub proof fn law_the_first_difference_decides(head: Seq<char>, a: Seq<char>, b: Seq<char>)
    ensures
        ordered(head, head + b),
        a.len() > 0 ==> !ordered(head + a, head),
        a.len() > 0 && b.len() > 0 && a[0] < b[0] ==> ordered(head + a, head + b) && !ordered(
            head + b,
            head + a,
        ),
{
    lemma_same_head(head, Seq::empty(), b, 0);
    assert(head + Seq::<char>::empty() =~= head);
    lemma_same_head(head, a, Seq::empty(), 0);
    lemma_same_head(head, a, b, 0);
    lemma_same_head(head, b, a, 0);
}

proof fn lemma_same_head(head: Seq<char>, a: Seq<char>, b: Seq<char>, i: int)
    requires
        0 <= i <= head.len(),
    ensures
        ordered_from(head + a, head + b, i) == ordered_from(head + a, head + b, head.len() as int),
        a.len() > 0 && b.len() > 0 ==> (head + a)[head.len() as int] == a[0] && (head
            + b)[head.len() as int] == b[0],
    decreases head.len() - i,
{
    if i < head.len() {
        lemma_same_head(head, a, b, i + 1);
        assert((head + a)[i] == (head + b)[i]);
    }
}

} // verus!
