//! Searching and counting in sequences.

use vstd::prelude::*;

verus! {

/// The first index from `from` on whose element satisfies `p`.
pub open spec fn first_from<T>(s: Seq<T>, p: spec_fn(T) -> bool, from: int) -> Option<int>
    decreases s.len() - from,
{
    if from < 0 || from >= s.len() {
        None
    } else if p(s[from]) {
        Some(from)
    } else {
        first_from(s, p, from + 1)
    }
}

/// The index of the first element that satisfies `p`.
pub open spec fn first<T>(s: Seq<T>, p: spec_fn(T) -> bool) -> Option<int> {
    first_from(s, p, 0)
}

/// The index found is the least one that satisfies `p`, and nothing satisfies `p` where none
/// is found.
pub proof fn lemma_first_from<T>(s: Seq<T>, p: spec_fn(T) -> bool, from: int)
    requires
        0 <= from,
    ensures
        first_from(s, p, from) matches Some(i) ==> from <= i < s.len() && p(s[i]) && forall|k: int|
            from <= k < i ==> !p(s[k]),
        first_from(s, p, from) is None ==> forall|k: int| from <= k < s.len() ==> !p(s[k]),
    decreases s.len() - from,
{
    if from < s.len() && !p(s[from]) {
        lemma_first_from(s, p, from + 1);
    }
}

/// Filtering one element more appends that element or nothing.
pub proof fn lemma_filter_take<T>(s: Seq<T>, p: spec_fn(T) -> bool, i: int)
    requires
        0 <= i < s.len(),
    ensures
        s.take(i + 1).filter(p) == if p(s[i]) {
            s.take(i).filter(p).push(s[i])
        } else {
            s.take(i).filter(p)
        },
{
    assert(s.take(i + 1) =~= s.take(i).push(s[i]));
    s.take(i).lemma_filter_push(s[i], p);
}

/// Whether `v` holds `x`.
pub fn holds(v: &Vec<u32>, x: u32) -> (r: bool)
    ensures
        r == v@.contains(x),
{
    let mut i: usize = 0;
    while i < v.len()
        invariant
            i <= v@.len(),
            forall|k: int| 0 <= k < i ==> v@[k] != x,
        decreases v@.len() - i,
    {
        if v[i] == x {
            assert(v@[i as int] == x);
            return true;
        }
        i += 1;
    }
    false
}

/// Copies `from` up to `to` out of a byte string and appends it.
pub fn append_range(out: &mut Vec<u8>, b: &[u8], from: usize, to: usize)
    requires
        from <= to <= b@.len(),
    ensures
        final(out)@ == old(out)@ + b@.subrange(from as int, to as int),
{
    let mut i: usize = from;
    while i < to
        invariant
            from <= i <= to <= b@.len(),
            out@ == old(out)@ + b@.subrange(from as int, i as int),
        decreases to - i,
    {
        out.push(b[i]);
        i += 1;
        assert(out@ =~= old(out)@ + b@.subrange(from as int, i as int));
    }
}

/// Each number is greater than the one before it.
pub open spec fn increasing(s: Seq<u32>) -> bool {
    forall|i: int, j: int| 0 <= i < j < s.len() ==> s[i] < s[j]
}

/// The two lists hold the same numbers.
pub open spec fn same_members(a: Seq<u32>, b: Seq<u32>) -> bool {
    forall|v: u32| a.contains(v) <==> b.contains(v)
}

/// The numbers of a list in increasing order, each once.
pub open spec fn ascending(s: Seq<u32>) -> Seq<u32> {
    choose|out: Seq<u32>| increasing(out) && same_members(out, s)
}

/// There is only one increasing list of given members.
pub proof fn lemma_increasing_unique(a: Seq<u32>, b: Seq<u32>)
    requires
        increasing(a),
        increasing(b),
        same_members(a, b),
    ensures
        a == b,
    decreases a.len(),
{
    if a.len() == 0 {
        if b.len() > 0 {
            assert(b.contains(b[0]));
        }
        assert(a =~= b);
    } else {
        assert(a.contains(a.last()));
        assert(b.contains(a.last()));
        assert(b.contains(b.last()));
        assert(a.contains(b.last()));
        assert(a.last() == b.last());
        let x = a.drop_last();
        let y = b.drop_last();
        assert forall|v: u32| x.contains(v) <==> y.contains(v) by {
            if x.contains(v) {
                let i = choose|i: int| 0 <= i < x.len() && x[i] == v;
                assert(a.contains(a[i]));
                assert(b.contains(v));
                let j = choose|j: int| 0 <= j < b.len() && b[j] == v;
                assert(v != b.last());
                assert(y[j] == v);
            }
            if y.contains(v) {
                let i = choose|i: int| 0 <= i < y.len() && y[i] == v;
                assert(b.contains(b[i]));
                assert(a.contains(v));
                let j = choose|j: int| 0 <= j < a.len() && a[j] == v;
                assert(v != a.last());
                assert(x[j] == v);
            }
        }
        lemma_increasing_unique(x, y);
        assert(a =~= x.push(a.last()));
        assert(b =~= y.push(b.last()));
    }
}

/// Every list of numbers can be put in increasing order.
pub proof fn lemma_ascending(s: Seq<u32>)
    ensures
        increasing(ascending(s)),
        same_members(ascending(s), s),
    decreases s.len(),
{
    if s.len() == 0 {
        let none = Seq::<u32>::empty();
        assert(increasing(none) && same_members(none, s));
    } else {
        let front = s.drop_last();
        let v = s.last();
        lemma_ascending(front);
        let t = ascending(front);
        assert(s =~= front.push(v));
        assert forall|x: u32| s.contains(x) <==> front.contains(x) || x == v by {
            if front.contains(x) {
                let i = choose|i: int| 0 <= i < front.len() && front[i] == x;
                assert(s[i] == x);
            }
            if s.contains(x) && x != v {
                let i = choose|i: int| 0 <= i < s.len() && s[i] == x;
                assert(front[i] == x);
            }
            assert(s[s.len() - 1] == v);
        }
        if t.contains(v) {
            assert(increasing(t) && same_members(t, s));
        } else {
            let k = lemma_place(t, v);
            let u = t.insert(k, v);
            assert forall|x: u32| u.contains(x) <==> t.contains(x) || x == v by {
                assert(u[k] == v);
                if t.contains(x) {
                    let i = choose|i: int| 0 <= i < t.len() && t[i] == x;
                    assert(u[if i < k { i } else { i + 1 }] == x);
                }
                if u.contains(x) && x != v {
                    let i = choose|i: int| 0 <= i < u.len() && u[i] == x;
                    assert(t[if i < k { i } else { i - 1 }] == x);
                }
            }
            assert(increasing(u) && same_members(u, s));
        }
    }
}

/// Where a new number belongs in an increasing list.
proof fn lemma_place(t: Seq<u32>, v: u32) -> (k: int)
    requires
        increasing(t),
        !t.contains(v),
    ensures
        0 <= k <= t.len(),
        forall|i: int| 0 <= i < k ==> t[i] < v,
        forall|i: int| k <= i < t.len() ==> v < t[i],
    decreases t.len(),
{
    if t.len() == 0 {
        0
    } else {
        assert(t.contains(t.last()));
        if t.last() < v {
            t.len() as int
        } else {
            let front = t.drop_last();
            assert forall|x: u32| front.contains(x) implies t.contains(x) by {
                let i = choose|i: int| 0 <= i < front.len() && front[i] == x;
                assert(t[i] == x);
            }
            let k = lemma_place(front, v);
            assert forall|i: int| 0 <= i < k implies t[i] < v by {
                assert(front[i] == t[i]);
            }
            assert forall|i: int| k <= i < t.len() implies v < t[i] by {
                if i < front.len() {
                    assert(front[i] == t[i]);
                }
            }
            k
        }
    }
}

/// `<[u32]>::sort_unstable`: puts the numbers in order and keeps each as often as it was there.
#[verifier::external_body]
fn sort_numbers(v: &mut Vec<u32>)
    ensures
        forall|i: int, j: int| 0 <= i < j < final(v)@.len() ==> final(v)@[i] <= final(v)@[j],
        final(v)@.to_multiset() == old(v)@.to_multiset(),
{
    v.sort_unstable();
}

/// The numbers of a list in increasing order, each once.
pub fn put_in_order(given: &Vec<u32>) -> (r: Vec<u32>)
    ensures
        r@ == ascending(given@),
        increasing(r@),
        same_members(r@, given@),
{
    let mut all: Vec<u32> = Vec::new();
    let mut i: usize = 0;
    while i < given.len()
        invariant
            i <= given@.len(),
            all@ == given@.take(i as int),
        decreases given@.len() - i,
    {
        all.push(given[i]);
        i += 1;
        assert(all@ =~= given@.take(i as int));
    }
    assert(all@ =~= given@);
    sort_numbers(&mut all);
    let mut out: Vec<u32> = Vec::new();
    let mut k: usize = 0;
    while k < all.len()
        invariant
            k <= all@.len(),
            forall|x: int, y: int| 0 <= x < y < all@.len() ==> all@[x] <= all@[y],
            increasing(out@),
            k == 0 ==> out@.len() == 0,
            k > 0 ==> out@.len() > 0 && out@.last() == all@[k - 1],
            forall|x: int| 0 <= x < k ==> out@.contains(#[trigger] all@[x]),
            forall|x: int| 0 <= x < out@.len() ==> all@.contains(#[trigger] out@[x]),
        decreases all@.len() - k,
    {
        let ghost before = out@;
        let one: u32 = all[k];
        if k == 0 || all[k - 1] != one {
            out.push(one);
            proof {
                assert(all@.contains(all@[k as int]));
                assert(out@[out@.len() - 1] == one);
                assert forall|x: int| 0 <= x < k + 1 implies out@.contains(#[trigger] all@[x]) by {
                    if x < k {
                        let w = choose|w: int| 0 <= w < before.len() && before[w] == all@[x];
                        assert(out@[w] == all@[x]);
                    }
                }
            }
        } else {
            assert(out@.contains(out@.last()));
        }
        k += 1;
    }
    proof {
        all@.to_multiset_ensures();
        given@.to_multiset_ensures();
        assert forall|v: u32| out@.contains(v) <==> given@.contains(v) by {
            assert(all@.contains(v) <==> all@.to_multiset().count(v) > 0);
            assert(given@.contains(v) <==> given@.to_multiset().count(v) > 0);
            if all@.contains(v) {
                let x = choose|x: int| 0 <= x < all@.len() && all@[x] == v;
                assert(out@.contains(all@[x]));
            }
            if out@.contains(v) {
                let x = choose|x: int| 0 <= x < out@.len() && out@[x] == v;
                assert(all@.contains(out@[x]));
            }
        }
        let least = ascending(given@);
        assert(increasing(least) && same_members(least, given@));
        lemma_increasing_unique(out@, least);
    }
    out
}

/// The lists `f(0)` to `f(n - 1)` one after another.
pub open spec fn joined<T>(f: spec_fn(int) -> Seq<T>, n: int) -> Seq<T>
    decreases n,
{
    if n <= 0 {
        Seq::empty()
    } else {
        joined(f, n - 1) + f(n - 1)
    }
}

/// The `n` bytes from `from` on, or nothing where they run past the end.
pub open spec fn piece(b: Seq<u8>, from: int, n: int) -> Seq<u8> {
    if from + n <= b.len() {
        b.subrange(from, from + n)
    } else {
        Seq::empty()
    }
}

/// The `n` bytes from `from` on, or nothing where they run past the end.
pub fn piece_of(b: &[u8], from: usize, n: usize) -> (r: Vec<u8>)
    ensures
        r@ == piece(b@, from as int, n as int),
{
    let mut out: Vec<u8> = Vec::new();
    if n <= b.len() && from <= b.len() - n {
        append_range(&mut out, b, from, from + n);
        assert(out@ =~= piece(b@, from as int, n as int));
    }
    out
}

/// One for a thing that holds and nothing for one that does not.
#[verifier::opaque]
pub open spec fn one_if(b: bool) -> nat {
    if b {
        1
    } else {
        0
    }
}

/// One for a thing that holds and nothing for one that does not.
pub fn flag(b: bool) -> (r: usize)
    ensures
        r == one_if(b),
        r <= 1,
{
    reveal(one_if);
    if b {
        1
    } else {
        0
    }
}

/// A count as far as a machine number can hold it.
pub open spec fn capped(n: nat) -> usize {
    if n <= usize::MAX {
        n as usize
    } else {
        usize::MAX
    }
}

/// How many of a list are handed out where at most `limit` are.
pub open spec fn at_most(n: nat, limit: usize) -> nat {
    if n < limit {
        n
    } else {
        limit as nat
    }
}

/// What `f` makes of each of the first `n` of a list and its place.
pub fn each<T, R, F: Fn(usize, &T) -> R>(v: &Vec<T>, n: usize, f: F) -> (r: Vec<R>)
    requires
        n <= v@.len(),
        forall|i: usize| i < n ==> call_requires(f, (i, &#[trigger] v@[i as int])),
    ensures
        r@.len() == n,
        forall|i: int| 0 <= i < n ==> call_ensures(f, (i as usize, &v@[i]), #[trigger] r@[i]),
{
    let mut out: Vec<R> = Vec::new();
    let mut i: usize = 0;
    while i < n
        invariant
            i <= n <= v@.len(),
            out@.len() == i,
            forall|k: usize| k < n ==> call_requires(f, (k, &#[trigger] v@[k as int])),
            forall|k: int| 0 <= k < i ==> call_ensures(f, (k as usize, &v@[k]), #[trigger] out@[k]),
        decreases n - i,
    {
        assert(call_requires(f, (i, &v@[i as int])));
        out.push(f(i, &v[i]));
        i += 1;
    }
    out
}

/// How many of `n` are handed out where at most `limit` are.
pub fn cut(n: usize, limit: usize) -> (r: usize)
    ensures
        r == at_most(n as nat, limit),
        r <= n,
{
    if n < limit {
        n
    } else {
        limit
    }
}

/// The place of the last of the first `n` that satisfies `p`.
pub open spec fn last_upto<T>(s: Seq<T>, p: spec_fn(T) -> bool, n: int) -> Option<int>
    decreases n,
{
    if n <= 0 {
        None
    } else if p(s[n - 1]) {
        Some(n - 1)
    } else {
        last_upto(s, p, n - 1)
    }
}

/// The last that satisfies `p` does so, and none behind it does.
pub proof fn lemma_last_upto<T>(s: Seq<T>, p: spec_fn(T) -> bool, n: int)
    ensures
        match last_upto(s, p, n) {
            Some(i) => 0 <= i < n && p(s[i]) && forall|k: int| i < k < n ==> !p(#[trigger] s[k]),
            None => forall|k: int| 0 <= k < n ==> !p(#[trigger] s[k]),
        },
    decreases n,
{
    if n > 0 {
        lemma_last_upto(s, p, n - 1);
    }
}

/// How many of the first `n` numbers satisfy `q`.
pub open spec fn tally(q: spec_fn(int) -> bool, n: int) -> nat
    decreases n,
{
    if n <= 0 {
        0
    } else if q(n - 1) {
        tally(q, n - 1) + 1
    } else {
        tally(q, n - 1)
    }
}

/// The numbers below `n` that satisfy `q`.
pub open spec fn those(q: spec_fn(int) -> bool, n: int) -> Seq<int>
    decreases n,
{
    if n <= 0 {
        Seq::empty()
    } else if q(n - 1) {
        those(q, n - 1).push(n - 1)
    } else {
        those(q, n - 1)
    }
}

/// The numbers found are below `n`, and as many as there are of them.
pub proof fn lemma_those(q: spec_fn(int) -> bool, n: int)
    ensures
        those(q, n).len() == tally(q, n),
        forall|i: int| 0 <= i < those(q, n).len() ==> 0 <= #[trigger] those(q, n)[i] < n,
        forall|i: int| 0 <= i < those(q, n).len() ==> q(#[trigger] those(q, n)[i]),
    decreases n,
{
    if n > 0 {
        lemma_those(q, n - 1);
    }
}

/// How many of the first `n` numbers satisfy `q`, where `f` tells it of each.
pub fn count_those<F: Fn(usize) -> bool>(
    n: usize,
    f: F,
    Ghost(q): Ghost<spec_fn(int) -> bool>,
) -> (r: usize)
    requires
        forall|i: usize| i < n ==> call_requires(f, (i,)),
        forall|i: usize, b: bool| i < n && call_ensures(f, (i,), b) ==> b == q(i as int),
    ensures
        r == tally(q, n as int),
        r <= n,
{
    let mut r: usize = 0;
    let mut i: usize = 0;
    while i < n
        invariant
            r <= i <= n,
            r == tally(q, i as int),
            forall|i: usize| i < n ==> call_requires(f, (i,)),
            forall|i: usize, b: bool| i < n && call_ensures(f, (i,), b) ==> b == q(i as int),
        decreases n - i,
    {
        if f(i) {
            r += 1;
        }
        i += 1;
    }
    r
}

/// Numbers as they are.
pub open spec fn ints(v: Seq<usize>) -> Seq<int> {
    Seq::new(v.len(), |i: int| v[i] as int)
}

/// The numbers below `n` that satisfy `q`, where `f` tells it of each.
pub fn pick_those<F: Fn(usize) -> bool>(
    n: usize,
    f: F,
    Ghost(q): Ghost<spec_fn(int) -> bool>,
) -> (r: Vec<usize>)
    requires
        forall|i: usize| i < n ==> call_requires(f, (i,)),
        forall|i: usize, b: bool| i < n && call_ensures(f, (i,), b) ==> b == q(i as int),
    ensures
        ints(r@) == those(q, n as int),
        forall|i: int| 0 <= i < r@.len() ==> (#[trigger] r@[i]) < n,
{
    let mut r: Vec<usize> = Vec::new();
    let mut i: usize = 0;
    assert(ints(r@) =~= those(q, 0));
    while i < n
        invariant
            i <= n,
            ints(r@) == those(q, i as int),
            forall|k: int| 0 <= k < r@.len() ==> (#[trigger] r@[k]) < n,
            forall|i: usize| i < n ==> call_requires(f, (i,)),
            forall|i: usize, b: bool| i < n && call_ensures(f, (i,), b) ==> b == q(i as int),
        decreases n - i,
    {
        if f(i) {
            let ghost had = ints(r@);
            r.push(i);
            assert(ints(r@) =~= had.push(i as int));
        }
        i += 1;
    }
    r
}

/// Two tests that agree count the same.
pub proof fn lemma_tally_same(a: spec_fn(int) -> bool, b: spec_fn(int) -> bool, n: int)
    requires
        forall|i: int| 0 <= i < n ==> #[trigger] a(i) == b(i),
    ensures
        tally(a, n) == tally(b, n),
    decreases n,
{
    if n > 0 {
        lemma_tally_same(a, b, n - 1);
        assert(a(n - 1) == b(n - 1));
    }
}

/// Two tests that agree keep the same.
pub proof fn lemma_filter_same<T>(s: Seq<T>, p: spec_fn(T) -> bool, q: spec_fn(T) -> bool)
    requires
        forall|i: int| 0 <= i < s.len() ==> p(#[trigger] s[i]) == q(s[i]),
    ensures
        s.filter(p) == s.filter(q),
    decreases s.len(),
{
    reveal(Seq::filter);
    if s.len() > 0 {
        let front = s.drop_last();
        assert forall|i: int| 0 <= i < front.len() implies p(#[trigger] front[i]) == q(
            front[i],
        ) by {
            assert(front[i] == s[i]);
        }
        lemma_filter_same(front, p, q);
        assert(p(s[s.len() - 1]) == q(s[s.len() - 1]));
    }
}

/// What stands in the list that is kept stood in the whole list and passes the test, and all that
/// passes the test is kept, in the order in which it stood.
pub proof fn law_filter_keeps_what_passes<T>(s: Seq<T>, p: spec_fn(T) -> bool)
    ensures
        forall|i: int|
            0 <= i < s.filter(p).len() ==> p(#[trigger] s.filter(p)[i]) && s.contains(
                s.filter(p)[i],
            ),
        forall|i: int| 0 <= i < s.len() && p(#[trigger] s[i]) ==> s.filter(p).contains(s[i]),
{
    assert forall|i: int| 0 <= i < s.filter(p).len() implies p(#[trigger] s.filter(p)[i])
        && s.contains(s.filter(p)[i]) by {
        s.lemma_filter_pred(p, i);
        assert(s.filter(p).contains(s.filter(p)[i]));
        s.lemma_filter_contains_rev(p, s.filter(p)[i]);
    }
    assert forall|i: int| 0 <= i < s.len() && p(#[trigger] s[i]) implies s.filter(p).contains(
        s[i],
    ) by {
        s.lemma_filter_contains(p, i);
    }
}

/// Counting goes number by number: those that satisfy the test count one each, and the others
/// nothing. As many are counted as there are, and no more than were asked.
pub proof fn law_tally_counts_each_once(q: spec_fn(int) -> bool, n: int)
    requires
        0 <= n,
    ensures
        tally(q, n) <= n,
        tally(q, n + 1) == tally(q, n) + if q(n) {
            1nat
        } else {
            0nat
        },
        (forall|i: int| 0 <= i < n ==> #[trigger] q(i)) ==> tally(q, n) == n,
        (forall|i: int| 0 <= i < n ==> !#[trigger] q(i)) ==> tally(q, n) == 0,
        tally(q, 0) == 0,
    decreases n,
{
    if n > 0 {
        law_tally_counts_each_once(q, n - 1);
    }
}

/// The numbers below a bound that satisfy something stand in order, each once, and no other does.
pub proof fn law_those_are_all_that_satisfy(q: spec_fn(int) -> bool, n: int)
    ensures
        forall|k: int|
            0 <= k < those(q, n).len() ==> 0 <= #[trigger] those(q, n)[k] < n && q(those(q, n)[k]),
        forall|j: int, k: int|
            0 <= j < k < those(q, n).len() ==> #[trigger] those(q, n)[j] < #[trigger] those(q, n)[k],
        forall|i: int| 0 <= i < n && #[trigger] q(i) ==> those(q, n).contains(i),
        those(q, n).len() == tally(q, n),
    decreases n,
{
    if n > 0 {
        law_those_are_all_that_satisfy(q, n - 1);
        let before = those(q, n - 1);
        if q(n - 1) {
            let all = those(q, n);
            assert(all == before.push(n - 1));
            assert forall|i: int| 0 <= i < n && #[trigger] q(i) implies all.contains(i) by {
                if i < n - 1 {
                    assert(before.contains(i));
                    let k = choose|k: int| 0 <= k < before.len() && before[k] == i;
                    assert(all[k] == i);
                } else {
                    assert(all[before.len() as int] == i);
                }
            }
        }
    }
}

/// A list that is cut is as long as it was or as long as it may be, whichever is less.
pub proof fn law_a_cut_list_is_no_longer_than_it_may_be(n: nat, limit: usize)
    ensures
        at_most(n, limit) <= n,
        at_most(n, limit) <= limit,
        at_most(n, limit) == n || at_most(n, limit) == limit,
{
}

/// What is found first is found at its first place, whatever stands behind it.
pub proof fn law_the_first_is_found<T>(s: Seq<T>, p: spec_fn(T) -> bool, i: int)
    requires
        0 <= i < s.len(),
        p(s[i]),
        forall|k: int| 0 <= k < i ==> !p(#[trigger] s[k]),
    ensures
        first(s, p) == Some(i),
{
    lemma_first_from(s, p, 0);
}

/// Where nothing satisfies what is looked for, nothing is found.
pub proof fn law_nothing_is_found_where_nothing_is<T>(s: Seq<T>, p: spec_fn(T) -> bool)
    requires
        forall|k: int| 0 <= k < s.len() ==> !p(#[trigger] s[k]),
    ensures
        first(s, p) is None,
{
    lemma_first_from(s, p, 0);
}

/// What is tallied by place is how many of a list pass.
pub proof fn law_a_tally_is_how_many_pass<T>(
    s: Seq<T>,
    p: spec_fn(int) -> bool,
    q: spec_fn(T) -> bool,
)
    requires
        forall|i: int| 0 <= i < s.len() ==> #[trigger] p(i) == q(s[i]),
    ensures
        tally(p, s.len() as int) == s.filter(q).len(),
{
    lemma_tally_part(s, p, q, s.len() as int);
    assert(s.take(s.len() as int) =~= s);
}

proof fn lemma_tally_part<T>(s: Seq<T>, p: spec_fn(int) -> bool, q: spec_fn(T) -> bool, n: int)
    requires
        0 <= n <= s.len(),
        forall|i: int| 0 <= i < s.len() ==> #[trigger] p(i) == q(s[i]),
    ensures
        tally(p, n) == s.take(n).filter(q).len(),
    decreases n,
{
    reveal(Seq::filter);
    if n > 0 {
        lemma_tally_part(s, p, q, n - 1);
        assert(s.take(n).drop_last() =~= s.take(n - 1));
        assert(s.take(n).last() == s[n - 1]);
        assert(p(n - 1) == q(s[n - 1]));
    }
}

/// Lists are joined one behind another.
pub proof fn law_lists_are_joined_in_order<T>(f: spec_fn(int) -> Seq<T>, n: int)
    requires
        0 <= n,
    ensures
        joined(f, 0).len() == 0,
        joined(f, n + 1) == joined(f, n) + f(n),
{
}

/// The last of those that satisfy something is the one that is found last.
pub proof fn law_the_last_is_found<T>(s: Seq<T>, p: spec_fn(T) -> bool, i: int)
    requires
        0 <= i < s.len(),
        p(s[i]),
        forall|k: int| i < k < s.len() ==> !p(#[trigger] s[k]),
    ensures
        last_upto(s, p, s.len() as int) == Some(i),
{
    lemma_last_upto(s, p, s.len() as int);
}

} // verus!
