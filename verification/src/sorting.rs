//! The order of texts, and lists in that order.
use crate::text::{chars_of, texts};
use vstd::prelude::*;

verus! {

/// Whether `a` stands in front of `b`, or equals it, in the order of their code points.
pub open spec fn text_le(a: Seq<char>, b: Seq<char>) -> bool
    decreases a.len(),
{
    if a.len() == 0 {
        true
    } else if b.len() == 0 {
        false
    } else if a[0] != b[0] {
        a[0] < b[0]
    } else {
        text_le(a.skip(1), b.skip(1))
    }
}

/// Whether each text of a list stands in front of the ones behind it.
pub open spec fn sorted_texts(s: Seq<Seq<char>>) -> bool {
    forall|i: int, j: int| 0 <= i < j < s.len() ==> text_le(#[trigger] s[i], #[trigger] s[j])
}

pub proof fn text_le_total(a: Seq<char>, b: Seq<char>)
    ensures
        text_le(a, b) || text_le(b, a),
    decreases a.len(),
{
    if a.len() > 0 && b.len() > 0 && a[0] == b[0] {
        text_le_total(a.skip(1), b.skip(1));
    }
}

pub proof fn text_le_trans(a: Seq<char>, b: Seq<char>, c: Seq<char>)
    requires
        text_le(a, b),
        text_le(b, c),
    ensures
        text_le(a, c),
    decreases a.len(),
{
    if a.len() > 0 && b.len() > 0 && c.len() > 0 && a[0] == b[0] && b[0] == c[0] {
        text_le_trans(a.skip(1), b.skip(1), c.skip(1));
    }
}

pub proof fn text_le_antisym(a: Seq<char>, b: Seq<char>)
    requires
        text_le(a, b),
        text_le(b, a),
    ensures
        a == b,
    decreases a.len(),
{
    if a.len() > 0 && b.len() > 0 {
        text_le_antisym(a.skip(1), b.skip(1));
        assert(a == seq![a[0]] + a.skip(1));
        assert(b == seq![b[0]] + b.skip(1));
    } else {
        assert(a == b);
    }
}

/// Whether `a` stands in front of `b` or equals it.
pub fn text_not_after(a: &str, b: &str) -> (r: bool)
    ensures
        r == text_le(a@, b@),
{
    let x: Vec<char> = chars_of(a);
    let y: Vec<char> = chars_of(b);
    let mut i: usize = 0;
    assert(x@.skip(0) == x@);
    assert(y@.skip(0) == y@);
    while i < x.len() && i < y.len()
        invariant
            i <= x.len(),
            i <= y.len(),
            text_le(a@, b@) == text_le(x@.skip(i as int), y@.skip(i as int)),
        decreases x.len() - i,
    {
        if x[i] != y[i] {
            return x[i] < y[i];
        }
        assert(x@.skip(i as int).skip(1) == x@.skip(i + 1));
        assert(y@.skip(i as int).skip(1) == y@.skip(i + 1));
        i = i + 1;
    }
    i == x.len()
}

/// Puts a text into a sorted list.
pub fn insert_sorted(v: &mut Vec<String>, s: String)
    requires
        sorted_texts(texts(old(v)@)),
    ensures
        sorted_texts(texts(final(v)@)),
        forall|k: Seq<char>| #[trigger]
            texts(final(v)@).contains(k) <==> texts(old(v)@).contains(k) || k == s@,
        texts(old(v)@).no_duplicates() && !texts(old(v)@).contains(s@) ==> texts(
            final(v)@,
        ).no_duplicates(),
{
    let ghost before = texts(v@);
    let mut i: usize = 0;
    while i < v.len() && text_not_after(v[i].as_str(), s.as_str())
        invariant
            i <= v.len(),
            before == texts(v@),
            forall|k: int| 0 <= k < i ==> text_le(#[trigger] before[k], s@),
        decreases v.len() - i,
    {
        i = i + 1;
    }
    let ghost x = s@;
    proof {
        if i < v.len() {
            text_le_total(before[i as int], x);
            assert forall|k: int| i <= k < before.len() implies text_le(x, #[trigger] before[k]) by {
                if k > i {
                    text_le_trans(x, before[i as int], before[k]);
                }
            }
        }
    }
    v.insert(i, s);
    proof {
        let after = texts(v@);
        assert(after == before.insert(i as int, x));
        assert forall|k: Seq<char>| #[trigger] after.contains(k) <==> before.contains(k) || k == x by {
            if before.contains(k) {
                let p = before.index_of(k);
                assert(after[if p < i { p } else { p + 1 }] == k);
            }
            if k == x {
                assert(after[i as int] == k);
            }
            if after.contains(k) {
                let p = after.index_of(k);
                if p < i {
                    assert(before[p] == k);
                } else if p > i {
                    assert(before[p - 1] == k);
                }
            }
        }
        if before.no_duplicates() && !before.contains(x) {
            assert forall|p: int, q: int|
                0 <= p < after.len() && 0 <= q < after.len() && p != q implies after[p] != after[q] by {
                let p0 = if p < i { p } else { p - 1 };
                let q0 = if q < i { q } else { q - 1 };
                if p == i {
                    assert(before[q0] == after[q]);
                } else if q == i {
                    assert(before[p0] == after[p]);
                } else {
                    assert(before[p0] == after[p] && before[q0] == after[q]);
                }
            }
        }
    }
}

/// A list of texts in order.
pub fn sort_texts(v: &Vec<String>) -> (r: Vec<String>)
    ensures
        sorted_texts(texts(r@)),
        forall|k: Seq<char>| #[trigger] texts(r@).contains(k) <==> texts(v@).contains(k),
        texts(v@).no_duplicates() ==> texts(r@).no_duplicates(),
{
    let mut out: Vec<String> = Vec::new();
    let mut i: usize = 0;
    let ghost list = texts(v@);
    while i < v.len()
        invariant
            i <= v.len(),
            list == texts(v@),
            sorted_texts(texts(out@)),
            forall|k: Seq<char>| #[trigger]
                texts(out@).contains(k) <==> list.take(i as int).contains(k),
            list.no_duplicates() ==> texts(out@).no_duplicates(),
        decreases v.len() - i,
    {
        let ghost head = list.take(i as int);
        proof {
            if list.no_duplicates() && head.contains(list[i as int]) {
                let p = head.index_of(list[i as int]);
                assert(list[p] == list[i as int]);
            }
        }
        insert_sorted(&mut out, v[i].clone());
        proof {
            let next = list.take(i + 1);
            assert(next == head.push(list[i as int]));
            assert forall|k: Seq<char>| #[trigger]
                texts(out@).contains(k) <==> next.contains(k) by {
                if head.contains(k) {
                    assert(next[head.index_of(k)] == k);
                }
                if k == list[i as int] {
                    assert(next[i as int] == k);
                }
            }
        }
        i = i + 1;
    }
    assert(list.take(i as int) == list);
    out
}

// ---- indices

/// The numbers below `n` for which a condition holds, in order.
pub open spec fn picked(pred: spec_fn(u32) -> bool, n: nat) -> Seq<u32>
    decreases n,
{
    if n == 0 {
        Seq::empty()
    } else {
        let k = (n - 1) as nat;
        if k <= u32::MAX && pred(k as u32) {
            picked(pred, k).push(k as u32)
        } else {
            picked(pred, k)
        }
    }
}

/// How many numbers a `u32` can be.
pub open spec fn u32_count() -> nat {
    0x1_0000_0000
}

/// The numbers for which a condition holds, in order.
pub open spec fn all_picked(pred: spec_fn(u32) -> bool) -> Seq<u32> {
    picked(pred, u32_count())
}

pub open spec fn ascends(s: Seq<u32>) -> bool {
    forall|i: int, j: int| 0 <= i < j < s.len() ==> s[i] < s[j]
}

/// An ascending list is the list of the numbers that it holds.
pub proof fn picked_is(s: Seq<u32>, pred: spec_fn(u32) -> bool, n: nat)
    requires
        ascends(s),
        n <= u32_count(),
        forall|x: u32| #[trigger] s.contains(x) <==> (pred(x) && x < n),
    ensures
        s == picked(pred, n),
    decreases n,
{
    if n == 0 {
        if s.len() > 0 {
            assert(s.contains(s[0]));
        }
        assert(s == Seq::<u32>::empty());
    } else {
        let k = (n - 1) as u32;
        if pred(k) {
            assert(s.contains(k));
            let i = choose|i: int| 0 <= i < s.len() && s[i] == k;
            if i < s.len() - 1 {
                assert(s.contains(s.last()));
                assert(s[i] < s.last());
            }
            let p = s.drop_last();
            assert forall|x: u32| #[trigger] p.contains(x) <==> (pred(x) && x < k) by {
                if p.contains(x) {
                    let j = choose|j: int| 0 <= j < p.len() && p[j] == x;
                    assert(s[j] == x);
                    assert(s.contains(x));
                    assert(s[j] < s.last());
                }
                if pred(x) && x < k {
                    assert(s.contains(x));
                    let j = choose|j: int| 0 <= j < s.len() && s[j] == x;
                    assert(p[j] == x);
                }
            }
            picked_is(p, pred, k as nat);
            assert(s == p.push(k));
        } else {
            assert forall|x: u32| #[trigger] s.contains(x) <==> (pred(x) && x < k) by {
                if s.contains(x) {
                    assert(x < n);
                    assert(x != k);
                }
            }
            picked_is(s, pred, k as nat);
        }
    }
}

fn merge(a: &Vec<u32>, b: &Vec<u32>) -> (r: Vec<u32>)
    requires
        ascends(a@),
        ascends(b@),
    ensures
        ascends(r@),
        forall|x: u32| #[trigger] r@.contains(x) <==> a@.contains(x) || b@.contains(x),
{
    let mut out: Vec<u32> = Vec::new();
    let mut i: usize = 0;
    let mut j: usize = 0;
    while i < a.len() || j < b.len()
        invariant
            i <= a.len(),
            j <= b.len(),
            ascends(a@),
            ascends(b@),
            ascends(out@),
            forall|k: int| 0 <= k < out@.len() && i < a@.len() ==> #[trigger] out@[k] < a@[i as int],
            forall|k: int| 0 <= k < out@.len() && j < b@.len() ==> #[trigger] out@[k] < b@[j as int],
            forall|k: int| 0 <= k < out@.len() ==> a@.contains(#[trigger] out@[k]) || b@.contains(out@[k]),
            forall|k: int| 0 <= k < i ==> out@.contains(#[trigger] a@[k]),
            forall|k: int| 0 <= k < j ==> out@.contains(#[trigger] b@[k]),
        decreases a.len() - i + b.len() - j,
    {
        let take_a = j >= b.len() || (i < a.len() && a[i] <= b[j]);
        let take_b = i >= a.len() || (j < b.len() && b[j] <= a[i]);
        let x: u32 = if take_a {
            a[i]
        } else {
            b[j]
        };
        let ghost before = out@;
        out.push(x);
        assert(out@[before.len() as int] == x);
        assert forall|y: u32| before.contains(y) implies out@.contains(y) by {
            let k = choose|k: int| 0 <= k < before.len() && before[k] == y;
            assert(out@[k] == y);
        }
        if take_a {
            assert(a@.contains(a@[i as int]));
            i = i + 1;
        }
        if take_b {
            assert(b@.contains(b@[j as int]));
            j = j + 1;
        }
    }
    assert forall|x: u32| a@.contains(x) || b@.contains(x) implies #[trigger] out@.contains(x) by {
        if a@.contains(x) {
            let k = choose|k: int| 0 <= k < a@.len() && a@[k] == x;
            assert(out@.contains(a@[k]));
        } else {
            let k = choose|k: int| 0 <= k < b@.len() && b@[k] == x;
            assert(out@.contains(b@[k]));
        }
    }
    out
}

fn ascending_part(v: &Vec<u32>, from: usize, to: usize) -> (r: Vec<u32>)
    requires
        from <= to <= v.len(),
    ensures
        ascends(r@),
        forall|x: u32| #[trigger] r@.contains(x) <==> v@.subrange(from as int, to as int).contains(x),
    decreases to - from,
{
    let ghost part = v@.subrange(from as int, to as int);
    let mut out: Vec<u32> = Vec::new();
    if to - from == 0 {
        assert(out@ == part);
        return out;
    }
    if to - from == 1 {
        out.push(v[from]);
        assert(out@ == part);
        return out;
    }
    let mid: usize = from + (to - from) / 2;
    let a: Vec<u32> = ascending_part(v, from, mid);
    let b: Vec<u32> = ascending_part(v, mid, to);
    let r: Vec<u32> = merge(&a, &b);
    proof {
        let pa = v@.subrange(from as int, mid as int);
        let pb = v@.subrange(mid as int, to as int);
        assert(part == pa + pb);
        assert forall|x: u32| part.contains(x) <==> pa.contains(x) || pb.contains(x) by {
            if pa.contains(x) {
                let k = choose|k: int| 0 <= k < pa.len() && pa[k] == x;
                assert(part[k] == x);
            }
            if pb.contains(x) {
                let k = choose|k: int| 0 <= k < pb.len() && pb[k] == x;
                assert(part[k + pa.len()] == x);
            }
            if part.contains(x) {
                let k = choose|k: int| 0 <= k < part.len() && part[k] == x;
                if k < pa.len() {
                    assert(pa[k] == x);
                } else {
                    assert(pb[k - pa.len()] == x);
                }
            }
        }
    }
    r
}

/// The numbers of a list in order, each once.
pub fn ascending(v: &Vec<u32>) -> (r: Vec<u32>)
    ensures
        ascends(r@),
        forall|x: u32| #[trigger] r@.contains(x) <==> v@.contains(x),
{
    assert(v@.subrange(0, v@.len() as int) == v@);
    ascending_part(v, 0, v.len())
}

/// A place put into an order of places, behind those whose keys are not above its own.
pub open spec fn insert_place(o: Seq<int>, keys: Seq<u64>, x: int) -> Seq<int>
    decreases o.len(),
{
    if o.len() == 0 || keys[o.last()] <= keys[x] {
        o.push(x)
    } else {
        insert_place(o.drop_last(), keys, x).push(o.last())
    }
}

/// The first `n` places in the order of their keys; equal keys keep their order.
pub open spec fn stable_order(keys: Seq<u64>, n: nat) -> Seq<int>
    decreases n,
{
    if n == 0 {
        Seq::empty()
    } else {
        insert_place(stable_order(keys, (n - 1) as nat), keys, n - 1)
    }
}

pub open spec fn key_sorted(o: Seq<int>, keys: Seq<u64>) -> bool {
    forall|i: int, j: int| 0 <= i < j < o.len() ==> keys[o[i]] <= keys[o[j]]
}

proof fn insert_place_is(o: Seq<int>, keys: Seq<u64>, x: int, p: int)
    requires
        0 <= p <= o.len(),
        p > 0 ==> keys[o[p - 1]] <= keys[x],
        forall|q: int| p <= q < o.len() ==> keys[#[trigger] o[q]] > keys[x],
    ensures
        insert_place(o, keys, x) == o.insert(p, x),
    decreases o.len(),
{
    if p == o.len() {
        assert(o.insert(p, x) == o.push(x));
    } else {
        let d = o.drop_last();
        assert forall|q: int| p <= q < d.len() implies keys[#[trigger] d[q]] > keys[x] by {
            assert(o[q] == d[q]);
        }
        insert_place_is(d, keys, x, p);
        assert(o.last() == o[o.len() - 1]);
        assert(o.insert(p, x) == d.insert(p, x).push(o.last()));
    }
}

/// The order of places is one of all of them, by ascending keys.
pub proof fn stable_order_sorts(keys: Seq<u64>, n: nat)
    requires
        n <= keys.len(),
    ensures
        stable_order(keys, n).len() == n,
        forall|i: int| 0 <= i < n ==> 0 <= #[trigger] stable_order(keys, n)[i] < n,
        stable_order(keys, n).no_duplicates(),
        key_sorted(stable_order(keys, n), keys),
    decreases n,
{
    if n > 0 {
        let k = (n - 1) as nat;
        stable_order_sorts(keys, k);
        insert_keeps(stable_order(keys, k), keys, k as int);
    }
}

proof fn insert_keeps(o: Seq<int>, keys: Seq<u64>, x: int)
    requires
        o.no_duplicates(),
        key_sorted(o, keys),
        forall|i: int| 0 <= i < o.len() ==> 0 <= #[trigger] o[i] < x,
        x >= 0,
    ensures
        insert_place(o, keys, x).len() == o.len() + 1,
        insert_place(o, keys, x).no_duplicates(),
        key_sorted(insert_place(o, keys, x), keys),
        forall|i: int| 0 <= i <= o.len() ==> 0 <= #[trigger] insert_place(o, keys, x)[i] <= x,
        forall|i: int| 0 <= i <= o.len() ==> #[trigger] insert_place(o, keys, x)[i] == x || o.contains(
            insert_place(o, keys, x)[i],
        ),
        o.len() > 0 && keys[o.last()] > keys[x] ==> insert_place(o, keys, x).last() == o.last(),
    decreases o.len(),
{
    let r = insert_place(o, keys, x);
    if o.len() == 0 || keys[o.last()] <= keys[x] {
        assert forall|i: int| 0 <= i <= o.len() implies #[trigger] r[i] == x || o.contains(r[i]) by {
            if i < o.len() {
                assert(r[i] == o[i]);
            }
        }
        assert forall|i: int, j: int| 0 <= i < j < r.len() implies keys[r[i]] <= keys[r[j]] by {
            if j == o.len() && i < o.len() - 1 {
                assert(keys[o[i]] <= keys[o[o.len() - 1]]);
            }
        }
    } else {
        let d = o.drop_last();
        assert forall|i: int| 0 <= i < d.len() implies 0 <= #[trigger] d[i] < x by {
            assert(o[i] == d[i]);
        }
        insert_keeps(d, keys, x);
        let q = insert_place(d, keys, x);
        assert(r == q.push(o.last()));
        assert forall|i: int| 0 <= i < q.len() implies #[trigger] q[i] != o.last() && keys[q[i]]
            <= keys[o.last()] by {
            if q[i] != x {
                assert(d.contains(q[i]));
                let k = choose|k: int| 0 <= k < d.len() && d[k] == q[i];
                assert(o[k] == q[i]);
                assert(o[k] != o[o.len() - 1]);
                assert(keys[o[k]] <= keys[o[o.len() - 1]]);
            }
        }
        assert forall|i: int| 0 <= i <= o.len() implies #[trigger] r[i] == x || o.contains(r[i]) by {
            if i < q.len() && q[i] != x {
                assert(d.contains(q[i]));
                let k = choose|k: int| 0 <= k < d.len() && d[k] == q[i];
                assert(o[k] == q[i]);
            } else if i == q.len() {
                assert(o[o.len() - 1] == r[i]);
            }
        }
    }
}

/// Places whose keys ascend are in order already.
pub proof fn stable_order_of_sorted(keys: Seq<u64>, n: nat)
    requires
        n <= keys.len(),
        forall|i: int, j: int| 0 <= i < j < n ==> keys[i] <= keys[j],
    ensures
        stable_order(keys, n) == Seq::new(n, |i: int| i),
    decreases n,
{
    if n > 0 {
        let k = (n - 1) as nat;
        stable_order_of_sorted(keys, k);
        let o = stable_order(keys, k);
        if k > 0 {
            assert(o.last() == k - 1);
        }
        assert(o.push(k as int) == Seq::new(n, |i: int| i));
    } else {
        assert(stable_order(keys, 0) == Seq::new(0nat, |i: int| i));
    }
}

proof fn insert_place_holds(o: Seq<int>, keys: Seq<u64>, x: int, j: int)
    ensures
        insert_place(o, keys, x).contains(j) <==> o.contains(j) || j == x,
    decreases o.len(),
{
    let r = insert_place(o, keys, x);
    if o.len() == 0 || keys[o.last()] <= keys[x] {
        assert(r == o.push(x));
        if o.contains(j) {
            assert(r[o.index_of(j)] == j);
        }
        assert(r[o.len() as int] == x);
    } else {
        let d = o.drop_last();
        let q = insert_place(d, keys, x);
        insert_place_holds(d, keys, x, j);
        assert(r == q.push(o.last()));
        if r.contains(j) {
            let i = choose|i: int| 0 <= i < r.len() && r[i] == j;
            if i < q.len() {
                assert(q[i] == j);
                if d.contains(j) {
                    assert(o[d.index_of(j)] == j);
                }
            } else {
                assert(o[o.len() - 1] == j);
            }
        }
        if o.contains(j) {
            let i = choose|i: int| 0 <= i < o.len() && o[i] == j;
            if i < d.len() {
                assert(d[i] == j);
                assert(r[q.index_of(j)] == j);
            } else {
                assert(r[q.len() as int] == j);
            }
        }
        if j == x {
            assert(r[q.index_of(j)] == j);
        }
    }
}

/// An order holds each place once.
pub proof fn stable_order_holds(keys: Seq<u64>, n: nat)
    ensures
        forall|j: int| #[trigger] stable_order(keys, n).contains(j) <==> 0 <= j < n,
    decreases n,
{
    if n > 0 {
        let k = (n - 1) as nat;
        stable_order_holds(keys, k);
        assert forall|j: int| #[trigger] stable_order(keys, n).contains(j) <==> 0 <= j < n by {
            insert_place_holds(stable_order(keys, k), keys, k as int, j);
        }
    }
}

/// The numbers of a list of places.
pub open spec fn places(v: Seq<usize>) -> Seq<int> {
    Seq::new(v.len(), |i: int| v[i] as int)
}

/// The places of keys in the order of the keys; equal keys keep their order.
pub fn stable_sort(keys: &Vec<u64>) -> (r: Vec<usize>)
    ensures
        places(r@) == stable_order(keys@, keys@.len()),
{
    let mut o: Vec<usize> = Vec::new();
    let mut x: usize = 0;
    assert(places(o@) == stable_order(keys@, 0));
    while x < keys.len()
        invariant
            x <= keys.len(),
            places(o@) == stable_order(keys@, x as nat),
        decreases keys.len() - x,
    {
        proof {
            stable_order_sorts(keys@, x as nat);
        }
        let ghost po = places(o@);
        assert(po.len() == x);
        let mut p: usize = o.len();
        assert forall|k: int| 0 <= k < o@.len() implies #[trigger] o@[k] < keys@.len() by {
            assert(po[k] == o@[k]);
        }
        while p > 0 && keys[o[p - 1]] > keys[x]
            invariant
                p <= o.len(),
                x < keys.len(),
                po == places(o@),
                forall|k: int| 0 <= k < o@.len() ==> #[trigger] o@[k] < keys@.len(),
                forall|q: int| p <= q < o@.len() ==> keys@[#[trigger] po[q]] > keys@[x as int],
            decreases p,
        {
            assert(po[p - 1] == o@[p - 1]);
            p = p - 1;
        }
        proof {
            if p > 0 {
                assert(po[p - 1] == o@[p - 1]);
            }
            insert_place_is(po, keys@, x as int, p as int);
        }
        o.insert(p, x);
        assert(places(o@) == po.insert(p as int, x as int));
        x = x + 1;
    }
    o
}

/// The numbers for which a condition holds are listed in order.
pub proof fn picked_has(pred: spec_fn(u32) -> bool, n: nat)
    requires
        n <= u32_count(),
    ensures
        ascends(picked(pred, n)),
        forall|x: u32| #[trigger] picked(pred, n).contains(x) <==> (pred(x) && x < n),
    decreases n,
{
    if n > 0 {
        let k = (n - 1) as nat;
        picked_has(pred, k);
        let p = picked(pred, k);
        let s = picked(pred, n);
        assert forall|i: int| 0 <= i < p.len() implies #[trigger] p[i] < k by {
            assert(p.contains(p[i]));
        }
        assert forall|x: u32| #[trigger] s.contains(x) <==> (pred(x) && x < n) by {
            if s.contains(x) {
                let i = choose|i: int| 0 <= i < s.len() && s[i] == x;
                if i < p.len() {
                    assert(p.contains(x));
                }
            }
            if pred(x) && x < n {
                if x < k {
                    assert(p.contains(x));
                    let i = choose|i: int| 0 <= i < p.len() && p[i] == x;
                    assert(s[i] == x);
                } else {
                    assert(s.last() == x);
                }
            }
        }
    }
}

} // verus!
