//! Depth-first ordering of a finite graph whose nodes are numbered from 0.
//!
//! `adj[v]` lists the nodes that `v` needs. The order puts what a node needs in front of it;
//! nodes that lie on a cycle are left out of the order and reported.
use vstd::prelude::*;

verus! {

/// Whether every edge of `adj` ends at a node.
pub open spec fn graph_ok(adj: Seq<Vec<usize>>) -> bool {
    forall|v: int, e: int|
        #![trigger adj[v]@[e]]
        0 <= v < adj.len() && 0 <= e < adj[v]@.len() ==> adj[v]@[e] < adj.len()
}

/// Whether `v` needs `d`.
pub open spec fn needs(adj: Seq<Vec<usize>>, v: int, d: int) -> bool {
    0 <= v < adj.len() && exists|e: int| 0 <= e < adj[v]@.len() && #[trigger] adj[v]@[e] == d
}

/// Whether each node of `p` needs the next one.
pub open spec fn is_chain(adj: Seq<Vec<usize>>, p: Seq<int>) -> bool {
    forall|k: int, l: int|
        #![trigger p[k], p[l]]
        0 <= k && l == k + 1 && l < p.len() ==> needs(adj, p[k], p[l])
}

/// Whether `v` lies on a cycle.
pub open spec fn on_cycle(adj: Seq<Vec<usize>>, v: int) -> bool {
    exists|p: Seq<int>|
        p.len() >= 2 && p[0] == v && p[p.len() - 1] == v && #[trigger] is_chain(adj, p)
}

/// A frame of the search: a node and the number of its needs that were looked at.
type Frame = (usize, usize);

spec fn frame_nodes(stack: Seq<Frame>) -> Seq<int> {
    Seq::new(stack.len(), |k: int| stack[k].0 as int)
}

spec fn remaining(adj: Seq<Vec<usize>>, stack: Seq<Frame>) -> int
    decreases stack.len(),
{
    if stack.len() == 0 {
        0
    } else {
        remaining(adj, stack.drop_last()) + (adj[stack.last().0 as int]@.len() - stack.last().1 + 1)
    }
}

spec fn whites(color: Seq<u8>) -> nat
    decreases color.len(),
{
    if color.len() == 0 {
        0
    } else {
        whites(color.drop_last()) + (if color.last() == 0 {
            1nat
        } else {
            0nat
        })
    }
}

proof fn whites_update(color: Seq<u8>, i: int, c: u8)
    requires
        0 <= i < color.len(),
        c != 0,
    ensures
        color[i] == 0 ==> whites(color.update(i, c)) == whites(color) - 1,
        color[i] != 0 ==> whites(color.update(i, c)) == whites(color),
    decreases color.len(),
{
    if i == color.len() - 1 {
        assert(color.update(i, c).drop_last() == color.drop_last());
    } else {
        whites_update(color.drop_last(), i, c);
        assert(color.update(i, c).drop_last() == color.drop_last().update(i, c));
    }
}

/// Whether frame `k + 1` was pushed when frame `k` looked at its latest node.
spec fn pushed_by(adj: Seq<Vec<usize>>, stack: Seq<Frame>, k: int) -> bool {
    stack[k].1 > 0 && adj[stack[k].0 as int]@[stack[k].1 - 1] == stack[k + 1].0
}

/// What the search keeps true. Colours: 0 unseen, 1 on the stack, 2 done.
spec fn search_ok(
    adj: Seq<Vec<usize>>,
    color: Seq<u8>,
    order: Seq<usize>,
    cyclic: Seq<bool>,
    stack: Seq<Frame>,
) -> bool {
    &&& graph_ok(adj)
    &&& adj.len() <= usize::MAX
    &&& color.len() == adj.len()
    &&& cyclic.len() == adj.len()
    &&& forall|v: int| 0 <= v < color.len() ==> #[trigger] color[v] <= 2
    // the stack holds the nodes of colour 1, each once
    &&& forall|k: int|
        0 <= k < stack.len() ==> (#[trigger] stack[k]).0 < adj.len() && stack[k].1
            <= adj[stack[k].0 as int]@.len() && color[stack[k].0 as int] == 1
    &&& forall|k: int, l: int|
        0 <= k < l < stack.len() ==> (#[trigger] stack[k]).0 != (#[trigger] stack[l]).0
    &&& forall|v: int|
        0 <= v < color.len() && #[trigger] color[v] == 1 ==> exists|k: int|
            0 <= k < stack.len() && (#[trigger] stack[k]).0 == v
    // each frame was pushed from the one below it
    &&& forall|k: int| 0 <= k < stack.len() - 1 ==> #[trigger] pushed_by(adj, stack, k)
    // what a frame has looked at is done, or the frame's node is known to be on a cycle
    &&& forall|k: int, e: int|
        0 <= k < stack.len() && 0 <= e < stack[k].1 ==> {
            let d = #[trigger] adj[(#[trigger] stack[k]).0 as int]@[e];
            color[d as int] == 2 || cyclic[stack[k].0 as int] || (k + 1 < stack.len() && e
                == stack[k].1 - 1)
        }
    &&& forall|v: int| 0 <= v < cyclic.len() && #[trigger] cyclic[v] ==> on_cycle(adj, v) && color[v] != 0
    // the order holds the done nodes that are not on a cycle
    &&& order.no_duplicates()
    &&& forall|p: int|
        0 <= p < order.len() ==> (#[trigger] order[p]) < adj.len() && color[order[p] as int] == 2
            && !cyclic[order[p] as int]
    &&& forall|v: int|
        0 <= v < color.len() && #[trigger] color[v] == 2 && !cyclic[v] ==> order.contains(v as usize)
    &&& forall|p: int, d: int|
        0 <= p < order.len() && 0 <= d < adj.len() && #[trigger] needs(adj, order[p] as int, d)
            ==> cyclic[d] || order.take(p).contains(d as usize)
}

/// An order of the nodes and, for each node, whether it lies on a cycle.
pub open spec fn ordered(adj: Seq<Vec<usize>>, order: Seq<usize>, cyclic: Seq<bool>) -> bool {
    &&& searched(adj, order, cyclic)
    &&& forall|v: int| 0 <= v < adj.len() && on_cycle(adj, v) ==> #[trigger] cyclic[v]
}

/// An order of the nodes and, for each node, whether a search found it on a cycle.
pub open spec fn searched(adj: Seq<Vec<usize>>, order: Seq<usize>, cyclic: Seq<bool>) -> bool {
    &&& cyclic.len() == adj.len()
    &&& order.no_duplicates()
    &&& forall|p: int| 0 <= p < order.len() ==> (#[trigger] order[p]) < adj.len()
    &&& forall|v: int|
        0 <= v < adj.len() ==> (#[trigger] cyclic[v] <==> !order.contains(v as usize))
    &&& forall|v: int| 0 <= v < adj.len() && #[trigger] cyclic[v] ==> on_cycle(adj, v)
    &&& forall|p: int, d: int|
        0 <= p < order.len() && 0 <= d < adj.len() && #[trigger] needs(adj, order[p] as int, d)
            ==> cyclic[d] || order.take(p).contains(d as usize)
}

proof fn stack_chain(
    adj: Seq<Vec<usize>>,
    color: Seq<u8>,
    order: Seq<usize>,
    cyclic: Seq<bool>,
    stack: Seq<Frame>,
)
    requires
        search_ok(adj, color, order, cyclic, stack),
    ensures
        is_chain(adj, frame_nodes(stack)),
{
    let p = frame_nodes(stack);
    assert forall|k: int, l: int|
        #![trigger p[k], p[l]]
        0 <= k && l == k + 1 && l < p.len() implies needs(adj, p[k], p[l]) by {
        let e = stack[k].1 - 1;
        assert(pushed_by(adj, stack, k));
        assert(stack[l].0 == adj[stack[k].0 as int]@[e]);
    }
}

/// A chain whose last node needs the one at `f` puts every node from `f` on on a cycle.
proof fn chain_cycle(adj: Seq<Vec<usize>>, s: Seq<int>, f: int, m: int)
    requires
        is_chain(adj, s),
        0 <= f <= m < s.len(),
        needs(adj, s[s.len() - 1], s[f]),
    ensures
        on_cycle(adj, s[m]),
{
    let p = s.subrange(m, s.len() as int) + s.subrange(f, m + 1);
    let a = s.len() - m;
    assert forall|k: int, l: int|
        #![trigger p[k], p[l]]
        0 <= k && l == k + 1 && l < p.len() implies needs(adj, p[k], p[l]) by {
        if l < a {
            assert(p[k] == s[m + k] && p[l] == s[m + l]);
        } else if k == a - 1 {
            assert(p[k] == s[s.len() - 1] && p[l] == s[f]);
        } else {
            assert(p[k] == s[f + (k - a)] && p[l] == s[f + (l - a)]);
        }
    }
    assert(is_chain(adj, p));
    assert(p[0] == s[m]);
    assert(p[p.len() - 1] == s[m]);
}

proof fn keep_start(
    adj: Seq<Vec<usize>>,
    color: Seq<u8>,
    order: Seq<usize>,
    cyclic: Seq<bool>,
    start: usize,
)
    requires
        search_ok(adj, color, order, cyclic, Seq::empty()),
        start < adj.len(),
        color[start as int] == 0,
    ensures
        search_ok(adj, color.update(start as int, 1), order, cyclic, seq![(start, 0usize)]),
{
    let s2 = seq![(start, 0usize)];
    let c2 = color.update(start as int, 1);
    assert(s2[0].0 == start);
    assert forall|v: int| 0 <= v < c2.len() && #[trigger] c2[v] == 1 implies exists|k: int|
        0 <= k < s2.len() && (#[trigger] s2[k]).0 == v by {
        assert(v != start ==> color[v] == 1);
    }
}

/// Orders the nodes of a graph, leaving out at least one of each cycle.
fn search_nodes(adj: &Vec<Vec<usize>>) -> (r: (Vec<usize>, Vec<bool>))
    requires
        graph_ok(adj@),
    ensures
        searched(adj@, r.0@, r.1@),
{
    let n: usize = adj.len();
    let mut color: Vec<u8> = Vec::new();
    let mut cyclic: Vec<bool> = Vec::new();
    let mut i: usize = 0;
    while i < n
        invariant
            i <= n,
            color@ == Seq::new(i as nat, |k: int| 0u8),
            cyclic@ == Seq::new(i as nat, |k: int| false),
        decreases n - i,
    {
        color.push(0);
        cyclic.push(false);
        i = i + 1;
    }
    let mut order: Vec<usize> = Vec::new();
    let mut stack: Vec<Frame> = Vec::new();
    let mut start: usize = 0;
    while start < n
        invariant
            start <= n,
            n == adj.len(),
            search_ok(adj@, color@, order@, cyclic@, stack@),
            stack@.len() == 0,
            forall|v: int| 0 <= v < start ==> #[trigger] color@[v] == 2,
        decreases n - start,
    {
        if color[start] == 0 {
            let ghost color0 = color@;
            color.set(start, 1);
            stack.push((start, 0));
            proof {
                keep_start(adj@, color0, order@, cyclic@, start);
                assert(stack@ == seq![(start, 0usize)]);
            }
            while stack.len() > 0
                invariant
                    start < n,
                    n == adj.len(),
                    search_ok(adj@, color@, order@, cyclic@, stack@),
                    forall|v: int| 0 <= v < start ==> #[trigger] color@[v] == 2,
                    color@[start as int] != 0,
                decreases whites(color@), remaining(adj@, stack@),
            {
                visit(adj, &mut color, &mut order, &mut cyclic, &mut stack);
            }
        }
        start = start + 1;
    }
    proof {
        assert forall|v: int| 0 <= v < adj@.len() implies (#[trigger] cyclic@[v]
            <==> !order@.contains(v as usize)) by {
            assert(color@[v] == 2);
            if order@.contains(v as usize) {
                let p = order@.index_of(v as usize);
                assert(!cyclic@[order@[p] as int]);
            }
        }
    }
    (order, cyclic)
}

proof fn remaining_bound(adj: Seq<Vec<usize>>, stack: Seq<Frame>)
    requires
        forall|k: int|
            0 <= k < stack.len() ==> (#[trigger] stack[k]).1 <= adj[stack[k].0 as int]@.len(),
    ensures
        remaining(adj, stack) >= 0,
    decreases stack.len(),
{
    if stack.len() > 0 {
        let rest = stack.drop_last();
        assert forall|k: int| 0 <= k < rest.len() implies (#[trigger] rest[k]).1
            <= adj[rest[k].0 as int]@.len() by {
            assert(rest[k] == stack[k]);
        }
        remaining_bound(adj, rest);
        assert(stack.last() == stack[stack.len() - 1]);
    }
}

/// The stack after its top frame looked at one more node.
spec fn looked(stack: Seq<Frame>) -> Seq<Frame> {
    let (v, idx) = stack.last();
    stack.update(stack.len() - 1, (v, (idx + 1) as usize))
}

proof fn keep_push(
    adj: Seq<Vec<usize>>,
    color: Seq<u8>,
    order: Seq<usize>,
    cyclic: Seq<bool>,
    stack: Seq<Frame>,
    d: usize,
)
    requires
        search_ok(adj, color, order, cyclic, stack),
        stack.len() > 0,
        stack.last().1 < adj[stack.last().0 as int]@.len(),
        adj[stack.last().0 as int]@[stack.last().1 as int] == d,
        stack.last().1 < usize::MAX,
        color[d as int] == 0,
    ensures
        search_ok(adj, color.update(d as int, 1), order, cyclic, looked(stack).push((d, 0))),
{
    let s2 = looked(stack).push((d, 0usize));
    let c2 = color.update(d as int, 1);
    let top = stack.len() - 1;
    assert(stack[top] == stack.last());
    assert forall|k: int| 0 <= k < stack.len() implies s2[k].0 == stack[k].0 by {}
    assert(s2[top + 1] == (d, 0usize));
    assert forall|v: int| 0 <= v < c2.len() && #[trigger] c2[v] == 1 implies exists|k: int|
        0 <= k < s2.len() && (#[trigger] s2[k]).0 == v by {
        if v == d {
            assert(s2[top + 1].0 == v);
        } else {
            let k = choose|k: int| 0 <= k < stack.len() && (#[trigger] stack[k]).0 == v;
            assert(s2[k].0 == v);
        }
    }
    assert forall|k: int, e: int| 0 <= k < s2.len() && 0 <= e < s2[k].1 implies ({
        let w = #[trigger] adj[(#[trigger] s2[k]).0 as int]@[e];
        c2[w as int] == 2 || cyclic[s2[k].0 as int] || (k + 1 < s2.len() && e == s2[k].1 - 1)
    }) by {
        if k < top {
            assert(s2[k] == stack[k]);
        } else if k == top && e < stack[k].1 {
            let w = adj[stack[k].0 as int]@[e];
            assert(color[w as int] == 2 || cyclic[stack[k].0 as int]);
        }
    }
    assert forall|k: int| 0 <= k < s2.len() - 1 implies #[trigger] pushed_by(adj, s2, k) by {
        if k < top {
            assert(pushed_by(adj, stack, k));
            assert(s2[k] == stack[k] && s2[k + 1].0 == stack[k + 1].0);
        }
    }
}

proof fn keep_mark(
    adj: Seq<Vec<usize>>,
    color: Seq<u8>,
    order: Seq<usize>,
    cyclic: Seq<bool>,
    stack: Seq<Frame>,
    d: usize,
    cyclic2: Seq<bool>,
)
    requires
        search_ok(adj, color, order, cyclic, stack),
        stack.len() > 0,
        stack.last().1 < adj[stack.last().0 as int]@.len(),
        adj[stack.last().0 as int]@[stack.last().1 as int] == d,
        stack.last().1 < usize::MAX,
        cyclic2.len() == cyclic.len(),
        forall|u: int| 0 <= u < cyclic.len() && cyclic[u] ==> #[trigger] cyclic2[u],
        forall|u: int|
            0 <= u < cyclic.len() && #[trigger] cyclic2[u] && !cyclic[u] ==> on_cycle(adj, u)
                && color[u] == 1,
        color[d as int] == 2 || cyclic2[stack.last().0 as int],
    ensures
        search_ok(adj, color, order, cyclic2, looked(stack)),
{
    let s2 = looked(stack);
    let top = stack.len() - 1;
    assert(stack[top] == stack.last());
    assert forall|k: int| 0 <= k < stack.len() implies s2[k].0 == stack[k].0 by {}
    assert forall|v: int| 0 <= v < color.len() && #[trigger] color[v] == 1 implies exists|k: int|
        0 <= k < s2.len() && (#[trigger] s2[k]).0 == v by {
        let k = choose|k: int| 0 <= k < stack.len() && (#[trigger] stack[k]).0 == v;
        assert(s2[k].0 == v);
    }
    assert forall|k: int, e: int| 0 <= k < s2.len() && 0 <= e < s2[k].1 implies ({
        let w = #[trigger] adj[(#[trigger] s2[k]).0 as int]@[e];
        color[w as int] == 2 || cyclic2[s2[k].0 as int] || (k + 1 < s2.len() && e == s2[k].1 - 1)
    }) by {
        if k < top {
            assert(s2[k] == stack[k]);
        } else if e < stack[k].1 {
            let w = adj[stack[k].0 as int]@[e];
            assert(color[w as int] == 2 || cyclic[stack[k].0 as int]);
        }
    }
    assert forall|k: int| 0 <= k < s2.len() - 1 implies #[trigger] pushed_by(adj, s2, k) by {
        assert(pushed_by(adj, stack, k));
        assert(s2[k] == stack[k] && s2[k + 1].0 == stack[k + 1].0);
    }
    assert forall|p: int| 0 <= p < order.len() implies (#[trigger] order[p]) < adj.len()
        && color[order[p] as int] == 2 && !cyclic2[order[p] as int] by {
        assert(cyclic2[order[p] as int] ==> cyclic[order[p] as int]);
    }
    assert forall|p: int, w: int|
        0 <= p < order.len() && 0 <= w < adj.len() && #[trigger] needs(
            adj,
            order[p] as int,
            w,
        ) implies cyclic2[w] || order.take(p).contains(w as usize) by {
        assert(cyclic[w] ==> cyclic2[w]);
    }
    assert forall|v: int| 0 <= v < color.len() && #[trigger] color[v] == 2 && !cyclic2[v] implies order.contains(
        v as usize,
    ) by {
        assert(cyclic[v] ==> cyclic2[v]);
    }
}

proof fn keep_pop(
    adj: Seq<Vec<usize>>,
    color: Seq<u8>,
    order: Seq<usize>,
    cyclic: Seq<bool>,
    stack: Seq<Frame>,
)
    requires
        search_ok(adj, color, order, cyclic, stack),
        stack.len() > 0,
        stack.last().1 == adj[stack.last().0 as int]@.len(),
    ensures
        search_ok(
            adj,
            color.update(stack.last().0 as int, 2),
            if cyclic[stack.last().0 as int] {
                order
            } else {
                order.push(stack.last().0)
            },
            cyclic,
            stack.drop_last(),
        ),
{
    let top = stack.len() - 1;
    let v = stack.last().0;
    assert(stack[top] == stack.last());
    let s2 = stack.drop_last();
    let c2 = color.update(v as int, 2);
    let o2 = if cyclic[v as int] {
        order
    } else {
        order.push(v)
    };
    assert forall|k: int| 0 <= k < s2.len() implies s2[k] == stack[k] by {}
    assert forall|k: int| 0 <= k < s2.len() implies (#[trigger] s2[k]).0 < adj.len() && s2[k].1
        <= adj[s2[k].0 as int]@.len() && c2[s2[k].0 as int] == 1 by {
        assert(stack[k].0 != stack[top].0);
    }
    assert forall|u: int| 0 <= u < c2.len() && #[trigger] c2[u] == 1 implies exists|k: int|
        0 <= k < s2.len() && (#[trigger] s2[k]).0 == u by {
        assert(color[u] == 1);
        let k = choose|k: int| 0 <= k < stack.len() && (#[trigger] stack[k]).0 == u;
        assert(s2[k].0 == u);
    }
    assert forall|k: int, e: int| 0 <= k < s2.len() && 0 <= e < s2[k].1 implies ({
        let w = #[trigger] adj[(#[trigger] s2[k]).0 as int]@[e];
        c2[w as int] == 2 || cyclic[s2[k].0 as int] || (k + 1 < s2.len() && e == s2[k].1 - 1)
    }) by {
        assert(s2[k] == stack[k]);
        let w = adj[stack[k].0 as int]@[e];
        if k + 1 == top && e == stack[k].1 - 1 {
            assert(pushed_by(adj, stack, k));
            assert(stack[k + 1].0 == w);
        }
    }
    assert forall|k: int| 0 <= k < s2.len() - 1 implies #[trigger] pushed_by(adj, s2, k) by {
        assert(pushed_by(adj, stack, k));
    }
    assert forall|p: int| 0 <= p < o2.len() implies (#[trigger] o2[p]) < adj.len()
        && c2[o2[p] as int] == 2 && !cyclic[o2[p] as int] by {
        if p < order.len() {
            assert(o2[p] == order[p]);
        }
    }
    if !cyclic[v as int] {
        assert(!order.contains(v)) by {
            if order.contains(v) {
                let p = order.index_of(v);
                assert(color[order[p] as int] == 2);
            }
        }
        assert(o2[order.len() as int] == v);
    }
    assert forall|u: int| 0 <= u < c2.len() && #[trigger] c2[u] == 2 && !cyclic[u] implies o2.contains(
        u as usize,
    ) by {
        if u != v {
            assert(color[u] == 2);
            let p = order.index_of(u as usize);
            assert(o2[p] == u);
        }
    }
    assert forall|p: int, w: int|
        0 <= p < o2.len() && 0 <= w < adj.len() && #[trigger] needs(
            adj,
            o2[p] as int,
            w,
        ) implies cyclic[w] || o2.take(p).contains(w as usize) by {
        if p < order.len() {
            assert(o2[p] == order[p]);
            assert(o2.take(p) == order.take(p));
        } else {
            assert(o2.take(p) == order);
            let e = choose|e: int| 0 <= e < adj[v as int]@.len() && #[trigger] adj[v as int]@[e] == w;
            assert(adj[stack[top].0 as int]@[e] == w);
            assert(color[w] == 2);
        }
    }
}

/// Marks the nodes of the frames from `d`'s on.
fn mark_cycle(
    adj: &Vec<Vec<usize>>,
    cyclic: &mut Vec<bool>,
    stack: &Vec<Frame>,
    d: usize,
)
    requires
        old(cyclic)@.len() == adj@.len(),
        stack@.len() > 0,
        forall|k: int| 0 <= k < stack@.len() ==> (#[trigger] stack@[k]).0 < adj@.len(),
        is_chain(adj@, frame_nodes(stack@)),
        needs(adj@, stack@.last().0 as int, d as int),
        exists|k: int| 0 <= k < stack@.len() && (#[trigger] stack@[k]).0 == d,
    ensures
        final(cyclic)@.len() == old(cyclic)@.len(),
        forall|u: int| 0 <= u < old(cyclic)@.len() && old(cyclic)@[u] ==> #[trigger] final(cyclic)@[u],
        forall|u: int|
            0 <= u < old(cyclic)@.len() && #[trigger] final(cyclic)@[u] && !old(cyclic)@[u]
                ==> on_cycle(adj@, u) && exists|k: int| 0 <= k < stack@.len() && (#[trigger] stack@[k]).0 == u,
        final(cyclic)@[stack@.last().0 as int],
{
    let mut f: usize = 0;
    while stack[f].0 != d
        invariant
            f < stack.len(),
            exists|k: int| f <= k < stack@.len() && (#[trigger] stack@[k]).0 == d,
        decreases stack.len() - f,
    {
        f = f + 1;
    }
    let mut m: usize = f;
    while m < stack.len()
        invariant
            f <= m <= stack.len(),
            f < stack.len(),
            stack@[f as int].0 == d,
            cyclic@.len() == adj@.len(),
            old(cyclic)@.len() == adj@.len(),
            forall|k: int| 0 <= k < stack@.len() ==> (#[trigger] stack@[k]).0 < adj@.len(),
            is_chain(adj@, frame_nodes(stack@)),
            needs(adj@, stack@.last().0 as int, d as int),
            forall|u: int| 0 <= u < old(cyclic)@.len() && old(cyclic)@[u] ==> #[trigger] cyclic@[u],
            forall|u: int|
                0 <= u < old(cyclic)@.len() && #[trigger] cyclic@[u] && !old(cyclic)@[u]
                    ==> on_cycle(adj@, u) && exists|k: int|
                    0 <= k < stack@.len() && (#[trigger] stack@[k]).0 == u,
            m == stack.len() ==> cyclic@[stack@.last().0 as int],
        decreases stack.len() - m,
    {
        proof {
            let s = frame_nodes(stack@);
            assert(s[s.len() - 1] == stack@.last().0);
            assert(s[f as int] == d);
            chain_cycle(adj@, s, f as int, m as int);
            assert(s[m as int] == stack@[m as int].0);
        }
        cyclic.set(stack[m].0, true);
        m = m + 1;
    }
}

fn visit(
    adj: &Vec<Vec<usize>>,
    color: &mut Vec<u8>,
    order: &mut Vec<usize>,
    cyclic: &mut Vec<bool>,
    stack: &mut Vec<Frame>,
)
    requires
        search_ok(adj@, old(color)@, old(order)@, old(cyclic)@, old(stack)@),
        old(stack)@.len() > 0,
    ensures
        search_ok(adj@, final(color)@, final(order)@, final(cyclic)@, final(stack)@),
        forall|v: int|
            0 <= v < old(color)@.len() && old(color)@[v] == 2 ==> #[trigger] final(color)@[v] == 2,
        forall|v: int|
            0 <= v < old(color)@.len() && old(color)@[v] != 0 ==> #[trigger] final(color)@[v] != 0,
        whites(final(color)@) < whites(old(color)@) || (whites(final(color)@) == whites(
            old(color)@,
        ) && 0 <= remaining(adj@, final(stack)@) < remaining(adj@, old(stack)@)),
{
    let ghost color0 = color@;
    let ghost order0 = order@;
    let ghost cyclic0 = cyclic@;
    let ghost stack0 = stack@;
    let top: usize = stack.len() - 1;
    let frame: Frame = stack[top];
    let v: usize = frame.0;
    let idx: usize = frame.1;
    assert(stack0.last() == stack0[top as int]);
    if idx < adj[v].len() {
        let d: usize = adj[v][idx];
        stack.set(top, (v, idx + 1));
        assert(stack@ == looked(stack0));
        assert(stack@.drop_last() == stack0.drop_last());
        if color[d] == 0 {
            color.set(d, 1);
            stack.push((d, 0));
            proof {
                keep_push(adj@, color0, order0, cyclic0, stack0, d);
                whites_update(color0, d as int, 1);
            }
        } else {
            if color[d] == 1 {
                proof {
                    stack_chain(adj@, color0, order0, cyclic0, stack0);
                    assert(frame_nodes(stack@) == frame_nodes(stack0));
                    let k = choose|k: int| 0 <= k < stack0.len() && (#[trigger] stack0[k]).0 == d;
                    assert(stack@[k].0 == d);
                }
                mark_cycle(adj, cyclic, stack, d);
                proof {
                    assert forall|u: int|
                        0 <= u < cyclic0.len() && #[trigger] cyclic@[u] && !cyclic0[u] implies on_cycle(
                        adj@,
                        u,
                    ) && color0[u] == 1 by {
                        let k = choose|k: int| 0 <= k < stack@.len() && (#[trigger] stack@[k]).0 == u;
                        assert(stack0[k].0 == u);
                    }
                }
            }
            proof {
                keep_mark(adj@, color0, order0, cyclic0, stack0, d, cyclic@);
                remaining_bound(adj@, stack@);
            }
        }
    } else {
        stack.pop();
        color.set(v, 2);
        if !cyclic[v] {
            order.push(v);
        }
        proof {
            keep_pop(adj@, color0, order0, cyclic0, stack0);
            assert(stack@ == stack0.drop_last());
            whites_update(color0, v as int, 2);
            remaining_bound(adj@, stack@);
        }
    }
}

// ---- all nodes on cycles

/// Whether a chain of one step or more leads from `v` to `u`.
spec fn leads(adj: Seq<Vec<usize>>, v: int, u: int) -> bool {
    exists|p: Seq<int>|
        p.len() >= 2 && p[0] == v && p[p.len() - 1] == u && #[trigger] is_chain(adj, p)
}

/// How many are not marked.
spec fn unmarked(seen: Seq<bool>) -> nat
    decreases seen.len(),
{
    if seen.len() == 0 {
        0
    } else {
        unmarked(seen.drop_last()) + if seen.last() {
            0nat
        } else {
            1nat
        }
    }
}

proof fn mark_counts(seen: Seq<bool>, i: int)
    requires
        0 <= i < seen.len(),
        !seen[i],
    ensures
        unmarked(seen.update(i, true)) == unmarked(seen) - 1,
    decreases seen.len(),
{
    let t = seen.update(i, true);
    if i < seen.len() - 1 {
        assert(t.drop_last() == seen.drop_last().update(i, true));
        mark_counts(seen.drop_last(), i);
    } else {
        assert(t.drop_last() == seen.drop_last());
    }
}

proof fn one_step(adj: Seq<Vec<usize>>, v: int, d: int)
    requires
        needs(adj, v, d),
    ensures
        leads(adj, v, d),
{
    let p = seq![v, d];
    assert(is_chain(adj, p));
    assert(p[0] == v && p[p.len() - 1] == d);
}

proof fn one_step_more(adj: Seq<Vec<usize>>, v: int, u: int, d: int)
    requires
        leads(adj, v, u),
        needs(adj, u, d),
    ensures
        leads(adj, v, d),
{
    let p = choose|p: Seq<int>|
        p.len() >= 2 && p[0] == v && p[p.len() - 1] == u && #[trigger] is_chain(adj, p);
    let q = p.push(d);
    assert forall|k: int, l: int|
        #![trigger q[k], q[l]]
        0 <= k && l == k + 1 && l < q.len() implies needs(adj, q[k], q[l]) by {
        if l < p.len() {
            assert(q[k] == p[k] && q[l] == p[l]);
        } else {
            assert(q[k] == p[p.len() - 1]);
        }
    }
    assert(is_chain(adj, q));
    assert(q[0] == v && q[q.len() - 1] == d);
}

/// Whether what was reached from `v` is all that can be, but for what is still to be followed.
spec fn reached(adj: Seq<Vec<usize>>, v: int, seen: Seq<bool>, todo: Seq<usize>) -> bool {
    &&& seen.len() == adj.len()
    &&& forall|u: int| 0 <= u < adj.len() && #[trigger] seen[u] ==> leads(adj, v, u)
    &&& forall|k: int| 0 <= k < todo.len() ==> (#[trigger] todo[k]) < adj.len() && seen[todo[k] as int]
    &&& forall|u: int, d: int|
        (u == v || (0 <= u < adj.len() && seen[u] && !todo.contains(u as usize))) && 0 <= d < adj.len()
            && #[trigger] needs(adj, u, d) ==> seen[d]
}

/// Marks what a node needs and puts what was not marked before on the list.
fn follow(adj: &Vec<Vec<usize>>, u: usize, seen: &mut Vec<bool>, todo: &mut Vec<usize>)
    requires
        graph_ok(adj@),
        u < adj@.len(),
        old(seen)@.len() == adj@.len(),
    ensures
        final(seen)@.len() == adj@.len(),
        forall|x: int| 0 <= x < adj@.len() ==> (#[trigger] final(seen)@[x] <==> old(seen)@[x] || needs(
            adj@,
            u as int,
            x,
        )),
        old(todo)@.len() <= final(todo)@.len(),
        final(todo)@.take(old(todo)@.len() as int) == old(todo)@,
        forall|k: int|
            old(todo)@.len() <= k < final(todo)@.len() ==> (#[trigger] final(todo)@[k]) < adj@.len()
                && final(seen)@[final(todo)@[k] as int],
        forall|x: int|
            0 <= x < adj@.len() && #[trigger] final(seen)@[x] && !old(seen)@[x]
                ==> final(todo)@.contains(x as usize),
        unmarked(final(seen)@) < unmarked(old(seen)@) || (unmarked(final(seen)@) == unmarked(
            old(seen)@,
        ) && final(todo)@ == old(todo)@),
{
    let ghost s0 = seen@;
    let ghost t0 = todo@;
    let n: usize = adj[u].len();
    let mut e: usize = 0;
    assert(t0.take(t0.len() as int) == t0);
    while e < n
        invariant
            graph_ok(adj@),
            u < adj@.len(),
            n == adj@[u as int]@.len(),
            e <= n,
            s0.len() == adj@.len(),
            seen@.len() == adj@.len(),
            forall|x: int| 0 <= x < adj@.len() && #[trigger] seen@[x] ==> s0[x] || needs(
                adj@,
                u as int,
                x,
            ),
            forall|x: int| 0 <= x < adj@.len() && s0[x] ==> #[trigger] seen@[x],
            forall|k: int| 0 <= k < e ==> seen@[(#[trigger] adj@[u as int]@[k]) as int],
            t0.len() <= todo@.len(),
            todo@.take(t0.len() as int) == t0,
            forall|k: int|
                t0.len() <= k < todo@.len() ==> (#[trigger] todo@[k]) < adj@.len()
                    && seen@[todo@[k] as int],
            forall|x: int|
                0 <= x < adj@.len() && #[trigger] seen@[x] && !s0[x] ==> todo@.contains(x as usize),
            unmarked(seen@) < unmarked(s0) || (unmarked(seen@) == unmarked(s0) && todo@ == t0),
        decreases n - e,
    {
        let d: usize = adj[u][e];
        if !seen[d] {
            let ghost s1 = seen@;
            let ghost t1 = todo@;
            seen.set(d, true);
            todo.push(d);
            proof {
                mark_counts(s1, d as int);
                assert(needs(adj@, u as int, d as int));
                assert(todo@.take(t0.len() as int) == t1.take(t0.len() as int));
                assert forall|x: int|
                    0 <= x < adj@.len() && #[trigger] seen@[x] && !s0[x] implies todo@.contains(
                    x as usize,
                ) by {
                    if x == d {
                        assert(todo@[t1.len() as int] == d);
                    } else {
                        assert(s1[x]);
                        assert(todo@[t1.index_of(x as usize)] == x as usize);
                    }
                }
            }
        }
        e = e + 1;
    }
    assert forall|x: int| 0 <= x < adj@.len() && needs(adj@, u as int, x) implies #[trigger] seen@[x] by {
        let k = choose|k: int| 0 <= k < adj@[u as int]@.len() && #[trigger] adj@[u as int]@[k] == x;
        assert(seen@[adj@[u as int]@[k] as int]);
    }
}

proof fn reached_all(adj: Seq<Vec<usize>>, v: int, seen: Seq<bool>, p: Seq<int>, k: int)
    requires
        graph_ok(adj),
        reached(adj, v, seen, Seq::empty()),
        is_chain(adj, p),
        p[0] == v,
        1 <= k < p.len(),
    ensures
        0 <= p[k] < adj.len(),
        seen[p[k]],
    decreases k,
{
    let (a, b) = (p[k - 1], p[k]);
    assert(needs(adj, a, b));
    let e = choose|e: int| 0 <= e < adj[a]@.len() && #[trigger] adj[a]@[e] == b;
    assert(adj[a]@[e] < adj.len());
    if k > 1 {
        reached_all(adj, v, seen, p, k - 1);
        assert(!Seq::<usize>::empty().contains(a as usize));
    }
}

/// Whether a node lies on a cycle.
fn lies_on_cycle(adj: &Vec<Vec<usize>>, v: usize) -> (r: bool)
    requires
        graph_ok(adj@),
        v < adj@.len(),
    ensures
        r == on_cycle(adj@, v as int),
{
    let n: usize = adj.len();
    let mut seen: Vec<bool> = Vec::new();
    let mut i: usize = 0;
    while i < n
        invariant
            i <= n,
            seen@ == Seq::new(i as nat, |k: int| false),
        decreases n - i,
    {
        seen.push(false);
        i = i + 1;
    }
    let mut todo: Vec<usize> = Vec::new();
    follow(adj, v, &mut seen, &mut todo);
    proof {
        assert forall|u: int| 0 <= u < adj@.len() && #[trigger] seen@[u] implies leads(
            adj@,
            v as int,
            u,
        ) by {
            one_step(adj@, v as int, u);
        }
        assert(reached(adj@, v as int, seen@, todo@));
    }
    while todo.len() > 0
        invariant
            graph_ok(adj@),
            n == adj@.len(),
            v < n,
            reached(adj@, v as int, seen@, todo@),
        decreases unmarked(seen@), todo@.len(),
    {
        let ghost s0 = seen@;
        let ghost t0 = todo@;
        let u: usize = todo[todo.len() - 1];
        assert(t0[t0.len() - 1] == u);
        todo.pop();
        let ghost t1 = todo@;
        assert(t1 == t0.drop_last());
        follow(adj, u, &mut seen, &mut todo);
        proof {
            assert forall|x: int| 0 <= x < adj@.len() && #[trigger] seen@[x] implies leads(
                adj@,
                v as int,
                x,
            ) by {
                if !s0[x] {
                    one_step_more(adj@, v as int, u as int, x);
                }
            }
            assert forall|k: int| 0 <= k < todo@.len() implies (#[trigger] todo@[k]) < adj@.len()
                && seen@[todo@[k] as int] by {
                if k < t1.len() {
                    assert(todo@.take(t1.len() as int)[k] == todo@[k]);
                    assert(t0[k] == todo@[k]);
                }
            }
            assert forall|x: int, d: int|
                (x == v || (0 <= x < adj@.len() && seen@[x] && !todo@.contains(x as usize))) && 0 <= d
                    < adj@.len() && #[trigger] needs(adj@, x, d) implies seen@[d] by {
                if x == u {
                } else if x == v {
                    assert(s0[d]);
                } else {
                    assert(s0[x]);
                    if t0.contains(x as usize) {
                        let k = t0.index_of(x as usize);
                        assert(t1[k] == x as usize);
                        assert(todo@.take(t1.len() as int)[k] == todo@[k]);
                        assert(todo@.contains(x as usize));
                    }
                    assert(s0[d]);
                }
            }
        }
    }
    proof {
        assert(todo@ == Seq::<usize>::empty());
        if on_cycle(adj@, v as int) {
            let p = choose|p: Seq<int>|
                p.len() >= 2 && p[0] == v && p[p.len() - 1] == v && #[trigger] is_chain(adj@, p);
            reached_all(adj@, v as int, seen@, p, p.len() - 1);
        }
    }
    seen[v]
}

/// A cycle passes through a node that a search found.
proof fn search_meets_cycle(
    adj: Seq<Vec<usize>>,
    order: Seq<usize>,
    cyclic: Seq<bool>,
    p: Seq<int>,
    k: int,
)
    requires
        graph_ok(adj),
        adj.len() <= usize::MAX,
        searched(adj, order, cyclic),
        is_chain(adj, p),
        0 <= p[0] < adj.len(),
        forall|v: int| 0 <= v < adj.len() ==> !#[trigger] cyclic[v],
        1 <= k < p.len(),
    ensures
        0 <= p[k] < adj.len(),
        order.contains(p[0] as usize),
        order.contains(p[k] as usize),
        order.index_of(p[k] as usize) < order.index_of(p[0] as usize),
    decreases k,
{
    let (a, b) = (p[k - 1], p[k]);
    if k > 1 {
        search_meets_cycle(adj, order, cyclic, p, k - 1);
    }
    assert(!cyclic[p[0]]);
    assert(order.contains(p[0] as usize));
    assert(needs(adj, a, b));
    let e = choose|e: int| 0 <= e < adj[a]@.len() && #[trigger] adj[a]@[e] == b;
    assert(adj[a]@[e] < adj.len());
    let i = order.index_of(a as usize);
    assert(order[i] == a as usize);
    assert(needs(adj, order[i] as int, b));
    assert(order.take(i).contains(b as usize));
    let j = order.take(i).index_of(b as usize);
    assert(order[j] == b as usize);
    assert(order.index_of(b as usize) == j);
}

/// Orders the nodes of a graph. What a first search finds decides whether there are cycles at all;
/// where there are, every node is asked whether it lies on one.
pub fn order_nodes(adj: &Vec<Vec<usize>>) -> (r: (Vec<usize>, Vec<bool>))
    requires
        graph_ok(adj@),
    ensures
        ordered(adj@, r.0@, r.1@),
{
    let (order, found) = search_nodes(adj);
    let n: usize = adj.len();
    let mut any: bool = false;
    let mut i: usize = 0;
    while i < n
        invariant
            i <= n,
            n == adj@.len(),
            found@.len() == n,
            !any ==> forall|v: int| 0 <= v < i ==> !#[trigger] found@[v],
        decreases n - i,
    {
        if found[i] {
            any = true;
        }
        i = i + 1;
    }
    if !any {
        proof {
            assert forall|v: int| 0 <= v < adj@.len() && on_cycle(adj@, v) implies #[trigger] found@[v] by {
                let p = choose|p: Seq<int>|
                    p.len() >= 2 && p[0] == v && p[p.len() - 1] == v && #[trigger] is_chain(adj@, p);
                search_meets_cycle(adj@, order@, found@, p, p.len() - 1);
            }
        }
        return (order, found);
    }
    let mut cyclic: Vec<bool> = Vec::new();
    let mut v: usize = 0;
    while v < n
        invariant
            v <= n,
            n == adj@.len(),
            graph_ok(adj@),
            cyclic@.len() == v,
            forall|u: int| 0 <= u < v ==> (#[trigger] cyclic@[u] <==> on_cycle(adj@, u)),
        decreases n - v,
    {
        cyclic.push(lies_on_cycle(adj, v));
        v = v + 1;
    }
    let mut kept: Vec<usize> = Vec::new();
    let mut k: usize = 0;
    while k < order.len()
        invariant
            k <= order.len(),
            n == adj@.len(),
            searched(adj@, order@, found@),
            cyclic@.len() == n,
            forall|u: int| 0 <= u < n ==> (#[trigger] cyclic@[u] <==> on_cycle(adj@, u)),
            kept@.no_duplicates(),
            forall|p: int| 0 <= p < kept@.len() ==> (#[trigger] kept@[p]) < n,
            forall|u: usize| #[trigger]
                kept@.contains(u) <==> order@.take(k as int).contains(u) && !cyclic@[u as int],
            forall|p: int, d: int|
                0 <= p < kept@.len() && 0 <= d < n && #[trigger] needs(adj@, kept@[p] as int, d)
                    ==> cyclic@[d] || kept@.take(p).contains(d as usize),
        decreases order.len() - k,
    {
        let x: usize = order[k];
        let ghost head = order@.take(k as int);
        let ghost k0 = kept@;
        assert(order@.take(k + 1) == head.push(x));
        if !cyclic[x] {
            kept.push(x);
            proof {
                if k0.contains(x) {
                    let j = head.index_of(x);
                    assert(order@[j] == x && order@[k as int] == x);
                }
                assert forall|p: int, d: int|
                    0 <= p < kept@.len() && 0 <= d < n && #[trigger] needs(
                        adj@,
                        kept@[p] as int,
                        d,
                    ) implies cyclic@[d] || kept@.take(p).contains(d as usize) by {
                    if p < k0.len() {
                        assert(kept@.take(p) == k0.take(p));
                        assert(needs(adj@, k0[p] as int, d));
                    } else {
                        assert(needs(adj@, order@[k as int] as int, d));
                        assert(kept@.take(p) == k0);
                        if found@[d] {
                            assert(on_cycle(adj@, d));
                        }
                    }
                }
            }
        }
        proof {
            assert forall|u: usize| #[trigger]
                kept@.contains(u) <==> order@.take(k + 1).contains(u) && !cyclic@[u as int] by {
                pushed(head, x, u);
                if !cyclic@[x as int] {
                    pushed(k0, x, u);
                }
                assert(k0.contains(u) <==> head.contains(u) && !cyclic@[u as int]);
            }
        }
        k = k + 1;
    }
    proof {
        assert(order@.take(k as int) == order@);
        assert forall|u: int| 0 <= u < n implies (#[trigger] cyclic@[u] <==> !kept@.contains(u as usize)) by {
            if found@[u] {
                assert(on_cycle(adj@, u));
            }
        }
    }
    (kept, cyclic)
}

proof fn pushed(s: Seq<usize>, x: usize, u: usize)
    ensures
        s.push(x).contains(u) <==> s.contains(u) || u == x,
{
    if s.contains(u) {
        assert(s.push(x)[s.index_of(u)] == u);
    }
    if u == x {
        assert(s.push(x)[s.len() as int] == u);
    }
}

} // verus!
