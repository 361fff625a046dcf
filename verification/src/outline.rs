//! Outlines: nested groups of rows or columns. A group holds its details and one summary, which
//! stands behind them or in front of them.
use crate::snapshot::OutlineGroupSnapshot;
use crate::sorting::{places, stable_order, stable_order_sorts, stable_sort};
use std::collections::HashMap;
use vstd::prelude::*;
use vstd::std_specs::hash::*;

verus! {

/// Where the details of a group start.
pub open spec fn detail_start(g: OutlineGroupSnapshot, after: bool) -> int {
    if after {
        g.start as int
    } else {
        g.start + 1
    }
}

/// Where the details of a group end.
pub open spec fn detail_end(g: OutlineGroupSnapshot, after: bool) -> int {
    if after {
        g.start + g.count - 1
    } else {
        g.start + g.count
    }
}

/// Whether an index is one of a group's details.
pub open spec fn in_detail(g: OutlineGroupSnapshot, i: int, after: bool) -> bool {
    detail_start(g, after) <= i < detail_end(g, after)
}

/// How many groups an index is a detail of.
pub open spec fn level(groups: Seq<OutlineGroupSnapshot>, i: int, after: bool) -> nat
    decreases groups.len(),
{
    if groups.len() == 0 {
        0
    } else {
        level(groups.drop_last(), i, after) + (if in_detail(groups.last(), i, after) {
            1nat
        } else {
            0
        })
    }
}

/// Whether an index is a detail of a collapsed group.
pub open spec fn is_hidden(groups: Seq<OutlineGroupSnapshot>, i: int, after: bool) -> bool {
    exists|k: int|
        0 <= k < groups.len() && (#[trigger] groups[k]).collapsed && in_detail(groups[k], i, after)
}

/// Whether an index is the summary of a group.
pub open spec fn is_summary(g: OutlineGroupSnapshot, i: int, after: bool) -> bool {
    g.count > 0 && i == (if after {
        g.start + g.count - 1
    } else {
        g.start as int
    })
}

/// Whether an index is the summary of a collapsed group.
pub open spec fn is_boundary(groups: Seq<OutlineGroupSnapshot>, i: int, after: bool) -> bool {
    exists|k: int|
        0 <= k < groups.len() && (#[trigger] groups[k]).collapsed && is_summary(groups[k], i, after)
}

/// The groups of rows or of columns.
#[derive(Debug, Clone, PartialEq)]
pub struct OutlineAxis {
    pub groups: Vec<OutlineGroupSnapshot>,
}

impl OutlineAxis {
    pub open spec fn view(&self) -> Seq<OutlineGroupSnapshot> {
        self.groups@
    }

    /// No groups.
    pub fn new() -> (r: OutlineAxis)
        ensures
            r@ == Seq::<OutlineGroupSnapshot>::empty(),
    {
        OutlineAxis { groups: Vec::new() }
    }

    /// Puts `count` rows or columns from `start` on into a group.
    pub fn group(&mut self, start: u32, count: u32)
        ensures
            final(self)@ == old(self)@.push(OutlineGroupSnapshot { start, count, collapsed: false }),
    {
        self.groups.push(OutlineGroupSnapshot { start, count, collapsed: false });
    }

    /// Collapses or expands the group that starts at `start`; of several the latest.
    pub fn set_collapsed(&mut self, start: u32, collapsed: bool)
        ensures
            final(self)@ == with_collapsed(old(self)@, start, collapsed),
    {
        let ghost g0 = self.groups@;
        let mut i: usize = self.groups.len();
        assert(g0.take(i as int) == g0);
        assert(with_collapsed(g0, start, collapsed) + g0.skip(i as int) == with_collapsed(
            g0,
            start,
            collapsed,
        ));
        while i > 0
            invariant
                i <= g0.len(),
                self.groups@ == g0,
                g0 == old(self)@,
                with_collapsed(g0, start, collapsed) == with_collapsed(g0.take(i as int), start, collapsed)
                    + g0.skip(i as int),
            decreases i,
        {
            i = i - 1;
            let ghost p = g0.take(i + 1);
            assert(p.drop_last() == g0.take(i as int));
            if self.groups[i].start == start {
                let g = OutlineGroupSnapshot {
                    start: self.groups[i].start,
                    count: self.groups[i].count,
                    collapsed,
                };
                self.groups.set(i, g);
                assert(p.drop_last().push(g) + g0.skip(i + 1) == self.groups@);
                return ;
            }
            assert(with_collapsed(p.drop_last(), start, collapsed).push(p.last()) + g0.skip(i + 1)
                == with_collapsed(g0.take(i as int), start, collapsed) + g0.skip(i as int));
        }
        assert(self.groups@ == Seq::<OutlineGroupSnapshot>::empty() + g0.skip(0));
    }

    /// The groups.
    pub fn list(&self) -> (r: &Vec<OutlineGroupSnapshot>)
        ensures
            r@ == self@,
    {
        &self.groups
    }

    /// How many groups an index is a detail of.
    pub fn detail_level_at(&self, i: u32, after: bool) -> (r: usize)
        ensures
            r == level(self@, i as int, after),
    {
        let mut n: usize = 0;
        let mut k: usize = 0;
        while k < self.groups.len()
            invariant
                k <= self.groups.len(),
                n <= k,
                n == level(self@.take(k as int), i as int, after),
            decreases self.groups.len() - k,
        {
            assert(self@.take(k + 1).drop_last() == self@.take(k as int));
            if detail(&self.groups[k], i, after) {
                n = n + 1;
            }
            k = k + 1;
        }
        assert(self@.take(k as int) == self@);
        n
    }

    /// Whether an index is the summary of a collapsed group.
    pub fn is_collapse_boundary(&self, i: u32, after: bool) -> (r: bool)
        ensures
            r == is_boundary(self@, i as int, after),
    {
        let mut k: usize = 0;
        while k < self.groups.len()
            invariant
                k <= self.groups.len(),
                forall|j: int|
                    0 <= j < k ==> !((#[trigger] self@[j]).collapsed && is_summary(
                        self@[j],
                        i as int,
                        after,
                    )),
            decreases self.groups.len() - k,
        {
            let g = self.groups[k];
            if g.collapsed && g.count > 0 {
                let at: u64 = if after {
                    g.start as u64 + g.count as u64 - 1
                } else {
                    g.start as u64
                };
                if at == i as u64 {
                    assert(self@[k as int].collapsed && is_summary(self@[k as int], i as int, after));
                    return true;
                }
            }
            k = k + 1;
        }
        false
    }

    /// The details of collapsed groups.
    pub fn hidden_indices(&self, after: bool) -> (r: Vec<u32>)
        ensures
            forall|x: u32| #[trigger] r@.contains(x) <==> is_hidden(self@, x as int, after),
    {
        let mut out: Vec<u32> = Vec::new();
        let mut k: usize = 0;
        while k < self.groups.len()
            invariant
                k <= self.groups.len(),
                forall|x: u32| #[trigger]
                    out@.contains(x) <==> is_hidden(self@.take(k as int), x as int, after),
            decreases self.groups.len() - k,
        {
            let g = self.groups[k];
            let ghost before = out@;
            let ghost head = self@.take(k as int);
            let ghost next = self@.take(k + 1);
            assert(next == head.push(g));
            if g.collapsed {
                let from: u64 = if after {
                    g.start as u64
                } else {
                    g.start as u64 + 1
                };
                let to: u64 = if after {
                    if g.count == 0 {
                        from
                    } else {
                        g.start as u64 + g.count as u64 - 1
                    }
                } else {
                    g.start as u64 + g.count as u64
                };
                let mut i: u64 = from;
                while i < to && i <= 0xffff_ffff
                    invariant
                        from <= i,
                        i <= 0x1_0000_0000,
                        from < to ==> i <= to,
                        i > to ==> i == from,
                        forall|x: u32| #[trigger]
                            out@.contains(x) <==> before.contains(x) || from <= x < i,
                    decreases 0x1_0000_0000 - i,
                {
                    let ghost b = out@;
                    let v: u32 = i as u32;
                    out.push(v);
                    assert forall|x: u32| #[trigger] out@.contains(x) <==> before.contains(x) || from
                        <= x < i + 1 by {
                        if b.contains(x) {
                            let j = choose|j: int| 0 <= j < b.len() && b[j] == x;
                            assert(out@[j] == x);
                        }
                        assert(out@[b.len() as int] == v);
                        if out@.contains(x) {
                            let j = choose|j: int| 0 <= j < out@.len() && out@[j] == x;
                            if j < b.len() {
                                assert(b[j] == x);
                            }
                        }
                    }
                    i = i + 1;
                }
                assert forall|x: u32| #[trigger] out@.contains(x) <==> before.contains(x) || in_detail(
                    g,
                    x as int,
                    after,
                ) by {}
            }
            assert forall|x: u32| #[trigger] out@.contains(x) <==> is_hidden(next, x as int, after) by {
                if is_hidden(head, x as int, after) {
                    let j = choose|j: int|
                        0 <= j < head.len() && (#[trigger] head[j]).collapsed && in_detail(
                            head[j],
                            x as int,
                            after,
                        );
                    assert(next[j] == head[j]);
                }
                if is_hidden(next, x as int, after) {
                    let j = choose|j: int|
                        0 <= j < next.len() && (#[trigger] next[j]).collapsed && in_detail(
                            next[j],
                            x as int,
                            after,
                        );
                    if j < head.len() {
                        assert(head[j] == next[j]);
                    }
                }
                if g.collapsed && in_detail(g, x as int, after) {
                    assert(next[head.len() as int] == g);
                }
            }
            k = k + 1;
        }
        assert(self@.take(k as int) == self@);
        out
    }
}

/// Groups with the latest one that starts at `start` collapsed or expanded.
pub open spec fn with_collapsed(
    groups: Seq<OutlineGroupSnapshot>,
    start: u32,
    collapsed: bool,
) -> Seq<OutlineGroupSnapshot>
    decreases groups.len(),
{
    if groups.len() == 0 {
        groups
    } else if groups.last().start == start {
        groups.drop_last().push(OutlineGroupSnapshot { collapsed, ..groups.last() })
    } else {
        with_collapsed(groups.drop_last(), start, collapsed).push(groups.last())
    }
}

fn detail(g: &OutlineGroupSnapshot, i: u32, after: bool) -> (r: bool)
    ensures
        r == in_detail(*g, i as int, after),
{
    if after {
        g.start <= i && (i as u64) + 1 < g.start as u64 + g.count as u64
    } else {
        g.start < i && (i as u64) < g.start as u64 + g.count as u64
    }
}

/// Groups taken up one by one, with their states: the same groups.
pub fn rebuild_outline(groups: &Vec<OutlineGroupSnapshot>) -> (r: OutlineAxis)
    ensures
        r@ == groups@,
{
    let mut axis = OutlineAxis::new();
    let mut k: usize = 0;
    while k < groups.len()
        invariant
            k <= groups.len(),
            axis@ == groups@.take(k as int),
        decreases groups.len() - k,
    {
        let g = groups[k];
        axis.group(g.start, g.count);
        if g.collapsed {
            axis.set_collapsed(g.start, true);
        }
        assert(axis@.drop_last() == groups@.take(k as int));
        assert(axis@ == groups@.take(k + 1));
        k = k + 1;
    }
    assert(groups@.take(k as int) == groups@);
    axis
}

// ---- groups from levels

/// The level that a list gives an index: that of its last entry, 0 without one.
pub open spec fn listed_level(levels: Seq<(u32, u32)>, i: int) -> nat
    decreases levels.len(),
{
    if levels.len() == 0 {
        0
    } else if levels.last().0 == i {
        levels.last().1 as nat
    } else {
        listed_level(levels.drop_last(), i)
    }
}

/// The highest level in a list.
pub open spec fn top_level(levels: Seq<(u32, u32)>) -> nat
    decreases levels.len(),
{
    if levels.len() == 0 {
        0
    } else {
        let t = top_level(levels.drop_last());
        if levels.last().1 > t {
            levels.last().1 as nat
        } else {
            t
        }
    }
}

/// The highest index in a list.
pub open spec fn top_index(levels: Seq<(u32, u32)>) -> nat
    decreases levels.len(),
{
    if levels.len() == 0 {
        0
    } else {
        let t = top_index(levels.drop_last());
        if levels.last().0 > t {
            levels.last().0 as nat
        } else {
            t
        }
    }
}

/// The group whose details are the indices from `s` to `e`.
pub open spec fn group_of(s: int, e: int, collapsed: Seq<u32>, after: bool) -> OutlineGroupSnapshot {
    let start = if after {
        s
    } else {
        s - 1
    };
    OutlineGroupSnapshot {
        start: start as u32,
        count: (e - s + 1) as u32,
        collapsed: exists|x: u32| start <= x < start + (e - s + 1) && #[trigger] collapsed.contains(x),
    }
}

/// The groups of one level: each run of indices of at least that level is the details of one.
/// `open` is the start of the run that `i` continues, if it does.
pub open spec fn level_groups(
    levels: Seq<(u32, u32)>,
    lvl: nat,
    i: int,
    open_at: Option<int>,
    collapsed: Seq<u32>,
    after: bool,
) -> Seq<OutlineGroupSnapshot>
    decreases top_index(levels) + 2 - i,
{
    if i > top_index(levels) + 1 {
        Seq::empty()
    } else {
        let here = listed_level(levels, i) >= lvl;
        match open_at {
            None => level_groups(
                levels,
                lvl,
                i + 1,
                if here {
                    Some(i)
                } else {
                    None
                },
                collapsed,
                after,
            ),
            Some(s) => if here {
                level_groups(levels, lvl, i + 1, open_at, collapsed, after)
            } else {
                seq![group_of(s, i, collapsed, after)] + level_groups(
                    levels,
                    lvl,
                    i + 1,
                    None,
                    collapsed,
                    after,
                )
            },
        }
    }
}

/// The groups of the levels up to `lvl`.
pub open spec fn groups_to(
    levels: Seq<(u32, u32)>,
    lvl: nat,
    collapsed: Seq<u32>,
    after: bool,
) -> Seq<OutlineGroupSnapshot>
    decreases lvl,
{
    if lvl == 0 {
        Seq::empty()
    } else {
        groups_to(levels, (lvl - 1) as nat, collapsed, after) + level_groups(
            levels,
            lvl,
            0,
            None,
            collapsed,
            after,
        )
    }
}

/// What groups are ordered by: their start, then their count.
pub open spec fn group_keys(groups: Seq<OutlineGroupSnapshot>) -> Seq<u64> {
    Seq::new(groups.len(), |i: int| (groups[i].start * 0x1_0000_0000 + groups[i].count) as u64)
}

/// Groups by their start, then by their count.
pub open spec fn ordered_groups(groups: Seq<OutlineGroupSnapshot>) -> Seq<OutlineGroupSnapshot> {
    let o = stable_order(group_keys(groups), groups.len());
    Seq::new(o.len(), |i: int| groups[o[i]])
}

/// The groups that levels stand for.
pub open spec fn groups_of_levels(
    levels: Seq<(u32, u32)>,
    collapsed: Seq<u32>,
    after: bool,
) -> Seq<OutlineGroupSnapshot> {
    ordered_groups(groups_to(levels, top_level(levels), collapsed, after))
}

/// Whether the groups that levels stand for have indices: a summary in front of index 0 has
/// none, nor has one behind the last index, nor the end of a group that the last index is in.
pub open spec fn levels_fit(levels: Seq<(u32, u32)>, after: bool) -> bool {
    top_level(levels) > 0 ==> {
        let last = top_index(levels);
        &&& last < u32::MAX
        &&& after ==> last < u32::MAX - 1 || listed_level(levels, last as int) == 0
        &&& !after ==> listed_level(levels, 0) == 0
    }
}

proof fn top_index_bounds(levels: Seq<(u32, u32)>, i: int)
    ensures
        i > top_index(levels) ==> listed_level(levels, i) == 0,
    decreases levels.len(),
{
    if levels.len() > 0 {
        top_index_bounds(levels.drop_last(), i);
    }
}

fn any_between(set: &Vec<u32>, from: u32, to: u64) -> (r: bool)
    ensures
        r == exists|x: u32| from <= x < to && #[trigger] set@.contains(x),
{
    let mut k: usize = 0;
    while k < set.len()
        invariant
            k <= set.len(),
            forall|j: int| 0 <= j < k ==> !(from <= #[trigger] set@[j] < to),
        decreases set.len() - k,
    {
        if from <= set[k] && (set[k] as u64) < to {
            assert(set@.contains(set@[k as int]));
            return true;
        }
        k = k + 1;
    }
    assert forall|x: u32| #[trigger] set@.contains(x) implies !(from <= x < to) by {
        let j = choose|j: int| 0 <= j < set@.len() && set@[j] == x;
        assert(!(from <= set@[j] < to));
    }
    false
}

/// The groups that the levels of rows or columns stand for: at each level, every run of indices
/// of at least that level is the details of a group, which is collapsed where `collapsed` holds
/// an index of it.
pub fn levels_to_groups(levels: &Vec<(u32, u32)>, collapsed: &Vec<u32>, summary_after: bool) -> (r:
    Vec<OutlineGroupSnapshot>)
    requires
        levels_fit(levels@, summary_after),
    ensures
        r@ == groups_of_levels(levels@, collapsed@, summary_after),
{
    broadcast use group_hash_axioms;

    let mut level_of: HashMap<u32, u32> = HashMap::new();
    let mut max_level: u32 = 0;
    let mut max_idx: u32 = 0;
    let mut k: usize = 0;
    while k < levels.len()
        invariant
            k <= levels.len(),
            max_level == top_level(levels@.take(k as int)),
            max_idx == top_index(levels@.take(k as int)),
            forall|i: u32|
                listed_level(levels@.take(k as int), i as int) == (if #[trigger] level_of@.contains_key(i) {
                    level_of@[i] as nat
                } else {
                    0
                }),
        decreases levels.len() - k,
    {
        let (i, l) = levels[k];
        assert(levels@.take(k + 1).drop_last() == levels@.take(k as int));
        level_of.insert(i, l);
        if l > max_level {
            max_level = l;
        }
        if i > max_idx {
            max_idx = i;
        }
        k = k + 1;
    }
    assert(levels@.take(k as int) == levels@);
    let mut found: Vec<OutlineGroupSnapshot> = Vec::new();
    let mut lvl: u32 = 0;
    while lvl < max_level
        invariant
            lvl <= max_level,
            max_level == top_level(levels@),
            levels_fit(levels@, summary_after),
            max_idx == top_index(levels@),
            forall|i: u32|
                listed_level(levels@, i as int) == (if #[trigger] level_of@.contains_key(i) {
                    level_of@[i] as nat
                } else {
                    0
                }),
            found@ == groups_to(levels@, lvl as nat, collapsed@, summary_after),
        decreases max_level - lvl,
    {
        lvl = lvl + 1;
        let ghost before = found@;
        let ghost all = level_groups(levels@, lvl as nat, 0, None, collapsed@, summary_after);
        let mut start: Option<u32> = None;
        let mut at: u64 = 0;
        assert(found@ == before + Seq::<OutlineGroupSnapshot>::empty());
        assert(before + all == found@ + all);
        while at <= max_idx as u64 + 1
            invariant
                max_idx == top_index(levels@),
                max_idx < u32::MAX,
                at <= max_idx + 2,
                top_level(levels@) > 0,
                lvl > 0,
                levels_fit(levels@, summary_after),
                start matches Some(s) ==> s < at && listed_level(levels@, s as int) >= lvl && listed_level(
                    levels@,
                    at - 1,
                ) >= lvl,
                at == max_idx + 2 ==> start is None,
                forall|j: u32|
                    listed_level(levels@, j as int) == (if #[trigger] level_of@.contains_key(j) {
                        level_of@[j] as nat
                    } else {
                        0
                    }),
                before + all == found@ + level_groups(
                    levels@,
                    lvl as nat,
                    at as int,
                    match start {
                        Some(s) => Some(s as int),
                        None => None,
                    },
                    collapsed@,
                    summary_after,
                ),
            decreases max_idx + 2 - at,
        {
            let i: u32 = at as u32;
            let l: u32 = match level_of.get(&i) {
                Some(l) => *l,
                None => 0,
            };
            assert(l == listed_level(levels@, i as int)) by {
                assert(level_of@.contains_key(i) || !level_of@.contains_key(i));
            }
            proof {
                top_index_bounds(levels@, i as int);
            }
            let here = l >= lvl;
            match start {
                None => {
                    if here {
                        start = Some(i);
                    }
                },
                Some(s) => {
                    if !here {
                        let g_start: u32 = if summary_after {
                            s
                        } else {
                            assert(s != 0);
                            s - 1
                        };
                        let g_count: u32 = i - s + 1;
                        let c = any_between(collapsed, g_start, g_start as u64 + g_count as u64);
                        let ghost f0 = found@;
                        let g = OutlineGroupSnapshot { start: g_start, count: g_count, collapsed: c };
                        found.push(g);
                        assert(g == group_of(s as int, i as int, collapsed@, summary_after));
                        let ghost rest = level_groups(
                            levels@,
                            lvl as nat,
                            i + 1,
                            None,
                            collapsed@,
                            summary_after,
                        );
                        assert(f0 + (seq![g] + rest) == found@ + rest);
                        start = None;
                    }
                },
            }
            at = at + 1;
        }
        assert(level_groups(levels@, lvl as nat, at as int, None, collapsed@, summary_after)
            == Seq::<OutlineGroupSnapshot>::empty());
        assert(before + all == found@);
    }
    let mut keys: Vec<u64> = Vec::new();
    let mut j: usize = 0;
    while j < found.len()
        invariant
            j <= found.len(),
            keys@ == group_keys(found@).take(j as int),
        decreases found.len() - j,
    {
        let key: u64 = found[j].start as u64 * 0x1_0000_0000 + found[j].count as u64;
        keys.push(key);
        assert(group_keys(found@).take(j + 1) == group_keys(found@).take(j as int).push(key));
        j = j + 1;
    }
    assert(keys@ == group_keys(found@));
    let order: Vec<usize> = stable_sort(&keys);
    proof {
        stable_order_sorts(keys@, keys@.len());
    }
    let mut out: Vec<OutlineGroupSnapshot> = Vec::new();
    let ghost o = stable_order(keys@, keys@.len());
    let mut n: usize = 0;
    while n < order.len()
        invariant
            n <= order.len(),
            places(order@) == o,
            o.len() == found@.len(),
            forall|q: int| 0 <= q < o.len() ==> 0 <= #[trigger] o[q] < found@.len(),
            out@.len() == n,
            forall|q: int| 0 <= q < n ==> out@[q] == found@[#[trigger] o[q]],
        decreases order.len() - n,
    {
        assert(o[n as int] == order@[n as int]);
        out.push(found[order[n]]);
        n = n + 1;
    }
    assert(out@ == ordered_groups(found@));
    out
}

} // verus!
