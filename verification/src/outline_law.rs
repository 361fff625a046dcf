//! Groups that stand in one another, or apart, are told from the levels of their details.
use crate::outline::{
    detail_end, detail_start, group_keys, group_of, groups_of_levels, groups_to, in_detail,
    is_boundary, is_summary, level, level_groups, listed_level, ordered_groups, top_index,
    top_level,
};
use crate::column_law::cols_back;
use crate::round_trip::sheet_back;
use crate::row_law::{level_bound, row_added, row_back, rows_back};
use crate::snapshot::{CellSnapshot, NamedStyle, OutlineGroupSnapshot, SheetSnapshot};
use crate::sorting::{picked_has, stable_order, stable_order_holds, stable_order_sorts, u32_count};
use crate::style::StyleView;
use crate::xlsx::{
    below, col_listed, listed_cols, listed_rows, right, row_listed, sorted_cells, Shared,
};
use crate::xlsx_read::RowsRead;
use vstd::prelude::*;

verus! {

/// Whether a group, its summary included, is among the details of another.
pub open spec fn stands_in(
    inner: OutlineGroupSnapshot,
    outer: OutlineGroupSnapshot,
    after: bool,
) -> bool {
    detail_start(outer, after) <= inner.start && inner.start + inner.count <= detail_end(outer, after)
}

/// Whether two groups share no index.
pub open spec fn apart(a: OutlineGroupSnapshot, b: OutlineGroupSnapshot) -> bool {
    a.start + a.count <= b.start || b.start + b.count <= a.start
}

/// Whether groups have details and stand apart or in one another.
pub open spec fn nested(groups: Seq<OutlineGroupSnapshot>, after: bool) -> bool {
    &&& forall|k: int|
        0 <= k < groups.len() ==> (#[trigger] groups[k]).count >= 2 && groups[k].start
            + groups[k].count <= u32::MAX + 1
    &&& forall|j: int, k: int|
        0 <= j < groups.len() && 0 <= k < groups.len() && j != k ==> apart(
            #[trigger] groups[j],
            #[trigger] groups[k],
        ) || stands_in(groups[j], groups[k], after) || stands_in(groups[k], groups[j], after)
}

/// The index of a group's summary.
pub open spec fn summary(g: OutlineGroupSnapshot, after: bool) -> int {
    if after {
        g.start + g.count - 1
    } else {
        g.start as int
    }
}

// ---- levels

/// Where every group that holds `x` holds `y`, `y` is as deep as `x`.
proof fn level_le(groups: Seq<OutlineGroupSnapshot>, x: int, y: int, after: bool)
    requires
        forall|j: int|
            0 <= j < groups.len() && in_detail(#[trigger] groups[j], x, after) ==> in_detail(
                groups[j],
                y,
                after,
            ),
    ensures
        level(groups, x, after) <= level(groups, y, after),
    decreases groups.len(),
{
    if groups.len() > 0 {
        let p = groups.drop_last();
        assert forall|j: int| 0 <= j < p.len() && in_detail(#[trigger] p[j], x, after) implies in_detail(
            p[j],
            y,
            after,
        ) by {
            assert(p[j] == groups[j]);
        }
        level_le(p, x, y, after);
        assert(groups.last() == groups[groups.len() - 1]);
    }
}

/// Where a group more holds `y`, it is deeper.
proof fn level_lt(groups: Seq<OutlineGroupSnapshot>, x: int, y: int, k: int, after: bool)
    requires
        0 <= k < groups.len(),
        !in_detail(groups[k], x, after),
        in_detail(groups[k], y, after),
        forall|j: int|
            0 <= j < groups.len() && in_detail(#[trigger] groups[j], x, after) ==> in_detail(
                groups[j],
                y,
                after,
            ),
    ensures
        level(groups, x, after) < level(groups, y, after),
    decreases groups.len(),
{
    let p = groups.drop_last();
    assert forall|j: int| 0 <= j < p.len() && in_detail(#[trigger] p[j], x, after) implies in_detail(
        p[j],
        y,
        after,
    ) by {
        assert(p[j] == groups[j]);
    }
    assert(groups.last() == groups[groups.len() - 1]);
    if k == groups.len() - 1 {
        level_le(p, x, y, after);
    } else {
        assert(p[k] == groups[k]);
        level_lt(p, x, y, k, after);
    }
}

/// Where every group but one that holds `x` holds `y`, `x` is at most one deeper.
proof fn level_near(groups: Seq<OutlineGroupSnapshot>, x: int, y: int, k: int, after: bool)
    requires
        0 <= k < groups.len(),
        forall|j: int|
            0 <= j < groups.len() && j != k && in_detail(#[trigger] groups[j], x, after) ==> in_detail(
                groups[j],
                y,
                after,
            ),
    ensures
        level(groups, x, after) <= level(groups, y, after) + 1,
    decreases groups.len(),
{
    let p = groups.drop_last();
    assert forall|j: int|
        0 <= j < p.len() && j != k && in_detail(#[trigger] p[j], x, after) implies in_detail(
        p[j],
        y,
        after,
    ) by {
        assert(p[j] == groups[j]);
    }
    assert(groups.last() == groups[groups.len() - 1]);
    if k == groups.len() - 1 {
        level_le(p, x, y, after);
    } else {
        level_near(p, x, y, k, after);
    }
}

/// An index of some depth is a detail of a group, the smallest of those of which it is one.
proof fn smallest(groups: Seq<OutlineGroupSnapshot>, i: int, after: bool) -> (k: int)
    requires
        level(groups, i, after) > 0,
    ensures
        0 <= k < groups.len(),
        in_detail(groups[k], i, after),
        forall|j: int|
            0 <= j < groups.len() && in_detail(#[trigger] groups[j], i, after) ==> groups[k].count
                <= groups[j].count,
    decreases groups.len(),
{
    let p = groups.drop_last();
    let n = groups.len() - 1;
    assert(groups.last() == groups[n]);
    assert(forall|j: int| 0 <= j < p.len() ==> p[j] == groups[j]);
    if level(p, i, after) == 0 {
        assert forall|j: int| 0 <= j < p.len() implies !in_detail(#[trigger] groups[j], i, after) by {
            if in_detail(p[j], i, after) {
                none_at_zero(p, i, j, after);
            }
        }
        n
    } else {
        let k = smallest(p, i, after);
        if in_detail(groups[n], i, after) && groups[n].count < groups[k].count {
            assert forall|j: int|
                0 <= j < groups.len() && in_detail(#[trigger] groups[j], i, after) implies groups[n].count
                <= groups[j].count by {
                if j < n {
                    assert(p[j] == groups[j]);
                }
            }
            n
        } else {
            assert forall|j: int|
                0 <= j < groups.len() && in_detail(#[trigger] groups[j], i, after) implies groups[k].count
                <= groups[j].count by {
                if j < n {
                    assert(p[j] == groups[j]);
                }
            }
            k
        }
    }
}

proof fn none_at_zero(groups: Seq<OutlineGroupSnapshot>, i: int, j: int, after: bool)
    requires
        0 <= j < groups.len(),
        in_detail(groups[j], i, after),
    ensures
        level(groups, i, after) > 0,
    decreases groups.len(),
{
    if j < groups.len() - 1 {
        assert(groups.drop_last()[j] == groups[j]);
        none_at_zero(groups.drop_last(), i, j, after);
    }
}

// ---- a group and its depth

/// A group whose details hold another's summary or the index on its other side holds all of it.
proof fn holder(groups: Seq<OutlineGroupSnapshot>, j: int, k: int, x: int, after: bool)
    requires
        nested(groups, after),
        0 <= j < groups.len(),
        0 <= k < groups.len(),
        in_detail(groups[j], x, after),
        x == summary(groups[k], after) || (if after {
            x == groups[k].start - 1
        } else {
            x == groups[k].start + groups[k].count
        }),
    ensures
        j != k,
        stands_in(groups[k], groups[j], after),
{
    let (a, b) = (groups[j], groups[k]);
    assert(b.count >= 2 && a.count >= 2);
    assert(j != k);
    assert(apart(a, b) || stands_in(a, b, after) || stands_in(b, a, after));
}

/// The details of a group are a run of its depth.
proof fn details_run(groups: Seq<OutlineGroupSnapshot>, k: int, after: bool)
    requires
        nested(groups, after),
        0 <= k < groups.len(),
    ensures
        ({
            let d = level(groups, summary(groups[k], after), after) + 1;
            let (s, e) = (detail_start(groups[k], after), detail_end(groups[k], after));
            &&& s < e
            &&& level(groups, e, after) < d
            &&& level(groups, s - 1, after) < d
            &&& forall|x: int| s <= x < e ==> #[trigger] level(groups, x, after) >= d
        }),
{
    let g = groups[k];
    let m = summary(g, after);
    let (s, e) = (detail_start(g, after), detail_end(g, after));
    assert(g.count >= 2);
    let q: int = if after {
        g.start - 1
    } else {
        g.start + g.count
    };
    assert forall|j: int|
        0 <= j < groups.len() && in_detail(#[trigger] groups[j], q, after) implies in_detail(
        groups[j],
        m,
        after,
    ) by {
        holder(groups, j, k, q, after);
    }
    level_le(groups, q, m, after);
    assert forall|x: int| s <= x < e implies #[trigger] level(groups, x, after) > level(
        groups,
        m,
        after,
    ) by {
        assert forall|j: int|
            0 <= j < groups.len() && in_detail(#[trigger] groups[j], m, after) implies in_detail(
            groups[j],
            x,
            after,
        ) by {
            holder(groups, j, k, m, after);
        }
        level_lt(groups, m, x, k, after);
    }
}

/// An index is a detail of a group of each depth up to its own.
proof fn of_depth(groups: Seq<OutlineGroupSnapshot>, i: int, lvl: nat, after: bool) -> (k: int)
    requires
        nested(groups, after),
        1 <= lvl <= level(groups, i, after),
    ensures
        0 <= k < groups.len(),
        in_detail(groups[k], i, after),
        level(groups, summary(groups[k], after), after) + 1 == lvl,
    decreases level(groups, i, after),
{
    let k = smallest(groups, i, after);
    let m = summary(groups[k], after);
    details_run(groups, k, after);
    assert(level(groups, i, after) > level(groups, m, after));
    assert forall|j: int|
        0 <= j < groups.len() && j != k && in_detail(#[trigger] groups[j], i, after) implies in_detail(
        groups[j],
        m,
        after,
    ) by {
        let (a, b) = (groups[j], groups[k]);
        assert(a.count >= 2 && b.count >= 2 && b.count <= a.count);
        assert(apart(a, b) || stands_in(a, b, after) || stands_in(b, a, after));
    }
    level_near(groups, i, m, k, after);
    if lvl == level(groups, i, after) {
        k
    } else {
        let r = of_depth(groups, m, lvl, after);
        holder(groups, r, k, m, after);
        r
    }
}

// ---- runs

/// Whether the indices from `s` to `e` are a run of at least a level, and no longer one.
pub open spec fn is_run(levels: Seq<(u32, u32)>, lvl: nat, s: int, e: int) -> bool {
    &&& 0 <= s < e
    &&& listed_level(levels, e) < lvl
    &&& s == 0 || listed_level(levels, s - 1) < lvl
    &&& forall|x: int| s <= x < e ==> #[trigger] listed_level(levels, x) >= lvl
}

proof fn beyond_top(levels: Seq<(u32, u32)>, i: int)
    ensures
        i > top_index(levels) ==> listed_level(levels, i) == 0,
        listed_level(levels, i) <= top_level(levels),
    decreases levels.len(),
{
    if levels.len() > 0 {
        beyond_top(levels.drop_last(), i);
    }
}

/// The groups of a level are those of its runs.
proof fn runs_are_listed(
    levels: Seq<(u32, u32)>,
    lvl: nat,
    i: int,
    open_at: Option<int>,
    collapsed: Seq<u32>,
    after: bool,
    g: OutlineGroupSnapshot,
)
    requires
        lvl >= 1,
        0 <= i,
        match open_at {
            None => i == 0 || listed_level(levels, i - 1) < lvl,
            Some(s) => 0 <= s < i && (s == 0 || listed_level(levels, s - 1) < lvl) && forall|x: int|
                s <= x < i ==> #[trigger] listed_level(levels, x) >= lvl,
        },
    ensures
        level_groups(levels, lvl, i, open_at, collapsed, after).contains(g) <==> exists|s: int, e: int|
            #[trigger] is_run(levels, lvl, s, e) && e >= i && g == group_of(s, e, collapsed, after),
    decreases top_index(levels) + 2 - i,
{
    let all = level_groups(levels, lvl, i, open_at, collapsed, after);
    beyond_top(levels, i);
    beyond_top(levels, i - 1);
    let here = listed_level(levels, i) >= lvl;
    if i > top_index(levels) + 1 {
        assert(open_at is None) by {
            if let Some(s) = open_at {
                assert(listed_level(levels, i - 1) >= lvl);
            }
        }
        assert forall|s: int, e: int| #[trigger] is_run(levels, lvl, s, e) implies e < i by {
            beyond_top(levels, e - 1);
            assert(listed_level(levels, e - 1) >= lvl);
        }
    } else {
        assert forall|s: int, e: int| #[trigger] is_run(levels, lvl, s, e) && e == i implies open_at
            == Some(s) && !here by {
            assert(listed_level(levels, e - 1) >= lvl);
            if let Some(t) = open_at {
                if t < s {
                    assert(listed_level(levels, s - 1) >= lvl);
                } else if s < t {
                    assert(listed_level(levels, t - 1) >= lvl);
                }
            }
        }
        match open_at {
            None => {
                let next: Option<int> = if here {
                    Some(i)
                } else {
                    None
                };
                runs_are_listed(levels, lvl, i + 1, next, collapsed, after, g);
            },
            Some(s) => {
                if here {
                    runs_are_listed(levels, lvl, i + 1, open_at, collapsed, after, g);
                } else {
                    runs_are_listed(levels, lvl, i + 1, None, collapsed, after, g);
                    let first = group_of(s, i, collapsed, after);
                    let rest = level_groups(levels, lvl, i + 1, None, collapsed, after);
                    assert(is_run(levels, lvl, s, i));
                    assert(all == seq![first] + rest);
                    if all.contains(g) {
                        let n = choose|n: int| 0 <= n < all.len() && all[n] == g;
                        if n > 0 {
                            assert(rest[n - 1] == g);
                            assert(rest.contains(g));
                        }
                    }
                    if g == first {
                        assert(all[0] == g);
                    }
                    if rest.contains(g) {
                        let n = choose|n: int| 0 <= n < rest.len() && rest[n] == g;
                        assert(all[n + 1] == g);
                    }
                }
            },
        }
    }
}

/// The groups up to a level are those of the runs of the levels up to it.
proof fn levels_are_listed(
    levels: Seq<(u32, u32)>,
    lvl: nat,
    collapsed: Seq<u32>,
    after: bool,
    g: OutlineGroupSnapshot,
)
    ensures
        groups_to(levels, lvl, collapsed, after).contains(g) <==> exists|l: nat, s: int, e: int|
            1 <= l <= lvl && #[trigger] is_run(levels, l, s, e) && g == group_of(
                s,
                e,
                collapsed,
                after,
            ),
    decreases lvl,
{
    if lvl > 0 {
        let p = (lvl - 1) as nat;
        let a = groups_to(levels, p, collapsed, after);
        let b = level_groups(levels, lvl, 0, None, collapsed, after);
        let all = groups_to(levels, lvl, collapsed, after);
        levels_are_listed(levels, p, collapsed, after, g);
        runs_are_listed(levels, lvl, 0, None, collapsed, after, g);
        assert(all == a + b);
        if all.contains(g) {
            let n = choose|n: int| 0 <= n < all.len() && all[n] == g;
            if n < a.len() {
                assert(a[n] == g);
            } else {
                assert(b[n - a.len()] == g);
            }
        }
        if a.contains(g) {
            let n = choose|n: int| 0 <= n < a.len() && a[n] == g;
            assert(all[n] == g);
        }
        if b.contains(g) {
            let n = choose|n: int| 0 <= n < b.len() && b[n] == g;
            assert(all[n + a.len()] == g);
        }
    }
}

proof fn order_keeps(groups: Seq<OutlineGroupSnapshot>, g: OutlineGroupSnapshot)
    ensures
        ordered_groups(groups).contains(g) <==> groups.contains(g),
{
    let n = groups.len();
    let o = stable_order(group_keys(groups), n);
    let all = ordered_groups(groups);
    stable_order_holds(group_keys(groups), n);
    if all.contains(g) {
        let i = choose|i: int| 0 <= i < all.len() && all[i] == g;
        assert(o.contains(o[i]));
        assert(groups[o[i]] == g);
    }
    if groups.contains(g) {
        let j = choose|j: int| 0 <= j < groups.len() && groups[j] == g;
        assert(o.contains(j));
        let i = choose|i: int| 0 <= i < o.len() && o[i] == j;
        assert(all[i] == g);
    }
}

// ---- the law

/// A group as it comes back: collapsed where it or a group in it is.
pub open spec fn group_back(
    groups: Seq<OutlineGroupSnapshot>,
    k: int,
    after: bool,
) -> OutlineGroupSnapshot {
    OutlineGroupSnapshot {
        collapsed: exists|j: int|
            0 <= j < groups.len() && (#[trigger] groups[j]).collapsed && (j == k || stands_in(
                groups[j],
                groups[k],
                after,
            )),
        ..groups[k]
    }
}

/// A group is that of its details.
proof fn group_of_details(
    groups: Seq<OutlineGroupSnapshot>,
    k: int,
    collapsed: Seq<u32>,
    after: bool,
)
    requires
        nested(groups, after),
        0 <= k < groups.len(),
        forall|x: u32| #[trigger] collapsed.contains(x) <==> is_boundary(groups, x as int, after),
    ensures
        group_of(
            detail_start(groups[k], after),
            detail_end(groups[k], after),
            collapsed,
            after,
        ) == group_back(groups, k, after),
{
    let g = groups[k];
    let (s, e) = (detail_start(g, after), detail_end(g, after));
    let r = group_of(s, e, collapsed, after);
    assert(g.count >= 2);
    assert(r.start == g.start && r.count == g.count);
    if r.collapsed {
        let x = choose|x: u32| g.start <= x < g.start + g.count && #[trigger] collapsed.contains(x);
        assert(is_boundary(groups, x as int, after));
        let j = choose|j: int|
            0 <= j < groups.len() && (#[trigger] groups[j]).collapsed && is_summary(
                groups[j],
                x as int,
                after,
            );
        if j != k {
            assert(apart(groups[j], g) || stands_in(groups[j], g, after) || stands_in(
                g,
                groups[j],
                after,
            ));
        }
    }
    if group_back(groups, k, after).collapsed {
        let j = choose|j: int|
            0 <= j < groups.len() && (#[trigger] groups[j]).collapsed && (j == k || stands_in(
                groups[j],
                groups[k],
                after,
            ));
        assert(groups[j].count >= 2);
        let x = summary(groups[j], after);
        assert(is_summary(groups[j], x, after));
        assert(is_boundary(groups, x, after));
        assert(collapsed.contains(x as u32));
    }
}

/// Groups that stand apart or in one another come back from the levels of their details: each
/// group does, and no other. Each comes back collapsed where it or a group in it is.
pub proof fn nested_groups_come_back(
    groups: Seq<OutlineGroupSnapshot>,
    levels: Seq<(u32, u32)>,
    collapsed: Seq<u32>,
    after: bool,
    g: OutlineGroupSnapshot,
)
    requires
        nested(groups, after),
        forall|i: int| 0 <= i ==> #[trigger] listed_level(levels, i) == level(groups, i, after),
        forall|x: u32| #[trigger] collapsed.contains(x) <==> is_boundary(groups, x as int, after),
    ensures
        groups_of_levels(levels, collapsed, after).contains(g) <==> exists|k: int|
            0 <= k < groups.len() && g == #[trigger] group_back(groups, k, after),
{
    let top = top_level(levels);
    let all = groups_to(levels, top, collapsed, after);
    order_keeps(all, g);
    levels_are_listed(levels, top, collapsed, after, g);
    if all.contains(g) {
        let (l, s, e) = choose|l: nat, s: int, e: int|
            1 <= l <= top && #[trigger] is_run(levels, l, s, e) && g == group_of(
                s,
                e,
                collapsed,
                after,
            );
        assert(listed_level(levels, s) >= l);
        let k = of_depth(groups, s, l, after);
        same_run(groups, levels, k, l, s, e, after);
        group_of_details(groups, k, collapsed, after);
    }
    if exists|k: int| 0 <= k < groups.len() && g == #[trigger] group_back(groups, k, after) {
        let k = choose|k: int| 0 <= k < groups.len() && g == #[trigger] group_back(groups, k, after);
        let l = level(groups, summary(groups[k], after), after) + 1;
        let (s, e) = (detail_start(groups[k], after), detail_end(groups[k], after));
        group_of_details(groups, k, collapsed, after);
        run_of(groups, levels, k, after);
        beyond_top(levels, s);
        assert(listed_level(levels, s) >= l);
        assert(is_run(levels, l, s, e));
    }
}

proof fn run_of(
    groups: Seq<OutlineGroupSnapshot>,
    levels: Seq<(u32, u32)>,
    k: int,
    after: bool,
)
    requires
        nested(groups, after),
        0 <= k < groups.len(),
        forall|i: int| 0 <= i ==> #[trigger] listed_level(levels, i) == level(groups, i, after),
    ensures
        is_run(
            levels,
            level(groups, summary(groups[k], after), after) + 1,
            detail_start(groups[k], after),
            detail_end(groups[k], after),
        ),
{
    details_run(groups, k, after);
    let (s, e) = (detail_start(groups[k], after), detail_end(groups[k], after));
    assert(listed_level(levels, e) == level(groups, e, after));
    if s > 0 {
        assert(listed_level(levels, s - 1) == level(groups, s - 1, after));
    }
}

proof fn same_run(
    groups: Seq<OutlineGroupSnapshot>,
    levels: Seq<(u32, u32)>,
    k: int,
    l: nat,
    s: int,
    e: int,
    after: bool,
)
    requires
        nested(groups, after),
        0 <= k < groups.len(),
        forall|i: int| 0 <= i ==> #[trigger] listed_level(levels, i) == level(groups, i, after),
        is_run(levels, l, s, e),
        in_detail(groups[k], s, after),
        level(groups, summary(groups[k], after), after) + 1 == l,
    ensures
        s == detail_start(groups[k], after),
        e == detail_end(groups[k], after),
{
    run_of(groups, levels, k, after);
    let (a, b) = (detail_start(groups[k], after), detail_end(groups[k], after));
    if a < s {
        assert(listed_level(levels, s - 1) >= l);
    }
    if b < e {
        assert(listed_level(levels, b) >= l);
    } else if e < b {
        assert(listed_level(levels, e) >= l);
    }
}

/// What the levels and the marks of groups say.
spec fn told(
    groups: Seq<OutlineGroupSnapshot>,
    levels: Seq<(u32, u32)>,
    collapsed: Seq<u32>,
    after: bool,
) -> bool {
    &&& nested(groups, after)
    &&& forall|i: int| 0 <= i ==> #[trigger] listed_level(levels, i) == level(groups, i, after)
    &&& forall|x: u32| #[trigger] collapsed.contains(x) <==> is_boundary(groups, x as int, after)
}

/// Runs that give the same group are one run of one level.
proof fn one_run(
    groups: Seq<OutlineGroupSnapshot>,
    levels: Seq<(u32, u32)>,
    collapsed: Seq<u32>,
    after: bool,
    l: nat,
    s: int,
    e: int,
    l2: nat,
    s2: int,
    e2: int,
)
    requires
        told(groups, levels, collapsed, after),
        l >= 1,
        l2 >= 1,
        is_run(levels, l, s, e),
        is_run(levels, l2, s2, e2),
        group_of(s, e, collapsed, after) == group_of(s2, e2, collapsed, after),
    ensures
        l == l2,
        s == s2,
        e == e2,
{
    assert(listed_level(levels, s) >= l);
    assert(listed_level(levels, s2) >= l2);
    let k = of_depth(groups, s, l, after);
    let k2 = of_depth(groups, s2, l2, after);
    same_run(groups, levels, k, l, s, e, after);
    same_run(groups, levels, k2, l2, s2, e2, after);
    group_of_details(groups, k, collapsed, after);
    group_of_details(groups, k2, collapsed, after);
    let (a, b) = (groups[k], groups[k2]);
    assert(a.start == b.start && a.count == b.count && a.count >= 2);
    if k != k2 {
        assert(apart(a, b) || stands_in(a, b, after) || stands_in(b, a, after));
    }
}

proof fn level_once(
    groups: Seq<OutlineGroupSnapshot>,
    levels: Seq<(u32, u32)>,
    collapsed: Seq<u32>,
    after: bool,
    lvl: nat,
    i: int,
    open_at: Option<int>,
)
    requires
        told(groups, levels, collapsed, after),
        lvl >= 1,
        0 <= i,
        match open_at {
            None => i == 0 || listed_level(levels, i - 1) < lvl,
            Some(s) => 0 <= s < i && (s == 0 || listed_level(levels, s - 1) < lvl) && forall|x: int|
                s <= x < i ==> #[trigger] listed_level(levels, x) >= lvl,
        },
    ensures
        level_groups(levels, lvl, i, open_at, collapsed, after).no_duplicates(),
    decreases top_index(levels) + 2 - i,
{
    if i <= top_index(levels) + 1 {
        let here = listed_level(levels, i) >= lvl;
        match open_at {
            None => {
                let next: Option<int> = if here {
                    Some(i)
                } else {
                    None
                };
                level_once(groups, levels, collapsed, after, lvl, i + 1, next);
            },
            Some(s) => {
                if here {
                    level_once(groups, levels, collapsed, after, lvl, i + 1, open_at);
                } else {
                    level_once(groups, levels, collapsed, after, lvl, i + 1, None);
                    let first = group_of(s, i, collapsed, after);
                    let rest = level_groups(levels, lvl, i + 1, None, collapsed, after);
                    assert(is_run(levels, lvl, s, i));
                    runs_are_listed(levels, lvl, i + 1, None, collapsed, after, first);
                    if rest.contains(first) {
                        let (s2, e2) = choose|s2: int, e2: int|
                            #[trigger] is_run(levels, lvl, s2, e2) && e2 >= i + 1 && first == group_of(
                                s2,
                                e2,
                                collapsed,
                                after,
                            );
                        one_run(groups, levels, collapsed, after, lvl, s, i, lvl, s2, e2);
                    }
                    let all = seq![first] + rest;
                    assert forall|a: int, b: int| 0 <= a < b < all.len() implies all[a] != all[b] by {
                        assert(all[b] == rest[b - 1]);
                        if a == 0 {
                            assert(rest.contains(rest[b - 1]));
                        } else {
                            assert(all[a] == rest[a - 1]);
                        }
                    }
                }
            },
        }
    }
}

proof fn levels_once(
    groups: Seq<OutlineGroupSnapshot>,
    levels: Seq<(u32, u32)>,
    collapsed: Seq<u32>,
    after: bool,
    lvl: nat,
)
    requires
        told(groups, levels, collapsed, after),
    ensures
        groups_to(levels, lvl, collapsed, after).no_duplicates(),
    decreases lvl,
{
    if lvl > 0 {
        let p = (lvl - 1) as nat;
        let a = groups_to(levels, p, collapsed, after);
        let b = level_groups(levels, lvl, 0, None, collapsed, after);
        levels_once(groups, levels, collapsed, after, p);
        level_once(groups, levels, collapsed, after, lvl, 0, None);
        let all = a + b;
        assert forall|x: int, y: int| 0 <= x < y < all.len() implies all[x] != all[y] by {
            if x < a.len() && y >= a.len() && all[x] == all[y] {
                let g = all[x];
                assert(a[x] == g && b[y - a.len()] == g);
                assert(a.contains(g) && b.contains(g));
                levels_are_listed(levels, p, collapsed, after, g);
                runs_are_listed(levels, lvl, 0, None, collapsed, after, g);
                let (l, s, e) = choose|l: nat, s: int, e: int|
                    1 <= l <= p && #[trigger] is_run(levels, l, s, e) && g == group_of(
                        s,
                        e,
                        collapsed,
                        after,
                    );
                let (s2, e2) = choose|s2: int, e2: int|
                    #[trigger] is_run(levels, lvl, s2, e2) && e2 >= 0 && g == group_of(
                        s2,
                        e2,
                        collapsed,
                        after,
                    );
                one_run(groups, levels, collapsed, after, l, s, e, lvl, s2, e2);
            }
        }
    }
}

/// Groups that stand apart or in one another come back once each.
pub proof fn nested_groups_come_back_once(
    groups: Seq<OutlineGroupSnapshot>,
    levels: Seq<(u32, u32)>,
    collapsed: Seq<u32>,
    after: bool,
)
    requires
        nested(groups, after),
        forall|i: int| 0 <= i ==> #[trigger] listed_level(levels, i) == level(groups, i, after),
        forall|x: u32| #[trigger] collapsed.contains(x) <==> is_boundary(groups, x as int, after),
    ensures
        groups_of_levels(levels, collapsed, after).no_duplicates(),
{
    let all = groups_to(levels, top_level(levels), collapsed, after);
    let n = all.len();
    levels_once(groups, levels, collapsed, after, top_level(levels));
    stable_order_sorts(group_keys(all), n);
    let o = stable_order(group_keys(all), n);
    let r = ordered_groups(all);
    assert forall|i: int, j: int| 0 <= i < j < r.len() implies r[i] != r[j] by {
        assert(0 <= o[i] < n && 0 <= o[j] < n && o[i] != o[j]);
    }
}


// ---- groups in files

/// Whether the groups of rows stand apart or in one another on their sheet, and the summary of
/// each collapsed one is written.
pub open spec fn row_groups_valid(s: SheetSnapshot) -> bool {
    &&& nested(s.row_outlines@, below(s))
    &&& s.row_outlines@.len() <= u32::MAX
    &&& forall|k: int|
        0 <= k < s.row_outlines@.len() ==> (#[trigger] s.row_outlines@[k]).start
            + s.row_outlines@[k].count <= s.row_count
    &&& forall|r: u32|
        is_boundary(s.row_outlines@, r as int, below(s)) ==> #[trigger] row_listed(s, r)
}

proof fn no_level_outside(groups: Seq<OutlineGroupSnapshot>, i: int, n: int, after: bool)
    requires
        forall|k: int|
            0 <= k < groups.len() ==> (#[trigger] groups[k]).start + groups[k].count <= n,
        i >= n,
    ensures
        level(groups, i, after) == 0,
    decreases groups.len(),
{
    if groups.len() > 0 {
        let p = groups.drop_last();
        assert forall|k: int| 0 <= k < p.len() implies (#[trigger] p[k]).start + p[k].count <= n by {
            assert(p[k] == groups[k]);
        }
        no_level_outside(p, i, n, after);
        assert(groups.last() == groups[groups.len() - 1]);
    }
}

proof fn cells_add_no_level(
    st: RowsRead,
    cells: Seq<CellSnapshot>,
    styles: Seq<NamedStyle>,
    sh: Shared,
    xf: Seq<StyleView>,
    r: u32,
    n: int,
)
    ensures
        row_added(st, cells, styles, sh, xf, r, n).levels == st.levels,
        row_added(st, cells, styles, sh, xf, r, n).collapsed == st.collapsed,
    decreases n,
{
    if n > 0 {
        cells_add_no_level(st, cells, styles, sh, xf, r, n - 1);
    }
}

/// The levels and the marks of rows are those of the groups.
proof fn row_levels(
    s: SheetSnapshot,
    cells: Seq<CellSnapshot>,
    styles: Seq<NamedStyle>,
    sh: Shared,
    xf: Seq<StyleView>,
    list: Seq<u32>,
)
    requires
        s.row_outlines@.len() <= u32::MAX,
    ensures
        ({
            let rows = rows_back(s, cells, styles, sh, xf, list);
            &&& forall|i: int|
                #[trigger] listed_level(rows.levels, i) == (if 0 <= i <= u32::MAX && list.contains(
                    i as u32,
                ) {
                    level(s.row_outlines@, i, below(s))
                } else {
                    0
                })
            &&& forall|x: u32| #[trigger]
                rows.collapsed.contains(x) <==> list.contains(x) && is_boundary(
                    s.row_outlines@,
                    x as int,
                    below(s),
                )
        }),
    decreases list.len(),
{
    if list.len() > 0 {
        let p = list.drop_last();
        let r = list.last();
        let before = rows_back(s, cells, styles, sh, xf, p);
        let mid = row_back(before, s, r);
        let rows = rows_back(s, cells, styles, sh, xf, list);
        row_levels(s, cells, styles, sh, xf, p);
        cells_add_no_level(mid, cells, styles, sh, xf, r, cells.len() as int);
        level_bound(s.row_outlines@, r as int, below(s));
        list_step(list);
        assert forall|i: int| #[trigger] listed_level(rows.levels, i) == (if 0 <= i <= u32::MAX
            && list.contains(i as u32) {
            level(s.row_outlines@, i, below(s))
        } else {
            0
        }) by {
            level_step(before.levels, r, level(s.row_outlines@, r as int, below(s)) as u32, i);
        }
        assert forall|x: u32| #[trigger]
            rows.collapsed.contains(x) <==> list.contains(x) && is_boundary(
                s.row_outlines@,
                x as int,
                below(s),
            ) by {
            push_step(before.collapsed, r, x);
        }
    }
}

proof fn list_step(list: Seq<u32>)
    requires
        list.len() > 0,
    ensures
        forall|x: u32| #[trigger]
            list.contains(x) <==> list.drop_last().contains(x) || x == list.last(),
{
    assert(list.drop_last().push(list.last()) == list);
    assert forall|x: u32| #[trigger]
        list.contains(x) <==> list.drop_last().contains(x) || x == list.last() by {
        push_step(list.drop_last(), list.last(), x);
    }
}

proof fn push_step(list: Seq<u32>, r: u32, x: u32)
    ensures
        list.push(r).contains(x) <==> list.contains(x) || x == r,
{
    let all = list.push(r);
    if all.contains(x) {
        let i = choose|i: int| 0 <= i < all.len() && all[i] == x;
        if i < list.len() {
            assert(list[i] == x);
        }
    }
    if list.contains(x) {
        let i = choose|i: int| 0 <= i < list.len() && list[i] == x;
        assert(all[i] == x);
    }
    assert(all[list.len() as int] == r);
}

proof fn level_step(levels: Seq<(u32, u32)>, r: u32, l: u32, i: int)
    ensures
        listed_level(levels.push((r, l)), i) == (if i == r {
            l as nat
        } else {
            listed_level(levels, i)
        }),
{
    assert(levels.push((r, l)).drop_last() == levels);
}

/// Groups of rows that stand apart or in one another come back from a file: each does once, and
/// no other.
pub proof fn row_groups_come_back(
    s: SheetSnapshot,
    name: Seq<char>,
    frozen: (u32, u32),
    styles: Seq<NamedStyle>,
    sh: Shared,
    xf: Seq<StyleView>,
    g: OutlineGroupSnapshot,
)
    requires
        row_groups_valid(s),
    ensures
        sheet_back(s, name, frozen, styles, sh, xf).row_outlines.contains(g) <==> exists|k: int|
            0 <= k < s.row_outlines@.len() && g == #[trigger] group_back(s.row_outlines@, k, below(s)),
        sheet_back(s, name, frozen, styles, sh, xf).row_outlines.no_duplicates(),
{
    let list = listed_rows(s);
    let groups = s.row_outlines@;
    let rows = rows_back(s, sorted_cells(s.cells@), styles, sh, xf, list);
    row_levels(s, sorted_cells(s.cells@), styles, sh, xf, list);
    picked_has(|r: u32| row_listed(s, r), u32_count());
    assert forall|i: int| 0 <= i implies #[trigger] listed_level(rows.levels, i) == level(
        groups,
        i,
        below(s),
    ) by {
        if i >= s.row_count {
            no_level_outside(groups, i, s.row_count as int, below(s));
        } else if level(groups, i, below(s)) > 0 {
            assert(row_listed(s, i as u32));
            assert(list.contains(i as u32));
        }
    }
    assert forall|x: u32| #[trigger] rows.collapsed.contains(x) <==> is_boundary(
        groups,
        x as int,
        below(s),
    ) by {
        if is_boundary(groups, x as int, below(s)) {
            assert(row_listed(s, x));
            assert(list.contains(x));
        }
    }
    nested_groups_come_back(groups, rows.levels, rows.collapsed, below(s), g);
    nested_groups_come_back_once(groups, rows.levels, rows.collapsed, below(s));
}

/// Whether the groups of columns stand apart or in one another on their sheet, and the summary of
/// each collapsed one is written.
pub open spec fn col_groups_valid(s: SheetSnapshot) -> bool {
    &&& nested(s.col_outlines@, right(s))
    &&& s.col_outlines@.len() <= u32::MAX
    &&& forall|k: int|
        0 <= k < s.col_outlines@.len() ==> (#[trigger] s.col_outlines@[k]).start
            + s.col_outlines@[k].count <= s.col_count
    &&& forall|c: u32|
        is_boundary(s.col_outlines@, c as int, right(s)) ==> #[trigger] col_listed(s, c)
}

/// The levels and the marks of columns are those of the groups.
proof fn col_levels(s: SheetSnapshot, max_col: u32, list: Seq<u32>)
    requires
        s.col_outlines@.len() <= u32::MAX,
    ensures
        ({
            let cols = cols_back(s, max_col, list);
            &&& forall|i: int|
                #[trigger] listed_level(cols.levels, i) == (if 0 <= i <= u32::MAX && list.contains(
                    i as u32,
                ) {
                    level(s.col_outlines@, i, right(s))
                } else {
                    0
                })
            &&& forall|x: u32| #[trigger]
                cols.collapsed.contains(x) <==> list.contains(x) && is_boundary(
                    s.col_outlines@,
                    x as int,
                    right(s),
                )
        }),
    decreases list.len(),
{
    if list.len() > 0 {
        let p = list.drop_last();
        let c = list.last();
        let before = cols_back(s, max_col, p);
        let cols = cols_back(s, max_col, list);
        col_levels(s, max_col, p);
        level_bound(s.col_outlines@, c as int, right(s));
        list_step(list);
        assert forall|i: int| #[trigger] listed_level(cols.levels, i) == (if 0 <= i <= u32::MAX
            && list.contains(i as u32) {
            level(s.col_outlines@, i, right(s))
        } else {
            0
        }) by {
            level_step(before.levels, c, level(s.col_outlines@, c as int, right(s)) as u32, i);
        }
        assert forall|x: u32| #[trigger]
            cols.collapsed.contains(x) <==> list.contains(x) && is_boundary(
                s.col_outlines@,
                x as int,
                right(s),
            ) by {
            push_step(before.collapsed, c, x);
        }
    }
}

/// Groups of columns that stand apart or in one another come back from a file: each does once,
/// and no other.
pub proof fn col_groups_come_back(
    s: SheetSnapshot,
    name: Seq<char>,
    frozen: (u32, u32),
    styles: Seq<NamedStyle>,
    sh: Shared,
    xf: Seq<StyleView>,
    g: OutlineGroupSnapshot,
)
    requires
        col_groups_valid(s),
    ensures
        sheet_back(s, name, frozen, styles, sh, xf).col_outlines.contains(g) <==> exists|k: int|
            0 <= k < s.col_outlines@.len() && g == #[trigger] group_back(s.col_outlines@, k, right(s)),
        sheet_back(s, name, frozen, styles, sh, xf).col_outlines.no_duplicates(),
{
    let list = listed_cols(s);
    let groups = s.col_outlines@;
    let rows = rows_back(s, sorted_cells(s.cells@), styles, sh, xf, listed_rows(s));
    let cols = cols_back(s, rows.max_col, list);
    col_levels(s, rows.max_col, list);
    picked_has(|c: u32| col_listed(s, c), u32_count());
    assert forall|i: int| 0 <= i implies #[trigger] listed_level(cols.levels, i) == level(
        groups,
        i,
        right(s),
    ) by {
        if i >= s.col_count {
            no_level_outside(groups, i, s.col_count as int, right(s));
        } else if level(groups, i, right(s)) > 0 {
            assert(col_listed(s, i as u32));
            assert(list.contains(i as u32));
        }
    }
    assert forall|x: u32| #[trigger] cols.collapsed.contains(x) <==> is_boundary(
        groups,
        x as int,
        right(s),
    ) by {
        if is_boundary(groups, x as int, right(s)) {
            assert(col_listed(s, x));
            assert(list.contains(x));
        }
    }
    nested_groups_come_back(groups, cols.levels, cols.collapsed, right(s), g);
    nested_groups_come_back_once(groups, cols.levels, cols.collapsed, right(s));
}

} // verus!
