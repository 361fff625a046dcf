use cmx_sheet::depgraph::{cell_key, extract_deps, DependencyGraph};
use cmx_sheet::parse::parse_formula;

fn deps(src: &str) -> Vec<String> {
    let mut v = extract_deps(&parse_formula(src).unwrap(), "S", &Vec::new());
    v.sort();
    v
}

#[test]
fn extract_single_and_multi() {
    assert_eq!(deps("A1+1"), vec![cell_key("S", 0, 0)]);
    let mut expect = vec![cell_key("S", 0, 0), cell_key("S", 1, 1)];
    expect.sort();
    assert_eq!(deps("A1+B2"), expect);
}

#[test]
fn extract_range_expands() {
    let mut expect = vec![
        cell_key("S", 0, 0),
        cell_key("S", 1, 0),
        cell_key("S", 2, 0),
    ];
    expect.sort();
    assert_eq!(deps("SUM(A1:A3)"), expect);
}

#[test]
fn extract_cross_sheet_and_dedup() {
    assert_eq!(deps("Other!B1"), vec![cell_key("Other", 0, 1)]);
    assert_eq!(deps("SUM(1, 2, \"x\")"), Vec::<String>::new());
    assert_eq!(deps("A1+A1*A1"), vec![cell_key("S", 0, 0)]);
    assert_eq!(deps("$A$1"), vec![cell_key("S", 0, 0)]);
}

#[test]
fn forward_reverse_edges() {
    let mut g = DependencyGraph::new();
    let c = cell_key("S", 0, 2);
    g.set_deps(&c, vec![cell_key("S", 0, 0), cell_key("S", 0, 1)]);
    assert!(g.has_formula(&c));
    assert!(g.get_dependents(&cell_key("S", 0, 0)).contains(&c));
}

#[test]
fn clear_and_replace() {
    let mut g = DependencyGraph::new();
    let c = cell_key("S", 0, 2);
    g.set_deps(&c, vec![cell_key("S", 0, 0)]);
    g.clear_deps(&c);
    assert!(!g.has_formula(&c));
    assert!(!g.get_dependents(&cell_key("S", 0, 0)).contains(&c));

    g.set_deps(&c, vec![cell_key("S", 0, 0)]);
    g.set_deps(&c, vec![cell_key("S", 0, 1)]);
    assert!(!g.get_dependents(&cell_key("S", 0, 0)).contains(&c));
    assert!(g.get_dependents(&cell_key("S", 0, 1)).contains(&c));
}

#[test]
fn affected_transitive() {
    let mut g = DependencyGraph::new();
    let a = cell_key("S", 0, 0);
    let b = cell_key("S", 0, 1);
    let c = cell_key("S", 0, 2);
    g.set_deps(&b, vec![a.clone()]);
    g.set_deps(&c, vec![b.clone()]);
    let aff = g.affected_by(&[a]);
    assert!(aff.contains(&b));
    assert!(aff.contains(&c));
}

#[test]
fn topo_orders_deps_first() {
    let mut g = DependencyGraph::new();
    let a = cell_key("S", 0, 0);
    let b = cell_key("S", 0, 1);
    let c = cell_key("S", 0, 2);
    g.set_deps(&b, vec![a]);
    g.set_deps(&c, vec![b.clone()]);
    let res = g.topo_sort(vec![b.clone(), c.clone()]);
    assert_eq!(res.cyclic.len(), 0);
    let pb = res.order.iter().position(|x| x == &b).unwrap();
    let pc = res.order.iter().position(|x| x == &c).unwrap();
    assert!(pb < pc);
}

#[test]
fn detects_2_cycle() {
    let mut g = DependencyGraph::new();
    let a = cell_key("S", 0, 0);
    let b = cell_key("S", 0, 1);
    g.set_deps(&a, vec![b.clone()]);
    g.set_deps(&b, vec![a.clone()]);
    let res = g.topo_sort(vec![a.clone(), b.clone()]);
    assert!(res.cyclic.contains(&a));
    assert!(res.cyclic.contains(&b));
    assert_eq!(res.order.len(), 0);
}

#[test]
fn detects_self_ref() {
    let mut g = DependencyGraph::new();
    let a = cell_key("S", 0, 0);
    g.set_deps(&a, vec![a.clone()]);
    let res = g.topo_sort(vec![a.clone()]);
    assert!(res.cyclic.contains(&a));
}

#[test]
fn detects_3_cycle() {
    let mut g = DependencyGraph::new();
    let a = cell_key("S", 0, 0);
    let b = cell_key("S", 0, 1);
    let c = cell_key("S", 0, 2);
    g.set_deps(&a, vec![c.clone()]);
    g.set_deps(&b, vec![a.clone()]);
    g.set_deps(&c, vec![b.clone()]);
    let res = g.topo_sort(vec![a.clone(), b.clone(), c.clone()]);
    assert!(res.cyclic.contains(&a) && res.cyclic.contains(&b) && res.cyclic.contains(&c));
}

#[test]
fn isolates_cycle_from_acyclic() {
    let mut g = DependencyGraph::new();
    let a = cell_key("S", 0, 0);
    let b = cell_key("S", 0, 1);
    let x = cell_key("S", 1, 0);
    let y = cell_key("S", 1, 1);
    g.set_deps(&a, vec![b.clone()]);
    g.set_deps(&b, vec![a.clone()]);
    g.set_deps(&y, vec![x]);
    let res = g.topo_sort(vec![a.clone(), b.clone(), y.clone()]);
    assert!(res.cyclic.contains(&a) && res.cyclic.contains(&b));
    assert!(res.order.contains(&y));
    assert!(!res.order.contains(&a));
}

#[test]
fn a_cleared_graph_knows_no_formula() {
    let mut g = DependencyGraph::new();
    let (a, b) = (cell_key("S", 0, 0), cell_key("S", 0, 1));
    g.set_deps(&a, vec![b.clone()]);
    assert_eq!(g.get_dependents(&b), vec![a]);
    g.clear_all();
    assert!(g.get_dependents(&b).is_empty());
}

#[test]
fn cycles_that_share_a_cell_are_reported_whole() {
    let mut g = DependencyGraph::new();
    let (a, b, c) = (cell_key("S", 0, 0), cell_key("S", 0, 1), cell_key("S", 0, 2));
    let (x, y) = (cell_key("S", 1, 0), cell_key("S", 1, 1));
    g.set_deps(&a, vec![b.clone()]);
    g.set_deps(&b, vec![a.clone(), c.clone()]);
    g.set_deps(&c, vec![a.clone(), x.clone()]);
    g.set_deps(&x, vec![y.clone()]);
    g.set_deps(&y, vec![]);
    for cells in [
        vec![a.clone(), b.clone(), c.clone(), x.clone(), y.clone()],
        vec![c.clone(), x.clone(), b.clone(), y.clone(), a.clone()],
        vec![b.clone(), y.clone(), a.clone(), c.clone(), x.clone()],
    ] {
        let res = g.topo_sort(cells);
        let mut cyclic = res.cyclic.clone();
        cyclic.sort();
        assert_eq!(cyclic, vec![a.clone(), b.clone(), c.clone()]);
        assert_eq!(res.order, vec![y.clone(), x.clone()]);
    }
}

#[test]
fn a_reader_of_a_cycle_is_ordered() {
    let mut g = DependencyGraph::new();
    let (a, b, c) = (cell_key("S", 0, 0), cell_key("S", 0, 1), cell_key("S", 0, 2));
    g.set_deps(&a, vec![b.clone()]);
    g.set_deps(&b, vec![a.clone()]);
    g.set_deps(&c, vec![a.clone()]);
    let res = g.topo_sort(vec![c.clone(), a.clone(), b.clone()]);
    assert_eq!(res.order, vec![c]);
    let mut cyclic = res.cyclic.clone();
    cyclic.sort();
    assert_eq!(cyclic, vec![a, b]);
}
