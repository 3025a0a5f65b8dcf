//! The dependency graph of a workspace, its release order, and the report of its
//! cycles.
use vstd::prelude::*;
use crate::errors::CargoError;
use crate::graph::{
    add_edge, add_node, graph_edges, graph_node_count, handle_lists_view, handles_view, has_cycle,
    is_path, is_permutation, is_scc_partition, is_topological_order, listed, mutually_reachable,
    new_graph, reaches, scc_handles, scc_list, toposort_handles, toposort_order, HandleGraph,
};
use crate::text::{join_strings, joined};
use crate::workspace::{
    copy_strings, has_name, lemma_name_index, name_index, names_unique, packages_view,
    strings_view, CargoPackage, CargoWorkspace, PackageView,
};

verus! {

/// The edges that the package at `j` contributes for the dependency names `deps`, in
/// order: one edge from each dependency that is another package of the workspace.
pub open spec fn edges_into(pkgs: Seq<PackageView>, j: int, deps: Seq<Seq<char>>) -> Seq<(int, int)>
    decreases deps.len(),
{
    if deps.len() == 0 {
        Seq::empty()
    } else {
        let rest = edges_into(pkgs, j, deps.drop_last());
        match name_index(pkgs, deps.last()) {
            Some(i) => if i != j {
                rest.push((i, j))
            } else {
                rest
            },
            None => rest,
        }
    }
}

/// The edges contributed by the first `k` packages.
pub open spec fn edges_upto(pkgs: Seq<PackageView>, k: int) -> Seq<(int, int)>
    decreases k,
{
    if k <= 0 {
        Seq::empty()
    } else {
        edges_upto(pkgs, k - 1) + edges_into(pkgs, k - 1, pkgs[k - 1].dependencies)
    }
}

/// The dependency graph's edges, in the order they are added: an edge `(i, j)` says
/// that the package at `i` must be released before the package at `j`.
pub open spec fn dependency_edges(pkgs: Seq<PackageView>) -> Seq<(int, int)> {
    edges_upto(pkgs, pkgs.len() as int)
}

/// The package at `j` requires the package at `i`, which is another package.
pub open spec fn depends_on(pkgs: Seq<PackageView>, j: int, i: int) -> bool {
    &&& 0 <= i < pkgs.len()
    &&& 0 <= j < pkgs.len()
    &&& i != j
    &&& pkgs[j].dependencies.contains(pkgs[i].name)
}

proof fn lemma_edges_into(pkgs: Seq<PackageView>, j: int, deps: Seq<Seq<char>>, a: int, b: int)
    requires
        names_unique(pkgs),
    ensures
        edges_into(pkgs, j, deps).contains((a, b)) <==> (b == j && 0 <= a < pkgs.len() && a != j
            && deps.contains(pkgs[a].name)),
    decreases deps.len(),
{
    if deps.len() > 0 {
        let rest = deps.drop_last();
        lemma_edges_into(pkgs, j, rest, a, b);
        if 0 <= a < pkgs.len() {
            lemma_name_index(pkgs, a);
        }
        assert(deps =~= rest.push(deps.last()));
        assert(deps.contains(pkgs[a].name) <==> (rest.contains(pkgs[a].name) || deps.last()
            == pkgs[a].name)) by {
            if deps.contains(pkgs[a].name) {
                let k = choose|k: int| 0 <= k < deps.len() && deps[k] == pkgs[a].name;
                if k < deps.len() - 1 {
                    assert(rest[k] == pkgs[a].name);
                }
            }
            if rest.contains(pkgs[a].name) {
                let k = choose|k: int| 0 <= k < rest.len() && rest[k] == pkgs[a].name;
                assert(deps[k] == pkgs[a].name);
            }
        }
        let r = edges_into(pkgs, j, rest);
        match name_index(pkgs, deps.last()) {
            Some(i) => {
                assert(has_name(pkgs, deps.last()));
                assert(0 <= i < pkgs.len() && pkgs[i].name == deps.last());
                if 0 <= a < pkgs.len() {
                    assert(pkgs[a].name == deps.last() <==> a == i);
                }
                if i != j {
                    let e = r.push((i, j));
                    assert(e.contains((a, b)) <==> (r.contains((a, b)) || (a == i && b == j))) by {
                        if e.contains((a, b)) {
                            let x = choose|x: int| 0 <= x < e.len() && e[x] == (a, b);
                            if x < r.len() {
                                assert(r[x] == (a, b));
                            }
                        }
                        if r.contains((a, b)) {
                            let x = choose|x: int| 0 <= x < r.len() && r[x] == (a, b);
                            assert(e[x] == (a, b));
                        }
                        assert(e[r.len() as int] == (i, j));
                    }
                }
            },
            None => {
                if 0 <= a < pkgs.len() {
                    assert(pkgs[a].name != deps.last()) by {
                        if pkgs[a].name == deps.last() {
                            assert(has_name(pkgs, deps.last()));
                        }
                    }
                }
            },
        }
    }
}

proof fn lemma_edges_upto(pkgs: Seq<PackageView>, k: int, a: int, b: int)
    requires
        names_unique(pkgs),
        0 <= k <= pkgs.len(),
    ensures
        edges_upto(pkgs, k).contains((a, b)) <==> (0 <= b < k && depends_on(pkgs, b, a)),
    decreases k,
{
    if k > 0 {
        lemma_edges_upto(pkgs, k - 1, a, b);
        lemma_edges_into(pkgs, k - 1, pkgs[k - 1].dependencies, a, b);
        let front = edges_upto(pkgs, k - 1);
        let back = edges_into(pkgs, k - 1, pkgs[k - 1].dependencies);
        if (front + back).contains((a, b)) {
            let x = choose|x: int| 0 <= x < (front + back).len() && (front + back)[x] == (a, b);
            if x < front.len() {
                assert(front[x] == (a, b));
            } else {
                assert(back[x - front.len()] == (a, b));
            }
        }
        if front.contains((a, b)) {
            let x = choose|x: int| 0 <= x < front.len() && front[x] == (a, b);
            assert((front + back)[x] == (a, b));
        }
        if back.contains((a, b)) {
            let x = choose|x: int| 0 <= x < back.len() && back[x] == (a, b);
            assert((front + back)[front.len() + x] == (a, b));
        }
    }
}

/// An edge `(i, j)` of the dependency graph stands exactly for a dependency of the
/// package at `j` on another package, the one at `i`.
pub proof fn lemma_dependency_edge(pkgs: Seq<PackageView>, i: int, j: int)
    requires
        names_unique(pkgs),
    ensures
        dependency_edges(pkgs).contains((i, j)) <==> depends_on(pkgs, j, i),
{
    lemma_edges_upto(pkgs, pkgs.len() as int, i, j);
}

/// Builds the dependency graph: one node per package, at the package's position, and one
/// edge from each package to each other package that lists it as a dependency.
/// Dependencies on names outside the workspace, and on the package itself, add nothing.
pub fn build_dependency_graph(workspace: &CargoWorkspace) -> (g: HandleGraph)
    requires
        workspace.wf(),
    ensures
        graph_node_count(g) == workspace.packages@.len(),
        graph_edges(g) == dependency_edges(workspace.packages_view()),
{
    let ghost pkgs = workspace.packages_view();
    let n = workspace.packages.len();
    let mut g = new_graph();
    for i in 0..n
        invariant
            n == workspace.packages@.len(),
            graph_node_count(g) == i,
            graph_edges(g) == Seq::<(int, int)>::empty(),
    {
        add_node(&mut g);
    }
    for j in 0..n
        invariant
            n == workspace.packages@.len(),
            pkgs == workspace.packages_view(),
            workspace.wf(),
            graph_node_count(g) == n,
            graph_edges(g) == edges_upto(pkgs, j as int),
    {
        let deps = &workspace.packages[j].dependencies;
        let ghost dv = pkgs[j as int].dependencies;
        assert(dv == strings_view(deps@));
        for k in 0..deps.len()
            invariant
                n == workspace.packages@.len(),
                pkgs == workspace.packages_view(),
                workspace.wf(),
                j < n,
                deps == &workspace.packages@[j as int].dependencies,
                dv == strings_view(deps@),
                graph_node_count(g) == n,
                graph_edges(g) == edges_upto(pkgs, j as int) + edges_into(pkgs, j as int, dv.take(k as int)),
        {
            assert(dv.take(k + 1).drop_last() =~= dv.take(k as int));
            assert(dv.take(k + 1).last() == deps@[k as int]@);
            match workspace.find_package(&deps[k]) {
                Some(i) => {
                    if i != j {
                        add_edge(&mut g, i, j);
                        assert(graph_edges(g) =~= edges_upto(pkgs, j as int) + edges_into(
                            pkgs,
                            j as int,
                            dv.take(k + 1),
                        ));
                    }
                },
                None => {},
            }
        }
        assert(dv.take(deps.len() as int) =~= dv);
        assert(edges_upto(pkgs, j + 1) == edges_upto(pkgs, j as int) + edges_into(pkgs, j as int, dv));
    }
    g
}

/// The packages in the order petgraph's topological sort gives their graph.
pub open spec fn release_order(pkgs: Seq<PackageView>) -> Seq<PackageView> {
    packages_at(pkgs, toposort_order(pkgs.len(), dependency_edges(pkgs)))
}

/// The packages at the given positions.
pub open spec fn packages_at(pkgs: Seq<PackageView>, idx: Seq<int>) -> Seq<PackageView> {
    idx.map_values(|k: int| pkgs[k])
}

/// The components that hold more than one node, in their order.
pub open spec fn long_components(comps: Seq<Seq<int>>) -> Seq<Seq<int>>
    decreases comps.len(),
{
    if comps.len() == 0 {
        Seq::empty()
    } else if comps.last().len() > 1 {
        long_components(comps.drop_last()).push(comps.last())
    } else {
        long_components(comps.drop_last())
    }
}

/// The strongly connected components of the dependency graph that hold more than one
/// package.
pub open spec fn cycle_components(pkgs: Seq<PackageView>) -> Seq<Seq<int>> {
    long_components(scc_list(pkgs.len(), dependency_edges(pkgs)))
}

/// The names of the packages at the given positions.
pub open spec fn component_names(pkgs: Seq<PackageView>, c: Seq<int>) -> Seq<Seq<char>> {
    c.map_values(|k: int| pkgs[k].name)
}

/// The names in each cyclic component.
pub open spec fn cycle_chains(pkgs: Seq<PackageView>) -> Seq<Seq<Seq<char>>> {
    named_components(pkgs, cycle_components(pkgs))
}

/// The names in each of the components.
pub open spec fn named_components(pkgs: Seq<PackageView>, comps: Seq<Seq<int>>) -> Seq<Seq<Seq<char>>> {
    comps.map_values(|c: Seq<int>| component_names(pkgs, c))
}

/// A component shown as a chain that returns to its start: `A -> B -> A`.
pub open spec fn chain_text(names: Seq<Seq<char>>) -> Seq<char> {
    joined(names.push(names[0]), " -> "@)
}

/// The report of all cyclic components.
pub open spec fn cycles_text(chains: Seq<Seq<Seq<char>>>) -> Seq<char> {
    "Circular dependencies detected: "@ + joined(chain_texts(chains), ", "@)
}

/// Each chain as text.
pub open spec fn chain_texts(chains: Seq<Seq<Seq<char>>>) -> Seq<Seq<char>> {
    chains.map_values(|c: Seq<Seq<char>>| chain_text(c))
}

/// `comps` lists exactly the strongly connected components of more than one node: each
/// list has at least two nodes, all reaching each other, and holds every node that
/// reaches them both ways; the lists share no node; and every node that lies on a
/// cycle through another node stands in one of them.
pub open spec fn is_cycle_report(n: nat, edges: Seq<(int, int)>, comps: Seq<Seq<int>>) -> bool {
    &&& forall|c: int| 0 <= c < comps.len() ==> #[trigger] comps[c].len() >= 2
    &&& forall|c: int| 0 <= c < comps.len() ==> #[trigger] comps[c].no_duplicates()
    &&& forall|c: int, k: int|
        0 <= c < comps.len() && 0 <= k < comps[c].len() ==> 0 <= #[trigger] comps[c][k] < n
    &&& forall|c: int, k: int, l: int|
        0 <= c < comps.len() && 0 <= k < comps[c].len() && 0 <= l < comps[c].len()
            ==> mutually_reachable(edges, #[trigger] comps[c][k], #[trigger] comps[c][l])
    &&& forall|c: int, k: int, v: int|
        0 <= c < comps.len() && 0 <= k < comps[c].len() && 0 <= v < n && #[trigger] mutually_reachable(
            edges,
            comps[c][k],
            v,
        ) ==> comps[c].contains(v)
    &&& forall|c: int, d: int, k: int, l: int|
        0 <= c < comps.len() && 0 <= d < comps.len() && c != d && 0 <= k < comps[c].len() && 0 <= l
            < comps[d].len() ==> #[trigger] comps[c][k] != #[trigger] comps[d][l]
    &&& forall|v: int, w: int|
        0 <= v < n && 0 <= w < n && v != w && #[trigger] mutually_reachable(edges, v, w) ==> listed(
            comps,
            v,
        )
}

/// Positions of the long components among all components.
proof fn long_component_positions(comps: Seq<Seq<int>>) -> (m: Seq<int>)
    ensures
        m.len() == long_components(comps).len(),
        forall|c: int| 0 <= c < m.len() ==> 0 <= #[trigger] m[c] < comps.len(),
        forall|c: int| 0 <= c < m.len() ==> long_components(comps)[c] == comps[#[trigger] m[c]],
        forall|c: int| 0 <= c < m.len() ==> comps[#[trigger] m[c]].len() > 1,
        forall|c: int, d: int| 0 <= c < d < m.len() ==> #[trigger] m[c] < #[trigger] m[d],
        forall|x: int|
            0 <= x < comps.len() && #[trigger] comps[x].len() > 1 ==> exists|c: int|
                0 <= c < m.len() && m[c] == x,
    decreases comps.len(),
{
    if comps.len() == 0 {
        Seq::empty()
    } else {
        let rest = comps.drop_last();
        let m0 = long_component_positions(rest);
        let last = comps.len() - 1;
        if comps.last().len() > 1 {
            let m = m0.push(last);
            assert forall|x: int| 0 <= x < comps.len() && #[trigger] comps[x].len() > 1 implies exists|c: int|
                0 <= c < m.len() && m[c] == x by {
                if x == last {
                    assert(m[m0.len() as int] == x);
                } else {
                    assert(rest[x] == comps[x]);
                    let c = choose|c: int| 0 <= c < m0.len() && m0[c] == x;
                    assert(m[c] == x);
                }
            }
            m
        } else {
            assert forall|x: int| 0 <= x < comps.len() && #[trigger] comps[x].len() > 1 implies exists|c: int|
                0 <= c < m0.len() && m0[c] == x by {
                assert(rest[x] == comps[x]);
            }
            m0
        }
    }
}

proof fn lemma_reaches_self(edges: Seq<(int, int)>, v: int)
    ensures
        reaches(edges, v, v),
{
    let p = seq![v];
    assert(is_path(edges, p) && p[0] == v && p.last() == v);
}

/// The long components of a strongly connected partition form a cycle report.
proof fn lemma_cycle_report(n: nat, edges: Seq<(int, int)>, comps: Seq<Seq<int>>)
    requires
        is_scc_partition(n, edges, comps),
    ensures
        is_cycle_report(n, edges, long_components(comps)),
{
    let long = long_components(comps);
    let m = long_component_positions(comps);
    assert forall|c: int| 0 <= c < long.len() implies #[trigger] long[c].len() >= 2 by {
        assert(long[c] == comps[m[c]]);
    }
    assert forall|c: int| 0 <= c < long.len() implies #[trigger] long[c].no_duplicates() by {
        assert(long[c] == comps[m[c]]);
    }
    assert forall|c: int, k: int| 0 <= c < long.len() && 0 <= k < long[c].len() implies 0
        <= #[trigger] long[c][k] < n by {
        assert(long[c] == comps[m[c]]);
        assert(comps[m[c]][k] == long[c][k]);
    }
    assert forall|c: int, k: int, l: int|
        0 <= c < long.len() && 0 <= k < long[c].len() && 0 <= l < long[c].len() implies mutually_reachable(
        edges,
        #[trigger] long[c][k],
        #[trigger] long[c][l],
    ) by {
        assert(long[c] == comps[m[c]]);
        assert(comps[m[c]][k] == long[c][k]);
        assert(comps[m[c]][l] == long[c][l]);
    }
    assert forall|c: int, k: int, v: int|
        0 <= c < long.len() && 0 <= k < long[c].len() && 0 <= v < n && #[trigger] mutually_reachable(
            edges,
            long[c][k],
            v,
        ) implies long[c].contains(v) by {
        assert(long[c] == comps[m[c]]);
        assert(comps[m[c]][k] == long[c][k]);
        assert(listed(comps, v));
        let (d, l) = choose|d: int, l: int| 0 <= d < comps.len() && 0 <= l < comps[d].len() && comps[d][l] == v;
        assert(mutually_reachable(edges, comps[m[c]][k], comps[d][l]));
        assert(long[c][l] == v);
    }
    assert forall|c: int, d: int, k: int, l: int|
        0 <= c < long.len() && 0 <= d < long.len() && c != d && 0 <= k < long[c].len() && 0 <= l
            < long[d].len() implies #[trigger] long[c][k] != #[trigger] long[d][l] by {
        assert(long[c] == comps[m[c]]);
        assert(long[d] == comps[m[d]]);
        assert(m[c] != m[d]) by {
            if c < d {
                assert(m[c] < m[d]);
            } else {
                assert(m[d] < m[c]);
            }
        }
        if long[c][k] == long[d][l] {
            let v = long[c][k];
            lemma_reaches_self(edges, v);
            assert(comps[m[c]][k] == v);
            assert(comps[m[d]][l] == v);
            assert(mutually_reachable(edges, comps[m[c]][k], comps[m[d]][l]));
        }
    }
    assert forall|v: int, w: int|
        0 <= v < n && 0 <= w < n && v != w && #[trigger] mutually_reachable(edges, v, w) implies listed(
        long,
        v,
    ) by {
        assert(listed(comps, v));
        assert(listed(comps, w));
        let (c0, k) = choose|c: int, k: int| 0 <= c < comps.len() && 0 <= k < comps[c].len() && comps[c][k] == v;
        let (d0, l) = choose|c: int, k: int| 0 <= c < comps.len() && 0 <= k < comps[c].len() && comps[c][k] == w;
        assert(mutually_reachable(edges, comps[c0][k], comps[d0][l]));
        assert(c0 == d0);
        assert(comps[c0].len() > 1) by {
            if comps[c0].len() <= 1 {
                assert(k == 0 && l == 0);
            }
        }
        let c = choose|c: int| 0 <= c < m.len() && m[c] == c0;
        assert(long[c] == comps[c0]);
        assert(long[c][k] == v);
    }
}

/// Every package comes after each other package of the sequence that it depends on.
pub open spec fn dependencies_first(s: Seq<PackageView>) -> bool {
    forall|a: int, b: int| #[trigger] depends_on(s, b, a) ==> a < b
}

/// The views of lists of strings.
pub open spec fn string_lists_view(v: Seq<Vec<String>>) -> Seq<Seq<Seq<char>>> {
    v.map_values(|c: Vec<String>| strings_view(c@))
}

proof fn lemma_path_step(edges: Seq<(int, int)>, p: Seq<int>, k: int)
    requires
        is_path(edges, p),
        0 <= k < p.len() - 1,
    ensures
        edges.contains((p[k], p[k + 1])),
{
}

/// In a dependency graph with a cycle, two different packages reach each other.
proof fn lemma_cycle_has_pair(pkgs: Seq<PackageView>) -> (pair: (int, int))
    requires
        names_unique(pkgs),
        has_cycle(dependency_edges(pkgs)),
    ensures
        0 <= pair.0 < pkgs.len(),
        0 <= pair.1 < pkgs.len(),
        pair.0 != pair.1,
        mutually_reachable(dependency_edges(pkgs), pair.0, pair.1),
{
    let edges = dependency_edges(pkgs);
    let p = choose|p: Seq<int>| is_path(edges, p) && p.len() >= 2 && p[0] == p.last();
    let v = p[0];
    let w = p[1];
    lemma_path_step(edges, p, 0);
    lemma_dependency_edge(pkgs, v, w);
    let step = seq![v, w];
    assert(is_path(edges, step) && step[0] == v && step.last() == w);
    let back = p.subrange(1, p.len() as int);
    assert forall|k: int| 0 <= k < back.len() - 1 implies #[trigger] edges.contains((back[k], back[k + 1])) by {
        lemma_path_step(edges, p, k + 1);
    }
    assert(is_path(edges, back) && back[0] == w && back.last() == v);
    (v, w)
}

/// The names of the cyclic components of the graph `g` built from the workspace.
fn cycle_names(workspace: &CargoWorkspace, g: &HandleGraph) -> (r: Vec<Vec<String>>)
    requires
        workspace.wf(),
        graph_node_count(*g) == workspace.packages@.len(),
        graph_edges(*g) == dependency_edges(workspace.packages_view()),
    ensures
        string_lists_view(r@) == cycle_chains(workspace.packages_view()),
        is_cycle_report(
            workspace.packages@.len(),
            dependency_edges(workspace.packages_view()),
            cycle_components(workspace.packages_view()),
        ),
{
    let ghost pkgs = workspace.packages_view();
    let ghost n = workspace.packages@.len();
    let comps = scc_handles(g);
    let ghost cv = handle_lists_view(comps@);
    proof {
        lemma_cycle_report(n, dependency_edges(pkgs), cv);
    }
    let mut r: Vec<Vec<String>> = Vec::new();
    for c in 0..comps.len()
        invariant
            pkgs == workspace.packages_view(),
            n == workspace.packages@.len(),
            cv == handle_lists_view(comps@),
            cv == scc_list(n, dependency_edges(pkgs)),
            is_scc_partition(n, dependency_edges(pkgs), cv),
            string_lists_view(r@) == named_components(pkgs, long_components(cv.take(c as int))),
    {
        let comp = &comps[c];
        let ghost cc = cv[c as int];
        assert(cc == handles_view(comp@));
        assert(cv.take(c + 1).drop_last() =~= cv.take(c as int));
        if comp.len() > 1 {
            let mut names: Vec<String> = Vec::new();
            for k in 0..comp.len()
                invariant
                    pkgs == workspace.packages_view(),
                    n == workspace.packages@.len(),
                    cv == handle_lists_view(comps@),
                    is_scc_partition(n, dependency_edges(pkgs), cv),
                    0 <= c < cv.len(),
                    comp == &comps@[c as int],
                    cc == cv[c as int],
                    cc == handles_view(comp@),
                    strings_view(names@) == component_names(pkgs, cc.take(k as int)),
            {
                assert(cc[k as int] == comp@[k as int]);
                assert(0 <= cc[k as int] < n);
                let idx = comp[k];
                let name = workspace.packages[idx].name.clone();
                let ghost before = names@;
                names.push(name);
                assert(names@ == before.push(name));
                assert(name@ == pkgs[cc[k as int]].name);
                let ghost lhs = strings_view(names@);
                let ghost rhs = component_names(pkgs, cc.take(k + 1));
                assert(cc.len() == comp.len());
                assert(strings_view(before).len() == before.len());
                assert(strings_view(before) == component_names(pkgs, cc.take(k as int)));
                assert(component_names(pkgs, cc.take(k as int)).len() == cc.take(k as int).len());
                assert(cc.take(k as int).len() == k);
                assert(before.len() == k);
                assert(names@.len() == k + 1);
                assert(lhs.len() == k + 1);
                assert(cc.take(k + 1).len() == k + 1);
                assert(rhs.len() == k + 1);
                assert forall|j: int| 0 <= j < lhs.len() implies lhs[j] == rhs[j] by {
                    assert(cc.take(k + 1)[j] == cc[j]);
                    if j < k {
                        assert(names@[j] == before[j]);
                        assert(strings_view(before)[j] == component_names(pkgs, cc.take(k as int))[j]);
                        assert(cc.take(k as int)[j] == cc[j]);
                    }
                }
                assert(lhs =~= rhs);
            }
            assert(cc.take(comp.len() as int) =~= cc);
            let ghost before = r@;
            let ghost nv = strings_view(names@);
            r.push(names);
            assert(cv.take(c + 1).last() == cc);
            assert(cc.len() > 1);
            assert(long_components(cv.take(c + 1)) == long_components(cv.take(c as int)).push(cc));
            assert(r@ == before.push(names));
            proof {
                lemma_string_lists_view_push(before, names);
            }
            proof {
                lemma_named_components_push(pkgs, long_components(cv.take(c as int)), cc);
            }
        } else {
            assert(long_components(cv.take(c + 1)) == long_components(cv.take(c as int)));
        }
    }
    assert(cv.take(comps.len() as int) =~= cv);
    r
}

proof fn lemma_string_lists_view_push(s: Seq<Vec<String>>, x: Vec<String>)
    ensures
        string_lists_view(s.push(x)) == string_lists_view(s).push(strings_view(x@)),
{
    assert(string_lists_view(s.push(x)) =~= string_lists_view(s).push(strings_view(x@)));
}

proof fn lemma_strings_view_push(s: Seq<String>, x: String)
    ensures
        strings_view(s.push(x)) == strings_view(s).push(x@),
{
    assert(strings_view(s.push(x)) =~= strings_view(s).push(x@));
}

proof fn lemma_packages_view_push(s: Seq<CargoPackage>, x: CargoPackage)
    ensures
        packages_view(s.push(x)) == packages_view(s).push(x@),
{
    assert(packages_view(s.push(x)) =~= packages_view(s).push(x@));
}

proof fn lemma_named_components_push(pkgs: Seq<PackageView>, s: Seq<Seq<int>>, x: Seq<int>)
    ensures
        named_components(pkgs, s.push(x)) == named_components(pkgs, s).push(component_names(pkgs, x)),
{
    assert(named_components(pkgs, s.push(x)) =~= named_components(pkgs, s).push(
        component_names(pkgs, x),
    ));
}

proof fn lemma_chain_texts_push(s: Seq<Seq<Seq<char>>>, x: Seq<Seq<char>>)
    ensures
        chain_texts(s.push(x)) == chain_texts(s).push(chain_text(x)),
{
    assert(chain_texts(s.push(x)) =~= chain_texts(s).push(chain_text(x)));
}

proof fn lemma_packages_at_push(pkgs: Seq<PackageView>, s: Seq<int>, x: int)
    ensures
        packages_at(pkgs, s.push(x)) == packages_at(pkgs, s).push(pkgs[x]),
{
    assert(packages_at(pkgs, s.push(x)) =~= packages_at(pkgs, s).push(pkgs[x]));
}

/// A component's names as a chain back to its first name: `A -> B -> A`.
fn chain_string(names: &Vec<String>) -> (r: String)
    requires
        names.len() > 0,
    ensures
        r@ == chain_text(strings_view(names@)),
{
    let mut parts = copy_strings(names);
    parts.push(names[0].clone());
    assert(strings_view(parts@) =~= strings_view(names@).push(strings_view(names@)[0]));
    join_strings(&parts, " -> ")
}

/// The text that reports the cyclic components.
fn cycles_string(chains: &Vec<Vec<String>>) -> (r: String)
    requires
        forall|c: int| 0 <= c < chains.len() ==> #[trigger] chains@[c].len() > 0,
    ensures
        r@ == cycles_text(string_lists_view(chains@)),
{
    let ghost views = string_lists_view(chains@);
    let mut parts: Vec<String> = Vec::new();
    for c in 0..chains.len()
        invariant
            views == string_lists_view(chains@),
            forall|c: int| 0 <= c < chains.len() ==> #[trigger] chains@[c].len() > 0,
            strings_view(parts@) == chain_texts(views.take(c as int)),
    {
        let ghost before = parts@;
        let t = chain_string(&chains[c]);
        parts.push(t);
        assert(parts@ == before.push(t));
        assert(views[c as int] == strings_view(chains@[c as int]@));
        assert(views.take(c + 1) =~= views.take(c as int).push(views[c as int]));
        proof {
            lemma_strings_view_push(before, t);
        }
        proof {
            lemma_chain_texts_push(views.take(c as int), views[c as int]);
        }
    }
    assert(views.take(chains.len() as int) =~= views);
    let mut r = "Circular dependencies detected: ".to_owned();
    let body = join_strings(&parts, ", ");
    r.append(body.as_str());
    r
}

/// The cyclic parts of the workspace's dependency graph: for each strongly connected
/// component of more than one package, the names of its packages.
pub fn find_cycles(workspace: &CargoWorkspace) -> (r: Vec<Vec<String>>)
    requires
        workspace.wf(),
    ensures
        string_lists_view(r@) == cycle_chains(workspace.packages_view()),
        is_cycle_report(
            workspace.packages@.len(),
            dependency_edges(workspace.packages_view()),
            cycle_components(workspace.packages_view()),
        ),
{
    let g = build_dependency_graph(workspace);
    cycle_names(workspace, &g)
}

/// Orders the workspace's packages so that each comes after the packages it depends on,
/// or reports the cyclic components that make such an order impossible.
pub fn topological_sort(workspace: &CargoWorkspace) -> (r: Result<Vec<CargoPackage>, CargoError>)
    requires
        workspace.wf(),
    ensures
        r is Ok <==> !has_cycle(dependency_edges(workspace.packages_view())),
        r matches Ok(v) ==> {
            &&& packages_view(v@) == release_order(workspace.packages_view())
            &&& is_permutation(
                workspace.packages@.len(),
                toposort_order(workspace.packages@.len(), dependency_edges(workspace.packages_view())),
            )
            &&& dependencies_first(packages_view(v@))
        },
        r matches Err(e) ==> {
            &&& cycle_components(workspace.packages_view()).len() > 0
            &&& is_cycle_report(
                workspace.packages@.len(),
                dependency_edges(workspace.packages_view()),
                cycle_components(workspace.packages_view()),
            )
            &&& e matches CargoError::CircularDependency(m) && m@ == cycles_text(
                cycle_chains(workspace.packages_view()),
            )
        },
{
    let ghost pkgs = workspace.packages_view();
    let ghost n = workspace.packages@.len();
    let ghost edges = dependency_edges(pkgs);
    let g = build_dependency_graph(workspace);
    match toposort_handles(&g) {
        Some(order) => {
            let ghost ov = handles_view(order@);
            let mut sorted: Vec<CargoPackage> = Vec::new();
            for i in 0..order.len()
                invariant
                    pkgs == workspace.packages_view(),
                    n == workspace.packages@.len(),
                    ov == handles_view(order@),
                    is_topological_order(n, edges, ov),
                    packages_view(sorted@) == packages_at(pkgs, ov.take(i as int)),
            {
                assert(0 <= ov[i as int] < n);
                let k = order[i];
                let p = workspace.packages[k].copy();
                let ghost before = sorted@;
                sorted.push(p);
                assert(sorted@ == before.push(p));
                assert(ov[i as int] == k as int);
                assert(ov.take(i + 1) =~= ov.take(i as int).push(k as int));
                proof {
                    lemma_packages_view_push(before, p);
                }
                proof {
                    lemma_packages_at_push(pkgs, ov.take(i as int), k as int);
                }
            }
            assert(ov.take(order.len() as int) =~= ov);
            let ghost sv = packages_view(sorted@);
            assert forall|a: int, b: int| #[trigger] depends_on(sv, b, a) implies a < b by {
                assert(sv[a] == pkgs[ov[a]]);
                assert(sv[b] == pkgs[ov[b]]);
                assert(ov[a] != ov[b]);
                lemma_dependency_edge(pkgs, ov[a], ov[b]);
            }
            Ok(sorted)
        },
        None => {
            let chains = cycle_names(workspace, &g);
            proof {
                let pair = lemma_cycle_has_pair(pkgs);
                assert(mutually_reachable(edges, pair.0, pair.1));
                assert(listed(cycle_components(pkgs), pair.0));
            }
            assert forall|c: int| 0 <= c < chains.len() implies #[trigger] chains@[c].len() > 0 by {
                assert(cycle_chains(pkgs).len() == cycle_components(pkgs).len());
                assert(string_lists_view(chains@)[c] == cycle_chains(pkgs)[c]);
                assert(cycle_components(pkgs)[c].len() >= 2);
                assert(strings_view(chains@[c]@).len() == chains@[c].len());
            }
            Err(CargoError::CircularDependency(cycles_string(&chains)))
        },
    }
}

/// The release order and the cycle report depend on the workspace's packages alone:
/// sorting the same packages again gives the same result.
pub proof fn lemma_sort_deterministic(a: Seq<PackageView>, b: Seq<PackageView>)
    requires
        a == b,
    ensures
        release_order(a) == release_order(b),
        cycle_chains(a) == cycle_chains(b),
{
}

/// The releasable packages, in their order.
pub open spec fn releasable_only(s: Seq<PackageView>) -> Seq<PackageView>
    decreases s.len(),
{
    if s.len() == 0 {
        Seq::empty()
    } else if s.last().publish {
        releasable_only(s.drop_last()).push(s.last())
    } else {
        releasable_only(s.drop_last())
    }
}

/// `r` is the subsequence of `s` at the increasing positions `m`, and those positions
/// are exactly the ones that hold a releasable package.
pub open spec fn keeps_releasable_in_order(s: Seq<PackageView>, r: Seq<PackageView>, m: Seq<int>) -> bool {
    &&& m.len() == r.len()
    &&& forall|k: int| 0 <= k < m.len() ==> 0 <= #[trigger] m[k] < s.len()
    &&& forall|k: int| 0 <= k < m.len() ==> r[k] == s[#[trigger] m[k]]
    &&& forall|k: int, l: int| 0 <= k < l < m.len() ==> #[trigger] m[k] < #[trigger] m[l]
    &&& forall|i: int|
        0 <= i < s.len() ==> (#[trigger] s[i].publish <==> exists|k: int| 0 <= k < m.len() && m[k] == i)
}

proof fn releasable_positions(s: Seq<PackageView>) -> (m: Seq<int>)
    ensures
        keeps_releasable_in_order(s, releasable_only(s), m),
    decreases s.len(),
{
    if s.len() == 0 {
        Seq::empty()
    } else {
        let rest = s.drop_last();
        let m0 = releasable_positions(rest);
        let last = s.len() - 1;
        let r = releasable_only(s);
        if s.last().publish {
            let m = m0.push(last);
            assert forall|i: int| 0 <= i < s.len() implies (#[trigger] s[i].publish <==> exists|k: int|
                0 <= k < m.len() && m[k] == i) by {
                if i < last {
                    assert(rest[i] == s[i]);
                    if s[i].publish {
                        let k = choose|k: int| 0 <= k < m0.len() && m0[k] == i;
                        assert(m[k] == i);
                    }
                    if exists|k: int| 0 <= k < m.len() && m[k] == i {
                        let k = choose|k: int| 0 <= k < m.len() && m[k] == i;
                        assert(k < m0.len());
                        assert(m0[k] == i);
                    }
                } else {
                    assert(m[m0.len() as int] == i);
                }
            }
            assert forall|k: int| 0 <= k < m.len() implies r[k] == s[#[trigger] m[k]] by {
                if k < m0.len() {
                    assert(rest[m0[k]] == s[m0[k]]);
                }
            }
            m
        } else {
            assert forall|i: int| 0 <= i < s.len() implies (#[trigger] s[i].publish <==> exists|k: int|
                0 <= k < m0.len() && m0[k] == i) by {
                if i < last {
                    assert(rest[i] == s[i]);
                }
            }
            assert forall|k: int| 0 <= k < m0.len() implies r[k] == s[#[trigger] m0[k]] by {
                assert(rest[m0[k]] == s[m0[k]]);
            }
            m0
        }
    }
}

/// Filtering keeps the relative order of the packages and drops exactly those that
/// are not releasable.
pub proof fn lemma_filter_releasable(s: Seq<PackageView>)
    ensures
        exists|m: Seq<int>| keeps_releasable_in_order(s, releasable_only(s), m),
        forall|k: int| 0 <= k < releasable_only(s).len() ==> #[trigger] releasable_only(s)[k].publish,
{
    let m = releasable_positions(s);
    assert forall|k: int| 0 <= k < releasable_only(s).len() implies #[trigger] releasable_only(s)[k].publish by {
        assert(releasable_only(s)[k] == s[m[k]]);
        assert(exists|j: int| 0 <= j < m.len() && m[j] == m[k]);
    }
}

/// The packages that are candidates for release, in their order.
pub fn filter_publishable_packages(packages: Vec<CargoPackage>) -> (r: Vec<CargoPackage>)
    ensures
        packages_view(r@) == releasable_only(packages_view(packages@)),
{
    let ghost s = packages_view(packages@);
    let mut r: Vec<CargoPackage> = Vec::new();
    for i in 0..packages.len()
        invariant
            s == packages_view(packages@),
            packages_view(r@) == releasable_only(s.take(i as int)),
    {
        assert(s.take(i + 1).drop_last() =~= s.take(i as int));
        assert(s.take(i + 1).last() == packages@[i as int]@);
        if packages[i].publish {
            let p = packages[i].copy();
            let ghost before = r@;
            r.push(p);
            proof {
                lemma_packages_view_push(before, p);
            }
        }
    }
    assert(s.take(packages.len() as int) =~= s);
    r
}

} // verus!
