//! Register allocation: variables whose lifetimes do not overlap share a register, by
//! colouring the interference graph of the variables.
use std::collections::HashMap;

use petgraph::stable_graph::StableGraph;
use petgraph::Undirected;
use vstd::prelude::*;

use crate::lexer::error::{MypsLexerError, MypsLexerResult};

verus! {

broadcast use vstd::std_specs::hash::group_hash_axioms;

#[verifier::external_type_specification]
#[verifier::external_body]
#[verifier::reject_recursive_types(N)]
#[verifier::reject_recursive_types(E)]
#[verifier::reject_recursive_types(Ty)]
#[verifier::reject_recursive_types(Ix)]
pub struct ExStableGraph<N, E, Ty, Ix>(StableGraph<N, E, Ty, Ix>);

#[verifier::external_type_specification]
#[verifier::external_body]
pub struct ExUndirected(Undirected);

/// The interference graph: a node per variable, weighted by the variable's number.
pub type InterGraph = StableGraph<usize, (), Undirected, usize>;

/// The colouring graph: a node per coloured variable, weighted by the variable and its colour.
pub type ColorGraph = StableGraph<(usize, usize), (), Undirected, usize>;

/// The nodes of an interference graph: node index to weight.
pub uninterp spec fn inter_nodes(g: InterGraph) -> Map<usize, usize>;

/// The edges of an interference graph, each in both directions.
pub uninterp spec fn inter_edges(g: InterGraph) -> Set<(usize, usize)>;

/// The nodes of a colouring graph: node index to weight.
pub uninterp spec fn color_nodes(g: ColorGraph) -> Map<usize, (usize, usize)>;

/// The edges of a colouring graph, each in both directions.
pub uninterp spec fn color_edges(g: ColorGraph) -> Set<(usize, usize)>;

/// An empty interference graph (`StableGraph::default`).
#[verifier::external_body]
fn inter_new() -> (g: InterGraph)
    ensures
        inter_nodes(g).dom().is_empty(),
        inter_edges(g).is_empty(),
{
    InterGraph::default()
}

/// `StableGraph::add_node`: the weight gets a node index that no node has; the edges stay.
#[verifier::external_body]
fn inter_add_node(g: &mut InterGraph, weight: usize) -> (i: usize)
    ensures
        !inter_nodes(*old(g)).contains_key(i),
        inter_nodes(*final(g)) == inter_nodes(*old(g)).insert(i, weight),
        inter_edges(*final(g)) == inter_edges(*old(g)),
{
    g.add_node(weight).index()
}

/// `StableGraph::add_edge` on an undirected graph, for two distinct nodes not joined yet
/// (it panics where a node is missing): the nodes stay, and the edge joins them both ways.
#[verifier::external_body]
fn inter_add_edge(g: &mut InterGraph, a: usize, b: usize)
    requires
        inter_nodes(*old(g)).contains_key(a),
        inter_nodes(*old(g)).contains_key(b),
        a != b,
        !inter_edges(*old(g)).contains((a, b)),
    ensures
        inter_nodes(*final(g)) == inter_nodes(*old(g)),
        inter_edges(*final(g)) == inter_edges(*old(g)).insert((a, b)).insert((b, a)),
{
    g.add_edge(petgraph::graph::NodeIndex::new(a), petgraph::graph::NodeIndex::new(b), ());
}

/// `StableGraph::node_count`: the number of nodes.
#[verifier::external_body]
fn inter_node_count(g: &InterGraph) -> (n: usize)
    ensures
        n == inter_nodes(*g).dom().len(),
{
    g.node_count()
}

/// `StableGraph::node_indices`, collected: each node index once, in increasing order.
#[verifier::external_body]
fn inter_node_indices(g: &InterGraph) -> (v: Vec<usize>)
    ensures
        v@.to_set() == inter_nodes(*g).dom(),
        forall|i: int, j: int| 0 <= i < j < v@.len() ==> v@[i] < v@[j],
{
    g.node_indices().map(|i| i.index()).collect()
}

/// `StableGraph::neighbors` on an undirected graph, collected: the nodes joined to `a`, each
/// once for each edge that joins it.
#[verifier::external_body]
fn inter_neighbors(g: &InterGraph, a: usize) -> (v: Vec<usize>)
    ensures
        forall|b: usize| #[trigger] v@.contains(b) <==> inter_edges(*g).contains((a, b)),
{
    g.neighbors(petgraph::graph::NodeIndex::new(a)).map(|i| i.index()).collect()
}

/// The nodes joined to `a`, each once.
fn distinct_neighbors(g: &InterGraph, a: usize) -> (v: Vec<usize>)
    ensures
        v@.no_duplicates(),
        forall|b: usize| #[trigger] v@.contains(b) <==> inter_edges(*g).contains((a, b)),
{
    let all = inter_neighbors(g, a);
    let mut v: Vec<usize> = Vec::new();
    let mut i: usize = 0;
    while i < all.len()
        invariant
            i <= all@.len(),
            v@.no_duplicates(),
            forall|b: usize| #[trigger] v@.contains(b) <==> all@.take(i as int).contains(b),
        decreases all.len() - i,
    {
        let x = all[i];
        proof {
            assert(all@.take(i + 1) == all@.take(i as int).push(x));
        }
        let ghost v0 = v@;
        if !contains_usize(&v, x) {
            v.push(x);
        }
        proof {
            broadcast use vstd::seq_lib::group_seq_properties;
            let t = all@.take(i + 1);
            assert(t == all@.take(i as int).push(x));
            if v@ != v0 {
                assert(v@ == v0.push(x));
            }
            assert forall|b: usize| #[trigger] v@.contains(b) <==> t.contains(b) by {
                assert(t.contains(b) <==> all@.take(i as int).contains(b) || b == x);
                if v@ != v0 {
                    assert(v@.contains(b) <==> v0.contains(b) || b == x);
                }
            }
        }
        i = i + 1;
    }
    proof {
        assert(all@.take(all@.len() as int) == all@);
    }
    v
}

/// `StableGraph::node_weight`: the weight of node `a`, if there is one.
#[verifier::external_body]
fn inter_node_weight(g: &InterGraph, a: usize) -> (w: Option<usize>)
    ensures
        w == if inter_nodes(*g).contains_key(a) {
            Some(inter_nodes(*g)[a])
        } else {
            None
        },
{
    g.node_weight(petgraph::graph::NodeIndex::new(a)).copied()
}

/// `StableGraph::remove_node`: node `a` and every edge at it go; the other indices stay.
#[verifier::external_body]
fn inter_remove_node(g: &mut InterGraph, a: usize) -> (w: Option<usize>)
    ensures
        w == if inter_nodes(*old(g)).contains_key(a) {
            Some(inter_nodes(*old(g))[a])
        } else {
            None
        },
        inter_nodes(*final(g)) == inter_nodes(*old(g)).remove(a),
        inter_edges(*final(g)) == inter_edges(*old(g)).filter(|e: (usize, usize)| e.0 != a && e.1 != a),
{
    g.remove_node(petgraph::graph::NodeIndex::new(a))
}

/// `StableGraph::clone`: the same nodes, at the same indices, and the same edges.
#[verifier::external_body]
fn inter_clone(g: &InterGraph) -> (c: InterGraph)
    ensures
        inter_nodes(c) == inter_nodes(*g),
        inter_edges(c) == inter_edges(*g),
{
    g.clone()
}

/// An empty colouring graph (`StableGraph::with_capacity`).
#[verifier::external_body]
fn color_with_capacity(nodes: usize, edges: usize) -> (g: ColorGraph)
    ensures
        color_nodes(g).dom().is_empty(),
        color_edges(g).is_empty(),
{
    ColorGraph::with_capacity(nodes, edges)
}

/// `StableGraph::add_node`: the weight gets a node index that no node has; the edges stay.
#[verifier::external_body]
fn color_add_node(g: &mut ColorGraph, weight: (usize, usize)) -> (i: usize)
    ensures
        !color_nodes(*old(g)).contains_key(i),
        color_nodes(*final(g)) == color_nodes(*old(g)).insert(i, weight),
        color_edges(*final(g)) == color_edges(*old(g)),
{
    g.add_node(weight).index()
}

/// `StableGraph::add_edge` on an undirected graph (it panics where a node is missing): the
/// nodes stay, and the edge joins them both ways.
#[verifier::external_body]
fn color_add_edge(g: &mut ColorGraph, a: usize, b: usize)
    requires
        color_nodes(*old(g)).contains_key(a),
        color_nodes(*old(g)).contains_key(b),
    ensures
        color_nodes(*final(g)) == color_nodes(*old(g)),
        color_edges(*final(g)) == color_edges(*old(g)).insert((a, b)).insert((b, a)),
{
    g.add_edge(petgraph::graph::NodeIndex::new(a), petgraph::graph::NodeIndex::new(b), ());
}

/// `StableGraph::node_weight`: the weight of node `a`, if there is one.
#[verifier::external_body]
fn color_node_weight(g: &ColorGraph, a: usize) -> (w: Option<(usize, usize)>)
    ensures
        w == if color_nodes(*g).contains_key(a) {
            Some(color_nodes(*g)[a])
        } else {
            None
        },
{
    g.node_weight(petgraph::graph::NodeIndex::new(a)).copied()
}

/// `StableGraph::node_indices`, collected: each node index once, in increasing order.
#[verifier::external_body]
fn color_node_indices(g: &ColorGraph) -> (v: Vec<usize>)
    ensures
        v@.to_set() == color_nodes(*g).dom(),
        forall|i: int, j: int| 0 <= i < j < v@.len() ==> v@[i] < v@[j],
{
    g.node_indices().map(|i| i.index()).collect()
}

/// The edges of an interference graph join two distinct nodes of it, both ways, and it has
/// finitely many nodes.
pub open spec fn graph_ok(g: InterGraph) -> bool {
    &&& inter_nodes(g).dom().finite()
    &&& forall|e: (usize, usize)| #[trigger] inter_edges(g).contains(e) ==> e.0 != e.1
        && inter_nodes(g).contains_key(e.0) && inter_nodes(g).contains_key(e.1) && inter_edges(g).contains((e.1, e.0))
}

/// A node has fewer neighbours than the graph has nodes.
proof fn lemma_degree_bound(g: InterGraph, id: usize, nb: Seq<usize>)
    requires
        graph_ok(g),
        inter_nodes(g).contains_key(id),
        nb.no_duplicates(),
        forall|b: usize| #[trigger] nb.contains(b) <==> inter_edges(g).contains((id, b)),
    ensures
        nb.len() < inter_nodes(g).dom().len(),
{
    let dom = inter_nodes(g).dom();
    nb.unique_seq_to_set();
    assert forall|b: usize| nb.to_set().contains(b) implies dom.remove(id).contains(b) by {
        assert(nb.contains(b));
        assert(inter_edges(g).contains((id, b)));
    }
    vstd::set_lib::lemma_len_subset(nb.to_set(), dom.remove(id));
}

/// `stack` is a simplification of `g0` for `n` registers, removing its nodes in `order`: each
/// entry holds the variable of a node and the variables of its neighbours that were still in
/// the graph (fewer than `n`), which are the variables of later entries.
pub open spec fn simplified(g0: InterGraph, n: int, stack: Seq<(usize, Vec<usize>)>, order: Seq<usize>) -> bool {
    &&& order.len() == stack.len()
    &&& order.no_duplicates()
    &&& order.to_set() == inter_nodes(g0).dom()
    &&& forall|k: int| 0 <= k < stack.len() ==> (#[trigger] stack[k]).0 == inter_nodes(g0)[order[k]]
        && stack[k].1@.len() < n
    &&& forall|k: int, t: usize| 0 <= k < stack.len() && #[trigger] stack[k].1@.contains(t) ==> exists|k2: int|
        k < k2 < stack.len() && (#[trigger] stack[k2]).0 == t
    &&& forall|k: int, t: usize| 0 <= k < stack.len() && #[trigger] stack[k].1@.contains(t) ==> exists|x: usize|
        #[trigger] inter_edges(g0).contains((order[k], x)) && t == inter_nodes(g0)[x]
    &&& forall|k: int, x: usize| 0 <= k < stack.len() && #[trigger] inter_edges(g0).contains((order[k], x))
        && !order.take(k + 1).contains(x) ==> stack[k].1@.contains(inter_nodes(g0)[x])
}

/// `stack` is a simplification of `g0` for `n` registers, in some order.
pub open spec fn simplifies(g0: InterGraph, n: int, stack: Seq<(usize, Vec<usize>)>) -> bool {
    exists|order: Seq<usize>| simplified(g0, n, stack, order)
}

/// The nodes joined to `a`.
pub open spec fn neighbor_set(g: InterGraph, a: usize) -> Set<usize> {
    Set::new(|b: usize| inter_edges(g).contains((a, b)))
}

/// `g` has a core for `n`: some nodes, at least one, each joined to `n` or more of them,
/// which no simplification for `n` registers can remove.
pub open spec fn has_core(g: InterGraph, n: int) -> bool {
    exists|c: Set<usize>| #![trigger c.subset_of(inter_nodes(g).dom())]
        c.subset_of(inter_nodes(g).dom()) && c.len() > 0 && forall|x: usize| #[trigger] c.contains(x) ==> neighbor_set(
            g,
            x,
        ).intersect(c).len() >= n
}

/// Every node of `g` has fewer than `n` neighbours.
pub open spec fn degree_below(g: InterGraph, n: int) -> bool {
    forall|id: usize| #[trigger] inter_nodes(g).contains_key(id) ==> neighbor_set(g, id).len() < n
}

/// Simplifies the interference graph for `n` registers: a node with fewer than `n`
/// neighbours (the first in index order) is removed, with the variables of its neighbours,
/// until no node is left; none if at some point every node has `n` neighbours or more.
fn try_n_simplify(n: usize, inter_graph: InterGraph) -> (r: Option<Vec<(usize, Vec<usize>)>>)
    requires
        graph_ok(inter_graph),
    ensures
        n >= inter_nodes(inter_graph).dom().len() ==> r is Some,
        degree_below(inter_graph, n as int) ==> r is Some,
        r is None ==> has_core(inter_graph, n as int),
        r matches Some(stack) ==> simplifies(inter_graph, n as int, stack@),
{
    let ghost g0 = inter_graph;
    let mut g = inter_graph;
    let mut stack: Vec<(usize, Vec<usize>)> = Vec::new();
    let ghost mut removed: Seq<usize> = Seq::empty();
    let ghost start_len = inter_nodes(g).dom().len();
    while inter_node_count(&g) > 0
        invariant
            g0 == inter_graph,
            graph_ok(g0),
            graph_ok(g),
            inter_nodes(g).dom().len() <= start_len,
            start_len == inter_nodes(g0).dom().len(),
            forall|x: usize| #[trigger] inter_nodes(g).contains_key(x) <==> inter_nodes(g0).contains_key(x) && !removed.contains(x),
            forall|x: usize| #[trigger] inter_nodes(g).contains_key(x) ==> inter_nodes(g)[x] == inter_nodes(g0)[x],
            forall|e: (usize, usize)| #[trigger] inter_edges(g).contains(e) <==> inter_edges(g0).contains(e) && !removed.contains(e.0) && !removed.contains(e.1),
            removed.len() == stack@.len(),
            removed.no_duplicates(),
            forall|k: int| 0 <= k < removed.len() ==> inter_nodes(g0).contains_key(#[trigger] removed[k]),
            forall|k: int| 0 <= k < stack@.len() ==> (#[trigger] stack@[k]).0 == inter_nodes(g0)[removed[k]]
                && stack@[k].1@.len() < n,
            forall|k: int, t: usize| 0 <= k < stack@.len() && #[trigger] stack@[k].1@.contains(t) ==> exists|x: usize|
                #[trigger] inter_edges(g0).contains((removed[k], x)) && !removed.take(k + 1).contains(x) && t == inter_nodes(g0)[x],
            forall|k: int, x: usize| 0 <= k < stack@.len() && #[trigger] inter_edges(g0).contains((removed[k], x))
                && !removed.take(k + 1).contains(x) ==> stack@[k].1@.contains(inter_nodes(g0)[x]),
        decreases inter_nodes(g).dom().len(),
    {
        let ids = inter_node_indices(&g);
        let mut found: Option<usize> = None;
        let mut k: usize = 0;
        while k < ids.len()
            invariant_except_break
                found is None,
            invariant
                graph_ok(g),
                k <= ids@.len(),
                ids@.to_set() == inter_nodes(g).dom(),
                inter_nodes(g).dom().len() > 0,
                n >= inter_nodes(g).dom().len() ==> k == 0,
                graph_ok(g0),
                degree_below(g0, n as int) ==> k == 0,
                forall|e: (usize, usize)| #[trigger] inter_edges(g).contains(e) ==> inter_edges(g0).contains(e),
                forall|x: usize| #[trigger] inter_nodes(g).contains_key(x) ==> inter_nodes(g0).contains_key(x),
                forall|x: int| 0 <= x < k ==> neighbor_set(g, #[trigger] ids@[x]).len() >= n,
            ensures
                found matches Some(id) ==> inter_nodes(g).contains_key(id) && neighbor_set(g, id).len() < n,
                found is None ==> k == ids@.len() && (n >= inter_nodes(g).dom().len() ==> k == 0)
                    && (degree_below(g0, n as int) ==> k == 0)
                    && forall|x: int| 0 <= x < k ==> neighbor_set(g, #[trigger] ids@[x]).len() >= n,
            decreases ids.len() - k,
        {
            assert(ids@.to_set().contains(ids@[k as int]));
            let nb = distinct_neighbors(&g, ids[k]);
            proof {
                lemma_degree_bound(g, ids@[k as int], nb@);
                if degree_below(g0, n as int) {
                    let id = ids@[k as int];
                    nb@.unique_seq_to_set();
                    assert(nb@.to_set() =~= neighbor_set(g, id));
                    assert(neighbor_set(g0, id).subset_of(inter_nodes(g0).dom()));
                    vstd::set_lib::lemma_len_subset(neighbor_set(g0, id), inter_nodes(g0).dom());
                    vstd::set_lib::lemma_len_subset(neighbor_set(g, id), neighbor_set(g0, id));
                    assert(inter_nodes(g0).contains_key(id));
                }
            }
            proof {
                nb@.unique_seq_to_set();
                assert(nb@.to_set() =~= neighbor_set(g, ids@[k as int]));
            }
            if nb.len() < n {
                found = Some(ids[k]);
                break;
            }
            k = k + 1;
        }
        let id = match found {
            Some(id) => id,
            None => {
                proof {
                    let c = inter_nodes(g).dom();
                    assert forall|x: usize| #[trigger] c.contains(x) implies neighbor_set(g0, x).intersect(c).len() >= n by {
                        assert(ids@.to_set().contains(x));
                        let q = choose|q: int| 0 <= q < ids@.len() && ids@[q] == x;
                        assert(neighbor_set(g0, x).intersect(c) =~= neighbor_set(g, x));
                    }
                    assert(c.subset_of(inter_nodes(g0).dom()));
                    assert(has_core(g0, n as int));
                    if n >= inter_nodes(g).dom().len() || degree_below(g0, n as int) {
                        assert(ids@.len() == 0);
                        assert(ids@.to_set() =~= Set::<usize>::empty());
                        assert(inter_nodes(g).dom().len() == 0);
                    }
                }
                return None;
            },
        };
        let nb = distinct_neighbors(&g, id);
        proof {
            nb@.unique_seq_to_set();
            assert(nb@.to_set() =~= neighbor_set(g, id));
        }
        let mut neighbors: Vec<usize> = Vec::new();
        let mut j: usize = 0;
        while j < nb.len()
            invariant
                graph_ok(g),
                j <= nb@.len(),
                neighbors@.len() == j,
                forall|b: usize| #[trigger] nb@.contains(b) <==> inter_edges(g).contains((id, b)),
                forall|x: usize| #[trigger] inter_nodes(g).contains_key(x) ==> inter_nodes(g)[x] == inter_nodes(g0)[x],
                forall|q: int| 0 <= q < j ==> #[trigger] neighbors@[q] == inter_nodes(g0)[nb@[q]],
            decreases nb.len() - j,
        {
            assert(nb@.contains(nb@[j as int]));
            proof {
                assert(inter_edges(g).contains((id, nb@[j as int])));
            }
            let w = match inter_node_weight(&g, nb[j]) {
                Some(w) => w,
                None => {
                    return None;
                },
            };
            neighbors.push(w);
            j = j + 1;
        }
        let var = match inter_node_weight(&g, id) {
            Some(w) => w,
            None => {
                return None;
            },
        };
        let ghost g_before = g;
        let ghost removed_before = removed;
        let ghost stack_before = stack@;
        inter_remove_node(&mut g, id);
        stack.push((var, neighbors));
        proof {
            removed = removed.push(id);
            assert(!removed_before.contains(id));
            assert forall|k2: int| 0 <= k2 < stack_before.len() implies #[trigger] removed.take(k2 + 1) == removed_before.take(k2 + 1) by {
                assert(removed.take(k2 + 1) =~= removed_before.take(k2 + 1));
            }
            assert(removed.take(removed.len() as int) == removed);
            assert forall|x: usize| #[trigger] removed.contains(x) <==> removed_before.contains(x) || x == id by {
                if removed.contains(x) && x != id {
                    let q = choose|q: int| 0 <= q < removed.len() && removed[q] == x;
                    assert(q < removed_before.len());
                    assert(removed_before[q] == x);
                }
                if removed_before.contains(x) {
                    let q = choose|q: int| 0 <= q < removed_before.len() && removed_before[q] == x;
                    assert(removed[q] == x);
                }
                if x == id {
                    assert(removed[removed.len() - 1] == id);
                }
            }
            assert forall|x: usize| #[trigger] inter_nodes(g).contains_key(x) <==> inter_nodes(g0).contains_key(x) && !removed.contains(x) by {
                assert(inter_nodes(g_before).contains_key(x) <==> inter_nodes(g0).contains_key(x) && !removed_before.contains(x));
                assert(removed.contains(x) <==> removed_before.contains(x) || x == id);
            }
            assert forall|e: (usize, usize)| #[trigger] inter_edges(g).contains(e) <==> inter_edges(g0).contains(e)
                && !removed.contains(e.0) && !removed.contains(e.1) by {
                assert(inter_edges(g_before).contains(e) <==> inter_edges(g0).contains(e) && !removed_before.contains(e.0)
                    && !removed_before.contains(e.1));
                assert(removed.contains(e.0) <==> removed_before.contains(e.0) || e.0 == id);
                assert(removed.contains(e.1) <==> removed_before.contains(e.1) || e.1 == id);
            }
            let kk = stack_before.len() as int;
            assert(stack@[kk] == (var, neighbors));
            assert forall|k2: int, t: usize| 0 <= k2 < stack@.len() && #[trigger] stack@[k2].1@.contains(t) implies exists|x: usize|
                #[trigger] inter_edges(g0).contains((removed[k2], x)) && !removed.take(k2 + 1).contains(x) && t == inter_nodes(g0)[x] by {
                if k2 < kk {
                    assert(stack@[k2] == stack_before[k2]);
                    assert(removed[k2] == removed_before[k2]);
                } else {
                    let q = choose|q: int| 0 <= q < neighbors@.len() && neighbors@[q] == t;
                    let c = nb@[q];
                    assert(nb@.contains(c));
                    assert(inter_edges(g_before).contains((id, c)));
                    assert(inter_edges(g0).contains((id, c)));
                    assert(!removed.contains(c));
                    assert(inter_edges(g0).contains((removed[k2], c)));
                }
            }
            assert forall|k2: int, x: usize| 0 <= k2 < stack@.len() && #[trigger] inter_edges(g0).contains((removed[k2], x))
                && !removed.take(k2 + 1).contains(x) implies stack@[k2].1@.contains(inter_nodes(g0)[x]) by {
                if k2 < kk {
                    assert(stack@[k2] == stack_before[k2]);
                    assert(removed[k2] == removed_before[k2]);
                } else {
                    assert(removed[k2] == id);
                    assert(inter_nodes(g0).contains_key(x));
                    assert(!removed_before.contains(x));
                    assert(inter_edges(g_before).contains((id, x)));
                    assert(nb@.contains(x));
                    let q = choose|q: int| 0 <= q < nb@.len() && nb@[q] == x;
                    assert(neighbors@[q] == inter_nodes(g0)[x]);
                }
            }
            assert forall|k2: int| 0 <= k2 < stack@.len() implies (#[trigger] stack@[k2]).0 == inter_nodes(g0)[removed[k2]]
                && stack@[k2].1@.len() < n by {
                if k2 < kk {
                    assert(stack@[k2] == stack_before[k2]);
                    assert(removed[k2] == removed_before[k2]);
                }
            }
            assert forall|k2: int| 0 <= k2 < removed.len() implies inter_nodes(g0).contains_key(#[trigger] removed[k2]) by {
                if k2 < kk {
                    assert(removed[k2] == removed_before[k2]);
                }
            }
            let g2 = g;
            assert forall|e: (usize, usize)| #[trigger] inter_edges(g2).contains(e) implies e.0 != e.1
                && inter_nodes(g2).contains_key(e.0) && inter_nodes(g2).contains_key(e.1) && inter_edges(g2).contains((e.1, e.0)) by {
            }
        }
    }
    proof {
        assert forall|x: usize| removed.to_set().contains(x) <==> inter_nodes(g0).dom().contains(x) by {
            if inter_nodes(g0).dom().contains(x) {
                if !removed.contains(x) {
                    assert(inter_nodes(g).contains_key(x));
                    assert(inter_nodes(g).dom().contains(x));
                }
            }
            if removed.contains(x) {
                let q = choose|q: int| 0 <= q < removed.len() && removed[q] == x;
            }
        }
        assert(removed.to_set() =~= inter_nodes(g0).dom());
        assert forall|k2: int, t: usize| 0 <= k2 < stack@.len() && #[trigger] stack@[k2].1@.contains(t) implies exists|k3: int|
            k2 < k3 < stack@.len() && (#[trigger] stack@[k3]).0 == t by {
            let x = choose|x: usize| #[trigger] inter_edges(g0).contains((removed[k2], x)) && !removed.take(k2 + 1).contains(x)
                && t == inter_nodes(g0)[x];
            assert(inter_nodes(g0).contains_key(x));
            assert(removed.to_set().contains(x));
            let q = choose|q: int| 0 <= q < removed.len() && removed[q] == x;
            if q <= k2 {
                assert(removed.take(k2 + 1)[q] == x);
            }
            assert(stack@[q].0 == t);
        }
        assert(simplified(g0, n as int, stack@, removed));
        assert(simplified(inter_graph, n as int, stack@, removed));
        assert(simplifies(inter_graph, n as int, stack@));
    }
    Some(stack)
}

/// Simplifies the interference graph with the fewest registers that it can: one, two, and
/// so on. Gives that number and the simplification stack.
fn simplify(inter_graph_init: &InterGraph) -> (r: (usize, Vec<(usize, Vec<usize>)>))
    requires
        graph_ok(*inter_graph_init),
    ensures
        1 <= r.0 <= inter_nodes(*inter_graph_init).dom().len() + 1,
        simplifies(*inter_graph_init, r.0 as int, r.1@),
        forall|d: int| 1 <= d && #[trigger] degree_below(*inter_graph_init, d) ==> r.0 <= d,
        forall|m: int| 1 <= m < r.0 ==> #[trigger] has_core(*inter_graph_init, m),
{
    let count = inter_node_count(inter_graph_init);
    let mut n: usize = 1;
    loop
        invariant
            graph_ok(*inter_graph_init),
            count == inter_nodes(*inter_graph_init).dom().len(),
            1 <= n,
            n <= count + 1,
            forall|d: int| 1 <= d < n ==> !#[trigger] degree_below(*inter_graph_init, d),
            forall|m: int| 1 <= m < n ==> #[trigger] has_core(*inter_graph_init, m),
        decreases count + 1 - n,
    {
        let g = inter_clone(inter_graph_init);
        match try_n_simplify(n, g) {
            Some(stack) => {
                proof {
                    let order = choose|order: Seq<usize>| simplified(g, n as int, stack@, order);
                    assert(simplified(*inter_graph_init, n as int, stack@, order));
                }
                return (n, stack);
            },
            None => {
                proof {
                    assert(degree_below(g, n as int) == degree_below(*inter_graph_init, n as int));
                    assert(has_core(g, n as int) == has_core(*inter_graph_init, n as int));
                }
            },
        }
        n = n + 1;
    }
}

/// Whether `x` is among `xs`.
fn contains_usize(xs: &Vec<usize>, x: usize) -> (b: bool)
    ensures
        b == xs@.contains(x),
{
    let mut i: usize = 0;
    while i < xs.len()
        invariant
            i <= xs@.len(),
            forall|j: int| 0 <= j < i ==> xs@[j] != x,
        decreases xs.len() - i,
    {
        if xs[i] == x {
            return true;
        }
        i = i + 1;
    }
    false
}

/// The first `count` numbers, from 0 up, that are not among `excluded`.
fn first_not_in(excluded: &Vec<usize>, count: usize) -> (v: Vec<usize>)
    requires
        count + excluded@.len() <= usize::MAX,
    ensures
        v@.len() == count,
        forall|i: int| 0 <= i < v@.len() ==> !excluded@.contains(#[trigger] v@[i]),
        forall|i: int, j: int| 0 <= i < j < v@.len() ==> v@[i] < v@[j],
        forall|x: usize| #![trigger v@.contains(x)]
            !excluded@.contains(x) && v@.len() > 0 && x <= v@.last() ==> v@.contains(x),
{
    let mut v: Vec<usize> = Vec::new();
    let mut c: usize = 0;
    let ghost mut skipped: Seq<usize> = Seq::empty();
    while v.len() < count
        invariant
            count + excluded@.len() <= usize::MAX,
            v@.len() <= count,
            skipped.len() + v@.len() == c,
            skipped.no_duplicates(),
            forall|i: int| 0 <= i < skipped.len() ==> excluded@.contains(#[trigger] skipped[i]) && skipped[i] < c,
            forall|i: int| 0 <= i < v@.len() ==> !excluded@.contains(#[trigger] v@[i]) && v@[i] < c,
            forall|i: int, j: int| 0 <= i < j < v@.len() ==> v@[i] < v@[j],
            forall|x: usize| x < c && !excluded@.contains(x) ==> #[trigger] v@.contains(x),
        decreases count + excluded@.len() - c,
    {
        proof {
            skipped.unique_seq_to_set();
            excluded@.lemma_cardinality_of_set();
            assert forall|x: usize| skipped.to_set().contains(x) implies excluded@.to_set().contains(x) by {
                let i = choose|i: int| 0 <= i < skipped.len() && skipped[i] == x;
                assert(excluded@.contains(skipped[i]));
            }
            vstd::set_lib::lemma_len_subset(skipped.to_set(), excluded@.to_set());
        }
        if contains_usize(excluded, c) {
            proof {
                skipped = skipped.push(c);
            }
        } else {
            let ghost v0 = v@;
            v.push(c);
            proof {
                assert forall|x: usize| x < c + 1 && !excluded@.contains(x) implies #[trigger] v@.contains(x) by {
                    if x == c {
                        assert(v@[v@.len() - 1] == c);
                    } else {
                        assert(v0.contains(x));
                        let i = choose|i: int| 0 <= i < v0.len() && v0[i] == x;
                        assert(v@[i] == x);
                    }
                }
            }
        }
        c = c + 1;
    }
    assert(v@.len() > 0 ==> v@.last() < c);
    v
}

/// The pair `(a2, b2)` comes before `(a, b)` in the order pairs are visited.
pub open spec fn visited_before(a2: int, b2: int, a: int, b: int) -> bool {
    a2 < a || (a2 == a && b2 < b)
}

/// The edges of `g` join, both ways, the nodes of visited pairs of positions whose
/// variables' lifetimes overlap.
pub open spec fn edges_from_pairs(g: InterGraph, nodes: Seq<usize>, vars: Seq<usize>, lifetimes: Seq<(usize, usize)>, a: int, b: int) -> bool {
    forall|e: (usize, usize)| #[trigger] inter_edges(g).contains(e) ==> exists|a2: int, b2: int|
        0 <= a2 < b2 < vars.len() && visited_before(a2, b2, a, b) && overlap(lifetimes, vars[a2] as int, vars[b2] as int)
            && (e == (nodes[a2], nodes[b2]) || e == (nodes[b2], nodes[a2]))
}

/// Edges from pairs visited before `(a, b)` are from pairs visited before any later `(a3, b3)`.
proof fn lemma_edges_from_pairs_later(g: InterGraph, nodes: Seq<usize>, vars: Seq<usize>, lifetimes: Seq<(usize, usize)>, a: int, b: int, a3: int, b3: int)
    requires
        edges_from_pairs(g, nodes, vars, lifetimes, a, b),
        forall|a2: int, b2: int| 0 <= a2 < b2 < vars.len() && visited_before(a2, b2, a, b) ==> visited_before(a2, b2, a3, b3),
    ensures
        edges_from_pairs(g, nodes, vars, lifetimes, a3, b3),
{
    assert forall|e: (usize, usize)| #[trigger] inter_edges(g).contains(e) implies exists|a2: int, b2: int|
        0 <= a2 < b2 < vars.len() && visited_before(a2, b2, a3, b3) && overlap(lifetimes, vars[a2] as int, vars[b2] as int)
            && (e == (nodes[a2], nodes[b2]) || e == (nodes[b2], nodes[a2])) by {
        let (a2, b2) = choose|a2: int, b2: int|
            0 <= a2 < b2 < vars.len() && visited_before(a2, b2, a, b) && overlap(lifetimes, vars[a2] as int, vars[b2] as int)
                && (e == (nodes[a2], nodes[b2]) || e == (nodes[b2], nodes[a2]));
        assert(visited_before(a2, b2, a3, b3));
    }
}
/// The nodes of `g` are `nodes`, distinct, weighted by `vars`.
pub open spec fn nodes_of(g: InterGraph, nodes: Seq<usize>, vars: Seq<usize>) -> bool {
    &&& nodes.len() == vars.len()
    &&& nodes.no_duplicates()
    &&& inter_nodes(g).dom() == nodes.to_set()
    &&& forall|p: int| 0 <= p < nodes.len() ==> inter_nodes(g)[#[trigger] nodes[p]] == vars[p]
}

/// The lifetimes of variables `i` and `j` overlap.
pub open spec fn overlap(lifetimes: Seq<(usize, usize)>, i: int, j: int) -> bool {
    lifetimes[i].0 < lifetimes[j].1 && lifetimes[j].0 < lifetimes[i].1
}

/// `map` allocates registers to the variables of `lifetimes`: it maps each of them; a fixed
/// variable to its own number, any other to a number that no fixed variable has; and two
/// variables that are not fixed and whose lifetimes overlap to different registers.
pub open spec fn allocates(map: Map<usize, usize>, lifetimes: Seq<(usize, usize)>, fixed: Seq<usize>) -> bool {
    &&& forall|v: usize| v < lifetimes.len() ==> #[trigger] map.contains_key(v)
    &&& forall|v: usize| #[trigger] fixed.contains(v) ==> map.contains_key(v) && map[v] == v
    &&& forall|v: usize| v < lifetimes.len() && !fixed.contains(v) ==> !fixed.contains(#[trigger] map[v])
    &&& forall|i: usize, j: usize|
        i < lifetimes.len() && j < lifetimes.len() && i != j && !fixed.contains(i) && !fixed.contains(j)
            && overlap(lifetimes, i as int, j as int) ==> #[trigger] map[i] != #[trigger] map[j]
}

/// `vars` are, in increasing order, the variables below `len` that are not fixed.
pub open spec fn free_vars(vars: Seq<usize>, len: int, fixed: Seq<usize>) -> bool {
    &&& forall|i: int, j: int| 0 <= i < j < vars.len() ==> vars[i] < vars[j]
    &&& forall|i: int| 0 <= i < vars.len() ==> #[trigger] vars[i] < len && !fixed.contains(vars[i])
    &&& forall|v: usize| v < len && !fixed.contains(v) ==> #[trigger] vars.contains(v)
}

/// The colouring of a simplification stack of the interference graph allocates registers.
proof fn lemma_allocates(
    lifetimes: Seq<(usize, usize)>,
    fixed: Seq<usize>,
    g: InterGraph,
    nodes: Seq<usize>,
    vars: Seq<usize>,
    n: int,
    st0: Seq<(usize, Vec<usize>)>,
    order: Seq<usize>,
    col: Map<usize, usize>,
    colored: Map<usize, usize>,
    map: Map<usize, usize>,
)
    requires
        free_vars(vars, lifetimes.len() as int, fixed),
        nodes_of(g, nodes, vars),
        graph_ok(g),
        forall|a2: int, b2: int| 0 <= a2 < b2 < vars.len() && overlap(lifetimes, vars[a2] as int, vars[b2] as int)
            ==> #[trigger] inter_edges(g).contains((nodes[a2], nodes[b2])),
        simplified(g, n, st0, order),
        forall|k2: int| 0 <= k2 < st0.len() ==> colored.contains_key((#[trigger] st0[k2]).0)
            && colored[st0[k2].0] == col[st0[k2].0] && !fixed.contains(col[st0[k2].0]),
        forall|k2: int, t: usize| 0 <= k2 < st0.len() && #[trigger] st0[k2].1@.contains(t) ==> col[st0[k2].0] != col[t],
        forall|v: usize| #[trigger] map.contains_key(v) && !fixed.contains(v) ==> colored.contains_key(v) && map[v] == colored[v],
        forall|v: usize| #[trigger] colored.contains_key(v) ==> map.contains_key(v),
        forall|v: usize| #[trigger] fixed.contains(v) ==> map.contains_key(v) && map[v] == v,
    ensures
        allocates(map, lifetimes, fixed),
        forall|v: usize| v < lifetimes.len() && !fixed.contains(v) ==> exists|k2: int|
            0 <= k2 < st0.len() && (#[trigger] st0[k2]).0 == v,
{
    assert forall|v: usize| v < lifetimes.len() && !fixed.contains(v) implies exists|k2: int|
        0 <= k2 < st0.len() && (#[trigger] st0[k2]).0 == v by {
        assert(vars.contains(v));
        let p = choose|p: int| 0 <= p < vars.len() && vars[p] == v;
        assert(nodes.to_set().contains(nodes[p]));
        assert(order.to_set().contains(nodes[p]));
        let k2 = choose|k2: int| 0 <= k2 < order.len() && order[k2] == nodes[p];
        assert(st0[k2].0 == inter_nodes(g)[order[k2]]);
    }
    assert forall|v: usize| v < lifetimes.len() implies #[trigger] map.contains_key(v) by {
        if !fixed.contains(v) {
            let k2 = choose|k2: int| 0 <= k2 < st0.len() && (#[trigger] st0[k2]).0 == v;
        }
    }
    assert forall|v: usize| v < lifetimes.len() && !fixed.contains(v) implies !fixed.contains(#[trigger] map[v]) by {
        let k2 = choose|k2: int| 0 <= k2 < st0.len() && (#[trigger] st0[k2]).0 == v;
        assert(map.contains_key(v));
    }
    assert forall|i: usize, j: usize|
        i < lifetimes.len() && j < lifetimes.len() && i != j && !fixed.contains(i) && !fixed.contains(j)
            && overlap(lifetimes, i as int, j as int) implies #[trigger] map[i] != #[trigger] map[j] by {
        assert(vars.contains(i));
        assert(vars.contains(j));
        let p = choose|p: int| 0 <= p < vars.len() && vars[p] == i;
        let q = choose|q: int| 0 <= q < vars.len() && vars[q] == j;
        if p < q {
            assert(inter_edges(g).contains((nodes[p], nodes[q])));
        } else {
            assert(inter_edges(g).contains((nodes[q], nodes[p])));
        }
        assert(inter_edges(g).contains((nodes[p], nodes[q])));
        assert(inter_edges(g).contains((nodes[q], nodes[p])));
        assert(nodes.to_set().contains(nodes[p]));
        assert(nodes.to_set().contains(nodes[q]));
        assert(order.to_set().contains(nodes[p]));
        assert(order.to_set().contains(nodes[q]));
        let kp = choose|k2: int| 0 <= k2 < order.len() && order[k2] == nodes[p];
        let kq = choose|k2: int| 0 <= k2 < order.len() && order[k2] == nodes[q];
        assert(st0[kp].0 == i);
        assert(st0[kq].0 == j);
        if kp < kq {
            assert(!order.take(kp + 1).contains(nodes[q])) by {
                if order.take(kp + 1).contains(nodes[q]) {
                    let x = choose|x: int| 0 <= x < kp + 1 && #[trigger] order.take(kp + 1)[x] == nodes[q];
                    assert(order[x] == order[kq]);
                }
            }
            assert(inter_edges(g).contains((order[kp], nodes[q])));
            assert(st0[kp].1@.contains(j));
        } else {
            assert(kp != kq);
            assert(!order.take(kq + 1).contains(nodes[p])) by {
                if order.take(kq + 1).contains(nodes[p]) {
                    let x = choose|x: int| 0 <= x < kq + 1 && #[trigger] order.take(kq + 1)[x] == nodes[p];
                    assert(order[x] == order[kp]);
                }
            }
            assert(inter_edges(g).contains((order[kq], nodes[p])));
            assert(st0[kq].1@.contains(i));
        }
        let k1 = choose|k2: int| 0 <= k2 < st0.len() && (#[trigger] st0[k2]).0 == i;
        assert(map.contains_key(i));
        assert(map.contains_key(j));
    }
}

/// The variables below the count of `lifetimes`, other than `v` and not fixed, whose
/// lifetimes overlap that of `v`.
pub open spec fn free_neighbors(lifetimes: Seq<(usize, usize)>, fixed: Seq<usize>, v: int) -> Set<int> {
    Set::new(|w: int| 0 <= w < lifetimes.len() && w != v && !fixed.contains(w as usize) && overlap(lifetimes, v, w))
}

/// Each variable that is not fixed overlaps fewer than `d` other variables that are not fixed.
pub open spec fn degrees_below(lifetimes: Seq<(usize, usize)>, fixed: Seq<usize>, d: int) -> bool {
    forall|v: int| 0 <= v < lifetimes.len() && !fixed.contains(v as usize) ==> #[trigger] free_neighbors(lifetimes, fixed, v).len() < d
}

/// The numbers below `x` that are not fixed registers.
pub open spec fn free_below(fixed: Seq<usize>, x: usize) -> Set<usize> {
    Set::new(|y: usize| y < x && !fixed.contains(y))
}

/// Registers are re-used: where each variable that is not fixed overlaps fewer than `d`
/// others that are not fixed, each of them gets one of the first `d` registers that are not
/// fixed.
pub open spec fn reuses(map: Map<usize, usize>, lifetimes: Seq<(usize, usize)>, fixed: Seq<usize>) -> bool {
    forall|d: int| #[trigger] degrees_below(lifetimes, fixed, d) ==> forall|v: usize| v < lifetimes.len() && !fixed.contains(v)
        ==> #[trigger] free_below(fixed, map[v]).len() < d
}

/// Where each variable overlaps fewer than `d` others, each node of the interference graph
/// has fewer than `d` neighbours.
proof fn lemma_degree_from_overlaps(
    g: InterGraph,
    nodes: Seq<usize>,
    vars: Seq<usize>,
    lifetimes: Seq<(usize, usize)>,
    fixed: Seq<usize>,
    d: int,
)
    requires
        free_vars(vars, lifetimes.len() as int, fixed),
        nodes_of(g, nodes, vars),
        graph_ok(g),
        edges_from_pairs(g, nodes, vars, lifetimes, vars.len() as int, 0),
        degrees_below(lifetimes, fixed, d),
    ensures
        degree_below(g, d),
{
    assert forall|id: usize| #[trigger] inter_nodes(g).contains_key(id) implies neighbor_set(g, id).len() < d by {
        assert(nodes.to_set().contains(id));
        let p = choose|p: int| 0 <= p < nodes.len() && nodes[p] == id;
        let v = vars[p];
        let f = |x: usize| inter_nodes(g)[x] as int;
        let ns = neighbor_set(g, id);
        assert(ns.subset_of(inter_nodes(g).dom()));
        vstd::set_lib::lemma_len_subset(ns, inter_nodes(g).dom());
        assert forall|x: usize, y: usize| #[trigger] ns.contains(x) && #[trigger] ns.contains(y) && f(x) == f(y) implies x == y by {
            assert(nodes.to_set().contains(x));
            assert(nodes.to_set().contains(y));
            let qx = choose|q: int| 0 <= q < nodes.len() && nodes[q] == x;
            let qy = choose|q: int| 0 <= q < nodes.len() && nodes[q] == y;
            if qx < qy {
                assert(vars[qx] < vars[qy]);
            } else if qy < qx {
                assert(vars[qy] < vars[qx]);
            }
        }
        let fv = free_neighbors(lifetimes, fixed, v as int);
        assert forall|w: int| ns.map(f).contains(w) implies fv.contains(w) by {
            let x = choose|x: usize| ns.contains(x) && f(x) == w;
            assert(inter_edges(g).contains((id, x)));
            let (a2, b2) = choose|a2: int, b2: int|
                0 <= a2 < b2 < vars.len() && visited_before(a2, b2, vars.len() as int, 0) && overlap(lifetimes, vars[a2] as int, vars[b2] as int)
                    && ((id, x) == (nodes[a2], nodes[b2]) || (id, x) == (nodes[b2], nodes[a2]));
            assert(vars[a2] < vars[b2]);
            if (id, x) == (nodes[a2], nodes[b2]) {
                assert(nodes[a2] == nodes[p]);
                assert(a2 == p);
                assert(w == vars[b2]);
            } else {
                assert(nodes[b2] == nodes[p]);
                assert(b2 == p);
                assert(w == vars[a2]);
            }
            assert(vars[b2] < lifetimes.len() && !fixed.contains(vars[b2]));
            assert(vars[a2] < lifetimes.len() && !fixed.contains(vars[a2]));
        }
        vstd::set_lib::lemma_map_size(ns, ns.map(f), f);
        vstd::set_lib::lemma_int_range(0, lifetimes.len() as int);
        assert(fv.subset_of(vstd::set_lib::set_int_range(0, lifetimes.len() as int)));
        vstd::set_lib::lemma_len_subset(fv, vstd::set_lib::set_int_range(0, lifetimes.len() as int));
        vstd::set_lib::lemma_len_subset(ns.map(f), fv);
        assert(v < lifetimes.len() && !fixed.contains(v));
        assert(fv.len() < d);
    }
}

/// The variables not fixed, below the count of `lifetimes`.
pub open spec fn free_set(lifetimes: Seq<(usize, usize)>, fixed: Seq<usize>) -> Set<int> {
    Set::new(|v: int| 0 <= v < lifetimes.len() && !fixed.contains(v as usize))
}

/// Some variables that are not fixed, at least one, each overlapping `m` or more of them:
/// no colouring by simplification gives them fewer than `m + 1` registers.
pub open spec fn overlap_core(lifetimes: Seq<(usize, usize)>, fixed: Seq<usize>, m: int) -> bool {
    exists|c: Set<int>| #![trigger c.subset_of(free_set(lifetimes, fixed))]
        c.subset_of(free_set(lifetimes, fixed)) && c.len() > 0 && forall|v: int| #[trigger] c.contains(v)
            ==> free_neighbors(lifetimes, fixed, v).intersect(c).len() >= m
}

/// Each variable that is not fixed gets one of the first `n` registers that are not fixed.
pub open spec fn uses_below(map: Map<usize, usize>, lifetimes: Seq<(usize, usize)>, fixed: Seq<usize>, n: int) -> bool {
    forall|v: usize| v < lifetimes.len() && !fixed.contains(v) ==> #[trigger] free_below(fixed, map[v]).len() < n
}

/// As few registers as simplification allows: the variables that are not fixed take
/// registers among the first `n` not fixed, and for each smaller count some of them form a
/// core, each overlapping that many others of it.
pub open spec fn fewest(map: Map<usize, usize>, lifetimes: Seq<(usize, usize)>, fixed: Seq<usize>) -> bool {
    exists|n: int| #[trigger] uses_below(map, lifetimes, fixed, n) && forall|m: int| 1 <= m < n ==> #[trigger] overlap_core(
        lifetimes,
        fixed,
        m,
    )
}

/// A neighbour of a node of the interference graph stands for a variable that overlaps the
/// node's variable, both not fixed.
proof fn lemma_neighbor_overlaps(
    g: InterGraph,
    nodes: Seq<usize>,
    vars: Seq<usize>,
    lifetimes: Seq<(usize, usize)>,
    fixed: Seq<usize>,
    id: usize,
    x: usize,
)
    requires
        free_vars(vars, lifetimes.len() as int, fixed),
        nodes_of(g, nodes, vars),
        edges_from_pairs(g, nodes, vars, lifetimes, vars.len() as int, 0),
        inter_edges(g).contains((id, x)),
    ensures
        free_neighbors(lifetimes, fixed, inter_nodes(g)[id] as int).contains(inter_nodes(g)[x] as int),
        free_set(lifetimes, fixed).contains(inter_nodes(g)[id] as int),
{
    let (a2, b2) = choose|a2: int, b2: int|
        0 <= a2 < b2 < vars.len() && visited_before(a2, b2, vars.len() as int, 0) && overlap(lifetimes, vars[a2] as int, vars[b2] as int)
            && ((id, x) == (nodes[a2], nodes[b2]) || (id, x) == (nodes[b2], nodes[a2]));
    assert(vars[a2] < vars[b2]);
    assert(vars[b2] < lifetimes.len() && !fixed.contains(vars[b2]));
    assert(vars[a2] < lifetimes.len() && !fixed.contains(vars[a2]));
    assert(((vars[a2] as int) as usize) == vars[a2]);
    assert(((vars[b2] as int) as usize) == vars[b2]);
}

/// The variables of the nodes of the interference graph are distinct.
proof fn lemma_weights_distinct(g: InterGraph, nodes: Seq<usize>, vars: Seq<usize>, len: int, fixed: Seq<usize>, x: usize, y: usize)
    requires
        free_vars(vars, len, fixed),
        nodes_of(g, nodes, vars),
        inter_nodes(g).contains_key(x),
        inter_nodes(g).contains_key(y),
        inter_nodes(g)[x] == inter_nodes(g)[y],
    ensures
        x == y,
{
    assert(nodes.to_set().contains(x));
    assert(nodes.to_set().contains(y));
    let qx = choose|q: int| 0 <= q < nodes.len() && nodes[q] == x;
    let qy = choose|q: int| 0 <= q < nodes.len() && nodes[q] == y;
    if qx < qy {
        assert(vars[qx] < vars[qy]);
    } else if qy < qx {
        assert(vars[qy] < vars[qx]);
    }
}

/// A core of the interference graph stands for a core of overlapping variables.
proof fn lemma_core_overlaps(
    g: InterGraph,
    nodes: Seq<usize>,
    vars: Seq<usize>,
    lifetimes: Seq<(usize, usize)>,
    fixed: Seq<usize>,
    m: int,
)
    requires
        free_vars(vars, lifetimes.len() as int, fixed),
        nodes_of(g, nodes, vars),
        graph_ok(g),
        edges_from_pairs(g, nodes, vars, lifetimes, vars.len() as int, 0),
        has_core(g, m),
    ensures
        overlap_core(lifetimes, fixed, m),
{
    let c = choose|c: Set<usize>| #![trigger c.subset_of(inter_nodes(g).dom())]
        c.subset_of(inter_nodes(g).dom()) && c.len() > 0 && forall|x: usize| #[trigger] c.contains(x) ==> neighbor_set(
            g,
            x,
        ).intersect(c).len() >= m;
    let f = |x: usize| inter_nodes(g)[x] as int;
    vstd::set_lib::lemma_len_subset(c, inter_nodes(g).dom());
    assert forall|x: usize, y: usize| #[trigger] c.contains(x) && #[trigger] c.contains(y) && f(x) == f(y) implies x == y by {
        lemma_weights_distinct(g, nodes, vars, lifetimes.len() as int, fixed, x, y);
    }
    let cv = c.map(f);
    vstd::set_lib::lemma_map_size(c, cv, f);
    assert forall|w: int| cv.contains(w) implies free_set(lifetimes, fixed).contains(w) by {
        let x = choose|x: usize| c.contains(x) && f(x) == w;
        assert(nodes.to_set().contains(x));
        let p = choose|p: int| 0 <= p < nodes.len() && nodes[p] == x;
        assert(((vars[p] as int) as usize) == vars[p]);
    }
    vstd::set_lib::lemma_int_range(0, lifetimes.len() as int);
    assert forall|w: int| #[trigger] cv.contains(w) implies free_neighbors(lifetimes, fixed, w).intersect(cv).len() >= m by {
        let x = choose|x: usize| c.contains(x) && f(x) == w;
        let ns = neighbor_set(g, x).intersect(c);
        vstd::set_lib::lemma_len_subset(ns, c);
        assert forall|a: usize, b: usize| #[trigger] ns.contains(a) && #[trigger] ns.contains(b) && f(a) == f(b) implies a == b by {
            lemma_weights_distinct(g, nodes, vars, lifetimes.len() as int, fixed, a, b);
        }
        vstd::set_lib::lemma_map_size(ns, ns.map(f), f);
        let target = free_neighbors(lifetimes, fixed, w).intersect(cv);
        assert forall|u: int| ns.map(f).contains(u) implies target.contains(u) by {
            let y = choose|y: usize| ns.contains(y) && f(y) == u;
            lemma_neighbor_overlaps(g, nodes, vars, lifetimes, fixed, x, y);
        }
        assert(free_neighbors(lifetimes, fixed, w).subset_of(vstd::set_lib::set_int_range(0, lifetimes.len() as int)));
        vstd::set_lib::lemma_len_subset(free_neighbors(lifetimes, fixed, w), vstd::set_lib::set_int_range(0, lifetimes.len() as int));
        vstd::set_lib::lemma_len_subset(target, free_neighbors(lifetimes, fixed, w));
        vstd::set_lib::lemma_len_subset(ns.map(f), target);
    }
    assert(cv.subset_of(free_set(lifetimes, fixed)));
}

/// Below the `i`-th of the first numbers not excluded lie exactly `i` numbers not excluded.
proof fn lemma_free_below(v: Seq<usize>, excluded: Seq<usize>, i: int)
    requires
        0 <= i < v.len(),
        forall|a: int| 0 <= a < v.len() ==> !excluded.contains(#[trigger] v[a]),
        forall|a: int, b: int| 0 <= a < b < v.len() ==> v[a] < v[b],
        forall|x: usize| #![trigger v.contains(x)] !excluded.contains(x) && v.len() > 0 && x <= v.last() ==> v.contains(x),
    ensures
        free_below(excluded, v[i]).len() == i,
{
    let t = v.take(i);
    assert forall|y: usize| free_below(excluded, v[i]).contains(y) <==> t.to_set().contains(y) by {
        if free_below(excluded, v[i]).contains(y) {
            assert(v[i] <= v.last()) by {
                if i < v.len() - 1 {
                    assert(v[i] < v[v.len() - 1]);
                }
            }
            assert(v.contains(y));
            let a = choose|a: int| 0 <= a < v.len() && v[a] == y;
            if a >= i {
                if a > i {
                    assert(v[i] < v[a]);
                }
            }
            assert(t[a] == y);
            assert(t.contains(y));
        }
        if t.to_set().contains(y) {
            let a = choose|a: int| 0 <= a < t.len() && t[a] == y;
            assert(v[a] < v[i]);
        }
    }
    assert(free_below(excluded, v[i]) =~= t.to_set());
    assert(t.no_duplicates()) by {
        assert forall|a: int, b: int| 0 <= a < t.len() && 0 <= b < t.len() && a != b implies t[a] != t[b] by {
            if a < b {
                assert(v[a] < v[b]);
            } else {
                assert(v[b] < v[a]);
            }
        }
    }
    t.unique_seq_to_set();
}

/// Among `colors` (distinct) is one that `taken`, shorter, lacks.
proof fn lemma_free_color(colors: Seq<usize>, taken: Seq<usize>)
    requires
        colors.no_duplicates(),
        taken.len() < colors.len(),
    ensures
        exists|c: int| 0 <= c < colors.len() && !taken.contains(#[trigger] colors[c]),
{
    colors.unique_seq_to_set();
    taken.lemma_cardinality_of_set();
    if forall|c: int| 0 <= c < colors.len() ==> taken.contains(#[trigger] colors[c]) {
        assert forall|x: usize| colors.to_set().contains(x) implies taken.to_set().contains(x) by {
            let c = choose|c: int| 0 <= c < colors.len() && colors[c] == x;
            assert(taken.contains(colors[c]));
        }
        vstd::set_lib::lemma_len_subset(colors.to_set(), taken.to_set());
    }
}

/// Some variable of `ts` has the colour `x`.
pub open spec fn taken_by(col: Map<usize, usize>, ts: Seq<usize>, x: usize) -> bool {
    exists|t: usize| ts.contains(t) && col[t] == x
}

/// The entry's variable has the first of `colors` that its listed neighbours leave free:
/// each colour before it is one of theirs.
pub open spec fn lowest_at(col: Map<usize, usize>, colors: Seq<usize>, e: (usize, Vec<usize>)) -> bool {
    exists|c: int| 0 <= c < colors.len() && colors[c] == col[e.0] && forall|c2: int| 0 <= c2 < c ==> #[trigger] taken_by(
        col,
        e.1@,
        colors[c2],
    )
}

/// Each variable that is not fixed gets the lowest register that is not fixed and that no
/// overlapping variable, not fixed, has: each lower one is such a variable's.
pub open spec fn lowest_free(map: Map<usize, usize>, lifetimes: Seq<(usize, usize)>, fixed: Seq<usize>) -> bool {
    forall|v: usize, x: usize| #![trigger map[v], fixed.contains(x)]
        v < lifetimes.len() && !fixed.contains(v) && x < map[v] && !fixed.contains(x) ==> exists|w: usize|
            w < lifetimes.len() && !fixed.contains(w) && w != v && overlap(lifetimes, v as int, w as int) && #[trigger] map[w] == x
}

/// Maps each variable to a register by colouring the interference graph, which re-uses
/// registers: the fixed variables keep their own number as register, and the others are
/// coloured with the fewest registers not fixed that the simplification finds, so that
/// variables whose lifetimes overlap get different registers. `lifetimes` holds the first
/// and last unit of each variable.
#[verifier::spinoff_prover]
#[verifier::rlimit(100)]
pub fn var_to_reg_optimizer_map(num_vars: usize, lifetimes: &Vec<(usize, usize)>, colors_fixed: &Vec<usize>) -> (r:
    MypsLexerResult<HashMap<usize, usize>>)
    ensures
        lifetimes@.len() + colors_fixed@.len() < usize::MAX ==> r is Ok,
        r matches Ok(m) ==> allocates(m@, lifetimes@, colors_fixed@) && reuses(m@, lifetimes@, colors_fixed@)
            && fewest(m@, lifetimes@, colors_fixed@) && lowest_free(m@, lifetimes@, colors_fixed@)
            && forall|v: usize| #[trigger] m@.contains_key(v) <==> v < lifetimes@.len() || colors_fixed@.contains(v),
{
    let mut vars: Vec<usize> = Vec::new();
    let mut x: usize = 0;
    while x < lifetimes.len()
        invariant
            x <= lifetimes@.len(),
            forall|i: int, j: int| 0 <= i < j < vars@.len() ==> vars@[i] < vars@[j],
            forall|i: int| 0 <= i < vars@.len() ==> #[trigger] vars@[i] < x && !colors_fixed@.contains(vars@[i]),
            forall|v: usize| v < x && !colors_fixed@.contains(v) ==> #[trigger] vars@.contains(v),
            vars@.len() <= x,
        decreases lifetimes.len() - x,
    {
        if !contains_usize(colors_fixed, x) {
            let ghost v0 = vars@;
            vars.push(x);
            proof {
                assert forall|v: usize| v < x + 1 && !colors_fixed@.contains(v) implies #[trigger] vars@.contains(v) by {
                    if v == x {
                        assert(vars@[vars@.len() - 1] == x);
                    } else {
                        assert(v0.contains(v));
                        let i = choose|i: int| 0 <= i < v0.len() && v0[i] == v;
                        assert(vars@[i] == v);
                    }
                }
            }
        }
        x = x + 1;
    }
    let mut inter_graph = inter_new();
    let mut nodes: Vec<usize> = Vec::new();
    let mut k: usize = 0;
    proof {
        assert(nodes@.to_set() =~= Set::<usize>::empty());
    }
    while k < vars.len()
        invariant
            k <= vars@.len(),
            nodes@.len() == k,
            nodes@.no_duplicates(),
            inter_nodes(inter_graph).dom() == nodes@.to_set(),
            forall|p: int| 0 <= p < k ==> inter_nodes(inter_graph)[#[trigger] nodes@[p]] == vars@[p],
            inter_edges(inter_graph).is_empty(),
        decreases vars.len() - k,
    {
        let id = inter_add_node(&mut inter_graph, vars[k]);
        let ghost n0 = nodes@;
        nodes.push(id);
        proof {
            assert(!n0.contains(id)) by {
                if n0.contains(id) {
                    assert(n0.to_set().contains(id));
                }
            }
            assert forall|x: usize| nodes@.to_set().contains(x) <==> n0.to_set().insert(id).contains(x) by {
                if n0.contains(x) {
                    let i = choose|i: int| 0 <= i < n0.len() && n0[i] == x;
                    assert(nodes@[i] == x);
                }
                if nodes@.contains(x) {
                    let i = choose|i: int| 0 <= i < nodes@.len() && nodes@[i] == x;
                    if i < n0.len() {
                        assert(n0[i] == x);
                    }
                }
                assert(nodes@[k as int] == id);
            }
            assert(nodes@.to_set() =~= n0.to_set().insert(id));
            assert forall|p: int| 0 <= p < k + 1 implies inter_nodes(inter_graph)[#[trigger] nodes@[p]] == vars@[p] by {
                if p < k {
                    assert(nodes@[p] == n0[p]);
                    assert(n0.to_set().contains(n0[p]));
                }
            }
        }
        k = k + 1;
    }
    let mut num_edges: usize = 0;
    let n_vars = vars.len();
    let mut a: usize = 0;
    while a < n_vars
        invariant
            n_vars == vars@.len(),
            free_vars(vars@, lifetimes@.len() as int, colors_fixed@),
            a <= n_vars,
            nodes_of(inter_graph, nodes@, vars@),
            graph_ok(inter_graph),
            edges_from_pairs(inter_graph, nodes@, vars@, lifetimes@, a as int, 0),
            forall|a2: int, b2: int| 0 <= a2 < b2 < n_vars && visited_before(a2, b2, a as int, 0) && overlap(
                lifetimes@, vars@[a2] as int, vars@[b2] as int) ==> #[trigger] inter_edges(inter_graph).contains((nodes@[a2], nodes@[b2])),
        decreases n_vars - a,
    {
        let mut b: usize = a + 1;
        proof {
            lemma_edges_from_pairs_later(inter_graph, nodes@, vars@, lifetimes@, a as int, 0, a as int, a + 1);
        }
        while b < n_vars
            invariant
                n_vars == vars@.len(),
                free_vars(vars@, lifetimes@.len() as int, colors_fixed@),
                a < n_vars,
                a + 1 <= b <= n_vars,
                nodes_of(inter_graph, nodes@, vars@),
                graph_ok(inter_graph),
                edges_from_pairs(inter_graph, nodes@, vars@, lifetimes@, a as int, b as int),
                forall|a2: int, b2: int| 0 <= a2 < b2 < n_vars && visited_before(a2, b2, a as int, b as int) && overlap(
                    lifetimes@, vars@[a2] as int, vars@[b2] as int) ==> #[trigger] inter_edges(inter_graph).contains((nodes@[a2], nodes@[b2])),
            decreases n_vars - b,
        {
            let i = vars[a];
            let j = vars[b];
            let (i_s, i_e) = lifetimes[i];
            let (j_s, j_e) = lifetimes[j];
            if i_s < j_e && j_s < i_e {
                let na = nodes[a];
                let nb = nodes[b];
                proof {
                    assert(nodes@.to_set().contains(nodes@[a as int]));
                    assert(nodes@.to_set().contains(nodes@[b as int]));
                    assert(na != nb);
                }
                let ghost g_before = inter_graph;
                inter_add_edge(&mut inter_graph, na, nb);
                num_edges = if num_edges < usize::MAX { num_edges + 1 } else { num_edges };
                proof {
                    assert forall|e: (usize, usize)| #[trigger] inter_edges(inter_graph).contains(e) implies e.0 != e.1
                        && inter_nodes(inter_graph).contains_key(e.0) && inter_nodes(inter_graph).contains_key(e.1)
                        && inter_edges(inter_graph).contains((e.1, e.0)) by {}
                    assert forall|e: (usize, usize)| #[trigger] inter_edges(inter_graph).contains(e) implies exists|a2: int, b2: int|
                        0 <= a2 < b2 < vars@.len() && visited_before(a2, b2, a as int, b + 1) && overlap(lifetimes@, vars@[a2] as int, vars@[b2] as int)
                            && (e == (nodes@[a2], nodes@[b2]) || e == (nodes@[b2], nodes@[a2])) by {
                        if !inter_edges(g_before).contains(e) {
                            assert(e == (na, nb) || e == (nb, na));
                            assert(overlap(lifetimes@, vars@[a as int] as int, vars@[b as int] as int));
                            assert(visited_before(a as int, b as int, a as int, b + 1));
                        } else {
                            let (a2, b2) = choose|a2: int, b2: int|
                                0 <= a2 < b2 < vars@.len() && visited_before(a2, b2, a as int, b as int) && overlap(lifetimes@, vars@[a2] as int, vars@[b2] as int)
                                    && (e == (nodes@[a2], nodes@[b2]) || e == (nodes@[b2], nodes@[a2]));
                            assert(visited_before(a2, b2, a as int, b + 1));
                        }
                    }
                    assert forall|a2: int, b2: int| 0 <= a2 < b2 < n_vars && visited_before(a2, b2, a as int, b + 1) && overlap(
                        lifetimes@, vars@[a2] as int, vars@[b2] as int) implies #[trigger] inter_edges(inter_graph).contains((nodes@[a2], nodes@[b2])) by {
                        if visited_before(a2, b2, a as int, b as int) {
                            assert(inter_edges(g_before).contains((nodes@[a2], nodes@[b2])));
                        } else {
                            assert(a2 == a && b2 == b);
                        }
                    }
                }
            } else {
                proof {
                    lemma_edges_from_pairs_later(inter_graph, nodes@, vars@, lifetimes@, a as int, b as int, a as int, b + 1);
                    assert forall|a2: int, b2: int| 0 <= a2 < b2 < n_vars && visited_before(a2, b2, a as int, b + 1) && overlap(
                        lifetimes@, vars@[a2] as int, vars@[b2] as int) implies #[trigger] inter_edges(inter_graph).contains((nodes@[a2], nodes@[b2])) by {
                        if !visited_before(a2, b2, a as int, b as int) {
                            assert(a2 == a && b2 == b);
                        }
                    }
                }
            }
            b = b + 1;
        }
        proof {
            lemma_edges_from_pairs_later(inter_graph, nodes@, vars@, lifetimes@, a as int, b as int, a + 1, 0);
        }
        a = a + 1;
    }
    let (n, mut stack) = simplify(&inter_graph);
    proof {
        nodes@.unique_seq_to_set();
    }
    if n > usize::MAX - colors_fixed.len() {
        return Err(MypsLexerError::DepthOverflow);
    }
    let colors = first_not_in(colors_fixed, n);
    let ghost st0 = stack@;
    let ghost order = choose|order: Seq<usize>| simplified(inter_graph, n as int, st0, order);
    proof {
        assert(colors@.no_duplicates()) by {
            assert forall|i: int, j: int| 0 <= i < colors@.len() && 0 <= j < colors@.len() && i != j implies colors@[i] != colors@[j] by {
                if i < j {
                    assert(colors@[i] < colors@[j]);
                } else {
                    assert(colors@[j] < colors@[i]);
                }
            }
        }
        assert forall|k1: int, k2: int| 0 <= k1 < st0.len() && 0 <= k2 < st0.len() && k1 != k2 implies (#[trigger] st0[k1]).0
            != (#[trigger] st0[k2]).0 by {
            assert(order.to_set().contains(order[k1]));
            assert(order.to_set().contains(order[k2]));
            assert(nodes@.to_set().contains(order[k1]));
            let p1 = choose|p: int| 0 <= p < nodes@.len() && nodes@[p] == order[k1];
            let p2 = choose|p: int| 0 <= p < nodes@.len() && nodes@[p] == order[k2];
            assert(order[k1] != order[k2]);
            if p1 < p2 {
                assert(vars@[p1] < vars@[p2]);
            } else if p2 < p1 {
                assert(vars@[p2] < vars@[p1]);
            }
        }
    }
    let mut color_graph = color_with_capacity(num_vars, num_edges);
    let mut lookup: HashMap<usize, usize> = HashMap::new();
    let ghost mut col: Map<usize, usize> = Map::empty();
    while stack.len() > 0
        invariant
            simplified(inter_graph, n as int, st0, order),
            colors@.len() == n,
            colors@.no_duplicates(),
            forall|i: int| 0 <= i < colors@.len() ==> !colors_fixed@.contains(#[trigger] colors@[i]),
            forall|k1: int, k2: int| 0 <= k1 < st0.len() && 0 <= k2 < st0.len() && k1 != k2 ==> (#[trigger] st0[k1]).0
                != (#[trigger] st0[k2]).0,
            stack@ == st0.take(stack@.len() as int),
            stack@.len() <= st0.len(),
            forall|v: usize| #[trigger] lookup@.contains_key(v) <==> exists|k2: int| stack@.len() <= k2 < st0.len() && (#[trigger] st0[k2]).0 == v,
            forall|v: usize| #[trigger] lookup@.contains_key(v) ==> color_nodes(color_graph).contains_key(lookup@[v])
                && color_nodes(color_graph)[lookup@[v]] == (v, col[v]) && colors@.contains(col[v]),
            forall|idx: usize| #[trigger] color_nodes(color_graph).contains_key(idx) ==> lookup@.contains_key(color_nodes(color_graph)[idx].0)
                && lookup@[color_nodes(color_graph)[idx].0] == idx,
            forall|k2: int, t: usize| stack@.len() <= k2 < st0.len() && #[trigger] st0[k2].1@.contains(t) ==> col[st0[k2].0] != col[t],
            forall|k2: int| stack@.len() <= k2 < st0.len() ==> #[trigger] lowest_at(col, colors@, st0[k2]),
        decreases stack.len(),
    {
        let ghost kk = stack@.len() - 1;
        let (from, edges_to) = stack.pop().unwrap();
        proof {
            assert(st0[kk] == (from, edges_to));
            assert(stack@ =~= st0.take(kk));
        }
        let mut taken: Vec<usize> = Vec::new();
        let mut t: usize = 0;
        while t < edges_to.len()
            invariant
                simplified(inter_graph, n as int, st0, order),
                0 <= kk < st0.len(),
                st0[kk] == (from, edges_to),
                stack@.len() == kk,
                forall|v: usize| #[trigger] lookup@.contains_key(v) <==> exists|k2: int| stack@.len() < k2 < st0.len() && (#[trigger] st0[k2]).0 == v,
                forall|v: usize| #[trigger] lookup@.contains_key(v) ==> color_nodes(color_graph).contains_key(lookup@[v])
                    && color_nodes(color_graph)[lookup@[v]] == (v, col[v]) && colors@.contains(col[v]),
                t <= edges_to@.len(),
                taken@.len() == t,
                forall|q: int| 0 <= q < t ==> #[trigger] taken@[q] == col[edges_to@[q]],
            decreases edges_to.len() - t,
        {
            proof {
                assert(st0[kk].1@.contains(edges_to@[t as int]));
                let k2 = choose|k2: int| kk < k2 < st0.len() && (#[trigger] st0[k2]).0 == edges_to@[t as int];
                assert(lookup@.contains_key(edges_to@[t as int]));
            }
            let id = match lookup.get(&edges_to[t]) {
                Some(id) => *id,
                None => {
                    return Err(MypsLexerError::UndefinedVar(edges_to[t]));
                },
            };
            let color = match color_node_weight(&color_graph, id) {
                Some((_, color)) => color,
                None => {
                    return Err(MypsLexerError::UndefinedVar(edges_to[t]));
                },
            };
            taken.push(color);
            t = t + 1;
        }
        proof {
            lemma_free_color(colors@, taken@);
        }
        let mut color: Option<usize> = None;
        let mut c: usize = 0;
        while c < colors.len()
            invariant_except_break
                color is None,
            invariant
                c <= colors@.len(),
                forall|c2: int| 0 <= c2 < c ==> taken@.contains(#[trigger] colors@[c2]),
            ensures
                color matches Some(x) ==> colors@.contains(x) && !taken@.contains(x) && c < colors@.len() && x
                    == colors@[c as int],
                forall|c2: int| 0 <= c2 < c ==> taken@.contains(#[trigger] colors@[c2]),
                color is None ==> forall|c2: int| 0 <= c2 < colors@.len() ==> taken@.contains(#[trigger] colors@[c2]),
            decreases colors.len() - c,
        {
            if !contains_usize(&taken, colors[c]) {
                color = Some(colors[c]);
                break;
            }
            c = c + 1;
        }
        let color = match color {
            Some(color) => color,
            None => {
                return Err(MypsLexerError::UndefinedVar(from));
            },
        };
        proof {
            assert(!lookup@.contains_key(from)) by {
                if lookup@.contains_key(from) {
                    let k2 = choose|k2: int| kk < k2 < st0.len() && (#[trigger] st0[k2]).0 == from;
                    assert(st0[kk].0 == from);
                }
            }
        }
        let ghost cg_before = color_graph;
        let id = color_add_node(&mut color_graph, (from, color));
        lookup.insert(from, id);
        let ghost col_old = col;
        proof {
            col = col.insert(from, color);
            assert forall|v: usize| #[trigger] lookup@.contains_key(v) <==> exists|k2: int| kk <= k2 < st0.len() && (#[trigger] st0[k2]).0 == v by {
                if v == from {
                    assert(st0[kk].0 == from);
                }
            }
            assert forall|idx: usize| #[trigger] color_nodes(color_graph).contains_key(idx) implies lookup@.contains_key(color_nodes(color_graph)[idx].0)
                && lookup@[color_nodes(color_graph)[idx].0] == idx by {
                if idx != id {
                    assert(color_nodes(cg_before).contains_key(idx));
                    let v = color_nodes(cg_before)[idx].0;
                    assert(lookup@[v] == idx);
                    assert(v != from);
                }
            }
            assert forall|v: usize| #[trigger] lookup@.contains_key(v) implies color_nodes(color_graph).contains_key(lookup@[v])
                && color_nodes(color_graph)[lookup@[v]] == (v, col[v]) && colors@.contains(col[v]) by {
                if v != from {
                    assert(color_nodes(cg_before).contains_key(lookup@[v]));
                    assert(lookup@[v] != id);
                }
            }
            assert forall|k2: int| kk <= k2 < st0.len() implies #[trigger] lowest_at(col, colors@, st0[k2]) by {
                if k2 == kk {
                    assert(col[st0[kk].0] == colors@[c as int]);
                    assert forall|c2: int| 0 <= c2 < c implies #[trigger] taken_by(col, st0[kk].1@, colors@[c2]) by {
                        assert(taken@.contains(colors@[c2]));
                        let q = choose|q: int| 0 <= q < taken@.len() && taken@[q] == colors@[c2];
                        let tt = edges_to@[q];
                        assert(st0[kk].1@.contains(tt));
                        let k3 = choose|k3: int| kk < k3 < st0.len() && (#[trigger] st0[k3]).0 == tt;
                        assert(tt != from);
                        assert(col[tt] == col_old[tt]);
                    }
                } else {
                    assert(lowest_at(col_old, colors@, st0[k2]));
                    assert(st0[k2].0 != from);
                    let cc = choose|cc: int| 0 <= cc < colors@.len() && colors@[cc] == col_old[st0[k2].0] && forall|c2: int|
                        0 <= c2 < cc ==> #[trigger] taken_by(col_old, st0[k2].1@, colors@[c2]);
                    assert forall|c2: int| 0 <= c2 < cc implies #[trigger] taken_by(col, st0[k2].1@, colors@[c2]) by {
                        assert(taken_by(col_old, st0[k2].1@, colors@[c2]));
                        let tt = choose|tt: usize| st0[k2].1@.contains(tt) && col_old[tt] == colors@[c2];
                        let k3 = choose|k3: int| k2 < k3 < st0.len() && (#[trigger] st0[k3]).0 == tt;
                        assert(tt != from);
                    }
                }
            }
            assert forall|k2: int, tt: usize| kk <= k2 < st0.len() && #[trigger] st0[k2].1@.contains(tt) implies col[st0[k2].0] != col[tt] by {
                if k2 == kk {
                    let q = choose|q: int| 0 <= q < edges_to@.len() && edges_to@[q] == tt;
                    assert(taken@[q] == col_old[tt]);
                    let k3 = choose|k3: int| kk < k3 < st0.len() && (#[trigger] st0[k3]).0 == tt;
                    assert(tt != from);
                    assert(taken@.contains(taken@[q]));
                    assert(col[tt] == col_old[tt]);
                } else {
                    let k3 = choose|k3: int| k2 < k3 < st0.len() && (#[trigger] st0[k3]).0 == tt;
                    assert(st0[k2].0 != from);
                    assert(tt != from);
                }
            }
        }
        proof {
            assert forall|q2: int| 0 <= q2 < edges_to@.len() implies lookup@.contains_key(#[trigger] edges_to@[q2]) by {
                assert(st0[kk].1@.contains(edges_to@[q2]));
                let k3 = choose|k3: int| kk < k3 < st0.len() && (#[trigger] st0[k3]).0 == edges_to@[q2];
            }
        }
        let mut t: usize = 0;
        while t < edges_to.len()
            invariant
                t <= edges_to@.len(),
                forall|q2: int| 0 <= q2 < edges_to@.len() ==> lookup@.contains_key(#[trigger] edges_to@[q2]),
                color_nodes(color_graph).contains_key(id),
                forall|v: usize| #[trigger] lookup@.contains_key(v) ==> color_nodes(color_graph).contains_key(lookup@[v])
                    && color_nodes(color_graph)[lookup@[v]] == (v, col[v]) && colors@.contains(col[v]),
                forall|idx: usize| #[trigger] color_nodes(color_graph).contains_key(idx) ==> lookup@.contains_key(color_nodes(color_graph)[idx].0)
                    && lookup@[color_nodes(color_graph)[idx].0] == idx,
            decreases edges_to.len() - t,
        {
            match lookup.get(&edges_to[t]) {
                Some(to) => {
                    color_add_edge(&mut color_graph, id, *to);
                },
                None => {
                    return Err(MypsLexerError::UndefinedVar(edges_to[t]));
                },
            }
            t = t + 1;
        }
    }
    let mut map: HashMap<usize, usize> = HashMap::new();
    let indices = color_node_indices(&color_graph);
    let mut q: usize = 0;
    while q < indices.len()
        invariant
            q <= indices@.len(),
            indices@.to_set() == color_nodes(color_graph).dom(),
            forall|v: usize| #[trigger] lookup@.contains_key(v) ==> color_nodes(color_graph).contains_key(lookup@[v])
                && color_nodes(color_graph)[lookup@[v]] == (v, col[v]) && colors@.contains(col[v]),
            forall|idx: usize| #[trigger] color_nodes(color_graph).contains_key(idx) ==> lookup@.contains_key(color_nodes(color_graph)[idx].0)
                && lookup@[color_nodes(color_graph)[idx].0] == idx,
            forall|v: usize| #[trigger] map@.contains_key(v) ==> lookup@.contains_key(v) && map@[v] == col[v],
            forall|q2: int| 0 <= q2 < q ==> map@.contains_key(#[trigger] color_nodes(color_graph)[indices@[q2]].0),
        decreases indices.len() - q,
    {
        proof {
            assert(indices@.to_set().contains(indices@[q as int]));
        }
        match color_node_weight(&color_graph, indices[q]) {
            Some((var, reg)) => {
                map.insert(var, reg);
            },
            None => {
                return Err(MypsLexerError::UndefinedVar(indices[q]));
            },
        }
        q = q + 1;
    }
    let ghost colored = map@;
    let mut f: usize = 0;
    while f < colors_fixed.len()
        invariant
            f <= colors_fixed@.len(),
            forall|v: usize| #[trigger] map@.contains_key(v) && !colors_fixed@.take(f as int).contains(v) ==> colored.contains_key(v) && map@[v] == colored[v],
            forall|v: usize| #[trigger] colored.contains_key(v) ==> map@.contains_key(v),
            forall|v: usize| #[trigger] colors_fixed@.take(f as int).contains(v) ==> map@.contains_key(v) && map@[v] == v,
        decreases colors_fixed.len() - f,
    {
        let ghost m0 = map@;
        map.insert(colors_fixed[f], colors_fixed[f]);
        proof {
            assert forall|v: usize| #[trigger] colors_fixed@.take(f + 1).contains(v) implies map@.contains_key(v) && map@[v] == v by {
                let i = choose|i: int| 0 <= i < f + 1 && #[trigger] colors_fixed@.take(f + 1)[i] == v;
                if i < f {
                    assert(colors_fixed@.take(f as int)[i] == v);
                    assert(colors_fixed@.take(f as int).contains(v));
                    assert(m0.contains_key(v) && m0[v] == v);
                } else {
                    assert(v == colors_fixed@[f as int]);
                }
            }
            assert forall|v: usize| #[trigger] map@.contains_key(v) && !colors_fixed@.take(f + 1).contains(v) implies colored.contains_key(v) && map@[v] == colored[v] by {
                assert(colors_fixed@.take(f + 1)[f as int] == colors_fixed@[f as int]);
                if colors_fixed@.take(f as int).contains(v) {
                    let i = choose|i: int| 0 <= i < f && #[trigger] colors_fixed@.take(f as int)[i] == v;
                    assert(colors_fixed@.take(f + 1)[i] == v);
                }
            }
        }
        f = f + 1;
    }
    proof {
        assert(colors_fixed@.take(colors_fixed@.len() as int) == colors_fixed@);
        assert forall|k2: int| 0 <= k2 < st0.len() implies colored.contains_key((#[trigger] st0[k2]).0)
            && colored[st0[k2].0] == col[st0[k2].0] && !colors_fixed@.contains(col[st0[k2].0]) by {
            let v = st0[k2].0;
            assert(lookup@.contains_key(v));
            let idx = lookup@[v];
            assert(indices@.to_set().contains(idx));
            let q2 = choose|q2: int| 0 <= q2 < indices@.len() && indices@[q2] == idx;
            assert(color_nodes(color_graph)[indices@[q2]].0 == v);
            assert(colored.contains_key(v));
            let c = choose|c: int| 0 <= c < colors@.len() && colors@[c] == col[v];
        }
        lemma_allocates(lifetimes@, colors_fixed@, inter_graph, nodes@, vars@, n as int, st0, order, col, colored, map@);
        assert forall|d: int| #[trigger] degrees_below(lifetimes@, colors_fixed@, d) implies forall|v: usize|
            v < lifetimes@.len() && !colors_fixed@.contains(v) ==> #[trigger] free_below(colors_fixed@, map@[v]).len() < d by {
            assert forall|v: usize| v < lifetimes@.len() && !colors_fixed@.contains(v) implies #[trigger] free_below(
                colors_fixed@, map@[v]).len() < d by {
                assert(((v as int) as usize) == v);
                assert(free_neighbors(lifetimes@, colors_fixed@, v as int).len() < d);
                lemma_degree_from_overlaps(inter_graph, nodes@, vars@, lifetimes@, colors_fixed@, d);
                assert(n <= d);
                let k2 = choose|k2: int| 0 <= k2 < st0.len() && (#[trigger] st0[k2]).0 == v;
                assert(lookup@.contains_key(v));
                let c = choose|c: int| 0 <= c < colors@.len() && colors@[c] == col[v];
                lemma_free_below(colors@, colors_fixed@, c);
                assert(map@[v] == col[v]);
            }
        }
        assert forall|v: usize| v < lifetimes@.len() && !colors_fixed@.contains(v) implies #[trigger] free_below(
            colors_fixed@, map@[v]).len() < n by {
            let k2 = choose|k2: int| 0 <= k2 < st0.len() && (#[trigger] st0[k2]).0 == v;
            assert(lookup@.contains_key(v));
            let c = choose|c: int| 0 <= c < colors@.len() && colors@[c] == col[v];
            lemma_free_below(colors@, colors_fixed@, c);
            assert(map@[v] == col[v]);
        }
        assert(uses_below(map@, lifetimes@, colors_fixed@, n as int));
        assert forall|m: int| 1 <= m < n implies #[trigger] overlap_core(lifetimes@, colors_fixed@, m) by {
            lemma_core_overlaps(inter_graph, nodes@, vars@, lifetimes@, colors_fixed@, m);
        }
        assert(fewest(map@, lifetimes@, colors_fixed@));
        assert forall|v: usize, x: usize| #![trigger map@[v], colors_fixed@.contains(x)]
            v < lifetimes@.len() && !colors_fixed@.contains(v) && x < map@[v] && !colors_fixed@.contains(x) implies exists|w: usize|
            w < lifetimes@.len() && !colors_fixed@.contains(w) && w != v && overlap(lifetimes@, v as int, w as int)
                && #[trigger] map@[w] == x by {
            let k2 = choose|k2: int| 0 <= k2 < st0.len() && (#[trigger] st0[k2]).0 == v;
            assert(lookup@.contains_key(v));
            assert(map@[v] == col[v]);
            assert(lowest_at(col, colors@, st0[k2]));
            let cc = choose|cc: int| 0 <= cc < colors@.len() && colors@[cc] == col[st0[k2].0] && forall|c2: int|
                0 <= c2 < cc ==> #[trigger] taken_by(col, st0[k2].1@, colors@[c2]);
            assert(colors@[cc] <= colors@.last()) by {
                if cc < colors@.len() - 1 {
                    assert(colors@[cc] < colors@[colors@.len() - 1]);
                }
            }
            assert(colors@.contains(x));
            let c2 = choose|c2: int| 0 <= c2 < colors@.len() && colors@[c2] == x;
            if c2 >= cc {
                if c2 > cc {
                    assert(colors@[cc] < colors@[c2]);
                }
                assert(false);
            }
            assert(taken_by(col, st0[k2].1@, colors@[c2]));
            let t = choose|t: usize| st0[k2].1@.contains(t) && col[t] == x;
            let y = choose|y: usize| #[trigger] inter_edges(inter_graph).contains((order[k2], y)) && t == inter_nodes(inter_graph)[y];
            lemma_neighbor_overlaps(inter_graph, nodes@, vars@, lifetimes@, colors_fixed@, order[k2], y);
            assert(inter_nodes(inter_graph)[order[k2]] == v);
            assert(free_neighbors(lifetimes@, colors_fixed@, v as int).contains(t as int));
            assert(((t as int) as usize) == t);
            let k3 = choose|k3: int| 0 <= k3 < st0.len() && (#[trigger] st0[k3]).0 == t;
            assert(lookup@.contains_key(t));
            assert(map@[t] == col[t]);
        }
        assert(lowest_free(map@, lifetimes@, colors_fixed@));
        assert forall|v: usize| #[trigger] map@.contains_key(v) implies v < lifetimes@.len() || colors_fixed@.contains(v) by {
            if !colors_fixed@.contains(v) {
                assert(colored.contains_key(v));
                assert(lookup@.contains_key(v));
                let k2 = choose|k2: int| 0 <= k2 < st0.len() && (#[trigger] st0[k2]).0 == v;
                assert(order.to_set().contains(order[k2]));
                assert(nodes@.to_set().contains(order[k2]));
                let p = choose|p: int| 0 <= p < nodes@.len() && nodes@[p] == order[k2];
                assert(vars@[p] < lifetimes@.len());
            }
        }
    }
    Ok(map)
}

} // verus!
