//! Questions about the shape of a graph: completeness, emptiness, subgraphs,
//! adjacency, order and size.

use crate::graph::order::{id_laws, lists_in_order};
use crate::graph::{copy_id, has_edge, ordered_keys, GraphData, GraphModel};
use vstd::prelude::*;
use vstd::std_specs::cmp::PartialEqSpec;

verus! {

/// Every node has an edge to all but one of the ids of the graph, and each
/// edge has an edge that leads back.
pub open spec fn complete<I, N, E>(g: GraphModel<I, N, E>) -> bool {
    forall|id: I| #[trigger]
        g.contains_key(id) ==> {
            &&& g[id].adjacencies.len() == g.len() - 1
            &&& forall|nb: I| #[trigger]
                g[id].adjacencies.contains_key(nb) ==> has_edge(g, nb, id)
        }
}

/// No node has an edge.
pub open spec fn edgeless<I, N, E>(g: GraphModel<I, N, E>) -> bool {
    forall|id: I| #[trigger] g.contains_key(id) ==> g[id].adjacencies.len() == 0
}

/// Every node of `sub` is a node of `g`, and every neighbor of a node in `sub`
/// is a neighbor of that node in `g`. Payloads play no part.
pub open spec fn subgraph<I, N, E>(g: GraphModel<I, N, E>, sub: GraphModel<I, N, E>) -> bool {
    forall|id: I| #[trigger]
        sub.contains_key(id) ==> {
            &&& g.contains_key(id)
            &&& forall|nb: I| #[trigger]
                sub[id].adjacencies.contains_key(nb) ==> g[id].adjacencies.contains_key(nb)
        }
}

/// The edges that `g` stores, each as the pair of its source and its target.
/// An edge that is stored in both directions is two members.
pub open spec fn stored_edges<I, N, E>(g: GraphModel<I, N, E>) -> Set<(I, I)> {
    Set::new(|p: (I, I)| has_edge(g, p.0, p.1))
}

/// The stored edges of `g` whose source is in `sources`.
pub open spec fn edges_from<I, N, E>(g: GraphModel<I, N, E>, sources: Set<I>) -> Set<(I, I)> {
    Set::new(|p: (I, I)| sources.contains(p.0) && has_edge(g, p.0, p.1))
}

/// `n`, or the largest `usize` if `n` is larger.
pub open spec fn capped(n: nat) -> usize {
    if n <= usize::MAX {
        n as usize
    } else {
        usize::MAX
    }
}

/// The number of edges of a graph with `stored` stored edges: half of them
/// where each edge is stored in both directions.
pub open spec fn size_of(stored: nat, mirrored: bool) -> usize {
    if mirrored {
        (capped(stored) / 2) as usize
    } else {
        capped(stored)
    }
}

/// Taking in the edges of one more source `a` adds as many edges as `a` has
/// neighbors.
proof fn lemma_edges_from_more<I, N, E>(g: GraphModel<I, N, E>, sources: Set<I>, a: I)
    requires
        edges_from(g, sources).finite(),
        !sources.contains(a),
        g.contains_key(a),
        g[a].adjacencies.dom().finite(),
    ensures
        edges_from(g, sources.insert(a)).finite(),
        edges_from(g, sources.insert(a)).len() == edges_from(g, sources).len()
            + g[a].adjacencies.len(),
{
    let nbs = g[a].adjacencies.dom();
    let pair = |b: I| (a, b);
    let out = nbs.map(pair);
    assert(vstd::relations::injective_on(pair, nbs));
    vstd::set_lib::lemma_map_size(nbs, out, pair);
    let before = edges_from(g, sources);
    let after = edges_from(g, sources.insert(a));
    assert forall|p: (I, I)| after.contains(p) <==> before.contains(p) || out.contains(p) by {
        if out.contains(p) {
            let b = choose|b: I| nbs.contains(b) && pair(b) == p;
            assert(has_edge(g, a, b));
        }
        if after.contains(p) && !before.contains(p) {
            assert(pair(p.1) == p);
        }
    }
    assert(after =~= before + out);
    assert(before.disjoint(out)) by {
        assert forall|p: (I, I)| !(before.contains(p) && out.contains(p)) by {
            if out.contains(p) {
                let b = choose|b: I| nbs.contains(b) && pair(b) == p;
            }
        }
    }
    vstd::set_lib::lemma_set_disjoint_lens(before, out);
}

/// `==` on node payloads and on edge payloads computes what the payload
/// types state of it.
pub open spec fn eq_laws<N: PartialEq, E: PartialEq>() -> bool {
    N::obeys_eq_spec() && E::obeys_eq_spec()
}

/// The two graphs have the same nodes and the same edges, and `==` holds
/// between the payloads of each node and of each edge.
pub open spec fn alike<I, N: PartialEq, E: PartialEq>(
    g: GraphModel<I, N, E>,
    h: GraphModel<I, N, E>,
) -> bool {
    &&& forall|id: I| g.contains_key(id) <==> h.contains_key(id)
    &&& forall|id: I| #[trigger]
        g.contains_key(id) ==> {
            &&& g[id].data.eq_spec(&h[id].data)
            &&& forall|nb: I|
                g[id].adjacencies.contains_key(nb) <==> h[id].adjacencies.contains_key(nb)
            &&& forall|nb: I| #[trigger]
                g[id].adjacencies.contains_key(nb) ==> g[id].adjacencies[nb].eq_spec(
                    &h[id].adjacencies[nb],
                )
        }
}

/// Both `a` and `b` are nodes and an edge leads from `a` to `b`.
pub open spec fn adjacent<I, N, E>(g: GraphModel<I, N, E>, a: I, b: I) -> bool {
    g.contains_key(a) && g.contains_key(b) && g[a].adjacencies.contains_key(b)
}

impl<I: Ord + Clone, N, E> GraphData<I, N, E> {
    pub fn is_complete(&self) -> (r: bool)
        requires
            id_laws::<I>(),
        ensures
            r == complete(self@),
    {
        let n = self.node_count();
        let ids = self.node_ids();
        let mut i: usize = 0;
        while i < ids.len()
            invariant
                id_laws::<I>(),
                0 <= i <= ids.len(),
                n == self@.len(),
                self@.dom().finite(),
                lists_in_order(ids@, self@.dom()),
                forall|j: int|
                    0 <= j < i ==> {
                        &&& (#[trigger] self@[ids@[j]]).adjacencies.len() == n - 1
                        &&& forall|nb: I| #[trigger]
                            self@[ids@[j]].adjacencies.contains_key(nb) ==> has_edge(
                                self@,
                                nb,
                                ids@[j],
                            )
                    },
            decreases ids.len() - i,
        {
            let node = self.node(&ids[i]).unwrap();
            if node.adjacencies().len() != n - 1 {
                return false;
            }
            let nbs = ordered_keys(node.adjacencies());
            let mut k: usize = 0;
            while k < nbs.len()
                invariant
                    id_laws::<I>(),
                    0 <= k <= nbs.len(),
                    0 <= i < ids.len(),
                    self@.contains_key(ids@[i as int]),
                    lists_in_order(nbs@, self@[ids@[i as int]].adjacencies.dom()),
                    forall|m: int|
                        0 <= m < k ==> has_edge(self@, #[trigger] nbs@[m], ids@[i as int]),
                decreases nbs.len() - k,
            {
                if !self.edge_exists(&nbs[k], &ids[i]) {
                    assert(nbs@.contains(nbs@[k as int]));
                    return false;
                }
                k += 1;
            }
            proof {
                assert forall|nb: I| #[trigger]
                    self@[ids@[i as int]].adjacencies.contains_key(nb) implies has_edge(
                    self@,
                    nb,
                    ids@[i as int],
                ) by {
                    let m = choose|m: int| 0 <= m < nbs@.len() && nbs@[m] == nb;
                    assert(has_edge(self@, nbs@[m], ids@[i as int]));
                }
            }
            i += 1;
        }
        proof {
            assert forall|id: I| #[trigger] self@.contains_key(id) implies {
                &&& self@[id].adjacencies.len() == self@.len() - 1
                &&& forall|nb: I| #[trigger]
                    self@[id].adjacencies.contains_key(nb) ==> has_edge(self@, nb, id)
            } by {
                let j = choose|j: int| 0 <= j < ids@.len() && ids@[j] == id;
                assert(self@[ids@[j]].adjacencies.len() == n - 1);
            }
        }
        true
    }
}

impl<I: Ord + Clone, N, E> GraphData<I, N, E> {
    /// Whether no node has an edge. A graph without nodes is empty.
    pub fn is_empty(&self) -> (r: bool)
        requires
            id_laws::<I>(),
        ensures
            r == edgeless(self@),
    {
        let ids = self.node_ids();
        let mut i: usize = 0;
        while i < ids.len()
            invariant
                id_laws::<I>(),
                0 <= i <= ids.len(),
                lists_in_order(ids@, self@.dom()),
                forall|j: int| 0 <= j < i ==> (#[trigger] self@[ids@[j]]).adjacencies.len() == 0,
            decreases ids.len() - i,
        {
            let node = self.node(&ids[i]).unwrap();
            if node.adjacencies().len() != 0 {
                return false;
            }
            i += 1;
        }
        proof {
            assert forall|id: I| #[trigger]
                self@.contains_key(id) implies self@[id].adjacencies.len() == 0 by {
                let j = choose|j: int| 0 <= j < ids@.len() && ids@[j] == id;
                assert(self@[ids@[j]].adjacencies.len() == 0);
            }
        }
        true
    }

    /// Whether the graph is one node without an edge.
    pub fn is_trivial(&self) -> (r: bool)
        requires
            id_laws::<I>(),
        ensures
            r == (self@.len() == 1 && edgeless(self@)),
    {
        self.node_count() == 1 && self.is_empty()
    }

    /// Whether the graph has no node.
    pub fn is_null(&self) -> (r: bool)
        requires
            id_laws::<I>(),
        ensures
            r == (self@ == GraphModel::<I, N, E>::empty()),
    {
        let n = self.node_count();
        proof {
            if n == 0 {
                assert(self@ =~= GraphModel::<I, N, E>::empty());
            } else {
                assert(GraphModel::<I, N, E>::empty().len() == 0);
            }
        }
        n == 0
    }

    pub fn is_child_node(&self, node_1: I) -> (r: bool)
        requires
            id_laws::<I>(),
        ensures
            r == self@.contains_key(node_1),
    {
        self.contains_node(node_1)
    }

    /// Whether `subgraph` lies within this graph: its nodes are nodes here, and
    /// the neighbors of each are neighbors here. Payloads are not compared.
    pub fn is_subgraph(&self, subgraph: &Self) -> (r: bool)
        requires
            id_laws::<I>(),
        ensures
            r == self::subgraph(self@, subgraph@),
    {
        let ids = subgraph.node_ids();
        let mut i: usize = 0;
        while i < ids.len()
            invariant
                id_laws::<I>(),
                0 <= i <= ids.len(),
                lists_in_order(ids@, subgraph@.dom()),
                forall|j: int|
                    0 <= j < i ==> {
                        &&& self@.contains_key(#[trigger] ids@[j])
                        &&& forall|nb: I| #[trigger]
                            subgraph@[ids@[j]].adjacencies.contains_key(nb)
                                ==> self@[ids@[j]].adjacencies.contains_key(nb)
                    },
            decreases ids.len() - i,
        {
            let sub_node = subgraph.node(&ids[i]).unwrap();
            match self.node(&ids[i]) {
                None => {
                    return false;
                },
                Some(node) => {
                    let nbs = ordered_keys(sub_node.adjacencies());
                    let mut k: usize = 0;
                    while k < nbs.len()
                        invariant
                            id_laws::<I>(),
                            0 <= k <= nbs.len(),
                            0 <= i < ids.len(),
                            subgraph@.contains_key(ids@[i as int]),
                            self@.contains_key(ids@[i as int]),
                            node@ == self@[ids@[i as int]],
                            lists_in_order(nbs@, subgraph@[ids@[i as int]].adjacencies.dom()),
                            forall|m: int|
                                0 <= m < k ==> self@[ids@[i as int]].adjacencies.contains_key(
                                    #[trigger] nbs@[m],
                                ),
                        decreases nbs.len() - k,
                    {
                        if !node.adjacencies().contains_key(&nbs[k]) {
                            assert(nbs@.contains(nbs@[k as int]));
                            return false;
                        }
                        k += 1;
                    }
                    proof {
                        assert forall|nb: I| #[trigger]
                            subgraph@[ids@[i as int]].adjacencies.contains_key(
                                nb,
                            ) implies self@[ids@[i as int]].adjacencies.contains_key(nb) by {
                            let m = choose|m: int| 0 <= m < nbs@.len() && nbs@[m] == nb;
                            assert(self@[ids@[i as int]].adjacencies.contains_key(nbs@[m]));
                        }
                    }
                },
            }
            i += 1;
        }
        proof {
            assert forall|id: I| #[trigger] subgraph@.contains_key(id) implies {
                &&& self@.contains_key(id)
                &&& forall|nb: I| #[trigger]
                    subgraph@[id].adjacencies.contains_key(nb)
                        ==> self@[id].adjacencies.contains_key(nb)
            } by {
                let j = choose|j: int| 0 <= j < ids@.len() && ids@[j] == id;
                assert(self@.contains_key(ids@[j]));
            }
        }
        true
    }

    /// Whether `subgraph` lies within this graph and has as many nodes.
    pub fn is_spanning_subgraph(&self, subgraph: &Self) -> (r: bool)
        requires
            id_laws::<I>(),
        ensures
            r == (self@.len() == subgraph@.len() && self::subgraph(self@, subgraph@)),
    {
        self.node_count() == subgraph.node_count() && self.is_subgraph(subgraph)
    }

    /// Whether both are nodes and an edge leads from `node_1` to `node_2`.
    pub fn are_adjacent_nodes(&self, node_1: I, node_2: I) -> (r: bool)
        requires
            id_laws::<I>(),
        ensures
            r == adjacent(self@, node_1, node_2),
    {
        self.0.contains_key(&node_1) && self.0.contains_key(&node_2) && self.edge_exists(
            &node_1,
            &node_2,
        )
    }

    /// Whether an edge leads from `node_1` to `node_2` and one from `node_2`
    /// to `node_3`, all three being nodes.
    pub fn are_adjacent_edges(&self, node_1: I, node_2: I, node_3: I) -> (r: bool)
        requires
            id_laws::<I>(),
        ensures
            r == (adjacent(self@, node_1, node_2) && adjacent(self@, node_2, node_3)),
    {
        let middle = copy_id(&node_2);
        self.are_adjacent_nodes(node_1, middle) && self.are_adjacent_nodes(node_2, node_3)
    }

    /// The number of stored edges, or the largest `usize` if there are more.
    pub fn edge_count(&self) -> (n: usize)
        requires
            id_laws::<I>(),
        ensures
            stored_edges(self@).finite(),
            n == capped(stored_edges(self@).len()),
    {
        let ids = self.node_ids();
        let mut total: usize = 0;
        let mut i: usize = 0;
        proof {
            self.lemma_finite();
            assert(edges_from(self@, ids@.take(0).to_set()) =~= Set::<(I, I)>::empty());
        }
        while i < ids.len()
            invariant
                id_laws::<I>(),
                0 <= i <= ids.len(),
                lists_in_order(ids@, self@.dom()),
                crate::graph::walk::finite_graph(self@),
                edges_from(self@, ids@.take(i as int).to_set()).finite(),
                total == capped(edges_from(self@, ids@.take(i as int).to_set()).len()),
            decreases ids.len() - i,
        {
            let node = self.node(&ids[i]).unwrap();
            proof {
                let done = ids@.take(i as int).to_set();
                crate::graph::order::lemma_increasing_no_duplicates(ids@);
                assert(!done.contains(ids@[i as int])) by {
                    if done.contains(ids@[i as int]) {
                        let j = choose|j: int|
                            0 <= j < ids@.take(i as int).len() && ids@.take(i as int)[j]
                                == ids@[i as int];
                    }
                }
                lemma_edges_from_more(self@, done, ids@[i as int]);
                assert(ids@.take(i + 1) =~= ids@.take(i as int).push(ids@[i as int]));
                assert(ids@.take(i + 1).to_set() =~= done.insert(ids@[i as int])) by {
                    ids@.take(i as int).lemma_push_to_set_commute(ids@[i as int]);
                }
            }
            total = total.saturating_add(node.adjacencies().len());
            i += 1;
        }
        proof {
            assert(ids@.take(ids@.len() as int) =~= ids@);
            assert(edges_from(self@, ids@.to_set()) =~= stored_edges(self@)) by {
                assert forall|p: (I, I)| stored_edges(self@).contains(p) implies edges_from(
                    self@,
                    ids@.to_set(),
                ).contains(p) by {
                    assert(ids@.contains(p.0));
                }
            }
        }
        total
    }

    /// The number of nodes.
    pub fn order(&self) -> (n: usize)
        requires
            id_laws::<I>(),
        ensures
            n == self@.len(),
    {
        self.node_count()
    }
}

/// The edges of two nodes have the same targets, and `==` holds between the
/// payloads of each.
pub open spec fn edges_alike<I, E: PartialEq>(a: Map<I, E>, b: Map<I, E>) -> bool {
    &&& forall|nb: I| a.contains_key(nb) <==> b.contains_key(nb)
    &&& forall|nb: I| #[trigger] a.contains_key(nb) ==> a[nb].eq_spec(&b[nb])
}

/// Whether two adjacency maps have the same keys with equal payloads.
fn same_edges<I: Ord + Clone, E: PartialEq>(
    a: &std::collections::BTreeMap<I, E>,
    b: &std::collections::BTreeMap<I, E>,
) -> (r: bool)
    requires
        id_laws::<I>(),
    ensures
        E::obeys_eq_spec() ==> r == edges_alike(a@, b@),
{
    if a.len() != b.len() {
        proof {
            if forall|nb: I| a@.contains_key(nb) <==> b@.contains_key(nb) {
                assert(a@.dom() =~= b@.dom());
            }
        }
        return false;
    }
    let keys = ordered_keys(a);
    let mut k: usize = 0;
    while k < keys.len()
        invariant
            id_laws::<I>(),
            0 <= k <= keys.len(),
            lists_in_order(keys@, a@.dom()),
            forall|m: int|
                0 <= m < k ==> b@.contains_key(#[trigger] keys@[m]) && (E::obeys_eq_spec()
                    ==> a@[keys@[m]].eq_spec(&b@[keys@[m]])),
        decreases keys.len() - k,
    {
        let mine = a.get(&keys[k]).unwrap();
        match b.get(&keys[k]) {
            None => {
                return false;
            },
            Some(other) => {
                if !(*mine == *other) {
                    return false;
                }
            },
        }
        k += 1;
    }
    proof {
        assert forall|nb: I| a@.contains_key(nb) implies b@.contains_key(nb) && (E::obeys_eq_spec()
            ==> a@[nb].eq_spec(&b@[nb])) by {
            let m = choose|m: int| 0 <= m < keys@.len() && keys@[m] == nb;
            assert(b@.contains_key(keys@[m]));
        }
        vstd::set_lib::lemma_subset_equality(a@.dom(), b@.dom());
    }
    true
}

impl<I: Ord + Clone, N: PartialEq, E: PartialEq> GraphData<I, N, E> {
    /// Whether the two graphs are equal: the same nodes and edges, with
    /// payloads that `==` holds between.
    pub fn same_as(&self, other: &Self) -> (r: bool)
        requires
            id_laws::<I>(),
        ensures
            eq_laws::<N, E>() ==> r == alike(self@, other@),
    {
        if self.node_count() != other.node_count() {
            proof {
                if forall|id: I| self@.contains_key(id) <==> other@.contains_key(id) {
                    assert(self@.dom() =~= other@.dom());
                }
            }
            return false;
        }
        let ids = self.node_ids();
        let mut i: usize = 0;
        while i < ids.len()
            invariant
                id_laws::<I>(),
                0 <= i <= ids.len(),
                lists_in_order(ids@, self@.dom()),
                forall|j: int|
                    0 <= j < i ==> other@.contains_key(#[trigger] ids@[j]) && (N::obeys_eq_spec()
                        && E::obeys_eq_spec() ==> self@[ids@[j]].data.eq_spec(&other@[ids@[j]].data)
                        && edges_alike(self@[ids@[j]].adjacencies, other@[ids@[j]].adjacencies)),
            decreases ids.len() - i,
        {
            let mine = self.node(&ids[i]).unwrap();
            match other.node(&ids[i]) {
                None => {
                    return false;
                },
                Some(theirs) => {
                    if !(*mine.data() == *theirs.data()) {
                        return false;
                    }
                    if !same_edges(mine.adjacencies(), theirs.adjacencies()) {
                        return false;
                    }
                },
            }
            i += 1;
        }
        proof {
            assert forall|id: I| self@.contains_key(id) implies other@.contains_key(id) && (
            N::obeys_eq_spec() && E::obeys_eq_spec() ==> self@[id].data.eq_spec(&other@[id].data)
                && edges_alike(self@[id].adjacencies, other@[id].adjacencies)) by {
                let j = choose|j: int| 0 <= j < ids@.len() && ids@[j] == id;
                assert(other@.contains_key(ids@[j]));
            }
            vstd::set_lib::lemma_subset_equality(self@.dom(), other@.dom());
        }
        true
    }

    /// Whether `subgraph` lies within this graph and is not equal to it.
    pub fn is_proper_subgraph(&self, subgraph: &Self) -> (r: bool)
        requires
            id_laws::<I>(),
        ensures
            eq_laws::<N, E>() ==> r == (!alike(self@, subgraph@) && self::subgraph(
                self@,
                subgraph@,
            )),
    {
        !self.same_as(subgraph) && self.is_subgraph(subgraph)
    }

    /// Whether `subgraph` is equal to this graph.
    pub fn is_improper_subgraph(&self, subgraph: &Self) -> (r: bool)
        requires
            id_laws::<I>(),
        ensures
            eq_laws::<N, E>() ==> r == alike(self@, subgraph@),
    {
        self.same_as(subgraph)
    }
}

} // verus!
