//! The graph container: node payloads and per-node adjacency maps.

pub mod laws;
pub mod order;
pub mod predicates;
pub mod shortest;
pub mod traverser;
pub mod walk;

use crate::graph::order::{
    clone_laws, id_laws, in_order, lemma_in_order_is, lemma_increasing_keys, lists_in_order,
};
use crate::graph::predicates::{
    adjacent, alike, complete, edgeless, eq_laws, size_of, stored_edges, subgraph,
};
use std::collections::BTreeMap;
use std::marker::PhantomData;
use vstd::prelude::*;
use vstd::std_specs::iter::IteratorSpec;

verus! {

/// Why a change to the nodes or edges of a graph was refused.
#[derive(Debug, Clone, Copy, PartialEq, Eq, Structural)]
pub enum Error {
    NodeNotFound,
    NodeAlreadyExists,
    EdgeNotFound,
    EdgeAlreadyExists,
}

impl Error {
    /// The text that describes this error.
    pub open spec fn text(self) -> Seq<char> {
        match self {
            Error::NodeNotFound => "Graph Error: Node Not Found"@,
            Error::NodeAlreadyExists => "Graph Error: Node Already Exists"@,
            Error::EdgeNotFound => "Graph Error: Edge Not Found"@,
            Error::EdgeAlreadyExists => "Graph Error: Edge Already Exists"@,
        }
    }

    pub fn message(&self) -> (s: &'static str)
        ensures
            s@ == self.text(),
    {
        match self {
            Error::NodeNotFound => "Graph Error: Node Not Found",
            Error::NodeAlreadyExists => "Graph Error: Node Already Exists",
            Error::EdgeNotFound => "Graph Error: Edge Not Found",
            Error::EdgeAlreadyExists => "Graph Error: Edge Already Exists",
        }
    }
}

/// The edges that leave one node: neighbor id to edge payload.
pub type AdjacencyData<I, E> = BTreeMap<I, E>;

/// What a node holds, as mathematical values.
#[verifier::reject_recursive_types(I)]
pub struct NodeModel<I, N, E> {
    pub data: N,
    pub adjacencies: Map<I, E>,
}

/// A graph as mathematical values: node id to what the node holds.
pub type GraphModel<I, N, E> = Map<I, NodeModel<I, N, E>>;

/// A node: its payload and the edges that leave it.
#[derive(Debug, Clone, PartialEq, Eq)]
pub struct NodeData<I, N, E> {
    data: N,
    adjacencies: AdjacencyData<I, E>,
}

impl<I, N, E> View for NodeData<I, N, E> {
    type V = NodeModel<I, N, E>;

    closed spec fn view(&self) -> NodeModel<I, N, E> {
        NodeModel { data: self.data, adjacencies: self.adjacencies@ }
    }
}

impl<I, N, E> NodeData<I, N, E> {
    pub fn new(data: N) -> (node: Self)
        ensures
            node@ == (NodeModel { data, adjacencies: Map::<I, E>::empty() }),
    {
        Self { data, adjacencies: BTreeMap::new() }
    }

    #[inline]
    pub fn data(&self) -> (d: &N)
        ensures
            *d == self@.data,
    {
        &self.data
    }

    #[inline]
    pub fn data_mut(&mut self) -> (d: &mut N)
        ensures
            *d == old(self)@.data,
            final(self)@ == (NodeModel { data: *final(d), adjacencies: old(self)@.adjacencies }),
    {
        &mut self.data
    }

    #[inline]
    pub fn adjacencies(&self) -> (a: &AdjacencyData<I, E>)
        ensures
            a@ == self@.adjacencies,
    {
        &self.adjacencies
    }

    #[inline]
    pub fn adjacencies_mut(&mut self) -> (a: &mut AdjacencyData<I, E>)
        ensures
            a@ == old(self)@.adjacencies,
            final(self)@ == (NodeModel { data: old(self)@.data, adjacencies: final(a)@ }),
    {
        &mut self.adjacencies
    }
}

/// Whether the graph `g` has an edge from `a` to `b`.
pub open spec fn has_edge<I, N, E>(g: GraphModel<I, N, E>, a: I, b: I) -> bool {
    g.contains_key(a) && g[a].adjacencies.contains_key(b)
}

/// The graph `g` with a node `id` that holds `data` and has no edges.
pub open spec fn with_node<I, N, E>(g: GraphModel<I, N, E>, id: I, data: N) -> GraphModel<
    I,
    N,
    E,
> {
    g.insert(id, NodeModel { data, adjacencies: Map::empty() })
}

/// What adding a node under `id` to `g` answers: the id must not be taken.
pub open spec fn add_node_outcome<I, N, E>(g: GraphModel<I, N, E>, id: I) -> Result<(), Error> {
    if g.contains_key(id) {
        Err(Error::NodeAlreadyExists)
    } else {
        Ok(())
    }
}

/// The graph `g` after a node that holds `data` was added under `id`: as
/// before if the id was taken.
pub open spec fn node_added<I, N, E>(g: GraphModel<I, N, E>, id: I, data: N) -> GraphModel<
    I,
    N,
    E,
> {
    if g.contains_key(id) {
        g
    } else {
        with_node(g, id, data)
    }
}

/// The graph `g` with the payload of the node `id` replaced by `data`.
pub open spec fn with_payload<I, N, E>(g: GraphModel<I, N, E>, id: I, data: N) -> GraphModel<
    I,
    N,
    E,
> {
    g.insert(id, NodeModel { data, adjacencies: g[id].adjacencies })
}

/// The graph `g` with the edges that leave the node `id` replaced by `adjacencies`.
pub open spec fn with_adjacencies<I, N, E>(
    g: GraphModel<I, N, E>,
    id: I,
    adjacencies: Map<I, E>,
) -> GraphModel<I, N, E> {
    g.insert(id, NodeModel { data: g[id].data, adjacencies })
}

/// The graph `g` with the edge from `a` to `b` set to `w`.
pub open spec fn with_edge<I, N, E>(g: GraphModel<I, N, E>, a: I, b: I, w: E) -> GraphModel<
    I,
    N,
    E,
> {
    with_adjacencies(g, a, g[a].adjacencies.insert(b, w))
}

/// The graph `g` without the edge from `a` to `b`.
pub open spec fn without_edge<I, N, E>(g: GraphModel<I, N, E>, a: I, b: I) -> GraphModel<I, N, E> {
    with_adjacencies(g, a, g[a].adjacencies.remove(b))
}

/// The nodes of `g`, none with an edge left.
pub open spec fn without_edges<I, N, E>(g: GraphModel<I, N, E>) -> GraphModel<I, N, E> {
    Map::new(
        |id: I| g.contains_key(id),
        |id: I| NodeModel { data: g[id].data, adjacencies: Map::empty() },
    )
}

/// What adding the edge from `a` to `b` to `g` answers: both ends have to be
/// nodes, and the edge must not be there yet.
pub open spec fn add_edge_outcome<I, N, E>(g: GraphModel<I, N, E>, a: I, b: I) -> Result<
    (),
    Error,
> {
    if !g.contains_key(a) {
        Err(Error::NodeNotFound)
    } else if g[a].adjacencies.contains_key(b) {
        Err(Error::EdgeAlreadyExists)
    } else if !g.contains_key(b) {
        Err(Error::NodeNotFound)
    } else {
        Ok(())
    }
}

/// The nodes of `g`, none with an edge to `id` left.
pub open spec fn without_edges_to<I, N, E>(g: GraphModel<I, N, E>, id: I) -> GraphModel<I, N, E> {
    Map::new(
        |x: I| g.contains_key(x),
        |x: I| NodeModel { data: g[x].data, adjacencies: g[x].adjacencies.remove(id) },
    )
}

/// The graph `g` without the node `id`, without the edges that leave it and
/// without the edges that lead to it.
pub open spec fn without_node<I, N, E>(g: GraphModel<I, N, E>, id: I) -> GraphModel<I, N, E> {
    without_edges_to(g.remove(id), id)
}

/// The graph `g` after the node `id` was removed: as before if `id` was no
/// node.
pub open spec fn node_removed<I, N, E>(g: GraphModel<I, N, E>, id: I) -> GraphModel<I, N, E> {
    if g.contains_key(id) {
        without_node(g, id)
    } else {
        g
    }
}

/// What removing the edge from `a` to `b` from `g` answers.
pub open spec fn remove_edge_outcome<I, N, E>(g: GraphModel<I, N, E>, a: I, b: I) -> Result<
    (),
    Error,
> {
    if !g.contains_key(a) {
        Err(Error::NodeNotFound)
    } else if !g[a].adjacencies.contains_key(b) {
        Err(Error::EdgeNotFound)
    } else {
        Ok(())
    }
}

/// What adding the edge between `a` and `b`, in both directions, answers:
/// both ends have to be nodes, and neither direction may be there yet.
pub open spec fn add_undirected_outcome<I, N, E>(g: GraphModel<I, N, E>, a: I, b: I) -> Result<
    (),
    Error,
> {
    if !g.contains_key(a) {
        Err(Error::NodeNotFound)
    } else if g[a].adjacencies.contains_key(b) {
        Err(Error::EdgeAlreadyExists)
    } else if !g.contains_key(b) {
        Err(Error::NodeNotFound)
    } else if g[b].adjacencies.contains_key(a) {
        Err(Error::EdgeAlreadyExists)
    } else {
        Ok(())
    }
}

/// The graph `g` without the edge from `a` to `b` and without the one from
/// `b` to `a`.
pub open spec fn without_undirected_edge<I, N, E>(g: GraphModel<I, N, E>, a: I, b: I) -> GraphModel<
    I,
    N,
    E,
> {
    let one_way = without_edge(g, a, b);
    if one_way.contains_key(b) {
        without_edge(one_way, b, a)
    } else {
        one_way
    }
}

/// What a map from node id to node holds, as mathematical values.
pub open spec fn nodes_model<I, N, E>(nodes: BTreeMap<I, NodeData<I, N, E>>) -> GraphModel<
    I,
    N,
    E,
> {
    Map::new(|id: I| nodes@.contains_key(id), |id: I| nodes@[id]@)
}

/// `BTreeMap::get_mut`: a mutable reference to the value stored under `k`, if
/// there is one; the map changes only in what is written through it.
#[verifier::external_body]
fn map_get_mut<'a, K: Ord, V>(m: &'a mut BTreeMap<K, V>, k: &K) -> (result: Option<&'a mut V>)
    ensures
        vstd::laws_cmp::obeys_cmp::<K>() ==> match result {
            Some(v) => {
                &&& old(m)@.contains_key(*k)
                &&& *v == old(m)@[*k]
                &&& final(m)@ == old(m)@.insert(*k, *final(v))
            },
            None => !old(m)@.contains_key(*k) && final(m)@ == old(m)@,
        },
{
    m.get_mut(k)
}

/// A copy of the id `id`.
pub fn copy_id<I: Ord + Clone>(id: &I) -> (c: I)
    requires
        id_laws::<I>(),
    ensures
        c == *id,
{
    let c = id.clone();
    assert(cloned::<I>(*id, c));
    c
}

/// The keys of `m` in increasing order.
pub fn ordered_keys<I: Ord + Clone, V>(m: &BTreeMap<I, V>) -> (keys: Vec<I>)
    requires
        id_laws::<I>(),
    ensures
        keys@ == in_order(m@.dom()),
        lists_in_order(keys@, m@.dom()),
{
    let mut keys: Vec<I> = Vec::new();
    for k in it: m.keys()
        invariant
            id_laws::<I>(),
            keys@ == it.seq().unref().take(it.index()),
    {
        keys.push(copy_id(k));
    }
    proof {
        let all = m.keys().remaining();
        assert(keys@ =~= all.unref());
        lemma_increasing_keys::<I>(all);
        assert forall|x: I| keys@.contains(x) <==> m@.dom().contains(x) by {
            if keys@.contains(x) {
                let i = choose|i: int| 0 <= i < keys@.len() && keys@[i] == x;
                assert(all.unref()[i] == x);
            }
            if m@.dom().contains(x) {
                assert(all.unref().to_set().contains(x));
            }
        }
        lemma_in_order_is(keys@, m@.dom());
    }
    keys
}

/// The nodes of a graph by id, each with its payload and outgoing edges.
#[derive(Debug, Clone, PartialEq, Eq)]
pub struct GraphData<I, N, E>(BTreeMap<I, NodeData<I, N, E>>);

impl<I, N, E> View for GraphData<I, N, E> {
    type V = GraphModel<I, N, E>;

    closed spec fn view(&self) -> GraphModel<I, N, E> {
        nodes_model(self.0)
    }
}

impl<I: Ord + Clone, N, E> GraphData<I, N, E> {
    pub fn new() -> (g: Self)
        ensures
            g@ == GraphModel::<I, N, E>::empty(),
    {
        let g = GraphData(BTreeMap::new());
        assert(g@ =~= GraphModel::<I, N, E>::empty());
        g
    }

    /// Adds the node `id` with no edges; refused if the id is taken.
    pub fn add_node(&mut self, id: I, data: N) -> (r: Result<(), Error>)
        requires
            id_laws::<I>(),
        ensures
            r == add_node_outcome(old(self)@, id),
            final(self)@ == node_added(old(self)@, id, data),
    {
        if self.0.contains_key(&id) {
            Err(Error::NodeAlreadyExists)
        } else {
            self.0.insert(id, NodeData::new(data));
            Ok(())
        }
    }

    pub fn get_node(&self, id: I) -> (r: Option<&N>)
        requires
            id_laws::<I>(),
        ensures
            match r {
                Some(data) => self@.contains_key(id) && *data == self@[id].data,
                None => !self@.contains_key(id),
            },
    {
        match self.0.get(&id) {
            Some(node) => Some(node.data()),
            None => None,
        }
    }

    pub fn get_node_mut(&mut self, id: I) -> (r: Option<&mut N>)
        requires
            id_laws::<I>(),
        ensures
            match r {
                Some(data) => old(self)@.contains_key(id) && *data == old(self)@[id].data
                    && final(self)@ == with_payload(old(self)@, id, *final(data)),
                None => !old(self)@.contains_key(id) && final(self)@ == old(self)@,
            },
    {
        match map_get_mut(&mut self.0, &id) {
            Some(node) => Some(node.data_mut()),
            None => None,
        }
    }

    pub fn get_nodes(&self) -> (nodes: &BTreeMap<I, NodeData<I, N, E>>)
        ensures
            nodes_model(*nodes) == self@,
    {
        &self.0
    }

    pub fn get_nodes_mut(&mut self) -> (nodes: &mut BTreeMap<I, NodeData<I, N, E>>)
        ensures
            nodes_model(*nodes) == old(self)@,
            final(self)@ == nodes_model(*final(nodes)),
    {
        &mut self.0
    }

    pub fn contains_node(&self, id: I) -> (r: bool)
        requires
            id_laws::<I>(),
        ensures
            r == self@.contains_key(id),
    {
        self.0.contains_key(&id)
    }

    /// Removes the edges that lead to `id` from every node.
    fn forget(&mut self, id: &I)
        requires
            id_laws::<I>(),
        ensures
            final(self)@ == without_edges_to(old(self)@, *id),
    {
        let ids = self.node_ids();
        let mut i: usize = 0;
        while i < ids.len()
            invariant
                id_laws::<I>(),
                0 <= i <= ids.len(),
                lists_in_order(ids@, old(self)@.dom()),
                self@.dom() == old(self)@.dom(),
                forall|x: I| self@.contains_key(x) ==> self@[x].data == old(self)@[x].data,
                forall|j: int|
                    0 <= j < i ==> (#[trigger] self@[ids@[j]]).adjacencies == old(
                        self,
                    )@[ids@[j]].adjacencies.remove(*id),
                forall|j: int|
                    i <= j < ids.len() ==> (#[trigger] self@[ids@[j]]).adjacencies == old(
                        self,
                    )@[ids@[j]].adjacencies,
            decreases ids.len() - i,
        {
            let ghost before = self@;
            assert(ids@.contains(ids@[i as int]));
            match map_get_mut(&mut self.0, &ids[i]) {
                Some(node) => {
                    node.adjacencies.remove(id);
                },
                None => {},
            }
            proof {
                crate::graph::order::lemma_increasing_no_duplicates(ids@);
                assert(self@.dom() =~= before.dom());
                assert forall|j: int| 0 <= j < ids.len() && j != i implies self@[ids@[j]]
                    == before[ids@[j]] by {
                    assert(ids@[j] != ids@[i as int]);
                }
            }
            i += 1;
        }
        proof {
            assert forall|x: I| self@.contains_key(x) implies self@[x] == without_edges_to(
                old(self)@,
                *id,
            )[x] by {
                assert(ids@.contains(x));
                let j = choose|j: int| 0 <= j < ids@.len() && ids@[j] == x;
                assert(self@[ids@[j]].adjacencies == old(self)@[ids@[j]].adjacencies.remove(*id));
            }
            assert(self@ =~= without_edges_to(old(self)@, *id));
        }
    }

    /// Takes the node `id` out of the graph, with its payload and the edges
    /// that leave it, which are returned. The edges that lead to it from
    /// other nodes are removed too, so that no edge is left without its end.
    pub fn remove_node(&mut self, id: I) -> (r: Result<NodeData<I, N, E>, Error>)
        requires
            id_laws::<I>(),
        ensures
            match r {
                Ok(node) => old(self)@.contains_key(id) && node@ == old(self)@[id],
                Err(e) => !old(self)@.contains_key(id) && e == Error::NodeNotFound,
            },
            final(self)@ == node_removed(old(self)@, id),
    {
        let r = self.0.remove(&id);
        assert(self@ =~= old(self)@.remove(id));
        match r {
            Some(node) => {
                self.forget(&id);
                Ok(node)
            },
            None => Err(Error::NodeNotFound),
        }
    }

    pub fn delete_node(&mut self, id: I) -> (r: Result<(), Error>)
        requires
            id_laws::<I>(),
        ensures
            r == (if old(self)@.contains_key(id) {
                Ok::<(), Error>(())
            } else {
                Err::<(), Error>(Error::NodeNotFound)
            }),
            final(self)@ == node_removed(old(self)@, id),
    {
        match self.remove_node(id) {
            Ok(_) => Ok(()),
            Err(e) => Err(e),
        }
    }

    /// Adds the edge from `id1` to `id2`; refused if one of the two is no
    /// node of the graph or the edge is there already.
    pub fn add_edge(&mut self, id1: I, id2: I, data: E) -> (r: Result<(), Error>)
        requires
            id_laws::<I>(),
        ensures
            r == add_edge_outcome(old(self)@, id1, id2),
            final(self)@ == (if r is Ok {
                with_edge(old(self)@, id1, id2, data)
            } else {
                old(self)@
            }),
    {
        if !self.0.contains_key(&id1) {
            return Err(Error::NodeNotFound);
        }
        if self.edge_exists(&id1, &id2) {
            return Err(Error::EdgeAlreadyExists);
        }
        if !self.0.contains_key(&id2) {
            return Err(Error::NodeNotFound);
        }
        match map_get_mut(&mut self.0, &id1) {
            Some(node) => {
                node.adjacencies.insert(id2, data);
                Ok(())
            },
            None => Err(Error::NodeNotFound),
        }
    }

    /// The same as `add_edge`: the edge leads one way only.
    pub fn add_directed_edge(&mut self, id1: I, id2: I, data: E) -> (r: Result<(), Error>)
        requires
            id_laws::<I>(),
        ensures
            r == add_edge_outcome(old(self)@, id1, id2),
            final(self)@ == (if r is Ok {
                with_edge(old(self)@, id1, id2, data)
            } else {
                old(self)@
            }),
    {
        self.add_edge(id1, id2, data)
    }

    pub fn get_edge(&self, id1: I, id2: I) -> (r: Option<&E>)
        requires
            id_laws::<I>(),
        ensures
            match r {
                Some(data) => has_edge(self@, id1, id2) && *data == self@[id1].adjacencies[id2],
                None => !has_edge(self@, id1, id2),
            },
    {
        match self.0.get(&id1) {
            Some(node) => node.adjacencies.get(&id2),
            None => None,
        }
    }

    pub fn get_edge_mut(&mut self, id1: I, id2: I) -> (r: Option<&mut E>)
        requires
            id_laws::<I>(),
        ensures
            match r {
                Some(data) => {
                    &&& has_edge(old(self)@, id1, id2)
                    &&& *data == old(self)@[id1].adjacencies[id2]
                    &&& final(self)@ == with_edge(old(self)@, id1, id2, *final(data))
                },
                None => !has_edge(old(self)@, id1, id2) && final(self)@ == old(self)@,
            },
    {
        match map_get_mut(&mut self.0, &id1) {
            Some(node) => map_get_mut(&mut node.adjacencies, &id2),
            None => None,
        }
    }

    pub fn get_edges(&self, id: I) -> (r: Option<&AdjacencyData<I, E>>)
        requires
            id_laws::<I>(),
        ensures
            match r {
                Some(edges) => self@.contains_key(id) && edges@ == self@[id].adjacencies,
                None => !self@.contains_key(id),
            },
    {
        match self.0.get(&id) {
            Some(node) => Some(node.adjacencies()),
            None => None,
        }
    }

    pub fn get_edges_mut(&mut self, id: I) -> (r: Option<&mut AdjacencyData<I, E>>)
        requires
            id_laws::<I>(),
        ensures
            match r {
                Some(edges) => old(self)@.contains_key(id) && edges@ == old(self)@[id].adjacencies
                    && final(self)@ == with_adjacencies(old(self)@, id, final(edges)@),
                None => !old(self)@.contains_key(id) && final(self)@ == old(self)@,
            },
    {
        match map_get_mut(&mut self.0, &id) {
            Some(node) => Some(node.adjacencies_mut()),
            None => None,
        }
    }

    pub fn contains_edge(&self, id1: I, id2: I) -> (r: bool)
        requires
            id_laws::<I>(),
        ensures
            r == has_edge(self@, id1, id2),
    {
        match self.0.get(&id1) {
            Some(node) => node.adjacencies.contains_key(&id2),
            None => false,
        }
    }

    /// Takes the edge from `id1` to `id2` out of the graph and returns its payload.
    pub fn remove_edge(&mut self, id1: I, id2: I) -> (r: Result<E, Error>)
        requires
            id_laws::<I>(),
        ensures
            match r {
                Ok(data) => {
                    &&& has_edge(old(self)@, id1, id2)
                    &&& data == old(self)@[id1].adjacencies[id2]
                    &&& final(self)@ == without_edge(old(self)@, id1, id2)
                },
                Err(e) => {
                    &&& remove_edge_outcome(old(self)@, id1, id2) == Err::<(), Error>(e)
                    &&& final(self)@ == old(self)@
                },
            },
    {
        let r = match map_get_mut(&mut self.0, &id1) {
            None => Err(Error::NodeNotFound),
            Some(node) => {
                match node.adjacencies.remove(&id2) {
                    Some(data) => Ok(data),
                    None => Err(Error::EdgeNotFound),
                }
            },
        };
        proof {
            if old(self)@.contains_key(id1) {
                if !has_edge(old(self)@, id1, id2) {
                    assert(self@[id1].adjacencies =~= old(self)@[id1].adjacencies);
                }
            }
        }
        r
    }

    pub fn delete_edge(&mut self, id1: I, id2: I) -> (r: Result<(), Error>)
        requires
            id_laws::<I>(),
        ensures
            r == remove_edge_outcome(old(self)@, id1, id2),
            final(self)@ == (if r is Ok {
                without_edge(old(self)@, id1, id2)
            } else {
                old(self)@
            }),
    {
        match self.remove_edge(id1, id2) {
            Ok(_) => Ok(()),
            Err(e) => Err(e),
        }
    }

    /// Whether the edge from `a` to `b` is there.
    pub(crate) fn edge_exists(&self, a: &I, b: &I) -> (r: bool)
        requires
            id_laws::<I>(),
        ensures
            r == has_edge(self@, *a, *b),
    {
        match self.0.get(a) {
            Some(node) => node.adjacencies.contains_key(b),
            None => false,
        }
    }

    /// The node stored under `id`, if there is one.
    pub(crate) fn node(&self, id: &I) -> (r: Option<&NodeData<I, N, E>>)
        requires
            id_laws::<I>(),
        ensures
            match r {
                Some(node) => self@.contains_key(*id) && node@ == self@[*id],
                None => !self@.contains_key(*id),
            },
    {
        self.0.get(id)
    }

    /// The ids of the nodes in increasing order.
    pub(crate) fn node_ids(&self) -> (ids: Vec<I>)
        requires
            id_laws::<I>(),
        ensures
            ids@ == in_order(self@.dom()),
            lists_in_order(ids@, self@.dom()),
    {
        assert(self@.dom() =~= self.0@.dom());
        ordered_keys(&self.0)
    }

    /// The graph has finitely many nodes, each with finitely many edges.
    pub proof fn lemma_finite(&self)
        ensures
            crate::graph::walk::finite_graph(self@),
    {
        assert(self@.dom() =~= self.0@.dom());
    }

    /// The number of nodes.
    pub(crate) fn node_count(&self) -> (n: usize)
        requires
            id_laws::<I>(),
        ensures
            n == self@.len(),
            self@.dom().finite(),
    {
        assert(self@.dom() =~= self.0@.dom());
        self.0.len()
    }

    /// Removes every edge and keeps the nodes.
    pub fn clear_edges(&mut self)
        requires
            id_laws::<I>(),
        ensures
            final(self)@ == without_edges(old(self)@),
    {
        let ids = self.node_ids();
        let mut i: usize = 0;
        while i < ids.len()
            invariant
                id_laws::<I>(),
                0 <= i <= ids.len(),
                lists_in_order(ids@, old(self)@.dom()),
                self@.dom() == old(self)@.dom(),
                forall|id: I| self@.contains_key(id) ==> self@[id].data == old(self)@[id].data,
                forall|j: int|
                    0 <= j < i ==> (#[trigger] self@[ids@[j]]).adjacencies == Map::<I, E>::empty(),
            decreases ids.len() - i,
        {
            let ghost before = self@;
            assert(ids@.contains(ids@[i as int]));
            match map_get_mut(&mut self.0, &ids[i]) {
                Some(node) => {
                    node.adjacencies.clear();
                },
                None => {},
            }
            proof {
                assert(self@.dom() =~= before.dom());
                assert forall|j: int| 0 <= j < i + 1 implies (#[trigger] self@[ids@[j]]).adjacencies
                    == Map::<I, E>::empty() by {
                    if j < i {
                        crate::graph::order::lemma_increasing_no_duplicates(ids@);
                        assert(self@[ids@[j]] == before[ids@[j]]);
                    }
                }
            }
            i += 1;
        }
        proof {
            assert forall|id: I| self@.contains_key(id) implies self@[id] == without_edges(
                old(self)@,
            )[id] by {
                let j = choose|j: int| 0 <= j < ids@.len() && ids@[j] == id;
                assert(self@[ids@[j]].adjacencies == Map::<I, E>::empty());
            }
        }
    }

    /// Removes every node, and with the nodes every edge.
    pub fn clear(&mut self)
        ensures
            final(self)@ == GraphModel::<I, N, E>::empty(),
    {
        self.0.clear();
    }
}

impl<I: Ord + Clone, N, E: Clone> GraphData<I, N, E> {
    /// Adds the edge between `id1` and `id2` in both directions, or changes
    /// nothing: refused unless both are nodes and neither direction is there.
    /// The direction from `id1` holds a clone of `data`, the other `data`.
    pub fn add_undirected_edge(&mut self, id1: I, id2: I, data: E) -> (r: Result<(), Error>)
        requires
            id_laws::<I>(),
        ensures
            r == add_undirected_outcome(old(self)@, id1, id2),
            r is Err ==> final(self)@ == old(self)@,
            r is Ok ==> ({
                let c = final(self)@[id1].adjacencies[id2];
                &&& cloned::<E>(data, c)
                &&& clone_laws::<E>() ==> c == data
                &&& final(self)@ == with_edge(with_edge(old(self)@, id2, id1, data), id1, id2, c)
            }),
    {
        if !self.0.contains_key(&id1) {
            return Err(Error::NodeNotFound);
        }
        if self.edge_exists(&id1, &id2) {
            return Err(Error::EdgeAlreadyExists);
        }
        if !self.0.contains_key(&id2) {
            return Err(Error::NodeNotFound);
        }
        if self.edge_exists(&id2, &id1) {
            return Err(Error::EdgeAlreadyExists);
        }
        let a = copy_id(&id1);
        let b = copy_id(&id2);
        let c = data.clone();
        let _ = self.add_edge(a, b, c);
        let _ = self.add_edge(id2, id1, data);
        proof {
            let want = with_edge(with_edge(old(self)@, id2, id1, data), id1, id2, c);
            if id1 == id2 {
                assert(want[id1].adjacencies =~= self@[id1].adjacencies);
            } else {
                assert(want[id2].adjacencies =~= self@[id2].adjacencies);
            }
        }
        Ok(())
    }
}

impl<I: Ord + Clone, N, E> GraphData<I, N, E> {
    /// Takes the edge from `id1` to `id2` out of the graph, and with it the
    /// edge that leads back, if there is one. Returns the payload of the first.
    pub fn remove_undirected_edge(&mut self, id1: I, id2: I) -> (r: Result<E, Error>)
        requires
            id_laws::<I>(),
        ensures
            match r {
                Ok(data) => {
                    &&& has_edge(old(self)@, id1, id2)
                    &&& data == old(self)@[id1].adjacencies[id2]
                    &&& final(self)@ == without_undirected_edge(old(self)@, id1, id2)
                },
                Err(e) => {
                    &&& remove_edge_outcome(old(self)@, id1, id2) == Err::<(), Error>(e)
                    &&& final(self)@ == old(self)@
                },
            },
    {
        let a = copy_id(&id1);
        let b = copy_id(&id2);
        let r = self.remove_edge(a, b);
        if r.is_ok() {
            let ghost one_way = self@;
            let _ = self.remove_edge(id2, id1);
            proof {
                if one_way.contains_key(id2) && !has_edge(one_way, id2, id1) {
                    assert(one_way[id2].adjacencies.remove(id1) =~= one_way[id2].adjacencies);
                }
            }
        }
        r
    }
}

/// The flavor of a graph: how it stores an edge.
pub trait GraphType {
    /// Whether an edge between two nodes is stored in both directions, the
    /// two counting as one edge.
    spec fn mirrored() -> bool;

    fn mirrors() -> (b: bool)
        ensures
            b == Self::mirrored(),
    ;
}

/// A graph of the flavor `T`: nodes with the id type `I` and the payload
/// type `N`, edges with the payload type `E`.
#[derive(Debug, PartialEq, Eq)]
pub struct Graph<T, I, N, E> where T: GraphType {
    data: GraphData<I, N, E>,
    t: PhantomData<T>,
}

impl<T: GraphType, I, N, E> View for Graph<T, I, N, E> {
    type V = GraphModel<I, N, E>;

    closed spec fn view(&self) -> GraphModel<I, N, E> {
        self.data@
    }
}

impl<T: GraphType, I: Ord + Clone, N, E> Graph<T, I, N, E> {
    /// A graph without nodes.
    pub fn new() -> (g: Self)
        ensures
            g@ == GraphModel::<I, N, E>::empty(),
    {
        Self { data: GraphData::new(), t: PhantomData }
    }
}

impl<T: GraphType, I: Clone, N: Clone, E: Clone> Clone for Graph<T, I, N, E> {
    fn clone(&self) -> Self {
        Self { data: self.data.clone(), t: PhantomData }
    }
}

impl<T: GraphType, I: Ord + Clone, N, E> Default for Graph<T, I, N, E> {
    fn default() -> (g: Self)
        ensures
            g@ == GraphModel::<I, N, E>::empty(),
    {
        Self::new()
    }
}

/// Access to the nodes of a graph, and to its flavor.
pub trait GraphAccess<I: Ord + Clone, N, E>: Sized {
    /// The graph as mathematical values.
    spec fn model(&self) -> GraphModel<I, N, E>;

    /// Whether an edge between two nodes is stored in both directions, the
    /// two counting as one edge.
    spec fn mirrored() -> bool;

    fn mirrors() -> (b: bool)
        ensures
            b == Self::mirrored(),
    ;

    /// The graph has finitely many nodes, each with finitely many edges.
    proof fn lemma_model_finite(&self)
        ensures
            crate::graph::walk::finite_graph(self.model()),
    ;

    fn data(&self) -> (d: &GraphData<I, N, E>)
        ensures
            d@ == self.model(),
    ;

    fn data_mut(&mut self) -> (d: &mut GraphData<I, N, E>)
        ensures
            d@ == old(self).model(),
            final(self).model() == final(d)@,
    ;
}

impl<T: GraphType, I: Ord + Clone, N, E> GraphAccess<I, N, E> for Graph<T, I, N, E> {
    open spec fn model(&self) -> GraphModel<I, N, E> {
        self@
    }

    open spec fn mirrored() -> bool {
        T::mirrored()
    }

    fn mirrors() -> (b: bool) {
        T::mirrors()
    }

    proof fn lemma_model_finite(&self) {
        self.data.lemma_finite();
    }

    #[inline]
    fn data(&self) -> (d: &GraphData<I, N, E>) {
        &self.data
    }

    #[inline]
    fn data_mut(&mut self) -> (d: &mut GraphData<I, N, E>) {
        &mut self.data
    }
}

/// What adding an edge to a graph answers, by whether the graph stores its
/// edges in both directions.
pub open spec fn add_outcome<I, N, E>(g: GraphModel<I, N, E>, a: I, b: I, mirrored: bool) -> Result<
    (),
    Error,
> {
    if mirrored {
        add_undirected_outcome(g, a, b)
    } else {
        add_edge_outcome(g, a, b)
    }
}

/// The graph `g` after the edge from `a` to `b` was added: `first` is the
/// payload of that edge, `data` the payload of the edge that leads back where
/// the graph stores its edges in both directions.
pub open spec fn added<I, N, E>(
    g: GraphModel<I, N, E>,
    a: I,
    b: I,
    first: E,
    data: E,
    mirrored: bool,
) -> GraphModel<I, N, E> {
    if mirrored {
        with_edge(with_edge(g, b, a, data), a, b, first)
    } else {
        with_edge(g, a, b, first)
    }
}

/// The graph `g` after the edge from `a` to `b` was removed.
pub open spec fn removed<I, N, E>(g: GraphModel<I, N, E>, a: I, b: I, mirrored: bool) -> GraphModel<
    I,
    N,
    E,
> {
    if mirrored {
        without_undirected_edge(g, a, b)
    } else {
        without_edge(g, a, b)
    }
}

/// What every graph offers, whatever its flavor.
pub trait GraphTraits<I: Ord + Clone, N, E>: GraphAccess<I, N, E> {
    /// Adds the node `id` with no edges; refused if the id is taken, and the
    /// node that holds it stays as it is.
    fn add_node(&mut self, id: I, data: N) -> (r: Result<(), Error>)
        requires
            id_laws::<I>(),
        ensures
            r == add_node_outcome(old(self).model(), id),
            final(self).model() == node_added(old(self).model(), id, data),
    {
        self.data_mut().add_node(id, data)
    }

    fn get_node<'a>(&'a self, id: I) -> (r: Option<&'a N>) where I: 'a, N: 'a, E: 'a
        requires
            id_laws::<I>(),
        ensures
            match r {
                Some(data) => self.model().contains_key(id) && *data == self.model()[id].data,
                None => !self.model().contains_key(id),
            },
    {
        self.data().get_node(id)
    }

    fn get_node_mut<'a>(&'a mut self, id: I) -> (r: Option<&'a mut N>) where I: 'a, N: 'a, E: 'a
        requires
            id_laws::<I>(),
        ensures
            match r {
                Some(data) => {
                    &&& old(self).model().contains_key(id)
                    &&& *data == old(self).model()[id].data
                    &&& final(self).model() == with_payload(old(self).model(), id, *final(data))
                },
                None => {
                    &&& !old(self).model().contains_key(id)
                    &&& final(self).model() == old(self).model()
                },
            },
    {
        self.data_mut().get_node_mut(id)
    }

    fn nodes<'a>(&'a self) -> (nodes: &'a BTreeMap<I, NodeData<I, N, E>>) where
        I: 'a,
        N: 'a,
        E: 'a,

        ensures
            nodes_model(*nodes) == self.model(),
    {
        self.data().get_nodes()
    }

    fn nodes_mut<'a>(&'a mut self) -> (nodes: &'a mut BTreeMap<I, NodeData<I, N, E>>) where
        I: 'a,
        N: 'a,
        E: 'a,

        ensures
            nodes_model(*nodes) == old(self).model(),
            final(self).model() == nodes_model(*final(nodes)),
    {
        self.data_mut().get_nodes_mut()
    }

    fn contains_node(&self, id: I) -> (r: bool)
        requires
            id_laws::<I>(),
        ensures
            r == self.model().contains_key(id),
    {
        self.data().contains_node(id)
    }

    /// Takes the node `id` out of the graph, with its payload and the edges
    /// that leave it, which are returned. The edges that lead to it from
    /// other nodes are removed too, so that no edge is left without its end.
    fn remove_node(&mut self, id: I) -> (r: Result<NodeData<I, N, E>, Error>)
        requires
            id_laws::<I>(),
        ensures
            match r {
                Ok(node) => old(self).model().contains_key(id) && node@ == old(self).model()[id],
                Err(e) => !old(self).model().contains_key(id) && e == Error::NodeNotFound,
            },
            final(self).model() == node_removed(old(self).model(), id),
    {
        self.data_mut().remove_node(id)
    }

    fn delete_node(&mut self, id: I) -> (r: Result<(), Error>)
        requires
            id_laws::<I>(),
        ensures
            r == (if old(self).model().contains_key(id) {
                Ok::<(), Error>(())
            } else {
                Err::<(), Error>(Error::NodeNotFound)
            }),
            final(self).model() == node_removed(old(self).model(), id),
    {
        self.data_mut().delete_node(id)
    }

    /// Adds the edge from `node1` to `node2`; refused if one of the two is
    /// no node or the edge is there already. A graph that stores its edges in
    /// both directions adds the edge that leads back too, or changes nothing.
    /// The edge from `node1` then holds a clone of `data` and the edge that
    /// leads back `data`: the same payload, where clones of the payload type
    /// equal what they are cloned from.
    fn add_edge(&mut self, node1: I, node2: I, data: E) -> (r: Result<(), Error>) where E: Clone
        requires
            id_laws::<I>(),
        ensures
            r == add_outcome(old(self).model(), node1, node2, Self::mirrored()),
            r is Err ==> final(self).model() == old(self).model(),
            r is Ok ==> ({
                let first = final(self).model()[node1].adjacencies[node2];
                &&& cloned::<E>(data, first)
                &&& !Self::mirrored() || clone_laws::<E>() ==> first == data
                &&& final(self).model() == added(
                    old(self).model(),
                    node1,
                    node2,
                    first,
                    data,
                    Self::mirrored(),
                )
            }),
    {
        if Self::mirrors() {
            self.data_mut().add_undirected_edge(node1, node2, data)
        } else {
            self.data_mut().add_edge(node1, node2, data)
        }
    }

    fn get_edge<'a>(&'a self, id1: I, id2: I) -> (r: Option<&'a E>) where I: 'a, N: 'a, E: 'a
        requires
            id_laws::<I>(),
        ensures
            match r {
                Some(data) => {
                    &&& has_edge(self.model(), id1, id2)
                    &&& *data == self.model()[id1].adjacencies[id2]
                },
                None => !has_edge(self.model(), id1, id2),
            },
    {
        self.data().get_edge(id1, id2)
    }

    fn get_edge_mut<'a>(&'a mut self, id1: I, id2: I) -> (r: Option<&'a mut E>) where
        I: 'a,
        N: 'a,
        E: 'a,

        requires
            id_laws::<I>(),
        ensures
            match r {
                Some(data) => {
                    &&& has_edge(old(self).model(), id1, id2)
                    &&& *data == old(self).model()[id1].adjacencies[id2]
                    &&& final(self).model() == with_edge(old(self).model(), id1, id2, *final(data))
                },
                None => {
                    &&& !has_edge(old(self).model(), id1, id2)
                    &&& final(self).model() == old(self).model()
                },
            },
    {
        self.data_mut().get_edge_mut(id1, id2)
    }

    fn edges<'a>(&'a self, id: I) -> (r: Option<&'a AdjacencyData<I, E>>) where
        I: 'a,
        N: 'a,
        E: 'a,

        requires
            id_laws::<I>(),
        ensures
            match r {
                Some(edges) => {
                    &&& self.model().contains_key(id)
                    &&& edges@ == self.model()[id].adjacencies
                },
                None => !self.model().contains_key(id),
            },
    {
        self.data().get_edges(id)
    }

    fn edges_mut<'a>(&'a mut self, id: I) -> (r: Option<&'a mut AdjacencyData<I, E>>) where
        I: 'a,
        N: 'a,
        E: 'a,

        requires
            id_laws::<I>(),
        ensures
            match r {
                Some(edges) => {
                    &&& old(self).model().contains_key(id)
                    &&& edges@ == old(self).model()[id].adjacencies
                    &&& final(self).model() == with_adjacencies(
                        old(self).model(),
                        id,
                        final(edges)@,
                    )
                },
                None => {
                    &&& !old(self).model().contains_key(id)
                    &&& final(self).model() == old(self).model()
                },
            },
    {
        self.data_mut().get_edges_mut(id)
    }

    fn contains_edge(&self, id1: I, id2: I) -> (r: bool)
        requires
            id_laws::<I>(),
        ensures
            r == has_edge(self.model(), id1, id2),
    {
        self.data().contains_edge(id1, id2)
    }

    /// Takes the edge from `id1` to `id2` out of the graph and returns its
    /// payload. A graph that stores its edges in both directions takes out the
    /// edge that leads back too.
    fn remove_edge(&mut self, id1: I, id2: I) -> (r: Result<E, Error>)
        requires
            id_laws::<I>(),
        ensures
            match r {
                Ok(data) => {
                    &&& has_edge(old(self).model(), id1, id2)
                    &&& data == old(self).model()[id1].adjacencies[id2]
                    &&& final(self).model() == removed(
                        old(self).model(),
                        id1,
                        id2,
                        Self::mirrored(),
                    )
                },
                Err(e) => {
                    &&& remove_edge_outcome(old(self).model(), id1, id2) == Err::<(), Error>(e)
                    &&& final(self).model() == old(self).model()
                },
            },
    {
        if Self::mirrors() {
            self.data_mut().remove_undirected_edge(id1, id2)
        } else {
            self.data_mut().remove_edge(id1, id2)
        }
    }

    fn delete_edge(&mut self, node1: I, node2: I) -> (r: Result<(), Error>)
        requires
            id_laws::<I>(),
        ensures
            r == remove_edge_outcome(old(self).model(), node1, node2),
            final(self).model() == (if r is Ok {
                removed(old(self).model(), node1, node2, Self::mirrored())
            } else {
                old(self).model()
            }),
    {
        match self.remove_edge(node1, node2) {
            Ok(_) => Ok(()),
            Err(e) => Err(e),
        }
    }

    /// Removes every node, and with the nodes every edge.
    fn clear(&mut self)
        ensures
            final(self).model() == GraphModel::<I, N, E>::empty(),
    {
        self.data_mut().clear();
    }

    /// Removes every edge and keeps the nodes.
    fn clear_edges(&mut self)
        requires
            id_laws::<I>(),
        ensures
            final(self).model() == without_edges(old(self).model()),
    {
        self.data_mut().clear_edges();
    }

    fn is_complete(&self) -> (r: bool)
        requires
            id_laws::<I>(),
        ensures
            r == complete(self.model()),
    {
        self.data().is_complete()
    }

    /// Whether no node has an edge. A graph without nodes is empty.
    fn is_empty(&self) -> (r: bool)
        requires
            id_laws::<I>(),
        ensures
            r == edgeless(self.model()),
    {
        self.data().is_empty()
    }

    /// Whether the graph is one node without an edge.
    fn is_trivial(&self) -> (r: bool)
        requires
            id_laws::<I>(),
        ensures
            r == (self.model().len() == 1 && edgeless(self.model())),
    {
        self.data().is_trivial()
    }

    /// Whether the graph has no node.
    fn is_null(&self) -> (r: bool)
        requires
            id_laws::<I>(),
        ensures
            r == (self.model() == GraphModel::<I, N, E>::empty()),
    {
        self.data().is_null()
    }

    fn is_child_node(&self, node_1: I) -> (r: bool)
        requires
            id_laws::<I>(),
        ensures
            r == self.model().contains_key(node_1),
    {
        self.data().is_child_node(node_1)
    }

    /// Whether `subgraph` lies within this graph: its nodes are nodes here, and
    /// the neighbors of each are neighbors here. Payloads are not compared.
    fn is_subgraph(&self, subgraph: &Self) -> (r: bool)
        requires
            id_laws::<I>(),
        ensures
            r == self::subgraph(self.model(), subgraph.model()),
    {
        self.data().is_subgraph(subgraph.data())
    }

    /// Whether `subgraph` lies within this graph and is not equal to it.
    fn is_proper_subgraph(&self, subgraph: &Self) -> (r: bool) where N: PartialEq, E: PartialEq
        requires
            id_laws::<I>(),
        ensures
            eq_laws::<N, E>() ==> r == (!alike(
                self.model(),
                subgraph.model(),
            ) && self::subgraph(self.model(), subgraph.model())),
    {
        self.data().is_proper_subgraph(subgraph.data())
    }

    /// Whether `subgraph` is equal to this graph.
    fn is_improper_subgraph(&self, subgraph: &Self) -> (r: bool) where N: PartialEq, E: PartialEq
        requires
            id_laws::<I>(),
        ensures
            eq_laws::<N, E>() ==> r == alike(
                self.model(),
                subgraph.model(),
            ),
    {
        self.data().is_improper_subgraph(subgraph.data())
    }

    /// Whether `subgraph` lies within this graph and has as many nodes.
    fn is_spanning_subgraph(&self, subgraph: &Self) -> (r: bool)
        requires
            id_laws::<I>(),
        ensures
            r == (self.model().len() == subgraph.model().len() && self::subgraph(
                self.model(),
                subgraph.model(),
            )),
    {
        self.data().is_spanning_subgraph(subgraph.data())
    }

    /// Whether both are nodes and an edge leads from `node_1` to `node_2`.
    fn are_adjacent_nodes(&self, node_1: I, node_2: I) -> (r: bool)
        requires
            id_laws::<I>(),
        ensures
            r == adjacent(self.model(), node_1, node_2),
    {
        self.data().are_adjacent_nodes(node_1, node_2)
    }

    fn are_adjacent_edges(&self, node_1: I, node_2: I, node_3: I) -> (r: bool)
        requires
            id_laws::<I>(),
        ensures
            r == (adjacent(self.model(), node_1, node_2) && adjacent(
                self.model(),
                node_2,
                node_3,
            )),
    {
        self.data().are_adjacent_edges(node_1, node_2, node_3)
    }

    /// The number of nodes.
    fn order(&self) -> (n: usize)
        requires
            id_laws::<I>(),
        ensures
            n == self.model().len(),
    {
        self.data().order()
    }

    /// The number of edges: the stored edges, or half of them where each
    /// edge is stored in both directions.
    fn size(&self) -> (n: usize)
        requires
            id_laws::<I>(),
        ensures
            n == size_of(stored_edges(self.model()).len(), Self::mirrored()),
    {
        let stored = self.data().edge_count();
        if Self::mirrors() {
            stored / 2
        } else {
            stored
        }
    }
}

impl<T: GraphType, I: Ord + Clone, N, E> GraphTraits<
    I,
    N,
    E,
> for Graph<T, I, N, E> {

}

} // verus!
