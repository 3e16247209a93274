//! Laws of the graph operations, stated over graphs as mathematical values.

use crate::graph::order::clone_laws;
use crate::graph::{
    add_node_outcome, add_outcome, added, has_edge, node_added, node_removed, removed, Error,
    GraphModel,
};
use vstd::prelude::*;

verus! {

/// Adding a node twice under one id: the second time is refused with
/// `NodeAlreadyExists`, whatever the graph was before, and changes nothing,
/// so the node keeps the payload that it had after the first time.
pub proof fn law_add_node_twice<I, N, E>(g: GraphModel<I, N, E>, id: I, first: N, second: N)
    ensures
        add_node_outcome(node_added(g, id, first), id) == Err::<(), Error>(
            Error::NodeAlreadyExists,
        ),
        node_added(node_added(g, id, first), id, second) == node_added(g, id, first),
        !g.contains_key(id) ==> node_added(node_added(g, id, first), id, second)[id].data == first,
{
}

/// In a graph that stores its edges in both directions, an edge that was
/// added between `a` and `b` is there in both directions. Where a clone of a
/// payload equals the payload, both directions hold the same payload.
/// Removing the edge from `a` to `b` removes both directions.
pub proof fn law_undirected_edge<I, N, E: Clone>(
    g: GraphModel<I, N, E>,
    a: I,
    b: I,
    first: E,
    data: E,
)
    requires
        add_outcome(g, a, b, true) is Ok,
        cloned::<E>(data, first),
    ensures
        has_edge(added(g, a, b, first, data, true), a, b),
        has_edge(added(g, a, b, first, data, true), b, a),
        clone_laws::<E>() ==> added(g, a, b, first, data, true)[a].adjacencies[b] == data && added(
            g,
            a,
            b,
            first,
            data,
            true,
        )[b].adjacencies[a] == data,
        !has_edge(removed(added(g, a, b, first, data, true), a, b, true), a, b),
        !has_edge(removed(added(g, a, b, first, data, true), a, b, true), b, a),
{
}

/// In a graph that stores its edges in both directions, removing the edge
/// from `a` to `b` removes the edge from `b` to `a` too, and no other edge.
pub proof fn law_undirected_removal<I, N, E>(g: GraphModel<I, N, E>, a: I, b: I)
    requires
        has_edge(g, a, b),
    ensures
        !has_edge(removed(g, a, b, true), a, b),
        !has_edge(removed(g, a, b, true), b, a),
        forall|x: I, y: I|
            has_edge(removed(g, a, b, true), x, y) <==> has_edge(g, x, y) && !(x == a && y == b)
                && !(x == b && y == a),
        forall|x: I| removed(g, a, b, true).contains_key(x) <==> g.contains_key(x),
{
}

/// Each edge of `g` has an edge that leads back, with the same payload.
pub open spec fn symmetric<I, N, E>(g: GraphModel<I, N, E>) -> bool {
    forall|a: I, b: I| #[trigger]
        has_edge(g, a, b) ==> has_edge(g, b, a) && g[a].adjacencies[b] == g[b].adjacencies[a]
}

/// A graph that stores its edges in both directions and in which each edge
/// has its like that leads back stays so when an edge is added, if the
/// clone of the payload equals the payload, when an edge is removed, and
/// when a node is added or removed.
pub proof fn law_undirected_stays_symmetric<I, N, E>(
    g: GraphModel<I, N, E>,
    a: I,
    b: I,
    payload: N,
    data: E,
)
    requires
        symmetric(g),
    ensures
        add_outcome(g, a, b, true) is Ok ==> symmetric(added(g, a, b, data, data, true)),
        has_edge(g, a, b) ==> symmetric(removed(g, a, b, true)),
        symmetric(node_added(g, a, payload)),
        symmetric(node_removed(g, a)),
{
    let more = node_added(g, a, payload);
    assert forall|x: I, y: I| #[trigger] has_edge(more, x, y) implies has_edge(more, y, x)
        && more[x].adjacencies[y] == more[y].adjacencies[x] by {
        assert(has_edge(g, x, y));
    }
    let fewer = node_removed(g, a);
    assert forall|x: I, y: I| #[trigger] has_edge(fewer, x, y) implies has_edge(fewer, y, x)
        && fewer[x].adjacencies[y] == fewer[y].adjacencies[x] by {
        assert(has_edge(g, x, y));
    }
    if add_outcome(g, a, b, true) is Ok {
        let h = added(g, a, b, data, data, true);
        assert forall|x: I, y: I| #[trigger] has_edge(h, x, y) implies has_edge(h, y, x)
            && h[x].adjacencies[y] == h[y].adjacencies[x] by {
            if !((x == a && y == b) || (x == b && y == a)) {
                assert(has_edge(g, x, y));
            }
        }
    }
    if has_edge(g, a, b) {
        let h = removed(g, a, b, true);
        assert forall|x: I, y: I| #[trigger] has_edge(h, x, y) implies has_edge(h, y, x)
            && h[x].adjacencies[y] == h[y].adjacencies[x] by {
            assert(has_edge(g, x, y));
        }
    }
}

/// An edge is added only between two nodes: if one end is no node, adding
/// is refused with `NodeNotFound`, whether the graph stores its edges in
/// both directions or not.
pub proof fn law_edge_needs_both_ends<I, N, E>(g: GraphModel<I, N, E>, a: I, b: I, mirrored: bool)
    ensures
        add_outcome(g, a, b, mirrored) is Ok ==> g.contains_key(a) && g.contains_key(b),
        !g.contains_key(a) ==> add_outcome(g, a, b, mirrored) == Err::<(), Error>(
            Error::NodeNotFound,
        ),
        g.contains_key(a) && !g.contains_key(b) && !has_edge(g, a, b) ==> add_outcome(
            g,
            a,
            b,
            mirrored,
        ) == Err::<(), Error>(Error::NodeNotFound),
{
}

/// Each edge of `g` leads to a node of `g`.
pub open spec fn joined<I, N, E>(g: GraphModel<I, N, E>) -> bool {
    forall|a: I, b: I| #[trigger] has_edge(g, a, b) ==> g.contains_key(b)
}

/// A graph in which each edge leads to a node stays so when a node or an
/// edge is added or removed, whether it stores its edges in both directions
/// or not.
pub proof fn law_edges_join_nodes<I, N, E>(
    g: GraphModel<I, N, E>,
    a: I,
    b: I,
    payload: N,
    first: E,
    data: E,
    mirrored: bool,
)
    requires
        joined(g),
    ensures
        joined(node_added(g, a, payload)),
        joined(node_removed(g, a)),
        add_outcome(g, a, b, mirrored) is Ok ==> joined(added(g, a, b, first, data, mirrored)),
        has_edge(g, a, b) ==> joined(removed(g, a, b, mirrored)),
{
    let more = node_added(g, a, payload);
    assert forall|x: I, y: I| #[trigger] has_edge(more, x, y) implies more.contains_key(y) by {
        assert(has_edge(g, x, y));
    }
    let fewer = node_removed(g, a);
    assert forall|x: I, y: I| #[trigger] has_edge(fewer, x, y) implies fewer.contains_key(y) by {
        assert(has_edge(g, x, y));
    }
    if add_outcome(g, a, b, mirrored) is Ok {
        let h = added(g, a, b, first, data, mirrored);
        assert forall|x: I, y: I| #[trigger] has_edge(h, x, y) implies h.contains_key(y) by {
            if !((x == a && y == b) || (x == b && y == a)) {
                assert(has_edge(g, x, y));
            }
        }
    }
    if has_edge(g, a, b) {
        let h = removed(g, a, b, mirrored);
        assert forall|x: I, y: I| #[trigger] has_edge(h, x, y) implies h.contains_key(y) by {
            assert(has_edge(g, x, y));
        }
    }
}

/// Removing a node removes every edge that leaves it and every edge that
/// leads to it, and no other edge; the other nodes keep their payloads.
pub proof fn law_node_removal<I, N, E>(g: GraphModel<I, N, E>, id: I)
    requires
        g.contains_key(id),
    ensures
        !node_removed(g, id).contains_key(id),
        forall|x: I| node_removed(g, id).contains_key(x) <==> g.contains_key(x) && x != id,
        forall|x: I| #[trigger]
            node_removed(g, id).contains_key(x) ==> node_removed(g, id)[x].data == g[x].data,
        forall|x: I, y: I|
            has_edge(node_removed(g, id), x, y) <==> has_edge(g, x, y) && x != id && y != id,
        forall|x: I, y: I| #[trigger]
            has_edge(node_removed(g, id), x, y) ==> node_removed(g, id)[x].adjacencies[y]
                == g[x].adjacencies[y],
{
}

/// In a graph that stores an edge once, adding the edge from `a` to `b`
/// adds that edge and no other: the edge from `b` to `a` is there after it
/// only if it was there before.
pub proof fn law_directed_edge<I, N, E>(g: GraphModel<I, N, E>, a: I, b: I, data: E)
    requires
        add_outcome(g, a, b, false) is Ok,
    ensures
        g.contains_key(a),
        g.contains_key(b),
        has_edge(added(g, a, b, data, data, false), a, b),
        added(g, a, b, data, data, false)[a].adjacencies[b] == data,
        forall|x: I, y: I|
            has_edge(added(g, a, b, data, data, false), x, y) <==> has_edge(g, x, y) || (x == a
                && y == b),
        a != b ==> (has_edge(added(g, a, b, data, data, false), b, a) <==> has_edge(g, b, a)),
{
}

/// The graph `g` after the nodes of `nodes` were added one after the other.
pub open spec fn nodes_added<I, N, E>(g: GraphModel<I, N, E>, nodes: Seq<(I, N)>) -> GraphModel<
    I,
    N,
    E,
>
    decreases nodes.len(),
{
    if nodes.len() == 0 {
        g
    } else {
        node_added(nodes_added(g, nodes.drop_last()), nodes.last().0, nodes.last().1)
    }
}

/// The graph `g` after the nodes of the ids `ids` were removed one after the
/// other.
pub open spec fn nodes_removed<I, N, E>(g: GraphModel<I, N, E>, ids: Seq<I>) -> GraphModel<I, N, E>
    decreases ids.len(),
{
    if ids.len() == 0 {
        g
    } else {
        node_removed(nodes_removed(g, ids.drop_last()), ids.last())
    }
}

/// A node of `nodes` has the id `id`.
pub open spec fn among<I, N>(nodes: Seq<(I, N)>, id: I) -> bool {
    exists|i: int| 0 <= i < nodes.len() && (#[trigger] nodes[i]).0 == id
}

/// An id is in the graph after nodes were added if it was in it before or
/// is the id of one of the nodes.
pub proof fn lemma_nodes_added<I, N, E>(g: GraphModel<I, N, E>, nodes: Seq<(I, N)>, id: I)
    ensures
        nodes_added(g, nodes).contains_key(id) <==> g.contains_key(id) || among(nodes, id),
    decreases nodes.len(),
{
    if nodes.len() > 0 {
        let front = nodes.drop_last();
        lemma_nodes_added(g, front, id);
        if among(front, id) {
            let i = choose|i: int| 0 <= i < front.len() && (#[trigger] front[i]).0 == id;
            assert(nodes[i].0 == id);
        }
        if among(nodes, id) {
            let i = choose|i: int| 0 <= i < nodes.len() && (#[trigger] nodes[i]).0 == id;
            if i < front.len() {
                assert(front[i].0 == id);
            }
        }
        if id == nodes.last().0 {
            assert(nodes[nodes.len() - 1].0 == id);
        }
    }
}

/// An id is in the graph after nodes were removed if it was in it before
/// and is not among the removed ones.
pub proof fn lemma_nodes_removed<I, N, E>(g: GraphModel<I, N, E>, ids: Seq<I>, id: I)
    ensures
        nodes_removed(g, ids).contains_key(id) <==> g.contains_key(id) && !ids.contains(id),
    decreases ids.len(),
{
    if ids.len() > 0 {
        let front = ids.drop_last();
        lemma_nodes_removed(g, front, id);
        if ids.contains(id) && id != ids.last() {
            let i = choose|i: int| 0 <= i < ids.len() && ids[i] == id;
            assert(front[i] == id);
        }
        if front.contains(id) {
            let i = choose|i: int| 0 <= i < front.len() && front[i] == id;
            assert(ids[i] == id);
        }
        if id == ids.last() {
            assert(ids[ids.len() - 1] == id);
        }
    }
}

/// Adding any number of nodes to a graph without nodes and then removing
/// the node of each of their ids, in any order, leaves a graph without nodes.
pub proof fn law_round_trip<I, N, E>(nodes: Seq<(I, N)>, ids: Seq<I>)
    requires
        forall|i: int| 0 <= i < nodes.len() ==> ids.contains((#[trigger] nodes[i]).0),
    ensures
        nodes_removed(nodes_added(GraphModel::<I, N, E>::empty(), nodes), ids) == GraphModel::<
            I,
            N,
            E,
        >::empty(),
{
    let empty = GraphModel::<I, N, E>::empty();
    let full = nodes_added(empty, nodes);
    assert forall|id: I| !nodes_removed(full, ids).contains_key(id) by {
        lemma_nodes_added(empty, nodes, id);
        lemma_nodes_removed(full, ids, id);
        if among(nodes, id) {
            let i = choose|i: int| 0 <= i < nodes.len() && (#[trigger] nodes[i]).0 == id;
            assert(ids.contains(nodes[i].0));
        }
    }
}

} // verus!
