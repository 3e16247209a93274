//! What a walk over a graph is, as mathematics: the step that takes the next
//! unvisited id from the frontier, the whole walk, and the ids that can be
//! reached.

use crate::graph::order::{id_laws, in_order, lemma_in_order_lists};
use crate::graph::{has_edge, GraphModel};
use vstd::prelude::*;

verus! {

/// The neighbors of each node of `g` in increasing order; nothing for an id
/// that is no node.
pub open spec fn successors<I: Ord, N, E>(g: GraphModel<I, N, E>) -> spec_fn(I) -> Seq<I> {
    |id: I|
        if g.contains_key(id) {
            in_order(g[id].adjacencies.dom())
        } else {
            Seq::empty()
        }
}

/// The neighbors that an edge with the payload `true` leads to.
pub open spec fn open_neighbors<I>(adjacencies: Map<I, bool>) -> Set<I> {
    Set::new(|nb: I| adjacencies.contains_key(nb) && adjacencies[nb])
}

/// As `successors`, but only over edges whose payload is `true`.
pub open spec fn open_successors<I: Ord, N>(g: GraphModel<I, N, bool>) -> spec_fn(I) -> Seq<I> {
    |id: I|
        if g.contains_key(id) {
            in_order(open_neighbors(g[id].adjacencies))
        } else {
            Seq::empty()
        }
}

/// Every id that is a node of `g` or the target of an edge of `g`.
pub open spec fn all_ids<I, N, E>(g: GraphModel<I, N, E>) -> Set<I> {
    Set::new(|id: I| g.contains_key(id) || exists|a: I| has_edge(g, a, id))
}

/// `g` has finitely many nodes, each with finitely many edges.
pub open spec fn finite_graph<I, N, E>(g: GraphModel<I, N, E>) -> bool {
    &&& g.dom().finite()
    &&& forall|a: I| g.contains_key(a) ==> (#[trigger] g[a]).adjacencies.dom().finite()
}

/// The test that an id is not in `visited`.
pub open spec fn unvisited<I>(visited: Set<I>) -> spec_fn(I) -> bool {
    |id: I| !visited.contains(id)
}

/// Those of `ids` that are not in `visited`, in their order.
pub open spec fn fresh<I>(ids: Seq<I>, visited: Set<I>) -> Seq<I> {
    ids.filter(unvisited(visited))
}

/// Where a walk stands after one step.
#[verifier::reject_recursive_types(I)]
pub struct Step<I> {
    /// The id that the step visited, if the frontier held an unvisited one.
    pub found: Option<I>,
    pub frontier: Seq<I>,
    pub visited: Set<I>,
}

/// One step of a walk. Ids leave the frontier (from its front, or from its
/// back if `lifo`) until one is unvisited. That one becomes visited; those of
/// its successors that are unvisited then join the frontier at the back.
pub open spec fn step<I>(
    next: spec_fn(I) -> Seq<I>,
    lifo: bool,
    frontier: Seq<I>,
    visited: Set<I>,
) -> Step<I>
    decreases frontier.len(),
{
    if frontier.len() == 0 {
        Step { found: None, frontier, visited }
    } else {
        let current = if lifo {
            frontier.last()
        } else {
            frontier.first()
        };
        let rest = if lifo {
            frontier.drop_last()
        } else {
            frontier.drop_first()
        };
        if visited.contains(current) {
            step(next, lifo, rest, visited)
        } else {
            let seen = visited.insert(current);
            Step {
                found: Some(current),
                frontier: rest + fresh(next(current), seen),
                visited: seen,
            }
        }
    }
}

/// The walk stays within the finite set `ids`.
pub open spec fn walk_bounds<I>(next: spec_fn(I) -> Seq<I>, ids: Set<I>, frontier: Seq<I>) -> bool {
    &&& ids.finite()
    &&& forall|i: int| 0 <= i < frontier.len() ==> ids.contains(#[trigger] frontier[i])
    &&& forall|a: I, k: int| 0 <= k < next(a).len() ==> ids.contains(#[trigger] next(a)[k])
}

/// The ids that a walk visits from the given state on, in the order of
/// their visits: steps are taken until one finds nothing.
pub open spec fn walk<I>(
    next: spec_fn(I) -> Seq<I>,
    lifo: bool,
    ids: Set<I>,
    frontier: Seq<I>,
    visited: Set<I>,
) -> Seq<I>
    decreases ids.difference(visited).len(),
    when walk_bounds(next, ids, frontier)
    via walk_decreases::<I>
{
    let s = step(next, lifo, frontier, visited);
    match s.found {
        None => Seq::empty(),
        Some(id) => seq![id] + walk(next, lifo, ids, s.frontier, s.visited),
    }
}

/// The ids that a walk from `start` visits, in the order of their visits.
/// The walk is depth first if `lifo`, breadth first if not; `ids` holds every
/// id that a walk can meet.
pub open spec fn walk_from<I>(
    next: spec_fn(I) -> Seq<I>,
    lifo: bool,
    ids: Set<I>,
    start: I,
) -> Seq<I> {
    walk(next, lifo, ids.insert(start), seq![start], Set::empty())
}

#[via_fn]
proof fn walk_decreases<I>(
    next: spec_fn(I) -> Seq<I>,
    lifo: bool,
    ids: Set<I>,
    frontier: Seq<I>,
    visited: Set<I>,
) {
    let s = step(next, lifo, frontier, visited);
    if s.found is Some {
        lemma_step(next, lifo, frontier, visited);
        lemma_visit_shrinks(ids, visited, s.found->0);
    }
}

/// Visiting an unvisited member of `ids` leaves fewer unvisited members.
pub proof fn lemma_visit_shrinks<I>(ids: Set<I>, visited: Set<I>, id: I)
    requires
        ids.finite(),
        ids.contains(id),
        !visited.contains(id),
    ensures
        ids.difference(visited.insert(id)).len() < ids.difference(visited).len(),
{
    let before = ids.difference(visited);
    let after = ids.difference(visited.insert(id));
    assert(before.contains(id));
    assert(after =~= before.remove(id));
}

/// What a step does, in terms of membership.
pub proof fn lemma_step<I>(
    next: spec_fn(I) -> Seq<I>,
    lifo: bool,
    frontier: Seq<I>,
    visited: Set<I>,
)
    ensures
        ({
            let s = step(next, lifo, frontier, visited);
            match s.found {
                None => {
                    &&& s.visited == visited
                    &&& s.frontier.len() == 0
                    &&& forall|x: I| frontier.contains(x) ==> visited.contains(x)
                },
                Some(id) => {
                    &&& frontier.contains(id)
                    &&& !visited.contains(id)
                    &&& s.visited == visited.insert(id)
                    &&& forall|x: I| #[trigger]
                        s.frontier.contains(x) ==> frontier.contains(x) || next(id).contains(x)
                    &&& forall|x: I| #[trigger]
                        frontier.contains(x) ==> s.visited.contains(x) || s.frontier.contains(x)
                    &&& forall|x: I| #[trigger]
                        next(id).contains(x) ==> s.visited.contains(x) || s.frontier.contains(x)
                },
            }
        }),
    decreases frontier.len(),
{
    if frontier.len() > 0 {
        let current = if lifo {
            frontier.last()
        } else {
            frontier.first()
        };
        let rest = if lifo {
            frontier.drop_last()
        } else {
            frontier.drop_first()
        };
        assert forall|x: I| frontier.contains(x) implies x == current || rest.contains(x) by {
            let i = choose|i: int| 0 <= i < frontier.len() && frontier[i] == x;
            if lifo {
                if i < frontier.len() - 1 {
                    assert(rest[i] == x);
                }
            } else {
                if i > 0 {
                    assert(rest[i - 1] == x);
                }
            }
        }
        assert forall|x: I| rest.contains(x) implies frontier.contains(x) by {
            let i = choose|i: int| 0 <= i < rest.len() && rest[i] == x;
            if lifo {
                assert(frontier[i] == x);
            } else {
                assert(frontier[i + 1] == x);
            }
        }
        if visited.contains(current) {
            lemma_step(next, lifo, rest, visited);
        } else {
            let seen = visited.insert(current);
            let pushed = fresh(next(current), seen);
            let s = step(next, lifo, frontier, visited);
            assert(s.frontier == rest + pushed);
            assert forall|x: I| #[trigger] s.frontier.contains(x) implies frontier.contains(x)
                || next(current).contains(x) by {
                let i = choose|i: int| 0 <= i < s.frontier.len() && s.frontier[i] == x;
                if i < rest.len() {
                    assert(rest[i] == x);
                } else {
                    next(current).lemma_filter_contains_rev(unvisited(seen), x);
                }
            }
            assert forall|x: I| #[trigger] frontier.contains(x) implies s.visited.contains(x)
                || s.frontier.contains(x) by {
                if x != current {
                    let i = choose|i: int| 0 <= i < rest.len() && rest[i] == x;
                    assert(s.frontier[i] == x);
                }
            }
            assert forall|x: I| #[trigger] next(current).contains(x) implies s.visited.contains(x)
                || s.frontier.contains(x) by {
                if !seen.contains(x) {
                    let succ = next(current);
                    let k = choose|k: int| 0 <= k < succ.len() && succ[k] == x;
                    succ.lemma_filter_contains(unvisited(seen), k);
                    let i = choose|i: int| 0 <= i < pushed.len() && pushed[i] == x;
                    assert(s.frontier[rest.len() + i] == x);
                }
            }
        }
    }
}

/// A finite graph has finitely many ids.
pub proof fn lemma_all_ids_finite<I, N, E>(g: GraphModel<I, N, E>)
    requires
        finite_graph(g),
    ensures
        all_ids(g).finite(),
    decreases g.dom().len(),
{
    if g.dom().len() == 0 {
        assert forall|id: I| !all_ids(g).contains(id) by {
            if g.contains_key(id) {
                assert(g.dom().contains(id));
            }
            if exists|a: I| has_edge(g, a, id) {
                let a = choose|a: I| has_edge(g, a, id);
                assert(g.dom().contains(a));
            }
        }
        assert(all_ids(g) =~= Set::<I>::empty());
    } else {
        let a = g.dom().choose();
        let smaller = g.remove(a);
        assert(smaller.dom() =~= g.dom().remove(a));
        assert(finite_graph(smaller)) by {
            assert forall|b: I| smaller.contains_key(b) implies (
            #[trigger] smaller[b]).adjacencies.dom().finite() by {
                assert(g[b].adjacencies.dom().finite());
            }
        }
        lemma_all_ids_finite(smaller);
        let whole = all_ids(smaller).union(g[a].adjacencies.dom()).insert(a);
        assert forall|id: I| all_ids(g).contains(id) implies whole.contains(id) by {
            if id != a {
                if g.contains_key(id) {
                    assert(smaller.contains_key(id));
                } else {
                    let b = choose|b: I| has_edge(g, b, id);
                    if b != a {
                        assert(has_edge(smaller, b, id));
                    }
                }
            }
        }
        assert forall|id: I| whole.contains(id) implies all_ids(g).contains(id) by {
            if id != a {
                if g[a].adjacencies.dom().contains(id) {
                    assert(has_edge(g, a, id));
                } else if !smaller.contains_key(id) {
                    let b = choose|b: I| has_edge(smaller, b, id);
                    assert(has_edge(g, b, id));
                }
            }
        }
        assert(all_ids(g) =~= whole);
    }
}

/// A walk over the edges of a finite graph stays within the ids of the
/// graph and the id it starts from.
pub proof fn lemma_successors_bounds<I: Ord + Clone, N, E>(g: GraphModel<I, N, E>, start: I)
    requires
        id_laws::<I>(),
        finite_graph(g),
    ensures
        walk_bounds(successors(g), all_ids(g).insert(start), seq![start]),
{
    lemma_all_ids_finite(g);
    let next = successors(g);
    let ids = all_ids(g).insert(start);
    assert forall|a: I, k: int| 0 <= k < next(a).len() implies ids.contains(
        #[trigger] next(a)[k],
    ) by {
        if g.contains_key(a) {
            let nbs = g[a].adjacencies.dom();
            assert(nbs.finite());
            lemma_in_order_lists(nbs);
            assert(has_edge(g, a, next(a)[k]));
        }
    }
}

/// The same for a walk over the edges whose payload is `true`.
pub proof fn lemma_open_successors_bounds<I: Ord + Clone, N>(g: GraphModel<I, N, bool>, start: I)
    requires
        id_laws::<I>(),
        finite_graph(g),
    ensures
        walk_bounds(open_successors(g), all_ids(g).insert(start), seq![start]),
{
    lemma_all_ids_finite(g);
    let next = open_successors(g);
    let ids = all_ids(g).insert(start);
    assert forall|a: I, k: int| 0 <= k < next(a).len() implies ids.contains(
        #[trigger] next(a)[k],
    ) by {
        if g.contains_key(a) {
            let nbs = open_neighbors(g[a].adjacencies);
            assert(nbs.subset_of(g[a].adjacencies.dom()));
            vstd::set_lib::lemma_len_subset(nbs, g[a].adjacencies.dom());
            lemma_in_order_lists(nbs);
            assert(has_edge(g, a, next(a)[k]));
        }
    }
}

/// The successors of an id are the ids that its edges lead to.
pub proof fn law_successors_are_neighbors<I: Ord + Clone, N, E>(g: GraphModel<I, N, E>, a: I, b: I)
    requires
        id_laws::<I>(),
        finite_graph(g),
    ensures
        successors(g)(a).contains(b) <==> has_edge(g, a, b),
        successors(g)(a).no_duplicates(),
{
    if g.contains_key(a) {
        lemma_in_order_lists(g[a].adjacencies.dom());
        crate::graph::order::lemma_increasing_no_duplicates(successors(g)(a));
    } else {
        assert(successors(g)(a).len() == 0);
    }
}

/// Over gates, the successors of an id are the ids that its open edges lead
/// to: those with the payload `true`.
pub proof fn law_open_successors_are_open_neighbors<I: Ord + Clone, N>(
    g: GraphModel<I, N, bool>,
    a: I,
    b: I,
)
    requires
        id_laws::<I>(),
        finite_graph(g),
    ensures
        open_successors(g)(a).contains(b) <==> has_edge(g, a, b) && g[a].adjacencies[b],
        open_successors(g)(a).no_duplicates(),
{
    if g.contains_key(a) {
        let nbs = open_neighbors(g[a].adjacencies);
        assert(nbs.subset_of(g[a].adjacencies.dom()));
        vstd::set_lib::lemma_len_subset(nbs, g[a].adjacencies.dom());
        lemma_in_order_lists(nbs);
        crate::graph::order::lemma_increasing_no_duplicates(open_successors(g)(a));
    } else {
        assert(open_successors(g)(a).len() == 0);
    }
}

/// `p` is a path: each id but the first is a successor of the one before.
pub open spec fn is_path<I>(next: spec_fn(I) -> Seq<I>, p: Seq<I>) -> bool {
    &&& p.len() > 0
    &&& forall|i: int| 0 <= i < p.len() - 1 ==> next(#[trigger] p[i]).contains(p[i + 1])
}

/// A path leads from `start` to `id`. Every id reaches itself.
pub open spec fn reachable<I>(next: spec_fn(I) -> Seq<I>, start: I, id: I) -> bool {
    exists|p: Seq<I>| #[trigger] is_path(next, p) && p.first() == start && p.last() == id
}

/// The ids that can be reached from `start`.
pub open spec fn reachable_set<I>(next: spec_fn(I) -> Seq<I>, start: I) -> Set<I> {
    Set::new(|id: I| reachable(next, start, id))
}

pub proof fn lemma_reachable_start<I>(next: spec_fn(I) -> Seq<I>, start: I)
    ensures
        reachable(next, start, start),
{
    let p = seq![start];
    assert(is_path(next, p) && p.first() == start && p.last() == start);
}

pub proof fn lemma_reachable_step<I>(next: spec_fn(I) -> Seq<I>, start: I, a: I, b: I)
    requires
        reachable(next, start, a),
        next(a).contains(b),
    ensures
        reachable(next, start, b),
{
    let p = choose|p: Seq<I>| #[trigger] is_path(next, p) && p.first() == start && p.last() == a;
    let q = p.push(b);
    assert forall|i: int| 0 <= i < q.len() - 1 implies next(#[trigger] q[i]).contains(q[i + 1]) by {
        if i < p.len() - 1 {
            assert(next(p[i]).contains(p[i + 1]));
        }
    }
    assert(is_path(next, q) && q.first() == start && q.last() == b);
}

proof fn lemma_path_stays<I>(next: spec_fn(I) -> Seq<I>, p: Seq<I>, closed: Set<I>, i: int)
    requires
        is_path(next, p),
        closed.contains(p.first()),
        forall|v: I, w: I|
            closed.contains(v) && #[trigger] next(v).contains(w) ==> closed.contains(w),
        0 <= i < p.len(),
    ensures
        closed.contains(p[i]),
    decreases i,
{
    if i > 0 {
        lemma_path_stays(next, p, closed, i - 1);
    }
}

/// A set that holds `start` and the successors of each of its members holds
/// every id that can be reached from `start`.
pub proof fn lemma_closed_holds_reachable<I>(next: spec_fn(I) -> Seq<I>, start: I, closed: Set<I>)
    requires
        closed.contains(start),
        forall|v: I, w: I|
            closed.contains(v) && #[trigger] next(v).contains(w) ==> closed.contains(w),
    ensures
        forall|x: I| reachable(next, start, x) ==> closed.contains(x),
{
    assert forall|x: I| reachable(next, start, x) implies closed.contains(x) by {
        let p = choose|p: Seq<I>| #[trigger]
            is_path(next, p) && p.first() == start && p.last() == x;
        lemma_path_stays(next, p, closed, p.len() - 1);
    }
}

/// Everything visited or waiting can be reached from `start`; `start` is
/// visited or waiting; and so is each successor of a visited id.
pub open spec fn on_course<I>(
    next: spec_fn(I) -> Seq<I>,
    start: I,
    frontier: Seq<I>,
    visited: Set<I>,
) -> bool {
    &&& forall|x: I| visited.contains(x) ==> reachable(next, start, x)
    &&& forall|x: I| frontier.contains(x) ==> reachable(next, start, x)
    &&& visited.contains(start) || frontier.contains(start)
    &&& forall|v: I, w: I|
        visited.contains(v) && #[trigger] next(v).contains(w) ==> visited.contains(w)
            || frontier.contains(w)
}

/// A step that finds an id keeps the walk within its bounds.
pub proof fn lemma_step_keeps_bounds<I>(
    next: spec_fn(I) -> Seq<I>,
    lifo: bool,
    ids: Set<I>,
    frontier: Seq<I>,
    visited: Set<I>,
)
    requires
        walk_bounds(next, ids, frontier),
        step(next, lifo, frontier, visited).found is Some,
    ensures
        walk_bounds(next, ids, step(next, lifo, frontier, visited).frontier),
        ids.contains(step(next, lifo, frontier, visited).found->0),
        ids.difference(step(next, lifo, frontier, visited).visited).len() < ids.difference(
            visited,
        ).len(),
{
    let s = step(next, lifo, frontier, visited);
    let id = s.found->0;
    lemma_step(next, lifo, frontier, visited);
    assert(ids.contains(id)) by {
        let i = choose|i: int| 0 <= i < frontier.len() && frontier[i] == id;
        assert(ids.contains(frontier[i]));
    }
    lemma_visit_shrinks(ids, visited, id);
    assert forall|i: int| 0 <= i < s.frontier.len() implies ids.contains(
        #[trigger] s.frontier[i],
    ) by {
        let x = s.frontier[i];
        assert(s.frontier.contains(x));
        if frontier.contains(x) {
            let j = choose|j: int| 0 <= j < frontier.len() && frontier[j] == x;
            assert(ids.contains(frontier[j]));
        } else {
            let succ = next(id);
            let k = choose|k: int| 0 <= k < succ.len() && succ[k] == x;
            assert(ids.contains(next(id)[k]));
        }
    }
}

/// A step keeps the walk on course.
pub proof fn lemma_step_keeps_course<I>(
    next: spec_fn(I) -> Seq<I>,
    lifo: bool,
    frontier: Seq<I>,
    visited: Set<I>,
    start: I,
)
    requires
        on_course(next, start, frontier, visited),
        step(next, lifo, frontier, visited).found is Some,
    ensures
        on_course(
            next,
            start,
            step(next, lifo, frontier, visited).frontier,
            step(next, lifo, frontier, visited).visited,
        ),
{
    let s = step(next, lifo, frontier, visited);
    let id = s.found->0;
    lemma_step(next, lifo, frontier, visited);
    assert forall|x: I| s.frontier.contains(x) implies reachable(next, start, x) by {
        if !frontier.contains(x) {
            lemma_reachable_step(next, start, id, x);
        }
    }
    assert forall|v: I, x: I| s.visited.contains(v) && #[trigger] next(v).contains(
        x,
    ) implies s.visited.contains(x) || s.frontier.contains(x) by {
        if v != id {
            assert(visited.contains(x) || frontier.contains(x));
        }
    }
}

/// What a sequence holds once an id that it lacks is put in front of it.
proof fn lemma_put_first<I>(id: I, rest: Seq<I>)
    requires
        rest.no_duplicates(),
        !rest.contains(id),
    ensures
        (seq![id] + rest).no_duplicates(),
        forall|x: I| (seq![id] + rest).contains(x) <==> x == id || rest.contains(x),
{
    let w = seq![id] + rest;
    assert forall|i: int, j: int| 0 <= i < w.len() && 0 <= j < w.len() && i != j implies w[i]
        != w[j] by {
        if i > 0 && j > 0 {
            assert(rest[i - 1] != rest[j - 1]);
        } else if i == 0 {
            assert(rest[j - 1] == w[j]);
        } else {
            assert(rest[i - 1] == w[i]);
        }
    }
    assert forall|x: I| w.contains(x) <==> x == id || rest.contains(x) by {
        if w.contains(x) {
            let i = choose|i: int| 0 <= i < w.len() && w[i] == x;
            if i > 0 {
                assert(rest[i - 1] == x);
            }
        }
        if x == id {
            assert(w[0] == x);
        }
        if rest.contains(x) {
            let i = choose|i: int| 0 <= i < rest.len() && rest[i] == x;
            assert(w[i + 1] == x);
        }
    }
}

/// `w` holds each id once, none that is in `visited`, and together with
/// `visited` exactly the ids that can be reached from `start`.
pub open spec fn completes<I>(
    w: Seq<I>,
    next: spec_fn(I) -> Seq<I>,
    start: I,
    visited: Set<I>,
) -> bool {
    &&& w.no_duplicates()
    &&& forall|x: I| #[trigger] w.contains(x) ==> !visited.contains(x)
    &&& forall|x: I| #[trigger] reachable(next, start, x) <==> visited.contains(x) || w.contains(x)
}

/// From a state that is on course, the walk visits exactly the reachable ids
/// not yet visited, each once.
pub proof fn lemma_walk<I>(
    next: spec_fn(I) -> Seq<I>,
    lifo: bool,
    ids: Set<I>,
    frontier: Seq<I>,
    visited: Set<I>,
    start: I,
)
    requires
        walk_bounds(next, ids, frontier),
        on_course(next, start, frontier, visited),
    ensures
        completes(walk(next, lifo, ids, frontier, visited), next, start, visited),
    decreases ids.difference(visited).len(),
{
    let s = step(next, lifo, frontier, visited);
    let w = walk(next, lifo, ids, frontier, visited);
    match s.found {
        None => {
            lemma_step(next, lifo, frontier, visited);
            assert forall|v: I, x: I| visited.contains(v) && #[trigger] next(v).contains(
                x,
            ) implies visited.contains(x) by {}
            lemma_closed_holds_reachable(next, start, visited);
            assert forall|x: I| #[trigger] w.contains(x) implies !visited.contains(x) by {
                let i = choose|i: int| 0 <= i < w.len() && w[i] == x;
            }
            assert forall|x: I| #[trigger]
                reachable(next, start, x) <==> visited.contains(x) || w.contains(x) by {
                if w.contains(x) {
                    let i = choose|i: int| 0 <= i < w.len() && w[i] == x;
                }
            }
        },
        Some(id) => {
            let rest = walk(next, lifo, ids, s.frontier, s.visited);
            lemma_step_keeps_bounds(next, lifo, ids, frontier, visited);
            lemma_step_keeps_course(next, lifo, frontier, visited, start);
            lemma_walk(next, lifo, ids, s.frontier, s.visited, start);
            assert(s.visited == visited.insert(id) && !visited.contains(id)) by {
                lemma_step(next, lifo, frontier, visited);
            }
            assert(!rest.contains(id)) by {
                if rest.contains(id) {
                    assert(!s.visited.contains(id));
                }
            }
            lemma_put_first(id, rest);
            assert forall|x: I| #[trigger] w.contains(x) implies !visited.contains(x) by {
                if x != id {
                    assert(rest.contains(x));
                }
            }
            assert forall|x: I| #[trigger]
                reachable(next, start, x) <==> visited.contains(x) || w.contains(x) by {
                assert(reachable(next, start, x) <==> s.visited.contains(x) || rest.contains(x));
            }
        },
    }
}

/// A walk from `start` visits each id that can be reached from `start`
/// exactly once, and no other.
pub proof fn lemma_walk_visits_reachable<I>(
    next: spec_fn(I) -> Seq<I>,
    lifo: bool,
    ids: Set<I>,
    start: I,
)
    requires
        walk_bounds(next, ids.insert(start), seq![start]),
    ensures
        walk_from(next, lifo, ids, start).no_duplicates(),
        walk_from(next, lifo, ids, start).to_set() == reachable_set(next, start),
        walk_from(next, lifo, ids, start).len() == reachable_set(next, start).len(),
{
    let ids = ids.insert(start);
    let w = walk(next, lifo, ids, seq![start], Set::empty());
    lemma_reachable_start(next, start);
    assert(seq![start].contains(start)) by {
        assert(seq![start][0] == start);
    }
    assert forall|x: I| seq![start].contains(x) implies reachable(next, start, x) by {
        let i = choose|i: int| 0 <= i < seq![start].len() && seq![start][i] == x;
    }
    lemma_walk(next, lifo, ids, seq![start], Set::empty(), start);
    assert forall|x: I| w.to_set().contains(x) <==> reachable_set(next, start).contains(x) by {
        assert(reachable(next, start, x) <==> Set::<I>::empty().contains(x) || w.contains(x));
    }
    assert(w.to_set() =~= reachable_set(next, start));
    w.unique_seq_to_set();
}

} // verus!
