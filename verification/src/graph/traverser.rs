//! Walks over a graph: breadth first, depth first, and the search for a
//! shortest path.

use crate::graph::order::{
    hash_laws, id_laws, in_order, increasing, lemma_in_order_is, lemma_less_laws, less,
    lists_in_order, same_id,
};
use crate::graph::shortest::{
    around, begun, discovered, frontier_ok, lemma_begun, lemma_cheapest_is_nearest,
    lemma_discovered, lemma_exhausted, lemma_followed_all, lemma_passed, lemma_settled, level_ok,
    path_between, settled_ok, shortest_path, tree_ok, Search,
};
use crate::graph::walk::{
    fresh, is_path, lemma_step, lemma_step_keeps_bounds, lemma_visit_shrinks,
    lemma_walk_visits_reachable, open_neighbors, open_successors, reachable, reachable_set, step,
    successors, unvisited, walk, walk_bounds, walk_from,
};
use crate::graph::{copy_id, ordered_keys, GraphData, GraphTraits};
use std::collections::{BTreeMap, BTreeSet, HashMap, VecDeque};
use std::hash::Hash;
use std::marker::PhantomData;
use vstd::prelude::*;

verus! {

/// The neighbors of the node `id` of `data` in increasing order; none if
/// `id` is no node.
pub fn neighbors<I: Ord + Clone, N, E>(data: &GraphData<I, N, E>, id: &I) -> (v: Vec<I>)
    requires
        id_laws::<I>(),
    ensures
        v@ == successors(data@)(*id),
{
    match data.node(id) {
        Some(node) => ordered_keys(node.adjacencies()),
        None => Vec::new(),
    }
}

/// The keys of `edges` whose payload is `true`, in increasing order.
pub fn open_keys<I: Ord + Clone>(edges: &BTreeMap<I, bool>) -> (v: Vec<I>)
    requires
        id_laws::<I>(),
    ensures
        v@ == in_order(open_neighbors(edges@)),
{
    let keys = ordered_keys(edges);
    let mut open: Vec<I> = Vec::new();
    let mut k: usize = 0;
    while k < keys.len()
        invariant
            id_laws::<I>(),
            0 <= k <= keys.len(),
            lists_in_order(keys@, edges@.dom()),
            increasing(open@),
            forall|m: int|
                0 <= m < open@.len() ==> exists|j: int|
                    0 <= j < k && keys@[j] == #[trigger] open@[m],
            forall|m: int|
                0 <= m < open@.len() ==> open_neighbors(edges@).contains(#[trigger] open@[m]),
            forall|j: int|
                0 <= j < k && open_neighbors(edges@).contains(#[trigger] keys@[j])
                    ==> open@.contains(keys@[j]),
        decreases keys.len() - k,
    {
        let gate = edges.get(&keys[k]).unwrap();
        if *gate {
            let ghost before = open@;
            open.push(copy_id(&keys[k]));
            proof {
                lemma_less_laws::<I>();
                assert forall|a: int, b: int| 0 <= a < b < open@.len() implies less(
                    open@[a],
                    open@[b],
                ) by {
                    if b == before.len() {
                        let j = choose|j: int| 0 <= j < k && keys@[j] == before[a];
                        assert(less(keys@[j], keys@[k as int]));
                    } else {
                        assert(less(before[a], before[b]));
                    }
                }
                assert forall|m: int| 0 <= m < open@.len() implies exists|j: int|
                    0 <= j < k + 1 && keys@[j] == #[trigger] open@[m] by {
                    if m == before.len() {
                        assert(keys@[k as int] == open@[m]);
                    } else {
                        let j = choose|j: int| 0 <= j < k && keys@[j] == before[m];
                        assert(keys@[j] == open@[m]);
                    }
                }
                assert forall|j: int|
                    0 <= j < k + 1 && open_neighbors(edges@).contains(
                        #[trigger] keys@[j],
                    ) implies open@.contains(keys@[j]) by {
                    if j == k {
                        assert(open@[before.len() as int] == keys@[j]);
                    } else {
                        let m = choose|m: int| 0 <= m < before.len() && before[m] == keys@[j];
                        assert(open@[m] == keys@[j]);
                    }
                }
            }
        }
        k += 1;
    }
    proof {
        assert forall|x: I| open@.contains(x) <==> open_neighbors(edges@).contains(x) by {
            if open@.contains(x) {
                let m = choose|m: int| 0 <= m < open@.len() && open@[m] == x;
                assert(open_neighbors(edges@).contains(open@[m]));
            }
            if open_neighbors(edges@).contains(x) {
                let j = choose|j: int| 0 <= j < keys@.len() && keys@[j] == x;
                assert(open@.contains(keys@[j]));
            }
        }
        lemma_in_order_is(open@, open_neighbors(edges@));
    }
    open
}

/// The neighbors of the node `id` of `data` that an edge with the payload
/// `true` leads to, in increasing order.
pub fn open_neighbors_of<I: Ord + Clone, N>(data: &GraphData<I, N, bool>, id: &I) -> (v: Vec<I>)
    requires
        id_laws::<I>(),
    ensures
        v@ == open_successors(data@)(*id),
{
    match data.node(id) {
        Some(node) => open_keys(node.adjacencies()),
        None => Vec::new(),
    }
}

/// The place of the first entry of `heap` with the least distance.
fn cheapest<I>(heap: &Vec<(usize, I)>) -> (k: usize)
    requires
        heap.len() > 0,
    ensures
        k < heap.len(),
        forall|i: int| 0 <= i < heap.len() ==> heap@[k as int].0 <= (#[trigger] heap@[i]).0,
{
    let mut k: usize = 0;
    let mut i: usize = 1;
    while i < heap.len()
        invariant
            1 <= i <= heap.len(),
            k < i,
            forall|j: int| 0 <= j < i ==> heap@[k as int].0 <= (#[trigger] heap@[j]).0,
        decreases heap.len() - i,
    {
        if heap[i].0 < heap[k].0 {
            k = i;
        }
        i += 1;
    }
    k
}

/// The way found from `start` to `end`: from `end` back over the id before
/// each id until an id has none before it, which is `start`.
fn trace_back<I: Ord + Clone + Hash>(
    predecessors: &HashMap<I, I>,
    start: I,
    end: &I,
    Ghost(next): Ghost<spec_fn(I) -> Seq<I>>,
    Ghost(s): Ghost<Search<I>>,
) -> (path: Vec<I>)
    requires
        id_laws::<I>(),
        hash_laws::<I>(),
        tree_ok(next, start, s),
        s.pred == predecessors@,
        s.dist.contains_key(*end),
    ensures
        path_between(next, start, *end, path@),
        path@.len() == s.dist[*end] + 1,
{
    let mut back: VecDeque<I> = VecDeque::new();
    let mut current = copy_id(end);
    loop
        invariant
            id_laws::<I>(),
            hash_laws::<I>(),
            tree_ok(next, start, s),
            s.pred == predecessors@,
            s.dist.contains_key(current),
            s.dist.contains_key(*end),
            is_path(next, seq![current] + back@),
            (seq![current] + back@).last() == *end,
            back@.len() + s.dist[current] == s.dist[*end],
        ensures
            current == start,
        decreases s.dist[current],
    {
        let ghost tail = seq![current] + back@;
        match predecessors.get(&current) {
            None => {
                break ;
            },
            Some(before) => {
                let earlier = copy_id(before);
                back.push_front(current);
                current = earlier;
                proof {
                    let grown = seq![current] + back@;
                    assert forall|i: int| 0 <= i < grown.len() - 1 implies next(
                        #[trigger] grown[i],
                    ).contains(grown[i + 1]) by {
                        if i > 0 {
                            assert(next(tail[i - 1]).contains(tail[i - 1 + 1]));
                        }
                    }
                }
            },
        }
    }
    let mut path: Vec<I> = Vec::new();
    path.push(start);
    let ghost whole = seq![current] + back@;
    while back.len() > 0
        invariant
            path@ + back@ == whole,
        decreases back.len(),
    {
        let id = back.pop_front().unwrap();
        path.push(id);
    }
    path
}

/// What a walk needs of the graph it walks: the successors of an id.
pub trait TraverserAccess<I: Ord + Clone>: Sized {
    /// The successors of each id, in the order in which a walk takes them.
    spec fn next(&self) -> spec_fn(I) -> Seq<I>;

    /// The ids that a walk can meet, whatever id it starts from.
    spec fn ids(&self) -> Set<I>;

    /// A walk stays within `ids` and the id it starts from.
    proof fn lemma_bounds(&self, start: I)
        requires
            id_laws::<I>(),
        ensures
            walk_bounds(self.next(), self.ids().insert(start), seq![start]),
    ;

    fn successors(&self, id: &I) -> (v: Vec<I>)
        requires
            id_laws::<I>(),
        ensures
            v@ == (self.next())(*id),
    ;
}

/// The walks that every traverser offers.
pub trait TraverserTraits<I: Ord + Clone>: TraverserAccess<I> {
    /// What a walk does at each id that it visits. Nothing, unless a traverser
    /// has work of its own to do there.
    fn visit(&self, id: &I)
        requires
            id_laws::<I>(),
    {
    }

    /// One step breadth first: ids leave the front of `queue` until one of
    /// them is unvisited. That one is marked visited and returned, and those of
    /// its successors that are unvisited join the back of `queue`.
    fn bfs_step(&self, queue: &mut VecDeque<I>, visited: &mut BTreeSet<I>) -> (r: Option<I>)
        requires
            id_laws::<I>(),
        ensures
            r == step(self.next(), false, old(queue)@, old(visited)@).found,
            final(queue)@ == step(self.next(), false, old(queue)@, old(visited)@).frontier,
            final(visited)@ == step(self.next(), false, old(queue)@, old(visited)@).visited,
    {
        while queue.len() > 0
            invariant
                id_laws::<I>(),
                step(self.next(), false, queue@, visited@) == step(
                    self.next(),
                    false,
                    old(queue)@,
                    old(visited)@,
                ),
            decreases queue@.len(),
        {
            let ghost seen = visited@;
            let current = queue.pop_front().unwrap();
            let unseen = visited.insert(copy_id(&current));
            assert(!unseen ==> visited@ =~= seen);
            if unseen {
                let ghost rest = queue@;
                let succ = self.successors(&current);
                let mut k: usize = 0;
                assert(fresh(succ@.take(0), visited@) =~= Seq::<I>::empty()) by {
                    reveal(Seq::filter);
                }
                while k < succ.len()
                    invariant
                        id_laws::<I>(),
                        0 <= k <= succ.len(),
                        queue@ == rest + fresh(succ@.take(k as int), visited@),
                    decreases succ.len() - k,
                {
                    proof {
                        assert(succ@.take(k + 1) =~= succ@.take(k as int).push(succ@[k as int]));
                        let taken = succ@.take(k as int);
                        taken.lemma_filter_push(succ@[k as int], unvisited(visited@));
                    }
                    if !visited.contains(&succ[k]) {
                        queue.push_back(copy_id(&succ[k]));
                    }
                    k += 1;
                }
                assert(succ@.take(succ@.len() as int) =~= succ@);
                return Some(current);
            }
        }
        None
    }

    /// One step depth first: ids leave the back of `stack` until one of them
    /// is unvisited. That one is marked visited and returned, and those of its
    /// successors that are unvisited join the back of `stack`.
    fn dfs_step(&self, stack: &mut Vec<I>, visited: &mut BTreeSet<I>) -> (r: Option<I>)
        requires
            id_laws::<I>(),
        ensures
            r == step(self.next(), true, old(stack)@, old(visited)@).found,
            final(stack)@ == step(self.next(), true, old(stack)@, old(visited)@).frontier,
            final(visited)@ == step(self.next(), true, old(stack)@, old(visited)@).visited,
    {
        while stack.len() > 0
            invariant
                id_laws::<I>(),
                step(self.next(), true, stack@, visited@) == step(
                    self.next(),
                    true,
                    old(stack)@,
                    old(visited)@,
                ),
            decreases stack@.len(),
        {
            let ghost seen = visited@;
            let current = stack.pop().unwrap();
            let unseen = visited.insert(copy_id(&current));
            assert(!unseen ==> visited@ =~= seen);
            if unseen {
                let ghost rest = stack@;
                let succ = self.successors(&current);
                let mut k: usize = 0;
                assert(fresh(succ@.take(0), visited@) =~= Seq::<I>::empty()) by {
                    reveal(Seq::filter);
                }
                while k < succ.len()
                    invariant
                        id_laws::<I>(),
                        0 <= k <= succ.len(),
                        stack@ == rest + fresh(succ@.take(k as int), visited@),
                    decreases succ.len() - k,
                {
                    proof {
                        assert(succ@.take(k + 1) =~= succ@.take(k as int).push(succ@[k as int]));
                        let taken = succ@.take(k as int);
                        taken.lemma_filter_push(succ@[k as int], unvisited(visited@));
                    }
                    if !visited.contains(&succ[k]) {
                        stack.push(copy_id(&succ[k]));
                    }
                    k += 1;
                }
                assert(succ@.take(succ@.len() as int) =~= succ@);
                return Some(current);
            }
        }
        None
    }

    /// The walk breadth first from `start`: steps are taken until the queue is
    /// empty, and each id that a step finds is visited. Returns the ids in the
    /// order of their visits: each id that can be reached from `start`, once.
    fn bfs(&self, start: I) -> (order: Vec<I>)
        requires
            id_laws::<I>(),
        ensures
            order@ == walk_from(self.next(), false, self.ids(), start),
            order@.no_duplicates(),
            order@.to_set() == reachable_set(self.next(), start),
            order@.len() == reachable_set(self.next(), start).len(),
    {
        let ghost next = self.next();
        let ghost ids = self.ids().insert(start);
        let mut queue: VecDeque<I> = VecDeque::new();
        let mut visited: BTreeSet<I> = BTreeSet::new();
        let mut order: Vec<I> = Vec::new();
        queue.push_back(start);
        proof {
            self.lemma_bounds(start);
        }
        while queue.len() > 0
            invariant
                id_laws::<I>(),
                next == self.next(),
                walk_bounds(next, ids, queue@),
                order@ + walk(next, false, ids, queue@, visited@) == walk(
                    next,
                    false,
                    ids,
                    seq![start],
                    Set::empty(),
                ),
            decreases ids.difference(visited@).len(), queue@.len(),
        {
            let ghost waiting = queue@;
            let ghost seen = visited@;
            let ghost so_far = order@;
            let found = self.bfs_step(&mut queue, &mut visited);
            proof {
                lemma_step(next, false, waiting, seen);
            }
            match found {
                Some(id) => {
                    proof {
                        lemma_step_keeps_bounds(next, false, ids, waiting, seen);
                        assert(walk(next, false, ids, waiting, seen) =~= seq![id] + walk(
                            next,
                            false,
                            ids,
                            queue@,
                            visited@,
                        ));
                    }
                    self.visit(&id);
                    order.push(id);
                    assert(order@ + walk(next, false, ids, queue@, visited@) =~= so_far + walk(
                        next,
                        false,
                        ids,
                        waiting,
                        seen,
                    ));
                },
                None => {
                    assert(walk(next, false, ids, queue@, visited@) =~= Seq::<I>::empty());
                },
            }
        }
        proof {
            lemma_walk_visits_reachable(next, false, self.ids(), start);
        }
        order
    }

    /// The walk depth first from `start`: steps are taken until the stack is
    /// empty, and each id that a step finds is visited. Returns the ids in the
    /// order of their visits: each id that can be reached from `start`, once.
    fn dfs(&self, start: I) -> (order: Vec<I>)
        requires
            id_laws::<I>(),
        ensures
            order@ == walk_from(self.next(), true, self.ids(), start),
            order@.no_duplicates(),
            order@.to_set() == reachable_set(self.next(), start),
            order@.len() == reachable_set(self.next(), start).len(),
    {
        let ghost next = self.next();
        let ghost ids = self.ids().insert(start);
        let mut stack: Vec<I> = Vec::new();
        let mut visited: BTreeSet<I> = BTreeSet::new();
        let mut order: Vec<I> = Vec::new();
        stack.push(start);
        proof {
            self.lemma_bounds(start);
        }
        while stack.len() > 0
            invariant
                id_laws::<I>(),
                next == self.next(),
                walk_bounds(next, ids, stack@),
                order@ + walk(next, true, ids, stack@, visited@) == walk(
                    next,
                    true,
                    ids,
                    seq![start],
                    Set::empty(),
                ),
            decreases ids.difference(visited@).len(), stack@.len(),
        {
            let ghost waiting = stack@;
            let ghost seen = visited@;
            let ghost so_far = order@;
            let found = self.dfs_step(&mut stack, &mut visited);
            proof {
                lemma_step(next, true, waiting, seen);
            }
            match found {
                Some(id) => {
                    proof {
                        lemma_step_keeps_bounds(next, true, ids, waiting, seen);
                        assert(walk(next, true, ids, waiting, seen) =~= seq![id] + walk(
                            next,
                            true,
                            ids,
                            stack@,
                            visited@,
                        ));
                    }
                    self.visit(&id);
                    order.push(id);
                    assert(order@ + walk(next, true, ids, stack@, visited@) =~= so_far + walk(
                        next,
                        true,
                        ids,
                        waiting,
                        seen,
                    ));
                },
                None => {
                    assert(walk(next, true, ids, stack@, visited@) =~= Seq::<I>::empty());
                },
            }
        }
        proof {
            lemma_walk_visits_reachable(next, true, self.ids(), start);
        }
        order
    }

    /// A shortest path from `start` to `end` over the edges, each of which
    /// counts 1: the ids on it, with `start` and `end`. `None` where no path
    /// leads from `start` to `end`. The payloads of the edges play no part.
    fn dijkstra(&self, start: I, end: I) -> (r: Option<Vec<I>>) where I: Hash
        requires
            id_laws::<I>(),
            hash_laws::<I>(),
        ensures
            match r {
                Some(path) => shortest_path(self.next(), start, end, path@),
                None => !reachable(self.next(), start, end),
            },
    {
        let ghost next = self.next();
        let ghost ids = self.ids().insert(start);
        let mut dist: HashMap<I, usize> = HashMap::new();
        let mut heap: Vec<(usize, I)> = Vec::new();
        let mut predecessors: HashMap<I, I> = HashMap::new();
        let ghost mut done: Set<I> = Set::empty();

        dist.insert(copy_id(&start), 0);
        heap.push((0, copy_id(&start)));
        proof {
            self.lemma_bounds(start);
            lemma_begun(next, start, end);
        }

        while heap.len() > 0
            invariant
                id_laws::<I>(),
                hash_laws::<I>(),
                next == self.next(),
                walk_bounds(next, ids, seq![start]),
                tree_ok(
                    next,
                    start,
                    Search { dist: dist@, pred: predecessors@, heap: heap@, done },
                ),
                frontier_ok(Search { dist: dist@, pred: predecessors@, heap: heap@, done }),
                level_ok(Search { dist: dist@, pred: predecessors@, heap: heap@, done }),
                settled_ok(
                    next,
                    start,
                    end,
                    Search { dist: dist@, pred: predecessors@, heap: heap@, done },
                    None,
                ),
                forall|v: I| dist@.contains_key(v) ==> ids.contains(v),
            decreases ids.difference(dist@.dom()).len(), heap@.len(),
        {
            let ghost before = Search { dist: dist@, pred: predecessors@, heap: heap@, done };
            let ghost unmet = ids.difference(dist@.dom()).len();
            let ghost pending = heap@.len();
            let k = cheapest(&heap);
            let (cost, position) = heap.remove(k);
            assert(before.heap[k as int] == (cost, position));
            if same_id(&position, &end) {
                proof {
                    assert forall|q: Seq<I>| #[trigger]
                        path_between(next, start, end, q) implies cost + 1 <= q.len() by {
                        lemma_cheapest_is_nearest(next, start, end, before, k as int, q);
                    }
                }
                let path = trace_back(&predecessors, start, &end, Ghost(next), Ghost(before));
                return Some(path);
            }
            proof {
                lemma_settled(next, start, end, before, k as int);
                done = done.insert(position);
            }
            let succ = self.successors(&position);
            let mut j: usize = 0;
            while j < succ.len()
                invariant
                    id_laws::<I>(),
                    hash_laws::<I>(),
                    0 <= j <= succ.len(),
                    succ@ == next(position),
                    walk_bounds(next, ids, seq![start]),
                    done.contains(position),
                    dist@.contains_key(position),
                    dist@[position] == cost,
                    tree_ok(
                        next,
                        start,
                        Search { dist: dist@, pred: predecessors@, heap: heap@, done },
                    ),
                    frontier_ok(Search { dist: dist@, pred: predecessors@, heap: heap@, done }),
                    around(Search { dist: dist@, pred: predecessors@, heap: heap@, done }, cost),
                    settled_ok(
                        next,
                        start,
                        end,
                        Search { dist: dist@, pred: predecessors@, heap: heap@, done },
                        Some((position, j as int)),
                    ),
                    forall|v: I| dist@.contains_key(v) ==> ids.contains(v),
                    ids.difference(dist@.dom()).len() <= unmet,
                    ids.difference(dist@.dom()).len() + heap@.len() <= unmet + pending - 1,
                decreases succ.len() - j,
            {
                let ghost s = Search { dist: dist@, pred: predecessors@, heap: heap@, done };
                assert(cost < dist.len());
                let next_cost = cost + 1;
                let farther = match dist.get(&succ[j]) {
                    Some(known) => next_cost < *known,
                    None => true,
                };
                if farther {
                    proof {
                        lemma_discovered(next, start, end, s, position, j as int);
                        lemma_visit_shrinks(ids, dist@.dom(), succ@[j as int]);
                    }
                    dist.insert(copy_id(&succ[j]), next_cost);
                    predecessors.insert(copy_id(&succ[j]), copy_id(&position));
                    heap.push((next_cost, copy_id(&succ[j])));
                    proof {
                        let t = discovered(s, position, succ@[j as int]);
                        assert(dist@ == t.dist);
                        assert(predecessors@ == t.pred);
                    }
                } else {
                    proof {
                        lemma_passed(next, start, end, s, position, j as int);
                    }
                }
                j += 1;
            }
            proof {
                lemma_followed_all(
                    next,
                    start,
                    end,
                    Search { dist: dist@, pred: predecessors@, heap: heap@, done },
                    position,
                );
            }
        }
        proof {
            lemma_exhausted(
                next,
                start,
                end,
                Search { dist: dist@, pred: predecessors@, heap: heap@, done },
            );
        }
        None
    }
}

/// A traverser that reads the graph it walks.
#[derive(Debug)]
pub struct Traverser<'a, I, N, E, G> where
    I: Ord + Clone,
    G: GraphTraits<I, N, E>,
 {
    graph: &'a G,
    i: PhantomData<I>,
    n: PhantomData<N>,
    e: PhantomData<E>,
}

/// A traverser that holds the graph it walks for writing.
#[derive(Debug)]
pub struct TraverserMut<'a, I, N, E, G> where
    I: Ord + Clone,
    G: GraphTraits<I, N, E>,
 {
    graph: &'a mut G,
    i: PhantomData<I>,
    n: PhantomData<N>,
    e: PhantomData<E>,
}

impl<'a, I, N, E, G> Traverser<'a, I, N, E, G> where
    I: Ord + Clone,
    G: GraphTraits<I, N, E>,
 {
    /// The graph that this traverser walks.
    pub closed spec fn target(&self) -> G {
        *self.graph
    }

    pub fn new(graph: &'a G) -> (t: Self)
        ensures
            t.target() == *graph,
    {
        Self { graph, i: PhantomData, n: PhantomData, e: PhantomData }
    }

    pub fn graph(&self) -> (g: &'a G)
        ensures
            *g == self.target(),
    {
        self.graph
    }
}

impl<'a, I, N, E, G> Clone for Traverser<'a, I, N, E, G> where
    I: Ord + Clone,
    G: GraphTraits<I, N, E>,
 {
    fn clone(&self) -> (t: Self)
        ensures
            t.target() == self.target(),
    {
        Self { graph: self.graph, i: PhantomData, n: PhantomData, e: PhantomData }
    }
}

impl<'a, I, N, E, G> TraverserMut<'a, I, N, E, G> where
    I: Ord + Clone,
    G: GraphTraits<I, N, E>,
 {
    /// The graph that this traverser walks.
    pub closed spec fn target(&self) -> G {
        *self.graph
    }

    pub fn new(graph: &'a mut G) -> (t: Self)
        ensures
            t.target() == *old(graph),
    {
        Self { graph, i: PhantomData, n: PhantomData, e: PhantomData }
    }

    pub fn graph(&self) -> (g: &G)
        ensures
            *g == self.target(),
    {
        &*self.graph
    }

    pub fn graph_mut(&mut self) -> (g: &mut G)
        ensures
            *g == old(self).target(),
            final(self).target() == *final(g),
    {
        &mut *self.graph
    }
}

/// A graph that hands out traversers.
pub trait Traversable<I: Ord + Clone, N, E>: GraphTraits<I, N, E> {
    fn traverser<'a>(&'a self) -> (t: Traverser<'a, I, N, E, Self>) where I: 'a, N: 'a, E: 'a
        ensures
            t.target() == *self,
    {
        Traverser::new(self)
    }

    fn traverser_mut<'a>(&'a mut self) -> (t: TraverserMut<'a, I, N, E, Self>) where
        I: 'a,
        N: 'a,
        E: 'a,

        ensures
            t.target() == *old(self),
    {
        TraverserMut::new(self)
    }
}

} // verus!
