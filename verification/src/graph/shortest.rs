//! Shortest paths, and what the search for one keeps true while it runs.

use crate::graph::walk::{is_path, lemma_closed_holds_reachable, reachable};
use vstd::prelude::*;

verus! {

/// `p` is a path from `a` to `b`.
pub open spec fn path_between<I>(next: spec_fn(I) -> Seq<I>, a: I, b: I, p: Seq<I>) -> bool {
    is_path(next, p) && p.first() == a && p.last() == b
}

/// `p` is a path from `a` to `b`, and no path from `a` to `b` has fewer ids.
pub open spec fn shortest_path<I>(next: spec_fn(I) -> Seq<I>, a: I, b: I, p: Seq<I>) -> bool {
    &&& path_between(next, a, b, p)
    &&& forall|q: Seq<I>| #[trigger] path_between(next, a, b, q) ==> p.len() <= q.len()
}

/// Where a search stands.
#[verifier::reject_recursive_types(I)]
pub struct Search<I> {
    /// The number of edges on the way found to each id met so far.
    pub dist: Map<I, usize>,
    /// The id before each id on the way found to it.
    pub pred: Map<I, I>,
    /// The ids that wait for their edges to be followed, each with its
    /// distance.
    pub heap: Seq<(usize, I)>,
    /// The ids whose edges were followed.
    pub done: Set<I>,
}

/// The id `v` waits in the heap.
pub open spec fn waiting<I>(s: Search<I>, v: I) -> bool {
    exists|i: int| 0 <= i < s.heap.len() && (#[trigger] s.heap[i]).1 == v
}

/// The ways found form a tree from `start`: each id but `start` has the id
/// before it one edge nearer to `start`.
pub open spec fn tree_ok<I>(next: spec_fn(I) -> Seq<I>, start: I, s: Search<I>) -> bool {
    &&& s.dist.dom().finite()
    &&& s.dist.contains_key(start)
    &&& s.dist[start] == 0
    &&& !s.pred.contains_key(start)
    &&& forall|v: I| #[trigger]
        s.pred.contains_key(v) ==> {
            &&& s.dist.contains_key(v)
            &&& s.dist.contains_key(s.pred[v])
            &&& s.dist[s.pred[v]] + 1 == s.dist[v]
            &&& next(s.pred[v]).contains(v)
        }
    &&& forall|v: I| #[trigger] s.dist.contains_key(v) ==> v == start || s.pred.contains_key(v)
    &&& forall|v: I| #[trigger] s.dist.contains_key(v) ==> s.dist[v] < s.dist.dom().len()
}

/// The heap holds each id that was met and whose edges were not followed,
/// once and with its distance; no id met is more than one edge farther than
/// any that waits.
pub open spec fn frontier_ok<I>(s: Search<I>) -> bool {
    &&& forall|i: int|
        0 <= i < s.heap.len() ==> {
            &&& s.dist.contains_key((#[trigger] s.heap[i]).1)
            &&& s.heap[i].0 == s.dist[s.heap[i].1]
            &&& !s.done.contains(s.heap[i].1)
        }
    &&& forall|i: int, j: int|
        0 <= i < s.heap.len() && 0 <= j < s.heap.len() && i != j ==> (#[trigger] s.heap[i]).1 != (
        #[trigger] s.heap[j]).1
    &&& forall|v: I| #[trigger] s.dist.contains_key(v) ==> s.done.contains(v) || waiting(s, v)
    &&& forall|v: I| #[trigger] s.done.contains(v) ==> s.dist.contains_key(v)
}

/// How many of the edges of `u` were followed: all, but for the id whose
/// edges are being followed.
pub open spec fn followed<I>(next: spec_fn(I) -> Seq<I>, u: I, busy: Option<(I, int)>) -> int {
    match busy {
        Some((v, k)) => if u == v {
            k
        } else {
            next(u).len() as int
        },
        None => next(u).len() as int,
    }
}

/// Each id whose edges were followed has its true distance, and the ids its
/// edges lead to were met, at most one edge farther. `end` is not among them.
pub open spec fn settled_ok<I>(
    next: spec_fn(I) -> Seq<I>,
    start: I,
    end: I,
    s: Search<I>,
    busy: Option<(I, int)>,
) -> bool {
    &&& !s.done.contains(end)
    &&& forall|u: I, j: int|
        s.done.contains(u) && 0 <= j < followed(next, u, busy) ==> {
            &&& s.dist.contains_key(#[trigger] next(u)[j])
            &&& s.dist[next(u)[j]] <= s.dist[u] + 1
        }
    &&& forall|u: I, q: Seq<I>|
        s.done.contains(u) && #[trigger] path_between(next, start, u, q) ==> s.dist[u] + 1
            <= q.len()
}

/// No id met is more than one edge farther than any that waits.
pub open spec fn level_ok<I>(s: Search<I>) -> bool {
    forall|v: I, i: int|
        #[trigger] s.dist.contains_key(v) && 0 <= i < s.heap.len() ==> s.dist[v] <= (
        #[trigger] s.heap[i]).0 + 1
}

/// While the edges of an id at the distance `c` are followed: nothing that
/// waits is nearer than `c`, and nothing met is farther than `c + 1`.
pub open spec fn around<I>(s: Search<I>, c: usize) -> bool {
    &&& forall|i: int| 0 <= i < s.heap.len() ==> c <= (#[trigger] s.heap[i]).0
    &&& forall|v: I| #[trigger] s.dist.contains_key(v) ==> s.dist[v] <= c + 1
}

/// The search when it begins: `start` waits at the distance 0.
pub open spec fn begun<I>(start: I) -> Search<I> {
    Search {
        dist: Map::<I, usize>::empty().insert(start, 0),
        pred: Map::empty(),
        heap: seq![(0usize, start)],
        done: Set::empty(),
    }
}

pub proof fn lemma_begun<I>(next: spec_fn(I) -> Seq<I>, start: I, end: I)
    ensures
        tree_ok(next, start, begun(start)),
        frontier_ok(begun(start)),
        level_ok(begun(start)),
        settled_ok(next, start, end, begun(start), None),
{
    let s = begun(start);
    assert(s.dist.dom() =~= set![start]);
    assert(s.heap[0].1 == start);
    assert forall|v: I| #[trigger] s.dist.contains_key(v) implies s.done.contains(v) || waiting(
        s,
        v,
    ) by {
        assert(s.heap[0].1 == v);
    }
}

/// The search after the id at the place `k` of the heap left the heap to
/// have its edges followed.
pub open spec fn settled<I>(s: Search<I>, k: int) -> Search<I> {
    Search { dist: s.dist, pred: s.pred, heap: s.heap.remove(k), done: s.done.insert(s.heap[k].1) }
}

pub proof fn lemma_settled<I>(next: spec_fn(I) -> Seq<I>, start: I, end: I, s: Search<I>, k: int)
    requires
        tree_ok(next, start, s),
        frontier_ok(s),
        level_ok(s),
        settled_ok(next, start, end, s, None),
        0 <= k < s.heap.len(),
        forall|i: int| 0 <= i < s.heap.len() ==> s.heap[k].0 <= (#[trigger] s.heap[i]).0,
        s.heap[k].1 != end,
    ensures
        tree_ok(next, start, settled(s, k)),
        frontier_ok(settled(s, k)),
        around(settled(s, k), s.heap[k].0),
        settled_ok(next, start, end, settled(s, k), Some((s.heap[k].1, 0))),
{
    let t = settled(s, k);
    let v = s.heap[k].1;
    let c = s.heap[k].0;
    assert forall|i: int| 0 <= i < t.heap.len() implies {
        &&& t.dist.contains_key((#[trigger] t.heap[i]).1)
        &&& t.heap[i].0 == t.dist[t.heap[i].1]
        &&& !t.done.contains(t.heap[i].1)
        &&& c <= t.heap[i].0
    } by {
        if i < k {
            assert(t.heap[i] == s.heap[i]);
        } else {
            assert(t.heap[i] == s.heap[i + 1]);
        }
    }
    assert forall|i: int, j: int|
        0 <= i < t.heap.len() && 0 <= j < t.heap.len() && i != j implies (#[trigger] t.heap[i]).1
        != (#[trigger] t.heap[j]).1 by {
    }
    assert forall|w: I| #[trigger] t.dist.contains_key(w) implies t.done.contains(w) || waiting(
        t,
        w,
    ) by {
        if w != v && !s.done.contains(w) {
            let i = choose|i: int| 0 <= i < s.heap.len() && (#[trigger] s.heap[i]).1 == w;
            if i < k {
                assert(t.heap[i] == s.heap[i]);
            } else {
                assert(t.heap[i - 1] == s.heap[i]);
            }
        }
    }
    assert forall|w: I| #[trigger] t.dist.contains_key(w) implies t.dist[w] <= c + 1 by {
        assert(s.dist[w] <= s.heap[k].0 + 1);
    }
    assert forall|u: I, q: Seq<I>|
        t.done.contains(u) && #[trigger] path_between(next, start, u, q) implies t.dist[u] + 1
        <= q.len() by {
        if u == v {
            lemma_cheapest_is_nearest(next, start, end, s, k, q);
        }
    }
    assert forall|u: I, j: int|
        t.done.contains(u) && 0 <= j < followed(next, u, Some((v, 0int))) implies {
        &&& t.dist.contains_key(#[trigger] next(u)[j])
        &&& t.dist[next(u)[j]] <= t.dist[u] + 1
    } by {
        assert(0 <= j < followed(next, u, None));
    }
}

/// The search after the id `w`, to which an edge of `v` leads, was met for
/// the first time.
pub open spec fn discovered<I>(s: Search<I>, v: I, w: I) -> Search<I> {
    Search {
        dist: s.dist.insert(w, (s.dist[v] + 1) as usize),
        pred: s.pred.insert(w, v),
        heap: s.heap.push(((s.dist[v] + 1) as usize, w)),
        done: s.done,
    }
}

pub proof fn lemma_discovered<I>(
    next: spec_fn(I) -> Seq<I>,
    start: I,
    end: I,
    s: Search<I>,
    v: I,
    k: int,
)
    requires
        tree_ok(next, start, s),
        frontier_ok(s),
        around(s, s.dist[v]),
        settled_ok(next, start, end, s, Some((v, k))),
        s.done.contains(v),
        0 <= k < next(v).len(),
        !s.dist.contains_key(next(v)[k]),
        s.dist.dom().len() <= usize::MAX,
    ensures
        tree_ok(next, start, discovered(s, v, next(v)[k])),
        frontier_ok(discovered(s, v, next(v)[k])),
        around(discovered(s, v, next(v)[k]), s.dist[v]),
        settled_ok(next, start, end, discovered(s, v, next(v)[k]), Some((v, k + 1))),
{
    let w = next(v)[k];
    let c = s.dist[v];
    let t = discovered(s, v, w);
    assert(t.dist.dom() =~= s.dist.dom().insert(w));
    assert forall|x: I| #[trigger] t.pred.contains_key(x) implies {
        &&& t.dist.contains_key(x)
        &&& t.dist.contains_key(t.pred[x])
        &&& t.dist[t.pred[x]] + 1 == t.dist[x]
        &&& next(t.pred[x]).contains(x)
    } by {
        if x != w {
            assert(s.pred.contains_key(x));
        }
    }
    assert forall|x: I| #[trigger] t.dist.contains_key(x) implies (x == start
        || t.pred.contains_key(x)) && t.dist[x] < t.dist.dom().len() && t.dist[x] <= c + 1 by {
        if x != w {
            assert(s.dist.contains_key(x));
        }
    }
    assert forall|i: int| 0 <= i < t.heap.len() implies {
        &&& t.dist.contains_key((#[trigger] t.heap[i]).1)
        &&& t.heap[i].0 == t.dist[t.heap[i].1]
        &&& !t.done.contains(t.heap[i].1)
        &&& c <= t.heap[i].0
    } by {
        if i < s.heap.len() {
            assert(t.heap[i] == s.heap[i]);
        }
    }
    assert forall|i: int, j: int|
        0 <= i < t.heap.len() && 0 <= j < t.heap.len() && i != j implies (#[trigger] t.heap[i]).1
        != (#[trigger] t.heap[j]).1 by {
        if i < s.heap.len() {
            assert(t.heap[i] == s.heap[i]);
        }
        if j < s.heap.len() {
            assert(t.heap[j] == s.heap[j]);
        }
    }
    assert forall|x: I| #[trigger] t.dist.contains_key(x) implies t.done.contains(x) || waiting(
        t,
        x,
    ) by {
        if x == w {
            assert(t.heap[s.heap.len() as int].1 == w);
        } else if !s.done.contains(x) {
            let i = choose|i: int| 0 <= i < s.heap.len() && (#[trigger] s.heap[i]).1 == x;
            assert(t.heap[i] == s.heap[i]);
        }
    }
    assert forall|u: I, j: int|
        t.done.contains(u) && 0 <= j < followed(next, u, Some((v, k + 1))) implies {
        &&& t.dist.contains_key(#[trigger] next(u)[j])
        &&& t.dist[next(u)[j]] <= t.dist[u] + 1
    } by {
        if u != v || j != k {
            assert(s.dist.contains_key(next(u)[j]));
        }
    }
    assert forall|u: I, q: Seq<I>|
        t.done.contains(u) && #[trigger] path_between(next, start, u, q) implies t.dist[u] + 1
        <= q.len() by {
    }
}

/// An edge of `v` that leads to an id met before changes nothing.
pub proof fn lemma_passed<I>(
    next: spec_fn(I) -> Seq<I>,
    start: I,
    end: I,
    s: Search<I>,
    v: I,
    k: int,
)
    requires
        around(s, s.dist[v]),
        settled_ok(next, start, end, s, Some((v, k))),
        0 <= k < next(v).len(),
        s.dist.contains_key(next(v)[k]),
    ensures
        settled_ok(next, start, end, s, Some((v, k + 1))),
{
    assert forall|u: I, j: int|
        s.done.contains(u) && 0 <= j < followed(next, u, Some((v, k + 1))) implies {
        &&& s.dist.contains_key(#[trigger] next(u)[j])
        &&& s.dist[next(u)[j]] <= s.dist[u] + 1
    } by {
        if u != v || j != k {
            assert(0 <= j < followed(next, u, Some((v, k))));
        }
    }
}

/// Once all edges of `v` were followed the search is as between two ids.
pub proof fn lemma_followed_all<I>(
    next: spec_fn(I) -> Seq<I>,
    start: I,
    end: I,
    s: Search<I>,
    v: I,
)
    requires
        around(s, s.dist[v]),
        settled_ok(next, start, end, s, Some((v, next(v).len() as int))),
    ensures
        settled_ok(next, start, end, s, None),
        level_ok(s),
{
    assert forall|u: I, j: int| s.done.contains(u) && 0 <= j < followed(next, u, None) implies {
        &&& s.dist.contains_key(#[trigger] next(u)[j])
        &&& s.dist[next(u)[j]] <= s.dist[u] + 1
    } by {
        assert(0 <= j < followed(next, u, Some((v, next(v).len() as int))));
    }
}

/// The first place of `q` whose id is not in `done`.
proof fn lemma_first_outside<I>(q: Seq<I>, done: Set<I>, n: int) -> (i: int)
    requires
        0 <= n < q.len(),
        !done.contains(q[n]),
    ensures
        0 <= i <= n,
        !done.contains(q[i]),
        forall|j: int| 0 <= j < i ==> done.contains(#[trigger] q[j]),
    decreases n,
{
    if n == 0 {
        0
    } else if forall|j: int| 0 <= j < n ==> done.contains(#[trigger] q[j]) {
        n
    } else {
        let m = choose|m: int| 0 <= m < n && !done.contains(#[trigger] q[m]);
        lemma_first_outside(q, done, m)
    }
}

/// The id that waits with the least distance has its true distance: no path
/// from `start` leads to it over fewer edges.
pub proof fn lemma_cheapest_is_nearest<I>(
    next: spec_fn(I) -> Seq<I>,
    start: I,
    end: I,
    s: Search<I>,
    k: int,
    q: Seq<I>,
)
    requires
        tree_ok(next, start, s),
        frontier_ok(s),
        settled_ok(next, start, end, s, None),
        0 <= k < s.heap.len(),
        forall|i: int| 0 <= i < s.heap.len() ==> s.heap[k].0 <= (#[trigger] s.heap[i]).0,
        path_between(next, start, s.heap[k].1, q),
    ensures
        s.heap[k].0 + 1 <= q.len(),
{
    let i = lemma_first_outside(q, s.done, q.len() - 1);
    if i == 0 {
        let m = choose|m: int| 0 <= m < s.heap.len() && (#[trigger] s.heap[m]).1 == start;
        assert(s.heap[k].0 <= s.heap[m].0);
    } else {
        let u = q[i - 1];
        let w = q[i];
        let prefix = q.take(i);
        assert(path_between(next, start, u, prefix)) by {
            assert forall|j: int| 0 <= j < prefix.len() - 1 implies next(
                #[trigger] prefix[j],
            ).contains(prefix[j + 1]) by {
                assert(next(q[j]).contains(q[j + 1]));
            }
        }
        let succ = next(u);
        let j = choose|j: int| 0 <= j < succ.len() && succ[j] == w;
        assert(s.dist.contains_key(next(u)[j]));
        let m = choose|m: int| 0 <= m < s.heap.len() && (#[trigger] s.heap[m]).1 == w;
        assert(s.heap[k].0 <= s.heap[m].0);
    }
}

/// Once nothing waits and `end` was not met, no path leads from `start` to
/// `end`.
pub proof fn lemma_exhausted<I>(next: spec_fn(I) -> Seq<I>, start: I, end: I, s: Search<I>)
    requires
        tree_ok(next, start, s),
        frontier_ok(s),
        settled_ok(next, start, end, s, None),
        s.heap.len() == 0,
    ensures
        !reachable(next, start, end),
{
    assert forall|v: I| #[trigger] s.dist.contains_key(v) implies s.done.contains(v) by {
        if waiting(s, v) {
            let i = choose|i: int| 0 <= i < s.heap.len() && (#[trigger] s.heap[i]).1 == v;
        }
    }
    assert forall|v: I, w: I| s.done.contains(v) && #[trigger] next(v).contains(
        w,
    ) implies s.done.contains(w) by {
        let succ = next(v);
        let j = choose|j: int| 0 <= j < succ.len() && succ[j] == w;
        assert(s.dist.contains_key(next(v)[j]));
    }
    lemma_closed_holds_reachable(next, start, s.done);
}

} // verus!
