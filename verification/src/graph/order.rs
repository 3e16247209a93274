//! What the library assumes of a node id type, and the order in which the
//! keys of an adjacency map are walked.

use std::cmp::Ordering;
use std::collections::BTreeMap;
use vstd::laws_cmp::obeys_cmp;
use vstd::laws_eq::obeys_concrete_eq;
use vstd::prelude::*;
use vstd::std_specs::cmp::{OrdSpec, PartialEqSpec, PartialOrdSpec};

verus! {

/// The law of a type whose clones equal what they are cloned from.
pub open spec fn clone_laws<T: Clone>() -> bool {
    forall|a: T, b: T| #[trigger] cloned::<T>(a, b) ==> a == b
}

/// The laws a node id type has to obey: its comparison is a total order that
/// agrees with equality, and a clone of an id equals the id.
pub open spec fn id_laws<I: Ord + Clone>() -> bool {
    &&& obeys_cmp::<I>()
    &&& obeys_concrete_eq::<I>()
    &&& clone_laws::<I>()
}

/// The law an id type has to obey where ids are keys of a `HashMap`: its
/// hash and its `==` agree.
pub open spec fn hash_laws<I>() -> bool {
    vstd::std_specs::hash::obeys_key_model::<I>()
}

/// Whether two ids are equal.
pub fn same_id<I: Ord + Clone>(a: &I, b: &I) -> (r: bool)
    requires
        id_laws::<I>(),
    ensures
        r == (*a == *b),
{
    proof {
        reveal(obeys_concrete_eq);
    }
    *a == *b
}

/// `a` comes strictly before `b` in the order of the id type.
pub open spec fn less<I: Ord>(a: I, b: I) -> bool {
    a.cmp_spec(&b) == Ordering::Less
}

/// Each element of `s` comes strictly before the ones after it.
pub open spec fn increasing<I: Ord>(s: Seq<I>) -> bool {
    forall|i: int, j: int| 0 <= i < j < s.len() ==> less(s[i], s[j])
}

/// `s` lists the members of `ids`, each once, in increasing order.
pub open spec fn lists_in_order<I: Ord>(s: Seq<I>, ids: Set<I>) -> bool {
    &&& increasing(s)
    &&& forall|x: I| s.contains(x) <==> ids.contains(x)
}

/// The members of `ids` in increasing order.
pub open spec fn in_order<I: Ord>(ids: Set<I>) -> Seq<I> {
    choose|s: Seq<I>| lists_in_order(s, ids)
}

pub proof fn lemma_less_laws<I: Ord + Clone>()
    requires
        id_laws::<I>(),
    ensures
        forall|a: I| !#[trigger] less(a, a),
        forall|a: I, b: I| #[trigger] less(a, b) ==> !less(b, a),
        forall|a: I, b: I, c: I| #[trigger] less(a, b) && #[trigger] less(b, c) ==> less(a, c),
        forall|a: I, b: I| a != b ==> #[trigger] less(a, b) || less(b, a),
{
    reveal(vstd::laws_cmp::obeys_cmp_partial_ord);
    reveal(vstd::laws_cmp::obeys_cmp_ord);
    reveal(vstd::laws_cmp::obeys_partial_cmp_spec_properties);
    reveal(obeys_concrete_eq);
    assert forall|a: I| !#[trigger] less(a, a) by {
        assert(a.partial_cmp_spec(&a) == Some(a.cmp_spec(&a)));
    }
    assert forall|a: I, b: I| #[trigger] less(a, b) implies !less(b, a) by {
        assert(b.partial_cmp_spec(&a) == Some(b.cmp_spec(&a)));
    }
    assert forall|a: I, b: I, c: I| #[trigger] less(a, b) && #[trigger] less(b, c) implies less(
        a,
        c,
    ) by {
        assert(a.partial_cmp_spec(&c) == Some(a.cmp_spec(&c)));
    }
    assert forall|a: I, b: I| a != b implies #[trigger] less(a, b) || less(b, a) by {
        assert(!a.eq_spec(&b));
    }
}

/// A sequence in increasing order holds no id twice.
pub proof fn lemma_increasing_no_duplicates<I: Ord + Clone>(s: Seq<I>)
    requires
        id_laws::<I>(),
        increasing(s),
    ensures
        s.no_duplicates(),
{
    lemma_less_laws::<I>();
    assert forall|i: int, j: int| 0 <= i < s.len() && 0 <= j < s.len() && i != j implies s[i]
        != s[j] by {
        if i < j {
            assert(less(s[i], s[j]));
        } else {
            assert(less(s[j], s[i]));
        }
    }
}

/// A set of ids has at most one listing in increasing order.
pub proof fn lemma_in_order_unique<I: Ord + Clone>(s1: Seq<I>, s2: Seq<I>, ids: Set<I>)
    requires
        id_laws::<I>(),
        lists_in_order(s1, ids),
        lists_in_order(s2, ids),
    ensures
        s1 == s2,
    decreases s1.len(),
{
    lemma_less_laws::<I>();
    if s1.len() == 0 {
        if s2.len() > 0 {
            assert(s1.contains(s2[0]));
        }
    } else {
        let x = s1[0];
        assert(s1.contains(x));
        assert(s2.contains(x));
        let k = choose|k: int| 0 <= k < s2.len() && s2[k] == x;
        assert(s1.contains(s2[0]));
        let m = choose|m: int| 0 <= m < s1.len() && s1[m] == s2[0];
        if k > 0 {
            if m > 0 {
                assert(less(s1[0], s1[m]));
            }
        }
        let t1 = s1.drop_first();
        let t2 = s2.drop_first();
        let rest = ids.remove(x);
        assert forall|y: I| t1.contains(y) <==> rest.contains(y) by {
            if t1.contains(y) {
                let i = choose|i: int| 0 <= i < t1.len() && t1[i] == y;
                assert(s1[i + 1] == y);
                assert(less(s1[0], s1[i + 1]));
            }
            if rest.contains(y) {
                let i = choose|i: int| 0 <= i < s1.len() && s1[i] == y;
                assert(t1[i - 1] == y);
            }
        }
        assert forall|y: I| t2.contains(y) <==> rest.contains(y) by {
            if t2.contains(y) {
                let i = choose|i: int| 0 <= i < t2.len() && t2[i] == y;
                assert(s2[i + 1] == y);
                assert(less(s2[0], s2[i + 1]));
            }
            if rest.contains(y) {
                let i = choose|i: int| 0 <= i < s2.len() && s2[i] == y;
                assert(t2[i - 1] == y);
            }
        }
        assert(increasing(t1)) by {
            assert forall|i: int, j: int| 0 <= i < j < t1.len() implies less(t1[i], t1[j]) by {
                assert(less(s1[i + 1], s1[j + 1]));
            }
        }
        assert(increasing(t2)) by {
            assert forall|i: int, j: int| 0 <= i < j < t2.len() implies less(t2[i], t2[j]) by {
                assert(less(s2[i + 1], s2[j + 1]));
            }
        }
        lemma_in_order_unique(t1, t2, rest);
        assert(s2 =~= seq![x] + t2);
    }
}

/// Any listing of `ids` in increasing order is `in_order(ids)`.
pub proof fn lemma_in_order_is<I: Ord + Clone>(s: Seq<I>, ids: Set<I>)
    requires
        id_laws::<I>(),
        lists_in_order(s, ids),
    ensures
        in_order(ids) == s,
{
    lemma_in_order_unique(in_order(ids), s, ids);
}

/// `s` with `x` put where the order wants it.
pub open spec fn put_in_order<I: Ord>(s: Seq<I>, x: I) -> Seq<I>
    decreases s.len(),
{
    if s.len() == 0 {
        seq![x]
    } else if less(x, s[0]) {
        seq![x] + s
    } else {
        seq![s[0]] + put_in_order(s.drop_first(), x)
    }
}

proof fn lemma_put_in_order<I: Ord + Clone>(s: Seq<I>, x: I)
    requires
        id_laws::<I>(),
        increasing(s),
        !s.contains(x),
    ensures
        increasing(put_in_order(s, x)),
        forall|y: I| put_in_order(s, x).contains(y) <==> y == x || s.contains(y),
    decreases s.len(),
{
    lemma_less_laws::<I>();
    let r = put_in_order(s, x);
    if s.len() == 0 {
        assert forall|y: I| r.contains(y) <==> y == x || s.contains(y) by {
            if r.contains(y) {
                let i = choose|i: int| 0 <= i < r.len() && r[i] == y;
            }
            if y == x {
                assert(r[0] == y);
            }
        }
    } else if less(x, s[0]) {
        assert forall|i: int, j: int| 0 <= i < j < r.len() implies less(r[i], r[j]) by {
            if i == 0 {
                if j - 1 > 0 {
                    assert(less(s[0], s[j - 1]));
                }
            } else {
                assert(less(s[i - 1], s[j - 1]));
            }
        }
        assert forall|y: I| r.contains(y) <==> y == x || s.contains(y) by {
            if r.contains(y) {
                let i = choose|i: int| 0 <= i < r.len() && r[i] == y;
                if i > 0 {
                    assert(s[i - 1] == y);
                }
            }
            if y == x {
                assert(r[0] == y);
            }
            if s.contains(y) {
                let i = choose|i: int| 0 <= i < s.len() && s[i] == y;
                assert(r[i + 1] == y);
            }
        }
    } else {
        let t = s.drop_first();
        let u = put_in_order(t, x);
        assert(increasing(t)) by {
            assert forall|i: int, j: int| 0 <= i < j < t.len() implies less(t[i], t[j]) by {
                assert(less(s[i + 1], s[j + 1]));
            }
        }
        assert(!t.contains(x)) by {
            if t.contains(x) {
                let i = choose|i: int| 0 <= i < t.len() && t[i] == x;
                assert(s[i + 1] == x);
            }
        }
        lemma_put_in_order(t, x);
        assert forall|i: int, j: int| 0 <= i < j < r.len() implies less(r[i], r[j]) by {
            if i == 0 {
                if u[j - 1] != x {
                    assert(t.contains(u[j - 1]));
                    let k = choose|k: int| 0 <= k < t.len() && t[k] == u[j - 1];
                    assert(less(s[0], s[k + 1]));
                }
            } else {
                assert(less(u[i - 1], u[j - 1]));
            }
        }
        assert forall|y: I| r.contains(y) <==> y == x || s.contains(y) by {
            if r.contains(y) {
                let i = choose|i: int| 0 <= i < r.len() && r[i] == y;
                if i > 0 {
                    assert(u[i - 1] == y);
                    if y != x {
                        assert(t.contains(y));
                        let k = choose|k: int| 0 <= k < t.len() && t[k] == y;
                        assert(s[k + 1] == y);
                    }
                }
            }
            if y == x {
                let i = choose|i: int| 0 <= i < u.len() && u[i] == x;
                assert(r[i + 1] == y);
            }
            if s.contains(y) {
                let i = choose|i: int| 0 <= i < s.len() && s[i] == y;
                if i == 0 {
                    assert(r[0] == y);
                } else {
                    assert(t[i - 1] == y);
                    assert(u.contains(y) <==> y == x || t.contains(y));
                    let k = choose|k: int| 0 <= k < u.len() && u[k] == y;
                    assert(r[k + 1] == y);
                }
            }
        }
    }
}

/// A finite set of ids has a listing in increasing order, and `in_order` is it.
pub proof fn lemma_in_order_lists<I: Ord + Clone>(ids: Set<I>)
    requires
        id_laws::<I>(),
        ids.finite(),
    ensures
        lists_in_order(in_order(ids), ids),
    decreases ids.len(),
{
    if ids.len() == 0 {
        let s = Seq::<I>::empty();
        assert forall|x: I| s.contains(x) <==> ids.contains(x) by {
            if s.contains(x) {
                let i = choose|i: int| 0 <= i < s.len() && s[i] == x;
            }
            if ids.contains(x) {
                assert(ids.len() != 0);
            }
        }
        assert(lists_in_order(s, ids));
    } else {
        let x = ids.choose();
        let rest = ids.remove(x);
        lemma_in_order_lists(rest);
        let s = in_order(rest);
        assert(!s.contains(x));
        lemma_put_in_order(s, x);
        let r = put_in_order(s, x);
        assert forall|y: I| r.contains(y) <==> ids.contains(y) by {
            assert(s.contains(y) <==> rest.contains(y));
        }
        assert(lists_in_order(r, ids));
    }
}

/// Keys that a `BTreeMap` hands out in its own increasing order are in
/// increasing order here too.
pub proof fn lemma_increasing_keys<I: Ord + Clone>(s: Seq<&I>)
    requires
        id_laws::<I>(),
        vstd::std_specs::btree::increasing_seq(s),
    ensures
        increasing(s.unref()),
{
    vstd::std_specs::btree::axiom_increasing_seq_meaning::<&I>(s);
    assert forall|i: int, j: int| 0 <= i < j < s.unref().len() implies less(
        s.unref()[i],
        s.unref()[j],
    ) by {
        assert(OrdSpec::cmp_spec(&s[i], &s[j]) is Less);
    }
}

} // verus!
