//! Ordering the named types so that each comes before the types whose size depends on it,
//! and finding those that no such order can place.
use vstd::prelude::*;

use crate::common::maps::IdMap;
use crate::error::InternalError;
use crate::symtable::{SymInfo, SymKind, TypeInfo, TypeKind};
use crate::tp::model::{all_uvars, in_deps, in_range, pred_below, pred_none, pred_unres, Ty};
use crate::tp::tvar::TVar;
use crate::tp::uvar::UVarStore;
use crate::tp::Type;

verus! {

/// Every node of the graph lists each of its dependencies once.
pub open spec fn spec_graph_wf(g: IdMap<Vec<usize>>) -> bool {
    &&& g.keys_unique()
    &&& forall|k: usize| #[trigger] g.has(k) ==> g.value(k)@.no_duplicates()
}

/// `v` is a key of `g` that depends on `w`.
pub open spec fn spec_edge(g: IdMap<Vec<usize>>, v: usize, w: usize) -> bool {
    g.has(v) && g.value(v)@.contains(w)
}

/// A node of `g`: a key, or something a key depends on.
pub open spec fn spec_node(g: IdMap<Vec<usize>>, k: usize) -> bool {
    g.has(k) || exists|v: usize| #[trigger] spec_edge(g, v, k)
}

/// The entry at position `j` of `g` is `v`'s, and `v` depends on `w`.
pub open spec fn spec_edge_at(g: IdMap<Vec<usize>>, j: int, v: usize, w: usize) -> bool {
    0 <= j < g.entries@.len() && g.entries@[j].0 == v && g.entries@[j].1@.contains(w)
}

/// The edges of a graph are those of its entries.
pub proof fn lemma_edge_at(g: IdMap<Vec<usize>>, v: usize, w: usize)
    requires
        g.keys_unique(),
    ensures
        spec_edge(g, v, w) <==> exists|j: int| #[trigger] spec_edge_at(g, j, v, w),
{
    if spec_edge(g, v, w) {
        let j = choose|j: int| 0 <= j < g.entries@.len() && #[trigger] g.entries@[j].0 == v;
        g.lemma_value(j);
        assert(spec_edge_at(g, j, v, w));
    }
    if exists|j: int| #[trigger] spec_edge_at(g, j, v, w) {
        let j = choose|j: int| #[trigger] spec_edge_at(g, j, v, w);
        g.lemma_value(j);
    }
}

/// A copy of a list of ids.
fn copy_ids(v: &Vec<usize>) -> (res: Vec<usize>)
    ensures
        res@ == v@,
{
    let mut res: Vec<usize> = Vec::new();
    let n = v.len();
    let mut i: usize = 0;
    while i < n
        invariant
            n == v@.len(),
            i <= n,
            res@ == v@.subrange(0, i as int),
        decreases n - i,
    {
        res.push(v[i]);
        i = i + 1;
        assert(res@ =~= v@.subrange(0, i as int));
    }
    assert(v@.subrange(0, n as int) =~= v@);
    res
}

/// The edge from `v` to `k` is among the first `i` entries of `g`, or among the first `t`
/// dependencies of entry `i`.
pub open spec fn spec_edge_before(g: IdMap<Vec<usize>>, i: int, t: int, v: usize, k: usize) -> bool {
    ||| exists|j: int| 0 <= j < i && #[trigger] spec_edge_at(g, j, v, k)
    ||| (0 <= i < g.entries@.len() && g.entries@[i].0 == v && g.entries@[i].1@.subrange(0, t).contains(k))
}

/// The reversed graph: each node of `graph`, with the keys that depend on it.
pub fn reverse_graph(graph: &IdMap<Vec<usize>>) -> (res: IdMap<Vec<usize>>)
    requires
        spec_graph_wf(*graph),
    ensures
        spec_graph_wf(res),
        forall|k: usize| #[trigger] res.has(k) <==> spec_node(*graph, k),
        forall|k: usize, v: usize| res.has(k) ==> (#[trigger] res.value(k)@.contains(v) <==> spec_edge(*graph, v, k)),
{
    let ghost g = *graph;
    let mut rev: IdMap<Vec<usize>> = IdMap::new();
    let n = graph.entries.len();
    let mut i: usize = 0;
    while i < n
        invariant
            n == g.entries@.len(),
            i <= n,
            g == *graph,
            rev.keys_unique(),
            forall|k: usize| #[trigger] rev.has(k) <==> exists|j: int| 0 <= j < i && g.entries@[j].0 == k,
            forall|k: usize| #[trigger] rev.has(k) ==> rev.value(k)@.len() == 0,
        decreases n - i,
    {
        let _ = rev.insert(graph.entries[i].0, Vec::new());
        proof {
            assert forall|k: usize| #[trigger] rev.has(k) <==> exists|j: int| 0 <= j < i + 1 && g.entries@[j].0 == k by {
                if k == g.entries@[i as int].0 {
                    assert(0 <= i < i + 1 && g.entries@[i as int].0 == k);
                }
            }
        }
        i = i + 1;
    }
    proof {
        assert forall|k: usize| #[trigger] rev.has(k) <==> g.has(k) by {
            if g.has(k) {
                let j = choose|j: int| 0 <= j < g.entries@.len() && #[trigger] g.entries@[j].0 == k;
                assert(0 <= j < n && g.entries@[j].0 == k);
            }
        }
    }
    let mut i: usize = 0;
    while i < n
        invariant
            n == g.entries@.len(),
            i <= n,
            g == *graph,
            spec_graph_wf(g),
            spec_graph_wf(rev),
            forall|k: usize| #[trigger] rev.has(k) <==> g.has(k) || exists|v: usize| #[trigger] spec_edge_before(g, i as int, 0, v, k),
            forall|k: usize, v: usize| rev.has(k) ==> (#[trigger] rev.value(k)@.contains(v) <==> spec_edge_before(g, i as int, 0, v, k)),
        decreases n - i,
    {
        let from = graph.entries[i].0;
        let tos = &graph.entries[i].1;
        proof {
            g.lemma_value(i as int);
        }
        let m = tos.len();
        let mut t: usize = 0;
        while t < m
            invariant
                n == g.entries@.len(),
                i < n,
                t <= m,
                m == tos@.len(),
                g == *graph,
                from == g.entries@[i as int].0,
                *tos == g.entries@[i as int].1,
                tos@.no_duplicates(),
                spec_graph_wf(g),
                spec_graph_wf(rev),
                forall|k: usize| #[trigger] rev.has(k) <==> g.has(k) || exists|v: usize| #[trigger] spec_edge_before(g, i as int, t as int, v, k),
                forall|k: usize, v: usize| rev.has(k) ==> (#[trigger] rev.value(k)@.contains(v) <==> spec_edge_before(g, i as int, t as int, v, k)),
            decreases m - t,
        {
            let to = tos[t];
            let ghost old_rev = rev;
            let mut lst: Vec<usize> = match rev.get(to) {
                Some(l) => copy_ids(l),
                None => Vec::new(),
            };
            proof {
                // `from` is not yet listed for `to`: the earlier entries have other keys, and
                // the dependencies of this one are listed once.
                if old_rev.has(to) && lst@.contains(from) {
                    assert(spec_edge_before(g, i as int, t as int, from, to));
                    if exists|j: int| 0 <= j < i && #[trigger] spec_edge_at(g, j, from, to) {
                        let j = choose|j: int| 0 <= j < i && #[trigger] spec_edge_at(g, j, from, to);
                        assert(g.entries@[j].0 != g.entries@[i as int].0);
                    } else {
                        let s0 = tos@.subrange(0, t as int);
                        let p = choose|p: int| 0 <= p < s0.len() && #[trigger] s0[p] == to;
                        assert(tos@[p] == tos@[t as int]);
                    }
                }
            }
            let ghost lst0 = lst@;
            lst.push(from);
            let _ = rev.insert(to, lst);
            proof {
                let s0 = tos@.subrange(0, t as int);
                let s1 = tos@.subrange(0, t + 1);
                assert(s1 =~= s0.push(to));
                assert forall|k: usize, v: usize|
                    spec_edge_before(g, i as int, t + 1, v, k) <==> spec_edge_before(g, i as int, t as int, v, k) || (v == from
                        && k == to) by {
                    if v == from && k == to {
                        assert(s1[t as int] == to);
                    }
                    if spec_edge_before(g, i as int, t as int, v, k) && !(exists|j: int| 0 <= j < i && #[trigger] spec_edge_at(g, j, v, k)) {
                        assert(s0.contains(k));
                        let p = choose|p: int| 0 <= p < s0.len() && #[trigger] s0[p] == k;
                        assert(s1[p] == k);
                    }
                    if spec_edge_before(g, i as int, t + 1, v, k) && !(exists|j: int| 0 <= j < i && #[trigger] spec_edge_at(g, j, v, k)) {
                        assert(s1.contains(k));
                        let p = choose|p: int| 0 <= p < s1.len() && #[trigger] s1[p] == k;
                        if p < t {
                            assert(s0[p] == k);
                        }
                    }
                }
                assert forall|k: usize| #[trigger] rev.has(k) <==> g.has(k) || exists|v: usize| #[trigger] spec_edge_before(g, i as int, t + 1, v, k) by {
                    if k == to {
                        assert(s1[t as int] == to);
                        assert(spec_edge_before(g, i as int, t + 1, from, to));
                    } else if exists|v: usize| #[trigger] spec_edge_before(g, i as int, t + 1, v, k) {
                        let v = choose|v: usize| #[trigger] spec_edge_before(g, i as int, t + 1, v, k);
                        assert(spec_edge_before(g, i as int, t as int, v, k));
                    } else if exists|v: usize| #[trigger] spec_edge_before(g, i as int, t as int, v, k) {
                        let v = choose|v: usize| #[trigger] spec_edge_before(g, i as int, t as int, v, k);
                        assert(spec_edge_before(g, i as int, t + 1, v, k));
                    }
                }
                assert forall|k: usize, v: usize| rev.has(k) implies (#[trigger] rev.value(k)@.contains(v)
                    <==> spec_edge_before(g, i as int, t + 1, v, k)) by {
                    if k == to {
                        assert(rev.value(k)@ == lst0.push(from));
                        if old_rev.has(to) {
                            assert(lst0 == old_rev.value(to)@);
                            assert(lst0.contains(v) <==> spec_edge_before(g, i as int, t as int, v, to));
                        } else {
                            assert(lst0.len() == 0);
                            assert(!spec_edge_before(g, i as int, t as int, v, to));
                        }
                        if lst0.push(from).contains(v) && v != from {
                            let p = choose|p: int| 0 <= p < lst0.push(from).len() && #[trigger] lst0.push(from)[p] == v;
                            assert(lst0[p] == v);
                        }
                        if lst0.contains(v) {
                            let p = choose|p: int| 0 <= p < lst0.len() && #[trigger] lst0[p] == v;
                            assert(lst0.push(from)[p] == v);
                        }
                        if v == from {
                            assert(lst0.push(from)[lst0.len() as int] == from);
                        }
                        assert(spec_edge_before(g, i as int, t + 1, v, k) <==> spec_edge_before(g, i as int, t as int, v, k) || (v == from
                            && k == to));
                    } else {
                        assert(old_rev.has(k));
                    }
                }
                assert forall|k: usize| #[trigger] rev.has(k) implies rev.value(k)@.no_duplicates() by {
                    if k != to {
                        assert(old_rev.has(k));
                    }
                }
            }
            t = t + 1;
        }
        proof {
            assert(tos@.subrange(0, m as int) =~= tos@);
            assert forall|k: usize, v: usize|
                spec_edge_before(g, i + 1, 0, v, k) <==> spec_edge_before(g, i as int, m as int, v, k) by {
                if spec_edge_before(g, i as int, m as int, v, k) && !(exists|j: int| 0 <= j < i && #[trigger] spec_edge_at(g, j, v, k)) {
                    assert(spec_edge_at(g, i as int, v, k));
                }
                if exists|j: int| 0 <= j < i + 1 && #[trigger] spec_edge_at(g, j, v, k) {
                    let j = choose|j: int| 0 <= j < i + 1 && #[trigger] spec_edge_at(g, j, v, k);
                    if j == i {
                        assert(tos@.subrange(0, m as int).contains(k));
                    }
                }
            }
            assert forall|k: usize| #[trigger] rev.has(k) <==> g.has(k) || exists|v: usize| #[trigger] spec_edge_before(g, i + 1, 0, v, k) by {
                if exists|v: usize| #[trigger] spec_edge_before(g, i + 1, 0, v, k) {
                    let v = choose|v: usize| #[trigger] spec_edge_before(g, i + 1, 0, v, k);
                    assert(spec_edge_before(g, i as int, m as int, v, k));
                }
                if exists|v: usize| #[trigger] spec_edge_before(g, i as int, m as int, v, k) {
                    let v = choose|v: usize| #[trigger] spec_edge_before(g, i as int, m as int, v, k);
                    assert(spec_edge_before(g, i + 1, 0, v, k));
                }
            }
        }
        i = i + 1;
    }
    proof {
        assert forall|k: usize, v: usize| spec_edge_before(g, n as int, 0, v, k) <==> spec_edge(g, v, k) by {
            lemma_edge_at(g, v, k);
        }
        assert forall|k: usize| #[trigger] rev.has(k) <==> spec_node(g, k) by {
            if exists|v: usize| #[trigger] spec_edge_before(g, n as int, 0, v, k) {
                let v = choose|v: usize| #[trigger] spec_edge_before(g, n as int, 0, v, k);
                assert(spec_edge(g, v, k));
            }
            if exists|v: usize| #[trigger] spec_edge(g, v, k) {
                let v = choose|v: usize| #[trigger] spec_edge(g, v, k);
                assert(spec_edge_before(g, n as int, 0, v, k));
            }
        }
    }
    rev
}


/// How many of `s` are not in `done`.
pub open spec fn count_out(s: Seq<usize>, done: Seq<usize>) -> nat
    decreases s.len(),
{
    if s.len() == 0 {
        0
    } else {
        count_out(s.drop_last(), done) + (if done.contains(s.last()) { 0nat } else { 1nat })
    }
}

proof fn lemma_count_out_none_done(s: Seq<usize>)
    ensures
        count_out(s, Seq::empty()) == s.len(),
    decreases s.len(),
{
    if s.len() > 0 {
        lemma_count_out_none_done(s.drop_last());
    }
}

/// None of `s` is out of `done` exactly when all of it is in.
proof fn lemma_count_out_zero(s: Seq<usize>, done: Seq<usize>)
    ensures
        count_out(s, done) == 0 <==> forall|x: usize| s.contains(x) ==> done.contains(x),
    decreases s.len(),
{
    if s.len() > 0 {
        let p = s.drop_last();
        lemma_count_out_zero(p, done);
        if count_out(s, done) == 0 {
            assert forall|x: usize| s.contains(x) implies done.contains(x) by {
                let k = choose|k: int| 0 <= k < s.len() && s[k] == x;
                if k < s.len() - 1 {
                    assert(p[k] == x);
                }
            }
        }
        if forall|x: usize| s.contains(x) ==> done.contains(x) {
            assert(s[s.len() - 1] == s.last());
            assert forall|x: usize| p.contains(x) implies done.contains(x) by {
                let k = choose|k: int| 0 <= k < p.len() && p[k] == x;
                assert(s[k] == x);
            }
        }
    }
}

/// Marking `u` done takes one off the count of a list that holds it once.
proof fn lemma_count_out_push(s: Seq<usize>, done: Seq<usize>, u: usize)
    requires
        s.no_duplicates(),
        !done.contains(u),
    ensures
        count_out(s, done.push(u)) + (if s.contains(u) { 1nat } else { 0nat }) == count_out(s, done),
    decreases s.len(),
{
    if s.len() > 0 {
        let p = s.drop_last();
        let x = s.last();
        assert(p.no_duplicates()) by {
            assert forall|a: int, b: int| 0 <= a < b < p.len() implies p[a] != p[b] by {
                assert(s[a] == p[a] && s[b] == p[b]);
            }
        }
        lemma_count_out_push(p, done, u);
        assert(done.push(u).contains(x) <==> done.contains(x) || x == u) by {
            if done.push(u).contains(x) {
                let k = choose|k: int| 0 <= k < done.push(u).len() && done.push(u)[k] == x;
                if k < done.len() {
                    assert(done[k] == x);
                }
            }
            if done.contains(x) {
                let k = choose|k: int| 0 <= k < done.len() && done[k] == x;
                assert(done.push(u)[k] == x);
            }
            assert(done.push(u)[done.len() as int] == u);
        }
        assert(s.contains(u) <==> p.contains(u) || x == u) by {
            if s.contains(u) {
                let k = choose|k: int| 0 <= k < s.len() && s[k] == u;
                if k < s.len() - 1 {
                    assert(p[k] == u);
                }
            }
            if p.contains(u) {
                let k = choose|k: int| 0 <= k < p.len() && p[k] == u;
                assert(s[k] == u);
            }
            assert(s[s.len() - 1] == x);
        }
        if x == u && p.contains(u) {
            let k = choose|k: int| 0 <= k < p.len() && p[k] == u;
            assert(s[k] == s[s.len() - 1]);
        }
    }
}

/// A list without repeats, all of whose members are in `keys`, is no longer than `keys`.
pub proof fn lemma_unique_within(s: Seq<usize>, keys: Seq<usize>)
    requires
        s.no_duplicates(),
        forall|x: usize| s.contains(x) ==> keys.contains(x),
    ensures
        s.len() <= keys.len(),
{
    broadcast use vstd::seq_lib::seq_to_set_is_finite;
    s.unique_seq_to_set();
    keys.lemma_cardinality_of_set();
    assert(s.to_set().subset_of(keys.to_set()));
    vstd::set_lib::lemma_len_subset(s.to_set(), keys.to_set());
}

/// The ids of the entries of a map, in order.
pub open spec fn spec_keys<V>(m: IdMap<V>) -> Seq<usize> {
    Seq::new(m.entries@.len(), |i: int| m.entries@[i].0)
}

/// `order` and `left` split the nodes of `g`: in `order` every node comes before each key
/// that depends on it, and each node in `left` has a key in `left` that depends on it.
pub open spec fn spec_topo_sorted(g: IdMap<Vec<usize>>, order: Seq<usize>, left: Seq<usize>) -> bool {
    &&& order.no_duplicates()
    &&& left.no_duplicates()
    &&& forall|k: usize|
        #![trigger spec_node(g, k)]
        #![trigger order.contains(k)]
        #![trigger left.contains(k)]
        spec_node(g, k) <==> (order.contains(k) || left.contains(k))
    &&& forall|k: usize| !(#[trigger] order.contains(k) && left.contains(k))
    &&& forall|i: int, v: usize|
        0 <= i < order.len() && #[trigger] spec_edge(g, v, order[i]) ==> exists|j: int| i < j < order.len() && order[j] == v
    &&& forall|v: usize| #[trigger] left.contains(v) ==> exists|w: usize| left.contains(w) && spec_edge(g, w, v)
}

/// `c` is a cycle of `g`: each of its nodes depends on the next, and the last on the first.
pub open spec fn spec_cycle(g: IdMap<Vec<usize>>, c: Seq<usize>) -> bool {
    &&& c.len() > 0
    &&& forall|k: int| 0 <= k < c.len() - 1 ==> spec_edge(g, #[trigger] c[k], c[k + 1])
    &&& spec_edge(g, c[c.len() - 1], c[0])
}

/// The position of `x` in `s`.
pub open spec fn spec_pos(s: Seq<usize>, x: usize) -> int {
    choose|i: int| 0 <= i < s.len() && s[i] == x
}

/// In a sorted order, a key that depends on an ordered node is ordered after it.
proof fn lemma_dependent_later(g: IdMap<Vec<usize>>, order: Seq<usize>, left: Seq<usize>, v: usize, w: usize)
    requires
        spec_topo_sorted(g, order, left),
        spec_edge(g, v, w),
        order.contains(w),
    ensures
        order.contains(v),
        0 <= spec_pos(order, w) < spec_pos(order, v) < order.len(),
        order[spec_pos(order, v)] == v,
        order[spec_pos(order, w)] == w,
{
    let i = spec_pos(order, w);
    assert(0 <= i < order.len() && order[i] == w);
    assert(spec_edge(g, v, order[i]));
    let j = choose|j: int| i < j < order.len() && order[j] == v;
    assert(order.contains(v));
    let k = spec_pos(order, v);
    assert(order[k] == v);
    if k != j {
        assert(order[k] == order[j]);
    }
}

/// If a node of a cycle is ordered, so is the first.
proof fn lemma_ordered_down(g: IdMap<Vec<usize>>, order: Seq<usize>, left: Seq<usize>, c: Seq<usize>, k: int)
    requires
        spec_topo_sorted(g, order, left),
        spec_cycle(g, c),
        0 <= k < c.len(),
        order.contains(c[k]),
    ensures
        order.contains(c[0]),
    decreases k,
{
    if k > 0 {
        assert(spec_edge(g, c[k - 1], c[k]));
        lemma_dependent_later(g, order, left, c[k - 1], c[k]);
        lemma_ordered_down(g, order, left, c, k - 1);
    }
}

/// If the last node of a cycle is ordered, every other one is ordered after it.
proof fn lemma_after_last(g: IdMap<Vec<usize>>, order: Seq<usize>, left: Seq<usize>, c: Seq<usize>, j: int)
    requires
        spec_topo_sorted(g, order, left),
        spec_cycle(g, c),
        0 <= j < c.len() - 1,
        order.contains(c[c.len() - 1]),
    ensures
        order.contains(c[j]),
        spec_pos(order, c[j]) > spec_pos(order, c[c.len() - 1]),
    decreases c.len() - 1 - j,
{
    assert(spec_edge(g, c[j], c[j + 1]));
    if j == c.len() - 2 {
        lemma_dependent_later(g, order, left, c[j], c[j + 1]);
    } else {
        lemma_after_last(g, order, left, c, j + 1);
        lemma_dependent_later(g, order, left, c[j], c[j + 1]);
    }
}

/// A node that depends on itself, directly or through other nodes, is never ordered: the
/// sort leaves every node of a cycle apart.
pub proof fn lemma_cycle_left(g: IdMap<Vec<usize>>, order: Seq<usize>, left: Seq<usize>, c: Seq<usize>)
    requires
        spec_topo_sorted(g, order, left),
        spec_cycle(g, c),
    ensures
        forall|k: int| 0 <= k < c.len() ==> left.contains(#[trigger] c[k]),
{
    let n = c.len() as int;
    assert forall|k: int| 0 <= k < n implies spec_node(g, #[trigger] c[k]) by {
        if k < n - 1 {
            assert(spec_edge(g, c[k], c[k + 1]));
        }
    }
    if exists|k: int| 0 <= k < n && !left.contains(#[trigger] c[k]) {
        let k0 = choose|k: int| 0 <= k < n && !left.contains(#[trigger] c[k]);
        assert(spec_node(g, c[k0]));
        assert(order.contains(c[k0]));
        lemma_ordered_down(g, order, left, c, k0);
        lemma_dependent_later(g, order, left, c[n - 1], c[0]);
        if n > 1 {
            lemma_after_last(g, order, left, c, 0);
        }
        assert(false);
    }
}

/// Orders the nodes of the graph so that every node comes before the keys that depend on
/// it; the nodes that no such order can place (those on a cycle, and those a cycle depends
/// on) are handed back apart.
pub fn topo_sort(dep_tree: IdMap<Vec<usize>>) -> (res: (Vec<usize>, Vec<usize>))
    requires
        spec_graph_wf(dep_tree),
    ensures
        spec_topo_sorted(dep_tree, res.0@, res.1@),
{
    let ghost g = dep_tree;
    let rev = reverse_graph(&dep_tree);
    // the number of keys that depend on each node
    let mut indeg: IdMap<usize> = IdMap::new();
    let r = rev.entries.len();
    let mut i: usize = 0;
    while i < r
        invariant
            r == rev.entries@.len(),
            i <= r,
            spec_graph_wf(rev),
            indeg.keys_unique(),
            forall|k: usize| #[trigger] indeg.has(k) <==> exists|j: int| 0 <= j < i && rev.entries@[j].0 == k,
            forall|k: usize| #[trigger] indeg.has(k) ==> rev.has(k) && indeg.value(k) == rev.value(k)@.len(),
        decreases r - i,
    {
        proof {
            rev.lemma_value(i as int);
        }
        let _ = indeg.insert(rev.entries[i].0, rev.entries[i].1.len());
        proof {
            assert forall|k: usize| #[trigger] indeg.has(k) <==> exists|j: int| 0 <= j < i + 1 && rev.entries@[j].0 == k by {
                if k == rev.entries@[i as int].0 {
                    assert(0 <= i < i + 1 && rev.entries@[i as int].0 == k);
                }
            }
        }
        i = i + 1;
    }
    proof {
        assert forall|k: usize| #[trigger] indeg.has(k) <==> rev.has(k) by {
            if rev.has(k) {
                let j = choose|j: int| 0 <= j < rev.entries@.len() && #[trigger] rev.entries@[j].0 == k;
                assert(0 <= j < r && rev.entries@[j].0 == k);
            }
        }
    }
    // the nodes no key depends on
    let mut q: Vec<usize> = Vec::new();
    let n = dep_tree.entries.len();
    let mut j: usize = 0;
    while j < n
        invariant
            n == g.entries@.len(),
            j <= n,
            g == dep_tree,
            spec_graph_wf(g),
            spec_graph_wf(rev),
            forall|k: usize| #[trigger] rev.has(k) <==> spec_node(g, k),
            forall|k: usize, v: usize| rev.has(k) ==> (#[trigger] rev.value(k)@.contains(v) <==> spec_edge(g, v, k)),
            indeg.keys_unique(),
            forall|k: usize| #[trigger] indeg.has(k) <==> rev.has(k),
            forall|k: usize| #[trigger] indeg.has(k) ==> indeg.value(k) == rev.value(k)@.len(),
            q@.no_duplicates(),
            forall|x: usize| #[trigger] q@.contains(x) ==> exists|j2: int| 0 <= j2 < j && g.entries@[j2].0 == x,
            forall|x: usize| #[trigger] q@.contains(x) ==> rev.has(x) && indeg.value(x) == 0,
            forall|j2: int| 0 <= j2 < j && #[trigger] indeg.value(g.entries@[j2].0) == 0 ==> q@.contains(g.entries@[j2].0),
        decreases n - j,
    {
        let k = dep_tree.entries[j].0;
        proof {
            g.lemma_value(j as int);
            assert(spec_node(g, k));
        }
        let d = *indeg.get(k).unwrap();
        if d == 0 {
            proof {
                if q@.contains(k) {
                    let j2 = choose|j2: int| 0 <= j2 < j && g.entries@[j2].0 == k;
                    assert(g.entries@[j2].0 != g.entries@[j as int].0);
                }
            }
            let ghost old_q = q@;
            q.push(k);
            proof {
                assert forall|x: usize| #[trigger] q@.contains(x) implies x == k || old_q.contains(x) by {
                    let a = choose|a: int| 0 <= a < q@.len() && q@[a] == x;
                    if a < old_q.len() {
                        assert(old_q[a] == x);
                    }
                }
                assert forall|x: usize| #[trigger] q@.contains(x) implies exists|j2: int| 0 <= j2 < j + 1 && g.entries@[j2].0 == x by {
                    if x != k {
                        assert(old_q.contains(x));
                        let j2 = choose|j2: int| 0 <= j2 < j && g.entries@[j2].0 == x;
                        assert(0 <= j2 < j + 1 && g.entries@[j2].0 == x);
                    } else {
                        assert(0 <= j < j + 1 && g.entries@[j as int].0 == x);
                    }
                }
                assert forall|x: usize| #[trigger] q@.contains(x) implies rev.has(x) && indeg.value(x) == 0 by {
                    if x != k {
                        assert(old_q.contains(x));
                    }
                }
                assert forall|j2: int| 0 <= j2 < j + 1 && #[trigger] indeg.value(g.entries@[j2].0) == 0 implies q@.contains(
                    g.entries@[j2].0,
                ) by {
                    if j2 < j {
                        assert(old_q.contains(g.entries@[j2].0));
                        let a = choose|a: int| 0 <= a < old_q.len() && old_q[a] == g.entries@[j2].0;
                        assert(q@[a] == g.entries@[j2].0);
                    } else {
                        assert(q@[q@.len() - 1] == k);
                    }
                }
            }
        }
        j = j + 1;
    }
    proof {
        assert forall|k: usize| #[trigger] rev.has(k) implies (q@.contains(k) <==> indeg.value(k) == 0) by {
            assert(indeg.has(k));
            if g.has(k) {
                let j2 = choose|j2: int| 0 <= j2 < g.entries@.len() && #[trigger] g.entries@[j2].0 == k;
                assert(indeg.value(g.entries@[j2].0) == 0 ==> q@.contains(g.entries@[j2].0));
            } else {
                let v = choose|v: usize| #[trigger] spec_edge(g, v, k);
                assert(rev.value(k)@.contains(v));
            }
        }
        assert forall|k: usize| #[trigger] rev.has(k) implies indeg.value(k) == count_out(rev.value(k)@, q@.subrange(0, 0)) by {
            assert(indeg.has(k));
            assert(q@.subrange(0, 0) =~= Seq::<usize>::empty());
            lemma_count_out_none_done(rev.value(k)@);
        }
        assert forall|x: usize| q@.contains(x) implies spec_keys(rev).contains(x) by {
            let a = choose|a: int| 0 <= a < rev.entries@.len() && #[trigger] rev.entries@[a].0 == x;
            assert(spec_keys(rev)[a] == x);
        }
        lemma_unique_within(q@, spec_keys(rev));
    }
    // take the nodes one by one, each once every key that depends on it was taken
    let empty: Vec<usize> = Vec::new();
    let mut head: usize = 0;
    while head < q.len()
        invariant
            g == dep_tree,
            r == rev.entries@.len(),
            spec_graph_wf(g),
            spec_graph_wf(rev),
            forall|k: usize| #[trigger] rev.has(k) <==> spec_node(g, k),
            forall|k: usize, v: usize| rev.has(k) ==> (#[trigger] rev.value(k)@.contains(v) <==> spec_edge(g, v, k)),
            empty@.len() == 0,
            indeg.keys_unique(),
            forall|k: usize| #[trigger] indeg.has(k) <==> rev.has(k),
            forall|k: usize| #[trigger] rev.has(k) ==> indeg.value(k) == count_out(rev.value(k)@, q@.subrange(0, head as int)),
            forall|k: usize| #[trigger] rev.has(k) ==> (q@.contains(k) <==> indeg.value(k) == 0),
            forall|x: usize| #[trigger] q@.contains(x) ==> rev.has(x),
            q@.no_duplicates(),
            head <= q@.len() <= r,
            forall|a: int, v: usize|
                0 <= a < head && #[trigger] spec_edge(g, v, q@[a]) ==> exists|b: int| 0 <= b < a && q@[b] == v,
        decreases r - head,
    {
        let u = q[head];
        let ghost p0 = q@.subrange(0, head as int);
        proof {
            assert(q@[head as int] == u);
            assert(q@.contains(u));
            assert(rev.has(u));
            assert(indeg.value(u) == 0);
            assert(count_out(rev.value(u)@, p0) == 0);
            lemma_count_out_zero(rev.value(u)@, p0);
            assert forall|v: usize| #[trigger] spec_edge(g, v, q@[head as int]) implies exists|b: int| 0 <= b < head && q@[b] == v by {
                assert(rev.value(u)@.contains(v));
                assert(p0.contains(v));
                let b = choose|b: int| 0 <= b < p0.len() && p0[b] == v;
                assert(q@[b] == v);
            }
            assert(!p0.contains(u)) by {
                if p0.contains(u) {
                    let b = choose|b: int| 0 <= b < p0.len() && p0[b] == u;
                    assert(q@[b] == q@[head as int]);
                }
            }
        }
        head = head + 1;
        let ghost p1 = q@.subrange(0, head as int);
        assert(p1 =~= p0.push(u));
        let deps: &Vec<usize> = match dep_tree.get(u) {
            Some(d) => d,
            None => &empty,
        };
        let ghost ds = deps@;
        proof {
            assert forall|k: usize| #[trigger] rev.has(k) implies count_out(rev.value(k)@, p1) + (if ds.contains(k) { 1nat } else { 0nat })
                == count_out(rev.value(k)@, p0) by {
                lemma_count_out_push(rev.value(k)@, p0, u);
                assert(rev.value(k)@.contains(u) <==> spec_edge(g, u, k));
            }
            assert forall|k: usize| ds.contains(k) implies #[trigger] rev.has(k) by {
                assert(spec_edge(g, u, k));
            }
            assert(ds.subrange(0, ds.len() as int) =~= ds);
            assert forall|a: int, v: usize| 0 <= a < head && #[trigger] spec_edge(g, v, p1[a]) implies exists|b: int|
                0 <= b < a && p1[b] == v by {
                assert(p1[a] == q@[a]);
                let b = choose|b: int| 0 <= b < a && q@[b] == v;
                assert(p1[b] == v);
            }
        }
        let m = deps.len();
        let mut t: usize = 0;
        while t < m
            invariant
                g == dep_tree,
                r == rev.entries@.len(),
                m == ds.len(),
                deps@ == ds,
                t <= m,
                ds.no_duplicates(),
                forall|k: usize| ds.contains(k) ==> #[trigger] rev.has(k),
                spec_graph_wf(rev),
                indeg.keys_unique(),
                forall|k: usize| #[trigger] indeg.has(k) <==> rev.has(k),
                forall|k: usize| #[trigger] rev.has(k) ==> indeg.value(k) == count_out(rev.value(k)@, p1) + (if ds.subrange(
                    t as int,
                    m as int,
                ).contains(k) { 1nat } else { 0nat }),
                forall|k: usize| #[trigger] rev.has(k) ==> (q@.contains(k) <==> indeg.value(k) == 0),
                forall|x: usize| #[trigger] q@.contains(x) ==> rev.has(x),
                q@.no_duplicates(),
                head <= q@.len() <= r,
                q@.subrange(0, head as int) == p1,
                p1.len() == head,
                forall|a: int, v: usize|
                    0 <= a < head && #[trigger] spec_edge(g, v, p1[a]) ==> exists|b: int| 0 <= b < a && p1[b] == v,
            decreases m - t,
        {
            let w = deps[t];
            let ghost tail = ds.subrange(t as int, m as int);
            let ghost tail1 = ds.subrange(t + 1, m as int);
            proof {
                assert(tail[0] == w);
                assert(rev.has(w));
                assert forall|k: usize| tail1.contains(k) <==> tail.contains(k) && k != w by {
                    if tail1.contains(k) {
                        let a = choose|a: int| 0 <= a < tail1.len() && tail1[a] == k;
                        assert(tail[a + 1] == k);
                        assert(ds[t + 1 + a] == k);
                        assert(ds[t as int] == w);
                    }
                    if tail.contains(k) && k != w {
                        let a = choose|a: int| 0 <= a < tail.len() && tail[a] == k;
                        assert(a != 0);
                        assert(tail1[a - 1] == k);
                    }
                }
            }
            let d = *indeg.get(w).unwrap();
            let ghost old_q = q@;
            let _ = indeg.insert(w, d - 1);
            if d - 1 == 0 {
                q.push(w);
                proof {
                    assert(!old_q.contains(w));
                    assert forall|x: usize| #[trigger] q@.contains(x) implies x == w || old_q.contains(x) by {
                        let a = choose|a: int| 0 <= a < q@.len() && q@[a] == x;
                        if a < old_q.len() {
                            assert(old_q[a] == x);
                        }
                    }
                    assert forall|x: usize| q@.contains(x) implies spec_keys(rev).contains(x) by {
                        if x != w {
                            assert(old_q.contains(x));
                        }
                        assert(rev.has(x));
                        let a = choose|a: int| 0 <= a < rev.entries@.len() && #[trigger] rev.entries@[a].0 == x;
                        assert(spec_keys(rev)[a] == x);
                    }
                    lemma_unique_within(q@, spec_keys(rev));
                    assert(q@.subrange(0, head as int) =~= old_q.subrange(0, head as int));
                }
            }
            proof {
                assert forall|x: usize| #[trigger] q@.contains(x) <==> old_q.contains(x) || (d == 1 && x == w) by {
                    if q@.contains(x) && !old_q.contains(x) {
                        let a = choose|a: int| 0 <= a < q@.len() && q@[a] == x;
                        if a < old_q.len() {
                            assert(old_q[a] == x);
                        }
                    }
                    if old_q.contains(x) {
                        let a = choose|a: int| 0 <= a < old_q.len() && old_q[a] == x;
                        assert(q@[a] == x);
                    }
                    if d == 1 && x == w {
                        assert(q@[q@.len() - 1] == w);
                    }
                }
            }
            t = t + 1;
        }
        proof {
            assert forall|a: int, v: usize| 0 <= a < head && #[trigger] spec_edge(g, v, q@[a]) implies exists|b: int|
                0 <= b < a && q@[b] == v by {
                assert(q@.subrange(0, head as int)[a] == q@[a]);
                let b = choose|b: int| 0 <= b < a && p1[b] == v;
                assert(q@.subrange(0, head as int)[b] == q@[b]);
            }
        }
    }
    // the order takes the nodes last first
    let len = q.len();
    let mut order: Vec<usize> = Vec::new();
    let mut i: usize = 0;
    while i < len
        invariant
            len == q@.len(),
            i <= len,
            order@.len() == i,
            forall|a: int| 0 <= a < i ==> #[trigger] order@[a] == q@[len - 1 - a],
        decreases len - i,
    {
        order.push(q[len - 1 - i]);
        i = i + 1;
    }
    // what is left: the nodes some key still depends on
    let mut left: Vec<usize> = Vec::new();
    let mut j: usize = 0;
    while j < r
        invariant
            r == rev.entries@.len(),
            j <= r,
            spec_graph_wf(rev),
            indeg.keys_unique(),
            forall|k: usize| #[trigger] indeg.has(k) <==> rev.has(k),
            left@.no_duplicates(),
            forall|x: usize| #[trigger] left@.contains(x) ==> exists|j2: int| 0 <= j2 < j && rev.entries@[j2].0 == x,
            forall|x: usize| #[trigger] left@.contains(x) ==> rev.has(x) && indeg.value(x) > 0,
            forall|j2: int| 0 <= j2 < j && #[trigger] indeg.value(rev.entries@[j2].0) > 0 ==> left@.contains(rev.entries@[j2].0),
        decreases r - j,
    {
        let k = rev.entries[j].0;
        proof {
            rev.lemma_value(j as int);
        }
        let d = *indeg.get(k).unwrap();
        if d > 0 {
            proof {
                if left@.contains(k) {
                    let j2 = choose|j2: int| 0 <= j2 < j && rev.entries@[j2].0 == k;
                    assert(rev.entries@[j2].0 != rev.entries@[j as int].0);
                }
            }
            let ghost old_left = left@;
            left.push(k);
            proof {
                assert forall|x: usize| #[trigger] left@.contains(x) implies x == k || old_left.contains(x) by {
                    let a = choose|a: int| 0 <= a < left@.len() && left@[a] == x;
                    if a < old_left.len() {
                        assert(old_left[a] == x);
                    }
                }
                assert forall|x: usize| #[trigger] left@.contains(x) implies exists|j2: int| 0 <= j2 < j + 1 && rev.entries@[j2].0 == x by {
                    if x != k {
                        assert(old_left.contains(x));
                        let j2 = choose|j2: int| 0 <= j2 < j && rev.entries@[j2].0 == x;
                        assert(0 <= j2 < j + 1 && rev.entries@[j2].0 == x);
                    } else {
                        assert(0 <= j < j + 1 && rev.entries@[j as int].0 == x);
                    }
                }
                assert forall|x: usize| #[trigger] left@.contains(x) implies rev.has(x) && indeg.value(x) > 0 by {
                    if x != k {
                        assert(old_left.contains(x));
                    }
                }
                assert forall|j2: int| 0 <= j2 < j + 1 && #[trigger] indeg.value(rev.entries@[j2].0) > 0 implies left@.contains(
                    rev.entries@[j2].0,
                ) by {
                    if j2 < j {
                        assert(old_left.contains(rev.entries@[j2].0));
                        let a = choose|a: int| 0 <= a < old_left.len() && old_left[a] == rev.entries@[j2].0;
                        assert(left@[a] == rev.entries@[j2].0);
                    } else {
                        assert(left@[left@.len() - 1] == k);
                    }
                }
            }
        }
        j = j + 1;
    }
    proof {
        assert(q@.subrange(0, len as int) =~= q@);
        assert forall|k: usize| #[trigger] q@.contains(k) <==> order@.contains(k) by {
            if q@.contains(k) {
                let a = choose|a: int| 0 <= a < q@.len() && q@[a] == k;
                assert(order@[len - 1 - a] == k);
            }
            if order@.contains(k) {
                let a = choose|a: int| 0 <= a < order@.len() && order@[a] == k;
                assert(q@[len - 1 - a] == k);
            }
        }
        assert(order@.no_duplicates()) by {
            assert forall|a: int, b: int| 0 <= a < b < order@.len() implies order@[a] != order@[b] by {
                assert(q@[len - 1 - a] != q@[len - 1 - b]);
            }
        }
        assert forall|k: usize|
            #![trigger spec_node(g, k)]
            #![trigger order@.contains(k)]
            #![trigger left@.contains(k)]
            spec_node(g, k) <==> (order@.contains(k) || left@.contains(k)) by {
            if spec_node(g, k) {
                assert(rev.has(k));
                if indeg.value(k) > 0 {
                    let j2 = choose|j2: int| 0 <= j2 < rev.entries@.len() && #[trigger] rev.entries@[j2].0 == k;
                    assert(indeg.value(rev.entries@[j2].0) > 0);
                } else {
                    assert(q@.contains(k));
                    assert(order@.contains(k));
                }
            }
            if order@.contains(k) {
                assert(q@.contains(k));
                assert(rev.has(k));
            }
            if left@.contains(k) {
                assert(rev.has(k));
            }
        }
        assert forall|k: usize| !(#[trigger] order@.contains(k) && left@.contains(k)) by {
            if order@.contains(k) && left@.contains(k) {
                assert(q@.contains(k));
            }
        }
        assert forall|i2: int, v: usize| 0 <= i2 < order@.len() && #[trigger] spec_edge(g, v, order@[i2]) implies exists|j2: int|
            i2 < j2 < order@.len() && order@[j2] == v by {
            let a = len - 1 - i2;
            assert(order@[i2] == q@[a]);
            let b = choose|b: int| 0 <= b < a && q@[b] == v;
            assert(order@[len - 1 - b] == v);
        }
        assert forall|v: usize| #[trigger] left@.contains(v) implies exists|w: usize| left@.contains(w) && spec_edge(g, w, v) by {
            lemma_count_out_zero(rev.value(v)@, q@);
            let w = choose|w: usize| rev.value(v)@.contains(w) && !q@.contains(w);
            assert(spec_edge(g, w, v));
            assert(spec_node(g, w));
            assert(rev.has(w));
            let j2 = choose|j2: int| 0 <= j2 < rev.entries@.len() && #[trigger] rev.entries@[j2].0 == w;
            assert(indeg.value(rev.entries@[j2].0) > 0);
        }
    }
    (order, left)
}


/// The size of values of `t` depends on the type whose variable has id `id`.
pub open spec fn spec_dep_id(t: Ty, id: usize) -> bool {
    exists|v: TVar| #[trigger] in_deps(t, v) && v.id == id
}

/// `t` holds no unification variable.
pub open spec fn spec_known(t: Ty) -> bool {
    in_range(Seq::empty(), t)
}

/// The argument types of the enum constructor declared with id `c`, if the table has it.
pub open spec fn spec_cons_args(node_map: IdMap<SymInfo>, c: usize) -> Option<Seq<Type>> {
    if node_map.has(c) {
        match node_map.value(c).kind {
            SymKind::EnumCons { args, .. } => Some(args@),
            _ => None,
        }
    } else {
        None
    }
}

/// The symbol declared with id `c` is an enum constructor whose argument types hold no
/// unification variable.
pub open spec fn spec_cons_ok(node_map: IdMap<SymInfo>, c: usize) -> bool {
    let args = spec_cons_args(node_map, c);
    &&& args is Some
    &&& forall|a: int| 0 <= a < args->Some_0.len() ==> spec_known(#[trigger] args->Some_0[a].ty())
}

/// The types a named type is made of: the fields of a struct, the arguments of the
/// constructors of an enum (which must be enum constructors in the table).
pub open spec fn spec_parts_ok(info: TypeInfo, node_map: IdMap<SymInfo>) -> bool {
    match info.kind {
        TypeKind::Struct { fields, .. } => forall|i: int|
            0 <= i < fields.entries@.len() ==> spec_known(#[trigger] fields.entries@[i].1.1.ty()),
        TypeKind::Enum { constructors, .. } => forall|i: int|
            0 <= i < constructors.entries@.len() ==> spec_cons_ok(node_map, (#[trigger] constructors.entries@[i]).1.id),
        TypeKind::Builtin => true,
    }
}

/// The size of the type `info` describes depends on the type whose variable has id `id`.
pub open spec fn spec_info_dep(info: TypeInfo, node_map: IdMap<SymInfo>, id: usize) -> bool {
    match info.kind {
        TypeKind::Struct { fields, .. } => exists|i: int|
            0 <= i < fields.entries@.len() && spec_dep_id(#[trigger] fields.entries@[i].1.1.ty(), id),
        TypeKind::Enum { constructors, .. } => exists|i: int, a: int|
            0 <= i < constructors.entries@.len() && 0 <= a < spec_cons_args(node_map, constructors.entries@[i].1.id)->Some_0.len()
                && spec_dep_id(
                #[trigger] spec_cons_args(node_map, constructors.entries@[i].1.id)->Some_0[a].ty(),
                id,
            ),
        TypeKind::Builtin => false,
    }
}

/// `g` is the dependency graph of the named types: a key for each, and for each the ids
/// its size depends on.
pub open spec fn spec_dep_graph(tvar_map: IdMap<TypeInfo>, node_map: IdMap<SymInfo>, g: IdMap<Vec<usize>>) -> bool {
    &&& spec_graph_wf(g)
    &&& forall|k: usize| #[trigger] g.has(k) <==> tvar_map.has(k)
    &&& forall|k: usize, id: usize|
        g.has(k) ==> (#[trigger] g.value(k)@.contains(id) <==> spec_info_dep(tvar_map.value(k), node_map, id))
}

/// Adds to `dst` the ids of `src` it does not have.
fn add_ids(dst: &mut Vec<usize>, src: &Vec<usize>)
    requires
        old(dst)@.no_duplicates(),
    ensures
        final(dst)@.no_duplicates(),
        forall|x: usize| #[trigger] final(dst)@.contains(x) <==> old(dst)@.contains(x) || src@.contains(x),
{
    let n = src.len();
    let mut i: usize = 0;
    while i < n
        invariant
            n == src@.len(),
            i <= n,
            dst@.no_duplicates(),
            forall|x: usize| #[trigger] dst@.contains(x) <==> old(dst)@.contains(x) || src@.subrange(0, i as int).contains(x),
        decreases n - i,
    {
        let x = src[i];
        let ghost before = dst@;
        let mut found = false;
        let m = dst.len();
        let mut j: usize = 0;
        while j < m
            invariant
                m == dst@.len(),
                j <= m,
                found <==> exists|a: int| 0 <= a < j && dst@[a] == x,
            decreases m - j,
        {
            if dst[j] == x {
                found = true;
            }
            j = j + 1;
        }
        if !found {
            dst.push(x);
        }
        proof {
            let s0 = src@.subrange(0, i as int);
            let s1 = src@.subrange(0, i + 1);
            assert(s1 =~= s0.push(x));
            assert forall|y: usize| #[trigger] dst@.contains(y) <==> before.contains(y) || y == x by {
                if dst@.contains(y) && !found {
                    let a = choose|a: int| 0 <= a < dst@.len() && dst@[a] == y;
                    if a < before.len() {
                        assert(before[a] == y);
                    }
                }
                if before.contains(y) && !found {
                    let a = choose|a: int| 0 <= a < before.len() && before[a] == y;
                    assert(dst@[a] == y);
                }
                if y == x && !found {
                    assert(dst@[dst@.len() - 1] == x);
                }
            }
            assert forall|y: usize| s1.contains(y) <==> s0.contains(y) || y == x by {
                if s1.contains(y) {
                    let a = choose|a: int| 0 <= a < s1.len() && s1[a] == y;
                    if a < s0.len() {
                        assert(s0[a] == y);
                    }
                }
                if s0.contains(y) {
                    let a = choose|a: int| 0 <= a < s0.len() && s0[a] == y;
                    assert(s1[a] == y);
                }
                assert(s1[i as int] == x);
            }
        }
        i = i + 1;
    }
    assert(src@.subrange(0, n as int) =~= src@);
}

/// The ids of the types the size of `tp` depends on; the error comes for a type that holds
/// a unification variable.
fn size_dep_ids(tp: &Type, store: &UVarStore) -> (res: Result<Vec<usize>, InternalError>)
    requires
        store.wf(),
        store.model().len() == 0,
    ensures
        res is Err <==> !spec_known(tp.ty()),
        res matches Ok(ids) ==> ids@.no_duplicates() && forall|id: usize| #[trigger] ids@.contains(id) <==> spec_dep_id(tp.ty(), id),
{
    let ghost m = store.model();
    if !tp.is_within(store) {
        return Err(InternalError::msg("a type holds a unification variable"));
    }
    proof {
        assert(m =~= Seq::<crate::tp::model::Entry>::empty());
        crate::tp::model::lemma_all_uvars_mono(tp.ty(), pred_below(0), pred_unres(m));
        crate::tp::model::lemma_zonk_clean(m, tp.ty());
        crate::tp::model::lemma_all_uvars_mono(tp.ty(), pred_below(0), pred_none());
    }
    let deps = tp.get_size_dependencies(store);
    let mut ids: Vec<usize> = Vec::new();
    let n = deps.len();
    let mut i: usize = 0;
    while i < n
        invariant
            n == deps@.len(),
            i <= n,
            ids@.no_duplicates(),
            forall|id: usize| #[trigger] ids@.contains(id) <==> exists|a: int| 0 <= a < i && (#[trigger] deps@[a]).id == id,
        decreases n - i,
    {
        let one = vec![deps[i].id];
        let ghost before = ids@;
        add_ids(&mut ids, &one);
        proof {
            assert forall|id: usize| #[trigger] ids@.contains(id) <==> exists|a: int| 0 <= a < i + 1 && (#[trigger] deps@[a]).id == id by {
                if one@.contains(id) {
                    assert(one@[0] == id);
                    assert(deps@[i as int].id == id);
                }
                if exists|a: int| 0 <= a < i + 1 && (#[trigger] deps@[a]).id == id {
                    let a = choose|a: int| 0 <= a < i + 1 && (#[trigger] deps@[a]).id == id;
                    if a == i {
                        assert(one@[0] == id);
                    } else {
                        assert(before.contains(id));
                    }
                }
            }
        }
        i = i + 1;
    }
    proof {
        assert forall|id: usize| #[trigger] ids@.contains(id) <==> spec_dep_id(tp.ty(), id) by {
            if ids@.contains(id) {
                let a = choose|a: int| 0 <= a < n && (#[trigger] deps@[a]).id == id;
                assert(deps@.contains(deps@[a]));
                assert(in_deps(tp.ty(), deps@[a]));
            }
            if spec_dep_id(tp.ty(), id) {
                let v = choose|v: TVar| #[trigger] in_deps(tp.ty(), v) && v.id == id;
                assert(deps@.contains(v));
                let a = choose|a: int| 0 <= a < deps@.len() && deps@[a] == v;
                assert(deps@[a].id == id);
            }
        }
    }
    Ok(ids)
}

/// The ids the sizes of the types of `tps` depend on, gathered.
fn types_deps(Ghost(tps): Ghost<Seq<Type>>, get: &Vec<&Type>, store: &UVarStore) -> (res: Result<Vec<usize>, InternalError>)
    requires
        store.wf(),
        store.model().len() == 0,
        get@.len() == tps.len(),
        forall|a: int| 0 <= a < tps.len() ==> *get@[a] == tps[a],
    ensures
        res is Err <==> exists|a: int| 0 <= a < tps.len() && !spec_known(#[trigger] tps[a].ty()),
        res matches Ok(ids) ==> ids@.no_duplicates() && forall|id: usize|
            #[trigger] ids@.contains(id) <==> exists|a: int| 0 <= a < tps.len() && spec_dep_id(#[trigger] tps[a].ty(), id),
{
    let mut ids: Vec<usize> = Vec::new();
    let n = get.len();
    let mut i: usize = 0;
    while i < n
        invariant
            n == tps.len(),
            n == get@.len(),
            i <= n,
            store.wf(),
            store.model().len() == 0,
            forall|a: int| 0 <= a < tps.len() ==> *get@[a] == tps[a],
            forall|a: int| 0 <= a < i ==> spec_known(#[trigger] tps[a].ty()),
            ids@.no_duplicates(),
            forall|id: usize|
                #[trigger] ids@.contains(id) <==> exists|a: int| 0 <= a < i && spec_dep_id(#[trigger] tps[a].ty(), id),
        decreases n - i,
    {
        let one = match size_dep_ids(get[i], store) {
            Ok(one) => one,
            Err(e) => {
                return Err(e);
            },
        };
        let ghost before = ids@;
        add_ids(&mut ids, &one);
        proof {
            assert forall|id: usize|
                #[trigger] ids@.contains(id) <==> exists|a: int| 0 <= a < i + 1 && spec_dep_id(#[trigger] tps[a].ty(), id) by {
                if one@.contains(id) {
                    assert(spec_dep_id(tps[i as int].ty(), id));
                }
                if exists|a: int| 0 <= a < i + 1 && spec_dep_id(#[trigger] tps[a].ty(), id) {
                    let a = choose|a: int| 0 <= a < i + 1 && spec_dep_id(#[trigger] tps[a].ty(), id);
                    if a == i {
                        assert(one@.contains(id));
                    } else {
                        assert(before.contains(id));
                    }
                }
            }
        }
        i = i + 1;
    }
    Ok(ids)
}

/// The ids of the types the size of the type `info` describes depends on.
///
/// The error comes for an enum constructor that is not an enum constructor in the table,
/// and for a type that holds a unification variable.
pub fn get_tvars(info: &TypeInfo, node_map: &IdMap<SymInfo>, store: &UVarStore) -> (res: Result<Vec<usize>, InternalError>)
    requires
        node_map.keys_unique(),
        store.wf(),
        store.model().len() == 0,
    ensures
        res is Err <==> !spec_parts_ok(*info, *node_map),
        res matches Ok(ids) ==> ids@.no_duplicates() && forall|id: usize|
            #[trigger] ids@.contains(id) <==> spec_info_dep(*info, *node_map, id),
{
    match &info.kind {
        TypeKind::Struct { fields, .. } => {
            let ghost tps = Seq::new(fields.entries@.len(), |i: int| fields.entries@[i].1.1);
            let mut get: Vec<&Type> = Vec::new();
            let n = fields.entries.len();
            let mut i: usize = 0;
            while i < n
                invariant
                    n == fields.entries@.len(),
                    i <= n,
                    tps.len() == n,
                    forall|a: int| 0 <= a < n ==> tps[a] == fields.entries@[a].1.1,
                    get@.len() == i,
                    forall|a: int| 0 <= a < i ==> *get@[a] == tps[a],
                decreases n - i,
            {
                get.push(&fields.entries[i].1.1);
                i = i + 1;
            }
            let res = types_deps(Ghost(tps), &get, store);
            proof {
                assert forall|a: int| 0 <= a < tps.len() implies tps[a].ty() == (#[trigger] fields.entries@[a]).1.1.ty() by {}
                if res is Err {
                    let a = choose|a: int| 0 <= a < tps.len() && !spec_known(#[trigger] tps[a].ty());
                    assert(!spec_known(fields.entries@[a].1.1.ty()));
                } else {
                    assert forall|a: int| 0 <= a < fields.entries@.len() implies spec_known(#[trigger] fields.entries@[a].1.1.ty()) by {
                        assert(tps[a] == fields.entries@[a].1.1);
                        assert(spec_known(tps[a].ty()));
                    }
                }
                if let Ok(ref ids) = res {
                    assert forall|id: usize| #[trigger] ids@.contains(id) <==> spec_info_dep(*info, *node_map, id) by {
                        if ids@.contains(id) {
                            let a = choose|a: int| 0 <= a < tps.len() && spec_dep_id(#[trigger] tps[a].ty(), id);
                            assert(spec_dep_id(fields.entries@[a].1.1.ty(), id));
                        }
                        if spec_info_dep(*info, *node_map, id) {
                            let a = choose|a: int|
                                0 <= a < fields.entries@.len() && spec_dep_id(#[trigger] fields.entries@[a].1.1.ty(), id);
                            assert(spec_dep_id(tps[a].ty(), id));
                        }
                    }
                }
            }
            res
        },
        TypeKind::Enum { constructors, .. } => {
            let ghost cs = constructors.entries@;
            let mut ids: Vec<usize> = Vec::new();
            let n = constructors.entries.len();
            let mut i: usize = 0;
            while i < n
                invariant
                    n == cs.len(),
                    cs == constructors.entries@,
                    info.kind is Enum,
                    info.kind->Enum_constructors == *constructors,
                    i <= n,
                    node_map.keys_unique(),
                    store.wf(),
                    store.model().len() == 0,
                    forall|c: int| 0 <= c < i ==> spec_cons_ok(*node_map, (#[trigger] cs[c]).1.id),
                    ids@.no_duplicates(),
                    forall|id: usize| #[trigger] ids@.contains(id) <==> exists|c: int, a: int|
                        0 <= c < i && 0 <= a < spec_cons_args(*node_map, cs[c].1.id)->Some_0.len() && spec_dep_id(
                            #[trigger] spec_cons_args(*node_map, cs[c].1.id)->Some_0[a].ty(),
                            id,
                        ),
                decreases n - i,
            {
                let cid = constructors.entries[i].1.id;
                let sym = match node_map.get(cid) {
                    Some(sym) => sym,
                    None => {
                        assert(!spec_cons_ok(*node_map, (constructors.entries@[i as int]).1.id));
                        return Err(InternalError::msg("an enum constructor is not in the table"));
                    },
                };
                let args = match &sym.kind {
                    SymKind::EnumCons { args, .. } => args,
                    _ => {
                        assert(!spec_cons_ok(*node_map, (constructors.entries@[i as int]).1.id));
                        return Err(InternalError::msg("an enum constructor is not an enum constructor"));
                    },
                };
                let ghost tps = args@;
                assert(spec_cons_args(*node_map, cs[i as int].1.id) == Some(tps));
                let mut get: Vec<&Type> = Vec::new();
                let m = args.len();
                let mut j: usize = 0;
                while j < m
                    invariant
                        m == tps.len(),
                        tps == args@,
                        j <= m,
                        get@.len() == j,
                        forall|a: int| 0 <= a < j ==> *get@[a] == tps[a],
                    decreases m - j,
                {
                    get.push(&args[j]);
                    j = j + 1;
                }
                let one = match types_deps(Ghost(tps), &get, store) {
                    Ok(one) => one,
                    Err(e) => {
                        return Err(e);
                    },
                };
                let ghost before = ids@;
                add_ids(&mut ids, &one);
                proof {
                    assert forall|id: usize| #[trigger] ids@.contains(id) <==> exists|c: int, a: int|
                        0 <= c < i + 1 && 0 <= a < spec_cons_args(*node_map, cs[c].1.id)->Some_0.len() && spec_dep_id(
                            #[trigger] spec_cons_args(*node_map, cs[c].1.id)->Some_0[a].ty(),
                            id,
                        ) by {
                        if one@.contains(id) {
                            let a = choose|a: int| 0 <= a < tps.len() && spec_dep_id(#[trigger] tps[a].ty(), id);
                            assert(spec_dep_id(spec_cons_args(*node_map, cs[i as int].1.id)->Some_0[a].ty(), id));
                        }
                        if exists|c: int, a: int|
                            0 <= c < i + 1 && 0 <= a < spec_cons_args(*node_map, cs[c].1.id)->Some_0.len() && spec_dep_id(
                                #[trigger] spec_cons_args(*node_map, cs[c].1.id)->Some_0[a].ty(),
                                id,
                            ) {
                            let (c, a) = choose|c: int, a: int|
                                0 <= c < i + 1 && 0 <= a < spec_cons_args(*node_map, cs[c].1.id)->Some_0.len() && spec_dep_id(
                                    #[trigger] spec_cons_args(*node_map, cs[c].1.id)->Some_0[a].ty(),
                                    id,
                                );
                            if c == i {
                                assert(spec_dep_id(tps[a].ty(), id));
                                assert(one@.contains(id));
                            } else {
                                assert(before.contains(id));
                            }
                        }
                    }
                }
                i = i + 1;
            }
            Ok(ids)
        },
        TypeKind::Builtin => Ok(Vec::new()),
    }
}

/// The dependency graph of the named types: for each, by the id of its variable, the ids
/// of the types its size depends on. The error comes where `get_tvars` gives one.
pub fn make_dep_tree(tvar_map: &IdMap<TypeInfo>, node_map: &IdMap<SymInfo>) -> (res: Result<IdMap<Vec<usize>>, InternalError>)
    requires
        tvar_map.keys_unique(),
        node_map.keys_unique(),
    ensures
        res is Err <==> exists|k: usize| #[trigger] tvar_map.has(k) && !spec_parts_ok(tvar_map.value(k), *node_map),
        res matches Ok(g) ==> spec_dep_graph(*tvar_map, *node_map, g),
{
    let store = UVarStore::new();
    let mut dep_tree: IdMap<Vec<usize>> = IdMap::new();
    let n = tvar_map.entries.len();
    let mut i: usize = 0;
    while i < n
        invariant
            n == tvar_map.entries@.len(),
            i <= n,
            tvar_map.keys_unique(),
            node_map.keys_unique(),
            store.wf(),
            store.model().len() == 0,
            spec_graph_wf(dep_tree),
            forall|k: usize| #[trigger] dep_tree.has(k) <==> exists|j: int| 0 <= j < i && tvar_map.entries@[j].0 == k,
            forall|j: int| 0 <= j < i ==> spec_parts_ok(#[trigger] tvar_map.entries@[j].1, *node_map),
            forall|k: usize, id: usize|
                dep_tree.has(k) ==> (#[trigger] dep_tree.value(k)@.contains(id) <==> spec_info_dep(tvar_map.value(k), *node_map, id)),
        decreases n - i,
    {
        proof {
            tvar_map.lemma_value(i as int);
        }
        let tvars = match get_tvars(&tvar_map.entries[i].1, node_map, &store) {
            Ok(t) => t,
            Err(e) => {
                return Err(e);
            },
        };
        let k = tvar_map.entries[i].0;
        let ghost old_tree = dep_tree;
        let _ = dep_tree.insert(k, tvars);
        proof {
            assert forall|x: usize| #[trigger] dep_tree.has(x) <==> exists|j: int| 0 <= j < i + 1 && tvar_map.entries@[j].0 == x by {
                if x == k {
                    assert(0 <= i < i + 1 && tvar_map.entries@[i as int].0 == x);
                }
                if exists|j: int| 0 <= j < i + 1 && tvar_map.entries@[j].0 == x {
                    let j = choose|j: int| 0 <= j < i + 1 && tvar_map.entries@[j].0 == x;
                    if j < i {
                        assert(old_tree.has(x));
                    }
                }
            }
            assert forall|x: usize| #[trigger] dep_tree.has(x) implies dep_tree.value(x)@.no_duplicates() by {
                if x != k {
                    assert(old_tree.has(x));
                }
            }
        }
        i = i + 1;
    }
    proof {
        assert forall|k: usize| #[trigger] dep_tree.has(k) <==> tvar_map.has(k) by {
            if tvar_map.has(k) {
                let j = choose|j: int| 0 <= j < tvar_map.entries@.len() && #[trigger] tvar_map.entries@[j].0 == k;
                assert(0 <= j < n && tvar_map.entries@[j].0 == k);
            }
        }
    }
    Ok(dep_tree)
}

} // verus!
