//! Directed reachability over a sequence of edges, with an optional
//! restriction to the equivalence-preserving edge kinds.
//!
//! `connected` is the mathematical meaning of every connectivity query of the
//! engine: `b` can be reached from `a` by following zero or more edges in
//! their direction.  The executable side computes the set of locals reachable
//! from a start local by a fixpoint iteration and is proved sound and
//! complete against `connected`.

use vstd::prelude::*;

use crate::graph::{Edge, EdgeKind};
use crate::ir::Local;

verus! {

/// The edge kinds along which two locals hold the same logical value: direct
/// copy, direct move, and single-field projection.  Dereferences, address-of
/// operations, computed rvalues and opaque calls transport data but not
/// identity.
pub open spec fn equiv_kind(k: EdgeKind) -> bool {
    k == EdgeKind::Copy || k == EdgeKind::Move || k == EdgeKind::Field
}

/// Executable mirror of `equiv_kind`.
pub fn is_equiv_kind(k: EdgeKind) -> (r: bool)
    ensures
        r == equiv_kind(k),
{
    match k {
        EdgeKind::Copy => true,
        EdgeKind::Move => true,
        EdgeKind::Field => true,
        EdgeKind::Deref => false,
        EdgeKind::AddressOf => false,
        EdgeKind::Compute => false,
        EdgeKind::CallArg => false,
    }
}

/// The edge leads from `a` to `b`; with `equiv_only` set it must also be of
/// an equivalence-preserving kind.
pub open spec fn edge_matches(e: Edge, a: Local, b: Local, equiv_only: bool) -> bool {
    e.src == a && e.dst == b && (equiv_only ==> equiv_kind(e.kind))
}

/// Some edge of the sequence leads from `a` to `b`.
pub open spec fn has_edge(es: Seq<Edge>, a: Local, b: Local, equiv_only: bool) -> bool {
    exists|i: int| 0 <= i < es.len() && edge_matches(#[trigger] es[i], a, b, equiv_only)
}

/// `b` is reachable from `a` in at most `n` edge steps.
pub open spec fn reach_n(es: Seq<Edge>, a: Local, b: Local, equiv_only: bool, n: nat) -> bool
    decreases n,
{
    a == b || (n > 0 && exists|m: Local|
        #[trigger] has_edge(es, a, m, equiv_only) && reach_n(es, m, b, equiv_only, (n - 1) as nat))
}

/// `b` is reachable from `a` by following zero or more edges in their
/// direction.
pub open spec fn connected(es: Seq<Edge>, a: Local, b: Local, equiv_only: bool) -> bool {
    exists|n: nat| reach_n(es, a, b, equiv_only, n)
}

/// Every edge endpoint lies below `n`.
pub open spec fn edges_in_bounds(es: Seq<Edge>, n: int) -> bool {
    forall|i: int| 0 <= i < es.len() ==> (#[trigger] es[i]).src < n && es[i].dst < n
}

/// The visited set is closed under the edges: an edge out of a visited local
/// (of a matching kind) only leads to visited locals.
pub open spec fn edges_closed(es: Seq<Edge>, vis: Seq<bool>, equiv_only: bool) -> bool {
    forall|i: int|
        0 <= i < es.len() && vis[(#[trigger] es[i]).src as int] && (equiv_only ==> equiv_kind(
            es[i].kind,
        )) ==> vis[es[i].dst as int]
}

/// Every local reaches itself, whatever the edges.
pub proof fn lemma_connected_reflexive(es: Seq<Edge>, a: Local, equiv_only: bool)
    ensures
        connected(es, a, a, equiv_only),
{
    assert(reach_n(es, a, a, equiv_only, 0));
}

/// Reachability within a fuel bound extends along one more edge.
proof fn lemma_reach_n_step(es: Seq<Edge>, a: Local, x: Local, d: Local, equiv_only: bool, n: nat)
    requires
        reach_n(es, a, x, equiv_only, n),
        has_edge(es, x, d, equiv_only),
    ensures
        reach_n(es, a, d, equiv_only, (n + 1) as nat),
    decreases n,
{
    if a == x {
        assert(reach_n(es, d, d, equiv_only, n));
        assert(has_edge(es, a, d, equiv_only) && reach_n(es, d, d, equiv_only, n));
    } else {
        let m = choose|m: Local|
            #[trigger] has_edge(es, a, m, equiv_only) && reach_n(
                es,
                m,
                x,
                equiv_only,
                (n - 1) as nat,
            );
        lemma_reach_n_step(es, m, x, d, equiv_only, (n - 1) as nat);
        assert(has_edge(es, a, m, equiv_only) && reach_n(es, m, d, equiv_only, n));
    }
}

/// Connectivity extends along one more edge.
pub proof fn lemma_connected_step(es: Seq<Edge>, a: Local, x: Local, d: Local, equiv_only: bool)
    requires
        connected(es, a, x, equiv_only),
        has_edge(es, x, d, equiv_only),
    ensures
        connected(es, a, d, equiv_only),
{
    let n = choose|n: nat| reach_n(es, a, x, equiv_only, n);
    lemma_reach_n_step(es, a, x, d, equiv_only, n);
}

/// Fuel-bounded reachability along equivalence edges is reachability along
/// arbitrary edges as well.
proof fn lemma_reach_n_equiv_widens(es: Seq<Edge>, a: Local, b: Local, n: nat)
    requires
        reach_n(es, a, b, true, n),
    ensures
        reach_n(es, a, b, false, n),
    decreases n,
{
    if a != b {
        let m = choose|m: Local|
            #[trigger] has_edge(es, a, m, true) && reach_n(es, m, b, true, (n - 1) as nat);
        let i = choose|i: int| 0 <= i < es.len() && edge_matches(#[trigger] es[i], a, m, true);
        assert(edge_matches(es[i], a, m, false));
        assert(has_edge(es, a, m, false));
        lemma_reach_n_equiv_widens(es, m, b, (n - 1) as nat);
        assert(has_edge(es, a, m, false) && reach_n(es, m, b, false, (n - 1) as nat));
    }
}

/// Equivalence of two locals is in particular connectivity: whatever is
/// reachable along equivalence-preserving edges alone is reachable along the
/// full edge relation.
pub proof fn lemma_equiv_implies_connected(es: Seq<Edge>, a: Local, b: Local)
    requires
        connected(es, a, b, true),
    ensures
        connected(es, a, b, false),
{
    let n = choose|n: nat| reach_n(es, a, b, true, n);
    lemma_reach_n_equiv_widens(es, a, b, n);
    assert(reach_n(es, a, b, false, n));
}

/// A visited set that contains `a` and is closed under the edges contains
/// everything reachable from `a`.
proof fn lemma_closed_contains_reachable(
    es: Seq<Edge>,
    vis: Seq<bool>,
    a: Local,
    b: Local,
    equiv_only: bool,
    n: nat,
)
    requires
        edges_in_bounds(es, vis.len() as int),
        a < vis.len(),
        b < vis.len(),
        vis[a as int],
        edges_closed(es, vis, equiv_only),
        reach_n(es, a, b, equiv_only, n),
    ensures
        vis[b as int],
    decreases n,
{
    if a != b {
        let m = choose|m: Local|
            #[trigger] has_edge(es, a, m, equiv_only) && reach_n(
                es,
                m,
                b,
                equiv_only,
                (n - 1) as nat,
            );
        let i = choose|i: int|
            0 <= i < es.len() && edge_matches(#[trigger] es[i], a, m, equiv_only);
        assert(vis[es[i].dst as int]);
        lemma_closed_contains_reachable(es, vis, m, b, equiv_only, (n - 1) as nat);
    }
}

/// How many entries of the first `n` are true.
pub open spec fn count_true(s: Seq<bool>, n: int) -> int
    decreases n,
{
    if n <= 0 {
        0
    } else {
        count_true(s, n - 1) + if s[n - 1] {
            1int
        } else {
            0int
        }
    }
}

/// The count is bounded by the prefix length.
proof fn lemma_count_true_le(s: Seq<bool>, n: int)
    requires
        0 <= n <= s.len(),
    ensures
        0 <= count_true(s, n) <= n,
    decreases n,
{
    if n > 0 {
        lemma_count_true_le(s, n - 1);
    }
}

/// Updating an entry at or beyond the prefix leaves the count unchanged.
proof fn lemma_count_true_update_beyond(s: Seq<bool>, i: int, v: bool, n: int)
    requires
        0 <= n <= i < s.len(),
    ensures
        count_true(s.update(i, v), n) == count_true(s, n),
    decreases n,
{
    if n > 0 {
        lemma_count_true_update_beyond(s, i, v, n - 1);
    }
}

/// Setting a false entry of the prefix raises the count by one.
proof fn lemma_count_true_set(s: Seq<bool>, i: int, n: int)
    requires
        0 <= i < n <= s.len(),
        !s[i],
    ensures
        count_true(s.update(i, true), n) == count_true(s, n) + 1,
    decreases n,
{
    if i == n - 1 {
        lemma_count_true_update_beyond(s, i, true, n - 1);
    } else {
        lemma_count_true_set(s, i, n - 1);
    }
}

/// Computes the set of locals reachable from `start`, as a boolean vector
/// over the `n` locals, following only equivalence-preserving edges when
/// `equiv_only` is set.
pub fn reach_from(edges: &Vec<Edge>, n: usize, start: Local, equiv_only: bool) -> (vis: Vec<bool>)
    requires
        start < n,
        edges_in_bounds(edges@, n as int),
    ensures
        vis@.len() == n,
        forall|l: Local| l < n ==> #[trigger] vis@[l as int] == connected(
            edges@,
            start,
            l,
            equiv_only,
        ),
{
    let mut vis: Vec<bool> = Vec::new();
    let mut i: usize = 0;
    while i < n
        invariant
            i <= n,
            vis@.len() == i,
            forall|j: int| 0 <= j < i ==> !(#[trigger] vis@[j]),
        decreases n - i,
    {
        vis.push(false);
        i += 1;
    }
    vis.set(start, true);
    proof {
        lemma_connected_reflexive(edges@, start, equiv_only);
        lemma_count_true_le(vis@, n as int);
    }
    let m: usize = edges.len();
    loop
        invariant
            vis@.len() == n,
            start < n,
            m == edges@.len(),
            edges_in_bounds(edges@, n as int),
            vis@[start as int],
            forall|l: Local| l < n && #[trigger] vis@[l as int] ==> connected(
                edges@,
                start,
                l,
                equiv_only,
            ),
            0 <= count_true(vis@, n as int) <= n,
        ensures
            vis@.len() == n,
            vis@[start as int],
            forall|l: Local| l < n && #[trigger] vis@[l as int] ==> connected(
                edges@,
                start,
                l,
                equiv_only,
            ),
            edges_closed(edges@, vis@, equiv_only),
        decreases n - count_true(vis@, n as int),
    {
        let ghost round_start = vis@;
        let ghost c0 = count_true(vis@, n as int);
        let mut changed: bool = false;
        let mut j: usize = 0;
        while j < m
            invariant
                j <= m,
                vis@.len() == n,
                start < n,
                m == edges@.len(),
                edges_in_bounds(edges@, n as int),
                vis@[start as int],
                forall|l: Local| l < n && #[trigger] vis@[l as int] ==> connected(
                    edges@,
                    start,
                    l,
                    equiv_only,
                ),
                c0 == count_true(round_start, n as int),
                count_true(vis@, n as int) >= c0,
                0 <= count_true(vis@, n as int) <= n,
                changed ==> count_true(vis@, n as int) > c0,
                !changed ==> vis@ == round_start,
                !changed ==> forall|i: int|
                    0 <= i < j && vis@[(#[trigger] edges@[i]).src as int] && (equiv_only
                        ==> equiv_kind(edges@[i].kind)) ==> vis@[edges@[i].dst as int],
            decreases m - j,
        {
            let e: Edge = edges[j];
            let follow: bool = if equiv_only {
                is_equiv_kind(e.kind)
            } else {
                true
            };
            if follow && vis[e.src] && !vis[e.dst] {
                proof {
                    assert(edge_matches(edges@[j as int], e.src, e.dst, equiv_only));
                    assert(has_edge(edges@, e.src, e.dst, equiv_only));
                    lemma_connected_step(edges@, start, e.src, e.dst, equiv_only);
                    lemma_count_true_set(vis@, e.dst as int, n as int);
                    lemma_count_true_le(vis@.update(e.dst as int, true), n as int);
                }
                vis.set(e.dst, true);
                changed = true;
            }
            j += 1;
        }
        if !changed {
            break;
        }
    }
    proof {
        assert forall|l: Local| l < n implies #[trigger] vis@[l as int] == connected(
            edges@,
            start,
            l,
            equiv_only,
        ) by {
            if vis@[l as int] {
            } else {
                if connected(edges@, start, l, equiv_only) {
                    let fuel = choose|f: nat| reach_n(edges@, start, l, equiv_only, f);
                    lemma_closed_contains_reachable(edges@, vis@, start, l, equiv_only, fuel);
                }
            }
        }
    }
    vis
}

/// Computes `start` together with its direct successors (one hop), as a
/// boolean vector over the `n` locals, following only equivalence-preserving
/// edges when `equiv_only` is set.
pub fn one_hop_from(edges: &Vec<Edge>, n: usize, start: Local, equiv_only: bool) -> (vis: Vec<
    bool,
>)
    requires
        start < n,
        edges_in_bounds(edges@, n as int),
    ensures
        vis@.len() == n,
        forall|l: Local| l < n ==> #[trigger] vis@[l as int] == (l == start || has_edge(
            edges@,
            start,
            l,
            equiv_only,
        )),
{
    let mut vis: Vec<bool> = Vec::new();
    let mut i: usize = 0;
    while i < n
        invariant
            i <= n,
            vis@.len() == i,
            forall|j: int| 0 <= j < i ==> !(#[trigger] vis@[j]),
        decreases n - i,
    {
        vis.push(false);
        i += 1;
    }
    vis.set(start, true);
    let m: usize = edges.len();
    let mut j: usize = 0;
    while j < m
        invariant
            j <= m,
            vis@.len() == n,
            start < n,
            m == edges@.len(),
            edges_in_bounds(edges@, n as int),
            forall|l: Local| l < n ==> #[trigger] vis@[l as int] == (l == start || exists|i: int|
                0 <= i < j && edge_matches(#[trigger] edges@[i], start, l, equiv_only)),
        decreases m - j,
    {
        let e: Edge = edges[j];
        let follow: bool = if equiv_only {
            is_equiv_kind(e.kind)
        } else {
            true
        };
        if follow && e.src == start {
            let ghost prev = vis@;
            vis.set(e.dst, true);
            proof {
                assert(edge_matches(edges@[j as int], start, e.dst, equiv_only));
                assert forall|l: Local| l < n implies #[trigger] vis@[l as int] == (l == start
                    || exists|i: int|
                    0 <= i < j + 1 && edge_matches(#[trigger] edges@[i], start, l, equiv_only)) by {
                    if l == e.dst {
                        assert(vis@[l as int]);
                    } else {
                        assert(vis@[l as int] == prev[l as int]);
                        if exists|i: int|
                            0 <= i < j + 1 && edge_matches(
                                #[trigger] edges@[i],
                                start,
                                l,
                                equiv_only,
                            ) {
                            let i = choose|i: int|
                                0 <= i < j + 1 && edge_matches(
                                    #[trigger] edges@[i],
                                    start,
                                    l,
                                    equiv_only,
                                );
                            assert(i < j);
                        }
                    }
                }
            }
        } else {
            proof {
                assert forall|l: Local| l < n implies #[trigger] vis@[l as int] == (l == start
                    || exists|i: int|
                    0 <= i < j + 1 && edge_matches(#[trigger] edges@[i], start, l, equiv_only)) by {
                    if exists|i: int|
                        0 <= i < j + 1 && edge_matches(#[trigger] edges@[i], start, l, equiv_only) {
                        let i = choose|i: int|
                            0 <= i < j + 1 && edge_matches(
                                #[trigger] edges@[i],
                                start,
                                l,
                                equiv_only,
                            );
                        assert(i < j);
                    }
                }
            }
        }
        j += 1;
    }
    vis
}

} // verus!
