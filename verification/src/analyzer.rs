//! Orchestration: builds the data-flow graph of every function-like item of a
//! compilation unit, recursing into discovered closures, with an at-most-once
//! cache per function identifier; and the read-only query facade over that
//! cache.

use vstd::prelude::*;

use crate::graph::{Arg2Ret, Graph, blocks_closures_prefix, blocks_edges_prefix, body_closures,
    body_edges, stmts_edges_prefix};
use crate::ir::{CompilationUnit, DefId, FnBody, Local, body_wf, block_wf};
use crate::reach::connected;

verus! {

/// The analyzer's cache: one graph per built function identifier.  Backed by
/// an association list with unique keys; insertion order is preserved, which
/// keeps whole-unit queries deterministic.
#[derive(Debug)]
pub struct GraphMap {
    pub entries: Vec<(DefId, Graph)>,
}

impl GraphMap {
    /// Keys are unique: at most one graph per function identifier.
    pub open spec fn wf(self) -> bool {
        forall|i: int, j: int|
            0 <= i < j < self.entries@.len() ==> (#[trigger] self.entries@[i]).0 != (
            #[trigger] self.entries@[j]).0
    }

    /// A graph is cached under this identifier.
    pub open spec fn contains_spec(self, k: DefId) -> bool {
        exists|i: int| 0 <= i < self.entries@.len() && (#[trigger] self.entries@[i]).0 == k
    }

    /// The position of the entry keyed `k` (meaningful when `contains_spec`
    /// holds and keys are unique).
    pub open spec fn index_of(self, k: DefId) -> int {
        choose|i: int| 0 <= i < self.entries@.len() && (#[trigger] self.entries@[i]).0 == k
    }

    /// The graph cached under `k`.
    pub open spec fn at(self, k: DefId) -> Graph {
        self.entries@[self.index_of(k)].1
    }

    /// With unique keys, an entry's position is pinned by its key.
    pub proof fn lemma_index(self, i: int)
        requires
            self.wf(),
            0 <= i < self.entries@.len(),
        ensures
            self.contains_spec(self.entries@[i].0),
            self.index_of(self.entries@[i].0) == i,
            self.at(self.entries@[i].0) == self.entries@[i].1,
    {
        let k = self.entries@[i].0;
        assert(self.contains_spec(k));
        let j = self.index_of(k);
        assert(0 <= j < self.entries@.len() && self.entries@[j].0 == k);
    }

    /// The empty cache.
    pub fn new() -> (r: GraphMap)
        ensures
            r.wf(),
            r.entries@.len() == 0,
    {
        GraphMap { entries: Vec::new() }
    }

    /// How many graphs are cached.
    pub fn len(&self) -> (n: usize)
        ensures
            n == self.entries@.len(),
    {
        self.entries.len()
    }

    /// The identifier of the cached entry at position `i`.
    pub fn key_at(&self, i: usize) -> (k: DefId)
        requires
            i < self.entries@.len(),
        ensures
            k == self.entries@[i as int].0,
    {
        self.entries[i].0
    }

    /// The graph of the cached entry at position `i`.
    pub fn graph_at(&self, i: usize) -> (g: &Graph)
        requires
            i < self.entries@.len(),
        ensures
            *g == self.entries@[i as int].1,
    {
        &self.entries[i].1
    }

    /// Whether a graph is cached under `k`.
    pub fn contains_key(&self, k: DefId) -> (r: bool)
        ensures
            r == self.contains_spec(k),
    {
        let n: usize = self.entries.len();
        let mut i: usize = 0;
        while i < n
            invariant
                i <= n,
                n == self.entries@.len(),
                forall|j: int| 0 <= j < i ==> (#[trigger] self.entries@[j]).0 != k,
            decreases n - i,
        {
            if self.entries[i].0 == k {
                return true;
            }
            i += 1;
        }
        false
    }

    /// The graph cached under `k`, if any.
    pub fn get(&self, k: DefId) -> (r: Option<&Graph>)
        requires
            self.wf(),
        ensures
            match r {
                Some(g) => self.contains_spec(k) && *g == self.at(k),
                None => !self.contains_spec(k),
            },
    {
        let n: usize = self.entries.len();
        let mut i: usize = 0;
        while i < n
            invariant
                i <= n,
                n == self.entries@.len(),
                self.wf(),
                forall|j: int| 0 <= j < i ==> (#[trigger] self.entries@[j]).0 != k,
            decreases n - i,
        {
            if self.entries[i].0 == k {
                proof {
                    self.lemma_index(i as int);
                }
                return Some(&self.entries[i].1);
            }
            i += 1;
        }
        None
    }

    /// Caches `g` under the fresh identifier `k`.
    pub fn insert(&mut self, k: DefId, g: Graph)
        requires
            old(self).wf(),
            !old(self).contains_spec(k),
        ensures
            final(self).wf(),
            final(self).entries@ == old(self).entries@.push((k, g)),
            forall|k2: DefId| #[trigger]
                final(self).contains_spec(k2) == (k2 == k || old(self).contains_spec(k2)),
            final(self).contains_spec(k),
            final(self).at(k) == g,
            forall|k2: DefId|
                old(self).contains_spec(k2) ==> #[trigger] final(self).at(k2) == old(self).at(k2),
    {
        let ghost prev = self.entries@;
        let ghost n = prev.len() as int;
        self.entries.push((k, g));
        proof {
            assert forall|j: int| 0 <= j < n implies (#[trigger] self.entries@[j]).0 != k by {
                if self.entries@[j].0 == k {
                    assert(prev[j].0 == k);
                    assert(old(self).contains_spec(k));
                }
            }
            assert forall|k2: DefId| #[trigger]
                self.contains_spec(k2) == (k2 == k || old(self).contains_spec(k2)) by {
                if self.contains_spec(k2) {
                    let i = choose|i: int|
                        0 <= i < self.entries@.len() && (#[trigger] self.entries@[i]).0 == k2;
                    if i < n {
                        assert(prev[i].0 == k2);
                        assert(old(self).contains_spec(k2));
                    } else {
                        assert(k2 == k);
                    }
                }
                if k2 == k {
                    assert(self.entries@[n].0 == k2);
                    assert(self.contains_spec(k2));
                }
                if old(self).contains_spec(k2) {
                    let i = choose|i: int| 0 <= i < prev.len() && (#[trigger] prev[i]).0 == k2;
                    assert(self.entries@[i].0 == k2);
                    assert(self.contains_spec(k2));
                }
            }
            self.lemma_index(n);
            assert(self.at(k) == g);
            assert forall|k2: DefId|
                old(self).contains_spec(k2) implies #[trigger] final(self).at(k2) == old(
                self,
            ).at(k2) by {
                let i = old(self).index_of(k2);
                assert(0 <= i < prev.len() && prev[i].0 == k2);
                assert(self.entries@[i].0 == k2);
                self.lemma_index(i);
                assert(old(self).at(k2) == prev[i].1);
            }
        }
    }

    /// Empties the cache.
    pub fn clear(&mut self)
        ensures
            final(self).wf(),
            final(self).entries@.len() == 0,
    {
        self.entries = Vec::new();
    }
}

/// The graph is exactly what a linear scan of this body yields for owner
/// `id`: all of the body's nodes, its edges in program order, and its
/// discovered closures.
pub open spec fn graph_matches(g: Graph, id: DefId, b: FnBody) -> bool {
    &&& g.wf()
    &&& g.def_id == id
    &&& g.span == b.span
    &&& g.arg_count == b.arg_count
    &&& g.nodes@.len() == b.local_count
    &&& g.edges@ == body_edges(b)
    &&& g.closures@ == body_closures(b, id)
}

/// Scans one body in program order into its graph.
fn build_one(def_id: DefId, body: &FnBody) -> (g: Graph)
    requires
        body_wf(*body),
    ensures
        graph_matches(g, def_id, *body),
{
    let mut g = Graph::new(def_id, body.span, body.arg_count, body.local_count);
    let nb: usize = body.blocks.len();
    let mut i: usize = 0;
    while i < nb
        invariant
            i <= nb,
            nb == body.blocks@.len(),
            body_wf(*body),
            g.wf(),
            g.def_id == def_id,
            g.span == body.span,
            g.arg_count == body.arg_count,
            g.nodes@.len() == body.local_count,
            g.edges@ =~= blocks_edges_prefix(body.blocks@, i as int),
            g.closures@ =~= blocks_closures_prefix(body.blocks@, i as int, def_id),
        decreases nb - i,
    {
        proof {
            assert(block_wf(body.blocks@[i as int], body.local_count as int));
        }
        let ns: usize = body.blocks[i].statements.len();
        let mut s: usize = 0;
        while s < ns
            invariant
                s <= ns,
                i < nb,
                nb == body.blocks@.len(),
                ns == body.blocks@[i as int].statements@.len(),
                body_wf(*body),
                block_wf(body.blocks@[i as int], body.local_count as int),
                g.wf(),
                g.def_id == def_id,
                g.span == body.span,
                g.arg_count == body.arg_count,
                g.nodes@.len() == body.local_count,
                g.edges@ =~= blocks_edges_prefix(body.blocks@, i as int) + stmts_edges_prefix(
                    body.blocks@[i as int].statements@,
                    s as int,
                ),
                g.closures@ =~= blocks_closures_prefix(body.blocks@, i as int, def_id),
            decreases ns - s,
        {
            g.add_statm_to_graph(&body.blocks[i].statements[s]);
            s += 1;
        }
        match &body.blocks[i].terminator {
            Some(t) => {
                g.add_terminator_to_graph(t);
            },
            None => (),
        }
        proof {
            assert(g.edges@ =~= blocks_edges_prefix(body.blocks@, i + 1));
            assert(g.closures@ =~= blocks_closures_prefix(body.blocks@, i + 1, def_id));
        }
        i += 1;
    }
    proof {
        assert(g.edges@ =~= body_edges(*body));
        assert(g.closures@ =~= body_closures(*body, def_id));
    }
    g
}

/// How many of the first `n` items of the unit have a body but no cached
/// graph yet.  The worklist of `build_graph` shrinks this measure.
pub open spec fn missing_count(unit: CompilationUnit, gm: GraphMap, n: int) -> int
    decreases n,
{
    if n <= 0 {
        0
    } else {
        missing_count(unit, gm, n - 1) + if unit.items@[n - 1].body is Some && !gm.contains_spec(
            unit.items@[n - 1].def_id,
        ) {
            1int
        } else {
            0int
        }
    }
}

proof fn lemma_missing_nonneg(unit: CompilationUnit, gm: GraphMap, n: int)
    ensures
        0 <= missing_count(unit, gm, n),
    decreases n,
{
    if n > 0 {
        lemma_missing_nonneg(unit, gm, n - 1);
    }
}

/// Caching one more available body lowers the measure by one exactly where
/// that item lies within the counted prefix.
proof fn lemma_missing_insert(
    unit: CompilationUnit,
    gm0: GraphMap,
    gm1: GraphMap,
    id: DefId,
    n: int,
)
    requires
        unit.wf(),
        0 <= n <= unit.items@.len(),
        forall|k: DefId| #[trigger] gm1.contains_spec(k) == (k == id || gm0.contains_spec(k)),
        !gm0.contains_spec(id),
        unit.contains_id(id),
    ensures
        missing_count(unit, gm1, n) == missing_count(unit, gm0, n) - (
        if unit.index_of(id) < n && unit.items@[unit.index_of(id)].body is Some {
            1int
        } else {
            0int
        }),
    decreases n,
{
    if n > 0 {
        lemma_missing_insert(unit, gm0, gm1, id, n - 1);
        let p = n - 1;
        unit.lemma_index_unique(p);
        if unit.items@[p].def_id == id {
            assert(unit.index_of(id) == p);
        } else {
            assert(gm1.contains_spec(unit.items@[p].def_id) == (unit.items@[p].def_id == id
                || gm0.contains_spec(unit.items@[p].def_id)));
        }
    }
}

/// The data-flow analysis: owns the unit handed over by the front end and
/// the cache of all built graphs.  `build_graphs` (or `start`/`run`) builds
/// the cache once; all query methods are pure reads against it.
#[derive(Debug)]
pub struct DataFlowAnalyzer {
    /// The compilation unit under analysis.
    pub unit: CompilationUnit,
    /// One graph per built function identifier; the analyzer is the only
    /// mutator, queries borrow immutably.
    pub graphs: GraphMap,
    /// Whether the host driver asked for the drawable debug export (rendered
    /// by the driver, outside the analytical path).
    pub debug: bool,
}

impl DataFlowAnalyzer {
    /// Every cached graph belongs to an item of the unit with an available
    /// body and is exactly the graph that body's scan yields.
    pub open spec fn cache_ok(self) -> bool {
        &&& self.unit.wf()
        &&& self.graphs.wf()
        &&& forall|i: int|
            0 <= i < self.graphs.entries@.len() ==> {
                let e = #[trigger] self.graphs.entries@[i];
                self.unit.has_body(e.0) && graph_matches(e.1, e.0, self.unit.body_of(e.0))
            }
    }

    /// Every closure a cached graph discovered is itself cached, unless its
    /// body is unavailable or it still sits on the worklist `pending`.
    pub open spec fn closures_built_except(self, pending: Seq<DefId>) -> bool {
        forall|i: int, j: int|
            0 <= i < self.graphs.entries@.len() && 0 <= j
                < self.graphs.entries@[i].1.closures@.len() && self.unit.has_body(
                #[trigger] self.graphs.entries@[i].1.closures@[j],
            ) ==> self.graphs.contains_spec(self.graphs.entries@[i].1.closures@[j])
                || pending.contains(self.graphs.entries@[i].1.closures@[j])
    }

    /// The analyzer's invariant: a consistent cache, closed under the
    /// closure-reference relation.
    pub open spec fn wf(self) -> bool {
        self.cache_ok() && self.closures_built_except(Seq::empty())
    }

    /// A fresh analyzer over one compilation unit, with an empty cache.
    pub fn new(unit: CompilationUnit, debug: bool) -> (r: DataFlowAnalyzer)
        requires
            unit.wf(),
        ensures
            r.wf(),
            r.unit == unit,
            r.debug == debug,
            r.graphs.entries@.len() == 0,
    {
        DataFlowAnalyzer { unit, graphs: GraphMap::new(), debug }
    }

    /// Builds the graph of `def_id` and, transitively, of every closure a
    /// built graph discovers, each at most once: an identifier already
    /// cached is never re-scanned, so no duplicate edges can arise.  An
    /// identifier without an available body is skipped.
    pub fn build_graph(&mut self, def_id: DefId)
        requires
            old(self).wf(),
        ensures
            final(self).wf(),
            final(self).unit == old(self).unit,
            final(self).debug == old(self).debug,
            old(self).graphs.entries@.is_prefix_of(final(self).graphs.entries@),
            forall|k: DefId|
                old(self).graphs.contains_spec(k) ==> #[trigger] final(self).graphs.contains_spec(
                    k,
                ) && final(self).graphs.at(k) == old(self).graphs.at(k),
            old(self).graphs.contains_spec(def_id) ==> final(self).graphs.entries@ == old(
                self,
            ).graphs.entries@,
            old(self).unit.has_body(def_id) ==> final(self).graphs.contains_spec(def_id),
    {
        let ghost n_items = self.unit.items@.len() as int;
        let mut pending: Vec<DefId> = Vec::new();
        pending.push(def_id);
        proof {
            lemma_missing_nonneg(self.unit, self.graphs, n_items);
            assert(pending@[0] == def_id);
            assert(pending@.contains(def_id));
        }
        while pending.len() > 0
            invariant
                self.cache_ok(),
                self.closures_built_except(pending@),
                self.unit == old(self).unit,
                self.debug == old(self).debug,
                n_items == self.unit.items@.len() as int,
                old(self).graphs.entries@.is_prefix_of(self.graphs.entries@),
                forall|k: DefId|
                    old(self).graphs.contains_spec(k) ==> #[trigger] self.graphs.contains_spec(k)
                        && self.graphs.at(k) == old(self).graphs.at(k),
                old(self).graphs.contains_spec(def_id) ==> (self.graphs.entries@ == old(
                    self,
                ).graphs.entries@ && forall|j: int|
                    0 <= j < pending@.len() ==> self.graphs.contains_spec(
                        #[trigger] pending@[j],
                    )),
                self.unit.has_body(def_id) ==> self.graphs.contains_spec(def_id)
                    || pending@.contains(def_id),
                0 <= missing_count(self.unit, self.graphs, n_items),
            decreases missing_count(self.unit, self.graphs, n_items), pending@.len(),
        {
            let ghost pending_before = pending@;
            let ghost self_before = *self;
            let id: DefId = pending.pop().unwrap();
            if !self.graphs.contains_key(id) {
                match self.unit.find_body(id) {
                    None => {
                        proof {
                            assert(!self.unit.has_body(id));
                            lemma_worklist_step_no_insert(
                                *self,
                                pending_before,
                                pending@,
                                id,
                                def_id,
                            );
                        }
                    },
                    Some(body) => {
                        let g = build_one(id, body);
                        let ghost gm0 = self.graphs;
                        let mut c: usize = 0;
                        let ncl: usize = g.closures.len();
                        while c < ncl
                            invariant
                                c <= ncl,
                                ncl == g.closures@.len(),
                                pending_before.len() >= 1,
                                pending@ == pending_before.subrange(
                                    0,
                                    pending_before.len() - 1,
                                ) + g.closures@.subrange(0, c as int),
                            decreases ncl - c,
                        {
                            pending.push(g.closures[c]);
                            proof {
                                assert(g.closures@.subrange(0, c + 1) =~= g.closures@.subrange(
                                    0,
                                    c as int,
                                ).push(g.closures@[c as int]));
                                assert(pending@ =~= pending_before.subrange(
                                    0,
                                    pending_before.len() - 1,
                                ) + g.closures@.subrange(0, c + 1));
                            }
                            c += 1;
                        }
                        proof {
                            assert(g.closures@.subrange(0, ncl as int) =~= g.closures@);
                        }
                        self.graphs.insert(id, g);
                        proof {
                            lemma_missing_insert(self.unit, gm0, self.graphs, id, n_items);
                            lemma_missing_nonneg(self.unit, self.graphs, n_items);
                            assert(self.unit.contains_id(id));
                            let ix = self.unit.index_of(id);
                            assert(0 <= ix < n_items && self.unit.items@[ix].def_id == id);
                            // the cache stays consistent: old entries are untouched, the
                            // new entry is the scan of its own body
                            let n0 = gm0.entries@.len() as int;
                            assert forall|i: int|
                                0 <= i < self.graphs.entries@.len() implies {
                                let e = #[trigger] self.graphs.entries@[i];
                                self.unit.has_body(e.0) && graph_matches(
                                    e.1,
                                    e.0,
                                    self.unit.body_of(e.0),
                                )
                            } by {
                                if i < n0 {
                                    assert(self.graphs.entries@[i] == gm0.entries@[i]);
                                } else {
                                    assert(self.graphs.entries@[i] == (id, g));
                                }
                            }
                            // monotonicity over the whole call so far
                            let old_len = old(self).graphs.entries@.len() as int;
                            assert forall|i: int| 0 <= i < old_len implies
                                self.graphs.entries@[i] == old(self).graphs.entries@[i] by {
                                assert(old(self).graphs.entries@[i] == gm0.entries@.subrange(
                                    0,
                                    old_len,
                                )[i]);
                                assert(gm0.entries@[i] == self.graphs.entries@[i]);
                            }
                            assert(old(self).graphs.entries@ =~= self.graphs.entries@.subrange(
                                0,
                                old_len,
                            ));
                            assert forall|k: DefId|
                                old(self).graphs.contains_spec(k) implies #[trigger]
                                self.graphs.contains_spec(k) && self.graphs.at(k) == old(
                                self,
                            ).graphs.at(k) by {
                                assert(gm0.contains_spec(k) && gm0.at(k) == old(self).graphs.at(
                                    k,
                                ));
                            }
                            lemma_worklist_step_insert(
                                DataFlowAnalyzer { unit: self.unit, graphs: gm0, debug: self.debug },
                                *self,
                                pending_before,
                                pending@,
                                id,
                                g,
                                def_id,
                            );
                        }
                    },
                }
            } else {
                proof {
                    lemma_worklist_step_no_insert(*self, pending_before, pending@, id, def_id);
                }
            }
        }
        proof {
            assert(pending@ =~= Seq::<DefId>::empty());
        }
    }

    /// Builds the graph of every function-like item of the unit that has a
    /// concrete body (closures included, directly or through discovery).
    /// Once this returns, the cache is closed under the closure-reference
    /// relation.
    pub fn build_graphs(&mut self)
        requires
            old(self).wf(),
        ensures
            final(self).wf(),
            final(self).unit == old(self).unit,
            final(self).debug == old(self).debug,
            forall|k: DefId|
                old(self).graphs.contains_spec(k) ==> #[trigger] final(self).graphs.contains_spec(
                    k,
                ) && final(self).graphs.at(k) == old(self).graphs.at(k),
            forall|id: DefId| #[trigger]
                old(self).unit.has_body(id) ==> final(self).graphs.contains_spec(id),
            forall|k: DefId| #[trigger]
                final(self).graphs.contains_spec(k) ==> final(self).unit.has_body(k),
    {
        let n: usize = self.unit.items.len();
        let mut i: usize = 0;
        while i < n
            invariant
                i <= n,
                n == self.unit.items@.len(),
                self.wf(),
                self.unit == old(self).unit,
                self.debug == old(self).debug,
                forall|k: DefId|
                    old(self).graphs.contains_spec(k) ==> #[trigger] self.graphs.contains_spec(k)
                        && self.graphs.at(k) == old(self).graphs.at(k),
                forall|j: int|
                    0 <= j < i && self.unit.items@[j].body is Some
                        ==> self.graphs.contains_spec(#[trigger] self.unit.items@[j].def_id),
            decreases n - i,
        {
            let has_body: bool = self.unit.items[i].body.is_some();
            if has_body {
                let id: DefId = self.unit.items[i].def_id;
                proof {
                    self.unit.lemma_index_unique(i as int);
                    assert(self.unit.has_body(id));
                }
                let ghost before = *self;
                self.build_graph(id);
                proof {
                    assert forall|j: int|
                        0 <= j < i + 1 && self.unit.items@[j].body is Some implies
                        self.graphs.contains_spec(#[trigger] self.unit.items@[j].def_id) by {
                        if j < i {
                            assert(before.graphs.contains_spec(self.unit.items@[j].def_id));
                        }
                    }
                    assert forall|k: DefId| old(self).graphs.contains_spec(k) implies #[trigger]
                        self.graphs.contains_spec(k) && self.graphs.at(k) == old(self).graphs.at(
                        k,
                    ) by {
                        assert(before.graphs.contains_spec(k));
                        assert(before.graphs.at(k) == old(self).graphs.at(k));
                        assert(self.graphs.contains_spec(k));
                        assert(self.graphs.at(k) == before.graphs.at(k));
                    }
                }
            }
            i += 1;
        }
        proof {
            assert forall|id: DefId| #[trigger] old(self).unit.has_body(id) implies
                self.graphs.contains_spec(id) by {
                let idx = self.unit.index_of(id);
                assert(0 <= idx < n && self.unit.items@[idx].def_id == id);
                assert(self.unit.items@[idx].body is Some);
            }
            assert forall|k: DefId| #[trigger] self.graphs.contains_spec(k) implies
                self.unit.has_body(k) by {
                let idx = self.graphs.index_of(k);
                assert(0 <= idx < self.graphs.entries@.len() && self.graphs.entries@[idx].0 == k);
            }
        }
    }

    /// Runs the whole-unit construction (the host driver's entry point; the
    /// drawable debug export is rendered by the driver afterwards).
    pub fn start(&mut self)
        requires
            old(self).wf(),
        ensures
            final(self).wf(),
            final(self).unit == old(self).unit,
            final(self).debug == old(self).debug,
            forall|id: DefId| #[trigger]
                old(self).unit.has_body(id) ==> final(self).graphs.contains_spec(id),
            forall|k: DefId| #[trigger]
                final(self).graphs.contains_spec(k) ==> final(self).unit.has_body(k),
    {
        self.build_graphs();
    }

    /// Same as `start`: builds every graph of the unit.
    pub fn run(&mut self)
        requires
            old(self).wf(),
        ensures
            final(self).wf(),
            final(self).unit == old(self).unit,
            final(self).debug == old(self).debug,
            forall|id: DefId| #[trigger]
                old(self).unit.has_body(id) ==> final(self).graphs.contains_spec(id),
            forall|k: DefId| #[trigger]
                final(self).graphs.contains_spec(k) ==> final(self).unit.has_body(k),
    {
        self.build_graphs();
    }

    /// Drops every cached graph.
    pub fn reset(&mut self)
        ensures
            final(self).unit == old(self).unit,
            final(self).debug == old(self).debug,
            final(self).graphs.entries@.len() == 0,
            old(self).unit.wf() ==> final(self).wf(),
    {
        self.graphs.clear();
    }

    /// The analysis' display name.
    pub fn name(&self) -> (r: &'static str)
        ensures
            r@ == "DataFlow Analysis"@,
    {
        "DataFlow Analysis"
    }

    /// A cached graph is consistent with its function's body: in particular
    /// its node count equals the body's declared local count, and its edges
    /// and closures are exactly what one scan of the body yields — so a
    /// second build of the same identifier could add nothing.
    pub proof fn lemma_cached_graph_ok(self, def_id: DefId)
        requires
            self.cache_ok(),
            self.graphs.contains_spec(def_id),
        ensures
            self.unit.has_body(def_id),
            graph_matches(self.graphs.at(def_id), def_id, self.unit.body_of(def_id)),
            self.graphs.at(def_id).wf(),
    {
        let i = self.graphs.index_of(def_id);
        assert(0 <= i < self.graphs.entries@.len() && self.graphs.entries@[i].0 == def_id);
        assert(self.unit.has_body(self.graphs.entries@[i].0));
    }

    /// The cache is closed under closure references: every closure a cached
    /// graph discovered is itself cached, unless its body is unavailable.
    pub proof fn lemma_closures_built(self, def_id: DefId, c: DefId)
        requires
            self.wf(),
            self.graphs.contains_spec(def_id),
            self.graphs.at(def_id).closures@.contains(c),
            self.unit.has_body(c),
        ensures
            self.graphs.contains_spec(c),
    {
        let i = self.graphs.index_of(def_id);
        assert(0 <= i < self.graphs.entries@.len() && self.graphs.entries@[i].0 == def_id);
        let j = choose|j: int|
            0 <= j < self.graphs.at(def_id).closures@.len() && self.graphs.at(
                def_id,
            ).closures@[j] == c;
        assert(self.graphs.entries@[i].1.closures@[j] == c);
        assert(!Seq::<DefId>::empty().contains(c));
    }

    /// The graph built for `def_id`, or `None` where that identifier was
    /// never built (unavailable body, or never discovered).
    pub fn get_fn_dataflow(&self, def_id: DefId) -> (r: Option<&Graph>)
        requires
            self.wf(),
        ensures
            match r {
                Some(g) => self.graphs.contains_spec(def_id) && *g == self.graphs.at(def_id),
                None => !self.graphs.contains_spec(def_id),
            },
    {
        self.graphs.get(def_id)
    }

    /// The whole-unit mapping from function identifier to graph, as a
    /// read-only handle.
    pub fn get_all_dataflow(&self) -> (r: &GraphMap)
        ensures
            *r == self.graphs,
    {
        &self.graphs
    }

    /// Whether data flows from `local1` to `local2` inside the function
    /// `def_id`.  Callers must have built the graph first.
    pub fn has_flow_between(&self, def_id: DefId, local1: Local, local2: Local) -> (r: bool)
        requires
            self.wf(),
            self.graphs.contains_spec(def_id),
            local1 < self.graphs.at(def_id).nodes@.len(),
            local2 < self.graphs.at(def_id).nodes@.len(),
        ensures
            r == connected(self.graphs.at(def_id).edges@, local1, local2, false),
    {
        proof {
            self.lemma_cached_graph_ok(def_id);
        }
        let g: &Graph = self.graphs.get(def_id).unwrap();
        g.is_connected(local1, local2)
    }

    /// The locals of function `def_id` holding the same logical value as
    /// `local`, closed transitively.  Callers must have built the graph
    /// first.
    pub fn collect_equivalent_locals(&self, def_id: DefId, local: Local) -> (r: Vec<Local>)
        requires
            self.wf(),
            self.graphs.contains_spec(def_id),
            local < self.graphs.at(def_id).nodes@.len(),
        ensures
            forall|i: int, j: int| 0 <= i < j < r@.len() ==> r@[i] < r@[j],
            forall|i: int|
                0 <= i < r@.len() ==> (#[trigger] r@[i]) < self.graphs.at(def_id).nodes@.len()
                    && self.graphs.at(def_id).equiv_member(local, r@[i], true),
            forall|l: Local|
                l < self.graphs.at(def_id).nodes@.len() && self.graphs.at(def_id).equiv_member(
                    local,
                    l,
                    true,
                ) ==> r@.contains(l),
    {
        proof {
            self.lemma_cached_graph_ok(def_id);
        }
        let g: &Graph = self.graphs.get(def_id).unwrap();
        g.collect_equivalent_locals(local, true)
    }

    /// The parameter-to-return summary of function `def_id`: entry `i` holds
    /// exactly the connectivity verdict `has_flow_between(def_id, i + 1, 0)`.
    /// Callers must have built the graph first.
    pub fn get_fn_arg2ret(&self, def_id: DefId) -> (r: Arg2Ret)
        requires
            self.wf(),
            self.graphs.contains_spec(def_id),
        ensures
            r@.len() == self.graphs.at(def_id).arg_count,
            forall|i: int|
                0 <= i < r@.len() ==> #[trigger] r@[i] == connected(
                    self.graphs.at(def_id).edges@,
                    (i + 1) as Local,
                    0,
                    false,
                ),
    {
        proof {
            self.lemma_cached_graph_ok(def_id);
        }
        let g: &Graph = self.graphs.get(def_id).unwrap();
        g.param_return_deps()
    }

    /// The parameter-to-return summaries of every built function, in cache
    /// order.
    pub fn get_all_arg2ret(&self) -> (r: Vec<(DefId, Arg2Ret)>)
        requires
            self.wf(),
        ensures
            r@.len() == self.graphs.entries@.len(),
            forall|i: int|
                0 <= i < r@.len() ==> (#[trigger] r@[i]).0 == self.graphs.entries@[i].0
                    && r@[i].1@.len() == self.graphs.entries@[i].1.arg_count && forall|p: int|
                    0 <= p < r@[i].1@.len() ==> r@[i].1@[p] == connected(
                        self.graphs.entries@[i].1.edges@,
                        (p + 1) as Local,
                        0,
                        false,
                    ),
    {
        let n: usize = self.graphs.len();
        let mut r: Vec<(DefId, Arg2Ret)> = Vec::new();
        let mut i: usize = 0;
        while i < n
            invariant
                i <= n,
                n == self.graphs.entries@.len(),
                self.wf(),
                r@.len() == i,
                forall|a: int|
                    0 <= a < i ==> (#[trigger] r@[a]).0 == self.graphs.entries@[a].0
                        && r@[a].1@.len() == self.graphs.entries@[a].1.arg_count && forall|p: int|
                        0 <= p < r@[a].1@.len() ==> r@[a].1@[p] == connected(
                            self.graphs.entries@[a].1.edges@,
                            (p + 1) as Local,
                            0,
                            false,
                        ),
            decreases n - i,
        {
            let id: DefId = self.graphs.key_at(i);
            let g: &Graph = self.graphs.graph_at(i);
            proof {
                assert(self.graphs.entries@[i as int].1.wf());
            }
            let deps: Arg2Ret = g.param_return_deps();
            r.push((id, deps));
            i += 1;
        }
        r
    }
}

/// One worklist step that caches nothing (the popped identifier was already
/// cached or has no body) keeps the relaxed closure invariant and the
/// progress guarantee.
proof fn lemma_worklist_step_no_insert(
    a: DataFlowAnalyzer,
    pending_before: Seq<DefId>,
    pending_after: Seq<DefId>,
    id: DefId,
    def_id: DefId,
)
    requires
        pending_before.len() >= 1,
        pending_before[pending_before.len() - 1] == id,
        pending_after == pending_before.subrange(0, pending_before.len() - 1),
        a.closures_built_except(pending_before),
        a.graphs.contains_spec(id) || !a.unit.has_body(id),
        a.unit.has_body(def_id) ==> a.graphs.contains_spec(def_id) || pending_before.contains(
            def_id,
        ),
    ensures
        a.closures_built_except(pending_after),
        a.unit.has_body(def_id) ==> a.graphs.contains_spec(def_id) || pending_after.contains(
            def_id,
        ),
{
    assert forall|i: int, j: int|
        0 <= i < a.graphs.entries@.len() && 0 <= j < a.graphs.entries@[i].1.closures@.len()
            && a.unit.has_body(#[trigger] a.graphs.entries@[i].1.closures@[j]) implies
        a.graphs.contains_spec(a.graphs.entries@[i].1.closures@[j]) || pending_after.contains(
        a.graphs.entries@[i].1.closures@[j],
    ) by {
        let c = a.graphs.entries@[i].1.closures@[j];
        if !a.graphs.contains_spec(c) {
            let idx = choose|idx: int|
                0 <= idx < pending_before.len() && pending_before[idx] == c;
            if idx < pending_before.len() - 1 {
                assert(pending_after[idx] == c);
            } else {
                assert(c == id);
                assert(false);
            }
        }
    }
    if a.unit.has_body(def_id) && !a.graphs.contains_spec(def_id) {
        let idx = choose|idx: int|
            0 <= idx < pending_before.len() && pending_before[idx] == def_id;
        if idx < pending_before.len() - 1 {
            assert(pending_after[idx] == def_id);
        } else {
            assert(def_id == id);
            assert(false);
        }
    }
}

/// One worklist step that caches the popped identifier's graph and enqueues
/// its discovered closures keeps the relaxed closure invariant and the
/// progress guarantee.
proof fn lemma_worklist_step_insert(
    pre: DataFlowAnalyzer,
    post: DataFlowAnalyzer,
    pending_before: Seq<DefId>,
    pending_after: Seq<DefId>,
    id: DefId,
    g: Graph,
    def_id: DefId,
)
    requires
        pre.unit == post.unit,
        pending_before.len() >= 1,
        pending_before[pending_before.len() - 1] == id,
        pending_after == pending_before.subrange(0, pending_before.len() - 1) + g.closures@,
        pre.closures_built_except(pending_before),
        post.graphs.entries@ == pre.graphs.entries@.push((id, g)),
        forall|k2: DefId| #[trigger]
            post.graphs.contains_spec(k2) == (k2 == id || pre.graphs.contains_spec(k2)),
        pre.unit.has_body(def_id) ==> pre.graphs.contains_spec(def_id) || pending_before.contains(
            def_id,
        ),
    ensures
        post.closures_built_except(pending_after),
        post.unit.has_body(def_id) ==> post.graphs.contains_spec(def_id)
            || pending_after.contains(def_id),
{
    let n0 = pre.graphs.entries@.len() as int;
    assert forall|i: int, j: int|
        0 <= i < post.graphs.entries@.len() && 0 <= j < post.graphs.entries@[i].1.closures@.len()
            && post.unit.has_body(#[trigger] post.graphs.entries@[i].1.closures@[j]) implies
        post.graphs.contains_spec(post.graphs.entries@[i].1.closures@[j])
            || pending_after.contains(post.graphs.entries@[i].1.closures@[j]) by {
        let c = post.graphs.entries@[i].1.closures@[j];
        if i < n0 {
            assert(post.graphs.entries@[i] == pre.graphs.entries@[i]);
            assert(pre.graphs.entries@[i].1.closures@[j] == c);
            if !pre.graphs.contains_spec(c) {
                let idx = choose|idx: int|
                    0 <= idx < pending_before.len() && pending_before[idx] == c;
                if idx < pending_before.len() - 1 {
                    assert(pending_after[idx] == c);
                } else {
                    assert(c == id);
                    assert(post.graphs.contains_spec(c));
                }
            } else {
                assert(post.graphs.contains_spec(c));
            }
        } else {
            assert(post.graphs.entries@[i] == (id, g));
            assert(pending_after[pending_before.len() - 1 + j] == c);
        }
    }
    if post.unit.has_body(def_id) && !post.graphs.contains_spec(def_id) {
        assert(!pre.graphs.contains_spec(def_id));
        let idx = choose|idx: int|
            0 <= idx < pending_before.len() && pending_before[idx] == def_id;
        if idx < pending_before.len() - 1 {
            assert(pending_after[idx] == def_id);
        } else {
            assert(def_id == id);
            assert(false);
        }
    }
}

} // verus!
