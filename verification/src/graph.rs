//! The per-function data-flow graph: one node per local, directed edges for
//! the data dependencies a body's statements and terminators induce, and the
//! query API (connectivity, equivalence classes, parameter-to-return
//! summary).
//!
//! A graph is populated by one linear scan of its function's basic blocks and
//! read-only afterwards.  The spec functions in this module say exactly which
//! edges each statement and terminator contributes, in program order.

use vstd::prelude::*;

use crate::ir::{BasicBlock, Callee, DefId, FnBody, Local, Operand, Rvalue, Span, Statement,
    Terminator};
use crate::ir::{stmt_wf, term_wf};
use crate::reach::{connected, edges_in_bounds, has_edge, lemma_equiv_implies_connected,
    one_hop_from, reach_from};

verus! {

/// What kind of operation induced an edge.  The kind matters for equivalence
/// queries only; raw connectivity ignores it.
#[derive(Clone, Copy, Debug, PartialEq, Eq, Structural)]
pub enum EdgeKind {
    /// Direct copy of a local.
    Copy,
    /// Direct move of a local.
    Move,
    /// Projection of a single field of a local.
    Field,
    /// Dereference of a local.
    Deref,
    /// Address of a local.
    AddressOf,
    /// Operand of a computed rvalue (arithmetic, comparison, ...).
    Compute,
    /// Call argument wired to the call destination (the callee is opaque
    /// here, so every argument is assumed to influence the result).
    CallArg,
}

/// A directed data-dependency edge: a write to `dst` was computed using the
/// value of `src`.
#[derive(Clone, Copy, Debug, PartialEq, Eq, Structural)]
pub struct Edge {
    pub src: Local,
    pub dst: Local,
    pub kind: EdgeKind,
}

/// One entry per local of the owning function; the edges carry the
/// semantics, a node only records its identity.
#[derive(Clone, Copy, Debug, PartialEq, Eq, Structural)]
pub struct Node {
    pub local: Local,
}

/// The parameter-to-return summary: entry `i` says whether parameter local
/// `i + 1` can reach the return local 0.
pub type Arg2Ret = Vec<bool>;

/// The edge an operand contributes when read into `dst` with kind `k`: one
/// edge from the operand's local, none for a constant.
pub open spec fn operand_edges(o: Operand, dst: Local, k: EdgeKind) -> Seq<Edge> {
    match o {
        Operand::Copy(l) => seq![Edge { src: l, dst: dst, kind: k }],
        Operand::Move(l) => seq![Edge { src: l, dst: dst, kind: k }],
        Operand::Const => Seq::empty(),
    }
}

/// The edges the first `n` of the operands contribute, in order.
pub open spec fn operands_edges_prefix(ops: Seq<Operand>, n: int, dst: Local, k: EdgeKind) -> Seq<
    Edge,
>
    decreases n,
{
    if n <= 0 {
        Seq::empty()
    } else {
        operands_edges_prefix(ops, n - 1, dst, k) + operand_edges(ops[n - 1], dst, k)
    }
}

/// The edges an assignment's right-hand side contributes: one edge per local
/// it reads, tagged by its syntactic form.
pub open spec fn rvalue_edges(rv: Rvalue, dst: Local) -> Seq<Edge> {
    match rv {
        Rvalue::Use(o) => match o {
            Operand::Copy(l) => seq![Edge { src: l, dst: dst, kind: EdgeKind::Copy }],
            Operand::Move(l) => seq![Edge { src: l, dst: dst, kind: EdgeKind::Move }],
            Operand::Const => Seq::empty(),
        },
        Rvalue::Field(l) => seq![Edge { src: l, dst: dst, kind: EdgeKind::Field }],
        Rvalue::Deref(l) => seq![Edge { src: l, dst: dst, kind: EdgeKind::Deref }],
        Rvalue::AddressOf(l) => seq![Edge { src: l, dst: dst, kind: EdgeKind::AddressOf }],
        Rvalue::Compute(ops) => operands_edges_prefix(
            ops@,
            ops@.len() as int,
            dst,
            EdgeKind::Compute,
        ),
    }
}

/// The edges one statement contributes.
pub open spec fn stmt_edges(s: Statement) -> Seq<Edge> {
    match s {
        Statement::Assign(dst, rv) => rvalue_edges(rv, dst),
        Statement::Effect => Seq::empty(),
    }
}

/// The edges one terminator contributes: every argument local of a call is
/// wired to the call's destination; other terminators contribute nothing.
pub open spec fn term_edges(t: Terminator) -> Seq<Edge> {
    match t {
        Terminator::Call { callee, args, dest } => operands_edges_prefix(
            args@,
            args@.len() as int,
            dest,
            EdgeKind::CallArg,
        ),
        Terminator::Return => Seq::empty(),
        Terminator::Other => Seq::empty(),
    }
}

/// Records a discovered closure: the owner itself and closures already
/// recorded are not appended, so the closure list stays duplicate-free and
/// never names its own function.
pub open spec fn record_closure(cs: Seq<DefId>, owner: DefId, c: DefId) -> Seq<DefId> {
    if c == owner || cs.contains(c) {
        cs
    } else {
        cs.push(c)
    }
}

/// The closure list after scanning one terminator.
pub open spec fn term_closures(cs: Seq<DefId>, owner: DefId, t: Terminator) -> Seq<DefId> {
    match t {
        Terminator::Call { callee, args, dest } => match callee {
            Callee::Closure(c) => record_closure(cs, owner, c),
            Callee::Fn(f) => cs,
            Callee::Opaque => cs,
        },
        Terminator::Return => cs,
        Terminator::Other => cs,
    }
}

/// The edges the first `n` statements of a block contribute, in order.
pub open spec fn stmts_edges_prefix(ss: Seq<Statement>, n: int) -> Seq<Edge>
    decreases n,
{
    if n <= 0 {
        Seq::empty()
    } else {
        stmts_edges_prefix(ss, n - 1) + stmt_edges(ss[n - 1])
    }
}

/// The edges one basic block contributes: its statements in order, followed
/// by its terminator.
pub open spec fn block_edges(b: BasicBlock) -> Seq<Edge> {
    stmts_edges_prefix(b.statements@, b.statements@.len() as int) + match b.terminator {
        Some(t) => term_edges(t),
        None => Seq::empty(),
    }
}

/// The edges the first `n` basic blocks contribute, in order.
pub open spec fn blocks_edges_prefix(bs: Seq<BasicBlock>, n: int) -> Seq<Edge>
    decreases n,
{
    if n <= 0 {
        Seq::empty()
    } else {
        blocks_edges_prefix(bs, n - 1) + block_edges(bs[n - 1])
    }
}

/// Every edge a body contributes, in program order.
pub open spec fn body_edges(b: FnBody) -> Seq<Edge> {
    blocks_edges_prefix(b.blocks@, b.blocks@.len() as int)
}

/// The closure list after scanning one block.
pub open spec fn block_closures(cs: Seq<DefId>, owner: DefId, b: BasicBlock) -> Seq<DefId> {
    match b.terminator {
        Some(t) => term_closures(cs, owner, t),
        None => cs,
    }
}

/// The closure list after scanning the first `n` basic blocks.
pub open spec fn blocks_closures_prefix(bs: Seq<BasicBlock>, n: int, owner: DefId) -> Seq<DefId>
    decreases n,
{
    if n <= 0 {
        Seq::empty()
    } else {
        block_closures(blocks_closures_prefix(bs, n - 1, owner), owner, bs[n - 1])
    }
}

/// Every closure identifier a body's scan records, in discovery order.
pub open spec fn body_closures(b: FnBody, owner: DefId) -> Seq<DefId> {
    blocks_closures_prefix(b.blocks@, b.blocks@.len() as int, owner)
}

/// The data-flow graph of exactly one function.
#[derive(Debug)]
pub struct Graph {
    /// The owning function's identifier.
    pub def_id: DefId,
    /// The owning function's source span.
    pub span: Span,
    /// How many formal parameters the function has (locals `1..=arg_count`).
    pub arg_count: usize,
    /// One node per local, created before any edge is added.
    pub nodes: Vec<Node>,
    /// The data-dependency edges, in the order the scan added them.
    pub edges: Vec<Edge>,
    /// Closure identifiers discovered while scanning the body.
    pub closures: Vec<DefId>,
}

impl Graph {
    /// Internal consistency: the return place and all parameters have nodes,
    /// node `i` carries local `i`, every edge endpoint is a node of this
    /// graph, and the closure list is duplicate-free and never names the
    /// owner itself.
    pub open spec fn wf(self) -> bool {
        &&& self.arg_count < self.nodes@.len()
        &&& forall|i: int| 0 <= i < self.nodes@.len() ==> (#[trigger] self.nodes@[i]).local == i
        &&& edges_in_bounds(self.edges@, self.nodes@.len() as int)
        &&& !self.closures@.contains(self.def_id)
        &&& forall|i: int, j: int|
            0 <= i < j < self.closures@.len() ==> #[trigger] self.closures@[i] != #[trigger] self.closures@[j]
    }

    /// Allocates the graph of one function: `local_count` nodes with ids
    /// `0..local_count`, no edges, no closures.
    pub fn new(def_id: DefId, span: Span, arg_count: usize, local_count: usize) -> (g: Graph)
        requires
            arg_count < local_count,
        ensures
            g.wf(),
            g.def_id == def_id,
            g.span == span,
            g.arg_count == arg_count,
            g.nodes@.len() == local_count,
            g.edges@ =~= Seq::<Edge>::empty(),
            g.closures@ =~= Seq::<DefId>::empty(),
    {
        let mut nodes: Vec<Node> = Vec::new();
        let mut i: usize = 0;
        while i < local_count
            invariant
                i <= local_count,
                nodes@.len() == i,
                forall|j: int| 0 <= j < i ==> (#[trigger] nodes@[j]).local == j,
            decreases local_count - i,
        {
            nodes.push(Node { local: i });
            i += 1;
        }
        Graph { def_id, span, arg_count, nodes, edges: Vec::new(), closures: Vec::new() }
    }

    /// Appends the edge an operand contributes when read into `dst`.
    fn push_operand_edge(&mut self, o: Operand, dst: Local, kind: EdgeKind)
        requires
            old(self).wf(),
            crate::ir::operand_wf(o, old(self).nodes@.len() as int),
            dst < old(self).nodes@.len(),
        ensures
            final(self).wf(),
            final(self).def_id == old(self).def_id,
            final(self).span == old(self).span,
            final(self).arg_count == old(self).arg_count,
            final(self).nodes@ == old(self).nodes@,
            final(self).closures@ == old(self).closures@,
            final(self).edges@ =~= old(self).edges@ + operand_edges(o, dst, kind),
    {
        match o {
            Operand::Copy(l) => self.edges.push(Edge { src: l, dst: dst, kind: kind }),
            Operand::Move(l) => self.edges.push(Edge { src: l, dst: dst, kind: kind }),
            Operand::Const => (),
        }
    }

    /// Inspects one statement and appends the edges it induces: an
    /// assignment wires every local its right-hand side reads to the
    /// assigned local; effect statements contribute nothing.  Purely
    /// additive: existing edges are never removed.
    pub fn add_statm_to_graph(&mut self, stmt: &Statement)
        requires
            old(self).wf(),
            stmt_wf(*stmt, old(self).nodes@.len() as int),
        ensures
            final(self).wf(),
            final(self).def_id == old(self).def_id,
            final(self).span == old(self).span,
            final(self).arg_count == old(self).arg_count,
            final(self).nodes@ == old(self).nodes@,
            final(self).closures@ == old(self).closures@,
            final(self).edges@ =~= old(self).edges@ + stmt_edges(*stmt),
    {
        match stmt {
            Statement::Assign(dst, rv) => {
                let d: Local = *dst;
                match rv {
                    Rvalue::Use(o) => {
                        match o {
                            Operand::Copy(l) => {
                                self.edges.push(Edge { src: *l, dst: d, kind: EdgeKind::Copy });
                            },
                            Operand::Move(l) => {
                                self.edges.push(Edge { src: *l, dst: d, kind: EdgeKind::Move });
                            },
                            Operand::Const => (),
                        }
                    },
                    Rvalue::Field(l) => {
                        self.edges.push(Edge { src: *l, dst: d, kind: EdgeKind::Field });
                    },
                    Rvalue::Deref(l) => {
                        self.edges.push(Edge { src: *l, dst: d, kind: EdgeKind::Deref });
                    },
                    Rvalue::AddressOf(l) => {
                        self.edges.push(Edge { src: *l, dst: d, kind: EdgeKind::AddressOf });
                    },
                    Rvalue::Compute(ops) => {
                        self.push_operand_edges(ops, d, EdgeKind::Compute);
                    },
                }
            },
            Statement::Effect => (),
        }
    }

    /// Appends the edges a whole operand list contributes when read into
    /// `dst`, in order.
    fn push_operand_edges(&mut self, ops: &Vec<Operand>, dst: Local, kind: EdgeKind)
        requires
            old(self).wf(),
            forall|i: int|
                0 <= i < ops@.len() ==> crate::ir::operand_wf(
                    #[trigger] ops@[i],
                    old(self).nodes@.len() as int,
                ),
            dst < old(self).nodes@.len(),
        ensures
            final(self).wf(),
            final(self).def_id == old(self).def_id,
            final(self).span == old(self).span,
            final(self).arg_count == old(self).arg_count,
            final(self).nodes@ == old(self).nodes@,
            final(self).closures@ == old(self).closures@,
            final(self).edges@ =~= old(self).edges@ + operands_edges_prefix(
                ops@,
                ops@.len() as int,
                dst,
                kind,
            ),
    {
        let m: usize = ops.len();
        let mut k: usize = 0;
        while k < m
            invariant
                k <= m,
                m == ops@.len(),
                self.wf(),
                self.def_id == old(self).def_id,
                self.span == old(self).span,
                self.arg_count == old(self).arg_count,
                self.nodes@ == old(self).nodes@,
                self.closures@ == old(self).closures@,
                dst < self.nodes@.len(),
                forall|i: int|
                    0 <= i < ops@.len() ==> crate::ir::operand_wf(
                        #[trigger] ops@[i],
                        self.nodes@.len() as int,
                    ),
                self.edges@ =~= old(self).edges@ + operands_edges_prefix(
                    ops@,
                    k as int,
                    dst,
                    kind,
                ),
            decreases m - k,
        {
            self.push_operand_edge(ops[k], dst, kind);
            k += 1;
        }
    }

    /// Inspects one terminator: a call wires every argument local to the
    /// call's destination local (the callee's own locals are not visible
    /// here), and a closure callee is recorded for later recursive analysis.
    /// Non-call terminators contribute nothing.
    pub fn add_terminator_to_graph(&mut self, term: &Terminator)
        requires
            old(self).wf(),
            term_wf(*term, old(self).nodes@.len() as int),
        ensures
            final(self).wf(),
            final(self).def_id == old(self).def_id,
            final(self).span == old(self).span,
            final(self).arg_count == old(self).arg_count,
            final(self).nodes@ == old(self).nodes@,
            final(self).edges@ =~= old(self).edges@ + term_edges(*term),
            final(self).closures@ =~= term_closures(old(self).closures@, old(self).def_id, *term),
    {
        match term {
            Terminator::Call { callee, args, dest } => {
                let d: Local = *dest;
                self.push_operand_edges(args, d, EdgeKind::CallArg);
                match callee {
                    Callee::Closure(c) => {
                        let cid: DefId = *c;
                        if cid != self.def_id && !vec_contains_id(&self.closures, cid) {
                            self.closures.push(cid);
                        }
                    },
                    Callee::Fn(f) => (),
                    Callee::Opaque => (),
                }
            },
            Terminator::Return => (),
            Terminator::Other => (),
        }
    }
}

impl Graph {
    /// A local belongs to the equivalence class collected for `local`: with
    /// `transitive` the closure of the equivalence-preserving edges, without
    /// it only `local` itself and its direct equivalence successors.
    pub open spec fn equiv_member(self, local: Local, l: Local, transitive: bool) -> bool {
        if transitive {
            connected(self.edges@, local, l, true)
        } else {
            l == local || has_edge(self.edges@, local, l, true)
        }
    }

    /// Equivalence is contained in connectivity: every local of the
    /// transitive equivalence class of `local` is also reachable from
    /// `local` over the full edge relation, i.e. `is_connected` answers true
    /// for every member `collect_equivalent_locals` returns.
    pub proof fn lemma_equiv_member_is_connected(self, local: Local, l: Local)
        requires
            self.equiv_member(local, l, true),
        ensures
            connected(self.edges@, local, l, false),
    {
        lemma_equiv_implies_connected(self.edges@, local, l);
    }

    /// Directed reachability: data written to `local1` can flow to `local2`
    /// by following zero or more edges in their direction.
    pub fn is_connected(&self, local1: Local, local2: Local) -> (r: bool)
        requires
            self.wf(),
            local1 < self.nodes@.len(),
            local2 < self.nodes@.len(),
        ensures
            r == connected(self.edges@, local1, local2, false),
    {
        let vis = reach_from(&self.edges, self.nodes.len(), local1, false);
        vis[local2]
    }

    /// The locals holding the same logical value as `local` via pure
    /// copy/move/field-projection edges: one hop when `transitive` is false,
    /// the full closure when it is true.  The result lists each member once,
    /// in ascending order.
    pub fn collect_equivalent_locals(&self, local: Local, transitive: bool) -> (r: Vec<Local>)
        requires
            self.wf(),
            local < self.nodes@.len(),
        ensures
            forall|i: int, j: int| 0 <= i < j < r@.len() ==> r@[i] < r@[j],
            forall|i: int|
                0 <= i < r@.len() ==> (#[trigger] r@[i]) < self.nodes@.len()
                    && self.equiv_member(local, r@[i], transitive),
            forall|l: Local|
                l < self.nodes@.len() && self.equiv_member(local, l, transitive)
                    ==> r@.contains(l),
    {
        let n: usize = self.nodes.len();
        let vis: Vec<bool> = if transitive {
            reach_from(&self.edges, n, local, true)
        } else {
            one_hop_from(&self.edges, n, local, true)
        };
        let mut r: Vec<Local> = Vec::new();
        let mut i: usize = 0;
        while i < n
            invariant
                i <= n,
                n == self.nodes@.len(),
                vis@.len() == n,
                forall|l: Local| l < n ==> #[trigger] vis@[l as int] == self.equiv_member(
                    local,
                    l,
                    transitive,
                ),
                forall|a: int, b: int| 0 <= a < b < r@.len() ==> r@[a] < r@[b],
                forall|a: int| 0 <= a < r@.len() ==> (#[trigger] r@[a]) < i && vis@[r@[a] as int],
                forall|l: Local| l < i && #[trigger] vis@[l as int] ==> r@.contains(l),
            decreases n - i,
        {
            if vis[i] {
                let ghost prev = r@;
                r.push(i);
                proof {
                    assert(r@[prev.len() as int] == i);
                    assert forall|l: Local| l < i + 1 && #[trigger] vis@[l as int] implies
                        r@.contains(l) by {
                        if l < i {
                            let a = choose|a: int| 0 <= a < prev.len() && prev[a] == l;
                            assert(r@[a] == l);
                        } else {
                            assert(r@[prev.len() as int] == l);
                        }
                    }
                }
            }
            i += 1;
        }
        proof {
            assert forall|l: Local|
                l < self.nodes@.len() && self.equiv_member(local, l, transitive) implies
                r@.contains(l) by {
                assert(vis@[l as int]);
            }
        }
        r
    }

    /// For each parameter local `p` in `1..=arg_count`, whether data flows
    /// from `p` to the return local 0.  Entry `i` of the result speaks of
    /// parameter local `i + 1`.  Recomputed from the edges on demand, never
    /// stored.
    pub fn param_return_deps(&self) -> (r: Arg2Ret)
        requires
            self.wf(),
        ensures
            r@.len() == self.arg_count,
            forall|i: int|
                0 <= i < self.arg_count ==> #[trigger] r@[i] == connected(
                    self.edges@,
                    (i + 1) as Local,
                    0,
                    false,
                ),
    {
        let mut r: Vec<bool> = Vec::new();
        let mut p: usize = 0;
        while p < self.arg_count
            invariant
                p <= self.arg_count,
                self.wf(),
                r@.len() == p,
                forall|i: int|
                    0 <= i < p ==> #[trigger] r@[i] == connected(
                        self.edges@,
                        (i + 1) as Local,
                        0,
                        false,
                    ),
            decreases self.arg_count - p,
        {
            r.push(self.is_connected(p + 1, 0));
            p += 1;
        }
        r
    }
}

/// Linear membership test on a list of identifiers.
fn vec_contains_id(v: &Vec<DefId>, x: DefId) -> (r: bool)
    ensures
        r == v@.contains(x),
{
    let n: usize = v.len();
    let mut i: usize = 0;
    while i < n
        invariant
            i <= n,
            n == v@.len(),
            forall|j: int| 0 <= j < i ==> v@[j] != x,
        decreases n - i,
    {
        if v[i] == x {
            return true;
        }
        i += 1;
    }
    false
}

} // verus!
