//! The input model: one compilation unit of function-like items, each with an
//! optional body given as ordered basic blocks of statements and terminators.
//!
//! The host front end hands the engine these plain values; the engine never
//! looks at anything else.  Indices `0..=arg_count` of a body's locals denote
//! the return place (local 0) and the formal parameters; the remaining locals
//! are temporaries.

use vstd::prelude::*;

verus! {

/// Identifier of a function-like item (function, method, or closure).
pub type DefId = u64;

/// A storage slot within one function body.
pub type Local = usize;

/// Source span of a function body.
#[derive(Clone, Copy, Debug, PartialEq, Eq, Structural)]
pub struct Span {
    pub lo: u64,
    pub hi: u64,
}

/// A value read by a statement or passed to a call.
#[derive(Clone, Copy, Debug, PartialEq, Eq, Structural)]
pub enum Operand {
    /// Reads a local, leaving it live.
    Copy(Local),
    /// Reads a local and moves out of it.
    Move(Local),
    /// A constant; reads no local.
    Const,
}

/// Right-hand side of an assignment.
#[derive(Debug)]
pub enum Rvalue {
    /// Direct use of an operand.
    Use(Operand),
    /// Projection of a single field of a local.
    Field(Local),
    /// Dereference of a local.
    Deref(Local),
    /// Address of a local.
    AddressOf(Local),
    /// A computed value (arithmetic, comparison, ...) reading the given
    /// operands.
    Compute(Vec<Operand>),
}

/// One statement of a basic block.
#[derive(Debug)]
pub enum Statement {
    /// `dst = rvalue`.
    Assign(Local, Rvalue),
    /// A non-assignment effect statement; contributes no edges.
    Effect,
}

/// The callee operand of a call terminator.
#[derive(Clone, Copy, Debug, PartialEq, Eq, Structural)]
pub enum Callee {
    /// An ordinary function operand.
    Fn(DefId),
    /// A closure value; the closure is recorded for recursive analysis.
    Closure(DefId),
    /// An operand that resolves to no known function-like item.
    Opaque,
}

/// The terminator of a basic block.
#[derive(Debug)]
pub enum Terminator {
    /// A call: the caller-visible approximation wires every argument local to
    /// the destination local.
    Call { callee: Callee, args: Vec<Operand>, dest: Local },
    /// Return from the function; contributes no edges.
    Return,
    /// Any other control terminator (branch, unwind, ...); contributes no
    /// edges.
    Other,
}

/// One basic block: statements in program order, followed by at most one
/// terminator.
#[derive(Debug)]
pub struct BasicBlock {
    pub statements: Vec<Statement>,
    pub terminator: Option<Terminator>,
}

/// The body of one function-like item.
#[derive(Debug)]
pub struct FnBody {
    pub span: Span,
    pub arg_count: usize,
    pub local_count: usize,
    pub blocks: Vec<BasicBlock>,
}

/// A function-like item of the compilation unit.  `body` is `None` for
/// declared items without a concrete body (e.g. trait method declarations);
/// such items are skipped by the analyzer.
#[derive(Debug)]
pub struct FnItem {
    pub def_id: DefId,
    pub body: Option<FnBody>,
}

/// Everything the front end exposes of one compilation unit.
#[derive(Debug)]
pub struct CompilationUnit {
    pub items: Vec<FnItem>,
}

/// The operand reads no local outside `0..local_count`.
pub open spec fn operand_wf(o: Operand, local_count: int) -> bool {
    match o {
        Operand::Copy(l) => l < local_count,
        Operand::Move(l) => l < local_count,
        Operand::Const => true,
    }
}

/// The rvalue reads no local outside `0..local_count`.
pub open spec fn rvalue_wf(rv: Rvalue, local_count: int) -> bool {
    match rv {
        Rvalue::Use(o) => operand_wf(o, local_count),
        Rvalue::Field(l) => l < local_count,
        Rvalue::Deref(l) => l < local_count,
        Rvalue::AddressOf(l) => l < local_count,
        Rvalue::Compute(ops) => forall|i: int|
            0 <= i < ops@.len() ==> operand_wf(#[trigger] ops@[i], local_count),
    }
}

/// The statement mentions no local outside `0..local_count`.
pub open spec fn stmt_wf(s: Statement, local_count: int) -> bool {
    match s {
        Statement::Assign(dst, rv) => dst < local_count && rvalue_wf(rv, local_count),
        Statement::Effect => true,
    }
}

/// The terminator mentions no local outside `0..local_count`.
pub open spec fn term_wf(t: Terminator, local_count: int) -> bool {
    match t {
        Terminator::Call { callee, args, dest } => dest < local_count && forall|i: int|
            0 <= i < args@.len() ==> operand_wf(#[trigger] args@[i], local_count),
        Terminator::Return => true,
        Terminator::Other => true,
    }
}

/// Every statement and the terminator of the block stay within
/// `0..local_count`.
pub open spec fn block_wf(b: BasicBlock, local_count: int) -> bool {
    &&& forall|i: int|
        0 <= i < b.statements@.len() ==> stmt_wf(#[trigger] b.statements@[i], local_count)
    &&& match b.terminator {
        Some(t) => term_wf(t, local_count),
        None => true,
    }
}

/// The body's declared shape is consistent: the return place and all
/// parameters exist, and no statement or terminator mentions a local out of
/// range.
pub open spec fn body_wf(b: FnBody) -> bool {
    &&& b.arg_count < b.local_count
    &&& forall|i: int|
        0 <= i < b.blocks@.len() ==> block_wf(#[trigger] b.blocks@[i], b.local_count as int)
}

impl CompilationUnit {
    /// Item identifiers are unique and every available body is well formed.
    pub open spec fn wf(self) -> bool {
        &&& forall|i: int, j: int|
            0 <= i < j < self.items@.len() ==> #[trigger] self.items@[i].def_id != #[trigger] self.items@[j].def_id
        &&& forall|i: int|
            0 <= i < self.items@.len() ==> match #[trigger] self.items@[i].body {
                Some(b) => body_wf(b),
                None => true,
            }
    }

    /// Some item of the unit carries this identifier.
    pub open spec fn contains_id(self, id: DefId) -> bool {
        exists|i: int| 0 <= i < self.items@.len() && #[trigger] self.items@[i].def_id == id
    }

    /// The index of the item carrying `id` (meaningful when `contains_id`
    /// holds and identifiers are unique).
    pub open spec fn index_of(self, id: DefId) -> int {
        choose|i: int| 0 <= i < self.items@.len() && #[trigger] self.items@[i].def_id == id
    }

    /// The item carrying `id` has a concrete body.
    pub open spec fn has_body(self, id: DefId) -> bool {
        self.contains_id(id) && self.items@[self.index_of(id)].body is Some
    }

    /// The body of the item carrying `id`.
    pub open spec fn body_of(self, id: DefId) -> FnBody {
        self.items@[self.index_of(id)].body->0
    }

    /// Looks an identifier up and hands its body out, or `None` where the
    /// item is absent or body-less (missing data, not an error).
    pub fn find_body(&self, id: DefId) -> (r: Option<&FnBody>)
        requires
            self.wf(),
        ensures
            match r {
                Some(b) => self.has_body(id) && *b == self.body_of(id),
                None => !self.has_body(id),
            },
    {
        let n: usize = self.items.len();
        let mut i: usize = 0;
        while i < n
            invariant
                n == self.items@.len(),
                0 <= i <= n,
                self.wf(),
                forall|j: int| 0 <= j < i ==> #[trigger] self.items@[j].def_id != id,
            decreases n - i,
        {
            if self.items[i].def_id == id {
                proof {
                    self.lemma_index_unique(i as int);
                }
                return match &self.items[i].body {
                    Some(b) => Some(b),
                    None => None,
                };
            }
            i += 1;
        }
        proof {
            assert(!self.contains_id(id));
        }
        None
    }

    /// In a well-formed unit an identifier pins its item's index down.
    pub proof fn lemma_index_unique(self, i: int)
        requires
            self.wf(),
            0 <= i < self.items@.len(),
        ensures
            self.contains_id(self.items@[i].def_id),
            self.index_of(self.items@[i].def_id) == i,
    {
        let id = self.items@[i].def_id;
        assert(self.contains_id(id));
        let j = self.index_of(id);
        assert(0 <= j < self.items@.len() && self.items@[j].def_id == id);
    }
}

} // verus!
