//! A verified data-flow graph engine for a function-level intermediate
//! representation.
//!
//! Per analyzed function the engine builds a graph whose nodes are the
//! function's locals and whose edges record direct data dependencies induced
//! by assignments, projections, dereferences and call argument/return
//! passing.  On top of the graph it answers pairwise reachability queries,
//! extracts copy-equivalence classes, and summarizes which formal parameters
//! may flow into the return value.
//!
//! The central guarantees are stated as contracts and proved:
//! - a built graph has one node per declared local, and every cached graph
//!   is exactly what one program-order scan of its body yields
//!   ([`analyzer::DataFlowAnalyzer::lemma_cached_graph_ok`]);
//! - connectivity queries decide the mathematical reachability relation
//!   [`reach::connected`], which is reflexive
//!   ([`reach::lemma_connected_reflexive`]);
//! - equivalence classes are contained in connectivity
//!   ([`reach::lemma_equiv_implies_connected`]);
//! - construction is memoized: building an already-cached identifier changes
//!   nothing, and after a build the cache is closed under discovered
//!   closures ([`analyzer::DataFlowAnalyzer::lemma_closures_built`]);
//! - the parameter-to-return summary agrees entry by entry with the
//!   connectivity query, both being specified by [`reach::connected`].

pub mod analyzer;
pub mod graph;
pub mod ir;
pub mod reach;
