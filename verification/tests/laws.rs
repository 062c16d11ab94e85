//! Concrete checks of the engine's general guarantees: node totality,
//! reflexive reachability, memoization idempotence, closure closedness,
//! equivalence versus connectivity, and summary consistency.

use rapx::analyzer::DataFlowAnalyzer;
use rapx::ir::{BasicBlock, Callee, CompilationUnit, FnBody, FnItem, Operand, Rvalue, Span,
    Statement, Terminator};

/// A unit with three functions: one with plain copies and arithmetic, one
/// calling a closure, and the closure itself.
fn sample_unit() -> CompilationUnit {
    CompilationUnit {
        items: vec![
            FnItem {
                def_id: 1,
                body: Some(FnBody {
                    span: Span { lo: 0, hi: 40 },
                    arg_count: 2,
                    local_count: 5,
                    blocks: vec![
                        BasicBlock {
                            statements: vec![
                                Statement::Assign(3, Rvalue::Use(Operand::Copy(1))),
                                Statement::Assign(
                                    4,
                                    Rvalue::Compute(vec![Operand::Copy(3), Operand::Copy(2)]),
                                ),
                            ],
                            terminator: None,
                        },
                        BasicBlock {
                            statements: vec![Statement::Assign(0, Rvalue::Use(Operand::Move(4)))],
                            terminator: Some(Terminator::Return),
                        },
                    ],
                }),
            },
            FnItem {
                def_id: 2,
                body: Some(FnBody {
                    span: Span { lo: 40, hi: 80 },
                    arg_count: 1,
                    local_count: 3,
                    blocks: vec![BasicBlock {
                        statements: vec![Statement::Assign(2, Rvalue::Field(1))],
                        terminator: Some(Terminator::Call {
                            callee: Callee::Closure(3),
                            args: vec![Operand::Move(2)],
                            dest: 0,
                        }),
                    }],
                }),
            },
            FnItem {
                def_id: 3,
                body: Some(FnBody {
                    span: Span { lo: 50, hi: 70 },
                    arg_count: 1,
                    local_count: 2,
                    blocks: vec![BasicBlock {
                        statements: vec![Statement::Assign(0, Rvalue::Use(Operand::Const))],
                        terminator: Some(Terminator::Return),
                    }],
                }),
            },
        ],
    }
}

fn built_analyzer() -> DataFlowAnalyzer {
    let mut a = DataFlowAnalyzer::new(sample_unit(), false);
    a.build_graphs();
    a
}

#[test]
fn node_count_equals_declared_local_count() {
    let a = built_analyzer();
    let expected = [(1u64, 5usize), (2, 3), (3, 2)];
    for (id, locals) in expected {
        let g = a.get_fn_dataflow(id).expect("graph built");
        assert_eq!(g.nodes.len(), locals);
        for (i, node) in g.nodes.iter().enumerate() {
            assert_eq!(node.local, i);
        }
    }
}

#[test]
fn every_local_reaches_itself() {
    let a = built_analyzer();
    for id in [1u64, 2, 3] {
        let g = a.get_fn_dataflow(id).expect("graph built");
        for x in 0..g.nodes.len() {
            assert!(a.has_flow_between(id, x, x));
        }
    }
}

#[test]
fn rebuilding_a_cached_function_changes_nothing() {
    let mut a = built_analyzer();
    let edges_before = a.get_fn_dataflow(1).expect("graph built").edges.clone();
    let count_before = a.get_all_dataflow().len();
    a.build_graph(1);
    a.build_graph(1);
    assert_eq!(a.get_all_dataflow().len(), count_before);
    assert_eq!(a.get_fn_dataflow(1).expect("graph built").edges, edges_before);
}

#[test]
fn building_all_twice_changes_nothing() {
    let mut a = built_analyzer();
    let count_before = a.get_all_dataflow().len();
    let edges_before: Vec<_> = [1u64, 2, 3]
        .iter()
        .map(|id| a.get_fn_dataflow(*id).expect("graph built").edges.clone())
        .collect();
    a.build_graphs();
    assert_eq!(a.get_all_dataflow().len(), count_before);
    for (i, id) in [1u64, 2, 3].iter().enumerate() {
        assert_eq!(a.get_fn_dataflow(*id).expect("graph built").edges, edges_before[i]);
    }
}

#[test]
fn every_discovered_closure_with_a_body_is_cached() {
    let a = built_analyzer();
    for id in [1u64, 2, 3] {
        let closures = a.get_fn_dataflow(id).expect("graph built").closures.clone();
        for c in closures {
            assert!(a.get_fn_dataflow(c).is_some());
        }
    }
}

#[test]
fn equivalent_locals_are_connected() {
    let a = built_analyzer();
    for id in [1u64, 2, 3] {
        let n = a.get_fn_dataflow(id).expect("graph built").nodes.len();
        for x in 0..n {
            for l in a.collect_equivalent_locals(id, x) {
                assert!(a.has_flow_between(id, x, l));
            }
        }
    }
}

#[test]
fn arg_to_return_agrees_with_connectivity() {
    let a = built_analyzer();
    for id in [1u64, 2, 3] {
        let deps = a.get_fn_arg2ret(id);
        let arg_count = a.get_fn_dataflow(id).expect("graph built").arg_count;
        assert_eq!(deps.len(), arg_count);
        for (i, flows) in deps.iter().enumerate() {
            assert_eq!(*flows, a.has_flow_between(id, i + 1, 0));
        }
    }
}

#[test]
fn whole_unit_summary_covers_every_built_function() {
    let a = built_analyzer();
    let all = a.get_all_arg2ret();
    assert_eq!(all.len(), 3);
    for (id, deps) in all {
        assert_eq!(deps, a.get_fn_arg2ret(id));
    }
}

#[test]
fn sample_unit_exact_summaries() {
    let a = built_analyzer();
    // function 1: _3 = _1; _4 = _3 + _2; _0 = _4 — both parameters flow
    assert_eq!(a.get_fn_arg2ret(1), vec![true, true]);
    // function 2: _2 = _1.f; _0 = closure(_2) — the parameter flows
    assert_eq!(a.get_fn_arg2ret(2), vec![true]);
    // function 3 (the closure): _0 = const — the parameter does not flow
    assert_eq!(a.get_fn_arg2ret(3), vec![false]);
}
