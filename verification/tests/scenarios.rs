//! End-to-end scenarios: small functions given as basic blocks, checked
//! against the exact edges, connectivity verdicts and summaries the engine
//! must produce.

use rapx::analyzer::DataFlowAnalyzer;
use rapx::graph::{Edge, EdgeKind};
use rapx::ir::{BasicBlock, Callee, CompilationUnit, FnBody, FnItem, Operand, Rvalue, Span,
    Statement, Terminator};

fn span() -> Span {
    Span { lo: 0, hi: 100 }
}

/// `fn id(x: i32) -> i32 { x }`: one block, `_0 = move _1`, return.
fn identity_unit() -> CompilationUnit {
    CompilationUnit {
        items: vec![FnItem {
            def_id: 1,
            body: Some(FnBody {
                span: span(),
                arg_count: 1,
                local_count: 2,
                blocks: vec![BasicBlock {
                    statements: vec![Statement::Assign(0, Rvalue::Use(Operand::Move(1)))],
                    terminator: Some(Terminator::Return),
                }],
            }),
        }],
    }
}

#[test]
fn identity_has_single_edge_arg_to_return() {
    let mut a = DataFlowAnalyzer::new(identity_unit(), false);
    a.build_graphs();
    let g = a.get_fn_dataflow(1).expect("graph built");
    assert_eq!(g.edges.len(), 1);
    assert_eq!(g.edges[0], Edge { src: 1, dst: 0, kind: EdgeKind::Move });
    assert!(a.has_flow_between(1, 1, 0));
    assert_eq!(a.get_fn_arg2ret(1), vec![true]);
}

/// `fn unused(x: i32) -> i32 { 5 }`: `_0 = const`, the parameter feeds
/// nothing.
fn unused_param_unit() -> CompilationUnit {
    CompilationUnit {
        items: vec![FnItem {
            def_id: 2,
            body: Some(FnBody {
                span: span(),
                arg_count: 1,
                local_count: 2,
                blocks: vec![BasicBlock {
                    statements: vec![Statement::Assign(0, Rvalue::Use(Operand::Const))],
                    terminator: Some(Terminator::Return),
                }],
            }),
        }],
    }
}

#[test]
fn unused_param_yields_no_edge_and_false_summary() {
    let mut a = DataFlowAnalyzer::new(unused_param_unit(), false);
    a.build_graphs();
    let g = a.get_fn_dataflow(2).expect("graph built");
    assert!(g.edges.iter().all(|e| e.src != 1));
    assert_eq!(g.edges.len(), 0);
    assert!(!a.has_flow_between(2, 1, 0));
    assert_eq!(a.get_fn_arg2ret(2), vec![false]);
}

/// `_2 = callee(_1); _0 = _2`: the call wires `_1 -> _2`, the assignment
/// `_2 -> _0`; `_1` reaches `_0` by transitivity.
fn call_unit() -> CompilationUnit {
    CompilationUnit {
        items: vec![FnItem {
            def_id: 3,
            body: Some(FnBody {
                span: span(),
                arg_count: 1,
                local_count: 3,
                blocks: vec![
                    BasicBlock {
                        statements: vec![],
                        terminator: Some(Terminator::Call {
                            callee: Callee::Fn(99),
                            args: vec![Operand::Move(1)],
                            dest: 2,
                        }),
                    },
                    BasicBlock {
                        statements: vec![Statement::Assign(0, Rvalue::Use(Operand::Move(2)))],
                        terminator: Some(Terminator::Return),
                    },
                ],
            }),
        }],
    }
}

#[test]
fn call_argument_flows_to_return_transitively() {
    let mut a = DataFlowAnalyzer::new(call_unit(), false);
    a.build_graphs();
    let g = a.get_fn_dataflow(3).expect("graph built");
    assert_eq!(
        g.edges,
        vec![
            Edge { src: 1, dst: 2, kind: EdgeKind::CallArg },
            Edge { src: 2, dst: 0, kind: EdgeKind::Move },
        ]
    );
    assert!(a.has_flow_between(3, 1, 2));
    assert!(a.has_flow_between(3, 2, 0));
    assert!(a.has_flow_between(3, 1, 0));
    assert_eq!(a.get_fn_arg2ret(3), vec![true]);
}

/// A function invoking a local closure that captures `_1`: the closure's
/// identifier lands in the outer graph's closure set, and the closure's own
/// body is built under its own identifier.
fn closure_unit() -> CompilationUnit {
    CompilationUnit {
        items: vec![
            FnItem {
                def_id: 10,
                body: Some(FnBody {
                    span: span(),
                    arg_count: 1,
                    local_count: 3,
                    blocks: vec![BasicBlock {
                        statements: vec![],
                        terminator: Some(Terminator::Call {
                            callee: Callee::Closure(20),
                            args: vec![Operand::Copy(1)],
                            dest: 0,
                        }),
                    }],
                }),
            },
            FnItem {
                def_id: 20,
                body: Some(FnBody {
                    span: span(),
                    arg_count: 1,
                    local_count: 2,
                    blocks: vec![BasicBlock {
                        statements: vec![Statement::Assign(0, Rvalue::Use(Operand::Copy(1)))],
                        terminator: Some(Terminator::Return),
                    }],
                }),
            },
        ],
    }
}

#[test]
fn closure_is_recorded_and_built_under_its_own_id() {
    let mut a = DataFlowAnalyzer::new(closure_unit(), false);
    a.build_graphs();
    let outer = a.get_fn_dataflow(10).expect("outer graph built");
    assert_eq!(outer.closures, vec![20]);
    let inner = a.get_fn_dataflow(20).expect("closure graph built");
    assert_eq!(inner.def_id, 20);
    assert_eq!(inner.nodes.len(), 2);
    assert_eq!(a.get_fn_arg2ret(20), vec![true]);
}

/// A local that is only ever the target of arithmetic (never a pure
/// copy/move/projection) is equivalent to itself alone, though the operands
/// are still connected to it.
fn arithmetic_unit() -> CompilationUnit {
    CompilationUnit {
        items: vec![FnItem {
            def_id: 30,
            body: Some(FnBody {
                span: span(),
                arg_count: 2,
                local_count: 4,
                blocks: vec![BasicBlock {
                    statements: vec![
                        Statement::Assign(
                            3,
                            Rvalue::Compute(vec![Operand::Copy(1), Operand::Copy(2)]),
                        ),
                        Statement::Assign(0, Rvalue::Use(Operand::Move(3))),
                    ],
                    terminator: Some(Terminator::Return),
                }],
            }),
        }],
    }
}

#[test]
fn arithmetic_target_is_equivalent_only_to_itself() {
    let mut a = DataFlowAnalyzer::new(arithmetic_unit(), false);
    a.build_graphs();
    assert_eq!(a.collect_equivalent_locals(30, 3), vec![0, 3]);
    let g = a.get_fn_dataflow(30).expect("graph built");
    // seen from an operand, the computed local is connected but not
    // equivalent
    assert!(a.has_flow_between(30, 1, 3));
    assert_eq!(g.collect_equivalent_locals(1, true), vec![1]);
    assert_eq!(g.collect_equivalent_locals(2, true), vec![2]);
}

#[test]
fn arithmetic_only_target_without_copies_is_singleton() {
    // variant where the computed local is not copied onward at all
    let unit = CompilationUnit {
        items: vec![FnItem {
            def_id: 31,
            body: Some(FnBody {
                span: span(),
                arg_count: 2,
                local_count: 4,
                blocks: vec![BasicBlock {
                    statements: vec![Statement::Assign(
                        3,
                        Rvalue::Compute(vec![Operand::Copy(1), Operand::Copy(2)]),
                    )],
                    terminator: Some(Terminator::Return),
                }],
            }),
        }],
    };
    let mut a = DataFlowAnalyzer::new(unit, false);
    a.build_graphs();
    assert_eq!(a.collect_equivalent_locals(31, 3), vec![3]);
}
