//! Edge cases of the engine: missing bodies, empty units, edge direction,
//! equivalence-preserving kinds, closure bookkeeping, reset, and graph
//! metadata.

use rapx::analyzer::DataFlowAnalyzer;
use rapx::graph::{Edge, EdgeKind, Graph};
use rapx::ir::{BasicBlock, Callee, CompilationUnit, FnBody, FnItem, Operand, Rvalue, Span,
    Statement, Terminator};

fn span() -> Span {
    Span { lo: 7, hi: 9 }
}

fn body_with(blocks: Vec<BasicBlock>, arg_count: usize, local_count: usize) -> FnBody {
    FnBody { span: span(), arg_count, local_count, blocks }
}

#[test]
fn empty_unit_builds_nothing() {
    let mut a = DataFlowAnalyzer::new(CompilationUnit { items: vec![] }, false);
    a.build_graphs();
    assert_eq!(a.get_all_dataflow().len(), 0);
    assert!(a.get_fn_dataflow(1).is_none());
}

#[test]
fn item_without_body_is_skipped_silently() {
    let unit = CompilationUnit {
        items: vec![
            FnItem { def_id: 1, body: None },
            FnItem {
                def_id: 2,
                body: Some(body_with(
                    vec![BasicBlock {
                        statements: vec![Statement::Assign(0, Rvalue::Use(Operand::Copy(1)))],
                        terminator: Some(Terminator::Return),
                    }],
                    1,
                    2,
                )),
            },
        ],
    };
    let mut a = DataFlowAnalyzer::new(unit, false);
    a.build_graphs();
    assert!(a.get_fn_dataflow(1).is_none());
    assert!(a.get_fn_dataflow(2).is_some());
    assert_eq!(a.get_all_dataflow().len(), 1);
}

#[test]
fn closure_without_resolvable_body_is_recorded_but_not_built() {
    let unit = CompilationUnit {
        items: vec![FnItem {
            def_id: 1,
            body: Some(body_with(
                vec![BasicBlock {
                    statements: vec![],
                    terminator: Some(Terminator::Call {
                        callee: Callee::Closure(77),
                        args: vec![Operand::Copy(1)],
                        dest: 0,
                    }),
                }],
                1,
                2,
            )),
        }],
    };
    let mut a = DataFlowAnalyzer::new(unit, false);
    a.build_graphs();
    assert_eq!(a.get_fn_dataflow(1).expect("outer built").closures, vec![77]);
    assert!(a.get_fn_dataflow(77).is_none());
}

#[test]
fn edges_are_directional() {
    let unit = CompilationUnit {
        items: vec![FnItem {
            def_id: 1,
            body: Some(body_with(
                vec![BasicBlock {
                    statements: vec![Statement::Assign(0, Rvalue::Use(Operand::Copy(1)))],
                    terminator: Some(Terminator::Return),
                }],
                1,
                2,
            )),
        }],
    };
    let mut a = DataFlowAnalyzer::new(unit, false);
    a.build_graphs();
    assert!(a.has_flow_between(1, 1, 0));
    assert!(!a.has_flow_between(1, 0, 1));
}

#[test]
fn deref_and_address_of_connect_but_do_not_alias() {
    // _2 = *_1; _3 = &_1
    let unit = CompilationUnit {
        items: vec![FnItem {
            def_id: 1,
            body: Some(body_with(
                vec![BasicBlock {
                    statements: vec![
                        Statement::Assign(2, Rvalue::Deref(1)),
                        Statement::Assign(3, Rvalue::AddressOf(1)),
                    ],
                    terminator: Some(Terminator::Return),
                }],
                1,
                4,
            )),
        }],
    };
    let mut a = DataFlowAnalyzer::new(unit, false);
    a.build_graphs();
    let g = a.get_fn_dataflow(1).expect("graph built");
    assert_eq!(
        g.edges,
        vec![
            Edge { src: 1, dst: 2, kind: EdgeKind::Deref },
            Edge { src: 1, dst: 3, kind: EdgeKind::AddressOf },
        ]
    );
    assert!(a.has_flow_between(1, 1, 2));
    assert!(a.has_flow_between(1, 1, 3));
    assert_eq!(a.collect_equivalent_locals(1, 1), vec![1]);
}

#[test]
fn field_projection_is_equivalence_preserving() {
    // _2 = _1.f; _3 = _2
    let unit = CompilationUnit {
        items: vec![FnItem {
            def_id: 1,
            body: Some(body_with(
                vec![BasicBlock {
                    statements: vec![
                        Statement::Assign(2, Rvalue::Field(1)),
                        Statement::Assign(3, Rvalue::Use(Operand::Copy(2))),
                    ],
                    terminator: Some(Terminator::Return),
                }],
                1,
                4,
            )),
        }],
    };
    let mut a = DataFlowAnalyzer::new(unit, false);
    a.build_graphs();
    assert_eq!(a.collect_equivalent_locals(1, 1), vec![1, 2, 3]);
}

#[test]
fn one_hop_equivalence_stops_after_one_edge() {
    // copy chain _1 -> _2 -> _3
    let unit = CompilationUnit {
        items: vec![FnItem {
            def_id: 1,
            body: Some(body_with(
                vec![BasicBlock {
                    statements: vec![
                        Statement::Assign(2, Rvalue::Use(Operand::Copy(1))),
                        Statement::Assign(3, Rvalue::Use(Operand::Copy(2))),
                    ],
                    terminator: Some(Terminator::Return),
                }],
                1,
                4,
            )),
        }],
    };
    let mut a = DataFlowAnalyzer::new(unit, false);
    a.build_graphs();
    let g: &Graph = a.get_fn_dataflow(1).expect("graph built");
    assert_eq!(g.collect_equivalent_locals(1, false), vec![1, 2]);
    assert_eq!(g.collect_equivalent_locals(1, true), vec![1, 2, 3]);
}

#[test]
fn constant_call_arguments_contribute_no_edge() {
    let unit = CompilationUnit {
        items: vec![FnItem {
            def_id: 1,
            body: Some(body_with(
                vec![BasicBlock {
                    statements: vec![],
                    terminator: Some(Terminator::Call {
                        callee: Callee::Fn(50),
                        args: vec![Operand::Const, Operand::Copy(1), Operand::Const],
                        dest: 0,
                    }),
                }],
                1,
                2,
            )),
        }],
    };
    let mut a = DataFlowAnalyzer::new(unit, false);
    a.build_graphs();
    let g = a.get_fn_dataflow(1).expect("graph built");
    assert_eq!(g.edges, vec![Edge { src: 1, dst: 0, kind: EdgeKind::CallArg }]);
    // an ordinary function callee is not a closure and is not recorded
    assert!(g.closures.is_empty());
}

#[test]
fn repeated_closure_is_recorded_once() {
    let closure_body = |id: u64| FnItem {
        def_id: id,
        body: Some(body_with(
            vec![BasicBlock {
                statements: vec![Statement::Assign(0, Rvalue::Use(Operand::Copy(1)))],
                terminator: Some(Terminator::Return),
            }],
            1,
            2,
        )),
    };
    let unit = CompilationUnit {
        items: vec![
            FnItem {
                def_id: 1,
                body: Some(body_with(
                    vec![
                        BasicBlock {
                            statements: vec![],
                            terminator: Some(Terminator::Call {
                                callee: Callee::Closure(9),
                                args: vec![Operand::Copy(1)],
                                dest: 2,
                            }),
                        },
                        BasicBlock {
                            statements: vec![],
                            terminator: Some(Terminator::Call {
                                callee: Callee::Closure(9),
                                args: vec![Operand::Copy(2)],
                                dest: 0,
                            }),
                        },
                    ],
                    1,
                    3,
                )),
            },
            closure_body(9),
        ],
    };
    let mut a = DataFlowAnalyzer::new(unit, false);
    a.build_graphs();
    assert_eq!(a.get_fn_dataflow(1).expect("graph built").closures, vec![9]);
}

#[test]
fn own_identifier_never_enters_the_closure_set() {
    // a call whose callee operand is a closure value naming the function
    // itself: memoization handles recursion, the closure list stays clean
    let unit = CompilationUnit {
        items: vec![FnItem {
            def_id: 5,
            body: Some(body_with(
                vec![BasicBlock {
                    statements: vec![],
                    terminator: Some(Terminator::Call {
                        callee: Callee::Closure(5),
                        args: vec![Operand::Copy(1)],
                        dest: 0,
                    }),
                }],
                1,
                2,
            )),
        }],
    };
    let mut a = DataFlowAnalyzer::new(unit, false);
    a.build_graphs();
    assert!(a.get_fn_dataflow(5).expect("graph built").closures.is_empty());
}

#[test]
fn nested_closures_are_built_transitively() {
    // function 1 invokes closure 2, whose body invokes closure 3
    let call_closure = |target: u64| BasicBlock {
        statements: vec![],
        terminator: Some(Terminator::Call {
            callee: Callee::Closure(target),
            args: vec![Operand::Copy(1)],
            dest: 0,
        }),
    };
    let unit = CompilationUnit {
        items: vec![
            FnItem { def_id: 1, body: Some(body_with(vec![call_closure(2)], 1, 2)) },
            FnItem { def_id: 2, body: Some(body_with(vec![call_closure(3)], 1, 2)) },
            FnItem {
                def_id: 3,
                body: Some(body_with(
                    vec![BasicBlock {
                        statements: vec![Statement::Assign(0, Rvalue::Use(Operand::Copy(1)))],
                        terminator: Some(Terminator::Return),
                    }],
                    1,
                    2,
                )),
            },
        ],
    };
    let mut a = DataFlowAnalyzer::new(unit, false);
    // one top-level build discovers and builds the whole chain
    a.build_graph(1);
    assert_eq!(a.get_fn_dataflow(1).expect("outer built").closures, vec![2]);
    assert_eq!(a.get_fn_dataflow(2).expect("middle built").closures, vec![3]);
    assert!(a.get_fn_dataflow(3).is_some());
    assert_eq!(a.get_all_dataflow().len(), 3);
}

#[test]
fn graph_records_span_and_counts() {
    let unit = CompilationUnit {
        items: vec![FnItem {
            def_id: 8,
            body: Some(body_with(vec![], 2, 6)),
        }],
    };
    let mut a = DataFlowAnalyzer::new(unit, false);
    a.build_graphs();
    let g = a.get_fn_dataflow(8).expect("graph built");
    assert_eq!(g.def_id, 8);
    assert_eq!(g.span, span());
    assert_eq!(g.arg_count, 2);
    assert_eq!(g.nodes.len(), 6);
    assert!(g.edges.is_empty());
}

#[test]
fn reset_drops_every_graph() {
    let unit = CompilationUnit {
        items: vec![FnItem {
            def_id: 8,
            body: Some(body_with(vec![], 2, 6)),
        }],
    };
    let mut a = DataFlowAnalyzer::new(unit, false);
    a.start();
    assert_eq!(a.get_all_dataflow().len(), 1);
    a.reset();
    assert_eq!(a.get_all_dataflow().len(), 0);
    assert!(a.get_fn_dataflow(8).is_none());
    // the unit is untouched: a new run rebuilds the graph
    a.run();
    assert_eq!(a.get_all_dataflow().len(), 1);
}

#[test]
fn analysis_name_is_stable() {
    let a = DataFlowAnalyzer::new(CompilationUnit { items: vec![] }, true);
    assert_eq!(a.name(), "DataFlow Analysis");
}

#[test]
fn self_loop_does_not_corrupt_connectivity() {
    // _1 = _1 + _1 (self-loop through a computed rvalue)
    let unit = CompilationUnit {
        items: vec![FnItem {
            def_id: 1,
            body: Some(body_with(
                vec![BasicBlock {
                    statements: vec![
                        Statement::Assign(
                            1,
                            Rvalue::Compute(vec![Operand::Copy(1), Operand::Copy(1)]),
                        ),
                        Statement::Assign(0, Rvalue::Use(Operand::Copy(1))),
                    ],
                    terminator: Some(Terminator::Return),
                }],
                1,
                2,
            )),
        }],
    };
    let mut a = DataFlowAnalyzer::new(unit, false);
    a.build_graphs();
    assert!(a.has_flow_between(1, 1, 1));
    assert!(a.has_flow_between(1, 1, 0));
    assert!(!a.has_flow_between(1, 0, 1));
    assert_eq!(a.get_fn_arg2ret(1), vec![true]);
}
