use cyano::compiler::{Compiler, EmitError};
use cyano::ir::{
    AggregateKind, BasicBlockData, BinOp, Body, Definition, ItemId, Literal, Lvalue, Mutability,
    Operand, Program, Projection, ProjectionElem, Rvalue, Statement, Terminator,
};

fn id(index: u32, krate: u32) -> ItemId {
    ItemId { krate, index }
}

fn int_lit(v: u64) -> Operand {
    Operand::Constant(Literal::Integer(v))
}

fn body(
    arg_count: u32,
    var_count: u32,
    temp_count: u32,
    basic_blocks: Vec<BasicBlockData>,
) -> Body {
    Body { arg_count, var_count, temp_count, promoted_count: 0, upvar_count: 0, basic_blocks }
}

fn ret_block(stmts: Vec<Statement>) -> BasicBlockData {
    BasicBlockData { statements: stmts, terminator: Terminator::Return }
}

#[test]
fn straight_line_round_trip() {
    // One block: v0 = 2 + 3; r = v0; return r. The single case of the
    // dispatch loop computes 5 and returns it.
    let b = body(
        0,
        1,
        0,
        vec![ret_block(vec![
            Statement::Assign(Lvalue::Var(0), Rvalue::BinaryOp(BinOp::Add, int_lit(2), int_lit(3))),
            Statement::Assign(Lvalue::ReturnPointer, Rvalue::Use(Operand::Consume(Lvalue::Var(0)))),
        ])],
    );
    let c = Compiler::new(Program { defs: vec![Definition { id: id(0, 0), body: b }] });
    let out = c.finish(id(0, 0)).unwrap();
    assert_eq!(
        out,
        "function(){d0_0();function d0_0(){var g=0;var r,v0;t:while(true){switch(g){\
         case 0:v0=(2)+(3);r=v0;return r;break;}}}}()"
    );
}

#[test]
fn emission_is_deterministic() {
    let b = body(
        0,
        1,
        0,
        vec![ret_block(vec![
            Statement::Assign(Lvalue::Var(0), Rvalue::BinaryOp(BinOp::Mul, int_lit(6), int_lit(7))),
        ])],
    );
    let c = Compiler::new(Program { defs: vec![Definition { id: id(0, 0), body: b }] });
    let first = c.finish(id(0, 0)).unwrap();
    let second = c.finish(id(0, 0)).unwrap();
    assert_eq!(first, second);
}

#[test]
fn branching_reaches_one_target() {
    // if (a0) goto 1 else goto 2; block 1 returns 1, block 2 returns 2.
    let b = body(
        1,
        0,
        0,
        vec![
            BasicBlockData {
                statements: vec![],
                terminator: Terminator::If {
                    cond: Operand::Consume(Lvalue::Arg(0)),
                    then_target: 1,
                    else_target: 2,
                },
            },
            ret_block(vec![Statement::Assign(Lvalue::ReturnPointer, Rvalue::Use(int_lit(1)))]),
            ret_block(vec![Statement::Assign(Lvalue::ReturnPointer, Rvalue::Use(int_lit(2)))]),
        ],
    );
    let c = Compiler::new(Program { defs: vec![Definition { id: id(0, 0), body: b }] });
    let out = c.finish(id(0, 0)).unwrap();
    assert_eq!(
        out,
        "function(){d0_0();function d0_0(a0,){var g=0;var r;t:while(true){switch(g){\
         case 0:if(a0){g=1;continue t;}else{g=2;continue t;}break;\
         case 1:r=1;return r;break;\
         case 2:r=2;return r;break;}}}}()"
    );
}

#[test]
fn mutable_reference_capsule_reaches_caller_storage() {
    // Caller: v0 = 1; t0 = &mut v0; t1 = d1_0(t0); return v0.
    // Callee: *a0 = 42. The capsule's set closure writes the caller's v0.
    let caller = body(
        0,
        1,
        2,
        vec![
            BasicBlockData {
                statements: vec![
                    Statement::Assign(Lvalue::Var(0), Rvalue::Use(int_lit(1))),
                    Statement::Assign(
                        Lvalue::Temp(0),
                        Rvalue::Ref(Mutability::Mutable, Lvalue::Var(0)),
                    ),
                ],
                terminator: Terminator::Call {
                    func: Operand::Constant(Literal::Item(id(1, 0))),
                    args: vec![Operand::Consume(Lvalue::Temp(0))],
                    destination: Some((Lvalue::Temp(1), 1)),
                },
            },
            ret_block(vec![Statement::Assign(
                Lvalue::ReturnPointer,
                Rvalue::Use(Operand::Consume(Lvalue::Var(0))),
            )]),
        ],
    );
    let callee = body(
        1,
        0,
        0,
        vec![ret_block(vec![Statement::Assign(
            Lvalue::Projection(Box::new(Projection {
                base: Lvalue::Arg(0),
                elem: ProjectionElem::Deref,
            })),
            Rvalue::Use(int_lit(42)),
        )])],
    );
    let c = Compiler::new(Program {
        defs: vec![
            Definition { id: id(0, 0), body: caller },
            Definition { id: id(1, 0), body: callee },
        ],
    });
    let out = c.finish(id(0, 0)).unwrap();
    assert_eq!(
        out,
        "function(){d0_0();\
         function d0_0(){var g=0;var r,v0,t0,t1;t:while(true){switch(g){\
         case 0:v0=1;t0={get:function(){return v0},set:function(x){v0=x}};\
         t1=d1_0(t0,);g=1;continue t;break;\
         case 1:r=v0;return r;break;}}}\
         function d1_0(a0,){var g=0;var r;t:while(true){switch(g){\
         case 0:a0.set(42);return r;break;}}}}()"
    );
}

#[test]
fn tagged_variant_switch_dispatches_on_tag() {
    // v0 = variant {tag 1, fields f0=10, f1=20}; switch on v0's tag.
    let b = body(
        0,
        1,
        0,
        vec![
            BasicBlockData {
                statements: vec![Statement::Assign(
                    Lvalue::Var(0),
                    Rvalue::Aggregate(
                        AggregateKind::Variant { tag: 1, fields: vec![0, 1] },
                        vec![int_lit(10), int_lit(20)],
                    ),
                )],
                terminator: Terminator::Switch {
                    discr: Lvalue::Var(0),
                    targets: vec![(0, 1), (1, 2)],
                },
            },
            ret_block(vec![Statement::Assign(Lvalue::ReturnPointer, Rvalue::Use(int_lit(100)))]),
            ret_block(vec![Statement::Assign(Lvalue::ReturnPointer, Rvalue::Use(int_lit(200)))]),
        ],
    );
    let c = Compiler::new(Program { defs: vec![Definition { id: id(0, 0), body: b }] });
    let out = c.finish(id(0, 0)).unwrap();
    assert_eq!(
        out,
        "function(){d0_0();function d0_0(){var g=0;var r,v0;t:while(true){switch(g){\
         case 0:v0={d:1,f0:10,f1:20};switch(v0.d){case 0:g=1;continue t;case 1:g=2;continue t;}break;\
         case 1:r=100;return r;break;\
         case 2:r=200;return r;break;}}}}()"
    );
}

#[test]
fn recursive_call_graph_emitted_once() {
    // d0_0 calls d1_0; d1_0 calls d0_0 back. Each definition appears exactly
    // once and emission terminates.
    let f = body(
        0,
        0,
        1,
        vec![
            BasicBlockData {
                statements: vec![],
                terminator: Terminator::Call {
                    func: Operand::Constant(Literal::Item(id(1, 0))),
                    args: vec![],
                    destination: Some((Lvalue::Temp(0), 1)),
                },
            },
            ret_block(vec![]),
        ],
    );
    let g = body(
        0,
        0,
        1,
        vec![
            BasicBlockData {
                statements: vec![],
                terminator: Terminator::Call {
                    func: Operand::Constant(Literal::Item(id(0, 0))),
                    args: vec![],
                    destination: Some((Lvalue::Temp(0), 1)),
                },
            },
            ret_block(vec![]),
        ],
    );
    let c = Compiler::new(Program {
        defs: vec![Definition { id: id(0, 0), body: f }, Definition { id: id(1, 0), body: g }],
    });
    let out = c.finish(id(0, 0)).unwrap();
    assert_eq!(out.matches("function d0_0(").count(), 1);
    assert_eq!(out.matches("function d1_0(").count(), 1);
}

#[test]
fn self_recursion_emitted_once() {
    let f = body(
        0,
        0,
        1,
        vec![
            BasicBlockData {
                statements: vec![],
                terminator: Terminator::Call {
                    func: Operand::Constant(Literal::Item(id(0, 0))),
                    args: vec![],
                    destination: Some((Lvalue::Temp(0), 1)),
                },
            },
            ret_block(vec![]),
        ],
    );
    let c = Compiler::new(Program { defs: vec![Definition { id: id(0, 0), body: f }] });
    let out = c.finish(id(0, 0)).unwrap();
    assert_eq!(out.matches("function d0_0(").count(), 1);
}

#[test]
fn unknown_callees_render_but_are_not_defined() {
    // A call to an item the program does not define still renders as a call
    // (the host environment supplies it); no definition is emitted for it.
    let f = body(
        0,
        0,
        1,
        vec![
            BasicBlockData {
                statements: vec![],
                terminator: Terminator::Call {
                    func: Operand::Constant(Literal::Item(id(9, 3))),
                    args: vec![],
                    destination: Some((Lvalue::Temp(0), 1)),
                },
            },
            ret_block(vec![]),
        ],
    );
    let c = Compiler::new(Program { defs: vec![Definition { id: id(0, 0), body: f }] });
    let out = c.finish(id(0, 0)).unwrap();
    assert!(out.contains("t0=d9_3();"));
    assert_eq!(out.matches("function d9_3(").count(), 0);
}

#[test]
fn indirect_call_aborts_with_no_output() {
    let b = body(
        0,
        1,
        0,
        vec![BasicBlockData {
            statements: vec![],
            terminator: Terminator::Call {
                func: Operand::Consume(Lvalue::Var(0)),
                args: vec![],
                destination: None,
            },
        }],
    );
    let c = Compiler::new(Program { defs: vec![Definition { id: id(0, 0), body: b }] });
    let r = c.finish(id(0, 0));
    assert_eq!(r.unwrap_err(), EmitError::IndirectCall { item: id(0, 0), block: 0 });
}

#[test]
fn promoted_slots_abort() {
    let mut b = body(0, 0, 0, vec![ret_block(vec![])]);
    b.promoted_count = 1;
    let c = Compiler::new(Program { defs: vec![Definition { id: id(0, 0), body: b }] });
    assert_eq!(c.finish(id(0, 0)).unwrap_err(), EmitError::Promoted { item: id(0, 0) });
}

#[test]
fn upvars_abort() {
    let mut b = body(0, 0, 0, vec![ret_block(vec![])]);
    b.upvar_count = 2;
    let c = Compiler::new(Program { defs: vec![Definition { id: id(0, 0), body: b }] });
    assert_eq!(c.finish(id(0, 0)).unwrap_err(), EmitError::Upvars { item: id(0, 0) });
}

#[test]
fn undefined_entry_aborts() {
    let c = Compiler::new(Program { defs: vec![] });
    assert_eq!(
        c.finish(id(0, 0)).unwrap_err(),
        EmitError::UndefinedEntry { entry: id(0, 0) }
    );
}

#[test]
fn unsupported_construct_in_callee_aborts_whole_emission() {
    // The entry is fine; a function it calls holds an indirect call. The
    // whole emission fails: no partial output.
    let f = body(
        0,
        0,
        1,
        vec![
            BasicBlockData {
                statements: vec![],
                terminator: Terminator::Call {
                    func: Operand::Constant(Literal::Item(id(1, 0))),
                    args: vec![],
                    destination: Some((Lvalue::Temp(0), 1)),
                },
            },
            ret_block(vec![]),
        ],
    );
    let g = body(
        0,
        1,
        0,
        vec![BasicBlockData {
            statements: vec![],
            terminator: Terminator::Call {
                func: Operand::Consume(Lvalue::Var(0)),
                args: vec![],
                destination: None,
            },
        }],
    );
    let c = Compiler::new(Program {
        defs: vec![Definition { id: id(0, 0), body: f }, Definition { id: id(1, 0), body: g }],
    });
    assert_eq!(
        c.finish(id(0, 0)).unwrap_err(),
        EmitError::IndirectCall { item: id(1, 0), block: 0 }
    );
}

#[test]
fn switch_int_emits_explicit_default() {
    let b = body(
        0,
        1,
        0,
        vec![
            BasicBlockData {
                statements: vec![],
                terminator: Terminator::SwitchInt {
                    discr: Operand::Consume(Lvalue::Var(0)),
                    targets: vec![(Literal::Integer(5), 1)],
                    otherwise: 2,
                },
            },
            ret_block(vec![]),
            ret_block(vec![]),
        ],
    );
    let c = Compiler::new(Program { defs: vec![Definition { id: id(0, 0), body: b }] });
    let out = c.finish(id(0, 0)).unwrap();
    assert!(out.contains("switch(v0){case 5:g=1;continue t;default:g=2;continue t;}"));
}

#[test]
fn drop_and_replace_lowerings() {
    let b = body(
        0,
        1,
        0,
        vec![
            BasicBlockData {
                statements: vec![],
                terminator: Terminator::Drop { location: Lvalue::Var(0), target: 1 },
            },
            BasicBlockData {
                statements: vec![],
                terminator: Terminator::DropAndReplace {
                    location: Lvalue::Var(0),
                    value: int_lit(7),
                    target: 2,
                },
            },
            ret_block(vec![]),
        ],
    );
    let c = Compiler::new(Program { defs: vec![Definition { id: id(0, 0), body: b }] });
    let out = c.finish(id(0, 0)).unwrap();
    assert!(out.contains("case 0:delete v0;g=1;continue t;break;"));
    assert!(out.contains("case 1:v0=7;g=2;continue t;break;"));
}

#[test]
fn resume_and_unreachable_lowerings() {
    let b = body(
        0,
        0,
        0,
        vec![
            BasicBlockData { statements: vec![], terminator: Terminator::Resume },
            BasicBlockData { statements: vec![], terminator: Terminator::Unreachable },
        ],
    );
    let c = Compiler::new(Program { defs: vec![Definition { id: id(0, 0), body: b }] });
    let out = c.finish(id(0, 0)).unwrap();
    assert!(out.contains("case 0:break;"));
    assert!(out.contains(
        "case 1:alert('Cyano error: Basic block terminated with unreachable.');break;"
    ));
}

#[test]
fn every_block_index_is_a_case_label() {
    let blocks: Vec<BasicBlockData> = (0..12)
        .map(|k| BasicBlockData {
            statements: vec![],
            terminator: Terminator::Goto { target: (k + 1) % 12 },
        })
        .collect();
    let c = Compiler::new(Program {
        defs: vec![Definition { id: id(0, 0), body: body(0, 0, 0, blocks) }],
    });
    let out = c.finish(id(0, 0)).unwrap();
    for k in 0..12 {
        assert_eq!(out.matches(&format!("case {}:", k)).count(), 1, "label {}", k);
    }
    assert!(out.contains("var g=0;"));
}
