//! Lowering tests: produced instruction sequences, scope resolution,
//! declaration merging, the return fallback and every error kind.

use minidecaf::ast::{Prog, Func, Stmt, Block, Expr, UnaryOp, BinaryOp, prog_fits};
use minidecaf::ir::{IrStmt, IrProg};
use minidecaf::errors::CompileError;
use minidecaf::emit::ast2ir;

fn var(name: &str) -> Expr {
    Expr::Var(name.to_string())
}

fn assign(name: &str, e: Expr) -> Expr {
    Expr::Assign(name.to_string(), Box::new(e))
}

fn bin(op: BinaryOp, l: Expr, r: Expr) -> Expr {
    Expr::Binary(op, Box::new(l), Box::new(r))
}

fn main_with(stmts: Vec<Stmt>) -> Prog {
    Prog {
        funcs: vec![Func {
            name: "main".to_string(),
            params: vec![],
            stmts: Some(Stmt::Block(Block(stmts))),
        }],
        globs: vec![],
    }
}

fn lower(stmts: Vec<Stmt>) -> Result<IrProg, CompileError> {
    let p = main_with(stmts);
    assert!(prog_fits(&p));
    ast2ir(&p)
}

#[test]
fn empty_program_lowers_to_empty_tables() {
    let p = Prog { funcs: vec![], globs: vec![] };
    assert!(prog_fits(&p));
    let ir = ast2ir(&p).unwrap();
    assert!(ir.funcs.is_empty());
    assert!(ir.globs.is_empty());
}

#[test]
fn empty_body_gets_return_fallback() {
    let ir = lower(vec![]).unwrap();
    assert_eq!(ir.funcs[0].stmts, vec![IrStmt::Ldc(0), IrStmt::Ret]);
    assert_eq!(ir.funcs[0].param_cnt, 0);
    assert_eq!(ir.funcs[0].var_cnt, 0);
    assert!(!ir.funcs[0].is_decl);
}

#[test]
fn trailing_expression_gets_return_fallback() {
    // `2;` ends the body, so `push 0; return` is appended.
    let ir = lower(vec![Stmt::Expr(Expr::Int(2))]).unwrap();
    assert_eq!(
        ir.funcs[0].stmts,
        vec![IrStmt::Ldc(2), IrStmt::Pop, IrStmt::Ldc(0), IrStmt::Ret]
    );
}

#[test]
fn explicit_return_gets_no_fallback() {
    let ir = lower(vec![Stmt::Ret(Expr::Int(5))]).unwrap();
    assert_eq!(ir.funcs[0].stmts, vec![IrStmt::Ldc(5), IrStmt::Ret]);
}

#[test]
fn nested_block_ending_in_return_gets_no_fallback() {
    // { { return 1; } } — the body's last statement is a block, but the
    // lowered code already ends in a return, so nothing is appended.
    let ir = lower(vec![Stmt::Block(Block(vec![Stmt::Ret(Expr::Int(1))]))]).unwrap();
    assert_eq!(ir.funcs[0].stmts, vec![IrStmt::Ldc(1), IrStmt::Ret]);
}

#[test]
fn unary_chain_lowering() {
    // return -!~7;
    let e = Expr::Unary(
        UnaryOp::Neg,
        Box::new(Expr::Unary(
            UnaryOp::LNot,
            Box::new(Expr::Unary(UnaryOp::BNot, Box::new(Expr::Int(7)))),
        )),
    );
    let ir = lower(vec![Stmt::Ret(e)]).unwrap();
    assert_eq!(
        ir.funcs[0].stmts,
        vec![
            IrStmt::Ldc(7),
            IrStmt::Unary(UnaryOp::BNot),
            IrStmt::Unary(UnaryOp::LNot),
            IrStmt::Unary(UnaryOp::Neg),
            IrStmt::Ret,
        ]
    );
}

#[test]
fn binary_operands_left_then_right() {
    // return 1 - 2;
    let ir = lower(vec![Stmt::Ret(bin(BinaryOp::Sub, Expr::Int(1), Expr::Int(2)))]).unwrap();
    assert_eq!(
        ir.funcs[0].stmts,
        vec![
            IrStmt::Ldc(1),
            IrStmt::Ldc(2),
            IrStmt::Binary(BinaryOp::Sub),
            IrStmt::Ret,
        ]
    );
}

#[test]
fn declaration_with_initializer_stores_then_counts() {
    // int a = 3; return a;
    let ir = lower(vec![
        Stmt::Def("a".to_string(), Some(Expr::Int(3))),
        Stmt::Ret(var("a")),
    ])
    .unwrap();
    assert_eq!(
        ir.funcs[0].stmts,
        vec![IrStmt::Ldc(3), IrStmt::Store(0), IrStmt::Load(0), IrStmt::Ret]
    );
    assert_eq!(ir.funcs[0].var_cnt, 1);
}

#[test]
fn assignment_stores_then_reloads() {
    // int a; a = 9;
    let ir = lower(vec![
        Stmt::Def("a".to_string(), None),
        Stmt::Expr(assign("a", Expr::Int(9))),
    ])
    .unwrap();
    assert_eq!(
        ir.funcs[0].stmts,
        vec![
            IrStmt::Ldc(9),
            IrStmt::Store(0),
            IrStmt::Load(0),
            IrStmt::Pop,
            IrStmt::Ldc(0),
            IrStmt::Ret,
        ]
    );
}

#[test]
fn inner_scope_shadows_outer_local() {
    // int x = 1; { int x; x = 2; } x = 3;
    let ir = lower(vec![
        Stmt::Def("x".to_string(), Some(Expr::Int(1))),
        Stmt::Block(Block(vec![
            Stmt::Def("x".to_string(), None),
            Stmt::Expr(assign("x", Expr::Int(2))),
        ])),
        Stmt::Expr(assign("x", Expr::Int(3))),
    ])
    .unwrap();
    assert_eq!(
        ir.funcs[0].stmts,
        vec![
            IrStmt::Ldc(1),
            IrStmt::Store(0),
            // inner x gets the next slot and hides the outer one
            IrStmt::Ldc(2),
            IrStmt::Store(1),
            IrStmt::Load(1),
            IrStmt::Pop,
            // after the block closes, the outer binding is back
            IrStmt::Ldc(3),
            IrStmt::Store(0),
            IrStmt::Load(0),
            IrStmt::Pop,
            IrStmt::Ldc(0),
            IrStmt::Ret,
        ]
    );
    assert_eq!(ir.funcs[0].var_cnt, 2);
}

#[test]
fn local_shadows_global() {
    // global x; main: int x; x = 2; — both writes must stay apart.
    let p = Prog {
        funcs: vec![Func {
            name: "main".to_string(),
            params: vec![],
            stmts: Some(Stmt::Block(Block(vec![
                Stmt::Expr(assign("x", Expr::Int(1))),
                Stmt::Def("x".to_string(), None),
                Stmt::Expr(assign("x", Expr::Int(2))),
            ]))),
        }],
        globs: vec![("x".to_string(), None)],
    };
    assert!(prog_fits(&p));
    let ir = ast2ir(&p).unwrap();
    assert_eq!(
        ir.funcs[0].stmts,
        vec![
            IrStmt::Ldc(1),
            IrStmt::StoreGlobal(0),
            IrStmt::LoadGlobal(0),
            IrStmt::Pop,
            IrStmt::Ldc(2),
            IrStmt::Store(0),
            IrStmt::Load(0),
            IrStmt::Pop,
            IrStmt::Ldc(0),
            IrStmt::Ret,
        ]
    );
}

#[test]
fn if_else_labels_and_branches() {
    // if (1) return 2; else return 3;
    let ir = lower(vec![Stmt::If(
        Expr::Int(1),
        Box::new(Stmt::Ret(Expr::Int(2))),
        Some(Box::new(Stmt::Ret(Expr::Int(3)))),
    )])
    .unwrap();
    assert_eq!(
        ir.funcs[0].stmts,
        vec![
            IrStmt::Ldc(1),
            IrStmt::Bz(0),
            IrStmt::Ldc(2),
            IrStmt::Ret,
            IrStmt::Jump(1),
            IrStmt::Label(0),
            IrStmt::Ldc(3),
            IrStmt::Ret,
            IrStmt::Label(1),
            IrStmt::Ldc(0),
            IrStmt::Ret,
        ]
    );
}

#[test]
fn while_loop_shape() {
    // while (0) ; — condition label, exit branch, back jump, exit label.
    let ir = lower(vec![Stmt::While(Expr::Int(0), Box::new(Stmt::Empty))]).unwrap();
    assert_eq!(
        ir.funcs[0].stmts,
        vec![
            IrStmt::Label(0),
            IrStmt::Ldc(0),
            IrStmt::Bz(1),
            IrStmt::Jump(0),
            IrStmt::Label(1),
            IrStmt::Ldc(0),
            IrStmt::Ret,
        ]
    );
}

#[test]
fn do_while_shape() {
    // do ; while (0);
    let ir = lower(vec![Stmt::DoWhile(Box::new(Stmt::Empty), Expr::Int(0))]).unwrap();
    assert_eq!(
        ir.funcs[0].stmts,
        vec![
            IrStmt::Label(0),
            IrStmt::Label(1),
            IrStmt::Ldc(0),
            IrStmt::Bnz(0),
            IrStmt::Label(2),
            IrStmt::Ldc(0),
            IrStmt::Ret,
        ]
    );
}

#[test]
fn for_continue_jumps_to_update_label() {
    // for (; 1; 7) continue; — continue targets the update label (1),
    // which stands before the update expression and the back jump.
    let ir = lower(vec![Stmt::For {
        init: None,
        cond: Some(Expr::Int(1)),
        update: Some(Expr::Int(7)),
        body: Box::new(Stmt::Continue),
    }])
    .unwrap();
    assert_eq!(
        ir.funcs[0].stmts,
        vec![
            IrStmt::Label(0),
            IrStmt::Ldc(1),
            IrStmt::Bz(2),
            IrStmt::Jump(1),
            IrStmt::Label(1),
            IrStmt::Ldc(7),
            IrStmt::Jump(0),
            IrStmt::Label(2),
            IrStmt::Ldc(0),
            IrStmt::Ret,
        ]
    );
}

#[test]
fn for_without_condition_pushes_one() {
    // for (;;) break;
    let ir = lower(vec![Stmt::For {
        init: None,
        cond: None,
        update: None,
        body: Box::new(Stmt::Break),
    }])
    .unwrap();
    assert_eq!(
        ir.funcs[0].stmts,
        vec![
            IrStmt::Label(0),
            IrStmt::Ldc(1),
            IrStmt::Bz(2),
            IrStmt::Jump(2),
            IrStmt::Label(1),
            IrStmt::Jump(0),
            IrStmt::Label(2),
            IrStmt::Ldc(0),
            IrStmt::Ret,
        ]
    );
}

#[test]
fn and_short_circuits_around_right_operand() {
    // return 0 && 1; — a zero left operand branches past the right one.
    let ir = lower(vec![Stmt::Ret(bin(BinaryOp::And, Expr::Int(0), Expr::Int(1)))]).unwrap();
    assert_eq!(
        ir.funcs[0].stmts,
        vec![
            IrStmt::Ldc(0),
            IrStmt::Bz(0),
            IrStmt::Ldc(1),
            IrStmt::Bz(0),
            IrStmt::Ldc(1),
            IrStmt::Jump(1),
            IrStmt::Label(0),
            IrStmt::Ldc(0),
            IrStmt::Label(1),
            IrStmt::Ret,
        ]
    );
}

#[test]
fn or_short_circuits_around_right_operand() {
    // return 1 || 0;
    let ir = lower(vec![Stmt::Ret(bin(BinaryOp::Or, Expr::Int(1), Expr::Int(0)))]).unwrap();
    assert_eq!(
        ir.funcs[0].stmts,
        vec![
            IrStmt::Ldc(1),
            IrStmt::Bnz(0),
            IrStmt::Ldc(0),
            IrStmt::Bnz(0),
            IrStmt::Ldc(0),
            IrStmt::Jump(1),
            IrStmt::Label(0),
            IrStmt::Ldc(1),
            IrStmt::Label(1),
            IrStmt::Ret,
        ]
    );
}

#[test]
fn ternary_lowering_shape() {
    // return 1 ? 2 : 3;
    let ir = lower(vec![Stmt::Ret(Expr::Condition(
        Box::new(Expr::Int(1)),
        Box::new(Expr::Int(2)),
        Box::new(Expr::Int(3)),
    ))])
    .unwrap();
    assert_eq!(
        ir.funcs[0].stmts,
        vec![
            IrStmt::Ldc(1),
            IrStmt::Bz(0),
            IrStmt::Ldc(2),
            IrStmt::Jump(1),
            IrStmt::Label(0),
            IrStmt::Ldc(3),
            IrStmt::Label(1),
            IrStmt::Ret,
        ]
    );
}

#[test]
fn call_before_definition_resolves() {
    // main calls f although f is defined afterwards.
    let p = Prog {
        funcs: vec![
            Func {
                name: "main".to_string(),
                params: vec![],
                stmts: Some(Stmt::Block(Block(vec![Stmt::Ret(Expr::Call(
                    "f".to_string(),
                    vec![],
                ))]))),
            },
            Func {
                name: "f".to_string(),
                params: vec![],
                stmts: Some(Stmt::Block(Block(vec![Stmt::Ret(Expr::Int(4))]))),
            },
        ],
        globs: vec![],
    };
    assert!(prog_fits(&p));
    let ir = ast2ir(&p).unwrap();
    assert_eq!(ir.funcs[0].stmts, vec![IrStmt::Call(1), IrStmt::Ret]);
}

#[test]
fn definition_replaces_forward_declaration_in_place() {
    let p = Prog {
        funcs: vec![
            Func { name: "f".to_string(), params: vec!["a".to_string()], stmts: None },
            Func {
                name: "main".to_string(),
                params: vec![],
                stmts: Some(Stmt::Block(Block(vec![Stmt::Ret(Expr::Call(
                    "f".to_string(),
                    vec![Expr::Int(1)],
                ))]))),
            },
            Func {
                name: "f".to_string(),
                params: vec!["a".to_string()],
                stmts: Some(Stmt::Block(Block(vec![Stmt::Ret(var("a"))]))),
            },
        ],
        globs: vec![],
    };
    assert!(prog_fits(&p));
    let ir = ast2ir(&p).unwrap();
    // f keeps table slot 0 and is no longer a bare declaration
    assert_eq!(ir.funcs.len(), 2);
    assert_eq!(ir.funcs[0].name, "f");
    assert!(!ir.funcs[0].is_decl);
    assert_eq!(ir.funcs[0].param_cnt, 1);
    assert_eq!(ir.funcs[1].name, "main");
    assert_eq!(ir.funcs[1].stmts, vec![IrStmt::Ldc(1), IrStmt::Call(0), IrStmt::Ret]);
}

#[test]
fn later_declaration_keeps_existing_definition() {
    let p = Prog {
        funcs: vec![
            Func {
                name: "f".to_string(),
                params: vec![],
                stmts: Some(Stmt::Block(Block(vec![Stmt::Ret(Expr::Int(4))]))),
            },
            Func { name: "f".to_string(), params: vec![], stmts: None },
        ],
        globs: vec![],
    };
    assert!(prog_fits(&p));
    let ir = ast2ir(&p).unwrap();
    assert_eq!(ir.funcs.len(), 1);
    assert!(!ir.funcs[0].is_decl);
}

#[test]
fn global_forward_reference_completed_once() {
    let p = Prog {
        funcs: vec![],
        globs: vec![("g".to_string(), None), ("g".to_string(), Some(7))],
    };
    assert!(prog_fits(&p));
    let ir = ast2ir(&p).unwrap();
    assert_eq!(ir.globs, vec![("g".to_string(), Some(7))]);
}

#[test]
fn duplicate_declaration_in_one_scope_is_rejected() {
    // { int a; int a; }
    let r = lower(vec![
        Stmt::Def("a".to_string(), None),
        Stmt::Def("a".to_string(), None),
    ]);
    assert!(matches!(r, Err(CompileError::DuplicateDeclaration(n)) if n == "a"));
}

#[test]
fn undefined_variable_is_rejected() {
    // { return b; }
    let r = lower(vec![Stmt::Ret(var("b"))]);
    assert!(matches!(r, Err(CompileError::UndefinedVariable(n)) if n == "b"));
}

#[test]
fn break_outside_loop_is_rejected() {
    // { break; }
    let r = lower(vec![Stmt::Break]);
    assert!(matches!(r, Err(CompileError::BreakOutsideLoop)));
}

#[test]
fn continue_outside_loop_is_rejected() {
    let r = lower(vec![Stmt::Continue]);
    assert!(matches!(r, Err(CompileError::ContinueOutsideLoop)));
}

#[test]
fn undefined_function_is_rejected() {
    let r = lower(vec![Stmt::Ret(Expr::Call("nope".to_string(), vec![]))]);
    assert!(matches!(r, Err(CompileError::UndefinedFunction(n)) if n == "nope"));
}

#[test]
fn second_function_definition_is_rejected() {
    let body = || Some(Stmt::Block(Block(vec![Stmt::Ret(Expr::Int(1))])));
    let p = Prog {
        funcs: vec![
            Func { name: "f".to_string(), params: vec![], stmts: body() },
            Func { name: "f".to_string(), params: vec![], stmts: body() },
        ],
        globs: vec![],
    };
    assert!(prog_fits(&p));
    let r = ast2ir(&p);
    assert!(matches!(r, Err(CompileError::ConflictingDefinition(n)) if n == "f"));
}

#[test]
fn second_global_initializer_is_rejected() {
    let p = Prog {
        funcs: vec![],
        globs: vec![("g".to_string(), Some(1)), ("g".to_string(), Some(2))],
    };
    assert!(prog_fits(&p));
    let r = ast2ir(&p);
    assert!(matches!(r, Err(CompileError::ConflictingDefinition(n)) if n == "g"));
}

#[test]
fn duplicate_parameter_is_rejected() {
    let p = Prog {
        funcs: vec![Func {
            name: "f".to_string(),
            params: vec!["a".to_string(), "a".to_string()],
            stmts: None,
        }],
        globs: vec![],
    };
    assert!(prog_fits(&p));
    let r = ast2ir(&p);
    assert!(matches!(r, Err(CompileError::DuplicateDeclaration(n)) if n == "a"));
}

#[test]
fn lowering_twice_is_byte_identical() {
    let mk = || {
        main_with(vec![
            Stmt::Def("a".to_string(), Some(Expr::Int(3))),
            Stmt::While(
                bin(BinaryOp::Lt, var("a"), Expr::Int(10)),
                Box::new(Stmt::Expr(assign("a", bin(BinaryOp::Add, var("a"), Expr::Int(1))))),
            ),
            Stmt::Ret(var("a")),
        ])
    };
    let p1 = mk();
    let p2 = mk();
    assert!(prog_fits(&p1));
    assert!(prog_fits(&p2));
    let ir1 = ast2ir(&p1).unwrap();
    let ir2 = ast2ir(&p2).unwrap();
    assert_eq!(ir1, ir2);
}

#[test]
fn error_messages_name_the_identifier() {
    let e = CompileError::UndefinedVariable("spam".to_string());
    assert_eq!(e.message(), "variable `spam` not defined in current context");
    let e2 = CompileError::BreakOutsideLoop;
    assert_eq!(e2.message(), "break out of loop");
}
