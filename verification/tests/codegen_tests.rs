//! Assembly rendering tests: exact text for small programs, label
//! namespacing, the data section, and end-to-end determinism.

use minidecaf::ast::{Prog, Func, Stmt, Block, Expr, BinaryOp, prog_fits};
use minidecaf::ir::{IrStmt, IrFunc, IrProg};
use minidecaf::codegen::write_asm;
use minidecaf::compile;

#[test]
fn return_constant_renders_exactly() {
    let p = Prog {
        funcs: vec![Func {
            name: "main".to_string(),
            params: vec![],
            stmts: Some(Stmt::Block(Block(vec![Stmt::Ret(Expr::Int(42))]))),
        }],
        globs: vec![],
    };
    assert!(prog_fits(&p));
    let text = compile(&p).unwrap();
    let expected = "\
.global main
main:
  sd s0, -8(sp)
  sd ra, -16(sp)
  add s0, sp, 0
  add sp, sp, -16
  li t0, 42
  sd t0, -8(sp)
  add sp, sp, -8
  ld a0, 0(sp)
  mv sp, s0
  ld s0, -8(sp)
  ld ra, -16(sp)
  jr ra
";
    assert_eq!(text, expected);
}

#[test]
fn negative_constant_renders_with_sign() {
    let ir = IrProg {
        funcs: vec![IrFunc {
            name: "main".to_string(),
            param_cnt: 0,
            var_cnt: 0,
            is_decl: false,
            stmts: vec![IrStmt::Ldc(-2147483648), IrStmt::Ret],
        }],
        globs: vec![],
    };
    let text = write_asm(&ir);
    assert!(text.contains("  li t0, -2147483648\n"));
}

#[test]
fn labels_are_namespaced_per_function() {
    let mk = |name: &str| IrFunc {
        name: name.to_string(),
        param_cnt: 0,
        var_cnt: 0,
        is_decl: false,
        stmts: vec![
            IrStmt::Label(0),
            IrStmt::Jump(0),
            IrStmt::Ldc(0),
            IrStmt::Ret,
        ],
    };
    let ir = IrProg { funcs: vec![mk("f"), mk("g")], globs: vec![] };
    let text = write_asm(&ir);
    assert!(text.contains(".L.f.0:\n"));
    assert!(text.contains("  j .L.f.0\n"));
    assert!(text.contains(".L.g.0:\n"));
    assert!(text.contains("  j .L.g.0\n"));
}

#[test]
fn declarations_render_nothing() {
    let ir = IrProg {
        funcs: vec![IrFunc {
            name: "f".to_string(),
            param_cnt: 2,
            var_cnt: 0,
            is_decl: true,
            stmts: vec![],
        }],
        globs: vec![],
    };
    assert_eq!(write_asm(&ir), "");
}

#[test]
fn globals_get_a_data_section() {
    let ir = IrProg {
        funcs: vec![],
        globs: vec![("a".to_string(), Some(7)), ("b".to_string(), None)],
    };
    let text = write_asm(&ir);
    assert_eq!(text, ".data\na:\n  .quad 7\nb:\n  .quad 0\n");
}

#[test]
fn frame_offsets_follow_slot_counts() {
    // one parameter, one further local
    let ir = IrProg {
        funcs: vec![IrFunc {
            name: "f".to_string(),
            param_cnt: 1,
            var_cnt: 1,
            is_decl: false,
            stmts: vec![IrStmt::Load(0), IrStmt::Ret],
        }],
        globs: vec![],
    };
    let text = write_asm(&ir);
    let expected = "\
.global f
f:
  sd s0, -16(sp)
  sd ra, -24(sp)
  add s0, sp, 8
  add sp, sp, -24
  ld t0, -8(s0)
  sd t0, -8(sp)
  add sp, sp, -8
  ld a0, 0(sp)
  mv sp, s0
  ld s0, -24(sp)
  ld ra, -32(sp)
  jr ra
";
    assert_eq!(text, expected);
}

#[test]
fn calls_name_the_callee_and_push_the_result() {
    let ir = IrProg {
        funcs: vec![
            IrFunc {
                name: "helper".to_string(),
                param_cnt: 0,
                var_cnt: 0,
                is_decl: false,
                stmts: vec![IrStmt::Ldc(1), IrStmt::Ret],
            },
            IrFunc {
                name: "main".to_string(),
                param_cnt: 0,
                var_cnt: 0,
                is_decl: false,
                stmts: vec![IrStmt::Call(0), IrStmt::Ret],
            },
        ],
        globs: vec![],
    };
    let text = write_asm(&ir);
    assert!(text.contains("  jal helper\n  sd a0, -8(sp)\n  add sp, sp, -8\n"));
}

#[test]
fn compiling_twice_yields_identical_text() {
    let mk = || Prog {
        funcs: vec![Func {
            name: "main".to_string(),
            params: vec![],
            stmts: Some(Stmt::Block(Block(vec![
                Stmt::Def("x".to_string(), Some(Expr::Int(3))),
                Stmt::Ret(Expr::Binary(
                    BinaryOp::Add,
                    Box::new(Expr::Var("x".to_string())),
                    Box::new(Expr::Int(4)),
                )),
            ]))),
        }],
        globs: vec![("g".to_string(), Some(9))],
    };
    let p1 = mk();
    let p2 = mk();
    assert!(prog_fits(&p1));
    let a1 = compile(&p1).unwrap();
    let a2 = compile(&p2).unwrap();
    assert_eq!(a1, a2);
}

#[test]
fn binary_idioms_render_their_two_instruction_forms() {
    let ir = IrProg {
        funcs: vec![IrFunc {
            name: "main".to_string(),
            param_cnt: 0,
            var_cnt: 0,
            is_decl: false,
            stmts: vec![
                IrStmt::Ldc(1),
                IrStmt::Ldc(2),
                IrStmt::Binary(BinaryOp::Le),
                IrStmt::Ret,
            ],
        }],
        globs: vec![],
    };
    let text = write_asm(&ir);
    // not-greater-than computed as less-than with a boolean complement
    assert!(text.contains("  slt t0, t0, t1\n  xor t0, t0, 1\n"));
}
