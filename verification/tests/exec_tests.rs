//! Behavioral tests: a small reference interpreter executes the lowered
//! stack-machine programs, checking short-circuit evaluation, loop
//! targets, the calling convention and global/local separation.

use minidecaf::ast::{Prog, Func, Stmt, Block, Expr, UnaryOp, BinaryOp, prog_fits};
use minidecaf::ir::{IrStmt, IrProg};
use minidecaf::emit::ast2ir;
use std::collections::HashMap;

fn var(name: &str) -> Expr {
    Expr::Var(name.to_string())
}

fn assign(name: &str, e: Expr) -> Expr {
    Expr::Assign(name.to_string(), Box::new(e))
}

fn bin(op: BinaryOp, l: Expr, r: Expr) -> Expr {
    Expr::Binary(op, Box::new(l), Box::new(r))
}

fn call_fn(ir: &IrProg, globals: &mut Vec<i32>, fi: usize, args: &[i32]) -> i32 {
    let f = &ir.funcs[fi];
    assert!(!f.is_decl, "called a bare declaration");
    assert_eq!(args.len(), f.param_cnt);
    let mut locals = vec![0i32; f.param_cnt + f.var_cnt];
    locals[..args.len()].copy_from_slice(args);
    let mut labels: HashMap<usize, usize> = HashMap::new();
    for (pos, s) in f.stmts.iter().enumerate() {
        if let IrStmt::Label(x) = s {
            labels.insert(*x, pos);
        }
    }
    let mut stack: Vec<i32> = Vec::new();
    let mut pc: usize = 0;
    loop {
        match &f.stmts[pc] {
            IrStmt::Ldc(x) => stack.push(*x),
            IrStmt::Unary(op) => {
                let x = stack.pop().unwrap();
                stack.push(match op {
                    UnaryOp::Neg => x.wrapping_neg(),
                    UnaryOp::BNot => !x,
                    UnaryOp::LNot => (x == 0) as i32,
                });
            }
            IrStmt::Binary(op) => {
                let r = stack.pop().unwrap();
                let l = stack.pop().unwrap();
                stack.push(match op {
                    BinaryOp::Add => l.wrapping_add(r),
                    BinaryOp::Sub => l.wrapping_sub(r),
                    BinaryOp::Mul => l.wrapping_mul(r),
                    BinaryOp::Div => l / r,
                    BinaryOp::Mod => l % r,
                    BinaryOp::Lt => (l < r) as i32,
                    BinaryOp::Le => (l <= r) as i32,
                    BinaryOp::Ge => (l >= r) as i32,
                    BinaryOp::Gt => (l > r) as i32,
                    BinaryOp::Eq => (l == r) as i32,
                    BinaryOp::Ne => (l != r) as i32,
                    BinaryOp::And => ((l != 0) && (r != 0)) as i32,
                    BinaryOp::Or => ((l != 0) || (r != 0)) as i32,
                });
            }
            IrStmt::Load(id) => stack.push(locals[*id]),
            IrStmt::Store(id) => {
                let v = stack.pop().unwrap();
                locals[*id] = v;
            }
            IrStmt::LoadGlobal(id) => stack.push(globals[*id]),
            IrStmt::StoreGlobal(id) => {
                let v = stack.pop().unwrap();
                globals[*id] = v;
            }
            IrStmt::Label(_) => {}
            IrStmt::Bz(x) => {
                if stack.pop().unwrap() == 0 {
                    pc = labels[x];
                }
            }
            IrStmt::Bnz(x) => {
                if stack.pop().unwrap() != 0 {
                    pc = labels[x];
                }
            }
            IrStmt::Jump(x) => pc = labels[x],
            IrStmt::Call(x) => {
                let callee_params = ir.funcs[*x].param_cnt;
                let mut args2 = vec![0i32; callee_params];
                for slot in (0..callee_params).rev() {
                    args2[slot] = stack.pop().unwrap();
                }
                let v = call_fn(ir, globals, *x, &args2);
                stack.push(v);
            }
            IrStmt::Pop => {
                stack.pop().unwrap();
            }
            IrStmt::Ret => return stack.pop().unwrap(),
        }
        pc += 1;
    }
}

fn run(p: &Prog) -> i32 {
    assert!(prog_fits(p));
    let ir = ast2ir(p).unwrap();
    let mut globals: Vec<i32> = ir.globs.iter().map(|g| g.1.unwrap_or(0)).collect();
    let main_idx = ir
        .funcs
        .iter()
        .position(|f| f.name == "main")
        .expect("no main");
    call_fn(&ir, &mut globals, main_idx, &[])
}

fn main_prog(stmts: Vec<Stmt>) -> Prog {
    Prog {
        funcs: vec![Func {
            name: "main".to_string(),
            params: vec![],
            stmts: Some(Stmt::Block(Block(stmts))),
        }],
        globs: vec![],
    }
}

#[test]
fn and_does_not_evaluate_right_when_left_is_zero() {
    // return 0 && 1/0; — the division would fault if it ever ran.
    let p = main_prog(vec![Stmt::Ret(bin(
        BinaryOp::And,
        Expr::Int(0),
        bin(BinaryOp::Div, Expr::Int(1), Expr::Int(0)),
    ))]);
    assert_eq!(run(&p), 0);
}

#[test]
fn or_does_not_evaluate_right_when_left_is_nonzero() {
    // return 7 || 1/0;
    let p = main_prog(vec![Stmt::Ret(bin(
        BinaryOp::Or,
        Expr::Int(7),
        bin(BinaryOp::Div, Expr::Int(1), Expr::Int(0)),
    ))]);
    assert_eq!(run(&p), 1);
}

#[test]
fn and_evaluates_right_when_left_is_nonzero() {
    let p = main_prog(vec![Stmt::Ret(bin(BinaryOp::And, Expr::Int(2), Expr::Int(5)))]);
    assert_eq!(run(&p), 1);
}

#[test]
fn for_continue_still_runs_update() {
    // int i; int n = 0;
    // for (i = 0; i < 3; i = i + 1) { if (i == 1) continue; n = n + 1; }
    // return i * 10 + n;  — i must reach 3, n counts two iterations.
    let p = main_prog(vec![
        Stmt::Def("i".to_string(), None),
        Stmt::Def("n".to_string(), Some(Expr::Int(0))),
        Stmt::For {
            init: Some(Box::new(Stmt::Expr(assign("i", Expr::Int(0))))),
            cond: Some(bin(BinaryOp::Lt, var("i"), Expr::Int(3))),
            update: Some(assign("i", bin(BinaryOp::Add, var("i"), Expr::Int(1)))),
            body: Box::new(Stmt::Block(Block(vec![
                Stmt::If(
                    bin(BinaryOp::Eq, var("i"), Expr::Int(1)),
                    Box::new(Stmt::Continue),
                    None,
                ),
                Stmt::Expr(assign("n", bin(BinaryOp::Add, var("n"), Expr::Int(1)))),
            ]))),
        },
        Stmt::Ret(bin(
            BinaryOp::Add,
            bin(BinaryOp::Mul, var("i"), Expr::Int(10)),
            var("n"),
        )),
    ]);
    assert_eq!(run(&p), 32);
}

#[test]
fn while_break_leaves_loop() {
    // int i = 0; while (1) { i = i + 1; if (i == 4) break; } return i;
    let p = main_prog(vec![
        Stmt::Def("i".to_string(), Some(Expr::Int(0))),
        Stmt::While(
            Expr::Int(1),
            Box::new(Stmt::Block(Block(vec![
                Stmt::Expr(assign("i", bin(BinaryOp::Add, var("i"), Expr::Int(1)))),
                Stmt::If(
                    bin(BinaryOp::Eq, var("i"), Expr::Int(4)),
                    Box::new(Stmt::Break),
                    None,
                ),
            ]))),
        ),
        Stmt::Ret(var("i")),
    ]);
    assert_eq!(run(&p), 4);
}

#[test]
fn do_while_runs_body_at_least_once() {
    // int i = 0; do i = i + 1; while (0); return i;
    let p = main_prog(vec![
        Stmt::Def("i".to_string(), Some(Expr::Int(0))),
        Stmt::DoWhile(
            Box::new(Stmt::Expr(assign("i", bin(BinaryOp::Add, var("i"), Expr::Int(1))))),
            Expr::Int(0),
        ),
        Stmt::Ret(var("i")),
    ]);
    assert_eq!(run(&p), 1);
}

#[test]
fn factorial_of_five_is_120() {
    // int fac(n) { return n <= 1 ? 1 : n * fac(n - 1); }
    // int main() { return fac(5); }
    let p = Prog {
        funcs: vec![
            Func {
                name: "fac".to_string(),
                params: vec!["n".to_string()],
                stmts: Some(Stmt::Block(Block(vec![Stmt::Ret(Expr::Condition(
                    Box::new(bin(BinaryOp::Le, var("n"), Expr::Int(1))),
                    Box::new(Expr::Int(1)),
                    Box::new(bin(
                        BinaryOp::Mul,
                        var("n"),
                        Expr::Call(
                            "fac".to_string(),
                            vec![bin(BinaryOp::Sub, var("n"), Expr::Int(1))],
                        ),
                    )),
                ))]))),
            },
            Func {
                name: "main".to_string(),
                params: vec![],
                stmts: Some(Stmt::Block(Block(vec![Stmt::Ret(Expr::Call(
                    "fac".to_string(),
                    vec![Expr::Int(5)],
                ))]))),
            },
        ],
        globs: vec![],
    };
    assert_eq!(run(&p), 120);
}

#[test]
fn nested_calls_preserve_caller_locals() {
    // int two(a, b) { return a + 2 * b; }
    // int main() { int x = 5; int y = two(x, 3); return x * 100 + y; }
    let p = Prog {
        funcs: vec![
            Func {
                name: "two".to_string(),
                params: vec!["a".to_string(), "b".to_string()],
                stmts: Some(Stmt::Block(Block(vec![Stmt::Ret(bin(
                    BinaryOp::Add,
                    var("a"),
                    bin(BinaryOp::Mul, Expr::Int(2), var("b")),
                ))]))),
            },
            Func {
                name: "main".to_string(),
                params: vec![],
                stmts: Some(Stmt::Block(Block(vec![
                    Stmt::Def("x".to_string(), Some(Expr::Int(5))),
                    Stmt::Def(
                        "y".to_string(),
                        Some(Expr::Call("two".to_string(), vec![var("x"), Expr::Int(3)])),
                    ),
                    Stmt::Ret(bin(
                        BinaryOp::Add,
                        bin(BinaryOp::Mul, var("x"), Expr::Int(100)),
                        var("y"),
                    )),
                ]))),
            },
        ],
        globs: vec![],
    };
    assert_eq!(run(&p), 511);
}

#[test]
fn global_seen_across_functions() {
    // int g = 1; int bump() { g = g + 10; return 0; }
    // int main() { int g = 5; bump(); return g * 100 + getg(); }
    // where getg reads the global.
    let p = Prog {
        funcs: vec![
            Func {
                name: "bump".to_string(),
                params: vec![],
                stmts: Some(Stmt::Block(Block(vec![Stmt::Ret(assign(
                    "g",
                    bin(BinaryOp::Add, var("g"), Expr::Int(10)),
                ))]))),
            },
            Func {
                name: "getg".to_string(),
                params: vec![],
                stmts: Some(Stmt::Block(Block(vec![Stmt::Ret(var("g"))]))),
            },
            Func {
                name: "main".to_string(),
                params: vec![],
                stmts: Some(Stmt::Block(Block(vec![
                    Stmt::Def("g".to_string(), Some(Expr::Int(5))),
                    Stmt::Expr(Expr::Call("bump".to_string(), vec![])),
                    Stmt::Ret(bin(
                        BinaryOp::Add,
                        bin(BinaryOp::Mul, var("g"), Expr::Int(100)),
                        Expr::Call("getg".to_string(), vec![]),
                    )),
                ]))),
            },
        ],
        globs: vec![("g".to_string(), Some(1))],
    };
    // the local g stays 5; the global went 1 -> 11
    assert_eq!(run(&p), 511);
}

#[test]
fn comparison_operators_compute() {
    // return (1<2) + (2<=2)*10 + (3>2)*100 + (2>=3)*1000 + (4==4)*10000 + (4!=4)*100000
    //        + (7%3)*1000000 + (9/2)*10000000;
    let sum = bin(
        BinaryOp::Add,
        bin(
            BinaryOp::Add,
            bin(
                BinaryOp::Add,
                bin(
                    BinaryOp::Add,
                    bin(
                        BinaryOp::Add,
                        bin(
                            BinaryOp::Add,
                            bin(BinaryOp::Lt, Expr::Int(1), Expr::Int(2)),
                            bin(
                                BinaryOp::Mul,
                                bin(BinaryOp::Le, Expr::Int(2), Expr::Int(2)),
                                Expr::Int(10),
                            ),
                        ),
                        bin(
                            BinaryOp::Mul,
                            bin(BinaryOp::Gt, Expr::Int(3), Expr::Int(2)),
                            Expr::Int(100),
                        ),
                    ),
                    bin(
                        BinaryOp::Mul,
                        bin(BinaryOp::Ge, Expr::Int(2), Expr::Int(3)),
                        Expr::Int(1000),
                    ),
                ),
                bin(
                    BinaryOp::Mul,
                    bin(BinaryOp::Eq, Expr::Int(4), Expr::Int(4)),
                    Expr::Int(10000),
                ),
            ),
            bin(
                BinaryOp::Mul,
                bin(BinaryOp::Ne, Expr::Int(4), Expr::Int(4)),
                Expr::Int(100000),
            ),
        ),
        bin(
            BinaryOp::Add,
            bin(
                BinaryOp::Mul,
                bin(BinaryOp::Mod, Expr::Int(7), Expr::Int(3)),
                Expr::Int(1000000),
            ),
            bin(
                BinaryOp::Mul,
                bin(BinaryOp::Div, Expr::Int(9), Expr::Int(2)),
                Expr::Int(10000000),
            ),
        ),
    );
    let p = main_prog(vec![Stmt::Ret(sum)]);
    assert_eq!(run(&p), 41010111);
}
