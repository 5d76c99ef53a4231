//! The syntax tree accepted by the compiler, together with a size measure.
//!
//! The tree is produced by a caller-supplied parser and is read-only here.
//! The size measure (`func_weight` and friends) over-approximates how many
//! local-variable slots and branch labels lowering a node can consume; the
//! lowering entry points require it to stay under `MAX_FUNC_WEIGHT` so that
//! the slot and label counters provably fit in machine integers.

use vstd::prelude::*;

verus! {

/// A whole translation unit: function declarations and global variables,
/// each global carrying an optional constant initializer.
#[derive(Debug)]
pub struct Prog {
    pub funcs: Vec<Func>,
    pub globs: Vec<(String, Option<i32>)>,
}

/// One function: its name, its parameter names in declaration order, and
/// its body. A missing body makes this a forward declaration.
#[derive(Debug)]
pub struct Func {
    pub name: String,
    pub params: Vec<String>,
    pub stmts: Option<Stmt>,
}

/// A statement of the source language.
#[derive(Debug)]
pub enum Stmt {
    Empty,
    Ret(Expr),
    Def(String, Option<Expr>),
    Expr(Expr),
    If(Expr, Box<Stmt>, Option<Box<Stmt>>),
    Block(Block),
    While(Expr, Box<Stmt>),
    DoWhile(Box<Stmt>, Expr),
    For {
        init: Option<Box<Stmt>>,
        cond: Option<Expr>,
        update: Option<Expr>,
        body: Box<Stmt>,
    },
    Continue,
    Break,
}

/// A brace-delimited statement list; entering one opens a lexical scope.
#[derive(Debug)]
pub struct Block(pub Vec<Stmt>);

/// The unary operators of the source language.
#[derive(Debug, Copy, Clone, PartialEq, Eq, Structural)]
pub enum UnaryOp {
    Neg,
    BNot,
    LNot,
}

/// The binary operators of the source language. `And` and `Or` are the
/// short-circuiting logical connectives; the rest evaluate both operands.
#[derive(Debug, Copy, Clone, PartialEq, Eq, Structural)]
pub enum BinaryOp {
    Add,
    Sub,
    Mul,
    Div,
    Lt,
    Le,
    Ge,
    Gt,
    Eq,
    Ne,
    And,
    Or,
    Mod,
}

/// An expression of the source language.
#[derive(Debug)]
pub enum Expr {
    Int(i32),
    Unary(UnaryOp, Box<Expr>),
    Binary(BinaryOp, Box<Expr>, Box<Expr>),
    Var(String),
    Assign(String, Box<Expr>),
    Condition(Box<Expr>, Box<Expr>, Box<Expr>),
    Call(String, Vec<Expr>),
}

/// Ceiling on `func_weight` accepted by the lowering entry points. It keeps
/// every slot and label counter, and every frame offset computed from them,
/// well inside `usize` and `u64` range even on 32-bit targets.
pub const MAX_FUNC_WEIGHT: u64 = 0x0100_0000;

/// Size measure of an expression: three units per tree node, which bounds
/// both the labels minted and the slots consumed while lowering it.
pub open spec fn expr_weight(e: Expr) -> nat
    decreases e,
{
    match e {
        Expr::Int(_) => 3,
        Expr::Unary(_, x) => 3 + expr_weight(*x),
        Expr::Binary(_, l, r) => 3 + expr_weight(*l) + expr_weight(*r),
        Expr::Var(_) => 3,
        Expr::Assign(_, r) => 3 + expr_weight(*r),
        Expr::Condition(c, t, f) => 3 + expr_weight(*c) + expr_weight(*t) + expr_weight(*f),
        Expr::Call(_, args) => 3 + expr_list_weight(args@),
    }
}

/// Combined size measure of a sequence of expressions.
pub open spec fn expr_list_weight(es: Seq<Expr>) -> nat
    decreases es,
{
    if es.len() == 0 {
        0
    } else {
        expr_weight(es[0]) + expr_list_weight(es.subrange(1, es.len() as int))
    }
}

/// Size measure of a statement; see `expr_weight`.
pub open spec fn stmt_weight(s: Stmt) -> nat
    decreases s,
{
    match s {
        Stmt::Empty => 3,
        Stmt::Ret(e) => 3 + expr_weight(e),
        Stmt::Def(_, init) => 3 + match init {
            Some(e) => expr_weight(e),
            None => 0,
        },
        Stmt::Expr(e) => 3 + expr_weight(e),
        Stmt::If(c, t, f) => 3 + expr_weight(c) + stmt_weight(*t) + match f {
            Some(s2) => stmt_weight(*s2),
            None => 0,
        },
        Stmt::Block(b) => 3 + stmt_list_weight(b.0@),
        Stmt::While(c, body) => 3 + expr_weight(c) + stmt_weight(*body),
        Stmt::DoWhile(body, c) => 3 + stmt_weight(*body) + expr_weight(c),
        Stmt::For { init, cond, update, body } => 3 + match init {
            Some(s2) => stmt_weight(*s2),
            None => 0,
        } + match cond {
            Some(e) => expr_weight(e),
            None => 0,
        } + match update {
            Some(e) => expr_weight(e),
            None => 0,
        } + stmt_weight(*body),
        Stmt::Continue => 3,
        Stmt::Break => 3,
    }
}

/// Combined size measure of a sequence of statements.
pub open spec fn stmt_list_weight(ss: Seq<Stmt>) -> nat
    decreases ss,
{
    if ss.len() == 0 {
        0
    } else {
        stmt_weight(ss[0]) + stmt_list_weight(ss.subrange(1, ss.len() as int))
    }
}

/// One step of `expr_list_weight` over a suffix.
pub proof fn lemma_expr_list_weight_step(es: Seq<Expr>, i: int)
    requires
        0 <= i < es.len(),
    ensures
        expr_list_weight(es.subrange(i, es.len() as int)) == expr_weight(es[i])
            + expr_list_weight(es.subrange(i + 1, es.len() as int)),
{
    let suff = es.subrange(i, es.len() as int);
    assert(suff[0] == es[i]);
    assert(suff.subrange(1, suff.len() as int) =~= es.subrange(i + 1, es.len() as int));
}

/// One step of `stmt_list_weight` over a suffix.
pub proof fn lemma_stmt_list_weight_step(ss: Seq<Stmt>, i: int)
    requires
        0 <= i < ss.len(),
    ensures
        stmt_list_weight(ss.subrange(i, ss.len() as int)) == stmt_weight(ss[i])
            + stmt_list_weight(ss.subrange(i + 1, ss.len() as int)),
{
    let suff = ss.subrange(i, ss.len() as int);
    assert(suff[0] == ss[i]);
    assert(suff.subrange(1, suff.len() as int) =~= ss.subrange(i + 1, ss.len() as int));
}

/// Size measure of a function: its parameters count like declarations, and
/// its body like the statement it is.
pub open spec fn func_weight(f: Func) -> nat {
    3 + 3 * f.params@.len() + match f.stmts {
        Some(s) => stmt_weight(s),
        None => 0,
    }
}

/// Every function of the program is within the accepted size ceiling.
pub open spec fn prog_within_weight(p: Prog) -> bool {
    forall|i: int| 0 <= i < p.funcs@.len() ==> func_weight(#[trigger] p.funcs@[i]) <= MAX_FUNC_WEIGHT
}

/// Check an expression against a weight budget; on success the unused
/// budget comes back.
pub fn expr_fits(e: &Expr, budget: u64) -> (r: Option<u64>)
    ensures
        match r {
            Some(rem) => expr_weight(*e) <= budget && rem == budget - expr_weight(*e),
            None => expr_weight(*e) > budget,
        },
    decreases *e,
{
    match e {
        Expr::Int(_) => if budget >= 3 {
            Some(budget - 3)
        } else {
            None
        },
        Expr::Var(_) => if budget >= 3 {
            Some(budget - 3)
        } else {
            None
        },
        Expr::Unary(_, x) => if budget >= 3 {
            expr_fits(x, budget - 3)
        } else {
            None
        },
        Expr::Assign(_, x) => if budget >= 3 {
            expr_fits(x, budget - 3)
        } else {
            None
        },
        Expr::Binary(_, l, r2) => if budget >= 3 {
            match expr_fits(l, budget - 3) {
                Some(b1) => expr_fits(r2, b1),
                None => None,
            }
        } else {
            None
        },
        Expr::Condition(c, t, f) => if budget >= 3 {
            match expr_fits(c, budget - 3) {
                Some(b1) => match expr_fits(t, b1) {
                    Some(b2) => expr_fits(f, b2),
                    None => None,
                },
                None => None,
            }
        } else {
            None
        },
        Expr::Call(_, args) => if budget >= 3 {
            proof {
                assert(args@.subrange(0, args@.len() as int) =~= args@);
            }
            expr_list_fits(args, 0, budget - 3)
        } else {
            None
        },
    }
}

/// Check the expressions from index `k` on against a weight budget.
pub fn expr_list_fits(args: &Vec<Expr>, k: usize, budget: u64) -> (r: Option<u64>)
    requires
        k <= args@.len(),
    ensures
        match r {
            Some(rem) => expr_list_weight(args@.subrange(k as int, args@.len() as int))
                <= budget && rem == budget - expr_list_weight(
                args@.subrange(k as int, args@.len() as int),
            ),
            None => expr_list_weight(args@.subrange(k as int, args@.len() as int)) > budget,
        },
    decreases args@, args@.len() - k,
{
    let n = args.len();
    if k == n {
        proof {
            assert(args@.subrange(k as int, n as int) =~= Seq::<Expr>::empty());
        }
        Some(budget)
    } else {
        proof {
            lemma_expr_list_weight_step(args@, k as int);
        }
        match expr_fits(&args[k], budget) {
            Some(b1) => expr_list_fits(args, k + 1, b1),
            None => None,
        }
    }
}

/// Check a statement against a weight budget; on success the unused
/// budget comes back.
pub fn stmt_fits(s: &Stmt, budget: u64) -> (r: Option<u64>)
    ensures
        match r {
            Some(rem) => stmt_weight(*s) <= budget && rem == budget - stmt_weight(*s),
            None => stmt_weight(*s) > budget,
        },
    decreases *s,
{
    match s {
        Stmt::Empty | Stmt::Continue | Stmt::Break => if budget >= 3 {
            Some(budget - 3)
        } else {
            None
        },
        Stmt::Ret(e) => if budget >= 3 {
            expr_fits(e, budget - 3)
        } else {
            None
        },
        Stmt::Expr(e) => if budget >= 3 {
            expr_fits(e, budget - 3)
        } else {
            None
        },
        Stmt::Def(_, init) => if budget >= 3 {
            match init {
                Some(e) => expr_fits(e, budget - 3),
                None => Some(budget - 3),
            }
        } else {
            None
        },
        Stmt::If(c, t, f) => if budget >= 3 {
            match expr_fits(c, budget - 3) {
                Some(b1) => match stmt_fits(t, b1) {
                    Some(b2) => match f {
                        Some(f2) => stmt_fits(f2, b2),
                        None => Some(b2),
                    },
                    None => None,
                },
                None => None,
            }
        } else {
            None
        },
        Stmt::Block(b) => if budget >= 3 {
            proof {
                assert(b.0@.subrange(0, b.0@.len() as int) =~= b.0@);
            }
            stmt_list_fits(&b.0, 0, budget - 3)
        } else {
            None
        },
        Stmt::While(c, body) => if budget >= 3 {
            match expr_fits(c, budget - 3) {
                Some(b1) => stmt_fits(body, b1),
                None => None,
            }
        } else {
            None
        },
        Stmt::DoWhile(body, c) => if budget >= 3 {
            match stmt_fits(body, budget - 3) {
                Some(b1) => expr_fits(c, b1),
                None => None,
            }
        } else {
            None
        },
        Stmt::For { init, cond, update, body } => if budget >= 3 {
            let b1 = match init {
                Some(i2) => stmt_fits(i2, budget - 3),
                None => Some(budget - 3),
            };
            match b1 {
                Some(b1v) => {
                    let b2 = match cond {
                        Some(c) => expr_fits(c, b1v),
                        None => Some(b1v),
                    };
                    match b2 {
                        Some(b2v) => {
                            let b3 = match update {
                                Some(u) => expr_fits(u, b2v),
                                None => Some(b2v),
                            };
                            match b3 {
                                Some(b3v) => stmt_fits(body, b3v),
                                None => None,
                            }
                        }
                        None => None,
                    }
                }
                None => None,
            }
        } else {
            None
        },
    }
}

/// Check the statements from index `k` on against a weight budget.
pub fn stmt_list_fits(ss: &Vec<Stmt>, k: usize, budget: u64) -> (r: Option<u64>)
    requires
        k <= ss@.len(),
    ensures
        match r {
            Some(rem) => stmt_list_weight(ss@.subrange(k as int, ss@.len() as int)) <= budget
                && rem == budget - stmt_list_weight(ss@.subrange(k as int, ss@.len() as int)),
            None => stmt_list_weight(ss@.subrange(k as int, ss@.len() as int)) > budget,
        },
    decreases ss@, ss@.len() - k,
{
    let n = ss.len();
    if k == n {
        proof {
            assert(ss@.subrange(k as int, n as int) =~= Seq::<Stmt>::empty());
        }
        Some(budget)
    } else {
        proof {
            lemma_stmt_list_weight_step(ss@, k as int);
        }
        match stmt_fits(&ss[k], budget) {
            Some(b1) => stmt_list_fits(ss, k + 1, b1),
            None => None,
        }
    }
}

/// Whether one function stays under the accepted size ceiling.
pub fn func_fits(f: &Func) -> (r: bool)
    ensures
        r == (func_weight(*f) <= MAX_FUNC_WEIGHT),
{
    let plen = f.params.len() as u64;
    if plen > (MAX_FUNC_WEIGHT - 3) / 3 {
        return false;
    }
    let rem = MAX_FUNC_WEIGHT - 3 - 3 * plen;
    match &f.stmts {
        None => true,
        Some(body) => stmt_fits(body, rem).is_some(),
    }
}

/// Whether every function of the program stays under the size ceiling:
/// the executable form of `prog_within_weight`, for callers that must
/// establish it before compiling.
pub fn prog_fits(p: &Prog) -> (r: bool)
    ensures
        r == prog_within_weight(*p),
{
    let n = p.funcs.len();
    let mut i: usize = 0;
    while i < n
        invariant
            0 <= i <= n,
            n == p.funcs@.len(),
            forall|j: int| 0 <= j < i ==> func_weight(#[trigger] p.funcs@[j]) <= MAX_FUNC_WEIGHT,
        decreases n - i,
    {
        if !func_fits(&p.funcs[i]) {
            return false;
        }
        i += 1;
    }
    true
}

} // verus!
