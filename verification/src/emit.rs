//! The executable IR builder, verified against the model in `lower`.
//!
//! `ast2ir` merges the global and function tables program-wide, then
//! lowers every function body through a `FuncCtx` whose view is the
//! model's `LowerState`; every public entry point returns exactly what
//! the model equations compute.

use vstd::prelude::*;
use crate::ast::{Prog, Func, Stmt, Expr, BinaryOp, expr_weight, expr_list_weight, stmt_weight,
    stmt_list_weight, func_weight, prog_within_weight, MAX_FUNC_WEIGHT,
    lemma_expr_list_weight_step, lemma_stmt_list_weight_step};
use crate::ir::{IrStmt, IrFunc, IrProg};
use crate::errors::CompileError;
use crate::resolve::{FrameView, ScopeView, frame_lookup, scope_lookup, glob_find, func_find,
    lemma_frame_lookup_none, lemma_glob_find, lemma_glob_find_at, lemma_func_find,
    lemma_func_find_at};
use crate::lower::{LowerState, IrFuncView, IrProgView, lower_expr, lower_expr_list, lower_stmt,
    lower_stmt_list, declare_var, declare_params, init_state, lower_func, lower_func_list_from,
    merge_globs_from, merge_globs, merge_funcs_from, merge_funcs, lower_prog, with_ret_fallback};
use crate::lower_lemmas::{fits, state_in_range, frames_slots_lt, code_in_range,
    labels_unique_lt, lemma_code_push, lemma_lower_expr_ok, lemma_lower_stmt_ok,
    lemma_lower_stmt_list_ok};

verus! {

/// The merged function table as the model sees it.
pub open spec fn table_view(fns: Seq<&Func>) -> Seq<Func> {
    fns.map_values(|f: &Func| *f)
}

/// The scope stack as the model sees it.
pub open spec fn frames_view(names: Seq<Vec<(String, usize)>>) -> ScopeView {
    names.map_values(|fr: Vec<(String, usize)>| fr@)
}

/// The transient per-function lowering context; its view is the model's
/// `LowerState`.
pub struct FuncCtx {
    pub names: Vec<Vec<(String, usize)>>,
    pub stmts: Vec<IrStmt>,
    pub loops: Vec<(usize, usize)>,
    pub var_cnt: usize,
    pub label_cnt: usize,
}

impl View for FuncCtx {
    type V = LowerState;

    open spec fn view(&self) -> LowerState {
        LowerState {
            frames: frames_view(self.names@),
            code: self.stmts@,
            loops: self.loops@,
            var_cnt: self.var_cnt,
            label_cnt: self.label_cnt,
        }
    }
}

/// Whether one frame binds `name`.
fn frame_has(fr: &Vec<(String, usize)>, name: &String) -> (r: bool)
    ensures
        r == (frame_lookup(fr@, name@) is Some),
{
    let n = fr.len();
    let mut i: usize = 0;
    while i < n
        invariant
            0 <= i <= n,
            forall|j: int| 0 <= j < i ==> (#[trigger] fr@[j]).0@ != name@,
        decreases n - i,
    {
        if fr[i].0 == *name {
            proof {
                lemma_frame_lookup_none(fr@, name@);
            }
            return true;
        }
        i += 1;
    }
    proof {
        lemma_frame_lookup_none(fr@, name@);
    }
    false
}

/// The slot one frame binds `name` to, searched newest-first.
fn frame_get(fr: &Vec<(String, usize)>, name: &String) -> (r: Option<usize>)
    ensures
        r == frame_lookup(fr@, name@),
{
    let mut i: usize = fr.len();
    proof {
        assert(fr@.subrange(0, fr@.len() as int) =~= fr@);
    }
    while i > 0
        invariant
            0 <= i <= fr.len(),
            frame_lookup(fr@, name@) == frame_lookup(fr@.subrange(0, i as int), name@),
        decreases i,
    {
        let prefix_view = Ghost(fr@.subrange(0, i as int));
        proof {
            assert(prefix_view@.last() == fr@[i - 1]);
            assert(prefix_view@.drop_last() =~= fr@.subrange(0, i - 1));
        }
        if fr[i - 1].0 == *name {
            return Some(fr[i - 1].1);
        }
        i -= 1;
    }
    proof {
        assert(fr@.subrange(0, 0) =~= Seq::<(String, usize)>::empty());
    }
    None
}

/// The innermost binding of `name` in the scope stack.
fn scope_get(names: &Vec<Vec<(String, usize)>>, name: &String) -> (r: Option<usize>)
    ensures
        r == scope_lookup(frames_view(names@), name@),
{
    let mut i: usize = names.len();
    proof {
        assert(frames_view(names@).subrange(0, names@.len() as int) =~= frames_view(names@));
    }
    while i > 0
        invariant
            0 <= i <= names.len(),
            scope_lookup(frames_view(names@), name@) == scope_lookup(
                frames_view(names@).subrange(0, i as int),
                name@,
            ),
        decreases i,
    {
        let prefix_view = Ghost(frames_view(names@).subrange(0, i as int));
        proof {
            assert(prefix_view@.last() == frames_view(names@)[i - 1]);
            assert(frames_view(names@)[i - 1] == names@[i - 1]@);
            assert(prefix_view@.drop_last() =~= frames_view(names@).subrange(0, i - 1));
        }
        match frame_get(&names[i - 1], name) {
            Some(slot) => {
                return Some(slot);
            }
            None => {}
        }
        i -= 1;
    }
    proof {
        assert(frames_view(names@).subrange(0, 0) =~= Seq::<FrameView>::empty());
    }
    None
}

/// The index of `name` in the global table, if present.
fn glob_get(globs: &Vec<(String, Option<i32>)>, name: &String) -> (r: Option<usize>)
    ensures
        match r {
            Some(i) => glob_find(globs@, name@) == Some(i as int),
            None => glob_find(globs@, name@) is None,
        },
{
    let n = globs.len();
    let mut i: usize = 0;
    while i < n
        invariant
            0 <= i <= n,
            forall|j: int| 0 <= j < i ==> (#[trigger] globs@[j]).0@ != name@,
        decreases n - i,
    {
        if globs[i].0 == *name {
            proof {
                lemma_glob_find_at(globs@, name@, i as int);
            }
            return Some(i);
        }
        i += 1;
    }
    proof {
        lemma_glob_find(globs@, name@);
    }
    None
}

/// The index of `name` in the merged function table, if present.
fn func_get(fns: &Vec<&Func>, name: &String) -> (r: Option<usize>)
    ensures
        match r {
            Some(i) => func_find(table_view(fns@), name@) == Some(i as int),
            None => func_find(table_view(fns@), name@) is None,
        },
{
    let n = fns.len();
    let mut i: usize = 0;
    while i < n
        invariant
            0 <= i <= n,
            forall|j: int| 0 <= j < i ==> (#[trigger] table_view(fns@)[j]).name@ != name@,
        decreases n - i,
    {
        proof {
            assert(table_view(fns@)[i as int] == *fns@[i as int]);
        }
        if fns[i].name == *name {
            proof {
                lemma_func_find_at(table_view(fns@), name@, i as int);
            }
            return Some(i);
        }
        i += 1;
    }
    proof {
        lemma_func_find(table_view(fns@), name@);
    }
    None
}

/// Emit the code of one expression into `ctx`, exactly as the model's
/// `lower_expr` describes. `slot_bound` carries the well-formedness bound
/// on recorded slots through the recursion.
#[verifier::rlimit(100)]
#[verifier::spinoff_prover]
fn emit_expr(
    ctx: &mut FuncCtx,
    fns: &Vec<&Func>,
    globs: &Vec<(String, Option<i32>)>,
    e: &Expr,
    slot_bound: Ghost<nat>,
) -> (r: Result<(), CompileError>)
    requires
        frames_slots_lt(old(ctx)@.frames, slot_bound@),
        code_in_range(old(ctx)@.code, slot_bound@, globs@.len(), table_view(fns@).len()),
        labels_unique_lt(old(ctx)@.code, old(ctx)@.label_cnt as nat),
        fits(old(ctx)@, expr_weight(*e)),
    ensures
        match lower_expr(table_view(fns@), globs@, old(ctx)@, *e) {
            Ok(st1) => r is Ok && final(ctx)@ == st1,
            Err(e2) => r matches Err(e3) && e3 == e2,
        },
    decreases *e,
{
    let ghost fnsv = table_view(fns@);
    let ghost globsv = globs@;
    let ghost st0 = ctx@;
    match e {
        Expr::Int(x) => {
            ctx.stmts.push(IrStmt::Ldc(*x));
            Ok(())
        }
        Expr::Unary(op, x) => {
            match emit_expr(ctx, fns, globs, x, slot_bound) {
                Ok(()) => {}
                Err(er) => {
                    return Err(er);
                }
            }
            ctx.stmts.push(IrStmt::Unary(*op));
            Ok(())
        }
        Expr::Binary(op, l, r) => {
            if *op == BinaryOp::And || *op == BinaryOp::Or {
                match emit_expr(ctx, fns, globs, l, slot_bound) {
                    Ok(()) => {}
                    Err(er) => {
                        return Err(er);
                    }
                }
                let ghost st1 = ctx@;
                proof {
                    lemma_lower_expr_ok(fnsv, globsv, st0, **l, slot_bound@);
                }
                let lf = ctx.label_cnt;
                let le = ctx.label_cnt + 1;
                ctx.label_cnt = ctx.label_cnt + 2;
                let first = if *op == BinaryOp::And {
                    IrStmt::Bz(lf)
                } else {
                    IrStmt::Bnz(lf)
                };
                ctx.stmts.push(first);
                proof {
                    assert(ctx@ == st1.mint(2).emit(first));
                    lemma_code_push(st1.code, first, slot_bound@, globsv.len(), fnsv.len());
                }
                match emit_expr(ctx, fns, globs, r, slot_bound) {
                    Ok(()) => {}
                    Err(er) => {
                        return Err(er);
                    }
                }
                let ghost st2 = ctx@;
                if *op == BinaryOp::And {
                    ctx.stmts.push(IrStmt::Bz(lf));
                    ctx.stmts.push(IrStmt::Ldc(1));
                    ctx.stmts.push(IrStmt::Jump(le));
                    ctx.stmts.push(IrStmt::Label(lf));
                    ctx.stmts.push(IrStmt::Ldc(0));
                    ctx.stmts.push(IrStmt::Label(le));
                    proof {
                        assert(ctx@.code =~= st2.code + seq![
                            IrStmt::Bz(lf),
                            IrStmt::Ldc(1),
                            IrStmt::Jump(le),
                            IrStmt::Label(lf),
                            IrStmt::Ldc(0),
                            IrStmt::Label(le),
                        ]);
                    }
                } else {
                    ctx.stmts.push(IrStmt::Bnz(lf));
                    ctx.stmts.push(IrStmt::Ldc(0));
                    ctx.stmts.push(IrStmt::Jump(le));
                    ctx.stmts.push(IrStmt::Label(lf));
                    ctx.stmts.push(IrStmt::Ldc(1));
                    ctx.stmts.push(IrStmt::Label(le));
                    proof {
                        assert(ctx@.code =~= st2.code + seq![
                            IrStmt::Bnz(lf),
                            IrStmt::Ldc(0),
                            IrStmt::Jump(le),
                            IrStmt::Label(lf),
                            IrStmt::Ldc(1),
                            IrStmt::Label(le),
                        ]);
                    }
                }
                Ok(())
            } else {
                match emit_expr(ctx, fns, globs, l, slot_bound) {
                    Ok(()) => {}
                    Err(er) => {
                        return Err(er);
                    }
                }
                proof {
                    lemma_lower_expr_ok(fnsv, globsv, st0, **l, slot_bound@);
                }
                match emit_expr(ctx, fns, globs, r, slot_bound) {
                    Ok(()) => {}
                    Err(er) => {
                        return Err(er);
                    }
                }
                ctx.stmts.push(IrStmt::Binary(*op));
                Ok(())
            }
        }
        Expr::Var(name) => {
            match scope_get(&ctx.names, name) {
                Some(slot) => {
                    ctx.stmts.push(IrStmt::Load(slot));
                    Ok(())
                }
                None => match glob_get(globs, name) {
                    Some(i) => {
                        ctx.stmts.push(IrStmt::LoadGlobal(i));
                        Ok(())
                    }
                    None => Err(CompileError::UndefinedVariable(name.clone())),
                },
            }
        }
        Expr::Assign(name, r) => {
            match emit_expr(ctx, fns, globs, r, slot_bound) {
                Ok(()) => {}
                Err(er) => {
                    return Err(er);
                }
            }
            match scope_get(&ctx.names, name) {
                Some(slot) => {
                    ctx.stmts.push(IrStmt::Store(slot));
                    ctx.stmts.push(IrStmt::Load(slot));
                    Ok(())
                }
                None => match glob_get(globs, name) {
                    Some(i) => {
                        ctx.stmts.push(IrStmt::StoreGlobal(i));
                        ctx.stmts.push(IrStmt::LoadGlobal(i));
                        Ok(())
                    }
                    None => Err(CompileError::UndefinedVariable(name.clone())),
                },
            }
        }
        Expr::Condition(c, t, f) => {
            match emit_expr(ctx, fns, globs, c, slot_bound) {
                Ok(()) => {}
                Err(er) => {
                    return Err(er);
                }
            }
            let ghost st1 = ctx@;
            proof {
                lemma_lower_expr_ok(fnsv, globsv, st0, **c, slot_bound@);
            }
            let bf = ctx.label_cnt;
            let af = ctx.label_cnt + 1;
            ctx.label_cnt = ctx.label_cnt + 2;
            ctx.stmts.push(IrStmt::Bz(bf));
            proof {
                assert(ctx@ == st1.mint(2).emit(IrStmt::Bz(bf)));
                lemma_code_push(st1.code, IrStmt::Bz(bf), slot_bound@, globsv.len(), fnsv.len());
            }
            let ghost st1b = ctx@;
            match emit_expr(ctx, fns, globs, t, slot_bound) {
                Ok(()) => {}
                Err(er) => {
                    return Err(er);
                }
            }
            let ghost st2 = ctx@;
            proof {
                lemma_lower_expr_ok(fnsv, globsv, st1b, **t, slot_bound@);
            }
            ctx.stmts.push(IrStmt::Jump(af));
            ctx.stmts.push(IrStmt::Label(bf));
            proof {
                lemma_code_push(st2.code, IrStmt::Jump(af), slot_bound@, globsv.len(), fnsv.len());
                lemma_code_push(
                    st2.code.push(IrStmt::Jump(af)),
                    IrStmt::Label(bf),
                    slot_bound@,
                    globsv.len(),
                    fnsv.len(),
                );
            }
            match emit_expr(ctx, fns, globs, f, slot_bound) {
                Ok(()) => {}
                Err(er) => {
                    return Err(er);
                }
            }
            ctx.stmts.push(IrStmt::Label(af));
            Ok(())
        }
        Expr::Call(name, args) => {
            match func_get(fns, name) {
                None => Err(CompileError::UndefinedFunction(name.clone())),
                Some(id) => {
                    let n = args.len();
                    let mut k: usize = 0;
                    proof {
                        assert(args@.subrange(0, n as int) =~= args@);
                    }
                    while k < n
                        invariant
                            0 <= k <= n,
                            n == args@.len(),
                            lower_expr_list(fnsv, globsv, st0, args@) == lower_expr_list(
                                fnsv,
                                globsv,
                                ctx@,
                                args@.subrange(k as int, n as int),
                            ),
                            frames_slots_lt(ctx@.frames, slot_bound@),
                            code_in_range(ctx@.code, slot_bound@, globsv.len(), fnsv.len()),
                            labels_unique_lt(ctx@.code, ctx@.label_cnt as nat),
                            fits(ctx@, expr_list_weight(args@.subrange(k as int, n as int))),
                        decreases n - k,
                    {
                        let ghost prev = ctx@;
                        proof {
                            lemma_expr_list_weight_step(args@, k as int);
                            assert(args@.subrange(k as int, n as int)[0] == args@[k as int]);
                            assert(decreases_to!(*e => args@[k as int]));
                        }
                        match emit_expr(ctx, fns, globs, &args[k], slot_bound) {
                            Ok(()) => {}
                            Err(er) => {
                                return Err(er);
                            }
                        }
                        proof {
                            lemma_lower_expr_ok(fnsv, globsv, prev, args@[k as int], slot_bound@);
                            assert(args@.subrange(k as int, n as int).subrange(
                                1,
                                (n - k) as int,
                            ) =~= args@.subrange(k + 1, n as int));
                        }
                        k += 1;
                    }
                    proof {
                        assert(args@.subrange(n as int, n as int) =~= Seq::<Expr>::empty());
                    }
                    ctx.stmts.push(IrStmt::Call(id));
                    Ok(())
                }
            }
        }
    }
}

/// Emit the code of one statement into `ctx`, exactly as the model's
/// `lower_stmt` describes.
#[verifier::rlimit(100)]
#[verifier::spinoff_prover]
fn emit_stmt(
    ctx: &mut FuncCtx,
    fns: &Vec<&Func>,
    globs: &Vec<(String, Option<i32>)>,
    s: &Stmt,
) -> (r: Result<(), CompileError>)
    requires
        old(ctx)@.frames.len() >= 1,
        state_in_range(old(ctx)@, globs@.len(), table_view(fns@).len()),
        labels_unique_lt(old(ctx)@.code, old(ctx)@.label_cnt as nat),
        fits(old(ctx)@, stmt_weight(*s)),
    ensures
        match lower_stmt(table_view(fns@), globs@, old(ctx)@, *s) {
            Ok(st1) => r is Ok && final(ctx)@ == st1,
            Err(e2) => r matches Err(e3) && e3 == e2,
        },
    decreases *s,
{
    let ghost fnsv = table_view(fns@);
    let ghost globsv = globs@;
    let ghost st0 = ctx@;
    match s {
        Stmt::Empty => Ok(()),
        Stmt::Ret(e) => {
            match emit_expr(ctx, fns, globs, e, Ghost(st0.var_cnt as nat)) {
                Ok(()) => {}
                Err(er) => {
                    return Err(er);
                }
            }
            ctx.stmts.push(IrStmt::Ret);
            Ok(())
        }
        Stmt::Expr(e) => {
            match emit_expr(ctx, fns, globs, e, Ghost(st0.var_cnt as nat)) {
                Ok(()) => {}
                Err(er) => {
                    return Err(er);
                }
            }
            ctx.stmts.push(IrStmt::Pop);
            Ok(())
        }
        Stmt::Def(name, init) => {
            let n = ctx.names.len();
            proof {
                assert(st0.frames.last() == ctx.names@[n - 1]@);
            }
            if frame_has(&ctx.names[n - 1], name) {
                return Err(CompileError::DuplicateDeclaration(name.clone()));
            }
            let slot = ctx.var_cnt;
            let mut top = ctx.names.pop().unwrap();
            top.push((name.clone(), slot));
            ctx.names.push(top);
            proof {
                assert(frames_view(ctx.names@) =~= st0.frames.update(
                    st0.frames.len() - 1,
                    st0.frames.last().push((*name, slot)),
                ));
                assert forall|i: int| 0 <= i < ctx@.frames.len() implies
                    crate::lower_lemmas::frame_slots_lt(
                    #[trigger] ctx@.frames[i],
                    (slot + 1) as nat,
                ) by {
                    if i == ctx@.frames.len() - 1 {
                        let fr = st0.frames.last().push((*name, slot));
                        assert(ctx@.frames[i] == fr);
                        assert forall|j: int| 0 <= j < fr.len() implies (#[trigger] fr[j]).1
                            < slot + 1 by {
                            if j < fr.len() - 1 {
                                assert(fr[j] == st0.frames.last()[j]);
                            }
                        }
                    } else {
                        assert(ctx@.frames[i] == st0.frames[i]);
                    }
                }
                crate::lower_lemmas::lemma_code_widen(
                    ctx@.code,
                    st0.var_cnt as nat,
                    (slot + 1) as nat,
                    globsv.len(),
                    fnsv.len(),
                );
            }
            match init {
                None => {
                    ctx.var_cnt = slot + 1;
                    Ok(())
                }
                Some(e) => {
                    match emit_expr(ctx, fns, globs, e, Ghost((slot + 1) as nat)) {
                        Ok(()) => {}
                        Err(er) => {
                            return Err(er);
                        }
                    }
                    ctx.stmts.push(IrStmt::Store(slot));
                    ctx.var_cnt = slot + 1;
                    Ok(())
                }
            }
        }
        Stmt::If(c, t, f) => {
            match emit_expr(ctx, fns, globs, c, Ghost(st0.var_cnt as nat)) {
                Ok(()) => {}
                Err(er) => {
                    return Err(er);
                }
            }
            let ghost st1 = ctx@;
            proof {
                lemma_lower_expr_ok(fnsv, globsv, st0, *c, st0.var_cnt as nat);
            }
            let bf = ctx.label_cnt;
            let af = ctx.label_cnt + 1;
            ctx.label_cnt = ctx.label_cnt + 2;
            ctx.stmts.push(IrStmt::Bz(bf));
            let ghost st1b = ctx@;
            proof {
                assert(st1b == st1.mint(2).emit(IrStmt::Bz(bf)));
                lemma_code_push(st1.code, IrStmt::Bz(bf), st1.var_cnt as nat, globsv.len(),
                    fnsv.len());
            }
            match emit_stmt(ctx, fns, globs, t) {
                Ok(()) => {}
                Err(er) => {
                    return Err(er);
                }
            }
            let ghost st2 = ctx@;
            proof {
                lemma_lower_stmt_ok(fnsv, globsv, st1b, **t);
            }
            ctx.stmts.push(IrStmt::Jump(af));
            ctx.stmts.push(IrStmt::Label(bf));
            let ghost st3 = ctx@;
            proof {
                lemma_code_push(st2.code, IrStmt::Jump(af), st2.var_cnt as nat, globsv.len(),
                    fnsv.len());
                lemma_code_push(
                    st2.code.push(IrStmt::Jump(af)),
                    IrStmt::Label(bf),
                    st2.var_cnt as nat,
                    globsv.len(),
                    fnsv.len(),
                );
            }
            match f {
                None => {}
                Some(f2) => {
                    match emit_stmt(ctx, fns, globs, f2) {
                        Ok(()) => {}
                        Err(er) => {
                            return Err(er);
                        }
                    }
                }
            }
            ctx.stmts.push(IrStmt::Label(af));
            Ok(())
        }
        Stmt::Block(b) => {
            ctx.names.push(Vec::new());
            let ghost st1 = ctx@;
            proof {
                assert(frames_view(ctx.names@) =~= st0.frames.push(
                    Seq::<(String, usize)>::empty(),
                ));
                assert forall|i: int| 0 <= i < st1.frames.len() implies
                    crate::lower_lemmas::frame_slots_lt(
                    #[trigger] st1.frames[i],
                    st1.var_cnt as nat,
                ) by {
                    if i < st1.frames.len() - 1 {
                        assert(st1.frames[i] == st0.frames[i]);
                    } else {
                        assert(st1.frames[i] =~= Seq::<(String, usize)>::empty());
                    }
                }
            }
            let n = b.0.len();
            let mut k: usize = 0;
            proof {
                assert(b.0@.subrange(0, n as int) =~= b.0@);
            }
            while k < n
                invariant
                    0 <= k <= n,
                    n == b.0@.len(),
                    lower_stmt_list(fnsv, globsv, st1, b.0@) == lower_stmt_list(
                        fnsv,
                        globsv,
                        ctx@,
                        b.0@.subrange(k as int, n as int),
                    ),
                    ctx@.frames.len() >= 1,
                    state_in_range(ctx@, globsv.len(), fnsv.len()),
                    labels_unique_lt(ctx@.code, ctx@.label_cnt as nat),
                    fits(ctx@, stmt_list_weight(b.0@.subrange(k as int, n as int))),
                decreases n - k,
            {
                let ghost prev = ctx@;
                proof {
                    lemma_stmt_list_weight_step(b.0@, k as int);
                    assert(b.0@.subrange(k as int, n as int)[0] == b.0@[k as int]);
                    assert(decreases_to!(*s => b.0@[k as int]));
                }
                match emit_stmt(ctx, fns, globs, &b.0[k]) {
                    Ok(()) => {}
                    Err(er) => {
                        return Err(er);
                    }
                }
                proof {
                    lemma_lower_stmt_ok(fnsv, globsv, prev, b.0@[k as int]);
                    assert(b.0@.subrange(k as int, n as int).subrange(1, (n - k) as int)
                        =~= b.0@.subrange(k + 1, n as int));
                }
                k += 1;
            }
            proof {
                assert(b.0@.subrange(n as int, n as int) =~= Seq::<Stmt>::empty());
            }
            let ghost st2 = ctx@;
            let _ = ctx.names.pop().unwrap();
            proof {
                assert(frames_view(ctx.names@) =~= st2.frames.drop_last());
            }
            Ok(())
        }
        Stmt::While(c, body) => {
            let bc = ctx.label_cnt;
            let ab = ctx.label_cnt + 1;
            ctx.label_cnt = ctx.label_cnt + 2;
            ctx.loops.push((ab, bc));
            ctx.stmts.push(IrStmt::Label(bc));
            let ghost st1 = ctx@;
            proof {
                assert(st1 == LowerState { loops: st0.loops.push((ab, bc)), ..st0.mint(2) }.emit(
                    IrStmt::Label(bc),
                ));
                lemma_code_push(st0.code, IrStmt::Label(bc), st0.var_cnt as nat, globsv.len(),
                    fnsv.len());
            }
            match emit_expr(ctx, fns, globs, c, Ghost(st0.var_cnt as nat)) {
                Ok(()) => {}
                Err(er) => {
                    return Err(er);
                }
            }
            let ghost st2 = ctx@;
            proof {
                lemma_lower_expr_ok(fnsv, globsv, st1, *c, st0.var_cnt as nat);
            }
            ctx.stmts.push(IrStmt::Bz(ab));
            let ghost st2b = ctx@;
            proof {
                lemma_code_push(st2.code, IrStmt::Bz(ab), st2.var_cnt as nat, globsv.len(),
                    fnsv.len());
            }
            match emit_stmt(ctx, fns, globs, body) {
                Ok(()) => {}
                Err(er) => {
                    return Err(er);
                }
            }
            let ghost st3 = ctx@;
            proof {
                lemma_lower_stmt_ok(fnsv, globsv, st2b, **body);
            }
            ctx.stmts.push(IrStmt::Jump(bc));
            ctx.stmts.push(IrStmt::Label(ab));
            let _ = ctx.loops.pop().unwrap();
            proof {
                assert(st3.loops == st0.loops.push((ab, bc)));
                assert(ctx@.loops =~= st0.loops);
            }
            Ok(())
        }
        Stmt::DoWhile(body, c) => {
            let bb = ctx.label_cnt;
            let bc = ctx.label_cnt + 1;
            let ac = ctx.label_cnt + 2;
            ctx.label_cnt = ctx.label_cnt + 3;
            ctx.loops.push((ac, bc));
            ctx.stmts.push(IrStmt::Label(bb));
            let ghost st1 = ctx@;
            proof {
                assert(st1 == LowerState { loops: st0.loops.push((ac, bc)), ..st0.mint(3) }.emit(
                    IrStmt::Label(bb),
                ));
                lemma_code_push(st0.code, IrStmt::Label(bb), st0.var_cnt as nat, globsv.len(),
                    fnsv.len());
            }
            match emit_stmt(ctx, fns, globs, body) {
                Ok(()) => {}
                Err(er) => {
                    return Err(er);
                }
            }
            let ghost st2 = ctx@;
            proof {
                lemma_lower_stmt_ok(fnsv, globsv, st1, **body);
            }
            ctx.stmts.push(IrStmt::Label(bc));
            let ghost st2b = ctx@;
            proof {
                lemma_code_push(st2.code, IrStmt::Label(bc), st2.var_cnt as nat, globsv.len(),
                    fnsv.len());
            }
            match emit_expr(ctx, fns, globs, c, Ghost(ctx.var_cnt as nat)) {
                Ok(()) => {}
                Err(er) => {
                    return Err(er);
                }
            }
            let ghost st3 = ctx@;
            proof {
                lemma_lower_expr_ok(fnsv, globsv, st2b, *c, st2b.var_cnt as nat);
            }
            ctx.stmts.push(IrStmt::Bnz(bb));
            ctx.stmts.push(IrStmt::Label(ac));
            let _ = ctx.loops.pop().unwrap();
            proof {
                assert(st3.loops == st0.loops.push((ac, bc)));
                assert(ctx@.loops =~= st0.loops);
            }
            Ok(())
        }
        Stmt::For { init, cond, update, body } => {
            ctx.names.push(Vec::new());
            let ghost st1 = ctx@;
            proof {
                assert(frames_view(ctx.names@) =~= st0.frames.push(
                    Seq::<(String, usize)>::empty(),
                ));
                assert forall|i: int| 0 <= i < st1.frames.len() implies
                    crate::lower_lemmas::frame_slots_lt(
                    #[trigger] st1.frames[i],
                    st1.var_cnt as nat,
                ) by {
                    if i < st1.frames.len() - 1 {
                        assert(st1.frames[i] == st0.frames[i]);
                    } else {
                        assert(st1.frames[i] =~= Seq::<(String, usize)>::empty());
                    }
                }
            }
            match init {
                None => {}
                Some(i2) => {
                    proof {
                        assert(decreases_to!(*s => **i2));
                    }
                    match emit_stmt(ctx, fns, globs, i2) {
                        Ok(()) => {}
                        Err(er) => {
                            return Err(er);
                        }
                    }
                    proof {
                        lemma_lower_stmt_ok(fnsv, globsv, st1, **i2);
                    }
                }
            }
            let ghost st2 = ctx@;
            let bc = ctx.label_cnt;
            let bu = ctx.label_cnt + 1;
            let ab = ctx.label_cnt + 2;
            ctx.label_cnt = ctx.label_cnt + 3;
            ctx.loops.push((ab, bu));
            ctx.stmts.push(IrStmt::Label(bc));
            let ghost st3 = ctx@;
            proof {
                assert(st3 == LowerState { loops: st2.loops.push((ab, bu)), ..st2.mint(3) }.emit(
                    IrStmt::Label(bc),
                ));
                lemma_code_push(st2.code, IrStmt::Label(bc), st2.var_cnt as nat, globsv.len(),
                    fnsv.len());
            }
            match cond {
                None => {
                    ctx.stmts.push(IrStmt::Ldc(1));
                    proof {
                        lemma_code_push(st3.code, IrStmt::Ldc(1), st3.var_cnt as nat,
                            globsv.len(), fnsv.len());
                    }
                }
                Some(c) => {
                    match emit_expr(ctx, fns, globs, c, Ghost(st2.var_cnt as nat)) {
                        Ok(()) => {}
                        Err(er) => {
                            return Err(er);
                        }
                    }
                    proof {
                        lemma_lower_expr_ok(fnsv, globsv, st3, *c, st2.var_cnt as nat);
                    }
                }
            }
            let ghost st4 = ctx@;
            ctx.stmts.push(IrStmt::Bz(ab));
            let ghost st4b = ctx@;
            proof {
                lemma_code_push(st4.code, IrStmt::Bz(ab), st4.var_cnt as nat, globsv.len(),
                    fnsv.len());
            }
            proof {
                assert(decreases_to!(*s => **body));
            }
            match emit_stmt(ctx, fns, globs, body) {
                Ok(()) => {}
                Err(er) => {
                    return Err(er);
                }
            }
            let ghost st5 = ctx@;
            proof {
                lemma_lower_stmt_ok(fnsv, globsv, st4b, **body);
            }
            ctx.stmts.push(IrStmt::Label(bu));
            let ghost st5b = ctx@;
            proof {
                lemma_code_push(st5.code, IrStmt::Label(bu), st5.var_cnt as nat, globsv.len(),
                    fnsv.len());
            }
            match update {
                None => {}
                Some(u) => {
                    match emit_expr(ctx, fns, globs, u, Ghost(st5.var_cnt as nat)) {
                        Ok(()) => {}
                        Err(er) => {
                            return Err(er);
                        }
                    }
                    proof {
                        lemma_lower_expr_ok(fnsv, globsv, st5b, *u, st5.var_cnt as nat);
                    }
                }
            }
            let ghost st6 = ctx@;
            ctx.stmts.push(IrStmt::Jump(bc));
            ctx.stmts.push(IrStmt::Label(ab));
            let _ = ctx.loops.pop().unwrap();
            let ghost st7 = ctx@;
            let _ = ctx.names.pop().unwrap();
            proof {
                assert(st6.loops == st2.loops.push((ab, bu)));
                assert(st7.loops =~= st2.loops);
                assert(frames_view(ctx.names@) =~= st7.frames.drop_last());
            }
            Ok(())
        }
        Stmt::Continue => {
            if ctx.loops.len() == 0 {
                Err(CompileError::ContinueOutsideLoop)
            } else {
                let t = ctx.loops[ctx.loops.len() - 1].1;
                ctx.stmts.push(IrStmt::Jump(t));
                Ok(())
            }
        }
        Stmt::Break => {
            if ctx.loops.len() == 0 {
                Err(CompileError::BreakOutsideLoop)
            } else {
                let t = ctx.loops[ctx.loops.len() - 1].0;
                ctx.stmts.push(IrStmt::Jump(t));
                Ok(())
            }
        }
    }
}

/// An executable `IrFunc` carries exactly what the model computed.
pub open spec fn ir_func_matches(g: IrFunc, v: IrFuncView) -> bool {
    &&& g.name == v.name
    &&& g.param_cnt == v.param_cnt
    &&& g.var_cnt == v.var_cnt
    &&& g.is_decl == v.is_decl
    &&& g.stmts@ == v.code
}

/// An executable `IrProg` carries exactly what the model computed.
pub open spec fn ir_prog_matches(g: IrProg, v: IrProgView) -> bool {
    &&& g.globs@ == v.globs
    &&& g.funcs@.len() == v.funcs.len()
    &&& forall|k: int| 0 <= k < v.funcs.len() ==> ir_func_matches(#[trigger] g.funcs@[k], v.funcs[k])
}

/// Lower one function against the fully merged tables, exactly as the
/// model's `lower_func` describes.
#[verifier::rlimit(100)]
#[verifier::spinoff_prover]
fn emit_func(fns: &Vec<&Func>, globs: &Vec<(String, Option<i32>)>, f: &Func) -> (r: Result<
    IrFunc,
    CompileError,
>)
    requires
        func_weight(*f) <= MAX_FUNC_WEIGHT,
    ensures
        match lower_func(table_view(fns@), globs@, *f) {
            Ok(v) => r matches Ok(g) && ir_func_matches(g, v),
            Err(e2) => r matches Err(e3) && e3 == e2,
        },
{
    let ghost fnsv = table_view(fns@);
    let ghost globsv = globs@;
    let mut ctx = FuncCtx {
        names: Vec::new(),
        stmts: Vec::new(),
        loops: Vec::new(),
        var_cnt: 0,
        label_cnt: 0,
    };
    ctx.names.push(Vec::new());
    proof {
        assert(frames_view(ctx.names@) =~= init_state().frames);
        assert(ctx@ =~~= init_state());
    }
    let plen = f.params.len();
    let mut k: usize = 0;
    proof {
        assert(f.params@.subrange(0, plen as int) =~= f.params@);
        assert(crate::lower_lemmas::frame_slots_lt(ctx@.frames[0], 0));
    }
    while k < plen
        invariant
            0 <= k <= plen,
            plen == f.params@.len(),
            3 * plen <= MAX_FUNC_WEIGHT,
            declare_params(init_state(), f.params@) == declare_params(
                ctx@,
                f.params@.subrange(k as int, plen as int),
            ),
            ctx@.frames.len() == 1,
            ctx@.var_cnt == k,
            ctx@.label_cnt == 0,
            ctx@.code == Seq::<IrStmt>::empty(),
            ctx@.loops == Seq::<(usize, usize)>::empty(),
            crate::lower_lemmas::frames_slots_lt(ctx@.frames, k as nat),
        decreases plen - k,
    {
        let ghost prev = ctx@;
        let n = ctx.names.len();
        proof {
            assert(prev.frames.last() == ctx.names@[n - 1]@);
            assert(f.params@.subrange(k as int, plen as int)[0] == f.params@[k as int]);
        }
        if frame_has(&ctx.names[n - 1], &f.params[k]) {
            return Err(CompileError::DuplicateDeclaration(f.params[k].clone()));
        }
        let slot = ctx.var_cnt;
        let mut top = ctx.names.pop().unwrap();
        top.push((f.params[k].clone(), slot));
        ctx.names.push(top);
        ctx.var_cnt = slot + 1;
        proof {
            assert(frames_view(ctx.names@) =~= prev.frames.update(
                prev.frames.len() - 1,
                prev.frames.last().push((f.params@[k as int], slot)),
            ));
            assert(ctx@ == LowerState {
                var_cnt: (prev.var_cnt + 1) as usize,
                ..declare_var(prev, f.params@[k as int])->Ok_0
            });
            assert forall|i: int| 0 <= i < ctx@.frames.len() implies
                crate::lower_lemmas::frame_slots_lt(
                #[trigger] ctx@.frames[i],
                (k + 1) as nat,
            ) by {
                let fr = prev.frames.last().push((f.params@[k as int], slot));
                assert(ctx@.frames[i] == fr);
                assert forall|j: int| 0 <= j < fr.len() implies (#[trigger] fr[j]).1 < k + 1 by {
                    if j < fr.len() - 1 {
                        assert(fr[j] == prev.frames.last()[j]);
                    }
                }
            }
            assert(f.params@.subrange(k as int, plen as int).subrange(1, (plen - k) as int)
                =~= f.params@.subrange(k + 1, plen as int));
        }
        k += 1;
    }
    proof {
        assert(f.params@.subrange(plen as int, plen as int) =~= Seq::<String>::empty());
    }
    let ghost stp = ctx@;
    match &f.stmts {
        None => {
            Ok(
                IrFunc {
                    name: f.name.clone(),
                    param_cnt: plen,
                    var_cnt: 0,
                    is_decl: true,
                    stmts: Vec::new(),
                },
            )
        }
        Some(body) => {
            let is_block = matches!(body, Stmt::Block(_));
            if is_block {
                match body {
                    Stmt::Block(b) => {
                        let n = b.0.len();
                        let mut j: usize = 0;
                        proof {
                            assert(b.0@.subrange(0, n as int) =~= b.0@);
                        }
                        while j < n
                            invariant
                                0 <= j <= n,
                                n == b.0@.len(),
                                lower_stmt_list(fnsv, globsv, stp, b.0@) == lower_stmt_list(
                                    fnsv,
                                    globsv,
                                    ctx@,
                                    b.0@.subrange(j as int, n as int),
                                ),
                                ctx@.frames.len() >= 1,
                                state_in_range(ctx@, globsv.len(), fnsv.len()),
                                labels_unique_lt(ctx@.code, ctx@.label_cnt as nat),
                                fits(ctx@, stmt_list_weight(b.0@.subrange(j as int, n as int))),
                            decreases n - j,
                        {
                            let ghost prev = ctx@;
                            proof {
                                lemma_stmt_list_weight_step(b.0@, j as int);
                                assert(b.0@.subrange(j as int, n as int)[0] == b.0@[j as int]);
                            }
                            match emit_stmt(&mut ctx, fns, globs, &b.0[j]) {
                                Ok(()) => {}
                                Err(er) => {
                                    return Err(er);
                                }
                            }
                            proof {
                                lemma_lower_stmt_ok(fnsv, globsv, prev, b.0@[j as int]);
                                assert(b.0@.subrange(j as int, n as int).subrange(
                                    1,
                                    (n - j) as int,
                                ) =~= b.0@.subrange(j + 1, n as int));
                            }
                            j += 1;
                        }
                        proof {
                            assert(b.0@.subrange(n as int, n as int) =~= Seq::<Stmt>::empty());
                        }
                    }
                    _ => {
                        proof {
                            assert(false);
                        }
                    }
                }
            } else {
                match emit_stmt(&mut ctx, fns, globs, body) {
                    Ok(()) => {}
                    Err(er) => {
                        return Err(er);
                    }
                }
                proof {
                    lemma_lower_stmt_ok(fnsv, globsv, stp, *body);
                }
            }
            let ghost stb = ctx@;
            let len = ctx.stmts.len();
            let ends_in_ret = len > 0 && matches!(ctx.stmts[len - 1], IrStmt::Ret);
            if !ends_in_ret {
                ctx.stmts.push(IrStmt::Ldc(0));
                ctx.stmts.push(IrStmt::Ret);
                proof {
                    assert(ctx@.code =~= stb.code + crate::lower::ret_fallback());
                }
            }
            proof {
                assert(ctx@.code == with_ret_fallback(stb.code));
                match body {
                    Stmt::Block(b) => {
                        lemma_lower_stmt_list_ok(fnsv, globsv, stp, b.0@);
                    }
                    _ => {}
                }
            }
            let vc = ctx.var_cnt - plen;
            Ok(
                IrFunc {
                    name: f.name.clone(),
                    param_cnt: plen,
                    var_cnt: vc,
                    is_decl: false,
                    stmts: ctx.stmts,
                },
            )
        }
    }
}

/// Lower a whole program: merge the global and function tables
/// program-wide (so forward references resolve regardless of declaration
/// order), then lower every function of the merged table. Returns exactly
/// what the model's `lower_prog` computes, for the same input.
#[verifier::rlimit(100)]
#[verifier::spinoff_prover]
pub fn ast2ir(p: &Prog) -> (r: Result<IrProg, CompileError>)
    requires
        prog_within_weight(*p),
    ensures
        match lower_prog(*p) {
            Ok(pv) => r matches Ok(g) && ir_prog_matches(g, pv),
            Err(e2) => r matches Err(e3) && e3 == e2,
        },
{
    let mut globs: Vec<(String, Option<i32>)> = Vec::new();
    let ng = p.globs.len();
    let mut i: usize = 0;
    proof {
        assert(p.globs@.subrange(0, ng as int) =~= p.globs@);
    }
    while i < ng
        invariant
            0 <= i <= ng,
            ng == p.globs@.len(),
            merge_globs(p.globs@) == merge_globs_from(
                globs@,
                p.globs@.subrange(i as int, ng as int),
            ),
        decreases ng - i,
    {
        proof {
            assert(p.globs@.subrange(i as int, ng as int)[0] == p.globs@[i as int]);
            assert(p.globs@.subrange(i as int, ng as int).subrange(1, (ng - i) as int)
                =~= p.globs@.subrange(i + 1, ng as int));
        }
        let g = &p.globs[i];
        match glob_get(&globs, &g.0) {
            None => {
                globs.push((g.0.clone(), g.1));
            }
            Some(j) => {
                proof {
                    lemma_glob_find(globs@, g.0@);
                }
                if globs[j].1.is_none() {
                    globs[j] = (g.0.clone(), g.1);
                } else if g.1.is_some() {
                    return Err(CompileError::ConflictingDefinition(g.0.clone()));
                }
            }
        }
        i += 1;
    }
    proof {
        assert(p.globs@.subrange(ng as int, ng as int) =~= Seq::<(String, Option<i32>)>::empty());
    }
    let mut table: Vec<&Func> = Vec::new();
    let nf = p.funcs.len();
    let mut i2: usize = 0;
    proof {
        assert(p.funcs@.subrange(0, nf as int) =~= p.funcs@);
        assert(table_view(table@) =~= Seq::<Func>::empty());
    }
    while i2 < nf
        invariant
            0 <= i2 <= nf,
            nf == p.funcs@.len(),
            merge_funcs(p.funcs@) == merge_funcs_from(
                table_view(table@),
                p.funcs@.subrange(i2 as int, nf as int),
            ),
        decreases nf - i2,
    {
        let ghost tv = table_view(table@);
        proof {
            assert(p.funcs@.subrange(i2 as int, nf as int)[0] == p.funcs@[i2 as int]);
            assert(p.funcs@.subrange(i2 as int, nf as int).subrange(1, (nf - i2) as int)
                =~= p.funcs@.subrange(i2 + 1, nf as int));
        }
        let f = &p.funcs[i2];
        match func_get(&table, &f.name) {
            None => {
                table.push(f);
                proof {
                    assert(table_view(table@) =~= tv.push(*f));
                }
            }
            Some(j) => {
                proof {
                    lemma_func_find(tv, f.name@);
                    assert(tv[j as int] == *table@[j as int]);
                }
                if table[j].stmts.is_none() {
                    table[j] = f;
                    proof {
                        assert(table_view(table@) =~= tv.update(j as int, *f));
                    }
                } else if f.stmts.is_some() {
                    return Err(CompileError::ConflictingDefinition(f.name.clone()));
                }
            }
        }
        i2 += 1;
    }
    proof {
        assert(p.funcs@.subrange(nf as int, nf as int) =~= Seq::<Func>::empty());
    }
    let ghost fnsv = table_view(table@);
    let ghost globsv = globs@;
    proof {
        crate::lower_lemmas::lemma_merge_funcs_weights(Seq::empty(), p.funcs@);
    }
    let mut out: Vec<IrFunc> = Vec::new();
    let ghost mut acc_model: Seq<IrFuncView> = Seq::empty();
    let nt = table.len();
    let mut k: usize = 0;
    proof {
        assert(fnsv.subrange(0, nt as int) =~= fnsv);
    }
    while k < nt
        invariant
            0 <= k <= nt,
            nt == table@.len(),
            fnsv == table_view(table@),
            globsv == globs@,
            lower_func_list_from(fnsv, globsv, Seq::empty(), fnsv) == lower_func_list_from(
                fnsv,
                globsv,
                acc_model,
                fnsv.subrange(k as int, nt as int),
            ),
            out@.len() == acc_model.len(),
            forall|j: int| 0 <= j < acc_model.len() ==> ir_func_matches(
                #[trigger] out@[j],
                acc_model[j],
            ),
            forall|j: int|
                0 <= j < fnsv.len() ==> func_weight(#[trigger] fnsv[j]) <= MAX_FUNC_WEIGHT,
        decreases nt - k,
    {
        proof {
            assert(fnsv.subrange(k as int, nt as int)[0] == fnsv[k as int]);
            assert(fnsv[k as int] == *table@[k as int]);
            assert(fnsv.subrange(k as int, nt as int).subrange(1, (nt - k) as int)
                =~= fnsv.subrange(k + 1, nt as int));
        }
        match emit_func(&table, &globs, table[k]) {
            Ok(g) => {
                out.push(g);
                proof {
                    acc_model = acc_model.push(lower_func(fnsv, globsv, fnsv[k as int])->Ok_0);
                    assert forall|j: int| 0 <= j < acc_model.len() implies ir_func_matches(
                        #[trigger] out@[j],
                        acc_model[j],
                    ) by {
                        if j < acc_model.len() - 1 {
                            assert(out@[j] == out@.drop_last()[j]);
                        }
                    }
                }
            }
            Err(er) => {
                return Err(er);
            }
        }
        k += 1;
    }
    proof {
        assert(fnsv.subrange(nt as int, nt as int) =~= Seq::<Func>::empty());
    }
    Ok(IrProg { funcs: out, globs })
}

} // verus!
