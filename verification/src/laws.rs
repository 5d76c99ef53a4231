//! The laws of the translation, stated and proved against the model.
//!
//! Everything here is a consequence of the equations in `lower`; the
//! executable pipeline returns exactly what those equations compute, so
//! each law carries over to the built IR and the rendered assembly.

use vstd::prelude::*;
use crate::ast::{Prog, Func, Stmt, Expr, BinaryOp, expr_weight, stmt_weight, func_weight,
    MAX_FUNC_WEIGHT};
use crate::ir::{IrStmt, IrProg};
use crate::errors::CompileError;
use crate::resolve::{FrameView, ScopeView, frame_lookup, scope_lookup, glob_find};
use crate::lower::{LowerState, IrProgView, lower_expr, lower_stmt, lower_stmt_list,
    declare_params, resolve_var, init_state, lower_func, lower_prog, with_ret_fallback,
    ret_fallback, prog_view};
use crate::lower_lemmas::{fits, state_in_range, labels_unique_lt, lemma_lower_expr_ok,
    lemma_lower_stmt_ok, lemma_lower_stmt_list_ok, lemma_declare_params_ok,
    lemma_labels_push_other};
use crate::codegen::asm_text;
use crate::emit::ir_prog_matches;

verus! {

/// Determinism: the lowering is a function of the syntax tree alone, so
/// two results of lowering the same tree are one and the same, down to
/// the last instruction.
pub proof fn lemma_lowering_deterministic(
    p: Prog,
    r1: Result<IrProgView, CompileError>,
    r2: Result<IrProgView, CompileError>,
)
    requires
        r1 == lower_prog(p),
        r2 == lower_prog(p),
    ensures
        r1 == r2,
{
}

/// Determinism, carried to the built artifacts: two `IrProg`s that carry
/// the same lowered program render to byte-identical assembly text.
pub proof fn lemma_ir_determined(g1: IrProg, g2: IrProg, pv: IrProgView)
    requires
        ir_prog_matches(g1, pv),
        ir_prog_matches(g2, pv),
    ensures
        prog_view(g1) == prog_view(g2),
        asm_text(prog_view(g1)) == asm_text(prog_view(g2)),
{
    assert(prog_view(g1).funcs =~= pv.funcs);
    assert(prog_view(g2).funcs =~= pv.funcs);
    assert(prog_view(g1) =~~= prog_view(g2));
}

/// Return fallback, part one: whatever a body lowered to, the recorded
/// code ends in `Ret`; and where the body's own code does not already
/// end in `Ret`, exactly `Ldc(0); Ret` was appended.
pub proof fn lemma_with_ret_fallback(code: Seq<IrStmt>)
    ensures
        with_ret_fallback(code).len() > 0,
        with_ret_fallback(code).last() == IrStmt::Ret,
        (code.len() == 0 || code.last() != IrStmt::Ret) ==> with_ret_fallback(code) == code
            + ret_fallback(),
        (code.len() > 0 && code.last() == IrStmt::Ret) ==> with_ret_fallback(code) == code,
{
    if code.len() == 0 || code.last() != IrStmt::Ret {
        assert(with_ret_fallback(code) == code + ret_fallback());
        assert((code + ret_fallback()).last() == IrStmt::Ret);
    }
}

/// Return fallback, part two: every function lowered from a body ends in
/// `Ret`, so every function has a representable exit value.
pub proof fn lemma_func_code_ends_in_ret(
    fns: Seq<Func>,
    globs: Seq<(String, Option<i32>)>,
    f: Func,
)
    requires
        lower_func(fns, globs, f) is Ok,
        f.stmts is Some,
    ensures
        !lower_func(fns, globs, f)->Ok_0.is_decl,
        lower_func(fns, globs, f)->Ok_0.code.len() > 0,
        lower_func(fns, globs, f)->Ok_0.code.last() == IrStmt::Ret,
{
    if let Ok(st0) = declare_params(init_state(), f.params@) {
        if let Some(body) = f.stmts {
            let lowered = match body {
                Stmt::Block(b) => lower_stmt_list(fns, globs, st0, b.0@),
                _ => lower_stmt(fns, globs, st0, body),
            };
            if let Ok(st1) = lowered {
                lemma_with_ret_fallback(st1.code);
            }
        }
    }
}

/// A statement whose lowering always closes with an instruction other
/// than `Ret`: such a statement at the end of a body forces the return
/// fallback. A `return`, an empty statement, a bare declaration (which
/// emit nothing) and a block (which ends however its own last statement
/// does) are excluded.
pub open spec fn stmt_closes_without_ret(s: Stmt) -> bool {
    match s {
        Stmt::Empty => false,
        Stmt::Ret(_) => false,
        Stmt::Def(_, init) => init is Some,
        Stmt::Expr(_) => true,
        Stmt::If(_, _, _) => true,
        Stmt::Block(_) => false,
        Stmt::While(_, _) => true,
        Stmt::DoWhile(_, _) => true,
        Stmt::For { .. } => true,
        Stmt::Continue => true,
        Stmt::Break => true,
    }
}

/// Lowering a statement of that class leaves the code strictly longer
/// and not ending in `Ret`: its final instruction is the construct's own
/// closing `Pop`, `Store`, `Jump` or label.
pub proof fn lemma_stmt_closes_without_ret(
    fns: Seq<Func>,
    globs: Seq<(String, Option<i32>)>,
    st: LowerState,
    s: Stmt,
)
    requires
        stmt_closes_without_ret(s),
        lower_stmt(fns, globs, st, s) is Ok,
    ensures
        lower_stmt(fns, globs, st, s)->Ok_0.code.len() > 0,
        lower_stmt(fns, globs, st, s)->Ok_0.code.last() != IrStmt::Ret,
{
}

/// Lowering a run of statements works front to back: the whole run is
/// the run without its last statement, then that statement.
pub proof fn lemma_lower_stmt_list_snoc(
    fns: Seq<Func>,
    globs: Seq<(String, Option<i32>)>,
    st: LowerState,
    ss: Seq<Stmt>,
)
    requires
        ss.len() > 0,
    ensures
        lower_stmt_list(fns, globs, st, ss) == (match lower_stmt_list(
            fns,
            globs,
            st,
            ss.drop_last(),
        ) {
            Ok(st1) => lower_stmt(fns, globs, st1, ss.last()),
            Err(er) => Err(er),
        }),
    decreases ss,
{
    if ss.len() == 1 {
        assert(ss.drop_last() =~= Seq::<Stmt>::empty());
        assert(ss.subrange(1, ss.len() as int) =~= Seq::<Stmt>::empty());
    } else {
        match lower_stmt(fns, globs, st, ss[0]) {
            Ok(st1) => {
                let rest = ss.subrange(1, ss.len() as int);
                lemma_lower_stmt_list_snoc(fns, globs, st1, rest);
                assert(rest.drop_last() =~= ss.drop_last().subrange(
                    1,
                    ss.drop_last().len() as int,
                ));
                assert(rest.last() == ss.last());
                assert(ss.drop_last()[0] == ss[0]);
            }
            Err(_) => {
                assert(ss.drop_last()[0] == ss[0]);
            }
        }
    }
}

/// Return fallback, part three — the syntactic form: where a function
/// body's last statement visibly cannot end in a `return` (it closes
/// with a jump, a label, a `Pop` or a `Store`), the produced code is the
/// body's code with exactly `Ldc(0); Ret` appended.
pub proof fn lemma_return_fallback_appended(
    fns: Seq<Func>,
    globs: Seq<(String, Option<i32>)>,
    f: Func,
)
    requires
        lower_func(fns, globs, f) is Ok,
        f.stmts matches Some(Stmt::Block(b)) && b.0@.len() > 0 && stmt_closes_without_ret(
            b.0@.last(),
        ),
    ensures
        ({
            let code = lower_func(fns, globs, f)->Ok_0.code;
            code.len() >= 2 && code[code.len() - 2] == IrStmt::Ldc(0) && code.last()
                == IrStmt::Ret
        }),
{
    if let Ok(st0) = declare_params(init_state(), f.params@) {
        if let Some(body) = f.stmts {
            if let Stmt::Block(b) = body {
                lemma_lower_stmt_list_snoc(fns, globs, st0, b.0@);
                if let Ok(st1) = lower_stmt_list(fns, globs, st0, b.0@) {
                    match lower_stmt_list(fns, globs, st0, b.0@.drop_last()) {
                        Ok(stm) => {
                            lemma_stmt_closes_without_ret(fns, globs, stm, b.0@.last());
                            lemma_with_ret_fallback(st1.code);
                            let code = with_ret_fallback(st1.code);
                            assert(code == st1.code + ret_fallback());
                            assert(code[code.len() - 2] == IrStmt::Ldc(0));
                        }
                        Err(_) => {}
                    }
                }
            }
        }
    }
}

/// Label identifiers are unique within a function: every `Label`
/// instruction of a lowered function's code carries an id of its own,
/// drawn once from the per-function monotonic counter.
pub proof fn lemma_labels_unique_per_func(
    fns: Seq<Func>,
    globs: Seq<(String, Option<i32>)>,
    f: Func,
)
    requires
        func_weight(f) <= MAX_FUNC_WEIGHT,
        lower_func(fns, globs, f) is Ok,
    ensures
        ({
            let code = lower_func(fns, globs, f)->Ok_0.code;
            forall|i: int, j: int|
                0 <= i < j < code.len() && (#[trigger] code[i]) is Label && (
                #[trigger] code[j]) is Label ==> code[i]->Label_0 != code[j]->Label_0
        }),
{
    let st_init = init_state();
    assert(crate::lower_lemmas::frame_slots_lt(st_init.frames[0], 0));
    lemma_declare_params_ok(st_init, f.params@, globs.len(), fns.len());
    if let Ok(st0) = declare_params(init_state(), f.params@) {
        if let Some(body) = f.stmts {
            let lowered = match body {
                Stmt::Block(b) => lower_stmt_list(fns, globs, st0, b.0@),
                _ => lower_stmt(fns, globs, st0, body),
            };
            match body {
                Stmt::Block(b) => {
                    lemma_lower_stmt_list_ok(fns, globs, st0, b.0@);
                }
                _ => {
                    lemma_lower_stmt_ok(fns, globs, st0, body);
                }
            }
            if let Ok(st1) = lowered {
                if st1.code.len() > 0 && st1.code.last() == IrStmt::Ret {
                } else {
                    assert(with_ret_fallback(st1.code) =~= st1.code.push(IrStmt::Ldc(0)).push(
                        IrStmt::Ret,
                    ));
                    lemma_labels_push_other(st1.code, IrStmt::Ldc(0), st1.label_cnt as nat);
                    lemma_labels_push_other(st1.code.push(IrStmt::Ldc(0)), IrStmt::Ret,
                        st1.label_cnt as nat);
                }
            }
        }
    }
}

/// Scope shadowing, part one: a name bound in the innermost frame
/// resolves to that binding, whatever any enclosing frame or the global
/// table says about the same name.
pub proof fn lemma_shadowing_innermost(
    frames: ScopeView,
    globs: Seq<(String, Option<i32>)>,
    name: Seq<char>,
    slot: usize,
)
    requires
        frames.len() > 0,
        frame_lookup(frames.last(), name) == Some(slot),
    ensures
        resolve_var(frames, globs, name) == Some((false, slot)),
{
}

/// Scope shadowing, part two: once the innermost frame closes, a name
/// resolves exactly as it did before that frame opened — the outer
/// binding is visible again.
pub proof fn lemma_shadowing_scope_close(
    frames: ScopeView,
    fr: FrameView,
    globs: Seq<(String, Option<i32>)>,
    name: Seq<char>,
)
    requires
        frame_lookup(fr, name) is None,
    ensures
        resolve_var(frames.push(fr), globs, name) == resolve_var(frames, globs, name),
{
    assert(frames.push(fr).last() == fr);
    assert(frames.push(fr).drop_last() =~= frames);
}

/// Global/local disambiguation: a name bound in no frame falls through
/// to the global table; one bound in any frame never touches it.
pub proof fn lemma_global_fallthrough(
    frames: ScopeView,
    globs: Seq<(String, Option<i32>)>,
    name: Seq<char>,
)
    ensures
        scope_lookup(frames, name) is None ==> resolve_var(frames, globs, name) == (
        match glob_find(globs, name) {
            Some(i) => Some((true, i as usize)),
            None => None,
        }),
        scope_lookup(frames, name) matches Some(slot) ==> resolve_var(frames, globs, name)
            == Some((false, slot)),
{
}

/// Short-circuit `&&`: the lowered form of `a && b` evaluates `a`, then
/// branches on zero to a label that stands after `b`'s code — so a false
/// `a` reaches the `Ldc(0)` tail without ever running `b`'s code. The
/// branch target occurs exactly once in the emitted instructions, three
/// before the end.
pub proof fn lemma_short_circuit_and(
    fns: Seq<Func>,
    globs: Seq<(String, Option<i32>)>,
    st: LowerState,
    e: Expr,
)
    requires
        e matches Expr::Binary(BinaryOp::And, _, _),
        state_in_range(st, globs.len(), fns.len()),
        labels_unique_lt(st.code, st.label_cnt as nat),
        fits(st, expr_weight(e)),
    ensures
        lower_expr(fns, globs, st, e) is Ok ==> ({
            let l = *e->Binary_1;
            let r = *e->Binary_2;
            let st1 = lower_expr(fns, globs, st, l)->Ok_0;
            let lf = st1.label_cnt;
            let le = (st1.label_cnt + 1) as usize;
            let st2 = lower_expr(fns, globs, st1.mint(2).emit(IrStmt::Bz(lf)), r)->Ok_0;
            let stf = lower_expr(fns, globs, st, e)->Ok_0;
            &&& lower_expr(fns, globs, st, l) is Ok
            &&& lower_expr(fns, globs, st1.mint(2).emit(IrStmt::Bz(lf)), r) is Ok
            &&& stf.code == st2.code + seq![
                IrStmt::Bz(lf),
                IrStmt::Ldc(1),
                IrStmt::Jump(le),
                IrStmt::Label(lf),
                IrStmt::Ldc(0),
                IrStmt::Label(le),
            ]
            &&& st2.code.subrange(0, st1.code.len() as int + 1) == st1.code.push(IrStmt::Bz(lf))
            &&& forall|i: int|
                st.code.len() <= i < stf.code.len() ==> ((stf.code[i] == IrStmt::Label(lf))
                    <==> i == stf.code.len() - 3)
        }),
{
    let vb = st.var_cnt as nat;
    if let Expr::Binary(op, l0, r0) = e {
        let l = *l0;
        let r = *r0;
        lemma_lower_expr_ok(fns, globs, st, l, vb);
        if let Ok(st1) = lower_expr(fns, globs, st, l) {
            let lf = st1.label_cnt;
            let le = (st1.label_cnt + 1) as usize;
            let st1b = st1.mint(2).emit(IrStmt::Bz(lf));
            crate::lower_lemmas::lemma_code_push(st1.code, IrStmt::Bz(lf), vb, globs.len(),
                fns.len());
            lemma_lower_expr_ok(fns, globs, st1b, r, vb);
            if let Ok(st2) = lower_expr(fns, globs, st1b, r) {
                let stf = lower_expr(fns, globs, st, e)->Ok_0;
                assert(st2.code.subrange(0, st1.code.len() as int + 1) =~= st1.code.push(
                    IrStmt::Bz(lf),
                ));
                assert forall|i: int|
                    st.code.len() <= i < stf.code.len() implies ((stf.code[i]
                    == IrStmt::Label(lf)) <==> i == stf.code.len() - 3) by {
                    if i < st1.code.len() {
                        assert(stf.code[i] == st2.code[i]);
                        assert(st2.code[i] == st1b.code[i]);
                        assert(st1b.code[i] == st1.code[i]);
                        assert(stf.code[i] matches IrStmt::Label(x) ==> x < st1.label_cnt);
                    } else if i == st1.code.len() {
                        assert(stf.code[i] == st2.code[i]);
                        assert(st2.code[i] == st1b.code[i]);
                        assert(st1b.code[i] == IrStmt::Bz(lf));
                    } else if i < st2.code.len() {
                        assert(stf.code[i] == st2.code[i]);
                        assert(stf.code[i] matches IrStmt::Label(x) ==> st1b.label_cnt <= x
                            < st2.label_cnt);
                    } else {
                        assert(stf.code[i] == seq![
                            IrStmt::Bz(lf),
                            IrStmt::Ldc(1),
                            IrStmt::Jump(le),
                            IrStmt::Label(lf),
                            IrStmt::Ldc(0),
                            IrStmt::Label(le),
                        ][i - st2.code.len()]);
                    }
                }
            }
        }
    }
}

/// Short-circuit `||`: symmetric to `&&` — a true left operand branches
/// on nonzero past the right operand's code to the `Ldc(1)` tail.
pub proof fn lemma_short_circuit_or(
    fns: Seq<Func>,
    globs: Seq<(String, Option<i32>)>,
    st: LowerState,
    e: Expr,
)
    requires
        e matches Expr::Binary(BinaryOp::Or, _, _),
        state_in_range(st, globs.len(), fns.len()),
        labels_unique_lt(st.code, st.label_cnt as nat),
        fits(st, expr_weight(e)),
    ensures
        lower_expr(fns, globs, st, e) is Ok ==> ({
            let l = *e->Binary_1;
            let r = *e->Binary_2;
            let st1 = lower_expr(fns, globs, st, l)->Ok_0;
            let lt = st1.label_cnt;
            let le = (st1.label_cnt + 1) as usize;
            let st2 = lower_expr(fns, globs, st1.mint(2).emit(IrStmt::Bnz(lt)), r)->Ok_0;
            let stf = lower_expr(fns, globs, st, e)->Ok_0;
            &&& lower_expr(fns, globs, st, l) is Ok
            &&& lower_expr(fns, globs, st1.mint(2).emit(IrStmt::Bnz(lt)), r) is Ok
            &&& stf.code == st2.code + seq![
                IrStmt::Bnz(lt),
                IrStmt::Ldc(0),
                IrStmt::Jump(le),
                IrStmt::Label(lt),
                IrStmt::Ldc(1),
                IrStmt::Label(le),
            ]
            &&& st2.code.subrange(0, st1.code.len() as int + 1) == st1.code.push(IrStmt::Bnz(lt))
            &&& forall|i: int|
                st.code.len() <= i < stf.code.len() ==> ((stf.code[i] == IrStmt::Label(lt))
                    <==> i == stf.code.len() - 3)
        }),
{
    let vb = st.var_cnt as nat;
    if let Expr::Binary(op, l0, r0) = e {
        let l = *l0;
        let r = *r0;
        lemma_lower_expr_ok(fns, globs, st, l, vb);
        if let Ok(st1) = lower_expr(fns, globs, st, l) {
            let lt = st1.label_cnt;
            let le = (st1.label_cnt + 1) as usize;
            let st1b = st1.mint(2).emit(IrStmt::Bnz(lt));
            crate::lower_lemmas::lemma_code_push(st1.code, IrStmt::Bnz(lt), vb, globs.len(),
                fns.len());
            lemma_lower_expr_ok(fns, globs, st1b, r, vb);
            if let Ok(st2) = lower_expr(fns, globs, st1b, r) {
                let stf = lower_expr(fns, globs, st, e)->Ok_0;
                assert(st2.code.subrange(0, st1.code.len() as int + 1) =~= st1.code.push(
                    IrStmt::Bnz(lt),
                ));
                assert forall|i: int|
                    st.code.len() <= i < stf.code.len() implies ((stf.code[i]
                    == IrStmt::Label(lt)) <==> i == stf.code.len() - 3) by {
                    if i < st1.code.len() {
                        assert(stf.code[i] == st2.code[i]);
                        assert(st2.code[i] == st1b.code[i]);
                        assert(st1b.code[i] == st1.code[i]);
                        assert(stf.code[i] matches IrStmt::Label(x) ==> x < st1.label_cnt);
                    } else if i == st1.code.len() {
                        assert(stf.code[i] == st2.code[i]);
                        assert(st2.code[i] == st1b.code[i]);
                        assert(st1b.code[i] == IrStmt::Bnz(lt));
                    } else if i < st2.code.len() {
                        assert(stf.code[i] == st2.code[i]);
                        assert(stf.code[i] matches IrStmt::Label(x) ==> st1b.label_cnt <= x
                            < st2.label_cnt);
                    } else {
                        assert(stf.code[i] == seq![
                            IrStmt::Bnz(lt),
                            IrStmt::Ldc(0),
                            IrStmt::Jump(le),
                            IrStmt::Label(lt),
                            IrStmt::Ldc(1),
                            IrStmt::Label(le),
                        ][i - st2.code.len()]);
                    }
                }
            }
        }
    }
}

/// Loop targets, part one: `continue` emits exactly one jump, to the
/// continue target of the innermost active loop context; `break` to its
/// break target.
pub proof fn lemma_break_continue_targets(
    fns: Seq<Func>,
    globs: Seq<(String, Option<i32>)>,
    st: LowerState,
)
    requires
        st.loops.len() > 0,
    ensures
        lower_stmt(fns, globs, st, Stmt::Continue) == Ok::<LowerState, CompileError>(
            st.emit(IrStmt::Jump(st.loops.last().1)),
        ),
        lower_stmt(fns, globs, st, Stmt::Break) == Ok::<LowerState, CompileError>(
            st.emit(IrStmt::Jump(st.loops.last().0)),
        ),
{
}

/// Loop targets, part two: a `for` loop's body is lowered under a loop
/// context whose continue target is the update label, and that label
/// stands right after the body's code, before the update expression and
/// the back-jump to the condition — so `continue` re-runs the update
/// before the condition is re-tested.
#[verifier::rlimit(100)]
#[verifier::spinoff_prover]
pub proof fn lemma_for_continue_goes_to_update(
    fns: Seq<Func>,
    globs: Seq<(String, Option<i32>)>,
    st: LowerState,
    s: Stmt,
)
    requires
        s matches Stmt::For { .. },
        st.frames.len() >= 1,
        state_in_range(st, globs.len(), fns.len()),
        labels_unique_lt(st.code, st.label_cnt as nat),
        fits(st, stmt_weight(s)),
    ensures
        lower_stmt(fns, globs, st, s) is Ok ==> ({
            let st1 = LowerState { frames: st.frames.push(Seq::empty()), ..st };
            let after_init = match s->For_init {
                Some(i) => lower_stmt(fns, globs, st1, *i),
                None => Ok(st1),
            };
            let st2 = after_init->Ok_0;
            let bc = st2.label_cnt;
            let bu = (st2.label_cnt + 1) as usize;
            let ab = (st2.label_cnt + 2) as usize;
            let st3 = LowerState { loops: st2.loops.push((ab, bu)), ..st2.mint(3) }.emit(
                IrStmt::Label(bc),
            );
            let after_cond = match s->For_cond {
                Some(c) => lower_expr(fns, globs, st3, c),
                None => Ok(st3.emit(IrStmt::Ldc(1))),
            };
            let st4 = after_cond->Ok_0.emit(IrStmt::Bz(ab));
            let st5 = lower_stmt(fns, globs, st4, *s->For_body)->Ok_0;
            &&& after_init is Ok
            &&& after_cond is Ok
            &&& lower_stmt(fns, globs, st4, *s->For_body) is Ok
            // the body runs under (break-target ab, continue-target bu):
            &&& st4.loops.len() > 0 && st4.loops.last() == (ab, bu)
            // the update label follows the body's code immediately:
            &&& lower_stmt(fns, globs, st5.emit(IrStmt::Label(bu)), Stmt::Empty) is Ok
            &&& st5.emit(IrStmt::Label(bu)).code == st5.code.push(IrStmt::Label(bu))
            // and the whole construct ends with the back-jump to the
            // condition and the exit label:
            &&& ({
                let after_update = match s->For_update {
                    Some(u) => lower_expr(fns, globs, st5.emit(IrStmt::Label(bu)), u),
                    None => Ok(st5.emit(IrStmt::Label(bu))),
                };
                let st6 = after_update->Ok_0;
                &&& after_update is Ok
                &&& lower_stmt(fns, globs, st, s)->Ok_0.code == st6.code.push(
                    IrStmt::Jump(bc),
                ).push(IrStmt::Label(ab))
            })
        }),
{
    let nglobs = globs.len();
    let nfns = fns.len();
    let vb = st.var_cnt as nat;
    if let Stmt::For { init, cond, update, body } = s {
        let st1 = LowerState { frames: st.frames.push(Seq::empty()), ..st };
        assert forall|i: int| 0 <= i < st1.frames.len() implies
            crate::lower_lemmas::frame_slots_lt(#[trigger] st1.frames[i], vb) by {
            if i < st1.frames.len() - 1 {
                assert(st1.frames[i] == st.frames[i]);
            } else {
                assert(st1.frames[i] =~= Seq::<(String, usize)>::empty());
            }
        }
        if let Some(i2) = init {
            lemma_lower_stmt_ok(fns, globs, st1, *i2);
        }
        let after_init = match init {
            Some(i2) => lower_stmt(fns, globs, st1, *i2),
            None => Ok::<LowerState, CompileError>(st1),
        };
        if let Ok(st2) = after_init {
            let bc = st2.label_cnt;
            let bu = (st2.label_cnt + 1) as usize;
            let ab = (st2.label_cnt + 2) as usize;
            let st3 = LowerState { loops: st2.loops.push((ab, bu)), ..st2.mint(3) }.emit(
                IrStmt::Label(bc),
            );
            crate::lower_lemmas::lemma_code_push(st2.code, IrStmt::Label(bc),
                st2.var_cnt as nat, nglobs, nfns);
            if let Some(c) = cond {
                lemma_lower_expr_ok(fns, globs, st3, c, st2.var_cnt as nat);
            } else {
                crate::lower_lemmas::lemma_code_push(st3.code, IrStmt::Ldc(1),
                    st2.var_cnt as nat, nglobs, nfns);
            }
            let after_cond = match cond {
                Some(c) => lower_expr(fns, globs, st3, c),
                None => Ok::<LowerState, CompileError>(st3.emit(IrStmt::Ldc(1))),
            };
            if let Ok(st4p) = after_cond {
                let st4 = st4p.emit(IrStmt::Bz(ab));
                crate::lower_lemmas::lemma_code_push(st4p.code, IrStmt::Bz(ab),
                    st4p.var_cnt as nat, nglobs, nfns);
                lemma_lower_stmt_ok(fns, globs, st4, *body);
                if let Ok(st5) = lower_stmt(fns, globs, st4, *body) {
                    crate::lower_lemmas::lemma_code_push(st5.code, IrStmt::Label(bu),
                        st5.var_cnt as nat, nglobs, nfns);
                    if let Some(u) = update {
                        lemma_lower_expr_ok(fns, globs, st5.emit(IrStmt::Label(bu)), u,
                            st5.var_cnt as nat);
                    }
                }
            }
        }
    }
}

} // verus!
