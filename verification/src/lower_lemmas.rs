//! Invariants of the lowering model.
//!
//! One mutual induction over the model equations establishes, for every
//! successfully lowered construct: the scope stack keeps its depth, the
//! loop-context stack is restored, the two counters grow by at most the
//! node's weight (so they never overflow a machine word), emission only
//! appends, and every id an emitted instruction mentions stays inside the
//! tables it refers to.

use vstd::prelude::*;
use crate::ast::{Func, Stmt, Expr, expr_weight, expr_list_weight, stmt_weight, stmt_list_weight,
    MAX_FUNC_WEIGHT};
use crate::ir::{IrStmt, instr_in_range};
use crate::errors::CompileError;
use crate::resolve::{FrameView, ScopeView, frame_lookup, scope_lookup, glob_find, func_find,
    lemma_glob_find, lemma_func_find};
use crate::ast::{Prog, func_weight, prog_within_weight};
use crate::lower::{LowerState, IrFuncView, lower_expr, lower_expr_list, lower_stmt,
    lower_stmt_list, declare_var, declare_params, resolve_var, load_instr, store_instr,
    init_state, lower_func, lower_func_list_from, merge_func, merge_funcs, merge_funcs_from,
    merge_globs, lower_prog, with_ret_fallback};

verus! {

/// Every slot recorded in one frame was drawn from the first `vars`
/// counter values.
pub open spec fn frame_slots_lt(fr: FrameView, vars: nat) -> bool {
    forall|j: int| 0 <= j < fr.len() ==> (#[trigger] fr[j]).1 < vars
}

/// Every slot recorded anywhere in the scope stack is below `vars`.
pub open spec fn frames_slots_lt(frames: ScopeView, vars: nat) -> bool {
    forall|i: int| 0 <= i < frames.len() ==> frame_slots_lt(#[trigger] frames[i], vars)
}

/// Every id mentioned by the emitted code stays inside the tables.
pub open spec fn code_in_range(code: Seq<IrStmt>, vars: nat, globs: nat, fns: nat) -> bool {
    forall|i: int| 0 <= i < code.len() ==> instr_in_range(#[trigger] code[i], vars, globs, fns)
}

/// The well-formedness carried through lowering: recorded slots and
/// emitted ids are all in range for the current counters and tables.
pub open spec fn state_in_range(st: LowerState, globs: nat, fns: nat) -> bool {
    frames_slots_lt(st.frames, st.var_cnt as nat)
        && code_in_range(st.code, st.var_cnt as nat, globs, fns)
}

/// Both counters have room for `w` more weight units.
pub open spec fn fits(st: LowerState, w: nat) -> bool {
    st.var_cnt + w <= MAX_FUNC_WEIGHT && st.label_cnt + w <= MAX_FUNC_WEIGHT
}

/// How a successfully lowered construct of weight `w` may move the state:
/// same scope depth, same loop contexts, counters up by at most `w`, and
/// the previously emitted code kept unchanged in place.
pub open spec fn grows_to(st: LowerState, st1: LowerState, w: nat) -> bool {
    &&& st1.frames.len() == st.frames.len()
    &&& st1.loops == st.loops
    &&& st.var_cnt <= st1.var_cnt <= st.var_cnt + w
    &&& st.label_cnt <= st1.label_cnt <= st.label_cnt + w
    &&& st.code.len() <= st1.code.len()
    &&& forall|i: int| 0 <= i < st.code.len() ==> st1.code[i] == st.code[i]
}

/// Every `Label` instruction the step emitted carries a label minted by
/// the step itself: at least the old counter, below the new one.
pub open spec fn new_labels_in(st: LowerState, st1: LowerState) -> bool {
    forall|i: int|
        st.code.len() <= i < st1.code.len() ==> ((#[trigger] st1.code[i]) matches IrStmt::Label(x)
            ==> st.label_cnt <= x < st1.label_cnt)
}

/// Every label instruction in the code carries an id below `cnt`, and
/// no two label instructions carry the same id: labels are minted from a
/// monotonic counter and each minted id is placed at most once.
pub open spec fn labels_unique_lt(code: Seq<IrStmt>, cnt: nat) -> bool {
    &&& forall|i: int|
        0 <= i < code.len() ==> ((#[trigger] code[i]) matches IrStmt::Label(x) ==> x < cnt)
    &&& forall|i: int, j: int|
        0 <= i < j < code.len() && (#[trigger] code[i]) is Label && (#[trigger] code[j]) is Label
            ==> code[i]->Label_0 != code[j]->Label_0
}

/// A larger counter keeps the labels unique and bounded.
pub proof fn lemma_labels_widen(code: Seq<IrStmt>, c1: nat, c2: nat)
    requires
        labels_unique_lt(code, c1),
        c1 <= c2,
    ensures
        labels_unique_lt(code, c2),
{
}

/// Appending an instruction that is not a label changes no label.
pub proof fn lemma_labels_push_other(code: Seq<IrStmt>, x: IrStmt, cnt: nat)
    requires
        labels_unique_lt(code, cnt),
        !(x is Label),
    ensures
        labels_unique_lt(code.push(x), cnt),
{
    assert forall|i: int|
        0 <= i < code.push(x).len() implies ((#[trigger] code.push(x)[i]) matches IrStmt::Label(
        y,
    ) ==> y < cnt) by {
        if i < code.len() {
            assert(code.push(x)[i] == code[i]);
        } else {
            assert(code.push(x)[i] == x);
        }
    }
    assert forall|i: int, j: int|
        0 <= i < j < code.push(x).len() && (#[trigger] code.push(x)[i]) is Label && (
        #[trigger] code.push(x)[j]) is Label implies code.push(x)[i]->Label_0
        != code.push(x)[j]->Label_0 by {
        assert(code.push(x)[i] == code[i]);
        if j < code.len() {
            assert(code.push(x)[j] == code[j]);
        } else {
            assert(code.push(x)[j] == x);
        }
    }
}

/// Appending a label no existing label matches keeps the labels unique.
pub proof fn lemma_labels_push_label(code: Seq<IrStmt>, x: usize, cnt: nat)
    requires
        labels_unique_lt(code, cnt),
        x < cnt,
        forall|i: int|
            0 <= i < code.len() ==> ((#[trigger] code[i]) matches IrStmt::Label(y) ==> y != x),
    ensures
        labels_unique_lt(code.push(IrStmt::Label(x)), cnt),
{
    assert forall|i: int|
        0 <= i < code.push(IrStmt::Label(x)).len() implies ((#[trigger] code.push(
        IrStmt::Label(x),
    )[i]) matches IrStmt::Label(y) ==> y < cnt) by {
        if i < code.len() {
            assert(code.push(IrStmt::Label(x))[i] == code[i]);
        } else {
            assert(code.push(IrStmt::Label(x))[i] == IrStmt::Label(x));
        }
    }
    assert forall|i: int, j: int|
        0 <= i < j < code.push(IrStmt::Label(x)).len() && (#[trigger] code.push(
        IrStmt::Label(x),
    )[i]) is Label && (#[trigger] code.push(IrStmt::Label(x))[j]) is Label implies code.push(
        IrStmt::Label(x),
    )[i]->Label_0 != code.push(IrStmt::Label(x))[j]->Label_0 by {
        assert(code.push(IrStmt::Label(x))[i] == code[i]);
        if j < code.len() {
            assert(code.push(IrStmt::Label(x))[j] == code[j]);
        } else {
            assert(code.push(IrStmt::Label(x))[j] == IrStmt::Label(x));
        }
    }
}

/// Appending an in-range instruction preserves `code_in_range`.
pub proof fn lemma_code_push(code: Seq<IrStmt>, x: IrStmt, vars: nat, globs: nat, fns: nat)
    requires
        code_in_range(code, vars, globs, fns),
        instr_in_range(x, vars, globs, fns),
    ensures
        code_in_range(code.push(x), vars, globs, fns),
{
    assert forall|i: int| 0 <= i < code.push(x).len() implies instr_in_range(
        #[trigger] code.push(x)[i],
        vars,
        globs,
        fns,
    ) by {
        if i < code.len() {
            assert(code.push(x)[i] == code[i]);
        } else {
            assert(code.push(x)[i] == x);
        }
    }
}

/// A larger slot counter keeps emitted code in range.
pub proof fn lemma_code_widen(code: Seq<IrStmt>, v1: nat, v2: nat, globs: nat, fns: nat)
    requires
        code_in_range(code, v1, globs, fns),
        v1 <= v2,
    ensures
        code_in_range(code, v2, globs, fns),
{
    assert forall|i: int| 0 <= i < code.len() implies instr_in_range(
        #[trigger] code[i],
        v2,
        globs,
        fns,
    ) by {
        crate::ir::lemma_instr_in_range_widen(code[i], v1, globs, fns, v2, globs, fns);
    }
}

/// A slot found in one frame is in range of the frame's bound.
pub proof fn lemma_frame_lookup_lt(fr: FrameView, name: Seq<char>, vars: nat)
    requires
        frame_slots_lt(fr, vars),
        frame_lookup(fr, name) is Some,
    ensures
        frame_lookup(fr, name)->Some_0 < vars,
    decreases fr.len(),
{
    if fr.len() > 0 && fr.last().0@ != name {
        assert(forall|j: int| 0 <= j < fr.drop_last().len() ==> fr.drop_last()[j] == fr[j]);
        lemma_frame_lookup_lt(fr.drop_last(), name, vars);
    }
}

/// A slot found anywhere in the scope stack is in range.
pub proof fn lemma_scope_lookup_lt(frames: ScopeView, name: Seq<char>, vars: nat)
    requires
        frames_slots_lt(frames, vars),
        scope_lookup(frames, name) is Some,
    ensures
        scope_lookup(frames, name)->Some_0 < vars,
    decreases frames.len(),
{
    if frames.len() > 0 {
        if frame_lookup(frames.last(), name) is Some {
            lemma_frame_lookup_lt(frames.last(), name, vars);
        } else {
            assert(forall|i: int|
                0 <= i < frames.drop_last().len() ==> frames.drop_last()[i] == frames[i]);
            lemma_scope_lookup_lt(frames.drop_last(), name, vars);
        }
    }
}

/// What a resolved variable's load and store may mention.
pub proof fn lemma_resolve_in_range(
    frames: ScopeView,
    globs: Seq<(String, Option<i32>)>,
    name: Seq<char>,
    vars: nat,
)
    requires
        frames_slots_lt(frames, vars),
        resolve_var(frames, globs, name) is Some,
    ensures
        instr_in_range(
            load_instr(
                resolve_var(frames, globs, name)->Some_0.0,
                resolve_var(frames, globs, name)->Some_0.1,
            ),
            vars,
            globs.len(),
            0,
        ),
        instr_in_range(
            store_instr(
                resolve_var(frames, globs, name)->Some_0.0,
                resolve_var(frames, globs, name)->Some_0.1,
            ),
            vars,
            globs.len(),
            0,
        ),
{
    match scope_lookup(frames, name) {
        Some(_) => {
            lemma_scope_lookup_lt(frames, name, vars);
        }
        None => {
            lemma_glob_find(globs, name);
        }
    }
}

/// Induction for expressions: see the module description.
#[verifier::rlimit(100)]
#[verifier::spinoff_prover]
pub proof fn lemma_lower_expr_ok(
    fns: Seq<Func>,
    globs: Seq<(String, Option<i32>)>,
    st: LowerState,
    e: Expr,
    vb: nat,
)
    requires
        frames_slots_lt(st.frames, vb),
        code_in_range(st.code, vb, globs.len(), fns.len()),
        labels_unique_lt(st.code, st.label_cnt as nat),
        fits(st, expr_weight(e)),
    ensures
        match lower_expr(fns, globs, st, e) {
            Ok(st1) => grows_to(st, st1, expr_weight(e)) && st1.var_cnt == st.var_cnt
                && st1.frames == st.frames && new_labels_in(st, st1)
                && code_in_range(st1.code, vb, globs.len(), fns.len())
                && labels_unique_lt(st1.code, st1.label_cnt as nat),
            Err(_) => true,
        },
    decreases e,
{
    let nglobs = globs.len();
    let nfns = fns.len();
    match e {
        Expr::Int(x) => {
            lemma_code_push(st.code, IrStmt::Ldc(x), vb, nglobs, nfns);
            lemma_labels_push_other(st.code, IrStmt::Ldc(x), st.label_cnt as nat);
        }
        Expr::Unary(op, x) => {
            lemma_lower_expr_ok(fns, globs, st, *x, vb);
            if let Ok(st1) = lower_expr(fns, globs, st, *x) {
                lemma_code_push(st1.code, IrStmt::Unary(op), vb, nglobs, nfns);
                lemma_labels_push_other(st1.code, IrStmt::Unary(op), st1.label_cnt as nat);
            }
        }
        Expr::Binary(op, l, r) => {
            lemma_lower_expr_ok(fns, globs, st, *l, vb);
            if let Ok(st1) = lower_expr(fns, globs, st, *l) {
                if op == crate::ast::BinaryOp::And || op == crate::ast::BinaryOp::Or {
                    let lf = st1.label_cnt;
                    let first = if op == crate::ast::BinaryOp::And {
                        IrStmt::Bz(lf)
                    } else {
                        IrStmt::Bnz(lf)
                    };
                    let st1b = st1.mint(2).emit(first);
                    lemma_code_push(st1.code, first, vb, nglobs, nfns);
                    lemma_labels_push_other(st1.code, first, st1.label_cnt as nat);
                    lemma_labels_widen(st1b.code, st1.label_cnt as nat, st1b.label_cnt as nat);
                    lemma_lower_expr_ok(fns, globs, st1b, *r, vb);
                    if let Ok(st2) = lower_expr(fns, globs, st1b, *r) {
                        match lower_expr(fns, globs, st, e) {
                            Ok(stf) => {
                                assert forall|i: int| 0 <= i < stf.code.len() implies
                                    instr_in_range(
                                    #[trigger] stf.code[i],
                                    vb,
                                    nglobs,
                                    nfns,
                                ) by {
                                    if i < st2.code.len() {
                                        assert(stf.code[i] == st2.code[i]);
                                    }
                                }
                                // each label of the right operand's code was
                                // minted after the two labels of the tail, and
                                // the tail's own two labels differ
                                assert forall|i: int|
                                    0 <= i < stf.code.len() implies ((#[trigger] stf.code[i])
                                    matches IrStmt::Label(y) ==> y < stf.label_cnt) by {
                                    if i < st2.code.len() {
                                        assert(stf.code[i] == st2.code[i]);
                                    }
                                }
                                assert forall|i: int, j: int|
                                    0 <= i < j < stf.code.len() && (#[trigger] stf.code[i])
                                    is Label && (#[trigger] stf.code[j]) is Label implies
                                    stf.code[i]->Label_0 != stf.code[j]->Label_0 by {
                                    if i < st2.code.len() {
                                        assert(stf.code[i] == st2.code[i]);
                                        if i < st1b.code.len() {
                                            assert(st2.code[i] == st1b.code[i]);
                                        }
                                    }
                                    if j < st2.code.len() {
                                        assert(stf.code[j] == st2.code[j]);
                                        if j < st1b.code.len() {
                                            assert(st2.code[j] == st1b.code[j]);
                                        }
                                    }
                                }
                            }
                            Err(_) => {}
                        }
                    }
                } else {
                    lemma_lower_expr_ok(fns, globs, st1, *r, vb);
                    if let Ok(st2) = lower_expr(fns, globs, st1, *r) {
                        lemma_code_push(st2.code, IrStmt::Binary(op), vb, nglobs, nfns);
                        lemma_labels_push_other(st2.code, IrStmt::Binary(op),
                            st2.label_cnt as nat);
                    }
                }
            }
        }
        Expr::Var(name) => {
            if let Some((g, id)) = resolve_var(st.frames, globs, name@) {
                lemma_resolve_in_range(st.frames, globs, name@, vb);
                lemma_code_push(st.code, load_instr(g, id), vb, nglobs, nfns);
                lemma_labels_push_other(st.code, load_instr(g, id), st.label_cnt as nat);
            }
        }
        Expr::Assign(name, r) => {
            lemma_lower_expr_ok(fns, globs, st, *r, vb);
            if let Ok(st1) = lower_expr(fns, globs, st, *r) {
                if let Some((g, id)) = resolve_var(st1.frames, globs, name@) {
                    lemma_resolve_in_range(st1.frames, globs, name@, vb);
                    lemma_code_push(st1.code, store_instr(g, id), vb, nglobs, nfns);
                    lemma_code_push(
                        st1.code.push(store_instr(g, id)),
                        load_instr(g, id),
                        vb,
                        nglobs,
                        nfns,
                    );
                    lemma_labels_push_other(st1.code, store_instr(g, id),
                        st1.label_cnt as nat);
                    lemma_labels_push_other(st1.code.push(store_instr(g, id)),
                        load_instr(g, id), st1.label_cnt as nat);
                }
            }
        }
        Expr::Condition(c, t, f) => {
            lemma_lower_expr_ok(fns, globs, st, *c, vb);
            if let Ok(st1) = lower_expr(fns, globs, st, *c) {
                let bf = st1.label_cnt;
                let af = (st1.label_cnt + 1) as usize;
                let st1b = st1.mint(2).emit(IrStmt::Bz(bf));
                lemma_code_push(st1.code, IrStmt::Bz(bf), vb, nglobs, nfns);
                lemma_labels_push_other(st1.code, IrStmt::Bz(bf), st1.label_cnt as nat);
                lemma_labels_widen(st1b.code, st1.label_cnt as nat, st1b.label_cnt as nat);
                lemma_lower_expr_ok(fns, globs, st1b, *t, vb);
                if let Ok(st2) = lower_expr(fns, globs, st1b, *t) {
                    let st2b = st2.emit(IrStmt::Jump(af)).emit(IrStmt::Label(bf));
                    lemma_code_push(st2.code, IrStmt::Jump(af), vb, nglobs, nfns);
                    lemma_code_push(
                        st2.code.push(IrStmt::Jump(af)),
                        IrStmt::Label(bf),
                        vb,
                        nglobs,
                        nfns,
                    );
                    lemma_labels_push_other(st2.code, IrStmt::Jump(af), st2.label_cnt as nat);
                    assert forall|i: int|
                        0 <= i < st2.code.push(IrStmt::Jump(af)).len() implies ((
                        #[trigger] st2.code.push(IrStmt::Jump(af))[i]) matches IrStmt::Label(y)
                        ==> y != bf) by {
                        if i < st2.code.len() {
                            assert(st2.code.push(IrStmt::Jump(af))[i] == st2.code[i]);
                            if i < st1b.code.len() {
                                assert(st2.code[i] == st1b.code[i]);
                            }
                        } else {
                            assert(st2.code.push(IrStmt::Jump(af))[i] == IrStmt::Jump(af));
                        }
                    }
                    lemma_labels_push_label(st2.code.push(IrStmt::Jump(af)), bf,
                        st2.label_cnt as nat);
                    lemma_lower_expr_ok(fns, globs, st2b, *f, vb);
                    if let Ok(st3) = lower_expr(fns, globs, st2b, *f) {
                        lemma_code_push(st3.code, IrStmt::Label(af), vb, nglobs, nfns);
                        assert forall|i: int|
                            0 <= i < st3.code.len() implies ((#[trigger] st3.code[i])
                            matches IrStmt::Label(y) ==> y != af) by {
                            if i < st2b.code.len() {
                                assert(st3.code[i] == st2b.code[i]);
                                if i < st2.code.len() + 1 {
                                    assert(st2b.code[i] == st2.code.push(IrStmt::Jump(af))[i]);
                                    if i < st2.code.len() {
                                        assert(st2.code.push(IrStmt::Jump(af))[i]
                                            == st2.code[i]);
                                        if i < st1b.code.len() {
                                            assert(st2.code[i] == st1b.code[i]);
                                        }
                                    }
                                }
                            }
                        }
                        lemma_labels_push_label(st3.code, af, st3.label_cnt as nat);
                    }
                }
            }
        }
        Expr::Call(name, args) => {
            if let Some(i) = func_find(fns, name@) {
                lemma_func_find(fns, name@);
                lemma_lower_expr_list_ok(fns, globs, st, args@, vb);
                if let Ok(st1) = lower_expr_list(fns, globs, st, args@) {
                    lemma_code_push(st1.code, IrStmt::Call(i as usize), vb, nglobs, nfns);
                    lemma_labels_push_other(st1.code, IrStmt::Call(i as usize),
                        st1.label_cnt as nat);
                }
            }
        }
    }
}

/// Induction for argument lists.
pub proof fn lemma_lower_expr_list_ok(
    fns: Seq<Func>,
    globs: Seq<(String, Option<i32>)>,
    st: LowerState,
    es: Seq<Expr>,
    vb: nat,
)
    requires
        frames_slots_lt(st.frames, vb),
        code_in_range(st.code, vb, globs.len(), fns.len()),
        labels_unique_lt(st.code, st.label_cnt as nat),
        fits(st, expr_list_weight(es)),
    ensures
        match lower_expr_list(fns, globs, st, es) {
            Ok(st1) => grows_to(st, st1, expr_list_weight(es)) && st1.var_cnt == st.var_cnt
                && st1.frames == st.frames && new_labels_in(st, st1)
                && code_in_range(st1.code, vb, globs.len(), fns.len())
                && labels_unique_lt(st1.code, st1.label_cnt as nat),
            Err(_) => true,
        },
    decreases es,
{
    if es.len() > 0 {
        lemma_lower_expr_ok(fns, globs, st, es[0], vb);
        if let Ok(st1) = lower_expr(fns, globs, st, es[0]) {
            lemma_lower_expr_list_ok(fns, globs, st1, es.subrange(1, es.len() as int), vb);
        }
    }
}

/// Induction for statements: see the module description.
#[verifier::rlimit(100)]
#[verifier::spinoff_prover]
pub proof fn lemma_lower_stmt_ok(
    fns: Seq<Func>,
    globs: Seq<(String, Option<i32>)>,
    st: LowerState,
    s: Stmt,
)
    requires
        st.frames.len() >= 1,
        state_in_range(st, globs.len(), fns.len()),
        labels_unique_lt(st.code, st.label_cnt as nat),
        fits(st, stmt_weight(s)),
    ensures
        match lower_stmt(fns, globs, st, s) {
            Ok(st1) => grows_to(st, st1, stmt_weight(s))
                && state_in_range(st1, globs.len(), fns.len()) && new_labels_in(st, st1)
                && labels_unique_lt(st1.code, st1.label_cnt as nat),
            Err(_) => true,
        },
    decreases s,
{
    let nglobs = globs.len();
    let nfns = fns.len();
    let vb = st.var_cnt as nat;
    match s {
        Stmt::Empty => {}
        Stmt::Ret(e) => {
            lemma_lower_expr_ok(fns, globs, st, e, vb);
            if let Ok(st1) = lower_expr(fns, globs, st, e) {
                lemma_code_push(st1.code, IrStmt::Ret, vb, nglobs, nfns);
                lemma_labels_push_other(st1.code, IrStmt::Ret, st1.label_cnt as nat);
            }
        }
        Stmt::Def(name, init) => {
            let slot = st.var_cnt;
            if let Ok(st1) = declare_var(st, name) {
                assert forall|i: int| 0 <= i < st1.frames.len() implies frame_slots_lt(
                    #[trigger] st1.frames[i],
                    (slot + 1) as nat,
                ) by {
                    if i == st1.frames.len() - 1 {
                        let fr = st.frames.last().push((name, slot));
                        assert(st1.frames[i] == fr);
                        assert forall|j: int| 0 <= j < fr.len() implies (#[trigger] fr[j]).1
                            < slot + 1 by {
                            if j < fr.len() - 1 {
                                assert(fr[j] == st.frames.last()[j]);
                            }
                        }
                    } else {
                        assert(st1.frames[i] == st.frames[i]);
                    }
                }
                lemma_code_widen(st1.code, vb, (slot + 1) as nat, nglobs, nfns);
                match init {
                    None => {}
                    Some(e) => {
                        lemma_lower_expr_ok(fns, globs, st1, e, (slot + 1) as nat);
                        if let Ok(st2) = lower_expr(fns, globs, st1, e) {
                            lemma_code_push(
                                st2.code,
                                IrStmt::Store(slot),
                                (slot + 1) as nat,
                                nglobs,
                                nfns,
                            );
                            lemma_labels_push_other(st2.code, IrStmt::Store(slot),
                                st2.label_cnt as nat);
                        }
                    }
                }
            }
        }
        Stmt::Expr(e) => {
            lemma_lower_expr_ok(fns, globs, st, e, vb);
            if let Ok(st1) = lower_expr(fns, globs, st, e) {
                lemma_code_push(st1.code, IrStmt::Pop, vb, nglobs, nfns);
                lemma_labels_push_other(st1.code, IrStmt::Pop, st1.label_cnt as nat);
            }
        }
        Stmt::If(c, t, f) => {
            lemma_lower_expr_ok(fns, globs, st, c, vb);
            if let Ok(st1) = lower_expr(fns, globs, st, c) {
                let bf = st1.label_cnt;
                let af = (st1.label_cnt + 1) as usize;
                let st1b = st1.mint(2).emit(IrStmt::Bz(bf));
                lemma_code_push(st1.code, IrStmt::Bz(bf), vb, nglobs, nfns);
                lemma_labels_push_other(st1.code, IrStmt::Bz(bf), st1.label_cnt as nat);
                lemma_labels_widen(st1b.code, st1.label_cnt as nat, st1b.label_cnt as nat);
                lemma_lower_stmt_ok(fns, globs, st1b, *t);
                if let Ok(st2) = lower_stmt(fns, globs, st1b, *t) {
                    let st3 = st2.emit(IrStmt::Jump(af)).emit(IrStmt::Label(bf));
                    lemma_code_push(st2.code, IrStmt::Jump(af), st2.var_cnt as nat, nglobs, nfns);
                    lemma_code_push(
                        st2.code.push(IrStmt::Jump(af)),
                        IrStmt::Label(bf),
                        st2.var_cnt as nat,
                        nglobs,
                        nfns,
                    );
                    lemma_labels_push_other(st2.code, IrStmt::Jump(af), st2.label_cnt as nat);
                    assert forall|i: int|
                        0 <= i < st2.code.push(IrStmt::Jump(af)).len() implies ((
                        #[trigger] st2.code.push(IrStmt::Jump(af))[i]) matches IrStmt::Label(y)
                        ==> y != bf) by {
                        if i < st2.code.len() {
                            assert(st2.code.push(IrStmt::Jump(af))[i] == st2.code[i]);
                            if i < st1b.code.len() {
                                assert(st2.code[i] == st1b.code[i]);
                            }
                        } else {
                            assert(st2.code.push(IrStmt::Jump(af))[i] == IrStmt::Jump(af));
                        }
                    }
                    lemma_labels_push_label(st2.code.push(IrStmt::Jump(af)), bf,
                        st2.label_cnt as nat);
                    match f {
                        None => {
                            lemma_code_push(
                                st3.code,
                                IrStmt::Label(af),
                                st3.var_cnt as nat,
                                nglobs,
                                nfns,
                            );
                            assert forall|i: int|
                                0 <= i < st3.code.len() implies ((#[trigger] st3.code[i])
                                matches IrStmt::Label(y) ==> y != af) by {
                                if i < st2.code.len() + 1 {
                                    assert(st3.code[i] == st2.code.push(IrStmt::Jump(af))[i]);
                                    if i < st2.code.len() {
                                        assert(st2.code.push(IrStmt::Jump(af))[i]
                                            == st2.code[i]);
                                        if i < st1b.code.len() {
                                            assert(st2.code[i] == st1b.code[i]);
                                        }
                                    }
                                }
                            }
                            lemma_labels_push_label(st3.code, af, st3.label_cnt as nat);
                        }
                        Some(f2) => {
                            lemma_lower_stmt_ok(fns, globs, st3, *f2);
                            if let Ok(st4) = lower_stmt(fns, globs, st3, *f2) {
                                lemma_code_push(
                                    st4.code,
                                    IrStmt::Label(af),
                                    st4.var_cnt as nat,
                                    nglobs,
                                    nfns,
                                );
                                assert forall|i: int|
                                    0 <= i < st4.code.len() implies ((#[trigger] st4.code[i])
                                    matches IrStmt::Label(y) ==> y != af) by {
                                    if i < st3.code.len() {
                                        assert(st4.code[i] == st3.code[i]);
                                        if i < st2.code.len() + 1 {
                                            assert(st3.code[i] == st2.code.push(
                                                IrStmt::Jump(af),
                                            )[i]);
                                            if i < st2.code.len() {
                                                assert(st2.code.push(IrStmt::Jump(af))[i]
                                                    == st2.code[i]);
                                                if i < st1b.code.len() {
                                                    assert(st2.code[i] == st1b.code[i]);
                                                }
                                            }
                                        }
                                    }
                                }
                                lemma_labels_push_label(st4.code, af, st4.label_cnt as nat);
                            }
                        }
                    }
                }
            }
        }
        Stmt::Block(b) => {
            let st1 = LowerState { frames: st.frames.push(Seq::empty()), ..st };
            assert forall|i: int| 0 <= i < st1.frames.len() implies frame_slots_lt(
                #[trigger] st1.frames[i],
                vb,
            ) by {
                if i < st1.frames.len() - 1 {
                    assert(st1.frames[i] == st.frames[i]);
                } else {
                    assert(st1.frames[i] =~= Seq::<(String, usize)>::empty());
                }
            }
            lemma_lower_stmt_list_ok(fns, globs, st1, b.0@);
            if let Ok(st2) = lower_stmt_list(fns, globs, st1, b.0@) {
                assert forall|i: int| 0 <= i < st2.frames.drop_last().len() implies
                    frame_slots_lt(#[trigger] st2.frames.drop_last()[i], st2.var_cnt as nat) by {
                    assert(st2.frames.drop_last()[i] == st2.frames[i]);
                }
            }
        }
        Stmt::While(c, body) => {
            let bc = st.label_cnt;
            let ab = (st.label_cnt + 1) as usize;
            let st1 = LowerState { loops: st.loops.push((ab, bc)), ..st.mint(2) }.emit(
                IrStmt::Label(bc),
            );
            lemma_code_push(st.code, IrStmt::Label(bc), vb, nglobs, nfns);
            lemma_labels_widen(st.code, st.label_cnt as nat, st1.label_cnt as nat);
            lemma_labels_push_label(st.code, bc, st1.label_cnt as nat);
            lemma_lower_expr_ok(fns, globs, st1, c, vb);
            if let Ok(st2) = lower_expr(fns, globs, st1, c) {
                lemma_code_push(st2.code, IrStmt::Bz(ab), vb, nglobs, nfns);
                lemma_labels_push_other(st2.code, IrStmt::Bz(ab), st2.label_cnt as nat);
                lemma_lower_stmt_ok(fns, globs, st2.emit(IrStmt::Bz(ab)), *body);
                if let Ok(st3) = lower_stmt(fns, globs, st2.emit(IrStmt::Bz(ab)), *body) {
                    lemma_code_push(st3.code, IrStmt::Jump(bc), st3.var_cnt as nat, nglobs, nfns);
                    lemma_code_push(
                        st3.code.push(IrStmt::Jump(bc)),
                        IrStmt::Label(ab),
                        st3.var_cnt as nat,
                        nglobs,
                        nfns,
                    );
                    lemma_labels_push_other(st3.code, IrStmt::Jump(bc), st3.label_cnt as nat);
                    assert forall|i: int|
                        0 <= i < st3.code.push(IrStmt::Jump(bc)).len() implies ((
                        #[trigger] st3.code.push(IrStmt::Jump(bc))[i]) matches IrStmt::Label(y)
                        ==> y != ab) by {
                        if i < st3.code.len() {
                            assert(st3.code.push(IrStmt::Jump(bc))[i] == st3.code[i]);
                            if i < st2.code.len() + 1 {
                                assert(st3.code[i] == st2.emit(IrStmt::Bz(ab)).code[i]);
                                if i < st2.code.len() {
                                    assert(st2.emit(IrStmt::Bz(ab)).code[i] == st2.code[i]);
                                    if i < st1.code.len() {
                                        assert(st2.code[i] == st1.code[i]);
                                    }
                                }
                            }
                        } else {
                            assert(st3.code.push(IrStmt::Jump(bc))[i] == IrStmt::Jump(bc));
                        }
                    }
                    lemma_labels_push_label(st3.code.push(IrStmt::Jump(bc)), ab,
                        st3.label_cnt as nat);
                    assert(st.loops.push((ab, bc)).drop_last() =~= st.loops);
                }
            }
        }
        Stmt::DoWhile(body, c) => {
            let bb = st.label_cnt;
            let bc = (st.label_cnt + 1) as usize;
            let ac = (st.label_cnt + 2) as usize;
            let st1 = LowerState { loops: st.loops.push((ac, bc)), ..st.mint(3) }.emit(
                IrStmt::Label(bb),
            );
            lemma_code_push(st.code, IrStmt::Label(bb), vb, nglobs, nfns);
            lemma_labels_widen(st.code, st.label_cnt as nat, st1.label_cnt as nat);
            lemma_labels_push_label(st.code, bb, st1.label_cnt as nat);
            lemma_lower_stmt_ok(fns, globs, st1, *body);
            if let Ok(st2) = lower_stmt(fns, globs, st1, *body) {
                lemma_code_push(st2.code, IrStmt::Label(bc), st2.var_cnt as nat, nglobs, nfns);
                assert forall|i: int|
                    0 <= i < st2.code.len() implies ((#[trigger] st2.code[i])
                    matches IrStmt::Label(y) ==> y != bc) by {
                    if i < st1.code.len() {
                        assert(st2.code[i] == st1.code[i]);
                        if i < st.code.len() {
                            assert(st1.code[i] == st.code[i]);
                        }
                    }
                }
                lemma_labels_push_label(st2.code, bc, st2.label_cnt as nat);
                lemma_lower_expr_ok(fns, globs, st2.emit(IrStmt::Label(bc)), c,
                    st2.var_cnt as nat);
                if let Ok(st3) = lower_expr(fns, globs, st2.emit(IrStmt::Label(bc)), c) {
                    lemma_code_push(st3.code, IrStmt::Bnz(bb), st3.var_cnt as nat, nglobs, nfns);
                    lemma_code_push(
                        st3.code.push(IrStmt::Bnz(bb)),
                        IrStmt::Label(ac),
                        st3.var_cnt as nat,
                        nglobs,
                        nfns,
                    );
                    lemma_labels_push_other(st3.code, IrStmt::Bnz(bb), st3.label_cnt as nat);
                    assert forall|i: int|
                        0 <= i < st3.code.push(IrStmt::Bnz(bb)).len() implies ((
                        #[trigger] st3.code.push(IrStmt::Bnz(bb))[i]) matches IrStmt::Label(y)
                        ==> y != ac) by {
                        if i < st3.code.len() {
                            assert(st3.code.push(IrStmt::Bnz(bb))[i] == st3.code[i]);
                            if i < st2.code.len() + 1 {
                                assert(st3.code[i] == st2.emit(IrStmt::Label(bc)).code[i]);
                                if i < st2.code.len() {
                                    assert(st2.emit(IrStmt::Label(bc)).code[i] == st2.code[i]);
                                    if i < st1.code.len() {
                                        assert(st2.code[i] == st1.code[i]);
                                        if i < st.code.len() {
                                            assert(st1.code[i] == st.code[i]);
                                        }
                                    }
                                }
                            }
                        } else {
                            assert(st3.code.push(IrStmt::Bnz(bb))[i] == IrStmt::Bnz(bb));
                        }
                    }
                    lemma_labels_push_label(st3.code.push(IrStmt::Bnz(bb)), ac,
                        st3.label_cnt as nat);
                    assert(st.loops.push((ac, bc)).drop_last() =~= st.loops);
                }
            }
        }
        Stmt::For { init, cond, update, body } => {
            let st1 = LowerState { frames: st.frames.push(Seq::empty()), ..st };
            assert forall|i: int| 0 <= i < st1.frames.len() implies frame_slots_lt(
                #[trigger] st1.frames[i],
                vb,
            ) by {
                if i < st1.frames.len() - 1 {
                    assert(st1.frames[i] == st.frames[i]);
                } else {
                    assert(st1.frames[i] =~= Seq::<(String, usize)>::empty());
                }
            }
            let w_init: nat = match init {
                Some(i2) => stmt_weight(*i2),
                None => 0,
            };
            if let Some(i2) = init {
                lemma_lower_stmt_ok(fns, globs, st1, *i2);
            }
            let after_init = match init {
                Some(i2) => lower_stmt(fns, globs, st1, *i2),
                None => Ok::<LowerState, CompileError>(st1),
            };
            if let Ok(st2) = after_init {
                let bc = st2.label_cnt;
                let bu = (st2.label_cnt + 1) as usize;
                let ab = (st2.label_cnt + 2) as usize;
                let st3 = LowerState { loops: st2.loops.push((ab, bu)), ..st2.mint(3) }.emit(
                    IrStmt::Label(bc),
                );
                lemma_code_push(st2.code, IrStmt::Label(bc), st2.var_cnt as nat, nglobs, nfns);
                lemma_labels_widen(st2.code, st2.label_cnt as nat, st3.label_cnt as nat);
                lemma_labels_push_label(st2.code, bc, st3.label_cnt as nat);
                if let Some(c) = cond {
                    lemma_lower_expr_ok(fns, globs, st3, c, st2.var_cnt as nat);
                } else {
                    lemma_code_push(st3.code, IrStmt::Ldc(1), st2.var_cnt as nat, nglobs, nfns);
                    lemma_labels_push_other(st3.code, IrStmt::Ldc(1), st3.label_cnt as nat);
                }
                let after_cond = match cond {
                    Some(c) => lower_expr(fns, globs, st3, c),
                    None => Ok::<LowerState, CompileError>(st3.emit(IrStmt::Ldc(1))),
                };
                if let Ok(st4) = after_cond {
                    lemma_code_push(st4.code, IrStmt::Bz(ab), st4.var_cnt as nat, nglobs, nfns);
                    lemma_labels_push_other(st4.code, IrStmt::Bz(ab), st4.label_cnt as nat);
                    lemma_lower_stmt_ok(fns, globs, st4.emit(IrStmt::Bz(ab)), *body);
                    if let Ok(st5) = lower_stmt(fns, globs, st4.emit(IrStmt::Bz(ab)), *body) {
                        lemma_code_push(
                            st5.code,
                            IrStmt::Label(bu),
                            st5.var_cnt as nat,
                            nglobs,
                            nfns,
                        );
                        assert forall|i: int|
                            0 <= i < st5.code.len() implies ((#[trigger] st5.code[i])
                            matches IrStmt::Label(y) ==> y != bu) by {
                            if i < st4.code.len() + 1 {
                                assert(st5.code[i] == st4.emit(IrStmt::Bz(ab)).code[i]);
                                if i < st4.code.len() {
                                    assert(st4.emit(IrStmt::Bz(ab)).code[i] == st4.code[i]);
                                    if i < st3.code.len() {
                                        assert(st4.code[i] == st3.code[i]);
                                        if i < st2.code.len() {
                                            assert(st3.code[i] == st2.code[i]);
                                        }
                                    }
                                }
                            }
                        }
                        lemma_labels_push_label(st5.code, bu, st5.label_cnt as nat);
                        if let Some(u) = update {
                            lemma_lower_expr_ok(
                                fns,
                                globs,
                                st5.emit(IrStmt::Label(bu)),
                                u,
                                st5.var_cnt as nat,
                            );
                        }
                        let after_update = match update {
                            Some(u) => lower_expr(fns, globs, st5.emit(IrStmt::Label(bu)), u),
                            None => Ok::<LowerState, CompileError>(st5.emit(IrStmt::Label(bu))),
                        };
                        if let Ok(st6) = after_update {
                            lemma_code_push(
                                st6.code,
                                IrStmt::Jump(bc),
                                st6.var_cnt as nat,
                                nglobs,
                                nfns,
                            );
                            lemma_code_push(
                                st6.code.push(IrStmt::Jump(bc)),
                                IrStmt::Label(ab),
                                st6.var_cnt as nat,
                                nglobs,
                                nfns,
                            );
                            lemma_labels_push_other(st6.code, IrStmt::Jump(bc),
                                st6.label_cnt as nat);
                            assert forall|i: int|
                                0 <= i < st6.code.push(IrStmt::Jump(bc)).len() implies ((
                                #[trigger] st6.code.push(IrStmt::Jump(bc))[i])
                                matches IrStmt::Label(y) ==> y != ab) by {
                                if i < st6.code.len() {
                                    assert(st6.code.push(IrStmt::Jump(bc))[i] == st6.code[i]);
                                    if i < st5.code.len() + 1 {
                                        assert(st6.code[i] == st5.emit(
                                            IrStmt::Label(bu),
                                        ).code[i]);
                                        if i < st5.code.len() {
                                            assert(st5.emit(IrStmt::Label(bu)).code[i]
                                                == st5.code[i]);
                                            if i < st4.code.len() + 1 {
                                                assert(st5.code[i] == st4.emit(
                                                    IrStmt::Bz(ab),
                                                ).code[i]);
                                                if i < st4.code.len() {
                                                    assert(st4.emit(IrStmt::Bz(ab)).code[i]
                                                        == st4.code[i]);
                                                    if i < st3.code.len() {
                                                        assert(st4.code[i] == st3.code[i]);
                                                        if i < st2.code.len() {
                                                            assert(st3.code[i]
                                                                == st2.code[i]);
                                                        }
                                                    }
                                                }
                                            }
                                        }
                                    }
                                } else {
                                    assert(st6.code.push(IrStmt::Jump(bc))[i]
                                        == IrStmt::Jump(bc));
                                }
                            }
                            lemma_labels_push_label(st6.code.push(IrStmt::Jump(bc)), ab,
                                st6.label_cnt as nat);
                            let st7 = st6.emit(IrStmt::Jump(bc)).emit(IrStmt::Label(ab));
                            assert(st2.loops.push((ab, bu)).drop_last() =~= st2.loops);
                            assert forall|i: int| 0 <= i < st7.frames.drop_last().len() implies
                                frame_slots_lt(
                                #[trigger] st7.frames.drop_last()[i],
                                st7.var_cnt as nat,
                            ) by {
                                assert(st7.frames.drop_last()[i] == st7.frames[i]);
                            }
                        }
                    }
                }
            }
        }
        Stmt::Continue => {
            if st.loops.len() > 0 {
                lemma_code_push(st.code, IrStmt::Jump(st.loops.last().1), vb, nglobs, nfns);
                lemma_labels_push_other(st.code, IrStmt::Jump(st.loops.last().1),
                    st.label_cnt as nat);
            }
        }
        Stmt::Break => {
            if st.loops.len() > 0 {
                lemma_code_push(st.code, IrStmt::Jump(st.loops.last().0), vb, nglobs, nfns);
                lemma_labels_push_other(st.code, IrStmt::Jump(st.loops.last().0),
                    st.label_cnt as nat);
            }
        }
    }
}

/// Induction for statement runs.
pub proof fn lemma_lower_stmt_list_ok(
    fns: Seq<Func>,
    globs: Seq<(String, Option<i32>)>,
    st: LowerState,
    ss: Seq<Stmt>,
)
    requires
        st.frames.len() >= 1,
        state_in_range(st, globs.len(), fns.len()),
        labels_unique_lt(st.code, st.label_cnt as nat),
        fits(st, stmt_list_weight(ss)),
    ensures
        match lower_stmt_list(fns, globs, st, ss) {
            Ok(st1) => grows_to(st, st1, stmt_list_weight(ss))
                && state_in_range(st1, globs.len(), fns.len()) && new_labels_in(st, st1)
                && labels_unique_lt(st1.code, st1.label_cnt as nat),
            Err(_) => true,
        },
    decreases ss,
{
    if ss.len() > 0 {
        lemma_lower_stmt_ok(fns, globs, st, ss[0]);
        if let Ok(st1) = lower_stmt(fns, globs, st, ss[0]) {
            lemma_lower_stmt_list_ok(fns, globs, st1, ss.subrange(1, ss.len() as int));
        }
    }
}

/// Declaring the parameters takes one slot each, touches neither label
/// counter nor code, and keeps the state well-formed.
pub proof fn lemma_declare_params_ok(st: LowerState, params: Seq<String>, globs: nat, fns: nat)
    requires
        st.frames.len() >= 1,
        state_in_range(st, globs, fns),
        st.var_cnt + params.len() <= MAX_FUNC_WEIGHT,
    ensures
        match declare_params(st, params) {
            Ok(st1) => st1.var_cnt == st.var_cnt + params.len() && st1.label_cnt == st.label_cnt
                && st1.code == st.code && st1.loops == st.loops
                && st1.frames.len() == st.frames.len()
                && state_in_range(st1, globs, fns),
            Err(_) => true,
        },
    decreases params,
{
    if params.len() > 0 {
        let slot = st.var_cnt;
        if let Ok(st1) = declare_var(st, params[0]) {
            assert forall|i: int| 0 <= i < st1.frames.len() implies frame_slots_lt(
                #[trigger] st1.frames[i],
                (slot + 1) as nat,
            ) by {
                if i == st1.frames.len() - 1 {
                    let fr = st.frames.last().push((params[0], slot));
                    assert(st1.frames[i] == fr);
                    assert forall|j: int| 0 <= j < fr.len() implies (#[trigger] fr[j]).1
                        < slot + 1 by {
                        if j < fr.len() - 1 {
                            assert(fr[j] == st.frames.last()[j]);
                        }
                    }
                } else {
                    assert(st1.frames[i] == st.frames[i]);
                }
            }
            lemma_code_widen(st1.code, st.var_cnt as nat, (slot + 1) as nat, globs, fns);
            lemma_declare_params_ok(
                LowerState { var_cnt: (st.var_cnt + 1) as usize, ..st1 },
                params.subrange(1, params.len() as int),
                globs,
                fns,
            );
        }
    }
}

/// A function within the weight ceiling lowers to a well-formed body:
/// its frame counts fit the ceiling and every id its code mentions stays
/// inside the tables it refers to.
pub proof fn lemma_lower_func_ok(fns: Seq<Func>, globs: Seq<(String, Option<i32>)>, f: Func)
    requires
        func_weight(f) <= MAX_FUNC_WEIGHT,
    ensures
        match lower_func(fns, globs, f) {
            Ok(v) => v.param_cnt == f.params@.len()
                && v.param_cnt + v.var_cnt <= MAX_FUNC_WEIGHT
                && code_in_range(
                    v.code,
                    (v.param_cnt + v.var_cnt) as nat,
                    globs.len(),
                    fns.len(),
                )
                && v.is_decl == (f.stmts is None),
            Err(_) => true,
        },
{
    let st_init = init_state();
    let plen = f.params@.len();
    assert(frame_slots_lt(st_init.frames[0], 0));
    lemma_declare_params_ok(st_init, f.params@, globs.len(), fns.len());
    if let Ok(st0) = declare_params(st_init, f.params@) {
        match f.stmts {
            None => {}
            Some(body) => {
                let lowered = match body {
                    Stmt::Block(b) => lower_stmt_list(fns, globs, st0, b.0@),
                    _ => lower_stmt(fns, globs, st0, body),
                };
                match body {
                    Stmt::Block(b) => {
                        lemma_lower_stmt_list_ok(fns, globs, st0, b.0@);
                    }
                    _ => {
                        lemma_lower_stmt_ok(fns, globs, st0, body);
                    }
                }
                if let Ok(st1) = lowered {
                    let total = st1.var_cnt as nat;
                    let full = with_ret_fallback(st1.code);
                    assert forall|i: int| 0 <= i < full.len() implies instr_in_range(
                        #[trigger] full[i],
                        total,
                        globs.len(),
                        fns.len(),
                    ) by {
                        if i < st1.code.len() {
                            assert(full[i] == st1.code[i]);
                        }
                    }
                }
            }
        }
    }
}

/// Merging keeps every table entry under the weight ceiling.
pub proof fn lemma_merge_funcs_weights(acc: Seq<Func>, fs: Seq<Func>)
    requires
        forall|k: int| 0 <= k < acc.len() ==> func_weight(#[trigger] acc[k]) <= MAX_FUNC_WEIGHT,
        forall|k: int| 0 <= k < fs.len() ==> func_weight(#[trigger] fs[k]) <= MAX_FUNC_WEIGHT,
    ensures
        match merge_funcs_from(acc, fs) {
            Ok(m) => forall|k: int|
                0 <= k < m.len() ==> func_weight(#[trigger] m[k]) <= MAX_FUNC_WEIGHT,
            Err(_) => true,
        },
    decreases fs,
{
    if fs.len() > 0 {
        if let Ok(acc1) = merge_func(acc, fs[0]) {
            lemma_func_find(acc, fs[0].name@);
            assert forall|k: int| 0 <= k < acc1.len() implies func_weight(#[trigger] acc1[k])
                <= MAX_FUNC_WEIGHT by {
                match func_find(acc, fs[0].name@) {
                    None => {
                        assert(acc1 == acc.push(fs[0]));
                        if k < acc.len() {
                            assert(acc1[k] == acc[k]);
                        } else {
                            assert(acc1[k] == fs[0]);
                        }
                    }
                    Some(i) => {
                        if acc[i].stmts is None {
                            assert(acc1 == acc.update(i, fs[0]));
                            if k != i {
                                assert(acc1[k] == acc[k]);
                            } else {
                                assert(acc1[k] == fs[0]);
                            }
                        } else {
                            assert(acc1 == acc);
                        }
                    }
                }
            }
            lemma_merge_funcs_weights(acc1, fs.subrange(1, fs.len() as int));
        }
    }
}

/// A lowered function that fits the frame arithmetic of the code
/// generator: counts under the ceiling, every mentioned id inside the
/// tables.
pub open spec fn func_view_ok(v: IrFuncView, globs: nat, fns: nat) -> bool {
    v.param_cnt + v.var_cnt <= MAX_FUNC_WEIGHT && code_in_range(
        v.code,
        (v.param_cnt + v.var_cnt) as nat,
        globs,
        fns,
    )
}

/// Lowering the merged table yields one entry per function, each
/// well-formed as in `lemma_lower_func_ok`.
pub proof fn lemma_lower_func_list_ok(
    fns: Seq<Func>,
    globs: Seq<(String, Option<i32>)>,
    acc: Seq<IrFuncView>,
    fs: Seq<Func>,
)
    requires
        forall|k: int| 0 <= k < fs.len() ==> func_weight(#[trigger] fs[k]) <= MAX_FUNC_WEIGHT,
        forall|k: int|
            0 <= k < acc.len() ==> func_view_ok(#[trigger] acc[k], globs.len(), fns.len()),
    ensures
        match lower_func_list_from(fns, globs, acc, fs) {
            Ok(vs) => vs.len() == acc.len() + fs.len() && forall|k: int|
                0 <= k < vs.len() ==> func_view_ok(#[trigger] vs[k], globs.len(), fns.len()),
            Err(_) => true,
        },
    decreases fs,
{
    if fs.len() > 0 {
        lemma_lower_func_ok(fns, globs, fs[0]);
        if let Ok(v) = lower_func(fns, globs, fs[0]) {
            assert forall|k: int| 0 <= k < acc.push(v).len() implies func_view_ok(
                #[trigger] acc.push(v)[k],
                globs.len(),
                fns.len(),
            ) by {
                if k < acc.len() {
                    assert(acc.push(v)[k] == acc[k]);
                } else {
                    assert(acc.push(v)[k] == v);
                }
            }
            lemma_lower_func_list_ok(fns, globs, acc.push(v), fs.subrange(1, fs.len() as int));
        }
    }
}

/// A program within the weight ceiling lowers to a unit whose functions
/// all fit the frame arithmetic of the code generator and whose
/// instructions only mention ids inside the unit's own tables.
pub proof fn lemma_lower_prog_ok(p: Prog)
    requires
        prog_within_weight(p),
    ensures
        match lower_prog(p) {
            Ok(pv) => pv.funcs.len() == merge_funcs(p.funcs@)->Ok_0.len() && forall|k: int|
                0 <= k < pv.funcs.len() ==> func_view_ok(
                    #[trigger] pv.funcs[k],
                    pv.globs.len(),
                    pv.funcs.len(),
                ),
            Err(_) => true,
        },
{
    if let Ok(globs) = merge_globs(p.globs@) {
        lemma_merge_funcs_weights(Seq::empty(), p.funcs@);
        if let Ok(fns) = merge_funcs(p.funcs@) {
            lemma_lower_func_list_ok(fns, globs, Seq::empty(), fns);
        }
    }
}

} // verus!
