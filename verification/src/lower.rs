//! The functional model of lowering.
//!
//! Every equation here mirrors one construct of the source language and
//! says exactly which instructions it contributes, which labels it mints
//! and how the scope stack moves. The executable builder in `emit` is
//! verified to return precisely what these equations describe, so the
//! model doubles as the specification of the whole translation: it is
//! deterministic by construction, and every error case is spelled out.

use vstd::prelude::*;
use crate::ast::{Prog, Func, Stmt, Block, Expr, BinaryOp};
use crate::ir::IrStmt;
use crate::errors::CompileError;
use crate::resolve::{ScopeView, frame_lookup, scope_lookup, glob_find, func_find};

verus! {

/// The transient state while one function is lowered: the scope stack,
/// the instructions emitted so far, the active loop contexts as
/// (break-target, continue-target) pairs, and the two monotonic counters
/// for local slots and labels.
#[verifier::ext_equal]
pub ghost struct LowerState {
    pub frames: ScopeView,
    pub code: Seq<IrStmt>,
    pub loops: Seq<(usize, usize)>,
    pub var_cnt: usize,
    pub label_cnt: usize,
}

impl LowerState {
    /// Append one instruction.
    pub open spec fn emit(self, s: IrStmt) -> LowerState {
        LowerState { code: self.code.push(s), ..self }
    }

    /// Append a run of instructions.
    pub open spec fn emit_all(self, sq: Seq<IrStmt>) -> LowerState {
        LowerState { code: self.code + sq, ..self }
    }

    /// Mint `n` fresh labels; the first minted one is `self.label_cnt`.
    pub open spec fn mint(self, n: usize) -> LowerState {
        LowerState { label_cnt: (self.label_cnt + n) as usize, ..self }
    }
}

/// The state every function starts from: one empty scope frame, no code,
/// no loop context, both counters at zero.
pub open spec fn init_state() -> LowerState {
    LowerState {
        frames: seq![Seq::<(String, usize)>::empty()],
        code: Seq::empty(),
        loops: Seq::empty(),
        var_cnt: 0,
        label_cnt: 0,
    }
}

/// Where a name resolves: `(false, slot)` for a local found in the scope
/// stack, `(true, index)` for a global, `None` if neither table has it.
pub open spec fn resolve_var(
    frames: ScopeView,
    globs: Seq<(String, Option<i32>)>,
    name: Seq<char>,
) -> Option<(bool, usize)> {
    match scope_lookup(frames, name) {
        Some(slot) => Some((false, slot)),
        None => match glob_find(globs, name) {
            Some(i) => Some((true, i as usize)),
            None => None,
        },
    }
}

/// The instruction that reads a resolved variable.
pub open spec fn load_instr(is_glob: bool, id: usize) -> IrStmt {
    if is_glob {
        IrStmt::LoadGlobal(id)
    } else {
        IrStmt::Load(id)
    }
}

/// The instruction that writes a resolved variable.
pub open spec fn store_instr(is_glob: bool, id: usize) -> IrStmt {
    if is_glob {
        IrStmt::StoreGlobal(id)
    } else {
        IrStmt::Store(id)
    }
}

/// Lower one expression. On success the state has gained the instructions
/// that leave exactly the expression's value on the evaluation stack.
pub open spec fn lower_expr(
    fns: Seq<Func>,
    globs: Seq<(String, Option<i32>)>,
    st: LowerState,
    e: Expr,
) -> Result<LowerState, CompileError>
    decreases e,
{
    match e {
        Expr::Int(x) => Ok(st.emit(IrStmt::Ldc(x))),
        Expr::Unary(op, x) => match lower_expr(fns, globs, st, *x) {
            Ok(st1) => Ok(st1.emit(IrStmt::Unary(op))),
            Err(er) => Err(er),
        },
        Expr::Binary(op, l, r) => {
            if op == BinaryOp::And {
                // Short-circuit: a false left operand skips the right one
                // and yields 0; otherwise both are normalized to 0/1.
                match lower_expr(fns, globs, st, *l) {
                    Ok(st1) => {
                        let lf = st1.label_cnt;
                        let le = (st1.label_cnt + 1) as usize;
                        match lower_expr(fns, globs, st1.mint(2).emit(IrStmt::Bz(lf)), *r) {
                            Ok(st2) => Ok(st2.emit_all(
                                seq![
                                    IrStmt::Bz(lf),
                                    IrStmt::Ldc(1),
                                    IrStmt::Jump(le),
                                    IrStmt::Label(lf),
                                    IrStmt::Ldc(0),
                                    IrStmt::Label(le),
                                ],
                            )),
                            Err(er) => Err(er),
                        }
                    }
                    Err(er) => Err(er),
                }
            } else if op == BinaryOp::Or {
                // Short-circuit: a true left operand skips the right one
                // and yields 1.
                match lower_expr(fns, globs, st, *l) {
                    Ok(st1) => {
                        let lt = st1.label_cnt;
                        let le = (st1.label_cnt + 1) as usize;
                        match lower_expr(fns, globs, st1.mint(2).emit(IrStmt::Bnz(lt)), *r) {
                            Ok(st2) => Ok(st2.emit_all(
                                seq![
                                    IrStmt::Bnz(lt),
                                    IrStmt::Ldc(0),
                                    IrStmt::Jump(le),
                                    IrStmt::Label(lt),
                                    IrStmt::Ldc(1),
                                    IrStmt::Label(le),
                                ],
                            )),
                            Err(er) => Err(er),
                        }
                    }
                    Err(er) => Err(er),
                }
            } else {
                match lower_expr(fns, globs, st, *l) {
                    Ok(st1) => match lower_expr(fns, globs, st1, *r) {
                        Ok(st2) => Ok(st2.emit(IrStmt::Binary(op))),
                        Err(er) => Err(er),
                    },
                    Err(er) => Err(er),
                }
            }
        }
        Expr::Var(name) => match resolve_var(st.frames, globs, name@) {
            Some((g, id)) => Ok(st.emit(load_instr(g, id))),
            None => Err(CompileError::UndefinedVariable(name)),
        },
        Expr::Assign(name, r) => match lower_expr(fns, globs, st, *r) {
            Ok(st1) => match resolve_var(st1.frames, globs, name@) {
                // The assigned value is stored, then read back, so the
                // stored slot is the single source of truth.
                Some((g, id)) => Ok(st1.emit(store_instr(g, id)).emit(load_instr(g, id))),
                None => Err(CompileError::UndefinedVariable(name)),
            },
            Err(er) => Err(er),
        },
        Expr::Condition(c, t, f) => match lower_expr(fns, globs, st, *c) {
            Ok(st1) => {
                let bf = st1.label_cnt;
                let af = (st1.label_cnt + 1) as usize;
                match lower_expr(fns, globs, st1.mint(2).emit(IrStmt::Bz(bf)), *t) {
                    Ok(st2) => match lower_expr(
                        fns,
                        globs,
                        st2.emit(IrStmt::Jump(af)).emit(IrStmt::Label(bf)),
                        *f,
                    ) {
                        Ok(st3) => Ok(st3.emit(IrStmt::Label(af))),
                        Err(er) => Err(er),
                    },
                    Err(er) => Err(er),
                }
            }
            Err(er) => Err(er),
        },
        Expr::Call(name, args) => match func_find(fns, name@) {
            Some(i) => match lower_expr_list(fns, globs, st, args@) {
                Ok(st1) => Ok(st1.emit(IrStmt::Call(i as usize))),
                Err(er) => Err(er),
            },
            None => Err(CompileError::UndefinedFunction(name)),
        },
    }
}

/// Lower a run of expressions left to right (call arguments).
pub open spec fn lower_expr_list(
    fns: Seq<Func>,
    globs: Seq<(String, Option<i32>)>,
    st: LowerState,
    es: Seq<Expr>,
) -> Result<LowerState, CompileError>
    decreases es,
{
    if es.len() == 0 {
        Ok(st)
    } else {
        match lower_expr(fns, globs, st, es[0]) {
            Ok(st1) => lower_expr_list(fns, globs, st1, es.subrange(1, es.len() as int)),
            Err(er) => Err(er),
        }
    }
}

/// Declare `name` in the innermost frame, assigning it the next slot.
/// Fails if that exact frame already binds the name; shadowing an outer
/// frame or a global is allowed and expected.
pub open spec fn declare_var(st: LowerState, name: String) -> Result<LowerState, CompileError> {
    if frame_lookup(st.frames.last(), name@) is Some {
        Err(CompileError::DuplicateDeclaration(name))
    } else {
        Ok(
            LowerState {
                frames: st.frames.update(
                    st.frames.len() - 1,
                    st.frames.last().push((name, st.var_cnt)),
                ),
                ..st
            },
        )
    }
}

/// Lower one statement.
pub open spec fn lower_stmt(
    fns: Seq<Func>,
    globs: Seq<(String, Option<i32>)>,
    st: LowerState,
    s: Stmt,
) -> Result<LowerState, CompileError>
    decreases s,
{
    match s {
        Stmt::Empty => Ok(st),
        Stmt::Ret(e) => match lower_expr(fns, globs, st, e) {
            Ok(st1) => Ok(st1.emit(IrStmt::Ret)),
            Err(er) => Err(er),
        },
        Stmt::Def(name, init) => {
            let slot = st.var_cnt;
            match declare_var(st, name) {
                Ok(st1) => match init {
                    None => Ok(LowerState { var_cnt: (slot + 1) as usize, ..st1 }),
                    Some(e) => match lower_expr(fns, globs, st1, e) {
                        Ok(st2) => Ok(
                            LowerState {
                                var_cnt: (slot + 1) as usize,
                                ..st2.emit(IrStmt::Store(slot))
                            },
                        ),
                        Err(er) => Err(er),
                    },
                },
                Err(er) => Err(er),
            }
        }
        Stmt::Expr(e) => match lower_expr(fns, globs, st, e) {
            Ok(st1) => Ok(st1.emit(IrStmt::Pop)),
            Err(er) => Err(er),
        },
        Stmt::If(c, t, f) => match lower_expr(fns, globs, st, c) {
            Ok(st1) => {
                let bf = st1.label_cnt;
                let af = (st1.label_cnt + 1) as usize;
                match lower_stmt(fns, globs, st1.mint(2).emit(IrStmt::Bz(bf)), *t) {
                    Ok(st2) => {
                        let st3 = st2.emit(IrStmt::Jump(af)).emit(IrStmt::Label(bf));
                        match f {
                            None => Ok(st3.emit(IrStmt::Label(af))),
                            Some(f2) => match lower_stmt(fns, globs, st3, *f2) {
                                Ok(st4) => Ok(st4.emit(IrStmt::Label(af))),
                                Err(er) => Err(er),
                            },
                        }
                    }
                    Err(er) => Err(er),
                }
            }
            Err(er) => Err(er),
        },
        Stmt::Block(b) => {
            let st1 = LowerState { frames: st.frames.push(Seq::empty()), ..st };
            match lower_stmt_list(fns, globs, st1, b.0@) {
                Ok(st2) => Ok(LowerState { frames: st2.frames.drop_last(), ..st2 }),
                Err(er) => Err(er),
            }
        }
        Stmt::While(c, body) => {
            let bc = st.label_cnt;
            let ab = (st.label_cnt + 1) as usize;
            let st1 = LowerState {
                loops: st.loops.push((ab, bc)),
                ..st.mint(2)
            }.emit(IrStmt::Label(bc));
            match lower_expr(fns, globs, st1, c) {
                Ok(st2) => match lower_stmt(fns, globs, st2.emit(IrStmt::Bz(ab)), *body) {
                    Ok(st3) => {
                        let st4 = st3.emit(IrStmt::Jump(bc)).emit(IrStmt::Label(ab));
                        Ok(LowerState { loops: st4.loops.drop_last(), ..st4 })
                    }
                    Err(er) => Err(er),
                },
                Err(er) => Err(er),
            }
        }
        Stmt::DoWhile(body, c) => {
            let bb = st.label_cnt;
            let bc = (st.label_cnt + 1) as usize;
            let ac = (st.label_cnt + 2) as usize;
            let st1 = LowerState {
                loops: st.loops.push((ac, bc)),
                ..st.mint(3)
            }.emit(IrStmt::Label(bb));
            match lower_stmt(fns, globs, st1, *body) {
                Ok(st2) => match lower_expr(fns, globs, st2.emit(IrStmt::Label(bc)), c) {
                    Ok(st3) => {
                        let st4 = st3.emit(IrStmt::Bnz(bb)).emit(IrStmt::Label(ac));
                        Ok(LowerState { loops: st4.loops.drop_last(), ..st4 })
                    }
                    Err(er) => Err(er),
                },
                Err(er) => Err(er),
            }
        }
        Stmt::For { init, cond, update, body } => {
            let st1 = LowerState { frames: st.frames.push(Seq::empty()), ..st };
            let after_init = match init {
                Some(i) => lower_stmt(fns, globs, st1, *i),
                None => Ok(st1),
            };
            match after_init {
                Ok(st2) => {
                    let bc = st2.label_cnt;
                    let bu = (st2.label_cnt + 1) as usize;
                    let ab = (st2.label_cnt + 2) as usize;
                    // `continue` jumps to the update step, not the
                    // condition, so the update always runs before the
                    // condition is re-tested.
                    let st3 = LowerState {
                        loops: st2.loops.push((ab, bu)),
                        ..st2.mint(3)
                    }.emit(IrStmt::Label(bc));
                    let after_cond = match cond {
                        Some(c) => lower_expr(fns, globs, st3, c),
                        None => Ok(st3.emit(IrStmt::Ldc(1))),
                    };
                    match after_cond {
                        Ok(st4) => match lower_stmt(
                            fns,
                            globs,
                            st4.emit(IrStmt::Bz(ab)),
                            *body,
                        ) {
                            Ok(st5) => {
                                let after_update = match update {
                                    Some(u) => lower_expr(
                                        fns,
                                        globs,
                                        st5.emit(IrStmt::Label(bu)),
                                        u,
                                    ),
                                    None => Ok(st5.emit(IrStmt::Label(bu))),
                                };
                                match after_update {
                                    Ok(st6) => {
                                        let st7 = st6.emit(IrStmt::Jump(bc)).emit(
                                            IrStmt::Label(ab),
                                        );
                                        Ok(
                                            LowerState {
                                                frames: st7.frames.drop_last(),
                                                loops: st7.loops.drop_last(),
                                                ..st7
                                            },
                                        )
                                    }
                                    Err(er) => Err(er),
                                }
                            }
                            Err(er) => Err(er),
                        },
                        Err(er) => Err(er),
                    }
                }
                Err(er) => Err(er),
            }
        }
        Stmt::Continue => {
            if st.loops.len() == 0 {
                Err(CompileError::ContinueOutsideLoop)
            } else {
                Ok(st.emit(IrStmt::Jump(st.loops.last().1)))
            }
        }
        Stmt::Break => {
            if st.loops.len() == 0 {
                Err(CompileError::BreakOutsideLoop)
            } else {
                Ok(st.emit(IrStmt::Jump(st.loops.last().0)))
            }
        }
    }
}

/// Lower a run of statements in order.
pub open spec fn lower_stmt_list(
    fns: Seq<Func>,
    globs: Seq<(String, Option<i32>)>,
    st: LowerState,
    ss: Seq<Stmt>,
) -> Result<LowerState, CompileError>
    decreases ss,
{
    if ss.len() == 0 {
        Ok(st)
    } else {
        match lower_stmt(fns, globs, st, ss[0]) {
            Ok(st1) => lower_stmt_list(fns, globs, st1, ss.subrange(1, ss.len() as int)),
            Err(er) => Err(er),
        }
    }
}

/// Declare the parameters in declaration order, before any body statement,
/// so parameter slots are always the lowest-numbered.
pub open spec fn declare_params(
    st: LowerState,
    params: Seq<String>,
) -> Result<LowerState, CompileError>
    decreases params,
{
    if params.len() == 0 {
        Ok(st)
    } else {
        match declare_var(st, params[0]) {
            Ok(st1) => declare_params(
                LowerState { var_cnt: (st.var_cnt + 1) as usize, ..st1 },
                params.subrange(1, params.len() as int),
            ),
            Err(er) => Err(er),
        }
    }
}

/// The model of one lowered function; `code` is its instruction sequence
/// and `var_cnt` counts the local slots beyond the parameters.
#[verifier::ext_equal]
pub ghost struct IrFuncView {
    pub name: String,
    pub param_cnt: usize,
    pub var_cnt: usize,
    pub is_decl: bool,
    pub code: Seq<IrStmt>,
}

/// The synthetic function exit: push 0, then return.
pub open spec fn ret_fallback() -> Seq<IrStmt> {
    seq![IrStmt::Ldc(0), IrStmt::Ret]
}

/// Every non-empty body ends in a `Ret`; where the lowered body does not
/// already end in one, the fallback `Ldc(0); Ret` is appended.
pub open spec fn with_ret_fallback(code: Seq<IrStmt>) -> Seq<IrStmt> {
    if code.len() > 0 && code.last() == IrStmt::Ret {
        code
    } else {
        code + ret_fallback()
    }
}

/// Lower one function against the fully merged tables. A forward
/// declaration contributes no code; a body is lowered in a fresh state
/// whose single starting frame already holds the parameters. The body
/// block shares that frame, so a local named like a parameter collides.
pub open spec fn lower_func(
    fns: Seq<Func>,
    globs: Seq<(String, Option<i32>)>,
    f: Func,
) -> Result<IrFuncView, CompileError> {
    match declare_params(init_state(), f.params@) {
        Ok(st0) => match f.stmts {
            None => Ok(
                IrFuncView {
                    name: f.name,
                    param_cnt: f.params@.len() as usize,
                    var_cnt: 0,
                    is_decl: true,
                    code: Seq::empty(),
                },
            ),
            Some(body) => {
                let lowered = match body {
                    Stmt::Block(b) => lower_stmt_list(fns, globs, st0, b.0@),
                    _ => lower_stmt(fns, globs, st0, body),
                };
                match lowered {
                    Ok(st1) => Ok(
                        IrFuncView {
                            name: f.name,
                            param_cnt: f.params@.len() as usize,
                            var_cnt: (st1.var_cnt - f.params@.len()) as usize,
                            is_decl: false,
                            code: with_ret_fallback(st1.code),
                        },
                    ),
                    Err(er) => Err(er),
                }
            }
        },
        Err(er) => Err(er),
    }
}

/// Merge one global declaration into the table: a new name is appended; a
/// forward reference may be completed exactly once by a definition with an
/// initializer; two initialized definitions conflict.
pub open spec fn merge_glob(
    acc: Seq<(String, Option<i32>)>,
    g: (String, Option<i32>),
) -> Result<Seq<(String, Option<i32>)>, CompileError> {
    match glob_find(acc, g.0@) {
        None => Ok(acc.push(g)),
        Some(i) => {
            if acc[i].1 is None {
                Ok(acc.update(i, g))
            } else if g.1 is Some {
                Err(CompileError::ConflictingDefinition(g.0))
            } else {
                Ok(acc)
            }
        }
    }
}

/// Fold `merge_glob` over the program's global declarations.
pub open spec fn merge_globs_from(
    acc: Seq<(String, Option<i32>)>,
    gs: Seq<(String, Option<i32>)>,
) -> Result<Seq<(String, Option<i32>)>, CompileError>
    decreases gs,
{
    if gs.len() == 0 {
        Ok(acc)
    } else {
        match merge_glob(acc, gs[0]) {
            Ok(acc1) => merge_globs_from(acc1, gs.subrange(1, gs.len() as int)),
            Err(er) => Err(er),
        }
    }
}

/// The resolved global table of a program.
pub open spec fn merge_globs(
    gs: Seq<(String, Option<i32>)>,
) -> Result<Seq<(String, Option<i32>)>, CompileError> {
    merge_globs_from(Seq::empty(), gs)
}

/// Merge one function declaration into the table: a later full definition
/// replaces an earlier pure declaration, but never another full
/// definition; a later pure declaration changes nothing.
pub open spec fn merge_func(acc: Seq<Func>, f: Func) -> Result<Seq<Func>, CompileError> {
    match func_find(acc, f.name@) {
        None => Ok(acc.push(f)),
        Some(i) => {
            if acc[i].stmts is None {
                Ok(acc.update(i, f))
            } else if f.stmts is Some {
                Err(CompileError::ConflictingDefinition(f.name))
            } else {
                Ok(acc)
            }
        }
    }
}

/// Fold `merge_func` over the program's function declarations.
pub open spec fn merge_funcs_from(acc: Seq<Func>, fs: Seq<Func>) -> Result<
    Seq<Func>,
    CompileError,
>
    decreases fs,
{
    if fs.len() == 0 {
        Ok(acc)
    } else {
        match merge_func(acc, fs[0]) {
            Ok(acc1) => merge_funcs_from(acc1, fs.subrange(1, fs.len() as int)),
            Err(er) => Err(er),
        }
    }
}

/// The merged function table of a program.
pub open spec fn merge_funcs(fs: Seq<Func>) -> Result<Seq<Func>, CompileError> {
    merge_funcs_from(Seq::empty(), fs)
}

/// Lower every function of the merged table, in table order, appending
/// each result to `acc`.
pub open spec fn lower_func_list_from(
    fns: Seq<Func>,
    globs: Seq<(String, Option<i32>)>,
    acc: Seq<IrFuncView>,
    fs: Seq<Func>,
) -> Result<Seq<IrFuncView>, CompileError>
    decreases fs,
{
    if fs.len() == 0 {
        Ok(acc)
    } else {
        match lower_func(fns, globs, fs[0]) {
            Ok(v) => lower_func_list_from(fns, globs, acc.push(v), fs.subrange(1, fs.len() as int)),
            Err(er) => Err(er),
        }
    }
}

/// The model of a lowered translation unit.
#[verifier::ext_equal]
pub ghost struct IrProgView {
    pub funcs: Seq<IrFuncView>,
    pub globs: Seq<(String, Option<i32>)>,
}

/// One lowered function of an executable `IrProg`, as the model sees it.
pub open spec fn func_view(f: crate::ir::IrFunc) -> IrFuncView {
    IrFuncView {
        name: f.name,
        param_cnt: f.param_cnt,
        var_cnt: f.var_cnt,
        is_decl: f.is_decl,
        code: f.stmts@,
    }
}

/// An executable `IrProg`, as the model sees it.
pub open spec fn prog_view(g: crate::ir::IrProg) -> IrProgView {
    IrProgView { funcs: g.funcs@.map_values(|f: crate::ir::IrFunc| func_view(f)), globs: g.globs@ }
}

/// Lower a whole program: both tables are merged program-wide first, so
/// forward references compile regardless of declaration order; only then
/// is any body lowered.
pub open spec fn lower_prog(p: Prog) -> Result<IrProgView, CompileError> {
    match merge_globs(p.globs@) {
        Ok(globs) => match merge_funcs(p.funcs@) {
            Ok(fns) => match lower_func_list_from(fns, globs, Seq::empty(), fns) {
                Ok(vs) => Ok(IrProgView { funcs: vs, globs }),
                Err(er) => Err(er),
            },
            Err(er) => Err(er),
        },
        Err(er) => Err(er),
    }
}

} // verus!
