//! The flat stack-machine intermediate representation.
//!
//! Each instruction operates on an implicit evaluation stack. A program is
//! an ordered table of functions plus an ordered table of resolved globals;
//! both tables are indexed by stable integer ids that instructions refer to.

use vstd::prelude::*;
use crate::ast::{UnaryOp, BinaryOp, MAX_FUNC_WEIGHT};

verus! {

/// One stack-machine instruction.
#[derive(Debug, Copy, Clone, PartialEq, Eq, Structural)]
pub enum IrStmt {
    /// Push a constant.
    Ldc(i32),
    /// Replace the top of the stack by the unary result.
    Unary(UnaryOp),
    /// Pop right then left operand, push the binary result.
    Binary(BinaryOp),
    /// Push the value of a local slot.
    Load(usize),
    /// Pop into a local slot.
    Store(usize),
    /// Push the value of a global.
    LoadGlobal(usize),
    /// Pop into a global.
    StoreGlobal(usize),
    /// Branch target, numbered per function.
    Label(usize),
    /// Pop; jump to the label if the value was zero.
    Bz(usize),
    /// Pop; jump to the label if the value was nonzero.
    Bnz(usize),
    /// Unconditional jump to the label.
    Jump(usize),
    /// Call the function with this table index; its arguments were pushed
    /// in evaluation order and its return value is pushed back.
    Call(usize),
    /// Discard the top of the stack.
    Pop,
    /// Pop the return value and leave the function.
    Ret,
}

/// The instructions of one function, with the frame layout data the code
/// generator needs. `var_cnt` counts local slots beyond the parameters.
#[derive(Debug, PartialEq)]
pub struct IrFunc {
    pub name: String,
    pub param_cnt: usize,
    pub var_cnt: usize,
    pub is_decl: bool,
    pub stmts: Vec<IrStmt>,
}

/// A lowered translation unit.
#[derive(Debug, PartialEq)]
pub struct IrProg {
    pub funcs: Vec<IrFunc>,
    pub globs: Vec<(String, Option<i32>)>,
}

/// The ids an instruction mentions stay inside the tables of a program
/// whose functions draw at most `vars` local slots, `globs` globals and
/// `fns` callees.
pub open spec fn instr_in_range(s: IrStmt, vars: nat, globs: nat, fns: nat) -> bool {
    match s {
        IrStmt::Load(i) => i < vars,
        IrStmt::Store(i) => i < vars,
        IrStmt::LoadGlobal(i) => i < globs,
        IrStmt::StoreGlobal(i) => i < globs,
        IrStmt::Call(i) => i < fns,
        _ => true,
    }
}

/// A lowered function the code generator can render: the frame counts
/// stay under the size ceiling, so every frame offset fits a machine
/// word, and each instruction only mentions ids inside the tables.
pub open spec fn func_wf(f: IrFunc, globs: nat, fns: nat) -> bool {
    &&& f.param_cnt + f.var_cnt <= MAX_FUNC_WEIGHT
    &&& forall|i: int|
        0 <= i < f.stmts@.len() ==> instr_in_range(
            #[trigger] f.stmts@[i],
            (f.param_cnt + f.var_cnt) as nat,
            globs,
            fns,
        )
}

/// The invariants of a lowered program, as the code generator needs
/// them: every function is well-formed against the program's own tables.
pub open spec fn prog_wf(p: IrProg) -> bool {
    forall|k: int|
        0 <= k < p.funcs@.len() ==> func_wf(
            #[trigger] p.funcs@[k],
            p.globs@.len(),
            p.funcs@.len(),
        )
}

/// Growing any of the three tables keeps an instruction in range.
pub proof fn lemma_instr_in_range_widen(
    s: IrStmt,
    vars1: nat, globs1: nat, fns1: nat,
    vars2: nat, globs2: nat, fns2: nat,
)
    requires
        instr_in_range(s, vars1, globs1, fns1),
        vars1 <= vars2,
        globs1 <= globs2,
        fns1 <= fns2,
    ensures
        instr_in_range(s, vars2, globs2, fns2),
{
}

} // verus!
