//! A compiler for a small, untyped-integer subset of C.
//!
//! The pipeline takes a syntax tree (built by a caller-supplied parser),
//! lowers it into a flat stack-machine intermediate representation, and
//! renders that representation as assembly text for a RISC-style target.
//! Every stage is specified by a functional model and verified against it.
#![verifier::loop_isolation(false)]

use vstd::prelude::*;

pub mod ast;
pub mod codegen;
pub mod compiler;
pub mod emit;
pub mod errors;
pub mod ir;
pub mod laws;
pub mod lower;
pub mod lower_lemmas;
pub mod resolve;

use crate::ast::{Prog, prog_within_weight};
use crate::errors::CompileError;
use crate::ir::func_wf;
use crate::lower::{lower_prog, prog_view, func_view};
use crate::codegen::asm_text;
use crate::emit::{ast2ir, ir_func_matches};
use crate::lower_lemmas::{lemma_lower_prog_ok, func_view_ok, code_in_range};

verus! {

/// Run the whole pipeline: lower the syntax tree into the stack-machine
/// representation, then render it as assembly text. The text returned is
/// exactly `asm_text` of what the model's `lower_prog` computes, and
/// every error of the lowering comes back unchanged.
pub fn compile(p: &Prog) -> (r: Result<String, CompileError>)
    requires
        prog_within_weight(*p),
    ensures
        match lower_prog(*p) {
            Ok(pv) => r matches Ok(s) && s@ == asm_text(pv),
            Err(e2) => r matches Err(e3) && e3 == e2,
        },
{
    match ast2ir(p) {
        Ok(ir) => {
            proof {
                lemma_lower_prog_ok(*p);
                let pv = lower_prog(*p)->Ok_0;
                assert forall|k: int| 0 <= k < ir.funcs@.len() implies func_wf(
                    #[trigger] ir.funcs@[k],
                    ir.globs@.len(),
                    ir.funcs@.len(),
                ) by {
                    assert(ir_func_matches(ir.funcs@[k], pv.funcs[k]));
                    assert(func_view_ok(pv.funcs[k], pv.globs.len(), pv.funcs.len()));
                    assert(code_in_range(
                        pv.funcs[k].code,
                        (pv.funcs[k].param_cnt + pv.funcs[k].var_cnt) as nat,
                        pv.globs.len(),
                        pv.funcs.len(),
                    ));
                }
                assert forall|k: int| 0 <= k < ir.funcs@.len() implies func_view(
                    #[trigger] ir.funcs@[k],
                ) == pv.funcs[k] by {
                    assert(ir_func_matches(ir.funcs@[k], pv.funcs[k]));
                    assert(func_view(ir.funcs@[k]) =~~= pv.funcs[k]);
                }
                assert(prog_view(ir).funcs =~= pv.funcs);
                assert(prog_view(ir) =~~= pv);
            }
            Ok(codegen::write_asm(&ir))
        }
        Err(er) => Err(er),
    }
}

} // verus!
