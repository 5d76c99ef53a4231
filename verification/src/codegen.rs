//! The code generator: renders a lowered program as assembly text.
//!
//! Every instruction is a strict stack-machine idiom over an explicit
//! runtime stack; the prologue saves the caller's frame pointer and the
//! return address below the new frame and the return sequence restores
//! them from the same slots, which is what makes the calling convention
//! round-trip. The exact character sequence produced is specified by
//! `asm_text`, and `write_asm` is proved to return it.

use vstd::prelude::*;
use vstd::string::StringExecFns;
use crate::ast::{UnaryOp, BinaryOp, MAX_FUNC_WEIGHT};
use crate::ir::{IrStmt, IrFunc, IrProg, instr_in_range, func_wf, prog_wf};
use crate::lower::{IrFuncView, IrProgView, func_view, prog_view};

verus! {

/// Bytes per stack slot.
pub const SLOT: usize = 8;

/// The character of one decimal digit.
pub open spec fn dec_digit(n: nat) -> char {
    if n == 0 {
        '0'
    } else if n == 1 {
        '1'
    } else if n == 2 {
        '2'
    } else if n == 3 {
        '3'
    } else if n == 4 {
        '4'
    } else if n == 5 {
        '5'
    } else if n == 6 {
        '6'
    } else if n == 7 {
        '7'
    } else if n == 8 {
        '8'
    } else {
        '9'
    }
}

/// The decimal rendering of a natural number, most significant digit
/// first, with no leading zeros (and `0` itself rendered as "0").
pub open spec fn dec_nat(n: nat) -> Seq<char>
    decreases n,
{
    if n < 10 {
        seq![dec_digit(n)]
    } else {
        dec_nat(n / 10).push(dec_digit(n % 10))
    }
}

/// The decimal rendering of an integer, with a leading minus sign when
/// negative.
pub open spec fn dec_int(x: int) -> Seq<char> {
    if x < 0 {
        seq!['-'] + dec_nat((-x) as nat)
    } else {
        dec_nat(x as nat)
    }
}

/// Append the decimal rendering of `n`.
fn push_dec_u64(s: &mut String, n: u64)
    ensures
        final(s)@ == old(s)@ + dec_nat(n as nat),
    decreases n,
{
    let ghost pre = s@;
    if n >= 10 {
        push_dec_u64(s, n / 10);
    }
    let ghost high = s@;
    let m = n % 10;
    if m == 0 {
        s.append("0");
        proof {
            reveal_strlit("0");
            assert("0"@ =~= seq![dec_digit((n % 10) as nat)]);
        }
    } else if m == 1 {
        s.append("1");
        proof {
            reveal_strlit("1");
            assert("1"@ =~= seq![dec_digit((n % 10) as nat)]);
        }
    } else if m == 2 {
        s.append("2");
        proof {
            reveal_strlit("2");
            assert("2"@ =~= seq![dec_digit((n % 10) as nat)]);
        }
    } else if m == 3 {
        s.append("3");
        proof {
            reveal_strlit("3");
            assert("3"@ =~= seq![dec_digit((n % 10) as nat)]);
        }
    } else if m == 4 {
        s.append("4");
        proof {
            reveal_strlit("4");
            assert("4"@ =~= seq![dec_digit((n % 10) as nat)]);
        }
    } else if m == 5 {
        s.append("5");
        proof {
            reveal_strlit("5");
            assert("5"@ =~= seq![dec_digit((n % 10) as nat)]);
        }
    } else if m == 6 {
        s.append("6");
        proof {
            reveal_strlit("6");
            assert("6"@ =~= seq![dec_digit((n % 10) as nat)]);
        }
    } else if m == 7 {
        s.append("7");
        proof {
            reveal_strlit("7");
            assert("7"@ =~= seq![dec_digit((n % 10) as nat)]);
        }
    } else if m == 8 {
        s.append("8");
        proof {
            reveal_strlit("8");
            assert("8"@ =~= seq![dec_digit((n % 10) as nat)]);
        }
    } else {
        s.append("9");
        proof {
            reveal_strlit("9");
            assert("9"@ =~= seq![dec_digit((n % 10) as nat)]);
        }
    }
    proof {
        if n >= 10 {
            assert(s@ =~= pre + dec_nat(n as nat));
        } else {
            assert(s@ =~= pre + dec_nat(n as nat));
        }
    }
}

/// Append the decimal rendering of a `usize`.
fn push_dec_usize(s: &mut String, n: usize)
    ensures
        final(s)@ == old(s)@ + dec_nat(n as nat),
{
    push_dec_u64(s, n as u64);
}

/// Append the decimal rendering of an `i32`, sign included.
fn push_dec_i32(s: &mut String, x: i32)
    ensures
        final(s)@ == old(s)@ + dec_int(x as int),
{
    let ghost pre = s@;
    if x < 0 {
        s.append("-");
        let m: i64 = x as i64;
        push_dec_u64(s, (-m) as u64);
        proof {
            reveal_strlit("-");
            assert("-"@ =~= seq!['-']);
            assert(((-m) as u64) as nat == (-(x as int)) as nat);
            assert(s@ =~= pre + dec_int(x as int));
        }
    } else {
        push_dec_u64(s, x as u64);
    }
}

/// A reference to label `id` of function `fname`: labels are namespaced
/// per function so that independently numbered labels never collide.
pub open spec fn label_ref(fname: Seq<char>, id: usize) -> Seq<char> {
    ".L."@ + fname + "."@ + dec_nat(id as nat)
}

/// The mnemonic of a unary operator.
pub open spec fn unary_op_text(op: UnaryOp) -> Seq<char> {
    match op {
        UnaryOp::Neg => "neg"@,
        UnaryOp::BNot => "not"@,
        UnaryOp::LNot => "seqz"@,
    }
}

/// The lines computing a binary operator from `t1` (left) and `t0`
/// (right) into `t0`. Comparisons are synthesized from the primitive
/// set-less-than with a boolean complement where needed.
pub open spec fn binary_op_text(op: BinaryOp) -> Seq<char> {
    match op {
        BinaryOp::Add => "  add t0, t1, t0\n"@,
        BinaryOp::Sub => "  sub t0, t1, t0\n"@,
        BinaryOp::Mul => "  mul t0, t1, t0\n"@,
        BinaryOp::Div => "  div t0, t1, t0\n"@,
        BinaryOp::Mod => "  rem t0, t1, t0\n"@,
        BinaryOp::Lt => "  slt t0, t1, t0\n"@,
        BinaryOp::Le => "  slt t0, t0, t1\n  xor t0, t0, 1\n"@,
        BinaryOp::Ge => "  slt t0, t1, t0\n  xor t0, t0, 1\n"@,
        BinaryOp::Gt => "  slt t0, t0, t1\n"@,
        BinaryOp::Eq => "  xor t0, t0, t1\n  seqz t0, t0\n"@,
        BinaryOp::Ne => "  xor t0, t0, t1\n  snez t0, t0\n"@,
        BinaryOp::And => "  snez t0, t0\n  snez t1, t1\n  and t0, t0, t1\n"@,
        BinaryOp::Or => "  or t0, t0, t1\n  snez t0, t0\n"@,
    }
}

/// The text emitted for one instruction of function `fname`, whose frame
/// holds `param_cnt` parameter slots and `var_cnt` further local slots.
/// `fnames` and `gnames` are the names of the program's functions and
/// globals, for call and global-access instructions.
pub open spec fn instr_text(
    s: IrStmt,
    fname: Seq<char>,
    param_cnt: usize,
    var_cnt: usize,
    fnames: Seq<Seq<char>>,
    gnames: Seq<Seq<char>>,
) -> Seq<char> {
    match s {
        IrStmt::Ldc(x) => "  li t0, "@ + dec_int(x as int)
            + "\n  sd t0, -8(sp)\n  add sp, sp, -8\n"@,
        IrStmt::Unary(op) => "  ld t0, 0(sp)\n  "@ + unary_op_text(op)
            + " t0, t0\n  sd t0, 0(sp)\n"@,
        IrStmt::Binary(op) => "  ld t0, 0(sp)\n  ld t1, 8(sp)\n  add sp, sp, 8\n"@
            + binary_op_text(op) + "  sd t0, 0(sp)\n"@,
        IrStmt::Load(id) => "  ld t0, -"@ + dec_nat(((id + 1) * SLOT) as nat)
            + "(s0)\n  sd t0, -8(sp)\n  add sp, sp, -8\n"@,
        IrStmt::Store(id) => "  ld t0, 0(sp)\n  add sp, sp, 8\n  sd t0, -"@
            + dec_nat(((id + 1) * SLOT) as nat) + "(s0)\n"@,
        IrStmt::LoadGlobal(id) => "  la t1, "@ + gnames[id as int]
            + "\n  ld t0, 0(t1)\n  sd t0, -8(sp)\n  add sp, sp, -8\n"@,
        IrStmt::StoreGlobal(id) => "  ld t0, 0(sp)\n  add sp, sp, 8\n  la t1, "@
            + gnames[id as int] + "\n  sd t0, 0(t1)\n"@,
        IrStmt::Label(x) => label_ref(fname, x) + ":\n"@,
        IrStmt::Bz(x) => "  ld t0, 0(sp)\n  add sp, sp, 8\n  beqz t0, "@ + label_ref(fname, x)
            + "\n"@,
        IrStmt::Bnz(x) => "  ld t0, 0(sp)\n  add sp, sp, 8\n  bnez t0, "@ + label_ref(fname, x)
            + "\n"@,
        IrStmt::Jump(x) => "  j "@ + label_ref(fname, x) + "\n"@,
        IrStmt::Call(x) => "  jal "@ + fnames[x as int] + "\n  sd a0, -8(sp)\n  add sp, sp, -8\n"@,
        IrStmt::Pop => "  add sp, sp, 8\n"@,
        IrStmt::Ret => "  ld a0, 0(sp)\n  mv sp, s0\n  ld s0, -"@
            + dec_nat(((param_cnt + var_cnt + 1) * SLOT) as nat) + "(sp)\n  ld ra, -"@
            + dec_nat(((param_cnt + var_cnt + 2) * SLOT) as nat) + "(sp)\n  jr ra\n"@,
    }
}

/// The text of a run of instructions.
pub open spec fn body_text(
    code: Seq<IrStmt>,
    fname: Seq<char>,
    param_cnt: usize,
    var_cnt: usize,
    fnames: Seq<Seq<char>>,
    gnames: Seq<Seq<char>>,
) -> Seq<char>
    decreases code.len(),
{
    if code.len() == 0 {
        Seq::empty()
    } else {
        instr_text(code[0], fname, param_cnt, var_cnt, fnames, gnames) + body_text(
            code.subrange(1, code.len() as int),
            fname,
            param_cnt,
            var_cnt,
            fnames,
            gnames,
        )
    }
}

/// The text of one function: nothing for a forward declaration; for a
/// definition, its label, the prologue establishing the frame pointer at
/// `old sp + parameter slots` and reserving `local count + 2` words (the
/// two extra words hold the caller's frame pointer and return address),
/// then the body.
pub open spec fn func_text(
    f: IrFuncView,
    fnames: Seq<Seq<char>>,
    gnames: Seq<Seq<char>>,
) -> Seq<char> {
    if f.is_decl {
        Seq::empty()
    } else {
        ".global "@ + f.name@ + "\n"@ + f.name@ + ":\n  sd s0, -"@
            + dec_nat(((f.var_cnt + 1) * SLOT) as nat) + "(sp)\n  sd ra, -"@
            + dec_nat(((f.var_cnt + 2) * SLOT) as nat) + "(sp)\n  add s0, sp, "@
            + dec_nat((f.param_cnt * SLOT) as nat) + "\n  add sp, sp, -"@
            + dec_nat(((f.var_cnt + 2) * SLOT) as nat) + "\n"@
            + body_text(f.code, f.name@, f.param_cnt, f.var_cnt, fnames, gnames)
    }
}

/// The text of a run of functions.
pub open spec fn funcs_text(
    fs: Seq<IrFuncView>,
    fnames: Seq<Seq<char>>,
    gnames: Seq<Seq<char>>,
) -> Seq<char>
    decreases fs.len(),
{
    if fs.len() == 0 {
        Seq::empty()
    } else {
        func_text(fs[0], fnames, gnames) + funcs_text(
            fs.subrange(1, fs.len() as int),
            fnames,
            gnames,
        )
    }
}

/// One data-section entry per global: its label and an 8-byte word
/// holding the initializer, or zero where none was given.
pub open spec fn globs_text(gs: Seq<(String, Option<i32>)>) -> Seq<char>
    decreases gs.len(),
{
    if gs.len() == 0 {
        Seq::empty()
    } else {
        gs[0].0@ + ":\n  .quad "@ + dec_int(
            match gs[0].1 {
                Some(v) => v as int,
                None => 0,
            },
        ) + "\n"@ + globs_text(gs.subrange(1, gs.len() as int))
    }
}

/// The names of the program's functions, in table order.
pub open spec fn fnames_of(fs: Seq<IrFuncView>) -> Seq<Seq<char>> {
    fs.map_values(|f: IrFuncView| f.name@)
}

/// The names of the program's globals, in table order.
pub open spec fn gnames_of(gs: Seq<(String, Option<i32>)>) -> Seq<Seq<char>> {
    gs.map_values(|g: (String, Option<i32>)| g.0@)
}

/// The whole assembly text of a lowered program: every defined function
/// in table order, then a data section when any global exists.
pub open spec fn asm_text(pv: IrProgView) -> Seq<char> {
    funcs_text(pv.funcs, fnames_of(pv.funcs), gnames_of(pv.globs)) + if pv.globs.len() == 0 {
        Seq::<char>::empty()
    } else {
        ".data\n"@ + globs_text(pv.globs)
    }
}

/// Append a label reference.
fn push_label_ref(out: &mut String, fname: &String, id: usize)
    ensures
        final(out)@ == old(out)@ + label_ref(fname@, id),
{
    let ghost pre = out@;
    out.append(".L.");
    out.append(fname.as_str());
    out.append(".");
    push_dec_usize(out, id);
    proof {
        assert(out@ =~= pre + label_ref(fname@, id));
    }
}

/// Append the text of one instruction of `f`, a function of `p`.
fn push_instr(out: &mut String, instr: &IrStmt, f: &IrFunc, p: &IrProg)
    requires
        f.param_cnt + f.var_cnt <= MAX_FUNC_WEIGHT,
        instr_in_range(*instr, (f.param_cnt + f.var_cnt) as nat, p.globs@.len(), p.funcs@.len()),
    ensures
        final(out)@ == old(out)@ + instr_text(
            *instr,
            f.name@,
            f.param_cnt,
            f.var_cnt,
            fnames_of(prog_view(*p).funcs),
            gnames_of(p.globs@),
        ),
{
    let ghost pre = out@;
    let ghost fnames = fnames_of(prog_view(*p).funcs);
    let ghost gnames = gnames_of(p.globs@);
    match instr {
        IrStmt::Ldc(x) => {
            out.append("  li t0, ");
            push_dec_i32(out, *x);
            out.append("\n  sd t0, -8(sp)\n  add sp, sp, -8\n");
            proof {
                assert(out@ =~= pre + instr_text(*instr, f.name@, f.param_cnt, f.var_cnt,
                    fnames, gnames));
            }
        }
        IrStmt::Unary(op) => {
            out.append("  ld t0, 0(sp)\n  ");
            match op {
                UnaryOp::Neg => out.append("neg"),
                UnaryOp::BNot => out.append("not"),
                UnaryOp::LNot => out.append("seqz"),
            }
            out.append(" t0, t0\n  sd t0, 0(sp)\n");
            proof {
                assert(out@ =~= pre + instr_text(*instr, f.name@, f.param_cnt, f.var_cnt,
                    fnames, gnames));
            }
        }
        IrStmt::Binary(op) => {
            out.append("  ld t0, 0(sp)\n  ld t1, 8(sp)\n  add sp, sp, 8\n");
            match op {
                BinaryOp::Add => out.append("  add t0, t1, t0\n"),
                BinaryOp::Sub => out.append("  sub t0, t1, t0\n"),
                BinaryOp::Mul => out.append("  mul t0, t1, t0\n"),
                BinaryOp::Div => out.append("  div t0, t1, t0\n"),
                BinaryOp::Mod => out.append("  rem t0, t1, t0\n"),
                BinaryOp::Lt => out.append("  slt t0, t1, t0\n"),
                BinaryOp::Le => out.append("  slt t0, t0, t1\n  xor t0, t0, 1\n"),
                BinaryOp::Ge => out.append("  slt t0, t1, t0\n  xor t0, t0, 1\n"),
                BinaryOp::Gt => out.append("  slt t0, t0, t1\n"),
                BinaryOp::Eq => out.append("  xor t0, t0, t1\n  seqz t0, t0\n"),
                BinaryOp::Ne => out.append("  xor t0, t0, t1\n  snez t0, t0\n"),
                BinaryOp::And => out.append("  snez t0, t0\n  snez t1, t1\n  and t0, t0, t1\n"),
                BinaryOp::Or => out.append("  or t0, t0, t1\n  snez t0, t0\n"),
            }
            out.append("  sd t0, 0(sp)\n");
            proof {
                assert(out@ =~= pre + instr_text(*instr, f.name@, f.param_cnt, f.var_cnt,
                    fnames, gnames));
            }
        }
        IrStmt::Load(id) => {
            out.append("  ld t0, -");
            push_dec_usize(out, (*id + 1) * SLOT);
            out.append("(s0)\n  sd t0, -8(sp)\n  add sp, sp, -8\n");
            proof {
                assert(out@ =~= pre + instr_text(*instr, f.name@, f.param_cnt, f.var_cnt,
                    fnames, gnames));
            }
        }
        IrStmt::Store(id) => {
            out.append("  ld t0, 0(sp)\n  add sp, sp, 8\n  sd t0, -");
            push_dec_usize(out, (*id + 1) * SLOT);
            out.append("(s0)\n");
            proof {
                assert(out@ =~= pre + instr_text(*instr, f.name@, f.param_cnt, f.var_cnt,
                    fnames, gnames));
            }
        }
        IrStmt::LoadGlobal(id) => {
            out.append("  la t1, ");
            out.append(p.globs[*id].0.as_str());
            out.append("\n  ld t0, 0(t1)\n  sd t0, -8(sp)\n  add sp, sp, -8\n");
            proof {
                assert(gnames[*id as int] == p.globs@[*id as int].0@);
                assert(out@ =~= pre + instr_text(*instr, f.name@, f.param_cnt, f.var_cnt,
                    fnames, gnames));
            }
        }
        IrStmt::StoreGlobal(id) => {
            out.append("  ld t0, 0(sp)\n  add sp, sp, 8\n  la t1, ");
            out.append(p.globs[*id].0.as_str());
            out.append("\n  sd t0, 0(t1)\n");
            proof {
                assert(gnames[*id as int] == p.globs@[*id as int].0@);
                assert(out@ =~= pre + instr_text(*instr, f.name@, f.param_cnt, f.var_cnt,
                    fnames, gnames));
            }
        }
        IrStmt::Label(x) => {
            push_label_ref(out, &f.name, *x);
            out.append(":\n");
            proof {
                assert(out@ =~= pre + instr_text(*instr, f.name@, f.param_cnt, f.var_cnt,
                    fnames, gnames));
            }
        }
        IrStmt::Bz(x) => {
            out.append("  ld t0, 0(sp)\n  add sp, sp, 8\n  beqz t0, ");
            push_label_ref(out, &f.name, *x);
            out.append("\n");
            proof {
                assert(out@ =~= pre + instr_text(*instr, f.name@, f.param_cnt, f.var_cnt,
                    fnames, gnames));
            }
        }
        IrStmt::Bnz(x) => {
            out.append("  ld t0, 0(sp)\n  add sp, sp, 8\n  bnez t0, ");
            push_label_ref(out, &f.name, *x);
            out.append("\n");
            proof {
                assert(out@ =~= pre + instr_text(*instr, f.name@, f.param_cnt, f.var_cnt,
                    fnames, gnames));
            }
        }
        IrStmt::Jump(x) => {
            out.append("  j ");
            push_label_ref(out, &f.name, *x);
            out.append("\n");
            proof {
                assert(out@ =~= pre + instr_text(*instr, f.name@, f.param_cnt, f.var_cnt,
                    fnames, gnames));
            }
        }
        IrStmt::Call(x) => {
            out.append("  jal ");
            out.append(p.funcs[*x].name.as_str());
            out.append("\n  sd a0, -8(sp)\n  add sp, sp, -8\n");
            proof {
                assert(prog_view(*p).funcs[*x as int] == func_view(p.funcs@[*x as int]));
                assert(fnames[*x as int] == p.funcs@[*x as int].name@);
                assert(out@ =~= pre + instr_text(*instr, f.name@, f.param_cnt, f.var_cnt,
                    fnames, gnames));
            }
        }
        IrStmt::Pop => {
            out.append("  add sp, sp, 8\n");
            proof {
                assert(out@ =~= pre + instr_text(*instr, f.name@, f.param_cnt, f.var_cnt,
                    fnames, gnames));
            }
        }
        IrStmt::Ret => {
            out.append("  ld a0, 0(sp)\n  mv sp, s0\n  ld s0, -");
            push_dec_usize(out, (f.param_cnt + f.var_cnt + 1) * SLOT);
            out.append("(sp)\n  ld ra, -");
            push_dec_usize(out, (f.param_cnt + f.var_cnt + 2) * SLOT);
            out.append("(sp)\n  jr ra\n");
            proof {
                assert(out@ =~= pre + instr_text(*instr, f.name@, f.param_cnt, f.var_cnt,
                    fnames, gnames));
            }
        }
    }
}

/// Append the text of one function of `p`: label, prologue, body.
#[verifier::rlimit(100)]
#[verifier::spinoff_prover]
fn push_func(out: &mut String, f: &IrFunc, p: &IrProg)
    requires
        func_wf(*f, p.globs@.len(), p.funcs@.len()),
    ensures
        final(out)@ == old(out)@ + func_text(
            func_view(*f),
            fnames_of(prog_view(*p).funcs),
            gnames_of(p.globs@),
        ),
{
    let ghost pre = out@;
    let ghost fv = func_view(*f);
    let ghost fnames = fnames_of(prog_view(*p).funcs);
    let ghost gnames = gnames_of(p.globs@);
    if !f.is_decl {
        out.append(".global ");
        out.append(f.name.as_str());
        out.append("\n");
        out.append(f.name.as_str());
        out.append(":\n  sd s0, -");
        push_dec_usize(out, (f.var_cnt + 1) * SLOT);
        out.append("(sp)\n  sd ra, -");
        push_dec_usize(out, (f.var_cnt + 2) * SLOT);
        out.append("(sp)\n  add s0, sp, ");
        push_dec_usize(out, f.param_cnt * SLOT);
        out.append("\n  add sp, sp, -");
        push_dec_usize(out, (f.var_cnt + 2) * SLOT);
        out.append("\n");
        let ghost bodystart = out@;
        let nb = f.stmts.len();
        let mut j: usize = 0;
        proof {
            assert(f.stmts@.subrange(0, nb as int) =~= f.stmts@);
            assert(bodystart + body_text(f.stmts@, f.name@, f.param_cnt, f.var_cnt, fnames,
                gnames) =~= bodystart + body_text(f.stmts@.subrange(0, nb as int), f.name@,
                f.param_cnt, f.var_cnt, fnames, gnames));
        }
        while j < nb
            invariant
                0 <= j <= nb,
                bodystart + body_text(f.stmts@, f.name@, f.param_cnt, f.var_cnt, fnames,
                    gnames) == out@ + body_text(
                    f.stmts@.subrange(j as int, nb as int),
                    f.name@,
                    f.param_cnt,
                    f.var_cnt,
                    fnames,
                    gnames,
                ),
            decreases nb - j,
        {
            let ghost mid = out@;
            proof {
                assert(f.stmts@.subrange(j as int, nb as int)[0] == f.stmts@[j as int]);
                assert(f.stmts@.subrange(j as int, nb as int).subrange(1, (nb - j) as int)
                    =~= f.stmts@.subrange(j + 1, nb as int));
            }
            push_instr(out, &f.stmts[j], f, p);
            proof {
                assert(out@ + body_text(f.stmts@.subrange(j + 1, nb as int), f.name@,
                    f.param_cnt, f.var_cnt, fnames, gnames) =~= mid + body_text(
                    f.stmts@.subrange(j as int, nb as int), f.name@, f.param_cnt, f.var_cnt,
                    fnames, gnames));
            }
            j += 1;
        }
        proof {
            assert(f.stmts@.subrange(nb as int, nb as int) =~= Seq::<IrStmt>::empty());
            assert(body_text(Seq::<IrStmt>::empty(), f.name@, f.param_cnt, f.var_cnt, fnames,
                gnames) =~= Seq::<char>::empty());
            assert(out@ =~= bodystart + body_text(f.stmts@, f.name@, f.param_cnt, f.var_cnt,
                fnames, gnames));
            assert(out@ =~= pre + func_text(fv, fnames, gnames));
        }
    }
}

/// Render a lowered program as assembly text: for each defined function
/// its label, prologue and body in order, then the data section for the
/// globals. Returns exactly the text that `asm_text` specifies.
#[verifier::rlimit(100)]
#[verifier::spinoff_prover]
pub fn write_asm(p: &IrProg) -> (out: String)
    requires
        prog_wf(*p),
    ensures
        out@ == asm_text(prog_view(*p)),
{
    let ghost pv = prog_view(*p);
    let ghost fnames = fnames_of(pv.funcs);
    let ghost gnames = gnames_of(p.globs@);
    let mut out = String::new();
    let nf = p.funcs.len();
    let mut i: usize = 0;
    proof {
        assert(pv.funcs.subrange(0, nf as int) =~= pv.funcs);
        assert(out@ + funcs_text(pv.funcs, fnames, gnames) =~= funcs_text(pv.funcs, fnames,
            gnames));
    }
    while i < nf
        invariant
            0 <= i <= nf,
            funcs_text(pv.funcs, fnames, gnames) == out@ + funcs_text(
                pv.funcs.subrange(i as int, nf as int),
                fnames,
                gnames,
            ),
        decreases nf - i,
    {
        let ghost pre = out@;
        let ghost fv = pv.funcs[i as int];
        proof {
            assert(pv.funcs.subrange(i as int, nf as int)[0] == pv.funcs[i as int]);
            assert(pv.funcs.subrange(i as int, nf as int).subrange(1, (nf - i) as int)
                =~= pv.funcs.subrange(i + 1, nf as int));
            assert(fv == func_view(p.funcs@[i as int]));
            assert(func_wf(p.funcs@[i as int], p.globs@.len(), p.funcs@.len()));
        }
        push_func(&mut out, &p.funcs[i], p);
        proof {
            assert(out@ + funcs_text(pv.funcs.subrange(i + 1, nf as int), fnames, gnames)
                =~= pre + funcs_text(pv.funcs.subrange(i as int, nf as int), fnames, gnames));
        }
        i += 1;
    }
    proof {
        assert(pv.funcs.subrange(nf as int, nf as int) =~= Seq::<IrFuncView>::empty());
        assert(out@ =~= funcs_text(pv.funcs, fnames, gnames));
    }
    if p.globs.len() > 0 {
        out.append(".data\n");
        let ghost datastart = out@;
        let ngl = p.globs.len();
        let mut k: usize = 0;
        proof {
            assert(p.globs@.subrange(0, ngl as int) =~= p.globs@);
        }
        while k < ngl
            invariant
                0 <= k <= ngl,
                datastart + globs_text(p.globs@) == out@ + globs_text(
                    p.globs@.subrange(k as int, ngl as int),
                ),
            decreases ngl - k,
        {
            let ghost mid = out@;
            proof {
                assert(p.globs@.subrange(k as int, ngl as int)[0] == p.globs@[k as int]);
                assert(p.globs@.subrange(k as int, ngl as int).subrange(1, (ngl - k) as int)
                    =~= p.globs@.subrange(k + 1, ngl as int));
            }
            let g = &p.globs[k];
            out.append(g.0.as_str());
            out.append(":\n  .quad ");
            match g.1 {
                Some(v) => push_dec_i32(&mut out, v),
                None => {
                    out.append("0");
                    proof {
                        reveal_strlit("0");
                        assert("0"@ =~= dec_int(0));
                    }
                }
            }
            out.append("\n");
            proof {
                assert(out@ + globs_text(p.globs@.subrange(k + 1, ngl as int)) =~= mid
                    + globs_text(p.globs@.subrange(k as int, ngl as int)));
            }
            k += 1;
        }
        proof {
            assert(p.globs@.subrange(ngl as int, ngl as int)
                =~= Seq::<(String, Option<i32>)>::empty());
            assert(out@ =~= asm_text(pv));
        }
    } else {
        proof {
            assert(out@ =~= asm_text(pv));
        }
    }
    out
}

} // verus!
