//! What the lowering guarantees of every program: where jumps go and where
//! the code ends, how the pools are ordered, that interning twice changes
//! nothing, and how many stores an assignment leaves in the code.
use vstd::prelude::*;
use crate::ast::{SExpr, SStmt};
use crate::bytecode::{is_jump, Bytecode, Instruction, ProgramView};
use crate::compiler::{
    bin_inst, compile_program, CompileError, emit, empty_state, first_from, ident_op, intern, lower_arm, lower_elseifs,
    lower_expr, lower_exprs, lower_stmt, lower_stmts, lower_stores, numeral_key, patch, patch_all, unary_inst,
};
use crate::token::TokenKind;
use crate::vm::{lemma_halt_at_end, step_spec, MachineView, Step, VmError};

verus! {

broadcast use vstd::seq::group_seq_axioms;

/// No instruction of the state is `End`, and every jump targets an index up
/// to the length of its code.
pub open spec fn well_lowered(st: ProgramView) -> bool {
    forall|i: int|
        0 <= i < st.code.len() ==> #[trigger] st.code[i].inst != Instruction::End && (is_jump(st.code[i].inst)
            ==> st.code[i].arg <= st.code.len())
}

proof fn lemma_emit_jumps(st: ProgramView, inst: Instruction, arg: nat)
    requires
        well_lowered(st),
        inst != Instruction::End,
        is_jump(inst) ==> arg <= st.code.len() && arg <= usize::MAX,
    ensures
        well_lowered(emit(st, inst, arg)),
{
    let s2 = emit(st, inst, arg);
    assert forall|i: int| 0 <= i < s2.code.len() implies #[trigger] s2.code[i].inst != Instruction::End && (is_jump(
        s2.code[i].inst,
    ) ==> s2.code[i].arg <= s2.code.len()) by {
        if i < st.code.len() {
            assert(s2.code[i] == st.code[i]);
        }
    }
}

proof fn lemma_patch_jumps(st: ProgramView, at: nat)
    requires
        well_lowered(st),
        at < st.code.len(),
        st.code.len() <= usize::MAX,
    ensures
        well_lowered(patch(st, at, st.code.len())),
        patch(st, at, st.code.len()).code.len() == st.code.len(),
{
    let s2 = patch(st, at, st.code.len());
    assert forall|i: int| 0 <= i < s2.code.len() implies #[trigger] s2.code[i].inst != Instruction::End && (is_jump(
        s2.code[i].inst,
    ) ==> s2.code[i].arg <= s2.code.len()) by {
        if i != at {
            assert(s2.code[i] == st.code[i]);
        }
    }
}

proof fn lemma_patch_all_jumps(st: ProgramView, ends: Seq<nat>, k: nat, target: nat)
    requires
        well_lowered(st),
        forall|m: int| k <= m < ends.len() ==> #[trigger] ends[m] < st.code.len(),
        target == st.code.len(),
        st.code.len() <= usize::MAX,
    ensures
        well_lowered(patch_all(st, ends, k, target)),
        patch_all(st, ends, k, target).code.len() == st.code.len(),
    decreases ends.len() - k,
{
    if k < ends.len() {
        lemma_patch_jumps(st, ends[k as int]);
        lemma_patch_all_len(st, ends, k, target);
        lemma_patch_all_jumps(patch(st, ends[k as int], target), ends, k + 1, target);
    }
}

proof fn lemma_expr_jumps(e: SExpr, st: ProgramView)
    ensures
        lower_expr(e, st) matches Ok(s2) ==> st.code.len() <= s2.code.len() && (well_lowered(st)
            ==> well_lowered(s2)),
    decreases e,
{
    match e {
        SExpr::Number(n) => {
            let (p, k) = intern(st.nums, numeral_key(n));
            if well_lowered(st) {
                lemma_emit_jumps(ProgramView { nums: p, ..st }, Instruction::LoadNumber, k);
            }
        },
        SExpr::Str(t) => {
            let (p, k) = intern(st.strs, t);
            if well_lowered(st) {
                lemma_emit_jumps(ProgramView { strs: p, ..st }, Instruction::LoadString, k);
            }
        },
        SExpr::Boolean(b) => {
            if well_lowered(st) {
                lemma_emit_jumps(st, if b { Instruction::LoadTrue } else { Instruction::LoadFalse }, 0);
            }
        },
        SExpr::Ident(n) => {
            lemma_ident_op_jumps(st, n, Instruction::LoadGlob);
        },
        SExpr::BinOp { op, left, right } => {
            if op == TokenKind::Gt || op == TokenKind::Ge {
                lemma_expr_jumps(*right, st);
                if let Ok(s1) = lower_expr(*right, st) {
                    lemma_expr_jumps(*left, s1);
                    if let Ok(s2) = lower_expr(*left, s1) {
                        if well_lowered(st) {
                            lemma_emit_jumps(s2, if op == TokenKind::Gt { Instruction::BinLt } else { Instruction::BinLe }, 0);
                        }
                    }
                }
            } else {
                lemma_expr_jumps(*left, st);
                if let Ok(s1) = lower_expr(*left, st) {
                    lemma_expr_jumps(*right, s1);
                    if let Ok(s2) = lower_expr(*right, s1) {
                        if well_lowered(st) {
                            lemma_emit_jumps(s2, Instruction::BinEq, 0);
                            lemma_emit_jumps(emit(s2, Instruction::BinEq, 0), Instruction::UnaryNot, 0);
                            if let Some(inst) = bin_inst(op) {
                                lemma_emit_jumps(s2, inst, 0);
                            }
                        }
                    }
                }
            }
        },
        SExpr::UnaryOp { op, node } => {
            lemma_expr_jumps(*node, st);
            if let Ok(s1) = lower_expr(*node, st) {
                if let Some(inst) = unary_inst(op) {
                    if well_lowered(st) {
                        lemma_emit_jumps(s1, inst, 0);
                    }
                }
            }
        },
        _ => {},
    }
}

proof fn lemma_ident_op_jumps(st: ProgramView, name: Seq<char>, inst: Instruction)
    requires
        !is_jump(inst),
        inst != Instruction::End,
    ensures
        well_lowered(st) ==> well_lowered(ident_op(st, name, inst)),
        ident_op(st, name, inst).code.len() == st.code.len() + 1,
{
    let (p, k) = intern(st.idents, name);
    if well_lowered(st) {
        lemma_emit_jumps(ProgramView { idents: p, ..st }, inst, k);
    }
}

proof fn lemma_exprs_jumps(es: Seq<SExpr>, k: nat, st: ProgramView)
    ensures
        lower_exprs(es, k, st) matches Ok(s2) ==> st.code.len() <= s2.code.len() && (well_lowered(st)
            ==> well_lowered(s2)),
    decreases es.len() - k,
{
    if k < es.len() {
        lemma_expr_jumps(es[k as int], st);
        if let Ok(s1) = lower_expr(es[k as int], st) {
            lemma_exprs_jumps(es, k + 1, s1);
        }
    }
}

proof fn lemma_stores_jumps(targets: Seq<Seq<char>>, k: nat, st: ProgramView)
    ensures
        well_lowered(st) ==> well_lowered(lower_stores(targets, k, st)),
        st.code.len() <= lower_stores(targets, k, st).code.len(),
    decreases k,
{
    if k > 0 && k <= targets.len() {
        lemma_ident_op_jumps(st, targets[k - 1], Instruction::StoreGlob);
        lemma_stores_jumps(targets, (k - 1) as nat, ident_op(st, targets[k - 1], Instruction::StoreGlob));
    }
}

proof fn lemma_arm_jumps(cond: SExpr, body: Seq<SStmt>, st: ProgramView)
    ensures
        lower_arm(cond, body, st) matches Ok((s2, e)) ==> st.code.len() <= e < s2.code.len() && (well_lowered(st)
            && s2.code.len() <= usize::MAX ==> well_lowered(s2)),
    decreases body, body.len() + 1,
{
    lemma_expr_jumps(cond, st);
    if let Ok(s1) = lower_expr(cond, st) {
        let s1b = emit(s1, Instruction::JumpAbsoluteIfFalse, 0);
        lemma_stmts_jumps(body, 0, s1b);
        if let Ok(s2) = lower_stmts(body, 0, s1b) {
            let s3 = emit(s2, Instruction::JumpAbsolute, 0);
            if well_lowered(st) && s3.code.len() <= usize::MAX {
                lemma_emit_jumps(s1, Instruction::JumpAbsoluteIfFalse, 0);
                lemma_emit_jumps(s2, Instruction::JumpAbsolute, 0);
                lemma_patch_jumps(s3, s1.code.len());
            }
        }
    }
}

proof fn lemma_elseifs_jumps(conds: Seq<SExpr>, bodies: Seq<Seq<SStmt>>, k: nat, st: ProgramView, ends: Seq<nat>)
    ensures
        lower_elseifs(conds, bodies, k, st, ends) matches Ok((s2, ends2)) ==> st.code.len() <= s2.code.len()
            && ((forall|m: int| 0 <= m < ends.len() ==> #[trigger] ends[m] < st.code.len()) ==> (forall|m: int|
            0 <= m < ends2.len() ==> #[trigger] ends2[m] < s2.code.len())) && (well_lowered(st) && s2.code.len()
            <= usize::MAX ==> well_lowered(s2)),
    decreases bodies, bodies.len() - k,
{
    if k < conds.len() && k < bodies.len() {
        lemma_arm_jumps(conds[k as int], bodies[k as int], st);
        if let Ok((s1, e)) = lower_arm(conds[k as int], bodies[k as int], st) {
            lemma_elseifs_jumps(conds, bodies, k + 1, s1, ends.push(e));
            if (forall|m: int| 0 <= m < ends.len() ==> #[trigger] ends[m] < st.code.len()) {
                assert forall|m: int| 0 <= m < ends.push(e).len() implies #[trigger] ends.push(e)[m] < s1.code.len() by {
                    if m < ends.len() {
                        assert(ends.push(e)[m] == ends[m]);
                    }
                }
            }
        }
    }
}

proof fn lemma_stmt_jumps(s: SStmt, st: ProgramView)
    ensures
        lower_stmt(s, st) matches Ok(s2) ==> st.code.len() <= s2.code.len() && (well_lowered(st) && s2.code.len()
            <= usize::MAX ==> well_lowered(s2)),
    decreases s, 0nat,
{
    match s {
        SStmt::Assign { targets, values } => {
            lemma_exprs_jumps(values, 0, st);
            if let Ok(s1) = lower_exprs(values, 0, st) {
                lemma_stores_jumps(targets, targets.len(), s1);
            }
        },
        SStmt::While { cond, body } => {
            lemma_expr_jumps(cond, st);
            if let Ok(s1) = lower_expr(cond, st) {
                let s1b = emit(s1, Instruction::JumpAbsoluteIfFalse, 0);
                lemma_stmts_jumps(body, 0, s1b);
                if let Ok(s2) = lower_stmts(body, 0, s1b) {
                    let s3 = emit(s2, Instruction::JumpAbsolute, st.code.len());
                    if well_lowered(st) && s3.code.len() <= usize::MAX {
                        lemma_emit_jumps(s1, Instruction::JumpAbsoluteIfFalse, 0);
                        lemma_emit_jumps(s2, Instruction::JumpAbsolute, st.code.len());
                        lemma_patch_jumps(s3, s1.code.len());
                    }
                }
            }
        },
        SStmt::If { cond, then_body, elseif_conds, elseif_bodies, else_body } => {
            lemma_arm_jumps(cond, then_body, st);
            if let Ok((s1, e)) = lower_arm(cond, then_body, st) {
                lemma_elseifs_jumps(elseif_conds, elseif_bodies, 0, s1, seq![e]);
                assert(forall|m: int| 0 <= m < seq![e].len() ==> #[trigger] seq![e][m] < s1.code.len());
                if let Ok((s2, ends)) = lower_elseifs(elseif_conds, elseif_bodies, 0, s1, seq![e]) {
                    lemma_stmts_jumps(else_body, 0, s2);
                    if let Ok(s3) = lower_stmts(else_body, 0, s2) {
                        lemma_patch_all_len(s3, ends, 0, s3.code.len());
                        if well_lowered(st) && s3.code.len() <= usize::MAX {
                            lemma_patch_all_jumps(s3, ends, 0, s3.code.len());
                        }
                    }
                }
            }
        },
        SStmt::FuncDecl { .. } => {},
    }
}

proof fn lemma_stmts_jumps(ss: Seq<SStmt>, k: nat, st: ProgramView)
    ensures
        lower_stmts(ss, k, st) matches Ok(s2) ==> st.code.len() <= s2.code.len() && (well_lowered(st)
            && s2.code.len() <= usize::MAX ==> well_lowered(s2)),
    decreases ss, ss.len() - k,
{
    if k < ss.len() {
        lemma_stmt_jumps(ss[k as int], st);
        if let Ok(s1) = lower_stmt(ss[k as int], st) {
            lemma_stmts_jumps(ss, k + 1, s1);
        }
    }
}

proof fn lemma_patch_all_len(st: ProgramView, ends: Seq<nat>, k: nat, target: nat)
    requires
        forall|m: int| k <= m < ends.len() ==> #[trigger] ends[m] < st.code.len(),
    ensures
        patch_all(st, ends, k, target).code.len() == st.code.len(),
    decreases ends.len() - k,
{
    if k < ends.len() {
        lemma_patch_all_len(patch(st, ends[k as int], target), ends, k + 1, target);
    }
}

/// Every jump of a compiled program targets an instruction of that program,
/// and its only `End` is its last instruction.
pub proof fn lemma_jump_targets_in_code(ss: Seq<SStmt>)
    requires
        compile_program(ss) matches Ok(prog) && prog.code.len() <= usize::MAX,
    ensures
        compile_program(ss) matches Ok(prog) && prog.code.len() > 0 && prog.code[prog.code.len() - 1].inst
            == Instruction::End && forall|i: int|
            0 <= i < prog.code.len() ==> (is_jump(#[trigger] prog.code[i].inst) ==> prog.code[i].arg
                < prog.code.len()) && (prog.code[i].inst == Instruction::End ==> i == prog.code.len() - 1),
{
    let st = empty_state();
    lemma_stmts_jumps(ss, 0, st);
    assert(well_lowered(st));
    let s1 = lower_stmts(ss, 0, st)->Ok_0;
    let prog = emit(s1, Instruction::End, 0);
    assert forall|i: int| 0 <= i < prog.code.len() implies (is_jump(#[trigger] prog.code[i].inst) ==> prog.code[i].arg
        < prog.code.len()) && (prog.code[i].inst == Instruction::End ==> i == prog.code.len() - 1) by {
        if i < s1.code.len() {
            assert(prog.code[i] == s1.code[i]);
        }
    }
}

/// A machine loaded with a compiled program halts only at that program's
/// last instruction, its single `End`, and halting leaves the counter there.
pub proof fn lemma_compiled_program_halts_at_last(ss: Seq<SStmt>, m: MachineView)
    requires
        compile_program(ss) matches Ok(prog) && prog.code.len() <= usize::MAX && m.code == prog.code,
        step_spec(m) matches Ok((_, a)) && a == Step::Halt,
    ensures
        m.p == m.code.len() - 1,
        step_spec(m) == Ok::<(MachineView, Step), VmError>((m, Step::Halt)),
{
    lemma_jump_targets_in_code(ss);
    lemma_halt_at_end(m);
}

/// Interns each of `vs` in turn.
pub open spec fn intern_all(pool: Seq<Seq<char>>, vs: Seq<Seq<char>>) -> Seq<Seq<char>>
    decreases vs.len(),
{
    if vs.len() == 0 {
        pool
    } else {
        intern(intern_all(pool, vs.drop_last()), vs.last()).0
    }
}

/// The distinct elements of `vs`, each where it first occurs.
pub open spec fn first_occurrences(vs: Seq<Seq<char>>) -> Seq<Seq<char>>
    decreases vs.len(),
{
    if vs.len() == 0 {
        Seq::empty()
    } else {
        let d = first_occurrences(vs.drop_last());
        if d.contains(vs.last()) {
            d
        } else {
            d.push(vs.last())
        }
    }
}

/// The numbers (as canonical numerals), strings and names that a lowering
/// looks up, in the order it looks them up.
pub ghost struct Refs {
    pub nums: Seq<Seq<char>>,
    pub strs: Seq<Seq<char>>,
    pub idents: Seq<Seq<char>>,
}

pub open spec fn no_refs() -> Refs {
    Refs { nums: Seq::empty(), strs: Seq::empty(), idents: Seq::empty() }
}

pub open spec fn cat(a: Refs, b: Refs) -> Refs {
    Refs { nums: a.nums + b.nums, strs: a.strs + b.strs, idents: a.idents + b.idents }
}

pub open spec fn expr_refs(e: SExpr) -> Refs
    decreases e,
{
    match e {
        SExpr::Number(n) => Refs { nums: seq![numeral_key(n)], ..no_refs() },
        SExpr::Str(t) => Refs { strs: seq![t], ..no_refs() },
        SExpr::Ident(n) => Refs { idents: seq![n], ..no_refs() },
        SExpr::BinOp { op, left, right } => if op == TokenKind::Gt || op == TokenKind::Ge {
            cat(expr_refs(*right), expr_refs(*left))
        } else {
            cat(expr_refs(*left), expr_refs(*right))
        },
        SExpr::UnaryOp { node, .. } => expr_refs(*node),
        _ => no_refs(),
    }
}

pub open spec fn exprs_refs(es: Seq<SExpr>, k: nat) -> Refs
    decreases es.len() - k,
{
    if k < es.len() {
        cat(expr_refs(es[k as int]), exprs_refs(es, k + 1))
    } else {
        no_refs()
    }
}

pub open spec fn stores_refs(targets: Seq<Seq<char>>, k: nat) -> Refs
    decreases k,
{
    if k == 0 || k > targets.len() {
        no_refs()
    } else {
        cat(Refs { idents: seq![targets[k - 1]], ..no_refs() }, stores_refs(targets, (k - 1) as nat))
    }
}

pub open spec fn arm_refs(cond: SExpr, body: Seq<SStmt>) -> Refs
    decreases body, body.len() + 1,
{
    cat(expr_refs(cond), stmts_refs(body, 0))
}

pub open spec fn elseifs_refs(conds: Seq<SExpr>, bodies: Seq<Seq<SStmt>>, k: nat) -> Refs
    decreases bodies, bodies.len() - k,
{
    if k < conds.len() && k < bodies.len() {
        cat(arm_refs(conds[k as int], bodies[k as int]), elseifs_refs(conds, bodies, k + 1))
    } else {
        no_refs()
    }
}

/// The references of a statement, in lowering order: an assignment's values
/// left to right, then its targets right to left; a comparison by `>` or `>=`
/// right operand first.
pub open spec fn stmt_refs(s: SStmt) -> Refs
    decreases s, 0nat,
{
    match s {
        SStmt::Assign { targets, values } => cat(exprs_refs(values, 0), stores_refs(targets, targets.len())),
        SStmt::While { cond, body } => cat(expr_refs(cond), stmts_refs(body, 0)),
        SStmt::If { cond, then_body, elseif_conds, elseif_bodies, else_body } => cat(
            cat(arm_refs(cond, then_body), elseifs_refs(elseif_conds, elseif_bodies, 0)),
            stmts_refs(else_body, 0),
        ),
        SStmt::FuncDecl { .. } => no_refs(),
    }
}

pub open spec fn stmts_refs(ss: Seq<SStmt>, k: nat) -> Refs
    decreases ss, ss.len() - k,
{
    if k < ss.len() {
        cat(stmt_refs(ss[k as int]), stmts_refs(ss, k + 1))
    } else {
        no_refs()
    }
}

/// The pools of `s2` are those of `st` with the references `r` interned.
pub open spec fn pools_follow(st: ProgramView, r: Refs, s2: ProgramView) -> bool {
    &&& s2.nums == intern_all(st.nums, r.nums)
    &&& s2.strs == intern_all(st.strs, r.strs)
    &&& s2.idents == intern_all(st.idents, r.idents)
}

proof fn lemma_intern_all_cat(p: Seq<Seq<char>>, a: Seq<Seq<char>>, b: Seq<Seq<char>>)
    ensures
        intern_all(intern_all(p, a), b) == intern_all(p, a + b),
    decreases b.len(),
{
    if b.len() == 0 {
        assert(a + b =~= a);
    } else {
        lemma_intern_all_cat(p, a, b.drop_last());
        assert((a + b).drop_last() =~= a + b.drop_last());
    }
}

proof fn lemma_intern_all_one(p: Seq<Seq<char>>, v: Seq<char>)
    ensures
        intern_all(p, seq![v]) == intern(p, v).0,
{
    assert(seq![v].drop_last() =~= Seq::<Seq<char>>::empty());
    assert(intern_all(p, Seq::<Seq<char>>::empty()) == p);
    assert(seq![v].last() == v);
}

proof fn lemma_follow_none(st: ProgramView, s2: ProgramView)
    requires
        s2.nums == st.nums && s2.strs == st.strs && s2.idents == st.idents,
    ensures
        pools_follow(st, no_refs(), s2),
{
}

proof fn lemma_follow_cat(st: ProgramView, a: Refs, s1: ProgramView, b: Refs, s2: ProgramView)
    requires
        pools_follow(st, a, s1),
        pools_follow(s1, b, s2),
    ensures
        pools_follow(st, cat(a, b), s2),
{
    lemma_intern_all_cat(st.nums, a.nums, b.nums);
    lemma_intern_all_cat(st.strs, a.strs, b.strs);
    lemma_intern_all_cat(st.idents, a.idents, b.idents);
}

proof fn lemma_follow_same(st: ProgramView, r: Refs, s1: ProgramView, s2: ProgramView)
    requires
        pools_follow(st, r, s1),
        s2.nums == s1.nums && s2.strs == s1.strs && s2.idents == s1.idents,
    ensures
        pools_follow(st, r, s2),
{
}

proof fn lemma_patch_all_pools(st: ProgramView, ends: Seq<nat>, k: nat, target: nat)
    ensures
        patch_all(st, ends, k, target).nums == st.nums,
        patch_all(st, ends, k, target).strs == st.strs,
        patch_all(st, ends, k, target).idents == st.idents,
    decreases ends.len() - k,
{
    if k < ends.len() {
        lemma_patch_all_pools(patch(st, ends[k as int], target), ends, k + 1, target);
    }
}

proof fn lemma_expr_pools(e: SExpr, st: ProgramView)
    ensures
        lower_expr(e, st) matches Ok(s2) ==> pools_follow(st, expr_refs(e), s2),
    decreases e,
{
    match e {
        SExpr::Number(n) => {
            lemma_intern_all_one(st.nums, numeral_key(n));
        },
        SExpr::Str(t) => {
            lemma_intern_all_one(st.strs, t);
        },
        SExpr::Ident(n) => {
            lemma_intern_all_one(st.idents, n);
        },
        SExpr::BinOp { op, left, right } => {
            if op == TokenKind::Gt || op == TokenKind::Ge {
                lemma_expr_pools(*right, st);
                if let Ok(s1) = lower_expr(*right, st) {
                    lemma_expr_pools(*left, s1);
                    if let Ok(s2) = lower_expr(*left, s1) {
                        lemma_follow_cat(st, expr_refs(*right), s1, expr_refs(*left), s2);
                    }
                }
            } else {
                lemma_expr_pools(*left, st);
                if let Ok(s1) = lower_expr(*left, st) {
                    lemma_expr_pools(*right, s1);
                    if let Ok(s2) = lower_expr(*right, s1) {
                        lemma_follow_cat(st, expr_refs(*left), s1, expr_refs(*right), s2);
                    }
                }
            }
        },
        SExpr::UnaryOp { node, .. } => {
            lemma_expr_pools(*node, st);
        },
        _ => {},
    }
}

proof fn lemma_exprs_pools(es: Seq<SExpr>, k: nat, st: ProgramView)
    ensures
        lower_exprs(es, k, st) matches Ok(s2) ==> pools_follow(st, exprs_refs(es, k), s2),
    decreases es.len() - k,
{
    if k < es.len() {
        lemma_expr_pools(es[k as int], st);
        if let Ok(s1) = lower_expr(es[k as int], st) {
            lemma_exprs_pools(es, k + 1, s1);
            if let Ok(s2) = lower_exprs(es, k + 1, s1) {
                lemma_follow_cat(st, expr_refs(es[k as int]), s1, exprs_refs(es, k + 1), s2);
            }
        }
    }
}

proof fn lemma_stores_pools(targets: Seq<Seq<char>>, k: nat, st: ProgramView)
    ensures
        pools_follow(st, stores_refs(targets, k), lower_stores(targets, k, st)),
    decreases k,
{
    if k > 0 && k <= targets.len() {
        let s1 = ident_op(st, targets[k - 1], Instruction::StoreGlob);
        lemma_intern_all_one(st.idents, targets[k - 1]);
        lemma_stores_pools(targets, (k - 1) as nat, s1);
        lemma_follow_cat(
            st,
            Refs { idents: seq![targets[k - 1]], ..no_refs() },
            s1,
            stores_refs(targets, (k - 1) as nat),
            lower_stores(targets, (k - 1) as nat, s1),
        );
    }
}

proof fn lemma_arm_pools(cond: SExpr, body: Seq<SStmt>, st: ProgramView)
    ensures
        lower_arm(cond, body, st) matches Ok((s2, _)) ==> pools_follow(st, arm_refs(cond, body), s2),
    decreases body, body.len() + 1,
{
    lemma_expr_pools(cond, st);
    if let Ok(s1) = lower_expr(cond, st) {
        let s1b = emit(s1, Instruction::JumpAbsoluteIfFalse, 0);
        lemma_stmts_pools(body, 0, s1b);
        if let Ok(s2) = lower_stmts(body, 0, s1b) {
            lemma_follow_same(st, expr_refs(cond), s1, s1b);
            lemma_follow_cat(st, expr_refs(cond), s1b, stmts_refs(body, 0), s2);
        }
    }
}

proof fn lemma_elseifs_pools(conds: Seq<SExpr>, bodies: Seq<Seq<SStmt>>, k: nat, st: ProgramView, ends: Seq<nat>)
    ensures
        lower_elseifs(conds, bodies, k, st, ends) matches Ok((s2, _)) ==> pools_follow(
            st,
            elseifs_refs(conds, bodies, k),
            s2,
        ),
    decreases bodies, bodies.len() - k,
{
    if k < conds.len() && k < bodies.len() {
        lemma_arm_pools(conds[k as int], bodies[k as int], st);
        if let Ok((s1, e)) = lower_arm(conds[k as int], bodies[k as int], st) {
            lemma_elseifs_pools(conds, bodies, k + 1, s1, ends.push(e));
            if let Ok((s2, _)) = lower_elseifs(conds, bodies, k + 1, s1, ends.push(e)) {
                lemma_follow_cat(
                    st,
                    arm_refs(conds[k as int], bodies[k as int]),
                    s1,
                    elseifs_refs(conds, bodies, k + 1),
                    s2,
                );
            }
        }
    } else {
        lemma_follow_none(st, st);
    }
}

proof fn lemma_stmt_pools(s: SStmt, st: ProgramView)
    ensures
        lower_stmt(s, st) matches Ok(s2) ==> pools_follow(st, stmt_refs(s), s2),
    decreases s, 0nat,
{
    match s {
        SStmt::Assign { targets, values } => {
            lemma_exprs_pools(values, 0, st);
            if let Ok(s1) = lower_exprs(values, 0, st) {
                lemma_stores_pools(targets, targets.len(), s1);
                lemma_follow_cat(
                    st,
                    exprs_refs(values, 0),
                    s1,
                    stores_refs(targets, targets.len()),
                    lower_stores(targets, targets.len(), s1),
                );
            }
        },
        SStmt::While { cond, body } => {
            lemma_expr_pools(cond, st);
            if let Ok(s1) = lower_expr(cond, st) {
                let s1b = emit(s1, Instruction::JumpAbsoluteIfFalse, 0);
                lemma_stmts_pools(body, 0, s1b);
                if let Ok(s2) = lower_stmts(body, 0, s1b) {
                    lemma_follow_same(st, expr_refs(cond), s1, s1b);
                    lemma_follow_cat(st, expr_refs(cond), s1b, stmts_refs(body, 0), s2);
                }
            }
        },
        SStmt::If { cond, then_body, elseif_conds, elseif_bodies, else_body } => {
            lemma_arm_pools(cond, then_body, st);
            if let Ok((s1, e)) = lower_arm(cond, then_body, st) {
                lemma_elseifs_pools(elseif_conds, elseif_bodies, 0, s1, seq![e]);
                if let Ok((s2, ends)) = lower_elseifs(elseif_conds, elseif_bodies, 0, s1, seq![e]) {
                    lemma_stmts_pools(else_body, 0, s2);
                    if let Ok(s3) = lower_stmts(else_body, 0, s2) {
                        lemma_follow_cat(st, arm_refs(cond, then_body), s1, elseifs_refs(elseif_conds, elseif_bodies, 0), s2);
                        lemma_follow_cat(
                            st,
                            cat(arm_refs(cond, then_body), elseifs_refs(elseif_conds, elseif_bodies, 0)),
                            s2,
                            stmts_refs(else_body, 0),
                            s3,
                        );
                        lemma_patch_all_pools(s3, ends, 0, s3.code.len());
                    }
                }
            }
        },
        SStmt::FuncDecl { .. } => {},
    }
}

proof fn lemma_stmts_pools(ss: Seq<SStmt>, k: nat, st: ProgramView)
    ensures
        lower_stmts(ss, k, st) matches Ok(s2) ==> pools_follow(st, stmts_refs(ss, k), s2),
    decreases ss, ss.len() - k,
{
    if k < ss.len() {
        lemma_stmt_pools(ss[k as int], st);
        if let Ok(s1) = lower_stmt(ss[k as int], st) {
            lemma_stmts_pools(ss, k + 1, s1);
            if let Ok(s2) = lower_stmts(ss, k + 1, s1) {
                lemma_follow_cat(st, stmt_refs(ss[k as int]), s1, stmts_refs(ss, k + 1), s2);
            }
        }
    } else {
        lemma_follow_none(st, st);
    }
}

proof fn lemma_first_from(pool: Seq<Seq<char>>, v: Seq<char>, k: nat)
    ensures
        first_from(pool, v, k) < pool.len() ==> pool[first_from(pool, v, k) as int] == v,
        first_from(pool, v, k) >= pool.len() ==> forall|j: int| k <= j < pool.len() ==> pool[j] != v,
    decreases pool.len() - k,
{
    if k < pool.len() && pool[k as int] != v {
        lemma_first_from(pool, v, k + 1);
    }
}

proof fn lemma_intern_contains(pool: Seq<Seq<char>>, v: Seq<char>)
    ensures
        intern(pool, v).0.contains(v),
        forall|w: Seq<char>| pool.contains(w) ==> intern(pool, v).0.contains(w),
        pool.contains(v) ==> intern(pool, v).0 == pool,
        !pool.contains(v) ==> intern(pool, v).0 == pool.push(v),
{
    lemma_first_from(pool, v, 0);
    let q = intern(pool, v).0;
    if first_from(pool, v, 0) >= pool.len() {
        assert(q[pool.len() as int] == v);
        assert forall|w: Seq<char>| pool.contains(w) implies q.contains(w) by {
            let j = choose|j: int| 0 <= j < pool.len() && pool[j] == w;
            assert(q[j] == w);
        }
    }
}

proof fn lemma_intern_all_contains(p: Seq<Seq<char>>, vs: Seq<Seq<char>>)
    ensures
        forall|i: int| 0 <= i < vs.len() ==> intern_all(p, vs).contains(#[trigger] vs[i]),
    decreases vs.len(),
{
    if vs.len() > 0 {
        let q = intern_all(p, vs.drop_last());
        lemma_intern_all_contains(p, vs.drop_last());
        lemma_intern_contains(q, vs.last());
        assert forall|i: int| 0 <= i < vs.len() implies intern_all(p, vs).contains(#[trigger] vs[i]) by {
            if i < vs.len() - 1 {
                assert(vs.drop_last()[i] == vs[i]);
            }
        }
    }
}

proof fn lemma_intern_all_known(q: Seq<Seq<char>>, vs: Seq<Seq<char>>)
    requires
        forall|i: int| 0 <= i < vs.len() ==> q.contains(#[trigger] vs[i]),
    ensures
        intern_all(q, vs) == q,
    decreases vs.len(),
{
    if vs.len() > 0 {
        assert forall|i: int| 0 <= i < vs.drop_last().len() implies q.contains(#[trigger] vs.drop_last()[i]) by {
            assert(vs.drop_last()[i] == vs[i]);
        }
        lemma_intern_all_known(q, vs.drop_last());
        lemma_intern_contains(q, vs.last());
    }
}

proof fn lemma_intern_all_twice(p: Seq<Seq<char>>, vs: Seq<Seq<char>>)
    ensures
        intern_all(intern_all(p, vs), vs) == intern_all(p, vs),
{
    lemma_intern_all_contains(p, vs);
    lemma_intern_all_known(intern_all(p, vs), vs);
}

proof fn lemma_intern_all_empty(vs: Seq<Seq<char>>)
    ensures
        intern_all(Seq::empty(), vs) == first_occurrences(vs),
    decreases vs.len(),
{
    if vs.len() > 0 {
        lemma_intern_all_empty(vs.drop_last());
        lemma_intern_contains(first_occurrences(vs.drop_last()), vs.last());
    }
}

/// The pools of a compiled program hold its distinct numbers (as canonical
/// numerals), strings and names in the order in which compilation first meets
/// them: the k-th distinct one met has index k.
pub proof fn lemma_pool_order(ss: Seq<SStmt>)
    requires
        compile_program(ss) is Ok,
    ensures
        compile_program(ss) matches Ok(prog) && prog.nums == first_occurrences(stmts_refs(ss, 0).nums)
            && prog.strs == first_occurrences(stmts_refs(ss, 0).strs) && prog.idents == first_occurrences(
            stmts_refs(ss, 0).idents,
        ),
{
    lemma_stmts_pools(ss, 0, empty_state());
    lemma_intern_all_empty(stmts_refs(ss, 0).nums);
    lemma_intern_all_empty(stmts_refs(ss, 0).strs);
    lemma_intern_all_empty(stmts_refs(ss, 0).idents);
}

/// Compiling the same statements twice, each time with a fresh compiler,
/// gives the same code and the same pools.
pub proof fn lemma_fresh_compiles_agree(ss: Seq<SStmt>, a: ProgramView, b: ProgramView)
    requires
        compile_program(ss) == Ok::<ProgramView, CompileError>(a),
        compile_program(ss) == Ok::<ProgramView, CompileError>(b),
    ensures
        a.code == b.code,
        a.nums == b.nums,
        a.strs == b.strs,
        a.idents == b.idents,
{
}

/// Interning is idempotent: lowering a program a second time, after the
/// state that its first lowering left, finds every number, string and name
/// already interned and leaves the three pools as they were.
pub proof fn lemma_recompile_keeps_pools(ss: Seq<SStmt>, st: ProgramView)
    requires
        lower_stmts(ss, 0, st) matches Ok(s1) && lower_stmts(ss, 0, s1) is Ok,
    ensures
        lower_stmts(ss, 0, st) matches Ok(s1) && lower_stmts(ss, 0, s1) matches Ok(s2) && s2.nums == s1.nums
            && s2.strs == s1.strs && s2.idents == s1.idents,
{
    let s1 = lower_stmts(ss, 0, st)->Ok_0;
    let r = stmts_refs(ss, 0);
    lemma_stmts_pools(ss, 0, st);
    lemma_stmts_pools(ss, 0, s1);
    lemma_intern_all_twice(st.nums, r.nums);
    lemma_intern_all_twice(st.strs, r.strs);
    lemma_intern_all_twice(st.idents, r.idents);
}

/// How many `StoreGlob` instructions a code holds.
pub open spec fn store_count(code: Seq<Bytecode>) -> nat
    decreases code.len(),
{
    if code.len() == 0 {
        0
    } else {
        store_count(code.drop_last()) + if code.last().inst == Instruction::StoreGlob {
            1nat
        } else {
            0nat
        }
    }
}

/// How many assignment targets the statement holds, nested bodies included.
pub open spec fn stmt_targets(s: SStmt) -> nat
    decreases s, 0nat,
{
    match s {
        SStmt::Assign { targets, .. } => targets.len(),
        SStmt::While { body, .. } => stmts_targets(body, 0),
        SStmt::If { then_body, elseif_conds, elseif_bodies, else_body, .. } => stmts_targets(then_body, 0)
            + elseifs_targets(elseif_conds, elseif_bodies, 0) + stmts_targets(else_body, 0),
        SStmt::FuncDecl { .. } => 0,
    }
}

pub open spec fn elseifs_targets(conds: Seq<SExpr>, bodies: Seq<Seq<SStmt>>, k: nat) -> nat
    decreases bodies, bodies.len() - k,
{
    if k < conds.len() && k < bodies.len() {
        stmts_targets(bodies[k as int], 0) + elseifs_targets(conds, bodies, k + 1)
    } else {
        0
    }
}

pub open spec fn stmts_targets(ss: Seq<SStmt>, k: nat) -> nat
    decreases ss, ss.len() - k,
{
    if k < ss.len() {
        stmt_targets(ss[k as int]) + stmts_targets(ss, k + 1)
    } else {
        0
    }
}

proof fn lemma_count_emit(st: ProgramView, inst: Instruction, arg: nat)
    ensures
        store_count(emit(st, inst, arg).code) == store_count(st.code) + if inst == Instruction::StoreGlob {
            1nat
        } else {
            0nat
        },
{
    assert(emit(st, inst, arg).code.drop_last() =~= st.code);
}

proof fn lemma_count_update(code: Seq<Bytecode>, at: int, arg: usize)
    requires
        0 <= at < code.len(),
    ensures
        store_count(code.update(at, Bytecode { inst: code[at].inst, arg })) == store_count(code),
    decreases code.len(),
{
    let c2 = code.update(at, Bytecode { inst: code[at].inst, arg });
    if at == code.len() - 1 {
        assert(c2.drop_last() =~= code.drop_last());
    } else {
        assert(c2.drop_last() =~= code.drop_last().update(at, Bytecode { inst: code[at].inst, arg }));
        lemma_count_update(code.drop_last(), at, arg);
    }
}

proof fn lemma_count_patch_all(st: ProgramView, ends: Seq<nat>, k: nat, target: nat)
    requires
        forall|m: int| k <= m < ends.len() ==> #[trigger] ends[m] < st.code.len(),
    ensures
        store_count(patch_all(st, ends, k, target).code) == store_count(st.code),
    decreases ends.len() - k,
{
    if k < ends.len() {
        lemma_count_update(st.code, ends[k as int] as int, target as usize);
        lemma_count_patch_all(patch(st, ends[k as int], target), ends, k + 1, target);
    }
}

proof fn lemma_count_expr(e: SExpr, st: ProgramView)
    ensures
        lower_expr(e, st) matches Ok(s2) ==> store_count(s2.code) == store_count(st.code),
    decreases e,
{
    match e {
        SExpr::Number(n) => {
            let (p, k) = intern(st.nums, numeral_key(n));
            lemma_count_emit(ProgramView { nums: p, ..st }, Instruction::LoadNumber, k);
        },
        SExpr::Str(t) => {
            let (p, k) = intern(st.strs, t);
            lemma_count_emit(ProgramView { strs: p, ..st }, Instruction::LoadString, k);
        },
        SExpr::Boolean(b) => {
            lemma_count_emit(st, if b { Instruction::LoadTrue } else { Instruction::LoadFalse }, 0);
        },
        SExpr::Ident(n) => {
            let (p, k) = intern(st.idents, n);
            lemma_count_emit(ProgramView { idents: p, ..st }, Instruction::LoadGlob, k);
        },
        SExpr::BinOp { op, left, right } => {
            if op == TokenKind::Gt || op == TokenKind::Ge {
                lemma_count_expr(*right, st);
                if let Ok(s1) = lower_expr(*right, st) {
                    lemma_count_expr(*left, s1);
                    if let Ok(s2) = lower_expr(*left, s1) {
                        lemma_count_emit(s2, if op == TokenKind::Gt { Instruction::BinLt } else { Instruction::BinLe }, 0);
                    }
                }
            } else {
                lemma_count_expr(*left, st);
                if let Ok(s1) = lower_expr(*left, st) {
                    lemma_count_expr(*right, s1);
                    if let Ok(s2) = lower_expr(*right, s1) {
                        lemma_count_emit(s2, Instruction::BinEq, 0);
                        lemma_count_emit(emit(s2, Instruction::BinEq, 0), Instruction::UnaryNot, 0);
                        if let Some(inst) = bin_inst(op) {
                            lemma_count_emit(s2, inst, 0);
                        }
                    }
                }
            }
        },
        SExpr::UnaryOp { op, node } => {
            lemma_count_expr(*node, st);
            if let Ok(s1) = lower_expr(*node, st) {
                if let Some(inst) = unary_inst(op) {
                    lemma_count_emit(s1, inst, 0);
                }
            }
        },
        _ => {},
    }
}

proof fn lemma_count_exprs(es: Seq<SExpr>, k: nat, st: ProgramView)
    ensures
        lower_exprs(es, k, st) matches Ok(s2) ==> store_count(s2.code) == store_count(st.code),
    decreases es.len() - k,
{
    if k < es.len() {
        lemma_count_expr(es[k as int], st);
        if let Ok(s1) = lower_expr(es[k as int], st) {
            lemma_count_exprs(es, k + 1, s1);
        }
    }
}

proof fn lemma_count_stores(targets: Seq<Seq<char>>, k: nat, st: ProgramView)
    requires
        k <= targets.len(),
    ensures
        store_count(lower_stores(targets, k, st).code) == store_count(st.code) + k,
    decreases k,
{
    if k > 0 {
        let (p, m) = intern(st.idents, targets[k - 1]);
        lemma_count_emit(ProgramView { idents: p, ..st }, Instruction::StoreGlob, m);
        lemma_count_stores(targets, (k - 1) as nat, ident_op(st, targets[k - 1], Instruction::StoreGlob));
    }
}

proof fn lemma_count_arm(cond: SExpr, body: Seq<SStmt>, st: ProgramView)
    ensures
        lower_arm(cond, body, st) matches Ok((s2, e)) ==> store_count(s2.code) == store_count(st.code)
            + stmts_targets(body, 0) && st.code.len() <= e < s2.code.len(),
    decreases body, body.len() + 1,
{
    lemma_count_expr(cond, st);
    lemma_arm_jumps(cond, body, st);
    if let Ok(s1) = lower_expr(cond, st) {
        let s1b = emit(s1, Instruction::JumpAbsoluteIfFalse, 0);
        lemma_count_emit(s1, Instruction::JumpAbsoluteIfFalse, 0);
        lemma_count_stmts(body, 0, s1b);
        lemma_stmts_jumps(body, 0, s1b);
        if let Ok(s2) = lower_stmts(body, 0, s1b) {
            let s3 = emit(s2, Instruction::JumpAbsolute, 0);
            lemma_count_emit(s2, Instruction::JumpAbsolute, 0);
            lemma_expr_jumps(cond, st);
            lemma_count_update(s3.code, s1.code.len() as int, s3.code.len() as usize);
        }
    }
}

proof fn lemma_count_elseifs(conds: Seq<SExpr>, bodies: Seq<Seq<SStmt>>, k: nat, st: ProgramView, ends: Seq<nat>)
    ensures
        lower_elseifs(conds, bodies, k, st, ends) matches Ok((s2, _)) ==> store_count(s2.code) == store_count(
            st.code,
        ) + elseifs_targets(conds, bodies, k),
    decreases bodies, bodies.len() - k,
{
    if k < conds.len() && k < bodies.len() {
        lemma_count_arm(conds[k as int], bodies[k as int], st);
        if let Ok((s1, e)) = lower_arm(conds[k as int], bodies[k as int], st) {
            lemma_count_elseifs(conds, bodies, k + 1, s1, ends.push(e));
        }
    }
}

proof fn lemma_count_stmt(s: SStmt, st: ProgramView)
    ensures
        lower_stmt(s, st) matches Ok(s2) ==> store_count(s2.code) == store_count(st.code) + stmt_targets(s),
    decreases s, 0nat,
{
    match s {
        SStmt::Assign { targets, values } => {
            lemma_count_exprs(values, 0, st);
            if let Ok(s1) = lower_exprs(values, 0, st) {
                lemma_count_stores(targets, targets.len(), s1);
            }
        },
        SStmt::While { cond, body } => {
            lemma_count_expr(cond, st);
            lemma_expr_jumps(cond, st);
            if let Ok(s1) = lower_expr(cond, st) {
                let s1b = emit(s1, Instruction::JumpAbsoluteIfFalse, 0);
                lemma_count_emit(s1, Instruction::JumpAbsoluteIfFalse, 0);
                lemma_count_stmts(body, 0, s1b);
                lemma_stmts_jumps(body, 0, s1b);
                if let Ok(s2) = lower_stmts(body, 0, s1b) {
                    let s3 = emit(s2, Instruction::JumpAbsolute, st.code.len());
                    lemma_count_emit(s2, Instruction::JumpAbsolute, st.code.len());
                    lemma_count_update(s3.code, s1.code.len() as int, s3.code.len() as usize);
                }
            }
        },
        SStmt::If { cond, then_body, elseif_conds, elseif_bodies, else_body } => {
            lemma_count_arm(cond, then_body, st);
            if let Ok((s1, e)) = lower_arm(cond, then_body, st) {
                lemma_count_elseifs(elseif_conds, elseif_bodies, 0, s1, seq![e]);
                lemma_elseifs_jumps(elseif_conds, elseif_bodies, 0, s1, seq![e]);
                assert(forall|m: int| 0 <= m < seq![e].len() ==> #[trigger] seq![e][m] < s1.code.len());
                if let Ok((s2, ends)) = lower_elseifs(elseif_conds, elseif_bodies, 0, s1, seq![e]) {
                    lemma_count_stmts(else_body, 0, s2);
                    lemma_stmts_jumps(else_body, 0, s2);
                    if let Ok(s3) = lower_stmts(else_body, 0, s2) {
                        lemma_count_patch_all(s3, ends, 0, s3.code.len());
                    }
                }
            }
        },
        SStmt::FuncDecl { .. } => {},
    }
}

proof fn lemma_count_stmts(ss: Seq<SStmt>, k: nat, st: ProgramView)
    ensures
        lower_stmts(ss, k, st) matches Ok(s2) ==> store_count(s2.code) == store_count(st.code) + stmts_targets(ss, k),
    decreases ss, ss.len() - k,
{
    if k < ss.len() {
        lemma_count_stmt(ss[k as int], st);
        if let Ok(s1) = lower_stmt(ss[k as int], st) {
            lemma_count_stmts(ss, k + 1, s1);
        }
    }
}

/// A compiled program holds exactly one `StoreGlob` for each assignment
/// target that its statements hold, nested bodies included.
pub proof fn lemma_one_store_per_target(ss: Seq<SStmt>)
    requires
        compile_program(ss) is Ok,
    ensures
        compile_program(ss) matches Ok(prog) && store_count(prog.code) == stmts_targets(ss, 0),
{
    let st = empty_state();
    lemma_count_stmts(ss, 0, st);
    let s1 = lower_stmts(ss, 0, st)->Ok_0;
    lemma_count_emit(s1, Instruction::End, 0);
}

} // verus!
