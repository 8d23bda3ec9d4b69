use vstd::prelude::*;
use crate::ast::{
    bodies_view, expr_view, exprs_view, names_view, stmt_view, stmts_view, Expr, Ident, SExpr, SStmt, Stmt,
};
use crate::bytecode::{pool_view, Bytecode, Bytecodes, Instruction, ProgramView};
use crate::lexer::{chars_of, span, string_of};
use vstd::string::StringExecFns;
use crate::token::TokenKind;

verus! {

broadcast use vstd::std_specs::vec::group_vec_axioms, vstd::seq::group_seq_axioms;

/// What the compiler cannot lower.
#[derive(Debug, Clone, Copy, PartialEq, Eq, Structural)]
pub enum CompileError {
    /// An operator with no instruction.
    UnsupportedOperator { op: TokenKind },
    /// Function declarations and calls, which the instruction set reserves
    /// but does not yet lower.
    UnsupportedFunction,
}

/// `s` without its leading `0`s.
pub open spec fn strip_leading_zeros(s: Seq<char>) -> Seq<char>
    decreases s.len(),
{
    if s.len() > 0 && s[0] == '0' {
        strip_leading_zeros(s.subrange(1, s.len() as int))
    } else {
        s
    }
}

/// `s` without its trailing `0`s.
pub open spec fn strip_trailing_zeros(s: Seq<char>) -> Seq<char>
    decreases s.len(),
{
    if s.len() > 0 && s[s.len() - 1] == '0' {
        strip_trailing_zeros(s.subrange(0, s.len() - 1))
    } else {
        s
    }
}

/// The canonical decimal form of a numeral: no leading zeros before the
/// point (but one `0` for an empty whole part), no trailing zeros after it,
/// and no point where no fraction is left. `1`, `1.0` and `01.` all give `1`.
pub open spec fn numeral_key(s: Seq<char>) -> Seq<char> {
    let d = span(s, 0, |c: char| c != '.');
    let whole = strip_leading_zeros(s.subrange(0, d as int));
    let whole = if whole.len() == 0 {
        seq!['0']
    } else {
        whole
    };
    let frac = if d < s.len() {
        strip_trailing_zeros(s.subrange(d + 1 as int, s.len() as int))
    } else {
        Seq::empty()
    };
    if frac.len() == 0 {
        whole
    } else {
        whole + seq!['.'] + frac
    }
}

/// The first index at or after `k` where `pool` holds `v`, or its length.
pub open spec fn first_from(pool: Seq<Seq<char>>, v: Seq<char>, k: nat) -> nat
    decreases pool.len() - k,
{
    if k >= pool.len() {
        pool.len()
    } else if pool[k as int] == v {
        k
    } else {
        first_from(pool, v, k + 1)
    }
}

/// Looks `v` up in `pool`, adding it at the end when it is not there: the
/// new pool and the index of `v`.
pub open spec fn intern(pool: Seq<Seq<char>>, v: Seq<char>) -> (Seq<Seq<char>>, nat) {
    let k = first_from(pool, v, 0);
    if k < pool.len() {
        (pool, k)
    } else {
        (pool.push(v), pool.len())
    }
}

pub open spec fn emit(st: ProgramView, inst: Instruction, arg: nat) -> ProgramView {
    ProgramView { code: st.code.push(Bytecode { inst, arg: arg as usize }), ..st }
}

/// Sets the argument of the instruction at `at` to `target`.
pub open spec fn patch(st: ProgramView, at: nat, target: nat) -> ProgramView {
    ProgramView {
        code: st.code.update(at as int, Bytecode { inst: st.code[at as int].inst, arg: target as usize }),
        ..st
    }
}

pub open spec fn load_number(st: ProgramView, n: Seq<char>) -> ProgramView {
    let (p, k) = intern(st.nums, numeral_key(n));
    emit(ProgramView { nums: p, ..st }, Instruction::LoadNumber, k)
}

pub open spec fn load_string(st: ProgramView, s: Seq<char>) -> ProgramView {
    let (p, k) = intern(st.strs, s);
    emit(ProgramView { strs: p, ..st }, Instruction::LoadString, k)
}

/// An instruction on a global: `LoadGlob` or `StoreGlob` with the name's index.
pub open spec fn ident_op(st: ProgramView, name: Seq<char>, inst: Instruction) -> ProgramView {
    let (p, k) = intern(st.idents, name);
    emit(ProgramView { idents: p, ..st }, inst, k)
}

/// The instruction of a binary operator that has one of its own.
pub open spec fn bin_inst(op: TokenKind) -> Option<Instruction> {
    match op {
        TokenKind::Plus => Some(Instruction::BinAdd),
        TokenKind::Minus => Some(Instruction::BinMinus),
        TokenKind::Mul => Some(Instruction::BinMul),
        TokenKind::RealDiv => Some(Instruction::BinRealDiv),
        TokenKind::IntDiv => Some(Instruction::BinIntDiv),
        TokenKind::Mod => Some(Instruction::BinMod),
        TokenKind::Pow => Some(Instruction::BinPow),
        TokenKind::Concat => Some(Instruction::BinConcat),
        TokenKind::Lt => Some(Instruction::BinLt),
        TokenKind::Le => Some(Instruction::BinLe),
        TokenKind::Eq => Some(Instruction::BinEq),
        TokenKind::And => Some(Instruction::BinAnd),
        TokenKind::Or => Some(Instruction::BinOr),
        _ => None,
    }
}

/// The instruction of a prefix operator.
pub open spec fn unary_inst(op: TokenKind) -> Option<Instruction> {
    match op {
        TokenKind::Not => Some(Instruction::UnaryNot),
        TokenKind::Minus => Some(Instruction::UnaryMinus),
        TokenKind::Len => Some(Instruction::UnaryLen),
        _ => None,
    }
}

/// The lowering of an expression after the state `st`: operands first, then
/// the operator. `a > b` becomes `b < a`, `a >= b` becomes `b <= a`, and
/// `a ~= b` becomes `not (a == b)`.
pub open spec fn lower_expr(e: SExpr, st: ProgramView) -> Result<ProgramView, CompileError>
    decreases e,
{
    match e {
        SExpr::Number(n) => Ok(load_number(st, n)),
        SExpr::Str(s) => Ok(load_string(st, s)),
        SExpr::Boolean(b) => Ok(emit(st, if b { Instruction::LoadTrue } else { Instruction::LoadFalse }, 0)),
        SExpr::Ident(n) => Ok(ident_op(st, n, Instruction::LoadGlob)),
        SExpr::BinOp { op, left, right } => {
            if op == TokenKind::Gt || op == TokenKind::Ge {
                match lower_expr(*right, st) {
                    Ok(s1) => match lower_expr(*left, s1) {
                        Ok(s2) => Ok(emit(s2, if op == TokenKind::Gt { Instruction::BinLt } else { Instruction::BinLe }, 0)),
                        Err(err) => Err(err),
                    },
                    Err(err) => Err(err),
                }
            } else if op == TokenKind::UnEq {
                match lower_expr(*left, st) {
                    Ok(s1) => match lower_expr(*right, s1) {
                        Ok(s2) => Ok(emit(emit(s2, Instruction::BinEq, 0), Instruction::UnaryNot, 0)),
                        Err(err) => Err(err),
                    },
                    Err(err) => Err(err),
                }
            } else {
                match bin_inst(op) {
                    Some(inst) => match lower_expr(*left, st) {
                        Ok(s1) => match lower_expr(*right, s1) {
                            Ok(s2) => Ok(emit(s2, inst, 0)),
                            Err(err) => Err(err),
                        },
                        Err(err) => Err(err),
                    },
                    None => Err(CompileError::UnsupportedOperator { op }),
                }
            }
        },
        SExpr::UnaryOp { op, node } => match unary_inst(op) {
            Some(inst) => match lower_expr(*node, st) {
                Ok(s1) => Ok(emit(s1, inst, 0)),
                Err(err) => Err(err),
            },
            None => Err(CompileError::UnsupportedOperator { op }),
        },
        _ => Err(CompileError::UnsupportedFunction),
    }
}

/// The lowering of the expressions `es[k..]`, left to right.
pub open spec fn lower_exprs(es: Seq<SExpr>, k: nat, st: ProgramView) -> Result<ProgramView, CompileError>
    decreases es.len() - k,
{
    if k < es.len() {
        match lower_expr(es[k as int], st) {
            Ok(s1) => lower_exprs(es, k + 1, s1),
            Err(err) => Err(err),
        }
    } else {
        Ok(st)
    }
}

/// `StoreGlob` for `targets[k - 1]`, then for each target before it.
pub open spec fn lower_stores(targets: Seq<Seq<char>>, k: nat, st: ProgramView) -> ProgramView
    decreases k,
{
    if k == 0 || k > targets.len() {
        st
    } else {
        lower_stores(targets, (k - 1) as nat, ident_op(st, targets[k - 1], Instruction::StoreGlob))
    }
}

/// Sets the argument of each instruction at `ends[k..]` to `target`.
pub open spec fn patch_all(st: ProgramView, ends: Seq<nat>, k: nat, target: nat) -> ProgramView
    decreases ends.len() - k,
{
    if k < ends.len() {
        patch_all(patch(st, ends[k as int], target), ends, k + 1, target)
    } else {
        st
    }
}

/// One arm of an `if`: the condition, a conditional jump past the arm, the
/// body, and a jump whose target is set later. Also gives that jump's index.
pub open spec fn lower_arm(cond: SExpr, body: Seq<SStmt>, st: ProgramView) -> Result<(ProgramView, nat), CompileError>
    decreases body, body.len() + 1,
{
    match lower_expr(cond, st) {
        Ok(s1) => {
            let j = s1.code.len();
            match lower_stmts(body, 0, emit(s1, Instruction::JumpAbsoluteIfFalse, 0)) {
                Ok(s2) => {
                    let e = s2.code.len();
                    let s3 = emit(s2, Instruction::JumpAbsolute, 0);
                    Ok((patch(s3, j, s3.code.len()), e))
                },
                Err(err) => Err(err),
            }
        },
        Err(err) => Err(err),
    }
}

/// The `elseif` arms from the `k`-th on; `ends` gathers the indices of their
/// closing jumps.
pub open spec fn lower_elseifs(
    conds: Seq<SExpr>,
    bodies: Seq<Seq<SStmt>>,
    k: nat,
    st: ProgramView,
    ends: Seq<nat>,
) -> Result<(ProgramView, Seq<nat>), CompileError>
    decreases bodies, bodies.len() - k,
{
    if k < conds.len() && k < bodies.len() {
        match lower_arm(conds[k as int], bodies[k as int], st) {
            Ok((s1, e)) => lower_elseifs(conds, bodies, k + 1, s1, ends.push(e)),
            Err(err) => Err(err),
        }
    } else {
        Ok((st, ends))
    }
}

/// The lowering of a statement. Jump arguments are the index of the
/// instruction that runs next.
pub open spec fn lower_stmt(s: SStmt, st: ProgramView) -> Result<ProgramView, CompileError>
    decreases s, 0nat,
{
    match s {
        SStmt::Assign { targets, values } => match lower_exprs(values, 0, st) {
            Ok(s1) => Ok(lower_stores(targets, targets.len(), s1)),
            Err(err) => Err(err),
        },
        SStmt::While { cond, body } => {
            let c = st.code.len();
            match lower_expr(cond, st) {
                Ok(s1) => {
                    let j = s1.code.len();
                    match lower_stmts(body, 0, emit(s1, Instruction::JumpAbsoluteIfFalse, 0)) {
                        Ok(s2) => {
                            let s3 = emit(s2, Instruction::JumpAbsolute, c);
                            Ok(patch(s3, j, s3.code.len()))
                        },
                        Err(err) => Err(err),
                    }
                },
                Err(err) => Err(err),
            }
        },
        SStmt::If { cond, then_body, elseif_conds, elseif_bodies, else_body } => {
            match lower_arm(cond, then_body, st) {
                Ok((s1, e)) => match lower_elseifs(elseif_conds, elseif_bodies, 0, s1, seq![e]) {
                    Ok((s2, ends)) => match lower_stmts(else_body, 0, s2) {
                        Ok(s3) => Ok(patch_all(s3, ends, 0, s3.code.len())),
                        Err(err) => Err(err),
                    },
                    Err(err) => Err(err),
                },
                Err(err) => Err(err),
            }
        },
        SStmt::FuncDecl { .. } => Err(CompileError::UnsupportedFunction),
    }
}

/// The lowering of the statements `ss[k..]`, in order.
pub open spec fn lower_stmts(ss: Seq<SStmt>, k: nat, st: ProgramView) -> Result<ProgramView, CompileError>
    decreases ss, ss.len() - k,
{
    if k < ss.len() {
        match lower_stmt(ss[k as int], st) {
            Ok(s1) => lower_stmts(ss, k + 1, s1),
            Err(err) => Err(err),
        }
    } else {
        Ok(st)
    }
}

/// The program of a statement list compiled after the state `st`: its
/// lowering, then `End`.
pub open spec fn compile_after(ss: Seq<SStmt>, st: ProgramView) -> Result<ProgramView, CompileError> {
    match lower_stmts(ss, 0, st) {
        Ok(s1) => Ok(emit(s1, Instruction::End, 0)),
        Err(err) => Err(err),
    }
}

/// The state of a fresh compiler.
pub open spec fn empty_state() -> ProgramView {
    ProgramView { code: Seq::empty(), nums: Seq::empty(), strs: Seq::empty(), idents: Seq::empty() }
}

/// The program of a statement list.
pub open spec fn compile_program(ss: Seq<SStmt>) -> Result<ProgramView, CompileError> {
    compile_after(ss, empty_state())
}


pub proof fn lemma_exprs_view_index(v: Seq<Expr>)
    ensures
        exprs_view(v).len() == v.len(),
        forall|k: int| 0 <= k < v.len() ==> #[trigger] exprs_view(v)[k] == expr_view(v[k]),
    decreases v.len(),
{
    if v.len() > 0 {
        lemma_exprs_view_index(v.subrange(0, v.len() - 1));
    }
}

pub proof fn lemma_stmts_view_index(v: Seq<Stmt>)
    ensures
        stmts_view(v).len() == v.len(),
        forall|k: int| 0 <= k < v.len() ==> #[trigger] stmts_view(v)[k] == stmt_view(v[k]),
    decreases v.len(),
{
    if v.len() > 0 {
        lemma_stmts_view_index(v.subrange(0, v.len() - 1));
    }
}

pub proof fn lemma_bodies_view_index(v: Seq<Vec<Stmt>>)
    ensures
        bodies_view(v).len() == v.len(),
        forall|k: int| 0 <= k < v.len() ==> #[trigger] bodies_view(v)[k] == stmts_view(v[k]@),
    decreases v.len(),
{
    if v.len() > 0 {
        lemma_bodies_view_index(v.subrange(0, v.len() - 1));
    }
}

/// Looks `v` up in `pool`, adding it at the end when it is not there.
fn intern_in(pool: &mut Vec<String>, v: String) -> (k: usize)
    ensures
        (pool_view(final(pool)@), k as nat) == intern(pool_view(old(pool)@), v@),
{
    let ghost p = pool_view(pool@);
    let mut k: usize = 0;
    while k < pool.len() && !(pool[k] == v)
        invariant
            k <= pool@.len(),
            p == pool_view(pool@),
            first_from(p, v@, 0) == first_from(p, v@, k as nat),
        decreases pool@.len() - k,
    {
        k = k + 1;
    }
    if k == pool.len() {
        pool.push(v);
        proof {
            assert(pool_view(pool@) =~= p.push(v@));
        }
    }
    k
}

/// Copies a pool.
fn copy_pool(pool: &Vec<String>) -> (r: Vec<String>)
    ensures
        pool_view(r@) == pool_view(pool@),
{
    let mut r: Vec<String> = Vec::new();
    let mut k: usize = 0;
    while k < pool.len()
        invariant
            k <= pool@.len(),
            pool_view(r@) =~= pool_view(pool@).subrange(0, k as int),
        decreases pool@.len() - k,
    {
        let c = pool[k].clone();
        proof {
            assert(pool_view(r@.push(c)) =~= pool_view(r@).push(c@));
        }
        r.push(c);
        k = k + 1;
    }
    proof {
        assert(pool_view(pool@).subrange(0, pool@.len() as int) =~= pool_view(pool@));
    }
    r
}

/// The first index at or after `k` where `s` holds `c`, or its length.
fn find_char(s: &Vec<char>, c: char, k: usize) -> (r: usize)
    requires
        k <= s@.len(),
    ensures
        r == span(s@, k as nat, |d: char| d != c),
        k <= r <= s@.len(),
{
    let mut r = k;
    while r < s.len() && s[r] != c
        invariant
            k <= r <= s@.len(),
            span(s@, k as nat, |d: char| d != c) == span(s@, r as nat, |d: char| d != c),
        decreases s@.len() - r,
    {
        r = r + 1;
    }
    r
}

/// The canonical decimal form of a numeral, as `numeral_key` states it.
pub fn numeral_key_of(lexeme: &String) -> (r: String)
    ensures
        r@ == numeral_key(lexeme@),
{
    let s = chars_of(lexeme.as_str());
    let d = find_char(&s, '.', 0);
    let mut a: usize = 0;
    while a < d && s[a] == '0'
        invariant
            a <= d <= s@.len(),
            strip_leading_zeros(s@.subrange(0, d as int)) == strip_leading_zeros(s@.subrange(a as int, d as int)),
        decreases d - a,
    {
        proof {
            assert(s@.subrange(a as int, d as int).subrange(1, d - a) =~= s@.subrange(a + 1, d as int));
        }
        a = a + 1;
    }
    proof {
        assert(s@.subrange(a as int, d as int).len() == 0 || s@.subrange(a as int, d as int)[0] != '0');
    }
    let mut key = if a == d {
        String::from_str("0")
    } else {
        string_of(&s, a, d)
    };
    proof {
        reveal_strlit("0");
        reveal_strlit(".");
    }
    if d < s.len() {
        let mut b = s.len();
        while b > d + 1 && s[b - 1] == '0'
            invariant
                d + 1 <= b <= s@.len(),
                strip_trailing_zeros(s@.subrange(d + 1, s@.len() as int)) == strip_trailing_zeros(s@.subrange(d + 1, b as int)),
            decreases b,
        {
            proof {
                assert(s@.subrange(d + 1, b as int).subrange(0, b - 1 - (d + 1)) =~= s@.subrange(d + 1, b - 1));
            }
            b = b - 1;
        }
        if b > d + 1 {
            let frac = string_of(&s, d + 1, b);
            key.append(".");
            key.append(frac.as_str());
        }
    }
    key
}

/// Lowers statements to bytecode, interning numbers, strings and names.
pub struct Compiler {
    codes: Vec<Bytecode>,
    nums: Vec<String>,
    strs: Vec<String>,
    idents: Vec<String>,
}

impl View for Compiler {
    type V = ProgramView;

    closed spec fn view(&self) -> ProgramView {
        ProgramView {
            code: self.codes@,
            nums: pool_view(self.nums@),
            strs: pool_view(self.strs@),
            idents: pool_view(self.idents@),
        }
    }
}

impl Compiler {
    /// A compiler with no code and empty pools.
    pub fn new() -> (r: Compiler)
        ensures
            r@ == empty_state(),
    {
        let r = Compiler { codes: Vec::new(), nums: Vec::new(), strs: Vec::new(), idents: Vec::new() };
        proof {
            assert(pool_view(r.nums@) =~= Seq::<Seq<char>>::empty());
            assert(pool_view(r.strs@) =~= Seq::<Seq<char>>::empty());
            assert(pool_view(r.idents@) =~= Seq::<Seq<char>>::empty());
        }
        r
    }

    fn emit(&mut self, inst: Instruction, arg: usize)
        ensures
            final(self)@ == emit(old(self)@, inst, arg as nat),
    {
        self.codes.push(Bytecode { inst, arg });
    }

    /// Sets the argument of the instruction at `at` to the current length.
    fn patch_here(&mut self, at: usize)
        requires
            at < old(self)@.code.len(),
        ensures
            final(self)@ == patch(old(self)@, at as nat, old(self)@.code.len()),
    {
        let target = self.codes.len();
        let inst = self.codes[at].inst;
        self.codes.set(at, Bytecode { inst, arg: target });
    }

    /// A `LoadNumber` of the number's interned canonical form.
    fn make_num_code(&mut self, inst: Instruction, lexeme: &String) -> (r: Bytecode)
        ensures
            ({
                let (p, k) = intern(old(self)@.nums, numeral_key(lexeme@));
                &&& r == Bytecode { inst, arg: k as usize }
                &&& final(self)@ == ProgramView { nums: p, ..old(self)@ }
            }),
    {
        let key = numeral_key_of(lexeme);
        let arg = intern_in(&mut self.nums, key);
        Bytecode { inst, arg }
    }

    /// `LoadGlob` or `StoreGlob` of a name.
    fn visit_ident(&mut self, ident: &Ident, inst: Instruction)
        ensures
            final(self)@ == ident_op(old(self)@, ident.name@, inst),
    {
        let arg = intern_in(&mut self.idents, ident.name.clone());
        self.codes.push(Bytecode { inst, arg });
    }

    fn visit_expr(&mut self, expr: &Expr) -> (r: Result<(), CompileError>)
        ensures
            old(self)@.code.len() <= final(self)@.code.len(),
            match r {
                Ok(()) => lower_expr(expr_view(*expr), old(self)@) == Ok::<ProgramView, CompileError>(final(self)@),
                Err(e) => lower_expr(expr_view(*expr), old(self)@) == Err::<ProgramView, CompileError>(e),
            },
        decreases *expr,
    {
        match expr {
            Expr::BinOp { op, left, right } => {
                let op = *op;
                if op == TokenKind::Gt || op == TokenKind::Ge {
                    if let Err(e) = self.visit_expr(right) {
                        return Err(e);
                    }
                    if let Err(e) = self.visit_expr(left) {
                        return Err(e);
                    }
                    self.emit(if op == TokenKind::Gt { Instruction::BinLt } else { Instruction::BinLe }, 0);
                    return Ok(());
                }
                if op == TokenKind::UnEq {
                    if let Err(e) = self.visit_expr(left) {
                        return Err(e);
                    }
                    if let Err(e) = self.visit_expr(right) {
                        return Err(e);
                    }
                    self.emit(Instruction::BinEq, 0);
                    self.emit(Instruction::UnaryNot, 0);
                    return Ok(());
                }
                let inst = match op {
                    TokenKind::Plus => Instruction::BinAdd,
                    TokenKind::Minus => Instruction::BinMinus,
                    TokenKind::Mul => Instruction::BinMul,
                    TokenKind::RealDiv => Instruction::BinRealDiv,
                    TokenKind::IntDiv => Instruction::BinIntDiv,
                    TokenKind::Mod => Instruction::BinMod,
                    TokenKind::Pow => Instruction::BinPow,
                    TokenKind::Concat => Instruction::BinConcat,
                    TokenKind::Lt => Instruction::BinLt,
                    TokenKind::Le => Instruction::BinLe,
                    TokenKind::Eq => Instruction::BinEq,
                    TokenKind::And => Instruction::BinAnd,
                    TokenKind::Or => Instruction::BinOr,
                    _ => {
                        return Err(CompileError::UnsupportedOperator { op });
                    },
                };
                if let Err(e) = self.visit_expr(left) {
                    return Err(e);
                }
                if let Err(e) = self.visit_expr(right) {
                    return Err(e);
                }
                self.emit(inst, 0);
                Ok(())
            },
            Expr::UnaryOp { op, node } => {
                let inst = match *op {
                    TokenKind::Not => Instruction::UnaryNot,
                    TokenKind::Minus => Instruction::UnaryMinus,
                    TokenKind::Len => Instruction::UnaryLen,
                    _ => {
                        return Err(CompileError::UnsupportedOperator { op: *op });
                    },
                };
                if let Err(e) = self.visit_expr(node) {
                    return Err(e);
                }
                self.emit(inst, 0);
                Ok(())
            },
            Expr::Number(x) => {
                let b = self.make_num_code(Instruction::LoadNumber, x);
                self.codes.push(b);
                Ok(())
            },
            Expr::String(x) => {
                let arg = intern_in(&mut self.strs, x.clone());
                self.codes.push(Bytecode { inst: Instruction::LoadString, arg });
                Ok(())
            },
            Expr::Ident(x) => {
                self.visit_ident(x, Instruction::LoadGlob);
                Ok(())
            },
            Expr::Boolean(x) => {
                self.emit(if *x { Instruction::LoadTrue } else { Instruction::LoadFalse }, 0);
                Ok(())
            },
            _ => Err(CompileError::UnsupportedFunction),
        }
    }

    /// Lowers `stmts` after the current state, then hands back a copy of the
    /// code with `End` appended, and of the pools. The compiler keeps the
    /// lowered code and the pools.
    #[verifier::loop_isolation(false)]
    pub fn compile(&mut self, node: &Vec<Stmt>) -> (r: Result<Bytecodes, CompileError>)
        ensures
            match r {
                Ok(b) => compile_after(stmts_view(node@), old(self)@) == Ok::<ProgramView, CompileError>(b@),
                Err(e) => compile_after(stmts_view(node@), old(self)@) == Err::<ProgramView, CompileError>(e),
            },
    {
        if let Err(e) = self.visit_stmt_list(node) {
            return Err(e);
        }
        let mut bc: Vec<Bytecode> = Vec::new();
        let mut k: usize = 0;
        while k < self.codes.len()
            invariant
                k <= self.codes@.len(),
                bc@ =~= self.codes@.subrange(0, k as int),
            decreases self.codes@.len() - k,
        {
            bc.push(self.codes[k]);
            k = k + 1;
        }
        bc.push(Bytecode { inst: Instruction::End, arg: 0 });
        let nums = copy_pool(&self.nums);
        let strs = copy_pool(&self.strs);
        let idents = copy_pool(&self.idents);
        let r = Bytecodes { bc, nums, strs, idents };
        proof {
            assert(r@.code =~= emit(self@, Instruction::End, 0).code);
        }
        Ok(r)
    }

    #[verifier::loop_isolation(false)]
    fn visit_stmt_list(&mut self, node: &Vec<Stmt>) -> (r: Result<(), CompileError>)
        ensures
            old(self)@.code.len() <= final(self)@.code.len(),
            match r {
                Ok(()) => lower_stmts(stmts_view(node@), 0, old(self)@) == Ok::<ProgramView, CompileError>(final(self)@),
                Err(e) => lower_stmts(stmts_view(node@), 0, old(self)@) == Err::<ProgramView, CompileError>(e),
            },
        decreases node, 0nat,
    {
        let ghost sv = stmts_view(node@);
        let ghost st0 = self@;
        proof {
            lemma_stmts_view_index(node@);
        }
        let mut k: usize = 0;
        while k < node.len()
            invariant
                k <= node@.len(),
                sv == stmts_view(node@),
                sv.len() == node@.len(),
                forall|m: int| 0 <= m < node@.len() ==> #[trigger] sv[m] == stmt_view(node@[m]),
                lower_stmts(sv, 0, st0) == lower_stmts(sv, k as nat, self@),
                st0.code.len() <= self@.code.len(),
            decreases node@.len() - k,
        {
            if let Err(e) = self.visit_stmt(&node[k]) {
                return Err(e);
            }
            k = k + 1;
        }
        Ok(())
    }

    fn visit_stmt(&mut self, node: &Stmt) -> (r: Result<(), CompileError>)
        ensures
            old(self)@.code.len() <= final(self)@.code.len(),
            match r {
                Ok(()) => lower_stmt(stmt_view(*node), old(self)@) == Ok::<ProgramView, CompileError>(final(self)@),
                Err(e) => lower_stmt(stmt_view(*node), old(self)@) == Err::<ProgramView, CompileError>(e),
            },
        decreases *node, 1nat,
    {
        match node {
            Stmt::Assign { ident_list, expr_list } => self.visit_assign(ident_list, expr_list),
            Stmt::If { .. } => self.visit_if(node),
            Stmt::While { .. } => self.visit_while(node),
            Stmt::FuncDecl(_) => Err(CompileError::UnsupportedFunction),
        }
    }

    /// The loop's condition, a conditional jump out of the loop, the body,
    /// and a jump back to the condition.
    fn visit_while(&mut self, node: &Stmt) -> (r: Result<(), CompileError>)
        requires
            node is While,
        ensures
            old(self)@.code.len() <= final(self)@.code.len(),
            match r {
                Ok(()) => lower_stmt(stmt_view(*node), old(self)@) == Ok::<ProgramView, CompileError>(final(self)@),
                Err(e) => lower_stmt(stmt_view(*node), old(self)@) == Err::<ProgramView, CompileError>(e),
            },
        decreases *node, 0nat,
    {
        match node {
            Stmt::While { cond, body } => {
                let cond_pos = self.codes.len();
                if let Err(e) = self.visit_expr(cond) {
                    return Err(e);
                }
                let jmp_pos = self.codes.len();
                self.emit(Instruction::JumpAbsoluteIfFalse, 0);
                if let Err(e) = self.visit_stmt_list(body) {
                    return Err(e);
                }
                self.emit(Instruction::JumpAbsolute, cond_pos);
                self.patch_here(jmp_pos);
                Ok(())
            },
            _ => Ok(()),
        }
    }

    /// The values left to right, then a `StoreGlob` for each target right
    /// to left.
    #[verifier::loop_isolation(false)]
    fn visit_assign(&mut self, ident_list: &Vec<Ident>, expr_list: &Vec<Expr>) -> (r: Result<(), CompileError>)
        ensures
            old(self)@.code.len() <= final(self)@.code.len(),
            match r {
                Ok(()) => lower_stmt(SStmt::Assign { targets: names_view(ident_list@), values: exprs_view(expr_list@) }, old(self)@)
                    == Ok::<ProgramView, CompileError>(final(self)@),
                Err(e) => lower_stmt(SStmt::Assign { targets: names_view(ident_list@), values: exprs_view(expr_list@) }, old(self)@)
                    == Err::<ProgramView, CompileError>(e),
            },
    {
        let ghost ev = exprs_view(expr_list@);
        let ghost tv = names_view(ident_list@);
        let ghost st0 = self@;
        proof {
            lemma_exprs_view_index(expr_list@);
        }
        let mut k: usize = 0;
        while k < expr_list.len()
            invariant
                k <= expr_list@.len(),
                ev == exprs_view(expr_list@),
                ev.len() == expr_list@.len(),
                forall|m: int| 0 <= m < expr_list@.len() ==> #[trigger] ev[m] == expr_view(expr_list@[m]),
                lower_exprs(ev, 0, st0) == lower_exprs(ev, k as nat, self@),
                st0.code.len() <= self@.code.len(),
            decreases expr_list@.len() - k,
        {
            if let Err(e) = self.visit_expr(&expr_list[k]) {
                return Err(e);
            }
            k = k + 1;
        }
        let ghost st1 = self@;
        let mut m = ident_list.len();
        while m > 0
            invariant
                m <= ident_list@.len(),
                tv == names_view(ident_list@),
                lower_stores(tv, tv.len(), st1) == lower_stores(tv, m as nat, self@),
                st0.code.len() <= self@.code.len(),
            decreases m,
        {
            self.visit_ident(&ident_list[m - 1], Instruction::StoreGlob);
            m = m - 1;
        }
        Ok(())
    }

    /// One arm of an `if`; gives the index of its closing jump.
    fn visit_arm(&mut self, cond: &Expr, body: &Vec<Stmt>) -> (r: Result<usize, CompileError>)
        ensures
            old(self)@.code.len() <= final(self)@.code.len(),
            match r {
                Ok(e) => lower_arm(expr_view(*cond), stmts_view(body@), old(self)@)
                    == Ok::<(ProgramView, nat), CompileError>((final(self)@, e as nat)) && e < final(self)@.code.len(),
                Err(err) => lower_arm(expr_view(*cond), stmts_view(body@), old(self)@)
                    == Err::<(ProgramView, nat), CompileError>(err),
            },
        decreases body, 1nat,
    {
        if let Err(e) = self.visit_expr(cond) {
            return Err(e);
        }
        let if_pos = self.codes.len();
        self.emit(Instruction::JumpAbsoluteIfFalse, 0);
        if let Err(e) = self.visit_stmt_list(body) {
            return Err(e);
        }
        let end_pos = self.codes.len();
        self.emit(Instruction::JumpAbsolute, 0);
        self.patch_here(if_pos);
        Ok(end_pos)
    }

    /// The arms in order, the `else` body, then each arm's closing jump set
    /// to the end of the statement.
    #[verifier::loop_isolation(false)]
    fn visit_if(&mut self, node: &Stmt) -> (r: Result<(), CompileError>)
        requires
            node is If,
        ensures
            old(self)@.code.len() <= final(self)@.code.len(),
            match r {
                Ok(()) => lower_stmt(stmt_view(*node), old(self)@) == Ok::<ProgramView, CompileError>(final(self)@),
                Err(e) => lower_stmt(stmt_view(*node), old(self)@) == Err::<ProgramView, CompileError>(e),
            },
        decreases *node, 0nat,
    {
        match node {
            Stmt::If { cond, if_body, elseif_conds, elseif_bodies, else_body } => {
                let ghost st0 = self@;
                let first = match self.visit_arm(cond, if_body) {
                    Ok(e) => e,
                    Err(e) => {
                        return Err(e);
                    },
                };
                let mut s_pos: Vec<usize> = Vec::new();
                s_pos.push(first);
                let ghost cv = exprs_view(elseif_conds@);
                let ghost bv = bodies_view(elseif_bodies@);
                let ghost st1 = self@;
                proof {
                    lemma_exprs_view_index(elseif_conds@);
                    lemma_bodies_view_index(elseif_bodies@);
                    assert(s_pos@.map_values(|p: usize| p as nat) =~= seq![first as nat]);
                }
                let mut k: usize = 0;
                while k < elseif_conds.len() && k < elseif_bodies.len()
                    invariant
                        k <= elseif_conds@.len(),
                        cv == exprs_view(elseif_conds@),
                        bv == bodies_view(elseif_bodies@),
                        cv.len() == elseif_conds@.len(),
                        bv.len() == elseif_bodies@.len(),
                        forall|m: int| 0 <= m < elseif_conds@.len() ==> #[trigger] cv[m] == expr_view(elseif_conds@[m]),
                        forall|m: int| 0 <= m < elseif_bodies@.len() ==> #[trigger] bv[m] == stmts_view(elseif_bodies@[m]@),
                        lower_elseifs(cv, bv, 0, st1, seq![first as nat])
                            == lower_elseifs(cv, bv, k as nat, self@, s_pos@.map_values(|p: usize| p as nat)),
                        forall|m: int| 0 <= m < s_pos@.len() ==> #[trigger] s_pos@[m] < self@.code.len(),
                        st0.code.len() <= self@.code.len(),
                    decreases elseif_conds@.len() - k,
                {
                    proof {
                        assert(decreases_to!(elseif_bodies => elseif_bodies@[k as int]));
                    }
                    match self.visit_arm(&elseif_conds[k], &elseif_bodies[k]) {
                        Ok(e) => {
                            proof {
                                assert(s_pos@.push(e).map_values(|p: usize| p as nat)
                                    =~= s_pos@.map_values(|p: usize| p as nat).push(e as nat));
                            }
                            s_pos.push(e);
                        },
                        Err(e) => {
                            return Err(e);
                        },
                    }
                    k = k + 1;
                }
                if let Err(e) = self.visit_stmt_list(else_body) {
                    return Err(e);
                }
                let ghost st3 = self@;
                let ghost ends = s_pos@.map_values(|p: usize| p as nat);
                let target = self.codes.len();
                let mut m: usize = 0;
                while m < s_pos.len()
                    invariant
                        m <= s_pos@.len(),
                        ends == s_pos@.map_values(|p: usize| p as nat),
                        target == st3.code.len(),
                        self@.code.len() == st3.code.len(),
                        forall|q: int| 0 <= q < s_pos@.len() ==> #[trigger] s_pos@[q] < st3.code.len(),
                        patch_all(st3, ends, 0, target as nat) == patch_all(self@, ends, m as nat, target as nat),
                        st0.code.len() <= self@.code.len(),
                    decreases s_pos@.len() - m,
                {
                    let at = s_pos[m];
                    let inst = self.codes[at].inst;
                    self.codes.set(at, Bytecode { inst, arg: target });
                    m = m + 1;
                }
                Ok(())
            },
            _ => Ok(()),
        }
    }
}

} // verus!
