//! Recursive descent with one function per precedence level. Each rule takes
//! at least one token when it succeeds; the tests `i < j <= t.len()` in the
//! definitions below say so, and keep the definitions well-founded.
use vstd::prelude::*;
use crate::ast::{
    bodies_view, expr_view, exprs_view, names_view, stmt_view, stmts_view, Expr, FuncCall, FuncDecl, Ident, SExpr,
    SStmt, Stmt,
};
use crate::token::{token_text, Token, TokenKind, TokenView};
use crate::lexer::tokens_view;

verus! {

broadcast use vstd::std_specs::vec::group_vec_axioms, vstd::seq::group_seq_axioms;

/// A syntax error.
#[derive(Debug, Clone, Copy, PartialEq, Eq, Structural)]
pub enum ParseError {
    /// The token had to be of the kind `expected`.
    Expected { expected: TokenKind, found: TokenKind },
    /// No statement starts with this token.
    UnexpectedStatement { found: TokenKind },
    /// No operand starts with this token.
    UnexpectedFactor { found: TokenKind },
}

/// The kind of the `i`-th token; past the end, `Eof`.
pub open spec fn kind_at(t: Seq<TokenView>, i: nat) -> TokenKind {
    if i < t.len() {
        t[i as int].kind
    } else {
        TokenKind::Eof
    }
}

/// The text of the `i`-th token; empty where it has none.
pub open spec fn text_at(t: Seq<TokenView>, i: nat) -> Seq<char> {
    if i < t.len() {
        token_text(t[i as int])
    } else {
        Seq::empty()
    }
}

/// The position after a token of kind `k` at `i`.
pub open spec fn eat(t: Seq<TokenView>, i: nat, k: TokenKind) -> Result<nat, ParseError> {
    if kind_at(t, i) == k {
        Ok(i + 1)
    } else {
        Err(ParseError::Expected { expected: k, found: kind_at(t, i) })
    }
}

/// Whether `j` is a position after `i` within the tokens.
pub open spec fn moved(t: Seq<TokenView>, i: nat, j: nat) -> bool {
    i < j <= t.len()
}

/// The operators of a left-associative level: 7 `or`, 6 `and`, 5 the
/// comparisons, 3 `+ -`, 2 `* / // %`.
pub open spec fn is_level_op(level: nat, k: TokenKind) -> bool {
    if level == 7 {
        k == TokenKind::Or
    } else if level == 6 {
        k == TokenKind::And
    } else if level == 5 {
        k == TokenKind::Lt || k == TokenKind::Gt || k == TokenKind::Le || k == TokenKind::Ge
            || k == TokenKind::Eq || k == TokenKind::UnEq
    } else if level == 3 {
        k == TokenKind::Plus || k == TokenKind::Minus
    } else if level == 2 {
        k == TokenKind::Mul || k == TokenKind::RealDiv || k == TokenKind::IntDiv || k == TokenKind::Mod
    } else {
        false
    }
}

pub open spec fn is_unary_op(k: TokenKind) -> bool {
    k == TokenKind::Not || k == TokenKind::Len || k == TokenKind::Minus
}

pub open spec fn bin(op: TokenKind, l: SExpr, r: SExpr) -> SExpr {
    SExpr::BinOp { op, left: Box::new(l), right: Box::new(r) }
}

/// An expression of precedence `level` at `i`, and the position after it.
/// Level 7 is a whole expression; 4 (`..`) and 0 (`^`) associate to the
/// right, 1 is the prefix operators, the others associate to the left.
pub open spec fn expr_at(t: Seq<TokenView>, level: nat, i: nat) -> Result<(SExpr, nat), ParseError>
    decreases t.len() - i, level + 2,
{
    if level == 0 {
        match factor(t, i) {
            Ok((f, j)) => if kind_at(t, j) == TokenKind::Pow && moved(t, i, j) {
                match expr_at(t, 0, j + 1) {
                    Ok((r, k)) => Ok((bin(TokenKind::Pow, f, r), k)),
                    Err(e) => Err(e),
                }
            } else {
                Ok((f, j))
            },
            Err(e) => Err(e),
        }
    } else if level == 1 {
        if is_unary_op(kind_at(t, i)) {
            match expr_at(t, 1, i + 1) {
                Ok((x, j)) => Ok((SExpr::UnaryOp { op: kind_at(t, i), node: Box::new(x) }, j)),
                Err(e) => Err(e),
            }
        } else {
            expr_at(t, 0, i)
        }
    } else if level == 4 {
        match expr_at(t, 3, i) {
            Ok((l, j)) => if kind_at(t, j) == TokenKind::Concat && moved(t, i, j) {
                match expr_at(t, 4, j + 1) {
                    Ok((r, k)) => Ok((bin(TokenKind::Concat, l, r), k)),
                    Err(e) => Err(e),
                }
            } else {
                Ok((l, j))
            },
            Err(e) => Err(e),
        }
    } else if level <= 7 {
        match expr_at(t, (level - 1) as nat, i) {
            Ok((l, j)) => if moved(t, i, j) {
                left_rest(t, level, l, j)
            } else {
                Ok((l, j))
            },
            Err(e) => Err(e),
        }
    } else {
        expr_at(t, 7, i)
    }
}

/// The rest of a left-associative level after its first operand `left`.
pub open spec fn left_rest(t: Seq<TokenView>, level: nat, left: SExpr, i: nat) -> Result<(SExpr, nat), ParseError>
    decreases t.len() - i, 0nat,
{
    if is_level_op(level, kind_at(t, i)) && 1 <= level && i < t.len() {
        match expr_at(t, (level - 1) as nat, i + 1) {
            Ok((r, j)) => if moved(t, i, j) {
                left_rest(t, level, bin(kind_at(t, i), left, r), j)
            } else {
                Ok((bin(kind_at(t, i), left, r), j))
            },
            Err(e) => Err(e),
        }
    } else {
        Ok((left, i))
    }
}

/// A name, a literal, a parenthesised expression, or a call.
pub open spec fn factor(t: Seq<TokenView>, i: nat) -> Result<(SExpr, nat), ParseError>
    decreases t.len() - i, 1nat,
{
    let k = kind_at(t, i);
    if k == TokenKind::Ident {
        if kind_at(t, i + 1) == TokenKind::Lpar {
            call(t, i)
        } else {
            Ok((SExpr::Ident(text_at(t, i)), i + 1))
        }
    } else if k == TokenKind::Number {
        Ok((SExpr::Number(text_at(t, i)), i + 1))
    } else if k == TokenKind::String {
        Ok((SExpr::Str(text_at(t, i)), i + 1))
    } else if k == TokenKind::True {
        Ok((SExpr::Boolean(true), i + 1))
    } else if k == TokenKind::False {
        Ok((SExpr::Boolean(false), i + 1))
    } else if k == TokenKind::Lpar {
        match expr_at(t, 7, i + 1) {
            Ok((e, j)) => match eat(t, j, TokenKind::Rpar) {
                Ok(k2) => Ok((e, k2)),
                Err(err) => Err(err),
            },
            Err(err) => Err(err),
        }
    } else {
        Err(ParseError::UnexpectedFactor { found: k })
    }
}

/// A call `name ( expr_list )`; the name is at `i` and `(` follows it.
pub open spec fn call(t: Seq<TokenView>, i: nat) -> Result<(SExpr, nat), ParseError>
    decreases t.len() - i, 0nat,
{
    if i + 1 < t.len() {
        match expr_list(t, i + 2) {
            Ok((args, j)) => match eat(t, j, TokenKind::Rpar) {
                Ok(k) => Ok((SExpr::FuncCall { name: text_at(t, i), args }, k)),
                Err(e) => Err(e),
            },
            Err(e) => Err(e),
        }
    } else {
        Err(ParseError::Expected { expected: TokenKind::Lpar, found: kind_at(t, i + 1) })
    }
}

/// One or more expressions separated by commas.
pub open spec fn expr_list(t: Seq<TokenView>, i: nat) -> Result<(Seq<SExpr>, nat), ParseError>
    decreases t.len() - i, 10nat,
{
    match expr_at(t, 7, i) {
        Ok((e, j)) => if moved(t, i, j) {
            exprs_rest(t, seq![e], j)
        } else {
            Ok((seq![e], j))
        },
        Err(err) => Err(err),
    }
}

/// The rest of an expression list after the expressions `acc`.
pub open spec fn exprs_rest(t: Seq<TokenView>, acc: Seq<SExpr>, i: nat) -> Result<(Seq<SExpr>, nat), ParseError>
    decreases t.len() - i, 0nat,
{
    if kind_at(t, i) == TokenKind::Comma {
        match expr_at(t, 7, i + 1) {
            Ok((e, j)) => if moved(t, i, j) {
                exprs_rest(t, acc.push(e), j)
            } else {
                Ok((acc.push(e), j))
            },
            Err(err) => Err(err),
        }
    } else {
        Ok((acc, i))
    }
}

/// A name.
pub open spec fn ident(t: Seq<TokenView>, i: nat) -> Result<(Seq<char>, nat), ParseError> {
    if kind_at(t, i) == TokenKind::Ident {
        Ok((text_at(t, i), i + 1))
    } else {
        Err(ParseError::Expected { expected: TokenKind::Ident, found: kind_at(t, i) })
    }
}

/// The rest of a list of names after the names `acc`.
pub open spec fn idents_rest(t: Seq<TokenView>, acc: Seq<Seq<char>>, i: nat) -> Result<(Seq<Seq<char>>, nat), ParseError>
    decreases t.len() - i,
{
    if kind_at(t, i) == TokenKind::Comma && i < t.len() {
        match ident(t, i + 1) {
            Ok((n, j)) => idents_rest(t, acc.push(n), j),
            Err(e) => Err(e),
        }
    } else {
        Ok((acc, i))
    }
}

/// One or more names separated by commas.
pub open spec fn ident_list(t: Seq<TokenView>, i: nat) -> Result<(Seq<Seq<char>>, nat), ParseError> {
    match ident(t, i) {
        Ok((n, j)) => idents_rest(t, seq![n], j),
        Err(e) => Err(e),
    }
}

/// Whether a token ends a statement list.
pub open spec fn ends_block(k: TokenKind) -> bool {
    k == TokenKind::Eof || k == TokenKind::Elseif || k == TokenKind::Else || k == TokenKind::End
}

/// Statements up to `Eof`, `elseif`, `else` or `end`.
pub open spec fn stmt_list(t: Seq<TokenView>, i: nat) -> Result<(Seq<SStmt>, nat), ParseError>
    decreases t.len() - i, 3nat,
{
    if ends_block(kind_at(t, i)) {
        Ok((Seq::empty(), i))
    } else {
        match stmt(t, i) {
            Ok((s, j)) => if moved(t, i, j) {
                match stmt_list(t, j) {
                    Ok((rest, k)) => Ok((seq![s] + rest, k)),
                    Err(e) => Err(e),
                }
            } else {
                Ok((seq![s], j))
            },
            Err(e) => Err(e),
        }
    }
}

/// One statement, chosen by its first token.
pub open spec fn stmt(t: Seq<TokenView>, i: nat) -> Result<(SStmt, nat), ParseError>
    decreases t.len() - i, 2nat,
{
    let k = kind_at(t, i);
    if k == TokenKind::If {
        if_stmt(t, i)
    } else if k == TokenKind::Ident {
        assign_stmt(t, i)
    } else if k == TokenKind::While {
        while_stmt(t, i)
    } else if k == TokenKind::Function {
        func_decl_stmt(t, i)
    } else {
        Err(ParseError::UnexpectedStatement { found: k })
    }
}

/// `names = expr_list`.
pub open spec fn assign_stmt(t: Seq<TokenView>, i: nat) -> Result<(SStmt, nat), ParseError>
    decreases t.len() - i, 1nat,
{
    match ident_list(t, i) {
        Ok((targets, j)) => match eat(t, j, TokenKind::Assign) {
            Ok(k) => if moved(t, i, k) {
                match expr_list(t, k) {
                    Ok((values, m)) => Ok((SStmt::Assign { targets, values }, m)),
                    Err(e) => Err(e),
                }
            } else {
                Err(ParseError::Expected { expected: TokenKind::Assign, found: kind_at(t, j) })
            },
            Err(e) => Err(e),
        },
        Err(e) => Err(e),
    }
}

/// `expr then stmt_list` after `if` or `elseif`: the condition, the body and
/// the position after the body.
pub open spec fn arm(t: Seq<TokenView>, i: nat) -> Result<(SExpr, Seq<SStmt>, nat), ParseError>
    decreases t.len() - i, 0nat,
{
    match expr_at(t, 7, i) {
        Ok((c, j)) => match eat(t, j, TokenKind::Then) {
            Ok(k) => if moved(t, i, k) {
                match stmt_list(t, k) {
                    Ok((b, m)) => Ok((c, b, m)),
                    Err(e) => Err(e),
                }
            } else {
                Err(ParseError::Expected { expected: TokenKind::Then, found: kind_at(t, j) })
            },
            Err(e) => Err(e),
        },
        Err(e) => Err(e),
    }
}

/// The `elseif` arms after the arms `conds` and `bodies`.
pub open spec fn elseif_rest(t: Seq<TokenView>, conds: Seq<SExpr>, bodies: Seq<Seq<SStmt>>, i: nat)
    -> Result<(Seq<SExpr>, Seq<Seq<SStmt>>, nat), ParseError>
    decreases t.len() - i, 0nat,
{
    if kind_at(t, i) == TokenKind::Elseif && i < t.len() {
        match arm(t, i + 1) {
            Ok((c, b, j)) => if moved(t, i, j) {
                elseif_rest(t, conds.push(c), bodies.push(b), j)
            } else {
                Ok((conds.push(c), bodies.push(b), j))
            },
            Err(e) => Err(e),
        }
    } else {
        Ok((conds, bodies, i))
    }
}

/// `if`, its arms, an optional `else` and `end`.
pub open spec fn if_stmt(t: Seq<TokenView>, i: nat) -> Result<(SStmt, nat), ParseError>
    decreases t.len() - i, 1nat,
{
    if kind_at(t, i) == TokenKind::If && i < t.len() {
        match arm(t, i + 1) {
            Ok((cond, then_body, j)) => if moved(t, i, j) {
                match elseif_rest(t, Seq::empty(), Seq::empty(), j) {
                    Ok((elseif_conds, elseif_bodies, k)) => {
                        let tail = if kind_at(t, k) == TokenKind::Else && moved(t, i, k) {
                            match stmt_list(t, k + 1) {
                                Ok((b, m)) => Ok((b, m)),
                                Err(e) => Err(e),
                            }
                        } else {
                            Ok((Seq::empty(), k))
                        };
                        match tail {
                            Ok((else_body, m)) => match eat(t, m, TokenKind::End) {
                                Ok(n) => Ok((SStmt::If { cond, then_body, elseif_conds, elseif_bodies, else_body }, n)),
                                Err(e) => Err(e),
                            },
                            Err(e) => Err(e),
                        }
                    },
                    Err(e) => Err(e),
                }
            } else {
                Err(ParseError::Expected { expected: TokenKind::Then, found: kind_at(t, j) })
            },
            Err(e) => Err(e),
        }
    } else {
        Err(ParseError::Expected { expected: TokenKind::If, found: kind_at(t, i) })
    }
}

/// `while expr do stmt_list end`.
pub open spec fn while_stmt(t: Seq<TokenView>, i: nat) -> Result<(SStmt, nat), ParseError>
    decreases t.len() - i, 1nat,
{
    if kind_at(t, i) == TokenKind::While && i < t.len() {
        match expr_at(t, 7, i + 1) {
            Ok((cond, j)) => match eat(t, j, TokenKind::Do) {
                Ok(k) => if moved(t, i, k) {
                    match stmt_list(t, k) {
                        Ok((body, m)) => match eat(t, m, TokenKind::End) {
                            Ok(n) => Ok((SStmt::While { cond, body }, n)),
                            Err(e) => Err(e),
                        },
                        Err(e) => Err(e),
                    }
                } else {
                    Err(ParseError::Expected { expected: TokenKind::Do, found: kind_at(t, j) })
                },
                Err(e) => Err(e),
            },
            Err(e) => Err(e),
        }
    } else {
        Err(ParseError::Expected { expected: TokenKind::While, found: kind_at(t, i) })
    }
}

/// `function name ( [names] ) stmt_list end`.
pub open spec fn func_decl_stmt(t: Seq<TokenView>, i: nat) -> Result<(SStmt, nat), ParseError>
    decreases t.len() - i, 1nat,
{
    if kind_at(t, i) == TokenKind::Function && i < t.len() {
        match ident(t, i + 1) {
            Ok((name, j)) => match eat(t, j, TokenKind::Lpar) {
                Ok(k) => {
                    let params = if kind_at(t, k) == TokenKind::Rpar {
                        Ok((Seq::empty(), k))
                    } else {
                        ident_list(t, k)
                    };
                    match params {
                        Ok((params, m)) => match eat(t, m, TokenKind::Rpar) {
                            Ok(n) => if moved(t, i, n) {
                                match stmt_list(t, n) {
                                    Ok((body, p)) => match eat(t, p, TokenKind::End) {
                                        Ok(q) => Ok((SStmt::FuncDecl { name, params, body }, q)),
                                        Err(e) => Err(e),
                                    },
                                    Err(e) => Err(e),
                                }
                            } else {
                                Err(ParseError::Expected { expected: TokenKind::Rpar, found: kind_at(t, m) })
                            },
                            Err(e) => Err(e),
                        },
                        Err(e) => Err(e),
                    }
                },
                Err(e) => Err(e),
            },
            Err(e) => Err(e),
        }
    } else {
        Err(ParseError::Expected { expected: TokenKind::Function, found: kind_at(t, i) })
    }
}

/// A whole program: statements, then `Eof`.
pub open spec fn parse_program(t: Seq<TokenView>) -> Result<Seq<SStmt>, ParseError> {
    match stmt_list(t, 0) {
        Ok((b, j)) => if kind_at(t, j) == TokenKind::Eof {
            Ok(b)
        } else {
            Err(ParseError::Expected { expected: TokenKind::Eof, found: kind_at(t, j) })
        },
        Err(e) => Err(e),
    }
}


pub proof fn lemma_exprs_view_push(v: Seq<Expr>, e: Expr)
    ensures
        exprs_view(v.push(e)) == exprs_view(v).push(expr_view(e)),
{
    assert(v.push(e).subrange(0, v.len() as int) =~= v);
}

pub proof fn lemma_stmts_view_push(v: Seq<Stmt>, s: Stmt)
    ensures
        stmts_view(v.push(s)) == stmts_view(v).push(stmt_view(s)),
{
    assert(v.push(s).subrange(0, v.len() as int) =~= v);
}

pub proof fn lemma_bodies_view_push(v: Seq<Vec<Stmt>>, b: Vec<Stmt>)
    ensures
        bodies_view(v.push(b)) == bodies_view(v).push(stmts_view(b@)),
{
    assert(v.push(b).subrange(0, v.len() as int) =~= v);
}

pub proof fn lemma_names_view_push(v: Seq<Ident>, n: Ident)
    ensures
        names_view(v.push(n)) == names_view(v).push(n.name@),
{
    assert(names_view(v.push(n)) =~= names_view(v).push(n.name@));
}

/// `acc` in front of the statements of a result, or its error.
pub open spec fn prefix_stmts(acc: Seq<SStmt>, r: Result<(Seq<SStmt>, nat), ParseError>) -> Result<(Seq<SStmt>, nat), ParseError> {
    match r {
        Ok((rest, k)) => Ok((acc + rest, k)),
        Err(e) => Err(e),
    }
}

/// Turns a token sequence into statements.
pub struct Parser {
    toks: Vec<Token>,
}

impl Parser {
    pub closed spec fn wf(&self) -> bool {
        self.toks@.len() < usize::MAX
    }

    /// The tokens, as values.
    pub closed spec fn tokens(&self) -> Seq<TokenView> {
        tokens_view(self.toks@)
    }

    pub fn new(toks: Vec<Token>) -> (r: Parser)
        requires
            toks@.len() < usize::MAX,
        ensures
            r.wf(),
            r.tokens() == tokens_view(toks@),
    {
        Parser { toks }
    }

    /// The statements of the whole token sequence, which must end at `Eof`.
    pub fn parse(&mut self) -> (r: Result<Vec<Stmt>, ParseError>)
        requires
            old(self).wf(),
        ensures
            final(self).tokens() == old(self).tokens(),
            match r {
                Ok(b) => parse_program(old(self).tokens()) == Ok::<Seq<SStmt>, ParseError>(stmts_view(b@)),
                Err(e) => parse_program(old(self).tokens()) == Err::<Seq<SStmt>, ParseError>(e),
            },
    {
        match self.stmt_list(0) {
            Ok((b, j)) => {
                let k = self.kind(j);
                if k == TokenKind::Eof {
                    Ok(b)
                } else {
                    Err(ParseError::Expected { expected: TokenKind::Eof, found: k })
                }
            },
            Err(e) => Err(e),
        }
    }

    fn matches(&self, i: usize, k: TokenKind) -> (r: bool)
        ensures
            r == (kind_at(self.tokens(), i as nat) == k),
    {
        self.kind(i) == k
    }

    fn kind(&self, i: usize) -> (r: TokenKind)
        ensures
            r == kind_at(self.tokens(), i as nat),
    {
        if i < self.toks.len() {
            self.toks[i].kind
        } else {
            TokenKind::Eof
        }
    }

    fn text(&self, i: usize) -> (r: String)
        ensures
            r@ == text_at(self.tokens(), i as nat),
    {
        if i < self.toks.len() {
            match &self.toks[i].value {
                Some(v) => v.clone(),
                None => String::new(),
            }
        } else {
            String::new()
        }
    }

    fn eat(&self, i: usize, k: TokenKind) -> (r: Result<usize, ParseError>)
        requires
            self.wf(),
            k != TokenKind::Eof,
        ensures
            match r {
                Ok(j) => eat(self.tokens(), i as nat, k) == Ok::<nat, ParseError>(j as nat) && i < self.tokens().len()
                    && j == i + 1,
                Err(e) => eat(self.tokens(), i as nat, k) == Err::<nat, ParseError>(e),
            },
    {
        let found = self.kind(i);
        if found == k {
            Ok(i + 1)
        } else {
            Err(ParseError::Expected { expected: k, found })
        }
    }

    fn ident(&self, i: usize) -> (r: Result<(Ident, usize), ParseError>)
        requires
            self.wf(),
            i <= self.tokens().len(),
        ensures
            match r {
                Ok((n, j)) => ident(self.tokens(), i as nat) == Ok::<(Seq<char>, nat), ParseError>((n.name@, j as nat))
                    && moved(self.tokens(), i as nat, j as nat),
                Err(e) => ident(self.tokens(), i as nat) == Err::<(Seq<char>, nat), ParseError>(e),
            },
    {
        let name = self.text(i);
        match self.eat(i, TokenKind::Ident) {
            Ok(j) => Ok((Ident { name }, j)),
            Err(e) => Err(e),
        }
    }

    fn ident_list(&self, i: usize) -> (r: Result<(Vec<Ident>, usize), ParseError>)
        requires
            self.wf(),
            i <= self.tokens().len(),
        ensures
            match r {
                Ok((ns, j)) => ident_list(self.tokens(), i as nat) == Ok::<(Seq<Seq<char>>, nat), ParseError>((names_view(ns@), j as nat))
                    && moved(self.tokens(), i as nat, j as nat),
                Err(e) => ident_list(self.tokens(), i as nat) == Err::<(Seq<Seq<char>>, nat), ParseError>(e),
            },
    {
        let ghost t = self.tokens();
        let (first, mut j) = match self.ident(i) {
            Ok(x) => x,
            Err(e) => {
                return Err(e);
            },
        };
        let ghost n0 = first.name@;
        let mut res: Vec<Ident> = Vec::new();
        res.push(first);
        proof {
            assert(names_view(res@) =~= seq![n0]);
        }
        while self.matches(j, TokenKind::Comma)
            invariant
                self.wf(),
                t == self.tokens(),
                ident_list(t, i as nat) == idents_rest(t, names_view(res@), j as nat),
                moved(t, i as nat, j as nat),
            decreases t.len() - j,
        {
            match self.ident(j + 1) {
                Ok((n, k)) => {
                    proof {
                        lemma_names_view_push(res@, n);
                    }
                    res.push(n);
                    j = k;
                },
                Err(e) => {
                    return Err(e);
                },
            }
        }
        Ok((res, j))
    }

    fn expr_list(&self, i: usize) -> (r: Result<(Vec<Expr>, usize), ParseError>)
        requires
            self.wf(),
            i <= self.tokens().len(),
        ensures
            match r {
                Ok((es, j)) => expr_list(self.tokens(), i as nat) == Ok::<(Seq<SExpr>, nat), ParseError>((exprs_view(es@), j as nat))
                    && moved(self.tokens(), i as nat, j as nat),
                Err(e) => expr_list(self.tokens(), i as nat) == Err::<(Seq<SExpr>, nat), ParseError>(e),
            },
        decreases self.tokens().len() - i, 10nat,
    {
        let ghost t = self.tokens();
        let (first, mut j) = match self.expr_at(7, i) {
            Ok(x) => x,
            Err(e) => {
                return Err(e);
            },
        };
        let ghost e0 = expr_view(first);
        let mut res: Vec<Expr> = Vec::new();
        proof {
            lemma_exprs_view_push(res@, first);
        }
        res.push(first);
        proof {
            assert(exprs_view(res@) =~= seq![e0]);
        }
        while self.matches(j, TokenKind::Comma)
            invariant
                self.wf(),
                t == self.tokens(),
                expr_list(t, i as nat) == exprs_rest(t, exprs_view(res@), j as nat),
                moved(t, i as nat, j as nat),
            decreases t.len() - j,
        {
            match self.expr_at(7, j + 1) {
                Ok((e, k)) => {
                    proof {
                        lemma_exprs_view_push(res@, e);
                    }
                    res.push(e);
                    j = k;
                },
                Err(err) => {
                    return Err(err);
                },
            }
        }
        Ok((res, j))
    }

    /// An expression of precedence `level`, as `expr_at` describes.
    fn expr_at(&self, level: usize, i: usize) -> (r: Result<(Expr, usize), ParseError>)
        requires
            self.wf(),
            i <= self.tokens().len(),
            level <= 7,
        ensures
            match r {
                Ok((e, j)) => expr_at(self.tokens(), level as nat, i as nat) == Ok::<(SExpr, nat), ParseError>((expr_view(e), j as nat))
                    && moved(self.tokens(), i as nat, j as nat),
                Err(err) => expr_at(self.tokens(), level as nat, i as nat) == Err::<(SExpr, nat), ParseError>(err),
            },
        decreases self.tokens().len() - i, level + 2,
    {
        if level == 0 {
            let (f, j) = match self.factor(i) {
                Ok(x) => x,
                Err(e) => {
                    return Err(e);
                },
            };
            if self.matches(j, TokenKind::Pow) {
                match self.expr_at(0, j + 1) {
                    Ok((r, k)) => Ok((Expr::BinOp { op: TokenKind::Pow, left: Box::new(f), right: Box::new(r) }, k)),
                    Err(e) => Err(e),
                }
            } else {
                Ok((f, j))
            }
        } else if level == 1 {
            let op = self.kind(i);
            if op == TokenKind::Not || op == TokenKind::Len || op == TokenKind::Minus {
                match self.expr_at(1, i + 1) {
                    Ok((x, j)) => Ok((Expr::UnaryOp { op, node: Box::new(x) }, j)),
                    Err(e) => Err(e),
                }
            } else {
                self.expr_at(0, i)
            }
        } else if level == 4 {
            let (l, j) = match self.expr_at(3, i) {
                Ok(x) => x,
                Err(e) => {
                    return Err(e);
                },
            };
            if self.matches(j, TokenKind::Concat) {
                match self.expr_at(4, j + 1) {
                    Ok((r, k)) => Ok((Expr::BinOp { op: TokenKind::Concat, left: Box::new(l), right: Box::new(r) }, k)),
                    Err(e) => Err(e),
                }
            } else {
                Ok((l, j))
            }
        } else {
            let (l, j) = match self.expr_at(level - 1, i) {
                Ok(x) => x,
                Err(e) => {
                    return Err(e);
                },
            };
            self.left_rest(level, l, j, Ghost(i as nat))
        }
    }

    /// Whether `k` is an operator of the left-associative `level`.
    fn is_level_op(level: usize, k: TokenKind) -> (r: bool)
        ensures
            r == is_level_op(level as nat, k),
    {
        if level == 7 {
            k == TokenKind::Or
        } else if level == 6 {
            k == TokenKind::And
        } else if level == 5 {
            k == TokenKind::Lt || k == TokenKind::Gt || k == TokenKind::Le || k == TokenKind::Ge
                || k == TokenKind::Eq || k == TokenKind::UnEq
        } else if level == 3 {
            k == TokenKind::Plus || k == TokenKind::Minus
        } else if level == 2 {
            k == TokenKind::Mul || k == TokenKind::RealDiv || k == TokenKind::IntDiv || k == TokenKind::Mod
        } else {
            false
        }
    }

    /// The operators and operands of a left-associative level after its first operand.
    fn left_rest(&self, level: usize, left: Expr, i: usize, Ghost(start): Ghost<nat>) -> (r: Result<(Expr, usize), ParseError>)
        requires
            self.wf(),
            i <= self.tokens().len(),
            1 <= level <= 7,
            moved(self.tokens(), start, i as nat),
        ensures
            match r {
                Ok((e, j)) => left_rest(self.tokens(), level as nat, expr_view(left), i as nat) == Ok::<(SExpr, nat), ParseError>((expr_view(e), j as nat))
                    && moved(self.tokens(), start, j as nat),
                Err(err) => left_rest(self.tokens(), level as nat, expr_view(left), i as nat) == Err::<(SExpr, nat), ParseError>(err),
            },
        decreases self.tokens().len() - i, 0nat,
    {
        let ghost t = self.tokens();
        let mut node = left;
        let mut j = i;
        while Self::is_level_op(level, self.kind(j))
            invariant
                self.wf(),
                t == self.tokens(),
                1 <= level <= 7,
                moved(t, start, j as nat),
                i <= j,
                left_rest(t, level as nat, expr_view(left), i as nat) == left_rest(t, level as nat, expr_view(node), j as nat),
            decreases t.len() - j,
        {
            let op = self.kind(j);
            match self.expr_at(level - 1, j + 1) {
                Ok((r, k)) => {
                    node = Expr::BinOp { op, left: Box::new(node), right: Box::new(r) };
                    j = k;
                },
                Err(e) => {
                    return Err(e);
                },
            }
        }
        Ok((node, j))
    }

    /// A name, a literal, a parenthesised expression, or a call.
    fn factor(&self, i: usize) -> (r: Result<(Expr, usize), ParseError>)
        requires
            self.wf(),
            i <= self.tokens().len(),
        ensures
            match r {
                Ok((e, j)) => factor(self.tokens(), i as nat) == Ok::<(SExpr, nat), ParseError>((expr_view(e), j as nat))
                    && moved(self.tokens(), i as nat, j as nat),
                Err(err) => factor(self.tokens(), i as nat) == Err::<(SExpr, nat), ParseError>(err),
            },
        decreases self.tokens().len() - i, 1nat,
    {
        let k = self.kind(i);
        match k {
            TokenKind::Ident => {
                if self.matches(i + 1, TokenKind::Lpar) {
                    self.function_call(i)
                } else {
                    Ok((Expr::Ident(Ident { name: self.text(i) }), i + 1))
                }
            },
            TokenKind::Number => Ok((Expr::Number(self.text(i)), i + 1)),
            TokenKind::String => Ok((Expr::String(self.text(i)), i + 1)),
            TokenKind::True => Ok((Expr::Boolean(true), i + 1)),
            TokenKind::False => Ok((Expr::Boolean(false), i + 1)),
            TokenKind::Lpar => {
                match self.expr_at(7, i + 1) {
                    Ok((e, j)) => match self.eat(j, TokenKind::Rpar) {
                        Ok(k2) => Ok((e, k2)),
                        Err(err) => Err(err),
                    },
                    Err(err) => Err(err),
                }
            },
            _ => Err(ParseError::UnexpectedFactor { found: k }),
        }
    }

    /// A call; the name is at `i` and `(` follows it.
    fn function_call(&self, i: usize) -> (r: Result<(Expr, usize), ParseError>)
        requires
            self.wf(),
            i <= self.tokens().len(),
            kind_at(self.tokens(), i as nat) == TokenKind::Ident,
            kind_at(self.tokens(), (i + 1) as nat) == TokenKind::Lpar,
        ensures
            match r {
                Ok((e, j)) => call(self.tokens(), i as nat) == Ok::<(SExpr, nat), ParseError>((expr_view(e), j as nat))
                    && moved(self.tokens(), i as nat, j as nat),
                Err(err) => call(self.tokens(), i as nat) == Err::<(SExpr, nat), ParseError>(err),
            },
        decreases self.tokens().len() - i, 0nat,
    {
        let name = self.text(i);
        match self.expr_list(i + 2) {
            Ok((args, j)) => match self.eat(j, TokenKind::Rpar) {
                Ok(k) => Ok((Expr::FuncCall(FuncCall { ident: Ident { name }, args }), k)),
                Err(e) => Err(e),
            },
            Err(e) => Err(e),
        }
    }

    fn at_block_end(&self, i: usize) -> (r: bool)
        ensures
            r == ends_block(kind_at(self.tokens(), i as nat)),
    {
        let k = self.kind(i);
        k == TokenKind::Eof || k == TokenKind::Elseif || k == TokenKind::Else || k == TokenKind::End
    }

    /// Statements up to `Eof`, `elseif`, `else` or `end`.
    fn stmt_list(&self, i: usize) -> (r: Result<(Vec<Stmt>, usize), ParseError>)
        requires
            self.wf(),
            i <= self.tokens().len(),
        ensures
            match r {
                Ok((b, j)) => stmt_list(self.tokens(), i as nat) == Ok::<(Seq<SStmt>, nat), ParseError>((stmts_view(b@), j as nat))
                    && i <= j <= self.tokens().len(),
                Err(err) => stmt_list(self.tokens(), i as nat) == Err::<(Seq<SStmt>, nat), ParseError>(err),
            },
        decreases self.tokens().len() - i, 3nat,
    {
        let ghost t = self.tokens();
        let mut res: Vec<Stmt> = Vec::new();
        let mut j = i;
        while !self.at_block_end(j)
            invariant
                self.wf(),
                t == self.tokens(),
                i <= j,
                j == i || j <= t.len(),
                stmt_list(t, i as nat) == prefix_stmts(stmts_view(res@), stmt_list(t, j as nat)),
            decreases t.len() - j,
        {
            match self.stmt(j) {
                Ok((st, k)) => {
                    proof {
                        lemma_stmts_view_push(res@, st);
                        match stmt_list(t, k as nat) {
                            Ok((rest, m)) => {
                                assert(stmts_view(res@) + (seq![stmt_view(st)] + rest) =~= stmts_view(res@).push(stmt_view(st)) + rest);
                            },
                            Err(_) => {},
                        }
                    }
                    res.push(st);
                    j = k;
                },
                Err(e) => {
                    return Err(e);
                },
            }
        }
        proof {
            assert(stmts_view(res@) + Seq::<SStmt>::empty() =~= stmts_view(res@));
        }
        Ok((res, j))
    }

    /// One statement, chosen by its first token.
    fn stmt(&self, i: usize) -> (r: Result<(Stmt, usize), ParseError>)
        requires
            self.wf(),
            i <= self.tokens().len(),
        ensures
            match r {
                Ok((st, j)) => stmt(self.tokens(), i as nat) == Ok::<(SStmt, nat), ParseError>((stmt_view(st), j as nat))
                    && moved(self.tokens(), i as nat, j as nat),
                Err(err) => stmt(self.tokens(), i as nat) == Err::<(SStmt, nat), ParseError>(err),
            },
        decreases self.tokens().len() - i, 2nat,
    {
        let k = self.kind(i);
        match k {
            TokenKind::If => self.if_stmt(i),
            TokenKind::Ident => self.assign_stmt(i),
            TokenKind::While => self.while_stmt(i),
            TokenKind::Function => self.func_decl_stmt(i),
            _ => Err(ParseError::UnexpectedStatement { found: k }),
        }
    }

    /// `names = expr_list`.
    fn assign_stmt(&self, i: usize) -> (r: Result<(Stmt, usize), ParseError>)
        requires
            self.wf(),
            i <= self.tokens().len(),
        ensures
            match r {
                Ok((st, j)) => assign_stmt(self.tokens(), i as nat) == Ok::<(SStmt, nat), ParseError>((stmt_view(st), j as nat))
                    && moved(self.tokens(), i as nat, j as nat),
                Err(err) => assign_stmt(self.tokens(), i as nat) == Err::<(SStmt, nat), ParseError>(err),
            },
        decreases self.tokens().len() - i, 1nat,
    {
        let (ident_list, j) = match self.ident_list(i) {
            Ok(x) => x,
            Err(e) => {
                return Err(e);
            },
        };
        let k = match self.eat(j, TokenKind::Assign) {
            Ok(k) => k,
            Err(e) => {
                return Err(e);
            },
        };
        match self.expr_list(k) {
            Ok((expr_list, m)) => Ok((Stmt::Assign { ident_list, expr_list }, m)),
            Err(e) => Err(e),
        }
    }

    /// A condition, `then` and a body, after `if` or `elseif`.
    fn arm(&self, i: usize) -> (r: Result<(Expr, Vec<Stmt>, usize), ParseError>)
        requires
            self.wf(),
            i <= self.tokens().len(),
        ensures
            match r {
                Ok((c, b, j)) => arm(self.tokens(), i as nat) == Ok::<(SExpr, Seq<SStmt>, nat), ParseError>((expr_view(c), stmts_view(b@), j as nat))
                    && moved(self.tokens(), i as nat, j as nat),
                Err(err) => arm(self.tokens(), i as nat) == Err::<(SExpr, Seq<SStmt>, nat), ParseError>(err),
            },
        decreases self.tokens().len() - i, 0nat,
    {
        let (c, j) = match self.expr_at(7, i) {
            Ok(x) => x,
            Err(e) => {
                return Err(e);
            },
        };
        let k = match self.eat(j, TokenKind::Then) {
            Ok(k) => k,
            Err(e) => {
                return Err(e);
            },
        };
        match self.stmt_list(k) {
            Ok((b, m)) => Ok((c, b, m)),
            Err(e) => Err(e),
        }
    }

    /// `if`, its arms, an optional `else` and `end`.
    fn if_stmt(&self, i: usize) -> (r: Result<(Stmt, usize), ParseError>)
        requires
            self.wf(),
            i <= self.tokens().len(),
            kind_at(self.tokens(), i as nat) == TokenKind::If,
        ensures
            match r {
                Ok((st, j)) => if_stmt(self.tokens(), i as nat) == Ok::<(SStmt, nat), ParseError>((stmt_view(st), j as nat))
                    && moved(self.tokens(), i as nat, j as nat),
                Err(err) => if_stmt(self.tokens(), i as nat) == Err::<(SStmt, nat), ParseError>(err),
            },
        decreases self.tokens().len() - i, 1nat,
    {
        let ghost t = self.tokens();
        let (cond, if_body, mut j) = match self.arm(i + 1) {
            Ok(x) => x,
            Err(e) => {
                return Err(e);
            },
        };
        let mut elseif_conds: Vec<Expr> = Vec::new();
        let mut elseif_bodies: Vec<Vec<Stmt>> = Vec::new();
        let ghost j0 = j as nat;
        while self.matches(j, TokenKind::Elseif)
            invariant
                self.wf(),
                t == self.tokens(),
                moved(t, i as nat, j as nat),
                moved(t, i as nat, j0),
                kind_at(t, i as nat) == TokenKind::If,
                arm(t, (i + 1) as nat) == Ok::<(SExpr, Seq<SStmt>, nat), ParseError>((expr_view(cond), stmts_view(if_body@), j0)),
                elseif_rest(t, Seq::empty(), Seq::empty(), j0)
                    == elseif_rest(t, exprs_view(elseif_conds@), bodies_view(elseif_bodies@), j as nat),
            decreases t.len() - j,
        {
            match self.arm(j + 1) {
                Ok((c, b, k)) => {
                    proof {
                        lemma_exprs_view_push(elseif_conds@, c);
                        lemma_bodies_view_push(elseif_bodies@, b);
                        assert(elseif_rest(t, exprs_view(elseif_conds@), bodies_view(elseif_bodies@), j as nat)
                            == elseif_rest(t, exprs_view(elseif_conds@).push(expr_view(c)),
                                bodies_view(elseif_bodies@).push(stmts_view(b@)), k as nat));
                    }
                    elseif_conds.push(c);
                    elseif_bodies.push(b);
                    j = k;
                },
                Err(e) => {
                    return Err(e);
                },
            }
        }
        let mut else_body: Vec<Stmt> = Vec::new();
        if self.matches(j, TokenKind::Else) {
            match self.stmt_list(j + 1) {
                Ok((b, m)) => {
                    else_body = b;
                    j = m;
                },
                Err(e) => {
                    return Err(e);
                },
            }
        }
        match self.eat(j, TokenKind::End) {
            Ok(n) => Ok((Stmt::If { cond, if_body, elseif_conds, elseif_bodies, else_body }, n)),
            Err(e) => Err(e),
        }
    }

    /// `while expr do stmt_list end`.
    fn while_stmt(&self, i: usize) -> (r: Result<(Stmt, usize), ParseError>)
        requires
            self.wf(),
            i <= self.tokens().len(),
            kind_at(self.tokens(), i as nat) == TokenKind::While,
        ensures
            match r {
                Ok((st, j)) => while_stmt(self.tokens(), i as nat) == Ok::<(SStmt, nat), ParseError>((stmt_view(st), j as nat))
                    && moved(self.tokens(), i as nat, j as nat),
                Err(err) => while_stmt(self.tokens(), i as nat) == Err::<(SStmt, nat), ParseError>(err),
            },
        decreases self.tokens().len() - i, 1nat,
    {
        let (cond, j) = match self.expr_at(7, i + 1) {
            Ok(x) => x,
            Err(e) => {
                return Err(e);
            },
        };
        let k = match self.eat(j, TokenKind::Do) {
            Ok(k) => k,
            Err(e) => {
                return Err(e);
            },
        };
        let (body, m) = match self.stmt_list(k) {
            Ok(x) => x,
            Err(e) => {
                return Err(e);
            },
        };
        match self.eat(m, TokenKind::End) {
            Ok(n) => Ok((Stmt::While { cond, body }, n)),
            Err(e) => Err(e),
        }
    }

    /// `function name ( [names] ) stmt_list end`.
    fn func_decl_stmt(&self, i: usize) -> (r: Result<(Stmt, usize), ParseError>)
        requires
            self.wf(),
            i <= self.tokens().len(),
            kind_at(self.tokens(), i as nat) == TokenKind::Function,
        ensures
            match r {
                Ok((st, j)) => func_decl_stmt(self.tokens(), i as nat) == Ok::<(SStmt, nat), ParseError>((stmt_view(st), j as nat))
                    && moved(self.tokens(), i as nat, j as nat),
                Err(err) => func_decl_stmt(self.tokens(), i as nat) == Err::<(SStmt, nat), ParseError>(err),
            },
        decreases self.tokens().len() - i, 1nat,
    {
        let (ident, j) = match self.ident(i + 1) {
            Ok(x) => x,
            Err(e) => {
                return Err(e);
            },
        };
        let k = match self.eat(j, TokenKind::Lpar) {
            Ok(k) => k,
            Err(e) => {
                return Err(e);
            },
        };
        let (args, m) = if self.matches(k, TokenKind::Rpar) {
            let none: Vec<Ident> = Vec::new();
            proof {
                assert(names_view(none@) =~= Seq::<Seq<char>>::empty());
            }
            (none, k)
        } else {
            match self.ident_list(k) {
                Ok(x) => x,
                Err(e) => {
                    return Err(e);
                },
            }
        };
        let n = match self.eat(m, TokenKind::Rpar) {
            Ok(n) => n,
            Err(e) => {
                return Err(e);
            },
        };
        let (body, p) = match self.stmt_list(n) {
            Ok(x) => x,
            Err(e) => {
                return Err(e);
            },
        };
        match self.eat(p, TokenKind::End) {
            Ok(q) => Ok((Stmt::FuncDecl(FuncDecl { ident, args, body }), q)),
            Err(e) => Err(e),
        }
    }
}

} // verus!
