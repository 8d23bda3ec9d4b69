use vstd::prelude::*;

verus! {

/// The kinds of token produced by the lexer.
#[derive(Debug, Clone, Copy, PartialEq, Eq, Structural)]
pub enum TokenKind {
    Number,
    Ident,
    String,
    Plus,
    Minus,
    Mul,
    Pow,
    RealDiv,
    IntDiv,
    Mod,
    Concat,
    Len,
    Lpar,
    Rpar,
    Lsqr,
    Rsqr,
    Lbrc,
    Rbrc,
    Dot,
    Assign,
    Arg,
    Comma,
    Colon,
    Semi,
    Eq,
    UnEq,
    Lt,
    Le,
    Gt,
    Ge,
    If,
    Else,
    Elseif,
    Then,
    Do,
    While,
    End,
    Function,
    True,
    False,
    And,
    Not,
    Or,
    Eof,
}

/// A position in the source text: 1-based line and column.
#[derive(Debug, Clone, Copy, PartialEq, Eq, Structural)]
pub struct Location {
    pub line: i32,
    pub column: i32,
}

impl Location {
    /// The location of the first character of a text.
    pub fn new() -> (r: Location)
        ensures
            r.line == 1,
            r.column == 1,
    {
        Location { line: 1, column: 1 }
    }

    /// Moves one column to the right.
    pub fn advance(&mut self)
        requires
            old(self).column < i32::MAX,
        ensures
            final(self).line == old(self).line,
            final(self).column == old(self).column + 1,
    {
        self.column = self.column + 1;
    }

    /// Moves to the first column of the next line.
    pub fn new_line(&mut self)
        requires
            old(self).line < i32::MAX,
        ensures
            final(self).line == old(self).line + 1,
            final(self).column == 1,
    {
        self.line = self.line + 1;
        self.column = 1;
    }
}

/// A token: its kind, its text for numbers, identifiers and strings, and
/// where the lexer stood when it emitted it.
#[derive(Debug, PartialEq)]
pub struct Token {
    pub kind: TokenKind,
    pub value: Option<String>,
    pub loc: Location,
}

/// What a token stands for, with its text as a sequence of characters.
pub ghost struct TokenView {
    pub kind: TokenKind,
    pub value: Option<Seq<char>>,
    pub loc: Location,
}

impl View for Token {
    type V = TokenView;

    open spec fn view(&self) -> TokenView {
        TokenView {
            kind: self.kind,
            value: match self.value {
                Some(s) => Some(s@),
                None => None,
            },
            loc: self.loc,
        }
    }
}

/// The text a token carries, empty where it carries none.
pub open spec fn token_text(t: TokenView) -> Seq<char> {
    match t.value {
        Some(s) => s,
        None => Seq::empty(),
    }
}

} // verus!
