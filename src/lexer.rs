use vstd::prelude::*;
use crate::token::{Location, Token, TokenKind, TokenView};
use vstd::string::StringExecFns;

verus! {

/// The longest source text, in characters, that the lexer accepts; it keeps
/// line and column numbers within `i32`.
pub const MAX_TEXT: usize = 0x7fff_0000;

/// Whether a character has the Unicode `White_Space` property: tab through
/// carriage return, space, U+0085, U+00A0, U+1680, U+2000 through U+200A,
/// U+2028, U+2029, U+202F, U+205F and U+3000.
pub open spec fn is_white_space(c: char) -> bool {
    let n = c as u32;
    (0x9 <= n && n <= 0xd) || n == 0x20 || n == 0x85 || n == 0xa0 || n == 0x1680 || (0x2000 <= n && n <= 0x200a)
        || n == 0x2028 || n == 0x2029 || n == 0x202f || n == 0x205f || n == 0x3000
}

/// Whether a character has the Unicode `Alphabetic` property.
pub uninterp spec fn is_alphabetic(c: char) -> bool;

/// Whether a character has a Unicode `Numeric_Type` (`Nd`, `Nl` or `No`).
pub uninterp spec fn is_numeric(c: char) -> bool;

/// Relies on `char::is_whitespace`, which tells the Unicode `White_Space` property.
#[verifier::external_body]
fn char_is_whitespace(c: char) -> (r: bool)
    ensures
        r == is_white_space(c),
{
    c.is_whitespace()
}

/// Relies on `char::is_numeric`, which tells whether the character is a Unicode number.
#[verifier::external_body]
fn char_is_numeric(c: char) -> (r: bool)
    ensures
        r == is_numeric(c),
{
    c.is_numeric()
}

/// Relies on `char::is_alphabetic`, which tells the Unicode `Alphabetic` property.
#[verifier::external_body]
fn char_is_alphabetic(c: char) -> (r: bool)
    ensures
        r == is_alphabetic(c),
{
    c.is_alphabetic()
}

/// Relies on `str::chars` collected into a `Vec`: the characters of the text, in order.
#[verifier::external_body]
pub(crate) fn chars_of(s: &str) -> (r: Vec<char>)
    ensures
        r@ == s@,
{
    s.chars().collect()
}

/// Relies on `String`'s `FromIterator<&char>`: the characters `start..end`, in order.
#[verifier::external_body]
pub(crate) fn string_of(cs: &Vec<char>, start: usize, end: usize) -> (r: String)
    requires
        start <= end <= cs@.len(),
    ensures
        r@ == cs@.subrange(start as int, end as int),
{
    cs[start..end].iter().collect()
}

/// An error that stops the lexer.
#[derive(Debug, Clone, Copy, PartialEq, Eq, Structural)]
pub enum LexError {
    /// A character that starts no token, or `~` without `=`.
    UnexpectedChar { ch: char, loc: Location },
    /// A short or long string that the text ends inside of.
    UnterminatedString { loc: Location },
    /// `[` and `=`s that are not followed by a second `[`.
    MalformedLongBracket { loc: Location },
}

pub open spec fn is_newline(c: char) -> bool {
    c == '\r' || c == '\n'
}

pub open spec fn is_digit(c: char) -> bool {
    '0' <= c && c <= '9'
}

/// A character that may follow the first letter of a word: alphanumeric
/// (alphabetic or numeric, as `char::is_alphanumeric` puts it) or `_`.
pub open spec fn is_word_char(c: char) -> bool {
    is_alphabetic(c) || is_numeric(c) || c == '_'
}

/// The location of position `i` of `s`: each step moves one column right,
/// or to column 1 of the next line when it lands on CR or LF. Every CR and LF
/// counts, the first character included.
pub open spec fn loc_at(s: Seq<char>, i: nat) -> Location
    decreases i,
{
    if i == 0 {
        if 0 < s.len() && is_newline(s[0]) {
            Location { line: 2, column: 1 }
        } else {
            Location { line: 1, column: 1 }
        }
    } else {
        let p = loc_at(s, (i - 1) as nat);
        if i < s.len() && is_newline(s[i as int]) {
            Location { line: (p.line + 1) as i32, column: 1 }
        } else {
            Location { line: p.line, column: (p.column + 1) as i32 }
        }
    }
}

/// The first position at or after `i` whose character fails `p`, or the end.
pub open spec fn span(s: Seq<char>, i: nat, p: spec_fn(char) -> bool) -> nat
    decreases s.len() - i,
{
    if i < s.len() && p(s[i as int]) {
        span(s, i + 1, p)
    } else {
        i
    }
}

/// Where a number that starts at `i` ends: digits, then optionally `.` and digits.
pub open spec fn number_end(s: Seq<char>, i: nat) -> nat {
    let k = span(s, i, |c: char| is_digit(c));
    if k < s.len() && s[k as int] == '.' {
        span(s, k + 1, |c: char| is_digit(c))
    } else {
        k
    }
}

/// The keyword that a word spells, if any.
pub open spec fn keyword_of(w: Seq<char>) -> Option<TokenKind> {
    if w == "if"@ {
        Some(TokenKind::If)
    } else if w == "else"@ {
        Some(TokenKind::Else)
    } else if w == "elseif"@ {
        Some(TokenKind::Elseif)
    } else if w == "then"@ {
        Some(TokenKind::Then)
    } else if w == "do"@ {
        Some(TokenKind::Do)
    } else if w == "while"@ {
        Some(TokenKind::While)
    } else if w == "end"@ {
        Some(TokenKind::End)
    } else if w == "function"@ {
        Some(TokenKind::Function)
    } else if w == "true"@ {
        Some(TokenKind::True)
    } else if w == "false"@ {
        Some(TokenKind::False)
    } else if w == "and"@ {
        Some(TokenKind::And)
    } else if w == "not"@ {
        Some(TokenKind::Not)
    } else if w == "or"@ {
        Some(TokenKind::Or)
    } else {
        None
    }
}

/// Whether a long string of level `n` closes at `k`: `]`, `n` times `=`, `]`.
pub open spec fn closes_at(s: Seq<char>, k: nat, n: nat) -> bool {
    &&& k + n + 1 < s.len()
    &&& s[k as int] == ']'
    &&& forall|j: int| 1 <= j <= n ==> #[trigger] s[k + j] == '='
    &&& s[(k + n + 1) as int] == ']'
}

/// The first position at or after `k` where a long string of level `n` closes.
pub open spec fn find_close(s: Seq<char>, k: nat, n: nat) -> Option<nat>
    decreases s.len() - k,
{
    if k >= s.len() {
        None
    } else if closes_at(s, k, n) {
        Some(k)
    } else {
        find_close(s, k + 1, n)
    }
}

/// A long string whose opening `[` stands just before `p`: its contents and
/// the position after its closing bracket.
pub open spec fn long_string_at(s: Seq<char>, p: nat) -> Result<(Seq<char>, nat), LexError> {
    let e = span(s, p, |c: char| c == '=');
    let n = (e - p) as nat;
    if e < s.len() && s[e as int] == '[' {
        match find_close(s, e + 1, n) {
            Some(k) => Ok((s.subrange(e + 1 as int, k as int), k + n + 2)),
            None => Err(LexError::UnterminatedString { loc: loc_at(s, s.len()) }),
        }
    } else {
        Err(LexError::MalformedLongBracket { loc: loc_at(s, e) })
    }
}

/// A token without text.
pub open spec fn bare(kind: TokenKind, loc: Location) -> TokenView {
    TokenView { kind, value: None, loc }
}

/// What the lexer does at a position that holds no white space.
pub ghost enum Scan {
    /// A token, and the position after it.
    Emit(TokenView, nat),
    Fail(LexError),
}

/// A one-character token, or one of two characters when the next one is `second`.
pub open spec fn one_or_two(s: Seq<char>, i: nat, second: char, one: TokenKind, two: TokenKind) -> Scan {
    if i + 1 < s.len() && s[i + 1 as int] == second {
        Scan::Emit(bare(two, loc_at(s, i + 1)), i + 2)
    } else {
        Scan::Emit(bare(one, loc_at(s, i)), i + 1)
    }
}

/// The kind of a token of one character that no longer token starts with.
pub open spec fn single_kind(c: char) -> Option<TokenKind> {
    if c == ']' {
        Some(TokenKind::Rsqr)
    } else if c == '(' {
        Some(TokenKind::Lpar)
    } else if c == ')' {
        Some(TokenKind::Rpar)
    } else if c == '{' {
        Some(TokenKind::Lbrc)
    } else if c == '}' {
        Some(TokenKind::Rbrc)
    } else if c == '+' {
        Some(TokenKind::Plus)
    } else if c == '-' {
        Some(TokenKind::Minus)
    } else if c == '*' {
        Some(TokenKind::Mul)
    } else if c == '^' {
        Some(TokenKind::Pow)
    } else if c == '%' {
        Some(TokenKind::Mod)
    } else if c == '#' {
        Some(TokenKind::Len)
    } else if c == ',' {
        Some(TokenKind::Comma)
    } else if c == ':' {
        Some(TokenKind::Colon)
    } else if c == ';' {
        Some(TokenKind::Semi)
    } else {
        None
    }
}

/// The token that starts at `i`.
pub open spec fn scan(s: Seq<char>, i: nat) -> Scan {
    let c = s[i as int];
    if is_digit(c) {
        let j = number_end(s, i);
        Scan::Emit(TokenView { kind: TokenKind::Number, value: Some(s.subrange(i as int, j as int)), loc: loc_at(s, j) }, j)
    } else if is_alphabetic(c) {
        let j = span(s, i, |c: char| is_word_char(c));
        let w = s.subrange(i as int, j as int);
        match keyword_of(w) {
            Some(k) => Scan::Emit(bare(k, loc_at(s, j)), j),
            None => Scan::Emit(TokenView { kind: TokenKind::Ident, value: Some(w), loc: loc_at(s, j) }, j),
        }
    } else if c == '\'' || c == '"' {
        let k = span(s, i + 1, |d: char| d != c);
        if k < s.len() {
            Scan::Emit(TokenView { kind: TokenKind::String, value: Some(s.subrange(i + 1 as int, k as int)), loc: loc_at(s, k + 1) }, k + 1)
        } else {
            Scan::Fail(LexError::UnterminatedString { loc: loc_at(s, k) })
        }
    } else if c == '[' {
        if i + 1 < s.len() && (s[i + 1 as int] == '=' || s[i + 1 as int] == '[') {
            match long_string_at(s, i + 1) {
                Ok((v, j)) => Scan::Emit(TokenView { kind: TokenKind::String, value: Some(v), loc: loc_at(s, j) }, j),
                Err(e) => Scan::Fail(e),
            }
        } else {
            Scan::Emit(bare(TokenKind::Lsqr, loc_at(s, i)), i + 1)
        }
    } else if c == '/' {
        one_or_two(s, i, '/', TokenKind::RealDiv, TokenKind::IntDiv)
    } else if c == '.' {
        if i + 1 < s.len() && s[i + 1 as int] == '.' {
            one_or_two(s, i + 1, '.', TokenKind::Concat, TokenKind::Arg)
        } else {
            Scan::Emit(bare(TokenKind::Dot, loc_at(s, i)), i + 1)
        }
    } else if c == '=' {
        one_or_two(s, i, '=', TokenKind::Assign, TokenKind::Eq)
    } else if c == '<' {
        one_or_two(s, i, '=', TokenKind::Lt, TokenKind::Le)
    } else if c == '>' {
        one_or_two(s, i, '=', TokenKind::Gt, TokenKind::Ge)
    } else if c == '~' {
        if i + 1 < s.len() && s[i + 1 as int] == '=' {
            Scan::Emit(bare(TokenKind::UnEq, loc_at(s, i + 1)), i + 2)
        } else {
            Scan::Fail(LexError::UnexpectedChar { ch: c, loc: loc_at(s, i) })
        }
    } else {
        match single_kind(c) {
            Some(k) => Scan::Emit(bare(k, loc_at(s, i)), i + 1),
            None => Scan::Fail(LexError::UnexpectedChar { ch: c, loc: loc_at(s, i) }),
        }
    }
}

/// `ts` in front of the tokens of a result, or its error.
pub open spec fn prepend(ts: Seq<TokenView>, r: Result<Seq<TokenView>, LexError>) -> Result<Seq<TokenView>, LexError> {
    match r {
        Ok(rest) => Ok(ts + rest),
        Err(e) => Err(e),
    }
}

/// The tokens of `s` from position `i` on, ended by `Eof`, or the first error.
pub open spec fn lex_from(s: Seq<char>, i: nat) -> Result<Seq<TokenView>, LexError>
    decreases s.len() - i,
{
    if i >= s.len() {
        Ok(seq![bare(TokenKind::Eof, loc_at(s, i))])
    } else if is_white_space(s[i as int]) {
        lex_from(s, i + 1)
    } else {
        match scan(s, i) {
            Scan::Emit(t, j) => {
                proof {
                    lemma_scan_advances(s, i);
                }
                prepend(seq![t], lex_from(s, j))
            },
            Scan::Fail(e) => Err(e),
        }
    }
}

/// The tokens of a whole text.
pub open spec fn lex(s: Seq<char>) -> Result<Seq<TokenView>, LexError> {
    lex_from(s, 0)
}

/// The views of a sequence of tokens.
pub open spec fn tokens_view(ts: Seq<Token>) -> Seq<TokenView> {
    ts.map_values(|t: Token| t@)
}

pub proof fn lemma_span_bounds(s: Seq<char>, i: nat, p: spec_fn(char) -> bool)
    ensures
        i <= span(s, i, p),
        i <= s.len() ==> span(s, i, p) <= s.len(),
        forall|j: int| i <= j < span(s, i, p) ==> p(#[trigger] s[j]),
        span(s, i, p) < s.len() ==> !p(s[span(s, i, p) as int]),
    decreases s.len() - i,
{
    if i < s.len() && p(s[i as int]) {
        lemma_span_bounds(s, i + 1, p);
    }
}

pub proof fn lemma_find_close_bounds(s: Seq<char>, k: nat, n: nat)
    ensures
        find_close(s, k, n) matches Some(j) ==> k <= j && closes_at(s, j, n),
    decreases s.len() - k,
{
    if k < s.len() && !closes_at(s, k, n) {
        lemma_find_close_bounds(s, k + 1, n);
    }
}

/// Each token takes at least one character, and none past the end.
pub proof fn lemma_scan_advances(s: Seq<char>, i: nat)
    requires
        i < s.len(),
    ensures
        scan(s, i) matches Scan::Emit(_, j) ==> i < j <= s.len(),
{
    let c = s[i as int];
    lemma_span_bounds(s, i, |c: char| is_digit(c));
    let k = span(s, i, |c: char| is_digit(c));
    if k < s.len() {
        lemma_span_bounds(s, k + 1, |c: char| is_digit(c));
    }
    lemma_span_bounds(s, i, |c: char| is_word_char(c));
    lemma_span_bounds(s, i + 1, |d: char| d != c);
    if i + 1 < s.len() {
        lemma_span_bounds(s, i + 1, |c: char| c == '=');
        let e = span(s, i + 1, |c: char| c == '=');
        lemma_find_close_bounds(s, e + 1, (e - (i + 1)) as nat);
    }
}

/// Lines and columns grow by at most one per position.
pub proof fn lemma_loc_bounds(s: Seq<char>, i: nat)
    requires
        i < MAX_TEXT + 8,
    ensures
        1 <= loc_at(s, i).line <= i + 2,
        1 <= loc_at(s, i).column <= i + 1,
    decreases i,
{
    if i > 0 {
        lemma_loc_bounds(s, (i - 1) as nat);
    }
}


fn same_text(a: &String, b: &str) -> (r: bool)
    ensures
        r == (a@ == b@),
{
    let t = String::from_str(b);
    *a == t
}

fn keyword_kind(w: &String) -> (r: Option<TokenKind>)
    ensures
        r == keyword_of(w@),
{
    if same_text(w, "if") {
        Some(TokenKind::If)
    } else if same_text(w, "else") {
        Some(TokenKind::Else)
    } else if same_text(w, "elseif") {
        Some(TokenKind::Elseif)
    } else if same_text(w, "then") {
        Some(TokenKind::Then)
    } else if same_text(w, "do") {
        Some(TokenKind::Do)
    } else if same_text(w, "while") {
        Some(TokenKind::While)
    } else if same_text(w, "end") {
        Some(TokenKind::End)
    } else if same_text(w, "function") {
        Some(TokenKind::Function)
    } else if same_text(w, "true") {
        Some(TokenKind::True)
    } else if same_text(w, "false") {
        Some(TokenKind::False)
    } else if same_text(w, "and") {
        Some(TokenKind::And)
    } else if same_text(w, "not") {
        Some(TokenKind::Not)
    } else if same_text(w, "or") {
        Some(TokenKind::Or)
    } else {
        None
    }
}

fn single_kind_of(c: char) -> (r: Option<TokenKind>)
    ensures
        r == single_kind(c),
{
    match c {
        ']' => Some(TokenKind::Rsqr),
        '(' => Some(TokenKind::Lpar),
        ')' => Some(TokenKind::Rpar),
        '{' => Some(TokenKind::Lbrc),
        '}' => Some(TokenKind::Rbrc),
        '+' => Some(TokenKind::Plus),
        '-' => Some(TokenKind::Minus),
        '*' => Some(TokenKind::Mul),
        '^' => Some(TokenKind::Pow),
        '%' => Some(TokenKind::Mod),
        '#' => Some(TokenKind::Len),
        ',' => Some(TokenKind::Comma),
        ':' => Some(TokenKind::Colon),
        ';' => Some(TokenKind::Semi),
        _ => None,
    }
}

fn is_word(c: char) -> (r: bool)
    ensures
        r == is_word_char(c),
{
    char_is_alphabetic(c) || char_is_numeric(c) || c == '_'
}

fn is_digit_char(c: char) -> (r: bool)
    ensures
        r == is_digit(c),
{
    '0' <= c && c <= '9'
}

/// Turns a text into tokens, one character at a time.
pub struct Lexer {
    text: Vec<char>,
    pos: usize,
    loc: Location,
}

impl Lexer {
    /// The characters of the text.
    pub closed spec fn source(&self) -> Seq<char> {
        self.text@
    }

    /// The position of the current character.
    pub closed spec fn position(&self) -> nat {
        self.pos as nat
    }

    pub closed spec fn wf(&self) -> bool {
        &&& self.pos <= self.text@.len()
        &&& self.text@.len() < MAX_TEXT
        &&& self.loc == loc_at(self.text@, self.pos as nat)
    }

    /// A lexer at the start of `text`.
    pub fn new(text: &str) -> (r: Lexer)
        requires
            text@.len() < MAX_TEXT,
        ensures
            r.wf(),
            r.source() == text@,
            r.position() == 0,
    {
        let text = chars_of(text);
        let mut loc = Location::new();
        if text.len() > 0 && (text[0] == '\r' || text[0] == '\n') {
            loc.new_line();
        }
        Lexer { text, pos: 0, loc }
    }

    /// All tokens from the current position to the end of the text, ended
    /// by `Eof`, or the first lexical error.
    pub fn analyze(&mut self) -> (r: Result<Vec<Token>, LexError>)
        requires
            old(self).wf(),
        ensures
            final(self).wf(),
            final(self).source() == old(self).source(),
            match r {
                Ok(ts) => lex_from(old(self).source(), old(self).position()) == Ok::<Seq<TokenView>, LexError>(tokens_view(ts@)),
                Err(e) => lex_from(old(self).source(), old(self).position()) == Err::<Seq<TokenView>, LexError>(e),
            },
    {
        let ghost s = self.text@;
        let ghost start = self.pos as nat;
        let mut res: Vec<Token> = Vec::new();
        while self.pos < self.text.len()
            invariant
                self.wf(),
                self.text@ == s,
                s == old(self).text@,
                start == old(self).pos,
                lex_from(s, start) == prepend(tokens_view(res@), lex_from(s, self.pos as nat)),
            decreases s.len() - self.pos,
        {
            let ch = self.text[self.pos];
            if char_is_whitespace(ch) {
                self.skip_whitespace();
            } else {
                let ghost i = self.pos as nat;
                match self.next_token() {
                    Ok(t) => {
                        proof {
                            lemma_scan_advances(s, i);
                            assert(tokens_view(res@.push(t)) =~= tokens_view(res@) + seq![t@]);
                            match lex_from(s, self.pos as nat) {
                                Ok(rest) => {
                                    assert(tokens_view(res@) + (seq![t@] + rest) =~= tokens_view(res@)
                                        + seq![t@] + rest);
                                },
                                Err(_) => {},
                            }
                        }
                        res.push(t);
                    },
                    Err(e) => {
                        return Err(e);
                    },
                }
            }
        }
        let eof = Token { kind: TokenKind::Eof, value: None, loc: self.loc };
        proof {
            assert(tokens_view(res@.push(eof)) =~= tokens_view(res@) + seq![eof@]);
        }
        res.push(eof);
        Ok(res)
    }

    /// The token at the current position, which holds no white space.
    fn next_token(&mut self) -> (r: Result<Token, LexError>)
        requires
            old(self).wf(),
            old(self).pos < old(self).text@.len(),
            !is_white_space(old(self).text@[old(self).pos as int]),
        ensures
            final(self).wf(),
            final(self).text@ == old(self).text@,
            match r {
                Ok(t) => scan(old(self).text@, old(self).pos as nat) == Scan::Emit(t@, final(self).pos as nat),
                Err(e) => scan(old(self).text@, old(self).pos as nat) == Scan::Fail(e),
            },
    {
        let ghost s = self.text@;
        let ghost i = self.pos as nat;
        let ch = self.text[self.pos];
        if is_digit_char(ch) {
            let value = self.get_number();
            return Ok(self.make_token(TokenKind::Number, Some(value)));
        }
        if char_is_alphabetic(ch) {
            let ident = self.get_ident();
            let t = match keyword_kind(&ident) {
                Some(k) => self.make_token(k, None),
                None => self.make_token(TokenKind::Ident, Some(ident)),
            };
            return Ok(t);
        }
        if ch == '\'' || ch == '"' {
            return match self.get_qte_string(ch) {
                Ok(value) => Ok(self.make_token(TokenKind::String, Some(value))),
                Err(e) => Err(e),
            };
        }
        let kind = match ch {
            '[' => {
                match self.peek() {
                    Some(next) if next == '=' || next == '[' => {
                        self.advance();
                        return match self.get_long_string() {
                            Ok(value) => Ok(self.make_token(TokenKind::String, Some(value))),
                            Err(e) => Err(e),
                        };
                    },
                    _ => TokenKind::Lsqr,
                }
            },
            '/' => {
                if self.peek() == Some('/') {
                    self.advance();
                    TokenKind::IntDiv
                } else {
                    TokenKind::RealDiv
                }
            },
            '.' => {
                if self.peek() == Some('.') {
                    self.advance();
                    if self.peek() == Some('.') {
                        self.advance();
                        TokenKind::Arg
                    } else {
                        TokenKind::Concat
                    }
                } else {
                    TokenKind::Dot
                }
            },
            '=' => {
                if self.peek() == Some('=') {
                    self.advance();
                    TokenKind::Eq
                } else {
                    TokenKind::Assign
                }
            },
            '~' => {
                if self.peek() == Some('=') {
                    self.advance();
                    TokenKind::UnEq
                } else {
                    return Err(LexError::UnexpectedChar { ch, loc: self.loc });
                }
            },
            '<' => {
                if self.peek() == Some('=') {
                    self.advance();
                    TokenKind::Le
                } else {
                    TokenKind::Lt
                }
            },
            '>' => {
                if self.peek() == Some('=') {
                    self.advance();
                    TokenKind::Ge
                } else {
                    TokenKind::Gt
                }
            },
            _ => {
                match single_kind_of(ch) {
                    Some(k) => k,
                    None => {
                        return Err(LexError::UnexpectedChar { ch, loc: self.loc });
                    },
                }
            },
        };
        let t = self.make_token(kind, None);
        self.advance();
        Ok(t)
    }

    /// Moves to the next character and keeps the location in step.
    fn advance(&mut self)
        requires
            old(self).wf(),
            old(self).pos < old(self).text@.len(),
        ensures
            final(self).wf(),
            final(self).text@ == old(self).text@,
            final(self).pos == old(self).pos + 1,
    {
        proof {
            lemma_loc_bounds(self.text@, self.pos as nat);
        }
        self.pos = self.pos + 1;
        if self.pos < self.text.len() && (self.text[self.pos] == '\r' || self.text[self.pos] == '\n') {
            self.loc.new_line();
        } else {
            self.loc.advance();
        }
    }

    /// The character after the current one.
    fn peek(&self) -> (r: Option<char>)
        requires
            self.wf(),
        ensures
            r == (if self.pos + 1 < self.text@.len() {
                Some(self.text@[self.pos + 1])
            } else {
                None::<char>
            }),
    {
        if self.pos + 1 < self.text.len() {
            Some(self.text[self.pos + 1])
        } else {
            None
        }
    }

    /// A token at the current location.
    fn make_token(&self, kind: TokenKind, value: Option<String>) -> (r: Token)
        ensures
            r.kind == kind,
            r.value == value,
            r.loc == self.loc,
    {
        Token { kind, value, loc: self.loc }
    }

    /// Moves past the white space at the current position; the tokens from
    /// there on stay the same.
    fn skip_whitespace(&mut self)
        requires
            old(self).wf(),
        ensures
            final(self).wf(),
            final(self).text@ == old(self).text@,
            old(self).pos <= final(self).pos,
            old(self).pos < old(self).text@.len() && is_white_space(old(self).text@[old(self).pos as int])
                ==> old(self).pos < final(self).pos,
            lex_from(old(self).text@, old(self).pos as nat) == lex_from(final(self).text@, final(self).pos as nat),
    {
        let ghost s = self.text@;
        let ghost i0 = self.pos as nat;
        while self.pos < self.text.len() && char_is_whitespace(self.text[self.pos])
            invariant
                self.wf(),
                self.text@ == s,
                i0 <= self.pos,
                lex_from(s, i0) == lex_from(s, self.pos as nat),
            decreases s.len() - self.pos,
        {
            self.advance();
        }
    }

    /// Moves past the digits at the current position.
    fn skip_digits(&mut self)
        requires
            old(self).wf(),
        ensures
            final(self).wf(),
            final(self).text@ == old(self).text@,
            final(self).pos == span(old(self).text@, old(self).pos as nat, |c: char| is_digit(c)),
            final(self).pos >= old(self).pos,
    {
        let ghost s = self.text@;
        let ghost i0 = self.pos as nat;
        while self.pos < self.text.len() && is_digit_char(self.text[self.pos])
            invariant
                self.wf(),
                self.text@ == s,
                i0 <= self.pos,
                span(s, i0, |c: char| is_digit(c)) == span(s, self.pos as nat, |c: char| is_digit(c)),
            decreases s.len() - self.pos,
        {
            self.advance();
        }
    }

    /// A number: digits, then optionally `.` and more digits.
    fn get_number(&mut self) -> (r: String)
        requires
            old(self).wf(),
        ensures
            final(self).wf(),
            final(self).text@ == old(self).text@,
            final(self).pos == number_end(old(self).text@, old(self).pos as nat),
            r@ == old(self).text@.subrange(old(self).pos as int, final(self).pos as int),
    {
        let start = self.pos;
        self.skip_digits();
        if self.pos < self.text.len() && self.text[self.pos] == '.' {
            self.advance();
            self.skip_digits();
        }
        proof {
            lemma_span_bounds(self.text@, start as nat, |c: char| is_digit(c));
        }
        string_of(&self.text, start, self.pos)
    }

    /// A word: a letter, then letters, digits and `_`.
    fn get_ident(&mut self) -> (r: String)
        requires
            old(self).wf(),
        ensures
            final(self).wf(),
            final(self).text@ == old(self).text@,
            final(self).pos == span(old(self).text@, old(self).pos as nat, |c: char| is_word_char(c)),
            r@ == old(self).text@.subrange(old(self).pos as int, final(self).pos as int),
    {
        let ghost s = self.text@;
        let start = self.pos;
        while self.pos < self.text.len() && is_word(self.text[self.pos])
            invariant
                self.wf(),
                self.text@ == s,
                start <= self.pos,
                span(s, start as nat, |c: char| is_word_char(c)) == span(s, self.pos as nat, |c: char| is_word_char(c)),
            decreases s.len() - self.pos,
        {
            self.advance();
        }
        string_of(&self.text, start, self.pos)
    }

    /// A string between two `qte` quotes; the current character is the first.
    fn get_qte_string(&mut self, qte: char) -> (r: Result<String, LexError>)
        requires
            old(self).wf(),
            old(self).pos < old(self).text@.len(),
            old(self).text@[old(self).pos as int] == qte,
        ensures
            final(self).wf(),
            final(self).text@ == old(self).text@,
            ({
                let s = old(self).text@;
                let k = span(s, (old(self).pos + 1) as nat, |d: char| d != qte);
                match r {
                    Ok(v) => k < s.len() && v@ == s.subrange(old(self).pos + 1, k as int)
                        && final(self).pos == k + 1,
                    Err(e) => k >= s.len() && e == LexError::UnterminatedString { loc: loc_at(s, k) },
                }
            }),
    {
        let ghost s = self.text@;
        self.advance();
        let start = self.pos;
        while self.pos < self.text.len() && self.text[self.pos] != qte
            invariant
                self.wf(),
                self.text@ == s,
                start <= self.pos,
                span(s, start as nat, |d: char| d != qte) == span(s, self.pos as nat, |d: char| d != qte),
            decreases s.len() - self.pos,
        {
            self.advance();
        }
        if self.pos >= self.text.len() {
            return Err(LexError::UnterminatedString { loc: self.loc });
        }
        let v = string_of(&self.text, start, self.pos);
        self.advance();
        Ok(v)
    }

    /// Whether a long string of level `n` closes at `k`.
    fn closes_at(&self, k: usize, n: usize) -> (r: bool)
        requires
            self.wf(),
            k < self.text@.len(),
            n <= self.text@.len(),
        ensures
            r == closes_at(self.text@, k as nat, n as nat),
    {
        if k + n + 1 >= self.text.len() || self.text[k] != ']' || self.text[k + n + 1] != ']' {
            return false;
        }
        let mut j: usize = 1;
        while j <= n
            invariant
                self.wf(),
                n <= self.text@.len(),
                1 <= j <= n + 1,
                k + n + 1 < self.text@.len(),
                self.text@[k as int] == ']',
                self.text@[k + n + 1] == ']',
                forall|m: int| 1 <= m < j ==> #[trigger] self.text@[k + m] == '=',
            decreases n + 1 - j,
        {
            if self.text[k + j] != '=' {
                return false;
            }
            j = j + 1;
        }
        true
    }

    /// A long string whose opening `[` has just been passed: the current
    /// character is the first `=` of its level, or its second `[`.
    pub fn get_long_string(&mut self) -> (r: Result<String, LexError>)
        requires
            old(self).wf(),
        ensures
            final(self).wf(),
            final(self).source() == old(self).source(),
            match long_string_at(old(self).source(), old(self).position()) {
                Ok((v, j)) => r matches Ok(w) && w@ == v && final(self).position() == j,
                Err(e) => r == Err::<String, LexError>(e),
            },
    {
        let ghost s = self.text@;
        let start = self.pos;
        while self.pos < self.text.len() && self.text[self.pos] == '='
            invariant
                self.wf(),
                self.text@ == s,
                start <= self.pos,
                span(s, start as nat, |c: char| c == '=') == span(s, self.pos as nat, |c: char| c == '='),
            decreases s.len() - self.pos,
        {
            self.advance();
        }
        let count = self.pos - start;
        if self.pos >= self.text.len() || self.text[self.pos] != '[' {
            return Err(LexError::MalformedLongBracket { loc: self.loc });
        }
        self.advance();
        let content = self.pos;
        let mut k = self.pos;
        while k < self.text.len() && !self.closes_at(k, count)
            invariant
                self.wf(),
                self.text@ == s,
                self.pos == content,
                content <= k,
                count <= s.len(),
                find_close(s, content as nat, count as nat) == find_close(s, k as nat, count as nat),
            decreases s.len() - k,
        {
            k = k + 1;
        }
        if k >= self.text.len() {
            proof {
                lemma_loc_bounds(s, s.len());
            }
            while self.pos < self.text.len()
                invariant
                    self.wf(),
                    self.text@ == s,
                decreases s.len() - self.pos,
            {
                self.advance();
            }
            return Err(LexError::UnterminatedString { loc: self.loc });
        }
        let v = string_of(&self.text, content, k);
        while self.pos < k + count + 2
            invariant
                self.wf(),
                self.text@ == s,
                content <= self.pos <= k + count + 2,
                closes_at(s, k as nat, count as nat),
            decreases k + count + 2 - self.pos,
        {
            self.advance();
        }
        Ok(v)
    }
}

} // verus!
