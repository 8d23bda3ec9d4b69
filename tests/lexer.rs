use rua::lexer::{LexError, Lexer};
use rua::token::{Location, TokenKind};

#[test]
fn long_string() {
    let mut lexer = Lexer::new("===[]==]]===]");

    assert_eq!("]==]".to_string(), lexer.get_long_string().unwrap());
}

#[test]
fn analyze() {
    let mut lexer = Lexer::new(
        r#"
            a = 1

            if a + 1 >= 3.5 and a ^ 3 == 2 then
                print("Hello World!")
            end
        "#,
    );

    let res = vec![
        TokenKind::Ident,
        TokenKind::Assign,
        TokenKind::Number,
        TokenKind::If,
        TokenKind::Ident,
        TokenKind::Plus,
        TokenKind::Number,
        TokenKind::Ge,
        TokenKind::Number,
        TokenKind::And,
        TokenKind::Ident,
        TokenKind::Pow,
        TokenKind::Number,
        TokenKind::Eq,
        TokenKind::Number,
        TokenKind::Then,
        TokenKind::Ident,
        TokenKind::Lpar,
        TokenKind::String,
        TokenKind::Rpar,
        TokenKind::End,
        TokenKind::Eof,
    ];

    let toks = lexer.analyze().unwrap();
    assert_eq!(toks.len(), res.len());
    toks.into_iter().zip(res.into_iter()).for_each(|(l, r)| {
        assert_eq!(l.kind, r);
    });
}

fn kinds(src: &str) -> Vec<TokenKind> {
    Lexer::new(src).analyze().unwrap().into_iter().map(|t| t.kind).collect()
}

#[test]
fn multi_character_operators() {
    assert_eq!(
        kinds("/ // . .. ... = == ~= < <= > >="),
        vec![
            TokenKind::RealDiv,
            TokenKind::IntDiv,
            TokenKind::Dot,
            TokenKind::Concat,
            TokenKind::Arg,
            TokenKind::Assign,
            TokenKind::Eq,
            TokenKind::UnEq,
            TokenKind::Lt,
            TokenKind::Le,
            TokenKind::Gt,
            TokenKind::Ge,
            TokenKind::Eof,
        ]
    );
}

#[test]
fn empty_text_gives_only_eof() {
    let toks = Lexer::new("").analyze().unwrap();
    assert_eq!(toks.len(), 1);
    assert_eq!(toks[0].kind, TokenKind::Eof);
    assert_eq!(toks[0].loc, Location { line: 1, column: 1 });
}

#[test]
fn token_values_and_keywords() {
    let toks = Lexer::new("while x_1 do 12.50 'hi' end").analyze().unwrap();
    assert_eq!(toks[0].kind, TokenKind::While);
    assert_eq!(toks[0].value, None);
    assert_eq!(toks[1].kind, TokenKind::Ident);
    assert_eq!(toks[1].value, Some("x_1".to_string()));
    assert_eq!(toks[3].kind, TokenKind::Number);
    assert_eq!(toks[3].value, Some("12.50".to_string()));
    assert_eq!(toks[4].kind, TokenKind::String);
    assert_eq!(toks[4].value, Some("hi".to_string()));
}

#[test]
fn long_string_level_zero_and_square_bracket() {
    let toks = Lexer::new("[[a]b]] [ x").analyze().unwrap();
    assert_eq!(toks[0].kind, TokenKind::String);
    assert_eq!(toks[0].value, Some("a]b".to_string()));
    assert_eq!(toks[1].kind, TokenKind::Lsqr);
}

#[test]
fn locations_follow_lines() {
    let toks = Lexer::new("a\nbc = 1").analyze().unwrap();
    // a word's token is made once the lexer stands on the character after it
    assert_eq!(toks[0].loc, Location { line: 2, column: 1 });
    assert_eq!(toks[1].loc, Location { line: 2, column: 4 });
    assert_eq!(toks[2].loc, Location { line: 2, column: 5 });
}

#[test]
fn leading_newline_counts() {
    let toks = Lexer::new("\nx").analyze().unwrap();
    assert_eq!(toks[0].kind, TokenKind::Ident);
    assert_eq!(toks[0].loc, Location { line: 2, column: 3 });
    let toks = Lexer::new("\n").analyze().unwrap();
    assert_eq!(toks.len(), 1);
    assert_eq!(toks[0].loc, Location { line: 2, column: 2 });
    let toks = Lexer::new("\r\n").analyze().unwrap();
    assert_eq!(toks[0].loc.line, 3);
}

#[test]
fn identifiers_take_unicode_digits() {
    let toks = Lexer::new("x\u{0663} = 1").analyze().unwrap();
    assert_eq!(toks[0].kind, TokenKind::Ident);
    assert_eq!(toks[0].value, Some("x\u{0663}".to_string()));
}

#[test]
fn unexpected_character() {
    assert_eq!(
        Lexer::new("a = $").analyze(),
        Err(LexError::UnexpectedChar { ch: '$', loc: Location { line: 1, column: 5 } })
    );
    assert!(matches!(Lexer::new("a ~ b").analyze(), Err(LexError::UnexpectedChar { ch: '~', .. })));
}

#[test]
fn unterminated_strings() {
    assert!(matches!(Lexer::new("'abc").analyze(), Err(LexError::UnterminatedString { .. })));
    assert!(matches!(Lexer::new("[==[abc]=]").analyze(), Err(LexError::UnterminatedString { .. })));
}

#[test]
fn malformed_long_bracket() {
    assert!(matches!(Lexer::new("[==x").analyze(), Err(LexError::MalformedLongBracket { .. })));
}
