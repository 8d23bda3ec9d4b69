use rua::ast::{Expr, FuncCall, FuncDecl, Ident, Stmt};
use rua::lexer::Lexer;
use rua::parser::{ParseError, Parser};
use rua::token::TokenKind;

fn parse(src: &str) -> Result<Vec<Stmt>, ParseError> {
    let toks = Lexer::new(src).analyze().unwrap();
    Parser::new(toks).parse()
}

fn id(n: &str) -> Expr {
    Expr::Ident(Ident { name: n.to_string() })
}

fn bin(op: TokenKind, l: Expr, r: Expr) -> Expr {
    Expr::BinOp { op, left: Box::new(l), right: Box::new(r) }
}

fn value_of(src: &str) -> Expr {
    match parse(src).unwrap().remove(0) {
        Stmt::Assign { mut expr_list, .. } => expr_list.remove(0),
        other => panic!("not an assignment: {:?}", other),
    }
}

#[test]
fn parser_see() {
    let toks = Lexer::new(
        r#"
            function f(a, b)
                e = a + b
            end
        "#,
    )
    .analyze()
    .unwrap();
    let mut parser = Parser::new(toks);

    println!("{:#?}", parser.parse());
}

#[test]
fn function_declaration_shape() {
    let ast = parse("function f(a, b) e = a + b end").unwrap();
    assert_eq!(
        ast,
        vec![Stmt::FuncDecl(FuncDecl {
            ident: Ident { name: "f".to_string() },
            args: vec![Ident { name: "a".to_string() }, Ident { name: "b".to_string() }],
            body: vec![Stmt::Assign {
                ident_list: vec![Ident { name: "e".to_string() }],
                expr_list: vec![bin(TokenKind::Plus, id("a"), id("b"))],
            }],
        })]
    );
}

#[test]
fn product_binds_tighter_than_sum() {
    assert_eq!(
        value_of("x = a + b * c"),
        bin(TokenKind::Plus, id("a"), bin(TokenKind::Mul, id("b"), id("c")))
    );
}

#[test]
fn power_is_right_associative() {
    assert_eq!(
        value_of("x = a ^ b ^ c"),
        bin(TokenKind::Pow, id("a"), bin(TokenKind::Pow, id("b"), id("c")))
    );
}

#[test]
fn concat_is_right_associative() {
    assert_eq!(
        value_of("x = a .. b .. c"),
        bin(TokenKind::Concat, id("a"), bin(TokenKind::Concat, id("b"), id("c")))
    );
}

#[test]
fn unary_minus_binds_looser_than_power() {
    assert_eq!(
        value_of("x = -a ^ b"),
        Expr::UnaryOp { op: TokenKind::Minus, node: Box::new(bin(TokenKind::Pow, id("a"), id("b"))) }
    );
}

#[test]
fn subtraction_is_left_associative() {
    assert_eq!(
        value_of("x = a - b - c"),
        bin(TokenKind::Minus, bin(TokenKind::Minus, id("a"), id("b")), id("c"))
    );
}

#[test]
fn call_and_parentheses() {
    assert_eq!(
        value_of("x = f(1, (2))"),
        Expr::FuncCall(FuncCall {
            ident: Ident { name: "f".to_string() },
            args: vec![Expr::Number("1".to_string()), Expr::Number("2".to_string())],
        })
    );
}

#[test]
fn if_with_elseif_and_else() {
    let ast = parse("if a then b = 1 elseif c then b = 2 elseif d then b = 3 else b = 4 end").unwrap();
    match &ast[0] {
        Stmt::If { elseif_conds, elseif_bodies, else_body, .. } => {
            assert_eq!(elseif_conds.len(), 2);
            assert_eq!(elseif_bodies.len(), 2);
            assert_eq!(else_body.len(), 1);
        },
        other => panic!("not an if: {:?}", other),
    }
}

#[test]
fn statement_errors() {
    assert_eq!(parse("1 = a"), Err(ParseError::UnexpectedStatement { found: TokenKind::Number }));
    assert_eq!(
        parse("while a b = 1 end"),
        Err(ParseError::Expected { expected: TokenKind::Do, found: TokenKind::Ident })
    );
    assert_eq!(parse("a = )"), Err(ParseError::UnexpectedFactor { found: TokenKind::Rpar }));
    assert_eq!(parse("a = 1 end"), Err(ParseError::Expected { expected: TokenKind::Eof, found: TokenKind::End }));
}

#[test]
fn empty_program() {
    assert_eq!(parse(""), Ok(vec![]));
}
