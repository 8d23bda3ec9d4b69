use rua::ast::{Expr, Ident, Stmt};
use rua::bytecode::{Bytecode, Bytecodes, Instruction};
use rua::compiler::{numeral_key_of, CompileError, Compiler};
use rua::lexer::Lexer;
use rua::parser::Parser;
use rua::token::TokenKind;

fn ast(src: &str) -> Vec<Stmt> {
    let toks = Lexer::new(src).analyze().unwrap();
    Parser::new(toks).parse().unwrap()
}

fn compile(src: &str) -> Result<Bytecodes, CompileError> {
    Compiler::new().compile(&ast(src))
}

fn insts(b: &Bytecodes) -> Vec<Instruction> {
    b.bc.iter().map(|c| c.inst).collect()
}

fn strings(v: &[&str]) -> Vec<String> {
    v.iter().map(|s| s.to_string()).collect()
}

#[test]
fn compiler_see() {
    let toks = Lexer::new(
        r#"
            a = 1 + 3 ^ 4 ^ 2
            b = 6 * (5 - 2)
        "#,
    )
    .analyze()
    .unwrap();
    let mut parser = Parser::new(toks);
    let mut compiler = Compiler::new();
    let res = compiler.compile(&parser.parse().unwrap());

    println!("{:#?}", res);
}

#[test]
fn assignment_code() {
    let b = compile("a = 1 + 3").unwrap();
    assert_eq!(
        b.bc,
        vec![
            Bytecode { inst: Instruction::LoadNumber, arg: 0 },
            Bytecode { inst: Instruction::LoadNumber, arg: 1 },
            Bytecode { inst: Instruction::BinAdd, arg: 0 },
            Bytecode { inst: Instruction::StoreGlob, arg: 0 },
            Bytecode { inst: Instruction::End, arg: 0 },
        ]
    );
    assert_eq!(b.nums, strings(&["1", "3"]));
    assert_eq!(b.idents, strings(&["a"]));
}

#[test]
fn pools_in_order_of_first_use() {
    let b = compile("x = 2 y = 1.0 + 2 + 1 x = 'p' .. 'q' .. 'p'").unwrap();
    assert_eq!(b.nums, strings(&["2", "1"]));
    assert_eq!(b.strs, strings(&["p", "q"]));
    assert_eq!(b.idents, strings(&["x", "y"]));
}

#[test]
fn multiple_targets_store_right_to_left() {
    let b = compile("a, b = b, a").unwrap();
    assert_eq!(b.idents, strings(&["b", "a"]));
    assert_eq!(
        b.bc,
        vec![
            Bytecode { inst: Instruction::LoadGlob, arg: 0 },
            Bytecode { inst: Instruction::LoadGlob, arg: 1 },
            Bytecode { inst: Instruction::StoreGlob, arg: 0 },
            Bytecode { inst: Instruction::StoreGlob, arg: 1 },
            Bytecode { inst: Instruction::End, arg: 0 },
        ]
    );
}

#[test]
fn while_loop_jumps() {
    let b = compile("while a do a = false end").unwrap();
    assert_eq!(
        b.bc,
        vec![
            Bytecode { inst: Instruction::LoadGlob, arg: 0 },
            Bytecode { inst: Instruction::JumpAbsoluteIfFalse, arg: 5 },
            Bytecode { inst: Instruction::LoadFalse, arg: 0 },
            Bytecode { inst: Instruction::StoreGlob, arg: 0 },
            Bytecode { inst: Instruction::JumpAbsolute, arg: 0 },
            Bytecode { inst: Instruction::End, arg: 0 },
        ]
    );
}

#[test]
fn if_chain_jumps() {
    let b = compile("if true then c = 1 elseif false then c = 2 else c = 3 end").unwrap();
    assert_eq!(
        b.bc,
        vec![
            Bytecode { inst: Instruction::LoadTrue, arg: 0 },
            Bytecode { inst: Instruction::JumpAbsoluteIfFalse, arg: 5 },
            Bytecode { inst: Instruction::LoadNumber, arg: 0 },
            Bytecode { inst: Instruction::StoreGlob, arg: 0 },
            Bytecode { inst: Instruction::JumpAbsolute, arg: 12 },
            Bytecode { inst: Instruction::LoadFalse, arg: 0 },
            Bytecode { inst: Instruction::JumpAbsoluteIfFalse, arg: 10 },
            Bytecode { inst: Instruction::LoadNumber, arg: 1 },
            Bytecode { inst: Instruction::StoreGlob, arg: 0 },
            Bytecode { inst: Instruction::JumpAbsolute, arg: 12 },
            Bytecode { inst: Instruction::LoadNumber, arg: 2 },
            Bytecode { inst: Instruction::StoreGlob, arg: 0 },
            Bytecode { inst: Instruction::End, arg: 0 },
        ]
    );
}

#[test]
fn jump_targets_lie_in_code() {
    let b = compile("i = 0 while i < 3 do if i == 1 then j = i elseif i > 1 then k = i end i = i + 1 end").unwrap();
    for c in &b.bc {
        if c.inst == Instruction::JumpAbsolute || c.inst == Instruction::JumpAbsoluteIfFalse {
            assert!(c.arg < b.bc.len());
        }
    }
}

#[test]
fn comparisons_without_own_instruction() {
    assert_eq!(
        insts(&compile("x = a > b").unwrap()),
        vec![Instruction::LoadGlob, Instruction::LoadGlob, Instruction::BinLt, Instruction::StoreGlob, Instruction::End]
    );
    // the right operand is lowered first
    assert_eq!(compile("x = a >= b").unwrap().idents, strings(&["b", "a", "x"]));
    assert_eq!(
        insts(&compile("x = a ~= b").unwrap()),
        vec![
            Instruction::LoadGlob,
            Instruction::LoadGlob,
            Instruction::BinEq,
            Instruction::UnaryNot,
            Instruction::StoreGlob,
            Instruction::End,
        ]
    );
}

#[test]
fn same_ast_twice_gives_same_program() {
    let a = ast("a = 1 b = 'x' .. 'y' while a < 2 do a = a + 1 end");
    let first = Compiler::new().compile(&a).unwrap();
    let second = Compiler::new().compile(&a).unwrap();
    assert_eq!(first.bc, second.bc);
    assert_eq!(first.nums, second.nums);
    assert_eq!(first.strs, second.strs);
    assert_eq!(first.idents, second.idents);
}

#[test]
fn recompiling_keeps_pools() {
    let a = ast("a = 1 b = 'x' .. a");
    let mut c = Compiler::new();
    let first = c.compile(&a).unwrap();
    let second = c.compile(&a).unwrap();
    assert_eq!(first.nums, second.nums);
    assert_eq!(first.strs, second.strs);
    assert_eq!(first.idents, second.idents);
    assert_eq!(second.bc.len(), 2 * first.bc.len() - 1);
}

#[test]
fn numeral_keys() {
    assert_eq!(numeral_key_of(&"1".to_string()), "1");
    assert_eq!(numeral_key_of(&"1.0".to_string()), "1");
    assert_eq!(numeral_key_of(&"007.250".to_string()), "7.25");
    assert_eq!(numeral_key_of(&"0.".to_string()), "0");
    assert_eq!(numeral_key_of(&"10".to_string()), "10");
}

#[test]
fn equal_numbers_share_an_index() {
    assert_eq!(compile("a = 1 b = 1.0 c = 1.50").unwrap().nums, strings(&["1", "1.5"]));
}

#[test]
fn functions_are_not_lowered() {
    assert_eq!(compile("function f() a = 1 end").unwrap_err(), CompileError::UnsupportedFunction);
    assert_eq!(compile("a = f(1)").unwrap_err(), CompileError::UnsupportedFunction);
}

#[test]
fn operator_without_instruction() {
    let bad = vec![Stmt::Assign {
        ident_list: vec![Ident { name: "a".to_string() }],
        expr_list: vec![Expr::BinOp {
            op: TokenKind::Comma,
            left: Box::new(Expr::Boolean(true)),
            right: Box::new(Expr::Boolean(true)),
        }],
    }];
    assert_eq!(
        Compiler::new().compile(&bad).unwrap_err(),
        CompileError::UnsupportedOperator { op: TokenKind::Comma }
    );
}
