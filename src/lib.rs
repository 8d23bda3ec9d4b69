//! A small Lua-family scripting language: lexer, parser, bytecode compiler
//! and a stack virtual machine, each stage with a checked contract.

pub mod token;
pub mod lexer;
pub mod ast;
pub mod parser;
pub mod bytecode;
pub mod compiler;
pub mod lowering_laws;
pub mod vm;
