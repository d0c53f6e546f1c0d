//! A small expression language: lexer, parser, semantic analyzer, bytecode
//! compiler and stack machine, each with a verified contract.

pub mod ast;
pub mod interpreter;
pub mod lexer;
pub mod parser;
pub mod semantic_analyzer;
pub mod vm;

pub use ast::{boxed_node, token_to_binary_op, ASTNode, BinaryOperator};
pub use interpreter::{Instruction, Interpreter};
pub use lexer::{Lexer, Token};
pub use parser::Parser;
pub use semantic_analyzer::{
    SemanticAnalyzer, SemanticError, SemanticErrorType, Symbol, SymbolTable, Type,
};
pub use vm::{Step, VmFault, VM};
