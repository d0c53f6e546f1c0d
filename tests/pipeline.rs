use std::collections::HashMap;

use micro_lang::{
    boxed_node, token_to_binary_op, ASTNode, BinaryOperator, Instruction, Interpreter, Lexer,
    Parser, SemanticAnalyzer, Step, SymbolTable, Token, VmFault, VM,
};

/// The value of a numeric literal as the language reads it.
fn literal_value(text: &str) -> f64 {
    text.parse::<f64>().unwrap_or(0.0)
}

/// A token with its literal read as a number, for comparison.
#[derive(Debug, PartialEq)]
enum Read {
    Num(f64),
    Other(Token),
}

fn read(t: Token) -> Read {
    match t {
        Token::Number(text) => Read::Num(literal_value(&text)),
        other => Read::Other(other),
    }
}

fn all_tokens(input: &str) -> Vec<Token> {
    let mut lexer = Lexer::new(input);
    let mut tokens: Vec<Token> = vec![];
    tokens.push(lexer.next_token());
    while tokens.last() != Some(&Token::EoF) {
        tokens.push(lexer.next_token());
    }
    tokens
}

/// Runs a machine to its end, doing its arithmetic in `f64`.
fn run_machine(vm: &mut VM<f64>) -> Result<HashMap<String, f64>, VmFault> {
    vm.reset();
    loop {
        match vm.step() {
            Step::Continue => {}
            Step::Halt => break,
            Step::Fault(f) => return Err(f),
            Step::Constant(text) => vm.resume(Some(literal_value(&text)))?,
            Step::Arithmetic(op, lhs, rhs) => {
                let value = match op {
                    BinaryOperator::Add => Some(lhs + rhs),
                    BinaryOperator::Subtract => Some(lhs - rhs),
                    BinaryOperator::Multiply => Some(lhs * rhs),
                    BinaryOperator::Divide => {
                        if rhs == 0.0 {
                            None
                        } else {
                            Some(lhs / rhs)
                        }
                    }
                };
                vm.resume(value)?;
            }
        }
    }
    Ok(vm.variables().iter().cloned().collect())
}

/// Parses, analyzes, compiles and runs a program.
fn run(input: &str) -> Result<HashMap<String, f64>, VmFault> {
    let mut parser = Parser::new(Lexer::new(input));
    let program = parser.parse_program().unwrap();
    let mut analyzer = SemanticAnalyzer::new();
    let _ = analyzer.analyze(&program);
    let instructions = Interpreter::new().generate_instructions(&program);
    let mut vm: VM<f64> = VM::new(instructions, analyzer.symbol_table);
    run_machine(&mut vm)
}

#[test]
fn test_token_creation() {
    assert_eq!(Token::Assign, Token::Assign);
    assert_eq!(
        read(Token::Number("4.".to_string())),
        read(Token::Number("4.0".to_string()))
    );
    assert_eq!(
        Token::Identifier("val".to_string()),
        Token::Identifier("val".to_string())
    )
}

#[test]
fn test_lexer_tokenization() {
    let input = "x = 42 + 3.14 * (_4f - .4) / g;";
    let tokens: Vec<Read> = all_tokens(input).into_iter().map(read).collect();

    assert_eq!(
        tokens,
        vec![
            Read::Other(Token::Identifier("x".to_string())),
            Read::Other(Token::Assign),
            Read::Num(42.0),
            Read::Other(Token::Plus),
            Read::Num(3.14),
            Read::Other(Token::Multiply),
            Read::Other(Token::LParen),
            Read::Other(Token::Identifier("_4f".to_string())),
            Read::Other(Token::Minus),
            Read::Num(0.4),
            Read::Other(Token::RParen),
            Read::Other(Token::Divide),
            Read::Other(Token::Identifier("g".to_string())),
            Read::Other(Token::Semi),
            Read::Other(Token::EoF)
        ]
    )
}

#[test]
fn test_ast_creation() {
    let input = "x = 10 + 5 * 2;";
    let lexer = Lexer::new(input);
    let mut parser = Parser::new(lexer);

    let program = parser.parse_program().ok().unwrap();
    let ast = ASTNode::Program(vec![ASTNode::Assignment {
        variable: "x".to_string(),
        value: boxed_node(ASTNode::BinaryOp {
            left: boxed_node(ASTNode::Number("10".to_string())),
            op: BinaryOperator::Add,
            right: boxed_node(ASTNode::BinaryOp {
                left: boxed_node(ASTNode::Number("5".to_string())),
                op: BinaryOperator::Multiply,
                right: boxed_node(ASTNode::Number("2".to_string())),
            }),
        }),
    }]);

    assert_eq!(program, ast)
}

#[test]
fn lexer_keeps_literal_text_and_splits_second_point() {
    let tokens = all_tokens("1.2.3");
    assert_eq!(
        tokens,
        vec![
            Token::Number("1.2".to_string()),
            Token::Number(".3".to_string()),
            Token::EoF
        ]
    );
}

#[test]
fn lexer_skips_all_whitespace_and_repeats_end() {
    let mut lexer = Lexer::new(" \t\n a1_b \r\n");
    assert_eq!(lexer.next_token(), Token::Identifier("a1_b".to_string()));
    assert_eq!(lexer.next_token(), Token::EoF);
    assert_eq!(lexer.next_token(), Token::EoF);
}

#[test]
fn lexer_stops_at_unknown_character() {
    let tokens = all_tokens("x # y");
    assert_eq!(tokens, vec![Token::Identifier("x".to_string()), Token::EoF]);
}

#[test]
fn lexer_is_deterministic() {
    let input = "a = (1 + b2) * .5 / c;";
    assert_eq!(all_tokens(input), all_tokens(input));
}

#[test]
fn token_to_binary_op_maps_operators_only() {
    assert_eq!(token_to_binary_op(Token::Plus), Ok(BinaryOperator::Add));
    assert_eq!(token_to_binary_op(Token::Minus), Ok(BinaryOperator::Subtract));
    assert_eq!(token_to_binary_op(Token::Multiply), Ok(BinaryOperator::Multiply));
    assert_eq!(token_to_binary_op(Token::Divide), Ok(BinaryOperator::Divide));
    assert!(token_to_binary_op(Token::Assign).is_err());
}

#[test]
fn subtraction_is_left_associative() {
    let vars = run("x = 10 - 5 - 2;").unwrap();
    assert_eq!(vars["x"], 3.0);
}

#[test]
fn multiplication_binds_tighter() {
    let vars = run("x = 2 + 3 * 4;").unwrap();
    assert_eq!(vars["x"], 14.0);
}

#[test]
fn parentheses_override_precedence() {
    let vars = run("x = (2 + 3) * 4;").unwrap();
    assert_eq!(vars["x"], 20.0);
}

#[test]
fn end_to_end_three_assignments() {
    let vars = run("x = (10 + 5 * 2) / 4;\ny = x + 10;\nz = y - y / 5;").unwrap();
    assert_eq!(vars.len(), 3);
    assert_eq!(vars["x"], 5.0);
    assert_eq!(vars["y"], 15.0);
    assert_eq!(vars["z"], 12.0);
}

#[test]
fn division_by_zero_is_a_fault() {
    assert_eq!(run("x = 1 / 0;"), Err(VmFault::DivisionByZero));
}

#[test]
fn zero_divided_is_no_fault() {
    let vars = run("x = 0 / 4;").unwrap();
    assert_eq!(vars["x"], 0.0);
}

#[test]
fn read_before_write_is_a_fault() {
    assert_eq!(
        run("y = x; x = 1;"),
        Err(VmFault::UnsetVariable("x".to_string()))
    );
}

#[test]
fn name_missing_from_table_is_a_fault() {
    let instructions = vec![Instruction::LoadVariable("q".to_string()), Instruction::Stop];
    let mut vm: VM<f64> = VM::new(instructions, SymbolTable::new());
    assert_eq!(
        run_machine(&mut vm),
        Err(VmFault::UndefinedVariable("q".to_string()))
    );
}

#[test]
fn operator_on_short_stack_is_a_fault() {
    let instructions = vec![Instruction::LoadConstant("1".to_string()), Instruction::Add];
    let mut vm: VM<f64> = VM::new(instructions, SymbolTable::new());
    assert_eq!(run_machine(&mut vm), Err(VmFault::StackUnderflow));
    let mut empty: VM<f64> = VM::new(
        vec![Instruction::StoreVariable("x".to_string())],
        SymbolTable::new(),
    );
    assert_eq!(run_machine(&mut empty), Err(VmFault::StackUnderflow));
}

#[test]
fn store_overwrites_and_reruns_reset() {
    let mut parser = Parser::new(Lexer::new("x = 1; y = x + 1;"));
    let program = parser.parse_program().unwrap();
    let mut analyzer = SemanticAnalyzer::new();
    assert!(analyzer.analyze(&program).is_ok());
    let mut instructions = Interpreter::new().generate_instructions(&program);
    // store into x a second time before the end
    instructions.pop();
    instructions.push(Instruction::LoadConstant("7".to_string()));
    instructions.push(Instruction::StoreVariable("x".to_string()));
    instructions.push(Instruction::Stop);
    let mut vm: VM<f64> = VM::new(instructions, analyzer.symbol_table);
    let first = run_machine(&mut vm).unwrap();
    let second = run_machine(&mut vm).unwrap();
    assert_eq!(first.len(), 2);
    assert_eq!(first["x"], 7.0);
    assert_eq!(first["y"], 2.0);
    assert_eq!(first, second);
}

#[test]
fn generated_instructions_end_with_stop_and_store_each_assignment() {
    let mut parser = Parser::new(Lexer::new("a = 1; b = a * 2; a2 = b - a;"));
    let program = parser.parse_program().unwrap();
    let instructions = Interpreter::new().generate_instructions(&program);
    assert_eq!(instructions.last(), Some(&Instruction::Stop));
    assert_eq!(
        instructions.iter().filter(|i| **i == Instruction::Stop).count(),
        1
    );
    let stores: Vec<String> = instructions
        .iter()
        .filter_map(|i| match i {
            Instruction::StoreVariable(n) => Some(n.clone()),
            _ => None,
        })
        .collect();
    assert_eq!(stores, vec!["a".to_string(), "b".to_string(), "a2".to_string()]);
    assert_eq!(
        instructions,
        vec![
            Instruction::LoadConstant("1".to_string()),
            Instruction::StoreVariable("a".to_string()),
            Instruction::LoadVariable("a".to_string()),
            Instruction::LoadConstant("2".to_string()),
            Instruction::Multiply,
            Instruction::StoreVariable("b".to_string()),
            Instruction::LoadVariable("b".to_string()),
            Instruction::LoadVariable("a".to_string()),
            Instruction::Subtract,
            Instruction::StoreVariable("a2".to_string()),
            Instruction::Stop,
        ]
    );
}

#[test]
fn empty_program_compiles_to_stop() {
    let mut parser = Parser::new(Lexer::new("   "));
    let program = parser.parse_program().unwrap();
    assert_eq!(program, ASTNode::Program(vec![]));
    let instructions = Interpreter::new().generate_instructions(&program);
    assert_eq!(instructions, vec![Instruction::Stop]);
}

#[test]
fn dangling_operator_truncates_the_expression() {
    // An operator whose operand does not parse ends the chain: `1 +` is read
    // as `1`, silently.
    let mut parser = Parser::new(Lexer::new("x = 1 + ;"));
    let program = parser.parse_program().unwrap();
    assert_eq!(
        program,
        ASTNode::Program(vec![ASTNode::Assignment {
            variable: "x".to_string(),
            value: boxed_node(ASTNode::Number("1".to_string())),
        }])
    );
}

#[test]
fn malformed_statements_are_errors() {
    assert!(Parser::new(Lexer::new("x = 1 + 2")).parse_program().is_err());
    assert!(Parser::new(Lexer::new("= 1;")).parse_program().is_err());
    assert!(Parser::new(Lexer::new("x 1;")).parse_program().is_err());
    assert!(Parser::new(Lexer::new("x = (1 + 2;")).parse_program().is_err());
    assert!(Parser::new(Lexer::new("x = ;")).parse_program().is_err());
}
