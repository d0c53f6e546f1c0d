use micro_lang::{
    ASTNode, BinaryOperator, SemanticAnalyzer, SemanticErrorType, SymbolTable, Type,
};

#[test]
fn test_symbol_table_basic_operations() {
    let mut table = SymbolTable::new();

    // Initial state
    assert_eq!(table.scope_count(), 1);
    assert_eq!(table.current_scope(), 0);

    // Up scope state
    table.enter_scope();
    assert_eq!(table.scope_count(), 2);
    assert_eq!(table.current_scope(), 1);

    // Down scope state
    table.exit_scope();
    assert_eq!(table.scope_count(), 1);
    assert_eq!(table.current_scope(), 0);

    // Variable declaration
    let var_name = "var1".to_string();
    _ = table.declare_variable(&var_name, Type::Integer);
    assert_eq!(
        table.lookup_variable(&var_name).unwrap().symbol_type,
        Type::Integer
    );

    // Looks up the scopes
    table.enter_scope();
    assert_eq!(
        table.lookup_variable(&var_name).unwrap().symbol_type,
        Type::Integer
    );

    // Variable shadowing
    _ = table.declare_variable(&var_name, Type::Function);
    assert_eq!(
        table.lookup_variable(&var_name).unwrap().symbol_type,
        Type::Function
    );

    // Duplicate declaration
    let result = table.declare_variable(&var_name, Type::Integer);
    assert!(result.is_err());

    // Out-of-scope variables are lost
    _ = table.declare_variable(&"var2".to_string(), Type::Function);
    table.exit_scope();
    table.enter_scope();
    assert_eq!(table.lookup_variable(&"var2".to_string()), None);
}

#[test]
fn test_semantic_analyzer_undefined_variable() {
    let mut analyzer = SemanticAnalyzer::new();
    let result = analyzer.analyze(&ASTNode::Program(vec![ASTNode::Identifier(
        "some_var".to_string(),
    )]));

    assert!(result.is_err());
    assert_eq!(
        result.err().unwrap()[0].error_type,
        SemanticErrorType::UndefinedVariable
    )
}

#[test]
fn test_semantic_analyzer_duplicate_declaration() {
    let mut analyzer = SemanticAnalyzer::new();
    let ast = ASTNode::Program(vec![
        ASTNode::Assignment {
            variable: "x".to_string(),
            value: Box::new(ASTNode::Number("1.".to_string())),
        },
        ASTNode::Assignment {
            variable: "x".to_string(),
            value: Box::new(ASTNode::Number("2.".to_string())),
        },
    ]);

    let result = analyzer.analyze(&ast);
    assert!(result.is_err());
    assert_eq!(
        result.err().unwrap()[0].error_type,
        SemanticErrorType::DuplicateDeclaration
    );
}

#[test]
fn test_semantic_analyzer_type_mismatch() {
    let mut analyzer = SemanticAnalyzer::new();
    _ = analyzer
        .symbol_table
        .declare_variable(&"x".to_string(), Type::Integer);
    _ = analyzer
        .symbol_table
        .declare_variable(&"y".to_string(), Type::Function);

    let node = ASTNode::BinaryOp {
        left: Box::new(ASTNode::Identifier("x".to_string())),
        op: BinaryOperator::Add,
        right: Box::new(ASTNode::Identifier("y".to_string())),
    };

    let result = analyzer.analyze(&node);

    assert!(result.is_err());
    assert_eq!(
        result.err().unwrap()[0].error_type,
        SemanticErrorType::TypeMismatch
    );
}

#[test]
fn shadowing_in_nested_scope_is_no_duplicate() {
    let mut table = SymbolTable::new();
    let x = "x".to_string();
    assert!(table.declare_variable(&x, Type::Integer).is_ok());
    table.enter_scope();
    assert!(table.declare_variable(&x, Type::Function).is_ok());
    let inner = table.lookup_variable("x").unwrap();
    assert_eq!(inner.symbol_type, Type::Function);
    assert_eq!(inner.scope_level, 1);
    table.exit_scope();
    let outer = table.lookup_variable("x").unwrap();
    assert_eq!(outer.symbol_type, Type::Integer);
    assert_eq!(outer.scope_level, 0);
}

#[test]
fn duplicate_declaration_names_the_variable() {
    let mut table = SymbolTable::new();
    let x = "count".to_string();
    assert!(table.declare_variable(&x, Type::Integer).is_ok());
    let err = table.declare_variable(&x, Type::Integer).unwrap_err();
    assert_eq!(err, "Trying to declare a duplicate variable \"count\"");
    // the table is unchanged by the refused declaration
    assert_eq!(table.lookup_variable("count").unwrap().symbol_type, Type::Integer);
}

#[test]
fn redeclaring_after_sibling_scope_is_allowed() {
    let mut table = SymbolTable::new();
    table.enter_scope();
    assert!(table.declare_variable(&"t".to_string(), Type::Integer).is_ok());
    table.exit_scope();
    assert!(table.lookup_variable("t").is_none());
    assert!(table.declare_variable(&"t".to_string(), Type::Integer).is_ok());
}

#[test]
fn analysis_reports_every_undefined_name_in_order() {
    let mut analyzer = SemanticAnalyzer::new();
    let ast = ASTNode::Program(vec![
        ASTNode::Assignment {
            variable: "x".to_string(),
            value: Box::new(ASTNode::Identifier("a".to_string())),
        },
        ASTNode::Assignment {
            variable: "y".to_string(),
            value: Box::new(ASTNode::Identifier("b".to_string())),
        },
    ]);
    let errors = analyzer.analyze(&ast).unwrap_err();
    assert_eq!(errors.len(), 2);
    assert_eq!(errors[0].error_type, SemanticErrorType::UndefinedVariable);
    assert_eq!(errors[0].message, "Variable not in scope: a");
    assert_eq!(errors[1].error_type, SemanticErrorType::UndefinedVariable);
    assert_eq!(errors[1].message, "Variable not in scope: b");
    // the assignments still declared their variables
    assert!(analyzer.symbol_table.lookup_variable("x").is_some());
    assert!(analyzer.symbol_table.lookup_variable("y").is_some());
}

#[test]
fn undefined_operand_also_mismatches() {
    let mut analyzer = SemanticAnalyzer::new();
    let ast = ASTNode::Program(vec![ASTNode::Assignment {
        variable: "x".to_string(),
        value: Box::new(ASTNode::BinaryOp {
            left: Box::new(ASTNode::Identifier("q".to_string())),
            op: BinaryOperator::Add,
            right: Box::new(ASTNode::Number("1".to_string())),
        }),
    }]);
    let errors = analyzer.analyze(&ast).unwrap_err();
    assert_eq!(errors.len(), 2);
    assert_eq!(errors[0].error_type, SemanticErrorType::UndefinedVariable);
    assert_eq!(errors[1].error_type, SemanticErrorType::TypeMismatch);
    assert_eq!(errors[1].message, "Type mismatch between operands");
}

#[test]
fn clean_program_analyzes_ok() {
    let mut analyzer = SemanticAnalyzer::new();
    let ast = ASTNode::Program(vec![
        ASTNode::Assignment {
            variable: "x".to_string(),
            value: Box::new(ASTNode::Number("1".to_string())),
        },
        ASTNode::Assignment {
            variable: "y".to_string(),
            value: Box::new(ASTNode::Identifier("x".to_string())),
        },
    ]);
    assert!(analyzer.analyze(&ast).is_ok());
}
