use vstd::prelude::*;
use vstd::string::StringExecFns;

use crate::lexer::{Token, TokenView};

verus! {

/// One of the four arithmetic operators.
#[derive(Debug, Clone, Copy, PartialEq, Eq, Structural)]
pub enum BinaryOperator {
    Add,
    Subtract,
    Multiply,
    Divide,
}

/// A node of the syntax tree. A numeric literal keeps its source text; its
/// value as a number is left to whoever runs the program.
#[derive(Debug, PartialEq)]
pub enum ASTNode {
    Number(String),
    Identifier(String),
    BinaryOp { left: Box<ASTNode>, op: BinaryOperator, right: Box<ASTNode> },
    Assignment { variable: String, value: Box<ASTNode> },
    Program(Vec<ASTNode>),
}

/// The tree as a mathematical value: every name and literal as its characters.
pub enum Node {
    Number(Seq<char>),
    Identifier(Seq<char>),
    BinaryOp { left: Box<Node>, op: BinaryOperator, right: Box<Node> },
    Assignment { variable: Seq<char>, value: Box<Node> },
    Program(Seq<Node>),
}

impl ASTNode {
    pub open spec fn view(self) -> Node
        decreases self,
    {
        match self {
            ASTNode::Number(s) => Node::Number(s@),
            ASTNode::Identifier(s) => Node::Identifier(s@),
            ASTNode::BinaryOp { left, op, right } => Node::BinaryOp {
                left: Box::new((*left).view()),
                op,
                right: Box::new((*right).view()),
            },
            ASTNode::Assignment { variable, value } => Node::Assignment {
                variable: variable@,
                value: Box::new((*value).view()),
            },
            ASTNode::Program(v) => Node::Program(
                Seq::new(v.len() as nat, |i: int| if 0 <= i < v.len() { v[i].view() } else { Node::Number(Seq::empty()) }),
            ),
        }
    }
}

/// Puts a node on the heap.
pub fn boxed_node(node: ASTNode) -> (r: Box<ASTNode>)
    ensures
        *r == node,
{
    Box::new(node)
}

/// The operator that a token stands for, if it stands for one.
pub open spec fn operator_of(t: TokenView) -> Option<BinaryOperator> {
    match t {
        TokenView::Plus => Some(BinaryOperator::Add),
        TokenView::Minus => Some(BinaryOperator::Subtract),
        TokenView::Multiply => Some(BinaryOperator::Multiply),
        TokenView::Divide => Some(BinaryOperator::Divide),
        _ => None,
    }
}

/// Maps `+ - * /` to their operators; any other token is an error.
pub fn token_to_binary_op(token: Token) -> (r: Result<BinaryOperator, String>)
    ensures
        match operator_of(token@) {
            Some(op) => r == Ok::<BinaryOperator, String>(op),
            None => r is Err,
        },
{
    match token {
        Token::Plus => Ok(BinaryOperator::Add),
        Token::Minus => Ok(BinaryOperator::Subtract),
        Token::Multiply => Ok(BinaryOperator::Multiply),
        Token::Divide => Ok(BinaryOperator::Divide),
        _ => Err(String::from_str("token is not a binary operator")),
    }
}

} // verus!
