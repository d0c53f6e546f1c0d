use vstd::prelude::*;

use crate::ast::{ASTNode, BinaryOperator};

verus! {

broadcast use vstd::std_specs::vec::group_vec_axioms;

/// An instruction of the stack machine. A constant keeps its literal text.
#[derive(Debug, Clone, PartialEq)]
pub enum Instruction {
    LoadConstant(String),
    LoadVariable(String),
    StoreVariable(String),
    Add,
    Subtract,
    Divide,
    Multiply,
    Stop,
}

/// The instruction that applies an operator.
pub open spec fn operator_instruction(op: BinaryOperator) -> Instruction {
    match op {
        BinaryOperator::Add => Instruction::Add,
        BinaryOperator::Subtract => Instruction::Subtract,
        BinaryOperator::Multiply => Instruction::Multiply,
        BinaryOperator::Divide => Instruction::Divide,
    }
}

/// The instructions of a tree, in post-order: operands before their operator,
/// a value before the store into its variable, statements in order.
pub open spec fn compile(node: ASTNode) -> Seq<Instruction>
    decreases node, 0int,
{
    match node {
        ASTNode::Number(v) => seq![Instruction::LoadConstant(v)],
        ASTNode::Identifier(n) => seq![Instruction::LoadVariable(n)],
        ASTNode::BinaryOp { left, op, right } => compile(*left) + compile(*right) + seq![
            operator_instruction(op),
        ],
        ASTNode::Assignment { variable, value } => compile(*value) + seq![
            Instruction::StoreVariable(variable),
        ],
        ASTNode::Program(v) => compile_seq(v, 0),
    }
}

/// The instructions of the statements of `v` from index `i` on.
pub open spec fn compile_seq(v: Vec<ASTNode>, i: int) -> Seq<Instruction>
    decreases v, v.len() - i,
{
    if 0 <= i < v.len() {
        compile(v[i]) + compile_seq(v, i + 1)
    } else {
        Seq::empty()
    }
}

/// The names that the `StoreVariable` instructions of `instrs` store into, in order.
pub open spec fn stores(instrs: Seq<Instruction>) -> Seq<String>
    decreases instrs.len(),
{
    if instrs.len() == 0 {
        Seq::empty()
    } else {
        stores(instrs.drop_last()) + match instrs.last() {
            Instruction::StoreVariable(n) => seq![n],
            _ => Seq::empty(),
        }
    }
}

/// The variables of the assignments of a tree, in the order of the text.
pub open spec fn assignment_targets(node: ASTNode) -> Seq<String>
    decreases node, 0int,
{
    match node {
        ASTNode::BinaryOp { left, op, right } => assignment_targets(*left) + assignment_targets(
            *right,
        ),
        ASTNode::Assignment { variable, value } => assignment_targets(*value).push(variable),
        ASTNode::Program(v) => assignment_targets_seq(v, 0),
        _ => Seq::empty(),
    }
}

pub open spec fn assignment_targets_seq(v: Vec<ASTNode>, i: int) -> Seq<String>
    decreases v, v.len() - i,
{
    if 0 <= i < v.len() {
        assignment_targets(v[i]) + assignment_targets_seq(v, i + 1)
    } else {
        Seq::empty()
    }
}

pub open spec fn stop_free(instrs: Seq<Instruction>) -> bool {
    forall|i: int| 0 <= i < instrs.len() ==> instrs[i] != Instruction::Stop
}

proof fn lemma_stores_append(a: Seq<Instruction>, b: Seq<Instruction>)
    ensures
        stores(a + b) == stores(a) + stores(b),
    decreases b.len(),
{
    if b.len() == 0 {
        assert(a + b =~= a);
        assert(stores(a) + stores(b) =~= stores(a));
    } else {
        assert((a + b).drop_last() =~= a + b.drop_last());
        lemma_stores_append(a, b.drop_last());
        assert(stores(a) + stores(b) =~= stores(a) + stores(b.drop_last()) + match b.last() {
            Instruction::StoreVariable(n) => seq![n],
            _ => Seq::<String>::empty(),
        });
    }
}

proof fn lemma_single_store(i: Instruction)
    ensures
        stores(seq![i]) == match i {
            Instruction::StoreVariable(n) => seq![n],
            _ => Seq::<String>::empty(),
        },
{
    assert(seq![i].drop_last() =~= Seq::<Instruction>::empty());
    assert(stores(Seq::<Instruction>::empty()) == Seq::<String>::empty());
    assert(seq![i].last() == i);
    assert(Seq::<String>::empty() + match i {
        Instruction::StoreVariable(n) => seq![n],
        _ => Seq::<String>::empty(),
    } =~= match i {
        Instruction::StoreVariable(n) => seq![n],
        _ => Seq::<String>::empty(),
    });
}

proof fn lemma_compile_stores(node: ASTNode)
    ensures
        stores(compile(node)) == assignment_targets(node),
        stop_free(compile(node)),
    decreases node, 0int,
{
    match node {
        ASTNode::Number(v) => lemma_single_store(Instruction::LoadConstant(v)),
        ASTNode::Identifier(n) => lemma_single_store(Instruction::LoadVariable(n)),
        ASTNode::BinaryOp { left, op, right } => {
            lemma_compile_stores(*left);
            lemma_compile_stores(*right);
            lemma_single_store(operator_instruction(op));
            lemma_stores_append(compile(*left), compile(*right));
            lemma_stores_append(compile(*left) + compile(*right), seq![operator_instruction(op)]);
            assert(assignment_targets(*left) + assignment_targets(*right) + Seq::<String>::empty()
                =~= assignment_targets(*left) + assignment_targets(*right));
        },
        ASTNode::Assignment { variable, value } => {
            lemma_compile_stores(*value);
            lemma_single_store(Instruction::StoreVariable(variable));
            lemma_stores_append(compile(*value), seq![Instruction::StoreVariable(variable)]);
            assert(assignment_targets(*value) + seq![variable] =~= assignment_targets(*value).push(
                variable,
            ));
        },
        ASTNode::Program(v) => lemma_compile_seq_stores(v, 0),
    }
}

proof fn lemma_compile_seq_stores(v: Vec<ASTNode>, i: int)
    ensures
        stores(compile_seq(v, i)) == assignment_targets_seq(v, i),
        stop_free(compile_seq(v, i)),
    decreases v, v.len() - i,
{
    if 0 <= i < v.len() {
        lemma_compile_stores(v[i]);
        lemma_compile_seq_stores(v, i + 1);
        lemma_stores_append(compile(v[i]), compile_seq(v, i + 1));
    } else {
        assert(stores(Seq::<Instruction>::empty()) == Seq::<String>::empty());
    }
}

/// The instructions generated for any tree end with `Stop`, hold no other
/// `Stop`, and hold one `StoreVariable` for each assignment of the tree, into
/// its variable, in the order of the text.
pub proof fn lemma_generated_program_shape(node: ASTNode)
    ensures
        ({
            let out = compile(node).push(Instruction::Stop);
            &&& out.last() == Instruction::Stop
            &&& forall|i: int| 0 <= i < out.len() - 1 ==> out[i] != Instruction::Stop
            &&& stores(out) == assignment_targets(node)
        }),
{
    let out = compile(node).push(Instruction::Stop);
    lemma_compile_stores(node);
    assert(out.drop_last() =~= compile(node));
    assert(stores(out) =~= stores(compile(node)) + Seq::<String>::empty());
}

/// Compiles syntax trees to instructions.
pub struct Interpreter {}

impl Interpreter {
    pub fn new() -> (r: Interpreter) {
        Interpreter {  }
    }

    /// The instructions of `program`, followed by `Stop`.
    pub fn generate_instructions(&mut self, program: &ASTNode) -> (r: Vec<Instruction>)
        ensures
            r@ == compile(*program).push(Instruction::Stop),
    {
        let mut out: Vec<Instruction> = Vec::new();
        self.visit_node(program, &mut out);
        out.push(Instruction::Stop);
        out
    }

    fn visit_node(&self, node: &ASTNode, out: &mut Vec<Instruction>)
        ensures
            final(out)@ == old(out)@ + compile(*node),
        decreases node,
    {
        match node {
            ASTNode::Number(x) => {
                out.push(Instruction::LoadConstant(x.clone()));
            },
            ASTNode::Identifier(x) => {
                out.push(Instruction::LoadVariable(x.clone()));
            },
            ASTNode::BinaryOp { left, op, right } => {
                self.visit_node(left, out);
                self.visit_node(right, out);
                out.push(self.binary_op_to_instruction(op));
                assert(final(out)@ =~= old(out)@ + compile(*node));
            },
            ASTNode::Assignment { variable, value } => {
                self.visit_node(value, out);
                out.push(Instruction::StoreVariable(variable.clone()));
                assert(final(out)@ =~= old(out)@ + compile(*node));
            },
            ASTNode::Program(statements) => {
                let mut i: usize = 0;
                while i < statements.len()
                    invariant
                        0 <= i <= statements.len(),
                        *node == ASTNode::Program(*statements),
                        old(out)@ + compile(*node) == out@ + compile_seq(*statements, i as int),
                    decreases statements.len() - i,
                {
                    assert(decreases_to!(*node => statements[i as int])) by {
                        assert(decreases_to!(*node => (*node)->Program_0));
                        assert(decreases_to!((*node)->Program_0 => (*node)->Program_0[i as int]));
                    }
                    let ghost before = out@;
                    self.visit_node(&statements[i], out);
                    assert(before + (compile(statements[i as int]) + compile_seq(*statements, i + 1))
                        =~= out@ + compile_seq(*statements, i + 1));
                    i = i + 1;
                }
                assert(out@ =~= out@ + compile_seq(*statements, i as int));
            },
        }
    }

    fn binary_op_to_instruction(&self, op: &BinaryOperator) -> (r: Instruction)
        ensures
            r == operator_instruction(*op),
    {
        match op {
            BinaryOperator::Add => Instruction::Add,
            BinaryOperator::Subtract => Instruction::Subtract,
            BinaryOperator::Multiply => Instruction::Multiply,
            BinaryOperator::Divide => Instruction::Divide,
        }
    }
}

} // verus!
