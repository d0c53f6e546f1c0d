use vstd::prelude::*;

use crate::ast::BinaryOperator;
use crate::interpreter::Instruction;
use crate::semantic_analyzer::{lookup, Symbol, SymbolTable};

verus! {

/// A fault that ends a run of the machine.
#[derive(Debug, Clone, PartialEq)]
pub enum VmFault {
    /// A name that the symbol table does not hold.
    UndefinedVariable(String),
    /// A name that is read before anything was stored under it.
    UnsetVariable(String),
    /// An instruction found fewer operands on the stack than it takes.
    StackUnderflow,
    /// A division whose right operand is zero.
    DivisionByZero,
}

/// What one step of the machine did, or what it needs from its caller.
///
/// The machine does not compute with values itself: for `Constant` the caller
/// supplies the value of the literal, for `Arithmetic` the value of
/// `lhs op rhs`, each through `resume`.
#[derive(Debug, Clone, PartialEq)]
pub enum Step<V> {
    /// An instruction ran; the machine can step again.
    Continue,
    /// The program counter is past the last instruction.
    Halt,
    /// The value of this literal is needed.
    Constant(String),
    /// The value of `lhs op rhs` is needed.
    Arithmetic(BinaryOperator, V, V),
    /// The run cannot go on.
    Fault(VmFault),
}

/// The position of the first entry of `store` from index `i` on whose key is `key`.
pub open spec fn store_index<V>(store: Seq<(String, V)>, key: Seq<char>, i: int) -> Option<int>
    decreases store.len() - i,
{
    if i < 0 || i >= store.len() {
        None
    } else if store[i].0@ == key {
        Some(i)
    } else {
        store_index(store, key, i + 1)
    }
}

/// The value stored under `key`.
pub open spec fn store_get<V>(store: Seq<(String, V)>, key: Seq<char>) -> Option<V> {
    match store_index(store, key, 0) {
        Some(j) => Some(store[j].1),
        None => None,
    }
}

/// `store` with `value` under `key`: an existing entry is overwritten in place,
/// a new key goes at the end.
pub open spec fn store_put<V>(store: Seq<(String, V)>, key: String, value: V) -> Seq<(String, V)> {
    match store_index(store, key@, 0) {
        Some(j) => store.update(j, (key, value)),
        None => store.push((key, value)),
    }
}

/// The machine's state as a mathematical value.
pub struct MachineState<V> {
    pub pc: int,
    pub stack: Seq<V>,
    pub store: Seq<(String, V)>,
    /// Whether the machine waits for a value from its caller.
    pub waiting: bool,
}

/// The arithmetic instruction's operator.
pub open spec fn instruction_operator(i: Instruction) -> Option<BinaryOperator> {
    match i {
        Instruction::Add => Some(BinaryOperator::Add),
        Instruction::Subtract => Some(BinaryOperator::Subtract),
        Instruction::Multiply => Some(BinaryOperator::Multiply),
        Instruction::Divide => Some(BinaryOperator::Divide),
        _ => None,
    }
}

/// One step of the machine on `instrs`, with `table` for the names that exist.
/// A fault leaves the state as it was.
pub open spec fn next<V>(instrs: Seq<Instruction>, table: Seq<Seq<Symbol>>, s: MachineState<V>) -> (
    Step<V>,
    MachineState<V>,
) {
    if s.pc < 0 || s.pc >= instrs.len() {
        (Step::Halt, s)
    } else {
        let n = s.stack.len();
        match instrs[s.pc] {
            Instruction::LoadConstant(c) => (Step::Constant(c), MachineState { waiting: true, ..s }),
            Instruction::LoadVariable(name) => {
                if lookup(table, name@) is None {
                    (Step::Fault(VmFault::UndefinedVariable(name)), s)
                } else {
                    match store_get(s.store, name@) {
                        None => (Step::Fault(VmFault::UnsetVariable(name)), s),
                        Some(v) => (
                            Step::Continue,
                            MachineState { pc: s.pc + 1, stack: s.stack.push(v), ..s },
                        ),
                    }
                }
            },
            Instruction::StoreVariable(name) => {
                if n == 0 {
                    (Step::Fault(VmFault::StackUnderflow), s)
                } else {
                    (
                        Step::Continue,
                        MachineState {
                            pc: s.pc + 1,
                            stack: s.stack.drop_last(),
                            store: store_put(s.store, name, s.stack.last()),
                            ..s
                        },
                    )
                }
            },
            Instruction::Stop => (Step::Continue, MachineState { pc: s.pc + 1, ..s }),
            other => {
                if n < 2 {
                    (Step::Fault(VmFault::StackUnderflow), s)
                } else {
                    (
                        Step::Arithmetic(
                            instruction_operator(other)->0,
                            s.stack[n - 2],
                            s.stack[n - 1],
                        ),
                        MachineState { stack: s.stack.take(n - 2), waiting: true, ..s },
                    )
                }
            },
        }
    }
}

/// A stack machine over values of type `V`: a program counter, an operand
/// stack and a store from names to values.
pub struct VM<V> {
    instructions: Vec<Instruction>,
    symbol_table: SymbolTable,
    storage: Vec<(String, V)>,
    program_counter: usize,
    stack: Vec<V>,
    waiting: bool,
}

impl<V: Copy> VM<V> {
    /// The instructions that the machine runs.
    pub closed spec fn instrs(&self) -> Seq<Instruction> {
        self.instructions@
    }

    /// The scopes consulted for the names that exist.
    pub closed spec fn table(&self) -> Seq<Seq<Symbol>> {
        self.symbol_table@
    }

    /// The machine's state.
    pub closed spec fn state(&self) -> MachineState<V> {
        MachineState {
            pc: self.program_counter as int,
            stack: self.stack@,
            store: self.storage@,
            waiting: self.waiting,
        }
    }

    pub closed spec fn wf(&self) -> bool {
        &&& self.symbol_table.wf()
        &&& self.program_counter <= self.instructions.len()
        &&& self.waiting ==> self.program_counter < self.instructions.len()
    }

    /// The state at the start of a run.
    pub open spec fn initial() -> MachineState<V> {
        MachineState { pc: 0, stack: Seq::empty(), store: Seq::empty(), waiting: false }
    }

    /// A machine for `instructions` that checks names against `symbol_table`.
    pub fn new(instructions: Vec<Instruction>, symbol_table: SymbolTable) -> (r: VM<V>)
        requires
            symbol_table.wf(),
        ensures
            r.wf(),
            r.instrs() == instructions@,
            r.table() == symbol_table@,
            r.state() == Self::initial(),
    {
        VM {
            instructions,
            symbol_table,
            storage: Vec::new(),
            program_counter: 0,
            stack: Vec::new(),
            waiting: false,
        }
    }

    /// Empties the store and the stack and puts the counter back to the start.
    pub fn reset(&mut self)
        requires
            old(self).wf(),
        ensures
            final(self).wf(),
            final(self).instrs() == old(self).instrs(),
            final(self).table() == old(self).table(),
            final(self).state() == Self::initial(),
    {
        self.storage = Vec::new();
        self.stack = Vec::new();
        self.program_counter = 0;
        self.waiting = false;
    }

    /// The store: each name with the value last stored under it.
    pub fn variables(&self) -> (r: &Vec<(String, V)>)
        ensures
            r@ == self.state().store,
    {
        &self.storage
    }

    /// Runs the instruction at the program counter, or says what it needs.
    pub fn step(&mut self) -> (r: Step<V>)
        requires
            old(self).wf(),
            !old(self).state().waiting,
        ensures
            final(self).wf(),
            final(self).instrs() == old(self).instrs(),
            final(self).table() == old(self).table(),
            (r, final(self).state()) == next(old(self).instrs(), old(self).table(), old(self).state()),
    {
        if self.program_counter >= self.instructions.len() {
            return Step::Halt;
        }
        let n = self.stack.len();
        match &self.instructions[self.program_counter] {
            Instruction::LoadConstant(c) => {
                self.waiting = true;
                Step::Constant(c.clone())
            },
            Instruction::LoadVariable(name) => {
                if self.symbol_table.lookup_variable(name.as_str()).is_none() {
                    return Step::Fault(VmFault::UndefinedVariable(name.clone()));
                }
                match find_entry(&self.storage, name) {
                    None => Step::Fault(VmFault::UnsetVariable(name.clone())),
                    Some(j) => {
                        let v = self.storage[j].1;
                        self.stack.push(v);
                        self.program_counter = self.program_counter + 1;
                        Step::Continue
                    },
                }
            },
            Instruction::StoreVariable(name) => {
                if n == 0 {
                    return Step::Fault(VmFault::StackUnderflow);
                }
                let key = name.clone();
                let v = self.stack.pop().unwrap();
                match find_entry(&self.storage, &key) {
                    Some(j) => {
                        self.storage.set(j, (key, v));
                    },
                    None => {
                        self.storage.push((key, v));
                    },
                }
                self.program_counter = self.program_counter + 1;
                Step::Continue
            },
            Instruction::Stop => {
                self.program_counter = self.program_counter + 1;
                Step::Continue
            },
            Instruction::Add => self.pop_two(BinaryOperator::Add),
            Instruction::Subtract => self.pop_two(BinaryOperator::Subtract),
            Instruction::Multiply => self.pop_two(BinaryOperator::Multiply),
            Instruction::Divide => self.pop_two(BinaryOperator::Divide),
        }
    }

    /// Takes the two top operands off the stack, the right one first, and asks
    /// for `lhs op rhs`.
    fn pop_two(&mut self, op: BinaryOperator) -> (r: Step<V>)
        ensures
            final(self).instructions == old(self).instructions,
            final(self).symbol_table == old(self).symbol_table,
            final(self).storage == old(self).storage,
            final(self).program_counter == old(self).program_counter,
            old(self).stack.len() < 2 ==> r == Step::<V>::Fault(VmFault::StackUnderflow)
                && final(self).stack == old(self).stack && final(self).waiting == old(self).waiting,
            old(self).stack.len() >= 2 ==> {
                let n = old(self).stack.len() as int;
                &&& r == Step::Arithmetic(op, old(self).stack@[n - 2], old(self).stack@[n - 1])
                &&& final(self).stack@ == old(self).stack@.take(n - 2)
                &&& final(self).waiting
            },
    {
        if self.stack.len() < 2 {
            return Step::Fault(VmFault::StackUnderflow);
        }
        let rhs = self.stack.pop().unwrap();
        let lhs = self.stack.pop().unwrap();
        self.waiting = true;
        Step::Arithmetic(op, lhs, rhs)
    }

    /// Hands the machine the value it waits for: it is pushed and the program
    /// counter moves on. `None` stands for an operation without a value, a
    /// division by zero, and is a fault that leaves the state as it was.
    pub fn resume(&mut self, value: Option<V>) -> (r: Result<(), VmFault>)
        requires
            old(self).wf(),
            old(self).state().waiting,
        ensures
            final(self).wf(),
            final(self).instrs() == old(self).instrs(),
            final(self).table() == old(self).table(),
            match value {
                Some(v) => r is Ok && final(self).state() == MachineState {
                    pc: old(self).state().pc + 1,
                    stack: old(self).state().stack.push(v),
                    waiting: false,
                    ..old(self).state()
                },
                None => r == Err::<(), VmFault>(VmFault::DivisionByZero) && final(self).state()
                    == old(self).state(),
            },
    {
        match value {
            Some(v) => {
                self.program_counter = self.program_counter + 1;
                self.stack.push(v);
                self.waiting = false;
                Ok(())
            },
            None => Err(VmFault::DivisionByZero),
        }
    }
}

/// The first position of `store` whose key is `key`.
fn find_entry<V>(store: &Vec<(String, V)>, key: &String) -> (r: Option<usize>)
    ensures
        match r {
            Some(j) => store_index(store@, key@, 0) == Some(j as int) && j < store.len(),
            None => store_index(store@, key@, 0) is None,
        },
{
    let mut i: usize = 0;
    while i < store.len()
        invariant
            i <= store.len(),
            store_index(store@, key@, 0) == store_index(store@, key@, i as int),
        decreases store.len() - i,
    {
        if store[i].0 == *key {
            return Some(i);
        }
        i = i + 1;
    }
    None
}

} // verus!
