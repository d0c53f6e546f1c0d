use vstd::prelude::*;
use vstd::string::StringExecFns;

use crate::ast::ASTNode;

verus! {

broadcast use vstd::std_specs::vec::group_vec_axioms;

/// The type inferred for a name.
#[derive(Debug, Clone, Copy, PartialEq, Eq, Structural)]
pub enum Type {
    Integer,
    Function,
}

/// A declared name: its type and the scope level it was declared at.
#[derive(Debug, Clone, PartialEq)]
pub struct Symbol {
    pub name: String,
    pub symbol_type: Type,
    pub scope_level: usize,
}

/// The first symbol of a scope that carries `name`.
pub open spec fn find_in(scope: Seq<Symbol>, name: Seq<char>) -> Option<Symbol>
    decreases scope.len(),
{
    if scope.len() == 0 {
        None
    } else if scope[0].name@ == name {
        Some(scope[0])
    } else {
        find_in(scope.drop_first(), name)
    }
}

/// Looks `name` up from scope `level` down to scope 0; the innermost wins.
pub open spec fn lookup_from(scopes: Seq<Seq<Symbol>>, level: int, name: Seq<char>) -> Option<
    Symbol,
>
    decreases level + 1,
{
    if level < 0 || level >= scopes.len() {
        None
    } else if find_in(scopes[level], name) is Some {
        find_in(scopes[level], name)
    } else {
        lookup_from(scopes, level - 1, name)
    }
}

/// Looks `name` up from the innermost scope outward.
pub open spec fn lookup(scopes: Seq<Seq<Symbol>>, name: Seq<char>) -> Option<Symbol> {
    lookup_from(scopes, scopes.len() - 1, name)
}

/// Adding a symbol to a scope makes it the one found for its name and leaves
/// the other names as they were.
pub proof fn lemma_find_in_push(scope: Seq<Symbol>, s: Symbol, name: Seq<char>)
    requires
        find_in(scope, s.name@) is None,
    ensures
        find_in(scope.push(s), name) == if name == s.name@ {
            Some(s)
        } else {
            find_in(scope, name)
        },
    decreases scope.len(),
{
    let pushed = scope.push(s);
    if scope.len() > 0 {
        assert(pushed[0] == scope[0]);
        assert(pushed.drop_first() =~= scope.drop_first().push(s));
        lemma_find_in_push(scope.drop_first(), s, name);
    } else {
        assert(pushed[0] == s);
        assert(pushed.drop_first() =~= Seq::<Symbol>::empty());
        assert(find_in(pushed.drop_first(), name) is None);
    }
}

/// Scopes below `level` are all that a lookup from `level` reads.
pub proof fn lemma_lookup_from_prefix(a: Seq<Seq<Symbol>>, b: Seq<Seq<Symbol>>, level: int, name: Seq<char>)
    requires
        level < a.len(),
        level < b.len(),
        forall|i: int| 0 <= i <= level ==> a[i] == b[i],
    ensures
        lookup_from(a, level, name) == lookup_from(b, level, name),
    decreases level + 1,
{
    if level >= 0 {
        lemma_lookup_from_prefix(a, b, level - 1, name);
    }
}

/// After `sym` is declared in the innermost scope, which did not hold its
/// name, its name resolves to it and every other name as before.
pub proof fn lemma_lookup_after_declare(scopes: Seq<Seq<Symbol>>, sym: Symbol, name: Seq<char>)
    requires
        scopes.len() >= 1,
        find_in(scopes[scopes.len() - 1], sym.name@) is None,
    ensures
        lookup(scopes.update(scopes.len() - 1, scopes[scopes.len() - 1].push(sym)), name) == if name
            == sym.name@ {
            Some(sym)
        } else {
            lookup(scopes, name)
        },
{
    let cur = scopes.len() - 1;
    let declared = scopes.update(cur, scopes[cur].push(sym));
    lemma_find_in_push(scopes[cur], sym, name);
    lemma_lookup_from_prefix(declared, scopes, cur - 1, name);
}

/// Shadowing: in a new inner scope a name that an outer scope holds can be
/// declared again without a duplicate; while the inner scope is open the name
/// resolves to the inner declaration, and once it is closed the inner
/// declaration is gone and the name resolves as it did before.
pub proof fn lemma_shadowing(outer: Seq<Seq<Symbol>>, name: String, t: Type)
    requires
        outer.len() >= 1,
    ensures
        ({
            let inner = outer.push(Seq::empty());
            let sym = Symbol { name, symbol_type: t, scope_level: outer.len() as usize };
            let declared = inner.update(outer.len() as int, inner[outer.len() as int].push(sym));
            &&& find_in(inner[outer.len() as int], name@) is None
            &&& lookup(declared, name@) == Some(sym)
            &&& declared.drop_last() == outer
            &&& lookup(declared.drop_last(), name@) == lookup(outer, name@)
        }),
{
    let inner = outer.push(Seq::empty());
    let sym = Symbol { name, symbol_type: t, scope_level: outer.len() as usize };
    let declared = inner.update(outer.len() as int, inner[outer.len() as int].push(sym));
    assert(find_in(inner[outer.len() as int], name@) is None);
    lemma_lookup_after_declare(inner, sym, name@);
    assert(declared.drop_last() =~= outer);
}

/// A stack of scopes, each a list of symbols with distinct names; the last
/// scope is the current one, and scope 0 is never removed.
pub struct SymbolTable {
    scopes: Vec<Vec<Symbol>>,
    current_scope: usize,
}

impl View for SymbolTable {
    type V = Seq<Seq<Symbol>>;

    closed spec fn view(&self) -> Seq<Seq<Symbol>> {
        Seq::new(self.scopes.len() as nat, |i: int| self.scopes@[i]@)
    }
}

impl SymbolTable {
    pub closed spec fn wf(&self) -> bool {
        self.scopes.len() == self.current_scope + 1
    }

    /// The index of the current scope.
    pub open spec fn level(&self) -> int {
        self@.len() - 1
    }

    pub proof fn lemma_wf(&self)
        requires
            self.wf(),
        ensures
            self@.len() >= 1,
            self@.len() <= usize::MAX,
    {
    }

    /// A table with the one base scope, empty.
    pub fn new() -> (r: SymbolTable)
        ensures
            r.wf(),
            r@ == seq![Seq::<Symbol>::empty()],
    {
        let scopes: Vec<Vec<Symbol>> = vec![Vec::new()];
        let r = SymbolTable { scopes, current_scope: 0 };
        assert(r@ =~= seq![Seq::<Symbol>::empty()]);
        r
    }

    /// The number of scopes.
    pub fn scope_count(&self) -> (r: usize)
        requires
            self.wf(),
        ensures
            r == self@.len(),
    {
        self.scopes.len()
    }

    /// The index of the current scope.
    pub fn current_scope(&self) -> (r: usize)
        requires
            self.wf(),
        ensures
            r == self.level(),
    {
        self.current_scope
    }

    /// Opens a new, empty, innermost scope.
    pub fn enter_scope(&mut self)
        requires
            old(self).wf(),
            old(self)@.len() < usize::MAX,
        ensures
            final(self).wf(),
            final(self)@ == old(self)@.push(Seq::empty()),
    {
        self.current_scope = self.current_scope + 1;
        self.scopes.push(Vec::new());
        assert(self@ =~= old(self)@.push(Seq::empty()));
    }

    /// Closes the innermost scope, dropping what was declared in it. The base
    /// scope cannot be closed.
    pub fn exit_scope(&mut self)
        requires
            old(self).wf(),
            old(self)@.len() > 1,
        ensures
            final(self).wf(),
            final(self)@ == old(self)@.drop_last(),
    {
        while self.scopes.len() > self.current_scope
            invariant
                self.current_scope == old(self).current_scope,
                self.current_scope <= self.scopes.len() <= self.current_scope + 1,
                self.scopes@.len() > 0 ==> self.scopes@ == old(self).scopes@.take(
                    self.scopes.len() as int,
                ),
                old(self).wf(),
            decreases self.scopes.len(),
        {
            let _ = self.scopes.pop();
        }
        self.current_scope = self.current_scope - 1;
        assert(self@ =~= old(self)@.drop_last());
    }

    /// Where `name` stands in the current scope, if it does.
    fn find_current(&self, name: &String) -> (r: Option<usize>)
        requires
            self.wf(),
        ensures
            match r {
                Some(j) => j < self@[self.level()].len() && find_in(self@[self.level()], name@)
                    == Some(self@[self.level()][j as int]),
                None => find_in(self@[self.level()], name@) is None,
            },
    {
        find_index(&self.scopes[self.current_scope], name)
    }

    /// Declares `name` with type `var_type` in the current scope. A name that the
    /// current scope already holds is refused, and the table is left unchanged.
    pub fn declare_variable(&mut self, name: &String, var_type: Type) -> (r: Result<(), String>)
        requires
            old(self).wf(),
        ensures
            final(self).wf(),
            find_in(old(self)@[old(self).level()], name@) is Some ==> {
                &&& r is Err
                &&& r->Err_0@ == duplicate_message(name@)
                &&& final(self)@ == old(self)@
            },
            find_in(old(self)@[old(self).level()], name@) is None ==> {
                &&& r is Ok
                &&& final(self)@ == old(self)@.update(
                    old(self).level(),
                    old(self)@[old(self).level()].push(
                        Symbol { name: *name, symbol_type: var_type, scope_level: old(self).level() as usize },
                    ),
                )
            },
    {
        if self.find_current(name).is_some() {
            let mut msg = String::from_str("Trying to declare a duplicate variable \"");
            msg.append(name.as_str());
            msg.append("\"");
            return Err(msg);
        }
        let sym = Symbol { name: name.clone(), symbol_type: var_type, scope_level: self.current_scope };
        let cur = self.current_scope;
        self.scopes[cur].push(sym);
        assert(self@ =~= old(self)@.update(
            old(self).level(),
            old(self)@[old(self).level()].push(sym),
        ));
        Ok(())
    }

    /// The symbol that `name` resolves to, searching from the current scope
    /// down to scope 0.
    pub fn lookup_variable(&self, name: &str) -> (r: Option<&Symbol>)
        requires
            self.wf(),
        ensures
            match r {
                Some(s) => lookup(self@, name@) == Some(*s),
                None => lookup(self@, name@) is None,
            },
    {
        let key = String::from_str(name);
        let mut level: usize = self.current_scope;
        loop
            invariant
                self.wf(),
                key@ == name@,
                level <= self.current_scope,
                lookup(self@, name@) == lookup_from(self@, level as int, name@),
            decreases level,
        {
            match find_index(&self.scopes[level], &key) {
                Some(j) => {
                    assert(self@[level as int] == self.scopes@[level as int]@);
                    return Some(&self.scopes[level][j]);
                },
                None => {
                    if level == 0 {
                        assert(lookup_from(self@, -1, name@) is None);
                        return None;
                    }
                    level = level - 1;
                },
            }
        }
    }
}

/// The first index of `scope` that holds `name`.
fn find_index(scope: &Vec<Symbol>, name: &String) -> (r: Option<usize>)
    ensures
        match r {
            Some(j) => j < scope.len() && find_in(scope@, name@) == Some(scope@[j as int]),
            None => find_in(scope@, name@) is None,
        },
{
    let mut i: usize = 0;
    assert(scope@.subrange(0, scope.len() as int) =~= scope@);
    while i < scope.len()
        invariant
            i <= scope.len(),
            find_in(scope@, name@) == find_in(scope@.subrange(i as int, scope.len() as int), name@),
        decreases scope.len() - i,
    {
        assert(scope@.subrange(i as int, scope.len() as int).drop_first() =~= scope@.subrange(
            i + 1,
            scope.len() as int,
        ));
        if scope[i].name == *name {
            return Some(i);
        }
        i = i + 1;
    }
    None
}

/// The message that a second declaration of `name` in one scope carries.
pub open spec fn duplicate_message(name: Seq<char>) -> Seq<char> {
    "Trying to declare a duplicate variable \""@ + name + "\""@
}

/// The kind of a semantic diagnostic.
#[derive(Debug, Clone, Copy, PartialEq, Eq, Structural)]
pub enum SemanticErrorType {
    UndefinedVariable,
    DuplicateDeclaration,
    TypeMismatch,
}

/// A diagnostic found by the analyzer.
#[derive(Debug)]
pub struct SemanticError {
    pub message: String,
    pub error_type: SemanticErrorType,
}

/// A diagnostic as a mathematical value: its kind and its message.
pub type Diagnostic = (SemanticErrorType, Seq<char>);

impl View for SemanticError {
    type V = Diagnostic;

    open spec fn view(&self) -> Diagnostic {
        (self.error_type, self.message@)
    }
}

pub open spec fn diagnostics(errors: Seq<SemanticError>) -> Seq<Diagnostic> {
    errors.map_values(|e: SemanticError| e@)
}

/// The message of a reference to a name that no scope holds.
pub open spec fn undefined_message(name: Seq<char>) -> Seq<char> {
    "Variable not in scope: "@ + name
}

/// The message of a binary operation whose operands' types differ.
pub open spec fn mismatch_message() -> Seq<char> {
    "Type mismatch between operands"@
}

/// The type of an expression: numbers and operations are integers, a name has
/// the type it was declared with; anything else has none.
pub open spec fn expression_type(scopes: Seq<Seq<Symbol>>, node: ASTNode) -> Option<Type> {
    match node {
        ASTNode::Number(_) => Some(Type::Integer),
        ASTNode::BinaryOp { .. } => Some(Type::Integer),
        ASTNode::Identifier(n) => match lookup(scopes, n@) {
            Some(sym) => Some(sym.symbol_type),
            None => None,
        },
        _ => None,
    }
}

/// Declaring `name` with type `t` in the innermost scope: the new scopes and
/// the diagnostics it gives.
pub open spec fn declare(scopes: Seq<Seq<Symbol>>, name: String, t: Type) -> (
    Seq<Seq<Symbol>>,
    Seq<Diagnostic>,
) {
    let cur = scopes.len() - 1;
    if find_in(scopes[cur], name@) is Some {
        (scopes, seq![(SemanticErrorType::DuplicateDeclaration, duplicate_message(name@))])
    } else {
        (
            scopes.update(
                cur,
                scopes[cur].push(Symbol { name, symbol_type: t, scope_level: cur as usize }),
            ),
            Seq::empty(),
        )
    }
}

/// Analyzing `node` with the scopes `scopes`: the scopes afterwards and the
/// diagnostics, in the order of the walk.
///
/// An assignment walks its value, then declares its variable with the value's
/// type (an integer where the value has no type, its names being undefined).
/// An operation walks both operands, then compares their types. A name that no
/// scope holds is reported, and the walk goes on.
pub open spec fn analysis(scopes: Seq<Seq<Symbol>>, node: ASTNode) -> (
    Seq<Seq<Symbol>>,
    Seq<Diagnostic>,
)
    decreases node, 0int,
{
    match node {
        ASTNode::Program(v) => analysis_seq(scopes, v, 0),
        ASTNode::Assignment { variable, value } => {
            let a = analysis(scopes, *value);
            let t = match expression_type(a.0, *value) {
                Some(t) => t,
                None => Type::Integer,
            };
            let d = declare(a.0, variable, t);
            (d.0, a.1 + d.1)
        },
        ASTNode::BinaryOp { left, op, right } => {
            let l = analysis(scopes, *left);
            let r = analysis(l.0, *right);
            if expression_type(r.0, *left) != expression_type(r.0, *right) {
                (r.0, l.1 + r.1 + seq![(SemanticErrorType::TypeMismatch, mismatch_message())])
            } else {
                (r.0, l.1 + r.1)
            }
        },
        ASTNode::Identifier(n) => {
            if lookup(scopes, n@) is None {
                (scopes, seq![(SemanticErrorType::UndefinedVariable, undefined_message(n@))])
            } else {
                (scopes, Seq::empty())
            }
        },
        ASTNode::Number(_) => (scopes, Seq::empty()),
    }
}

/// Analyzing the statements of `v` from index `i` on, in order.
pub open spec fn analysis_seq(scopes: Seq<Seq<Symbol>>, v: Vec<ASTNode>, i: int) -> (
    Seq<Seq<Symbol>>,
    Seq<Diagnostic>,
)
    decreases v, v.len() - i,
{
    if 0 <= i < v.len() {
        let a = analysis(scopes, v[i]);
        let b = analysis_seq(a.0, v, i + 1);
        (b.0, a.1 + b.1)
    } else {
        (scopes, Seq::empty())
    }
}

/// Walks a syntax tree with a symbol table of its own and collects the
/// diagnostics.
pub struct SemanticAnalyzer {
    pub symbol_table: SymbolTable,
}

impl SemanticAnalyzer {
    /// An analyzer whose table holds the base scope alone.
    pub fn new() -> (r: SemanticAnalyzer)
        ensures
            r.symbol_table.wf(),
            r.symbol_table@ == seq![Seq::<Symbol>::empty()],
    {
        SemanticAnalyzer { symbol_table: SymbolTable::new() }
    }

    /// Analyzes `ast`, declaring its names in the table. Succeeds when there is
    /// no diagnostic; otherwise returns all of them, in the order of the walk.
    pub fn analyze(&mut self, ast: &ASTNode) -> (r: Result<(), Vec<SemanticError>>)
        requires
            old(self).symbol_table.wf(),
        ensures
            final(self).symbol_table.wf(),
            final(self).symbol_table@ == analysis(old(self).symbol_table@, *ast).0,
            r is Ok <==> analysis(old(self).symbol_table@, *ast).1.len() == 0,
            r is Err ==> diagnostics(r->Err_0@) == analysis(old(self).symbol_table@, *ast).1,
    {
        let mut errors: Vec<SemanticError> = Vec::new();
        self.visit_node(ast, &mut errors);
        assert(diagnostics(errors@) =~= analysis(old(self).symbol_table@, *ast).1);
        if errors.len() == 0 {
            Ok(())
        } else {
            Err(errors)
        }
    }

    fn visit_node(&mut self, node: &ASTNode, errors: &mut Vec<SemanticError>)
        requires
            old(self).symbol_table.wf(),
        ensures
            final(self).symbol_table.wf(),
            final(self).symbol_table@ == analysis(old(self).symbol_table@, *node).0,
            diagnostics(final(errors)@) == diagnostics(old(errors)@) + analysis(
                old(self).symbol_table@,
                *node,
            ).1,
        decreases node,
    {
        let ghost s0 = self.symbol_table@;
        let ghost e0 = diagnostics(errors@);
        match node {
            ASTNode::Program(statements) => {
                let mut i: usize = 0;
                assert(e0 + analysis_seq(s0, *statements, 0).1 =~= e0 + analysis_seq(s0, *statements, 0).1);
                while i < statements.len()
                    invariant
                        self.symbol_table.wf(),
                        0 <= i <= statements.len(),
                        *node == ASTNode::Program(*statements),
                        analysis_seq(s0, *statements, 0).0 == analysis_seq(
                            self.symbol_table@,
                            *statements,
                            i as int,
                        ).0,
                        e0 + analysis_seq(s0, *statements, 0).1 == diagnostics(errors@)
                            + analysis_seq(self.symbol_table@, *statements, i as int).1,
                    decreases statements.len() - i,
                {
                    let ghost si = self.symbol_table@;
                    let ghost ei = diagnostics(errors@);
                    assert(decreases_to!(*node => statements[i as int])) by {
                        assert(decreases_to!(*node => (*node)->Program_0));
                        assert(decreases_to!((*node)->Program_0 => (*node)->Program_0[i as int]));
                    }
                    self.visit_node(&statements[i], errors);
                    proof {
                        let a = analysis(si, statements@[i as int]);
                        let b = analysis_seq(a.0, *statements, i + 1);
                        assert(ei + (a.1 + b.1) =~= (ei + a.1) + b.1);
                    }
                    i = i + 1;
                }
                assert(diagnostics(errors@) =~= diagnostics(errors@) + Seq::<Diagnostic>::empty());
            },
            ASTNode::Assignment { variable, value } => {
                self.visit_node(value, errors);
                let var_type = match self.get_expression_type(value) {
                    Some(t) => t,
                    None => Type::Integer,
                };
                proof {
                    self.symbol_table.lemma_wf();
                }
                let ghost s1 = self.symbol_table@;
                let ghost e1 = diagnostics(errors@);
                match self.symbol_table.declare_variable(variable, var_type) {
                    Err(msg) => {
                        Self::add_error(errors, msg, SemanticErrorType::DuplicateDeclaration);
                    },
                    Ok(()) => {
                        assert(diagnostics(errors@) =~= e1 + Seq::<Diagnostic>::empty());
                    },
                }
                proof {
                    let a = analysis(s0, **value);
                    let d = declare(a.0, *variable, var_type);
                    assert(e1 + d.1 =~= diagnostics(errors@));
                    assert(e0 + (a.1 + d.1) =~= (e0 + a.1) + d.1);
                }
            },
            ASTNode::BinaryOp { left, op: _, right } => {
                self.visit_node(left, errors);
                let ghost e1 = diagnostics(errors@);
                self.visit_node(right, errors);
                let ghost e2 = diagnostics(errors@);
                let lt = self.get_expression_type(left);
                let rt = self.get_expression_type(right);
                if lt != rt {
                    Self::add_error(
                        errors,
                        String::from_str("Type mismatch between operands"),
                        SemanticErrorType::TypeMismatch,
                    );
                }
                proof {
                    let l = analysis(s0, **left);
                    let r = analysis(l.0, **right);
                    assert(e0 + (l.1 + r.1 + seq![(SemanticErrorType::TypeMismatch, mismatch_message())])
                        =~= e2 + seq![(SemanticErrorType::TypeMismatch, mismatch_message())]);
                    assert(e0 + (l.1 + r.1) =~= e2);
                }
            },
            ASTNode::Identifier(name) => {
                if self.symbol_table.lookup_variable(name.as_str()).is_none() {
                    let mut msg = String::from_str("Variable not in scope: ");
                    msg.append(name.as_str());
                    Self::add_error(errors, msg, SemanticErrorType::UndefinedVariable);
                } else {
                    assert(diagnostics(errors@) =~= e0 + Seq::<Diagnostic>::empty());
                }
            },
            ASTNode::Number(_) => {
                assert(diagnostics(errors@) =~= e0 + Seq::<Diagnostic>::empty());
            },
        }
    }

    fn add_error(errors: &mut Vec<SemanticError>, message: String, error_type: SemanticErrorType)
        ensures
            diagnostics(final(errors)@) == diagnostics(old(errors)@).push((error_type, message@)),
    {
        errors.push(SemanticError { message, error_type });
        assert(diagnostics(errors@) =~= diagnostics(old(errors)@).push((error_type, message@)));
    }

    fn get_expression_type(&self, node: &ASTNode) -> (r: Option<Type>)
        requires
            self.symbol_table.wf(),
        ensures
            r == expression_type(self.symbol_table@, *node),
    {
        match node {
            ASTNode::Number(_) => Some(Type::Integer),
            ASTNode::Identifier(name) => match self.symbol_table.lookup_variable(name.as_str()) {
                Some(sym) => Some(sym.symbol_type),
                None => None,
            },
            ASTNode::BinaryOp { .. } => Some(Type::Integer),
            _ => None,
        }
    }
}

/// Two assignments to one fresh name in one scope give exactly one
/// diagnostic, a duplicate declaration that names it.
pub proof fn lemma_duplicate_declaration(
    scopes: Seq<Seq<Symbol>>,
    program: ASTNode,
    statements: Vec<ASTNode>,
    x: String,
    y: String,
    a: String,
    b: String,
)
    requires
        scopes.len() >= 1,
        find_in(scopes[scopes.len() - 1], x@) is None,
        x@ == y@,
        program == ASTNode::Program(statements),
        statements@ == seq![
            ASTNode::Assignment { variable: x, value: Box::new(ASTNode::Number(a)) },
            ASTNode::Assignment { variable: y, value: Box::new(ASTNode::Number(b)) },
        ],
    ensures
        analysis(scopes, program).1 == seq![
            (SemanticErrorType::DuplicateDeclaration, duplicate_message(x@)),
        ],
{
    let cur = scopes.len() - 1;
    let sym = Symbol { name: x, symbol_type: Type::Integer, scope_level: cur as usize };
    let s1 = scopes.update(cur, scopes[cur].push(sym));
    lemma_find_in_push(scopes[cur], sym, y@);
    assert(s1[cur] == scopes[cur].push(sym));
    assert(statements[0] == ASTNode::Assignment { variable: x, value: Box::new(ASTNode::Number(a)) });
    assert(statements[1] == ASTNode::Assignment { variable: y, value: Box::new(ASTNode::Number(b)) });
    assert(analysis(scopes, ASTNode::Number(a)) == (scopes, Seq::<Diagnostic>::empty()));
    assert(declare(scopes, x, Type::Integer) == (s1, Seq::<Diagnostic>::empty()));
    let first = analysis(scopes, statements[0]);
    assert(first.0 == s1);
    assert(first.1 =~= Seq::<Diagnostic>::empty());
    assert(analysis(s1, ASTNode::Number(b)) == (s1, Seq::<Diagnostic>::empty()));
    let second = analysis(s1, statements[1]);
    assert(second.1 =~= seq![(SemanticErrorType::DuplicateDeclaration, duplicate_message(x@))]);
    assert(analysis_seq(second.0, statements, 2).1 == Seq::<Diagnostic>::empty());
    assert(analysis_seq(s1, statements, 1).1 =~= second.1);
    assert(analysis_seq(scopes, statements, 0).1 =~= second.1);
}

/// A reference to a name that no scope holds is reported, and the analysis
/// goes on: two assignments whose values are two undefined names give two
/// diagnostics, one for each, in order.
pub proof fn lemma_undefined_variables(
    scopes: Seq<Seq<Symbol>>,
    program: ASTNode,
    statements: Vec<ASTNode>,
    x: String,
    y: String,
    a: String,
    b: String,
)
    requires
        scopes.len() >= 1,
        find_in(scopes[scopes.len() - 1], x@) is None,
        find_in(scopes[scopes.len() - 1], y@) is None,
        x@ != y@,
        b@ != x@,
        lookup(scopes, a@) is None,
        lookup(scopes, b@) is None,
        program == ASTNode::Program(statements),
        statements@ == seq![
            ASTNode::Assignment { variable: x, value: Box::new(ASTNode::Identifier(a)) },
            ASTNode::Assignment { variable: y, value: Box::new(ASTNode::Identifier(b)) },
        ],
    ensures
        analysis(scopes, program).1 == seq![
            (SemanticErrorType::UndefinedVariable, undefined_message(a@)),
            (SemanticErrorType::UndefinedVariable, undefined_message(b@)),
        ],
{
    let cur = scopes.len() - 1;
    let sym = Symbol { name: x, symbol_type: Type::Integer, scope_level: cur as usize };
    let s1 = scopes.update(cur, scopes[cur].push(sym));
    lemma_find_in_push(scopes[cur], sym, y@);
    lemma_lookup_after_declare(scopes, sym, b@);
    assert(s1[cur] == scopes[cur].push(sym));
    assert(statements[0] == ASTNode::Assignment { variable: x, value: Box::new(ASTNode::Identifier(a)) });
    assert(statements[1] == ASTNode::Assignment { variable: y, value: Box::new(ASTNode::Identifier(b)) });
    assert(expression_type(scopes, ASTNode::Identifier(a)) is None);
    assert(declare(scopes, x, Type::Integer) == (s1, Seq::<Diagnostic>::empty()));
    assert(lookup(s1, b@) is None);
    assert(expression_type(s1, ASTNode::Identifier(b)) is None);
    assert(analysis(scopes, ASTNode::Identifier(a)) == (
        scopes,
        seq![(SemanticErrorType::UndefinedVariable, undefined_message(a@))],
    ));
    assert(analysis(s1, ASTNode::Identifier(b)) == (
        s1,
        seq![(SemanticErrorType::UndefinedVariable, undefined_message(b@))],
    ));
    assert(seq![(SemanticErrorType::UndefinedVariable, undefined_message(a@))] + Seq::<Diagnostic>::empty()
        =~= seq![(SemanticErrorType::UndefinedVariable, undefined_message(a@))]);
    let first = analysis(scopes, statements[0]);
    assert(first.0 == s1);
    assert(first.1 =~= seq![(SemanticErrorType::UndefinedVariable, undefined_message(a@))]);
    let second = analysis(s1, statements[1]);
    assert(second.1 =~= seq![(SemanticErrorType::UndefinedVariable, undefined_message(b@))]);
    assert(analysis_seq(second.0, statements, 2).1 == Seq::<Diagnostic>::empty());
    assert(analysis_seq(s1, statements, 1).1 =~= second.1);
    assert(analysis_seq(scopes, statements, 0).1 =~= first.1 + second.1);
}

} // verus!
