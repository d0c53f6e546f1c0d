use vstd::prelude::*;
use vstd::string::StringExecFns;

use crate::ast::{boxed_node, ASTNode, BinaryOperator, Node};
use crate::lexer::{lemma_lex_at_progress, lex_at, skip_ws, Lexer, Token, TokenView};

verus! {

/// Where a parse stands: the look-ahead token and the lexer's position.
pub struct ParseState {
    pub cur: TokenView,
    pub pos: int,
}

/// Reading the next token of `s`.
pub open spec fn adv(s: Seq<char>, st: ParseState) -> ParseState {
    ParseState { cur: lex_at(s, st.pos).0, pos: lex_at(s, st.pos).1 }
}

/// What is left to read: the characters after the position, and the
/// look-ahead token unless it is the end of input.
pub open spec fn measure(s: Seq<char>, st: ParseState) -> nat {
    ((if st.pos <= s.len() {
        s.len() - st.pos
    } else {
        0int
    }) + (if st.cur != TokenView::EoF {
        1int
    } else {
        0int
    })) as nat
}

/// Reading a token never adds to what is left, and passing a token other than
/// the end of input takes something away.
pub proof fn lemma_adv_measure(s: Seq<char>, st: ParseState)
    ensures
        measure(s, adv(s, st)) <= measure(s, st),
        st.cur != TokenView::EoF ==> measure(s, adv(s, st)) < measure(s, st),
{
    if 0 <= st.pos <= s.len() {
        lemma_lex_at_progress(s, st.pos);
    } else {
        assert(skip_ws(s, st.pos) == st.pos);
    }
}

/// The parse of one result: the tree, if there is one, and the state after it.
pub type Parsed = (Option<Node>, ParseState);

/// `primary := NUMBER | IDENT | '(' expression ')'`
pub open spec fn primary(s: Seq<char>, st: ParseState) -> Parsed
    decreases measure(s, st), 0nat,
{
    match st.cur {
        TokenView::LParen => {
            let st1 = adv(s, st);
            if measure(s, st1) < measure(s, st) {
                let e = expression(s, st1);
                match e.0 {
                    Some(n) => if e.1.cur == TokenView::RParen {
                        (Some(n), adv(s, e.1))
                    } else {
                        (None, e.1)
                    },
                    None => e,
                }
            } else {
                (None, st1)
            }
        },
        TokenView::Identifier(n) => (Some(Node::Identifier(n)), adv(s, st)),
        TokenView::Number(v) => (Some(Node::Number(v)), adv(s, st)),
        _ => (None, st),
    }
}

/// The operator of `*` or `/`.
pub open spec fn factor_operator(t: TokenView) -> Option<BinaryOperator> {
    match t {
        TokenView::Multiply => Some(BinaryOperator::Multiply),
        TokenView::Divide => Some(BinaryOperator::Divide),
        _ => None,
    }
}

/// The operator of `+` or `-`.
pub open spec fn term_operator(t: TokenView) -> Option<BinaryOperator> {
    match t {
        TokenView::Plus => Some(BinaryOperator::Add),
        TokenView::Minus => Some(BinaryOperator::Subtract),
        _ => None,
    }
}

pub open spec fn binary(left: Node, op: BinaryOperator, right: Node) -> Node {
    Node::BinaryOp { left: Box::new(left), op, right: Box::new(right) }
}

/// `factor := primary (('*' | '/') primary)*`, folded to the left.
pub open spec fn factor(s: Seq<char>, st: ParseState) -> Parsed
    decreases measure(s, st), 2nat,
{
    let p = primary(s, st);
    match p.0 {
        Some(n) => if measure(s, p.1) <= measure(s, st) {
            factor_rest(s, n, p.1)
        } else {
            (None, p.1)
        },
        None => p,
    }
}

/// The repetition of a factor after `left`. An operator whose right operand
/// does not parse ends the repetition: `left` is the result, and the tokens
/// read so far stay read.
pub open spec fn factor_rest(s: Seq<char>, left: Node, st: ParseState) -> Parsed
    decreases measure(s, st), 1nat,
{
    match factor_operator(st.cur) {
        Some(op) => {
            let st1 = adv(s, st);
            if measure(s, st1) < measure(s, st) {
                let r = primary(s, st1);
                match r.0 {
                    Some(rn) => if measure(s, r.1) <= measure(s, st1) {
                        factor_rest(s, binary(left, op, rn), r.1)
                    } else {
                        (None, r.1)
                    },
                    None => (Some(left), r.1),
                }
            } else {
                (None, st1)
            }
        },
        None => (Some(left), st),
    }
}

/// `term := factor (('+' | '-') factor)*`, folded to the left.
pub open spec fn term(s: Seq<char>, st: ParseState) -> Parsed
    decreases measure(s, st), 4nat,
{
    let p = factor(s, st);
    match p.0 {
        Some(n) => if measure(s, p.1) <= measure(s, st) {
            term_rest(s, n, p.1)
        } else {
            (None, p.1)
        },
        None => p,
    }
}

/// The repetition of a term after `left`, ending as in `factor_rest`.
pub open spec fn term_rest(s: Seq<char>, left: Node, st: ParseState) -> Parsed
    decreases measure(s, st), 3nat,
{
    match term_operator(st.cur) {
        Some(op) => {
            let st1 = adv(s, st);
            if measure(s, st1) < measure(s, st) {
                let r = factor(s, st1);
                match r.0 {
                    Some(rn) => if measure(s, r.1) <= measure(s, st1) {
                        term_rest(s, binary(left, op, rn), r.1)
                    } else {
                        (None, r.1)
                    },
                    None => (Some(left), r.1),
                }
            } else {
                (None, st1)
            }
        },
        None => (Some(left), st),
    }
}

/// `expression := term`
pub open spec fn expression(s: Seq<char>, st: ParseState) -> Parsed
    decreases measure(s, st), 5nat,
{
    term(s, st)
}

/// `assignment := IDENT '=' expression ';'`
pub open spec fn assignment(s: Seq<char>, st: ParseState) -> Parsed {
    match st.cur {
        TokenView::Identifier(n) => {
            let st1 = adv(s, st);
            if st1.cur == TokenView::Assign {
                let e = expression(s, adv(s, st1));
                match e.0 {
                    Some(x) => if e.1.cur == TokenView::Semi {
                        (Some(Node::Assignment { variable: n, value: Box::new(x) }), adv(s, e.1))
                    } else {
                        (None, e.1)
                    },
                    None => e,
                }
            } else {
                (None, st1)
            }
        },
        _ => (None, st),
    }
}

/// `program := statement* EOF`, the statements parsed so far being `done`.
pub open spec fn program_rest(s: Seq<char>, done: Seq<Node>, st: ParseState) -> Parsed
    decreases measure(s, st),
{
    if st.cur == TokenView::EoF {
        (Some(Node::Program(done)), st)
    } else {
        let a = assignment(s, st);
        match a.0 {
            Some(n) => if measure(s, a.1) < measure(s, st) {
                program_rest(s, done.push(n), a.1)
            } else {
                (None, a.1)
            },
            None => (None, a.1),
        }
    }
}

/// The state of a parser that has read the first token of `s`.
pub open spec fn start(s: Seq<char>) -> ParseState {
    adv(s, ParseState { cur: TokenView::EoF, pos: 0 })
}

/// The program that `s` parses to, if it parses.
pub open spec fn parse_text(s: Seq<char>) -> Option<Node> {
    program_rest(s, Seq::empty(), start(s)).0
}

pub open spec fn views(v: Seq<ASTNode>) -> Seq<Node> {
    Seq::new(v.len(), |i: int| v[i].view())
}

/// A recursive-descent parser with one token of look-ahead.
pub struct Parser {
    lexer: Lexer,
    current_token: Token,
}

impl Parser {
    pub closed spec fn wf(&self) -> bool {
        self.lexer.wf()
    }

    /// The text being parsed.
    pub closed spec fn text(&self) -> Seq<char> {
        self.lexer.text()
    }

    /// Where the parse stands.
    pub closed spec fn st(&self) -> ParseState {
        ParseState { cur: self.current_token@, pos: self.lexer.pos() }
    }

    /// What is left for the parser to read.
    pub open spec fn remaining(&self) -> nat {
        measure(self.text(), self.st())
    }

    /// A parser that has read the first token of `lexer`.
    pub fn new(lexer: Lexer) -> (r: Parser)
        requires
            lexer.wf(),
        ensures
            r.wf(),
            r.text() == lexer.text(),
            r.st() == adv(lexer.text(), ParseState { cur: TokenView::EoF, pos: lexer.pos() }),
    {
        let mut lexer = lexer;
        let current_token = lexer.next_token();
        Parser { lexer, current_token }
    }

    fn advance(&mut self)
        requires
            old(self).wf(),
        ensures
            final(self).wf(),
            final(self).text() == old(self).text(),
            final(self).st() == adv(old(self).text(), old(self).st()),
            final(self).remaining() <= old(self).remaining(),
            old(self).st().cur != TokenView::EoF ==> final(self).remaining() < old(self).remaining(),
    {
        proof {
            lemma_adv_measure(self.text(), self.st());
        }
        self.current_token = self.lexer.next_token();
    }

    /// Reads the look-ahead token if it is `expected`, else fails and reads nothing.
    fn expect_token(&mut self, expected: Token) -> (r: Result<(), String>)
        requires
            old(self).wf(),
        ensures
            final(self).wf(),
            final(self).text() == old(self).text(),
            r is Ok <==> old(self).st().cur == expected@,
            r is Ok ==> final(self).st() == adv(old(self).text(), old(self).st()),
            r is Err ==> final(self).st() == old(self).st(),
            final(self).remaining() <= old(self).remaining(),
    {
        if same_token(&self.current_token, &expected) {
            self.advance();
            Ok(())
        } else {
            Err(String::from_str("unexpected token"))
        }
    }

    fn parse_primary(&mut self) -> (r: Result<Box<ASTNode>, String>)
        requires
            old(self).wf(),
        ensures
            final(self).wf(),
            final(self).text() == old(self).text(),
            final(self).st() == primary(old(self).text(), old(self).st()).1,
            r is Ok <==> primary(old(self).text(), old(self).st()).0 is Some,
            r is Ok ==> (*r->Ok_0).view() == primary(old(self).text(), old(self).st()).0->0,
            final(self).remaining() <= old(self).remaining(),
        decreases old(self).remaining(), 0nat,
    {
        let ghost s = self.text();
        let ghost st0 = self.st();
        match &self.current_token {
            Token::LParen => {
                self.advance();
                let e = self.parse_expression();
                match e {
                    Ok(term) => {
                        match self.expect_token(Token::RParen) {
                            Ok(()) => Ok(term),
                            Err(msg) => Err(msg),
                        }
                    },
                    Err(msg) => Err(msg),
                }
            },
            Token::Identifier(name) => {
                let n = name.clone();
                self.advance();
                Ok(boxed_node(ASTNode::Identifier(n)))
            },
            Token::Number(value) => {
                let v = value.clone();
                self.advance();
                Ok(boxed_node(ASTNode::Number(v)))
            },
            _ => Err(String::from_str("expected a number, a name or '('")),
        }
    }

    fn parse_factor(&mut self) -> (r: Result<Box<ASTNode>, String>)
        requires
            old(self).wf(),
        ensures
            final(self).wf(),
            final(self).text() == old(self).text(),
            final(self).st() == factor(old(self).text(), old(self).st()).1,
            r is Ok <==> factor(old(self).text(), old(self).st()).0 is Some,
            r is Ok ==> (*r->Ok_0).view() == factor(old(self).text(), old(self).st()).0->0,
            final(self).remaining() <= old(self).remaining(),
        decreases old(self).remaining(), 2nat,
    {
        let ghost s = self.text();
        let ghost st0 = self.st();
        let mut left = match self.parse_primary() {
            Ok(l) => l,
            Err(msg) => {
                return Err(msg);
            },
        };
        loop
            invariant
                self.wf(),
                self.text() == s,
                s == old(self).text(),
                st0 == old(self).st(),
                self.remaining() <= measure(s, st0),
                factor(s, st0) == factor_rest(s, (*left).view(), self.st()),
            ensures
                self.wf(),
                self.text() == s,
                self.remaining() <= measure(s, st0),
                factor(s, st0) == (Some((*left).view()), self.st()),
            decreases self.remaining(),
        {
            let op = match &self.current_token {
                Token::Multiply => BinaryOperator::Multiply,
                Token::Divide => BinaryOperator::Divide,
                _ => {
                    break;
                },
            };
            self.advance();
            match self.parse_primary() {
                Ok(right) => {
                    left = boxed_node(ASTNode::BinaryOp { left, op, right });
                },
                Err(_) => {
                    return Ok(left);
                },
            }
        }
        Ok(left)
    }

    fn parse_term(&mut self) -> (r: Result<Box<ASTNode>, String>)
        requires
            old(self).wf(),
        ensures
            final(self).wf(),
            final(self).text() == old(self).text(),
            final(self).st() == term(old(self).text(), old(self).st()).1,
            r is Ok <==> term(old(self).text(), old(self).st()).0 is Some,
            r is Ok ==> (*r->Ok_0).view() == term(old(self).text(), old(self).st()).0->0,
            final(self).remaining() <= old(self).remaining(),
        decreases old(self).remaining(), 4nat,
    {
        let ghost s = self.text();
        let ghost st0 = self.st();
        let mut left = match self.parse_factor() {
            Ok(l) => l,
            Err(msg) => {
                return Err(msg);
            },
        };
        loop
            invariant
                self.wf(),
                self.text() == s,
                s == old(self).text(),
                st0 == old(self).st(),
                self.remaining() <= measure(s, st0),
                term(s, st0) == term_rest(s, (*left).view(), self.st()),
            ensures
                self.wf(),
                self.text() == s,
                self.remaining() <= measure(s, st0),
                term(s, st0) == (Some((*left).view()), self.st()),
            decreases self.remaining(),
        {
            let op = match &self.current_token {
                Token::Plus => BinaryOperator::Add,
                Token::Minus => BinaryOperator::Subtract,
                _ => {
                    break;
                },
            };
            self.advance();
            match self.parse_factor() {
                Ok(right) => {
                    left = boxed_node(ASTNode::BinaryOp { left, op, right });
                },
                Err(_) => {
                    return Ok(left);
                },
            }
        }
        Ok(left)
    }

    fn parse_expression(&mut self) -> (r: Result<Box<ASTNode>, String>)
        requires
            old(self).wf(),
        ensures
            final(self).wf(),
            final(self).text() == old(self).text(),
            final(self).st() == expression(old(self).text(), old(self).st()).1,
            r is Ok <==> expression(old(self).text(), old(self).st()).0 is Some,
            r is Ok ==> (*r->Ok_0).view() == expression(old(self).text(), old(self).st()).0->0,
            final(self).remaining() <= old(self).remaining(),
        decreases old(self).remaining(), 5nat,
    {
        self.parse_term()
    }

    fn parse_assignment(&mut self) -> (r: Result<ASTNode, String>)
        requires
            old(self).wf(),
        ensures
            final(self).wf(),
            final(self).text() == old(self).text(),
            final(self).st() == assignment(old(self).text(), old(self).st()).1,
            r is Ok <==> assignment(old(self).text(), old(self).st()).0 is Some,
            r is Ok ==> r->Ok_0.view() == assignment(old(self).text(), old(self).st()).0->0,
            r is Ok ==> final(self).remaining() < old(self).remaining(),
    {
        let ident = match &self.current_token {
            Token::Identifier(name) => name.clone(),
            _ => {
                return Err(String::from_str("expected a name"));
            },
        };
        self.advance();
        match self.expect_token(Token::Assign) {
            Ok(()) => {},
            Err(msg) => {
                return Err(msg);
            },
        }
        let expr = match self.parse_expression() {
            Ok(e) => e,
            Err(msg) => {
                return Err(msg);
            },
        };
        match self.expect_token(Token::Semi) {
            Ok(()) => {},
            Err(msg) => {
                return Err(msg);
            },
        }
        Ok(ASTNode::Assignment { variable: ident, value: expr })
    }

    fn parse_statement(&mut self) -> (r: Result<ASTNode, String>)
        requires
            old(self).wf(),
        ensures
            final(self).wf(),
            final(self).text() == old(self).text(),
            final(self).st() == assignment(old(self).text(), old(self).st()).1,
            r is Ok <==> assignment(old(self).text(), old(self).st()).0 is Some,
            r is Ok ==> r->Ok_0.view() == assignment(old(self).text(), old(self).st()).0->0,
            r is Ok ==> final(self).remaining() < old(self).remaining(),
    {
        self.parse_assignment()
    }

    /// Parses statements up to the end of input. The first statement that does
    /// not parse makes the whole parse fail.
    pub fn parse_program(&mut self) -> (r: Result<ASTNode, String>)
        requires
            old(self).wf(),
        ensures
            final(self).wf(),
            r is Ok <==> program_rest(old(self).text(), Seq::empty(), old(self).st()).0 is Some,
            r is Ok ==> r->Ok_0.view() == program_rest(
                old(self).text(),
                Seq::empty(),
                old(self).st(),
            ).0->0,
    {
        let ghost s = self.text();
        let ghost st0 = self.st();
        let mut program_vec: Vec<ASTNode> = Vec::new();
        assert(views(program_vec@) =~= Seq::<Node>::empty());
        while !matches!(self.current_token, Token::EoF)
            invariant
                self.wf(),
                self.text() == s,
                s == old(self).text(),
                st0 == old(self).st(),
                program_rest(s, Seq::empty(), st0) == program_rest(s, views(program_vec@), self.st()),
            decreases self.remaining(),
        {
            match self.parse_statement() {
                Ok(stmt) => {
                    let ghost before = views(program_vec@);
                    program_vec.push(stmt);
                    assert(views(program_vec@) =~= before.push(stmt.view()));
                },
                Err(msg) => {
                    return Err(msg);
                },
            }
        }
        let r = ASTNode::Program(program_vec);
        assert(views(program_vec@) =~= r.view()->Program_0);
        Ok(r)
    }
}

/// Whether two tokens are the same token, with the same text.
fn same_token(a: &Token, b: &Token) -> (r: bool)
    ensures
        r == (a@ == b@),
{
    match a {
        Token::Number(x) => match b {
            Token::Number(y) => *x == *y,
            _ => false,
        },
        Token::Identifier(x) => match b {
            Token::Identifier(y) => *x == *y,
            _ => false,
        },
        Token::Plus => matches!(b, Token::Plus),
        Token::Minus => matches!(b, Token::Minus),
        Token::Divide => matches!(b, Token::Divide),
        Token::Multiply => matches!(b, Token::Multiply),
        Token::Assign => matches!(b, Token::Assign),
        Token::LParen => matches!(b, Token::LParen),
        Token::RParen => matches!(b, Token::RParen),
        Token::Semi => matches!(b, Token::Semi),
        Token::EoF => matches!(b, Token::EoF),
    }
}

} // verus!
