use vstd::prelude::*;

verus! {

/// A token of the source text. A numeric literal keeps its characters.
#[derive(Debug, Clone, PartialEq)]
pub enum Token {
    Number(String),
    Identifier(String),
    Plus,
    Minus,
    Divide,
    Multiply,
    Assign,
    LParen,
    RParen,
    Semi,
    EoF,
}

/// A token as a mathematical value.
pub enum TokenView {
    Number(Seq<char>),
    Identifier(Seq<char>),
    Plus,
    Minus,
    Divide,
    Multiply,
    Assign,
    LParen,
    RParen,
    Semi,
    EoF,
}

impl View for Token {
    type V = TokenView;

    open spec fn view(&self) -> TokenView {
        match self {
            Token::Number(s) => TokenView::Number(s@),
            Token::Identifier(s) => TokenView::Identifier(s@),
            Token::Plus => TokenView::Plus,
            Token::Minus => TokenView::Minus,
            Token::Divide => TokenView::Divide,
            Token::Multiply => TokenView::Multiply,
            Token::Assign => TokenView::Assign,
            Token::LParen => TokenView::LParen,
            Token::RParen => TokenView::RParen,
            Token::Semi => TokenView::Semi,
            Token::EoF => TokenView::EoF,
        }
    }
}

/// The characters with the Unicode White_Space property.
pub open spec fn whitespace_char(c: char) -> bool {
    ('\u{9}' <= c <= '\u{d}') || c == ' ' || c == '\u{85}' || c == '\u{a0}' || c == '\u{1680}'
        || ('\u{2000}' <= c <= '\u{200a}') || c == '\u{2028}' || c == '\u{2029}' || c
        == '\u{202f}' || c == '\u{205f}' || c == '\u{3000}'
}

/// Whether `char::is_numeric` holds of a character (general categories Nd, Nl, No).
pub uninterp spec fn numeric_char(c: char) -> bool;

/// Whether `char::is_alphabetic` holds of a character (Unicode Alphabetic).
pub uninterp spec fn alphabetic_char(c: char) -> bool;

/// Relies on `char::is_whitespace`: true exactly of the characters with the
/// White_Space property.
#[verifier::external_body]
fn is_whitespace(c: char) -> (r: bool)
    ensures
        r == whitespace_char(c),
{
    c.is_whitespace()
}

/// Relies on `char::is_numeric`.
#[verifier::external_body]
fn is_numeric(c: char) -> (r: bool)
    ensures
        r == numeric_char(c),
{
    c.is_numeric()
}

/// Relies on `char::is_alphabetic`.
#[verifier::external_body]
fn is_alphabetic(c: char) -> (r: bool)
    ensures
        r == alphabetic_char(c),
{
    c.is_alphabetic()
}

/// Relies on `String::push`: appends one character.
#[verifier::external_body]
fn push_char(s: &mut String, c: char)
    ensures
        final(s)@ == old(s)@.push(c),
{
    s.push(c)
}

/// The single-character token that `c` spells, if any.
pub open spec fn plain_token(c: char) -> Option<TokenView> {
    if c == '+' {
        Some(TokenView::Plus)
    } else if c == '-' {
        Some(TokenView::Minus)
    } else if c == '*' {
        Some(TokenView::Multiply)
    } else if c == '/' {
        Some(TokenView::Divide)
    } else if c == '=' {
        Some(TokenView::Assign)
    } else if c == '(' {
        Some(TokenView::LParen)
    } else if c == ')' {
        Some(TokenView::RParen)
    } else if c == ';' {
        Some(TokenView::Semi)
    } else {
        None
    }
}

/// The first position at or after `p` that does not hold whitespace.
pub open spec fn skip_ws(s: Seq<char>, p: int) -> int
    decreases s.len() - p,
{
    if 0 <= p < s.len() && whitespace_char(s[p]) {
        skip_ws(s, p + 1)
    } else {
        p
    }
}

/// The end of the maximal run of numeric characters and at most one decimal
/// point that starts at `p`; `dot` says whether a point was already taken.
pub open spec fn number_end(s: Seq<char>, p: int, dot: bool) -> int
    decreases s.len() - p,
{
    if 0 <= p < s.len() && numeric_char(s[p]) {
        number_end(s, p + 1, dot)
    } else if 0 <= p < s.len() && s[p] == '.' && !dot {
        number_end(s, p + 1, true)
    } else {
        p
    }
}

/// Whether `c` may stand in an identifier, `first` telling whether it would be
/// the identifier's first character.
pub open spec fn ident_char(c: char, first: bool) -> bool {
    alphabetic_char(c) || (numeric_char(c) && !first) || c == '_'
}

/// The end of the maximal identifier run that starts at `p`.
pub open spec fn ident_end(s: Seq<char>, p: int, first: bool) -> int
    decreases s.len() - p,
{
    if 0 <= p < s.len() && ident_char(s[p], first) {
        ident_end(s, p + 1, false)
    } else {
        p
    }
}

/// The token that starts at position `p` of `s`, and the position after it.
pub open spec fn lex_at(s: Seq<char>, p: int) -> (TokenView, int) {
    let q = skip_ws(s, p);
    if 0 <= q < s.len() {
        let c = s[q];
        if plain_token(c) is Some {
            (plain_token(c)->0, q + 1)
        } else if numeric_char(c) || c == '.' {
            let e = number_end(s, q, false);
            (TokenView::Number(s.subrange(q, e)), e)
        } else if alphabetic_char(c) || c == '_' {
            let e = ident_end(s, q, true);
            (TokenView::Identifier(s.subrange(q, e)), e)
        } else {
            (TokenView::EoF, q)
        }
    } else {
        (TokenView::EoF, q)
    }
}

pub proof fn lemma_skip_ws_bounds(s: Seq<char>, p: int)
    requires
        0 <= p <= s.len(),
    ensures
        p <= skip_ws(s, p) <= s.len(),
    decreases s.len() - p,
{
    if p < s.len() && whitespace_char(s[p]) {
        lemma_skip_ws_bounds(s, p + 1);
    }
}

pub proof fn lemma_number_end_bounds(s: Seq<char>, p: int, dot: bool)
    requires
        0 <= p <= s.len(),
    ensures
        p <= number_end(s, p, dot) <= s.len(),
    decreases s.len() - p,
{
    if p < s.len() && numeric_char(s[p]) {
        lemma_number_end_bounds(s, p + 1, dot);
    } else if p < s.len() && s[p] == '.' && !dot {
        lemma_number_end_bounds(s, p + 1, true);
    }
}

pub proof fn lemma_ident_end_bounds(s: Seq<char>, p: int, first: bool)
    requires
        0 <= p <= s.len(),
    ensures
        p <= ident_end(s, p, first) <= s.len(),
    decreases s.len() - p,
{
    if p < s.len() && ident_char(s[p], first) {
        lemma_ident_end_bounds(s, p + 1, false);
    }
}

/// Every token but the end of input consumes at least one character, and the
/// position never passes the end of the text.
pub proof fn lemma_lex_at_progress(s: Seq<char>, p: int)
    requires
        0 <= p <= s.len(),
    ensures
        p <= lex_at(s, p).1 <= s.len(),
        lex_at(s, p).0 != TokenView::EoF ==> p < lex_at(s, p).1,
{
    lemma_skip_ws_bounds(s, p);
    let q = skip_ws(s, p);
    if q < s.len() {
        lemma_number_end_bounds(s, q, false);
        lemma_ident_end_bounds(s, q, true);
        if !(plain_token(s[q]) is Some) && (numeric_char(s[q]) || s[q] == '.') {
            if numeric_char(s[q]) {
                lemma_number_end_bounds(s, q + 1, false);
            } else {
                lemma_number_end_bounds(s, q + 1, true);
            }
        }
        if !(plain_token(s[q]) is Some) && !(numeric_char(s[q]) || s[q] == '.') && (alphabetic_char(s[q]) || s[q] == '_') {
            lemma_ident_end_bounds(s, q + 1, false);
        }
    }
}

/// The tokens of `s` from position `p` on, `n` of them.
pub open spec fn tokens_from(s: Seq<char>, p: int, n: nat) -> Seq<TokenView>
    decreases n,
{
    if n == 0 {
        Seq::empty()
    } else {
        seq![lex_at(s, p).0] + tokens_from(s, lex_at(s, p).1, (n - 1) as nat)
    }
}

/// Tokenizing is a function of the text alone: two lexers over equal texts,
/// at equal positions, read the same tokens, however many are read.
pub proof fn lemma_tokenizing_deterministic(a: Seq<char>, b: Seq<char>, p: int, n: nat)
    requires
        a == b,
    ensures
        tokens_from(a, p, n) == tokens_from(b, p, n),
        n > 0 ==> tokens_from(a, p, n)[0] == lex_at(a, p).0,
{
}

proof fn lemma_skip_ws_idempotent(s: Seq<char>, p: int)
    requires
        0 <= p <= s.len(),
    ensures
        skip_ws(s, skip_ws(s, p)) == skip_ws(s, p),
    decreases s.len() - p,
{
    if p < s.len() && whitespace_char(s[p]) {
        lemma_skip_ws_idempotent(s, p + 1);
    }
}

/// Once the end of input is read, every further read gives it again, at the
/// same position.
pub proof fn lemma_end_of_input_repeats(s: Seq<char>, p: int)
    requires
        0 <= p <= s.len(),
        lex_at(s, p).0 == TokenView::EoF,
    ensures
        lex_at(s, lex_at(s, p).1) == lex_at(s, p),
{
    lemma_skip_ws_bounds(s, p);
    lemma_skip_ws_idempotent(s, p);
}

/// A pull-based stream of tokens over a text.
pub struct Lexer {
    input: Vec<char>,
    position: usize,
    current_char: Option<char>,
}

impl Lexer {
    /// The characters of the text.
    pub closed spec fn text(&self) -> Seq<char> {
        self.input@
    }

    /// The position of the next character to read.
    pub closed spec fn pos(&self) -> int {
        self.position as int
    }

    pub closed spec fn wf(&self) -> bool {
        &&& self.position <= self.input.len()
        &&& self.current_char == if self.position < self.input.len() {
            Some(self.input@[self.position as int])
        } else {
            None::<char>
        }
    }

    /// A lexer at the start of `input`.
    pub fn new(input: &str) -> (r: Lexer)
        ensures
            r.wf(),
            r.text() == input@,
            r.pos() == 0,
    {
        let mut chars: Vec<char> = Vec::new();
        for c in it: input.chars()
            invariant
                chars@ == it.seq().take(it.index() as int),
        {
            chars.push(c);
        }
        proof {
            broadcast use vstd::string::group_string_axioms;
            assert(chars@ =~= input@);
        }
        let current_char = if chars.len() > 0 {
            Some(chars[0])
        } else {
            None
        };
        Lexer { input: chars, position: 0, current_char }
    }

    fn advance(&mut self) -> (r: bool)
        requires
            old(self).wf(),
        ensures
            final(self).wf(),
            final(self).input == old(self).input,
            r == (old(self).position < old(self).input.len()),
            final(self).position == if r { old(self).position + 1 } else { old(self).position as int },
    {
        if self.position >= self.input.len() {
            self.current_char = None;
            return false;
        }
        self.position = self.position + 1;
        self.current_char = if self.position < self.input.len() {
            Some(self.input[self.position])
        } else {
            None
        };
        true
    }

    fn skip_whitespace(&mut self)
        requires
            old(self).wf(),
        ensures
            final(self).wf(),
            final(self).input == old(self).input,
            final(self).position == skip_ws(old(self).input@, old(self).position as int),
    {
        while self.current_char.is_some() && is_whitespace(self.current_char.unwrap())
            invariant
                self.wf(),
                self.input == old(self).input,
                skip_ws(self.input@, self.position as int) == skip_ws(
                    old(self).input@,
                    old(self).position as int,
                ),
            decreases self.input.len() - self.position,
        {
            self.advance();
        }
    }

    fn read_number(&mut self) -> (r: String)
        requires
            old(self).wf(),
        ensures
            final(self).wf(),
            final(self).input == old(self).input,
            final(self).position == number_end(old(self).input@, old(self).position as int, false),
            r@ == old(self).input@.subrange(
                old(self).position as int,
                final(self).position as int,
            ),
    {
        let mut num_string = String::new();
        let mut encountered_decimal = false;
        let ghost start = self.position as int;
        assert(num_string@ =~= self.input@.subrange(start, start));
        loop
            invariant
                self.wf(),
                self.input == old(self).input,
                start == old(self).position,
                start <= self.position,
                number_end(self.input@, self.position as int, encountered_decimal) == number_end(
                    self.input@,
                    start,
                    false,
                ),
                num_string@ == self.input@.subrange(start, self.position as int),
            ensures
                self.wf(),
                self.input == old(self).input,
                self.position == number_end(self.input@, start, false),
                num_string@ == self.input@.subrange(start, self.position as int),
            decreases self.input.len() - self.position,
        {
            let c = match self.current_char {
                Some(c) => c,
                None => {
                    assert(number_end(self.input@, self.position as int, encountered_decimal)
                        == self.position as int);
                    break;
                },
            };
            assert(self.position < self.input.len() && c == self.input@[self.position as int]);
            if is_numeric(c) {
                push_char(&mut num_string, c);
            } else if c == '.' && !encountered_decimal {
                encountered_decimal = true;
                push_char(&mut num_string, c);
            } else {
                assert(number_end(self.input@, self.position as int, encountered_decimal)
                    == self.position as int);
                break;
            }
            assert(num_string@ =~= self.input@.subrange(start, self.position + 1));
            self.advance();
        }
        num_string
    }

    fn read_identifier(&mut self) -> (r: String)
        requires
            old(self).wf(),
        ensures
            final(self).wf(),
            final(self).input == old(self).input,
            final(self).position == ident_end(old(self).input@, old(self).position as int, true),
            r@ == old(self).input@.subrange(
                old(self).position as int,
                final(self).position as int,
            ),
    {
        let mut ident_string = String::new();
        let mut first_iter = true;
        let ghost start = self.position as int;
        assert(ident_string@ =~= self.input@.subrange(start, start));
        loop
            invariant
                self.wf(),
                self.input == old(self).input,
                start == old(self).position,
                start <= self.position,
                ident_end(self.input@, self.position as int, first_iter) == ident_end(
                    self.input@,
                    start,
                    true,
                ),
                ident_string@ == self.input@.subrange(start, self.position as int),
            ensures
                self.wf(),
                self.input == old(self).input,
                self.position == ident_end(self.input@, start, true),
                ident_string@ == self.input@.subrange(start, self.position as int),
            decreases self.input.len() - self.position,
        {
            let valid = match self.current_char {
                Some(c) => is_alphabetic(c) || (is_numeric(c) && !first_iter) || c == '_',
                None => false,
            };
            if !valid {
                assert(ident_end(self.input@, self.position as int, first_iter)
                    == self.position as int);
                break;
            }
            let c = self.current_char.unwrap();
            assert(self.position < self.input.len() && c == self.input@[self.position as int]);
            push_char(&mut ident_string, c);
            assert(ident_string@ =~= self.input@.subrange(start, self.position + 1));
            first_iter = false;
            self.advance();
        }
        ident_string
    }

    fn match_plain_token(&self, token_char: char) -> (r: Option<Token>)
        ensures
            match plain_token(token_char) {
                Some(t) => r is Some && r->0@ == t,
                None => r is None,
            },
    {
        match token_char {
            '+' => Some(Token::Plus),
            '-' => Some(Token::Minus),
            '*' => Some(Token::Multiply),
            '/' => Some(Token::Divide),
            '=' => Some(Token::Assign),
            '(' => Some(Token::LParen),
            ')' => Some(Token::RParen),
            ';' => Some(Token::Semi),
            _ => None,
        }
    }

    /// Reads the next token. Once the end of input is reached, every further
    /// call returns `EoF` again.
    pub fn next_token(&mut self) -> (r: Token)
        requires
            old(self).wf(),
        ensures
            final(self).wf(),
            final(self).text() == old(self).text(),
            (r@, final(self).pos()) == lex_at(old(self).text(), old(self).pos()),
    {
        self.skip_whitespace();
        match self.current_char {
            Some(x) => {
                match self.match_plain_token(x) {
                    Some(token) => {
                        self.advance();
                        token
                    },
                    None => {
                        if is_numeric(x) || x == '.' {
                            Token::Number(self.read_number())
                        } else if is_alphabetic(x) || x == '_' {
                            Token::Identifier(self.read_identifier())
                        } else {
                            Token::EoF
                        }
                    },
                }
            },
            None => Token::EoF,
        }
    }
}

} // verus!
