//! Recognizer: a recursive-descent check of a token sequence against the grammar,
//! with one function per production.
//!
//! Every production is modelled by a spec function from a start index to an
//! `Outcome`: `Ok(n)` when it matches the `n` tokens from there, or `Err((at, e))`
//! for the index of the first token that does not fit and what was expected there.
//! Blocks and function bodies hold zero or more statements: `{}` is accepted.
use vstd::prelude::*;
use crate::lexer::{C1Lexer, C1Token, Token, kind_at};

verus! {

/// What the recognizer wanted where it stopped.
#[derive(Clone, Copy, Debug, PartialEq, Eq, Structural)]
pub enum Expected {
    /// This one kind of token.
    Kind(C1Token),
    /// One of the type keywords `bool`, `float`, `int`, `void`.
    Type,
    /// The start of a statement.
    Statement,
    /// The start of a factor: a literal, a name, or `(`.
    Factor,
}

/// The first error of a parse.
#[derive(Clone, Copy, Debug, PartialEq, Eq, Structural)]
pub enum ParseError {
    /// No lexical rule matched at this line (or a block comment opened there is
    /// never closed).
    Lex { line: usize },
    /// `found` is the first token that does not fit the grammar.
    Syntax { expected: Expected, found: Token },
}

/// Where a production stopped inside the token vector, and what it wanted there.
#[derive(Clone, Copy, Debug, PartialEq, Eq, Structural)]
pub struct Failure {
    pub at: usize,
    pub expected: Expected,
}

pub type Outcome = Result<nat, (int, Expected)>;

/// Tokens left from `i` on; the measure under which the recognizer terminates.
pub open spec fn rest(t: Seq<Token>, i: int) -> nat {
    if i < t.len() {
        (t.len() - i) as nat
    } else {
        0
    }
}

/// `n` tokens followed by the outcome `r` of what comes after them.
pub open spec fn plus(n: nat, r: Outcome) -> Outcome {
    match r {
        Ok(m) => Ok(n + m),
        Err(e) => Err(e),
    }
}

pub open spec fn expect_at(t: Seq<Token>, i: int, k: C1Token) -> Outcome {
    if kind_at(t, i) == k {
        Ok(1)
    } else {
        Err((i, Expected::Kind(k)))
    }
}

pub open spec fn is_type(k: C1Token) -> bool {
    k == C1Token::KwBoolean || k == C1Token::KwFloat || k == C1Token::KwInt || k == C1Token::KwVoid
}

pub open spec fn is_literal(k: C1Token) -> bool {
    k == C1Token::ConstInt || k == C1Token::ConstFloat || k == C1Token::ConstBoolean
}

pub open spec fn is_relop(k: C1Token) -> bool {
    k == C1Token::Equal || k == C1Token::NotEqual || k == C1Token::Less || k == C1Token::LessEqual
        || k == C1Token::Greater || k == C1Token::GreaterEqual
}

/// The operators of a simple expression: `+`, `-`, `||`.
pub open spec fn is_add_op(k: C1Token) -> bool {
    k == C1Token::Plus || k == C1Token::Minus || k == C1Token::Or
}

/// The operators of a term: `*`, `/`, `&&`.
pub open spec fn is_mul_op(k: C1Token) -> bool {
    k == C1Token::Asterisk || k == C1Token::Slash || k == C1Token::And
}

/// factor := literal | IDENTIFIER [ '(' ')' ] | '(' assignment ')'
pub open spec fn spec_factor(t: Seq<Token>, i: int) -> Outcome
    decreases rest(t, i), 0nat,
{
    let c = kind_at(t, i);
    if is_literal(c) {
        Ok(1)
    } else if c == C1Token::Identifier {
        if kind_at(t, i + 1) == C1Token::LeftParenthesis {
            plus(2, expect_at(t, i + 2, C1Token::RightParenthesis))
        } else {
            Ok(1)
        }
    } else if c == C1Token::LeftParenthesis {
        match spec_assignment(t, i + 1) {
            Ok(n) => plus(n + 1, expect_at(t, i + 1 + n, C1Token::RightParenthesis)),
            Err(e) => Err(e),
        }
    } else {
        Err((i, Expected::Factor))
    }
}

/// ( ( '*' | '/' | '&&' ) factor )*
pub open spec fn spec_term_tail(t: Seq<Token>, i: int) -> Outcome
    decreases rest(t, i), 1nat,
{
    if is_mul_op(kind_at(t, i)) {
        match spec_factor(t, i + 1) {
            Ok(n) => plus(n + 1, spec_term_tail(t, i + 1 + n)),
            Err(e) => Err(e),
        }
    } else {
        Ok(0)
    }
}

/// term := factor ( ( '*' | '/' | '&&' ) factor )*
pub open spec fn spec_term(t: Seq<Token>, i: int) -> Outcome
    decreases rest(t, i), 2nat,
{
    match spec_factor(t, i) {
        Ok(n) => plus(n, spec_term_tail(t, i + n)),
        Err(e) => Err(e),
    }
}

/// ( ( '+' | '-' | '||' ) term )*
pub open spec fn spec_simp_tail(t: Seq<Token>, i: int) -> Outcome
    decreases rest(t, i), 3nat,
{
    if is_add_op(kind_at(t, i)) {
        match spec_term(t, i + 1) {
            Ok(n) => plus(n + 1, spec_simp_tail(t, i + 1 + n)),
            Err(e) => Err(e),
        }
    } else {
        Ok(0)
    }
}

/// simpexpr := [ '-' ] term ( ( '+' | '-' | '||' ) term )*
pub open spec fn spec_simpexpr(t: Seq<Token>, i: int) -> Outcome
    decreases rest(t, i), 4nat,
{
    let m: nat = if kind_at(t, i) == C1Token::Minus {
        1
    } else {
        0
    };
    match spec_term(t, i + m) {
        Ok(n) => plus(m + n, spec_simp_tail(t, i + m + n)),
        Err(e) => Err(e),
    }
}

/// expr := simpexpr [ relop simpexpr ]
pub open spec fn spec_expr(t: Seq<Token>, i: int) -> Outcome
    decreases rest(t, i), 5nat,
{
    match spec_simpexpr(t, i) {
        Ok(n) => if is_relop(kind_at(t, i + n)) {
            plus(n + 1, spec_simpexpr(t, i + n + 1))
        } else {
            Ok(n)
        },
        Err(e) => Err(e),
    }
}

/// assignment := IDENTIFIER '=' assignment | expr
/// (a name followed by `=` starts an assignment, any other start an expression)
pub open spec fn spec_assignment(t: Seq<Token>, i: int) -> Outcome
    decreases rest(t, i), 6nat,
{
    if kind_at(t, i) == C1Token::Identifier && kind_at(t, i + 1) == C1Token::Assign {
        plus(2, spec_assignment(t, i + 2))
    } else {
        spec_expr(t, i)
    }
}

/// block := '{' statement* '}'
pub open spec fn spec_block(t: Seq<Token>, i: int) -> Outcome
    decreases rest(t, i), 0nat,
{
    if kind_at(t, i) != C1Token::LeftBrace {
        Err((i, Expected::Kind(C1Token::LeftBrace)))
    } else {
        match spec_statement_list(t, i + 1) {
            Ok(n) => plus(n + 1, expect_at(t, i + 1 + n, C1Token::RightBrace)),
            Err(e) => Err(e),
        }
    }
}

/// ifStatement := 'if' '(' assignment ')' block
pub open spec fn spec_if_statement(t: Seq<Token>, i: int) -> Outcome
    decreases rest(t, i), 0nat,
{
    if kind_at(t, i) != C1Token::KwIf {
        Err((i, Expected::Kind(C1Token::KwIf)))
    } else if kind_at(t, i + 1) != C1Token::LeftParenthesis {
        Err((i + 1, Expected::Kind(C1Token::LeftParenthesis)))
    } else {
        match spec_assignment(t, i + 2) {
            Ok(n) => if kind_at(t, i + 2 + n) != C1Token::RightParenthesis {
                Err((i + 2 + n, Expected::Kind(C1Token::RightParenthesis)))
            } else {
                plus(n + 3, spec_block(t, i + 3 + n))
            },
            Err(e) => Err(e),
        }
    }
}

/// returnStatement := 'return' [ assignment ]
pub open spec fn spec_return_statement(t: Seq<Token>, i: int) -> Outcome {
    if kind_at(t, i) != C1Token::KwReturn {
        Err((i, Expected::Kind(C1Token::KwReturn)))
    } else if kind_at(t, i + 1) == C1Token::Semicolon {
        Ok(1)
    } else {
        plus(1, spec_assignment(t, i + 1))
    }
}

/// printfStatement := 'printf' '(' assignment ')'
pub open spec fn spec_printf(t: Seq<Token>, i: int) -> Outcome {
    if kind_at(t, i) != C1Token::KwPrintf {
        Err((i, Expected::Kind(C1Token::KwPrintf)))
    } else if kind_at(t, i + 1) != C1Token::LeftParenthesis {
        Err((i + 1, Expected::Kind(C1Token::LeftParenthesis)))
    } else {
        match spec_assignment(t, i + 2) {
            Ok(n) => plus(n + 2, expect_at(t, i + 2 + n, C1Token::RightParenthesis)),
            Err(e) => Err(e),
        }
    }
}

/// IDENTIFIER '=' assignment
pub open spec fn spec_statement_assignment(t: Seq<Token>, i: int) -> Outcome {
    if kind_at(t, i) != C1Token::Identifier {
        Err((i, Expected::Kind(C1Token::Identifier)))
    } else if kind_at(t, i + 1) != C1Token::Assign {
        Err((i + 1, Expected::Kind(C1Token::Assign)))
    } else {
        plus(2, spec_assignment(t, i + 2))
    }
}

/// IDENTIFIER '(' ')'
pub open spec fn spec_function_call(t: Seq<Token>, i: int) -> Outcome {
    if kind_at(t, i) != C1Token::Identifier {
        Err((i, Expected::Kind(C1Token::Identifier)))
    } else if kind_at(t, i + 1) != C1Token::LeftParenthesis {
        Err((i + 1, Expected::Kind(C1Token::LeftParenthesis)))
    } else {
        plus(2, expect_at(t, i + 2, C1Token::RightParenthesis))
    }
}

/// A statement without its closing `;`, chosen by its first token (and, after a
/// name, by whether `=` follows).
pub open spec fn spec_statement_body(t: Seq<Token>, i: int) -> Outcome
    decreases rest(t, i), 1nat,
{
    let c = kind_at(t, i);
    if c == C1Token::KwIf {
        spec_if_statement(t, i)
    } else if c == C1Token::KwReturn {
        spec_return_statement(t, i)
    } else if c == C1Token::KwPrintf {
        spec_printf(t, i)
    } else if c == C1Token::Identifier {
        if kind_at(t, i + 1) == C1Token::Assign {
            spec_statement_assignment(t, i)
        } else {
            spec_function_call(t, i)
        }
    } else if c == C1Token::LeftBrace {
        spec_block(t, i)
    } else {
        Err((i, Expected::Statement))
    }
}

/// statement* : statements up to a `}` or the end of input.
pub open spec fn spec_statement_list(t: Seq<Token>, i: int) -> Outcome
    decreases rest(t, i), 2nat,
{
    let c = kind_at(t, i);
    if c == C1Token::RightBrace || c == C1Token::EOF {
        Ok(0)
    } else {
        match spec_statement_body(t, i) {
            Ok(n) => if kind_at(t, i + n) != C1Token::Semicolon {
                Err((i + n, Expected::Kind(C1Token::Semicolon)))
            } else {
                plus(n + 1, spec_statement_list(t, i + n + 1))
            },
            Err(e) => Err(e),
        }
    }
}

/// statement := ( ifStatement | returnStatement | printfStatement
///                | IDENTIFIER ( '=' assignment | '(' ')' ) | block ) ';'
pub open spec fn spec_statement(t: Seq<Token>, i: int) -> Outcome {
    match spec_statement_body(t, i) {
        Ok(n) => plus(n, expect_at(t, i + n, C1Token::Semicolon)),
        Err(e) => Err(e),
    }
}

/// functionDefinition := type IDENTIFIER '(' ')' '{' statement* '}'
pub open spec fn spec_function_definition(t: Seq<Token>, i: int) -> Outcome {
    if !is_type(kind_at(t, i)) {
        Err((i, Expected::Type))
    } else if kind_at(t, i + 1) != C1Token::Identifier {
        Err((i + 1, Expected::Kind(C1Token::Identifier)))
    } else if kind_at(t, i + 2) != C1Token::LeftParenthesis {
        Err((i + 2, Expected::Kind(C1Token::LeftParenthesis)))
    } else if kind_at(t, i + 3) != C1Token::RightParenthesis {
        Err((i + 3, Expected::Kind(C1Token::RightParenthesis)))
    } else if kind_at(t, i + 4) != C1Token::LeftBrace {
        Err((i + 4, Expected::Kind(C1Token::LeftBrace)))
    } else {
        match spec_statement_list(t, i + 5) {
            Ok(n) => plus(n + 5, expect_at(t, i + 5 + n, C1Token::RightBrace)),
            Err(e) => Err(e),
        }
    }
}

/// program := functionDefinition* EOF
pub open spec fn spec_program(t: Seq<Token>, i: int) -> Outcome
    decreases rest(t, i),
{
    if kind_at(t, i) == C1Token::EOF {
        Ok(0)
    } else {
        match spec_function_definition(t, i) {
            Ok(n) => if n > 0 {
                plus(n, spec_program(t, i + n))
            } else {
                Ok(n)
            },
            Err(e) => Err(e),
        }
    }
}

/// The exec result `r` of a production started at `i` is its outcome `o`:
/// the same end on success, the same place and expectation on failure.
pub open spec fn agrees(r: Result<usize, Failure>, i: usize, o: Outcome) -> bool {
    match r {
        Ok(j) => i <= j && o == Ok::<nat, (int, Expected)>((j - i) as nat),
        Err(f) => o == Err::<nat, (int, Expected)>((f.at as int, f.expected)),
    }
}

/// The token at index `i`; a placeholder `EOF` on line 0 past either end.
pub open spec fn token_at(t: Seq<Token>, i: int) -> Token {
    if 0 <= i < t.len() {
        t[i]
    } else {
        Token { kind: C1Token::EOF, line: 0, start: 0, end: 0 }
    }
}

/// The error reported for a failure at index `at`: a lexical error where the
/// token there is `Error`, else a syntax error naming that token.
pub open spec fn diagnostic(t: Seq<Token>, at: int, e: Expected) -> ParseError {
    let found = token_at(t, at);
    if found.kind == C1Token::Error {
        ParseError::Lex { line: found.line }
    } else {
        ParseError::Syntax { expected: e, found }
    }
}

/// The verdict on the tokens from index `i` on, read as a whole program.
pub open spec fn verdict(t: Seq<Token>, i: int) -> Result<(), ParseError> {
    match spec_program(t, i) {
        Ok(_) => Ok(()),
        Err((at, e)) => Err(diagnostic(t, at, e)),
    }
}

fn is_type_kind(k: C1Token) -> (r: bool)
    ensures
        r == is_type(k),
{
    k == C1Token::KwBoolean || k == C1Token::KwFloat || k == C1Token::KwInt || k == C1Token::KwVoid
}

fn is_literal_kind(k: C1Token) -> (r: bool)
    ensures
        r == is_literal(k),
{
    k == C1Token::ConstInt || k == C1Token::ConstFloat || k == C1Token::ConstBoolean
}

fn is_relop_kind(k: C1Token) -> (r: bool)
    ensures
        r == is_relop(k),
{
    k == C1Token::Equal || k == C1Token::NotEqual || k == C1Token::Less || k == C1Token::LessEqual
        || k == C1Token::Greater || k == C1Token::GreaterEqual
}

fn is_add_op_kind(k: C1Token) -> (r: bool)
    ensures
        r == is_add_op(k),
{
    k == C1Token::Plus || k == C1Token::Minus || k == C1Token::Or
}

fn is_mul_op_kind(k: C1Token) -> (r: bool)
    ensures
        r == is_mul_op(k),
{
    k == C1Token::Asterisk || k == C1Token::Slash || k == C1Token::And
}

/// The recognizer, owning the scanner whose tokens it checks.
pub struct C1Parser(pub C1Lexer);

impl C1Parser {
    pub open spec fn tokens(&self) -> Seq<Token> {
        self.0.tokens@
    }

    pub fn new(lexer: C1Lexer) -> (r: C1Parser)
        ensures
            r.0 == lexer,
    {
        C1Parser(lexer)
    }

    /// Checks the tokens from the cursor on as a whole program and reports the
    /// first error. The cursor ends after the last token consumed, or on the
    /// token where the error was found.
    pub fn parse(&mut self) -> (r: Result<(), ParseError>)
        ensures
            r == verdict(old(self).tokens(), old(self).0.pos as int),
            final(self).0.tokens == old(self).0.tokens,
            final(self).0.pos == match spec_program(old(self).tokens(), old(self).0.pos as int) {
                Ok(n) => old(self).0.pos + n,
                Err((at, _)) => at,
            },
    {
        match self.program(self.0.pos) {
            Ok(j) => {
                self.0.pos = j;
                Ok(())
            },
            Err(f) => {
                self.0.pos = f.at;
                Err(self.diagnostic(f))
            },
        }
    }

    fn diagnostic(&self, f: Failure) -> (r: ParseError)
        ensures
            r == diagnostic(self.tokens(), f.at as int, f.expected),
    {
        if f.at < self.0.tokens.len() && self.0.tokens[f.at].kind == C1Token::Error {
            ParseError::Lex { line: self.0.tokens[f.at].line }
        } else if f.at < self.0.tokens.len() {
            ParseError::Syntax { expected: f.expected, found: self.0.tokens[f.at] }
        } else {
            ParseError::Syntax {
                expected: f.expected,
                found: Token { kind: C1Token::EOF, line: 0, start: 0, end: 0 },
            }
        }
    }

    /// Consumes a token of kind `k` at `i`, or fails there.
    fn expect_token(&self, i: usize, k: C1Token) -> (r: Result<usize, Failure>)
        requires
            k == C1Token::EOF ==> i < usize::MAX,
        ensures
            agrees(r, i, expect_at(self.tokens(), i as int, k)),
    {
        if self.0.kind(i) == k {
            Ok(i + 1)
        } else {
            Err(Failure { at: i, expected: Expected::Kind(k) })
        }
    }

    /// type := 'bool' | 'float' | 'int' | 'void'
    fn type_(&self, i: usize) -> (r: Result<usize, Failure>)
        ensures
            agrees(
                r,
                i,
                if is_type(kind_at(self.tokens(), i as int)) {
                    Ok(1)
                } else {
                    Err((i as int, Expected::Type))
                },
            ),
    {
        if is_type_kind(self.0.kind(i)) {
            Ok(i + 1)
        } else {
            Err(Failure { at: i, expected: Expected::Type })
        }
    }

    /// factor := literal | IDENTIFIER [ '(' ')' ] | '(' assignment ')'
    fn factor(&self, i: usize) -> (r: Result<usize, Failure>)
        ensures
            agrees(r, i, spec_factor(self.tokens(), i as int)),
        decreases rest(self.tokens(), i as int), 0nat,
    {
        let c = self.0.kind(i);
        if is_literal_kind(c) {
            Ok(i + 1)
        } else if c == C1Token::Identifier {
            if self.0.kind(i + 1) == C1Token::LeftParenthesis {
                self.expect_token(i + 2, C1Token::RightParenthesis)
            } else {
                Ok(i + 1)
            }
        } else if c == C1Token::LeftParenthesis {
            match self.assignment(i + 1) {
                Ok(j) => self.expect_token(j, C1Token::RightParenthesis),
                Err(f) => Err(f),
            }
        } else {
            Err(Failure { at: i, expected: Expected::Factor })
        }
    }

    /// term := factor ( ( '*' | '/' | '&&' ) factor )*
    fn term(&self, i: usize) -> (r: Result<usize, Failure>)
        ensures
            agrees(r, i, spec_term(self.tokens(), i as int)),
        decreases rest(self.tokens(), i as int), 1nat,
    {
        let mut j = match self.factor(i) {
            Ok(j) => j,
            Err(f) => return Err(f),
        };
        while is_mul_op_kind(self.0.kind(j))
            invariant
                i <= j,
                spec_term(self.tokens(), i as int) == plus(
                    (j - i) as nat,
                    spec_term_tail(self.tokens(), j as int),
                ),
            decreases rest(self.tokens(), j as int),
        {
            match self.factor(j + 1) {
                Ok(k) => {
                    proof {
                        lemma_plus_plus((j - i) as nat, (k - j) as nat, spec_term_tail(self.tokens(), k as int));
                    }
                    j = k;
                },
                Err(f) => return Err(f),
            }
        }
        Ok(j)
    }

    /// simpexpr := [ '-' ] term ( ( '+' | '-' | '||' ) term )*
    fn simpexpr(&self, i: usize) -> (r: Result<usize, Failure>)
        ensures
            agrees(r, i, spec_simpexpr(self.tokens(), i as int)),
        decreases rest(self.tokens(), i as int), 2nat,
    {
        let first = if self.0.kind(i) == C1Token::Minus {
            i + 1
        } else {
            i
        };
        let mut j = match self.term(first) {
            Ok(j) => j,
            Err(f) => return Err(f),
        };
        while is_add_op_kind(self.0.kind(j))
            invariant
                i <= j,
                spec_simpexpr(self.tokens(), i as int) == plus(
                    (j - i) as nat,
                    spec_simp_tail(self.tokens(), j as int),
                ),
            decreases rest(self.tokens(), j as int),
        {
            match self.term(j + 1) {
                Ok(k) => {
                    proof {
                        lemma_plus_plus((j - i) as nat, (k - j) as nat, spec_simp_tail(self.tokens(), k as int));
                    }
                    j = k;
                },
                Err(f) => return Err(f),
            }
        }
        Ok(j)
    }

    /// expr := simpexpr [ relop simpexpr ]
    fn expr(&self, i: usize) -> (r: Result<usize, Failure>)
        ensures
            agrees(r, i, spec_expr(self.tokens(), i as int)),
        decreases rest(self.tokens(), i as int), 3nat,
    {
        let j = match self.simpexpr(i) {
            Ok(j) => j,
            Err(f) => return Err(f),
        };
        if is_relop_kind(self.0.kind(j)) {
            self.simpexpr(j + 1)
        } else {
            Ok(j)
        }
    }

    /// assignment := IDENTIFIER '=' assignment | expr
    fn assignment(&self, i: usize) -> (r: Result<usize, Failure>)
        ensures
            agrees(r, i, spec_assignment(self.tokens(), i as int)),
        decreases rest(self.tokens(), i as int), 4nat,
    {
        if self.0.kind(i) == C1Token::Identifier && self.0.kind(i + 1) == C1Token::Assign {
            self.assignment(i + 2)
        } else {
            self.expr(i)
        }
    }

    /// block := '{' statement* '}'
    fn block(&self, i: usize) -> (r: Result<usize, Failure>)
        ensures
            agrees(r, i, spec_block(self.tokens(), i as int)),
        decreases rest(self.tokens(), i as int), 0nat,
    {
        if self.0.kind(i) != C1Token::LeftBrace {
            return Err(Failure { at: i, expected: Expected::Kind(C1Token::LeftBrace) });
        }
        match self.statement_list(i + 1) {
            Ok(j) => self.expect_token(j, C1Token::RightBrace),
            Err(f) => Err(f),
        }
    }

    /// ifStatement := 'if' '(' assignment ')' block
    fn if_statement(&self, i: usize) -> (r: Result<usize, Failure>)
        ensures
            agrees(r, i, spec_if_statement(self.tokens(), i as int)),
        decreases rest(self.tokens(), i as int), 1nat,
    {
        let j = match self.expect_token(i, C1Token::KwIf) {
            Ok(j) => j,
            Err(f) => return Err(f),
        };
        let j = match self.expect_token(j, C1Token::LeftParenthesis) {
            Ok(j) => j,
            Err(f) => return Err(f),
        };
        let j = match self.assignment(j) {
            Ok(j) => j,
            Err(f) => return Err(f),
        };
        let j = match self.expect_token(j, C1Token::RightParenthesis) {
            Ok(j) => j,
            Err(f) => return Err(f),
        };
        self.block(j)
    }

    /// returnStatement := 'return' [ assignment ]
    fn return_statement(&self, i: usize) -> (r: Result<usize, Failure>)
        ensures
            agrees(r, i, spec_return_statement(self.tokens(), i as int)),
    {
        let j = match self.expect_token(i, C1Token::KwReturn) {
            Ok(j) => j,
            Err(f) => return Err(f),
        };
        if self.0.kind(j) == C1Token::Semicolon {
            Ok(j)
        } else {
            self.assignment(j)
        }
    }

    /// printfStatement := 'printf' '(' assignment ')'
    fn printf(&self, i: usize) -> (r: Result<usize, Failure>)
        ensures
            agrees(r, i, spec_printf(self.tokens(), i as int)),
    {
        let j = match self.expect_token(i, C1Token::KwPrintf) {
            Ok(j) => j,
            Err(f) => return Err(f),
        };
        let j = match self.expect_token(j, C1Token::LeftParenthesis) {
            Ok(j) => j,
            Err(f) => return Err(f),
        };
        let j = match self.assignment(j) {
            Ok(j) => j,
            Err(f) => return Err(f),
        };
        self.expect_token(j, C1Token::RightParenthesis)
    }

    /// IDENTIFIER '=' assignment
    fn statement_assignment(&self, i: usize) -> (r: Result<usize, Failure>)
        ensures
            agrees(r, i, spec_statement_assignment(self.tokens(), i as int)),
    {
        let j = match self.expect_token(i, C1Token::Identifier) {
            Ok(j) => j,
            Err(f) => return Err(f),
        };
        let j = match self.expect_token(j, C1Token::Assign) {
            Ok(j) => j,
            Err(f) => return Err(f),
        };
        self.assignment(j)
    }

    /// IDENTIFIER '(' ')'
    fn function_call(&self, i: usize) -> (r: Result<usize, Failure>)
        ensures
            agrees(r, i, spec_function_call(self.tokens(), i as int)),
    {
        let j = match self.expect_token(i, C1Token::Identifier) {
            Ok(j) => j,
            Err(f) => return Err(f),
        };
        let j = match self.expect_token(j, C1Token::LeftParenthesis) {
            Ok(j) => j,
            Err(f) => return Err(f),
        };
        self.expect_token(j, C1Token::RightParenthesis)
    }

    /// A statement and its closing `;`.
    fn statement(&self, i: usize) -> (r: Result<usize, Failure>)
        ensures
            agrees(r, i, spec_statement(self.tokens(), i as int)),
        decreases rest(self.tokens(), i as int), 2nat,
    {
        let c = self.0.kind(i);
        let body = if c == C1Token::KwIf {
            self.if_statement(i)
        } else if c == C1Token::KwReturn {
            self.return_statement(i)
        } else if c == C1Token::KwPrintf {
            self.printf(i)
        } else if c == C1Token::Identifier {
            if self.0.kind(i + 1) == C1Token::Assign {
                self.statement_assignment(i)
            } else {
                self.function_call(i)
            }
        } else if c == C1Token::LeftBrace {
            self.block(i)
        } else {
            Err(Failure { at: i, expected: Expected::Statement })
        };
        assert(agrees(body, i, spec_statement_body(self.tokens(), i as int)));
        match body {
            Ok(j) => self.expect_token(j, C1Token::Semicolon),
            Err(f) => Err(f),
        }
    }

    /// statement* : statements up to a `}` or the end of input.
    fn statement_list(&self, i: usize) -> (r: Result<usize, Failure>)
        ensures
            agrees(r, i, spec_statement_list(self.tokens(), i as int)),
        decreases rest(self.tokens(), i as int), 3nat,
    {
        let mut j = i;
        while self.0.kind(j) != C1Token::RightBrace && self.0.kind(j) != C1Token::EOF
            invariant
                i <= j,
                spec_statement_list(self.tokens(), i as int) == plus(
                    (j - i) as nat,
                    spec_statement_list(self.tokens(), j as int),
                ),
            decreases rest(self.tokens(), j as int),
        {
            match self.statement(j) {
                Ok(k) => {
                    proof {
                        lemma_plus_plus((j - i) as nat, (k - j) as nat, spec_statement_list(self.tokens(), k as int));
                    }
                    j = k;
                },
                Err(f) => return Err(f),
            }
        }
        Ok(j)
    }

    /// functionDefinition := type IDENTIFIER '(' ')' '{' statement* '}'
    fn function_definition(&self, i: usize) -> (r: Result<usize, Failure>)
        ensures
            agrees(r, i, spec_function_definition(self.tokens(), i as int)),
    {
        let j = match self.type_(i) {
            Ok(j) => j,
            Err(f) => return Err(f),
        };
        let j = match self.expect_token(j, C1Token::Identifier) {
            Ok(j) => j,
            Err(f) => return Err(f),
        };
        let j = match self.expect_token(j, C1Token::LeftParenthesis) {
            Ok(j) => j,
            Err(f) => return Err(f),
        };
        let j = match self.expect_token(j, C1Token::RightParenthesis) {
            Ok(j) => j,
            Err(f) => return Err(f),
        };
        let j = match self.expect_token(j, C1Token::LeftBrace) {
            Ok(j) => j,
            Err(f) => return Err(f),
        };
        let j = match self.statement_list(j) {
            Ok(j) => j,
            Err(f) => return Err(f),
        };
        self.expect_token(j, C1Token::RightBrace)
    }

    /// program := functionDefinition* EOF
    fn program(&self, i: usize) -> (r: Result<usize, Failure>)
        ensures
            agrees(r, i, spec_program(self.tokens(), i as int)),
    {
        let mut j = i;
        while self.0.kind(j) != C1Token::EOF
            invariant
                i <= j,
                spec_program(self.tokens(), i as int) == plus(
                    (j - i) as nat,
                    spec_program(self.tokens(), j as int),
                ),
            decreases rest(self.tokens(), j as int),
        {
            match self.function_definition(j) {
                Ok(k) => {
                    proof {
                        lemma_plus_plus((j - i) as nat, (k - j) as nat, spec_program(self.tokens(), k as int));
                    }
                    j = k;
                },
                Err(f) => return Err(f),
            }
        }
        Ok(j)
    }
}

proof fn lemma_plus_plus(a: nat, b: nat, r: Outcome)
    ensures
        plus(a, plus(b, r)) == plus(a + b, r),
{
}

} // verus!
