//! Laws of the recognizer, proved over the spec functions that the executable
//! code is verified against.
use vstd::prelude::*;
use crate::lexer::{
    C1Token,
    Token,
    NEWLINE,
    digits_len,
    is_digit,
    is_word_byte,
    kind_at,
    is_ws,
    lexeme_at,
    scan_trivia,
    spec_tokens,
    steps_forward,
    tokens_from,
    word_len,
};
use crate::parser::{
    Expected,
    Outcome,
    ParseError,
    diagnostic,
    is_type,
    rest,
    spec_assignment,
    spec_block,
    spec_expr,
    spec_factor,
    spec_function_definition,
    spec_if_statement,
    spec_program,
    spec_simp_tail,
    spec_simpexpr,
    spec_statement_body,
    spec_statement_list,
    spec_term,
    spec_term_tail,
    verdict,
};
use crate::spec_parse_text;

verus! {

/// The text holds only whitespace and closed comments: skipping them from the
/// start reaches the end of input.
pub open spec fn is_blank(s: Seq<u8>) -> bool {
    match scan_trivia(s, 0, 1, 0, (0, 1)) {
        Ok((p, _)) => p >= s.len(),
        Err(_) => false,
    }
}

/// Input made only of whitespace and comments is an empty program, and it is
/// accepted.
pub proof fn lemma_blank_input_accepted(s: Seq<u8>)
    requires
        is_blank(s),
    ensures
        spec_parse_text(s) == Ok::<(), ParseError>(()),
{
    let t = spec_tokens(s);
    assert(t.len() == 1 && t[0].kind == C1Token::EOF);
    assert(kind_at(t, 0) == C1Token::EOF);
}

proof fn lemma_whitespace_scan(s: Seq<u8>, pos: int, line: int, opened: (int, int))
    requires
        0 <= pos <= s.len(),
        forall|i: int| 0 <= i < s.len() ==> is_ws(#[trigger] s[i]),
    ensures
        scan_trivia(s, pos, line, 0, opened) matches Ok((p, _)) && p == s.len(),
    decreases s.len() - pos,
{
    if pos < s.len() {
        let nl = if s[pos] == 10 {
            line + 1
        } else {
            line
        };
        lemma_whitespace_scan(s, pos + 1, nl, opened);
    }
}

/// Text made of whitespace bytes alone (space, tab, newline, carriage return),
/// the empty text included, is blank.
pub proof fn lemma_whitespace_is_blank(s: Seq<u8>)
    requires
        forall|i: int| 0 <= i < s.len() ==> is_ws(#[trigger] s[i]),
    ensures
        is_blank(s),
{
    lemma_whitespace_scan(s, 0, 1, (0, 1));
}

/// A token sequence that starts with one function definition of `n` tokens is
/// accepted when `EOF` follows that definition; when exactly one other token
/// stands between the definition and `EOF`, it is rejected at that token (or,
/// if the token is a type keyword, at the `EOF` where a name was expected).
pub proof fn lemma_single_function(t: Seq<Token>, n: nat)
    requires
        spec_function_definition(t, 0) == Ok::<nat, (int, Expected)>(n),
    ensures
        kind_at(t, n as int) == C1Token::EOF ==> verdict(t, 0) == Ok::<(), ParseError>(()),
        kind_at(t, n as int) != C1Token::EOF && kind_at(t, n as int + 1) == C1Token::EOF ==> verdict(t, 0)
            == Err::<(), ParseError>(
            if is_type(kind_at(t, n as int)) {
                diagnostic(t, n as int + 1, Expected::Kind(C1Token::Identifier))
            } else {
                diagnostic(t, n as int, Expected::Type)
            },
        ),
{
    assert(kind_at(t, 0) != C1Token::EOF);
    assert(n > 0);
    if kind_at(t, n as int) == C1Token::EOF {
        assert(spec_program(t, n as int) == Ok::<nat, (int, Expected)>(0));
    } else if kind_at(t, n as int + 1) == C1Token::EOF {
        if is_type(kind_at(t, n as int)) {
            assert(spec_function_definition(t, n as int) == Err::<nat, (int, Expected)>(
                (n as int + 1, Expected::Kind(C1Token::Identifier)),
            ));
        } else {
            assert(spec_function_definition(t, n as int) == Err::<nat, (int, Expected)>(
                (n as int, Expected::Type),
            ));
        }
    }
}

/// Parsing is a function of the text alone: two parses of the same text give
/// the same verdict and the same diagnostic.
pub proof fn lemma_parse_deterministic(a: Seq<u8>, b: Seq<u8>)
    requires
        a == b,
    ensures
        spec_parse_text(a) == spec_parse_text(b),
{
}

/// Number of newline bytes among the first `n` bytes of `s`.
pub open spec fn newlines_before(s: Seq<u8>, n: int) -> nat
    decreases n,
{
    if n <= 0 {
        0
    } else {
        newlines_before(s, n - 1) + if s[n - 1] == NEWLINE {
            1nat
        } else {
            0nat
        }
    }
}

/// The 1-based line on which the byte at position `n` stands.
pub open spec fn source_line(s: Seq<u8>, n: int) -> int {
    1 + newlines_before(s, n) as int
}

proof fn lemma_newlines_bound(s: Seq<u8>, n: int)
    requires
        0 <= n,
    ensures
        newlines_before(s, n) <= n,
    decreases n,
{
    if n > 0 {
        lemma_newlines_bound(s, n - 1);
    }
}

/// The trivia scan keeps its line equal to the source line of its position.
proof fn lemma_scan_lines(s: Seq<u8>, pos: int, line: int, mode: int, opened: (int, int))
    requires
        0 <= pos <= s.len(),
        line == source_line(s, pos),
        mode == 2 ==> 0 <= opened.0 && opened.0 + 2 <= pos && opened.1 == source_line(s, opened.0),
    ensures
        match scan_trivia(s, pos, line, mode, opened) {
            Ok((p, l)) => pos <= p <= s.len() && l == source_line(s, p) && (p < s.len() ==> !is_ws(
                s[p],
            )),
            Err((a, l)) => 0 <= a && a + 2 <= s.len() && l == source_line(s, a),
        },
    decreases s.len() - pos,
{
    if pos < s.len() {
        let b = s[pos];
        let nl = if b == NEWLINE {
            line + 1
        } else {
            line
        };
        assert(source_line(s, pos + 1) == nl);
        let two = pos + 1 < s.len() && (s[pos + 1] == 47u8 || s[pos + 1] == 42u8) && (b == 47u8
            || b == 42u8);
        if two {
            assert(source_line(s, pos + 2) == line);
        }
        if mode == 1 {
            lemma_scan_lines(s, pos + 1, nl, if b == NEWLINE { 0 } else { 1 }, opened);
        } else if mode == 2 {
            if b == 42u8 && pos + 1 < s.len() && s[pos + 1] == 47u8 {
                lemma_scan_lines(s, pos + 2, line, 0, opened);
            } else {
                lemma_scan_lines(s, pos + 1, nl, 2, opened);
            }
        } else if is_ws(b) {
            lemma_scan_lines(s, pos + 1, nl, 0, opened);
        } else if b == 47u8 && pos + 1 < s.len() && s[pos + 1] == 47u8 {
            lemma_scan_lines(s, pos + 2, line, 1, opened);
        } else if b == 47u8 && pos + 1 < s.len() && s[pos + 1] == 42u8 {
            lemma_scan_lines(s, pos + 2, line, 2, (pos, line));
        }
    }
}

proof fn lemma_word_lines(s: Seq<u8>, pos: int)
    requires
        0 <= pos <= s.len(),
    ensures
        pos + word_len(s, pos) <= s.len(),
        newlines_before(s, pos + word_len(s, pos)) == newlines_before(s, pos),
    decreases s.len() - pos,
{
    if pos < s.len() && is_word_byte(s[pos]) {
        lemma_word_lines(s, pos + 1);
        assert(newlines_before(s, pos + 1) == newlines_before(s, pos));
    }
}

proof fn lemma_digits_lines(s: Seq<u8>, pos: int)
    requires
        0 <= pos <= s.len(),
    ensures
        pos + digits_len(s, pos) <= s.len(),
        newlines_before(s, pos + digits_len(s, pos)) == newlines_before(s, pos),
    decreases s.len() - pos,
{
    if pos < s.len() && is_digit(s[pos]) {
        lemma_digits_lines(s, pos + 1);
        assert(newlines_before(s, pos + 1) == newlines_before(s, pos));
    }
}

/// A lexeme lies within the input and holds no newline.
proof fn lemma_lexeme_lines(s: Seq<u8>, p: int)
    requires
        0 <= p < s.len(),
        !is_ws(s[p]),
    ensures
        0 < lexeme_at(s, p).1,
        p + lexeme_at(s, p).1 <= s.len(),
        newlines_before(s, p + lexeme_at(s, p).1) == newlines_before(s, p),
{
    assert(newlines_before(s, p + 1) == newlines_before(s, p));
    let b = s[p];
    if is_word_byte(b) && !is_digit(b) {
        lemma_word_lines(s, p + 1);
    } else if is_digit(b) {
        lemma_digits_lines(s, p + 1);
        let q = p + 1 + digits_len(s, p + 1);
        if q + 1 < s.len() && s[q] == 46u8 && is_digit(s[q + 1]) {
            assert(newlines_before(s, q + 1) == newlines_before(s, q));
            lemma_digits_lines(s, q + 1);
        }
    } else if p + 1 < s.len() && s[p + 1] != NEWLINE {
        assert(newlines_before(s, p + 2) == newlines_before(s, p));
    }
}

proof fn lemma_tokens_from_lines(s: Seq<u8>, pos: int, line: int)
    requires
        0 <= pos <= s.len() < usize::MAX,
        line == source_line(s, pos),
    ensures
        forall|k: int|
            0 <= k < tokens_from(s, pos, line).len() ==> (#[trigger] tokens_from(s, pos, line)[k]).line
                == source_line(s, tokens_from(s, pos, line)[k].start as int),
    decreases s.len() - pos,
{
    lemma_scan_lines(s, pos, line, 0, (pos, line));
    let t = tokens_from(s, pos, line);
    match scan_trivia(s, pos, line, 0, (pos, line)) {
        Err((a, l)) => {
            lemma_newlines_bound(s, a);
            assert(t[0].line == source_line(s, t[0].start as int));
        },
        Ok((p, l)) => {
            lemma_newlines_bound(s, p);
            if p >= s.len() {
                assert(t[0].line == source_line(s, t[0].start as int));
            } else {
                lemma_lexeme_lines(s, p);
                let (k, n) = lexeme_at(s, p);
                assert(steps_forward(s, pos, p, n));
                assert(t[0].line == source_line(s, t[0].start as int));
                if k != C1Token::Error {
                    lemma_tokens_from_lines(s, p + n, l);
                    let rest = tokens_from(s, p + n, l);
                    assert forall|j: int| 0 <= j < t.len() implies (#[trigger] t[j]).line == source_line(
                        s,
                        t[j].start as int,
                    ) by {
                        if j > 0 {
                            assert(t[j] == rest[j - 1]);
                        }
                    }
                }
            }
        },
    }
}

/// Every token carries the line of its first byte: one more than the number of
/// newlines before it.
pub proof fn lemma_token_lines(s: Seq<u8>)
    requires
        s.len() < usize::MAX,
    ensures
        forall|k: int|
            0 <= k < spec_tokens(s).len() ==> (#[trigger] spec_tokens(s)[k]).line == source_line(
                s,
                spec_tokens(s)[k].start as int,
            ),
{
    lemma_tokens_from_lines(s, 0, 1);
}

/// The sequence ends with `EOF` or `Error`.
pub open spec fn terminated(t: Seq<Token>) -> bool {
    t.len() > 0 && (t.last().kind == C1Token::EOF || t.last().kind == C1Token::Error)
}

proof fn lemma_tokens_from_terminated(s: Seq<u8>, pos: int, line: int)
    requires
        0 <= pos <= s.len(),
        line == source_line(s, pos),
    ensures
        terminated(tokens_from(s, pos, line)),
    decreases s.len() - pos,
{
    let t = tokens_from(s, pos, line);
    lemma_scan_lines(s, pos, line, 0, (pos, line));
    match scan_trivia(s, pos, line, 0, (pos, line)) {
        Err(_) => {
            assert(t.last() == t[0]);
        },
        Ok((p, l)) => {
            if p >= s.len() {
                assert(t.last() == t[0]);
            } else {
                lemma_lexeme_lines(s, p);
                let (k, n) = lexeme_at(s, p);
                assert(steps_forward(s, pos, p, n));
                if k == C1Token::Error {
                    assert(t.last() == t[0]);
                } else {
                    lemma_tokens_from_terminated(s, p + n, l);
                    let first = tokens_from(s, pos, line)[0];
                    let later = tokens_from(s, p + n, l);
                    assert(tokens_from(s, pos, line) == seq![first] + later);
                    assert((seq![first] + later).last() == later.last());
                }
            }
        },
    }
}

/// Outcome `o` of a production started at `i` stays within the sequence: it
/// consumes nothing past the final token and fails no later than there.
pub open spec fn within(t: Seq<Token>, i: int, o: Outcome) -> bool {
    match o {
        Ok(n) => i + n <= t.len() - 1,
        Err((at, _)) => i <= at <= t.len() - 1,
    }
}

proof fn lemma_factor_within(t: Seq<Token>, i: int)
    requires
        terminated(t),
        0 <= i < t.len(),
    ensures
        within(t, i, spec_factor(t, i)),
    decreases rest(t, i), 0nat,
{
    if kind_at(t, i) == C1Token::LeftParenthesis {
        lemma_assignment_within(t, i + 1);
    }
}

proof fn lemma_term_tail_within(t: Seq<Token>, i: int)
    requires
        terminated(t),
        0 <= i < t.len(),
    ensures
        within(t, i, spec_term_tail(t, i)),
    decreases rest(t, i), 1nat,
{
    if crate::parser::is_mul_op(kind_at(t, i)) {
        lemma_factor_within(t, i + 1);
        if let Ok(n) = spec_factor(t, i + 1) {
            lemma_term_tail_within(t, i + 1 + n);
        }
    }
}

proof fn lemma_term_within(t: Seq<Token>, i: int)
    requires
        terminated(t),
        0 <= i < t.len(),
    ensures
        within(t, i, spec_term(t, i)),
    decreases rest(t, i), 2nat,
{
    lemma_factor_within(t, i);
    if let Ok(n) = spec_factor(t, i) {
        lemma_term_tail_within(t, i + n);
    }
}

proof fn lemma_simp_tail_within(t: Seq<Token>, i: int)
    requires
        terminated(t),
        0 <= i < t.len(),
    ensures
        within(t, i, spec_simp_tail(t, i)),
    decreases rest(t, i), 3nat,
{
    if crate::parser::is_add_op(kind_at(t, i)) {
        lemma_term_within(t, i + 1);
        if let Ok(n) = spec_term(t, i + 1) {
            lemma_simp_tail_within(t, i + 1 + n);
        }
    }
}

proof fn lemma_simpexpr_within(t: Seq<Token>, i: int)
    requires
        terminated(t),
        0 <= i < t.len(),
    ensures
        within(t, i, spec_simpexpr(t, i)),
    decreases rest(t, i), 4nat,
{
    let m: nat = if kind_at(t, i) == C1Token::Minus {
        1
    } else {
        0
    };
    lemma_term_within(t, i + m);
    if let Ok(n) = spec_term(t, i + m) {
        lemma_simp_tail_within(t, i + m + n);
    }
}

proof fn lemma_expr_within(t: Seq<Token>, i: int)
    requires
        terminated(t),
        0 <= i < t.len(),
    ensures
        within(t, i, spec_expr(t, i)),
    decreases rest(t, i), 5nat,
{
    lemma_simpexpr_within(t, i);
    if let Ok(n) = spec_simpexpr(t, i) {
        if crate::parser::is_relop(kind_at(t, i + n)) {
            lemma_simpexpr_within(t, i + n + 1);
        }
    }
}

proof fn lemma_assignment_within(t: Seq<Token>, i: int)
    requires
        terminated(t),
        0 <= i < t.len(),
    ensures
        within(t, i, spec_assignment(t, i)),
    decreases rest(t, i), 6nat,
{
    if kind_at(t, i) == C1Token::Identifier && kind_at(t, i + 1) == C1Token::Assign {
        lemma_assignment_within(t, i + 2);
    } else {
        lemma_expr_within(t, i);
    }
}

proof fn lemma_block_within(t: Seq<Token>, i: int)
    requires
        terminated(t),
        0 <= i < t.len(),
    ensures
        within(t, i, spec_block(t, i)),
    decreases rest(t, i), 0nat,
{
    if kind_at(t, i) == C1Token::LeftBrace {
        lemma_statement_list_within(t, i + 1);
    }
}

proof fn lemma_if_within(t: Seq<Token>, i: int)
    requires
        terminated(t),
        0 <= i < t.len(),
    ensures
        within(t, i, spec_if_statement(t, i)),
    decreases rest(t, i), 0nat,
{
    if kind_at(t, i) == C1Token::KwIf && kind_at(t, i + 1) == C1Token::LeftParenthesis {
        lemma_assignment_within(t, i + 2);
        if let Ok(n) = spec_assignment(t, i + 2) {
            if kind_at(t, i + 2 + n) == C1Token::RightParenthesis {
                lemma_block_within(t, i + 3 + n);
            }
        }
    }
}

proof fn lemma_statement_body_within(t: Seq<Token>, i: int)
    requires
        terminated(t),
        0 <= i < t.len(),
    ensures
        within(t, i, spec_statement_body(t, i)),
    decreases rest(t, i), 1nat,
{
    let c = kind_at(t, i);
    if c == C1Token::KwIf {
        lemma_if_within(t, i);
    } else if c == C1Token::KwReturn {
        if kind_at(t, i + 1) != C1Token::Semicolon {
            lemma_assignment_within(t, i + 1);
        }
    } else if c == C1Token::KwPrintf {
        if kind_at(t, i + 1) == C1Token::LeftParenthesis {
            lemma_assignment_within(t, i + 2);
        }
    } else if c == C1Token::Identifier {
        if kind_at(t, i + 1) == C1Token::Assign {
            lemma_assignment_within(t, i + 2);
        }
    } else if c == C1Token::LeftBrace {
        lemma_block_within(t, i);
    }
}

proof fn lemma_statement_list_within(t: Seq<Token>, i: int)
    requires
        terminated(t),
        0 <= i < t.len(),
    ensures
        within(t, i, spec_statement_list(t, i)),
    decreases rest(t, i), 2nat,
{
    let c = kind_at(t, i);
    if c != C1Token::RightBrace && c != C1Token::EOF {
        lemma_statement_body_within(t, i);
        if let Ok(n) = spec_statement_body(t, i) {
            if kind_at(t, i + n) == C1Token::Semicolon {
                lemma_statement_list_within(t, i + n + 1);
            }
        }
    }
}

proof fn lemma_program_within(t: Seq<Token>, i: int)
    requires
        terminated(t),
        0 <= i < t.len(),
    ensures
        within(t, i, spec_program(t, i)),
    decreases rest(t, i),
{
    if kind_at(t, i) != C1Token::EOF {
        if is_type(kind_at(t, i)) && kind_at(t, i + 1) == C1Token::Identifier && kind_at(t, i + 2)
            == C1Token::LeftParenthesis && kind_at(t, i + 3) == C1Token::RightParenthesis
            && kind_at(t, i + 4) == C1Token::LeftBrace {
            lemma_statement_list_within(t, i + 5);
        }
        if let Ok(n) = spec_function_definition(t, i) {
            if n > 0 {
                lemma_program_within(t, i + n);
            }
        }
    }
}

/// A rejected text is rejected at a token of its own: the first one the grammar
/// cannot take. A lexical error reports the line of the scanner's `Error`
/// token; a syntax error reports that token itself. Either way the reported
/// line is the source line of the token's first byte.
pub proof fn lemma_error_at_failing_token(s: Seq<u8>)
    requires
        s.len() < usize::MAX,
    ensures
        ({
            let t = spec_tokens(s);
            match spec_program(t, 0) {
                Ok(_) => spec_parse_text(s) is Ok,
                Err((at, e)) => {
                    &&& 0 <= at < t.len()
                    &&& t[at].line == source_line(s, t[at].start as int)
                    &&& t[at].kind == C1Token::Error ==> spec_parse_text(s) == Err::<(), ParseError>(
                        ParseError::Lex { line: t[at].line },
                    )
                    &&& t[at].kind != C1Token::Error ==> spec_parse_text(s) == Err::<(), ParseError>(
                        ParseError::Syntax { expected: e, found: t[at] },
                    )
                },
            }
        }),
{
    let t = spec_tokens(s);
    lemma_tokens_from_terminated(s, 0, 1);
    lemma_program_within(t, 0);
    lemma_token_lines(s);
}

/// The two sequences have the same token kinds at every index up to `k`.
pub open spec fn same_kinds_upto(a: Seq<Token>, b: Seq<Token>, k: int) -> bool {
    forall|j: int| j <= k ==> #[trigger] kind_at(a, j) == kind_at(b, j)
}

/// The last index that a production started at `i` looked at.
pub open spec fn reach(i: int, o: Outcome) -> int {
    match o {
        Ok(n) => i + n,
        Err((at, _)) => at,
    }
}

proof fn lemma_factor_frame(a: Seq<Token>, b: Seq<Token>, i: int)
    requires
        terminated(a),
        0 <= i < a.len(),
        same_kinds_upto(a, b, reach(i, spec_factor(a, i))),
    ensures
        spec_factor(b, i) == spec_factor(a, i),
    decreases rest(a, i), 0nat,
{
    lemma_factor_within(a, i);
    assert(kind_at(a, i) == kind_at(b, i));
    if crate::parser::is_literal(kind_at(a, i)) {
    } else if kind_at(a, i) == C1Token::Identifier {
        assert(kind_at(a, i + 1) == kind_at(b, i + 1));
        if kind_at(a, i + 1) == C1Token::LeftParenthesis {
            assert(kind_at(a, i + 2) == kind_at(b, i + 2));
        }
    } else if kind_at(a, i) == C1Token::LeftParenthesis {
        lemma_assignment_within(a, i + 1);
        lemma_assignment_frame(a, b, i + 1);
        if let Ok(n) = spec_assignment(a, i + 1) {
            assert(kind_at(a, i + 1 + n) == kind_at(b, i + 1 + n));
        }
    }
}

proof fn lemma_term_tail_frame(a: Seq<Token>, b: Seq<Token>, i: int)
    requires
        terminated(a),
        0 <= i < a.len(),
        same_kinds_upto(a, b, reach(i, spec_term_tail(a, i))),
    ensures
        spec_term_tail(b, i) == spec_term_tail(a, i),
    decreases rest(a, i), 1nat,
{
    lemma_term_tail_within(a, i);
    assert(kind_at(a, i) == kind_at(b, i));
    if crate::parser::is_mul_op(kind_at(a, i)) {
        lemma_factor_within(a, i + 1);
        if let Ok(n) = spec_factor(a, i + 1) {
            lemma_term_tail_within(a, i + 1 + n);
            lemma_term_tail_frame(a, b, i + 1 + n);
        }
        lemma_factor_frame(a, b, i + 1);
    }
}

proof fn lemma_term_frame(a: Seq<Token>, b: Seq<Token>, i: int)
    requires
        terminated(a),
        0 <= i < a.len(),
        same_kinds_upto(a, b, reach(i, spec_term(a, i))),
    ensures
        spec_term(b, i) == spec_term(a, i),
    decreases rest(a, i), 2nat,
{
    lemma_factor_within(a, i);
    if let Ok(n) = spec_factor(a, i) {
        lemma_term_tail_within(a, i + n);
        lemma_term_tail_frame(a, b, i + n);
    }
    lemma_factor_frame(a, b, i);
}

proof fn lemma_simp_tail_frame(a: Seq<Token>, b: Seq<Token>, i: int)
    requires
        terminated(a),
        0 <= i < a.len(),
        same_kinds_upto(a, b, reach(i, spec_simp_tail(a, i))),
    ensures
        spec_simp_tail(b, i) == spec_simp_tail(a, i),
    decreases rest(a, i), 3nat,
{
    lemma_simp_tail_within(a, i);
    assert(kind_at(a, i) == kind_at(b, i));
    if crate::parser::is_add_op(kind_at(a, i)) {
        lemma_term_within(a, i + 1);
        if let Ok(n) = spec_term(a, i + 1) {
            lemma_simp_tail_within(a, i + 1 + n);
            lemma_simp_tail_frame(a, b, i + 1 + n);
        }
        lemma_term_frame(a, b, i + 1);
    }
}

proof fn lemma_simpexpr_frame(a: Seq<Token>, b: Seq<Token>, i: int)
    requires
        terminated(a),
        0 <= i < a.len(),
        same_kinds_upto(a, b, reach(i, spec_simpexpr(a, i))),
    ensures
        spec_simpexpr(b, i) == spec_simpexpr(a, i),
    decreases rest(a, i), 4nat,
{
    lemma_simpexpr_within(a, i);
    assert(kind_at(a, i) == kind_at(b, i));
    let m: nat = if kind_at(a, i) == C1Token::Minus {
        1
    } else {
        0
    };
    lemma_term_within(a, i + m);
    if let Ok(n) = spec_term(a, i + m) {
        lemma_simp_tail_within(a, i + m + n);
        lemma_simp_tail_frame(a, b, i + m + n);
    }
    lemma_term_frame(a, b, i + m);
}

proof fn lemma_expr_frame(a: Seq<Token>, b: Seq<Token>, i: int)
    requires
        terminated(a),
        0 <= i < a.len(),
        same_kinds_upto(a, b, reach(i, spec_expr(a, i))),
    ensures
        spec_expr(b, i) == spec_expr(a, i),
    decreases rest(a, i), 5nat,
{
    lemma_simpexpr_within(a, i);
    if let Ok(n) = spec_simpexpr(a, i) {
        if crate::parser::is_relop(kind_at(a, i + n)) {
            lemma_simpexpr_within(a, i + n + 1);
            lemma_simpexpr_frame(a, b, i + n + 1);
        }
        assert(kind_at(a, i + n) == kind_at(b, i + n));
    }
    lemma_simpexpr_frame(a, b, i);
}

proof fn lemma_assignment_frame(a: Seq<Token>, b: Seq<Token>, i: int)
    requires
        terminated(a),
        0 <= i < a.len(),
        same_kinds_upto(a, b, reach(i, spec_assignment(a, i))),
    ensures
        spec_assignment(b, i) == spec_assignment(a, i),
    decreases rest(a, i), 6nat,
{
    lemma_assignment_within(a, i);
    assert(kind_at(a, i) == kind_at(b, i));
    if kind_at(a, i) == C1Token::Identifier {
        if kind_at(a, i + 1) == C1Token::Assign {
            lemma_assignment_within(a, i + 2);
        } else {
            lemma_expr_passes_name(a, i);
        }
        assert(kind_at(a, i + 1) == kind_at(b, i + 1));
    }
    if kind_at(a, i) == C1Token::Identifier && kind_at(a, i + 1) == C1Token::Assign {
        lemma_assignment_within(a, i + 2);
        lemma_assignment_frame(a, b, i + 2);
    } else {
        lemma_expr_within(a, i);
        lemma_expr_frame(a, b, i);
    }
}

/// An expression that starts with a name looks at least at the token after it.
proof fn lemma_expr_passes_name(a: Seq<Token>, i: int)
    requires
        terminated(a),
        0 <= i < a.len(),
        kind_at(a, i) == C1Token::Identifier,
    ensures
        reach(i, spec_expr(a, i)) >= i + 1,
{
    lemma_factor_within(a, i);
    assert(reach(i, spec_factor(a, i)) >= i + 1);
    if let Ok(n) = spec_factor(a, i) {
        lemma_term_tail_within(a, i + n);
    }
    assert(reach(i, spec_term(a, i)) >= i + 1);
    if let Ok(n) = spec_term(a, i) {
        lemma_simp_tail_within(a, i + n);
    }
    assert(reach(i, spec_simpexpr(a, i)) >= i + 1);
    if let Ok(n) = spec_simpexpr(a, i) {
        if crate::parser::is_relop(kind_at(a, i + n)) {
            lemma_simpexpr_within(a, i + n + 1);
        }
    }
}

proof fn lemma_block_frame(a: Seq<Token>, b: Seq<Token>, i: int)
    requires
        terminated(a),
        0 <= i < a.len(),
        same_kinds_upto(a, b, reach(i, spec_block(a, i))),
    ensures
        spec_block(b, i) == spec_block(a, i),
    decreases rest(a, i), 0nat,
{
    lemma_block_within(a, i);
    assert(kind_at(a, i) == kind_at(b, i));
    if kind_at(a, i) == C1Token::LeftBrace {
        lemma_statement_list_within(a, i + 1);
        lemma_statement_list_frame(a, b, i + 1);
        if let Ok(n) = spec_statement_list(a, i + 1) {
            assert(kind_at(a, i + 1 + n) == kind_at(b, i + 1 + n));
        }
    }
}

proof fn lemma_if_frame(a: Seq<Token>, b: Seq<Token>, i: int)
    requires
        terminated(a),
        0 <= i < a.len(),
        same_kinds_upto(a, b, reach(i, spec_if_statement(a, i))),
    ensures
        spec_if_statement(b, i) == spec_if_statement(a, i),
    decreases rest(a, i), 0nat,
{
    lemma_if_within(a, i);
    assert(kind_at(a, i) == kind_at(b, i));
    if kind_at(a, i) == C1Token::KwIf {
        if kind_at(a, i + 1) == C1Token::LeftParenthesis {
            lemma_assignment_within(a, i + 2);
            if let Ok(n) = spec_assignment(a, i + 2) {
                if kind_at(a, i + 2 + n) == C1Token::RightParenthesis {
                    lemma_block_within(a, i + 3 + n);
                    lemma_block_frame(a, b, i + 3 + n);
                }
                assert(kind_at(a, i + 2 + n) == kind_at(b, i + 2 + n));
            }
            lemma_assignment_frame(a, b, i + 2);
        }
        assert(kind_at(a, i + 1) == kind_at(b, i + 1));
    }
}

proof fn lemma_statement_body_frame(a: Seq<Token>, b: Seq<Token>, i: int)
    requires
        terminated(a),
        0 <= i < a.len(),
        same_kinds_upto(a, b, reach(i, spec_statement_body(a, i))),
    ensures
        spec_statement_body(b, i) == spec_statement_body(a, i),
    decreases rest(a, i), 1nat,
{
    lemma_statement_body_within(a, i);
    let c = kind_at(a, i);
    assert(c == kind_at(b, i));
    if c == C1Token::KwIf {
        lemma_if_frame(a, b, i);
    } else if c == C1Token::KwReturn {
        if kind_at(a, i + 1) != C1Token::Semicolon {
            lemma_assignment_within(a, i + 1);
            lemma_assignment_frame(a, b, i + 1);
        }
        assert(kind_at(a, i + 1) == kind_at(b, i + 1));
    } else if c == C1Token::KwPrintf {
        if kind_at(a, i + 1) == C1Token::LeftParenthesis {
            lemma_assignment_within(a, i + 2);
            lemma_assignment_frame(a, b, i + 2);
            if let Ok(n) = spec_assignment(a, i + 2) {
                assert(kind_at(a, i + 2 + n) == kind_at(b, i + 2 + n));
            }
        }
        assert(kind_at(a, i + 1) == kind_at(b, i + 1));
    } else if c == C1Token::Identifier {
        if kind_at(a, i + 1) == C1Token::Assign {
            lemma_assignment_within(a, i + 2);
            lemma_assignment_frame(a, b, i + 2);
        } else if kind_at(a, i + 1) == C1Token::LeftParenthesis {
            assert(kind_at(a, i + 2) == kind_at(b, i + 2));
        }
        assert(kind_at(a, i + 1) == kind_at(b, i + 1));
    } else if c == C1Token::LeftBrace {
        lemma_block_frame(a, b, i);
    }
}

proof fn lemma_statement_list_frame(a: Seq<Token>, b: Seq<Token>, i: int)
    requires
        terminated(a),
        0 <= i < a.len(),
        same_kinds_upto(a, b, reach(i, spec_statement_list(a, i))),
    ensures
        spec_statement_list(b, i) == spec_statement_list(a, i),
    decreases rest(a, i), 2nat,
{
    lemma_statement_list_within(a, i);
    let c = kind_at(a, i);
    assert(c == kind_at(b, i));
    if c != C1Token::RightBrace && c != C1Token::EOF {
        lemma_statement_body_within(a, i);
        if let Ok(n) = spec_statement_body(a, i) {
            if kind_at(a, i + n) == C1Token::Semicolon {
                lemma_statement_list_within(a, i + n + 1);
                lemma_statement_list_frame(a, b, i + n + 1);
            }
            assert(kind_at(a, i + n) == kind_at(b, i + n));
        }
        lemma_statement_body_frame(a, b, i);
    }
}

/// A function definition looks at no token after its closing `}`.
proof fn lemma_function_definition_frame(a: Seq<Token>, b: Seq<Token>, i: int)
    requires
        terminated(a),
        0 <= i < a.len(),
        same_kinds_upto(
            a,
            b,
            match spec_function_definition(a, i) {
                Ok(n) => i + n - 1,
                Err((at, _)) => at,
            },
        ),
    ensures
        spec_function_definition(b, i) == spec_function_definition(a, i),
{
    if is_type(kind_at(a, i)) && kind_at(a, i + 1) == C1Token::Identifier && kind_at(a, i + 2)
        == C1Token::LeftParenthesis && kind_at(a, i + 3) == C1Token::RightParenthesis && kind_at(
        a,
        i + 4,
    ) == C1Token::LeftBrace {
        lemma_statement_list_within(a, i + 5);
    }
    assert(kind_at(a, i) == kind_at(b, i));
    if is_type(kind_at(a, i)) {
        assert(kind_at(a, i + 1) == kind_at(b, i + 1));
        if kind_at(a, i + 1) == C1Token::Identifier {
            assert(kind_at(a, i + 2) == kind_at(b, i + 2));
            if kind_at(a, i + 2) == C1Token::LeftParenthesis {
                assert(kind_at(a, i + 3) == kind_at(b, i + 3));
                if kind_at(a, i + 3) == C1Token::RightParenthesis {
                    assert(kind_at(a, i + 4) == kind_at(b, i + 4));
                    if kind_at(a, i + 4) == C1Token::LeftBrace {
                        lemma_statement_list_within(a, i + 5);
                        lemma_statement_list_frame(a, b, i + 5);
                        if let Ok(m) = spec_statement_list(a, i + 5) {
                            assert(kind_at(a, i + 5 + m) == kind_at(b, i + 5 + m));
                        }
                    }
                }
            }
        }
    }
}

/// Appending one token other than `EOF` after an accepted single-function
/// program (and ending the sequence with `EOF` again) makes it rejected, at the
/// appended token or, where that token is a type keyword, at the `EOF` after it.
pub proof fn lemma_appended_token_rejected(t: Seq<Token>, n: nat, x: Token, end: Token)
    requires
        terminated(t),
        spec_function_definition(t, 0) == Ok::<nat, (int, Expected)>(n),
        kind_at(t, n as int) == C1Token::EOF,
        x.kind != C1Token::EOF,
        end.kind == C1Token::EOF,
    ensures
        verdict(t, 0) == Ok::<(), ParseError>(()),
        ({
            let u = t.take(n as int) + seq![x, end];
            verdict(u, 0) == Err::<(), ParseError>(
                if is_type(x.kind) {
                    diagnostic(u, n as int + 1, Expected::Kind(C1Token::Identifier))
                } else {
                    diagnostic(u, n as int, Expected::Type)
                },
            )
        }),
{
    let u = t.take(n as int) + seq![x, end];
    lemma_function_definition_within_prefix(t, n);
    assert forall|j: int| j <= n - 1 implies #[trigger] kind_at(t, j) == kind_at(u, j) by {
        if 0 <= j {
            assert(u[j] == t[j]);
        }
    }
    lemma_function_definition_frame(t, u, 0);
    assert(kind_at(u, n as int) == x.kind);
    assert(kind_at(u, n as int + 1) == C1Token::EOF);
    lemma_single_function(t, n);
    lemma_single_function(u, n);
}

/// A function definition that succeeds lies within the sequence.
proof fn lemma_function_definition_within_prefix(t: Seq<Token>, n: nat)
    requires
        terminated(t),
        spec_function_definition(t, 0) == Ok::<nat, (int, Expected)>(n),
    ensures
        n < t.len(),
{
    lemma_statement_list_within(t, 5);
}

/// `r` is a trivia scan that stopped at position `n`.
pub open spec fn stops_at(r: Result<(int, int), (int, int)>, n: int) -> bool {
    match r {
        Ok((p, _)) => p == n,
        Err(_) => false,
    }
}

/// From `pos` on, whatever the line, the trivia scan reaches the end of input.
pub open spec fn scan_reaches_end(s: Seq<u8>, pos: int) -> bool {
    forall|line: int, o: (int, int)| stops_at(#[trigger] scan_trivia(s, pos, line, 0, o), s.len() as int)
}

/// `s[a..b]` is one blank piece: a whitespace byte; a line comment (`//` and
/// bytes other than newline) ended by a newline or by the end of input; or a
/// block comment (`/*`, bytes holding no `*/`, then `*/`).
pub open spec fn blank_piece(s: Seq<u8>, a: int, b: int) -> bool {
    &&& 0 <= a < b <= s.len()
    &&& {
        ||| b == a + 1 && is_ws(s[a])
        ||| {
            &&& b >= a + 2
            &&& s[a] == 47u8 && s[a + 1] == 47u8
            &&& forall|j: int| a + 2 <= j < b - 1 ==> #[trigger] s[j] != NEWLINE
            &&& (s[b - 1] == NEWLINE || (b == s.len() && (b == a + 2 || s[b - 1] != NEWLINE)))
        }
        ||| {
            &&& b >= a + 4
            &&& s[a] == 47u8 && s[a + 1] == 42u8
            &&& s[b - 2] == 42u8 && s[b - 1] == 47u8
            &&& forall|j: int| a + 2 <= j < b - 2 ==> !(#[trigger] s[j] == 42u8 && s[j + 1] == 47u8)
        }
    }
}

/// `cuts` splits `s` into blank pieces: it runs from 0 to the end of `s`, and
/// each two neighbours bound one piece.
pub open spec fn blank_cuts(s: Seq<u8>, cuts: Seq<int>) -> bool {
    &&& cuts.len() >= 1
    &&& cuts[0] == 0
    &&& cuts.last() == s.len()
    &&& forall|k: int| 0 <= k < cuts.len() - 1 ==> blank_piece(s, #[trigger] cuts[k], cuts[k + 1])
}

proof fn lemma_line_comment_body(s: Seq<u8>, pos: int, b: int, line: int, o: (int, int))
    requires
        0 <= pos <= b <= s.len(),
        forall|j: int| pos <= j < b - 1 ==> #[trigger] s[j] != NEWLINE,
        b == s.len() && (pos == b || s[b - 1] != NEWLINE) || (pos < b && s[b - 1] == NEWLINE
            && scan_reaches_end(s, b)),
    ensures
        stops_at(scan_trivia(s, pos, line, 1, o), s.len() as int),
    decreases b - pos,
{
    if pos < s.len() {
        if s[pos] == NEWLINE {
            assert(pos == b - 1);
            assert(stops_at(scan_trivia(s, b, line + 1, 0, o), s.len() as int));
        } else {
            lemma_line_comment_body(s, pos + 1, b, line, o);
        }
    }
}

proof fn lemma_block_comment_body(s: Seq<u8>, pos: int, c: int, line: int, o: (int, int))
    requires
        0 <= pos <= c,
        c + 2 <= s.len(),
        s[c] == 42u8 && s[c + 1] == 47u8,
        forall|j: int| pos <= j < c ==> !(#[trigger] s[j] == 42u8 && s[j + 1] == 47u8),
        scan_reaches_end(s, c + 2),
    ensures
        stops_at(scan_trivia(s, pos, line, 2, o), s.len() as int),
    decreases c - pos,
{
    if pos == c {
        assert(stops_at(scan_trivia(s, c + 2, line, 0, o), s.len() as int));
    } else {
        assert(!(s[pos] == 42u8 && s[pos + 1] == 47u8));
        let nl = if s[pos] == NEWLINE {
            line + 1
        } else {
            line
        };
        lemma_block_comment_body(s, pos + 1, c, nl, o);
    }
}

proof fn lemma_piece(s: Seq<u8>, a: int, b: int)
    requires
        blank_piece(s, a, b),
        b < s.len() ==> scan_reaches_end(s, b),
    ensures
        scan_reaches_end(s, a),
{
    assert forall|l: int, q: (int, int)| stops_at(
        #[trigger] scan_trivia(s, b, l, 0, q),
        s.len() as int,
    ) by {}
    assert forall|line: int, o: (int, int)| stops_at(
        #[trigger] scan_trivia(s, a, line, 0, o),
        s.len() as int,
    ) by {
        if b == a + 1 && is_ws(s[a]) {
            let nl = if s[a] == NEWLINE {
                line + 1
            } else {
                line
            };
            assert(stops_at(scan_trivia(s, b, nl, 0, o), s.len() as int));
        } else if s[a] == 47u8 && s[a + 1] == 47u8 {
            lemma_line_comment_body(s, a + 2, b, line, o);
        } else {
            lemma_block_comment_body(s, a + 2, b - 2, line, (a, line));
        }
    }
}

proof fn lemma_cuts_reach_end(s: Seq<u8>, cuts: Seq<int>, k: int)
    requires
        blank_cuts(s, cuts),
        0 <= k < cuts.len(),
    ensures
        scan_reaches_end(s, cuts[k]),
    decreases cuts.len() - k,
{
    if k == cuts.len() - 1 {
        assert forall|line: int, o: (int, int)| stops_at(
            #[trigger] scan_trivia(s, cuts[k], line, 0, o),
            s.len() as int,
        ) by {}
    } else {
        lemma_cuts_reach_end(s, cuts, k + 1);
        assert(blank_piece(s, cuts[k], cuts[k + 1]));
        lemma_piece(s, cuts[k], cuts[k + 1]);
    }
}

/// Text made only of whitespace and comments, in any order and number, is an
/// empty program, and it is accepted.
pub proof fn lemma_comments_and_whitespace_accepted(s: Seq<u8>, cuts: Seq<int>)
    requires
        blank_cuts(s, cuts),
    ensures
        spec_parse_text(s) == Ok::<(), ParseError>(()),
{
    lemma_cuts_reach_end(s, cuts, 0);
    assert(stops_at(scan_trivia(s, 0, 1, 0, (0, 1)), s.len() as int));
    lemma_blank_input_accepted(s);
}

proof fn lemma_program_frame(a: Seq<Token>, b: Seq<Token>, i: int)
    requires
        terminated(a),
        0 <= i < a.len(),
        same_kinds_upto(a, b, reach(i, spec_program(a, i))),
    ensures
        spec_program(b, i) == spec_program(a, i),
    decreases rest(a, i),
{
    lemma_program_within(a, i);
    assert(kind_at(a, i) == kind_at(b, i));
    if kind_at(a, i) != C1Token::EOF {
        if let Ok(n) = spec_function_definition(a, i) {
            if n > 0 {
                lemma_program_within(a, i + n);
                lemma_program_frame(a, b, i + n);
            }
        }
        lemma_function_definition_frame(a, b, i);
    }
}

/// A rejection is final: the tokens up to and including the one where a program
/// is rejected start no accepted program. Every sequence with the same kinds up
/// to that token, whatever follows it, is rejected at the same token for the
/// same reason.
pub proof fn lemma_rejection_is_final(t: Seq<Token>, u: Seq<Token>, at: int, e: Expected)
    requires
        terminated(t),
        spec_program(t, 0) == Err::<nat, (int, Expected)>((at, e)),
        same_kinds_upto(t, u, at),
    ensures
        spec_program(u, 0) == Err::<nat, (int, Expected)>((at, e)),
{
    lemma_program_frame(t, u, 0);
}

} // verus!
