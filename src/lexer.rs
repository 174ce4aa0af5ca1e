//! Scanner: turns source bytes into classified tokens with line numbers.
use vstd::prelude::*;
use vstd::string::StringSliceAdditionalSpecFns;

verus! {

/// The closed set of token kinds. `EOF` ends every well-formed token sequence;
/// `Error` stands at the place where no lexical rule matched.
#[derive(Clone, Copy, Debug, PartialEq, Eq, Structural)]
pub enum C1Token {
    KwBoolean,
    KwFloat,
    KwInt,
    KwVoid,
    KwIf,
    KwReturn,
    KwPrintf,
    Identifier,
    ConstInt,
    ConstFloat,
    ConstBoolean,
    Assign,
    Plus,
    Minus,
    Asterisk,
    Slash,
    And,
    Or,
    Equal,
    NotEqual,
    Less,
    LessEqual,
    Greater,
    GreaterEqual,
    LeftParenthesis,
    RightParenthesis,
    LeftBrace,
    RightBrace,
    Semicolon,
    EOF,
    Error,
}

/// A classified lexeme: its kind, the 1-based line it starts on, and its byte span
/// `start..end` in the source text.
#[derive(Clone, Copy, Debug, PartialEq, Eq, Structural)]
pub struct Token {
    pub kind: C1Token,
    pub line: usize,
    pub start: usize,
    pub end: usize,
}

pub const NEWLINE: u8 = 10;
pub const SLASH: u8 = 47;
pub const STAR: u8 = 42;
pub const DOT: u8 = 46;

/// Space, tab, newline, carriage return.
pub open spec fn is_ws(b: u8) -> bool {
    b == 32 || b == 9 || b == 10 || b == 13
}

/// `0` to `9`.
pub open spec fn is_digit(b: u8) -> bool {
    48 <= b <= 57
}

/// A byte that may start a name: an ASCII letter or `_`.
pub open spec fn is_letter(b: u8) -> bool {
    (65 <= b <= 90) || (97 <= b <= 122) || b == 95
}

pub open spec fn is_word_byte(b: u8) -> bool {
    is_letter(b) || is_digit(b)
}

/// Scan over whitespace and comments starting at `pos` on line `line`.
/// `mode` is 0 between lexemes, 1 inside a line comment, and 2 inside a block
/// comment whose `/*` stands at position and line `opened`.
/// `Ok((p, l))`: the next lexeme (or the end of input) is at `p`, on line `l`.
/// `Err((a, l))`: the block comment opened at `a`, on line `l`, is never closed.
pub open spec fn scan_trivia(s: Seq<u8>, pos: int, line: int, mode: int, opened: (int, int)) -> Result<
    (int, int),
    (int, int),
>
    decreases s.len() - pos,
{
    if pos >= s.len() {
        if mode == 2 {
            Err(opened)
        } else {
            Ok((pos, line))
        }
    } else {
        let b = s[pos];
        let nl = if b == NEWLINE {
            line + 1
        } else {
            line
        };
        let closes = pos + 1 < s.len() && s[pos + 1] == SLASH;
        let stars = pos + 1 < s.len() && s[pos + 1] == STAR;
        if mode == 1 {
            scan_trivia(s, pos + 1, nl, if b == NEWLINE { 0 } else { 1 }, opened)
        } else if mode == 2 {
            if b == STAR && closes {
                scan_trivia(s, pos + 2, line, 0, opened)
            } else {
                scan_trivia(s, pos + 1, nl, 2, opened)
            }
        } else if is_ws(b) {
            scan_trivia(s, pos + 1, nl, 0, opened)
        } else if b == SLASH && closes {
            scan_trivia(s, pos + 2, line, 1, opened)
        } else if b == SLASH && stars {
            scan_trivia(s, pos + 2, line, 2, (pos, line))
        } else {
            Ok((pos, line))
        }
    }
}

/// Number of name bytes (letters, digits, `_`) from `pos` on.
pub open spec fn word_len(s: Seq<u8>, pos: int) -> nat
    decreases s.len() - pos,
{
    if 0 <= pos < s.len() && is_word_byte(s[pos]) {
        1 + word_len(s, pos + 1)
    } else {
        0
    }
}

/// Number of decimal digits from `pos` on.
pub open spec fn digits_len(s: Seq<u8>, pos: int) -> nat
    decreases s.len() - pos,
{
    if 0 <= pos < s.len() && is_digit(s[pos]) {
        1 + digits_len(s, pos + 1)
    } else {
        0
    }
}

/// The kind of a name: a reserved word, a boolean literal, or an identifier.
/// The words are spelled as ASCII codes: bool, float, int, void, if, return,
/// printf, and the literals true and false.
pub open spec fn word_kind(w: Seq<u8>) -> C1Token {
    if w == seq![98u8, 111, 111, 108] {
        C1Token::KwBoolean
    } else if w == seq![102u8, 108, 111, 97, 116] {
        C1Token::KwFloat
    } else if w == seq![105u8, 110, 116] {
        C1Token::KwInt
    } else if w == seq![118u8, 111, 105, 100] {
        C1Token::KwVoid
    } else if w == seq![105u8, 102] {
        C1Token::KwIf
    } else if w == seq![114u8, 101, 116, 117, 114, 110] {
        C1Token::KwReturn
    } else if w == seq![112u8, 114, 105, 110, 116, 102] {
        C1Token::KwPrintf
    } else if w == seq![116u8, 114, 117, 101] || w == seq![102u8, 97, 108, 115, 101] {
        C1Token::ConstBoolean
    } else {
        C1Token::Identifier
    }
}

/// An operator or punctuation lexeme at `pos` (one that is not a name or a number):
/// two-byte operators win over their one-byte prefixes; a byte that starts no
/// operator is an `Error` of length one. Bytes are ASCII codes: 61 `=`, 33 `!`,
/// 60 `<`, 62 `>`, 38 `&`, 124 `|`, 43 `+`, 45 `-`, 42 `*`, 47 `/`, 40 `(`,
/// 41 `)`, 123 `{`, 125 `}`, 59 `;`.
pub open spec fn operator_at(s: Seq<u8>, pos: int) -> (C1Token, nat) {
    let b = s[pos];
    let next_is = |c: u8| pos + 1 < s.len() && s[pos + 1] == c;
    if b == 61 {
        if next_is(61) { (C1Token::Equal, 2) } else { (C1Token::Assign, 1) }  // == =
    } else if b == 33 {
        if next_is(61) { (C1Token::NotEqual, 2) } else { (C1Token::Error, 1) }  // !=
    } else if b == 60 {
        if next_is(61) { (C1Token::LessEqual, 2) } else { (C1Token::Less, 1) }  // <= <
    } else if b == 62 {
        if next_is(61) { (C1Token::GreaterEqual, 2) } else { (C1Token::Greater, 1) }  // >= >
    } else if b == 38 {
        if next_is(38) { (C1Token::And, 2) } else { (C1Token::Error, 1) }  // &&
    } else if b == 124 {
        if next_is(124) { (C1Token::Or, 2) } else { (C1Token::Error, 1) }  // ||
    } else if b == 43 {
        (C1Token::Plus, 1)
    } else if b == 45 {
        (C1Token::Minus, 1)
    } else if b == 42 {
        (C1Token::Asterisk, 1)
    } else if b == 47 {
        (C1Token::Slash, 1)
    } else if b == 40 {
        (C1Token::LeftParenthesis, 1)
    } else if b == 41 {
        (C1Token::RightParenthesis, 1)
    } else if b == 123 {
        (C1Token::LeftBrace, 1)
    } else if b == 125 {
        (C1Token::RightBrace, 1)
    } else if b == 59 {
        (C1Token::Semicolon, 1)
    } else {
        (C1Token::Error, 1)
    }
}

/// The maximal lexeme at `pos` (`0 <= pos < s.len()`, not the start of trivia):
/// its kind and its length, which is at least one. A number is a float when a
/// `.` and at least one digit follow its integer digits.
pub open spec fn lexeme_at(s: Seq<u8>, pos: int) -> (C1Token, nat) {
    let b = s[pos];
    if is_letter(b) {
        let n = 1 + word_len(s, pos + 1);
        (word_kind(s.subrange(pos, pos + n)), n)
    } else if is_digit(b) {
        let d = 1 + digits_len(s, pos + 1);
        let q = pos + d;
        if q + 1 < s.len() && s[q] == DOT && is_digit(s[q + 1]) {
            (C1Token::ConstFloat, d + 1 + digits_len(s, q + 1))
        } else {
            (C1Token::ConstInt, d)
        }
    } else {
        operator_at(s, pos)
    }
}

/// A lexeme found at `p` by a scan that started at `pos` lies after `pos`, is not
/// empty, and ends within the input.
pub open spec fn steps_forward(s: Seq<u8>, pos: int, p: int, n: nat) -> bool {
    pos <= p && 0 < n && p + n <= s.len()
}

/// The tokens of `s` from `pos` on, at line `line`: each maximal lexeme in turn,
/// ended by `EOF` at the end of input, or by an `Error` token at the first place
/// where no rule matches (for an unclosed block comment, its `/*`).
pub open spec fn tokens_from(s: Seq<u8>, pos: int, line: int) -> Seq<Token>
    decreases s.len() - pos,
{
    match scan_trivia(s, pos, line, 0, (pos, line)) {
        Err((a, l)) => seq![
            Token { kind: C1Token::Error, line: l as usize, start: a as usize, end: (a + 2) as usize },
        ],
        Ok((p, l)) => {
            if p >= s.len() {
                seq![
                    Token { kind: C1Token::EOF, line: l as usize, start: s.len() as usize, end: s.len() as usize },
                ]
            } else {
                let (k, n) = lexeme_at(s, p);
                let t = Token { kind: k, line: l as usize, start: p as usize, end: (p + n) as usize };
                // `steps_forward` always holds (`tokenize` proves it); it is
                // tested here so that termination is evident
                if k == C1Token::Error || !steps_forward(s, pos, p, n) {
                    seq![t]
                } else {
                    seq![t] + tokens_from(s, p + n, l)
                }
            }
        },
    }
}

/// The token sequence of a whole source text.
pub open spec fn spec_tokens(s: Seq<u8>) -> Seq<Token> {
    tokens_from(s, 0, 1)
}

/// The kind of the token at index `i`; `EOF` past either end.
pub open spec fn kind_at(t: Seq<Token>, i: int) -> C1Token {
    if 0 <= i < t.len() {
        t[i].kind
    } else {
        C1Token::EOF
    }
}

fn is_ws_byte(b: u8) -> (r: bool)
    ensures
        r == is_ws(b),
{
    b == 32 || b == 9 || b == 10 || b == 13
}

fn is_digit_byte(b: u8) -> (r: bool)
    ensures
        r == is_digit(b),
{
    48 <= b && b <= 57
}

fn is_letter_byte(b: u8) -> (r: bool)
    ensures
        r == is_letter(b),
{
    (65 <= b && b <= 90) || (97 <= b && b <= 122) || b == 95
}

fn is_word_char(b: u8) -> (r: bool)
    ensures
        r == is_word_byte(b),
{
    is_letter_byte(b) || is_digit_byte(b)
}

/// Whether the byte after `pos` exists and is `c`.
fn next_is(s: &[u8], pos: usize, c: u8) -> (r: bool)
    requires
        pos < s@.len(),
    ensures
        r == (pos + 1 < s@.len() && s@[pos + 1] == c),
{
    pos < s.len() - 1 && s[pos + 1] == c
}

/// Skips whitespace and comments from `pos0`; see `scan_trivia`.
fn skip_trivia(s: &[u8], pos0: usize, line0: usize) -> (r: Result<(usize, usize), (usize, usize)>)
    requires
        pos0 <= s@.len() < usize::MAX,
        line0 <= pos0 + 1,
    ensures
        match r {
            Ok((p, l)) => {
                &&& scan_trivia(s@, pos0 as int, line0 as int, 0, (pos0 as int, line0 as int))
                    == Ok::<(int, int), (int, int)>((p as int, l as int))
                &&& pos0 <= p <= s@.len()
                &&& line0 <= l <= line0 + (p - pos0)
            },
            Err((a, l)) => {
                &&& scan_trivia(s@, pos0 as int, line0 as int, 0, (pos0 as int, line0 as int))
                    == Err::<(int, int), (int, int)>((a as int, l as int))
                &&& a + 2 <= s@.len()
            },
        },
{
    let mut pos = pos0;
    let mut line = line0;
    let mut mode: u8 = 0;
    let mut opened_at = pos0;
    let mut opened_line = line0;
    while pos < s.len()
        invariant
            pos0 <= pos <= s@.len() < usize::MAX,
            line0 <= pos0 + 1,
            line0 <= line <= line0 + (pos - pos0),
            mode <= 2,
            mode == 2 ==> opened_at + 2 <= pos,
            scan_trivia(s@, pos as int, line as int, mode as int, (opened_at as int, opened_line as int))
                == scan_trivia(s@, pos0 as int, line0 as int, 0, (pos0 as int, line0 as int)),
        decreases s@.len() - pos,
    {
        let b = s[pos];
        if mode == 1 {
            if b == NEWLINE {
                line = line + 1;
                mode = 0;
            }
            pos = pos + 1;
        } else if mode == 2 {
            if b == STAR && next_is(s, pos, SLASH) {
                pos = pos + 2;
                mode = 0;
            } else {
                if b == NEWLINE {
                    line = line + 1;
                }
                pos = pos + 1;
            }
        } else if is_ws_byte(b) {
            if b == NEWLINE {
                line = line + 1;
            }
            pos = pos + 1;
        } else if b == SLASH && next_is(s, pos, SLASH) {
            pos = pos + 2;
            mode = 1;
        } else if b == SLASH && next_is(s, pos, STAR) {
            opened_at = pos;
            opened_line = line;
            pos = pos + 2;
            mode = 2;
        } else {
            return Ok((pos, line));
        }
    }
    if mode == 2 {
        Err((opened_at, opened_line))
    } else {
        Ok((pos, line))
    }
}

/// End of the run of name bytes that starts at `pos`.
fn word_end(s: &[u8], pos: usize) -> (e: usize)
    requires
        pos <= s@.len(),
    ensures
        e == pos + word_len(s@, pos as int),
        e <= s@.len(),
{
    let mut i = pos;
    while i < s.len() && is_word_char(s[i])
        invariant
            pos <= i <= s@.len(),
            word_len(s@, pos as int) == (i - pos) + word_len(s@, i as int),
        decreases s@.len() - i,
    {
        i = i + 1;
    }
    i
}

/// End of the run of digits that starts at `pos`.
fn digits_end(s: &[u8], pos: usize) -> (e: usize)
    requires
        pos <= s@.len(),
    ensures
        e == pos + digits_len(s@, pos as int),
        e <= s@.len(),
{
    let mut i = pos;
    while i < s.len() && is_digit_byte(s[i])
        invariant
            pos <= i <= s@.len(),
            digits_len(s@, pos as int) == (i - pos) + digits_len(s@, i as int),
        decreases s@.len() - i,
    {
        i = i + 1;
    }
    i
}

/// Whether `s[start..end]` spells `w`.
fn span_equals(s: &[u8], start: usize, end: usize, w: &[u8]) -> (r: bool)
    requires
        start <= end <= s@.len(),
    ensures
        r == (s@.subrange(start as int, end as int) == w@),
{
    if end - start != w.len() {
        return false;
    }
    let mut i: usize = 0;
    while i < w.len()
        invariant
            end - start == w@.len(),
            start <= end <= s@.len(),
            i <= w@.len(),
            forall|j: int| 0 <= j < i ==> s@[start + j] == w@[j],
        decreases w@.len() - i,
    {
        if s[start + i] != w[i] {
            assert(s@.subrange(start as int, end as int)[i as int] != w@[i as int]);
            return false;
        }
        i = i + 1;
    }
    assert(s@.subrange(start as int, end as int) =~= w@);
    true
}

/// The kind of the name `s[start..end]`; see `word_kind`.
fn name_kind(s: &[u8], start: usize, end: usize) -> (k: C1Token)
    requires
        start <= end <= s@.len(),
    ensures
        k == word_kind(s@.subrange(start as int, end as int)),
{
    let kw_bool: [u8; 4] = [98u8, 111, 111, 108];
    let kw_float: [u8; 5] = [102u8, 108, 111, 97, 116];
    let kw_int: [u8; 3] = [105u8, 110, 116];
    let kw_void: [u8; 4] = [118u8, 111, 105, 100];
    let kw_if: [u8; 2] = [105u8, 102];
    let kw_return: [u8; 6] = [114u8, 101, 116, 117, 114, 110];
    let kw_printf: [u8; 6] = [112u8, 114, 105, 110, 116, 102];
    let lit_true: [u8; 4] = [116u8, 114, 117, 101];
    let lit_false: [u8; 5] = [102u8, 97, 108, 115, 101];
    assert(kw_bool@ =~= seq![98u8, 111, 111, 108]);
    assert(kw_float@ =~= seq![102u8, 108, 111, 97, 116]);
    assert(kw_int@ =~= seq![105u8, 110, 116]);
    assert(kw_void@ =~= seq![118u8, 111, 105, 100]);
    assert(kw_if@ =~= seq![105u8, 102]);
    assert(kw_return@ =~= seq![114u8, 101, 116, 117, 114, 110]);
    assert(kw_printf@ =~= seq![112u8, 114, 105, 110, 116, 102]);
    assert(lit_true@ =~= seq![116u8, 114, 117, 101]);
    assert(lit_false@ =~= seq![102u8, 97, 108, 115, 101]);
    if span_equals(s, start, end, kw_bool.as_slice()) {
        C1Token::KwBoolean
    } else if span_equals(s, start, end, kw_float.as_slice()) {
        C1Token::KwFloat
    } else if span_equals(s, start, end, kw_int.as_slice()) {
        C1Token::KwInt
    } else if span_equals(s, start, end, kw_void.as_slice()) {
        C1Token::KwVoid
    } else if span_equals(s, start, end, kw_if.as_slice()) {
        C1Token::KwIf
    } else if span_equals(s, start, end, kw_return.as_slice()) {
        C1Token::KwReturn
    } else if span_equals(s, start, end, kw_printf.as_slice()) {
        C1Token::KwPrintf
    } else if span_equals(s, start, end, lit_true.as_slice()) || span_equals(
        s,
        start,
        end,
        lit_false.as_slice(),
    ) {
        C1Token::ConstBoolean
    } else {
        C1Token::Identifier
    }
}

/// The operator or punctuation lexeme at `pos`; see `operator_at`.
fn operator(s: &[u8], pos: usize) -> (r: (C1Token, usize))
    requires
        pos < s@.len(),
    ensures
        r.0 == operator_at(s@, pos as int).0,
        r.1 == operator_at(s@, pos as int).1,
{
    let b = s[pos];
    if b == 61 {
        if next_is(s, pos, 61) { (C1Token::Equal, 2) } else { (C1Token::Assign, 1) }
    } else if b == 33 {
        if next_is(s, pos, 61) { (C1Token::NotEqual, 2) } else { (C1Token::Error, 1) }
    } else if b == 60 {
        if next_is(s, pos, 61) { (C1Token::LessEqual, 2) } else { (C1Token::Less, 1) }
    } else if b == 62 {
        if next_is(s, pos, 61) { (C1Token::GreaterEqual, 2) } else { (C1Token::Greater, 1) }
    } else if b == 38 {
        if next_is(s, pos, 38) { (C1Token::And, 2) } else { (C1Token::Error, 1) }
    } else if b == 124 {
        if next_is(s, pos, 124) { (C1Token::Or, 2) } else { (C1Token::Error, 1) }
    } else if b == 43 {
        (C1Token::Plus, 1)
    } else if b == 45 {
        (C1Token::Minus, 1)
    } else if b == 42 {
        (C1Token::Asterisk, 1)
    } else if b == 47 {
        (C1Token::Slash, 1)
    } else if b == 40 {
        (C1Token::LeftParenthesis, 1)
    } else if b == 41 {
        (C1Token::RightParenthesis, 1)
    } else if b == 123 {
        (C1Token::LeftBrace, 1)
    } else if b == 125 {
        (C1Token::RightBrace, 1)
    } else if b == 59 {
        (C1Token::Semicolon, 1)
    } else {
        (C1Token::Error, 1)
    }
}

/// The maximal lexeme at `pos`: its kind and length; see `lexeme_at`.
fn lexeme(s: &[u8], pos: usize) -> (r: (C1Token, usize))
    requires
        pos < s@.len(),
    ensures
        r.0 == lexeme_at(s@, pos as int).0,
        r.1 == lexeme_at(s@, pos as int).1,
        0 < r.1,
        pos + r.1 <= s@.len(),
{
    let b = s[pos];
    if is_letter_byte(b) {
        let e = word_end(s, pos + 1);
        (name_kind(s, pos, e), e - pos)
    } else if is_digit_byte(b) {
        let q = digits_end(s, pos + 1);
        if q < s.len() && s[q] == DOT && q + 1 < s.len() && is_digit_byte(s[q + 1]) {
            let e = digits_end(s, q + 1);
            (C1Token::ConstFloat, e - pos)
        } else {
            (C1Token::ConstInt, q - pos)
        }
    } else {
        operator(s, pos)
    }
}

/// Splits `s` into its tokens, up to and including `EOF` or the first `Error`.
pub fn tokenize(s: &[u8]) -> (r: Vec<Token>)
    requires
        s@.len() < usize::MAX,
    ensures
        r@ == spec_tokens(s@),
{
    let mut out: Vec<Token> = Vec::new();
    let mut pos: usize = 0;
    let mut line: usize = 1;
    loop
        invariant
            pos <= s@.len() < usize::MAX,
            1 <= line <= pos + 1,
            out@ + tokens_from(s@, pos as int, line as int) == spec_tokens(s@),
        decreases s@.len() - pos,
    {
        match skip_trivia(s, pos, line) {
            Err((a, l)) => {
                let t = Token { kind: C1Token::Error, line: l, start: a, end: a + 2 };
                assert(tokens_from(s@, pos as int, line as int) == seq![t]);
                out.push(t);
                assert(out@ =~= spec_tokens(s@));
                return out;
            },
            Ok((p, l)) => {
                if p >= s.len() {
                    let t = Token { kind: C1Token::EOF, line: l, start: s.len(), end: s.len() };
                    assert(tokens_from(s@, pos as int, line as int) == seq![t]);
                    out.push(t);
                    assert(out@ =~= spec_tokens(s@));
                    return out;
                }
                let (k, n) = lexeme(s, p);
                let t = Token { kind: k, line: l, start: p, end: p + n };
                assert(steps_forward(s@, pos as int, p as int, n as nat));
                out.push(t);
                if k == C1Token::Error {
                    assert(tokens_from(s@, pos as int, line as int) == seq![t]);
                    assert(out@ =~= spec_tokens(s@));
                    return out;
                }
                assert(tokens_from(s@, pos as int, line as int) == seq![t] + tokens_from(
                    s@,
                    (p + n) as int,
                    l as int,
                ));
                assert(out@ + tokens_from(s@, (p + n) as int, l as int) =~= spec_tokens(s@));
                pos = p + n;
                line = l;
            },
        }
    }
}

/// The scanner over one source text: its tokens, up to `EOF` or the first
/// `Error`, and a cursor at the current token.
pub struct C1Lexer {
    pub tokens: Vec<Token>,
    pub pos: usize,
}

impl C1Lexer {
    /// Scans `text`; the cursor stands at its first token.
    pub fn new(text: &str) -> (r: C1Lexer)
        requires
            text.spec_bytes().len() < usize::MAX,
        ensures
            r.tokens@ == spec_tokens(text.spec_bytes()),
            r.pos == 0,
    {
        C1Lexer { tokens: tokenize(text.as_bytes()), pos: 0 }
    }

    /// The kind of the token at index `i`; `EOF` past the end.
    pub fn kind(&self, i: usize) -> (k: C1Token)
        ensures
            k == kind_at(self.tokens@, i as int),
            k != C1Token::EOF ==> i < self.tokens@.len() && i < usize::MAX,
    {
        if i < self.tokens.len() {
            self.tokens[i].kind
        } else {
            C1Token::EOF
        }
    }

    /// The kind of the current token.
    pub fn current_token(&self) -> (k: C1Token)
        ensures
            k == kind_at(self.tokens@, self.pos as int),
    {
        self.kind(self.pos)
    }

    /// The kind of the token after the current one, without moving the cursor.
    pub fn peek_token(&self) -> (k: C1Token)
        ensures
            k == kind_at(self.tokens@, self.pos + 1),
    {
        if self.pos < self.tokens.len() {
            self.kind(self.pos + 1)
        } else {
            C1Token::EOF
        }
    }

    /// Consumes the current token and returns its kind; at the end the cursor
    /// stays where it is.
    pub fn next(&mut self) -> (k: C1Token)
        ensures
            k == kind_at(old(self).tokens@, old(self).pos as int),
            final(self).tokens == old(self).tokens,
            final(self).pos == if old(self).pos < old(self).tokens@.len() {
                old(self).pos + 1
            } else {
                old(self).pos as int
            },
    {
        let k = self.current_token();
        if self.pos < self.tokens.len() {
            self.pos = self.pos + 1;
        }
        k
    }

    /// The line of the current token, if the cursor is on one.
    pub fn current_line(&self) -> (r: Option<usize>)
        ensures
            r == (if self.pos < self.tokens@.len() {
                Some(self.tokens@[self.pos as int].line)
            } else {
                None
            }),
    {
        if self.pos < self.tokens.len() {
            Some(self.tokens[self.pos].line)
        } else {
            None
        }
    }

    /// The line of the token after the current one, if there is one.
    pub fn peek_line(&self) -> (r: Option<usize>)
        ensures
            r == (if self.pos + 1 < self.tokens@.len() {
                Some(self.tokens@[self.pos + 1].line)
            } else {
                None
            }),
    {
        if self.pos < self.tokens.len() && self.pos + 1 < self.tokens.len() {
            Some(self.tokens[self.pos + 1].line)
        } else {
            None
        }
    }

    /// The byte span of the text of the token after the current one, if there is one.
    pub fn peek_span(&self) -> (r: Option<(usize, usize)>)
        ensures
            r == (if self.pos + 1 < self.tokens@.len() {
                Some((self.tokens@[self.pos + 1].start, self.tokens@[self.pos + 1].end))
            } else {
                None
            }),
    {
        if self.pos < self.tokens.len() && self.pos + 1 < self.tokens.len() {
            Some((self.tokens[self.pos + 1].start, self.tokens[self.pos + 1].end))
        } else {
            None
        }
    }

    /// The byte span of the current token's text, if the cursor is on one.
    pub fn current_span(&self) -> (r: Option<(usize, usize)>)
        ensures
            r == (if self.pos < self.tokens@.len() {
                Some((self.tokens@[self.pos as int].start, self.tokens@[self.pos as int].end))
            } else {
                None
            }),
    {
        if self.pos < self.tokens.len() {
            Some((self.tokens[self.pos].start, self.tokens[self.pos].end))
        } else {
            None
        }
    }
}

} // verus!
