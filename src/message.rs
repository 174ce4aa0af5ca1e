//! Human-readable text for a parse error: its line, what was expected, and the
//! token found there with its text from the source.
use vstd::prelude::*;
use vstd::string::{StringExecFns, StringSliceAdditionalSpecFns};
use vstd::utf8::{decode_utf8, encode_utf8_decode_utf8, is_char_boundary};
use crate::lexer::{C1Token, Token};
use crate::parser::{Expected, ParseError};

verus! {

/// The decimal digits of `n`.
pub open spec fn decimal(n: nat) -> Seq<char>
    decreases n,
{
    if n < 10 {
        seq![digit_char(n)]
    } else {
        decimal(n / 10) + seq![digit_char(n % 10)]
    }
}

pub open spec fn digit_char(d: nat) -> char {
    if d == 0 {
        '0'
    } else if d == 1 {
        '1'
    } else if d == 2 {
        '2'
    } else if d == 3 {
        '3'
    } else if d == 4 {
        '4'
    } else if d == 5 {
        '5'
    } else if d == 6 {
        '6'
    } else if d == 7 {
        '7'
    } else if d == 8 {
        '8'
    } else {
        '9'
    }
}

/// How a token kind is named in a message.
pub open spec fn kind_text(k: C1Token) -> Seq<char> {
    match k {
        C1Token::KwBoolean => "`bool`"@,
        C1Token::KwFloat => "`float`"@,
        C1Token::KwInt => "`int`"@,
        C1Token::KwVoid => "`void`"@,
        C1Token::KwIf => "`if`"@,
        C1Token::KwReturn => "`return`"@,
        C1Token::KwPrintf => "`printf`"@,
        C1Token::Identifier => "identifier"@,
        C1Token::ConstInt => "integer literal"@,
        C1Token::ConstFloat => "float literal"@,
        C1Token::ConstBoolean => "boolean literal"@,
        C1Token::Assign => "`=`"@,
        C1Token::Plus => "`+`"@,
        C1Token::Minus => "`-`"@,
        C1Token::Asterisk => "`*`"@,
        C1Token::Slash => "`/`"@,
        C1Token::And => "`&&`"@,
        C1Token::Or => "`||`"@,
        C1Token::Equal => "`==`"@,
        C1Token::NotEqual => "`!=`"@,
        C1Token::Less => "`<`"@,
        C1Token::LessEqual => "`<=`"@,
        C1Token::Greater => "`>`"@,
        C1Token::GreaterEqual => "`>=`"@,
        C1Token::LeftParenthesis => "`(`"@,
        C1Token::RightParenthesis => "`)`"@,
        C1Token::LeftBrace => "`{`"@,
        C1Token::RightBrace => "`}`"@,
        C1Token::Semicolon => "`;`"@,
        C1Token::EOF => "end of input"@,
        C1Token::Error => "invalid text"@,
    }
}

/// How an expectation is named in a message.
pub open spec fn expected_text(e: Expected) -> Seq<char> {
    match e {
        Expected::Kind(k) => kind_text(k),
        Expected::Type => "a type"@,
        Expected::Statement => "a statement"@,
        Expected::Factor => "an operand"@,
    }
}

/// The source text of `found`: the characters of its byte span, or nothing
/// where the span does not lie on character boundaries of `text`.
pub open spec fn lexeme_text(text: Seq<u8>, found: Token) -> Seq<char> {
    let head = text.subrange(0, found.end as int);
    if found.start <= found.end <= text.len() && is_char_boundary(text, found.end as int)
        && is_char_boundary(head, found.start as int) {
        decode_utf8(text.subrange(found.start as int, found.end as int))
    } else {
        seq![]
    }
}

/// The message for an error found in `text`.
pub open spec fn spec_message(e: ParseError, text: Seq<u8>) -> Seq<char> {
    match e {
        ParseError::Lex { line } => "line "@ + decimal(line as nat) + ": no token matches here"@,
        ParseError::Syntax { expected, found } => "line "@ + decimal(found.line as nat)
            + ": expected "@ + expected_text(expected) + ", found "@ + kind_text(found.kind)
            + " \""@ + lexeme_text(text, found) + "\""@,
    }
}

fn digit_str(d: usize) -> (r: &'static str)
    requires
        d < 10,
    ensures
        r@ == seq![digit_char(d as nat)],
{
    proof {
        reveal_strlit("0");
        reveal_strlit("1");
        reveal_strlit("2");
        reveal_strlit("3");
        reveal_strlit("4");
        reveal_strlit("5");
        reveal_strlit("6");
        reveal_strlit("7");
        reveal_strlit("8");
        reveal_strlit("9");
    }
    if d == 0 {
        "0"
    } else if d == 1 {
        "1"
    } else if d == 2 {
        "2"
    } else if d == 3 {
        "3"
    } else if d == 4 {
        "4"
    } else if d == 5 {
        "5"
    } else if d == 6 {
        "6"
    } else if d == 7 {
        "7"
    } else if d == 8 {
        "8"
    } else {
        "9"
    }
}

fn push_decimal(out: &mut String, n: usize)
    ensures
        final(out)@ == old(out)@ + decimal(n as nat),
    decreases n,
{
    if n >= 10 {
        push_decimal(out, n / 10);
    }
    out.append(digit_str(n % 10));
    assert(final(out)@ =~= old(out)@ + decimal(n as nat));
}

fn kind_str(k: C1Token) -> (r: &'static str)
    ensures
        r@ == kind_text(k),
{
    match k {
        C1Token::KwBoolean => "`bool`",
        C1Token::KwFloat => "`float`",
        C1Token::KwInt => "`int`",
        C1Token::KwVoid => "`void`",
        C1Token::KwIf => "`if`",
        C1Token::KwReturn => "`return`",
        C1Token::KwPrintf => "`printf`",
        C1Token::Identifier => "identifier",
        C1Token::ConstInt => "integer literal",
        C1Token::ConstFloat => "float literal",
        C1Token::ConstBoolean => "boolean literal",
        C1Token::Assign => "`=`",
        C1Token::Plus => "`+`",
        C1Token::Minus => "`-`",
        C1Token::Asterisk => "`*`",
        C1Token::Slash => "`/`",
        C1Token::And => "`&&`",
        C1Token::Or => "`||`",
        C1Token::Equal => "`==`",
        C1Token::NotEqual => "`!=`",
        C1Token::Less => "`<`",
        C1Token::LessEqual => "`<=`",
        C1Token::Greater => "`>`",
        C1Token::GreaterEqual => "`>=`",
        C1Token::LeftParenthesis => "`(`",
        C1Token::RightParenthesis => "`)`",
        C1Token::LeftBrace => "`{`",
        C1Token::RightBrace => "`}`",
        C1Token::Semicolon => "`;`",
        C1Token::EOF => "end of input",
        C1Token::Error => "invalid text",
    }
}

fn expected_str(e: Expected) -> (r: &'static str)
    ensures
        r@ == expected_text(e),
{
    match e {
        Expected::Kind(k) => kind_str(k),
        Expected::Type => "a type",
        Expected::Statement => "a statement",
        Expected::Factor => "an operand",
    }
}

/// Appends the text of `found` from `text`; see `lexeme_text`.
fn push_lexeme(out: &mut String, text: &str, found: Token)
    requires
        text.spec_bytes().len() < usize::MAX,
    ensures
        final(out)@ == old(out)@ + lexeme_text(text.spec_bytes(), found),
{
    let ghost bytes = text.spec_bytes();
    if found.start <= found.end && found.end <= text.len() && text.is_char_boundary(found.end) {
        let (head, _) = text.split_at(found.end);
        assert(head.spec_bytes() =~= bytes.subrange(0, found.end as int));
        if head.is_char_boundary(found.start) {
            let (_, piece) = head.split_at(found.start);
            proof {
                assert(piece.spec_bytes() =~= bytes.subrange(found.start as int, found.end as int));
                encode_utf8_decode_utf8(piece@);
            }
            out.append(piece);
        } else {
            assert(out@ =~= out@ + lexeme_text(bytes, found));
        }
    } else {
        assert(out@ =~= out@ + lexeme_text(bytes, found));
    }
}

impl ParseError {
    /// The error as a message for a reader of `text`, the source it was found in:
    /// its line, and for a syntax error what was expected and which token, with
    /// its text, stood there instead.
    pub fn message(&self, text: &str) -> (r: String)
        requires
            text.spec_bytes().len() < usize::MAX,
        ensures
            r@ == spec_message(*self, text.spec_bytes()),
    {
        let mut out = String::from_str("line ");
        match *self {
            ParseError::Lex { line } => {
                push_decimal(&mut out, line);
                out.append(": no token matches here");
            },
            ParseError::Syntax { expected, found } => {
                push_decimal(&mut out, found.line);
                out.append(": expected ");
                out.append(expected_str(expected));
                out.append(", found ");
                out.append(kind_str(found.kind));
                out.append(" \"");
                push_lexeme(&mut out, text, found);
                out.append("\"");
            },
        }
        out
    }
}

} // verus!
