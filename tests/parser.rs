use c1_parser::{parse_text, tokenize, C1Lexer, C1Parser, C1Token, Expected, ParseError, Token};

fn kinds(text: &str) -> Vec<C1Token> {
    tokenize(text.as_bytes()).iter().map(|t| t.kind).collect()
}

fn syntax_error(text: &str) -> (Expected, Token) {
    match parse_text(text) {
        Err(ParseError::Syntax { expected, found }) => (expected, found),
        other => panic!("expected a syntax error for {:?}, got {:?}", text, other),
    }
}

#[test]
fn parse_empty_program() {
    assert_eq!(parse_text(""), Ok(()));
    assert_eq!(parse_text("   "), Ok(()));
    assert_eq!(parse_text("// This is a valid comment!"), Ok(()));
    assert_eq!(parse_text("/* This is a valid comment!\nIn two lines!*/\n"), Ok(()));
    assert_eq!(parse_text("  \n "), Ok(()));
    assert_eq!(parse_text("\t\r\n// one\n/* two */ // three"), Ok(()));
}

#[test]
fn fail_invalid_program() {
    assert!(parse_text("  bool  ").is_err());
    assert!(parse_text("x = 0;").is_err());
    assert!(parse_text("// A valid comment\nInvalid line.").is_err());
}

#[test]
fn valid_function() {
    assert!(parse_text("  void foo() {}  ").is_ok());
    assert!(parse_text("int bar() {return 0;}").is_ok());
    assert!(parse_text("float calc() {\n x = 1.0;\n y = 2.2;\n return x + y;\n\n}").is_ok());
}

#[test]
fn fail_invalid_function() {
    assert!(parse_text("  void foo()) {}  ").is_err());
    assert!(parse_text("const bar() {return 0;}").is_err());
    assert!(parse_text("int bar() {\n return 0;\n int foo() {}").is_err());
    assert!(parse_text("float calc(int invalid) {\n x = 1.0;\n y = 2.2;\n return x + y;\n}").is_err());
}

#[test]
fn multiple_functions() {
    assert!(parse_text("void main() { hello();}\nfloat bar() {return 1.0;}").is_ok());
}

#[test]
fn scenario_void_return() {
    assert_eq!(parse_text("void foo() { return; }"), Ok(()));
}

#[test]
fn scenario_int_return_value() {
    assert_eq!(parse_text("int bar() { return 0; }"), Ok(()));
}

#[test]
fn scenario_top_level_statement_rejected() {
    let (expected, found) = syntax_error("x = 1;");
    assert_eq!(expected, Expected::Type);
    assert_eq!(found, Token { kind: C1Token::Identifier, line: 1, start: 0, end: 1 });
}

#[test]
fn scenario_missing_right_parenthesis() {
    let (expected, found) = syntax_error("void foo( { }");
    assert_eq!(expected, Expected::Kind(C1Token::RightParenthesis));
    assert_eq!(found.kind, C1Token::LeftBrace);
    assert_eq!(found.start, 10);
}

#[test]
fn scenario_if_statement_in_body() {
    assert_eq!(parse_text("void f() { if (x == 1) { y = 2; }; }"), Ok(()));
    assert_eq!(parse_text("void f() { if (x == 1) {}; }"), Ok(()));
    let (expected, _) = syntax_error("void f() { if (x == ) {}; }");
    assert_eq!(expected, Expected::Factor);
    let (expected, found) = syntax_error("void f() { if (x == 1) { y = 2; } }");
    assert_eq!(expected, Expected::Kind(C1Token::Semicolon));
    assert_eq!(found.kind, C1Token::RightBrace);
}

#[test]
fn scenario_printf() {
    assert_eq!(parse_text("void f() { printf(a + b); }"), Ok(()));
    let (expected, found) = syntax_error("void f() { printf(a +); }");
    assert_eq!(expected, Expected::Factor);
    assert_eq!(found.kind, C1Token::RightParenthesis);
}

#[test]
fn statements_of_every_kind() {
    let text = "bool g() {\n  a = b = -1 + 2 * (c - 3) / 4;\n  ok = x <= y && z || !w;\n}";
    assert!(parse_text(text).is_err());
    let text = "bool g() {\n  a = b = -1 + 2 * (c - 3) / 4;\n  ok = (x <= y) && z || w != true;\n  \
                foo();\n  { bar(); };\n  return a >= b;\n  printf(h());\n}";
    assert_eq!(parse_text(text), Ok(()));
}

#[test]
fn bare_name_is_not_a_statement() {
    let (expected, found) = syntax_error("void f() { foo; }");
    assert_eq!(expected, Expected::Kind(C1Token::LeftParenthesis));
    assert_eq!(found.kind, C1Token::Semicolon);
}

#[test]
fn extra_token_after_function_rejected() {
    assert_eq!(parse_text("void foo() { return; }"), Ok(()));
    let (expected, found) = syntax_error("void foo() { return; } x");
    assert_eq!(expected, Expected::Type);
    assert_eq!(found.kind, C1Token::Identifier);
    let (expected, found) = syntax_error("void foo() { return; } int");
    assert_eq!(expected, Expected::Kind(C1Token::Identifier));
    assert_eq!(found.kind, C1Token::EOF);
}

#[test]
fn error_line_is_line_of_failing_token() {
    let (expected, found) = syntax_error("void f() {\n  x = 1;\n  y = ;\n}");
    assert_eq!(expected, Expected::Factor);
    assert_eq!(found.kind, C1Token::Semicolon);
    assert_eq!(found.line, 3);
    let (_, found) = syntax_error("/* a\nb */\n\nint f() {\n return 0;\n");
    assert_eq!(found.kind, C1Token::EOF);
    assert_eq!(found.line, 6);
}

#[test]
fn lexical_errors() {
    assert_eq!(parse_text("void f() { x = 1 # 2; }"), Err(ParseError::Lex { line: 1 }));
    assert_eq!(parse_text("void f() {\n x = a & b; }"), Err(ParseError::Lex { line: 2 }));
    assert_eq!(parse_text("int f() {\n/* never\nclosed"), Err(ParseError::Lex { line: 2 }));
    // a syntax error before the bad character is reported first
    let (expected, _) = syntax_error("void f( { # }");
    assert_eq!(expected, Expected::Kind(C1Token::RightParenthesis));
}

#[test]
fn parsing_twice_gives_same_verdict() {
    for text in ["void foo() { return; }", "void foo( { }", "int f() { x = @; }"] {
        assert_eq!(parse_text(text), parse_text(text));
    }
}

#[test]
fn token_classification() {
    assert_eq!(
        kinds("bool float int void if return printf true false name _x9"),
        vec![
            C1Token::KwBoolean, C1Token::KwFloat, C1Token::KwInt, C1Token::KwVoid, C1Token::KwIf, C1Token::KwReturn, C1Token::KwPrintf, C1Token::ConstBoolean,
            C1Token::ConstBoolean, C1Token::Identifier, C1Token::Identifier, C1Token::EOF
        ]
    );
    assert_eq!(
        kinds("== != <= >= < > = && || + - * / ( ) { } ;"),
        vec![
            C1Token::Equal, C1Token::NotEqual, C1Token::LessEqual, C1Token::GreaterEqual, C1Token::Less, C1Token::Greater, C1Token::Assign, C1Token::And, C1Token::Or, C1Token::Plus,
            C1Token::Minus, C1Token::Asterisk, C1Token::Slash, C1Token::LeftParenthesis, C1Token::RightParenthesis, C1Token::LeftBrace, C1Token::RightBrace,
            C1Token::Semicolon, C1Token::EOF
        ]
    );
    assert_eq!(kinds("12 3.25 7x ifx"), vec![C1Token::ConstInt, C1Token::ConstFloat, C1Token::ConstInt, C1Token::Identifier, C1Token::Identifier, C1Token::EOF]);
    assert_eq!(kinds("1."), vec![C1Token::ConstInt, C1Token::Error]);
    assert_eq!(kinds("a ! b"), vec![C1Token::Identifier, C1Token::Error]);
    assert_eq!(kinds("a/b//c\n/*d*/e"), vec![C1Token::Identifier, C1Token::Slash, C1Token::Identifier, C1Token::Identifier, C1Token::EOF]);
}

#[test]
fn token_positions_and_lines() {
    let tokens = tokenize("int\n  x =\n\n3.5;".as_bytes());
    assert_eq!(
        tokens,
        vec![
            Token { kind: C1Token::KwInt, line: 1, start: 0, end: 3 },
            Token { kind: C1Token::Identifier, line: 2, start: 6, end: 7 },
            Token { kind: C1Token::Assign, line: 2, start: 8, end: 9 },
            Token { kind: C1Token::ConstFloat, line: 4, start: 11, end: 14 },
            Token { kind: C1Token::Semicolon, line: 4, start: 14, end: 15 },
            Token { kind: C1Token::EOF, line: 4, start: 15, end: 15 },
        ]
    );
}

#[test]
fn lexer_cursor() {
    let mut lexer = C1Lexer::new("a = 1");
    assert_eq!(lexer.current_token(), C1Token::Identifier);
    assert_eq!(lexer.peek_token(), C1Token::Assign);
    assert_eq!(lexer.peek_token(), C1Token::Assign);
    assert_eq!(lexer.current_line(), Some(1));
    assert_eq!(lexer.current_span(), Some((0, 1)));
    assert_eq!(lexer.next(), C1Token::Identifier);
    assert_eq!(lexer.next(), C1Token::Assign);
    assert_eq!(lexer.current_token(), C1Token::ConstInt);
    assert_eq!(lexer.next(), C1Token::ConstInt);
    assert_eq!(lexer.next(), C1Token::EOF);
    assert_eq!(lexer.next(), C1Token::EOF);
    assert_eq!(lexer.current_line(), None);
}

#[test]
fn parser_over_lexer() {
    let mut parser = C1Parser::new(C1Lexer::new("void a() {} int b() { return 1; }"));
    assert_eq!(parser.parse(), Ok(()));
    assert_eq!(parser.0.current_token(), C1Token::EOF);
    let mut parser = C1Parser::new(C1Lexer::new("void a() {} int b() { return 1 }"));
    assert!(parser.parse().is_err());
    assert_eq!(parser.0.current_token(), C1Token::RightBrace);
}

#[test]
fn statement_start_expected() {
    let (expected, found) = syntax_error("void f() {\n  1;\n}");
    assert_eq!(expected, Expected::Statement);
    assert_eq!(found, Token { kind: C1Token::ConstInt, line: 2, start: 13, end: 14 });
}

#[test]
fn unclosed_comment_token_marks_its_opening() {
    let tokens = tokenize("int\n /* open".as_bytes());
    assert_eq!(tokens.len(), 2);
    assert_eq!(tokens[1], Token { kind: C1Token::Error, line: 2, start: 5, end: 7 });
}

#[test]
fn error_messages() {
    let text = "void foo( { }";
    assert_eq!(
        parse_text(text).unwrap_err().message(text),
        "line 1: expected `)`, found `{` \"{\""
    );
    let text = "x = 1;";
    assert_eq!(
        parse_text(text).unwrap_err().message(text),
        "line 1: expected a type, found identifier \"x\""
    );
    let text = "int f() {\n return 0;\n";
    assert_eq!(
        parse_text(text).unwrap_err().message(text),
        "line 3: expected `}`, found end of input \"\""
    );
    let text = "\n\n\n\n\n\n\n\n\n\n\n\nvoid f() { y = 3.75 4; }";
    assert_eq!(
        parse_text(text).unwrap_err().message(text),
        "line 13: expected `;`, found integer literal \"4\""
    );
    let text = "void f() {\n x = 1 # 2; }";
    assert_eq!(parse_text(text).unwrap_err().message(text), "line 2: no token matches here");
    let text = "void f() { 1; }";
    assert_eq!(
        parse_text(text).unwrap_err().message(text),
        "line 1: expected a statement, found integer literal \"1\""
    );
}

#[test]
fn lexer_peek_metadata() {
    let mut lexer = C1Lexer::new("a\n  bc = 1");
    assert_eq!(lexer.peek_line(), Some(2));
    assert_eq!(lexer.peek_span(), Some((4, 6)));
    lexer.next();
    assert_eq!(lexer.current_line(), Some(2));
    assert_eq!(lexer.peek_span(), Some((7, 8)));
    lexer.next();
    lexer.next();
    assert_eq!(lexer.peek_line(), Some(2));
    assert_eq!(lexer.peek_span(), Some((10, 10)));
    lexer.next();
    assert_eq!(lexer.peek_line(), None);
    assert_eq!(lexer.peek_span(), None);
}

#[test]
fn appended_text_after_line_comment_is_comment() {
    assert_eq!(parse_text("void f() {} // done x"), Ok(()));
    assert!(parse_text("void f() {} // done\n x").is_err());
}

#[test]
fn rejection_is_final_whatever_follows() {
    let first = syntax_error("void f( x");
    let second = syntax_error("void f( x ) { return; }");
    assert_eq!(first.0, Expected::Kind(C1Token::RightParenthesis));
    assert_eq!(first.0, second.0);
    assert_eq!(first.1.start, second.1.start);
}
