use rvm_front::lexer::{
    BracketToken, KeywordToken, LexError, LexErrorKind, Lexer, OperatorToken, Token, TokenType,
};

fn tokens_of(src: &str) -> Vec<Token> {
    let mut lx = Lexer::new(src);
    lx.tokenize().expect("tokenization should succeed")
}

fn error_of(src: &str) -> LexError {
    let mut lx = Lexer::new(src);
    lx.tokenize().expect_err("tokenization should fail")
}

fn is_el(t: &Token) -> bool {
    matches!(t.value, TokenType::EL)
}

#[test]
fn empty_input_yields_nothing() {
    assert!(tokens_of("").is_empty());
}

#[test]
fn blank_input_without_newline_yields_nothing() {
    assert!(tokens_of(" \t ").is_empty());
}

#[test]
fn blank_input_with_newlines_yields_one_marker() {
    let ts = tokens_of(" \n \n\t\r\n ");
    assert_eq!(ts.len(), 1);
    assert!(is_el(&ts[0]));
}

#[test]
fn number_literal_and_trailing_marker() {
    let ts = tokens_of("123");
    assert_eq!(ts.len(), 2);
    match &ts[0].value {
        TokenType::NumberLiteral(s) => assert_eq!(s, "123"),
        other => panic!("expected a number literal, got {:?}", other),
    }
    assert!(is_el(&ts[1]));
    assert_eq!((ts[0].line, ts[0].column), (1, 1));
}

#[test]
fn number_literal_keeps_underscores() {
    let ts = tokens_of("1_000_000");
    match &ts[0].value {
        TokenType::NumberLiteral(s) => assert_eq!(s, "1_000_000"),
        other => panic!("expected a number literal, got {:?}", other),
    }
}

#[test]
fn string_literal_excludes_quotes() {
    let ts = tokens_of("\"ab\"");
    assert_eq!(ts.len(), 2);
    match &ts[0].value {
        TokenType::StringLiteral(s) => assert_eq!(s, "ab"),
        other => panic!("expected a string literal, got {:?}", other),
    }
    assert!(is_el(&ts[1]));
}

#[test]
fn bang_equals_is_one_token() {
    let ts = tokens_of("!=");
    assert_eq!(ts.len(), 2);
    assert!(matches!(ts[0].value, TokenType::Operator(OperatorToken::Ne)));
    assert!(is_el(&ts[1]));
}

#[test]
fn bang_then_name_redelivers_lookahead() {
    let ts = tokens_of("!x");
    assert_eq!(ts.len(), 3);
    assert!(matches!(ts[0].value, TokenType::Operator(OperatorToken::ExclamationMark)));
    match &ts[1].value {
        TokenType::Identifier(s) => assert_eq!(s, "x"),
        other => panic!("expected an identifier, got {:?}", other),
    }
    assert_eq!((ts[1].line, ts[1].column), (1, 2));
    assert!(is_el(&ts[2]));
}

#[test]
fn dot_family() {
    let one = tokens_of(".");
    assert!(matches!(one[0].value, TokenType::Operator(OperatorToken::Dot)));
    let two = tokens_of("..");
    assert!(matches!(two[0].value, TokenType::Operator(OperatorToken::DoubleDot)));
    let three = tokens_of("...");
    assert!(matches!(three[0].value, TokenType::Operator(OperatorToken::TripleDot)));
    assert_eq!(one.len(), 2);
    assert_eq!(two.len(), 2);
    assert_eq!(three.len(), 2);
}

#[test]
fn dot_lookahead_is_redelivered() {
    let ts = tokens_of("..x");
    assert!(matches!(ts[0].value, TokenType::Operator(OperatorToken::DoubleDot)));
    match &ts[1].value {
        TokenType::Identifier(s) => assert_eq!(s, "x"),
        other => panic!("expected an identifier, got {:?}", other),
    }
}

#[test]
fn keyword_exact_match_only() {
    let kw = tokens_of("if");
    assert!(matches!(kw[0].value, TokenType::Keyword(KeywordToken::If)));
    let ident = tokens_of("ifx");
    match &ident[0].value {
        TokenType::Identifier(s) => assert_eq!(s, "ifx"),
        other => panic!("expected an identifier, got {:?}", other),
    }
}

#[test]
fn all_keywords_are_recognized() {
    let src = "if else while for false true null return";
    let ts = tokens_of(src);
    let expected = [
        KeywordToken::If,
        KeywordToken::Else,
        KeywordToken::While,
        KeywordToken::For,
        KeywordToken::False,
        KeywordToken::True,
        KeywordToken::Null,
        KeywordToken::Return,
    ];
    assert_eq!(ts.len(), expected.len() + 1);
    for (t, k) in ts.iter().zip(expected.iter()) {
        match &t.value {
            TokenType::Keyword(got) => assert_eq!(got, k),
            other => panic!("expected a keyword, got {:?}", other),
        }
    }
}

#[test]
fn unterminated_string_reports_start_position() {
    let e = error_of("\"unterminated");
    assert_eq!(e.kind, LexErrorKind::UnterminatedString);
    assert_eq!((e.line, e.column), (1, 1));
}

#[test]
fn unterminated_string_on_later_line() {
    let e = error_of("x\n  \"oops");
    assert_eq!(e.kind, LexErrorKind::UnterminatedString);
    assert_eq!((e.line, e.column), (2, 3));
}

#[test]
fn unknown_operation_is_fatal() {
    let e = error_of("a ? b");
    assert_eq!(e.kind, LexErrorKind::UnknownOperation);
    assert_eq!((e.line, e.column), (1, 3));
}

#[test]
fn leading_underscore_is_unknown_operation() {
    let e = error_of("_x");
    assert_eq!(e.kind, LexErrorKind::UnknownOperation);
    assert_eq!((e.line, e.column), (1, 1));
}

#[test]
fn underscore_inside_name_is_kept() {
    let ts = tokens_of("a_b");
    match &ts[0].value {
        TokenType::Identifier(s) => assert_eq!(s, "a_b"),
        other => panic!("expected an identifier, got {:?}", other),
    }
}

#[test]
fn end_of_line_markers_collapse() {
    let ts = tokens_of("a\n\n;;\nb");
    for w in ts.windows(2) {
        assert!(!(is_el(&w[0]) && is_el(&w[1])));
    }
    assert_eq!(ts.len(), 4);
    assert!(matches!(ts[0].value, TokenType::Identifier(_)));
    assert!(is_el(&ts[1]));
    assert!(matches!(ts[2].value, TokenType::Identifier(_)));
    assert!(is_el(&ts[3]));
}

#[test]
fn comment_leaves_newline_for_marker() {
    let ts = tokens_of("# hi\nx");
    assert_eq!(ts.len(), 4);
    match &ts[0].value {
        TokenType::Comment(s) => assert_eq!(s, "# hi"),
        other => panic!("expected a comment, got {:?}", other),
    }
    assert!(is_el(&ts[1]));
    match &ts[2].value {
        TokenType::Identifier(s) => assert_eq!(s, "x"),
        other => panic!("expected an identifier, got {:?}", other),
    }
    assert!(is_el(&ts[3]));
}

#[test]
fn compound_operators() {
    let ts = tokens_of("+= -= *= /= %= >= <= == =");
    let expected = [
        OperatorToken::PlusEquals,
        OperatorToken::MinusEquals,
        OperatorToken::AsteriskEquals,
        OperatorToken::SlashEquals,
        OperatorToken::PercentEquals,
        OperatorToken::Ge,
        OperatorToken::Le,
        OperatorToken::Eq,
        OperatorToken::Equals,
    ];
    assert_eq!(ts.len(), expected.len() + 1);
    for (t, k) in ts.iter().zip(expected.iter()) {
        match &t.value {
            TokenType::Operator(got) => assert_eq!(got, k),
            other => panic!("expected an operator, got {:?}", other),
        }
    }
}

#[test]
fn brackets_commas_and_positions() {
    let ts = tokens_of("(a,\nb)");
    assert!(matches!(ts[0].value, TokenType::Bracket(BracketToken::OpenParenthesis)));
    assert_eq!((ts[0].line, ts[0].column), (1, 1));
    assert!(matches!(ts[2].value, TokenType::Operator(OperatorToken::Comma)));
    assert_eq!((ts[2].line, ts[2].column), (1, 3));
    assert!(is_el(&ts[3]));
    assert_eq!((ts[4].line, ts[4].column), (2, 1));
    assert!(matches!(ts[5].value, TokenType::Bracket(BracketToken::CloseParenthesis)));
}

#[test]
fn number_scan_pushes_back_terminator() {
    let ts = tokens_of("12+3");
    match &ts[0].value {
        TokenType::NumberLiteral(s) => assert_eq!(s, "12"),
        other => panic!("expected a number literal, got {:?}", other),
    }
    assert!(matches!(ts[1].value, TokenType::Operator(OperatorToken::Plus)));
    match &ts[2].value {
        TokenType::NumberLiteral(s) => assert_eq!(s, "3"),
        other => panic!("expected a number literal, got {:?}", other),
    }
}

#[test]
fn token_new_keeps_fields() {
    let t = Token::new(TokenType::EL, 4, 7);
    assert_eq!(t.column, 4);
    assert_eq!(t.line, 7);
    assert!(is_el(&t));
}
