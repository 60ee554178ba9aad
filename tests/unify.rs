use unify::{create_unify_file_content, tokenize, LexError, Token, TokenKind, UnifyError, UnifySetup};

fn parse(text: &str) -> Result<UnifySetup, UnifyError> {
    UnifySetup::parse(text.to_string())
}

fn strings(v: &[&str]) -> Vec<String> {
    v.iter().map(|s| s.to_string()).collect()
}

#[test]
fn compiler_section_alone() {
    let u = parse("COMP: \"gcc\"").unwrap();
    assert_eq!(u.compiler(), "gcc");
    assert!(u.args().is_empty());
}

#[test]
fn args_section_without_compiler() {
    let u = parse("ARGS: \"-O2\", \"-Wall\"").unwrap();
    assert_eq!(u.compiler(), "");
    assert_eq!(u.args(), &strings(&["-O2", "-Wall"]));
}

#[test]
fn missing_colon_is_malformed() {
    assert!(matches!(parse("COMP \"gcc\""), Err(UnifyError::MalformedSection)));
}

#[test]
fn missing_comma_leaves_literal_outside_section() {
    match parse("ARGS: \"a\" \"b\"") {
        Err(UnifyError::UnexpectedToken(t)) => {
            assert_eq!(t.kind, TokenKind::StringLiteral);
            assert_eq!(t.lexeme, "b");
        }
        _ => panic!("expected an unexpected token"),
    }
}

#[test]
fn unterminated_literal_at_end_of_input() {
    assert!(matches!(parse("COMP: \"gcc"), Err(UnifyError::UnterminatedStringLiteral)));
}

#[test]
fn unterminated_literal_at_end_of_line() {
    assert!(matches!(parse("COMP: \"gcc\n\""), Err(UnifyError::UnterminatedStringLiteral)));
}

#[test]
fn empty_literal_is_a_token() {
    let ts = tokenize("\"\"").unwrap();
    assert_eq!(ts.len(), 1);
    assert_eq!(ts[0].kind, TokenKind::StringLiteral);
    assert_eq!(ts[0].lexeme, "");
    assert!(tokenize("").unwrap().is_empty());
    let u = parse("COMP: \"\"").unwrap();
    assert_eq!(u.compiler(), "");
}

#[test]
fn unexpected_word_at_top_level() {
    match parse("hello") {
        Err(UnifyError::UnexpectedToken(t)) => {
            assert_eq!(t.kind, TokenKind::Word);
            assert_eq!(t.lexeme, "hello");
        }
        _ => panic!("expected an unexpected token"),
    }
}

#[test]
fn keyword_at_end_of_input() {
    assert!(matches!(parse("COMP:"), Err(UnifyError::UnexpectedEndOfInput)));
    assert!(matches!(parse("ARGS: "), Err(UnifyError::UnexpectedEndOfInput)));
}

#[test]
fn args_without_literal_is_malformed() {
    assert!(matches!(parse("ARGS: COMP \"x\""), Err(UnifyError::MalformedSection)));
}

#[test]
fn colon_as_literal_is_not_a_separator() {
    assert!(matches!(parse("COMP \":\" \"gcc\""), Err(UnifyError::MalformedSection)));
}

#[test]
fn long_keywords_and_comments() {
    let text = "# build\nCOMPILER: \"clang\" # trailing\nARGUMENTS: \"-c\",\n \"main.c\", # last\n";
    let u = parse(text).unwrap();
    assert_eq!(u.compiler(), "clang");
    assert_eq!(u.args(), &strings(&["-c", "main.c"]));
}

#[test]
fn section_after_args_is_read() {
    let u = parse("ARGS: \"a\", \"b\" COMP: \"cc\"").unwrap();
    assert_eq!(u.compiler(), "cc");
    assert_eq!(u.args(), &strings(&["a", "b"]));
}

#[test]
fn later_section_replaces_earlier() {
    let u = parse("COMP: \"gcc\" COMP: \"clang\" ARGS: \"x\" ARGS: \"y\", \"z\"").unwrap();
    assert_eq!(u.compiler(), "clang");
    assert_eq!(u.args(), &strings(&["y", "z"]));
}

#[test]
fn same_input_same_configuration() {
    let text = "COMP: \"gcc\"\nARGS: \"-O2\", \"-o\", \"out\"";
    let a = parse(text).unwrap();
    let b = parse(text).unwrap();
    assert_eq!(a.compiler(), b.compiler());
    assert_eq!(a.args(), b.args());
}

#[test]
fn comment_line_changes_nothing() {
    let plain = "COMP: \"gcc\"\nARGS: \"a\",\n\"b\"\n";
    let commented = "COMP: \"gcc\"\n# note: \"quoted\" COMP\nARGS: \"a\",\n# another\n\"b\"\n";
    let a = parse(plain).unwrap();
    let b = parse(commented).unwrap();
    assert_eq!(a.compiler(), b.compiler());
    assert_eq!(a.args(), b.args());
}

#[test]
fn new_file_content_text() {
    let argv = strings(&["unify", "--new", "gcc", "-O2", "-Wall"]);
    let text = create_unify_file_content(&argv);
    assert_eq!(
        text,
        "# Build script\n\nCOMP: \"gcc\"\n\nARGS:\n  \"-O2\",\n  \"-Wall\",\n"
    );
}

#[test]
fn new_file_round_trip() {
    let argv = strings(&["unify", "--new", "C", "a", "b"]);
    let u = parse(&create_unify_file_content(&argv)).unwrap();
    assert_eq!(u.compiler(), "C");
    assert_eq!(u.args(), &strings(&["a", "b"]));
}

#[test]
fn new_file_without_arguments_does_not_parse() {
    let argv = strings(&["unify", "--new", "gcc"]);
    assert!(matches!(parse(&create_unify_file_content(&argv)), Err(UnifyError::UnexpectedEndOfInput)));
}

#[test]
fn token_new_classifies_keywords() {
    assert_eq!(Token::new("COMP".to_string()).kind, TokenKind::Comp);
    assert_eq!(Token::new("COMPILER".to_string()).kind, TokenKind::Comp);
    assert_eq!(Token::new("ARGS".to_string()).kind, TokenKind::Args);
    assert_eq!(Token::new("ARGUMENTS".to_string()).kind, TokenKind::Args);
    assert_eq!(Token::new("comp".to_string()).kind, TokenKind::Word);
    assert_eq!(Token::new("COM".to_string()).kind, TokenKind::Word);
    assert_eq!(Token::new("ARGS".to_string()).lexeme, "ARGS");
}

#[test]
fn tokens_of_mixed_text() {
    let ts = tokenize("COMPx1:\u{e9}t\u{e9}\u{a0}\"s p\"").unwrap();
    let got: Vec<(TokenKind, String)> = ts.into_iter().map(|t| (t.kind, t.lexeme)).collect();
    let want = vec![
        (TokenKind::Word, "COMPx".to_string()),
        (TokenKind::Symbol, "1".to_string()),
        (TokenKind::Symbol, ":".to_string()),
        (TokenKind::Word, "\u{e9}t\u{e9}".to_string()),
        (TokenKind::StringLiteral, "s p".to_string()),
    ];
    assert_eq!(got, want);
}

#[test]
fn lexer_fault() {
    assert!(matches!(tokenize("ARGS: \"a"), Err(LexError::UnterminatedStringLiteral)));
    assert!(matches!(tokenize("# \"open\nCOMP"), Ok(_)));
}

#[test]
fn new_setup_is_empty() {
    let u = UnifySetup::new();
    assert_eq!(u.compiler(), "");
    assert!(u.args().is_empty());
}

#[test]
fn error_messages() {
    assert_eq!(UnifyError::MalformedSection.message(), "Expected ':' followed by a string literal");
    assert_eq!(UnifyError::UnterminatedStringLiteral.message(), "Unterminated string literal");
}

#[test]
fn keyword_then_literal_only_is_malformed() {
    assert!(matches!(parse("ARGS \"a\""), Err(UnifyError::MalformedSection)));
    assert!(matches!(parse("COMP"), Err(UnifyError::UnexpectedEndOfInput)));
}
