use tiny_lexer::Token;

#[test]
fn open_run_by_kind() {
    assert_eq!(Token::open_run('7', true), Token::Int("7".to_string()));
    assert_eq!(Token::open_run('x', false), Token::Var("x".to_string()));
    assert_eq!(Token::open_run('x', true), Token::Int("x".to_string()));
    assert_eq!(Token::open_run('7', false), Token::Var("7".to_string()));
}

#[test]
fn push_char_adds_at_the_end() {
    let mut t = Token::Var("ab".to_string());
    t.push_char('c');
    assert_eq!(t, Token::Var("abc".to_string()));
    let mut t = Token::Str(String::new());
    t.push_char(' ');
    t.push_char('x');
    assert_eq!(t, Token::Str(" x".to_string()));
    let mut t = Token::Int("1".to_string());
    t.push_char('\u{00E9}');
    assert_eq!(t, Token::Int("1\u{00E9}".to_string()));
}

#[test]
fn push_char_leaves_tokens_without_text() {
    let all = [Token::Add, Token::Ass, Token::START, Token::IGNORE, Token::EOL, Token::EOF];
    for t in all {
        let mut u = t.clone();
        u.push_char('x');
        assert_eq!(u, t);
    }
}

#[test]
fn equality_is_by_kind_and_text() {
    assert_eq!(Token::Var("a".to_string()), Token::Var("a".to_string()));
    assert_ne!(Token::Var("a".to_string()), Token::Var("b".to_string()));
    assert_ne!(Token::Var("a".to_string()), Token::Int("a".to_string()));
    assert_ne!(Token::Var("a".to_string()), Token::Str("a".to_string()));
    assert_ne!(Token::Str(String::new()), Token::START);
    assert_eq!(Token::Add, Token::Add);
    assert_ne!(Token::Add, Token::Ass);
    assert_ne!(Token::IGNORE, Token::EOF);
    assert_ne!(Token::EOL, Token::EOF);
}

#[test]
fn clone_is_equal() {
    let all = [
        Token::Var("v".to_string()),
        Token::Str("s t".to_string()),
        Token::Int("12".to_string()),
        Token::Add,
        Token::Ass,
        Token::START,
        Token::IGNORE,
        Token::EOL,
        Token::EOF,
    ];
    for t in &all {
        assert_eq!(t.clone(), *t);
    }
}

#[test]
fn debug_names_the_variant() {
    assert_eq!(format!("{:?}", Token::Var("x_a".to_string())), "Var(\"x_a\")");
    assert_eq!(format!("{:?}", Token::Ass), "Ass");
    assert_eq!(format!("{:?}", Token::START), "START");
}
