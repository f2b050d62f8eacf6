use tiny_lexer::{Parser, Token};

/// A second scanner, written as plainly as possible, to hold the library to.
fn plain_scan(input: &str) -> (Vec<Token>, bool) {
    let mut stack: Vec<Token> = vec![Token::START];
    let mut quoted = false;
    for c in input.chars() {
        let found = match c {
            '+' => Some(Token::Add),
            '=' => Some(Token::Ass),
            ';' => Some(Token::EOL),
            ' ' if !quoted => None,
            '"' => {
                quoted = !quoted;
                if quoted {
                    Some(Token::Str(String::new()))
                } else {
                    None
                }
            }
            _ => {
                let last = stack.len() - 1;
                match (quoted, stack[last].clone()) {
                    (true, Token::Str(text)) => {
                        stack[last] = Token::Str(format!("{}{}", text, c));
                        None
                    }
                    (true, _) => {
                        quoted = false;
                        None
                    }
                    (false, Token::Int(text)) => {
                        stack[last] = Token::Int(format!("{}{}", text, c));
                        None
                    }
                    (false, Token::Var(text)) => {
                        stack[last] = Token::Var(format!("{}{}", text, c));
                        None
                    }
                    (false, _) if c.is_numeric() => Some(Token::Int(c.to_string())),
                    (false, _) => Some(Token::Var(c.to_string())),
                }
            }
        };
        if let Some(token) = found {
            stack.push(token);
        }
    }
    (stack, quoted)
}

fn inputs_up_to(alphabet: &[char], len: usize) -> Vec<String> {
    let mut all = vec![String::new()];
    let mut from = 0;
    for _ in 0..len {
        let upto = all.len();
        for i in from..upto {
            for c in alphabet {
                let mut longer = all[i].clone();
                longer.push(*c);
                all.push(longer);
            }
        }
        from = upto;
    }
    all
}

#[test]
fn every_short_input_scans_as_the_plain_scanner_does() {
    let alphabet = ['a', '7', ' ', '"', '+', '=', ';'];
    let inputs = inputs_up_to(&alphabet, 6);
    assert_eq!(inputs.len(), 137257);
    for input in inputs {
        let mut parser = Parser::new(input.clone());
        parser.parse();
        let (tokens, quoted) = plain_scan(&input);
        assert_eq!(parser.tokens(), &tokens, "input {:?}", input);
        assert_eq!(parser.in_string(), quoted, "input {:?}", input);
        assert_eq!(parser.position(), input.len());
    }
}

#[test]
fn every_short_input_counts_its_symbols() {
    let alphabet = ['x', ' ', '"', '+', ';'];
    for input in inputs_up_to(&alphabet, 6) {
        let mut parser = Parser::new(input.clone());
        let tokens = parser.parse();
        let plus = tokens.iter().filter(|t| **t == Token::Add).count();
        let end = tokens.iter().filter(|t| **t == Token::EOL).count();
        assert_eq!(plus, input.chars().filter(|c| *c == '+').count());
        assert_eq!(end, input.chars().filter(|c| *c == ';').count());
        assert_eq!(tokens[0], Token::START);
        assert!(tokens[1..].iter().all(|t| {
            *t != Token::START && *t != Token::IGNORE && *t != Token::EOF
        }));
    }
}

#[test]
fn a_space_outside_quotes_can_be_left_out() {
    let alphabet = ['x', '7', ' ', '"', '+'];
    for input in inputs_up_to(&alphabet, 6) {
        let chars: Vec<char> = input.chars().collect();
        for at in 0..chars.len() {
            let mut before = Parser::new(chars[..at].iter().collect());
            before.parse();
            if chars[at] == ' ' && !before.in_string() {
                let without: String =
                    chars[..at].iter().chain(chars[at + 1..].iter()).collect();
                let mut with_space = Parser::new(input.clone());
                let mut without_space = Parser::new(without);
                assert_eq!(with_space.parse(), without_space.parse(), "input {:?}", input);
                assert_eq!(with_space.in_string(), without_space.in_string());
            }
        }
    }
}

#[test]
fn flag_is_the_parity_of_the_quotes_read() {
    // No symbol stands inside quotes where there is no symbol at all.
    let alphabet = ['x', '7', ' ', '"'];
    for input in inputs_up_to(&alphabet, 7) {
        let mut parser = Parser::new(input.clone());
        parser.parse();
        let quotes = input.chars().filter(|c| *c == '"').count();
        assert_eq!(parser.in_string(), quotes % 2 == 1, "input {:?}", input);
        if parser.in_string() {
            assert!(matches!(parser.tokens().last(), Some(Token::Str(_))));
        }
    }
}

#[test]
fn text_of_every_token_fits_its_kind() {
    let alphabet = ['x', '7', ' ', '"', '+', ';'];
    for input in inputs_up_to(&alphabet, 6) {
        let mut parser = Parser::new(input.clone());
        for token in parser.parse() {
            match token {
                Token::Var(text) => {
                    assert!(!text.is_empty());
                    assert!(!text.chars().next().unwrap().is_numeric());
                    assert!(text.chars().all(|c| !" \"+=;".contains(c)));
                }
                Token::Int(text) => {
                    assert!(!text.is_empty());
                    assert!(text.chars().next().unwrap().is_numeric());
                    assert!(text.chars().all(|c| !" \"+=;".contains(c)));
                }
                Token::Str(text) => {
                    assert!(text.chars().all(|c| !"\"+=;".contains(c)));
                }
                _ => {}
            }
        }
    }
}
