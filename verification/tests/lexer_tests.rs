use kata::lexer::{KataLexer, Token, Span};

fn tokens(src: &str) -> Vec<Token> {
    KataLexer::lex(src).unwrap().into_iter().map(|t| t.token).collect()
}

fn layout(src: &str) -> Vec<Token> {
    KataLexer::lex_with_indent(src).unwrap().into_iter().map(|t| t.token).collect()
}

#[test]
fn keywords_names_and_numbers() {
    let toks = KataLexer::lex("let x 42").unwrap();
    let kinds: Vec<Token> = toks.iter().map(|t| t.token.clone()).collect();
    assert_eq!(kinds, vec![Token::Let, Token::Ident("x".to_string()), Token::Int("42".to_string()), Token::Eof]);
    assert_eq!(toks[2].span, Span::new(6, 8));
    assert_eq!(toks[3].span, Span::new(8, 8));
}

#[test]
fn operators_are_identifiers() {
    assert_eq!(
        tokens("+ 1 2"),
        vec![Token::Ident("+".to_string()), Token::Int("1".to_string()), Token::Int("2".to_string()), Token::Eof]
    );
}

#[test]
fn integer_forms() {
    assert_eq!(tokens("0xFF_FF"), vec![Token::Int("0xFFFF".to_string()), Token::Eof]);
    assert_eq!(tokens("1_000"), vec![Token::Int("1000".to_string()), Token::Eof]);
}

#[test]
fn empty_source_is_just_the_end() {
    assert_eq!(tokens(""), vec![Token::Eof]);
}

#[test]
fn indentation_opens_and_closes_blocks() {
    assert_eq!(
        layout("f\n  g\nh"),
        vec![
            Token::Ident("f".to_string()),
            Token::Newline,
            Token::Indent,
            Token::Ident("g".to_string()),
            Token::Newline,
            Token::Dedent,
            Token::Ident("h".to_string()),
            Token::Eof,
        ]
    );
}

#[test]
fn open_blocks_close_at_the_end() {
    let toks = layout("f\n  g");
    let indents = toks.iter().filter(|t| **t == Token::Indent).count();
    let dedents = toks.iter().filter(|t| **t == Token::Dedent).count();
    assert_eq!(indents, 1);
    assert_eq!(dedents, 1);
    assert_eq!(toks.last(), Some(&Token::Eof));
}

#[test]
fn a_character_that_starts_no_token_is_reported_where_it_stands() {
    let errors = KataLexer::lex("x ~ y").unwrap_err();
    assert_eq!(errors.len(), 1);
    match &errors[0] {
        kata::lexer::LexerError::ParseError { message, span } => {
            assert_eq!(message, "unexpected input");
            assert_eq!(*span, Span::new(2, 3));
        },
        other => panic!("unexpected {:?}", other),
    }
}

#[test]
fn layout_never_closes_more_than_it_opened_and_keeps_the_other_tokens() {
    let src = "a\n  b\n    c\n  d\ne";
    let out = layout(src);
    let mut open: i64 = 0;
    for t in &out {
        if *t == Token::Indent {
            open += 1;
        }
        if *t == Token::Dedent {
            open -= 1;
        }
        assert!(open >= 0);
    }
    assert_eq!(open, 0);
    let plain = |ts: &Vec<Token>| -> Vec<Token> {
        ts.iter()
            .filter(|t| **t != Token::Indent && **t != Token::Dedent && **t != Token::Newline)
            .cloned()
            .collect()
    };
    assert_eq!(plain(&out), plain(&tokens(src)));
    assert_eq!(out.last(), Some(&Token::Eof));
}

#[test]
fn layout_of_lexed_text_opens_and_closes_blocks_in_balance() {
    let src = "f x =\n  x\n    y\nz\n";
    let raw = KataLexer::lex(src).unwrap();
    let chars: Vec<char> = src.chars().collect();
    let out = kata::lexer::indent::process_indentation(&chars, &raw);
    let count = |t: Token| out.iter().filter(|s| s.token == t).count();
    assert_eq!(count(Token::Indent), 2);
    assert_eq!(count(Token::Indent), count(Token::Dedent));
    assert_eq!(out.last().unwrap().token, Token::Eof);
    let mut open: i64 = 0;
    for t in &out {
        if t.token == Token::Indent {
            open += 1;
        }
        if t.token == Token::Dedent {
            open -= 1;
        }
        assert!(open >= 0);
    }
    let plain = |v: &Vec<kata::lexer::SpannedToken>| -> Vec<Token> {
        v.iter()
            .map(|s| s.token.clone())
            .filter(|t| *t != Token::Indent && *t != Token::Dedent && *t != Token::Newline)
            .collect()
    };
    assert_eq!(plain(&out), plain(&raw));
}
