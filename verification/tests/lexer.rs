use slm::lexer::{classify, Start};
use slm::{Error, ErrorKind, Lexer, Literal, Position, Token, TokenKind};

fn lex(code: &str) -> Vec<Token> {
    match Lexer::new(code).parse() {
        Ok(tokens) => tokens,
        Err(error) => panic!("unexpected error {:?}", error),
    }
}

fn lex_error(code: &str) -> Error {
    match Lexer::new(code).parse() {
        Ok(tokens) => panic!("unexpected tokens {:?}", tokens),
        Err(error) => error,
    }
}

fn kinds(tokens: &[Token]) -> Vec<TokenKind> {
    tokens.iter().map(|token| token.kind.clone()).collect()
}

fn positions(tokens: &[Token]) -> Vec<(usize, usize, usize)> {
    tokens
        .iter()
        .map(|token| (token.position.line, token.position.column, token.position.length))
        .collect()
}

fn ident(name: &str) -> TokenKind {
    TokenKind::Ident(name.to_string())
}

fn integer(value: u64) -> TokenKind {
    TokenKind::Literal(Literal::Integer(value))
}

fn string(text: &str) -> TokenKind {
    TokenKind::Literal(Literal::String(text.to_string()))
}

#[test]
fn empty_source_is_just_the_end_of_input() {
    let tokens = lex("");
    assert_eq!(kinds(&tokens), vec![TokenKind::EOF]);
    assert_eq!(tokens[0].position, Position::new(0, 0, 0));
}

#[test]
fn blank_source_is_just_the_end_of_input() {
    let tokens = lex("  \n\t\n # nothing here\n");
    assert_eq!(kinds(&tokens), vec![TokenKind::EOF]);
    assert_eq!(tokens[0].position, Position::new(0, 0, 0));
}

#[test]
fn structural_tokens_are_one_character_each() {
    let tokens = lex(";()=");
    assert_eq!(
        kinds(&tokens),
        vec![
            TokenKind::SemiColon,
            TokenKind::OpenBracket,
            TokenKind::CloseBracket,
            TokenKind::Equal,
            TokenKind::EOF
        ]
    );
    assert_eq!(positions(&tokens), vec![(0, 0, 1), (0, 1, 1), (0, 2, 1), (0, 3, 1), (0, 3, 1)]);
}

#[test]
fn call_statement_tokens_and_positions() {
    let tokens = lex("exit(42);");
    assert_eq!(
        kinds(&tokens),
        vec![
            ident("exit"),
            TokenKind::OpenBracket,
            integer(42),
            TokenKind::CloseBracket,
            TokenKind::SemiColon,
            TokenKind::EOF
        ]
    );
    assert_eq!(
        positions(&tokens),
        vec![(0, 0, 4), (0, 4, 1), (0, 5, 2), (0, 7, 1), (0, 8, 1), (0, 8, 1)]
    );
}

#[test]
fn let_statement_tokens_and_positions() {
    let tokens = lex("let a = 7;");
    assert_eq!(
        kinds(&tokens),
        vec![
            TokenKind::Let,
            ident("a"),
            TokenKind::Equal,
            integer(7),
            TokenKind::SemiColon,
            TokenKind::EOF
        ]
    );
    assert_eq!(
        positions(&tokens),
        vec![(0, 0, 3), (0, 4, 1), (0, 6, 1), (0, 8, 1), (0, 9, 1), (0, 9, 1)]
    );
}

#[test]
fn end_of_input_stands_where_the_last_token_stands() {
    let tokens = lex("let x\n\n   ");
    assert_eq!(kinds(&tokens), vec![TokenKind::Let, ident("x"), TokenKind::EOF]);
    assert_eq!(tokens[1].position, Position::new(0, 4, 1));
    assert_eq!(tokens[2].position, Position::new(0, 4, 1));
}

#[test]
fn reserved_words_have_their_own_kinds() {
    let tokens = lex("let return");
    assert_eq!(kinds(&tokens), vec![TokenKind::Let, TokenKind::Return, TokenKind::EOF]);
}

#[test]
fn words_that_only_begin_like_reserved_words_are_identifiers() {
    let tokens = lex("letter returns Let _let let_ le");
    assert_eq!(
        kinds(&tokens),
        vec![
            ident("letter"),
            ident("returns"),
            ident("Let"),
            ident("_let"),
            ident("let_"),
            ident("le"),
            TokenKind::EOF
        ]
    );
}

#[test]
fn identifiers_take_letters_digits_and_underscores() {
    let tokens = lex("_ a1 _9z x_y_2");
    assert_eq!(
        kinds(&tokens),
        vec![ident("_"), ident("a1"), ident("_9z"), ident("x_y_2"), TokenKind::EOF]
    );
    assert_eq!(positions(&tokens)[..4], [(0, 0, 1), (0, 2, 2), (0, 5, 3), (0, 9, 5)]);
}

#[test]
fn identifiers_may_hold_letters_beyond_ascii() {
    let tokens = lex("été=1;");
    assert_eq!(
        kinds(&tokens),
        vec![ident("été"), TokenKind::Equal, integer(1), TokenKind::SemiColon, TokenKind::EOF]
    );
    assert_eq!(positions(&tokens)[..4], [(0, 0, 3), (0, 3, 1), (0, 4, 1), (0, 5, 1)]);
}

#[test]
fn digits_then_letters_are_two_tokens() {
    let tokens = lex("12ab");
    assert_eq!(kinds(&tokens), vec![integer(12), ident("ab"), TokenKind::EOF]);
    assert_eq!(positions(&tokens)[..2], [(0, 0, 2), (0, 2, 2)]);
}

#[test]
fn integer_literals_are_read_in_base_ten() {
    let tokens = lex("0 7 007 1234567890");
    assert_eq!(
        kinds(&tokens),
        vec![integer(0), integer(7), integer(7), integer(1234567890), TokenKind::EOF]
    );
    assert_eq!(positions(&tokens)[..4], [(0, 0, 1), (0, 2, 1), (0, 4, 3), (0, 8, 10)]);
}

#[test]
fn the_largest_integer_literal_is_accepted() {
    let tokens = lex("18446744073709551615");
    assert_eq!(kinds(&tokens), vec![integer(u64::MAX), TokenKind::EOF]);
    assert_eq!(tokens[0].position, Position::new(0, 0, 20));
}

#[test]
fn an_integer_literal_that_does_not_fit_is_an_invalid_token() {
    let error = lex_error("let a = 18446744073709551616;");
    assert_eq!(error.kind, ErrorKind::InvalidToken("18446744073709551616".to_string()));
    assert_eq!(error.position, Position::new(0, 8, 20));
}

#[test]
fn string_literals_hold_the_text_between_the_quotes() {
    let tokens = lex("\"abc\" \"\" \"a b;#(\"");
    assert_eq!(kinds(&tokens), vec![string("abc"), string(""), string("a b;#("), TokenKind::EOF]);
    assert_eq!(positions(&tokens)[..3], [(0, 0, 5), (0, 6, 2), (0, 9, 8)]);
}

#[test]
fn string_literals_keep_backslashes_as_they_are() {
    let tokens = lex("\"a\\n\"");
    assert_eq!(kinds(&tokens), vec![string("a\\n"), TokenKind::EOF]);
    let tokens = lex("\"a\\\"b");
    assert_eq!(kinds(&tokens), vec![string("a\\"), ident("b"), TokenKind::EOF]);
}

#[test]
fn unmatched_quote() {
    let error = lex_error("let a = \"abc;");
    assert_eq!(error.kind, ErrorKind::Unmatched("\""));
    assert_eq!(error.position, Position::new(0, 8, 5));
}

#[test]
fn a_string_literal_does_not_go_on_over_the_line() {
    let error = lex_error("x\n  \"ab\ncd\";");
    assert_eq!(error.kind, ErrorKind::Unmatched("\""));
    assert_eq!(error.position, Position::new(1, 2, 3));
}

#[test]
fn a_lone_quote_at_the_end_is_unmatched() {
    let error = lex_error("\"");
    assert_eq!(error.kind, ErrorKind::Unmatched("\""));
    assert_eq!(error.position, Position::new(0, 0, 1));
}

#[test]
fn comments_run_to_the_end_of_the_line() {
    let tokens = lex("# exit(1);\nexit(2); # let\n# last");
    assert_eq!(
        kinds(&tokens),
        vec![
            ident("exit"),
            TokenKind::OpenBracket,
            integer(2),
            TokenKind::CloseBracket,
            TokenKind::SemiColon,
            TokenKind::EOF
        ]
    );
    assert_eq!(tokens[0].position, Position::new(1, 0, 4));
    assert_eq!(tokens[4].position, Position::new(1, 7, 1));
}

#[test]
fn a_comment_may_hold_anything() {
    let tokens = lex("# $ \" ( \u{0}\nx");
    assert_eq!(kinds(&tokens), vec![ident("x"), TokenKind::EOF]);
    assert_eq!(tokens[0].position, Position::new(1, 0, 1));
}

#[test]
fn a_line_break_begins_a_new_line_at_column_zero() {
    let tokens = lex("a\n  b\n\n c");
    assert_eq!(kinds(&tokens), vec![ident("a"), ident("b"), ident("c"), TokenKind::EOF]);
    assert_eq!(positions(&tokens)[..3], [(0, 0, 1), (1, 2, 1), (3, 1, 1)]);
}

#[test]
fn white_space_moves_the_column_by_one_each() {
    let tokens = lex(" \t\r a \u{a0}b");
    assert_eq!(kinds(&tokens), vec![ident("a"), ident("b"), TokenKind::EOF]);
    assert_eq!(positions(&tokens)[..2], [(0, 4, 1), (0, 7, 1)]);
}

#[test]
fn a_character_that_starts_no_token_is_invalid() {
    let error = lex_error("$");
    assert_eq!(error.kind, ErrorKind::InvalidToken("$".to_string()));
    assert_eq!(error.position, Position::new(0, 0, 1));
    let error = lex_error("exit(1);\n  let a = 1 + 2;");
    assert_eq!(error.kind, ErrorKind::InvalidToken("+".to_string()));
    assert_eq!(error.position, Position::new(1, 12, 1));
}

#[test]
fn a_nul_character_is_invalid_and_does_not_end_the_input() {
    let error = lex_error("a\u{0}b");
    assert_eq!(error.kind, ErrorKind::InvalidToken("\u{0}".to_string()));
    assert_eq!(error.position, Position::new(0, 1, 1));
}

#[test]
fn digits_beyond_ascii_are_invalid() {
    let error = lex_error("x = ٣;");
    assert_eq!(error.kind, ErrorKind::InvalidToken("٣".to_string()));
    assert_eq!(error.position, Position::new(0, 4, 1));
}

#[test]
fn the_first_lexical_error_wins() {
    let error = lex_error("a $ \"b");
    assert_eq!(error.kind, ErrorKind::InvalidToken("$".to_string()));
    let error = lex_error("a \"b $");
    assert_eq!(error.kind, ErrorKind::Unmatched("\""));
    assert_eq!(error.position, Position::new(0, 2, 4));
}

#[test]
fn no_token_is_of_the_kind_ignore_and_the_last_one_ends_the_input() {
    for code in ["", " ", "\n", "#", "exit(1);", "let a = \"x\"; # c\n\n exit ( a ) ;\n"] {
        let tokens = lex(code);
        let (last, rest) = tokens.split_last().unwrap();
        assert_eq!(last.kind, TokenKind::EOF);
        for token in rest {
            assert_ne!(token.kind, TokenKind::Ignore);
            assert_ne!(token.kind, TokenKind::EOF);
            assert!(token.position.length >= 1);
        }
    }
}

#[test]
fn token_kinds_compare_by_what_they_hold() {
    assert_eq!(ident("a"), ident("a"));
    assert_ne!(ident("a"), ident("b"));
    assert_ne!(ident("let"), TokenKind::Let);
    assert_eq!(integer(1), integer(1));
    assert_ne!(integer(1), integer(2));
    assert_ne!(integer(1), string("1"));
    assert_eq!(string("x"), string("x"));
    assert_ne!(TokenKind::OpenBracket, TokenKind::CloseBracket);
    assert_eq!(TokenKind::EOF, TokenKind::EOF);
    assert_ne!(TokenKind::EOF, TokenKind::Ignore);
    assert_eq!(Literal::Integer(3), Literal::Integer(3));
    assert_ne!(Literal::String("3".to_string()), Literal::Integer(3));
}

#[test]
fn token_kinds_print_as_their_derived_debug_does() {
    let kinds = vec![
        ident("foo"),
        ident("é"),
        TokenKind::Let,
        TokenKind::Equal,
        TokenKind::Return,
        TokenKind::SemiColon,
        integer(0),
        integer(u64::MAX),
        string(""),
        string("a \"b\" \\ \n"),
        TokenKind::OpenBracket,
        TokenKind::CloseBracket,
        TokenKind::Ignore,
        TokenKind::EOF,
    ];
    for kind in kinds {
        assert_eq!(kind.debug_string(), format!("{:?}", kind));
    }
    assert_eq!(ident("foo").debug_string(), "Ident(\"foo\")");
    assert_eq!(integer(5).debug_string(), "Literal(Integer(5))");
    assert_eq!(string("x").debug_string(), "Literal(String(\"x\"))");
    assert_eq!(Literal::Integer(5).debug_string(), "Integer(5)");
}

#[test]
fn clones_hold_what_was_cloned() {
    let token = Token::new(string("abc"), Position::new(1, 2, 5));
    let copy = token.clone();
    assert_eq!(copy.kind, token.kind);
    assert_eq!(copy.position, token.position);
    assert_eq!(ident("x").clone(), ident("x"));
    assert_eq!(Literal::Integer(9).clone(), Literal::Integer(9));
}

#[test]
fn expect_accepts_the_kind_it_is_given() {
    let token = Token::new(TokenKind::OpenBracket, Position::new(0, 4, 1));
    assert!(token.expect(TokenKind::OpenBracket).is_ok());
    let token = Token::new(ident("a"), Position::new(0, 4, 1));
    assert!(token.expect(ident("a")).is_ok());
}

#[test]
fn expect_names_what_was_expected_and_what_was_found() {
    let token = Token::new(integer(1), Position::new(2, 4, 1));
    let error = token.expect(TokenKind::OpenBracket).unwrap_err();
    assert_eq!(error.kind, ErrorKind::ExpectedToken("OpenBracket".to_string(), integer(1)));
    assert_eq!(error.position, Position::new(2, 4, 1));
    let token = Token::new(ident("a"), Position::new(0, 0, 1));
    let error = token.expect(ident("b")).unwrap_err();
    assert_eq!(error.kind, ErrorKind::ExpectedToken("Ident(\"b\")".to_string(), ident("a")));
}

#[test]
fn expect_identifier_gives_the_name_and_the_position() {
    let token = Token::new(ident("abc"), Position::new(3, 1, 3));
    let node = token.expect_identifier().unwrap();
    assert_eq!(node.0, "abc");
    assert_eq!(node.1, Position::new(3, 1, 3));
}

#[test]
fn expect_identifier_refuses_other_kinds() {
    let token = Token::new(TokenKind::Let, Position::new(3, 1, 3));
    let error = token.expect_identifier().unwrap_err();
    assert_eq!(error.kind, ErrorKind::ExpectedToken("Identifier".to_string(), TokenKind::Let));
    assert_eq!(error.position, Position::new(3, 1, 3));
}

#[test]
fn expect_literal_gives_the_value_and_the_position() {
    let token = Token::new(integer(12), Position::new(0, 5, 2));
    let node = token.expect_literal().unwrap();
    assert_eq!(node.0, Literal::Integer(12));
    assert_eq!(node.1, Position::new(0, 5, 2));
    let token = Token::new(string("s"), Position::new(0, 5, 3));
    let node = token.expect_literal().unwrap();
    assert_eq!(node.0, Literal::String("s".to_string()));
}

#[test]
fn expect_literal_refuses_other_kinds() {
    let token = Token::new(ident("x"), Position::new(0, 5, 1));
    let error = token.expect_literal().unwrap_err();
    assert_eq!(error.kind, ErrorKind::ExpectedToken("Literal".to_string(), ident("x")));
    assert_eq!(error.position, Position::new(0, 5, 1));
}

#[test]
fn make_expect_error_carries_the_message_and_the_token() {
    let token = Token::new(TokenKind::EOF, Position::new(7, 8, 9));
    let error = token.make_expect_error("Identifier or Let");
    assert_eq!(
        error.kind,
        ErrorKind::ExpectedToken("Identifier or Let".to_string(), TokenKind::EOF)
    );
    assert_eq!(error.position, Position::new(7, 8, 9));
}

#[test]
fn the_first_character_says_what_the_lexeme_is() {
    assert_eq!(classify(';', false, false), Start::SemiColon);
    assert_eq!(classify('(', false, false), Start::OpenBracket);
    assert_eq!(classify(')', false, false), Start::CloseBracket);
    assert_eq!(classify('=', false, false), Start::Equal);
    assert_eq!(classify('#', false, false), Start::Comment);
    assert_eq!(classify('\n', false, true), Start::LineBreak);
    assert_eq!(classify('"', false, false), Start::Quote);
    assert_eq!(classify('a', true, false), Start::Word);
    assert_eq!(classify('_', false, false), Start::Word);
    assert_eq!(classify('0', false, false), Start::Number);
    assert_eq!(classify('9', false, false), Start::Number);
    assert_eq!(classify(' ', false, true), Start::Space);
    assert_eq!(classify('$', false, false), Start::Stray);
    assert_eq!(classify('\u{0}', false, false), Start::Stray);
}

#[test]
fn the_first_rule_that_fits_applies() {
    assert_eq!(classify(';', true, true), Start::SemiColon);
    assert_eq!(classify('\n', true, true), Start::LineBreak);
    assert_eq!(classify('7', true, true), Start::Word);
    assert_eq!(classify('7', false, true), Start::Number);
    assert_eq!(classify('x', false, true), Start::Space);
    assert_eq!(classify('x', false, false), Start::Stray);
}
