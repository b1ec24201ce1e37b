use script_frontend::lexer::{LexError, Lexer, Token};

/// All that the lexer yields for `source`, each with its lexeme.
fn lex(source: &str) -> Vec<(Result<Token, LexError>, String)> {
    let mut lexer = Lexer::new(source);
    let mut out = Vec::new();
    while let Some(item) = lexer.next() {
        out.push((item, lexer.slice().to_string()));
    }
    out
}

fn kinds(source: &str) -> Vec<Token> {
    lex(source).into_iter().map(|(item, _)| item.unwrap()).collect()
}

#[test]
fn lexes_every_keyword() {
    assert_eq!(
        kinds("fun class let val var pub priv import group ret new if else while for in true false"),
        vec![
            Token::Fun,
            Token::Class,
            Token::Let,
            Token::Val,
            Token::Var,
            Token::Pub,
            Token::Priv,
            Token::Import,
            Token::Group,
            Token::Ret,
            Token::New,
            Token::If,
            Token::Else,
            Token::While,
            Token::For,
            Token::In,
            Token::True,
            Token::False,
        ]
    );
}

#[test]
fn a_word_that_only_starts_like_a_keyword_is_an_identifier() {
    assert_eq!(kinds("funny _fun fun_ If iff"), vec![Token::Ident; 5]);
    assert_eq!(kinds("_ a1 A_b9"), vec![Token::Ident; 3]);
}

#[test]
fn lexes_every_operator_and_mark() {
    assert_eq!(
        kinds("+ - * / % = == != < <= > >= && || ! ; : , . ( ) { } [ ] @"),
        vec![
            Token::Plus,
            Token::Minus,
            Token::Star,
            Token::Slash,
            Token::Percent,
            Token::Equals,
            Token::EqualsEquals,
            Token::NotEquals,
            Token::LessThan,
            Token::LessThanEquals,
            Token::GreaterThan,
            Token::GreaterThanEquals,
            Token::And,
            Token::Or,
            Token::Not,
            Token::Semicolon,
            Token::Colon,
            Token::Comma,
            Token::Dot,
            Token::LeftParen,
            Token::RightParen,
            Token::LeftBrace,
            Token::RightBrace,
            Token::LeftBracket,
            Token::RightBracket,
            Token::At,
        ]
    );
}

#[test]
fn the_longer_of_two_operators_wins() {
    assert_eq!(kinds("==="), vec![Token::EqualsEquals, Token::Equals]);
    assert_eq!(kinds("<=="), vec![Token::LessThanEquals, Token::Equals]);
    assert_eq!(kinds("!!="), vec![Token::Not, Token::NotEquals]);
    assert_eq!(kinds("a<b"), vec![Token::Ident, Token::LessThan, Token::Ident]);
}

#[test]
fn integers_end_with_their_last_digit() {
    let ok = |t: Token, s: &str| (Ok(t), s.to_string());
    assert_eq!(lex("42"), vec![ok(Token::IntLiteral, "42")]);
    assert_eq!(lex("1_000_000"), vec![ok(Token::IntLiteral, "1_000_000")]);
    assert_eq!(lex("1__2"), vec![ok(Token::IntLiteral, "1__2")]);
    assert_eq!(lex("12_"), vec![ok(Token::IntLiteral, "12"), ok(Token::Ident, "_")]);
    assert_eq!(lex("7x"), vec![ok(Token::IntLiteral, "7"), ok(Token::Ident, "x")]);
}

#[test]
fn a_u_straight_after_the_last_digit_makes_it_unsigned() {
    let ok = |t: Token, s: &str| (Ok(t), s.to_string());
    assert_eq!(lex("42u"), vec![ok(Token::UIntLiteral, "42u")]);
    assert_eq!(lex("4_2u"), vec![ok(Token::UIntLiteral, "4_2u")]);
    assert_eq!(lex("42ux"), vec![ok(Token::UIntLiteral, "42u"), ok(Token::Ident, "x")]);
    assert_eq!(lex("42_u"), vec![ok(Token::IntLiteral, "42"), ok(Token::Ident, "_u")]);
    assert_eq!(lex("42 u"), vec![ok(Token::IntLiteral, "42"), ok(Token::Ident, "u")]);
}

#[test]
fn a_float_needs_a_digit_on_each_side_of_the_point() {
    let ok = |t: Token, s: &str| (Ok(t), s.to_string());
    assert_eq!(lex("3.14"), vec![ok(Token::FloatLiteral, "3.14")]);
    assert_eq!(lex("1_0.5_"), vec![ok(Token::FloatLiteral, "1_0.5_")]);
    assert_eq!(lex("1_.5"), vec![ok(Token::FloatLiteral, "1_.5")]);
    assert_eq!(lex("1."), vec![ok(Token::IntLiteral, "1"), ok(Token::Dot, ".")]);
    assert_eq!(lex(".5"), vec![ok(Token::Dot, "."), ok(Token::IntLiteral, "5")]);
    assert_eq!(
        lex("1._5"),
        vec![ok(Token::IntLiteral, "1"), ok(Token::Dot, "."), ok(Token::Ident, "_5")]
    );
    assert_eq!(
        lex("1.5.2"),
        vec![ok(Token::FloatLiteral, "1.5"), ok(Token::Dot, "."), ok(Token::IntLiteral, "2")]
    );
}

#[test]
fn an_exponent_needs_a_digit() {
    let ok = |t: Token, s: &str| (Ok(t), s.to_string());
    assert_eq!(lex("1.5e10"), vec![ok(Token::FloatLiteral, "1.5e10")]);
    assert_eq!(lex("1.5E-3"), vec![ok(Token::FloatLiteral, "1.5E-3")]);
    assert_eq!(lex("1.5e+3_0"), vec![ok(Token::FloatLiteral, "1.5e+3_0")]);
    assert_eq!(lex("1.5e"), vec![ok(Token::FloatLiteral, "1.5"), ok(Token::Ident, "e")]);
    assert_eq!(
        lex("1.5e+"),
        vec![ok(Token::FloatLiteral, "1.5"), ok(Token::Ident, "e"), ok(Token::Plus, "+")]
    );
    assert_eq!(lex("1.5e_1"), vec![ok(Token::FloatLiteral, "1.5"), ok(Token::Ident, "e_1")]);
    assert_eq!(lex("1e5"), vec![ok(Token::IntLiteral, "1"), ok(Token::Ident, "e5")]);
}

#[test]
fn strings_take_escapes_and_any_other_character() {
    let ok = |t: Token, s: &str| (Ok(t), s.to_string());
    assert_eq!(lex("\"\""), vec![ok(Token::StrLiteral, "\"\"")]);
    assert_eq!(lex("\"a\\\"b\" x"), vec![ok(Token::StrLiteral, "\"a\\\"b\""), ok(Token::Ident, "x")]);
    assert_eq!(lex("\"a\\\\\""), vec![ok(Token::StrLiteral, "\"a\\\\\"")]);
    assert_eq!(lex("\"héllo\\é\""), vec![ok(Token::StrLiteral, "\"héllo\\é\"")]);
    assert_eq!(lex("\"two\nlines\""), vec![ok(Token::StrLiteral, "\"two\nlines\"")]);
}

#[test]
fn a_string_that_is_not_closed_is_an_error_to_where_it_breaks_off() {
    assert_eq!(
        lex("x \"abc"),
        vec![
            (Ok(Token::Ident), "x".to_string()),
            (Err(LexError { start: 2, end: 6 }), "\"abc".to_string()),
        ]
    );
    assert_eq!(lex("\"abc\\"), vec![(Err(LexError { start: 0, end: 5 }), "\"abc\\".to_string())]);
    assert_eq!(lex("\"a\\\""), vec![(Err(LexError { start: 0, end: 4 }), "\"a\\\"".to_string())]);
    // A backslash does not take a line feed with it: the literal breaks off in
    // front of the line feed, and the lexer goes on from there.
    assert_eq!(
        lex("\"a\\\nb"),
        vec![
            (Err(LexError { start: 0, end: 3 }), "\"a\\".to_string()),
            (Ok(Token::Ident), "b".to_string()),
        ]
    );
}

#[test]
fn blanks_and_comments_are_passed_over() {
    assert_eq!(kinds(" \t\n\x0c"), vec![]);
    assert_eq!(kinds("a // b c\nd"), vec![Token::Ident, Token::Ident]);
    assert_eq!(kinds("a // é to the end"), vec![Token::Ident]);
    assert_eq!(kinds("a /* b\n * c */ d"), vec![Token::Ident, Token::Ident]);
    assert_eq!(kinds("/**/a/***/b/* * / */c"), vec![Token::Ident; 3]);
    assert_eq!(kinds("/* a */ b */"), vec![Token::Ident, Token::Star, Token::Slash]);
    assert_eq!(kinds("//"), vec![]);
}

#[test]
fn a_block_comment_that_is_not_closed_is_no_comment() {
    assert_eq!(kinds("/* a"), vec![Token::Slash, Token::Star, Token::Ident]);
    assert_eq!(kinds("/*/"), vec![Token::Slash, Token::Star, Token::Slash]);
    assert_eq!(kinds("a / b"), vec![Token::Ident, Token::Slash, Token::Ident]);
}

#[test]
fn what_is_no_token_is_an_error_of_one_character_and_the_lexer_goes_on() {
    assert_eq!(
        lex("a # b"),
        vec![
            (Ok(Token::Ident), "a".to_string()),
            (Err(LexError { start: 2, end: 3 }), "#".to_string()),
            (Ok(Token::Ident), "b".to_string()),
        ]
    );
    // Characters of two, three and four bytes.
    assert_eq!(lex("é"), vec![(Err(LexError { start: 0, end: 2 }), "é".to_string())]);
    assert_eq!(lex("€"), vec![(Err(LexError { start: 0, end: 3 }), "€".to_string())]);
    assert_eq!(
        lex("😀x"),
        vec![
            (Err(LexError { start: 0, end: 4 }), "😀".to_string()),
            (Ok(Token::Ident), "x".to_string()),
        ]
    );
    assert_eq!(
        lex("a&b"),
        vec![
            (Ok(Token::Ident), "a".to_string()),
            (Err(LexError { start: 1, end: 2 }), "&".to_string()),
            (Ok(Token::Ident), "b".to_string()),
        ]
    );
    assert_eq!(lex("|"), vec![(Err(LexError { start: 0, end: 1 }), "|".to_string())]);
    assert_eq!(lex("\r"), vec![(Err(LexError { start: 0, end: 1 }), "\r".to_string())]);
    assert_eq!(lex("~"), vec![(Err(LexError { start: 0, end: 1 }), "~".to_string())]);
    assert_eq!(lex("'"), vec![(Err(LexError { start: 0, end: 1 }), "'".to_string())]);
}

#[test]
fn the_span_is_that_of_the_token_last_yielded() {
    let mut lexer = Lexer::new("  foo /* c */ 12u");
    assert_eq!(lexer.span(), (0, 0));
    assert_eq!(lexer.slice(), "");
    assert_eq!(lexer.next(), Some(Ok(Token::Ident)));
    assert_eq!(lexer.span(), (2, 5));
    assert_eq!(lexer.slice(), "foo");
    assert_eq!(lexer.next(), Some(Ok(Token::UIntLiteral)));
    assert_eq!(lexer.span(), (14, 17));
    assert_eq!(lexer.slice(), "12u");
}

#[test]
fn at_the_end_the_lexer_yields_nothing_again_and_again() {
    let mut lexer = Lexer::new("a  ");
    assert_eq!(lexer.next(), Some(Ok(Token::Ident)));
    assert_eq!(lexer.next(), None);
    assert_eq!(lexer.span(), (3, 3));
    assert_eq!(lexer.slice(), "");
    assert_eq!(lexer.next(), None);
    assert_eq!(lexer.span(), (3, 3));
    assert_eq!(Lexer::new("").next(), None);
}

#[test]
fn a_token_is_named_by_its_kind() {
    assert_eq!(Token::Fun.name(), "Fun");
    assert_eq!(Token::Val.name(), "Val");
    assert_eq!(Token::Ident.name(), "Ident");
    assert_eq!(Token::UIntLiteral.name(), "UIntLiteral");
    assert_eq!(Token::GreaterThanEquals.name(), "GreaterThanEquals");
    assert_eq!(Token::RightBracket.name(), "RightBracket");
    assert_eq!(Token::At.name(), "At");
}
