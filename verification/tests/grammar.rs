use script_frontend::lexer::{LexError, Token};
use script_frontend::parser::{
    BinOp, Expr, FunDeclStatement, GroupMemberStatement, LiteralExpr, ParseError, Parser,
    VisibilityAnnot,
};

/// An expression in brackets, so that its grouping shows.
fn show(expr: &Expr) -> String {
    match expr {
        Expr::Read(name) => name.clone(),
        Expr::Call { callee, args } => {
            let args: Vec<String> = args.iter().map(show).collect();
            format!("{}({})", callee, args.join(", "))
        }
        Expr::Unary { val, op } => format!("({:?} {})", op, show(val)),
        Expr::Binary { left, right, op } => {
            let sign = match op {
                BinOp::Add => "+",
                BinOp::Sub => "-",
                BinOp::Mul => "*",
                BinOp::Div => "/",
                BinOp::Mod => "%",
                BinOp::Equals => "==",
                BinOp::NotEquals => "!=",
                BinOp::Greater => ">",
                BinOp::Lower => "<",
                BinOp::GreaterEqual => ">=",
                BinOp::LowerEqual => "<=",
                BinOp::Assign => "=",
            };
            format!("({} {} {})", show(left), sign, show(right))
        }
        Expr::Literal(LiteralExpr::Int(n)) => format!("{}", n),
        Expr::Literal(LiteralExpr::UInt(n)) => format!("{}u", n),
        Expr::Literal(LiteralExpr::Float(digits)) => format!("f{}", digits),
        Expr::Literal(LiteralExpr::Str(text)) => format!("{:?}", text),
    }
}

fn expr(source: &str) -> String {
    show(&Parser::new(source).parse_expr().unwrap())
}

fn expr_error(source: &str) -> ParseError {
    Parser::new(source).parse_expr().unwrap_err()
}

fn fun(source: &str) -> FunDeclStatement {
    Parser::new(source).parse_fun_decl().unwrap()
}

#[test]
fn decimal_digits_are_the_signed_integer_they_write() {
    for n in [0i64, 7, 10, 42, 1_000_000, i64::MAX] {
        match Parser::new(&format!("{}", n)).parse_expr().unwrap() {
            Expr::Literal(LiteralExpr::Int(value)) => assert_eq!(value, n),
            other => panic!("not a signed integer: {:?}", other),
        }
    }
}

#[test]
fn decimal_digits_and_u_are_the_unsigned_integer_they_write() {
    for n in [0u64, 7, 10, 42, 1_000_000, i64::MAX as u64 + 1, u64::MAX] {
        match Parser::new(&format!("{}u", n)).parse_expr().unwrap() {
            Expr::Literal(LiteralExpr::UInt(value)) => assert_eq!(value, n),
            other => panic!("not an unsigned integer: {:?}", other),
        }
    }
}

#[test]
fn a_minus_sign_is_no_part_of_a_literal() {
    assert!(matches!(expr_error("-1"), ParseError::UnexpectedToken(Token::Minus)));
}

#[test]
fn separators_are_left_out_of_a_number() {
    assert_eq!(expr("1_000"), "1000");
    assert_eq!(expr("1__2__3"), "123");
    assert_eq!(expr("0_0_7"), "7");
    assert_eq!(expr("1_0u"), "10u");
    assert_eq!(expr("1_0.2_5e1_0"), "f10.25e10");
    assert_eq!(expr("1_.5_"), "f1.5");
}

#[test]
fn an_integer_that_does_not_fit_its_type_is_an_error() {
    assert_eq!(expr("9223372036854775807"), "9223372036854775807");
    assert!(matches!(expr_error("9223372036854775808"), ParseError::ParseInt(_)));
    assert_eq!(expr("18446744073709551615u"), "18446744073709551615u");
    assert!(matches!(expr_error("18446744073709551616u"), ParseError::ParseInt(_)));
    assert!(matches!(expr_error("99_999_999_999_999_999_999"), ParseError::ParseInt(_)));
    // The literal is consumed all the same.
    let mut parser = Parser::new("9223372036854775808 x");
    assert!(parser.parse_expr().is_err());
    assert_eq!(parser.peek(), Some(Ok(Token::Ident)));
}

#[test]
fn a_float_keeps_its_digits() {
    match Parser::new("1_0.5e-3").parse_expr().unwrap() {
        Expr::Literal(LiteralExpr::Float(digits)) => {
            assert_eq!(digits, "10.5e-3");
            assert_eq!(digits.parse::<f64>().unwrap(), 10.5e-3);
        }
        other => panic!("not a float: {:?}", other),
    }
}

#[test]
fn a_string_is_what_stands_between_its_quotes() {
    assert_eq!(expr("\"hello\""), "\"hello\"");
    assert_eq!(expr("\"\""), "\"\"");
    match Parser::new("\"a\\\"b é\"").parse_expr().unwrap() {
        Expr::Literal(LiteralExpr::Str(text)) => assert_eq!(text, "a\\\"b é"),
        other => panic!("not a string: {:?}", other),
    }
}

#[test]
fn a_tighter_operator_groups_first() {
    assert_eq!(expr("1 + 2 * 3"), "(1 + (2 * 3))");
    assert_eq!(expr("1 * 2 + 3"), "((1 * 2) + 3)");
    assert_eq!(expr("1 - 2 * 3"), "(1 - (2 * 3))");
    assert_eq!(expr("1 + 2 * 3 - 4 / 5 % 6"), "((1 + (2 * 3)) - ((4 / 5) % 6))");
    assert_eq!(expr("a < b + 1"), "(a < (b + 1))");
    assert_eq!(expr("a == b < c"), "(a == (b < c))");
    assert_eq!(expr("a >= b > c"), "(a >= (b > c))");
    assert_eq!(expr("a = b == c"), "(a = (b == c))");
    assert_eq!(expr("a = b + c * d"), "(a = (b + (c * d)))");
}

#[test]
fn operators_of_one_precedence_group_to_the_left() {
    assert_eq!(expr("1 - 2 - 3"), "((1 - 2) - 3)");
    assert_eq!(expr("1 - 2 + 3 - 4"), "(((1 - 2) + 3) - 4)");
    assert_eq!(expr("8 / 4 % 3 * 2"), "(((8 / 4) % 3) * 2)");
    assert_eq!(expr("a == b != c <= d >= e"), "((((a == b) != c) <= d) >= e)");
    assert_eq!(expr("a < b > c"), "((a < b) > c)");
    assert_eq!(expr("a = b = c"), "((a = b) = c)");
}

#[test]
fn an_expression_ends_in_front_of_what_is_no_binary_operator() {
    let mut parser = Parser::new("1 + 2 ; 3");
    assert_eq!(show(&parser.parse_expr().unwrap()), "(1 + 2)");
    assert_eq!(parser.peek(), Some(Ok(Token::Semicolon)));

    let mut parser = Parser::new("a && b");
    assert_eq!(show(&parser.parse_expr().unwrap()), "a");
    assert_eq!(parser.peek(), Some(Ok(Token::And)));

    // A lexical error behind an operand ends the expression and stays.
    let mut parser = Parser::new("1 #");
    assert_eq!(show(&parser.parse_expr().unwrap()), "1");
    assert_eq!(parser.peek(), Some(Err(LexError { start: 2, end: 3 })));
    let mut parser = Parser::new("a + b \"x");
    assert_eq!(show(&parser.parse_expr().unwrap()), "(a + b)");
    assert_eq!(parser.peek(), Some(Err(LexError { start: 6, end: 8 })));
}

#[test]
fn a_right_hand_side_is_called_for() {
    assert!(matches!(expr_error("1 +"), ParseError::ExpectedToken));
    assert!(matches!(expr_error("1 + *"), ParseError::UnexpectedToken(Token::Star)));
    assert!(matches!(
        expr_error("1 + #"),
        ParseError::ErrorToken(LexError { start: 4, end: 5 })
    ));
    assert!(matches!(expr_error("#"), ParseError::ErrorToken(LexError { start: 0, end: 1 })));
}

#[test]
fn an_identifier_is_a_call_only_in_front_of_a_parenthesis() {
    assert_eq!(expr("foo"), "foo");
    assert_eq!(expr("foo()"), "foo()");
    assert_eq!(expr("foo ( )"), "foo()");
    assert_eq!(expr("foo + bar()"), "(foo + bar())");
    assert_eq!(expr("foo ;"), "foo");
    assert_eq!(expr("foo #"), "foo");
    // A keyword is no identifier.
    assert!(matches!(expr_error("fun"), ParseError::UnexpectedToken(Token::Fun)));
    assert!(matches!(expr_error("true"), ParseError::UnexpectedToken(Token::True)));
    assert!(matches!(expr_error("(1)"), ParseError::UnexpectedToken(Token::LeftParen)));
}

#[test]
fn arguments_are_expressions_with_commas_between() {
    assert_eq!(expr("foo(1)"), "foo(1)");
    assert_eq!(expr("foo(1, 2,)"), "foo(1, 2)");
    assert_eq!(expr("foo(1 + 2 * 3, bar(x, \"s\"), 4u)"), "foo((1 + (2 * 3)), bar(x, \"s\"), 4u)");
    assert_eq!(expr("f(g(h()))"), "f(g(h()))");
    assert_eq!(expr("f(a) - g(b) - h(c)"), "((f(a) - g(b)) - h(c))");
}

#[test]
fn arguments_that_go_wrong() {
    assert!(matches!(expr_error("foo("), ParseError::ExpectedToken));
    assert!(matches!(expr_error("foo(1"), ParseError::ExpectedToken));
    assert!(matches!(expr_error("foo(1,"), ParseError::ExpectedToken));
    assert!(matches!(expr_error("foo(,)"), ParseError::UnexpectedToken(Token::Comma)));
    assert!(matches!(expr_error("foo(1,,)"), ParseError::UnexpectedToken(Token::Comma)));
    match expr_error("foo(1 2)") {
        ParseError::ExpectedDifferentTokens { expected, found } => {
            assert_eq!(expected, vec![Token::Comma, Token::RightParen]);
            assert_eq!(found, Token::IntLiteral);
        }
        other => panic!("not a mismatch: {:?}", other),
    }
    // The token that does not fit stays.
    let mut parser = Parser::new("foo(1 ; 2)");
    assert!(parser.parse_expr().is_err());
    assert_eq!(parser.peek(), Some(Ok(Token::Semicolon)));
}

#[test]
fn peek_consumes_nothing_and_advance_one_token() {
    let mut parser = Parser::new("a + 1");
    assert_eq!(parser.peek(), Some(Ok(Token::Ident)));
    assert_eq!(parser.peek(), Some(Ok(Token::Ident)));
    assert_eq!(parser.slice(), "a");
    assert_eq!(parser.advance(), Some(Ok(Token::Ident)));
    assert_eq!(parser.slice(), "a");
    assert_eq!(parser.advance(), Some(Ok(Token::Plus)));
    assert_eq!(parser.slice(), "+");
    assert_eq!(parser.peek(), Some(Ok(Token::IntLiteral)));
    assert_eq!(parser.slice(), "1");
    assert_eq!(parser.advance(), Some(Ok(Token::IntLiteral)));
    assert_eq!(parser.peek(), None);
    assert_eq!(parser.advance(), None);
    assert_eq!(parser.advance(), None);
}

#[test]
fn expect_tells_what_it_found_and_consumes_nothing() {
    let mut parser = Parser::new("a ;");
    assert!(parser.expect(Token::Ident).is_ok());
    assert!(parser.expect(Token::Ident).is_ok());
    match parser.expect(Token::Semicolon).unwrap_err() {
        ParseError::ExpectedDifferentToken { expected, found } => {
            assert_eq!(expected, Token::Semicolon);
            assert_eq!(found, Token::Ident);
        }
        other => panic!("not a mismatch: {:?}", other),
    }
    assert_eq!(parser.advance(), Some(Ok(Token::Ident)));
    assert!(parser.expect(Token::Semicolon).is_ok());
    assert_eq!(parser.advance(), Some(Ok(Token::Semicolon)));
    assert!(matches!(parser.expect(Token::Semicolon).unwrap_err(), ParseError::ExpectedToken));
    assert!(matches!(
        Parser::new("$").expect(Token::Ident).unwrap_err(),
        ParseError::ErrorToken(LexError { start: 0, end: 1 })
    ));
}

#[test]
fn where_no_equals_sign_stands_there_is_no_initializer() {
    let mut parser = Parser::new("");
    assert!(parser.parse_assignment().unwrap().is_none());

    let mut parser = Parser::new("foo = 1");
    assert!(parser.parse_assignment().unwrap().is_none());
    // Nothing was consumed.
    assert_eq!(show(&parser.parse_expr().unwrap()), "(foo = 1)");

    let mut parser = Parser::new("== 1");
    assert!(parser.parse_assignment().unwrap().is_none());
    assert_eq!(parser.peek(), Some(Ok(Token::EqualsEquals)));
}

#[test]
fn an_initializer_is_a_whole_expression() {
    let mut parser = Parser::new("= 1 + 2 * 3 ;");
    assert_eq!(show(&parser.parse_assignment().unwrap().unwrap()), "(1 + (2 * 3))");
    assert_eq!(parser.peek(), Some(Ok(Token::Semicolon)));
    assert!(matches!(
        Parser::new("=").parse_assignment().unwrap_err(),
        ParseError::ExpectedToken
    ));
    let mut parser = Parser::new("# = 1");
    assert!(parser.parse_assignment().unwrap().is_none());
    assert_eq!(parser.peek(), Some(Err(LexError { start: 0, end: 1 })));
}

#[test]
fn a_visibility_is_optional() {
    let mut parser = Parser::new("pub priv fun");
    assert_eq!(parser.parse_visibility_annot().unwrap(), VisibilityAnnot::Public);
    assert_eq!(parser.parse_visibility_annot().unwrap(), VisibilityAnnot::Private);
    assert_eq!(parser.parse_visibility_annot().unwrap(), VisibilityAnnot::Default);
    // The token that is no visibility stays.
    assert_eq!(parser.peek(), Some(Ok(Token::Fun)));
    assert_eq!(Parser::new("").parse_visibility_annot().unwrap(), VisibilityAnnot::Default);
    let mut parser = Parser::new("? pub");
    assert_eq!(parser.parse_visibility_annot().unwrap(), VisibilityAnnot::Default);
    assert_eq!(parser.peek(), Some(Err(LexError { start: 0, end: 1 })));
}

#[test]
fn a_type_annotation_is_a_colon_and_a_name() {
    let mut parser = Parser::new(": Int x");
    assert_eq!(parser.parse_type_annot().unwrap(), Some("Int".to_string()));
    assert_eq!(parser.parse_type_annot().unwrap(), None);
    assert_eq!(parser.peek(), Some(Ok(Token::Ident)));
    assert_eq!(Parser::new("").parse_type_annot().unwrap(), None);
    match Parser::new(": 5").parse_type_annot().unwrap_err() {
        ParseError::ExpectedDifferentToken { expected, found } => {
            assert_eq!(expected, Token::Ident);
            assert_eq!(found, Token::IntLiteral);
        }
        other => panic!("not a mismatch: {:?}", other),
    }
    assert!(matches!(Parser::new(":").parse_type_annot().unwrap_err(), ParseError::ExpectedToken));
    let mut parser = Parser::new("` : Int");
    assert_eq!(parser.parse_type_annot().unwrap(), None);
    assert_eq!(parser.peek(), Some(Err(LexError { start: 0, end: 1 })));
    assert!(matches!(
        Parser::new(": `").parse_type_annot().unwrap_err(),
        ParseError::ErrorToken(LexError { start: 2, end: 3 })
    ));
}

#[test]
fn a_function_has_a_name_or_none() {
    let decl = fun("fun foo() {}");
    assert_eq!(decl.name, Some("foo".to_string()));
    assert!(decl.args.is_empty());
    assert_eq!(decl.ret_type, None);
    assert!(decl.code.is_empty());
    assert!(decl.attributes.is_empty());
    assert_eq!(decl.visibility, VisibilityAnnot::Default);

    let decl = fun("fun () : Unit { }");
    assert_eq!(decl.name, None);
    assert_eq!(decl.ret_type, Some("Unit".to_string()));
}

#[test]
fn declared_arguments_have_a_name_and_a_type() {
    let decl = fun("fun add(a: Int, b : Long,): Int {}");
    assert_eq!(decl.args.len(), 2);
    assert_eq!(decl.args[0].name, "a");
    assert_eq!(decl.args[0].type_annot, "Int");
    assert!(decl.args[0].attributes.is_empty());
    assert_eq!(decl.args[1].name, "b");
    assert_eq!(decl.args[1].type_annot, "Long");
    assert_eq!(decl.ret_type, Some("Int".to_string()));

    let decl = fun("fun one(x: T) {}");
    assert_eq!(decl.args.len(), 1);
    assert_eq!(decl.args[0].name, "x");
}

#[test]
fn a_function_declaration_that_goes_wrong() {
    let error = |source: &str| Parser::new(source).parse_fun_decl().unwrap_err();
    assert!(matches!(error(""), ParseError::ExpectedToken));
    assert!(matches!(
        error("foo() {}"),
        ParseError::ExpectedDifferentToken { expected: Token::Fun, found: Token::Ident }
    ));
    assert!(matches!(error("fun"), ParseError::ExpectedToken));
    assert!(matches!(error("fun foo"), ParseError::ExpectedToken));
    assert!(matches!(
        error("fun foo {}"),
        ParseError::ExpectedDifferentToken { expected: Token::LeftParen, found: Token::LeftBrace }
    ));
    assert!(matches!(error("fun foo("), ParseError::ExpectedToken));
    assert!(matches!(error("fun foo(x) {}"), ParseError::MissingTypeAnnot));
    assert!(matches!(error("fun foo(x"), ParseError::MissingTypeAnnot));
    assert!(matches!(error("fun foo(x:"), ParseError::ExpectedToken));
    assert!(matches!(error("fun foo(x: Int"), ParseError::ExpectedToken));
    assert!(matches!(error("fun foo(1) {}"), ParseError::UnexpectedToken(Token::IntLiteral)));
    assert!(matches!(error("fun foo(,) {}"), ParseError::UnexpectedToken(Token::Comma)));
    match error("fun foo(x: Int y: Int) {}") {
        ParseError::ExpectedDifferentTokens { expected, found } => {
            assert_eq!(expected, vec![Token::Comma, Token::RightParen]);
            assert_eq!(found, Token::Ident);
        }
        other => panic!("not a mismatch: {:?}", other),
    }
    assert!(matches!(error("fun foo()"), ParseError::MissingCodeBlock));
    assert!(matches!(error("fun foo(): Int"), ParseError::MissingCodeBlock));
    assert!(matches!(error("fun foo() ;"), ParseError::MissingCodeBlock));
    assert!(matches!(
        error("fun foo(): {}"),
        ParseError::ExpectedDifferentToken { expected: Token::Ident, found: Token::LeftBrace }
    ));
    assert!(matches!(error("fun foo() {"), ParseError::ExpectedToken));
    assert!(matches!(error("fun foo() { # }"), ParseError::ErrorToken(_)));
    // No token may be read where the text is no token.
    assert!(matches!(error("fun ^"), ParseError::ErrorToken(LexError { start: 4, end: 5 })));
}

#[test]
fn a_token_that_does_not_fit_stays() {
    let mut parser = Parser::new("foo() {}");
    assert!(parser.parse_fun_decl().is_err());
    assert_eq!(parser.peek(), Some(Ok(Token::Ident)));

    let mut parser = Parser::new("fun foo(x: Int y) {}");
    assert!(parser.parse_fun_decl().is_err());
    assert_eq!(parser.peek(), Some(Ok(Token::Ident)));
    assert_eq!(parser.slice(), "y");
}

#[test]
fn statements_are_not_supported_yet() {
    let error = |source: &str| Parser::new(source).parse_fun_decl().unwrap_err();
    assert!(matches!(error("fun f() { val x = 1; }"), ParseError::Unsupported(Token::Val)));
    assert!(matches!(error("fun f() { x; }"), ParseError::UnexpectedToken(Token::Ident)));
    assert!(matches!(error("fun f() { ret 1; }"), ParseError::UnexpectedToken(Token::Ret)));
    assert!(matches!(error("fun f() { ; }"), ParseError::UnexpectedToken(Token::Semicolon)));

    let statement = |source: &str| Parser::new(source).parse_runtime_statement().unwrap_err();
    assert!(matches!(statement("val x"), ParseError::Unsupported(Token::Val)));
    assert!(matches!(statement("1"), ParseError::UnexpectedToken(Token::IntLiteral)));
    assert!(matches!(statement(""), ParseError::ExpectedToken));
    assert!(matches!(statement("#"), ParseError::ErrorToken(_)));
}

#[test]
fn a_code_block_is_optional_to_its_parser() {
    let mut parser = Parser::new("{ } x");
    assert!(parser.parse_code_block().unwrap().unwrap().is_empty());
    assert!(parser.parse_code_block().unwrap().is_none());
    assert_eq!(parser.peek(), Some(Ok(Token::Ident)));
    assert!(Parser::new("").parse_code_block().unwrap().is_none());
    assert!(Parser::new("#").parse_code_block().unwrap().is_none());
    assert!(matches!(
        Parser::new("{").parse_code_block().unwrap_err(),
        ParseError::ExpectedToken
    ));
}

#[test]
fn an_immutable_binding_has_an_optional_type_and_initializer() {
    let val = |source: &str| Parser::new(source).parse_immutable_variable_decl().unwrap();
    let decl = val("val x");
    assert_eq!(decl.name, "x");
    assert_eq!(decl.type_annot, None);
    assert!(decl.initial_assignment.is_none());
    assert!(decl.attributes.is_empty());
    assert_eq!(decl.visibility, VisibilityAnnot::Default);

    let decl = val("val x: Int");
    assert_eq!(decl.type_annot, Some("Int".to_string()));
    assert!(decl.initial_assignment.is_none());

    let decl = val("val x = 1 + 2");
    assert_eq!(decl.type_annot, None);
    assert_eq!(show(&decl.initial_assignment.unwrap()), "(1 + 2)");

    let decl = val("val answer: Int = 6 * 7");
    assert_eq!(decl.name, "answer");
    assert_eq!(decl.type_annot, Some("Int".to_string()));
    assert_eq!(show(&decl.initial_assignment.unwrap()), "(6 * 7)");
}

#[test]
fn an_immutable_binding_that_goes_wrong() {
    let error = |source: &str| Parser::new(source).parse_immutable_variable_decl().unwrap_err();
    assert!(matches!(error(""), ParseError::ExpectedToken));
    assert!(matches!(
        error("var x"),
        ParseError::ExpectedDifferentToken { expected: Token::Val, found: Token::Var }
    ));
    assert!(matches!(
        error("let x"),
        ParseError::ExpectedDifferentToken { expected: Token::Val, found: Token::Let }
    ));
    assert!(matches!(error("val"), ParseError::ExpectedToken));
    assert!(matches!(
        error("val 1"),
        ParseError::ExpectedDifferentToken { expected: Token::Ident, found: Token::IntLiteral }
    ));
    assert!(matches!(error("val x :"), ParseError::ExpectedToken));
    assert!(matches!(error("val x ="), ParseError::ExpectedToken));
    assert!(matches!(error("val x = ;"), ParseError::UnexpectedToken(Token::Semicolon)));
}

#[test]
fn a_mutable_binding_needs_a_type_and_an_initializer() {
    let decl = Parser::new("var x: Int = 5").parse_var_decl().unwrap();
    assert_eq!(decl.name, "x");
    assert_eq!(decl.type_annot, "Int");
    assert_eq!(show(&decl.initial_assignment), "5");
    assert!(decl.attributes.is_empty());
    assert_eq!(decl.visibility, VisibilityAnnot::Default);

    let error = |source: &str| Parser::new(source).parse_var_decl().unwrap_err();
    assert!(matches!(error("var x = 5"), ParseError::MissingTypeAnnot));
    assert!(matches!(error("var x"), ParseError::MissingTypeAnnot));
    assert!(matches!(error("var x: Int"), ParseError::MissingAssignment));
    assert!(matches!(error("var x: Int ;"), ParseError::MissingAssignment));
    assert!(matches!(error("var x: Int = "), ParseError::ExpectedToken));
    assert!(matches!(error(""), ParseError::ExpectedToken));
    assert!(matches!(
        error("val x: Int = 5"),
        ParseError::ExpectedDifferentToken { expected: Token::Var, found: Token::Val }
    ));
    assert!(matches!(
        error("var 5"),
        ParseError::ExpectedDifferentToken { expected: Token::Ident, found: Token::IntLiteral }
    ));
}

#[test]
fn attributes_stand_in_front_of_a_mutable_binding() {
    let decl = Parser::new("@inline @size(4, 8 * 2) @empty() var x: Int = 5").parse_var_decl().unwrap();
    assert_eq!(decl.attributes.len(), 3);
    assert_eq!(decl.attributes[0].name, "inline");
    assert!(decl.attributes[0].args.is_empty());
    assert_eq!(decl.attributes[1].name, "size");
    let args: Vec<String> = decl.attributes[1].args.iter().map(show).collect();
    assert_eq!(args, vec!["4", "(8 * 2)"]);
    assert_eq!(decl.attributes[2].name, "empty");
    assert!(decl.attributes[2].args.is_empty());
    assert_eq!(decl.name, "x");
}

#[test]
fn attributes_stop_at_the_first_token_that_is_no_at_sign() {
    let mut parser = Parser::new("@a @b(1) fun @c");
    let annots = parser.parse_attribute_annots().unwrap();
    assert_eq!(annots.len(), 2);
    assert_eq!(annots[0].name, "a");
    assert_eq!(annots[1].name, "b");
    assert_eq!(parser.peek(), Some(Ok(Token::Fun)));
    assert!(parser.parse_attribute_annots().unwrap().is_empty());
    assert!(parser.parse_attribute_annot().unwrap().is_none());
    assert_eq!(parser.peek(), Some(Ok(Token::Fun)));
    assert!(Parser::new("").parse_attribute_annots().unwrap().is_empty());
}

#[test]
fn an_attribute_that_goes_wrong() {
    let error = |source: &str| Parser::new(source).parse_attribute_annot().unwrap_err();
    assert!(matches!(error("@"), ParseError::ExpectedToken));
    assert!(matches!(
        error("@1"),
        ParseError::ExpectedDifferentToken { expected: Token::Ident, found: Token::IntLiteral }
    ));
    assert!(matches!(error("@a("), ParseError::ExpectedToken));
    assert!(matches!(error("@ #"), ParseError::ErrorToken(LexError { start: 2, end: 3 })));
    let mut parser = Parser::new("@a #");
    let annot = parser.parse_attribute_annot().unwrap().unwrap();
    assert_eq!(annot.name, "a");
    assert!(annot.args.is_empty());
    assert_eq!(parser.peek(), Some(Err(LexError { start: 3, end: 4 })));
    assert!(matches!(
        Parser::new("@a @").parse_attribute_annots().unwrap_err(),
        ParseError::ExpectedToken
    ));
}

#[test]
fn a_module_is_its_functions() {
    let module = Parser::new("").parse_module().unwrap();
    assert!(module.decls.is_empty());
    let module = Parser::new(" // nothing\n").parse_module().unwrap();
    assert!(module.decls.is_empty());

    let module = Parser::new("fun a() {} /* two */ fun (x: Int): Int {} fun c() {}")
        .parse_module()
        .unwrap();
    assert_eq!(module.decls.len(), 3);
    let names: Vec<Option<String>> = module
        .decls
        .iter()
        .map(|decl| match decl {
            GroupMemberStatement::Fun(fun) => fun.name.clone(),
            other => panic!("not a function: {:?}", other),
        })
        .collect();
    assert_eq!(names, vec![Some("a".to_string()), None, Some("c".to_string())]);
}

#[test]
fn the_first_member_that_fails_ends_the_module() {
    let error = |source: &str| Parser::new(source).parse_module().unwrap_err();
    assert!(matches!(error("class A {}"), ParseError::Unsupported(Token::Class)));
    assert!(matches!(error("val x = 1"), ParseError::Unsupported(Token::Val)));
    assert!(matches!(error("fun a() {} val x"), ParseError::Unsupported(Token::Val)));
    assert!(matches!(error("var x: Int = 1"), ParseError::UnexpectedToken(Token::Var)));
    assert!(matches!(error("fun a() {} 42"), ParseError::UnexpectedToken(Token::IntLiteral)));
    assert!(matches!(error("fun a() {} fun b()"), ParseError::MissingCodeBlock));
    assert!(matches!(
        error("fun a() {} $"),
        ParseError::ErrorToken(LexError { start: 11, end: 12 })
    ));

    let member = |source: &str| Parser::new(source).parse_group_member_statement().unwrap_err();
    assert!(matches!(member(""), ParseError::ExpectedToken));
    assert!(matches!(member("class"), ParseError::Unsupported(Token::Class)));
    assert!(matches!(member("}"), ParseError::UnexpectedToken(Token::RightBrace)));
}

#[test]
fn a_lexical_error_converts_to_a_parse_error() {
    let error = ParseError::from(LexError { start: 3, end: 7 });
    assert!(matches!(error, ParseError::ErrorToken(LexError { start: 3, end: 7 })));
}

#[test]
fn a_copy_of_a_tree_is_the_same_tree() {
    let tree = Parser::new("f(1, g(\"s\", 2.5), x) + 3u * y").parse_expr().unwrap();
    assert_eq!(show(&tree.clone()), show(&tree));
    assert_eq!(show(&tree), "(f(1, g(\"s\", f2.5), x) + (3u * y))");
}
