//! Laws of the grammar: what holds of every input of some form.

use vstd::prelude::*;
use vstd::utf8::{
    encode_utf8, encode_utf8_decode_utf8, encode_utf8_valid_utf8, is_ascii_chars,
    is_ascii_chars_encode_utf8, is_char_boundary_start_end_of_seq,
};
use crate::ast::{BinOp, ExprView, LiteralView};
use crate::error::ParseErrorView;
use crate::grammar::{
    decimal_value, done, fail, int_literal, is_digits, left, lookahead, operator_at,
    spec_args_in_call, spec_args_separator, spec_assignment, spec_binary, spec_binary_rest,
    spec_call_args_rest, spec_code_block, spec_expr, spec_group_member_statement, spec_ident,
    spec_members,
    spec_module, spec_primary, stands, uint_literal, without_separators,
};
use crate::lexer::Token;
use crate::scan::{
    fraction_end, is_digit, last_digit_end, lemma_lexemes_step, lexemes, number_at, placed,
    run_end, scan, skip_trivia, token_at, tokenize, trivia_end, Class, Lexeme,
};

verus! {

/// The character that writes the digit `d`.
pub open spec fn digit_char(d: nat) -> char {
    ('0' as u8 + d) as char
}

/// The decimal digits that write `n`, without leading zeros.
pub open spec fn decimal_text(n: nat) -> Seq<char>
    decreases n,
{
    if n < 10 {
        seq![digit_char(n)]
    } else {
        decimal_text(n / 10).push(digit_char(n % 10))
    }
}

/// The decimal digits of a number are digits, and write that number.
pub proof fn lemma_decimal_text(n: nat)
    ensures
        decimal_text(n).len() >= 1,
        is_digits(decimal_text(n)),
        decimal_value(decimal_text(n)) == n,
    decreases n,
{
    if n < 10 {
        let text = decimal_text(n);
        assert(text.drop_last() =~= Seq::<char>::empty());
        assert(decimal_value(text.drop_last()) == 0);
    } else {
        lemma_decimal_text(n / 10);
        let front = decimal_text(n / 10);
        let text = decimal_text(n);
        assert(text.drop_last() =~= front);
        assert(text.last() == digit_char(n % 10));
    }
}

/// Digits hold no separator.
proof fn lemma_digits_have_no_separators(digits: Seq<char>)
    requires
        is_digits(digits),
    ensures
        without_separators(digits) == digits,
    decreases digits.len(),
{
    if digits.len() > 0 {
        let front = digits.drop_last();
        assert(is_digits(front)) by {
            assert forall|i: int| 0 <= i < front.len() implies '0' <= #[trigger] front[i]
                <= '9' by {
                assert(front[i] == digits[i]);
            }
        }
        lemma_digits_have_no_separators(front);
        assert(digits.last() == digits[digits.len() - 1]);
        assert(front.push(digits.last()) =~= digits);
    } else {
        assert(without_separators(digits) =~= digits);
    }
}

/// A run over bytes that are all of its class reaches their end.
proof fn lemma_run_to(s: Seq<u8>, i: int, end: int, class: Class)
    requires
        0 <= i <= end <= s.len(),
        forall|k: int| i <= k < end ==> class.has(#[trigger] s[k]),
        end < s.len() ==> !class.has(s[end]),
    ensures
        run_end(s, i, class) == end,
    decreases end - i,
{
    if i < end {
        lemma_run_to(s, i + 1, end, class);
    }
}

/// The bytes of ASCII text are its characters, one byte each.
proof fn lemma_ascii_text_bytes(text: Seq<char>)
    requires
        is_ascii_chars(text),
    ensures
        encode_utf8(text).len() == text.len(),
        forall|i: int| 0 <= i < text.len() ==> #[trigger] encode_utf8(text)[i] == text[i] as u8,
        placed(encode_utf8(text), 0),
        placed(encode_utf8(text), text.len() as int),
        vstd::utf8::decode_utf8(encode_utf8(text)) == text,
{
    is_ascii_chars_encode_utf8(text);
    encode_utf8_valid_utf8(text);
    encode_utf8_decode_utf8(text);
    is_char_boundary_start_end_of_seq(encode_utf8(text));
}

/// A text that is one number and nothing else has one token, whose lexeme is
/// the whole text.
proof fn lemma_one_number(text: Seq<char>, token: Token)
    requires
        is_ascii_chars(text),
        text.len() >= 1,
        is_digit(encode_utf8(text)[0]),
        number_at(encode_utf8(text), 0) == (token, text.len() as int),
    ensures
        tokenize(text) == seq![Lexeme { kind: Ok(token), bytes: encode_utf8(text) }],
        tokenize(text)[0].text() == text,
{
    let s = encode_utf8(text);
    let len = s.len() as int;
    lemma_ascii_text_bytes(text);
    assert(trivia_end(s, 0) == 0);
    assert(skip_trivia(s, 0) == 0);
    assert(token_at(s, 0) == (Ok::<Token, crate::lexer::LexError>(token), len));
    assert(skip_trivia(s, len) == len);
    assert(scan(s, len).item is None);
    lemma_lexemes_step(s, 0);
    lemma_lexemes_step(s, len);
    assert(s.subrange(0, len) =~= s);
    assert(lexemes(s, 0).skip(1).len() == 0);
    assert(lexemes(s, 0) =~= seq![Lexeme { kind: Ok(token), bytes: s }]);
}

/// Digits are ASCII text whose bytes are digits.
proof fn lemma_digit_bytes(digits: Seq<char>)
    requires
        is_digits(digits),
    ensures
        is_ascii_chars(digits),
        encode_utf8(digits).len() == digits.len(),
        forall|i: int| 0 <= i < digits.len() ==> is_digit(#[trigger] encode_utf8(digits)[i]),
{
    assert(is_ascii_chars(digits)) by {
        assert forall|i: int| 0 <= i < digits.len() implies '\0' <= #[trigger] digits[i]
            <= '\u{7f}' by {
            assert('0' <= digits[i] <= '9');
        }
    }
    lemma_ascii_text_bytes(digits);
    assert forall|i: int| 0 <= i < digits.len() implies is_digit(
        #[trigger] encode_utf8(digits)[i],
    ) by {
        assert('0' <= digits[i] <= '9');
        assert(encode_utf8(digits)[i] == digits[i] as u8);
    }
}

/// An expression that is one literal token and nothing else is that literal.
proof fn lemma_lone_literal(toks: Seq<Lexeme>, literal: LiteralView)
    requires
        toks.len() == 1,
        spec_primary(toks, 0) == done(ExprView::Literal(literal), 1),
    ensures
        spec_expr(toks, 0) == done(ExprView::Literal(literal), 1),
{
    assert(lookahead(toks, 1) is None);
    assert(spec_binary_rest(toks, 1, ExprView::Literal(literal), 0) == done(
        ExprView::Literal(literal),
        0,
    ));
    assert(spec_binary(toks, 0, 0) == done(ExprView::Literal(literal), 1));
}

/// Digits alone, as a whole source text, parse as the signed integer literal
/// of the number that they write, where that number fits the type.
pub proof fn law_digits_are_int_literal(digits: Seq<char>)
    requires
        digits.len() >= 1,
        is_digits(digits),
        decimal_value(digits) <= i64::MAX,
    ensures
        spec_expr(tokenize(digits), 0) == done(
            ExprView::Literal(LiteralView::Int(decimal_value(digits) as i64)),
            1,
        ),
{
    let s = encode_utf8(digits);
    let len = s.len() as int;
    lemma_digit_bytes(digits);
    lemma_run_to(s, 0, len, Class::DigitOrSeparator);
    assert(fraction_end(s, len) is None);
    assert(last_digit_end(s, 0, len) == len) by {
        assert(is_digit(s[len - 1]));
    }
    lemma_one_number(digits, Token::IntLiteral);
    lemma_digits_have_no_separators(digits);
    let toks = tokenize(digits);
    assert(int_literal(toks[0].text()) == Ok::<LiteralView, crate::error::ParseErrorView>(
        LiteralView::Int(decimal_value(digits) as i64),
    ));
    lemma_lone_literal(toks, LiteralView::Int(decimal_value(digits) as i64));
}

/// Digits with `u` behind them, as a whole source text, parse as the
/// unsigned integer literal of the number that the digits write, where that
/// number fits the type.
pub proof fn law_digits_u_are_uint_literal(digits: Seq<char>)
    requires
        digits.len() >= 1,
        is_digits(digits),
        decimal_value(digits) <= u64::MAX,
    ensures
        spec_expr(tokenize(digits.push('u')), 0) == done(
            ExprView::Literal(LiteralView::UInt(decimal_value(digits) as u64)),
            1,
        ),
{
    let text = digits.push('u');
    let s = encode_utf8(text);
    let len = s.len() as int;
    lemma_digit_bytes(digits);
    assert(is_ascii_chars(text)) by {
        assert forall|i: int| 0 <= i < text.len() implies '\0' <= #[trigger] text[i]
            <= '\u{7f}' by {
            if i < digits.len() {
                assert(text[i] == digits[i]);
                assert('0' <= digits[i] <= '9');
            }
        }
    }
    lemma_ascii_text_bytes(text);
    assert forall|k: int| 0 <= k < len - 1 implies Class::DigitOrSeparator.has(#[trigger] s[k]) by {
        assert(text[k] == digits[k]);
        assert('0' <= digits[k] <= '9');
        assert(s[k] == text[k] as u8);
    }
    assert(s[len - 1] == 'u' as u8) by {
        assert(text[len - 1] == 'u');
    }
    lemma_run_to(s, 0, len - 1, Class::DigitOrSeparator);
    assert(fraction_end(s, len - 1) is None);
    assert(last_digit_end(s, 0, len - 1) == len - 1) by {
        if len - 1 > 0 {
            assert(Class::DigitOrSeparator.has(s[len - 2]));
            assert(text[len - 2] == digits[len - 2]);
            assert('0' <= digits[len - 2] <= '9');
        }
    }
    assert(is_digit(s[0])) by {
        assert(text[0] == digits[0]);
        assert('0' <= digits[0] <= '9');
    }
    lemma_one_number(text, Token::UIntLiteral);
    lemma_digits_have_no_separators(digits);
    assert(text.drop_last() =~= digits);
    let toks = tokenize(text);
    assert(uint_literal(toks[0].text()) == Ok::<LiteralView, crate::error::ParseErrorView>(
        LiteralView::UInt(decimal_value(digits) as u64),
    ));
    lemma_lone_literal(toks, LiteralView::UInt(decimal_value(digits) as u64));
}

/// A number that is not negative, written in decimal, parses as the signed
/// integer literal of that number.
pub proof fn law_int_literal(n: i64)
    requires
        n >= 0,
    ensures
        spec_expr(tokenize(decimal_text(n as nat)), 0) == done(
            ExprView::Literal(LiteralView::Int(n)),
            1,
        ),
{
    lemma_decimal_text(n as nat);
    law_digits_are_int_literal(decimal_text(n as nat));
}

/// A number written in decimal with `u` behind it parses as the unsigned
/// integer literal of that number.
pub proof fn law_uint_literal(n: u64)
    ensures
        spec_expr(tokenize(decimal_text(n as nat).push('u')), 0) == done(
            ExprView::Literal(LiteralView::UInt(n)),
            1,
        ),
{
    lemma_decimal_text(n as nat);
    law_digits_u_are_uint_literal(decimal_text(n as nat));
}

/// Where the lookahead is no `=`, there is no initializer, and nothing is
/// consumed.
pub proof fn law_no_initializer(toks: Seq<Lexeme>, at: int)
    requires
        !stands(toks, at, Token::Equals),
    ensures
        spec_assignment(toks, at) == done::<Option<ExprView>>(None, 0),
{
}

/// The expression of the operator `op` between `left` and `right`.
pub open spec fn binary(left: ExprView, op: BinOp, right: ExprView) -> ExprView {
    ExprView::Binary { left: Box::new(left), right: Box::new(right), op }
}

/// An operand with no operator of the wanted precedence behind it is a whole
/// binary expression.
proof fn lemma_last_operand(toks: Seq<Lexeme>, at: int, operand: ExprView, min_prec: nat)
    requires
        spec_primary(toks, at) == done(operand, 1),
        operator_at(toks, at + 1, min_prec) is None,
    ensures
        spec_binary(toks, at, min_prec) == done(operand, 1),
{
    assert(spec_binary_rest(toks, at + 1, operand, min_prec) == done(operand, 0));
}

/// Two operators in a row between three operands `a`, `b` and `c`, with no
/// operator behind them: the second operator takes `b` only if it binds
/// tighter than the first. So operators of one precedence group to the left,
/// and an operator that binds tighter groups first wherever it stands.
pub proof fn law_two_operators(toks: Seq<Lexeme>, at: int, a: ExprView, b: ExprView, c: ExprView)
    requires
        spec_primary(toks, at) == done(a, 1),
        spec_primary(toks, at + 2) == done(b, 1),
        spec_primary(toks, at + 4) == done(c, 1),
        operator_at(toks, at + 1, 0) is Some,
        operator_at(toks, at + 3, 0) is Some,
        operator_at(toks, at + 5, 0) is None,
    ensures
        ({
            let (first, first_prec) = operator_at(toks, at + 1, 0)->0;
            let (second, second_prec) = operator_at(toks, at + 3, 0)->0;
            spec_expr(toks, at) == done(
                if second_prec > first_prec {
                    binary(a, first, binary(b, second, c))
                } else {
                    binary(binary(a, first, b), second, c)
                },
                5,
            )
        }),
{
    let (first, first_prec) = operator_at(toks, at + 1, 0)->0;
    let (second, second_prec) = operator_at(toks, at + 3, 0)->0;
    assert(operator_at(toks, at + 5, second_prec + 1) is None);
    assert(operator_at(toks, at + 5, first_prec + 1) is None);
    lemma_last_operand(toks, at + 4, c, second_prec + 1);
    if second_prec > first_prec {
        let inner = binary(b, second, c);
        assert(operator_at(toks, at + 3, first_prec + 1) == Some((second, second_prec)));
        assert(spec_binary_rest(toks, at + 5, inner, first_prec + 1) == done(inner, 0));
        assert(spec_binary_rest(toks, at + 3, b, first_prec + 1) == done(inner, 2));
        assert(spec_binary(toks, at + 2, first_prec + 1) == done(inner, 3));
        let whole = binary(a, first, inner);
        assert(spec_binary_rest(toks, at + 5, whole, 0) == done(whole, 0));
        assert(spec_binary_rest(toks, at + 1, a, 0) == done(whole, 4));
        assert(spec_binary(toks, at, 0) == done(whole, 5));
    } else {
        assert(operator_at(toks, at + 3, first_prec + 1) is None);
        lemma_last_operand(toks, at + 2, b, first_prec + 1);
        let inner = binary(a, first, b);
        let whole = binary(inner, second, c);
        assert(spec_binary_rest(toks, at + 5, whole, 0) == done(whole, 0));
        assert(spec_binary_rest(toks, at + 3, inner, 0) == done(whole, 2));
        assert(spec_binary_rest(toks, at + 1, a, 0) == done(whole, 4));
        assert(spec_binary(toks, at, 0) == done(whole, 5));
    }
}

/// Where the tokens end, an expression fails for want of a token.
pub proof fn law_expression_at_end(toks: Seq<Lexeme>, at: int)
    requires
        at >= toks.len(),
    ensures
        spec_expr(toks, at) == fail::<ExprView>(ParseErrorView::ExpectedToken, 0),
{
    assert(spec_primary(toks, at) == fail::<ExprView>(ParseErrorView::ExpectedToken, 0));
    assert(spec_binary(toks, at, 0) == fail::<ExprView>(ParseErrorView::ExpectedToken, 0));
}

/// An identifier with no `(` behind it is a read of its name, and no call.
pub proof fn law_identifier_read(toks: Seq<Lexeme>, at: int)
    requires
        stands(toks, at, Token::Ident),
        !stands(toks, at + 1, Token::LeftParen),
    ensures
        spec_primary(toks, at) == done(ExprView::Read(toks[at].text()), 1),
{
    assert(spec_ident(toks, at + 1, toks[at].text()) == done(
        ExprView::Read(toks[at].text()),
        0,
    ));
}

/// An identifier with `(` and `)` behind it is a call without arguments.
pub proof fn law_call_without_arguments(toks: Seq<Lexeme>, at: int)
    requires
        stands(toks, at, Token::Ident),
        stands(toks, at + 1, Token::LeftParen),
        stands(toks, at + 2, Token::RightParen),
    ensures
        spec_primary(toks, at) == done(
            ExprView::Call { callee: toks[at].text(), args: seq![] },
            3,
        ),
{
    assert(spec_call_args_rest(toks, at + 2) == done(Seq::<ExprView>::empty(), 1));
    assert(spec_args_in_call(toks, at + 1) == done(Seq::<ExprView>::empty(), 2));
    assert(spec_ident(toks, at + 1, toks[at].text()) == done(
        ExprView::Call { callee: toks[at].text(), args: seq![] },
        2,
    ));
}

/// A comma behind the last argument changes nothing but the number of
/// tokens.
pub proof fn law_trailing_comma(toks: Seq<Lexeme>, at: int, value: ExprView, n: nat)
    requires
        spec_expr(toks, at) == done(value, n),
        !stands(toks, at, Token::RightParen),
        lookahead(toks, at) is Some,
    ensures
        stands(toks, at + n, Token::RightParen) ==> spec_call_args_rest(toks, at) == done(
            seq![value],
            n + 1,
        ),
        stands(toks, at + n, Token::Comma) && stands(toks, at + n + 1, Token::RightParen)
            ==> spec_call_args_rest(toks, at) == done(seq![value], n + 2),
{
    assert(seq![value] + Seq::<ExprView>::empty() =~= seq![value]);
    if stands(toks, at + n, Token::RightParen) {
        assert(spec_call_args_rest(toks, at + n) == done(Seq::<ExprView>::empty(), 1));
    }
    if stands(toks, at + n, Token::Comma) && stands(toks, at + n + 1, Token::RightParen) {
        assert(spec_call_args_rest(toks, at + n + 1) == done(Seq::<ExprView>::empty(), 1));
    }
}

/// An expression consumes no more tokens than there are, and at least one
/// where it succeeds.
pub proof fn law_expression_stays_within_tokens(toks: Seq<Lexeme>, at: int)
    requires
        0 <= at,
    ensures
        spec_expr(toks, at).used <= left(toks, at),
        spec_expr(toks, at).result is Ok ==> spec_expr(toks, at).used >= 1,
    decreases left(toks, at), 4nat,
{
    lemma_binary_within(toks, at, 0);
}

/// The same of a binary expression.
proof fn lemma_binary_within(toks: Seq<Lexeme>, at: int, min_prec: nat)
    requires
        0 <= at,
    ensures
        spec_binary(toks, at, min_prec).used <= left(toks, at),
        spec_binary(toks, at, min_prec).result is Ok ==> spec_binary(toks, at, min_prec).used >= 1,
    decreases left(toks, at), 3nat,
{
    lemma_primary_within(toks, at);
    let first = spec_primary(toks, at);
    match first.result {
        Ok(operand) => {
            lemma_binary_rest_within(toks, at + first.used, operand, min_prec);
        },
        Err(_) => {},
    }
}

/// The same of what goes on after an operand.
proof fn lemma_binary_rest_within(toks: Seq<Lexeme>, at: int, operand: ExprView, min_prec: nat)
    requires
        0 <= at,
    ensures
        spec_binary_rest(toks, at, operand, min_prec).used <= left(toks, at),
    decreases left(toks, at), 2nat,
{
    match operator_at(toks, at, min_prec) {
        None => {},
        Some((op, prec)) => {
            lemma_binary_within(toks, at + 1, prec + 1);
            let rhs = spec_binary(toks, at + 1, prec + 1);
            match rhs.result {
                Ok(right) => {
                    lemma_binary_rest_within(
                        toks,
                        at + 1 + rhs.used,
                        binary(operand, op, right),
                        min_prec,
                    );
                },
                Err(_) => {},
            }
        },
    }
}

/// The same of a primary expression.
proof fn lemma_primary_within(toks: Seq<Lexeme>, at: int)
    requires
        0 <= at,
    ensures
        spec_primary(toks, at).used <= left(toks, at),
        spec_primary(toks, at).result is Ok ==> spec_primary(toks, at).used >= 1,
    decreases left(toks, at), 2nat,
{
    if stands(toks, at, Token::Ident) {
        lemma_ident_within(toks, at + 1, toks[at].text());
    }
}

/// The same of what follows an identifier.
proof fn lemma_ident_within(toks: Seq<Lexeme>, at: int, name: Seq<char>)
    requires
        0 <= at,
    ensures
        spec_ident(toks, at, name).used <= left(toks, at),
    decreases left(toks, at), 1nat,
{
    if stands(toks, at, Token::LeftParen) {
        lemma_args_in_call_within(toks, at);
    }
}

/// The same of the arguments of a call.
proof fn lemma_args_in_call_within(toks: Seq<Lexeme>, at: int)
    requires
        0 <= at,
    ensures
        spec_args_in_call(toks, at).used <= left(toks, at),
    decreases left(toks, at), 0nat,
{
    if stands(toks, at, Token::LeftParen) {
        lemma_call_args_rest_within(toks, at + 1);
    }
}

/// The same of the arguments up to the closing parenthesis.
proof fn lemma_call_args_rest_within(toks: Seq<Lexeme>, at: int)
    requires
        0 <= at,
    ensures
        spec_call_args_rest(toks, at).used <= left(toks, at),
    decreases left(toks, at), 5nat,
{
    if lookahead(toks, at) matches Some(Ok(token)) && token != Token::RightParen {
        law_expression_stays_within_tokens(toks, at);
        let arg = spec_expr(toks, at);
        if arg.result is Ok {
            let separator = spec_args_separator(toks, at + arg.used);
            if separator.result is Ok {
                lemma_call_args_rest_within(toks, at + arg.used + separator.used);
            }
        }
    }
}

/// Members that were all read leave no token behind.
proof fn lemma_members_consume_all(toks: Seq<Lexeme>, at: int)
    requires
        0 <= at,
    ensures
        spec_members(toks, at).result is Ok ==> at + spec_members(toks, at).used >= toks.len(),
    decreases left(toks, at),
{
    if lookahead(toks, at) is Some {
        let first = spec_group_member_statement(toks, at);
        if first.result is Ok {
            crate::grammar::lemma_member_consumes(toks, at);
            lemma_members_consume_all(toks, at + first.used);
        }
    }
}

/// A module that parses leaves no token behind: what follows its functions
/// fails the parse.
pub proof fn law_module_consumes_all(toks: Seq<Lexeme>, at: int)
    requires
        0 <= at,
    ensures
        spec_module(toks, at).result is Ok ==> at + spec_module(toks, at).used >= toks.len(),
{
    lemma_members_consume_all(toks, at);
}

/// No statement is supported yet, so a code block that parses holds none: it
/// is `{` and `}`.
pub proof fn law_code_block_is_empty(toks: Seq<Lexeme>, at: int)
    ensures
        match spec_code_block(toks, at).result {
            Ok(Some(statements)) => {
                &&& statements.len() == 0
                &&& spec_code_block(toks, at).used == 2
                &&& stands(toks, at, Token::LeftBrace)
                &&& stands(toks, at + 1, Token::RightBrace)
            },
            Ok(None) => !stands(toks, at, Token::LeftBrace) && spec_code_block(toks, at).used == 0,
            Err(_) => stands(toks, at, Token::LeftBrace),
        },
{
}

} // verus!
