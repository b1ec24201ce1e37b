//! The grammar, as functions from the token sequence to syntax trees.
//!
//! Each function reads the tokens from an index on and gives a `Step`: the
//! tree or the error, and how many tokens were consumed on the way. The
//! parser's methods are proved to compute these functions.

use vstd::prelude::*;
use vstd::utf8::decode_utf8;
use crate::ast::{
    ArgDeclView, AttributeAnnotView, BinOp, ExprView, FunDeclView, GroupMemberView, LiteralView,
    ModuleView, RuntimeStatementView, ValDeclView, VarDeclView, VisibilityAnnot,
};
use crate::error::ParseErrorView;
use crate::lexer::{LexError, Token};
use crate::scan::{Kind, Lexeme};

verus! {

/// The outcome of a grammar function: its result, and the number of tokens
/// it consumed. After an error the tokens consumed are those in front of the
/// token at which the parse failed.
pub struct Step<T> {
    pub result: Result<T, ParseErrorView>,
    pub used: nat,
}

impl<T> Step<T> {
    /// Whether the step succeeded with `value`.
    pub open spec fn gives(self, value: T) -> bool {
        self.result == Ok::<T, ParseErrorView>(value)
    }

    /// Whether the step failed with `error`.
    pub open spec fn fails(self, error: ParseErrorView) -> bool {
        self.result == Err::<T, ParseErrorView>(error)
    }
}

/// The step of a list whose first `n` tokens gave the items `front`, and
/// whose other items `rest` gives.
pub open spec fn prepend<T>(front: Seq<T>, n: nat, rest: Step<Seq<T>>) -> Step<Seq<T>> {
    Step {
        result: match rest.result {
            Ok(items) => Ok(front + items),
            Err(error) => Err(error),
        },
        used: n + rest.used,
    }
}

/// With nothing in front, a list is what is left of it.
pub proof fn lemma_prepend_nothing<T>(rest: Step<Seq<T>>)
    ensures
        prepend(Seq::<T>::empty(), 0, rest) == rest,
{
    match rest.result {
        Ok(items) => {
            assert(Seq::<T>::empty() + items =~= items);
        },
        Err(_) => {},
    }
}

/// Items in front of a list go to its front one by one.
pub proof fn lemma_prepend_push<T>(front: Seq<T>, item: T, n: nat, m: nat, rest: Step<Seq<T>>)
    ensures
        prepend(front, n, prepend(seq![item], m, rest)) == prepend(front.push(item), n + m, rest),
{
    match rest.result {
        Ok(items) => {
            assert(front + (seq![item] + items) =~= front.push(item) + items);
        },
        Err(_) => {},
    }
}

/// Where nothing is left of a list, it is the items in front.
pub proof fn lemma_prepend_end<T>(front: Seq<T>, n: nat, m: nat)
    ensures
        prepend(front, n, done(Seq::<T>::empty(), m)) == done(front, n + m),
{
    assert(front + Seq::<T>::empty() =~= front);
}

/// The step that succeeds with `value` after `used` tokens.
pub open spec fn done<T>(value: T, used: nat) -> Step<T> {
    Step { result: Ok(value), used }
}

/// The step that fails with `error` after `used` tokens.
pub open spec fn fail<T>(error: ParseErrorView, used: nat) -> Step<T> {
    Step { result: Err(error), used }
}

/// The same step after `n` more tokens in front of it.
pub open spec fn after<T>(n: nat, step: Step<T>) -> Step<T> {
    Step { result: step.result, used: n + step.used }
}

/// The number of tokens from `at` on.
pub open spec fn left(toks: Seq<Lexeme>, at: int) -> nat {
    if at <= toks.len() {
        (toks.len() - at) as nat
    } else {
        0
    }
}

/// The lookahead at `at`: the token or lexical error there, or nothing where
/// the tokens end.
pub open spec fn lookahead(toks: Seq<Lexeme>, at: int) -> Option<Kind> {
    if 0 <= at < toks.len() {
        Some(toks[at].kind)
    } else {
        None
    }
}

/// Whether the lookahead at `at` is `token`.
pub open spec fn stands(toks: Seq<Lexeme>, at: int, token: Token) -> bool {
    0 <= at < toks.len() && toks[at].kind == Ok::<Token, LexError>(token)
}

/// The lookahead where a token must stand: the end of the tokens and a
/// lexical error are failures.
pub open spec fn required(toks: Seq<Lexeme>, at: int) -> Result<Token, ParseErrorView> {
    match lookahead(toks, at) {
        None => Err(ParseErrorView::ExpectedToken),
        Some(Err(error)) => Err(ParseErrorView::ErrorToken(error)),
        Some(Ok(token)) => Ok(token),
    }
}

/// Whether the lookahead is `token`, and the failure if it is not.
pub open spec fn expected(toks: Seq<Lexeme>, at: int, token: Token) -> Result<
    (),
    ParseErrorView,
> {
    match required(toks, at) {
        Err(error) => Err(error),
        Ok(found) => if found == token {
            Ok(())
        } else {
            Err(ParseErrorView::ExpectedDifferentToken { expected: token, found })
        },
    }
}

/// The text without the character `c`.
pub open spec fn without_char(text: Seq<char>, c: char) -> Seq<char>
    decreases text.len(),
{
    if text.len() == 0 {
        seq![]
    } else if text.last() == c {
        without_char(text.drop_last(), c)
    } else {
        without_char(text.drop_last(), c).push(text.last())
    }
}

/// The text without the digit separator `_`.
pub open spec fn without_separators(text: Seq<char>) -> Seq<char> {
    without_char(text, '_')
}

/// Whether `text` holds nothing but the digits `0` to `9`.
pub open spec fn is_digits(text: Seq<char>) -> bool {
    forall|i: int| 0 <= i < text.len() ==> '0' <= #[trigger] text[i] <= '9'
}

/// The number that decimal digits write.
pub open spec fn decimal_value(digits: Seq<char>) -> nat
    decreases digits.len(),
{
    if digits.len() == 0 {
        0
    } else {
        (decimal_value(digits.drop_last()) * 10 + (digits.last() as int - '0' as int)) as nat
    }
}

/// The value of a signed integer literal: its digits read as a decimal
/// number, if that fits 64 bits with sign.
pub open spec fn int_literal(text: Seq<char>) -> Result<LiteralView, ParseErrorView> {
    let value = decimal_value(without_separators(text));
    if value <= i64::MAX {
        Ok(LiteralView::Int(value as i64))
    } else {
        Err(ParseErrorView::ParseInt)
    }
}

/// The value of an unsigned integer literal: its digits, without the `u` at
/// the end, read as a decimal number, if that fits 64 bits.
pub open spec fn uint_literal(text: Seq<char>) -> Result<LiteralView, ParseErrorView> {
    let value = decimal_value(without_separators(text.drop_last()));
    if value <= u64::MAX {
        Ok(LiteralView::UInt(value as u64))
    } else {
        Err(ParseErrorView::ParseInt)
    }
}

/// A float literal keeps its text without separators.
pub open spec fn float_literal(text: Seq<char>) -> LiteralView {
    LiteralView::Float(without_separators(text))
}

/// A string literal stands for the text between its quotes, escapes as
/// written.
pub open spec fn str_literal(bytes: Seq<u8>) -> LiteralView {
    LiteralView::Str(decode_utf8(bytes.subrange(1, bytes.len() - 1)))
}

/// A literal as the step of one token: consumed whether or not its digits
/// fit.
pub open spec fn literal_step(literal: Result<LiteralView, ParseErrorView>) -> Step<ExprView> {
    match literal {
        Ok(value) => done(ExprView::Literal(value), 1),
        Err(error) => fail(error, 1),
    }
}

/// The binary operator that a token writes, with its precedence. A higher
/// precedence binds tighter.
pub open spec fn binary_op(token: Token) -> Option<(BinOp, nat)> {
    match token {
        Token::Equals => Some((BinOp::Assign, 1)),
        Token::EqualsEquals => Some((BinOp::Equals, 2)),
        Token::NotEquals => Some((BinOp::NotEquals, 2)),
        Token::GreaterThanEquals => Some((BinOp::GreaterEqual, 2)),
        Token::LessThanEquals => Some((BinOp::LowerEqual, 2)),
        Token::GreaterThan => Some((BinOp::Greater, 3)),
        Token::LessThan => Some((BinOp::Lower, 3)),
        Token::Plus => Some((BinOp::Add, 4)),
        Token::Minus => Some((BinOp::Sub, 4)),
        Token::Star => Some((BinOp::Mul, 5)),
        Token::Slash => Some((BinOp::Div, 5)),
        Token::Percent => Some((BinOp::Mod, 5)),
        _ => None,
    }
}

/// The operator at `at` that an expression of precedence `min_prec` or more
/// goes on with.
pub open spec fn operator_at(toks: Seq<Lexeme>, at: int, min_prec: nat) -> Option<(BinOp, nat)> {
    match lookahead(toks, at) {
        Some(Ok(token)) => match binary_op(token) {
            Some((op, prec)) => if prec >= min_prec {
                Some((op, prec))
            } else {
                None
            },
            None => None,
        },
        _ => None,
    }
}

/// An expression: a binary expression of any precedence.
pub open spec fn spec_expr(toks: Seq<Lexeme>, at: int) -> Step<ExprView>
    decreases left(toks, at), 4nat,
{
    spec_binary(toks, at, 0)
}

/// A binary expression whose operators have precedence `min_prec` or more: a
/// primary expression, then operators and right-hand sides as long as there
/// are such operators.
pub open spec fn spec_binary(toks: Seq<Lexeme>, at: int, min_prec: nat) -> Step<ExprView>
    decreases left(toks, at), 3nat,
{
    let first = spec_primary(toks, at);
    match first.result {
        Err(error) => first,
        Ok(operand) => after(first.used, spec_binary_rest(toks, at + first.used, operand, min_prec)),
    }
}

/// Goes on after the operand `operand`. Each right-hand side takes only
/// operators that bind tighter than the one in front of it, so operators of
/// one precedence group to the left.
pub open spec fn spec_binary_rest(
    toks: Seq<Lexeme>,
    at: int,
    operand: ExprView,
    min_prec: nat,
) -> Step<ExprView>
    decreases left(toks, at), 2nat,
{
    match operator_at(toks, at, min_prec) {
        None => done(operand, 0),
        Some((op, prec)) => {
            let rhs = spec_binary(toks, at + 1, prec + 1);
            match rhs.result {
                Err(error) => after(1, rhs),
                Ok(right) => after(
                    1 + rhs.used,
                    spec_binary_rest(
                        toks,
                        at + 1 + rhs.used,
                        ExprView::Binary { left: Box::new(operand), right: Box::new(right), op },
                        min_prec,
                    ),
                ),
            }
        },
    }
}

/// A primary expression: a literal, or an identifier with what follows it.
/// Any other token is unexpected and stays.
pub open spec fn spec_primary(toks: Seq<Lexeme>, at: int) -> Step<ExprView>
    decreases left(toks, at), 2nat,
{
    match required(toks, at) {
        Err(error) => fail(error, 0),
        Ok(Token::IntLiteral) => literal_step(int_literal(toks[at].text())),
        Ok(Token::UIntLiteral) => literal_step(uint_literal(toks[at].text())),
        Ok(Token::FloatLiteral) => literal_step(Ok(float_literal(toks[at].text()))),
        Ok(Token::StrLiteral) => literal_step(Ok(str_literal(toks[at].bytes))),
        Ok(Token::Ident) => after(1, spec_ident(toks, at + 1, toks[at].text())),
        Ok(token) => fail(ParseErrorView::UnexpectedToken(token), 0),
    }
}

/// What the identifier `name` in front of `at` is: a call if `(` follows,
/// else a read, whatever follows.
pub open spec fn spec_ident(toks: Seq<Lexeme>, at: int, name: Seq<char>) -> Step<ExprView>
    decreases left(toks, at), 1nat,
{
    match lookahead(toks, at) {
        Some(Ok(Token::LeftParen)) => {
            let args = spec_args_in_call(toks, at);
            match args.result {
                Ok(list) => done(ExprView::Call { callee: name, args: list }, args.used),
                Err(error) => fail(error, args.used),
            }
        },
        _ => done(ExprView::Read(name), 0),
    }
}

/// The arguments of a call, in parentheses.
pub open spec fn spec_args_in_call(toks: Seq<Lexeme>, at: int) -> Step<Seq<ExprView>>
    decreases left(toks, at), 0nat,
{
    match expected(toks, at, Token::LeftParen) {
        Err(error) => fail(error, 0),
        Ok(_) => after(1, spec_call_args_rest(toks, at + 1)),
    }
}

/// What stands behind an argument: a comma, which is consumed, or the
/// closing parenthesis, which stays. Any other token is a mismatch.
pub open spec fn spec_args_separator(toks: Seq<Lexeme>, at: int) -> Step<()> {
    match required(toks, at) {
        Err(error) => fail(error, 0),
        Ok(Token::Comma) => done((), 1),
        Ok(Token::RightParen) => done((), 0),
        Ok(found) => fail(
            ParseErrorView::ExpectedDifferentTokens {
                expected: seq![Token::Comma, Token::RightParen],
                found,
            },
            0,
        ),
    }
}

/// The arguments from `at` to the closing parenthesis: expressions with a
/// comma between them; one more comma may follow the last.
pub open spec fn spec_call_args_rest(toks: Seq<Lexeme>, at: int) -> Step<Seq<ExprView>>
    decreases left(toks, at), 5nat,
{
    match required(toks, at) {
        Err(error) => fail(error, 0),
        Ok(Token::RightParen) => done(seq![], 1),
        Ok(_) => {
            let arg = spec_expr(toks, at);
            match arg.result {
                Err(error) => fail(error, arg.used),
                Ok(value) => {
                    let separator = spec_args_separator(toks, at + arg.used);
                    let used = arg.used + separator.used;
                    match separator.result {
                        Err(error) => fail(error, used),
                        Ok(_) => prepend(seq![value], used, spec_call_args_rest(toks, at + used)),
                    }
                },
            }
        },
    }
}

/// An initializer: `=` and an expression, or nothing where no `=` stands.
pub open spec fn spec_assignment(toks: Seq<Lexeme>, at: int) -> Step<Option<ExprView>> {
    match lookahead(toks, at) {
        Some(Ok(Token::Equals)) => {
            let value = spec_expr(toks, at + 1);
            match value.result {
                Ok(expr) => done(Some(expr), 1 + value.used),
                Err(error) => fail(error, 1 + value.used),
            }
        },
        _ => done(None, 0),
    }
}

/// A type annotation: `:` and the type's name, or nothing where no `:`
/// stands.
pub open spec fn spec_type_annot(toks: Seq<Lexeme>, at: int) -> Step<Option<Seq<char>>> {
    match lookahead(toks, at) {
        Some(Ok(Token::Colon)) => match expected(toks, at + 1, Token::Ident) {
            Err(error) => fail(error, 1),
            Ok(_) => done(Some(toks[at + 1].text()), 2),
        },
        _ => done(None, 0),
    }
}

/// A visibility: `pub` or `priv`, or the default where neither stands.
pub open spec fn spec_visibility_annot(toks: Seq<Lexeme>, at: int) -> Step<VisibilityAnnot> {
    match lookahead(toks, at) {
        Some(Ok(Token::Pub)) => done(VisibilityAnnot::Public, 1),
        Some(Ok(Token::Priv)) => done(VisibilityAnnot::Private, 1),
        _ => done(VisibilityAnnot::Default, 0),
    }
}

/// An attribute: `@`, its name, and arguments as of a call if `(` follows;
/// nothing where no `@` stands.
pub open spec fn spec_attribute_annot(toks: Seq<Lexeme>, at: int) -> Step<
    Option<AttributeAnnotView>,
> {
    match lookahead(toks, at) {
        Some(Ok(Token::At)) => match expected(toks, at + 1, Token::Ident) {
            Err(error) => fail(error, 1),
            Ok(_) => {
                let name = toks[at + 1].text();
                match lookahead(toks, at + 2) {
                    Some(Ok(Token::LeftParen)) => {
                        let args = spec_args_in_call(toks, at + 2);
                        match args.result {
                            Ok(list) => done(
                                Some(AttributeAnnotView { name, args: list }),
                                2 + args.used,
                            ),
                            Err(error) => fail(error, 2 + args.used),
                        }
                    },
                    _ => done(Some(AttributeAnnotView { name, args: seq![] }), 2),
                }
            },
        },
        _ => done(None, 0),
    }
}

/// An attribute that was read consumed its `@`.
pub proof fn lemma_attribute_consumes(toks: Seq<Lexeme>, at: int)
    ensures
        spec_attribute_annot(toks, at).result matches Ok(Some(_)) ==> spec_attribute_annot(
            toks,
            at,
        ).used >= 2 && 0 <= at < toks.len(),
{
}

/// Attributes as long as `@` stands.
pub open spec fn spec_attribute_annots(toks: Seq<Lexeme>, at: int) -> Step<
    Seq<AttributeAnnotView>,
>
    decreases left(toks, at),
{
    let first = spec_attribute_annot(toks, at);
    match first.result {
        Err(error) => fail(error, first.used),
        Ok(None) => done(seq![], first.used),
        Ok(Some(annot)) => {
            proof {
                lemma_attribute_consumes(toks, at);
            }
            let rest = spec_attribute_annots(toks, at + first.used);
            match rest.result {
                Err(error) => fail(error, first.used + rest.used),
                Ok(annots) => done(seq![annot] + annots, first.used + rest.used),
            }
        },
    }
}

/// The declared arguments of a function, in parentheses.
pub open spec fn spec_args_in_decl(toks: Seq<Lexeme>, at: int) -> Step<Seq<ArgDeclView>> {
    match expected(toks, at, Token::LeftParen) {
        Err(error) => fail(error, 0),
        Ok(_) => after(1, spec_decl_args_rest(toks, at + 1)),
    }
}

/// The declared arguments from `at` to the closing parenthesis: a name and
/// its type annotation each, with a comma between them; one more comma may
/// follow the last.
pub open spec fn spec_decl_args_rest(toks: Seq<Lexeme>, at: int) -> Step<Seq<ArgDeclView>>
    decreases left(toks, at),
{
    match required(toks, at) {
        Err(error) => fail(error, 0),
        Ok(Token::RightParen) => done(seq![], 1),
        Ok(Token::Ident) => {
            let annot = spec_type_annot(toks, at + 1);
            match annot.result {
                Err(error) => fail(error, 1 + annot.used),
                Ok(None) => fail(ParseErrorView::MissingTypeAnnot, 1 + annot.used),
                Ok(Some(type_annot)) => {
                    let arg = ArgDeclView {
                        attributes: seq![],
                        name: toks[at].text(),
                        type_annot,
                    };
                    let separator = spec_args_separator(toks, at + 1 + annot.used);
                    let used = 1 + annot.used + separator.used;
                    match separator.result {
                        Err(error) => fail(error, used),
                        Ok(_) => prepend(seq![arg], used, spec_decl_args_rest(toks, at + used)),
                    }
                },
            }
        },
        Ok(token) => fail(ParseErrorView::UnexpectedToken(token), 0),
    }
}

/// A statement of a code block. None is supported yet: `val` says so, any
/// other token is unexpected.
pub open spec fn spec_runtime_statement(toks: Seq<Lexeme>, at: int) -> Step<RuntimeStatementView> {
    match required(toks, at) {
        Err(error) => fail(error, 0),
        Ok(Token::Val) => fail(ParseErrorView::Unsupported(Token::Val), 0),
        Ok(token) => fail(ParseErrorView::UnexpectedToken(token), 0),
    }
}

/// The statements from `at` to the closing brace, each with `;` behind it.
pub open spec fn spec_statements_rest(toks: Seq<Lexeme>, at: int) -> Step<
    Seq<RuntimeStatementView>,
>
    decreases left(toks, at),
{
    match required(toks, at) {
        Err(error) => fail(error, 0),
        Ok(Token::RightBrace) => done(seq![], 1),
        Ok(_) => {
            let first = spec_runtime_statement(toks, at);
            match first.result {
                Err(error) => fail(error, first.used),
                Ok(statement) => match expected(toks, at + first.used, Token::Semicolon) {
                    Err(error) => fail(error, first.used),
                    Ok(_) => {
                        let rest = spec_statements_rest(toks, at + first.used + 1);
                        match rest.result {
                            Err(error) => fail(error, first.used + 1 + rest.used),
                            Ok(statements) => done(
                                seq![statement] + statements,
                                first.used + 1 + rest.used,
                            ),
                        }
                    },
                },
            }
        },
    }
}

/// A code block in braces, or nothing where no `{` stands.
pub open spec fn spec_code_block(toks: Seq<Lexeme>, at: int) -> Step<
    Option<Seq<RuntimeStatementView>>,
> {
    match lookahead(toks, at) {
        Some(Ok(Token::LeftBrace)) => {
            let body = spec_statements_rest(toks, at + 1);
            match body.result {
                Err(error) => fail(error, 1 + body.used),
                Ok(statements) => done(Some(statements), 1 + body.used),
            }
        },
        _ => done(None, 0),
    }
}

/// A function declaration: `fun`, a name or none, the declared arguments, a
/// return type or none, and the code block, which is mandatory.
pub open spec fn spec_fun_decl(toks: Seq<Lexeme>, at: int) -> Step<FunDeclView> {
    match expected(toks, at, Token::Fun) {
        Err(error) => fail(error, 0),
        Ok(_) => {
            let named = stands(toks, at + 1, Token::Ident);
            let name = if named {
                Some(toks[at + 1].text())
            } else {
                None
            };
            let n: nat = if named {
                2
            } else {
                1
            };
            let args = spec_args_in_decl(toks, at + n);
            match args.result {
                Err(error) => fail(error, n + args.used),
                Ok(arg_list) => {
                    let n = n + args.used;
                    let ret = spec_type_annot(toks, at + n);
                    match ret.result {
                        Err(error) => fail(error, n + ret.used),
                        Ok(ret_type) => {
                            let n = n + ret.used;
                            let block = spec_code_block(toks, at + n);
                            match block.result {
                                Err(error) => fail(error, n + block.used),
                                Ok(None) => fail(ParseErrorView::MissingCodeBlock, n + block.used),
                                Ok(Some(code)) => done(
                                    FunDeclView {
                                        attributes: seq![],
                                        visibility: VisibilityAnnot::Default,
                                        name,
                                        ret_type,
                                        args: arg_list,
                                        code,
                                    },
                                    n + block.used,
                                ),
                            }
                        },
                    }
                },
            }
        },
    }
}

/// An immutable binding: `val`, its name, a type annotation or none, an
/// initializer or none.
pub open spec fn spec_immutable_variable_decl(toks: Seq<Lexeme>, at: int) -> Step<ValDeclView> {
    match expected(toks, at, Token::Val) {
        Err(error) => fail(error, 0),
        Ok(_) => match expected(toks, at + 1, Token::Ident) {
            Err(error) => fail(error, 1),
            Ok(_) => {
                let annot = spec_type_annot(toks, at + 2);
                match annot.result {
                    Err(error) => fail(error, 2 + annot.used),
                    Ok(type_annot) => {
                        let n = 2 + annot.used;
                        let init = spec_assignment(toks, at + n);
                        match init.result {
                            Err(error) => fail(error, n + init.used),
                            Ok(initial_assignment) => done(
                                ValDeclView {
                                    attributes: seq![],
                                    visibility: VisibilityAnnot::Default,
                                    name: toks[at + 1].text(),
                                    type_annot,
                                    initial_assignment,
                                },
                                n + init.used,
                            ),
                        }
                    },
                }
            },
        },
    }
}

/// A mutable binding: attributes, `var`, its name, and a type annotation and
/// an initializer, which are both mandatory.
pub open spec fn spec_var_decl(toks: Seq<Lexeme>, at: int) -> Step<VarDeclView> {
    let annots = spec_attribute_annots(toks, at);
    match annots.result {
        Err(error) => fail(error, annots.used),
        Ok(attributes) => {
            let n = annots.used;
            match expected(toks, at + n, Token::Var) {
                Err(error) => fail(error, n),
                Ok(_) => match expected(toks, at + n + 1, Token::Ident) {
                    Err(error) => fail(error, n + 1),
                    Ok(_) => {
                        let annot = spec_type_annot(toks, at + n + 2);
                        let m = n + 2 + annot.used;
                        match annot.result {
                            Err(error) => fail(error, m),
                            Ok(None) => fail(ParseErrorView::MissingTypeAnnot, m),
                            Ok(Some(type_annot)) => {
                                let init = spec_assignment(toks, at + m);
                                match init.result {
                                    Err(error) => fail(error, m + init.used),
                                    Ok(None) => fail(
                                        ParseErrorView::MissingAssignment,
                                        m + init.used,
                                    ),
                                    Ok(Some(initial_assignment)) => done(
                                        VarDeclView {
                                            attributes,
                                            visibility: VisibilityAnnot::Default,
                                            name: toks[at + n + 1].text(),
                                            type_annot,
                                            initial_assignment,
                                        },
                                        m + init.used,
                                    ),
                                }
                            },
                        }
                    },
                },
            }
        },
    }
}

/// A member of a module: a function declaration. Classes and immutable
/// bindings are not supported yet; any other token is unexpected.
pub open spec fn spec_group_member_statement(toks: Seq<Lexeme>, at: int) -> Step<GroupMemberView> {
    match required(toks, at) {
        Err(error) => fail(error, 0),
        Ok(Token::Fun) => {
            let decl = spec_fun_decl(toks, at);
            match decl.result {
                Err(error) => fail(error, decl.used),
                Ok(fun) => done(GroupMemberView::Fun(fun), decl.used),
            }
        },
        Ok(Token::Val) => fail(ParseErrorView::Unsupported(Token::Val), 0),
        Ok(Token::Class) => fail(ParseErrorView::Unsupported(Token::Class), 0),
        Ok(token) => fail(ParseErrorView::UnexpectedToken(token), 0),
    }
}

/// A member that was read consumed at least its first token.
pub proof fn lemma_member_consumes(toks: Seq<Lexeme>, at: int)
    ensures
        spec_group_member_statement(toks, at).result is Ok ==> spec_group_member_statement(
            toks,
            at,
        ).used >= 1 && 0 <= at < toks.len(),
{
}

/// The members from `at` to the end of the tokens.
pub open spec fn spec_members(toks: Seq<Lexeme>, at: int) -> Step<Seq<GroupMemberView>>
    decreases left(toks, at),
{
    if lookahead(toks, at) is None {
        done(seq![], 0)
    } else {
        let first = spec_group_member_statement(toks, at);
        match first.result {
            Err(error) => fail(error, first.used),
            Ok(member) => {
                proof {
                    lemma_member_consumes(toks, at);
                }
                let rest = spec_members(toks, at + first.used);
                match rest.result {
                    Err(error) => fail(error, first.used + rest.used),
                    Ok(members) => done(seq![member] + members, first.used + rest.used),
                }
            },
        }
    }
}

/// A module: members until the tokens end.
pub open spec fn spec_module(toks: Seq<Lexeme>, at: int) -> Step<ModuleView> {
    let members = spec_members(toks, at);
    match members.result {
        Err(error) => fail(error, members.used),
        Ok(decls) => done(ModuleView { decls }, members.used),
    }
}

} // verus!
