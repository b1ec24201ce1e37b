//! The recursive-descent parser: one token of lookahead, no backtracking, no
//! recovery. The first failure ends the parse.

use vstd::prelude::*;
use vstd::string::StringSliceAdditionalSpecFns;
use vstd::utf8::decode_utf8;
use crate::ast::{
    arg_decls_of, attributes_of, expr_of, exprs_of, lemma_call_view, members_of, statements_of,
    text_of,
};
pub use crate::ast::{
    ArgDecl, AttributeAnnot, BinOp, ClassDeclStatement, ClassMemberStatement, Expr,
    FunDeclStatement, GroupMemberStatement, IfExpr, LiteralExpr, Module, RuntimeStatement,
    UnaryOp, ValDeclStatement, VarDeclStatement, VisibilityAnnot,
};
pub use crate::error::ParseError;
use crate::error::ParseErrorView;
use crate::grammar::{
    after, binary_op, expected, left, lemma_attribute_consumes,
    lemma_member_consumes, lemma_prepend_end, lemma_prepend_nothing, lemma_prepend_push,
    lookahead, operator_at, prepend, required, spec_args_in_call, spec_args_in_decl,
    spec_args_separator, spec_assignment, spec_attribute_annot, spec_attribute_annots, spec_binary,
    spec_binary_rest, spec_call_args_rest, spec_code_block, spec_decl_args_rest, spec_expr,
    spec_fun_decl, spec_group_member_statement, spec_ident, spec_immutable_variable_decl,
    spec_members, spec_module, spec_primary, spec_runtime_statement, spec_statements_rest,
    spec_type_annot, spec_var_decl, spec_visibility_annot, stands,
};
use crate::lexer::{Lexer, Token};
use crate::literal::{
    lemma_number_bytes_text, lemma_unsigned_bytes_text, parse_float_literal, parse_int_literal,
    parse_str_literal, parse_uint_literal,
};
use crate::scan::{
    lemma_lexemes_shaped, lemma_lexemes_step, lemma_scan, lexemes, placed, scan, shaped,
    tokenize, Kind, Lexeme, Scan,
};

verus! {

/// The binary operator that a token writes, with its precedence.
fn binary_operator(token: Token) -> (found: Option<(BinOp, u8)>)
    ensures
        match found {
            Some((op, prec)) => binary_op(token) == Some((op, prec as nat)) && prec <= 5,
            None => binary_op(token) is None,
        },
{
    match token {
        Token::Equals => Some((BinOp::Assign, 1)),
        Token::EqualsEquals => Some((BinOp::Equals, 2)),
        Token::NotEquals => Some((BinOp::NotEquals, 2)),
        Token::GreaterThanEquals => Some((BinOp::GreaterEqual, 2)),
        Token::LessThanEquals => Some((BinOp::LowerEqual, 2)),
        Token::GreaterThan => Some((BinOp::Greater, 3)),
        Token::LessThan => Some((BinOp::Lower, 3)),
        Token::Plus => Some((BinOp::Add, 4)),
        Token::Minus => Some((BinOp::Sub, 4)),
        Token::Star => Some((BinOp::Mul, 5)),
        Token::Slash => Some((BinOp::Div, 5)),
        Token::Percent => Some((BinOp::Mod, 5)),
        _ => None,
    }
}

/// The two tokens that may follow an argument.
fn comma_or_paren() -> (tokens: Vec<Token>)
    ensures
        tokens@ == seq![Token::Comma, Token::RightParen],
{
    let mut tokens: Vec<Token> = Vec::new();
    tokens.push(Token::Comma);
    tokens.push(Token::RightParen);
    assert(tokens@ =~= seq![Token::Comma, Token::RightParen]);
    tokens
}

/// A parser over one source text.
///
/// It holds the lexer and at most one token that was looked at and not yet
/// consumed. In contracts its state is the sequence of all tokens of the
/// text, `tokens`, and the number of them consumed so far, `index`.
pub struct Parser<'source> {
    lexer: Lexer<'source>,
    peeked: Option<Kind>,
    consumed: Ghost<nat>,
}

impl<'source> Parser<'source> {
    /// All that the lexer yields for the source text.
    pub closed spec fn tokens(&self) -> Seq<Lexeme> {
        lexemes(self.lexer.text(), 0)
    }

    /// The number of tokens consumed so far.
    pub closed spec fn index(&self) -> int {
        self.consumed@ as int
    }

    /// The bytes of the lexeme that the lexer stands on: that of the token
    /// last looked at or consumed.
    pub closed spec fn lexeme(&self) -> Seq<u8> {
        self.lexer.text().subrange(self.lexer.start(), self.lexer.end())
    }

    /// The offset from which the tokens not yet consumed are read.
    spec fn resume(&self) -> int {
        if self.peeked is Some {
            self.lexer.start()
        } else {
            self.lexer.end()
        }
    }

    /// The lexer stands where `index` tokens have been read, and the token
    /// held back, if any, is the next one.
    #[verifier::opaque]
    pub closed spec fn wf(&self) -> bool {
        &&& self.lexer.wf()
        &&& self.consumed@ <= self.tokens().len()
        &&& lexemes(self.lexer.text(), self.resume()) == self.tokens().skip(self.consumed@ as int)
        &&& match self.peeked {
            Some(kind) => scan(self.lexer.text(), self.lexer.start()) == (Scan {
                item: Some(kind),
                start: self.lexer.start(),
                end: self.lexer.end(),
            }),
            None => true,
        }
    }

    /// Whether `self` is what `before` is after `used` more tokens.
    pub open spec fn follows(&self, before: Self, used: nat) -> bool {
        &&& self.wf()
        &&& self.tokens() == before.tokens()
        &&& self.index() == before.index() + used
    }

    /// The index lies in the tokens or at their end.
    pub proof fn lemma_wf(&self)
        requires
            self.wf(),
        ensures
            0 <= self.index() <= self.tokens().len(),
    {
        reveal(Parser::wf);
    }

    /// Each token has the shape of its kind.
    pub proof fn lemma_token_shaped(&self, i: int)
        requires
            self.wf(),
            0 <= i < self.tokens().len(),
        ensures
            shaped(self.tokens()[i]),
    {
        reveal(Parser::wf);
        lemma_lexemes_shaped(self.lexer.text(), 0, i);
    }

    /// A parser at the start of `source`.
    pub fn new(source: &'source str) -> (parser: Self)
        ensures
            parser.wf(),
            parser.tokens() == tokenize(source@),
            parser.index() == 0,
    {
        let lexer = Lexer::new(source);
        let parser = Parser { lexer, peeked: None, consumed: Ghost(0) };
        proof {
            reveal(Parser::wf);
            assert(parser.tokens().skip(0) =~= parser.tokens());
        }
        parser
    }

    /// The lookahead: the next token or lexical error, or nothing where the
    /// text ends. Nothing is consumed.
    pub fn peek(&mut self) -> (item: Option<Kind>)
        requires
            old(self).wf(),
        ensures
            final(self).follows(*old(self), 0),
            item == lookahead(old(self).tokens(), old(self).index()),
            item is Some ==> final(self).lexeme() == old(self).tokens()[old(self).index()].bytes,
    {
        self.fill()
    }

    /// Reads the lookahead into its slot, unless it is there, and gives it.
    fn fill(&mut self) -> (item: Option<Kind>)
        requires
            old(self).wf(),
        ensures
            final(self).follows(*old(self), 0),
            final(self).peeked == item,
            item == lookahead(old(self).tokens(), old(self).index()),
            item is Some ==> final(self).lexeme() == old(self).tokens()[old(self).index()].bytes,
    {
        proof {
            reveal(Parser::wf);
        }
        let ghost text = self.lexer.text();
        let ghost toks = self.tokens();
        let ghost at = self.consumed@ as int;
        match self.peeked {
            Some(kind) => {
                proof {
                    lemma_lexemes_step(text, self.lexer.start());
                    assert(toks.skip(at)[0] == toks[at]);
                }
                Some(kind)
            },
            None => {
                let ghost from = self.lexer.end();
                proof {
                    lemma_scan(text, from);
                    lemma_lexemes_step(text, from);
                }
                let item = self.lexer.next();
                match item {
                    Some(kind) => {
                        self.peeked = Some(kind);
                        proof {
                            assert(toks.skip(at)[0] == toks[at]);
                        }
                    },
                    None => {
                        proof {
                            assert(toks.skip(at).len() == 0);
                        }
                    },
                }
                item
            },
        }
    }

    /// Consumes the lookahead and gives it; at the end of the text it gives
    /// nothing and consumes nothing.
    pub fn advance(&mut self) -> (item: Option<Kind>)
        requires
            old(self).wf(),
        ensures
            final(self).follows(
                *old(self),
                if item is Some {
                    1nat
                } else {
                    0nat
                },
            ),
            item == lookahead(old(self).tokens(), old(self).index()),
            item is Some ==> final(self).lexeme() == old(self).tokens()[old(self).index()].bytes,
    {
        let item = self.fill();
        proof {
            reveal(Parser::wf);
        }
        let ghost text = self.lexer.text();
        let ghost toks = self.tokens();
        let ghost at = self.consumed@ as int;
        if item.is_some() {
            proof {
                lemma_lexemes_step(text, self.lexer.start());
                assert(toks.skip(at).len() >= 1);
                assert(toks.skip(at).skip(1) =~= toks.skip(at + 1));
            }
            self.peeked = None;
            self.consumed = Ghost((at + 1) as nat);
        }
        item
    }

    /// The text of the token last looked at or consumed.
    pub fn slice(&self) -> (text: &'source str)
        requires
            self.wf(),
        ensures
            text.spec_bytes() == self.lexeme(),
            text@ == decode_utf8(self.lexeme()),
    {
        proof {
            reveal(Parser::wf);
        }
        self.lexer.slice()
    }

    /// The lookahead where a token must stand. Nothing is consumed.
    fn peek_or_error(&mut self) -> (result: Result<Token, ParseError>)
        requires
            old(self).wf(),
        ensures
            final(self).follows(*old(self), 0),
            match result {
                Ok(token) => required(old(self).tokens(), old(self).index()) == Ok::<
                    Token,
                    ParseErrorView,
                >(token) && final(self).lexeme() == old(self).tokens()[old(self).index()].bytes,
                Err(error) => required(old(self).tokens(), old(self).index()) == Err::<
                    Token,
                    ParseErrorView,
                >(error@),
            },
    {
        match self.peek() {
            None => Err(ParseError::ExpectedToken),
            Some(Err(error)) => Err(ParseError::from(error)),
            Some(Ok(token)) => Ok(token),
        }
    }

    /// Checks that the lookahead is `token`. Nothing is consumed, whether it
    /// is or not.
    pub fn expect(&mut self, token: Token) -> (result: Result<(), ParseError>)
        requires
            old(self).wf(),
        ensures
            final(self).follows(*old(self), 0),
            match result {
                Ok(_) => expected(old(self).tokens(), old(self).index(), token) is Ok && stands(
                    old(self).tokens(),
                    old(self).index(),
                    token,
                ) && final(self).lexeme() == old(self).tokens()[old(self).index()].bytes,
                Err(error) => expected(old(self).tokens(), old(self).index(), token) == Err::<
                    (),
                    ParseErrorView,
                >(error@),
            },
    {
        match self.peek_or_error() {
            Err(error) => Err(error),
            Ok(found) => if found == token {
                Ok(())
            } else {
                Err(ParseError::ExpectedDifferentToken { expected: token, found })
            },
        }
    }

    /// Parses a visibility: `pub` or `priv`. Any other lookahead, and the end
    /// of the text, give the default and consume nothing.
    pub fn parse_visibility_annot(&mut self) -> (result: Result<VisibilityAnnot, ParseError>)
        requires
            old(self).wf(),
        ensures
            ({
                let step = spec_visibility_annot(old(self).tokens(), old(self).index());
                &&& final(self).follows(*old(self), step.used)
                &&& match result {
                    Ok(visibility) => step.gives(visibility),
                    Err(error) => step.fails(error@),
                }
            }),
    {
        match self.peek() {
            Some(Ok(Token::Pub)) => {
                self.advance();
                Ok(VisibilityAnnot::Public)
            },
            Some(Ok(Token::Priv)) => {
                self.advance();
                Ok(VisibilityAnnot::Private)
            },
            _ => Ok(VisibilityAnnot::Default),
        }
    }

    /// Parses a type annotation: `:` and the type's name. Where no `:`
    /// stands there is none, and nothing is consumed.
    pub fn parse_type_annot(&mut self) -> (result: Result<Option<String>, ParseError>)
        requires
            old(self).wf(),
        ensures
            ({
                let step = spec_type_annot(old(self).tokens(), old(self).index());
                &&& final(self).follows(*old(self), step.used)
                &&& match result {
                    Ok(name) => step.gives(text_of(name)),
                    Err(error) => step.fails(error@),
                }
            }),
    {
        match self.peek() {
            Some(Ok(Token::Colon)) => {
                self.advance();
                match self.expect(Token::Ident) {
                    Err(error) => Err(error),
                    Ok(_) => {
                        let name = self.slice().to_owned();
                        self.advance();
                        Ok(Some(name))
                    },
                }
            },
            _ => Ok(None),
        }
    }

    /// Parses an expression.
    pub fn parse_expr(&mut self) -> (result: Result<Expr, ParseError>)
        requires
            old(self).wf(),
        ensures
            ({
                let step = spec_expr(old(self).tokens(), old(self).index());
                &&& final(self).follows(*old(self), step.used)
                &&& match result {
                    Ok(expr) => step.gives(expr@),
                    Err(error) => step.fails(error@),
                }
            }),
        decreases left(old(self).tokens(), old(self).index()), 4nat,
    {
        self.parse_binary_expr(0)
    }

    /// Parses a binary expression whose operators have the precedence
    /// `min_prec` or more.
    fn parse_binary_expr(&mut self, min_prec: u8) -> (result: Result<Expr, ParseError>)
        requires
            old(self).wf(),
            min_prec <= 6,
        ensures
            ({
                let step = spec_binary(old(self).tokens(), old(self).index(), min_prec as nat);
                &&& final(self).follows(*old(self), step.used)
                &&& match result {
                    Ok(expr) => step.gives(expr@),
                    Err(error) => step.fails(error@),
                }
            }),
        decreases left(old(self).tokens(), old(self).index()), 3nat,
    {
        let ghost toks = self.tokens();
        let ghost start = self.index();
        proof {
            self.lemma_wf();
        }
        let mut operand = match self.parse_primary_expr() {
            Ok(expr) => expr,
            Err(error) => {
                return Err(error);
            },
        };
        loop
            invariant
                self.wf(),
                self.tokens() == toks,
                toks == old(self).tokens(),
                start == old(self).index(),
                0 <= start <= self.index(),
                min_prec <= 6,
                spec_binary(toks, start, min_prec as nat) == after(
                    (self.index() - start) as nat,
                    spec_binary_rest(toks, self.index(), operand@, min_prec as nat),
                ),
            decreases left(toks, self.index()),
        {
            let ghost at = self.index();
            proof {
                self.lemma_wf();
            }
            let next = match self.peek() {
                Some(Ok(token)) => match binary_operator(token) {
                    Some((op, prec)) => if prec >= min_prec {
                        Some((op, prec))
                    } else {
                        None
                    },
                    None => None,
                },
                _ => None,
            };
            match next {
                None => {
                    assert(operator_at(toks, at, min_prec as nat) is None);
                    return Ok(operand);
                },
                Some((op, prec)) => {
                    assert(operator_at(toks, at, min_prec as nat) == Some((op, prec as nat)));
                    self.advance();
                    match self.parse_binary_expr(prec + 1) {
                        Err(error) => {
                            return Err(error);
                        },
                        Ok(right) => {
                            operand =
                            Expr::Binary { left: Box::new(operand), right: Box::new(right), op };
                        },
                    }
                },
            }
        }
    }

    /// Parses a primary expression: a literal, or an identifier with what
    /// follows it.
    fn parse_primary_expr(&mut self) -> (result: Result<Expr, ParseError>)
        requires
            old(self).wf(),
        ensures
            ({
                let step = spec_primary(old(self).tokens(), old(self).index());
                &&& final(self).follows(*old(self), step.used)
                &&& match result {
                    Ok(expr) => step.gives(expr@),
                    Err(error) => step.fails(error@),
                }
            }),
        decreases left(old(self).tokens(), old(self).index()), 2nat,
    {
        let ghost toks = self.tokens();
        let ghost at = self.index();
        proof {
            self.lemma_wf();
        }
        match self.peek_or_error() {
            Err(error) => Err(error),
            Ok(token) => {
                let text = self.slice();
                proof {
                    self.lemma_token_shaped(at);
                    assert(text@ == toks[at].text());
                }
                match token {
                    Token::IntLiteral => {
                        self.advance();
                        proof {
                            lemma_number_bytes_text(toks[at].bytes);
                        }
                        match parse_int_literal(text) {
                            Ok(literal) => Ok(Expr::Literal(literal)),
                            Err(error) => Err(error),
                        }
                    },
                    Token::UIntLiteral => {
                        self.advance();
                        proof {
                            lemma_unsigned_bytes_text(toks[at].bytes);
                        }
                        match parse_uint_literal(text) {
                            Ok(literal) => Ok(Expr::Literal(literal)),
                            Err(error) => Err(error),
                        }
                    },
                    Token::FloatLiteral => {
                        self.advance();
                        Ok(Expr::Literal(parse_float_literal(text)))
                    },
                    Token::StrLiteral => {
                        self.advance();
                        Ok(Expr::Literal(parse_str_literal(text)))
                    },
                    Token::Ident => {
                        self.advance();
                        self.parse_ident(text)
                    },
                    other => Err(ParseError::UnexpectedToken(other)),
                }
            },
        }
    }

    /// Parses what follows the identifier `slice`: the arguments of a call
    /// if `(` stands there, else nothing, which makes it a read.
    fn parse_ident(&mut self, slice: &str) -> (result: Result<Expr, ParseError>)
        requires
            old(self).wf(),
        ensures
            ({
                let step = spec_ident(old(self).tokens(), old(self).index(), slice@);
                &&& final(self).follows(*old(self), step.used)
                &&& match result {
                    Ok(expr) => step.gives(expr@),
                    Err(error) => step.fails(error@),
                }
            }),
        decreases left(old(self).tokens(), old(self).index()), 1nat,
    {
        match self.peek() {
            Some(Ok(Token::LeftParen)) => match self.parse_args_in_call() {
                Ok(args) => {
                    let callee = slice.to_owned();
                    proof {
                        lemma_call_view(callee, args);
                    }
                    Ok(Expr::Call { callee, args })
                },
                Err(error) => Err(error),
            },
            _ => Ok(Expr::Read(slice.to_owned())),
        }
    }

    /// Parses what stands behind an argument: a comma, which it consumes, or
    /// the closing parenthesis, which it leaves.
    fn parse_args_separator(&mut self) -> (result: Result<(), ParseError>)
        requires
            old(self).wf(),
        ensures
            ({
                let step = spec_args_separator(old(self).tokens(), old(self).index());
                &&& final(self).follows(*old(self), step.used)
                &&& match result {
                    Ok(_) => step.gives(()),
                    Err(error) => step.fails(error@),
                }
            }),
    {
        match self.peek_or_error() {
            Err(error) => Err(error),
            Ok(Token::Comma) => {
                self.advance();
                Ok(())
            },
            Ok(Token::RightParen) => Ok(()),
            Ok(found) => Err(
                ParseError::ExpectedDifferentTokens { expected: comma_or_paren(), found },
            ),
        }
    }

    /// Parses the arguments of a call, in parentheses.
    fn parse_args_in_call(&mut self) -> (result: Result<Vec<Expr>, ParseError>)
        requires
            old(self).wf(),
        ensures
            ({
                let step = spec_args_in_call(old(self).tokens(), old(self).index());
                &&& final(self).follows(*old(self), step.used)
                &&& match result {
                    Ok(args) => step.gives(exprs_of(args@)),
                    Err(error) => step.fails(error@),
                }
            }),
        decreases left(old(self).tokens(), old(self).index()), 0nat,
    {
        let ghost toks = self.tokens();
        let ghost start = self.index();
        proof {
            self.lemma_wf();
        }
        match self.expect(Token::LeftParen) {
            Err(error) => {
                return Err(error);
            },
            Ok(_) => {},
        }
        self.advance();
        let mut args: Vec<Expr> = Vec::new();
        proof {
            assert(exprs_of(args@) =~= Seq::<crate::ast::ExprView>::empty());
            lemma_prepend_nothing(spec_call_args_rest(toks, start + 1));
        }
        loop
            invariant
                self.wf(),
                self.tokens() == toks,
                toks == old(self).tokens(),
                start == old(self).index(),
                0 <= start < toks.len(),
                start + 1 <= self.index(),
                stands(toks, start, Token::LeftParen),
                spec_call_args_rest(toks, start + 1) == prepend(
                    exprs_of(args@),
                    (self.index() - (start + 1)) as nat,
                    spec_call_args_rest(toks, self.index()),
                ),
            decreases left(toks, self.index()),
        {
            let ghost at = self.index();
            let ghost front = exprs_of(args@);
            let ghost n0 = (at - (start + 1)) as nat;
            proof {
                self.lemma_wf();
            }
            match self.peek_or_error() {
                Err(error) => {
                    return Err(error);
                },
                Ok(Token::RightParen) => {
                    self.advance();
                    proof {
                        lemma_prepend_end(front, n0, 1);
                    }
                    return Ok(args);
                },
                Ok(_) => {},
            }
            let value = match self.parse_expr() {
                Err(error) => {
                    return Err(error);
                },
                Ok(value) => value,
            };
            match self.parse_args_separator() {
                Err(error) => {
                    return Err(error);
                },
                Ok(_) => {},
            }
            args.push(value);
            proof {
                self.lemma_wf();
                assert(exprs_of(args@) =~= front.push(value@));
                lemma_prepend_push(
                    front,
                    value@,
                    n0,
                    (self.index() - at) as nat,
                    spec_call_args_rest(toks, self.index()),
                );
            }
        }
    }

    /// Parses an initializer: `=` and an expression. Where no `=` stands
    /// there is none, and nothing is consumed.
    pub fn parse_assignment(&mut self) -> (result: Result<Option<Expr>, ParseError>)
        requires
            old(self).wf(),
        ensures
            ({
                let step = spec_assignment(old(self).tokens(), old(self).index());
                &&& final(self).follows(*old(self), step.used)
                &&& match result {
                    Ok(value) => step.gives(expr_of(value)),
                    Err(error) => step.fails(error@),
                }
            }),
    {
        match self.peek() {
            Some(Ok(Token::Equals)) => {
                self.advance();
                match self.parse_expr() {
                    Ok(expr) => Ok(Some(expr)),
                    Err(error) => Err(error),
                }
            },
            _ => Ok(None),
        }
    }

    /// Parses an attribute: `@`, its name, and arguments as of a call if `(`
    /// follows. Where no `@` stands there is none, and nothing is consumed.
    pub fn parse_attribute_annot(&mut self) -> (result: Result<Option<AttributeAnnot>, ParseError>)
        requires
            old(self).wf(),
        ensures
            ({
                let step = spec_attribute_annot(old(self).tokens(), old(self).index());
                &&& final(self).follows(*old(self), step.used)
                &&& match result {
                    Ok(Some(annot)) => step.gives(Some(annot@)),
                    Ok(None) => step.gives(None),
                    Err(error) => step.fails(error@),
                }
            }),
    {
        match self.peek() {
            Some(Ok(Token::At)) => {},
            _ => {
                return Ok(None);
            },
        }
        self.advance();
        match self.expect(Token::Ident) {
            Err(error) => {
                return Err(error);
            },
            Ok(_) => {},
        }
        let name = self.slice().to_owned();
        self.advance();
        match self.peek() {
            Some(Ok(Token::LeftParen)) => match self.parse_args_in_call() {
                Ok(args) => Ok(Some(AttributeAnnot { name, args })),
                Err(error) => Err(error),
            },
            _ => {
                let args: Vec<Expr> = Vec::new();
                assert(exprs_of(args@) =~= Seq::<crate::ast::ExprView>::empty());
                Ok(Some(AttributeAnnot { name, args }))
            },
        }
    }

    /// Parses the attributes in front of a declaration: as many as stand
    /// there. It stops at the first token that is no `@` and leaves it.
    pub fn parse_attribute_annots(&mut self) -> (result: Result<Vec<AttributeAnnot>, ParseError>)
        requires
            old(self).wf(),
        ensures
            ({
                let step = spec_attribute_annots(old(self).tokens(), old(self).index());
                &&& final(self).follows(*old(self), step.used)
                &&& match result {
                    Ok(annots) => step.gives(attributes_of(annots@)),
                    Err(error) => step.fails(error@),
                }
            }),
    {
        let ghost toks = self.tokens();
        let ghost start = self.index();
        let mut annots: Vec<AttributeAnnot> = Vec::new();
        proof {
            self.lemma_wf();
            assert(attributes_of(annots@) =~= Seq::<crate::ast::AttributeAnnotView>::empty());
            lemma_prepend_nothing(spec_attribute_annots(toks, start));
        }
        loop
            invariant
                self.wf(),
                self.tokens() == toks,
                toks == old(self).tokens(),
                start == old(self).index(),
                0 <= start <= self.index(),
                spec_attribute_annots(toks, start) == prepend(
                    attributes_of(annots@),
                    (self.index() - start) as nat,
                    spec_attribute_annots(toks, self.index()),
                ),
            decreases left(toks, self.index()),
        {
            let ghost at = self.index();
            let ghost front = attributes_of(annots@);
            let ghost first = spec_attribute_annot(toks, at);
            proof {
                self.lemma_wf();
                lemma_attribute_consumes(toks, at);
            }
            match self.parse_attribute_annot() {
                Err(error) => {
                    return Err(error);
                },
                Ok(None) => {
                    proof {
                        lemma_prepend_end(front, (at - start) as nat, first.used);
                    }
                    return Ok(annots);
                },
                Ok(Some(annot)) => {
                    annots.push(annot);
                    proof {
                        assert(attributes_of(annots@) =~= front.push(annot@));
                        lemma_prepend_push(
                            front,
                            annot@,
                            (at - start) as nat,
                            first.used,
                            spec_attribute_annots(toks, at + first.used),
                        );
                    }
                },
            }
        }
    }

    /// Parses the declared arguments of a function, in parentheses.
    fn parse_args_in_decl(&mut self) -> (result: Result<Vec<ArgDecl>, ParseError>)
        requires
            old(self).wf(),
        ensures
            ({
                let step = spec_args_in_decl(old(self).tokens(), old(self).index());
                &&& final(self).follows(*old(self), step.used)
                &&& match result {
                    Ok(args) => step.gives(arg_decls_of(args@)),
                    Err(error) => step.fails(error@),
                }
            }),
    {
        let ghost toks = self.tokens();
        let ghost start = self.index();
        proof {
            self.lemma_wf();
        }
        match self.expect(Token::LeftParen) {
            Err(error) => {
                return Err(error);
            },
            Ok(_) => {},
        }
        self.advance();
        let mut args: Vec<ArgDecl> = Vec::new();
        proof {
            assert(arg_decls_of(args@) =~= Seq::<crate::ast::ArgDeclView>::empty());
            lemma_prepend_nothing(spec_decl_args_rest(toks, start + 1));
        }
        loop
            invariant
                self.wf(),
                self.tokens() == toks,
                toks == old(self).tokens(),
                start == old(self).index(),
                0 <= start < toks.len(),
                start + 1 <= self.index(),
                stands(toks, start, Token::LeftParen),
                spec_decl_args_rest(toks, start + 1) == prepend(
                    arg_decls_of(args@),
                    (self.index() - (start + 1)) as nat,
                    spec_decl_args_rest(toks, self.index()),
                ),
            decreases left(toks, self.index()),
        {
            let ghost at = self.index();
            let ghost front = arg_decls_of(args@);
            let ghost n0 = (at - (start + 1)) as nat;
            proof {
                self.lemma_wf();
            }
            match self.peek_or_error() {
                Err(error) => {
                    return Err(error);
                },
                Ok(Token::RightParen) => {
                    self.advance();
                    proof {
                        lemma_prepend_end(front, n0, 1);
                    }
                    return Ok(args);
                },
                Ok(Token::Ident) => {},
                Ok(other) => {
                    return Err(ParseError::UnexpectedToken(other));
                },
            }
            let name = self.slice().to_owned();
            self.advance();
            let type_annot = match self.parse_type_annot() {
                Err(error) => {
                    return Err(error);
                },
                Ok(None) => {
                    return Err(ParseError::MissingTypeAnnot);
                },
                Ok(Some(type_annot)) => type_annot,
            };
            match self.parse_args_separator() {
                Err(error) => {
                    return Err(error);
                },
                Ok(_) => {},
            }
            let attributes: Vec<String> = Vec::new();
            let arg = ArgDecl { attributes, name, type_annot };
            let ghost arg_view = arg@;
            args.push(arg);
            proof {
                self.lemma_wf();
                assert(arg_view.attributes =~= Seq::<Seq<char>>::empty());
                assert(arg_decls_of(args@) =~= front.push(arg_view));
                lemma_prepend_push(
                    front,
                    arg_view,
                    n0,
                    (self.index() - at) as nat,
                    spec_decl_args_rest(toks, self.index()),
                );
            }
        }
    }

    /// Parses a statement of a code block. No statement is supported yet:
    /// `val` is refused as such, any other token as unexpected.
    pub fn parse_runtime_statement(&mut self) -> (result: Result<RuntimeStatement, ParseError>)
        requires
            old(self).wf(),
        ensures
            ({
                let step = spec_runtime_statement(old(self).tokens(), old(self).index());
                &&& final(self).follows(*old(self), step.used)
                &&& match result {
                    Ok(statement) => step.gives(statement@),
                    Err(error) => step.fails(error@),
                }
            }),
    {
        match self.peek_or_error() {
            Err(error) => Err(error),
            Ok(Token::Val) => Err(ParseError::Unsupported(Token::Val)),
            Ok(other) => Err(ParseError::UnexpectedToken(other)),
        }
    }

    /// Parses a code block in braces: statements, each with `;` behind it.
    /// Where no `{` stands there is none, and nothing is consumed.
    pub fn parse_code_block(&mut self) -> (result: Result<Option<Vec<RuntimeStatement>>, ParseError>)
        requires
            old(self).wf(),
        ensures
            ({
                let step = spec_code_block(old(self).tokens(), old(self).index());
                &&& final(self).follows(*old(self), step.used)
                &&& match result {
                    Ok(Some(statements)) => step.gives(Some(statements_of(statements@))),
                    Ok(None) => step.gives(None),
                    Err(error) => step.fails(error@),
                }
            }),
    {
        let ghost toks = self.tokens();
        let ghost start = self.index();
        proof {
            self.lemma_wf();
        }
        match self.peek() {
            Some(Ok(Token::LeftBrace)) => {},
            _ => {
                return Ok(None);
            },
        }
        self.advance();
        let mut statements: Vec<RuntimeStatement> = Vec::new();
        proof {
            assert(statements_of(statements@) =~= Seq::<
                crate::ast::RuntimeStatementView,
            >::empty());
            lemma_prepend_nothing(spec_statements_rest(toks, start + 1));
        }
        loop
            invariant
                self.wf(),
                self.tokens() == toks,
                toks == old(self).tokens(),
                start == old(self).index(),
                0 <= start < toks.len(),
                start + 1 <= self.index(),
                stands(toks, start, Token::LeftBrace),
                spec_statements_rest(toks, start + 1) == prepend(
                    statements_of(statements@),
                    (self.index() - (start + 1)) as nat,
                    spec_statements_rest(toks, self.index()),
                ),
            decreases left(toks, self.index()),
        {
            let ghost at = self.index();
            let ghost front = statements_of(statements@);
            let ghost n0 = (at - (start + 1)) as nat;
            proof {
                self.lemma_wf();
            }
            match self.peek_or_error() {
                Err(error) => {
                    return Err(error);
                },
                Ok(Token::RightBrace) => {
                    self.advance();
                    proof {
                        lemma_prepend_end(front, n0, 1);
                    }
                    return Ok(Some(statements));
                },
                Ok(_) => {
                    let ghost first = spec_runtime_statement(toks, at);
                    match self.parse_runtime_statement() {
                        Err(error) => {
                            return Err(error);
                        },
                        Ok(statement) => {
                            match self.expect(Token::Semicolon) {
                                Err(error) => {
                                    return Err(error);
                                },
                                Ok(_) => {},
                            }
                            self.advance();
                            proof {
                                lemma_prepend_push(
                                    front,
                                    statement@,
                                    n0,
                                    first.used + 1,
                                    spec_statements_rest(toks, at + first.used + 1),
                                );
                            }
                            statements.push(statement);
                            assert(statements_of(statements@) =~= front.push(statement@));
                        },
                    }
                },
            }
        }
    }

    /// Parses a function declaration: `fun`, a name or none, the declared
    /// arguments, a return type or none, and the code block. A missing code
    /// block is an error of its own.
    pub fn parse_fun_decl(&mut self) -> (result: Result<FunDeclStatement, ParseError>)
        requires
            old(self).wf(),
        ensures
            ({
                let step = spec_fun_decl(old(self).tokens(), old(self).index());
                &&& final(self).follows(*old(self), step.used)
                &&& match result {
                    Ok(decl) => step.gives(decl@),
                    Err(error) => step.fails(error@),
                }
            }),
    {
        match self.expect(Token::Fun) {
            Err(error) => {
                return Err(error);
            },
            Ok(_) => {},
        }
        self.advance();
        let name = match self.peek() {
            Some(Ok(Token::Ident)) => {
                let name = self.slice().to_owned();
                self.advance();
                Some(name)
            },
            _ => None,
        };
        let args = match self.parse_args_in_decl() {
            Err(error) => {
                return Err(error);
            },
            Ok(args) => args,
        };
        let ret_type = match self.parse_type_annot() {
            Err(error) => {
                return Err(error);
            },
            Ok(ret_type) => ret_type,
        };
        let code = match self.parse_code_block() {
            Err(error) => {
                return Err(error);
            },
            Ok(None) => {
                return Err(ParseError::MissingCodeBlock);
            },
            Ok(Some(code)) => code,
        };
        let attributes: Vec<AttributeAnnot> = Vec::new();
        assert(attributes_of(attributes@) =~= Seq::<crate::ast::AttributeAnnotView>::empty());
        Ok(
            FunDeclStatement {
                attributes,
                visibility: VisibilityAnnot::Default,
                name,
                ret_type,
                args,
                code,
            },
        )
    }

    /// Parses an immutable binding: `val`, its name, a type annotation or
    /// none, an initializer or none.
    pub fn parse_immutable_variable_decl(&mut self) -> (result: Result<
        ValDeclStatement,
        ParseError,
    >)
        requires
            old(self).wf(),
        ensures
            ({
                let step = spec_immutable_variable_decl(old(self).tokens(), old(self).index());
                &&& final(self).follows(*old(self), step.used)
                &&& match result {
                    Ok(decl) => step.gives(decl@),
                    Err(error) => step.fails(error@),
                }
            }),
    {
        match self.expect(Token::Val) {
            Err(error) => {
                return Err(error);
            },
            Ok(_) => {},
        }
        self.advance();
        match self.expect(Token::Ident) {
            Err(error) => {
                return Err(error);
            },
            Ok(_) => {},
        }
        let name = self.slice().to_owned();
        self.advance();
        let type_annot = match self.parse_type_annot() {
            Err(error) => {
                return Err(error);
            },
            Ok(type_annot) => type_annot,
        };
        let initial_assignment = match self.parse_assignment() {
            Err(error) => {
                return Err(error);
            },
            Ok(initial_assignment) => initial_assignment,
        };
        let attributes: Vec<String> = Vec::new();
        assert(crate::ast::texts_of(attributes@) =~= Seq::<Seq<char>>::empty());
        Ok(
            ValDeclStatement {
                attributes,
                visibility: VisibilityAnnot::Default,
                name,
                type_annot,
                initial_assignment,
            },
        )
    }

    /// Parses a mutable binding: attributes, `var`, its name, a type
    /// annotation and an initializer. The last two are mandatory, and the
    /// lack of each is an error of its own.
    pub fn parse_var_decl(&mut self) -> (result: Result<VarDeclStatement, ParseError>)
        requires
            old(self).wf(),
        ensures
            ({
                let step = spec_var_decl(old(self).tokens(), old(self).index());
                &&& final(self).follows(*old(self), step.used)
                &&& match result {
                    Ok(decl) => step.gives(decl@),
                    Err(error) => step.fails(error@),
                }
            }),
    {
        let attributes = match self.parse_attribute_annots() {
            Err(error) => {
                return Err(error);
            },
            Ok(attributes) => attributes,
        };
        match self.expect(Token::Var) {
            Err(error) => {
                return Err(error);
            },
            Ok(_) => {},
        }
        self.advance();
        match self.expect(Token::Ident) {
            Err(error) => {
                return Err(error);
            },
            Ok(_) => {},
        }
        let name = self.slice().to_owned();
        self.advance();
        let type_annot = match self.parse_type_annot() {
            Err(error) => {
                return Err(error);
            },
            Ok(None) => {
                return Err(ParseError::MissingTypeAnnot);
            },
            Ok(Some(type_annot)) => type_annot,
        };
        let initial_assignment = match self.parse_assignment() {
            Err(error) => {
                return Err(error);
            },
            Ok(None) => {
                return Err(ParseError::MissingAssignment);
            },
            Ok(Some(initial_assignment)) => initial_assignment,
        };
        Ok(
            VarDeclStatement {
                attributes,
                visibility: VisibilityAnnot::Default,
                name,
                type_annot,
                initial_assignment,
            },
        )
    }

    /// Parses a member of a module: a function declaration. Classes and
    /// immutable bindings are refused as not supported, any other token as
    /// unexpected.
    pub fn parse_group_member_statement(&mut self) -> (result: Result<
        GroupMemberStatement,
        ParseError,
    >)
        requires
            old(self).wf(),
        ensures
            ({
                let step = spec_group_member_statement(old(self).tokens(), old(self).index());
                &&& final(self).follows(*old(self), step.used)
                &&& match result {
                    Ok(member) => step.gives(member@),
                    Err(error) => step.fails(error@),
                }
            }),
    {
        match self.peek_or_error() {
            Err(error) => Err(error),
            Ok(Token::Fun) => match self.parse_fun_decl() {
                Err(error) => Err(error),
                Ok(decl) => Ok(GroupMemberStatement::Fun(decl)),
            },
            Ok(Token::Val) => Err(ParseError::Unsupported(Token::Val)),
            Ok(Token::Class) => Err(ParseError::Unsupported(Token::Class)),
            Ok(other) => Err(ParseError::UnexpectedToken(other)),
        }
    }

    /// Parses a module: members until the text ends. The first member that
    /// fails ends the parse with its error.
    pub fn parse_module(&mut self) -> (result: Result<Module, ParseError>)
        requires
            old(self).wf(),
        ensures
            ({
                let step = spec_module(old(self).tokens(), old(self).index());
                &&& final(self).follows(*old(self), step.used)
                &&& match result {
                    Ok(module) => step.gives(module@),
                    Err(error) => step.fails(error@),
                }
            }),
    {
        let ghost toks = self.tokens();
        let ghost start = self.index();
        let mut decls: Vec<GroupMemberStatement> = Vec::new();
        proof {
            self.lemma_wf();
            assert(members_of(decls@) =~= Seq::<crate::ast::GroupMemberView>::empty());
            lemma_prepend_nothing(spec_members(toks, start));
        }
        loop
            invariant
                self.wf(),
                self.tokens() == toks,
                toks == old(self).tokens(),
                start == old(self).index(),
                0 <= start <= self.index(),
                spec_members(toks, start) == prepend(
                    members_of(decls@),
                    (self.index() - start) as nat,
                    spec_members(toks, self.index()),
                ),
            decreases left(toks, self.index()),
        {
            let ghost at = self.index();
            let ghost front = members_of(decls@);
            let ghost first = spec_group_member_statement(toks, at);
            proof {
                self.lemma_wf();
                lemma_member_consumes(toks, at);
            }
            if self.peek().is_none() {
                proof {
                    lemma_prepend_end(front, (at - start) as nat, 0);
                }
                return Ok(Module { decls });
            }
            match self.parse_group_member_statement() {
                Err(error) => {
                    return Err(error);
                },
                Ok(member) => {
                    decls.push(member);
                    proof {
                        assert(members_of(decls@) =~= front.push(member@));
                        lemma_prepend_push(
                            front,
                            member@,
                            (at - start) as nat,
                            first.used,
                            spec_members(toks, at + first.used),
                        );
                    }
                },
            }
        }
    }
}

} // verus!
