//! Tokens, and the lexer that produces them from source text.

use vstd::prelude::*;
use vstd::string::StringSliceAdditionalSpecFns;
use vstd::utf8::{decode_utf8, is_char_boundary_iff_not_is_continuation_byte};
use crate::scan::{
    comment_close, exponent_end, fraction_end, is_at, is_digit, is_ident_start, last_digit_end,
    lemma_scan, lemma_skip_trivia, lemma_token_at, lemma_trivia_end, number_at, placed, run_end,
    scan, skip_trivia, string_end, symbol_at, token_at, trivia_end, word_token, Class, Kind,
};
use crate::text::{cut, lemma_str_decodes, same_text};

verus! {

/// The kind of a lexeme. A token carries no text: the lexeme is read from the
/// span the lexer stands on.
#[derive(Clone, Copy, Debug, PartialEq, Eq, Structural)]
pub enum Token {
    // Keywords
    Fun,
    Class,
    Let,
    Val,
    Var,
    Pub,
    Priv,
    Import,
    Group,
    Ret,
    New,
    At,
    If,
    Else,
    While,
    For,
    In,
    True,
    False,
    // Identifiers
    Ident,
    // Literals
    UIntLiteral,
    IntLiteral,
    FloatLiteral,
    StrLiteral,
    // Operators
    Plus,
    Minus,
    Star,
    Slash,
    Percent,
    Equals,
    EqualsEquals,
    NotEquals,
    LessThan,
    LessThanEquals,
    GreaterThan,
    GreaterThanEquals,
    And,
    Or,
    Not,
    // Punctuation
    Semicolon,
    Colon,
    Comma,
    Dot,
    LeftParen,
    RightParen,
    LeftBrace,
    RightBrace,
    LeftBracket,
    RightBracket,
}

/// A stretch of source text that is no token, by its byte span.
#[derive(Clone, Copy, Debug, PartialEq, Eq, Structural)]
pub struct LexError {
    pub start: usize,
    pub end: usize,
}

impl Token {
    /// The name of the token's kind, as diagnostics print it.
    pub open spec fn spec_name(self) -> Seq<char> {
        match self {
            Token::Fun => "Fun"@,
            Token::Class => "Class"@,
            Token::Let => "Let"@,
            Token::Val => "Val"@,
            Token::Var => "Var"@,
            Token::Pub => "Pub"@,
            Token::Priv => "Priv"@,
            Token::Import => "Import"@,
            Token::Group => "Group"@,
            Token::Ret => "Ret"@,
            Token::New => "New"@,
            Token::At => "At"@,
            Token::If => "If"@,
            Token::Else => "Else"@,
            Token::While => "While"@,
            Token::For => "For"@,
            Token::In => "In"@,
            Token::True => "True"@,
            Token::False => "False"@,
            Token::Ident => "Ident"@,
            Token::UIntLiteral => "UIntLiteral"@,
            Token::IntLiteral => "IntLiteral"@,
            Token::FloatLiteral => "FloatLiteral"@,
            Token::StrLiteral => "StrLiteral"@,
            Token::Plus => "Plus"@,
            Token::Minus => "Minus"@,
            Token::Star => "Star"@,
            Token::Slash => "Slash"@,
            Token::Percent => "Percent"@,
            Token::Equals => "Equals"@,
            Token::EqualsEquals => "EqualsEquals"@,
            Token::NotEquals => "NotEquals"@,
            Token::LessThan => "LessThan"@,
            Token::LessThanEquals => "LessThanEquals"@,
            Token::GreaterThan => "GreaterThan"@,
            Token::GreaterThanEquals => "GreaterThanEquals"@,
            Token::And => "And"@,
            Token::Or => "Or"@,
            Token::Not => "Not"@,
            Token::Semicolon => "Semicolon"@,
            Token::Colon => "Colon"@,
            Token::Comma => "Comma"@,
            Token::Dot => "Dot"@,
            Token::LeftParen => "LeftParen"@,
            Token::RightParen => "RightParen"@,
            Token::LeftBrace => "LeftBrace"@,
            Token::RightBrace => "RightBrace"@,
            Token::LeftBracket => "LeftBracket"@,
            Token::RightBracket => "RightBracket"@,
        }
    }

    /// The name of the token's kind, as diagnostics print it.
    pub fn name(self) -> (name: &'static str)
        ensures
            name@ == self.spec_name(),
    {
        match self {
            Token::Fun => "Fun",
            Token::Class => "Class",
            Token::Let => "Let",
            Token::Val => "Val",
            Token::Var => "Var",
            Token::Pub => "Pub",
            Token::Priv => "Priv",
            Token::Import => "Import",
            Token::Group => "Group",
            Token::Ret => "Ret",
            Token::New => "New",
            Token::At => "At",
            Token::If => "If",
            Token::Else => "Else",
            Token::While => "While",
            Token::For => "For",
            Token::In => "In",
            Token::True => "True",
            Token::False => "False",
            Token::Ident => "Ident",
            Token::UIntLiteral => "UIntLiteral",
            Token::IntLiteral => "IntLiteral",
            Token::FloatLiteral => "FloatLiteral",
            Token::StrLiteral => "StrLiteral",
            Token::Plus => "Plus",
            Token::Minus => "Minus",
            Token::Star => "Star",
            Token::Slash => "Slash",
            Token::Percent => "Percent",
            Token::Equals => "Equals",
            Token::EqualsEquals => "EqualsEquals",
            Token::NotEquals => "NotEquals",
            Token::LessThan => "LessThan",
            Token::LessThanEquals => "LessThanEquals",
            Token::GreaterThan => "GreaterThan",
            Token::GreaterThanEquals => "GreaterThanEquals",
            Token::And => "And",
            Token::Or => "Or",
            Token::Not => "Not",
            Token::Semicolon => "Semicolon",
            Token::Colon => "Colon",
            Token::Comma => "Comma",
            Token::Dot => "Dot",
            Token::LeftParen => "LeftParen",
            Token::RightParen => "RightParen",
            Token::LeftBrace => "LeftBrace",
            Token::RightBrace => "RightBrace",
            Token::LeftBracket => "LeftBracket",
            Token::RightBracket => "RightBracket",
        }
    }
}

/// Whether the byte at `i` exists and is the character `c`.
fn at(bytes: &[u8], i: usize, c: char) -> (found: bool)
    ensures
        found == is_at(bytes@, i as int, c),
{
    i < bytes.len() && bytes[i] == c as u8
}

/// Whether `b` is one of `0` to `9`.
fn digit(b: u8) -> (r: bool)
    ensures
        r == is_digit(b),
{
    '0' as u8 <= b && b <= '9' as u8
}

/// Whether `b` is a letter or `_`.
fn ident_start(b: u8) -> (r: bool)
    ensures
        r == is_ident_start(b),
{
    ('a' as u8 <= b && b <= 'z' as u8) || ('A' as u8 <= b && b <= 'Z' as u8) || b == '_' as u8
}

/// Whether `b` is in the set `class`.
fn in_class(class: Class, b: u8) -> (r: bool)
    ensures
        r == class.has(b),
{
    match class {
        Class::Blank => b == ' ' as u8 || b == '\t' as u8 || b == '\n' as u8 || b == 0x0c,
        Class::DigitOrSeparator => digit(b) || b == '_' as u8,
        Class::IdentPart => ident_start(b) || digit(b),
        Class::LineRest => b != '\n' as u8,
    }
}

/// The end of the longest run of bytes of `class` from `from`.
fn run(bytes: &[u8], from: usize, class: Class) -> (end: usize)
    requires
        from <= bytes@.len(),
    ensures
        end == run_end(bytes@, from as int, class),
        from <= end <= bytes@.len(),
{
    let mut i = from;
    while i < bytes.len() && in_class(class, bytes[i])
        invariant
            from <= i <= bytes@.len(),
            run_end(bytes@, i as int, class) == run_end(bytes@, from as int, class),
        decreases bytes@.len() - i,
    {
        i += 1;
    }
    i
}

/// The offset just past the first `*/` from `from` on.
fn find_comment_close(bytes: &[u8], from: usize) -> (close: Option<usize>)
    requires
        from <= bytes@.len(),
    ensures
        match close {
            Some(e) => comment_close(bytes@, from as int) == Some(e as int) && e <= bytes@.len(),
            None => comment_close(bytes@, from as int) is None,
        },
{
    let mut i = from;
    while i < bytes.len() && i + 1 < bytes.len()
        invariant
            from <= i <= bytes@.len(),
            comment_close(bytes@, i as int) == comment_close(bytes@, from as int),
        decreases bytes@.len() - i,
    {
        if bytes[i] == '*' as u8 && bytes[i + 1] == '/' as u8 {
            return Some(i + 2);
        }
        i += 1;
    }
    None
}

/// The end of the blank run or comment that starts at `i`, or `i`.
fn trivia_item_end(bytes: &[u8], i: usize) -> (end: usize)
    requires
        i <= bytes@.len(),
    ensures
        end == trivia_end(bytes@, i as int),
        i <= end <= bytes@.len(),
{
    proof {
        lemma_trivia_end(bytes@, i as int);
    }
    if i >= bytes.len() {
        i
    } else if in_class(Class::Blank, bytes[i]) {
        run(bytes, i, Class::Blank)
    } else if at(bytes, i, '/') && at(bytes, i + 1, '/') {
        run(bytes, i + 2, Class::LineRest)
    } else if at(bytes, i, '/') && at(bytes, i + 1, '*') {
        match find_comment_close(bytes, i + 2) {
            Some(e) => e,
            None => i,
        }
    } else {
        i
    }
}

/// The first offset from `from` on at which neither blanks nor a comment
/// start.
fn skip(bytes: &[u8], from: usize) -> (p: usize)
    requires
        from <= bytes@.len(),
    ensures
        p == skip_trivia(bytes@, from as int),
        from <= p <= bytes@.len(),
{
    let mut p = from;
    let mut e = trivia_item_end(bytes, p);
    while p < e
        invariant
            from <= p <= e <= bytes@.len(),
            e == trivia_end(bytes@, p as int),
            skip_trivia(bytes@, p as int) == skip_trivia(bytes@, from as int),
        decreases bytes@.len() - p,
    {
        p = e;
        e = trivia_item_end(bytes, p);
    }
    p
}

/// The token of a word: its keyword, or an identifier.
fn word(text: &str) -> (token: Token)
    ensures
        token == word_token(text@),
{
    if same_text(text, "fun") {
        Token::Fun
    } else if same_text(text, "class") {
        Token::Class
    } else if same_text(text, "let") {
        Token::Let
    } else if same_text(text, "val") {
        Token::Val
    } else if same_text(text, "var") {
        Token::Var
    } else if same_text(text, "pub") {
        Token::Pub
    } else if same_text(text, "priv") {
        Token::Priv
    } else if same_text(text, "import") {
        Token::Import
    } else if same_text(text, "group") {
        Token::Group
    } else if same_text(text, "ret") {
        Token::Ret
    } else if same_text(text, "new") {
        Token::New
    } else if same_text(text, "if") {
        Token::If
    } else if same_text(text, "else") {
        Token::Else
    } else if same_text(text, "while") {
        Token::While
    } else if same_text(text, "for") {
        Token::For
    } else if same_text(text, "in") {
        Token::In
    } else if same_text(text, "true") {
        Token::True
    } else if same_text(text, "false") {
        Token::False
    } else {
        Token::Ident
    }
}

/// The operator or punctuation mark that starts at `p`, with its length.
fn symbol(bytes: &[u8], p: usize) -> (found: Option<(Token, usize)>)
    requires
        p < bytes@.len(),
    ensures
        match found {
            Some((token, n)) => symbol_at(bytes@, p as int) == Some((token, n as int)) && 1 <= n
                <= 2 && p + n <= bytes@.len() && bytes@[p + n - 1] < 0x80,
            None => symbol_at(bytes@, p as int) is None,
        },
{
    let b = bytes[p];
    let doubled = at(bytes, p + 1, b as char);
    let assigned = at(bytes, p + 1, '=');
    if b == '=' as u8 {
        if assigned {
            Some((Token::EqualsEquals, 2))
        } else {
            Some((Token::Equals, 1))
        }
    } else if b == '!' as u8 {
        if assigned {
            Some((Token::NotEquals, 2))
        } else {
            Some((Token::Not, 1))
        }
    } else if b == '<' as u8 {
        if assigned {
            Some((Token::LessThanEquals, 2))
        } else {
            Some((Token::LessThan, 1))
        }
    } else if b == '>' as u8 {
        if assigned {
            Some((Token::GreaterThanEquals, 2))
        } else {
            Some((Token::GreaterThan, 1))
        }
    } else if b == '&' as u8 {
        if doubled {
            Some((Token::And, 2))
        } else {
            None
        }
    } else if b == '|' as u8 {
        if doubled {
            Some((Token::Or, 2))
        } else {
            None
        }
    } else if b == '+' as u8 {
        Some((Token::Plus, 1))
    } else if b == '-' as u8 {
        Some((Token::Minus, 1))
    } else if b == '*' as u8 {
        Some((Token::Star, 1))
    } else if b == '/' as u8 {
        Some((Token::Slash, 1))
    } else if b == '%' as u8 {
        Some((Token::Percent, 1))
    } else if b == '@' as u8 {
        Some((Token::At, 1))
    } else if b == ';' as u8 {
        Some((Token::Semicolon, 1))
    } else if b == ':' as u8 {
        Some((Token::Colon, 1))
    } else if b == ',' as u8 {
        Some((Token::Comma, 1))
    } else if b == '.' as u8 {
        Some((Token::Dot, 1))
    } else if b == '(' as u8 {
        Some((Token::LeftParen, 1))
    } else if b == ')' as u8 {
        Some((Token::RightParen, 1))
    } else if b == '{' as u8 {
        Some((Token::LeftBrace, 1))
    } else if b == '}' as u8 {
        Some((Token::RightBrace, 1))
    } else if b == '[' as u8 {
        Some((Token::LeftBracket, 1))
    } else if b == ']' as u8 {
        Some((Token::RightBracket, 1))
    } else {
        None
    }
}

/// The offset just past the last digit of the run between `p` and `r`.
fn trim_separators(bytes: &[u8], p: usize, r: usize) -> (end: usize)
    requires
        p <= r <= bytes@.len(),
    ensures
        end == last_digit_end(bytes@, p as int, r as int),
        p <= end <= r,
{
    let mut e = r;
    while p < e && bytes[e - 1] == '_' as u8
        invariant
            p <= e <= r <= bytes@.len(),
            last_digit_end(bytes@, p as int, e as int) == last_digit_end(
                bytes@,
                p as int,
                r as int,
            ),
        decreases e - p,
    {
        e -= 1;
    }
    e
}

/// The end of the fraction that starts at `r`.
fn fraction(bytes: &[u8], r: usize) -> (end: Option<usize>)
    requires
        r <= bytes@.len(),
    ensures
        match end {
            Some(f) => fraction_end(bytes@, r as int) == Some(f as int) && r < f <= bytes@.len(),
            None => fraction_end(bytes@, r as int) is None,
        },
{
    if r < bytes.len() && at(bytes, r, '.') && r + 1 < bytes.len() && digit(bytes[r + 1]) {
        Some(run(bytes, r + 1, Class::DigitOrSeparator))
    } else {
        None
    }
}

/// The end of the exponent that starts at `f`.
fn exponent(bytes: &[u8], f: usize) -> (end: Option<usize>)
    requires
        f <= bytes@.len(),
    ensures
        match end {
            Some(e) => exponent_end(bytes@, f as int) == Some(e as int) && f < e <= bytes@.len(),
            None => exponent_end(bytes@, f as int) is None,
        },
{
    if f < bytes.len() && (at(bytes, f, 'e') || at(bytes, f, 'E')) {
        let q = if at(bytes, f + 1, '+') || at(bytes, f + 1, '-') {
            f + 2
        } else {
            f + 1
        };
        if q < bytes.len() && digit(bytes[q]) {
            Some(run(bytes, q, Class::DigitOrSeparator))
        } else {
            None
        }
    } else {
        None
    }
}

/// The number that starts with the digit at `p`, and its end.
fn number(bytes: &[u8], p: usize) -> (found: (Token, usize))
    requires
        p < bytes@.len(),
        is_digit(bytes@[p as int]),
    ensures
        found.0 == number_at(bytes@, p as int).0,
        found.1 == number_at(bytes@, p as int).1,
{
    let r = run(bytes, p, Class::DigitOrSeparator);
    match fraction(bytes, r) {
        Some(f) => match exponent(bytes, f) {
            Some(e) => (Token::FloatLiteral, e),
            None => (Token::FloatLiteral, f),
        },
        None => {
            let d = trim_separators(bytes, p, r);
            if d == r && r < bytes.len() && at(bytes, r, 'u') {
                (Token::UIntLiteral, r + 1)
            } else {
                (Token::IntLiteral, d)
            }
        },
    }
}

/// Reads on in a string literal from `from`: whether it is closed, and where
/// it ends.
fn string(bytes: &[u8], from: usize) -> (found: (bool, usize))
    requires
        from <= bytes@.len(),
    ensures
        found.0 == string_end(bytes@, from as int).0,
        found.1 == string_end(bytes@, from as int).1,
        found.1 <= bytes@.len(),
{
    let mut i = from;
    while i < bytes.len()
        invariant
            from <= i <= bytes@.len(),
            string_end(bytes@, i as int) == string_end(bytes@, from as int),
        decreases bytes@.len() - i,
    {
        let b = bytes[i];
        if b == '"' as u8 {
            return (true, i + 1);
        } else if b == '\\' as u8 {
            if i + 1 >= bytes.len() {
                return (false, bytes.len());
            } else if bytes[i + 1] == '\n' as u8 {
                return (false, i + 1);
            } else {
                i += 2;
            }
        } else {
            i += 1;
        }
    }
    (false, bytes.len())
}

/// The length in bytes of the character whose first byte is `b`.
fn char_width(b: u8) -> (n: usize)
    ensures
        1 <= n <= 4,
        b < 0x80 ==> n == 1,
        0xc0 <= b < 0xe0 ==> n == 2,
        0xe0 <= b < 0xf0 ==> n == 3,
        0xf0 <= b ==> n == 4,
{
    if b < 0x80 {
        1
    } else if b < 0xe0 {
        2
    } else if b < 0xf0 {
        3
    } else {
        4
    }
}

/// The token that starts at `p`, where no trivia starts, and its end.
fn token(source: &str, p: usize) -> (found: (Kind, usize))
    requires
        placed(source.spec_bytes(), p as int),
        p < source.spec_bytes().len(),
    ensures
        found.0 == token_at(source.spec_bytes(), p as int).0,
        found.1 == token_at(source.spec_bytes(), p as int).1,
        p < found.1,
        placed(source.spec_bytes(), found.1 as int),
{
    let bytes = source.as_bytes();
    proof {
        lemma_token_at(bytes@, p as int);
    }
    let b = bytes[p];
    if ident_start(b) {
        let e = run(bytes, p, Class::IdentPart);
        (Ok(word(cut(source, p, e))), e)
    } else if digit(b) {
        let (token, e) = number(bytes, p);
        (Ok(token), e)
    } else if at(bytes, p, '"') {
        let (closed, e) = string(bytes, p + 1);
        if closed {
            (Ok(Token::StrLiteral), e)
        } else {
            (Err(LexError { start: p, end: e }), e)
        }
    } else {
        match symbol(bytes, p) {
            Some((token, n)) => (Ok(token), p + n),
            None => {
                proof {
                    is_char_boundary_iff_not_is_continuation_byte(bytes@, p as int);
                }
                let e = p + char_width(b);
                (Err(LexError { start: p, end: e }), e)
            },
        }
    }
}

/// A forward-only cursor over the tokens of a source text.
///
/// Each call of `next` yields the next token or error and moves the cursor's
/// span onto its lexeme, which `slice` then reads.
#[derive(Debug)]
pub struct Lexer<'source> {
    source: &'source str,
    start: usize,
    end: usize,
}

impl<'source> Lexer<'source> {
    /// The bytes of the source text.
    pub closed spec fn text(&self) -> Seq<u8> {
        self.source.spec_bytes()
    }

    /// Where the span that the lexer stands on starts.
    pub closed spec fn start(&self) -> int {
        self.start as int
    }

    /// Where the span that the lexer stands on ends.
    pub closed spec fn end(&self) -> int {
        self.end as int
    }

    /// The span lies in the text, between two character boundaries.
    pub open spec fn wf(&self) -> bool {
        &&& self.start() <= self.end()
        &&& placed(self.text(), self.start())
        &&& placed(self.text(), self.end())
    }

    /// A lexer at the start of `source`.
    pub fn new(source: &'source str) -> (lexer: Self)
        ensures
            lexer.wf(),
            lexer.text() == source.spec_bytes(),
            lexer.start() == 0,
            lexer.end() == 0,
    {
        proof {
            lemma_str_decodes(source);
        }
        Lexer { source, start: 0, end: 0 }
    }

    /// Yields the next token or error, or nothing at the end of the text, and
    /// moves the span onto what it yielded.
    pub fn next(&mut self) -> (item: Option<Kind>)
        requires
            old(self).wf(),
        ensures
            final(self).wf(),
            final(self).text() == old(self).text(),
            item == scan(old(self).text(), old(self).end()).item,
            final(self).start() == scan(old(self).text(), old(self).end()).start,
            final(self).end() == scan(old(self).text(), old(self).end()).end,
    {
        let bytes = self.source.as_bytes();
        proof {
            lemma_scan(bytes@, self.end as int);
            lemma_skip_trivia(bytes@, self.end as int);
        }
        let p = skip(bytes, self.end);
        if p < bytes.len() {
            let (kind, e) = token(self.source, p);
            self.start = p;
            self.end = e;
            Some(kind)
        } else {
            self.start = p;
            self.end = p;
            None
        }
    }

    /// The byte span that the lexer stands on.
    pub fn span(&self) -> (span: (usize, usize))
        ensures
            span.0 == self.start(),
            span.1 == self.end(),
    {
        (self.start, self.end)
    }

    /// The text of the span that the lexer stands on.
    pub fn slice(&self) -> (lexeme: &'source str)
        requires
            self.wf(),
        ensures
            lexeme.spec_bytes() == self.text().subrange(self.start(), self.end()),
            lexeme@ == decode_utf8(self.text().subrange(self.start(), self.end())),
    {
        cut(self.source, self.start, self.end)
    }
}

} // verus!
