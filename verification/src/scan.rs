//! The lexical grammar, as functions on the bytes of the source text.
//!
//! `scan` says which token starts at or after an offset, `lexemes` lists all
//! tokens from an offset on. The lexer is proved to compute `scan`.

use vstd::prelude::*;
use vstd::utf8::*;
use crate::lexer::{LexError, Token};
use crate::text::{char_end, lemma_ascii_byte_boundaries, lemma_boundary_by_byte, lemma_char_end_is_boundary};

verus! {

/// Sets of bytes that the grammar repeats.
#[derive(Clone, Copy, Debug, PartialEq, Eq, Structural)]
pub enum Class {
    /// Space, tab, line feed, form feed.
    Blank,
    /// A digit or the separator `_`.
    DigitOrSeparator,
    /// A letter, a digit or `_`.
    IdentPart,
    /// Anything but a line feed.
    LineRest,
}

/// Whether `b` is one of `0` to `9`.
pub open spec fn is_digit(b: u8) -> bool {
    '0' as u8 <= b <= '9' as u8
}

/// Whether `b` is a letter or `_`.
pub open spec fn is_ident_start(b: u8) -> bool {
    ||| 'a' as u8 <= b <= 'z' as u8
    ||| 'A' as u8 <= b <= 'Z' as u8
    ||| b == '_' as u8
}

impl Class {
    /// Whether `b` is in the set.
    pub open spec fn has(self, b: u8) -> bool {
        match self {
            Class::Blank => b == ' ' as u8 || b == '\t' as u8 || b == '\n' as u8 || b == 0x0c,
            Class::DigitOrSeparator => is_digit(b) || b == '_' as u8,
            Class::IdentPart => is_ident_start(b) || is_digit(b),
            Class::LineRest => b != '\n' as u8,
        }
    }
}

/// The end of the longest run of bytes of `class` that starts at `i`.
pub open spec fn run_end(s: Seq<u8>, i: int, class: Class) -> int
    decreases s.len() - i,
{
    if 0 <= i < s.len() && class.has(s[i]) {
        run_end(s, i + 1, class)
    } else {
        i
    }
}

/// Whether the byte at `i` exists and is the character `c`.
pub open spec fn is_at(s: Seq<u8>, i: int, c: char) -> bool {
    0 <= i < s.len() && s[i] == c as u8
}

/// The offset just past the first `*/` that starts at `i` or later.
pub open spec fn comment_close(s: Seq<u8>, i: int) -> Option<int>
    decreases s.len() - i,
{
    if i < 0 || i + 1 >= s.len() {
        None
    } else if s[i] == '*' as u8 && s[i + 1] == '/' as u8 {
        Some(i + 2)
    } else {
        comment_close(s, i + 1)
    }
}

/// The end of the blank run or comment that starts at `i`; `i` itself where
/// none starts. A block comment that is never closed is no comment.
pub open spec fn trivia_end(s: Seq<u8>, i: int) -> int {
    if !(0 <= i < s.len()) {
        i
    } else if Class::Blank.has(s[i]) {
        run_end(s, i, Class::Blank)
    } else if is_at(s, i, '/') && is_at(s, i + 1, '/') {
        run_end(s, i + 2, Class::LineRest)
    } else if is_at(s, i, '/') && is_at(s, i + 1, '*') {
        match comment_close(s, i + 2) {
            Some(e) => e,
            None => i,
        }
    } else {
        i
    }
}

/// The first offset from `i` on at which neither blanks nor a comment start.
pub open spec fn skip_trivia(s: Seq<u8>, i: int) -> int
    decreases s.len() - i,
{
    let e = trivia_end(s, i);
    if i < e {
        proof {
            lemma_trivia_end(s, i);
        }
        skip_trivia(s, e)
    } else {
        i
    }
}

/// The keyword that `text` spells, if any.
pub open spec fn keyword(text: Seq<char>) -> Option<Token> {
    if text == "fun"@ {
        Some(Token::Fun)
    } else if text == "class"@ {
        Some(Token::Class)
    } else if text == "let"@ {
        Some(Token::Let)
    } else if text == "val"@ {
        Some(Token::Val)
    } else if text == "var"@ {
        Some(Token::Var)
    } else if text == "pub"@ {
        Some(Token::Pub)
    } else if text == "priv"@ {
        Some(Token::Priv)
    } else if text == "import"@ {
        Some(Token::Import)
    } else if text == "group"@ {
        Some(Token::Group)
    } else if text == "ret"@ {
        Some(Token::Ret)
    } else if text == "new"@ {
        Some(Token::New)
    } else if text == "if"@ {
        Some(Token::If)
    } else if text == "else"@ {
        Some(Token::Else)
    } else if text == "while"@ {
        Some(Token::While)
    } else if text == "for"@ {
        Some(Token::For)
    } else if text == "in"@ {
        Some(Token::In)
    } else if text == "true"@ {
        Some(Token::True)
    } else if text == "false"@ {
        Some(Token::False)
    } else {
        None
    }
}

/// The token of a word: its keyword, or an identifier.
pub open spec fn word_token(text: Seq<char>) -> Token {
    match keyword(text) {
        Some(t) => t,
        None => Token::Ident,
    }
}

/// The operator or punctuation mark that starts at `p`, with its length. Of
/// two marks that start there the longer one is meant.
pub open spec fn symbol_at(s: Seq<u8>, p: int) -> Option<(Token, int)> {
    if is_at(s, p, '=') {
        if is_at(s, p + 1, '=') {
            Some((Token::EqualsEquals, 2))
        } else {
            Some((Token::Equals, 1))
        }
    } else if is_at(s, p, '!') {
        if is_at(s, p + 1, '=') {
            Some((Token::NotEquals, 2))
        } else {
            Some((Token::Not, 1))
        }
    } else if is_at(s, p, '<') {
        if is_at(s, p + 1, '=') {
            Some((Token::LessThanEquals, 2))
        } else {
            Some((Token::LessThan, 1))
        }
    } else if is_at(s, p, '>') {
        if is_at(s, p + 1, '=') {
            Some((Token::GreaterThanEquals, 2))
        } else {
            Some((Token::GreaterThan, 1))
        }
    } else if is_at(s, p, '&') {
        if is_at(s, p + 1, '&') {
            Some((Token::And, 2))
        } else {
            None
        }
    } else if is_at(s, p, '|') {
        if is_at(s, p + 1, '|') {
            Some((Token::Or, 2))
        } else {
            None
        }
    } else if is_at(s, p, '+') {
        Some((Token::Plus, 1))
    } else if is_at(s, p, '-') {
        Some((Token::Minus, 1))
    } else if is_at(s, p, '*') {
        Some((Token::Star, 1))
    } else if is_at(s, p, '/') {
        Some((Token::Slash, 1))
    } else if is_at(s, p, '%') {
        Some((Token::Percent, 1))
    } else if is_at(s, p, '@') {
        Some((Token::At, 1))
    } else if is_at(s, p, ';') {
        Some((Token::Semicolon, 1))
    } else if is_at(s, p, ':') {
        Some((Token::Colon, 1))
    } else if is_at(s, p, ',') {
        Some((Token::Comma, 1))
    } else if is_at(s, p, '.') {
        Some((Token::Dot, 1))
    } else if is_at(s, p, '(') {
        Some((Token::LeftParen, 1))
    } else if is_at(s, p, ')') {
        Some((Token::RightParen, 1))
    } else if is_at(s, p, '{') {
        Some((Token::LeftBrace, 1))
    } else if is_at(s, p, '}') {
        Some((Token::RightBrace, 1))
    } else if is_at(s, p, '[') {
        Some((Token::LeftBracket, 1))
    } else if is_at(s, p, ']') {
        Some((Token::RightBracket, 1))
    } else {
        None
    }
}

/// The offset just past the last digit of the run of digits and separators
/// between `p` and `r`.
pub open spec fn last_digit_end(s: Seq<u8>, p: int, r: int) -> int
    decreases r - p,
{
    if p < r && is_at(s, r - 1, '_') {
        last_digit_end(s, p, r - 1)
    } else {
        r
    }
}

/// The end of the fraction `.` digit (digit | `_`)* that starts at `r`.
pub open spec fn fraction_end(s: Seq<u8>, r: int) -> Option<int> {
    if is_at(s, r, '.') && r + 1 < s.len() && is_digit(s[r + 1]) {
        Some(run_end(s, r + 1, Class::DigitOrSeparator))
    } else {
        None
    }
}

/// The end of the exponent (`e` | `E`) (`+` | `-`)? digit (digit | `_`)* that
/// starts at `f`.
pub open spec fn exponent_end(s: Seq<u8>, f: int) -> Option<int> {
    if is_at(s, f, 'e') || is_at(s, f, 'E') {
        let q = if is_at(s, f + 1, '+') || is_at(s, f + 1, '-') {
            f + 2
        } else {
            f + 1
        };
        if 0 <= q < s.len() && is_digit(s[q]) {
            Some(run_end(s, q, Class::DigitOrSeparator))
        } else {
            None
        }
    } else {
        None
    }
}

/// The number that starts with the digit at `p`, and its end. A fraction
/// makes it a float, which may have an exponent; `u` straight after the last
/// digit makes it unsigned; else it is a signed integer that ends with its
/// last digit.
pub open spec fn number_at(s: Seq<u8>, p: int) -> (Token, int) {
    let r = run_end(s, p, Class::DigitOrSeparator);
    match fraction_end(s, r) {
        Some(f) => match exponent_end(s, f) {
            Some(e) => (Token::FloatLiteral, e),
            None => (Token::FloatLiteral, f),
        },
        None => if last_digit_end(s, p, r) == r && is_at(s, r, 'u') {
            (Token::UIntLiteral, r + 1)
        } else {
            (Token::IntLiteral, last_digit_end(s, p, r))
        },
    }
}

/// Reads on in a string literal from `i`: whether it is closed, and where it
/// ends. A backslash takes the next character with it, but not a line feed:
/// there, and where the text ends before the closing quote, the literal
/// breaks off.
pub open spec fn string_end(s: Seq<u8>, i: int) -> (bool, int)
    decreases s.len() - i,
{
    if i < 0 || i >= s.len() {
        (false, s.len() as int)
    } else if s[i] == '"' as u8 {
        (true, i + 1)
    } else if s[i] == '\\' as u8 {
        if i + 1 >= s.len() {
            (false, s.len() as int)
        } else if s[i + 1] == '\n' as u8 {
            (false, i + 1)
        } else {
            string_end(s, i + 2)
        }
    } else {
        string_end(s, i + 1)
    }
}

/// What the lexer yields for one stretch of text.
pub type Kind = Result<Token, LexError>;

/// The error for the stretch of text from `start` to `end`.
pub open spec fn lex_error(start: int, end: int) -> Kind {
    Err(LexError { start: start as usize, end: end as usize })
}

/// The token that starts at `p`, where no trivia starts, and its end.
///
/// A word is a keyword or an identifier. A text that no rule matches is an
/// error that spans one character; a string literal that breaks off is an
/// error up to the point where it does.
pub open spec fn token_at(s: Seq<u8>, p: int) -> (Kind, int) {
    if is_ident_start(s[p]) {
        let e = run_end(s, p, Class::IdentPart);
        (Ok(word_token(decode_utf8(s.subrange(p, e)))), e)
    } else if is_digit(s[p]) {
        let (token, e) = number_at(s, p);
        (Ok(token), e)
    } else if is_at(s, p, '"') {
        let (closed, e) = string_end(s, p + 1);
        if closed {
            (Ok(Token::StrLiteral), e)
        } else {
            (lex_error(p, e), e)
        }
    } else {
        match symbol_at(s, p) {
            Some((token, n)) => (Ok(token), p + n),
            None => (lex_error(p, char_end(s, p)), char_end(s, p)),
        }
    }
}

/// One step of the lexer: what it yields, and the span it stands on after.
pub struct Scan {
    pub item: Option<Kind>,
    pub start: int,
    pub end: int,
}

/// The step that the lexer takes from `pos`: it passes blanks and comments,
/// then yields the token that starts there. At the end of the text it yields
/// nothing and stands on the empty span there.
pub open spec fn scan(s: Seq<u8>, pos: int) -> Scan {
    let p = skip_trivia(s, pos);
    if 0 <= p < s.len() {
        let (kind, e) = token_at(s, p);
        Scan { item: Some(kind), start: p, end: e }
    } else {
        Scan { item: None, start: p, end: p }
    }
}

/// A token with the bytes of its lexeme.
pub struct Lexeme {
    pub kind: Kind,
    pub bytes: Seq<u8>,
}

impl Lexeme {
    /// The lexeme as characters.
    pub open spec fn text(self) -> Seq<char> {
        decode_utf8(self.bytes)
    }
}

/// Whether `pos` is an offset of the text `s` at which a character starts or
/// the text ends.
pub open spec fn placed(s: Seq<u8>, pos: int) -> bool {
    &&& valid_utf8(s)
    &&& 0 <= pos <= s.len()
    &&& is_char_boundary(s, pos)
}

/// All that the lexer yields from `pos` to the end of the text, errors too.
pub open spec fn lexemes(s: Seq<u8>, pos: int) -> Seq<Lexeme>
    recommends
        placed(s, pos),
    decreases s.len() - pos,
    when placed(s, pos)
{
    let step = scan(s, pos);
    match step.item {
        Some(kind) => {
            proof {
                lemma_scan(s, pos);
            }
            seq![Lexeme { kind, bytes: s.subrange(step.start, step.end) }] + lexemes(s, step.end)
        },
        None => seq![],
    }
}

/// The tokens of a whole source text.
pub open spec fn tokenize(source: Seq<char>) -> Seq<Lexeme> {
    lexemes(encode_utf8(source), 0)
}

/// A run stays inside the text, holds only bytes of its class, and stops at
/// the first byte that is not of it.
pub proof fn lemma_run_end(s: Seq<u8>, i: int, class: Class)
    requires
        0 <= i <= s.len(),
    ensures
        i <= run_end(s, i, class) <= s.len(),
        forall|k: int| i <= k < run_end(s, i, class) ==> class.has(#[trigger] s[k]),
        run_end(s, i, class) < s.len() ==> !class.has(s[run_end(s, i, class)]),
    decreases s.len() - i,
{
    if i < s.len() && class.has(s[i]) {
        lemma_run_end(s, i + 1, class);
    }
}

/// The close of a block comment lies inside the text, behind its `*/`.
pub proof fn lemma_comment_close(s: Seq<u8>, i: int)
    requires
        0 <= i,
    ensures
        match comment_close(s, i) {
            Some(e) => i + 2 <= e <= s.len() && s[e - 1] == '/' as u8,
            None => true,
        },
    decreases s.len() - i,
{
    if i + 1 < s.len() && !(s[i] == '*' as u8 && s[i + 1] == '/' as u8) {
        lemma_comment_close(s, i + 1);
    }
}

/// Blanks and comments never reach beyond the text.
pub proof fn lemma_trivia_end(s: Seq<u8>, i: int)
    ensures
        i <= trivia_end(s, i),
        i < trivia_end(s, i) ==> trivia_end(s, i) <= s.len(),
{
    if 0 <= i < s.len() {
        lemma_run_end(s, i, Class::Blank);
        if i + 2 <= s.len() {
            lemma_run_end(s, i + 2, Class::LineRest);
        }
        lemma_comment_close(s, i + 2);
    }
}

/// Blanks and comments end where a character starts.
pub proof fn lemma_trivia_boundary(s: Seq<u8>, i: int)
    requires
        placed(s, i),
    ensures
        placed(s, trivia_end(s, i)),
{
    let e = trivia_end(s, i);
    lemma_trivia_end(s, i);
    if i < e {
        if Class::Blank.has(s[i]) {
            lemma_run_end(s, i, Class::Blank);
            assert(Class::Blank.has(s[e - 1]));
            lemma_ascii_byte_boundaries(s, e - 1);
        } else if is_at(s, i + 1, '/') {
            lemma_run_end(s, i + 2, Class::LineRest);
            lemma_boundary_by_byte(s, e);
        } else {
            lemma_comment_close(s, i + 2);
            lemma_ascii_byte_boundaries(s, e - 1);
        }
    }
}

/// Skipping ends inside the text, where a character starts and no blank or
/// comment does; skipping again from there changes nothing.
pub proof fn lemma_skip_trivia(s: Seq<u8>, i: int)
    requires
        placed(s, i),
    ensures
        i <= skip_trivia(s, i),
        placed(s, skip_trivia(s, i)),
        trivia_end(s, skip_trivia(s, i)) == skip_trivia(s, i),
        skip_trivia(s, skip_trivia(s, i)) == skip_trivia(s, i),
    decreases s.len() - i,
{
    lemma_trivia_end(s, i);
    lemma_trivia_boundary(s, i);
    if i < trivia_end(s, i) {
        lemma_skip_trivia(s, trivia_end(s, i));
    }
}

/// The last digit of a run that starts with a digit.
pub proof fn lemma_last_digit_end(s: Seq<u8>, p: int, r: int)
    requires
        0 <= p < r <= s.len(),
        is_digit(s[p]),
    ensures
        p < last_digit_end(s, p, r) <= r,
        !is_at(s, last_digit_end(s, p, r) - 1, '_'),
    decreases r - p,
{
    if is_at(s, r - 1, '_') {
        lemma_last_digit_end(s, p, r - 1);
    }
}

/// A number ends inside the text, behind an ASCII byte.
pub proof fn lemma_number_at(s: Seq<u8>, p: int)
    requires
        0 <= p < s.len(),
        is_digit(s[p]),
    ensures
        p < number_at(s, p).1 <= s.len(),
        s[number_at(s, p).1 - 1] < 0x80,
{
    let r = run_end(s, p, Class::DigitOrSeparator);
    lemma_run_end(s, p, Class::DigitOrSeparator);
    lemma_last_digit_end(s, p, r);
    match fraction_end(s, r) {
        Some(f) => {
            lemma_run_end(s, r + 1, Class::DigitOrSeparator);
            assert(Class::DigitOrSeparator.has(s[f - 1]));
            match exponent_end(s, f) {
                Some(e) => {
                    let q = if is_at(s, f + 1, '+') || is_at(s, f + 1, '-') {
                        f + 2
                    } else {
                        f + 1
                    };
                    lemma_run_end(s, q, Class::DigitOrSeparator);
                    assert(Class::DigitOrSeparator.has(s[e - 1]));
                },
                None => {},
            }
        },
        None => {
            let d = last_digit_end(s, p, r);
            assert(Class::DigitOrSeparator.has(s[d - 1]));
        },
    }
}

/// A string literal ends inside the text: closed behind its quote, else at the
/// end of the text or in front of a line feed.
pub proof fn lemma_string_end(s: Seq<u8>, i: int)
    requires
        0 <= i <= s.len(),
    ensures
        i <= string_end(s, i).1 <= s.len(),
        string_end(s, i).0 ==> i < string_end(s, i).1 && s[string_end(s, i).1 - 1] == '"' as u8,
        !string_end(s, i).0 ==> string_end(s, i).1 == s.len() || s[string_end(s, i).1] == '\n' as u8,
    decreases s.len() - i,
{
    if i < s.len() && s[i] != '"' as u8 {
        if s[i] == '\\' as u8 {
            if i + 1 < s.len() && s[i + 1] != '\n' as u8 {
                lemma_string_end(s, i + 2);
            }
        } else {
            lemma_string_end(s, i + 1);
        }
    }
}

/// A token is not empty and ends inside the text, where a character starts.
pub proof fn lemma_token_at(s: Seq<u8>, p: int)
    requires
        placed(s, p),
        p < s.len(),
    ensures
        p < token_at(s, p).1,
        placed(s, token_at(s, p).1),
{
    let e = token_at(s, p).1;
    if is_ident_start(s[p]) {
        lemma_run_end(s, p, Class::IdentPart);
        lemma_run_end(s, p + 1, Class::IdentPart);
        assert(Class::IdentPart.has(s[e - 1]));
        lemma_ascii_byte_boundaries(s, e - 1);
    } else if is_digit(s[p]) {
        lemma_number_at(s, p);
        lemma_ascii_byte_boundaries(s, e - 1);
    } else if is_at(s, p, '"') {
        lemma_string_end(s, p + 1);
        if string_end(s, p + 1).0 {
            lemma_ascii_byte_boundaries(s, e - 1);
        } else {
            lemma_boundary_by_byte(s, e);
        }
    } else {
        match symbol_at(s, p) {
            Some((token, n)) => {
                lemma_ascii_byte_boundaries(s, e - 1);
            },
            None => {
                lemma_char_end_is_boundary(s, p);
            },
        }
    }
}

/// A step of the lexer from a character boundary stays inside the text and
/// ends on a character boundary; what it yields is not empty, and it yields
/// nothing only at the end of the text. Blanks and comments in front of a
/// token do not change the step.
pub proof fn lemma_scan(s: Seq<u8>, pos: int)
    requires
        placed(s, pos),
    ensures
        pos <= scan(s, pos).start <= scan(s, pos).end,
        placed(s, scan(s, pos).start),
        placed(s, scan(s, pos).end),
        scan(s, pos).item is Some ==> scan(s, pos).start < scan(s, pos).end,
        scan(s, pos).item is None ==> scan(s, pos).start == s.len(),
        scan(s, scan(s, pos).start) == scan(s, pos),
{
    lemma_skip_trivia(s, pos);
    let p = skip_trivia(s, pos);
    if p < s.len() {
        lemma_token_at(s, p);
    }
}

/// The lexemes from `pos` on are the one that the lexer's step from `pos`
/// yields and those from its end on; blanks and comments in front of a token
/// change nothing.
pub proof fn lemma_lexemes_step(s: Seq<u8>, pos: int)
    requires
        placed(s, pos),
    ensures
        lexemes(s, scan(s, pos).start) == lexemes(s, pos),
        match scan(s, pos).item {
            Some(kind) => {
                &&& lexemes(s, pos).len() >= 1
                &&& lexemes(s, pos)[0] == (Lexeme {
                    kind,
                    bytes: s.subrange(scan(s, pos).start, scan(s, pos).end),
                })
                &&& lexemes(s, pos).skip(1) == lexemes(s, scan(s, pos).end)
            },
            None => lexemes(s, pos).len() == 0,
        },
{
    lemma_scan(s, pos);
    let step = scan(s, pos);
    assert(scan(s, step.start) == step);
    match step.item {
        Some(kind) => {
            let first = seq![Lexeme { kind, bytes: s.subrange(step.start, step.end) }];
            assert(lexemes(s, pos) == first + lexemes(s, step.end));
            assert(lexemes(s, pos).skip(1) =~= lexemes(s, step.end));
        },
        None => {},
    }
}

/// What is known of a lexeme's bytes from its kind: an integer literal is
/// digits and separators and starts with a digit, an unsigned one has a `u`
/// behind them, a string literal stands between two quotes.
pub open spec fn shaped(lexeme: Lexeme) -> bool {
    let bytes = lexeme.bytes;
    match lexeme.kind {
        Ok(Token::IntLiteral) => {
            &&& bytes.len() >= 1
            &&& is_digit(bytes[0])
            &&& forall|i: int| 0 <= i < bytes.len() ==> Class::DigitOrSeparator.has(#[trigger] bytes[i])
        },
        Ok(Token::UIntLiteral) => {
            &&& bytes.len() >= 2
            &&& is_digit(bytes[0])
            &&& bytes.last() == 'u' as u8
            &&& forall|i: int|
                0 <= i < bytes.len() - 1 ==> Class::DigitOrSeparator.has(#[trigger] bytes[i])
        },
        Ok(Token::StrLiteral) => {
            &&& bytes.len() >= 2
            &&& bytes[0] == '"' as u8
            &&& bytes.last() == '"' as u8
        },
        _ => true,
    }
}

/// Every token that the lexer yields has the shape of its kind.
pub proof fn lemma_scan_shaped(s: Seq<u8>, pos: int)
    requires
        placed(s, pos),
        scan(s, pos).item is Some,
    ensures
        shaped(
            Lexeme {
                kind: scan(s, pos).item->0,
                bytes: s.subrange(scan(s, pos).start, scan(s, pos).end),
            },
        ),
{
    lemma_scan(s, pos);
    let p = scan(s, pos).start;
    let e = scan(s, pos).end;
    let bytes = s.subrange(p, e);
    lemma_token_at(s, p);
    if is_ident_start(s[p]) {
    } else if is_digit(s[p]) {
        let r = run_end(s, p, Class::DigitOrSeparator);
        lemma_run_end(s, p, Class::DigitOrSeparator);
        lemma_last_digit_end(s, p, r);
        lemma_number_at(s, p);
        if fraction_end(s, r) is None {
            assert forall|i: int| 0 <= i < e - p && p + i < r implies Class::DigitOrSeparator.has(
                #[trigger] bytes[i],
            ) by {
                assert(Class::DigitOrSeparator.has(s[p + i]));
            }
        }
    } else if is_at(s, p, '"') {
        lemma_string_end(s, p + 1);
    } else {
    }
}

/// Every lexeme of a text has the shape of its kind.
pub proof fn lemma_lexemes_shaped(s: Seq<u8>, pos: int, i: int)
    requires
        placed(s, pos),
        0 <= i < lexemes(s, pos).len(),
    ensures
        shaped(lexemes(s, pos)[i]),
    decreases i,
{
    lemma_scan(s, pos);
    lemma_scan_shaped(s, pos);
    if i > 0 {
        lemma_lexemes_shaped(s, scan(s, pos).end, i - 1);
    }
}

} // verus!
