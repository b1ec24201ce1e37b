//! The values of literals.

use vstd::prelude::*;
use std::num::ParseIntError;
use vstd::string::StringSliceAdditionalSpecFns;
use crate::ast::LiteralExpr;
use crate::error::ParseError;
use crate::grammar::{
    decimal_value, float_literal, int_literal, is_digits, str_literal, uint_literal,
    without_char, without_separators,
};
use crate::scan::{is_digit, Class};
use crate::text::{
    all_ascii, ascii_chars, cut, lemma_ascii_byte_boundaries, lemma_ascii_decodes,
    lemma_boundary_by_byte, lemma_str_decodes,
};

verus! {

/// Whether `text` is digits and separators, and starts with a digit.
pub open spec fn is_number_text(text: Seq<char>) -> bool {
    &&& text.len() >= 1
    &&& '0' <= text[0] <= '9'
    &&& forall|i: int| 0 <= i < text.len() ==> '0' <= #[trigger] text[i] <= '9' || text[i] == '_'
}

/// Without its separators such a text is digits, at least one.
pub proof fn lemma_number_text_digits(text: Seq<char>)
    requires
        is_number_text(text),
    ensures
        is_digits(without_separators(text)),
        without_separators(text).len() >= 1,
    decreases text.len(),
{
    if text.len() > 1 {
        let front = text.drop_last();
        assert(is_number_text(front)) by {
            assert forall|i: int| 0 <= i < front.len() implies '0' <= #[trigger] front[i] <= '9'
                || front[i] == '_' by {
                assert(front[i] == text[i]);
            }
        }
        lemma_number_text_digits(front);
    } else {
        assert(text.drop_last().len() == 0);
        assert(without_separators(text.drop_last()) =~= seq![]);
    }
}

/// The text of an integer literal's bytes is digits and separators, and
/// starts with a digit.
pub proof fn lemma_number_bytes_text(bytes: Seq<u8>)
    requires
        bytes.len() >= 1,
        is_digit(bytes[0]),
        forall|i: int| 0 <= i < bytes.len() ==> Class::DigitOrSeparator.has(#[trigger] bytes[i]),
    ensures
        is_number_text(vstd::utf8::decode_utf8(bytes)),
        vstd::utf8::decode_utf8(bytes) == ascii_chars(bytes),
{
    assert(all_ascii(bytes)) by {
        assert forall|i: int| 0 <= i < bytes.len() implies #[trigger] bytes[i] < 0x80 by {
            assert(Class::DigitOrSeparator.has(bytes[i]));
        }
    }
    lemma_ascii_decodes(bytes);
    let text = ascii_chars(bytes);
    assert forall|i: int| 0 <= i < text.len() implies '0' <= #[trigger] text[i] <= '9' || text[i]
        == '_' by {
        assert(Class::DigitOrSeparator.has(bytes[i]));
    }
}

/// The text of an unsigned integer literal's bytes is such a text with a
/// `u` behind it.
pub proof fn lemma_unsigned_bytes_text(bytes: Seq<u8>)
    requires
        bytes.len() >= 2,
        is_digit(bytes[0]),
        bytes.last() == 'u' as u8,
        forall|i: int|
            0 <= i < bytes.len() - 1 ==> Class::DigitOrSeparator.has(#[trigger] bytes[i]),
    ensures
        vstd::utf8::decode_utf8(bytes).len() >= 2,
        vstd::utf8::decode_utf8(bytes).last() == 'u',
        is_number_text(vstd::utf8::decode_utf8(bytes).drop_last()),
{
    assert(all_ascii(bytes)) by {
        assert forall|i: int| 0 <= i < bytes.len() implies #[trigger] bytes[i] < 0x80 by {
            if i < bytes.len() - 1 {
                assert(Class::DigitOrSeparator.has(bytes[i]));
            }
        }
    }
    lemma_ascii_decodes(bytes);
    let text = ascii_chars(bytes).drop_last();
    assert forall|i: int| 0 <= i < text.len() implies '0' <= #[trigger] text[i] <= '9' || text[i]
        == '_' by {
        assert(Class::DigitOrSeparator.has(bytes[i]));
    }
}

/// `str::replace`, with a character as what is looked for and the empty
/// string put in its place: by its documentation each match is replaced, so
/// that the text comes back without that character.
#[verifier::external_body]
fn remove_char(text: &str, c: char) -> (rest: String)
    ensures
        rest@ == without_char(text@, c),
{
    text.replace(c, "")
}

/// The text without the digit separator `_`.
fn remove_separators(text: &str) -> (digits: String)
    ensures
        digits@ == without_separators(text@),
{
    remove_char(text, '_')
}

/// `str::parse` to `i64`. By the documentation of `i64::from_str`, digits
/// alone are read as a decimal number; the conversion fails where that
/// number does not fit the type.
#[verifier::external_body]
fn parse_i64(digits: &str) -> (value: Result<i64, ParseIntError>)
    ensures
        is_digits(digits@) && digits@.len() >= 1 ==> match value {
            Ok(n) => n == decimal_value(digits@),
            Err(_) => decimal_value(digits@) > i64::MAX,
        },
{
    digits.parse::<i64>()
}

/// `str::parse` to `u64`. By the documentation of `u64::from_str`, digits
/// alone are read as a decimal number; the conversion fails where that
/// number does not fit the type.
#[verifier::external_body]
fn parse_u64(digits: &str) -> (value: Result<u64, ParseIntError>)
    ensures
        is_digits(digits@) && digits@.len() >= 1 ==> match value {
            Ok(n) => n == decimal_value(digits@),
            Err(_) => decimal_value(digits@) > u64::MAX,
        },
{
    digits.parse::<u64>()
}

/// The value of the signed integer literal `text`.
pub(crate) fn parse_int_literal(text: &str) -> (value: Result<LiteralExpr, ParseError>)
    requires
        is_number_text(text@),
    ensures
        match value {
            Ok(literal) => int_literal(text@) == Ok::<_, crate::error::ParseErrorView>(literal@),
            Err(error) => int_literal(text@) == Err::<crate::ast::LiteralView, _>(error@),
        },
{
    proof {
        lemma_number_text_digits(text@);
    }
    let digits = remove_separators(text);
    match parse_i64(digits.as_str()) {
        Ok(n) => Ok(LiteralExpr::Int(n)),
        Err(error) => Err(ParseError::ParseInt(error)),
    }
}

/// The value of the unsigned integer literal `text`, which ends in `u`.
pub(crate) fn parse_uint_literal(text: &str) -> (value: Result<LiteralExpr, ParseError>)
    requires
        text@.len() >= 2,
        text@.last() == 'u',
        is_number_text(text@.drop_last()),
    ensures
        match value {
            Ok(literal) => uint_literal(text@) == Ok::<_, crate::error::ParseErrorView>(literal@),
            Err(error) => uint_literal(text@) == Err::<crate::ast::LiteralView, _>(error@),
        },
{
    let len = text.as_bytes().len();
    proof {
        lemma_str_decodes(text);
        let bytes = text.spec_bytes();
        assert(vstd::utf8::is_ascii_chars(text@)) by {
            assert forall|i: int| 0 <= i < text@.len() implies '\0' <= #[trigger] text@[i]
                <= '\u{7f}' by {
                if i < text@.len() - 1 {
                    assert(text@.drop_last()[i] == text@[i]);
                }
            }
        }
        vstd::utf8::is_ascii_chars_encode_utf8(text@);
        lemma_boundary_by_byte(bytes, len - 1);
        lemma_boundary_by_byte(bytes, 0);
        let front = bytes.subrange(0, len - 1);
        assert(all_ascii(front));
        lemma_ascii_decodes(front);
        assert(ascii_chars(front) =~= text@.drop_last()) by {
            assert forall|i: int| 0 <= i < front.len() implies ascii_chars(front)[i]
                == text@.drop_last()[i] by {
                assert(text@[i] as u8 == bytes[i]);
            }
        }
        lemma_number_text_digits(text@.drop_last());
    }
    let digits = remove_separators(cut(text, 0, len - 1));
    match parse_u64(digits.as_str()) {
        Ok(n) => Ok(LiteralExpr::UInt(n)),
        Err(error) => Err(ParseError::ParseInt(error)),
    }
}

/// The float literal `text`, as its text without separators.
pub(crate) fn parse_float_literal(text: &str) -> (literal: LiteralExpr)
    ensures
        literal@ == float_literal(text@),
{
    LiteralExpr::Float(remove_separators(text))
}

/// The string literal `text`: what stands between its quotes.
pub(crate) fn parse_str_literal(text: &str) -> (literal: LiteralExpr)
    requires
        text.spec_bytes().len() >= 2,
        text.spec_bytes()[0] == '"' as u8,
        text.spec_bytes().last() == '"' as u8,
    ensures
        literal@ == str_literal(text.spec_bytes()),
{
    let len = text.as_bytes().len();
    proof {
        lemma_str_decodes(text);
        lemma_ascii_byte_boundaries(text.spec_bytes(), 0);
        lemma_boundary_by_byte(text.spec_bytes(), len - 1);
    }
    LiteralExpr::Str(cut(text, 1, len - 1).to_owned())
}

} // verus!
