//! What the lexer accepts, as functions on sequences of characters.
//!
//! [`lex`] maps a whole input to its tokens or to the first failure. The
//! executable lexer is proved to compute exactly this function.
//!
//! The lexer reads one character at a time and is in one of four states.
//! Between tokens it is at rest: that is [`lex_from`]. Inside a string, a
//! number or a keyword it is [`scan_string`], [`scan_number`] or
//! [`scan_keyword`], which carry the text gathered so far.

use vstd::prelude::*;
use crate::error::{LexError, LexErrorKind, Report};
use crate::position::{column_of, line_of};
use crate::token::TokenView;

verus! {

/// Why lexing stopped.
pub enum Fault {
    /// A backslash in a string was followed by a character that is no
    /// escape code.
    UnknownEscape,
    /// A raw newline stood inside a string.
    NewlineInString,
    /// The input ended inside a string.
    UnterminatedString,
    /// A number held a second decimal point.
    RepeatedPoint,
    /// A number ended directly after its decimal point.
    TrailingPoint,
    /// The input ended inside a number.
    UnterminatedNumber,
    /// The letters of a keyword spelled none of `true`, `false`, `null`.
    InvalidKeyword,
    /// The input ended inside a keyword.
    UnterminatedKeyword,
    /// A character stood where no token can start.
    UnrecognizedCharacter,
}

/// A failure and the offset of the character it blames. When the input
/// ended too early that is the last character of the input.
pub struct Failure {
    pub fault: Fault,
    pub at: int,
}

/// The text of a string, number or keyword and the offset at which its scan
/// came to rest: on the closing quote of a string, on the first character
/// after a number or keyword.
pub struct Lexeme {
    pub text: Seq<char>,
    pub end: int,
}

/// The characters that are skipped between tokens.
pub open spec fn is_whitespace(c: char) -> bool {
    c == ' ' || c == '\t' || c == '\n' || c == '\r'
}

/// The decimal digits.
pub open spec fn is_digit(c: char) -> bool {
    '0' <= c <= '9'
}

/// The token a structural character stands for.
pub open spec fn structural(c: char) -> Option<TokenView> {
    if c == '{' {
        Some(TokenView::LeftBrace)
    } else if c == '}' {
        Some(TokenView::RightBrace)
    } else if c == '[' {
        Some(TokenView::LeftBracket)
    } else if c == ']' {
        Some(TokenView::RightBracket)
    } else if c == ':' {
        Some(TokenView::Colon)
    } else if c == ',' {
        Some(TokenView::Comma)
    } else {
        None
    }
}

/// The character an escape code stands for: `c` is the character after the
/// backslash.
pub open spec fn unescape(c: char) -> Option<char> {
    if c == '"' {
        Some('"')
    } else if c == '\\' {
        Some('\\')
    } else if c == 'n' {
        Some('\n')
    } else if c == 'r' {
        Some('\r')
    } else if c == 't' {
        Some('\t')
    } else {
        None
    }
}

/// The letters with which a keyword starts.
pub open spec fn is_keyword_start(c: char) -> bool {
    c == 't' || c == 'f' || c == 'n'
}

/// The letters that continue a keyword once it has started.
pub open spec fn is_keyword_letter(c: char) -> bool {
    c == 'r' || c == 'u' || c == 'e' || c == 'a' || c == 'l' || c == 's'
}

/// The three keywords.
pub open spec fn is_keyword(text: Seq<char>) -> bool {
    text == "true"@ || text == "false"@ || text == "null"@
}

/// The characters after which a value is expected.
pub open spec fn opens_value(c: char) -> bool {
    c == ':' || c == '[' || c == ','
}

/// A value is expected at offset `i`: the last character before `i` that is
/// no whitespace is a colon, an opening bracket or a comma. Only there may a
/// keyword start.
pub open spec fn value_expected(s: Seq<char>, i: int) -> bool
    decreases i,
{
    if i <= 0 || i > s.len() {
        false
    } else if is_whitespace(s[i - 1]) {
        value_expected(s, i - 1)
    } else {
        opens_value(s[i - 1])
    }
}

/// Scans the inside of a string from offset `i` on. `text` is what has been
/// decoded so far and `escaped` says whether the character before `i` was an
/// unescaped backslash. The scan ends on the first quote that is not
/// escaped; a raw newline and an unknown escape code are faults.
pub open spec fn scan_string(s: Seq<char>, i: int, text: Seq<char>, escaped: bool) -> Result<
    Lexeme,
    Failure,
>
    decreases s.len() - i,
{
    if i < 0 || i >= s.len() {
        Err(Failure { fault: Fault::UnterminatedString, at: s.len() - 1 })
    } else if escaped {
        match unescape(s[i]) {
            Some(c) => scan_string(s, i + 1, text.push(c), false),
            None => Err(Failure { fault: Fault::UnknownEscape, at: i }),
        }
    } else if s[i] == '"' {
        Ok(Lexeme { text, end: i })
    } else if s[i] == '\\' {
        scan_string(s, i + 1, text, true)
    } else if s[i] == '\n' {
        Err(Failure { fault: Fault::NewlineInString, at: i })
    } else {
        scan_string(s, i + 1, text.push(s[i]), false)
    }
}

/// Scans a number from offset `i` on. `text` is the lexeme so far and
/// `pointed` says whether it holds a decimal point already. The scan ends
/// on the first character that is neither a digit nor a decimal point; a
/// second decimal point, and a decimal point with no digit behind it, are
/// faults.
pub open spec fn scan_number(s: Seq<char>, i: int, text: Seq<char>, pointed: bool) -> Result<
    Lexeme,
    Failure,
>
    decreases s.len() - i,
{
    if i < 0 || i >= s.len() {
        Err(Failure { fault: Fault::UnterminatedNumber, at: s.len() - 1 })
    } else if is_digit(s[i]) {
        scan_number(s, i + 1, text.push(s[i]), pointed)
    } else if s[i] == '.' {
        if pointed {
            Err(Failure { fault: Fault::RepeatedPoint, at: i })
        } else {
            scan_number(s, i + 1, text.push('.'), true)
        }
    } else if text.len() > 0 && text.last() == '.' {
        Err(Failure { fault: Fault::TrailingPoint, at: i })
    } else {
        Ok(Lexeme { text, end: i })
    }
}

/// Scans a keyword from offset `i` on. `text` holds the letters so far. The
/// scan ends on the first character that is no keyword letter; letters that
/// spell no keyword are a fault.
pub open spec fn scan_keyword(s: Seq<char>, i: int, text: Seq<char>) -> Result<Lexeme, Failure>
    decreases s.len() - i,
{
    if i < 0 || i >= s.len() {
        Err(Failure { fault: Fault::UnterminatedKeyword, at: s.len() - 1 })
    } else if is_keyword_letter(s[i]) {
        scan_keyword(s, i + 1, text.push(s[i]))
    } else if is_keyword(text) {
        Ok(Lexeme { text, end: i })
    } else {
        Err(Failure { fault: Fault::InvalidKeyword, at: i })
    }
}

/// A string scan that succeeds comes to rest inside the input, at or after
/// the offset it started from, on a quote.
pub proof fn lemma_scan_string_end(s: Seq<char>, i: int, text: Seq<char>, escaped: bool)
    requires
        0 <= i,
    ensures
        scan_string(s, i, text, escaped) matches Ok(lexeme) ==> i <= lexeme.end < s.len()
            && s[lexeme.end] == '"',
    decreases s.len() - i,
{
    if i < s.len() {
        if escaped {
            if let Some(c) = unescape(s[i]) {
                lemma_scan_string_end(s, i + 1, text.push(c), false);
            }
        } else if s[i] == '"' {
        } else if s[i] == '\\' {
            lemma_scan_string_end(s, i + 1, text, true);
        } else if s[i] == '\n' {
        } else {
            lemma_scan_string_end(s, i + 1, text.push(s[i]), false);
        }
    }
}

/// A number scan that succeeds comes to rest inside the input, at or after
/// the offset it started from.
pub proof fn lemma_scan_number_end(s: Seq<char>, i: int, text: Seq<char>, pointed: bool)
    requires
        0 <= i,
    ensures
        scan_number(s, i, text, pointed) matches Ok(lexeme) ==> i <= lexeme.end < s.len(),
    decreases s.len() - i,
{
    if i < s.len() {
        if is_digit(s[i]) {
            lemma_scan_number_end(s, i + 1, text.push(s[i]), pointed);
        } else if s[i] == '.' && !pointed {
            lemma_scan_number_end(s, i + 1, text.push('.'), true);
        }
    }
}

/// A keyword scan that succeeds comes to rest inside the input, at or after
/// the offset it started from.
pub proof fn lemma_scan_keyword_end(s: Seq<char>, i: int, text: Seq<char>)
    requires
        0 <= i,
    ensures
        scan_keyword(s, i, text) matches Ok(lexeme) ==> i <= lexeme.end < s.len(),
    decreases s.len() - i,
{
    if i < s.len() && is_keyword_letter(s[i]) {
        lemma_scan_keyword_end(s, i + 1, text.push(s[i]));
    }
}

/// Lexes `s` from offset `i` on, with `tokens` already produced. Whitespace
/// is skipped; a structural character is a token by itself; a quote, a digit
/// and, where a value is expected, one of the letters `t`, `f`, `n` start a
/// string, a number and a keyword; every other character is a fault. A
/// number or keyword ends before the character that closes it, which is
/// lexed next.
pub open spec fn lex_from(s: Seq<char>, i: int, tokens: Seq<TokenView>) -> Result<
    Seq<TokenView>,
    Failure,
>
    decreases s.len() - i,
{
    if i < 0 || i >= s.len() {
        Ok(tokens.push(TokenView::Eof))
    } else if is_whitespace(s[i]) {
        lex_from(s, i + 1, tokens)
    } else if let Some(token) = structural(s[i]) {
        lex_from(s, i + 1, tokens.push(token))
    } else if s[i] == '"' {
        match scan_string(s, i + 1, Seq::empty(), false) {
            Ok(lexeme) => {
                proof {
                    lemma_scan_string_end(s, i + 1, Seq::empty(), false);
                }
                lex_from(s, lexeme.end + 1, tokens.push(TokenView::String(lexeme.text)))
            },
            Err(failure) => Err(failure),
        }
    } else if is_digit(s[i]) {
        match scan_number(s, i + 1, seq![s[i]], false) {
            Ok(lexeme) => {
                proof {
                    lemma_scan_number_end(s, i + 1, seq![s[i]], false);
                }
                lex_from(s, lexeme.end, tokens.push(TokenView::Number(lexeme.text)))
            },
            Err(failure) => Err(failure),
        }
    } else if is_keyword_start(s[i]) && value_expected(s, i) {
        match scan_keyword(s, i + 1, seq![s[i]]) {
            Ok(lexeme) => {
                proof {
                    lemma_scan_keyword_end(s, i + 1, seq![s[i]]);
                }
                lex_from(s, lexeme.end, tokens.push(TokenView::Keyword(lexeme.text)))
            },
            Err(failure) => Err(failure),
        }
    } else {
        Err(Failure { fault: Fault::UnrecognizedCharacter, at: i })
    }
}

/// The tokens of `s`, ending in `Eof`, or the first failure.
pub open spec fn lex(s: Seq<char>) -> Result<Seq<TokenView>, Failure> {
    lex_from(s, 0, Seq::empty())
}

/// The kind of error that reports a fault.
pub open spec fn fault_kind(fault: Fault) -> LexErrorKind {
    match fault {
        Fault::UnknownEscape | Fault::NewlineInString => LexErrorKind::MalformedString,
        Fault::RepeatedPoint | Fault::TrailingPoint => LexErrorKind::MalformedNumber,
        Fault::InvalidKeyword => LexErrorKind::MalformedKeyword,
        Fault::UnterminatedString | Fault::UnterminatedNumber | Fault::UnterminatedKeyword =>
            LexErrorKind::UnexpectedEof,
        Fault::UnrecognizedCharacter => LexErrorKind::UnrecognizedCharacter,
    }
}

/// The message that goes with a fault; `blamed` is the character it blames.
pub open spec fn fault_message(fault: Fault, blamed: char) -> Seq<char> {
    match fault {
        Fault::UnknownEscape => "Unknown escape character in string"@,
        Fault::NewlineInString => "Unexpected end of string"@,
        Fault::UnterminatedString => "Missing right double quotes"@,
        Fault::RepeatedPoint | Fault::TrailingPoint => "Invalid number format"@,
        Fault::InvalidKeyword => "Invalid keyword"@,
        Fault::UnterminatedNumber | Fault::UnterminatedKeyword => "Reached EOF"@,
        Fault::UnrecognizedCharacter => "Unidentified character: "@.push(blamed),
    }
}

/// Whether `error` reports `failure` of the input `s`: it has the kind and
/// message of the fault, and the line and column of the blamed character.
pub open spec fn describes(error: LexError, s: Seq<char>, failure: Failure) -> bool {
    &&& error.spec_kind() == fault_kind(failure.fault)
    &&& error.report() == (Report {
        message: fault_message(failure.fault, s[failure.at]),
        line: line_of(s, failure.at),
        column: column_of(s, failure.at),
    })
}

} // verus!
