//! The lexer: turns a JSON text into tokens, or into the first failure with
//! the line and column of the character it blames.

use vstd::prelude::*;
use crate::error::{EofError, InvalidStringError, LexError, LexErrorKind, ParseError, Report};
use crate::grammar::{
    describes, fault_kind, lemma_scan_keyword_end, lemma_scan_number_end, lemma_scan_string_end,
    lex, lex_from, scan_keyword, scan_number, scan_string, value_expected, Failure,
};
use crate::position::{column_of, lemma_line_column_bounds, line_of, Position};
use crate::text::chars_of;
use crate::token::{lemma_token_views_push, token_views, Token, TokenView};

verus! {

/// The character at offset `i` of `s`, if there is one.
pub open spec fn char_at(s: Seq<char>, i: int) -> Option<char> {
    if 0 <= i < s.len() {
        Some(s[i])
    } else {
        None
    }
}

/// The cursor, made of `current` and `position`, rests on an offset of `s`
/// (or just behind its end): `position` holds that offset with its line and
/// column, and `current` the character there.
pub open spec fn cursor_on(s: Seq<char>, current: Option<char>, position: Position) -> bool {
    &&& 0 <= position.index <= s.len()
    &&& position.line == line_of(s, position.index as int)
    &&& position.column == column_of(s, position.index as int)
    &&& current == char_at(s, position.index as int)
}

/// The offset on which the cursor rests after `failure`: behind the end of
/// the input when the input ended too early, else on the blamed character.
pub open spec fn halt(s: Seq<char>, failure: Failure) -> int {
    if fault_kind(failure.fault) == LexErrorKind::UnexpectedEof {
        s.len() as int
    } else {
        failure.at
    }
}

/// Stepping past the character under the cursor leaves the cursor on the
/// next offset.
pub proof fn lemma_cursor_step(s: Seq<char>, current: Option<char>, position: Position)
    requires
        cursor_on(s, current, position),
        position.index < s.len(),
        s.len() <= usize::MAX,
    ensures
        cursor_on(s, char_at(s, position.index + 1), position.stepped(current)),
        position.stepped(current).index == position.index + 1,
{
    lemma_line_column_bounds(s, position.index as int);
}

/// Moves the cursor one character on: steps the position past the current
/// character, then loads the character at the new offset, or `None` behind
/// the end of the input.
pub fn advance(
    contents_chars: &Vec<char>,
    current_character: &mut Option<char>,
    current_position: &mut Position,
)
    requires
        -1 <= old(current_position).index < i128::MAX,
        old(current_position).line < i128::MAX,
        old(current_position).column < i128::MAX,
    ensures
        *final(current_position) == old(current_position).stepped(*old(current_character)),
        *final(current_character) == char_at(
            contents_chars@,
            final(current_position).index as int,
        ),
{
    current_position.advance(current_character);
    if current_position.index < contents_chars.len() as i128 {
        *current_character = Some(contents_chars[current_position.index as usize]);
    } else {
        *current_character = None;
    }
}

/// Scans a string literal. The cursor rests on the opening quote; on
/// success it rests on the closing quote and the decoded text is returned.
/// On failure the cursor rests on the blamed character, or behind the end of
/// the input where the input ended too early.
pub fn build_string(
    contents_chars: &Vec<char>,
    current_character: &mut Option<char>,
    current_position: &mut Position,
) -> (result: Result<String, LexError>)
    requires
        cursor_on(contents_chars@, *old(current_character), *old(current_position)),
        old(current_position).index < contents_chars@.len(),
    ensures
        cursor_on(contents_chars@, *final(current_character), *final(current_position)),
        match scan_string(contents_chars@, old(current_position).index + 1, Seq::empty(), false) {
            Ok(lexeme) => {
                &&& result matches Ok(text)
                &&& text@ == lexeme.text
                &&& final(current_position).index == lexeme.end
            },
            Err(failure) => {
                &&& result matches Err(error)
                &&& describes(error, contents_chars@, failure)
                &&& final(current_position).index == halt(contents_chars@, failure)
            },
        },
{
    let mut string = String::new();
    let mut check_escape_character = false;
    let ghost s = contents_chars@;
    let ghost goal = scan_string(s, old(current_position).index + 1, Seq::empty(), false);

    assert(s.len() == contents_chars.len());
    loop
        invariant
            s == contents_chars@,
            s.len() <= usize::MAX,
            cursor_on(s, *current_character, *current_position),
            current_position.index < s.len(),
            goal == scan_string(s, old(current_position).index + 1, Seq::empty(), false),
            goal == scan_string(s, current_position.index + 1, string@, check_escape_character),
        decreases s.len() - current_position.index,
    {
        // Should the input end here, the character left behind is blamed.
        let previous = *current_position;
        proof {
            lemma_cursor_step(s, *current_character, *current_position);
            lemma_line_column_bounds(s, current_position.index as int);
        }
        advance(contents_chars, current_character, current_position);

        match *current_character {
            Some(character) => {
                if check_escape_character {
                    match character {
                        '"' => string.push('"'),
                        '\\' => string.push('\\'),
                        'n' => string.push('\n'),
                        'r' => string.push('\r'),
                        't' => string.push('\t'),
                        _ => {
                            return Err(
                                LexError::MalformedString(
                                    InvalidStringError::new(
                                        "Unknown escape character in string",
                                        current_position.line,
                                        current_position.column,
                                    ),
                                ),
                            );
                        },
                    }
                    check_escape_character = false;
                } else {
                    match character {
                        '"' => {
                            return Ok(string);
                        },
                        '\\' => check_escape_character = true,
                        '\n' => {
                            return Err(
                                LexError::MalformedString(
                                    InvalidStringError::new(
                                        "Unexpected end of string",
                                        current_position.line,
                                        current_position.column,
                                    ),
                                ),
                            );
                        },
                        _ => string.push(character),
                    }
                }
            },
            None => {
                return Err(
                    LexError::UnexpectedEof(
                        EofError::new(
                            "Missing right double quotes",
                            previous.line,
                            previous.column,
                        ),
                    ),
                );
            },
        }
    }
}

/// Scans a number. The cursor rests on its first digit; on success it
/// rests on the first character after the number and the lexeme is
/// returned. On failure the cursor rests on the blamed character, or behind
/// the end of the input where the input ended too early.
pub fn build_number(
    contents_chars: &Vec<char>,
    current_character: &mut Option<char>,
    current_position: &mut Position,
) -> (result: Result<String, LexError>)
    requires
        cursor_on(contents_chars@, *old(current_character), *old(current_position)),
        old(current_position).index < contents_chars@.len(),
    ensures
        cursor_on(contents_chars@, *final(current_character), *final(current_position)),
        match scan_number(
            contents_chars@,
            old(current_position).index + 1,
            seq![contents_chars@[old(current_position).index as int]],
            false,
        ) {
            Ok(lexeme) => {
                &&& result matches Ok(text)
                &&& text@ == lexeme.text
                &&& final(current_position).index == lexeme.end
            },
            Err(failure) => {
                &&& result matches Err(error)
                &&& describes(error, contents_chars@, failure)
                &&& final(current_position).index == halt(contents_chars@, failure)
            },
        },
{
    let mut number = String::new();
    let mut is_floating_point = false;
    let ghost s = contents_chars@;
    let ghost start = old(current_position).index as int;
    let ghost goal = scan_number(s, start + 1, seq![s[start]], false);

    let first = current_character.unwrap();
    number.push(first);
    let mut last_character = first;
    assert(number@ == seq![s[start]]);
    assert(s.len() == contents_chars.len());

    loop
        invariant
            s == contents_chars@,
            s.len() <= usize::MAX,
            cursor_on(s, *current_character, *current_position),
            current_position.index < s.len(),
            start == old(current_position).index,
            goal == scan_number(s, start + 1, seq![s[start]], false),
            goal == scan_number(s, current_position.index + 1, number@, is_floating_point),
            (last_character == '.') == (number@.len() > 0 && number@.last() == '.'),
        decreases s.len() - current_position.index,
    {
        // Should the input end here, the character left behind is blamed.
        let previous = *current_position;
        proof {
            lemma_cursor_step(s, *current_character, *current_position);
            lemma_line_column_bounds(s, current_position.index as int);
        }
        advance(contents_chars, current_character, current_position);

        match *current_character {
            Some(character) => {
                match character {
                    '0' | '1' | '2' | '3' | '4' | '5' | '6' | '7' | '8' | '9' => number.push(
                        character,
                    ),
                    '.' => {
                        if !is_floating_point {
                            number.push(character);
                            is_floating_point = true;
                        } else {
                            return Err(
                                LexError::MalformedNumber(
                                    ParseError::new(
                                        "Invalid number format".to_owned(),
                                        current_position.line,
                                        current_position.column,
                                    ),
                                ),
                            );
                        }
                    },
                    _ => {
                        if last_character == '.' {
                            return Err(
                                LexError::MalformedNumber(
                                    ParseError::new(
                                        "Invalid number format".to_owned(),
                                        current_position.line,
                                        current_position.column,
                                    ),
                                ),
                            );
                        }
                        return Ok(number);
                    },
                }
                last_character = character;
            },
            None => {
                return Err(
                    LexError::UnexpectedEof(
                        EofError::new("Reached EOF", previous.line, previous.column),
                    ),
                );
            },
        }
    }
}

/// Scans a keyword. The cursor rests on its first letter; on success it
/// rests on the first character after the keyword and the spelling is
/// returned. On failure the cursor rests on the blamed character, or behind
/// the end of the input where the input ended too early.
pub fn build_keyword(
    contents_chars: &Vec<char>,
    current_character: &mut Option<char>,
    current_position: &mut Position,
) -> (result: Result<String, LexError>)
    requires
        cursor_on(contents_chars@, *old(current_character), *old(current_position)),
        old(current_position).index < contents_chars@.len(),
    ensures
        cursor_on(contents_chars@, *final(current_character), *final(current_position)),
        match scan_keyword(
            contents_chars@,
            old(current_position).index + 1,
            seq![contents_chars@[old(current_position).index as int]],
        ) {
            Ok(lexeme) => {
                &&& result matches Ok(text)
                &&& text@ == lexeme.text
                &&& final(current_position).index == lexeme.end
            },
            Err(failure) => {
                &&& result matches Err(error)
                &&& describes(error, contents_chars@, failure)
                &&& final(current_position).index == halt(contents_chars@, failure)
            },
        },
{
    let mut keyword = String::new();
    let ghost s = contents_chars@;
    let ghost start = old(current_position).index as int;
    let ghost goal = scan_keyword(s, start + 1, seq![s[start]]);

    keyword.push(current_character.unwrap());
    assert(keyword@ == seq![s[start]]);
    assert(s.len() == contents_chars.len());

    loop
        invariant
            s == contents_chars@,
            s.len() <= usize::MAX,
            cursor_on(s, *current_character, *current_position),
            current_position.index < s.len(),
            start == old(current_position).index,
            goal == scan_keyword(s, start + 1, seq![s[start]]),
            goal == scan_keyword(s, current_position.index + 1, keyword@),
        decreases s.len() - current_position.index,
    {
        // Should the input end here, the character left behind is blamed.
        let previous = *current_position;
        proof {
            lemma_cursor_step(s, *current_character, *current_position);
            lemma_line_column_bounds(s, current_position.index as int);
        }
        advance(contents_chars, current_character, current_position);

        match *current_character {
            Some(character) => {
                match character {
                    'r' | 'u' | 'e' | 'a' | 'l' | 's' => keyword.push(character),
                    _ => {
                        let spelling = keyword.as_str();
                        if !(spelling.eq("true") || spelling.eq("false") || spelling.eq("null")) {
                            return Err(
                                LexError::MalformedKeyword(
                                    ParseError::new(
                                        "Invalid keyword".to_owned(),
                                        current_position.line,
                                        current_position.column,
                                    ),
                                ),
                            );
                        }
                        return Ok(keyword);
                    },
                }
            },
            None => {
                return Err(
                    LexError::UnexpectedEof(
                        EofError::new("Reached EOF", previous.line, previous.column),
                    ),
                );
            },
        }
    }
}

/// Whether a value is expected at offset `index`, so that a keyword may
/// start there.
fn expects_value(contents_chars: &Vec<char>, index: usize) -> (expected: bool)
    requires
        index <= contents_chars@.len(),
    ensures
        expected == value_expected(contents_chars@, index as int),
{
    let mut before = index;
    while before > 0
        invariant
            before <= index <= contents_chars@.len(),
            value_expected(contents_chars@, index as int) == value_expected(
                contents_chars@,
                before as int,
            ),
        decreases before,
    {
        match contents_chars[before - 1] {
            ' ' | '\t' | '\n' | '\r' => before -= 1,
            ':' | '[' | ',' => {
                return true;
            },
            _ => {
                return false;
            },
        }
    }
    false
}

/// The error for a character that can start no token.
fn unrecognized(character: char, position: &Position) -> (error: LexError)
    ensures
        error.spec_kind() == LexErrorKind::UnrecognizedCharacter,
        error.report() == (Report {
            message: "Unidentified character: "@.push(character),
            line: position.line as int,
            column: position.column as int,
        }),
{
    let mut message = "Unidentified character: ".to_owned();
    message.push(character);
    LexError::UnrecognizedCharacter(ParseError::new(message, position.line, position.column))
}

/// Lexes `contents`. On success the tokens end with exactly one
/// [`Token::Eof`]; on failure the error carries the kind of the first
/// failure and the line and column of the character it blames.
pub fn tokenize(contents: String) -> (result: Result<Vec<Token>, LexError>)
    ensures
        match lex(contents@) {
            Ok(tokens) => result matches Ok(produced) && token_views(produced@) == tokens,
            Err(failure) => result matches Err(error) && describes(error, contents@, failure),
        },
{
    let mut tokens: Vec<Token> = Vec::new();

    let mut current_character: Option<char> = None;
    let mut current_position = Position::start();

    let contents_chars = chars_of(contents.as_str());
    let ghost s = contents_chars@;

    advance(&contents_chars, &mut current_character, &mut current_position);
    assert(token_views(tokens@) == Seq::<TokenView>::empty());
    assert(s.len() == contents_chars.len());

    loop
        invariant
            s == contents_chars@,
            s == contents@,
            s.len() <= usize::MAX,
            cursor_on(s, current_character, current_position),
            lex(s) == lex_from(s, current_position.index as int, token_views(tokens@)),
        decreases s.len() - current_position.index,
    {
        let ghost before = tokens@;
        let ghost here = current_position.index as int;
        let character = match current_character {
            Some(character) => character,
            None => {
                tokens.push(Token::Eof);
                proof {
                    lemma_token_views_push(before, Token::Eof);
                }
                return Ok(tokens);
            },
        };
        proof {
            lemma_cursor_step(s, current_character, current_position);
            lemma_line_column_bounds(s, here);
        }
        match character {
            ' ' | '\t' | '\n' | '\r' => (),
            '{' => {
                tokens.push(Token::LeftBrace);
                proof {
                    lemma_token_views_push(before, Token::LeftBrace);
                }
            },
            '}' => {
                tokens.push(Token::RightBrace);
                proof {
                    lemma_token_views_push(before, Token::RightBrace);
                }
            },
            '[' => {
                tokens.push(Token::LeftBracket);
                proof {
                    lemma_token_views_push(before, Token::LeftBracket);
                }
            },
            ']' => {
                tokens.push(Token::RightBracket);
                proof {
                    lemma_token_views_push(before, Token::RightBracket);
                }
            },
            ':' => {
                tokens.push(Token::Colon);
                proof {
                    lemma_token_views_push(before, Token::Colon);
                }
            },
            ',' => {
                tokens.push(Token::Comma);
                proof {
                    lemma_token_views_push(before, Token::Comma);
                }
            },
            '"' => {
                let string = build_string(
                    &contents_chars,
                    &mut current_character,
                    &mut current_position,
                );
                proof {
                    lemma_scan_string_end(s, here + 1, Seq::empty(), false);
                }
                match string {
                    Ok(value) => {
                        let token = Token::String(value);
                        proof {
                            lemma_token_views_push(before, token);
                            lemma_cursor_step(s, current_character, current_position);
                            lemma_line_column_bounds(s, current_position.index as int);
                        }
                        tokens.push(token);
                    },
                    Err(error) => {
                        return Err(error);
                    },
                }
            },
            '0' | '1' | '2' | '3' | '4' | '5' | '6' | '7' | '8' | '9' => {
                let number = build_number(
                    &contents_chars,
                    &mut current_character,
                    &mut current_position,
                );
                proof {
                    lemma_scan_number_end(s, here + 1, seq![s[here]], false);
                }
                match number {
                    Ok(value) => {
                        let token = Token::Number(value);
                        proof {
                            lemma_token_views_push(before, token);
                        }
                        tokens.push(token);
                    },
                    Err(error) => {
                        return Err(error);
                    },
                }
                // The character after the number is still to be looked at.
                continue ;
            },
            't' | 'f' | 'n' => {
                if !expects_value(&contents_chars, current_position.index as usize) {
                    return Err(unrecognized(character, &current_position));
                }
                let keyword = build_keyword(
                    &contents_chars,
                    &mut current_character,
                    &mut current_position,
                );
                proof {
                    lemma_scan_keyword_end(s, here + 1, seq![s[here]]);
                }
                match keyword {
                    Ok(value) => {
                        let token = Token::Keyword(value);
                        proof {
                            lemma_token_views_push(before, token);
                        }
                        tokens.push(token);
                    },
                    Err(error) => {
                        return Err(error);
                    },
                }
                // The character after the keyword is still to be looked at.
                continue ;
            },
            _ => {
                return Err(unrecognized(character, &current_position));
            },
        }
        advance(&contents_chars, &mut current_character, &mut current_position);
    }
}

} // verus!
