use simple_json::error::{EofError, InvalidStringError, LexError, LexErrorKind, ParseError};
use simple_json::position::Position;
use simple_json::token::Token;
use simple_json::tokenizer::{advance, build_keyword, build_number, build_string, tokenize};

fn text(s: &str) -> String {
    String::from(s)
}

fn failure(input: &str) -> (LexErrorKind, i128, i128, String) {
    let error = tokenize(text(input)).unwrap_err();
    (error.kind(), error.line(), error.column(), text(error.message()))
}

#[test]
fn tokenizes_a_small_object() {
    let tokens = tokenize(text("{\"a\":1,\"b\":true}")).unwrap();
    assert_eq!(
        tokens,
        vec![
            Token::LeftBrace,
            Token::String(text("a")),
            Token::Colon,
            Token::Number(text("1")),
            Token::Comma,
            Token::String(text("b")),
            Token::Colon,
            Token::Keyword(text("true")),
            Token::RightBrace,
            Token::Eof,
        ]
    );
}

#[test]
fn unterminated_string_is_unexpected_end_of_input() {
    let error: LexError = tokenize(text("\"unterminated")).unwrap_err();
    assert_eq!(error.kind(), LexErrorKind::UnexpectedEof);
    assert!(matches!(error, LexError::UnexpectedEof(_)));
    assert_eq!(error.line(), 1);
    assert_eq!(error.column(), 12);
    assert_eq!(error.message(), "Missing right double quotes");
}

#[test]
fn second_decimal_point_is_a_malformed_number() {
    let error = tokenize(text("1.2.3")).unwrap_err();
    assert_eq!(error.kind(), LexErrorKind::MalformedNumber);
    assert!(matches!(error, LexError::MalformedNumber(_)));
    assert_eq!(error.line(), 1);
    assert_eq!(error.column(), 3);
    assert_eq!(error.message(), "Invalid number format");
}

#[test]
fn blank_input_is_a_single_eof() {
    assert_eq!(tokenize(text("")).unwrap(), vec![Token::Eof]);
    assert_eq!(tokenize(text(" ")).unwrap(), vec![Token::Eof]);
    assert_eq!(tokenize(text(" \t\r\n \n\n\t")).unwrap(), vec![Token::Eof]);
}

#[test]
fn success_ends_with_exactly_one_eof() {
    let tokens = tokenize(text("[1,2 ] ")).unwrap();
    assert_eq!(tokens.last(), Some(&Token::Eof));
    assert_eq!(tokens.iter().filter(|token| **token == Token::Eof).count(), 1);
}

#[test]
fn structural_characters_each_give_their_token() {
    assert_eq!(
        tokenize(text("{}[]:,")).unwrap(),
        vec![
            Token::LeftBrace,
            Token::RightBrace,
            Token::LeftBracket,
            Token::RightBracket,
            Token::Colon,
            Token::Comma,
            Token::Eof,
        ]
    );
}

#[test]
fn the_five_escapes_are_decoded() {
    let tokens = tokenize(text("\"q\\\"b\\\\n\\nr\\rt\\t.\"")).unwrap();
    assert_eq!(tokens, vec![Token::String(text("q\"b\\n\nr\rt\t.")), Token::Eof]);
}

fn escape(s: &str) -> String {
    let mut literal = String::from("\"");
    for c in s.chars() {
        match c {
            '"' => literal.push_str("\\\""),
            '\\' => literal.push_str("\\\\"),
            '\n' => literal.push_str("\\n"),
            '\r' => literal.push_str("\\r"),
            '\t' => literal.push_str("\\t"),
            other => literal.push(other),
        }
    }
    literal.push('"');
    literal
}

#[test]
fn decoding_undoes_escaping() {
    let samples = [
        "",
        "plain",
        "a\"b",
        "back\\slash",
        "line\nbreak",
        "\r\t",
        "\\n",
        "{[:,]} 1.2 true",
        "é✓",
    ];
    for sample in samples {
        let tokens = tokenize(escape(sample)).unwrap();
        assert_eq!(tokens, vec![Token::String(text(sample)), Token::Eof]);
    }
}

#[test]
fn structural_characters_and_whitespace_inside_a_string_are_text() {
    let tokens = tokenize(text("\"{ [\t: ,\r] }\"")).unwrap();
    assert_eq!(tokens, vec![Token::String(text("{ [\t: ,\r] }")), Token::Eof]);
}

#[test]
fn an_unknown_escape_is_a_malformed_string() {
    assert_eq!(
        failure("[\"ab\\x\"]"),
        (LexErrorKind::MalformedString, 1, 5, text("Unknown escape character in string"))
    );
    assert!(matches!(
        tokenize(text("\"\\u0041\"")).unwrap_err(),
        LexError::MalformedString(_)
    ));
}

#[test]
fn a_raw_newline_in_a_string_is_a_malformed_string() {
    assert_eq!(
        failure("\"ab\ncd\""),
        (LexErrorKind::MalformedString, 1, 3, text("Unexpected end of string"))
    );
}

#[test]
fn a_string_ending_in_a_backslash_is_unexpected_end_of_input() {
    assert_eq!(
        failure("\"ab\\"),
        (LexErrorKind::UnexpectedEof, 1, 3, text("Missing right double quotes"))
    );
}

#[test]
fn numbers_keep_their_raw_lexeme() {
    assert_eq!(
        tokenize(text("[0,12.50,007]")).unwrap(),
        vec![
            Token::LeftBracket,
            Token::Number(text("0")),
            Token::Comma,
            Token::Number(text("12.50")),
            Token::Comma,
            Token::Number(text("007")),
            Token::RightBracket,
            Token::Eof,
        ]
    );
    assert_eq!(tokenize(text("42 ")).unwrap(), vec![Token::Number(text("42")), Token::Eof]);
}

#[test]
fn a_trailing_point_is_a_malformed_number() {
    assert_eq!(
        failure("[1.]"),
        (LexErrorKind::MalformedNumber, 1, 3, text("Invalid number format"))
    );
    assert_eq!(
        failure("1. "),
        (LexErrorKind::MalformedNumber, 1, 2, text("Invalid number format"))
    );
}

#[test]
fn input_ending_inside_a_number_is_unexpected_end_of_input() {
    assert_eq!(failure("1"), (LexErrorKind::UnexpectedEof, 1, 0, text("Reached EOF")));
    assert_eq!(failure("[12.5"), (LexErrorKind::UnexpectedEof, 1, 4, text("Reached EOF")));
    assert_eq!(failure("7."), (LexErrorKind::UnexpectedEof, 1, 1, text("Reached EOF")));
}

#[test]
fn keywords_are_recognised_where_a_value_is_expected() {
    assert_eq!(
        tokenize(text("[true, false ,null]")).unwrap(),
        vec![
            Token::LeftBracket,
            Token::Keyword(text("true")),
            Token::Comma,
            Token::Keyword(text("false")),
            Token::Comma,
            Token::Keyword(text("null")),
            Token::RightBracket,
            Token::Eof,
        ]
    );
    assert_eq!(
        tokenize(text("{\"k\":\n\tnull}")).unwrap(),
        vec![
            Token::LeftBrace,
            Token::String(text("k")),
            Token::Colon,
            Token::Keyword(text("null")),
            Token::RightBrace,
            Token::Eof,
        ]
    );
}

#[test]
fn a_keyword_where_no_value_is_expected_is_an_unrecognized_character() {
    assert_eq!(
        failure("true "),
        (LexErrorKind::UnrecognizedCharacter, 1, 0, text("Unidentified character: t"))
    );
    assert_eq!(
        failure("{null}"),
        (LexErrorKind::UnrecognizedCharacter, 1, 1, text("Unidentified character: n"))
    );
    assert_eq!(
        failure("[1 false]"),
        (LexErrorKind::UnrecognizedCharacter, 1, 3, text("Unidentified character: f"))
    );
    assert_eq!(
        failure("[\"a\" true]"),
        (LexErrorKind::UnrecognizedCharacter, 1, 5, text("Unidentified character: t"))
    );
}

#[test]
fn letters_that_spell_no_keyword_are_a_malformed_keyword() {
    assert_eq!(failure("[tru]"), (LexErrorKind::MalformedKeyword, 1, 4, text("Invalid keyword")));
    assert_eq!(failure("[nul,"), (LexErrorKind::MalformedKeyword, 1, 4, text("Invalid keyword")));
    assert_eq!(
        failure("[trues]"),
        (LexErrorKind::MalformedKeyword, 1, 6, text("Invalid keyword"))
    );
    assert!(matches!(tokenize(text(":f ")).unwrap_err(), LexError::MalformedKeyword(_)));
}

#[test]
fn input_ending_inside_a_keyword_is_unexpected_end_of_input() {
    assert_eq!(failure("[true"), (LexErrorKind::UnexpectedEof, 1, 4, text("Reached EOF")));
    assert_eq!(failure(":nu"), (LexErrorKind::UnexpectedEof, 1, 2, text("Reached EOF")));
}

#[test]
fn a_character_that_starts_no_token_is_unrecognized() {
    assert_eq!(
        failure("[1, x]"),
        (LexErrorKind::UnrecognizedCharacter, 1, 4, text("Unidentified character: x"))
    );
    assert_eq!(
        failure("-1 "),
        (LexErrorKind::UnrecognizedCharacter, 1, 0, text("Unidentified character: -"))
    );
    assert_eq!(
        failure(".5 "),
        (LexErrorKind::UnrecognizedCharacter, 1, 0, text("Unidentified character: ."))
    );
    assert!(matches!(tokenize(text("é")).unwrap_err(), LexError::UnrecognizedCharacter(_)));
}

#[test]
fn lines_and_columns_follow_line_breaks() {
    // A line feed and a carriage return each start a new line at column 0.
    assert_eq!(
        failure("{\n  \"a\": x}"),
        (LexErrorKind::UnrecognizedCharacter, 2, 7, text("Unidentified character: x"))
    );
    assert_eq!(
        failure("[\r\n\n?"),
        (LexErrorKind::UnrecognizedCharacter, 4, 0, text("Unidentified character: ?"))
    );
    assert_eq!(
        failure("[1,\n2,\n3.4.5]"),
        (LexErrorKind::MalformedNumber, 3, 3, text("Invalid number format"))
    );
    // The input ends on the line break itself: that character is blamed.
    assert_eq!(
        failure("\"ab\r"),
        (LexErrorKind::UnexpectedEof, 1, 3, text("Missing right double quotes"))
    );
}

#[test]
fn lexing_stops_at_the_first_failure() {
    assert_eq!(
        failure("[1.2.3, \"open"),
        (LexErrorKind::MalformedNumber, 1, 4, text("Invalid number format"))
    );
}

#[test]
fn position_advance_counts_lines_and_columns() {
    let mut position = Position::start();
    assert_eq!(position, Position { index: -1, line: 1, column: -1 });
    position.advance(&None);
    assert_eq!(position, Position { index: 0, line: 1, column: 0 });
    position.advance(&Some('a'));
    assert_eq!(position, Position { index: 1, line: 1, column: 1 });
    position.advance(&Some('\n'));
    assert_eq!(position, Position { index: 2, line: 2, column: 0 });
    position.advance(&Some('\r'));
    assert_eq!(position, Position { index: 3, line: 3, column: 0 });
    position.advance(&Some(' '));
    assert_eq!(position, Position { index: 4, line: 3, column: 1 });
}

fn cursor(input: &str, steps: usize) -> (Vec<char>, Option<char>, Position) {
    let chars: Vec<char> = input.chars().collect();
    let mut current = None;
    let mut position = Position::start();
    for _ in 0..steps {
        advance(&chars, &mut current, &mut position);
    }
    (chars, current, position)
}

#[test]
fn advance_loads_the_next_character() {
    let (chars, mut current, mut position) = cursor("a\nb", 1);
    assert_eq!(current, Some('a'));
    assert_eq!(position, Position { index: 0, line: 1, column: 0 });
    advance(&chars, &mut current, &mut position);
    assert_eq!(current, Some('\n'));
    assert_eq!(position, Position { index: 1, line: 1, column: 1 });
    advance(&chars, &mut current, &mut position);
    assert_eq!(current, Some('b'));
    assert_eq!(position, Position { index: 2, line: 2, column: 0 });
    advance(&chars, &mut current, &mut position);
    assert_eq!(current, None);
    assert_eq!(position, Position { index: 3, line: 2, column: 1 });
}

#[test]
fn build_string_stops_on_the_closing_quote() {
    let (chars, mut current, mut position) = cursor("x\"a\\tb\" ", 2);
    let string = build_string(&chars, &mut current, &mut position).unwrap();
    assert_eq!(string, "a\tb");
    assert_eq!(current, Some('"'));
    assert_eq!(position.index, 6);
}

#[test]
fn build_number_stops_behind_the_number() {
    let (chars, mut current, mut position) = cursor("12.5,", 1);
    let number = build_number(&chars, &mut current, &mut position).unwrap();
    assert_eq!(number, "12.5");
    assert_eq!(current, Some(','));
    assert_eq!(position.index, 4);

    let (chars, mut current, mut position) = cursor("1..", 1);
    let error = build_number(&chars, &mut current, &mut position).unwrap_err();
    assert_eq!(error.kind(), LexErrorKind::MalformedNumber);
    assert_eq!(position.index, 2);
}

#[test]
fn build_keyword_stops_behind_the_keyword() {
    let (chars, mut current, mut position) = cursor(":false}", 2);
    let keyword = build_keyword(&chars, &mut current, &mut position).unwrap();
    assert_eq!(keyword, "false");
    assert_eq!(current, Some('}'));
    assert_eq!(position.index, 6);

    let (chars, mut current, mut position) = cursor("nil ", 1);
    let error = build_keyword(&chars, &mut current, &mut position).unwrap_err();
    assert_eq!(error.kind(), LexErrorKind::MalformedKeyword);
    assert_eq!((error.line(), error.column()), (1, 1));
}

#[test]
fn errors_keep_what_they_were_made_with() {
    let error = ParseError::new(text("Invalid keyword"), 3, 9);
    assert_eq!((error.message(), error.line(), error.column()), ("Invalid keyword", 3, 9));
    let error = InvalidStringError::new("Unexpected end of string", 1, 0);
    assert_eq!((error.message(), error.line(), error.column()), ("Unexpected end of string", 1, 0));
    let error = EofError::new("Reached EOF", 12, 34);
    assert_eq!((error.message(), error.line(), error.column()), ("Reached EOF", 12, 34));
}

#[test]
fn errors_print_their_name_message_line_and_column() {
    assert_eq!(
        ParseError::new(text("Invalid keyword"), 3, 9).to_string(),
        "ParseError: Invalid keyword\nLine: 3, column: 9"
    );
    assert_eq!(
        InvalidStringError::new("Unexpected end of string", 10, 0).to_string(),
        "InvalidStringError: Unexpected end of string\nLine: 10, column: 0"
    );
    assert_eq!(
        EofError::new("Reached EOF", 1205, 34).to_string(),
        "EOFError: Reached EOF\nLine: 1205, column: 34"
    );
    assert_eq!(
        ParseError::new(text(""), -1, i128::MIN).to_string(),
        "ParseError: \nLine: -1, column: -170141183460469231731687303715884105728"
    );
    assert_eq!(
        ParseError::new(text("m"), i128::MAX, 100).to_string(),
        "ParseError: m\nLine: 170141183460469231731687303715884105727, column: 100"
    );
}

#[test]
fn lexing_errors_print_like_the_error_they_wrap() {
    assert_eq!(
        tokenize(text("1.2.3")).unwrap_err().to_string(),
        "ParseError: Invalid number format\nLine: 1, column: 3"
    );
    assert_eq!(
        tokenize(text("\n\"a\\qb\"")).unwrap_err().to_string(),
        "InvalidStringError: Unknown escape character in string\nLine: 2, column: 3"
    );
    assert_eq!(
        tokenize(text("\"unterminated")).unwrap_err().to_string(),
        "EOFError: Missing right double quotes\nLine: 1, column: 12"
    );
    assert_eq!(
        tokenize(text("[#")).unwrap_err().to_string(),
        "ParseError: Unidentified character: #\nLine: 1, column: 1"
    );
}
