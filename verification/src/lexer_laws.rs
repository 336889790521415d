//! Laws of the lexer: what holds of [`lex`] on every input.

use vstd::prelude::*;
use crate::grammar::{
    is_digit, is_keyword, is_keyword_letter, is_keyword_start, is_whitespace,
    lemma_scan_keyword_end, lemma_scan_number_end, lemma_scan_string_end, lex, lex_from,
    opens_value, scan_keyword, scan_number, scan_string, structural, unescape, value_expected,
    Failure, Lexeme,
};
use crate::token::TokenView;

verus! {

/// Lexing blank input from any offset on adds nothing but `Eof`.
proof fn lemma_lex_blank(s: Seq<char>, i: int, tokens: Seq<TokenView>)
    requires
        0 <= i <= s.len(),
        forall|k: int| 0 <= k < s.len() ==> is_whitespace(#[trigger] s[k]),
    ensures
        lex_from(s, i, tokens) == Ok::<Seq<TokenView>, Failure>(tokens.push(TokenView::Eof)),
    decreases s.len() - i,
{
    if i < s.len() {
        lemma_lex_blank(s, i + 1, tokens);
    }
}

/// An input that holds nothing but whitespace, the empty input among them,
/// lexes to the single token `Eof`.
pub proof fn law_blank_input(s: Seq<char>)
    requires
        forall|k: int| 0 <= k < s.len() ==> is_whitespace(#[trigger] s[k]),
    ensures
        lex(s) == Ok::<Seq<TokenView>, Failure>(seq![TokenView::Eof]),
{
    lemma_lex_blank(s, 0, Seq::empty());
    assert(Seq::<TokenView>::empty().push(TokenView::Eof) =~= seq![TokenView::Eof]);
}

/// How one character of a string is written inside a string literal: the
/// quote, the backslash, the newline, the carriage return and the tab as a
/// backslash and their escape code, every other character as itself.
pub open spec fn escape(c: char) -> Seq<char> {
    if c == '"' {
        seq!['\\', '"']
    } else if c == '\\' {
        seq!['\\', '\\']
    } else if c == '\n' {
        seq!['\\', 'n']
    } else if c == '\r' {
        seq!['\\', 'r']
    } else if c == '\t' {
        seq!['\\', 't']
    } else {
        seq![c]
    }
}

/// How a string is written between the quotes of a string literal.
pub open spec fn escaped(text: Seq<char>) -> Seq<char>
    decreases text.len(),
{
    if text.len() == 0 {
        Seq::empty()
    } else {
        escape(text[0]) + escaped(text.drop_first())
    }
}

/// Where `s` holds the escaped form of `text` from offset `i` on, followed
/// by a quote, scanning from `i` decodes `text` and stops on that quote.
proof fn lemma_scan_escaped(s: Seq<char>, i: int, done: Seq<char>, text: Seq<char>)
    requires
        0 <= i,
        i + escaped(text).len() < s.len(),
        forall|k: int| 0 <= k < escaped(text).len() ==> s[i + k] == #[trigger] escaped(text)[k],
        s[i + escaped(text).len()] == '"',
    ensures
        scan_string(s, i, done, false) == Ok::<Lexeme, Failure>(
            Lexeme { text: done + text, end: i + escaped(text).len() },
        ),
    decreases text.len(),
{
    if text.len() == 0 {
        assert(done + text =~= done);
    } else {
        let c = text[0];
        let rest = text.drop_first();
        let head = escape(c);
        assert(escaped(text) == head + escaped(rest));
        assert forall|k: int| 0 <= k < escaped(rest).len() implies s[i + head.len() + k]
            == #[trigger] escaped(rest)[k] by {
            assert(escaped(text)[head.len() + k] == escaped(rest)[k]);
        }
        assert(s[i] == head[0]) by {
            assert(escaped(text)[0] == head[0]);
        }
        assert(done.push(c) + rest =~= done + text);
        if head.len() == 2 {
            assert(s[i + 1] == head[1]) by {
                assert(escaped(text)[1] == head[1]);
            }
            assert(s[i] == '\\');
            assert(unescape(s[i + 1]) == Some(c));
            assert(scan_string(s, i, done, false) == scan_string(s, i + 1, done, true));
            assert(scan_string(s, i + 1, done, true) == scan_string(
                s,
                i + 2,
                done.push(c),
                false,
            ));
            lemma_scan_escaped(s, i + 2, done.push(c), rest);
        } else {
            assert(s[i] == c);
            assert(scan_string(s, i, done, false) == scan_string(
                s,
                i + 1,
                done.push(c),
                false,
            ));
            lemma_scan_escaped(s, i + 1, done.push(c), rest);
        }
    }
}

/// Decoding undoes escaping: whatever `text` holds, the literal made of a
/// quote, the escaped form of `text` and a quote lexes to the one string
/// token that carries `text`.
pub proof fn law_escape_round_trip(text: Seq<char>)
    ensures
        scan_string(escaped(text).push('"'), 0, Seq::empty(), false) == Ok::<Lexeme, Failure>(
            Lexeme { text, end: escaped(text).len() as int },
        ),
        lex(seq!['"'] + escaped(text) + seq!['"']) == Ok::<Seq<TokenView>, Failure>(
            seq![TokenView::String(text), TokenView::Eof],
        ),
{
    let body = escaped(text);
    lemma_scan_escaped(body.push('"'), 0, Seq::empty(), text);
    assert(Seq::<char>::empty() + text =~= text);

    let s = seq!['"'] + body + seq!['"'];
    assert(s.len() == body.len() + 2);
    assert forall|k: int| 0 <= k < body.len() implies s[1 + k] == #[trigger] body[k] by {}
    lemma_scan_escaped(s, 1, Seq::empty(), text);
    let tokens = Seq::<TokenView>::empty().push(TokenView::String(text));
    assert(lex_from(s, 0, Seq::empty()) == lex_from(s, (body.len() + 2) as int, tokens));
    assert(tokens.push(TokenView::Eof) =~= seq![TokenView::String(text), TokenView::Eof]);
}

/// No token of the run is `Eof`.
pub open spec fn eof_free(tokens: Seq<TokenView>) -> bool {
    forall|k: int| 0 <= k < tokens.len() ==> tokens[k] != TokenView::Eof
}

/// The lexeme of a number so far: it starts with a digit, holds digits and
/// decimal points only, and of these at most one; `pointed` says whether it
/// holds one.
pub open spec fn is_number_prefix(text: Seq<char>, pointed: bool) -> bool {
    &&& text.len() > 0
    &&& is_digit(text[0])
    &&& forall|k: int| 0 <= k < text.len() ==> is_digit(#[trigger] text[k]) || text[k] == '.'
    &&& forall|j: int, k: int|
        0 <= j < k < text.len() ==> !(#[trigger] text[j] == '.' && #[trigger] text[k] == '.')
    &&& pointed <==> exists|k: int| 0 <= k < text.len() && #[trigger] text[k] == '.'
}

/// The lexeme of a whole number token: digits with at most one decimal
/// point, which stands neither first nor last.
pub open spec fn is_number_text(text: Seq<char>) -> bool {
    exists|pointed: bool| is_number_prefix(text, pointed) && text.last() != '.'
}

/// What the text of a token may be: a number token holds a number, a keyword
/// token one of the three keywords.
pub open spec fn token_well_formed(token: TokenView) -> bool {
    match token {
        TokenView::Number(text) => is_number_text(text),
        TokenView::Keyword(text) => is_keyword(text),
        _ => true,
    }
}

/// A number scan that starts from the beginning of a number ends, where it
/// succeeds, with a number.
pub proof fn lemma_scan_number_text(s: Seq<char>, i: int, text: Seq<char>, pointed: bool)
    requires
        0 <= i,
        is_number_prefix(text, pointed),
    ensures
        scan_number(s, i, text, pointed) matches Ok(lexeme) ==> is_number_text(lexeme.text),
    decreases s.len() - i,
{
    if i < s.len() {
        if is_digit(s[i]) {
            let longer = text.push(s[i]);
            assert(is_number_prefix(longer, pointed)) by {
                assert forall|k: int| 0 <= k < longer.len() implies is_digit(#[trigger] longer[k])
                    || longer[k] == '.' by {
                    if k < text.len() {
                        assert(longer[k] == text[k]);
                    }
                }
                if pointed {
                    let k = choose|k: int| 0 <= k < text.len() && #[trigger] text[k] == '.';
                    assert(longer[k] == '.');
                }
            }
            lemma_scan_number_text(s, i + 1, longer, pointed);
        } else if s[i] == '.' {
            if !pointed {
                let longer = text.push('.');
                assert(is_number_prefix(longer, true)) by {
                    assert(longer[text.len() as int] == '.');
                }
                lemma_scan_number_text(s, i + 1, longer, true);
            }
        }
    }
}

/// A keyword scan ends, where it succeeds, with one of the three keywords.
pub proof fn lemma_scan_keyword_text(s: Seq<char>, i: int, text: Seq<char>)
    requires
        0 <= i,
    ensures
        scan_keyword(s, i, text) matches Ok(lexeme) ==> is_keyword(lexeme.text),
    decreases s.len() - i,
{
    if i < s.len() && is_keyword_letter(s[i]) {
        lemma_scan_keyword_text(s, i + 1, text.push(s[i]));
    }
}

/// The tokens after which a value is expected.
pub open spec fn opens_value_token(token: TokenView) -> bool {
    token == TokenView::Colon || token == TokenView::LeftBracket || token == TokenView::Comma
}

/// Every keyword token of the run comes directly after a colon, an opening
/// bracket or a comma.
pub open spec fn keywords_follow_openers(tokens: Seq<TokenView>) -> bool {
    forall|k: int|
        0 <= k < tokens.len() && #[trigger] tokens[k] is Keyword ==> k > 0 && opens_value_token(
            tokens[k - 1],
        )
}

/// No value is expected directly behind a number.
proof fn lemma_no_value_after_number(s: Seq<char>, i: int, text: Seq<char>, pointed: bool)
    requires
        0 < i,
        !is_whitespace(s[i - 1]),
        !opens_value(s[i - 1]),
    ensures
        scan_number(s, i, text, pointed) matches Ok(lexeme) ==> !value_expected(s, lexeme.end),
    decreases s.len() - i,
{
    if i < s.len() {
        if is_digit(s[i]) {
            lemma_no_value_after_number(s, i + 1, text.push(s[i]), pointed);
        } else if s[i] == '.' && !pointed {
            lemma_no_value_after_number(s, i + 1, text.push('.'), true);
        }
    }
}

/// No value is expected directly behind a keyword.
proof fn lemma_no_value_after_keyword(s: Seq<char>, i: int, text: Seq<char>)
    requires
        0 < i,
        !is_whitespace(s[i - 1]),
        !opens_value(s[i - 1]),
    ensures
        scan_keyword(s, i, text) matches Ok(lexeme) ==> !value_expected(s, lexeme.end),
    decreases s.len() - i,
{
    if i < s.len() && is_keyword_letter(s[i]) {
        lemma_no_value_after_keyword(s, i + 1, text.push(s[i]));
    }
}

/// What holds of the tokens once lexing has come to offset `i`, and still
/// holds of all tokens at the end.
spec fn tokens_in_order(tokens: Seq<TokenView>) -> bool {
    &&& forall|k: int| 0 <= k < tokens.len() ==> token_well_formed(#[trigger] tokens[k])
    &&& keywords_follow_openers(tokens)
}

/// Every token that lexing adds is well formed and in its place, and `Eof`
/// comes last and only there.
proof fn lemma_lex_from_tokens(s: Seq<char>, i: int, tokens: Seq<TokenView>)
    requires
        0 <= i,
        eof_free(tokens),
        tokens_in_order(tokens),
        value_expected(s, i) ==> tokens.len() > 0 && opens_value_token(tokens.last()),
    ensures
        lex_from(s, i, tokens) matches Ok(all) ==> {
            &&& all.len() > 0
            &&& all.last() == TokenView::Eof
            &&& eof_free(all.drop_last())
            &&& tokens_in_order(all)
        },
    decreases s.len() - i,
{
    if i >= s.len() {
        assert(tokens.push(TokenView::Eof).drop_last() =~= tokens);
    } else if is_whitespace(s[i]) {
        lemma_lex_from_tokens(s, i + 1, tokens);
    } else if let Some(token) = structural(s[i]) {
        lemma_lex_from_tokens(s, i + 1, tokens.push(token));
    } else if s[i] == '"' {
        if let Ok(lexeme) = scan_string(s, i + 1, Seq::empty(), false) {
            lemma_scan_string_end(s, i + 1, Seq::empty(), false);
            lemma_lex_from_tokens(s, lexeme.end + 1, tokens.push(TokenView::String(lexeme.text)));
        }
    } else if is_digit(s[i]) {
        if let Ok(lexeme) = scan_number(s, i + 1, seq![s[i]], false) {
            lemma_scan_number_end(s, i + 1, seq![s[i]], false);
            lemma_scan_number_text(s, i + 1, seq![s[i]], false);
            lemma_no_value_after_number(s, i + 1, seq![s[i]], false);
            lemma_lex_from_tokens(s, lexeme.end, tokens.push(TokenView::Number(lexeme.text)));
        }
    } else if is_keyword_start(s[i]) && value_expected(s, i) {
        if let Ok(lexeme) = scan_keyword(s, i + 1, seq![s[i]]) {
            lemma_scan_keyword_end(s, i + 1, seq![s[i]]);
            lemma_scan_keyword_text(s, i + 1, seq![s[i]]);
            lemma_no_value_after_keyword(s, i + 1, seq![s[i]]);
            let longer = tokens.push(TokenView::Keyword(lexeme.text));
            assert(longer[longer.len() - 2] == tokens.last());
            lemma_lex_from_tokens(s, lexeme.end, longer);
        }
    }
}

/// What lexing hands out on success: the tokens end with `Eof`, no other
/// token is `Eof`, every number token holds digits with at most one decimal
/// point inside, every keyword token holds `true`, `false` or `null`, and
/// every keyword token comes directly after a colon, an opening bracket or
/// a comma.
pub proof fn law_tokens_well_formed(s: Seq<char>)
    ensures
        lex(s) matches Ok(tokens) ==> {
            &&& tokens.len() > 0
            &&& tokens.last() == TokenView::Eof
            &&& eof_free(tokens.drop_last())
            &&& forall|k: int| 0 <= k < tokens.len() ==> token_well_formed(#[trigger] tokens[k])
            &&& keywords_follow_openers(tokens)
        },
{
    lemma_lex_from_tokens(s, 0, Seq::empty());
}

} // verus!
