//! What holds of every scan.

use vstd::prelude::*;
use vstd::string::*;
use crate::grammar::{
    all_tokens, char_at, digits_end, end_token, errors_from, faults_from, find, is_digit_char,
    is_numeral, lemma_digits_end, lemma_digits_end_is, lemma_find, lemma_newlines_none,
    lemma_newlines_same, lemma_newlines_split, lemma_unit_end, line_at, newlines, number_end,
    report, scan_result, starts_from, tokens_from, unit_at, unit_end, unit_error, unit_token,
    unrecognized_message, unterminated_message, Unit,
};
use crate::scanner::result_view;
use crate::token::{LiteralView, Token, TokenType, TokenView};
use crate::text::decimal;

verus! {

/// Two scans of one text agree: whatever two scans of the same text
/// return has the same view, token for token and character for character.
pub proof fn theorem_scan_repeatable(
    source: Seq<char>,
    first: Result<Vec<Token>, String>,
    second: Result<Vec<Token>, String>,
)
    requires
        result_view(first) == scan_result(source),
        result_view(second) == scan_result(source),
    ensures
        result_view(first) == result_view(second),
{
}

/// The tokens from `pos` on and the positions at which they begin go
/// together: the token at index `i` is the token of the unit that begins at
/// the position at index `i`, and the positions ascend.
pub proof fn lemma_tokens_and_starts(s: Seq<char>, pos: int)
    requires
        0 <= pos <= s.len(),
    ensures
        starts_from(s, pos).len() == tokens_from(s, pos).len(),
        forall|i: int|
            0 <= i < tokens_from(s, pos).len() ==> {
                &&& pos <= #[trigger] starts_from(s, pos)[i] < s.len()
                &&& unit_token(s, starts_from(s, pos)[i]) == Some(tokens_from(s, pos)[i])
            },
        forall|i: int, j: int|
            0 <= i < j < starts_from(s, pos).len() ==> unit_end(s, starts_from(s, pos)[i])
                <= starts_from(s, pos)[j],
    decreases s.len() - pos,
{
    if pos < s.len() {
        lemma_unit_end(s, pos);
        let next = unit_end(s, pos);
        lemma_tokens_and_starts(s, next);
        let rest_tokens = tokens_from(s, next);
        let rest_starts = starts_from(s, next);
        if unit_token(s, pos) is Some {
            assert(tokens_from(s, pos) =~= seq![unit_token(s, pos)->0] + rest_tokens);
            assert(starts_from(s, pos) =~= seq![pos] + rest_starts);
            assert forall|i: int| 0 <= i < tokens_from(s, pos).len() implies {
                &&& pos <= #[trigger] starts_from(s, pos)[i] < s.len()
                &&& unit_token(s, starts_from(s, pos)[i]) == Some(tokens_from(s, pos)[i])
            } by {
                if i > 0 {
                    assert(starts_from(s, pos)[i] == rest_starts[i - 1]);
                    assert(tokens_from(s, pos)[i] == rest_tokens[i - 1]);
                }
            }
            assert forall|i: int, j: int| 0 <= i < j < starts_from(s, pos).len() implies unit_end(
                s,
                starts_from(s, pos)[i],
            ) <= starts_from(s, pos)[j] by {
                assert(starts_from(s, pos)[j] == rest_starts[j - 1]);
                if i > 0 {
                    assert(starts_from(s, pos)[i] == rest_starts[i - 1]);
                }
            }
        } else {
            assert(tokens_from(s, pos) =~= rest_tokens);
            assert(starts_from(s, pos) =~= rest_starts);
        }
    }
}

/// Every token lies on the line on which its lexeme begins: its line is 1
/// plus the number of line feeds before the first character of its lexeme,
/// and its lexeme is the text from there on. The end token, which has no
/// lexeme, lies where the text ends.
pub proof fn theorem_token_lines(s: Seq<char>)
    ensures
        starts_from(s, 0).len() == tokens_from(s, 0).len(),
        forall|i: int|
            0 <= i < tokens_from(s, 0).len() ==> {
                let token = #[trigger] tokens_from(s, 0)[i];
                let start = starts_from(s, 0)[i];
                &&& 0 <= start < start + token.lexeme.len() <= s.len()
                &&& token.lexeme == s.subrange(start, start + token.lexeme.len())
                &&& token.line == 1 + newlines(s, 0, start)
            },
        forall|i: int, j: int|
            0 <= i < j < tokens_from(s, 0).len() ==> starts_from(s, 0)[i] + tokens_from(
                s,
                0,
            )[i].lexeme.len() <= starts_from(s, 0)[j],
        end_token(s).line == 1 + newlines(s, 0, s.len() as int),
{
    lemma_tokens_and_starts(s, 0);
    assert forall|i: int| 0 <= i < tokens_from(s, 0).len() implies {
        let token = #[trigger] tokens_from(s, 0)[i];
        let start = starts_from(s, 0)[i];
        &&& 0 <= start < start + token.lexeme.len() <= s.len()
        &&& token.lexeme == s.subrange(start, start + token.lexeme.len())
        &&& token.line == 1 + newlines(s, 0, start)
        &&& start + token.lexeme.len() == unit_end(s, start)
    } by {
        let start = starts_from(s, 0)[i];
        lemma_unit_end(s, start);
    }
    assert forall|i: int, j: int| 0 <= i < j < tokens_from(s, 0).len() implies starts_from(s, 0)[i]
        + tokens_from(s, 0)[i].lexeme.len() <= starts_from(s, 0)[j] by {
        let token = tokens_from(s, 0)[i];
        let start = starts_from(s, 0)[i];
        lemma_unit_end(s, start);
        assert(start + token.lexeme.len() == unit_end(s, start));
    }
}

/// No unit yields an end token.
pub proof fn lemma_no_end_within(s: Seq<char>, pos: int)
    requires
        0 <= pos <= s.len(),
    ensures
        forall|i: int|
            0 <= i < tokens_from(s, pos).len() ==> (#[trigger] tokens_from(s, pos)[i]).kind
                != TokenType::Eof,
{
    lemma_tokens_and_starts(s, pos);
    assert forall|i: int| 0 <= i < tokens_from(s, pos).len() implies (#[trigger] tokens_from(
        s,
        pos,
    )[i]).kind != TokenType::Eof by {
        let start = starts_from(s, pos)[i];
        assert(unit_token(s, start) == Some(tokens_from(s, pos)[i]));
    }
}

/// Every scan ends with exactly one end token: the last token is an end
/// token and none before it is one. It lies on the line that the end of the
/// text has reached: line 1 for the empty text, else the line of the last
/// character, or the line after it where that character is a line feed.
pub proof fn theorem_end_token(s: Seq<char>)
    ensures
        all_tokens(s).len() >= 1,
        all_tokens(s).last() == end_token(s),
        all_tokens(s).last().kind == TokenType::Eof,
        forall|i: int|
            0 <= i < all_tokens(s).len() - 1 ==> (#[trigger] all_tokens(s)[i]).kind
                != TokenType::Eof,
        end_token(s).line == 1 + newlines(s, 0, s.len() as int),
        s.len() == 0 ==> end_token(s).line == 1,
        s.len() > 0 ==> end_token(s).line == line_at(s, s.len() - 1) + if s.last() == '\n' {
            1nat
        } else {
            0nat
        },
{
    lemma_no_end_within(s, 0);
    assert forall|i: int| 0 <= i < all_tokens(s).len() - 1 implies (#[trigger] all_tokens(
        s,
    )[i]).kind != TokenType::Eof by {
        assert(all_tokens(s)[i] == tokens_from(s, 0)[i]);
    }
}

/// Whether `kind` is a kind that the scanner does not produce yet: an
/// identifier or a keyword.
pub open spec fn is_reserved(kind: TokenType) -> bool {
    match kind {
        TokenType::Identifier
        | TokenType::And
        | TokenType::Class
        | TokenType::Else
        | TokenType::False
        | TokenType::Fun
        | TokenType::For
        | TokenType::If
        | TokenType::Nil
        | TokenType::Or
        | TokenType::Print
        | TokenType::Return
        | TokenType::Super
        | TokenType::This
        | TokenType::True
        | TokenType::Var
        | TokenType::While => true,
        _ => false,
    }
}

/// The lexeme of a number token is a decimal numeral.
pub proof fn lemma_number_is_numeral(s: Seq<char>, pos: int)
    requires
        0 <= pos < s.len(),
        is_digit_char(s[pos]),
    ensures
        is_numeral(s.subrange(pos, number_end(s, pos))),
{
    let whole = digits_end(s, pos);
    let end = number_end(s, pos);
    let numeral = s.subrange(pos, end);
    lemma_digits_end(s, pos);
    if char_at(s, whole) == '.' && is_digit_char(char_at(s, whole + 1)) {
        lemma_digits_end(s, whole + 1);
        assert(forall|i: int| 0 <= i < whole - pos ==> numeral[i] == s[pos + i]);
        lemma_digits_end_is(numeral, 0, whole - pos);
        assert(forall|i: int| whole - pos < i < end - pos ==> numeral[i] == s[pos + i]);
        lemma_digits_end_is(numeral, whole - pos + 1, end - pos);
    } else {
        assert(forall|i: int| 0 <= i < whole - pos ==> numeral[i] == s[pos + i]);
        lemma_digits_end_is(numeral, 0, whole - pos);
    }
}

/// What the tokens of a scan are: none is of a reserved kind, and a token
/// carries a literal exactly where it is a string or a number. A string's
/// lexeme begins and ends with a quote and holds no other, and its
/// literal is the text between the two. A number's literal is its lexeme,
/// which is a decimal numeral.
pub proof fn theorem_token_shapes(s: Seq<char>, i: int)
    requires
        0 <= i < tokens_from(s, 0).len(),
    ensures
        ({
            let token = tokens_from(s, 0)[i];
            let len = token.lexeme.len() as int;
            &&& !is_reserved(token.kind)
            &&& token.kind != TokenType::Eof
            &&& token.literal is Some <==> token.kind == TokenType::StringLit || token.kind
                == TokenType::Number
            &&& token.kind == TokenType::StringLit ==> {
                &&& len >= 2
                &&& token.lexeme[0] == '"'
                &&& token.lexeme[len - 1] == '"'
                &&& forall|k: int| 0 < k < len - 1 ==> token.lexeme[k] != '"'
                &&& token.literal == Some(LiteralView::Text(token.lexeme.subrange(1, len - 1)))
            }
            &&& token.kind == TokenType::Number ==> {
                &&& token.literal == Some(LiteralView::Float(token.lexeme))
                &&& is_numeral(token.lexeme)
            }
        }),
{
    lemma_tokens_and_starts(s, 0);
    let token = tokens_from(s, 0)[i];
    let start = starts_from(s, 0)[i];
    assert(unit_token(s, start) == Some(token));
    lemma_unit_end(s, start);
    match unit_at(s, start) {
        Unit::Text => {
            let quote = find(s, '"', start + 1);
            lemma_find(s, '"', start + 1);
            assert(s.subrange(start + 1, quote) =~= token.lexeme.subrange(
                1,
                token.lexeme.len() - 1,
            ));
        },
        Unit::Number => {
            lemma_number_is_numeral(s, start);
        },
        _ => {},
    }
}

/// The error messages from `pos` on and the positions at which the units
/// in error begin go together: the message at index `i` is that of the
/// unit that begins at the position at index `i`, and the positions ascend.
pub proof fn lemma_errors_and_faults(s: Seq<char>, pos: int)
    requires
        0 <= pos <= s.len(),
    ensures
        faults_from(s, pos).len() == errors_from(s, pos).len(),
        forall|i: int|
            0 <= i < errors_from(s, pos).len() ==> {
                &&& pos <= #[trigger] faults_from(s, pos)[i] < s.len()
                &&& unit_error(s, faults_from(s, pos)[i]) == Some(errors_from(s, pos)[i])
            },
        forall|i: int, j: int|
            0 <= i < j < faults_from(s, pos).len() ==> unit_end(s, faults_from(s, pos)[i])
                <= faults_from(s, pos)[j],
    decreases s.len() - pos,
{
    if pos < s.len() {
        lemma_unit_end(s, pos);
        let next = unit_end(s, pos);
        lemma_errors_and_faults(s, next);
        let rest_errors = errors_from(s, next);
        let rest_faults = faults_from(s, next);
        if unit_error(s, pos) is Some {
            assert(errors_from(s, pos) =~= seq![unit_error(s, pos)->0] + rest_errors);
            assert(faults_from(s, pos) =~= seq![pos] + rest_faults);
            assert forall|i: int| 0 <= i < errors_from(s, pos).len() implies {
                &&& pos <= #[trigger] faults_from(s, pos)[i] < s.len()
                &&& unit_error(s, faults_from(s, pos)[i]) == Some(errors_from(s, pos)[i])
            } by {
                if i > 0 {
                    assert(faults_from(s, pos)[i] == rest_faults[i - 1]);
                    assert(errors_from(s, pos)[i] == rest_errors[i - 1]);
                }
            }
            assert forall|i: int, j: int| 0 <= i < j < faults_from(s, pos).len() implies unit_end(
                s,
                faults_from(s, pos)[i],
            ) <= faults_from(s, pos)[j] by {
                assert(faults_from(s, pos)[j] == rest_faults[j - 1]);
                if i > 0 {
                    assert(faults_from(s, pos)[i] == rest_faults[i - 1]);
                }
            }
        } else {
            assert(errors_from(s, pos) =~= rest_errors);
            assert(faults_from(s, pos) =~= rest_faults);
        }
    }
}

/// Whether `text` holds no line feed.
pub open spec fn is_one_line(text: Seq<char>) -> bool {
    forall|i: int| 0 <= i < text.len() ==> text[i] != '\n'
}

/// A decimal numeral holds digits only.
pub proof fn lemma_decimal_digits(n: nat)
    ensures
        decimal(n).len() >= 1,
        forall|i: int| 0 <= i < decimal(n).len() ==> is_digit_char(#[trigger] decimal(n)[i]),
    decreases n,
{
    if n >= 10 {
        lemma_decimal_digits(n / 10);
    }
}

/// No error message holds a line feed.
pub proof fn lemma_messages_one_line(s: Seq<char>, pos: int)
    requires
        0 <= pos < s.len(),
        unit_error(s, pos) is Some,
    ensures
        is_one_line(unit_error(s, pos)->0),
{
    reveal_strlit("Unterminated string");
    reveal_strlit("Unrecognized char at line ");
    reveal_strlit(": ");
    match unit_at(s, pos) {
        Unit::Unrecognized => {
            let line = line_at(s, pos);
            lemma_decimal_digits(line);
            let head = "Unrecognized char at line "@;
            let message = unrecognized_message(line, s[pos]);
            assert forall|i: int| 0 <= i < message.len() implies message[i] != '\n' by {
                if i < head.len() {
                    assert(message[i] == head[i]);
                } else if i < head.len() + decimal(line).len() {
                    assert(message[i] == decimal(line)[i - head.len()]);
                } else if i < head.len() + decimal(line).len() + 2 {
                    assert(message[i] == ": "@[i - head.len() - decimal(line).len()]);
                } else {
                    assert(message[i] == s[pos]);
                }
            }
        },
        _ => {},
    }
}

/// The report of one-line messages holds as many line feeds as messages,
/// and ends with one unless it is empty.
pub proof fn lemma_report_lines(messages: Seq<Seq<char>>)
    requires
        forall|i: int| 0 <= i < messages.len() ==> is_one_line(#[trigger] messages[i]),
    ensures
        newlines(report(messages), 0, report(messages).len() as int) == messages.len(),
        messages.len() > 0 ==> report(messages).len() > 0 && report(messages).last() == '\n',
        messages.len() == 0 ==> report(messages).len() == 0,
    decreases messages.len(),
{
    if messages.len() > 0 {
        let front = messages.drop_last();
        let last = messages.last();
        lemma_report_lines(front);
        let head = report(front);
        let whole = report(messages);
        let a = head.len() as int;
        let b = a + last.len();
        assert(whole.len() == b + 1);
        assert(whole.subrange(0, a) =~= head.subrange(0, a));
        lemma_newlines_same(whole, 0, head, 0, a);
        assert forall|i: int| a <= i < b implies whole[i] != '\n' by {
            assert(whole[i] == last[i - a]);
        }
        lemma_newlines_none(whole, a, b);
        lemma_newlines_split(whole, 0, a, b);
        assert(whole[b] == '\n');
    }
}

/// Every error is reported, in the order of the text: the report holds one
/// line for each unit in error, and the message of each names the line on
/// which its unit begins.
pub proof fn theorem_error_report(s: Seq<char>)
    ensures
        faults_from(s, 0).len() == errors_from(s, 0).len(),
        forall|i: int|
            0 <= i < errors_from(s, 0).len() ==> {
                let message = #[trigger] errors_from(s, 0)[i];
                let start = faults_from(s, 0)[i];
                &&& 0 <= start < s.len()
                &&& is_one_line(message)
                &&& if s[start] == '"' {
                    message == unterminated_message()
                } else {
                    message == unrecognized_message(1 + newlines(s, 0, start), s[start])
                }
            },
        forall|i: int, j: int|
            0 <= i < j < faults_from(s, 0).len() ==> faults_from(s, 0)[i] < faults_from(s, 0)[j],
        newlines(report(errors_from(s, 0)), 0, report(errors_from(s, 0)).len() as int)
            == errors_from(s, 0).len(),
{
    lemma_errors_and_faults(s, 0);
    assert forall|i: int| 0 <= i < errors_from(s, 0).len() implies {
        let message = #[trigger] errors_from(s, 0)[i];
        let start = faults_from(s, 0)[i];
        &&& 0 <= start < s.len()
        &&& is_one_line(message)
        &&& if s[start] == '"' {
            message == unterminated_message()
        } else {
            message == unrecognized_message(1 + newlines(s, 0, start), s[start])
        }
    } by {
        let start = faults_from(s, 0)[i];
        assert(unit_error(s, start) == Some(errors_from(s, 0)[i]));
        lemma_messages_one_line(s, start);
    }
    assert forall|i: int, j: int| 0 <= i < j < faults_from(s, 0).len() implies faults_from(s, 0)[i]
        < faults_from(s, 0)[j] by {
        lemma_unit_end(s, faults_from(s, 0)[i]);
    }
    lemma_report_lines(errors_from(s, 0));
}

/// The operator that `c` and an equal sign write together.
pub open spec fn with_equal(c: char) -> TokenType
    recommends
        c == '!' || c == '=' || c == '<' || c == '>',
{
    if c == '!' {
        TokenType::BangEqual
    } else if c == '=' {
        TokenType::EqualEqual
    } else if c == '<' {
        TokenType::LessEqual
    } else {
        TokenType::GreaterEqual
    }
}

/// An operator takes the equal sign that follows it: `!`, `=`, `<` or `>`
/// with an equal sign behind it is one token of two characters, never two
/// tokens of one.
pub proof fn theorem_operators_are_greedy(s: Seq<char>, pos: int)
    requires
        0 <= pos,
        pos + 1 < s.len(),
        s[pos] == '!' || s[pos] == '=' || s[pos] == '<' || s[pos] == '>',
        s[pos + 1] == '=',
    ensures
        unit_end(s, pos) == pos + 2,
        unit_token(s, pos) == Some(
            TokenView {
                kind: with_equal(s[pos]),
                lexeme: s.subrange(pos, pos + 2),
                literal: None,
                line: line_at(s, pos),
            },
        ),
        unit_error(s, pos) is None,
{
}

/// A comment yields nothing: two slashes begin a unit without a token and
/// without an error, which holds no line feed and ends before the next
/// one, or with the text.
pub proof fn theorem_comment_is_dropped(s: Seq<char>, pos: int)
    requires
        0 <= pos,
        pos + 1 < s.len(),
        s[pos] == '/',
        s[pos + 1] == '/',
    ensures
        unit_token(s, pos) is None,
        unit_error(s, pos) is None,
        pos + 2 <= unit_end(s, pos) <= s.len(),
        forall|i: int| pos <= i < unit_end(s, pos) ==> s[i] != '\n',
        unit_end(s, pos) < s.len() ==> s[unit_end(s, pos)] == '\n',
        tokens_from(s, pos) == tokens_from(s, unit_end(s, pos)),
        errors_from(s, pos) == errors_from(s, unit_end(s, pos)),
{
    lemma_find(s, '\n', pos + 2);
}

} // verus!
