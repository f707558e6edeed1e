//! The lexical grammar, as functions on a sequence of characters.
//!
//! A text is cut into lexical units from left to right. Each unit is
//! classified by [`unit_at`] and ends at [`unit_end`]; it yields at most one
//! token ([`unit_token`]) and at most one error message ([`unit_error`]).

use vstd::prelude::*;
use crate::token::{LiteralView, TokenType, TokenView};
use crate::text::decimal;

verus! {

/// Whether `c` is one of the ten decimal digits.
pub open spec fn is_digit_char(c: char) -> bool {
    '0' <= c && c <= '9'
}

/// The character at `pos`, or NUL where `pos` lies outside the text.
pub open spec fn char_at(s: Seq<char>, pos: int) -> char {
    if 0 <= pos < s.len() {
        s[pos]
    } else {
        '\0'
    }
}

/// How many line feeds lie in `s[from..to)`.
pub open spec fn newlines(s: Seq<char>, from: int, to: int) -> nat
    decreases to - from,
{
    if 0 <= from < to <= s.len() {
        newlines(s, from, to - 1) + if s[to - 1] == '\n' {
            1nat
        } else {
            0nat
        }
    } else {
        0
    }
}

/// The number of the line on which position `pos` lies, counted from 1.
pub open spec fn line_at(s: Seq<char>, pos: int) -> nat {
    1 + newlines(s, 0, pos)
}

/// The first position at or after `from` that holds `c`, or the length of
/// the text where there is none.
pub open spec fn find(s: Seq<char>, c: char, from: int) -> int
    decreases s.len() - from,
{
    if 0 <= from < s.len() && s[from] != c {
        find(s, c, from + 1)
    } else {
        from
    }
}

/// The first position at or after `from` that holds no digit.
pub open spec fn digits_end(s: Seq<char>, from: int) -> int
    decreases s.len() - from,
{
    if 0 <= from < s.len() && is_digit_char(s[from]) {
        digits_end(s, from + 1)
    } else {
        from
    }
}

/// Where the number that begins at `pos` ends: after its digits, and after
/// a fraction where a dot and at least one digit follow them.
pub open spec fn number_end(s: Seq<char>, pos: int) -> int {
    let whole = digits_end(s, pos);
    if char_at(s, whole) == '.' && is_digit_char(char_at(s, whole + 1)) {
        digits_end(s, whole + 1)
    } else {
        whole
    }
}

/// Whether `s` is a decimal numeral: digits, then optionally a dot and
/// more digits, with at least one digit in each part.
pub open spec fn is_numeral(s: Seq<char>) -> bool {
    let whole = digits_end(s, 0);
    &&& 0 < whole
    &&& whole == s.len() || {
        &&& s[whole] == '.'
        &&& whole + 1 < s.len()
        &&& digits_end(s, whole + 1) == s.len()
    }
}

/// The kinds of lexical unit.
pub enum Unit {
    /// A punctuation mark or an operator.
    Mark(TokenType),
    /// A space, a tab, a carriage return or a line feed.
    Blank,
    /// A comment: two slashes and the rest of the line.
    Comment,
    /// A string literal, closed by a quote.
    Text,
    /// A string literal that the end of the text cuts short.
    Unterminated,
    /// A number literal.
    Number,
    /// A character with which no unit begins.
    Unrecognized,
}

/// The kind of the unit that begins at `pos`.
pub open spec fn unit_at(s: Seq<char>, pos: int) -> Unit
    recommends
        0 <= pos < s.len(),
{
    let c = s[pos];
    let next = char_at(s, pos + 1);
    if c == '(' {
        Unit::Mark(TokenType::LeftParen)
    } else if c == ')' {
        Unit::Mark(TokenType::RightParen)
    } else if c == '{' {
        Unit::Mark(TokenType::LeftBrace)
    } else if c == '}' {
        Unit::Mark(TokenType::RightBrace)
    } else if c == ',' {
        Unit::Mark(TokenType::Comma)
    } else if c == '.' {
        Unit::Mark(TokenType::Dot)
    } else if c == '-' {
        Unit::Mark(TokenType::Minus)
    } else if c == '+' {
        Unit::Mark(TokenType::Plus)
    } else if c == ';' {
        Unit::Mark(TokenType::Semicolon)
    } else if c == '*' {
        Unit::Mark(TokenType::Star)
    } else if c == '!' {
        Unit::Mark(if next == '=' { TokenType::BangEqual } else { TokenType::Bang })
    } else if c == '=' {
        Unit::Mark(if next == '=' { TokenType::EqualEqual } else { TokenType::Equal })
    } else if c == '<' {
        Unit::Mark(if next == '=' { TokenType::LessEqual } else { TokenType::Less })
    } else if c == '>' {
        Unit::Mark(if next == '=' { TokenType::GreaterEqual } else { TokenType::Greater })
    } else if c == '/' {
        if next == '/' {
            Unit::Comment
        } else {
            Unit::Mark(TokenType::Slash)
        }
    } else if c == ' ' || c == '\r' || c == '\t' || c == '\n' {
        Unit::Blank
    } else if c == '"' {
        if find(s, '"', pos + 1) < s.len() {
            Unit::Text
        } else {
            Unit::Unterminated
        }
    } else if is_digit_char(c) {
        Unit::Number
    } else {
        Unit::Unrecognized
    }
}

/// Whether `kind` is one of the operators written with two characters.
pub open spec fn is_double(kind: TokenType) -> bool {
    kind == TokenType::BangEqual || kind == TokenType::EqualEqual || kind == TokenType::LessEqual
        || kind == TokenType::GreaterEqual
}

/// The position just after the unit that begins at `pos`.
pub open spec fn unit_end(s: Seq<char>, pos: int) -> int
    recommends
        0 <= pos < s.len(),
{
    match unit_at(s, pos) {
        Unit::Mark(kind) => if is_double(kind) {
            pos + 2
        } else {
            pos + 1
        },
        Unit::Blank => pos + 1,
        Unit::Comment => find(s, '\n', pos + 2),
        Unit::Text => find(s, '"', pos + 1) + 1,
        Unit::Unterminated => s.len() as int,
        Unit::Number => number_end(s, pos),
        Unit::Unrecognized => pos + 1,
    }
}

/// The token that the unit at `pos` yields, if it yields one. Its lexeme
/// is the unit's text and its line is the line on which the unit begins. A
/// string carries the text between its quotes, a number its own numeral.
pub open spec fn unit_token(s: Seq<char>, pos: int) -> Option<TokenView>
    recommends
        0 <= pos < s.len(),
{
    let end = unit_end(s, pos);
    let lexeme = s.subrange(pos, end);
    let line = line_at(s, pos);
    match unit_at(s, pos) {
        Unit::Mark(kind) => Some(TokenView { kind, lexeme, literal: None, line }),
        Unit::Text => Some(
            TokenView {
                kind: TokenType::StringLit,
                lexeme,
                literal: Some(LiteralView::Text(s.subrange(pos + 1, end - 1))),
                line,
            },
        ),
        Unit::Number => Some(
            TokenView {
                kind: TokenType::Number,
                lexeme,
                literal: Some(LiteralView::Float(lexeme)),
                line,
            },
        ),
        _ => None,
    }
}

/// The message for a character with which no unit begins.
pub open spec fn unrecognized_message(line: nat, c: char) -> Seq<char> {
    "Unrecognized char at line "@ + decimal(line) + ": "@ + seq![c]
}

/// The message for a string literal without its closing quote.
pub open spec fn unterminated_message() -> Seq<char> {
    "Unterminated string"@
}

/// The error message that the unit at `pos` yields, if it yields one.
pub open spec fn unit_error(s: Seq<char>, pos: int) -> Option<Seq<char>>
    recommends
        0 <= pos < s.len(),
{
    match unit_at(s, pos) {
        Unit::Unterminated => Some(unterminated_message()),
        Unit::Unrecognized => Some(unrecognized_message(line_at(s, pos), s[pos])),
        _ => None,
    }
}

/// The tokens of the units from `pos` to the end of the text, in order.
pub open spec fn tokens_from(s: Seq<char>, pos: int) -> Seq<TokenView>
    decreases s.len() - pos,
    via tokens_from_terminates
{
    if 0 <= pos < s.len() {
        let rest = tokens_from(s, unit_end(s, pos));
        match unit_token(s, pos) {
            Some(token) => seq![token] + rest,
            None => rest,
        }
    } else {
        Seq::empty()
    }
}

#[via_fn]
proof fn tokens_from_terminates(s: Seq<char>, pos: int) {
    if 0 <= pos < s.len() {
        lemma_unit_end(s, pos);
    }
}

/// The error messages of the units from `pos` to the end of the text, in
/// order.
pub open spec fn errors_from(s: Seq<char>, pos: int) -> Seq<Seq<char>>
    decreases s.len() - pos,
    via errors_from_terminates
{
    if 0 <= pos < s.len() {
        let rest = errors_from(s, unit_end(s, pos));
        match unit_error(s, pos) {
            Some(message) => seq![message] + rest,
            None => rest,
        }
    } else {
        Seq::empty()
    }
}

#[via_fn]
proof fn errors_from_terminates(s: Seq<char>, pos: int) {
    if 0 <= pos < s.len() {
        lemma_unit_end(s, pos);
    }
}

/// The positions at which the units that yield a token begin, from `pos`
/// to the end of the text, in order.
pub open spec fn starts_from(s: Seq<char>, pos: int) -> Seq<int>
    decreases s.len() - pos,
    via starts_from_terminates
{
    if 0 <= pos < s.len() {
        let rest = starts_from(s, unit_end(s, pos));
        if unit_token(s, pos) is Some {
            seq![pos] + rest
        } else {
            rest
        }
    } else {
        Seq::empty()
    }
}

#[via_fn]
proof fn starts_from_terminates(s: Seq<char>, pos: int) {
    if 0 <= pos < s.len() {
        lemma_unit_end(s, pos);
    }
}

/// The positions at which the units that are in error begin, from `pos`
/// to the end of the text, in order.
pub open spec fn faults_from(s: Seq<char>, pos: int) -> Seq<int>
    decreases s.len() - pos,
    via faults_from_terminates
{
    if 0 <= pos < s.len() {
        let rest = faults_from(s, unit_end(s, pos));
        if unit_error(s, pos) is Some {
            seq![pos] + rest
        } else {
            rest
        }
    } else {
        Seq::empty()
    }
}

#[via_fn]
proof fn faults_from_terminates(s: Seq<char>, pos: int) {
    if 0 <= pos < s.len() {
        lemma_unit_end(s, pos);
    }
}

/// The token that ends every scan: it has no text and lies on the line
/// that the end of the text has reached.
pub open spec fn end_token(s: Seq<char>) -> TokenView {
    TokenView {
        kind: TokenType::Eof,
        lexeme: Seq::empty(),
        literal: None,
        line: line_at(s, s.len() as int),
    }
}

/// All the tokens of a text: those of its units, then the end token.
pub open spec fn all_tokens(s: Seq<char>) -> Seq<TokenView> {
    tokens_from(s, 0).push(end_token(s))
}

/// What a scan of the whole text returns: all its tokens where no unit is
/// in error, else the report of the errors.
pub open spec fn scan_result(s: Seq<char>) -> Result<Seq<TokenView>, Seq<char>> {
    if errors_from(s, 0).len() == 0 {
        Ok(all_tokens(s))
    } else {
        Err(report(errors_from(s, 0)))
    }
}

/// The report of a failed scan: every message, each followed by a line
/// feed.
pub open spec fn report(messages: Seq<Seq<char>>) -> Seq<char>
    decreases messages.len(),
{
    if messages.len() == 0 {
        Seq::empty()
    } else {
        report(messages.drop_last()) + messages.last() + seq!['\n']
    }
}

/// A range holds no more line feeds than characters.
pub proof fn lemma_newlines_bound(s: Seq<char>, from: int, to: int)
    requires
        from <= to,
    ensures
        newlines(s, from, to) <= to - from,
    decreases to - from,
{
    if 0 <= from < to <= s.len() {
        lemma_newlines_bound(s, from, to - 1);
    }
}

/// `find` stays within the text, passes over no occurrence of `c`, and
/// stops on one unless it reaches the end.
pub proof fn lemma_find(s: Seq<char>, c: char, from: int)
    requires
        0 <= from <= s.len(),
    ensures
        from <= find(s, c, from) <= s.len(),
        find(s, c, from) < s.len() ==> s[find(s, c, from)] == c,
        forall|i: int| from <= i < find(s, c, from) ==> s[i] != c,
    decreases s.len() - from,
{
    if from < s.len() && s[from] != c {
        lemma_find(s, c, from + 1);
    }
}

/// `digits_end` stays within the text, passes over digits only, and stops
/// on a character that is no digit unless it reaches the end.
pub proof fn lemma_digits_end(s: Seq<char>, from: int)
    requires
        0 <= from <= s.len(),
    ensures
        from <= digits_end(s, from) <= s.len(),
        !is_digit_char(char_at(s, digits_end(s, from))),
        forall|i: int| from <= i < digits_end(s, from) ==> is_digit_char(s[i]),
    decreases s.len() - from,
{
    if from < s.len() && is_digit_char(s[from]) {
        lemma_digits_end(s, from + 1);
    }
}

/// `digits_end` is the one position that digits alone lead to and at which
/// no digit stands.
pub proof fn lemma_digits_end_is(s: Seq<char>, from: int, end: int)
    requires
        0 <= from <= end <= s.len(),
        forall|i: int| from <= i < end ==> is_digit_char(s[i]),
        !is_digit_char(char_at(s, end)),
    ensures
        digits_end(s, from) == end,
    decreases end - from,
{
    if from < end {
        lemma_digits_end_is(s, from + 1, end);
    }
}

/// The line feeds of a range are those of its two parts.
pub proof fn lemma_newlines_split(s: Seq<char>, from: int, mid: int, to: int)
    requires
        0 <= from <= mid <= to <= s.len(),
    ensures
        newlines(s, from, to) == newlines(s, from, mid) + newlines(s, mid, to),
    decreases to - mid,
{
    if mid < to {
        lemma_newlines_split(s, from, mid, to - 1);
    }
}

/// Two ranges that hold the same characters hold as many line feeds.
pub proof fn lemma_newlines_same(s: Seq<char>, from: int, t: Seq<char>, at: int, len: int)
    requires
        0 <= from,
        0 <= at,
        0 <= len,
        from + len <= s.len(),
        at + len <= t.len(),
        s.subrange(from, from + len) == t.subrange(at, at + len),
    ensures
        newlines(s, from, from + len) == newlines(t, at, at + len),
    decreases len,
{
    if len > 0 {
        let a = s.subrange(from, from + len);
        let b = t.subrange(at, at + len);
        assert(s.subrange(from, from + len - 1) =~= a.subrange(0, len - 1));
        assert(t.subrange(at, at + len - 1) =~= b.subrange(0, len - 1));
        assert(s[from + len - 1] == a[len - 1]);
        assert(t[at + len - 1] == b[len - 1]);
        lemma_newlines_same(s, from, t, at, len - 1);
    }
}

/// A range without a line feed counts none.
pub proof fn lemma_newlines_none(s: Seq<char>, from: int, to: int)
    requires
        0 <= from <= to <= s.len(),
        forall|i: int| from <= i < to ==> s[i] != '\n',
    ensures
        newlines(s, from, to) == 0,
    decreases to - from,
{
    if from < to {
        lemma_newlines_none(s, from, to - 1);
    }
}

/// Every unit is at least one character long and ends within the text.
pub proof fn lemma_unit_end(s: Seq<char>, pos: int)
    requires
        0 <= pos < s.len(),
    ensures
        pos < unit_end(s, pos) <= s.len(),
{
    lemma_find(s, '"', pos + 1);
    if pos + 2 <= s.len() {
        lemma_find(s, '\n', pos + 2);
    }
    lemma_digits_end(s, pos);
    let whole = digits_end(s, pos);
    if whole + 1 <= s.len() {
        lemma_digits_end(s, whole + 1);
    }
}

} // verus!
