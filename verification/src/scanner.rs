//! The scanner: a cursor over a source text that cuts it into tokens.

use vstd::prelude::*;
use vstd::string::*;
use crate::grammar::{
    all_tokens, char_at, digits_end, end_token, errors_from, find, is_digit_char,
    lemma_digits_end, lemma_find, lemma_newlines_bound, lemma_unit_end, line_at, newlines,
    number_end, report, scan_result, tokens_from, unit_at, unit_end, unit_error, unit_token, Unit,
};
use crate::text::decimal_string;
pub use crate::token::{
    literal_string, literal_view, token_views, unparsable_number_message, wrap_literal,
    LiteralValue, LiteralView, Token, TokenType, TokenView,
};

verus! {

/// Tells whether `ch` is a decimal digit.
pub fn is_digit(ch: char) -> (b: bool)
    ensures
        b == is_digit_char(ch),
{
    '0' <= ch && ch <= '9'
}

/// A scanner over one source text.
pub struct Scanner {
    source: String,
    chars: Vec<char>,
    tokens: Vec<Token>,
    start: usize,
    start_line: usize,
    current: usize,
    line: usize,
}

impl Scanner {
    /// The text that this scanner reads.
    pub closed spec fn text(&self) -> Seq<char> {
        self.chars@
    }

    /// The tokens produced so far.
    pub closed spec fn emitted(&self) -> Seq<Token> {
        self.tokens@
    }

    /// The position of the cursor: the characters before it are consumed.
    pub closed spec fn position(&self) -> int {
        self.current as int
    }

    /// What holds of the cursor at any time: it lies within the text, at or
    /// after the start of the unit being scanned, whose line is recorded.
    spec fn cursor_ok(&self) -> bool {
        &&& self.chars@ == self.source@
        &&& self.chars.len() < usize::MAX
        &&& self.start <= self.current <= self.chars.len()
        &&& self.start_line == line_at(self.chars@, self.start as int)
    }

    /// What holds of a scanner between two units: beside `cursor_ok`, the
    /// line counter is the line of the cursor.
    pub closed spec fn wf(&self) -> bool {
        &&& self.cursor_ok()
        &&& self.line == line_at(self.chars@, self.current as int)
    }

    /// Creates a new scanner from a source string.
    pub fn new(source: &str) -> (scanner: Self)
        requires
            source@.len() < usize::MAX,
        ensures
            scanner.wf(),
            scanner.text() == source@,
            scanner.position() == 0,
            scanner.emitted().len() == 0,
    {
        let mut chars: Vec<char> = Vec::new();
        for c in it: source.chars()
            invariant
                it.seq() == source@,
                chars@ == it.seq().take(it.index() as int),
        {
            chars.push(c);
        }
        assert(chars@ =~= source@);
        Self {
            source: String::from_str(source),
            chars,
            tokens: Vec::new(),
            start: 0,
            start_line: 1,
            current: 0,
            line: 1,
        }
    }

    /// The tokens produced so far.
    pub fn tokens(&self) -> (tokens: &Vec<Token>)
        ensures
            tokens@ == self.emitted(),
    {
        &self.tokens
    }

    /// Scans the source string from the cursor to its end and returns the
    /// tokens produced, the closing end-of-input token last. Where any unit
    /// is in error, the scan still runs to the end, and returns the report
    /// of all the errors instead.
    pub fn scan_tokens(&mut self) -> (result: Result<Vec<Token>, String>)
        requires
            old(self).wf(),
        ensures
            final(self).wf(),
            final(self).text() == old(self).text(),
            final(self).position() == old(self).text().len(),
            token_views(final(self).emitted()) == (token_views(old(self).emitted()) + tokens_from(
                old(self).text(),
                old(self).position(),
            )).push(end_token(old(self).text())),
            match result {
                Ok(tokens) => {
                    &&& errors_from(old(self).text(), old(self).position()).len() == 0
                    &&& tokens@ == final(self).emitted()
                },
                Err(message) => {
                    &&& errors_from(old(self).text(), old(self).position()).len() > 0
                    &&& message@ == report(errors_from(old(self).text(), old(self).position()))
                },
            },
            old(self).position() == 0 && old(self).emitted().len() == 0 ==> result_view(result)
                == scan_result(old(self).text()),
    {
        let ghost s = self.chars@;
        let ghost first = self.current as int;
        let mut errors: Vec<String> = Vec::new();
        assert(message_views(errors@) + errors_from(s, first) =~= errors_from(s, first));
        while !self.is_at_end()
            invariant
                self.wf(),
                self.chars@ == s,
                token_views(self.tokens@) + tokens_from(s, self.current as int) == token_views(
                    old(self).tokens@,
                ) + tokens_from(s, first),
                message_views(errors@) + errors_from(s, self.current as int) == errors_from(
                    s,
                    first,
                ),
            decreases self.chars.len() - self.current,
        {
            let ghost pos = self.current as int;
            let ghost tokens_before = token_views(self.tokens@);
            let ghost errors_before = message_views(errors@);
            self.start = self.current;
            self.start_line = self.line;
            proof {
                lemma_unit_end(s, pos);
            }
            match self.scan_token() {
                Ok(_) => (),
                Err(msg) => {
                    errors.push(msg);
                },
            }
            proof {
                let next = self.current as int;
                assert(tokens_from(s, pos) =~= option_seq(unit_token(s, pos)) + tokens_from(
                    s,
                    next,
                ));
                assert(errors_from(s, pos) =~= messages_of(unit_error(s, pos)) + errors_from(
                    s,
                    next,
                ));
                assert(message_views(errors@) =~= errors_before + messages_of(
                    unit_error(s, pos),
                ));
                assert(token_views(self.tokens@) + tokens_from(s, next) =~= tokens_before
                    + tokens_from(s, pos));
                assert(message_views(errors@) + errors_from(s, next) =~= errors_before
                    + errors_from(s, pos));
            }
        }

        self.tokens.push(
            Token {
                token_type: TokenType::Eof,
                lexeme: String::from_str(""),
                literal: None,
                line_number: self.line,
            },
        );
        proof {
            reveal_strlit("");
            assert(self.tokens@.last().lexeme@ =~= Seq::<char>::empty());
            assert(self.tokens@.last()@ == end_token(s));
            assert(token_views(self.tokens@) =~= (token_views(old(self).tokens@) + tokens_from(
                s,
                first,
            )).push(end_token(s)));
            assert(message_views(errors@) =~= errors_from(s, first));
        }

        proof {
            if first == 0 && old(self).tokens@.len() == 0 {
                assert(token_views(self.tokens@) =~= all_tokens(s));
            }
        }
        if errors.len() > 0 {
            return Err(join_lines(&errors));
        }
        Ok(self.tokens.clone())
    }

    fn is_at_end(&self) -> (at_end: bool)
        ensures
            at_end == (self.current >= self.chars.len()),
    {
        self.current >= self.chars.len()
    }

    /// The character under the cursor, or NUL at the end of the text.
    fn peek(&self) -> (c: char)
        ensures
            c == char_at(self.chars@, self.current as int),
    {
        if self.is_at_end() {
            return '\0';
        }
        self.chars[self.current]
    }

    /// The character after the one under the cursor, or NUL where the text
    /// ends before it.
    fn peek_next(&self) -> (c: char)
        requires
            self.current < usize::MAX,
        ensures
            c == char_at(self.chars@, self.current + 1),
    {
        if self.current + 1 >= self.chars.len() {
            return '\0';
        }
        self.chars[self.current + 1]
    }

    /// Consumes the character under the cursor if it is `ch`.
    fn char_match(&mut self, ch: char) -> (matched: bool)
        requires
            old(self).cursor_ok(),
        ensures
            matched == (old(self).current < old(self).chars.len() && old(self).chars@[old(
                self,
            ).current as int] == ch),
            *final(self) == (Scanner {
                current: if matched {
                    (old(self).current + 1) as usize
                } else {
                    old(self).current
                },
                ..*old(self)
            }),
    {
        if self.is_at_end() {
            return false;
        }
        if self.chars[self.current] != ch {
            return false;
        } else {
            self.current += 1;
            return true;
        }
    }

    /// Returns the character under the cursor and moves the cursor past it.
    fn advance(&mut self) -> (c: char)
        requires
            old(self).current < old(self).chars.len(),
        ensures
            c == old(self).chars@[old(self).current as int],
            *final(self) == (Scanner { current: (old(self).current + 1) as usize, ..*old(self) }),
    {
        let c = self.chars[self.current];
        self.current += 1;
        c
    }

    /// Whether `after` differs from `before` at most in the cursor, the
    /// line counter and the tokens.
    spec fn same_unit(before: Scanner, after: Scanner) -> bool {
        &&& after.source == before.source
        &&& after.chars == before.chars
        &&& after.start == before.start
        &&& after.start_line == before.start_line
    }

    /// Whether `after` is what scanning the unit at the cursor of `before`
    /// leaves: the cursor behind the unit, the unit's token appended if
    /// it has one, and `error` the unit's error message if it has one.
    spec fn unit_done(before: Scanner, after: Scanner, error: Option<Seq<char>>) -> bool {
        let s = before.chars@;
        let pos = before.start as int;
        &&& after.wf()
        &&& Self::same_unit(before, after)
        &&& after.current == unit_end(s, pos)
        &&& token_views(after.tokens@) == token_views(before.tokens@) + option_seq(
            unit_token(s, pos),
        )
        &&& error == unit_error(s, pos)
    }

    /// The text from the start of the unit being scanned plus `skip` to the
    /// cursor minus `trim`.
    fn slice(&self, skip: usize, trim: usize) -> (text: String)
        requires
            self.cursor_ok(),
            self.start + skip <= self.current - trim,
        ensures
            text@ == self.chars@.subrange(self.start + skip, self.current - trim),
    {
        String::from_str(
            self.source.as_str().substring_char(self.start + skip, self.current - trim),
        )
    }

    /// Appends a token without a literal for the unit from `start` to the
    /// cursor.
    fn add_token(&mut self, token_type: TokenType)
        requires
            old(self).cursor_ok(),
        ensures
            *final(self) == (Scanner { tokens: final(self).tokens, ..*old(self) }),
            token_views(final(self).tokens@) == token_views(old(self).tokens@).push(
                TokenView {
                    kind: token_type,
                    lexeme: old(self).chars@.subrange(
                        old(self).start as int,
                        old(self).current as int,
                    ),
                    literal: None,
                    line: old(self).start_line as nat,
                },
            ),
    {
        self.add_token_lit(token_type, None);
    }

    /// Appends a token for the unit from `start` to the cursor: its lexeme
    /// is the unit's text, its line the line on which the unit begins.
    fn add_token_lit(&mut self, token_type: TokenType, literal: Option<LiteralValue>)
        requires
            old(self).cursor_ok(),
        ensures
            *final(self) == (Scanner { tokens: final(self).tokens, ..*old(self) }),
            token_views(final(self).tokens@) == token_views(old(self).tokens@).push(
                TokenView {
                    kind: token_type,
                    lexeme: old(self).chars@.subrange(
                        old(self).start as int,
                        old(self).current as int,
                    ),
                    literal: literal_view(literal),
                    line: old(self).start_line as nat,
                },
            ),
    {
        let text = self.slice(0, 0);
        self.tokens.push(Token { token_type, lexeme: text, literal, line_number: self.start_line });
        assert(token_views(self.tokens@) =~= token_views(old(self).tokens@).push(
            self.tokens@.last()@,
        ));
    }

    /// Appends the token of a punctuation mark or an operator whose
    /// characters are consumed.
    fn mark(&mut self, token_type: TokenType)
        requires
            old(self).wf(),
            unit_at(old(self).chars@, old(self).start as int) == Unit::Mark(token_type),
            old(self).current == unit_end(old(self).chars@, old(self).start as int),
        ensures
            Self::unit_done(*old(self), *final(self), None),
    {
        self.add_token(token_type);
        proof {
            lemma_push_is_add(
                token_views(old(self).tokens@),
                unit_token(self.chars@, self.start as int)->0,
            );
        }
    }

    /// Scans a single lexical unit from the source string.
    fn scan_token(&mut self) -> (result: Result<(), String>)
        requires
            old(self).wf(),
            old(self).start == old(self).current,
            old(self).current < old(self).chars.len(),
        ensures
            Self::unit_done(*old(self), *final(self), error_view(result)),
    {
        let ghost s = self.chars@;
        let ghost pos = self.start as int;
        proof {
            lemma_newlines_bound(s, 0, pos);
            assert(token_views(self.tokens@) + Seq::<TokenView>::empty() =~= token_views(
                self.tokens@,
            ));
            assert(newlines(s, 0, pos + 1) == newlines(s, 0, pos) + if s[pos] == '\n' {
                1nat
            } else {
                0nat
            });
            if pos + 1 < s.len() {
                assert(newlines(s, 0, pos + 2) == newlines(s, 0, pos + 1) + if s[pos + 1]
                    == '\n' {
                    1nat
                } else {
                    0nat
                });
            }
        }
        let c = self.advance();

        match c {
            '(' => self.mark(TokenType::LeftParen),
            ')' => self.mark(TokenType::RightParen),
            '{' => self.mark(TokenType::LeftBrace),
            '}' => self.mark(TokenType::RightBrace),
            ',' => self.mark(TokenType::Comma),
            '.' => self.mark(TokenType::Dot),
            '-' => self.mark(TokenType::Minus),
            '+' => self.mark(TokenType::Plus),
            ';' => self.mark(TokenType::Semicolon),
            '*' => self.mark(TokenType::Star),
            '!' => {
                let token = if self.char_match('=') {
                    TokenType::BangEqual
                } else {
                    TokenType::Bang
                };
                self.mark(token);
            },
            '=' => {
                let token = if self.char_match('=') {
                    TokenType::EqualEqual
                } else {
                    TokenType::Equal
                };
                self.mark(token);
            },
            '<' => {
                let token = if self.char_match('=') {
                    TokenType::LessEqual
                } else {
                    TokenType::Less
                };
                self.mark(token);
            },
            '>' => {
                let token = if self.char_match('=') {
                    TokenType::GreaterEqual
                } else {
                    TokenType::Greater
                };
                self.mark(token);
            },
            '/' => {
                if self.char_match('/') {
                    // A comment goes until the end of the line.
                    proof {
                        lemma_find(s, '\n', pos + 2);
                    }
                    while !(self.peek() == '\n' || self.is_at_end())
                        invariant
                            self.wf(),
                            Self::same_unit(*old(self), *self),
                            self.tokens == old(self).tokens,
                            s == self.chars@,
                            pos == self.start,
                            pos + 2 <= self.current,
                            find(s, '\n', self.current as int) == find(s, '\n', pos + 2),
                        decreases self.chars.len() - self.current,
                    {
                        self.advance();
                    }
                } else {
                    self.mark(TokenType::Slash);
                }
            },
            ' ' | '\r' | '\t' => {},
            '\n' => {
                self.line += 1;
            },
            '"' => {
                return self.string();
            },
            c => {
                if is_digit(c) {
                    self.number();
                } else {
                    let mut message = String::from_str("Unrecognized char at line ");
                    let number = decimal_string(self.line as u64);
                    message.append(number.as_str());
                    message.append(": ");
                    message.append(self.source.as_str().substring_char(self.start, self.current));
                    assert(s.subrange(pos, pos + 1) =~= seq![s[pos]]);
                    return Err(message);
                }
            },
        }

        Ok(())
    }

    /// Scans the rest of a number whose first digit is consumed.
    fn number(&mut self)
        requires
            old(self).wf(),
            old(self).current == old(self).start + 1,
            is_digit_char(old(self).chars@[old(self).start as int]),
        ensures
            Self::unit_done(*old(self), *final(self), None),
    {
        let ghost s = self.chars@;
        let ghost pos = self.start as int;
        proof {
            lemma_digits_end(s, pos);
        }
        while is_digit(self.peek())
            invariant
                self.wf(),
                Self::same_unit(*old(self), *self),
                self.tokens == old(self).tokens,
                s == self.chars@,
                pos == self.start,
                pos < self.current,
                digits_end(s, self.current as int) == digits_end(s, pos),
            decreases self.chars.len() - self.current,
        {
            self.advance();
        }
        let ghost whole = self.current as int;
        if self.peek() == '.' && is_digit(self.peek_next()) {
            self.advance();
            proof {
                lemma_digits_end(s, whole + 1);
            }
            while is_digit(self.peek())
                invariant
                    self.wf(),
                    Self::same_unit(*old(self), *self),
                    self.tokens == old(self).tokens,
                    s == self.chars@,
                    pos == self.start,
                    whole < self.current,
                    whole == digits_end(s, pos),
                    digits_end(s, self.current as int) == digits_end(s, whole + 1),
                decreases self.chars.len() - self.current,
            {
                self.advance();
            }
        }
        let text = self.slice(0, 0);
        self.add_token_lit(TokenType::Number, Some(LiteralValue::FValue(text)));
        proof {
            assert(unit_at(s, pos) is Number);
            assert(self.current == number_end(s, pos));
            lemma_push_is_add(token_views(old(self).tokens@), unit_token(s, pos)->0);
        }
    }

    /// Scans the rest of a string literal whose opening quote is consumed.
    fn string(&mut self) -> (result: Result<(), String>)
        requires
            old(self).wf(),
            old(self).current == old(self).start + 1,
            old(self).chars@[old(self).start as int] == '"',
        ensures
            Self::unit_done(*old(self), *final(self), error_view(result)),
    {
        let ghost s = self.chars@;
        let ghost pos = self.start as int;
        proof {
            lemma_find(s, '"', pos + 1);
        }
        while self.peek() != '"' && !self.is_at_end()
            invariant
                self.wf(),
                Self::same_unit(*old(self), *self),
                self.tokens == old(self).tokens,
                s == self.chars@,
                pos == self.start,
                pos < self.current,
                find(s, '"', self.current as int) == find(s, '"', pos + 1),
            decreases self.chars.len() - self.current,
        {
            if self.peek() == '\n' {
                proof {
                    lemma_newlines_bound(s, 0, self.current as int);
                }
                self.line += 1;
            }
            self.advance();
        }
        if self.is_at_end() {
            assert(unit_at(s, pos) is Unterminated);
            assert(token_views(self.tokens@) + Seq::<TokenView>::empty() =~= token_views(
                self.tokens@,
            ));
            return Err(String::from_str("Unterminated string"));
        }
        self.advance();
        let value = self.slice(1, 1);
        self.add_token_lit(TokenType::StringLit, Some(LiteralValue::StringValue(value)));
        proof {
            assert(unit_at(s, pos) is Text);
            lemma_push_is_add(token_views(old(self).tokens@), unit_token(s, pos)->0);
        }
        Ok(())
    }
}

/// Appending one element is adding a sequence of one.
proof fn lemma_push_is_add(tokens: Seq<TokenView>, token: TokenView)
    ensures
        tokens.push(token) == tokens + seq![token],
{
    assert(tokens.push(token) =~= tokens + seq![token]);
}

/// The one token of `token`, or none.
pub open spec fn option_seq(token: Option<TokenView>) -> Seq<TokenView> {
    match token {
        Some(token) => seq![token],
        None => Seq::empty(),
    }
}

/// What a scan returned, as mathematical values.
pub open spec fn result_view(result: Result<Vec<Token>, String>) -> Result<
    Seq<TokenView>,
    Seq<char>,
> {
    match result {
        Ok(tokens) => Ok(token_views(tokens@)),
        Err(message) => Err(message@),
    }
}

/// The one message of `error`, or none.
pub open spec fn messages_of(error: Option<Seq<char>>) -> Seq<Seq<char>> {
    match error {
        Some(message) => seq![message],
        None => Seq::empty(),
    }
}

/// The texts of a sequence of strings, in order.
pub open spec fn message_views(messages: Seq<String>) -> Seq<Seq<char>> {
    Seq::new(messages.len(), |i: int| messages[i]@)
}

/// Joins the messages into one report, a line feed after each.
fn join_lines(messages: &Vec<String>) -> (joined: String)
    ensures
        joined@ == report(message_views(messages@)),
{
    let ghost all = message_views(messages@);
    let mut joined = String::from_str("");
    proof {
        reveal_strlit("");
    }
    let mut i: usize = 0;
    while i < messages.len()
        invariant
            i <= messages.len(),
            all == message_views(messages@),
            joined@ == report(all.take(i as int)),
        decreases messages.len() - i,
    {
        joined.append(messages[i].as_str());
        joined.append("\n");
        proof {
            assert(all.take(i + 1).drop_last() =~= all.take(i as int));
            assert(all.take(i + 1).last() == messages@[i as int]@);
            reveal_strlit("\n");
            assert("\n"@ =~= seq!['\n']);
        }
        i += 1;
    }
    assert(all.take(i as int) =~= all);
    joined
}

/// The message of a failed step, or none.
pub open spec fn error_view(result: Result<(), String>) -> Option<Seq<char>> {
    match result {
        Ok(_) => None,
        Err(message) => Some(message@),
    }
}

} // verus!
