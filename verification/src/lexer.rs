//! The lexer of the text form.

use vstd::prelude::*;
use crate::document::{AdfError, ErrorModel};
use crate::text::push_decimal;
use crate::token_model::{
    KindModel, TokenModel, escape_debug_text, is_white_space, is_digit, is_ident_start_char,
    is_ident_continue_char, is_number_char, line_at, column_at, line_end, skip_ignored, number_end,
    ident_end, all_digits, count_char, exponent_start, valid_mantissa, valid_number, escaped,
    located, msg_unexpected_char, msg_unterminated, msg_bad_escape, msg_invalid_number,
    string_rest, token, next_token, tokens_from,
};

verus! {

/// Whether `f` gives one result for each text, whatever string holds it.
pub open spec fn deterministic<F: Fn(&str) -> u64>(f: F) -> bool {
    &&& forall|s: &str| call_requires(f, (s,))
    &&& forall|t: Seq<char>, v1: u64, v2: u64|
        #[trigger] decodes(f, t, v1) && #[trigger] decodes(f, t, v2) ==> v1 == v2
}

/// Whether `f` gave `v` for some string holding `t`.
pub open spec fn decodes<F: Fn(&str) -> u64>(f: F, t: Seq<char>, v: u64) -> bool {
    exists|s: &str| s@ == t && #[trigger] call_ensures(f, (s,), v)
}

/// What `f` gives for each text.
pub open spec fn decoded_by<F: Fn(&str) -> u64>(f: F) -> spec_fn(Seq<char>) -> u64 {
    |t: Seq<char>| choose|v: u64| #[trigger] decodes(f, t, v)
}

/// A token kind of the text form.
pub enum TokenKind {
    Ident(String),
    Number(u64),
    String(String),
    Plus,
    Minus,
    Caret,
    Question,
    At,
    Colon,
    Comma,
    Semicolon,
    LParen,
    RParen,
    LBracket,
    RBracket,
    Eof,
}

impl View for TokenKind {
    type V = KindModel;

    open spec fn view(&self) -> KindModel {
        match self {
            TokenKind::Ident(s) => KindModel::Ident(s@),
            TokenKind::Number(n) => KindModel::Number(*n),
            TokenKind::String(s) => KindModel::Str(s@),
            TokenKind::Plus => KindModel::Plus,
            TokenKind::Minus => KindModel::Minus,
            TokenKind::Caret => KindModel::Caret,
            TokenKind::Question => KindModel::Question,
            TokenKind::At => KindModel::At,
            TokenKind::Colon => KindModel::Colon,
            TokenKind::Comma => KindModel::Comma,
            TokenKind::Semicolon => KindModel::Semicolon,
            TokenKind::LParen => KindModel::LParen,
            TokenKind::RParen => KindModel::RParen,
            TokenKind::LBracket => KindModel::LBracket,
            TokenKind::RBracket => KindModel::RBracket,
            TokenKind::Eof => KindModel::Eof,
        }
    }
}

/// A token and where it starts.
pub struct Token {
    pub kind: TokenKind,
    pub line: usize,
    pub column: usize,
}

impl View for Token {
    type V = TokenModel;

    open spec fn view(&self) -> TokenModel {
        TokenModel { kind: self.kind@, line: self.line as nat, column: self.column as nat }
    }
}

/// The characters of a string slice, in order.
pub fn chars_of(source: &str) -> (r: Vec<char>)
    ensures
        r@ == source@,
{
    let mut out: Vec<char> = Vec::new();
    for c in it: source.chars()
        invariant
            out@ == it.seq().take(it.index() as int),
    {
        out.push(c);
        proof {
            assert(it.seq().take(it.index() + 1) =~= it.seq().take(it.index() as int).push(c));
        }
    }
    proof {
        assert(out@ =~= source@);
    }
    out
}

/// Whether a character has the Unicode `White_Space` property.
pub fn is_whitespace_char(c: char) -> (r: bool)
    ensures
        r == is_white_space(c),
{
    ('\u{9}' <= c && c <= '\u{d}') || c == ' ' || c == '\u{85}' || c == '\u{a0}' || c
        == '\u{1680}' || ('\u{2000}' <= c && c <= '\u{200a}') || c == '\u{2028}' || c
        == '\u{2029}' || c == '\u{202f}' || c == '\u{205f}' || c == '\u{3000}'
}

fn is_digit_char(c: char) -> (r: bool)
    ensures
        r == is_digit(c),
{
    '0' <= c && c <= '9'
}

/// Whether a character can start an identifier: an ASCII letter or `_`.
pub fn is_ident_start(ch: char) -> (r: bool)
    ensures
        r == is_ident_start_char(ch),
{
    ('a' <= ch && ch <= 'z') || ('A' <= ch && ch <= 'Z') || ch == '_'
}

/// Whether a character can continue an identifier: an ASCII letter or
/// digit, `_`, `.`, `/` or `\`.
pub fn is_ident_continue(ch: char) -> (r: bool)
    ensures
        r == is_ident_continue_char(ch),
{
    ('a' <= ch && ch <= 'z') || ('A' <= ch && ch <= 'Z') || ('0' <= ch && ch <= '9') || ch == '_'
        || ch == '.' || ch == '/' || ch == '\\'
}

/// Whether a run of number characters is a literal that `f64::from_str`
/// accepts.
pub fn is_valid_number(t: &Vec<char>) -> (r: bool)
    ensures
        r == valid_number(t@),
{
    let ghost s = t@;
    let mut k: usize = 0;
    while k < t.len() && t[k] != 'e' && t[k] != 'E'
        invariant
            k <= t@.len(),
            exponent_start(s, 0) == exponent_start(s, k as int),
            s == t@,
        decreases t@.len() - k,
    {
        k = k + 1;
    }
    assert(exponent_start(s, k as int) == k);
    // the mantissa: digits and at most one dot, at least one digit
    let mut i: usize = 0;
    let mut dots: usize = 0;
    let mut digits: bool = false;
    while i < k
        invariant
            i <= k <= t@.len(),
            s == t@,
            exponent_start(s, 0) == k,
            dots == count_char(s.subrange(0, i as int), '.'),
            dots <= 1,
            forall|j: int| 0 <= j < i ==> is_digit(#[trigger] s[j]) || s[j] == '.',
            digits == exists|j: int| 0 <= j < i && is_digit(#[trigger] s[j]),
        decreases k - i,
    {
        let c = t[i];
        proof {
            assert(s.subrange(0, i + 1).drop_last() =~= s.subrange(0, i as int));
        }
        if c == '.' {
            if dots == 1 {
                proof {
                    let m = s.subrange(0, k as int);
                    assert(count_char(s.subrange(0, i + 1), '.') == 2);
                    lemma_count_char_prefix(m, i + 1, '.');
                    assert(m.subrange(0, i + 1) =~= s.subrange(0, i + 1));
                    assert(!valid_mantissa(m));
                }
                return false;
            }
            dots = dots + 1;
        } else if is_digit_char(c) {
            digits = true;
        } else {
            proof {
                let m = s.subrange(0, k as int);
                assert(m[i as int] == c);
                assert(!(is_digit(m[i as int]) || m[i as int] == '.'));
                assert(!valid_mantissa(m));
            }
            return false;
        }
        i = i + 1;
    }
    proof {
        assert(s.subrange(0, k as int) =~= s.subrange(0, i as int));
        if !digits {
            assert forall|j: int| 0 <= j < k implies !is_digit(#[trigger] s.subrange(0, k as int)[j]) by {
                assert(s.subrange(0, k as int)[j] == s[j]);
            }
        } else {
            let j = choose|j: int| 0 <= j < i && is_digit(#[trigger] s[j]);
            assert(s.subrange(0, k as int)[j] == s[j]);
        }
    }
    if !digits {
        return false;
    }
    if k == t.len() {
        return true;
    }
    // the exponent
    assert(t@[k as int] == 'e' || t@[k as int] == 'E');
    let mut e: usize = k + 1;
    if e < t.len() && (t[e] == '+' || t[e] == '-') {
        e = e + 1;
    }
    if e >= t.len() {
        proof {
            let x = s.subrange(k as int, s.len() as int);
            assert(x[0] == s[k as int]);
            if x.len() >= 2 {
                assert(x[1] == s[k + 1]);
            }
        }
        return false;
    }
    let start = e;
    assert(k + 1 < t@.len());
    assert((start == k + 2) == (s[k + 1] == '+' || s[k + 1] == '-'));
    while e < t.len()
        invariant
            k + 1 <= start <= e <= t@.len(),
            start <= k + 2,
            k + 1 < t@.len(),
            (start == k + 2) == (s[k + 1] == '+' || s[k + 1] == '-'),
            s == t@,
            exponent_start(s, 0) == k,
            s[k as int] == 'e' || s[k as int] == 'E',
            forall|j: int| start <= j < e ==> is_digit(#[trigger] s[j]),
        decreases t@.len() - e,
    {
        if !is_digit_char(t[e]) {
            proof {
                let x = s.subrange(k as int, s.len() as int);
                assert(x[1] == s[k + 1]);
                let d = x.subrange(start - k, x.len() as int);
                assert(d[e - start] == s[e as int]);
                assert(!all_digits(d));
            }
            return false;
        }
        e = e + 1;
    }
    proof {
        let x = s.subrange(k as int, s.len() as int);
        assert(x[0] == s[k as int]);
        assert(x[1] == s[k + 1]);
        let d = x.subrange(start - k, x.len() as int);
        assert forall|j: int| 0 <= j < d.len() implies is_digit(#[trigger] d[j]) by {
            assert(d[j] == s[start + j]);
        }
    }
    true
}

/// Counting a character in a prefix never gives more than in the whole.
proof fn lemma_count_char_prefix(t: Seq<char>, n: int, c: char)
    requires
        0 <= n <= t.len(),
    ensures
        count_char(t.subrange(0, n), c) <= count_char(t, c),
    decreases t.len() - n,
{
    if n < t.len() {
        lemma_count_char_prefix(t, n + 1, c);
        assert(t.subrange(0, n + 1).drop_last() =~= t.subrange(0, n));
    } else {
        assert(t.subrange(0, n) =~= t);
    }
}

/// Where a line and a column cannot go: never past one more than the
/// position.
proof fn lemma_line_column_bounds(s: Seq<char>, i: int)
    requires
        0 <= i,
    ensures
        1 <= line_at(s, i) <= i + 1,
        1 <= column_at(s, i) <= i + 1,
    decreases i,
{
    if i > 0 {
        lemma_line_column_bounds(s, i - 1);
    }
}

/// A cursor over the characters of a source text.
pub(crate) struct Lexer {
    pub(crate) chars: Vec<char>,
    pub(crate) pos: usize,
    pub(crate) line: usize,
    pub(crate) column: usize,
}

impl Lexer {
    pub(crate) open spec fn source(&self) -> Seq<char> {
        self.chars@
    }

    pub(crate) open spec fn position(&self) -> int {
        self.pos as int
    }

    /// The cursor's position is in the text, and its line and column are
    /// those of the position.
    pub(crate) open spec fn wf(&self) -> bool {
        &&& self.pos <= self.chars@.len()
        &&& self.chars@.len() < usize::MAX
        &&& self.line == line_at(self.chars@, self.pos as int)
        &&& self.column == column_at(self.chars@, self.pos as int)
    }

    pub(crate) fn new(source: &str) -> (r: Self)
        requires
            source@.len() < usize::MAX,
        ensures
            r.wf(),
            r.source() == source@,
            r.position() == 0,
    {
        Lexer { chars: chars_of(source), pos: 0, line: 1, column: 1 }
    }

    fn lookahead(&self) -> (r: Option<char>)
        requires
            self.wf(),
        ensures
            r == if self.pos < self.chars@.len() {
                Some(self.chars@[self.pos as int])
            } else {
                None::<char>
            },
    {
        if self.pos < self.chars.len() {
            Some(self.chars[self.pos])
        } else {
            None
        }
    }

    fn peek_char(&self) -> (r: Option<char>)
        requires
            self.wf(),
        ensures
            r == if self.pos + 1 < self.chars@.len() {
                Some(self.chars@[self.pos + 1])
            } else {
                None::<char>
            },
    {
        if self.pos + 1 < self.chars.len() {
            Some(self.chars[self.pos + 1])
        } else {
            None
        }
    }

    fn bump(&mut self)
        requires
            old(self).wf(),
        ensures
            final(self).wf(),
            final(self).chars == old(self).chars,
            final(self).pos == if old(self).pos < old(self).chars@.len() {
                old(self).pos + 1
            } else {
                old(self).pos as int
            },
    {
        if self.pos < self.chars.len() {
            proof {
                lemma_line_column_bounds(self.chars@, self.pos as int);
            }
            if self.chars[self.pos] == '\n' {
                self.line = self.line + 1;
                self.column = 1;
            } else {
                self.column = self.column + 1;
            }
            self.pos = self.pos + 1;
        }
    }

    /// Skips white space and comments.
    fn skip_ignored(&mut self)
        requires
            old(self).wf(),
        ensures
            final(self).wf(),
            final(self).chars == old(self).chars,
            final(self).pos == skip_ignored(old(self).chars@, old(self).pos as int),
    {
        let ghost s = self.chars@;
        let ghost start = self.pos as int;
        loop
            invariant
                self.wf(),
                self.chars@ == s,
                self.chars == old(self).chars,
                start <= self.pos,
                start == old(self).pos,
                skip_ignored(s, start) == skip_ignored(s, self.pos as int),
            ensures
                self.wf(),
                self.chars == old(self).chars,
                self.pos == skip_ignored(s, start),
            decreases s.len() - self.pos,
        {
            let ghost iter_start = self.pos as int;
            while self.pos < self.chars.len() && is_whitespace_char(self.chars[self.pos])
                invariant
                    self.wf(),
                    self.chars@ == s,
                    self.chars == old(self).chars,
                    start <= self.pos,
                    iter_start <= self.pos,
                    skip_ignored(s, start) == skip_ignored(s, self.pos as int),
                decreases s.len() - self.pos,
            {
                self.bump();
            }
            let here = self.lookahead();
            let comment = (here == Some('/') && self.peek_char() == Some('/')) || here == Some('#');
            if !comment {
                proof {
                    assert(skip_ignored(s, self.pos as int) == self.pos);
                }
                break;
            }
            let ghost at = self.pos as int;
            proof {
                lemma_line_end_bounds(s, at + 1);
                assert(line_end(s, at) == line_end(s, at + 1));
            }
            self.bump();
            while self.pos < self.chars.len() && self.chars[self.pos] != '\n'
                invariant
                    self.wf(),
                    self.chars@ == s,
                    self.chars == old(self).chars,
                    iter_start <= at < self.pos,
                    at + 1 <= s.len(),
                    start <= at,
                    skip_ignored(s, start) == skip_ignored(s, at),
                    skip_ignored(s, at) == skip_ignored(s, line_end(s, at + 1)),
                    line_end(s, at + 1) == line_end(s, self.pos as int),
                decreases s.len() - self.pos,
            {
                self.bump();
            }
        }
    }

    /// Reads a string literal; the cursor is on its opening quote.
    fn lex_string(&mut self) -> (r: Result<String, AdfError>)
        requires
            old(self).wf(),
            old(self).pos < old(self).chars@.len(),
            old(self).chars@[old(self).pos as int] == '"',
        ensures
            final(self).wf(),
            final(self).chars == old(self).chars,
            match string_rest(
                old(self).chars@,
                old(self).pos + 1,
                Seq::empty(),
                old(self).pos as int,
            ) {
                Ok((text, k)) => r matches Ok(x) && x@ == text && final(self).pos == k,
                Err(e) => r matches Err(x) && x@ == e,
            },
    {
        let ghost s = self.chars@;
        let ghost start = self.pos as int;
        let start_line = self.line;
        let start_column = self.column;
        let mut result = String::new();
        self.bump();
        while self.pos < self.chars.len()
            invariant
                self.wf(),
                self.chars@ == s,
                self.chars == old(self).chars,
                start < self.pos,
                start == old(self).pos,
                start_line == line_at(s, start),
                start_column == column_at(s, start),
                string_rest(s, start + 1, Seq::empty(), start) == string_rest(
                    s,
                    self.pos as int,
                    result@,
                    start,
                ),
            decreases s.len() - self.pos,
        {
            let current = self.chars[self.pos];
            if current == '"' {
                self.bump();
                return Ok(result);
            } else if current == '\\' {
                self.bump();
                if self.pos >= self.chars.len() {
                    return Err(unterminated_error(start_line, start_column));
                }
                let escaped_char = self.chars[self.pos];
                let resolved = if escaped_char == '"' {
                    '"'
                } else if escaped_char == '\\' {
                    '\\'
                } else if escaped_char == 'n' {
                    '\n'
                } else if escaped_char == 'r' {
                    '\r'
                } else if escaped_char == 't' {
                    '\t'
                } else {
                    return Err(bad_escape_error(escaped_char, self.line, self.column));
                };
                result.push(resolved);
                self.bump();
            } else {
                result.push(current);
                self.bump();
            }
        }
        Err(unterminated_error(start_line, start_column))
    }

    /// Reads a number literal and gives it to `number` for its value; the
    /// cursor is on its first character.
    fn lex_number<F: Fn(&str) -> u64>(&mut self, number: &F) -> (r: Result<u64, AdfError>)
        requires
            old(self).wf(),
            old(self).pos < old(self).chars@.len(),
            deterministic(*number),
        ensures
            final(self).wf(),
            final(self).chars == old(self).chars,
            ({
                let s = old(self).chars@;
                let j = old(self).pos as int;
                let k = number_end(s, j);
                let t = s.subrange(j, k);
                if valid_number(t) {
                    r == Ok::<u64, AdfError>(decoded_by(*number)(t)) && final(self).pos == k
                } else {
                    r matches Err(x) && x@ == ErrorModel::Parse(
                        located(msg_invalid_number(t), line_at(s, j), column_at(s, j)),
                    )
                }
            }),
    {
        let ghost s = self.chars@;
        let ghost j = self.pos as int;
        let start_line = self.line;
        let start_column = self.column;
        let mut raw: Vec<char> = Vec::new();
        let mut text = String::new();
        while self.pos < self.chars.len() && is_number_character(self.chars[self.pos])
            invariant
                self.wf(),
                self.chars@ == s,
                self.chars == old(self).chars,
                j <= self.pos,
                j == old(self).pos,
                number_end(s, j) == number_end(s, self.pos as int),
                raw@ == s.subrange(j, self.pos as int),
                text@ == raw@,
            decreases s.len() - self.pos,
        {
            let c = self.chars[self.pos];
            let ghost p0 = self.pos as int;
            raw.push(c);
            text.push(c);
            self.bump();
            proof {
                assert(s.subrange(j, p0 + 1) =~= s.subrange(j, p0).push(s[p0]));
                assert(raw@ =~= s.subrange(j, self.pos as int));
            }
        }
        if is_valid_number(&raw) {
            let v = number(text.as_str());
            proof {
                assert(decodes(*number, text@, v));
            }
            Ok(v)
        } else {
            Err(invalid_number_error(&raw, start_line, start_column))
        }
    }

    /// Reads an identifier; the cursor is on its first character.
    fn lex_ident(&mut self) -> (r: String)
        requires
            old(self).wf(),
            old(self).pos < old(self).chars@.len(),
        ensures
            final(self).wf(),
            final(self).chars == old(self).chars,
            final(self).pos == ident_end(old(self).chars@, old(self).pos + 1),
            r@ == old(self).chars@.subrange(
                old(self).pos as int,
                ident_end(old(self).chars@, old(self).pos + 1),
            ),
    {
        let ghost s = self.chars@;
        let ghost j = self.pos as int;
        let mut ident = String::new();
        ident.push(self.chars[self.pos]);
        self.bump();
        proof {
            assert(ident@ =~= s.subrange(j, self.pos as int));
        }
        assert(ident_end(s, j + 1) == ident_end(s, self.pos as int));
        while self.pos < self.chars.len() && is_ident_continue(self.chars[self.pos])
            invariant
                self.wf(),
                self.chars@ == s,
                self.chars == old(self).chars,
                j < self.pos,
                j == old(self).pos,
                ident_end(s, j + 1) == ident_end(s, self.pos as int),
                ident@ == s.subrange(j, self.pos as int),
            decreases s.len() - self.pos,
        {
            let ghost p0 = self.pos as int;
            ident.push(self.chars[self.pos]);
            self.bump();
            proof {
                assert(s.subrange(j, p0 + 1) =~= s.subrange(j, p0).push(s[p0]));
                assert(ident@ =~= s.subrange(j, self.pos as int));
            }
        }
        ident
    }

    /// Reads the next token.
    pub(crate) fn next_token<F: Fn(&str) -> u64>(&mut self, number: &F) -> (r: Result<Token, AdfError>)
        requires
            old(self).wf(),
            deterministic(*number),
        ensures
            final(self).wf(),
            final(self).chars == old(self).chars,
            match next_token(old(self).chars@, old(self).pos as int, decoded_by(*number)) {
                Ok((t, k)) => r matches Ok(x) && x@ == t && final(self).pos == k,
                Err(e) => r matches Err(x) && x@ == e,
            },
    {
        self.skip_ignored();
        let line = self.line;
        let column = self.column;
        let current = match self.lookahead() {
            Some(c) => c,
            None => {
                return Ok(Token { kind: TokenKind::Eof, line, column });
            },
        };
        let kind = if current == '+' {
            self.bump();
            TokenKind::Plus
        } else if current == '-' {
            self.bump();
            TokenKind::Minus
        } else if current == '^' {
            self.bump();
            TokenKind::Caret
        } else if current == '?' {
            self.bump();
            TokenKind::Question
        } else if current == '@' {
            self.bump();
            TokenKind::At
        } else if current == ':' {
            self.bump();
            TokenKind::Colon
        } else if current == ',' {
            self.bump();
            TokenKind::Comma
        } else if current == ';' {
            self.bump();
            TokenKind::Semicolon
        } else if current == '(' {
            self.bump();
            TokenKind::LParen
        } else if current == ')' {
            self.bump();
            TokenKind::RParen
        } else if current == '[' {
            self.bump();
            TokenKind::LBracket
        } else if current == ']' {
            self.bump();
            TokenKind::RBracket
        } else if current == '"' {
            TokenKind::String(self.lex_string()?)
        } else if current == '.' || is_digit_char(current) {
            TokenKind::Number(self.lex_number(number)?)
        } else if is_ident_start(current) {
            TokenKind::Ident(self.lex_ident())
        } else {
            return Err(unexpected_char_error(current, line, column));
        };
        Ok(Token { kind, line, column })
    }

    /// Reads all tokens, up to and including the end token.
    pub(crate) fn lex<F: Fn(&str) -> u64>(&mut self, number: &F) -> (r: Result<Vec<Token>, AdfError>)
        requires
            old(self).wf(),
            deterministic(*number),
        ensures
            match tokens_from(old(self).chars@, old(self).pos as int, decoded_by(*number)) {
                (ts, None) => r matches Ok(x) && tokens_model(x@) == ts,
                (ts, Some(e)) => r matches Err(x) && x@ == e,
            },
    {
        let ghost s = self.chars@;
        let ghost dec = decoded_by(*number);
        let ghost start = self.pos as int;
        let mut tokens: Vec<Token> = Vec::new();
        loop
            invariant
                self.wf(),
                self.chars@ == s,
                dec == decoded_by(*number),
                deterministic(*number),
                start <= self.pos,
                start == old(self).pos,
                s == old(self).chars@,
                tokens_from(s, start, dec) == ({
                    let (ts, e) = tokens_from(s, self.pos as int, dec);
                    (tokens_model(tokens@) + ts, e)
                }),
            decreases s.len() - self.pos,
        {
            let ghost before = self.pos as int;
            let token = self.next_token(number)?;
            let is_eof = match token.kind {
                TokenKind::Eof => true,
                _ => false,
            };
            let ghost t = token@;
            tokens.push(token);
            proof {
                assert(tokens_model(tokens@) =~= tokens_model(tokens@.drop_last()).push(t));
                lemma_token_advances(s, before, dec);
            }
            if is_eof {
                proof {
                    assert(tokens_model(tokens@.drop_last()) + seq![t] =~= tokens_model(tokens@));
                }
                return Ok(tokens);
            }
            proof {
                let (ts, e) = tokens_from(s, self.pos as int, dec);
                assert(tokens_model(tokens@.drop_last()) + (seq![t] + ts) =~= tokens_model(tokens@) + ts);
            }
        }
    }
}

/// The models of a sequence of tokens.
pub open spec fn tokens_model(ts: Seq<Token>) -> Seq<TokenModel> {
    ts.map_values(|t: Token| t@)
}

/// A token that is not the end token takes at least one character.
pub proof fn lemma_token_advances(s: Seq<char>, i: int, dec: spec_fn(Seq<char>) -> u64)
    requires
        0 <= i <= s.len(),
    ensures
        next_token(s, i, dec) matches Ok((t, k)) ==> k <= s.len() && (!(t.kind is Eof) ==> i < k),
{
    lemma_skip_ignored_bounds(s, i);
    let j = skip_ignored(s, i);
    if j < s.len() {
        lemma_number_end_bounds(s, j);
        lemma_ident_end_bounds(s, j + 1);
        lemma_string_rest_bounds(s, j + 1, Seq::empty(), j);
    }
}

proof fn lemma_line_end_bounds(s: Seq<char>, i: int)
    requires
        0 <= i <= s.len(),
    ensures
        i <= line_end(s, i) <= s.len(),
    decreases s.len() - i,
{
    if i < s.len() && s[i] != '\n' {
        lemma_line_end_bounds(s, i + 1);
    }
}

/// Skipping white space and comments stays within the text.
pub proof fn lemma_skip_ignored_bounds(s: Seq<char>, i: int)
    requires
        0 <= i <= s.len(),
    ensures
        i <= skip_ignored(s, i) <= s.len(),
    decreases s.len() - i,
{
    if i < s.len() {
        if is_white_space(s[i]) {
            lemma_skip_ignored_bounds(s, i + 1);
        } else if (s[i] == '/' && i + 1 < s.len() && s[i + 1] == '/') || s[i] == '#' {
            lemma_line_end_bounds(s, i + 1);
            if i < line_end(s, i + 1) <= s.len() {
                lemma_skip_ignored_bounds(s, line_end(s, i + 1));
            }
        }
    }
}

/// A number literal stays within the text, and takes a character when one is there.
pub proof fn lemma_number_end_bounds(s: Seq<char>, i: int)
    requires
        0 <= i <= s.len(),
    ensures
        i <= number_end(s, i) <= s.len(),
        i < s.len() && is_number_char(s[i]) ==> i < number_end(s, i),
    decreases s.len() - i,
{
    if i < s.len() && is_number_char(s[i]) {
        lemma_number_end_bounds(s, i + 1);
    }
}

/// An identifier stays within the text.
pub proof fn lemma_ident_end_bounds(s: Seq<char>, i: int)
    requires
        0 <= i <= s.len(),
    ensures
        i <= ident_end(s, i) <= s.len(),
    decreases s.len() - i,
{
    if i < s.len() && is_ident_continue_char(s[i]) {
        lemma_ident_end_bounds(s, i + 1);
    }
}

/// A string literal that ends, ends within the text and after its start.
pub proof fn lemma_string_rest_bounds(s: Seq<char>, k: int, acc: Seq<char>, start: int)
    requires
        0 <= k,
    ensures
        string_rest(s, k, acc, start) matches Ok((t, e)) ==> k < e <= s.len(),
    decreases s.len() - k,
{
    if 0 <= k < s.len() && s[k] != '"' {
        if s[k] == '\\' {
            if k + 1 < s.len() {
                if let Some(c) = escaped(s[k + 1]) {
                    lemma_string_rest_bounds(s, k + 2, acc.push(c), start);
                }
            }
        } else {
            lemma_string_rest_bounds(s, k + 1, acc.push(s[k]), start);
        }
    }
}

fn is_number_character(c: char) -> (r: bool)
    ensures
        r == is_number_char(c),
{
    is_digit_char(c) || c == '.' || c == 'e' || c == 'E' || c == '+' || c == '-'
}

/// Appends ` at line <l>, column <c>`.
pub(crate) fn push_location(s: &mut String, line: usize, column: usize)
    ensures
        final(s)@ == located(old(s)@, line as nat, column as nat),
{
    s.push_str(" at line ");
    push_decimal(s, line as u64);
    s.push_str(", column ");
    push_decimal(s, column as u64);
}

fn unterminated_error(line: usize, column: usize) -> (e: AdfError)
    ensures
        e@ == ErrorModel::Parse(msg_unterminated(line as nat, column as nat)),
{
    let mut s = String::new();
    s.push_str("unterminated string starting at line ");
    push_decimal(&mut s, line as u64);
    s.push_str(", column ");
    push_decimal(&mut s, column as u64);
    AdfError::Parse(s)
}

fn bad_escape_error(c: char, line: usize, column: usize) -> (e: AdfError)
    ensures
        e@ == ErrorModel::Parse(located(msg_bad_escape(c), line as nat, column as nat)),
{
    let mut s = String::new();
    s.push_str("unsupported escape sequence \\");
    s.push(c);
    assert(s@ =~= msg_bad_escape(c));
    push_location(&mut s, line, column);
    AdfError::Parse(s)
}

fn invalid_number_error(raw: &Vec<char>, line: usize, column: usize) -> (e: AdfError)
    ensures
        e@ == ErrorModel::Parse(located(msg_invalid_number(raw@), line as nat, column as nat)),
{
    let mut s = String::new();
    s.push_str("invalid number \"");
    let mut i: usize = 0;
    let ghost head = s@;
    while i < raw.len()
        invariant
            i <= raw@.len(),
            s@ == head + raw@.subrange(0, i as int),
        decreases raw@.len() - i,
    {
        s.push(raw[i]);
        proof {
            assert(raw@.subrange(0, i + 1) =~= raw@.subrange(0, i as int).push(raw@[i as int]));
        }
        i = i + 1;
    }
    assert(raw@.subrange(0, raw@.len() as int) =~= raw@);
    s.push_str("\"");
    push_location(&mut s, line, column);
    AdfError::Parse(s)
}

fn unexpected_char_error(c: char, line: usize, column: usize) -> (e: AdfError)
    ensures
        e@ == ErrorModel::Parse(located(msg_unexpected_char(c), line as nat, column as nat)),
{
    let mut s = String::new();
    s.push_str("unexpected character '");
    let shown = escape_debug_text(c);
    s.push_str(shown.as_str());
    s.push_str("'");
    push_location(&mut s, line, column);
    AdfError::Parse(s)
}

} // verus!
