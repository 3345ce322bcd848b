//! What the text form's lexical rules say: which characters are skipped,
//! where each token starts and ends, what it holds, and the lexical errors.

use vstd::prelude::*;
use crate::document::ErrorModel;
use crate::text::decimal;

verus! {

/// The text that `{:?}` shows for a character, between the quotes: the
/// result of `char::escape_debug`.
pub uninterp spec fn char_escape_debug(c: char) -> Seq<char>;

/// `char::escape_debug`, collected into a string: the result is named by
/// `char_escape_debug`, a function of the character alone; nothing more is
/// said of it here.
#[verifier::external_body]
pub(crate) fn escape_debug_text(c: char) -> (r: String)
    ensures
        r@ == char_escape_debug(c),
{
    c.escape_debug().to_string()
}

/// The token kinds of the text form. A number holds the bit pattern of the
/// binary64 value that its literal denotes.
pub enum KindModel {
    Ident(Seq<char>),
    Number(u64),
    Str(Seq<char>),
    Plus,
    Minus,
    Caret,
    Question,
    At,
    Colon,
    Comma,
    Semicolon,
    LParen,
    RParen,
    LBracket,
    RBracket,
    Eof,
}

/// A token and the line and column where it starts.
pub struct TokenModel {
    pub kind: KindModel,
    pub line: nat,
    pub column: nat,
}

/// `char::is_whitespace`: the characters with the Unicode `White_Space`
/// property.
pub open spec fn is_white_space(c: char) -> bool {
    ||| '\u{9}' <= c <= '\u{d}'
    ||| c == ' '
    ||| c == '\u{85}'
    ||| c == '\u{a0}'
    ||| c == '\u{1680}'
    ||| '\u{2000}' <= c <= '\u{200a}'
    ||| c == '\u{2028}'
    ||| c == '\u{2029}'
    ||| c == '\u{202f}'
    ||| c == '\u{205f}'
    ||| c == '\u{3000}'
}

/// An ASCII decimal digit.
pub open spec fn is_digit(c: char) -> bool {
    '0' <= c <= '9'
}

/// An ASCII letter.
pub open spec fn is_ascii_letter(c: char) -> bool {
    ('a' <= c <= 'z') || ('A' <= c <= 'Z')
}

/// A character that starts an identifier: an ASCII letter or `_`.
pub open spec fn is_ident_start_char(c: char) -> bool {
    is_ascii_letter(c) || c == '_'
}

/// A character that continues an identifier: an ASCII letter or digit, `_`, `.`, `/` or `\`.
pub open spec fn is_ident_continue_char(c: char) -> bool {
    is_ascii_letter(c) || is_digit(c) || c == '_' || c == '.' || c == '/' || c == '\\'
}

/// The characters that a number literal is made of.
pub open spec fn is_number_char(c: char) -> bool {
    is_digit(c) || c == '.' || c == 'e' || c == 'E' || c == '+' || c == '-'
}

/// The line of position `i`: one more than the line breaks before it.
pub open spec fn line_at(s: Seq<char>, i: int) -> nat
    decreases i,
{
    if i <= 0 {
        1
    } else {
        line_at(s, i - 1) + if s[i - 1] == '\n' {
            1nat
        } else {
            0nat
        }
    }
}

/// The column of position `i`: one more than the characters since the last
/// line break before it.
pub open spec fn column_at(s: Seq<char>, i: int) -> nat
    decreases i,
{
    if i <= 0 {
        1
    } else if s[i - 1] == '\n' {
        1
    } else {
        column_at(s, i - 1) + 1
    }
}

/// The position of the first line break at or after `i`, or the end.
pub open spec fn line_end(s: Seq<char>, i: int) -> int
    decreases s.len() - i,
{
    if i >= s.len() || s[i] == '\n' {
        i
    } else {
        line_end(s, i + 1)
    }
}

/// Where the next token starts: after white space and comments (`//` and
/// `#` to the end of the line).
pub open spec fn skip_ignored(s: Seq<char>, i: int) -> int
    decreases s.len() - i,
{
    if i < 0 || i >= s.len() {
        i
    } else if is_white_space(s[i]) {
        skip_ignored(s, i + 1)
    } else if (s[i] == '/' && i + 1 < s.len() && s[i + 1] == '/') || s[i] == '#' {
        if i < line_end(s, i + 1) <= s.len() {
            skip_ignored(s, line_end(s, i + 1))
        } else {
            i
        }
    } else {
        i
    }
}

/// Where a run of characters of a kind that starts at `i` ends.
pub open spec fn number_end(s: Seq<char>, i: int) -> int
    decreases s.len() - i,
{
    if i < 0 || i >= s.len() || !is_number_char(s[i]) {
        i
    } else {
        number_end(s, i + 1)
    }
}

/// Where an identifier whose rest starts at `i` ends.
pub open spec fn ident_end(s: Seq<char>, i: int) -> int
    decreases s.len() - i,
{
    if i < 0 || i >= s.len() || !is_ident_continue_char(s[i]) {
        i
    } else {
        ident_end(s, i + 1)
    }
}

/// Whether every character is a decimal digit.
pub open spec fn all_digits(t: Seq<char>) -> bool {
    forall|i: int| 0 <= i < t.len() ==> is_digit(#[trigger] t[i])
}

/// How many times `c` occurs in `t`.
pub open spec fn count_char(t: Seq<char>, c: char) -> nat
    decreases t.len(),
{
    if t.len() == 0 {
        0
    } else {
        count_char(t.drop_last(), c) + if t.last() == c {
            1nat
        } else {
            0nat
        }
    }
}

/// Where the exponent of a literal starts: at its first `e` or `E`.
pub open spec fn exponent_start(t: Seq<char>, i: int) -> int
    decreases t.len() - i,
{
    if i < 0 || i >= t.len() || t[i] == 'e' || t[i] == 'E' {
        i
    } else {
        exponent_start(t, i + 1)
    }
}

/// Digits with at most one `.`, and at least one digit.
pub open spec fn valid_mantissa(m: Seq<char>) -> bool {
    &&& forall|i: int| 0 <= i < m.len() ==> is_digit(#[trigger] m[i]) || m[i] == '.'
    &&& count_char(m, '.') <= 1
    &&& exists|i: int| 0 <= i < m.len() && is_digit(#[trigger] m[i])
}

/// `e` or `E`, an optional sign, and at least one digit.
pub open spec fn valid_exponent(x: Seq<char>) -> bool {
    &&& x.len() >= 2
    &&& (x[0] == 'e' || x[0] == 'E')
    &&& if x[1] == '+' || x[1] == '-' {
        x.len() >= 3 && all_digits(x.subrange(2, x.len() as int))
    } else {
        all_digits(x.subrange(1, x.len() as int))
    }
}

/// Whether a run of number characters is a decimal literal that
/// `f64::from_str` accepts: `(Digit+ | Digit+ '.' Digit* | Digit* '.' Digit+) Exp?`.
pub open spec fn valid_number(t: Seq<char>) -> bool {
    let k = exponent_start(t, 0);
    &&& valid_mantissa(t.subrange(0, k))
    &&& (k == t.len() || valid_exponent(t.subrange(k, t.len() as int)))
}

/// What an escape sequence `\c` stands for in a string literal.
pub open spec fn escaped(c: char) -> Option<char> {
    if c == '"' {
        Some('"')
    } else if c == '\\' {
        Some('\\')
    } else if c == 'n' {
        Some('\n')
    } else if c == 'r' {
        Some('\r')
    } else if c == 't' {
        Some('\t')
    } else {
        None
    }
}

/// `<message> at line <l>, column <c>`.
pub open spec fn located(message: Seq<char>, line: nat, column: nat) -> Seq<char> {
    message + " at line "@ + decimal(line) + ", column "@ + decimal(column)
}

/// `unexpected character '<c>'`, the character shown as `{:?}` shows it.
pub open spec fn msg_unexpected_char(c: char) -> Seq<char> {
    "unexpected character '"@ + char_escape_debug(c) + "'"@
}

/// `unterminated string starting at line <l>, column <c>`.
pub open spec fn msg_unterminated(line: nat, column: nat) -> Seq<char> {
    "unterminated string starting at line "@ + decimal(line) + ", column "@ + decimal(column)
}

/// `unsupported escape sequence \<c>`.
pub open spec fn msg_bad_escape(c: char) -> Seq<char> {
    "unsupported escape sequence \\"@ + seq![c]
}

/// `invalid number "<t>"`.
pub open spec fn msg_invalid_number(t: Seq<char>) -> Seq<char> {
    "invalid number \""@ + t + "\""@
}

/// The rest of a string literal from `k` on, `acc` being what was read of it
/// so far; the literal started at `start`.
pub open spec fn string_rest(s: Seq<char>, k: int, acc: Seq<char>, start: int) -> Result<
    (Seq<char>, int),
    ErrorModel,
>
    decreases s.len() - k,
{
    if k < 0 || k >= s.len() {
        Err(ErrorModel::Parse(msg_unterminated(line_at(s, start), column_at(s, start))))
    } else if s[k] == '"' {
        Ok((acc, k + 1))
    } else if s[k] == '\\' {
        if k + 1 >= s.len() {
            Err(ErrorModel::Parse(msg_unterminated(line_at(s, start), column_at(s, start))))
        } else {
            match escaped(s[k + 1]) {
                Some(c) => string_rest(s, k + 2, acc.push(c), start),
                None => Err(
                    ErrorModel::Parse(
                        located(msg_bad_escape(s[k + 1]), line_at(s, k + 1), column_at(s, k + 1)),
                    ),
                ),
            }
        }
    } else {
        string_rest(s, k + 1, acc.push(s[k]), start)
    }
}

/// A token of this kind that starts at `j`.
pub open spec fn token(kind: KindModel, s: Seq<char>, j: int) -> TokenModel {
    TokenModel { kind, line: line_at(s, j), column: column_at(s, j) }
}

/// The kind of a one-character token.
pub open spec fn punctuation(c: char) -> Option<KindModel> {
    if c == '+' {
        Some(KindModel::Plus)
    } else if c == '-' {
        Some(KindModel::Minus)
    } else if c == '^' {
        Some(KindModel::Caret)
    } else if c == '?' {
        Some(KindModel::Question)
    } else if c == '@' {
        Some(KindModel::At)
    } else if c == ':' {
        Some(KindModel::Colon)
    } else if c == ',' {
        Some(KindModel::Comma)
    } else if c == ';' {
        Some(KindModel::Semicolon)
    } else if c == '(' {
        Some(KindModel::LParen)
    } else if c == ')' {
        Some(KindModel::RParen)
    } else if c == '[' {
        Some(KindModel::LBracket)
    } else if c == ']' {
        Some(KindModel::RBracket)
    } else {
        None
    }
}

/// The next token from position `i` on and the position after it, or the
/// lexical error met there. `number` gives the bit pattern of a literal.
pub open spec fn next_token(s: Seq<char>, i: int, number: spec_fn(Seq<char>) -> u64) -> Result<
    (TokenModel, int),
    ErrorModel,
> {
    let j = skip_ignored(s, i);
    if j >= s.len() {
        Ok((token(KindModel::Eof, s, j), j))
    } else {
        let c = s[j];
        match punctuation(c) {
            Some(kind) => Ok((token(kind, s, j), j + 1)),
            None => if c == '"' {
                match string_rest(s, j + 1, Seq::empty(), j) {
                    Err(e) => Err(e),
                    Ok((text, k)) => Ok((token(KindModel::Str(text), s, j), k)),
                }
            } else if c == '.' || is_digit(c) {
                let k = number_end(s, j);
                let t = s.subrange(j, k);
                if valid_number(t) {
                    Ok((token(KindModel::Number(number(t)), s, j), k))
                } else {
                    Err(
                        ErrorModel::Parse(
                            located(msg_invalid_number(t), line_at(s, j), column_at(s, j)),
                        ),
                    )
                }
            } else if is_ident_start_char(c) {
                let k = ident_end(s, j + 1);
                Ok((token(KindModel::Ident(s.subrange(j, k)), s, j), k))
            } else {
                Err(ErrorModel::Parse(located(msg_unexpected_char(c), line_at(s, j), column_at(s, j))))
            },
        }
    }
}

/// The tokens from position `i` on: up to and including the end token, or
/// up to a lexical error and that error.
pub open spec fn tokens_from(s: Seq<char>, i: int, number: spec_fn(Seq<char>) -> u64) -> (
    Seq<TokenModel>,
    Option<ErrorModel>,
)
    decreases s.len() - i,
{
    match next_token(s, i, number) {
        Err(e) => (Seq::empty(), Some(e)),
        Ok((t, j)) => if t.kind is Eof {
            (seq![t], None)
        } else if i < j <= s.len() {
            let (ts, e) = tokens_from(s, j, number);
            (seq![t] + ts, e)
        } else {
            (seq![t], None)
        },
    }
}

} // verus!
