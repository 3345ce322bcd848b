//! Checking the text form without building the document: tokens are read
//! one at a time, as the grammar reaches them.

use vstd::prelude::*;
use crate::document::{
    AdfCheckSummary, AdfError, DocumentModel, EditModel, ErrorModel, PropertyModel,
    StatementModel, ValueModel, import_count, edit_count, summarizes,
};
use crate::grammar_model::{
    Stream, advance, error_at, g_expect, g_ident, g_keyword, g_string, g_u32, g_value,
    g_vector_items, g_property, g_property_list, g_trailing_properties, g_edit, g_use_import,
    g_legacy_import, g_statement, g_statements, g_document, text_stream,
};
use crate::grammar_laws::{lemma_value_progress, lemma_property_progress, lemma_statement_progress};
use crate::binary_laws::lemma_counts_total;
use crate::format::{version_is_supported, unsupported_version_message};
use crate::numbers::unsigned_whole;
use crate::parser::{colon_message, error_at_token, fieldless, keyword_message, same_variant};
use crate::text::str_eq;
use crate::lexer::{Lexer, Token, TokenKind, decoded_by, deterministic, lemma_token_advances};
use crate::token_model::{TokenModel, next_token, tokens_from};

verus! {

/// A text of `n` characters from position `i` on gives at most `n - i + 1`
/// tokens: each token but the end takes a character.
pub proof fn lemma_tokens_len(s: Seq<char>, i: int, dec: spec_fn(Seq<char>) -> u64)
    requires
        0 <= i <= s.len(),
    ensures
        tokens_from(s, i, dec).0.len() <= s.len() - i + 1,
    decreases s.len() - i,
{
    lemma_token_advances(s, i, dec);
    if let Ok((t, j)) = next_token(s, i, dec) {
        if !(t.kind is Eof) && i < j <= s.len() {
            lemma_tokens_len(s, j, dec);
        }
    }
}

/// Whether a step succeeded exactly when the model says, and left the
/// checker, whole, on the token that the model says.
spec fn steps(
    r: Result<(), AdfError>,
    p: CheckingParser,
    dec: spec_fn(Seq<char>) -> u64,
    expect: Result<int, ErrorModel>,
) -> bool {
    match expect {
        Ok(q) => r is Ok && p.wf(dec) && p.k@ == q,
        Err(e) => r matches Err(x) && x@ == e,
    }
}

/// The same for a part of the grammar that reads a value, which the
/// checker does not keep.
spec fn steps_over<T>(
    r: Result<(), AdfError>,
    p: CheckingParser,
    dec: spec_fn(Seq<char>) -> u64,
    expect: Result<(T, int), ErrorModel>,
) -> bool {
    match expect {
        Ok((_, q)) => r is Ok && p.wf(dec) && p.k@ == q,
        Err(e) => r matches Err(x) && x@ == e,
    }
}

/// A checker of the text form: the lexer, the token it last gave, and
/// (for proofs) that token's place among all the tokens of the text.
pub(crate) struct CheckingParser {
    lexer: Lexer,
    current: Token,
    k: Ghost<int>,
}

impl CheckingParser {
    /// All the tokens of the text and the lexical error that stops them.
    spec fn st(&self, dec: spec_fn(Seq<char>) -> u64) -> Stream {
        text_stream(self.lexer.source(), dec)
    }

    /// The current token is the `k`-th, and the lexer stands just after it.
    spec fn wf(&self, dec: spec_fn(Seq<char>) -> u64) -> bool {
        let st = self.st(dec);
        &&& self.lexer.wf()
        &&& 0 <= self.k@ < st.toks.len()
        &&& self.current@ == st.toks[self.k@]
        &&& !(self.current@.kind is Eof) ==> tokens_from(
            self.lexer.source(),
            self.lexer.position(),
            dec,
        ) == (st.toks.skip(self.k@ + 1), st.err)
    }

    /// A checker on the first token of the text that the lexer reads.
    fn new<F: Fn(&str) -> u64>(lexer: Lexer, number: &F) -> (r: Result<Self, AdfError>)
        requires
            lexer.wf(),
            lexer.position() == 0,
            deterministic(*number),
        ensures
            match r {
                Ok(p) => p.wf(decoded_by(*number)) && p.k@ == 0 && p.lexer.source() == lexer.source()
                    && text_stream(lexer.source(), decoded_by(*number)).toks.len() > 0,
                Err(e) => text_stream(lexer.source(), decoded_by(*number)).toks.len() == 0
                    && text_stream(lexer.source(), decoded_by(*number)).err == Some(e@),
            },
    {
        let ghost dec = decoded_by(*number);
        let ghost s = lexer.source();
        let mut lexer = lexer;
        proof {
            lemma_token_advances(s, 0, dec);
        }
        let current = lexer.next_token(number)?;
        let ghost j = lexer.position();
        proof {
            if !(current@.kind is Eof) {
                let rest = tokens_from(s, j, dec).0;
                assert(tokens_from(s, 0, dec).0 == seq![current@] + rest);
                assert(tokens_from(s, 0, dec).0.skip(1) =~= rest);
            }
        }
        Ok(CheckingParser { lexer, current, k: Ghost(0) })
    }

    /// Moves to the next token, reading it from the text.
    fn bump<F: Fn(&str) -> u64>(&mut self, number: &F) -> (r: Result<(), AdfError>)
        requires
            old(self).wf(decoded_by(*number)),
            deterministic(*number),
            !(old(self).current@.kind is Eof),
        ensures
            final(self).lexer.source() == old(self).lexer.source(),
            steps(
                r,
                *final(self),
                decoded_by(*number),
                advance(old(self).st(decoded_by(*number)), old(self).k@),
            ),
    {
        let ghost dec = decoded_by(*number);
        let ghost s = self.lexer.source();
        let ghost st = self.st(dec);
        let ghost k = self.k@;
        let ghost pos = self.lexer.position();
        proof {
            lemma_token_advances(s, pos, dec);
            assert(tokens_from(s, pos, dec) == (st.toks.skip(k + 1), st.err));
        }
        match self.lexer.next_token(number) {
            Ok(next) => {
                proof {
                    let j = self.lexer.position();
                    assert(next_token(s, pos, dec) == Ok::<(TokenModel, int), ErrorModel>((next@, j)));
                    assert(tokens_from(s, pos, dec).0.len() > 0);
                    assert(tokens_from(s, pos, dec).0[0] == next@);
                    if !(next@.kind is Eof) {
                        assert(tokens_from(s, pos, dec).0 == seq![next@] + tokens_from(s, j, dec).0);
                        assert(tokens_from(s, pos, dec).1 == tokens_from(s, j, dec).1);
                        let rest = tokens_from(s, j, dec).0;
                        assert((seq![next@] + rest).skip(1) =~= rest);
                        assert(st.toks.skip(k + 1).skip(1) =~= st.toks.skip(k + 2));
                        assert(rest =~= st.toks.skip(k + 2));
                    }
                    assert(st.toks.skip(k + 1)[0] == st.toks[k + 1]);
                }
                self.current = next;
                self.k = Ghost(k + 1);
                Ok(())
            },
            Err(e) => {
                proof {
                    assert(st.toks.skip(k + 1).len() == 0);
                }
                Err(e)
            },
        }
    }

    fn error_here(&self, Ghost(dec): Ghost<spec_fn(Seq<char>) -> u64>, message: &str) -> (e: AdfError)
        requires
            self.wf(dec),
        ensures
            e@ == error_at(self.st(dec), self.k@, message@),
    {
        error_at_token(&self.current, message)
    }

    fn expect<F: Fn(&str) -> u64>(&mut self, number: &F, expected: TokenKind, message: &str) -> (r: Result<(), AdfError>)
        requires
            old(self).wf(decoded_by(*number)),
            deterministic(*number),
            fieldless(expected@),
            !(expected@ is Eof),
        ensures
            final(self).lexer.source() == old(self).lexer.source(),
            steps(
                r,
                *final(self),
                decoded_by(*number),
                g_expect(old(self).st(decoded_by(*number)), old(self).k@, expected@, message@),
            ),
    {
        if same_variant(&self.current.kind, &expected) {
            self.bump(number)
        } else {
            Err(self.error_here(Ghost(decoded_by(*number)), message))
        }
    }

    fn expect_keyword<F: Fn(&str) -> u64>(&mut self, number: &F, expected: &str) -> (r: Result<(), AdfError>)
        requires
            old(self).wf(decoded_by(*number)),
            deterministic(*number),
        ensures
            final(self).lexer.source() == old(self).lexer.source(),
            steps(
                r,
                *final(self),
                decoded_by(*number),
                g_keyword(old(self).st(decoded_by(*number)), old(self).k@, expected@),
            ),
    {
        let matched = match &self.current.kind {
            TokenKind::Ident(actual) => str_eq(actual.as_str(), expected),
            _ => false,
        };
        if matched {
            self.bump(number)
        } else {
            let message = keyword_message(expected);
            Err(self.error_here(Ghost(decoded_by(*number)), message.as_str()))
        }
    }

    fn expect_ident<F: Fn(&str) -> u64>(&mut self, number: &F) -> (r: Result<String, AdfError>)
        requires
            old(self).wf(decoded_by(*number)),
            deterministic(*number),
        ensures
            final(self).lexer.source() == old(self).lexer.source(),
            match g_ident(old(self).st(decoded_by(*number)), old(self).k@) {
                Ok((v, q)) => r matches Ok(x) && x@ == v && final(self).wf(decoded_by(*number))
                    && final(self).k@ == q,
                Err(e) => r matches Err(x) && x@ == e,
            },
    {
        match &self.current.kind {
            TokenKind::Ident(value) => {
                let value = value.clone();
                self.bump(number)?;
                Ok(value)
            },
            _ => Err(self.error_here(Ghost(decoded_by(*number)), "expected an identifier")),
        }
    }

    fn expect_string<F: Fn(&str) -> u64>(&mut self, number: &F) -> (r: Result<(), AdfError>)
        requires
            old(self).wf(decoded_by(*number)),
            deterministic(*number),
        ensures
            final(self).lexer.source() == old(self).lexer.source(),
            steps_over(
                r,
                *final(self),
                decoded_by(*number),
                g_string(old(self).st(decoded_by(*number)), old(self).k@),
            ),
    {
        let is_string = match &self.current.kind {
            TokenKind::String(_) => true,
            _ => false,
        };
        if is_string {
            self.bump(number)
        } else {
            Err(self.error_here(Ghost(decoded_by(*number)), "expected a string literal"))
        }
    }

    fn expect_u32<F: Fn(&str) -> u64>(&mut self, number: &F) -> (r: Result<u32, AdfError>)
        requires
            old(self).wf(decoded_by(*number)),
            deterministic(*number),
        ensures
            final(self).lexer.source() == old(self).lexer.source(),
            match g_u32(old(self).st(decoded_by(*number)), old(self).k@) {
                Ok((v, q)) => r matches Ok(x) && x == v && final(self).wf(decoded_by(*number))
                    && final(self).k@ == q,
                Err(e) => r matches Err(x) && x@ == e,
            },
    {
        let whole = match &self.current.kind {
            TokenKind::Number(bits) => unsigned_whole(*bits),
            _ => None,
        };
        match whole {
            Some(value) => {
                self.bump(number)?;
                Ok(value)
            },
            None => Err(self.error_here(Ghost(decoded_by(*number)), "expected an unsigned integer")),
        }
    }

    fn check_value<F: Fn(&str) -> u64>(&mut self, number: &F) -> (r: Result<(), AdfError>)
        requires
            old(self).wf(decoded_by(*number)),
            deterministic(*number),
        ensures
            final(self).lexer.source() == old(self).lexer.source(),
            steps_over(
                r,
                *final(self),
                decoded_by(*number),
                g_value(old(self).st(decoded_by(*number)), old(self).k@),
            ),
        decreases old(self).st(decoded_by(*number)).toks.len() - old(self).k@, 1int,
    {
        let choice: u8 = match &self.current.kind {
            TokenKind::Minus => 0,
            TokenKind::Number(_) | TokenKind::String(_) | TokenKind::Ident(_) => 1,
            TokenKind::LBracket => 2,
            _ => 3,
        };
        if choice == 0 {
            self.bump(number)?;
            let is_number = match &self.current.kind {
                TokenKind::Number(_) => true,
                _ => false,
            };
            if is_number {
                self.bump(number)
            } else {
                Err(self.error_here(Ghost(decoded_by(*number)), "expected a number after '-'"))
            }
        } else if choice == 1 {
            self.bump(number)
        } else if choice == 2 {
            self.check_vector(number)
        } else {
            Err(self.error_here(Ghost(decoded_by(*number)), "expected a value"))
        }
    }

    fn check_vector<F: Fn(&str) -> u64>(&mut self, number: &F) -> (r: Result<(), AdfError>)
        requires
            old(self).wf(decoded_by(*number)),
            deterministic(*number),
            old(self).current@.kind is LBracket,
        ensures
            final(self).lexer.source() == old(self).lexer.source(),
            steps_over(
                r,
                *final(self),
                decoded_by(*number),
                g_value(old(self).st(decoded_by(*number)), old(self).k@),
            ),
        decreases old(self).st(decoded_by(*number)).toks.len() - old(self).k@, 0int,
    {
        let ghost dec = decoded_by(*number);
        let ghost st = self.st(dec);
        let ghost k0 = self.k@;
        self.expect(number, TokenKind::LBracket, "expected '[' to start a vector")?;
        let ghost start = self.k@;
        let ghost mut acc: Seq<ValueModel> = Seq::empty();
        loop
            invariant_except_break
                self.wf(dec),
                dec == decoded_by(*number),
                deterministic(*number),
                self.lexer.source() == old(self).lexer.source(),
                st == self.st(dec),
                k0 < start <= self.k@,
                k0 == old(self).k@,
                g_value(st, k0) == g_vector_items(st, start, Seq::empty()),
                g_vector_items(st, start, Seq::empty()) == g_vector_items(st, self.k@, acc),
            ensures
                self.wf(dec),
                self.lexer.source() == old(self).lexer.source(),
                st == self.st(dec),
                g_value(st, k0) == g_vector_items(st, self.k@, acc),
                self.current@.kind is RBracket || self.current@.kind is Eof,
            decreases st.toks.len() - self.k@,
        {
            let stop = match self.current.kind {
                TokenKind::RBracket | TokenKind::Eof => true,
                _ => false,
            };
            if stop {
                break;
            }
            let is_comma = match self.current.kind {
                TokenKind::Comma => true,
                _ => false,
            };
            if is_comma {
                self.bump(number)?;
                continue;
            }
            let ghost before = self.k@;
            proof {
                lemma_value_progress(st, before);
            }
            self.check_value(number)?;
            proof {
                acc = acc.push(g_value(st, before)->Ok_0.0);
            }
        }
        self.expect(number, TokenKind::RBracket, "expected ']' after vector")
    }

    fn check_property<F: Fn(&str) -> u64>(&mut self, number: &F, require_colon: bool) -> (r: Result<(), AdfError>)
        requires
            old(self).wf(decoded_by(*number)),
            deterministic(*number),
        ensures
            final(self).lexer.source() == old(self).lexer.source(),
            steps_over(
                r,
                *final(self),
                decoded_by(*number),
                g_property(old(self).st(decoded_by(*number)), old(self).k@, require_colon),
            ),
    {
        proof {
            reveal(g_property);
        }
        let key = self.expect_ident(number)?;
        let is_colon = match self.current.kind {
            TokenKind::Colon => true,
            _ => false,
        };
        if is_colon {
            self.bump(number)?;
        } else if require_colon {
            let message = colon_message(key.as_str());
            return Err(self.error_here(Ghost(decoded_by(*number)), message.as_str()));
        }
        self.check_value(number)
    }

    /// The properties inside an edit's brackets, up to the `)`.
    fn check_property_list<F: Fn(&str) -> u64>(&mut self, number: &F) -> (r: Result<(), AdfError>)
        requires
            old(self).wf(decoded_by(*number)),
            deterministic(*number),
        ensures
            final(self).lexer.source() == old(self).lexer.source(),
            steps_over(
                r,
                *final(self),
                decoded_by(*number),
                g_property_list(old(self).st(decoded_by(*number)), old(self).k@, Seq::empty()),
            ),
    {
        let ghost dec = decoded_by(*number);
        let ghost st = self.st(dec);
        let ghost k0 = self.k@;
        let ghost mut acc: Seq<PropertyModel> = Seq::empty();
        loop
            invariant_except_break
                self.wf(dec),
                dec == decoded_by(*number),
                deterministic(*number),
                self.lexer.source() == old(self).lexer.source(),
                st == self.st(dec),
                k0 == old(self).k@,
                g_property_list(st, k0, Seq::empty()) == g_property_list(st, self.k@, acc),
            ensures
                self.wf(dec),
                self.lexer.source() == old(self).lexer.source(),
                g_property_list(st, k0, Seq::empty()) == Ok::<(Seq<PropertyModel>, int), ErrorModel>(
                    (acc, self.k@),
                ),
            decreases st.toks.len() - self.k@,
        {
            let stop = match self.current.kind {
                TokenKind::RParen => true,
                _ => false,
            };
            if stop {
                break;
            }
            let is_comma = match self.current.kind {
                TokenKind::Comma => true,
                _ => false,
            };
            if is_comma {
                self.bump(number)?;
                continue;
            }
            let ghost before = self.k@;
            proof {
                lemma_property_progress(st, before, true);
            }
            self.check_property(number, true)?;
            proof {
                acc = acc.push(g_property(st, before, true)->Ok_0.0);
            }
        }
        Ok(())
    }

    fn check_edit<F: Fn(&str) -> u64>(&mut self, number: &F) -> (r: Result<(), AdfError>)
        requires
            old(self).wf(decoded_by(*number)),
            deterministic(*number),
        ensures
            final(self).lexer.source() == old(self).lexer.source(),
            steps_over(
                r,
                *final(self),
                decoded_by(*number),
                g_edit(old(self).st(decoded_by(*number)), old(self).k@),
            ),
    {
        proof {
            reveal(g_edit);
        }
        let ghost dec = decoded_by(*number);
        let ghost st = self.st(dec);
        let ghost k0 = self.k@;
        let is_operation = match self.current.kind {
            TokenKind::Plus | TokenKind::Minus | TokenKind::Caret | TokenKind::Question => true,
            _ => false,
        };
        if !is_operation {
            return Err(self.error_here(Ghost(dec), "expected an edit operation"));
        }
        self.bump(number)?;
        self.expect_ident(number)?;
        self.expect(number, TokenKind::LParen, "expected '(' after primitive name")?;
        let ghost k3 = self.k@;
        self.check_property_list(number)?;
        let ghost inner = g_property_list(st, k3, Seq::empty())->Ok_0.0;
        self.expect(number, TokenKind::RParen, "expected ')' after primitive properties")?;
        let ghost k5 = self.k@;
        let ghost mut acc: Seq<PropertyModel> = inner;
        loop
            invariant_except_break
                self.wf(dec),
                dec == decoded_by(*number),
                deterministic(*number),
                self.lexer.source() == old(self).lexer.source(),
                st == self.st(dec),
                g_trailing_properties(st, k5, inner) == g_trailing_properties(st, self.k@, acc),
                k0 == old(self).k@,
                g_trailing_properties(st, k5, inner) matches Err(e) ==> g_edit(st, k0) == Err::<
                    (EditModel, int),
                    ErrorModel,
                >(e),
            ensures
                self.wf(dec),
                self.lexer.source() == old(self).lexer.source(),
                g_trailing_properties(st, k5, inner) == Ok::<(Seq<PropertyModel>, int), ErrorModel>(
                    (acc, self.k@),
                ),
            decreases st.toks.len() - self.k@,
        {
            let stop = match self.current.kind {
                TokenKind::Semicolon | TokenKind::Eof => true,
                _ => false,
            };
            if stop {
                break;
            }
            let is_comma = match self.current.kind {
                TokenKind::Comma => true,
                _ => false,
            };
            if is_comma {
                self.bump(number)?;
                continue;
            }
            let ghost before = self.k@;
            proof {
                lemma_property_progress(st, before, false);
            }
            self.check_property(number, false)?;
            proof {
                acc = acc.push(g_property(st, before, false)->Ok_0.0);
            }
        }
        self.expect(number, TokenKind::Semicolon, "expected ';' after edit")
    }

    fn check_use_material_import<F: Fn(&str) -> u64>(&mut self, number: &F) -> (r: Result<(), AdfError>)
        requires
            old(self).wf(decoded_by(*number)),
            deterministic(*number),
        ensures
            final(self).lexer.source() == old(self).lexer.source(),
            steps_over(
                r,
                *final(self),
                decoded_by(*number),
                g_use_import(old(self).st(decoded_by(*number)), old(self).k@),
            ),
    {
        proof {
            reveal(g_use_import);
        }
        self.expect_keyword(number, "use")?;
        self.expect_keyword(number, "material")?;
        self.expect_ident(number)?;
        self.expect_keyword(number, "from")?;
        self.expect_string(number)?;
        self.expect(number, TokenKind::Semicolon, "expected ';' after material import")
    }

    fn check_legacy_material_import<F: Fn(&str) -> u64>(&mut self, number: &F) -> (r: Result<(), AdfError>)
        requires
            old(self).wf(decoded_by(*number)),
            deterministic(*number),
        ensures
            final(self).lexer.source() == old(self).lexer.source(),
            steps_over(
                r,
                *final(self),
                decoded_by(*number),
                g_legacy_import(old(self).st(decoded_by(*number)), old(self).k@),
            ),
    {
        proof {
            reveal(g_legacy_import);
        }
        self.expect(number, TokenKind::At, "expected '@material'")?;
        self.expect_keyword(number, "material")?;
        self.expect_string(number)?;
        self.expect(number, TokenKind::Semicolon, "expected ';' after material import")
    }

    fn check_document<F: Fn(&str) -> u64>(&mut self, number: &F) -> (r: Result<AdfCheckSummary, AdfError>)
        requires
            old(self).wf(decoded_by(*number)),
            old(self).k@ == 0,
            deterministic(*number),
        ensures
            match g_document(old(self).st(decoded_by(*number))) {
                Ok(d) => r matches Ok(x) && summarizes(x, d),
                Err(e) => r matches Err(x) && x@ == e,
            },
    {
        let ghost dec = decoded_by(*number);
        let ghost st = self.st(dec);
        let ghost s = self.lexer.source();
        proof {
            lemma_tokens_len(s, 0, dec);
        }
        self.expect_keyword(number, "adf")?;
        let version = self.expect_u32(number)?;
        if !version_is_supported(version) {
            let message = unsupported_version_message(version);
            return Err(self.error_here(Ghost(dec), message.as_str()));
        }
        self.expect(number, TokenKind::Semicolon, "expected ';' after ADF version")?;
        let ghost start = self.k@;
        let ghost mut acc: Seq<StatementModel> = Seq::empty();
        let mut material_imports: usize = 0;
        let mut edits: usize = 0;
        while !self.is_eof()
            invariant
                self.wf(dec),
                dec == decoded_by(*number),
                deterministic(*number),
                self.lexer.source() == s,
                st == self.st(dec),
                st == old(self).st(dec),
                st.toks.len() <= s.len() + 1,
                s.len() < usize::MAX,
                0 < start <= self.k@,
                acc.len() <= self.k@ - start,
                material_imports == import_count(acc),
                edits == edit_count(acc),
                g_statements(st, start, Seq::empty()) == g_statements(st, self.k@, acc),
                g_document(st) == match g_statements(st, start, Seq::empty()) {
                    Ok((xs, _)) => Ok(DocumentModel { version, statements: xs }),
                    Err(e) => Err::<DocumentModel, ErrorModel>(e),
                },
            decreases st.toks.len() - self.k@,
        {
            proof {
                reveal(g_statement);
                lemma_counts_total(acc);
            }
            let ghost before = self.k@;
            let choice: u8 = match &self.current.kind {
                TokenKind::At => 0,
                TokenKind::Ident(ident) => if str_eq(ident.as_str(), "use") {
                    1
                } else {
                    3
                },
                TokenKind::Plus | TokenKind::Minus | TokenKind::Caret | TokenKind::Question => 2,
                _ => 3,
            };
            if choice == 0 {
                self.check_legacy_material_import(number)?;
                material_imports = material_imports + 1;
            } else if choice == 1 {
                self.check_use_material_import(number)?;
                material_imports = material_imports + 1;
            } else if choice == 2 {
                self.check_edit(number)?;
                edits = edits + 1;
            } else {
                return Err(self.error_here(Ghost(dec), "expected a material import or edit statement"));
            }
            proof {
                lemma_statement_progress(st, before);
                let x = g_statement(st, before)->Ok_0.0;
                assert(acc.push(x).drop_last() =~= acc);
                acc = acc.push(x);
            }
        }
        Ok(AdfCheckSummary { version, material_imports, edits })
    }

    fn is_eof(&self) -> (r: bool)
        ensures
            r == (self.current@.kind is Eof),
    {
        match self.current.kind {
            TokenKind::Eof => true,
            _ => false,
        }
    }
}

/// Checks a document in the text form without building it: its version
/// and how many statements of each kind it holds, or the first problem met.
/// Tokens are read one at a time as the grammar reaches them, so a lexical
/// error after the first grammatical one is never seen. `number` gives the
/// bits of the binary64 value that a number literal denotes.
pub fn check<F: Fn(&str) -> u64>(source: &str, number: &F) -> (r: Result<
    AdfCheckSummary,
    AdfError,
>)
    requires
        source@.len() < usize::MAX,
        deterministic(*number),
    ensures
        match g_document(text_stream(source@, decoded_by(*number))) {
            Ok(d) => r matches Ok(x) && summarizes(x, d),
            Err(e) => r matches Err(x) && x@ == e,
        },
{
    let mut checker = CheckingParser::new(Lexer::new(source), number)?;
    checker.check_document(number)
}

} // verus!
