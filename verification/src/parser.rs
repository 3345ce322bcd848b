//! The parser of the text form: from tokens to a document.

use vstd::prelude::*;
use crate::document::{
    AdfDocument, AdfError, AdfStatement, DocumentModel, Edit, ErrorModel, MaterialImport,
    MaterialImportSyntax, Operation, Property, PropertyModel, StatementModel, Value, ValueModel,
    reads, skips, result_is, values_model_of, properties_model_of, statements_model_of,
    lemma_vector_model,
};
use crate::format::{version_is_supported, unsupported_version_message};
use crate::grammar_laws::{lemma_value_progress, lemma_property_progress, lemma_statement_progress};
use crate::grammar_model::{
    Stream, advance, error_at, g_keyword, g_ident, g_string, g_u32, g_expect, g_value,
    g_vector_items, g_property, g_property_list, g_trailing_properties, g_edit, g_use_import,
    g_legacy_import, g_statement, g_statements, g_document, text_document,
};
use crate::lexer::{
    Lexer, Token, TokenKind, decoded_by, deterministic, lemma_token_advances, tokens_model,
    push_location,
};
use crate::numbers::{negate_bits, unsigned_whole};
use crate::text::str_eq;
use crate::token_model::{KindModel, located, next_token, tokens_from};

verus! {

/// A number for each kind of token, telling the kinds apart.
pub open spec fn kind_index(k: KindModel) -> nat {
    match k {
        KindModel::Ident(_) => 0,
        KindModel::Number(_) => 1,
        KindModel::Str(_) => 2,
        KindModel::Plus => 3,
        KindModel::Minus => 4,
        KindModel::Caret => 5,
        KindModel::Question => 6,
        KindModel::At => 7,
        KindModel::Colon => 8,
        KindModel::Comma => 9,
        KindModel::Semicolon => 10,
        KindModel::LParen => 11,
        KindModel::RParen => 12,
        KindModel::LBracket => 13,
        KindModel::RBracket => 14,
        KindModel::Eof => 15,
    }
}

/// Whether a kind holds nothing, so that its variant decides it.
pub open spec fn fieldless(k: KindModel) -> bool {
    !(k is Ident) && !(k is Number) && !(k is Str)
}

fn kind_number(kind: &TokenKind) -> (r: u8)
    ensures
        r == kind_index(kind@),
{
    match kind {
        TokenKind::Ident(_) => 0,
        TokenKind::Number(_) => 1,
        TokenKind::String(_) => 2,
        TokenKind::Plus => 3,
        TokenKind::Minus => 4,
        TokenKind::Caret => 5,
        TokenKind::Question => 6,
        TokenKind::At => 7,
        TokenKind::Colon => 8,
        TokenKind::Comma => 9,
        TokenKind::Semicolon => 10,
        TokenKind::LParen => 11,
        TokenKind::RParen => 12,
        TokenKind::LBracket => 13,
        TokenKind::RBracket => 14,
        TokenKind::Eof => 15,
    }
}

/// Whether two token kinds are the same variant, whatever they hold.
pub fn same_variant(left: &TokenKind, right: &TokenKind) -> (r: bool)
    ensures
        r == (kind_index(left@) == kind_index(right@)),
        fieldless(right@) ==> (r == (left@ == right@)),
{
    kind_number(left) == kind_number(right)
}

/// Builds `<message> at line <l>, column <c>` for a token.
pub(crate) fn error_at_token(token: &Token, message: &str) -> (e: AdfError)
    ensures
        e@ == ErrorModel::Parse(located(message@, token.line as nat, token.column as nat)),
{
    let mut s = String::new();
    s.push_str(message);
    push_location(&mut s, token.line, token.column);
    AdfError::Parse(s)
}

/// `expected keyword "<word>"`.
pub(crate) fn keyword_message(word: &str) -> (r: String)
    ensures
        r@ == "expected keyword \""@ + word@ + "\""@,
{
    let mut s = String::new();
    s.push_str("expected keyword \"");
    s.push_str(word);
    s.push_str("\"");
    s
}

/// `expected ':' after property <key>`.
pub(crate) fn colon_message(key: &str) -> (r: String)
    ensures
        r@ == "expected ':' after property "@ + key@,
{
    let mut s = String::new();
    s.push_str("expected ':' after property ");
    s.push_str(key);
    s
}

/// A cursor over the tokens of a text.
struct Parser {
    tokens: Vec<Token>,
    index: usize,
}

impl Parser {
    spec fn stream(&self) -> Stream {
        Stream { toks: tokens_model(self.tokens@), err: None }
    }

    /// The cursor is on a token, and the last token is the end.
    spec fn wf(&self) -> bool {
        &&& self.index < self.tokens@.len()
        &&& self.tokens@.last()@.kind is Eof
    }

    fn new(tokens: Vec<Token>) -> (r: Self)
        requires
            tokens@.len() > 0,
            tokens@.last()@.kind is Eof,
        ensures
            r.wf(),
            r.tokens == tokens,
            r.index == 0,
    {
        Parser { tokens, index: 0 }
    }

    fn current(&self) -> (r: &Token)
        requires
            self.wf(),
        ensures
            r@ == self.stream().toks[self.index as int],
    {
        &self.tokens[self.index]
    }

    fn is_eof(&self) -> (r: bool)
        requires
            self.wf(),
        ensures
            r == (self.stream().toks[self.index as int].kind is Eof),
    {
        match self.current().kind {
            TokenKind::Eof => true,
            _ => false,
        }
    }

    fn bump(&mut self)
        requires
            old(self).wf(),
            !(old(self).stream().toks[old(self).index as int].kind is Eof),
        ensures
            final(self).wf(),
            final(self).tokens == old(self).tokens,
            advance(old(self).stream(), old(self).index as int) == Ok::<int, ErrorModel>(
                final(self).index as int,
            ),
    {
        proof {
            assert(tokens_model(self.tokens@)[self.index as int] == self.tokens@[self.index as int]@);
            assert(self.index + 1 < self.tokens.len());
        }
        self.index = self.index + 1;
    }

    fn error_here(&self, message: &str) -> (e: AdfError)
        requires
            self.wf(),
        ensures
            e@ == error_at(self.stream(), self.index as int, message@),
    {
        error_at_token(self.current(), message)
    }

    fn expect(&mut self, expected: TokenKind, message: &str) -> (r: Result<(), AdfError>)
        requires
            old(self).wf(),
            fieldless(expected@),
            !(expected@ is Eof),
        ensures
            final(self).wf(),
            final(self).tokens == old(self).tokens,
            skips(
                r,
                final(self).index,
                g_expect(old(self).stream(), old(self).index as int, expected@, message@),
            ),
    {
        if same_variant(&self.current().kind, &expected) {
            self.bump();
            Ok(())
        } else {
            Err(self.error_here(message))
        }
    }

    fn expect_keyword(&mut self, expected: &str) -> (r: Result<(), AdfError>)
        requires
            old(self).wf(),
        ensures
            final(self).wf(),
            final(self).tokens == old(self).tokens,
            skips(
                r,
                final(self).index,
                g_keyword(old(self).stream(), old(self).index as int, expected@),
            ),
    {
        let matched = match &self.current().kind {
            TokenKind::Ident(actual) => str_eq(actual.as_str(), expected),
            _ => false,
        };
        if matched {
            self.bump();
            Ok(())
        } else {
            let message = keyword_message(expected);
            Err(self.error_here(message.as_str()))
        }
    }

    fn expect_ident(&mut self) -> (r: Result<String, AdfError>)
        requires
            old(self).wf(),
        ensures
            final(self).wf(),
            final(self).tokens == old(self).tokens,
            reads(r, final(self).index, g_ident(old(self).stream(), old(self).index as int)),
    {
        match &self.current().kind {
            TokenKind::Ident(value) => {
                let value = value.clone();
                self.bump();
                Ok(value)
            },
            _ => Err(self.error_here("expected an identifier")),
        }
    }

    fn expect_string(&mut self) -> (r: Result<String, AdfError>)
        requires
            old(self).wf(),
        ensures
            final(self).wf(),
            final(self).tokens == old(self).tokens,
            reads(r, final(self).index, g_string(old(self).stream(), old(self).index as int)),
    {
        match &self.current().kind {
            TokenKind::String(value) => {
                let value = value.clone();
                self.bump();
                Ok(value)
            },
            _ => Err(self.error_here("expected a string literal")),
        }
    }

    fn expect_u32(&mut self) -> (r: Result<u32, AdfError>)
        requires
            old(self).wf(),
        ensures
            final(self).wf(),
            final(self).tokens == old(self).tokens,
            reads(r, final(self).index, g_u32(old(self).stream(), old(self).index as int)),
    {
        let whole = match &self.current().kind {
            TokenKind::Number(bits) => unsigned_whole(*bits),
            _ => None,
        };
        match whole {
            Some(value) => {
                self.bump();
                Ok(value)
            },
            None => Err(self.error_here("expected an unsigned integer")),
        }
    }

    fn parse_value(&mut self) -> (r: Result<Value, AdfError>)
        requires
            old(self).wf(),
        ensures
            final(self).wf(),
            final(self).tokens == old(self).tokens,
            reads(r, final(self).index, g_value(old(self).stream(), old(self).index as int)),
        decreases old(self).tokens@.len() - old(self).index, 1int,
    {
        match &self.current().kind {
            TokenKind::Minus => {
                self.bump();
                let negated = match &self.current().kind {
                    TokenKind::Number(bits) => Some(negate_bits(*bits)),
                    _ => None,
                };
                match negated {
                    Some(bits) => {
                        self.bump();
                        Ok(Value::Number(bits))
                    },
                    None => Err(self.error_here("expected a number after '-'")),
                }
            },
            TokenKind::Number(bits) => {
                let bits = *bits;
                self.bump();
                Ok(Value::Number(bits))
            },
            TokenKind::String(value) => {
                let value = value.clone();
                self.bump();
                Ok(Value::String(value))
            },
            TokenKind::Ident(value) => {
                let value = value.clone();
                self.bump();
                if str_eq(value.as_str(), "true") {
                    Ok(Value::Bool(true))
                } else if str_eq(value.as_str(), "false") {
                    Ok(Value::Bool(false))
                } else {
                    Ok(Value::Ident(value))
                }
            },
            TokenKind::LBracket => self.parse_vector(),
            _ => Err(self.error_here("expected a value")),
        }
    }

    fn parse_vector(&mut self) -> (r: Result<Value, AdfError>)
        requires
            old(self).wf(),
            old(self).stream().toks[old(self).index as int].kind is LBracket,
        ensures
            final(self).wf(),
            final(self).tokens == old(self).tokens,
            reads(r, final(self).index, g_value(old(self).stream(), old(self).index as int)),
        decreases old(self).tokens@.len() - old(self).index, 0int,
    {
        let ghost st = self.stream();
        self.expect(TokenKind::LBracket, "expected '[' to start a vector")?;
        let ghost start = self.index as int;
        let mut values: Vec<Value> = Vec::new();
        proof {
            assert(values_model_of(values@) =~= Seq::<ValueModel>::empty());
        }
        loop
            invariant_except_break
                self.wf(),
                self.tokens == old(self).tokens,
                st == self.stream(),
                old(self).index < start <= self.index,
                g_value(st, old(self).index as int) == g_vector_items(st, start, Seq::empty()),
                g_vector_items(st, start, Seq::empty()) == g_vector_items(
                    st,
                    self.index as int,
                    values_model_of(values@),
                ),
            ensures
                self.wf(),
                self.tokens == old(self).tokens,
                st == self.stream(),
                g_value(st, old(self).index as int) == g_vector_items(
                    st,
                    self.index as int,
                    values_model_of(values@),
                ),
                st.toks[self.index as int].kind is RBracket || st.toks[self.index as int].kind is Eof,
            decreases self.tokens@.len() - self.index,
        {
            let stop = match self.current().kind {
                TokenKind::RBracket | TokenKind::Eof => true,
                _ => false,
            };
            if stop {
                break;
            }
            let is_comma = match self.current().kind {
                TokenKind::Comma => true,
                _ => false,
            };
            if is_comma {
                self.bump();
                continue;
            }
            let ghost before = self.index as int;
            let ghost acc = values_model_of(values@);
            proof {
                lemma_value_progress(st, before);
            }
            let value = self.parse_value()?;
            let ghost v = value@;
            values.push(value);
            proof {
                assert(values_model_of(values@) =~= acc.push(v));
            }
        }
        self.expect(TokenKind::RBracket, "expected ']' after vector")?;
        proof {
            lemma_vector_model(values);
        }
        Ok(Value::Vector(values))
    }

    fn parse_property(&mut self, require_colon: bool) -> (r: Result<Property, AdfError>)
        requires
            old(self).wf(),
        ensures
            final(self).wf(),
            final(self).tokens == old(self).tokens,
            reads(
                r,
                final(self).index,
                g_property(old(self).stream(), old(self).index as int, require_colon),
            ),
    {
        proof {
            reveal(g_property);
        }
        let key = self.expect_ident()?;
        let is_colon = match self.current().kind {
            TokenKind::Colon => true,
            _ => false,
        };
        if is_colon {
            self.bump();
        } else if require_colon {
            let message = colon_message(key.as_str());
            return Err(self.error_here(message.as_str()));
        }
        let value = self.parse_value()?;
        Ok(Property { key, value })
    }

    /// The properties inside an edit's brackets, up to the `)`.
    fn parse_property_list(&mut self) -> (r: Result<Vec<Property>, AdfError>)
        requires
            old(self).wf(),
        ensures
            final(self).wf(),
            final(self).tokens == old(self).tokens,
            match g_property_list(old(self).stream(), old(self).index as int, Seq::empty()) {
                Ok((ps, k)) => r matches Ok(x) && properties_model_of(x@) == ps
                    && final(self).index == k,
                Err(e) => r matches Err(x) && x@ == e,
            },
    {
        let ghost st = self.stream();
        let mut properties: Vec<Property> = Vec::new();
        proof {
            assert(properties_model_of(properties@) =~= Seq::<PropertyModel>::empty());
        }
        loop
            invariant_except_break
                self.wf(),
                self.tokens == old(self).tokens,
                st == self.stream(),
                g_property_list(st, old(self).index as int, Seq::empty()) == g_property_list(
                    st,
                    self.index as int,
                    properties_model_of(properties@),
                ),
            ensures
                self.wf(),
                self.tokens == old(self).tokens,
                g_property_list(st, old(self).index as int, Seq::empty()) == Ok::<
                    (Seq<PropertyModel>, int),
                    ErrorModel,
                >((properties_model_of(properties@), self.index as int)),
            decreases self.tokens@.len() - self.index,
        {
            let stop = match self.current().kind {
                TokenKind::RParen => true,
                _ => false,
            };
            if stop {
                break;
            }
            let is_comma = match self.current().kind {
                TokenKind::Comma => true,
                _ => false,
            };
            if is_comma {
                self.bump();
                continue;
            }
            let ghost before = self.index as int;
            let ghost acc = properties_model_of(properties@);
            proof {
                lemma_property_progress(st, before, true);
            }
            let property = self.parse_property(true)?;
            let ghost p = property@;
            properties.push(property);
            proof {
                assert(properties_model_of(properties@) =~= acc.push(p));
            }
        }
        Ok(properties)
    }

    /// The properties after an edit's brackets, up to the `;` or the end.
    fn parse_trailing_properties(&mut self, properties: &mut Vec<Property>) -> (r: Result<(), AdfError>)
        requires
            old(self).wf(),
        ensures
            final(self).wf(),
            final(self).tokens == old(self).tokens,
            match g_trailing_properties(
                old(self).stream(),
                old(self).index as int,
                properties_model_of(old(properties)@),
            ) {
                Ok((ps, k)) => r is Ok && properties_model_of(final(properties)@) == ps
                    && final(self).index == k,
                Err(e) => r matches Err(x) && x@ == e,
            },
    {
        let ghost st = self.stream();
        loop
            invariant_except_break
                self.wf(),
                self.tokens == old(self).tokens,
                st == self.stream(),
                g_trailing_properties(
                    st,
                    old(self).index as int,
                    properties_model_of(old(properties)@),
                ) == g_trailing_properties(
                    st,
                    self.index as int,
                    properties_model_of(properties@),
                ),
            ensures
                self.wf(),
                self.tokens == old(self).tokens,
                g_trailing_properties(
                    st,
                    old(self).index as int,
                    properties_model_of(old(properties)@),
                ) == Ok::<(Seq<PropertyModel>, int), ErrorModel>(
                    (properties_model_of(properties@), self.index as int),
                ),
            decreases self.tokens@.len() - self.index,
        {
            let stop = match self.current().kind {
                TokenKind::Semicolon | TokenKind::Eof => true,
                _ => false,
            };
            if stop {
                break;
            }
            let is_comma = match self.current().kind {
                TokenKind::Comma => true,
                _ => false,
            };
            if is_comma {
                self.bump();
                continue;
            }
            let ghost before = self.index as int;
            let ghost acc = properties_model_of(properties@);
            proof {
                lemma_property_progress(st, before, false);
            }
            let property = self.parse_property(false)?;
            let ghost p = property@;
            properties.push(property);
            proof {
                assert(properties_model_of(properties@) =~= acc.push(p));
            }
        }
        Ok(())
    }

    fn parse_edit(&mut self) -> (r: Result<Edit, AdfError>)
        requires
            old(self).wf(),
        ensures
            final(self).wf(),
            final(self).tokens == old(self).tokens,
            reads(r, final(self).index, g_edit(old(self).stream(), old(self).index as int)),
    {
        proof {
            reveal(g_edit);
        }
        let operation = match self.current().kind {
            TokenKind::Plus => Operation::Union,
            TokenKind::Minus => Operation::Difference,
            TokenKind::Caret => Operation::Intersection,
            TokenKind::Question => Operation::Paint,
            _ => {
                return Err(self.error_here("expected an edit operation"));
            },
        };
        self.bump();
        let primitive = self.expect_ident()?;
        self.expect(TokenKind::LParen, "expected '(' after primitive name")?;
        let mut properties = self.parse_property_list()?;
        self.expect(TokenKind::RParen, "expected ')' after primitive properties")?;
        self.parse_trailing_properties(&mut properties)?;
        self.expect(TokenKind::Semicolon, "expected ';' after edit")?;
        Ok(Edit { operation, primitive, properties })
    }

    fn parse_use_material_import(&mut self) -> (r: Result<MaterialImport, AdfError>)
        requires
            old(self).wf(),
        ensures
            final(self).wf(),
            final(self).tokens == old(self).tokens,
            reads(r, final(self).index, g_use_import(old(self).stream(), old(self).index as int)),
    {
        proof {
            reveal(g_use_import);
        }
        self.expect_keyword("use")?;
        self.expect_keyword("material")?;
        let alias = self.expect_ident()?;
        self.expect_keyword("from")?;
        let path = self.expect_string()?;
        self.expect(TokenKind::Semicolon, "expected ';' after material import")?;
        Ok(MaterialImport { alias: Some(alias), path, syntax: MaterialImportSyntax::Use })
    }

    fn parse_legacy_material_import(&mut self) -> (r: Result<MaterialImport, AdfError>)
        requires
            old(self).wf(),
        ensures
            final(self).wf(),
            final(self).tokens == old(self).tokens,
            reads(
                r,
                final(self).index,
                g_legacy_import(old(self).stream(), old(self).index as int),
            ),
    {
        proof {
            reveal(g_legacy_import);
        }
        self.expect(TokenKind::At, "expected '@material'")?;
        self.expect_keyword("material")?;
        let path = self.expect_string()?;
        self.expect(TokenKind::Semicolon, "expected ';' after material import")?;
        Ok(
            MaterialImport { alias: None, path, syntax: MaterialImportSyntax::LegacyAtMaterial },
        )
    }

    fn parse_statement(&mut self) -> (r: Result<AdfStatement, AdfError>)
        requires
            old(self).wf(),
        ensures
            final(self).wf(),
            final(self).tokens == old(self).tokens,
            reads(r, final(self).index, g_statement(old(self).stream(), old(self).index as int)),
    {
        proof {
            reveal(g_statement);
        }
        let choice: u8 = match &self.current().kind {
            TokenKind::At => 0,
            TokenKind::Ident(ident) => if str_eq(ident.as_str(), "use") {
                1
            } else {
                3
            },
            TokenKind::Plus | TokenKind::Minus | TokenKind::Caret | TokenKind::Question => 2,
            _ => 3,
        };
        if choice == 0 {
            Ok(AdfStatement::MaterialImport(self.parse_legacy_material_import()?))
        } else if choice == 1 {
            Ok(AdfStatement::MaterialImport(self.parse_use_material_import()?))
        } else if choice == 2 {
            Ok(AdfStatement::Edit(self.parse_edit()?))
        } else {
            Err(self.error_here("expected a material import or edit statement"))
        }
    }

    fn parse_document(&mut self) -> (r: Result<AdfDocument, AdfError>)
        requires
            old(self).wf(),
            old(self).index == 0,
        ensures
            result_is(r, g_document(old(self).stream())),
    {
        let ghost st = self.stream();
        self.expect_keyword("adf")?;
        let version = self.expect_u32()?;
        if !version_is_supported(version) {
            let message = unsupported_version_message(version);
            return Err(self.error_here(message.as_str()));
        }
        self.expect(TokenKind::Semicolon, "expected ';' after ADF version")?;
        let ghost start = self.index as int;
        let mut statements: Vec<AdfStatement> = Vec::new();
        proof {
            assert(statements_model_of(statements@) =~= Seq::<StatementModel>::empty());
        }
        while !self.is_eof()
            invariant
                self.wf(),
                self.tokens == old(self).tokens,
                st == self.stream(),
                g_statements(st, start, Seq::empty()) == g_statements(
                    st,
                    self.index as int,
                    statements_model_of(statements@),
                ),
                g_document(st) == match g_statements(st, start, Seq::empty()) {
                    Ok((ss, _)) => Ok(DocumentModel { version, statements: ss }),
                    Err(e) => Err::<DocumentModel, ErrorModel>(e),
                },
            decreases self.tokens@.len() - self.index,
        {
            let ghost before = self.index as int;
            let ghost acc = statements_model_of(statements@);
            proof {
                lemma_statement_progress(st, before);
            }
            let statement = self.parse_statement()?;
            let ghost x = statement@;
            statements.push(statement);
            proof {
                assert(statements_model_of(statements@) =~= acc.push(x));
            }
        }
        Ok(AdfDocument { version, statements })
    }
}

/// Parses the tokens of a text, which end with the end token.
pub(crate) fn parse_tokens(tokens: Vec<Token>) -> (r: Result<AdfDocument, AdfError>)
    requires
        tokens@.len() > 0,
        tokens@.last()@.kind is Eof,
    ensures
        result_is(r, g_document(Stream { toks: tokens_model(tokens@), err: None })),
{
    let mut parser = Parser::new(tokens);
    parser.parse_document()
}

/// Tokens that end without an error end with the end token.
proof fn lemma_tokens_end(s: Seq<char>, i: int, dec: spec_fn(Seq<char>) -> u64)
    requires
        0 <= i <= s.len(),
    ensures
        tokens_from(s, i, dec).1 is None ==> tokens_from(s, i, dec).0.len() > 0
            && tokens_from(s, i, dec).0.last().kind is Eof,
    decreases s.len() - i,
{
    lemma_token_advances(s, i, dec);
    if let Ok((t, j)) = next_token(s, i, dec) {
        if !(t.kind is Eof) && i < j <= s.len() {
            lemma_tokens_end(s, j, dec);
        }
    }
}

/// Parses a document in the text form: all of the text is read into tokens
/// first, then the tokens into a document. `number` gives the bits of the
/// binary64 value that a number literal denotes.
pub fn parse<F: Fn(&str) -> u64>(source: &str, number: &F) -> (r: Result<AdfDocument, AdfError>)
    requires
        source@.len() < usize::MAX,
        deterministic(*number),
    ensures
        result_is(r, text_document(source@, decoded_by(*number))),
{
    let mut lexer = Lexer::new(source);
    proof {
        lemma_tokens_end(source@, 0, decoded_by(*number));
    }
    let tokens = lexer.lex(number)?;
    parse_tokens(tokens)
}

} // verus!
