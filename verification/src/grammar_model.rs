//! What the text form's grammar says: the document that a token stream
//! spells, or the first error met in it, message and position included.
//!
//! ```text
//! document  := "adf" version ";" statement* EOF
//! statement := "use" "material" ident "from" string ";"
//!            | "@" "material" string ";"
//!            | ("+" | "-" | "^" | "?") ident "(" (prop-colon | ",")* ")" (prop | ",")* ";"
//! prop      := ident ":"? value        (the colon is required inside the brackets)
//! value     := "-" number | number | string | ident | "[" (value | ",")* "]"
//! ```

use vstd::prelude::*;
use vstd::arithmetic::power2::pow2;
use crate::document::{
    DocumentModel, EditModel, ErrorModel, ImportModel, MaterialImportSyntax,
    Operation, PropertyModel, StatementModel, ValueModel,
};
use crate::format::{is_supported_version, msg_unsupported_version};
use crate::token_model::{KindModel, TokenModel, located, tokens_from};

verus! {

/// The integer that the binary64 value with these bits denotes, as `as u32`
/// gives it, when that value is a whole number not below zero (`-0` counts
/// as 0); `None` for any other value, NaN and the infinities included.
/// A finite non-zero value is `(2^52 + m) * 2^(e - 1075)`, `m` and `e` being
/// the mantissa and exponent fields; `as u32` saturates at `u32::MAX`.
pub open spec fn unsigned_whole_value(bits: u64) -> Option<u32> {
    let e = (bits / 0x10_0000_0000_0000) % 2048;
    let m = bits % 0x10_0000_0000_0000;
    let negative = bits >= 0x8000_0000_0000_0000;
    if e == 2047 {
        None
    } else if e == 0 {
        if m == 0 {
            Some(0u32)
        } else {
            None
        }
    } else if negative {
        None
    } else if e >= 1075 {
        Some(u32::MAX)
    } else {
        let full: nat = (m + pow2(52)) as nat;
        let d = pow2((1075 - e) as nat);
        if full % d == 0 {
            if full / d > u32::MAX {
                Some(u32::MAX)
            } else {
                Some((full / d) as u32)
            }
        } else {
            None
        }
    }
}

/// The bits of the negated value: the sign bit flipped.
pub open spec fn negated_bits(bits: u64) -> u64 {
    if bits >= 0x8000_0000_0000_0000 {
        (bits - 0x8000_0000_0000_0000) as u64
    } else {
        (bits + 0x8000_0000_0000_0000) as u64
    }
}

/// Tokens, and the lexical error that stopped them if one did.
pub struct Stream {
    pub toks: Seq<TokenModel>,
    pub err: Option<ErrorModel>,
}

/// The error that ends the stream, when reading goes past its last token.
pub open spec fn stream_error(st: Stream) -> ErrorModel {
    match st.err {
        Some(e) => e,
        None => ErrorModel::Parse(Seq::empty()),
    }
}

/// Moving past the token at `k`.
pub open spec fn advance(st: Stream, k: int) -> Result<int, ErrorModel> {
    if k + 1 < st.toks.len() {
        Ok(k + 1)
    } else {
        Err(stream_error(st))
    }
}

/// The error `<message> at line <l>, column <c>` at the token at `k`.
pub open spec fn error_at(st: Stream, k: int, message: Seq<char>) -> ErrorModel {
    ErrorModel::Parse(located(message, st.toks[k].line, st.toks[k].column))
}

/// Requiring the identifier `word`.
pub open spec fn g_keyword(st: Stream, k: int, word: Seq<char>) -> Result<int, ErrorModel> {
    match st.toks[k].kind {
        KindModel::Ident(a) => if a == word {
            advance(st, k)
        } else {
            Err(error_at(st, k, "expected keyword \""@ + word + "\""@))
        },
        _ => Err(error_at(st, k, "expected keyword \""@ + word + "\""@)),
    }
}

/// Reading an identifier.
pub open spec fn g_ident(st: Stream, k: int) -> Result<(Seq<char>, int), ErrorModel> {
    match st.toks[k].kind {
        KindModel::Ident(a) => match advance(st, k) {
            Ok(k1) => Ok((a, k1)),
            Err(e) => Err(e),
        },
        _ => Err(error_at(st, k, "expected an identifier"@)),
    }
}

/// Reading a string literal.
pub open spec fn g_string(st: Stream, k: int) -> Result<(Seq<char>, int), ErrorModel> {
    match st.toks[k].kind {
        KindModel::Str(a) => match advance(st, k) {
            Ok(k1) => Ok((a, k1)),
            Err(e) => Err(e),
        },
        _ => Err(error_at(st, k, "expected a string literal"@)),
    }
}

/// Reading a number that is a whole number not below zero.
pub open spec fn g_u32(st: Stream, k: int) -> Result<(u32, int), ErrorModel> {
    match st.toks[k].kind {
        KindModel::Number(b) => match unsigned_whole_value(b) {
            Some(v) => match advance(st, k) {
                Ok(k1) => Ok((v, k1)),
                Err(e) => Err(e),
            },
            None => Err(error_at(st, k, "expected an unsigned integer"@)),
        },
        _ => Err(error_at(st, k, "expected an unsigned integer"@)),
    }
}

/// Requiring a token of a kind that holds nothing.
pub open spec fn g_expect(st: Stream, k: int, kind: KindModel, message: Seq<char>) -> Result<
    int,
    ErrorModel,
> {
    if st.toks[k].kind == kind {
        advance(st, k)
    } else {
        Err(error_at(st, k, message))
    }
}

/// Reading a value.
pub open spec fn g_value(st: Stream, k: int) -> Result<(ValueModel, int), ErrorModel>
    decreases st.toks.len() - k, 0int,
{
    match st.toks[k].kind {
        KindModel::Minus => match advance(st, k) {
            Err(e) => Err(e),
            Ok(k1) => match st.toks[k1].kind {
                KindModel::Number(b) => match advance(st, k1) {
                    Ok(k2) => Ok((ValueModel::Number(negated_bits(b)), k2)),
                    Err(e) => Err(e),
                },
                _ => Err(error_at(st, k1, "expected a number after '-'"@)),
            },
        },
        KindModel::Number(b) => match advance(st, k) {
            Ok(k1) => Ok((ValueModel::Number(b), k1)),
            Err(e) => Err(e),
        },
        KindModel::Str(a) => match advance(st, k) {
            Ok(k1) => Ok((ValueModel::Str(a), k1)),
            Err(e) => Err(e),
        },
        KindModel::Ident(a) => match advance(st, k) {
            Ok(k1) => Ok(
                (
                    if a == "true"@ {
                        ValueModel::Bool(true)
                    } else if a == "false"@ {
                        ValueModel::Bool(false)
                    } else {
                        ValueModel::Ident(a)
                    },
                    k1,
                ),
            ),
            Err(e) => Err(e),
        },
        KindModel::LBracket => match advance(st, k) {
            Err(e) => Err(e),
            Ok(k1) => g_vector_items(st, k1, Seq::empty()),
        },
        _ => Err(error_at(st, k, "expected a value"@)),
    }
}

/// The items of a vector from `k` on, `acc` holding those read so far.
pub open spec fn g_vector_items(st: Stream, k: int, acc: Seq<ValueModel>) -> Result<
    (ValueModel, int),
    ErrorModel,
>
    decreases st.toks.len() - k, 1int,
{
    if !(0 <= k < st.toks.len()) {
        Err(stream_error(st))
    } else {
        match st.toks[k].kind {
            KindModel::RBracket => match advance(st, k) {
                Ok(k1) => Ok((ValueModel::Vector(acc), k1)),
                Err(e) => Err(e),
            },
            KindModel::Eof => Err(error_at(st, k, "expected ']' after vector"@)),
            KindModel::Comma => match advance(st, k) {
                Err(e) => Err(e),
                Ok(k1) => g_vector_items(st, k1, acc),
            },
            _ => match g_value(st, k) {
                Err(e) => Err(e),
                Ok((v, k1)) => if k < k1 <= st.toks.len() {
                    g_vector_items(st, k1, acc.push(v))
                } else {
                    // never taken: a value takes at least one token
                    Err(stream_error(st))
                },
            },
        }
    }
}

/// Reading a property: its name, a colon (required inside the brackets), its value.
#[verifier::opaque]
pub open spec fn g_property(st: Stream, k: int, require_colon: bool) -> Result<
    (PropertyModel, int),
    ErrorModel,
> {
    match g_ident(st, k) {
        Err(e) => Err(e),
        Ok((key, k1)) => {
            let after: Result<int, ErrorModel> = if st.toks[k1].kind is Colon {
                advance(st, k1)
            } else if require_colon {
                Err(error_at(st, k1, "expected ':' after property "@ + key))
            } else {
                Ok(k1)
            };
            match after {
                Err(e) => Err(e),
                Ok(k2) => match g_value(st, k2) {
                    Err(e) => Err(e),
                    Ok((value, k3)) => Ok((PropertyModel { key, value }, k3)),
                },
            }
        },
    }
}

/// The properties inside an edit's brackets, up to the `)`.
pub open spec fn g_property_list(st: Stream, k: int, acc: Seq<PropertyModel>) -> Result<
    (Seq<PropertyModel>, int),
    ErrorModel,
>
    decreases st.toks.len() - k,
{
    if !(0 <= k < st.toks.len()) {
        Err(stream_error(st))
    } else if st.toks[k].kind is RParen {
        Ok((acc, k))
    } else if st.toks[k].kind is Comma {
        match advance(st, k) {
            Err(e) => Err(e),
            Ok(k1) => g_property_list(st, k1, acc),
        }
    } else {
        match g_property(st, k, true) {
            Err(e) => Err(e),
            Ok((p, k1)) => if k < k1 <= st.toks.len() {
                g_property_list(st, k1, acc.push(p))
            } else {
                Err(stream_error(st))
            },
        }
    }
}

/// The properties after an edit's brackets, up to the `;` or the end.
pub open spec fn g_trailing_properties(st: Stream, k: int, acc: Seq<PropertyModel>) -> Result<
    (Seq<PropertyModel>, int),
    ErrorModel,
>
    decreases st.toks.len() - k,
{
    if !(0 <= k < st.toks.len()) {
        Err(stream_error(st))
    } else if st.toks[k].kind is Semicolon || st.toks[k].kind is Eof {
        Ok((acc, k))
    } else if st.toks[k].kind is Comma {
        match advance(st, k) {
            Err(e) => Err(e),
            Ok(k1) => g_trailing_properties(st, k1, acc),
        }
    } else {
        match g_property(st, k, false) {
            Err(e) => Err(e),
            Ok((p, k1)) => if k < k1 <= st.toks.len() {
                g_trailing_properties(st, k1, acc.push(p))
            } else {
                Err(stream_error(st))
            },
        }
    }
}

/// The operation that a token kind starts an edit with.
pub open spec fn operation_of(kind: KindModel) -> Option<Operation> {
    match kind {
        KindModel::Plus => Some(Operation::Union),
        KindModel::Minus => Some(Operation::Difference),
        KindModel::Caret => Some(Operation::Intersection),
        KindModel::Question => Some(Operation::Paint),
        _ => None,
    }
}

/// Reading an edit statement.
#[verifier::opaque]
pub open spec fn g_edit(st: Stream, k: int) -> Result<(EditModel, int), ErrorModel> {
    match operation_of(st.toks[k].kind) {
        None => Err(error_at(st, k, "expected an edit operation"@)),
        Some(operation) => match advance(st, k) {
            Err(e) => Err(e),
            Ok(k1) => match g_ident(st, k1) {
                Err(e) => Err(e),
                Ok((primitive, k2)) => match g_expect(
                    st,
                    k2,
                    KindModel::LParen,
                    "expected '(' after primitive name"@,
                ) {
                    Err(e) => Err(e),
                    Ok(k3) => match g_property_list(st, k3, Seq::empty()) {
                        Err(e) => Err(e),
                        Ok((inner, k4)) => match g_expect(
                            st,
                            k4,
                            KindModel::RParen,
                            "expected ')' after primitive properties"@,
                        ) {
                            Err(e) => Err(e),
                            Ok(k5) => match g_trailing_properties(st, k5, inner) {
                                Err(e) => Err(e),
                                Ok((properties, k6)) => match g_expect(
                                    st,
                                    k6,
                                    KindModel::Semicolon,
                                    "expected ';' after edit"@,
                                ) {
                                    Err(e) => Err(e),
                                    Ok(k7) => Ok(
                                        (EditModel { operation, primitive, properties }, k7),
                                    ),
                                },
                            },
                        },
                    },
                },
            },
        },
    }
}

/// Reading `use material <alias> from "<path>";`.
#[verifier::opaque]
pub open spec fn g_use_import(st: Stream, k: int) -> Result<(ImportModel, int), ErrorModel> {
    match g_keyword(st, k, "use"@) {
        Err(e) => Err(e),
        Ok(k1) => match g_keyword(st, k1, "material"@) {
            Err(e) => Err(e),
            Ok(k2) => match g_ident(st, k2) {
                Err(e) => Err(e),
                Ok((alias, k3)) => match g_keyword(st, k3, "from"@) {
                    Err(e) => Err(e),
                    Ok(k4) => match g_string(st, k4) {
                        Err(e) => Err(e),
                        Ok((path, k5)) => match g_expect(
                            st,
                            k5,
                            KindModel::Semicolon,
                            "expected ';' after material import"@,
                        ) {
                            Err(e) => Err(e),
                            Ok(k6) => Ok(
                                (
                                    ImportModel {
                                        alias: Some(alias),
                                        path,
                                        syntax: MaterialImportSyntax::Use,
                                    },
                                    k6,
                                ),
                            ),
                        },
                    },
                },
            },
        },
    }
}

/// Reading `@material "<path>";`.
#[verifier::opaque]
pub open spec fn g_legacy_import(st: Stream, k: int) -> Result<(ImportModel, int), ErrorModel> {
    match g_expect(st, k, KindModel::At, "expected '@material'"@) {
        Err(e) => Err(e),
        Ok(k1) => match g_keyword(st, k1, "material"@) {
            Err(e) => Err(e),
            Ok(k2) => match g_string(st, k2) {
                Err(e) => Err(e),
                Ok((path, k3)) => match g_expect(
                    st,
                    k3,
                    KindModel::Semicolon,
                    "expected ';' after material import"@,
                ) {
                    Err(e) => Err(e),
                    Ok(k4) => Ok(
                        (
                            ImportModel {
                                alias: None,
                                path,
                                syntax: MaterialImportSyntax::LegacyAtMaterial,
                            },
                            k4,
                        ),
                    ),
                },
            },
        },
    }
}

/// Reading a statement.
#[verifier::opaque]
pub open spec fn g_statement(st: Stream, k: int) -> Result<(StatementModel, int), ErrorModel> {
    match st.toks[k].kind {
        KindModel::At => match g_legacy_import(st, k) {
            Err(e) => Err(e),
            Ok((i, k1)) => Ok((StatementModel::MaterialImport(i), k1)),
        },
        KindModel::Ident(a) => if a == "use"@ {
            match g_use_import(st, k) {
                Err(e) => Err(e),
                Ok((i, k1)) => Ok((StatementModel::MaterialImport(i), k1)),
            }
        } else {
            Err(error_at(st, k, "expected a material import or edit statement"@))
        },
        KindModel::Plus | KindModel::Minus | KindModel::Caret | KindModel::Question => match g_edit(
            st,
            k,
        ) {
            Err(e) => Err(e),
            Ok((x, k1)) => Ok((StatementModel::Edit(x), k1)),
        },
        _ => Err(error_at(st, k, "expected a material import or edit statement"@)),
    }
}

/// The statements from `k` on, up to the end token.
pub open spec fn g_statements(st: Stream, k: int, acc: Seq<StatementModel>) -> Result<
    (Seq<StatementModel>, int),
    ErrorModel,
>
    decreases st.toks.len() - k,
{
    if !(0 <= k < st.toks.len()) {
        Err(stream_error(st))
    } else if st.toks[k].kind is Eof {
        Ok((acc, k))
    } else {
        match g_statement(st, k) {
            Err(e) => Err(e),
            Ok((x, k1)) => if k < k1 <= st.toks.len() {
                g_statements(st, k1, acc.push(x))
            } else {
                Err(stream_error(st))
            },
        }
    }
}

/// What a token stream spells as a document.
pub open spec fn g_document(st: Stream) -> Result<DocumentModel, ErrorModel> {
    if st.toks.len() == 0 {
        Err(stream_error(st))
    } else {
        match g_keyword(st, 0, "adf"@) {
            Err(e) => Err(e),
            Ok(k1) => match g_u32(st, k1) {
                Err(e) => Err(e),
                Ok((version, k2)) => if !is_supported_version(version) {
                    Err(error_at(st, k2, msg_unsupported_version(version)))
                } else {
                    match g_expect(
                        st,
                        k2,
                        KindModel::Semicolon,
                        "expected ';' after ADF version"@,
                    ) {
                        Err(e) => Err(e),
                        Ok(k3) => match g_statements(st, k3, Seq::empty()) {
                            Err(e) => Err(e),
                            Ok((statements, k4)) => Ok(DocumentModel { version, statements }),
                        },
                    }
                },
            },
        }
    }
}

/// The tokens of a text and the lexical error that stops them, if any.
pub open spec fn text_stream(s: Seq<char>, number: spec_fn(Seq<char>) -> u64) -> Stream {
    Stream { toks: tokens_from(s, 0, number).0, err: tokens_from(s, 0, number).1 }
}

/// What parsing a text gives: all of it is read into tokens first, so a
/// lexical error anywhere comes before any grammatical one.
pub open spec fn text_document(s: Seq<char>, number: spec_fn(Seq<char>) -> u64) -> Result<
    DocumentModel,
    ErrorModel,
> {
    let st = text_stream(s, number);
    match st.err {
        Some(e) => Err(e),
        None => g_document(st),
    }
}

} // verus!
