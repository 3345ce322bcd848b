//! What holds of the text form and of reading bytes, across functions.

use vstd::prelude::*;
use crate::binary_laws::{binary_check_agrees, binary_roundtrip};
use crate::binary_model::{binary_encoding, binary_summary};
use crate::document::{
    AdfEncoding, DocumentModel, ErrorModel, PropertyModel, StatementModel, ValueModel, summarizes,
};
use crate::format::is_supported_version;
use crate::format::magic;
use crate::grammar_model::{
    Stream, advance, g_document, g_expect, g_ident, g_keyword, g_property, g_property_list,
    g_statement, g_statements, g_trailing_properties, g_u32, g_use_import, g_legacy_import, g_edit,
    g_value, g_vector_items, text_document, text_stream,
};
use crate::grammar_laws::{lemma_property_list_progress, lemma_statement_progress, lemma_value_progress};
use crate::lexer::{lemma_skip_ignored_bounds, lemma_token_advances};
use crate::reading::{bytes_document, encoding_of, text_of};
use crate::token_model::{KindModel, escaped, next_token, skip_ignored, string_rest, tokens_from};

verus! {

/// Tokens cut short by a lexical error hold no end token.
proof fn lemma_no_end_before_error(s: Seq<char>, i: int, dec: spec_fn(Seq<char>) -> u64)
    requires
        0 <= i <= s.len(),
    ensures
        tokens_from(s, i, dec).1 is Some ==> forall|j: int|
            0 <= j < tokens_from(s, i, dec).0.len() ==> !(#[trigger] tokens_from(
                s,
                i,
                dec,
            ).0[j].kind is Eof),
    decreases s.len() - i,
{
    lemma_token_advances(s, i, dec);
    if let Ok((t, k)) = next_token(s, i, dec) {
        if !(t.kind is Eof) && i < k <= s.len() {
            lemma_no_end_before_error(s, k, dec);
            let rest = tokens_from(s, k, dec).0;
            assert forall|j: int| 0 < j < 1 + rest.len() implies (seq![t] + rest)[j] == rest[j
                - 1] by {}
        }
    }
}

/// The statements of a document end on the end token.
proof fn lemma_statements_end(st: Stream, k: int, acc: Seq<StatementModel>)
    requires
        0 <= k,
    ensures
        g_statements(st, k, acc) matches Ok((xs, k1)) ==> 0 <= k1 < st.toks.len()
            && st.toks[k1].kind is Eof,
    decreases st.toks.len() - k,
{
    if 0 <= k < st.toks.len() && !(st.toks[k].kind is Eof) {
        lemma_statement_progress(st, k);
        if let Ok((x, k1)) = g_statement(st, k) {
            if k < k1 <= st.toks.len() {
                lemma_statements_end(st, k1, acc.push(x));
            }
        }
    }
}

/// Checking a text and parsing it agree wherever either succeeds: a text
/// parses to a document exactly when it checks as that document, and then
/// a check's summary reports that document's version and counts. (They may
/// differ in which error they report: parsing reads every token first,
/// while checking stops at the first grammatical error.)
pub proof fn check_agrees_with_parse(s: Seq<char>, number: spec_fn(Seq<char>) -> u64)
    ensures
        text_document(s, number) matches Ok(d) ==> g_document(text_stream(s, number)) == Ok::<
            DocumentModel,
            ErrorModel,
        >(d),
        g_document(text_stream(s, number)) matches Ok(d) ==> text_document(s, number) == Ok::<
            DocumentModel,
            ErrorModel,
        >(d),
{
    let st = text_stream(s, number);
    lemma_no_end_before_error(s, 0, number);
    if st.toks.len() > 0 {
        if let Ok(k1) = g_keyword(st, 0, "adf"@) {
            if let Ok((version, k2)) = g_u32(st, k1) {
                if let Ok(k3) = g_expect(st, k2, KindModel::Semicolon, "expected ';' after ADF version"@) {
                    lemma_statements_end(st, k3, Seq::empty());
                }
            }
        }
    }
}

/// Bytes written in the binary form read back, through the byte-level entry
/// point, as the binary form and the same document; and they check as a
/// summary of that document.
pub proof fn bytes_roundtrip(d: DocumentModel, number: spec_fn(Seq<char>) -> u64)
    requires
        binary_encoding(d) is Ok,
        binary_encoding(d)->Ok_0.len() <= usize::MAX,
    ensures
        encoding_of(binary_encoding(d)->Ok_0) == AdfEncoding::Binary,
        bytes_document(binary_encoding(d)->Ok_0, number) == Ok::<
            (AdfEncoding, DocumentModel),
            ErrorModel,
        >((AdfEncoding::Binary, d)),
        binary_summary(binary_encoding(d)->Ok_0) matches Ok(x) && summarizes(x, d),
{
    let b = binary_encoding(d)->Ok_0;
    assert(b.subrange(0, 4) =~= magic());
    binary_roundtrip(d);
    binary_check_agrees(b);
}

/// Checking bytes agrees with parsing them: where bytes parse, in either
/// form, they also check, and the check reports the parsed document.
pub proof fn bytes_check_agrees(b: Seq<u8>, number: spec_fn(Seq<char>) -> u64)
    requires
        bytes_document(b, number) is Ok,
    ensures
        bytes_document(b, number)->Ok_0.0 == encoding_of(b),
        encoding_of(b) == AdfEncoding::Binary ==> (binary_summary(b) matches Ok(x) && summarizes(
            x,
            bytes_document(b, number)->Ok_0.1,
        )),
        encoding_of(b) == AdfEncoding::Text ==> (text_of(b) matches Ok(t) && g_document(
            text_stream(t, number),
        ) == Ok::<DocumentModel, ErrorModel>(bytes_document(b, number)->Ok_0.1)),
{
    if encoding_of(b) == AdfEncoding::Binary {
        binary_check_agrees(b);
    } else if let Ok(t) = text_of(b) {
        check_agrees_with_parse(t, number);
    }
}

// ------------------------------------------------ what the errors can be

/// Whether a lexical error, if a stream has one, is a text-form error.
pub open spec fn parse_errors_only(st: Stream) -> bool {
    st.err matches Some(e) ==> e is Parse
}

proof fn lemma_string_rest_errs(s: Seq<char>, k: int, acc: Seq<char>, start: int)
    ensures
        string_rest(s, k, acc, start) matches Err(e) ==> e is Parse,
    decreases s.len() - k,
{
    if 0 <= k < s.len() && s[k] != '"' {
        if s[k] == '\\' {
            if k + 1 < s.len() {
                if let Some(c) = escaped(s[k + 1]) {
                    lemma_string_rest_errs(s, k + 2, acc.push(c), start);
                }
            }
        } else {
            lemma_string_rest_errs(s, k + 1, acc.push(s[k]), start);
        }
    }
}

proof fn lemma_tokens_errs(s: Seq<char>, i: int, dec: spec_fn(Seq<char>) -> u64)
    requires
        0 <= i <= s.len(),
    ensures
        tokens_from(s, i, dec).1 matches Some(e) ==> e is Parse,
    decreases s.len() - i,
{
    lemma_token_advances(s, i, dec);
    lemma_skip_ignored_bounds(s, i);
    lemma_string_rest_errs(s, skip_ignored(s, i) + 1, Seq::empty(), skip_ignored(s, i));
    if let Ok((t, k)) = next_token(s, i, dec) {
        if !(t.kind is Eof) && i < k <= s.len() {
            lemma_tokens_errs(s, k, dec);
        }
    }
}

proof fn lemma_value_errs(st: Stream, k: int)
    requires
        parse_errors_only(st),
        0 <= k < st.toks.len(),
    ensures
        g_value(st, k) matches Err(e) ==> e is Parse,
    decreases st.toks.len() - k, 0int,
{
    if let Ok(k1) = advance(st, k) {
        lemma_items_errs(st, k1, Seq::empty());
    }
}

proof fn lemma_items_errs(st: Stream, k: int, acc: Seq<ValueModel>)
    requires
        parse_errors_only(st),
        0 <= k,
    ensures
        g_vector_items(st, k, acc) matches Err(e) ==> e is Parse,
    decreases st.toks.len() - k, 1int,
{
    if 0 <= k < st.toks.len() {
        if let Ok(k1) = advance(st, k) {
            lemma_items_errs(st, k1, acc);
        }
        lemma_value_errs(st, k);
        lemma_value_progress(st, k);
        if let Ok((v, k1)) = g_value(st, k) {
            lemma_items_errs(st, k1, acc.push(v));
        }
    }
}

proof fn lemma_property_errs(st: Stream, k: int, require_colon: bool)
    requires
        parse_errors_only(st),
        0 <= k < st.toks.len(),
    ensures
        g_property(st, k, require_colon) matches Err(e) ==> e is Parse,
{
    reveal(g_property);
    if let Ok((key, k1)) = g_ident(st, k) {
        if let Ok(k2) = advance(st, k1) {
            lemma_value_errs(st, k2);
        }
        lemma_value_errs(st, k1);
    }
}

proof fn lemma_property_list_errs(st: Stream, k: int, acc: Seq<PropertyModel>)
    requires
        parse_errors_only(st),
        0 <= k,
    ensures
        g_property_list(st, k, acc) matches Err(e) ==> e is Parse,
    decreases st.toks.len() - k,
{
    if 0 <= k < st.toks.len() {
        if let Ok(k1) = advance(st, k) {
            lemma_property_list_errs(st, k1, acc);
        }
        lemma_property_errs(st, k, true);
        if let Ok((p, k1)) = g_property(st, k, true) {
            if k < k1 <= st.toks.len() {
                lemma_property_list_errs(st, k1, acc.push(p));
            }
        }
    }
}

proof fn lemma_trailing_errs(st: Stream, k: int, acc: Seq<PropertyModel>)
    requires
        parse_errors_only(st),
        0 <= k,
    ensures
        g_trailing_properties(st, k, acc) matches Err(e) ==> e is Parse,
    decreases st.toks.len() - k,
{
    if 0 <= k < st.toks.len() {
        if let Ok(k1) = advance(st, k) {
            lemma_trailing_errs(st, k1, acc);
        }
        lemma_property_errs(st, k, false);
        if let Ok((p, k1)) = g_property(st, k, false) {
            if k < k1 <= st.toks.len() {
                lemma_trailing_errs(st, k1, acc.push(p));
            }
        }
    }
}

proof fn lemma_statement_errs(st: Stream, k: int)
    requires
        parse_errors_only(st),
        0 <= k < st.toks.len(),
    ensures
        g_statement(st, k) matches Err(e) ==> e is Parse,
{
    reveal(g_statement);
    reveal(g_use_import);
    reveal(g_legacy_import);
    reveal(g_edit);
    if let Ok(k1) = advance(st, k) {
        if let Ok((primitive, k2)) = g_ident(st, k1) {
            if let Ok(k3) = advance(st, k2) {
                lemma_property_list_errs(st, k3, Seq::empty());
                lemma_property_list_progress(st, k3, Seq::empty());
                if let Ok((inner, k4)) = g_property_list(st, k3, Seq::empty()) {
                    if let Ok(k5) = advance(st, k4) {
                        lemma_trailing_errs(st, k5, inner);
                    }
                }
            }
        }
    }
}

proof fn lemma_statements_errs(st: Stream, k: int, acc: Seq<StatementModel>)
    requires
        parse_errors_only(st),
        0 <= k,
    ensures
        g_statements(st, k, acc) matches Err(e) ==> e is Parse,
    decreases st.toks.len() - k,
{
    if 0 <= k < st.toks.len() && !(st.toks[k].kind is Eof) {
        lemma_statement_errs(st, k);
        if let Ok((x, k1)) = g_statement(st, k) {
            if k < k1 <= st.toks.len() {
                lemma_statements_errs(st, k1, acc.push(x));
            }
        }
    }
}

proof fn lemma_document_errs(st: Stream)
    requires
        parse_errors_only(st),
    ensures
        g_document(st) matches Err(e) ==> e is Parse,
        g_document(st) matches Ok(d) ==> is_supported_version(d.version) && st.toks.len() > 0
            && st.toks[0].kind == KindModel::Ident("adf"@),
{
    if st.toks.len() > 0 {
        if let Ok(k1) = g_keyword(st, 0, "adf"@) {
            if let Ok((version, k2)) = g_u32(st, k1) {
                if let Ok(k3) = g_expect(
                    st,
                    k2,
                    KindModel::Semicolon,
                    "expected ';' after ADF version"@,
                ) {
                    lemma_statements_errs(st, k3, Seq::empty());
                }
            }
        }
    }
}

/// What parsing and checking a text can give: a document whose version is
/// one this library reads, from a text that opens with the keyword `adf`;
/// or a text-form error, never one of another kind. So where both fail,
/// both failures are text-form errors.
pub proof fn text_outcomes(s: Seq<char>, number: spec_fn(Seq<char>) -> u64)
    ensures
        text_document(s, number) matches Ok(d) ==> is_supported_version(d.version),
        text_document(s, number) matches Err(e) ==> e is Parse,
        g_document(text_stream(s, number)) matches Ok(d) ==> is_supported_version(d.version)
            && text_stream(s, number).toks.len() > 0 && text_stream(s, number).toks[0].kind
            == KindModel::Ident("adf"@),
        g_document(text_stream(s, number)) matches Err(e) ==> e is Parse,
{
    lemma_tokens_errs(s, 0, number);
    lemma_document_errs(text_stream(s, number));
}

} // verus!
