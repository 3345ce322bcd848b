//! Reading a document from bytes in either form: the form is told by the
//! first four bytes.

use vstd::prelude::*;
use vstd::utf8::{valid_utf8, decode_utf8, valid_first_scalar, pop_first_scalar, length_of_first_scalar};
use crate::binary::{check_binary, parse_binary, utf8_text};
use crate::binary_model::{binary_document, binary_summary};
use crate::checker::check;
use crate::document::{AdfCheckSummary, AdfDocument, AdfEncoding, AdfError, DocumentModel, ErrorModel, summarizes};
use crate::format::{ADFB_MAGIC, magic};
use crate::grammar_model::{g_document, text_document, text_stream};
use crate::lexer::{decoded_by, deterministic};
use crate::parser::parse;

verus! {

/// The form that bytes are in: binary exactly when they start with `ADFB`.
pub open spec fn encoding_of(b: Seq<u8>) -> AdfEncoding {
    if magic().is_prefix_of(b) {
        AdfEncoding::Binary
    } else {
        AdfEncoding::Text
    }
}

/// The text that bytes hold, or the error for bytes that are not UTF-8.
pub open spec fn text_of(b: Seq<u8>) -> Result<Seq<char>, ErrorModel> {
    if valid_utf8(b) {
        Ok(decode_utf8(b))
    } else {
        Err(ErrorModel::Utf8)
    }
}

/// What parsing bytes gives: their form and the document they hold.
pub open spec fn bytes_document(b: Seq<u8>, number: spec_fn(Seq<char>) -> u64) -> Result<
    (AdfEncoding, DocumentModel),
    ErrorModel,
> {
    match encoding_of(b) {
        AdfEncoding::Binary => match binary_document(b) {
            Ok(d) => Ok((AdfEncoding::Binary, d)),
            Err(e) => Err(e),
        },
        AdfEncoding::Text => match text_of(b) {
            Err(e) => Err(e),
            Ok(s) => match text_document(s, number) {
                Ok(d) => Ok((AdfEncoding::Text, d)),
                Err(e) => Err(e),
            },
        },
    }
}

/// A UTF-8 text has no more characters than bytes.
proof fn lemma_decode_len(b: Seq<u8>)
    requires
        valid_utf8(b),
    ensures
        decode_utf8(b).len() <= b.len(),
    decreases b.len(),
{
    if b.len() > 0 {
        assert(valid_first_scalar(b));
        assert(1 <= length_of_first_scalar(b) <= b.len());
        let rest = pop_first_scalar(b);
        assert(rest.len() < b.len());
        lemma_decode_len(rest);
    }
}

/// Tells the form of a document by its first four bytes: `ADFB` for the
/// binary form, anything else for the text form.
pub fn detect_encoding(bytes: &[u8]) -> (r: AdfEncoding)
    ensures
        r == encoding_of(bytes@),
{
    if bytes.len() < ADFB_MAGIC.len() {
        return AdfEncoding::Text;
    }
    let mut i: usize = 0;
    while i < ADFB_MAGIC.len()
        invariant
            ADFB_MAGIC@ == magic(),
            bytes@.len() >= magic().len(),
            i <= magic().len(),
            forall|j: int| 0 <= j < i ==> bytes@[j] == magic()[j],
        decreases magic().len() - i,
    {
        if bytes[i] != ADFB_MAGIC[i] {
            return AdfEncoding::Text;
        }
        i = i + 1;
    }
    AdfEncoding::Binary
}

/// Checks a document in either form, told by its first four bytes; a text
/// must be UTF-8. `number` gives the bits of the binary64 value that a
/// number literal denotes.
pub fn check_bytes<F: Fn(&str) -> u64>(bytes: &[u8], number: &F) -> (r: Result<
    (AdfEncoding, AdfCheckSummary),
    AdfError,
>)
    requires
        bytes@.len() < usize::MAX,
        deterministic(*number),
    ensures
        match encoding_of(bytes@) {
            AdfEncoding::Binary => match binary_summary(bytes@) {
                Ok(s) => r == Ok::<(AdfEncoding, AdfCheckSummary), AdfError>(
                    (AdfEncoding::Binary, s),
                ),
                Err(e) => r matches Err(x) && x@ == e,
            },
            AdfEncoding::Text => match text_of(bytes@) {
                Err(e) => r matches Err(x) && x@ == e,
                Ok(s) => match g_document(text_stream(s, decoded_by(*number))) {
                    Ok(d) => r matches Ok((enc, x)) && enc == AdfEncoding::Text && summarizes(x, d),
                    Err(e) => r matches Err(x) && x@ == e,
                },
            },
        },
{
    match detect_encoding(bytes) {
        AdfEncoding::Text => {
            let text = match utf8_text(bytes) {
                Ok(text) => text,
                Err(e) => {
                    return Err(AdfError::Utf8(e));
                },
            };
            proof {
                lemma_decode_len(bytes@);
            }
            Ok((AdfEncoding::Text, check(text, number)?))
        },
        AdfEncoding::Binary => Ok((AdfEncoding::Binary, check_binary(bytes)?)),
    }
}

/// Parses a document in either form, told by its first four bytes; a text
/// must be UTF-8. `number` gives the bits of the binary64 value that a
/// number literal denotes.
pub fn parse_bytes<F: Fn(&str) -> u64>(bytes: &[u8], number: &F) -> (r: Result<
    (AdfEncoding, AdfDocument),
    AdfError,
>)
    requires
        bytes@.len() < usize::MAX,
        deterministic(*number),
    ensures
        match bytes_document(bytes@, decoded_by(*number)) {
            Ok((enc, d)) => r matches Ok((e2, x)) && e2 == enc && x@ == d,
            Err(e) => r matches Err(x) && x@ == e,
        },
{
    match detect_encoding(bytes) {
        AdfEncoding::Text => {
            let text = match utf8_text(bytes) {
                Ok(text) => text,
                Err(e) => {
                    return Err(AdfError::Utf8(e));
                },
            };
            proof {
                lemma_decode_len(bytes@);
            }
            Ok((AdfEncoding::Text, parse(text, number)?))
        },
        AdfEncoding::Binary => Ok((AdfEncoding::Binary, parse_binary(bytes)?)),
    }
}

} // verus!
