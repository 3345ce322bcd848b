//! Reading, checking and writing ADF scene-edit documents, in their text
//! form and in their binary form.

pub mod binary;
pub mod binary_laws;
pub mod binary_model;
pub mod checker;
pub mod cli;
pub mod describe;
pub mod display;
pub mod document;
pub mod format;
pub mod format_laws;
pub mod grammar_laws;
pub mod grammar_model;
pub mod intro;
pub mod lexer;
pub mod lexer_laws;
pub mod logging;
pub mod numbers;
pub mod parser;
pub mod probe;
pub mod reading;
pub mod tags;
pub mod text_laws;
pub mod text;
pub mod token_model;

pub use binary::{check_binary, encode_binary, parse_binary};
pub use checker::check;
pub use document::{
    AdfCheckSummary, AdfDocument, AdfEncoding, AdfError, AdfStatement, Edit, MaterialImport,
    MaterialImportSyntax, Operation, Property, Value,
};
pub use format::{ADFB_MAGIC, SUPPORTED_ADF_VERSIONS};
pub use parser::parse;
pub use reading::{check_bytes, detect_encoding, parse_bytes};
