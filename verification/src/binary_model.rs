//! What the binary form (`ADFB`) means: the bytes that a document is written
//! as, and what reading a byte string gives, error messages included.
//!
//! Layout: the magic `ADFB`, the version (`u32`), the statement count
//! (`u32`), then the statements. Integers are little-endian; a string is its
//! UTF-8 length (`u32`) followed by its UTF-8 bytes; a tagged name is a
//! one-byte tag, or the tag 0 followed by the name as a string.

use vstd::prelude::*;
use vstd::utf8::{encode_utf8, valid_utf8, decode_utf8};
use crate::document::{
    DocumentModel, EditModel, ErrorModel, ImportModel, MaterialImportSyntax, Operation,
    PropertyModel, StatementModel, ValueModel, AdfCheckSummary,
};
use crate::format::{
    is_supported_version, magic, msg_bad_magic, msg_cannot_encode_version, msg_invalid_byte,
    msg_offset_overflow, msg_too_long, msg_trailing, msg_unexpected_end, msg_unknown_tag,
    msg_unsupported_version,
};
use crate::tags::{NameTable, table_name, table_tag, table_word};

verus! {

/// The little-endian value of the four bytes at `p`.
pub open spec fn le32(b: Seq<u8>, p: int) -> nat {
    (b[p] + 256 * b[p + 1] + 65536 * b[p + 2] + 16777216 * b[p + 3]) as nat
}

/// The little-endian value of the eight bytes at `p`.
pub open spec fn le64(b: Seq<u8>, p: int) -> nat {
    (le32(b, p) + 4294967296 * le32(b, p + 4)) as nat
}

/// The four little-endian bytes of `x`.
pub open spec fn u32_bytes(x: u32) -> Seq<u8> {
    seq![
        (x % 256) as u8,
        ((x / 256) % 256) as u8,
        ((x / 65536) % 256) as u8,
        ((x / 16777216) % 256) as u8,
    ]
}

/// The eight little-endian bytes of `x`.
pub open spec fn u64_bytes(x: u64) -> Seq<u8> {
    u32_bytes((x % 4294967296) as u32) + u32_bytes((x / 4294967296) as u32)
}

// ---------------------------------------------------------------- reading

/// Taking `n` bytes at `p`: the position after them, or why they are not there.
pub open spec fn rd_exact(b: Seq<u8>, p: int, n: int) -> Result<int, ErrorModel> {
    if p + n > usize::MAX {
        Err(ErrorModel::Binary(msg_offset_overflow()))
    } else if p + n > b.len() {
        Err(ErrorModel::Binary(msg_unexpected_end(p as nat, (p + n - b.len()) as nat)))
    } else {
        Ok(p + n)
    }
}

/// Reading one byte.
pub open spec fn rd_u8(b: Seq<u8>, p: int) -> Result<(u8, int), ErrorModel> {
    match rd_exact(b, p, 1) {
        Ok(q) => Ok((b[p], q)),
        Err(e) => Err(e),
    }
}

/// Reading a little-endian `u32`.
pub open spec fn rd_u32(b: Seq<u8>, p: int) -> Result<(u32, int), ErrorModel> {
    match rd_exact(b, p, 4) {
        Ok(q) => Ok((le32(b, p) as u32, q)),
        Err(e) => Err(e),
    }
}

/// Reading a little-endian `u64`.
pub open spec fn rd_u64(b: Seq<u8>, p: int) -> Result<(u64, int), ErrorModel> {
    match rd_exact(b, p, 8) {
        Ok(q) => Ok((le64(b, p) as u64, q)),
        Err(e) => Err(e),
    }
}

/// A length-prefixed byte string at `p`: where its bytes start and end.
pub open spec fn rd_chunk(b: Seq<u8>, p: int) -> Result<(int, int), ErrorModel> {
    match rd_u32(b, p) {
        Err(e) => Err(e),
        Ok((n, q)) => match rd_exact(b, q, n as int) {
            Err(e) => Err(e),
            Ok(r) => Ok((q, r)),
        },
    }
}

/// A string at `p`: its characters, if its bytes are valid UTF-8.
pub open spec fn rd_string(b: Seq<u8>, p: int) -> Result<(Seq<char>, int), ErrorModel> {
    match rd_chunk(b, p) {
        Err(e) => Err(e),
        Ok((q, r)) => if valid_utf8(b.subrange(q, r)) {
            Ok((decode_utf8(b.subrange(q, r)), r))
        } else {
            Err(ErrorModel::Utf8)
        },
    }
}

/// Skipping a length-prefixed string without decoding it.
pub open spec fn sk_string(b: Seq<u8>, p: int) -> Result<int, ErrorModel> {
    match rd_chunk(b, p) {
        Err(e) => Err(e),
        Ok((q, r)) => Ok(r),
    }
}

/// Reading a name: a tag from the table, or the custom tag and the name spelled out.
#[verifier::opaque]
pub open spec fn rd_tagged_name(b: Seq<u8>, p: int, table: NameTable) -> Result<
    (Seq<char>, int),
    ErrorModel,
> {
    match rd_u8(b, p) {
        Err(e) => Err(e),
        Ok((t, q)) => if t == 0 {
            rd_string(b, q)
        } else {
            match table_name(table, t) {
                Some(n) => Ok((n, q)),
                None => Err(ErrorModel::Binary(msg_unknown_tag(table_word(table), t, p as nat))),
            }
        },
    }
}

/// Skipping a name.
#[verifier::opaque]
pub open spec fn sk_tagged_name(b: Seq<u8>, p: int, table: NameTable) -> Result<int, ErrorModel> {
    match rd_u8(b, p) {
        Err(e) => Err(e),
        Ok((t, q)) => if t == 0 {
            sk_string(b, q)
        } else {
            match table_name(table, t) {
                Some(n) => Ok(q),
                None => Err(ErrorModel::Binary(msg_unknown_tag(table_word(table), t, p as nat))),
            }
        },
    }
}

/// Reading a value: its kind tag, then what that kind holds.
pub open spec fn rd_value(b: Seq<u8>, p: int) -> Result<(ValueModel, int), ErrorModel>
    decreases b.len() - p, 0int,
{
    match rd_u8(b, p) {
        Err(e) => Err(e),
        Ok((t, q)) => if t == 0 {
            match rd_u64(b, q) {
                Err(e) => Err(e),
                Ok((x, r)) => Ok((ValueModel::Number(x), r)),
            }
        } else if t == 1 {
            match rd_string(b, q) {
                Err(e) => Err(e),
                Ok((s, r)) => Ok((ValueModel::Str(s), r)),
            }
        } else if t == 2 {
            match rd_string(b, q) {
                Err(e) => Err(e),
                Ok((s, r)) => Ok((ValueModel::Ident(s), r)),
            }
        } else if t == 3 {
            match rd_u8(b, q) {
                Err(e) => Err(e),
                Ok((f, r)) => if f == 0 {
                    Ok((ValueModel::Bool(false), r))
                } else if f == 1 {
                    Ok((ValueModel::Bool(true), r))
                } else {
                    Err(ErrorModel::Binary(msg_invalid_byte("boolean value"@, f, q as nat)))
                },
            }
        } else if t == 4 {
            match rd_u32(b, q) {
                Err(e) => Err(e),
                Ok((n, r)) => match rd_values(b, r, n as nat) {
                    Err(e) => Err(e),
                    Ok((vs, s)) => Ok((ValueModel::Vector(vs), s)),
                },
            }
        } else {
            Err(ErrorModel::Binary(msg_unknown_tag("value"@, t, p as nat)))
        },
    }
}

/// `n` values, one after another, from `p`.
pub open spec fn rd_values(b: Seq<u8>, p: int, n: nat) -> Result<(Seq<ValueModel>, int), ErrorModel>
    decreases b.len() - p, 1int,
{
    if n == 0 {
        Ok((Seq::empty(), p))
    } else {
        match rd_value(b, p) {
            Err(e) => Err(e),
            Ok((v, q)) => if p < q <= b.len() {
                match rd_values(b, q, (n - 1) as nat) {
                    Err(e) => Err(e),
                    Ok((vs, r)) => Ok((seq![v] + vs, r)),
                }
            } else {
                // never taken: every value takes at least one byte
                Err(ErrorModel::Binary(msg_offset_overflow()))
            },
        }
    }
}

/// Skipping a value.
pub open spec fn sk_value(b: Seq<u8>, p: int) -> Result<int, ErrorModel>
    decreases b.len() - p, 0int,
{
    match rd_u8(b, p) {
        Err(e) => Err(e),
        Ok((t, q)) => if t == 0 {
            match rd_u64(b, q) {
                Err(e) => Err(e),
                Ok((x, r)) => Ok(r),
            }
        } else if t == 1 || t == 2 {
            sk_string(b, q)
        } else if t == 3 {
            match rd_u8(b, q) {
                Err(e) => Err(e),
                Ok((f, r)) => if f == 0 || f == 1 {
                    Ok(r)
                } else {
                    Err(ErrorModel::Binary(msg_invalid_byte("boolean value"@, f, q as nat)))
                },
            }
        } else if t == 4 {
            match rd_u32(b, q) {
                Err(e) => Err(e),
                Ok((n, r)) => sk_values(b, r, n as nat),
            }
        } else {
            Err(ErrorModel::Binary(msg_unknown_tag("value"@, t, p as nat)))
        },
    }
}

/// Skipping `n` values.
pub open spec fn sk_values(b: Seq<u8>, p: int, n: nat) -> Result<int, ErrorModel>
    decreases b.len() - p, 1int,
{
    if n == 0 {
        Ok(p)
    } else {
        match sk_value(b, p) {
            Err(e) => Err(e),
            Ok(q) => if p < q <= b.len() {
                sk_values(b, q, (n - 1) as nat)
            } else {
                // never taken: every value takes at least one byte
                Err(ErrorModel::Binary(msg_offset_overflow()))
            },
        }
    }
}

/// Reading a property: its name, then its value.
pub open spec fn rd_property(b: Seq<u8>, p: int) -> Result<(PropertyModel, int), ErrorModel> {
    match rd_tagged_name(b, p, NameTable::Property) {
        Err(e) => Err(e),
        Ok((key, q)) => match rd_value(b, q) {
            Err(e) => Err(e),
            Ok((value, r)) => Ok((PropertyModel { key, value }, r)),
        },
    }
}

/// Reading `n` properties.
pub open spec fn rd_properties(b: Seq<u8>, p: int, n: nat) -> Result<
    (Seq<PropertyModel>, int),
    ErrorModel,
>
    decreases n,
{
    if n == 0 {
        Ok((Seq::empty(), p))
    } else {
        match rd_property(b, p) {
            Err(e) => Err(e),
            Ok((x, q)) => match rd_properties(b, q, (n - 1) as nat) {
                Err(e) => Err(e),
                Ok((xs, r)) => Ok((seq![x] + xs, r)),
            },
        }
    }
}

/// Skipping `n` properties.
pub open spec fn sk_properties(b: Seq<u8>, p: int, n: nat) -> Result<int, ErrorModel>
    decreases n,
{
    if n == 0 {
        Ok(p)
    } else {
        match sk_tagged_name(b, p, NameTable::Property) {
            Err(e) => Err(e),
            Ok(q) => match sk_value(b, q) {
                Err(e) => Err(e),
                Ok(r) => sk_properties(b, r, (n - 1) as nat),
            },
        }
    }
}

/// The operation that a tag byte stands for.
pub open spec fn operation_of_tag(t: u8) -> Option<Operation> {
    if t == 0 {
        Some(Operation::Union)
    } else if t == 1 {
        Some(Operation::Difference)
    } else if t == 2 {
        Some(Operation::Intersection)
    } else if t == 3 {
        Some(Operation::Paint)
    } else {
        None
    }
}

/// The tag byte of an operation.
pub open spec fn operation_tag(op: Operation) -> u8 {
    match op {
        Operation::Union => 0,
        Operation::Difference => 1,
        Operation::Intersection => 2,
        Operation::Paint => 3,
    }
}

/// The import syntax that a tag byte stands for.
pub open spec fn syntax_of_tag(t: u8) -> Option<MaterialImportSyntax> {
    if t == 0 {
        Some(MaterialImportSyntax::Use)
    } else if t == 1 {
        Some(MaterialImportSyntax::LegacyAtMaterial)
    } else {
        None
    }
}

/// The tag byte of an import syntax.
pub open spec fn syntax_tag(s: MaterialImportSyntax) -> u8 {
    match s {
        MaterialImportSyntax::Use => 0,
        MaterialImportSyntax::LegacyAtMaterial => 1,
    }
}

/// Reading an edit: operation, primitive, and its properties.
#[verifier::opaque]
pub open spec fn rd_edit(b: Seq<u8>, p: int) -> Result<(EditModel, int), ErrorModel> {
    match rd_u8(b, p) {
        Err(e) => Err(e),
        Ok((t, q)) => match operation_of_tag(t) {
            None => Err(ErrorModel::Binary(msg_unknown_tag("operation"@, t, p as nat))),
            Some(operation) => match rd_tagged_name(b, q, NameTable::Primitive) {
                Err(e) => Err(e),
                Ok((primitive, r)) => match rd_u32(b, r) {
                    Err(e) => Err(e),
                    Ok((n, s)) => match rd_properties(b, s, n as nat) {
                        Err(e) => Err(e),
                        Ok((properties, u)) => Ok((EditModel { operation, primitive, properties }, u)),
                    },
                },
            },
        },
    }
}

/// Skipping an edit.
#[verifier::opaque]
pub open spec fn sk_edit(b: Seq<u8>, p: int) -> Result<int, ErrorModel> {
    match rd_u8(b, p) {
        Err(e) => Err(e),
        Ok((t, q)) => if t > 3 {
            Err(ErrorModel::Binary(msg_unknown_tag("operation"@, t, p as nat)))
        } else {
            match sk_tagged_name(b, q, NameTable::Primitive) {
                Err(e) => Err(e),
                Ok(r) => match rd_u32(b, r) {
                    Err(e) => Err(e),
                    Ok((n, s)) => sk_properties(b, s, n as nat),
                },
            }
        },
    }
}

/// Reading a material import: syntax, optional alias, path.
#[verifier::opaque]
pub open spec fn rd_import(b: Seq<u8>, p: int) -> Result<(ImportModel, int), ErrorModel> {
    match rd_u8(b, p) {
        Err(e) => Err(e),
        Ok((t, q)) => match syntax_of_tag(t) {
            None => Err(
                ErrorModel::Binary(msg_unknown_tag("material import syntax"@, t, p as nat)),
            ),
            Some(syntax) => match rd_u8(b, q) {
                Err(e) => Err(e),
                Ok((f, r)) => {
                    let alias: Result<(Option<Seq<char>>, int), ErrorModel> = if f == 0 {
                        Ok((None, r))
                    } else if f == 1 {
                        match rd_string(b, r) {
                            Err(e) => Err(e),
                            Ok((a, s)) => Ok((Some(a), s)),
                        }
                    } else {
                        Err(ErrorModel::Binary(msg_invalid_byte("alias flag"@, f, q as nat)))
                    };
                    match alias {
                        Err(e) => Err(e),
                        Ok((alias, s)) => match rd_string(b, s) {
                            Err(e) => Err(e),
                            Ok((path, u)) => Ok((ImportModel { alias, path, syntax }, u)),
                        },
                    }
                },
            },
        },
    }
}

/// Skipping a material import.
#[verifier::opaque]
pub open spec fn sk_import(b: Seq<u8>, p: int) -> Result<int, ErrorModel> {
    match rd_u8(b, p) {
        Err(e) => Err(e),
        Ok((t, q)) => if t > 1 {
            Err(ErrorModel::Binary(msg_unknown_tag("material import syntax"@, t, p as nat)))
        } else {
            match rd_u8(b, q) {
                Err(e) => Err(e),
                Ok((f, r)) => {
                    let after_alias: Result<int, ErrorModel> = if f == 0 {
                        Ok(r)
                    } else if f == 1 {
                        sk_string(b, r)
                    } else {
                        Err(ErrorModel::Binary(msg_invalid_byte("alias flag"@, f, q as nat)))
                    };
                    match after_alias {
                        Err(e) => Err(e),
                        Ok(s) => sk_string(b, s),
                    }
                },
            }
        },
    }
}

/// Reading a statement: its kind tag, then an import or an edit.
#[verifier::opaque]
pub open spec fn rd_statement(b: Seq<u8>, p: int) -> Result<(StatementModel, int), ErrorModel> {
    match rd_u8(b, p) {
        Err(e) => Err(e),
        Ok((t, q)) => if t == 0 {
            match rd_import(b, q) {
                Err(e) => Err(e),
                Ok((i, r)) => Ok((StatementModel::MaterialImport(i), r)),
            }
        } else if t == 1 {
            match rd_edit(b, q) {
                Err(e) => Err(e),
                Ok((x, r)) => Ok((StatementModel::Edit(x), r)),
            }
        } else {
            Err(ErrorModel::Binary(msg_unknown_tag("ADFB statement"@, t, p as nat)))
        },
    }
}

/// Reading `n` statements.
pub open spec fn rd_statements(b: Seq<u8>, p: int, n: nat) -> Result<
    (Seq<StatementModel>, int),
    ErrorModel,
>
    decreases n,
{
    if n == 0 {
        Ok((Seq::empty(), p))
    } else {
        match rd_statement(b, p) {
            Err(e) => Err(e),
            Ok((x, q)) => match rd_statements(b, q, (n - 1) as nat) {
                Err(e) => Err(e),
                Ok((xs, r)) => Ok((seq![x] + xs, r)),
            },
        }
    }
}

/// Skipping `n` statements: how many were imports and how many edits.
pub open spec fn sk_statements(b: Seq<u8>, p: int, n: nat) -> Result<(nat, nat, int), ErrorModel>
    decreases n,
{
    if n == 0 {
        Ok((0, 0, p))
    } else {
        match rd_u8(b, p) {
            Err(e) => Err(e),
            Ok((t, q)) => if t == 0 {
                match sk_import(b, q) {
                    Err(e) => Err(e),
                    Ok(r) => match sk_statements(b, r, (n - 1) as nat) {
                        Err(e) => Err(e),
                        Ok((i, x, s)) => Ok((i + 1, x, s)),
                    },
                }
            } else if t == 1 {
                match sk_edit(b, q) {
                    Err(e) => Err(e),
                    Ok(r) => match sk_statements(b, r, (n - 1) as nat) {
                        Err(e) => Err(e),
                        Ok((i, x, s)) => Ok((i, x + 1, s)),
                    },
                }
            } else {
                Err(ErrorModel::Binary(msg_unknown_tag("ADFB statement"@, t, p as nat)))
            },
        }
    }
}

/// The header: the version and the statement count, and where the
/// statements start.
pub open spec fn rd_header(b: Seq<u8>) -> Result<(u32, u32, int), ErrorModel> {
    match rd_exact(b, 0, 4) {
        Err(e) => Err(e),
        Ok(q) => if b.subrange(0, 4) != magic() {
            Err(ErrorModel::Binary(msg_bad_magic(b.subrange(0, 4))))
        } else {
            match rd_u32(b, q) {
                Err(e) => Err(e),
                Ok((version, r)) => if !is_supported_version(version) {
                    Err(ErrorModel::Binary(msg_unsupported_version(version)))
                } else {
                    match rd_u32(b, r) {
                        Err(e) => Err(e),
                        Ok((n, s)) => Ok((version, n, s)),
                    }
                },
            }
        },
    }
}

/// Whether reading stopped exactly at the end of the input.
pub open spec fn rd_end(b: Seq<u8>, p: int) -> Result<(), ErrorModel> {
    if p == b.len() {
        Ok(())
    } else {
        Err(ErrorModel::Binary(msg_trailing((b.len() - p) as nat)))
    }
}

/// What reading a whole binary document gives.
pub open spec fn binary_document(b: Seq<u8>) -> Result<DocumentModel, ErrorModel> {
    match rd_header(b) {
        Err(e) => Err(e),
        Ok((version, n, p)) => match rd_statements(b, p, n as nat) {
            Err(e) => Err(e),
            Ok((statements, q)) => match rd_end(b, q) {
                Err(e) => Err(e),
                Ok(_) => Ok(DocumentModel { version, statements }),
            },
        },
    }
}

/// What checking a whole binary document gives.
pub open spec fn binary_summary(b: Seq<u8>) -> Result<AdfCheckSummary, ErrorModel> {
    match rd_header(b) {
        Err(e) => Err(e),
        Ok((version, n, p)) => match sk_statements(b, p, n as nat) {
            Err(e) => Err(e),
            Ok((imports, edits, q)) => match rd_end(b, q) {
                Err(e) => Err(e),
                Ok(_) => Ok(
                    AdfCheckSummary {
                        version,
                        material_imports: imports as usize,
                        edits: edits as usize,
                    },
                ),
            },
        },
    }
}

// ---------------------------------------------------------------- writing

/// A length as written: four bytes, or the error when it does not fit.
pub open spec fn wr_len(n: nat, what: Seq<char>) -> Result<Seq<u8>, ErrorModel> {
    if n > u32::MAX {
        Err(ErrorModel::Binary(msg_too_long(what)))
    } else {
        Ok(u32_bytes(n as u32))
    }
}

/// Writing a string: its length in bytes, then its UTF-8.
pub open spec fn wr_string(s: Seq<char>) -> Result<Seq<u8>, ErrorModel> {
    match wr_len(encode_utf8(s).len(), "string length"@) {
        Err(e) => Err(e),
        Ok(l) => Ok(l + encode_utf8(s)),
    }
}

/// Writing a name: its tag if the table has one, else the custom tag and the name.
#[verifier::opaque]
pub open spec fn wr_tagged_name(name: Seq<char>, table: NameTable) -> Result<Seq<u8>, ErrorModel> {
    match table_tag(table, name) {
        Some(t) => Ok(seq![t]),
        None => match wr_string(name) {
            Err(e) => Err(e),
            Ok(x) => Ok(seq![0u8] + x),
        },
    }
}

/// Writing a value.
#[verifier::opaque]
pub open spec fn wr_value(v: ValueModel) -> Result<Seq<u8>, ErrorModel>
    decreases v,
{
    match v {
        ValueModel::Number(x) => Ok(seq![0u8] + u64_bytes(x)),
        ValueModel::Str(s) => match wr_string(s) {
            Err(e) => Err(e),
            Ok(x) => Ok(seq![1u8] + x),
        },
        ValueModel::Ident(s) => match wr_string(s) {
            Err(e) => Err(e),
            Ok(x) => Ok(seq![2u8] + x),
        },
        ValueModel::Bool(f) => Ok(seq![3u8, if f { 1u8 } else { 0u8 }]),
        ValueModel::Vector(vs) => match wr_len(vs.len(), "vector length"@) {
            Err(e) => Err(e),
            Ok(l) => match wr_values(vs) {
                Err(e) => Err(e),
                Ok(x) => Ok(seq![4u8] + l + x),
            },
        },
    }
}

/// Writing values one after another.
pub open spec fn wr_values(vs: Seq<ValueModel>) -> Result<Seq<u8>, ErrorModel>
    decreases vs,
{
    if vs.len() == 0 {
        Ok(Seq::empty())
    } else {
        match wr_value(vs[0]) {
            Err(e) => Err(e),
            Ok(x) => match wr_values(vs.drop_first()) {
                Err(e) => Err(e),
                Ok(y) => Ok(x + y),
            },
        }
    }
}

/// Writing a property.
#[verifier::opaque]
pub open spec fn wr_property(p: PropertyModel) -> Result<Seq<u8>, ErrorModel> {
    match wr_tagged_name(p.key, NameTable::Property) {
        Err(e) => Err(e),
        Ok(x) => match wr_value(p.value) {
            Err(e) => Err(e),
            Ok(y) => Ok(x + y),
        },
    }
}

/// Writing properties one after another.
pub open spec fn wr_properties(ps: Seq<PropertyModel>) -> Result<Seq<u8>, ErrorModel>
    decreases ps.len(),
{
    if ps.len() == 0 {
        Ok(Seq::empty())
    } else {
        match wr_property(ps[0]) {
            Err(e) => Err(e),
            Ok(x) => match wr_properties(ps.drop_first()) {
                Err(e) => Err(e),
                Ok(y) => Ok(x + y),
            },
        }
    }
}

/// Writing an edit.
#[verifier::opaque]
pub open spec fn wr_edit(e: EditModel) -> Result<Seq<u8>, ErrorModel> {
    match wr_tagged_name(e.primitive, NameTable::Primitive) {
        Err(err) => Err(err),
        Ok(x) => match wr_len(e.properties.len(), "property count"@) {
            Err(err) => Err(err),
            Ok(l) => match wr_properties(e.properties) {
                Err(err) => Err(err),
                Ok(y) => Ok(seq![operation_tag(e.operation)] + x + l + y),
            },
        },
    }
}

/// Writing a material import.
#[verifier::opaque]
pub open spec fn wr_import(i: ImportModel) -> Result<Seq<u8>, ErrorModel> {
    let alias: Result<Seq<u8>, ErrorModel> = match i.alias {
        Some(a) => match wr_string(a) {
            Err(e) => Err(e),
            Ok(x) => Ok(seq![1u8] + x),
        },
        None => Ok(seq![0u8]),
    };
    match alias {
        Err(e) => Err(e),
        Ok(x) => match wr_string(i.path) {
            Err(e) => Err(e),
            Ok(y) => Ok(seq![syntax_tag(i.syntax)] + x + y),
        },
    }
}

/// Writing a statement.
#[verifier::opaque]
pub open spec fn wr_statement(s: StatementModel) -> Result<Seq<u8>, ErrorModel> {
    match s {
        StatementModel::MaterialImport(i) => match wr_import(i) {
            Err(e) => Err(e),
            Ok(x) => Ok(seq![0u8] + x),
        },
        StatementModel::Edit(e) => match wr_edit(e) {
            Err(err) => Err(err),
            Ok(x) => Ok(seq![1u8] + x),
        },
    }
}

/// Writing statements one after another.
pub open spec fn wr_statements(ss: Seq<StatementModel>) -> Result<Seq<u8>, ErrorModel>
    decreases ss.len(),
{
    if ss.len() == 0 {
        Ok(Seq::empty())
    } else {
        match wr_statement(ss[0]) {
            Err(e) => Err(e),
            Ok(x) => match wr_statements(ss.drop_first()) {
                Err(e) => Err(e),
                Ok(y) => Ok(x + y),
            },
        }
    }
}

/// What writing a document in the binary form gives.
pub open spec fn binary_encoding(d: DocumentModel) -> Result<Seq<u8>, ErrorModel> {
    if !is_supported_version(d.version) {
        Err(ErrorModel::Binary(msg_cannot_encode_version(d.version)))
    } else {
        match wr_len(d.statements.len(), "statement count"@) {
            Err(e) => Err(e),
            Ok(l) => match wr_statements(d.statements) {
                Err(e) => Err(e),
                Ok(x) => Ok(magic() + u32_bytes(d.version) + l + x),
            },
        }
    }
}

} // verus!
