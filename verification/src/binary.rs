//! Reading, checking and writing the binary form (`ADFB`).

use vstd::prelude::*;
use vstd::utf8::{valid_utf8, decode_utf8};
use crate::binary_model::{
    le32, u32_bytes, u64_bytes, rd_exact, rd_u8, rd_u32, rd_u64, rd_chunk, rd_string, sk_string,
    rd_tagged_name, sk_tagged_name, rd_value, rd_values, sk_value, sk_values, rd_property,
    rd_properties, sk_properties, rd_edit, sk_edit, rd_import, sk_import, rd_statement,
    rd_statements, sk_statements, rd_header, rd_end, binary_document, binary_summary,
    operation_tag, syntax_tag, wr_len, wr_string, wr_tagged_name, wr_value, wr_values, wr_property,
    wr_properties, wr_edit, wr_import, wr_statement, wr_statements, binary_encoding,
};
use crate::document::{
    reads, skips, result_is, values_model_of, properties_model_of, statements_model_of,
    AdfCheckSummary, AdfDocument, AdfError, AdfStatement, Edit, ErrorModel, MaterialImport,
    MaterialImportSyntax, Operation, Property, Value, ValueModel, StatementModel,
};
use crate::format::{
    ADFB_MAGIC, CUSTOM_TAG, magic, version_is_supported, unsupported_version_message,
    cannot_encode_version_error, offset_overflow_error, unexpected_end_error, bad_magic_error,
    unknown_tag_error, invalid_byte_error, trailing_error, too_long_error,
};
use crate::tags::{NameTable, name_to_tag, tag_to_name, table_word_str};

verus! {

/// `std::str::from_utf8`: the text that the bytes encode, exactly when they
/// are valid UTF-8.
#[verifier::external_body]
pub(crate) fn utf8_text(bytes: &[u8]) -> (r: Result<&str, std::str::Utf8Error>)
    ensures
        match r {
            Ok(s) => valid_utf8(bytes@) && s@ == decode_utf8(bytes@),
            Err(_) => !valid_utf8(bytes@),
        },
{
    std::str::from_utf8(bytes)
}

/// A cursor over the bytes of a binary document.
struct BinaryReader<'a> {
    bytes: &'a [u8],
    offset: usize,
}

impl<'a> BinaryReader<'a> {
    fn new(bytes: &'a [u8]) -> (r: Self)
        ensures
            r.bytes == bytes,
            r.offset == 0,
    {
        BinaryReader { bytes, offset: 0 }
    }

    fn read_exact(&mut self, length: usize) -> (r: Result<&'a [u8], AdfError>)
        requires
            old(self).offset <= old(self).bytes@.len(),
        ensures
            final(self).bytes == old(self).bytes,
            final(self).offset <= final(self).bytes@.len(),
            match rd_exact(old(self).bytes@, old(self).offset as int, length as int) {
                Ok(q) => r matches Ok(s) && s@ == old(self).bytes@.subrange(
                    old(self).offset as int,
                    q,
                ) && final(self).offset == q,
                Err(e) => r matches Err(x) && x@ == e && final(self).offset == old(self).offset,
            },
    {
        let end = match self.offset.checked_add(length) {
            Some(end) => end,
            None => {
                return Err(offset_overflow_error());
            },
        };
        if end > self.bytes.len() {
            return Err(unexpected_end_error(self.offset, end - self.bytes.len()));
        }
        let slice = &self.bytes[self.offset..end];
        self.offset = end;
        Ok(slice)
    }

    fn read_u8(&mut self) -> (r: Result<u8, AdfError>)
        requires
            old(self).offset <= old(self).bytes@.len(),
        ensures
            final(self).bytes == old(self).bytes,
            final(self).offset <= final(self).bytes@.len(),
            reads(r, final(self).offset, rd_u8(old(self).bytes@, old(self).offset as int)),
    {
        let bytes = self.read_exact(1)?;
        Ok(bytes[0])
    }

    fn read_u32(&mut self) -> (r: Result<u32, AdfError>)
        requires
            old(self).offset <= old(self).bytes@.len(),
        ensures
            final(self).bytes == old(self).bytes,
            final(self).offset <= final(self).bytes@.len(),
            reads(r, final(self).offset, rd_u32(old(self).bytes@, old(self).offset as int)),
    {
        let ghost p = self.offset as int;
        let bytes = self.read_exact(4)?;
        let v: u32 = bytes[0] as u32 + 256 * (bytes[1] as u32) + 65536 * (bytes[2] as u32)
            + 16777216 * (bytes[3] as u32);
        assert(v == le32(old(self).bytes@, p));
        Ok(v)
    }

    fn read_number_bits(&mut self) -> (r: Result<u64, AdfError>)
        requires
            old(self).offset <= old(self).bytes@.len(),
        ensures
            final(self).bytes == old(self).bytes,
            final(self).offset <= final(self).bytes@.len(),
            reads(r, final(self).offset, rd_u64(old(self).bytes@, old(self).offset as int)),
    {
        let ghost p = self.offset as int;
        let bytes = self.read_exact(8)?;
        let lo: u64 = bytes[0] as u64 + 256 * (bytes[1] as u64) + 65536 * (bytes[2] as u64)
            + 16777216 * (bytes[3] as u64);
        let hi: u64 = bytes[4] as u64 + 256 * (bytes[5] as u64) + 65536 * (bytes[6] as u64)
            + 16777216 * (bytes[7] as u64);
        assert(lo == le32(old(self).bytes@, p));
        assert(hi == le32(old(self).bytes@, p + 4));
        assert(hi * 4294967296 + lo <= u64::MAX) by (nonlinear_arith)
            requires
                hi < 4294967296,
                lo < 4294967296,
        ;
        let v: u64 = hi * 4294967296 + lo;
        Ok(v)
    }

    fn read_chunk(&mut self) -> (r: Result<&'a [u8], AdfError>)
        requires
            old(self).offset <= old(self).bytes@.len(),
        ensures
            final(self).bytes == old(self).bytes,
            final(self).offset <= final(self).bytes@.len(),
            match rd_chunk(old(self).bytes@, old(self).offset as int) {
                Ok((q, e)) => r matches Ok(s) && s@ == old(self).bytes@.subrange(q, e)
                    && final(self).offset == e,
                Err(e) => r matches Err(x) && x@ == e,
            },
    {
        let length = self.read_u32()?;
        self.read_exact(length as usize)
    }

    fn read_string(&mut self) -> (r: Result<String, AdfError>)
        requires
            old(self).offset <= old(self).bytes@.len(),
        ensures
            final(self).bytes == old(self).bytes,
            final(self).offset <= final(self).bytes@.len(),
            reads(r, final(self).offset, rd_string(old(self).bytes@, old(self).offset as int)),
    {
        let bytes = self.read_chunk()?;
        match utf8_text(bytes) {
            Ok(text) => Ok(text.to_owned()),
            Err(e) => Err(AdfError::Utf8(e)),
        }
    }

    fn skip_string(&mut self) -> (r: Result<(), AdfError>)
        requires
            old(self).offset <= old(self).bytes@.len(),
        ensures
            final(self).bytes == old(self).bytes,
            final(self).offset <= final(self).bytes@.len(),
            skips(r, final(self).offset, sk_string(old(self).bytes@, old(self).offset as int)),
    {
        self.read_chunk()?;
        Ok(())
    }

    fn read_tagged_name(&mut self, table: NameTable) -> (r: Result<String, AdfError>)
        requires
            old(self).offset <= old(self).bytes@.len(),
        ensures
            final(self).bytes == old(self).bytes,
            final(self).offset <= final(self).bytes@.len(),
            reads(
                r,
                final(self).offset,
                rd_tagged_name(old(self).bytes@, old(self).offset as int, table),
            ),
    {
        proof {
            reveal(rd_tagged_name);
        }
        let ghost p = self.offset;
        let tag = self.read_u8()?;
        if tag == CUSTOM_TAG {
            return self.read_string();
        }
        match tag_to_name(table, tag) {
            Some(name) => Ok(name.to_owned()),
            None => Err(unknown_tag_error(table_word_str(table), tag, self.offset - 1)),
        }
    }

    fn skip_tagged_name(&mut self, table: NameTable) -> (r: Result<(), AdfError>)
        requires
            old(self).offset <= old(self).bytes@.len(),
        ensures
            final(self).bytes == old(self).bytes,
            final(self).offset <= final(self).bytes@.len(),
            skips(
                r,
                final(self).offset,
                sk_tagged_name(old(self).bytes@, old(self).offset as int, table),
            ),
    {
        proof {
            reveal(sk_tagged_name);
        }
        let tag = self.read_u8()?;
        if tag == CUSTOM_TAG {
            return self.skip_string();
        }
        if tag_to_name(table, tag).is_some() {
            Ok(())
        } else {
            Err(unknown_tag_error(table_word_str(table), tag, self.offset - 1))
        }
    }

    fn read_value(&mut self) -> (r: Result<Value, AdfError>)
        requires
            old(self).offset <= old(self).bytes@.len(),
        ensures
            final(self).bytes == old(self).bytes,
            final(self).offset <= final(self).bytes@.len(),
            reads(r, final(self).offset, rd_value(old(self).bytes@, old(self).offset as int)),
        decreases old(self).bytes@.len() - old(self).offset, 0int,
    {
        let ghost b = self.bytes@;
        let ghost p = self.offset as int;
        match self.read_u8()? {
            0 => Ok(Value::Number(self.read_number_bits()?)),
            1 => Ok(Value::String(self.read_string()?)),
            2 => Ok(Value::Ident(self.read_string()?)),
            3 => match self.read_u8()? {
                0 => Ok(Value::Bool(false)),
                1 => Ok(Value::Bool(true)),
                flag => Err(invalid_byte_error("boolean value", flag, self.offset - 1)),
            },
            4 => {
                let count = self.read_u32()?;
                let values = self.read_values(count)?;
                proof {
                    crate::document::lemma_vector_model(values);
                }
                Ok(Value::Vector(values))
            },
            tag => Err(unknown_tag_error("value", tag, self.offset - 1)),
        }
    }

    fn read_values(&mut self, count: u32) -> (r: Result<Vec<Value>, AdfError>)
        requires
            old(self).offset <= old(self).bytes@.len(),
        ensures
            final(self).bytes == old(self).bytes,
            final(self).offset <= final(self).bytes@.len(),
            match rd_values(old(self).bytes@, old(self).offset as int, count as nat) {
                Ok((vs, q)) => r matches Ok(x) && values_model_of(x@) == vs
                    && final(self).offset == q,
                Err(e) => r matches Err(x) && x@ == e,
            },
        decreases old(self).bytes@.len() - old(self).offset, 1int,
    {
        let ghost b = self.bytes@;
        let ghost start = self.offset as int;
        let mut values: Vec<Value> = Vec::new();
        let mut i: u32 = 0;
        while i < count
            invariant
                self.bytes == old(self).bytes,
                self.bytes@ == b,
                self.offset <= b.len(),
                start == old(self).offset,
                b == old(self).bytes@,
                i <= count,
                start <= self.offset <= b.len(),
                rd_values(b, start, count as nat) == match rd_values(
                    b,
                    self.offset as int,
                    (count - i) as nat,
                ) {
                    Ok((vs, q)) => Ok((values_model_of(values@) + vs, q)),
                    Err(e) => Err(e),
                },
            decreases count - i,
        {
            let ghost before = self.offset as int;
            let ghost acc = values_model_of(values@);
            proof {
                crate::binary_laws::lemma_rd_value_advances(b, before);
            }
            let v = self.read_value()?;
            values.push(v);
            proof {
                assert(values_model_of(values@) =~= acc.push(v@));
                let k = (count - i) as nat;
                if let Ok((vs, q)) = rd_values(b, self.offset as int, (k - 1) as nat) {
                    assert(acc + (seq![v@] + vs) =~= acc.push(v@) + vs);
                }
            }
            i = i + 1;
        }
        Ok(values)
    }

    fn skip_value(&mut self) -> (r: Result<(), AdfError>)
        requires
            old(self).offset <= old(self).bytes@.len(),
        ensures
            final(self).bytes == old(self).bytes,
            final(self).offset <= final(self).bytes@.len(),
            skips(r, final(self).offset, sk_value(old(self).bytes@, old(self).offset as int)),
        decreases old(self).bytes@.len() - old(self).offset, 0int,
    {
        match self.read_u8()? {
            0 => {
                self.read_number_bits()?;
                Ok(())
            },
            1 | 2 => self.skip_string(),
            3 => match self.read_u8()? {
                0 | 1 => Ok(()),
                flag => Err(invalid_byte_error("boolean value", flag, self.offset - 1)),
            },
            4 => {
                let count = self.read_u32()?;
                self.skip_values(count)
            },
            tag => Err(unknown_tag_error("value", tag, self.offset - 1)),
        }
    }

    fn skip_values(&mut self, count: u32) -> (r: Result<(), AdfError>)
        requires
            old(self).offset <= old(self).bytes@.len(),
        ensures
            final(self).bytes == old(self).bytes,
            final(self).offset <= final(self).bytes@.len(),
            skips(
                r,
                final(self).offset,
                sk_values(old(self).bytes@, old(self).offset as int, count as nat),
            ),
        decreases old(self).bytes@.len() - old(self).offset, 1int,
    {
        let ghost b = self.bytes@;
        let ghost start = self.offset as int;
        let mut i: u32 = 0;
        while i < count
            invariant
                self.bytes == old(self).bytes,
                self.bytes@ == b,
                self.offset <= b.len(),
                start == old(self).offset,
                b == old(self).bytes@,
                i <= count,
                start <= self.offset <= b.len(),
                sk_values(b, start, count as nat) == sk_values(
                    b,
                    self.offset as int,
                    (count - i) as nat,
                ),
            decreases count - i,
        {
            proof {
                crate::binary_laws::lemma_sk_value_advances(b, self.offset as int);
            }
            self.skip_value()?;
            i = i + 1;
        }
        Ok(())
    }

    fn read_property(&mut self) -> (r: Result<Property, AdfError>)
        requires
            old(self).offset <= old(self).bytes@.len(),
        ensures
            final(self).bytes == old(self).bytes,
            final(self).offset <= final(self).bytes@.len(),
            reads(r, final(self).offset, rd_property(old(self).bytes@, old(self).offset as int)),
    {
        let key = self.read_tagged_name(NameTable::Property)?;
        let value = self.read_value()?;
        Ok(Property { key, value })
    }

    fn read_properties(&mut self, count: u32) -> (r: Result<Vec<Property>, AdfError>)
        requires
            old(self).offset <= old(self).bytes@.len(),
        ensures
            final(self).bytes == old(self).bytes,
            final(self).offset <= final(self).bytes@.len(),
            match rd_properties(old(self).bytes@, old(self).offset as int, count as nat) {
                Ok((ps, q)) => r matches Ok(x) && properties_model_of(x@) == ps
                    && final(self).offset == q,
                Err(e) => r matches Err(x) && x@ == e,
            },
    {
        let ghost b = self.bytes@;
        let ghost start = self.offset as int;
        let mut properties: Vec<Property> = Vec::new();
        let mut i: u32 = 0;
        while i < count
            invariant
                self.bytes == old(self).bytes,
                self.bytes@ == b,
                self.offset <= b.len(),
                start == old(self).offset,
                b == old(self).bytes@,
                i <= count,
                rd_properties(b, start, count as nat) == match rd_properties(
                    b,
                    self.offset as int,
                    (count - i) as nat,
                ) {
                    Ok((ps, q)) => Ok((properties_model_of(properties@) + ps, q)),
                    Err(e) => Err(e),
                },
            decreases count - i,
        {
            let ghost acc = properties_model_of(properties@);
            let p = self.read_property()?;
            properties.push(p);
            proof {
                assert(properties_model_of(properties@) =~= acc.push(p@));
                let k = (count - i) as nat;
                if let Ok((ps, q)) = rd_properties(b, self.offset as int, (k - 1) as nat) {
                    assert(acc + (seq![p@] + ps) =~= acc.push(p@) + ps);
                }
            }
            i = i + 1;
        }
        proof {
            assert(properties_model_of(properties@) + Seq::<crate::document::PropertyModel>::empty()
                =~= properties_model_of(properties@));
        }
        Ok(properties)
    }

    fn read_edit(&mut self) -> (r: Result<Edit, AdfError>)
        requires
            old(self).offset <= old(self).bytes@.len(),
        ensures
            final(self).bytes == old(self).bytes,
            final(self).offset <= final(self).bytes@.len(),
            reads(r, final(self).offset, rd_edit(old(self).bytes@, old(self).offset as int)),
    {
        proof {
            reveal(rd_edit);
        }
        let operation = match self.read_u8()? {
            0 => Operation::Union,
            1 => Operation::Difference,
            2 => Operation::Intersection,
            3 => Operation::Paint,
            tag => {
                return Err(unknown_tag_error("operation", tag, self.offset - 1));
            },
        };
        let primitive = self.read_tagged_name(NameTable::Primitive)?;
        let count = self.read_u32()?;
        let properties = self.read_properties(count)?;
        Ok(Edit { operation, primitive, properties })
    }

    fn skip_properties(&mut self, count: u32) -> (r: Result<(), AdfError>)
        requires
            old(self).offset <= old(self).bytes@.len(),
        ensures
            final(self).bytes == old(self).bytes,
            final(self).offset <= final(self).bytes@.len(),
            skips(
                r,
                final(self).offset,
                sk_properties(old(self).bytes@, old(self).offset as int, count as nat),
            ),
    {
        let ghost b = self.bytes@;
        let ghost start = self.offset as int;
        let mut i: u32 = 0;
        while i < count
            invariant
                self.bytes == old(self).bytes,
                self.bytes@ == b,
                self.offset <= b.len(),
                start == old(self).offset,
                b == old(self).bytes@,
                i <= count,
                sk_properties(b, start, count as nat) == sk_properties(
                    b,
                    self.offset as int,
                    (count - i) as nat,
                ),
            decreases count - i,
        {
            self.skip_tagged_name(NameTable::Property)?;
            self.skip_value()?;
            i = i + 1;
        }
        Ok(())
    }

    fn skip_edit(&mut self) -> (r: Result<(), AdfError>)
        requires
            old(self).offset <= old(self).bytes@.len(),
        ensures
            final(self).bytes == old(self).bytes,
            final(self).offset <= final(self).bytes@.len(),
            skips(r, final(self).offset, sk_edit(old(self).bytes@, old(self).offset as int)),
    {
        proof {
            reveal(sk_edit);
        }
        match self.read_u8()? {
            0..=3 => {},
            tag => {
                return Err(unknown_tag_error("operation", tag, self.offset - 1));
            },
        }
        self.skip_tagged_name(NameTable::Primitive)?;
        let count = self.read_u32()?;
        self.skip_properties(count)
    }

    fn read_material_import(&mut self) -> (r: Result<MaterialImport, AdfError>)
        requires
            old(self).offset <= old(self).bytes@.len(),
        ensures
            final(self).bytes == old(self).bytes,
            final(self).offset <= final(self).bytes@.len(),
            reads(r, final(self).offset, rd_import(old(self).bytes@, old(self).offset as int)),
    {
        proof {
            reveal(rd_import);
        }
        let syntax = match self.read_u8()? {
            0 => MaterialImportSyntax::Use,
            1 => MaterialImportSyntax::LegacyAtMaterial,
            tag => {
                return Err(unknown_tag_error("material import syntax", tag, self.offset - 1));
            },
        };
        let alias = match self.read_u8()? {
            0 => None,
            1 => Some(self.read_string()?),
            flag => {
                return Err(invalid_byte_error("alias flag", flag, self.offset - 1));
            },
        };
        let path = self.read_string()?;
        Ok(MaterialImport { alias, path, syntax })
    }

    fn skip_material_import(&mut self) -> (r: Result<(), AdfError>)
        requires
            old(self).offset <= old(self).bytes@.len(),
        ensures
            final(self).bytes == old(self).bytes,
            final(self).offset <= final(self).bytes@.len(),
            skips(r, final(self).offset, sk_import(old(self).bytes@, old(self).offset as int)),
    {
        proof {
            reveal(sk_import);
        }
        match self.read_u8()? {
            0 | 1 => {},
            tag => {
                return Err(unknown_tag_error("material import syntax", tag, self.offset - 1));
            },
        }
        match self.read_u8()? {
            0 => {},
            1 => {
                self.skip_string()?;
            },
            flag => {
                return Err(invalid_byte_error("alias flag", flag, self.offset - 1));
            },
        }
        self.skip_string()
    }

    fn read_statement(&mut self) -> (r: Result<AdfStatement, AdfError>)
        requires
            old(self).offset <= old(self).bytes@.len(),
        ensures
            final(self).bytes == old(self).bytes,
            final(self).offset <= final(self).bytes@.len(),
            reads(r, final(self).offset, rd_statement(old(self).bytes@, old(self).offset as int)),
    {
        proof {
            reveal(rd_statement);
        }
        match self.read_u8()? {
            0 => Ok(AdfStatement::MaterialImport(self.read_material_import()?)),
            1 => Ok(AdfStatement::Edit(self.read_edit()?)),
            tag => Err(unknown_tag_error("ADFB statement", tag, self.offset - 1)),
        }
    }

    fn read_header(&mut self) -> (r: Result<(u32, u32), AdfError>)
        requires
            old(self).offset == 0,
        ensures
            final(self).bytes == old(self).bytes,
            final(self).offset <= final(self).bytes@.len(),
            match rd_header(old(self).bytes@) {
                Ok((v, n, q)) => r == Ok::<(u32, u32), AdfError>((v, n)) && final(self).offset == q,
                Err(e) => r matches Err(x) && x@ == e,
            },
    {
        let found = self.read_exact(4)?;
        if !bytes_eq(found, &ADFB_MAGIC) {
            proof {
                assert(ADFB_MAGIC@ =~= magic());
            }
            return Err(bad_magic_error(found));
        }
        proof {
            assert(ADFB_MAGIC@ =~= magic());
        }
        let version = self.read_u32()?;
        if !version_is_supported(version) {
            return Err(AdfError::Binary(unsupported_version_message(version)));
        }
        let statement_count = self.read_u32()?;
        Ok((version, statement_count))
    }

    fn ensure_exhausted(&self) -> (r: Result<(), AdfError>)
        requires
            self.offset <= self.bytes@.len(),
        ensures
            match rd_end(self.bytes@, self.offset as int) {
                Ok(_) => r is Ok,
                Err(e) => r matches Err(x) && x@ == e,
            },
    {
        if self.offset == self.bytes.len() {
            Ok(())
        } else {
            Err(trailing_error(self.bytes.len() - self.offset))
        }
    }

    fn read_statements(&mut self, count: u32) -> (r: Result<Vec<AdfStatement>, AdfError>)
        requires
            old(self).offset <= old(self).bytes@.len(),
        ensures
            final(self).bytes == old(self).bytes,
            final(self).offset <= final(self).bytes@.len(),
            match rd_statements(old(self).bytes@, old(self).offset as int, count as nat) {
                Ok((ss, q)) => r matches Ok(x) && statements_model_of(x@) == ss
                    && final(self).offset == q,
                Err(e) => r matches Err(x) && x@ == e,
            },
    {
        let ghost b = self.bytes@;
        let ghost start = self.offset as int;
        let mut statements: Vec<AdfStatement> = Vec::new();
        let mut i: u32 = 0;
        while i < count
            invariant
                self.bytes == old(self).bytes,
                self.bytes@ == b,
                self.offset <= b.len(),
                start == old(self).offset,
                b == old(self).bytes@,
                i <= count,
                rd_statements(b, start, count as nat) == match rd_statements(
                    b,
                    self.offset as int,
                    (count - i) as nat,
                ) {
                    Ok((ss, q)) => Ok((statements_model_of(statements@) + ss, q)),
                    Err(e) => Err(e),
                },
            decreases count - i,
        {
            let ghost acc = statements_model_of(statements@);
            let s = self.read_statement()?;
            statements.push(s);
            proof {
                assert(statements_model_of(statements@) =~= acc.push(s@));
                let k = (count - i) as nat;
                if let Ok((ss, q)) = rd_statements(b, self.offset as int, (k - 1) as nat) {
                    assert(acc + (seq![s@] + ss) =~= acc.push(s@) + ss);
                }
            }
            i = i + 1;
        }
        proof {
            assert(statements_model_of(statements@) + Seq::<StatementModel>::empty()
                =~= statements_model_of(statements@));
        }
        Ok(statements)
    }

    fn parse_document(&mut self) -> (r: Result<AdfDocument, AdfError>)
        requires
            old(self).offset == 0,
        ensures
            result_is(r, binary_document(old(self).bytes@)),
    {
        let (version, statement_count) = self.read_header()?;
        let statements = self.read_statements(statement_count)?;
        self.ensure_exhausted()?;
        Ok(AdfDocument { version, statements })
    }

    fn skip_statements(&mut self, count: u32) -> (r: Result<(usize, usize), AdfError>)
        requires
            old(self).offset <= old(self).bytes@.len(),
        ensures
            final(self).bytes == old(self).bytes,
            final(self).offset <= final(self).bytes@.len(),
            match sk_statements(old(self).bytes@, old(self).offset as int, count as nat) {
                Ok((m, e, q)) => r matches Ok((x, y)) && x == m && y == e && final(self).offset == q,
                Err(e) => r matches Err(x) && x@ == e,
            },
    {
        let ghost b = self.bytes@;
        let ghost start = self.offset as int;
        let mut material_imports: usize = 0;
        let mut edits: usize = 0;
        let mut i: u32 = 0;
        while i < count
            invariant
                self.bytes == old(self).bytes,
                self.bytes@ == b,
                self.offset <= b.len(),
                start == old(self).offset,
                b == old(self).bytes@,
                i <= count,
                material_imports + edits == i,
                sk_statements(b, start, count as nat) == match sk_statements(
                    b,
                    self.offset as int,
                    (count - i) as nat,
                ) {
                    Ok((m, e, q)) => Ok(((m + material_imports) as nat, (e + edits) as nat, q)),
                    Err(e) => Err(e),
                },
            decreases count - i,
        {
            let ghost before = self.offset as int;
            let ghost k = (count - i) as nat;
            match self.read_u8()? {
                0 => {
                    self.skip_material_import()?;
                    material_imports += 1;
                },
                1 => {
                    self.skip_edit()?;
                    edits += 1;
                },
                tag => {
                    return Err(unknown_tag_error("ADFB statement", tag, self.offset - 1));
                },
            }
            i = i + 1;
        }
        Ok((material_imports, edits))
    }

    fn check_document(&mut self) -> (r: Result<AdfCheckSummary, AdfError>)
        requires
            old(self).offset == 0,
        ensures
            match binary_summary(old(self).bytes@) {
                Ok(s) => r == Ok::<AdfCheckSummary, AdfError>(s),
                Err(e) => r matches Err(x) && x@ == e,
            },
    {
        let (version, statement_count) = self.read_header()?;
        let (material_imports, edits) = self.skip_statements(statement_count)?;
        self.ensure_exhausted()?;
        Ok(AdfCheckSummary { version, material_imports, edits })
    }
}

/// Whether two byte strings are equal.
fn bytes_eq(a: &[u8], b: &[u8]) -> (r: bool)
    ensures
        r == (a@ == b@),
{
    if a.len() != b.len() {
        return false;
    }
    let mut i: usize = 0;
    while i < a.len()
        invariant
            a@.len() == b@.len(),
            i <= a@.len(),
            forall|j: int| 0 <= j < i ==> a@[j] == b@[j],
        decreases a@.len() - i,
    {
        if a[i] != b[i] {
            return false;
        }
        i = i + 1;
    }
    assert(a@ =~= b@);
    true
}


} // verus!

verus! {

/// Whether a write appended what the model says, or failed as it says.
pub open spec fn writes(r: Result<(), AdfError>, before: Seq<u8>, after: Seq<u8>, expect: Result<Seq<u8>, ErrorModel>) -> bool {
    match expect {
        Ok(x) => r is Ok && after == before + x,
        Err(e) => r matches Err(y) && y@ == e,
    }
}

/// Accumulates the bytes of a binary document.
struct BinaryWriter {
    bytes: Vec<u8>,
}

impl BinaryWriter {
    fn new() -> (r: Self)
        ensures
            r.bytes@ == Seq::<u8>::empty(),
    {
        BinaryWriter { bytes: Vec::new() }
    }

    fn write_u8(&mut self, value: u8)
        ensures
            final(self).bytes@ == old(self).bytes@.push(value),
    {
        self.bytes.push(value);
    }

    fn write_u32(&mut self, value: u32)
        ensures
            final(self).bytes@ == old(self).bytes@ + u32_bytes(value),
    {
        self.bytes.push((value % 256) as u8);
        self.bytes.push(((value / 256) % 256) as u8);
        self.bytes.push(((value / 65536) % 256) as u8);
        self.bytes.push(((value / 16777216) % 256) as u8);
        assert(self.bytes@ =~= old(self).bytes@ + u32_bytes(value));
    }

    fn write_number_bits(&mut self, value: u64)
        ensures
            final(self).bytes@ == old(self).bytes@ + u64_bytes(value),
    {
        self.write_u32((value % 4294967296) as u32);
        self.write_u32((value / 4294967296) as u32);
        assert(self.bytes@ =~= old(self).bytes@ + u64_bytes(value));
    }

    fn write_len(&mut self, value: usize, what: &str) -> (r: Result<(), AdfError>)
        ensures
            writes(r, old(self).bytes@, final(self).bytes@, wr_len(value as nat, what@)),
            r is Err ==> final(self).bytes@ == old(self).bytes@,
    {
        if value > 4294967295 {
            return Err(too_long_error(what));
        }
        self.write_u32(value as u32);
        Ok(())
    }

    fn write_string(&mut self, value: &str) -> (r: Result<(), AdfError>)
        ensures
            writes(r, old(self).bytes@, final(self).bytes@, wr_string(value@)),
    {
        let bytes = value.as_bytes();
        self.write_len(bytes.len(), "string length")?;
        let ghost mid = self.bytes@;
        self.bytes.extend_from_slice(bytes);
        assert(self.bytes@ =~= mid + bytes@);
        assert(self.bytes@ =~= old(self).bytes@ + (u32_bytes(bytes@.len() as u32) + bytes@));
        Ok(())
    }

    fn write_tagged_name(&mut self, value: &str, table: NameTable) -> (r: Result<(), AdfError>)
        ensures
            writes(r, old(self).bytes@, final(self).bytes@, wr_tagged_name(value@, table)),
    {
        proof {
            reveal(wr_tagged_name);
        }
        match name_to_tag(table, value) {
            Some(tag) => {
                self.write_u8(tag);
                assert(self.bytes@ =~= old(self).bytes@ + seq![tag]);
                Ok(())
            },
            None => {
                self.write_u8(CUSTOM_TAG);
                let ghost mid = self.bytes@;
                let r = self.write_string(value);
                proof {
                    if let Ok(x) = wr_string(value@) {
                        assert(self.bytes@ =~= old(self).bytes@ + (seq![0u8] + x));
                    }
                }
                r
            },
        }
    }

    fn write_value(&mut self, value: &Value) -> (r: Result<(), AdfError>)
        ensures
            writes(r, old(self).bytes@, final(self).bytes@, wr_value(value@)),
        decreases value@,
    {
        proof {
            reveal(wr_value);
        }
        match value {
            Value::Number(number) => {
                self.write_u8(0);
                self.write_number_bits(*number);
                assert(self.bytes@ =~= old(self).bytes@ + (seq![0u8] + u64_bytes(*number)));
                Ok(())
            },
            Value::String(text) => {
                self.write_u8(1);
                let r = self.write_string(text.as_str());
                proof {
                    if let Ok(x) = wr_string(text@) {
                        assert(self.bytes@ =~= old(self).bytes@ + (seq![1u8] + x));
                    }
                }
                r
            },
            Value::Ident(text) => {
                self.write_u8(2);
                let r = self.write_string(text.as_str());
                proof {
                    if let Ok(x) = wr_string(text@) {
                        assert(self.bytes@ =~= old(self).bytes@ + (seq![2u8] + x));
                    }
                }
                r
            },
            Value::Bool(flag) => {
                self.write_u8(3);
                self.write_u8(if *flag { 1 } else { 0 });
                assert(self.bytes@ =~= old(self).bytes@ + seq![3u8, if *flag { 1u8 } else { 0u8 }]);
                Ok(())
            },
            Value::Vector(values) => {
                proof {
                    crate::document::lemma_vector_model(*values);
                }
                self.write_u8(4);
                let ghost after_tag = self.bytes@;
                self.write_len(values.len(), "vector length")?;
                let ghost after_len = self.bytes@;
                let r = self.write_values(values);
                proof {
                    if let Ok(l) = wr_len(values@.len() as nat, "vector length"@) {
                        if let Ok(y) = wr_values(values_model_of(values@)) {
                            assert(self.bytes@ =~= old(self).bytes@ + (seq![4u8] + l + y));
                        }
                    }
                }
                r
            },
        }
    }

    fn write_values(&mut self, values: &Vec<Value>) -> (r: Result<(), AdfError>)
        ensures
            writes(r, old(self).bytes@, final(self).bytes@, wr_values(values_model_of(values@))),
        decreases values_model_of(values@),
    {
        let ghost all = values_model_of(values@);
        let ghost head = self.bytes@;
        let ghost mut done: Seq<u8> = Seq::empty();
        proof {
            assert(all.skip(0) =~= all);
            assert(head + done =~= head);
        }
        let mut i: usize = 0;
        while i < values.len()
            invariant
                all == values_model_of(values@),
                i <= values@.len(),
                self.bytes@ == head + done,
                head == old(self).bytes@,
                wr_values(all) == match wr_values(all.skip(i as int)) {
                    Ok(y) => Ok(done + y),
                    Err(e) => Err(e),
                },
            decreases values@.len() - i,
        {
            proof {
                crate::binary_laws::lemma_wr_values_unfold(all.skip(i as int));
                assert(all.skip(i as int).len() > 0);
                assert(all.skip(i as int)[0] == values@[i as int]@);
                assert(all.skip(i as int).drop_first() =~= all.skip(i + 1));
                assert(wr_values(all.skip(i as int)) == match wr_value(values@[i as int]@) {
                    Err(e) => Err(e),
                    Ok(x) => match wr_values(all.skip(i + 1)) {
                        Err(e) => Err(e),
                        Ok(y) => Ok(x + y),
                    },
                });
                assert(all[i as int] == values@[i as int]@);
            }
            let ghost before = self.bytes@;
            self.write_value(&values[i])?;
            proof {
                if let Ok(xp) = wr_value(values@[i as int]@) {
                    assert(self.bytes@ == before + xp);
                    if let Ok(y) = wr_values(all.skip(i + 1)) {
                        assert(done + (xp + y) =~= (done + xp) + y);
                    }
                    assert(head + (done + xp) =~= head + done + xp);
                    done = done + xp;
                }
            }
            i = i + 1;
        }
        proof {
            assert(all.skip(values@.len() as int) =~= Seq::<ValueModel>::empty());
            assert(done + Seq::<u8>::empty() =~= done);
        }
        Ok(())
    }

    fn write_property(&mut self, property: &Property) -> (r: Result<(), AdfError>)
        ensures
            writes(r, old(self).bytes@, final(self).bytes@, wr_property(property@)),
    {
        proof {
            reveal(wr_property);
        }
        self.write_tagged_name(property.key.as_str(), NameTable::Property)?;
        let ghost mid = self.bytes@;
        let r = self.write_value(&property.value);
        proof {
            if let Ok(x) = wr_tagged_name(property.key@, NameTable::Property) {
                if let Ok(y) = wr_value(property.value@) {
                    assert(self.bytes@ =~= old(self).bytes@ + (x + y));
                }
            }
        }
        r
    }

    fn write_properties(&mut self, properties: &Vec<Property>) -> (r: Result<(), AdfError>)
        ensures
            writes(
                r,
                old(self).bytes@,
                final(self).bytes@,
                wr_properties(properties_model_of(properties@)),
            ),
    {
        let ghost all = properties_model_of(properties@);
        let ghost head = self.bytes@;
        let ghost mut done: Seq<u8> = Seq::empty();
        proof {
            assert(all.skip(0) =~= all);
            assert(head + done =~= head);
        }
        let mut i: usize = 0;
        while i < properties.len()
            invariant
                all == properties_model_of(properties@),
                i <= properties@.len(),
                self.bytes@ == head + done,
                head == old(self).bytes@,
                wr_properties(all) == match wr_properties(all.skip(i as int)) {
                    Ok(y) => Ok(done + y),
                    Err(e) => Err(e),
                },
            decreases properties@.len() - i,
        {
            proof {
                assert(all.skip(i as int).len() > 0);
                assert(all.skip(i as int)[0] == properties@[i as int]@);
                assert(all.skip(i as int).drop_first() =~= all.skip(i + 1));
                assert(wr_properties(all.skip(i as int)) == match wr_property(properties@[i as int]@) {
                    Err(e) => Err(e),
                    Ok(x) => match wr_properties(all.skip(i + 1)) {
                        Err(e) => Err(e),
                        Ok(y) => Ok(x + y),
                    },
                });
            }
            let ghost before = self.bytes@;
            self.write_property(&properties[i])?;
            proof {
                if let Ok(xp) = wr_property(properties@[i as int]@) {
                    assert(self.bytes@ == before + xp);
                    if let Ok(y) = wr_properties(all.skip(i + 1)) {
                        assert(done + (xp + y) =~= (done + xp) + y);
                    }
                    assert(head + (done + xp) =~= head + done + xp);
                    done = done + xp;
                }
            }
            i = i + 1;
        }
        proof {
            assert(all.skip(properties@.len() as int) =~= Seq::<crate::document::PropertyModel>::empty());
            assert(done + Seq::<u8>::empty() =~= done);
        }
        Ok(())
    }

    fn write_edit(&mut self, edit: &Edit) -> (r: Result<(), AdfError>)
        ensures
            writes(r, old(self).bytes@, final(self).bytes@, wr_edit(edit@)),
    {
        proof {
            reveal(wr_edit);
        }
        let tag: u8 = match edit.operation {
            Operation::Union => 0,
            Operation::Difference => 1,
            Operation::Intersection => 2,
            Operation::Paint => 3,
        };
        self.write_u8(tag);
        let ghost after_tag = self.bytes@;
        self.write_tagged_name(edit.primitive.as_str(), NameTable::Primitive)?;
        let ghost after_name = self.bytes@;
        self.write_len(edit.properties.len(), "property count")?;
        let ghost after_len = self.bytes@;
        let r = self.write_properties(&edit.properties);
        proof {
            if let Ok(x) = wr_tagged_name(edit.primitive@, NameTable::Primitive) {
                if let Ok(l) = wr_len(edit@.properties.len(), "property count"@) {
                    if let Ok(y) = wr_properties(edit@.properties) {
                        assert(self.bytes@ =~= old(self).bytes@ + (seq![operation_tag(edit.operation)] + x + l + y));
                    }
                }
            }
        }
        r
    }

    fn write_material_import(&mut self, import: &MaterialImport) -> (r: Result<(), AdfError>)
        ensures
            writes(r, old(self).bytes@, final(self).bytes@, wr_import(import@)),
    {
        proof {
            reveal(wr_import);
        }
        self.write_u8(
            match import.syntax {
                MaterialImportSyntax::Use => 0,
                MaterialImportSyntax::LegacyAtMaterial => 1,
            },
        );
        let ghost after_syntax = self.bytes@;
        match &import.alias {
            Some(alias) => {
                self.write_u8(1);
                self.write_string(alias.as_str())?;
            },
            None => self.write_u8(0),
        }
        let ghost after_alias = self.bytes@;
        let r = self.write_string(import.path.as_str());
        proof {
            let alias_bytes: Result<Seq<u8>, ErrorModel> = match import@.alias {
                Some(a) => match wr_string(a) {
                    Err(e) => Err(e),
                    Ok(x) => Ok(seq![1u8] + x),
                },
                None => Ok(seq![0u8]),
            };
            if let Ok(x) = alias_bytes {
                assert(after_alias =~= after_syntax + x);
                if let Ok(y) = wr_string(import.path@) {
                    assert(self.bytes@ =~= old(self).bytes@ + (seq![syntax_tag(import.syntax)] + x + y));
                }
            }
        }
        r
    }

    fn write_statement(&mut self, statement: &AdfStatement) -> (r: Result<(), AdfError>)
        ensures
            writes(r, old(self).bytes@, final(self).bytes@, wr_statement(statement@)),
    {
        proof {
            reveal(wr_statement);
        }
        match statement {
            AdfStatement::MaterialImport(import) => {
                self.write_u8(0);
                let r = self.write_material_import(import);
                proof {
                    if let Ok(x) = wr_import(import@) {
                        assert(self.bytes@ =~= old(self).bytes@ + (seq![0u8] + x));
                    }
                }
                r
            },
            AdfStatement::Edit(edit) => {
                self.write_u8(1);
                let r = self.write_edit(edit);
                proof {
                    if let Ok(x) = wr_edit(edit@) {
                        assert(self.bytes@ =~= old(self).bytes@ + (seq![1u8] + x));
                    }
                }
                r
            },
        }
    }

    fn write_statements(&mut self, statements: &Vec<AdfStatement>) -> (r: Result<(), AdfError>)
        ensures
            writes(
                r,
                old(self).bytes@,
                final(self).bytes@,
                wr_statements(statements_model_of(statements@)),
            ),
    {
        let ghost all = statements_model_of(statements@);
        let ghost head = self.bytes@;
        let ghost mut done: Seq<u8> = Seq::empty();
        proof {
            assert(all.skip(0) =~= all);
            assert(head + done =~= head);
        }
        let mut i: usize = 0;
        while i < statements.len()
            invariant
                all == statements_model_of(statements@),
                i <= statements@.len(),
                self.bytes@ == head + done,
                head == old(self).bytes@,
                wr_statements(all) == match wr_statements(all.skip(i as int)) {
                    Ok(y) => Ok(done + y),
                    Err(e) => Err(e),
                },
            decreases statements@.len() - i,
        {
            proof {
                assert(all.skip(i as int).len() > 0);
                assert(all.skip(i as int)[0] == statements@[i as int]@);
                assert(all.skip(i as int).drop_first() =~= all.skip(i + 1));
                assert(wr_statements(all.skip(i as int)) == match wr_statement(statements@[i as int]@) {
                    Err(e) => Err(e),
                    Ok(x) => match wr_statements(all.skip(i + 1)) {
                        Err(e) => Err(e),
                        Ok(y) => Ok(x + y),
                    },
                });
            }
            let ghost before = self.bytes@;
            self.write_statement(&statements[i])?;
            proof {
                if let Ok(xp) = wr_statement(statements@[i as int]@) {
                    assert(self.bytes@ == before + xp);
                    if let Ok(y) = wr_statements(all.skip(i + 1)) {
                        assert(done + (xp + y) =~= (done + xp) + y);
                    }
                    assert(head + (done + xp) =~= head + done + xp);
                    done = done + xp;
                }
            }
            i = i + 1;
        }
        proof {
            assert(all.skip(statements@.len() as int) =~= Seq::<StatementModel>::empty());
            assert(done + Seq::<u8>::empty() =~= done);
        }
        Ok(())
    }

    fn encode_document(&mut self, document: &AdfDocument) -> (r: Result<Vec<u8>, AdfError>)
        requires
            old(self).bytes@ == Seq::<u8>::empty(),
        ensures
            result_is(r, binary_encoding(document@)),
    {
        if !version_is_supported(document.version) {
            return Err(cannot_encode_version_error(document.version));
        }
        let mut i: usize = 0;
        while i < 4
            invariant
                i <= 4,
                ADFB_MAGIC@ == magic(),
                self.bytes@ == magic().take(i as int),
            decreases 4 - i,
        {
            self.write_u8(ADFB_MAGIC[i]);
            assert(magic().take(i + 1) =~= magic().take(i as int).push(magic()[i as int]));
            i = i + 1;
        }
        assert(magic().take(4) =~= magic());
        self.write_u32(document.version);
        self.write_len(document.statements.len(), "statement count")?;
        let ghost after_len = self.bytes@;
        self.write_statements(&document.statements)?;
        proof {
            if let Ok(l) = wr_len(document@.statements.len(), "statement count"@) {
                if let Ok(y) = wr_statements(document@.statements) {
                    assert(self.bytes@ =~= magic() + u32_bytes(document.version) + l + y);
                }
            }
        }
        let mut out: Vec<u8> = Vec::new();
        std::mem::swap(&mut out, &mut self.bytes);
        Ok(out)
    }
}

} // verus!

verus! {

/// Reads a document in the binary form. The result is exactly what
/// `binary_document` says of the bytes: the document, or the first problem
/// met while reading them.
pub fn parse_binary(bytes: &[u8]) -> (r: Result<AdfDocument, AdfError>)
    ensures
        result_is(r, binary_document(bytes@)),
{
    let mut reader = BinaryReader::new(bytes);
    reader.parse_document()
}

/// Checks a document in the binary form without building it: its version
/// and how many statements of each kind it holds, or the first problem met.
/// Names and strings are skipped without checking their UTF-8.
pub fn check_binary(bytes: &[u8]) -> (r: Result<AdfCheckSummary, AdfError>)
    ensures
        match binary_summary(bytes@) {
            Ok(s) => r == Ok::<AdfCheckSummary, AdfError>(s),
            Err(e) => r matches Err(x) && x@ == e,
        },
{
    let mut reader = BinaryReader::new(bytes);
    reader.check_document()
}

/// Writes a document in the binary form: the bytes that `binary_encoding`
/// says, or the error it says (an unsupported version, or a count or string
/// too long for the format).
pub fn encode_binary(document: &AdfDocument) -> (r: Result<Vec<u8>, AdfError>)
    ensures
        result_is(r, binary_encoding(document@)),
{
    let mut writer = BinaryWriter::new();
    writer.encode_document(document)
}

} // verus!
