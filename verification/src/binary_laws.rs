//! What holds of the binary form as a whole: reading what was written gives
//! the document back, and a document that reads also checks.

use vstd::prelude::*;
use vstd::utf8::{encode_utf8, encode_utf8_valid_utf8, encode_utf8_decode_utf8};
use crate::binary_model::{
    le32, le64, u32_bytes, u64_bytes, rd_u8, rd_u32, rd_u64, rd_string, sk_string, rd_tagged_name,
    sk_tagged_name, rd_value, rd_values, sk_value, sk_values, rd_property, rd_properties,
    sk_properties, rd_edit, sk_edit, rd_import, sk_import, rd_statement, rd_statements,
    sk_statements, rd_header, binary_document, binary_summary, operation_tag, syntax_tag,
    wr_string, wr_tagged_name, wr_value, wr_values, wr_property, wr_properties, wr_edit, wr_import,
    wr_statement, wr_statements, binary_encoding,
};
use crate::document::{
    import_count, edit_count, summarizes, ErrorModel, ValueModel, PropertyModel, EditModel,
    ImportModel, StatementModel, DocumentModel,
};
use crate::format::{is_supported_version, magic};
use crate::tags::{NameTable, table_tag, lemma_table_roundtrip};

verus! {

/// Reading `n` values never moves backwards nor past the end.
pub proof fn lemma_rd_values_advances(b: Seq<u8>, p: int, n: nat)
    requires
        0 <= p <= b.len(),
    ensures
        rd_values(b, p, n) matches Ok((vs, q)) ==> p <= q <= b.len(),
    decreases n,
{
    if n > 0 {
        if let Ok((v, q)) = rd_value(b, p) {
            if p < q <= b.len() {
                lemma_rd_values_advances(b, q, (n - 1) as nat);
            }
        }
    }
}

/// Reading a value takes at least one byte and never moves past the end.
pub proof fn lemma_rd_value_advances(b: Seq<u8>, p: int)
    requires
        0 <= p <= b.len(),
    ensures
        rd_value(b, p) matches Ok((v, q)) ==> p < q <= b.len(),
{
    if let Ok((t, q)) = rd_u8(b, p) {
        if t == 4 {
            if let Ok((n, r)) = rd_u32(b, q) {
                lemma_rd_values_advances(b, r, n as nat);
            }
        }
    }
}

/// Skipping `n` values never moves backwards nor past the end.
pub proof fn lemma_sk_values_advances(b: Seq<u8>, p: int, n: nat)
    requires
        0 <= p <= b.len(),
    ensures
        sk_values(b, p, n) matches Ok(q) ==> p <= q <= b.len(),
    decreases n,
{
    if n > 0 {
        if let Ok(q) = sk_value(b, p) {
            if p < q <= b.len() {
                lemma_sk_values_advances(b, q, (n - 1) as nat);
            }
        }
    }
}

/// Skipping a value takes at least one byte and never moves past the end.
pub proof fn lemma_sk_value_advances(b: Seq<u8>, p: int)
    requires
        0 <= p <= b.len(),
    ensures
        sk_value(b, p) matches Ok(q) ==> p < q <= b.len(),
{
    if let Ok((t, q)) = rd_u8(b, p) {
        if t == 4 {
            if let Ok((n, r)) = rd_u32(b, q) {
                lemma_sk_values_advances(b, r, n as nat);
            }
        }
    }
}

/// Writing a non-empty list of values writes the first, then the rest.
pub proof fn lemma_wr_values_unfold(vs: Seq<ValueModel>)
    requires
        vs.len() > 0,
    ensures
        wr_values(vs) == match wr_value(vs[0]) {
            Err(e) => Err(e),
            Ok(x) => match wr_values(vs.drop_first()) {
                Err(e) => Err(e),
                Ok(y) => Ok(x + y),
            },
        },
{
    reveal(wr_value);
    reveal_with_fuel(wr_values, 1);
}

/// Whether the bytes `x` stand in `b` from position `p` on.
pub open spec fn holds_at(b: Seq<u8>, p: int, x: Seq<u8>) -> bool {
    &&& 0 <= p
    &&& p + x.len() <= b.len()
    &&& b.subrange(p, p + x.len()) == x
}

proof fn lemma_holds_at_split(b: Seq<u8>, p: int, x: Seq<u8>, y: Seq<u8>)
    requires
        holds_at(b, p, x + y),
    ensures
        holds_at(b, p, x),
        holds_at(b, p + x.len(), y),
{
    assert(b.subrange(p, p + (x + y).len())[0] == (x + y)[0] || (x + y).len() == 0);
    assert forall|i: int| 0 <= i < x.len() implies b.subrange(p, p + x.len())[i] == x[i] by {
        assert(b.subrange(p, p + (x + y).len())[i] == (x + y)[i]);
    }
    assert(b.subrange(p, p + x.len()) =~= x);
    assert forall|i: int| 0 <= i < y.len() implies b.subrange(p + x.len(), p + x.len() + y.len())[i]
        == y[i] by {
        assert(b.subrange(p, p + (x + y).len())[x.len() + i] == (x + y)[x.len() + i]);
    }
    assert(b.subrange(p + x.len(), p + x.len() + y.len()) =~= y);
}

proof fn lemma_le32_of_bytes(x: u32)
    ensures
        le32(u32_bytes(x), 0) == x,
{
    let b = u32_bytes(x);
    let b0 = (x % 256) as u8;
    let b1 = ((x / 256) % 256) as u8;
    let b2 = ((x / 65536) % 256) as u8;
    let b3 = ((x / 16777216) % 256) as u8;
    assert(b[0] == b0 && b[1] == b1 && b[2] == b2 && b[3] == b3);
    assert(x % 256 + 256 * ((x / 256) % 256) + 65536 * ((x / 65536) % 256) + 16777216 * ((x
        / 16777216) % 256) == x) by (bit_vector);
}

proof fn lemma_le64_of_bytes(x: u64)
    ensures
        le64(u64_bytes(x), 0) == x,
{
    let lo = (x % 4294967296) as u32;
    let hi = (x / 4294967296) as u32;
    lemma_le32_of_bytes(lo);
    lemma_le32_of_bytes(hi);
    let b = u64_bytes(x);
    assert(u32_bytes(lo) =~= b.subrange(0, 4));
    assert(u32_bytes(hi) =~= b.subrange(4, 8));
    assert(le32(b, 0) == le32(u32_bytes(lo), 0));
    assert(le32(b, 4) == le32(u32_bytes(hi), 0));
    assert(lo + 4294967296 * hi == x) by (nonlinear_arith)
        requires
            lo == x % 4294967296,
            hi == x / 4294967296,
    ;
}

proof fn lemma_rd_u8_at(b: Seq<u8>, p: int, t: u8)
    requires
        holds_at(b, p, seq![t]),
        b.len() <= usize::MAX,
    ensures
        rd_u8(b, p) == Ok::<(u8, int), ErrorModel>((t, p + 1)),
{
    assert(b.subrange(p, p + 1)[0] == t);
}

proof fn lemma_rd_u32_at(b: Seq<u8>, p: int, x: u32)
    requires
        holds_at(b, p, u32_bytes(x)),
        b.len() <= usize::MAX,
    ensures
        rd_u32(b, p) == Ok::<(u32, int), ErrorModel>((x, p + 4)),
{
    lemma_le32_of_bytes(x);
    let s = b.subrange(p, p + 4);
    assert(s[0] == b[p] && s[1] == b[p + 1] && s[2] == b[p + 2] && s[3] == b[p + 3]);
    assert(le32(b, p) == le32(u32_bytes(x), 0));
}

proof fn lemma_rd_u64_at(b: Seq<u8>, p: int, x: u64)
    requires
        holds_at(b, p, u64_bytes(x)),
        b.len() <= usize::MAX,
    ensures
        rd_u64(b, p) == Ok::<(u64, int), ErrorModel>((x, p + 8)),
{
    lemma_le64_of_bytes(x);
    let s = b.subrange(p, p + 8);
    let u = u64_bytes(x);
    assert(s[0] == b[p] && s[1] == b[p + 1] && s[2] == b[p + 2] && s[3] == b[p + 3]);
    assert(s[4] == b[p + 4] && s[5] == b[p + 5] && s[6] == b[p + 6] && s[7] == b[p + 7]);
    assert(le32(b, p) == le32(u, 0));
    assert(le32(b, p + 4) == le32(u, 4));
    assert(le64(b, p) == le64(u, 0));
}

proof fn lemma_rd_string_at(b: Seq<u8>, p: int, s: Seq<char>, x: Seq<u8>)
    requires
        wr_string(s) == Ok::<Seq<u8>, ErrorModel>(x),
        holds_at(b, p, x),
        b.len() <= usize::MAX,
    ensures
        rd_string(b, p) == Ok::<(Seq<char>, int), ErrorModel>((s, p + x.len())),
        sk_string(b, p) == Ok::<int, ErrorModel>(p + x.len()),
{
    let e = encode_utf8(s);
    let n = e.len() as u32;
    assert(x == u32_bytes(n) + e);
    lemma_holds_at_split(b, p, u32_bytes(n), e);
    lemma_rd_u32_at(b, p, n);
    encode_utf8_valid_utf8(s);
    encode_utf8_decode_utf8(s);
}

proof fn lemma_rd_tagged_name_at(b: Seq<u8>, p: int, name: Seq<char>, table: NameTable, x: Seq<u8>)
    requires
        wr_tagged_name(name, table) == Ok::<Seq<u8>, ErrorModel>(x),
        holds_at(b, p, x),
        b.len() <= usize::MAX,
    ensures
        rd_tagged_name(b, p, table) == Ok::<(Seq<char>, int), ErrorModel>((name, p + x.len())),
        sk_tagged_name(b, p, table) == Ok::<int, ErrorModel>(p + x.len()),
{
    reveal(wr_tagged_name);
    reveal(rd_tagged_name);
    reveal(sk_tagged_name);
    lemma_table_roundtrip(table, name);
    match table_tag(table, name) {
        Some(t) => {
            lemma_rd_u8_at(b, p, t);
        },
        None => {
            let y = wr_string(name)->Ok_0;
            assert(x == seq![0u8] + y);
            lemma_holds_at_split(b, p, seq![0u8], y);
            lemma_rd_u8_at(b, p, 0u8);
            lemma_rd_string_at(b, p + 1, name, y);
        },
    }
}

/// A name written with a table reads back, with that table, as the same
/// name, and the read ends where the writing did: one tag byte for a name
/// that the table has, else the custom tag, a four-byte length and the
/// name's UTF-8.
pub proof fn tagged_name_roundtrip(name: Seq<char>, table: NameTable)
    requires
        wr_tagged_name(name, table) is Ok,
        wr_tagged_name(name, table)->Ok_0.len() <= usize::MAX,
    ensures
        rd_tagged_name(wr_tagged_name(name, table)->Ok_0, 0, table) == Ok::<
            (Seq<char>, int),
            ErrorModel,
        >((name, wr_tagged_name(name, table)->Ok_0.len() as int)),
        wr_tagged_name(name, table)->Ok_0.len() == if table_tag(table, name) is Some {
            1
        } else {
            5 + encode_utf8(name).len()
        },
{
    let x = wr_tagged_name(name, table)->Ok_0;
    assert(x.subrange(0, x.len() as int) =~= x);
    lemma_rd_tagged_name_at(x, 0, name, table, x);
    reveal(wr_tagged_name);
}

proof fn lemma_wr_value_nonempty(v: ValueModel)
    ensures
        wr_value(v) matches Ok(x) ==> x.len() >= 1,
{
    reveal(wr_value);
}

/// Reading a written value at its position gives the value back.
proof fn lemma_rd_value_at(b: Seq<u8>, p: int, v: ValueModel, x: Seq<u8>)
    requires
        wr_value(v) == Ok::<Seq<u8>, ErrorModel>(x),
        holds_at(b, p, x),
        b.len() <= usize::MAX,
    ensures
        rd_value(b, p) == Ok::<(ValueModel, int), ErrorModel>((v, p + x.len())),
    decreases v,
{
    reveal(wr_value);
    match v {
        ValueModel::Number(n) => {
            lemma_holds_at_split(b, p, seq![0u8], u64_bytes(n));
            lemma_rd_u8_at(b, p, 0u8);
            lemma_rd_u64_at(b, p + 1, n);
        },
        ValueModel::Str(s) => {
            let y = wr_string(s)->Ok_0;
            lemma_holds_at_split(b, p, seq![1u8], y);
            lemma_rd_u8_at(b, p, 1u8);
            lemma_rd_string_at(b, p + 1, s, y);
        },
        ValueModel::Ident(s) => {
            let y = wr_string(s)->Ok_0;
            lemma_holds_at_split(b, p, seq![2u8], y);
            lemma_rd_u8_at(b, p, 2u8);
            lemma_rd_string_at(b, p + 1, s, y);
        },
        ValueModel::Bool(f) => {
            let t: u8 = if f { 1u8 } else { 0u8 };
            assert(x == seq![3u8] + seq![t]);
            lemma_holds_at_split(b, p, seq![3u8], seq![t]);
            lemma_rd_u8_at(b, p, 3u8);
            lemma_rd_u8_at(b, p + 1, t);
        },
        ValueModel::Vector(vs) => {
            let l = u32_bytes(vs.len() as u32);
            let y = wr_values(vs)->Ok_0;
            assert(x == seq![4u8] + l + y);
            lemma_holds_at_split(b, p, seq![4u8] + l, y);
            lemma_holds_at_split(b, p, seq![4u8], l);
            lemma_rd_u8_at(b, p, 4u8);
            lemma_rd_u32_at(b, p + 1, vs.len() as u32);
            lemma_rd_values_at(b, p + 5, vs, y);
        },
    }
}

/// Reading written values at their position gives them back.
proof fn lemma_rd_values_at(b: Seq<u8>, p: int, vs: Seq<ValueModel>, x: Seq<u8>)
    requires
        wr_values(vs) == Ok::<Seq<u8>, ErrorModel>(x),
        holds_at(b, p, x),
        b.len() <= usize::MAX,
    ensures
        rd_values(b, p, vs.len()) == Ok::<(Seq<ValueModel>, int), ErrorModel>((vs, p + x.len())),
    decreases vs,
{
    if vs.len() == 0 {
        assert(vs =~= Seq::<ValueModel>::empty());
    } else {
        lemma_wr_values_unfold(vs);
        let x0 = wr_value(vs[0])->Ok_0;
        let x1 = wr_values(vs.drop_first())->Ok_0;
        assert(x == x0 + x1);
        lemma_holds_at_split(b, p, x0, x1);
        lemma_wr_value_nonempty(vs[0]);
        lemma_rd_value_at(b, p, vs[0], x0);
        lemma_rd_values_at(b, p + x0.len(), vs.drop_first(), x1);
        assert(seq![vs[0]] + vs.drop_first() =~= vs);
    }
}

proof fn lemma_rd_property_at(b: Seq<u8>, p: int, prop: PropertyModel, x: Seq<u8>)
    requires
        wr_property(prop) == Ok::<Seq<u8>, ErrorModel>(x),
        holds_at(b, p, x),
        b.len() <= usize::MAX,
    ensures
        rd_property(b, p) == Ok::<(PropertyModel, int), ErrorModel>((prop, p + x.len())),
        x.len() >= 1,
{
    reveal(wr_property);
    let k = wr_tagged_name(prop.key, NameTable::Property)->Ok_0;
    let v = wr_value(prop.value)->Ok_0;
    assert(x == k + v);
    lemma_holds_at_split(b, p, k, v);
    lemma_rd_tagged_name_at(b, p, prop.key, NameTable::Property, k);
    lemma_rd_value_at(b, p + k.len(), prop.value, v);
    lemma_wr_value_nonempty(prop.value);
}

proof fn lemma_wr_properties_unfold(ps: Seq<PropertyModel>)
    requires
        ps.len() > 0,
    ensures
        wr_properties(ps) == match wr_property(ps[0]) {
            Err(e) => Err(e),
            Ok(x) => match wr_properties(ps.drop_first()) {
                Err(e) => Err(e),
                Ok(y) => Ok(x + y),
            },
        },
{
}

proof fn lemma_rd_properties_at(b: Seq<u8>, p: int, ps: Seq<PropertyModel>, x: Seq<u8>)
    requires
        wr_properties(ps) == Ok::<Seq<u8>, ErrorModel>(x),
        holds_at(b, p, x),
        b.len() <= usize::MAX,
    ensures
        rd_properties(b, p, ps.len()) == Ok::<(Seq<PropertyModel>, int), ErrorModel>(
            (ps, p + x.len()),
        ),
    decreases ps.len(),
{
    if ps.len() == 0 {
        assert(ps =~= Seq::<PropertyModel>::empty());
    } else {
        lemma_wr_properties_unfold(ps);
        let x0 = wr_property(ps[0])->Ok_0;
        let x1 = wr_properties(ps.drop_first())->Ok_0;
        assert(x == x0 + x1);
        lemma_holds_at_split(b, p, x0, x1);
        lemma_rd_property_at(b, p, ps[0], x0);
        lemma_rd_properties_at(b, p + x0.len(), ps.drop_first(), x1);
        assert(seq![ps[0]] + ps.drop_first() =~= ps);
    }
}

proof fn lemma_rd_edit_at(b: Seq<u8>, p: int, e: EditModel, x: Seq<u8>)
    requires
        wr_edit(e) == Ok::<Seq<u8>, ErrorModel>(x),
        holds_at(b, p, x),
        b.len() <= usize::MAX,
    ensures
        rd_edit(b, p) == Ok::<(EditModel, int), ErrorModel>((e, p + x.len())),
{
    reveal(wr_edit);
    reveal(rd_edit);
    let t = operation_tag(e.operation);
    let k = wr_tagged_name(e.primitive, NameTable::Primitive)->Ok_0;
    let l = u32_bytes(e.properties.len() as u32);
    let y = wr_properties(e.properties)->Ok_0;
    assert(x == seq![t] + k + l + y);
    lemma_holds_at_split(b, p, seq![t] + k + l, y);
    lemma_holds_at_split(b, p, seq![t] + k, l);
    lemma_holds_at_split(b, p, seq![t], k);
    lemma_rd_u8_at(b, p, t);
    lemma_rd_tagged_name_at(b, p + 1, e.primitive, NameTable::Primitive, k);
    lemma_rd_u32_at(b, p + 1 + k.len(), e.properties.len() as u32);
    lemma_rd_properties_at(b, p + 1 + k.len() + 4, e.properties, y);
}

proof fn lemma_rd_import_at(b: Seq<u8>, p: int, i: ImportModel, x: Seq<u8>)
    requires
        wr_import(i) == Ok::<Seq<u8>, ErrorModel>(x),
        holds_at(b, p, x),
        b.len() <= usize::MAX,
    ensures
        rd_import(b, p) == Ok::<(ImportModel, int), ErrorModel>((i, p + x.len())),
{
    reveal(wr_import);
    reveal(rd_import);
    let t = syntax_tag(i.syntax);
    let y = wr_string(i.path)->Ok_0;
    match i.alias {
        Some(a) => {
            let z = wr_string(a)->Ok_0;
            assert(x == seq![t] + (seq![1u8] + z) + y);
            lemma_holds_at_split(b, p, seq![t] + (seq![1u8] + z), y);
            lemma_holds_at_split(b, p, seq![t], seq![1u8] + z);
            lemma_holds_at_split(b, p + 1, seq![1u8], z);
            lemma_rd_u8_at(b, p, t);
            lemma_rd_u8_at(b, p + 1, 1u8);
            lemma_rd_string_at(b, p + 2, a, z);
            lemma_rd_string_at(b, p + 2 + z.len(), i.path, y);
        },
        None => {
            assert(x == seq![t] + seq![0u8] + y);
            lemma_holds_at_split(b, p, seq![t] + seq![0u8], y);
            lemma_holds_at_split(b, p, seq![t], seq![0u8]);
            lemma_rd_u8_at(b, p, t);
            lemma_rd_u8_at(b, p + 1, 0u8);
            lemma_rd_string_at(b, p + 2, i.path, y);
        },
    }
}

proof fn lemma_rd_statement_at(b: Seq<u8>, p: int, st: StatementModel, x: Seq<u8>)
    requires
        wr_statement(st) == Ok::<Seq<u8>, ErrorModel>(x),
        holds_at(b, p, x),
        b.len() <= usize::MAX,
    ensures
        rd_statement(b, p) == Ok::<(StatementModel, int), ErrorModel>((st, p + x.len())),
        x.len() >= 1,
{
    reveal(wr_statement);
    reveal(rd_statement);
    match st {
        StatementModel::MaterialImport(i) => {
            let y = wr_import(i)->Ok_0;
            lemma_holds_at_split(b, p, seq![0u8], y);
            lemma_rd_u8_at(b, p, 0u8);
            lemma_rd_import_at(b, p + 1, i, y);
        },
        StatementModel::Edit(e) => {
            let y = wr_edit(e)->Ok_0;
            lemma_holds_at_split(b, p, seq![1u8], y);
            lemma_rd_u8_at(b, p, 1u8);
            lemma_rd_edit_at(b, p + 1, e, y);
        },
    }
}

proof fn lemma_wr_statements_unfold(ss: Seq<StatementModel>)
    requires
        ss.len() > 0,
    ensures
        wr_statements(ss) == match wr_statement(ss[0]) {
            Err(e) => Err(e),
            Ok(x) => match wr_statements(ss.drop_first()) {
                Err(e) => Err(e),
                Ok(y) => Ok(x + y),
            },
        },
{
}

proof fn lemma_rd_statements_at(b: Seq<u8>, p: int, ss: Seq<StatementModel>, x: Seq<u8>)
    requires
        wr_statements(ss) == Ok::<Seq<u8>, ErrorModel>(x),
        holds_at(b, p, x),
        b.len() <= usize::MAX,
    ensures
        rd_statements(b, p, ss.len()) == Ok::<(Seq<StatementModel>, int), ErrorModel>(
            (ss, p + x.len()),
        ),
    decreases ss.len(),
{
    if ss.len() == 0 {
        assert(ss =~= Seq::<StatementModel>::empty());
    } else {
        lemma_wr_statements_unfold(ss);
        let x0 = wr_statement(ss[0])->Ok_0;
        let x1 = wr_statements(ss.drop_first())->Ok_0;
        assert(x == x0 + x1);
        lemma_holds_at_split(b, p, x0, x1);
        lemma_rd_statement_at(b, p, ss[0], x0);
        lemma_rd_statements_at(b, p + x0.len(), ss.drop_first(), x1);
        assert(seq![ss[0]] + ss.drop_first() =~= ss);
    }
}

/// Reading back what a document was written as gives the document: for
/// every document whose writing succeeds, reading its bytes succeeds and
/// gives that same document.
pub proof fn binary_roundtrip(d: DocumentModel)
    requires
        binary_encoding(d) is Ok,
        binary_encoding(d)->Ok_0.len() <= usize::MAX,
    ensures
        binary_document(binary_encoding(d)->Ok_0) == Ok::<DocumentModel, ErrorModel>(d),
{
    let b = binary_encoding(d)->Ok_0;
    let l = u32_bytes(d.statements.len() as u32);
    let y = wr_statements(d.statements)->Ok_0;
    assert(b == magic() + u32_bytes(d.version) + l + y);
    assert(holds_at(b, 0, b)) by {
        assert(b.subrange(0, b.len() as int) =~= b);
    }
    lemma_holds_at_split(b, 0, magic() + u32_bytes(d.version) + l, y);
    lemma_holds_at_split(b, 0, magic() + u32_bytes(d.version), l);
    lemma_holds_at_split(b, 0, magic(), u32_bytes(d.version));
    lemma_rd_u32_at(b, 4, d.version);
    lemma_rd_u32_at(b, 8, d.statements.len() as u32);
    lemma_rd_statements_at(b, 12, d.statements, y);
}

proof fn lemma_skip_tagged_name(b: Seq<u8>, p: int, table: NameTable)
    ensures
        rd_tagged_name(b, p, table) matches Ok((n, q)) ==> sk_tagged_name(b, p, table) == Ok::<
            int,
            ErrorModel,
        >(q),
{
    reveal(rd_tagged_name);
    reveal(sk_tagged_name);
}

proof fn lemma_skip_value(b: Seq<u8>, p: int)
    requires
        0 <= p <= b.len(),
    ensures
        rd_value(b, p) matches Ok((v, q)) ==> sk_value(b, p) == Ok::<int, ErrorModel>(q),
    decreases b.len() - p, 0int,
{
    if let Ok((t, q)) = rd_u8(b, p) {
        if t == 4 {
            if let Ok((n, r)) = rd_u32(b, q) {
                lemma_skip_values(b, r, n as nat);
            }
        }
    }
}

proof fn lemma_skip_values(b: Seq<u8>, p: int, n: nat)
    requires
        0 <= p <= b.len(),
    ensures
        rd_values(b, p, n) matches Ok((vs, q)) ==> sk_values(b, p, n) == Ok::<int, ErrorModel>(q),
    decreases b.len() - p, 1int,
{
    if n > 0 {
        lemma_skip_value(b, p);
        if let Ok((v, q)) = rd_value(b, p) {
            if p < q <= b.len() {
                lemma_skip_values(b, q, (n - 1) as nat);
            }
        }
    }
}

proof fn lemma_skip_properties(b: Seq<u8>, p: int, n: nat)
    requires
        0 <= p <= b.len(),
    ensures
        rd_properties(b, p, n) matches Ok((ps, q)) ==> sk_properties(b, p, n) == Ok::<
            int,
            ErrorModel,
        >(q),
    decreases n,
{
    if n > 0 {
        lemma_skip_tagged_name(b, p, NameTable::Property);
        if let Ok((k, q)) = rd_tagged_name(b, p, NameTable::Property) {
            lemma_tagged_name_bounds(b, p, NameTable::Property);
            lemma_skip_value(b, q);
            if let Ok((v, r)) = rd_value(b, q) {
                lemma_rd_value_advances(b, q);
                lemma_skip_properties(b, r, (n - 1) as nat);
            }
        }
    }
}

proof fn lemma_tagged_name_bounds(b: Seq<u8>, p: int, table: NameTable)
    requires
        0 <= p <= b.len(),
    ensures
        rd_tagged_name(b, p, table) matches Ok((n, q)) ==> p < q <= b.len(),
{
    reveal(rd_tagged_name);
}

proof fn lemma_skip_edit(b: Seq<u8>, p: int)
    requires
        0 <= p <= b.len(),
    ensures
        rd_edit(b, p) matches Ok((e, q)) ==> sk_edit(b, p) == Ok::<int, ErrorModel>(q),
{
    reveal(rd_edit);
    reveal(sk_edit);
    if let Ok((t, q)) = rd_u8(b, p) {
        lemma_skip_tagged_name(b, q, NameTable::Primitive);
        lemma_tagged_name_bounds(b, q, NameTable::Primitive);
        if let Ok((n, r)) = rd_tagged_name(b, q, NameTable::Primitive) {
            if let Ok((c, s)) = rd_u32(b, r) {
                lemma_skip_properties(b, s, c as nat);
            }
        }
    }
}

proof fn lemma_skip_import(b: Seq<u8>, p: int)
    ensures
        rd_import(b, p) matches Ok((i, q)) ==> sk_import(b, p) == Ok::<int, ErrorModel>(q),
{
    reveal(rd_import);
    reveal(sk_import);
}

/// Counting the statements of a list that starts with `s`.
proof fn lemma_counts_prepend(s: StatementModel, ss: Seq<StatementModel>)
    ensures
        import_count(seq![s] + ss) == import_count(ss) + if s is MaterialImport {
            1nat
        } else {
            0nat
        },
        edit_count(seq![s] + ss) == edit_count(ss) + if s is Edit {
            1nat
        } else {
            0nat
        },
    decreases ss.len(),
{
    let whole = seq![s] + ss;
    if ss.len() == 0 {
        assert(whole.drop_last() =~= Seq::<StatementModel>::empty());
        assert(whole.last() == s);
        assert(import_count(Seq::<StatementModel>::empty()) == 0);
        assert(edit_count(Seq::<StatementModel>::empty()) == 0);
    } else {
        assert(whole.drop_last() =~= seq![s] + ss.drop_last());
        assert(whole.last() == ss.last());
        lemma_counts_prepend(s, ss.drop_last());
    }
}

/// Every statement is an import or an edit.
pub proof fn lemma_counts_total(ss: Seq<StatementModel>)
    ensures
        import_count(ss) + edit_count(ss) == ss.len(),
    decreases ss.len(),
{
    if ss.len() > 0 {
        lemma_counts_total(ss.drop_last());
    }
}

proof fn lemma_skip_statements(b: Seq<u8>, p: int, n: nat)
    requires
        0 <= p <= b.len(),
    ensures
        rd_statements(b, p, n) matches Ok((ss, q)) ==> ss.len() == n && sk_statements(b, p, n)
            == Ok::<(nat, nat, int), ErrorModel>((import_count(ss), edit_count(ss), q)),
    decreases n,
{
    reveal(rd_statement);
    if n > 0 {
        if let Ok((st, q)) = rd_statement(b, p) {
            if let Ok((t, q1)) = rd_u8(b, p) {
                if t == 0 {
                    lemma_skip_import(b, q1);
                    lemma_import_bounds(b, q1);
                } else {
                    lemma_skip_edit(b, q1);
                    lemma_edit_bounds(b, q1);
                }
            }
            lemma_statement_bounds(b, p);
            lemma_skip_statements(b, q, (n - 1) as nat);
            if let Ok((ss, r)) = rd_statements(b, q, (n - 1) as nat) {
                lemma_counts_prepend(st, ss);
            }
        }
    }
}

proof fn lemma_import_bounds(b: Seq<u8>, p: int)
    requires
        0 <= p <= b.len(),
    ensures
        rd_import(b, p) matches Ok((i, q)) ==> p < q <= b.len(),
{
    reveal(rd_import);
}

proof fn lemma_properties_bounds(b: Seq<u8>, p: int, n: nat)
    requires
        0 <= p <= b.len(),
    ensures
        rd_properties(b, p, n) matches Ok((ps, q)) ==> p <= q <= b.len(),
    decreases n,
{
    if n > 0 {
        lemma_tagged_name_bounds(b, p, NameTable::Property);
        if let Ok((k, q)) = rd_tagged_name(b, p, NameTable::Property) {
            lemma_rd_value_advances(b, q);
            if let Ok((v, r)) = rd_value(b, q) {
                lemma_properties_bounds(b, r, (n - 1) as nat);
            }
        }
    }
}

proof fn lemma_edit_bounds(b: Seq<u8>, p: int)
    requires
        0 <= p <= b.len(),
    ensures
        rd_edit(b, p) matches Ok((e, q)) ==> p < q <= b.len(),
{
    reveal(rd_edit);
    if let Ok((t, q)) = rd_u8(b, p) {
        lemma_tagged_name_bounds(b, q, NameTable::Primitive);
        if let Ok((n, r)) = rd_tagged_name(b, q, NameTable::Primitive) {
            if let Ok((c, s)) = rd_u32(b, r) {
                lemma_properties_bounds(b, s, c as nat);
            }
        }
    }
}

proof fn lemma_statement_bounds(b: Seq<u8>, p: int)
    requires
        0 <= p <= b.len(),
    ensures
        rd_statement(b, p) matches Ok((s, q)) ==> p < q <= b.len(),
{
    reveal(rd_statement);
    if let Ok((t, q)) = rd_u8(b, p) {
        lemma_import_bounds(b, q);
        lemma_edit_bounds(b, q);
    }
}

/// A binary document that reads also checks, and the check reports its
/// version and how many imports and edits it holds.
pub proof fn binary_check_agrees(b: Seq<u8>)
    requires
        binary_document(b) is Ok,
    ensures
        binary_summary(b) matches Ok(s) && summarizes(s, binary_document(b)->Ok_0),
{
    if let Ok((version, n, p)) = rd_header(b) {
        lemma_skip_statements(b, p, n as nat);
        if let Ok((ss, q)) = rd_statements(b, p, n as nat) {
            lemma_counts_total(ss);
        }
    }
}

// ------------------------------------------------ what the errors can be

proof fn lemma_sk_value_binary(b: Seq<u8>, p: int)
    requires
        0 <= p <= b.len(),
    ensures
        sk_value(b, p) matches Err(e) ==> e is Binary,
    decreases b.len() - p, 0int,
{
    if let Ok((t, q)) = rd_u8(b, p) {
        if t == 4 {
            if let Ok((n, r)) = rd_u32(b, q) {
                lemma_sk_values_binary(b, r, n as nat);
            }
        }
    }
}

proof fn lemma_sk_values_binary(b: Seq<u8>, p: int, n: nat)
    requires
        0 <= p <= b.len(),
    ensures
        sk_values(b, p, n) matches Err(e) ==> e is Binary,
    decreases b.len() - p, 1int,
{
    if n > 0 {
        lemma_sk_value_binary(b, p);
        if let Ok(q) = sk_value(b, p) {
            if p < q <= b.len() {
                lemma_sk_values_binary(b, q, (n - 1) as nat);
            }
        }
    }
}

proof fn lemma_sk_tagged_name_binary(b: Seq<u8>, p: int, table: NameTable)
    ensures
        sk_tagged_name(b, p, table) matches Err(e) ==> e is Binary,
        sk_tagged_name(b, p, table) matches Ok(q) ==> q <= b.len(),
{
    reveal(sk_tagged_name);
}

proof fn lemma_sk_properties_binary(b: Seq<u8>, p: int, n: nat)
    requires
        0 <= p <= b.len(),
    ensures
        sk_properties(b, p, n) matches Err(e) ==> e is Binary,
    decreases n,
{
    if n > 0 {
        lemma_sk_tagged_name_binary(b, p, NameTable::Property);
        if let Ok(q) = sk_tagged_name(b, p, NameTable::Property) {
            reveal(sk_tagged_name);
            lemma_sk_value_binary(b, q);
            lemma_sk_value_advances(b, q);
            if let Ok(r) = sk_value(b, q) {
                lemma_sk_properties_binary(b, r, (n - 1) as nat);
            }
        }
    }
}

proof fn lemma_sk_edit_binary(b: Seq<u8>, p: int)
    requires
        0 <= p <= b.len(),
    ensures
        sk_edit(b, p) matches Err(e) ==> e is Binary,
{
    reveal(sk_edit);
    if let Ok((t, q)) = rd_u8(b, p) {
        lemma_sk_tagged_name_binary(b, q, NameTable::Primitive);
        if let Ok(r) = sk_tagged_name(b, q, NameTable::Primitive) {
            reveal(sk_tagged_name);
            if let Ok((n, s)) = rd_u32(b, r) {
                lemma_sk_properties_binary(b, s, n as nat);
            }
        }
    }
}

proof fn lemma_sk_statements_binary(b: Seq<u8>, p: int, n: nat)
    requires
        0 <= p <= b.len(),
    ensures
        sk_statements(b, p, n) matches Err(e) ==> e is Binary,
    decreases n,
{
    reveal(sk_import);
    if n > 0 {
        if let Ok((t, q)) = rd_u8(b, p) {
            if t == 0 {
                if let Ok(r) = sk_import(b, q) {
                    lemma_sk_import_bounds(b, q);
                    lemma_sk_statements_binary(b, r, (n - 1) as nat);
                }
            } else if t == 1 {
                lemma_sk_edit_binary(b, q);
                if let Ok(r) = sk_edit(b, q) {
                    lemma_sk_edit_bounds(b, q);
                    lemma_sk_statements_binary(b, r, (n - 1) as nat);
                }
            }
        }
    }
}

proof fn lemma_sk_import_bounds(b: Seq<u8>, p: int)
    ensures
        sk_import(b, p) matches Ok(q) ==> q <= b.len(),
{
    reveal(sk_import);
}

proof fn lemma_sk_edit_bounds(b: Seq<u8>, p: int)
    requires
        0 <= p <= b.len(),
    ensures
        sk_edit(b, p) matches Ok(q) ==> 0 <= q <= b.len(),
{
    reveal(sk_edit);
    if let Ok((t, q)) = rd_u8(b, p) {
        lemma_sk_tagged_name_binary(b, q, NameTable::Primitive);
        if let Ok(r) = sk_tagged_name(b, q, NameTable::Primitive) {
            reveal(sk_tagged_name);
            if let Ok((n, s)) = rd_u32(b, r) {
                lemma_sk_properties_bounds(b, s, n as nat);
            }
        }
    }
}

proof fn lemma_sk_properties_bounds(b: Seq<u8>, p: int, n: nat)
    requires
        0 <= p <= b.len(),
    ensures
        sk_properties(b, p, n) matches Ok(q) ==> 0 <= q <= b.len(),
    decreases n,
{
    if n > 0 {
        lemma_sk_tagged_name_binary(b, p, NameTable::Property);
        if let Ok(q) = sk_tagged_name(b, p, NameTable::Property) {
            reveal(sk_tagged_name);
            lemma_sk_value_advances(b, q);
            if let Ok(r) = sk_value(b, q) {
                lemma_sk_properties_bounds(b, r, (n - 1) as nat);
            }
        }
    }
}

/// Checking the binary form fails only with a binary-form error: it never
/// decodes text, so it never meets bad UTF-8.
pub proof fn check_binary_errors(b: Seq<u8>)
    ensures
        binary_summary(b) matches Err(e) ==> e is Binary,
{
    if let Ok((version, n, p)) = rd_header(b) {
        lemma_sk_statements_binary(b, p, n as nat);
    }
}

proof fn lemma_value_utf8(b: Seq<u8>, p: int)
    requires
        0 <= p <= b.len(),
    ensures
        sk_value(b, p) is Ok && rd_value(b, p) is Err ==> rd_value(b, p) == Err::<
            (ValueModel, int),
            ErrorModel,
        >(ErrorModel::Utf8),
    decreases b.len() - p, 0int,
{
    if let Ok((t, q)) = rd_u8(b, p) {
        if t == 4 {
            if let Ok((n, r)) = rd_u32(b, q) {
                lemma_values_utf8(b, r, n as nat);
            }
        }
    }
}

proof fn lemma_values_utf8(b: Seq<u8>, p: int, n: nat)
    requires
        0 <= p <= b.len(),
    ensures
        sk_values(b, p, n) is Ok && rd_values(b, p, n) is Err ==> rd_values(b, p, n) == Err::<
            (Seq<ValueModel>, int),
            ErrorModel,
        >(ErrorModel::Utf8),
    decreases b.len() - p, 1int,
{
    if n > 0 {
        lemma_value_utf8(b, p);
        lemma_skip_value(b, p);
        if let Ok((v, q)) = rd_value(b, p) {
            if p < q <= b.len() {
                lemma_values_utf8(b, q, (n - 1) as nat);
            }
        }
    }
}

proof fn lemma_tagged_name_utf8(b: Seq<u8>, p: int, table: NameTable)
    ensures
        sk_tagged_name(b, p, table) is Ok && rd_tagged_name(b, p, table) is Err
            ==> rd_tagged_name(b, p, table) == Err::<(Seq<char>, int), ErrorModel>(
            ErrorModel::Utf8,
        ),
{
    reveal(rd_tagged_name);
    reveal(sk_tagged_name);
}

proof fn lemma_properties_utf8(b: Seq<u8>, p: int, n: nat)
    requires
        0 <= p <= b.len(),
    ensures
        sk_properties(b, p, n) is Ok && rd_properties(b, p, n) is Err ==> rd_properties(b, p, n)
            == Err::<(Seq<PropertyModel>, int), ErrorModel>(ErrorModel::Utf8),
    decreases n,
{
    if n > 0 {
        lemma_tagged_name_utf8(b, p, NameTable::Property);
        lemma_skip_tagged_name(b, p, NameTable::Property);
        if let Ok((k, q)) = rd_tagged_name(b, p, NameTable::Property) {
            lemma_tagged_name_bounds(b, p, NameTable::Property);
            lemma_value_utf8(b, q);
            lemma_skip_value(b, q);
            if let Ok((v, r)) = rd_value(b, q) {
                lemma_rd_value_advances(b, q);
                lemma_properties_utf8(b, r, (n - 1) as nat);
            }
        }
    }
}

proof fn lemma_edit_utf8(b: Seq<u8>, p: int)
    requires
        0 <= p <= b.len(),
    ensures
        sk_edit(b, p) is Ok && rd_edit(b, p) is Err ==> rd_edit(b, p) == Err::<
            (EditModel, int),
            ErrorModel,
        >(ErrorModel::Utf8),
{
    reveal(rd_edit);
    reveal(sk_edit);
    if let Ok((t, q)) = rd_u8(b, p) {
        lemma_tagged_name_utf8(b, q, NameTable::Primitive);
        lemma_skip_tagged_name(b, q, NameTable::Primitive);
        lemma_tagged_name_bounds(b, q, NameTable::Primitive);
        if let Ok((n, r)) = rd_tagged_name(b, q, NameTable::Primitive) {
            if let Ok((c, s)) = rd_u32(b, r) {
                lemma_properties_utf8(b, s, c as nat);
            }
        }
    }
}

proof fn lemma_statements_utf8(b: Seq<u8>, p: int, n: nat)
    requires
        0 <= p <= b.len(),
    ensures
        sk_statements(b, p, n) is Ok && rd_statements(b, p, n) is Err ==> rd_statements(b, p, n)
            == Err::<(Seq<StatementModel>, int), ErrorModel>(ErrorModel::Utf8),
    decreases n,
{
    reveal(rd_statement);
    reveal(rd_import);
    reveal(sk_import);
    if n > 0 {
        if let Ok((t, q1)) = rd_u8(b, p) {
            if t == 1 {
                lemma_edit_utf8(b, q1);
                lemma_skip_edit(b, q1);
            }
            lemma_statement_bounds(b, p);
            if let Ok((st, q)) = rd_statement(b, p) {
                lemma_statements_utf8(b, q, (n - 1) as nat);
            }
        }
    }
}

/// Where checking the binary form succeeds and reading it fails, the
/// failure is bad UTF-8 in a name or a string, which checking skips over.
pub proof fn check_binary_passes_only_bad_utf8(b: Seq<u8>)
    ensures
        binary_summary(b) is Ok && binary_document(b) is Err ==> binary_document(b) == Err::<
            DocumentModel,
            ErrorModel,
        >(ErrorModel::Utf8),
{
    if let Ok((version, n, p)) = rd_header(b) {
        lemma_statements_utf8(b, p, n as nat);
        lemma_skip_statements(b, p, n as nat);
    }
}

// ------------------------------------------------ when writing fails

/// Whether a text's UTF-8 length fits the four-byte length of the format.
pub open spec fn text_fits(s: Seq<char>) -> bool {
    encode_utf8(s).len() <= u32::MAX
}

/// Whether a name can be written: the table has it, or its text fits.
pub open spec fn name_fits(name: Seq<char>, table: NameTable) -> bool {
    table_tag(table, name) is Some || text_fits(name)
}

/// Whether every text and every vector length in a value fits.
pub open spec fn value_fits(v: ValueModel) -> bool
    decreases v,
{
    match v {
        ValueModel::Str(s) => text_fits(s),
        ValueModel::Ident(s) => text_fits(s),
        ValueModel::Vector(vs) => vs.len() <= u32::MAX && values_fit(vs),
        _ => true,
    }
}

/// Whether every value of a list fits.
pub open spec fn values_fit(vs: Seq<ValueModel>) -> bool
    decreases vs,
{
    vs.len() == 0 || (value_fits(vs[0]) && values_fit(vs.drop_first()))
}

/// Whether every property of a list fits.
pub open spec fn properties_fit(ps: Seq<PropertyModel>) -> bool
    decreases ps.len(),
{
    ps.len() == 0 || (name_fits(ps[0].key, NameTable::Property) && value_fits(ps[0].value)
        && properties_fit(ps.drop_first()))
}

/// Whether a statement fits: its names, texts, counts and values.
pub open spec fn statement_fits(st: StatementModel) -> bool {
    match st {
        StatementModel::MaterialImport(i) => (i.alias matches Some(a) ==> text_fits(a))
            && text_fits(i.path),
        StatementModel::Edit(e) => name_fits(e.primitive, NameTable::Primitive)
            && e.properties.len() <= u32::MAX && properties_fit(e.properties),
    }
}

/// Whether every statement of a list fits.
pub open spec fn statements_fit(ss: Seq<StatementModel>) -> bool
    decreases ss.len(),
{
    ss.len() == 0 || (statement_fits(ss[0]) && statements_fit(ss.drop_first()))
}

proof fn lemma_value_fits(v: ValueModel)
    ensures
        wr_value(v) is Ok <==> value_fits(v),
        wr_value(v) matches Err(e) ==> e is Binary,
    decreases v,
{
    reveal(wr_value);
    if let ValueModel::Vector(vs) = v {
        lemma_values_fit(vs);
    }
}

proof fn lemma_values_fit(vs: Seq<ValueModel>)
    ensures
        wr_values(vs) is Ok <==> values_fit(vs),
        wr_values(vs) matches Err(e) ==> e is Binary,
    decreases vs,
{
    reveal_with_fuel(wr_values, 1);
    if vs.len() > 0 {
        lemma_wr_values_unfold(vs);
        lemma_value_fits(vs[0]);
        lemma_values_fit(vs.drop_first());
    }
}

proof fn lemma_name_fits(name: Seq<char>, table: NameTable)
    ensures
        wr_tagged_name(name, table) is Ok <==> name_fits(name, table),
        wr_tagged_name(name, table) matches Err(e) ==> e is Binary,
{
    reveal(wr_tagged_name);
}

proof fn lemma_properties_fit(ps: Seq<PropertyModel>)
    ensures
        wr_properties(ps) is Ok <==> properties_fit(ps),
        wr_properties(ps) matches Err(e) ==> e is Binary,
    decreases ps.len(),
{
    reveal(wr_property);
    if ps.len() > 0 {
        lemma_name_fits(ps[0].key, NameTable::Property);
        lemma_value_fits(ps[0].value);
        lemma_properties_fit(ps.drop_first());
    }
}

proof fn lemma_statements_fit(ss: Seq<StatementModel>)
    ensures
        wr_statements(ss) is Ok <==> statements_fit(ss),
        wr_statements(ss) matches Err(e) ==> e is Binary,
    decreases ss.len(),
{
    reveal(wr_statement);
    reveal(wr_import);
    reveal(wr_edit);
    if ss.len() > 0 {
        if let StatementModel::Edit(e) = ss[0] {
            lemma_name_fits(e.primitive, NameTable::Primitive);
            lemma_properties_fit(e.properties);
        }
        lemma_statements_fit(ss.drop_first());
    }
}

/// Writing a document in the binary form fails exactly when its version is
/// not one this library writes, or a count, a length or a text in it does
/// not fit in 32 bits; and it then fails with a binary-form error.
pub proof fn encode_fails_exactly(d: DocumentModel)
    ensures
        binary_encoding(d) is Ok <==> is_supported_version(d.version) && d.statements.len()
            <= u32::MAX && statements_fit(d.statements),
        binary_encoding(d) matches Err(e) ==> e is Binary,
{
    lemma_statements_fit(d.statements);
}

} // verus!
