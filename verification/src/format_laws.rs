//! What the text and binary forms fix, stated apart from the functions that
//! carry it out: how a minus sign acts on a number, which number literals
//! the text form takes, which tag stands for which name and operation, and
//! how an operation is named.

use vstd::prelude::*;
use crate::binary_model::{rd_edit, rd_u8, wr_edit, wr_statement};
use crate::document::{EditModel, Operation, StatementModel, ValueModel, operation_debug, operation_name};
use crate::grammar_model::{Stream, g_value, operation_of};
use crate::tags::{NameTable, table_name, table_tag};
use crate::token_model::{KindModel, all_digits, count_char, exponent_start, valid_number};

verus! {

/// A minus sign before a number negates it, whatever the number: the value
/// read has the number's bits with the sign bit, and only the sign bit,
/// turned over.
pub proof fn minus_negates_number(st: Stream, k: int, b: u64)
    requires
        0 <= k,
        k + 2 < st.toks.len(),
        st.toks[k].kind == KindModel::Minus,
        st.toks[k + 1].kind == KindModel::Number(b),
    ensures
        g_value(st, k) matches Ok((ValueModel::Number(x), k2)) && k2 == k + 2 && x
            % 0x8000_0000_0000_0000 == b % 0x8000_0000_0000_0000 && (x >= 0x8000_0000_0000_0000)
            != (b >= 0x8000_0000_0000_0000),
{
}

proof fn lemma_exponent_start_skip(t: Seq<char>, i: int, k: int)
    requires
        0 <= i <= k <= t.len(),
        forall|j: int| i <= j < k ==> t[j] != 'e' && t[j] != 'E',
    ensures
        exponent_start(t, i) == exponent_start(t, k),
    decreases k - i,
{
    if i < k {
        lemma_exponent_start_skip(t, i + 1, k);
    }
}

proof fn lemma_count_char_concat(a: Seq<char>, b: Seq<char>, c: char)
    ensures
        count_char(a + b, c) == count_char(a, c) + count_char(b, c),
    decreases b.len(),
{
    if b.len() == 0 {
        assert(a + b =~= a);
    } else {
        assert((a + b).drop_last() =~= a + b.drop_last());
        lemma_count_char_concat(a, b.drop_last(), c);
    }
}

proof fn lemma_count_char_digits(d: Seq<char>)
    requires
        all_digits(d),
    ensures
        count_char(d, '.') == 0,
    decreases d.len(),
{
    if d.len() > 0 {
        assert(all_digits(d.drop_last()));
        lemma_count_char_digits(d.drop_last());
    }
}

/// The text form takes every decimal literal that `f64::from_str` takes
/// among runs of digits, `.`, `e`, `E`, `+` and `-`: digits with an
/// optional fraction (`1`, `1.`, `1.5`, `.5`; at least one digit in all),
/// then an optional exponent `e` or `E` with an optional sign, `+` or `-`,
/// and at least one digit (`1e3`, `1e+3`, `1e-3`, `2.5E-10`).
pub proof fn decimal_literals_are_numbers(
    whole: Seq<char>,
    fraction: Option<Seq<char>>,
    exponent: Option<(char, Option<char>, Seq<char>)>,
)
    requires
        all_digits(whole),
        fraction matches Some(f) ==> all_digits(f),
        whole.len() > 0 || (fraction matches Some(f) && f.len() > 0),
        exponent matches Some((e, sign, d)) ==> (e == 'e' || e == 'E') && (sign matches Some(c)
            ==> c == '+' || c == '-') && d.len() > 0 && all_digits(d),
    ensures
        valid_number(
            whole + match fraction {
                Some(f) => seq!['.'] + f,
                None => Seq::empty(),
            } + match exponent {
                Some((e, sign, d)) => seq![e] + match sign {
                    Some(c) => seq![c],
                    None => Seq::empty(),
                } + d,
                None => Seq::empty(),
            },
        ),
{
    let m = whole + match fraction {
        Some(f) => seq!['.'] + f,
        None => Seq::<char>::empty(),
    };
    let x = match exponent {
        Some((e, sign, d)) => seq![e] + match sign {
            Some(c) => seq![c],
            None => Seq::<char>::empty(),
        } + d,
        None => Seq::<char>::empty(),
    };
    let t = m + x;
    assert forall|j: int| 0 <= j < m.len() implies m[j] != 'e' && m[j] != 'E' && (
    crate::token_model::is_digit(#[trigger] m[j]) || m[j] == '.') by {
        if j < whole.len() {
            assert(m[j] == whole[j]);
        } else if let Some(f) = fraction {
            if j > whole.len() {
                assert(m[j] == f[j - whole.len() - 1]);
            }
        }
    }
    assert forall|j: int| 0 <= j < m.len() implies t[j] != 'e' && t[j] != 'E' by {
        assert(t[j] == m[j]);
    }
    lemma_exponent_start_skip(t, 0, m.len() as int);
    assert(exponent_start(t, m.len() as int) == m.len()) by {
        if x.len() > 0 {
            assert(t[m.len() as int] == x[0]);
        }
    }
    assert(t.subrange(0, m.len() as int) =~= m);
    lemma_count_char_digits(whole);
    if let Some(f) = fraction {
        lemma_count_char_digits(f);
        lemma_count_char_concat(seq!['.'], f, '.');
        lemma_count_char_concat(whole, seq!['.'] + f, '.');
        assert(seq!['.'].drop_last() =~= Seq::<char>::empty());
        assert(count_char(Seq::<char>::empty(), '.') == 0);
        assert(count_char(seq!['.'], '.') == 1);
        assert(m == whole + (seq!['.'] + f));
        if whole.len() == 0 {
            assert(crate::token_model::is_digit(m[1]));
        }
    } else {
        assert(m =~= whole);
    }
    if whole.len() > 0 {
        assert(crate::token_model::is_digit(m[0]));
    }
    if let Some((e, sign, d)) = exponent {
        let tail = t.subrange(m.len() as int, t.len() as int);
        assert(tail =~= x);
        match sign {
            Some(c) => {
                assert(x.subrange(2, x.len() as int) =~= d);
            },
            None => {
                assert(x.subrange(1, x.len() as int) =~= d);
                assert(x[1] == d[0]);
            },
        }
    } else {
        assert(t =~= m);
    }
    let k = exponent_start(t, 0);
    assert(k == m.len());
    assert(count_char(m, '.') <= 1);
    assert(exists|i: int| 0 <= i < m.len() && crate::token_model::is_digit(#[trigger] m[i]));
    assert(crate::token_model::valid_mantissa(t.subrange(0, k)));
    assert(k == t.len() || crate::token_model::valid_exponent(t.subrange(k, t.len() as int)));
}

proof fn lemma_exponent_start_props(t: Seq<char>, i: int)
    requires
        0 <= i <= t.len(),
    ensures
        i <= exponent_start(t, i) <= t.len(),
        exponent_start(t, i) < t.len() ==> (t[exponent_start(t, i)] == 'e' || t[exponent_start(t, i)] == 'E'),
        forall|j: int| i <= j < exponent_start(t, i) ==> t[j] != 'e' && t[j] != 'E',
    decreases t.len() - i,
{
    if i < t.len() && t[i] != 'e' && t[i] != 'E' {
        lemma_exponent_start_props(t, i + 1);
    }
}

/// The text form refuses a run of number characters that `f64::from_str`
/// refuses in these ways: one without a digit; one that ends in `e`, `E`,
/// `+` or `-`; and one with a sign anywhere but right after `e` or `E`
/// (so `1-2` and `1e` are no numbers).
pub proof fn malformed_literals_are_refused(t: Seq<char>, i: int)
    ensures
        (forall|j: int| 0 <= j < t.len() ==> !crate::token_model::is_digit(#[trigger] t[j]))
            ==> !valid_number(t),
        t.len() > 0 && (t.last() == 'e' || t.last() == 'E' || t.last() == '+' || t.last() == '-')
            ==> !valid_number(t),
        0 <= i < t.len() && (t[i] == '+' || t[i] == '-') && (i == 0 || (t[i - 1] != 'e' && t[i
            - 1] != 'E')) ==> !valid_number(t),
{
    lemma_exponent_start_props(t, 0);
    let k = exponent_start(t, 0);
    let m = t.subrange(0, k);
    let x = t.subrange(k, t.len() as int);
    if valid_number(t) {
        assert(crate::token_model::valid_mantissa(m));
        let d = choose|j: int| 0 <= j < m.len() && crate::token_model::is_digit(#[trigger] m[j]);
        assert(m[d] == t[d]);
        if t.len() > 0 {
            let n = t.len() - 1;
            if k == t.len() {
                assert(m[n] == t[n]);
            } else {
                assert(x[x.len() - 1] == t[n]);
                if x[1] == '+' || x[1] == '-' {
                    assert(x.subrange(2, x.len() as int)[x.len() - 3] == x[x.len() - 1]);
                } else {
                    assert(x.subrange(1, x.len() as int)[x.len() - 2] == x[x.len() - 1]);
                }
            }
        }
        if 0 <= i < t.len() && (t[i] == '+' || t[i] == '-') {
            if i < k {
                assert(m[i] == t[i]);
            } else if i > k + 1 {
                assert(x[i - k] == t[i]);
                if x[1] == '+' || x[1] == '-' {
                    assert(x.subrange(2, x.len() as int)[i - k - 2] == x[i - k]);
                } else {
                    assert(x.subrange(1, x.len() as int)[i - k - 1] == x[i - k]);
                }
            } else if i == k + 1 {
                assert(x[0] == t[k]);
            }
        }
    }
}

/// The primitive names of the table differ from one another.
proof fn lemma_primitive_names_distinct()
    ensures
        "sphere"@ != "box"@,
        "sphere"@ != "cylinder"@,
        "sphere"@ != "capsule"@,
        "sphere"@ != "cone"@,
        "sphere"@ != "torus"@,
        "sphere"@ != "plane"@,
        "sphere"@ != "ellipsoid"@,
        "sphere"@ != "cube"@,
        "box"@ != "cylinder"@,
        "box"@ != "capsule"@,
        "box"@ != "cone"@,
        "box"@ != "torus"@,
        "box"@ != "plane"@,
        "box"@ != "ellipsoid"@,
        "box"@ != "cube"@,
        "cylinder"@ != "capsule"@,
        "cylinder"@ != "cone"@,
        "cylinder"@ != "torus"@,
        "cylinder"@ != "plane"@,
        "cylinder"@ != "ellipsoid"@,
        "cylinder"@ != "cube"@,
        "capsule"@ != "cone"@,
        "capsule"@ != "torus"@,
        "capsule"@ != "plane"@,
        "capsule"@ != "ellipsoid"@,
        "capsule"@ != "cube"@,
        "cone"@ != "torus"@,
        "cone"@ != "plane"@,
        "cone"@ != "ellipsoid"@,
        "cone"@ != "cube"@,
        "torus"@ != "plane"@,
        "torus"@ != "ellipsoid"@,
        "torus"@ != "cube"@,
        "plane"@ != "ellipsoid"@,
        "plane"@ != "cube"@,
        "ellipsoid"@ != "cube"@,
{
    reveal_strlit("sphere");
    reveal_strlit("box");
    reveal_strlit("cylinder");
    reveal_strlit("capsule");
    reveal_strlit("cone");
    reveal_strlit("torus");
    reveal_strlit("plane");
    reveal_strlit("ellipsoid");
    reveal_strlit("cube");
    assert("sphere"@.len() == 6);
    assert("box"@.len() == 3);
    assert("cylinder"@.len() == 8);
    assert("capsule"@.len() == 7);
    assert("cone"@.len() == 4);
    assert("torus"@.len() == 5);
    assert("plane"@.len() == 5);
    assert("ellipsoid"@.len() == 9);
    assert("cube"@.len() == 4);
    assert("cone"@[1] == 'o' && "cube"@[1] == 'u');
    assert("torus"@[0] == 't' && "plane"@[0] == 'p');
}

/// The property names of the table differ from one another.
proof fn lemma_property_names_distinct()
    ensures
        "radius"@ != "size"@,
        "radius"@ != "at"@,
        "radius"@ != "mat"@,
        "radius"@ != "k"@,
        "radius"@ != "rot"@,
        "radius"@ != "scale"@,
        "radius"@ != "height"@,
        "radius"@ != "width"@,
        "radius"@ != "depth"@,
        "radius"@ != "center"@,
        "radius"@ != "axis"@,
        "radius"@ != "normal"@,
        "radius"@ != "inner_radius"@,
        "radius"@ != "outer_radius"@,
        "size"@ != "at"@,
        "size"@ != "mat"@,
        "size"@ != "k"@,
        "size"@ != "rot"@,
        "size"@ != "scale"@,
        "size"@ != "height"@,
        "size"@ != "width"@,
        "size"@ != "depth"@,
        "size"@ != "center"@,
        "size"@ != "axis"@,
        "size"@ != "normal"@,
        "size"@ != "inner_radius"@,
        "size"@ != "outer_radius"@,
        "at"@ != "mat"@,
        "at"@ != "k"@,
        "at"@ != "rot"@,
        "at"@ != "scale"@,
        "at"@ != "height"@,
        "at"@ != "width"@,
        "at"@ != "depth"@,
        "at"@ != "center"@,
        "at"@ != "axis"@,
        "at"@ != "normal"@,
        "at"@ != "inner_radius"@,
        "at"@ != "outer_radius"@,
        "mat"@ != "k"@,
        "mat"@ != "rot"@,
        "mat"@ != "scale"@,
        "mat"@ != "height"@,
        "mat"@ != "width"@,
        "mat"@ != "depth"@,
        "mat"@ != "center"@,
        "mat"@ != "axis"@,
        "mat"@ != "normal"@,
        "mat"@ != "inner_radius"@,
        "mat"@ != "outer_radius"@,
        "k"@ != "rot"@,
        "k"@ != "scale"@,
        "k"@ != "height"@,
        "k"@ != "width"@,
        "k"@ != "depth"@,
        "k"@ != "center"@,
        "k"@ != "axis"@,
        "k"@ != "normal"@,
        "k"@ != "inner_radius"@,
        "k"@ != "outer_radius"@,
        "rot"@ != "scale"@,
        "rot"@ != "height"@,
        "rot"@ != "width"@,
        "rot"@ != "depth"@,
        "rot"@ != "center"@,
        "rot"@ != "axis"@,
        "rot"@ != "normal"@,
        "rot"@ != "inner_radius"@,
        "rot"@ != "outer_radius"@,
        "scale"@ != "height"@,
        "scale"@ != "width"@,
        "scale"@ != "depth"@,
        "scale"@ != "center"@,
        "scale"@ != "axis"@,
        "scale"@ != "normal"@,
        "scale"@ != "inner_radius"@,
        "scale"@ != "outer_radius"@,
        "height"@ != "width"@,
        "height"@ != "depth"@,
        "height"@ != "center"@,
        "height"@ != "axis"@,
        "height"@ != "normal"@,
        "height"@ != "inner_radius"@,
        "height"@ != "outer_radius"@,
        "width"@ != "depth"@,
        "width"@ != "center"@,
        "width"@ != "axis"@,
        "width"@ != "normal"@,
        "width"@ != "inner_radius"@,
        "width"@ != "outer_radius"@,
        "depth"@ != "center"@,
        "depth"@ != "axis"@,
        "depth"@ != "normal"@,
        "depth"@ != "inner_radius"@,
        "depth"@ != "outer_radius"@,
        "center"@ != "axis"@,
        "center"@ != "normal"@,
        "center"@ != "inner_radius"@,
        "center"@ != "outer_radius"@,
        "axis"@ != "normal"@,
        "axis"@ != "inner_radius"@,
        "axis"@ != "outer_radius"@,
        "normal"@ != "inner_radius"@,
        "normal"@ != "outer_radius"@,
        "inner_radius"@ != "outer_radius"@,
{
    reveal_strlit("radius");
    reveal_strlit("size");
    reveal_strlit("at");
    reveal_strlit("mat");
    reveal_strlit("k");
    reveal_strlit("rot");
    reveal_strlit("scale");
    reveal_strlit("height");
    reveal_strlit("width");
    reveal_strlit("depth");
    reveal_strlit("center");
    reveal_strlit("axis");
    reveal_strlit("normal");
    reveal_strlit("inner_radius");
    reveal_strlit("outer_radius");
    assert("radius"@.len() == 6);
    assert("size"@.len() == 4);
    assert("at"@.len() == 2);
    assert("mat"@.len() == 3);
    assert("k"@.len() == 1);
    assert("rot"@.len() == 3);
    assert("scale"@.len() == 5);
    assert("height"@.len() == 6);
    assert("width"@.len() == 5);
    assert("depth"@.len() == 5);
    assert("center"@.len() == 6);
    assert("axis"@.len() == 4);
    assert("normal"@.len() == 6);
    assert("inner_radius"@.len() == 12);
    assert("outer_radius"@.len() == 12);
    assert("radius"@[0] == 'r' && "height"@[0] == 'h');
    assert("radius"@[0] == 'r' && "center"@[0] == 'c');
    assert("radius"@[0] == 'r' && "normal"@[0] == 'n');
    assert("size"@[0] == 's' && "axis"@[0] == 'a');
    assert("mat"@[0] == 'm' && "rot"@[0] == 'r');
    assert("scale"@[0] == 's' && "width"@[0] == 'w');
    assert("scale"@[0] == 's' && "depth"@[0] == 'd');
    assert("height"@[0] == 'h' && "center"@[0] == 'c');
    assert("height"@[0] == 'h' && "normal"@[0] == 'n');
    assert("width"@[0] == 'w' && "depth"@[0] == 'd');
    assert("center"@[0] == 'c' && "normal"@[0] == 'n');
    assert("inner_radius"@[0] == 'i' && "outer_radius"@[0] == 'o');
}

/// The name tables are one-to-one both ways: a known tag reads as a name
/// whose tag it is, and a name with a tag is the name that tag reads as;
/// no name has the tag 0, which marks a name spelled out.
pub proof fn name_tables_one_to_one(table: NameTable, tag: u8, name: Seq<char>)
    ensures
        table_name(table, tag) == Some(name) ==> table_tag(table, name) == Some(tag) && tag != 0,
        table_tag(table, name) == Some(tag) ==> table_name(table, tag) == Some(name) && tag != 0,
{
    crate::tags::lemma_table_roundtrip(table, name);
    lemma_primitive_names_distinct();
    lemma_property_names_distinct();
    reveal_strlit("sphere");
    reveal_strlit("box");
    reveal_strlit("cylinder");
    reveal_strlit("capsule");
    reveal_strlit("cone");
    reveal_strlit("torus");
    reveal_strlit("plane");
    reveal_strlit("ellipsoid");
    reveal_strlit("cube");
    reveal_strlit("radius");
    reveal_strlit("size");
    reveal_strlit("at");
    reveal_strlit("mat");
    reveal_strlit("k");
    reveal_strlit("rot");
    reveal_strlit("scale");
    reveal_strlit("height");
    reveal_strlit("width");
    reveal_strlit("depth");
    reveal_strlit("center");
    reveal_strlit("axis");
    reveal_strlit("normal");
    reveal_strlit("inner_radius");
    reveal_strlit("outer_radius");
}

/// The primitive tags of the binary form.
pub proof fn primitive_tags_of_the_format()
    ensures
        table_tag(NameTable::Primitive, "sphere"@) == Some(1u8),
        table_tag(NameTable::Primitive, "box"@) == Some(2u8),
        table_tag(NameTable::Primitive, "cylinder"@) == Some(3u8),
        table_tag(NameTable::Primitive, "capsule"@) == Some(4u8),
        table_tag(NameTable::Primitive, "cone"@) == Some(5u8),
        table_tag(NameTable::Primitive, "torus"@) == Some(6u8),
        table_tag(NameTable::Primitive, "plane"@) == Some(7u8),
        table_tag(NameTable::Primitive, "ellipsoid"@) == Some(8u8),
        table_tag(NameTable::Primitive, "cube"@) == Some(9u8),
{
    lemma_primitive_names_distinct();
    reveal_strlit("sphere");
    reveal_strlit("box");
    reveal_strlit("cylinder");
    reveal_strlit("capsule");
    reveal_strlit("cone");
    reveal_strlit("torus");
    reveal_strlit("plane");
    reveal_strlit("ellipsoid");
    reveal_strlit("cube");
}

/// The property tags of the binary form.
pub proof fn property_tags_of_the_format()
    ensures
        table_tag(NameTable::Property, "radius"@) == Some(1u8),
        table_tag(NameTable::Property, "size"@) == Some(2u8),
        table_tag(NameTable::Property, "at"@) == Some(3u8),
        table_tag(NameTable::Property, "mat"@) == Some(4u8),
        table_tag(NameTable::Property, "k"@) == Some(5u8),
        table_tag(NameTable::Property, "rot"@) == Some(6u8),
        table_tag(NameTable::Property, "scale"@) == Some(7u8),
        table_tag(NameTable::Property, "height"@) == Some(8u8),
        table_tag(NameTable::Property, "width"@) == Some(9u8),
        table_tag(NameTable::Property, "depth"@) == Some(10u8),
        table_tag(NameTable::Property, "center"@) == Some(11u8),
        table_tag(NameTable::Property, "axis"@) == Some(12u8),
        table_tag(NameTable::Property, "normal"@) == Some(13u8),
        table_tag(NameTable::Property, "inner_radius"@) == Some(14u8),
        table_tag(NameTable::Property, "outer_radius"@) == Some(15u8),
{
    lemma_property_names_distinct();
    reveal_strlit("radius");
    reveal_strlit("size");
    reveal_strlit("at");
    reveal_strlit("mat");
    reveal_strlit("k");
    reveal_strlit("rot");
    reveal_strlit("scale");
    reveal_strlit("height");
    reveal_strlit("width");
    reveal_strlit("depth");
    reveal_strlit("center");
    reveal_strlit("axis");
    reveal_strlit("normal");
    reveal_strlit("inner_radius");
    reveal_strlit("outer_radius");
}

/// The byte of each operation in the binary form: union 0, difference 1,
/// intersection 2, paint 3.
pub open spec fn operation_byte(op: Operation) -> u8 {
    match op {
        Operation::Union => 0,
        Operation::Difference => 1,
        Operation::Intersection => 2,
        Operation::Paint => 3,
    }
}

/// An edit is written with its operation's byte first, right after the
/// statement's tag 1; and an edit read from bytes has the operation whose
/// byte stands first: so a difference is written, and read, as 1.
pub proof fn operation_bytes_of_the_format(e: EditModel, b: Seq<u8>, p: int)
    requires
        0 <= p,
    ensures
        wr_edit(e) matches Ok(x) ==> x.len() > 0 && x[0] == operation_byte(e.operation),
        wr_statement(StatementModel::Edit(e)) matches Ok(x) ==> x.len() > 1 && x[0] == 1
            && x[1] == operation_byte(e.operation),
        rd_edit(b, p) matches Ok((x, q)) ==> 0 <= p < b.len() && b[p] == operation_byte(
            x.operation,
        ),
{
    reveal(wr_edit);
    reveal(wr_statement);
    reveal(rd_edit);
}

/// The edit operations of the text form: `+` is a union, `-` a difference,
/// `^` an intersection and `?` paint.
pub proof fn operation_signs_of_the_text_form()
    ensures
        operation_of(KindModel::Plus) == Some(Operation::Union),
        operation_of(KindModel::Minus) == Some(Operation::Difference),
        operation_of(KindModel::Caret) == Some(Operation::Intersection),
        operation_of(KindModel::Question) == Some(Operation::Paint),
{
}

/// The upper-case letter of a lower-case ASCII letter.
pub open spec fn upper(c: char) -> char {
    if 'a' <= c <= 'z' {
        ((c as u32) - 32) as char
    } else {
        c
    }
}

/// The name that `{:?}` gives an operation is its lower-case name with the
/// first letter in upper case: `Difference` for a difference.
pub proof fn operation_debug_is_capitalized_name(op: Operation)
    ensures
        operation_name(op).len() > 0,
        operation_debug(op) == seq![upper(operation_name(op)[0])] + operation_name(op).drop_first(),
{
    reveal_strlit("union");
    reveal_strlit("difference");
    reveal_strlit("intersection");
    reveal_strlit("paint");
    reveal_strlit("Union");
    reveal_strlit("Difference");
    reveal_strlit("Intersection");
    reveal_strlit("Paint");
    let n = operation_name(op);
    assert(operation_debug(op) =~= seq![upper(n[0])] + n.drop_first());
}

} // verus!
